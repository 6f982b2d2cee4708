//! The snapshot session's own bookkeeping: where its files live, how
//! snapshots are numbered, what a walk may visit, and how a new manifest is
//! put together from a walk's result. The walking, hashing of files on disk
//! and writing of JSON is the caller's part.
use vstd::prelude::*;
use vstd::string::StringExecFns;
use crate::budget::{check_spec, BudgetError, WalkBudget};
use crate::diff::{changes_view, compute_changes, is_diff, sizes_fit};
use crate::exclusion::{excluded_spec, ExclusionFilter};
use crate::file_map::FileMap;
use crate::paths::{join_path, join_spec};
use crate::restore::{is_restore_diff, restore_deletions, restore_deletions_spec, restore_diff, restore_writes, restore_writes_spec, validate_manifest_paths, path_allowed, ManifestError};
use crate::snapshot_types::{Change, ContentHash, SnapshotManifest};
use crate::store::ObjectStore;
use crate::text::{decimal, string_views, u64_to_decimal};

verus! {

/// `digits` padded on the left with zeros to at least `width` characters
/// (`{:0width$}`).
pub open spec fn zero_padded(digits: Seq<char>, width: nat) -> Seq<char> {
    if digits.len() >= width {
        digits
    } else {
        Seq::new((width - digits.len()) as nat, |i: int| '0') + digits
    }
}

/// The file name of a numbered JSON record: three digits at least.
pub open spec fn numbered_json(n: nat) -> Seq<char> {
    zero_padded(decimal(n), 3) + ".json"@
}

/// `n` in decimal, zero-padded to three digits, then `.json`.
fn numbered_json_exec(n: u32) -> (r: String)
    ensures
        r@ == numbered_json(n as nat),
{
    let digits = u64_to_decimal(n as u64);
    let mut out = String::new();
    let ghost d = digits@;
    let mut pad: usize = 0;
    let dlen = crate::text::chars_of(digits.as_str()).len();
    if dlen < 3 {
        pad = 3 - dlen;
    }
    let mut k: usize = 0;
    while k < pad
        invariant
            k <= pad,
            out@ == Seq::new(k as nat, |i: int| '0'),
        decreases pad - k,
    {
        out.append("0");
        proof {
            reveal_strlit("0");
            assert(out@ =~= Seq::new((k + 1) as nat, |i: int| '0'));
        }
        k = k + 1;
    }
    out.append(digits.as_str());
    out.append(".json");
    proof {
        if d.len() < 3 {
            assert(pad == 3 - d.len());
        } else {
            assert(pad == 0);
            assert(Seq::new(0nat, |i: int| '0') + d =~= d);
        }
    }
    out
}

/// Running totals of a walk: files visited and bytes seen.
pub struct WalkTally {
    pub entries: usize,
    pub bytes: u64,
}

impl WalkTally {
    /// Nothing visited yet.
    pub fn new() -> (r: Self)
        ensures
            r.entries == 0,
            r.bytes == 0,
    {
        WalkTally { entries: 0, bytes: 0 }
    }

    /// Counts one more file of `size` bytes, then checks the budget.
    pub fn record(&mut self, budget: &WalkBudget, size: u64) -> (r: Result<(), BudgetError>)
        requires
            old(self).entries < usize::MAX,
            old(self).bytes + size <= u64::MAX,
        ensures
            final(self).entries == old(self).entries + 1,
            final(self).bytes == old(self).bytes + size,
            r == check_spec(budget.max_entries, budget.max_bytes, final(self).entries, final(self).bytes),
    {
        self.bytes = self.bytes + size;
        self.entries = self.entries + 1;
        budget.check(self.entries, self.bytes)
    }
}

/// A snapshot session: its directory, the roots it tracks, its exclusion
/// rules, its object store, its walk budget and how many snapshots it holds.
pub struct SnapshotManager {
    session_dir: String,
    tracked_paths: Vec<String>,
    exclusion: ExclusionFilter,
    store: ObjectStore,
    budget: WalkBudget,
    snapshot_count: u32,
}

impl SnapshotManager {
    /// The session directory.
    pub closed spec fn dir(&self) -> Seq<char> {
        self.session_dir@
    }

    /// The tracked roots.
    pub closed spec fn roots(&self) -> Seq<Seq<char>> {
        string_views(self.tracked_paths@)
    }

    /// The number of snapshots taken.
    pub closed spec fn count(&self) -> u32 {
        self.snapshot_count
    }

    /// The exclusion rules.
    pub closed spec fn filter(&self) -> ExclusionFilter {
        self.exclusion
    }

    /// The walk limits.
    pub closed spec fn limits(&self) -> WalkBudget {
        self.budget
    }

    /// The object store.
    pub closed spec fn objects(&self) -> ObjectStore {
        self.store
    }

    /// A session in `session_dir` with no snapshot yet; its objects live in
    /// `session_dir/cache`. Creating the `snapshots`, `changes` and store
    /// directories is the caller's part.
    pub fn new(session_dir: String, tracked_paths: Vec<String>, exclusion: ExclusionFilter, budget: WalkBudget) -> (r: Self)
        ensures
            r.dir() == session_dir@,
            r.roots() == string_views(tracked_paths@),
            r.filter() == exclusion,
            r.limits() == budget,
            r.objects().dir() == join_spec(join_spec(session_dir@, "cache"@), "objects"@),
            r.count() == 0,
    {
        let cache = join_path(session_dir.as_str(), "cache");
        let store = ObjectStore::new(cache.as_str());
        SnapshotManager { session_dir, tracked_paths, exclusion, store, budget, snapshot_count: 0 }
    }

    /// How many snapshots the session holds.
    pub fn snapshot_count(&self) -> (r: u32)
        ensures
            r == self.count(),
    {
        self.snapshot_count
    }

    /// The tracked roots.
    pub fn tracked_paths(&self) -> (r: &Vec<String>)
        ensures
            string_views(r@) == self.roots(),
    {
        &self.tracked_paths
    }

    /// The exclusion rules.
    pub fn exclusion(&self) -> (r: &ExclusionFilter)
        ensures
            *r == self.filter(),
    {
        &self.exclusion
    }

    /// The object store.
    pub fn store(&self) -> (r: &ObjectStore)
        ensures
            *r == self.objects(),
    {
        &self.store
    }

    /// The walk limits.
    pub fn budget(&self) -> (r: &WalkBudget)
        ensures
            *r == self.limits(),
    {
        &self.budget
    }

    /// Is a walked path left out of snapshots?
    pub fn is_excluded(&self, path: &str) -> (r: bool)
        ensures
            r == excluded_spec(self.filter().forced(), self.filter().patterns(), self.filter().globs(), path@),
    {
        self.exclusion.is_excluded(path)
    }

    /// Where the session record lives.
    pub fn session_file(&self) -> (r: String)
        ensures
            r@ == join_spec(self.dir(), "session.json"@),
    {
        join_path(self.session_dir.as_str(), "session.json")
    }

    /// The directory of the manifests.
    pub fn snapshots_dir(&self) -> (r: String)
        ensures
            r@ == join_spec(self.dir(), "snapshots"@),
    {
        join_path(self.session_dir.as_str(), "snapshots")
    }

    /// The directory of the change lists.
    pub fn changes_dir(&self) -> (r: String)
        ensures
            r@ == join_spec(self.dir(), "changes"@),
    {
        join_path(self.session_dir.as_str(), "changes")
    }

    /// Where manifest `number` is saved: `snapshots/NNN.json`.
    pub fn manifest_path(&self, number: u32) -> (r: String)
        ensures
            r@ == join_spec(self.dir(), "snapshots/"@ + numbered_json(number as nat)),
    {
        let mut rel = String::from_str("snapshots/");
        rel.append(numbered_json_exec(number).as_str());
        join_path(self.session_dir.as_str(), rel.as_str())
    }

    /// Where the changes of snapshot `number` are saved: `changes/NNN.json`.
    pub fn changes_path(&self, number: u32) -> (r: String)
        ensures
            r@ == join_spec(self.dir(), "changes/"@ + numbered_json(number as nat)),
    {
        let mut rel = String::from_str("changes/");
        rel.append(numbered_json_exec(number).as_str());
        join_path(self.session_dir.as_str(), rel.as_str())
    }

    /// Turns the first walk into snapshot 0 (the baseline); the session then
    /// holds one snapshot.
    pub fn finish_baseline(&mut self, files: FileMap, merkle_root: ContentHash, timestamp: String) -> (r: SnapshotManifest)
        ensures
            r.number == 0,
            r.parent.is_none(),
            r.files == files,
            r.merkle_root == merkle_root,
            r.timestamp == timestamp,
            final(self).count() == 1,
            final(self).dir() == old(self).dir(),
            final(self).roots() == old(self).roots(),
            final(self).filter() == old(self).filter(),
            final(self).limits() == old(self).limits(),
            final(self).objects() == old(self).objects(),
    {
        self.snapshot_count = 1;
        SnapshotManifest { number: 0, timestamp, parent: None, files, merkle_root }
    }

    /// Turns a later walk into the next snapshot: numbered one past the
    /// previous one, with the previous one as parent, and the changes since
    /// then. The session then holds `number + 1` snapshots.
    pub fn finish_incremental(&mut self, previous: &SnapshotManifest, files: FileMap, merkle_root: ContentHash, timestamp: String) -> (r: (SnapshotManifest, Vec<Change>))
        requires
            previous.files.wf(),
            files.wf(),
            sizes_fit(previous.files@),
            sizes_fit(files@),
            previous.number + 2 <= u32::MAX,
        ensures
            r.0.number == previous.number + 1,
            r.0.parent == Some(previous.number),
            r.0.files == files,
            r.0.merkle_root == merkle_root,
            r.0.timestamp == timestamp,
            is_diff(previous.files@, files@, changes_view(r.1@)),
            final(self).count() == previous.number + 2,
            final(self).dir() == old(self).dir(),
            final(self).roots() == old(self).roots(),
            final(self).filter() == old(self).filter(),
            final(self).limits() == old(self).limits(),
            final(self).objects() == old(self).objects(),
    {
        let changes = compute_changes(&previous.files, &files);
        let number = previous.number + 1;
        self.snapshot_count = number + 1;
        (SnapshotManifest { number, timestamp, parent: Some(previous.number), files, merkle_root }, changes)
    }

    /// Refuses a manifest that holds a `..` path or a path outside the
    /// tracked roots.
    pub fn validate_manifest_paths(&self, manifest: &SnapshotManifest) -> (r: Result<(), ManifestError>)
        ensures
            r is Ok == forall|k: int| 0 <= k < manifest.files@.len() ==> path_allowed(#[trigger] manifest.files@[k].0, self.roots()),
    {
        let r = validate_manifest_paths(self.tracked_paths.as_slice(), &manifest.files);
        proof {
            if r is Err {
                let k = choose|k: int| {
                    &&& 0 <= k < manifest.files@.len()
                    &&& forall|j: int| 0 <= j < k ==> path_allowed(#[trigger] manifest.files@[j].0, self.roots())
                    &&& !path_allowed(#[trigger] manifest.files@[k].0, self.roots())
                    &&& r->Err_0.path_view() == manifest.files@[k].0
                    &&& (r->Err_0 is ParentDirTraversal <==> crate::paths::has_parent_dir(manifest.files@[k].0))
                };
                assert(!path_allowed(manifest.files@[k].0, self.roots()));
            }
        }
        r
    }

    /// What a restore to `manifest` must do, given the tree as it is now:
    /// the files to write back and the files to delete. Nothing is decided
    /// for a manifest that fails validation.
    pub fn plan_restore(&self, manifest: &SnapshotManifest, current: &FileMap) -> (r: Result<(Vec<Change>, Vec<Change>), ManifestError>)
        requires
            manifest.files.wf(),
            current.wf(),
        ensures
            r is Ok == forall|k: int| 0 <= k < manifest.files@.len() ==> path_allowed(#[trigger] manifest.files@[k].0, self.roots()),
            r matches Ok(p) ==> changes_view(p.0@) == restore_writes_spec(manifest.files@, current@)
                && changes_view(p.1@) == restore_deletions_spec(manifest.files@, current@),
    {
        match self.validate_manifest_paths(manifest) {
            Ok(()) => Ok((restore_writes(&manifest.files, current), restore_deletions(&manifest.files, current))),
            Err(e) => Err(e),
        }
    }

    /// The dry run of a restore: what it would change, sorted by path.
    pub fn restore_preview(&self, manifest: &SnapshotManifest, current: &FileMap) -> (r: Result<Vec<Change>, ManifestError>)
        requires
            manifest.files.wf(),
            current.wf(),
            sizes_fit(manifest.files@),
            sizes_fit(current@),
        ensures
            r is Ok == forall|k: int| 0 <= k < manifest.files@.len() ==> path_allowed(#[trigger] manifest.files@[k].0, self.roots()),
            r matches Ok(c) ==> is_restore_diff(manifest.files@, current@, changes_view(c@)),
    {
        match self.validate_manifest_paths(manifest) {
            Ok(()) => Ok(restore_diff(&manifest.files, current)),
            Err(e) => Err(e),
        }
    }
}

} // verus!
