//! What restoring a snapshot does, decided before any file is touched:
//! which manifests may be restored at all, which files must be written back
//! or deleted, and the dry-run diff shown to the user.
use vstd::prelude::*;
use vstd::string::StringExecFns;
use crate::diff::{
    changes_view, compute_changes, created_change, has_source, is_diff, prev_entry_change, sizes_fit,
};
use crate::replay::{content_after, content_of, lemma_content_at, lemma_sorted_unique, touches};
use crate::file_map::{entries_view, has_key, lemma_lookup_found, lookup, sorted_keys, FileMap};
use crate::paths::{contains_parent_dir, has_parent_dir, lemma_path_order, path_eq, path_lt, path_starts_with, starts_with_path};
use crate::snapshot_types::{Change, ChangeType, ChangeView, ContentHash, FileState};
use crate::text::string_views;

verus! {

/// Why a manifest may not be restored.
#[derive(Debug, Clone)]
pub enum ManifestError {
    /// A path climbs out with `..`.
    ParentDirTraversal(String),
    /// A path lies outside every tracked directory.
    OutsideTracked(String),
}

impl ManifestError {
    /// The offending path.
    pub open spec fn path_view(&self) -> Seq<char> {
        match self {
            ManifestError::ParentDirTraversal(p) => p@,
            ManifestError::OutsideTracked(p) => p@,
        }
    }

    /// The text of the error.
    pub open spec fn message_spec(&self) -> Seq<char> {
        match self {
            ManifestError::ParentDirTraversal(p) =>
                "manifest contains path with parent directory traversal: "@ + p@,
            ManifestError::OutsideTracked(p) =>
                "manifest contains path outside tracked directories: "@ + p@,
        }
    }

    /// The message shown to the user.
    pub fn message(&self) -> (r: String)
        ensures
            r@ == self.message_spec(),
    {
        match self {
            ManifestError::ParentDirTraversal(p) => {
                let mut m = String::from_str("manifest contains path with parent directory traversal: ");
                m.append(p.as_str());
                m
            },
            ManifestError::OutsideTracked(p) => {
                let mut m = String::from_str("manifest contains path outside tracked directories: ");
                m.append(p.as_str());
                m
            },
        }
    }
}

/// Does the path lie under one of the tracked roots?
pub open spec fn within_tracked(p: Seq<char>, roots: Seq<Seq<char>>) -> bool {
    exists|i: int| 0 <= i < roots.len() && path_starts_with(p, #[trigger] roots[i])
}

/// May a manifest hold this path? No `..`, and under a tracked root.
pub open spec fn path_allowed(p: Seq<char>, roots: Seq<Seq<char>>) -> bool {
    !has_parent_dir(p) && within_tracked(p, roots)
}

/// Does the path lie under one of the tracked roots?
fn within_tracked_exec(p: &str, roots: &[String]) -> (r: bool)
    ensures
        r == within_tracked(p@, string_views(roots@)),
{
    let mut i: usize = 0;
    while i < roots.len()
        invariant
            i <= roots@.len(),
            forall|k: int| 0 <= k < i ==> !path_starts_with(p@, #[trigger] string_views(roots@)[k]),
        decreases roots.len() - i,
    {
        proof {
            assert(string_views(roots@)[i as int] == roots@[i as int]@);
        }
        if starts_with_path(p, roots[i].as_str()) {
            return true;
        }
        i = i + 1;
    }
    false
}

/// Checks every path of a manifest, in path order, before anything is
/// restored: the first path with a `..` component, or outside every
/// tracked root, is refused.
pub fn validate_manifest_paths(roots: &[String], files: &FileMap) -> (r: Result<(), ManifestError>)
    ensures
        match r {
            Ok(()) => forall|k: int| 0 <= k < files@.len() ==> path_allowed(#[trigger] files@[k].0, string_views(roots@)),
            Err(e) => exists|k: int| {
                &&& 0 <= k < files@.len()
                &&& forall|j: int| 0 <= j < k ==> path_allowed(#[trigger] files@[j].0, string_views(roots@))
                &&& !path_allowed(#[trigger] files@[k].0, string_views(roots@))
                &&& e.path_view() == files@[k].0
                &&& (e is ParentDirTraversal <==> has_parent_dir(files@[k].0))
            },
        },
{
    let entries = files.entries();
    let ghost fs = files@;
    let ghost tv = string_views(roots@);
    let mut i: usize = 0;
    while i < entries.len()
        invariant
            fs == files@,
            tv == string_views(roots@),
            entries_view(entries@) == fs,
            i <= fs.len(),
            forall|j: int| 0 <= j < i ==> path_allowed(#[trigger] fs[j].0, tv),
        decreases entries.len() - i,
    {
        let path = &entries[i].path;
        proof {
            assert(fs[i as int].0 == path@);
        }
        if contains_parent_dir(path.as_str()) {
            return Err(ManifestError::ParentDirTraversal(path.clone()));
        }
        if !within_tracked_exec(path.as_str(), roots) {
            return Err(ManifestError::OutsideTracked(path.clone()));
        }
        i = i + 1;
    }
    Ok(())
}

/// The change applied when restoring a target file: written back as
/// created when it is missing, as modified when its content differs,
/// nothing when it already matches. Sizes are not reported.
pub open spec fn write_change(path: Seq<char>, target: FileState, current: Option<FileState>) -> Option<ChangeView> {
    match current {
        Some(c) => if c.hash != target.hash {
            Some((path, ChangeType::Modified, None, Some(c.hash), Some(target.hash)))
        } else {
            None
        },
        None => Some((path, ChangeType::Created, None, None, Some(target.hash))),
    }
}

/// The files a restore writes back, in the target's path order.
pub open spec fn restore_writes_spec(target: Seq<(Seq<char>, FileState)>, current: Seq<(Seq<char>, FileState)>) -> Seq<ChangeView>
    decreases target.len(),
{
    if target.len() == 0 {
        Seq::empty()
    } else {
        let rest = restore_writes_spec(target.drop_last(), current);
        match write_change(target.last().0, target.last().1, lookup(current, target.last().0)) {
            Some(c) => rest.push(c),
            None => rest,
        }
    }
}

/// The files a restore deletes (those the target lacks), in the current
/// path order.
pub open spec fn restore_deletions_spec(target: Seq<(Seq<char>, FileState)>, current: Seq<(Seq<char>, FileState)>) -> Seq<ChangeView>
    decreases current.len(),
{
    if current.len() == 0 {
        Seq::empty()
    } else {
        let rest = restore_deletions_spec(target, current.drop_last());
        let e = current.last();
        if has_key(target, e.0) {
            rest
        } else {
            rest.push((e.0, ChangeType::Deleted, None, Some(e.1.hash), None))
        }
    }
}

/// The writes that bring the current tree back to the target manifest.
pub fn restore_writes(target: &FileMap, current: &FileMap) -> (r: Vec<Change>)
    requires
        current.wf(),
    ensures
        changes_view(r@) == restore_writes_spec(target@, current@),
{
    let entries = target.entries();
    let ghost ts = target@;
    let mut out: Vec<Change> = Vec::new();
    let mut i: usize = 0;
    while i < entries.len()
        invariant
            ts == target@,
            entries_view(entries@) == ts,
            current.wf(),
            i <= ts.len(),
            changes_view(out@) == restore_writes_spec(ts.take(i as int), current@),
        decreases entries.len() - i,
    {
        let e = &entries[i];
        proof {
            assert(ts.take(i + 1).drop_last() =~= ts.take(i as int));
            assert(ts.take(i + 1).last() == e@);
        }
        let ghost before = out@;
        match current.get(e.path.as_str()) {
            Some(cur) => {
                if !cur.hash.same_as(&e.state.hash) {
                    out.push(Change {
                        path: e.path.clone(),
                        change_type: ChangeType::Modified,
                        size_delta: None,
                        old_hash: Some(cur.hash),
                        new_hash: Some(e.state.hash),
                    });
                    proof {
                        assert(changes_view(out@) =~= changes_view(before).push(out@.last()@));
                    }
                }
            },
            None => {
                out.push(Change {
                    path: e.path.clone(),
                    change_type: ChangeType::Created,
                    size_delta: None,
                    old_hash: None,
                    new_hash: Some(e.state.hash),
                });
                proof {
                    assert(changes_view(out@) =~= changes_view(before).push(out@.last()@));
                }
            },
        }
        i = i + 1;
    }
    proof {
        assert(ts.take(ts.len() as int) =~= ts);
    }
    out
}

/// The deletions a restore makes: every current file the target lacks.
pub fn restore_deletions(target: &FileMap, current: &FileMap) -> (r: Vec<Change>)
    requires
        target.wf(),
    ensures
        changes_view(r@) == restore_deletions_spec(target@, current@),
{
    let entries = current.entries();
    let ghost cs = current@;
    let mut out: Vec<Change> = Vec::new();
    let mut i: usize = 0;
    while i < entries.len()
        invariant
            cs == current@,
            entries_view(entries@) == cs,
            target.wf(),
            i <= cs.len(),
            changes_view(out@) == restore_deletions_spec(target@, cs.take(i as int)),
        decreases entries.len() - i,
    {
        let e = &entries[i];
        proof {
            assert(cs.take(i + 1).drop_last() =~= cs.take(i as int));
            assert(cs.take(i + 1).last() == e@);
        }
        if !target.contains_key(e.path.as_str()) {
            let ghost before = out@;
            out.push(Change {
                path: e.path.clone(),
                change_type: ChangeType::Deleted,
                size_delta: None,
                old_hash: Some(e.state.hash),
                new_hash: None,
            });
            proof {
                assert(changes_view(out@) =~= changes_view(before).push(out@.last()@));
            }
        }
        i = i + 1;
    }
    proof {
        assert(cs.take(cs.len() as int) =~= cs);
    }
    out
}

/// Restoring a tree onto itself changes nothing: no file is written back and
/// none is deleted.
pub proof fn lemma_restore_onto_same_is_noop(s: Seq<(Seq<char>, FileState)>)
    requires
        sorted_keys(s),
    ensures
        restore_writes_spec(s, s).len() == 0,
        restore_deletions_spec(s, s).len() == 0,
{
    assert(s.take(s.len() as int) =~= s);
    lemma_writes_onto_superset(s, s);
    lemma_deletions_of_present(s, s);
}

proof fn lemma_writes_onto_superset(t: Seq<(Seq<char>, FileState)>, s: Seq<(Seq<char>, FileState)>)
    requires
        sorted_keys(s),
        t.len() <= s.len(),
        t == s.take(t.len() as int),
    ensures
        restore_writes_spec(t, s).len() == 0,
    decreases t.len(),
{
    if t.len() > 0 {
        let k = t.len() - 1;
        assert(t.drop_last() == s.take(k));
        lemma_writes_onto_superset(t.drop_last(), s);
        lemma_path_order(s[k].0, s[k].0, s[k].0);
        lemma_lookup_found(s, k, s[k].0);
        assert(t.last() == s[k]);
    }
}

proof fn lemma_deletions_of_present(t: Seq<(Seq<char>, FileState)>, c: Seq<(Seq<char>, FileState)>)
    requires
        c.len() <= t.len(),
        c == t.take(c.len() as int),
    ensures
        restore_deletions_spec(t, c).len() == 0,
    decreases c.len(),
{
    if c.len() > 0 {
        let k = c.len() - 1;
        assert(c.drop_last() == t.take(k));
        lemma_deletions_of_present(t, c.drop_last());
        lemma_path_order(t[k].0, t[k].0, t[k].0);
        assert(c.last() == t[k]);
        assert(path_eq(t[k].0, c.last().0));
        assert(has_key(t, c.last().0));
    }
}

/// Each write comes from one target file, and each target file that needs
/// writing has its write.
proof fn lemma_writes_from_target(t: Seq<(Seq<char>, FileState)>, c: Seq<(Seq<char>, FileState)>)
    ensures
        forall|i: int| #![trigger restore_writes_spec(t, c)[i]] 0 <= i < restore_writes_spec(t, c).len() ==> exists|k: int|
            0 <= k < t.len() && write_change(t[k].0, t[k].1, lookup(c, t[k].0)) == Some(#[trigger] restore_writes_spec(t, c)[i]),
        forall|k: int| #![trigger t[k]] 0 <= k < t.len() && write_change(t[k].0, t[k].1, lookup(c, t[k].0)) is Some ==> exists|i: int|
            0 <= i < restore_writes_spec(t, c).len() && write_change(t[k].0, t[k].1, lookup(c, t[k].0)) == Some(#[trigger] restore_writes_spec(t, c)[i]),
    decreases t.len(),
{
    if t.len() > 0 {
        let t0 = t.drop_last();
        lemma_writes_from_target(t0, c);
        let w0 = restore_writes_spec(t0, c);
        let w = restore_writes_spec(t, c);
        let last = t.len() - 1;
        assert(t.last() == t[last]);
        assert forall|i: int| #![trigger w[i]] 0 <= i < w.len() implies exists|k: int|
            0 <= k < t.len() && write_change(t[k].0, t[k].1, lookup(c, t[k].0)) == Some(#[trigger] w[i]) by {
            if i < w0.len() {
                assert(w[i] == w0[i]);
                let k = choose|k: int| 0 <= k < t0.len() && write_change(t0[k].0, t0[k].1, lookup(c, t0[k].0)) == Some(#[trigger] w0[i]);
                assert(t[k] == t0[k]);
            } else {
                assert(write_change(t[last].0, t[last].1, lookup(c, t[last].0)) == Some(w[i]));
            }
        }
        assert forall|k: int| #![trigger t[k]] 0 <= k < t.len() && write_change(t[k].0, t[k].1, lookup(c, t[k].0)) is Some implies exists|i: int|
            0 <= i < w.len() && write_change(t[k].0, t[k].1, lookup(c, t[k].0)) == Some(#[trigger] w[i]) by {
            if k < t0.len() {
                assert(t[k] == t0[k]);
                let i = choose|i: int| 0 <= i < w0.len() && write_change(t0[k].0, t0[k].1, lookup(c, t0[k].0)) == Some(#[trigger] w0[i]);
                assert(w[i] == w0[i]);
            } else {
                assert(w[w0.len() as int] == write_change(t[last].0, t[last].1, lookup(c, t[last].0))->0);
            }
        }
    }
}

/// Each deletion comes from one current file the target lacks, and each
/// such file has its deletion.
proof fn lemma_deletions_from_current(t: Seq<(Seq<char>, FileState)>, c: Seq<(Seq<char>, FileState)>)
    ensures
        forall|i: int| #![trigger restore_deletions_spec(t, c)[i]] 0 <= i < restore_deletions_spec(t, c).len() ==> exists|j: int|
            0 <= j < c.len() && !has_key(t, c[j].0) && (#[trigger] restore_deletions_spec(t, c)[i]).0 == c[j].0,
        forall|j: int| #![trigger c[j]] 0 <= j < c.len() && !has_key(t, c[j].0) ==> exists|i: int|
            0 <= i < restore_deletions_spec(t, c).len() && (#[trigger] restore_deletions_spec(t, c)[i]).0 == c[j].0,
    decreases c.len(),
{
    if c.len() > 0 {
        let c0 = c.drop_last();
        lemma_deletions_from_current(t, c0);
        let d0 = restore_deletions_spec(t, c0);
        let d = restore_deletions_spec(t, c);
        let last = c.len() - 1;
        assert(c.last() == c[last]);
        assert forall|i: int| #![trigger d[i]] 0 <= i < d.len() implies exists|j: int|
            0 <= j < c.len() && !has_key(t, c[j].0) && (#[trigger] d[i]).0 == c[j].0 by {
            if i < d0.len() {
                assert(d[i] == d0[i]);
                let j = choose|j: int| 0 <= j < c0.len() && !has_key(t, c0[j].0) && (#[trigger] d0[i]).0 == c0[j].0;
                assert(c[j] == c0[j]);
            } else {
                assert(d[i].0 == c[last].0);
            }
        }
        assert forall|j: int| #![trigger c[j]] 0 <= j < c.len() && !has_key(t, c[j].0) implies exists|i: int|
            0 <= i < d.len() && (#[trigger] d[i]).0 == c[j].0 by {
            if j < c0.len() {
                assert(c[j] == c0[j]);
                let i = choose|i: int| 0 <= i < d0.len() && (#[trigger] d0[i]).0 == c0[j].0;
                assert(d[i] == d0[i]);
            } else {
                assert(d[d0.len() as int].0 == c[last].0);
            }
        }
    }
}



/// A restore of a manifest that passed validation writes only inside the
/// tracked roots, and never through a `..` component.
pub proof fn lemma_validated_writes_stay_inside(target: Seq<(Seq<char>, FileState)>, current: Seq<(Seq<char>, FileState)>, roots: Seq<Seq<char>>)
    requires
        forall|k: int| 0 <= k < target.len() ==> path_allowed(#[trigger] target[k].0, roots),
    ensures
        forall|i: int| 0 <= i < restore_writes_spec(target, current).len() ==> path_allowed(#[trigger] restore_writes_spec(target, current)[i].0, roots),
{
    lemma_writes_from_target(target, current);
    assert forall|i: int| 0 <= i < restore_writes_spec(target, current).len() implies path_allowed(#[trigger] restore_writes_spec(target, current)[i].0, roots) by {
        let w = restore_writes_spec(target, current);
        let k = choose|k: int| 0 <= k < target.len() && write_change(target[k].0, target[k].1, lookup(current, target[k].0)) == Some(#[trigger] w[i]);
        assert(w[i].0 == target[k].0);
    }
}

/// A path the target has ends up with the target's content.
#[verifier::rlimit(30)]
proof fn lemma_restore_present(target: Seq<(Seq<char>, FileState)>, current: Seq<(Seq<char>, FileState)>, p: Seq<char>, k: int)
    requires
        sorted_keys(target),
        sorted_keys(current),
        0 <= k < target.len(),
        path_eq(target[k].0, p),
    ensures
        content_after(current, restore_writes_spec(target, current), restore_deletions_spec(target, current), p) == Some(target[k].1.hash),
{
    let w = restore_writes_spec(target, current);
    let d = restore_deletions_spec(target, current);
    lemma_writes_from_target(target, current);
    let cur = lookup(current, target[k].0);
    assert(content_of(current, p) == match cur { Some(st) => Some(st.hash), None => None::<ContentHash> }) by {
        if has_key(current, p) {
            let j = choose|j: int| 0 <= j < current.len() && path_eq(#[trigger] current[j].0, p);
            lemma_lookup_found(current, j, p);
            lemma_lookup_found(current, j, target[k].0);
        } else {
            assert(!has_key(current, target[k].0));
        }
    }
    let wc = write_change(target[k].0, target[k].1, cur);
    if touches(w, p) {
        let i = choose|i: int| 0 <= i < w.len() && path_eq(#[trigger] w[i].0, p);
        let k2 = choose|k2: int| 0 <= k2 < target.len() && write_change(target[k2].0, target[k2].1, lookup(current, target[k2].0)) == Some(#[trigger] w[i]);
        assert(w[i].0 == target[k2].0);
        lemma_sorted_unique(target, k, k2, p);
    } else {
        assert(wc is None) by {
            if wc is Some {
                assert(target[k] == target[k]);
                let i = choose|i: int| 0 <= i < w.len() && wc == Some(#[trigger] w[i]);
                assert(path_eq(w[i].0, p));
            }
        }
        assert(!touches(d, p)) by {
            lemma_deletions_from_current(target, current);
            if touches(d, p) {
                let i = choose|i: int| 0 <= i < d.len() && path_eq(#[trigger] d[i].0, p);
                let j = choose|j: int| 0 <= j < current.len() && !has_key(target, current[j].0) && (#[trigger] d[i]).0 == current[j].0;
                assert(path_eq(target[k].0, current[j].0));
            }
        }
    }
}

/// A path the target lacks ends up absent.
#[verifier::rlimit(30)]
proof fn lemma_restore_absent(target: Seq<(Seq<char>, FileState)>, current: Seq<(Seq<char>, FileState)>, p: Seq<char>)
    requires
        sorted_keys(target),
        sorted_keys(current),
        !has_key(target, p),
    ensures
        content_after(current, restore_writes_spec(target, current), restore_deletions_spec(target, current), p) is None,
{
    let w = restore_writes_spec(target, current);
    let d = restore_deletions_spec(target, current);
    assert(!touches(w, p)) by {
        lemma_writes_from_target(target, current);
        if touches(w, p) {
            let i = choose|i: int| 0 <= i < w.len() && path_eq(#[trigger] w[i].0, p);
            let k2 = choose|k2: int| 0 <= k2 < target.len() && write_change(target[k2].0, target[k2].1, lookup(current, target[k2].0)) == Some(#[trigger] w[i]);
            assert(w[i].0 == target[k2].0);
            assert(has_key(target, p));
        }
    }
    if !touches(d, p) {
        lemma_content_at(current, p);
        assert(!has_key(current, p)) by {
            lemma_deletions_from_current(target, current);
            if has_key(current, p) {
                let j = choose|j: int| 0 <= j < current.len() && path_eq(#[trigger] current[j].0, p);
                assert(!has_key(target, current[j].0)) by {
                    if has_key(target, current[j].0) {
                        let k = choose|k: int| 0 <= k < target.len() && path_eq(#[trigger] target[k].0, current[j].0);
                        assert(path_eq(target[k].0, p));
                    }
                }
                assert(current[j] == current[j]);
                let i = choose|i: int| 0 <= i < d.len() && (#[trigger] d[i]).0 == current[j].0;
                assert(path_eq(d[i].0, p));
            }
        }
    }
}

/// Restoring reaches the target: once its writes and deletions are applied
/// to the current tree, every path holds exactly the content it has in the
/// target manifest, and the paths the target lacks are gone.
pub proof fn lemma_restore_reaches_target(target: Seq<(Seq<char>, FileState)>, current: Seq<(Seq<char>, FileState)>, p: Seq<char>)
    requires
        sorted_keys(target),
        sorted_keys(current),
    ensures
        content_after(current, restore_writes_spec(target, current), restore_deletions_spec(target, current), p) == content_of(target, p),
{
    lemma_content_at(target, p);
    if has_key(target, p) {
        let k = choose|k: int| 0 <= k < target.len() && path_eq(#[trigger] target[k].0, p) && content_of(target, p) == Some(target[k].1.hash);
        lemma_restore_present(target, current, p, k);
    } else {
        lemma_restore_absent(target, current, p);
    }
}

/// `r` is the dry-run diff of restoring `target` onto `current`: the diff of
/// the current tree against the target, leaving out permission-only
/// changes (a restore does not touch modes of matching files).
pub open spec fn is_restore_diff(target: Seq<(Seq<char>, FileState)>, current: Seq<(Seq<char>, FileState)>, r: Seq<ChangeView>) -> bool {
    &&& forall|i: int, j: int| 0 <= i < j < r.len() ==> path_lt(#[trigger] r[i].0, #[trigger] r[j].0)
    &&& forall|i: int| 0 <= i < r.len() ==> has_source(current, target, #[trigger] r[i])
    &&& forall|i: int| 0 <= i < r.len() ==> (#[trigger] r[i]).1 != ChangeType::PermissionsChanged
    &&& forall|k: int|
        0 <= k < current.len() && (#[trigger] prev_entry_change(current, target, k)) is Some
            && (prev_entry_change(current, target, k)->0).1 != ChangeType::PermissionsChanged
            ==> exists|i: int| 0 <= i < r.len() && r[i] == prev_entry_change(current, target, k)->0
    &&& forall|k: int|
        0 <= k < target.len() && !has_key(current, #[trigger] target[k].0) ==> exists|i: int|
            0 <= i < r.len() && r[i] == created_change(target[k].0, target[k].1)
}

/// The changes of `a` that are not permission-only, in order.
pub open spec fn drop_permission_changes(a: Seq<ChangeView>) -> Seq<ChangeView>
    decreases a.len(),
{
    if a.len() == 0 {
        Seq::empty()
    } else {
        let r = drop_permission_changes(a.drop_last());
        if a.last().1 != ChangeType::PermissionsChanged {
            r.push(a.last())
        } else {
            r
        }
    }
}

proof fn lemma_kept_from(a: Seq<ChangeView>)
    ensures
        forall|t: int| 0 <= t < drop_permission_changes(a).len() ==> exists|j: int|
            0 <= j < a.len() && #[trigger] drop_permission_changes(a)[t] == a[j],
        forall|t: int| 0 <= t < drop_permission_changes(a).len()
            ==> (#[trigger] drop_permission_changes(a)[t]).1 != ChangeType::PermissionsChanged,
    decreases a.len(),
{
    if a.len() > 0 {
        let p = a.drop_last();
        lemma_kept_from(p);
        let r = drop_permission_changes(p);
        let k = drop_permission_changes(a);
        assert forall|t: int| 0 <= t < k.len() implies exists|j: int| 0 <= j < a.len() && #[trigger] k[t] == a[j] by {
            if t < r.len() {
                let j = choose|j: int| 0 <= j < p.len() && #[trigger] r[t] == p[j];
                assert(k[t] == a[j]);
            } else {
                assert(k[t] == a[a.len() - 1]);
            }
        }
        assert forall|t: int| 0 <= t < k.len() implies (#[trigger] k[t]).1 != ChangeType::PermissionsChanged by {
            if t < r.len() {
                assert(k[t] == r[t]);
            }
        }
    }
}

proof fn lemma_kept_sorted(a: Seq<ChangeView>)
    requires
        forall|x: int, y: int| 0 <= x < y < a.len() ==> path_lt(#[trigger] a[x].0, #[trigger] a[y].0),
    ensures
        forall|x: int, y: int| 0 <= x < y < drop_permission_changes(a).len()
            ==> path_lt(#[trigger] drop_permission_changes(a)[x].0, #[trigger] drop_permission_changes(a)[y].0),
    decreases a.len(),
{
    if a.len() > 0 {
        let p = a.drop_last();
        lemma_kept_sorted(p);
        lemma_kept_from(p);
        let r = drop_permission_changes(p);
        let k = drop_permission_changes(a);
        assert forall|x: int, y: int| 0 <= x < y < k.len() implies path_lt(#[trigger] k[x].0, #[trigger] k[y].0) by {
            if y == r.len() {
                let j = choose|j: int| 0 <= j < p.len() && #[trigger] r[x] == p[j];
                assert(k[x] == a[j]);
                assert(k[y] == a[a.len() - 1]);
            } else {
                assert(k[x] == r[x] && k[y] == r[y]);
            }
        }
    }
}

proof fn lemma_kept_covers(a: Seq<ChangeView>)
    ensures
        forall|j: int| 0 <= j < a.len() && (#[trigger] a[j]).1 != ChangeType::PermissionsChanged ==> exists|t: int|
            0 <= t < drop_permission_changes(a).len() && drop_permission_changes(a)[t] == a[j],
    decreases a.len(),
{
    if a.len() > 0 {
        let p = a.drop_last();
        lemma_kept_covers(p);
        let r = drop_permission_changes(p);
        let k = drop_permission_changes(a);
        assert forall|j: int| 0 <= j < a.len() && (#[trigger] a[j]).1 != ChangeType::PermissionsChanged implies exists|t: int|
            0 <= t < k.len() && k[t] == a[j] by {
            if j < p.len() {
                assert(a[j] == p[j]);
                let t = choose|t: int| 0 <= t < r.len() && r[t] == p[j];
                assert(k[t] == r[t]);
            } else {
                assert(k[k.len() - 1] == a[j]);
            }
        }
    }
}

proof fn lemma_filter_done(target: Seq<(Seq<char>, FileState)>, current: Seq<(Seq<char>, FileState)>, a: Seq<ChangeView>)
    requires
        is_diff(current, target, a),
    ensures
        is_restore_diff(target, current, drop_permission_changes(a)),
{
    lemma_kept_from(a);
    lemma_kept_sorted(a);
    lemma_kept_covers(a);
    let o = drop_permission_changes(a);
    assert forall|t: int| 0 <= t < o.len() implies has_source(current, target, #[trigger] o[t]) by {
        let j = choose|j: int| 0 <= j < a.len() && #[trigger] o[t] == a[j];
        assert(has_source(current, target, a[j]));
    }
    assert forall|k: int|
        0 <= k < current.len() && (#[trigger] prev_entry_change(current, target, k)) is Some
            && (prev_entry_change(current, target, k)->0).1 != ChangeType::PermissionsChanged
        implies exists|t: int| 0 <= t < o.len() && o[t] == prev_entry_change(current, target, k)->0 by {
        let j = choose|j: int| 0 <= j < a.len() && a[j] == prev_entry_change(current, target, k)->0;
        assert(a[j].1 != ChangeType::PermissionsChanged);
    }
    assert forall|k: int|
        0 <= k < target.len() && !has_key(current, #[trigger] target[k].0)
        implies exists|t: int| 0 <= t < o.len() && o[t] == created_change(target[k].0, target[k].1) by {
        let j = choose|j: int| 0 <= j < a.len() && a[j] == created_change(target[k].0, target[k].1);
        assert(a[j].1 == ChangeType::Created);
    }
}

/// What restoring `target` would change, without touching anything: files
/// whose content differs (modified), files to bring back (created) and
/// files to remove (deleted), sorted by path, with size deltas.
pub fn restore_diff(target: &FileMap, current: &FileMap) -> (r: Vec<Change>)
    requires
        target.wf(),
        current.wf(),
        sizes_fit(target@),
        sizes_fit(current@),
    ensures
        is_restore_diff(target@, current@, changes_view(r@)),
{
    let all = compute_changes(current, target);
    let ghost a = changes_view(all@);
    let mut out: Vec<Change> = Vec::new();
    let mut i: usize = 0;
    proof {
        assert(changes_view(out@) =~= drop_permission_changes(a.take(0)));
    }
    while i < all.len()
        invariant
            a == changes_view(all@),
            i <= a.len(),
            changes_view(out@) == drop_permission_changes(a.take(i as int)),
        decreases all.len() - i,
    {
        let c = &all[i];
        proof {
            assert(a[i as int] == c@);
            assert(a.take(i + 1).drop_last() =~= a.take(i as int));
            assert(a.take(i + 1).last() == c@);
        }
        match c.change_type {
            ChangeType::PermissionsChanged => {},
            _ => {
                let ghost before = changes_view(out@);
                out.push(c.duplicate());
                proof {
                    assert(changes_view(out@) =~= before.push(c@));
                }
            },
        }
        i = i + 1;
    }
    proof {
        assert(a.take(a.len() as int) =~= a);
        lemma_filter_done(target@, current@, a);
    }
    out
}


/// Every deletion of a restore deletes.
proof fn lemma_deletions_kind(t: Seq<(Seq<char>, FileState)>, c: Seq<(Seq<char>, FileState)>)
    ensures
        forall|i: int| 0 <= i < restore_deletions_spec(t, c).len()
            ==> (#[trigger] restore_deletions_spec(t, c)[i]).1 == ChangeType::Deleted,
    decreases c.len(),
{
    if c.len() > 0 {
        lemma_deletions_kind(t, c.drop_last());
        let d0 = restore_deletions_spec(t, c.drop_last());
        let d = restore_deletions_spec(t, c);
        assert forall|i: int| 0 <= i < d.len() implies (#[trigger] d[i]).1 == ChangeType::Deleted by {
            if i < d0.len() {
                assert(d[i] == d0[i]);
            }
        }
    }
}

/// `c` has the path (same components) and the kind of one of the changes
/// in `cs`.
pub open spec fn announced(cs: Seq<ChangeView>, c: ChangeView) -> bool {
    exists|i: int| 0 <= i < cs.len() && path_eq((#[trigger] cs[i]).0, c.0) && cs[i].1 == c.1
}

/// A change of the restore diff that a current file gives rise to is one of
/// the restore's writes or deletions.
proof fn lemma_current_change_announced(
    target: Seq<(Seq<char>, FileState)>,
    current: Seq<(Seq<char>, FileState)>,
    k: int,
)
    requires
        sorted_keys(target),
        sorted_keys(current),
        0 <= k < current.len(),
        prev_entry_change(current, target, k) is Some,
        (prev_entry_change(current, target, k)->0).1 != ChangeType::PermissionsChanged,
    ensures
        announced(restore_writes_spec(target, current), prev_entry_change(current, target, k)->0)
            || announced(restore_deletions_spec(target, current), prev_entry_change(current, target, k)->0),
{
    let w = restore_writes_spec(target, current);
    let d = restore_deletions_spec(target, current);
    let c = prev_entry_change(current, target, k)->0;
    lemma_writes_from_target(target, current);
    lemma_deletions_from_current(target, current);
    lemma_deletions_kind(target, current);
    if has_key(target, current[k].0) {
        let m = choose|m: int| 0 <= m < target.len() && path_eq(#[trigger] target[m].0, current[k].0);
        lemma_lookup_found(target, m, current[k].0);
        lemma_lookup_found(current, k, target[m].0);
        assert(target[m] == target[m]);
        let wc = write_change(target[m].0, target[m].1, lookup(current, target[m].0));
        assert(wc is Some);
        let j = choose|j: int| 0 <= j < w.len() && wc == Some(#[trigger] w[j]);
        assert(path_eq(w[j].0, c.0) && w[j].1 == c.1);
    } else {
        assert(current[k] == current[k]);
        let j = choose|j: int| 0 <= j < d.len() && (#[trigger] d[j]).0 == current[k].0;
        assert(d[j].1 == ChangeType::Deleted);
        assert(path_eq(d[j].0, c.0) && d[j].1 == c.1);
    }
}

/// A file the restore brings back is one of its writes.
proof fn lemma_created_announced(
    target: Seq<(Seq<char>, FileState)>,
    current: Seq<(Seq<char>, FileState)>,
    k: int,
)
    requires
        0 <= k < target.len(),
        !has_key(current, target[k].0),
    ensures
        announced(restore_writes_spec(target, current), created_change(target[k].0, target[k].1)),
{
    let w = restore_writes_spec(target, current);
    lemma_writes_from_target(target, current);
    assert(target[k] == target[k]);
    let wc = write_change(target[k].0, target[k].1, lookup(current, target[k].0));
    assert(wc is Some);
    let j = choose|j: int| 0 <= j < w.len() && wc == Some(#[trigger] w[j]);
    lemma_path_order(target[k].0, target[k].0, target[k].0);
    assert(path_eq(w[j].0, target[k].0) && w[j].1 == ChangeType::Created);
}

/// Each change of the restore diff is one of the restore's writes or
/// deletions.
proof fn lemma_diff_announced(
    target: Seq<(Seq<char>, FileState)>,
    current: Seq<(Seq<char>, FileState)>,
    r: Seq<ChangeView>,
)
    requires
        sorted_keys(target),
        sorted_keys(current),
        is_restore_diff(target, current, r),
    ensures
        forall|i: int| 0 <= i < r.len() ==> announced(restore_writes_spec(target, current), #[trigger] r[i])
            || announced(restore_deletions_spec(target, current), r[i]),
{
    assert forall|i: int| 0 <= i < r.len() implies announced(restore_writes_spec(target, current), #[trigger] r[i])
        || announced(restore_deletions_spec(target, current), r[i]) by {
        assert(has_source(current, target, r[i]));
        assert(r[i].1 != ChangeType::PermissionsChanged);
        if exists|k: int| 0 <= k < current.len() && #[trigger] prev_entry_change(current, target, k) == Some(r[i]) {
            let k = choose|k: int| 0 <= k < current.len() && #[trigger] prev_entry_change(current, target, k) == Some(r[i]);
            lemma_current_change_announced(target, current, k);
        } else {
            let k = choose|k: int|
                0 <= k < target.len() && !has_key(current, target[k].0) && r[i] == created_change(#[trigger] target[k].0, target[k].1);
            lemma_created_announced(target, current, k);
        }
    }
}

/// Each write of a restore is announced by the restore diff.
proof fn lemma_writes_announced(
    target: Seq<(Seq<char>, FileState)>,
    current: Seq<(Seq<char>, FileState)>,
    r: Seq<ChangeView>,
)
    requires
        sorted_keys(target),
        sorted_keys(current),
        is_restore_diff(target, current, r),
    ensures
        forall|j: int| 0 <= j < restore_writes_spec(target, current).len() ==> announced(
            r,
            #[trigger] restore_writes_spec(target, current)[j],
        ),
{
    let w = restore_writes_spec(target, current);
    lemma_writes_from_target(target, current);
    assert forall|j: int| 0 <= j < w.len() implies announced(r, #[trigger] w[j]) by {
        let k = choose|k: int| 0 <= k < target.len() && write_change(target[k].0, target[k].1, lookup(current, target[k].0)) == Some(#[trigger] w[j]);
        if has_key(current, target[k].0) {
            let m = choose|m: int| 0 <= m < current.len() && path_eq(#[trigger] current[m].0, target[k].0);
            lemma_lookup_found(current, m, target[k].0);
            lemma_lookup_found(target, k, current[m].0);
            assert(prev_entry_change(current, target, m) is Some);
            let i = choose|i: int| 0 <= i < r.len() && r[i] == prev_entry_change(current, target, m)->0;
            assert(path_eq(r[i].0, w[j].0) && r[i].1 == w[j].1);
        } else {
            assert(target[k] == target[k]);
            let i = choose|i: int| 0 <= i < r.len() && r[i] == created_change(target[k].0, target[k].1);
            assert(path_eq(r[i].0, w[j].0) && r[i].1 == w[j].1);
        }
    }
}

/// Each deletion of a restore is announced by the restore diff.
proof fn lemma_deletions_announced(
    target: Seq<(Seq<char>, FileState)>,
    current: Seq<(Seq<char>, FileState)>,
    r: Seq<ChangeView>,
)
    requires
        is_restore_diff(target, current, r),
    ensures
        forall|j: int| 0 <= j < restore_deletions_spec(target, current).len() ==> announced(
            r,
            #[trigger] restore_deletions_spec(target, current)[j],
        ),
{
    let d = restore_deletions_spec(target, current);
    lemma_deletions_from_current(target, current);
    lemma_deletions_kind(target, current);
    assert forall|j: int| 0 <= j < d.len() implies announced(r, #[trigger] d[j]) by {
        let m = choose|m: int| 0 <= m < current.len() && !has_key(target, current[m].0) && (#[trigger] d[j]).0 == current[m].0;
        assert(current[m] == current[m]);
        assert(prev_entry_change(current, target, m) is Some);
        let i = choose|i: int| 0 <= i < r.len() && r[i] == prev_entry_change(current, target, m)->0;
        assert(path_eq(r[i].0, d[j].0) && r[i].1 == d[j].1);
    }
}

/// The dry run announces exactly what a restore does: each change of the
/// restore diff is, by path and kind, one of the restore's writes or
/// deletions, and each write and each deletion is announced by the diff.
pub proof fn lemma_dry_run_announces_restore(
    target: Seq<(Seq<char>, FileState)>,
    current: Seq<(Seq<char>, FileState)>,
    r: Seq<ChangeView>,
)
    requires
        sorted_keys(target),
        sorted_keys(current),
        is_restore_diff(target, current, r),
    ensures
        forall|i: int| 0 <= i < r.len() ==> announced(restore_writes_spec(target, current), #[trigger] r[i])
            || announced(restore_deletions_spec(target, current), r[i]),
        forall|j: int| 0 <= j < restore_writes_spec(target, current).len() ==> announced(
            r,
            #[trigger] restore_writes_spec(target, current)[j],
        ),
        forall|j: int| 0 <= j < restore_deletions_spec(target, current).len() ==> announced(
            r,
            #[trigger] restore_deletions_spec(target, current)[j],
        ),
{
    lemma_diff_announced(target, current, r);
    lemma_writes_announced(target, current, r);
    lemma_deletions_announced(target, current, r);
}

/// A restore leaves nothing to restore: a tree that holds on every path
/// what the restore plan leaves there (each written file with its new
/// content, each deleted file gone, every other file as it was) needs no
/// write and no deletion to be brought to the target again.
pub proof fn lemma_second_restore_is_noop(
    target: Seq<(Seq<char>, FileState)>,
    current: Seq<(Seq<char>, FileState)>,
    after: Seq<(Seq<char>, FileState)>,
)
    requires
        sorted_keys(target),
        sorted_keys(current),
        sorted_keys(after),
        forall|p: Seq<char>| #[trigger] content_of(after, p) == content_after(
            current,
            restore_writes_spec(target, current),
            restore_deletions_spec(target, current),
            p,
        ),
    ensures
        restore_writes_spec(target, after).len() == 0,
        restore_deletions_spec(target, after).len() == 0,
{
    let w = restore_writes_spec(target, after);
    let d = restore_deletions_spec(target, after);
    lemma_writes_from_target(target, after);
    lemma_deletions_from_current(target, after);
    if w.len() > 0 {
        let k = choose|k: int| 0 <= k < target.len() && write_change(target[k].0, target[k].1, lookup(after, target[k].0)) == Some(#[trigger] w[0]);
        let p = target[k].0;
        lemma_restore_reaches_target(target, current, p);
        assert(content_of(after, p) == content_of(target, p));
        lemma_path_order(p, p, p);
        lemma_lookup_found(target, k, p);
        assert(content_of(target, p) == Some(target[k].1.hash));
        assert(lookup(after, p) is Some);
        assert(write_change(p, target[k].1, lookup(after, p)) is None);
    }
    if d.len() > 0 {
        let j = choose|j: int| 0 <= j < after.len() && !has_key(target, after[j].0) && (#[trigger] d[0]).0 == after[j].0;
        let p = after[j].0;
        lemma_restore_reaches_target(target, current, p);
        assert(content_of(after, p) == content_of(target, p));
        lemma_path_order(p, p, p);
        lemma_lookup_found(after, j, p);
        assert(content_of(after, p) is Some);
    }
}

} // verus!
