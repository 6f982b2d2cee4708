//! The supervisor's catalog of VM snapshots: what creating, listing,
//! looking up and deleting a snapshot change in it and answer. Creating the
//! snapshot's directory and metadata file, and removing it, are the
//! caller's part.
use vstd::prelude::*;
use vstd::string::StringExecFns;
use crate::config::Config;
use crate::lifecycle::snapshot_dir;
use crate::paths::join_spec;
use crate::registry::Registry;
use crate::sandbox::SnapshotError;

verus! {

/// The state of a snapshot.
#[derive(Debug, Clone, Copy, PartialEq, Eq, Structural)]
pub enum SnapshotStatus {
    Created,
}

/// What the API reports of a snapshot.
#[derive(Debug)]
pub struct SnapshotInfo {
    pub snapshot_id: String,
    pub source_sandbox_id: String,
    pub status: SnapshotStatus,
    pub created_at: String,
}

/// The abstract value of a snapshot's report.
pub type SnapshotInfoView = (Seq<char>, Seq<char>, SnapshotStatus, Seq<char>);

impl View for SnapshotInfo {
    type V = SnapshotInfoView;

    open spec fn view(&self) -> SnapshotInfoView {
        (self.snapshot_id@, self.source_sandbox_id@, self.status, self.created_at@)
    }
}

impl SnapshotInfo {
    /// A copy of the report.
    pub fn duplicate(&self) -> (r: SnapshotInfo)
        ensures
            r@ == self@,
    {
        SnapshotInfo {
            snapshot_id: self.snapshot_id.clone(),
            source_sandbox_id: self.source_sandbox_id.clone(),
            status: self.status,
            created_at: self.created_at.clone(),
        }
    }
}

/// The report of a snapshot just taken of a sandbox.
pub fn snapshot_info(sandbox_id: &str, snapshot_id: &str, created_at: &str) -> (r: SnapshotInfo)
    ensures
        r@ == (snapshot_id@, sandbox_id@, SnapshotStatus::Created, created_at@),
{
    SnapshotInfo {
        snapshot_id: String::from_str(snapshot_id),
        source_sandbox_id: String::from_str(sandbox_id),
        status: SnapshotStatus::Created,
        created_at: String::from_str(created_at),
    }
}

/// The snapshots the supervisor knows, by id.
pub struct SnapshotManager {
    snapshots: Registry<SnapshotInfo>,
    config: Config,
}

impl SnapshotManager {
    /// The snapshots by id.
    pub closed spec fn table(&self) -> Map<Seq<char>, SnapshotInfo> {
        self.snapshots@
    }

    /// The configuration.
    pub closed spec fn config_spec(&self) -> Config {
        self.config
    }

    #[verifier::type_invariant]
    spec fn keyed_by_id(&self) -> bool {
        forall|k: Seq<char>| #[trigger] self.snapshots@.contains_key(k) ==> self.snapshots@[k].snapshot_id@ == k
    }

    /// No snapshots yet.
    pub fn new(config: Config) -> (r: Self)
        ensures
            r.table() == Map::<Seq<char>, SnapshotInfo>::empty(),
            r.config_spec() == config,
    {
        SnapshotManager { snapshots: Registry::new(), config }
    }

    /// The directory of a snapshot under the storage directory.
    pub fn snapshot_dir(&self, snapshot_id: &str) -> (r: String)
        ensures
            r@ == join_spec(self.config_spec().snapshots.storage_dir@, snapshot_id@),
    {
        snapshot_dir(self.config.snapshots.storage_dir.as_str(), snapshot_id)
    }

    /// Records a snapshot once its directory and metadata are written;
    /// answers its report.
    pub fn create(&mut self, info: SnapshotInfo) -> (r: SnapshotInfo)
        ensures
            r@ == info@,
            final(self).table() == old(self).table().insert(info.snapshot_id@, info),
            final(self).config_spec() == old(self).config_spec(),
    {
        proof {
            use_type_invariant(&*self);
        }
        let answer = info.duplicate();
        let key = info.snapshot_id.clone();
        let mut table = Registry::new();
        std::mem::swap(&mut table, &mut self.snapshots);
        table.insert(key, info);
        proof {
            assert forall|k: Seq<char>| #[trigger] table@.contains_key(k) implies table@[k].snapshot_id@ == k by {
                if k != info.snapshot_id@ {
                    assert(old(self).snapshots@.contains_key(k));
                }
            }
        }
        self.snapshots = table;
        answer
    }

    /// The reports of all snapshots, each once.
    pub fn list(&self) -> (r: Vec<SnapshotInfo>)
        ensures
            forall|i: int| #![trigger r@[i]] 0 <= i < r@.len() ==> self.table().contains_key(r@[i]@.0) && self.table()[r@[i]@.0]@ == r@[i]@,
            forall|k: Seq<char>| #[trigger] self.table().contains_key(k) ==> exists|i: int| 0 <= i < r@.len() && #[trigger] r@[i]@.0 == k,
            forall|i: int, j: int| 0 <= i < r@.len() && 0 <= j < r@.len() && i != j ==> #[trigger] r@[i]@.0 != #[trigger] r@[j]@.0,
    {
        proof {
            use_type_invariant(self);
        }
        let entries = self.snapshots.entries();
        let mut out: Vec<SnapshotInfo> = Vec::new();
        let mut i: usize = 0;
        while i < entries.len()
            invariant
                i <= entries@.len(),
                out@.len() == i,
                forall|j: int| #![trigger entries@[j]] 0 <= j < entries@.len() ==> self.snapshots@.contains_key(entries@[j].0@) && self.snapshots@[entries@[j].0@] == *entries@[j].1,
                forall|j: int| #![trigger out@[j]] 0 <= j < i ==> out@[j]@ == entries@[j].1@,
            decreases entries.len() - i,
        {
            let d = entries[i].1.duplicate();
            out.push(d);
            i = i + 1;
        }
        proof {
            assert forall|j: int| 0 <= j < entries@.len() implies (#[trigger] entries@[j]).1.snapshot_id@ == entries@[j].0@ by {
                assert(self.snapshots@.contains_key(entries@[j].0@));
            }
            assert forall|k: Seq<char>| #[trigger] self.table().contains_key(k) implies exists|i: int| 0 <= i < out@.len() && #[trigger] out@[i]@.0 == k by {
                let i = choose|i: int| 0 <= i < entries@.len() && #[trigger] entries@[i].0@ == k;
                assert(out@[i]@.0 == entries@[i].1.snapshot_id@);
            }
        }
        out
    }

    /// The report of a snapshot.
    pub fn get(&self, snapshot_id: &str) -> (r: Result<SnapshotInfo, SnapshotError>)
        ensures
            self.table().contains_key(snapshot_id@) ==> (r matches Ok(info) && info@ == self.table()[snapshot_id@]@),
            !self.table().contains_key(snapshot_id@) ==> (r matches Err(SnapshotError::NotFound(m)) && m@ == snapshot_id@),
    {
        match self.snapshots.get(snapshot_id) {
            Some(info) => Ok(info.duplicate()),
            None => Err(SnapshotError::NotFound(String::from_str(snapshot_id))),
        }
    }

    /// Forgets a snapshot; answers the directory the caller removes.
    pub fn delete(&mut self, snapshot_id: &str) -> (r: Result<String, SnapshotError>)
        ensures
            final(self).table() == old(self).table().remove(snapshot_id@),
            final(self).config_spec() == old(self).config_spec(),
            old(self).table().contains_key(snapshot_id@) ==> (r matches Ok(dir)
                && dir@ == join_spec(old(self).config_spec().snapshots.storage_dir@, snapshot_id@)),
            !old(self).table().contains_key(snapshot_id@) ==> (r matches Err(SnapshotError::NotFound(m)) && m@ == snapshot_id@),
    {
        proof {
            use_type_invariant(&*self);
        }
        let mut table = Registry::new();
        std::mem::swap(&mut table, &mut self.snapshots);
        let removed = table.remove(snapshot_id);
        self.snapshots = table;
        match removed {
            Some(_) => Ok(self.snapshot_dir(snapshot_id)),
            None => Err(SnapshotError::NotFound(String::from_str(snapshot_id))),
        }
    }
}

} // verus!
