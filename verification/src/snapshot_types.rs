//! The values a filesystem snapshot is made of: content hashes, per-file
//! state, the kinds of change between two snapshots, manifests and session
//! records.
use vstd::prelude::*;
use crate::file_map::FileMap;
use crate::hex::{hex_bytes, hex_decode_32, hex_encode, hex_lower, is_hex_of_len};

verus! {

/// BLAKE3 content hash (32 bytes).
#[derive(Clone, Copy, PartialEq, Eq, Hash, Debug)]
pub struct ContentHash(pub(crate) [u8; 32]);

impl View for ContentHash {
    type V = Seq<u8>;

    closed spec fn view(&self) -> Seq<u8> {
        self.0@
    }
}

impl ContentHash {
    /// A hash is determined by its bytes.
    pub proof fn lemma_view_injective(a: ContentHash, b: ContentHash)
        ensures
            (a@ == b@) == (a == b),
    {
        if a@ == b@ {
            assert(a.0 =~= b.0) by {
                broadcast use vstd::array::axiom_array_ext_equal;
                assert forall|i: int| 0 <= i < 32 implies a.0[i] == b.0[i] by {
                    assert(a.0@[i] == b.0@[i]);
                }
            }
        }
    }

    /// The hash with these bytes.
    pub fn from_bytes(bytes: [u8; 32]) -> (r: Self)
        ensures
            r@ == bytes@,
    {
        ContentHash(bytes)
    }

    /// Do two hashes hold the same bytes?
    pub fn same_as(&self, other: &ContentHash) -> (r: bool)
        ensures
            r == (*self == *other),
    {
        let mut i: usize = 0;
        while i < 32
            invariant
                i <= 32,
                forall|k: int| 0 <= k < i ==> self.0[k] == other.0[k],
            decreases 32 - i,
        {
            if self.0[i] != other.0[i] {
                return false;
            }
            i = i + 1;
        }
        proof {
            broadcast use vstd::array::axiom_array_ext_equal;
            assert(self.0 =~= other.0);
        }
        true
    }

    /// The bytes of the hash.
    pub fn as_bytes(&self) -> (r: &[u8; 32])
        ensures
            r@ == self@,
    {
        &self.0
    }

    /// The hash as 64 lowercase hex digits.
    pub fn to_string(&self) -> (r: String)
        ensures
            r@ == hex_lower(self@),
    {
        hex_encode(self.0.as_slice())
    }

    /// The first 2 hex digits: the shard directory of the object.
    pub fn prefix(&self) -> (r: String)
        ensures
            r@ == hex_lower(self@.take(1)),
    {
        let first: [u8; 1] = [self.0[0]];
        proof {
            assert(first@ =~= self@.take(1));
        }
        hex_encode(first.as_slice())
    }

    /// The remaining 62 hex digits: the object's file name in its shard.
    pub fn suffix(&self) -> (r: String)
        ensures
            r@ == hex_lower(self@.skip(1)),
    {
        let mut rest: Vec<u8> = Vec::new();
        let mut i: usize = 1;
        while i < 32
            invariant
                1 <= i <= 32,
                self@.len() == 32,
                rest@ == self@.subrange(1, i as int),
            decreases 32 - i,
        {
            rest.push(self.0[i]);
            proof {
                assert(self@[i as int] == self.0[i as int]);
                assert(self@.subrange(1, i + 1) =~= self@.subrange(1, i as int).push(self@[i as int]));
            }
            i = i + 1;
        }
        proof {
            assert(self@.subrange(1, 32) =~= self@.skip(1));
        }
        hex_encode(rest.as_slice())
    }

    /// Reads a hash from hex text: exactly 64 hex digits, either case, after
    /// an optional `0x`.
    pub fn from_hex(s: &str) -> (r: Result<ContentHash, HashParseError>)
        ensures
            r is Ok == is_hex_of_len(s@, 32),
            r matches Ok(h) ==> h@ == hex_bytes(s@),
    {
        match hex_decode_32(s) {
            Ok(bytes) => Ok(ContentHash(bytes)),
            Err(_) => Err(HashParseError),
        }
    }
}

/// Text that is not a hash: not 64 hex digits.
#[derive(Debug, Clone, Copy, PartialEq, Eq, Structural)]
pub struct HashParseError;

impl std::str::FromStr for ContentHash {
    type Err = HashParseError;

    fn from_str(s: &str) -> (r: Result<ContentHash, HashParseError>)
        ensures
            r is Ok == is_hex_of_len(s@, 32),
            r matches Ok(h) ==> h@ == hex_bytes(s@),
    {
        ContentHash::from_hex(s)
    }
}

/// Printing a hash and reading it back gives the same hash.
pub proof fn lemma_hash_text_roundtrip(h: ContentHash)
    ensures
        is_hex_of_len(hex_lower(h@), 32),
        hex_bytes(hex_lower(h@)) == h@,
{
    crate::hex::lemma_hex_roundtrip(h@);
    assert(h@.len() == 32);
}

/// Per-file state captured at snapshot time.
#[derive(Clone, Copy, PartialEq, Eq, Debug)]
pub struct FileState {
    pub hash: ContentHash,
    pub size: u64,
    pub mtime: i64,
    pub permissions: u32,
}

/// How a file changed between two snapshots.
#[derive(Clone, Copy, PartialEq, Eq, Structural, Debug)]
pub enum ChangeType {
    Created,
    Modified,
    Deleted,
    PermissionsChanged,
}

impl ChangeType {
    /// The one-character marker of a change kind.
    pub open spec fn marker(&self) -> Seq<char> {
        match self {
            ChangeType::Created => seq!['+'],
            ChangeType::Modified => seq!['~'],
            ChangeType::Deleted => seq!['-'],
            ChangeType::PermissionsChanged => seq!['p'],
        }
    }

    /// The marker printed for a change kind: `+`, `~`, `-` or `p`.
    pub fn to_string(&self) -> (r: String)
        ensures
            r@ == self.marker(),
    {
        let mut v: Vec<char> = Vec::new();
        match self {
            ChangeType::Created => v.push('+'),
            ChangeType::Modified => v.push('~'),
            ChangeType::Deleted => v.push('-'),
            ChangeType::PermissionsChanged => v.push('p'),
        }
        proof {
            assert(v@ =~= self.marker());
        }
        crate::text::string_of(&v)
    }
}

/// One file's change between two snapshots.
#[derive(Clone, Debug)]
pub struct Change {
    pub path: String,
    pub change_type: ChangeType,
    pub size_delta: Option<i64>,
    pub old_hash: Option<ContentHash>,
    pub new_hash: Option<ContentHash>,
}

/// The abstract value of a change: path text, kind, size delta, old and new
/// hashes.
pub type ChangeView = (Seq<char>, ChangeType, Option<i64>, Option<ContentHash>, Option<ContentHash>);

impl View for Change {
    type V = ChangeView;

    open spec fn view(&self) -> ChangeView {
        (self.path@, self.change_type, self.size_delta, self.old_hash, self.new_hash)
    }
}

impl Change {
    /// A copy of the change.
    pub fn duplicate(&self) -> (r: Change)
        ensures
            r@ == self@,
    {
        Change {
            path: self.path.clone(),
            change_type: self.change_type,
            size_delta: self.size_delta,
            old_hash: self.old_hash,
            new_hash: self.new_hash,
        }
    }
}

/// Full filesystem state at one point in time.
#[derive(Clone, Debug)]
pub struct SnapshotManifest {
    pub number: u32,
    pub timestamp: String,
    pub parent: Option<u32>,
    pub files: FileMap,
    pub merkle_root: ContentHash,
}

/// One sandbox execution's snapshot session.
#[derive(Clone, Debug)]
pub struct SessionMetadata {
    pub session_id: String,
    pub started: String,
    pub ended: Option<String>,
    pub command: Vec<String>,
    pub tracked_paths: Vec<String>,
    pub exclude_patterns: Vec<String>,
    pub snapshot_count: u32,
    pub exit_code: Option<i32>,
    pub merkle_roots: Vec<ContentHash>,
}

} // verus!
