//! The hashes of the Merkle commitment over a manifest (RFC 6962 domain
//! separation with BLAKE3): leaves bind a path to its content hash, inner
//! nodes hash two children. The tree itself is assembled by `rs_merkle`
//! around these hashes.
use vstd::prelude::*;
use crate::file_map::FileMap;
use crate::snapshot_types::ContentHash;
use crate::store::{blake3_digest, blake3_hash};

verus! {

/// The byte that opens the input of a leaf hash.
pub open spec fn leaf_prefix() -> u8 {
    0x00
}

/// The byte that opens the input of an inner-node hash.
pub open spec fn internal_prefix() -> u8 {
    0x01
}

/// The leaf of one file: BLAKE3(0x00 || path bytes || content hash).
pub open spec fn leaf_spec(path: Seq<char>, hash: Seq<u8>) -> Seq<u8> {
    blake3_digest(seq![leaf_prefix()] + vstd::utf8::encode_utf8(path) + hash)
}

/// An inner node: BLAKE3(0x01 || left || right); a node without a right
/// child is its left child.
pub open spec fn node_spec(left: Seq<u8>, right: Option<Seq<u8>>) -> Seq<u8> {
    match right {
        Some(r) => blake3_digest(seq![internal_prefix()] + left + r),
        None => left,
    }
}

/// BLAKE3 with RFC 6962 domain separation.
#[derive(Clone, Copy)]
pub struct Blake3Rfc6962;

fn append(out: &mut Vec<u8>, data: &[u8])
    ensures
        final(out)@ == old(out)@ + data@,
{
    let ghost start = out@;
    let mut i: usize = 0;
    while i < data.len()
        invariant
            i <= data@.len(),
            out@ == start + data@.take(i as int),
        decreases data.len() - i,
    {
        out.push(data[i]);
        proof {
            assert(data@.take(i + 1) =~= data@.take(i as int).push(data@[i as int]));
        }
        i = i + 1;
    }
    proof {
        assert(data@.take(data@.len() as int) =~= data@);
    }
}

impl Blake3Rfc6962 {
    /// Plain BLAKE3 of the data.
    pub fn hash(data: &[u8]) -> (r: [u8; 32])
        ensures
            r@ == blake3_digest(data@),
    {
        blake3_hash(data)
    }

    /// Combines two children into their parent; a lone left child is
    /// passed up as it is.
    pub fn concat_and_hash(left: &[u8; 32], right: Option<&[u8; 32]>) -> (r: [u8; 32])
        ensures
            r@ == node_spec(left@, match right { Some(x) => Some(x@), None => None }),
            right matches Some(x) ==> r@ == blake3_digest(seq![0x01u8] + left@ + x@),
            right is None ==> r@ == left@,
    {
        match right {
            Some(r) => {
                let mut input: Vec<u8> = Vec::new();
                input.push(0x01);
                append(&mut input, left.as_slice());
                append(&mut input, r.as_slice());
                proof {
                    assert(input@ =~= seq![internal_prefix()] + left@ + r@);
                }
                blake3_hash(input.as_slice())
            },
            None => *left,
        }
    }
}

/// The leaf hash of one file.
pub fn compute_leaf(path: &str, content_hash: &ContentHash) -> (r: [u8; 32])
    ensures
        r@ == leaf_spec(path@, content_hash@),
        r@ == blake3_digest(seq![0x00u8] + vstd::utf8::encode_utf8(path@) + content_hash@),
{
    let mut input: Vec<u8> = Vec::new();
    input.push(0x00);
    append(&mut input, path.as_bytes());
    append(&mut input, content_hash.as_bytes().as_slice());
    proof {
        assert(input@ =~= seq![leaf_prefix()] + vstd::utf8::encode_utf8(path@) + content_hash@);
    }
    blake3_hash(input.as_slice())
}

/// The leaves of a manifest, one per file, in path order.
pub fn merkle_leaves(files: &FileMap) -> (r: Vec<[u8; 32]>)
    ensures
        r@.len() == files@.len(),
        forall|i: int| 0 <= i < files@.len() ==> (#[trigger] r@[i])@ == leaf_spec(files@[i].0, files@[i].1.hash@),
{
    let entries = files.entries();
    let mut leaves: Vec<[u8; 32]> = Vec::new();
    let mut i: usize = 0;
    while i < entries.len()
        invariant
            i <= entries@.len(),
            files@ == crate::file_map::entries_view(entries@),
            leaves@.len() == i,
            forall|k: int| 0 <= k < i ==> (#[trigger] leaves@[k])@ == leaf_spec(files@[k].0, files@[k].1.hash@),
        decreases entries.len() - i,
    {
        let leaf = compute_leaf(entries[i].path.as_str(), &entries[i].state.hash);
        leaves.push(leaf);
        i = i + 1;
    }
    leaves
}

/// The root of an empty manifest: BLAKE3 of nothing.
pub fn empty_root() -> (r: ContentHash)
    ensures
        r@ == blake3_digest(Seq::empty()),
{
    let nothing: Vec<u8> = Vec::new();
    ContentHash::from_bytes(blake3_hash(nothing.as_slice()))
}


/// The hashes commit to their inputs in a fixed order, with a separating
/// first byte: a leaf is BLAKE3 of 0x00, the path's UTF-8 bytes and then the
/// content hash; an inner node is BLAKE3 of 0x01, the left child and then
/// the right child; a lone left child is passed up as it is.
pub proof fn lemma_hashes_commit_in_order(path: Seq<char>, hash: Seq<u8>, left: Seq<u8>, right: Seq<u8>)
    ensures
        leaf_spec(path, hash) == blake3_digest(seq![0x00u8] + vstd::utf8::encode_utf8(path) + hash),
        node_spec(left, Some(right)) == blake3_digest(seq![0x01u8] + left + right),
        node_spec(left, None) == left,
{
}

} // verus!
