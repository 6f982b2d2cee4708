//! The content-addressed object store: how a file's content is hashed,
//! framed (raw or LZ4, behind a 4-byte header), checked on the way back, and
//! where its object lives (`objects/{2 hex digits}/{62 hex digits}`).
//! Reading and writing the object files is left to the caller.
use vstd::prelude::*;
use vstd::string::StringExecFns;
use crate::hex::hex_lower;
use crate::paths::join_spec;
use crate::paths::join_path;
use crate::snapshot_types::ContentHash;

verus! {

/// The BLAKE3 digest of a byte string.
pub uninterp spec fn blake3_digest(data: Seq<u8>) -> Seq<u8>;

/// BLAKE3 of a byte string.
///
/// Trusted: wraps `blake3::hash` and hands back its 32 bytes.
#[verifier::external_body]
pub(crate) fn blake3_hash(data: &[u8]) -> (r: [u8; 32])
    ensures
        r@ == blake3_digest(data@),
{
    *blake3::hash(data).as_bytes()
}

/// What `lz4_flex::compress_prepend_size` makes of a byte string: the
/// length as 4 little-endian bytes, then the LZ4 block.
pub uninterp spec fn lz4_block(data: Seq<u8>) -> Seq<u8>;

/// What `lz4_flex::decompress_size_prepended` makes of a byte string, when
/// it succeeds.
pub uninterp spec fn lz4_unblock(data: Seq<u8>) -> Option<Seq<u8>>;

/// LZ4-compresses with the size prepended.
///
/// Trusted: wraps `lz4_flex::compress_prepend_size`.
#[verifier::external_body]
fn lz4_compress(data: &[u8]) -> (r: Vec<u8>)
    ensures
        r@ == lz4_block(data@),
{
    lz4_flex::compress_prepend_size(data)
}

/// LZ4-decompresses a size-prepended block.
///
/// Trusted: wraps `lz4_flex::decompress_size_prepended`, whose failure is
/// handed back as its error's text. Claims that it gives back the input of
/// `compress_prepend_size` for every block that function made of an input
/// whose length fits the 4-byte size field (the two are documented as a
/// pair). Its safe decoder checks bounds and reports bad data as an error.
#[verifier::external_body]
fn lz4_decompress(data: &[u8]) -> (r: Result<Vec<u8>, String>)
    ensures
        r is Ok == lz4_unblock(data@) is Some,
        r matches Ok(v) ==> lz4_unblock(data@) == Some(v@),
        r matches Ok(v) ==> (forall|x: Seq<u8>| x.len() <= u32::MAX && #[trigger] lz4_block(x) == data@ ==> v@ == x),
        r is Err ==> (forall|x: Seq<u8>| x.len() <= u32::MAX ==> #[trigger] lz4_block(x) != data@),
{
    match lz4_flex::decompress_size_prepended(data) {
        Ok(v) => Ok(v),
        Err(e) => Err(e.to_string()),
    }
}

/// The header of a blob stored as is.
pub open spec fn raw_header() -> Seq<u8> {
    seq![0u8, 0u8, 0u8, 0u8]
}

/// The header of an LZ4 blob: `LZ4T`.
pub open spec fn lz4_header() -> Seq<u8> {
    seq![0x4cu8, 0x5au8, 0x34u8, 0x54u8]
}

/// Content below this size is never compressed.
pub const COMPRESS_THRESHOLD: usize = 64;

/// The blob stored for some content: raw when it is small or LZ4 does not
/// make it smaller, else LZ4.
pub open spec fn compress_spec(content: Seq<u8>) -> Seq<u8> {
    if content.len() < COMPRESS_THRESHOLD {
        raw_header() + content
    } else if lz4_block(content).len() >= content.len() {
        raw_header() + content
    } else {
        lz4_header() + lz4_block(content)
    }
}

/// Why an object could not be read back.
#[derive(Debug, Clone)]
pub enum StoreError {
    /// The blob is shorter than its header.
    BlobTooShort,
    /// The LZ4 data is damaged; the decoder's message.
    Decompress(String),
    /// The content does not hash to the name it is stored under.
    IntegrityMismatch { expected: ContentHash, actual: ContentHash },
}

fn push_all(out: &mut Vec<u8>, data: &[u8])
    ensures
        final(out)@ == old(out)@ + data@,
{
    let ghost start = out@;
    let mut i: usize = 0;
    while i < data.len()
        invariant
            i <= data@.len(),
            out@ == start + data@.take(i as int),
        decreases data.len() - i,
    {
        out.push(data[i]);
        proof {
            assert(data@.take(i + 1) =~= data@.take(i as int).push(data@[i as int]));
        }
        i = i + 1;
    }
    proof {
        assert(data@.take(data@.len() as int) =~= data@);
    }
}

fn header_then(raw: bool, data: &[u8]) -> (r: Vec<u8>)
    ensures
        r@ == (if raw { raw_header() } else { lz4_header() }) + data@,
{
    let mut blob: Vec<u8> = Vec::new();
    if raw {
        blob.push(0);
        blob.push(0);
        blob.push(0);
        blob.push(0);
    } else {
        blob.push(0x4c);
        blob.push(0x5a);
        blob.push(0x34);
        blob.push(0x54);
    }
    push_all(&mut blob, data);
    proof {
        assert(blob@.take(4) =~= (if raw { raw_header() } else { lz4_header() }));
        assert(blob@ =~= (if raw { raw_header() } else { lz4_header() }) + data@);
    }
    blob
}

/// Frames content for storage: a 4-byte header, then the content as is or
/// LZ4-compressed, whichever is smaller (small content is never compressed).
pub fn compress(content: &[u8]) -> (r: Vec<u8>)
    ensures
        r@ == compress_spec(content@),
{
    if content.len() < COMPRESS_THRESHOLD {
        return header_then(true, content);
    }
    let compressed = lz4_compress(content);
    if compressed.len() >= content.len() {
        header_then(true, content)
    } else {
        header_then(false, compressed.as_slice())
    }
}

/// What reading a blob back gives: `None` when it is too short or its LZ4
/// data is damaged.
pub open spec fn decompress_spec(blob: Seq<u8>) -> Option<Seq<u8>> {
    if blob.len() < 4 {
        None
    } else if blob.take(4) == lz4_header() {
        lz4_unblock(blob.skip(4))
    } else {
        Some(blob.skip(4))
    }
}

/// Reads a framed blob back into its content.
pub fn decompress(blob: &[u8]) -> (r: Result<Vec<u8>, StoreError>)
    ensures
        blob@.len() < 4 ==> r matches Err(StoreError::BlobTooShort),
        r is Ok == decompress_spec(blob@) is Some,
        r matches Ok(v) ==> decompress_spec(blob@) == Some(v@),
        r matches Err(StoreError::Decompress(_)) ==> blob@.len() >= 4 && blob@.take(4) == lz4_header(),
        !(r matches Err(StoreError::IntegrityMismatch { .. })),
        forall|x: Seq<u8>| x.len() <= u32::MAX && blob@ == #[trigger] compress_spec(x) ==> (r matches Ok(v) && v@ == x),
{
    if blob.len() < 4 {
        proof {
            assert forall|x: Seq<u8>| x.len() <= u32::MAX && blob@ == #[trigger] compress_spec(x) implies false by {
                assert(compress_spec(x).len() >= 4);
            }
        }
        return Err(StoreError::BlobTooShort);
    }
    let mut data: Vec<u8> = Vec::new();
    let mut i: usize = 4;
    while i < blob.len()
        invariant
            4 <= i <= blob@.len(),
            data@ == blob@.subrange(4, i as int),
        decreases blob.len() - i,
    {
        data.push(blob[i]);
        proof {
            assert(blob@.subrange(4, i + 1) =~= blob@.subrange(4, i as int).push(blob@[i as int]));
        }
        i = i + 1;
    }
    proof {
        assert(blob@.subrange(4, blob@.len() as int) =~= blob@.skip(4));
    }
    let is_lz4 = blob[0] == 0x4c && blob[1] == 0x5a && blob[2] == 0x34 && blob[3] == 0x54;
    proof {
        if is_lz4 {
            assert(blob@.take(4) =~= lz4_header());
        } else {
            assert(blob@.take(4) != lz4_header()) by {
                if blob@.take(4) == lz4_header() {
                    assert(blob@.take(4)[0] == blob@[0]);
                    assert(blob@.take(4)[1] == blob@[1]);
                    assert(blob@.take(4)[2] == blob@[2]);
                    assert(blob@.take(4)[3] == blob@[3]);
                }
            }
        }
    }
    if is_lz4 {
        proof {
            assert forall|x: Seq<u8>| x.len() <= u32::MAX && blob@ == #[trigger] compress_spec(x)
                implies lz4_block(x) == data@ by {
                if x.len() < COMPRESS_THRESHOLD || lz4_block(x).len() >= x.len() {
                    assert((raw_header() + x).take(4) =~= raw_header());
                    assert(raw_header()[0] != lz4_header()[0]);
                } else {
                    assert((lz4_header() + lz4_block(x)).skip(4) =~= lz4_block(x));
                }
            }
        }
        match lz4_decompress(data.as_slice()) {
            Ok(v) => Ok(v),
            Err(e) => {
                let mut msg = String::from_str("LZ4 decompression failed: ");
                msg.append(e.as_str());
                Err(StoreError::Decompress(msg))
            },
        }
    } else {
        proof {
            assert forall|x: Seq<u8>| x.len() <= u32::MAX && blob@ == #[trigger] compress_spec(x)
                implies data@ == x by {
                if x.len() < COMPRESS_THRESHOLD || lz4_block(x).len() >= x.len() {
                    assert((raw_header() + x).skip(4) =~= x);
                } else {
                    assert((lz4_header() + lz4_block(x)).take(4) =~= lz4_header());
                }
            }
        }
        Ok(data)
    }
}

/// Small content is stored as it is, behind the raw header.
pub proof fn lemma_small_content_stored_raw(content: Seq<u8>)
    requires
        content.len() < COMPRESS_THRESHOLD,
    ensures
        compress_spec(content) == raw_header() + content,
        compress_spec(content).take(4) == raw_header(),
{
    assert((raw_header() + content).take(4) =~= raw_header());
}

/// The hash that names some content.
pub open spec fn content_name(content: Seq<u8>) -> Seq<u8> {
    blake3_digest(content)
}

/// Hashes content and frames it: the name to store it under, and the blob
/// to write there.
pub fn seal(content: &[u8]) -> (r: (ContentHash, Vec<u8>))
    ensures
        r.0@ == content_name(content@),
        r.1@ == compress_spec(content@),
{
    let hash = ContentHash::from_bytes(blake3_hash(content));
    (hash, compress(content))
}

/// The hash of some content.
pub fn hash_content(content: &[u8]) -> (r: ContentHash)
    ensures
        r@ == content_name(content@),
{
    ContentHash::from_bytes(blake3_hash(content))
}

/// What reading back an object named `hash` from `blob` gives: the content,
/// provided the blob unframes and the content hashes to the name.
pub open spec fn open_blob_spec(hash: Seq<u8>, blob: Seq<u8>) -> Option<Seq<u8>> {
    match decompress_spec(blob) {
        Some(c) => if content_name(c) == hash { Some(c) } else { None },
        None => None,
    }
}

/// Reads back an object that was stored under `hash`: unframes the blob and
/// checks that the content still hashes to the name.
pub fn open_blob(hash: &ContentHash, blob: &[u8]) -> (r: Result<Vec<u8>, StoreError>)
    ensures
        r is Ok == open_blob_spec(hash@, blob@) is Some,
        r matches Ok(v) ==> open_blob_spec(hash@, blob@) == Some(v@),
        r matches Err(StoreError::IntegrityMismatch { expected, actual }) ==> (expected == *hash
            && decompress_spec(blob@) is Some && actual@ == content_name(decompress_spec(blob@).unwrap())
            && actual@ != hash@),
        forall|x: Seq<u8>| x.len() <= u32::MAX && blob@ == #[trigger] compress_spec(x) && hash@ == content_name(x)
            ==> (r matches Ok(v) && v@ == x),
{
    let content = match decompress(blob) {
        Ok(c) => c,
        Err(e) => return Err(e),
    };
    let actual = hash_content(content.as_slice());
    if !actual.same_as(hash) {
        proof {
            ContentHash::lemma_view_injective(actual, *hash);
        }
        return Err(StoreError::IntegrityMismatch { expected: *hash, actual });
    }
    proof {
        ContentHash::lemma_view_injective(actual, *hash);
    }
    Ok(content)
}

/// The object store: where objects live under a root directory.
pub struct ObjectStore {
    objects_dir: String,
}

impl ObjectStore {
    /// The directory that holds the shards.
    pub closed spec fn dir(&self) -> Seq<char> {
        self.objects_dir@
    }

    /// The store under `root`: its objects live in `root/objects`. Creating
    /// that directory is the caller's part.
    pub fn new(root: &str) -> (r: Self)
        ensures
            r.dir() == join_spec(root@, "objects"@),
    {
        ObjectStore { objects_dir: join_path(root, "objects") }
    }

    /// The directory that holds the objects.
    pub fn objects_dir(&self) -> (r: &String)
        ensures
            r@ == self.dir(),
    {
        &self.objects_dir
    }

    /// The shard directory of an object: named by the first two hex digits
    /// of its hash.
    pub fn shard_dir(&self, hash: &ContentHash) -> (r: String)
        ensures
            r@ == join_spec(self.dir(), hex_lower(hash@.take(1))),
    {
        join_path(self.objects_dir.as_str(), hash.prefix().as_str())
    }

    /// Where an object lives: its shard directory, then the remaining 62 hex
    /// digits of its hash.
    pub fn object_path(&self, hash: &ContentHash) -> (r: String)
        ensures
            r@ == join_spec(join_spec(self.dir(), hex_lower(hash@.take(1))), hex_lower(hash@.skip(1))),
    {
        let shard = self.shard_dir(hash);
        join_path(shard.as_str(), hash.suffix().as_str())
    }
}

} // verus!
