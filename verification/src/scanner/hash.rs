//! Content fingerprints: SHA-1 digests in lower-case hexadecimal.
//!
//! The bytes of a file are read by the caller. A head sample covers the
//! first 262144 bytes of a file; a full digest covers all of it and can be
//! fed chunk by chunk.

use vstd::prelude::*;
use vstd::slice::slice_subrange;

verus! {

/// The number of leading bytes that the head sample of a file covers.
pub const HEAD_SAMPLE_BYTES: usize = 262144;

/// The number of bytes that a file is read by at a time.
pub const BUFFER_SIZE: usize = 8192;

/// The SHA-1 digest of the bytes, in lower-case hexadecimal.
pub uninterp spec fn sha1_hex(data: Seq<u8>) -> Seq<char>;

/// A SHA-1 computation that takes its input in pieces.
#[verifier::external_body]
pub struct FullHasher {
    inner: sha1::Sha1,
}

/// The bytes that were fed to the hasher so far.
pub uninterp spec fn fed(hasher: FullHasher) -> Seq<u8>;

impl FullHasher {
    /// `Sha1::new`: a hasher that was fed nothing.
    #[verifier::external_body]
    pub(crate) fn new() -> (out: FullHasher)
        ensures
            fed(out).len() == 0,
    {
        FullHasher { inner: <sha1::Sha1 as sha1::Digest>::new() }
    }

    /// `Digest::update`: the hasher is fed the bytes of `chunk` after what
    /// it was fed before.
    #[verifier::external_body]
    pub(crate) fn update(&mut self, chunk: &[u8])
        ensures
            fed(*final(self)) == fed(*old(self)) + chunk@,
    {
        sha1::Digest::update(&mut self.inner, chunk);
    }

    /// `Digest::finalize`, written in lower-case hexadecimal: the SHA-1
    /// digest of all the bytes that the hasher was fed.
    #[verifier::external_body]
    pub(crate) fn finalize(self) -> (out: String)
        ensures
            out@ == sha1_hex(fed(self)),
    {
        format!("{:x}", sha1::Digest::finalize(self.inner))
    }
}

impl FullHasher {
    /// A digest of nothing yet.
    pub fn start() -> (out: FullHasher)
        ensures
            fed(out).len() == 0,
    {
        FullHasher::new()
    }

    /// Takes the bytes of `chunk` after the bytes taken before.
    pub fn push_chunk(&mut self, chunk: &[u8])
        ensures
            fed(*final(self)) == fed(*old(self)) + chunk@,
    {
        self.update(chunk);
    }

    /// The digest of all the bytes taken.
    pub fn finish_hex(self) -> (out: String)
        ensures
            out@ == sha1_hex(fed(self)),
    {
        self.finalize()
    }
}

/// The bytes of the chunks, one chunk after the other.
pub open spec fn concat_chunks(chunks: Seq<Vec<u8>>) -> Seq<u8>
    decreases chunks.len(),
{
    if chunks.len() == 0 {
        Seq::empty()
    } else {
        concat_chunks(chunks.drop_last()) + chunks.last()@
    }
}

/// The bytes that a head sample of `n` bytes covers: the first `n`, or all
/// where there are fewer.
pub open spec fn head_of(data: Seq<u8>, n: nat) -> Seq<u8> {
    if n < data.len() {
        data.take(n as int)
    } else {
        data
    }
}

/// The digest of the first `n` bytes of `data`, or of all of them where
/// there are fewer.
pub fn hash_first_n(data: &[u8], n: usize) -> (out: String)
    ensures
        out@ == sha1_hex(head_of(data@, n as nat)),
{
    let end = if n < data.len() {
        n
    } else {
        data.len()
    };
    let head = slice_subrange(data, 0, end);
    proof {
        assert(head@ =~= head_of(data@, n as nat));
    }
    let mut hasher = FullHasher::new();
    hasher.update(head);
    proof {
        assert(fed(hasher) =~= head@);
    }
    hasher.finalize()
}

/// The digest of a file that was read as `chunks`: that of all their
/// bytes, one chunk after the other. The digest of no bytes where there
/// is no chunk.
pub fn hash_full(chunks: &Vec<Vec<u8>>) -> (out: String)
    ensures
        out@ == sha1_hex(concat_chunks(chunks@)),
{
    let mut hasher = FullHasher::new();
    let mut i: usize = 0;
    proof {
        assert(fed(hasher) =~= concat_chunks(chunks@.take(0)));
    }
    while i < chunks.len()
        invariant
            i <= chunks.len(),
            fed(hasher) == concat_chunks(chunks@.take(i as int)),
        decreases chunks.len() - i,
    {
        proof {
            assert(chunks@.take(i + 1).drop_last() == chunks@.take(i as int));
            assert(chunks@.take(i + 1).last() == chunks@[i as int]);
        }
        hasher.update(chunks[i].as_slice());
        i = i + 1;
    }
    proof {
        assert(chunks@.take(chunks@.len() as int) == chunks@);
    }
    hasher.finalize()
}

/// Whether a file of this size gets its full digest while it is scanned:
/// up to four mebibytes. Larger files get one only when another file has
/// the same size and head sample.
pub fn hashes_fully_at_once(size_bytes: u64) -> (r: bool)
    ensures
        r == (size_bytes <= 4194304),
{
    size_bytes <= 4194304
}

} // verus!
