//! Hash comparison: both files are hashed with SHA-256 and the digests compared.
use vstd::prelude::*;
use super::CompareResult;

verus! {

/// Chunk size used when feeding a file to the hasher (128 KB).
pub const HASH_BUF_SIZE: usize = 131072;

/// The SHA-256 digest (32 bytes) of `data`.
pub uninterp spec fn sha256_digest(data: Seq<u8>) -> Seq<u8>;

/// The most input a hasher takes: the length counted in bits must fit in a
/// `usize`.
pub open spec fn max_hash_input() -> int {
    usize::MAX as int / 8
}

#[derive(Debug, Clone, Copy, Default, PartialEq, Eq, Structural)]
pub struct HashComparator {}

/// The verdict on two digests.
pub open spec fn digest_verdict(a: Seq<u8>, b: Seq<u8>) -> CompareResult {
    if a == b {
        CompareResult::Identical
    } else {
        CompareResult::Different
    }
}

impl HashComparator {
    pub fn new() -> (c: Self)
        ensures
            c == (HashComparator {  }),
    {
        HashComparator {  }
    }

    pub fn name(&self) -> (s: &'static str)
        ensures
            s@ == "hash (SHA-256)"@,
    {
        "hash (SHA-256)"
    }

    /// Identical digests mean identical files.
    pub fn verdict(hash_a: &[u8; 32], hash_b: &[u8; 32]) -> (r: CompareResult)
        ensures
            r == digest_verdict(hash_a@, hash_b@),
    {
        let mut i: usize = 0;
        while i < 32
            invariant
                i <= 32,
                hash_a@.len() == 32,
                hash_b@.len() == 32,
                forall|j: int| 0 <= j < i ==> hash_a@[j] == hash_b@[j],
            decreases 32 - i,
        {
            if hash_a[i] != hash_b[i] {
                return CompareResult::Different;
            }
            i = i + 1;
        }
        proof {
            assert(hash_a@ =~= hash_b@);
        }
        CompareResult::Identical
    }
}

/// The incremental SHA-256 hasher of the `hmac-sha256` crate, carried opaque.
#[verifier::external_type_specification]
#[verifier::external_body]
pub struct ExSha256(hmac_sha256::Hash);

/// Incremental SHA-256 hashing of a file read chunk by chunk.
pub struct FileHasher {
    inner: hmac_sha256::Hash,
    fed: Ghost<Seq<u8>>,
    fed_len: usize,
}

impl FileHasher {
    /// The bytes fed so far.
    pub closed spec fn input(&self) -> Seq<u8> {
        self.fed@
    }

    /// `hmac_sha256::Hash::new`: a hasher that has seen no input.
    #[verifier::external_body]
    fn start() -> (h: FileHasher)
        ensures
            h.input() == Seq::<u8>::empty(),
            h.fed_len == 0,
    {
        FileHasher { inner: hmac_sha256::Hash::new(), fed: Ghost(Seq::empty()), fed_len: 0 }
    }

    /// `hmac_sha256::Hash::update`: appends `chunk` to the input (the
    /// crate's documentation shows input fed in pieces hashed as the pieces
    /// concatenated). The crate adds the length to a `usize` counter, and
    /// its finalisation multiplies that counter by 8.
    #[verifier::external_body]
    fn update(&mut self, chunk: &[u8])
        requires
            old(self).input().len() + chunk@.len() <= max_hash_input(),
        ensures
            final(self).input() == old(self).input() + chunk@,
            final(self).fed_len == old(self).fed_len,
    {
        self.inner.update(chunk);
    }

    /// `hmac_sha256::Hash::finalize` (on a copy of the hasher): the 32-byte
    /// SHA-256 digest of everything fed so far.
    #[verifier::external_body]
    fn finalize(&self) -> (d: [u8; 32])
        requires
            self.input().len() <= max_hash_input(),
        ensures
            d@ == sha256_digest(self.input()),
    {
        self.inner.finalize()
    }

    /// A hasher that has seen no input.
    pub fn new() -> (h: FileHasher)
        ensures
            h.input() == Seq::<u8>::empty(),
            h.well_formed(),
    {
        FileHasher::start()
    }

    /// The hasher's byte count agrees with its input.
    pub closed spec fn well_formed(&self) -> bool {
        &&& self.fed_len == self.input().len()
        &&& self.input().len() <= max_hash_input()
    }

    /// How many bytes were fed so far.
    pub fn fed_len(&self) -> (n: usize)
        requires
            self.well_formed(),
        ensures
            n == self.input().len(),
    {
        self.fed_len
    }

    /// One step of hashing a file read chunk by chunk into `buf`: a read of
    /// `n > 0` bytes feeds `buf[..n]`; a read of 0 bytes is the end of the
    /// file, and the digest of everything fed comes back.
    pub fn absorb(&mut self, buf: &[u8], n: usize) -> (r: Option<[u8; 32]>)
        requires
            old(self).well_formed(),
            n <= buf@.len(),
            old(self).input().len() + n <= max_hash_input(),
        ensures
            final(self).well_formed(),
            n == 0 ==> final(self).input() == old(self).input() && (r matches Some(d) && d@ == sha256_digest(
                old(self).input(),
            )),
            n > 0 ==> final(self).input() == old(self).input() + buf@.take(n as int) && r is None,
    {
        if n == 0 {
            return Some(self.finalize());
        }
        let chunk = vstd::slice::slice_subrange(buf, 0, n);
        proof {
            assert(chunk@ =~= buf@.take(n as int));
        }
        self.update(chunk);
        self.fed_len = self.fed_len + n;
        None
    }
}

/// Feeding a hasher the chunks `chunks` one after the other (`inputs[i]` is
/// its input before chunk `i`) leaves it with their concatenation: the
/// digest that comes back is that of the whole file.
pub proof fn law_hash_of_chunks(chunks: Seq<Seq<u8>>, inputs: Seq<Seq<u8>>)
    requires
        inputs.len() == chunks.len() + 1,
        inputs[0] == Seq::<u8>::empty(),
        forall|i: int| 0 <= i < chunks.len() ==> #[trigger] inputs[i + 1] == inputs[i] + chunks[i],
    ensures
        inputs[chunks.len() as int] == chunks.flatten(),
    decreases chunks.len(),
{
    if chunks.len() > 0 {
        let n = chunks.len() - 1;
        law_hash_of_chunks(chunks.drop_last(), inputs.drop_last());
        assert(inputs[n + 1] == inputs[n] + chunks[n]);
        chunks.drop_last().lemma_flatten_push(chunks[n]);
        assert(chunks =~= chunks.drop_last().push(chunks[n]));
    } else {
        assert(chunks.flatten() =~= Seq::<u8>::empty());
    }
}

} // verus!
