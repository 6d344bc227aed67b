//! Byte-by-byte comparison: decisions on pairs of chunks read in lockstep.
use vstd::prelude::*;
use super::CompareResult;

verus! {

/// Chunk size used when reading both files (64 KB).
pub const BUF_SIZE: usize = 65536;

#[derive(Debug, Clone, Copy, Default, PartialEq, Eq, Structural)]
pub struct ByteComparator {}

/// What one pair of chunks decides: different lengths or contents give
/// `Different`; two empty chunks (both files at their end) give `Identical`;
/// otherwise reading goes on (`None`).
pub open spec fn chunk_verdict(a: Seq<u8>, b: Seq<u8>) -> Option<CompareResult> {
    if a != b {
        Some(CompareResult::Different)
    } else if a.len() == 0 {
        Some(CompareResult::Identical)
    } else {
        None
    }
}

impl ByteComparator {
    pub fn new() -> (c: Self)
        ensures
            c == (ByteComparator {  }),
    {
        ByteComparator {  }
    }

    pub fn name(&self) -> (s: &'static str)
        ensures
            s@ == "byte-by-byte"@,
    {
        "byte-by-byte"
    }

    /// Decides on the chunks `buf_a[..n_a]` and `buf_b[..n_b]`, each filled
    /// as far as its file allowed.
    pub fn chunk_step(buf_a: &[u8], n_a: usize, buf_b: &[u8], n_b: usize) -> (r: Option<
        CompareResult,
    >)
        requires
            n_a <= buf_a@.len(),
            n_b <= buf_b@.len(),
        ensures
            r == chunk_verdict(buf_a@.take(n_a as int), buf_b@.take(n_b as int)),
    {
        if n_a != n_b {
            proof {
                assert(buf_a@.take(n_a as int).len() != buf_b@.take(n_b as int).len());
            }
            return Some(CompareResult::Different);
        }
        let mut i: usize = 0;
        while i < n_a
            invariant
                n_a == n_b,
                n_a <= buf_a@.len(),
                n_b <= buf_b@.len(),
                i <= n_a,
                forall|j: int| 0 <= j < i ==> buf_a@[j] == buf_b@[j],
            decreases n_a - i,
        {
            if buf_a[i] != buf_b[i] {
                proof {
                    assert(buf_a@.take(n_a as int)[i as int] != buf_b@.take(n_b as int)[i as int]);
                }
                return Some(CompareResult::Different);
            }
            i = i + 1;
        }
        proof {
            assert(buf_a@.take(n_a as int) =~= buf_b@.take(n_b as int));
        }
        if n_a == 0 {
            Some(CompareResult::Identical)
        } else {
            None
        }
    }
}

/// The first `size` bytes of `s` (all of it when shorter): what one read
/// that fills a buffer of `size` bytes gets.
pub open spec fn chunk_of(s: Seq<u8>, size: nat) -> Seq<u8> {
    if size < s.len() {
        s.take(size as int)
    } else {
        s
    }
}

/// The verdict of reading two byte streams in lockstep, `size` bytes at a
/// time, and deciding on each pair of chunks in turn.
pub open spec fn stream_verdict(a: Seq<u8>, b: Seq<u8>, size: nat) -> CompareResult
    decreases a.len(),
{
    let ca = chunk_of(a, size);
    let cb = chunk_of(b, size);
    match chunk_verdict(ca, cb) {
        Some(r) => r,
        None => if 0 < ca.len() <= a.len() {
            stream_verdict(a.skip(ca.len() as int), b.skip(cb.len() as int), size)
        } else {
            CompareResult::Different
        },
    }
}

/// Deciding chunk by chunk judges the whole files: with any positive chunk
/// size the verdict is `Identical` exactly when the two byte sequences are
/// equal.
pub proof fn law_chunks_decide_whole_files(a: Seq<u8>, b: Seq<u8>, size: nat)
    requires
        size > 0,
    ensures
        stream_verdict(a, b, size) == if a == b {
            CompareResult::Identical
        } else {
            CompareResult::Different
        },
    decreases a.len(),
{
    let ca = chunk_of(a, size);
    let cb = chunk_of(b, size);
    if ca != cb {
        if a == b {
            assert(ca == cb);
        }
    } else if ca.len() == 0 {
        assert(a.len() == 0);
        assert(b.len() == 0);
        assert(a =~= b);
    } else {
        let k = ca.len() as int;
        law_chunks_decide_whole_files(a.skip(k), b.skip(k), size);
        assert(a =~= ca + a.skip(k));
        assert(b =~= cb + b.skip(k));
        if a == b {
            assert(a.skip(k) =~= b.skip(k));
        }
        if a.skip(k) == b.skip(k) {
            assert(a =~= b);
        }
    }
}

} // verus!
