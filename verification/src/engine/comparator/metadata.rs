//! Metadata comparison: same size and modification times within a tolerance.
use vstd::prelude::*;
use super::CompareResult;

verus! {

/// Filesystems store mtimes with different granularity (FAT/exFAT: 2 s,
/// NTFS: 100 ns, ext4: 1 ns), so a file copied across filesystems can have its
/// mtime shifted by up to 2 s. Anything within that window counts as equal.
pub const MTIME_TOLERANCE_NANOS: i128 = 2_000_000_000;

#[derive(Debug, Clone, Copy, Default, PartialEq, Eq, Structural)]
pub struct MetadataComparator {}

/// Distance between two instants, in nanoseconds.
pub open spec fn mtime_distance(a: i128, b: i128) -> int {
    if a >= b {
        a - b
    } else {
        b - a
    }
}

/// Same size and modification times at most the tolerance apart.
pub open spec fn metadata_verdict(len_a: u64, len_b: u64, mtime_a: i128, mtime_b: i128) -> CompareResult {
    if len_a == len_b && mtime_distance(mtime_a, mtime_b) <= MTIME_TOLERANCE_NANOS {
        CompareResult::Identical
    } else {
        CompareResult::Different
    }
}

/// Whether `hi - lo` is at most the tolerance, for `lo <= hi`, computed
/// without overflow.
fn within_tolerance(hi: i128, lo: i128) -> (b: bool)
    requires
        lo <= hi,
    ensures
        b == (hi - lo <= MTIME_TOLERANCE_NANOS),
{
    if lo > i128::MAX - MTIME_TOLERANCE_NANOS {
        hi - lo <= MTIME_TOLERANCE_NANOS
    } else {
        hi <= lo + MTIME_TOLERANCE_NANOS
    }
}

impl MetadataComparator {
    pub fn new() -> (c: Self)
        ensures
            c == (MetadataComparator {  }),
    {
        MetadataComparator {  }
    }

    pub fn name(&self) -> (s: &'static str)
        ensures
            s@ == "metadata (size + mtime)"@,
    {
        "metadata (size + mtime)"
    }

    /// Decides from the sizes and the modification times (nanoseconds since
    /// the Unix epoch, negative before it).
    pub fn verdict(len_a: u64, len_b: u64, mtime_a: i128, mtime_b: i128) -> (r: CompareResult)
        ensures
            r == metadata_verdict(len_a, len_b, mtime_a, mtime_b),
    {
        let size_eq = len_a == len_b;
        let mtime_eq = if mtime_a >= mtime_b {
            within_tolerance(mtime_a, mtime_b)
        } else {
            within_tolerance(mtime_b, mtime_a)
        };
        if size_eq && mtime_eq {
            CompareResult::Identical
        } else {
            CompareResult::Different
        }
    }
}

/// The metadata verdict does not depend on which file is called `a`.
pub proof fn law_metadata_verdict_symmetric(len_a: u64, len_b: u64, mtime_a: i128, mtime_b: i128)
    ensures
        metadata_verdict(len_a, len_b, mtime_a, mtime_b) == metadata_verdict(len_b, len_a, mtime_b, mtime_a),
{
}

} // verus!
