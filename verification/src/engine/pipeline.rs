//! Messages of the two background phases. The threads that produce them
//! run outside the library; the application model consumes them.
use vstd::prelude::*;
use crate::engine::diff::DiffStatus;
use crate::engine::scanner::EntryMap;
use crate::relpath::RelPath;

verus! {

/// Message from the background scan (phase 1).
pub enum ScanMsg {
    Done {
        left_map: EntryMap,
        right_map: EntryMap,
        /// Total skipped entries (permission errors, broken links, ...).
        errors: usize,
    },
}

/// Message from the background comparison (phase 2).
#[derive(Debug)]
pub enum CompareMsg {
    /// The content comparison of the files at `path` gave `status`.
    Result { path: RelPath, status: DiffStatus },
    /// Every queued comparison has been reported.
    Done,
}

} // verus!
