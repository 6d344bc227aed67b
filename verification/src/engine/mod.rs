//! The comparison engine: scan results, structural diff and the decisions of
//! the content comparators.
pub mod scanner;
pub mod diff;
pub mod comparator;
pub mod pipeline;
