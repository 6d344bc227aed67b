//! Content comparison strategies.
//!
//! Each strategy is split into the file reading, which happens outside the
//! library, and the decisions taken on what was read, which live here.
pub mod byte;
pub mod hash;
pub mod metadata;
pub mod text;

use vstd::prelude::*;
use crate::config::{ComparisonConfig, ComparisonStrategy};
use self::byte::ByteComparator;
use self::hash::HashComparator;
use self::metadata::MetadataComparator;
use self::text::TextComparator;

verus! {

/// Result of comparing two files. Failures (unreadable file, metadata error)
/// are reported separately, as an error message.
#[derive(Debug, Clone, Copy, PartialEq, Eq, Structural)]
pub enum CompareResult {
    /// Files are identical.
    Identical,
    /// Files differ.
    Different,
}

/// What the sizes of two files decide before their contents are read.
pub open spec fn size_verdict(sizes: Option<(u64, u64)>) -> Option<CompareResult> {
    match sizes {
        None => None,
        Some((a, b)) => if a != b {
            Some(CompareResult::Different)
        } else if a == 0 {
            Some(CompareResult::Identical)
        } else {
            None
        },
    }
}

/// Size-based shortcut shared by the content comparators: different sizes
/// give `Different`, two empty files give `Identical`. `None` when the
/// contents must be read (equal non-zero sizes) or when the sizes could not
/// be read (`sizes` is `None`).
pub fn size_precheck(sizes: Option<(u64, u64)>) -> (r: Option<CompareResult>)
    ensures
        r == size_verdict(sizes),
{
    match sizes {
        None => None,
        Some((a, b)) => {
            if a != b {
                Some(CompareResult::Different)
            } else if a == 0 {
                Some(CompareResult::Identical)
            } else {
                None
            }
        },
    }
}

/// The size shortcut agrees with the contents: when it decides on two files
/// of contents `x` and `y`, it says `Identical` exactly when they are equal
/// and `Different` otherwise; it leaves undecided only files of equal,
/// non-zero size.
pub proof fn law_size_shortcut_agrees_with_contents(x: Seq<u8>, y: Seq<u8>)
    requires
        x.len() <= u64::MAX,
        y.len() <= u64::MAX,
    ensures
        size_verdict(Some((x.len() as u64, y.len() as u64))) matches Some(r) ==> r == if x == y {
            CompareResult::Identical
        } else {
            CompareResult::Different
        },
        size_verdict(Some((x.len() as u64, y.len() as u64))) is None ==> x.len() == y.len() && x.len() > 0,
{
    if x.len() == 0 && y.len() == 0 {
        assert(x =~= y);
    }
}

/// The configured comparison strategy with its settings.
#[derive(Debug)]
pub enum Comparator {
    Hash(HashComparator),
    Metadata(MetadataComparator),
    Byte(ByteComparator),
    Text(TextComparator),
}

/// The comparator that a configuration selects.
pub open spec fn comparator_for(config: ComparisonConfig) -> Comparator {
    match config.strategy {
        ComparisonStrategy::Hash => Comparator::Hash(HashComparator {  }),
        ComparisonStrategy::Metadata => Comparator::Metadata(MetadataComparator {  }),
        ComparisonStrategy::Byte => Comparator::Byte(ByteComparator {  }),
        ComparisonStrategy::Text => Comparator::Text(
            TextComparator {
                ignore_whitespace: config.text.ignore_whitespace,
                ignore_case: config.text.ignore_case,
            },
        ),
    }
}

/// Creates a comparator based on the configuration.
pub fn create_comparator(config: &ComparisonConfig) -> (c: Comparator)
    ensures
        c == comparator_for(*config),
{
    match config.strategy {
        ComparisonStrategy::Hash => Comparator::Hash(HashComparator::new()),
        ComparisonStrategy::Metadata => Comparator::Metadata(MetadataComparator::new()),
        ComparisonStrategy::Byte => Comparator::Byte(ByteComparator::new()),
        ComparisonStrategy::Text => Comparator::Text(
            TextComparator::new(config.text.ignore_whitespace, config.text.ignore_case),
        ),
    }
}

impl Comparator {
    /// The strategy's name.
    pub open spec fn strategy_name(&self) -> Seq<char> {
        match self {
            Comparator::Hash(_) => "hash (SHA-256)"@,
            Comparator::Metadata(_) => "metadata (size + mtime)"@,
            Comparator::Byte(_) => "byte-by-byte"@,
            Comparator::Text(t) => t.spec_name(),
        }
    }

    /// Strategy name (displayed in the status bar).
    pub fn name(&self) -> (s: &'static str)
        ensures
            s@ == self.strategy_name(),
    {
        match self {
            Comparator::Hash(c) => c.name(),
            Comparator::Metadata(c) => c.name(),
            Comparator::Byte(c) => c.name(),
            Comparator::Text(c) => c.name(),
        }
    }
}

} // verus!
