//! Structural diff of two scanned folder trees and per-status bookkeeping.
use vstd::prelude::*;
use crate::engine::comparator::{CompareResult, Comparator};
use crate::engine::scanner::{lemma_well_formed_facts, sorted_paths, Entry, EntryMap};
use crate::relpath::{
    lemma_path_lt_asymmetric, lemma_path_lt_irreflexive, lemma_path_lt_transitive, path_lt, Order,
    RelPath,
};

verus! {

/// Comparison status of a single entry.
#[derive(Debug, Clone, PartialEq, Eq)]
pub enum DiffStatus {
    /// File is awaiting content comparison (phase 2).
    Pending,
    /// File/directory exists only in the left folder.
    LeftOnly,
    /// File/directory exists only in the right folder.
    RightOnly,
    /// Files are identical.
    Identical,
    /// Directory exists on both sides.
    DirectoryPresent,
    /// Files differ in content.
    Different,
    /// One side is a file, the other is a directory with the same name.
    TypeConflict,
    /// Error occurred during comparison.
    Error(String),
}

/// `Identical` and `DirectoryPresent` count as "the same".
pub open spec fn status_is_same(s: DiffStatus) -> bool {
    s is Identical || s is DirectoryPresent
}

impl DiffStatus {
    pub fn is_same(&self) -> (b: bool)
        ensures
            b == status_is_same(*self),
    {
        match self {
            DiffStatus::Identical | DiffStatus::DirectoryPresent => true,
            _ => false,
        }
    }

    pub fn has_difference(&self) -> (b: bool)
        ensures
            b == !status_is_same(*self),
    {
        !self.is_same()
    }

    /// A copy of this status.
    pub fn duplicate(&self) -> (r: DiffStatus)
        ensures
            r == *self,
    {
        match self {
            DiffStatus::Pending => DiffStatus::Pending,
            DiffStatus::LeftOnly => DiffStatus::LeftOnly,
            DiffStatus::RightOnly => DiffStatus::RightOnly,
            DiffStatus::Identical => DiffStatus::Identical,
            DiffStatus::DirectoryPresent => DiffStatus::DirectoryPresent,
            DiffStatus::Different => DiffStatus::Different,
            DiffStatus::TypeConflict => DiffStatus::TypeConflict,
            DiffStatus::Error(msg) => DiffStatus::Error(msg.clone()),
        }
    }

    /// Whether two statuses are the same variant (messages of `Error` are
    /// not compared).
    pub fn same_kind(&self, other: &DiffStatus) -> (b: bool)
        ensures
            b == same_kind(*self, *other),
    {
        match (self, other) {
            (DiffStatus::Pending, DiffStatus::Pending) => true,
            (DiffStatus::LeftOnly, DiffStatus::LeftOnly) => true,
            (DiffStatus::RightOnly, DiffStatus::RightOnly) => true,
            (DiffStatus::Identical, DiffStatus::Identical) => true,
            (DiffStatus::DirectoryPresent, DiffStatus::DirectoryPresent) => true,
            (DiffStatus::Different, DiffStatus::Different) => true,
            (DiffStatus::TypeConflict, DiffStatus::TypeConflict) => true,
            (DiffStatus::Error(_), DiffStatus::Error(_)) => true,
            _ => false,
        }
    }
}

/// Whether two statuses are the same variant.
pub open spec fn same_kind(a: DiffStatus, b: DiffStatus) -> bool {
    match (a, b) {
        (DiffStatus::Pending, DiffStatus::Pending) => true,
        (DiffStatus::LeftOnly, DiffStatus::LeftOnly) => true,
        (DiffStatus::RightOnly, DiffStatus::RightOnly) => true,
        (DiffStatus::Identical, DiffStatus::Identical) => true,
        (DiffStatus::DirectoryPresent, DiffStatus::DirectoryPresent) => true,
        (DiffStatus::Different, DiffStatus::Different) => true,
        (DiffStatus::TypeConflict, DiffStatus::TypeConflict) => true,
        (DiffStatus::Error(_), DiffStatus::Error(_)) => true,
        _ => false,
    }
}

/// Comparison result for a single entry.
#[derive(Debug, Clone)]
pub struct DiffEntry {
    pub relative_path: RelPath,
    pub status: DiffStatus,
    pub is_dir: bool,
}

impl DiffEntry {
    /// A copy of this entry.
    pub fn duplicate(&self) -> (r: DiffEntry)
        ensures
            r.relative_path@ == self.relative_path@,
            r.status == self.status,
            r.is_dir == self.is_dir,
    {
        DiffEntry {
            relative_path: self.relative_path.duplicate(),
            status: self.status.duplicate(),
            is_dir: self.is_dir,
        }
    }
}

/// Visibility filter over diff entries: four independent toggles, one per
/// user-facing status. Statuses without a toggle are always visible.
#[derive(Debug, Clone, Copy)]
pub struct DiffFilter {
    pub show_left_only: bool,
    pub show_right_only: bool,
    pub show_different: bool,
    pub show_identical: bool,
}

impl Default for DiffFilter {
    fn default() -> (f: Self)
        ensures
            f.show_left_only && f.show_right_only && f.show_different && f.show_identical,
    {
        DiffFilter {
            show_left_only: true,
            show_right_only: true,
            show_different: true,
            show_identical: true,
        }
    }
}

/// Whether `filter` lets an entry with status `s` through.
pub open spec fn filter_passes(filter: DiffFilter, s: DiffStatus) -> bool {
    match s {
        DiffStatus::LeftOnly => filter.show_left_only,
        DiffStatus::RightOnly => filter.show_right_only,
        DiffStatus::Different => filter.show_different,
        DiffStatus::Identical => filter.show_identical,
        _ => true,
    }
}

impl DiffFilter {
    /// Pending, TypeConflict and Error have no toggle and are always visible
    /// (DirectoryPresent too, though the view turns such entries into folder
    /// headers before filtering).
    pub fn matches(&self, entry: &DiffEntry) -> (b: bool)
        ensures
            b == filter_passes(*self, entry.status),
    {
        match &entry.status {
            DiffStatus::LeftOnly => self.show_left_only,
            DiffStatus::RightOnly => self.show_right_only,
            DiffStatus::Different => self.show_different,
            DiffStatus::Identical => self.show_identical,
            DiffStatus::Pending
            | DiffStatus::DirectoryPresent
            | DiffStatus::TypeConflict
            | DiffStatus::Error(_) => true,
        }
    }
}

// ---------------------------------------------------------------------------
// Counting entries by status
// ---------------------------------------------------------------------------

pub open spec fn left_only_kind() -> spec_fn(DiffStatus) -> bool {
    |s: DiffStatus| s is LeftOnly
}

pub open spec fn right_only_kind() -> spec_fn(DiffStatus) -> bool {
    |s: DiffStatus| s is RightOnly
}

pub open spec fn different_kind() -> spec_fn(DiffStatus) -> bool {
    |s: DiffStatus| s is Different
}

pub open spec fn identical_kind() -> spec_fn(DiffStatus) -> bool {
    |s: DiffStatus| s is Identical
}

pub open spec fn pending_kind() -> spec_fn(DiffStatus) -> bool {
    |s: DiffStatus| s is Pending
}

pub open spec fn type_conflict_kind() -> spec_fn(DiffStatus) -> bool {
    |s: DiffStatus| s is TypeConflict
}

pub open spec fn error_kind() -> spec_fn(DiffStatus) -> bool {
    |s: DiffStatus| s is Error
}

/// Everything but directories present on both sides.
pub open spec fn file_kind() -> spec_fn(DiffStatus) -> bool {
    |s: DiffStatus| !(s is DirectoryPresent)
}

/// Number of entries whose status satisfies `f`.
pub open spec fn count_with(entries: Seq<DiffEntry>, f: spec_fn(DiffStatus) -> bool) -> nat
    decreases entries.len(),
{
    if entries.len() == 0 {
        0
    } else {
        count_with(entries.drop_last(), f) + (if f(entries.last().status) {
            1nat
        } else {
            0nat
        })
    }
}

/// The entries whose status satisfies `f`, in their order.
pub open spec fn select_with(entries: Seq<DiffEntry>, f: spec_fn(DiffStatus) -> bool) -> Seq<
    DiffEntry,
>
    decreases entries.len(),
{
    if entries.len() == 0 {
        Seq::empty()
    } else if f(entries.last().status) {
        select_with(entries.drop_last(), f).push(entries.last())
    } else {
        select_with(entries.drop_last(), f)
    }
}

/// The total is the sum of the per-kind counts: every entry that is not a
/// directory present on both sides is exactly one of different, left only,
/// right only, identical, pending, type conflict or error.
pub proof fn law_total_is_sum_of_kinds(entries: Seq<DiffEntry>)
    ensures
        count_with(entries, file_kind()) == count_with(entries, different_kind()) + count_with(
            entries,
            left_only_kind(),
        ) + count_with(entries, right_only_kind()) + count_with(entries, identical_kind())
            + count_with(entries, pending_kind()) + count_with(entries, type_conflict_kind())
            + count_with(entries, error_kind()),
    decreases entries.len(),
{
    if entries.len() > 0 {
        law_total_is_sum_of_kinds(entries.drop_last());
    }
}

/// Pending entries, type conflicts and errors have no filter toggle: every
/// filter lets them through.
pub proof fn law_untoggled_kinds_always_pass(filter: DiffFilter, s: DiffStatus)
    requires
        s is Pending || s is TypeConflict || s is Error,
    ensures
        filter_passes(filter, s),
{
}

pub proof fn lemma_count_with_bound(entries: Seq<DiffEntry>, f: spec_fn(DiffStatus) -> bool)
    ensures
        count_with(entries, f) <= entries.len(),
        select_with(entries, f).len() == count_with(entries, f),
    decreases entries.len(),
{
    if entries.len() > 0 {
        lemma_count_with_bound(entries.drop_last(), f);
    }
}

pub proof fn lemma_count_with_push(
    entries: Seq<DiffEntry>,
    e: DiffEntry,
    f: spec_fn(DiffStatus) -> bool,
)
    ensures
        count_with(entries.push(e), f) == count_with(entries, f) + (if f(e.status) {
            1nat
        } else {
            0nat
        }),
{
    assert(entries.push(e).drop_last() =~= entries);
}

pub proof fn lemma_count_with_update(
    entries: Seq<DiffEntry>,
    i: int,
    e: DiffEntry,
    f: spec_fn(DiffStatus) -> bool,
)
    requires
        0 <= i < entries.len(),
    ensures
        count_with(entries.update(i, e), f) + (if f(entries[i].status) {
            1nat
        } else {
            0nat
        }) == count_with(entries, f) + (if f(e.status) {
            1nat
        } else {
            0nat
        }),
    decreases entries.len(),
{
    let u = entries.update(i, e);
    if i == entries.len() - 1 {
        assert(u.drop_last() =~= entries.drop_last());
    } else {
        assert(u.drop_last() =~= entries.drop_last().update(i, e));
        lemma_count_with_update(entries.drop_last(), i, e, f);
    }
}

pub proof fn lemma_count_with_member(entries: Seq<DiffEntry>, i: int, f: spec_fn(DiffStatus) -> bool)
    requires
        0 <= i < entries.len(),
        f(entries[i].status),
    ensures
        count_with(entries, f) >= 1,
    decreases entries.len(),
{
    if i < entries.len() - 1 {
        lemma_count_with_member(entries.drop_last(), i, f);
    }
}

/// Cached per-status counts.
#[derive(Debug, Clone, Copy)]
pub struct StatusCounts {
    pub file_count: usize,
    pub left_only: usize,
    pub right_only: usize,
    pub different: usize,
    pub identical: usize,
}

impl StatusCounts {
    /// The counts agree with `entries`.
    pub open spec fn agree_with(self, entries: Seq<DiffEntry>) -> bool {
        &&& self.file_count == count_with(entries, file_kind())
        &&& self.left_only == count_with(entries, left_only_kind())
        &&& self.right_only == count_with(entries, right_only_kind())
        &&& self.different == count_with(entries, different_kind())
        &&& self.identical == count_with(entries, identical_kind())
    }

    pub fn zero() -> (c: StatusCounts)
        ensures
            c.agree_with(Seq::empty()),
    {
        StatusCounts { file_count: 0, left_only: 0, right_only: 0, different: 0, identical: 0 }
    }
}

proof fn lemma_counts_bounded(c: StatusCounts, entries: Seq<DiffEntry>)
    requires
        c.agree_with(entries),
    ensures
        c.file_count <= entries.len(),
        c.left_only <= entries.len(),
        c.right_only <= entries.len(),
        c.different <= entries.len(),
        c.identical <= entries.len(),
{
    lemma_count_with_bound(entries, file_kind());
    lemma_count_with_bound(entries, left_only_kind());
    lemma_count_with_bound(entries, right_only_kind());
    lemma_count_with_bound(entries, different_kind());
    lemma_count_with_bound(entries, identical_kind());
}

/// Adds (`increment`) or removes the count of one entry with `status`.
/// The single place that maps a status to its counter.
fn bump_count(counts: &mut StatusCounts, status: &DiffStatus, increment: bool)
    requires
        increment ==> (file_kind()(*status) ==> old(counts).file_count < usize::MAX) && (
        left_only_kind()(*status) ==> old(counts).left_only < usize::MAX) && (right_only_kind()(
        *status) ==> old(counts).right_only < usize::MAX) && (different_kind()(*status)
            ==> old(counts).different < usize::MAX) && (identical_kind()(*status)
            ==> old(counts).identical < usize::MAX),
        !increment ==> (file_kind()(*status) ==> old(counts).file_count > 0) && (
        left_only_kind()(*status) ==> old(counts).left_only > 0) && (right_only_kind()(*status)
            ==> old(counts).right_only > 0) && (different_kind()(*status)
            ==> old(counts).different > 0) && (identical_kind()(*status)
            ==> old(counts).identical > 0),
    ensures
        final(counts).file_count == bump(old(counts).file_count, file_kind()(*status), increment),
        final(counts).left_only == bump(old(counts).left_only, left_only_kind()(*status), increment),
        final(counts).right_only == bump(
            old(counts).right_only,
            right_only_kind()(*status),
            increment,
        ),
        final(counts).different == bump(
            old(counts).different,
            different_kind()(*status),
            increment,
        ),
        final(counts).identical == bump(
            old(counts).identical,
            identical_kind()(*status),
            increment,
        ),
{
    match status {
        DiffStatus::DirectoryPresent => {},
        _ => {
            if increment {
                counts.file_count = counts.file_count + 1;
            } else {
                counts.file_count = counts.file_count - 1;
            }
        },
    }
    match status {
        DiffStatus::LeftOnly => {
            if increment {
                counts.left_only = counts.left_only + 1;
            } else {
                counts.left_only = counts.left_only - 1;
            }
        },
        DiffStatus::RightOnly => {
            if increment {
                counts.right_only = counts.right_only + 1;
            } else {
                counts.right_only = counts.right_only - 1;
            }
        },
        DiffStatus::Different => {
            if increment {
                counts.different = counts.different + 1;
            } else {
                counts.different = counts.different - 1;
            }
        },
        DiffStatus::Identical => {
            if increment {
                counts.identical = counts.identical + 1;
            } else {
                counts.identical = counts.identical - 1;
            }
        },
        DiffStatus::Pending
        | DiffStatus::DirectoryPresent
        | DiffStatus::TypeConflict
        | DiffStatus::Error(_) => {},
    }
}

/// `n` adjusted by one when `hit`, up or down.
pub open spec fn bump(n: usize, hit: bool, increment: bool) -> int {
    if !hit {
        n as int
    } else if increment {
        n + 1
    } else {
        n - 1
    }
}

// ---------------------------------------------------------------------------
// The result of a comparison
// ---------------------------------------------------------------------------

/// Paths of the entries.
pub open spec fn entry_paths(entries: Seq<DiffEntry>) -> Seq<Seq<Seq<char>>> {
    entries.map_values(|e: DiffEntry| e.relative_path@)
}

/// Full comparison result for two folder trees: the entries sorted by path,
/// and cached per-status counts that always agree with them.
pub struct DiffResult {
    entries: Vec<DiffEntry>,
    counts: StatusCounts,
}

impl DiffResult {
    #[verifier::type_invariant]
    closed spec fn inv(&self) -> bool {
        &&& sorted_paths(entry_paths(self.entries@))
        &&& self.counts.agree_with(self.entries@)
    }

    /// The entries, sorted by path.
    pub closed spec fn spec_entries(&self) -> Seq<DiffEntry> {
        self.entries@
    }

    /// An empty result.
    pub fn empty() -> (r: DiffResult)
        ensures
            r.spec_entries().len() == 0,
    {
        DiffResult { entries: Vec::new(), counts: StatusCounts::zero() }
    }

    /// The entries, sorted by path.
    pub fn entries(&self) -> (e: &Vec<DiffEntry>)
        ensures
            e@ == self.spec_entries(),
            sorted_paths(entry_paths(e@)),
    {
        proof {
            use_type_invariant(self);
        }
        &self.entries
    }

    /// Updates one entry's status and adjusts the cached counts accordingly.
    pub fn update_entry_status(&mut self, idx: usize, new_status: DiffStatus)
        requires
            idx < old(self).spec_entries().len(),
        ensures
            final(self).spec_entries() == old(self).spec_entries().update(
                idx as int,
                DiffEntry { status: new_status, ..old(self).spec_entries()[idx as int] },
            ),
    {
        proof {
            use_type_invariant(&*self);
        }
        let mut whole = DiffResult::empty();
        std::mem::swap(&mut whole, self);
        proof {
            use_type_invariant(&whole);
        }
        let DiffResult { entries, counts } = whole;
        let mut entries = entries;
        let mut counts = counts;
        let ghost old_entries = entries@;
        let ghost new_entry = DiffEntry { status: new_status, ..old_entries[idx as int] };
        proof {
            lemma_counts_bounded(counts, old_entries);
        }
        let old_status = entries[idx].status.duplicate();
        proof {
            lemma_count_with_update(old_entries, idx as int, new_entry, file_kind());
            lemma_count_with_update(old_entries, idx as int, new_entry, left_only_kind());
            lemma_count_with_update(old_entries, idx as int, new_entry, right_only_kind());
            lemma_count_with_update(old_entries, idx as int, new_entry, different_kind());
            lemma_count_with_update(old_entries, idx as int, new_entry, identical_kind());
            lemma_count_with_bound(old_entries.update(idx as int, new_entry), file_kind());
            lemma_count_with_bound(old_entries.update(idx as int, new_entry), left_only_kind());
            lemma_count_with_bound(old_entries.update(idx as int, new_entry), right_only_kind());
            lemma_count_with_bound(old_entries.update(idx as int, new_entry), different_kind());
            lemma_count_with_bound(old_entries.update(idx as int, new_entry), identical_kind());
        }
        proof {
            assert(counts.agree_with(old_entries));
            assert(old_status == old_entries[idx as int].status);
            assert(new_entry.status == new_status);
            let u = old_entries.update(idx as int, new_entry);
            assert(u[idx as int] == new_entry);
            if file_kind()(new_status) {
                lemma_count_with_member(u, idx as int, file_kind());
            }
            if left_only_kind()(new_status) {
                lemma_count_with_member(u, idx as int, left_only_kind());
            }
            if right_only_kind()(new_status) {
                lemma_count_with_member(u, idx as int, right_only_kind());
            }
            if different_kind()(new_status) {
                lemma_count_with_member(u, idx as int, different_kind());
            }
            if identical_kind()(new_status) {
                lemma_count_with_member(u, idx as int, identical_kind());
            }
        }
        bump_count(&mut counts, &old_status, false);
        let ns = new_status.duplicate();
        let total_len = entries.len();
        proof {
            assert(old_entries.len() == total_len);
            assert(old_entries.update(idx as int, new_entry).len() == total_len);
        }
        bump_count(&mut counts, &ns, true);
        let mut e = entries.remove(idx);
        e.status = new_status;
        entries.insert(idx, e);
        proof {
            assert(entries@ =~= old_entries.update(idx as int, new_entry));
            assert(entry_paths(entries@) =~= entry_paths(old_entries));
        }
        *self = DiffResult { entries, counts };
    }

    /// Finds the index of the entry for `path` by binary search over the
    /// sorted entries.
    pub fn find_by_path(&self, path: &RelPath) -> (r: Option<usize>)
        ensures
            r matches Some(i) ==> i < self.spec_entries().len()
                && self.spec_entries()[i as int].relative_path@ == path@,
            r is None ==> forall|i: int|
                0 <= i < self.spec_entries().len()
                    ==> #[trigger] self.spec_entries()[i].relative_path@ != path@,
    {
        proof {
            use_type_invariant(self);
        }
        let ghost keys = entry_paths(self.entries@);
        let mut lo: usize = 0;
        let mut hi: usize = self.entries.len();
        while lo < hi
            invariant
                keys == entry_paths(self.entries@),
                sorted_paths(keys),
                keys.len() == self.entries@.len(),
                lo <= hi <= keys.len(),
                forall|j: int| 0 <= j < lo ==> path_lt(#[trigger] keys[j], path@),
                forall|j: int| hi <= j < keys.len() ==> path_lt(path@, #[trigger] keys[j]),
            decreases hi - lo,
        {
            let mid = lo + (hi - lo) / 2;
            match self.entries[mid].relative_path.compare(path) {
                Order::Equal => {
                    return Some(mid);
                },
                Order::Less => {
                    proof {
                        assert forall|j: int| 0 <= j <= mid implies path_lt(
                            #[trigger] keys[j],
                            path@,
                        ) by {
                            if j < mid {
                                lemma_path_lt_transitive(keys[j], keys[mid as int], path@);
                            }
                        }
                    }
                    lo = mid + 1;
                },
                Order::Greater => {
                    proof {
                        assert forall|j: int| mid <= j < keys.len() implies path_lt(
                            path@,
                            #[trigger] keys[j],
                        ) by {
                            if mid < j {
                                lemma_path_lt_transitive(path@, keys[mid as int], keys[j]);
                            }
                        }
                    }
                    hi = mid;
                },
            }
        }
        proof {
            assert forall|i: int| 0 <= i < self.spec_entries().len() implies #[trigger] self.spec_entries()[i].relative_path@
                != path@ by {
                assert(keys[i] == self.spec_entries()[i].relative_path@);
                if i < lo {
                    lemma_path_lt_asymmetric(keys[i], path@);
                } else {
                    lemma_path_lt_asymmetric(path@, keys[i]);
                }
            }
        }
        None
    }

    pub fn count_left_only(&self) -> (n: usize)
        ensures
            n == count_with(self.spec_entries(), left_only_kind()),
    {
        proof {
            use_type_invariant(self);
        }
        self.counts.left_only
    }

    pub fn count_right_only(&self) -> (n: usize)
        ensures
            n == count_with(self.spec_entries(), right_only_kind()),
    {
        proof {
            use_type_invariant(self);
        }
        self.counts.right_only
    }

    pub fn count_different(&self) -> (n: usize)
        ensures
            n == count_with(self.spec_entries(), different_kind()),
    {
        proof {
            use_type_invariant(self);
        }
        self.counts.different
    }

    pub fn count_identical(&self) -> (n: usize)
        ensures
            n == count_with(self.spec_entries(), identical_kind()),
    {
        proof {
            use_type_invariant(self);
        }
        self.counts.identical
    }

    /// Number of entries that are not directories present on both sides.
    pub fn total(&self) -> (n: usize)
        ensures
            n == count_with(self.spec_entries(), file_kind()),
    {
        proof {
            use_type_invariant(self);
        }
        self.counts.file_count
    }

    /// The entries whose status satisfies `f` (one of the `*_kind` predicates,
    /// matched by `keep`), in order.
    fn select<'a>(&'a self, keep: &DiffStatus, f: Ghost<spec_fn(DiffStatus) -> bool>) -> (r: Vec<&'a DiffEntry>)
        requires
            forall|s: DiffStatus| #[trigger] f@(s) == same_kind(s, *keep),
        ensures
            r@.map_values(|e: &DiffEntry| *e) == select_with(self.spec_entries(), f@),
    {
        let mut out: Vec<&DiffEntry> = Vec::new();
        let mut i: usize = 0;
        while i < self.entries.len()
            invariant
                i <= self.entries@.len(),
                forall|s: DiffStatus| #[trigger] f@(s) == same_kind(s, *keep),
                out@.map_values(|e: &DiffEntry| *e) == select_with(
                    self.entries@.take(i as int),
                    f@,
                ),
            decreases self.entries@.len() - i,
        {
            let ghost before = out@;
            proof {
                assert(self.entries@.take(i + 1).drop_last() =~= self.entries@.take(i as int));
                assert(self.entries@.take(i + 1).last() == self.entries@[i as int]);
            }
            if self.entries[i].status.same_kind(keep) {
                out.push(&self.entries[i]);
                proof {
                    assert(out@.map_values(|e: &DiffEntry| *e) =~= before.map_values(
                        |e: &DiffEntry| *e,
                    ).push(self.entries@[i as int]));
                }
            }
            i = i + 1;
        }
        proof {
            assert(self.entries@.take(i as int) =~= self.entries@);
        }
        out
    }

    /// The paths of the entries still awaiting content comparison, in order
    /// (what phase 2 has to compare).
    pub fn pending_paths(&self) -> (r: Vec<RelPath>)
        ensures
            r@.map_values(|p: RelPath| p@) == entry_paths(select_with(self.spec_entries(), pending_kind())),
    {
        let mut out: Vec<RelPath> = Vec::new();
        let mut i: usize = 0;
        while i < self.entries.len()
            invariant
                i <= self.entries@.len(),
                out@.map_values(|p: RelPath| p@) == entry_paths(select_with(self.entries@.take(i as int), pending_kind())),
            decreases self.entries@.len() - i,
        {
            let ghost before = out@.map_values(|p: RelPath| p@);
            proof {
                assert(self.entries@.take(i + 1).drop_last() =~= self.entries@.take(i as int));
                assert(self.entries@.take(i + 1).last() == self.entries@[i as int]);
            }
            let is_pending = match &self.entries[i].status {
                DiffStatus::Pending => true,
                _ => false,
            };
            if is_pending {
                out.push(self.entries[i].relative_path.duplicate());
                proof {
                    let sel = select_with(self.entries@.take(i as int), pending_kind());
                    assert(entry_paths(sel.push(self.entries@[i as int])) =~= entry_paths(sel).push(self.entries@[i as int].relative_path@));
                    assert(out@.map_values(|p: RelPath| p@) =~= before.push(self.entries@[i as int].relative_path@));
                }
            }
            i = i + 1;
        }
        proof {
            assert(self.entries@.take(i as int) =~= self.entries@);
        }
        out
    }

    /// Entries present only on the left.
    pub fn left_only(&self) -> (r: Vec<&DiffEntry>)
        ensures
            r@.map_values(|e: &DiffEntry| *e) == select_with(self.spec_entries(), left_only_kind()),
    {
        let k = DiffStatus::LeftOnly;
        self.select(&k, Ghost(left_only_kind()))
    }

    /// Entries present only on the right.
    pub fn right_only(&self) -> (r: Vec<&DiffEntry>)
        ensures
            r@.map_values(|e: &DiffEntry| *e) == select_with(
                self.spec_entries(),
                right_only_kind(),
            ),
    {
        let k = DiffStatus::RightOnly;
        self.select(&k, Ghost(right_only_kind()))
    }

    /// Entries whose contents differ.
    pub fn different(&self) -> (r: Vec<&DiffEntry>)
        ensures
            r@.map_values(|e: &DiffEntry| *e) == select_with(self.spec_entries(), different_kind()),
    {
        let k = DiffStatus::Different;
        self.select(&k, Ghost(different_kind()))
    }

    /// Entries with identical contents.
    pub fn identical(&self) -> (r: Vec<&DiffEntry>)
        ensures
            r@.map_values(|e: &DiffEntry| *e) == select_with(self.spec_entries(), identical_kind()),
    {
        let k = DiffStatus::Identical;
        self.select(&k, Ghost(identical_kind()))
    }
}

// ---------------------------------------------------------------------------
// Structural diff (phase 1)
// ---------------------------------------------------------------------------

/// The entry for `p` in `m`, if any.
pub open spec fn lookup(m: Map<Seq<Seq<char>>, Entry>, p: Seq<Seq<char>>) -> Option<Entry> {
    if m.dom().contains(p) {
        Some(m[p])
    } else {
        None
    }
}

/// Status of a path from what each side holds for it: one-sided entries are
/// `LeftOnly`/`RightOnly`; a file on one side and a directory on the other
/// is a `TypeConflict`; directories on both sides are `DirectoryPresent`;
/// files on both sides are `Pending` until their contents are compared.
pub open spec fn structural_status(l: Option<Entry>, r: Option<Entry>) -> DiffStatus {
    match (l, r) {
        (Some(_), None) => DiffStatus::LeftOnly,
        (None, Some(_)) => DiffStatus::RightOnly,
        (Some(a), Some(b)) => if a.is_dir != b.is_dir {
            DiffStatus::TypeConflict
        } else if a.is_dir {
            DiffStatus::DirectoryPresent
        } else {
            DiffStatus::Pending
        },
        (None, None) => DiffStatus::Pending,
    }
}

/// The entry kind reported for a path: the left side's when it has one.
pub open spec fn structural_is_dir(l: Option<Entry>, r: Option<Entry>) -> bool {
    match l {
        Some(a) => a.is_dir,
        None => match r {
            Some(b) => b.is_dir,
            None => false,
        },
    }
}

/// `entries` is the structural diff of the two maps: one entry per path of
/// either side, sorted by path, each with its structural status and kind.
pub open spec fn is_structural_diff(
    left: Map<Seq<Seq<char>>, Entry>,
    right: Map<Seq<Seq<char>>, Entry>,
    entries: Seq<DiffEntry>,
) -> bool {
    &&& sorted_paths(entry_paths(entries))
    &&& forall|i: int|
        #![trigger entries[i]]
        0 <= i < entries.len() ==> {
            let p = entries[i].relative_path@;
            &&& (left.dom().contains(p) || right.dom().contains(p))
            &&& entries[i].status == structural_status(lookup(left, p), lookup(right, p))
            &&& entries[i].is_dir == structural_is_dir(lookup(left, p), lookup(right, p))
        }
    &&& forall|p: Seq<Seq<char>>|
        #![trigger left.dom().contains(p)]
        #![trigger right.dom().contains(p)]
        left.dom().contains(p) || right.dom().contains(p) ==> entry_paths(entries).contains(p)
}

/// Two strictly sorted sequences of paths with the same elements are equal.
proof fn lemma_sorted_same_elements(s: Seq<Seq<Seq<char>>>, t: Seq<Seq<Seq<char>>>)
    requires
        sorted_paths(s),
        sorted_paths(t),
        forall|x: Seq<Seq<char>>| s.contains(x) <==> t.contains(x),
    ensures
        s == t,
    decreases s.len(),
{
    if s.len() == 0 {
        if t.len() > 0 {
            assert(t.contains(t[0]));
        }
        assert(s =~= t);
    } else if t.len() == 0 {
        assert(s.contains(s[0]));
    } else {
        if s[0] != t[0] {
            assert(s.contains(s[0]));
            assert(t.contains(t[0]));
            let j = choose|j: int| 0 <= j < t.len() && t[j] == s[0];
            let i = choose|i: int| 0 <= i < s.len() && s[i] == t[0];
            assert(path_lt(t[0], t[j]));
            assert(path_lt(s[0], s[i]));
            lemma_path_lt_asymmetric(s[0], t[0]);
        }
        let s2 = s.drop_first();
        let t2 = t.drop_first();
        assert forall|x: Seq<Seq<char>>| s2.contains(x) <==> t2.contains(x) by {
            if s2.contains(x) {
                let i = choose|i: int| 0 <= i < s2.len() && s2[i] == x;
                assert(s[i + 1] == x);
                assert(path_lt(s[0], s[i + 1]));
                lemma_path_lt_irreflexive(x);
                assert(s.contains(x));
                let j = choose|j: int| 0 <= j < t.len() && t[j] == x;
                assert(j != 0);
                assert(t2[j - 1] == x);
            }
            if t2.contains(x) {
                let j = choose|j: int| 0 <= j < t2.len() && t2[j] == x;
                assert(t[j + 1] == x);
                assert(path_lt(t[0], t[j + 1]));
                lemma_path_lt_irreflexive(x);
                assert(t.contains(x));
                let i = choose|i: int| 0 <= i < s.len() && s[i] == x;
                assert(i != 0);
                assert(s2[i - 1] == x);
            }
        }
        assert(sorted_paths(s2)) by {
            assert forall|i: int, j: int| 0 <= i < j < s2.len() implies path_lt(#[trigger] s2[i], #[trigger] s2[j]) by {
                assert(s2[i] == s[i + 1] && s2[j] == s[j + 1]);
            }
        }
        assert(sorted_paths(t2)) by {
            assert forall|i: int, j: int| 0 <= i < j < t2.len() implies path_lt(#[trigger] t2[i], #[trigger] t2[j]) by {
                assert(t2[i] == t[i + 1] && t2[j] == t[j + 1]);
            }
        }
        lemma_sorted_same_elements(s2, t2);
        assert(s =~= seq![s[0]] + s2);
        assert(t =~= seq![t[0]] + t2);
    }
}

/// The paths of a structural diff are exactly the paths of the two trees.
proof fn lemma_structural_paths(
    left: Map<Seq<Seq<char>>, Entry>,
    right: Map<Seq<Seq<char>>, Entry>,
    entries: Seq<DiffEntry>,
)
    requires
        is_structural_diff(left, right, entries),
    ensures
        forall|x: Seq<Seq<char>>|
            entry_paths(entries).contains(x) <==> (left.dom().contains(x) || right.dom().contains(x)),
{
    assert forall|x: Seq<Seq<char>>|
        entry_paths(entries).contains(x) implies (left.dom().contains(x) || right.dom().contains(x)) by {
        let i = choose|i: int| 0 <= i < entry_paths(entries).len() && entry_paths(entries)[i] == x;
        assert(entries[i].relative_path@ == x);
    }
}

/// The structural diff is determined by the two trees: any two results
/// that describe the same trees list the same paths in the same order, with
/// the same statuses and kinds.
pub proof fn law_structural_diff_is_unique(
    left: Map<Seq<Seq<char>>, Entry>,
    right: Map<Seq<Seq<char>>, Entry>,
    a: Seq<DiffEntry>,
    b: Seq<DiffEntry>,
)
    requires
        is_structural_diff(left, right, a),
        is_structural_diff(left, right, b),
    ensures
        entry_paths(a) == entry_paths(b),
        a.len() == b.len(),
        forall|i: int| 0 <= i < a.len() ==> #[trigger] a[i].status == b[i].status && a[i].is_dir == b[i].is_dir,
{
    lemma_structural_paths(left, right, a);
    lemma_structural_paths(left, right, b);
    lemma_sorted_same_elements(entry_paths(a), entry_paths(b));
    assert forall|i: int| 0 <= i < a.len() implies #[trigger] a[i].status == b[i].status && a[i].is_dir == b[i].is_dir by {
        assert(entry_paths(a)[i] == entry_paths(b)[i]);
        assert(a[i].relative_path@ == b[i].relative_path@);
    }
}

/// `x` is the path of a pending entry.
pub open spec fn is_pending_path(entries: Seq<DiffEntry>, x: Seq<Seq<char>>) -> bool {
    exists|i: int| 0 <= i < entries.len() && entries[i].relative_path@ == x && entries[i].status is Pending
}

/// The paths handed to the content comparison are exactly the paths of the
/// pending entries: each is the path of a pending entry, and each pending
/// entry's path is among them.
pub proof fn law_pending_paths_are_pending_entries(entries: Seq<DiffEntry>)
    ensures
        forall|k: int|
            0 <= k < entry_paths(select_with(entries, pending_kind())).len() ==> is_pending_path(
                entries,
                #[trigger] entry_paths(select_with(entries, pending_kind()))[k],
            ),
        forall|i: int|
            0 <= i < entries.len() && #[trigger] entries[i].status is Pending ==> entry_paths(
                select_with(entries, pending_kind()),
            ).contains(entries[i].relative_path@),
    decreases entries.len(),
{
    if entries.len() > 0 {
        let init = entries.drop_last();
        law_pending_paths_are_pending_entries(init);
        let sel0 = select_with(init, pending_kind());
        let sel = select_with(entries, pending_kind());
        let p = entry_paths(sel);
        let p0 = entry_paths(sel0);
        if entries.last().status is Pending {
            assert(sel == sel0.push(entries.last()));
            assert(p =~= p0.push(entries.last().relative_path@));
        } else {
            assert(sel == sel0);
        }
        assert forall|k: int| 0 <= k < p.len() implies is_pending_path(entries, #[trigger] p[k]) by {
            if k < p0.len() {
                assert(p[k] == p0[k]);
                assert(is_pending_path(init, p0[k]));
                let i = choose|i: int| 0 <= i < init.len() && init[i].relative_path@ == p0[k] && init[i].status is Pending;
                assert(entries[i] == init[i]);
            } else {
                assert(entries[entries.len() - 1] == entries.last());
            }
        }
        assert forall|i: int| 0 <= i < entries.len() && #[trigger] entries[i].status is Pending implies p.contains(
            entries[i].relative_path@,
        ) by {
            if i < entries.len() - 1 {
                assert(entries[i] == init[i]);
                assert(init[i].status is Pending);
                assert(p0.contains(init[i].relative_path@));
                let k = choose|k: int| 0 <= k < p0.len() && p0[k] == init[i].relative_path@;
                assert(p[k] == p0[k]);
            } else {
                assert(p[p.len() - 1] == entries.last().relative_path@);
            }
        }
    }
}

/// No entry counts for `f` when none of their statuses satisfies it.
proof fn lemma_count_with_none(entries: Seq<DiffEntry>, f: spec_fn(DiffStatus) -> bool)
    requires
        forall|i: int| 0 <= i < entries.len() ==> !f(#[trigger] entries[i].status),
    ensures
        count_with(entries, f) == 0,
    decreases entries.len(),
{
    if entries.len() > 0 {
        let init = entries.drop_last();
        assert forall|i: int| 0 <= i < init.len() implies !f(#[trigger] init[i].status) by {
            assert(init[i] == entries[i]);
        }
        lemma_count_with_none(init, f);
        assert(entries.last() == entries[entries.len() - 1]);
    }
}

/// Before any content is compared, nothing is different, identical or an
/// error: a structural diff counts none of them.
pub proof fn law_structural_diff_has_no_compared_statuses(
    left: Map<Seq<Seq<char>>, Entry>,
    right: Map<Seq<Seq<char>>, Entry>,
    entries: Seq<DiffEntry>,
)
    requires
        is_structural_diff(left, right, entries),
    ensures
        count_with(entries, different_kind()) == 0,
        count_with(entries, identical_kind()) == 0,
        count_with(entries, error_kind()) == 0,
{
    assert forall|i: int| 0 <= i < entries.len() implies {
        &&& !different_kind()(#[trigger] entries[i].status)
        &&& !identical_kind()(entries[i].status)
        &&& !error_kind()(entries[i].status)
    } by {
        let p = entries[i].relative_path@;
        assert(entries[i].status == structural_status(lookup(left, p), lookup(right, p)));
    }
    lemma_count_with_none(entries, different_kind());
    lemma_count_with_none(entries, identical_kind());
    lemma_count_with_none(entries, error_kind());
}

/// A status as seen with the two sides swapped.
pub open spec fn mirrored(s: DiffStatus) -> DiffStatus {
    match s {
        DiffStatus::LeftOnly => DiffStatus::RightOnly,
        DiffStatus::RightOnly => DiffStatus::LeftOnly,
        _ => s,
    }
}

/// Swapping the two trees swaps left-only and right-only and leaves every
/// other status, and the order of the paths, as it was.
pub proof fn law_structural_diff_mirrors(
    left: Map<Seq<Seq<char>>, Entry>,
    right: Map<Seq<Seq<char>>, Entry>,
    a: Seq<DiffEntry>,
    b: Seq<DiffEntry>,
)
    requires
        is_structural_diff(left, right, a),
        is_structural_diff(right, left, b),
    ensures
        entry_paths(a) == entry_paths(b),
        a.len() == b.len(),
        forall|i: int| 0 <= i < a.len() ==> #[trigger] b[i].status == mirrored(a[i].status),
{
    lemma_structural_paths(left, right, a);
    lemma_structural_paths(right, left, b);
    lemma_sorted_same_elements(entry_paths(a), entry_paths(b));
    assert forall|i: int| 0 <= i < a.len() implies #[trigger] b[i].status == mirrored(a[i].status) by {
        assert(entry_paths(a)[i] == entry_paths(b)[i]);
        assert(a[i].relative_path@ == b[i].relative_path@);
    }
}

pub proof fn lemma_contains_push<T>(s: Seq<T>, x: T, p: T)
    ensures
        s.push(x).contains(p) == (s.contains(p) || p == x),
{
    if s.push(x).contains(p) {
        let a = choose|a: int| 0 <= a < s.push(x).len() && s.push(x)[a] == p;
        if a < s.len() {
            assert(s[a] == p);
        }
    }
    if s.contains(p) {
        let a = choose|a: int| 0 <= a < s.len() && s[a] == p;
        assert(s.push(x)[a] == p);
    }
    if p == x {
        assert(s.push(x)[s.len() as int] == p);
    }
}

pub proof fn lemma_take_succ_contains<T>(s: Seq<T>, i: int, p: T)
    requires
        0 <= i < s.len(),
    ensures
        s.take(i + 1).contains(p) == (s.take(i).contains(p) || p == s[i]),
{
    assert(s.take(i + 1) =~= s.take(i).push(s[i]));
    lemma_contains_push(s.take(i), s[i], p);
}

/// State of the merge of two sorted key sequences after consuming the first
/// `i` left keys and `j` right keys into `ps`.
pub open spec fn merge_inv(
    lk: Seq<Seq<Seq<char>>>,
    rk: Seq<Seq<Seq<char>>>,
    i: int,
    j: int,
    ps: Seq<Seq<Seq<char>>>,
) -> bool {
    &&& 0 <= i <= lk.len()
    &&& 0 <= j <= rk.len()
    &&& sorted_paths(lk)
    &&& sorted_paths(rk)
    &&& sorted_paths(ps)
    &&& forall|p: Seq<Seq<char>>| #[trigger]
        ps.contains(p) == (lk.take(i).contains(p) || rk.take(j).contains(p))
    &&& forall|a: int|
        #![trigger ps[a]]
        0 <= a < ps.len() ==> (i < lk.len() ==> path_lt(ps[a], lk[i])) && (j < rk.len()
            ==> path_lt(ps[a], rk[j]))
    &&& forall|y: int| #![trigger rk[y]] 0 <= y < j ==> (i < lk.len() ==> path_lt(rk[y], lk[i]))
    &&& forall|x: int| #![trigger lk[x]] 0 <= x < i ==> (j < rk.len() ==> path_lt(lk[x], rk[j]))
}

proof fn lemma_merge_start(lk: Seq<Seq<Seq<char>>>, rk: Seq<Seq<Seq<char>>>)
    requires
        sorted_paths(lk),
        sorted_paths(rk),
    ensures
        merge_inv(lk, rk, 0, 0, Seq::empty()),
{
    assert forall|p: Seq<Seq<char>>| #[trigger]
        Seq::<Seq<Seq<char>>>::empty().contains(p) == (lk.take(0).contains(p) || rk.take(
            0,
        ).contains(p)) by {
        assert(lk.take(0) =~= Seq::<Seq<Seq<char>>>::empty());
        assert(rk.take(0) =~= Seq::<Seq<Seq<char>>>::empty());
    }
}

/// Taking the left key `lk[i]`, which comes before every remaining right key.
proof fn lemma_merge_left(
    lk: Seq<Seq<Seq<char>>>,
    rk: Seq<Seq<Seq<char>>>,
    i: int,
    j: int,
    ps: Seq<Seq<Seq<char>>>,
)
    requires
        merge_inv(lk, rk, i, j, ps),
        i < lk.len(),
        j == rk.len() || path_lt(lk[i], rk[j]),
    ensures
        merge_inv(lk, rk, i + 1, j, ps.push(lk[i])),
        !rk.contains(lk[i]),
{
    let k = lk[i];
    let ps2 = ps.push(k);
    assert forall|a: int, b: int| 0 <= a < b < ps2.len() implies path_lt(
        #[trigger] ps2[a],
        #[trigger] ps2[b],
    ) by {
        if b == ps.len() {
            assert(ps[a] == ps2[a]);
        } else {
            assert(ps[a] == ps2[a] && ps[b] == ps2[b]);
        }
    }
    assert forall|p: Seq<Seq<char>>| #[trigger]
        ps2.contains(p) == (lk.take(i + 1).contains(p) || rk.take(j).contains(p)) by {
        lemma_contains_push(ps, k, p);
        lemma_take_succ_contains(lk, i, p);
    }
    assert forall|a: int| #![trigger ps2[a]] 0 <= a < ps2.len() implies (i + 1 < lk.len()
        ==> path_lt(ps2[a], lk[i + 1])) && (j < rk.len() ==> path_lt(ps2[a], rk[j])) by {
        if i + 1 < lk.len() {
            assert(path_lt(lk[i], lk[i + 1]));
            if a < ps.len() {
                assert(ps2[a] == ps[a]);
                lemma_path_lt_transitive(ps[a], lk[i], lk[i + 1]);
            }
        }
        if a < ps.len() {
            assert(ps2[a] == ps[a]);
        }
    }
    assert forall|y: int| #![trigger rk[y]] 0 <= y < j implies (i + 1 < lk.len() ==> path_lt(
        rk[y],
        lk[i + 1],
    )) by {
        if i + 1 < lk.len() {
            assert(path_lt(lk[i], lk[i + 1]));
            lemma_path_lt_transitive(rk[y], lk[i], lk[i + 1]);
        }
    }
    if rk.contains(k) {
        let y = choose|y: int| 0 <= y < rk.len() && rk[y] == k;
        lemma_path_lt_irreflexive(k);
        if y < j {
            assert(path_lt(rk[y], lk[i]));
        } else if y > j {
            assert(path_lt(rk[j], rk[y]));
            lemma_path_lt_transitive(k, rk[j], rk[y]);
        }
    }
}

/// Taking the right key `rk[j]`, which comes before every remaining left key.
proof fn lemma_merge_right(
    lk: Seq<Seq<Seq<char>>>,
    rk: Seq<Seq<Seq<char>>>,
    i: int,
    j: int,
    ps: Seq<Seq<Seq<char>>>,
)
    requires
        merge_inv(lk, rk, i, j, ps),
        j < rk.len(),
        i == lk.len() || path_lt(rk[j], lk[i]),
    ensures
        merge_inv(lk, rk, i, j + 1, ps.push(rk[j])),
        !lk.contains(rk[j]),
{
    let k = rk[j];
    let ps2 = ps.push(k);
    assert forall|a: int, b: int| 0 <= a < b < ps2.len() implies path_lt(
        #[trigger] ps2[a],
        #[trigger] ps2[b],
    ) by {
        if b == ps.len() {
            assert(ps[a] == ps2[a]);
        } else {
            assert(ps[a] == ps2[a] && ps[b] == ps2[b]);
        }
    }
    assert forall|p: Seq<Seq<char>>| #[trigger]
        ps2.contains(p) == (lk.take(i).contains(p) || rk.take(j + 1).contains(p)) by {
        lemma_contains_push(ps, k, p);
        lemma_take_succ_contains(rk, j, p);
    }
    assert forall|a: int| #![trigger ps2[a]] 0 <= a < ps2.len() implies (i < lk.len() ==> path_lt(
        ps2[a],
        lk[i],
    )) && (j + 1 < rk.len() ==> path_lt(ps2[a], rk[j + 1])) by {
        if j + 1 < rk.len() {
            assert(path_lt(rk[j], rk[j + 1]));
            if a < ps.len() {
                assert(ps2[a] == ps[a]);
                lemma_path_lt_transitive(ps[a], rk[j], rk[j + 1]);
            }
        }
        if a < ps.len() {
            assert(ps2[a] == ps[a]);
        }
    }
    assert forall|x: int| #![trigger lk[x]] 0 <= x < i implies (j + 1 < rk.len() ==> path_lt(
        lk[x],
        rk[j + 1],
    )) by {
        if j + 1 < rk.len() {
            assert(path_lt(rk[j], rk[j + 1]));
            lemma_path_lt_transitive(lk[x], rk[j], rk[j + 1]);
        }
    }
    if lk.contains(k) {
        let x = choose|x: int| 0 <= x < lk.len() && lk[x] == k;
        lemma_path_lt_irreflexive(k);
        if x < i {
            assert(path_lt(lk[x], rk[j]));
        } else if x > i {
            assert(path_lt(lk[i], lk[x]));
            lemma_path_lt_transitive(k, lk[i], lk[x]);
        }
    }
}

/// Taking a key present on both sides.
proof fn lemma_merge_both(
    lk: Seq<Seq<Seq<char>>>,
    rk: Seq<Seq<Seq<char>>>,
    i: int,
    j: int,
    ps: Seq<Seq<Seq<char>>>,
)
    requires
        merge_inv(lk, rk, i, j, ps),
        i < lk.len(),
        j < rk.len(),
        lk[i] == rk[j],
    ensures
        merge_inv(lk, rk, i + 1, j + 1, ps.push(lk[i])),
{
    let k = lk[i];
    let ps2 = ps.push(k);
    assert forall|a: int, b: int| 0 <= a < b < ps2.len() implies path_lt(
        #[trigger] ps2[a],
        #[trigger] ps2[b],
    ) by {
        if b == ps.len() {
            assert(ps[a] == ps2[a]);
        } else {
            assert(ps[a] == ps2[a] && ps[b] == ps2[b]);
        }
    }
    assert forall|p: Seq<Seq<char>>| #[trigger]
        ps2.contains(p) == (lk.take(i + 1).contains(p) || rk.take(j + 1).contains(p)) by {
        lemma_contains_push(ps, k, p);
        lemma_take_succ_contains(lk, i, p);
        lemma_take_succ_contains(rk, j, p);
    }
    assert forall|a: int| #![trigger ps2[a]] 0 <= a < ps2.len() implies (i + 1 < lk.len()
        ==> path_lt(ps2[a], lk[i + 1])) && (j + 1 < rk.len() ==> path_lt(ps2[a], rk[j + 1])) by {
        if a < ps.len() {
            assert(ps2[a] == ps[a]);
        }
        if i + 1 < lk.len() {
            assert(path_lt(lk[i], lk[i + 1]));
            if a < ps.len() {
                lemma_path_lt_transitive(ps[a], lk[i], lk[i + 1]);
            }
        }
        if j + 1 < rk.len() {
            assert(path_lt(rk[j], rk[j + 1]));
            if a < ps.len() {
                lemma_path_lt_transitive(ps[a], rk[j], rk[j + 1]);
            }
        }
    }
    assert forall|y: int| #![trigger rk[y]] 0 <= y < j + 1 implies (i + 1 < lk.len() ==> path_lt(
        rk[y],
        lk[i + 1],
    )) by {
        if i + 1 < lk.len() {
            assert(path_lt(lk[i], lk[i + 1]));
            if y < j {
                lemma_path_lt_transitive(rk[y], lk[i], lk[i + 1]);
            }
        }
    }
    assert forall|x: int| #![trigger lk[x]] 0 <= x < i + 1 implies (j + 1 < rk.len() ==> path_lt(
        lk[x],
        rk[j + 1],
    )) by {
        if j + 1 < rk.len() {
            assert(path_lt(rk[j], rk[j + 1]));
            if x < i {
                lemma_path_lt_transitive(lk[x], rk[j], rk[j + 1]);
            }
        }
    }
}

/// Appends `entry` and counts it.
fn push_counted(out: &mut Vec<DiffEntry>, counts: &mut StatusCounts, entry: DiffEntry)
    requires
        old(counts).agree_with(old(out)@),
        old(out)@.len() < usize::MAX,
    ensures
        final(out)@ == old(out)@.push(entry),
        final(counts).agree_with(final(out)@),
{
    proof {
        lemma_counts_bounded(*old(counts), old(out)@);
        lemma_count_with_push(old(out)@, entry, file_kind());
        lemma_count_with_push(old(out)@, entry, left_only_kind());
        lemma_count_with_push(old(out)@, entry, right_only_kind());
        lemma_count_with_push(old(out)@, entry, different_kind());
        lemma_count_with_push(old(out)@, entry, identical_kind());
    }
    let st = entry.status.duplicate();
    bump_count(counts, &st, true);
    out.push(entry);
}

/// Structural diff (phase 1) built by merging the two sorted key sequences.
fn merge_structure(left: &EntryMap, right: &EntryMap) -> (r: DiffResult)
    requires
        left.keys().len() + right.keys().len() <= usize::MAX,
    ensures
        is_structural_diff(left@, right@, r.spec_entries()),
{
    let ln = left.len();
    let rn = right.len();
    let ghost lk = left.keys();
    let ghost rk = right.keys();
    proof {
        lemma_merge_start(lk, rk);
        assert(entry_paths(Seq::<DiffEntry>::empty()) =~= Seq::<Seq<Seq<char>>>::empty());
    }
    let mut out: Vec<DiffEntry> = Vec::new();
    let mut counts = StatusCounts::zero();
    let mut i: usize = 0;
    let mut j: usize = 0;
    while i < ln || j < rn
        invariant
            ln == lk.len(),
            rn == rk.len(),
            lk == left.keys(),
            rk == right.keys(),
            ln + rn <= usize::MAX,
            left.well_formed(),
            right.well_formed(),
            merge_inv(lk, rk, i as int, j as int, entry_paths(out@)),
            out@.len() <= i + j,
            counts.agree_with(out@),
            forall|a: int|
                #![trigger out@[a]]
                0 <= a < out@.len() ==> {
                    let p = out@[a].relative_path@;
                    &&& (left@.dom().contains(p) || right@.dom().contains(p))
                    &&& out@[a].status == structural_status(lookup(left@, p), lookup(right@, p))
                    &&& out@[a].is_dir == structural_is_dir(lookup(left@, p), lookup(right@, p))
                },
        decreases (ln - i) + (rn - j),
    {
        proof {
            lemma_well_formed_facts(left);
            lemma_well_formed_facts(right);
        }
        let ghost ps = entry_paths(out@);
        let ord = if i >= ln {
            Order::Greater
        } else if j >= rn {
            Order::Less
        } else {
            left.key_at(i).compare(right.key_at(j))
        };
        match ord {
            Order::Less => {
                let e = left.entry_at(i);
                let entry = DiffEntry {
                    relative_path: left.key_at(i).duplicate(),
                    status: DiffStatus::LeftOnly,
                    is_dir: e.is_dir,
                };
                proof {
                    lemma_merge_left(lk, rk, i as int, j as int, ps);
                    assert(!right@.dom().contains(lk[i as int]));
                    assert(left@.dom().contains(lk[i as int]));
                }
                push_counted(&mut out, &mut counts, entry);
                proof {
                    assert(entry_paths(out@) =~= ps.push(lk[i as int]));
                }
                i = i + 1;
            },
            Order::Greater => {
                let e = right.entry_at(j);
                let entry = DiffEntry {
                    relative_path: right.key_at(j).duplicate(),
                    status: DiffStatus::RightOnly,
                    is_dir: e.is_dir,
                };
                proof {
                    lemma_merge_right(lk, rk, i as int, j as int, ps);
                    assert(!left@.dom().contains(rk[j as int]));
                    assert(right@.dom().contains(rk[j as int]));
                }
                push_counted(&mut out, &mut counts, entry);
                proof {
                    assert(entry_paths(out@) =~= ps.push(rk[j as int]));
                }
                j = j + 1;
            },
            Order::Equal => {
                let l = left.entry_at(i);
                let r = right.entry_at(j);
                let status = if l.is_dir != r.is_dir {
                    DiffStatus::TypeConflict
                } else if l.is_dir {
                    DiffStatus::DirectoryPresent
                } else {
                    DiffStatus::Pending
                };
                let entry = DiffEntry {
                    relative_path: left.key_at(i).duplicate(),
                    status,
                    is_dir: l.is_dir,
                };
                proof {
                    lemma_merge_both(lk, rk, i as int, j as int, ps);
                    assert(left@.dom().contains(lk[i as int]));
                    assert(right@.dom().contains(rk[j as int]));
                }
                push_counted(&mut out, &mut counts, entry);
                proof {
                    assert(entry_paths(out@) =~= ps.push(lk[i as int]));
                }
                i = i + 1;
                j = j + 1;
            },
        }
    }
    proof {
        lemma_well_formed_facts(left);
        lemma_well_formed_facts(right);
        assert(lk.take(ln as int) =~= lk);
        assert(rk.take(rn as int) =~= rk);
        let ps = entry_paths(out@);
        assert forall|p: Seq<Seq<char>>|
            #![trigger left@.dom().contains(p)]
            #![trigger right@.dom().contains(p)]
            left@.dom().contains(p) || right@.dom().contains(p) implies ps.contains(p) by {
            if left@.dom().contains(p) {
                assert(lk.take(ln as int).contains(p));
            } else {
                assert(rk.take(rn as int).contains(p));
            }
        }
    }
    DiffResult { entries: out, counts }
}

/// The status a comparison outcome gives a file pair: a comparator failure
/// becomes `Error` with its message.
pub open spec fn outcome_status(outcome: Result<CompareResult, String>) -> DiffStatus {
    match outcome {
        Ok(CompareResult::Identical) => DiffStatus::Identical,
        Ok(CompareResult::Different) => DiffStatus::Different,
        Err(msg) => DiffStatus::Error(msg),
    }
}

/// Folds the outcome of comparing one file pair into its status. The single
/// place where a comparison outcome is mapped to a `DiffStatus`.
pub fn compare_entry(outcome: Result<CompareResult, String>) -> (s: DiffStatus)
    ensures
        s == outcome_status(outcome),
{
    match outcome {
        Ok(CompareResult::Identical) => DiffStatus::Identical,
        Ok(CompareResult::Different) => DiffStatus::Different,
        Err(msg) => DiffStatus::Error(msg),
    }
}

/// Diff engine: builds the structural diff (phase 1) and offers a sequential
/// full comparison (phase 2) that hands each file pair to a caller-supplied
/// function running the configured comparator.
pub struct DiffEngine<'a> {
    pub comparator: &'a Comparator,
}

/// `entries` agrees with the structural diff of the two maps in paths and
/// kinds, every entry whose structural status is `Pending` carries the status
/// of an outcome that `run` may return for its path, and every other entry
/// keeps its structural status.
pub open spec fn is_full_diff<F: Fn(&Comparator, &RelPath) -> Result<CompareResult, String>>(
    left: Map<Seq<Seq<char>>, Entry>,
    right: Map<Seq<Seq<char>>, Entry>,
    comparator: Comparator,
    run: F,
    entries: Seq<DiffEntry>,
) -> bool {
    &&& sorted_paths(entry_paths(entries))
    &&& forall|i: int|
        #![trigger entries[i]]
        0 <= i < entries.len() ==> {
            let p = entries[i].relative_path@;
            let st = structural_status(lookup(left, p), lookup(right, p));
            &&& (left.dom().contains(p) || right.dom().contains(p))
            &&& entries[i].is_dir == structural_is_dir(lookup(left, p), lookup(right, p))
            &&& (st is Pending ==> exists|q: RelPath, o: Result<CompareResult, String>|
                q@ == p && call_ensures(run, (&comparator, &q), o) && entries[i].status
                    == outcome_status(o))
            &&& (!(st is Pending) ==> entries[i].status == st)
        }
    &&& forall|p: Seq<Seq<char>>|
        #![trigger left.dom().contains(p)]
        #![trigger right.dom().contains(p)]
        left.dom().contains(p) || right.dom().contains(p) ==> entry_paths(entries).contains(p)
}

/// The full comparison agrees entry by entry with the structural diff of
/// the same trees: the same paths in the same order and the same kinds;
/// every entry that was not pending keeps its structural status, and every
/// pending one takes the status of a comparison outcome for its path, so no
/// entry stays pending.
pub proof fn law_full_diff_refines_structure<F: Fn(&Comparator, &RelPath) -> Result<CompareResult, String>>(
    left: Map<Seq<Seq<char>>, Entry>,
    right: Map<Seq<Seq<char>>, Entry>,
    comparator: Comparator,
    run: F,
    s: Seq<DiffEntry>,
    e: Seq<DiffEntry>,
)
    requires
        is_structural_diff(left, right, s),
        is_full_diff(left, right, comparator, run, e),
    ensures
        entry_paths(e) == entry_paths(s),
        e.len() == s.len(),
        forall|i: int|
            0 <= i < s.len() ==> {
                &&& #[trigger] e[i].is_dir == s[i].is_dir
                &&& !(s[i].status is Pending) ==> e[i].status == s[i].status
                &&& s[i].status is Pending ==> !(e[i].status is Pending) && exists|
                    q: RelPath,
                    o: Result<CompareResult, String>,
                |
                    q@ == s[i].relative_path@ && call_ensures(run, (&comparator, &q), o) && e[i].status
                        == outcome_status(o)
            },
{
    lemma_structural_paths(left, right, s);
    assert forall|x: Seq<Seq<char>>|
        entry_paths(e).contains(x) <==> (left.dom().contains(x) || right.dom().contains(x)) by {
        if entry_paths(e).contains(x) {
            let i = choose|i: int| 0 <= i < entry_paths(e).len() && entry_paths(e)[i] == x;
            assert(e[i].relative_path@ == x);
        }
    }
    lemma_sorted_same_elements(entry_paths(e), entry_paths(s));
    assert forall|i: int| 0 <= i < s.len() implies {
        &&& #[trigger] e[i].is_dir == s[i].is_dir
        &&& !(s[i].status is Pending) ==> e[i].status == s[i].status
        &&& s[i].status is Pending ==> !(e[i].status is Pending) && exists|
            q: RelPath,
            o: Result<CompareResult, String>,
        |
            q@ == s[i].relative_path@ && call_ensures(run, (&comparator, &q), o) && e[i].status
                == outcome_status(o)
    } by {
        assert(entry_paths(e)[i] == entry_paths(s)[i]);
        assert(e[i].relative_path@ == s[i].relative_path@);
    }
}

impl<'a> DiffEngine<'a> {
    pub fn new(comparator: &'a Comparator) -> (e: DiffEngine<'a>)
        ensures
            e.comparator == comparator,
    {
        DiffEngine { comparator }
    }

    /// Phase 1: the diff structure, without reading file contents. Files
    /// present on both sides get status `Pending`.
    pub fn diff_structure(left: &EntryMap, right: &EntryMap) -> (r: DiffResult)
        requires
            left.keys().len() + right.keys().len() <= usize::MAX,
        ensures
            is_structural_diff(left@, right@, r.spec_entries()),
    {
        merge_structure(left, right)
    }

    /// Full sequential comparison (phase 1, then phase 2 for every `Pending`
    /// entry): `run` compares the file pair at a relative path with the
    /// engine's comparator and reports the outcome.
    pub fn diff<F>(&self, left: &EntryMap, right: &EntryMap, run: F) -> (r: DiffResult) where
        F: Fn(&Comparator, &RelPath) -> Result<CompareResult, String>,
        requires
            left.keys().len() + right.keys().len() <= usize::MAX,
            forall|c: &Comparator, p: &RelPath| #[trigger] run.requires((c, p)),
        ensures
            is_full_diff(left@, right@, *self.comparator, run, r.spec_entries()),
    {
        let mut result = merge_structure(left, right);
        let ghost s = result.spec_entries();
        let n = result.entries().len();
        let mut idx: usize = 0;
        while idx < n
            invariant
                n == s.len(),
                idx <= n,
                is_structural_diff(left@, right@, s),
                forall|c: &Comparator, p: &RelPath| #[trigger] run.requires((c, p)),
                result.spec_entries().len() == n,
                forall|k: int|
                    #![trigger result.spec_entries()[k]]
                    0 <= k < n ==> result.spec_entries()[k].relative_path@ == s[k].relative_path@
                        && result.spec_entries()[k].is_dir == s[k].is_dir,
                forall|k: int|
                    #![trigger result.spec_entries()[k]]
                    idx <= k < n ==> result.spec_entries()[k].status == s[k].status,
                forall|k: int|
                    #![trigger result.spec_entries()[k]]
                    0 <= k < idx ==> {
                        &&& (s[k].status is Pending ==> exists|
                            q: RelPath,
                            o: Result<CompareResult, String>,
                        |
                            q@ == s[k].relative_path@ && call_ensures(run, (self.comparator, &q), o)
                                && result.spec_entries()[k].status == outcome_status(o))
                        &&& (!(s[k].status is Pending) ==> result.spec_entries()[k].status
                            == s[k].status)
                    },
            decreases n - idx,
        {
            let is_pending = match &result.entries()[idx].status {
                DiffStatus::Pending => true,
                _ => false,
            };
            if is_pending {
                let q = result.entries()[idx].relative_path.duplicate();
                let outcome = run(self.comparator, &q);
                let status = compare_entry(outcome);
                let ghost before = result.spec_entries();
                result.update_entry_status(idx, status);
                proof {
                    assert(result.spec_entries()[idx as int].status == outcome_status(outcome));
                    assert(forall|k: int| 0 <= k < n && k != idx ==> result.spec_entries()[k] == before[k]);
                }
            }
            idx = idx + 1;
        }
        proof {
            let e = result.spec_entries();
            assert(entry_paths(e) =~= entry_paths(s));
            assert forall|i: int| #![trigger e[i]] 0 <= i < e.len() implies {
                let p = e[i].relative_path@;
                let st = structural_status(lookup(left@, p), lookup(right@, p));
                &&& (left@.dom().contains(p) || right@.dom().contains(p))
                &&& e[i].is_dir == structural_is_dir(lookup(left@, p), lookup(right@, p))
                &&& (st is Pending ==> exists|q: RelPath, o: Result<CompareResult, String>|
                    q@ == p && call_ensures(run, (self.comparator, &q), o) && e[i].status
                        == outcome_status(o))
                &&& (!(st is Pending) ==> e[i].status == st)
            } by {
                assert(s[i].relative_path@ == e[i].relative_path@);
            }
        }
        result
    }
}

} // verus!
