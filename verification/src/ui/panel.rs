//! The row model of the unified diff view: folder headers and entry rows,
//! and cursor movement over them.
use vstd::prelude::*;
use crate::engine::diff::{DiffEntry, DiffStatus};
use crate::relpath::{join_components, parent_of, RelPath};
use crate::strings::{chars_of, string_of};
use unicode_width::{UnicodeWidthChar, UnicodeWidthStr};

verus! {

/// A row in the unified diff view.
#[derive(Debug)]
pub enum ViewRow {
    /// A section header showing the directory path.
    FolderHeader(String),
    /// Index into the entries of the diff result.
    Entry(usize),
}

/// What a row stands for: a header text or an entry index.
pub enum RowView {
    Header(Seq<char>),
    Entry(usize),
}

impl View for ViewRow {
    type V = RowView;

    open spec fn view(&self) -> RowView {
        match self {
            ViewRow::FolderHeader(s) => RowView::Header(s@),
            ViewRow::Entry(i) => RowView::Entry(*i),
        }
    }
}

/// The header text for a folder: `./` for the root, `dir/sub/` otherwise.
pub open spec fn header_text(parent: Seq<Seq<char>>) -> Seq<char> {
    if parent.len() == 0 {
        "./"@
    } else {
        join_components(parent) + seq!['/']
    }
}

/// A path of normal components: none is empty, `.`, or holds a `/`.
pub open spec fn is_normal_path(p: Seq<Seq<char>>) -> bool {
    forall|i: int|
        0 <= i < p.len() ==> (#[trigger] p[i]).len() > 0 && p[i] != seq!['.'] && forall|j: int|
            0 <= j < p[i].len() ==> p[i][j] != '/'
}

/// The components of a normal path of two or more components are joined by
/// a `/`.
proof fn lemma_join_has_slash(p: Seq<Seq<char>>)
    requires
        p.len() >= 2,
    ensures
        exists|j: int| 0 <= j < join_components(p).len() && join_components(p)[j] == '/',
{
    let x = join_components(p.drop_last());
    assert(join_components(p)[x.len() as int] == '/');
}

/// Joining the components of normal paths loses nothing: equal joins come
/// from equal paths.
proof fn lemma_join_injective(p: Seq<Seq<char>>, q: Seq<Seq<char>>)
    requires
        is_normal_path(p),
        is_normal_path(q),
        p.len() >= 1,
        q.len() >= 1,
        join_components(p) == join_components(q),
    ensures
        p == q,
    decreases p.len(),
{
    if p.len() == 1 && q.len() == 1 {
        assert(p =~= q);
    } else if p.len() == 1 {
        lemma_join_has_slash(q);
        let j = choose|j: int| 0 <= j < join_components(q).len() && join_components(q)[j] == '/';
        assert(p[0][j] == '/');
    } else if q.len() == 1 {
        lemma_join_has_slash(p);
        let j = choose|j: int| 0 <= j < join_components(p).len() && join_components(p)[j] == '/';
        assert(q[0][j] == '/');
    } else {
        let pi = p.drop_last();
        let qi = q.drop_last();
        let a = p.last();
        let b = q.last();
        let x = join_components(pi);
        let y = join_components(qi);
        let jp = join_components(p);
        assert(jp == x + seq!['/'] + a);
        assert(jp == y + seq!['/'] + b);
        assert(a == p[p.len() - 1] && b == q[q.len() - 1]);
        let l = jp.len();
        if a.len() < b.len() {
            let j = l - a.len() - 1;
            assert(jp[j] == '/');
            assert(jp[j] == b[j - y.len() - 1]);
        } else if b.len() < a.len() {
            let j = l - b.len() - 1;
            assert(jp[j] == '/');
            assert(jp[j] == a[j - x.len() - 1]);
        }
        assert(a.len() == b.len());
        assert(x.len() == y.len());
        assert(a =~= jp.subrange(l - a.len(), l as int));
        assert(b =~= jp.subrange(l - b.len(), l as int));
        assert(x =~= jp.subrange(0, x.len() as int));
        assert(y =~= jp.subrange(0, y.len() as int));
        assert forall|i: int| 0 <= i < pi.len() implies (#[trigger] pi[i]).len() > 0 && pi[i] != seq!['.']
            && forall|j: int| 0 <= j < pi[i].len() ==> pi[i][j] != '/' by {
            assert(pi[i] == p[i]);
        }
        assert forall|i: int| 0 <= i < qi.len() implies (#[trigger] qi[i]).len() > 0 && qi[i] != seq!['.']
            && forall|j: int| 0 <= j < qi[i].len() ==> qi[i][j] != '/' by {
            assert(qi[i] == q[i]);
        }
        lemma_join_injective(pi, qi);
        assert(p =~= pi.push(a));
        assert(q =~= qi.push(b));
    }
}

/// Folder headers name their folders: two different folders of normal
/// components never get the same header text, and only the root gets `./`.
pub proof fn law_headers_name_folders(p: Seq<Seq<char>>, q: Seq<Seq<char>>)
    requires
        is_normal_path(p),
        is_normal_path(q),
        header_text(p) == header_text(q),
    ensures
        p == q,
{
    reveal_strlit("./");
    if p.len() == 0 && q.len() == 0 {
        assert(p =~= q);
    } else if p.len() == 0 || q.len() == 0 {
        let r = if p.len() == 0 { q } else { p };
        let jr = join_components(r);
        let t = jr + seq!['/'];
        assert(t == "./"@);
        assert("./"@ =~= seq!['.', '/']);
        assert(t.len() == 2);
        assert(jr.len() == 1);
        assert(t[0] == jr[0]);
        assert(jr[0] == '.');
        if r.len() == 1 {
            assert(r[0] =~= seq!['.']);
        } else {
            lemma_join_has_slash(r);
        }
    } else {
        let jp = join_components(p);
        let jq = join_components(q);
        assert(jp =~= (jp + seq!['/']).drop_last());
        assert(jq =~= (jq + seq!['/']).drop_last());
        lemma_join_injective(p, q);
    }
}

/// The rows built from the first `n` entries, and the folder of the last
/// entry row: each visible entry (not a directory present on both sides, and
/// picked by the filter) gets an entry row, preceded by a header whenever its
/// folder differs from the previous visible entry's.
pub open spec fn build_state(entries: Seq<DiffEntry>, picks: Seq<bool>, n: int) -> (
    Seq<RowView>,
    Option<Seq<Seq<char>>>,
)
    decreases n,
{
    if n <= 0 {
        (Seq::empty(), None)
    } else {
        let (rows, cur) = build_state(entries, picks, n - 1);
        let e = entries[n - 1];
        if e.status is DirectoryPresent || !picks[n - 1] {
            (rows, cur)
        } else {
            let parent = parent_of(e.relative_path@);
            if cur != Some(parent) {
                (
                    rows.push(RowView::Header(header_text(parent))).push(
                        RowView::Entry((n - 1) as usize),
                    ),
                    Some(parent),
                )
            } else {
                (rows.push(RowView::Entry((n - 1) as usize)), cur)
            }
        }
    }
}

/// The rows built from all entries.
pub open spec fn build_rows(entries: Seq<DiffEntry>, picks: Seq<bool>) -> Seq<RowView> {
    build_state(entries, picks, entries.len() as int).0
}

pub open spec fn is_entry_row(rows: Seq<RowView>, i: int) -> bool {
    0 <= i < rows.len() && rows[i] is Entry
}

/// `r` is the first entry row after `current`, or `current` when there is
/// none.
pub open spec fn is_next_entry(rows: Seq<RowView>, current: int, r: int) -> bool {
    ||| (current < r < rows.len() && is_entry_row(rows, r) && forall|k: int|
        current < k < r ==> !#[trigger] is_entry_row(rows, k))
    ||| (r == current && forall|k: int| current < k < rows.len() ==> !#[trigger] is_entry_row(rows, k))
}

/// `r` is the last entry row before `current`, or `current` when there is
/// none.
pub open spec fn is_prev_entry(rows: Seq<RowView>, current: int, r: int) -> bool {
    ||| (0 <= r < current && is_entry_row(rows, r) && forall|k: int|
        r < k < current ==> !#[trigger] is_entry_row(rows, k))
    ||| (r == current && forall|k: int| 0 <= k < current ==> !#[trigger] is_entry_row(rows, k))
}

/// Number of entry rows strictly between `lo` and `hi`.
pub open spec fn entries_between(rows: Seq<RowView>, lo: int, hi: int) -> nat
    decreases hi - lo,
{
    if hi <= lo + 1 {
        0
    } else {
        entries_between(rows, lo, hi - 1) + (if is_entry_row(rows, hi - 1) {
            1nat
        } else {
            0nat
        })
    }
}

/// Number of entry rows in `[lo, hi)`.
pub open spec fn entries_in(rows: Seq<RowView>, lo: int, hi: int) -> nat
    decreases hi - lo,
{
    if hi <= lo {
        0
    } else {
        entries_in(rows, lo + 1, hi) + (if is_entry_row(rows, lo) {
            1nat
        } else {
            0nat
        })
    }
}

/// Moving forward by `n` entry rows from `current` gives `r`: `current`
/// itself when `n` is 0; else the `n`-th entry row after `current`, or the
/// last one after it when fewer remain, or `current` when none remains.
pub open spec fn is_nth_next(rows: Seq<RowView>, current: int, n: int, r: int) -> bool {
    if n == 0 {
        r == current
    } else {
        ||| (current < r < rows.len() && is_entry_row(rows, r) && entries_in(rows, current + 1, r + 1) == n)
        ||| (current < r < rows.len() && is_entry_row(rows, r) && entries_in(rows, current + 1, r + 1) < n
            && forall|k: int| r < k < rows.len() ==> !#[trigger] is_entry_row(rows, k))
        ||| (r == current && forall|k: int| current < k < rows.len() ==> !#[trigger] is_entry_row(rows, k))
    }
}

/// Moving back by `n` entry rows from `current` gives `r`: `current` itself
/// when `n` is 0; else the `n`-th entry row before `current`, or the first
/// entry row when fewer precede it, or `current` when none precedes it.
pub open spec fn is_nth_prev(rows: Seq<RowView>, current: int, n: int, r: int) -> bool {
    if n == 0 {
        r == current
    } else {
        ||| (0 <= r < current && is_entry_row(rows, r) && entries_in(rows, r, current) == n)
        ||| (0 <= r < current && is_entry_row(rows, r) && entries_in(rows, r, current) < n
            && forall|k: int| 0 <= k < r ==> !#[trigger] is_entry_row(rows, k))
        ||| (r == current && forall|k: int| 0 <= k < current ==> !#[trigger] is_entry_row(rows, k))
    }
}

/// The filtered, header-decorated row list of the diff view. Cursor
/// movement lands only on entry rows: every movement helper skips headers.
#[derive(Debug, Default)]
pub struct ViewRows(Vec<ViewRow>);

impl View for ViewRows {
    type V = Seq<RowView>;

    closed spec fn view(&self) -> Seq<RowView> {
        self.0@.map_values(|r: ViewRow| r@)
    }
}

/// The text of a folder header for `parent`.
pub fn header_for(parent: &RelPath) -> (s: String)
    ensures
        s@ == header_text(parent@),
{
    let mut cs = parent.display_chars();
    if parent.len() == 0 {
        cs.push('.');
        cs.push('/');
        proof {
            reveal_strlit("./");
            assert(cs@ =~= "./"@);
        }
    } else {
        cs.push('/');
    }
    string_of(cs.as_slice())
}

impl ViewRows {
    /// Builds the row list from `entries`; `matches` decides which entries
    /// are visible. Directories present on both sides are represented by
    /// folder headers and get no row of their own. `ViewRow::Entry(i)` holds
    /// the index `i` of the entry in `entries`.
    pub fn build<F>(entries: &[DiffEntry], matches: F) -> (rows: Self) where
        F: Fn(&DiffEntry) -> bool,
        requires
            forall|e: &DiffEntry| #[trigger] matches.requires((e,)),
        ensures
            exists|picks: Seq<bool>|
                {
                    &&& picks.len() == entries@.len()
                    &&& forall|i: int|
                        0 <= i < entries@.len() && !(entries@[i].status is DirectoryPresent)
                            ==> call_ensures(matches, (&entries@[i],), #[trigger] picks[i])
                    &&& rows@ == build_rows(entries@, picks)
                },
    {
        let mut rows: Vec<ViewRow> = Vec::new();
        let mut current_parent: Option<RelPath> = None;
        let ghost mut picks: Seq<bool> = Seq::empty();
        let mut i: usize = 0;
        while i < entries.len()
            invariant
                i <= entries@.len(),
                picks.len() == i,
                forall|e: &DiffEntry| #[trigger] matches.requires((e,)),
                forall|k: int|
                    0 <= k < i && !(entries@[k].status is DirectoryPresent) ==> call_ensures(
                        matches,
                        (&entries@[k],),
                        #[trigger] picks[k],
                    ),
                rows@.map_values(|r: ViewRow| r@) == build_state(entries@, picks, i as int).0,
                build_state(entries@, picks, i as int).1 == (match current_parent {
                    Some(p) => Some(p@),
                    None => None,
                }),
            decreases entries@.len() - i,
        {
            let entry = &entries[i];
            let is_dir_present = match &entry.status {
                DiffStatus::DirectoryPresent => true,
                _ => false,
            };
            let visible = if is_dir_present {
                false
            } else {
                matches(entry)
            };
            let ghost old_picks = picks;
            proof {
                picks = picks.push(visible);
                assert forall|k: int| 0 <= k <= i implies build_state(entries@, picks, k)
                    == build_state(entries@, old_picks, k) by {
                    lemma_build_state_picks_prefix(entries@, picks, old_picks, k);
                }
            }
            let ghost before = rows@.map_values(|r: ViewRow| r@);
            if visible {
                let parent = entry.relative_path.parent();
                let same = match &current_parent {
                    Some(cp) => cp.same_as(&parent),
                    None => false,
                };
                if !same {
                    rows.push(ViewRow::FolderHeader(header_for(&parent)));
                    rows.push(ViewRow::Entry(i));
                    proof {
                        assert(rows@.map_values(|r: ViewRow| r@) =~= before.push(
                            RowView::Header(header_text(parent@)),
                        ).push(RowView::Entry(i)));
                    }
                    current_parent = Some(parent);
                } else {
                    rows.push(ViewRow::Entry(i));
                    proof {
                        assert(rows@.map_values(|r: ViewRow| r@) =~= before.push(
                            RowView::Entry(i),
                        ));
                    }
                }
            }
            i = i + 1;
        }
        let r = ViewRows(rows);
        proof {
            assert(r@ == build_rows(entries@, picks));
        }
        r
    }

    /// No rows.
    pub fn empty() -> (r: Self)
        ensures
            r@.len() == 0,
    {
        let r = ViewRows(Vec::new());
        proof {
            assert(r@ =~= Seq::<RowView>::empty());
        }
        r
    }

    /// Wraps a raw row list (used for layouts that `build` never produces,
    /// such as trailing headers).
    pub fn from_rows(rows: Vec<ViewRow>) -> (r: Self)
        ensures
            r@ == rows@.map_values(|x: ViewRow| x@),
    {
        ViewRows(rows)
    }

    pub fn len(&self) -> (n: usize)
        ensures
            n == self@.len(),
    {
        self.0.len()
    }

    pub fn is_empty(&self) -> (b: bool)
        ensures
            b == (self@.len() == 0),
    {
        self.0.len() == 0
    }

    pub fn get(&self, idx: usize) -> (r: Option<&ViewRow>)
        ensures
            idx < self@.len() ==> (r matches Some(row) && row@ == self@[idx as int]),
            idx >= self@.len() ==> r is None,
    {
        if idx < self.0.len() {
            Some(&self.0[idx])
        } else {
            None
        }
    }

    pub fn as_slice(&self) -> (s: &[ViewRow])
        ensures
            s@.map_values(|x: ViewRow| x@) == self@,
    {
        self.0.as_slice()
    }

    fn row_is_entry(&self, i: usize) -> (b: bool)
        requires
            i < self@.len(),
        ensures
            b == is_entry_row(self@, i as int),
    {
        match &self.0[i] {
            ViewRow::Entry(_) => true,
            ViewRow::FolderHeader(_) => false,
        }
    }

    /// The next entry row after `current`, or `current` when it is the last.
    pub fn next(&self, current: usize) -> (r: usize)
        requires
            current < usize::MAX,
        ensures
            is_next_entry(self@, current as int, r as int),
    {
        let n = self.0.len();
        let mut i = current + 1;
        while i < n
            invariant
                n == self@.len(),
                current < i,
                forall|k: int| current < k < i ==> !#[trigger] is_entry_row(self@, k),
            decreases n - i,
        {
            if self.row_is_entry(i) {
                return i;
            }
            i = i + 1;
        }
        current
    }

    /// The previous entry row before `current`, or `current` when it is the
    /// first.
    pub fn prev(&self, current: usize) -> (r: usize)
        requires
            current <= self@.len(),
        ensures
            is_prev_entry(self@, current as int, r as int),
    {
        if current == 0 {
            return current;
        }
        let mut i = current - 1;
        loop
            invariant
                current <= self@.len(),
                i < current,
                forall|k: int| i < k < current ==> !#[trigger] is_entry_row(self@, k),
            ensures
                forall|k: int| 0 <= k < current ==> !#[trigger] is_entry_row(self@, k),
            decreases i,
        {
            if self.row_is_entry(i) {
                return i;
            }
            if i == 0 {
                break;
            }
            i = i - 1;
        }
        current
    }

    /// Advances `n` entry rows forward in one pass; stops at the last entry
    /// row if fewer remain. Advancing 0 rows stays on `current`.
    pub fn nth_next(&self, current: usize, n: usize) -> (r: usize)
        requires
            current < usize::MAX,
        ensures
            is_nth_next(self@, current as int, n as int, r as int),
    {
        if n == 0 {
            return current;
        }
        let len = self.0.len();
        let mut count: usize = 0;
        let mut result = current;
        let mut i = current + 1;
        while i < len
            invariant
                len == self@.len(),
                current < i,
                count == entries_in(self@, current + 1, i as int),
                count <= i - current - 1,
                count < n,
                result == current ==> count == 0,
                result == current ==> forall|k: int| current < k < i ==> !#[trigger] is_entry_row(self@, k),
                result != current ==> current < result < i && is_entry_row(self@, result as int)
                    && entries_in(self@, current + 1, result + 1) == count && forall|k: int|
                    result < k < i ==> !#[trigger] is_entry_row(self@, k),
            decreases len - i,
        {
            proof {
                lemma_entries_in_extend(self@, current + 1, i as int);
                lemma_entries_in_bound(self@, current + 1, i as int);
            }
            if self.row_is_entry(i) {
                result = i;
                count = count + 1;
                if count == n {
                    return i;
                }
            }
            i = i + 1;
        }
        result
    }

    /// Moves `n` entry rows backward in one pass; stops at the first entry
    /// row if fewer precede it. Moving 0 rows stays on `current`.
    pub fn nth_prev(&self, current: usize, n: usize) -> (r: usize)
        requires
            current <= self@.len(),
        ensures
            is_nth_prev(self@, current as int, n as int, r as int),
    {
        if n == 0 {
            return current;
        }
        let mut count: usize = 0;
        let mut result = current;
        let mut i = current;
        while i > 0
            invariant
                current <= self@.len(),
                i <= current,
                entries_in(self@, i as int, current as int) <= current - i,
                count == entries_in(self@, i as int, current as int),
                count <= current - i,
                count < n,
                result == current ==> count == 0,
                result == current ==> forall|k: int| i <= k < current ==> !#[trigger] is_entry_row(self@, k),
                result != current ==> i <= result < current && is_entry_row(self@, result as int)
                    && entries_in(self@, result as int, current as int) == count && forall|k: int|
                    i <= k < result ==> !#[trigger] is_entry_row(self@, k),
            decreases i,
        {
            i = i - 1;
            if self.row_is_entry(i) {
                result = i;
                count = count + 1;
                if count == n {
                    return i;
                }
            }
        }
        result
    }

    /// The first entry row, or 0 when there is none.
    pub fn first(&self) -> (r: usize)
        ensures
            (is_entry_row(self@, r as int) && forall|k: int| 0 <= k < r ==> !#[trigger] is_entry_row(self@, k))
                || (r == 0 && forall|k: int| 0 <= k < self@.len() ==> !#[trigger] is_entry_row(self@, k)),
    {
        let n = self.0.len();
        let mut i: usize = 0;
        while i < n
            invariant
                n == self@.len(),
                i <= n,
                forall|k: int| 0 <= k < i ==> !#[trigger] is_entry_row(self@, k),
            decreases n - i,
        {
            if self.row_is_entry(i) {
                return i;
            }
            i = i + 1;
        }
        0
    }

    /// The last entry row, or 0 when there is none.
    pub fn last(&self) -> (r: usize)
        ensures
            (is_entry_row(self@, r as int) && forall|k: int| r < k < self@.len() ==> !#[trigger] is_entry_row(self@, k))
                || (r == 0 && forall|k: int| 0 <= k < self@.len() ==> !#[trigger] is_entry_row(self@, k)),
    {
        let mut i = self.0.len();
        while i > 0
            invariant
                i <= self@.len(),
                forall|k: int| i <= k < self@.len() ==> !#[trigger] is_entry_row(self@, k),
            decreases i,
        {
            i = i - 1;
            if self.row_is_entry(i) {
                return i;
            }
        }
        0
    }
}

/// `rows[k]` is an entry row whose entry `pred` is known to be able to
/// return `b` on.
pub open spec fn pred_gave<F: Fn(&DiffEntry) -> bool>(
    rows: Seq<RowView>,
    entries: Seq<DiffEntry>,
    pred: F,
    k: int,
    b: bool,
) -> bool {
    rows[k] matches RowView::Entry(idx) && call_ensures(pred, (&entries[idx as int],), b)
}

/// Every entry row in the range points into `entries`.
pub open spec fn entry_indices_valid(rows: Seq<RowView>, entries_len: int, lo: int, hi: int) -> bool {
    forall|k: int|
        lo <= k < hi && 0 <= k < rows.len() ==> (#[trigger] rows[k] matches RowView::Entry(idx) ==> idx
            < entries_len)
}

impl ViewRows {
    /// The next entry row after `current` whose entry satisfies `pred`, or
    /// `current` when there is none.
    pub fn next_matching<F>(&self, entries: &[DiffEntry], current: usize, pred: F) -> (r: usize) where
        F: Fn(&DiffEntry) -> bool,
        requires
            current < usize::MAX,
            entry_indices_valid(self@, entries@.len() as int, current + 1, self@.len() as int),
            forall|e: &DiffEntry| #[trigger] pred.requires((e,)),
        ensures
            (current < r < self@.len() && pred_gave(self@, entries@, pred, r as int, true) && forall|
                k: int,
            |
                current < k < r && is_entry_row(self@, k) ==> #[trigger] pred_gave(
                    self@,
                    entries@,
                    pred,
                    k,
                    false,
                )) || (r == current && forall|k: int|
                current < k < self@.len() && is_entry_row(self@, k) ==> #[trigger] pred_gave(
                    self@,
                    entries@,
                    pred,
                    k,
                    false,
                )),
    {
        let n = self.0.len();
        let mut i = current + 1;
        while i < n
            invariant
                n == self@.len(),
                current < i,
                entry_indices_valid(self@, entries@.len() as int, current + 1, self@.len() as int),
                forall|e: &DiffEntry| #[trigger] pred.requires((e,)),
                forall|k: int|
                    current < k < i && is_entry_row(self@, k) ==> #[trigger] pred_gave(
                        self@,
                        entries@,
                        pred,
                        k,
                        false,
                    ),
            decreases n - i,
        {
            match &self.0[i] {
                ViewRow::Entry(idx) => {
                    proof {
                        assert(self@[i as int] == RowView::Entry(*idx));
                    }
                    if pred(&entries[*idx]) {
                        return i;
                    }
                },
                ViewRow::FolderHeader(_) => {},
            }
            i = i + 1;
        }
        current
    }

    /// The previous entry row before `current` whose entry satisfies `pred`,
    /// or `current` when there is none.
    pub fn prev_matching<F>(&self, entries: &[DiffEntry], current: usize, pred: F) -> (r: usize) where
        F: Fn(&DiffEntry) -> bool,
        requires
            current <= self@.len(),
            entry_indices_valid(self@, entries@.len() as int, 0, current as int),
            forall|e: &DiffEntry| #[trigger] pred.requires((e,)),
        ensures
            (0 <= r < current && pred_gave(self@, entries@, pred, r as int, true) && forall|k: int|
                r < k < current && is_entry_row(self@, k) ==> #[trigger] pred_gave(
                    self@,
                    entries@,
                    pred,
                    k,
                    false,
                )) || (r == current && forall|k: int|
                0 <= k < current && is_entry_row(self@, k) ==> #[trigger] pred_gave(
                    self@,
                    entries@,
                    pred,
                    k,
                    false,
                )),
    {
        if current == 0 {
            return current;
        }
        let mut i = current - 1;
        loop
            invariant
                current <= self@.len(),
                i < current,
                entry_indices_valid(self@, entries@.len() as int, 0, current as int),
                forall|e: &DiffEntry| #[trigger] pred.requires((e,)),
                forall|k: int|
                    i < k < current && is_entry_row(self@, k) ==> #[trigger] pred_gave(
                        self@,
                        entries@,
                        pred,
                        k,
                        false,
                    ),
            ensures
                forall|k: int|
                    0 <= k < current && is_entry_row(self@, k) ==> #[trigger] pred_gave(
                        self@,
                        entries@,
                        pred,
                        k,
                        false,
                    ),
            decreases i,
        {
            match &self.0[i] {
                ViewRow::Entry(idx) => {
                    proof {
                        assert(self@[i as int] == RowView::Entry(*idx));
                    }
                    if pred(&entries[*idx]) {
                        return i;
                    }
                },
                ViewRow::FolderHeader(_) => {},
            }
            if i == 0 {
                break;
            }
            i = i - 1;
        }
        current
    }

    /// The first entry row whose entry satisfies `pred`.
    pub fn find_entry_row<F>(&self, entries: &[DiffEntry], pred: F) -> (r: Option<usize>) where
        F: Fn(&DiffEntry) -> bool,
        requires
            entry_indices_valid(self@, entries@.len() as int, 0, self@.len() as int),
            forall|e: &DiffEntry| #[trigger] pred.requires((e,)),
        ensures
            r matches Some(k) ==> k < self@.len() && pred_gave(self@, entries@, pred, k as int, true)
                && forall|j: int|
                0 <= j < k && is_entry_row(self@, j) ==> #[trigger] pred_gave(self@, entries@, pred, j, false),
            r is None ==> forall|j: int|
                0 <= j < self@.len() && is_entry_row(self@, j) ==> #[trigger] pred_gave(
                    self@,
                    entries@,
                    pred,
                    j,
                    false,
                ),
    {
        let n = self.0.len();
        let mut i: usize = 0;
        while i < n
            invariant
                n == self@.len(),
                i <= n,
                entry_indices_valid(self@, entries@.len() as int, 0, self@.len() as int),
                forall|e: &DiffEntry| #[trigger] pred.requires((e,)),
                forall|j: int|
                    0 <= j < i && is_entry_row(self@, j) ==> #[trigger] pred_gave(
                        self@,
                        entries@,
                        pred,
                        j,
                        false,
                    ),
            decreases n - i,
        {
            match &self.0[i] {
                ViewRow::Entry(idx) => {
                    proof {
                        assert(self@[i as int] == RowView::Entry(*idx));
                    }
                    if pred(&entries[*idx]) {
                        return Some(i);
                    }
                },
                ViewRow::FolderHeader(_) => {},
            }
            i = i + 1;
        }
        None
    }
}

// ---------------------------------------------------------------------------
// Fixed-width text cells
// ---------------------------------------------------------------------------

/// Display width of a string in terminal columns, as the `unicode-width`
/// crate computes it (not always the sum of its characters' widths: some
/// sequences such as emoji ligatures are counted as a whole).
pub uninterp spec fn unicode_str_width(s: Seq<char>) -> usize;

/// Display width of a character in terminal columns, as the `unicode-width`
/// crate computes it (`None` for control characters).
pub uninterp spec fn unicode_char_width(c: char) -> Option<usize>;

/// `UnicodeWidthStr::width` of the `unicode-width` crate.
#[verifier::external_body]
fn str_width(s: &str) -> (w: usize)
    ensures
        w == unicode_str_width(s@),
{
    UnicodeWidthStr::width(s)
}

/// `UnicodeWidthChar::width` of the `unicode-width` crate.
#[verifier::external_body]
fn char_width(c: char) -> (w: Option<usize>)
    ensures
        w == unicode_char_width(c),
{
    UnicodeWidthChar::width(c)
}

/// Columns a character takes when truncating (control characters: none).
pub open spec fn column_width(c: char) -> int {
    match unicode_char_width(c) {
        Some(w) => w as int,
        None => 0,
    }
}

/// Columns taken by the first `k` characters.
pub open spec fn prefix_width(cs: Seq<char>, k: int) -> int
    decreases k,
{
    if k <= 0 || k > cs.len() {
        0
    } else {
        prefix_width(cs, k - 1) + column_width(cs[k - 1])
    }
}

/// How many characters, from position `i` on, are kept when cutting to
/// `target` columns: characters are taken while they fit.
pub open spec fn cut_len(cs: Seq<char>, target: int, i: int) -> int
    decreases cs.len() - i,
{
    if i >= cs.len() || i < 0 || prefix_width(cs, i + 1) > target {
        i
    } else {
        cut_len(cs, target, i + 1)
    }
}

/// `n` spaces.
pub open spec fn spaces(n: int) -> Seq<char> {
    Seq::new(if n >= 0 { n as nat } else { 0 }, |_i: int| ' ')
}

/// `s` padded or truncated to exactly `width` display columns: padded with
/// spaces when it fits; otherwise cut to `width - 1` columns and ended with
/// an ellipsis, padded with a space when a wide character did not fit.
pub open spec fn fit_spec(cs: Seq<char>, width: int) -> Seq<char> {
    let sw = unicode_str_width(cs) as int;
    if sw <= width {
        cs + spaces(width - sw)
    } else {
        let target = if width >= 1 { width - 1 } else { 0 };
        let k = cut_len(cs, target, 0);
        cs.take(k) + seq!['…'] + spaces(width - (prefix_width(cs, k) + 1))
    }
}

fn push_spaces(out: &mut Vec<char>, n: usize)
    ensures
        final(out)@ == old(out)@ + spaces(n as int),
{
    let ghost start = out@;
    let mut i: usize = 0;
    while i < n
        invariant
            i <= n,
            out@ == start + spaces(i as int),
        decreases n - i,
    {
        out.push(' ');
        i = i + 1;
        proof {
            assert(out@ =~= start + spaces(i as int));
        }
    }
}

proof fn lemma_cut_len_bounds(cs: Seq<char>, target: int, i: int)
    requires
        0 <= i <= cs.len(),
    ensures
        i <= cut_len(cs, target, i) <= cs.len(),
    decreases cs.len() - i,
{
    if i < cs.len() && prefix_width(cs, i + 1) <= target {
        lemma_cut_len_bounds(cs, target, i + 1);
    }
}

/// Pads or truncates `s` to exactly `width` display columns (not chars:
/// CJK and emoji occupy two columns), so fixed-width columns stay aligned.
pub fn fit(s: &str, width: usize) -> (r: String)
    ensures
        r@ == fit_spec(s@, width as int),
{
    let display_width = str_width(s);
    let cs = chars_of(s);
    if display_width <= width {
        let mut out = chars_of(s);
        push_spaces(&mut out, width - display_width);
        return string_of(out.as_slice());
    }
    let target: usize = if width >= 1 {
        width - 1
    } else {
        0
    };
    let mut out: Vec<char> = Vec::new();
    let mut w: usize = 0;
    let mut i: usize = 0;
    while i < cs.len()
        invariant
            i <= cs@.len(),
            w as int == prefix_width(cs@, i as int),
            w <= target,
            out@ == cs@.take(i as int),
            cut_len(cs@, target as int, 0) == cut_len(cs@, target as int, i as int),
        ensures
            i <= cs@.len(),
            w as int == prefix_width(cs@, i as int),
            w <= target,
            out@ == cs@.take(i as int),
            cut_len(cs@, target as int, 0) == cut_len(cs@, target as int, i as int),
            i == cs@.len() || prefix_width(cs@, i + 1) > target,
        decreases cs@.len() - i,
    {
        let c = cs[i];
        let cw: usize = match char_width(c) {
            Some(x) => x,
            None => 0,
        };
        if cw > target - w {
            break;
        }
        out.push(c);
        w = w + cw;
        i = i + 1;
        proof {
            assert(out@ =~= cs@.take(i as int));
        }
    }
    proof {
        lemma_cut_len_bounds(cs@, target as int, i as int);
    }
    out.push('…');
    let pad: usize = if width > w {
        width - (w + 1)
    } else {
        0
    };
    push_spaces(&mut out, pad);
    proof {
        let k = cut_len(cs@, target as int, 0);
        assert(k == i);
        assert(spaces(pad as int) =~= spaces(width - (prefix_width(cs@, k) + 1)));
    }
    string_of(out.as_slice())
}

/// Style role of a cell; the terminal layer maps roles to colours.
#[derive(Debug, Clone, Copy, PartialEq, Eq, Structural)]
pub enum StyleRole {
    LeftOnly,
    RightOnly,
    Different,
    Identical,
    TypeConflict,
    Error,
    Pending,
}

/// Symbol and style roles (symbol, left name, right name) of a status.
pub open spec fn styles_of(status: DiffStatus) -> (Seq<char>, StyleRole, StyleRole, StyleRole) {
    match status {
        DiffStatus::Identical => ("="@, StyleRole::Identical, StyleRole::Identical, StyleRole::Identical),
        DiffStatus::Different => ("≠"@, StyleRole::Different, StyleRole::Different, StyleRole::Different),
        DiffStatus::LeftOnly => ("◄"@, StyleRole::LeftOnly, StyleRole::LeftOnly, StyleRole::Identical),
        DiffStatus::RightOnly => ("►"@, StyleRole::RightOnly, StyleRole::Identical, StyleRole::RightOnly),
        DiffStatus::Pending => ("?"@, StyleRole::Pending, StyleRole::Pending, StyleRole::Pending),
        DiffStatus::TypeConflict => ("!"@, StyleRole::TypeConflict, StyleRole::TypeConflict, StyleRole::TypeConflict),
        _ => ("✗"@, StyleRole::Error, StyleRole::Error, StyleRole::Error),
    }
}

/// Symbol and style roles of an entry row. Directories present on both
/// sides never get a row.
pub fn entry_styles(status: &DiffStatus) -> (r: (&'static str, StyleRole, StyleRole, StyleRole))
    requires
        !(*status is DirectoryPresent),
    ensures
        (r.0@, r.1, r.2, r.3) == styles_of(*status),
{
    match status {
        DiffStatus::Identical => ("=", StyleRole::Identical, StyleRole::Identical, StyleRole::Identical),
        DiffStatus::Different => ("≠", StyleRole::Different, StyleRole::Different, StyleRole::Different),
        DiffStatus::LeftOnly => ("◄", StyleRole::LeftOnly, StyleRole::LeftOnly, StyleRole::Identical),
        DiffStatus::RightOnly => ("►", StyleRole::RightOnly, StyleRole::Identical, StyleRole::RightOnly),
        DiffStatus::Pending => ("?", StyleRole::Pending, StyleRole::Pending, StyleRole::Pending),
        DiffStatus::TypeConflict => ("!", StyleRole::TypeConflict, StyleRole::TypeConflict, StyleRole::TypeConflict),
        DiffStatus::Error(_) | DiffStatus::DirectoryPresent => (
            "✗",
            StyleRole::Error,
            StyleRole::Error,
            StyleRole::Error,
        ),
    }
}

/// The name shown for an entry: its file name (its whole path when it has
/// none), with a trailing `/` for directories.
pub open spec fn entry_name(entry: DiffEntry) -> Seq<char> {
    let p = entry.relative_path@;
    let base = if p.len() > 0 { p.last() } else { join_components(p) };
    if entry.is_dir { base.push('/') } else { base }
}

/// The texts of an entry row: left name cell, symbol, right name cell.
/// The side where the entry is missing shows an empty cell.
pub fn entry_texts(entry: &DiffEntry, left_col: usize, right_col: usize) -> (r: (String, &'static str, String))
    requires
        !(entry.status is DirectoryPresent),
    ensures
        r.0@ == fit_spec(if entry.status is RightOnly { Seq::empty() } else { entry_name(*entry) }, left_col as int),
        r.1@ == styles_of(entry.status).0,
        r.2@ == fit_spec(if entry.status is LeftOnly { Seq::empty() } else { entry_name(*entry) }, right_col as int),
{
    let mut name = match entry.relative_path.file_name() {
        Some(n) => n,
        None => entry.relative_path.display_chars(),
    };
    if entry.is_dir {
        name.push('/');
    }
    let name_s = string_of(name.as_slice());
    proof {
        assert(name_s@ == entry_name(*entry));
        reveal_strlit("");
        assert(""@ =~= Seq::<char>::empty());
    }
    let (symbol, _, _, _) = entry_styles(&entry.status);
    let left = match &entry.status {
        DiffStatus::RightOnly => fit("", left_col),
        _ => fit(name_s.as_str(), left_col),
    };
    let right = match &entry.status {
        DiffStatus::LeftOnly => fit("", right_col),
        _ => fit(name_s.as_str(), right_col),
    };
    (left, symbol, right)
}

/// The text of a folder header row: the path after one space, fitted to the
/// whole width.
pub fn header_row_text(path: &str, total_width: usize) -> (r: String)
    ensures
        r@ == fit_spec(seq![' '] + path@, total_width as int),
{
    let mut cs: Vec<char> = Vec::new();
    cs.push(' ');
    let rest = chars_of(path);
    let mut i: usize = 0;
    while i < rest.len()
        invariant
            i <= rest@.len(),
            cs@ == seq![' '] + rest@.take(i as int),
        decreases rest@.len() - i,
    {
        cs.push(rest[i]);
        i = i + 1;
        proof {
            assert(cs@ =~= seq![' '] + rest@.take(i as int));
        }
    }
    proof {
        assert(rest@.take(i as int) =~= path@);
    }
    let s = string_of(cs.as_slice());
    fit(s.as_str(), total_width)
}

/// The visible window of `n` rows in a list `height` rows tall: the first
/// visible row (the scroll offset), the end of the window and the selected
/// row clamped to the list. The offset moves only as far as needed to keep
/// the selection visible.
pub fn scroll_window(selected: Option<usize>, scroll_offset: usize, height: usize, n: usize) -> (r: (usize, usize, usize))
    requires
        height > 0,
        n > 0,
    ensures
        ({
            let sel = match selected { Some(s) => if s < n { s as int } else { n - 1 }, None => 0 };
            let off = if sel < scroll_offset { sel } else if sel >= scroll_offset + height { sel + 1 - height } else { scroll_offset as int };
            &&& r.2 == sel
            &&& r.0 == off
            &&& r.1 == if off + height < n { off + height } else { n as int }
            &&& r.0 <= r.2 < r.1
        }),
{
    let sel = match selected {
        Some(s) => if s < n { s } else { n - 1 },
        None => 0,
    };
    let off = if sel < scroll_offset {
        sel
    } else if sel - scroll_offset >= height {
        sel + 1 - height
    } else {
        scroll_offset
    };
    let end = if off < n && n - off > height {
        off + height
    } else {
        n
    };
    (off, end, sel)
}

/// Only the picks of entries that can become rows matter.
pub proof fn lemma_build_state_picks_agree(entries: Seq<DiffEntry>, p1: Seq<bool>, p2: Seq<bool>, n: int)
    requires
        0 <= n <= entries.len(),
        p1.len() == entries.len(),
        p2.len() == entries.len(),
        forall|i: int| 0 <= i < entries.len() && !(entries[i].status is DirectoryPresent) ==> p1[i] == p2[i],
    ensures
        build_state(entries, p1, n) == build_state(entries, p2, n),
    decreases n,
{
    if n > 0 {
        lemma_build_state_picks_agree(entries, p1, p2, n - 1);
    }
}

/// Built rows hold only indices of entries that are neither directories
/// present on both sides nor filtered out, in increasing order, each entry
/// at most once; and each entry row is preceded, at some earlier position,
/// by a header.
pub proof fn lemma_build_state_rows(entries: Seq<DiffEntry>, picks: Seq<bool>, n: int)
    requires
        0 <= n <= entries.len(),
        entries.len() <= usize::MAX,
        picks.len() == entries.len(),
    ensures
        build_state(entries, picks, n).0.len() == 0 ==> build_state(entries, picks, n).1 is None,
        forall|k: int|
            0 <= k < build_state(entries, picks, n).0.len() ==> (#[trigger] build_state(entries, picks, n).0[k] matches RowView::Entry(idx)
                ==> idx < n && !(entries[idx as int].status is DirectoryPresent) && picks[idx as int]),
        build_state(entries, picks, n).0.len() > 0 ==> build_state(entries, picks, n).0[0] is Header,
    decreases n,
{
    if n > 0 {
        lemma_build_state_rows(entries, picks, n - 1);
        let (rows, cur) = build_state(entries, picks, n - 1);
        let r2 = build_state(entries, picks, n).0;
        assert(((n - 1) as usize) as int == n - 1);
        assert forall|k: int| 0 <= k < r2.len() implies (#[trigger] r2[k] matches RowView::Entry(idx)
            ==> idx < n && !(entries[idx as int].status is DirectoryPresent) && picks[idx as int]) by {
            if k < rows.len() {
                assert(r2[k] == rows[k]);
            }
        }
        if rows.len() > 0 {
            assert(r2[0] == rows[0]);
        }
    }
}

/// Every entry that can become a row and is picked has an entry row among
/// the rows built from the first `n` entries.
proof fn lemma_build_state_complete(entries: Seq<DiffEntry>, picks: Seq<bool>, n: int)
    requires
        0 <= n <= entries.len(),
        entries.len() <= usize::MAX,
        picks.len() == entries.len(),
    ensures
        forall|i: int|
            0 <= i < n && !(entries[i].status is DirectoryPresent) && #[trigger] picks[i] ==> exists|k: int|
                0 <= k < build_state(entries, picks, n).0.len() && build_state(entries, picks, n).0[k]
                    == RowView::Entry(i as usize),
    decreases n,
{
    if n > 0 {
        lemma_build_state_complete(entries, picks, n - 1);
        let rows = build_state(entries, picks, n - 1).0;
        let r2 = build_state(entries, picks, n).0;
        assert forall|i: int|
            0 <= i < n && !(entries[i].status is DirectoryPresent) && #[trigger] picks[i] implies exists|k: int|
                0 <= k < r2.len() && r2[k] == RowView::Entry(i as usize) by {
            if i < n - 1 {
                let k = choose|k: int| 0 <= k < rows.len() && rows[k] == RowView::Entry(i as usize);
                assert(r2[k] == rows[k]);
            } else {
                assert(r2[r2.len() - 1] == RowView::Entry((n - 1) as usize));
            }
        }
    }
}

/// The rows list exactly the visible entries: every entry row points at an
/// entry that is picked and is not a directory present on both sides, and
/// every such entry has an entry row; entry rows come in the order of the
/// entries, each entry once.
pub proof fn law_rows_list_visible_entries(entries: Seq<DiffEntry>, picks: Seq<bool>)
    requires
        entries.len() <= usize::MAX,
        picks.len() == entries.len(),
    ensures
        forall|k: int|
            0 <= k < build_rows(entries, picks).len() ==> (#[trigger] build_rows(entries, picks)[k] matches RowView::Entry(idx)
                ==> idx < entries.len() && !(entries[idx as int].status is DirectoryPresent) && picks[idx as int]),
        forall|i: int|
            0 <= i < entries.len() && !(entries[i].status is DirectoryPresent) && #[trigger] picks[i] ==> exists|k: int|
                0 <= k < build_rows(entries, picks).len() && build_rows(entries, picks)[k] == RowView::Entry(i as usize),
        forall|k1: int, k2: int|
            0 <= k1 < k2 < build_rows(entries, picks).len() && #[trigger] build_rows(entries, picks)[k1] is Entry
                && #[trigger] build_rows(entries, picks)[k2] is Entry
                ==> build_rows(entries, picks)[k1]->Entry_0 < build_rows(entries, picks)[k2]->Entry_0,
{
    lemma_build_state_rows(entries, picks, entries.len() as int);
    lemma_build_state_complete(entries, picks, entries.len() as int);
    lemma_build_state_increasing(entries, picks, entries.len() as int);
}

/// Entry rows point at increasing entry indices.
proof fn lemma_build_state_increasing(entries: Seq<DiffEntry>, picks: Seq<bool>, n: int)
    requires
        0 <= n <= entries.len(),
        entries.len() <= usize::MAX,
        picks.len() == entries.len(),
    ensures
        forall|k1: int, k2: int|
            0 <= k1 < k2 < build_state(entries, picks, n).0.len() && #[trigger] build_state(entries, picks, n).0[k1] is Entry
                && #[trigger] build_state(entries, picks, n).0[k2] is Entry
                ==> build_state(entries, picks, n).0[k1]->Entry_0 < build_state(entries, picks, n).0[k2]->Entry_0,
    decreases n,
{
    if n > 0 {
        lemma_build_state_increasing(entries, picks, n - 1);
        lemma_build_state_rows(entries, picks, n - 1);
        let rows = build_state(entries, picks, n - 1).0;
        let r2 = build_state(entries, picks, n).0;
        assert(((n - 1) as usize) as int == n - 1);
        assert forall|k1: int, k2: int|
            0 <= k1 < k2 < r2.len() && #[trigger] r2[k1] is Entry && #[trigger] r2[k2] is Entry
            implies r2[k1]->Entry_0 < r2[k2]->Entry_0 by {
            if k2 < rows.len() {
                assert(r2[k1] == rows[k1]);
                assert(r2[k2] == rows[k2]);
            } else {
                assert(r2[k2] == RowView::Entry((n - 1) as usize));
                if k1 < rows.len() {
                    assert(r2[k1] == rows[k1]);
                    assert(rows[k1] matches RowView::Entry(idx) ==> idx < n - 1);
                } else {
                    assert(r2[k1] is Header);
                }
            }
        }
    }
}

proof fn lemma_entries_in_extend(rows: Seq<RowView>, lo: int, hi: int)
    requires
        lo <= hi,
    ensures
        entries_in(rows, lo, hi + 1) == entries_in(rows, lo, hi) + (if is_entry_row(rows, hi) {
            1nat
        } else {
            0nat
        }),
    decreases hi - lo,
{
    if lo < hi {
        lemma_entries_in_extend(rows, lo + 1, hi);
    } else {
        assert(entries_in(rows, lo + 1, hi + 1) == 0);
    }
}

proof fn lemma_entries_in_bound(rows: Seq<RowView>, lo: int, hi: int)
    ensures
        entries_in(rows, lo, hi) <= if hi >= lo { hi - lo } else { 0 },
    decreases hi - lo,
{
    if lo < hi {
        lemma_entries_in_bound(rows, lo + 1, hi);
    }
}

proof fn lemma_build_state_picks_prefix(
    entries: Seq<DiffEntry>,
    picks: Seq<bool>,
    prefix: Seq<bool>,
    k: int,
)
    requires
        k <= prefix.len() <= picks.len(),
        forall|j: int| 0 <= j < prefix.len() ==> picks[j] == prefix[j],
    ensures
        build_state(entries, picks, k) == build_state(entries, prefix, k),
    decreases k,
{
    if k > 0 {
        lemma_build_state_picks_prefix(entries, picks, prefix, k - 1);
    }
}

/// The width of each root path in the one-line header above the list.
pub open spec fn header_half(width: int) -> int {
    (if width >= 3 { width - 3 } else { 0 }) / 2
}

/// The header line: both root paths, each fitted to half the width, so a
/// long left path cannot push the right one out of alignment.
pub fn paths_header(left: &str, right: &str, width: usize) -> (r: String)
    ensures
        r@ == seq![' '] + fit_spec(left@, header_half(width as int)) + seq![' ', ' ']
            + fit_spec(right@, header_half(width as int)),
{
    let half: usize = (if width >= 3 { width - 3 } else { 0 }) / 2;
    let l = fit(left, half);
    let r = fit(right, half);
    let mut out: Vec<char> = Vec::new();
    out.push(' ');
    crate::strings::append_str(&mut out, l.as_str());
    out.push(' ');
    out.push(' ');
    crate::strings::append_str(&mut out, r.as_str());
    proof {
        assert(out@ =~= seq![' '] + l@ + seq![' ', ' '] + r@);
    }
    string_of(out.as_slice())
}

} // verus!
