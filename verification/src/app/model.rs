//! The application state machine: what each command and each background
//! result does to the filter, the rows of the view, the cursor and the
//! phase. Terminal handling, threads and channels live outside the library
//! and feed this model.
use vstd::prelude::*;
use crate::app::command::Command;
use crate::app::external::{
    open_action_for, side_action, side_has_file, tool_key_hints, hints_for, open_kind, Side,
    ToolKeyHints,
};
use crate::config::{Config, ToolsConfig};
use crate::engine::comparator::{comparator_for, create_comparator};
use crate::engine::diff::{
    entry_paths, filter_passes, pending_kind, same_kind, select_with, DiffEngine, DiffEntry,
    DiffFilter, DiffResult, DiffStatus, is_structural_diff,
};
use crate::engine::pipeline::{CompareMsg, ScanMsg};
use crate::engine::scanner::EntryMap;
use crate::relpath::RelPath;
use crate::tools::{action_view, ExternalAction};
use crate::ui::panel::{
    build_rows, entry_indices_valid, is_entry_row, is_next_entry, is_nth_next,
    is_nth_prev, is_prev_entry, lemma_build_state_picks_agree, lemma_build_state_rows, pred_gave,
    RowView, ViewRows,
};
use crate::ui::AppState;

verus! {

/// Each entry's visibility under `filter`.
pub open spec fn filter_picks(filter: DiffFilter, entries: Seq<DiffEntry>) -> Seq<bool> {
    Seq::new(entries.len(), |i: int| filter_passes(filter, entries[i].status))
}

/// Row `k` is an entry row for an entry at path `p`.
pub open spec fn row_has_path(rows: Seq<RowView>, entries: Seq<DiffEntry>, k: int, p: Seq<Seq<char>>) -> bool {
    &&& 0 <= k < rows.len()
    &&& rows[k] matches RowView::Entry(idx)
    &&& idx < entries.len()
    &&& entries[idx as int].relative_path@ == p
}

/// The entry a selection points at, if it is on an entry row.
pub open spec fn selected_entry_of(rows: Seq<RowView>, entries: Seq<DiffEntry>, sel: Option<usize>) -> Option<DiffEntry> {
    match sel {
        Some(s) => if s < rows.len() {
            match rows[s as int] {
                RowView::Entry(i) => if i < entries.len() {
                    Some(entries[i as int])
                } else {
                    None
                },
                RowView::Header(_) => None,
            }
        } else {
            None
        },
        None => None,
    }
}

/// `s` is the first entry row, or 0 when there is none.
pub open spec fn is_first_entry(rows: Seq<RowView>, s: int) -> bool {
    ||| (is_entry_row(rows, s) && forall|k: int| 0 <= k < s ==> !#[trigger] is_entry_row(rows, k))
    ||| (s == 0 && forall|k: int| 0 <= k < rows.len() ==> !#[trigger] is_entry_row(rows, k))
}

/// `s` is the last entry row, or 0 when there is none.
pub open spec fn is_last_entry(rows: Seq<RowView>, s: int) -> bool {
    ||| (is_entry_row(rows, s) && forall|k: int| s < k < rows.len() ==> !#[trigger] is_entry_row(rows, k))
    ||| (s == 0 && forall|k: int| 0 <= k < rows.len() ==> !#[trigger] is_entry_row(rows, k))
}

/// The view of an optional path.
pub open spec fn opt_path(p: Option<RelPath>) -> Option<Seq<Seq<char>>> {
    match p {
        Some(q) => Some(q@),
        None => None,
    }
}

/// The path of an entry, if any.
pub open spec fn path_of(e: Option<DiffEntry>) -> Option<Seq<Seq<char>>> {
    match e {
        Some(d) => Some(d.relative_path@),
        None => None,
    }
}

/// The cursor after rebuilding the rows: none when no row is left; else the
/// first row of the entry at `old_path` (the entry selected before), when
/// that entry is visible; else the previous row number clamped to the
/// list; else the first entry row.
pub open spec fn rebuilt_selection(
    rows: Seq<RowView>,
    entries: Seq<DiffEntry>,
    old_sel: Option<usize>,
    old_path: Option<Seq<Seq<char>>>,
    new_sel: Option<usize>,
) -> bool {
    if rows.len() == 0 {
        new_sel is None
    } else {
        match new_sel {
            None => false,
            Some(s) => if old_path matches Some(p) && exists|k: int|
                #[trigger] row_has_path(rows, entries, k, p) {
                &&& row_has_path(rows, entries, s as int, old_path->0)
                &&& forall|j: int| 0 <= j < s ==> !#[trigger] row_has_path(rows, entries, j, old_path->0)
            } else {
                match old_sel {
                    Some(i) => s == if i < rows.len() { i as int } else { rows.len() - 1 },
                    None => is_first_entry(rows, s as int),
                }
            },
        }
    }
}

/// What a command asks of the caller, which owns the terminal and the
/// background threads.
#[derive(Debug)]
pub enum Effect {
    /// Nothing to do.
    Nothing,
    /// Start a new scan of both folders.
    StartScan,
    /// Suspend the view and run an external tool.
    Launch(ExternalAction),
}

/// The row a cursor command starts from: the selected row, or row 0.
pub open spec fn cursor_of(sel: Option<usize>) -> int {
    match sel {
        Some(s) => s as int,
        None => 0,
    }
}

/// Row `k` is an entry row whose entry has the same kind of status as `target`.
pub open spec fn kind_at(rows: Seq<RowView>, entries: Seq<DiffEntry>, k: int, target: DiffStatus) -> bool {
    &&& 0 <= k < rows.len()
    &&& rows[k] matches RowView::Entry(idx)
    &&& idx < entries.len()
    &&& same_kind(entries[idx as int].status, target)
}

/// `r` is the nearest entry row after (`forward`) or before `cur` whose
/// status has the kind of `target`; `cur` itself when there is none.
pub open spec fn jump_lands(rows: Seq<RowView>, entries: Seq<DiffEntry>, cur: int, target: DiffStatus, forward: bool, r: int) -> bool {
    if forward {
        ||| (cur < r < rows.len() && kind_at(rows, entries, r, target)
            && forall|k: int| cur < k < r ==> !#[trigger] kind_at(rows, entries, k, target))
        ||| (r == cur && forall|k: int| cur < k < rows.len() ==> !#[trigger] kind_at(rows, entries, k, target))
    } else {
        ||| (0 <= r < cur && kind_at(rows, entries, r, target)
            && forall|k: int| r < k < cur ==> !#[trigger] kind_at(rows, entries, k, target))
        ||| (r == cur && forall|k: int| 0 <= k < cur ==> !#[trigger] kind_at(rows, entries, k, target))
    }
}

/// The filter with the flag that `cmd` toggles flipped.
pub open spec fn toggled(f: DiffFilter, cmd: Command) -> DiffFilter {
    match cmd {
        Command::ToggleLeftOnly => DiffFilter { show_left_only: !f.show_left_only, ..f },
        Command::ToggleRightOnly => DiffFilter { show_right_only: !f.show_right_only, ..f },
        Command::ToggleDifferent => DiffFilter { show_different: !f.show_different, ..f },
        Command::ToggleIdentical => DiffFilter { show_identical: !f.show_identical, ..f },
        _ => f,
    }
}

/// The variant number of the action a side key queues.
pub open spec fn side_kind(side: Side, edit: bool) -> u8 {
    match (side, edit) {
        (Side::Left, false) => 1u8,
        (Side::Right, false) => 2u8,
        (Side::Left, true) => 3u8,
        (Side::Right, true) => 4u8,
    }
}

/// The status kind that `n`/`N` jump to: that of the selected entry, or
/// `Different` when no entry is selected.
pub open spec fn jump_target(selected: Option<DiffEntry>) -> DiffStatus {
    match selected {
        Some(e) => e.status,
        None => DiffStatus::Different,
    }
}

/// `eff` is what `Open` gives when `selected` is under the cursor.
pub open spec fn open_effect(tools: ToolsConfig, selected: Option<DiffEntry>, eff: Effect) -> bool {
    match selected {
        Some(e) => match open_kind(tools, e.status) {
            Some(k) => eff matches Effect::Launch(a) && action_view(a) == (k, e.relative_path@),
            None => eff is Nothing,
        },
        None => eff is Nothing,
    }
}

/// `eff` is what a side key gives when `selected` is under the cursor.
pub open spec fn side_effect(tools: ToolsConfig, selected: Option<DiffEntry>, side: Side, edit: bool, eff: Effect) -> bool {
    match selected {
        Some(e) => if side_has_file(e.status, side) && (if edit {
            tools.editor is Some
        } else {
            tools.viewer is Some
        }) {
            eff matches Effect::Launch(a) && action_view(a) == (side_kind(side, edit), e.relative_path@)
        } else {
            eff is Nothing
        },
        None => eff is Nothing,
    }
}

/// `b` has the data, rows, filter, phase and settings of `a`; only the
/// cursor and the quit flag may differ.
pub open spec fn keeps_data(a: AppModel, b: AppModel) -> bool {
    &&& keeps_settings(a, b)
    &&& b.filter_view() == a.filter_view()
    &&& b.state_view() == a.state_view()
    &&& b.message_view() == a.message_view()
}

/// `b` has the entries, settings and scan error count of `a`.
pub open spec fn keeps_settings(a: AppModel, b: AppModel) -> bool {
    &&& b.entries_view() == a.entries_view()
    &&& b.has_result() == a.has_result()
    &&& b.config_view() == a.config_view()
    &&& b.name_view() == a.name_view()
    &&& b.page_view() == a.page_view()
    &&& b.scan_errors_view() == a.scan_errors_view()
}

/// What command `cmd` does to model `a`, giving model `b` and effect `eff`.
pub open spec fn command_outcome(cmd: Command, a: AppModel, b: AppModel, eff: Effect) -> bool {
    let rows = a.rows_view();
    let entries = a.entries_view();
    let cur = cursor_of(a.selection());
    let tools = a.config_view().tools;
    match cmd {
        Command::Quit => {
            &&& eff is Nothing
            &&& b.quitting()
            &&& keeps_data(a, b)
            &&& b.rows_view() == rows
            &&& b.selection() == a.selection()
        },
        Command::Rescan => {
            &&& eff is StartScan
            &&& b.state_view() == AppState::Scanning
            &&& b.message_view() is None
            &&& keeps_settings(a, b)
            &&& b.filter_view() == a.filter_view()
            &&& b.rows_view() == rows
            &&& b.selection() == a.selection()
            &&& b.quitting() == a.quitting()
        },
        Command::ToggleLeftOnly | Command::ToggleRightOnly | Command::ToggleDifferent | Command::ToggleIdentical => {
            &&& eff is Nothing
            &&& b.filter_view() == toggled(a.filter_view(), cmd)
            &&& b.rows_view() == build_rows(entries, filter_picks(b.filter_view(), entries))
            &&& rebuilt_selection(b.rows_view(), entries, a.selection(), path_of(a.selected_entry()), b.selection())
            &&& keeps_settings(a, b)
            &&& b.state_view() == a.state_view()
            &&& b.message_view() == a.message_view()
            &&& b.quitting() == a.quitting()
        },
        _ => {
            &&& keeps_data(a, b)
            &&& b.rows_view() == rows
            &&& match cmd {
                Command::JumpNextMatching => eff is Nothing && (b.selection() matches Some(r)
                    && jump_lands(rows, entries, cur, jump_target(a.selected_entry()), true, r as int)),
                Command::JumpPrevMatching => eff is Nothing && (b.selection() matches Some(r)
                    && jump_lands(rows, entries, cur, jump_target(a.selected_entry()), false, r as int)),
                Command::CursorDown => eff is Nothing && (b.selection() matches Some(r) && is_next_entry(rows, cur, r as int)),
                Command::CursorUp => eff is Nothing && (b.selection() matches Some(r) && is_prev_entry(rows, cur, r as int)),
                Command::PageDown => eff is Nothing && (b.selection() matches Some(r)
                    && is_nth_next(rows, cur, a.page_view() as int, r as int)),
                Command::PageUp => eff is Nothing && (b.selection() matches Some(r)
                    && is_nth_prev(rows, cur, a.page_view() as int, r as int)),
                Command::CursorHome => eff is Nothing && (b.selection() matches Some(r) && is_first_entry(rows, r as int)),
                Command::CursorEnd => eff is Nothing && (b.selection() matches Some(r) && is_last_entry(rows, r as int)),
                Command::Open => b.selection() == a.selection() && open_effect(tools, a.selected_entry(), eff),
                Command::ViewLeft => b.selection() == a.selection() && side_effect(tools, a.selected_entry(), Side::Left, false, eff),
                Command::ViewRight => b.selection() == a.selection() && side_effect(tools, a.selected_entry(), Side::Right, false, eff),
                Command::EditLeft => b.selection() == a.selection() && side_effect(tools, a.selected_entry(), Side::Left, true, eff),
                Command::EditRight => b.selection() == a.selection() && side_effect(tools, a.selected_entry(), Side::Right, true, eff),
                _ => false,
            }
            &&& b.quitting() == a.quitting()
        },
    }
}

/// The state of the application apart from the terminal and the channels.
pub struct AppModel {
    config: Config,
    comparator_name: String,
    diff_result: Option<DiffResult>,
    view_rows: ViewRows,
    filter: DiffFilter,
    selected: Option<usize>,
    should_quit: bool,
    state: AppState,
    page_height: usize,
    scan_errors: usize,
    status_message: Option<String>,
}

impl AppModel {
    /// The entries of the current result (none before the first scan).
    pub closed spec fn entries_view(&self) -> Seq<DiffEntry> {
        match self.diff_result {
            Some(r) => r.spec_entries(),
            None => Seq::empty(),
        }
    }

    /// The name of the comparison strategy in use.
    pub closed spec fn name_view(&self) -> Seq<char> {
        self.comparator_name@
    }

    pub closed spec fn has_result(&self) -> bool {
        self.diff_result is Some
    }

    pub closed spec fn rows_view(&self) -> Seq<RowView> {
        self.view_rows@
    }

    pub closed spec fn selection(&self) -> Option<usize> {
        self.selected
    }

    pub closed spec fn filter_view(&self) -> DiffFilter {
        self.filter
    }

    pub closed spec fn state_view(&self) -> AppState {
        self.state
    }

    pub closed spec fn quitting(&self) -> bool {
        self.should_quit
    }

    pub closed spec fn config_view(&self) -> Config {
        self.config
    }

    pub closed spec fn page_view(&self) -> usize {
        self.page_height
    }

    pub closed spec fn message_view(&self) -> Option<Seq<char>> {
        match self.status_message {
            Some(m) => Some(m@),
            None => None,
        }
    }

    pub closed spec fn scan_errors_view(&self) -> usize {
        self.scan_errors
    }

    /// The entry under the cursor, if the cursor is on an entry row.
    pub open spec fn selected_entry(&self) -> Option<DiffEntry> {
        selected_entry_of(self.rows_view(), self.entries_view(), self.selection())
    }

    #[verifier::type_invariant]
    closed spec fn inv(&self) -> bool {
        &&& entry_indices_valid(self.view_rows@, self.entries_view().len() as int, 0, self.view_rows@.len() as int)
        &&& self.selected matches Some(s) ==> s == 0 || s < self.view_rows@.len()
    }

    /// A model before any scan: no result, every filter toggle on, the
    /// cursor on row 0.
    pub fn new(config: Config) -> (m: AppModel)
        ensures
            !m.has_result(),
            m.rows_view().len() == 0,
            m.selection() == Some(0usize),
            m.filter_view().show_left_only && m.filter_view().show_right_only
                && m.filter_view().show_different && m.filter_view().show_identical,
            m.state_view() == AppState::Scanning,
            !m.quitting(),
            m.message_view() is None,
            m.scan_errors_view() == 0,
            m.page_view() == 40,
            m.config_view() == config,
            m.name_view() == comparator_for(config.comparison).strategy_name(),
    {
        let comparator = create_comparator(&config.comparison);
        let comparator_name = String::from_str(comparator.name());
        AppModel {
            config,
            comparator_name,
            diff_result: None,
            view_rows: ViewRows::empty(),
            filter: DiffFilter::default(),
            selected: Some(0),
            should_quit: false,
            state: AppState::Scanning,
            page_height: 40,
            scan_errors: 0,
            status_message: None,
        }
    }

    pub fn config(&self) -> (c: &Config)
        ensures
            *c == self.config_view(),
    {
        &self.config
    }

    /// Name of the comparison strategy in use.
    pub fn comparator_name(&self) -> (s: &str)
        ensures
            s@ == self.name_view(),
    {
        self.comparator_name.as_str()
    }

    pub fn state(&self) -> (s: AppState)
        ensures
            s == self.state_view(),
    {
        self.state
    }

    pub fn filter(&self) -> (f: DiffFilter)
        ensures
            f == self.filter_view(),
    {
        self.filter
    }

    pub fn selected_index(&self) -> (s: Option<usize>)
        ensures
            s == self.selection(),
    {
        self.selected
    }

    pub fn should_quit(&self) -> (b: bool)
        ensures
            b == self.quitting(),
    {
        self.should_quit
    }

    pub fn scan_errors(&self) -> (n: usize)
        ensures
            n == self.scan_errors_view(),
    {
        self.scan_errors
    }

    pub fn status_message(&self) -> (m: Option<&String>)
        ensures
            match m {
                Some(s) => self.message_view() == Some(s@),
                None => self.message_view() is None,
            },
    {
        self.status_message.as_ref()
    }

    /// Drops the transient status-bar message (on every key press).
    pub fn clear_status_message(&mut self)
        ensures
            final(self).message_view() is None,
            keeps_settings(*old(self), *final(self)),
            final(self).filter_view() == old(self).filter_view(),
            final(self).state_view() == old(self).state_view(),
            final(self).rows_view() == old(self).rows_view(),
            final(self).selection() == old(self).selection(),
            final(self).quitting() == old(self).quitting(),
    {
        proof {
            use_type_invariant(&*self);
        }
        self.status_message = None;
    }

    /// Reports the outcome of an external tool (`None` on success).
    pub fn set_status_message(&mut self, message: Option<String>)
        ensures
            final(self).message_view() == match message {
                Some(s) => Some(s@),
                None => None::<Seq<char>>,
            },
            keeps_settings(*old(self), *final(self)),
            final(self).filter_view() == old(self).filter_view(),
            final(self).state_view() == old(self).state_view(),
            final(self).rows_view() == old(self).rows_view(),
            final(self).selection() == old(self).selection(),
            final(self).quitting() == old(self).quitting(),
    {
        proof {
            use_type_invariant(&*self);
        }
        self.status_message = message;
    }

    /// Records the height of the list area, used by page movement.
    pub fn set_page_height(&mut self, height: usize)
        ensures
            final(self).page_view() == height,
            final(self).entries_view() == old(self).entries_view(),
            final(self).has_result() == old(self).has_result(),
            final(self).config_view() == old(self).config_view(),
            final(self).name_view() == old(self).name_view(),
            final(self).scan_errors_view() == old(self).scan_errors_view(),
            final(self).filter_view() == old(self).filter_view(),
            final(self).state_view() == old(self).state_view(),
            final(self).message_view() == old(self).message_view(),
            final(self).rows_view() == old(self).rows_view(),
            final(self).selection() == old(self).selection(),
            final(self).quitting() == old(self).quitting(),
    {
        proof {
            use_type_invariant(&*self);
        }
        self.page_height = height;
    }

    pub fn view_rows(&self) -> (r: &ViewRows)
        ensures
            r@ == self.rows_view(),
    {
        &self.view_rows
    }

    /// The current result, if a scan has finished.
    pub fn diff_result(&self) -> (r: Option<&DiffResult>)
        ensures
            r is Some == self.has_result(),
            r matches Some(d) ==> d.spec_entries() == self.entries_view(),
    {
        self.diff_result.as_ref()
    }

    /// The entries of the current result (none before the first scan).
    pub fn entries(&self) -> (e: &[DiffEntry])
        ensures
            e@ == self.entries_view(),
    {
        match &self.diff_result {
            Some(r) => r.entries().as_slice(),
            None => &[],
        }
    }

    /// The entry under the cursor, if the cursor is on an entry row.
    pub fn selected_diff_entry(&self) -> (r: Option<&DiffEntry>)
        ensures
            match r {
                Some(e) => self.selected_entry() == Some(*e),
                None => self.selected_entry() is None,
            },
    {
        proof {
            use_type_invariant(self);
        }
        let idx = match self.selected {
            Some(i) => i,
            None => return None,
        };
        match self.view_rows.get(idx) {
            Some(row) => match row {
                crate::ui::panel::ViewRow::Entry(entry_idx) => {
                    let entries = self.entries();
                    if *entry_idx < entries.len() {
                        Some(&entries[*entry_idx])
                    } else {
                        None
                    }
                },
                crate::ui::panel::ViewRow::FolderHeader(_) => None,
            },
            None => None,
        }
    }

    /// Rebuilds the rows from the current result and filter. The cursor
    /// follows the selected entry (not the row number) when rows appear or
    /// disappear.
    pub fn rebuild_filtered(&mut self)
        ensures
            final(self).rows_view() == build_rows(old(self).entries_view(), filter_picks(old(self).filter_view(), old(self).entries_view())),
            rebuilt_selection(final(self).rows_view(), old(self).entries_view(), old(self).selection(), path_of(old(self).selected_entry()), final(self).selection()),
            keeps_data(*old(self), *final(self)),
            final(self).quitting() == old(self).quitting(),
    {
        let old_idx = self.selected;
        let old_path: Option<RelPath> = match self.selected_diff_entry() {
            Some(e) => Some(e.relative_path.duplicate()),
            None => None,
        };
        self.rebuild_from(old_idx, old_path);
    }

    /// Rebuilds the rows; the cursor goes to the entry at `old_path`, else
    /// to row `old_idx` clamped, else to the first entry row.
    fn rebuild_from(&mut self, old_idx: Option<usize>, old_path: Option<RelPath>)
        ensures
            final(self).rows_view() == build_rows(old(self).entries_view(), filter_picks(old(self).filter_view(), old(self).entries_view())),
            rebuilt_selection(final(self).rows_view(), old(self).entries_view(), old_idx, opt_path(old_path), final(self).selection()),
            keeps_data(*old(self), *final(self)),
            final(self).quitting() == old(self).quitting(),
    {
        proof {
            use_type_invariant(&*self);
        }
        let ghost entries = self.entries_view();
        let n_entries = self.entries().len();
        let ghost picks_f = filter_picks(self.filter, entries);
        let f = self.filter;
        let pred = (|e: &DiffEntry| -> (b: bool)
            ensures
                b == filter_passes(f, e.status),
            { f.matches(e) });
        let rows = match &self.diff_result {
            Some(r) => {
                let es = r.entries().as_slice();
                ViewRows::build(es, pred)
            },
            None => ViewRows::empty(),
        };
        proof {
            if self.diff_result is Some {
                let picks = choose|picks: Seq<bool>|
                    {
                        &&& picks.len() == entries.len()
                        &&& forall|i: int|
                            0 <= i < entries.len() && !(entries[i].status is DirectoryPresent)
                                ==> call_ensures(pred, (&entries[i],), #[trigger] picks[i])
                        &&& rows@ == build_rows(entries, picks)
                    };
                lemma_build_state_picks_agree(entries, picks, picks_f, entries.len() as int);
            } else {
                assert(build_rows(entries, picks_f) =~= Seq::<RowView>::empty());
            }
            lemma_build_state_rows(entries, picks_f, entries.len() as int);
        }
        self.selected = None;
        if rows.is_empty() {
            self.view_rows = rows;
            return;
        }
        let ghost rv = rows@;
        let found = match &old_path {
            Some(p) => {
                let same_path = (|e: &DiffEntry| -> (b: bool)
                    ensures
                        b == (e.relative_path@ == p@),
                    { e.relative_path.same_as(p) });
                let r = rows.find_entry_row(self.entries(), same_path);
                proof {
                    match r {
                        Some(k) => {
                            assert(pred_gave(rv, entries, same_path, k as int, true));
                            assert forall|j: int| 0 <= j < k implies !#[trigger] row_has_path(rv, entries, j, p@) by {
                                if row_has_path(rv, entries, j, p@) {
                                    assert(is_entry_row(rv, j));
                                    assert(pred_gave(rv, entries, same_path, j, false));
                                }
                            }
                        },
                        None => {
                            assert forall|k: int| !#[trigger] row_has_path(rv, entries, k, p@) by {
                                if row_has_path(rv, entries, k, p@) {
                                    assert(is_entry_row(rv, k));
                                    assert(pred_gave(rv, entries, same_path, k, false));
                                }
                            }
                        },
                    }
                }
                r
            },
            None => None,
        };
        let idx = match found {
            Some(k) => k,
            None => match old_idx {
                Some(i) => if i < rows.len() {
                    i
                } else {
                    rows.len() - 1
                },
                None => rows.first(),
            },
        };
        proof {
            if old_path is Some {
                let q = opt_path(old_path)->0;
                match found {
                    Some(k) => {
                        assert(row_has_path(rv, entries, k as int, q));
                        assert(exists|k2: int| #[trigger] row_has_path(rv, entries, k2, q));
                    },
                    None => {
                        assert(!exists|k: int| #[trigger] row_has_path(rv, entries, k, q));
                    },
                }
            }
        }
        self.view_rows = rows;
        self.selected = Some(idx);
    }
}


impl AppModel {
    /// The row cursor commands start from.
    fn cursor(&self) -> (c: usize)
        ensures
            c == cursor_of(self.selection()),
            c == 0 || c < self.rows_view().len(),
    {
        proof {
            use_type_invariant(self);
        }
        match self.selected {
            Some(s) => s,
            None => 0,
        }
    }

    /// Puts the cursor on row `s`.
    fn select_row(&mut self, s: usize)
        requires
            s == 0 || s < old(self).rows_view().len(),
        ensures
            final(self).selection() == Some(s),
            final(self).rows_view() == old(self).rows_view(),
            keeps_data(*old(self), *final(self)),
            final(self).quitting() == old(self).quitting(),
    {
        proof {
            use_type_invariant(&*self);
        }
        self.selected = Some(s);
    }

    /// Moves the cursor to the next (`forward`) or previous entry whose
    /// status has the kind of the selected entry's (`Different` when no
    /// entry is selected); it stays put when there is none.
    pub fn jump_to_matching(&mut self, forward: bool)
        ensures
            final(self).selection() matches Some(r) && jump_lands(
                old(self).rows_view(),
                old(self).entries_view(),
                cursor_of(old(self).selection()),
                jump_target(old(self).selected_entry()),
                forward,
                r as int,
            ),
            final(self).rows_view() == old(self).rows_view(),
            keeps_data(*old(self), *final(self)),
            final(self).quitting() == old(self).quitting(),
    {
        proof {
            use_type_invariant(&*self);
        }
        let cur = self.cursor();
        let _n_rows = self.view_rows.len();
        let target = match self.selected_diff_entry() {
            Some(e) => e.status.duplicate(),
            None => DiffStatus::Different,
        };
        let ghost rv = self.rows_view();
        let ghost entries = self.entries_view();
        let tref = &target;
        let same = (|e: &DiffEntry| -> (b: bool)
            ensures
                b == same_kind(e.status, *tref),
            { e.status.same_kind(tref) });
        let idx = if forward {
            self.view_rows.next_matching(self.entries(), cur, same)
        } else {
            self.view_rows.prev_matching(self.entries(), cur, same)
        };
        proof {
            let hi: int = if cur < idx { idx as int } else { rv.len() as int };
            if idx != cur {
                assert(pred_gave(rv, entries, same, idx as int, true));
                assert(kind_at(rv, entries, idx as int, target));
            }
            if forward {
                assert forall|k: int| cur < k < hi implies !#[trigger] kind_at(rv, entries, k, target) by {
                    if kind_at(rv, entries, k, target) {
                        assert(is_entry_row(rv, k));
                        assert(pred_gave(rv, entries, same, k, false));
                    }
                }
            } else {
                let lo2: int = if idx < cur { idx as int } else { -1 };
                assert forall|k: int| lo2 < k < cur && 0 <= k implies !#[trigger] kind_at(rv, entries, k, target) by {
                    if kind_at(rv, entries, k, target) {
                        assert(is_entry_row(rv, k));
                        assert(pred_gave(rv, entries, same, k, false));
                    }
                }
            }
        }
        self.select_row(idx);
    }
}


impl AppModel {
    /// Marks the start of a full scan (at startup and on F5): the phase
    /// becomes `Scanning` and the status message is cleared.
    pub fn begin_scan(&mut self)
        ensures
            final(self).state_view() == AppState::Scanning,
            final(self).message_view() is None,
            keeps_settings(*old(self), *final(self)),
            final(self).filter_view() == old(self).filter_view(),
            final(self).rows_view() == old(self).rows_view(),
            final(self).selection() == old(self).selection(),
            final(self).quitting() == old(self).quitting(),
    {
        proof {
            use_type_invariant(&*self);
        }
        self.state = AppState::Scanning;
        self.status_message = None;
    }

    /// Carries out a user command. What the caller must do afterwards
    /// (start a scan, run a tool) comes back as the effect.
    pub fn apply(&mut self, cmd: Command) -> (eff: Effect)
        ensures
            command_outcome(cmd, *old(self), *final(self), eff),
    {
        proof {
            use_type_invariant(&*self);
        }
        match cmd {
            Command::Quit => {
                self.should_quit = true;
                Effect::Nothing
            },
            Command::Rescan => {
                self.begin_scan();
                Effect::StartScan
            },
            Command::ToggleLeftOnly => {
                self.filter.show_left_only = !self.filter.show_left_only;
                self.rebuild_filtered();
                Effect::Nothing
            },
            Command::ToggleRightOnly => {
                self.filter.show_right_only = !self.filter.show_right_only;
                self.rebuild_filtered();
                Effect::Nothing
            },
            Command::ToggleDifferent => {
                self.filter.show_different = !self.filter.show_different;
                self.rebuild_filtered();
                Effect::Nothing
            },
            Command::ToggleIdentical => {
                self.filter.show_identical = !self.filter.show_identical;
                self.rebuild_filtered();
                Effect::Nothing
            },
            Command::JumpNextMatching => {
                self.jump_to_matching(true);
                Effect::Nothing
            },
            Command::JumpPrevMatching => {
                self.jump_to_matching(false);
                Effect::Nothing
            },
            Command::CursorDown => {
                let cur = self.cursor();
                let _n = self.view_rows.len();
                let r = self.view_rows.next(cur);
                self.select_row(r);
                Effect::Nothing
            },
            Command::CursorUp => {
                let cur = self.cursor();
                let r = self.view_rows.prev(cur);
                self.select_row(r);
                Effect::Nothing
            },
            Command::PageDown => {
                let cur = self.cursor();
                let _n = self.view_rows.len();
                let r = self.view_rows.nth_next(cur, self.page_height);
                self.select_row(r);
                Effect::Nothing
            },
            Command::PageUp => {
                let cur = self.cursor();
                let r = self.view_rows.nth_prev(cur, self.page_height);
                self.select_row(r);
                Effect::Nothing
            },
            Command::CursorHome => {
                let r = self.view_rows.first();
                self.select_row(r);
                Effect::Nothing
            },
            Command::CursorEnd => {
                let r = self.view_rows.last();
                self.select_row(r);
                Effect::Nothing
            },
            Command::Open => {
                let action = match self.selected_diff_entry() {
                    Some(e) => open_action_for(&self.config.tools, e),
                    None => None,
                };
                match action {
                    Some(a) => Effect::Launch(a),
                    None => Effect::Nothing,
                }
            },
            Command::ViewLeft => self.side_effect_of(Side::Left, false),
            Command::ViewRight => self.side_effect_of(Side::Right, false),
            Command::EditLeft => self.side_effect_of(Side::Left, true),
            Command::EditRight => self.side_effect_of(Side::Right, true),
        }
    }

    /// The effect of a side key on the selected entry.
    fn side_effect_of(&self, side: Side, edit: bool) -> (eff: Effect)
        ensures
            side_effect(self.config_view().tools, self.selected_entry(), side, edit, eff),
    {
        let action = match self.selected_diff_entry() {
            Some(e) => side_action(&self.config.tools, e, side, edit),
            None => None,
        };
        match action {
            Some(a) => Effect::Launch(a),
            None => Effect::Nothing,
        }
    }
}


/// Whether the rows are due for a rebuild while results stream in: always
/// once the comparison channel is done, else at most every 200 ms.
pub fn rebuild_due(channel_done: bool, elapsed_ms: u128) -> (b: bool)
    ensures
        b == (channel_done || elapsed_ms >= 200),
{
    channel_done || elapsed_ms >= 200
}

/// The phase after a comparison result arrives: one more file done.
pub open spec fn after_result(s: AppState) -> AppState {
    match s {
        AppState::Comparing { done, total } => AppState::Comparing { done: (done + 1) as usize, total },
        _ => s,
    }
}

impl AppModel {
    /// The scan thread went away without a result.
    pub fn scan_crashed(&mut self)
        ensures
            final(self).state_view() == AppState::Ready,
            final(self).message_view() == Some("Scan thread crashed unexpectedly"@),
            keeps_settings(*old(self), *final(self)),
            final(self).filter_view() == old(self).filter_view(),
            final(self).rows_view() == old(self).rows_view(),
            final(self).selection() == old(self).selection(),
            final(self).quitting() == old(self).quitting(),
    {
        proof {
            use_type_invariant(&*self);
        }
        self.state = AppState::Ready;
        self.status_message = Some(String::from_str("Scan thread crashed unexpectedly"));
    }

    /// The comparison channel is finished (done or gone).
    pub fn comparison_finished(&mut self)
        ensures
            final(self).state_view() == AppState::Ready,
            keeps_settings(*old(self), *final(self)),
            final(self).filter_view() == old(self).filter_view(),
            final(self).message_view() == old(self).message_view(),
            final(self).rows_view() == old(self).rows_view(),
            final(self).selection() == old(self).selection(),
            final(self).quitting() == old(self).quitting(),
    {
        proof {
            use_type_invariant(&*self);
        }
        self.state = AppState::Ready;
    }

    /// Both trees are scanned: builds the structural diff, rebuilds the rows
    /// (the cursor follows the entry it was on), and returns the paths whose
    /// contents still need comparing. The phase becomes `Comparing` over
    /// those paths, or `Ready` when there are none.
    pub fn scan_finished(&mut self, left: &EntryMap, right: &EntryMap, errors: usize) -> (pending: Vec<RelPath>)
        requires
            left.keys().len() + right.keys().len() <= usize::MAX,
        ensures
            final(self).has_result(),
            is_structural_diff(left@, right@, final(self).entries_view()),
            pending@.map_values(|p: RelPath| p@) == entry_paths(select_with(final(self).entries_view(), pending_kind())),
            final(self).state_view() == if pending.len() == 0 {
                AppState::Ready
            } else {
                AppState::Comparing { done: 0, total: pending.len() }
            },
            final(self).scan_errors_view() == errors,
            final(self).rows_view() == build_rows(final(self).entries_view(), filter_picks(old(self).filter_view(), final(self).entries_view())),
            rebuilt_selection(final(self).rows_view(), final(self).entries_view(), old(self).selection(), path_of(old(self).selected_entry()), final(self).selection()),
            final(self).filter_view() == old(self).filter_view(),
            final(self).config_view() == old(self).config_view(),
            final(self).name_view() == old(self).name_view(),
            final(self).page_view() == old(self).page_view(),
            final(self).message_view() == old(self).message_view(),
            final(self).quitting() == old(self).quitting(),
    {
        proof {
            use_type_invariant(&*self);
        }
        let old_idx = self.selected;
        let old_path: Option<RelPath> = match self.selected_diff_entry() {
            Some(e) => Some(e.relative_path.duplicate()),
            None => None,
        };
        let result = DiffEngine::diff_structure(left, right);
        let pending = result.pending_paths();
        self.selected = None;
        self.view_rows = ViewRows::empty();
        self.diff_result = Some(result);
        self.scan_errors = errors;
        self.state = if pending.len() == 0 {
            AppState::Ready
        } else {
            AppState::Comparing { done: 0, total: pending.len() }
        };
        self.rebuild_from(old_idx, old_path);
        pending
    }

    /// One comparison result arrived: the entry at `path` (if there is one)
    /// takes `status`, and the progress count goes up by one. The rows are
    /// not rebuilt here (see `rebuild_due`). Returns whether an entry changed.
    pub fn comparison_result(&mut self, path: &RelPath, status: DiffStatus) -> (changed: bool)
        requires
            old(self).state_view() matches AppState::Comparing { done, .. } ==> done < usize::MAX,
        ensures
            changed == exists|i: int| 0 <= i < old(self).entries_view().len()
                && #[trigger] old(self).entries_view()[i].relative_path@ == path@,
            changed ==> exists|i: int| 0 <= i < old(self).entries_view().len()
                && #[trigger] old(self).entries_view()[i].relative_path@ == path@
                && final(self).entries_view() == old(self).entries_view().update(
                    i,
                    DiffEntry { status, ..old(self).entries_view()[i] },
                ),
            !changed ==> final(self).entries_view() == old(self).entries_view(),
            final(self).state_view() == after_result(old(self).state_view()),
            final(self).has_result() == old(self).has_result(),
            final(self).filter_view() == old(self).filter_view(),
            final(self).rows_view() == old(self).rows_view(),
            final(self).selection() == old(self).selection(),
            final(self).config_view() == old(self).config_view(),
            final(self).name_view() == old(self).name_view(),
            final(self).page_view() == old(self).page_view(),
            final(self).message_view() == old(self).message_view(),
            final(self).scan_errors_view() == old(self).scan_errors_view(),
            final(self).quitting() == old(self).quitting(),
    {
        proof {
            use_type_invariant(&*self);
        }
        let ghost old_entries = self.entries_view();
        let found = match &self.diff_result {
            Some(r) => r.find_by_path(path),
            None => None,
        };
        let changed = match found {
            Some(idx) => {
                let sel = self.selected;
                let mut rows = ViewRows::empty();
                self.selected = None;
                std::mem::swap(&mut rows, &mut self.view_rows);
                let mut taken: Option<DiffResult> = None;
                std::mem::swap(&mut taken, &mut self.diff_result);
                let mut r = match taken {
                    Some(r) => r,
                    None => DiffResult::empty(),
                };
                r.update_entry_status(idx, status);
                let mut back = Some(r);
                std::mem::swap(&mut back, &mut self.diff_result);
                std::mem::swap(&mut rows, &mut self.view_rows);
                self.selected = sel;
                true
            },
            None => false,
        };
        match self.state {
            AppState::Comparing { done, total } => {
                self.state = AppState::Comparing { done: done + 1, total };
            },
            _ => {},
        }
        changed
    }

    /// The tool key hints for the current selection.
    pub fn tool_key_hints(&self) -> (h: ToolKeyHints)
        ensures
            h == hints_for(self.config_view().tools, self.selected_entry()),
    {
        tool_key_hints(&self.config.tools, self.selected_diff_entry())
    }
}

/// Most comparison messages handled per poll, so the view can refresh
/// between batches and show progress.
pub const MAX_MSGS_PER_POLL: usize = 2000;

/// Whether one more comparison message may be taken in this poll, after
/// `count` results were handled.
pub fn poll_budget_left(count: usize) -> (b: bool)
    ensures
        b == (count < MAX_MSGS_PER_POLL),
{
    count < MAX_MSGS_PER_POLL
}

/// What one attempt to take a message from the comparison channel found.
#[derive(Debug, Clone, Copy, PartialEq, Eq, Structural)]
pub enum Received {
    /// No message yet.
    Nothing,
    /// The channel is gone.
    Closed,
    /// A comparison result.
    Result,
    /// The end of the comparisons.
    Done,
}

/// What the poll does with what it found.
#[derive(Debug, Clone, Copy, PartialEq, Eq, Structural)]
pub enum PollAction {
    /// Stop polling for this frame.
    Stop,
    /// The comparison is over (`comparison_finished`); stop polling.
    FinishAndStop,
    /// Hand the message to the model (`on_compare_msg`), count it and go on.
    HandleAndContinue,
    /// Hand the message to the model (`on_compare_msg`) and stop polling.
    HandleAndStop,
}

/// The poll's decision for what one receive found: nothing yet stops the
/// poll; a closed channel ends the comparison; a result is handled and
/// counted; `Done` is handled and ends the poll.
pub fn poll_action(got: Received) -> (a: PollAction)
    ensures
        a == match got {
            Received::Nothing => PollAction::Stop,
            Received::Closed => PollAction::FinishAndStop,
            Received::Result => PollAction::HandleAndContinue,
            Received::Done => PollAction::HandleAndStop,
        },
{
    match got {
        Received::Nothing => PollAction::Stop,
        Received::Closed => PollAction::FinishAndStop,
        Received::Result => PollAction::HandleAndContinue,
        Received::Done => PollAction::HandleAndStop,
    }
}

impl AppModel {
    /// Handles the message of the finished scan (see `scan_finished`).
    pub fn on_scan_msg(&mut self, msg: ScanMsg) -> (pending: Vec<RelPath>)
        requires
            match msg {
                ScanMsg::Done { left_map, right_map, .. } => left_map.keys().len() + right_map.keys().len() <= usize::MAX,
            },
        ensures
            match msg {
                ScanMsg::Done { left_map, right_map, errors } => {
                    &&& final(self).has_result()
                    &&& is_structural_diff(left_map@, right_map@, final(self).entries_view())
                    &&& pending@.map_values(|p: RelPath| p@) == entry_paths(select_with(final(self).entries_view(), pending_kind()))
                    &&& final(self).state_view() == if pending.len() == 0 {
                        AppState::Ready
                    } else {
                        AppState::Comparing { done: 0, total: pending.len() }
                    }
                    &&& final(self).scan_errors_view() == errors
                    &&& final(self).rows_view() == build_rows(final(self).entries_view(), filter_picks(old(self).filter_view(), final(self).entries_view()))
                    &&& rebuilt_selection(final(self).rows_view(), final(self).entries_view(), old(self).selection(), path_of(old(self).selected_entry()), final(self).selection())
                },
            },
            final(self).filter_view() == old(self).filter_view(),
            final(self).config_view() == old(self).config_view(),
            final(self).name_view() == old(self).name_view(),
            final(self).page_view() == old(self).page_view(),
            final(self).message_view() == old(self).message_view(),
            final(self).quitting() == old(self).quitting(),
    {
        match msg {
            ScanMsg::Done { left_map, right_map, errors } => self.scan_finished(&left_map, &right_map, errors),
        }
    }

    /// Handles one comparison message: a result updates its entry and the
    /// progress; `Done` ends the phase. Returns whether the view needs a
    /// refresh.
    pub fn on_compare_msg(&mut self, msg: CompareMsg) -> (changed: bool)
        requires
            old(self).state_view() matches AppState::Comparing { done, .. } ==> done < usize::MAX,
        ensures
            match msg {
                CompareMsg::Result { path, status } => {
                    &&& changed == exists|i: int| 0 <= i < old(self).entries_view().len()
                        && #[trigger] old(self).entries_view()[i].relative_path@ == path@
                    &&& changed ==> exists|i: int| 0 <= i < old(self).entries_view().len()
                        && #[trigger] old(self).entries_view()[i].relative_path@ == path@
                        && final(self).entries_view() == old(self).entries_view().update(
                            i,
                            DiffEntry { status, ..old(self).entries_view()[i] },
                        )
                    &&& !changed ==> final(self).entries_view() == old(self).entries_view()
                    &&& final(self).state_view() == after_result(old(self).state_view())
                },
                CompareMsg::Done => {
                    &&& changed
                    &&& final(self).entries_view() == old(self).entries_view()
                    &&& final(self).state_view() == AppState::Ready
                },
            },
            final(self).has_result() == old(self).has_result(),
            final(self).filter_view() == old(self).filter_view(),
            final(self).rows_view() == old(self).rows_view(),
            final(self).selection() == old(self).selection(),
            final(self).config_view() == old(self).config_view(),
            final(self).name_view() == old(self).name_view(),
            final(self).page_view() == old(self).page_view(),
            final(self).message_view() == old(self).message_view(),
            final(self).scan_errors_view() == old(self).scan_errors_view(),
            final(self).quitting() == old(self).quitting(),
    {
        match msg {
            CompareMsg::Result { path, status } => self.comparison_result(&path, status),
            CompareMsg::Done => {
                self.comparison_finished();
                true
            },
        }
    }
}

/// Toggling the same filter twice gives the filter back, and the rows are
/// then exactly those the filter before the toggles gives for the entries.
pub proof fn law_toggle_twice_restores_view(
    cmd: Command,
    a: AppModel,
    b: AppModel,
    c: AppModel,
    first: Effect,
    second: Effect,
)
    requires
        cmd is ToggleLeftOnly || cmd is ToggleRightOnly || cmd is ToggleDifferent || cmd is ToggleIdentical,
        command_outcome(cmd, a, b, first),
        command_outcome(cmd, b, c, second),
    ensures
        c.filter_view() == a.filter_view(),
        c.entries_view() == a.entries_view(),
        c.rows_view() == build_rows(a.entries_view(), filter_picks(a.filter_view(), a.entries_view())),
{
    assert(c.filter_view() == a.filter_view());
}

/// After a filter toggle the rows show exactly the entries the new filter
/// lets through (directories present on both sides have folder headers
/// instead): no other entry has a row, and each such entry has one.
pub proof fn law_toggle_shows_exactly_filtered(cmd: Command, a: AppModel, b: AppModel, eff: Effect)
    requires
        cmd is ToggleLeftOnly || cmd is ToggleRightOnly || cmd is ToggleDifferent || cmd is ToggleIdentical,
        command_outcome(cmd, a, b, eff),
        a.entries_view().len() <= usize::MAX,
    ensures
        forall|k: int|
            0 <= k < b.rows_view().len() ==> (#[trigger] b.rows_view()[k] matches RowView::Entry(idx) ==> idx
                < a.entries_view().len() && !(a.entries_view()[idx as int].status is DirectoryPresent)
                && filter_passes(b.filter_view(), a.entries_view()[idx as int].status)),
        forall|i: int|
            0 <= i < a.entries_view().len() && !(a.entries_view()[i].status is DirectoryPresent) && filter_passes(
                b.filter_view(),
                #[trigger] a.entries_view()[i].status,
            ) ==> exists|k: int| 0 <= k < b.rows_view().len() && b.rows_view()[k] == RowView::Entry(i as usize),
{
    let entries = a.entries_view();
    let picks = filter_picks(b.filter_view(), entries);
    crate::ui::panel::law_rows_list_visible_entries(entries, picks);
    assert forall|i: int|
        0 <= i < entries.len() && !(entries[i].status is DirectoryPresent) && filter_passes(
            b.filter_view(),
            #[trigger] entries[i].status,
        ) implies exists|k: int| 0 <= k < b.rows_view().len() && b.rows_view()[k] == RowView::Entry(i as usize) by {
        assert(picks[i]);
    }
}

/// `n` and `N` with an entry selected go to the nearest entry row after
/// (`n`) or before (`N`) the cursor whose entry has the same kind of status
/// as the selected entry, skipping entries of other kinds; the cursor stays
/// when there is none.
pub proof fn law_jump_follows_selected_status(cmd: Command, a: AppModel, b: AppModel, eff: Effect, e: DiffEntry)
    requires
        cmd is JumpNextMatching || cmd is JumpPrevMatching,
        command_outcome(cmd, a, b, eff),
        a.selected_entry() == Some(e),
    ensures
        b.selection() is Some,
        b.selection()->0 != cursor_of(a.selection()) ==> {
            let rows = a.rows_view();
            let entries = a.entries_view();
            let cur = cursor_of(a.selection());
            let r = b.selection()->0 as int;
            &&& kind_at(rows, entries, r, e.status)
            &&& if cmd is JumpNextMatching { cur < r } else { r < cur }
            &&& forall|k: int|
                (if cmd is JumpNextMatching { cur < k < r } else { r < k < cur }) ==> !#[trigger] kind_at(
                    rows,
                    entries,
                    k,
                    e.status,
                )
        },
        b.selection()->0 == cursor_of(a.selection()) ==> forall|k: int|
            (if cmd is JumpNextMatching {
                cursor_of(a.selection()) < k < a.rows_view().len()
            } else {
                0 <= k < cursor_of(a.selection())
            }) ==> !#[trigger] kind_at(a.rows_view(), a.entries_view(), k, e.status),
{
}

/// Cursor commands land on entry rows, never on folder headers: after a
/// move the cursor is on an entry row, or stays on the row it started from
/// when there is no entry row to go to (Home and End go to row 0 when the
/// view has no entry row at all).
pub proof fn law_cursor_lands_on_entry_rows(cmd: Command, a: AppModel, b: AppModel, eff: Effect)
    requires
        cmd is CursorDown || cmd is CursorUp || cmd is PageDown || cmd is PageUp || cmd is CursorHome
            || cmd is CursorEnd || cmd is JumpNextMatching || cmd is JumpPrevMatching,
        command_outcome(cmd, a, b, eff),
    ensures
        b.selection() matches Some(r) && (is_entry_row(a.rows_view(), r as int) || r == cursor_of(a.selection())
            || (r == 0 && forall|k: int| 0 <= k < a.rows_view().len() ==> !#[trigger] is_entry_row(a.rows_view(), k))),
        b.rows_view() == a.rows_view(),
        eff is Nothing,
{
    let rows = a.rows_view();
    let r = b.selection()->0;
    if cmd is JumpNextMatching || cmd is JumpPrevMatching {
        let target = jump_target(a.selected_entry());
        if r as int != cursor_of(a.selection()) {
            assert(kind_at(rows, a.entries_view(), r as int, target));
        }
    }
}

} // verus!
