use dircmp::app::external::ToolKeyHints;
use dircmp::engine::diff::{DiffEntry, DiffFilter, DiffResult, DiffStatus, DiffEngine};
use dircmp::engine::scanner::{Entry, EntryMap};
use dircmp::relpath::RelPath;
use dircmp::ui::overlay::{popup_area, Area};
use dircmp::ui::panel::{
    entry_styles, entry_texts, fit, header_row_text, paths_header, scroll_window, StyleRole, ViewRow,
    ViewRows,
};
use dircmp::ui::statusbar::{KeyStyle, StatusBar};
use dircmp::ui::AppState;

// ---------------------------------------------------------------------------
// Helpers
// ---------------------------------------------------------------------------

fn file_entry(path: &str, status: DiffStatus) -> DiffEntry {
    DiffEntry { relative_path: RelPath::parse(path), status, is_dir: false }
}

fn dir_entry(path: &str) -> DiffEntry {
    DiffEntry { relative_path: RelPath::parse(path), status: DiffStatus::DirectoryPresent, is_dir: true }
}

fn all_match(_: &DiffEntry) -> bool {
    true
}

fn header_labels(rows: &ViewRows) -> Vec<String> {
    rows.as_slice()
        .iter()
        .filter_map(|r| if let ViewRow::FolderHeader(s) = r { Some(s.clone()) } else { None })
        .collect()
}

fn entry_indices(rows: &ViewRows) -> Vec<usize> {
    rows.as_slice().iter().filter_map(|r| if let ViewRow::Entry(i) = r { Some(*i) } else { None }).collect()
}

fn two_entry_rows() -> ViewRows {
    ViewRows::from_rows(vec![
        ViewRow::FolderHeader("./".to_string()),
        ViewRow::Entry(0),
        ViewRow::FolderHeader("sub/".to_string()),
        ViewRow::Entry(1),
    ])
}

// ---------------------------------------------------------------------------
// Building rows
// ---------------------------------------------------------------------------

#[test]
fn build_rows_empty_input() {
    let rows = ViewRows::build(&[], all_match);
    assert!(rows.is_empty());
}

#[test]
fn build_rows_root_level_files_get_dot_header() {
    let entries = vec![file_entry("a.txt", DiffStatus::Identical), file_entry("b.txt", DiffStatus::Different)];
    let rows = ViewRows::build(&entries, all_match);
    assert_eq!(header_labels(&rows), vec!["./".to_string()]);
    assert_eq!(entry_indices(&rows), vec![0, 1]);
}

#[test]
fn build_rows_subdirectory_files_get_dir_header() {
    let entries = vec![file_entry("src/main.rs", DiffStatus::Identical), file_entry("src/lib.rs", DiffStatus::Different)];
    let rows = ViewRows::build(&entries, all_match);
    assert_eq!(header_labels(&rows), vec!["src/".to_string()]);
    assert_eq!(entry_indices(&rows), vec![0, 1]);
}

#[test]
fn build_rows_multiple_directories_emit_separate_headers() {
    let entries = vec![
        file_entry("a.txt", DiffStatus::Identical),
        file_entry("src/lib.rs", DiffStatus::Different),
        file_entry("tests/foo.rs", DiffStatus::LeftOnly),
    ];
    let rows = ViewRows::build(&entries, all_match);
    assert_eq!(header_labels(&rows), vec!["./", "src/", "tests/"]);
    assert_eq!(entry_indices(&rows), vec![0, 1, 2]);
}

#[test]
fn build_rows_directory_entries_are_skipped() {
    let entries = vec![dir_entry("src"), file_entry("src/lib.rs", DiffStatus::Identical)];
    let rows = ViewRows::build(&entries, all_match);
    assert!(!entry_indices(&rows).contains(&0));
    assert!(entry_indices(&rows).contains(&1));
}

#[test]
fn build_rows_filter_excludes_non_matching_entries() {
    let entries = vec![
        file_entry("a.txt", DiffStatus::Identical),
        file_entry("b.txt", DiffStatus::Different),
        file_entry("c.txt", DiffStatus::Identical),
    ];
    let rows = ViewRows::build(&entries, |e: &DiffEntry| e.status == DiffStatus::Different);
    assert_eq!(entry_indices(&rows), vec![1]);
    assert_eq!(header_labels(&rows), vec!["./".to_string()]);
}

#[test]
fn build_rows_filter_removes_header_when_no_entries_pass() {
    let entries = vec![file_entry("a.txt", DiffStatus::Identical)];
    let rows = ViewRows::build(&entries, |e: &DiffEntry| e.status == DiffStatus::Different);
    assert!(rows.is_empty());
}

#[test]
fn build_rows_stores_original_indices() {
    let entries = vec![dir_entry("sub"), file_entry("sub/x.rs", DiffStatus::LeftOnly)];
    let rows = ViewRows::build(&entries, all_match);
    assert_eq!(entry_indices(&rows), vec![1]);
}

#[test]
fn build_rows_one_sided_directories_stay_visible() {
    let entries = vec![
        DiffEntry { relative_path: RelPath::parse("only"), status: DiffStatus::LeftOnly, is_dir: true },
        file_entry("only/a.txt", DiffStatus::LeftOnly),
    ];
    let rows = ViewRows::build(&entries, all_match);
    assert_eq!(entry_indices(&rows), vec![0, 1]);
    assert_eq!(header_labels(&rows), vec!["./", "only/"]);
}

// ---------------------------------------------------------------------------
// Navigation
// ---------------------------------------------------------------------------

#[test]
fn next_entry_advances_past_headers() {
    let rows = two_entry_rows();
    assert_eq!(rows.next(1), 3);
}

#[test]
fn next_entry_at_last_stays() {
    let rows = two_entry_rows();
    assert_eq!(rows.next(3), 3);
}

#[test]
fn prev_entry_retreats_past_headers() {
    let rows = two_entry_rows();
    assert_eq!(rows.prev(3), 1);
}

#[test]
fn prev_entry_at_first_stays() {
    let rows = two_entry_rows();
    assert_eq!(rows.prev(1), 1);
}

#[test]
fn first_entry_skips_leading_header() {
    let rows = two_entry_rows();
    assert_eq!(rows.first(), 1);
}

#[test]
fn last_entry_skips_trailing_header() {
    let rows = ViewRows::from_rows(vec![
        ViewRow::FolderHeader("./".to_string()),
        ViewRow::Entry(0),
        ViewRow::Entry(1),
        ViewRow::FolderHeader("sub/".to_string()),
    ]);
    assert_eq!(rows.last(), 2);
}

#[test]
fn first_and_last_entry_on_empty_rows() {
    let rows = ViewRows::from_rows(vec![]);
    assert_eq!(rows.first(), 0);
    assert_eq!(rows.last(), 0);
}

#[test]
fn first_and_last_entry_single_entry() {
    let rows = ViewRows::from_rows(vec![ViewRow::FolderHeader("./".to_string()), ViewRow::Entry(0)]);
    assert_eq!(rows.first(), 1);
    assert_eq!(rows.last(), 1);
}

#[test]
fn page_moves_count_entry_rows() {
    let rows = ViewRows::from_rows(vec![
        ViewRow::FolderHeader("./".to_string()),
        ViewRow::Entry(0),
        ViewRow::Entry(1),
        ViewRow::FolderHeader("sub/".to_string()),
        ViewRow::Entry(2),
        ViewRow::Entry(3),
    ]);
    assert_eq!(rows.nth_next(1, 2), 4);
    assert_eq!(rows.nth_next(1, 10), 5);
    assert_eq!(rows.nth_next(5, 3), 5);
    assert_eq!(rows.nth_prev(5, 2), 2);
    assert_eq!(rows.nth_prev(5, 10), 1);
    assert_eq!(rows.nth_prev(1, 1), 1);
}

#[test]
fn matching_jumps_skip_other_statuses() {
    let entries = vec![
        file_entry("a.txt", DiffStatus::Different),
        file_entry("b.txt", DiffStatus::Identical),
        file_entry("c.txt", DiffStatus::Different),
    ];
    let rows = ViewRows::build(&entries, all_match);
    let diff = |e: &DiffEntry| e.status == DiffStatus::Different;
    assert_eq!(rows.next_matching(&entries, 1, diff), 3);
    assert_eq!(rows.next_matching(&entries, 3, diff), 3);
    assert_eq!(rows.prev_matching(&entries, 3, diff), 1);
    assert_eq!(rows.find_entry_row(&entries, |e: &DiffEntry| e.relative_path.display() == "b.txt"), Some(2));
    assert_eq!(rows.find_entry_row(&entries, |e: &DiffEntry| e.relative_path.display() == "z.txt"), None);
}

#[test]
fn scroll_window_keeps_selection_visible() {
    assert_eq!(scroll_window(Some(0), 0, 10, 100), (0, 10, 0));
    assert_eq!(scroll_window(Some(15), 0, 10, 100), (6, 16, 15));
    assert_eq!(scroll_window(Some(3), 6, 10, 100), (3, 13, 3));
    assert_eq!(scroll_window(Some(500), 0, 10, 100), (90, 100, 99));
    assert_eq!(scroll_window(None, 4, 10, 5), (0, 5, 0));
}

// ---------------------------------------------------------------------------
// Cell texts
// ---------------------------------------------------------------------------

#[test]
fn fit_pads_short_strings_to_display_width() {
    assert_eq!(fit("abc", 6), "abc   ");
    assert_eq!(fit("日本", 6), "日本  ");
}

#[test]
fn fit_truncates_to_display_width_with_ellipsis() {
    assert_eq!(fit("abcdefgh", 5), "abcd…");
    let s = fit("日本語表記", 5);
    assert_eq!(s, "日本…");
    assert_eq!(unicode_width::UnicodeWidthStr::width(s.as_str()), 5);
}

#[test]
fn fit_pads_when_wide_char_straddles_the_cut() {
    let s = fit("日本語", 4);
    assert_eq!(s, "日… ");
    assert_eq!(unicode_width::UnicodeWidthStr::width(s.as_str()), 4);
}

#[test]
fn fit_exact_width_is_unchanged() {
    assert_eq!(fit("abcd", 4), "abcd");
    assert_eq!(fit("日本", 4), "日本");
}

#[test]
fn fit_to_zero_width() {
    assert_eq!(fit("abc", 0), "…");
    assert_eq!(fit("", 0), "");
}

#[test]
fn entry_cells_show_names_on_present_sides() {
    let left = file_entry("sub/a.txt", DiffStatus::LeftOnly);
    let (l, sym, r) = entry_texts(&left, 6, 6);
    assert_eq!(l, "a.txt ");
    assert_eq!(sym, "◄");
    assert_eq!(r, "      ");
    let d = DiffEntry { relative_path: RelPath::parse("docs"), status: DiffStatus::RightOnly, is_dir: true };
    let (l, sym, r) = entry_texts(&d, 3, 6);
    assert_eq!(l, "   ");
    assert_eq!(sym, "►");
    assert_eq!(r, "docs/ ");
}

#[test]
fn status_symbols_follow_the_legend() {
    assert_eq!(entry_styles(&DiffStatus::Pending).0, "?");
    assert_eq!(entry_styles(&DiffStatus::LeftOnly), ("◄", StyleRole::LeftOnly, StyleRole::LeftOnly, StyleRole::Identical));
    assert_eq!(entry_styles(&DiffStatus::RightOnly), ("►", StyleRole::RightOnly, StyleRole::Identical, StyleRole::RightOnly));
    assert_eq!(entry_styles(&DiffStatus::Different).0, "≠");
    assert_eq!(entry_styles(&DiffStatus::Identical).0, "=");
    assert_eq!(entry_styles(&DiffStatus::TypeConflict).0, "!");
    assert_eq!(entry_styles(&DiffStatus::Error("x".to_string())).0, "✗");
}

#[test]
fn header_lines() {
    assert_eq!(header_row_text("src/", 8), " src/   ");
    assert_eq!(paths_header("/left", "/right", 19), " /left     /right  ");
    assert_eq!(paths_header("/a/long/left/path", "/r", 13), " /a/l…  /r   ");
}

// ---------------------------------------------------------------------------
// Status bar
// ---------------------------------------------------------------------------

fn sample_result() -> DiffResult {
    let mut left = EntryMap::new();
    let mut right = EntryMap::new();
    for p in ["a.txt", "b.txt", "c.txt"] {
        left.insert(RelPath::parse(p), Entry { is_dir: false });
    }
    right.insert(RelPath::parse("a.txt"), Entry { is_dir: false });
    right.insert(RelPath::parse("d.txt"), Entry { is_dir: false });
    let mut r = DiffEngine::diff_structure(&left, &right);
    let i = r.find_by_path(&RelPath::parse("a.txt")).unwrap();
    r.update_entry_status(i, DiffStatus::Identical);
    r
}

#[test]
fn stats_line_per_phase() {
    assert_eq!(StatusBar::stats_text(AppState::Idle, None, "hash", 0, None), " Press F5 to compare folders");
    assert_eq!(StatusBar::stats_text(AppState::Scanning, None, "hash", 0, None), " ⏳ Scanning…");
    assert_eq!(
        StatusBar::stats_text(AppState::Comparing { done: 3, total: 8 }, None, "hash", 0, None),
        " ⏳ Comparing files… (3/8) 37%"
    );
    assert_eq!(
        StatusBar::stats_text(AppState::Comparing { done: 0, total: 0 }, None, "hash", 0, None),
        " ⏳ Comparing files… (0/0) 0%"
    );
    assert_eq!(StatusBar::stats_text(AppState::Ready, None, "hash", 0, None), " Ready");
    let r = sample_result();
    assert_eq!(
        StatusBar::stats_text(AppState::Ready, Some(&r), "hash (SHA-256)", 0, None),
        " Entries: 4  Different: 0  Left only: 2  Right only: 1  Identical: 1  | hash (SHA-256)"
    );
    assert_eq!(
        StatusBar::stats_text(AppState::Ready, Some(&r), "byte-by-byte", 12, None),
        " Entries: 4  Different: 0  Left only: 2  Right only: 1  Identical: 1  | byte-by-byte  ⚠ 12 scan errors"
    );
    assert_eq!(
        StatusBar::stats_text(AppState::Ready, Some(&r), "hash", 0, Some("Tool exited with 1")),
        " ⚠ Tool exited with 1"
    );
}

#[test]
fn stats_line_large_counts_do_not_overflow() {
    let s = StatusBar::stats_text(AppState::Comparing { done: usize::MAX, total: usize::MAX }, None, "", 0, None);
    assert_eq!(s, format!(" ⏳ Comparing files… ({}/{}) 100%", usize::MAX, usize::MAX));
}

fn texts(v: &[(&'static str, KeyStyle)]) -> Vec<&'static str> {
    v.iter().map(|p| p.0).collect()
}

#[test]
fn key_hints_show_only_configured_tools() {
    let none = ToolKeyHints {
        diff_tool_configured: false,
        viewer_configured: false,
        editor_configured: false,
        enter_enabled: false,
        has_left: false,
        has_right: false,
    };
    let f = DiffFilter::default();
    let hints = StatusBar::key_hints(&f, &none);
    assert_eq!(hints.len(), 18);
    assert!(!texts(&hints).contains(&"  Enter"));
    assert!(!texts(&hints).contains(&"  ["));
    assert_eq!(hints[0], (" F5", KeyStyle::Key));
    assert_eq!(hints[17], (":Quit ", KeyStyle::Label));
    let all = ToolKeyHints {
        diff_tool_configured: true,
        viewer_configured: true,
        editor_configured: true,
        enter_enabled: true,
        has_left: true,
        has_right: false,
    };
    let f2 = DiffFilter { show_identical: false, ..DiffFilter::default() };
    let hints = StatusBar::key_hints(&f2, &all);
    assert_eq!(hints.len(), 28);
    assert_eq!(hints[8], ("  i", KeyStyle::Inactive));
    assert_eq!(hints[2], ("  l", KeyStyle::Key));
    assert_eq!(hints[16], ("  Enter", KeyStyle::Key));
    assert_eq!(hints[17], (":Diff", KeyStyle::Label));
    assert_eq!(hints[18], ("  [", KeyStyle::Key));
    assert_eq!(hints[19], ("/", KeyStyle::Inactive));
    assert_eq!(hints[20], ("]", KeyStyle::Inactive));
    assert_eq!(hints[21], (":View", KeyStyle::Label));
    assert_eq!(hints[22], ("  {", KeyStyle::Key));
}

// ---------------------------------------------------------------------------
// Overlay
// ---------------------------------------------------------------------------

#[test]
fn popup_is_centred_and_clamped() {
    let area = Area { x: 0, y: 0, width: 80, height: 24 };
    assert_eq!(popup_area(area, 10), Some(Area { x: 33, y: 10, width: 14, height: 3 }));
    let small = Area { x: 2, y: 1, width: 6, height: 2 };
    assert_eq!(popup_area(small, 10), Some(Area { x: 2, y: 1, width: 6, height: 2 }));
    assert_eq!(popup_area(Area { x: 0, y: 0, width: 0, height: 5 }, 3), None);
}

#[test]
fn page_moves_by_zero_rows_stay_put() {
    let rows = ViewRows::from_rows(vec![ViewRow::FolderHeader("./".to_string()), ViewRow::Entry(0)]);
    assert_eq!(rows.nth_next(0, 0), 0);
    assert_eq!(rows.nth_prev(1, 0), 1);
    assert_eq!(rows.nth_next(0, 1), 1);
}
