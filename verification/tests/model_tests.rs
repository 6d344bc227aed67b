use dircmp::app::command::Command;
use dircmp::app::model::{poll_action, poll_budget_left, rebuild_due, AppModel, Effect, PollAction, Received, MAX_MSGS_PER_POLL};
use dircmp::config::Config;
use dircmp::engine::diff::DiffStatus;
use dircmp::engine::pipeline::{CompareMsg, ScanMsg};
use dircmp::engine::scanner::{Entry, EntryMap};
use dircmp::relpath::RelPath;
use dircmp::tools::ExternalAction;
use dircmp::ui::panel::ViewRow;
use dircmp::ui::AppState;

fn maps() -> (EntryMap, EntryMap) {
    let mut left = EntryMap::new();
    let mut right = EntryMap::new();
    for (p, d) in [("a.txt", false), ("only_left.txt", false), ("sub", true), ("sub/x.rs", false)] {
        left.insert(RelPath::parse(p), Entry { is_dir: d });
    }
    for (p, d) in [("a.txt", false), ("only_right.txt", false), ("sub", true), ("sub/x.rs", false)] {
        right.insert(RelPath::parse(p), Entry { is_dir: d });
    }
    (left, right)
}

fn scanned(config: Config) -> AppModel {
    let mut m = AppModel::new(config);
    let (left, right) = maps();
    let pending = m.scan_finished(&left, &right, 0);
    let names: Vec<String> = pending.iter().map(|p| p.display()).collect();
    assert_eq!(names, vec!["a.txt", "sub/x.rs"]);
    m
}

fn selected_path(m: &AppModel) -> Option<String> {
    m.selected_diff_entry().map(|e| e.relative_path.display())
}

fn row_kinds(m: &AppModel) -> Vec<String> {
    m.view_rows()
        .as_slice()
        .iter()
        .map(|r| match r {
            ViewRow::FolderHeader(h) => format!("H {h}"),
            ViewRow::Entry(i) => format!("E {}", m.entries()[*i].relative_path.display()),
        })
        .collect()
}

#[test]
fn new_model_waits_for_the_scan() {
    let m = AppModel::new(Config::default());
    assert_eq!(m.state(), AppState::Scanning);
    assert_eq!(m.selected_index(), Some(0));
    assert!(m.view_rows().is_empty());
    assert!(m.diff_result().is_none());
    assert!(!m.should_quit());
    assert_eq!(m.comparator_name(), "hash (SHA-256)");
}

#[test]
fn finished_scan_builds_rows_and_starts_comparing() {
    let m = scanned(Config::default());
    assert_eq!(
        row_kinds(&m),
        vec!["H ./", "E a.txt", "E only_left.txt", "E only_right.txt", "H sub/", "E sub/x.rs"]
    );
    assert_eq!(m.state(), AppState::Comparing { done: 0, total: 2 });
    assert_eq!(m.selected_index(), Some(0));
    assert_eq!(selected_path(&m), None);
}

#[test]
fn scan_without_pending_files_is_ready() {
    let mut m = AppModel::new(Config::default());
    let mut left = EntryMap::new();
    left.insert(RelPath::parse("x"), Entry { is_dir: false });
    let pending = m.on_scan_msg(ScanMsg::Done { left_map: left, right_map: EntryMap::new(), errors: 3 });
    assert!(pending.is_empty());
    assert_eq!(m.state(), AppState::Ready);
    assert_eq!(m.scan_errors(), 3);
}

#[test]
fn cursor_moves_skip_headers() {
    let mut m = scanned(Config::default());
    assert!(matches!(m.apply(Command::CursorDown), Effect::Nothing));
    assert_eq!(m.selected_index(), Some(1));
    m.apply(Command::CursorEnd);
    assert_eq!(m.selected_index(), Some(5));
    m.apply(Command::CursorUp);
    assert_eq!(m.selected_index(), Some(3));
    m.apply(Command::CursorHome);
    assert_eq!(m.selected_index(), Some(1));
    m.set_page_height(2);
    m.apply(Command::PageDown);
    assert_eq!(m.selected_index(), Some(3));
    m.apply(Command::PageUp);
    assert_eq!(m.selected_index(), Some(1));
}

#[test]
fn cursor_follows_entry_when_filter_changes() {
    let mut m = scanned(Config::default());
    m.apply(Command::CursorDown);
    m.apply(Command::CursorDown);
    m.apply(Command::CursorDown);
    assert_eq!(selected_path(&m).as_deref(), Some("only_right.txt"));
    m.apply(Command::ToggleLeftOnly);
    assert!(!m.filter().show_left_only);
    assert_eq!(row_kinds(&m), vec!["H ./", "E a.txt", "E only_right.txt", "H sub/", "E sub/x.rs"]);
    assert_eq!(m.selected_index(), Some(2));
    assert_eq!(selected_path(&m).as_deref(), Some("only_right.txt"));
    m.apply(Command::ToggleLeftOnly);
    assert!(m.filter().show_left_only);
    assert_eq!(m.selected_index(), Some(3));
    assert_eq!(row_kinds(&m).len(), 6);
}

#[test]
fn hidden_entry_falls_back_to_clamped_row() {
    let mut m = scanned(Config::default());
    m.apply(Command::CursorEnd);
    m.apply(Command::CursorUp);
    assert_eq!(selected_path(&m).as_deref(), Some("only_right.txt"));
    m.apply(Command::ToggleRightOnly);
    assert_eq!(row_kinds(&m), vec!["H ./", "E a.txt", "E only_left.txt", "H sub/", "E sub/x.rs"]);
    assert_eq!(m.selected_index(), Some(3));
}

#[test]
fn filtering_everything_out_clears_selection() {
    let mut m = scanned(Config::default());
    m.comparison_result(&RelPath::parse("a.txt"), DiffStatus::Identical);
    m.comparison_result(&RelPath::parse("sub/x.rs"), DiffStatus::Identical);
    m.apply(Command::ToggleLeftOnly);
    m.apply(Command::ToggleRightOnly);
    m.apply(Command::ToggleIdentical);
    assert!(m.view_rows().is_empty());
    assert_eq!(m.selected_index(), None);
    m.apply(Command::CursorDown);
    assert_eq!(m.selected_index(), Some(0));
}

#[test]
fn comparison_results_update_entries_and_progress() {
    let mut m = scanned(Config::default());
    assert!(m.comparison_result(&RelPath::parse("a.txt"), DiffStatus::Different));
    assert_eq!(m.state(), AppState::Comparing { done: 1, total: 2 });
    assert_eq!(m.entries()[0].status, DiffStatus::Different);
    assert!(!m.on_compare_msg(CompareMsg::Result { path: RelPath::parse("nope"), status: DiffStatus::Identical }));
    assert_eq!(m.state(), AppState::Comparing { done: 2, total: 2 });
    assert!(m.on_compare_msg(CompareMsg::Done));
    assert_eq!(m.state(), AppState::Ready);
    assert_eq!(m.diff_result().unwrap().count_different(), 1);
}

#[test]
fn jump_goes_to_same_status() {
    let mut m = scanned(Config::default());
    m.comparison_result(&RelPath::parse("a.txt"), DiffStatus::Different);
    m.comparison_result(&RelPath::parse("sub/x.rs"), DiffStatus::Different);
    m.rebuild_filtered();
    // No entry selected yet: jumps to the next `Different` entry.
    m.apply(Command::JumpNextMatching);
    assert_eq!(m.selected_index(), Some(1));
    m.apply(Command::JumpNextMatching);
    assert_eq!(m.selected_index(), Some(5));
    m.apply(Command::JumpNextMatching);
    assert_eq!(m.selected_index(), Some(5));
    m.apply(Command::JumpPrevMatching);
    assert_eq!(m.selected_index(), Some(1));
}

#[test]
fn quit_and_rescan() {
    let mut m = scanned(Config::default());
    m.set_status_message(Some("Tool exited with 1".to_string()));
    assert!(matches!(m.apply(Command::Rescan), Effect::StartScan));
    assert_eq!(m.state(), AppState::Scanning);
    assert!(m.status_message().is_none());
    assert!(matches!(m.apply(Command::Quit), Effect::Nothing));
    assert!(m.should_quit());
}

#[test]
fn scan_crash_is_reported() {
    let mut m = AppModel::new(Config::default());
    m.scan_crashed();
    assert_eq!(m.state(), AppState::Ready);
    assert_eq!(m.status_message().map(|s| s.as_str()), Some("Scan thread crashed unexpectedly"));
    m.clear_status_message();
    assert!(m.status_message().is_none());
}

fn with_tools() -> Config {
    let mut c = Config::default();
    c.tools.viewer = Some("bat --paging=always".to_string());
    c.tools.diff_tool = Some("nvim -d".to_string());
    c
}

#[test]
fn open_and_side_keys_queue_actions() {
    let mut m = scanned(with_tools());
    // Header row: nothing to open.
    assert!(matches!(m.apply(Command::Open), Effect::Nothing));
    m.apply(Command::CursorDown);
    m.apply(Command::CursorDown);
    assert_eq!(selected_path(&m).as_deref(), Some("only_left.txt"));
    match m.apply(Command::Open) {
        Effect::Launch(ExternalAction::ViewLeft(p)) => assert_eq!(p.display(), "only_left.txt"),
        other => panic!("unexpected {other:?}"),
    }
    assert!(matches!(m.apply(Command::ViewRight), Effect::Nothing));
    assert!(matches!(m.apply(Command::ViewLeft), Effect::Launch(ExternalAction::ViewLeft(_))));
    // No editor configured.
    assert!(matches!(m.apply(Command::EditLeft), Effect::Nothing));
    let hints = m.tool_key_hints();
    assert!(hints.enter_enabled && hints.has_left && !hints.has_right);
    assert!(hints.viewer_configured && hints.diff_tool_configured && !hints.editor_configured);
    // Pending entries have nothing to open yet.
    m.apply(Command::CursorHome);
    assert!(matches!(m.apply(Command::Open), Effect::Nothing));
    m.comparison_result(&RelPath::parse("a.txt"), DiffStatus::Different);
    match m.apply(Command::Open) {
        Effect::Launch(ExternalAction::Diff(p)) => assert_eq!(p.display(), "a.txt"),
        other => panic!("unexpected {other:?}"),
    }
}

#[test]
fn rebuilds_are_throttled() {
    assert!(rebuild_due(true, 0));
    assert!(!rebuild_due(false, 199));
    assert!(rebuild_due(false, 200));
}

#[test]
fn zero_page_height_keeps_the_cursor() {
    let mut m = scanned(Config::default());
    m.apply(Command::CursorDown);
    m.set_page_height(0);
    m.apply(Command::PageDown);
    assert_eq!(m.selected_index(), Some(1));
    m.apply(Command::PageUp);
    assert_eq!(m.selected_index(), Some(1));
}

#[test]
fn poll_decisions() {
    assert!(poll_budget_left(0));
    assert!(poll_budget_left(MAX_MSGS_PER_POLL - 1));
    assert!(!poll_budget_left(MAX_MSGS_PER_POLL));
    assert_eq!(poll_action(Received::Nothing), PollAction::Stop);
    assert_eq!(poll_action(Received::Closed), PollAction::FinishAndStop);
    assert_eq!(poll_action(Received::Result), PollAction::HandleAndContinue);
    assert_eq!(poll_action(Received::Done), PollAction::HandleAndStop);
}
