use dircmp::app::command::{command_for_key, Command, KeyCode, KeyModifiers};

fn none() -> KeyModifiers {
    KeyModifiers::none()
}

#[test]
fn command_letter_keys_map_case_insensitively() {
    for (lower, upper, expected) in [
        ('q', 'Q', Command::Quit),
        ('l', 'L', Command::ToggleLeftOnly),
        ('r', 'R', Command::ToggleRightOnly),
        ('d', 'D', Command::ToggleDifferent),
        ('i', 'I', Command::ToggleIdentical),
    ] {
        assert_eq!(command_for_key(KeyCode::Char(lower), none()), Some(expected));
        assert_eq!(command_for_key(KeyCode::Char(upper), none()), Some(expected));
        assert_eq!(command_for_key(KeyCode::Char(upper), KeyModifiers::shift()), Some(expected));
    }
}

#[test]
fn command_jump_keys_are_case_sensitive() {
    assert_eq!(command_for_key(KeyCode::Char('n'), none()), Some(Command::JumpNextMatching));
    assert_eq!(command_for_key(KeyCode::Char('N'), none()), Some(Command::JumpPrevMatching));
}

#[test]
fn command_navigation_and_tool_keys_map() {
    assert_eq!(command_for_key(KeyCode::F(5), none()), Some(Command::Rescan));
    assert_eq!(command_for_key(KeyCode::Down, none()), Some(Command::CursorDown));
    assert_eq!(command_for_key(KeyCode::Up, none()), Some(Command::CursorUp));
    assert_eq!(command_for_key(KeyCode::PageDown, none()), Some(Command::PageDown));
    assert_eq!(command_for_key(KeyCode::PageUp, none()), Some(Command::PageUp));
    assert_eq!(command_for_key(KeyCode::Home, none()), Some(Command::CursorHome));
    assert_eq!(command_for_key(KeyCode::End, none()), Some(Command::CursorEnd));
    assert_eq!(command_for_key(KeyCode::Enter, none()), Some(Command::Open));
    assert_eq!(command_for_key(KeyCode::Char('['), none()), Some(Command::ViewLeft));
    assert_eq!(command_for_key(KeyCode::Char(']'), none()), Some(Command::ViewRight));
    assert_eq!(command_for_key(KeyCode::Char('{'), none()), Some(Command::EditLeft));
    assert_eq!(command_for_key(KeyCode::Char('}'), none()), Some(Command::EditRight));
}

#[test]
fn ctrl_c_quits() {
    assert_eq!(command_for_key(KeyCode::Char('c'), KeyModifiers::control()), Some(Command::Quit));
}

#[test]
fn other_modified_combinations_are_unbound() {
    assert_eq!(command_for_key(KeyCode::Char('d'), KeyModifiers::control()), None);
    assert_eq!(command_for_key(KeyCode::Char('q'), KeyModifiers::alt()), None);
    assert_eq!(command_for_key(KeyCode::Down, KeyModifiers::control()), None);
    assert_eq!(command_for_key(KeyCode::Enter, KeyModifiers::alt()), None);
}

#[test]
fn altgr_counts_as_unmodified() {
    let altgr = KeyModifiers::control().with(KeyModifiers::alt());
    assert_eq!(command_for_key(KeyCode::Char('['), altgr), Some(Command::ViewLeft));
    assert_eq!(command_for_key(KeyCode::Char('}'), altgr.with(KeyModifiers::shift())), Some(Command::EditRight));
}

#[test]
fn command_unknown_keys_map_to_none() {
    assert_eq!(command_for_key(KeyCode::Char('x'), none()), None);
    assert_eq!(command_for_key(KeyCode::Esc, none()), None);
    assert_eq!(command_for_key(KeyCode::F(1), none()), None);
}

#[test]
fn app_letter_keys_map_case_insensitively() {
    for (lower, upper, expected) in [
        ('q', 'Q', Command::Quit),
        ('l', 'L', Command::ToggleLeftOnly),
        ('r', 'R', Command::ToggleRightOnly),
        ('d', 'D', Command::ToggleDifferent),
        ('i', 'I', Command::ToggleIdentical),
    ] {
        assert_eq!(command_for_key(KeyCode::Char(lower), none()), Some(expected));
        assert_eq!(command_for_key(KeyCode::Char(upper), none()), Some(expected));
    }
}

#[test]
fn app_jump_keys_are_case_sensitive() {
    assert_eq!(command_for_key(KeyCode::Char('n'), none()), Some(Command::JumpNextMatching));
    assert_eq!(command_for_key(KeyCode::Char('N'), none()), Some(Command::JumpPrevMatching));
}

#[test]
fn app_navigation_and_tool_keys_map() {
    assert_eq!(command_for_key(KeyCode::F(5), none()), Some(Command::Rescan));
    assert_eq!(command_for_key(KeyCode::Down, none()), Some(Command::CursorDown));
    assert_eq!(command_for_key(KeyCode::Up, none()), Some(Command::CursorUp));
    assert_eq!(command_for_key(KeyCode::PageDown, none()), Some(Command::PageDown));
    assert_eq!(command_for_key(KeyCode::PageUp, none()), Some(Command::PageUp));
    assert_eq!(command_for_key(KeyCode::Home, none()), Some(Command::CursorHome));
    assert_eq!(command_for_key(KeyCode::End, none()), Some(Command::CursorEnd));
    assert_eq!(command_for_key(KeyCode::Enter, none()), Some(Command::Open));
    assert_eq!(command_for_key(KeyCode::Char('['), none()), Some(Command::ViewLeft));
    assert_eq!(command_for_key(KeyCode::Char(']'), none()), Some(Command::ViewRight));
    assert_eq!(command_for_key(KeyCode::Char('{'), none()), Some(Command::EditLeft));
    assert_eq!(command_for_key(KeyCode::Char('}'), none()), Some(Command::EditRight));
}

#[test]
fn app_unknown_keys_map_to_none() {
    assert_eq!(command_for_key(KeyCode::Char('x'), none()), None);
    assert_eq!(command_for_key(KeyCode::Esc, none()), None);
    assert_eq!(command_for_key(KeyCode::F(1), none()), None);
}

#[test]
fn super_hyper_meta_are_unbound() {
    let m = KeyModifiers { super_key: true, ..KeyModifiers::none() };
    assert_eq!(command_for_key(KeyCode::Char('q'), m), None);
    let m = KeyModifiers { hyper: true, ..KeyModifiers::none() };
    assert_eq!(command_for_key(KeyCode::Down, m), None);
    let m = KeyModifiers { meta: true, ..KeyModifiers::none() };
    assert_eq!(command_for_key(KeyCode::Enter, m), None);
    // Ctrl+C still quits when AltGr-like Ctrl+Alt is not both held.
    let m = KeyModifiers::control().with(KeyModifiers::shift());
    assert_eq!(command_for_key(KeyCode::Char('c'), m), Some(Command::Quit));
    // Ctrl+Alt counts as no modifier, so Ctrl+Alt+C is plain 'c' (unbound).
    let altgr = KeyModifiers::control().with(KeyModifiers::alt());
    assert_eq!(command_for_key(KeyCode::Char('c'), altgr), None);
}
