//! Key press -> [`Command`] decoding.
use vstd::prelude::*;

verus! {

/// A key, as the terminal reports it.
#[derive(Debug, Clone, Copy, PartialEq, Eq, Structural)]
pub enum KeyCode {
    Char(char),
    F(u8),
    Up,
    Down,
    PageUp,
    PageDown,
    Home,
    End,
    Enter,
    Esc,
    /// Any other key.
    Other,
}

/// Modifier keys held during a key press.
#[derive(Debug, Clone, Copy, PartialEq, Eq, Structural)]
pub struct KeyModifiers {
    pub shift: bool,
    pub control: bool,
    pub alt: bool,
    pub super_key: bool,
    pub hyper: bool,
    pub meta: bool,
}

impl KeyModifiers {
    pub fn none() -> (m: KeyModifiers)
        ensures
            !m.shift && !m.control && !m.alt && !m.super_key && !m.hyper && !m.meta,
    {
        KeyModifiers { shift: false, control: false, alt: false, super_key: false, hyper: false, meta: false }
    }

    pub fn shift() -> (m: KeyModifiers)
        ensures
            m.shift && !m.control && !m.alt && !m.super_key && !m.hyper && !m.meta,
    {
        KeyModifiers { shift: true, ..KeyModifiers::none() }
    }

    pub fn control() -> (m: KeyModifiers)
        ensures
            !m.shift && m.control && !m.alt && !m.super_key && !m.hyper && !m.meta,
    {
        KeyModifiers { control: true, ..KeyModifiers::none() }
    }

    pub fn alt() -> (m: KeyModifiers)
        ensures
            !m.shift && !m.control && m.alt && !m.super_key && !m.hyper && !m.meta,
    {
        KeyModifiers { alt: true, ..KeyModifiers::none() }
    }

    /// Both sets of modifiers held.
    pub fn with(self, other: KeyModifiers) -> (m: KeyModifiers)
        ensures
            m.shift == (self.shift || other.shift),
            m.control == (self.control || other.control),
            m.alt == (self.alt || other.alt),
            m.super_key == (self.super_key || other.super_key),
            m.hyper == (self.hyper || other.hyper),
            m.meta == (self.meta || other.meta),
    {
        KeyModifiers {
            shift: self.shift || other.shift,
            control: self.control || other.control,
            alt: self.alt || other.alt,
            super_key: self.super_key || other.super_key,
            hyper: self.hyper || other.hyper,
            meta: self.meta || other.meta,
        }
    }
}

/// A user command decoded from a key press.
#[derive(Debug, Clone, Copy, PartialEq, Eq, Structural)]
pub enum Command {
    Quit,
    Rescan,
    ToggleLeftOnly,
    ToggleRightOnly,
    ToggleDifferent,
    ToggleIdentical,
    JumpNextMatching,
    JumpPrevMatching,
    CursorDown,
    CursorUp,
    PageDown,
    PageUp,
    CursorHome,
    CursorEnd,
    /// Smart open: Different -> diff tool, LeftOnly/RightOnly -> viewer.
    Open,
    ViewLeft,
    ViewRight,
    EditLeft,
    EditRight,
}

/// The command bound to an unmodified key.
pub open spec fn plain_command(code: KeyCode) -> Option<Command> {
    match code {
        KeyCode::Char(c) => if c == 'q' || c == 'Q' {
            Some(Command::Quit)
        } else if c == 'l' || c == 'L' {
            Some(Command::ToggleLeftOnly)
        } else if c == 'r' || c == 'R' {
            Some(Command::ToggleRightOnly)
        } else if c == 'd' || c == 'D' {
            Some(Command::ToggleDifferent)
        } else if c == 'i' || c == 'I' {
            Some(Command::ToggleIdentical)
        } else if c == 'n' {
            Some(Command::JumpNextMatching)
        } else if c == 'N' {
            Some(Command::JumpPrevMatching)
        } else if c == '[' {
            Some(Command::ViewLeft)
        } else if c == ']' {
            Some(Command::ViewRight)
        } else if c == '{' {
            Some(Command::EditLeft)
        } else if c == '}' {
            Some(Command::EditRight)
        } else {
            None
        },
        KeyCode::F(n) => if n == 5 {
            Some(Command::Rescan)
        } else {
            None
        },
        KeyCode::Down => Some(Command::CursorDown),
        KeyCode::Up => Some(Command::CursorUp),
        KeyCode::PageDown => Some(Command::PageDown),
        KeyCode::PageUp => Some(Command::PageUp),
        KeyCode::Home => Some(Command::CursorHome),
        KeyCode::End => Some(Command::CursorEnd),
        KeyCode::Enter => Some(Command::Open),
        _ => None,
    }
}

/// The command for a key press. Ctrl+Alt (how Windows terminals report
/// AltGr, used on European layouts for `[ ] { }`) counts as no modifier;
/// with Ctrl held only Ctrl+C is bound (quit); with Alt, Super, Hyper or Meta
/// nothing is bound; Shift is ignored (uppercase letters arrive with it).
pub open spec fn command_spec(code: KeyCode, mods: KeyModifiers) -> Option<Command> {
    let altgr = mods.control && mods.alt;
    let control = mods.control && !altgr;
    let alt = mods.alt && !altgr;
    if control {
        if code == KeyCode::Char('c') {
            Some(Command::Quit)
        } else {
            None
        }
    } else if alt || mods.super_key || mods.hyper || mods.meta {
        None
    } else {
        plain_command(code)
    }
}

pub fn command_for_key(code: KeyCode, modifiers: KeyModifiers) -> (r: Option<Command>)
    ensures
        r == command_spec(code, modifiers),
{
    let altgr = modifiers.control && modifiers.alt;
    let control = modifiers.control && !altgr;
    let alt = modifiers.alt && !altgr;
    if control {
        return match code {
            KeyCode::Char('c') => Some(Command::Quit),
            _ => None,
        };
    }
    if alt || modifiers.super_key || modifiers.hyper || modifiers.meta {
        return None;
    }
    match code {
        KeyCode::Char('q') | KeyCode::Char('Q') => Some(Command::Quit),
        KeyCode::F(5) => Some(Command::Rescan),
        KeyCode::Char('l') | KeyCode::Char('L') => Some(Command::ToggleLeftOnly),
        KeyCode::Char('r') | KeyCode::Char('R') => Some(Command::ToggleRightOnly),
        KeyCode::Char('d') | KeyCode::Char('D') => Some(Command::ToggleDifferent),
        KeyCode::Char('i') | KeyCode::Char('I') => Some(Command::ToggleIdentical),
        KeyCode::Char('n') => Some(Command::JumpNextMatching),
        KeyCode::Char('N') => Some(Command::JumpPrevMatching),
        KeyCode::Down => Some(Command::CursorDown),
        KeyCode::Up => Some(Command::CursorUp),
        KeyCode::PageDown => Some(Command::PageDown),
        KeyCode::PageUp => Some(Command::PageUp),
        KeyCode::Home => Some(Command::CursorHome),
        KeyCode::End => Some(Command::CursorEnd),
        KeyCode::Enter => Some(Command::Open),
        KeyCode::Char('[') => Some(Command::ViewLeft),
        KeyCode::Char(']') => Some(Command::ViewRight),
        KeyCode::Char('{') => Some(Command::EditLeft),
        KeyCode::Char('}') => Some(Command::EditRight),
        _ => None,
    }
}

/// Shift never changes what a key does.
pub proof fn law_shift_is_ignored(code: KeyCode, mods: KeyModifiers)
    ensures
        command_spec(code, KeyModifiers { shift: true, ..mods }) == command_spec(
            code,
            KeyModifiers { shift: false, ..mods },
        ),
{
}

/// Ctrl+Alt (AltGr) together counts as no modifier at all.
pub proof fn law_altgr_is_unmodified(code: KeyCode, shift: bool)
    ensures
        command_spec(
            code,
            KeyModifiers { shift, control: true, alt: true, super_key: false, hyper: false, meta: false },
        ) == plain_command(code),
{
}

/// The letter commands (quit and the four filter toggles) do not depend on
/// the letter's case.
pub proof fn law_letter_commands_ignore_case(c: char)
    requires
        c == 'q' || c == 'l' || c == 'r' || c == 'd' || c == 'i',
    ensures
        plain_command(KeyCode::Char(c)) == plain_command(
            KeyCode::Char(
                if c == 'q' {
                    'Q'
                } else if c == 'l' {
                    'L'
                } else if c == 'r' {
                    'R'
                } else if c == 'd' {
                    'D'
                } else {
                    'I'
                },
            ),
        ),
        plain_command(KeyCode::Char(c)) is Some,
{
}

/// With Ctrl held (and not Alt), the only bound key is `c`, which quits.
pub proof fn law_control_binds_only_quit(code: KeyCode, mods: KeyModifiers)
    requires
        mods.control && !mods.alt,
    ensures
        command_spec(code, mods) is Some ==> code == KeyCode::Char('c') && command_spec(code, mods)
            == Some(Command::Quit),
{
}

} // verus!
