//! Policy for external tool actions: what Enter and `[ ] { }` do for an
//! entry, and which key hints are active.
use vstd::prelude::*;
use crate::config::ToolsConfig;
use crate::engine::diff::{DiffEntry, DiffStatus};
use crate::tools::{action_view, kind_of, tool_for, ExternalAction};

verus! {

/// Which side of the comparison a path-based action targets.
#[derive(Debug, Clone, Copy, PartialEq, Eq, Structural)]
pub enum Side {
    Left,
    Right,
}

/// Whether an entry with `status` has a file on `side` to act on.
pub open spec fn side_has_file(status: DiffStatus, side: Side) -> bool {
    match status {
        DiffStatus::LeftOnly => side == Side::Left,
        DiffStatus::RightOnly => side == Side::Right,
        DiffStatus::Different | DiffStatus::Identical | DiffStatus::TypeConflict | DiffStatus::Error(
            _,
        ) => true,
        DiffStatus::Pending | DiffStatus::DirectoryPresent => false,
    }
}

/// Whether an entry with `status` has something to act on for `side`: the
/// single policy behind both the side actions and their key hints.
pub fn side_available(status: &DiffStatus, side: Side) -> (b: bool)
    ensures
        b == side_has_file(*status, side),
{
    match status {
        DiffStatus::LeftOnly => match side {
            Side::Left => true,
            Side::Right => false,
        },
        DiffStatus::RightOnly => match side {
            Side::Left => false,
            Side::Right => true,
        },
        DiffStatus::Different
        | DiffStatus::Identical
        | DiffStatus::TypeConflict
        | DiffStatus::Error(_) => true,
        DiffStatus::Pending | DiffStatus::DirectoryPresent => false,
    }
}

/// What Enter does for an entry: `Different` opens the diff tool,
/// `LeftOnly`/`RightOnly` the viewer on that side, when the tool is
/// configured; anything else does nothing.
pub open spec fn open_kind(tools: ToolsConfig, status: DiffStatus) -> Option<u8> {
    match status {
        DiffStatus::Different => if tools.diff_tool is Some {
            Some(0u8)
        } else {
            None
        },
        DiffStatus::LeftOnly => if tools.viewer is Some {
            Some(1u8)
        } else {
            None
        },
        DiffStatus::RightOnly => if tools.viewer is Some {
            Some(2u8)
        } else {
            None
        },
        _ => None,
    }
}

/// The action Enter queues for `entry`, if any.
pub fn open_action_for(tools: &ToolsConfig, entry: &DiffEntry) -> (r: Option<ExternalAction>)
    ensures
        open_kind(*tools, entry.status) is None <==> r is None,
        open_kind(*tools, entry.status) == Some(0u8) ==> (r matches Some(ExternalAction::Diff(p))
            && p@ == entry.relative_path@),
        open_kind(*tools, entry.status) == Some(1u8) ==> (r matches Some(ExternalAction::ViewLeft(p))
            && p@ == entry.relative_path@),
        open_kind(*tools, entry.status) == Some(2u8) ==> (r matches Some(ExternalAction::ViewRight(p))
            && p@ == entry.relative_path@),
{
    match &entry.status {
        DiffStatus::Different => {
            if tools.diff_tool.is_some() {
                Some(ExternalAction::Diff(entry.relative_path.duplicate()))
            } else {
                None
            }
        },
        DiffStatus::LeftOnly => {
            if tools.viewer.is_some() {
                Some(ExternalAction::ViewLeft(entry.relative_path.duplicate()))
            } else {
                None
            }
        },
        DiffStatus::RightOnly => {
            if tools.viewer.is_some() {
                Some(ExternalAction::ViewRight(entry.relative_path.duplicate()))
            } else {
                None
            }
        },
        _ => None,
    }
}

/// Enter acts only where the entry has files: on an entry present on both
/// sides it runs the diff tool, on an entry present on one side the viewer
/// on that side (never the other), never an editor; the action is on the
/// entry's path and its tool is configured.
pub proof fn law_open_targets_the_entrys_files(tools: ToolsConfig, entry: DiffEntry, a: ExternalAction)
    requires
        open_kind(tools, entry.status) == Some(action_view(a).0),
        action_view(a).1 == entry.relative_path@,
    ensures
        match a {
            ExternalAction::Diff(p) => side_has_file(entry.status, Side::Left) && side_has_file(
                entry.status,
                Side::Right,
            ) && tools.diff_tool is Some,
            ExternalAction::ViewLeft(p) => side_has_file(entry.status, Side::Left) && !side_has_file(
                entry.status,
                Side::Right,
            ) && tools.viewer is Some,
            ExternalAction::ViewRight(p) => side_has_file(entry.status, Side::Right) && !side_has_file(
                entry.status,
                Side::Left,
            ) && tools.viewer is Some,
            ExternalAction::EditLeft(_) | ExternalAction::EditRight(_) => false,
        },
        tool_for(tools, kind_of(a)) is Some,
{
}

/// Availability of the tool key hints for the current selection.
#[derive(Debug, Clone, Copy, PartialEq, Eq, Structural)]
pub struct ToolKeyHints {
    pub diff_tool_configured: bool,
    pub viewer_configured: bool,
    pub editor_configured: bool,
    pub enter_enabled: bool,
    pub has_left: bool,
    pub has_right: bool,
}

/// The hints for a selection (`None`: no entry row selected).
pub open spec fn hints_for(tools: ToolsConfig, selected: Option<DiffEntry>) -> ToolKeyHints {
    ToolKeyHints {
        diff_tool_configured: tools.diff_tool is Some,
        viewer_configured: tools.viewer is Some,
        editor_configured: tools.editor is Some,
        enter_enabled: match selected {
            Some(e) => open_kind(tools, e.status) is Some,
            None => false,
        },
        has_left: match selected {
            Some(e) => side_has_file(e.status, Side::Left),
            None => false,
        },
        has_right: match selected {
            Some(e) => side_has_file(e.status, Side::Right),
            None => false,
        },
    }
}

pub fn tool_key_hints(tools: &ToolsConfig, selected: Option<&DiffEntry>) -> (h: ToolKeyHints)
    ensures
        h == hints_for(
            *tools,
            match selected {
                Some(e) => Some(*e),
                None => None,
            },
        ),
{
    let (enter_enabled, has_left, has_right) = match selected {
        Some(e) => {
            let a = open_action_for(tools, e);
            (a.is_some(), side_available(&e.status, Side::Left), side_available(&e.status, Side::Right))
        },
        None => (false, false, false),
    };
    ToolKeyHints {
        diff_tool_configured: tools.diff_tool.is_some(),
        viewer_configured: tools.viewer.is_some(),
        editor_configured: tools.editor.is_some(),
        enter_enabled,
        has_left,
        has_right,
    }
}

/// The action for a side key (`[ ] { }`) on `entry`: `None` when the entry
/// has no file on that side or the needed tool is not configured (so an
/// unbound key never suspends the terminal for nothing).
pub fn side_action(tools: &ToolsConfig, entry: &DiffEntry, side: Side, edit: bool) -> (r: Option<ExternalAction>)
    ensures
        r is Some <==> side_has_file(entry.status, side) && (if edit {
            tools.editor is Some
        } else {
            tools.viewer is Some
        }),
        r matches Some(a) ==> match a {
            ExternalAction::ViewLeft(p) => side == Side::Left && !edit && p@ == entry.relative_path@,
            ExternalAction::ViewRight(p) => side == Side::Right && !edit && p@ == entry.relative_path@,
            ExternalAction::EditLeft(p) => side == Side::Left && edit && p@ == entry.relative_path@,
            ExternalAction::EditRight(p) => side == Side::Right && edit && p@ == entry.relative_path@,
            ExternalAction::Diff(_) => false,
        },
{
    if !side_available(&entry.status, side) {
        return None;
    }
    let configured = if edit {
        tools.editor.is_some()
    } else {
        tools.viewer.is_some()
    };
    if !configured {
        return None;
    }
    let p = entry.relative_path.duplicate();
    match (side, edit) {
        (Side::Left, false) => Some(ExternalAction::ViewLeft(p)),
        (Side::Right, false) => Some(ExternalAction::ViewRight(p)),
        (Side::Left, true) => Some(ExternalAction::EditLeft(p)),
        (Side::Right, true) => Some(ExternalAction::EditRight(p)),
    }
}

} // verus!
