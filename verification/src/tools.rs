//! External tools (diff viewer, file viewer, editor): which configured
//! command an action uses and the command line it runs.
//!
//! A command string is split by whitespace into a program and its leading
//! arguments; the file paths are appended as further arguments. Starting the
//! process happens outside the library.
use vstd::prelude::*;
use crate::config::ToolsConfig;
use crate::relpath::RelPath;
use crate::strings::{chars_of, is_whitespace, string_of, unicode_whitespace};

verus! {

/// An external tool invocation on the selected entry. Paths are relative to
/// the left root (`*Left`), the right root (`*Right`) or both (`Diff`).
#[derive(Debug)]
pub enum ExternalAction {
    Diff(RelPath),
    ViewLeft(RelPath),
    EditLeft(RelPath),
    ViewRight(RelPath),
    EditRight(RelPath),
}

/// An action as its variant number (`Diff` 0, `ViewLeft` 1, `ViewRight` 2,
/// `EditLeft` 3, `EditRight` 4) and the path it acts on.
pub open spec fn action_view(action: ExternalAction) -> (u8, Seq<Seq<char>>) {
    match action {
        ExternalAction::Diff(p) => (0u8, p@),
        ExternalAction::ViewLeft(p) => (1u8, p@),
        ExternalAction::ViewRight(p) => (2u8, p@),
        ExternalAction::EditLeft(p) => (3u8, p@),
        ExternalAction::EditRight(p) => (4u8, p@),
    }
}

/// Which configured tool an action runs.
#[derive(Debug, Clone, Copy, PartialEq, Eq, Structural)]
pub enum ToolKind {
    Diff,
    Viewer,
    Editor,
}

pub open spec fn kind_of(action: ExternalAction) -> ToolKind {
    match action {
        ExternalAction::Diff(_) => ToolKind::Diff,
        ExternalAction::ViewLeft(_) | ExternalAction::ViewRight(_) => ToolKind::Viewer,
        ExternalAction::EditLeft(_) | ExternalAction::EditRight(_) => ToolKind::Editor,
    }
}

/// The command configured for a kind of tool.
pub open spec fn tool_for(tools: ToolsConfig, kind: ToolKind) -> Option<String> {
    match kind {
        ToolKind::Diff => tools.diff_tool,
        ToolKind::Viewer => tools.viewer,
        ToolKind::Editor => tools.editor,
    }
}

impl ExternalAction {
    pub fn kind(&self) -> (k: ToolKind)
        ensures
            k == kind_of(*self),
    {
        match self {
            ExternalAction::Diff(_) => ToolKind::Diff,
            ExternalAction::ViewLeft(_) | ExternalAction::ViewRight(_) => ToolKind::Viewer,
            ExternalAction::EditLeft(_) | ExternalAction::EditRight(_) => ToolKind::Editor,
        }
    }
}

/// The configured command for `action`, if any.
pub fn action_tool<'a>(tools: &'a ToolsConfig, action: &ExternalAction) -> (r: Option<&'a String>)
    ensures
        r == match tool_for(*tools, kind_of(*action)) {
            Some(s) => Some(&s),
            None => None::<&String>,
        },
{
    match action.kind() {
        ToolKind::Diff => tools.diff_tool.as_ref(),
        ToolKind::Viewer => tools.viewer.as_ref(),
        ToolKind::Editor => tools.editor.as_ref(),
    }
}

/// Whether the tool that `action` needs is configured.
pub fn action_tool_configured(tools: &ToolsConfig, action: &ExternalAction) -> (b: bool)
    ensures
        b == tool_for(*tools, kind_of(*action)) is Some,
{
    action_tool(tools, action).is_some()
}

/// The whitespace-separated words of `s` (what `str::split_whitespace`
/// yields).
pub open spec fn words_of(s: Seq<char>) -> Seq<Seq<char>>
    decreases s.len(),
{
    if s.len() == 0 {
        Seq::empty()
    } else {
        let w = words_of(s.drop_last());
        let c = s.last();
        if unicode_whitespace(c) {
            w
        } else if s.len() >= 2 && !unicode_whitespace(s[s.len() - 2]) {
            w.update(w.len() - 1, w.last().push(c))
        } else {
            w.push(seq![c])
        }
    }
}

/// Splits `s` into its whitespace-separated words.
pub fn split_words(s: &str) -> (r: Vec<String>)
    ensures
        r@.map_values(|w: String| w@) == words_of(s@),
{
    let cs = chars_of(s);
    let mut words: Vec<Vec<char>> = Vec::new();
    let mut in_word = false;
    let mut i: usize = 0;
    while i < cs.len()
        invariant
            i <= cs@.len(),
            words@.map_values(|w: Vec<char>| w@) == words_of(cs@.take(i as int)),
            in_word == (i > 0 && !unicode_whitespace(cs@[i - 1])),
            in_word ==> words@.len() > 0,
        decreases cs@.len() - i,
    {
        let c = cs[i];
        let ghost before = words@.map_values(|w: Vec<char>| w@);
        proof {
            let t = cs@.take(i + 1);
            assert(t.drop_last() =~= cs@.take(i as int));
            assert(t.last() == c);
            if i >= 1 {
                assert(t[t.len() - 2] == cs@[i - 1]);
            }
        }
        if is_whitespace(c) {
            in_word = false;
        } else if in_word {
            let last = words.len() - 1;
            let mut w = words.remove(last);
            w.push(c);
            words.push(w);
            proof {
                assert(words@.map_values(|w: Vec<char>| w@) =~= before.update(
                    before.len() - 1,
                    before.last().push(c),
                ));
            }
            in_word = true;
        } else {
            let mut w: Vec<char> = Vec::new();
            w.push(c);
            words.push(w);
            proof {
                assert(words@.map_values(|w: Vec<char>| w@) =~= before.push(seq![c]));
            }
            in_word = true;
        }
        i = i + 1;
    }
    proof {
        assert(cs@.take(i as int) =~= cs@);
    }
    let mut out: Vec<String> = Vec::new();
    let mut k: usize = 0;
    while k < words.len()
        invariant
            k <= words@.len(),
            out@.len() == k,
            forall|j: int| 0 <= j < k ==> #[trigger] out@[j]@ == words@[j]@,
        decreases words@.len() - k,
    {
        out.push(string_of(words[k].as_slice()));
        k = k + 1;
    }
    proof {
        assert(out@.map_values(|w: String| w@) =~= words@.map_values(|w: Vec<char>| w@));
    }
    out
}

/// Why a tool could not be started.
#[derive(Debug, Clone, Copy, PartialEq, Eq, Structural)]
pub enum ToolError {
    /// The configured command has no program name.
    EmptyCommand,
}

/// The program and arguments to start for a configured command: the first
/// word is the program, the other words its leading arguments (file paths
/// are appended after them).
pub fn command_line(tool: &str) -> (r: Result<(String, Vec<String>), ToolError>)
    ensures
        words_of(tool@).len() == 0 <==> r is Err,
        r matches Ok((program, args)) ==> program@ == words_of(tool@)[0] && args@.map_values(
            |w: String| w@,
        ) == words_of(tool@).drop_first(),
{
    let mut words = split_words(tool);
    if words.len() == 0 {
        return Err(ToolError::EmptyCommand);
    }
    let ghost wv = words@.map_values(|w: String| w@);
    let program = words.remove(0);
    proof {
        assert(words@.map_values(|w: String| w@) =~= wv.drop_first());
    }
    Ok((program, words))
}

} // verus!
