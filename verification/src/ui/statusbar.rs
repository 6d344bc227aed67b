//! The two lines of the status bar: a line of statistics (or progress, or a
//! message) and a line of key hints with their style roles.
use vstd::prelude::*;
use crate::app::external::ToolKeyHints;
use crate::engine::diff::{
    count_with, different_kind, file_kind, identical_kind, left_only_kind, right_only_kind,
    DiffFilter, DiffResult,
};
use crate::strings::{append_decimal, append_str, decimal, string_of};
use crate::ui::AppState;

verus! {

/// The per-status counts shown when the comparison is done: total entries
/// (files and one-sided directories), different, left only, right only,
/// identical.
pub open spec fn result_counts(r: DiffResult) -> (nat, nat, nat, nat, nat) {
    let e = r.spec_entries();
    (
        count_with(e, file_kind()),
        count_with(e, different_kind()),
        count_with(e, left_only_kind()),
        count_with(e, right_only_kind()),
        count_with(e, identical_kind()),
    )
}

/// Percentage of `done` out of `total`, rounded down (0 when `total` is 0).
pub open spec fn percent(done: nat, total: nat) -> nat {
    if total > 0 {
        (done * 100) / total
    } else {
        0
    }
}

/// The statistics line. A message takes precedence; otherwise the phase
/// decides: a prompt when idle, progress while scanning or comparing, and
/// the counts with the comparator's name (and the number of scan errors,
/// when there were any) once ready.
pub open spec fn stats_line(
    state: AppState,
    counts: Option<(nat, nat, nat, nat, nat)>,
    comparator_name: Seq<char>,
    scan_errors: nat,
    message: Option<Seq<char>>,
) -> Seq<char> {
    match message {
        Some(m) => " ⚠ "@ + m,
        None => match state {
            AppState::Idle => " Press F5 to compare folders"@,
            AppState::Scanning => " ⏳ Scanning…"@,
            AppState::Comparing { done, total } => " ⏳ Comparing files… ("@ + decimal(done as nat) + "/"@
                + decimal(total as nat) + ") "@ + decimal(percent(done as nat, total as nat)) + "%"@,
            AppState::Ready => match counts {
                Some((t, d, l, r, i)) => " Entries: "@ + decimal(t) + "  Different: "@ + decimal(d)
                    + "  Left only: "@ + decimal(l) + "  Right only: "@ + decimal(r) + "  Identical: "@
                    + decimal(i) + "  | "@ + comparator_name + if scan_errors > 0 {
                    "  ⚠ "@ + decimal(scan_errors) + " scan errors"@
                } else {
                    Seq::empty()
                },
                None => " Ready"@,
            },
        },
    }
}

/// The status bar at the bottom of the view.
pub struct StatusBar;

impl StatusBar {
    /// The statistics line of the status bar.
    pub fn stats_text(
        state: AppState,
        diff: Option<&DiffResult>,
        comparator_name: &str,
        scan_errors: usize,
        message: Option<&str>,
    ) -> (s: String)
        ensures
            s@ == stats_line(
                state,
                match diff {
                    Some(r) => Some(result_counts(*r)),
                    None => None,
                },
                comparator_name@,
                scan_errors as nat,
                match message {
                    Some(m) => Some(m@),
                    None => None,
                },
            ),
    {
        let mut out: Vec<char> = Vec::new();
        match message {
            Some(m) => {
                append_str(&mut out, " ⚠ ");
                append_str(&mut out, m);
            },
            None => match state {
                AppState::Idle => append_str(&mut out, " Press F5 to compare folders"),
                AppState::Scanning => append_str(&mut out, " ⏳ Scanning…"),
                AppState::Comparing { done, total } => {
                    let pct: u128 = if total > 0 {
                        proof {
                            assert(done * 100 <= usize::MAX * 100) by (nonlinear_arith)
                                requires
                                    done <= usize::MAX,
                            ;
                        }
                        (done as u128 * 100) / (total as u128)
                    } else {
                        0
                    };
                    append_str(&mut out, " ⏳ Comparing files… (");
                    append_decimal(&mut out, done as u128);
                    append_str(&mut out, "/");
                    append_decimal(&mut out, total as u128);
                    append_str(&mut out, ") ");
                    append_decimal(&mut out, pct);
                    append_str(&mut out, "%");
                },
                AppState::Ready => match diff {
                    Some(r) => {
                        append_str(&mut out, " Entries: ");
                        append_decimal(&mut out, r.total() as u128);
                        append_str(&mut out, "  Different: ");
                        append_decimal(&mut out, r.count_different() as u128);
                        append_str(&mut out, "  Left only: ");
                        append_decimal(&mut out, r.count_left_only() as u128);
                        append_str(&mut out, "  Right only: ");
                        append_decimal(&mut out, r.count_right_only() as u128);
                        append_str(&mut out, "  Identical: ");
                        append_decimal(&mut out, r.count_identical() as u128);
                        append_str(&mut out, "  | ");
                        append_str(&mut out, comparator_name);
                        if scan_errors > 0 {
                            append_str(&mut out, "  ⚠ ");
                            append_decimal(&mut out, scan_errors as u128);
                            append_str(&mut out, " scan errors");
                        }
                    },
                    None => append_str(&mut out, " Ready"),
                },
            },
        }
        proof {
            match message {
                Some(m) => {},
                None => match state {
                    AppState::Ready => match diff {
                        Some(r) => {
                            if scan_errors == 0 {
                                assert(out@ =~= stats_line(state, Some(result_counts(*r)), comparator_name@, 0, None));
                            }
                        },
                        None => {},
                    },
                    _ => {},
                },
            }
        }
        string_of(out.as_slice())
    }
}

/// How a key hint is drawn: an active key, an active label, or inactive.
#[derive(Debug, Clone, Copy, PartialEq, Eq, Structural)]
pub enum KeyStyle {
    Key,
    Label,
    Inactive,
}

pub open spec fn key_style(active: bool) -> KeyStyle {
    if active {
        KeyStyle::Key
    } else {
        KeyStyle::Inactive
    }
}

pub open spec fn label_style(active: bool) -> KeyStyle {
    if active {
        KeyStyle::Label
    } else {
        KeyStyle::Inactive
    }
}

/// The hints for the two side keys of one tool (`[`/`]` or `{`/`}`).
pub open spec fn side_hints(open: Seq<char>, close: Seq<char>, label: Seq<char>, h: ToolKeyHints) -> Seq<(Seq<char>, KeyStyle)> {
    seq![
        (open, key_style(h.has_left)),
        ("/"@, KeyStyle::Inactive),
        (close, key_style(h.has_right)),
        (label, label_style(h.has_left || h.has_right)),
    ]
}

/// The keys that are always shown before the tool keys; the filter keys
/// are lit by the filter.
pub open spec fn fixed_hints(f: DiffFilter) -> Seq<(Seq<char>, KeyStyle)> {
    seq![
        (" F5"@, KeyStyle::Key),
        (":Scan"@, KeyStyle::Label),
        ("  l"@, key_style(f.show_left_only)),
        (":◄"@, key_style(f.show_left_only)),
        ("  r"@, key_style(f.show_right_only)),
        (":►"@, key_style(f.show_right_only)),
        ("  d"@, key_style(f.show_different)),
        (":≠"@, key_style(f.show_different)),
        ("  i"@, key_style(f.show_identical)),
        (":="@, key_style(f.show_identical)),
        ("  ↑↓"@, KeyStyle::Key),
        (":Navigate"@, KeyStyle::Label),
        ("  n/N"@, KeyStyle::Key),
        (":Next/Prev"@, KeyStyle::Label),
        ("  Home/End"@, KeyStyle::Key),
        (":Jump"@, KeyStyle::Label),
    ]
}

/// The tool keys: Enter when a diff tool is configured, `[`/`]` when a
/// viewer is, `{`/`}` when an editor is, each lit by what the selection
/// allows.
pub open spec fn tool_hints(h: ToolKeyHints) -> Seq<(Seq<char>, KeyStyle)> {
    (if h.diff_tool_configured {
        seq![("  Enter"@, key_style(h.enter_enabled)), (":Diff"@, label_style(h.enter_enabled))]
    } else {
        Seq::empty()
    }) + (if h.viewer_configured {
        side_hints("  ["@, "]"@, ":View"@, h)
    } else {
        Seq::empty()
    }) + (if h.editor_configured {
        side_hints("  {"@, "}"@, ":Edit"@, h)
    } else {
        Seq::empty()
    })
}

/// The key-hint line: the fixed keys, the tool keys, and quit.
pub open spec fn key_hints_line(f: DiffFilter, h: ToolKeyHints) -> Seq<(Seq<char>, KeyStyle)> {
    fixed_hints(f) + tool_hints(h) + seq![("  q"@, KeyStyle::Key), (":Quit "@, KeyStyle::Label)]
}

/// The view of a list of hints.
pub open spec fn hints_view(v: Seq<(&str, KeyStyle)>) -> Seq<(Seq<char>, KeyStyle)> {
    v.map_values(|p: (&str, KeyStyle)| (p.0@, p.1))
}

fn push_hint(out: &mut Vec<(&'static str, KeyStyle)>, text: &'static str, style: KeyStyle)
    ensures
        hints_view(final(out)@) == hints_view(old(out)@).push((text@, style)),
{
    out.push((text, style));
    proof {
        assert(hints_view(out@) =~= hints_view(old(out)@).push((text@, style)));
    }
}

fn key_of(active: bool) -> (k: KeyStyle)
    ensures
        k == key_style(active),
{
    if active {
        KeyStyle::Key
    } else {
        KeyStyle::Inactive
    }
}

fn label_of(active: bool) -> (k: KeyStyle)
    ensures
        k == label_style(active),
{
    if active {
        KeyStyle::Label
    } else {
        KeyStyle::Inactive
    }
}

fn push_fixed_hints(out: &mut Vec<(&'static str, KeyStyle)>, f: &DiffFilter)
    ensures
        hints_view(final(out)@) == hints_view(old(out)@) + fixed_hints(*f),
{
    push_hint(out, " F5", KeyStyle::Key);
    push_hint(out, ":Scan", KeyStyle::Label);
    push_hint(out, "  l", key_of(f.show_left_only));
    push_hint(out, ":◄", key_of(f.show_left_only));
    push_hint(out, "  r", key_of(f.show_right_only));
    push_hint(out, ":►", key_of(f.show_right_only));
    push_hint(out, "  d", key_of(f.show_different));
    push_hint(out, ":≠", key_of(f.show_different));
    push_hint(out, "  i", key_of(f.show_identical));
    push_hint(out, ":=", key_of(f.show_identical));
    push_hint(out, "  ↑↓", KeyStyle::Key);
    push_hint(out, ":Navigate", KeyStyle::Label);
    push_hint(out, "  n/N", KeyStyle::Key);
    push_hint(out, ":Next/Prev", KeyStyle::Label);
    push_hint(out, "  Home/End", KeyStyle::Key);
    push_hint(out, ":Jump", KeyStyle::Label);
    proof {
        assert(hints_view(out@) =~= hints_view(old(out)@) + fixed_hints(*f));
    }
}

fn push_side_hints(
    out: &mut Vec<(&'static str, KeyStyle)>,
    open: &'static str,
    close: &'static str,
    label: &'static str,
    h: &ToolKeyHints,
)
    ensures
        hints_view(final(out)@) == hints_view(old(out)@) + side_hints(open@, close@, label@, *h),
{
    push_hint(out, open, key_of(h.has_left));
    push_hint(out, "/", KeyStyle::Inactive);
    push_hint(out, close, key_of(h.has_right));
    push_hint(out, label, label_of(h.has_left || h.has_right));
    proof {
        assert(hints_view(out@) =~= hints_view(old(out)@) + side_hints(open@, close@, label@, *h));
    }
}

fn push_tool_hints(out: &mut Vec<(&'static str, KeyStyle)>, h: &ToolKeyHints)
    ensures
        hints_view(final(out)@) == hints_view(old(out)@) + tool_hints(*h),
{
    let ghost start = hints_view(out@);
    if h.diff_tool_configured {
        push_hint(out, "  Enter", key_of(h.enter_enabled));
        push_hint(out, ":Diff", label_of(h.enter_enabled));
    }
    let ghost d = hints_view(out@);
    if h.viewer_configured {
        push_side_hints(out, "  [", "]", ":View", h);
    }
    let ghost v = hints_view(out@);
    if h.editor_configured {
        push_side_hints(out, "  {", "}", ":Edit", h);
    }
    proof {
        let dd: Seq<(Seq<char>, KeyStyle)> = if h.diff_tool_configured {
            seq![("  Enter"@, key_style(h.enter_enabled)), (":Diff"@, label_style(h.enter_enabled))]
        } else {
            Seq::empty()
        };
        assert(d =~= start + dd);
        assert(hints_view(out@) =~= start + tool_hints(*h));
    }
}

impl StatusBar {
    /// The key-hint line of the status bar.
    pub fn key_hints(f: &DiffFilter, h: &ToolKeyHints) -> (r: Vec<(&'static str, KeyStyle)>)
        ensures
            hints_view(r@) == key_hints_line(*f, *h),
    {
        let mut out: Vec<(&'static str, KeyStyle)> = Vec::new();
        proof {
            assert(hints_view(out@) =~= Seq::empty());
        }
        push_fixed_hints(&mut out, f);
        push_tool_hints(&mut out, h);
        push_hint(&mut out, "  q", KeyStyle::Key);
        push_hint(&mut out, ":Quit ", KeyStyle::Label);
        proof {
            assert(hints_view(out@) =~= key_hints_line(*f, *h));
        }
        out
    }
}

} // verus!
