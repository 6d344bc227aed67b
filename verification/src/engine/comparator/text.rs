//! Text comparison: files compared line by line after optional whitespace
//! and case normalization.
use vstd::prelude::*;
use super::CompareResult;
use crate::strings::{chars_of, collapse_whitespace, collapse_whitespace_chars, lowercase_of, string_of, to_lowercase};

verus! {

#[derive(Debug, Clone, Copy, PartialEq, Eq, Structural)]
pub struct TextComparator {
    pub ignore_whitespace: bool,
    pub ignore_case: bool,
}

/// A line as compared: lowercased when case is ignored, then with runs of
/// whitespace collapsed to one space and the ends trimmed when whitespace is
/// ignored.
pub open spec fn normalized(ignore_whitespace: bool, ignore_case: bool, line: Seq<char>) -> Seq<char> {
    let s = if ignore_case { lowercase_of(line) } else { line };
    if ignore_whitespace { collapse_whitespace(s) } else { s }
}

impl TextComparator {
    pub fn new(ignore_whitespace: bool, ignore_case: bool) -> (c: Self)
        ensures
            c.ignore_whitespace == ignore_whitespace,
            c.ignore_case == ignore_case,
    {
        TextComparator { ignore_whitespace, ignore_case }
    }

    /// The strategy name shown for these settings.
    pub open spec fn spec_name(&self) -> Seq<char> {
        if self.ignore_whitespace && self.ignore_case {
            "text (ignore whitespace, ignore case)"@
        } else if self.ignore_whitespace {
            "text (ignore whitespace)"@
        } else if self.ignore_case {
            "text (ignore case)"@
        } else {
            "text"@
        }
    }

    pub fn name(&self) -> (s: &'static str)
        ensures
            s@ == self.spec_name(),
    {
        if self.ignore_whitespace && self.ignore_case {
            "text (ignore whitespace, ignore case)"
        } else if self.ignore_whitespace {
            "text (ignore whitespace)"
        } else if self.ignore_case {
            "text (ignore case)"
        } else {
            "text"
        }
    }

    /// The line as compared under these settings.
    pub fn normalize_line(&self, line: &str) -> (r: String)
        ensures
            r@ == normalized(self.ignore_whitespace, self.ignore_case, line@),
    {
        let s = if self.ignore_case {
            to_lowercase(line)
        } else {
            line.to_owned()
        };
        if self.ignore_whitespace {
            let cs = chars_of(s.as_str());
            let collapsed = collapse_whitespace_chars(&cs);
            string_of(collapsed.as_slice())
        } else {
            s
        }
    }

    /// Decides on the next pair of lines (`None` where a file has ended):
    /// both ended gives `Identical`; one ended, or normalized lines that
    /// differ, give `Different`; otherwise reading goes on (`None`).
    pub fn line_step(&self, line_a: Option<&str>, line_b: Option<&str>) -> (r: Option<CompareResult>)
        ensures
            r == line_verdict(*self, line_a, line_b),
    {
        match (line_a, line_b) {
            (None, None) => Some(CompareResult::Identical),
            (Some(la), Some(lb)) => {
                let na = self.normalize_line(la);
                let nb = self.normalize_line(lb);
                if na == nb {
                    None
                } else {
                    Some(CompareResult::Different)
                }
            },
            _ => Some(CompareResult::Different),
        }
    }
}

/// What one pair of lines decides.
pub open spec fn line_verdict(c: TextComparator, line_a: Option<&str>, line_b: Option<&str>) -> Option<CompareResult> {
    match (line_a, line_b) {
        (None, None) => Some(CompareResult::Identical),
        (Some(la), Some(lb)) => if normalized(c.ignore_whitespace, c.ignore_case, la@)
            == normalized(c.ignore_whitespace, c.ignore_case, lb@) {
            None
        } else {
            Some(CompareResult::Different)
        },
        _ => Some(CompareResult::Different),
    }
}

/// The next line of a file read as `lines`: its first line, or `None` at
/// its end.
pub open spec fn head_line<'a>(lines: Seq<&'a str>) -> Option<&'a str> {
    if lines.len() > 0 {
        Some(lines[0])
    } else {
        None
    }
}

/// The verdict of reading two files line by line in lockstep and deciding on
/// each pair of lines in turn.
pub open spec fn lines_verdict(c: TextComparator, a: Seq<&str>, b: Seq<&str>) -> CompareResult
    decreases a.len() + b.len(),
{
    match line_verdict(c, head_line(a), head_line(b)) {
        Some(r) => r,
        None => if a.len() > 0 && b.len() > 0 {
            lines_verdict(c, a.drop_first(), b.drop_first())
        } else {
            CompareResult::Different
        },
    }
}

/// Two files have the same lines under the comparator's normalization: as
/// many lines, each pair equal once normalized.
pub open spec fn same_lines(c: TextComparator, a: Seq<&str>, b: Seq<&str>) -> bool {
    &&& a.len() == b.len()
    &&& forall|i: int|
        0 <= i < a.len() ==> normalized(c.ignore_whitespace, c.ignore_case, #[trigger] a[i]@)
            == normalized(c.ignore_whitespace, c.ignore_case, b[i]@)
}

/// Deciding line by line judges the whole files: the verdict is `Identical`
/// exactly when both files have the same number of lines and each pair of
/// lines is equal once normalized; a file with lines left over when the
/// other has ended is `Different`.
pub proof fn law_lines_decide_whole_files(c: TextComparator, a: Seq<&str>, b: Seq<&str>)
    ensures
        lines_verdict(c, a, b) == if same_lines(c, a, b) {
            CompareResult::Identical
        } else {
            CompareResult::Different
        },
    decreases a.len() + b.len(),
{
    if a.len() > 0 && b.len() > 0 {
        let na = normalized(c.ignore_whitespace, c.ignore_case, a[0]@);
        let nb = normalized(c.ignore_whitespace, c.ignore_case, b[0]@);
        if na == nb {
            law_lines_decide_whole_files(c, a.drop_first(), b.drop_first());
            if same_lines(c, a, b) {
                assert forall|i: int| 0 <= i < a.drop_first().len() implies normalized(
                    c.ignore_whitespace,
                    c.ignore_case,
                    #[trigger] a.drop_first()[i]@,
                ) == normalized(c.ignore_whitespace, c.ignore_case, b.drop_first()[i]@) by {
                    assert(a.drop_first()[i] == a[i + 1]);
                    assert(b.drop_first()[i] == b[i + 1]);
                }
            }
            if same_lines(c, a.drop_first(), b.drop_first()) {
                assert forall|i: int| 0 <= i < a.len() implies normalized(
                    c.ignore_whitespace,
                    c.ignore_case,
                    #[trigger] a[i]@,
                ) == normalized(c.ignore_whitespace, c.ignore_case, b[i]@) by {
                    if i > 0 {
                        assert(a.drop_first()[i - 1] == a[i]);
                        assert(b.drop_first()[i - 1] == b[i]);
                    }
                }
            }
        } else {
            assert(!same_lines(c, a, b));
        }
    }
}

/// Which file is called `a` does not matter to one step of the text
/// comparison, and a step says `Identical` only when both files have ended.
pub proof fn law_line_step_symmetric(c: TextComparator, a: Option<&str>, b: Option<&str>)
    ensures
        line_verdict(c, a, b) == line_verdict(c, b, a),
        line_verdict(c, a, b) == Some(CompareResult::Identical) ==> a is None && b is None,
{
}

} // verus!
