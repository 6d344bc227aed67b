//! Command-line arguments: `dircmp [--config <file>] [--] <left> <right>`.
//!
//! An argument that starts with `-` and is longer than `-` itself is an
//! option, until a literal `--`; after it every argument is a folder path,
//! so folders whose names start with `-` can be compared.
use vstd::prelude::*;
use crate::strings::chars_of;

verus! {

/// What the command line asks for.
#[derive(Debug)]
pub enum CliRequest {
    /// Compare `left` with `right`, with the configuration file `config`
    /// when one was given.
    Run { left: String, right: String, config: Option<String> },
    /// Show the usage text and stop.
    Help,
}

/// Why the command line was refused.
#[derive(Debug)]
pub enum ArgError {
    /// `--config`/`-c` was the last argument.
    MissingConfigPath,
    /// An option that is not known.
    UnknownOption(String),
    /// A third folder path.
    TooManyArguments,
    MissingLeft,
    MissingRight,
}

/// The outcome of parsing, over plain sequences.
pub enum ArgsOutcome {
    Run(Seq<char>, Seq<char>, Option<Seq<char>>),
    Help,
    MissingConfigPath,
    UnknownOption(Seq<char>),
    TooManyArguments,
    MissingLeft,
    MissingRight,
}

/// Whether `arg` is read as an option (before any `--`).
pub open spec fn is_option(arg: Seq<char>, positional_only: bool) -> bool {
    !positional_only && arg.len() > 1 && arg[0] == '-'
}

/// Parsing from argument `i` on, with the folders and configuration file
/// found so far.
pub open spec fn parse_from(
    args: Seq<Seq<char>>,
    i: int,
    left: Option<Seq<char>>,
    right: Option<Seq<char>>,
    config: Option<Seq<char>>,
    positional_only: bool,
) -> ArgsOutcome
    decreases args.len() - i,
{
    if i < 0 || i >= args.len() {
        match (left, right) {
            (Some(l), Some(r)) => ArgsOutcome::Run(l, r, config),
            (None, _) => ArgsOutcome::MissingLeft,
            (Some(_), None) => ArgsOutcome::MissingRight,
        }
    } else {
        let arg = args[i];
        if is_option(arg, positional_only) {
            if arg == "--"@ {
                parse_from(args, i + 1, left, right, config, true)
            } else if arg == "--config"@ || arg == "-c"@ {
                if i + 1 >= args.len() {
                    ArgsOutcome::MissingConfigPath
                } else {
                    parse_from(args, i + 2, left, right, Some(args[i + 1]), positional_only)
                }
            } else if arg == "--help"@ || arg == "-h"@ {
                ArgsOutcome::Help
            } else {
                ArgsOutcome::UnknownOption(arg)
            }
        } else if left is None {
            parse_from(args, i + 1, Some(arg), right, config, positional_only)
        } else if right is None {
            parse_from(args, i + 1, left, Some(arg), config, positional_only)
        } else {
            ArgsOutcome::TooManyArguments
        }
    }
}

/// The outcome for a whole command line; the first argument is the
/// program's name.
pub open spec fn parse_spec(args: Seq<Seq<char>>) -> ArgsOutcome {
    parse_from(args, 1, None, None, None, false)
}

/// The view of a parse result.
pub open spec fn outcome_of(r: Result<CliRequest, ArgError>) -> ArgsOutcome {
    match r {
        Ok(CliRequest::Run { left, right, config }) => ArgsOutcome::Run(left@, right@, match config {
            Some(c) => Some(c@),
            None => None,
        }),
        Ok(CliRequest::Help) => ArgsOutcome::Help,
        Err(ArgError::MissingConfigPath) => ArgsOutcome::MissingConfigPath,
        Err(ArgError::UnknownOption(o)) => ArgsOutcome::UnknownOption(o@),
        Err(ArgError::TooManyArguments) => ArgsOutcome::TooManyArguments,
        Err(ArgError::MissingLeft) => ArgsOutcome::MissingLeft,
        Err(ArgError::MissingRight) => ArgsOutcome::MissingRight,
    }
}

/// Whether `s` has exactly the characters of `lit`.
fn is_word(s: &Vec<char>, lit: &str) -> (b: bool)
    ensures
        b == (s@ == lit@),
{
    let l = chars_of(lit);
    if s.len() != l.len() {
        return false;
    }
    let mut i: usize = 0;
    while i < s.len()
        invariant
            i <= s@.len(),
            s@.len() == l@.len(),
            l@ == lit@,
            forall|j: int| 0 <= j < i ==> s@[j] == l@[j],
        decreases s@.len() - i,
    {
        if s[i] != l[i] {
            return false;
        }
        i = i + 1;
    }
    proof {
        assert(s@ =~= l@);
    }
    true
}

/// Parses the command line; `args[0]` is the program's name.
pub fn parse_args(args: &[String]) -> (r: Result<CliRequest, ArgError>)
    ensures
        outcome_of(r) == parse_spec(args@.map_values(|a: String| a@)),
{
    let ghost av = args@.map_values(|a: String| a@);
    let mut left: Option<String> = None;
    let mut right: Option<String> = None;
    let mut config: Option<String> = None;
    let mut positional_only = false;
    let mut i: usize = 1;
    while i < args.len()
        invariant
            1 <= i,
            av == args@.map_values(|a: String| a@),
            parse_spec(av) == parse_from(
                av,
                i as int,
                match left {
                    Some(l) => Some(l@),
                    None => None,
                },
                match right {
                    Some(x) => Some(x@),
                    None => None,
                },
                match config {
                    Some(c) => Some(c@),
                    None => None,
                },
                positional_only,
            ),
        decreases args@.len() - i,
    {
        let arg = chars_of(args[i].as_str());
        proof {
            assert(arg@ == av[i as int]);
        }
        let option = !positional_only && arg.len() > 1 && arg[0] == '-';
        if option {
            if is_word(&arg, "--") {
                positional_only = true;
            } else if is_word(&arg, "--config") || is_word(&arg, "-c") {
                if i + 1 >= args.len() {
                    return Err(ArgError::MissingConfigPath);
                }
                i = i + 1;
                config = Some(args[i].clone());
                proof {
                    assert(av[i as int] == args@[i as int]@);
                }
            } else if is_word(&arg, "--help") || is_word(&arg, "-h") {
                return Ok(CliRequest::Help);
            } else {
                return Err(ArgError::UnknownOption(args[i].clone()));
            }
        } else if left.is_none() {
            left = Some(args[i].clone());
        } else if right.is_none() {
            right = Some(args[i].clone());
        } else {
            return Err(ArgError::TooManyArguments);
        }
        i = i + 1;
    }
    match (left, right) {
        (Some(l), Some(r)) => Ok(CliRequest::Run { left: l, right: r, config }),
        (None, _) => Err(ArgError::MissingLeft),
        (Some(_), None) => Err(ArgError::MissingRight),
    }
}

/// The one-line usage text.
pub fn usage_str() -> (s: &'static str)
    ensures
        s@ == "Usage: dircmp [--config <file>] [--] <left_folder> <right_folder>"@,
{
    "Usage: dircmp [--config <file>] [--] <left_folder> <right_folder>"
}

} // verus!
