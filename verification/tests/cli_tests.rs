use dircmp::cli::{parse_args, usage_str, ArgError, CliRequest};
use dircmp::config::{default_true, Config, ComparisonStrategy};
use dircmp::platform::{dev_major, dev_minor, flag_is_set, sysfs_block_path};
use dircmp::relpath::RelPath;
use dircmp::tools::{action_tool, command_line, split_words, ExternalAction, ToolError, ToolKind};

fn args(list: &[&str]) -> Vec<String> {
    list.iter().map(|s| s.to_string()).collect()
}

fn run(list: &[&str]) -> (String, String, Option<String>) {
    match parse_args(&args(list)) {
        Ok(CliRequest::Run { left, right, config }) => (left, right, config),
        other => panic!("unexpected {other:?}"),
    }
}

#[test]
fn two_folders() {
    assert_eq!(run(&["dircmp", "/a", "/b"]), ("/a".to_string(), "/b".to_string(), None));
}

#[test]
fn config_option_anywhere() {
    assert_eq!(
        run(&["dircmp", "/backup/docs", "/current/docs", "--config", "/c.toml"]),
        ("/backup/docs".to_string(), "/current/docs".to_string(), Some("/c.toml".to_string()))
    );
    assert_eq!(run(&["dircmp", "-c", "x.toml", "l", "r"]).2, Some("x.toml".to_string()));
}

#[test]
fn double_dash_makes_everything_a_path() {
    assert_eq!(run(&["dircmp", "--", "-left", "--help"]), ("-left".to_string(), "--help".to_string(), None));
    // A lone `-` is a path, not an option.
    assert_eq!(run(&["dircmp", "-", "b"]).0, "-".to_string());
}

#[test]
fn argument_errors() {
    assert!(matches!(parse_args(&args(&["dircmp", "a", "--config"])), Err(ArgError::MissingConfigPath)));
    match parse_args(&args(&["dircmp", "--verbose", "a", "b"])) {
        Err(ArgError::UnknownOption(o)) => assert_eq!(o, "--verbose"),
        other => panic!("unexpected {other:?}"),
    }
    assert!(matches!(parse_args(&args(&["dircmp", "a", "b", "c"])), Err(ArgError::TooManyArguments)));
    assert!(matches!(parse_args(&args(&["dircmp"])), Err(ArgError::MissingLeft)));
    assert!(matches!(parse_args(&args(&["dircmp", "a"])), Err(ArgError::MissingRight)));
    assert!(matches!(parse_args(&args(&["dircmp", "a", "-h"])), Ok(CliRequest::Help)));
    assert!(matches!(parse_args(&args(&["dircmp", "--help", "x", "y", "z"])), Ok(CliRequest::Help)));
    assert_eq!(usage_str(), "Usage: dircmp [--config <file>] [--] <left_folder> <right_folder>");
}

#[test]
fn tool_commands_split_on_whitespace() {
    let (p, a) = command_line("nvim -d").unwrap();
    assert_eq!(p, "nvim");
    assert_eq!(a, vec!["-d".to_string()]);
    let (p, a) = command_line("  bat   --paging=always ").unwrap();
    assert_eq!(p, "bat");
    assert_eq!(a, vec!["--paging=always".to_string()]);
    assert_eq!(command_line("   "), Err(ToolError::EmptyCommand));
    assert_eq!(split_words("a\tb\n c"), vec!["a", "b", "c"]);
}

#[test]
fn actions_pick_their_tool() {
    let mut c = Config::default();
    c.tools.editor = Some("nvim".to_string());
    let edit = ExternalAction::EditRight(RelPath::parse("x.txt"));
    assert_eq!(edit.kind(), ToolKind::Editor);
    assert_eq!(action_tool(&c.tools, &edit).map(|s| s.as_str()), Some("nvim"));
    let view = ExternalAction::ViewLeft(RelPath::parse("x.txt"));
    assert_eq!(action_tool(&c.tools, &view), None);
}

#[test]
fn default_config() {
    let c = Config::default();
    assert_eq!(c.comparison.strategy, ComparisonStrategy::Hash);
    assert!(c.comparison.parallel);
    assert!(c.comparison.text.ignore_whitespace);
    assert!(!c.comparison.text.ignore_case);
    assert_eq!(c.scan.ignore_patterns, vec![".git", ".DS_Store", "Thumbs.db", "node_modules"]);
    assert!(!c.scan.follow_symlinks);
    assert!(c.tools.diff_tool.is_none() && c.tools.viewer.is_none() && c.tools.editor.is_none());
    assert!(default_true());
    assert!(Config::default_template().contains("strategy = \"hash\""));
}

#[test]
fn device_numbers() {
    // 8:1 (sda1) as glibc encodes it.
    let dev: u64 = (8 << 8) | 1;
    assert_eq!(dev_major(dev), 8);
    assert_eq!(dev_minor(dev), 1);
    // 259:3 (an NVMe partition), with the high minor bits.
    let dev: u64 = ((259 & 0xfff) << 8) | ((259 & !0xfff) << 32) | (3 & 0xff) | ((3 & !0xff) << 12);
    assert_eq!(dev_major(dev), 259);
    assert_eq!(dev_minor(dev), 3);
    assert_eq!(sysfs_block_path(259, 3), "/sys/dev/block/259:3");
}

#[test]
fn rotational_flag_text() {
    assert!(flag_is_set("1\n"));
    assert!(flag_is_set("  1 "));
    assert!(!flag_is_set("0\n"));
    assert!(!flag_is_set(""));
    assert!(!flag_is_set("11"));
    assert!(!flag_is_set("1 1"));
}

#[test]
fn relative_paths_parse_and_display() {
    let p = RelPath::parse("./src//lib.rs/");
    assert_eq!(p.len(), 2);
    assert_eq!(p.display(), "src/lib.rs");
    assert_eq!(RelPath::parse("").len(), 0);
    assert_eq!(p.parent().display(), "src");
    assert!(p.same_as(&RelPath::parse("src/lib.rs")));
}

#[test]
fn whitespace_agrees_with_std() {
    for u in (0u32..0x3100).chain([0xfeff, 0xffff, 0x10ffff]) {
        if let Some(c) = char::from_u32(u) {
            let words = split_words(&format!("a{c}b"));
            assert_eq!(words.len() == 2, c.is_whitespace(), "code point {u:#x}");
        }
    }
}
