//! Configuration model: comparison strategy, scan settings and external tools.
//!
//! Reading and writing the TOML file happens outside the library; this module
//! holds the values and their defaults.
use vstd::prelude::*;

verus! {

/// Top-level configuration.
#[derive(Debug, Clone)]
pub struct Config {
    pub comparison: ComparisonConfig,
    pub ui: UiConfig,
    pub scan: ScanConfig,
    pub tools: ToolsConfig,
}

#[derive(Debug, Clone)]
pub struct ComparisonConfig {
    pub strategy: ComparisonStrategy,
    pub text: TextComparisonConfig,
    /// Use parallel file comparison (SSD-optimised). Default: true.
    pub parallel: bool,
}

/// Which file comparison strategy to use.
#[derive(Debug, Clone, Copy, PartialEq, Eq, Structural)]
pub enum ComparisonStrategy {
    Hash,
    Metadata,
    Byte,
    Text,
}

#[derive(Debug, Clone, Copy, PartialEq, Eq, Structural)]
pub struct TextComparisonConfig {
    pub ignore_whitespace: bool,
    pub ignore_case: bool,
}

/// Reserved for future UI settings.
#[derive(Debug, Clone, Copy, Default, PartialEq, Eq, Structural)]
pub struct UiConfig {}

/// External tools: each is a command line split by whitespace into a program
/// and its leading arguments; file paths are appended after them.
#[derive(Debug, Clone, Default)]
pub struct ToolsConfig {
    pub diff_tool: Option<String>,
    pub viewer: Option<String>,
    pub editor: Option<String>,
}

#[derive(Debug, Clone)]
pub struct ScanConfig {
    /// Names (last path segment only) that are skipped during the scan.
    pub ignore_patterns: Vec<String>,
    pub follow_symlinks: bool,
}

/// The value `parallel` takes when the configuration file omits it.
pub fn default_true() -> (b: bool)
    ensures
        b,
{
    true
}

/// The ignore patterns of the default configuration, as character sequences.
pub open spec fn default_ignore_patterns() -> Seq<Seq<char>> {
    seq![".git"@, ".DS_Store"@, "Thumbs.db"@, "node_modules"@]
}

/// The views of a list of strings.
pub open spec fn strings_view(v: Seq<String>) -> Seq<Seq<char>> {
    v.map_values(|s: String| s@)
}

impl Default for Config {
    fn default() -> (c: Self)
        ensures
            c.comparison.strategy == ComparisonStrategy::Hash,
            c.comparison.text.ignore_whitespace,
            !c.comparison.text.ignore_case,
            c.comparison.parallel,
            strings_view(c.scan.ignore_patterns@) == default_ignore_patterns(),
            !c.scan.follow_symlinks,
            c.tools.diff_tool is None,
            c.tools.viewer is None,
            c.tools.editor is None,
    {
        let mut patterns: Vec<String> = Vec::new();
        patterns.push(String::from_str(".git"));
        patterns.push(String::from_str(".DS_Store"));
        patterns.push(String::from_str("Thumbs.db"));
        patterns.push(String::from_str("node_modules"));
        let c = Config {
            comparison: ComparisonConfig {
                strategy: ComparisonStrategy::Hash,
                text: TextComparisonConfig { ignore_whitespace: true, ignore_case: false },
                parallel: true,
            },
            ui: UiConfig {},
            scan: ScanConfig { ignore_patterns: patterns, follow_symlinks: false },
            tools: ToolsConfig { diff_tool: None, viewer: None, editor: None },
        };
        proof {
            assert(strings_view(c.scan.ignore_patterns@) =~= default_ignore_patterns());
        }
        c
    }
}

/// The text of the default configuration file.
pub open spec fn default_template_text() -> Seq<char> {
    "# dircmp configuration\n\
     \n\
     [comparison]\n\
     # hash | metadata | byte | text\n\
     strategy = \"hash\"\n\
     # false recommended for HDDs\n\
     parallel = true\n\
     \n\
     [comparison.text]\n\
     ignore_whitespace = true\n\
     ignore_case = false\n\
     \n\
     [scan]\n\
     ignore_patterns = [\".git\", \".DS_Store\", \"Thumbs.db\", \"node_modules\"]\n\
     follow_symlinks = false\n\
     \n\
     [tools]\n\
     # Invoked on Enter for Different files, e.g. \"nvim -d\"\n\
     # diff_tool = \"nvim -d\"\n\
     # Invoked on [ / ] or Enter for single-side files\n\
     # viewer = \"bat --paging=always\"\n\
     # Invoked on { / }\n\
     # editor = \"nvim\"\n"@
}

impl Config {
    /// The default configuration file contents (TOML with comments), written
    /// on first run when no configuration file exists.
    pub fn default_template() -> (s: &'static str)
        ensures
            s@ == default_template_text(),
    {
        "# dircmp configuration\n\
         \n\
         [comparison]\n\
         # hash | metadata | byte | text\n\
         strategy = \"hash\"\n\
         # false recommended for HDDs\n\
         parallel = true\n\
         \n\
         [comparison.text]\n\
         ignore_whitespace = true\n\
         ignore_case = false\n\
         \n\
         [scan]\n\
         ignore_patterns = [\".git\", \".DS_Store\", \"Thumbs.db\", \"node_modules\"]\n\
         follow_symlinks = false\n\
         \n\
         [tools]\n\
         # Invoked on Enter for Different files, e.g. \"nvim -d\"\n\
         # diff_tool = \"nvim -d\"\n\
         # Invoked on [ / ] or Enter for single-side files\n\
         # viewer = \"bat --paging=always\"\n\
         # Invoked on { / }\n\
         # editor = \"nvim\"\n"
    }
}

} // verus!
