use dircmp::app::external::{side_available, Side};
use dircmp::config::{ComparisonConfig, ComparisonStrategy, Config, ScanConfig, TextComparisonConfig};
use dircmp::engine::comparator::byte::ByteComparator;
use dircmp::engine::comparator::hash::{FileHasher, HashComparator};
use dircmp::engine::comparator::metadata::MetadataComparator;
use dircmp::engine::comparator::text::TextComparator;
use dircmp::engine::comparator::{create_comparator, size_precheck, CompareResult, Comparator};
use dircmp::engine::diff::{compare_entry, DiffEngine, DiffEntry, DiffFilter, DiffResult, DiffStatus};
use dircmp::engine::scanner::{Entry, EntryMap, ScanEvent, Scanner};
use dircmp::relpath::RelPath;

fn make_entry(status: DiffStatus) -> DiffEntry {
    DiffEntry { relative_path: RelPath::parse("file.txt"), status, is_dir: false }
}

fn file(map: &mut EntryMap, path: &str) {
    map.insert(RelPath::parse(path), Entry { is_dir: false });
}

fn dir(map: &mut EntryMap, path: &str) {
    map.insert(RelPath::parse(path), Entry { is_dir: true });
}

fn entry_for<'a>(result: &'a DiffResult, path: &str) -> Option<&'a DiffEntry> {
    let p = RelPath::parse(path);
    result.find_by_path(&p).map(|i| &result.entries()[i])
}

// ---------------------------------------------------------------------------
// Filter
// ---------------------------------------------------------------------------

#[test]
fn filter_all_enabled_passes_everything() {
    let filter = DiffFilter::default();
    assert!(filter.matches(&make_entry(DiffStatus::LeftOnly)));
    assert!(filter.matches(&make_entry(DiffStatus::RightOnly)));
    assert!(filter.matches(&make_entry(DiffStatus::Different)));
    assert!(filter.matches(&make_entry(DiffStatus::Identical)));
}

#[test]
fn filter_left_only_toggle() {
    let filter = DiffFilter { show_left_only: false, ..DiffFilter::default() };
    assert!(!filter.matches(&make_entry(DiffStatus::LeftOnly)));
    assert!(filter.matches(&make_entry(DiffStatus::RightOnly)));
    assert!(filter.matches(&make_entry(DiffStatus::Different)));
    assert!(filter.matches(&make_entry(DiffStatus::Identical)));
}

#[test]
fn filter_right_only_toggle() {
    let filter = DiffFilter { show_right_only: false, ..DiffFilter::default() };
    assert!(filter.matches(&make_entry(DiffStatus::LeftOnly)));
    assert!(!filter.matches(&make_entry(DiffStatus::RightOnly)));
}

#[test]
fn filter_different_toggle() {
    let filter = DiffFilter { show_different: false, ..DiffFilter::default() };
    assert!(!filter.matches(&make_entry(DiffStatus::Different)));
    assert!(filter.matches(&make_entry(DiffStatus::Identical)));
}

#[test]
fn filter_pending_always_passes() {
    let filter = DiffFilter {
        show_left_only: false,
        show_right_only: false,
        show_different: false,
        show_identical: false,
    };
    assert!(filter.matches(&make_entry(DiffStatus::Pending)));
}

#[test]
fn filter_untoggled_kinds_always_pass() {
    let filter = DiffFilter {
        show_left_only: false,
        show_right_only: false,
        show_different: false,
        show_identical: false,
    };
    assert!(filter.matches(&make_entry(DiffStatus::TypeConflict)));
    assert!(filter.matches(&make_entry(DiffStatus::Error("boom".to_string()))));
    assert!(!filter.matches(&make_entry(DiffStatus::Identical)));
}

#[test]
fn side_available_matches_entry_side() {
    assert!(side_available(&DiffStatus::LeftOnly, Side::Left));
    assert!(!side_available(&DiffStatus::LeftOnly, Side::Right));
    assert!(side_available(&DiffStatus::RightOnly, Side::Right));
    assert!(!side_available(&DiffStatus::RightOnly, Side::Left));
    for status in [
        DiffStatus::Different,
        DiffStatus::Identical,
        DiffStatus::TypeConflict,
        DiffStatus::Error(String::new()),
    ] {
        assert!(side_available(&status, Side::Left));
        assert!(side_available(&status, Side::Right));
    }
    for status in [DiffStatus::Pending, DiffStatus::DirectoryPresent] {
        assert!(!side_available(&status, Side::Left));
        assert!(!side_available(&status, Side::Right));
    }
}

// ---------------------------------------------------------------------------
// Text normalisation
// ---------------------------------------------------------------------------

#[test]
fn normalize_whitespace() {
    let cmp = TextComparator::new(true, false);
    let a = cmp.normalize_line("hello   world  ");
    let b = cmp.normalize_line("hello world");
    assert_eq!(a, b);
}

#[test]
fn normalize_case() {
    let cmp = TextComparator::new(false, true);
    let a = cmp.normalize_line("Hello World");
    let b = cmp.normalize_line("hello world");
    assert_eq!(a, b);
}

#[test]
fn normalize_both_and_neither() {
    let both = TextComparator::new(true, true);
    assert_eq!(both.normalize_line("  Foo \t BAR "), "foo bar");
    let neither = TextComparator::new(false, false);
    assert_eq!(neither.normalize_line("  Foo  "), "  Foo  ");
}

#[test]
fn text_line_steps() {
    let cmp = TextComparator::new(true, false);
    assert_eq!(cmp.line_step(Some("hello   world"), Some("hello world")), None);
    assert_eq!(cmp.line_step(Some("foo"), Some("bar")), Some(CompareResult::Different));
    assert_eq!(cmp.line_step(None, None), Some(CompareResult::Identical));
    assert_eq!(cmp.line_step(Some("foo"), None), Some(CompareResult::Different));
    let strict = TextComparator::new(false, false);
    assert_eq!(strict.line_step(Some("a b"), Some("a  b")), Some(CompareResult::Different));
}

#[test]
fn text_comparator_names() {
    assert_eq!(TextComparator::new(true, true).name(), "text (ignore whitespace, ignore case)");
    assert_eq!(TextComparator::new(false, false).name(), "text");
}

// ---------------------------------------------------------------------------
// Comparator decisions
// ---------------------------------------------------------------------------

#[test]
fn size_precheck_decides_on_sizes() {
    assert_eq!(size_precheck(Some((5, 24))), Some(CompareResult::Different));
    assert_eq!(size_precheck(Some((0, 0))), Some(CompareResult::Identical));
    assert_eq!(size_precheck(Some((11, 11))), None);
    assert_eq!(size_precheck(None), None);
}

#[test]
fn byte_chunks_decide() {
    let a = b"AAAA".to_vec();
    let b = b"BBBB".to_vec();
    assert_eq!(ByteComparator::chunk_step(&a, 4, &b, 4), Some(CompareResult::Different));
    assert_eq!(ByteComparator::chunk_step(&a, 4, &a, 4), None);
    assert_eq!(ByteComparator::chunk_step(&a, 0, &b, 0), Some(CompareResult::Identical));
    assert_eq!(ByteComparator::chunk_step(&a, 3, &a, 4), Some(CompareResult::Different));
    // Only the bytes that were read count.
    assert_eq!(ByteComparator::chunk_step(&a, 0, &b, 0), Some(CompareResult::Identical));
}

#[test]
fn metadata_verdicts() {
    let t: i128 = 1_700_000_000 * 1_000_000_000;
    assert_eq!(MetadataComparator::verdict(5, 14, t, t), CompareResult::Different);
    assert_eq!(MetadataComparator::verdict(5, 5, t, t), CompareResult::Identical);
    assert_eq!(MetadataComparator::verdict(5, 5, t, t + 2_000_000_000), CompareResult::Identical);
    assert_eq!(MetadataComparator::verdict(5, 5, t + 2_000_000_001, t), CompareResult::Different);
}

#[test]
fn hash_digests_decide() {
    let mut h1 = FileHasher::new();
    assert_eq!(h1.absorb(b"same content", 12), None);
    let d1 = h1.absorb(b"", 0).unwrap();
    let mut h2 = FileHasher::new();
    assert_eq!(h2.absorb(b"same ", 5), None);
    assert_eq!(h2.absorb(b"content and more", 7), None);
    let d2 = h2.absorb(b"", 0).unwrap();
    assert_eq!(HashComparator::verdict(&d1, &d2), CompareResult::Identical);
    let mut h3 = FileHasher::new();
    assert_eq!(h3.absorb(b"content B", 9), None);
    let d3 = h3.absorb(b"", 0).unwrap();
    assert_eq!(HashComparator::verdict(&d1, &d3), CompareResult::Different);
    // The digest is SHA-256's.
    assert_eq!(d1, hmac_sha256::Hash::hash(b"same content"));
    let mut empty = FileHasher::new();
    let e = empty.absorb(b"", 0).unwrap();
    let expected_empty: [u8; 32] = [
        0xe3, 0xb0, 0xc4, 0x42, 0x98, 0xfc, 0x1c, 0x14, 0x9a, 0xfb, 0xf4, 0xc8, 0x99, 0x6f, 0xb9, 0x24, 0x27, 0xae,
        0x41, 0xe4, 0x64, 0x9b, 0x93, 0x4c, 0xa4, 0x95, 0x99, 0x1b, 0x78, 0x52, 0xb8, 0x55,
    ];
    assert_eq!(e, expected_empty);
    assert_eq!(h1.fed_len(), 12);
}

#[test]
fn comparator_from_config() {
    let mut config = Config::default().comparison;
    assert!(matches!(create_comparator(&config), Comparator::Hash(_)));
    assert_eq!(create_comparator(&config).name(), "hash (SHA-256)");
    config.strategy = ComparisonStrategy::Text;
    config.text = TextComparisonConfig { ignore_whitespace: true, ignore_case: false };
    assert_eq!(create_comparator(&config).name(), "text (ignore whitespace)");
    let byte = ComparisonConfig { strategy: ComparisonStrategy::Byte, ..config.clone() };
    assert_eq!(create_comparator(&byte).name(), "byte-by-byte");
    let meta = ComparisonConfig { strategy: ComparisonStrategy::Metadata, ..config };
    assert_eq!(create_comparator(&meta).name(), "metadata (size + mtime)");
}

#[test]
fn compare_entry_maps_outcomes() {
    assert_eq!(compare_entry(Ok(CompareResult::Identical)), DiffStatus::Identical);
    assert_eq!(compare_entry(Ok(CompareResult::Different)), DiffStatus::Different);
    assert_eq!(compare_entry(Err("Read error a.txt".to_string())), DiffStatus::Error("Read error a.txt".to_string()));
}

// ---------------------------------------------------------------------------
// Structural diff over scanned maps
// ---------------------------------------------------------------------------

#[test]
fn structural_diff_classifies_paths() {
    let mut left = EntryMap::new();
    let mut right = EntryMap::new();
    file(&mut left, "a.txt");
    file(&mut right, "a.txt");
    file(&mut left, "only_left.txt");
    file(&mut right, "only_right.txt");
    dir(&mut left, "sub");
    dir(&mut right, "sub");
    file(&mut left, "sub/x.rs");
    file(&mut left, "thing");
    dir(&mut right, "thing");
    let result = DiffEngine::diff_structure(&left, &right);
    assert_eq!(result.entries().len(), 6);
    assert_eq!(entry_for(&result, "a.txt").unwrap().status, DiffStatus::Pending);
    assert_eq!(entry_for(&result, "only_left.txt").unwrap().status, DiffStatus::LeftOnly);
    assert_eq!(entry_for(&result, "only_right.txt").unwrap().status, DiffStatus::RightOnly);
    assert_eq!(entry_for(&result, "sub").unwrap().status, DiffStatus::DirectoryPresent);
    assert_eq!(entry_for(&result, "sub/x.rs").unwrap().status, DiffStatus::LeftOnly);
    let thing = entry_for(&result, "thing");
    assert!(thing.is_some(), "expected an entry for 'thing'");
    assert_eq!(thing.unwrap().status, DiffStatus::TypeConflict);
    // Entries come sorted by path.
    let paths: Vec<String> = result.entries().iter().map(|e| e.relative_path.display()).collect();
    assert_eq!(paths, vec!["a.txt", "only_left.txt", "only_right.txt", "sub", "sub/x.rs", "thing"]);
    assert_eq!(result.total(), 5);
    assert_eq!(result.count_left_only(), 2);
    assert_eq!(result.count_right_only(), 1);
    let pending: Vec<String> = result.pending_paths().iter().map(|p| p.display()).collect();
    assert_eq!(pending, vec!["a.txt"]);
}

#[test]
fn full_diff_counts_by_status() {
    let mut left = EntryMap::new();
    let mut right = EntryMap::new();
    for p in ["same.txt", "diff.txt", "left_only.txt"] {
        file(&mut left, p);
    }
    for p in ["same.txt", "diff.txt"] {
        file(&mut right, p);
    }
    let comparator = Comparator::Hash(HashComparator::new());
    let engine = DiffEngine::new(&comparator);
    let result = engine.diff(&left, &right, |_c: &Comparator, p: &RelPath| {
        if p.display() == "same.txt" {
            Ok(CompareResult::Identical)
        } else {
            Ok(CompareResult::Different)
        }
    });
    assert_eq!(result.total(), 3);
    assert_eq!(result.identical().len(), 1);
    assert_eq!(result.different().len(), 1);
    assert_eq!(result.left_only().len(), 1);
    assert_eq!(result.right_only().len(), 0);
    let filtered: Vec<&DiffEntry> = result.entries().iter().filter(|e| e.status.has_difference()).collect();
    assert_eq!(filtered.len(), 2);
    assert!(filtered.iter().all(|e| e.status.has_difference()));
}

#[test]
fn read_errors_become_error_entries() {
    let mut left = EntryMap::new();
    let mut right = EntryMap::new();
    file(&mut left, "a.txt");
    file(&mut right, "a.txt");
    let comparator = Comparator::Byte(ByteComparator::new());
    let result = DiffEngine::new(&comparator).diff(&left, &right, |_c: &Comparator, _p: &RelPath| Err("Read error a.txt".to_string()));
    assert_eq!(entry_for(&result, "a.txt").unwrap().status, DiffStatus::Error("Read error a.txt".to_string()));
    assert!(result.entries()[0].status.has_difference());
    assert!(!result.entries()[0].status.is_same());
}

#[test]
fn update_entry_status_keeps_counts() {
    let mut left = EntryMap::new();
    let mut right = EntryMap::new();
    file(&mut left, "a.txt");
    file(&mut right, "a.txt");
    file(&mut left, "b.txt");
    file(&mut right, "b.txt");
    let mut result = DiffEngine::diff_structure(&left, &right);
    assert_eq!(result.count_different(), 0);
    let idx = result.find_by_path(&RelPath::parse("b.txt")).unwrap();
    result.update_entry_status(idx, DiffStatus::Different);
    assert_eq!(result.count_different(), 1);
    result.update_entry_status(idx, DiffStatus::Identical);
    assert_eq!(result.count_different(), 0);
    assert_eq!(result.count_identical(), 1);
    assert_eq!(result.total(), 2);
    assert_eq!(result.find_by_path(&RelPath::parse("c.txt")), None);
}

// ---------------------------------------------------------------------------
// Scanning decisions
// ---------------------------------------------------------------------------

fn scanner_with(patterns: &[&str]) -> Scanner {
    Scanner::new(ScanConfig {
        ignore_patterns: patterns.iter().map(|s| s.to_string()).collect(),
        follow_symlinks: false,
    })
}

#[test]
fn ignore_patterns_match_whole_names() {
    let scanner = scanner_with(&[".git", "node_modules"]);
    assert!(scanner.is_ignored(".git"));
    assert!(!scanner.is_ignored("a.txt"));
    assert!(!scanner.is_ignored(".gitignore"));
    let nested = scanner_with(&["target/debug"]);
    assert!(!nested.is_ignored("debug"));
}

#[test]
fn root_matching_ignore_pattern_is_admitted() {
    let scanner = scanner_with(&["node_modules"]);
    assert!(scanner.admits(0, "node_modules"));
    assert!(!scanner.admits(1, "node_modules"));
    assert!(scanner.admits(1, "a.txt"));
}

#[test]
fn scan_events_fill_the_map() {
    let mut map = EntryMap::new();
    let mut errors: usize = 0;
    Scanner::record(&mut map, &mut errors, ScanEvent::Item { relative: RelPath::parse(""), is_dir: Some(true) });
    Scanner::record(&mut map, &mut errors, ScanEvent::Item { relative: RelPath::parse("root.txt"), is_dir: Some(false) });
    Scanner::record(&mut map, &mut errors, ScanEvent::Item { relative: RelPath::parse("sub"), is_dir: Some(true) });
    Scanner::record(&mut map, &mut errors, ScanEvent::Item { relative: RelPath::parse("sub/nested.txt"), is_dir: Some(false) });
    Scanner::record(&mut map, &mut errors, ScanEvent::Item { relative: RelPath::parse("broken"), is_dir: None });
    Scanner::record(&mut map, &mut errors, ScanEvent::Unreadable);
    assert_eq!(map.len(), 3);
    assert!(map.contains_key(&RelPath::parse("root.txt")));
    assert!(map.contains_key(&RelPath::parse("sub/nested.txt")));
    assert!(map.get(&RelPath::parse("sub")).is_some_and(|e| e.is_dir));
    assert!(!map.contains_key(&RelPath::parse("broken")));
    assert_eq!(errors, 2);
}

#[test]
fn entry_map_read_after_write() {
    let mut map = EntryMap::new();
    file(&mut map, "b.txt");
    file(&mut map, "a.txt");
    dir(&mut map, "b.txt");
    assert_eq!(map.len(), 2);
    assert_eq!(map.get(&RelPath::parse("b.txt")), Some(Entry { is_dir: true }));
    assert_eq!(map.get(&RelPath::parse("a.txt")), Some(Entry { is_dir: false }));
    assert_eq!(map.get(&RelPath::parse("c.txt")), None);
    assert_eq!(map.key_at(0).display(), "a.txt");
}

#[test]
fn swapping_sides_mirrors_the_structural_diff() {
    let mut left = EntryMap::new();
    let mut right = EntryMap::new();
    file(&mut left, "a.txt");
    file(&mut right, "a.txt");
    file(&mut left, "l.txt");
    file(&mut right, "r.txt");
    file(&mut left, "thing");
    dir(&mut right, "thing");
    let ab = DiffEngine::diff_structure(&left, &right);
    let ba = DiffEngine::diff_structure(&right, &left);
    let ab_status: Vec<DiffStatus> = ab.entries().iter().map(|e| e.status.clone()).collect();
    let ba_status: Vec<DiffStatus> = ba.entries().iter().map(|e| e.status.clone()).collect();
    assert_eq!(ab_status, vec![DiffStatus::Pending, DiffStatus::LeftOnly, DiffStatus::RightOnly, DiffStatus::TypeConflict]);
    assert_eq!(ba_status, vec![DiffStatus::Pending, DiffStatus::RightOnly, DiffStatus::LeftOnly, DiffStatus::TypeConflict]);
}

#[test]
fn pending_paths_are_the_pending_entries() {
    let mut left = EntryMap::new();
    let mut right = EntryMap::new();
    for p in ["a", "b", "c"] {
        file(&mut left, p);
    }
    for p in ["b", "c", "d"] {
        file(&mut right, p);
    }
    let mut r = DiffEngine::diff_structure(&left, &right);
    let idx = r.find_by_path(&RelPath::parse("c")).unwrap();
    r.update_entry_status(idx, DiffStatus::Identical);
    let pending: Vec<String> = r.pending_paths().iter().map(|p| p.display()).collect();
    assert_eq!(pending, vec!["b"]);
}

#[test]
fn default_template_holds_the_defaults() {
    let table: toml::Table = Config::default_template().parse().unwrap();
    let comparison = table["comparison"].as_table().unwrap();
    assert_eq!(comparison["strategy"].as_str(), Some("hash"));
    assert_eq!(comparison["parallel"].as_bool(), Some(true));
    let text = comparison["text"].as_table().unwrap();
    assert_eq!(text["ignore_whitespace"].as_bool(), Some(true));
    assert_eq!(text["ignore_case"].as_bool(), Some(false));
    let scan = table["scan"].as_table().unwrap();
    let patterns: Vec<&str> = scan["ignore_patterns"].as_array().unwrap().iter().map(|v| v.as_str().unwrap()).collect();
    let defaults = Config::default();
    assert_eq!(patterns, defaults.scan.ignore_patterns.iter().map(|s| s.as_str()).collect::<Vec<_>>());
    assert_eq!(scan["follow_symlinks"].as_bool(), Some(false));
    assert!(table["tools"].as_table().unwrap().is_empty());
}

#[test]
fn total_is_the_sum_of_the_kinds() {
    let mut left = EntryMap::new();
    let mut right = EntryMap::new();
    for p in ["a", "b", "c", "e"] {
        file(&mut left, p);
    }
    for p in ["b", "c", "d"] {
        file(&mut right, p);
    }
    dir(&mut right, "e");
    dir(&mut left, "x");
    dir(&mut right, "x");
    let mut r = DiffEngine::diff_structure(&left, &right);
    let i = r.find_by_path(&RelPath::parse("b")).unwrap();
    r.update_entry_status(i, DiffStatus::Different);
    let sum = r.count_different() + r.count_left_only() + r.count_right_only() + r.count_identical()
        + r.entries().iter().filter(|e| matches!(e.status, DiffStatus::Pending | DiffStatus::TypeConflict | DiffStatus::Error(_))).count();
    assert_eq!(r.total(), 5);
    assert_eq!(sum, r.total());
}

#[test]
fn structural_diff_does_not_depend_on_insertion_order() {
    let mut l1 = EntryMap::new();
    let mut l2 = EntryMap::new();
    let mut right = EntryMap::new();
    for p in ["z", "a/b", "m", "a"] {
        file(&mut l1, p);
    }
    for p in ["a", "m", "a/b", "z"] {
        file(&mut l2, p);
    }
    file(&mut right, "m");
    let d1 = DiffEngine::diff_structure(&l1, &right);
    let d2 = DiffEngine::diff_structure(&l2, &right);
    let v1: Vec<(String, DiffStatus)> = d1.entries().iter().map(|e| (e.relative_path.display(), e.status.clone())).collect();
    let v2: Vec<(String, DiffStatus)> = d2.entries().iter().map(|e| (e.relative_path.display(), e.status.clone())).collect();
    assert_eq!(v1, v2);
    assert_eq!(v1[0].0, "a");
    assert_eq!(v1[1].0, "a/b");
}

#[test]
fn metadata_verdict_is_symmetric() {
    let t: i128 = 1_000_000_000_000;
    for (la, lb, ma, mb) in [(1u64, 1u64, t, t + 1_999_999_999), (3, 4, t, t), (7, 7, t + 3_000_000_000, t)] {
        assert_eq!(MetadataComparator::verdict(la, lb, ma, mb), MetadataComparator::verdict(lb, la, mb, ma));
    }
}

#[test]
fn structural_diff_has_no_compared_statuses() {
    let mut left = EntryMap::new();
    let mut right = EntryMap::new();
    for p in ["a", "b"] {
        file(&mut left, p);
        file(&mut right, p);
    }
    file(&mut left, "c");
    dir(&mut right, "d");
    let r = DiffEngine::diff_structure(&left, &right);
    assert_eq!(r.count_different(), 0);
    assert_eq!(r.count_identical(), 0);
    assert_eq!(r.count_left_only(), 1);
    assert_eq!(r.count_right_only(), 1);
    assert_eq!(r.total(), 4);
    assert!(r.entries().iter().all(|e| !matches!(e.status, DiffStatus::Error(_))));
}
