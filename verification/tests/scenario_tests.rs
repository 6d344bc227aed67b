//! Folder-comparison scenarios on in-memory trees: the file contents are
//! fed to the library's decisions the way the program feeds what it reads.
use dircmp::config::ScanConfig;
use dircmp::engine::comparator::byte::{ByteComparator, BUF_SIZE};
use dircmp::engine::comparator::hash::{FileHasher, HashComparator, HASH_BUF_SIZE};
use dircmp::engine::comparator::metadata::MetadataComparator;
use dircmp::engine::comparator::text::TextComparator;
use dircmp::engine::comparator::{size_precheck, CompareResult, Comparator};
use dircmp::engine::diff::{DiffEngine, DiffFilter, DiffResult, DiffStatus};
use dircmp::engine::scanner::{EntryMap, ScanEvent, Scanner};
use dircmp::relpath::RelPath;

fn digest(data: &[u8]) -> [u8; 32] {
    let mut hasher = FileHasher::new();
    let mut off = 0;
    loop {
        let n = HASH_BUF_SIZE.min(data.len() - off);
        if let Some(d) = hasher.absorb(&data[off..off + n], n) {
            return d;
        }
        off += n;
    }
}

fn hash_compare(a: &[u8], b: &[u8]) -> CompareResult {
    if let Some(r) = size_precheck(Some((a.len() as u64, b.len() as u64))) {
        return r;
    }
    HashComparator::verdict(&digest(a), &digest(b))
}

fn byte_compare(a: &[u8], b: &[u8]) -> CompareResult {
    if let Some(r) = size_precheck(Some((a.len() as u64, b.len() as u64))) {
        return r;
    }
    let mut off = 0;
    loop {
        let n_a = BUF_SIZE.min(a.len().saturating_sub(off));
        let n_b = BUF_SIZE.min(b.len().saturating_sub(off));
        let ca = &a[off.min(a.len())..];
        let cb = &b[off.min(b.len())..];
        if let Some(r) = ByteComparator::chunk_step(ca, n_a, cb, n_b) {
            return r;
        }
        off += n_a;
    }
}

fn text_compare(cmp: &TextComparator, a: &str, b: &str) -> CompareResult {
    let mut la = a.lines();
    let mut lb = b.lines();
    loop {
        if let Some(r) = cmp.line_step(la.next(), lb.next()) {
            return r;
        }
    }
}

/// A folder tree: (relative path, contents, or `None` for a directory).
type Tree<'a> = &'a [(&'a str, Option<&'a [u8]>)];

/// Walks `tree` the way the program walks a folder: the root first, then
/// each item in order, pruning skipped names and everything below them.
fn scan(scanner: &Scanner, tree: Tree) -> (EntryMap, usize) {
    let mut map = EntryMap::new();
    let mut errors = 0usize;
    let mut pruned: Vec<String> = Vec::new();
    assert!(scanner.admits(0, "root"));
    Scanner::record(&mut map, &mut errors, ScanEvent::Item { relative: RelPath::parse(""), is_dir: Some(true) });
    for (path, contents) in tree {
        if pruned.iter().any(|p| path.starts_with(&format!("{p}/"))) {
            continue;
        }
        let depth = path.split('/').count();
        let name = path.rsplit('/').next().unwrap();
        if !scanner.admits(depth, name) {
            pruned.push(path.to_string());
            continue;
        }
        Scanner::record(&mut map, &mut errors, ScanEvent::Item { relative: RelPath::parse(path), is_dir: Some(contents.is_none()) });
    }
    (map, errors)
}

fn default_scan_config() -> ScanConfig {
    ScanConfig { ignore_patterns: vec![], follow_symlinks: false }
}

fn contents_of<'a>(tree: Tree<'a>, path: &str) -> &'a [u8] {
    tree.iter().find(|(p, _)| *p == path).and_then(|(_, c)| *c).unwrap()
}

fn hash_diff(left: Tree, right: Tree) -> DiffResult {
    let scanner = Scanner::new(default_scan_config());
    let (left_map, _) = scan(&scanner, left);
    let (right_map, _) = scan(&scanner, right);
    let comparator = Comparator::Hash(HashComparator::new());
    let engine = DiffEngine::new(&comparator);
    engine.diff(&left_map, &right_map, |_c: &Comparator, p: &RelPath| {
        let name = p.display();
        Ok(hash_compare(contents_of(left, &name), contents_of(right, &name)))
    })
}

fn has_path(map: &EntryMap, path: &str) -> bool {
    map.contains_key(&RelPath::parse(path))
}

#[test]
fn identical_folders() {
    let left: Tree = &[("a.txt", Some(&b"hello"[..]))];
    let right: Tree = &[("a.txt", Some(&b"hello"[..]))];
    let result = hash_diff(left, right);
    assert_eq!(result.total(), 1);
    assert_eq!(result.identical().len(), 1);
    assert_eq!(result.entries().iter().filter(|e| e.status.has_difference()).count(), 0);
}

#[test]
fn left_only_file() {
    let left: Tree = &[("only_left.txt", Some(&b"data"[..]))];
    let result = hash_diff(left, &[]);
    assert_eq!(result.left_only().len(), 1);
    assert_eq!(result.right_only().len(), 0);
}

#[test]
fn right_only_file() {
    let right: Tree = &[("only_right.txt", Some(&b"data"[..]))];
    let result = hash_diff(&[], right);
    assert_eq!(result.right_only().len(), 1);
    assert_eq!(result.left_only().len(), 0);
}

#[test]
fn ignore_patterns() {
    let left: Tree = &[("a.txt", Some(&b"hello"[..])), (".git", Some(&b"ignored"[..]))];
    let scanner = Scanner::new(ScanConfig { ignore_patterns: vec![".git".to_string()], follow_symlinks: false });
    let (map, _) = scan(&scanner, left);
    assert!(!has_path(&map, ".git"));
    assert!(has_path(&map, "a.txt"));
}

#[test]
fn root_matching_ignore_pattern_is_still_scanned() {
    // The root itself is named `node_modules`; only what is inside it is
    // subject to the pattern.
    let root: Tree = &[("a.txt", Some(&b"hello"[..])), ("node_modules", None), ("node_modules/nested.txt", Some(&b"ignored"[..]))];
    let scanner = Scanner::new(ScanConfig { ignore_patterns: vec!["node_modules".to_string()], follow_symlinks: false });
    assert!(scanner.admits(0, "node_modules"));
    let (map, _) = scan(&scanner, root);
    assert!(has_path(&map, "a.txt"));
    assert!(!has_path(&map, "node_modules/nested.txt"));
}

#[test]
fn hash_comparator_identical() {
    assert_eq!(hash_compare(b"same content", b"same content"), CompareResult::Identical);
}

#[test]
fn hash_comparator_different() {
    assert_eq!(hash_compare(b"content A", b"content B"), CompareResult::Different);
}

#[test]
fn filter_differences_only() {
    let left: Tree = &[("same.txt", Some(&b"identical"[..])), ("diff.txt", Some(&b"left"[..])), ("left_only.txt", Some(&b"only"[..]))];
    let right: Tree = &[("same.txt", Some(&b"identical"[..])), ("diff.txt", Some(&b"right"[..]))];
    let result = hash_diff(left, right);
    assert_eq!(result.total(), 3);
    let filter = DiffFilter { show_identical: false, ..DiffFilter::default() };
    let filtered: Vec<_> = result.entries().iter().filter(|e| filter.matches(e)).collect();
    assert_eq!(filtered.len(), 2);
    assert!(filtered.iter().all(|e| e.status.has_difference()));
}

#[test]
fn byte_comparator_identical() {
    assert_eq!(byte_compare(b"binary data", b"binary data"), CompareResult::Identical);
}

#[test]
fn byte_comparator_different_content_same_size() {
    assert_eq!(byte_compare(b"AAAA", b"BBBB"), CompareResult::Different);
}

#[test]
fn byte_comparator_different_sizes_fast_path() {
    assert_eq!(byte_compare(b"short", b"much longer content here"), CompareResult::Different);
}

#[test]
fn byte_comparator_empty_files() {
    assert_eq!(byte_compare(b"", b""), CompareResult::Identical);
}

#[test]
fn byte_comparator_multi_chunk_files() {
    let a = vec![7u8; BUF_SIZE * 2 + 10];
    let mut b = a.clone();
    assert_eq!(byte_compare(&a, &b), CompareResult::Identical);
    b[BUF_SIZE + 3] = 8;
    assert_eq!(byte_compare(&a, &b), CompareResult::Different);
}

#[test]
fn metadata_comparator_different_sizes() {
    let t: i128 = 1_700_000_000 * 1_000_000_000;
    let (a, b): (&[u8], &[u8]) = (b"short", b"longer content");
    assert_eq!(MetadataComparator::verdict(a.len() as u64, b.len() as u64, t, t), CompareResult::Different);
}

#[test]
fn metadata_comparator_same_size_and_mtime() {
    let fixed_mtime: i128 = 1_700_000_000 * 1_000_000_000;
    let (a, b): (&[u8], &[u8]) = (b"hello", b"hello");
    assert_eq!(
        MetadataComparator::verdict(a.len() as u64, b.len() as u64, fixed_mtime, fixed_mtime),
        CompareResult::Identical
    );
}

#[test]
fn text_comparator_identical_files() {
    let cmp = TextComparator::new(false, false);
    assert_eq!(text_compare(&cmp, "hello world\n", "hello world\n"), CompareResult::Identical);
}

#[test]
fn text_comparator_different_files() {
    let cmp = TextComparator::new(false, false);
    assert_eq!(text_compare(&cmp, "foo\n", "bar\n"), CompareResult::Different);
}

#[test]
fn text_comparator_whitespace_normalization() {
    let cmp = TextComparator::new(true, false);
    assert_eq!(text_compare(&cmp, "hello   world\n  foo  \n", "hello world\nfoo\n"), CompareResult::Identical);
}

#[test]
fn text_comparator_case_normalization() {
    let cmp = TextComparator::new(false, true);
    assert_eq!(text_compare(&cmp, "Hello World\n", "hello world\n"), CompareResult::Identical);
}

#[test]
fn text_comparator_extra_line_differs() {
    let cmp = TextComparator::new(true, true);
    assert_eq!(text_compare(&cmp, "a\nb\n", "a\n"), CompareResult::Different);
}

#[test]
fn type_conflict_file_vs_directory() {
    let left: Tree = &[("thing", Some(&b"data"[..]))];
    let right: Tree = &[("thing", None)];
    let result = hash_diff(left, right);
    let conflict = result.entries().iter().find(|e| e.relative_path.display() == "thing");
    assert!(conflict.is_some(), "expected an entry for 'thing'");
    assert_eq!(conflict.unwrap().status, DiffStatus::TypeConflict);
}

#[test]
fn scanner_recurses_into_subdirectories() {
    let tree: Tree = &[("root.txt", Some(&b"root"[..])), ("sub", None), ("sub/nested.txt", Some(&b"nested"[..]))];
    let scanner = Scanner::new(default_scan_config());
    let (map, _) = scan(&scanner, tree);
    assert!(has_path(&map, "root.txt"));
    assert!(has_path(&map, "sub/nested.txt"));
    assert!(map.get(&RelPath::parse("sub")).is_some_and(|e| e.is_dir));
}
