use ff::entry::{Entry, EntryKind};
use ff::file_searcher::FileSearcher;
use ff::Args;

fn create_searcher(
    filename: &str,
    path: &str,
    include_dirs: bool,
    only_dirs: bool,
    file_type: Option<String>,
) -> FileSearcher {
    let args = Args {
        filename: filename.to_string(),
        path: path.to_string(),
        include_dirs,
        only_dirs,
        file_type,
        max_depth: None,
        ignore_case: false,
    };
    FileSearcher::new(args)
}

fn node(path: &str, kind: EntryKind, depth: usize) -> Entry {
    let name = path.rsplit('/').next().map(|n| n.to_string());
    Entry::new(path.to_string(), name, kind, depth)
}

const ROOT: &str = "/tmp/walk_root";

// The entries a walk of the test tree meets, the root first.
fn create_test_structure() -> Vec<Entry> {
    vec![
        node(ROOT, EntryKind::Dir, 0),
        node("/tmp/walk_root/test_file.txt", EntryKind::File, 1),
        node("/tmp/walk_root/another_test.rs", EntryKind::File, 1),
        node("/tmp/walk_root/no_match.py", EntryKind::File, 1),
        node("/tmp/walk_root/README.md", EntryKind::File, 1),
        node("/tmp/walk_root/test_dir", EntryKind::Dir, 1),
        node("/tmp/walk_root/src", EntryKind::Dir, 1),
        node("/tmp/walk_root/another_test_folder", EntryKind::Dir, 1),
        node("/tmp/walk_root/nested", EntryKind::Dir, 1),
        node("/tmp/walk_root/nested/nested_test.txt", EntryKind::File, 2),
        node("/tmp/walk_root/nested/test_nested_dir", EntryKind::Dir, 2),
    ]
}

fn base_name(path: &str) -> String {
    path.rsplit('/').next().unwrap().to_string()
}

fn filtered(searcher: &FileSearcher, entries: &[Entry]) -> Vec<String> {
    let mut matches = Vec::new();
    for entry in entries {
        if searcher.is_allowed(entry) && searcher.name_matches(entry) && searcher.file_type_matches(entry) {
            matches.push(entry.path.clone());
        }
    }
    matches
}

#[test]
fn test_new_creates_file_searcher() {
    let args = Args {
        filename: "test".to_string(),
        path: ".".to_string(),
        include_dirs: false,
        only_dirs: false,
        file_type: None,
        max_depth: None,
        ignore_case: false,
    };
    let searcher = FileSearcher::new(args);
    assert_eq!(searcher.args.filename, "test");
    assert_eq!(searcher.args.path, ".");
    assert!(!searcher.args.include_dirs);
    assert!(!searcher.args.only_dirs);
    assert!(searcher.args.file_type.is_none());
}

#[test]
fn test_files_only_search() {
    let tree = create_test_structure();
    let searcher = create_searcher("test", ROOT, false, false, None);
    let matches = filtered(&searcher, &tree);

    assert_eq!(matches.len(), 3, "Should find 3 matching files");
    let match_names: Vec<String> = matches.iter().map(|p| base_name(p)).collect();
    assert!(match_names.contains(&"test_file.txt".to_string()));
    assert!(match_names.contains(&"another_test.rs".to_string()));
    assert!(match_names.contains(&"nested_test.txt".to_string()));
}

#[test]
fn test_directories_only_search() {
    let tree = create_test_structure();
    let searcher = create_searcher("test", ROOT, false, true, None);
    let matches = filtered(&searcher, &tree);

    assert_eq!(matches.len(), 3, "Should find 3 matching directories");
    let match_names: Vec<String> = matches.iter().map(|p| base_name(p)).collect();
    assert!(match_names.contains(&"test_dir".to_string()));
    assert!(match_names.contains(&"another_test_folder".to_string()));
    assert!(match_names.contains(&"test_nested_dir".to_string()));
}

#[test]
fn test_file_type_filtering() {
    let tree = create_test_structure();
    let searcher = create_searcher("test", ROOT, false, false, Some("txt".to_string()));
    let matches = filtered(&searcher, &tree);

    assert_eq!(matches.len(), 2, "Should find 2 matching .txt files");
    let match_names: Vec<String> = matches.iter().map(|p| base_name(p)).collect();
    assert!(match_names.contains(&"test_file.txt".to_string()));
    assert!(match_names.contains(&"nested_test.txt".to_string()));
}

#[test]
fn test_include_both_files_and_dirs() {
    let tree = create_test_structure();
    let searcher = create_searcher("test", ROOT, true, false, None);
    let matches = filtered(&searcher, &tree);

    assert_eq!(matches.len(), 6, "Should find 6 matching files and directories");
}

#[test]
fn test_no_matches() {
    let tree = create_test_structure();
    let searcher = create_searcher("nonexistent", ROOT, true, false, None);
    let matches = filtered(&searcher, &tree);

    assert_eq!(matches.len(), 0, "Should find no matches for nonexistent pattern");
}

#[test]
fn test_case_sensitive_search() {
    let tree = create_test_structure();
    let searcher = create_searcher("Test", ROOT, true, false, None);
    let matches = filtered(&searcher, &tree);

    assert_eq!(matches.len(), 0, "Should find no matches for case-sensitive 'Test'");
}
