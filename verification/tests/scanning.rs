use squishy::errors::SquishError;
use squishy::scanner::{is_ignored_dir, is_rust_adjacent, scan, FsNode};

fn file(path: &str) -> FsNode {
    FsNode::File { path: path.to_string() }
}

fn dir(path: &str, entries: Vec<FsNode>) -> FsNode {
    FsNode::Dir { path: path.to_string(), entries }
}

#[test]
fn ignored_dir_names_any_case_any_depth() {
    assert!(is_ignored_dir("target"));
    assert!(is_ignored_dir("TARGET"));
    assert!(is_ignored_dir("TarGet"));
    assert!(is_ignored_dir(".git"));
    assert!(is_ignored_dir(".GIT"));
    assert!(is_ignored_dir("some/deep/path/target"));
    assert!(is_ignored_dir("a/b/.Git"));
}

#[test]
fn ignored_dir_names_with_trailing_separators() {
    // trailing separators do not hide the final component
    assert!(is_ignored_dir("target/"));
    assert!(is_ignored_dir("TARGET//"));
    assert!(is_ignored_dir("a/b/.git/"));
}

#[test]
fn non_ignored_dir_names() {
    assert!(!is_ignored_dir("src"));
    assert!(!is_ignored_dir("targets"));
    assert!(!is_ignored_dir("starget"));
    assert!(!is_ignored_dir("git"));
    assert!(!is_ignored_dir("a/target/b"));
    assert!(!is_ignored_dir("a/"));
    // a path with no final component is never ignored
    assert!(!is_ignored_dir(""));
    assert!(!is_ignored_dir("/"));
    assert!(!is_ignored_dir("///"));
}

#[test]
fn selected_extensions_any_case() {
    assert!(is_rust_adjacent("main.rs"));
    assert!(is_rust_adjacent("MAIN.RS"));
    assert!(is_rust_adjacent("Cargo.toml"));
    assert!(is_rust_adjacent("Cargo.TOML"));
    assert!(is_rust_adjacent("src/deep/lib.rs"));
    assert!(is_rust_adjacent("a.b.rs"));
    // trailing separators do not hide the extension
    assert!(is_rust_adjacent("a.rs/"));
    assert!(is_rust_adjacent("SRC/MAIN.RS//"));
}

#[test]
fn unselected_names() {
    // a path with no extension is never selected
    assert!(!is_rust_adjacent("README"));
    assert!(!is_rust_adjacent("src/README"));
    assert!(!is_rust_adjacent("notes.txt"));
    assert!(!is_rust_adjacent(".git"));
    assert!(!is_rust_adjacent(".rs"));
    assert!(!is_rust_adjacent(".rs/"));
    assert!(!is_rust_adjacent("x."));
    assert!(!is_rust_adjacent("x./"));
    assert!(!is_rust_adjacent(""));
    assert!(!is_rust_adjacent("/"));
    assert!(!is_rust_adjacent("rs"));
    assert!(!is_rust_adjacent("dir.rs/file"));
}

#[test]
fn scan_accounts_every_classified_entry() {
    // six classified entries in all: two selected, four ignored
    let tree = dir(
        ".",
        vec![
            file("./a.rs"),
            file("./b.txt"),
            FsNode::Symlink { path: "./link".to_string() },
            dir("./target", vec![file("./target/huge.rs")]),
            dir(
                "./src",
                vec![
                    file("./src/lib.rs"),
                    FsNode::Unknown { path: "./src/socket".to_string() },
                ],
            ),
        ],
    );
    let result = scan(&tree).unwrap();
    let scanned: Vec<&str> =
        result.iter_scanned().iter().map(|s| s.path.as_str()).collect();
    assert_eq!(scanned, vec!["./a.rs", "./src/lib.rs"]);
    assert_eq!(result.ignored_count(), 4);
    assert_eq!(result.iter_scanned().len() as u64 + result.ignored_count(), 6);
    assert_eq!(result.failed_list().len(), 0);
}

#[test]
fn ignored_directory_contents_are_invisible() {
    let tree = dir(
        ".",
        vec![
            dir("./TARGET", vec![file("./TARGET/x.rs"), file("./TARGET/y.rs")]),
            dir("./a", vec![dir("./a/.Git", vec![file("./a/.Git/z.rs")])]),
        ],
    );
    let result = scan(&tree).unwrap();
    assert_eq!(result.iter_scanned().len(), 0);
    // one for ./TARGET, one for ./a/.Git; nothing inside either is counted
    assert_eq!(result.ignored_count(), 2);
    assert_eq!(result.failed_list().len(), 0);
}

#[test]
fn unreadable_entry_fails_without_aborting() {
    let tree = dir(
        ".",
        vec![FsNode::Unreadable { path: "./mystery".to_string() }, file("./a.rs")],
    );
    let result = scan(&tree).unwrap();
    assert_eq!(result.failed_list().len(), 1);
    assert_eq!(result.failed_list()[0].path, "./mystery");
    assert_eq!(result.failed_list()[0].error, "Cannot read");
    assert_eq!(result.iter_scanned().len(), 1);
}

#[test]
fn denied_subdirectory_is_dropped_not_fatal() {
    let tree = dir(
        ".",
        vec![
            FsNode::DeniedDir {
                path: "./locked".to_string(),
                message: "Permission denied (os error 13)".to_string(),
            },
            file("./a.rs"),
        ],
    );
    let result = scan(&tree).unwrap();
    assert_eq!(result.iter_scanned().len(), 1);
    assert_eq!(result.failed_list().len(), 0);
    assert_eq!(result.ignored_count(), 0);
}

#[test]
fn scan_denied_root_is_fatal() {
    let root = FsNode::DeniedDir {
        path: "./nowhere".to_string(),
        message: "No such file or directory (os error 2)".to_string(),
    };
    let err = scan(&root).unwrap_err();
    assert!(matches!(err, SquishError::ScanError { .. }));
    assert_eq!(
        err.message(),
        "Failed to read directory: No such file or directory (os error 2)"
    );
}

#[test]
fn scan_non_directory_root_is_fatal() {
    let root = file("./a.rs");
    let err = scan(&root).unwrap_err();
    assert!(matches!(err, SquishError::ScanError { .. }));
    assert_eq!(err.message(), "Failed to read directory: not a directory");
}

#[test]
fn scan_merges_subtrees_in_entry_order() {
    let tree = dir(
        ".",
        vec![
            dir("./b", vec![file("./b/one.rs")]),
            file("./two.toml"),
            dir("./a", vec![file("./a/three.rs")]),
        ],
    );
    let result = scan(&tree).unwrap();
    let scanned: Vec<&str> =
        result.iter_scanned().iter().map(|s| s.path.as_str()).collect();
    assert_eq!(scanned, vec!["./b/one.rs", "./two.toml", "./a/three.rs"]);
}
