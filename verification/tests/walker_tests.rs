use pbcat::errors::PbError;
use pbcat::walker::{collect_dir, file_entries, keep_entry, should_skip_dir};

#[test]
fn deny_list_names_are_skipped() {
    for name in [
        "DerivedData",
        "Pods",
        "target",
        "node_modules",
        "build",
        ".build",
        ".gradle",
        "Carthage",
        "buck-out",
        "__pycache__",
        ".idea",
        ".git",
    ] {
        assert!(should_skip_dir(name), "{} should be skipped", name);
    }
}

#[test]
fn ordinary_names_are_not_skipped() {
    for name in ["src", "tests", "Target", "builds", "derivedata", ""] {
        assert!(!should_skip_dir(name), "{} should not be skipped", name);
    }
}

#[test]
fn the_root_is_never_pruned() {
    assert!(keep_entry(0, true, Some("target")));
}

#[test]
fn files_are_never_pruned_by_name() {
    assert!(keep_entry(2, false, Some("target")));
}

#[test]
fn deny_listed_directories_are_pruned_below_the_root() {
    assert!(!keep_entry(1, true, Some("DerivedData")));
    assert!(!keep_entry(5, true, Some(".git")));
    assert!(keep_entry(1, true, Some("sources")));
}

#[test]
fn nameless_directories_are_kept() {
    assert!(keep_entry(1, true, None));
}

#[test]
fn file_entries_keep_only_regular_files_in_order() {
    let entries = vec![
        Ok(("/d".to_string(), false)),
        Ok(("/d/a.txt".to_string(), true)),
        Ok(("/d/sub".to_string(), false)),
        Ok(("/d/sub/b.txt".to_string(), true)),
    ];
    let files = file_entries(entries).unwrap();
    assert_eq!(files, vec!["/d/a.txt".to_string(), "/d/sub/b.txt".to_string()]);
}

#[test]
fn a_missing_directory_aborts_the_walk() {
    let err = collect_dir(&"missing-dir-that-does-not-exist".to_string()).unwrap_err();
    match err {
        PbError::Io { path, detail } => {
            assert_eq!(path, "missing-dir-that-does-not-exist");
            assert!(detail.contains("No such file"), "unexpected detail: {}", detail);
        }
        other => panic!("expected an I/O error, got {:?}", other),
    }
}

#[test]
fn a_walk_error_aborts_with_no_partial_result() {
    let entries = vec![
        Ok(("/d/a.txt".to_string(), true)),
        Err("permission denied".to_string()),
        Ok(("/d/b.txt".to_string(), true)),
    ];
    let err = file_entries(entries).unwrap_err();
    assert_eq!(err, "permission denied");
}
