use pbcat::errors::PbError;
use pbcat::options::SortMode;
use pbcat::resolve::{input_action, order_files, InputAction, Resolver};

#[test]
fn dedupes_files_seen_via_args_and_directory_walk() {
    // the same canonical path arrives once as a direct argument and once
    // from the directory walk
    let mut resolver = Resolver::new();
    resolver.add_file("one.txt".to_string());
    resolver.add_file("one.txt".to_string());
    let files = resolver.finish(SortMode::Args).unwrap();
    assert_eq!(files.len(), 1);
    assert_eq!(files[0], "one.txt");
}

#[test]
fn sorts_by_name_when_requested() {
    let files = vec!["b.txt".to_string(), "a.txt".to_string()];
    let ordered = order_files(files, SortMode::Name);
    assert_eq!(ordered, vec!["a.txt".to_string(), "b.txt".to_string()]);
}

#[test]
fn argument_order_is_kept_without_sorting() {
    let files = vec!["b.txt".to_string(), "a.txt".to_string()];
    let ordered = order_files(files, SortMode::Args);
    assert_eq!(ordered, vec!["b.txt".to_string(), "a.txt".to_string()]);
}

#[test]
fn distinct_arguments_resolve_in_argument_order() {
    let mut resolver = Resolver::new();
    resolver.add_file("/work/c.txt".to_string());
    resolver.add_file("/work/a.txt".to_string());
    resolver.add_file("/work/b.txt".to_string());
    let files = resolver.finish(SortMode::Args).unwrap();
    assert_eq!(
        files,
        vec!["/work/c.txt".to_string(), "/work/a.txt".to_string(), "/work/b.txt".to_string()]
    );
}

#[test]
fn duplicate_keeps_first_discovery_position() {
    // a symlinked argument canonicalizes to a path already seen in the middle
    let mut resolver = Resolver::new();
    resolver.add_file("/d/x.txt".to_string());
    resolver.add_file("/d/y.txt".to_string());
    resolver.add_file("/d/x.txt".to_string());
    resolver.add_file("/d/z.txt".to_string());
    let files = resolver.finish(SortMode::Args).unwrap();
    assert_eq!(
        files,
        vec!["/d/x.txt".to_string(), "/d/y.txt".to_string(), "/d/z.txt".to_string()]
    );
}

#[test]
fn empty_resolution_reports_no_files_found() {
    let resolver = Resolver::new();
    let err = resolver.finish(SortMode::Args).unwrap_err();
    assert_eq!(err, PbError::NoFilesFound);
}

#[test]
fn empty_resolution_fails_in_either_sort_mode() {
    let resolver = Resolver::new();
    let err = resolver.finish(SortMode::Name).unwrap_err();
    assert_eq!(err, PbError::NoFilesFound);
}

#[test]
fn file_inputs_are_added_directly() {
    let action = input_action(true, false, &"a.txt".to_string()).unwrap();
    assert_eq!(action, InputAction::AddFile);
}

#[test]
fn directory_inputs_are_walked() {
    let action = input_action(false, true, &"somedir".to_string()).unwrap();
    assert_eq!(action, InputAction::WalkDir);
}

#[test]
fn other_inputs_are_invalid() {
    let err = input_action(false, false, &"/dev/null".to_string()).unwrap_err();
    assert_eq!(err, PbError::InvalidInput { path: "/dev/null".to_string() });
}

#[test]
fn name_sort_dedupes_and_orders() {
    let mut resolver = Resolver::new();
    resolver.add_file("/p/b.txt".to_string());
    resolver.add_file("/p/a.txt".to_string());
    resolver.add_file("/p/b.txt".to_string());
    let files = resolver.finish(SortMode::Name).unwrap();
    assert_eq!(files, vec!["/p/a.txt".to_string(), "/p/b.txt".to_string()]);
}
