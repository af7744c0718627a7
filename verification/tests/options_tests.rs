use pbcat::errors::PbError;
use pbcat::options::{parse_args, parse_sort, SortMode};

fn args(words: &[&str]) -> Vec<String> {
    words.iter().map(|w| w.to_string()).collect()
}

#[test]
fn plain_paths_become_inputs() {
    let opts = parse_args(&args(&["a.txt", "b.txt"])).unwrap();
    assert_eq!(opts.inputs, vec!["a.txt".to_string(), "b.txt".to_string()]);
    assert_eq!(opts.separator, None);
    assert!(!opts.header);
    assert_eq!(opts.sort, SortMode::Args);
    assert!(!opts.list_only);
}

#[test]
fn separator_short_and_long_forms() {
    let opts = parse_args(&args(&["-s", "\n---\n", "a.txt"])).unwrap();
    assert_eq!(opts.separator, Some("\n---\n".to_string()));
    let opts = parse_args(&args(&["--separator", "|", "a.txt"])).unwrap();
    assert_eq!(opts.separator, Some("|".to_string()));
}

#[test]
fn header_flag_toggles_headers() {
    let opts = parse_args(&args(&["-H", "a.txt"])).unwrap();
    assert!(opts.header);
    let opts = parse_args(&args(&["--header", "a.txt"])).unwrap();
    assert!(opts.header);
}

#[test]
fn sort_option_selects_mode() {
    let opts = parse_args(&args(&["--sort", "name", "a.txt"])).unwrap();
    assert_eq!(opts.sort, SortMode::Name);
    let opts = parse_args(&args(&["--sort", "args", "a.txt"])).unwrap();
    assert_eq!(opts.sort, SortMode::Args);
}

#[test]
fn list_flag_sets_list_only() {
    let opts = parse_args(&args(&["-L", "a.txt"])).unwrap();
    assert!(opts.list_only);
    let opts = parse_args(&args(&["--list", "a.txt"])).unwrap();
    assert!(opts.list_only);
}

#[test]
fn double_dash_ends_option_recognition() {
    let opts = parse_args(&args(&["--", "-H", "--list"])).unwrap();
    assert!(!opts.header);
    assert!(!opts.list_only);
    assert_eq!(opts.inputs, vec!["-H".to_string(), "--list".to_string()]);
}

#[test]
fn lone_dash_is_an_input() {
    let opts = parse_args(&args(&["-"])).unwrap();
    assert_eq!(opts.inputs, vec!["-".to_string()]);
}

#[test]
fn unknown_option_is_rejected() {
    let err = parse_args(&args(&["--frobnicate", "a.txt"])).unwrap_err();
    assert_eq!(err, PbError::Usage { detail: "Unknown option: --frobnicate".to_string() });
}

#[test]
fn missing_separator_value_is_rejected() {
    let err = parse_args(&args(&["a.txt", "-s"])).unwrap_err();
    assert_eq!(
        err,
        PbError::Usage { detail: "Missing value for separator (-s/--separator)".to_string() }
    );
}

#[test]
fn missing_sort_value_is_rejected() {
    let err = parse_args(&args(&["a.txt", "--sort"])).unwrap_err();
    assert_eq!(err, PbError::Usage { detail: "Missing value for --sort".to_string() });
}

#[test]
fn bad_sort_value_is_rejected() {
    let err = parse_args(&args(&["--sort", "size", "a.txt"])).unwrap_err();
    assert_eq!(err, PbError::Usage { detail: "Sort must be one of: args, name".to_string() });
}

#[test]
fn no_inputs_yields_usage() {
    let err = parse_args(&args(&["-H"])).unwrap_err();
    match err {
        PbError::Usage { detail } => assert!(detail.starts_with("Usage: pbcat")),
        other => panic!("expected a usage error, got {:?}", other),
    }
}

#[test]
fn options_may_follow_inputs() {
    let opts = parse_args(&args(&["a.txt", "-H", "b.txt"])).unwrap();
    assert!(opts.header);
    assert_eq!(opts.inputs, vec!["a.txt".to_string(), "b.txt".to_string()]);
}

#[test]
fn option_values_may_start_with_dash() {
    let opts = parse_args(&args(&["-s", "-x-", "a.txt"])).unwrap();
    assert_eq!(opts.separator, Some("-x-".to_string()));
}

#[test]
fn parse_sort_accepts_both_modes() {
    assert_eq!(parse_sort("args").unwrap(), SortMode::Args);
    assert_eq!(parse_sort("name").unwrap(), SortMode::Name);
    let err = parse_sort("other").unwrap_err();
    assert_eq!(err, PbError::Usage { detail: "Sort must be one of: args, name".to_string() });
}
