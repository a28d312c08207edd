use dv::args::{parse_args, ArgsError};

fn args(a: &[&str]) -> Vec<String> {
    a.iter().map(|s| s.to_string()).collect()
}

#[test]
fn empty_command_line_asks_for_nothing() {
    let o = parse_args(Vec::new()).unwrap();
    assert!(!o.staged);
    assert!(o.scan_dirs.is_empty());
    assert!(o.explicit_dirs.is_empty());
}

#[test]
fn flags_scans_and_paths_are_told_apart() {
    let o = parse_args(args(&["repo1", "--scan", "work", "--staged", "--scan", "--staged", "repo2"]))
        .unwrap();
    assert!(o.staged);
    assert_eq!(o.scan_dirs, vec!["work".to_string(), "--staged".to_string()]);
    assert_eq!(o.explicit_dirs, vec!["repo1".to_string(), "repo2".to_string()]);
}

#[test]
fn scan_without_directory_is_refused() {
    assert!(matches!(
        parse_args(args(&["--staged", "--scan"])),
        Err(ArgsError::ScanWithoutDirectory)
    ));
}
