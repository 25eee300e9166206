use rustyrts::options::{
    build_glob_set, cargo_test_args, gitignore_option, glob_pattern, join_slices, or_slices, test_timeout, Colors, TestTool,
    NANOS_PER_SEC,
};

#[test]
fn test_tools_by_name() {
    assert_eq!(TestTool::from_name("nextest"), Some(TestTool::Nextest));
    assert_eq!(TestTool::from_name("Nextest"), None);
    assert_eq!(TestTool::Static.name(), "static");
    assert_eq!(TestTool::default_tool(), TestTool::Cargo);
}

#[test]
fn forced_colors() {
    assert_eq!(Colors::Auto.forced_value(Some("1"), Some("1")), Some(false));
    assert_eq!(Colors::Never.forced_value(Some("0"), Some("1")), Some(true));
    assert_eq!(Colors::Always.forced_value(None, None), Some(true));
    assert_eq!(Colors::Never.forced_value(None, Some("0")), Some(false));
    assert_eq!(Colors::Auto.forced_value(None, None), None);
    assert!(!Colors::Never.active_stdout(None, None));
    assert_eq!(Colors::default_colors(), Colors::Auto);
}

#[test]
fn merged_arguments() {
    let a = vec!["x".to_string()];
    let b = vec!["y".to_string(), "z".to_string()];
    assert_eq!(join_slices(&a, &b), vec!["x".to_string(), "y".to_string(), "z".to_string()]);
    assert_eq!(or_slices(&[] as &[String], &b), &b[..]);
    assert_eq!(or_slices(&a, &b), &a[..]);
    assert_eq!(
        cargo_test_args(&a, &b, true),
        vec!["x", "y", "z", "--", "-Zunstable-options", "--format=json", "--report-time"]
            .into_iter()
            .map(String::from)
            .collect::<Vec<_>>()
    );
    let with_dashes = vec!["--".to_string()];
    assert_eq!(cargo_test_args(&with_dashes, &vec![], true).len(), 4);
    assert_eq!(cargo_test_args(&a, &b, false).len(), 3);
}

#[test]
fn globs_and_gitignore() {
    assert_eq!(glob_pattern("*.rs"), "**/*.rs");
    assert_eq!(glob_pattern("src/*.rs"), "src/*.rs");
    assert!(!gitignore_option(Some(TestTool::Dynamic), true));
    assert!(gitignore_option(Some(TestTool::Cargo), true));
    assert!(gitignore_option(None, true));
}

#[test]
fn timeouts_of_test_runs() {
    assert_eq!(test_timeout(Some(7), false, false, 0, None), 7);
    assert_eq!(test_timeout(None, true, false, 0, None), 0);
    assert_eq!(test_timeout(None, false, true, 0, None), 300 * NANOS_PER_SEC);
    assert_eq!(test_timeout(None, false, false, 20 * NANOS_PER_SEC, Some(3_500_000_000)), 20 * NANOS_PER_SEC);
    assert_eq!(test_timeout(None, false, false, NANOS_PER_SEC, Some(3_500_000_000)), 15 * NANOS_PER_SEC);
}

#[test]
fn glob_sets_of_patterns() {
    assert!(matches!(build_glob_set(&Vec::new()), Ok(None)));
    let set = build_glob_set(&vec!["a.rs".to_string(), "src/b.rs".to_string()]).unwrap().unwrap();
    assert_eq!(set.len(), 2);
    assert!(set.is_match("src/a.rs"));
    assert!(set.is_match("src/b.rs"));
    assert!(!set.is_match("x/src/b.rs"));
    assert!(build_glob_set(&vec!["a.rs".to_string(), "a[".to_string()]).is_err());
}
