use rustyrts::cargo_test::{cli_args, failures_summary, rerun_message, TargetKind, TestKind};

#[test]
fn rerun_arguments_name_the_target() {
    assert_eq!(cli_args(false, "pkg", TestKind::Test, TargetKind::Lib, "pkg"), "--lib");
    assert_eq!(cli_args(true, "pkg", TestKind::Test, TargetKind::Bin, "tool"), "-p pkg --bin tool");
    assert_eq!(cli_args(false, "pkg", TestKind::Test, TargetKind::Test, "it"), "--test it");
    assert_eq!(cli_args(false, "pkg", TestKind::Bench, TargetKind::Bench, "b"), "--bench b");
    assert_eq!(cli_args(false, "pkg", TestKind::Test, TargetKind::ExampleBin, "ex"), "--example ex");
    assert_eq!(cli_args(false, "pkg", TestKind::Bench, TargetKind::ExampleLib, "ex"), "--example ex");
    assert_eq!(cli_args(true, "pkg", TestKind::Doctest, TargetKind::CustomBuild, "x"), "-p pkg --doc");
}

#[test]
fn rerun_message_names_the_kind() {
    assert_eq!(rerun_message(TestKind::Test, "--lib"), "test failed, to rerun pass `--lib`");
    assert_eq!(rerun_message(TestKind::Bench, "--bench b"), "bench failed, to rerun pass `--bench b`");
    assert_eq!(rerun_message(TestKind::Doctest, "--doc"), "doctest failed, to rerun pass `--doc`");
}

#[test]
fn summary_counts_the_failed_targets() {
    assert_eq!(failures_summary(&Vec::new()), None);
    assert_eq!(
        failures_summary(&vec!["--lib".to_string()]),
        Some("1 target failed:\n    `--lib`".to_string())
    );
    let args: Vec<String> = (0..12).map(|i| format!("--test t{i}")).collect();
    let s = failures_summary(&args).unwrap();
    assert!(s.starts_with("12 targets failed:\n    `--test t0`\n    `--test t1`\n"));
    assert!(s.ends_with("    `--test t11`"));
    assert_eq!(s.lines().count(), 13);
}
