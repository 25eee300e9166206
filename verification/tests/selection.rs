use rustyrts::selection::{
    check_test_args, command_exec, convert_doctest_name, parse_tests, select_basic, select_dynamic, select_dynamic_doctests,
    select_static, select_static_doctest, CommandKind, SelectionUnit, TracedDoctest, TracedTest,
};

fn names(v: &[&str]) -> Vec<String> {
    v.iter().map(|s| s.to_string()).collect()
}

#[test]
fn subcommands_are_found_by_name() {
    assert_eq!(command_exec("basic"), Some(CommandKind::Basic));
    assert_eq!(command_exec("static"), Some(CommandKind::Static));
    assert_eq!(command_exec("dynamic"), Some(CommandKind::Dynamic));
    assert_eq!(command_exec("clean"), Some(CommandKind::Clean));
    assert_eq!(command_exec("test"), None);
}

#[test]
fn doctest_names_are_converted() {
    let (trimmed, fn_name) = convert_doctest_name("src/lib.rs - foo::bar (line 12)");
    assert_eq!(trimmed, "src/lib.rs");
    assert_eq!(fn_name, "src_lib_rs");
}

#[test]
fn crate_level_selection_runs_recompiled_targets() {
    let compiled = names(&["lib", "tests"]);
    assert_eq!(select_basic(&compiled, &"lib".to_string()), SelectionUnit::CrateLevel { execute_tests: true });
    assert_eq!(select_basic(&compiled, &"bin".to_string()), SelectionUnit::CrateLevel { execute_tests: false });
}

#[test]
fn static_selection_keeps_reached_tests() {
    let reached = names(&["t2", "helper", "t1"]);
    let found = names(&["t1", "t3", "t2"]);
    assert_eq!(select_static(false, &reached, &found), SelectionUnit::Precise(names(&["t1", "t2"])));
    assert_eq!(select_static(true, &reached, &found), SelectionUnit::RetestAll);
    assert_eq!(
        select_static_doctest("src/a.rs - f (line 1)", &names(&["src_a_rs"])),
        Some("src/a.rs".to_string())
    );
    assert_eq!(select_static_doctest("src/a.rs - f (line 1)", &names(&["other"])), None);
}

#[test]
fn dynamic_selection_uses_traces() {
    let changed = names(&["f", "g"]);
    let tests = vec![
        TracedTest { name: "hits".to_string(), traces: Some(names(&["x", "g"])) },
        TracedTest { name: "misses".to_string(), traces: Some(names(&["x"])) },
        TracedTest { name: "new".to_string(), traces: None },
    ];
    assert_eq!(select_dynamic(false, &changed, &tests), SelectionUnit::Precise(names(&["new", "hits"])));
    assert_eq!(select_dynamic(true, &changed, &tests), SelectionUnit::RetestAll);
}

#[test]
fn dynamic_doctest_selection() {
    let changed = names(&["rust_out::_doctest_main_src_a_rs", "h"]);
    let tests = vec![
        TracedDoctest { trimmed: "a".to_string(), fn_name: "src_a_rs".to_string(), traces: None },
        TracedDoctest { trimmed: "b".to_string(), fn_name: "src_b_rs".to_string(), traces: None },
        TracedDoctest { trimmed: "c".to_string(), fn_name: "src_c_rs".to_string(), traces: Some(names(&["h"])) },
    ];
    assert_eq!(select_dynamic_doctests(false, &changed, &tests), SelectionUnit::Precise(names(&["c", "a"])));
}

#[test]
fn listed_doctests() {
    assert_eq!(
        parse_tests("src/lib.rs - a (line 3): test\nb: bench\r\nc: test\r\n\n2 tests, 0 benchmarks\n"),
        vec!["src/lib.rs - a (line 3)".to_string(), "c".to_string()]
    );
    assert!(parse_tests("").is_empty());
}

#[test]
fn exact_matching_is_refused() {
    let args = vec!["--nocapture".to_string(), "--exact".to_string()];
    assert_eq!(
        check_test_args(&args),
        Err("Regression Test Selection is incompatible to using --exact".to_string())
    );
    assert_eq!(check_test_args(&vec!["--nocapture".to_string(), "--exactly".to_string()]), Ok(()));
    assert_eq!(check_test_args(&Vec::new()), Ok(()));
}
