use rustyrts::cargo_rustyrts::{
    cargo_build_argv, cargo_test_argv, clean_dirs, dispatch, dynamic_affected, edges_graph_text, get_args_build,
    get_args_rustc, get_args_test, has_arg_flag, lines_in_graph, rustc_wrapper_argv, rustyrts_args_env, rustyrts_argv, static_affected,
    static_reached, Dispatch, Mode,
};
use rustyrts::graph::{DependencyGraph, EdgeType};

fn args(v: &[&str]) -> Vec<String> {
    v.iter().map(|s| s.to_string()).collect()
}

#[test]
fn argument_groups() {
    let a = args(&["cargo-rustyrts", "rustyrts", "static", "-v", "--", "--release", "--", "--emit=mir", "--", "--nocapture"]);
    assert!(has_arg_flag(&a, "-v"));
    assert!(!has_arg_flag(&a, "--release"));
    assert_eq!(get_args_build(&a), args(&["--release"]));
    assert_eq!(get_args_rustc(&a), args(&["--emit=mir"]));
    assert_eq!(get_args_test(&a), args(&["--nocapture"]));
    let json = args(&["x", "--json", "--", "--", "--", "--"]);
    assert_eq!(get_args_test(&json), args(&["--", "-Zunstable-options", "--format=json", "--report-time"]));
    let none = args(&["x"]);
    assert!(get_args_build(&none).is_empty());
    assert!(get_args_test(&none).is_empty());
}

#[test]
fn modes_by_name() {
    assert_eq!(Mode::from_str("static"), Ok(Mode::Static));
    assert_eq!(Mode::from_str("Static"), Err(()));
    assert_eq!(Mode::Clean.to_string(), "clean");
}

#[test]
fn commands_of_the_driver() {
    let a = args(&["c", "rustyrts", "dynamic", "--", "--release"]);
    assert_eq!(cargo_build_argv(&a), args(&["test", "--no-run", "--tests", "--examples", "--release"]));
    let none: Vec<String> = vec![];
    assert_eq!(
        cargo_test_argv(Mode::Static, &none, &a, "--describe"),
        args(&["test", "--no-fail-fast", "--tests", "--examples", "--no-run"])
    );
    let affected = args(&["krate::tests::a", "krate::b"]);
    assert_eq!(
        cargo_test_argv(Mode::Static, &affected, &a, "--describe"),
        args(&["test", "--no-fail-fast", "--tests", "--examples", "--", "--exact", "tests::a", "b"])
    );
    let desc = args(&["c", "rustyrts", "dynamic", "--describe"]);
    assert_eq!(
        cargo_test_argv(Mode::Dynamic, &none, &desc, "--describe"),
        args(&["test", "--no-fail-fast", "--tests", "--examples", "--", "--exact", "--", "--describe"])
    );
}

#[test]
fn dispatching() {
    assert_eq!(dispatch(&args(&["c", "rustyrts", "static"])), Dispatch::Run(Mode::Static));
    assert_eq!(dispatch(&args(&["c", "rustyrts"])), Dispatch::UnknownMode);
    assert_eq!(dispatch(&args(&["c", "rustc", "-h"])), Dispatch::Help);
    assert_eq!(dispatch(&args(&["c", "rustc", "-V"])), Dispatch::Version);
    assert_eq!(dispatch(&args(&["c", "rustc"])), Dispatch::Rustc);
    assert_eq!(dispatch(&args(&["c", "other"])), Dispatch::UnknownCommand);
    assert_eq!(clean_dirs(None), args(&["target_dynamic", "target_static"]));
    assert_eq!(clean_dirs(Some("t")), args(&["t"]));
    assert_eq!(
        rustyrts_argv(&args(&["w", "rustc", "--crate-name", "k"]), "/sys", &args(&["-v"])),
        args(&["--crate-name", "k", "--sysroot", "/sys", "-v"])
    );
}

#[test]
fn static_selection_of_the_driver() {
    let mut g = DependencyGraph::new();
    g.add_edge("k::test_a".to_string(), "k::f".to_string(), EdgeType::Call);
    g.add_edge("k::test_b".to_string(), "k::g".to_string(), EdgeType::Call);
    let mut affected = static_affected(&g, &args(&["k::f", "", "unknown"]), &args(&["k::test_a", "k::test_b", "k::test_a"]));
    affected.sort();
    assert_eq!(affected, args(&["k::test_a"]));
    let mut reached = static_reached(&g, &args(&["k::f", "", "unknown"]));
    reached.sort();
    assert_eq!(reached, args(&["k::f", "k::test_a"]));
    assert_eq!(lines_in_graph(&g, &args(&["k::f", "", "unknown", "k::f", "k::g"])), args(&["k::f", "k::g"]));
}

#[test]
fn dynamic_selection_of_the_driver() {
    let tests = args(&["t1", "t2", "t3"]);
    let changed = args(&["f"]);
    let traces = vec![("t1.trace".to_string(), args(&["g"])), ("t2.trace".to_string(), args(&["f", "g"]))];
    let (untraced, hit) = dynamic_affected(&tests, &changed, &traces);
    assert_eq!(untraced, args(&["t3"]));
    assert_eq!(hit, args(&["t2"]));
}

#[test]
fn graph_text_keeps_only_edge_lines() {
    let lines: Vec<String> = vec![
        "digraph {".to_string(),
        "\"a\"".to_string(),
        "\"a\" -> \"b\" // {Call}".to_string(),
        "  \\ \"c\" -> \"d\"".to_string(),
        "\"b\" -> \"c\" // {Call}".to_string(),
        "}".to_string(),
    ];
    let text = edges_graph_text(&lines);
    assert_eq!(text, "digraph {\n\"a\" -> \"b\" // {Call}\n\"b\" -> \"c\" // {Call}\n}");
    assert_eq!(edges_graph_text(&Vec::new()), "digraph {\n}");
    assert!(DependencyGraph::is_readable(&text));
}

#[test]
fn compiler_arguments_are_handed_over_as_json() {
    let a = args(&["cargo-rustyrts", "rustyrts", "static", "--", "--", "--emit=mir", "-C \"x\"", "--", "t"]);
    let magic = rustyrts_args_env(&a);
    assert_eq!(magic, "[\"--emit=mir\",\"-C \\\"x\\\"\"]");
    let wrapper = args(&["cargo-rustyrts", "rustc", "--crate-name", "k"]);
    assert_eq!(
        rustc_wrapper_argv(&wrapper, "/sys", &magic),
        Some(args(&["--crate-name", "k", "--sysroot", "/sys", "--emit=mir", "-C \"x\""]))
    );
    assert_eq!(rustc_wrapper_argv(&wrapper, "/sys", "[]"), Some(args(&["--crate-name", "k", "--sysroot", "/sys"])));
    assert_eq!(rustc_wrapper_argv(&wrapper, "/sys", "not json"), None);
    assert_eq!(rustc_wrapper_argv(&wrapper, "/sys", "[1]"), None);
}
