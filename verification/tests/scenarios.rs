use rustyrts::cargo::Phase;
use rustyrts::lab::{
    continue_after, instrumentation_dirs, phase_timeout, phase_wrapper_env, scenario_phases, worker_count,
};
use rustyrts::options::TestTool;

#[test]
fn phases_follow_the_tool() {
    assert_eq!(scenario_phases(true, TestTool::Dynamic), Some(vec![Phase::Check]));
    assert_eq!(scenario_phases(false, TestTool::Cargo), Some(vec![Phase::Build, Phase::Test]));
    assert_eq!(scenario_phases(false, TestTool::Dynamic), Some(vec![Phase::BuildDynamic, Phase::Dynamic]));
    assert_eq!(scenario_phases(false, TestTool::Static), Some(vec![Phase::Build, Phase::Static]));
    assert_eq!(scenario_phases(false, TestTool::Nextest), None);
    assert_eq!(scenario_phases(true, TestTool::Nextest), Some(vec![Phase::Check]));
}

#[test]
fn only_test_phases_have_a_timeout() {
    assert_eq!(phase_timeout(Phase::Test, 7), Some(7));
    assert_eq!(phase_timeout(Phase::Dynamic, 7), Some(7));
    assert_eq!(phase_timeout(Phase::Build, 7), None);
    assert_eq!(phase_timeout(Phase::BuildDynamic, 7), None);
}

#[test]
fn scenarios_stop_after_failure_or_check() {
    assert!(continue_after(Phase::Build, false, true));
    assert!(!continue_after(Phase::Build, false, false));
    assert!(!continue_after(Phase::Check, true, true));
    assert!(continue_after(Phase::Check, false, true));
}

#[test]
fn dynamic_build_uses_the_instrumenting_wrapper() {
    let env = phase_wrapper_env(Phase::BuildDynamic, false, "/b", "/home/c").unwrap();
    assert_eq!(
        env,
        vec![
            ("RUSTC_WRAPPER".to_string(), "/home/c/bin/rustyrts-dynamic".to_string()),
            ("CARGO_TARGET_DIR".to_string(), "/b/target".to_string()),
            ("RUSTYRTS_ONLY_INSTRUMENTATION".to_string(), "true".to_string()),
        ]
    );
    assert_eq!(
        phase_wrapper_env(Phase::Dynamic, true, "/b", "/c"),
        Some(vec![("RUSTYRTS_RETEST_ALL".to_string(), "true".to_string())])
    );
    assert_eq!(phase_wrapper_env(Phase::Dynamic, false, "/b", "/c"), None);
    assert_eq!(phase_wrapper_env(Phase::Test, true, "/b", "/c"), None);
    assert_eq!(
        instrumentation_dirs("/b"),
        ("/b/target/.rts".to_string(), "/b/target/.rts_dynamic".to_string())
    );
}

#[test]
fn worker_count_is_bounded() {
    assert_eq!(worker_count(None, 10), 1);
    assert_eq!(worker_count(Some(4), 10), 4);
    assert_eq!(worker_count(Some(4), 2), 2);
    assert_eq!(worker_count(Some(0), 2), 1);
    assert_eq!(worker_count(Some(4), 0), 1);
}
