use rustyrts::formatters::{
    json_result, json_run_finish, json_run_start, json_test_start, json_timeout, log_result, pretty_result,
    pretty_results, pretty_run_finish, pretty_run_start, RunCounts,
};
use rustyrts::libtest::TestResult;

#[test]
fn json_results() {
    assert_eq!(
        json_result("a\"b", &TestResult::TrOk, Some("0.5"), b"", false, None),
        "{ \"type\": \"test\", \"name\": \"a\\\"b\", \"event\": \"ok\", \"exec_time\": 0.5 }\n"
    );
    assert_eq!(
        json_result("t", &TestResult::TrFailedMsg("x\ny".to_string()), None, b"out", false, None),
        "{ \"type\": \"test\", \"name\": \"t\", \"event\": \"failed\", \"stdout\": \"out\", \"message\": \"x\\ny\" }\n"
    );
    assert_eq!(
        json_result("t", &TestResult::TrOk, None, b"out", false, None),
        "{ \"type\": \"test\", \"name\": \"t\", \"event\": \"ok\" }\n"
    );
    assert_eq!(
        json_result("t", &TestResult::TrOk, None, b"out", true, None),
        "{ \"type\": \"test\", \"name\": \"t\", \"event\": \"ok\", \"stdout\": \"out\" }\n"
    );
    assert_eq!(
        json_result("t", &TestResult::TrTimedFail, None, b"", false, None),
        "{ \"type\": \"test\", \"name\": \"t\", \"event\": \"failed\", \"reason\": \"time limit exceeded\" }\n"
    );
    assert_eq!(
        json_result("t", &TestResult::TrIgnored, None, b"", false, Some("slow")),
        "{ \"type\": \"test\", \"name\": \"t\", \"event\": \"ignored\", \"message\": \"slow\" }\n"
    );
}

#[test]
fn json_suite_lines() {
    assert_eq!(
        json_run_start(3, Some(7)),
        "{ \"type\": \"suite\", \"event\": \"started\", \"test_count\": 3, \"shuffle_seed\": 7 }\n"
    );
    assert_eq!(json_test_start("n"), "{ \"type\": \"test\", \"event\": \"started\", \"name\": \"n\" }\n");
    assert_eq!(json_timeout("n\t"), "{ \"type\": \"test\", \"event\": \"timeout\", \"name\": \"n\\t\" }\n");
    let counts = RunCounts { passed: 2, failed: 1, ignored: 0, measured: 0, filtered_out: 4 };
    assert_eq!(
        json_run_finish(counts, Some("1.5")),
        "{ \"type\": \"suite\", \"event\": \"failed\", \"passed\": 2, \"failed\": 1, \"ignored\": 0, \"measured\": 0, \"filtered_out\": 4, \"exec_time\": 1.5 }\n"
    );
}

#[test]
fn plain_report() {
    assert_eq!(pretty_run_start(1, None), "\nrunning 1 test\n");
    assert_eq!(pretty_run_start(2, Some(9)), "\nrunning 2 tests (shuffle seed: 9)\n");
    assert_eq!(pretty_result(&TestResult::TrIgnored, Some("slow")), "ignored, slow");
    assert_eq!(pretty_result(&TestResult::TrFailedMsg("m".to_string()), None), "FAILED");
    assert_eq!(pretty_result(&TestResult::TrTimedFail, None), "FAILED (time limit exceeded)");
    let counts = RunCounts { passed: 2, failed: 0, ignored: 0, measured: 0, filtered_out: 4 };
    assert_eq!(
        pretty_run_finish(counts, None),
        "\ntest result: ok. 2 passed; 0 failed; 0 ignored; 0 measured; 4 filtered out\n\n"
    );
    assert_eq!(
        pretty_run_finish(counts, Some("0.01s")),
        "\ntest result: ok. 2 passed; 0 failed; 0 ignored; 0 measured; 4 filtered out; finished in 0.01s\n\n"
    );
    let inputs = vec![("b".to_string(), b"x".to_vec()), ("a".to_string(), Vec::new())];
    assert_eq!(
        pretty_results(&inputs, "failures"),
        "\nfailures:\n\n---- b stdout ----\nx\n\nfailures:\n    a\n    b\n"
    );
    assert_eq!(pretty_results(&Vec::new(), "successes"), "\nsuccesses:\n\nsuccesses:\n");
}

#[test]
fn log_lines() {
    assert_eq!(log_result("t", &TestResult::TrFailedMsg("m".to_string()), None, Some("1s")), "failed: m t <1s>\n");
    assert_eq!(log_result("t", &TestResult::TrIgnored, None, None), "ignored t\n");
    assert_eq!(log_result("t", &TestResult::TrOk, None, None), "ok t\n");
}
