use rustyrts::libtest::{
    calc_result, escaped_string, evaluate_result, len_if_padded, select_runnable, write_stderr_delimiter, NamePadding,
    RunIgnored, RunState, TestResult,
};
use rustyrts::test_runner::{PanicPayload, ShouldPanic, TestDesc};

fn desc(should_panic: ShouldPanic) -> TestDesc {
    TestDesc { name: "Test".to_string(), ignore: false, should_panic }
}

#[test]
fn calc_result_without_time_limit() {
    assert_eq!(calc_result(&desc(ShouldPanic::No), Ok(()), false), TestResult::TrOk);
    assert_eq!(
        calc_result(&desc(ShouldPanic::No), Err(PanicPayload::Message("boom".to_string())), false),
        TestResult::TrFailed
    );
    assert_eq!(
        calc_result(&desc(ShouldPanic::Yes), Ok(()), false),
        TestResult::TrFailedMsg("test did not panic as expected".to_string())
    );
    assert_eq!(
        calc_result(
            &desc(ShouldPanic::YesWithMessage("abc".to_string())),
            Err(PanicPayload::Message("xabcx".to_string())),
            false
        ),
        TestResult::TrOk
    );
    assert_eq!(
        calc_result(
            &desc(ShouldPanic::YesWithMessage("abc".to_string())),
            Err(PanicPayload::Message("zzz".to_string())),
            false
        ),
        TestResult::TrFailedMsg(
            "panic did not contain expected string\n      panic message: `\"zzz\"`,\n expected substring: `\"abc\"`"
                .to_string()
        )
    );
}

#[test]
fn calc_result_with_time_limit() {
    assert_eq!(calc_result(&desc(ShouldPanic::No), Ok(()), true), TestResult::TrTimedFail);
    assert_eq!(
        calc_result(&desc(ShouldPanic::Yes), Err(PanicPayload::Other("TypeId(1)".to_string())), true),
        TestResult::TrTimedFail
    );
    assert_eq!(
        calc_result(&desc(ShouldPanic::No), Err(PanicPayload::Message("boom".to_string())), true),
        TestResult::TrFailed
    );
}

#[test]
fn json_escapes() {
    assert_eq!(escaped_string("plain é"), "plain é".to_string());
    assert_eq!(
        escaped_string("a\"b\\c\nd\te\r\u{1}\u{8}\u{c}\u{1f}\u{7f}"),
        "a\\\"b\\\\c\\nd\\te\\r\\u0001\\b\\f\\u001f\\u007f".to_string()
    );
    assert_eq!(escaped_string(""), String::new());
}

#[test]
fn stderr_delimiter() {
    let mut out = b"out".to_vec();
    write_stderr_delimiter(&mut out, "t1");
    assert_eq!(out, b"out\n---- t1 stderr ----\n".to_vec());
    let mut out = b"x\n".to_vec();
    write_stderr_delimiter(&mut out, "t1");
    assert_eq!(out, b"x\n---- t1 stderr ----\n".to_vec());
    let mut out = Vec::new();
    write_stderr_delimiter(&mut out, "é");
    assert_eq!(out, "---- é stderr ----\n".as_bytes().to_vec());
}

#[test]
fn padding_of_names() {
    assert_eq!(len_if_padded(NamePadding::PadNone, "name"), 0);
    assert_eq!(len_if_padded(NamePadding::PadOnRight, "héllo"), 6);
}

#[test]
fn runnable_tests() {
    let tests = vec![
        TestDesc { name: "a".to_string(), ignore: false, should_panic: ShouldPanic::No },
        TestDesc { name: "b".to_string(), ignore: true, should_panic: ShouldPanic::No },
        TestDesc { name: "c".to_string(), ignore: false, should_panic: ShouldPanic::Yes },
        TestDesc { name: "d".to_string(), ignore: false, should_panic: ShouldPanic::No },
    ];
    let affected = vec!["a".to_string(), "b".to_string(), "c".to_string()];
    assert_eq!(select_runnable(&tests, &affected, false, RunIgnored::No), (vec![0, 2], 1, 1));
    assert_eq!(select_runnable(&tests, &affected, true, RunIgnored::Yes), (vec![0, 1], 2, 0));
}

#[test]
fn results_are_counted() {
    let mut state = RunState {
        passed: 0,
        failed: 0,
        ignored: 0,
        failures: Vec::new(),
        ignores: Vec::new(),
        time_failures: Vec::new(),
    };
    evaluate_result(&mut state, "a".to_string(), TestResult::TrOk, Vec::new());
    evaluate_result(&mut state, "b".to_string(), TestResult::TrFailedMsg("m".to_string()), b"out".to_vec());
    evaluate_result(&mut state, "c".to_string(), TestResult::TrTimedFail, Vec::new());
    evaluate_result(&mut state, "d".to_string(), TestResult::TrIgnored, Vec::new());
    assert_eq!((state.passed, state.failed, state.ignored), (1, 2, 1));
    assert_eq!(state.failures, vec![("b".to_string(), b"out".to_vec())]);
    assert_eq!(state.time_failures, vec![("c".to_string(), Vec::new())]);
    assert_eq!(state.ignores, vec![("d".to_string(), Vec::new())]);
}
