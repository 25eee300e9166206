use rustyrts::test_runner::{
    decimal_exec, passed, print_failures, select_affected, test_result_line, test_state, test_summary_line,
    CompletedTest, PanicPayload, ShouldPanic, TestDesc, TestResult,
};

fn default_test_desc() -> TestDesc {
    TestDesc { name: "Test".to_string(), ignore: false, should_panic: ShouldPanic::No }
}

fn message(text: &str) -> PanicPayload {
    PanicPayload::Message(text.to_string())
}

#[test]
fn test_succeeded_succeeds_without_panic() {
    let desc = default_test_desc();
    let result = Ok(());
    assert_eq!(test_state(&desc, result), TestResult::Passed)
}

#[test]
fn test_succeeded_unexpected_panic() {
    let desc = default_test_desc();
    let result = Err(message("Assertion failed"));
    let test_result = test_state(&desc, result);
    if TestResult::Failed(None) != test_result {
        panic!("Result was {:?}", test_result)
    }
}

#[test]
fn test_succeeded_expected_panic_and_did_panic() {
    let mut desc = default_test_desc();
    desc.should_panic = ShouldPanic::Yes;
    let result = Err(message("Assertion failed"));
    assert_eq!(test_state(&desc, result), TestResult::Passed)
}

#[test]
fn test_succeeded_expected_panic_but_did_not_panic() {
    let mut desc = default_test_desc();
    desc.should_panic = ShouldPanic::Yes;
    match test_state(&desc, Ok(())) {
        TestResult::Failed(Some(msg)) => assert!(msg.contains("test did not panic")),
        other => panic!("Result was {:?}", other),
    }
}

#[test]
fn test_succeeded_expected_panic_with_str_message() {
    let mut desc = default_test_desc();
    desc.should_panic = ShouldPanic::YesWithMessage("This is a message".to_string());
    assert_eq!(test_state(&desc, Err(message("This is a message"))), TestResult::Passed)
}

#[test]
fn test_succeeded_expected_panic_with_string_message() {
    let mut desc = default_test_desc();
    desc.should_panic = ShouldPanic::YesWithMessage("This is a message".to_string());
    let result = Err(PanicPayload::Message(String::from("This is a message")));
    assert_eq!(test_state(&desc, result), TestResult::Passed)
}

#[test]
fn test_succeeded_expected_panic_with_string_message_but_got_no_string() {
    let mut desc = default_test_desc();
    desc.should_panic = ShouldPanic::YesWithMessage("This is a message".to_string());
    let result = Err(PanicPayload::Other("TypeId(0x1)".to_string()));
    match test_state(&desc, result) {
        TestResult::Failed(Some(msg)) => {
            assert!(msg.contains("expected panic with string value"));
            assert_eq!(
                msg,
                "expected panic with string value,\n found non-string value: `TypeId(0x1)`\n     expected substring: `\"This is a message\"`"
            );
        }
        other => panic!("Result is {:?}", other),
    }
}

#[test]
fn test_succeeded_expected_panic_with_wrong_message() {
    let mut desc = default_test_desc();
    desc.should_panic = ShouldPanic::YesWithMessage("This is a message".to_string());
    match test_state(&desc, Err(message("This is another message"))) {
        TestResult::Failed(Some(msg)) => {
            assert!(msg.contains("panic did not contain expected string"));
            assert_eq!(
                msg,
                "panic did not contain expected string\n      panic message: `\"This is another message\"`,\n expected substring: `\"This is a message\"`"
            );
        }
        other => panic!("Result is {:?}", other),
    }
}

#[test]
fn test_succeeded_expected_panic_with_message_but_with_no_message() {
    let mut desc = default_test_desc();
    desc.should_panic = ShouldPanic::YesWithMessage("This is a message".to_string());
    match test_state(&desc, Err(message(""))) {
        TestResult::Failed(Some(msg)) => assert!(msg.contains("panic did not contain expected string")),
        other => panic!("Result is {:?}", other),
    }
}

#[test]
fn test_succeeded_expected_panic_with_message_but_did_not_panic() {
    let mut desc = default_test_desc();
    desc.should_panic = ShouldPanic::YesWithMessage("This is a message".to_string());
    match test_state(&desc, Ok(())) {
        TestResult::Failed(Some(msg)) => assert!(msg.contains("test did not panic as expected")),
        other => panic!("Result is {:?}", other),
    }
}

#[test]
fn finished_tests_are_reported() {
    let ok = CompletedTest { name: "t".to_string(), state: TestResult::Passed, stdout: None };
    assert_eq!(test_result_line(&ok), Some("test t ... ok".to_string()));
    let failed = CompletedTest::failed("u".to_string());
    assert_eq!(failed.state, TestResult::Failed(Some("Test aborted unexpectedly".to_string())));
    assert_eq!(test_result_line(&failed), Some("test u ... FAILED".to_string()));
    let ignored = CompletedTest::empty("v".to_string());
    assert_eq!(ignored.state, TestResult::Ignored);
    assert_eq!(test_result_line(&ignored), None);
    assert_eq!(passed(true), "ok");
    assert_eq!(passed(false), "FAILED");
}

#[test]
fn the_summary_counts_the_tests() {
    assert_eq!(
        test_summary_line(3, 0, 1, 12),
        "test result: ok. 3 passed; 0 failed; 1 ignored; 12 filtered;"
    );
    assert_eq!(
        test_summary_line(0, 2, 0, 0),
        "test result: FAILED. 0 passed; 2 failed; 0 ignored; 0 filtered;"
    );
    assert_eq!(decimal_exec(1090).into_iter().collect::<String>(), "1090");
    assert_eq!(decimal_exec(u64::MAX).into_iter().collect::<String>(), u64::MAX.to_string());
}

#[test]
fn only_affected_tests_run() {
    let all = vec!["a".to_string(), "b".to_string(), "c".to_string()];
    let affected = vec!["c".to_string(), "a".to_string(), "z".to_string()];
    let (kept, filtered) = select_affected(&all, &affected);
    assert_eq!(kept, vec!["a".to_string(), "c".to_string()]);
    assert_eq!(filtered, 1);
}

#[test]
fn report_of_failures() {
    let tests = vec![
        CompletedTest {
            name: "a".to_string(),
            state: TestResult::Failed(Some("boom".to_string())),
            stdout: Some(b"out".to_vec()),
        },
        CompletedTest { name: "b".to_string(), state: TestResult::Failed(None), stdout: None },
    ];
    assert_eq!(
        String::from_utf8(print_failures(&tests)).unwrap(),
        "\n---- a stdout ----\nout\n\nfailures:\n\ta: boom\n\tb\n"
    );
    assert!(print_failures(&Vec::new()).is_empty());
}
