//! The test harness's own judgements and output pieces: how a finished test
//! is judged under a time limit, how text is escaped inside JSON strings,
//! the delimiter written before a test's captured error output, and the
//! padding of test names.

use vstd::prelude::*;
use crate::test_runner::{
    debug_text, mismatch_message, no_panic_message, non_string_message, test_state, PanicPayload,
    ShouldPanic, TestDesc,
};
use crate::text::{chars_of, extend_chars, literal, string_of};

verus! {

/// How a test ended, as the harness reports it.
#[derive(Debug, Clone, PartialEq, Eq)]
pub enum TestResult {
    TrOk,
    TrFailed,
    TrFailedMsg(String),
    TrIgnored,
    TrTimedFail,
}

/// Judges a finished test from how it should panic, how it ended and
/// whether its run time was critical while time limits are errors.
pub fn calc_result(desc: &TestDesc, task_result: Result<(), PanicPayload>, critical_time_exceeded: bool) -> (r: TestResult)
    ensures
        match (desc.should_panic, task_result) {
            (ShouldPanic::No, Ok(())) => r == (if critical_time_exceeded { TestResult::TrTimedFail } else { TestResult::TrOk }),
            (ShouldPanic::Yes, Err(_)) => r == (if critical_time_exceeded { TestResult::TrTimedFail } else { TestResult::TrOk }),
            (ShouldPanic::YesWithMessage(m), Err(PanicPayload::Message(s))) => if crate::text::contains(s@, m@) {
                r == (if critical_time_exceeded { TestResult::TrTimedFail } else { TestResult::TrOk })
            } else {
                r matches TestResult::TrFailedMsg(msg) && msg@ == mismatch_message(debug_text(s@), debug_text(m@))
            },
            (ShouldPanic::YesWithMessage(m), Err(PanicPayload::Other(t))) => r matches TestResult::TrFailedMsg(msg)
                && msg@ == non_string_message(t@, debug_text(m@)),
            (ShouldPanic::Yes, Ok(())) => r matches TestResult::TrFailedMsg(msg) && msg@ == no_panic_message(),
            (ShouldPanic::YesWithMessage(_), Ok(())) => r matches TestResult::TrFailedMsg(msg) && msg@
                == no_panic_message(),
            (ShouldPanic::No, Err(_)) => r == TestResult::TrFailed,
        },
{
    match test_state(desc, task_result) {
        crate::test_runner::TestResult::Passed => {
            if critical_time_exceeded {
                TestResult::TrTimedFail
            } else {
                TestResult::TrOk
            }
        },
        crate::test_runner::TestResult::Failed(Some(msg)) => TestResult::TrFailedMsg(msg),
        crate::test_runner::TestResult::Failed(None) => TestResult::TrFailed,
        crate::test_runner::TestResult::Ignored => TestResult::TrIgnored,
    }
}

/// The lowercase hexadecimal digit for a number below sixteen.
pub open spec fn hex_digit(d: int) -> char {
    if d < 10 {
        ((d + 48) as u32) as char
    } else {
        ((d + 87) as u32) as char
    }
}

/// The escape that a JSON string needs for `c`, if it needs one.
pub open spec fn json_escape_of(c: char) -> Option<Seq<char>> {
    if c == '"' {
        Some("\\\""@)
    } else if c == '\\' {
        Some("\\\\"@)
    } else if c == '\x08' {
        Some("\\b"@)
    } else if c == '\t' {
        Some("\\t"@)
    } else if c == '\n' {
        Some("\\n"@)
    } else if c == '\x0c' {
        Some("\\f"@)
    } else if c == '\r' {
        Some("\\r"@)
    } else if (c as u32) < 0x20 || c == '\x7f' {
        Some("\\u00"@ + seq![hex_digit((c as int) / 16), hex_digit((c as int) % 16)])
    } else {
        None
    }
}

/// `s` with every character that a JSON string cannot hold escaped.
pub open spec fn json_escaped(s: Seq<char>) -> Seq<char>
    decreases s.len(),
{
    if s.len() == 0 {
        Seq::empty()
    } else {
        json_escaped(s.drop_last()) + match json_escape_of(s.last()) {
            Some(e) => e,
            None => seq![s.last()],
        }
    }
}

fn hex_digit_exec(d: u32) -> (c: char)
    requires
        d < 16,
    ensures
        c == hex_digit(d as int),
{
    match d {
        0 => '0',
        1 => '1',
        2 => '2',
        3 => '3',
        4 => '4',
        5 => '5',
        6 => '6',
        7 => '7',
        8 => '8',
        9 => '9',
        10 => 'a',
        11 => 'b',
        12 => 'c',
        13 => 'd',
        14 => 'e',
        _ => 'f',
    }
}

/// Appends the JSON form of `c` to `out`.
fn push_json_char(out: &mut Vec<char>, c: char)
    ensures
        final(out)@ == old(out)@ + match json_escape_of(c) {
            Some(e) => e,
            None => seq![c],
        },
{
    let e: Vec<char> = if c == '"' {
        literal("\\\"")
    } else if c == '\\' {
        literal("\\\\")
    } else if c == '\x08' {
        literal("\\b")
    } else if c == '\t' {
        literal("\\t")
    } else if c == '\n' {
        literal("\\n")
    } else if c == '\x0c' {
        literal("\\f")
    } else if c == '\r' {
        literal("\\r")
    } else if (c as u32) < 0x20 || c == '\x7f' {
        let code = c as u32;
        let mut u = literal("\\u00");
        u.push(hex_digit_exec(code / 16));
        u.push(hex_digit_exec(code % 16));
        u
    } else {
        vec![c]
    };
    extend_chars(out, e.as_slice());
}

/// The text with every character that a JSON string cannot hold escaped.
pub fn escaped_string(s: &str) -> (r: String)
    ensures
        r@ == json_escaped(s@),
{
    let cs = chars_of(s);
    let mut out: Vec<char> = Vec::new();
    let mut i: usize = 0;
    while i < cs.len()
        invariant
            i <= cs@.len(),
            cs@ == s@,
            out@ == json_escaped(cs@.take(i as int)),
        decreases cs@.len() - i,
    {
        proof {
            assert(cs@.take(i + 1).drop_last() =~= cs@.take(i as int));
            assert(cs@.take(i + 1).last() == cs@[i as int]);
        }
        push_json_char(&mut out, cs[i]);
        i = i + 1;
    }
    assert(cs@.take(cs@.len() as int) =~= cs@);
    string_of(out.as_slice())
}

/// The bytes of a test's error output once the delimiter for the test
/// named `name` follows it: a line break first where the output does not
/// end with one.
pub open spec fn with_stderr_delimiter(output: Seq<u8>, name: Seq<char>) -> Seq<u8> {
    let start = if output.len() > 0 && output.last() != 10u8 {
        output.push(10u8)
    } else {
        output
    };
    start + vstd::utf8::encode_utf8("---- "@ + name + " stderr ----\n"@)
}

/// Writes the delimiter before the captured error output of the test
/// named `test_name`.
pub fn write_stderr_delimiter(test_output: &mut Vec<u8>, test_name: &str)
    ensures
        final(test_output)@ == with_stderr_delimiter(old(test_output)@, test_name@),
{
    if test_output.len() > 0 && test_output[test_output.len() - 1] != 10u8 {
        test_output.push(10u8);
    }
    let mut line = literal("---- ");
    let n = chars_of(test_name);
    extend_chars(&mut line, n.as_slice());
    let tail = literal(" stderr ----\n");
    extend_chars(&mut line, tail.as_slice());
    let text = string_of(line.as_slice());
    let bytes = text.as_str().as_bytes();
    let mut i: usize = 0;
    let ghost start = test_output@;
    while i < bytes.len()
        invariant
            i <= bytes@.len(),
            bytes@ == vstd::utf8::encode_utf8(text@),
            test_output@ == start + bytes@.take(i as int),
        decreases bytes@.len() - i,
    {
        test_output.push(bytes[i]);
        assert(bytes@.take(i + 1) =~= bytes@.take(i as int).push(bytes@[i as int]));
        i = i + 1;
    }
    assert(bytes@.take(bytes@.len() as int) =~= bytes@);
}

/// How a test's name is aligned in the output.
#[derive(Debug, Clone, Copy, PartialEq, Eq)]
pub enum NamePadding {
    PadNone,
    PadOnRight,
}

/// The width a test name takes when names are padded on the right: its
/// length in bytes, or nothing where the test is not padded.
pub fn len_if_padded(padding: NamePadding, name: &str) -> (r: usize)
    ensures
        r == match padding {
            NamePadding::PadNone => 0,
            NamePadding::PadOnRight => vstd::utf8::encode_utf8(name@).len() as usize,
        },
{
    match padding {
        NamePadding::PadNone => 0,
        NamePadding::PadOnRight => name.len(),
    }
}

/// Whether ignored tests run.
#[derive(Debug, Clone, Copy, PartialEq, Eq)]
pub enum RunIgnored {
    Yes,
    No,
    Only,
}

/// What becomes of a test before the run.
#[derive(Debug, Clone, Copy, PartialEq, Eq)]
pub enum TestFate {
    FilteredOut,
    Ignored,
    Runs,
}

/// What becomes of the test `d`: left out where it should panic and such
/// tests are excluded, or where it is not among the affected tests;
/// counted as ignored where it is ignored and ignored tests do not run.
pub open spec fn fate_of(
    d: TestDesc,
    affected: Seq<Seq<char>>,
    exclude_should_panic: bool,
    run_ignored: RunIgnored,
) -> TestFate {
    if exclude_should_panic && !(d.should_panic is No) {
        TestFate::FilteredOut
    } else if affected.contains(d.name@) {
        if run_ignored == RunIgnored::No && d.ignore {
            TestFate::Ignored
        } else {
            TestFate::Runs
        }
    } else {
        TestFate::FilteredOut
    }
}

/// Running only ignored tests is asked for a test that would be looked at.
pub open spec fn asks_only_ignored(
    d: TestDesc,
    affected: Seq<Seq<char>>,
    exclude_should_panic: bool,
    run_ignored: RunIgnored,
) -> bool {
    !(exclude_should_panic && !(d.should_panic is No)) && affected.contains(d.name@) && run_ignored
        == RunIgnored::Only
}

/// The positions of the tests among the first `n` whose fate is `f`.
pub open spec fn with_fate(
    tests: Seq<TestDesc>,
    n: int,
    affected: Seq<Seq<char>>,
    exclude_should_panic: bool,
    run_ignored: RunIgnored,
    f: TestFate,
) -> Seq<int>
    decreases n,
{
    if n <= 0 || n > tests.len() {
        Seq::empty()
    } else {
        let r = with_fate(tests, n - 1, affected, exclude_should_panic, run_ignored, f);
        if fate_of(tests[n - 1], affected, exclude_should_panic, run_ignored) == f {
            r.push(n - 1)
        } else {
            r
        }
    }
}

/// Which tests run, in order, and how many are filtered out and how many
/// ignored; the tests run are those among `affected`.
pub fn select_runnable(
    tests: &Vec<TestDesc>,
    affected: &Vec<String>,
    exclude_should_panic: bool,
    run_ignored: RunIgnored,
) -> (r: (Vec<usize>, u64, u64))
    requires
        tests@.len() <= u64::MAX,
        forall|i: int| 0 <= i < tests@.len() ==> !asks_only_ignored(
            #[trigger] tests@[i],
            crate::text::names_of(affected@),
            exclude_should_panic,
            run_ignored,
        ),
    ensures
        r.0@.map_values(|i: usize| i as int) == with_fate(
            tests@,
            tests@.len() as int,
            crate::text::names_of(affected@),
            exclude_should_panic,
            run_ignored,
            TestFate::Runs,
        ),
        r.1 == with_fate(
            tests@,
            tests@.len() as int,
            crate::text::names_of(affected@),
            exclude_should_panic,
            run_ignored,
            TestFate::FilteredOut,
        ).len(),
        r.2 == with_fate(
            tests@,
            tests@.len() as int,
            crate::text::names_of(affected@),
            exclude_should_panic,
            run_ignored,
            TestFate::Ignored,
        ).len(),
{
    let ghost names = crate::text::names_of(affected@);
    let mut runs: Vec<usize> = Vec::new();
    let mut filtered_out: u64 = 0;
    let mut ignored: u64 = 0;
    let mut i: usize = 0;
    while i < tests.len()
        invariant
            i <= tests@.len() <= u64::MAX,
            names == crate::text::names_of(affected@),
            runs@.map_values(|k: usize| k as int) == with_fate(tests@, i as int, names, exclude_should_panic, run_ignored, TestFate::Runs),
            filtered_out == with_fate(tests@, i as int, names, exclude_should_panic, run_ignored, TestFate::FilteredOut).len(),
            ignored == with_fate(tests@, i as int, names, exclude_should_panic, run_ignored, TestFate::Ignored).len(),
            with_fate(tests@, i as int, names, exclude_should_panic, run_ignored, TestFate::Runs).len()
                + with_fate(tests@, i as int, names, exclude_should_panic, run_ignored, TestFate::FilteredOut).len()
                + with_fate(tests@, i as int, names, exclude_should_panic, run_ignored, TestFate::Ignored).len() == i,
        decreases tests@.len() - i,
    {
        let d = &tests[i];
        let panicking = match d.should_panic {
            ShouldPanic::No => false,
            _ => true,
        };
        let fate = if exclude_should_panic && panicking {
            TestFate::FilteredOut
        } else if crate::text::contains_name(affected, &d.name) {
            match run_ignored {
                RunIgnored::No => if d.ignore {
                    TestFate::Ignored
                } else {
                    TestFate::Runs
                },
                _ => TestFate::Runs,
            }
        } else {
            TestFate::FilteredOut
        };
        assert(fate == fate_of(tests@[i as int], names, exclude_should_panic, run_ignored));
        match fate {
            TestFate::Runs => {
                let ghost before = runs@;
                runs.push(i);
                assert(runs@.map_values(|k: usize| k as int) =~= before.map_values(|k: usize| k as int).push(i as int));
            },
            TestFate::FilteredOut => {
                filtered_out = filtered_out + 1;
            },
            TestFate::Ignored => {
                ignored = ignored + 1;
            },
        }
        i = i + 1;
    }
    (runs, filtered_out, ignored)
}

/// A test is among those of fate `f` exactly where its own fate is `f`.
proof fn lemma_with_fate_members(
    tests: Seq<TestDesc>,
    n: int,
    affected: Seq<Seq<char>>,
    exclude_should_panic: bool,
    run_ignored: RunIgnored,
    f: TestFate,
)
    requires
        0 <= n <= tests.len(),
    ensures
        forall|i: int| #[trigger] with_fate(tests, n, affected, exclude_should_panic, run_ignored, f).contains(i)
            <==> 0 <= i < n && fate_of(tests[i], affected, exclude_should_panic, run_ignored) == f,
    decreases n,
{
    if n > 0 {
        lemma_with_fate_members(tests, n - 1, affected, exclude_should_panic, run_ignored, f);
        let r = with_fate(tests, n - 1, affected, exclude_should_panic, run_ignored, f);
        let q = with_fate(tests, n, affected, exclude_should_panic, run_ignored, f);
        assert forall|i: int| #[trigger] q.contains(i)
            <==> 0 <= i < n && fate_of(tests[i], affected, exclude_should_panic, run_ignored) == f by {
            if fate_of(tests[n - 1], affected, exclude_should_panic, run_ignored) == f {
                assert(q == r.push(n - 1));
                if q.contains(i) && i != n - 1 {
                    let k = choose|k: int| 0 <= k < q.len() && q[k] == i;
                    assert(r[k] == i);
                    assert(r.contains(i));
                }
                if r.contains(i) {
                    let k = choose|k: int| 0 <= k < r.len() && r[k] == i;
                    assert(q[k] == i);
                }
                if i == n - 1 {
                    assert(q[q.len() - 1] == i);
                }
            }
        }
    } else {
        assert forall|i: int| !(#[trigger] with_fate(tests, n, affected, exclude_should_panic, run_ignored, f).contains(i)) by {}
    }
}

/// What the selection before a run does, over all tests:
/// - where tests that should panic are excluded, no test that should panic
///   (with or without an expected message) runs: each is filtered out;
/// - every test that runs is among the affected tests;
/// - where ignored tests do not run, no ignored test runs, and each ignored
///   affected test that is not excluded is counted as ignored;
/// - every affected test that is neither excluded nor ignored runs;
/// - a test that is not affected never runs, and is filtered out.
pub proof fn lemma_selection_before_run(
    tests: Seq<TestDesc>,
    affected: Seq<Seq<char>>,
    exclude_should_panic: bool,
    run_ignored: RunIgnored,
)
    ensures
        ({
            let n = tests.len() as int;
            let runs = with_fate(tests, n, affected, exclude_should_panic, run_ignored, TestFate::Runs);
            let out = with_fate(tests, n, affected, exclude_should_panic, run_ignored, TestFate::FilteredOut);
            let ign = with_fate(tests, n, affected, exclude_should_panic, run_ignored, TestFate::Ignored);
            &&& exclude_should_panic ==> forall|i: int| #[trigger] runs.contains(i) ==> tests[i].should_panic
                == ShouldPanic::No
            &&& exclude_should_panic ==> forall|i: int| 0 <= i < n && tests[i].should_panic != ShouldPanic::No
                ==> #[trigger] out.contains(i)
            &&& forall|i: int| #[trigger] runs.contains(i) ==> 0 <= i < n && affected.contains(tests[i].name@)
            &&& run_ignored == RunIgnored::No ==> forall|i: int| #[trigger] runs.contains(i) ==> !tests[i].ignore
            &&& run_ignored == RunIgnored::No ==> forall|i: int|
                0 <= i < n && tests[i].ignore && affected.contains(tests[i].name@) && (!exclude_should_panic
                    || tests[i].should_panic == ShouldPanic::No) ==> #[trigger] ign.contains(i)
            &&& forall|i: int|
                0 <= i < n && affected.contains(tests[i].name@) && (!exclude_should_panic || tests[i].should_panic
                    == ShouldPanic::No) && (run_ignored != RunIgnored::No || !tests[i].ignore) ==> #[trigger] runs.contains(i)
            &&& forall|i: int| 0 <= i < n && !affected.contains(tests[i].name@) ==> #[trigger] out.contains(i)
        }),
{
    let n = tests.len() as int;
    lemma_with_fate_members(tests, n, affected, exclude_should_panic, run_ignored, TestFate::Runs);
    lemma_with_fate_members(tests, n, affected, exclude_should_panic, run_ignored, TestFate::FilteredOut);
    lemma_with_fate_members(tests, n, affected, exclude_should_panic, run_ignored, TestFate::Ignored);
}

/// The counts and the lists of a run in progress.
pub struct RunState {
    pub passed: u64,
    pub failed: u64,
    pub ignored: u64,
    pub failures: Vec<(String, Vec<u8>)>,
    pub ignores: Vec<(String, Vec<u8>)>,
    pub time_failures: Vec<(String, Vec<u8>)>,
}

/// Counts the finished test `name` by its result, keeping what it printed
/// with the failures, the ignored tests or the tests over their time limit.
pub fn evaluate_result(state: &mut RunState, name: String, result: TestResult, stdout: Vec<u8>)
    requires
        old(state).passed < u64::MAX,
        old(state).failed < u64::MAX,
        old(state).ignored < u64::MAX,
    ensures
        final(state).passed == old(state).passed + if result is TrOk {
            1int
        } else {
            0int
        },
        final(state).failed == old(state).failed + if result is TrFailed || result is TrFailedMsg
            || result is TrTimedFail {
            1int
        } else {
            0int
        },
        final(state).ignored == old(state).ignored + if result is TrIgnored {
            1int
        } else {
            0int
        },
        final(state).failures@ == if result is TrFailed || result is TrFailedMsg {
            old(state).failures@.push((name, stdout))
        } else {
            old(state).failures@
        },
        final(state).ignores@ == if result is TrIgnored {
            old(state).ignores@.push((name, stdout))
        } else {
            old(state).ignores@
        },
        final(state).time_failures@ == if result is TrTimedFail {
            old(state).time_failures@.push((name, stdout))
        } else {
            old(state).time_failures@
        },
{
    match result {
        TestResult::TrOk => {
            state.passed = state.passed + 1;
        },
        TestResult::TrFailedMsg(_) | TestResult::TrFailed => {
            state.failed = state.failed + 1;
            state.failures.push((name, stdout));
        },
        TestResult::TrIgnored => {
            state.ignored = state.ignored + 1;
            state.ignores.push((name, stdout));
        },
        TestResult::TrTimedFail => {
            state.failed = state.failed + 1;
            state.time_failures.push((name, stdout));
        },
    }
}

} // verus!
