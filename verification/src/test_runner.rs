//! The decisions of the test runner that executes each selected test in a
//! process of its own: which tests run, how a finished test is judged, and
//! the lines that report it.

use vstd::prelude::*;
use crate::text::{chars_of, literal, string_of, extend_chars, contains_exec};

verus! {

/// What a test expects of panicking.
#[derive(Debug, Clone, PartialEq, Eq)]
pub enum ShouldPanic {
    No,
    Yes,
    YesWithMessage(String),
}

/// The description of a test that the runner needs.
#[derive(Debug, Clone, PartialEq, Eq)]
pub struct TestDesc {
    pub name: String,
    pub ignore: bool,
    pub should_panic: ShouldPanic,
}

/// What a test panicked with: a message, or a value of another type, given
/// by the `Debug` text of its type's id.
#[derive(Debug, Clone, PartialEq, Eq)]
pub enum PanicPayload {
    Message(String),
    Other(String),
}

/// How a test ended.
#[derive(Debug, Clone, PartialEq, Eq)]
pub enum TestResult {
    Passed,
    Failed(Option<String>),
    Ignored,
}

/// The `Debug` text of a string: quoted, with escapes.
pub uninterp spec fn debug_text(s: Seq<char>) -> Seq<char>;

/// `<str as Debug>::fmt`: the string quoted and escaped as `{:?}` prints it.
#[verifier::external_body]
fn debug_of(s: &str) -> (r: String)
    ensures
        r@ == debug_text(s@),
{
    format!("{:?}", s)
}

/// The message for a panic whose text lacks the expected part.
pub open spec fn mismatch_message(found: Seq<char>, expected: Seq<char>) -> Seq<char> {
    "panic did not contain expected string\n      panic message: `"@ + found
        + "`,\n expected substring: `"@ + expected + "`"@
}

/// The message for a panic with a value that is no string.
pub open spec fn non_string_message(type_text: Seq<char>, expected: Seq<char>) -> Seq<char> {
    "expected panic with string value,\n found non-string value: `"@ + type_text
        + "`\n     expected substring: `"@ + expected + "`"@
}

/// The message for a test that should have panicked and did not.
pub open spec fn no_panic_message() -> Seq<char> {
    "test did not panic as expected"@
}

/// The panic message of a test that panicked with `found` (the `Debug`
/// text of its message) where `expected` (the `Debug` text of the expected
/// part) was wanted.
pub fn panic_mismatch(found: &str, expected: &str) -> (r: String)
    ensures
        r@ == mismatch_message(found@, expected@),
{
    let mut v = literal("panic did not contain expected string\n      panic message: `");
    let f = chars_of(found);
    extend_chars(&mut v, f.as_slice());
    let mid = literal("`,\n expected substring: `");
    extend_chars(&mut v, mid.as_slice());
    let e = chars_of(expected);
    extend_chars(&mut v, e.as_slice());
    let end = literal("`");
    extend_chars(&mut v, end.as_slice());
    string_of(v.as_slice())
}

/// The panic message of a test that panicked with a value of the type
/// whose id prints as `type_text` where `expected` (the `Debug` text of the
/// expected part) was wanted.
pub fn panic_not_string(type_text: &str, expected: &str) -> (r: String)
    ensures
        r@ == non_string_message(type_text@, expected@),
{
    let mut v = literal("expected panic with string value,\n found non-string value: `");
    let t = chars_of(type_text);
    extend_chars(&mut v, t.as_slice());
    let mid = literal("`\n     expected substring: `");
    extend_chars(&mut v, mid.as_slice());
    let e = chars_of(expected);
    extend_chars(&mut v, e.as_slice());
    let end = literal("`");
    extend_chars(&mut v, end.as_slice());
    string_of(v.as_slice())
}

/// Whether the test passed, given how it should panic and how it ended.
pub fn test_state(desc: &TestDesc, result: Result<(), PanicPayload>) -> (r: TestResult)
    ensures
        match (desc.should_panic, result) {
            (ShouldPanic::No, Ok(())) => r == TestResult::Passed,
            (ShouldPanic::Yes, Err(_)) => r == TestResult::Passed,
            (ShouldPanic::YesWithMessage(m), Err(PanicPayload::Message(s))) => if crate::text::contains(s@, m@) {
                r == TestResult::Passed
            } else {
                r matches TestResult::Failed(Some(msg)) && msg@ == mismatch_message(
                    debug_text(s@),
                    debug_text(m@),
                )
            },
            (ShouldPanic::YesWithMessage(m), Err(PanicPayload::Other(t))) => r matches TestResult::Failed(Some(msg))
                && msg@ == non_string_message(t@, debug_text(m@)),
            (ShouldPanic::Yes, Ok(())) => r matches TestResult::Failed(Some(msg)) && msg@
                == no_panic_message(),
            (ShouldPanic::YesWithMessage(_), Ok(())) => r matches TestResult::Failed(Some(msg))
                && msg@ == no_panic_message(),
            (ShouldPanic::No, Err(_)) => r == TestResult::Failed(None),
        },
{
    match (&desc.should_panic, result) {
        (ShouldPanic::No, Ok(())) => TestResult::Passed,
        (ShouldPanic::Yes, Err(_)) => TestResult::Passed,
        (ShouldPanic::YesWithMessage(m), Err(PanicPayload::Message(s))) => {
            let sc = chars_of(s.as_str());
            let mc = chars_of(m.as_str());
            if contains_exec(sc.as_slice(), mc.as_slice()) {
                TestResult::Passed
            } else {
                let found = debug_of(s.as_str());
                let expected = debug_of(m.as_str());
                TestResult::Failed(Some(panic_mismatch(found.as_str(), expected.as_str())))
            }
        },
        (ShouldPanic::YesWithMessage(m), Err(PanicPayload::Other(t))) => {
            let expected = debug_of(m.as_str());
            TestResult::Failed(Some(panic_not_string(t.as_str(), expected.as_str())))
        },
        (ShouldPanic::Yes, Ok(())) | (ShouldPanic::YesWithMessage(_), Ok(())) => {
            let v = literal("test did not panic as expected");
            TestResult::Failed(Some(string_of(v.as_slice())))
        },
        (ShouldPanic::No, Err(_)) => TestResult::Failed(None),
    }
}

/// A test that has finished: its name, how it ended and what it printed.
#[derive(Debug, Clone, PartialEq, Eq)]
pub struct CompletedTest {
    pub name: String,
    pub state: TestResult,
    pub stdout: Option<Vec<u8>>,
}

impl CompletedTest {
    /// A test that was not run because it is ignored.
    pub fn empty(name: String) -> (r: CompletedTest)
        ensures
            r.name == name,
            r.state == TestResult::Ignored,
            r.stdout is None,
    {
        CompletedTest { name, state: TestResult::Ignored, stdout: None }
    }

    /// A test whose process ended without reporting a result.
    pub fn failed(name: String) -> (r: CompletedTest)
        ensures
            r.name == name,
            r.state matches TestResult::Failed(Some(m)) && m@ == "Test aborted unexpectedly"@,
            r.stdout is None,
    {
        let v = literal("Test aborted unexpectedly");
        CompletedTest { name, state: TestResult::Failed(Some(string_of(v.as_slice()))), stdout: None }
    }
}

/// The word for a passed or failed run.
pub open spec fn passed_word(condition: bool) -> Seq<char> {
    if condition {
        "ok"@
    } else {
        "FAILED"@
    }
}

/// `ok` when the condition holds, else `FAILED`.
pub fn passed(condition: bool) -> (r: &'static str)
    ensures
        r@ == passed_word(condition),
{
    if condition {
        "ok"
    } else {
        "FAILED"
    }
}

/// The line reported for a finished test, if it passed or failed.
pub open spec fn result_line(name: Seq<char>, state: TestResult) -> Option<Seq<char>> {
    match state {
        TestResult::Passed => Some("test "@ + name + " ... "@ + passed_word(true)),
        TestResult::Failed(_) => Some("test "@ + name + " ... "@ + passed_word(false)),
        TestResult::Ignored => None,
    }
}

/// The line to print for a finished test; none for an ignored one.
pub fn test_result_line(test: &CompletedTest) -> (r: Option<String>)
    ensures
        match r {
            Some(l) => result_line(test.name@, test.state) == Some(l@),
            None => result_line(test.name@, test.state) is None,
        },
{
    let ok = match test.state {
        TestResult::Passed => true,
        TestResult::Failed(_) => false,
        TestResult::Ignored => {
            return None;
        },
    };
    let mut v = literal("test ");
    let n = chars_of(test.name.as_str());
    extend_chars(&mut v, n.as_slice());
    let dots = literal(" ... ");
    extend_chars(&mut v, dots.as_slice());
    let w = chars_of(passed(ok));
    extend_chars(&mut v, w.as_slice());
    Some(string_of(v.as_slice()))
}

/// The digit for a number below ten.
pub open spec fn digit(d: nat) -> char {
    ((d + 48) as u32) as char
}

/// The decimal digits of `n`.
pub open spec fn decimal(n: nat) -> Seq<char>
    decreases n,
{
    if n < 10 {
        seq![digit(n)]
    } else {
        decimal(n / 10) + seq![digit(n % 10)]
    }
}

/// The decimal digits of `n`.
pub fn decimal_exec(n: u64) -> (r: Vec<char>)
    ensures
        r@ == decimal(n as nat),
    decreases n,
{
    let d = n % 10;
    let c = match d {
        0 => '0',
        1 => '1',
        2 => '2',
        3 => '3',
        4 => '4',
        5 => '5',
        6 => '6',
        7 => '7',
        8 => '8',
        _ => '9',
    };
    assert(c == digit(d as nat));
    if n < 10 {
        vec![c]
    } else {
        let mut r = decimal_exec(n / 10);
        r.push(c);
        r
    }
}

/// The closing line of a run.
pub open spec fn summary_line(passed: nat, failed: nat, ignored: nat, filtered: nat) -> Seq<char> {
    "test result: "@ + passed_word(failed == 0) + ". "@ + decimal(passed) + " passed; "@ + decimal(
        failed,
    ) + " failed; "@ + decimal(ignored) + " ignored; "@ + decimal(filtered) + " filtered;"@
}

/// The closing line of a run with these counts.
pub fn test_summary_line(passed_count: u64, failed_count: u64, ignored: u64, filtered: u64) -> (r: String)
    ensures
        r@ == summary_line(passed_count as nat, failed_count as nat, ignored as nat, filtered as nat),
{
    let mut v = literal("test result: ");
    let w = chars_of(passed(failed_count == 0));
    extend_chars(&mut v, w.as_slice());
    let dot = literal(". ");
    extend_chars(&mut v, dot.as_slice());
    let p = decimal_exec(passed_count);
    extend_chars(&mut v, p.as_slice());
    let t1 = literal(" passed; ");
    extend_chars(&mut v, t1.as_slice());
    let f = decimal_exec(failed_count);
    extend_chars(&mut v, f.as_slice());
    let t2 = literal(" failed; ");
    extend_chars(&mut v, t2.as_slice());
    let i = decimal_exec(ignored);
    extend_chars(&mut v, i.as_slice());
    let t3 = literal(" ignored; ");
    extend_chars(&mut v, t3.as_slice());
    let x = decimal_exec(filtered);
    extend_chars(&mut v, x.as_slice());
    let t4 = literal(" filtered;");
    extend_chars(&mut v, t4.as_slice());
    string_of(v.as_slice())
}

/// The names of `all` that `affected` holds, in order, and how many were
/// left out.
pub fn select_affected(all: &Vec<String>, affected: &Vec<String>) -> (r: (Vec<String>, u64))
    ensures
        r.0@.map_values(|s: String| s@) == all@.map_values(|s: String| s@).filter(
            |n: Seq<char>| affected@.map_values(|s: String| s@).contains(n),
        ),
        r.1 + r.0@.len() == all@.len(),
{
    let ghost names = all@.map_values(|s: String| s@);
    let ghost aff = affected@.map_values(|s: String| s@);
    let mut kept: Vec<String> = Vec::new();
    let mut filtered: u64 = 0;
    let mut i: usize = 0;
    while i < all.len()
        invariant
            i <= all@.len(),
            names == all@.map_values(|s: String| s@),
            aff == affected@.map_values(|s: String| s@),
            kept@.map_values(|s: String| s@) == names.take(i as int).filter(|n: Seq<char>| aff.contains(n)),
            filtered + kept@.len() == i,
        decreases all@.len() - i,
    {
        let mut found = false;
        let mut j: usize = 0;
        while j < affected.len()
            invariant
                j <= affected@.len(),
                aff == affected@.map_values(|s: String| s@),
                i < all@.len(),
                found == exists|k: int| 0 <= k < j && aff[k] == all@[i as int]@,
            decreases affected@.len() - j,
        {
            assert(aff[j as int] == affected@[j as int]@);
            if affected[j] == all[i] {
                found = true;
            }
            assert(found == exists|k: int| 0 <= k < j + 1 && aff[k] == all@[i as int]@) by {
                if exists|k: int| 0 <= k < j + 1 && aff[k] == all@[i as int]@ {
                    let k = choose|k: int| 0 <= k < j + 1 && aff[k] == all@[i as int]@;
                    if k < j {
                        assert(exists|k: int| 0 <= k < j && aff[k] == all@[i as int]@);
                    }
                }
            }
            j = j + 1;
        }
        proof {
            assert(names.take(i + 1).drop_last() =~= names.take(i as int));
            assert(names[i as int] == all@[i as int]@);
            if found {
                let k = choose|k: int| 0 <= k < affected@.len() && aff[k] == all@[i as int]@;
                assert(aff.contains(names[i as int]));
            } else {
                assert(!aff.contains(names[i as int]));
            }
            reveal(Seq::filter);
            assert(names.take(i + 1).last() == names[i as int]);
        }
        if found {
            kept.push(all[i].clone());
            assert(kept@.map_values(|s: String| s@) =~= names.take(i as int).filter(|n: Seq<char>| aff.contains(n)).push(all@[i as int]@));
        } else {
            filtered = filtered + 1;
        }
        i = i + 1;
    }
    assert(names.take(all@.len() as int) =~= names);
    (kept, filtered)
}

/// The bytes of a text in UTF-8.
pub open spec fn utf8(s: Seq<char>) -> Seq<u8> {
    vstd::utf8::encode_utf8(s)
}

/// What a failed test printed, framed by its name; nothing where nothing
/// was captured.
pub open spec fn captured_part(t: CompletedTest) -> Seq<u8> {
    match t.stdout {
        Some(b) => utf8("\n---- "@) + utf8(t.name@) + utf8(" stdout ----\n"@) + b@ + seq![10u8],
        None => Seq::empty(),
    }
}

/// The entry of a failed test in the list of failures: its name, and its
/// message on the same line where it has one.
pub open spec fn failure_entry(t: CompletedTest) -> Seq<u8> {
    utf8("\t"@) + utf8(t.name@) + match t.state {
        TestResult::Failed(Some(m)) => utf8(": "@) + utf8(m@) + seq![10u8],
        _ => Seq::empty(),
    }
}

/// What each failed test printed, one after the other.
pub open spec fn captured_parts(ts: Seq<CompletedTest>) -> Seq<u8>
    decreases ts.len(),
{
    if ts.len() == 0 {
        Seq::empty()
    } else {
        captured_parts(ts.drop_last()) + captured_part(ts.last())
    }
}

/// The entries of the failed tests, one after the other.
pub open spec fn failure_entries(ts: Seq<CompletedTest>) -> Seq<u8>
    decreases ts.len(),
{
    if ts.len() == 0 {
        Seq::empty()
    } else {
        failure_entries(ts.drop_last()) + failure_entry(ts.last())
    }
}

/// The report of the failed tests `ts`: what each printed, then the list of
/// failures; nothing where no test failed.
pub open spec fn failures_report(ts: Seq<CompletedTest>) -> Seq<u8> {
    if ts.len() == 0 {
        Seq::empty()
    } else {
        captured_parts(ts) + utf8("\nfailures:\n"@) + failure_entries(ts) + seq![10u8]
    }
}

/// Appends the UTF-8 bytes of `s`.
fn push_utf8(out: &mut Vec<u8>, s: &str)
    ensures
        final(out)@ == old(out)@ + utf8(s@),
{
    let b = s.as_bytes();
    let mut i: usize = 0;
    let ghost start = out@;
    while i < b.len()
        invariant
            i <= b@.len(),
            b@ == utf8(s@),
            out@ == start + b@.take(i as int),
        decreases b@.len() - i,
    {
        out.push(b[i]);
        assert(b@.take(i + 1) =~= b@.take(i as int).push(b@[i as int]));
        i = i + 1;
    }
    assert(b@.take(b@.len() as int) =~= b@);
}

/// The report of the failed tests, as the runner prints it.
pub fn print_failures(tests: &Vec<CompletedTest>) -> (r: Vec<u8>)
    ensures
        r@ == failures_report(tests@),
{
    let mut out: Vec<u8> = Vec::new();
    if tests.len() == 0 {
        return out;
    }
    let mut i: usize = 0;
    while i < tests.len()
        invariant
            i <= tests@.len(),
            out@ == captured_parts(tests@.take(i as int)),
        decreases tests@.len() - i,
    {
        let t = &tests[i];
        let ghost before = out@;
        match &t.stdout {
            Some(captured) => {
                push_utf8(&mut out, "\n---- ");
                push_utf8(&mut out, t.name.as_str());
                push_utf8(&mut out, " stdout ----\n");
                let mut k: usize = 0;
                let ghost mid = out@;
                while k < captured.len()
                    invariant
                        k <= captured@.len(),
                        out@ == mid + captured@.take(k as int),
                    decreases captured@.len() - k,
                {
                    out.push(captured[k]);
                    assert(captured@.take(k + 1) =~= captured@.take(k as int).push(captured@[k as int]));
                    k = k + 1;
                }
                assert(captured@.take(captured@.len() as int) =~= captured@);
                out.push(10u8);
            },
            None => {},
        }
        assert(tests@.take(i + 1).drop_last() =~= tests@.take(i as int));
        assert(tests@.take(i + 1).last() == tests@[i as int]);
        assert(out@ =~= before + captured_part(tests@[i as int]));
        i = i + 1;
    }
    assert(tests@.take(tests@.len() as int) =~= tests@);
    push_utf8(&mut out, "\nfailures:\n");
    let ghost head = out@;
    let mut j: usize = 0;
    while j < tests.len()
        invariant
            j <= tests@.len(),
            out@ == head + failure_entries(tests@.take(j as int)),
        decreases tests@.len() - j,
    {
        let t = &tests[j];
        let ghost before = out@;
        push_utf8(&mut out, "\t");
        push_utf8(&mut out, t.name.as_str());
        match &t.state {
            TestResult::Failed(Some(msg)) => {
                push_utf8(&mut out, ": ");
                push_utf8(&mut out, msg.as_str());
                out.push(10u8);
            },
            _ => {},
        }
        assert(tests@.take(j + 1).drop_last() =~= tests@.take(j as int));
        assert(tests@.take(j + 1).last() == tests@[j as int]);
        assert(out@ =~= before + failure_entry(tests@[j as int]));
        j = j + 1;
    }
    assert(tests@.take(tests@.len() as int) =~= tests@);
    out.push(10u8);
    out
}

} // verus!
