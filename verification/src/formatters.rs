//! The text that the test harness writes about a run: lines of JSON events
//! for tools, and the plain report for people.

use vstd::prelude::*;
use crate::libtest::{escaped_string, json_escaped, TestResult};
use crate::test_runner::{decimal, decimal_exec};
use crate::text::{chars_of, extend_chars, names_of, string_of};

verus! {

/// What `String::from_utf8_lossy` gives for the bytes `b`.
pub uninterp spec fn lossy_text(b: Seq<u8>) -> Seq<char>;

/// `String::from_utf8_lossy`: the text that the bytes encode, each invalid
/// sequence replaced. The result is named; where the bytes are valid UTF-8
/// it is the text they encode.
#[verifier::external_body]
fn text_of_lossy(b: &[u8]) -> (r: String)
    ensures
        r@ == lossy_text(b@),
        vstd::utf8::valid_utf8(b@) ==> r@ == vstd::utf8::decode_utf8(b@),
{
    String::from_utf8_lossy(b).into_owned()
}

/// Appends the characters of `s`.
fn push_text(out: &mut Vec<char>, s: &str)
    ensures
        final(out)@ == old(out)@ + s@,
{
    let c = chars_of(s);
    extend_chars(out, c.as_slice());
}

/// `", <name>: <v>"` where `v` is given, nothing otherwise.
pub open spec fn optional_part(prefix: Seq<char>, v: Option<Seq<char>>, suffix: Seq<char>) -> Seq<char> {
    match v {
        Some(x) => prefix + x + suffix,
        None => Seq::empty(),
    }
}

/// The JSON line of an event of the test `name`.
pub open spec fn json_event_line(
    ty: Seq<char>,
    name: Seq<char>,
    evt: Seq<char>,
    exec_time: Option<Seq<char>>,
    stdout: Option<Seq<char>>,
    extra: Option<Seq<char>>,
) -> Seq<char> {
    "{ \"type\": \""@ + ty + "\", \"name\": \""@ + json_escaped(name) + "\", \"event\": \""@ + evt + "\""@
        + optional_part(", \"exec_time\": "@, exec_time, Seq::empty())
        + optional_part(", \"stdout\": \""@, match stdout {
        Some(s) => Some(json_escaped(s)),
        None => None,
    }, "\""@) + optional_part(", "@, extra, Seq::empty()) + " }\n"@
}

/// The JSON line of an event of the test `name`.
fn json_event(
    ty: &str,
    name: &str,
    evt: &str,
    exec_time: Option<&str>,
    stdout: Option<&str>,
    extra: Option<&str>,
) -> (r: String)
    ensures
        r@ == json_event_line(
            ty@,
            name@,
            evt@,
            match exec_time {
                Some(t) => Some(t@),
                None => None,
            },
            match stdout {
                Some(s) => Some(s@),
                None => None,
            },
            match extra {
                Some(x) => Some(x@),
                None => None,
            },
        ),
{
    let mut out: Vec<char> = Vec::new();
    push_text(&mut out, "{ \"type\": \"");
    push_text(&mut out, ty);
    push_text(&mut out, "\", \"name\": \"");
    let n = escaped_string(name);
    push_text(&mut out, n.as_str());
    push_text(&mut out, "\", \"event\": \"");
    push_text(&mut out, evt);
    push_text(&mut out, "\"");
    if let Some(t) = exec_time {
        push_text(&mut out, ", \"exec_time\": ");
        push_text(&mut out, t);
    }
    if let Some(s) = stdout {
        push_text(&mut out, ", \"stdout\": \"");
        let e = escaped_string(s);
        push_text(&mut out, e.as_str());
        push_text(&mut out, "\"");
    }
    if let Some(x) = extra {
        push_text(&mut out, ", ");
        push_text(&mut out, x);
    }
    push_text(&mut out, " }\n");
    string_of(out.as_slice())
}

/// The event and the extra field of a test's result in JSON.
pub open spec fn json_result_event(result: TestResult, ignore_message: Option<Seq<char>>) -> (Seq<char>, Option<Seq<char>>) {
    match result {
        TestResult::TrOk => ("ok"@, None),
        TestResult::TrFailed => ("failed"@, None),
        TestResult::TrTimedFail => ("failed"@, Some("\"reason\": \"time limit exceeded\""@)),
        TestResult::TrFailedMsg(m) => ("failed"@, Some("\"message\": \""@ + json_escaped(m@) + "\""@)),
        TestResult::TrIgnored => ("ignored"@, match ignore_message {
            Some(msg) => Some("\"message\": \""@ + json_escaped(msg) + "\""@),
            None => None,
        }),
    }
}

/// The JSON line of a test's result: its output is shown where outputs are
/// displayed or the test did not pass, and only where there is any.
pub open spec fn json_result_line(
    name: Seq<char>,
    result: TestResult,
    exec_time: Option<Seq<char>>,
    stdout: Seq<u8>,
    display_output: bool,
    ignore_message: Option<Seq<char>>,
) -> Seq<char> {
    let shown = if (display_output || !(result is TrOk)) && stdout.len() > 0 {
        Some(lossy_text(stdout))
    } else {
        None
    };
    let (evt, extra) = json_result_event(result, ignore_message);
    json_event_line("test"@, name, evt, exec_time, shown, extra)
}

/// The JSON line of the result of the test `name`; `exec_time` is the run
/// time as it is written, in seconds, and holds no line break.
pub fn json_result(
    name: &str,
    result: &TestResult,
    exec_time: Option<&str>,
    stdout: &[u8],
    display_output: bool,
    ignore_message: Option<&str>,
) -> (r: String)
    requires
        exec_time matches Some(t) ==> !t@.contains('\n'),
    ensures
        r@ == json_result_line(
            name@,
            *result,
            match exec_time {
                Some(t) => Some(t@),
                None => None,
            },
            stdout@,
            display_output,
            match ignore_message {
                Some(m) => Some(m@),
                None => None,
            },
        ),
{
    let ok = match result {
        TestResult::TrOk => true,
        _ => false,
    };
    let shown: Option<String> = if (display_output || !ok) && stdout.len() > 0 {
        Some(text_of_lossy(stdout))
    } else {
        None
    };
    let shown_ref: Option<&str> = match &shown {
        Some(s) => Some(s.as_str()),
        None => None,
    };
    match result {
        TestResult::TrOk => json_event("test", name, "ok", exec_time, shown_ref, None),
        TestResult::TrFailed => json_event("test", name, "failed", exec_time, shown_ref, None),
        TestResult::TrTimedFail => json_event(
            "test",
            name,
            "failed",
            exec_time,
            shown_ref,
            Some("\"reason\": \"time limit exceeded\""),
        ),
        TestResult::TrFailedMsg(m) => {
            let mut x: Vec<char> = Vec::new();
            push_text(&mut x, "\"message\": \"");
            let e = escaped_string(m.as_str());
            push_text(&mut x, e.as_str());
            push_text(&mut x, "\"");
            let extra = string_of(x.as_slice());
            json_event("test", name, "failed", exec_time, shown_ref, Some(extra.as_str()))
        },
        TestResult::TrIgnored => match ignore_message {
            Some(msg) => {
                let mut x: Vec<char> = Vec::new();
                push_text(&mut x, "\"message\": \"");
                let e = escaped_string(msg);
                push_text(&mut x, e.as_str());
                push_text(&mut x, "\"");
                let extra = string_of(x.as_slice());
                json_event("test", name, "ignored", exec_time, shown_ref, Some(extra.as_str()))
            },
            None => json_event("test", name, "ignored", exec_time, shown_ref, None),
        },
    }
}

/// The start of the JSON line of a result of the test `name`, up to the
/// event's value.
pub open spec fn json_test_head(name: Seq<char>) -> Seq<char> {
    "{ \"type\": \""@ + "test"@ + "\", \"name\": \""@ + json_escaped(name) + "\", \"event\": \""@
}

/// The JSON line of a result names the test and carries the event that the
/// result is: `"ok"` only for a passed test, `"failed"` for every failure
/// (a failure without message, with a message, or over the time limit), and
/// `"ignored"` for an ignored test; whatever the time, output and messages.
pub proof fn lemma_json_result_event(
    name: Seq<char>,
    result: TestResult,
    exec_time: Option<Seq<char>>,
    stdout: Seq<u8>,
    display_output: bool,
    ignore_message: Option<Seq<char>>,
)
    ensures
        ({
            let line = json_result_line(name, result, exec_time, stdout, display_output, ignore_message);
            &&& result is TrOk ==> crate::text::starts_with(line, json_test_head(name) + "ok"@ + "\""@)
            &&& (result is TrFailed || result is TrFailedMsg || result is TrTimedFail)
                ==> crate::text::starts_with(line, json_test_head(name) + "failed"@ + "\""@)
            &&& result is TrIgnored ==> crate::text::starts_with(line, json_test_head(name) + "ignored"@ + "\""@)
        }),
{
    let line = json_result_line(name, result, exec_time, stdout, display_output, ignore_message);
    let shown = if (display_output || !(result is TrOk)) && stdout.len() > 0 {
        Some(lossy_text(stdout))
    } else {
        None
    };
    let (evt, extra) = json_result_event(result, ignore_message);
    let p = json_test_head(name) + evt + "\""@;
    let rest = optional_part(", \"exec_time\": "@, exec_time, Seq::empty())
        + optional_part(", \"stdout\": \""@, match shown {
        Some(s) => Some(json_escaped(s)),
        None => None,
    }, "\""@) + optional_part(", "@, extra, Seq::empty()) + " }\n"@;
    assert(line =~= p + rest);
    assert(line.take(p.len() as int) =~= p);
}

/// The plain report and the log line give a passed test `ok`, every failure
/// (without message, with a message, or over the time limit) a word that
/// starts with `FAILED` (`failed` in the log), and an ignored test a word
/// that starts with `ignored`; the log line ends with the test's name (and
/// its time, where given) on a line of its own.
pub proof fn lemma_report_words(
    name: Seq<char>,
    result: TestResult,
    ignore_message: Option<Seq<char>>,
    exec_time: Option<Seq<char>>,
)
    ensures
        ({
            let word = pretty_result_word(result, ignore_message);
            let log = log_result_line(name, result, ignore_message, exec_time);
            &&& result is TrOk ==> word == "ok"@ && crate::text::starts_with(log, "ok "@ + name)
            &&& (result is TrFailed || result is TrFailedMsg || result is TrTimedFail)
                ==> crate::text::starts_with(word, "FAILED"@) && crate::text::starts_with(log, "failed"@)
            &&& result is TrIgnored ==> crate::text::starts_with(word, "ignored"@)
                && crate::text::starts_with(log, "ignored"@)
            &&& log.last() == '\n'
        }),
{
    reveal_strlit("ok");
    reveal_strlit("ok ");
    reveal_strlit("FAILED");
    reveal_strlit("FAILED (time limit exceeded)");
    reveal_strlit("failed");
    reveal_strlit("failed: ");
    reveal_strlit("failed (time limit exceeded)");
    reveal_strlit("ignored");
    reveal_strlit("ignored, ");
    reveal_strlit("ignored: ");
    reveal_strlit(" ");
    reveal_strlit("\n");
    let word = pretty_result_word(result, ignore_message);
    let log = log_result_line(name, result, ignore_message, exec_time);
    let head = match result {
        TestResult::TrOk => "ok"@,
        TestResult::TrFailed => "failed"@,
        TestResult::TrFailedMsg(m) => "failed: "@ + m@,
        TestResult::TrIgnored => match ignore_message {
            Some(m) => "ignored: "@ + m,
            None => "ignored"@,
        },
        TestResult::TrTimedFail => "failed (time limit exceeded)"@,
    };
    let tail = " "@ + name + optional_part(" <"@, exec_time, ">"@) + "\n"@;
    assert(log =~= head + tail);
    assert(log.take(head.len() as int) =~= head);
    assert(word.len() > 0);
    match result {
        TestResult::TrOk => {
            assert(log.take(3 + name.len() as int) =~= "ok "@ + name);
        },
        TestResult::TrFailed => {
            assert(word.take(6) =~= "FAILED"@);
        },
        TestResult::TrFailedMsg(m) => {
            assert(word.take(6) =~= "FAILED"@);
            assert(log.take(6) =~= "failed"@);
        },
        TestResult::TrTimedFail => {
            assert(word.take(6) =~= "FAILED"@);
            assert(log.take(6) =~= "failed"@);
        },
        TestResult::TrIgnored => {
            assert(word.take(7) =~= "ignored"@);
            assert(log.take(7) =~= "ignored"@);
        },
    }
}

/// The JSON line that starts a run of `test_count` tests.
pub open spec fn json_run_start_line(test_count: nat, shuffle_seed: Option<u64>) -> Seq<char> {
    "{ \"type\": \"suite\", \"event\": \"started\", \"test_count\": "@ + decimal(test_count) + optional_part(
        ", \"shuffle_seed\": "@,
        match shuffle_seed {
            Some(s) => Some(decimal(s as nat)),
            None => None,
        },
        Seq::empty(),
    ) + " }\n"@
}

/// The JSON line that starts a run of `test_count` tests.
pub fn json_run_start(test_count: u64, shuffle_seed: Option<u64>) -> (r: String)
    ensures
        r@ == json_run_start_line(test_count as nat, shuffle_seed),
{
    let mut out: Vec<char> = Vec::new();
    push_text(&mut out, "{ \"type\": \"suite\", \"event\": \"started\", \"test_count\": ");
    let n = decimal_exec(test_count);
    extend_chars(&mut out, n.as_slice());
    if let Some(s) = shuffle_seed {
        push_text(&mut out, ", \"shuffle_seed\": ");
        let d = decimal_exec(s);
        extend_chars(&mut out, d.as_slice());
    }
    push_text(&mut out, " }\n");
    string_of(out.as_slice())
}

/// The JSON line of an event of the test `name` that carries nothing else.
pub open spec fn json_test_line(evt: Seq<char>, name: Seq<char>) -> Seq<char> {
    "{ \"type\": \"test\", \"event\": \""@ + evt + "\", \"name\": \""@ + json_escaped(name) + "\" }\n"@
}

/// The JSON line of an event of the test `name` that carries nothing else.
fn json_test_event(evt: &str, name: &str) -> (r: String)
    ensures
        r@ == json_test_line(evt@, name@),
{
    let mut out: Vec<char> = Vec::new();
    push_text(&mut out, "{ \"type\": \"test\", \"event\": \"");
    push_text(&mut out, evt);
    push_text(&mut out, "\", \"name\": \"");
    let e = escaped_string(name);
    push_text(&mut out, e.as_str());
    push_text(&mut out, "\" }\n");
    string_of(out.as_slice())
}

/// The JSON line of the start of the test `name`.
pub fn json_test_start(name: &str) -> (r: String)
    ensures
        r@ == json_test_line("started"@, name@),
{
    json_test_event("started", name)
}

/// The JSON line of the test `name` running past its time limit.
pub fn json_timeout(name: &str) -> (r: String)
    ensures
        r@ == json_test_line("timeout"@, name@),
{
    json_test_event("timeout", name)
}

/// The counts of a finished run.
#[derive(Debug, Clone, Copy, PartialEq, Eq)]
pub struct RunCounts {
    pub passed: u64,
    pub failed: u64,
    pub ignored: u64,
    pub measured: u64,
    pub filtered_out: u64,
}

/// The JSON line that ends a run.
pub open spec fn json_run_finish_line(c: RunCounts, exec_time: Option<Seq<char>>) -> Seq<char> {
    "{ \"type\": \"suite\", \"event\": \""@ + (if c.failed == 0 {
        "ok"@
    } else {
        "failed"@
    }) + "\", \"passed\": "@ + decimal(c.passed as nat) + ", \"failed\": "@ + decimal(c.failed as nat)
        + ", \"ignored\": "@ + decimal(c.ignored as nat) + ", \"measured\": "@ + decimal(c.measured as nat)
        + ", \"filtered_out\": "@ + decimal(c.filtered_out as nat) + optional_part(
        ", \"exec_time\": "@,
        exec_time,
        Seq::empty(),
    ) + " }\n"@
}

/// `p` followed by anything starts with `p`.
proof fn lemma_starts_with_prefix(p: Seq<char>, rest: Seq<char>)
    ensures
        crate::text::starts_with(p + rest, p),
{
    assert((p + rest).take(p.len() as int) =~= p);
}

/// The fields of the JSON line that ends a run, after the verdict.
pub open spec fn json_run_counts(c: RunCounts, exec_time: Option<Seq<char>>) -> Seq<char> {
    decimal(c.passed as nat) + ", \"failed\": "@ + decimal(c.failed as nat) + ", \"ignored\": "@ + decimal(
        c.ignored as nat,
    ) + ", \"measured\": "@ + decimal(c.measured as nat) + ", \"filtered_out\": "@ + decimal(
        c.filtered_out as nat,
    ) + optional_part(", \"exec_time\": "@, exec_time, Seq::empty()) + " }\n"@
}

/// The counts of the plain report's closing lines, after the verdict.
pub open spec fn pretty_run_counts(c: RunCounts, exec_time: Option<Seq<char>>) -> Seq<char> {
    decimal(c.passed as nat) + " passed; "@ + decimal(c.failed as nat) + " failed; "@ + decimal(c.ignored as nat)
        + " ignored; "@ + decimal(c.measured as nat) + " measured; "@ + decimal(c.filtered_out as nat)
        + " filtered out"@ + optional_part("; finished in "@, exec_time, Seq::empty()) + "\n\n"@
}

/// A run is reported as passed exactly where no test failed, in the JSON
/// line and in the plain report alike.
#[verifier::rlimit(40)]
pub proof fn lemma_run_finish_verdict(c: RunCounts, exec_time: Option<Seq<char>>)
    ensures
        c.failed == 0 ==> crate::text::starts_with(
            json_run_finish_line(c, exec_time),
            "{ \"type\": \"suite\", \"event\": \""@ + "ok"@ + "\", \"passed\": "@,
        ) && crate::text::starts_with(pretty_run_finish_line(c, exec_time), "\ntest result: "@ + "ok"@ + ". "@),
        c.failed != 0 ==> crate::text::starts_with(
            json_run_finish_line(c, exec_time),
            "{ \"type\": \"suite\", \"event\": \""@ + "failed"@ + "\", \"passed\": "@,
        ) && crate::text::starts_with(pretty_run_finish_line(c, exec_time), "\ntest result: "@ + "FAILED"@ + ". "@),
{
    let verdict = if c.failed == 0 { "ok"@ } else { "failed"@ };
    let jp = "{ \"type\": \"suite\", \"event\": \""@ + verdict + "\", \"passed\": "@;
    assert(json_run_finish_line(c, exec_time) =~= jp + json_run_counts(c, exec_time));
    lemma_starts_with_prefix(jp, json_run_counts(c, exec_time));
    let pword = if c.failed == 0 { "ok"@ } else { "FAILED"@ };
    let pp = "\ntest result: "@ + pword + ". "@;
    assert(pretty_run_finish_line(c, exec_time) =~= pp + pretty_run_counts(c, exec_time));
    lemma_starts_with_prefix(pp, pretty_run_counts(c, exec_time));
}

/// Appends the decimal digits of `n`.
fn push_decimal(out: &mut Vec<char>, n: u64)
    ensures
        final(out)@ == old(out)@ + decimal(n as nat),
{
    let d = decimal_exec(n);
    extend_chars(out, d.as_slice());
}

/// The JSON line that ends a run; `exec_time` is the run time as it is
/// written, in seconds, and holds no line break.
pub fn json_run_finish(c: RunCounts, exec_time: Option<&str>) -> (r: String)
    requires
        exec_time matches Some(t) ==> !t@.contains('\n'),
    ensures
        r@ == json_run_finish_line(
            c,
            match exec_time {
                Some(t) => Some(t@),
                None => None,
            },
        ),
{
    let mut out: Vec<char> = Vec::new();
    push_text(&mut out, "{ \"type\": \"suite\", \"event\": \"");
    push_text(&mut out, if c.failed == 0 { "ok" } else { "failed" });
    push_text(&mut out, "\", \"passed\": ");
    push_decimal(&mut out, c.passed);
    push_text(&mut out, ", \"failed\": ");
    push_decimal(&mut out, c.failed);
    push_text(&mut out, ", \"ignored\": ");
    push_decimal(&mut out, c.ignored);
    push_text(&mut out, ", \"measured\": ");
    push_decimal(&mut out, c.measured);
    push_text(&mut out, ", \"filtered_out\": ");
    push_decimal(&mut out, c.filtered_out);
    if let Some(t) = exec_time {
        push_text(&mut out, ", \"exec_time\": ");
        push_text(&mut out, t);
    }
    push_text(&mut out, " }\n");
    string_of(out.as_slice())
}

/// The line that starts a run of `test_count` tests in the plain report.
pub open spec fn pretty_run_start_line(test_count: nat, shuffle_seed: Option<u64>) -> Seq<char> {
    "\nrunning "@ + decimal(test_count) + " "@ + (if test_count != 1 {
        "tests"@
    } else {
        "test"@
    }) + optional_part(
        " (shuffle seed: "@,
        match shuffle_seed {
            Some(s) => Some(decimal(s as nat)),
            None => None,
        },
        ")"@,
    ) + "\n"@
}

/// The line that starts a run of `test_count` tests in the plain report.
pub fn pretty_run_start(test_count: u64, shuffle_seed: Option<u64>) -> (r: String)
    ensures
        r@ == pretty_run_start_line(test_count as nat, shuffle_seed),
{
    let mut out: Vec<char> = Vec::new();
    push_text(&mut out, "\nrunning ");
    push_decimal(&mut out, test_count);
    push_text(&mut out, " ");
    push_text(&mut out, if test_count != 1 { "tests" } else { "test" });
    if let Some(s) = shuffle_seed {
        push_text(&mut out, " (shuffle seed: ");
        push_decimal(&mut out, s);
        push_text(&mut out, ")");
    }
    push_text(&mut out, "\n");
    string_of(out.as_slice())
}

/// The word that the plain report gives a test's result.
pub open spec fn pretty_result_word(result: TestResult, ignore_message: Option<Seq<char>>) -> Seq<char> {
    match result {
        TestResult::TrOk => "ok"@,
        TestResult::TrFailed => "FAILED"@,
        TestResult::TrFailedMsg(_) => "FAILED"@,
        TestResult::TrIgnored => match ignore_message {
            Some(m) => "ignored, "@ + m,
            None => "ignored"@,
        },
        TestResult::TrTimedFail => "FAILED (time limit exceeded)"@,
    }
}

/// The word that the plain report gives a test's result.
pub fn pretty_result(result: &TestResult, ignore_message: Option<&str>) -> (r: String)
    ensures
        r@ == pretty_result_word(
            *result,
            match ignore_message {
                Some(m) => Some(m@),
                None => None,
            },
        ),
{
    let mut out: Vec<char> = Vec::new();
    match result {
        TestResult::TrOk => push_text(&mut out, "ok"),
        TestResult::TrFailed => push_text(&mut out, "FAILED"),
        TestResult::TrFailedMsg(_) => push_text(&mut out, "FAILED"),
        TestResult::TrIgnored => match ignore_message {
            Some(m) => {
                push_text(&mut out, "ignored, ");
                push_text(&mut out, m);
            },
            None => push_text(&mut out, "ignored"),
        },
        TestResult::TrTimedFail => push_text(&mut out, "FAILED (time limit exceeded)"),
    }
    string_of(out.as_slice())
}

/// The closing lines of a run in the plain report.
pub open spec fn pretty_run_finish_line(c: RunCounts, exec_time: Option<Seq<char>>) -> Seq<char> {
    "\ntest result: "@ + (if c.failed == 0 {
        "ok"@
    } else {
        "FAILED"@
    }) + ". "@ + decimal(c.passed as nat) + " passed; "@ + decimal(c.failed as nat) + " failed; "@
        + decimal(c.ignored as nat) + " ignored; "@ + decimal(c.measured as nat) + " measured; "@
        + decimal(c.filtered_out as nat) + " filtered out"@ + optional_part(
        "; finished in "@,
        exec_time,
        Seq::empty(),
    ) + "\n\n"@
}

/// The closing lines of a run in the plain report; `exec_time` is the run
/// time as it is written.
pub fn pretty_run_finish(c: RunCounts, exec_time: Option<&str>) -> (r: String)
    ensures
        r@ == pretty_run_finish_line(
            c,
            match exec_time {
                Some(t) => Some(t@),
                None => None,
            },
        ),
{
    let mut out: Vec<char> = Vec::new();
    push_text(&mut out, "\ntest result: ");
    push_text(&mut out, if c.failed == 0 { "ok" } else { "FAILED" });
    push_text(&mut out, ". ");
    push_decimal(&mut out, c.passed);
    push_text(&mut out, " passed; ");
    push_decimal(&mut out, c.failed);
    push_text(&mut out, " failed; ");
    push_decimal(&mut out, c.ignored);
    push_text(&mut out, " ignored; ");
    push_decimal(&mut out, c.measured);
    push_text(&mut out, " measured; ");
    push_decimal(&mut out, c.filtered_out);
    push_text(&mut out, " filtered out");
    if let Some(t) = exec_time {
        push_text(&mut out, "; finished in ");
        push_text(&mut out, t);
    }
    push_text(&mut out, "\n\n");
    string_of(out.as_slice())
}

/// The line of the log file for a test's result.
pub open spec fn log_result_line(
    name: Seq<char>,
    result: TestResult,
    ignore_message: Option<Seq<char>>,
    exec_time: Option<Seq<char>>,
) -> Seq<char> {
    (match result {
        TestResult::TrOk => "ok"@,
        TestResult::TrFailed => "failed"@,
        TestResult::TrFailedMsg(m) => "failed: "@ + m@,
        TestResult::TrIgnored => match ignore_message {
            Some(m) => "ignored: "@ + m,
            None => "ignored"@,
        },
        TestResult::TrTimedFail => "failed (time limit exceeded)"@,
    }) + " "@ + name + optional_part(" <"@, exec_time, ">"@) + "\n"@
}

/// The line of the log file for the result of the test `name`.
pub fn log_result(name: &str, result: &TestResult, ignore_message: Option<&str>, exec_time: Option<&str>) -> (r: String)
    ensures
        r@ == log_result_line(
            name@,
            *result,
            match ignore_message {
                Some(m) => Some(m@),
                None => None,
            },
            match exec_time {
                Some(t) => Some(t@),
                None => None,
            },
        ),
{
    let mut out: Vec<char> = Vec::new();
    match result {
        TestResult::TrOk => push_text(&mut out, "ok"),
        TestResult::TrFailed => push_text(&mut out, "failed"),
        TestResult::TrFailedMsg(m) => {
            push_text(&mut out, "failed: ");
            push_text(&mut out, m.as_str());
        },
        TestResult::TrIgnored => match ignore_message {
            Some(m) => {
                push_text(&mut out, "ignored: ");
                push_text(&mut out, m);
            },
            None => push_text(&mut out, "ignored"),
        },
        TestResult::TrTimedFail => push_text(&mut out, "failed (time limit exceeded)"),
    }
    push_text(&mut out, " ");
    push_text(&mut out, name);
    if let Some(t) = exec_time {
        push_text(&mut out, " <");
        push_text(&mut out, t);
        push_text(&mut out, ">");
    }
    push_text(&mut out, "\n");
    string_of(out.as_slice())
}

/// The names, then the outputs, of a group of finished tests in the plain
/// report: a heading, the output of each test that printed anything (in
/// the order given), the heading again and the names in order.
pub open spec fn pretty_results_text(
    names: Seq<Seq<char>>,
    stdouts: Seq<Seq<u8>>,
    results_type: Seq<char>,
    sorted_names: Seq<Seq<char>>,
) -> Seq<char> {
    let heading = "\n"@ + results_type + ":\n"@;
    let outputs = outputs_text(names, stdouts);
    heading + (if outputs.len() > 0 {
        "\n"@ + outputs
    } else {
        Seq::empty()
    }) + heading + listed_names(sorted_names)
}

/// The output of each test that printed anything, framed by its name.
pub open spec fn outputs_text(names: Seq<Seq<char>>, stdouts: Seq<Seq<u8>>) -> Seq<char>
    decreases names.len(),
{
    if names.len() == 0 || stdouts.len() != names.len() {
        Seq::empty()
    } else {
        outputs_text(names.drop_last(), stdouts.drop_last()) + if stdouts.last().len() > 0 {
            "---- "@ + names.last() + " stdout ----\n"@ + lossy_text(stdouts.last()) + "\n"@
        } else {
            Seq::empty()
        }
    }
}

/// Each name on a line of its own, indented.
pub open spec fn listed_names(ns: Seq<Seq<char>>) -> Seq<char>
    decreases ns.len(),
{
    if ns.len() == 0 {
        Seq::empty()
    } else {
        listed_names(ns.drop_last()) + "    "@ + ns.last() + "\n"@
    }
}

/// The names and outputs of a group of finished tests, such as the
/// failures, in the plain report.
pub fn pretty_results(inputs: &Vec<(String, Vec<u8>)>, results_type: &str) -> (r: String)
    ensures
        exists|sorted: Seq<Seq<char>>|
            {
                &&& sorted.to_multiset() == inputs@.map_values(|i: (String, Vec<u8>)| i.0@).to_multiset()
                &&& crate::cargo::in_order(sorted)
                &&& r@ == pretty_results_text(
                    inputs@.map_values(|i: (String, Vec<u8>)| i.0@),
                    inputs@.map_values(|i: (String, Vec<u8>)| i.1@),
                    results_type@,
                    sorted,
                )
            },
{
    let ghost names = inputs@.map_values(|i: (String, Vec<u8>)| i.0@);
    let ghost stdouts = inputs@.map_values(|i: (String, Vec<u8>)| i.1@);
    let mut results: Vec<String> = Vec::new();
    let mut outputs: Vec<char> = Vec::new();
    let mut i: usize = 0;
    while i < inputs.len()
        invariant
            i <= inputs@.len(),
            names == inputs@.map_values(|i: (String, Vec<u8>)| i.0@),
            stdouts == inputs@.map_values(|i: (String, Vec<u8>)| i.1@),
            names_of(results@) == names.take(i as int),
            outputs@ == outputs_text(names.take(i as int), stdouts.take(i as int)),
        decreases inputs@.len() - i,
    {
        let (name, stdout) = (&inputs[i].0, &inputs[i].1);
        let ghost before = results@;
        results.push(name.clone());
        proof {
            crate::text::lemma_names_push(before, results@.last());
            assert(names.take(i + 1) =~= names.take(i as int).push(names[i as int]));
            assert(names.take(i + 1).drop_last() =~= names.take(i as int));
            assert(stdouts.take(i + 1).drop_last() =~= stdouts.take(i as int));
            assert(stdouts.take(i + 1).last() == stdout@);
            assert(names.take(i + 1).last() == name@);
        }
        if stdout.len() > 0 {
            push_text(&mut outputs, "---- ");
            push_text(&mut outputs, name.as_str());
            push_text(&mut outputs, " stdout ----\n");
            let text = text_of_lossy(stdout.as_slice());
            push_text(&mut outputs, text.as_str());
            push_text(&mut outputs, "\n");
        }
        i = i + 1;
    }
    assert(names.take(inputs@.len() as int) =~= names);
    assert(stdouts.take(inputs@.len() as int) =~= stdouts);
    let mut out: Vec<char> = Vec::new();
    push_text(&mut out, "\n");
    push_text(&mut out, results_type);
    push_text(&mut out, ":\n");
    let heading = out.clone();
    if outputs.len() > 0 {
        push_text(&mut out, "\n");
        extend_chars(&mut out, outputs.as_slice());
    }
    extend_chars(&mut out, heading.as_slice());
    let ordered = crate::cargo::sorted(&results);
    let ghost sorted_names = names_of(ordered@);
    let mut k: usize = 0;
    let ghost start = out@;
    while k < ordered.len()
        invariant
            k <= ordered@.len(),
            sorted_names == names_of(ordered@),
            out@ == start + listed_names(sorted_names.take(k as int)),
        decreases ordered@.len() - k,
    {
        push_text(&mut out, "    ");
        push_text(&mut out, ordered[k].as_str());
        push_text(&mut out, "\n");
        proof {
            assert(sorted_names.take(k + 1).drop_last() =~= sorted_names.take(k as int));
            assert(sorted_names.take(k + 1).last() == ordered@[k as int]@);
        }
        k = k + 1;
    }
    assert(sorted_names.take(ordered@.len() as int) =~= sorted_names);
    string_of(out.as_slice())
}

} // verus!
