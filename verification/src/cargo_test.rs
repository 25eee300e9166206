//! The messages about failed test targets: the arguments that rerun a target,
//! and the report over all failed targets.

use vstd::prelude::*;
use crate::text::{chars_of, extend_chars, joined_with, string_of};
use crate::test_runner::{decimal, decimal_exec};

verus! {

/// The kind of a test run: unit tests, benchmarks or doctests.
#[derive(Debug, Clone, Copy, PartialEq, Eq, Structural)]
pub enum TestKind {
    Test,
    Bench,
    Doctest,
}

/// The kind of a compilation target.
#[derive(Debug, Clone, Copy, PartialEq, Eq, Structural)]
pub enum TargetKind {
    Lib,
    Bin,
    Test,
    Bench,
    ExampleLib,
    ExampleBin,
    CustomBuild,
}

/// A failed run can be named by its target: every run but the tests of a
/// build script.
pub open spec fn has_cli_args(kind: TestKind, target: TargetKind) -> bool {
    kind == TestKind::Doctest || target != TargetKind::CustomBuild
}

/// The option that selects a target of the given kind, with its name.
pub open spec fn target_selector(target: TargetKind, name: Seq<char>) -> Seq<char> {
    match target {
        TargetKind::Lib => "--lib"@,
        TargetKind::Bin => "--bin "@ + name,
        TargetKind::Test => "--test "@ + name,
        TargetKind::Bench => "--bench "@ + name,
        TargetKind::ExampleLib | TargetKind::ExampleBin => "--example "@ + name,
        TargetKind::CustomBuild => Seq::empty(),
    }
}

/// The arguments that run one failed target again: `-p` and the package where
/// the workspace needs it, then `--doc` for doctests, else the target's
/// selector.
pub open spec fn cli_args_of(
    needs_spec_flag: bool,
    package: Seq<char>,
    kind: TestKind,
    target: TargetKind,
    target_name: Seq<char>,
) -> Seq<char> {
    (if needs_spec_flag { "-p "@ + package + " "@ } else { Seq::empty() }) + match kind {
        TestKind::Doctest => "--doc"@,
        _ => target_selector(target, target_name),
    }
}

/// Appends the characters of a string slice.
fn push_text(dst: &mut Vec<char>, s: &str)
    ensures
        final(dst)@ == old(dst)@ + s@,
{
    let v = chars_of(s);
    extend_chars(dst, v.as_slice());
}

/// The arguments that run one failed target again.
pub fn cli_args(
    needs_spec_flag: bool,
    package: &str,
    kind: TestKind,
    target: TargetKind,
    target_name: &str,
) -> (r: String)
    requires
        has_cli_args(kind, target),
    ensures
        r@ == cli_args_of(needs_spec_flag, package@, kind, target, target_name@),
{
    let mut v: Vec<char> = Vec::new();
    if needs_spec_flag {
        push_text(&mut v, "-p ");
        push_text(&mut v, package);
        push_text(&mut v, " ");
    }
    let ghost head = v@;
    match kind {
        TestKind::Doctest => push_text(&mut v, "--doc"),
        _ => match target {
            TargetKind::Lib => push_text(&mut v, "--lib"),
            TargetKind::Bin => {
                push_text(&mut v, "--bin ");
                push_text(&mut v, target_name);
            },
            TargetKind::Test => {
                push_text(&mut v, "--test ");
                push_text(&mut v, target_name);
            },
            TargetKind::Bench => {
                push_text(&mut v, "--bench ");
                push_text(&mut v, target_name);
            },
            _ => {
                push_text(&mut v, "--example ");
                push_text(&mut v, target_name);
            },
        },
    }
    assert(v@ =~= cli_args_of(needs_spec_flag, package@, kind, target, target_name@));
    string_of(v.as_slice())
}

/// The words that open the report of one failed run.
pub open spec fn failure_word(kind: TestKind) -> Seq<char> {
    match kind {
        TestKind::Test => "test failed"@,
        TestKind::Bench => "bench failed"@,
        TestKind::Doctest => "doctest failed"@,
    }
}

/// The report of one failed run, with the arguments that run it again.
pub open spec fn rerun_message_of(kind: TestKind, args: Seq<char>) -> Seq<char> {
    failure_word(kind) + ", to rerun pass `"@ + args + "`"@
}

/// The report of one failed run, with the arguments that run it again.
pub fn rerun_message(kind: TestKind, args: &str) -> (r: String)
    ensures
        r@ == rerun_message_of(kind, args@),
{
    let mut v: Vec<char> = Vec::new();
    match kind {
        TestKind::Test => push_text(&mut v, "test failed"),
        TestKind::Bench => push_text(&mut v, "bench failed"),
        TestKind::Doctest => push_text(&mut v, "doctest failed"),
    }
    push_text(&mut v, ", to rerun pass `");
    push_text(&mut v, args);
    push_text(&mut v, "`");
    assert(v@ =~= rerun_message_of(kind, args@));
    string_of(v.as_slice())
}

/// One line of the summary: the arguments, indented and quoted.
pub open spec fn failed_line(args: Seq<char>) -> Seq<char> {
    "    `"@ + args + "`"@
}

/// The summary over the failed targets: none where no target failed, else
/// their number and one line for each, in order.
pub open spec fn failures_summary_of(args: Seq<Seq<char>>) -> Option<Seq<char>> {
    if args.len() == 0 {
        None
    } else {
        Some(
            (if args.len() == 1 { "1 target failed:\n"@ } else { decimal(args.len()) + " targets failed:\n"@ })
                + joined_with(args.map_values(|a: Seq<char>| failed_line(a)), seq!['\n']),
        )
    }
}

/// The views of a vector of strings.
pub open spec fn views(v: Seq<String>) -> Seq<Seq<char>> {
    v.map_values(|s: String| s@)
}

/// The summary over the failed targets, given the arguments that rerun each.
pub fn failures_summary(args: &Vec<String>) -> (r: Option<String>)
    ensures
        match r {
            Some(s) => failures_summary_of(views(args@)) == Some(s@),
            None => failures_summary_of(views(args@)) is None,
        },
{
    if args.len() == 0 {
        return None;
    }
    let ghost lines = views(args@).map_values(|a: Seq<char>| failed_line(a));
    let mut v: Vec<char> = Vec::new();
    if args.len() == 1 {
        push_text(&mut v, "1 target failed:\n");
    } else {
        let n = decimal_exec(args.len() as u64);
        extend_chars(&mut v, n.as_slice());
        push_text(&mut v, " targets failed:\n");
    }
    let ghost head = v@;
    let mut i: usize = 0;
    while i < args.len()
        invariant
            i <= args@.len(),
            lines == views(args@).map_values(|a: Seq<char>| failed_line(a)),
            v@ == head + joined_with(lines.take(i as int), seq!['\n']),
        decreases args@.len() - i,
    {
        let ghost before = v@;
        if i > 0 {
            v.push('\n');
        }
        push_text(&mut v, "    `");
        push_text(&mut v, args[i].as_str());
        push_text(&mut v, "`");
        assert(lines[i as int] == failed_line(args@[i as int]@));
        assert(lines.take(i + 1).drop_last() =~= lines.take(i as int));
        if i == 0 {
            assert(v@ =~= head + joined_with(lines.take(1), seq!['\n']));
        } else {
            assert(v@ =~= head + (joined_with(lines.take(i as int), seq!['\n']) + seq!['\n'] + lines[i as int]));
        }
        i = i + 1;
    }
    assert(lines.take(args@.len() as int) =~= lines);
    Some(string_of(v.as_slice()))
}

} // verus!
