//! Test selection: which tests of a test unit are run, at crate level, from
//! the reachability of changed nodes in the dependency graph (static), or
//! from the traces of the previous run (dynamic).

use vstd::prelude::*;
use crate::text::{names_of, contains_name, share_name, chars_of, literal, string_of, split_once_exec};

verus! {

/// The tests to run for one test unit.
#[derive(Debug, Clone, PartialEq, Eq)]
pub enum SelectionUnit {
    RetestAll,
    CrateLevel { execute_tests: bool },
    Precise(Vec<String>),
}

/// The subcommands of the `cargo rustyrts` tool.
#[derive(Debug, Clone, Copy, PartialEq, Eq, Structural)]
pub enum CommandKind {
    Basic,
    Static,
    Dynamic,
    Clean,
}

/// The subcommand named `cmd`, if any.
pub open spec fn command_named(cmd: Seq<char>) -> Option<CommandKind> {
    if cmd == "basic"@ {
        Some(CommandKind::Basic)
    } else if cmd == "static"@ {
        Some(CommandKind::Static)
    } else if cmd == "dynamic"@ {
        Some(CommandKind::Dynamic)
    } else if cmd == "clean"@ {
        Some(CommandKind::Clean)
    } else {
        None
    }
}

/// The subcommand to execute for `cmd`: `basic`, `static`, `dynamic` or `clean`.
pub fn command_exec(cmd: &str) -> (r: Option<CommandKind>)
    ensures
        r == command_named(cmd@),
{
    let c = chars_of(cmd);
    let basic = literal("basic");
    let st = literal("static");
    let dy = literal("dynamic");
    let clean = literal("clean");
    if crate::text::same_chars(c.as_slice(), basic.as_slice()) {
        Some(CommandKind::Basic)
    } else if crate::text::same_chars(c.as_slice(), st.as_slice()) {
        Some(CommandKind::Static)
    } else if crate::text::same_chars(c.as_slice(), dy.as_slice()) {
        Some(CommandKind::Dynamic)
    } else if crate::text::same_chars(c.as_slice(), clean.as_slice()) {
        Some(CommandKind::Clean)
    } else {
        None
    }
}

/// An ASCII letter or digit.
pub open spec fn ascii_alphanumeric(c: char) -> bool {
    ('0' <= c && c <= '9') || ('a' <= c && c <= 'z') || ('A' <= c && c <= 'Z')
}

/// `s` with every character that is no ASCII letter or digit made `_`.
pub open spec fn underscored(s: Seq<char>) -> Seq<char> {
    s.map_values(|c: char| if ascii_alphanumeric(c) { c } else { '_' })
}

/// The name of a doctest up to ` - `, and the name of its entry function.
pub fn convert_doctest_name(test_name: &str) -> (r: (String, String))
    requires
        crate::text::split_once(test_name@, " - "@) is Some,
    ensures
        r.0@ == crate::text::split_once(test_name@, " - "@).unwrap().0,
        r.1@ == underscored(r.0@),
{
    let name = chars_of(test_name);
    let sep = literal(" - ");
    let (trimmed, _) = match split_once_exec(name.as_slice(), sep.as_slice()) {
        Some(parts) => parts,
        None => (Vec::new(), Vec::new()),
    };
    let mut fn_name: Vec<char> = Vec::new();
    let mut i: usize = 0;
    while i < trimmed.len()
        invariant
            i <= trimmed@.len(),
            fn_name@ == underscored(trimmed@.take(i as int)),
        decreases trimmed@.len() - i,
    {
        let c = trimmed[i];
        let keep = ('0' <= c && c <= '9') || ('a' <= c && c <= 'z') || ('A' <= c && c <= 'Z');
        if keep {
            fn_name.push(c);
        } else {
            fn_name.push('_');
        }
        assert(underscored(trimmed@.take(i + 1)) =~= underscored(trimmed@.take(i as int)).push(
            if ascii_alphanumeric(c) { c } else { '_' },
        ));
        i = i + 1;
    }
    assert(trimmed@.take(trimmed@.len() as int) =~= trimmed@);
    (string_of(trimmed.as_slice()), string_of(fn_name.as_slice()))
}

/// Crate-level selection: the tests of a unit run when its target was
/// compiled anew.
pub fn select_basic(compiled_targets: &Vec<String>, target: &String) -> (r: SelectionUnit)
    ensures
        r == (SelectionUnit::CrateLevel {
            execute_tests: names_of(compiled_targets@).contains(target@),
        }),
{
    SelectionUnit::CrateLevel { execute_tests: contains_name(compiled_targets, target) }
}

/// The names of `tests` that `reached` holds, in the order of `tests`.
pub open spec fn reached_tests(tests: Seq<Seq<char>>, reached: Seq<Seq<char>>) -> Seq<Seq<char>> {
    tests.filter(|t: Seq<char>| reached.contains(t))
}

/// Static selection: the tests found in the unit that are reached from a
/// changed node, or all tests when everything is to be retested.
pub fn select_static(retest_all: bool, reached: &Vec<String>, tests_found: &Vec<String>) -> (r: SelectionUnit)
    ensures
        retest_all ==> r == SelectionUnit::RetestAll,
        !retest_all ==> (r matches SelectionUnit::Precise(v) && names_of(v@) == reached_tests(
            names_of(tests_found@),
            names_of(reached@),
        )),
{
    if retest_all {
        return SelectionUnit::RetestAll;
    }
    let ghost ts = names_of(tests_found@);
    let ghost rs = names_of(reached@);
    let mut affected: Vec<String> = Vec::new();
    let mut i: usize = 0;
    while i < tests_found.len()
        invariant
            i <= tests_found@.len(),
            ts == names_of(tests_found@),
            rs == names_of(reached@),
            names_of(affected@) == ts.take(i as int).filter(|t: Seq<char>| rs.contains(t)),
        decreases tests_found@.len() - i,
    {
        let hit = contains_name(reached, &tests_found[i]);
        proof {
            reveal(Seq::filter);
            assert(ts.take(i + 1).drop_last() =~= ts.take(i as int));
            assert(ts.take(i + 1).last() == tests_found@[i as int]@);
        }
        if hit {
            affected.push(tests_found[i].clone());
            assert(names_of(affected@) =~= ts.take(i as int).filter(|t: Seq<char>| rs.contains(t)).push(
                tests_found@[i as int]@,
            ));
        }
        i = i + 1;
    }
    assert(ts.take(tests_found@.len() as int) =~= ts);
    SelectionUnit::Precise(affected)
}

/// Static selection of a doctest: its name up to ` - ` when the node of its
/// entry function is reached from a changed node.
pub fn select_static_doctest(test: &str, reached: &Vec<String>) -> (r: Option<String>)
    requires
        crate::text::split_once(test@, " - "@) is Some,
    ensures
        ({
            let trimmed = crate::text::split_once(test@, " - "@).unwrap().0;
            match r {
                Some(t) => t@ == trimmed && names_of(reached@).contains(underscored(trimmed)),
                None => !names_of(reached@).contains(underscored(trimmed)),
            }
        }),
{
    let (trimmed, path) = convert_doctest_name(test);
    if contains_name(reached, &path) {
        Some(trimmed)
    } else {
        None
    }
}

/// A test with the nodes traced when it last ran, if a trace was found.
pub struct TracedTest {
    pub name: String,
    pub traces: Option<Vec<String>>,
}

/// The test ran through a changed node.
pub open spec fn trace_hits(traces: Option<Vec<String>>, changed: Seq<Seq<char>>) -> bool {
    match traces {
        Some(t) => exists|x: Seq<char>| names_of(t@).contains(x) && changed.contains(x),
        None => false,
    }
}

/// The names of the tests without a trace, in order.
pub open spec fn untraced_names(tests: Seq<TracedTest>) -> Seq<Seq<char>>
    decreases tests.len(),
{
    if tests.len() == 0 {
        Seq::empty()
    } else {
        let rest = untraced_names(tests.drop_last());
        if tests.last().traces is None {
            rest.push(tests.last().name@)
        } else {
            rest
        }
    }
}

/// The names of the traced tests that ran through a changed node, in order.
pub open spec fn hit_names(tests: Seq<TracedTest>, changed: Seq<Seq<char>>) -> Seq<Seq<char>>
    decreases tests.len(),
{
    if tests.len() == 0 {
        Seq::empty()
    } else {
        let rest = hit_names(tests.drop_last(), changed);
        if trace_hits(tests.last().traces, changed) {
            rest.push(tests.last().name@)
        } else {
            rest
        }
    }
}

/// Dynamic selection: the tests without a trace, then the traced tests
/// that ran through a changed node; or all tests when everything is to be
/// retested.
pub fn select_dynamic(retest_all: bool, changed: &Vec<String>, tests: &Vec<TracedTest>) -> (r: SelectionUnit)
    ensures
        retest_all ==> r == SelectionUnit::RetestAll,
        !retest_all ==> (r matches SelectionUnit::Precise(v) && names_of(v@) == untraced_names(tests@)
            + hit_names(tests@, names_of(changed@))),
{
    if retest_all {
        return SelectionUnit::RetestAll;
    }
    let ghost cs = names_of(changed@);
    let mut untraced: Vec<String> = Vec::new();
    let mut hits: Vec<String> = Vec::new();
    let mut i: usize = 0;
    while i < tests.len()
        invariant
            i <= tests@.len(),
            cs == names_of(changed@),
            names_of(untraced@) == untraced_names(tests@.take(i as int)),
            names_of(hits@) == hit_names(tests@.take(i as int), cs),
        decreases tests@.len() - i,
    {
        let t = &tests[i];
        proof {
            assert(tests@.take(i + 1).drop_last() =~= tests@.take(i as int));
            assert(tests@.take(i + 1).last() == tests@[i as int]);
        }
        match &t.traces {
            None => {
                untraced.push(t.name.clone());
                assert(names_of(untraced@) =~= untraced_names(tests@.take(i as int)).push(t.name@));
                assert(!trace_hits(t.traces, cs));
            },
            Some(traces) => {
                if share_name(traces, changed) {
                    hits.push(t.name.clone());
                    assert(names_of(hits@) =~= hit_names(tests@.take(i as int), cs).push(t.name@));
                }
            },
        }
        i = i + 1;
    }
    assert(tests@.take(tests@.len() as int) =~= tests@);
    let mut all = untraced;
    let mut h = hits;
    all.append(&mut h);
    assert(names_of(all@) =~= untraced_names(tests@) + hit_names(tests@, cs));
    SelectionUnit::Precise(all)
}

/// A doctest: its name up to ` - `, its entry function's name, and the
/// nodes traced when it last ran, if a trace was found.
pub struct TracedDoctest {
    pub trimmed: String,
    pub fn_name: String,
    pub traces: Option<Vec<String>>,
}

/// The doctest is affected: it ran through a changed node, or, without a
/// trace, its entry function changed.
pub open spec fn doctest_affected(t: TracedDoctest, changed: Seq<Seq<char>>) -> bool {
    match t.traces {
        Some(_) => trace_hits(t.traces, changed),
        None => changed.contains(crate::callbacks_shared::doctest_prefix() + t.fn_name@),
    }
}

/// The names of the affected traced doctests, then of the affected ones
/// without a trace, each in order.
pub open spec fn affected_doctests(tests: Seq<TracedDoctest>, changed: Seq<Seq<char>>) -> Seq<Seq<char>> {
    tests.filter(|t: TracedDoctest| t.traces is Some && doctest_affected(t, changed)).map_values(
        |t: TracedDoctest| t.trimmed@,
    ) + tests.filter(|t: TracedDoctest| t.traces is None && doctest_affected(t, changed)).map_values(
        |t: TracedDoctest| t.trimmed@,
    )
}

/// Dynamic selection of doctests.
pub fn select_dynamic_doctests(retest_all: bool, changed: &Vec<String>, tests: &Vec<TracedDoctest>) -> (r: SelectionUnit)
    ensures
        retest_all ==> r == SelectionUnit::RetestAll,
        !retest_all ==> (r matches SelectionUnit::Precise(v) && names_of(v@) == affected_doctests(
            tests@,
            names_of(changed@),
        )),
{
    if retest_all {
        return SelectionUnit::RetestAll;
    }
    let ghost cs = names_of(changed@);
    let ghost traced = |t: TracedDoctest| t.traces is Some && doctest_affected(t, cs);
    let ghost untraced = |t: TracedDoctest| t.traces is None && doctest_affected(t, cs);
    let ghost trimmed_of = |t: TracedDoctest| t.trimmed@;
    let prefix = crate::callbacks_shared::doctest_prefix_text();
    let mut with_trace: Vec<String> = Vec::new();
    let mut without: Vec<String> = Vec::new();
    let mut i: usize = 0;
    while i < tests.len()
        invariant
            i <= tests@.len(),
            cs == names_of(changed@),
            prefix@ == crate::callbacks_shared::doctest_prefix(),
            traced == (|t: TracedDoctest| t.traces is Some && doctest_affected(t, cs)),
            untraced == (|t: TracedDoctest| t.traces is None && doctest_affected(t, cs)),
            trimmed_of == (|t: TracedDoctest| t.trimmed@),
            names_of(with_trace@) == tests@.take(i as int).filter(traced).map_values(trimmed_of),
            names_of(without@) == tests@.take(i as int).filter(untraced).map_values(trimmed_of),
        decreases tests@.len() - i,
    {
        let t = &tests[i];
        proof {
            reveal(Seq::filter);
            assert(tests@.take(i + 1).drop_last() =~= tests@.take(i as int));
            assert(tests@.take(i + 1).last() == tests@[i as int]);
        }
        match &t.traces {
            Some(traces) => {
                assert(!untraced(*t));
                if share_name(traces, changed) {
                    with_trace.push(t.trimmed.clone());
                    assert(traced(*t));
                    assert(names_of(with_trace@) =~= tests@.take(i as int).filter(traced).map_values(trimmed_of).push(t.trimmed@));
                    assert(tests@.take(i + 1).filter(traced) == tests@.take(i as int).filter(traced).push(*t));
                    assert(tests@.take(i + 1).filter(traced).map_values(trimmed_of) =~= tests@.take(i as int).filter(traced).map_values(trimmed_of).push(t.trimmed@));
                } else {
                    assert(!traced(*t));
                }
            },
            None => {
                assert(!traced(*t));
                let mut entry = prefix.clone();
                let f = chars_of(t.fn_name.as_str());
                crate::text::extend_chars(&mut entry, f.as_slice());
                let entry_name = string_of(entry.as_slice());
                if contains_name(changed, &entry_name) {
                    without.push(t.trimmed.clone());
                    assert(untraced(*t));
                    assert(tests@.take(i + 1).filter(untraced) == tests@.take(i as int).filter(untraced).push(*t));
                    assert(tests@.take(i + 1).filter(untraced).map_values(trimmed_of) =~= tests@.take(i as int).filter(untraced).map_values(trimmed_of).push(t.trimmed@));
                } else {
                    assert(!untraced(*t));
                }
            },
        }
        i = i + 1;
    }
    assert(tests@.take(tests@.len() as int) =~= tests@);
    let mut all = with_trace;
    let mut w = without;
    all.append(&mut w);
    assert(names_of(all@) =~= affected_doctests(tests@, cs));
    SelectionUnit::Precise(all)
}

/// The names of the tests in a listing: each line that ends with `: test`,
/// without that ending.
pub open spec fn listed_tests(ls: Seq<Seq<char>>) -> Seq<Seq<char>>
    decreases ls.len(),
{
    if ls.len() == 0 {
        Seq::empty()
    } else {
        let r = listed_tests(ls.drop_last());
        match crate::text::strip_suffix(ls.last(), ": test"@) {
            Some(n) => r.push(n),
            None => r,
        }
    }
}

/// The names of the tests in the listing that the test binary prints.
pub fn parse_tests(input: &str) -> (r: Vec<String>)
    ensures
        names_of(r@) == listed_tests(crate::text::str_lines(input@)),
{
    let ic = chars_of(input);
    let lines = crate::text::lines_exec(ic.as_slice());
    let ghost sl = crate::text::str_lines(input@);
    let suffix = literal(": test");
    let mut r: Vec<String> = Vec::new();
    let mut i: usize = 0;
    while i < lines.len()
        invariant
            i <= lines@.len() == sl.len(),
            lines@.map_values(|v: Vec<char>| v@) == sl,
            suffix@ == ": test"@,
            names_of(r@) == listed_tests(sl.take(i as int)),
        decreases lines@.len() - i,
    {
        assert(lines@.map_values(|v: Vec<char>| v@)[i as int] == lines@[i as int]@);
        assert(sl.take(i + 1).drop_last() =~= sl.take(i as int));
        assert(sl.take(i + 1).last() == sl[i as int]);
        match crate::text::strip_suffix_exec(lines[i].as_slice(), suffix.as_slice()) {
            Some(name) => {
                let ghost before = r@;
                let n = string_of(name.as_slice());
                r.push(n);
                proof { crate::text::lemma_names_push(before, n); }
            },
            None => {},
        }
        i = i + 1;
    }
    assert(sl.take(lines@.len() as int) =~= sl);
    r
}


/// The arguments of the test binary, refused where they conflict with test
/// selection: that is where they hold `--exact`.
pub fn check_test_args(test_args: &Vec<String>) -> (r: Result<(), String>)
    ensures
        (r is Err) <==> names_of(test_args@).contains("--exact"@),
        r matches Err(m) ==> m@ == "Regression Test Selection is incompatible to using --exact"@,
{
    let exact = string_of(literal("--exact").as_slice());
    if contains_name(test_args, &exact) {
        Err(string_of(literal("Regression Test Selection is incompatible to using --exact").as_slice()))
    } else {
        Ok(())
    }
}

} // verus!
