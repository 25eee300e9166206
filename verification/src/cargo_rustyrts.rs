//! The decisions of the `cargo rustyrts` driver: how its arguments are
//! split, which commands it builds, and which tests it selects.

use vstd::prelude::*;
use crate::text::{names_of, chars_of, literal, string_of, same_chars, split_once, contains_name, contains, starts_with, trim_start, concat_lines, extend_chars, trim_start_exec, starts_with_exec, contains_exec};
use crate::graph::{DependencyGraph, reachable};

verus! {

/// The separator between groups of arguments.
pub open spec fn sep() -> Seq<char> {
    "--"@
}

/// Where the first separator is, or the length when there is none.
pub open spec fn first_sep(s: Seq<Seq<char>>) -> int
    decreases s.len(),
{
    if s.len() == 0 {
        0
    } else if s[0] == sep() {
        0
    } else {
        1 + first_sep(s.drop_first())
    }
}

/// The arguments before the first separator.
pub open spec fn until_sep(s: Seq<Seq<char>>) -> Seq<Seq<char>> {
    s.take(first_sep(s))
}

/// The arguments after the first separator; none when there is none.
pub open spec fn after_sep(s: Seq<Seq<char>>) -> Seq<Seq<char>> {
    if first_sep(s) < s.len() {
        s.skip(first_sep(s) + 1)
    } else {
        Seq::empty()
    }
}

proof fn lemma_first_sep(s: Seq<Seq<char>>)
    ensures
        0 <= first_sep(s) <= s.len(),
        forall|i: int| 0 <= i < first_sep(s) ==> s[i] != sep(),
        first_sep(s) < s.len() ==> s[first_sep(s)] == sep(),
    decreases s.len(),
{
    if s.len() > 0 && s[0] != sep() {
        lemma_first_sep(s.drop_first());
        assert forall|i: int| 0 <= i < first_sep(s) implies s[i] != sep() by {
            if i > 0 {
                assert(s.drop_first()[i - 1] == s[i]);
            }
        }
        if first_sep(s) < s.len() {
            assert(s.drop_first()[first_sep(s) - 1] == s[first_sep(s)]);
        }
    }
}

/// Whether the argument is the separator.
fn is_sep(a: &String) -> (b: bool)
    ensures
        b == (a@ == sep()),
{
    let c = chars_of(a.as_str());
    let dd = literal("--");
    same_chars(c.as_slice(), dd.as_slice())
}

/// Where the first separator at or after `from` is, in exec terms.
fn find_sep(args: &Vec<String>, from: usize) -> (r: usize)
    requires
        from <= args@.len(),
    ensures
        from <= r <= args@.len(),
        r == from + first_sep(names_of(args@).skip(from as int)),
{
    let mut i = from;
    while i < args.len() && !is_sep(&args[i])
        invariant
            from <= i <= args@.len(),
            forall|j: int| from <= j < i ==> names_of(args@)[j] != sep(),
        decreases args@.len() - i,
    {
        i = i + 1;
    }
    proof {
        let t = names_of(args@).skip(from as int);
        lemma_first_sep(t);
        lemma_first_sep_at(t, i - from);
    }
    i
}

/// The first separator is at `k` when none comes before and one is there
/// (or `k` is the end).
proof fn lemma_first_sep_at(s: Seq<Seq<char>>, k: int)
    requires
        0 <= k <= s.len(),
        forall|i: int| 0 <= i < k ==> s[i] != sep(),
        k < s.len() ==> s[k] == sep(),
    ensures
        first_sep(s) == k,
    decreases s.len(),
{
    if s.len() > 0 && k > 0 {
        assert forall|i: int| 0 <= i < k - 1 implies s.drop_first()[i] != sep() by {
            assert(s.drop_first()[i] == s[i + 1]);
        }
        if k - 1 < s.drop_first().len() {
            assert(s.drop_first()[k - 1] == s[k]);
        }
        lemma_first_sep_at(s.drop_first(), k - 1);
    }
}

/// The strings `args[from..to]`.
fn slice_args(args: &Vec<String>, from: usize, to: usize) -> (r: Vec<String>)
    requires
        from <= to <= args@.len(),
    ensures
        names_of(r@) == names_of(args@).subrange(from as int, to as int),
{
    let mut r: Vec<String> = Vec::new();
    let mut i = from;
    while i < to
        invariant
            from <= i <= to <= args@.len(),
            names_of(r@) == names_of(args@).subrange(from as int, i as int),
        decreases to - i,
    {
        let ghost before = r@;
        let a = args[i].clone();
        r.push(a);
        proof { crate::text::lemma_names_push(before, a); }
        assert(names_of(r@) =~= names_of(args@).subrange(from as int, i + 1));
        i = i + 1;
    }
    r
}

/// Whether the flag `name` is given before the first separator.
pub fn has_arg_flag(args: &Vec<String>, name: &str) -> (b: bool)
    ensures
        b == until_sep(names_of(args@)).contains(name@),
{
    let end = find_sep(args, 0);
    assert(names_of(args@).skip(0) =~= names_of(args@));
    let before = slice_args(args, 0, end);
    let n = string_of(chars_of(name).as_slice());
    let r = contains_name(&before, &n);
    assert(names_of(before@) =~= until_sep(names_of(args@)));
    r
}

/// Where the group after `k` separators starts, in exec terms.
fn group_start(args: &Vec<String>, k: usize) -> (r: usize)
    requires
        k <= 3,
    ensures
        r <= args@.len(),
        names_of(args@).skip(r as int) == after_seps(names_of(args@), k as nat),
{
    let mut start: usize = 0;
    let mut n: usize = 0;
    assert(names_of(args@).skip(0) =~= names_of(args@));
    while n < k
        invariant
            n <= k,
            start <= args@.len(),
            names_of(args@).skip(start as int) == after_seps(names_of(args@), n as nat),
        decreases k - n,
    {
        let e = find_sep(args, start);
        let ghost t = names_of(args@).skip(start as int);
        proof { lemma_first_sep(t); }
        if e < args.len() {
            start = e + 1;
            assert(names_of(args@).skip(start as int) =~= t.skip(first_sep(t) + 1));
        } else {
            start = args.len();
            assert(names_of(args@).skip(start as int) =~= Seq::<Seq<char>>::empty());
        }
        assert(after_seps(names_of(args@), (n + 1) as nat) == after_sep(after_seps(names_of(args@), n as nat)));
        n = n + 1;
    }
    start
}

/// The arguments after `k` separators.
pub open spec fn after_seps(s: Seq<Seq<char>>, k: nat) -> Seq<Seq<char>>
    decreases k,
{
    if k == 0 {
        s
    } else {
        after_sep(after_seps(s, (k - 1) as nat))
    }
}

/// The arguments for building: between the first and the second separator.
pub open spec fn build_args_of(args: Seq<Seq<char>>) -> Seq<Seq<char>> {
    until_sep(after_seps(args, 1))
}

/// The arguments for `rustc`: between the second and the third separator.
pub open spec fn rustc_args_of(args: Seq<Seq<char>>) -> Seq<Seq<char>> {
    until_sep(after_seps(args, 2))
}

/// `s` with each of `ws` added, in order, unless it is already there.
pub open spec fn add_missing(s: Seq<Seq<char>>, ws: Seq<Seq<char>>) -> Seq<Seq<char>>
    decreases ws.len(),
{
    if ws.len() == 0 {
        s
    } else {
        let t = add_missing(s, ws.drop_last());
        if t.contains(ws.last()) {
            t
        } else {
            t.push(ws.last())
        }
    }
}

/// The arguments that ask for JSON output of the tests.
pub open spec fn json_args() -> Seq<Seq<char>> {
    seq!["--"@, "-Zunstable-options"@, "--format=json"@, "--report-time"@]
}

/// The arguments for the test binary: after the third separator, and with
/// `--json` before the first separator, those asking for JSON output.
pub open spec fn test_args_of(args: Seq<Seq<char>>) -> Seq<Seq<char>> {
    if until_sep(args).contains("--json"@) {
        add_missing(after_seps(args, 3), json_args())
    } else {
        after_seps(args, 3)
    }
}

/// The group of arguments after `k` separators, up to the next one.
fn group(args: &Vec<String>, k: usize) -> (r: Vec<String>)
    requires
        k <= 3,
    ensures
        names_of(r@) == until_sep(after_seps(names_of(args@), k as nat)),
{
    let start = group_start(args, k);
    let end = find_sep(args, start);
    let r = slice_args(args, start, end);
    assert(names_of(r@) =~= until_sep(after_seps(names_of(args@), k as nat)));
    r
}

/// The arguments for building.
pub fn get_args_build(args: &Vec<String>) -> (r: Vec<String>)
    ensures
        names_of(r@) == build_args_of(names_of(args@)),
{
    group(args, 1)
}

/// The arguments for `rustc`.
pub fn get_args_rustc(args: &Vec<String>) -> (r: Vec<String>)
    ensures
        names_of(r@) == rustc_args_of(names_of(args@)),
{
    group(args, 2)
}

/// The arguments for the test binary.
pub fn get_args_test(args: &Vec<String>) -> (r: Vec<String>)
    ensures
        names_of(r@) == test_args_of(names_of(args@)),
{
    let start = group_start(args, 3);
    let mut r = slice_args(args, start, args.len());
    assert(names_of(r@) =~= after_seps(names_of(args@), 3));
    if has_arg_flag(args, "--json") {
        let ws = vec!["--".to_string(), "-Zunstable-options".to_string(), "--format=json".to_string(), "--report-time".to_string()];
        assert(names_of(ws@) =~= json_args());
        let mut i: usize = 0;
        while i < ws.len()
            invariant
                i <= ws@.len(),
                names_of(ws@) == json_args(),
                names_of(r@) == add_missing(after_seps(names_of(args@), 3), names_of(ws@).take(i as int)),
            decreases ws@.len() - i,
        {
            proof {
                assert(names_of(ws@).take(i + 1).drop_last() =~= names_of(ws@).take(i as int));
                assert(names_of(ws@).take(i + 1).last() == ws@[i as int]@);
            }
            if !contains_name(&r, &ws[i]) {
                let ghost before = r@;
                let w = ws[i].clone();
                r.push(w);
                proof { crate::text::lemma_names_push(before, w); }
            }
            i = i + 1;
        }
        assert(names_of(ws@).take(4) =~= names_of(ws@));
    }
    r
}

/// What the driver is asked to do.
#[derive(Debug, Clone, Copy, PartialEq, Eq, Structural)]
pub enum Mode {
    Clean,
    Dynamic,
    Static,
}

/// The name of a mode.
pub open spec fn mode_name(m: Mode) -> Seq<char> {
    match m {
        Mode::Clean => "clean"@,
        Mode::Dynamic => "dynamic"@,
        Mode::Static => "static"@,
    }
}

/// The mode named `s`, if any.
pub open spec fn mode_named(s: Seq<char>) -> Option<Mode> {
    if s == "clean"@ {
        Some(Mode::Clean)
    } else if s == "dynamic"@ {
        Some(Mode::Dynamic)
    } else if s == "static"@ {
        Some(Mode::Static)
    } else {
        None
    }
}

impl Mode {
    /// The name of the mode.
    pub fn to_string(&self) -> (r: String)
        ensures
            r@ == mode_name(*self),
    {
        let v = match self {
            Mode::Clean => literal("clean"),
            Mode::Dynamic => literal("dynamic"),
            Mode::Static => literal("static"),
        };
        string_of(v.as_slice())
    }

    /// The mode named `s`.
    pub fn from_str(s: &str) -> (r: Result<Mode, ()>)
        ensures
            match mode_named(s@) {
                Some(m) => r == Ok::<Mode, ()>(m),
                None => r is Err,
            },
    {
        let c = chars_of(s);
        let a = literal("clean");
        let b = literal("dynamic");
        let d = literal("static");
        if same_chars(c.as_slice(), a.as_slice()) {
            Ok(Mode::Clean)
        } else if same_chars(c.as_slice(), b.as_slice()) {
            Ok(Mode::Dynamic)
        } else if same_chars(c.as_slice(), d.as_slice()) {
            Ok(Mode::Static)
        } else {
            Err(())
        }
    }
}

/// Reading a mode's name gives back the mode.
pub proof fn lemma_mode_roundtrip(m: Mode)
    ensures
        mode_named(mode_name(m)) == Some(m),
{
    reveal_strlit("clean");
    reveal_strlit("dynamic");
    reveal_strlit("static");
    assert("clean"@[0] != "dynamic"@[0]);
    assert("clean"@[0] != "static"@[0]);
    assert("dynamic"@[0] != "static"@[0]);
}

/// The arguments of `cargo test` that builds the tests: without running
/// them, with the tests and examples, and the build arguments.
pub open spec fn build_argv(args: Seq<Seq<char>>) -> Seq<Seq<char>> {
    seq!["test"@, "--no-run"@, "--tests"@, "--examples"@] + build_args_of(args)
}

/// The arguments of the `cargo test` that builds the tests.
pub fn cargo_build_argv(args: &Vec<String>) -> (r: Vec<String>)
    ensures
        names_of(r@) == build_argv(names_of(args@)),
{
    let mut r = vec!["test".to_string(), "--no-run".to_string(), "--tests".to_string(), "--examples".to_string()];
    let b = get_args_build(args);
    let mut i: usize = 0;
    let ghost head = names_of(r@);
    assert(head =~= seq!["test"@, "--no-run"@, "--tests"@, "--examples"@]);
    while i < b.len()
        invariant
            i <= b@.len(),
            names_of(r@) == head + names_of(b@).take(i as int),
        decreases b@.len() - i,
    {
        let ghost before = r@;
        let x = b[i].clone();
        r.push(x);
        proof { crate::text::lemma_names_push(before, x); }
        assert(names_of(r@) =~= head + names_of(b@).take(i + 1));
        i = i + 1;
    }
    assert(names_of(b@).take(b@.len() as int) =~= names_of(b@));
    r
}

/// The name of a test without the crate part before the first `::`.
pub open spec fn test_filter(t: Seq<char>) -> Seq<char> {
    split_once(t, "::"@).unwrap().1
}

/// The arguments of `cargo test` that runs the affected tests: with none
/// affected (and no description asked for in dynamic mode) it only builds;
/// else it runs exactly the affected tests.
pub open spec fn test_argv(mode: Mode, affected: Seq<Seq<char>>, args: Seq<Seq<char>>, desc_flag: Seq<char>) -> Seq<Seq<char>> {
    let desc = mode == Mode::Dynamic && until_sep(args).contains(desc_flag);
    let head = seq!["test"@, "--no-fail-fast"@, "--tests"@, "--examples"@];
    let targs = test_args_of(args);
    if affected.len() == 0 && !desc {
        head + seq!["--no-run"@] + targs
    } else {
        head + targs + (if targs.contains("--"@) {
            Seq::<Seq<char>>::empty()
        } else {
            seq!["--"@]
        }) + seq!["--exact"@] + affected.map_values(|t: Seq<char>| test_filter(t)) + (if desc {
            seq!["--"@, desc_flag]
        } else {
            Seq::<Seq<char>>::empty()
        })
    }
}

/// Appends the strings of `src` to `dst`.
fn extend_args(dst: &mut Vec<String>, src: &Vec<String>)
    ensures
        names_of(final(dst)@) == names_of(old(dst)@) + names_of(src@),
{
    let ghost start = names_of(dst@);
    let mut i: usize = 0;
    while i < src.len()
        invariant
            i <= src@.len(),
            names_of(dst@) == start + names_of(src@).take(i as int),
        decreases src@.len() - i,
    {
        let ghost before = dst@;
        let x = src[i].clone();
        dst.push(x);
        proof { crate::text::lemma_names_push(before, x); }
        assert(names_of(dst@) =~= start + names_of(src@).take(i + 1));
        i = i + 1;
    }
    assert(names_of(src@).take(src@.len() as int) =~= names_of(src@));
}

/// The arguments of the `cargo test` that runs the affected tests; each
/// affected test is named with its crate, before a `::`.
pub fn cargo_test_argv(mode: Mode, affected: &Vec<String>, args: &Vec<String>, desc_flag: &str) -> (r: Vec<String>)
    requires
        forall|i: int| 0 <= i < affected@.len() ==> split_once(#[trigger] affected@[i]@, "::"@) is Some,
    ensures
        names_of(r@) == test_argv(mode, names_of(affected@), names_of(args@), desc_flag@),
{
    let desc = mode == Mode::Dynamic && has_arg_flag(args, desc_flag);
    let mut r = vec!["test".to_string(), "--no-fail-fast".to_string(), "--tests".to_string(), "--examples".to_string()];
    let ghost head = names_of(r@);
    assert(head =~= seq!["test"@, "--no-fail-fast"@, "--tests"@, "--examples"@]);
    let targs = get_args_test(args);
    if affected.len() == 0 && !desc {
        let ghost before = r@;
        let nr = "--no-run".to_string();
        r.push(nr);
        proof { crate::text::lemma_names_push(before, nr); }
        extend_args(&mut r, &targs);
    } else {
        extend_args(&mut r, &targs);
        let dd = "--".to_string();
        if !contains_name(&targs, &dd) {
            let ghost before = r@;
            r.push(dd);
            proof { crate::text::lemma_names_push(before, dd); }
        }
        let ghost before = r@;
        let ex = "--exact".to_string();
        r.push(ex);
        proof { crate::text::lemma_names_push(before, ex); }
        let ghost mid = names_of(r@);
        let sepr = literal("::");
        let mut i: usize = 0;
        while i < affected.len()
            invariant
                i <= affected@.len(),
                sepr@ == "::"@,
                forall|j: int| 0 <= j < affected@.len() ==> split_once(#[trigger] affected@[j]@, "::"@) is Some,
                names_of(r@) == mid + names_of(affected@).take(i as int).map_values(|t: Seq<char>| test_filter(t)),
            decreases affected@.len() - i,
        {
            let a = chars_of(affected[i].as_str());
            let rest = match crate::text::split_once_exec(a.as_slice(), sepr.as_slice()) {
                Some((_, b)) => b,
                None => Vec::new(),
            };
            let ghost before = r@;
            let t = string_of(rest.as_slice());
            r.push(t);
            proof { crate::text::lemma_names_push(before, t); }
            assert(names_of(r@) =~= mid + names_of(affected@).take(i + 1).map_values(|t: Seq<char>| test_filter(t)));
            i = i + 1;
        }
        assert(names_of(affected@).take(affected@.len() as int) =~= names_of(affected@));
        if desc {
            let ghost before = r@;
            let dd2 = "--".to_string();
            r.push(dd2);
            proof { crate::text::lemma_names_push(before, dd2); }
            let ghost before2 = r@;
            let f = string_of(chars_of(desc_flag).as_slice());
            r.push(f);
            proof { crate::text::lemma_names_push(before2, f); }
        }
    }
    assert(names_of(r@) =~= test_argv(mode, names_of(affected@), names_of(args@), desc_flag@));
    r
}

/// A line of a graph file that holds an edge: it is no comment (it does not
/// start with a backslash after leading white space) and holds `" -> "`.
pub open spec fn is_edge_text(l: Seq<char>) -> bool {
    !starts_with(trim_start(l), seq!['\\']) && contains(l, "\" -> \""@)
}

/// The lines that hold edges, in order.
pub open spec fn edge_texts(ls: Seq<Seq<char>>) -> Seq<Seq<char>>
    decreases ls.len(),
{
    if ls.len() == 0 {
        Seq::empty()
    } else if is_edge_text(ls.last()) {
        edge_texts(ls.drop_last()).push(ls.last())
    } else {
        edge_texts(ls.drop_last())
    }
}

/// The text of the graph made of the edges of the graph files' lines.
pub open spec fn edges_graph_text_of(ls: Seq<Seq<char>>) -> Seq<char> {
    "digraph {\n"@ + concat_lines(edge_texts(ls)) + "}"@
}

/// The text of one graph that holds the edge lines among the lines of all
/// graph files, each line followed by a newline.
pub fn edges_graph_text(lines: &Vec<String>) -> (r: String)
    ensures
        r@ == edges_graph_text_of(names_of(lines@)),
{
    let mut v = literal("digraph {\n");
    let ghost head = v@;
    let backslash = vec!['\\'];
    assert(backslash@ =~= seq!['\\']);
    let arrow = literal("\" -> \"");
    let mut i: usize = 0;
    while i < lines.len()
        invariant
            i <= lines@.len(),
            backslash@ == seq!['\\'],
            arrow@ == "\" -> \""@,
            v@ == head + concat_lines(edge_texts(names_of(lines@).take(i as int))),
        decreases lines@.len() - i,
    {
        let l = chars_of(lines[i].as_str());
        let ghost ls = names_of(lines@).take(i + 1);
        assert(ls.drop_last() =~= names_of(lines@).take(i as int));
        assert(ls.last() == l@);
        let t = trim_start_exec(l.as_slice());
        if !starts_with_exec(t.as_slice(), backslash.as_slice()) && contains_exec(l.as_slice(), arrow.as_slice()) {
            let ghost before = edge_texts(names_of(lines@).take(i as int));
            extend_chars(&mut v, l.as_slice());
            v.push('\n');
            assert(before.push(l@).drop_last() =~= before);
            assert(v@ =~= head + concat_lines(before.push(l@)));
        }
        i = i + 1;
    }
    assert(names_of(lines@).take(lines@.len() as int) =~= names_of(lines@));
    v.push('}');
    proof { reveal_strlit("}"); }
    assert(v@ =~= edges_graph_text_of(names_of(lines@)));
    string_of(v.as_slice())
}

/// The lines that name nodes of the graph.
pub open spec fn node_lines(ls: Seq<Seq<char>>, nodes: Set<Seq<char>>) -> Set<Seq<char>> {
    Set::new(|n: Seq<char>| ls.contains(n) && n.len() > 0 && nodes.contains(n))
}

/// The lines that name nodes of the graph, each once.
pub fn lines_in_graph(g: &DependencyGraph, lines: &Vec<String>) -> (r: Vec<String>)
    ensures
        names_of(r@).no_duplicates(),
        names_of(r@).to_set() == node_lines(names_of(lines@), g.view().nodes),
{
    let mut r: Vec<String> = Vec::new();
    let mut i: usize = 0;
    assert(names_of(r@) =~= Seq::empty());
    while i < lines.len()
        invariant
            i <= lines@.len(),
            names_of(r@).no_duplicates(),
            names_of(r@).to_set() == node_lines(names_of(lines@).take(i as int), g.view().nodes),
        decreases lines@.len() - i,
    {
        let l = &lines[i];
        let ghost before = r@;
        proof {
            assert(names_of(lines@).take(i + 1) =~= names_of(lines@).take(i as int).push(l@));
            crate::seqs::lemma_push_contains(names_of(lines@).take(i as int), l@);
        }
        if l.as_str().unicode_len() > 0 && g.contains_node(l) && !contains_name(&r, l) {
            let x = l.clone();
            r.push(x);
            proof {
                crate::text::lemma_names_push(before, x);
                crate::seqs::lemma_push_no_duplicates(names_of(before), x@);
                crate::seqs::lemma_push_to_set(names_of(before), x@);
            }
            assert(names_of(r@).to_set() =~= node_lines(names_of(lines@).take(i + 1), g.view().nodes));
        } else {
            assert(names_of(r@).to_set() =~= node_lines(names_of(lines@).take(i + 1), g.view().nodes));
        }
        i = i + 1;
    }
    assert(names_of(lines@).take(lines@.len() as int) =~= names_of(lines@));
    r
}

/// The nodes of the graph that reach a changed line naming a node of the
/// graph, each once.
pub fn static_reached(g: &DependencyGraph, changed_lines: &Vec<String>) -> (r: Vec<String>)
    requires
        g.wf(),
    ensures
        names_of(r@).no_duplicates(),
        names_of(r@).to_set() == reachable(g.view(), node_lines(names_of(changed_lines@), g.view().nodes)),
{
    let changed = lines_in_graph(g, changed_lines);
    g.reachable_nodes(&changed)
}

/// Static selection of the driver: the test lines naming nodes of the graph
/// that are reached from a changed line naming a node of the graph.
pub fn static_affected(g: &DependencyGraph, changed_lines: &Vec<String>, test_lines: &Vec<String>) -> (r: Vec<String>)
    requires
        g.wf(),
    ensures
        names_of(r@).no_duplicates(),
        names_of(r@).to_set() == node_lines(names_of(test_lines@), g.view().nodes).intersect(
            reachable(g.view(), node_lines(names_of(changed_lines@), g.view().nodes)),
        ),
{
    let changed = lines_in_graph(g, changed_lines);
    let tests = lines_in_graph(g, test_lines);
    let reached = g.reachable_nodes(&changed);
    let ghost want = node_lines(names_of(test_lines@), g.view().nodes).intersect(
        reachable(g.view(), node_lines(names_of(changed_lines@), g.view().nodes)),
    );
    let mut r: Vec<String> = Vec::new();
    let mut i: usize = 0;
    assert(names_of(r@) =~= Seq::empty());
    while i < tests.len()
        invariant
            i <= tests@.len(),
            names_of(tests@).no_duplicates(),
            names_of(r@).no_duplicates(),
            names_of(r@).to_set() == names_of(tests@).take(i as int).to_set().intersect(names_of(reached@).to_set()),
            forall|x: Seq<char>| #[trigger] names_of(r@).contains(x) ==> names_of(tests@).take(i as int).contains(x),
        decreases tests@.len() - i,
    {
        let t = &tests[i];
        let ghost before = r@;
        proof {
            assert(names_of(tests@).take(i + 1) =~= names_of(tests@).take(i as int).push(t@));
            crate::seqs::lemma_push_to_set(names_of(tests@).take(i as int), t@);
            crate::seqs::lemma_push_contains(names_of(tests@).take(i as int), t@);
        }
        if contains_name(&reached, t) {
            let x = t.clone();
            proof {
                if names_of(before).contains(x@) {
                    let k = choose|k: int| 0 <= k < i && names_of(tests@)[k] == x@;
                    assert(names_of(tests@)[i as int] == x@);
                }
            }
            r.push(x);
            proof {
                crate::text::lemma_names_push(before, x);
                crate::seqs::lemma_push_no_duplicates(names_of(before), x@);
                crate::seqs::lemma_push_to_set(names_of(before), x@);
                crate::seqs::lemma_push_contains(names_of(before), x@);
            }
        }
        assert(names_of(r@).to_set() =~= names_of(tests@).take(i + 1).to_set().intersect(names_of(reached@).to_set()));
        i = i + 1;
    }
    assert(names_of(tests@).take(tests@.len() as int) =~= names_of(tests@));
    assert(names_of(r@).to_set() =~= want);
    r
}

/// The test a trace file belongs to: its name before the first `.`.
pub open spec fn traced_test(file_name: Seq<char>) -> Seq<char> {
    split_once(file_name, "."@).unwrap().0
}

/// Dynamic selection of the driver: the tests found without a trace file,
/// then, in order, the tests of the trace files that hold a changed node.
pub fn dynamic_affected(tests: &Vec<String>, changed: &Vec<String>, traces: &Vec<(String, Vec<String>)>) -> (r: (Vec<String>, Vec<String>))
    requires
        forall|i: int| 0 <= i < traces@.len() ==> split_once(#[trigger] traces@[i].0@, "."@) is Some,
    ensures
        names_of(r.0@).no_duplicates(),
        names_of(r.0@).to_set() == names_of(tests@).to_set().difference(
            traces@.map_values(|t: (String, Vec<String>)| traced_test(t.0@)).to_set(),
        ),
        names_of(r.1@) == traces@.filter(
            |t: (String, Vec<String>)| exists|x: Seq<char>| names_of(t.1@).contains(x) && names_of(changed@).contains(x),
        ).map_values(|t: (String, Vec<String>)| traced_test(t.0@)),
{
    let dot = literal(".");
    let mut traced_names: Vec<String> = Vec::new();
    let mut j: usize = 0;
    while j < traces.len()
        invariant
            j <= traces@.len(),
            dot@ == "."@,
            forall|i: int| 0 <= i < traces@.len() ==> split_once(#[trigger] traces@[i].0@, "."@) is Some,
            names_of(traced_names@) == traces@.take(j as int).map_values(|t: (String, Vec<String>)| traced_test(t.0@)),
        decreases traces@.len() - j,
    {
        let f = chars_of(traces[j].0.as_str());
        let name = match crate::text::split_once_exec(f.as_slice(), dot.as_slice()) {
            Some((a, _)) => a,
            None => Vec::new(),
        };
        let ghost before = traced_names@;
        let n = string_of(name.as_slice());
        traced_names.push(n);
        proof { crate::text::lemma_names_push(before, n); }
        assert(names_of(traced_names@) =~= traces@.take(j + 1).map_values(|t: (String, Vec<String>)| traced_test(t.0@)));
        j = j + 1;
    }
    assert(traces@.take(traces@.len() as int) =~= traces@);
    let mut untraced: Vec<String> = Vec::new();
    let mut i: usize = 0;
    assert(names_of(untraced@) =~= Seq::empty());
    while i < tests.len()
        invariant
            i <= tests@.len(),
            names_of(untraced@).no_duplicates(),
            names_of(untraced@).to_set() == names_of(tests@).take(i as int).to_set().difference(names_of(traced_names@).to_set()),
        decreases tests@.len() - i,
    {
        let t = &tests[i];
        let ghost before = untraced@;
        proof {
            assert(names_of(tests@).take(i + 1) =~= names_of(tests@).take(i as int).push(t@));
            crate::seqs::lemma_push_to_set(names_of(tests@).take(i as int), t@);
        }
        if !contains_name(&traced_names, t) && !contains_name(&untraced, t) {
            let x = t.clone();
            untraced.push(x);
            proof {
                crate::text::lemma_names_push(before, x);
                crate::seqs::lemma_push_no_duplicates(names_of(before), x@);
                crate::seqs::lemma_push_to_set(names_of(before), x@);
            }
        }
        assert(names_of(untraced@).to_set() =~= names_of(tests@).take(i + 1).to_set().difference(names_of(traced_names@).to_set()));
        i = i + 1;
    }
    assert(names_of(tests@).take(tests@.len() as int) =~= names_of(tests@));
    let ghost hits = |t: (String, Vec<String>)| exists|x: Seq<char>| names_of(t.1@).contains(x) && names_of(changed@).contains(x);
    let ghost name_of = |t: (String, Vec<String>)| traced_test(t.0@);
    let mut hit: Vec<String> = Vec::new();
    let mut k: usize = 0;
    while k < traces.len()
        invariant
            k <= traces@.len(),
            traces@.len() == traced_names@.len(),
            hits == (|t: (String, Vec<String>)| exists|x: Seq<char>| names_of(t.1@).contains(x) && names_of(changed@).contains(x)),
            name_of == (|t: (String, Vec<String>)| traced_test(t.0@)),
            names_of(traced_names@) == traces@.map_values(name_of),
            names_of(hit@) == traces@.take(k as int).filter(hits).map_values(name_of),
        decreases traces@.len() - k,
    {
        proof {
            reveal(Seq::filter);
            assert(traces@.take(k + 1).drop_last() =~= traces@.take(k as int));
            assert(traces@.take(k + 1).last() == traces@[k as int]);
        }
        if crate::text::share_name(&traces[k].1, changed) {
            let ghost before = hit@;
            let n = traced_names[k].clone();
            assert(n@ == name_of(traces@[k as int])) by {
                assert(names_of(traced_names@)[k as int] == traced_names@[k as int]@);
            }
            hit.push(n);
            proof { crate::text::lemma_names_push(before, n); }
            assert(names_of(hit@) =~= traces@.take(k + 1).filter(hits).map_values(name_of));
        } else {
            assert(names_of(hit@) =~= traces@.take(k + 1).filter(hits).map_values(name_of));
        }
        k = k + 1;
    }
    assert(traces@.take(traces@.len() as int) =~= traces@);
    (untraced, hit)
}

/// The target directories removed by `clean`: the one cargo was given, or
/// those of both modes.
pub fn clean_dirs(target_dir: Option<&str>) -> (r: Vec<String>)
    ensures
        names_of(r@) == match target_dir {
            Some(d) => seq![d@],
            None => seq!["target_dynamic"@, "target_static"@],
        },
{
    let r = match target_dir {
        Some(d) => vec![string_of(chars_of(d).as_slice())],
        None => vec!["target_dynamic".to_string(), "target_static".to_string()],
    };
    assert(names_of(r@) =~= match target_dir {
        Some(d) => seq![d@],
        None => seq!["target_dynamic"@, "target_static"@],
    });
    r
}

/// What the driver does for its arguments.
#[derive(Debug, Clone, Copy, PartialEq, Eq, Structural)]
pub enum Dispatch {
    Help,
    Version,
    Run(Mode),
    Rustc,
    UnknownMode,
    UnknownCommand,
}

/// What the driver does: show help or version when asked anywhere, run a
/// mode for `rustyrts <mode>`, wrap the compiler for `rustc`.
pub open spec fn dispatch_of(args: Seq<Seq<char>>) -> Dispatch {
    if args.contains("--help"@) || args.contains("-h"@) {
        Dispatch::Help
    } else if args.contains("--version"@) || args.contains("-V"@) {
        Dispatch::Version
    } else if args.len() > 1 && args[1] == "rustyrts"@ {
        match mode_named(if args.len() > 2 { args[2] } else { Seq::empty() }) {
            Some(m) => Dispatch::Run(m),
            None => Dispatch::UnknownMode,
        }
    } else if args.len() > 1 && args[1] == "rustc"@ {
        Dispatch::Rustc
    } else {
        Dispatch::UnknownCommand
    }
}

/// Whether `s` is `p`.
fn is_word(s: &String, p: &str) -> (b: bool)
    ensures
        b == (s@ == p@),
{
    let c = chars_of(s.as_str());
    let q = chars_of(p);
    same_chars(c.as_slice(), q.as_slice())
}

/// What the driver does for the arguments it was started with.
pub fn dispatch(args: &Vec<String>) -> (r: Dispatch)
    ensures
        r == dispatch_of(names_of(args@)),
{
    let help = string_of(chars_of("--help").as_slice());
    let h = string_of(chars_of("-h").as_slice());
    let version = string_of(chars_of("--version").as_slice());
    let v = string_of(chars_of("-V").as_slice());
    if contains_name(args, &help) || contains_name(args, &h) {
        Dispatch::Help
    } else if contains_name(args, &version) || contains_name(args, &v) {
        Dispatch::Version
    } else if args.len() > 1 && is_word(&args[1], "rustyrts") {
        assert(names_of(args@)[1] == args@[1]@);
        let mode = if args.len() > 2 {
            assert(names_of(args@)[2] == args@[2]@);
            Mode::from_str(args[2].as_str())
        } else {
            Mode::from_str("")
        };
        proof {
            if args@.len() <= 2 {
                reveal_strlit("");
                assert(""@ =~= Seq::<char>::empty());
            } else {
                assert(names_of(args@)[2] == args@[2]@);
            }
        }
        match mode {
            Ok(m) => Dispatch::Run(m),
            Err(_) => Dispatch::UnknownMode,
        }
    } else if args.len() > 1 && is_word(&args[1], "rustc") {
        assert(names_of(args@)[1] == args@[1]@);
        Dispatch::Rustc
    } else {
        proof {
            if args@.len() > 1 {
                assert(names_of(args@)[1] == args@[1]@);
            }
        }
        Dispatch::UnknownCommand
    }
}

/// The arguments after the first `n`, none when there are fewer.
pub open spec fn skip_args(s: Seq<Seq<char>>, n: int) -> Seq<Seq<char>> {
    if s.len() > n {
        s.skip(n)
    } else {
        Seq::empty()
    }
}

/// The arguments for the analysing compiler: those given to the wrapper
/// after `cargo rustc`, the sysroot, and the arguments cargo was asked to
/// pass on.
pub fn rustyrts_argv(args: &Vec<String>, sysroot: &str, extra: &Vec<String>) -> (r: Vec<String>)
    ensures
        names_of(r@) == skip_args(names_of(args@), 2) + seq!["--sysroot"@, sysroot@] + names_of(extra@),
{
    let mut r: Vec<String> = if args.len() > 2 {
        slice_args(args, 2, args.len())
    } else {
        Vec::new()
    };
    assert(names_of(r@) =~= skip_args(names_of(args@), 2));
    let ghost b0 = r@;
    let s1 = "--sysroot".to_string();
    r.push(s1);
    proof { crate::text::lemma_names_push(b0, s1); }
    let ghost b1 = r@;
    let s2 = string_of(chars_of(sysroot).as_slice());
    r.push(s2);
    proof { crate::text::lemma_names_push(b1, s2); }
    extend_args(&mut r, extra);
    assert(names_of(r@) =~= skip_args(names_of(args@), 2) + seq!["--sysroot"@, sysroot@] + names_of(extra@));
    r
}


/// The JSON text that `serde_json::to_string` makes of a list of strings.
pub uninterp spec fn json_string_array(items: Seq<Seq<char>>) -> Seq<char>;

/// The list of strings that `serde_json::from_str` reads from a text, where
/// the text is a JSON array of strings.
pub uninterp spec fn json_string_array_of(text: Seq<char>) -> Option<Seq<Seq<char>>>;

/// `serde_json::to_string` of a list of strings: its JSON text, which
/// `serde_json::from_str` reads back as the same list. Serializing strings
/// cannot fail (serde_json fails only on a failing `Serialize` impl or a map
/// with keys that are no strings).
#[verifier::external_body]
fn encode_args(args: &Vec<String>) -> (r: String)
    ensures
        r@ == json_string_array(names_of(args@)),
        json_string_array_of(r@) == Some(names_of(args@)),
{
    serde_json::to_string(args).expect("strings always serialize")
}

/// `serde_json::from_str` into a list of strings: the list, where the text is
/// a JSON array of strings.
#[verifier::external_body]
fn decode_args(text: &str) -> (r: Option<Vec<String>>)
    ensures
        r is None <==> json_string_array_of(text@) is None,
        r matches Some(v) ==> json_string_array_of(text@) == Some(names_of(v@)),
{
    match serde_json::from_str::<Vec<String>>(text) {
        Ok(v) => Some(v),
        Err(_) => None,
    }
}

/// The text that hands the arguments for the analysing compiler from the
/// `cargo` invocation over to the compiler wrapper: the JSON array of those
/// arguments, which reads back as them.
pub fn rustyrts_args_env(args: &Vec<String>) -> (r: String)
    ensures
        r@ == json_string_array(rustc_args_of(names_of(args@))),
        json_string_array_of(r@) == Some(rustc_args_of(names_of(args@))),
{
    let rustc_args = get_args_rustc(args);
    encode_args(&rustc_args)
}

/// The command line of the analysing compiler, run as the compiler wrapper:
/// the wrapper's arguments after `cargo rustc`, the sysroot, and the
/// arguments handed over in `magic`; none where `magic` is no JSON array of
/// strings.
pub fn rustc_wrapper_argv(args: &Vec<String>, sysroot: &str, magic: &str) -> (r: Option<Vec<String>>)
    ensures
        r is None <==> json_string_array_of(magic@) is None,
        r matches Some(v) ==> names_of(v@) == skip_args(names_of(args@), 2) + seq!["--sysroot"@, sysroot@]
            + json_string_array_of(magic@).unwrap(),
{
    match decode_args(magic) {
        Some(extra) => Some(rustyrts_argv(args, sysroot, &extra)),
        None => None,
    }
}

} // verus!
