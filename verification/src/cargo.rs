//! The command lines of the cargo invocations of a mutation-testing run.

use vstd::prelude::*;
use crate::text::{names_of, chars_of, string_of, split_by, split_by_exec, joined_with, extend_chars};
use crate::paths::path_push;

verus! {

/// A phase of a run.
#[derive(Debug, Clone, Copy, PartialEq, Eq, Structural)]
pub enum Phase {
    Check,
    Build,
    /// A build through the dynamic compiler wrapper, which instruments the
    /// crates.
    BuildDynamic,
    Test,
    Dynamic,
    Static,
}

/// The cargo subcommand of a phase.
pub open spec fn phase_name(p: Phase) -> Seq<Seq<char>> {
    match p {
        Phase::Check => seq!["check"@],
        Phase::Build | Phase::BuildDynamic => seq!["build"@],
        Phase::Test => seq!["test"@],
        Phase::Dynamic => seq!["rustyrts"@, "dynamic"@],
        Phase::Static => seq!["rustyrts"@, "static"@],
    }
}

/// Whether the phase runs tests.
pub open spec fn is_test_phase(p: Phase) -> bool {
    p == Phase::Test || p == Phase::Dynamic || p == Phase::Static
}

impl Phase {
    /// The cargo subcommand of the phase.
    pub fn name(&self) -> (r: Vec<String>)
        ensures
            names_of(r@) == phase_name(*self),
    {
        let r = match self {
            Phase::Check => vec!["check".to_string()],
            Phase::Build | Phase::BuildDynamic => vec!["build".to_string()],
            Phase::Test => vec!["test".to_string()],
            Phase::Dynamic => vec!["rustyrts".to_string(), "dynamic".to_string()],
            Phase::Static => vec!["rustyrts".to_string(), "static".to_string()],
        };
        assert(names_of(r@) =~= phase_name(*self));
        r
    }

    /// Whether the phase runs tests.
    pub fn is_test_phase(&self) -> (b: bool)
        ensures
            b == is_test_phase(*self),
    {
        match self {
            Phase::Test | Phase::Dynamic | Phase::Static => true,
            _ => false,
        }
    }
}

/// A package of the workspace: its name and its manifest relative to the
/// workspace.
#[derive(Debug, Clone, PartialEq, Eq)]
pub struct Package {
    pub name: String,
    pub relative_manifest_path: String,
}

/// `a` comes before `b` in the order of characters, a prefix first.
pub open spec fn lex_lt(a: Seq<char>, b: Seq<char>) -> bool
    decreases a.len(),
{
    if a.len() == 0 {
        b.len() > 0
    } else if b.len() == 0 {
        false
    } else if a[0] != b[0] {
        a[0] < b[0]
    } else {
        lex_lt(a.drop_first(), b.drop_first())
    }
}

proof fn lemma_same_head(a: Seq<char>, b: Seq<char>)
    requires
        a.len() > 0,
        b.len() > 0,
        a[0] == b[0],
        a.drop_first() == b.drop_first(),
    ensures
        a == b,
{
    assert(a.len() == a.drop_first().len() + 1);
    assert(b.len() == b.drop_first().len() + 1);
    assert forall|i: int| 0 <= i < a.len() implies a[i] == b[i] by {
        if i > 0 {
            assert(a[i] == a.drop_first()[i - 1]);
            assert(b[i] == b.drop_first()[i - 1]);
        }
    }
    assert(a =~= b);
}

/// No sequence comes before itself.
pub proof fn lemma_lex_irreflexive(a: Seq<char>)
    ensures
        !lex_lt(a, a),
    decreases a.len(),
{
    if a.len() > 0 {
        lemma_lex_irreflexive(a.drop_first());
    }
}

/// Of two different sequences one comes first.
pub proof fn lemma_lex_total(a: Seq<char>, b: Seq<char>)
    ensures
        a != b ==> lex_lt(a, b) || lex_lt(b, a),
    decreases a.len(),
{
    if a.len() > 0 && b.len() > 0 && a[0] == b[0] {
        lemma_lex_total(a.drop_first(), b.drop_first());
        if a.drop_first() == b.drop_first() {
            lemma_same_head(a, b);
        }
    } else if a.len() == 0 && b.len() == 0 {
        assert(a =~= b);
    }
}

/// Two sequences do not both come before each other.
pub proof fn lemma_lex_asymmetric(a: Seq<char>, b: Seq<char>)
    ensures
        lex_lt(a, b) ==> !lex_lt(b, a),
    decreases a.len(),
{
    if a.len() > 0 && b.len() > 0 && a[0] == b[0] {
        lemma_lex_asymmetric(a.drop_first(), b.drop_first());
    }
}

/// Coming before is transitive.
pub proof fn lemma_lex_transitive(a: Seq<char>, b: Seq<char>, c: Seq<char>)
    ensures
        lex_lt(a, b) && lex_lt(b, c) ==> lex_lt(a, c),
    decreases a.len(),
{
    if a.len() > 0 && b.len() > 0 && c.len() > 0 {
        lemma_lex_transitive(a.drop_first(), b.drop_first(), c.drop_first());
    }
}

/// The order is strict and total.
pub proof fn lemma_lex_order(a: Seq<char>, b: Seq<char>, c: Seq<char>)
    ensures
        !lex_lt(a, a),
        a != b ==> lex_lt(a, b) || lex_lt(b, a),
        lex_lt(a, b) ==> !lex_lt(b, a),
        lex_lt(a, b) && lex_lt(b, c) ==> lex_lt(a, c),
{
    lemma_lex_irreflexive(a);
    lemma_lex_total(a, b);
    lemma_lex_asymmetric(a, b);
    lemma_lex_transitive(a, b, c);
}

/// Whether `a` comes before `b`.
fn lex_lt_exec(a: &[char], b: &[char]) -> (r: bool)
    ensures
        r == lex_lt(a@, b@),
{
    let mut i: usize = 0;
    assert(a@.skip(0) =~= a@);
    assert(b@.skip(0) =~= b@);
    while i < a.len() && i < b.len() && a[i] == b[i]
        invariant
            i <= a@.len(),
            i <= b@.len(),
            lex_lt(a@, b@) == lex_lt(a@.skip(i as int), b@.skip(i as int)),
        decreases a@.len() - i,
    {
        assert(a@.skip(i as int).drop_first() =~= a@.skip(i + 1));
        assert(b@.skip(i as int).drop_first() =~= b@.skip(i + 1));
        i = i + 1;
    }
    if i == a.len() {
        i < b.len()
    } else if i == b.len() {
        false
    } else {
        a[i] < b[i]
    }
}

/// The strings are in order.
pub open spec fn in_order(s: Seq<Seq<char>>) -> bool {
    forall|i: int, j: int| 0 <= i < j < s.len() ==> !lex_lt(#[trigger] s[j], #[trigger] s[i])
}

/// The strings in order.
pub fn sorted(v: &Vec<String>) -> (r: Vec<String>)
    ensures
        names_of(r@).to_multiset() == names_of(v@).to_multiset(),
        in_order(names_of(r@)),
{
    broadcast use vstd::seq_lib::to_multiset_insert;
    let mut r: Vec<String> = Vec::new();
    let mut i: usize = 0;
    assert(names_of(r@) =~= Seq::empty());
    assert(names_of(v@).take(0) =~= Seq::empty());
    while i < v.len()
        invariant
            i <= v@.len(),
            names_of(r@).to_multiset() == names_of(v@).take(i as int).to_multiset(),
            in_order(names_of(r@)),
        decreases v@.len() - i,
    {
        let x = v[i].clone();
        let xc = chars_of(x.as_str());
        let mut k: usize = 0;
        while k < r.len() && !lex_lt_exec(xc.as_slice(), chars_of(r[k].as_str()).as_slice())
            invariant
                k <= r@.len(),
                xc@ == x@,
                forall|m: int| 0 <= m < k ==> !lex_lt(x@, #[trigger] names_of(r@)[m]),
            decreases r@.len() - k,
        {
            k = k + 1;
        }
        let ghost before = names_of(r@);
        r.insert(k, x);
        proof {
            assert(names_of(r@) =~= before.insert(k as int, x@));
            assert(names_of(v@).take(i + 1) =~= names_of(v@).take(i as int).push(v@[i as int]@));
            vstd::seq_lib::to_multiset_build(names_of(v@).take(i as int), v@[i as int]@);
            vstd::seq_lib::to_multiset_insert(before, k as int, x@);
            let after = names_of(r@);
            assert forall|p: int, q: int| 0 <= p < q < after.len() implies !lex_lt(#[trigger] after[q], #[trigger] after[p]) by {
                if p < k && q == k {
                    lemma_lex_order(after[p], x@, x@);
                    assert(after[p] == before[p]);
                } else if p == k && q > k {
                    assert(after[q] == before[q - 1]);
                    if k < before.len() {
                        lemma_lex_order(x@, before[k as int], before[q - 1]);
                        lemma_lex_order(before[k as int], before[q - 1], x@);
                        assert(lex_lt(x@, before[k as int]));
                        if q - 1 > k {
                            assert(!lex_lt(before[q - 1], before[k as int]));
                            lemma_lex_order(before[q - 1], before[k as int], x@);
                        }
                    }
                } else if p < k && q > k {
                    assert(after[p] == before[p]);
                    assert(after[q] == before[q - 1]);
                } else if q < k {
                    assert(after[p] == before[p]);
                    assert(after[q] == before[q]);
                } else {
                    assert(after[p] == before[p - 1]);
                    assert(after[q] == before[q - 1]);
                }
            }
        }
        i = i + 1;
    }
    assert(names_of(v@).take(v@.len() as int) =~= names_of(v@));
    r
}

/// The start of the command line of a phase: the cargo binary, the
/// subcommand and the phase's own options.
pub open spec fn phase_args(cargo_bin: Seq<char>, phase: Phase, additional_cargo_args: Seq<Seq<char>>, emit_mir: bool) -> Seq<Seq<char>> {
    seq![cargo_bin] + phase_name(phase) + (if phase == Phase::Check || phase == Phase::Build {
        seq!["--tests"@, "--examples"@, "--profile"@, "test"@]
    } else {
        Seq::empty()
    }) + (match phase {
        Phase::Check => seq!["--target-dir"@, "target_check"@],
        Phase::Test => seq!["--target-dir"@, "target_test"@],
        _ => Seq::empty(),
    }) + (if phase == Phase::Test {
        seq!["--no-fail-fast"@, "--tests"@, "--examples"@]
    } else {
        Seq::empty()
    }) + (if phase == Phase::Dynamic || phase == Phase::Static {
        seq!["--"@] + additional_cargo_args + seq!["--"@] + (if emit_mir {
            seq!["--emit=mir"@]
        } else {
            Seq::empty()
        }) + seq!["--"@]
    } else {
        Seq::empty()
    })
}

/// The packages part of the command line: the manifest of a single package,
/// each package of several by name (in order), or the whole workspace.
pub open spec fn packages_part(
    build_dir: Seq<char>,
    packages: Option<Seq<(Seq<char>, Seq<char>)>>,
    sorted_package_names: Seq<Seq<char>>,
) -> Seq<Seq<char>> {
    match packages {
        Some(ps) => if ps.len() == 1 {
            seq!["--manifest-path"@, path_push(build_dir, ps[0].1)]
        } else {
            package_args(sorted_package_names)
        },
        None => seq!["--workspace"@],
    }
}

/// The command line of the cargo invocation of a phase.
pub open spec fn argv_of(
    cargo_bin: Seq<char>,
    build_dir: Seq<char>,
    packages: Option<Seq<(Seq<char>, Seq<char>)>>,
    phase: Phase,
    sorted_package_names: Seq<Seq<char>>,
    additional_cargo_args: Seq<Seq<char>>,
    additional_cargo_test_args: Seq<Seq<char>>,
    emit_mir: bool,
) -> Seq<Seq<char>> {
    phase_args(cargo_bin, phase, additional_cargo_args, emit_mir) + packages_part(
        build_dir,
        packages,
        sorted_package_names,
    ) + additional_cargo_args + (if is_test_phase(phase) {
        additional_cargo_test_args
    } else {
        Seq::empty()
    })
}

/// `--package` and the name, for each name.
pub open spec fn package_args(names: Seq<Seq<char>>) -> Seq<Seq<char>>
    decreases names.len(),
{
    if names.len() == 0 {
        Seq::empty()
    } else {
        package_args(names.drop_last()) + seq!["--package"@, names.last()]
    }
}

/// Appends the strings of `src` to `dst`.
fn extend_strings(dst: &mut Vec<String>, src: &Vec<String>)
    ensures
        names_of(final(dst)@) == names_of(old(dst)@) + names_of(src@),
{
    let ghost start = names_of(dst@);
    let mut i: usize = 0;
    while i < src.len()
        invariant
            i <= src@.len(),
            names_of(dst@) == start + names_of(src@).take(i as int),
        decreases src@.len() - i,
    {
        let ghost before = dst@;
        let x = src[i].clone();
        dst.push(x);
        proof { crate::text::lemma_names_push(before, x); }
        assert(names_of(dst@) =~= start + names_of(src@).take(i + 1));
        i = i + 1;
    }
    assert(names_of(src@).take(src@.len() as int) =~= names_of(src@));
}

/// Appends the text `s`.
fn push_str(dst: &mut Vec<String>, s: &str)
    ensures
        names_of(final(dst)@) == names_of(old(dst)@).push(s@),
{
    let ghost before = dst@;
    let x = string_of(chars_of(s).as_slice());
    dst.push(x);
    proof { crate::text::lemma_names_push(before, x); }
}

/// The name and manifest of each package.
pub open spec fn package_views(ps: Seq<Package>) -> Seq<(Seq<char>, Seq<char>)> {
    ps.map_values(|p: Package| (p.name@, p.relative_manifest_path@))
}

/// The start of the command line of a phase.
fn phase_argv(cargo_bin: &str, phase: Phase, additional_cargo_args: &Vec<String>, emit_mir: bool) -> (r: Vec<String>)
    ensures
        names_of(r@) == phase_args(cargo_bin@, phase, names_of(additional_cargo_args@), emit_mir),
{
    let mut r: Vec<String> = Vec::new();
    push_str(&mut r, cargo_bin);
    let name = phase.name();
    extend_strings(&mut r, &name);
    if phase == Phase::Check || phase == Phase::Build {
        push_str(&mut r, "--tests");
        push_str(&mut r, "--examples");
        push_str(&mut r, "--profile");
        push_str(&mut r, "test");
    }
    match phase {
        Phase::Check => {
            push_str(&mut r, "--target-dir");
            push_str(&mut r, "target_check");
        },
        Phase::Test => {
            push_str(&mut r, "--target-dir");
            push_str(&mut r, "target_test");
        },
        _ => {},
    }
    if phase == Phase::Test {
        push_str(&mut r, "--no-fail-fast");
        push_str(&mut r, "--tests");
        push_str(&mut r, "--examples");
    }
    if phase == Phase::Dynamic || phase == Phase::Static {
        push_str(&mut r, "--");
        extend_strings(&mut r, additional_cargo_args);
        push_str(&mut r, "--");
        if emit_mir {
            push_str(&mut r, "--emit=mir");
        }
        push_str(&mut r, "--");
    }
    assert(names_of(r@) =~= phase_args(cargo_bin@, phase, names_of(additional_cargo_args@), emit_mir));
    r
}

/// The packages part of the command line, with the package names in order.
fn packages_argv(build_dir: &str, packages: Option<&Vec<Package>>) -> (r: (Vec<String>, Ghost<Seq<Seq<char>>>))
    ensures
        (match packages {
            Some(ps) => ps@.len() != 1 ==> r.1@.to_multiset() == ps@.map_values(|p: Package| p.name@).to_multiset()
                && in_order(r.1@),
            None => true,
        }),
        names_of(r.0@) == packages_part(
            build_dir@,
            match packages {
                Some(ps) => Some(package_views(ps@)),
                None => None,
            },
            r.1@,
        ),
{
    let mut r: Vec<String> = Vec::new();
    let ghost mut sorted_names: Seq<Seq<char>> = Seq::empty();
    match packages {
        Some(ps) => {
            if ps.len() == 1 {
                push_str(&mut r, "--manifest-path");
                let mut p = crate::paths::CachePath::from_str(build_dir);
                p.push(ps[0].relative_manifest_path.as_str());
                push_str(&mut r, p.as_str());
                assert(package_views(ps@)[0] == (ps@[0].name@, ps@[0].relative_manifest_path@));
                assert(names_of(r@) =~= seq!["--manifest-path"@, path_push(build_dir@, package_views(ps@)[0].1)]);
            } else {
                let mut all: Vec<String> = Vec::new();
                let mut i: usize = 0;
                while i < ps.len()
                    invariant
                        i <= ps@.len(),
                        names_of(all@) == ps@.take(i as int).map_values(|p: Package| p.name@),
                    decreases ps@.len() - i,
                {
                    let ghost before = all@;
                    let n = ps[i].name.clone();
                    all.push(n);
                    proof { crate::text::lemma_names_push(before, n); }
                    assert(names_of(all@) =~= ps@.take(i + 1).map_values(|p: Package| p.name@));
                    i = i + 1;
                }
                assert(ps@.take(ps@.len() as int) =~= ps@);
                let s = sorted(&all);
                proof { sorted_names = names_of(s@); }
                assert(names_of(r@) =~= package_args(sorted_names.take(0)));
                let mut j: usize = 0;
                while j < s.len()
                    invariant
                        j <= s@.len(),
                        sorted_names == names_of(s@),
                        names_of(r@) == package_args(sorted_names.take(j as int)),
                    decreases s@.len() - j,
                {
                    push_str(&mut r, "--package");
                    let ghost before = r@;
                    let n = s[j].clone();
                    r.push(n);
                    proof {
                        crate::text::lemma_names_push(before, n);
                        assert(sorted_names.take(j + 1).drop_last() =~= sorted_names.take(j as int));
                    }
                    assert(names_of(r@) =~= package_args(sorted_names.take(j + 1)));
                    j = j + 1;
                }
                assert(sorted_names.take(s@.len() as int) =~= sorted_names);
            }
        },
        None => {
            push_str(&mut r, "--workspace");
            assert(names_of(r@) =~= seq!["--workspace"@]);
        },
    }
    (r, Ghost(sorted_names))
}

/// The command line of the cargo invocation of a phase: the cargo binary,
/// the phase's subcommand and options, the packages (or the workspace), and
/// the additional arguments; the package names come in order.
pub fn cargo_argv(
    cargo_bin: &str,
    build_dir: &str,
    packages: Option<&Vec<Package>>,
    phase: Phase,
    additional_cargo_args: &Vec<String>,
    additional_cargo_test_args: &Vec<String>,
    emit_mir: bool,
) -> (r: Vec<String>)
    ensures
        exists|sorted_names: Seq<Seq<char>>|
            #![trigger package_args(sorted_names)]
            (match packages {
                Some(ps) => ps@.len() != 1 ==> sorted_names.to_multiset() == ps@.map_values(|p: Package| p.name@).to_multiset()
                    && in_order(sorted_names),
                None => true,
            }) && names_of(r@) == argv_of(
                cargo_bin@,
                build_dir@,
                match packages {
                    Some(ps) => Some(package_views(ps@)),
                    None => None,
                },
                phase,
                sorted_names,
                names_of(additional_cargo_args@),
                names_of(additional_cargo_test_args@),
                emit_mir,
            ),
{
    let mut r = phase_argv(cargo_bin, phase, additional_cargo_args, emit_mir);
    let (part, Ghost(sorted_names)) = packages_argv(build_dir, packages);
    extend_strings(&mut r, &part);
    extend_strings(&mut r, additional_cargo_args);
    if phase.is_test_phase() {
        extend_strings(&mut r, additional_cargo_test_args);
    }
    assert(names_of(r@) =~= argv_of(
        cargo_bin@,
        build_dir@,
        match packages {
            Some(ps) => Some(package_views(ps@)),
            None => None,
        },
        phase,
        sorted_names,
        names_of(additional_cargo_args@),
        names_of(additional_cargo_test_args@),
        emit_mir,
    ));
    assert(package_args(sorted_names) == package_args(sorted_names));
    r
}


/// The compiler flags that a cargo invocation gets: those of
/// `CARGO_ENCODED_RUSTFLAGS` (split at the unit separator) where that
/// variable is set, else those of `RUSTFLAGS` (split at spaces) where that one
/// is set, else none; then `--cap-lints=allow`.
pub open spec fn rustflags_list(encoded: Option<Seq<char>>, plain: Option<Seq<char>>) -> Seq<Seq<char>> {
    let flags = match encoded {
        Some(e) => split_by(e, seq!['\u{1f}']),
        None => match plain {
            Some(p) => split_by(p, seq![' ']),
            None => Seq::empty(),
        },
    };
    flags.push("--cap-lints=allow"@)
}

/// The flags of `rustflags_list`, joined by the unit separator.
pub open spec fn rustflags_of(encoded: Option<Seq<char>>, plain: Option<Seq<char>>) -> Seq<char> {
    joined_with(rustflags_list(encoded, plain), seq!['\u{1f}'])
}

/// The view of an optional string slice.
pub open spec fn opt_view(s: Option<&str>) -> Option<Seq<char>> {
    match s {
        Some(t) => Some(t@),
        None => None,
    }
}

/// The pieces joined with `sep` between them.
fn join_pieces(ps: &Vec<Vec<char>>, sep: char) -> (r: Vec<char>)
    ensures
        r@ == joined_with(ps@.map_values(|v: Vec<char>| v@), seq![sep]),
{
    let ghost views = ps@.map_values(|v: Vec<char>| v@);
    let mut r: Vec<char> = Vec::new();
    let mut i: usize = 0;
    while i < ps.len()
        invariant
            i <= ps@.len(),
            views == ps@.map_values(|v: Vec<char>| v@),
            r@ == joined_with(views.take(i as int), seq![sep]),
        decreases ps@.len() - i,
    {
        assert(views.take(i + 1).drop_last() =~= views.take(i as int));
        assert(views[i as int] == ps@[i as int]@);
        if i > 0 {
            r.push(sep);
        }
        extend_chars(&mut r, ps[i].as_slice());
        assert(views.take(i + 1).last() == ps@[i as int]@);
        if i == 0 {
            assert(r@ =~= joined_with(views.take(1), seq![sep]));
        } else {
            assert(r@ =~= joined_with(views.take(i as int), seq![sep]) + seq![sep] + ps@[i as int]@);
        }
        i = i + 1;
    }
    assert(views.take(ps@.len() as int) =~= views);
    r
}

/// The compiler flags of a cargo invocation, from the values of
/// `CARGO_ENCODED_RUSTFLAGS` and `RUSTFLAGS` where they are set, with lints
/// capped at `allow`; joined by the unit separator, as
/// `CARGO_ENCODED_RUSTFLAGS` takes them.
pub fn rustflags(encoded: Option<&str>, plain: Option<&str>) -> (r: String)
    ensures
        r@ == rustflags_of(opt_view(encoded), opt_view(plain)),
{
    let mut flags: Vec<Vec<char>> = match encoded {
        Some(e) => {
            let sep = vec!['\u{1f}'];
            assert(sep@ =~= seq!['\u{1f}']);
            split_by_exec(chars_of(e).as_slice(), sep.as_slice())
        },
        None => match plain {
            Some(p) => {
                let sep = vec![' '];
                assert(sep@ =~= seq![' ']);
                split_by_exec(chars_of(p).as_slice(), sep.as_slice())
            },
            None => Vec::new(),
        },
    };
    assert(flags@.map_values(|v: Vec<char>| v@).push("--cap-lints=allow"@)
        == rustflags_list(opt_view(encoded), opt_view(plain)));
    let ghost before = flags@;
    let cap = chars_of("--cap-lints=allow");
    flags.push(cap);
    assert(flags@.map_values(|v: Vec<char>| v@) =~= before.map_values(|v: Vec<char>| v@).push("--cap-lints=allow"@));
    let joined = join_pieces(&flags, '\u{1f}');
    string_of(joined.as_slice())
}

/// The environment of a cargo invocation: the log setting, the compiler
/// flags, no snapshot updates, `TRYBUILD=overwrite` where asked for, then the
/// compiler wrapper's variables.
pub open spec fn cargo_env_of(
    rustyrts_log: Seq<char>,
    flags: Seq<char>,
    trybuild_overwrite: bool,
    rustc_wrapper: Seq<(Seq<char>, Seq<char>)>,
) -> Seq<(Seq<char>, Seq<char>)> {
    seq![("RUSTYRTS_LOG"@, rustyrts_log), ("CARGO_ENCODED_RUSTFLAGS"@, flags), ("INSTA_UPDATE"@, "no"@)]
        + (if trybuild_overwrite { seq![("TRYBUILD"@, "overwrite"@)] } else { Seq::empty() })
        + rustc_wrapper
}

/// The views of pairs of strings.
pub open spec fn pair_views(ps: Seq<(String, String)>) -> Seq<(Seq<char>, Seq<char>)> {
    ps.map_values(|p: (String, String)| (p.0@, p.1@))
}

/// A pair of strings from two string slices.
pub(crate) fn pair_of(k: &str, v: &str) -> (r: (String, String))
    ensures
        r.0@ == k@,
        r.1@ == v@,
{
    (string_of(chars_of(k).as_slice()), string_of(chars_of(v).as_slice()))
}

/// The environment variables that a cargo invocation is run with.
pub fn cargo_env(
    rustyrts_log: &str,
    rustflags: &str,
    trybuild_overwrite: bool,
    rustc_wrapper: &Vec<(String, String)>,
) -> (r: Vec<(String, String)>)
    ensures
        pair_views(r@) == cargo_env_of(rustyrts_log@, rustflags@, trybuild_overwrite, pair_views(rustc_wrapper@)),
{
    let mut r: Vec<(String, String)> = Vec::new();
    r.push(pair_of("RUSTYRTS_LOG", rustyrts_log));
    r.push(pair_of("CARGO_ENCODED_RUSTFLAGS", rustflags));
    r.push(pair_of("INSTA_UPDATE", "no"));
    if trybuild_overwrite {
        r.push(pair_of("TRYBUILD", "overwrite"));
    }
    let ghost head = pair_views(r@);
    assert(head =~= seq![("RUSTYRTS_LOG"@, rustyrts_log@), ("CARGO_ENCODED_RUSTFLAGS"@, rustflags@), ("INSTA_UPDATE"@, "no"@)]
        + (if trybuild_overwrite { seq![("TRYBUILD"@, "overwrite"@)] } else { Seq::empty() }));
    let mut i: usize = 0;
    while i < rustc_wrapper.len()
        invariant
            i <= rustc_wrapper@.len(),
            pair_views(r@) == head + pair_views(rustc_wrapper@).take(i as int),
        decreases rustc_wrapper@.len() - i,
    {
        let ghost before = r@;
        let (k, v) = &rustc_wrapper[i];
        r.push(pair_of(k.as_str(), v.as_str()));
        assert(pair_views(r@) =~= pair_views(before).push(pair_views(rustc_wrapper@)[i as int]));
        assert(pair_views(rustc_wrapper@).take(i + 1) =~= pair_views(rustc_wrapper@).take(i as int).push(pair_views(rustc_wrapper@)[i as int]));
        i = i + 1;
    }
    assert(pair_views(rustc_wrapper@).take(rustc_wrapper@.len() as int) =~= pair_views(rustc_wrapper@));
    r
}

} // verus!
