//! What the compiler callbacks share: the compile mode of a crate, which
//! crates are left alone, and which nodes changed between two revisions.

use vstd::prelude::*;
use crate::checksums::{Checksums, pairs_map};

verus! {

/// The prefix of the entry function of a doctest.
pub open spec fn doctest_prefix() -> Seq<char> {
    seq!['r', 'u', 's', 't', '_', 'o', 'u', 't', ':', ':', '_', 'd', 'o', 'c', 't', 'e', 's', 't', '_', 'm', 'a', 'i', 'n', '_']
}

/// The prefix of the entry function of a doctest: `rust_out::_doctest_main_`.
pub fn doctest_prefix_text() -> (r: Vec<char>)
    ensures
        r@ == doctest_prefix(),
{
    let r = crate::text::literal("rust_out::_doctest_main_");
    proof {
        reveal_strlit("rust_out::_doctest_main_");
    }
    assert(r@ == doctest_prefix());
    r
}

/// The mode in which a crate is compiled.
#[derive(PartialEq, Eq, Debug, Clone, Copy, Structural)]
pub enum CompileMode {
    Build,
    Test,
    Doctest,
}

/// The name of a compile mode.
pub open spec fn compile_mode_name(m: CompileMode) -> Seq<char> {
    match m {
        CompileMode::Build => seq!['B', 'u', 'i', 'l', 'd'],
        CompileMode::Test => seq!['T', 'e', 's', 't'],
        CompileMode::Doctest => seq!['D', 'o', 'c', 't', 'e', 's', 't'],
    }
}

/// The compile mode with the name `s`, if any.
pub open spec fn compile_mode_named(s: Seq<char>) -> Option<CompileMode> {
    if s == compile_mode_name(CompileMode::Build) {
        Some(CompileMode::Build)
    } else if s == compile_mode_name(CompileMode::Test) {
        Some(CompileMode::Test)
    } else if s == compile_mode_name(CompileMode::Doctest) {
        Some(CompileMode::Doctest)
    } else {
        None
    }
}

impl CompileMode {
    /// The name of the mode: `Build`, `Test` or `Doctest`.
    pub fn as_str(&self) -> (s: &'static str)
        ensures
            s@ == compile_mode_name(*self),
    {
        match self {
            CompileMode::Build => {
                proof { reveal_strlit("Build"); }
                "Build"
            },
            CompileMode::Test => {
                proof { reveal_strlit("Test"); }
                "Test"
            },
            CompileMode::Doctest => {
                proof { reveal_strlit("Doctest"); }
                "Doctest"
            },
        }
    }

    /// The mode named `value`; any other name is refused.
    pub fn try_from_str(value: &str) -> (r: Result<CompileMode, ()>)
        ensures
            r matches Ok(m) ==> compile_mode_named(value@) == Some(m),
            r is Err <==> compile_mode_named(value@) is None,
    {
        let v = crate::text::chars_of(value);
        let build = crate::text::literal("Build");
        let test = crate::text::literal("Test");
        let doctest = crate::text::literal("Doctest");
        proof {
            reveal_strlit("Build");
            reveal_strlit("Test");
            reveal_strlit("Doctest");
        }
        assert(build@ == compile_mode_name(CompileMode::Build));
        assert(test@ == compile_mode_name(CompileMode::Test));
        assert(doctest@ == compile_mode_name(CompileMode::Doctest));
        if crate::text::same_chars(v.as_slice(), build.as_slice()) {
            Ok(CompileMode::Build)
        } else if crate::text::same_chars(v.as_slice(), test.as_slice()) {
            Ok(CompileMode::Test)
        } else if crate::text::same_chars(v.as_slice(), doctest.as_slice()) {
            Ok(CompileMode::Doctest)
        } else {
            Err(())
        }
    }
}

/// Reading a mode's name gives back the mode.
pub proof fn lemma_compile_mode_roundtrip(m: CompileMode)
    ensures
        compile_mode_named(compile_mode_name(m)) == Some(m),
{
    assert(compile_mode_name(CompileMode::Build) != compile_mode_name(CompileMode::Test));
    assert(compile_mode_name(CompileMode::Build) != compile_mode_name(CompileMode::Doctest));
    assert(compile_mode_name(CompileMode::Test) != compile_mode_name(CompileMode::Doctest));
}

/// A name that is read as a mode is that mode's name.
pub proof fn lemma_compile_mode_named(s: Seq<char>)
    ensures
        compile_mode_named(s) matches Some(m) ==> compile_mode_name(m) == s,
{
}

/// The crates that are never analysed: build scripts.
pub open spec fn excluded_crate(name: Seq<char>) -> bool {
    name == seq!['b', 'u', 'i', 'l', 'd', '_', 's', 'c', 'r', 'i', 'p', 't', '_', 'b', 'u', 'i', 'l', 'd']
        || name == seq!['b', 'u', 'i', 'l', 'd', '_', 's', 'c', 'r', 'i', 'p', 't', '_', 'm', 'a', 'i', 'n']
}

/// The target directories of `trybuild` end in this.
pub open spec fn trybuild_suffix() -> Seq<char> {
    seq!['t', 'r', 'y', 'b', 'u', 'i', 'l', 'd']
}

/// Whether the crate is left uninstrumented, given the target directory
/// that cargo set, if any: a build script, or a crate compiled by
/// `trybuild` (its target directory ends in `trybuild`).
pub fn no_instrumentation(crate_name: &str, target_dir: Option<&str>) -> (b: bool)
    ensures
        b == (excluded_crate(crate_name@) || (target_dir matches Some(d) && crate::text::ends_with(
            d@,
            trybuild_suffix(),
        ))),
{
    let name = crate::text::chars_of(crate_name);
    let a = crate::text::literal("build_script_build");
    let m = crate::text::literal("build_script_main");
    let t = crate::text::literal("trybuild");
    proof {
        reveal_strlit("build_script_build");
        reveal_strlit("build_script_main");
        reveal_strlit("trybuild");
    }
    assert(t@ == trybuild_suffix());
    assert(a@ == seq!['b', 'u', 'i', 'l', 'd', '_', 's', 'c', 'r', 'i', 'p', 't', '_', 'b', 'u', 'i', 'l', 'd']);
    assert(m@ == seq!['b', 'u', 'i', 'l', 'd', '_', 's', 'c', 'r', 'i', 'p', 't', '_', 'm', 'a', 'i', 'n']);
    let excluded = crate::text::same_chars(name.as_slice(), a.as_slice())
        || crate::text::same_chars(name.as_slice(), m.as_slice());
    let trybuild = match target_dir {
        Some(d) => {
            let dir = crate::text::chars_of(d);
            crate::text::ends_with_exec(dir.as_slice(), t.as_slice())
        },
        None => false,
    };
    excluded || trybuild
}

/// The names whose checksums are new or differ from the old ones.
pub open spec fn altered(
    new: Map<Seq<char>, Set<(u64, u64)>>,
    old: Map<Seq<char>, Set<(u64, u64)>>,
) -> Set<Seq<char>> {
    Set::new(|n: Seq<char>| new.contains_key(n) && (!old.contains_key(n) || new[n] != old[n]))
}

/// The names of the primary revision with a checksum that the secondary
/// revision lacks.
pub open spec fn uncovered(
    primary: Map<Seq<char>, Set<(u64, u64)>>,
    secondary: Map<Seq<char>, Set<(u64, u64)>>,
) -> Set<Seq<char>> {
    Set::new(
        |n: Seq<char>|
            primary.contains_key(n) && (!secondary.contains_key(n) || !primary[n].subset_of(
                secondary[n],
            )),
    )
}

/// The changed nodes: those whose regular or const checksums are new or
/// altered, and those whose vtable checksums in the primary revision (the
/// new one when `from_new_revision`, else the old one) are not all in the
/// other revision.
pub open spec fn changed_nodes(
    from_new_revision: bool,
    new: Map<Seq<char>, Set<(u64, u64)>>,
    new_vtbl: Map<Seq<char>, Set<(u64, u64)>>,
    new_const: Map<Seq<char>, Set<(u64, u64)>>,
    old: Map<Seq<char>, Set<(u64, u64)>>,
    old_vtbl: Map<Seq<char>, Set<(u64, u64)>>,
    old_const: Map<Seq<char>, Set<(u64, u64)>>,
) -> Set<Seq<char>> {
    altered(new, old) + (if from_new_revision {
        uncovered(new_vtbl, old_vtbl)
    } else {
        uncovered(old_vtbl, new_vtbl)
    }) + altered(new_const, old_const)
}

/// The names held by a list of strings.
pub open spec fn name_set(v: Seq<String>) -> Set<Seq<char>> {
    v.map_values(|s: String| s@).to_set()
}

/// Adds `n` to the names, unless it is there.
pub(crate) fn add_name(out: &mut Vec<String>, n: &String)
    requires
        old(out)@.map_values(|s: String| s@).no_duplicates(),
    ensures
        final(out)@.map_values(|s: String| s@).no_duplicates(),
        name_set(final(out)@) == name_set(old(out)@).insert(n@),
{
    let ghost before = out@.map_values(|s: String| s@);
    let mut i: usize = 0;
    while i < out.len()
        invariant
            i <= out@.len(),
            before == out@.map_values(|s: String| s@),
            before.no_duplicates(),
            forall|j: int| 0 <= j < i ==> before[j] != n@,
        decreases out@.len() - i,
    {
        if out[i] == *n {
            assert(before[i as int] == n@);
            assert(name_set(out@).contains(n@));
            assert(name_set(out@).insert(n@) =~= name_set(out@));
            return;
        }
        i = i + 1;
    }
    out.push(n.clone());
    proof {
        assert(out@.map_values(|s: String| s@) =~= before.push(n@));
        crate::seqs::lemma_push_no_duplicates(before, n@);
        crate::seqs::lemma_push_to_set(before, n@);
    }
}

/// `n` has one of the first `j` pairs that `sp` lacks, and `known` holds it.
spec fn wanted(
    ps: Seq<(Seq<char>, (u64, u64))>,
    sp: Set<(Seq<char>, (u64, u64))>,
    known: Option<&Checksums>,
    n: Seq<char>,
    j: int,
) -> bool {
    (exists|i: int| 0 <= i < j && ps[i].0 == n && !sp.contains(ps[i])) && match known {
        Some(k) => k@.contains_key(n),
        None => true,
    }
}

/// Adds the names of `p` that have a checksum missing from `s`; with
/// `known`, only names that `known` holds.
fn add_uncovered(out: &mut Vec<String>, p: &Checksums, s: &Checksums, known: Option<&Checksums>)
    requires
        old(out)@.map_values(|x: String| x@).no_duplicates(),
    ensures
        final(out)@.map_values(|x: String| x@).no_duplicates(),
        name_set(final(out)@) == name_set(old(out)@) + Set::new(
            |n: Seq<char>|
                (exists|c: (u64, u64)| p.pairs().contains((n, c)) && !s.pairs().contains((n, c)))
                    && match known {
                    Some(k) => k@.contains_key(n),
                    None => true,
                },
        ),
{
    let es = p.entries();
    let ghost ps = p.entry_seq();
    let ghost start = name_set(out@);
    let mut i: usize = 0;
    while i < es.len()
        invariant
            i <= es@.len() == ps.len(),
            es@.map_values(|e: (String, (u64, u64))| (e.0@, e.1)) == ps,
            ps == p.entry_seq(),
            out@.map_values(|x: String| x@).no_duplicates(),
            name_set(out@) == start + Set::new(|n: Seq<char>| wanted(ps, s.pairs(), known, n, i as int)),
        decreases es@.len() - i,
    {
        assert(ps[i as int] == (es@[i as int].0@, es@[i as int].1));
        let missing = !s.contains(&es[i].0, es[i].1);
        let keep = match known {
            Some(k) => k.contains_key(&es[i].0),
            None => true,
        };
        let ghost before = name_set(out@);
        if missing && keep {
            add_name(out, &es[i].0);
        }
        assert(name_set(out@) =~= start + Set::new(|n: Seq<char>| wanted(ps, s.pairs(), known, n, i + 1))) by {
            assert forall|n: Seq<char>| wanted(ps, s.pairs(), known, n, i + 1) == (wanted(ps, s.pairs(), known, n, i as int) || (n == ps[i as int].0 && missing && keep)) by {
                if wanted(ps, s.pairs(), known, n, i + 1) && !wanted(ps, s.pairs(), known, n, i as int) {
                    let j = choose|j: int| 0 <= j < i + 1 && ps[j].0 == n && !s.pairs().contains(ps[j]);
                    assert(j == i);
                }
            }
        }
        i = i + 1;
    }
    assert(Set::new(|n: Seq<char>| wanted(ps, s.pairs(), known, n, ps.len() as int)) =~= Set::new(
        |n: Seq<char>|
            (exists|c: (u64, u64)| p.pairs().contains((n, c)) && !s.pairs().contains((n, c)))
                && match known {
                Some(k) => k@.contains_key(n),
                None => true,
            },
    )) by {
        assert forall|n: Seq<char>| wanted(ps, s.pairs(), known, n, ps.len() as int) <==> ((exists|c: (u64, u64)| p.pairs().contains((n, c)) && !s.pairs().contains((n, c)))
                && match known {
                Some(k) => k@.contains_key(n),
                None => true,
            }) by {
            if wanted(ps, s.pairs(), known, n, ps.len() as int) {
                let j = choose|j: int| 0 <= j < ps.len() && ps[j].0 == n && !s.pairs().contains(ps[j]);
                assert(p.pairs().contains((n, ps[j].1)));
            }
            if exists|c: (u64, u64)| p.pairs().contains((n, c)) && !s.pairs().contains((n, c)) {
                let c = choose|c: (u64, u64)| p.pairs().contains((n, c)) && !s.pairs().contains((n, c));
                let j = choose|j: int| 0 <= j < ps.len() && ps[j] == (n, c);
                assert(ps[j].0 == n);
            }
        }
    }
}

/// The names whose checksums are new or altered, stated over the pairs.
proof fn lemma_altered_pairs(np: Set<(Seq<char>, (u64, u64))>, op: Set<(Seq<char>, (u64, u64))>)
    ensures
        altered(pairs_map(np), pairs_map(op)) == Set::new(
            |n: Seq<char>| exists|c: (u64, u64)| np.contains((n, c)) && !op.contains((n, c)),
        ) + Set::new(
            |n: Seq<char>|
                (exists|c: (u64, u64)| op.contains((n, c)) && !np.contains((n, c))) && pairs_map(
                    np,
                ).contains_key(n),
        ),
{
    let new = pairs_map(np);
    let old = pairs_map(op);
    let rhs = Set::new(
        |n: Seq<char>| exists|c: (u64, u64)| np.contains((n, c)) && !op.contains((n, c)),
    ) + Set::new(
        |n: Seq<char>|
            (exists|c: (u64, u64)| op.contains((n, c)) && !np.contains((n, c))) && new.contains_key(n),
    );
    assert forall|n: Seq<char>| altered(new, old).contains(n) <==> rhs.contains(n) by {
        if altered(new, old).contains(n) {
            let c0 = choose|c: (u64, u64)| np.contains((n, c));
            if !old.contains_key(n) {
                assert(!op.contains((n, c0)));
            } else {
                assert(new[n] != old[n]);
                if forall|c: (u64, u64)| np.contains((n, c)) == op.contains((n, c)) {
                    assert(new[n] =~= old[n]);
                }
            }
        }
        if rhs.contains(n) {
            if exists|c: (u64, u64)| np.contains((n, c)) && !op.contains((n, c)) {
                let c = choose|c: (u64, u64)| np.contains((n, c)) && !op.contains((n, c));
                assert(new.contains_key(n));
                if old.contains_key(n) {
                    assert(new[n].contains(c) && !old[n].contains(c));
                }
            } else {
                let c = choose|c: (u64, u64)| op.contains((n, c)) && !np.contains((n, c));
                assert(old.contains_key(n));
                assert(old[n].contains(c) && !new[n].contains(c));
            }
        }
    }
    assert(altered(new, old) =~= rhs);
}

/// The uncovered names, stated over the pairs.
proof fn lemma_uncovered_pairs(pp: Set<(Seq<char>, (u64, u64))>, sp: Set<(Seq<char>, (u64, u64))>)
    ensures
        uncovered(pairs_map(pp), pairs_map(sp)) == Set::new(
            |n: Seq<char>| exists|c: (u64, u64)| pp.contains((n, c)) && !sp.contains((n, c)),
        ),
{
    let p = pairs_map(pp);
    let s = pairs_map(sp);
    let rhs = Set::new(
        |n: Seq<char>| exists|c: (u64, u64)| pp.contains((n, c)) && !sp.contains((n, c)),
    );
    assert forall|n: Seq<char>| uncovered(p, s).contains(n) <==> rhs.contains(n) by {
        if uncovered(p, s).contains(n) {
            let c0 = choose|c: (u64, u64)| pp.contains((n, c));
            if !s.contains_key(n) {
                assert(!sp.contains((n, c0)));
            } else {
                let c = choose|c: (u64, u64)| p[n].contains(c) && !s[n].contains(c);
                assert(pp.contains((n, c)) && !sp.contains((n, c)));
            }
        }
        if rhs.contains(n) {
            let c = choose|c: (u64, u64)| pp.contains((n, c)) && !sp.contains((n, c));
            assert(p.contains_key(n));
            if s.contains_key(n) {
                assert(p[n].contains(c) && !s[n].contains(c));
            }
        }
    }
    assert(uncovered(p, s) =~= rhs);
}

/// The names of the nodes that changed between the old and the new
/// revision, each once.
pub fn calculate_changes(
    from_new_revision: bool,
    new_checksums: &Checksums,
    new_checksums_vtbl: &Checksums,
    new_checksums_const: &Checksums,
    old_checksums: &Checksums,
    old_checksums_vtbl: &Checksums,
    old_checksums_const: &Checksums,
) -> (r: Vec<String>)
    ensures
        r@.map_values(|s: String| s@).no_duplicates(),
        name_set(r@) == changed_nodes(
            from_new_revision,
            new_checksums@,
            new_checksums_vtbl@,
            new_checksums_const@,
            old_checksums@,
            old_checksums_vtbl@,
            old_checksums_const@,
        ),
{
    let mut out: Vec<String> = Vec::new();
    assert(out@.map_values(|s: String| s@) =~= Seq::empty());
    assert(name_set(out@) =~= Set::empty());
    add_uncovered(&mut out, new_checksums, old_checksums, None);
    add_uncovered(&mut out, old_checksums, new_checksums, Some(new_checksums));
    if from_new_revision {
        add_uncovered(&mut out, new_checksums_vtbl, old_checksums_vtbl, None);
    } else {
        add_uncovered(&mut out, old_checksums_vtbl, new_checksums_vtbl, None);
    }
    add_uncovered(&mut out, new_checksums_const, old_checksums_const, None);
    add_uncovered(&mut out, old_checksums_const, new_checksums_const, Some(new_checksums_const));
    proof {
        lemma_altered_pairs(new_checksums.pairs(), old_checksums.pairs());
        lemma_altered_pairs(new_checksums_const.pairs(), old_checksums_const.pairs());
        lemma_uncovered_pairs(new_checksums_vtbl.pairs(), old_checksums_vtbl.pairs());
        lemma_uncovered_pairs(old_checksums_vtbl.pairs(), new_checksums_vtbl.pairs());
        assert(name_set(out@) =~= changed_nodes(
            from_new_revision,
            new_checksums@,
            new_checksums_vtbl@,
            new_checksums_const@,
            old_checksums@,
            old_checksums_vtbl@,
            old_checksums_const@,
        ));
    }
    out
}

/// When no checksum differs between the revisions, no node changed.
pub proof fn lemma_unchanged_revisions(
    from_new_revision: bool,
    checksums: Map<Seq<char>, Set<(u64, u64)>>,
    vtbl: Map<Seq<char>, Set<(u64, u64)>>,
    consts: Map<Seq<char>, Set<(u64, u64)>>,
)
    ensures
        changed_nodes(from_new_revision, checksums, vtbl, consts, checksums, vtbl, consts)
            == Set::<Seq<char>>::empty(),
{
    assert(altered(checksums, checksums) =~= Set::empty());
    assert(altered(consts, consts) =~= Set::empty());
    assert(uncovered(vtbl, vtbl) =~= Set::empty());
    assert(changed_nodes(from_new_revision, checksums, vtbl, consts, checksums, vtbl, consts)
        =~= Set::empty());
}

/// Where there is no earlier revision, every node that has a checksum in
/// the new one counts as changed.
pub proof fn lemma_first_revision(
    checksums: Map<Seq<char>, Set<(u64, u64)>>,
    vtbl: Map<Seq<char>, Set<(u64, u64)>>,
    consts: Map<Seq<char>, Set<(u64, u64)>>,
)
    ensures
        changed_nodes(true, checksums, vtbl, consts, Map::empty(), Map::empty(), Map::empty())
            == checksums.dom() + vtbl.dom() + consts.dom(),
{
    assert(altered(checksums, Map::empty()) =~= checksums.dom());
    assert(altered(consts, Map::empty()) =~= consts.dom());
    assert(uncovered(vtbl, Map::empty()) =~= vtbl.dom());
}

/// Whether the changes of a cache count vtable entries from the new
/// revision: static selection looks at the new revision, dynamic selection
/// at the old one, whose traces it holds.
pub open spec fn counts_from_new_revision(kind: crate::fs_utils::CacheKind) -> bool {
    kind == crate::fs_utils::CacheKind::Static
}

/// The text written for the changed nodes of a crate into the cache
/// `cache_kind`: the changed nodes, each once, one per line; nothing where
/// no node changed.
pub fn export_changes(
    cache_kind: crate::fs_utils::CacheKind,
    new_checksums: &Checksums,
    new_checksums_vtbl: &Checksums,
    new_checksums_const: &Checksums,
    old_checksums: &Checksums,
    old_checksums_vtbl: &Checksums,
    old_checksums_const: &Checksums,
) -> (r: Option<String>)
    requires
        cache_kind != crate::fs_utils::CacheKind::General,
    ensures
        ({
            let changed = changed_nodes(
                counts_from_new_revision(cache_kind),
                new_checksums@,
                new_checksums_vtbl@,
                new_checksums_const@,
                old_checksums@,
                old_checksums_vtbl@,
                old_checksums_const@,
            );
            &&& r is None <==> changed.is_empty()
            &&& r matches Some(text) ==> exists|ns: Seq<Seq<char>>|
                {
                    &&& ns.no_duplicates()
                    &&& ns.to_set() == changed
                    &&& text@ == crate::text::joined_with(ns, seq!['\n'])
                }
        }),
{
    let from_new_revision = match cache_kind {
        crate::fs_utils::CacheKind::Static => true,
        _ => false,
    };
    let changed = calculate_changes(
        from_new_revision,
        new_checksums,
        new_checksums_vtbl,
        new_checksums_const,
        old_checksums,
        old_checksums_vtbl,
        old_checksums_const,
    );
    let ghost ns = changed@.map_values(|s: String| s@);
    if changed.len() == 0 {
        assert(name_set(changed@) =~= Set::empty());
        return None;
    }
    proof {
        assert(ns.len() > 0);
        assert(name_set(changed@).contains(ns[0]));
    }
    let mut out: Vec<char> = Vec::new();
    let mut i: usize = 0;
    while i < changed.len()
        invariant
            i <= changed@.len(),
            ns == changed@.map_values(|s: String| s@),
            out@ == crate::text::joined_with(ns.take(i as int), seq!['\n']),
        decreases changed@.len() - i,
    {
        if i > 0 {
            out.push('\n');
        }
        let c = crate::text::chars_of(changed[i].as_str());
        crate::text::extend_chars(&mut out, c.as_slice());
        proof {
            assert(ns[i as int] == changed@[i as int]@);
            assert(ns.take(i + 1).drop_last() =~= ns.take(i as int));
            assert(ns.take(i + 1).last() == ns[i as int]);
            if i > 0 {
                assert(out@ =~= crate::text::joined_with(ns.take(i as int), seq!['\n']) + seq!['\n'] + ns[i as int]);
            }
        }
        i = i + 1;
    }
    assert(ns.take(changed@.len() as int) =~= ns);
    Some(crate::text::string_of(out.as_slice()))
}

} // verus!
