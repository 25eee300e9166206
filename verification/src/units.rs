//! Changes and reached nodes over the units of a build. A unit sees the
//! changes of the libraries it is built against, and in static selection
//! the nodes that reach them through its own dependency graph.

use vstd::prelude::*;
use crate::callbacks_shared::{add_name, name_set};
use crate::graph::{reachable, DependencyGraph};

verus! {

/// A dependency of a unit: the unit depended on, whether it is built as a
/// library, and whether it is a procedural macro.
#[derive(Debug, Clone, Copy, PartialEq, Eq)]
pub struct UnitDep {
    pub unit: usize,
    pub build: bool,
    pub proc_macro: bool,
}

/// A unit as dynamic selection reads it: the nodes that changed in it, and
/// its dependencies.
pub struct ChangedUnit {
    pub changes: Vec<String>,
    pub deps: Vec<UnitDep>,
}

/// Each unit's dependencies are listed before it.
pub open spec fn deps_first(deps: Seq<Seq<UnitDep>>) -> bool {
    forall|i: int, j: int| 0 <= i < deps.len() && 0 <= j < deps[i].len() ==> (#[trigger] deps[i][j]).unit < i
}

/// The dependencies of each unit.
pub open spec fn changed_unit_deps(units: Seq<ChangedUnit>) -> Seq<Seq<UnitDep>> {
    units.map_values(|u: ChangedUnit| u.deps@)
}

/// A dependency whose changes count in dynamic selection: a library that
/// is no procedural macro.
pub open spec fn counts_dynamically(d: UnitDep) -> bool {
    d.build && !d.proc_macro
}

/// The changes that unit `i` sees in dynamic selection: its own, and those
/// that each library it depends on sees.
pub open spec fn changes_of(units: Seq<ChangedUnit>, i: int) -> Set<Seq<char>>
    decreases i, 1int, 0int,
{
    if 0 <= i < units.len() {
        name_set(units[i].changes@) + dep_changes(units, i, units[i].deps@.len() as int)
    } else {
        Set::empty()
    }
}

/// The changes that the first `k` dependencies of unit `i` pass on.
pub open spec fn dep_changes(units: Seq<ChangedUnit>, i: int, k: int) -> Set<Seq<char>>
    decreases i, 0int, k,
{
    if k <= 0 || !(0 <= i < units.len()) || k > units[i].deps@.len() {
        Set::empty()
    } else {
        let d = units[i].deps@[k - 1];
        dep_changes(units, i, k - 1) + if counts_dynamically(d) && d.unit < i {
            changes_of(units, d.unit as int)
        } else {
            Set::empty()
        }
    }
}

/// Adds each name of `src` to `out`, unless it is there.
fn add_names(out: &mut Vec<String>, src: &Vec<String>)
    requires
        old(out)@.map_values(|s: String| s@).no_duplicates(),
    ensures
        final(out)@.map_values(|s: String| s@).no_duplicates(),
        name_set(final(out)@) == name_set(old(out)@) + name_set(src@),
{
    let ghost start = name_set(out@);
    let mut i: usize = 0;
    while i < src.len()
        invariant
            i <= src@.len(),
            out@.map_values(|s: String| s@).no_duplicates(),
            name_set(out@) == start + name_set(src@.take(i as int)),
        decreases src@.len() - i,
    {
        add_name(out, &src[i]);
        proof {
            assert(src@.take(i + 1) =~= src@.take(i as int).push(src@[i as int]));
            crate::seqs::lemma_push_to_set(src@.take(i as int).map_values(|s: String| s@), src@[i as int]@);
            assert(src@.take(i + 1).map_values(|s: String| s@) =~= src@.take(i as int).map_values(|s: String| s@).push(src@[i as int]@));
            assert(name_set(out@) =~= start + name_set(src@.take(i + 1)));
        }
        i = i + 1;
    }
    assert(src@.take(src@.len() as int) =~= src@);
}

/// The changes that each unit sees in dynamic selection, each once.
pub fn dynamic_unit_changes(units: &Vec<ChangedUnit>) -> (r: Vec<Vec<String>>)
    requires
        deps_first(changed_unit_deps(units@)),
    ensures
        r@.len() == units@.len(),
        forall|i: int| 0 <= i < r@.len() ==> (#[trigger] r@[i])@.map_values(|s: String| s@).no_duplicates(),
        forall|i: int| 0 <= i < r@.len() ==> name_set((#[trigger] r@[i])@) == changes_of(units@, i),
{
    let mut r: Vec<Vec<String>> = Vec::new();
    let mut i: usize = 0;
    while i < units.len()
        invariant
            i <= units@.len(),
            r@.len() == i,
            deps_first(changed_unit_deps(units@)),
            forall|k: int| 0 <= k < i ==> (#[trigger] r@[k])@.map_values(|s: String| s@).no_duplicates(),
            forall|k: int| 0 <= k < i ==> name_set((#[trigger] r@[k])@) == changes_of(units@, k),
        decreases units@.len() - i,
    {
        let u = &units[i];
        let mut acc: Vec<String> = Vec::new();
        assert(acc@.map_values(|s: String| s@) =~= Seq::empty());
        add_names(&mut acc, &u.changes);
        assert(name_set(acc@) =~= name_set(u.changes@) + dep_changes(units@, i as int, 0));
        let mut j: usize = 0;
        while j < u.deps.len()
            invariant
                j <= u.deps@.len(),
                u == units@[i as int],
                i < units@.len(),
                r@.len() == i,
                deps_first(changed_unit_deps(units@)),
                forall|k: int| 0 <= k < i ==> name_set((#[trigger] r@[k])@) == changes_of(units@, k),
                acc@.map_values(|s: String| s@).no_duplicates(),
                name_set(acc@) == name_set(u.changes@) + dep_changes(units@, i as int, j as int),
            decreases u.deps@.len() - j,
        {
            let d = u.deps[j];
            assert(changed_unit_deps(units@)[i as int][j as int] == d);
            if d.build && !d.proc_macro {
                add_names(&mut acc, &r[d.unit]);
                assert(name_set(acc@) =~= name_set(u.changes@) + dep_changes(units@, i as int, j + 1));
            } else {
                assert(name_set(acc@) =~= name_set(u.changes@) + dep_changes(units@, i as int, j + 1));
            }
            j = j + 1;
        }
        assert(name_set(acc@) == changes_of(units@, i as int));
        r.push(acc);
        i = i + 1;
    }
    r
}

/// A unit as static selection reads it: the nodes that changed in it, its
/// dependency graph, and its dependencies.
pub struct GraphUnit {
    pub changes: Vec<String>,
    pub graph: DependencyGraph,
    pub deps: Vec<UnitDep>,
}

/// The dependencies of each unit.
pub open spec fn graph_unit_deps(units: Seq<GraphUnit>) -> Seq<Seq<UnitDep>> {
    units.map_values(|u: GraphUnit| u.deps@)
}

/// The changes that unit `i` sees in static selection: its own, and those
/// that each library it depends on sees.
pub open spec fn static_changes_of(units: Seq<GraphUnit>, i: int) -> Set<Seq<char>>
    decreases i, 1int, 0int,
{
    if 0 <= i < units.len() {
        name_set(units[i].changes@) + static_dep_changes(units, i, units[i].deps@.len() as int)
    } else {
        Set::empty()
    }
}

/// The changes that the first `k` dependencies of unit `i` pass on.
pub open spec fn static_dep_changes(units: Seq<GraphUnit>, i: int, k: int) -> Set<Seq<char>>
    decreases i, 0int, k,
{
    if k <= 0 || !(0 <= i < units.len()) || k > units[i].deps@.len() {
        Set::empty()
    } else {
        let d = units[i].deps@[k - 1];
        static_dep_changes(units, i, k - 1) + if d.build && d.unit < i {
            static_changes_of(units, d.unit as int)
        } else {
            Set::empty()
        }
    }
}

/// The nodes of unit `i` that reach a change: those that reach, in its own
/// graph, one of its own changes or a node of a library it depends on that
/// reaches a change there.
pub open spec fn reached_in(units: Seq<GraphUnit>, i: int) -> Set<Seq<char>>
    decreases i, 1int, 0int,
{
    if 0 <= i < units.len() {
        reachable(
            units[i].graph.view(),
            name_set(units[i].changes@) + dep_reached(units, i, units[i].deps@.len() as int),
        )
    } else {
        Set::empty()
    }
}

/// The reaching nodes that the first `k` dependencies of unit `i` pass on.
pub open spec fn dep_reached(units: Seq<GraphUnit>, i: int, k: int) -> Set<Seq<char>>
    decreases i, 0int, k,
{
    if k <= 0 || !(0 <= i < units.len()) || k > units[i].deps@.len() {
        Set::empty()
    } else {
        let d = units[i].deps@[k - 1];
        dep_reached(units, i, k - 1) + if d.build && d.unit < i {
            reached_in(units, d.unit as int)
        } else {
            Set::empty()
        }
    }
}

/// Appends the names of `src`.
fn append_names(out: &mut Vec<String>, src: &Vec<String>)
    ensures
        name_set(final(out)@) == name_set(old(out)@) + name_set(src@),
{
    let ghost start = name_set(out@);
    let mut i: usize = 0;
    while i < src.len()
        invariant
            i <= src@.len(),
            name_set(out@) == start + name_set(src@.take(i as int)),
        decreases src@.len() - i,
    {
        let ghost before = out@;
        out.push(src[i].clone());
        proof {
            assert(src@.take(i + 1) =~= src@.take(i as int).push(src@[i as int]));
            crate::seqs::lemma_push_to_set(before.map_values(|s: String| s@), out@.last()@);
            assert(out@.map_values(|s: String| s@) =~= before.map_values(|s: String| s@).push(out@.last()@));
            crate::seqs::lemma_push_to_set(src@.take(i as int).map_values(|s: String| s@), src@[i as int]@);
            assert(src@.take(i + 1).map_values(|s: String| s@) =~= src@.take(i as int).map_values(|s: String| s@).push(src@[i as int]@));
            assert(name_set(out@) =~= start + name_set(src@.take(i + 1)));
        }
        i = i + 1;
    }
    assert(src@.take(src@.len() as int) =~= src@);
}

/// For each unit in static selection: the changes it sees, each once, and
/// its nodes that reach a change, each once.
pub fn static_unit_nodes(units: &Vec<GraphUnit>) -> (r: Vec<(Vec<String>, Vec<String>)>)
    requires
        deps_first(graph_unit_deps(units@)),
        forall|i: int| 0 <= i < units@.len() ==> (#[trigger] units@[i]).graph.wf(),
    ensures
        r@.len() == units@.len(),
        forall|i: int| 0 <= i < r@.len() ==> (#[trigger] r@[i]).0@.map_values(|s: String| s@).no_duplicates(),
        forall|i: int| 0 <= i < r@.len() ==> name_set((#[trigger] r@[i]).0@) == static_changes_of(units@, i),
        forall|i: int| 0 <= i < r@.len() ==> (#[trigger] r@[i]).1@.map_values(|s: String| s@).no_duplicates(),
        forall|i: int| 0 <= i < r@.len() ==> name_set((#[trigger] r@[i]).1@) == reached_in(units@, i),
{
    let mut r: Vec<(Vec<String>, Vec<String>)> = Vec::new();
    let mut i: usize = 0;
    while i < units.len()
        invariant
            i <= units@.len(),
            r@.len() == i,
            deps_first(graph_unit_deps(units@)),
            forall|k: int| 0 <= k < units@.len() ==> (#[trigger] units@[k]).graph.wf(),
            forall|k: int| 0 <= k < i ==> (#[trigger] r@[k]).0@.map_values(|s: String| s@).no_duplicates(),
            forall|k: int| 0 <= k < i ==> name_set((#[trigger] r@[k]).0@) == static_changes_of(units@, k),
            forall|k: int| 0 <= k < i ==> (#[trigger] r@[k]).1@.map_values(|s: String| s@).no_duplicates(),
            forall|k: int| 0 <= k < i ==> name_set((#[trigger] r@[k]).1@) == reached_in(units@, k),
        decreases units@.len() - i,
    {
        let u = &units[i];
        let mut changes: Vec<String> = Vec::new();
        assert(changes@.map_values(|s: String| s@) =~= Seq::empty());
        add_names(&mut changes, &u.changes);
        let mut starts: Vec<String> = Vec::new();
        append_names(&mut starts, &u.changes);
        assert(name_set(changes@) =~= name_set(u.changes@) + static_dep_changes(units@, i as int, 0));
        assert(name_set(starts@) =~= name_set(u.changes@) + dep_reached(units@, i as int, 0));
        let mut j: usize = 0;
        while j < u.deps.len()
            invariant
                j <= u.deps@.len(),
                u == units@[i as int],
                i < units@.len(),
                r@.len() == i,
                deps_first(graph_unit_deps(units@)),
                forall|k: int| 0 <= k < i ==> name_set((#[trigger] r@[k]).0@) == static_changes_of(units@, k),
                forall|k: int| 0 <= k < i ==> name_set((#[trigger] r@[k]).1@) == reached_in(units@, k),
                changes@.map_values(|s: String| s@).no_duplicates(),
                name_set(changes@) == name_set(u.changes@) + static_dep_changes(units@, i as int, j as int),
                name_set(starts@) == name_set(u.changes@) + dep_reached(units@, i as int, j as int),
            decreases u.deps@.len() - j,
        {
            let d = u.deps[j];
            assert(graph_unit_deps(units@)[i as int][j as int] == d);
            if d.build {
                add_names(&mut changes, &r[d.unit].0);
                append_names(&mut starts, &r[d.unit].1);
            }
            assert(name_set(changes@) =~= name_set(u.changes@) + static_dep_changes(units@, i as int, j + 1));
            assert(name_set(starts@) =~= name_set(u.changes@) + dep_reached(units@, i as int, j + 1));
            j = j + 1;
        }
        let reached = u.graph.reachable_nodes(&starts);
        assert(name_set(changes@) == static_changes_of(units@, i as int));
        assert(name_set(reached@) == reached_in(units@, i as int));
        r.push((changes, reached));
        i = i + 1;
    }
    r
}

proof fn lemma_dep_changes_grow(units: Seq<ChangedUnit>, i: int, j: int, k: int)
    requires
        0 <= i < units.len(),
        0 <= j < k <= units[i].deps@.len(),
        counts_dynamically(units[i].deps@[j]),
        units[i].deps@[j].unit < i,
    ensures
        changes_of(units, units[i].deps@[j].unit as int).subset_of(dep_changes(units, i, k)),
    decreases k,
{
    if k - 1 > j {
        lemma_dep_changes_grow(units, i, j, k - 1);
    }
}

/// In dynamic selection a unit sees every change that a library it depends
/// on sees, unless that library is a procedural macro.
pub proof fn lemma_library_changes_seen(units: Seq<ChangedUnit>, i: int, j: int)
    requires
        0 <= i < units.len(),
        0 <= j < units[i].deps@.len(),
        counts_dynamically(units[i].deps@[j]),
        units[i].deps@[j].unit < i,
    ensures
        changes_of(units, units[i].deps@[j].unit as int).subset_of(changes_of(units, i)),
{
    lemma_dep_changes_grow(units, i, j, units[i].deps@.len() as int);
}

proof fn lemma_dep_reached_grow(units: Seq<GraphUnit>, i: int, j: int, k: int)
    requires
        0 <= i < units.len(),
        0 <= j < k <= units[i].deps@.len(),
        units[i].deps@[j].build,
        units[i].deps@[j].unit < i,
    ensures
        reached_in(units, units[i].deps@[j].unit as int).subset_of(dep_reached(units, i, k)),
    decreases k,
{
    if k - 1 > j {
        lemma_dep_reached_grow(units, i, j, k - 1);
    }
}

/// In static selection a node of a library that reaches a change counts as
/// reaching a change in every unit built against that library.
pub proof fn lemma_library_reach_seen(units: Seq<GraphUnit>, i: int, j: int)
    requires
        0 <= i < units.len(),
        0 <= j < units[i].deps@.len(),
        units[i].deps@[j].build,
        units[i].deps@[j].unit < i,
    ensures
        reached_in(units, units[i].deps@[j].unit as int).subset_of(reached_in(units, i)),
{
    lemma_dep_reached_grow(units, i, j, units[i].deps@.len() as int);
    let starts = name_set(units[i].changes@) + dep_reached(units, i, units[i].deps@.len() as int);
    assert forall|n: Seq<char>| starts.contains(n) implies reachable(units[i].graph.view(), starts).contains(n) by {
        assert(crate::graph::reach_within(units[i].graph.view(), starts, 0).contains(n));
    }
    assert(reached_in(units, i) == reachable(units[i].graph.view(), starts));
    assert(dep_reached(units, i, units[i].deps@.len() as int).subset_of(starts));
}

} // verus!
