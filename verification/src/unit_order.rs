//! An order of the units of a build in which each unit comes after the
//! units it depends on, where the dependencies form no cycle.

use vstd::prelude::*;
use crate::units::{ChangedUnit, UnitDep, changed_unit_deps, deps_first};

verus! {

/// The dependencies of each unit, as sequences.
pub open spec fn dep_lists(deps: Seq<Vec<UnitDep>>) -> Seq<Seq<UnitDep>> {
    deps.map_values(|v: Vec<UnitDep>| v@)
}

/// `order` lists each unit once and each unit after all the units it
/// depends on.
pub open spec fn is_unit_order(deps: Seq<Seq<UnitDep>>, order: Seq<usize>) -> bool {
    &&& order.no_duplicates()
    &&& forall|k: int| 0 <= k < order.len() ==> (#[trigger] order[k]) < deps.len()
    &&& forall|u: usize| (u as int) < deps.len() ==> #[trigger] order.contains(u)
    &&& forall|k: int, j: int|
        0 <= k < order.len() && 0 <= j < deps[order[k] as int].len() ==> #[trigger] dep_before(deps, order, k, j)
}

/// The unit that the unit at position `k` depends on in its `j`-th
/// dependency comes before position `k`.
pub open spec fn dep_before(deps: Seq<Seq<UnitDep>>, order: Seq<usize>, k: int, j: int) -> bool {
    exists|m: int| 0 <= m < k && order[m] == deps[order[k] as int][j].unit
}

/// The units can be listed so that each comes after its dependencies.
pub open spec fn has_unit_order(deps: Seq<Seq<UnitDep>>) -> bool {
    exists|order: Seq<usize>| is_unit_order(deps, order)
}

/// A unit is ready once every unit it depends on is a unit and is placed.
pub open spec fn ready(deps: Seq<Seq<UnitDep>>, placed: Seq<bool>, u: int) -> bool {
    forall|j: int| 0 <= j < deps[u].len() ==> (#[trigger] deps[u][j]).unit < placed.len()
        && placed[deps[u][j].unit as int]
}

/// The number of units not placed yet.
pub open spec fn unplaced_count(placed: Seq<bool>) -> nat
    decreases placed.len(),
{
    if placed.len() == 0 {
        0
    } else {
        unplaced_count(placed.drop_last()) + if placed.last() { 0nat } else { 1nat }
    }
}

/// Placing an unplaced unit leaves one fewer unplaced.
proof fn lemma_place_one(placed: Seq<bool>, u: int)
    requires
        0 <= u < placed.len(),
        !placed[u],
    ensures
        unplaced_count(placed.update(u, true)) + 1 == unplaced_count(placed),
    decreases placed.len(),
{
    let p = placed.update(u, true);
    if u == placed.len() - 1 {
        assert(p.drop_last() =~= placed.drop_last());
    } else {
        assert(p.drop_last() =~= placed.drop_last().update(u, true));
        lemma_place_one(placed.drop_last(), u);
    }
}

/// Where every unit that is not placed waits for a unit that is not placed
/// (or for no unit at all), no order exists: the first of the unplaced in
/// such an order would have to follow one of them.
proof fn lemma_no_order(deps: Seq<Seq<UnitDep>>, placed: Seq<bool>, u0: usize)
    requires
        placed.len() == deps.len(),
        u0 < deps.len(),
        !placed[u0 as int],
        forall|u: int| 0 <= u < deps.len() && !placed[u] ==> !(#[trigger] ready(deps, placed, u)),
    ensures
        !has_unit_order(deps),
{
    if has_unit_order(deps) {
        let order = choose|order: Seq<usize>| is_unit_order(deps, order);
        assert(order.contains(u0));
        let k0 = choose|k: int| 0 <= k < order.len() && order[k] == u0;
        lemma_prefix_placed(deps, placed, order, k0);
        assert(placed[order[k0] as int]);
    }
}

/// In an order, every unit up to position `k` is placed.
proof fn lemma_prefix_placed(deps: Seq<Seq<UnitDep>>, placed: Seq<bool>, order: Seq<usize>, k: int)
    requires
        placed.len() == deps.len(),
        is_unit_order(deps, order),
        0 <= k < order.len(),
        forall|u: int| 0 <= u < deps.len() && !placed[u] ==> !(#[trigger] ready(deps, placed, u)),
    ensures
        forall|m: int| 0 <= m <= k ==> placed[(#[trigger] order[m]) as int],
    decreases k,
{
    if k > 0 {
        lemma_prefix_placed(deps, placed, order, k - 1);
    }
    let u = order[k] as int;
    assert(u < deps.len());
    if !placed[u] {
        assert(!ready(deps, placed, u));
        let j = choose|j: int| 0 <= j < deps[u].len() && !((#[trigger] deps[u][j]).unit < placed.len()
            && placed[deps[u][j].unit as int]);
        assert(dep_before(deps, order, k, j));
        let m = choose|m: int| 0 <= m < k && order[m] == deps[order[k] as int][j].unit;
        assert(order[m] < deps.len());
        assert(placed[order[m] as int]);
        assert(false);
    }
    assert forall|m: int| 0 <= m <= k implies placed[(#[trigger] order[m]) as int] by {
        if m < k {
            assert(placed[order[m] as int]);
        }
    }
}

/// Whether unit `u` is ready.
fn is_ready(deps: &Vec<Vec<UnitDep>>, placed: &Vec<bool>, u: usize) -> (b: bool)
    requires
        u < deps@.len(),
    ensures
        b == ready(dep_lists(deps@), placed@, u as int),
{
    let ghost ds = dep_lists(deps@);
    let d = &deps[u];
    assert(ds[u as int] == d@);
    let mut j: usize = 0;
    while j < d.len()
        invariant
            j <= d@.len(),
            ds == dep_lists(deps@),
            ds[u as int] == d@,
            forall|i: int| 0 <= i < j ==> (#[trigger] ds[u as int][i]).unit < placed@.len()
                && placed@[ds[u as int][i].unit as int],
        decreases d@.len() - j,
    {
        let x = d[j].unit;
        if x >= placed.len() || !placed[x] {
            assert(!((ds[u as int][j as int]).unit < placed@.len() && placed@[ds[u as int][j as int].unit as int]));
            return false;
        }
        j = j + 1;
    }
    true
}

/// An order of the units in which each comes after the units it depends on,
/// where there is one; none where there is none (the dependencies form a
/// cycle, or name a unit that does not exist).
pub fn units_in_order(deps: &Vec<Vec<UnitDep>>) -> (r: Option<Vec<usize>>)
    ensures
        match r {
            Some(order) => is_unit_order(dep_lists(deps@), order@),
            None => !has_unit_order(dep_lists(deps@)),
        },
{
    let ghost ds = dep_lists(deps@);
    let n = deps.len();
    let mut placed: Vec<bool> = Vec::new();
    let mut i: usize = 0;
    while i < n
        invariant
            i <= n,
            n == deps@.len(),
            placed@.len() == i,
            forall|u: int| 0 <= u < i ==> !placed@[u],
        decreases n - i,
    {
        placed.push(false);
        i = i + 1;
    }
    let mut order: Vec<usize> = Vec::new();
    loop
        invariant
            n == deps@.len(),
            ds == dep_lists(deps@),
            placed@.len() == n,
            order@.no_duplicates(),
            forall|k: int| 0 <= k < order@.len() ==> (#[trigger] order@[k]) < n,
            forall|u: int| 0 <= u < n ==> (placed@[u] <==> order@.contains(u as usize)),
            forall|k: int, j: int|
                0 <= k < order@.len() && 0 <= j < ds[order@[k] as int].len() ==> #[trigger] dep_before(ds, order@, k, j),
        decreases unplaced_count(placed@),
    {
        let mut u: usize = 0;
        let mut first_unplaced: Option<usize> = None;
        let mut found = false;
        while u < n && !found
            invariant
                u <= n,
                n == deps@.len(),
                placed@.len() == n,
                ds == dep_lists(deps@),
                found ==> u < n && !placed@[u as int] && ready(ds, placed@, u as int),
                forall|v: int| 0 <= v < u && !placed@[v] ==> !(#[trigger] ready(ds, placed@, v)),
                match first_unplaced {
                    Some(f) => f < n && !placed@[f as int],
                    None => forall|v: int| 0 <= v < u ==> placed@[v],
                },
            decreases n - u + (if found { 0int } else { 1int }),
        {
            if !placed[u] {
                if first_unplaced.is_none() {
                    first_unplaced = Some(u);
                }
                if is_ready(deps, &placed, u) {
                    found = true;
                } else {
                    u = u + 1;
                }
            } else {
                u = u + 1;
            }
        }
        if !found {
            match first_unplaced {
                None => {
                    assert forall|v: usize| (v as int) < ds.len() implies #[trigger] order@.contains(v) by {
                        assert(placed@[v as int]);
                    }
                    return Some(order);
                },
                Some(f) => {
                    proof { lemma_no_order(ds, placed@, f); }
                    return None;
                },
            }
        }
        assert(!placed@[u as int] && ready(ds, placed@, u as int));
        let ghost before_order = order@;
        let ghost before_placed = placed@;
        proof { lemma_place_one(placed@, u as int); }
        order.push(u);
        placed.set(u, true);
        assert forall|v: int| 0 <= v < n implies (placed@[v] <==> order@.contains(v as usize)) by {
            if v == u as int {
                assert(order@[order@.len() - 1] == u);
            } else if placed@[v] {
                assert(before_placed[v]);
                let k = choose|k: int| 0 <= k < before_order.len() && before_order[k] == v as usize;
                assert(order@[k] == v as usize);
            } else if order@.contains(v as usize) {
                let k = choose|k: int| 0 <= k < order@.len() && order@[k] == v as usize;
                assert(k < before_order.len());
                assert(before_order.contains(v as usize));
            }
        }
        assert(order@.no_duplicates()) by {
            assert(!before_order.contains(u));
        }
        assert forall|k: int, j: int|
            0 <= k < order@.len() && 0 <= j < ds[order@[k] as int].len() implies #[trigger] dep_before(ds, order@, k, j) by {
            if k < before_order.len() {
                assert(order@[k] == before_order[k]);
                assert(dep_before(ds, before_order, k, j));
                let m = choose|m: int| 0 <= m < k && before_order[m] == ds[before_order[k] as int][j].unit;
                assert(order@[m] == before_order[m]);
            } else {
                assert(order@[k] == u);
                let x = ds[u as int][j].unit;
                assert(x < before_placed.len() && before_placed[x as int]);
                let m = choose|m: int| 0 <= m < before_order.len() && before_order[m] == x;
                assert(order@[m] == x);
            }
        }
    }
}


/// The names of a list of strings.
pub open spec fn string_views(v: Seq<String>) -> Seq<Seq<char>> {
    v.map_values(|s: String| s@)
}

/// A copy of a list of strings.
fn copy_strings(v: &Vec<String>) -> (r: Vec<String>)
    ensures
        string_views(r@) == string_views(v@),
{
    let mut r: Vec<String> = Vec::new();
    let mut i: usize = 0;
    while i < v.len()
        invariant
            i <= v@.len(),
            string_views(r@) == string_views(v@).take(i as int),
        decreases v@.len() - i,
    {
        let ghost before = r@;
        r.push(v[i].clone());
        assert(string_views(r@) =~= string_views(before).push(v@[i as int]@));
        assert(string_views(v@).take(i + 1) =~= string_views(v@).take(i as int).push(v@[i as int]@));
        i = i + 1;
    }
    assert(string_views(v@).take(v@.len() as int) =~= string_views(v@));
    r
}

/// The position of each unit in `order`.
fn positions(order: &Vec<usize>, n: usize) -> (pos: Vec<usize>)
    requires
        order@.no_duplicates(),
        forall|k: int| 0 <= k < order@.len() ==> (#[trigger] order@[k]) < n,
    ensures
        pos@.len() == n,
        forall|k: int| 0 <= k < order@.len() ==> pos@[(#[trigger] order@[k]) as int] == k,
{
    let mut pos: Vec<usize> = Vec::new();
    let mut i: usize = 0;
    while i < n
        invariant
            i <= n,
            pos@.len() == i,
        decreases n - i,
    {
        pos.push(0);
        i = i + 1;
    }
    let mut k: usize = 0;
    while k < order.len()
        invariant
            k <= order@.len(),
            pos@.len() == n,
            order@.no_duplicates(),
            forall|m: int| 0 <= m < order@.len() ==> (#[trigger] order@[m]) < n,
            forall|m: int| 0 <= m < k ==> pos@[(#[trigger] order@[m]) as int] == m,
        decreases order@.len() - k,
    {
        let ghost before = pos@;
        pos.set(order[k], k);
        assert forall|m: int| 0 <= m < k + 1 implies pos@[(#[trigger] order@[m]) as int] == m by {
            if m < k {
                assert(order@[m] != order@[k as int]);
                assert(pos@[order@[m] as int] == before[order@[m] as int]);
            }
        }
        k = k + 1;
    }
    pos
}

/// The units in `order`, each unit's dependencies given by their positions
/// in that order: unit `k` of the result is unit `order[k]`, with the same
/// changes and, for each dependency, the position of the unit it names.
pub open spec fn is_reordered(units: Seq<ChangedUnit>, order: Seq<usize>, r: Seq<ChangedUnit>) -> bool {
    &&& r.len() == order.len()
    &&& forall|k: int| 0 <= k < r.len() ==> string_views((#[trigger] r[k]).changes@)
        == string_views(units[order[k] as int].changes@)
    &&& forall|k: int| 0 <= k < r.len() ==> (#[trigger] r[k]).deps@.len()
        == units[order[k] as int].deps@.len()
    &&& forall|k: int, j: int| 0 <= k < r.len() && 0 <= j < r[k].deps@.len() ==> {
        let d = units[order[k] as int].deps@[j];
        let e = #[trigger] r[k].deps@[j];
        &&& order[e.unit as int] == d.unit
        &&& e.build == d.build
        &&& e.proc_macro == d.proc_macro
    }
}

/// The units listed in `order`, renumbered so that each unit's dependencies
/// come before it, as changes are gathered over units.
pub fn in_unit_order(units: &Vec<ChangedUnit>, order: &Vec<usize>) -> (r: Vec<ChangedUnit>)
    requires
        is_unit_order(changed_unit_deps(units@), order@),
    ensures
        is_reordered(units@, order@, r@),
        deps_first(changed_unit_deps(r@)),
{
    let ghost ds = changed_unit_deps(units@);
    let pos = positions(order, units.len());
    let mut r: Vec<ChangedUnit> = Vec::new();
    let mut k: usize = 0;
    while k < order.len()
        invariant
            k <= order@.len(),
            r@.len() == k,
            ds == changed_unit_deps(units@),
            is_unit_order(ds, order@),
            pos@.len() == units@.len(),
            forall|m: int| 0 <= m < order@.len() ==> pos@[(#[trigger] order@[m]) as int] == m,
            is_reordered(units@, order@.take(k as int), r@),
            deps_first(changed_unit_deps(r@)),
        decreases order@.len() - k,
    {
        let u = &units[order[k]];
        assert(ds[order@[k as int] as int] == u.deps@);
        let changes = copy_strings(&u.changes);
        let mut deps: Vec<UnitDep> = Vec::new();
        let mut j: usize = 0;
        while j < u.deps.len()
            invariant
                j <= u.deps@.len(),
                k < order@.len(),
                u == units@[order@[k as int] as int],
                ds == changed_unit_deps(units@),
                ds[order@[k as int] as int] == u.deps@,
                is_unit_order(ds, order@),
                pos@.len() == units@.len(),
                forall|m: int| 0 <= m < order@.len() ==> pos@[(#[trigger] order@[m]) as int] == m,
                deps@.len() == j,
                forall|i: int| 0 <= i < j ==> {
                    let d = u.deps@[i];
                    let e = #[trigger] deps@[i];
                    &&& order@[e.unit as int] == d.unit
                    &&& e.build == d.build
                    &&& e.proc_macro == d.proc_macro
                    &&& e.unit < k
                },
            decreases u.deps@.len() - j,
        {
            let d = u.deps[j];
            assert(dep_before(ds, order@, k as int, j as int));
            let ghost m = choose|m: int| 0 <= m < k && order@[m] == ds[order@[k as int] as int][j as int].unit;
            assert(d.unit < units@.len());
            let p = pos[d.unit];
            assert(p == m);
            deps.push(UnitDep { unit: p, build: d.build, proc_macro: d.proc_macro });
            j = j + 1;
        }
        let ghost before = r@;
        r.push(ChangedUnit { changes, deps });
        proof {
            let o = order@.take(k + 1);
            assert(o.take(k as int) =~= order@.take(k as int));
            assert forall|i: int| 0 <= i < k implies (#[trigger] o[i]) == order@.take(k as int)[i] by {}
            assert(is_reordered(units@, o, r@)) by {
                assert forall|i: int| 0 <= i < r@.len() implies string_views((#[trigger] r@[i]).changes@)
                    == string_views(units@[o[i] as int].changes@) by {
                    if i < k {
                        assert(r@[i] == before[i]);
                    }
                }
                assert forall|i: int| 0 <= i < r@.len() implies (#[trigger] r@[i]).deps@.len()
                    == units@[o[i] as int].deps@.len() by {
                    if i < k {
                        assert(r@[i] == before[i]);
                    }
                }
                assert forall|i: int, j: int| 0 <= i < r@.len() && 0 <= j < r@[i].deps@.len() implies {
                    let d = units@[o[i] as int].deps@[j];
                    let e = #[trigger] r@[i].deps@[j];
                    &&& o[e.unit as int] == d.unit
                    &&& e.build == d.build
                    &&& e.proc_macro == d.proc_macro
                } by {
                    if i < k {
                        assert(r@[i] == before[i]);
                        let e = before[i].deps@[j];
                        assert(deps_first(changed_unit_deps(before)));
                        assert(changed_unit_deps(before)[i][j] == e);
                        assert(e.unit < i);
                    } else {
                        let e = deps@[j];
                        assert(e.unit < k);
                    }
                }
            }
            assert(deps_first(changed_unit_deps(r@))) by {
                assert forall|i: int, j: int| 0 <= i < changed_unit_deps(r@).len() && 0 <= j < changed_unit_deps(r@)[i].len()
                    implies (#[trigger] changed_unit_deps(r@)[i][j]).unit < i by {
                    if i < k {
                        assert(r@[i] == before[i]);
                        assert(changed_unit_deps(before)[i][j] == changed_unit_deps(r@)[i][j]);
                    } else {
                        assert(changed_unit_deps(r@)[i][j] == deps@[j]);
                    }
                }
            }
        }
        k = k + 1;
    }
    assert(order@.take(order@.len() as int) =~= order@);
    r
}

} // verus!
