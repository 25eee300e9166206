//! Checksums of the nodes of a crate: each node name maps to the set of the
//! 128-bit checksums found for it (bodies that share a path may differ).

use vstd::prelude::*;
use crate::line_format::{
    ByteOrder, entries_lines, lines_bytes, names_are_utf8, plain_entries, read_entries,
    read_entries_exec, push_entries, native_order, lemma_entries_roundtrip,
};

verus! {

/// A set of named checksums, seen as the map from each name to its checksums.
pub open spec fn pairs_map(ps: Set<(Seq<char>, (u64, u64))>) -> Map<Seq<char>, Set<(u64, u64)>> {
    Map::new(
        |n: Seq<char>| exists|c: (u64, u64)| ps.contains((n, c)),
        |n: Seq<char>| Set::new(|c: (u64, u64)| ps.contains((n, c))),
    )
}

/// The named checksums, as a set of pairs, of a sequence of them.
pub open spec fn entry_pairs(es: Seq<(Seq<char>, (u64, u64))>) -> Set<(Seq<char>, (u64, u64))> {
    es.to_set()
}

/// Checksums of nodes, several per node name.
#[derive(Debug)]
pub struct Checksums {
    entries: Vec<(String, (u64, u64))>,
}

impl Checksums {
    /// The named checksums in the order they are kept.
    pub closed spec fn entry_seq(&self) -> Seq<(Seq<char>, (u64, u64))> {
        self.entries@.map_values(|e: (String, (u64, u64))| (e.0@, e.1))
    }

    /// The named checksums as a set of pairs.
    pub open spec fn pairs(&self) -> Set<(Seq<char>, (u64, u64))> {
        entry_pairs(self.entry_seq())
    }

    /// Each name maps to its checksums.
    pub open spec fn view(&self) -> Map<Seq<char>, Set<(u64, u64)>> {
        pairs_map(self.pairs())
    }

    /// No named checksum is kept twice.
    pub open spec fn wf(&self) -> bool {
        self.entry_seq().no_duplicates()
    }

    /// The bytes written for these checksums in the byte order `o`.
    pub open spec fn written(&self, o: ByteOrder) -> Seq<u8> {
        lines_bytes(entries_lines(self.entry_seq(), o))
    }

    /// No checksums.
    pub fn new() -> (r: Checksums)
        ensures
            r.wf(),
            r.pairs() == Set::<(Seq<char>, (u64, u64))>::empty(),
            r@ == Map::<Seq<char>, Set<(u64, u64)>>::empty(),
    {
        let r = Checksums { entries: Vec::new() };
        assert(r.entry_seq() =~= Seq::empty());
        assert(r.pairs() =~= Set::empty());
        assert(r@ =~= Map::empty());
        r
    }

    /// Whether `name` has the checksum `c`.
    pub fn contains(&self, name: &String, c: (u64, u64)) -> (b: bool)
        ensures
            b == self.pairs().contains((name@, c)),
    {
        let mut i: usize = 0;
        while i < self.entries.len()
            invariant
                i <= self.entries@.len(),
                forall|j: int| 0 <= j < i ==> self.entry_seq()[j] != (name@, c),
            decreases self.entries@.len() - i,
        {
            assert(self.entry_seq()[i as int] == (self.entries@[i as int].0@, self.entries@[i as int].1));
            if self.entries[i].1.0 == c.0 && self.entries[i].1.1 == c.1 && self.entries[i].0 == *name {
                assert(self.entry_seq().contains((name@, c)));
                return true;
            }
            i = i + 1;
        }
        false
    }

    /// Whether `name` has any checksum.
    pub fn contains_key(&self, name: &String) -> (b: bool)
        ensures
            b == self@.contains_key(name@),
    {
        let mut i: usize = 0;
        while i < self.entries.len()
            invariant
                i <= self.entries@.len(),
                forall|j: int| 0 <= j < i ==> self.entry_seq()[j].0 != name@,
            decreases self.entries@.len() - i,
        {
            assert(self.entry_seq()[i as int] == (self.entries@[i as int].0@, self.entries@[i as int].1));
            if self.entries[i].0 == *name {
                assert(self.pairs().contains(self.entry_seq()[i as int]));
                return true;
            }
            i = i + 1;
        }
        assert forall|c: (u64, u64)| !self.pairs().contains((name@, c)) by {
            if self.pairs().contains((name@, c)) {
                let j = choose|j: int| 0 <= j < self.entry_seq().len() && self.entry_seq()[j] == (name@, c);
                assert(self.entry_seq()[j].0 == name@);
            }
        }
        false
    }

    /// The checksums of `name`, each once.
    pub fn checksums_of(&self, name: &String) -> (r: Vec<(u64, u64)>)
        requires
            self.wf(),
        ensures
            r@.no_duplicates(),
            forall|c: (u64, u64)| r@.contains(c) <==> self.pairs().contains((name@, c)),
    {
        let mut r: Vec<(u64, u64)> = Vec::new();
        let mut i: usize = 0;
        while i < self.entries.len()
            invariant
                self.wf(),
                i <= self.entries@.len(),
                r@.no_duplicates(),
                forall|c: (u64, u64)| r@.contains(c) <==> exists|j: int| 0 <= j < i && self.entry_seq()[j] == (name@, c),
            decreases self.entries@.len() - i,
        {
            assert(self.entry_seq()[i as int] == (self.entries@[i as int].0@, self.entries@[i as int].1));
            if self.entries[i].0 == *name {
                let c = self.entries[i].1;
                let ghost before = r@;
                proof {
                    if r@.contains(c) {
                        let j = choose|j: int| 0 <= j < i && self.entry_seq()[j] == (name@, c);
                        assert(self.entry_seq()[j] == self.entry_seq()[i as int]);
                    }
                    crate::seqs::lemma_push_no_duplicates(r@, c);
                    crate::seqs::lemma_push_contains(r@, c);
                }
                r.push(c);
                assert forall|d: (u64, u64)| r@.contains(d) <==> exists|j: int| 0 <= j < i + 1 && self.entry_seq()[j] == (name@, d) by {
                    assert(r@ == before.push(c));
                    if exists|j: int| 0 <= j < i + 1 && self.entry_seq()[j] == (name@, d) {
                        let j = choose|j: int| 0 <= j < i + 1 && self.entry_seq()[j] == (name@, d);
                        if j < i {
                            assert(before.contains(d));
                        }
                    }
                }
            } else {
                assert forall|d: (u64, u64)| r@.contains(d) <==> exists|j: int| 0 <= j < i + 1 && self.entry_seq()[j] == (name@, d) by {
                    if exists|j: int| 0 <= j < i + 1 && self.entry_seq()[j] == (name@, d) {
                        let j = choose|j: int| 0 <= j < i + 1 && self.entry_seq()[j] == (name@, d);
                        assert(j != i);
                    }
                }
            }
            i = i + 1;
        }
        r
    }
}

impl Checksums {
    /// Every pair of `self` is a pair of `other`.
    fn pairs_within(&self, other: &Checksums) -> (b: bool)
        ensures
            b == self.pairs().subset_of(other.pairs()),
    {
        let mut i: usize = 0;
        while i < self.entries.len()
            invariant
                i <= self.entries@.len(),
                forall|j: int| 0 <= j < i ==> other.pairs().contains(#[trigger] self.entry_seq()[j]),
            decreases self.entries@.len() - i,
        {
            assert(self.entry_seq()[i as int] == (self.entries@[i as int].0@, self.entries@[i as int].1));
            if !other.contains(&self.entries[i].0, self.entries[i].1) {
                assert(self.pairs().contains(self.entry_seq()[i as int]));
                return false;
            }
            i = i + 1;
        }
        assert forall|x| self.pairs().contains(x) implies other.pairs().contains(x) by {
            let j = choose|j: int| 0 <= j < self.entry_seq().len() && self.entry_seq()[j] == x;
        }
        true
    }

    /// Both hold the same named checksums.
    pub fn same_as(&self, other: &Checksums) -> (b: bool)
        ensures
            b == (self.pairs() == other.pairs()),
    {
        let a = self.pairs_within(other);
        let b = other.pairs_within(self);
        proof {
            if a && b {
                assert(self.pairs() =~= other.pairs());
            }
        }
        a && b
    }

    /// These checksums written as lines, each number's bytes in the order `o`.
    pub fn to_bytes_in(&self, o: ByteOrder) -> (r: Vec<u8>)
        ensures
            r@ == self.written(o),
    {
        let mut out: Vec<u8> = Vec::new();
        push_entries(&mut out, &self.entries, o);
        assert(out@ =~= self.written(o));
        out
    }

    /// These checksums written as lines in the machine's byte order.
    pub fn to_bytes(&self) -> (r: Vec<u8>)
        ensures
            exists|o: ByteOrder| r@ == self.written(o),
    {
        let o = native_order();
        self.to_bytes_in(o)
    }

    /// The checksums read from the lines of `b`, each number's bytes in the
    /// order `o`.
    pub fn from_bytes_in(b: &[u8], o: ByteOrder) -> (r: Checksums)
        requires
            names_are_utf8(b@),
        ensures
            r.wf(),
            r.pairs() == read_entries(b@, o).to_set(),
    {
        let es = read_entries_exec(b, o);
        let mut r = Checksums::new();
        let mut i: usize = 0;
        while i < es.len()
            invariant
                i <= es@.len() == read_entries(b@, o).len(),
                forall|j: int|
                    0 <= j < es@.len() ==> (#[trigger] es@[j]).0@ == read_entries(b@, o)[j].0
                        && es@[j].1 == read_entries(b@, o)[j].1,
                r.wf(),
                r.pairs() == read_entries(b@, o).take(i as int).to_set(),
            decreases es@.len() - i,
        {
            insert_hashmap(&mut r, &es[i].0, es[i].1);
            proof {
                let rs = read_entries(b@, o);
                assert(rs.take(i + 1) == rs.take(i as int).push(rs[i as int]));
                crate::seqs::lemma_push_to_set(rs.take(i as int), rs[i as int]);
            }
            i = i + 1;
        }
        assert(read_entries(b@, o).take(es@.len() as int) == read_entries(b@, o));
        r
    }

    /// The checksums read from the lines of `b` in the machine's byte order.
    pub fn from_bytes(b: &[u8]) -> (r: Checksums)
        requires
            names_are_utf8(b@),
        ensures
            r.wf(),
            exists|o: ByteOrder| r.pairs() == read_entries(b@, o).to_set(),
    {
        let o = native_order();
        Checksums::from_bytes_in(b, o)
    }
}

/// Adds the checksum `value` to those of `key`.
pub fn insert_hashmap(map: &mut Checksums, key: &String, value: (u64, u64))
    requires
        old(map).wf(),
    ensures
        final(map).wf(),
        final(map).pairs() == old(map).pairs().insert((key@, value)),
        final(map)@ == old(map)@.insert(
            key@,
            if old(map)@.contains_key(key@) {
                old(map)@[key@].insert(value)
            } else {
                set![value]
            },
        ),
{
    proof { lemma_pairs_map_insert(old(map).pairs(), key@, value); }
    if !map.contains(key, value) {
        let ghost before = map.entry_seq();
        map.entries.push((key.clone(), value));
        proof {
            assert(map.entry_seq() =~= before.push((key@, value)));
            crate::seqs::lemma_push_no_duplicates(before, (key@, value));
            crate::seqs::lemma_push_to_set(before, (key@, value));
        }
    } else {
        assert(old(map).pairs().insert((key@, value)) =~= old(map).pairs());
    }
}

/// Adding a pair to a set of pairs adds the checksum to the name's set.
pub proof fn lemma_pairs_map_insert(ps: Set<(Seq<char>, (u64, u64))>, n: Seq<char>, c: (u64, u64))
    ensures
        pairs_map(ps.insert((n, c))) == pairs_map(ps).insert(
            n,
            if pairs_map(ps).contains_key(n) {
                pairs_map(ps)[n].insert(c)
            } else {
                set![c]
            },
        ),
{
    let lhs = pairs_map(ps.insert((n, c)));
    let rhs = pairs_map(ps).insert(
        n,
        if pairs_map(ps).contains_key(n) {
            pairs_map(ps)[n].insert(c)
        } else {
            set![c]
        },
    );
    assert(ps.insert((n, c)).contains((n, c)));
    assert forall|m: Seq<char>| lhs.contains_key(m) <==> rhs.contains_key(m) by {
        if lhs.contains_key(m) && m != n {
            let d = choose|d: (u64, u64)| ps.insert((n, c)).contains((m, d));
            assert(ps.contains((m, d)));
        }
        if rhs.contains_key(m) && m != n {
            let d = choose|d: (u64, u64)| ps.contains((m, d));
            assert(ps.insert((n, c)).contains((m, d)));
        }
    }
    assert forall|m: Seq<char>| lhs.contains_key(m) implies lhs[m] == rhs[m] by {
        if m == n {
            assert(lhs[m] =~= rhs[m]);
        } else {
            assert(lhs[m] =~= rhs[m]);
        }
    }
    assert(lhs =~= rhs);
}

/// Checksums written as lines and read back in the same byte order are the
/// same checksums, when no name's UTF-8 bytes and no checksum's bytes hold a
/// line feed.
pub proof fn lemma_checksums_roundtrip(c: Checksums, o: ByteOrder)
    requires
        forall|p: (Seq<char>, (u64, u64))|
            #[trigger] c.pairs().contains(p) ==> crate::line_format::newline_free(
                vstd::utf8::encode_utf8(p.0),
            ) && crate::line_format::newline_free(crate::line_format::checksum_bytes(p.1, o)),
    ensures
        names_are_utf8(c.written(o)),
        read_entries(c.written(o), o).to_set() == c.pairs(),
{
    let es = c.entry_seq();
    assert forall|i: int| 0 <= i < es.len() implies crate::line_format::newline_free(
        vstd::utf8::encode_utf8(#[trigger] es[i].0),
    ) && crate::line_format::newline_free(crate::line_format::checksum_bytes(es[i].1, o)) by {
        assert(c.pairs().contains(es[i]));
    }
    lemma_entries_roundtrip(es, o);
}

impl Checksums {
    /// The named checksums in the order they are kept.
    pub fn entries(&self) -> (r: &Vec<(String, (u64, u64))>)
        ensures
            r@.map_values(|e: (String, (u64, u64))| (e.0@, e.1)) == self.entry_seq(),
    {
        &self.entries
    }
}

impl PartialEq for Checksums {
    fn eq(&self, other: &Self) -> (r: bool) {
        self.same_as(other)
    }
}

impl vstd::std_specs::cmp::PartialEqSpecImpl for Checksums {
    open spec fn obeys_eq_spec() -> bool {
        true
    }

    open spec fn eq_spec(&self, other: &Self) -> bool {
        self.pairs() == other.pairs()
    }
}

impl Checksums {
    /// Whether `name` has the same checksums here and in `other`.
    fn same_checksums_of(&self, other: &Checksums, name: &String) -> (b: bool)
        ensures
            b == (forall|c: (u64, u64)| self.pairs().contains((name@, c)) <==> other.pairs().contains((name@, c))),
    {
        let mut i: usize = 0;
        while i < self.entries.len()
            invariant
                i <= self.entries@.len(),
                forall|j: int| 0 <= j < i && (#[trigger] self.entry_seq()[j]).0 == name@ ==> other.pairs().contains(self.entry_seq()[j]),
            decreases self.entries@.len() - i,
        {
            assert(self.entry_seq()[i as int] == (self.entries@[i as int].0@, self.entries@[i as int].1));
            if self.entries[i].0 == *name && !other.contains(name, self.entries[i].1) {
                assert(self.pairs().contains(self.entry_seq()[i as int]));
                return false;
            }
            i = i + 1;
        }
        let mut k: usize = 0;
        while k < other.entries.len()
            invariant
                k <= other.entries@.len(),
                forall|c: (u64, u64)| self.pairs().contains((name@, c)) ==> other.pairs().contains((name@, c)),
                forall|j: int| 0 <= j < k && (#[trigger] other.entry_seq()[j]).0 == name@ ==> self.pairs().contains(other.entry_seq()[j]),
            decreases other.entries@.len() - k,
        {
            assert(other.entry_seq()[k as int] == (other.entries@[k as int].0@, other.entries@[k as int].1));
            if other.entries[k].0 == *name && !self.contains(name, other.entries[k].1) {
                assert(other.pairs().contains(other.entry_seq()[k as int]));
                return false;
            }
            k = k + 1;
        }
        assert forall|c: (u64, u64)| other.pairs().contains((name@, c)) implies self.pairs().contains((name@, c)) by {
            let j = choose|j: int| 0 <= j < other.entry_seq().len() && other.entry_seq()[j] == (name@, c);
        }
        true
    }
}

/// Whether one of the first `k` named checksums of `cs` is named `m`.
spec fn among_first(cs: &Checksums, k: int, m: Seq<char>) -> bool {
    exists|j: int| 0 <= j < k && (#[trigger] cs.entry_seq()[j]).0 == m
}

/// The names whose checksums in `new` are not those of `old`, each once:
/// the doctests that changed since the checksums `old` were taken.
pub fn changed_doctests(new: &Checksums, old: &Checksums) -> (r: Vec<String>)
    ensures
        crate::text::names_of(r@).no_duplicates(),
        crate::text::names_of(r@).to_set() == crate::callbacks_shared::altered(new@, old@),
{
    let ghost target = crate::callbacks_shared::altered(new@, old@);
    let mut r: Vec<String> = Vec::new();
    let mut i: usize = 0;
    while i < new.entries.len()
        invariant
            i <= new.entries@.len(),
            target == crate::callbacks_shared::altered(new@, old@),
            crate::text::names_of(r@).no_duplicates(),
            forall|n: Seq<char>| #![trigger crate::text::names_of(r@).contains(n)] #![trigger target.contains(n)]
                crate::text::names_of(r@).contains(n) <==> (target.contains(n) && among_first(new, i as int, n)),
        decreases new.entries@.len() - i,
    {
        let name = &new.entries[i].0;
        assert(new.entry_seq()[i as int] == (new.entries@[i as int].0@, new.entries@[i as int].1));
        let ghost n = name@;
        let listed = crate::text::contains_name(&r, name);
        let known = old.contains_key(name);
        let same = new.same_checksums_of(old, name);
        proof {
            assert(new.pairs().contains(new.entry_seq()[i as int]));
            assert(new@.contains_key(n));
            if known {
                if same {
                    assert(new@[n] =~= old@[n]);
                } else {
                    let c = choose|c: (u64, u64)| !(new.pairs().contains((n, c)) <==> old.pairs().contains((n, c)));
                    assert(new@[n].contains(c) != old@[n].contains(c));
                }
            }
            assert(target.contains(n) == (!known || !same));
        }
        let ghost before = r@;
        if !listed && (!known || !same) {
            r.push(name.clone());
            proof {
                crate::text::lemma_names_push(before, r@.last());
                assert(r@ == before.push(r@.last()));
                crate::seqs::lemma_push_no_duplicates(crate::text::names_of(before), n);
                crate::seqs::lemma_push_contains(crate::text::names_of(before), n);
            }
        }
        assert forall|m: Seq<char>| crate::text::names_of(r@).contains(m) <==> (target.contains(m)
            && among_first(new, i + 1, m)) by {
            if among_first(new, i + 1, m) {
                let j = choose|j: int| 0 <= j < i + 1 && (#[trigger] new.entry_seq()[j]).0 == m;
                if j < i {
                    assert(among_first(new, i as int, m));
                }
            }
            if among_first(new, i as int, m) {
                let j = choose|j: int| 0 <= j < i && (#[trigger] new.entry_seq()[j]).0 == m;
                assert(among_first(new, i + 1, m));
            }
            if m == n {
                assert(new.entry_seq()[i as int].0 == m);
                assert(among_first(new, i + 1, m));
            }
            if crate::text::names_of(before).contains(m) {
                assert(target.contains(m) && among_first(new, i as int, m));
            }
        }
        i = i + 1;
    }
    assert forall|n: Seq<char>| crate::text::names_of(r@).to_set().contains(n) <==> target.contains(n) by {
        if target.contains(n) {
            let c = choose|c: (u64, u64)| new.pairs().contains((n, c));
            let j = choose|j: int| 0 <= j < new.entry_seq().len() && new.entry_seq()[j] == (n, c);
            assert(new.entry_seq()[j].0 == n);
            assert(among_first(new, new.entries@.len() as int, n));
        }
    }
    assert(crate::text::names_of(r@).to_set() =~= target);
    r
}

} // verus!
