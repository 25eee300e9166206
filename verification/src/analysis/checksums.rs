//! Checksums of the nodes of a crate, one 128-bit checksum per node name.

use vstd::prelude::*;
use crate::line_format::{
    ByteOrder, plain_entries, entries_lines, lines_bytes, names_are_utf8, read_entries, read_entries_exec,
    push_entries, native_order, lemma_entries_roundtrip, newline_free, checksum_bytes,
};

verus! {

/// The map built by inserting the named checksums in order; a later entry
/// replaces an earlier one of the same name.
pub open spec fn inserted(es: Seq<(Seq<char>, (u64, u64))>) -> Map<Seq<char>, (u64, u64)> {
    es.fold_left(
        Map::<Seq<char>, (u64, u64)>::empty(),
        |m: Map<Seq<char>, (u64, u64)>, e: (Seq<char>, (u64, u64))| m.insert(e.0, e.1),
    )
}

/// No two entries share a name.
pub open spec fn names_distinct(es: Seq<(Seq<char>, (u64, u64))>) -> bool {
    forall|i: int, j: int| 0 <= i < j < es.len() ==> es[i].0 != es[j].0
}

/// The table from node names to checksums.
#[derive(Debug)]
pub struct ChecksumTable {
    entries: Vec<(String, (u64, u64))>,
}

impl ChecksumTable {
    /// The entries in the order they are kept.
    pub closed spec fn entry_seq(&self) -> Seq<(Seq<char>, (u64, u64))> {
        self.entries@.map_values(|e: (String, (u64, u64))| (e.0@, e.1))
    }

    /// No two entries share a name.
    pub open spec fn wf(&self) -> bool {
        names_distinct(self.entry_seq())
    }

    /// Each name maps to its checksum.
    pub open spec fn view(&self) -> Map<Seq<char>, (u64, u64)> {
        inserted(self.entry_seq())
    }

    /// The entries as a set of pairs.
    pub open spec fn pairs(&self) -> Set<(Seq<char>, (u64, u64))> {
        self.entry_seq().to_set()
    }

    /// The bytes written for this table in the byte order `o`.
    pub open spec fn written(&self, o: ByteOrder) -> Seq<u8> {
        lines_bytes(entries_lines(self.entry_seq(), o))
    }

    /// An empty table.
    pub fn new() -> (r: ChecksumTable)
        ensures
            r.wf(),
            r@ == Map::<Seq<char>, (u64, u64)>::empty(),
    {
        let r = ChecksumTable { entries: Vec::new() };
        assert(r.entry_seq() =~= Seq::empty());
        r
    }

    /// Where `name` is kept, if it is.
    fn position_of(&self, name: &String) -> (r: Option<usize>)
        ensures
            r matches Some(i) ==> i < self.entry_seq().len() && self.entry_seq()[i as int].0 == name@,
            r is None ==> forall|i: int| 0 <= i < self.entry_seq().len() ==> self.entry_seq()[i].0 != name@,
    {
        let mut i: usize = 0;
        while i < self.entries.len()
            invariant
                i <= self.entries@.len(),
                forall|j: int| 0 <= j < i ==> self.entry_seq()[j].0 != name@,
            decreases self.entries@.len() - i,
        {
            assert(self.entry_seq()[i as int] == (self.entries@[i as int].0@, self.entries@[i as int].1));
            if self.entries[i].0 == *name {
                return Some(i);
            }
            i = i + 1;
        }
        None
    }

    /// The checksum of `name`.
    pub fn get(&self, name: &String) -> (r: Option<(u64, u64)>)
        requires
            self.wf(),
        ensures
            r == self@.get(name@),
    {
        proof { lemma_inserted_distinct(self.entry_seq()); }
        match self.position_of(name) {
            Some(i) => {
                assert(self.entry_seq()[i as int] == (self.entries@[i as int].0@, self.entries@[i as int].1));
                Some(self.entries[i].1)
            },
            None => None,
        }
    }

    /// Sets the checksum of `name`, returning the one it replaces.
    pub fn insert(&mut self, name: String, c: (u64, u64)) -> (r: Option<(u64, u64)>)
        requires
            old(self).wf(),
        ensures
            final(self).wf(),
            final(self)@ == old(self)@.insert(name@, c),
            r == old(self)@.get(name@),
    {
        proof { lemma_inserted_distinct(self.entry_seq()); }
        let ghost before = self.entry_seq();
        match self.position_of(&name) {
            Some(i) => {
                assert(self.entry_seq()[i as int] == (self.entries@[i as int].0@, self.entries@[i as int].1));
                let previous = self.entries[i].1;
                let ghost n = name@;
                self.entries.set(i, (name, c));
                proof {
                    assert(self.entry_seq() =~= before.update(i as int, (n, c)));
                    lemma_inserted_update(before, i as int, c);
                }
                Some(previous)
            },
            None => {
                let ghost n = name@;
                self.entries.push((name, c));
                proof {
                    assert(self.entry_seq() =~= before.push((n, c)));
                    assert(self.entry_seq().drop_last() =~= before);
                }
                None
            },
        }
    }
}


impl ChecksumTable {
    /// Whether the entry `(name, c)` is kept.
    fn contains(&self, name: &String, c: (u64, u64)) -> (b: bool)
        ensures
            b == self.pairs().contains((name@, c)),
    {
        let mut i: usize = 0;
        while i < self.entries.len()
            invariant
                i <= self.entries@.len(),
                forall|j: int| 0 <= j < i ==> self.entry_seq()[j] != (name@, c),
            decreases self.entries@.len() - i,
        {
            assert(self.entry_seq()[i as int] == (self.entries@[i as int].0@, self.entries@[i as int].1));
            if self.entries[i].1.0 == c.0 && self.entries[i].1.1 == c.1 && self.entries[i].0 == *name {
                assert(self.entry_seq().contains((name@, c)));
                return true;
            }
            i = i + 1;
        }
        false
    }

    /// Every entry of `self` is an entry of `other`.
    fn pairs_within(&self, other: &ChecksumTable) -> (b: bool)
        ensures
            b == self.pairs().subset_of(other.pairs()),
    {
        let mut i: usize = 0;
        while i < self.entries.len()
            invariant
                i <= self.entries@.len(),
                forall|j: int| 0 <= j < i ==> other.pairs().contains(#[trigger] self.entry_seq()[j]),
            decreases self.entries@.len() - i,
        {
            assert(self.entry_seq()[i as int] == (self.entries@[i as int].0@, self.entries@[i as int].1));
            if !other.contains(&self.entries[i].0, self.entries[i].1) {
                assert(self.pairs().contains(self.entry_seq()[i as int]));
                return false;
            }
            i = i + 1;
        }
        assert forall|x| self.pairs().contains(x) implies other.pairs().contains(x) by {
            let j = choose|j: int| 0 <= j < self.entry_seq().len() && self.entry_seq()[j] == x;
        }
        true
    }

    /// Both hold the same entries.
    pub fn same_as(&self, other: &ChecksumTable) -> (b: bool)
        ensures
            b == (self.pairs() == other.pairs()),
    {
        let a = self.pairs_within(other);
        let b = other.pairs_within(self);
        proof {
            if a && b {
                assert(self.pairs() =~= other.pairs());
            }
        }
        a && b
    }
}

/// What the map of distinct entries holds.
pub proof fn lemma_inserted_distinct(es: Seq<(Seq<char>, (u64, u64))>)
    requires
        names_distinct(es),
    ensures
        forall|n: Seq<char>| #[trigger] inserted(es).contains_key(n) <==> exists|i: int| 0 <= i < es.len() && es[i].0 == n,
        forall|i: int| 0 <= i < es.len() ==> #[trigger] inserted(es)[es[i].0] == es[i].1,
    decreases es.len(),
{
    if es.len() > 0 {
        let front = es.drop_last();
        assert(names_distinct(front));
        lemma_inserted_distinct(front);
        let x = es.last();
        assert(inserted(es) == inserted(front).insert(x.0, x.1));
        assert forall|n: Seq<char>| #[trigger] inserted(es).contains_key(n) <==> exists|i: int| 0 <= i < es.len() && es[i].0 == n by {
            if exists|i: int| 0 <= i < es.len() && es[i].0 == n {
                let i = choose|i: int| 0 <= i < es.len() && es[i].0 == n;
                if i < es.len() - 1 {
                    assert(front[i].0 == n);
                }
            }
            if inserted(front).contains_key(n) {
                let i = choose|i: int| 0 <= i < front.len() && front[i].0 == n;
                assert(es[i].0 == n);
            }
        }
        assert forall|i: int| 0 <= i < es.len() implies #[trigger] inserted(es)[es[i].0] == es[i].1 by {
            if i < es.len() - 1 {
                assert(front[i] == es[i]);
                assert(es[i].0 != x.0);
            }
        }
    }
}

/// Updating the entry of a name in place is inserting its new checksum.
proof fn lemma_inserted_update(es: Seq<(Seq<char>, (u64, u64))>, i: int, c: (u64, u64))
    requires
        names_distinct(es),
        0 <= i < es.len(),
    ensures
        names_distinct(es.update(i, (es[i].0, c))),
        inserted(es.update(i, (es[i].0, c))) == inserted(es).insert(es[i].0, c),
{
    let es2 = es.update(i, (es[i].0, c));
    assert(names_distinct(es2));
    lemma_inserted_distinct(es);
    lemma_inserted_distinct(es2);
    let lhs = inserted(es2);
    let rhs = inserted(es).insert(es[i].0, c);
    assert forall|n: Seq<char>| lhs.contains_key(n) <==> rhs.contains_key(n) by {
        if lhs.contains_key(n) {
            let j = choose|j: int| 0 <= j < es2.len() && es2[j].0 == n;
            assert(es[j].0 == n);
        }
        if rhs.contains_key(n) && n != es[i].0 {
            let j = choose|j: int| 0 <= j < es.len() && es[j].0 == n;
            assert(es2[j].0 == n);
        }
        if n == es[i].0 {
            assert(es2[i].0 == n);
        }
    }
    assert forall|n: Seq<char>| lhs.contains_key(n) implies lhs[n] == rhs[n] by {
        let j = choose|j: int| 0 <= j < es2.len() && es2[j].0 == n;
        assert(lhs[es2[j].0] == es2[j].1);
        if j != i {
            assert(rhs[es[j].0] == es[j].1);
        }
    }
    assert(lhs =~= rhs);
}

/// Checksums of nodes, one per node name.
#[derive(Debug)]
pub struct Checksums {
    inner: ChecksumTable,
}

impl Checksums {
    /// The table of checksums.
    pub closed spec fn table(&self) -> ChecksumTable {
        self.inner
    }

    /// Each name maps to its checksum.
    pub open spec fn view(&self) -> Map<Seq<char>, (u64, u64)> {
        self.table()@
    }

    /// No checksums.
    pub fn new() -> (r: Checksums)
        ensures
            r.table().wf(),
            r@ == Map::<Seq<char>, (u64, u64)>::empty(),
    {
        Checksums { inner: ChecksumTable::new() }
    }

    /// The table, to read or change.
    pub fn inner(&mut self) -> (r: &mut ChecksumTable)
        ensures
            *r == old(self).table(),
            final(self).table() == *final(r),
    {
        &mut self.inner
    }
}

impl Checksums {
    /// These checksums written as lines, each number's bytes in the order `o`.
    pub fn to_bytes_in(&self, o: ByteOrder) -> (r: Vec<u8>)
        ensures
            r@ == self.table().written(o),
    {
        let mut out: Vec<u8> = Vec::new();
        push_entries(&mut out, &self.inner.entries, o);
        assert(out@ =~= self.table().written(o));
        out
    }

    /// These checksums written as lines in the machine's byte order.
    pub fn to_bytes(&self) -> (r: Vec<u8>)
        ensures
            exists|o: ByteOrder| r@ == self.table().written(o),
    {
        let o = native_order();
        self.to_bytes_in(o)
    }

    /// The checksums read from the lines of `b`, each number's bytes in the
    /// order `o`; of two lines with the same name the later one counts.
    pub fn from_bytes_in(b: &[u8], o: ByteOrder) -> (r: Checksums)
        requires
            names_are_utf8(b@),
        ensures
            r.table().wf(),
            r@ == inserted(read_entries(b@, o)),
    {
        let es = read_entries_exec(b, o);
        let mut r = Checksums::new();
        let mut i: usize = 0;
        while i < es.len()
            invariant
                i <= es@.len() == read_entries(b@, o).len(),
                forall|j: int|
                    0 <= j < es@.len() ==> (#[trigger] es@[j]).0@ == read_entries(b@, o)[j].0
                        && es@[j].1 == read_entries(b@, o)[j].1,
                r.table().wf(),
                r@ == inserted(read_entries(b@, o).take(i as int)),
            decreases es@.len() - i,
        {
            let name = es[i].0.clone();
            r.inner().insert(name, es[i].1);
            proof {
                let rs = read_entries(b@, o);
                assert(rs.take(i + 1).drop_last() =~= rs.take(i as int));
            }
            i = i + 1;
        }
        assert(read_entries(b@, o).take(es@.len() as int) == read_entries(b@, o));
        r
    }

    /// The checksums read from the lines of `b` in the machine's byte order.
    pub fn from_bytes(b: &[u8]) -> (r: Checksums)
        requires
            names_are_utf8(b@),
        ensures
            r.table().wf(),
            exists|o: ByteOrder| r@ == inserted(read_entries(b@, o)),
    {
        let o = native_order();
        Checksums::from_bytes_in(b, o)
    }
}

/// Checksums written as lines and read back in the same byte order are the
/// same checksums, when no name's UTF-8 bytes and no checksum's bytes hold a
/// line feed.
pub proof fn lemma_checksums_roundtrip(c: Checksums, o: ByteOrder)
    requires
        c.table().wf(),
        forall|n: Seq<char>|
            #[trigger] c@.contains_key(n) ==> newline_free(vstd::utf8::encode_utf8(n))
                && newline_free(checksum_bytes(c@[n], o)),
    ensures
        names_are_utf8(c.table().written(o)),
        inserted(read_entries(c.table().written(o), o)) == c@,
{
    let es = c.table().entry_seq();
    lemma_inserted_distinct(es);
    assert forall|i: int| 0 <= i < es.len() implies newline_free(
        vstd::utf8::encode_utf8(#[trigger] es[i].0),
    ) && newline_free(checksum_bytes(es[i].1, o)) by {
        assert(c@ == inserted(es));
        assert(inserted(es).contains_key(es[i].0));
        assert(inserted(es)[es[i].0] == es[i].1);
        assert(newline_free(vstd::utf8::encode_utf8(es[i].0)));
        assert(newline_free(checksum_bytes(c@[es[i].0], o)));
    }
    assert(plain_entries(es, o));
    lemma_entries_roundtrip(es, o);
}

impl PartialEq for Checksums {
    fn eq(&self, other: &Self) -> (r: bool) {
        self.inner.same_as(&other.inner)
    }
}

impl vstd::std_specs::cmp::PartialEqSpecImpl for Checksums {
    open spec fn obeys_eq_spec() -> bool {
        true
    }

    open spec fn eq_spec(&self, other: &Self) -> bool {
        self.table().pairs() == other.table().pairs()
    }
}

} // verus!
