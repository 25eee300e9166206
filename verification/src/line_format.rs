//! The byte format of checksum files: one line per checksum, made of the
//! node's name, the separator ` - `, sixteen checksum bytes and a line feed.
//!
//! Reading scans the bytes the way the pattern `.* - [\s\S]{16}\n` is
//! searched on bytes: leftmost match first, the name part as long as possible
//! (it holds no line feed), and the search goes on after each match.

use vstd::prelude::*;
use vstd::bytes::{spec_u64_to_le_bytes, spec_u64_from_le_bytes, u64_to_le_bytes, u64_from_le_bytes};
use vstd::utf8::{encode_utf8, decode_utf8, valid_utf8};

verus! {

broadcast use vstd::slice::group_slice_axioms;

/// The line feed byte.
pub open spec fn lf() -> u8 {
    10u8
}

/// The separator between a name and its checksum bytes: ` - `.
pub open spec fn sep_bytes() -> Seq<u8> {
    seq![32u8, 45u8, 32u8]
}

/// No byte of `s` is a line feed.
pub open spec fn newline_free(s: Seq<u8>) -> bool {
    forall|i: int| 0 <= i < s.len() ==> s[i] != lf()
}

/// The order in which the bytes of a `u64` are laid out.
#[derive(PartialEq, Eq, Debug, Clone, Copy, Structural)]
pub enum ByteOrder {
    Little,
    Big,
}

/// The eight bytes of `x` in the order `o`.
pub open spec fn u64_bytes(x: u64, o: ByteOrder) -> Seq<u8> {
    match o {
        ByteOrder::Little => spec_u64_to_le_bytes(x),
        ByteOrder::Big => spec_u64_to_le_bytes(x).reverse(),
    }
}

/// The `u64` whose bytes in the order `o` are `s` (eight bytes).
pub open spec fn u64_of_bytes(s: Seq<u8>, o: ByteOrder) -> u64 {
    match o {
        ByteOrder::Little => spec_u64_from_le_bytes(s),
        ByteOrder::Big => spec_u64_from_le_bytes(s.reverse()),
    }
}

/// The sixteen bytes written for a checksum: both halves in the order `o`.
pub open spec fn checksum_bytes(c: (u64, u64), o: ByteOrder) -> Seq<u8> {
    u64_bytes(c.0, o) + u64_bytes(c.1, o)
}

/// The checksum read back from sixteen bytes.
pub open spec fn checksum_of_bytes(s: Seq<u8>, o: ByteOrder) -> (u64, u64) {
    (u64_of_bytes(s.subrange(0, 8), o), u64_of_bytes(s.subrange(8, 16), o))
}

/// One line of a checksum file.
pub open spec fn line_bytes(name: Seq<u8>, c: Seq<u8>) -> Seq<u8> {
    name + sep_bytes() + c + seq![lf()]
}

/// The lines, one after the other.
pub open spec fn lines_bytes(ls: Seq<(Seq<u8>, Seq<u8>)>) -> Seq<u8>
    decreases ls.len(),
{
    if ls.len() == 0 {
        Seq::empty()
    } else {
        line_bytes(ls[0].0, ls[0].1) + lines_bytes(ls.drop_first())
    }
}

/// A line whose name part has `k` bytes starts at `p` in `b`.
pub open spec fn line_at(b: Seq<u8>, p: int, k: int) -> bool {
    &&& 0 <= p
    &&& 0 <= k
    &&& p + k + 20 <= b.len()
    &&& newline_free(b.subrange(p, p + k))
    &&& b.subrange(p + k, p + k + 3) == sep_bytes()
    &&& b[p + k + 19] == lf()
}

/// The longest name part, at most `k` bytes, of a line starting at `p`.
pub open spec fn longest_from(b: Seq<u8>, p: int, k: int) -> Option<int>
    decreases k + 1,
{
    if k < 0 {
        None
    } else if line_at(b, p, k) {
        Some(k)
    } else {
        longest_from(b, p, k - 1)
    }
}

/// The longest name part of a line starting at `p`, if a line starts there.
pub open spec fn longest_at(b: Seq<u8>, p: int) -> Option<int> {
    longest_from(b, p, b.len() - p - 20)
}

/// The leftmost line starting at `p` or later: its start and name length.
pub open spec fn first_match_from(b: Seq<u8>, p: int) -> Option<(int, int)>
    decreases b.len() - p,
{
    if p < 0 || p + 20 > b.len() {
        None
    } else {
        match longest_at(b, p) {
            Some(k) => Some((p, k)),
            None => first_match_from(b, p + 1),
        }
    }
}

/// All lines found from `p` on, each as its start and name length.
pub open spec fn line_matches(b: Seq<u8>, p: int) -> Seq<(int, int)>
    decreases b.len() - p,
{
    match first_match_from(b, p) {
        None => Seq::empty(),
        Some(m) => {
            let q = m.0 + m.1 + 20;
            if p < q <= b.len() {
                seq![m] + line_matches(b, q)
            } else {
                Seq::empty()
            }
        },
    }
}

/// The name and the checksum bytes of a found line.
pub open spec fn entry_of(b: Seq<u8>, m: (int, int)) -> (Seq<u8>, Seq<u8>) {
    (b.subrange(m.0, m.0 + m.1), b.subrange(m.0 + m.1 + 3, m.0 + m.1 + 19))
}

/// The lines read from `b`, each as its name and checksum bytes.
pub open spec fn read_lines(b: Seq<u8>) -> Seq<(Seq<u8>, Seq<u8>)> {
    line_matches(b, 0).map_values(|m: (int, int)| entry_of(b, m))
}

pub proof fn lemma_longest_from(b: Seq<u8>, p: int, k: int)
    ensures
        longest_from(b, p, k) matches Some(j) ==> j <= k && line_at(b, p, j),
    decreases k + 1,
{
    if k >= 0 && !line_at(b, p, k) {
        lemma_longest_from(b, p, k - 1);
    }
}

pub proof fn lemma_first_match(b: Seq<u8>, p: int)
    ensures
        first_match_from(b, p) matches Some(m) ==> p <= m.0 && line_at(b, m.0, m.1),
    decreases b.len() - p,
{
    if !(p < 0 || p + 20 > b.len()) {
        lemma_longest_from(b, p, b.len() - p - 20);
        if longest_at(b, p) is None {
            lemma_first_match(b, p + 1);
        }
    }
}

/// Lowering the start of the search below the first line feed changes nothing.
proof fn lemma_longest_skip(b: Seq<u8>, p: int, e: int, k: int)
    requires
        0 <= p <= e,
        e < b.len(),
        b[e] == lf(),
        e - p <= k,
    ensures
        longest_from(b, p, k) == longest_from(b, p, e - p),
    decreases k,
{
    if k > e - p {
        if p + k + 20 <= b.len() {
            assert(b.subrange(p, p + k)[e - p] == lf());
        }
        assert(!line_at(b, p, k));
        lemma_longest_skip(b, p, e, k - 1);
    }
}

/// The search from `k` down stops at `j` when no longer name part fits.
proof fn lemma_longest_is(b: Seq<u8>, p: int, j: int, k: int)
    requires
        0 <= j <= k,
        line_at(b, p, j),
        forall|i: int| j < i <= k ==> !line_at(b, p, i),
    ensures
        longest_from(b, p, k) == Some(j),
    decreases k,
{
    if k > j {
        lemma_longest_is(b, p, j, k - 1);
    }
}

/// The first line feed at or after `p`, or the end.
fn first_newline_from(b: &[u8], p: usize) -> (e: usize)
    requires
        p <= b@.len(),
    ensures
        p <= e <= b@.len(),
        forall|i: int| p <= i < e ==> b@[i] != lf(),
        e < b@.len() ==> b@[e as int] == lf(),
{
    let mut e = p;
    while e < b.len()
        invariant
            p <= e <= b@.len(),
            forall|i: int| p <= i < e ==> b@[i] != lf(),
        decreases b@.len() - e,
    {
        if b[e] == 10u8 {
            return e;
        }
        e = e + 1;
    }
    e
}

/// The longest name part of a line starting at `p`.
fn longest_at_exec(b: &[u8], p: usize) -> (r: Option<usize>)
    requires
        p + 20 <= b@.len(),
    ensures
        r matches Some(k) ==> longest_at(b@, p as int) == Some(k as int),
        r is None ==> longest_at(b@, p as int) is None,
{
    let len = b.len();
    let e = first_newline_from(b, p);
    let top = len - p - 20;
    let mut k: usize = if e - p < top { e - p } else { top };
    proof {
        if e - p < top {
            lemma_longest_skip(b@, p as int, e as int, top as int);
        }
    }
    loop
        invariant
            p + 20 <= len == b@.len(),
            k <= top == len - p - 20,
            k <= e - p,
            p <= e <= len,
            forall|i: int| p <= i < e ==> b@[i] != lf(),
            longest_at(b@, p as int) == longest_from(b@, p as int, k as int),
        decreases k,
    {
        let at = p + k;
        let found = b[at] == 32u8 && b[at + 1] == 45u8 && b[at + 2] == 32u8 && b[at + 19] == 10u8;
        if found {
            assert(b@.subrange(at as int, at + 3) == sep_bytes());
            assert(line_at(b@, p as int, k as int));
            return Some(k);
        }
        assert(!line_at(b@, p as int, k as int)) by {
            if line_at(b@, p as int, k as int) {
                assert(b@.subrange(at as int, at + 3)[0] == 32u8);
                assert(b@.subrange(at as int, at + 3)[1] == 45u8);
                assert(b@.subrange(at as int, at + 3)[2] == 32u8);
            }
        }
        if k == 0 {
            assert(longest_from(b@, p as int, -1) is None);
            return None;
        }
        k = k - 1;
    }
}

/// The leftmost line starting at `p` or later.
fn first_match_exec(b: &[u8], p: usize) -> (r: Option<(usize, usize)>)
    requires
        p <= b@.len(),
    ensures
        r matches Some(m) ==> first_match_from(b@, p as int) == Some((m.0 as int, m.1 as int)),
        r is None ==> first_match_from(b@, p as int) is None,
{
    let mut q = p;
    while q < b.len() && b.len() - q >= 20
        invariant
            p <= q <= b@.len(),
            first_match_from(b@, p as int) == first_match_from(b@, q as int),
        decreases b@.len() - q,
    {
        match longest_at_exec(b, q) {
            Some(k) => {
                return Some((q, k));
            },
            None => {},
        }
        q = q + 1;
    }
    None
}


/// Lines that read back as written: names and checksum bytes hold no line
/// feed, and each checksum has sixteen bytes.
pub open spec fn plain_lines(ls: Seq<(Seq<u8>, Seq<u8>)>) -> bool {
    forall|i: int|
        0 <= i < ls.len() ==> newline_free(#[trigger] ls[i].0) && newline_free(ls[i].1)
            && ls[i].1.len() == 16
}

/// The first nineteen bytes of plain lines hold no line feed.
proof fn lemma_lines_prefix_free(ls: Seq<(Seq<u8>, Seq<u8>)>)
    requires
        plain_lines(ls),
    ensures
        forall|j: int| 0 <= j < 19 && j < lines_bytes(ls).len() ==> lines_bytes(ls)[j] != lf(),
{
    if ls.len() > 0 {
        let n = ls[0].0.len();
        let line = line_bytes(ls[0].0, ls[0].1);
        assert(newline_free(ls[0].0) && newline_free(ls[0].1) && ls[0].1.len() == 16);
        assert forall|j: int| 0 <= j < 19 && j < lines_bytes(ls).len() implies lines_bytes(ls)[j]
            != lf() by {
            assert(lines_bytes(ls)[j] == line[j]);
            if j < n {
                assert(line[j] == ls[0].0[j]);
            } else if j < n + 3 {
                assert(line[j] == sep_bytes()[j - n]);
            } else {
                assert(line[j] == ls[0].1[j - n - 3]);
            }
        }
    }
}

proof fn lemma_matches_from(b: Seq<u8>, p: int, ls: Seq<(Seq<u8>, Seq<u8>)>)
    requires
        0 <= p <= b.len(),
        b.subrange(p, b.len() as int) == lines_bytes(ls),
        plain_lines(ls),
    ensures
        line_matches(b, p).map_values(|m: (int, int)| entry_of(b, m)) == ls,
    decreases ls.len(),
{
    let f = |m: (int, int)| entry_of(b, m);
    if ls.len() == 0 {
        assert(b.subrange(p, b.len() as int).len() == 0);
        assert(first_match_from(b, p) is None);
        assert(line_matches(b, p).map_values(f) =~= ls);
    } else {
        let name = ls[0].0;
        let c = ls[0].1;
        let n = name.len() as int;
        let rest = ls.drop_first();
        let line = line_bytes(name, c);
        assert(newline_free(name) && newline_free(c) && c.len() == 16);
        assert(plain_lines(rest)) by {
            assert forall|i: int| 0 <= i < rest.len() implies newline_free(#[trigger] rest[i].0)
                && newline_free(rest[i].1) && rest[i].1.len() == 16 by {
                assert(rest[i] == ls[i + 1]);
            }
        }
        let q = p + n + 20;
        assert(lines_bytes(ls) == line + lines_bytes(rest));
        assert(line.len() == n + 20);
        assert forall|i: int| 0 <= i < n + 20 implies b[p + i] == #[trigger] line[i] by {
            assert(b.subrange(p, b.len() as int)[i] == b[p + i]);
        }
        assert(b.subrange(q, b.len() as int) =~= lines_bytes(rest)) by {
            assert forall|i: int| 0 <= i < b.len() - q implies b.subrange(q, b.len() as int)[i]
                == lines_bytes(rest)[i] by {
                assert(b.subrange(p, b.len() as int)[n + 20 + i] == b[q + i]);
            }
        }
        assert(b.subrange(p, p + n) =~= name) by {
            assert forall|i: int| 0 <= i < n implies b.subrange(p, p + n)[i] == name[i] by {
                assert(line[i] == name[i]);
            }
        }
        assert(b.subrange(p + n, p + n + 3) =~= sep_bytes()) by {
            assert forall|i: int| 0 <= i < 3 implies b.subrange(p + n, p + n + 3)[i]
                == sep_bytes()[i] by {
                assert(line[n + i] == sep_bytes()[i]);
            }
        }
        assert(b[p + n + 19] == lf()) by {
            assert(line[n + 19] == lf());
        }
        assert(line_at(b, p, n));
        lemma_lines_prefix_free(rest);
        assert forall|k: int| n < k <= b.len() - p - 20 implies !line_at(b, p, k) by {
            if k <= n + 19 {
                assert(b[p + k + 19] == lines_bytes(rest)[k - n - 1]) by {
                    assert(b.subrange(q, b.len() as int)[k - n - 1] == b[p + k + 19]);
                }
            } else {
                assert(b.subrange(p, p + k)[n + 19] == b[p + n + 19]);
            }
        }
        lemma_longest_is(b, p, n, b.len() - p - 20);
        assert(first_match_from(b, p) == Some((p, n)));
        assert(line_matches(b, p) == seq![(p, n)] + line_matches(b, q));
        lemma_matches_from(b, q, rest);
        assert(entry_of(b, (p, n)) == ls[0]) by {
            assert(b.subrange(p + n + 3, p + n + 19) =~= c) by {
                assert forall|i: int| 0 <= i < 16 implies b.subrange(p + n + 3, p + n + 19)[i]
                    == c[i] by {
                    assert(line[n + 3 + i] == c[i]);
                }
            }
        }
        assert(line_matches(b, p).map_values(f) =~= seq![entry_of(b, (p, n))]
            + line_matches(b, q).map_values(f));
        assert(ls =~= seq![ls[0]] + rest);
    }
}

/// Reading plain lines gives back the lines that were written.
pub proof fn lemma_read_lines(ls: Seq<(Seq<u8>, Seq<u8>)>)
    requires
        plain_lines(ls),
    ensures
        read_lines(lines_bytes(ls)) == ls,
{
    let b = lines_bytes(ls);
    assert(b.subrange(0, b.len() as int) =~= b);
    lemma_matches_from(b, 0, ls);
}

/// Where the lines of `b` start, each with the length of its name part.
pub fn line_positions(b: &[u8]) -> (r: Vec<(usize, usize)>)
    ensures
        r@.len() == line_matches(b@, 0).len(),
        forall|i: int|
            0 <= i < r@.len() ==> (#[trigger] r@[i]).0 as int == line_matches(b@, 0)[i].0
                && r@[i].1 as int == line_matches(b@, 0)[i].1,
{
    let mut r: Vec<(usize, usize)> = Vec::new();
    let mut p: usize = 0;
    let ghost mut done: Seq<(int, int)> = Seq::empty();
    loop
        invariant
            p <= b@.len(),
            done + line_matches(b@, p as int) == line_matches(b@, 0),
            r@.len() == done.len(),
            forall|i: int|
                0 <= i < r@.len() ==> (#[trigger] r@[i]).0 as int == done[i].0 && r@[i].1 as int
                    == done[i].1,
        decreases b@.len() - p,
    {
        proof { lemma_first_match(b@, p as int); }
        match first_match_exec(b, p) {
            None => {
                assert(line_matches(b@, p as int) == Seq::<(int, int)>::empty());
                assert(done == line_matches(b@, 0));
                return r;
            },
            Some((s, k)) => {
                assert(line_at(b@, s as int, k as int));
                assert(b@.len() == b.len());
                let q: usize = s + k + 20;
                let ghost gm = (s as int, k as int);
                assert(line_matches(b@, p as int) == seq![gm] + line_matches(b@, q as int));
                proof {
                    assert(done + (seq![gm] + line_matches(b@, q as int)) == (done + seq![gm])
                        + line_matches(b@, q as int));
                    done = done + seq![gm];
                }
                r.push((s, k));
                p = q;
            },
        }
    }
}

/// The bytes of `x` in the order `o`.
pub fn u64_bytes_exec(x: u64, o: ByteOrder) -> (r: Vec<u8>)
    ensures
        r@ == u64_bytes(x, o),
        r@.len() == 8,
{
    let le = u64_to_le_bytes(x);
    match o {
        ByteOrder::Little => le,
        ByteOrder::Big => {
            let mut r: Vec<u8> = Vec::new();
            let mut i: usize = 8;
            while i > 0
                invariant
                    i <= 8,
                    le@.len() == 8,
                    r@ == le@.reverse().take(8 - i),
                decreases i,
            {
                i = i - 1;
                r.push(le[i]);
                assert(le@.reverse().take(8 - i) == le@.reverse().take(8 - i - 1).push(le@[i as int]));
            }
            assert(le@.reverse().take(8) == le@.reverse());
            r
        },
    }
}

/// The `u64` whose bytes in the order `o` are the eight bytes `s`.
pub fn u64_of_bytes_exec(s: &[u8], o: ByteOrder) -> (x: u64)
    requires
        s@.len() == 8,
    ensures
        x == u64_of_bytes(s@, o),
{
    match o {
        ByteOrder::Little => u64_from_le_bytes(s),
        ByteOrder::Big => {
            let mut r: Vec<u8> = Vec::new();
            let mut i: usize = 8;
            while i > 0
                invariant
                    i <= 8,
                    s@.len() == 8,
                    r@ == s@.reverse().take(8 - i),
                decreases i,
            {
                i = i - 1;
                r.push(s[i]);
                assert(s@.reverse().take(8 - i) == s@.reverse().take(8 - i - 1).push(s@[i as int]));
            }
            assert(s@.reverse().take(8) == s@.reverse());
            u64_from_le_bytes(r.as_slice())
        },
    }
}

/// Appends one line to `out`.
pub fn push_line(out: &mut Vec<u8>, name: &[u8], c: (u64, u64), o: ByteOrder)
    ensures
        final(out)@ == old(out)@ + line_bytes(name@, checksum_bytes(c, o)),
{
    out.extend_from_slice(name);
    out.push(32u8);
    out.push(45u8);
    out.push(32u8);
    let first = u64_bytes_exec(c.0, o);
    let second = u64_bytes_exec(c.1, o);
    out.extend_from_slice(first.as_slice());
    out.extend_from_slice(second.as_slice());
    out.push(10u8);
    assert(out@ =~= old(out)@ + line_bytes(name@, checksum_bytes(c, o)));
}

/// The line written for a named checksum: the name's UTF-8 bytes and the
/// checksum's sixteen bytes.
pub open spec fn entry_line(e: (Seq<char>, (u64, u64)), o: ByteOrder) -> (Seq<u8>, Seq<u8>) {
    (encode_utf8(e.0), checksum_bytes(e.1, o))
}

/// The named checksum read from a line.
pub open spec fn line_entry(l: (Seq<u8>, Seq<u8>), o: ByteOrder) -> (Seq<char>, (u64, u64)) {
    (decode_utf8(l.0), checksum_of_bytes(l.1, o))
}

/// The lines written for named checksums, in order.
pub open spec fn entries_lines(es: Seq<(Seq<char>, (u64, u64))>, o: ByteOrder) -> Seq<(Seq<u8>, Seq<u8>)> {
    es.map_values(|e: (Seq<char>, (u64, u64))| entry_line(e, o))
}

/// The named checksums read from `b`, in order.
pub open spec fn read_entries(b: Seq<u8>, o: ByteOrder) -> Seq<(Seq<char>, (u64, u64))> {
    read_lines(b).map_values(|l: (Seq<u8>, Seq<u8>)| line_entry(l, o))
}

/// Every name read from `b` is valid UTF-8.
pub open spec fn names_are_utf8(b: Seq<u8>) -> bool {
    forall|i: int| 0 <= i < read_lines(b).len() ==> valid_utf8(#[trigger] read_lines(b)[i].0)
}

/// Named checksums that read back as written: no name's UTF-8 bytes and no
/// checksum's bytes in the order `o` hold a line feed.
pub open spec fn plain_entries(es: Seq<(Seq<char>, (u64, u64))>, o: ByteOrder) -> bool {
    forall|i: int|
        0 <= i < es.len() ==> newline_free(encode_utf8(#[trigger] es[i].0)) && newline_free(
            checksum_bytes(es[i].1, o),
        )
}

pub proof fn lemma_u64_bytes_roundtrip(x: u64, o: ByteOrder)
    ensures
        u64_bytes(x, o).len() == 8,
        u64_of_bytes(u64_bytes(x, o), o) == x,
{
    vstd::bytes::lemma_auto_spec_u64_to_from_le_bytes();
    assert(spec_u64_to_le_bytes(x).reverse().reverse() =~= spec_u64_to_le_bytes(x));
}

/// Named checksums written as lines and read back are the same.
pub proof fn lemma_entries_roundtrip(es: Seq<(Seq<char>, (u64, u64))>, o: ByteOrder)
    requires
        plain_entries(es, o),
    ensures
        read_entries(lines_bytes(entries_lines(es, o)), o) == es,
        names_are_utf8(lines_bytes(entries_lines(es, o))),
{
    broadcast use vstd::utf8::encode_utf8_decode_utf8, vstd::utf8::encode_utf8_valid_utf8;
    let ls = entries_lines(es, o);
    assert forall|i: int| 0 <= i < ls.len() implies newline_free(#[trigger] ls[i].0)
        && newline_free(ls[i].1) && ls[i].1.len() == 16 by {
        lemma_u64_bytes_roundtrip(es[i].1.0, o);
        lemma_u64_bytes_roundtrip(es[i].1.1, o);
    }
    lemma_read_lines(ls);
    let rs = read_entries(lines_bytes(ls), o);
    assert forall|i: int| 0 <= i < es.len() implies #[trigger] rs[i] == es[i] by {
        let c = es[i].1;
        lemma_u64_bytes_roundtrip(c.0, o);
        lemma_u64_bytes_roundtrip(c.1, o);
        assert(checksum_bytes(c, o).subrange(0, 8) =~= u64_bytes(c.0, o));
        assert(checksum_bytes(c, o).subrange(8, 16) =~= u64_bytes(c.1, o));
    }
    assert(rs =~= es);
}

/// `std::str::from_utf8`: the string whose UTF-8 bytes are `bytes`, if
/// they are valid UTF-8.
#[verifier::external_body]
fn text_of_utf8(bytes: &[u8]) -> (r: Option<String>)
    ensures
        r is Some <==> valid_utf8(bytes@),
        r matches Some(s) ==> encode_utf8(s@) == bytes@,
{
    match std::str::from_utf8(bytes) {
        Ok(t) => Some(t.to_string()),
        Err(_) => None,
    }
}

/// `u64::to_ne_bytes`: the bytes of `x` in the machine's byte order.
#[verifier::external_body]
fn native_bytes_of(x: u64) -> (r: Vec<u8>)
    ensures
        r@ == u64_bytes(x, ByteOrder::Little) || r@ == u64_bytes(x, ByteOrder::Big),
{
    x.to_ne_bytes().to_vec()
}

/// The byte order of this machine, as `u64::to_ne_bytes` lays out the number one.
pub fn native_order() -> ByteOrder {
    let one = native_bytes_of(1);
    if one.len() > 0 && one[0] == 1u8 {
        ByteOrder::Little
    } else {
        ByteOrder::Big
    }
}

/// The named checksums read from `b`, in order.
pub fn read_entries_exec(b: &[u8], o: ByteOrder) -> (r: Vec<(String, (u64, u64))>)
    requires
        names_are_utf8(b@),
    ensures
        r@.len() == read_entries(b@, o).len(),
        forall|i: int|
            0 <= i < r@.len() ==> (#[trigger] r@[i]).0@ == read_entries(b@, o)[i].0 && r@[i].1
                == read_entries(b@, o)[i].1,
{
    broadcast use vstd::utf8::decode_utf8_encode_utf8, vstd::utf8::encode_utf8_decode_utf8;
    let ms = line_positions(b);
    let ghost lines = read_lines(b@);
    let mut r: Vec<(String, (u64, u64))> = Vec::new();
    let mut i: usize = 0;
    while i < ms.len()
        invariant
            i <= ms@.len() == line_matches(b@, 0).len() == lines.len(),
            lines == read_lines(b@),
            names_are_utf8(b@),
            forall|j: int|
                0 <= j < ms@.len() ==> (#[trigger] ms@[j]).0 as int == line_matches(b@, 0)[j].0
                    && ms@[j].1 as int == line_matches(b@, 0)[j].1,
            r@.len() == i,
            forall|j: int|
                0 <= j < i ==> (#[trigger] r@[j]).0@ == read_entries(b@, o)[j].0 && r@[j].1
                    == read_entries(b@, o)[j].1,
        decreases ms@.len() - i,
    {
        let (s, k) = ms[i];
        proof {
            lemma_first_match_in_matches(b@, 0, i as int);
        }
        assert(line_at(b@, s as int, k as int));
        assert(b@.len() == b.len());
        let name = slice_bytes(b, s, s + k);
        let first = slice_bytes(b, s + k + 3, s + k + 11);
        let second = slice_bytes(b, s + k + 11, s + k + 19);
        let ghost l = lines[i as int];
        assert(l == entry_of(b@, line_matches(b@, 0)[i as int]));
        assert(name@ == l.0);
        assert(l.1.subrange(0, 8) =~= first@);
        assert(l.1.subrange(8, 16) =~= second@);
        assert(valid_utf8(lines[i as int].0));
        let text = match text_of_utf8(name.as_slice()) {
            Some(t) => t,
            None => String::new(),
        };
        let c = (u64_of_bytes_exec(first.as_slice(), o), u64_of_bytes_exec(second.as_slice(), o));
        assert(text@ == decode_utf8(name@)) by {
            vstd::utf8::encode_utf8_decode_utf8(text@);
        }
        assert(read_entries(b@, o)[i as int] == line_entry(lines[i as int], o));
        r.push((text, c));
        i = i + 1;
    }
    r
}

/// The bytes `b[from..to]`.
fn slice_bytes(b: &[u8], from: usize, to: usize) -> (r: Vec<u8>)
    requires
        from <= to <= b@.len(),
    ensures
        r@ == b@.subrange(from as int, to as int),
{
    let mut r: Vec<u8> = Vec::new();
    let mut i = from;
    while i < to
        invariant
            from <= i <= to <= b@.len(),
            r@ == b@.subrange(from as int, i as int),
        decreases to - i,
    {
        r.push(b[i]);
        assert(b@.subrange(from as int, i + 1) == b@.subrange(from as int, i as int).push(b@[i as int]));
        i = i + 1;
    }
    r
}

/// Every found line is a line.
proof fn lemma_first_match_in_matches(b: Seq<u8>, p: int, i: int)
    requires
        0 <= i < line_matches(b, p).len(),
    ensures
        line_at(b, line_matches(b, p)[i].0, line_matches(b, p)[i].1),
    decreases b.len() - p, i,
{
    lemma_first_match(b, p);
    let m = first_match_from(b, p)->0;
    let q = m.0 + m.1 + 20;
    if i > 0 {
        assert(line_matches(b, p) == seq![m] + line_matches(b, q));
        lemma_first_match_in_matches(b, q, i - 1);
    }
}

/// Appends the lines of the named checksums to `out`.
pub fn push_entries(out: &mut Vec<u8>, es: &Vec<(String, (u64, u64))>, o: ByteOrder)
    ensures
        final(out)@ == old(out)@ + lines_bytes(entries_lines(
            es@.map_values(|e: (String, (u64, u64))| (e.0@, e.1)),
            o,
        )),
{
    let ghost all = es@.map_values(|e: (String, (u64, u64))| (e.0@, e.1));
    let mut i: usize = es.len();
    let mut tail: Vec<u8> = Vec::new();
    while i > 0
        invariant
            i <= es@.len(),
            all == es@.map_values(|e: (String, (u64, u64))| (e.0@, e.1)),
            tail@ == lines_bytes(entries_lines(all.skip(i as int), o)),
        decreases i,
    {
        i = i - 1;
        let mut line: Vec<u8> = Vec::new();
        let text = es[i].0.as_str();
        assert(text@ == all[i as int].0);
        push_line(&mut line, text.as_bytes(), es[i].1, o);
        line.append(&mut tail);
        tail = line;
        let ghost ls = entries_lines(all.skip(i as int), o);
        assert(ls.len() > 0);
        assert(ls[0] == entry_line(all[i as int], o));
        assert(ls.drop_first() =~= entries_lines(all.skip(i + 1), o));
    }
    assert(all.skip(0) =~= all);
    let mut t = tail;
    out.append(&mut t);
}

} // verus!
