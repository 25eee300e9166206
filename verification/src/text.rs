//! Character-level text operations on `Seq<char>` with executable
//! counterparts over character vectors.

use vstd::prelude::*;

verus! {

broadcast use vstd::slice::group_slice_axioms;

/// Appends one character to a string: `String::push`.
#[verifier::external_body]
pub(crate) fn push_char(s: &mut String, c: char)
    ensures
        final(s)@ == old(s)@.push(c),
{
    s.push(c);
}

/// The characters of a string slice, in order.
pub fn chars_of(s: &str) -> (v: Vec<char>)
    ensures
        v@ == s@,
{
    let mut v: Vec<char> = Vec::new();
    for c in it: s.chars()
        invariant
            v@ == it.seq().take(it.index() as int),
    {
        v.push(c);
    }
    proof { vstd::string::axiom_spec_iter(s); }
    v
}

/// A string holding the given characters.
pub fn string_of(v: &[char]) -> (s: String)
    ensures
        s@ == v@,
{
    let mut s = String::new();
    let mut i: usize = 0;
    while i < v.len()
        invariant
            i <= v.len(),
            s@ == v@.take(i as int),
        decreases v.len() - i,
    {
        push_char(&mut s, v[i]);
        assert(v@.take(i + 1) == v@.take(i as int).push(v@[i as int]));
        i = i + 1;
    }
    assert(v@.take(v.len() as int) == v@);
    s
}

/// Appends all characters of `src` to `dst`.
pub fn extend_chars(dst: &mut Vec<char>, src: &[char])
    ensures
        final(dst)@ == old(dst)@ + src@,
{
    let mut i: usize = 0;
    while i < src.len()
        invariant
            i <= src.len(),
            dst@ == old(dst)@ + src@.take(i as int),
        decreases src.len() - i,
    {
        dst.push(src[i]);
        assert(src@.take(i + 1) == src@.take(i as int).push(src@[i as int]));
        i = i + 1;
    }
    assert(src@.take(src.len() as int) == src@);
}

/// `p` occurs in `s` at position `i`.
pub open spec fn occurs_at(s: Seq<char>, p: Seq<char>, i: int) -> bool {
    0 <= i && i + p.len() <= s.len() && s.subrange(i, i + p.len()) == p
}

/// The first position at or after `i` where `p` occurs in `s`.
pub open spec fn find_from(s: Seq<char>, p: Seq<char>, i: int) -> Option<int>
    decreases s.len() + 1 - i,
{
    if i < 0 || i + p.len() > s.len() {
        None
    } else if occurs_at(s, p, i) {
        Some(i)
    } else {
        find_from(s, p, i + 1)
    }
}

/// The first position where `p` occurs in `s`.
pub open spec fn find(s: Seq<char>, p: Seq<char>) -> Option<int> {
    find_from(s, p, 0)
}

/// `s` contains `p`.
pub open spec fn contains(s: Seq<char>, p: Seq<char>) -> bool {
    find(s, p) is Some
}

/// `s` starts with `p`.
pub open spec fn starts_with(s: Seq<char>, p: Seq<char>) -> bool {
    p.len() <= s.len() && s.take(p.len() as int) == p
}

/// `s` ends with `p`.
pub open spec fn ends_with(s: Seq<char>, p: Seq<char>) -> bool {
    p.len() <= s.len() && s.skip(s.len() - p.len()) == p
}

/// `str::strip_prefix`.
pub open spec fn strip_prefix(s: Seq<char>, p: Seq<char>) -> Option<Seq<char>> {
    if starts_with(s, p) { Some(s.skip(p.len() as int)) } else { None }
}

/// `str::strip_suffix`.
pub open spec fn strip_suffix(s: Seq<char>, p: Seq<char>) -> Option<Seq<char>> {
    if ends_with(s, p) { Some(s.take(s.len() - p.len())) } else { None }
}

/// `str::split_once`: the parts before and after the first occurrence of `p`.
pub open spec fn split_once(s: Seq<char>, p: Seq<char>) -> Option<(Seq<char>, Seq<char>)> {
    match find(s, p) {
        Some(i) => Some((s.take(i), s.skip(i + p.len()))),
        None => None,
    }
}

/// The last position at or before `j` where `p` occurs in `s`.
pub open spec fn rfind_upto(s: Seq<char>, p: Seq<char>, j: int) -> Option<int>
    decreases j + 1,
{
    if j < 0 {
        None
    } else if occurs_at(s, p, j) {
        Some(j)
    } else {
        rfind_upto(s, p, j - 1)
    }
}

/// `str::rsplit_once`: the parts before and after the last occurrence of `p`.
pub open spec fn rsplit_once(s: Seq<char>, p: Seq<char>) -> Option<(Seq<char>, Seq<char>)> {
    match rfind_upto(s, p, s.len() - p.len()) {
        Some(i) => Some((s.take(i), s.skip(i + p.len()))),
        None => None,
    }
}

/// `str::split` by a non-empty pattern: the pieces between occurrences.
pub open spec fn split_by(s: Seq<char>, p: Seq<char>) -> Seq<Seq<char>>
    decreases s.len(),
{
    if p.len() == 0 {
        seq![s]
    } else {
        match find(s, p) {
            Some(i) => if 0 <= i && i + p.len() <= s.len() {
                seq![s.take(i)] + split_by(s.skip(i + p.len()), p)
            } else {
                seq![s]
            },
            None => seq![s],
        }
    }
}

/// Unicode `White_Space`, as `char::is_whitespace`.
pub open spec fn is_whitespace(c: char) -> bool {
    ||| '\u{9}' <= c <= '\u{d}'
    ||| c == ' '
    ||| c == '\u{85}'
    ||| c == '\u{a0}'
    ||| c == '\u{1680}'
    ||| '\u{2000}' <= c <= '\u{200a}'
    ||| c == '\u{2028}'
    ||| c == '\u{2029}'
    ||| c == '\u{202f}'
    ||| c == '\u{205f}'
    ||| c == '\u{3000}'
}

/// `str::trim_start`.
pub open spec fn trim_start(s: Seq<char>) -> Seq<char>
    decreases s.len(),
{
    if s.len() > 0 && is_whitespace(s[0]) { trim_start(s.drop_first()) } else { s }
}

/// `str::trim_end`.
pub open spec fn trim_end(s: Seq<char>) -> Seq<char>
    decreases s.len(),
{
    if s.len() > 0 && is_whitespace(s.last()) { trim_end(s.drop_last()) } else { s }
}

/// `str::trim`.
pub open spec fn trim(s: Seq<char>) -> Seq<char> {
    trim_end(trim_start(s))
}

/// The characters of a string literal as a `Seq`.
pub fn literal(s: &str) -> (v: Vec<char>)
    ensures
        v@ == s@,
{
    chars_of(s)
}

pub fn is_whitespace_exec(c: char) -> (b: bool)
    ensures
        b == is_whitespace(c),
{
    ('\u{9}' <= c && c <= '\u{d}') || c == ' ' || c == '\u{85}' || c == '\u{a0}'
        || c == '\u{1680}' || ('\u{2000}' <= c && c <= '\u{200a}') || c == '\u{2028}'
        || c == '\u{2029}' || c == '\u{202f}' || c == '\u{205f}' || c == '\u{3000}'
}

/// Whether `p` occurs in `s` at position `i`.
pub fn occurs_at_exec(s: &[char], p: &[char], i: usize) -> (b: bool)
    ensures
        b == occurs_at(s@, p@, i as int),
{
    if i > s.len() || p.len() > s.len() - i {
        return false;
    }
    let mut k: usize = 0;
    while k < p.len()
        invariant
            i + p.len() <= s.len(),
            k <= p.len(),
            forall|j: int| 0 <= j < k ==> s@[i + j] == p@[j],
        decreases p.len() - k,
    {
        if s[i + k] != p[k] {
            assert(s@.subrange(i as int, i + p.len())[k as int] != p@[k as int]);
            return false;
        }
        k = k + 1;
    }
    assert(s@.subrange(i as int, i + p.len()) =~= p@);
    true
}

/// The first position at or after `i` where `p` occurs in `s`.
pub fn find_from_exec(s: &[char], p: &[char], i: usize) -> (r: Option<usize>)
    ensures
        match r {
            Some(k) => find_from(s@, p@, i as int) == Some(k as int),
            None => find_from(s@, p@, i as int) is None,
        },
        r matches Some(k) ==> i <= k && k + p@.len() <= s@.len() && occurs_at(s@, p@, k as int),
{
    proof { lemma_find_from(s@, p@, i as int); }
    if p.len() > s.len() || i > s.len() - p.len() {
        return None;
    }
    let last = s.len() - p.len();
    let mut k = i;
    loop
        invariant
            i <= k <= last,
            last + p.len() == s.len(),
            find_from(s@, p@, i as int) == find_from(s@, p@, k as int),
        decreases last - k,
    {
        if occurs_at_exec(s, p, k) {
            return Some(k);
        }
        if k == last {
            assert(find_from(s@, p@, k + 1) is None);
            return None;
        }
        k = k + 1;
    }
}

/// What `find_from` returns is an occurrence, and no earlier one exists.
pub proof fn lemma_find_from(s: Seq<char>, p: Seq<char>, i: int)
    requires
        0 <= i,
    ensures
        match find_from(s, p, i) {
            Some(k) => i <= k && occurs_at(s, p, k)
                && forall|j: int| i <= j < k ==> !occurs_at(s, p, j),
            None => forall|j: int| i <= j ==> !occurs_at(s, p, j),
        },
    decreases s.len() + 1 - i,
{
    if i + p.len() > s.len() {
    } else if occurs_at(s, p, i) {
    } else {
        lemma_find_from(s, p, i + 1);
    }
}

/// What `rfind_upto` returns is an occurrence, and no later one up to `j` exists.
pub proof fn lemma_rfind_upto(s: Seq<char>, p: Seq<char>, j: int)
    ensures
        match rfind_upto(s, p, j) {
            Some(k) => 0 <= k <= j && occurs_at(s, p, k)
                && forall|m: int| k < m <= j ==> !occurs_at(s, p, m),
            None => forall|m: int| m <= j ==> !occurs_at(s, p, m),
        },
    decreases j + 1,
{
    if j >= 0 && !occurs_at(s, p, j) {
        lemma_rfind_upto(s, p, j - 1);
    }
}

/// `str::split_once` on characters.
pub fn split_once_exec(s: &[char], p: &[char]) -> (r: Option<(Vec<char>, Vec<char>)>)
    ensures
        match r {
            Some((a, b)) => split_once(s@, p@) == Some((a@, b@)),
            None => split_once(s@, p@) is None,
        },
{
    let n = s.len();
    match find_from_exec(s, p, 0) {
        Some(i) => {
            let a = slice_chars(s, 0, i);
            let b = slice_chars(s, i + p.len(), n);
            Some((a, b))
        },
        None => None,
    }
}

/// The last position at or before `j` where `p` occurs in `s`.
pub fn rfind_exec(s: &[char], p: &[char]) -> (r: Option<usize>)
    ensures
        match r {
            Some(k) => rfind_upto(s@, p@, s@.len() - p@.len()) == Some(k as int),
            None => rfind_upto(s@, p@, s@.len() - p@.len()) is None,
        },
{
    if p.len() > s.len() {
        return None;
    }
    let mut k: usize = s.len() - p.len();
    loop
        invariant
            k + p.len() <= s.len(),
            rfind_upto(s@, p@, s@.len() - p@.len()) == rfind_upto(s@, p@, k as int),
        decreases k,
    {
        if occurs_at_exec(s, p, k) {
            return Some(k);
        }
        if k == 0 {
            assert(rfind_upto(s@, p@, -1) is None);
            return None;
        }
        k = k - 1;
    }
}

/// `str::rsplit_once` on characters.
pub fn rsplit_once_exec(s: &[char], p: &[char]) -> (r: Option<(Vec<char>, Vec<char>)>)
    ensures
        match r {
            Some((a, b)) => rsplit_once(s@, p@) == Some((a@, b@)),
            None => rsplit_once(s@, p@) is None,
        },
{
    proof { lemma_rfind_upto(s@, p@, s@.len() - p@.len()); }
    let n = s.len();
    match rfind_exec(s, p) {
        Some(i) => {
            let a = slice_chars(s, 0, i);
            let b = slice_chars(s, i + p.len(), n);
            Some((a, b))
        },
        None => None,
    }
}

/// A copy of `s[from..to]`.
pub fn slice_chars(s: &[char], from: usize, to: usize) -> (r: Vec<char>)
    requires
        from <= to <= s.len(),
    ensures
        r@ == s@.subrange(from as int, to as int),
{
    let mut r: Vec<char> = Vec::new();
    let mut k = from;
    while k < to
        invariant
            from <= k <= to <= s.len(),
            r@ == s@.subrange(from as int, k as int),
        decreases to - k,
    {
        r.push(s[k]);
        assert(s@.subrange(from as int, k + 1) == s@.subrange(from as int, k as int).push(s@[k as int]));
        k = k + 1;
    }
    r
}

/// Whether `s` starts with `p`.
pub fn starts_with_exec(s: &[char], p: &[char]) -> (b: bool)
    ensures
        b == starts_with(s@, p@),
{
    let b = occurs_at_exec(s, p, 0);
    assert(s@.subrange(0, p@.len() as int) == s@.take(p@.len() as int));
    b
}

/// Whether `s` ends with `p`.
pub fn ends_with_exec(s: &[char], p: &[char]) -> (b: bool)
    ensures
        b == ends_with(s@, p@),
{
    if p.len() > s.len() {
        return false;
    }
    let b = occurs_at_exec(s, p, s.len() - p.len());
    assert(s@.subrange(s@.len() - p@.len(), s@.len() as int) == s@.skip(s@.len() - p@.len()));
    b
}

/// `str::strip_prefix` on characters.
pub fn strip_prefix_exec(s: &[char], p: &[char]) -> (r: Option<Vec<char>>)
    ensures
        match r {
            Some(a) => strip_prefix(s@, p@) == Some(a@),
            None => strip_prefix(s@, p@) is None,
        },
{
    if starts_with_exec(s, p) {
        Some(slice_chars(s, p.len(), s.len()))
    } else {
        None
    }
}

/// `str::strip_suffix` on characters.
pub fn strip_suffix_exec(s: &[char], p: &[char]) -> (r: Option<Vec<char>>)
    ensures
        match r {
            Some(a) => strip_suffix(s@, p@) == Some(a@),
            None => strip_suffix(s@, p@) is None,
        },
{
    if ends_with_exec(s, p) {
        Some(slice_chars(s, 0, s.len() - p.len()))
    } else {
        None
    }
}

/// Whether `p` occurs in `s`.
pub fn contains_exec(s: &[char], p: &[char]) -> (b: bool)
    ensures
        b == contains(s@, p@),
{
    find_from_exec(s, p, 0).is_some()
}

proof fn lemma_trim_start_skip(s: Seq<char>, k: int)
    requires
        0 <= k <= s.len(),
        forall|j: int| 0 <= j < k ==> is_whitespace(s[j]),
    ensures
        trim_start(s) == trim_start(s.skip(k)),
    decreases k,
{
    if k > 0 {
        assert(s.drop_first().skip(k - 1) == s.skip(k));
        lemma_trim_start_skip(s.drop_first(), k - 1);
    } else {
        assert(s.skip(0) == s);
    }
}

proof fn lemma_trim_end_take(s: Seq<char>, k: int)
    requires
        0 <= k <= s.len(),
        forall|j: int| k <= j < s.len() ==> is_whitespace(s[j]),
    ensures
        trim_end(s) == trim_end(s.take(k)),
    decreases s.len() - k,
{
    if k < s.len() {
        assert(s.drop_last().take(k) == s.take(k));
        lemma_trim_end_take(s.drop_last(), k);
    } else {
        assert(s.take(k) == s);
    }
}

/// `str::trim_start` on characters.
pub fn trim_start_exec(s: &[char]) -> (r: Vec<char>)
    ensures
        r@ == trim_start(s@),
{
    let mut k: usize = 0;
    while k < s.len() && is_whitespace_exec(s[k])
        invariant
            k <= s.len(),
            forall|j: int| 0 <= j < k ==> is_whitespace(s@[j]),
        decreases s.len() - k,
    {
        k = k + 1;
    }
    proof { lemma_trim_start_skip(s@, k as int); }
    let r = slice_chars(s, k, s.len());
    assert(r@ == s@.skip(k as int));
    r
}

/// `str::trim_end` on characters.
pub fn trim_end_exec(s: &[char]) -> (r: Vec<char>)
    ensures
        r@ == trim_end(s@),
{
    let mut k: usize = s.len();
    while k > 0 && is_whitespace_exec(s[k - 1])
        invariant
            k <= s.len(),
            forall|j: int| k <= j < s.len() ==> is_whitespace(s@[j]),
        decreases k,
    {
        k = k - 1;
    }
    proof { lemma_trim_end_take(s@, k as int); }
    let r = slice_chars(s, 0, k);
    assert(r@ == s@.take(k as int));
    r
}

/// `str::trim` on characters.
pub fn trim_exec(s: &[char]) -> (r: Vec<char>)
    ensures
        r@ == trim(s@),
{
    let a = trim_start_exec(s);
    trim_end_exec(&a)
}

/// `str::split` on characters by a non-empty pattern.
pub fn split_by_exec(s: &[char], p: &[char]) -> (r: Vec<Vec<char>>)
    requires
        p@.len() > 0,
    ensures
        r@.map_values(|v: Vec<char>| v@) == split_by(s@, p@),
{
    let mut r: Vec<Vec<char>> = Vec::new();
    let mut start: usize = 0;
    assert(s@.skip(0) == s@);
    assert(r@.map_values(|v: Vec<char>| v@) == Seq::<Seq<char>>::empty());
    loop
        invariant
            p@.len() > 0,
            start <= s.len(),
            r@.map_values(|v: Vec<char>| v@) + split_by(s@.skip(start as int), p@)
                == split_by(s@, p@),
        decreases s.len() - start,
    {
        let ghost rest = s@.skip(start as int);
        proof {
            lemma_find_from_skip(s@, p@, start as int, 0);
            lemma_find_from(s@, p@, start as int);
        }
        match find_from_exec(s, p, start) {
            Some(i) => {
                proof { lemma_find_from_skip(s@, p@, start as int, 0); }
                let piece = slice_chars(s, start, i);
                let ghost old_r = r@;
                r.push(piece);
                assert(rest.take(i - start) == piece@);
                assert(rest.skip(i - start + p@.len()) == s@.skip(i + p@.len()));
                assert(r@.map_values(|v: Vec<char>| v@) == old_r.map_values(|v: Vec<char>| v@).push(piece@));
                assert(split_by(rest, p@) == seq![piece@] + split_by(s@.skip(i + p@.len()), p@));
                assert(r@.map_values(|v: Vec<char>| v@) + split_by(s@.skip(i + p@.len()), p@)
                    == old_r.map_values(|v: Vec<char>| v@) + split_by(rest, p@));
                start = i + p.len();
            },
            None => {
                proof { lemma_find_from_skip(s@, p@, start as int, 0); }
                let piece = slice_chars(s, start, s.len());
                let ghost old_r = r@;
                r.push(piece);
                assert(rest == piece@);
                assert(r@.map_values(|v: Vec<char>| v@) == old_r.map_values(|v: Vec<char>| v@).push(piece@));
                return r;
            },
        }
    }
}

/// Searching a suffix of `s` is searching `s` with shifted positions.
pub proof fn lemma_find_from_skip(s: Seq<char>, p: Seq<char>, d: int, i: int)
    requires
        0 <= d <= s.len(),
        0 <= i,
    ensures
        match find_from(s.skip(d), p, i) {
            Some(k) => find_from(s, p, d + i) == Some(k + d),
            None => find_from(s, p, d + i) is None,
        },
    decreases s.len() + 1 - d - i,
{
    let t = s.skip(d);
    if i + p.len() > t.len() {
    } else {
        assert(t.subrange(i, i + p.len()) == s.subrange(d + i, d + i + p.len()));
        if !occurs_at(t, p, i) {
            lemma_find_from_skip(s, p, d, i + 1);
        }
    }
}

/// An occurrence with none before it is the first one.
pub proof fn lemma_find_first(s: Seq<char>, p: Seq<char>, k: int)
    requires
        occurs_at(s, p, k),
        forall|j: int| 0 <= j < k ==> !occurs_at(s, p, j),
    ensures
        find(s, p) == Some(k),
{
    lemma_find_from(s, p, 0);
    match find(s, p) {
        Some(m) => {
            if m > k {
            }
        },
        None => {},
    }
}

/// Without any occurrence, nothing is found.
pub proof fn lemma_find_none(s: Seq<char>, p: Seq<char>)
    requires
        forall|j: int| 0 <= j ==> !occurs_at(s, p, j),
    ensures
        find(s, p) is None,
        !contains(s, p),
{
    lemma_find_from(s, p, 0);
}

/// A text whose first character is not white space is its own `trim_start`.
pub proof fn lemma_trim_start_id(s: Seq<char>)
    requires
        s.len() > 0 ==> !is_whitespace(s[0]),
    ensures
        trim_start(s) == s,
{
}

/// A text whose last character is not white space is its own `trim_end`.
pub proof fn lemma_trim_end_id(s: Seq<char>)
    requires
        s.len() > 0 ==> !is_whitespace(s.last()),
    ensures
        trim_end(s) == s,
{
}

/// Lines joined with a line break after each.
pub open spec fn concat_lines(ls: Seq<Seq<char>>) -> Seq<char>
    decreases ls.len(),
{
    if ls.len() == 0 {
        Seq::empty()
    } else {
        concat_lines(ls.drop_last()) + ls.last() + seq!['\n']
    }
}

/// The text has no line break.
pub open spec fn no_newline(l: Seq<char>) -> bool {
    forall|i: int| 0 <= i < l.len() ==> l[i] != '\n'
}

/// Splitting terminated lines by line breaks gives the lines and a last empty piece.
pub proof fn lemma_split_concat_lines(ls: Seq<Seq<char>>)
    requires
        forall|i: int| 0 <= i < ls.len() ==> no_newline(#[trigger] ls[i]),
    ensures
        split_by(concat_lines(ls), seq!['\n']) == ls.push(Seq::<char>::empty()),
    decreases ls.len(),
{
    let nl = seq!['\n'];
    if ls.len() == 0 {
        lemma_find_none(Seq::<char>::empty(), nl);
        assert(split_by(Seq::<char>::empty(), nl) == seq![Seq::<char>::empty()]);
        assert(ls.push(Seq::<char>::empty()) =~= seq![Seq::<char>::empty()]);
    } else {
        let first = ls[0];
        let rest = ls.drop_first();
        lemma_concat_lines_front(ls);
        let t = concat_lines(ls);
        assert(t == first + nl + concat_lines(rest));
        assert(occurs_at(t, nl, first.len() as int)) by {
            assert(t.subrange(first.len() as int, first.len() + 1 as int) =~= nl);
        }
        assert forall|j: int| 0 <= j < first.len() implies !occurs_at(t, nl, j) by {
            assert(t[j] == first[j]);
            assert(no_newline(ls[0]));
            if occurs_at(t, nl, j) {
                assert(t.subrange(j, j + 1)[0] == t[j]);
            }
        }
        lemma_find_first(t, nl, first.len() as int);
        assert(t.take(first.len() as int) =~= first);
        assert(t.skip(first.len() + 1 as int) =~= concat_lines(rest));
        assert forall|i: int| 0 <= i < rest.len() implies no_newline(#[trigger] rest[i]) by {
            assert(rest[i] == ls[i + 1]);
        }
        lemma_split_concat_lines(rest);
        assert(ls.push(Seq::<char>::empty()) =~= seq![first] + rest.push(Seq::<char>::empty()));
    }
}

/// `concat_lines` seen from its first line.
pub proof fn lemma_concat_lines_front(ls: Seq<Seq<char>>)
    requires
        ls.len() > 0,
    ensures
        concat_lines(ls) == ls[0] + seq!['\n'] + concat_lines(ls.drop_first()),
    decreases ls.len(),
{
    if ls.len() == 1 {
        assert(ls.drop_last() =~= Seq::<Seq<char>>::empty());
        assert(ls.drop_first() =~= Seq::<Seq<char>>::empty());
        assert(concat_lines(ls.drop_last()) == Seq::<char>::empty());
        assert(ls.last() == ls[0]);
        assert(concat_lines(ls) =~= ls[0] + seq!['\n'] + Seq::<char>::empty());
    } else {
        lemma_concat_lines_front(ls.drop_last());
        assert(ls.drop_last().drop_first() == ls.drop_first().drop_last());
        assert(ls.drop_last()[0] == ls[0]);
        assert(ls.drop_first().last() == ls.last());
        assert(concat_lines(ls) =~= ls[0] + seq!['\n'] + concat_lines(ls.drop_first()));
    }
}

/// `concat_lines` of two runs of lines.
pub proof fn lemma_concat_lines_append(a: Seq<Seq<char>>, b: Seq<Seq<char>>)
    ensures
        concat_lines(a + b) == concat_lines(a) + concat_lines(b),
    decreases b.len(),
{
    if b.len() == 0 {
        assert(a + b == a);
        assert(concat_lines(a) + concat_lines(b) =~= concat_lines(a));
    } else {
        assert((a + b).drop_last() == a + b.drop_last());
        lemma_concat_lines_append(a, b.drop_last());
        assert(concat_lines(a + b) =~= concat_lines(a) + concat_lines(b));
    }
}

/// Whether the two character sequences are equal.
pub fn same_chars(a: &[char], b: &[char]) -> (r: bool)
    ensures
        r == (a@ == b@),
{
    if a.len() != b.len() {
        return false;
    }
    let mut i: usize = 0;
    while i < a.len()
        invariant
            i <= a@.len() == b@.len(),
            forall|j: int| 0 <= j < i ==> a@[j] == b@[j],
        decreases a@.len() - i,
    {
        if a[i] != b[i] {
            return false;
        }
        i = i + 1;
    }
    assert(a@ =~= b@);
    true
}

/// The character sequences of a list of strings.
pub open spec fn names_of(v: Seq<String>) -> Seq<Seq<char>> {
    v.map_values(|s: String| s@)
}

/// Whether one of the strings is `n`.
pub fn contains_name(v: &Vec<String>, n: &String) -> (b: bool)
    ensures
        b == names_of(v@).contains(n@),
{
    let mut i: usize = 0;
    while i < v.len()
        invariant
            i <= v@.len(),
            forall|j: int| 0 <= j < i ==> names_of(v@)[j] != n@,
        decreases v@.len() - i,
    {
        assert(names_of(v@)[i as int] == v@[i as int]@);
        if v[i] == *n {
            assert(names_of(v@).contains(n@));
            return true;
        }
        i = i + 1;
    }
    false
}

/// Whether one of the strings of `a` is one of those of `b`.
pub fn share_name(a: &Vec<String>, b: &Vec<String>) -> (r: bool)
    ensures
        r == exists|x: Seq<char>| names_of(a@).contains(x) && names_of(b@).contains(x),
{
    let mut i: usize = 0;
    while i < a.len()
        invariant
            i <= a@.len(),
            forall|j: int| 0 <= j < i ==> !names_of(b@).contains(#[trigger] names_of(a@)[j]),
        decreases a@.len() - i,
    {
        assert(names_of(a@)[i as int] == a@[i as int]@);
        if contains_name(b, &a[i]) {
            assert(names_of(a@).contains(a@[i as int]@));
            return true;
        }
        i = i + 1;
    }
    assert forall|x: Seq<char>| !(names_of(a@).contains(x) && names_of(b@).contains(x)) by {
        if names_of(a@).contains(x) {
            let j = choose|j: int| 0 <= j < names_of(a@).len() && names_of(a@)[j] == x;
        }
    }
    false
}

/// The names after a push.
pub proof fn lemma_names_push(v: Seq<String>, x: String)
    ensures
        names_of(v.push(x)) == names_of(v).push(x@),
{
    assert(names_of(v.push(x)) =~= names_of(v).push(x@));
}

/// A line without one trailing carriage return.
pub open spec fn without_cr(l: Seq<char>) -> Seq<char> {
    if l.len() > 0 && l.last() == '\r' {
        l.drop_last()
    } else {
        l
    }
}

/// `str::lines`: the lines of `s` without their endings, `\n` or `\r\n`;
/// the last line needs no ending, and a last empty piece is no line.
pub open spec fn str_lines(s: Seq<char>) -> Seq<Seq<char>> {
    let p = split_by(s, seq!['\n']);
    let n = p.len() as int;
    let count = if p.last().len() == 0 {
        n - 1
    } else {
        n
    };
    Seq::new(count as nat, |i: int| if i < n - 1 { without_cr(p[i]) } else { p[i] })
}

/// `str::lines` on characters.
pub fn lines_exec(s: &[char]) -> (r: Vec<Vec<char>>)
    ensures
        r@.map_values(|v: Vec<char>| v@) == str_lines(s@),
{
    let nl = vec!['\n'];
    assert(nl@ =~= seq!['\n']);
    let pieces = split_by_exec(s, nl.as_slice());
    let ghost p = split_by(s@, seq!['\n']);
    assert(p.len() > 0);
    assert(pieces@.len() == p.len());
    let n = pieces.len();
    assert(pieces@.map_values(|v: Vec<char>| v@)[n - 1] == pieces@[n - 1]@);
    let count = if pieces[n - 1].len() == 0 {
        n - 1
    } else {
        n
    };
    let ghost lines = str_lines(s@);
    assert(lines.len() == count);
    let mut r: Vec<Vec<char>> = Vec::new();
    let mut i: usize = 0;
    while i < count
        invariant
            i <= count <= n,
            n == pieces@.len() == p.len(),
            lines == str_lines(s@),
            p == split_by(s@, seq!['\n']),
            lines.len() == count,
            pieces@.map_values(|v: Vec<char>| v@) == p,
            r@.map_values(|v: Vec<char>| v@) == lines.take(i as int),
        decreases count - i,
    {
        let piece = &pieces[i];
        assert(pieces@.map_values(|v: Vec<char>| v@)[i as int] == piece@);
        let line = if i < n - 1 && piece.len() > 0 && piece[piece.len() - 1] == '\r' {
            slice_chars(piece.as_slice(), 0, piece.len() - 1)
        } else {
            slice_chars(piece.as_slice(), 0, piece.len())
        };
        assert(line@ == lines[i as int]);
        let ghost before = r@;
        r.push(line);
        assert(r@.map_values(|v: Vec<char>| v@) =~= before.map_values(|v: Vec<char>| v@).push(line@));
        assert(lines.take(i + 1) =~= lines.take(i as int).push(lines[i as int]));
        i = i + 1;
    }
    assert(lines.take(count as int) =~= lines);
    r
}

/// The pieces joined with `sep` between them.
pub open spec fn joined_with(ps: Seq<Seq<char>>, sep: Seq<char>) -> Seq<char>
    decreases ps.len(),
{
    if ps.len() == 0 {
        Seq::empty()
    } else if ps.len() == 1 {
        ps[0]
    } else {
        joined_with(ps.drop_last(), sep) + sep + ps.last()
    }
}

} // verus!
