//! Paths of the files that hold what is kept between two runs, as text with
//! `/` between components, and the operations on them that the library uses.

use vstd::prelude::*;
use crate::text::{chars_of, literal, string_of, extend_chars, rsplit_once};

verus! {

/// `p` with `c` appended as a new component; an absolute `c` replaces `p`.
pub open spec fn path_push(p: Seq<char>, c: Seq<char>) -> Seq<char> {
    if c.len() > 0 && c[0] == '/' {
        c
    } else if p.len() == 0 {
        c
    } else if p.last() == '/' {
        p + c
    } else {
        p + seq!['/'] + c
    }
}

/// The length of `p` without its trailing `/`s.
pub open spec fn trimmed_len(p: Seq<char>) -> int
    decreases p.len(),
{
    if p.len() > 0 && p.last() == '/' {
        trimmed_len(p.drop_last())
    } else {
        p.len() as int
    }
}

/// Where the last component starts: after the last `/` before the
/// trailing ones.
pub open spec fn name_start(p: Seq<char>) -> int {
    let end = trimmed_len(p);
    match crate::text::rfind_upto(p.take(end), seq!['/'], end - 1) {
        Some(i) => i + 1,
        None => 0,
    }
}

/// The last component of `p`, unless it is empty, `.` or `..`.
pub open spec fn file_name(p: Seq<char>) -> Option<Seq<char>> {
    let n = p.subrange(name_start(p), trimmed_len(p));
    if n.len() == 0 || n == seq!['.'] || n == seq!['.', '.'] {
        None
    } else {
        Some(n)
    }
}

/// The name without its extension: up to the last `.`, unless the name
/// starts with its only `.`.
pub open spec fn stem_of(n: Seq<char>) -> Seq<char> {
    match rsplit_once(n, seq!['.']) {
        Some((before, _)) => if before.len() > 0 {
            before
        } else {
            n
        },
        None => n,
    }
}

/// The extension of a name: after the last `.`, unless the name starts
/// with its only `.`.
pub open spec fn extension_of(n: Seq<char>) -> Option<Seq<char>> {
    match rsplit_once(n, seq!['.']) {
        Some((before, after)) => if before.len() > 0 {
            Some(after)
        } else {
            None
        },
        None => None,
    }
}

/// `p` with the extension of its last component set to `ext` (removed when
/// `ext` is empty); `None` when `p` has no file name.
pub open spec fn with_extension(p: Seq<char>, ext: Seq<char>) -> Option<Seq<char>> {
    match file_name(p) {
        None => None,
        Some(n) => Some(
            p.take(name_start(p) + stem_of(n).len()) + if ext.len() > 0 {
                seq!['.'] + ext
            } else {
                Seq::empty()
            },
        ),
    }
}

proof fn lemma_trimmed_len(p: Seq<char>)
    ensures
        0 <= trimmed_len(p) <= p.len(),
        forall|i: int| trimmed_len(p) <= i < p.len() ==> p[i] == '/',
        trimmed_len(p) > 0 ==> p[trimmed_len(p) - 1] != '/',
    decreases p.len(),
{
    if p.len() > 0 && p.last() == '/' {
        lemma_trimmed_len(p.drop_last());
        assert forall|i: int| trimmed_len(p) <= i < p.len() implies p[i] == '/' by {
            if i < p.len() - 1 {
                assert(p.drop_last()[i] == p[i]);
            }
        }
        assert(trimmed_len(p) > 0 ==> p.drop_last()[trimmed_len(p) - 1] == p[trimmed_len(p) - 1]);
    }
}

/// A path in the file system.
#[derive(Debug, Clone, PartialEq, Eq)]
pub struct CachePath {
    text: String,
}

impl CachePath {
    pub closed spec fn view(&self) -> Seq<char> {
        self.text@
    }

    /// The path written as `s`.
    pub fn from_str(s: &str) -> (r: CachePath)
        ensures
            r@ == s@,
    {
        CachePath { text: string_of(chars_of(s).as_slice()) }
    }

    /// The path as text.
    pub fn as_str(&self) -> (r: &str)
        ensures
            r@ == self@,
    {
        self.text.as_str()
    }

    /// Appends `c` as a new component; an absolute `c` replaces the path.
    pub fn push(&mut self, c: &str)
        ensures
            final(self)@ == path_push(old(self)@, c@),
    {
        let p = chars_of(self.text.as_str());
        let cc = chars_of(c);
        let mut v: Vec<char>;
        if cc.len() > 0 && cc[0] == '/' {
            v = cc;
        } else if p.len() == 0 {
            v = cc;
        } else if p[p.len() - 1] == '/' {
            v = p;
            extend_chars(&mut v, cc.as_slice());
        } else {
            v = p;
            v.push('/');
            extend_chars(&mut v, cc.as_slice());
        }
        self.text = string_of(v.as_slice());
    }

    /// Where the last component starts and ends.
    fn name_bounds(p: &[char]) -> (r: (usize, usize))
        ensures
            r.0 == name_start(p@),
            r.1 == trimmed_len(p@),
            r.0 <= r.1 <= p@.len(),
    {
        proof { lemma_trimmed_len(p@); }
        let mut end = p.len();
        assert(p@.take(end as int) =~= p@);
        while end > 0 && p[end - 1] == '/'
            invariant
                end <= p@.len(),
                trimmed_len(p@) == trimmed_len(p@.take(end as int)),
            decreases end,
        {
            assert(p@.take(end as int).drop_last() =~= p@.take(end - 1));
            end = end - 1;
        }
        assert(p@.take(end as int).len() > 0 ==> p@.take(end as int).last() == p@[end - 1]);
        assert(trimmed_len(p@.take(end as int)) == end);
        let head = crate::text::slice_chars(p, 0, end);
        assert(head@ =~= p@.take(end as int));
        let slash = vec!['/'];
        assert(slash@ =~= seq!['/']);
        proof { crate::text::lemma_rfind_upto(head@, seq!['/'], end - 1); }
        let start = match crate::text::rfind_exec(head.as_slice(), slash.as_slice()) {
            Some(i) => i + 1,
            None => 0,
        };
        (start, end)
    }

    /// The last component, unless it is empty, `.` or `..`.
    pub fn file_name(&self) -> (r: Option<String>)
        ensures
            match r {
                Some(n) => file_name(self@) == Some(n@),
                None => file_name(self@) is None,
            },
    {
        let p = chars_of(self.text.as_str());
        let (start, end) = CachePath::name_bounds(p.as_slice());
        let n = crate::text::slice_chars(p.as_slice(), start, end);
        let dot = vec!['.'];
        let dots = vec!['.', '.'];
        assert(dot@ =~= seq!['.']);
        assert(dots@ =~= seq!['.', '.']);
        if n.len() == 0 || crate::text::same_chars(n.as_slice(), dot.as_slice())
            || crate::text::same_chars(n.as_slice(), dots.as_slice()) {
            None
        } else {
            Some(string_of(n.as_slice()))
        }
    }

    /// The file name without its extension.
    pub fn file_stem(&self) -> (r: Option<String>)
        ensures
            match r {
                Some(s) => file_name(self@) matches Some(n) && s@ == stem_of(n),
                None => file_name(self@) is None,
            },
    {
        match self.file_name() {
            None => None,
            Some(n) => {
                let nc = chars_of(n.as_str());
                let dot = vec!['.'];
                assert(dot@ =~= seq!['.']);
                match crate::text::rsplit_once_exec(nc.as_slice(), dot.as_slice()) {
                    Some((before, _)) => if before.len() > 0 {
                        Some(string_of(before.as_slice()))
                    } else {
                        Some(n)
                    },
                    None => Some(n),
                }
            },
        }
    }

    /// The extension of the file name.
    pub fn extension(&self) -> (r: Option<String>)
        ensures
            match r {
                Some(e) => file_name(self@) matches Some(n) && extension_of(n) == Some(e@),
                None => file_name(self@) is None || extension_of(file_name(self@)->0) is None,
            },
    {
        match self.file_name() {
            None => None,
            Some(n) => {
                let nc = chars_of(n.as_str());
                let dot = vec!['.'];
                assert(dot@ =~= seq!['.']);
                match crate::text::rsplit_once_exec(nc.as_slice(), dot.as_slice()) {
                    Some((before, after)) => if before.len() > 0 {
                        Some(string_of(after.as_slice()))
                    } else {
                        None
                    },
                    None => None,
                }
            },
        }
    }

    /// Sets the extension of the file name to `ext`, removing it when `ext`
    /// is empty; without a file name the path stays as it is.
    pub fn set_extension(&mut self, ext: &str) -> (changed: bool)
        ensures
            changed == with_extension(old(self)@, ext@) is Some,
            match with_extension(old(self)@, ext@) {
                Some(q) => final(self)@ == q,
                None => final(self)@ == old(self)@,
            },
    {
        let p = chars_of(self.text.as_str());
        match self.file_stem() {
            None => false,
            Some(stem) => {
                let (start, _) = CachePath::name_bounds(p.as_slice());
                proof { lemma_trimmed_len(p@); }
                let stem_len = stem.as_str().unicode_len();
                assert(stem_len == stem@.len());
                let ghost n = file_name(p@)->0;
                assert(stem_of(n).len() <= n.len()) by {
                    match rsplit_once(n, seq!['.']) {
                        Some((before, _)) => {
                            crate::text::lemma_rfind_upto(n, seq!['.'], n.len() - 1);
                        },
                        None => {},
                    }
                }
                let mut v = crate::text::slice_chars(p.as_slice(), 0, start + stem_len);
                let e = chars_of(ext);
                if e.len() > 0 {
                    v.push('.');
                    extend_chars(&mut v, e.as_slice());
                }
                proof {
                    if e@.len() > 0 {
                        assert(v@ =~= p@.take(start + stem_len) + (seq!['.'] + e@));
                    } else {
                        assert(v@ =~= p@.take(start + stem_len) + Seq::<char>::empty());
                    }
                }
                self.text = string_of(v.as_slice());
                true
            },
        }
    }
}

/// The directory that holds what is kept for a project: `.rts` in `str`.
pub fn get_base_path(str: &str) -> (r: CachePath)
    ensures
        r@ == path_push(str@, ".rts"@),
{
    let mut path_buf = CachePath::from_str(str);
    path_buf.push(".rts");
    path_buf
}

/// The file name of `crate_name` with the ending `ending`.
fn file_with_ending(crate_name: &str, ending: &str) -> (r: String)
    ensures
        r@ == crate_name@ + ending@,
{
    let mut v = chars_of(crate_name);
    let e = chars_of(ending);
    extend_chars(&mut v, e.as_slice());
    string_of(v.as_slice())
}

/// The file of the dependency graph of `crate_name` in `path_buf`.
pub fn get_graph_path(path_buf: CachePath, crate_name: &str) -> (r: CachePath)
    ensures
        r@ == path_push(path_buf@, crate_name@ + ".dot"@),
{
    let mut path_buf = path_buf;
    let name = file_with_ending(crate_name, ".dot");
    path_buf.push(name.as_str());
    path_buf
}

/// The file of the tests of `crate_name` in `path_buf`.
pub fn get_test_path(path_buf: CachePath, crate_name: &str) -> (r: CachePath)
    ensures
        r@ == path_push(path_buf@, crate_name@ + ".test"@),
{
    let mut path_buf = path_buf;
    let name = file_with_ending(crate_name, ".test");
    path_buf.push(name.as_str());
    path_buf
}

/// The file of the changed nodes of `crate_name` in `path_buf`.
pub fn get_changes_path(path_buf: CachePath, crate_name: &str) -> (r: CachePath)
    ensures
        r@ == path_push(path_buf@, crate_name@ + ".changes"@),
{
    let mut path_buf = path_buf;
    let name = file_with_ending(crate_name, ".changes");
    path_buf.push(name.as_str());
    path_buf
}

} // verus!
