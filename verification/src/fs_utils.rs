//! Where the files that are kept between two runs lie, how they are named,
//! and how a file name is read back.

use vstd::prelude::*;
use crate::paths::{CachePath, path_push, with_extension, file_name, stem_of, extension_of};
use crate::text::{chars_of, literal, string_of, extend_chars, same_chars, split_once, rsplit_once, strip_suffix};

verus! {

/// Which cache a file belongs to.
#[derive(Debug, Clone, Copy, PartialEq, Eq, Structural)]
pub enum CacheKind {
    Static,
    Dynamic,
    General,
}

/// The directory of a cache.
pub open spec fn cache_dir(k: CacheKind) -> Seq<char> {
    match k {
        CacheKind::Static => ".rts_static"@,
        CacheKind::Dynamic => ".rts_dynamic"@,
        CacheKind::General => ".rts"@,
    }
}

impl CacheKind {
    /// The directory of this cache in `path_buf`.
    pub fn map(self, path_buf: CachePath) -> (r: CachePath)
        ensures
            r@ == path_push(path_buf@, cache_dir(self)),
    {
        let mut path_buf = path_buf;
        let path = match self {
            CacheKind::Static => ".rts_static",
            CacheKind::Dynamic => ".rts_dynamic",
            CacheKind::General => ".rts",
        };
        path_buf.push(path);
        path_buf
    }
}

/// The directory of a cache in the target directory that cargo set, if any.
pub fn get_cache_path(kind: CacheKind, target_dir: Option<&str>) -> (r: Option<CachePath>)
    ensures
        match target_dir {
            Some(d) => r matches Some(p) && p@ == path_push(d@, cache_dir(kind)),
            None => r is None,
        },
{
    match target_dir {
        Some(d) => Some(kind.map(CachePath::from_str(d))),
        None => None,
    }
}

/// Why a file name is not that of a cache file.
#[derive(Debug, Clone, Copy, PartialEq, Eq, Structural)]
pub enum CacheFileParsingError {
    FoundDirectory,
    InvalidFileName,
    InvalidKind,
}

/// The kinds of checksums.
#[derive(Debug, Clone, Copy, PartialEq, Eq, Structural)]
pub enum ChecksumKind {
    Checksum,
    VtblChecksum,
    ConstChecksum,
}

/// The file ending of a kind of checksums.
pub open spec fn checksum_ending(k: ChecksumKind) -> Seq<char> {
    match k {
        ChecksumKind::Checksum => "checksum"@,
        ChecksumKind::VtblChecksum => "checksum_vtbl"@,
        ChecksumKind::ConstChecksum => "checksum_const"@,
    }
}

/// The kind of checksums with the file ending `s`, if any.
pub open spec fn checksum_kind_of(s: Seq<char>) -> Option<ChecksumKind> {
    if s == "checksum"@ {
        Some(ChecksumKind::Checksum)
    } else if s == "checksum_vtbl"@ {
        Some(ChecksumKind::VtblChecksum)
    } else if s == "checksum_const"@ {
        Some(ChecksumKind::ConstChecksum)
    } else {
        None
    }
}

impl ChecksumKind {
    /// The file ending of this kind.
    pub fn as_str(&self) -> (r: &'static str)
        ensures
            r@ == checksum_ending(*self),
    {
        match self {
            ChecksumKind::Checksum => "checksum",
            ChecksumKind::VtblChecksum => "checksum_vtbl",
            ChecksumKind::ConstChecksum => "checksum_const",
        }
    }

    /// The kind with the file ending `s`.
    pub fn from_str(s: &str) -> (r: Result<ChecksumKind, CacheFileParsingError>)
        ensures
            match checksum_kind_of(s@) {
                Some(k) => r == Ok::<ChecksumKind, CacheFileParsingError>(k),
                None => r == Err::<ChecksumKind, CacheFileParsingError>(CacheFileParsingError::InvalidKind),
            },
    {
        let c = chars_of(s);
        let a = literal("checksum");
        let b = literal("checksum_vtbl");
        let d = literal("checksum_const");
        if same_chars(c.as_slice(), a.as_slice()) {
            Ok(ChecksumKind::Checksum)
        } else if same_chars(c.as_slice(), b.as_slice()) {
            Ok(ChecksumKind::VtblChecksum)
        } else if same_chars(c.as_slice(), d.as_slice()) {
            Ok(ChecksumKind::ConstChecksum)
        } else {
            Err(CacheFileParsingError::InvalidKind)
        }
    }
}

/// The kinds of cache files.
#[derive(Debug, Clone, Copy, PartialEq, Eq, Structural)]
pub enum CacheFileKind {
    Tests,
    Changes,
    Checksums(ChecksumKind),
    Graph,
    Traces,
    ProcessTraces,
}

/// The file ending of a kind of cache files.
pub open spec fn kind_ending(k: CacheFileKind) -> Seq<char> {
    match k {
        CacheFileKind::Tests => "test"@,
        CacheFileKind::Changes => "changes"@,
        CacheFileKind::Checksums(c) => checksum_ending(c),
        CacheFileKind::Graph => "dot"@,
        CacheFileKind::Traces => "trace"@,
        CacheFileKind::ProcessTraces => ".process_trace"@,
    }
}

/// The kind of cache files with the ending `s`, if any.
pub open spec fn kind_of(s: Seq<char>) -> Option<CacheFileKind> {
    if s == "test"@ {
        Some(CacheFileKind::Tests)
    } else if s == "changes"@ {
        Some(CacheFileKind::Changes)
    } else if s == "dot"@ {
        Some(CacheFileKind::Graph)
    } else if s == "trace"@ {
        Some(CacheFileKind::Traces)
    } else if s == ".process_trace"@ {
        Some(CacheFileKind::ProcessTraces)
    } else {
        match checksum_kind_of(s) {
            Some(c) => Some(CacheFileKind::Checksums(c)),
            None => None,
        }
    }
}

impl CacheFileKind {
    /// The file ending of this kind.
    pub fn as_str(&self) -> (r: &'static str)
        ensures
            r@ == kind_ending(*self),
    {
        match self {
            CacheFileKind::Tests => "test",
            CacheFileKind::Changes => "changes",
            CacheFileKind::Checksums(c) => c.as_str(),
            CacheFileKind::Graph => "dot",
            CacheFileKind::Traces => "trace",
            CacheFileKind::ProcessTraces => ".process_trace",
        }
    }

    /// The kind with the file ending `s`.
    pub fn from_str(s: &str) -> (r: Result<CacheFileKind, CacheFileParsingError>)
        ensures
            match kind_of(s@) {
                Some(k) => r == Ok::<CacheFileKind, CacheFileParsingError>(k),
                None => r == Err::<CacheFileKind, CacheFileParsingError>(CacheFileParsingError::InvalidKind),
            },
    {
        let c = chars_of(s);
        let t = literal("test");
        let ch = literal("changes");
        let g = literal("dot");
        let tr = literal("trace");
        let pt = literal(".process_trace");
        if same_chars(c.as_slice(), t.as_slice()) {
            Ok(CacheFileKind::Tests)
        } else if same_chars(c.as_slice(), ch.as_slice()) {
            Ok(CacheFileKind::Changes)
        } else if same_chars(c.as_slice(), g.as_slice()) {
            Ok(CacheFileKind::Graph)
        } else if same_chars(c.as_slice(), tr.as_slice()) {
            Ok(CacheFileKind::Traces)
        } else if same_chars(c.as_slice(), pt.as_slice()) {
            Ok(CacheFileKind::ProcessTraces)
        } else {
            match ChecksumKind::from_str(s) {
                Ok(k) => Ok(CacheFileKind::Checksums(k)),
                Err(e) => Err(e),
            }
        }
    }
}

/// Reading the ending of a kind of checksums gives back the kind.
pub proof fn lemma_checksum_kind_roundtrip(k: ChecksumKind)
    ensures
        checksum_kind_of(checksum_ending(k)) == Some(k),
{
    reveal_strlit("checksum");
    reveal_strlit("checksum_vtbl");
    reveal_strlit("checksum_const");
    assert("checksum"@.len() != "checksum_vtbl"@.len());
    assert("checksum"@.len() != "checksum_const"@.len());
    assert("checksum_vtbl"@[9] != "checksum_const"@[9]);
}

/// Reading the ending of a kind of cache files gives back the kind.
pub proof fn lemma_cache_file_kind_roundtrip(k: CacheFileKind)
    ensures
        kind_of(kind_ending(k)) == Some(k),
{
    reveal_strlit("test");
    reveal_strlit("changes");
    reveal_strlit("dot");
    reveal_strlit("trace");
    reveal_strlit(".process_trace");
    reveal_strlit("checksum");
    reveal_strlit("checksum_vtbl");
    reveal_strlit("checksum_const");
    let all = seq!["test"@, "changes"@, "dot"@, "trace"@, ".process_trace"@, "checksum"@, "checksum_vtbl"@, "checksum_const"@];
    assert forall|i: int, j: int| 0 <= i < j < 8 implies all[i] != all[j] by {
        assert(all[i].len() != all[j].len() || all[i][0] != all[j][0] || all[i][1] != all[j][1]
            || all[i][all[i].len() - 1] != all[j][all[j].len() - 1]);
    }
    assert(all[0] == "test"@ && all[1] == "changes"@ && all[2] == "dot"@ && all[3] == "trace"@);
    assert(all[4] == ".process_trace"@ && all[5] == "checksum"@ && all[6] == "checksum_vtbl"@ && all[7] == "checksum_const"@);
    if let CacheFileKind::Checksums(c) = k {
        lemma_checksum_kind_roundtrip(c);
    }
}

/// A cache file: its crate, compile mode, doctest and kind.
#[derive(Debug, Clone, PartialEq, Eq)]
pub struct CacheFileDescr {
    pub crate_name: String,
    pub compile_mode: Option<String>,
    pub doctest_name: Option<String>,
    pub kind: CacheFileKind,
}

/// The file name, without ending, of a cache file.
pub open spec fn descr_name(crate_name: Seq<char>, compile_mode: Option<Seq<char>>, doctest_name: Option<Seq<char>>) -> Seq<char> {
    (match compile_mode {
        Some(m) => m + "_"@,
        None => Seq::empty(),
    }) + crate_name + (match doctest_name {
        Some(d) => "_"@ + d,
        None => Seq::empty(),
    })
}

/// The optional text as characters.
pub open spec fn opt_view(o: Option<String>) -> Option<Seq<char>> {
    match o {
        Some(s) => Some(s@),
        None => None,
    }
}

/// The path of the cache file in `dir`.
pub open spec fn descr_path(dir: Seq<char>, d: CacheFileDescr) -> Seq<char> {
    let p = path_push(dir, descr_name(d.crate_name@, opt_view(d.compile_mode), opt_view(d.doctest_name)));
    match with_extension(p, kind_ending(d.kind)) {
        Some(q) => q,
        None => p,
    }
}

/// What the name of a cache file gives: crate, compile mode, doctest and
/// kind, or why it is no cache file name.
pub open spec fn parsed_descr(p: Seq<char>) -> Result<(Seq<char>, Option<Seq<char>>, Option<Seq<char>>, CacheFileKind), CacheFileParsingError> {
    match file_name(p) {
        None => Err(CacheFileParsingError::FoundDirectory),
        Some(n) => {
            let stem = stem_of(n);
            let (mode, rest) = match split_once(stem, "_"@) {
                Some((m, r)) => (Some(m), r),
                None => (None, stem),
            };
            match rsplit_once(rest, "_"@) {
                Some((r, id)) if strip_suffix(id, "]"@) is None => Err(CacheFileParsingError::InvalidFileName),
                _ => {
                    let (doctest, krate) = match rsplit_once(rest, "_"@) {
                        Some((r, id)) => (strip_suffix(id, "]"@), r),
                        None => (None, rest),
                    };
                    match extension_of(n) {
                        None => Err(CacheFileParsingError::InvalidFileName),
                        Some(e) => match kind_of(e) {
                            None => Err(CacheFileParsingError::InvalidKind),
                            Some(k) => Ok((krate, mode, doctest, k)),
                        },
                    }
                },
            }
        },
    }
}

impl CacheFileDescr {
    /// A cache file description.
    pub fn new(crate_name: String, compile_mode: Option<String>, doctest_name: Option<String>, kind: CacheFileKind) -> (r: CacheFileDescr)
        ensures
            r == (CacheFileDescr { crate_name, compile_mode, doctest_name, kind }),
    {
        CacheFileDescr { crate_name, compile_mode, doctest_name, kind }
    }

    /// Appends the cache file's name to `buf` and sets its ending.
    pub fn apply(&self, buf: &mut CachePath)
        ensures
            final(buf)@ == descr_path(old(buf)@, *self),
    {
        let mut name: Vec<char> = Vec::new();
        match &self.compile_mode {
            Some(mode) => {
                let m = chars_of(mode.as_str());
                extend_chars(&mut name, m.as_slice());
                name.push('_');
            },
            None => {},
        }
        let c = chars_of(self.crate_name.as_str());
        extend_chars(&mut name, c.as_slice());
        match &self.doctest_name {
            Some(doctest) => {
                name.push('_');
                let d = chars_of(doctest.as_str());
                extend_chars(&mut name, d.as_slice());
            },
            None => {},
        }
        proof {
            let mode_part = match opt_view(self.compile_mode) {
                Some(m) => m + "_"@,
                None => Seq::empty(),
            };
            reveal_strlit("_");
            assert(name@ =~= descr_name(self.crate_name@, opt_view(self.compile_mode), opt_view(self.doctest_name)));
        }
        let file = string_of(name.as_slice());
        buf.push(file.as_str());
        buf.set_extension(self.kind.as_str());
    }

    /// The cache file that `path` names.
    pub fn try_from_path(path: &CachePath) -> (r: Result<CacheFileDescr, CacheFileParsingError>)
        ensures
            match parsed_descr(path@) {
                Ok((k, m, d, kind)) => r matches Ok(descr) && descr.crate_name@ == k && opt_view(descr.compile_mode) == m
                    && opt_view(descr.doctest_name) == d && descr.kind == kind,
                Err(e) => r == Err::<CacheFileDescr, CacheFileParsingError>(e),
            },
    {
        let stem = match path.file_stem() {
            Some(s) => s,
            None => {
                return Err(CacheFileParsingError::FoundDirectory);
            },
        };
        let sc = chars_of(stem.as_str());
        let under = literal("_");
        let bracket = literal("]");
        let (compile_mode, rest) = match crate::text::split_once_exec(sc.as_slice(), under.as_slice()) {
            Some((m, r)) => (Some(string_of(m.as_slice())), r),
            None => (None, sc),
        };
        let (doctest_name, krate) = match crate::text::rsplit_once_exec(rest.as_slice(), under.as_slice()) {
            Some((r, id)) => match crate::text::strip_suffix_exec(id.as_slice(), bracket.as_slice()) {
                Some(d) => (Some(string_of(d.as_slice())), r),
                None => {
                    return Err(CacheFileParsingError::InvalidFileName);
                },
            },
            None => (None, rest),
        };
        let ending = match path.extension() {
            Some(e) => e,
            None => {
                return Err(CacheFileParsingError::InvalidFileName);
            },
        };
        let kind = match CacheFileKind::from_str(ending.as_str()) {
            Ok(k) => k,
            Err(e) => {
                return Err(e);
            },
        };
        Ok(CacheFileDescr { crate_name: string_of(krate.as_slice()), compile_mode, doctest_name, kind })
    }
}

/// The lines of `content` that are not empty, in order.
pub open spec fn nonempty_lines(content: Seq<char>) -> Seq<Seq<char>> {
    crate::text::split_by(content, seq!['\n']).filter(|l: Seq<char>| l.len() > 0)
}

/// The lines of a file's content that are not empty.
pub fn read_lines(content: &str) -> (r: Vec<String>)
    ensures
        crate::text::names_of(r@) == nonempty_lines(content@),
{
    let c = chars_of(content);
    let nl = vec!['\n'];
    assert(nl@ =~= seq!['\n']);
    let pieces = crate::text::split_by_exec(c.as_slice(), nl.as_slice());
    let ghost ps = crate::text::split_by(content@, seq!['\n']);
    let mut r: Vec<String> = Vec::new();
    let mut i: usize = 0;
    while i < pieces.len()
        invariant
            i <= pieces@.len() == ps.len(),
            forall|j: int| 0 <= j < pieces@.len() ==> (#[trigger] pieces@[j])@ == ps[j],
            crate::text::names_of(r@) == ps.take(i as int).filter(|l: Seq<char>| l.len() > 0),
        decreases pieces@.len() - i,
    {
        proof {
            reveal(Seq::filter);
            assert(ps.take(i + 1).drop_last() =~= ps.take(i as int));
            assert(ps.take(i + 1).last() == pieces@[i as int]@);
        }
        if pieces[i].len() > 0 {
            r.push(string_of(pieces[i].as_slice()));
            assert(crate::text::names_of(r@) =~= ps.take(i as int).filter(|l: Seq<char>| l.len() > 0).push(pieces@[i as int]@));
        }
        i = i + 1;
    }
    assert(ps.take(pieces@.len() as int) =~= ps);
    r
}

} // verus!
