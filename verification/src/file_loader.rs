//! How the compiler's view of a crate's source is extended for dynamic test
//! selection: the first file read is given the code that links the tracing
//! library and, for test builds, the code that hands the tests to the
//! selecting test runner. The code put in is given to the loaders.

use vstd::prelude::*;
use crate::text::{chars_of, contains, extend_chars, joined_with, literal, split_by, string_of};

verus! {

/// `s` without any occurrence of `#![feature(test)]`, as `str::replace`
/// with an empty replacement gives it.
pub open spec fn without_test_feature(s: Seq<char>) -> Seq<char> {
    joined_with(split_by(s, "#![feature(test)]"@), Seq::empty())
}

/// The attribute of crates that use a test framework of their own.
pub open spec fn custom_frameworks_attr() -> Seq<char> {
    "#![feature(custom_test_frameworks)]"@
}

/// `s` without any occurrence of `#![feature(test)]`.
fn remove_test_feature(s: &str) -> (r: Vec<char>)
    ensures
        r@ == without_test_feature(s@),
{
    proof {
        reveal_strlit("#![feature(test)]");
    }
    let cs = chars_of(s);
    let p = literal("#![feature(test)]");
    let pieces = crate::text::split_by_exec(cs.as_slice(), p.as_slice());
    let ghost ps = split_by(s@, "#![feature(test)]"@);
    let mut out: Vec<char> = Vec::new();
    let mut i: usize = 0;
    while i < pieces.len()
        invariant
            i <= pieces@.len(),
            pieces@.map_values(|v: Vec<char>| v@) == ps,
            out@ == joined_with(ps.take(i as int), Seq::empty()),
        decreases pieces@.len() - i,
    {
        assert(pieces@.map_values(|v: Vec<char>| v@)[i as int] == pieces@[i as int]@);
        extend_chars(&mut out, pieces[i].as_slice());
        proof {
            assert(ps.take(i + 1).drop_last() =~= ps.take(i as int));
            assert(ps.take(i + 1).last() == ps[i as int]);
            if i > 0 {
                assert(out@ =~= joined_with(ps.take(i as int), Seq::empty()) + Seq::<char>::empty() + ps[i as int]);
            }
        }
        i = i + 1;
    }
    assert(ps.take(pieces@.len() as int) =~= ps);
    out
}

/// The source `content` extended: `#![feature(test)]` taken out, and the
/// result put between `before` and `after`.
pub open spec fn extended(content: Seq<char>, before: Seq<char>, after: Seq<char>) -> Seq<char> {
    before + without_test_feature(content) + after
}

/// `content` extended with `before` and `after`.
fn extend_source(content: &str, before: &str, after: &str) -> (r: String)
    ensures
        r@ == extended(content@, before@, after@),
{
    let mut out = chars_of(before);
    let body = remove_test_feature(content);
    extend_chars(&mut out, body.as_slice());
    let a = chars_of(after);
    extend_chars(&mut out, a.as_slice());
    string_of(out.as_slice())
}

/// Reads the sources of a crate for instrumentation: the first file read is
/// followed by the code that links the tracing library.
pub struct InstrumentationFileLoaderProxy {
    appendix: String,
    inserted: bool,
}

impl InstrumentationFileLoaderProxy {
    /// Whether a file was extended already.
    pub closed spec fn inserted(&self) -> bool {
        self.inserted
    }

    /// The code put after the first file.
    pub closed spec fn appendix(&self) -> Seq<char> {
        self.appendix@
    }

    /// A loader that puts `appendix` after the first file it reads.
    pub fn new(appendix: String) -> (r: InstrumentationFileLoaderProxy)
        ensures
            !r.inserted(),
            r.appendix() == appendix@,
    {
        InstrumentationFileLoaderProxy { appendix, inserted: false }
    }

    /// The source as the compiler sees it of a file whose text is
    /// `content`: extended if it is the first file read, unchanged after.
    pub fn read_file(&mut self, content: &str) -> (r: String)
        requires
            !old(self).inserted() ==> !contains(content@, custom_frameworks_attr()),
        ensures
            final(self).inserted(),
            final(self).appendix() == old(self).appendix(),
            r@ == if old(self).inserted() {
                content@
            } else {
                extended(content@, Seq::empty(), old(self).appendix())
            },
    {
        proof {
            reveal_strlit("");
        }
        if !self.inserted {
            self.inserted = true;
            extend_source(content, "", self.appendix.as_str())
        } else {
            string_of(chars_of(content).as_slice())
        }
    }
}

/// Reads the sources of a crate's tests: the first file read is put
/// between the code that hands the tests to the selecting runner, after
/// the instrumentation has extended it.
pub struct TestRunnerFileLoaderProxy {
    delegate: InstrumentationFileLoaderProxy,
    prelude: String,
    appendix: String,
    inserted: bool,
}

impl TestRunnerFileLoaderProxy {
    /// Whether a file was extended already.
    pub closed spec fn inserted(&self) -> bool {
        self.inserted
    }

    /// The loader whose reading is extended.
    pub closed spec fn instrumentation(&self) -> InstrumentationFileLoaderProxy {
        self.delegate
    }

    /// The code put before the first file.
    pub closed spec fn prelude(&self) -> Seq<char> {
        self.prelude@
    }

    /// The code put after the first file.
    pub closed spec fn appendix(&self) -> Seq<char> {
        self.appendix@
    }

    /// A loader that puts `prelude` before and `appendix` after the first
    /// file that `delegate` reads.
    pub fn new(delegate: InstrumentationFileLoaderProxy, prelude: String, appendix: String) -> (r: TestRunnerFileLoaderProxy)
        ensures
            !r.inserted(),
            r.instrumentation() == delegate,
            r.prelude() == prelude@,
            r.appendix() == appendix@,
    {
        TestRunnerFileLoaderProxy { delegate, prelude, appendix, inserted: false }
    }

    /// The source as the compiler sees it of a file whose text is
    /// `content`: as the instrumentation reads it, then extended if it is
    /// the first file read.
    pub fn read_file(&mut self, content: &str) -> (r: String)
        requires
            !old(self).instrumentation().inserted() ==> !contains(content@, custom_frameworks_attr()),
            !old(self).inserted() ==> !contains(
                if old(self).instrumentation().inserted() {
                    content@
                } else {
                    extended(content@, Seq::empty(), old(self).instrumentation().appendix())
                },
                custom_frameworks_attr(),
            ),
        ensures
            final(self).inserted(),
            final(self).instrumentation().inserted(),
            final(self).instrumentation().appendix() == old(self).instrumentation().appendix(),
            final(self).prelude() == old(self).prelude(),
            final(self).appendix() == old(self).appendix(),
            ({
                let read = if old(self).instrumentation().inserted() {
                    content@
                } else {
                    extended(content@, Seq::empty(), old(self).instrumentation().appendix())
                };
                r@ == if old(self).inserted() {
                    read
                } else {
                    extended(read, old(self).prelude(), old(self).appendix())
                }
            }),
    {
        let read = self.delegate.read_file(content);
        if !self.inserted {
            self.inserted = true;
            extend_source(read.as_str(), self.prelude.as_str(), self.appendix.as_str())
        } else {
            read
        }
    }
}

} // verus!
