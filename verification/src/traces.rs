//! The traces of a test binary: the functions a test ran through, recorded
//! once each, handed over when the test ends and written one per line.

use vstd::prelude::*;
use crate::text::{names_of, concat_lines, chars_of, string_of, extend_chars};
use crate::fs_utils::{CacheFileDescr, CacheFileKind};

verus! {

/// The functions traced since the list was last reset.
pub struct TraceList {
    traced: Vec<String>,
}

impl TraceList {
    /// The traced functions.
    pub closed spec fn view(&self) -> Set<Seq<char>> {
        names_of(self.traced@).to_set()
    }

    /// Each function is kept once.
    pub closed spec fn wf(&self) -> bool {
        names_of(self.traced@).no_duplicates()
    }

    /// An empty list.
    pub fn new() -> (r: TraceList)
        ensures
            r.wf(),
            r@ == Set::<Seq<char>>::empty(),
    {
        let r = TraceList { traced: Vec::new() };
        assert(names_of(r.traced@) =~= Seq::empty());
        assert(r@ =~= Set::empty());
        r
    }

    /// Records that the function `name` ran.
    pub fn trace(&mut self, name: &str)
        requires
            old(self).wf(),
        ensures
            final(self).wf(),
            final(self)@ == old(self)@.insert(name@),
    {
        let n = string_of(chars_of(name).as_slice());
        if crate::text::contains_name(&self.traced, &n) {
            assert(self@.insert(name@) =~= self@);
        } else {
            let ghost before = self.traced@;
            self.traced.push(n);
            proof {
                crate::text::lemma_names_push(before, n);
                crate::seqs::lemma_push_no_duplicates(names_of(before), n@);
                crate::seqs::lemma_push_to_set(names_of(before), n@);
            }
        }
    }

    /// The traced functions, each once; the list is empty afterwards.
    pub fn reset_list(&mut self) -> (r: Vec<String>)
        requires
            old(self).wf(),
        ensures
            final(self).wf(),
            final(self)@ == Set::<Seq<char>>::empty(),
            names_of(r@).no_duplicates(),
            names_of(r@).to_set() == old(self)@,
    {
        let mut r: Vec<String> = Vec::new();
        std::mem::swap(&mut r, &mut self.traced);
        assert(names_of(self.traced@) =~= Seq::empty());
        assert(self@ =~= Set::empty());
        r
    }
}

/// Before a test: forget what was traced so far.
pub fn pre_test(list: &mut TraceList)
    requires
        old(list).wf(),
    ensures
        final(list).wf(),
        final(list)@ == Set::<Seq<char>>::empty(),
{
    let _ = list.reset_list();
}

/// Before the main function of a traced process: nothing to do.
pub fn pre_main() {
}

/// After a test: the functions it ran through, each once, and the file
/// they are written to; the list is empty afterwards.
pub fn post_test(list: &mut TraceList, test_name: &str) -> (r: (Vec<String>, CacheFileDescr))
    requires
        old(list).wf(),
    ensures
        final(list).wf(),
        final(list)@ == Set::<Seq<char>>::empty(),
        names_of(r.0@).no_duplicates(),
        names_of(r.0@).to_set() == old(list)@,
        r.1.crate_name@ == test_name@,
        r.1.compile_mode is None,
        r.1.doctest_name is None,
        r.1.kind == CacheFileKind::Traces,
{
    let traces = list.reset_list();
    let name = string_of(chars_of(test_name).as_slice());
    let descr = CacheFileDescr::new(name, None, None, CacheFileKind::Traces);
    (traces, descr)
}

/// The text written for traces: the traces of the test and those that
/// child processes left, each once, one per line.
pub fn traces_output(traces: &Vec<String>, child_traces: &Vec<String>) -> (r: String)
    ensures
        exists|ls: Seq<Seq<char>>|
            #![trigger concat_lines(ls)]
            ls.no_duplicates() && ls.to_set() == names_of(traces@).to_set() + names_of(child_traces@).to_set()
                && r@ == concat_lines(ls),
{
    let mut all = TraceList::new();
    let mut i: usize = 0;
    while i < traces.len()
        invariant
            i <= traces@.len(),
            all.wf(),
            all@ == names_of(traces@).take(i as int).to_set(),
        decreases traces@.len() - i,
    {
        all.trace(traces[i].as_str());
        proof {
            assert(names_of(traces@).take(i + 1) =~= names_of(traces@).take(i as int).push(traces@[i as int]@));
            crate::seqs::lemma_push_to_set(names_of(traces@).take(i as int), traces@[i as int]@);
        }
        i = i + 1;
    }
    assert(names_of(traces@).take(traces@.len() as int) =~= names_of(traces@));
    let mut j: usize = 0;
    while j < child_traces.len()
        invariant
            j <= child_traces@.len(),
            all.wf(),
            all@ == names_of(traces@).to_set() + names_of(child_traces@).take(j as int).to_set(),
        decreases child_traces@.len() - j,
    {
        all.trace(child_traces[j].as_str());
        proof {
            assert(names_of(child_traces@).take(j + 1) =~= names_of(child_traces@).take(j as int).push(child_traces@[j as int]@));
            crate::seqs::lemma_push_to_set(names_of(child_traces@).take(j as int), child_traces@[j as int]@);
            assert(all@ =~= names_of(traces@).to_set() + names_of(child_traces@).take(j + 1).to_set());
        }
        j = j + 1;
    }
    assert(names_of(child_traces@).take(child_traces@.len() as int) =~= names_of(child_traces@));
    let lines = all.reset_list();
    let ghost ls = names_of(lines@);
    let mut out: Vec<char> = Vec::new();
    let mut k: usize = 0;
    while k < lines.len()
        invariant
            k <= lines@.len(),
            ls == names_of(lines@),
            out@ == concat_lines(ls.take(k as int)),
        decreases lines@.len() - k,
    {
        let c = chars_of(lines[k].as_str());
        extend_chars(&mut out, c.as_slice());
        out.push('\n');
        proof {
            assert(ls.take(k + 1).drop_last() =~= ls.take(k as int));
            assert(ls.take(k + 1).last() == lines@[k as int]@);
            assert(out@ =~= concat_lines(ls.take(k as int)) + lines@[k as int]@ + seq!['\n']);
        }
        k = k + 1;
    }
    assert(ls.take(lines@.len() as int) =~= ls);
    string_of(out.as_slice())
}

} // verus!
