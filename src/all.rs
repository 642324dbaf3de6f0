use crate::collect::{Collect, Emit};
use crate::deluge::Deluge;
use vstd::prelude::*;

verus! {

/// Whether every element of `s` is `b`.
pub open spec fn all_are(s: Seq<bool>, b: bool) -> bool {
    forall|i: int| 0 <= i < s.len() ==> s[i] == b
}

/// What one poll of a short-circuiting aggregate found.
pub enum Verdict {
    /// The aggregate is decided.
    Decided(bool),
    /// Nothing is decided until a running computation reports.
    Pending,
}

/// Resolves to whether every computation of a deluge of booleans resolves to
/// `true`: `false` as soon as a `false` is yielded in input order, `true` once
/// all are yielded.
pub struct All<D: Deluge<Item = bool>> {
    pub collect: Collect<D>,
}

impl<D: Deluge<Item = bool>> All<D> {
    pub open spec fn wf(&self) -> bool {
        &&& self.collect.wf()
        &&& all_are(self.collect.results().delivered(), true)
    }

    pub fn new(deluge: D, concurrency: Option<usize>) -> (r: Self)
        ensures
            r.wf(),
            r.collect.upstream() == deluge.pending(),
            r.collect.limit() == crate::collect::limit_of(concurrency),
            !r.collect.exhausted(),
            r.collect.results().len() == 0,
    {
        All { collect: Collect::new(deluge, concurrency) }
    }

    /// Takes the results that are due, in input order, until one decides.
    pub fn poll(&mut self) -> (v: Verdict)
        requires
            old(self).wf(),
        ensures
            final(self).collect.wf(),
            final(self).collect.upstream() == old(self).collect.upstream(),
            final(self).collect.exhausted() == old(self).collect.exhausted(),
            final(self).collect.results().len() == old(self).collect.results().len(),
            final(self).collect.results().reported() == old(self).collect.results().reported(),
            forall|i: int|
                final(self).collect.results().is_running(i) == old(self).collect.results().is_running(
                    i,
                ),
            match v {
                Verdict::Decided(false) => {
                    let d = final(self).collect.results().delivered();
                    &&& d.len() > 0
                    &&& d.last() == false
                    &&& all_are(d.drop_last(), true)
                },
                Verdict::Decided(true) => {
                    &&& final(self).wf()
                    &&& final(self).collect.exhausted()
                    &&& final(self).collect.results().cursor() == final(self).collect.results().len()
                },
                Verdict::Pending => {
                    &&& final(self).wf()
                    &&& (old(self).collect.results().is_running(
                        final(self).collect.results().cursor() as int,
                    ) || (final(self).collect.results().cursor()
                        == final(self).collect.results().len() && !old(self).collect.exhausted()))
                },
            },
    {
        loop
            invariant
                self.wf(),
                self.collect.upstream() == old(self).collect.upstream(),
                self.collect.exhausted() == old(self).collect.exhausted(),
                self.collect.results().len() == old(self).collect.results().len(),
                self.collect.results().reported() == old(self).collect.results().reported(),
                forall|i: int|
                    self.collect.results().is_running(i) == old(self).collect.results().is_running(i),
            decreases self.collect.results().len() - self.collect.results().cursor(),
        {
            proof {
                self.collect.lemma_results_wf();
                self.collect.results().lemma_cursor_in_range();
            }
            match self.collect.poll_output() {
                Emit::Item(true) => {
                    proof {
                        self.collect.lemma_results_wf();
                        self.collect.results().lemma_cursor_in_range();
                    }
                },
                Emit::Item(false) => {
                    return Verdict::Decided(false);
                },
                Emit::Pending => {
                    return Verdict::Pending;
                },
                Emit::Finished => {
                    return Verdict::Decided(true);
                },
            }
        }
    }
}

} // verus!
