use crate::all::Verdict;
use crate::collect::{Collect, Emit};
use crate::deluge::Deluge;
use vstd::prelude::*;

verus! {

/// Resolves to whether some computation of a deluge of booleans resolves to
/// `true`: `true` as soon as a `true` is yielded in input order, `false` once
/// all are yielded.
pub struct Any<D: Deluge<Item = bool>> {
    pub collect: Collect<D>,
}

impl<D: Deluge<Item = bool>> Any<D> {
    pub open spec fn wf(&self) -> bool {
        &&& self.collect.wf()
        &&& crate::all::all_are(self.collect.results().delivered(), false)
    }

    pub fn new(deluge: D, concurrency: Option<usize>) -> (r: Self)
        ensures
            r.wf(),
            r.collect.upstream() == deluge.pending(),
            r.collect.limit() == crate::collect::limit_of(concurrency),
            !r.collect.exhausted(),
            r.collect.results().len() == 0,
    {
        Any { collect: Collect::new(deluge, concurrency) }
    }

    /// Takes the results that are due, in input order, until one decides.
    pub fn poll(&mut self) -> (v: Verdict)
        requires
            old(self).wf(),
        ensures
            final(self).collect.wf(),
            final(self).collect.upstream() == old(self).collect.upstream(),
            final(self).collect.exhausted() == old(self).collect.exhausted(),
            final(self).collect.results().len() == old(self).collect.results().len(),
            final(self).collect.results().reported() == old(self).collect.results().reported(),
            forall|i: int|
                final(self).collect.results().is_running(i) == old(self).collect.results().is_running(
                    i,
                ),
            match v {
                Verdict::Decided(true) => {
                    let d = final(self).collect.results().delivered();
                    &&& d.len() > 0
                    &&& d.last() == true
                    &&& crate::all::all_are(d.drop_last(), false)
                },
                Verdict::Decided(false) => {
                    &&& final(self).wf()
                    &&& final(self).collect.exhausted()
                    &&& final(self).collect.results().cursor() == final(self).collect.results().len()
                },
                Verdict::Pending => {
                    &&& final(self).wf()
                    &&& (old(self).collect.results().is_running(
                        final(self).collect.results().cursor() as int,
                    ) || (final(self).collect.results().cursor()
                        == final(self).collect.results().len() && !old(self).collect.exhausted()))
                },
            },
    {
        loop
            invariant
                self.wf(),
                self.collect.upstream() == old(self).collect.upstream(),
                self.collect.exhausted() == old(self).collect.exhausted(),
                self.collect.results().len() == old(self).collect.results().len(),
                self.collect.results().reported() == old(self).collect.results().reported(),
                forall|i: int|
                    self.collect.results().is_running(i) == old(self).collect.results().is_running(i),
            decreases self.collect.results().len() - self.collect.results().cursor(),
        {
            proof {
                self.collect.lemma_results_wf();
                self.collect.results().lemma_cursor_in_range();
            }
            match self.collect.poll_output() {
                Emit::Item(false) => {
                    proof {
                        self.collect.lemma_results_wf();
                        self.collect.results().lemma_cursor_in_range();
                    }
                },
                Emit::Item(true) => {
                    return Verdict::Decided(true);
                },
                Emit::Pending => {
                    return Verdict::Pending;
                },
                Emit::Finished => {
                    return Verdict::Decided(false);
                },
            }
        }
    }
}

} // verus!
