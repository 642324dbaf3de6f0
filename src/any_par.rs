use crate::collect::Emit;
use crate::collect_par::CollectPar;
use crate::all::Verdict;
use crate::deluge::Deluge;
use vstd::prelude::*;

verus! {

/// Resolves, with the parallel driver, to whether some computation of a deluge of booleans resolves to
/// `true`: `true` as soon as a `true` is yielded in input order, `false` once
/// all are yielded.
pub struct AnyPar<D: Deluge<Item = bool>> {
    pub collect: CollectPar<D>,
}

impl<D: Deluge<Item = bool>> AnyPar<D> {
    pub open spec fn wf(&self) -> bool {
        &&& self.collect.wf()
        &&& crate::all::all_are(self.collect.results().delivered(), false)
    }

    pub fn new(deluge: D, worker_count: Option<usize>, worker_concurrency: Option<usize>) -> (r:
        Self)
        requires
            worker_count != Some(0usize),
        ensures
            r.wf(),
            r.collect.upstream() == deluge.pending(),
            !r.collect.started(),
            worker_count is Some ==> r.collect.worker_count() == worker_count->Some_0,
            r.collect.given_concurrency() == worker_concurrency,
    {
        AnyPar { collect: CollectPar::new(deluge, worker_count, worker_concurrency) }
    }

    /// Takes the results that are due, in input order, until one decides.
    pub fn poll(&mut self) -> (v: Verdict)
        requires
            old(self).wf(),
        ensures
            final(self).collect.wf(),
            final(self).collect.pool() == old(self).collect.pool(),
            final(self).collect.started() == old(self).collect.started(),
            final(self).collect.results().len() == old(self).collect.results().len(),
            final(self).collect.results().reported() == old(self).collect.results().reported(),
            forall|i: int|
                final(self).collect.results().is_running(i) == old(self).collect.results().is_running(
                    i,
                ),
            match v {
                Verdict::Decided(true) => {
                    let d = final(self).collect.results().delivered();
                    &&& d.len() > 0
                    &&& d.last() == true
                    &&& crate::all::all_are(d.drop_last(), false)
                },
                Verdict::Decided(false) => {
                    &&& final(self).wf()
                    &&& final(self).collect.started()
                    &&& final(self).collect.results().cursor() == final(self).collect.results().len()
                },
                Verdict::Pending => {
                    &&& final(self).wf()
                    &&& (!old(self).collect.started() || old(self).collect.results().is_running(
                        final(self).collect.results().cursor() as int,
                    ))
                },
            },
    {
        loop
            invariant
                self.wf(),
                self.collect.pool() == old(self).collect.pool(),
                self.collect.started() == old(self).collect.started(),
                self.collect.results().len() == old(self).collect.results().len(),
                self.collect.results().reported() == old(self).collect.results().reported(),
                forall|i: int|
                    self.collect.results().is_running(i) == old(self).collect.results().is_running(i),
            decreases self.collect.results().len() - self.collect.results().cursor(),
        {
            proof {
                self.collect.lemma_results_wf();
                self.collect.results().lemma_cursor_in_range();
            }
            match self.collect.poll_output() {
                Emit::Item(false) => {
                    proof {
                        self.collect.lemma_results_wf();
                        self.collect.results().lemma_cursor_in_range();
                    }
                },
                Emit::Item(true) => {
                    return Verdict::Decided(true);
                },
                Emit::Pending => {
                    return Verdict::Pending;
                },
                Emit::Finished => {
                    return Verdict::Decided(false);
                },
            }
        }
    }
}

} // verus!
