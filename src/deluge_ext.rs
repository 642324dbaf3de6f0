use crate::all::All;
use crate::any::Any;
use crate::chain::Chain;
use crate::all_par::AllPar;
use crate::any_par::AnyPar;
use crate::collect::Collect;
use crate::collect_par::CollectPar;
use crate::deluge::Deluge;
use crate::filter_map::FilterMap;
use crate::fold::Fold;
use crate::fold_par::FoldPar;
use crate::last::Last;
use crate::map::MapDeluge;
use crate::take::{First, Take};
use crate::zip::Zip;
use vstd::prelude::*;

verus! {

/// The operations available on every deluge.
pub trait DelugeExt: Deluge + Sized {
    /// Hands out at most `how_many` computations.
    fn take(self, how_many: usize) -> (r: Take<Self>)
        ensures
            r.pending() == crate::deluge::prefix_of(self.pending(), how_many as int),
    {
        Take::new(self, how_many)
    }

    /// Hands out only the first computation.
    fn first(self) -> (r: First<Self>)
        ensures
            r.pending() == crate::deluge::prefix_of(self.pending(), 1),
    {
        First::new(self)
    }

    /// Hands out only the last computation.
    fn last(self) -> (r: Last<Self>)
        ensures
            r.pending() == crate::last::last_only(self.pending()),
    {
        Last::new(self)
    }

    /// Hands out these computations, then those of `other`.
    fn chain<D2: Deluge<Item = Self::Item, Output = Self::Output>>(self, other: D2) -> (r: Chain<
        Self,
        D2,
    >)
        ensures
            r.pending() == self.pending() + other.pending(),
    {
        Chain::new(self, other)
    }

    /// Counts the computations without evaluating any.
    fn count(self) -> (r: usize)
        requires
            self.pending().len() <= usize::MAX,
        ensures
            r == self.pending().len(),
    {
        crate::count::count(self)
    }

    /// Applies `f` to what each computation resolves to.
    fn map<F, O>(self, f: F) -> (r: MapDeluge<Self, F, O>)
        ensures
            r.pending() == self.pending().map_values(
                |c: Self::Output| crate::map::MapStep { inner: c, f: r.function() },
            ),
    {
        MapDeluge::new(self, f)
    }

    /// Applies `f`, which may filter a position out, to what each computation
    /// resolves to.
    fn filter_map<F, O>(self, f: F) -> (r: FilterMap<Self, F, O>)
        ensures
            r.pending() == self.pending().map_values(
                |c: Self::Output| crate::filter_map::FilterMapStep { inner: c, f: r.function() },
            ),
    {
        FilterMap::new(self, f)
    }

    /// Pairs the `i`-th results of this deluge and `other`; see [`Zip`].
    fn zip<D2: Deluge, S1, S2>(self, other: D2) -> (r: Zip<Self, D2, S1, S2>)
        ensures
            r.total() == if self.pending().len() < other.pending().len() {
                self.pending().len()
            } else {
                other.pending().len()
            },
            r.handles() is None,
            r.pending() == Seq::<crate::zip::ZipStep<S1, S2>>::empty(),
            r.first_side() matches Some(p) && p.pending() == self.pending(),
            r.second_side() matches Some(p) && p.pending() == other.pending(),
    {
        Zip::new(self, other)
    }

    /// The concurrent driver over this deluge.
    fn collect(self, concurrency: Option<usize>) -> (r: Collect<Self>)
        ensures
            r.wf(),
            r.upstream() == self.pending(),
            !r.exhausted(),
            r.limit() == crate::collect::limit_of(concurrency),
            r.results().len() == 0,
            r.results().running() == 0,
            r.results().cursor() == 0,
    {
        Collect::new(self, concurrency)
    }

    /// The parallel driver over this deluge.
    fn collect_par(self, worker_count: Option<usize>, worker_concurrency: Option<usize>) -> (r:
        CollectPar<Self>)
        requires
            worker_count != Some(0usize),
        ensures
            r.wf(),
            !r.started(),
            r.upstream() == self.pending(),
            worker_count is Some ==> r.worker_count() == worker_count->Some_0,
            r.worker_count() >= 1,
            r.given_concurrency() == worker_concurrency,
            r.results().len() == 0,
            r.results().cursor() == 0,
    {
        CollectPar::new(self, worker_count, worker_concurrency)
    }

    /// Folds the results in input order, starting from `init`.
    fn fold<A>(self, concurrency: Option<usize>, init: A) -> (r: Fold<Self, A>)
        ensures
            r.wf(),
            !r.reducing(),
            !r.stepping(),
            r.accs() == seq![init],
            r.collector().upstream() == self.pending(),
            r.collector().limit() == crate::collect::limit_of(concurrency),
            !r.collector().exhausted(),
            r.collector().results().len() == 0,
    {
        Fold::new(self, concurrency, init)
    }

    /// Like `fold`, with the parallel driver.
    fn fold_par<A>(
        self,
        worker_count: Option<usize>,
        worker_concurrency: Option<usize>,
        init: A,
    ) -> (r: FoldPar<Self, A>)
        requires
            worker_count != Some(0usize),
        ensures
            r.wf(),
            !r.reducing(),
            !r.stepping(),
            r.accs() == seq![init],
            r.collector().upstream() == self.pending(),
            !r.collector().started(),
            worker_count is Some ==> r.collector().worker_count() == worker_count->Some_0,
            r.collector().given_concurrency() == worker_concurrency,
    {
        FoldPar::new(self, worker_count, worker_concurrency, init)
    }
}

impl<D: Deluge> DelugeExt for D {}

/// The operations available on every deluge of booleans.
pub trait DelugeBoolExt: Deluge<Item = bool> + Sized {
    /// Whether every result is `true`, decided as soon as a `false` arrives in order.
    fn all(self, concurrency: Option<usize>) -> (r: All<Self>)
        ensures
            r.wf(),
            r.collect.upstream() == self.pending(),
            r.collect.limit() == crate::collect::limit_of(concurrency),
            !r.collect.exhausted(),
            r.collect.results().len() == 0,
    {
        All::new(self, concurrency)
    }

    /// Whether some result is `true`, decided as soon as a `true` arrives in order.
    fn any(self, concurrency: Option<usize>) -> (r: Any<Self>)
        ensures
            r.wf(),
            r.collect.upstream() == self.pending(),
            r.collect.limit() == crate::collect::limit_of(concurrency),
            !r.collect.exhausted(),
            r.collect.results().len() == 0,
    {
        Any::new(self, concurrency)
    }

    /// Like `all`, with the parallel driver.
    fn all_par(self, worker_count: Option<usize>, worker_concurrency: Option<usize>) -> (r: AllPar<
        Self,
    >)
        requires
            worker_count != Some(0usize),
        ensures
            r.wf(),
            r.collect.upstream() == self.pending(),
            !r.collect.started(),
            worker_count is Some ==> r.collect.worker_count() == worker_count->Some_0,
            r.collect.given_concurrency() == worker_concurrency,
    {
        AllPar::new(self, worker_count, worker_concurrency)
    }

    /// Like `any`, with the parallel driver.
    fn any_par(self, worker_count: Option<usize>, worker_concurrency: Option<usize>) -> (r: AnyPar<
        Self,
    >)
        requires
            worker_count != Some(0usize),
        ensures
            r.wf(),
            r.collect.upstream() == self.pending(),
            !r.collect.started(),
            worker_count is Some ==> r.collect.worker_count() == worker_count->Some_0,
            r.collect.given_concurrency() == worker_concurrency,
    {
        AnyPar::new(self, worker_count, worker_concurrency)
    }
}

impl<D: Deluge<Item = bool>> DelugeBoolExt for D {}

} // verus!
