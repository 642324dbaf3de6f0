use crate::collect::{Collect, Emit};
use crate::deluge::Deluge;
use std::collections::VecDeque;
use vstd::prelude::*;

verus! {

/// Folds the results of a deluge: they are evaluated concurrently by
/// `collect`, then folded one at a time in input order, each step starting
/// from the accumulator that the previous step produced.
///
/// The caller drives `collect` (its `load` and `complete`), takes results
/// with `poll_collect`, then runs the steps that `next_step` hands out and
/// reports each new accumulator with `step_done`.
pub struct Fold<D: Deluge, A> {
    pub collect: Collect<D>,
    collected: VecDeque<D::Item>,
    reducing: bool,
    acc: Option<A>,
    items: Ghost<Seq<D::Item>>,
    accs: Ghost<Seq<A>>,
}

impl<D: Deluge, A> Fold<D, A> {
    /// The concurrent driver that evaluates the results.
    pub closed spec fn collector(&self) -> Collect<D> {
        self.collect
    }

    /// Whether every result has been collected and folding has begun.
    pub closed spec fn reducing(&self) -> bool {
        self.reducing
    }

    /// The results to fold, in input order, once collected.
    pub closed spec fn items(&self) -> Seq<D::Item> {
        self.items@
    }

    /// The accumulators so far: the initial one, then one per finished step.
    pub closed spec fn accs(&self) -> Seq<A> {
        self.accs@
    }

    /// Whether a step has been handed out and not reported.
    pub closed spec fn stepping(&self) -> bool {
        self.acc is None
    }

    pub closed spec fn wf(&self) -> bool {
        &&& self.collect.wf()
        &&& self.accs@.len() >= 1
        &&& !self.reducing ==> {
            &&& self.collected@ == self.collect.results().delivered()
            &&& self.accs@.len() == 1
            &&& self.acc == Some(self.accs@[0])
        }
        &&& self.reducing ==> {
            &&& self.items@ == self.collect.results().delivered()
            &&& self.collect.exhausted()
            &&& self.collect.results().cursor() == self.collect.results().len()
            &&& match self.acc {
                Some(a) => {
                    &&& self.accs@.len() + self.collected@.len() == self.items@.len() + 1
                    &&& a == self.accs@.last()
                },
                None => self.accs@.len() + self.collected@.len() == self.items@.len(),
            }
            &&& self.collected@ == self.items@.skip(self.items@.len() - self.collected@.len())
        }
    }

    /// Once folding has begun, the results to fold are the present reported
    /// results of all positions, in position order.
    pub proof fn lemma_items_are_outcomes(&self)
        requires
            self.wf(),
            self.reducing(),
        ensures
            self.items() == crate::ordered::somes(
                self.collector().results().outcomes(self.collector().results().len() as int),
            ),
    {
    }

    /// Whether every step has been run and reported.
    pub open spec fn finished(&self) -> bool {
        &&& self.reducing()
        &&& !self.stepping()
        &&& self.accs().len() == self.items().len() + 1
    }

    pub fn new(deluge: D, concurrency: Option<usize>, init: A) -> (r: Self)
        ensures
            r.wf(),
            !r.reducing(),
            !r.stepping(),
            r.accs() == seq![init],
            r.collector().upstream() == deluge.pending(),
            r.collector().limit() == crate::collect::limit_of(concurrency),
            !r.collector().exhausted(),
            r.collector().results().len() == 0,
    {
        let ghost a0 = init;
        Fold {
            collect: Collect::new(deluge, concurrency),
            collected: VecDeque::new(),
            reducing: false,
            acc: Some(init),
            items: Ghost(Seq::empty()),
            accs: Ghost(Seq::empty().push(a0)),
        }
    }

    /// Takes the next result of `collect`, if one is due. `Finished` means
    /// every result has been collected and folding begins.
    pub fn poll_collect(&mut self) -> (e: Emit<()>)
        requires
            old(self).wf(),
            !old(self).reducing(),
        ensures
            final(self).wf(),
            final(self).accs() == old(self).accs(),
            !final(self).stepping(),
            final(self).collector().upstream() == old(self).collector().upstream(),
            final(self).collector().exhausted() == old(self).collector().exhausted(),
            final(self).collector().results().len() == old(self).collector().results().len(),
            final(self).collector().results().reported() == old(self).collector().results().reported(),
            forall|i: int|
                final(self).collector().results().is_running(i) == old(self).collector().results().is_running(
                    i,
                ),
            old(self).collector().results().cursor() <= final(self).collector().results().cursor()
                <= final(self).collector().results().len(),
            forall|k: int|
                old(self).collector().results().cursor() <= k < final(self).collector().results().cursor() ==> !old(self).collector().results().is_running(k),
            match e {
                Emit::Item(_) => {
                    let d = final(self).collector().results().delivered();
                    &&& !final(self).reducing()
                    &&& old(self).collector().results().cursor() < final(self).collector().results().cursor()
                    &&& d.len() == old(self).collector().results().delivered().len() + 1
                    &&& d.drop_last() == old(self).collector().results().delivered()
                    &&& old(self).collector().results().reported()[final(self).collector().results().cursor() - 1] == Some(d.last())
                    &&& forall|k: int|
                        old(self).collector().results().cursor() <= k < final(self).collector().results().cursor() - 1
                            ==> old(self).collector().results().reported()[k] is None
                },
                Emit::Pending => {
                    &&& !final(self).reducing()
                    &&& final(self).collector().results().delivered() == old(self).collector().results().delivered()
                    &&& forall|k: int|
                        old(self).collector().results().cursor() <= k < final(self).collector().results().cursor()
                            ==> old(self).collector().results().reported()[k] is None
                    &&& (old(self).collector().results().is_running(
                        final(self).collector().results().cursor() as int,
                    ) || (final(self).collector().results().cursor()
                        == final(self).collector().results().len()
                        && !old(self).collector().exhausted()))
                },
                Emit::Finished => {
                    &&& final(self).reducing()
                    &&& old(self).collector().exhausted()
                    &&& final(self).collector().results().cursor()
                        == final(self).collector().results().len()
                    &&& final(self).collector().results().delivered() == old(self).collector().results().delivered()
                    &&& forall|k: int|
                        old(self).collector().results().cursor() <= k < final(self).collector().results().cursor()
                            ==> old(self).collector().results().reported()[k] is None
                    &&& final(self).items() == final(self).collector().results().delivered()
                    &&& final(self).items() == crate::ordered::somes(
                        final(self).collector().results().outcomes(
                            final(self).collector().results().len() as int,
                        ),
                    )
                },
            },
    {
        match self.collect.poll_output() {
            Emit::Item(v) => {
                self.collected.push_back(v);
                Emit::Item(())
            },
            Emit::Pending => Emit::Pending,
            Emit::Finished => {
                self.reducing = true;
                self.items = Ghost(self.collected@);
                proof {
                    assert(self.items@.skip(0) =~= self.items@);
                    crate::collect::finished_yields_results_in_order(&self.collect);
                }
                Emit::Finished
            },
        }
    }

    /// Hands out the next step: the current accumulator and the next result
    /// in input order; `None` once every result has been folded.
    pub fn next_step(&mut self) -> (r: Option<(A, D::Item)>)
        requires
            old(self).wf(),
            old(self).reducing(),
            !old(self).stepping(),
        ensures
            final(self).wf(),
            final(self).reducing(),
            final(self).items() == old(self).items(),
            final(self).accs() == old(self).accs(),
            match r {
                Some((a, v)) => {
                    &&& final(self).stepping()
                    &&& a == old(self).accs().last()
                    &&& old(self).accs().len() <= old(self).items().len()
                    &&& v == old(self).items()[old(self).accs().len() - 1]
                },
                None => !final(self).stepping() && old(self).finished(),
            },
    {
        match self.collected.pop_front() {
            Some(v) => {
                let a = self.acc.take().unwrap();
                proof {
                    let items = self.items@;
                    let k = old(self).collected@.len();
                    assert(old(self).collected@ == items.skip(items.len() - k));
                    assert(v == items[items.len() - k]);
                    assert(self.collected@ =~= items.skip(items.len() - (k - 1)));
                }
                Some((a, v))
            },
            None => None,
        }
    }

    /// Records the accumulator that the running step produced.
    pub fn step_done(&mut self, acc: A)
        requires
            old(self).wf(),
            old(self).reducing(),
            old(self).stepping(),
        ensures
            final(self).wf(),
            final(self).reducing(),
            !final(self).stepping(),
            final(self).items() == old(self).items(),
            final(self).accs() == old(self).accs().push(acc),
    {
        let ghost a = acc;
        self.acc = Some(acc);
        self.accs = Ghost(self.accs@.push(a));
    }

    /// The final accumulator.
    pub fn into_result(self) -> (r: A)
        requires
            self.wf(),
            self.finished(),
        ensures
            r == self.accs().last(),
    {
        self.acc.unwrap()
    }
}

pub(crate) proof fn lemma_fold_prefix<T, A>(items: Seq<T>, accs: Seq<A>, f: spec_fn(A, T) -> A, k: int)
    requires
        0 <= k <= items.len(),
        accs.len() == items.len() + 1,
        forall|j: int| 0 <= j < items.len() ==> accs[j + 1] == f(accs[j], items[j]),
    ensures
        accs[k] == items.take(k).fold_left(accs[0], f),
    decreases k,
{
    if k > 0 {
        lemma_fold_prefix(items, accs, f, k - 1);
        assert(items.take(k).drop_last() =~= items.take(k - 1));
    } else {
        assert(items.take(0) =~= Seq::<T>::empty());
    }
}

/// When each step of a finished fold applied `f` to the accumulator it was
/// given and the result it was given, the final accumulator is the left fold
/// of `f` over the results in input order, from the initial accumulator.
pub proof fn fold_follows_input_order<D: Deluge, A>(fo: &Fold<D, A>, f: spec_fn(A, D::Item) -> A)
    requires
        fo.wf(),
        fo.finished(),
        forall|k: int|
            0 <= k < fo.items().len() ==> fo.accs()[k + 1] == f(fo.accs()[k], fo.items()[k]),
    ensures
        fo.accs().last() == fo.items().fold_left(fo.accs()[0], f),
{
    lemma_fold_prefix(fo.items(), fo.accs(), f, fo.items().len() as int);
    assert(fo.items().take(fo.items().len() as int) =~= fo.items());
}

/// Two finished folds whose computations reported the same results, position
/// by position, and whose steps applied the same `f` from the same initial
/// accumulator end with the same accumulator, whatever their concurrency.
pub proof fn fold_independent_of_concurrency<D1: Deluge, D2: Deluge<Item = D1::Item>, A>(
    f1: &Fold<D1, A>,
    f2: &Fold<D2, A>,
    f: spec_fn(A, D1::Item) -> A,
)
    requires
        f1.wf(),
        f2.wf(),
        f1.finished(),
        f2.finished(),
        f1.collector().results().len() == f2.collector().results().len(),
        forall|i: int|
            0 <= i < f1.collector().results().len() ==> f1.collector().results().reported()[i]
                == f2.collector().results().reported()[i],
        f1.accs()[0] == f2.accs()[0],
        forall|k: int|
            0 <= k < f1.items().len() ==> f1.accs()[k + 1] == f(f1.accs()[k], f1.items()[k]),
        forall|k: int|
            0 <= k < f2.items().len() ==> f2.accs()[k + 1] == f(f2.accs()[k], f2.items()[k]),
    ensures
        f1.accs().last() == f2.accs().last(),
{
    f1.lemma_items_are_outcomes();
    f2.lemma_items_are_outcomes();
    assert(f1.collector().results().outcomes(f1.collector().results().len() as int)
        =~= f2.collector().results().outcomes(f2.collector().results().len() as int));
    fold_follows_input_order(f1, f);
    fold_follows_input_order(f2, f);
}

} // verus!
