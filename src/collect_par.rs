use crate::collect::Emit;
use crate::deluge::Deluge;
use crate::indexed::IndexedFuture;
use crate::ordered::{Delivery, OrderedResults};
use std::collections::VecDeque;
use vstd::prelude::*;

verus! {

/// Relies on num_cpus::get: the number of logical CPUs, documented to be at least 1.
#[verifier::external_body]
fn logical_cpus() -> (r: usize)
    ensures
        r >= 1,
{
    num_cpus::get()
}

/// The per-worker concurrency: the one given when it is not zero, else the
/// total divided among the workers, rounded up, and at least one.
pub open spec fn worker_concurrency_of(given: Option<usize>, total: nat, workers: nat) -> nat
    recommends
        workers > 0,
{
    match given {
        Some(c) if c > 0 => c as nat,
        _ => {
            let share = if total % workers == 0 {
                total / workers
            } else {
                total / workers + 1
            };
            if share > 0 {
                share
            } else {
                1
            }
        },
    }
}

/// The per-worker concurrency that a parallel driver uses.
pub fn worker_concurrency(given: Option<usize>, total: usize, workers: usize) -> (r: usize)
    requires
        workers > 0,
    ensures
        r == worker_concurrency_of(given, total as nat, workers as nat),
        r >= 1,
{
    match given {
        Some(c) if c > 0 => c,
        _ => {
            let share = if total % workers == 0 {
                total / workers
            } else {
                assert(workers >= 2) by {
                    if workers == 1 {
                        assert(total % 1 == 0);
                    }
                }
                assert(total / workers < usize::MAX) by (nonlinear_arith)
                    requires
                        workers >= 2,
                        total <= usize::MAX,
                {
                    assert(total / workers <= total / 2);
                }
                total / workers + 1
            };
            if share > 0 {
                share
            } else {
                1
            }
        },
    }
}

/// The local state of one worker of a parallel driver.
pub struct WorkerState {
    held: Vec<usize>,
    more_work: bool,
}

/// The parallel driver: every computation of a deluge is drawn into a shared
/// pool of pending work at the start; workers take the lowest positions from
/// it, at most `concurrency` each at a time, and results are yielded in input
/// order.
///
/// The caller runs each worker: `refill` hands it work, `finish_one` records
/// a result, `recheck` tells it whether to go on once it holds nothing, and
/// `give_back` returns the work of a worker that fails.
pub struct CollectPar<D: Deluge> {
    deluge: D,
    started: bool,
    worker_count: usize,
    given_concurrency: Option<usize>,
    concurrency: usize,
    pool: VecDeque<(usize, D::Output)>,
    workers: Vec<WorkerState>,
    results: OrderedResults<D::Item>,
    owner: Ghost<Map<int, int>>,
}

proof fn lemma_cons_to_set<T>(x: T, s: Seq<T>)
    ensures
        (seq![x] + s).to_set() == s.to_set().insert(x),
{
    let c = seq![x] + s;
    assert forall|y: T| #[trigger] c.contains(y) <==> s.contains(y) || y == x by {
        if c.contains(y) {
            let j = choose|j: int| 0 <= j < c.len() && c[j] == y;
            if j > 0 {
                assert(s[j - 1] == y);
            }
        }
        if s.contains(y) {
            let j = choose|j: int| 0 <= j < s.len() && s[j] == y;
            assert(c[j + 1] == y);
        }
        if y == x {
            assert(c[0] == y);
        }
    }
    assert(c.to_set() =~= s.to_set().insert(x));
}

/// The pool entry that an indexed computation stands for.
pub open spec fn entry_of<C>(e: IndexedFuture<C>) -> (usize, C) {
    (e.position(), e.computation())
}

/// Whether the entries of a pool are ordered by strictly increasing position.
pub open spec fn positions_increasing<C>(pool: Seq<(usize, C)>) -> bool {
    forall|i: int, j: int| 0 <= i < j < pool.len() ==> pool[i].0 < pool[j].0
}

/// The positions of the entries of a pool of pending work.
pub open spec fn keys_of<C>(pool: Seq<(usize, C)>) -> Seq<usize> {
    pool.map_values(|e: (usize, C)| e.0)
}

impl<D: Deluge> CollectPar<D> {
    /// The computations not yet drawn from the deluge.
    pub closed spec fn upstream(&self) -> Seq<D::Output> {
        self.deluge.pending()
    }

    /// How many computations `start` draws: all of them, up to the number
    /// of positions there are (positions are `usize`).
    pub open spec fn drawn(&self) -> nat {
        if self.upstream().len() < usize::MAX {
            self.upstream().len()
        } else {
            usize::MAX as nat
        }
    }

    /// Whether the deluge has been drawn into the pool.
    pub closed spec fn started(&self) -> bool {
        self.started
    }

    pub closed spec fn worker_count(&self) -> nat {
        self.worker_count as nat
    }

    /// The per-worker concurrency given at construction.
    pub closed spec fn given_concurrency(&self) -> Option<usize> {
        self.given_concurrency
    }

    /// The per-worker concurrency in force once started.
    pub closed spec fn concurrency(&self) -> nat {
        self.concurrency as nat
    }

    /// The pending work, lowest position first.
    pub closed spec fn pool(&self) -> Seq<(usize, D::Output)> {
        self.pool@
    }

    /// The positions that worker `w` holds.
    pub closed spec fn held(&self, w: int) -> Seq<usize> {
        self.workers@[w].held@
    }

    /// Whether worker `w` expects more work in the pool.
    pub closed spec fn more_work(&self, w: int) -> bool {
        self.workers@[w].more_work
    }

    pub closed spec fn results(&self) -> OrderedResults<D::Item> {
        self.results
    }

    /// Which holder each running position is with: `-1` for the pool, `w`
    /// for worker `w`.
    pub closed spec fn owner(&self) -> Map<int, int> {
        self.owner@
    }

    pub closed spec fn wf(&self) -> bool {
        &&& self.results.wf()
        &&& self.worker_count > 0
        &&& self.started ==> {
            &&& self.workers@.len() == self.worker_count
            &&& self.concurrency >= 1
            &&& forall|i: int, j: int|
                0 <= i < j < self.pool@.len() ==> self.pool@[i].0 < self.pool@[j].0
            &&& forall|j: int|
                0 <= j < self.pool@.len() ==> self.results.is_running(#[trigger] self.pool@[j].0 as int)
                    && self.owner@.contains_key(self.pool@[j].0 as int) && self.owner@[self.pool@[j].0 as int] == -1
            &&& forall|w: int, j: int|
                0 <= w < self.workers@.len() && 0 <= j < self.workers@[w].held@.len()
                    ==> self.results.is_running(#[trigger] self.workers@[w].held@[j] as int)
                    && self.owner@.contains_key(self.workers@[w].held@[j] as int)
                    && self.owner@[self.workers@[w].held@[j] as int] == w
            &&& forall|w: int|
                0 <= w < self.workers@.len() ==> #[trigger] self.workers@[w].held@.len()
                    <= self.concurrency
            &&& forall|w: int, i: int, j: int|
                0 <= w < self.workers@.len() && 0 <= i < j < self.workers@[w].held@.len()
                    ==> self.workers@[w].held@[i] != self.workers@[w].held@[j]
            &&& forall|p: int|
                #[trigger] self.results.is_running(p) ==> {
                    &&& self.owner@.contains_key(p)
                    &&& -1 <= self.owner@[p] < self.workers@.len()
                    &&& self.owner@[p] == -1 ==> keys_of(self.pool@).contains(p as usize)
                    &&& self.owner@[p] >= 0 ==> self.workers@[self.owner@[p]].held@.contains(
                        p as usize,
                    )
                }
        }
        &&& !self.started ==> {
            &&& self.results.len() == 0
            &&& self.results.cursor() == 0
            &&& self.pool@.len() == 0
            &&& self.workers@.len() == 0
        }
    }

    /// Once started, the pool is ordered by position, so a worker that takes
    /// from its front takes the lowest pending positions, and no worker holds
    /// more than `concurrency()` positions.
    pub proof fn lemma_work_layout(&self)
        requires
            self.wf(),
            self.started(),
        ensures
            positions_increasing(self.pool()),
            self.concurrency() >= 1,
            forall|w: int| 0 <= w < self.worker_count() ==> #[trigger] self.held(w).len() <= self.concurrency(),
    {
        assert forall|w: int| 0 <= w < self.worker_count() implies #[trigger] self.held(w).len() <= self.concurrency() by {
            assert(self.workers@[w].held@.len() <= self.concurrency);
        }
    }

    /// A well-formed driver has a well-formed result buffer.
    pub proof fn lemma_results_wf(&self)
        requires
            self.wf(),
        ensures
            self.results().wf(),
    {
    }

    /// A parallel driver over `deluge`. Without a worker count, there is one
    /// worker per logical CPU.
    pub fn new(deluge: D, worker_count: Option<usize>, worker_concurrency: Option<usize>) -> (r:
        Self)
        requires
            worker_count != Some(0usize),
        ensures
            r.wf(),
            !r.started(),
            r.upstream() == deluge.pending(),
            worker_count is Some ==> r.worker_count() == worker_count->Some_0,
            r.worker_count() >= 1,
            r.given_concurrency() == worker_concurrency,
            r.results().len() == 0,
            r.results().cursor() == 0,
    {
        let worker_count = match worker_count {
            Some(n) => n,
            None => logical_cpus(),
        };
        CollectPar {
            deluge,
            started: false,
            worker_count,
            given_concurrency: worker_concurrency,
            concurrency: 1,
            pool: VecDeque::new(),
            workers: Vec::new(),
            results: OrderedResults::new(),
            owner: Ghost(Map::empty()),
        }
    }

    /// Whether the deluge has been drawn into the pool.
    pub fn is_started(&self) -> (r: bool)
        ensures
            r == self.started(),
    {
        self.started
    }

    /// How many workers the driver runs.
    pub fn workers(&self) -> (r: usize)
        ensures
            r == self.worker_count(),
    {
        self.worker_count
    }

    /// The per-worker concurrency in force once started.
    pub fn per_worker(&self) -> (r: usize)
        ensures
            r == self.concurrency(),
    {
        self.concurrency
    }

    /// Draws every computation of the deluge into the pool, at positions
    /// `0, 1, 2, ...`, sets the per-worker concurrency and creates the workers.
    #[verifier::rlimit(40)]
    pub fn start(&mut self)
        requires
            old(self).wf(),
            !old(self).started(),
        ensures
            final(self).wf(),
            final(self).started(),
            final(self).worker_count() == old(self).worker_count(),
            final(self).given_concurrency() == old(self).given_concurrency(),
            final(self).upstream() == old(self).upstream().skip(old(self).drawn() as int),
            final(self).pool().len() == old(self).drawn(),
            forall|j: int|
                0 <= j < old(self).drawn() ==> #[trigger] final(self).pool()[j] == (
                    j as usize,
                    old(self).upstream()[j],
                ),
            final(self).results().len() == old(self).drawn(),
            final(self).results().cursor() == 0,
            forall|p: int| 0 <= p < old(self).drawn() ==> final(self).results().is_running(p),
            final(self).concurrency() == worker_concurrency_of(
                old(self).given_concurrency(),
                old(self).drawn(),
                old(self).worker_count(),
            ),
            forall|w: int|
                0 <= w < old(self).worker_count() ==> final(self).held(w).len() == 0
                    && final(self).more_work(w),
    {
        let mut w: usize = 0;
        while w < self.worker_count
            invariant
                self.workers@.len() == w,
                w <= self.worker_count,
                forall|v: int|
                    0 <= v < w ==> (#[trigger] self.workers@[v]).held@.len() == 0
                        && self.workers@[v].more_work,
                self.results == old(self).results,
                self.pool@.len() == 0,
                self.deluge == old(self).deluge,
                self.worker_count == old(self).worker_count,
                self.given_concurrency == old(self).given_concurrency,
                self.owner == old(self).owner,
            decreases self.worker_count - w,
        {
            self.workers.push(WorkerState { held: Vec::new(), more_work: true });
            w = w + 1;
        }
        let ghost up0 = self.deluge.pending();
        let mut n: usize = 0;
        loop
            invariant
                self.results.wf(),
                self.worker_count == old(self).worker_count,
                self.given_concurrency == old(self).given_concurrency,
                self.workers@.len() == self.worker_count,
                forall|v: int|
                    0 <= v < self.worker_count ==> (#[trigger] self.workers@[v]).held@.len() == 0
                        && self.workers@[v].more_work,
                n <= up0.len(),
                up0 == old(self).upstream(),
                self.deluge.pending() == up0.skip(n as int),
                self.pool@.len() == n,
                self.results.len() == n,
                self.results.cursor() == 0,
                forall|j: int| 0 <= j < n ==> #[trigger] self.pool@[j] == (j as usize, up0[j]),
                forall|p: int| 0 <= p < n ==> #[trigger] self.results.is_running(p),
                forall|p: int|
                    0 <= p < n ==> #[trigger] self.owner@.contains_key(p) && self.owner@[p] == -1,
            ensures
                n == old(self).drawn(),
                self.deluge.pending() == up0.skip(n as int),
            decreases up0.len() - n,
        {
            if n == usize::MAX {
                break ;
            }
            match self.deluge.next() {
                Some(c) => {
                    let idx = self.results.open();
                    self.pool.push_back((idx, c));
                    proof {
                        assert(up0.skip(n + 1) =~= up0.skip(n as int).drop_first());
                        self.owner@ = self.owner@.insert(idx as int, -1);
                    }
                    n = n + 1;
                },
                None => {
                    break ;
                },
            }
        }
        self.concurrency = worker_concurrency(self.given_concurrency, n, self.worker_count);
        self.started = true;
        assert forall|p: int| #[trigger] self.results.is_running(p) implies {
            &&& self.owner@.contains_key(p)
            &&& -1 <= self.owner@[p] < self.workers@.len()
            &&& self.owner@[p] == -1 ==> keys_of(self.pool@).contains(p as usize)
            &&& self.owner@[p] >= 0 ==> self.workers@[self.owner@[p]].held@.contains(p as usize)
        } by {
            self.results.lemma_running_in_range(p);
            assert(self.pool@[p] == (p as usize, up0[p]));
            assert(keys_of(self.pool@).len() == self.pool@.len());
            assert(keys_of(self.pool@)[p] == p as usize);
        }
        assert forall|j: int| 0 <= j < self.pool@.len() implies self.results.is_running(
            #[trigger] self.pool@[j].0 as int,
        ) && self.owner@.contains_key(self.pool@[j].0 as int) && self.owner@[self.pool@[j].0 as int]
            == -1 by {
            assert(self.pool@[j] == (j as usize, up0[j]));
        }
        assert forall|i: int, j: int| 0 <= i < j < self.pool@.len() implies self.pool@[i].0
            < self.pool@[j].0 by {
            assert(self.pool@[i] == (i as usize, up0[i]));
            assert(self.pool@[j] == (j as usize, up0[j]));
        }
    }

    /// Moves the lowest pending position to worker `w`.
    #[verifier::rlimit(40)]
    fn take_one(&mut self, w: usize) -> (r: (usize, D::Output))
        requires
            old(self).wf(),
            old(self).started(),
            w < old(self).worker_count(),
            old(self).pool().len() > 0,
            old(self).held(w as int).len() < old(self).concurrency(),
        ensures
            final(self).wf(),
            final(self).started(),
            final(self).worker_count() == old(self).worker_count(),
            final(self).given_concurrency() == old(self).given_concurrency(),
            final(self).concurrency() == old(self).concurrency(),
            final(self).results() == old(self).results(),
            r == old(self).pool()[0],
            final(self).pool() == old(self).pool().drop_first(),
            final(self).held(w as int) == old(self).held(w as int).push(r.0),
            final(self).more_work(w as int) == old(self).more_work(w as int),
            forall|v: int|
                0 <= v < old(self).worker_count() && v != w ==> final(self).held(v) == old(
                    self,
                ).held(v) && final(self).more_work(v) == old(self).more_work(v),
    {
        let ghost pool0 = self.pool@;
        let ghost workers0 = self.workers@;
        let (idx, c) = self.pool.pop_front().unwrap();
        let ghost owner0 = self.owner@;
        self.workers[w].held.push(idx);
        proof {
            self.owner@ = owner0.insert(idx as int, w as int);
            assert(keys_of(pool0)[0] == idx);
            assert forall|v: int, j: int|
                0 <= v < workers0.len() && 0 <= j < workers0[v].held@.len() implies #[trigger] workers0[v].held@[j]
                    != idx by {
                assert(owner0[workers0[v].held@[j] as int] == v);
            }
            assert forall|j: int| 0 <= j < self.pool@.len() implies #[trigger] self.pool@[j].0 != idx by {
                assert(self.pool@[j] == pool0[j + 1]);
            }
            assert forall|p: int| #[trigger] self.results.is_running(p) implies {
                &&& self.owner@.contains_key(p)
                &&& -1 <= self.owner@[p] < self.workers@.len()
                &&& self.owner@[p] == -1 ==> keys_of(self.pool@).contains(p as usize)
                &&& self.owner@[p] >= 0 ==> self.workers@[self.owner@[p]].held@.contains(p as usize)
            } by {
                self.results.lemma_running_in_range(p);
                if p == idx as int {
                    assert(self.workers@[w as int].held@.last() == idx);
                } else {
                    if owner0[p] == -1 {
                        assert(keys_of(pool0).contains(p as usize));
                        let j = choose|j: int| 0 <= j < keys_of(pool0).len() && keys_of(pool0)[j] == p as usize;
                        assert(j != 0);
                        assert(keys_of(self.pool@)[j - 1] == p as usize);
                    } else {
                        let o = owner0[p];
                        let j = choose|j: int| 0 <= j < workers0[o].held@.len() && workers0[o].held@[j] == p as usize;
                        assert(self.workers@[o].held@[j] == p as usize);
                    }
                }
            }
        }
        (idx, c)
    }

    /// Hands worker `w` the lowest pending positions, until it holds
    /// `concurrency` of them or the pool is empty. A worker that no longer
    /// expects work, or that is full, takes nothing.
    #[verifier::rlimit(40)]
    pub fn refill(&mut self, w: usize) -> (r: Vec<IndexedFuture<D::Output>>)
        requires
            old(self).wf(),
            old(self).started(),
            w < old(self).worker_count(),
        ensures
            final(self).wf(),
            final(self).started(),
            final(self).worker_count() == old(self).worker_count(),
            final(self).given_concurrency() == old(self).given_concurrency(),
            final(self).concurrency() == old(self).concurrency(),
            final(self).results() == old(self).results(),
            ({
                let active = old(self).more_work(w as int) && old(self).held(w as int).len()
                    < old(self).concurrency();
                let room = old(self).concurrency() - old(self).held(w as int).len();
                let k = if !active {
                    0
                } else if room < old(self).pool().len() {
                    room
                } else {
                    old(self).pool().len() as int
                };
                &&& r@.map_values(|e: IndexedFuture<D::Output>| entry_of(e)) == old(self).pool().take(k)
                &&& final(self).pool() == old(self).pool().skip(k)
                &&& final(self).held(w as int) == old(self).held(w as int) + keys_of(
                    old(self).pool().take(k),
                )
                &&& final(self).more_work(w as int) == if active {
                    final(self).pool().len() > 0
                } else {
                    old(self).more_work(w as int)
                }
            }),
            positions_increasing(final(self).pool()),
            final(self).held(w as int).len() <= final(self).concurrency(),
            forall|a: int, b: int|
                0 <= a < r@.len() && 0 <= b < final(self).pool().len() ==> #[trigger] r@[a].position()
                    < #[trigger] final(self).pool()[b].0,
            forall|v: int|
                0 <= v < old(self).worker_count() && v != w ==> final(self).held(v) == old(
                    self,
                ).held(v) && final(self).more_work(v) == old(self).more_work(v),
    {
        let mut out: Vec<IndexedFuture<D::Output>> = Vec::new();
        let ghost mut taken: Seq<(usize, D::Output)> = Seq::empty();
        if self.workers[w].more_work && self.workers[w].held.len() < self.concurrency {
            let ghost pool0 = self.pool@;
            let ghost held0 = self.workers@[w as int].held@;
            while self.workers[w].held.len() < self.concurrency && self.pool.len() > 0
                invariant
                    self.wf(),
                    self.started,
                    w < self.worker_count,
                    self.worker_count == old(self).worker_count,
                    self.given_concurrency == old(self).given_concurrency,
                    self.concurrency == old(self).concurrency,
                    self.results == old(self).results,
                    held0 == old(self).held(w as int),
                    pool0 == old(self).pool(),
                    taken.len() <= pool0.len(),
                    taken == pool0.take(taken.len() as int),
                    out@.map_values(|e: IndexedFuture<D::Output>| entry_of(e)) == taken,
                    self.pool@ == pool0.skip(taken.len() as int),
                    self.workers@[w as int].held@ == held0 + keys_of(taken),
                    self.workers@[w as int].more_work == old(self).more_work(w as int),
                    forall|v: int|
                        0 <= v < old(self).worker_count() && v != w ==> self.held(v) == old(
                            self,
                        ).held(v) && self.more_work(v) == old(self).more_work(v),
                decreases self.pool@.len(),
            {
                let e = self.take_one(w);
                let ghost t0 = taken;
                let ghost eg = e;
                let ghost o0 = out@;
                let (idx, c) = e;
                out.push(IndexedFuture::new(idx, c));
                proof {
                    taken = taken.push(eg);
                    assert(taken =~= pool0.take(taken.len() as int));
                    assert(out@.map_values(|e: IndexedFuture<D::Output>| entry_of(e)) =~= o0.map_values(
                        |e: IndexedFuture<D::Output>| entry_of(e),
                    ).push(eg));
                    assert(pool0.skip(taken.len() as int) =~= pool0.skip(t0.len() as int).drop_first());
                    assert(keys_of(taken) =~= keys_of(t0).push(eg.0));
                    assert(held0 + keys_of(taken) =~= (held0 + keys_of(t0)).push(eg.0));
                }
            }
            if self.pool.len() == 0 {
                self.workers[w].more_work = false;
            }
        } else {
            assert(out@.map_values(|e: IndexedFuture<D::Output>| entry_of(e)) =~= old(self).pool().take(0));
            assert(old(self).pool().skip(0) =~= old(self).pool());
            assert(keys_of(old(self).pool().take(0)) =~= Seq::<usize>::empty());
            assert(old(self).held(w as int) + keys_of(old(self).pool().take(0)) =~= old(self).held(w as int));
        }
        proof {
            let n = out@.len() as int;
            let pool0 = old(self).pool();
            assert forall|a: int, b: int|
                0 <= a < out@.len() && 0 <= b < self.pool@.len() implies #[trigger] out@[a].position()
                    < #[trigger] self.pool@[b].0 by {
                assert(out@.map_values(|e: IndexedFuture<D::Output>| entry_of(e))[a] == pool0.take(n)[a]);
                assert(self.pool@[b] == pool0[n + b]);
            }
            assert(self.workers@[w as int].held@.len() <= self.concurrency);
        }
        out
    }

    /// Takes position `idx` out of what worker `w` holds, keeping the order
    /// of the rest.
    fn remove_held(&mut self, w: usize, idx: usize)
        requires
            w < old(self).workers@.len(),
            old(self).workers@[w as int].held@.contains(idx),
            forall|a: int, b: int|
                0 <= a < b < old(self).workers@[w as int].held@.len()
                    ==> old(self).workers@[w as int].held@[a] != old(self).workers@[w as int].held@[b],
        ensures
            final(self).deluge == old(self).deluge,
            final(self).started == old(self).started,
            final(self).worker_count == old(self).worker_count,
            final(self).given_concurrency == old(self).given_concurrency,
            final(self).concurrency == old(self).concurrency,
            final(self).pool == old(self).pool,
            final(self).results == old(self).results,
            final(self).owner == old(self).owner,
            final(self).workers@.len() == old(self).workers@.len(),
            final(self).workers@[w as int].more_work == old(self).workers@[w as int].more_work,
            forall|v: int| 0 <= v < old(self).workers@.len() && v != w ==> final(self).workers@[v] == old(self).workers@[v],
            ({
                let h0 = old(self).workers@[w as int].held@;
                let h1 = final(self).workers@[w as int].held@;
                &&& h1.len() + 1 == h0.len()
                &&& h1.to_set() == h0.to_set().remove(idx)
                &&& forall|j: int| 0 <= j < h1.len() ==> #[trigger] h1[j] != idx && h0.contains(h1[j])
                &&& forall|a: int, b: int| 0 <= a < b < h1.len() ==> h1[a] != h1[b]
            }),
    {
        let ghost held0 = self.workers@[w as int].held@;
        let ghost workers0 = self.workers@;
        let n = self.workers[w].held.len();
        let mut i: usize = 0;
        while self.workers[w].held[i] != idx
            invariant
                n == held0.len(),
                self.workers@ == workers0,
                held0 == workers0[w as int].held@,
                w < workers0.len(),
                0 <= i < held0.len(),
                held0.contains(idx),
                forall|j: int| 0 <= j < i ==> held0[j] != idx,
            decreases held0.len() - i,
        {
            i = i + 1;
            if i >= self.workers[w].held.len() {
                proof {
                    let j = choose|j: int| 0 <= j < held0.len() && held0[j] == idx;
                    assert(false);
                }
            }
        }
        assert(held0[i as int] == idx);
        self.workers[w].held.remove(i);
        proof {
            let held1 = self.workers@[w as int].held@;
            assert(held1 =~= held0.subrange(0, i as int) + held0.subrange(i + 1, held0.len() as int));
            assert forall|j: int| 0 <= j < held1.len() implies #[trigger] held1[j] != idx && held0.contains(held1[j])
                && held1[j] == (if j < i { held0[j] } else { held0[j + 1] }) by {
                if j < i {
                    assert(held0[j] != held0[i as int]);
                } else {
                    assert(held0[j + 1] != held0[i as int]);
                }
            }
            assert forall|a: int, b: int| 0 <= a < b < held1.len() implies held1[a] != held1[b] by {
                let a0 = if a < i { a } else { a + 1 };
                let b0 = if b < i { b } else { b + 1 };
                assert(held1[a] == held0[a0] && held1[b] == held0[b0]);
            }
            assert(held1.to_set() =~= held0.to_set().remove(idx)) by {
                assert forall|x: usize| #[trigger] held1.contains(x) <==> held0.contains(x) && x != idx by {
                    if held1.contains(x) {
                        let j = choose|j: int| 0 <= j < held1.len() && held1[j] == x;
                    }
                    if held0.contains(x) && x != idx {
                        let j = choose|j: int| 0 <= j < held0.len() && held0[j] == x;
                        if j < i {
                            assert(held1[j] == x);
                        } else {
                            assert(j != i);
                            assert(held1[j - 1] == x);
                        }
                    }
                }
            }
        }
    }

    /// Records the result of position `idx`, which worker `w` evaluated.
    #[verifier::rlimit(40)]
    pub fn finish_one(&mut self, w: usize, idx: usize, value: Option<D::Item>)
        requires
            old(self).wf(),
            old(self).started(),
            w < old(self).worker_count(),
            old(self).held(w as int).contains(idx),
        ensures
            final(self).wf(),
            final(self).started(),
            final(self).worker_count() == old(self).worker_count(),
            final(self).given_concurrency() == old(self).given_concurrency(),
            final(self).concurrency() == old(self).concurrency(),
            final(self).pool() == old(self).pool(),
            final(self).held(w as int).len() + 1 == old(self).held(w as int).len(),
            final(self).held(w as int).to_set() == old(self).held(w as int).to_set().remove(idx),
            final(self).more_work(w as int) == old(self).more_work(w as int),
            forall|v: int|
                0 <= v < old(self).worker_count() && v != w ==> final(self).held(v) == old(
                    self,
                ).held(v) && final(self).more_work(v) == old(self).more_work(v),
            final(self).results().len() == old(self).results().len(),
            final(self).results().cursor() == old(self).results().cursor(),
            final(self).results().running() + 1 == old(self).results().running(),
            !final(self).results().is_running(idx as int),
            forall|i: int|
                i != idx ==> final(self).results().is_running(i) == old(self).results().is_running(i),
            final(self).results().reported() == old(self).results().reported().insert(
                idx as int,
                value,
            ),
            final(self).results().delivered() == old(self).results().delivered(),
    {
        let ghost held0 = self.workers@[w as int].held@;
        let ghost workers0 = self.workers@;
        self.remove_held(w, idx);
        let ghost owner0 = self.owner@;
        assert(self.results.is_running(idx as int));
        self.results.complete(idx, value);
        proof {
            self.owner@ = owner0.remove(idx as int);
            let held1 = self.workers@[w as int].held@;
            assert forall|p: int| #[trigger] self.results.is_running(p) implies {
                &&& self.owner@.contains_key(p)
                &&& -1 <= self.owner@[p] < self.workers@.len()
                &&& self.owner@[p] == -1 ==> keys_of(self.pool@).contains(p as usize)
                &&& self.owner@[p] >= 0 ==> self.workers@[self.owner@[p]].held@.contains(p as usize)
            } by {
                self.results.lemma_running_in_range(p);
                assert(p != idx);
                if owner0[p] == w as int {
                    assert(held0.contains(p as usize));
                    assert(held1.to_set().contains(p as usize));
                }
            }
            assert forall|j: int| 0 <= j < self.pool@.len() implies #[trigger] self.pool@[j].0 != idx by {
                assert(owner0[self.pool@[j].0 as int] == -1);
                assert(owner0[idx as int] == w);
            }
            assert forall|v: int, j: int|
                0 <= v < self.workers@.len() && 0 <= j < self.workers@[v].held@.len() implies #[trigger] self.workers@[v].held@[j]
                    != idx by {
                if v != w {
                    assert(owner0[self.workers@[v].held@[j] as int] == v);
                }
            }
        }
    }

    /// Returns position `e.0`, which worker `w` held, to the pool with its
    /// computation `e.1`, keeping the pool ordered by position.
    #[verifier::rlimit(60)]
    fn return_one(&mut self, w: usize, e: (usize, D::Output))
        requires
            old(self).wf(),
            old(self).started(),
            w < old(self).worker_count(),
            old(self).held(w as int).contains(e.0),
        ensures
            final(self).wf(),
            final(self).started(),
            final(self).worker_count() == old(self).worker_count(),
            final(self).given_concurrency() == old(self).given_concurrency(),
            final(self).concurrency() == old(self).concurrency(),
            final(self).results() == old(self).results(),
            final(self).pool().to_set() == old(self).pool().to_set().insert(e),
            final(self).pool().len() == old(self).pool().len() + 1,
            final(self).held(w as int).len() + 1 == old(self).held(w as int).len(),
            final(self).held(w as int).to_set() == old(self).held(w as int).to_set().remove(e.0),
            final(self).more_work(w as int) == old(self).more_work(w as int),
            forall|v: int|
                0 <= v < old(self).worker_count() && v != w ==> final(self).held(v) == old(
                    self,
                ).held(v) && final(self).more_work(v) == old(self).more_work(v),
    {
        let idx = e.0;
        let ghost held0 = self.workers@[w as int].held@;
        let ghost workers0 = self.workers@;
        let ghost pool0 = self.pool@;
        let ghost owner0 = self.owner@;
        assert(owner0[idx as int] == w);
        self.remove_held(w, idx);
        let mut k: usize = 0;
        while k < self.pool.len() && self.pool[k].0 < idx
            invariant
                self.pool@ == pool0,
                k <= pool0.len(),
                forall|j: int| 0 <= j < k ==> pool0[j].0 < idx,
            decreases pool0.len() - k,
        {
            k = k + 1;
        }
        assert forall|j: int| 0 <= j < pool0.len() implies #[trigger] pool0[j].0 != idx by {
            assert(owner0[pool0[j].0 as int] == -1);
        }
        assert forall|j: int| k <= j < pool0.len() implies #[trigger] pool0[j].0 > idx by {
            if j > k {
                assert(pool0[k as int].0 < pool0[j].0);
            }
        }
        self.pool.insert(k, e);
        proof {
            self.owner@ = owner0.insert(idx as int, -1);
            let held1 = self.workers@[w as int].held@;
            let pool1 = self.pool@;
            assert(pool1 =~= pool0.subrange(0, k as int).push(e) + pool0.subrange(k as int, pool0.len() as int));
            assert forall|j: int| 0 <= j < pool1.len() implies #[trigger] pool1[j]
                == (if j < k { pool0[j] } else if j == k { e } else { pool0[j - 1] }) by {
            }
            assert(pool1.to_set() =~= pool0.to_set().insert(e)) by {
                assert forall|x: (usize, D::Output)| #[trigger] pool1.contains(x) <==> pool0.contains(x) || x == e by {
                    if pool1.contains(x) {
                        let j = choose|j: int| 0 <= j < pool1.len() && pool1[j] == x;
                        if j < k {
                            assert(pool0[j] == x);
                        } else if j > k {
                            assert(pool0[j - 1] == x);
                        }
                    }
                    if pool0.contains(x) {
                        let j = choose|j: int| 0 <= j < pool0.len() && pool0[j] == x;
                        if j < k {
                            assert(pool1[j] == x);
                        } else {
                            assert(pool1[j + 1] == x);
                        }
                    }
                    if x == e {
                        assert(pool1[k as int] == x);
                    }
                }
            }
            assert forall|a: int, b: int| 0 <= a < b < pool1.len() implies pool1[a].0 < pool1[b].0 by {
            }
            assert forall|p: int| #[trigger] self.results.is_running(p) implies {
                &&& self.owner@.contains_key(p)
                &&& -1 <= self.owner@[p] < self.workers@.len()
                &&& self.owner@[p] == -1 ==> keys_of(self.pool@).contains(p as usize)
                &&& self.owner@[p] >= 0 ==> self.workers@[self.owner@[p]].held@.contains(p as usize)
            } by {
                self.results.lemma_running_in_range(p);
                if p == idx as int {
                    assert(keys_of(pool1)[k as int] == idx);
                } else if owner0[p] == -1 {
                    let j = choose|j: int| 0 <= j < keys_of(pool0).len() && keys_of(pool0)[j] == p as usize;
                    if j < k {
                        assert(keys_of(pool1)[j] == p as usize);
                    } else {
                        assert(keys_of(pool1)[j + 1] == p as usize);
                    }
                } else if owner0[p] == w as int {
                    assert(held0.contains(p as usize));
                    assert(held1.to_set().contains(p as usize));
                }
            }
            assert forall|v: int, j: int|
                0 <= v < self.workers@.len() && 0 <= j < self.workers@[v].held@.len() implies
                #[trigger] self.workers@[v].held@[j] != idx by {
                if v != w {
                    assert(owner0[self.workers@[v].held@[j] as int] == v);
                }
            }
        }
    }

    /// Returns work that worker `w` held but will not evaluate (the worker
    /// failed) to the pool, where other workers find it.
    #[verifier::rlimit(40)]
    pub fn give_back(&mut self, w: usize, items: Vec<IndexedFuture<D::Output>>)
        requires
            old(self).wf(),
            old(self).started(),
            w < old(self).worker_count(),
            forall|j: int|
                0 <= j < items@.len() ==> old(self).held(w as int).contains(
                    #[trigger] items@[j].position(),
                ),
            forall|a: int, b: int|
                0 <= a < b < items@.len() ==> items@[a].position() != items@[b].position(),
        ensures
            final(self).wf(),
            final(self).started(),
            final(self).worker_count() == old(self).worker_count(),
            final(self).given_concurrency() == old(self).given_concurrency(),
            final(self).concurrency() == old(self).concurrency(),
            final(self).results() == old(self).results(),
            final(self).pool().to_set() == old(self).pool().to_set() + items@.map_values(
                |e: IndexedFuture<D::Output>| entry_of(e),
            ).to_set(),
            final(self).held(w as int).to_set() == old(self).held(w as int).to_set() - keys_of(
                items@.map_values(|e: IndexedFuture<D::Output>| entry_of(e)),
            ).to_set(),
            positions_increasing(final(self).pool()),
            forall|v: int|
                0 <= v < old(self).worker_count() && v != w ==> final(self).held(v) == old(
                    self,
                ).held(v) && final(self).more_work(v) == old(self).more_work(v),
    {
        let mut items = items;
        let ghost all = items@.map_values(|e: IndexedFuture<D::Output>| entry_of(e));
        proof {
            assert forall|a: int, b: int| 0 <= a < b < all.len() implies all[a].0 != all[b].0 by {
                assert(items@[a].position() != items@[b].position());
            }
            assert forall|j: int| 0 <= j < all.len() implies old(self).held(w as int).to_set().contains(
                #[trigger] all[j].0,
            ) by {
                assert(old(self).held(w as int).contains(items@[j].position()));
            }
        }
        let ghost pool0 = self.pool@.to_set();
        let ghost held0 = self.workers@[w as int].held@.to_set();
        while items.len() > 0
            invariant
                self.wf(),
                self.started,
                w < self.worker_count,
                self.worker_count == old(self).worker_count,
                self.given_concurrency == old(self).given_concurrency,
                self.concurrency == old(self).concurrency,
                self.results == old(self).results,
                items@.len() <= all.len(),
                items@.map_values(|e: IndexedFuture<D::Output>| entry_of(e)) == all.take(
                    items@.len() as int,
                ),
                forall|a: int, b: int| 0 <= a < b < all.len() ==> all[a].0 != all[b].0,
                forall|j: int| 0 <= j < all.len() ==> held0.contains(#[trigger] all[j].0),
                pool0 == old(self).pool().to_set(),
                held0 == old(self).held(w as int).to_set(),
                self.pool@.to_set() == pool0 + all.skip(items@.len() as int).to_set(),
                self.workers@[w as int].held@.to_set() == held0 - keys_of(all.skip(items@.len() as int)).to_set(),
                forall|v: int|
                    0 <= v < old(self).worker_count() && v != w ==> self.held(v) == old(
                        self,
                    ).held(v) && self.more_work(v) == old(self).more_work(v),
            decreases items@.len(),
        {
            let ghost m = items@.len() as int;
            let ghost before = items@;
            let item = items.pop().unwrap();
            assert(items@ =~= before.drop_last());
            let idx = item.index();
            let c = item.into_future();
            let e = (idx, c);
            assert(e == all[m - 1]) by {
                assert(before.map_values(|e: IndexedFuture<D::Output>| entry_of(e))[m - 1] == all.take(m)[m - 1]);
            }
            assert(all.skip(m - 1) =~= seq![e] + all.skip(m));
            assert(keys_of(all.skip(m - 1)) =~= seq![e.0] + keys_of(all.skip(m)));
            assert(!keys_of(all.skip(m)).contains(e.0)) by {
                if keys_of(all.skip(m)).contains(e.0) {
                    let j = choose|j: int| 0 <= j < keys_of(all.skip(m)).len() && keys_of(all.skip(m))[j] == e.0;
                    assert(all[m + j].0 == e.0);
                }
            }
            assert(self.workers@[w as int].held@.contains(e.0)) by {
                assert(self.workers@[w as int].held@.to_set().contains(e.0));
            }
            self.return_one(w, e);
            proof {
                lemma_cons_to_set(e, all.skip(m));
                lemma_cons_to_set(e.0, keys_of(all.skip(m)));
            }
            assert(self.pool@.to_set() =~= pool0 + all.skip(m - 1).to_set());
            assert(self.workers@[w as int].held@.to_set() =~= held0 - keys_of(all.skip(m - 1)).to_set());
            assert(items@.map_values(|e: IndexedFuture<D::Output>| entry_of(e)) =~= all.take(
                items@.len() as int,
            ));
        }
        assert(all.skip(0) =~= all);
    }

    /// Whether worker `w`, holding nothing, goes on: it does when work has
    /// been returned to the pool, and then expects more.
    pub fn recheck(&mut self, w: usize) -> (r: bool)
        requires
            old(self).wf(),
            old(self).started(),
            w < old(self).worker_count(),
        ensures
            final(self).wf(),
            final(self).started(),
            r == (old(self).pool().len() > 0),
            final(self).more_work(w as int) == (r || old(self).more_work(w as int)),
            final(self).held(w as int) == old(self).held(w as int),
            forall|v: int|
                0 <= v < old(self).worker_count() && v != w ==> final(self).held(v) == old(
                    self,
                ).held(v) && final(self).more_work(v) == old(self).more_work(v),
            final(self).worker_count() == old(self).worker_count(),
            final(self).given_concurrency() == old(self).given_concurrency(),
            final(self).concurrency() == old(self).concurrency(),
            final(self).pool() == old(self).pool(),
            final(self).results() == old(self).results(),
    {
        if self.pool.len() > 0 {
            self.workers[w].more_work = true;
            true
        } else {
            false
        }
    }

    /// Yields the next result in input order, skipping empty ones, or says
    /// why there is none.
    pub fn poll_output(&mut self) -> (e: Emit<D::Item>)
        requires
            old(self).wf(),
        ensures
            final(self).wf(),
            final(self).started() == old(self).started(),
            final(self).worker_count() == old(self).worker_count(),
            final(self).given_concurrency() == old(self).given_concurrency(),
            final(self).concurrency() == old(self).concurrency(),
            final(self).pool() == old(self).pool(),
            forall|v: int|
                0 <= v < old(self).worker_count() ==> final(self).held(v) == old(self).held(v)
                    && final(self).more_work(v) == old(self).more_work(v),
            final(self).results().len() == old(self).results().len(),
            final(self).results().running() == old(self).results().running(),
            final(self).results().reported() == old(self).results().reported(),
            forall|i: int| final(self).results().is_running(i) == old(self).results().is_running(i),
            old(self).results().cursor() <= final(self).results().cursor()
                <= final(self).results().len(),
            forall|k: int|
                old(self).results().cursor() <= k < final(self).results().cursor()
                    ==> !old(self).results().is_running(k),
            match e {
                Emit::Item(v) => {
                    &&& old(self).results().cursor() < final(self).results().cursor()
                    &&& old(self).results().reported()[final(self).results().cursor() - 1] == Some(v)
                    &&& final(self).results().delivered() == old(self).results().delivered().push(v)
                    &&& forall|k: int|
                        old(self).results().cursor() <= k < final(self).results().cursor() - 1
                            ==> old(self).results().reported()[k] is None
                },
                Emit::Pending => {
                    &&& final(self).results().delivered() == old(self).results().delivered()
                    &&& forall|k: int|
                        old(self).results().cursor() <= k < final(self).results().cursor()
                            ==> old(self).results().reported()[k] is None
                    &&& (!old(self).started() || old(self).results().is_running(
                        final(self).results().cursor() as int,
                    ))
                },
                Emit::Finished => {
                    &&& final(self).results().delivered() == old(self).results().delivered()
                    &&& forall|k: int|
                        old(self).results().cursor() <= k < final(self).results().cursor()
                            ==> old(self).results().reported()[k] is None
                    &&& final(self).results().cursor() == final(self).results().len()
                    &&& old(self).started()
                },
            },
    {
        if !self.started {
            return Emit::Pending;
        }
        match self.results.deliver() {
            Delivery::Item(v) => Emit::Item(v),
            Delivery::Waiting => Emit::Pending,
            Delivery::CaughtUp => Emit::Finished,
        }
    }
}

/// Given the same results for the same positions, a finished parallel driver
/// and a finished concurrent driver yield the same sequence, whatever the
/// worker count and the concurrency of either.
pub proof fn parallel_matches_concurrent<D1: Deluge, D2: Deluge<Item = D1::Item>>(
    p: &CollectPar<D1>,
    c: &crate::collect::Collect<D2>,
)
    requires
        p.wf(),
        c.wf(),
        p.started(),
        p.results().cursor() == p.results().len(),
        c.exhausted(),
        c.results().cursor() == c.results().len(),
        p.results().len() == c.results().len(),
        forall|i: int|
            0 <= i < p.results().len() ==> p.results().reported()[i] == c.results().reported()[i],
    ensures
        p.results().delivered() == c.results().delivered(),
{
    assert(p.results().outcomes(p.results().len() as int) =~= c.results().outcomes(
        c.results().len() as int,
    ));
}

/// A finished parallel driver has evaluated every position, holds no work,
/// and has yielded exactly the present results in input order.
pub proof fn parallel_finished_yields_results_in_order<D: Deluge>(p: &CollectPar<D>)
    requires
        p.wf(),
        p.started(),
        p.results().cursor() == p.results().len(),
    ensures
        p.results().running() == 0,
        p.pool().len() == 0,
        forall|w: int| 0 <= w < p.worker_count() ==> p.held(w).len() == 0,
        p.results().delivered() == crate::ordered::somes(
            p.results().outcomes(p.results().len() as int),
        ),
{
    p.results().lemma_caught_up();
    if p.pool().len() > 0 {
        assert(p.results().is_running(p.pool()[0].0 as int));
    }
    assert forall|w: int| 0 <= w < p.worker_count() implies p.held(w).len() == 0 by {
        if p.held(w).len() > 0 {
            assert(p.results().is_running(p.held(w)[0] as int));
        }
    }
}

/// Once started, no work is lost: each running position is either in the
/// pool or held by exactly one worker, which is the one it is filed under.
pub proof fn work_is_never_lost<D: Deluge>(p: &CollectPar<D>, i: int)
    requires
        p.wf(),
        p.started(),
        p.results().is_running(i),
    ensures
        p.owner().contains_key(i),
        p.owner()[i] == -1 ==> keys_of(p.pool()).contains(i as usize),
        p.owner()[i] != -1 ==> 0 <= p.owner()[i] < p.worker_count() && p.held(p.owner()[i]).contains(
            i as usize,
        ),
        forall|w: int|
            0 <= w < p.worker_count() && #[trigger] p.held(w).contains(i as usize) ==> p.owner()[i]
                == w,
        forall|j: int|
            0 <= j < p.pool().len() && #[trigger] p.pool()[j].0 == i as usize ==> p.owner()[i] == -1,
{
    p.results().lemma_running_in_range(i);
    assert forall|w: int|
        0 <= w < p.worker_count() && #[trigger] p.held(w).contains(i as usize) implies p.owner()[i]
        == w by {
        let j = choose|j: int| 0 <= j < p.held(w).len() && p.held(w)[j] == i as usize;
        assert(p.owner()[p.held(w)[j] as int] == w);
    }
}

} // verus!
