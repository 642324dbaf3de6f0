use crate::deluge::Deluge;
use crate::ordered::{Delivery, OrderedResults};
use vstd::prelude::*;

verus! {

/// The load limit that an optional concurrency stands for: none, or zero, is unbounded.
pub open spec fn limit_of(concurrency: Option<usize>) -> nat {
    match concurrency {
        Some(k) if k > 0 => k as nat,
        _ => usize::MAX as nat,
    }
}

/// What one poll of a driver yields.
pub enum Emit<T> {
    /// The next result in input order.
    Item(T),
    /// Nothing can be yielded until a running computation reports.
    Pending,
    /// Every result has been yielded.
    Finished,
}

/// The concurrent driver: it loads at most `concurrency` computations of a
/// deluge at a time and yields their results in input order.
///
/// The caller evaluates the computations that `load` hands out and reports
/// each result with `complete`; `poll_output` then yields what is due.
pub struct Collect<D: Deluge> {
    deluge: D,
    exhausted: bool,
    concurrency: Option<usize>,
    results: OrderedResults<D::Item>,
}

impl<D: Deluge> Collect<D> {
    /// The computations that have not been loaded yet.
    pub closed spec fn upstream(&self) -> Seq<D::Output> {
        self.deluge.pending()
    }

    /// Whether the deluge has reported its end.
    pub closed spec fn exhausted(&self) -> bool {
        self.exhausted
    }

    /// At most this many computations run at once.
    pub closed spec fn limit(&self) -> nat {
        limit_of(self.concurrency)
    }

    /// The ordered result buffer.
    pub closed spec fn results(&self) -> OrderedResults<D::Item> {
        self.results
    }

    pub closed spec fn wf(&self) -> bool {
        &&& self.results.wf()
        &&& self.results.running() <= limit_of(self.concurrency)
        &&& self.exhausted ==> self.deluge.pending().len() == 0
    }

    /// A well-formed driver has a well-formed result buffer.
    pub proof fn lemma_results_wf(&self)
        requires
            self.wf(),
        ensures
            self.results().wf(),
            self.results().running() <= self.limit(),
    {
    }

    /// How many more computations may be loaded now: up to the limit, and
    /// no more than there are positions left to give.
    pub open spec fn room(&self) -> int {
        let by_limit = self.limit() - self.results().running();
        let by_positions = usize::MAX - self.results().len();
        if by_limit < by_positions {
            by_limit
        } else {
            by_positions
        }
    }

    /// A driver over `deluge`; a concurrency of `None` or zero is unbounded.
    pub fn new(deluge: D, concurrency: Option<usize>) -> (r: Self)
        ensures
            r.wf(),
            r.upstream() == deluge.pending(),
            !r.exhausted(),
            r.limit() == limit_of(concurrency),
            r.results().len() == 0,
            r.results().running() == 0,
            r.results().cursor() == 0,
    {
        let concurrency = match concurrency {
            Some(k) if k > 0 => Some(k),
            _ => None,
        };
        Collect { deluge, exhausted: false, concurrency, results: OrderedResults::new() }
    }

    /// How many positions have been handed out.
    pub fn positions(&self) -> (r: usize)
        requires
            self.wf(),
        ensures
            r == self.results().len(),
    {
        self.results.handed_out()
    }

    fn limit_exec(&self) -> (r: usize)
        ensures
            r == self.limit(),
    {
        match self.concurrency {
            Some(k) if k > 0 => k,
            _ => usize::MAX,
        }
    }

    /// Loads computations until `limit` of them are running, the deluge ends,
    /// or no position is left to give (positions are `usize`). Each loaded
    /// computation comes with the position it was given.
    pub fn load(&mut self) -> (r: Vec<(usize, D::Output)>)
        requires
            old(self).wf(),
        ensures
            final(self).wf(),
            final(self).limit() == old(self).limit(),
            ({
                let room = old(self).room();
                let n = if old(self).exhausted() {
                    0
                } else if old(self).upstream().len() < room {
                    old(self).upstream().len() as int
                } else {
                    room
                };
                &&& r@.len() == n
                &&& forall|j: int|
                    0 <= j < n ==> #[trigger] r@[j] == (
                        (old(self).results().len() + j) as usize,
                        old(self).upstream()[j],
                    )
                &&& final(self).upstream() == old(self).upstream().skip(n)
                &&& final(self).results().len() == old(self).results().len() + n
                &&& final(self).results().running() == old(self).results().running() + n
            }),
            final(self).exhausted() == (old(self).exhausted() || old(self).upstream().len()
                < old(self).room()),
            final(self).results().cursor() == old(self).results().cursor(),
            final(self).results().reported() == old(self).results().reported(),
            final(self).results().delivered() == old(self).results().delivered(),
            forall|i: int|
                0 <= i < old(self).results().len() ==> final(self).results().is_running(i)
                    == old(self).results().is_running(i),
            forall|i: int|
                old(self).results().len() <= i < final(self).results().len()
                    ==> final(self).results().is_running(i),
    {
        let limit = self.limit_exec();
        proof {
            self.results.lemma_cursor_in_range();
            self.lemma_results_wf();
        }
        let mut loaded: Vec<(usize, D::Output)> = Vec::new();
        let ghost up0 = self.deluge.pending();
        let ghost len0 = self.results.len();
        while !self.exhausted && self.results.running_now() < limit && self.results.handed_out()
            < usize::MAX
            invariant
                self.results.wf(),
                limit == limit_of(self.concurrency),
                self.results.running() <= limit,
                self.exhausted ==> self.deluge.pending().len() == 0,
                self.concurrency == old(self).concurrency,
                len0 == old(self).results().len(),
                up0 == old(self).upstream(),
                loaded@.len() == self.results.len() - len0,
                self.results.running() == old(self).results().running() + loaded@.len(),
                old(self).exhausted ==> loaded@.len() == 0 && self.exhausted,
                self.deluge.pending() == up0.skip(loaded@.len() as int),
                loaded@.len() <= up0.len(),
                forall|j: int|
                    0 <= j < loaded@.len() ==> #[trigger] loaded@[j] == ((len0 + j) as usize, up0[j]),
                self.exhausted && !old(self).exhausted ==> loaded@.len() == up0.len()
                    && self.results.running() < limit && self.results.len() < usize::MAX,
                self.results.len() <= usize::MAX,
                self.results.cursor() == old(self).results().cursor(),
                self.results.reported() == old(self).results().reported(),
                forall|i: int|
                    0 <= i < len0 ==> self.results.is_running(i) == old(self).results().is_running(i),
                forall|i: int| len0 <= i < self.results.len() ==> self.results.is_running(i),
            decreases up0.len() - loaded@.len() + if self.exhausted { 0int } else { 1int },
        {
            match self.deluge.next() {
                Some(c) => {
                    assert(up0.skip(loaded@.len() as int).len() > 0);
                    let idx = self.results.open();
                    loaded.push((idx, c));
                    assert(up0.skip(loaded@.len() as int) =~= up0.skip(
                        (loaded@.len() - 1) as int,
                    ).drop_first());
                },
                None => {
                    self.exhausted = true;
                },
            }
        }
        loaded
    }

    /// Records the result of the computation at running position `idx`.
    pub fn complete(&mut self, idx: usize, value: Option<D::Item>)
        requires
            old(self).wf(),
            old(self).results().is_running(idx as int),
        ensures
            final(self).wf(),
            final(self).upstream() == old(self).upstream(),
            final(self).exhausted() == old(self).exhausted(),
            final(self).limit() == old(self).limit(),
            final(self).results().len() == old(self).results().len(),
            final(self).results().cursor() == old(self).results().cursor(),
            final(self).results().running() + 1 == old(self).results().running(),
            !final(self).results().is_running(idx as int),
            forall|i: int|
                i != idx ==> final(self).results().is_running(i) == old(self).results().is_running(i),
            final(self).results().reported() == old(self).results().reported().insert(
                idx as int,
                value,
            ),
            final(self).results().delivered() == old(self).results().delivered(),
    {
        self.results.complete(idx, value);
    }

    /// Whether nothing is running although the deluge may hold more: the
    /// caller loads again before it waits.
    pub fn needs_more(&self) -> (r: bool)
        ensures
            r == (!self.exhausted() && self.results().running() == 0),
    {
        !self.exhausted && self.results.running_now() == 0
    }

    /// Yields the next result in input order, skipping empty ones, or says
    /// why there is none.
    pub fn poll_output(&mut self) -> (e: Emit<D::Item>)
        requires
            old(self).wf(),
        ensures
            final(self).wf(),
            final(self).upstream() == old(self).upstream(),
            final(self).exhausted() == old(self).exhausted(),
            final(self).limit() == old(self).limit(),
            final(self).results().len() == old(self).results().len(),
            final(self).results().running() == old(self).results().running(),
            final(self).results().reported() == old(self).results().reported(),
            forall|i: int| final(self).results().is_running(i) == old(self).results().is_running(i),
            old(self).results().cursor() <= final(self).results().cursor()
                <= final(self).results().len(),
            forall|k: int|
                old(self).results().cursor() <= k < final(self).results().cursor()
                    ==> !old(self).results().is_running(k),
            match e {
                Emit::Item(v) => {
                    &&& old(self).results().cursor() < final(self).results().cursor()
                    &&& old(self).results().reported()[final(self).results().cursor() - 1] == Some(v)
                    &&& final(self).results().delivered() == old(self).results().delivered().push(v)
                    &&& forall|k: int|
                        old(self).results().cursor() <= k < final(self).results().cursor() - 1
                            ==> old(self).results().reported()[k] is None
                },
                Emit::Pending => {
                    &&& final(self).results().delivered() == old(self).results().delivered()
                    &&& forall|k: int|
                        old(self).results().cursor() <= k < final(self).results().cursor()
                            ==> old(self).results().reported()[k] is None
                    &&& (old(self).results().is_running(final(self).results().cursor() as int) || (
                    final(self).results().cursor() == final(self).results().len()
                        && !old(self).exhausted()))
                },
                Emit::Finished => {
                    &&& final(self).results().delivered() == old(self).results().delivered()
                    &&& forall|k: int|
                        old(self).results().cursor() <= k < final(self).results().cursor()
                            ==> old(self).results().reported()[k] is None
                    &&& final(self).results().cursor() == final(self).results().len()
                    &&& old(self).exhausted()
                },
            },
    {
        match self.results.deliver() {
            Delivery::Item(v) => Emit::Item(v),
            Delivery::Waiting => Emit::Pending,
            Delivery::CaughtUp => {
                if self.exhausted {
                    Emit::Finished
                } else {
                    Emit::Pending
                }
            },
        }
    }
}

/// At no time do more computations run inside a driver than its limit allows.
pub proof fn running_within_limit<D: Deluge>(c: &Collect<D>)
    requires
        c.wf(),
    ensures
        c.results().running() <= c.limit(),
{
}

/// A driver that has finished has loaded every computation of its deluge, has
/// none running, and has yielded exactly the present results of all positions
/// in input order, whatever its concurrency.
pub proof fn finished_yields_results_in_order<D: Deluge>(c: &Collect<D>)
    requires
        c.wf(),
        c.exhausted(),
        c.results().cursor() == c.results().len(),
    ensures
        c.upstream().len() == 0,
        c.results().running() == 0,
        forall|i: int| !c.results().is_running(i),
        c.results().delivered() == crate::ordered::somes(
            c.results().outcomes(c.results().len() as int),
        ),
{
    c.results().lemma_caught_up();
}

} // verus!
