use vstd::prelude::*;

verus! {

/// The values of the present entries of `s`, in order; empty entries are dropped.
pub open spec fn somes<T>(s: Seq<Option<T>>) -> Seq<T>
    decreases s.len(),
{
    if s.len() == 0 {
        Seq::empty()
    } else {
        let init = somes(s.drop_last());
        match s.last() {
            Some(v) => init.push(v),
            None => init,
        }
    }
}

/// The state of one position of an ordered result buffer.
pub enum Slot<T> {
    /// Its computation has been handed out and has not reported yet.
    Running,
    /// Its computation reported this result, which has not been delivered yet.
    Done(Option<T>),
    /// Its result has been delivered (or skipped, when it was empty).
    Delivered,
}

/// What the next delivery attempt of an ordered result buffer found.
pub enum Delivery<T> {
    /// The next present result in position order.
    Item(T),
    /// The next position in order is still running.
    Waiting,
    /// Every position handed out so far has been delivered.
    CaughtUp,
}

/// How many slots of `s` are running.
pub open spec fn running_count<T>(s: Seq<Slot<T>>) -> nat
    decreases s.len(),
{
    if s.len() == 0 {
        0
    } else {
        running_count(s.drop_last()) + if s.last() is Running {
            1nat
        } else {
            0nat
        }
    }
}

proof fn lemma_running_count_update<T>(s: Seq<Slot<T>>, i: int, x: Slot<T>)
    requires
        0 <= i < s.len(),
    ensures
        running_count(s.update(i, x)) == running_count(s) - (if s[i] is Running {
            1int
        } else {
            0int
        }) + (if x is Running {
            1int
        } else {
            0int
        }),
    decreases s.len(),
{
    if i == s.len() - 1 {
        assert(s.update(i, x).drop_last() =~= s.drop_last());
    } else {
        lemma_running_count_update(s.drop_last(), i, x);
        assert(s.update(i, x).drop_last() =~= s.drop_last().update(i, x));
    }
}

proof fn lemma_running_count_bound<T>(s: Seq<Slot<T>>)
    ensures
        running_count(s) <= s.len(),
    decreases s.len(),
{
    if s.len() > 0 {
        lemma_running_count_bound(s.drop_last());
    }
}

proof fn lemma_running_count_none<T>(s: Seq<Slot<T>>)
    requires
        forall|i: int| 0 <= i < s.len() ==> s[i] is Delivered,
    ensures
        running_count(s) == 0,
    decreases s.len(),
{
    if s.len() > 0 {
        lemma_running_count_none(s.drop_last());
    }
}

/// Results of positions `0, 1, 2, ...` that arrive in any order and leave in
/// position order, empty results skipped.
pub struct OrderedResults<T> {
    slots: Vec<Slot<T>>,
    cursor: usize,
    running: usize,
    reported: Ghost<Map<int, Option<T>>>,
}

impl<T> OrderedResults<T> {
    /// How many positions have been handed out.
    pub closed spec fn len(&self) -> nat {
        self.slots@.len()
    }

    /// The next position to be delivered.
    pub closed spec fn cursor(&self) -> nat {
        self.cursor as nat
    }

    /// How many positions are still running.
    pub closed spec fn running(&self) -> nat {
        self.running as nat
    }

    /// Whether position `i` has been handed out and has not reported.
    pub closed spec fn is_running(&self, i: int) -> bool {
        0 <= i < self.slots@.len() && self.slots@[i] is Running
    }

    /// The result that each position reported.
    pub closed spec fn reported(&self) -> Map<int, Option<T>> {
        self.reported@
    }

    /// The reported results of positions `0..n`, in position order.
    pub open spec fn outcomes(&self, n: int) -> Seq<Option<T>> {
        Seq::new(n as nat, |i: int| self.reported()[i])
    }

    /// What has been delivered so far, in order.
    pub open spec fn delivered(&self) -> Seq<T> {
        somes(self.outcomes(self.cursor() as int))
    }

    pub closed spec fn wf(&self) -> bool {
        &&& self.cursor <= self.slots@.len() <= usize::MAX
        &&& self.running == running_count(self.slots@)
        &&& forall|i: int| 0 <= i < self.cursor ==> self.slots@[i] is Delivered
        &&& forall|i: int|
            self.cursor <= i < self.slots@.len() ==> !(#[trigger] self.slots@[i] is Delivered)
        &&& forall|i: int|
            self.cursor <= i < self.slots@.len() && #[trigger] self.slots@[i] is Done
                ==> self.reported@.contains_key(i) && self.reported@[i] == self.slots@[i]->Done_0
    }

    /// The cursor never passes the handed-out positions.
    pub proof fn lemma_cursor_in_range(&self)
        requires
            self.wf(),
        ensures
            self.cursor() <= self.len() <= usize::MAX,
    {
    }

    /// Only handed-out positions run.
    pub proof fn lemma_running_in_range(&self, i: int)
        requires
            self.wf(),
            self.is_running(i),
        ensures
            0 <= i < self.len() <= usize::MAX,
    {
    }

    /// Once every handed-out position has been delivered, none is running.
    pub proof fn lemma_caught_up(&self)
        requires
            self.wf(),
            self.cursor() == self.len(),
        ensures
            self.running() == 0,
            forall|i: int| !self.is_running(i),
    {
        lemma_running_count_none(self.slots@);
    }

    pub fn new() -> (r: Self)
        ensures
            r.wf(),
            r.len() == 0,
            r.cursor() == 0,
            r.running() == 0,
    {
        OrderedResults { slots: Vec::new(), cursor: 0, running: 0, reported: Ghost(Map::empty()) }
    }

    /// How many positions are still running.
    pub fn running_now(&self) -> (r: usize)
        ensures
            r == self.running(),
    {
        self.running
    }

    /// How many positions have been handed out.
    pub fn handed_out(&self) -> (r: usize)
        ensures
            r == self.len(),
    {
        self.slots.len()
    }

    /// Opens the next position, which starts running; returns its index.
    pub fn open(&mut self) -> (idx: usize)
        requires
            old(self).wf(),
            old(self).len() < usize::MAX,
        ensures
            final(self).wf(),
            idx == old(self).len(),
            final(self).len() == old(self).len() + 1,
            final(self).is_running(idx as int),
            forall|i: int| 0 <= i < old(self).len() ==> final(self).is_running(i) == old(self).is_running(i),
            final(self).cursor() == old(self).cursor(),
            final(self).running() == old(self).running() + 1,
            final(self).reported() == old(self).reported(),
    {
        proof {
            lemma_running_count_bound(self.slots@);
            assert(self.slots@.push(Slot::Running).drop_last() =~= self.slots@);
        }
        let idx = self.slots.len();
        self.slots.push(Slot::Running);
        self.running = self.running + 1;
        idx
    }

    /// Records the result of running position `idx`.
    pub fn complete(&mut self, idx: usize, value: Option<T>)
        requires
            old(self).wf(),
            old(self).is_running(idx as int),
        ensures
            final(self).wf(),
            final(self).len() == old(self).len(),
            final(self).cursor() == old(self).cursor(),
            final(self).running() + 1 == old(self).running(),
            !final(self).is_running(idx as int),
            forall|i: int| i != idx ==> final(self).is_running(i) == old(self).is_running(i),
            final(self).reported() == old(self).reported().insert(idx as int, value),
            final(self).delivered() == old(self).delivered(),
    {
        proof {
            lemma_running_count_update(self.slots@, idx as int, Slot::Done(value));
        }
        let ghost before = self.outcomes(self.cursor as int);
        self.slots.set(idx, Slot::Done(value));
        self.running = self.running - 1;
        self.reported = Ghost(self.reported@.insert(idx as int, value));
        assert(self.outcomes(self.cursor as int) =~= before);
    }

    /// Delivers the next present result in position order, skipping empty ones.
    pub fn deliver(&mut self) -> (d: Delivery<T>)
        requires
            old(self).wf(),
        ensures
            final(self).wf(),
            final(self).len() == old(self).len(),
            final(self).running() == old(self).running(),
            final(self).reported() == old(self).reported(),
            forall|i: int| final(self).is_running(i) == old(self).is_running(i),
            old(self).cursor() <= final(self).cursor() <= final(self).len(),
            forall|k: int|
                old(self).cursor() <= k < final(self).cursor() ==> !old(self).is_running(k),
            match d {
                Delivery::Item(v) => {
                    &&& old(self).cursor() < final(self).cursor()
                    &&& old(self).reported()[final(self).cursor() - 1] == Some(v)
                    &&& final(self).delivered() == old(self).delivered().push(v)
                    &&& forall|k: int|
                        old(self).cursor() <= k < final(self).cursor() - 1
                            ==> old(self).reported()[k] is None
                },
                Delivery::Waiting => {
                    &&& old(self).is_running(final(self).cursor() as int)
                    &&& final(self).delivered() == old(self).delivered()
                    &&& forall|k: int|
                        old(self).cursor() <= k < final(self).cursor()
                            ==> old(self).reported()[k] is None
                },
                Delivery::CaughtUp => {
                    &&& final(self).cursor() == final(self).len()
                    &&& final(self).delivered() == old(self).delivered()
                    &&& forall|k: int|
                        old(self).cursor() <= k < final(self).cursor()
                            ==> old(self).reported()[k] is None
                },
            },
    {
        loop
            invariant
                self.wf(),
                self.slots@.len() == old(self).slots@.len(),
                self.running == old(self).running,
                self.reported@ == old(self).reported@,
                forall|i: int| self.is_running(i) == old(self).is_running(i),
                old(self).cursor <= self.cursor,
                self.delivered() == old(self).delivered(),
                forall|k: int| old(self).cursor <= k < self.cursor ==> self.reported@[k] is None,
                forall|k: int| old(self).cursor <= k < self.cursor ==> !old(self).is_running(k),
            decreases self.slots@.len() - self.cursor,
        {
            if self.cursor == self.slots.len() {
                return Delivery::CaughtUp;
            }
            let i = self.cursor;
            if let Slot::Running = &self.slots[i] {
                return Delivery::Waiting;
            }
            let ghost before = self.slots@;
            let ghost prev = self.outcomes(i as int);
            let mut taken = Slot::Delivered;
            std::mem::swap(&mut self.slots[i], &mut taken);
            assert(taken == before[i as int]);
            proof {
                lemma_running_count_update(before, i as int, Slot::Delivered);
            }
            self.cursor = i + 1;
            assert(self.outcomes(self.cursor as int) =~= prev.push(self.reported@[i as int]));
            assert(self.outcomes(self.cursor as int).drop_last() =~= prev);
            match taken {
                Slot::Done(Some(v)) => {
                    return Delivery::Item(v);
                },
                _ => {},
            }
        }
    }
}

} // verus!
