use std::collections::HashMap;
use vstd::prelude::*;

verus! {

broadcast use vstd::std_specs::hash::group_hash_axioms;

/// Whether `s` is strictly increasing.
pub open spec fn strictly_increasing(s: Seq<usize>) -> bool {
    forall|i: int, j: int| 0 <= i < j < s.len() ==> s[i] < s[j]
}

/// What a request for one index of an indexable stream should do next.
pub enum Lookup<T> {
    /// The request is answered with this value; `None` when the stream ended
    /// without an item for the index.
    Found(Option<T>),
    /// The request is the lowest one waiting: it polls the underlying stream
    /// and reports the outcome with `advance`.
    Drive,
    /// Another request drives the stream; this one waits to be woken.
    Park,
}

/// What the stream's outcome, reported by the driving request, leads to.
pub enum Advance<T> {
    /// The item was the one the driving request asked for.
    Delivered(T),
    /// The stream has ended: every waiting request is woken.
    Ended,
    /// The item was buffered for a later request; the given waiting request,
    /// if any, is woken to go on driving.
    Stored(Option<usize>),
}

/// Serves requests for the item at a given index of a forward-only stream.
///
/// Items that arrive before they are asked for are buffered; only the lowest
/// waiting request drives the stream, so the stream is read once, in order,
/// whatever order the requests come in.
pub struct IndexableStream<T> {
    items: HashMap<usize, T>,
    waiters: Vec<usize>,
    current_index: usize,
    exhausted: bool,
    seen: Ghost<Seq<T>>,
}

impl<T> IndexableStream<T> {
    /// Every item that the stream has produced, in order.
    pub closed spec fn seen(&self) -> Seq<T> {
        self.seen@
    }

    /// The index of the next item the stream will produce.
    pub closed spec fn current(&self) -> nat {
        self.current_index as nat
    }

    /// Whether the stream has ended.
    pub closed spec fn exhausted(&self) -> bool {
        self.exhausted
    }

    /// Items produced but not yet handed to their request.
    pub closed spec fn buffered(&self) -> Map<usize, T> {
        self.items@
    }

    /// The indices of the waiting requests, lowest first.
    pub closed spec fn waiting(&self) -> Seq<usize> {
        self.waiters@
    }

    pub closed spec fn wf(&self) -> bool {
        &&& self.current_index == self.seen@.len()
        &&& forall|k: usize| #[trigger]
            self.items@.contains_key(k) ==> k < self.current_index && self.items@[k]
                == self.seen@[k as int]
        &&& strictly_increasing(self.waiters@)
    }

    /// Buffered items are the stream's own items at their indices.
    pub proof fn lemma_buffered_are_seen(&self, k: usize)
        requires
            self.wf(),
            self.buffered().contains_key(k),
        ensures
            k < self.current(),
            self.buffered()[k] == self.seen()[k as int],
    {
    }

    pub fn new() -> (r: Self)
        ensures
            r.wf(),
            r.seen() == Seq::<T>::empty(),
            r.current() == 0,
            !r.exhausted(),
            r.buffered() == Map::<usize, T>::empty(),
            r.waiting() == Seq::<usize>::empty(),
    {
        IndexableStream {
            items: HashMap::new(),
            waiters: Vec::new(),
            current_index: 0,
            exhausted: false,
            seen: Ghost(Seq::empty()),
        }
    }

    /// The index of the next item the stream will produce.
    pub fn position(&self) -> (r: usize)
        ensures
            r == self.current(),
    {
        self.current_index
    }

    fn register(&mut self, idx: usize)
        requires
            strictly_increasing(old(self).waiters@),
        ensures
            strictly_increasing(final(self).waiters@),
            final(self).waiters@.to_set() == old(self).waiters@.to_set().insert(idx),
            final(self).items == old(self).items,
            final(self).current_index == old(self).current_index,
            final(self).exhausted == old(self).exhausted,
            final(self).seen == old(self).seen,
    {
        let mut i: usize = 0;
        while i < self.waiters.len() && self.waiters[i] < idx
            invariant
                i <= self.waiters@.len(),
                self.waiters@ == old(self).waiters@,
                self.items == old(self).items,
                self.current_index == old(self).current_index,
                self.exhausted == old(self).exhausted,
                self.seen == old(self).seen,
                strictly_increasing(self.waiters@),
                forall|j: int| 0 <= j < i ==> self.waiters@[j] < idx,
            decreases self.waiters@.len() - i,
        {
            i = i + 1;
        }
        if i < self.waiters.len() && self.waiters[i] == idx {
            assert(self.waiters@.to_set().insert(idx) =~= self.waiters@.to_set());
        } else {
            let ghost before = self.waiters@;
            self.waiters.insert(i, idx);
            assert(self.waiters@ =~= before.subrange(0, i as int).push(idx) + before.subrange(
                i as int,
                before.len() as int,
            ));
            assert(self.waiters@.to_set() =~= before.to_set().insert(idx)) by {
                assert forall|x: usize| #[trigger]
                    self.waiters@.contains(x) <==> before.contains(x) || x == idx by {
                    if self.waiters@.contains(x) {
                        let j = choose|j: int| 0 <= j < self.waiters@.len() && self.waiters@[j] == x;
                        if j < i {
                            assert(before[j] == x);
                        } else if j > i {
                            assert(before[j - 1] == x);
                        }
                    }
                    if before.contains(x) {
                        let j = choose|j: int| 0 <= j < before.len() && before[j] == x;
                        if j < i {
                            assert(self.waiters@[j] == x);
                        } else {
                            assert(self.waiters@[j + 1] == x);
                        }
                    }
                    if x == idx {
                        assert(self.waiters@[i as int] == x);
                    }
                }
            }
        }
    }

    fn deregister(&mut self, idx: usize)
        requires
            strictly_increasing(old(self).waiters@),
        ensures
            strictly_increasing(final(self).waiters@),
            final(self).waiters@.to_set() == old(self).waiters@.to_set().remove(idx),
            final(self).items == old(self).items,
            final(self).current_index == old(self).current_index,
            final(self).exhausted == old(self).exhausted,
            final(self).seen == old(self).seen,
    {
        let mut i: usize = 0;
        while i < self.waiters.len() && self.waiters[i] < idx
            invariant
                i <= self.waiters@.len(),
                self.waiters@ == old(self).waiters@,
                self.items == old(self).items,
                self.current_index == old(self).current_index,
                self.exhausted == old(self).exhausted,
                self.seen == old(self).seen,
                strictly_increasing(self.waiters@),
                forall|j: int| 0 <= j < i ==> self.waiters@[j] < idx,
            decreases self.waiters@.len() - i,
        {
            i = i + 1;
        }
        if i < self.waiters.len() && self.waiters[i] == idx {
            let ghost before = self.waiters@;
            self.waiters.remove(i);
            assert(self.waiters@.to_set() =~= before.to_set().remove(idx)) by {
                assert forall|x: usize| #[trigger]
                    self.waiters@.contains(x) <==> before.contains(x) && x != idx by {
                    if self.waiters@.contains(x) {
                        let j = choose|j: int| 0 <= j < self.waiters@.len() && self.waiters@[j] == x;
                        if j < i {
                            assert(before[j] == x);
                        } else {
                            assert(before[j + 1] == x);
                        }
                    }
                    if before.contains(x) && x != idx {
                        let j = choose|j: int| 0 <= j < before.len() && before[j] == x;
                        if j < i {
                            assert(self.waiters@[j] == x);
                        } else {
                            assert(self.waiters@[j - 1] == x);
                        }
                    }
                }
            }
        } else {
            assert(self.waiters@.to_set().remove(idx) =~= self.waiters@.to_set()) by {
                assert forall|x: usize| self.waiters@.contains(x) implies x != idx by {
                    let j = choose|j: int| 0 <= j < self.waiters@.len() && self.waiters@[j] == x;
                    if j >= i {
                        assert(self.waiters@[j] >= self.waiters@[i as int]);
                    }
                }
            }
        }
    }

    /// Handles a request for the item at `idx`: the request is registered as
    /// waiting, then answered from the buffer, or told to drive the stream or
    /// to wait.
    pub fn lookup(&mut self, idx: usize) -> (r: Lookup<T>)
        requires
            old(self).wf(),
        ensures
            final(self).wf(),
            final(self).seen() == old(self).seen(),
            final(self).exhausted() == old(self).exhausted(),
            match r {
                Lookup::Found(v) => {
                    &&& old(self).exhausted() || old(self).buffered().contains_key(idx)
                    &&& v == if old(self).buffered().contains_key(idx) {
                        Some(old(self).buffered()[idx])
                    } else {
                        None
                    }
                    &&& final(self).buffered() == old(self).buffered().remove(idx)
                    &&& final(self).waiting().to_set() == old(self).waiting().to_set().remove(idx)
                },
                Lookup::Drive => {
                    &&& !old(self).exhausted()
                    &&& !old(self).buffered().contains_key(idx)
                    &&& final(self).buffered() == old(self).buffered()
                    &&& final(self).waiting().to_set() == old(self).waiting().to_set().insert(idx)
                    &&& final(self).waiting()[0] == idx
                },
                Lookup::Park => {
                    &&& !old(self).exhausted()
                    &&& !old(self).buffered().contains_key(idx)
                    &&& final(self).buffered() == old(self).buffered()
                    &&& final(self).waiting().to_set() == old(self).waiting().to_set().insert(idx)
                    &&& final(self).waiting()[0] != idx
                },
            },
    {
        self.register(idx);
        if self.exhausted {
            self.deregister(idx);
            let v = self.items.remove(&idx);
            assert(old(self).waiting().to_set().insert(idx).remove(idx) =~= old(self).waiting().to_set().remove(idx));
            return Lookup::Found(v);
        }
        if self.items.contains_key(&idx) {
            let v = self.items.remove(&idx);
            self.deregister(idx);
            assert(old(self).waiting().to_set().insert(idx).remove(idx) =~= old(self).waiting().to_set().remove(idx));
            return Lookup::Found(v);
        }
        assert(self.waiters@.to_set().contains(idx));
        assert(self.waiters@.len() > 0);
        if self.waiters[0] == idx {
            Lookup::Drive
        } else {
            Lookup::Park
        }
    }

    /// Reports what the driving request for `idx` got from the stream.
    pub fn advance(&mut self, idx: usize, next: Option<T>) -> (r: Advance<T>)
        requires
            old(self).wf(),
            !old(self).exhausted(),
            old(self).current() < usize::MAX,
        ensures
            final(self).wf(),
            match next {
                None => {
                    &&& r is Ended
                    &&& final(self).exhausted()
                    &&& final(self).seen() == old(self).seen()
                    &&& final(self).buffered() == old(self).buffered()
                    &&& final(self).waiting() == old(self).waiting()
                },
                Some(v) => {
                    &&& !final(self).exhausted()
                    &&& final(self).seen() == old(self).seen().push(v)
                    &&& if idx == old(self).current() {
                        &&& r == Advance::Delivered(v)
                        &&& final(self).buffered() == old(self).buffered()
                        &&& final(self).waiting().to_set() == old(self).waiting().to_set().remove(idx)
                    } else {
                        &&& r == Advance::<T>::Stored(
                            if old(self).waiting().len() > 0 {
                                Some(old(self).waiting()[0])
                            } else {
                                None
                            },
                        )
                        &&& final(self).buffered() == old(self).buffered().insert(
                            old(self).current() as usize,
                            v,
                        )
                        &&& final(self).waiting() == old(self).waiting()
                    }
                },
            },
    {
        match next {
            None => {
                self.exhausted = true;
                Advance::Ended
            },
            Some(v) => {
                self.seen = Ghost(self.seen@.push(v));
                if idx == self.current_index {
                    self.deregister(idx);
                    self.current_index = self.current_index + 1;
                    Advance::Delivered(v)
                } else {
                    let at = self.current_index;
                    self.items.insert(at, v);
                    self.current_index = self.current_index + 1;
                    let wake = if self.waiters.len() > 0 {
                        Some(self.waiters[0])
                    } else {
                        None
                    };
                    Advance::Stored(wake)
                }
            },
        }
    }
}

} // verus!
