use crate::deluge::Deluge;
use std::collections::VecDeque;
use vstd::prelude::*;

verus! {

/// An element computation that is already resolved.
pub struct Ready<T> {
    pub value: Option<T>,
}

impl<T> Ready<T> {
    /// The value that this computation resolves to.
    pub fn into_inner(self) -> (r: Option<T>)
        ensures
            r == self.value,
    {
        self.value
    }
}

/// The computation that resolves to `Some(v)` at once.
pub open spec fn ready_of<T>(v: T) -> Ready<T> {
    Ready { value: Some(v) }
}

/// A deluge over the elements of an eager sequence.
pub struct Iter<T> {
    items: VecDeque<T>,
}

impl<T> Iter<T> {
    /// The elements still to be handed out.
    pub closed spec fn remaining(&self) -> Seq<T> {
        self.items@
    }
}

/// Turns a vector into a deluge whose computations resolve to its elements in order.
pub fn iter<T>(items: Vec<T>) -> (r: Iter<T>)
    ensures
        r.remaining() == items@,
{
    let mut queue: VecDeque<T> = VecDeque::new();
    let mut rest = items;
    let ghost all = rest@;
    while rest.len() > 0
        invariant
            rest@ + queue@ == all,
        decreases rest.len(),
    {
        let ghost before = rest@;
        let x = rest.pop().unwrap();
        queue.push_front(x);
    }
    Iter { items: queue }
}

impl<T> Deluge for Iter<T> {
    type Item = T;
    type Output = Ready<T>;

    open spec fn pending(&self) -> Seq<Ready<T>> {
        self.remaining().map_values(|v: T| ready_of(v))
    }

    fn next(&mut self) -> (r: Option<Ready<T>>) {
        match self.items.pop_front() {
            Some(v) => Some(Ready { value: Some(v) }),
            None => None,
        }
    }
}

} // verus!
