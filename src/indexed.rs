use vstd::prelude::*;

verus! {

/// A computation together with the position it was handed out at, so that
/// its result can be filed under that position whichever order results
/// arrive in.
pub struct IndexedFuture<C> {
    future: C,
    index: usize,
}

impl<C> IndexedFuture<C> {
    pub closed spec fn position(&self) -> usize {
        self.index
    }

    pub closed spec fn computation(&self) -> C {
        self.future
    }

    pub fn new(index: usize, future: C) -> (r: Self)
        ensures
            r.position() == index,
            r.computation() == future,
    {
        IndexedFuture { future, index }
    }

    pub fn index(&self) -> (r: usize)
        ensures
            r == self.position(),
    {
        self.index
    }

    pub fn into_future(self) -> (r: C)
        ensures
            r == self.computation(),
    {
        self.future
    }
}

} // verus!
