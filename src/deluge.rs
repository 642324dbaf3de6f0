use vstd::prelude::*;

verus! {

/// The first element of `s`, if there is one.
pub open spec fn head_of<T>(s: Seq<T>) -> Option<T> {
    if s.len() == 0 {
        None
    } else {
        Some(s[0])
    }
}

/// `s` without its first element (empty stays empty).
pub open spec fn tail_of<T>(s: Seq<T>) -> Seq<T> {
    if s.len() == 0 {
        s
    } else {
        s.drop_first()
    }
}

/// The first `n` elements of `s`, or all of them when `s` is shorter.
pub open spec fn prefix_of<T>(s: Seq<T>, n: int) -> Seq<T> {
    if n <= 0 {
        Seq::empty()
    } else if n < s.len() {
        s.take(n)
    } else {
        s
    }
}

/// A lazy sequence of element computations.
///
/// Each call of `next` hands out the next unevaluated computation, or `None`
/// once the sequence is exhausted. A computation eventually resolves to
/// `Option<Item>`, where `None` marks a position that was filtered out.
/// Which computations are still to come is `pending`.
pub trait Deluge {
    type Item;
    type Output;

    /// The computations that the following calls of `next` hand out, in order.
    spec fn pending(&self) -> Seq<Self::Output>;

    fn next(&mut self) -> (r: Option<Self::Output>)
        ensures
            r == head_of(old(self).pending()),
            final(self).pending() == tail_of(old(self).pending()),
    ;
}

} // verus!
