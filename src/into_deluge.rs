use crate::deluge::Deluge;
use crate::iter::{iter, Iter};
use vstd::prelude::*;

verus! {

/// Relies on `<Vec<T> as From<[T; N]>>::from`: a vector of the array's
/// elements, in order.
#[verifier::external_body]
fn vec_from_array<T, const N: usize>(a: [T; N]) -> (r: Vec<T>)
    ensures
        r@ == a@,
{
    Vec::from(a)
}

/// Turns an array into a deluge whose computations resolve to its elements in order.
pub fn iter_array<T, const N: usize>(a: [T; N]) -> (r: Iter<T>)
    ensures
        r.remaining() == a@,
{
    iter(vec_from_array(a))
}

/// Turns a range into a deluge whose computations resolve to its numbers in order.
pub fn iter_range(range: std::ops::Range<usize>) -> (r: Iter<usize>)
    ensures
        r.remaining() == Seq::new(
            if range.start <= range.end {
                (range.end - range.start) as nat
            } else {
                0
            },
            |i: int| (range.start + i) as usize,
        ),
{
    let mut items: Vec<usize> = Vec::new();
    let mut x = range.start;
    while x < range.end
        invariant
            range.start <= x || items@.len() == 0,
            x >= range.start,
            x <= range.end || x == range.start,
            items@ == Seq::new((x - range.start) as nat, |i: int| (range.start + i) as usize),
        decreases range.end - x,
    {
        items.push(x);
        x = x + 1;
    }
    assert(items@ =~= Seq::new(
        if range.start <= range.end {
            (range.end - range.start) as nat
        } else {
            0
        },
        |i: int| (range.start + i) as usize,
    ));
    iter(items)
}

/// Anything that can be turned into a deluge: eager sequences, and deluges
/// themselves.
pub trait IntoDeluge<T: Deluge> {
    fn into_deluge(self) -> T;
}

impl<T> IntoDeluge<Iter<T>> for Vec<T> {
    fn into_deluge(self) -> Iter<T> {
        iter(self)
    }
}

impl<T, const N: usize> IntoDeluge<Iter<T>> for [T; N] {
    fn into_deluge(self) -> Iter<T> {
        iter_array(self)
    }
}

impl IntoDeluge<Iter<usize>> for std::ops::Range<usize> {
    fn into_deluge(self) -> Iter<usize> {
        iter_range(self)
    }
}

impl<D: Deluge> IntoDeluge<D> for D {
    fn into_deluge(self) -> D {
        self
    }
}

} // verus!
