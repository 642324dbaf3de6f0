use crate::deluge::Deluge;
use vstd::prelude::*;

verus! {

/// Hands out the computations of the first deluge, then those of the second.
pub struct Chain<D1, D2> {
    deluge1: D1,
    deluge2: D2,
    first_exhausted: bool,
}

impl<D1: Deluge, D2: Deluge<Item = D1::Item, Output = D1::Output>> Chain<D1, D2> {
    pub fn new(deluge1: D1, deluge2: D2) -> (r: Self)
        ensures
            r.pending() == deluge1.pending() + deluge2.pending(),
    {
        Chain { deluge1, deluge2, first_exhausted: false }
    }
}

impl<D1: Deluge, D2: Deluge<Item = D1::Item, Output = D1::Output>> Deluge for Chain<D1, D2> {
    type Item = D1::Item;
    type Output = D1::Output;

    closed spec fn pending(&self) -> Seq<D1::Output> {
        if self.first_exhausted {
            self.deluge2.pending()
        } else {
            self.deluge1.pending() + self.deluge2.pending()
        }
    }

    fn next(&mut self) -> (r: Option<D1::Output>) {
        if self.first_exhausted {
            self.deluge2.next()
        } else {
            match self.deluge1.next() {
                Some(v) => {
                    let ghost a = old(self).deluge1.pending();
                    let ghost b = old(self).deluge2.pending();
                    assert((a + b)[0] == a[0]);
                    assert((a + b).drop_first() =~= a.drop_first() + b);
                    Some(v)
                },
                None => {
                    self.first_exhausted = true;
                    let ghost a = old(self).deluge1.pending();
                    let ghost b = old(self).deluge2.pending();
                    assert(a + b =~= b);
                    self.deluge2.next()
                },
            }
        }
    }
}

} // verus!
