use crate::deluge::Deluge;
use vstd::prelude::*;

verus! {

/// Hands out at most `how_many` computations of the inner deluge.
pub struct Take<D> {
    deluge: D,
    how_many: usize,
    provided: usize,
}

impl<D: Deluge> Take<D> {
    /// How many computations may still be handed out.
    pub closed spec fn allowance(&self) -> int {
        if self.provided < self.how_many {
            self.how_many - self.provided
        } else {
            0
        }
    }

    pub fn new(deluge: D, how_many: usize) -> (r: Self)
        ensures
            r.pending() == crate::deluge::prefix_of(deluge.pending(), how_many as int),
    {
        Take { deluge, how_many, provided: 0 }
    }
}

impl<D: Deluge> Deluge for Take<D> {
    type Item = D::Item;
    type Output = D::Output;

    closed spec fn pending(&self) -> Seq<D::Output> {
        crate::deluge::prefix_of(self.deluge.pending(), self.allowance())
    }

    fn next(&mut self) -> (r: Option<D::Output>) {
        if self.provided < self.how_many {
            self.provided = self.provided + 1;
            let r = self.deluge.next();
            proof {
                let s = old(self).deluge.pending();
                let n = old(self).allowance();
                if s.len() > 0 {
                    if n < s.len() {
                        assert(s.drop_first().take(n - 1) =~= s.take(n).drop_first());
                    } else {
                        assert(crate::deluge::prefix_of(s.drop_first(), n - 1) =~= s.drop_first());
                    }
                }
            }
            r
        } else {
            None
        }
    }
}

/// Hands out only the first computation of the inner deluge.
pub struct First<D> {
    deluge: D,
    provided: bool,
}

impl<D: Deluge> First<D> {
    pub fn new(deluge: D) -> (r: Self)
        ensures
            r.pending() == crate::deluge::prefix_of(deluge.pending(), 1),
    {
        First { deluge, provided: false }
    }
}

impl<D: Deluge> Deluge for First<D> {
    type Item = D::Item;
    type Output = D::Output;

    closed spec fn pending(&self) -> Seq<D::Output> {
        if self.provided {
            Seq::empty()
        } else {
            crate::deluge::prefix_of(self.deluge.pending(), 1)
        }
    }

    fn next(&mut self) -> (r: Option<D::Output>) {
        if !self.provided {
            self.provided = true;
            let r = self.deluge.next();
            proof {
                let s = old(self).deluge.pending();
                if s.len() > 1 {
                    assert(s.take(1).drop_first() =~= Seq::<D::Output>::empty());
                }
            }
            r
        } else {
            None
        }
    }
}

} // verus!
