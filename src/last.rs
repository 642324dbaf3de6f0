use crate::deluge::Deluge;
use vstd::prelude::*;

verus! {

/// Hands out only the last computation of the inner deluge, which it finds by
/// draining the inner deluge on the first call of `next`.
pub struct Last<D> {
    deluge: D,
}

/// The last element of `s` alone, or nothing when `s` is empty.
pub open spec fn last_only<T>(s: Seq<T>) -> Seq<T> {
    if s.len() == 0 {
        Seq::empty()
    } else {
        seq![s.last()]
    }
}

impl<D: Deluge> Last<D> {
    pub fn new(deluge: D) -> (r: Self)
        ensures
            r.pending() == last_only(deluge.pending()),
    {
        Last { deluge }
    }
}

impl<D: Deluge> Deluge for Last<D> {
    type Item = D::Item;
    type Output = D::Output;

    closed spec fn pending(&self) -> Seq<D::Output> {
        last_only(self.deluge.pending())
    }

    fn next(&mut self) -> (r: Option<D::Output>) {
        let ghost s = self.deluge.pending();
        let ghost mut consumed: int = 0;
        let mut previous: Option<D::Output> = None;
        loop
            invariant
                0 <= consumed <= s.len(),
                self.deluge.pending() == s.skip(consumed),
                previous == (if consumed == 0 {
                    None
                } else {
                    Some(s[consumed - 1])
                }),
        ensures
            consumed == s.len(),
            previous == (if consumed == 0 {
                None
            } else {
                Some(s[consumed - 1])
            }),
        decreases s.len() - consumed,
        {
            match self.deluge.next() {
                Some(v) => {
                    previous = Some(v);
                    proof {
                        assert(s.skip(consumed + 1) =~= s.skip(consumed).drop_first());
                        consumed = consumed + 1;
                    }
                },
                None => {
                    break ;
                },
            }
        }
        previous
    }
}

} // verus!
