use crate::deluge::Deluge;
use std::collections::VecDeque;
use vstd::prelude::*;

verus! {

/// All remaining computations of a deluge, drawn out at construction and kept
/// in order, so that their number is known before any is evaluated.
pub struct PreloadedFutures<D: Deluge> {
    storage: VecDeque<D::Output>,
    deluge: D,
}

impl<D: Deluge> PreloadedFutures<D> {
    pub fn new(deluge: D) -> (r: Self)
        ensures
            r.pending() == deluge.pending(),
    {
        let mut deluge = deluge;
        let ghost s = deluge.pending();
        let mut storage: VecDeque<D::Output> = VecDeque::new();
        loop
            invariant
                storage@.len() <= s.len(),
                storage@ + deluge.pending() == s,
            ensures
                storage@ == s,
            decreases s.len() - storage@.len(),
        {
            let ghost before = deluge.pending();
            match deluge.next() {
                Some(v) => {
                    assert(storage@.push(v) + before.drop_first() =~= storage@ + before);
                    storage.push_back(v);
                },
                None => {
                    assert(storage@ =~= s);
                    break ;
                },
            }
        }
        PreloadedFutures { storage, deluge }
    }

    /// How many computations are held.
    pub fn len(&self) -> (r: usize)
        ensures
            r == self.pending().len(),
    {
        self.storage.len()
    }
}

impl<D: Deluge> Deluge for PreloadedFutures<D> {
    type Item = D::Item;
    type Output = D::Output;

    closed spec fn pending(&self) -> Seq<D::Output> {
        self.storage@
    }

    fn next(&mut self) -> (r: Option<D::Output>) {
        self.storage.pop_front()
    }
}

} // verus!
