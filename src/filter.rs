use crate::deluge::Deluge;
use std::sync::Arc;
use vstd::prelude::*;

verus! {

/// One computation of a filtered deluge: the inner computation, followed by
/// the predicate, which keeps the value or filters the position out.
pub struct FilterStep<C, F> {
    pub inner: C,
    pub f: Arc<F>,
}

/// Keeps the values of the inner deluge that satisfy a predicate; never
/// evaluates anything itself.
pub struct Filter<D, F> {
    deluge: D,
    f: Arc<F>,
}

impl<D: Deluge, F> Filter<D, F> {
    pub fn new(deluge: D, f: F) -> (r: Self)
        ensures
            r.pending() == deluge.pending().map_values(|c: D::Output| FilterStep { inner: c, f: r.function() }),
    {
        Filter { deluge, f: Arc::new(f) }
    }

    /// The function shared by every computation handed out.
    pub closed spec fn function(&self) -> Arc<F> {
        self.f
    }
}

impl<D: Deluge, F> Deluge for Filter<D, F> {
    type Item = D::Item;
    type Output = FilterStep<D::Output, F>;

    closed spec fn pending(&self) -> Seq<FilterStep<D::Output, F>> {
        self.deluge.pending().map_values(|c: D::Output| FilterStep { inner: c, f: self.f })
    }

    fn next(&mut self) -> (r: Option<FilterStep<D::Output, F>>) {
        match self.deluge.next() {
            Some(c) => {
                let f = self.f.clone();
                assert(self.pending() =~= old(self).pending().drop_first());
                Some(FilterStep { inner: c, f })
            },
            None => None,
        }
    }
}

} // verus!
