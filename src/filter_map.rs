use crate::deluge::Deluge;
use std::marker::PhantomData;
use std::sync::Arc;
use vstd::prelude::*;

verus! {

/// One computation of a filter-mapped deluge: the inner computation, followed
/// by the function applied to what it resolves to, whose empty result filters
/// the position out.
pub struct FilterMapStep<C, F> {
    pub inner: C,
    pub f: Arc<F>,
}

/// Applies a function that may filter a position out to what each computation
/// of the inner deluge resolves to, yielding items of type `O`; never
/// evaluates anything itself. Filtered positions keep their place: later
/// positions are not renumbered.
pub struct FilterMap<D, F, O> {
    deluge: D,
    f: Arc<F>,
    _out: PhantomData<O>,
}

impl<D: Deluge, F, O> FilterMap<D, F, O> {
    pub fn new(deluge: D, f: F) -> (r: Self)
        ensures
            r.pending() == deluge.pending().map_values(|c: D::Output| FilterMapStep { inner: c, f: r.function() }),
    {
        FilterMap { deluge, f: Arc::new(f), _out: PhantomData }
    }

    /// The function shared by every computation handed out.
    pub closed spec fn function(&self) -> Arc<F> {
        self.f
    }
}

impl<D: Deluge, F, O> Deluge for FilterMap<D, F, O> {
    type Item = O;
    type Output = FilterMapStep<D::Output, F>;

    closed spec fn pending(&self) -> Seq<FilterMapStep<D::Output, F>> {
        self.deluge.pending().map_values(|c: D::Output| FilterMapStep { inner: c, f: self.f })
    }

    fn next(&mut self) -> (r: Option<FilterMapStep<D::Output, F>>) {
        match self.deluge.next() {
            Some(c) => {
                let f = self.f.clone();
                assert(self.pending() =~= old(self).pending().drop_first());
                Some(FilterMapStep { inner: c, f })
            },
            None => None,
        }
    }
}

} // verus!
