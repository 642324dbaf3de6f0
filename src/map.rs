use crate::deluge::Deluge;
use std::marker::PhantomData;
use std::sync::Arc;
use vstd::prelude::*;

verus! {

/// One computation of a mapped deluge: the inner computation, followed by
/// the function applied to what it resolves to.
pub struct MapStep<C, F> {
    pub inner: C,
    pub f: Arc<F>,
}

/// Applies a function to what each computation of the inner deluge resolves
/// to, yielding items of type `O`; never evaluates anything itself.
pub struct MapDeluge<D, F, O> {
    deluge: D,
    f: Arc<F>,
    _out: PhantomData<O>,
}

impl<D: Deluge, F, O> MapDeluge<D, F, O> {
    pub fn new(deluge: D, f: F) -> (r: Self)
        ensures
            r.pending() == deluge.pending().map_values(|c: D::Output| MapStep { inner: c, f: r.function() }),
    {
        MapDeluge { deluge, f: Arc::new(f), _out: PhantomData }
    }

    /// The function shared by every computation handed out.
    pub closed spec fn function(&self) -> Arc<F> {
        self.f
    }
}

impl<D: Deluge, F, O> Deluge for MapDeluge<D, F, O> {
    type Item = O;
    type Output = MapStep<D::Output, F>;

    closed spec fn pending(&self) -> Seq<MapStep<D::Output, F>> {
        self.deluge.pending().map_values(|c: D::Output| MapStep { inner: c, f: self.f })
    }

    fn next(&mut self) -> (r: Option<MapStep<D::Output, F>>) {
        match self.deluge.next() {
            Some(c) => {
                let f = self.f.clone();
                assert(self.pending() =~= old(self).pending().drop_first());
                Some(MapStep { inner: c, f })
            },
            None => None,
        }
    }
}

} // verus!
