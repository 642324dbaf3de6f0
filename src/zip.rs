use crate::deluge::Deluge;
use crate::ordered::somes;
use crate::preloaded::PreloadedFutures;
use std::sync::Arc;
use vstd::prelude::*;

verus! {

/// The `i`-th element of `s`, or nothing past its end.
pub open spec fn nth_of<T>(s: Seq<T>, i: int) -> Option<T> {
    if 0 <= i < s.len() {
        Some(s[i])
    } else {
        None
    }
}

/// The pair of two present values; nothing when either is missing.
pub open spec fn pair_spec<A, B>(a: Option<A>, b: Option<B>) -> Option<(A, B)> {
    match (a, b) {
        (Some(x), Some(y)) => Some((x, y)),
        _ => None,
    }
}

/// What the positions `0..n` of a zip resolve to, given the present results
/// `a` and `b` of the two sides in order.
pub open spec fn zip_outcomes<A, B>(a: Seq<A>, b: Seq<B>, n: nat) -> Seq<Option<(A, B)>> {
    Seq::new(n, |i: int| pair_spec(nth_of(a, i), nth_of(b, i)))
}

/// Combines what the two sides resolved to at one position.
pub fn pair_of<A, B>(a: Option<A>, b: Option<B>) -> (r: Option<(A, B)>)
    ensures
        r == pair_spec(a, b),
{
    match (a, b) {
        (Some(x), Some(y)) => Some((x, y)),
        _ => None,
    }
}

/// One computation of a zip: position `index`, to be resolved by asking both
/// sides, reached through `first` and `second`, for their result there.
pub struct ZipStep<S1, S2> {
    pub index: usize,
    pub first: Arc<S1>,
    pub second: Arc<S2>,
}

/// Pairs the `i`-th results of two deluges.
///
/// Both deluges are drawn out at construction, so that the number of pairs
/// to hand out, the shorter of the two lengths, is known at once. The caller
/// takes the drawn-out sides, evaluates them, and attaches handles `S1` and
/// `S2` through which results are asked for by index; from then on each
/// computation handed out is a position with those handles, which the
/// caller resolves by asking both sides and combining with `pair_of`.
pub struct Zip<D1: Deluge, D2: Deluge, S1, S2> {
    first: Option<PreloadedFutures<D1>>,
    second: Option<PreloadedFutures<D2>>,
    handles: Option<(Arc<S1>, Arc<S2>)>,
    provided: usize,
    elems_to_provide: usize,
}

impl<D1: Deluge, D2: Deluge, S1, S2> Zip<D1, D2, S1, S2> {
    /// The handles through which the sides are asked, once attached.
    pub closed spec fn handles(&self) -> Option<(Arc<S1>, Arc<S2>)> {
        self.handles
    }

    /// How many positions are handed out in all.
    pub closed spec fn total(&self) -> nat {
        self.elems_to_provide as nat
    }

    /// The drawn-out computations of the first side, until taken.
    pub closed spec fn first_side(&self) -> Option<PreloadedFutures<D1>> {
        self.first
    }

    /// The drawn-out computations of the second side, until taken.
    pub closed spec fn second_side(&self) -> Option<PreloadedFutures<D2>> {
        self.second
    }

    pub fn new(first: D1, second: D2) -> (r: Self)
        ensures
            r.total() == if first.pending().len() < second.pending().len() {
                first.pending().len()
            } else {
                second.pending().len()
            },
            r.handles() is None,
            r.pending() == Seq::<ZipStep<S1, S2>>::empty(),
            r.first_side() matches Some(p) && p.pending() == first.pending(),
            r.second_side() matches Some(p) && p.pending() == second.pending(),
    {
        let preloaded1 = PreloadedFutures::new(first);
        let preloaded2 = PreloadedFutures::new(second);
        let n1 = preloaded1.len();
        let n2 = preloaded2.len();
        let elems_to_provide = if n1 < n2 {
            n1
        } else {
            n2
        };
        Zip {
            first: Some(preloaded1),
            second: Some(preloaded2),
            handles: None,
            provided: 0,
            elems_to_provide,
        }
    }

    /// Takes the two sides out, for the caller to drive.
    pub fn take_sides(&mut self) -> (r: (Option<PreloadedFutures<D1>>, Option<PreloadedFutures<D2>>))
        ensures
            r == (old(self).first_side(), old(self).second_side()),
            final(self).first_side() is None,
            final(self).second_side() is None,
            final(self).total() == old(self).total(),
            final(self).handles() == old(self).handles(),
            final(self).pending() == old(self).pending(),
    {
        let first = self.first.take();
        let second = self.second.take();
        (first, second)
    }

    /// Attaches the handles of the evaluated sides; positions are handed out
    /// from then on.
    pub fn attach(&mut self, first: S1, second: S2) -> (r: ())
        requires
            old(self).handles() is None,
        ensures
            final(self).handles() matches Some(h) && *h.0 == first && *h.1 == second,
            final(self).total() == old(self).total(),
            final(self).first_side() == old(self).first_side(),
            final(self).second_side() == old(self).second_side(),
            final(self).pending() == Seq::new(
                final(self).total(),
                |i: int|
                    ZipStep {
                        index: i as usize,
                        first: final(self).handles()->Some_0.0,
                        second: final(self).handles()->Some_0.1,
                    },
            ),
    {
        self.handles = Some((Arc::new(first), Arc::new(second)));
        self.provided = 0;
        assert(self.pending() =~= Seq::new(
            self.total(),
            |i: int|
                ZipStep {
                    index: i as usize,
                    first: self.handles->Some_0.0,
                    second: self.handles->Some_0.1,
                },
        ));
    }
}

impl<D1: Deluge, D2: Deluge, S1, S2> Deluge for Zip<D1, D2, S1, S2> {
    type Item = (D1::Item, D2::Item);
    type Output = ZipStep<S1, S2>;

    closed spec fn pending(&self) -> Seq<ZipStep<S1, S2>> {
        match self.handles {
            Some(h) if self.provided < self.elems_to_provide => Seq::new(
                (self.elems_to_provide - self.provided) as nat,
                |i: int| ZipStep { index: (self.provided + i) as usize, first: h.0, second: h.1 },
            ),
            _ => Seq::empty(),
        }
    }

    fn next(&mut self) -> (r: Option<ZipStep<S1, S2>>) {
        match &self.handles {
            Some(h) => {
                if self.provided >= self.elems_to_provide {
                    None
                } else {
                    let current_index = self.provided;
                    let first = h.0.clone();
                    let second = h.1.clone();
                    self.provided = self.provided + 1;
                    assert(self.pending() =~= old(self).pending().drop_first());
                    Some(ZipStep { index: current_index, first, second })
                }
            },
            None => None,
        }
    }
}

proof fn lemma_somes_prefix<T>(s: Seq<Option<T>>, m: int, v: Seq<T>)
    requires
        0 <= m <= s.len(),
        v.len() == m,
        forall|i: int| 0 <= i < m ==> s[i] == Some(v[i]),
        forall|i: int| m <= i < s.len() ==> s[i] is None,
    ensures
        somes(s) == v,
    decreases s.len(),
{
    if s.len() > 0 {
        if m == s.len() {
            lemma_somes_prefix(s.drop_last(), m - 1, v.drop_last());
            assert(v =~= v.drop_last().push(v.last()));
        } else {
            lemma_somes_prefix(s.drop_last(), m, v);
        }
    } else {
        assert(v =~= Seq::<T>::empty());
    }
}

/// A zip yields as many pairs as the shorter side has present results, and
/// its `i`-th pair is made of the `i`-th present results of both sides, when
/// `a` and `b` are those results and each side has at least as many
/// positions as present results.
pub proof fn zip_length_and_pairs<A, B>(a: Seq<A>, b: Seq<B>, len_a: nat, len_b: nat)
    requires
        a.len() <= len_a,
        b.len() <= len_b,
    ensures
        ({
            let n = if len_a < len_b {
                len_a
            } else {
                len_b
            };
            let out = somes(zip_outcomes(a, b, n));
            &&& out.len() == if a.len() < b.len() {
                a.len()
            } else {
                b.len()
            }
            &&& forall|i: int| 0 <= i < out.len() ==> out[i] == (a[i], b[i])
        }),
{
    let n = if len_a < len_b {
        len_a
    } else {
        len_b
    };
    let m: int = if a.len() < b.len() {
        a.len() as int
    } else {
        b.len() as int
    };
    let v = Seq::new(m as nat, |i: int| (a[i], b[i]));
    lemma_somes_prefix(zip_outcomes(a, b, n), m, v);
}

} // verus!
