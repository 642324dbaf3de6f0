use crate::deluge::Deluge;
use vstd::prelude::*;

verus! {

/// Counts the computations of a deluge by draining it, without evaluating any.
pub fn count<D: Deluge>(deluge: D) -> (r: usize)
    requires
        deluge.pending().len() <= usize::MAX,
    ensures
        r == deluge.pending().len(),
{
    let mut deluge = deluge;
    let ghost s = deluge.pending();
    let mut count: usize = 0;
    loop
        invariant
            count <= s.len(),
            s.len() <= usize::MAX,
            deluge.pending() == s.skip(count as int),
        ensures
            count == s.len(),
        decreases s.len() - count,
    {
        match deluge.next() {
            Some(_) => {
                assert(s.skip(count + 1) =~= s.skip(count as int).drop_first());
                count = count + 1;
            },
            None => {
                break ;
            },
        }
    }
    count
}

} // verus!
