//! Start-time negotiation: once every Federate proposed a physical start time, all of them start
//! at the latest proposal.
use vstd::prelude::*;

verus! {

/// The negotiated start time of `proposals` (Unix epoch nanoseconds): the latest proposal.
pub fn negotiate_start_time(proposals: &Vec<i128>) -> (t: i128)
    requires
        proposals@.len() > 0,
    ensures
        proposals@.contains(t),
        forall|i: int| 0 <= i < proposals@.len() ==> proposals@[i] <= t,
{
    let mut best = proposals[0];
    let mut i: usize = 1;
    while i < proposals.len()
        invariant
            1 <= i <= proposals@.len(),
            proposals@.contains(best),
            forall|j: int| 0 <= j < i ==> proposals@[j] <= best,
        decreases proposals@.len() - i,
    {
        if proposals[i] > best {
            best = proposals[i];
        }
        i = i + 1;
    }
    best
}

} // verus!
