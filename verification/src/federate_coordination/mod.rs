//! Federate-local coordination of the scheduler participants that share one RTI connection.
//!
//! Each participant (an enclave scheduler) publishes its logical-time frontier; the Federate
//! advertises the least candidate as its NET, releases acquisitions covered by RTI grants, and
//! reports an LTC only once every live participant has certified quiescence for the same
//! observation epoch of the current round.
use vstd::prelude::*;

pub mod laws;
pub mod service;
pub mod state;

pub use state::{CoordinationAction, CoordinationStateError, FederateCoordinationState};

use crate::protocol::WireTag;

verus! {

/// A runtime logical tag; Federate coordination orders tags exactly as the protocol does.
pub type Tag = WireTag;

/// Dense key of one enclave scheduler participating in Federate coordination.
pub type EnclaveKey = usize;

/// What a participant's scheduler can still do.
#[derive(Debug, Clone, Copy, PartialEq, Eq, Structural)]
pub enum LogicalTimeFrontier {
    /// No local event is pending.
    Idle,
    /// The earliest locally pending event tag.
    Candidate(Tag),
    /// The participant will never act again.
    Finished,
}

/// A wake-up sent to a participant for one round tag and observation epoch.
#[derive(Debug, Clone, Copy, PartialEq, Eq, Structural)]
pub struct CoordinationWake {
    pub tag: Tag,
    pub observation_epoch: u64,
}

/// A frontier publication, acknowledging the wake it consumed, if any.
#[derive(Debug, Clone, Copy, PartialEq, Eq, Structural)]
pub struct FrontierPublication {
    pub frontier: LogicalTimeFrontier,
    pub consumed_wake: Option<CoordinationWake>,
}

/// Strictly increasing keys.
pub open spec fn keys_increasing(s: Seq<EnclaveKey>) -> bool {
    forall|i: int, j: int| 0 <= i < j < s.len() ==> s[i] < s[j]
}

/// The participants of one Federate, sorted and without duplicates.
#[derive(Debug, PartialEq, Eq)]
pub struct FederateCoordinationLayout {
    participants: Vec<EnclaveKey>,
}

impl FederateCoordinationLayout {
    #[verifier::type_invariant]
    spec fn sorted(&self) -> bool {
        keys_increasing(self.participants@)
    }

    /// The participant keys in increasing order.
    pub closed spec fn spec_participants(&self) -> Seq<EnclaveKey> {
        self.participants@
    }

    /// Sorts and deduplicates the participant keys.
    pub fn new(participants: Vec<EnclaveKey>) -> (layout: Self)
        ensures
            keys_increasing(layout.spec_participants()),
            forall|k: EnclaveKey| layout.spec_participants().contains(k) <==> participants@.contains(k),
    {
        let mut sorted: Vec<EnclaveKey> = Vec::new();
        let mut i: usize = 0;
        while i < participants.len()
            invariant
                i <= participants@.len(),
                keys_increasing(sorted@),
                forall|k: EnclaveKey| sorted@.contains(k) <==> participants@.subrange(0, i as int).contains(k),
            decreases participants@.len() - i,
        {
            let x = participants[i];
            let mut pos: usize = 0;
            while pos < sorted.len() && sorted[pos] < x
                invariant
                    pos <= sorted@.len(),
                    forall|j: int| 0 <= j < pos ==> sorted@[j] < x,
                decreases sorted@.len() - pos,
            {
                pos = pos + 1;
            }
            let ghost before = sorted@;
            let present = pos < sorted.len() && sorted[pos] == x;
            if present {
                assert(before[pos as int] == x);
                assert(before.contains(x));
            }
            if !present {
                sorted.insert(pos, x);
                proof {
                    assert(sorted@ == before.insert(pos as int, x));
                    assert forall|a: int, b: int| 0 <= a < b < sorted@.len() implies sorted@[a] < sorted@[b] by {
                        if a < pos && b > pos {
                            assert(sorted@[b] == before[b - 1]);
                        } else if a == pos && b > pos {
                            assert(sorted@[b] == before[b - 1]);
                        } else if a > pos {
                            assert(sorted@[a] == before[a - 1]);
                            assert(sorted@[b] == before[b - 1]);
                        }
                    }
                    assert forall|k: EnclaveKey| sorted@.contains(k) <==> (before.contains(k) || k == x) by {
                        if sorted@.contains(k) {
                            let w = choose|w: int| 0 <= w < sorted@.len() && sorted@[w] == k;
                            if w < pos {
                                assert(before[w] == k);
                            } else if w > pos {
                                assert(before[w - 1] == k);
                            }
                        }
                        if before.contains(k) {
                            let w = choose|w: int| 0 <= w < before.len() && before[w] == k;
                            if w < pos {
                                assert(sorted@[w] == k);
                            } else {
                                assert(sorted@[w + 1] == k);
                            }
                        }
                        if k == x {
                            assert(sorted@[pos as int] == k);
                        }
                    }
                }
            }
            proof {
                crate::seqs::lemma_prefix_contains(participants@, i as int);
                assert forall|k: EnclaveKey| sorted@.contains(k) <==> participants@.subrange(0, i + 1).contains(k) by {
                    assert(sorted@.contains(k) <==> (before.contains(k) || k == x));
                    assert(before.contains(k) <==> participants@.subrange(0, i as int).contains(k));
                }
            }
            i = i + 1;
        }
        assert(participants@.subrange(0, participants@.len() as int) =~= participants@);
        FederateCoordinationLayout { participants: sorted }
    }

    /// The participant keys in increasing order.
    pub fn participants(&self) -> (p: &Vec<EnclaveKey>)
        ensures
            p@ == self.spec_participants(),
            keys_increasing(p@),
    {
        proof {
            use_type_invariant(self);
        }
        &self.participants
    }
}

} // verus!
