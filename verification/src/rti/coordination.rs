//! Per-Federate control-plane state known by the RTI.
use vstd::prelude::*;

use crate::protocol::{tag_lt, tag_min, WireTag};
use crate::tags::{least, tags_sorted, SortedTags};

verus! {

/// What a running Federate last advertised as its next event.
#[derive(Debug, Clone, Copy, PartialEq, Eq, Structural)]
pub enum NextEvent {
    Unknown,
    Finite(WireTag),
    NoFuture,
}

/// Lifecycle of a Federate as seen by the RTI.
#[derive(Debug, Clone, Copy, PartialEq, Eq, Structural)]
pub enum FederateLifecycle {
    Running { next_event: NextEvent },
    Stopped,
}

/// Per-federate control-plane state known by the RTI.
#[derive(Debug, Clone, PartialEq, Eq)]
pub struct FederateCoordination {
    lifecycle: FederateLifecycle,
    last_completed: WireTag,
    last_granted: Option<WireTag>,
    /// Tags of delivered messages not yet covered by a completion.
    in_transit: SortedTags,
}

/// Mathematical view of a Federate's coordination state.
pub struct CoordView {
    pub lifecycle: FederateLifecycle,
    pub last_completed: WireTag,
    pub last_granted: Option<WireTag>,
    pub in_transit: Set<WireTag>,
}

/// The tag a Federate advertises to its downstream: `Never` before any NET, the NET tag, or
/// `Forever` once it has no future events or has stopped.
pub open spec fn advertised(c: CoordView) -> WireTag {
    match c.lifecycle {
        FederateLifecycle::Running { next_event: NextEvent::Unknown } => WireTag::Never,
        FederateLifecycle::Running { next_event: NextEvent::Finite(tag) } => tag,
        _ => WireTag::Forever,
    }
}

/// The finite tag a running Federate has requested, if any.
pub open spec fn requested(c: CoordView) -> Option<WireTag> {
    match c.lifecycle {
        FederateLifecycle::Running { next_event: NextEvent::Finite(tag) } => Some(tag),
        _ => None,
    }
}

/// The earliest tag at which this Federate may still act: its advertised tag, lowered by the
/// earliest message delivered to it and not yet completed.
pub open spec fn effective(c: CoordView) -> WireTag {
    if c.in_transit.is_empty() {
        advertised(c)
    } else {
        tag_min(least(c.in_transit), advertised(c))
    }
}

/// Records a NET: `Forever` means no future events; ignored once stopped.
pub open spec fn spec_request(c: CoordView, tag: WireTag) -> CoordView {
    match c.lifecycle {
        FederateLifecycle::Running { .. } => CoordView {
            lifecycle: FederateLifecycle::Running {
                next_event: if tag == WireTag::Forever { NextEvent::NoFuture } else { NextEvent::Finite(tag) },
            },
            ..c
        },
        FederateLifecycle::Stopped => c,
    }
}

/// Records an LTC: completion never moves backwards and clears covered in-transit tags.
pub open spec fn spec_complete(c: CoordView, tag: WireTag) -> CoordView {
    CoordView {
        last_completed: if tag_lt(c.last_completed, tag) { tag } else { c.last_completed },
        in_transit: c.in_transit.filter(|t: WireTag| tag_lt(tag, t)),
        ..c
    }
}

/// Records a delivered message unless its tag is already covered by a completion.
pub open spec fn spec_record_message(c: CoordView, tag: WireTag) -> CoordView {
    if tag_lt(c.last_completed, tag) {
        CoordView { in_transit: c.in_transit.insert(tag), ..c }
    } else {
        c
    }
}

/// Enters the terminal lifecycle state.
pub open spec fn spec_stop(c: CoordView) -> CoordView {
    CoordView { lifecycle: FederateLifecycle::Stopped, ..c }
}

/// Records a grant.
pub open spec fn spec_granted(c: CoordView, tag: WireTag) -> CoordView {
    CoordView { last_granted: Some(tag), ..c }
}

impl View for FederateCoordination {
    type V = CoordView;

    closed spec fn view(&self) -> CoordView {
        CoordView {
            lifecycle: self.lifecycle,
            last_completed: self.last_completed,
            last_granted: self.last_granted,
            in_transit: self.in_transit@,
        }
    }
}

impl FederateCoordination {
    /// Internal invariant: in-transit tags are strictly increasing.
    pub closed spec fn wf(&self) -> bool {
        self.in_transit.wf()
    }

    /// A Federate that has not advertised anything yet.
    pub fn new() -> (c: Self)
        ensures
            c.wf(),
            c@ == (CoordView {
                lifecycle: FederateLifecycle::Running { next_event: NextEvent::Unknown },
                last_completed: WireTag::Never,
                last_granted: None,
                in_transit: Set::empty(),
            }),
    {
        let c = FederateCoordination {
            lifecycle: FederateLifecycle::Running { next_event: NextEvent::Unknown },
            last_completed: WireTag::Never,
            last_granted: None,
            in_transit: SortedTags::new(),
        };
        c
    }

    /// An identical copy.
    pub fn duplicate(&self) -> (c: Self)
        requires
            self.wf(),
        ensures
            c.wf(),
            c@ == self@,
    {
        FederateCoordination {
            lifecycle: self.lifecycle,
            last_completed: self.last_completed,
            last_granted: self.last_granted,
            in_transit: self.in_transit.duplicate(),
        }
    }

    /// Where the Federate stands in its lifecycle.
    pub fn lifecycle(&self) -> (l: FederateLifecycle)
        ensures
            l == self@.lifecycle,
    {
        self.lifecycle
    }

    /// The latest tag the Federate completed.
    pub fn last_completed(&self) -> (t: WireTag)
        ensures
            t == self@.last_completed,
    {
        self.last_completed
    }

    /// The latest tag granted to the Federate, if any.
    pub fn last_granted(&self) -> (t: Option<WireTag>)
        ensures
            t == self@.last_granted,
    {
        self.last_granted
    }

    /// In-transit tags in increasing order.
    pub fn in_transit(&self) -> (v: Vec<WireTag>)
        requires
            self.wf(),
        ensures
            tags_sorted(v@),
            v@.to_set() == self@.in_transit,
    {
        self.in_transit.to_vec()
    }

    /// Whether a tag is recorded as in transit.
    pub fn has_in_transit(&self, tag: WireTag) -> (b: bool)
        ensures
            b == self@.in_transit.contains(tag),
    {
        self.in_transit.contains(tag)
    }

    /// The next event tag the Federate advertised.
    pub fn advertised_next_event(&self) -> (t: WireTag)
        ensures
            t == advertised(self@),
    {
        match self.lifecycle {
            FederateLifecycle::Running { next_event: NextEvent::Unknown } => WireTag::Never,
            FederateLifecycle::Running { next_event: NextEvent::Finite(tag) } => tag,
            _ => WireTag::Forever,
        }
    }

    /// The tag the Federate requested and was not yet granted, if any.
    pub fn requested_tag(&self) -> (t: Option<WireTag>)
        ensures
            t == requested(self@),
    {
        match self.lifecycle {
            FederateLifecycle::Running { next_event: NextEvent::Finite(tag) } => Some(tag),
            _ => None,
        }
    }

    /// The earliest tag at which the Federate may still act: its advertised next event or an
    /// earlier in-transit message.
    pub fn effective_next_event(&self) -> (t: WireTag)
        requires
            self.wf(),
        ensures
            t == effective(self@),
    {
        let advertised = self.advertised_next_event();
        match self.in_transit.first() {
            None => advertised,
            Some(t) => t.min_tag(advertised),
        }
    }

    /// Records a NET for `tag`.
    pub fn request(&mut self, tag: WireTag)
        requires
            old(self).wf(),
        ensures
            final(self).wf(),
            final(self)@ == spec_request(old(self)@, tag),
    {
        if let FederateLifecycle::Running { .. } = self.lifecycle {
            self.lifecycle = FederateLifecycle::Running {
                next_event: if tag.same(&WireTag::Forever) {
                    NextEvent::NoFuture
                } else {
                    NextEvent::Finite(tag)
                },
            };
        }
    }

    /// Records that the Federate stopped.
    pub fn stop(&mut self)
        requires
            old(self).wf(),
        ensures
            final(self).wf(),
            final(self)@ == spec_stop(old(self)@),
    {
        self.lifecycle = FederateLifecycle::Stopped;
    }

    /// Whether the Federate stopped.
    pub fn is_stopped(&self) -> (b: bool)
        ensures
            b == (self@.lifecycle is Stopped),
    {
        matches!(self.lifecycle, FederateLifecycle::Stopped)
    }

    /// Records a grant.
    pub fn grant(&mut self, tag: WireTag)
        requires
            old(self).wf(),
        ensures
            final(self).wf(),
            final(self)@ == spec_granted(old(self)@, tag),
    {
        self.last_granted = Some(tag);
    }

    /// Records an LTC.
    pub fn complete(&mut self, tag: WireTag)
        requires
            old(self).wf(),
        ensures
            final(self).wf(),
            final(self)@ == spec_complete(old(self)@, tag),
    {
        if self.last_completed.lt(&tag) {
            self.last_completed = tag;
        }
        self.in_transit.retain_after(tag);
    }

    /// Records a delivered message unless completion already covers it.
    pub fn record_message(&mut self, tag: WireTag)
        requires
            old(self).wf(),
        ensures
            final(self).wf(),
            final(self)@ == spec_record_message(old(self)@, tag),
    {
        if self.last_completed.lt(&tag) {
            self.in_transit.insert(tag);
        }
    }
}

/// Law of a Federate's coordination state: the earliest tag it may still act at is at most its
/// advertised tag and at most the least tag delivered to it and not yet completed, and it is one
/// of them.
pub proof fn lemma_effective_is_least(c: CoordView)
    ensures
        crate::protocol::tag_le(effective(c), advertised(c)),
        !c.in_transit.is_empty() ==> crate::protocol::tag_le(effective(c), least(c.in_transit)),
        effective(c) == advertised(c) || (!c.in_transit.is_empty() && effective(c) == least(c.in_transit)),
{
    let a = advertised(c);
    crate::protocol::lemma_tag_order_total(a, a, a);
    if !c.in_transit.is_empty() {
        crate::protocol::lemma_tag_order_total(least(c.in_transit), a, a);
        crate::protocol::lemma_tag_order_total(a, least(c.in_transit), a);
    }
}

} // verus!
