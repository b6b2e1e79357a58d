//! Protocol tags and delays that do not depend on process-local clocks.
use vstd::prelude::*;

use crate::ids::{EndpointId, FederateId};

verus! {

/// A protocol tag independent of process-local clocks and architecture-sized integers.
///
/// Tags are ordered `Never` < every finite tag < `Forever`; finite tags are ordered by offset
/// and then by microstep.
#[derive(Debug, Clone, Copy, PartialEq, Eq, PartialOrd, Ord, Hash, Structural)]
pub enum WireTag {
    Never,
    Finite { offset_ns: i128, microstep: u64 },
    Forever,
}

/// A nonnegative logical delay on a cross-federate edge, represented in nanoseconds.
#[derive(Debug, Clone, Copy, Default, PartialEq, Eq, Ord, Hash, Structural)]
pub struct WireDelay {
    nanos: u64,
}

/// Rank of a tag's kind in the total order.
pub open spec fn kind_rank(t: WireTag) -> int {
    match t {
        WireTag::Never => 0,
        WireTag::Finite { .. } => 1,
        WireTag::Forever => 2,
    }
}

/// `a <= b` in the tag order.
pub open spec fn tag_le(a: WireTag, b: WireTag) -> bool {
    match (a, b) {
        (WireTag::Finite { offset_ns: o1, microstep: m1 }, WireTag::Finite { offset_ns: o2, microstep: m2 }) =>
            o1 < o2 || (o1 == o2 && m1 <= m2),
        _ => kind_rank(a) <= kind_rank(b),
    }
}

/// `a < b` in the tag order.
pub open spec fn tag_lt(a: WireTag, b: WireTag) -> bool {
    tag_le(a, b) && a != b
}

/// The smaller of two tags.
pub open spec fn tag_min(a: WireTag, b: WireTag) -> WireTag {
    if tag_le(a, b) { a } else { b }
}

/// The larger of two tags.
pub open spec fn tag_max(a: WireTag, b: WireTag) -> WireTag {
    if tag_le(a, b) { b } else { a }
}

/// Whether a tag is finite.
pub open spec fn spec_is_finite(t: WireTag) -> bool {
    t is Finite
}

/// The greatest tag strictly before a finite tag; sentinels map to themselves; `None` when the
/// smallest finite offset would have to borrow.
pub open spec fn spec_predecessor(t: WireTag) -> Option<WireTag> {
    match t {
        WireTag::Finite { offset_ns, microstep } =>
            if microstep != 0 {
                Some(WireTag::Finite { offset_ns, microstep: (microstep - 1) as u64 })
            } else if offset_ns == i128::MIN {
                None
            } else {
                Some(WireTag::Finite { offset_ns: (offset_ns - 1) as i128, microstep: u64::MAX })
            },
        _ => Some(t),
    }
}

/// Boomerang's delayed-action rule: a zero delay keeps the tag, a positive delay advances the
/// offset and resets the microstep; sentinels stay; `None` when the offset would overflow.
pub open spec fn spec_delay(t: WireTag, delay_ns: u64) -> Option<WireTag> {
    match t {
        WireTag::Finite { offset_ns, microstep } =>
            if delay_ns == 0 {
                Some(t)
            } else if offset_ns + delay_ns > i128::MAX {
                None
            } else {
                Some(WireTag::Finite { offset_ns: (offset_ns + delay_ns) as i128, microstep: 0 })
            },
        _ => Some(t),
    }
}

/// Reflexivity, antisymmetry, transitivity and totality of the tag order.
pub proof fn lemma_tag_order_total(a: WireTag, b: WireTag, c: WireTag)
    ensures
        tag_le(a, a),
        tag_le(a, b) && tag_le(b, a) ==> a == b,
        tag_le(a, b) && tag_le(b, c) ==> tag_le(a, c),
        tag_le(a, b) || tag_le(b, a),
{
}

/// A delay is its nanoseconds: two delays are equal exactly when their nanoseconds are.
pub proof fn lemma_delay_is_its_nanos(a: WireDelay, b: WireDelay)
    ensures
        a == b <==> a.spec_nanos() == b.spec_nanos(),
{
}

impl WireDelay {
    /// The delay in nanoseconds.
    pub closed spec fn spec_nanos(self) -> u64 {
        self.nanos
    }

    /// The zero delay.
    pub fn zero() -> (d: Self)
        ensures
            d.spec_nanos() == 0,
    {
        Self { nanos: 0 }
    }

    /// A delay of `nanos` nanoseconds.
    pub fn from_nanos(nanos: u64) -> (d: Self)
        ensures
            d.spec_nanos() == nanos,
    {
        Self { nanos }
    }

    /// The delay in nanoseconds.
    pub fn as_nanos(self) -> (n: u64)
        ensures
            n == self.spec_nanos(),
    {
        self.nanos
    }

    /// Whether the delay is zero.
    pub fn is_zero(self) -> (b: bool)
        ensures
            b == (self.spec_nanos() == 0),
    {
        self.nanos == 0
    }
}

impl WireTag {
    /// The tag before every other tag.
    pub const NEVER: WireTag = WireTag::Never;
    /// The tag after every other tag.
    pub const FOREVER: WireTag = WireTag::Forever;

    /// The finite tag at offset zero and microstep zero.
    pub fn zero() -> (t: Self)
        ensures
            t == (WireTag::Finite { offset_ns: 0, microstep: 0 }),
    {
        WireTag::Finite { offset_ns: 0, microstep: 0 }
    }

    /// The finite tag at `offset_ns` nanoseconds and `microstep`.
    pub fn finite(offset_ns: i128, microstep: u64) -> (t: Self)
        ensures
            t == (WireTag::Finite { offset_ns, microstep }),
    {
        WireTag::Finite { offset_ns, microstep }
    }

    /// Whether the tag is finite.
    pub fn is_finite(self) -> (b: bool)
        ensures
            b == spec_is_finite(self),
    {
        matches!(self, WireTag::Finite { .. })
    }

    /// Returns the static kind name: `"never"`, `"finite"`, or `"forever"`.
    pub fn kind_str(self) -> (s: &'static str)
        ensures
            self is Never ==> s@ == "never"@,
            self is Finite ==> s@ == "finite"@,
            self is Forever ==> s@ == "forever"@,
    {
        match self {
            WireTag::Never => "never",
            WireTag::Finite { .. } => "finite",
            WireTag::Forever => "forever",
        }
    }

    /// The offset of a finite tag.
    pub fn offset_ns(self) -> (o: Option<i128>)
        ensures
            o == (match self {
                WireTag::Finite { offset_ns, .. } => Some(offset_ns),
                _ => None::<i128>,
            }),
    {
        match self {
            WireTag::Finite { offset_ns, .. } => Some(offset_ns),
            _ => None,
        }
    }

    /// The microstep of a finite tag.
    pub fn microstep(self) -> (m: Option<u64>)
        ensures
            m == (match self {
                WireTag::Finite { microstep, .. } => Some(microstep),
                _ => None::<u64>,
            }),
    {
        match self {
            WireTag::Finite { microstep, .. } => Some(microstep),
            _ => None,
        }
    }

    /// `self <= other` in the tag order.
    pub fn le(&self, other: &WireTag) -> (b: bool)
        ensures
            b == tag_le(*self, *other),
    {
        match (*self, *other) {
            (WireTag::Finite { offset_ns: o1, microstep: m1 }, WireTag::Finite { offset_ns: o2, microstep: m2 }) =>
                o1 < o2 || (o1 == o2 && m1 <= m2),
            (WireTag::Never, _) => true,
            (_, WireTag::Forever) => true,
            _ => false,
        }
    }

    /// `self < other` in the tag order.
    pub fn lt(&self, other: &WireTag) -> (b: bool)
        ensures
            b == tag_lt(*self, *other),
    {
        !other.le(self)
    }

    /// Tag equality.
    pub fn same(&self, other: &WireTag) -> (b: bool)
        ensures
            b == (*self == *other),
    {
        self.le(other) && other.le(self)
    }

    /// The smaller of two tags.
    pub fn min_tag(self, other: WireTag) -> (t: WireTag)
        ensures
            t == tag_min(self, other),
    {
        if self.le(&other) { self } else { other }
    }

    /// The larger of two tags.
    pub fn max_tag(self, other: WireTag) -> (t: WireTag)
        ensures
            t == tag_max(self, other),
    {
        if self.le(&other) { other } else { self }
    }

    /// Returns the greatest finite wire tag strictly before a finite bound.
    ///
    /// A zero microstep borrows one nanosecond and uses the largest wire microstep.
    /// Sentinels are preserved; the smallest finite offset cannot wrap on subtraction.
    pub fn checked_predecessor(self) -> (r: Option<Self>)
        ensures
            r == spec_predecessor(self),
    {
        match self {
            WireTag::Finite { offset_ns, microstep } => {
                if microstep != 0 {
                    Some(WireTag::Finite { offset_ns, microstep: microstep - 1 })
                } else {
                    match offset_ns.checked_sub(1) {
                        Some(offset) => Some(WireTag::Finite { offset_ns: offset, microstep: u64::MAX }),
                        None => None,
                    }
                }
            },
            _ => Some(self),
        }
    }

    /// Apply a logical connection delay using Boomerang's delayed-action tag rule.
    ///
    /// A zero delay preserves the source tag. A positive delay advances the offset and resets the
    /// microstep to zero. Sentinel tags remain sentinels.
    pub fn checked_delay(self, delay: WireDelay) -> (r: Option<Self>)
        ensures
            r == spec_delay(self, delay.spec_nanos()),
    {
        match self {
            WireTag::Finite { offset_ns, microstep } => {
                if delay.is_zero() {
                    Some(self)
                } else {
                    match offset_ns.checked_add(delay.as_nanos() as i128) {
                        Some(offset) => Some(WireTag::Finite { offset_ns: offset, microstep: 0 }),
                        None => None,
                    }
                }
            },
            _ => Some(self),
        }
    }
}

} // verus!

verus! {

/// A message a Federate sends to the RTI.
#[derive(Debug, Clone, PartialEq, Eq)]
pub enum FederateToRti {
    Hello { federate_id: FederateId },
    Net { federate_id: FederateId, tag: WireTag },
    Ltc { federate_id: FederateId, tag: WireTag },
    Msg { source: FederateId, target: FederateId, endpoint: EndpointId, tag: WireTag, payload: Vec<u8> },
    Stop { federate_id: FederateId },
}

/// A message the RTI sends to a Federate.
#[derive(Debug, Clone, PartialEq, Eq)]
pub enum RtiToFederate {
    /// Every Federate said Hello: logical time starts at this physical instant.
    Start { start_unix_epoch_ns: i128 },
    /// Time advance grant.
    Tag { tag: WireTag },
    /// A tagged payload forwarded from another Federate.
    Msg { source: FederateId, endpoint: EndpointId, tag: WireTag, payload: Vec<u8> },
    /// Every Federate stopped: the session is over.
    Stop,
    /// The RTI refused a frame of this Federate.
    Error { message: String },
}

/// Mathematical view of a Federate-to-RTI message.
pub enum FederateToRtiView {
    Hello { federate_id: Seq<char> },
    Net { federate_id: Seq<char>, tag: WireTag },
    Ltc { federate_id: Seq<char>, tag: WireTag },
    Msg { source: Seq<char>, target: Seq<char>, endpoint: Seq<char>, tag: WireTag, payload: Seq<u8> },
    Stop { federate_id: Seq<char> },
}

/// Mathematical view of an RTI-to-Federate message.
pub enum RtiToFederateView {
    Start { start_unix_epoch_ns: i128 },
    Tag { tag: WireTag },
    Msg { source: Seq<char>, endpoint: Seq<char>, tag: WireTag, payload: Seq<u8> },
    Stop,
    Error { message: Seq<char> },
}

impl View for FederateToRti {
    type V = FederateToRtiView;

    open spec fn view(&self) -> FederateToRtiView {
        match self {
            FederateToRti::Hello { federate_id } => FederateToRtiView::Hello { federate_id: federate_id@ },
            FederateToRti::Net { federate_id, tag } => FederateToRtiView::Net { federate_id: federate_id@, tag: *tag },
            FederateToRti::Ltc { federate_id, tag } => FederateToRtiView::Ltc { federate_id: federate_id@, tag: *tag },
            FederateToRti::Msg { source, target, endpoint, tag, payload } => FederateToRtiView::Msg {
                source: source@,
                target: target@,
                endpoint: endpoint@,
                tag: *tag,
                payload: payload@,
            },
            FederateToRti::Stop { federate_id } => FederateToRtiView::Stop { federate_id: federate_id@ },
        }
    }
}

impl View for RtiToFederate {
    type V = RtiToFederateView;

    open spec fn view(&self) -> RtiToFederateView {
        match self {
            RtiToFederate::Start { start_unix_epoch_ns } => RtiToFederateView::Start {
                start_unix_epoch_ns: *start_unix_epoch_ns,
            },
            RtiToFederate::Stop => RtiToFederateView::Stop,
            RtiToFederate::Error { message } => RtiToFederateView::Error { message: message@ },
            RtiToFederate::Tag { tag } => RtiToFederateView::Tag { tag: *tag },
            RtiToFederate::Msg { source, endpoint, tag, payload } => RtiToFederateView::Msg {
                source: source@,
                endpoint: endpoint@,
                tag: *tag,
                payload: payload@,
            },
        }
    }
}

} // verus!
