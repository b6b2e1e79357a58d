//! Deterministic coordination conformance support.
//!
//! A Federate publishes its next event tag (NET), reports completion (LTC), and submits tagged
//! payloads on compiled routes. The RTI may optimize when it sends grants or suppresses reports,
//! but it must never permit an outcome that changes the federation's logical-time semantics.
//!
//! [`Topology`] and [`VectorStep`] describe a compiled coordination scenario with dense typed
//! keys; [`oracle::ReferenceCoordinator`] applies the scenario and emits its permitted
//! [`Outcome`]s. [`faults::OrderedFaultScheduler`] drives vector steps through virtual
//! reliable-ordered lanes, and [`faults::FaultScript`] injects deterministic loss, duplication,
//! delay, corruption and explicit failure reports. A fault may be recovered before delivery or
//! become the first terminal [`Failure`], but it cannot expose a later frame before an earlier
//! frame on the same lane.
use vstd::prelude::*;

pub mod faults;
pub mod laws;
pub mod oracle;

pub use faults::{
    FaultEffect, FaultScript, FaultScriptError, OrderedFaultScheduler, ScheduledOutcome,
};
pub use oracle::ReferenceCoordinator;

use crate::protocol::WireTag;

verus! {

/// Identifies one member in a dense, trace-local topology table.
#[derive(Debug, Clone, Copy, PartialEq, Eq, PartialOrd, Ord, Hash, Structural)]
pub struct Member {
    pub index: usize,
}

/// Identifies one route in a dense, trace-local topology table.
#[derive(Debug, Clone, Copy, PartialEq, Eq, PartialOrd, Ord, Hash, Structural)]
pub struct Route {
    pub index: usize,
}

/// Identifies one dense FIFO delivery lane in a portable fault trace.
#[derive(Debug, Clone, Copy, PartialEq, Eq, PartialOrd, Ord, Hash, Structural)]
pub struct Lane {
    pub index: usize,
}

impl Member {
    /// The member at table position `index`.
    pub fn new(index: usize) -> (m: Self)
        ensures
            m.index == index,
    {
        Member { index }
    }

    /// Table position of this member.
    pub fn index(self) -> (i: usize)
        ensures
            i == self.index,
    {
        self.index
    }
}

impl Route {
    /// The route at table position `index`.
    pub fn new(index: usize) -> (r: Self)
        ensures
            r.index == index,
    {
        Route { index }
    }

    /// Table position of this route.
    pub fn index(self) -> (i: usize)
        ensures
            i == self.index,
    {
        self.index
    }
}

impl Lane {
    /// The lane at table position `index`.
    pub fn new(index: usize) -> (l: Self)
        ensures
            l.index == index,
    {
        Lane { index }
    }

    /// Table position of this lane.
    pub fn index(self) -> (i: usize)
        ensures
            i == self.index,
    {
        self.index
    }
}

/// One directed portable route between two members.
#[derive(Debug, Clone, Copy, PartialEq, Eq, Structural)]
pub struct RouteTopology {
    /// Member that may submit payloads on this route.
    pub source: Member,
    /// Member that receives payloads submitted on this route.
    pub target: Member,
}

impl RouteTopology {
    /// Creates a directed route without deriving any compiled routing decision.
    pub fn new(source: Member, target: Member) -> (r: Self)
        ensures
            r.source == source,
            r.target == target,
    {
        RouteTopology { source, target }
    }
}

/// Construction failed because a supplied topology key was not its dense table position.
#[derive(Debug, Clone, Copy, PartialEq, Eq, Structural)]
pub enum ConstructionError {
    /// A lane key did not match the next dense lane key.
    LaneKey { lane: Lane },
    /// A member key did not match the next dense member key.
    MemberKey { member: Member },
    /// A route key did not match the next dense route key.
    RouteKey { route: Route },
    /// The route key domain cannot represent another route-table entry.
    RouteCapacity,
    /// A route endpoint was absent from the fixed member table.
    RouteEndpoint { route: Route, member: Member },
}

/// Whether the `n` keys of a table are its positions `0..n`.
pub open spec fn dense_routes(routes: Seq<(Route, RouteTopology)>) -> bool {
    forall|i: int| 0 <= i < routes.len() ==> (#[trigger] routes[i]).0.index == i
}

/// Whether `i` is the first position whose route key differs from the position.
pub open spec fn first_route_mismatch(routes: Seq<(Route, RouteTopology)>, i: int) -> bool {
    &&& 0 <= i < routes.len()
    &&& routes[i].0.index != i
    &&& forall|j: int| 0 <= j < i ==> (#[trigger] routes[j]).0.index == j
}

/// Immutable, dense topology used by a conformance trace: route `i` is `routes()[i]`.
#[derive(Debug, Clone, PartialEq, Eq)]
pub struct Topology {
    routes: Vec<RouteTopology>,
}

impl Topology {
    /// The routes, indexed by route key.
    pub closed spec fn spec_routes(&self) -> Seq<RouteTopology> {
        self.routes@
    }

    /// Builds a dense route table; each supplied key must be its table position.
    pub fn new(routes: Vec<(Route, RouteTopology)>) -> (r: Result<Self, ConstructionError>)
        ensures
            r is Ok <==> dense_routes(routes@),
            r is Ok ==> r->Ok_0.spec_routes() == routes@.map_values(
                |e: (Route, RouteTopology)| e.1,
            ),
            r is Err ==> exists|i: int|
                first_route_mismatch(routes@, i) && r->Err_0 == (ConstructionError::RouteKey {
                    route: #[trigger] routes@[i].0,
                }),
    {
        let mut table: Vec<RouteTopology> = Vec::new();
        let mut i: usize = 0;
        while i < routes.len()
            invariant
                i <= routes@.len(),
                forall|j: int| 0 <= j < i ==> (#[trigger] routes@[j]).0.index == j,
                table@ == routes@.subrange(0, i as int).map_values(|e: (Route, RouteTopology)| e.1),
            decreases routes@.len() - i,
        {
            let (route, topology) = routes[i];
            if route.index != i {
                assert(first_route_mismatch(routes@, i as int));
                return Err(ConstructionError::RouteKey { route });
            }
            table.push(topology);
            assert(table@ =~= routes@.subrange(0, i + 1).map_values(
                |e: (Route, RouteTopology)| e.1,
            ));
            i = i + 1;
        }
        assert(routes@.subrange(0, routes@.len() as int) =~= routes@);
        Ok(Topology { routes: table })
    }

    /// The number of routes.
    pub fn len(&self) -> (n: usize)
        ensures
            n == self.spec_routes().len(),
    {
        self.routes.len()
    }

    /// The route with key `route`, if the table has it.
    pub fn get(&self, route: Route) -> (r: Option<RouteTopology>)
        ensures
            route.index < self.spec_routes().len() ==> r == Some(self.spec_routes()[route.index as int]),
            route.index >= self.spec_routes().len() ==> r is None,
    {
        if route.index < self.routes.len() {
            Some(self.routes[route.index])
        } else {
            None
        }
    }
}

/// One input event in a portable coordination vector.
#[derive(Debug, Clone, Copy, PartialEq, Eq, Structural)]
pub enum VectorStep {
    /// Publishes a reversible Next Event Tag (`None` for local idle) for one member revision.
    Publish { member: Member, revision: u64, next_event: Option<WireTag> },
    /// Declares completion through the supplied local tag.
    Complete { member: Member, tag: WireTag },
    /// Submits a route payload at its already-derived destination tag.
    Payload { member: Member, route: Route, tag: WireTag },
    /// Commits the member's terminal lifecycle transition.
    Stop { member: Member },
}

impl VectorStep {
    /// Creates a NET publication step.
    pub fn publish(member: Member, revision: u64, next_event: Option<WireTag>) -> (s: Self)
        ensures
            s == (VectorStep::Publish { member, revision, next_event }),
    {
        VectorStep::Publish { member, revision, next_event }
    }

    /// Creates an LTC completion step.
    pub fn complete(member: Member, tag: WireTag) -> (s: Self)
        ensures
            s == (VectorStep::Complete { member, tag }),
    {
        VectorStep::Complete { member, tag }
    }

    /// Creates a payload submission step.
    pub fn payload(member: Member, route: Route, tag: WireTag) -> (s: Self)
        ensures
            s == (VectorStep::Payload { member, route, tag }),
    {
        VectorStep::Payload { member, route, tag }
    }
}

/// A semantic violation retained by the coordinator.
#[derive(Debug, Clone, Copy, PartialEq, Eq, Structural)]
pub enum Failure {
    /// The step addressed a member outside the fixed topology.
    UnknownMember,
    /// The step addressed a route outside the fixed topology.
    UnknownRoute,
    /// A payload was submitted by a member other than its route source.
    RouteSource,
    /// A step used a sentinel or negative tag where an event tag is required.
    InvalidTag,
    /// A publication regressed its revision or changed a known revision.
    Publication,
    /// A completion regressed the member's completed frontier.
    Completion,
    /// A payload would exceed the destination's fixed in-transit tag budget.
    InTransitCapacity,
    /// A stopped member attempted another active lifecycle step.
    Stopped,
    /// A scripted lost lower-layer frame could not be delivered reliably.
    Lost,
    /// A scripted corrupted lower-layer frame entered a terminal failure state.
    Corrupted,
    /// A submitted frame addressed a lane outside the fixed lane table.
    UnknownLane,
    /// A submission or advance attempted to move the scheduler clock backwards.
    TickRegression,
    /// The generated ordinal could not represent another submitted frame.
    OrdinalExhausted,
    /// Delaying a frame would exceed the representable scheduler tick range.
    DelayOverflow,
}

/// Observable result emitted by the reference coordinator in causal order.
#[derive(Debug, Clone, Copy, PartialEq, Eq, Structural)]
pub enum Outcome {
    /// Delivers a payload before any consequent grant is emitted.
    Payload { member: Member, route: Route, tag: WireTag },
    /// Conservatively authorizes one member through an inclusive tag, answering a revision.
    Grant { member: Member, revision: u64, tag: WireTag },
    /// A member entered its terminal lifecycle state.
    Stopped { member: Member },
    /// Reports the first retained semantic failure, seen by `member`'s step.
    Failed { member: Member, failure: Failure },
}

impl Outcome {
    /// Creates a literal payload delivery expectation.
    pub fn payload(member: Member, route: Route, tag: WireTag) -> (o: Self)
        ensures
            o == (Outcome::Payload { member, route, tag }),
    {
        Outcome::Payload { member, route, tag }
    }

    /// Creates a literal grant expectation.
    pub fn grant(member: Member, revision: u64, tag: WireTag) -> (o: Self)
        ensures
            o == (Outcome::Grant { member, revision, tag }),
    {
        Outcome::Grant { member, revision, tag }
    }
}

} // verus!
