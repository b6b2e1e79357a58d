//! Deterministic lower-layer faults over reliable-ordered lanes.
use vstd::prelude::*;

use super::{ConstructionError, Failure, Lane, VectorStep};

verus! {

/// A deterministic lower-layer event selected by submission ordinal and logical tick.
#[derive(Debug, Clone, Copy, PartialEq, Eq, Structural)]
pub enum FaultEffect {
    /// Declares an unrecoverable loss for the selected frame.
    Drop { ordinal: u64, tick: u64 },
    /// Duplicates the selected lower-layer frame, which the ordered lane deduplicates.
    Duplicate { ordinal: u64, tick: u64 },
    /// Holds the selected lower-layer frame for a finite number of logical ticks.
    Delay { ordinal: u64, tick: u64, ticks: u64 },
    /// Declares the selected lower-layer frame corrupted.
    Corrupt { ordinal: u64, tick: u64 },
    /// Injects an explicit terminal failure report for the selected frame.
    Fail { ordinal: u64, tick: u64, failure: Failure },
}

/// The `(ordinal, tick)` position an effect selects.
pub open spec fn effect_key(e: FaultEffect) -> (u64, u64) {
    match e {
        FaultEffect::Drop { ordinal, tick } => (ordinal, tick),
        FaultEffect::Duplicate { ordinal, tick } => (ordinal, tick),
        FaultEffect::Delay { ordinal, tick, .. } => (ordinal, tick),
        FaultEffect::Corrupt { ordinal, tick } => (ordinal, tick),
        FaultEffect::Fail { ordinal, tick, .. } => (ordinal, tick),
    }
}

/// Lexicographic order of script positions.
pub open spec fn key_lt(a: (u64, u64), b: (u64, u64)) -> bool {
    a.0 < b.0 || (a.0 == b.0 && a.1 < b.1)
}

/// Whether an effect is a delay of zero ticks.
pub open spec fn zero_delay(e: FaultEffect) -> bool {
    match e {
        FaultEffect::Delay { ticks, .. } => ticks == 0,
        _ => false,
    }
}

/// A valid script: no zero delay, positions strictly increasing.
pub open spec fn script_wf(effects: Seq<FaultEffect>) -> bool {
    &&& forall|i: int| 0 <= i < effects.len() ==> !zero_delay(#[trigger] effects[i])
    &&& forall|i: int, j: int|
        0 <= i < j < effects.len() ==> key_lt(effect_key(effects[i]), effect_key(effects[j]))
}

/// Whether effect `i` is the first zero delay.
pub open spec fn first_zero_delay(effects: Seq<FaultEffect>, i: int) -> bool {
    &&& 0 <= i < effects.len()
    &&& zero_delay(effects[i])
    &&& forall|j: int| 0 <= j < i ==> !zero_delay(#[trigger] effects[j])
}

/// Whether effect `i` is the first whose position does not follow its predecessor's.
pub open spec fn first_disorder(effects: Seq<FaultEffect>, i: int) -> bool {
    &&& 1 <= i < effects.len()
    &&& !key_lt(effect_key(effects[i - 1]), effect_key(effects[i]))
    &&& forall|j: int|
        1 <= j < i ==> key_lt(effect_key(#[trigger] effects[j - 1]), effect_key(effects[j]))
}

/// The first effect selecting position `key` among the first `n` effects.
pub open spec fn effect_upto(effects: Seq<FaultEffect>, key: (u64, u64), n: int) -> Option<FaultEffect>
    decreases n,
{
    if n <= 0 {
        None
    } else {
        match effect_upto(effects, key, n - 1) {
            Some(e) => Some(e),
            None => if effect_key(effects[n - 1]) == key {
                Some(effects[n - 1])
            } else {
                None
            },
        }
    }
}

/// A fault script was ambiguous or non-deterministically ordered.
#[derive(Debug, Clone, Copy, PartialEq, Eq)]
pub enum FaultScriptError {
    /// A delay effect used zero ticks, which is excluded from fault injection.
    ZeroDelay { ordinal: u64, tick: u64 },
    /// Two effects selected the same submission ordinal and logical tick.
    Duplicate { ordinal: u64, tick: u64 },
    /// An effect appeared before a lower ordinal/tick script position.
    Order { previous: (u64, u64), current: (u64, u64) },
}

/// The error a script with disorder at `i` is refused with.
pub open spec fn disorder_error(effects: Seq<FaultEffect>, i: int) -> FaultScriptError {
    let previous = effect_key(effects[i - 1]);
    let current = effect_key(effects[i]);
    if current == previous {
        FaultScriptError::Duplicate { ordinal: current.0, tick: current.1 }
    } else {
        FaultScriptError::Order { previous, current }
    }
}

impl FaultEffect {
    /// Scripts loss for one submission ordinal at one logical tick.
    pub fn drop(ordinal: u64, tick: u64) -> (e: Self)
        ensures
            e == (FaultEffect::Drop { ordinal, tick }),
    {
        FaultEffect::Drop { ordinal, tick }
    }

    /// Scripts a lower-layer duplicate that must not surface to the application lane.
    pub fn duplicate(ordinal: u64, tick: u64) -> (e: Self)
        ensures
            e == (FaultEffect::Duplicate { ordinal, tick }),
    {
        FaultEffect::Duplicate { ordinal, tick }
    }

    /// Scripts a finite delay for one submission ordinal at one logical tick.
    pub fn delay(ordinal: u64, tick: u64, ticks: u64) -> (e: Self)
        ensures
            e == (FaultEffect::Delay { ordinal, tick, ticks }),
    {
        FaultEffect::Delay { ordinal, tick, ticks }
    }

    /// Scripts corruption for one submission ordinal at one logical tick.
    pub fn corrupt(ordinal: u64, tick: u64) -> (e: Self)
        ensures
            e == (FaultEffect::Corrupt { ordinal, tick }),
    {
        FaultEffect::Corrupt { ordinal, tick }
    }

    /// Scripts an explicit retained failure report for one submission ordinal and tick.
    pub fn fail(ordinal: u64, tick: u64, failure: Failure) -> (e: Self)
        ensures
            e == (FaultEffect::Fail { ordinal, tick, failure }),
    {
        FaultEffect::Fail { ordinal, tick, failure }
    }

    /// The `(ordinal, tick)` position this effect selects.
    pub fn key(self) -> (k: (u64, u64))
        ensures
            k == effect_key(self),
    {
        match self {
            FaultEffect::Drop { ordinal, tick } => (ordinal, tick),
            FaultEffect::Duplicate { ordinal, tick } => (ordinal, tick),
            FaultEffect::Delay { ordinal, tick, .. } => (ordinal, tick),
            FaultEffect::Corrupt { ordinal, tick } => (ordinal, tick),
            FaultEffect::Fail { ordinal, tick, .. } => (ordinal, tick),
        }
    }
}

fn key_before(a: (u64, u64), b: (u64, u64)) -> (r: bool)
    ensures
        r == key_lt(a, b),
{
    a.0 < b.0 || (a.0 == b.0 && a.1 < b.1)
}

/// A validated deterministic sequence of lower-layer fault effects.
#[derive(Debug, Clone, PartialEq, Eq)]
pub struct FaultScript {
    effects: Vec<FaultEffect>,
}

impl FaultScript {
    /// The effects in script order.
    pub closed spec fn spec_effects(&self) -> Seq<FaultEffect> {
        self.effects@
    }

    /// Builds a script ordered strictly by `(submission ordinal, logical tick)`, refusing the
    /// first zero delay, then the first position that repeats or precedes its predecessor.
    pub fn new(effects: Vec<FaultEffect>) -> (r: Result<Self, FaultScriptError>)
        ensures
            r is Ok <==> script_wf(effects@),
            r is Ok ==> r->Ok_0.spec_effects() == effects@,
            (exists|i: int| first_zero_delay(effects@, i)) ==> exists|i: int|
                first_zero_delay(effects@, i) && r == Err::<Self, FaultScriptError>(
                    FaultScriptError::ZeroDelay {
                        ordinal: effect_key(#[trigger] effects@[i]).0,
                        tick: effect_key(effects@[i]).1,
                    },
                ),
            (forall|i: int| 0 <= i < effects@.len() ==> !zero_delay(#[trigger] effects@[i])) ==> (
            forall|i: int| first_disorder(effects@, i) ==> r == Err::<Self, FaultScriptError>(
                disorder_error(effects@, i),
            )),
    {
        let mut i: usize = 0;
        while i < effects.len()
            invariant
                i <= effects@.len(),
                forall|j: int| 0 <= j < i ==> !zero_delay(#[trigger] effects@[j]),
            decreases effects@.len() - i,
        {
            match effects[i] {
                FaultEffect::Delay { ordinal, tick, ticks } => {
                    if ticks == 0 {
                        proof {
                            assert(first_zero_delay(effects@, i as int));
                            assert forall|k: int| first_zero_delay(effects@, k) implies k == i by {
                                if k < i {
                                    assert(!zero_delay(effects@[k]));
                                } else if k > i {
                                    assert(!zero_delay(effects@[i as int]));
                                }
                            }
                        }
                        return Err(FaultScriptError::ZeroDelay { ordinal, tick });
                    }
                },
                _ => {},
            }
            i = i + 1;
        }
        let mut k: usize = 1;
        while k < effects.len()
            invariant
                1 <= k,
                forall|j: int| 0 <= j < effects@.len() ==> !zero_delay(#[trigger] effects@[j]),
                forall|j: int|
                    1 <= j < k && j < effects@.len() ==> key_lt(
                        effect_key(#[trigger] effects@[j - 1]),
                        effect_key(effects@[j]),
                    ),
            decreases effects@.len() - k,
        {
            let previous = effects[k - 1].key();
            let current = effects[k].key();
            if current.0 == previous.0 && current.1 == previous.1 {
                proof {
                    assert(first_disorder(effects@, k as int));
                    lemma_first_disorder_unique(effects@, k as int);
                }
                return Err(FaultScriptError::Duplicate { ordinal: current.0, tick: current.1 });
            }
            if key_before(current, previous) {
                proof {
                    assert(first_disorder(effects@, k as int));
                    lemma_first_disorder_unique(effects@, k as int);
                }
                return Err(FaultScriptError::Order { previous, current });
            }
            k = k + 1;
        }
        proof {
            lemma_adjacent_sorted(effects@);
        }
        Ok(FaultScript { effects })
    }

    /// The effect scripted for `(ordinal, tick)`, if any.
    pub fn effect(&self, ordinal: u64, tick: u64) -> (r: Option<FaultEffect>)
        ensures
            r == effect_upto(self.spec_effects(), (ordinal, tick), self.spec_effects().len() as int),
    {
        let mut i: usize = 0;
        while i < self.effects.len()
            invariant
                i <= self.effects@.len(),
                effect_upto(self.effects@, (ordinal, tick), i as int) is None,
            decreases self.effects@.len() - i,
        {
            let e = self.effects[i];
            let key = e.key();
            if key.0 == ordinal && key.1 == tick {
                proof {
                    lemma_effect_found(self.effects@, (ordinal, tick), i as int);
                }
                return Some(e);
            }
            i = i + 1;
        }
        None
    }
}

proof fn lemma_effect_found(effects: Seq<FaultEffect>, key: (u64, u64), i: int)
    requires
        0 <= i < effects.len(),
        effect_upto(effects, key, i) is None,
        effect_key(effects[i]) == key,
    ensures
        forall|n: int| i < n <= effects.len() ==> effect_upto(effects, key, n) == Some(effects[i]),
{
    assert forall|n: int| i < n <= effects.len() implies effect_upto(effects, key, n) == Some(
        effects[i],
    ) by {
        lemma_effect_found_at(effects, key, i, n);
    }
}

proof fn lemma_effect_found_at(effects: Seq<FaultEffect>, key: (u64, u64), i: int, n: int)
    requires
        0 <= i < n <= effects.len(),
        effect_upto(effects, key, i) is None,
        effect_key(effects[i]) == key,
    ensures
        effect_upto(effects, key, n) == Some(effects[i]),
    decreases n,
{
    if n > i + 1 {
        lemma_effect_found_at(effects, key, i, n - 1);
    }
}

proof fn lemma_first_disorder_unique(effects: Seq<FaultEffect>, k: int)
    requires
        first_disorder(effects, k),
    ensures
        forall|i: int| first_disorder(effects, i) ==> i == k,
{
    assert forall|i: int| first_disorder(effects, i) implies i == k by {
        if i < k {
            assert(key_lt(effect_key(effects[i - 1]), effect_key(effects[i])));
        } else if i > k {
            assert(key_lt(effect_key(effects[k - 1]), effect_key(effects[k])));
        }
    }
}

proof fn lemma_adjacent_sorted(effects: Seq<FaultEffect>)
    requires
        forall|j: int|
            1 <= j < effects.len() ==> key_lt(effect_key(#[trigger] effects[j - 1]), effect_key(effects[j])),
    ensures
        forall|i: int, j: int|
            0 <= i < j < effects.len() ==> key_lt(effect_key(effects[i]), effect_key(effects[j])),
{
    assert forall|i: int, j: int| 0 <= i < j < effects.len() implies key_lt(
        effect_key(effects[i]),
        effect_key(effects[j]),
    ) by {
        lemma_adjacent_sorted_from(effects, i, j);
    }
}

proof fn lemma_adjacent_sorted_from(effects: Seq<FaultEffect>, i: int, j: int)
    requires
        forall|m: int|
            1 <= m < effects.len() ==> key_lt(effect_key(#[trigger] effects[m - 1]), effect_key(effects[m])),
        0 <= i < j < effects.len(),
    ensures
        key_lt(effect_key(effects[i]), effect_key(effects[j])),
    decreases j - i,
{
    assert(key_lt(effect_key(effects[j - 1]), effect_key(effects[j])));
    if j - 1 > i {
        lemma_adjacent_sorted_from(effects, i, j - 1);
    }
}

/// An observable ordered-lane delivery or retained scheduler failure.
#[derive(Debug, Clone, Copy, PartialEq, Eq, Structural)]
pub enum ScheduledOutcome {
    /// One vector step was delivered once to its lane's application boundary.
    Delivered { lane: Lane, step: VectorStep },
    /// The first scheduler failure was retained and reported.
    Failed { failure: Failure },
}

impl ScheduledOutcome {
    /// Creates a literal expected delivery.
    pub fn delivered(lane: Lane, step: VectorStep) -> (o: Self)
        ensures
            o == (ScheduledOutcome::Delivered { lane, step }),
    {
        ScheduledOutcome::Delivered { lane, step }
    }

    /// Creates a literal expected retained failure.
    pub fn failed(failure: Failure) -> (o: Self)
        ensures
            o == (ScheduledOutcome::Failed { failure }),
    {
        ScheduledOutcome::Failed { failure }
    }
}

/// A frame held on a lane until its release tick.
#[derive(Debug, Clone, Copy, PartialEq, Eq, Structural)]
pub struct PendingFrame {
    pub release_tick: u64,
    pub step: VectorStep,
}

/// Mathematical view of the scheduler: `lanes[i]` holds lane `i`'s frames in FIFO order.
pub struct SchedulerView {
    pub lanes: Seq<Seq<PendingFrame>>,
    pub script: Seq<FaultEffect>,
    pub tick: u64,
    pub next_ordinal: u64,
    pub failure: Option<Failure>,
}

/// Whether the first `k` frames of `q`, and no more, are due at `tick`.
pub open spec fn is_ready_count(q: Seq<PendingFrame>, tick: u64, k: int) -> bool {
    &&& 0 <= k <= q.len()
    &&& forall|j: int| 0 <= j < k ==> (#[trigger] q[j]).release_tick <= tick
    &&& k == q.len() || q[k].release_tick > tick
}

/// The length of the longest prefix of `q` due at `tick`.
pub open spec fn ready_count(q: Seq<PendingFrame>, tick: u64) -> int {
    choose|k: int| is_ready_count(q, tick, k)
}

/// Deliveries of the first `k` frames of lane `lane`.
pub open spec fn lane_deliveries(lane: int, q: Seq<PendingFrame>, k: int) -> Seq<ScheduledOutcome> {
    Seq::new(
        k as nat,
        |j: int| ScheduledOutcome::Delivered { lane: Lane { index: lane as usize }, step: q[j].step },
    )
}

/// Deliveries of the due prefixes of the first `n` lanes, lane by lane.
pub open spec fn deliveries_upto(lanes: Seq<Seq<PendingFrame>>, tick: u64, n: int) -> Seq<ScheduledOutcome>
    decreases n,
{
    if n <= 0 {
        Seq::empty()
    } else {
        deliveries_upto(lanes, tick, n - 1) + lane_deliveries(
            n - 1,
            lanes[n - 1],
            ready_count(lanes[n - 1], tick),
        )
    }
}

/// Every lane without its due prefix.
pub open spec fn released_lanes(lanes: Seq<Seq<PendingFrame>>, tick: u64) -> Seq<Seq<PendingFrame>> {
    Seq::new(lanes.len(), |i: int| lanes[i].skip(ready_count(lanes[i], tick)))
}

/// Retain `failure` unless a failure is already retained, and report the retained one.
pub open spec fn scheduler_fail(s: SchedulerView, failure: Failure) -> (SchedulerView, Seq<ScheduledOutcome>) {
    let kept = match s.failure {
        Some(f) => f,
        None => failure,
    };
    (SchedulerView { failure: Some(kept), ..s }, seq![ScheduledOutcome::Failed { failure: kept }])
}

/// Advancing logical time releases only the due FIFO prefix of each lane.
pub open spec fn spec_advance(s: SchedulerView, tick: u64) -> (SchedulerView, Seq<ScheduledOutcome>) {
    match s.failure {
        Some(f) => (s, seq![ScheduledOutcome::Failed { failure: f }]),
        None => if tick < s.tick {
            scheduler_fail(s, Failure::TickRegression)
        } else {
            (
                SchedulerView { tick, lanes: released_lanes(s.lanes, tick), ..s },
                deliveries_upto(s.lanes, tick, s.lanes.len() as int),
            )
        },
    }
}

/// Appends a frame to lane `i`.
pub open spec fn enqueue(s: SchedulerView, i: int, frame: PendingFrame) -> SchedulerView {
    SchedulerView { lanes: s.lanes.update(i, s.lanes[i].push(frame)), ..s }
}

/// Submitting a frame applies the effect scripted for its ordinal and tick, if any.
pub open spec fn spec_submit(s: SchedulerView, tick: u64, lane: Lane, step: VectorStep) -> (
    SchedulerView,
    Seq<ScheduledOutcome>,
) {
    match s.failure {
        Some(f) => (s, seq![ScheduledOutcome::Failed { failure: f }]),
        None => if tick < s.tick {
            scheduler_fail(s, Failure::TickRegression)
        } else {
            let s1 = SchedulerView { tick, ..s };
            if lane.index >= s.lanes.len() {
                scheduler_fail(s1, Failure::UnknownLane)
            } else if s.next_ordinal == u64::MAX {
                scheduler_fail(s1, Failure::OrdinalExhausted)
            } else {
                let ordinal = s.next_ordinal;
                let s2 = SchedulerView { next_ordinal: (ordinal + 1) as u64, ..s1 };
                match effect_upto(s.script, (ordinal, tick), s.script.len() as int) {
                    Some(FaultEffect::Drop { .. }) => scheduler_fail(s2, Failure::Lost),
                    Some(FaultEffect::Corrupt { .. }) => scheduler_fail(s2, Failure::Corrupted),
                    Some(FaultEffect::Fail { failure, .. }) => scheduler_fail(s2, failure),
                    Some(FaultEffect::Delay { ticks, .. }) => if tick + ticks > u64::MAX {
                        scheduler_fail(s2, Failure::DelayOverflow)
                    } else {
                        spec_advance(
                            enqueue(
                                s2,
                                lane.index as int,
                                PendingFrame { release_tick: (tick + ticks) as u64, step },
                            ),
                            tick,
                        )
                    },
                    _ => spec_advance(
                        enqueue(s2, lane.index as int, PendingFrame { release_tick: tick, step }),
                        tick,
                    ),
                }
            }
        },
    }
}

/// Whether the `n` lane keys are the positions `0..n`.
pub open spec fn dense_lanes(lanes: Seq<Lane>) -> bool {
    forall|i: int| 0 <= i < lanes.len() ==> (#[trigger] lanes[i]).index == i
}

/// Whether `i` is the first position whose lane key differs from the position.
pub open spec fn first_lane_mismatch(lanes: Seq<Lane>, i: int) -> bool {
    &&& 0 <= i < lanes.len()
    &&& lanes[i].index != i
    &&& forall|j: int| 0 <= j < i ==> (#[trigger] lanes[j]).index == j
}

proof fn lemma_ready_count(q: Seq<PendingFrame>, tick: u64, k: int)
    requires
        is_ready_count(q, tick, k),
    ensures
        ready_count(q, tick) == k,
{
    let c = ready_count(q, tick);
    assert(is_ready_count(q, tick, c));
    if c < k {
        assert(q[c].release_tick <= tick);
    } else if c > k {
        assert(q[k].release_tick <= tick);
    }
}

/// Deterministically applies a fault script while preserving each dense lane's FIFO boundary.
#[derive(Debug, Clone)]
pub struct OrderedFaultScheduler {
    lanes: Vec<Vec<PendingFrame>>,
    script: FaultScript,
    tick: u64,
    next_ordinal: u64,
    failure: Option<Failure>,
}

impl View for OrderedFaultScheduler {
    type V = SchedulerView;

    closed spec fn view(&self) -> SchedulerView {
        SchedulerView {
            lanes: self.lanes@.map_values(|q: Vec<PendingFrame>| q@),
            script: self.script.spec_effects(),
            tick: self.tick,
            next_ordinal: self.next_ordinal,
            failure: self.failure,
        }
    }
}

impl OrderedFaultScheduler {
    /// Creates a scheduler over a fixed dense lane table: every lane empty, at tick zero.
    pub fn new(lanes: Vec<Lane>, script: FaultScript) -> (r: Result<Self, ConstructionError>)
        ensures
            r is Ok <==> dense_lanes(lanes@),
            r is Ok ==> r->Ok_0@ == (SchedulerView {
                lanes: Seq::new(lanes@.len(), |i: int| Seq::<PendingFrame>::empty()),
                script: script.spec_effects(),
                tick: 0,
                next_ordinal: 0,
                failure: None,
            }),
            r is Err ==> exists|i: int|
                first_lane_mismatch(lanes@, i) && r->Err_0 == (ConstructionError::LaneKey {
                    lane: #[trigger] lanes@[i],
                }),
    {
        let mut states: Vec<Vec<PendingFrame>> = Vec::new();
        let mut i: usize = 0;
        while i < lanes.len()
            invariant
                i <= lanes@.len(),
                forall|j: int| 0 <= j < i ==> (#[trigger] lanes@[j]).index == j,
                states@.len() == i,
                states@.map_values(|q: Vec<PendingFrame>| q@) == Seq::new(
                    i as nat,
                    |j: int| Seq::<PendingFrame>::empty(),
                ),
            decreases lanes@.len() - i,
        {
            let lane = lanes[i];
            if lane.index != i {
                assert(first_lane_mismatch(lanes@, i as int));
                return Err(ConstructionError::LaneKey { lane });
            }
            let empty: Vec<PendingFrame> = Vec::new();
            assert(empty@ == Seq::<PendingFrame>::empty());
            let ghost prev = states@;
            states.push(empty);
            assert forall|j: int| 0 <= j < i + 1 implies states@[j]@ == Seq::<PendingFrame>::empty() by {
                if j < i {
                    assert(prev.map_values(|q: Vec<PendingFrame>| q@)[j] == Seq::<PendingFrame>::empty());
                    assert(states@[j] == prev[j]);
                }
            }
            assert(states@.map_values(|q: Vec<PendingFrame>| q@) =~= Seq::new(
                (i + 1) as nat,
                |j: int| Seq::<PendingFrame>::empty(),
            ));
            i = i + 1;
        }
        let scheduler = OrderedFaultScheduler {
            lanes: states,
            script,
            tick: 0,
            next_ordinal: 0,
            failure: None,
        };
        assert(scheduler@.lanes =~= Seq::new(lanes@.len(), |i: int| Seq::<PendingFrame>::empty()));
        Ok(scheduler)
    }

    fn fail(&mut self, failure: Failure) -> (outcomes: Vec<ScheduledOutcome>)
        ensures
            (final(self)@, outcomes@) == scheduler_fail(old(self)@, failure),
    {
        let kept = match self.failure {
            Some(f) => f,
            None => {
                self.failure = Some(failure);
                failure
            },
        };
        let outcomes = vec![ScheduledOutcome::Failed { failure: kept }];
        assert(outcomes@ =~= seq![ScheduledOutcome::Failed { failure: kept }]);
        outcomes
    }

    /// Advances logical time and releases only a FIFO prefix from each lane (see
    /// [`spec_advance`]).
    pub fn advance(&mut self, tick: u64) -> (outcomes: Vec<ScheduledOutcome>)
        ensures
            (final(self)@, outcomes@) == spec_advance(old(self)@, tick),
    {
        match self.failure {
            Some(f) => {
                let outcomes = vec![ScheduledOutcome::Failed { failure: f }];
                assert(outcomes@ =~= seq![ScheduledOutcome::Failed { failure: f }]);
                return outcomes;
            },
            None => {},
        }
        if tick < self.tick {
            return self.fail(Failure::TickRegression);
        }
        self.tick = tick;
        let ghost old_lanes = self@.lanes;
        let mut outcomes: Vec<ScheduledOutcome> = Vec::new();
        let mut kept_lanes: Vec<Vec<PendingFrame>> = Vec::new();
        let mut i: usize = 0;
        while i < self.lanes.len()
            invariant
                old_lanes == self@.lanes,
                i <= old_lanes.len(),
                outcomes@ == deliveries_upto(old_lanes, tick, i as int),
                kept_lanes@.len() == i,
                kept_lanes@.map_values(|q: Vec<PendingFrame>| q@) == released_lanes(
                    old_lanes,
                    tick,
                ).subrange(0, i as int),
            decreases old_lanes.len() - i,
        {
            let q = &self.lanes[i];
            assert(q@ == old_lanes[i as int]);
            let mut k: usize = 0;
            let ghost before = outcomes@;
            while k < q.len() && q[k].release_tick <= tick
                invariant
                    k <= q@.len(),
                    forall|j: int| 0 <= j < k ==> (#[trigger] q@[j]).release_tick <= tick,
                    outcomes@ == before + lane_deliveries(i as int, q@, k as int),
                decreases q@.len() - k,
            {
                outcomes.push(ScheduledOutcome::Delivered { lane: Lane { index: i }, step: q[k].step });
                assert(outcomes@ =~= before + lane_deliveries(i as int, q@, (k + 1) as int));
                k = k + 1;
            }
            proof {
                lemma_ready_count(q@, tick, k as int);
            }
            let mut rest: Vec<PendingFrame> = Vec::new();
            let mut m: usize = k;
            while m < q.len()
                invariant
                    k <= m <= q@.len(),
                    rest@ == q@.subrange(k as int, m as int),
                decreases q@.len() - m,
            {
                rest.push(q[m]);
                assert(rest@ =~= q@.subrange(k as int, (m + 1) as int));
                m = m + 1;
            }
            assert(rest@ =~= q@.skip(k as int));
            assert(released_lanes(old_lanes, tick)[i as int] == rest@);
            let ghost prev = kept_lanes@;
            kept_lanes.push(rest);
            assert(kept_lanes@[i as int]@ == rest@);
            assert(kept_lanes@.map_values(|q: Vec<PendingFrame>| q@) =~= released_lanes(
                old_lanes,
                tick,
            ).subrange(0, i + 1));
            i = i + 1;
        }
        self.lanes = kept_lanes;
        assert(self@.lanes =~= released_lanes(old_lanes, tick));
        outcomes
    }

    /// Submits one frame at `tick`, applying its scripted lower-layer fault if selected (see
    /// [`spec_submit`]).
    pub fn submit(&mut self, tick: u64, lane: Lane, step: VectorStep) -> (outcomes: Vec<ScheduledOutcome>)
        ensures
            (final(self)@, outcomes@) == spec_submit(old(self)@, tick, lane, step),
    {
        match self.failure {
            Some(f) => {
                let outcomes = vec![ScheduledOutcome::Failed { failure: f }];
                assert(outcomes@ =~= seq![ScheduledOutcome::Failed { failure: f }]);
                return outcomes;
            },
            None => {},
        }
        if tick < self.tick {
            return self.fail(Failure::TickRegression);
        }
        self.tick = tick;
        if lane.index >= self.lanes.len() {
            return self.fail(Failure::UnknownLane);
        }
        let ordinal = self.next_ordinal;
        if ordinal == u64::MAX {
            return self.fail(Failure::OrdinalExhausted);
        }
        self.next_ordinal = ordinal + 1;
        let release_tick = match self.script.effect(ordinal, tick) {
            Some(FaultEffect::Drop { .. }) => {
                return self.fail(Failure::Lost);
            },
            Some(FaultEffect::Corrupt { .. }) => {
                return self.fail(Failure::Corrupted);
            },
            Some(FaultEffect::Fail { failure, .. }) => {
                return self.fail(failure);
            },
            Some(FaultEffect::Delay { ticks, .. }) => {
                if ticks > u64::MAX - tick {
                    return self.fail(Failure::DelayOverflow);
                }
                tick + ticks
            },
            _ => tick,
        };
        let ghost before = self@;
        self.lanes[lane.index].push(PendingFrame { release_tick, step });
        assert(self@.lanes =~= before.lanes.update(
            lane.index as int,
            before.lanes[lane.index as int].push(PendingFrame { release_tick, step }),
        ));
        self.advance(tick)
    }
}

} // verus!
