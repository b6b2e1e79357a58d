//! The outcome of a static federation run: what the scheduler threads, the coordination
//! services and the RTI session reported, and which failure the run ends with. The threads and
//! channels stay with the caller; each report is handed here as a plain value.
use vstd::prelude::*;

use crate::ids::FederateId;
use crate::session::{SessionError, SessionErrorView};

verus! {

/// Why a static federation run failed.
#[derive(Debug, Clone, PartialEq, Eq)]
pub enum StaticFederationRunnerError {
    /// The runner's own plumbing failed.
    Bridge { what: String },
    /// The RTI session failed.
    Session(SessionError),
    /// A Federate's scheduler stopped with a runtime error.
    SchedulerRuntime { federate_id: FederateId, message: String },
    /// A scheduler thread panicked.
    SchedulerThreadPanic { what: String },
}

/// Mathematical view of a [`StaticFederationRunnerError`].
pub enum RunnerErrorView {
    Bridge { what: Seq<char> },
    Session(SessionErrorView),
    SchedulerRuntime { federate_id: Seq<char>, message: Seq<char> },
    SchedulerThreadPanic { what: Seq<char> },
}

impl View for StaticFederationRunnerError {
    type V = RunnerErrorView;

    open spec fn view(&self) -> RunnerErrorView {
        match self {
            StaticFederationRunnerError::Bridge { what } => RunnerErrorView::Bridge { what: what@ },
            StaticFederationRunnerError::Session(e) => RunnerErrorView::Session(e@),
            StaticFederationRunnerError::SchedulerRuntime { federate_id, message } =>
                RunnerErrorView::SchedulerRuntime { federate_id: federate_id@, message: message@ },
            StaticFederationRunnerError::SchedulerThreadPanic { what } =>
                RunnerErrorView::SchedulerThreadPanic { what: what@ },
        }
    }
}

/// What one scheduler thread reported, or that its reports stopped arriving.
#[derive(Debug, Clone, PartialEq, Eq)]
pub enum SchedulerOutcome {
    /// The scheduler of `federate_id`'s Enclave `enclave_key` ran to completion.
    Completed { federate_id: FederateId, enclave_key: usize },
    /// The scheduler of `federate_id` stopped with a runtime error.
    RuntimeError { federate_id: FederateId, message: String },
    /// The scheduler thread panicked.
    Panicked { what: String },
    /// The completion channel closed before every scheduler reported.
    ChannelClosed,
}

/// Mathematical view of a [`SchedulerOutcome`].
pub enum OutcomeView {
    Completed { federate_id: Seq<char>, enclave_key: usize },
    RuntimeError { federate_id: Seq<char>, message: Seq<char> },
    Panicked { what: Seq<char> },
    ChannelClosed,
}

impl View for SchedulerOutcome {
    type V = OutcomeView;

    open spec fn view(&self) -> OutcomeView {
        match self {
            SchedulerOutcome::Completed { federate_id, enclave_key } => OutcomeView::Completed {
                federate_id: federate_id@,
                enclave_key: *enclave_key,
            },
            SchedulerOutcome::RuntimeError { federate_id, message } => OutcomeView::RuntimeError {
                federate_id: federate_id@,
                message: message@,
            },
            SchedulerOutcome::Panicked { what } => OutcomeView::Panicked { what: what@ },
            SchedulerOutcome::ChannelClosed => OutcomeView::ChannelClosed,
        }
    }
}

/// Mathematical view of a run's tally.
pub struct TallyView {
    /// The first failure, if any.
    pub first_error: Option<RunnerErrorView>,
    /// The completed Enclaves, in the order they reported.
    pub completed: Seq<(Seq<char>, usize)>,
}

/// The failure a closed completion channel reports.
pub open spec fn channel_closed_text() -> Seq<char> {
    "scheduler completion channel closed before all schedulers terminated"@
}

/// The tally after one scheduler report, and whether the caller must now force-stop the
/// coordination services and abort the session: on the first failure, and whenever the
/// completion channel closed.
pub open spec fn spec_record(s: TallyView, o: OutcomeView) -> (TallyView, bool) {
    match o {
        OutcomeView::Completed { federate_id, enclave_key } => (
            TallyView { completed: s.completed.push((federate_id, enclave_key)), ..s },
            false,
        ),
        OutcomeView::RuntimeError { federate_id, message } => if s.first_error is None {
            (TallyView { first_error: Some(RunnerErrorView::SchedulerRuntime { federate_id, message }), ..s }, true)
        } else {
            (s, false)
        },
        OutcomeView::Panicked { what } => if s.first_error is None {
            (TallyView { first_error: Some(RunnerErrorView::SchedulerThreadPanic { what }), ..s }, true)
        } else {
            (s, false)
        },
        OutcomeView::ChannelClosed => (
            TallyView {
                first_error: if s.first_error is None {
                    Some(RunnerErrorView::Bridge { what: channel_closed_text() })
                } else {
                    s.first_error
                },
                ..s
            },
            true,
        ),
    }
}

/// The tally after a scheduler thread's join reported a panic: it counts unless a failure came
/// first.
pub open spec fn spec_record_join_panic(s: TallyView, what: Seq<char>) -> TallyView {
    if s.first_error is None {
        TallyView { first_error: Some(RunnerErrorView::SchedulerThreadPanic { what }), ..s }
    } else {
        s
    }
}

/// How the run ends: the first scheduler failure, else the first coordination service failure,
/// else the session's failure, else the completed Enclaves.
pub open spec fn spec_finish(
    s: TallyView,
    service_error: Option<Seq<char>>,
    session: Result<(), SessionErrorView>,
) -> Result<Seq<(Seq<char>, usize)>, RunnerErrorView> {
    match s.first_error {
        Some(e) => Err(e),
        None => match service_error {
            Some(what) => Err(RunnerErrorView::Bridge { what }),
            None => match session {
                Err(e) => Err(RunnerErrorView::Session(e)),
                Ok(()) => Ok(s.completed),
            },
        },
    }
}

/// The reports of a static federation run gathered so far.
#[derive(Debug)]
pub struct SchedulerTally {
    first_error: Option<StaticFederationRunnerError>,
    completed: Vec<(FederateId, usize)>,
}

/// The views of completed Enclaves.
pub open spec fn completed_view(v: Seq<(FederateId, usize)>) -> Seq<(Seq<char>, usize)> {
    v.map_values(|x: (FederateId, usize)| (x.0@, x.1))
}

impl View for SchedulerTally {
    type V = TallyView;

    closed spec fn view(&self) -> TallyView {
        TallyView {
            first_error: match self.first_error {
                Some(e) => Some(e@),
                None => None,
            },
            completed: completed_view(self.completed@),
        }
    }
}

impl SchedulerTally {
    /// Nothing reported yet.
    pub fn new() -> (t: Self)
        ensures
            t@.first_error is None,
            t@.completed == Seq::<(Seq<char>, usize)>::empty(),
    {
        let t = SchedulerTally { first_error: None, completed: Vec::new() };
        assert(completed_view(t.completed@) =~= Seq::<(Seq<char>, usize)>::empty());
        t
    }

    /// Records one scheduler report (see [`spec_record`]); whether the caller must now
    /// force-stop the coordination services and abort the session.
    pub fn record(&mut self, outcome: SchedulerOutcome) -> (stop_now: bool)
        ensures
            spec_record(old(self)@, outcome@) == (final(self)@, stop_now),
    {
        match outcome {
            SchedulerOutcome::Completed { federate_id, enclave_key } => {
                let ghost before = completed_view(self.completed@);
                self.completed.push((federate_id, enclave_key));
                assert(completed_view(self.completed@) =~= before.push((federate_id@, enclave_key)));
                false
            },
            SchedulerOutcome::RuntimeError { federate_id, message } => {
                if self.first_error.is_none() {
                    self.first_error = Some(StaticFederationRunnerError::SchedulerRuntime { federate_id, message });
                    true
                } else {
                    false
                }
            },
            SchedulerOutcome::Panicked { what } => {
                if self.first_error.is_none() {
                    self.first_error = Some(StaticFederationRunnerError::SchedulerThreadPanic { what });
                    true
                } else {
                    false
                }
            },
            SchedulerOutcome::ChannelClosed => {
                if self.first_error.is_none() {
                    proof {
                        reveal_strlit("scheduler completion channel closed before all schedulers terminated");
                    }
                    self.first_error = Some(
                        StaticFederationRunnerError::Bridge {
                            what: "scheduler completion channel closed before all schedulers terminated".to_owned(),
                        },
                    );
                }
                true
            },
        }
    }

    /// Records that joining a scheduler thread found it panicked with `what`.
    pub fn record_join_panic(&mut self, what: String)
        ensures
            final(self)@ == spec_record_join_panic(old(self)@, what@),
    {
        if self.first_error.is_none() {
            self.first_error = Some(StaticFederationRunnerError::SchedulerThreadPanic { what });
        }
    }

    /// How the run ends (see [`spec_finish`]), given the first coordination service failure and
    /// the session's result.
    pub fn finish(self, service_error: Option<String>, session: Result<(), SessionError>) -> (r: Result<
        Vec<(FederateId, usize)>,
        StaticFederationRunnerError,
    >)
        ensures
            spec_finish(
                self@,
                match service_error {
                    Some(w) => Some(w@),
                    None => None,
                },
                match session {
                    Ok(()) => Ok(()),
                    Err(e) => Err(e@),
                },
            ) == match r {
                Ok(v) => Ok(completed_view(v@)),
                Err(e) => Err::<Seq<(Seq<char>, usize)>, RunnerErrorView>(e@),
            },
    {
        match self.first_error {
            Some(e) => Err(e),
            None => match service_error {
                Some(what) => Err(StaticFederationRunnerError::Bridge { what }),
                None => match session {
                    Err(e) => Err(StaticFederationRunnerError::Session(e)),
                    Ok(()) => Ok(self.completed),
                },
            },
        }
    }
}

/// Law of a run: the first failure stays, no later report replaces it, and a report asks for a
/// stop only once a failure is recorded.
pub proof fn lemma_first_failure_stays(s: TallyView, o: OutcomeView, what: Seq<char>)
    ensures
        s.first_error is Some ==> spec_record(s, o).0.first_error == s.first_error
            && spec_record_join_panic(s, what).first_error == s.first_error,
        spec_record(s, o).1 ==> spec_record(s, o).0.first_error is Some,
{
}

/// The tally before any report.
pub open spec fn empty_tally() -> TallyView {
    TallyView { first_error: None, completed: Seq::empty() }
}

/// The tally after the scheduler reports `os`, in the order they arrived, starting from `s`.
pub open spec fn record_all(s: TallyView, os: Seq<OutcomeView>) -> TallyView
    decreases os.len(),
{
    if os.len() == 0 {
        s
    } else {
        spec_record(record_all(s, os.drop_last()), os.last()).0
    }
}

/// The tally after the join panics `whats`, in join order, starting from `s`.
pub open spec fn join_all(s: TallyView, whats: Seq<Seq<char>>) -> TallyView
    decreases whats.len(),
{
    if whats.len() == 0 {
        s
    } else {
        spec_record_join_panic(join_all(s, whats.drop_last()), whats.last())
    }
}

/// The failure one scheduler report stands for, if it is one.
pub open spec fn report_failure(o: OutcomeView) -> Option<RunnerErrorView> {
    match o {
        OutcomeView::Completed { .. } => None,
        OutcomeView::RuntimeError { federate_id, message } => Some(
            RunnerErrorView::SchedulerRuntime { federate_id, message },
        ),
        OutcomeView::Panicked { what } => Some(RunnerErrorView::SchedulerThreadPanic { what }),
        OutcomeView::ChannelClosed => Some(RunnerErrorView::Bridge { what: channel_closed_text() }),
    }
}

/// The failure of the earliest failing report among `os`.
pub open spec fn first_failure(os: Seq<OutcomeView>) -> Option<RunnerErrorView>
    decreases os.len(),
{
    if os.len() == 0 {
        None
    } else {
        match first_failure(os.drop_last()) {
            Some(e) => Some(e),
            None => report_failure(os.last()),
        }
    }
}

/// The Enclaves that reported completion among `os`, in report order.
pub open spec fn completed_reports(os: Seq<OutcomeView>) -> Seq<(Seq<char>, usize)>
    decreases os.len(),
{
    if os.len() == 0 {
        Seq::empty()
    } else {
        match os.last() {
            OutcomeView::Completed { federate_id, enclave_key } => completed_reports(os.drop_last()).push(
                (federate_id, enclave_key),
            ),
            _ => completed_reports(os.drop_last()),
        }
    }
}

proof fn lemma_record_all(os: Seq<OutcomeView>)
    ensures
        record_all(empty_tally(), os).first_error == first_failure(os),
        record_all(empty_tally(), os).completed == completed_reports(os),
        first_failure(os) is None ==> completed_reports(os).len() == os.len() && forall|i: int|
            0 <= i < os.len() ==> #[trigger] os[i] is Completed,
    decreases os.len(),
{
    if os.len() > 0 {
        let init = os.drop_last();
        lemma_record_all(init);
        if first_failure(os) is None {
            assert forall|i: int| 0 <= i < os.len() implies #[trigger] os[i] is Completed by {
                if i < init.len() {
                    assert(init[i] == os[i]);
                }
            }
        }
    }
}

proof fn lemma_join_all(s: TallyView, whats: Seq<Seq<char>>)
    ensures
        join_all(s, whats).completed == s.completed,
        join_all(s, whats).first_error == if s.first_error is Some {
            s.first_error
        } else if whats.len() > 0 {
            Some(RunnerErrorView::SchedulerThreadPanic { what: whats[0] })
        } else {
            None
        },
    decreases whats.len(),
{
    if whats.len() > 0 {
        lemma_join_all(s, whats.drop_last());
    }
}

/// Law of a run: given the scheduler reports `os` (all `expected` of them, or fewer ending where
/// the completion channel closed), the join panics `whats`, the first coordination service
/// failure and the session's result, the run ends with the earliest scheduler failure, ahead of
/// any join panic, service or session failure; and it succeeds only when every one of the
/// `expected` schedulers reported completion, with those Enclaves in report order.
pub proof fn lemma_run_outcome(
    os: Seq<OutcomeView>,
    whats: Seq<Seq<char>>,
    service_error: Option<Seq<char>>,
    session: Result<(), SessionErrorView>,
    expected: nat,
)
    requires
        os.len() == expected || (0 < os.len() <= expected && os.last() is ChannelClosed),
    ensures
        spec_finish(join_all(record_all(empty_tally(), os), whats), service_error, session) == match first_failure(
            os,
        ) {
            Some(e) => Err(e),
            None => if whats.len() > 0 {
                Err(RunnerErrorView::SchedulerThreadPanic { what: whats[0] })
            } else {
                match service_error {
                    Some(what) => Err(RunnerErrorView::Bridge { what }),
                    None => match session {
                        Err(e) => Err(RunnerErrorView::Session(e)),
                        Ok(()) => Ok(completed_reports(os)),
                    },
                }
            },
        },
        spec_finish(join_all(record_all(empty_tally(), os), whats), service_error, session) is Ok ==> {
            &&& completed_reports(os).len() == expected
            &&& forall|i: int| 0 <= i < os.len() ==> #[trigger] os[i] is Completed
        },
{
    lemma_record_all(os);
    lemma_join_all(record_all(empty_tally(), os), whats);
    if os.len() > 0 && os.last() is ChannelClosed && first_failure(os) is None {
        assert(os[os.len() - 1] is Completed);
    }
}

} // verus!
