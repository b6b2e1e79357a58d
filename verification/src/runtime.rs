//! Errors of federated endpoints and the record of the first one.
use vstd::prelude::*;
use vstd::string::StringExecFns;

verus! {

/// A failure of a federated endpoint.
#[derive(Debug, Clone, PartialEq, Eq)]
pub enum FederatedEndpointError {
    /// The payload codec failed.
    Codec(String),
    /// The outbound sink failed.
    Send(String),
    /// Federated endpoints cannot target physical actions.
    PhysicalAction,
    /// The inbound endpoint's scheduler channel is closed.
    SchedulerClosed,
}

/// Mathematical view of a [`FederatedEndpointError`].
pub enum EndpointErrorView {
    Codec(Seq<char>),
    Send(Seq<char>),
    PhysicalAction,
    SchedulerClosed,
}

impl View for FederatedEndpointError {
    type V = EndpointErrorView;

    open spec fn view(&self) -> EndpointErrorView {
        match self {
            FederatedEndpointError::Codec(m) => EndpointErrorView::Codec(m@),
            FederatedEndpointError::Send(m) => EndpointErrorView::Send(m@),
            FederatedEndpointError::PhysicalAction => EndpointErrorView::PhysicalAction,
            FederatedEndpointError::SchedulerClosed => EndpointErrorView::SchedulerClosed,
        }
    }
}

/// How an endpoint error reads.
pub open spec fn endpoint_error_text(e: EndpointErrorView) -> Seq<char> {
    match e {
        EndpointErrorView::Codec(m) => "federated payload codec error: "@ + m,
        EndpointErrorView::Send(m) => "federated outbound sink error: "@ + m,
        EndpointErrorView::PhysicalAction => "federated endpoints cannot target physical actions"@,
        EndpointErrorView::SchedulerClosed => "federated inbound endpoint scheduler channel is closed"@,
    }
}

impl FederatedEndpointError {
    /// How this error reads.
    pub fn message(&self) -> (s: String)
        ensures
            s@ == endpoint_error_text(self@),
    {
        match self {
            FederatedEndpointError::Codec(m) => {
                let mut s = "federated payload codec error: ".to_owned();
                s.append(m.as_str());
                s
            },
            FederatedEndpointError::Send(m) => {
                let mut s = "federated outbound sink error: ".to_owned();
                s.append(m.as_str());
                s
            },
            FederatedEndpointError::PhysicalAction => "federated endpoints cannot target physical actions".to_owned(),
            FederatedEndpointError::SchedulerClosed => "federated inbound endpoint scheduler channel is closed".to_owned(),
        }
    }

    /// A codec failure with `message`.
    pub fn codec(message: &str) -> (e: Self)
        ensures
            e@ == EndpointErrorView::Codec(message@),
    {
        FederatedEndpointError::Codec(message.to_owned())
    }

    /// An outbound sink failure with `message`.
    pub fn send(message: &str) -> (e: Self)
        ensures
            e@ == EndpointErrorView::Send(message@),
    {
        FederatedEndpointError::Send(message.to_owned())
    }

    /// An identical copy.
    pub fn duplicate(&self) -> (e: Self)
        ensures
            e@ == self@,
    {
        match self {
            FederatedEndpointError::Codec(m) => FederatedEndpointError::Codec(m.clone()),
            FederatedEndpointError::Send(m) => FederatedEndpointError::Send(m.clone()),
            FederatedEndpointError::PhysicalAction => FederatedEndpointError::PhysicalAction,
            FederatedEndpointError::SchedulerClosed => FederatedEndpointError::SchedulerClosed,
        }
    }
}

/// The first endpoint failure of a Federate, kept once recorded.
#[derive(Debug, Clone)]
pub struct FederatedFaultState {
    first_error: Option<FederatedEndpointError>,
}

impl View for FederatedFaultState {
    type V = Option<EndpointErrorView>;

    closed spec fn view(&self) -> Option<EndpointErrorView> {
        match self.first_error {
            Some(e) => Some(e@),
            None => None,
        }
    }
}

impl Default for FederatedFaultState {
    /// Nothing recorded.
    fn default() -> (s: Self)
        ensures
            s@ is None,
    {
        FederatedFaultState { first_error: None }
    }
}

/// The record after `error` was reported: the first error stays.
pub open spec fn recorded(state: Option<EndpointErrorView>, error: EndpointErrorView) -> Option<
    EndpointErrorView,
> {
    match state {
        Some(first) => Some(first),
        None => Some(error),
    }
}

impl FederatedFaultState {
    /// Records `error` unless an error is already recorded.
    pub fn record(&mut self, error: FederatedEndpointError)
        ensures
            final(self)@ == recorded(old(self)@, error@),
    {
        if self.first_error.is_none() {
            self.first_error = Some(error);
        }
    }

    /// The first recorded error, if any.
    pub fn get(&self) -> (e: Option<FederatedEndpointError>)
        ensures
            match e {
                Some(err) => self@ == Some(err@),
                None => self@ is None,
            },
    {
        match &self.first_error {
            Some(err) => Some(err.duplicate()),
            None => None,
        }
    }
}

/// Recording keeps the first error: a second recording never replaces it.
pub proof fn lemma_first_error_sticks(
    state: Option<EndpointErrorView>,
    first: EndpointErrorView,
    later: EndpointErrorView,
)
    ensures
        recorded(None, first) == Some(first),
        recorded(recorded(state, first), later) == recorded(state, first),
{
}

} // verus!
