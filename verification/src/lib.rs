//! Verified coordination core of a federated reactor runtime.
pub mod channel;
pub mod client;
pub mod client_laws;
pub mod codec;
pub mod conformance;
pub mod connections;
pub mod delay_order;
pub mod federate_coordination;
pub mod hierarchy;
pub mod ids;
pub mod protocol;
pub mod reactor_fields;
pub mod rti;
pub mod runner;
pub mod runtime;
pub mod seqs;
pub mod session;
pub mod session_laws;
pub mod start_sync;
pub mod topology;
pub mod tags;
pub mod text;

pub use ids::{EndpointId, FederateId};
pub use protocol::{FederateToRti, RtiToFederate, WireDelay, WireTag};
