//! The human-readable description of RTI errors.
use vstd::prelude::*;
use vstd::string::StringExecFns;

use super::{RtiError, RtiErrorView};
use crate::text::{decimal, render_tag, render_unsigned, tag_text};

verus! {

/// How an RTI error reads.
pub open spec fn rti_error_text(e: RtiErrorView) -> Seq<char> {
    match e {
        RtiErrorView::UnknownFederate(id) => "unknown federate `"@ + id + "`"@,
        RtiErrorView::TagDelayOverflow { tag, delay_ns } => "delaying tag "@ + tag_text(tag) + " by "@
            + decimal(delay_ns as nat) + "ns overflowed"@,
        RtiErrorView::TagPredecessorUnderflow { tag } => "cannot calculate the latest tag strictly before "@
            + tag_text(tag),
        RtiErrorView::FederateIdentityMismatch { event, authenticated_federate, claimed_federate } => event
            + " identified federate `"@ + claimed_federate + "`, but authenticated endpoint is `"@
            + authenticated_federate + "`"@,
        RtiErrorView::InvalidTag { event, federate_id, tag } => event + " from federate `"@ + federate_id
            + "` used illegal tag "@ + tag_text(tag),
        RtiErrorView::RegressingNet { federate_id, previous, requested } => "NET for federate `"@
            + federate_id + "` regressed from "@ + tag_text(previous) + " to "@ + tag_text(requested),
        RtiErrorView::RegressingLtc { federate_id, previous, completed } => "LTC for federate `"@
            + federate_id + "` regressed from "@ + tag_text(previous) + " to "@ + tag_text(completed),
        RtiErrorView::InvalidLifecycleTransition { federate_id, event, lifecycle } => "federate `"@
            + federate_id + "` cannot process "@ + event + " while "@ + lifecycle,
        RtiErrorView::InvalidRoute { source_federate, target_federate, endpoint } => "MSG route "@
            + source_federate + " -> "@ + target_federate + " endpoint `"@ + endpoint
            + "` is not in the RTI topology"@,
    }
}

impl RtiError {
    /// How this error reads.
    pub fn message(&self) -> (s: String)
        ensures
            s@ == rti_error_text(self@),
    {
        match self {
            RtiError::UnknownFederate(id) => {
                let mut s = "unknown federate `".to_owned();
                s.append(id.as_str());
                s.append("`");
                s
            },
            RtiError::TagDelayOverflow { tag, delay_ns } => {
                let mut s = "delaying tag ".to_owned();
                s.append(render_tag(*tag).as_str());
                s.append(" by ");
                s.append(render_unsigned(*delay_ns as u128).as_str());
                s.append("ns overflowed");
                s
            },
            RtiError::TagPredecessorUnderflow { tag } => {
                let mut s = "cannot calculate the latest tag strictly before ".to_owned();
                s.append(render_tag(*tag).as_str());
                s
            },
            RtiError::FederateIdentityMismatch { event, authenticated_federate, claimed_federate } => {
                let mut s = (*event).to_owned();
                s.append(" identified federate `");
                s.append(claimed_federate.as_str());
                s.append("`, but authenticated endpoint is `");
                s.append(authenticated_federate.as_str());
                s.append("`");
                s
            },
            RtiError::InvalidTag { event, federate_id, tag } => {
                let mut s = (*event).to_owned();
                s.append(" from federate `");
                s.append(federate_id.as_str());
                s.append("` used illegal tag ");
                s.append(render_tag(*tag).as_str());
                s
            },
            RtiError::RegressingNet { federate_id, previous, requested } => {
                let mut s = "NET for federate `".to_owned();
                s.append(federate_id.as_str());
                s.append("` regressed from ");
                s.append(render_tag(*previous).as_str());
                s.append(" to ");
                s.append(render_tag(*requested).as_str());
                s
            },
            RtiError::RegressingLtc { federate_id, previous, completed } => {
                let mut s = "LTC for federate `".to_owned();
                s.append(federate_id.as_str());
                s.append("` regressed from ");
                s.append(render_tag(*previous).as_str());
                s.append(" to ");
                s.append(render_tag(*completed).as_str());
                s
            },
            RtiError::InvalidLifecycleTransition { federate_id, event, lifecycle } => {
                let mut s = "federate `".to_owned();
                s.append(federate_id.as_str());
                s.append("` cannot process ");
                s.append(event);
                s.append(" while ");
                s.append(lifecycle);
                s
            },
            RtiError::InvalidRoute { source_federate, target_federate, endpoint } => {
                let mut s = "MSG route ".to_owned();
                s.append(source_federate.as_str());
                s.append(" -> ");
                s.append(target_federate.as_str());
                s.append(" endpoint `");
                s.append(endpoint.as_str());
                s.append("` is not in the RTI topology");
                s
            },
        }
    }
}

} // verus!
