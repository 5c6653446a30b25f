//! The messages an orchestrator publishes for the server.

use vstd::prelude::*;
use crate::action_messages::Event;
use crate::identity::RelativeLocation;

verus! {

/// A command of the orchestrator: an event and the location it is meant for.
#[derive(Clone, Copy, Debug, PartialEq, Eq)]
pub enum OrchestrationMessage {
    Request(Event, Option<RelativeLocation>),
}

impl OrchestrationMessage {
    /// Validity: that of the event.
    pub open spec fn wf(self) -> bool {
        match self {
            OrchestrationMessage::Request(e, _) => e.wf(),
        }
    }

    /// Brings the validity of a value at hand into a proof.
    pub fn valid(&self)
        ensures
            self.wf(),
    {
        match self {
            OrchestrationMessage::Request(e, _) => e.valid(),
        }
    }
}

} // verus!
