//! The messages that travel between clients and the server.

use vstd::prelude::*;
use crate::action_messages::Event;
use crate::payload::ErrorDescription;

verus! {

/// How a request succeeded.
#[derive(Clone, Copy, Debug, PartialEq, Eq, Structural)]
pub enum AckResult {
    Success,
    UpdatedSubscription,
    UpdatedLocation,
}

/// Why a request was turned down.
#[derive(Clone, Copy, Debug, PartialEq, Eq, Structural)]
pub enum NackResult {
    AlreadySubscribed,
    NotSubscribed,
    Failed,
}

/// Every message on the wire, in either direction.
///
///  * `Ack`, `Nack`, `Error`: server to client, the outcome of a request.
///  * `Request`: client to server.
///  * `Scene`: server to client, a broadcast of a service.
///  * `NextScene`, `RetriggerScene`: client to server, operator triggers.
///  * `Heartbeat`, `HeartbeatAck`: the watchdog and its answer.
#[derive(Clone, Copy, Debug, PartialEq, Eq)]
pub enum ExchangeMessage {
    Ack(AckResult),
    Nack(NackResult),
    Request(Event),
    Scene(Event),
    Error(ErrorDescription),
    NextScene,
    RetriggerScene,
    Heartbeat,
    HeartbeatAck,
}

impl ExchangeMessage {
    /// Validity: that of the event or the description, where there is one.
    pub open spec fn wf(self) -> bool {
        match self {
            ExchangeMessage::Request(e) => e.wf(),
            ExchangeMessage::Scene(e) => e.wf(),
            ExchangeMessage::Error(d) => d.wf(),
            _ => true,
        }
    }

    /// Brings the validity of a value at hand into a proof.
    pub fn valid(&self)
        ensures
            self.wf(),
    {
        match self {
            ExchangeMessage::Request(e) => e.valid(),
            ExchangeMessage::Scene(e) => e.valid(),
            ExchangeMessage::Error(d) => d.error_descr.valid(),
            _ => {},
        }
    }
}

} // verus!
