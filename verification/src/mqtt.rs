//! The ingress from the orchestrator: what the server does with each thing
//! its MQTT connection yields.

use vstd::prelude::*;
use crate::action_messages::Event;
use crate::identity::Service;
use crate::json::{decode_orchestration, orchestration_decoding};
use crate::orchestration_messages::OrchestrationMessage;
use crate::services::{allowed, InternalEventMessageServer};

verus! {

/// Seconds to wait before polling the broker again after an error.
pub const RETRY_SECONDS: u64 = 3;

/// Seconds between keep-alive packets.
pub const KEEP_ALIVE_SECONDS: u64 = 5;

/// The topic the orchestrator publishes on.
pub fn topic() -> (t: &'static str)
    ensures
        t@ == "lamarrs/orchestrator"@,
{
    "lamarrs/orchestrator"
}

/// How surely a packet is delivered.
#[derive(Clone, Copy, Debug, PartialEq, Eq, Structural)]
pub enum QoS {
    AtMostOnce,
    AtLeastOnce,
}

/// The delivery asked of the broker for the subscription.
pub fn subscribe_qos() -> (q: QoS)
    ensures
        q == QoS::AtMostOnce,
{
    QoS::AtMostOnce
}

/// The delivery asked of the broker for what the server publishes.
pub fn publish_qos() -> (q: QoS)
    ensures
        q == QoS::AtLeastOnce,
{
    QoS::AtLeastOnce
}

/// What the connection to the broker yields.
#[derive(Debug)]
pub enum MqttEvent {
    /// A publication on the orchestrator's topic, with its payload.
    Publish(Vec<u8>),
    /// Any other packet.
    Other,
    /// The connection failed.
    Disconnected,
}

/// What the ingress asks to be done.
#[derive(Clone, Copy, Debug, PartialEq, Eq)]
pub enum MqttCommand {
    /// Put the message in the mailbox of the actor of this service.
    Dispatch(Service, InternalEventMessageServer),
    /// Wait this many seconds, then poll again.
    RetryAfter(u64),
    /// Nothing: the packet is passed over, or the payload dropped.
    Nothing,
}

/// What a command of the orchestrator leads to: an action goes to the actor
/// of the service that performs it, for the location the command names;
/// any other event is dropped.
pub open spec fn routed(m: Option<OrchestrationMessage>) -> MqttCommand {
    match m {
        Some(OrchestrationMessage::Request(Event::PerformAction(action), location)) => {
            MqttCommand::Dispatch(
                action.spec_service(),
                InternalEventMessageServer::PerformAction(action, location),
            )
        },
        _ => MqttCommand::Nothing,
    }
}

/// What a payload leads to. One that is no command is dropped.
pub open spec fn published(payload: Seq<u8>) -> MqttCommand {
    routed(orchestration_decoding(payload))
}

/// The command that a decoded payload leads to.
pub fn route(message: Option<OrchestrationMessage>) -> (c: MqttCommand)
    ensures
        c == routed(message),
{
    match message {
        Some(OrchestrationMessage::Request(Event::PerformAction(action), location)) => {
            MqttCommand::Dispatch(
                action.service(),
                InternalEventMessageServer::PerformAction(action, location),
            )
        },
        _ => MqttCommand::Nothing,
    }
}

/// The command that a publication leads to.
pub fn on_mqtt_published(payload: &[u8]) -> (c: MqttCommand)
    ensures
        c == published(payload@),
{
    route(decode_orchestration(payload))
}

/// One step of the ingress.
pub fn run(event: &MqttEvent) -> (c: MqttCommand)
    ensures
        c == match *event {
            MqttEvent::Publish(payload) => published(payload@),
            MqttEvent::Other => MqttCommand::Nothing,
            MqttEvent::Disconnected => MqttCommand::RetryAfter(3),
        },
{
    match event {
        MqttEvent::Publish(payload) => on_mqtt_published(payload.as_slice()),
        MqttEvent::Other => MqttCommand::Nothing,
        MqttEvent::Disconnected => MqttCommand::RetryAfter(RETRY_SECONDS),
    }
}

/// The ingress hands an action to no actor but the one that performs it.
pub proof fn law_routed_action_is_allowed(m: Option<OrchestrationMessage>)
    ensures
        routed(m) matches MqttCommand::Dispatch(service, event) ==> (event
            matches InternalEventMessageServer::PerformAction(action, _) && allowed(
            service,
            action,
        )),
{
}

} // verus!
