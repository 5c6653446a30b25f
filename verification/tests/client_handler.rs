use lamarrs::action_messages::{Action, Event};
use lamarrs::binary::encode_binary;
use lamarrs::client_handler::{
    classify, frame_of, malformed_payload_report, Client, ClientHandlerError, ClientWire, Effect,
    Frame, HandlerInput, Inbound, Received,
};
use lamarrs::exchange_messages::{AckResult, ExchangeMessage, NackResult};
use lamarrs::identity::{ClientIdAndLocation, RelativeLocation, Service};
use lamarrs::json::{encode_text, encode_text_bytes};
use lamarrs::payload::{ColourRgb, ErrorDescription};
use lamarrs::services::InternalEventMessageServer;

const MAILBOX: u64 = 42;
const ALL: [Service; 4] =
    [Service::Subtitle, Service::Colour, Service::AudioPlayer, Service::Midi];

fn id() -> ClientIdAndLocation {
    ClientIdAndLocation::new(0xabc, Some(RelativeLocation::Center))
}

fn to_all(e: InternalEventMessageServer) -> Vec<Effect> {
    ALL.iter().map(|s| Effect::ToService(*s, e)).collect()
}

fn text(m: ExchangeMessage) -> Inbound {
    Inbound::Text(encode_text(&m))
}

fn binary(m: ExchangeMessage) -> Inbound {
    Inbound::Binary(encode_binary(&m))
}

fn registered() -> Client {
    let mut c = Client::new(MAILBOX);
    let step = c.handle_ws_message(&text(ExchangeMessage::Request(Event::Register(id()))));
    assert_eq!(step.result, Ok(()));
    c
}

#[test]
fn a_new_handler_knows_nobody() {
    let c = Client::new(MAILBOX);
    assert_eq!(c.id(), None);
    assert_eq!(c.mailbox(), MAILBOX);
    assert!(!c.watchdog_sent());
    assert_eq!(c.wire(), ClientWire::Binary);
    assert_eq!(c.rejected(), 0);
    assert!(!c.is_closed());
    assert!(c.removal_effects().is_empty());
}

#[test]
fn registration_refreshes_every_service_and_acknowledges() {
    let mut c = Client::new(MAILBOX);
    let step = c.handle_ws_message(&binary(ExchangeMessage::Request(Event::Register(id()))));
    assert_eq!(step.result, Ok(()));
    let mut want = to_all(InternalEventMessageServer::UpdateClientData(id(), MAILBOX));
    want.push(Effect::Reply(ExchangeMessage::Ack(AckResult::Success)));
    assert_eq!(step.effects, want);
    assert_eq!(c.id(), Some(id()));
    assert_eq!(c.wire(), ClientWire::Binary);
}

#[test]
fn unregistered_client_is_turned_down() {
    let mut c = Client::new(MAILBOX);
    let m = ExchangeMessage::Request(Event::SubscribeToService(Service::Subtitle, id()));
    let step = c.handle_ws_message(&text(m));
    assert_eq!(step.result, Err(ClientHandlerError::UnregisteredSubscriber(m)));
    assert_eq!(step.effects, vec![Effect::Reply(ExchangeMessage::Nack(NackResult::NotSubscribed))]);
    assert_eq!(c.id(), None);
    assert_eq!(c.rejected(), 1);
    assert!(!c.is_closed());
    assert!(!ClientHandlerError::UnregisteredSubscriber(m).is_fatal());
    let step = c.handle_ws_message(&text(ExchangeMessage::NextScene));
    assert!(step.result.is_err());
    assert_eq!(c.rejected(), 2);
}

#[test]
fn registered_client_is_routed() {
    let mut c = registered();
    let other = ClientIdAndLocation::new(0xdef, None);
    let step = c.handle_ws_message(&text(ExchangeMessage::Request(Event::SubscribeToService(
        Service::Colour,
        other,
    ))));
    assert_eq!(step.result, Ok(()));
    assert_eq!(
        step.effects,
        vec![Effect::ToService(
            Service::Colour,
            InternalEventMessageServer::AddTargetClient(other, MAILBOX)
        )]
    );
    let step = c.handle_ws_message(&text(ExchangeMessage::Request(
        Event::UnsubscribeFromService(Service::Midi, other),
    )));
    assert_eq!(
        step.effects,
        vec![Effect::ToService(Service::Midi, InternalEventMessageServer::RemoveTargetClient(other))]
    );
    let step = c.handle_ws_message(&text(ExchangeMessage::Request(Event::UpdateLocation(other))));
    assert_eq!(step.effects, to_all(InternalEventMessageServer::UpdateClientData(other, MAILBOX)));
    assert_eq!(c.id(), Some(id()));
    for m in [ExchangeMessage::NextScene, ExchangeMessage::RetriggerScene] {
        let step = c.handle_ws_message(&text(m));
        assert_eq!(step.result, Ok(()));
        assert_eq!(step.effects, vec![Effect::ToSequencer(m)]);
    }
    // Registering again replaces the identity and tells every service.
    let step = c.handle_ws_message(&text(ExchangeMessage::Request(Event::Register(other))));
    assert_eq!(step.result, Ok(()));
    assert_eq!(step.effects.len(), 5);
    assert_eq!(c.id(), Some(other));
}

#[test]
fn what_a_client_may_not_send_fails_and_goes_on() {
    let mut c = registered();
    let scene =
        ExchangeMessage::Scene(Event::PerformAction(Action::ChangeColour(ColourRgb::new(1, 2, 3))));
    for m in [
        scene,
        ExchangeMessage::Request(Event::PerformAction(Action::ChangeColour(ColourRgb::new(1, 2, 3)))),
        ExchangeMessage::Ack(AckResult::Success),
        ExchangeMessage::Nack(NackResult::Failed),
        ExchangeMessage::Error(ErrorDescription::new("x").unwrap()),
        ExchangeMessage::Heartbeat,
    ] {
        let step = c.handle_ws_message(&text(m));
        assert_eq!(step.result, Err(ClientHandlerError::InvalidExchangeMessage(m)));
        assert_eq!(step.effects, vec![Effect::Reply(ExchangeMessage::Nack(NackResult::Failed))]);
        assert!(!c.is_closed());
    }
    assert_eq!(c.id(), Some(id()));
}

#[test]
fn malformed_frames_are_reported_and_do_not_end_the_session() {
    let mut c = registered();
    let report = malformed_payload_report();
    assert_eq!(
        report,
        ExchangeMessage::Error(
            ErrorDescription::new("Unrecognized message: Malformed payload.").unwrap()
        )
    );
    let step = c.handle_ws_message(&Inbound::Text("{\"Nonsense\":1}".to_string()));
    assert_eq!(step.result, Err(ClientHandlerError::UnrecognizableMessage));
    assert_eq!(step.effects, vec![Effect::Reply(report)]);
    let step = c.handle_ws_message(&Inbound::Binary(vec![200, 1, 2]));
    assert_eq!(step.result, Err(ClientHandlerError::FailureDecodingBinaryExchangeMessage));
    assert_eq!(step.effects, vec![Effect::Reply(report)]);
    assert!(!c.is_closed());
    assert_eq!(c.id(), Some(id()));
    let step = c.handle_ws_message(&Inbound::Unsupported);
    assert_eq!(step.result, Ok(()));
    assert!(step.effects.is_empty());
}

#[test]
fn frames_are_classified() {
    assert_eq!(
        classify(&text(ExchangeMessage::Heartbeat)),
        Received::Message(ClientWire::Text, ExchangeMessage::Heartbeat)
    );
    assert_eq!(
        classify(&binary(ExchangeMessage::Heartbeat)),
        Received::Message(ClientWire::Binary, ExchangeMessage::Heartbeat)
    );
    // Text in a binary frame is no message, and the other way round.
    assert_eq!(
        classify(&Inbound::Binary(encode_text_bytes(&ExchangeMessage::Heartbeat))),
        Received::Malformed(ClientWire::Binary)
    );
    assert_eq!(
        classify(&Inbound::Text("\u{7}".to_string())),
        Received::Malformed(ClientWire::Text)
    );
    assert_eq!(classify(&Inbound::Close), Received::Closed);
    assert_eq!(classify(&Inbound::Ended), Received::Closed);
    assert_eq!(classify(&Inbound::Unsupported), Received::Unsupported);
    assert_eq!(classify(&Inbound::Failed), Received::Failed);
}

#[test]
fn the_first_message_fixes_the_encoding() {
    let mut c = Client::new(MAILBOX);
    // A frame that is no message fixes nothing.
    c.handle_ws_message(&Inbound::Text("?".to_string()));
    assert_eq!(c.wire(), ClientWire::Binary);
    c.handle_ws_message(&text(ExchangeMessage::Request(Event::Register(id()))));
    assert_eq!(c.wire(), ClientWire::Text);
    // A later binary frame is read, and changes nothing.
    let step = c.handle_ws_message(&binary(ExchangeMessage::NextScene));
    assert_eq!(step.effects, vec![Effect::ToSequencer(ExchangeMessage::NextScene)]);
    assert_eq!(c.wire(), ClientWire::Text);
    let step = c.on_timeout();
    assert_eq!(step.effects, vec![Effect::Write(ClientWire::Text, ExchangeMessage::Heartbeat)]);
    assert_eq!(c.outgoing(&ExchangeMessage::Heartbeat), Frame::Text("{\"Heartbeat\":null}".to_string()));
    let mut b = Client::new(MAILBOX);
    b.handle_ws_message(&binary(ExchangeMessage::Request(Event::Register(id()))));
    b.handle_ws_message(&text(ExchangeMessage::NextScene));
    assert_eq!(b.wire(), ClientWire::Binary);
    assert_eq!(b.outgoing(&ExchangeMessage::Heartbeat), Frame::Binary(vec![7]));
    assert_eq!(frame_of(ClientWire::Binary, &ExchangeMessage::Heartbeat), Frame::Binary(vec![7]));
}

#[test]
fn scenario_heartbeat_timeout() {
    let mut c = registered();
    let first = c.on_timeout();
    assert_eq!(first.result, Ok(()));
    assert_eq!(first.effects, vec![Effect::Write(ClientWire::Text, ExchangeMessage::Heartbeat)]);
    assert!(c.watchdog_sent());
    // No answer arrives.
    let second = c.on_timeout();
    assert_eq!(
        second.result,
        Err(ClientHandlerError::ConnectionLost { client_id: Some(id()) })
    );
    assert!(ClientHandlerError::ConnectionLost { client_id: Some(id()) }.is_fatal());
    assert_eq!(second.effects, to_all(InternalEventMessageServer::RemoveTargetClient(id())));
    assert!(c.is_closed());
    // The session is over: nothing more happens.
    let third = c.handle(HandlerInput::Timeout);
    assert!(third.effects.is_empty());
    assert!(third.result.is_err());
}

#[test]
fn an_answer_clears_the_pending_heartbeat() {
    let mut c = registered();
    c.on_timeout();
    assert!(c.watchdog_sent());
    let step = c.handle_ws_message(&text(ExchangeMessage::HeartbeatAck));
    assert_eq!(step.result, Ok(()));
    assert!(step.effects.is_empty());
    assert!(!c.watchdog_sent());
    // The next timeout is a first one again.
    let step = c.on_timeout();
    assert_eq!(step.result, Ok(()));
    assert!(c.watchdog_sent());
    assert!(!c.is_closed());
    // Also before registration.
    let mut u = Client::new(MAILBOX);
    u.on_timeout();
    u.handle_ws_message(&binary(ExchangeMessage::HeartbeatAck));
    assert!(!u.watchdog_sent());
    assert_eq!(u.rejected(), 0);
}

#[test]
fn closing_removes_the_client_everywhere() {
    for end in [Inbound::Close, Inbound::Ended] {
        let mut c = registered();
        let step = c.handle_ws_message(&end);
        assert_eq!(
            step.result,
            Err(ClientHandlerError::ConnectionLost { client_id: Some(id()) })
        );
        assert_eq!(step.effects, to_all(InternalEventMessageServer::RemoveTargetClient(id())));
        assert!(c.is_closed());
    }
    let mut c = registered();
    let step = c.handle_ws_message(&Inbound::Failed);
    assert_eq!(step.result, Err(ClientHandlerError::WsError));
    assert_eq!(step.effects.len(), 4);
    // A client that never registered is in no table.
    let mut u = Client::new(MAILBOX);
    let step = u.handle_ws_message(&Inbound::Close);
    assert_eq!(step.result, Err(ClientHandlerError::ConnectionLost { client_id: None }));
    assert!(step.effects.is_empty());
}

#[test]
fn which_errors_end_a_session() {
    let m = ExchangeMessage::Heartbeat;
    for (e, fatal) in [
        (ClientHandlerError::FailedToConnectWithSubscriber, true),
        (ClientHandlerError::WsError, true),
        (ClientHandlerError::ConnectionLost { client_id: None }, true),
        (ClientHandlerError::SendExchangeMessage, true),
        (ClientHandlerError::UnregisteredSubscriber(m), false),
        (ClientHandlerError::UnrecognizableMessage, false),
        (ClientHandlerError::InvalidExchangeMessage(m), false),
        (ClientHandlerError::FailureDecodingBinaryExchangeMessage, false),
        (ClientHandlerError::SendActionMessageWithSender, false),
    ] {
        assert_eq!(e.is_fatal(), fatal, "{e:?}");
    }
}
