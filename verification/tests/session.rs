use lamarrs::action_messages::{Action, Event};
use lamarrs::client_handler::ClientWire;
use lamarrs::exchange_messages::{AckResult, ExchangeMessage, NackResult};
use lamarrs::identity::{
    fresh_identity, identity_from_random, ClientIdAndLocation, RelativeLocation, Service,
};
use lamarrs::payload::{ColourRgb, ErrorDescription};
use lamarrs::server_handler::{
    classify_press, Client, GpioInputEvents, OledEvents, SessionCommand, SessionEvent,
};
use lamarrs::websocket_handler::WsError;

const UUID: u128 = 0x1234;

fn request(e: Event) -> SessionCommand {
    SessionCommand::Send(ExchangeMessage::Request(e))
}

#[test]
fn presses_are_told_apart_by_their_length() {
    assert_eq!(classify_press(0), GpioInputEvents::NextTrigger);
    assert_eq!(classify_press(1500), GpioInputEvents::NextTrigger);
    assert_eq!(classify_press(1501), GpioInputEvents::Retrigger);
    assert_eq!(classify_press(u64::MAX), GpioInputEvents::Retrigger);
}

#[test]
fn an_embedded_client_registers_and_subscribes_to_colour() {
    let mut c = Client::embedded(UUID);
    let id = ClientIdAndLocation::new(UUID, None);
    assert_eq!(c.identity(), id);
    assert_eq!(c.wire(), ClientWire::Binary);
    assert!(!c.is_connected());
    let commands = c.server_handler(SessionEvent::Connected);
    assert_eq!(
        commands,
        vec![
            SessionCommand::Show(OledEvents::ConnectedToLamarrs(true, None)),
            request(Event::Register(id)),
            SessionCommand::Show(OledEvents::RegisteredWithUuid(UUID)),
            request(Event::SubscribeToService(Service::Colour, id)),
        ]
    );
    assert!(c.is_connected());
}

#[test]
fn a_desktop_client_subscribes_to_playback_and_midi() {
    let mut c = Client::desktop(UUID, Some(RelativeLocation::Left));
    let id = ClientIdAndLocation::new(UUID, Some(RelativeLocation::Left));
    assert_eq!(c.wire(), ClientWire::Text);
    let commands = c.server_handler(SessionEvent::Connected);
    assert_eq!(
        &commands[1..],
        &[
            request(Event::Register(id)),
            SessionCommand::Show(OledEvents::RegisteredWithUuid(UUID)),
            request(Event::SubscribeToService(Service::AudioPlayer, id)),
            request(Event::SubscribeToService(Service::Midi, id)),
        ]
    );
    let mut other = Client::new(id, ClientWire::Binary, vec![]);
    assert_eq!(other.server_handler(SessionEvent::Connected).len(), 3);
}

#[test]
fn a_failed_connection_is_tried_again_after_three_seconds() {
    let mut c = Client::embedded(UUID);
    assert_eq!(
        c.server_handler(SessionEvent::ConnectionFailed),
        vec![SessionCommand::WaitThenConnect(3)]
    );
    assert!(!c.is_connected());
}

#[test]
fn messages_of_the_server() {
    let mut c = Client::embedded(UUID);
    c.server_handler(SessionEvent::Connected);
    let action = Action::ChangeColour(ColourRgb::new(1, 2, 3));
    assert_eq!(
        c.server_handler(SessionEvent::Message(ExchangeMessage::Scene(Event::PerformAction(action)))),
        vec![SessionCommand::Perform(action)]
    );
    assert_eq!(
        c.server_handler(SessionEvent::Message(ExchangeMessage::Heartbeat)),
        vec![SessionCommand::Send(ExchangeMessage::HeartbeatAck)]
    );
    for m in [
        ExchangeMessage::Ack(AckResult::Success),
        ExchangeMessage::Nack(NackResult::AlreadySubscribed),
        ExchangeMessage::Error(ErrorDescription::new("bad").unwrap()),
    ] {
        assert_eq!(
            c.server_handler(SessionEvent::Message(m)),
            vec![SessionCommand::Show(OledEvents::WsMessage(m))]
        );
        assert_eq!(Client::process_message(m), vec![SessionCommand::Show(OledEvents::WsMessage(m))]);
    }
    for m in [
        ExchangeMessage::NextScene,
        ExchangeMessage::HeartbeatAck,
        ExchangeMessage::Request(Event::PerformAction(action)),
        ExchangeMessage::Scene(Event::Register(c.identity())),
    ] {
        assert!(c.server_handler(SessionEvent::Message(m)).is_empty());
    }
    assert!(c.server_handler(SessionEvent::Malformed).is_empty());
    assert!(c.is_connected());
}

#[test]
fn buttons_trigger_scenes() {
    let mut c = Client::embedded(UUID);
    // Not connected: nothing to send to.
    assert!(c.server_handler(SessionEvent::Gpio(GpioInputEvents::NextTrigger)).is_empty());
    c.server_handler(SessionEvent::Connected);
    assert_eq!(
        c.server_handler(SessionEvent::Gpio(GpioInputEvents::NextTrigger)),
        vec![SessionCommand::Send(ExchangeMessage::NextScene)]
    );
    assert_eq!(
        c.server_handler(SessionEvent::Gpio(GpioInputEvents::Retrigger)),
        vec![SessionCommand::Send(ExchangeMessage::RetriggerScene)]
    );
}

#[test]
fn a_frame_error_starts_over() {
    let mut c = Client::embedded(UUID);
    c.server_handler(SessionEvent::Connected);
    for e in [WsError::InvalidResponse, WsError::FrameTooLarge, WsError::Tcp] {
        c.server_handler(SessionEvent::Connected);
        assert_eq!(
            c.server_handler(SessionEvent::FrameError(e)),
            vec![
                SessionCommand::Show(OledEvents::ConnectedToLamarrs(false, None)),
                SessionCommand::Reconnect,
            ]
        );
        assert!(!c.is_connected());
        assert!(c.server_handler(SessionEvent::Message(ExchangeMessage::Heartbeat)).is_empty());
        assert!(c.server_handler(SessionEvent::FrameError(e)).is_empty());
    }
}

#[test]
fn identities_are_version_four() {
    let made = identity_from_random(0);
    assert_eq!(made.uuid, 0x0000_0000_0000_4000_8000_0000_0000_0000);
    assert_eq!(made.location, None);
    let all = identity_from_random(u128::MAX);
    assert_eq!(all.uuid, 0xffff_ffff_ffff_4fff_bfff_ffff_ffff_ffff);
    let random = 0x0123_4567_89ab_cdef_0123_4567_89ab_cdef_u128;
    assert_eq!(
        identity_from_random(random).uuid,
        uuid::Builder::from_random_bytes(random.to_be_bytes()).into_uuid().as_u128()
    );
    for _ in 0..8 {
        let fresh = fresh_identity(Some(RelativeLocation::Right));
        assert_eq!(fresh.location, Some(RelativeLocation::Right));
        let id = uuid::Uuid::from_u128(fresh.uuid);
        assert_eq!(id.get_version_num(), 4);
        assert_eq!(fresh.uuid & 0xf000_c000_0000_0000_0000, 0x4000_8000_0000_0000_0000);
    }
    assert_ne!(fresh_identity(None).uuid, fresh_identity(None).uuid);
}
