//! The server's actors wired together in one process: handlers, service
//! actors, sequencer and ingress, with queues in place of sockets.

use std::collections::{HashMap, VecDeque};

use lamarrs::action_messages::{Action, Event};
use lamarrs::binary::decode_binary;
use lamarrs::client_handler::{Client, ClientWire, Effect, Frame, HandlerStep, Inbound};
use lamarrs::exchange_messages::{AckResult, ExchangeMessage, NackResult};
use lamarrs::identity::{ClientIdAndLocation, RelativeLocation, Service};
use lamarrs::json::{decode_text, encode_text};
use lamarrs::mqtt::{on_mqtt_published, MqttCommand};
use lamarrs::payload::{ColourRgb, Subtitles};
use lamarrs::sequencer::{Sequence, SequenceStep, Sequencer, SequencerCommand};
use lamarrs::services::{InternalEventMessageServer, ServiceActor};

struct Connection {
    client: Client,
    outbox: VecDeque<ExchangeMessage>,
    /// What was written to the socket, read back.
    received: Vec<ExchangeMessage>,
}

struct Fabric {
    actors: Vec<ServiceActor>,
    sequencer: Sequencer,
    connections: HashMap<u64, Connection>,
    next_mailbox: u64,
    /// Milliseconds slept by the sequencer so far, and what was dispatched when.
    clock: u64,
    scenes: Vec<(u64, Service)>,
}

impl Fabric {
    fn new(steps: Vec<SequenceStep>) -> Self {
        Fabric {
            actors: [Service::Subtitle, Service::Colour, Service::AudioPlayer, Service::Midi]
                .into_iter()
                .map(ServiceActor::new)
                .collect(),
            sequencer: Sequencer::new(Sequence { version: 1, sequence: VecDeque::from(steps) }),
            connections: HashMap::new(),
            next_mailbox: 1,
            clock: 0,
            scenes: Vec::new(),
        }
    }

    fn connect(&mut self) -> u64 {
        let mailbox = self.next_mailbox;
        self.next_mailbox += 1;
        self.connections.insert(
            mailbox,
            Connection { client: Client::new(mailbox), outbox: VecDeque::new(), received: Vec::new() },
        );
        mailbox
    }

    fn actor(&mut self, service: Service) -> &mut ServiceActor {
        self.actors.iter_mut().find(|a| a.service() == service).unwrap()
    }

    fn to_service(&mut self, service: Service, event: InternalEventMessageServer) {
        let outcome = self.actor(service).handle(event);
        for d in outcome.deliveries {
            // A mailbox that is gone loses the message and nothing else.
            if let Some(c) = self.connections.get_mut(&d.mailbox) {
                c.outbox.push_back(d.message);
            }
        }
    }

    fn sequencer_hears(&mut self, message: ExchangeMessage) {
        for command in self.sequencer.handle(message) {
            match command {
                SequencerCommand::Dispatch(service, event) => {
                    self.scenes.push((self.clock, service));
                    self.to_service(service, event);
                }
                SequencerCommand::Sleep(ms) => self.clock += ms,
            }
        }
    }

    fn perform(&mut self, mailbox: u64, step: HandlerStep) {
        for effect in step.effects {
            match effect {
                Effect::ToService(service, event) => self.to_service(service, event),
                Effect::ToSequencer(m) => self.sequencer_hears(m),
                Effect::Reply(m) => self.connections.get_mut(&mailbox).unwrap().outbox.push_back(m),
                Effect::Write(wire, m) => {
                    let c = self.connections.get_mut(&mailbox).unwrap();
                    assert_eq!(wire, c.client.wire());
                    c.received.push(m);
                }
            }
        }
        self.flush();
    }

    /// Every handler writes what is in its outbox.
    fn flush(&mut self) {
        for c in self.connections.values_mut() {
            while let Some(m) = c.outbox.pop_front() {
                let read = match c.client.outgoing(&m) {
                    Frame::Text(text) => decode_text(&text),
                    Frame::Binary(bytes) => decode_binary(&bytes),
                };
                assert_eq!(read, Some(m));
                c.received.push(m);
            }
        }
    }

    fn sends(&mut self, mailbox: u64, m: ExchangeMessage) {
        let step = self
            .connections
            .get_mut(&mailbox)
            .unwrap()
            .client
            .handle_ws_message(&Inbound::Text(encode_text(&m)));
        self.perform(mailbox, step);
    }

    fn times_out(&mut self, mailbox: u64) -> bool {
        let step = self.connections.get_mut(&mailbox).unwrap().client.on_timeout();
        let over = step.result.is_err();
        self.perform(mailbox, step);
        over
    }

    fn disconnects(&mut self, mailbox: u64) {
        let step =
            self.connections.get_mut(&mailbox).unwrap().client.handle_ws_message(&Inbound::Close);
        self.perform(mailbox, step);
        self.connections.remove(&mailbox);
    }

    fn publish(&mut self, payload: &str) {
        match on_mqtt_published(payload.as_bytes()) {
            MqttCommand::Dispatch(service, event) => {
                self.to_service(service, event);
                self.flush();
            }
            other => panic!("dropped: {other:?}"),
        }
    }

    fn recv(&mut self, mailbox: u64) -> Option<ExchangeMessage> {
        let c = self.connections.get_mut(&mailbox).unwrap();
        if c.received.is_empty() {
            None
        } else {
            Some(c.received.remove(0))
        }
    }

    fn register(&mut self, mailbox: u64, uuid: u128, location: Option<RelativeLocation>) {
        self.sends(
            mailbox,
            ExchangeMessage::Request(Event::Register(ClientIdAndLocation::new(uuid, location))),
        );
    }

    fn subscribe(&mut self, mailbox: u64, service: Service, uuid: u128, location: Option<RelativeLocation>) {
        self.sends(
            mailbox,
            ExchangeMessage::Request(Event::SubscribeToService(
                service,
                ClientIdAndLocation::new(uuid, location),
            )),
        );
    }
}

fn colour(r: u8, g: u8, b: u8) -> ExchangeMessage {
    ExchangeMessage::Scene(Event::PerformAction(Action::ChangeColour(ColourRgb::new(r, g, b))))
}

const SUCCESS: ExchangeMessage = ExchangeMessage::Ack(AckResult::Success);

#[test]
fn test_create_ws_for_new_client() {
    let mut fabric = Fabric::new(vec![]);
    let client = fabric.connect();
    fabric.register(client, 1, Some(RelativeLocation::Center));
    assert_eq!(fabric.recv(client), Some(SUCCESS));
    assert_eq!(fabric.recv(client), None);
}

#[test]
fn test_new_client_tries_to_subscribe_without_registering() {
    let mut fabric = Fabric::new(vec![]);
    let client = fabric.connect();
    fabric.subscribe(client, Service::Subtitle, 1, Some(RelativeLocation::Center));
    assert_eq!(fabric.recv(client), Some(ExchangeMessage::Nack(NackResult::NotSubscribed)));
    assert_eq!(fabric.actor(Service::Subtitle).len(), 0);
}

#[test]
fn test_new_client_subscribes_to_subtitles() {
    let mut fabric = Fabric::new(vec![]);
    let client = fabric.connect();
    fabric.register(client, 1, Some(RelativeLocation::Center));
    assert_eq!(fabric.recv(client), Some(SUCCESS));
    fabric.subscribe(client, Service::Subtitle, 1, Some(RelativeLocation::Center));
    assert_eq!(fabric.recv(client), Some(SUCCESS));
    assert_eq!(fabric.actor(Service::Subtitle).len(), 1);
}

#[test]
fn test_new_client_subscribes_to_color() {
    let mut fabric = Fabric::new(vec![]);
    let client = fabric.connect();
    fabric.register(client, 1, Some(RelativeLocation::Center));
    assert_eq!(fabric.recv(client), Some(SUCCESS));
    fabric.subscribe(client, Service::Colour, 1, Some(RelativeLocation::Center));
    assert_eq!(fabric.recv(client), Some(SUCCESS));
    assert_eq!(fabric.actor(Service::Colour).len(), 1);
}

fn five_clients(fabric: &mut Fabric) -> Vec<(u64, RelativeLocation)> {
    [
        RelativeLocation::Left,
        RelativeLocation::Left,
        RelativeLocation::Center,
        RelativeLocation::Right,
        RelativeLocation::Center,
    ]
    .into_iter()
    .map(|location| (fabric.connect(), location))
    .collect()
}

#[test]
fn test_several_clients_connect_and_register() {
    let mut fabric = Fabric::new(vec![]);
    let clients = five_clients(&mut fabric);
    for (client, location) in &clients {
        fabric.register(*client, *client as u128, Some(*location));
    }
    for (client, _) in &clients {
        assert_eq!(fabric.recv(*client), Some(SUCCESS));
    }
}

#[test]
fn test_several_clients_subscribe_to_color_different_locations_gets_different_messages() {
    let mut fabric = Fabric::new(vec![]);
    let clients = five_clients(&mut fabric);
    for (client, location) in &clients {
        fabric.register(*client, *client as u128, Some(*location));
        fabric.recv(*client);
        fabric.subscribe(*client, Service::Colour, *client as u128, Some(*location));
        fabric.recv(*client);
    }
    let rounds = [
        ("Center", RelativeLocation::Center, (255, 0, 0)),
        ("Right", RelativeLocation::Right, (0, 0, 255)),
        ("Left", RelativeLocation::Left, (255, 255, 255)),
    ];
    for (name, target, (r, g, b)) in rounds {
        fabric.publish(&format!(
            "{{\"Request\":[{{\"PerformAction\":{{\"ChangeColour\":{{\"r\":{r},\"g\":{g},\"b\":{b}}}}}}},\"{name}\"]}}"
        ));
        for (client, location) in &clients {
            if *location == target {
                assert_eq!(fabric.recv(*client), Some(colour(r, g, b)));
            }
            assert_eq!(fabric.recv(*client), None);
        }
    }
}

#[test]
fn scenario_two_clients_at_different_locations() {
    let mut fabric = Fabric::new(vec![]);
    let (a, b) = (fabric.connect(), fabric.connect());
    fabric.register(a, 0xa1, Some(RelativeLocation::Left));
    fabric.subscribe(a, Service::Colour, 0xa1, Some(RelativeLocation::Left));
    fabric.register(b, 0xb1, Some(RelativeLocation::Right));
    fabric.subscribe(b, Service::Colour, 0xb1, Some(RelativeLocation::Right));
    for c in [a, b] {
        assert_eq!(fabric.recv(c), Some(SUCCESS));
        assert_eq!(fabric.recv(c), Some(SUCCESS));
    }
    fabric.publish(
        "{\"Request\":[{\"PerformAction\":{\"ChangeColour\":{\"r\":255,\"g\":0,\"b\":0}}},\"Left\"]}",
    );
    assert_eq!(fabric.recv(a), Some(colour(255, 0, 0)));
    assert_eq!(fabric.recv(a), None);
    assert_eq!(fabric.recv(b), None);
}

#[test]
fn scenario_broadcast_without_location() {
    let mut fabric = Fabric::new(vec![]);
    let (a, b) = (fabric.connect(), fabric.connect());
    fabric.register(a, 0xa1, None);
    fabric.subscribe(a, Service::Subtitle, 0xa1, None);
    fabric.register(b, 0xb1, Some(RelativeLocation::Center));
    fabric.subscribe(b, Service::Subtitle, 0xb1, Some(RelativeLocation::Center));
    for c in [a, b] {
        fabric.recv(c);
        fabric.recv(c);
    }
    fabric.publish("{\"Request\":[{\"PerformAction\":{\"ShowSubtitles\":\"hello\"}},null]}");
    assert_eq!(
        fabric.recv(a),
        Some(ExchangeMessage::Scene(Event::PerformAction(Action::ShowSubtitles(
            Subtitles::new("hello").unwrap()
        ))))
    );
    assert_eq!(fabric.recv(b), None);
}

#[test]
fn scenario_subscribing_twice() {
    let mut fabric = Fabric::new(vec![]);
    let a = fabric.connect();
    fabric.register(a, 0xa1, None);
    assert_eq!(fabric.recv(a), Some(SUCCESS));
    fabric.subscribe(a, Service::AudioPlayer, 0xa1, None);
    assert_eq!(fabric.recv(a), Some(SUCCESS));
    fabric.subscribe(a, Service::AudioPlayer, 0xa1, None);
    assert_eq!(fabric.recv(a), Some(ExchangeMessage::Nack(NackResult::AlreadySubscribed)));
    assert_eq!(fabric.actor(Service::AudioPlayer).len(), 1);
}

#[test]
fn scenario_registering_again_on_a_new_connection() {
    let mut fabric = Fabric::new(vec![]);
    let first = fabric.connect();
    fabric.register(first, 0xa1, None);
    fabric.subscribe(first, Service::Colour, 0xa1, None);
    // The connection is lost without a word: the entry stays where it is.
    fabric.connections.remove(&first);
    assert_eq!(fabric.actor(Service::Colour).len(), 1);
    let second = fabric.connect();
    fabric.register(second, 0xa1, None);
    // The colour service had an entry and refreshed it; the others had none.
    assert_eq!(fabric.recv(second), Some(ExchangeMessage::Ack(AckResult::UpdatedSubscription)));
    assert_eq!(fabric.recv(second), Some(SUCCESS));
    assert_eq!(fabric.recv(second), None);
    fabric.publish(
        "{\"Request\":[{\"PerformAction\":{\"ChangeColour\":{\"r\":1,\"g\":2,\"b\":3}}},null]}",
    );
    assert_eq!(fabric.recv(second), Some(colour(1, 2, 3)));
}

#[test]
fn scenario_the_sequencer_advances_and_holds() {
    let blue = Action::ChangeColour(ColourRgb::new(0, 0, 255));
    let done = Action::ShowSubtitles(Subtitles::new("done").unwrap());
    let mut fabric = Fabric::new(vec![
        SequenceStep { name: "step1".into(), action: blue, target_location: None, duration: Some(1000) },
        SequenceStep { name: "step2".into(), action: done, target_location: None, duration: None },
    ]);
    let (lamp, screen, operator) = (fabric.connect(), fabric.connect(), fabric.connect());
    fabric.register(lamp, 1, None);
    fabric.subscribe(lamp, Service::Colour, 1, None);
    fabric.register(screen, 2, None);
    fabric.subscribe(screen, Service::Subtitle, 2, None);
    fabric.register(operator, 3, None);
    for c in [lamp, screen] {
        fabric.recv(c);
        fabric.recv(c);
    }
    fabric.sends(operator, ExchangeMessage::NextScene);
    assert_eq!(fabric.recv(lamp), Some(ExchangeMessage::Scene(Event::PerformAction(blue))));
    assert_eq!(fabric.recv(screen), Some(ExchangeMessage::Scene(Event::PerformAction(done))));
    assert_eq!(fabric.scenes, vec![(0, Service::Colour), (1000, Service::Subtitle)]);
    // The queue is empty: another trigger does nothing.
    fabric.sends(operator, ExchangeMessage::NextScene);
    assert_eq!(fabric.recv(lamp), None);
    assert_eq!(fabric.recv(screen), None);
    assert_eq!(fabric.scenes.len(), 2);
    // A retrigger plays the last scene once more.
    fabric.sends(operator, ExchangeMessage::RetriggerScene);
    assert_eq!(fabric.recv(screen), Some(ExchangeMessage::Scene(Event::PerformAction(done))));
}

#[test]
fn scenario_a_client_that_stops_answering() {
    let mut fabric = Fabric::new(vec![]);
    let a = fabric.connect();
    fabric.register(a, 0xa1, Some(RelativeLocation::Left));
    for service in [Service::Subtitle, Service::Colour, Service::AudioPlayer, Service::Midi] {
        fabric.subscribe(a, service, 0xa1, Some(RelativeLocation::Left));
        assert_eq!(fabric.actor(service).len(), 1);
    }
    while fabric.recv(a).is_some() {}
    assert!(!fabric.times_out(a));
    assert_eq!(fabric.recv(a), Some(ExchangeMessage::Heartbeat));
    // No answer arrives.
    assert!(fabric.times_out(a));
    for service in [Service::Subtitle, Service::Colour, Service::AudioPlayer, Service::Midi] {
        assert_eq!(fabric.actor(service).len(), 0);
    }
    assert!(fabric.connections[&a].client.is_closed());
}

#[test]
fn a_client_that_leaves_is_removed_everywhere() {
    let mut fabric = Fabric::new(vec![]);
    let (a, b) = (fabric.connect(), fabric.connect());
    for (c, uuid) in [(a, 0xa1), (b, 0xb1)] {
        fabric.register(c, uuid, None);
        fabric.subscribe(c, Service::Colour, uuid, None);
        fabric.subscribe(c, Service::Midi, uuid, None);
    }
    fabric.disconnects(a);
    assert_eq!(fabric.actor(Service::Colour).len(), 1);
    assert_eq!(fabric.actor(Service::Midi).len(), 1);
    assert!(fabric.actor(Service::Colour).target(0xb1).is_some());
    // An unsubscribe takes the other out of one service only.
    fabric.sends(
        b,
        ExchangeMessage::Request(Event::UnsubscribeFromService(
            Service::Colour,
            ClientIdAndLocation::new(0xb1, None),
        )),
    );
    assert_eq!(fabric.actor(Service::Colour).len(), 0);
    assert_eq!(fabric.actor(Service::Midi).len(), 1);
}

#[test]
fn every_frame_of_a_session_is_in_the_encoding_of_its_first() {
    let mut fabric = Fabric::new(vec![]);
    let a = fabric.connect();
    fabric.register(a, 0xa1, None);
    assert_eq!(fabric.connections[&a].client.wire(), ClientWire::Text);
    fabric.subscribe(a, Service::Colour, 0xa1, None);
    fabric.publish(
        "{\"Request\":[{\"PerformAction\":{\"ChangeColour\":{\"r\":1,\"g\":2,\"b\":3}}},null]}",
    );
    fabric.times_out(a);
    // `perform` and `flush` held every frame against the encoding of the session.
    assert_eq!(fabric.connections[&a].received.len(), 4);
    assert_eq!(fabric.connections[&a].client.wire(), ClientWire::Text);
}
