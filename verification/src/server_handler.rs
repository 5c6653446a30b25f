//! The session of a client with the server: connect, register, subscribe,
//! answer the watchdog, pass scenes on, and start over when the connection
//! fails.
//!
//! The session decides; whoever runs it connects, reads and writes the
//! socket, watches the buttons, and performs the commands of each step in
//! order.

use vstd::prelude::*;
use crate::action_messages::{Action, Event};
use crate::client_handler::ClientWire;
use crate::exchange_messages::ExchangeMessage;
use crate::identity::{ClientIdAndLocation, RelativeLocation, Service, Uuid};
use crate::text::BoundedString;
use crate::websocket_handler::WsError;

verus! {

/// Seconds to wait before another attempt to connect.
pub const RECONNECT_SECONDS: u64 = 3;

/// Longest press of the button, in milliseconds, that asks for the next
/// scene; a longer one asks for the last scene again.
pub const SHORT_PRESS_MS: u64 = 1500;

/// What the operator's button asks for.
#[derive(Clone, Copy, Debug, PartialEq, Eq, Structural)]
pub enum GpioInputEvents {
    /// Trigger the next scene.
    NextTrigger,
    /// Trigger the last scene again.
    Retrigger,
}

/// What a press of the given length asks for.
pub fn classify_press(duration_ms: u64) -> (e: GpioInputEvents)
    ensures
        e == (if duration_ms <= 1500 {
            GpioInputEvents::NextTrigger
        } else {
            GpioInputEvents::Retrigger
        }),
{
    if duration_ms <= SHORT_PRESS_MS {
        GpioInputEvents::NextTrigger
    } else {
        GpioInputEvents::Retrigger
    }
}

/// What the status display is told.
#[derive(Clone, Copy, Debug, PartialEq, Eq)]
pub enum OledEvents {
    /// Whether the network is up.
    ConnectedToWifi(bool),
    /// Whether the server is reached, with a remark.
    ConnectedToLamarrs(bool, Option<BoundedString<15>>),
    /// The identifier the client registered with.
    RegisteredWithUuid(Uuid),
    /// A message of the server to show.
    WsMessage(ExchangeMessage),
}

/// What happens to a session.
#[derive(Clone, Copy, Debug, PartialEq, Eq)]
pub enum SessionEvent {
    /// The handshake succeeded.
    Connected,
    /// The connection or the handshake failed.
    ConnectionFailed,
    /// A message of the server.
    Message(ExchangeMessage),
    /// A frame of the server that is no message.
    Malformed,
    /// A frame could not be read, or the connection was closed.
    FrameError(WsError),
    /// The operator pressed the button.
    Gpio(GpioInputEvents),
}

/// What a session asks to be done.
#[derive(Clone, Copy, Debug, PartialEq, Eq)]
pub enum SessionCommand {
    /// Write the message to the server.
    Send(ExchangeMessage),
    /// Tell the status display.
    Show(OledEvents),
    /// Hand the action to whatever performs it here.
    Perform(Action),
    /// Wait this many seconds, then connect.
    WaitThenConnect(u64),
    /// Drop the connection and connect.
    Reconnect,
}

/// The state of a session.
pub struct SessionState {
    /// Who the client is.
    pub identity: ClientIdAndLocation,
    /// The encoding the client writes in.
    pub wire: ClientWire,
    /// The services the client subscribes to, in order.
    pub services: Seq<Service>,
    /// Whether the client is connected.
    pub connected: bool,
}

/// The subscriptions that open a session.
pub open spec fn subscriptions(identity: ClientIdAndLocation, services: Seq<Service>) -> Seq<
    SessionCommand,
> {
    services.map_values(
        |s: Service|
            SessionCommand::Send(ExchangeMessage::Request(Event::SubscribeToService(s, identity))),
    )
}

/// What opens a session: the display is told, the client registers, and
/// then subscribes to each of its services.
pub open spec fn opening(s: SessionState) -> Seq<SessionCommand> {
    seq![
        SessionCommand::Show(OledEvents::ConnectedToLamarrs(true, None)),
        SessionCommand::Send(ExchangeMessage::Request(Event::Register(s.identity))),
        SessionCommand::Show(OledEvents::RegisteredWithUuid(s.identity.uuid)),
    ] + subscriptions(s.identity, s.services)
}

/// What a message of the server leads to: a scene is performed, a
/// heartbeat is answered at once and not shown, an outcome is shown, and
/// anything else is passed over.
pub open spec fn on_message(m: ExchangeMessage) -> Seq<SessionCommand> {
    match m {
        ExchangeMessage::Scene(Event::PerformAction(action)) => seq![
            SessionCommand::Perform(action),
        ],
        ExchangeMessage::Heartbeat => seq![SessionCommand::Send(ExchangeMessage::HeartbeatAck)],
        ExchangeMessage::Ack(_) => seq![SessionCommand::Show(OledEvents::WsMessage(m))],
        ExchangeMessage::Nack(_) => seq![SessionCommand::Show(OledEvents::WsMessage(m))],
        ExchangeMessage::Error(_) => seq![SessionCommand::Show(OledEvents::WsMessage(m))],
        _ => Seq::empty(),
    }
}

/// The message that a press of the button sends.
pub open spec fn trigger_of(e: GpioInputEvents) -> ExchangeMessage {
    match e {
        GpioInputEvents::NextTrigger => ExchangeMessage::NextScene,
        GpioInputEvents::Retrigger => ExchangeMessage::RetriggerScene,
    }
}

/// The state after an event.
pub open spec fn after(s: SessionState, e: SessionEvent) -> SessionState {
    match e {
        SessionEvent::Connected => SessionState { connected: true, ..s },
        SessionEvent::ConnectionFailed => SessionState { connected: false, ..s },
        SessionEvent::FrameError(_) => SessionState { connected: false, ..s },
        _ => s,
    }
}

/// The commands of an event, in order.
pub open spec fn commands_of(s: SessionState, e: SessionEvent) -> Seq<SessionCommand> {
    match e {
        SessionEvent::Connected => opening(s),
        SessionEvent::ConnectionFailed => seq![SessionCommand::WaitThenConnect(3)],
        SessionEvent::FrameError(_) => if s.connected {
            seq![
                SessionCommand::Show(OledEvents::ConnectedToLamarrs(false, None)),
                SessionCommand::Reconnect,
            ]
        } else {
            Seq::empty()
        },
        SessionEvent::Message(m) => if s.connected {
            on_message(m)
        } else {
            Seq::empty()
        },
        SessionEvent::Malformed => Seq::empty(),
        SessionEvent::Gpio(g) => if s.connected {
            seq![SessionCommand::Send(trigger_of(g))]
        } else {
            Seq::empty()
        },
    }
}

/// The session of a client.
pub struct Client {
    identity: ClientIdAndLocation,
    wire: ClientWire,
    services: Vec<Service>,
    connected: bool,
}

impl View for Client {
    type V = SessionState;

    closed spec fn view(&self) -> SessionState {
        SessionState {
            identity: self.identity,
            wire: self.wire,
            services: self.services@,
            connected: self.connected,
        }
    }
}

impl Client {
    /// The session of a client with the given identity, encoding and
    /// services, not yet connected.
    pub fn new(identity: ClientIdAndLocation, wire: ClientWire, services: Vec<Service>) -> (c:
        Self)
        ensures
            c@.identity == identity,
            c@.wire == wire,
            c@.services == services@,
            !c@.connected,
    {
        Client { identity, wire, services, connected: false }
    }

    /// The session of an embedded client: no location, the binary encoding,
    /// and the colour service.
    pub fn embedded(uuid: Uuid) -> (c: Self)
        ensures
            c@.identity == (ClientIdAndLocation { uuid, location: None }),
            c@.wire == ClientWire::Binary,
            c@.services == seq![Service::Colour],
            !c@.connected,
    {
        let mut services: Vec<Service> = Vec::new();
        services.push(Service::Colour);
        proof {
            assert(services@ =~= seq![Service::Colour]);
        }
        Client {
            identity: ClientIdAndLocation { uuid, location: None },
            wire: ClientWire::Binary,
            services,
            connected: false,
        }
    }

    /// The session of a desktop client: the text encoding, and the playback
    /// and MIDI services.
    pub fn desktop(uuid: Uuid, location: Option<RelativeLocation>) -> (c: Self)
        ensures
            c@.identity == (ClientIdAndLocation { uuid, location }),
            c@.wire == ClientWire::Text,
            c@.services == seq![Service::AudioPlayer, Service::Midi],
            !c@.connected,
    {
        let mut services: Vec<Service> = Vec::new();
        services.push(Service::AudioPlayer);
        services.push(Service::Midi);
        proof {
            assert(services@ =~= seq![Service::AudioPlayer, Service::Midi]);
        }
        Client {
            identity: ClientIdAndLocation { uuid, location },
            wire: ClientWire::Text,
            services,
            connected: false,
        }
    }

    /// Who the client is.
    pub fn identity(&self) -> (r: ClientIdAndLocation)
        ensures
            r == self@.identity,
    {
        self.identity
    }

    /// The encoding the client writes in.
    pub fn wire(&self) -> (r: ClientWire)
        ensures
            r == self@.wire,
    {
        self.wire
    }

    /// Whether the client is connected.
    pub fn is_connected(&self) -> (r: bool)
        ensures
            r == self@.connected,
    {
        self.connected
    }

    /// One step of the session.
    pub fn server_handler(&mut self, event: SessionEvent) -> (commands: Vec<SessionCommand>)
        ensures
            final(self)@ == after(old(self)@, event),
            commands@ == commands_of(old(self)@, event),
    {
        match event {
            SessionEvent::Connected => {
                self.connected = true;
                self.opening_commands()
            },
            SessionEvent::ConnectionFailed => {
                self.connected = false;
                let mut v: Vec<SessionCommand> = Vec::new();
                v.push(SessionCommand::WaitThenConnect(RECONNECT_SECONDS));
                proof {
                    assert(v@ =~= seq![SessionCommand::WaitThenConnect(3)]);
                }
                v
            },
            SessionEvent::FrameError(_) => {
                let mut v: Vec<SessionCommand> = Vec::new();
                if self.connected {
                    v.push(SessionCommand::Show(OledEvents::ConnectedToLamarrs(false, None)));
                    v.push(SessionCommand::Reconnect);
                    proof {
                        assert(v@ =~= seq![
                            SessionCommand::Show(OledEvents::ConnectedToLamarrs(false, None)),
                            SessionCommand::Reconnect,
                        ]);
                    }
                }
                self.connected = false;
                v
            },
            SessionEvent::Message(m) => {
                if self.connected {
                    Self::process_message(m)
                } else {
                    Vec::new()
                }
            },
            SessionEvent::Malformed => Vec::new(),
            SessionEvent::Gpio(g) => {
                let mut v: Vec<SessionCommand> = Vec::new();
                if self.connected {
                    let m = match g {
                        GpioInputEvents::NextTrigger => ExchangeMessage::NextScene,
                        GpioInputEvents::Retrigger => ExchangeMessage::RetriggerScene,
                    };
                    v.push(SessionCommand::Send(m));
                    proof {
                        assert(v@ =~= seq![SessionCommand::Send(trigger_of(g))]);
                    }
                }
                v
            },
        }
    }

    /// What a message of the server leads to.
    pub fn process_message(exchange_message: ExchangeMessage) -> (commands: Vec<SessionCommand>)
        ensures
            commands@ == on_message(exchange_message),
    {
        let mut v: Vec<SessionCommand> = Vec::new();
        match exchange_message {
            ExchangeMessage::Scene(Event::PerformAction(action)) => {
                v.push(SessionCommand::Perform(action));
            },
            ExchangeMessage::Heartbeat => {
                v.push(SessionCommand::Send(ExchangeMessage::HeartbeatAck));
            },
            ExchangeMessage::Ack(_) => {
                v.push(SessionCommand::Show(OledEvents::WsMessage(exchange_message)));
            },
            ExchangeMessage::Nack(_) => {
                v.push(SessionCommand::Show(OledEvents::WsMessage(exchange_message)));
            },
            ExchangeMessage::Error(_) => {
                v.push(SessionCommand::Show(OledEvents::WsMessage(exchange_message)));
            },
            _ => {},
        }
        proof {
            assert(v@ =~= on_message(exchange_message));
        }
        v
    }

    fn opening_commands(&self) -> (v: Vec<SessionCommand>)
        ensures
            v@ == opening(self@),
    {
        let mut v: Vec<SessionCommand> = Vec::new();
        v.push(SessionCommand::Show(OledEvents::ConnectedToLamarrs(true, None)));
        v.push(SessionCommand::Send(ExchangeMessage::Request(Event::Register(self.identity))));
        v.push(SessionCommand::Show(OledEvents::RegisteredWithUuid(self.identity.uuid)));
        let ghost head = v@;
        let ghost subs = subscriptions(self.identity, self.services@);
        let mut i: usize = 0;
        while i < self.services.len()
            invariant
                i <= self.services@.len(),
                subs == subscriptions(self.identity, self.services@),
                v@ == head + subs.take(i as int),
            decreases self.services.len() - i,
        {
            v.push(
                SessionCommand::Send(
                    ExchangeMessage::Request(
                        Event::SubscribeToService(self.services[i], self.identity),
                    ),
                ),
            );
            i += 1;
            proof {
                assert(v@ =~= head + subs.take(i as int));
            }
        }
        proof {
            assert(subs.take(i as int) =~= subs);
            assert(v@ =~= opening(self@));
        }
        v
    }
}

// --------------------------------------------------------------- laws

/// A heartbeat is answered with its acknowledgement and nothing else: it is
/// neither shown nor performed.
pub proof fn law_heartbeat_is_answered(s: SessionState)
    requires
        s.connected,
    ensures
        commands_of(s, SessionEvent::Message(ExchangeMessage::Heartbeat)) == seq![
            SessionCommand::Send(ExchangeMessage::HeartbeatAck),
        ],
{
}

/// A session that is not connected sends nothing but what opens it.
pub proof fn law_disconnected_sends_nothing(s: SessionState, e: SessionEvent, k: int)
    requires
        !s.connected,
        e != SessionEvent::Connected,
        0 <= k < commands_of(s, e).len(),
    ensures
        !(commands_of(s, e)[k] is Send),
{
}

} // verus!
