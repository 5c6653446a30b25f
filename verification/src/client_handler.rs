//! The handler of one client connection on the server.
//!
//! The handler decides; whoever runs it reads the socket, keeps the inactivity
//! timer, and performs the effects that each step returns, in order. A step
//! that reports a fatal error is the last one: its effects already hold the
//! removals that end the session.

use vstd::prelude::*;
use vstd::utf8::encode_utf8;
use crate::action_messages::Event;
use crate::binary::{binary_decoding, binary_encoding, decode_binary, encode_binary};
use crate::exchange_messages::{AckResult, ExchangeMessage, NackResult};
use crate::identity::{ClientIdAndLocation, Service};
use crate::json::{decode_text, encode_text, text_decoding, text_encoding};
use crate::payload::ErrorDescription;
use crate::reader::ascii;
use crate::services::{InternalEventMessageServer, MailboxId};
use crate::text::BoundedString;

verus! {

/// Seconds without traffic after which the watchdog acts, unless configured
/// otherwise.
pub const DEFAULT_WATCHDOG_SECONDS: u64 = 120;

/// The two encodings a client can speak.
#[derive(Clone, Copy, Debug, PartialEq, Eq, Structural)]
pub enum ClientWire {
    Binary,
    Text,
}

/// Why a step of the handler failed.
#[derive(Clone, Copy, Debug, PartialEq, Eq)]
pub enum ClientHandlerError {
    /// The upgrade to a WebSocket failed.
    FailedToConnectWithSubscriber,
    /// The socket reported an error.
    WsError,
    /// The client closed the connection or stopped answering.
    ConnectionLost { client_id: Option<ClientIdAndLocation> },
    /// A client that has not registered sent something else than a
    /// registration.
    UnregisteredSubscriber(ExchangeMessage),
    /// A text frame that is no message.
    UnrecognizableMessage,
    /// A message that a client may not send.
    InvalidExchangeMessage(ExchangeMessage),
    /// A binary frame that is no message.
    FailureDecodingBinaryExchangeMessage,
    /// A message for an actor could not be delivered.
    SendActionMessageWithSender,
    /// A message for the handler's own outbox could not be delivered.
    SendExchangeMessage,
}

impl ClientHandlerError {
    /// Whether the session ends with this error. A bad message does not end
    /// it; a lost connection, a socket error and a closed outbox do.
    pub open spec fn spec_is_fatal(&self) -> bool {
        match *self {
            ClientHandlerError::FailedToConnectWithSubscriber => true,
            ClientHandlerError::WsError => true,
            ClientHandlerError::ConnectionLost { .. } => true,
            ClientHandlerError::SendExchangeMessage => true,
            _ => false,
        }
    }

    /// Whether the session ends with this error.
    #[verifier::when_used_as_spec(spec_is_fatal)]
    pub fn is_fatal(&self) -> (b: bool)
        ensures
            b == self.spec_is_fatal(),
    {
        match self {
            ClientHandlerError::FailedToConnectWithSubscriber => true,
            ClientHandlerError::WsError => true,
            ClientHandlerError::ConnectionLost { .. } => true,
            ClientHandlerError::SendExchangeMessage => true,
            _ => false,
        }
    }
}

/// What the socket yields.
#[derive(Debug)]
pub enum Inbound {
    /// A text frame.
    Text(String),
    /// A binary frame.
    Binary(Vec<u8>),
    /// A close frame.
    Close,
    /// A frame of another kind.
    Unsupported,
    /// The end of the stream.
    Ended,
    /// An error of the socket.
    Failed,
}

/// An inbound frame, read.
#[derive(Clone, Copy, Debug, PartialEq, Eq)]
pub enum Received {
    /// A message, and the encoding it came in.
    Message(ClientWire, ExchangeMessage),
    /// A frame that is no message, and the encoding it claimed.
    Malformed(ClientWire),
    /// The connection was closed or the stream ended.
    Closed,
    /// A frame of a kind that carries no message.
    Unsupported,
    /// The socket failed.
    Failed,
}

/// What happens to a handler: a frame arrives, or the inactivity timer
/// fires.
#[derive(Clone, Copy, Debug, PartialEq, Eq)]
pub enum HandlerInput {
    Frame(Received),
    Timeout,
}

/// What a handler asks to be done.
#[derive(Clone, Copy, Debug, PartialEq, Eq)]
pub enum Effect {
    /// Put the message in the mailbox of the actor of this service.
    ToService(Service, InternalEventMessageServer),
    /// Put the message in the mailbox of the sequencer.
    ToSequencer(ExchangeMessage),
    /// Put the message in the handler's own outbox.
    Reply(ExchangeMessage),
    /// Write the message to the socket in this encoding.
    Write(ClientWire, ExchangeMessage),
}

/// What one step came to.
#[derive(Debug)]
pub struct HandlerStep {
    pub effects: Vec<Effect>,
    pub result: Result<(), ClientHandlerError>,
}

/// A frame ready for the socket.
#[derive(Debug, PartialEq, Eq)]
pub enum Frame {
    Text(String),
    Binary(Vec<u8>),
}

/// The state of a handler.
pub struct ClientState {
    /// The identity the client registered with, once it has.
    pub id: Option<ClientIdAndLocation>,
    /// The name of the handler's own outbox.
    pub mailbox: MailboxId,
    /// Whether a heartbeat is waiting for its answer.
    pub watchdog_sent: bool,
    /// The encoding the handler writes in.
    pub wire: ClientWire,
    /// Whether the encoding is fixed for the rest of the session.
    pub wire_locked: bool,
    /// How many messages were turned down for want of a registration.
    pub rejected: u32,
    /// Whether the session is over.
    pub closed: bool,
}

/// The frame that the socket yielded, read.
pub open spec fn received(inbound: Inbound) -> Received {
    match inbound {
        Inbound::Text(t) => match text_decoding(encode_utf8(t@)) {
            Some(m) => Received::Message(ClientWire::Text, m),
            None => Received::Malformed(ClientWire::Text),
        },
        Inbound::Binary(b) => match binary_decoding(b@) {
            Some(m) => Received::Message(ClientWire::Binary, m),
            None => Received::Malformed(ClientWire::Binary),
        },
        Inbound::Close => Received::Closed,
        Inbound::Ended => Received::Closed,
        Inbound::Unsupported => Received::Unsupported,
        Inbound::Failed => Received::Failed,
    }
}

/// The state of a handler that has seen nothing yet.
pub open spec fn initial(mailbox: MailboxId) -> ClientState {
    ClientState {
        id: None,
        mailbox,
        watchdog_sent: false,
        wire: ClientWire::Binary,
        wire_locked: false,
        rejected: 0,
        closed: false,
    }
}

/// The same message for the actor of every service, in the order subtitle,
/// colour, playback, MIDI.
pub open spec fn to_all_services(e: InternalEventMessageServer) -> Seq<Effect> {
    seq![
        Effect::ToService(Service::Subtitle, e),
        Effect::ToService(Service::Colour, e),
        Effect::ToService(Service::AudioPlayer, e),
        Effect::ToService(Service::Midi, e),
    ]
}

/// What ends a session: every service actor is told to forget the client,
/// if it ever registered.
pub open spec fn removal(s: ClientState) -> Seq<Effect> {
    match s.id {
        Some(id) => to_all_services(InternalEventMessageServer::RemoveTargetClient(id)),
        None => Seq::empty(),
    }
}

/// What a registration does: every service actor refreshes the client's
/// entry, if it has one, and the client is told of its success.
pub open spec fn registration(id: ClientIdAndLocation, mailbox: MailboxId) -> Seq<Effect> {
    to_all_services(InternalEventMessageServer::UpdateClientData(id, mailbox)).push(
        Effect::Reply(ExchangeMessage::Ack(AckResult::Success)),
    )
}

/// The text that a client is told when its frame was no message.
pub open spec fn malformed_text() -> Seq<u8> {
    ascii("Unrecognized message: Malformed payload."@)
}

/// The report that a client is sent when its frame was no message.
pub open spec fn malformed_report() -> ExchangeMessage {
    ExchangeMessage::Error(
        ErrorDescription { error_descr: BoundedString::<100>::of(malformed_text()) },
    )
}

/// The encoding after a frame in the given encoding was read as a message:
/// the first such frame fixes it.
pub open spec fn latched(s: ClientState, wire: ClientWire) -> ClientState {
    if s.wire_locked {
        s
    } else {
        ClientState { wire, wire_locked: true, ..s }
    }
}

/// The state after a message of a client that has not registered.
pub open spec fn after_unregistered(s: ClientState, m: ExchangeMessage) -> ClientState {
    match m {
        ExchangeMessage::Request(Event::Register(id)) => ClientState { id: Some(id), ..s },
        ExchangeMessage::HeartbeatAck => ClientState { watchdog_sent: false, ..s },
        _ => ClientState {
            rejected: if s.rejected < u32::MAX {
                (s.rejected + 1) as u32
            } else {
                s.rejected
            },
            ..s
        },
    }
}

/// The effects of a message of a client that has not registered.
pub open spec fn effects_unregistered(s: ClientState, m: ExchangeMessage) -> Seq<Effect> {
    match m {
        ExchangeMessage::Request(Event::Register(id)) => registration(id, s.mailbox),
        ExchangeMessage::HeartbeatAck => Seq::empty(),
        _ => seq![Effect::Reply(ExchangeMessage::Nack(NackResult::NotSubscribed))],
    }
}

/// The outcome of a message of a client that has not registered.
pub open spec fn result_unregistered(m: ExchangeMessage) -> Result<(), ClientHandlerError> {
    match m {
        ExchangeMessage::Request(Event::Register(_)) => Ok(()),
        ExchangeMessage::HeartbeatAck => Ok(()),
        _ => Err(ClientHandlerError::UnregisteredSubscriber(m)),
    }
}

/// The state after a message of a registered client.
pub open spec fn after_registered(s: ClientState, m: ExchangeMessage) -> ClientState {
    match m {
        ExchangeMessage::Request(Event::Register(id)) => ClientState { id: Some(id), ..s },
        ExchangeMessage::HeartbeatAck => ClientState { watchdog_sent: false, ..s },
        _ => s,
    }
}

/// The effects of a message of a registered client.
pub open spec fn effects_registered(s: ClientState, m: ExchangeMessage) -> Seq<Effect> {
    match m {
        ExchangeMessage::Request(Event::SubscribeToService(service, id)) => seq![
            Effect::ToService(
                service,
                InternalEventMessageServer::AddTargetClient(id, s.mailbox),
            ),
        ],
        ExchangeMessage::Request(Event::UnsubscribeFromService(service, id)) => seq![
            Effect::ToService(service, InternalEventMessageServer::RemoveTargetClient(id)),
        ],
        ExchangeMessage::Request(Event::UpdateLocation(id)) => to_all_services(
            InternalEventMessageServer::UpdateClientData(id, s.mailbox),
        ),
        ExchangeMessage::Request(Event::Register(id)) => registration(id, s.mailbox),
        ExchangeMessage::NextScene => seq![Effect::ToSequencer(m)],
        ExchangeMessage::RetriggerScene => seq![Effect::ToSequencer(m)],
        ExchangeMessage::HeartbeatAck => Seq::empty(),
        _ => seq![Effect::Reply(ExchangeMessage::Nack(NackResult::Failed))],
    }
}

/// The outcome of a message of a registered client.
pub open spec fn result_registered(m: ExchangeMessage) -> Result<(), ClientHandlerError> {
    match m {
        ExchangeMessage::Request(Event::SubscribeToService(_, _)) => Ok(()),
        ExchangeMessage::Request(Event::UnsubscribeFromService(_, _)) => Ok(()),
        ExchangeMessage::Request(Event::UpdateLocation(_)) => Ok(()),
        ExchangeMessage::Request(Event::Register(_)) => Ok(()),
        ExchangeMessage::NextScene => Ok(()),
        ExchangeMessage::RetriggerScene => Ok(()),
        ExchangeMessage::HeartbeatAck => Ok(()),
        _ => Err(ClientHandlerError::InvalidExchangeMessage(m)),
    }
}

/// The state after a step.
pub open spec fn after(s: ClientState, input: HandlerInput) -> ClientState {
    if s.closed {
        s
    } else {
        match input {
            HandlerInput::Frame(Received::Message(wire, m)) => {
                let l = latched(s, wire);
                if s.id is None {
                    after_unregistered(l, m)
                } else {
                    after_registered(l, m)
                }
            },
            HandlerInput::Frame(Received::Malformed(_)) => s,
            HandlerInput::Frame(Received::Unsupported) => s,
            HandlerInput::Frame(Received::Closed) => ClientState { closed: true, ..s },
            HandlerInput::Frame(Received::Failed) => ClientState { closed: true, ..s },
            HandlerInput::Timeout => if s.watchdog_sent {
                ClientState { closed: true, ..s }
            } else {
                ClientState { watchdog_sent: true, ..s }
            },
        }
    }
}

/// The effects of a step, in order.
pub open spec fn effects_of(s: ClientState, input: HandlerInput) -> Seq<Effect> {
    if s.closed {
        Seq::empty()
    } else {
        match input {
            HandlerInput::Frame(Received::Message(wire, m)) => if s.id is None {
                effects_unregistered(latched(s, wire), m)
            } else {
                effects_registered(latched(s, wire), m)
            },
            HandlerInput::Frame(Received::Malformed(_)) => seq![Effect::Reply(malformed_report())],
            HandlerInput::Frame(Received::Unsupported) => Seq::empty(),
            HandlerInput::Frame(Received::Closed) => removal(s),
            HandlerInput::Frame(Received::Failed) => removal(s),
            HandlerInput::Timeout => if s.watchdog_sent {
                removal(s)
            } else {
                seq![Effect::Write(s.wire, ExchangeMessage::Heartbeat)]
            },
        }
    }
}

/// The outcome of a step.
pub open spec fn result_of(s: ClientState, input: HandlerInput) -> Result<
    (),
    ClientHandlerError,
> {
    if s.closed {
        Err(ClientHandlerError::ConnectionLost { client_id: s.id })
    } else {
        match input {
            HandlerInput::Frame(Received::Message(_, m)) => if s.id is None {
                result_unregistered(m)
            } else {
                result_registered(m)
            },
            HandlerInput::Frame(Received::Malformed(ClientWire::Text)) => Err(
                ClientHandlerError::UnrecognizableMessage,
            ),
            HandlerInput::Frame(Received::Malformed(ClientWire::Binary)) => Err(
                ClientHandlerError::FailureDecodingBinaryExchangeMessage,
            ),
            HandlerInput::Frame(Received::Unsupported) => Ok(()),
            HandlerInput::Frame(Received::Closed) => Err(
                ClientHandlerError::ConnectionLost { client_id: s.id },
            ),
            HandlerInput::Frame(Received::Failed) => Err(ClientHandlerError::WsError),
            HandlerInput::Timeout => if s.watchdog_sent {
                Err(ClientHandlerError::ConnectionLost { client_id: s.id })
            } else {
                Ok(())
            },
        }
    }
}

/// The handler of one connection.
pub struct Client {
    id: Option<ClientIdAndLocation>,
    mailbox: MailboxId,
    watchdog_sent: bool,
    wire: ClientWire,
    wire_locked: bool,
    rejected: u32,
    closed: bool,
}

impl View for Client {
    type V = ClientState;

    closed spec fn view(&self) -> ClientState {
        ClientState {
            id: self.id,
            mailbox: self.mailbox,
            watchdog_sent: self.watchdog_sent,
            wire: self.wire,
            wire_locked: self.wire_locked,
            rejected: self.rejected,
            closed: self.closed,
        }
    }
}

/// Reads an inbound frame.
pub fn classify(inbound: &Inbound) -> (r: Received)
    ensures
        r == received(*inbound),
{
    match inbound {
        Inbound::Text(t) => match decode_text(t.as_str()) {
            Some(m) => Received::Message(ClientWire::Text, m),
            None => Received::Malformed(ClientWire::Text),
        },
        Inbound::Binary(b) => match decode_binary(b.as_slice()) {
            Some(m) => Received::Message(ClientWire::Binary, m),
            None => Received::Malformed(ClientWire::Binary),
        },
        Inbound::Close => Received::Closed,
        Inbound::Ended => Received::Closed,
        Inbound::Unsupported => Received::Unsupported,
        Inbound::Failed => Received::Failed,
    }
}

/// The bytes of a message in an encoding, as a frame of the matching kind.
pub fn frame_of(wire: ClientWire, m: &ExchangeMessage) -> (f: Frame)
    ensures
        match f {
            Frame::Text(t) => wire == ClientWire::Text && encode_utf8(t@) == text_encoding(*m),
            Frame::Binary(b) => wire == ClientWire::Binary && b@ == binary_encoding(*m),
        },
{
    match wire {
        ClientWire::Text => Frame::Text(encode_text(m)),
        ClientWire::Binary => Frame::Binary(encode_binary(m)),
    }
}

/// The report that a client is sent when its frame was no message.
pub fn malformed_payload_report() -> (m: ExchangeMessage)
    ensures
        m == malformed_report(),
        m.wf(),
{
    proof {
        reveal_strlit("Unrecognized message: Malformed payload.");
        vstd::utf8::is_ascii_chars_encode_utf8("Unrecognized message: Malformed payload."@);
        assert(vstd::utf8::encode_utf8("Unrecognized message: Malformed payload."@)
            =~= malformed_text());
    }
    match ErrorDescription::new("Unrecognized message: Malformed payload.") {
        Some(d) => {
            proof {
                d.error_descr.lemma_of_view();
            }
            ExchangeMessage::Error(d)
        },
        None => ExchangeMessage::Nack(NackResult::Failed),
    }
}

fn to_all(e: InternalEventMessageServer) -> (v: Vec<Effect>)
    ensures
        v@ == to_all_services(e),
{
    let mut v: Vec<Effect> = Vec::new();
    v.push(Effect::ToService(Service::Subtitle, e));
    v.push(Effect::ToService(Service::Colour, e));
    v.push(Effect::ToService(Service::AudioPlayer, e));
    v.push(Effect::ToService(Service::Midi, e));
    proof {
        assert(v@ =~= to_all_services(e));
    }
    v
}

fn one(e: Effect) -> (v: Vec<Effect>)
    ensures
        v@ == seq![e],
{
    let mut v: Vec<Effect> = Vec::new();
    v.push(e);
    proof {
        assert(v@ =~= seq![e]);
    }
    v
}

impl Client {
    /// The handler of a connection just accepted, with the name of its own
    /// outbox.
    pub fn new(mailbox: MailboxId) -> (c: Self)
        ensures
            c@ == initial(mailbox),
    {
        Client {
            id: None,
            mailbox,
            watchdog_sent: false,
            wire: ClientWire::Binary,
            wire_locked: false,
            rejected: 0,
            closed: false,
        }
    }

    /// The identity the client registered with.
    pub fn id(&self) -> (r: Option<ClientIdAndLocation>)
        ensures
            r == self@.id,
    {
        self.id
    }

    /// The name of the handler's own outbox.
    pub fn mailbox(&self) -> (r: MailboxId)
        ensures
            r == self@.mailbox,
    {
        self.mailbox
    }

    /// Whether a heartbeat is waiting for its answer.
    pub fn watchdog_sent(&self) -> (r: bool)
        ensures
            r == self@.watchdog_sent,
    {
        self.watchdog_sent
    }

    /// The encoding the handler writes in.
    pub fn wire(&self) -> (r: ClientWire)
        ensures
            r == self@.wire,
    {
        self.wire
    }

    /// How many messages were turned down for want of a registration.
    pub fn rejected(&self) -> (r: u32)
        ensures
            r == self@.rejected,
    {
        self.rejected
    }

    /// Whether the session is over.
    pub fn is_closed(&self) -> (r: bool)
        ensures
            r == self@.closed,
    {
        self.closed
    }

    /// The frame for a message taken from the outbox: the message in the
    /// encoding of the session.
    pub fn outgoing(&self, m: &ExchangeMessage) -> (f: Frame)
        ensures
            match f {
                Frame::Text(t) => self@.wire == ClientWire::Text && encode_utf8(t@)
                    == text_encoding(*m),
                Frame::Binary(b) => self@.wire == ClientWire::Binary && b@ == binary_encoding(
                    *m,
                ),
            },
    {
        frame_of(self.wire, m)
    }

    /// What ends the session: the removal of the client from every service.
    pub fn removal_effects(&self) -> (v: Vec<Effect>)
        ensures
            v@ == removal(self@),
    {
        match self.id {
            Some(id) => to_all(InternalEventMessageServer::RemoveTargetClient(id)),
            None => Vec::new(),
        }
    }

    /// One step of the handler.
    pub fn handle(&mut self, input: HandlerInput) -> (out: HandlerStep)
        ensures
            final(self)@ == after(old(self)@, input),
            out.effects@ == effects_of(old(self)@, input),
            out.result == result_of(old(self)@, input),
    {
        if self.closed {
            return HandlerStep {
                effects: Vec::new(),
                result: Err(ClientHandlerError::ConnectionLost { client_id: self.id }),
            };
        }
        match input {
            HandlerInput::Frame(Received::Message(wire, m)) => {
                if !self.wire_locked {
                    self.wire = wire;
                    self.wire_locked = true;
                }
                if self.id.is_none() {
                    self.on_unregistered_subscriber_message(m)
                } else {
                    self.on_subscriber_message(m)
                }
            },
            HandlerInput::Frame(Received::Malformed(wire)) => HandlerStep {
                effects: one(Effect::Reply(malformed_payload_report())),
                result: Err(
                    match wire {
                        ClientWire::Text => ClientHandlerError::UnrecognizableMessage,
                        ClientWire::Binary => {
                            ClientHandlerError::FailureDecodingBinaryExchangeMessage
                        },
                    },
                ),
            },
            HandlerInput::Frame(Received::Unsupported) => HandlerStep {
                effects: Vec::new(),
                result: Ok(()),
            },
            HandlerInput::Frame(Received::Closed) => {
                let effects = self.removal_effects();
                self.closed = true;
                HandlerStep {
                    effects,
                    result: Err(ClientHandlerError::ConnectionLost { client_id: self.id }),
                }
            },
            HandlerInput::Frame(Received::Failed) => {
                let effects = self.removal_effects();
                self.closed = true;
                HandlerStep { effects, result: Err(ClientHandlerError::WsError) }
            },
            HandlerInput::Timeout => {
                if self.watchdog_sent {
                    let effects = self.removal_effects();
                    self.closed = true;
                    HandlerStep {
                        effects,
                        result: Err(ClientHandlerError::ConnectionLost { client_id: self.id }),
                    }
                } else {
                    self.watchdog_sent = true;
                    HandlerStep {
                        effects: one(Effect::Write(self.wire, ExchangeMessage::Heartbeat)),
                        result: Ok(()),
                    }
                }
            },
        }
    }

    /// A step on what the socket yielded.
    pub fn handle_ws_message(&mut self, msg: &Inbound) -> (out: HandlerStep)
        ensures
            final(self)@ == after(old(self)@, HandlerInput::Frame(received(*msg))),
            out.effects@ == effects_of(old(self)@, HandlerInput::Frame(received(*msg))),
            out.result == result_of(old(self)@, HandlerInput::Frame(received(*msg))),
    {
        self.handle(HandlerInput::Frame(classify(msg)))
    }

    /// A step on the inactivity timer. The first time it finds no heartbeat
    /// pending it sends one; finding one pending it ends the session.
    pub fn on_timeout(&mut self) -> (out: HandlerStep)
        ensures
            final(self)@ == after(old(self)@, HandlerInput::Timeout),
            out.effects@ == effects_of(old(self)@, HandlerInput::Timeout),
            out.result == result_of(old(self)@, HandlerInput::Timeout),
    {
        self.handle(HandlerInput::Timeout)
    }

    /// A message of a client that has not registered: a registration is
    /// taken, the answer to a heartbeat is noted, anything else is turned
    /// down and counted.
    pub fn on_unregistered_subscriber_message(&mut self, exchange_message: ExchangeMessage) -> (out:
        HandlerStep)
        ensures
            final(self)@ == after_unregistered(old(self)@, exchange_message),
            out.effects@ == effects_unregistered(old(self)@, exchange_message),
            out.result == result_unregistered(exchange_message),
    {
        match exchange_message {
            ExchangeMessage::Request(Event::Register(id)) => {
                self.id = Some(id);
                HandlerStep { effects: self.register_effects(id), result: Ok(()) }
            },
            ExchangeMessage::HeartbeatAck => {
                self.watchdog_sent = false;
                HandlerStep { effects: Vec::new(), result: Ok(()) }
            },
            _ => {
                if self.rejected < u32::MAX {
                    self.rejected = self.rejected + 1;
                }
                HandlerStep {
                    effects: one(Effect::Reply(ExchangeMessage::Nack(NackResult::NotSubscribed))),
                    result: Err(ClientHandlerError::UnregisteredSubscriber(exchange_message)),
                }
            },
        }
    }

    /// A message of a registered client.
    pub fn on_subscriber_message(&mut self, exchange_message: ExchangeMessage) -> (out:
        HandlerStep)
        ensures
            final(self)@ == after_registered(old(self)@, exchange_message),
            out.effects@ == effects_registered(old(self)@, exchange_message),
            out.result == result_registered(exchange_message),
    {
        match exchange_message {
            ExchangeMessage::Request(Event::SubscribeToService(service, id)) => HandlerStep {
                effects: one(self.subscribe_to_service(service, id)),
                result: Ok(()),
            },
            ExchangeMessage::Request(Event::UnsubscribeFromService(service, id)) => HandlerStep {
                effects: one(self.unsubscribe_from_service(service, id)),
                result: Ok(()),
            },
            ExchangeMessage::Request(Event::UpdateLocation(id)) => HandlerStep {
                effects: self.update_location(id),
                result: Ok(()),
            },
            ExchangeMessage::Request(Event::Register(id)) => {
                self.id = Some(id);
                HandlerStep { effects: self.register_effects(id), result: Ok(()) }
            },
            ExchangeMessage::HeartbeatAck => {
                self.watchdog_sent = false;
                HandlerStep { effects: Vec::new(), result: Ok(()) }
            },
            ExchangeMessage::NextScene => HandlerStep {
                effects: one(Effect::ToSequencer(exchange_message)),
                result: Ok(()),
            },
            ExchangeMessage::RetriggerScene => HandlerStep {
                effects: one(Effect::ToSequencer(exchange_message)),
                result: Ok(()),
            },
            _ => HandlerStep {
                effects: one(Effect::Reply(ExchangeMessage::Nack(NackResult::Failed))),
                result: Err(ClientHandlerError::InvalidExchangeMessage(exchange_message)),
            },
        }
    }

    fn register_effects(&self, id: ClientIdAndLocation) -> (v: Vec<Effect>)
        ensures
            v@ == registration(id, self@.mailbox),
    {
        let mut v = to_all(InternalEventMessageServer::UpdateClientData(id, self.mailbox));
        v.push(Effect::Reply(ExchangeMessage::Ack(AckResult::Success)));
        v
    }

    /// The subscription of a client goes to the actor of the service.
    pub fn subscribe_to_service(&self, service: Service, id: ClientIdAndLocation) -> (e: Effect)
        ensures
            e == Effect::ToService(
                service,
                InternalEventMessageServer::AddTargetClient(id, self@.mailbox),
            ),
    {
        Effect::ToService(service, InternalEventMessageServer::AddTargetClient(id, self.mailbox))
    }

    /// The end of a subscription goes to the actor of the service.
    pub fn unsubscribe_from_service(&self, service: Service, id: ClientIdAndLocation) -> (e:
        Effect)
        ensures
            e == Effect::ToService(service, InternalEventMessageServer::RemoveTargetClient(id)),
    {
        Effect::ToService(service, InternalEventMessageServer::RemoveTargetClient(id))
    }

    /// A new location goes to the actor of every service.
    pub fn update_location(&self, id: ClientIdAndLocation) -> (v: Vec<Effect>)
        ensures
            v@ == to_all_services(InternalEventMessageServer::UpdateClientData(id, self@.mailbox)),
    {
        to_all(InternalEventMessageServer::UpdateClientData(id, self.mailbox))
    }
}

// --------------------------------------------------------------- laws

/// The state after a run of steps, the first taken first.
pub open spec fn state_after_all(s: ClientState, inputs: Seq<HandlerInput>) -> ClientState
    decreases inputs.len(),
{
    if inputs.len() == 0 {
        s
    } else {
        after(state_after_all(s, inputs.drop_last()), inputs.last())
    }
}

/// The state in which step `k` of a run is taken.
pub open spec fn state_before(mailbox: MailboxId, inputs: Seq<HandlerInput>, k: int)
    -> ClientState {
    state_after_all(initial(mailbox), inputs.take(k))
}

/// Whether the input is a frame that was read as a message.
pub open spec fn is_message(input: HandlerInput) -> bool {
    input matches HandlerInput::Frame(Received::Message(_, _))
}

/// Whether the input is a message in the given encoding.
pub open spec fn is_message_in(input: HandlerInput, wire: ClientWire) -> bool {
    input matches HandlerInput::Frame(Received::Message(w, _)) && w == wire
}

/// Whether every frame that the effects write is in the given encoding.
pub open spec fn writes_only(effects: Seq<Effect>, wire: ClientWire) -> bool {
    forall|k: int|
        0 <= k < effects.len() ==> ((#[trigger] effects[k]) matches Effect::Write(w, _) ==> w
            == wire)
}

/// How many heartbeats the effects write.
pub open spec fn heartbeats_in(effects: Seq<Effect>) -> int
    decreases effects.len(),
{
    if effects.len() == 0 {
        0
    } else {
        heartbeats_in(effects.drop_last()) + if effects.last() matches Effect::Write(
            _,
            ExchangeMessage::Heartbeat,
        ) {
            1int
        } else {
            0int
        }
    }
}

/// Whether the step takes the answer to a heartbeat.
pub open spec fn acknowledges(s: ClientState, input: HandlerInput) -> bool {
    !s.closed && input matches HandlerInput::Frame(
        Received::Message(_, ExchangeMessage::HeartbeatAck),
    )
}

/// How many heartbeats a run has written since the last answer to one, or
/// since the session began.
pub open spec fn heartbeats_outstanding(mailbox: MailboxId, inputs: Seq<HandlerInput>) -> int
    decreases inputs.len(),
{
    if inputs.len() == 0 {
        0
    } else {
        let before = state_after_all(initial(mailbox), inputs.drop_last());
        if acknowledges(before, inputs.last()) {
            0
        } else {
            heartbeats_outstanding(mailbox, inputs.drop_last()) + heartbeats_in(
                effects_of(before, inputs.last()),
            )
        }
    }
}

proof fn lemma_heartbeats_of_step(s: ClientState, input: HandlerInput)
    ensures
        heartbeats_in(effects_of(s, input)) == (if !s.closed && input == HandlerInput::Timeout
            && !s.watchdog_sent {
            1int
        } else {
            0int
        }),
{
    let e = effects_of(s, input);
    reveal_with_fuel(heartbeats_in, 6);
    if e.len() == 1 {
        assert(e.drop_last() =~= Seq::<Effect>::empty());
    } else if e.len() == 4 {
        assert(e.drop_last().drop_last().drop_last().drop_last() =~= Seq::<Effect>::empty());
    } else if e.len() == 5 {
        assert(e.drop_last().drop_last().drop_last().drop_last().drop_last() =~= Seq::<
            Effect,
        >::empty());
    }
}

/// A heartbeat is pending exactly when one heartbeat has been written since
/// the last answer to one or since the session began; there are never two.
pub proof fn law_heartbeat_pending(mailbox: MailboxId, inputs: Seq<HandlerInput>)
    ensures
        0 <= heartbeats_outstanding(mailbox, inputs) <= 1,
        state_after_all(initial(mailbox), inputs).watchdog_sent <==> heartbeats_outstanding(
            mailbox,
            inputs,
        ) == 1,
    decreases inputs.len(),
{
    if inputs.len() > 0 {
        law_heartbeat_pending(mailbox, inputs.drop_last());
        lemma_heartbeats_of_step(
            state_after_all(initial(mailbox), inputs.drop_last()),
            inputs.last(),
        );
    }
}

/// Once fixed, the encoding of a session stays what it is.
pub proof fn law_wire_stays(s: ClientState, input: HandlerInput)
    requires
        s.wire_locked,
    ensures
        after(s, input).wire_locked,
        after(s, input).wire == s.wire,
{
}

/// Every frame that a step writes is in the encoding of the session.
pub proof fn law_writes_in_session_wire(s: ClientState, input: HandlerInput)
    ensures
        writes_only(effects_of(s, input), s.wire),
{
}

proof fn lemma_unlocked_until_message(mailbox: MailboxId, inputs: Seq<HandlerInput>)
    requires
        forall|p: int| 0 <= p < inputs.len() ==> !is_message(#[trigger] inputs[p]),
    ensures
        !state_after_all(initial(mailbox), inputs).wire_locked,
    decreases inputs.len(),
{
    if inputs.len() > 0 {
        let front = inputs.drop_last();
        assert forall|p: int| 0 <= p < front.len() implies !is_message(#[trigger] front[p]) by {
            assert(front[p] == inputs[p]);
        }
        lemma_unlocked_until_message(mailbox, front);
        assert(!is_message(inputs[inputs.len() - 1]));
    }
}

proof fn lemma_locked_from(mailbox: MailboxId, inputs: Seq<HandlerInput>, i: int, j: int)
    requires
        0 <= i < j <= inputs.len(),
        state_before(mailbox, inputs, i + 1).wire_locked,
    ensures
        state_before(mailbox, inputs, j).wire_locked,
        state_before(mailbox, inputs, j).wire == state_before(mailbox, inputs, i + 1).wire,
    decreases j - i,
{
    if j > i + 1 {
        lemma_locked_from(mailbox, inputs, i, j - 1);
        assert(inputs.take(j).drop_last() =~= inputs.take(j - 1));
        law_wire_stays(state_before(mailbox, inputs, j - 1), inputs[j - 1]);
    }
}

/// Wire lock: if the first frame of a session that was read as a message
/// came in one encoding while the session was alive, then from that step on
/// the handler is in that encoding, and every frame it writes is.
pub proof fn law_wire_lock(
    mailbox: MailboxId,
    inputs: Seq<HandlerInput>,
    wire: ClientWire,
    i: int,
    j: int,
)
    requires
        0 <= i < j <= inputs.len(),
        is_message_in(inputs[i], wire),
        forall|p: int| 0 <= p < i ==> !is_message(#[trigger] inputs[p]),
        !state_before(mailbox, inputs, i).closed,
    ensures
        state_before(mailbox, inputs, j).wire == wire,
        j < inputs.len() ==> writes_only(
            effects_of(state_before(mailbox, inputs, j), inputs[j]),
            wire,
        ),
        writes_only(effects_of(state_before(mailbox, inputs, i), inputs[i]), wire),
{
    let front = inputs.take(i);
    assert forall|p: int| 0 <= p < front.len() implies !is_message(#[trigger] front[p]) by {
        assert(front[p] == inputs[p]);
    }
    lemma_unlocked_until_message(mailbox, front);
    assert(inputs.take(i + 1).drop_last() =~= inputs.take(i));
    assert(inputs.take(i + 1).last() == inputs[i]);
    lemma_locked_from(mailbox, inputs, i, j);
}

/// The identity of a session changes only on a registration, and then to
/// the identity that the registration brings.
pub proof fn law_identity_only_by_registration(s: ClientState, input: HandlerInput)
    requires
        after(s, input).id != s.id,
    ensures
        !s.closed,
        input matches HandlerInput::Frame(
            Received::Message(_, ExchangeMessage::Request(Event::Register(id))),
        ) && after(s, input).id == Some(id),
{
}

/// A step that reports a fatal error ends the session and removes the
/// client from every service; a session that is over does nothing more.
pub proof fn law_fatal_step_ends_session(s: ClientState, input: HandlerInput)
    ensures
        !s.closed && (result_of(s, input) matches Err(e) && e.spec_is_fatal()) ==> after(
            s,
            input,
        ).closed && effects_of(s, input) == removal(s),
        !s.closed && !(result_of(s, input) matches Err(e) && e.spec_is_fatal()) ==> !after(
            s,
            input,
        ).closed,
        s.closed ==> after(s, input) == s && effects_of(s, input).len() == 0,
{
}

/// A step that fails without ending the session leaves the identity and
/// the pending heartbeat as they were and reaches no actor: all it leads to
/// is a reply to the client.
pub proof fn law_rejected_message_reaches_nobody(s: ClientState, input: HandlerInput)
    requires
        !s.closed,
        result_of(s, input) matches Err(e) && !e.spec_is_fatal(),
    ensures
        after(s, input).id == s.id,
        after(s, input).watchdog_sent == s.watchdog_sent,
        forall|k: int|
            0 <= k < effects_of(s, input).len() ==> (#[trigger] effects_of(
                s,
                input,
            )[k]) is Reply,
{
}

} // verus!
