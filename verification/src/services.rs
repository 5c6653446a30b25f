//! A service actor: the table of the clients subscribed to one service, and
//! what the actor does with each message of its mailbox.
//!
//! The actor decides; whoever runs it performs the deliveries it returns. A
//! delivery that fails on a closed mailbox changes nothing here: an entry
//! leaves the table only on a message that removes it.

use std::collections::HashMap;
use vstd::prelude::*;
use crate::action_messages::{Action, Event};
use crate::exchange_messages::{AckResult, ExchangeMessage, NackResult};
use crate::identity::{ClientIdAndLocation, RelativeLocation, Service, Uuid};

verus! {

/// Names the mailbox of a client handler. Whoever runs the actors owns the
/// queues and hands these names out.
pub type MailboxId = u64;

/// How many messages a mailbox holds before its senders wait.
pub const MAILBOX_CAPACITY: usize = 32;

/// The messages of a service actor's mailbox.
#[derive(Clone, Copy, Debug, PartialEq, Eq)]
pub enum InternalEventMessageServer {
    AddTargetClient(ClientIdAndLocation, MailboxId),
    RemoveTargetClient(ClientIdAndLocation),
    UpdateClientData(ClientIdAndLocation, MailboxId),
    PerformAction(Action, Option<RelativeLocation>),
}

/// A subscriber as the table holds it.
#[derive(Clone, Copy, Debug, PartialEq, Eq, Structural)]
pub struct TargetClient {
    pub sender: MailboxId,
    pub location: Option<RelativeLocation>,
}

/// Why a service actor could not do what a message asked.
#[derive(Clone, Copy, Debug, PartialEq, Eq)]
pub enum LamarrsServiceError {
    /// The service met something it cannot recover from.
    Service { service: Service },
    /// The sequencer has no timeline that it can play.
    Sequencer,
    /// A message for a client could not be delivered.
    SendExchangeMessage,
    /// A message for an actor could not be delivered.
    SendInternalEventMessage,
    /// The action belongs to another service.
    NotAllowedMessageType { action_message: Action, service: Service },
    /// The client is not in the table.
    ClientNotFound { service: Service },
    /// The client is in the table already.
    ClientAlreadySubscribed { service: Service },
}

/// A message for the mailbox of one subscriber.
#[derive(Clone, Copy, Debug, PartialEq, Eq)]
pub struct Delivery {
    pub subscriber: Uuid,
    pub mailbox: MailboxId,
    pub message: ExchangeMessage,
}

/// What handling one message came to: the deliveries to make, in order, and
/// the outcome to report.
#[derive(Debug)]
pub struct ServiceOutcome {
    pub deliveries: Vec<Delivery>,
    pub result: Result<(), LamarrsServiceError>,
}

/// The subscriber table as a map from identifier to entry.
pub type Table = Map<Uuid, TargetClient>;

/// The entry that a client with this identity and mailbox gets.
pub open spec fn entry_of(id: ClientIdAndLocation, sender: MailboxId) -> TargetClient {
    TargetClient { sender, location: id.location }
}

/// Whether the action is the one this service broadcasts.
pub open spec fn allowed(kind: Service, action: Action) -> bool {
    action.spec_service() == kind
}

/// Whether an entry is a target of a broadcast with this filter: either both
/// have no location, or both have the same.
pub open spec fn targeted(entry: TargetClient, filter: Option<RelativeLocation>) -> bool {
    entry.location == filter
}

/// The table after a message.
pub open spec fn table_after(table: Table, event: InternalEventMessageServer) -> Table {
    match event {
        InternalEventMessageServer::AddTargetClient(id, sender) => if table.contains_key(
            id.uuid,
        ) {
            table
        } else {
            table.insert(id.uuid, entry_of(id, sender))
        },
        InternalEventMessageServer::RemoveTargetClient(id) => table.remove(id.uuid),
        InternalEventMessageServer::UpdateClientData(id, sender) => if table.contains_key(
            id.uuid,
        ) {
            table.insert(id.uuid, entry_of(id, sender))
        } else {
            table
        },
        InternalEventMessageServer::PerformAction(_, _) => table,
    }
}

/// The outcome that handling a message reports.
pub open spec fn result_of(kind: Service, table: Table, event: InternalEventMessageServer)
    -> Result<(), LamarrsServiceError> {
    match event {
        InternalEventMessageServer::AddTargetClient(id, _) => if table.contains_key(id.uuid) {
            Err(LamarrsServiceError::ClientAlreadySubscribed { service: kind })
        } else {
            Ok(())
        },
        InternalEventMessageServer::RemoveTargetClient(id) => if table.contains_key(id.uuid) {
            Ok(())
        } else {
            Err(LamarrsServiceError::ClientNotFound { service: kind })
        },
        InternalEventMessageServer::UpdateClientData(id, _) => if table.contains_key(id.uuid) {
            Ok(())
        } else {
            Err(LamarrsServiceError::ClientNotFound { service: kind })
        },
        InternalEventMessageServer::PerformAction(action, _) => if allowed(kind, action) {
            Ok(())
        } else {
            Err(
                LamarrsServiceError::NotAllowedMessageType {
                    action_message: action,
                    service: kind,
                },
            )
        },
    }
}

/// The scene that a broadcast of this action delivers.
pub open spec fn scene_of(action: Action) -> ExchangeMessage {
    ExchangeMessage::Scene(Event::PerformAction(action))
}

/// The deliveries of a broadcast: every targeted subscriber gets the scene
/// once, on the mailbox the table holds for it, and nobody else gets
/// anything. The order is that of the table, which is not fixed.
pub open spec fn is_broadcast(
    table: Table,
    action: Action,
    filter: Option<RelativeLocation>,
    deliveries: Seq<Delivery>,
) -> bool {
    &&& forall|i: int|
        0 <= i < deliveries.len() ==> {
            let d = #[trigger] deliveries[i];
            &&& table.contains_key(d.subscriber)
            &&& targeted(table[d.subscriber], filter)
            &&& d.mailbox == table[d.subscriber].sender
            &&& d.message == scene_of(action)
        }
    &&& forall|u: Uuid| #[trigger]
        table.contains_key(u) && targeted(table[u], filter) ==> receives(deliveries, u)
    &&& forall|i: int, j: int|
        0 <= i < j < deliveries.len() ==> (#[trigger] deliveries[i]).subscriber != (
        #[trigger] deliveries[j]).subscriber
}

/// Whether some delivery is for this subscriber.
pub open spec fn receives(deliveries: Seq<Delivery>, u: Uuid) -> bool {
    exists|i: int| 0 <= i < deliveries.len() && (#[trigger] deliveries[i]).subscriber == u
}

/// The deliveries that handling a message makes.
pub open spec fn delivers(
    kind: Service,
    table: Table,
    event: InternalEventMessageServer,
    deliveries: Seq<Delivery>,
) -> bool {
    match event {
        InternalEventMessageServer::AddTargetClient(id, sender) => if table.contains_key(
            id.uuid,
        ) {
            deliveries == seq![
                Delivery {
                    subscriber: id.uuid,
                    mailbox: table[id.uuid].sender,
                    message: ExchangeMessage::Nack(NackResult::AlreadySubscribed),
                },
            ]
        } else {
            deliveries == seq![
                Delivery {
                    subscriber: id.uuid,
                    mailbox: sender,
                    message: ExchangeMessage::Ack(AckResult::Success),
                },
            ]
        },
        InternalEventMessageServer::RemoveTargetClient(_) => deliveries.len() == 0,
        InternalEventMessageServer::UpdateClientData(id, sender) => if table.contains_key(
            id.uuid,
        ) {
            deliveries == seq![
                Delivery {
                    subscriber: id.uuid,
                    mailbox: sender,
                    message: ExchangeMessage::Ack(AckResult::UpdatedSubscription),
                },
            ]
        } else {
            deliveries.len() == 0
        },
        InternalEventMessageServer::PerformAction(action, filter) => if allowed(kind, action) {
            is_broadcast(table, action, filter, deliveries)
        } else {
            deliveries.len() == 0
        },
    }
}

/// The actor of one service.
pub struct ServiceActor {
    kind: Service,
    targets: HashMap<Uuid, TargetClient>,
}

impl View for ServiceActor {
    type V = Table;

    /// The subscriber table.
    closed spec fn view(&self) -> Table {
        self.targets@
    }
}

impl ServiceActor {
    /// The service this actor serves.
    pub closed spec fn kind(&self) -> Service {
        self.kind
    }

    /// The actor of a service, with nobody subscribed.
    pub fn new(kind: Service) -> (actor: Self)
        ensures
            actor.kind() == kind,
            actor@ == Map::<Uuid, TargetClient>::empty(),
    {
        ServiceActor { kind, targets: HashMap::new() }
    }

    /// The service this actor serves.
    pub fn service(&self) -> (kind: Service)
        ensures
            kind == self.kind(),
    {
        self.kind
    }

    /// Number of subscribers.
    pub fn len(&self) -> (n: usize)
        ensures
            n == self@.len(),
    {
        broadcast use vstd::std_specs::hash::group_hash_axioms;

        self.targets.len()
    }

    /// The entry of a subscriber.
    pub fn target(&self, uuid: Uuid) -> (r: Option<TargetClient>)
        ensures
            r == (if self@.contains_key(uuid) {
                Some(self@[uuid])
            } else {
                None
            }),
    {
        broadcast use vstd::std_specs::hash::group_hash_axioms;

        match self.targets.get(&uuid) {
            Some(entry) => Some(*entry),
            None => None,
        }
    }

    /// Whether the action is the one this service broadcasts: subtitles for
    /// the subtitle service, a colour for the colour service, an audio file
    /// for the playback service, a preset for the MIDI service.
    pub fn action_is_allowed(&self, message: &Action) -> (b: bool)
        ensures
            b == allowed(self.kind(), *message),
    {
        match (self.kind, message) {
            (Service::Subtitle, Action::ShowSubtitles(_)) => true,
            (Service::Colour, Action::ChangeColour(_)) => true,
            (Service::AudioPlayer, Action::PlayAudio(_)) => true,
            (Service::Midi, Action::MidiProgram(_)) => true,
            _ => false,
        }
    }

    /// Handles one message of the mailbox.
    pub fn handle(&mut self, event: InternalEventMessageServer) -> (out: ServiceOutcome)
        ensures
            final(self).kind() == old(self).kind(),
            final(self)@ == table_after(old(self)@, event),
            out.result == result_of(old(self).kind(), old(self)@, event),
            delivers(old(self).kind(), old(self)@, event, out.deliveries@),
    {
        match event {
            InternalEventMessageServer::AddTargetClient(id, sender) => self.insert_target_client(
                id,
                sender,
            ),
            InternalEventMessageServer::UpdateClientData(id, sender) => self.update_target_client(
                id,
                sender,
            ),
            InternalEventMessageServer::RemoveTargetClient(id) => self.remove_target_client(id),
            InternalEventMessageServer::PerformAction(action, filter) => {
                self.write_to_target_clients(action, filter)
            },
        }
    }

    /// Refreshes the entry of a client that is in the table: its mailbox and
    /// its location are replaced, and the new mailbox is told so. A client
    /// that is not in the table is an error and gets no answer.
    pub fn update_target_client(&mut self, id: ClientIdAndLocation, sender: MailboxId) -> (out:
        ServiceOutcome)
        ensures
            final(self).kind() == old(self).kind(),
            final(self)@ == table_after(
                old(self)@,
                InternalEventMessageServer::UpdateClientData(id, sender),
            ),
            out.result == result_of(
                old(self).kind(),
                old(self)@,
                InternalEventMessageServer::UpdateClientData(id, sender),
            ),
            delivers(
                old(self).kind(),
                old(self)@,
                InternalEventMessageServer::UpdateClientData(id, sender),
                out.deliveries@,
            ),
    {
        broadcast use vstd::std_specs::hash::group_hash_axioms;

        let mut deliveries: Vec<Delivery> = Vec::new();
        if self.targets.contains_key(&id.uuid) {
            self.targets.insert(id.uuid, TargetClient { sender, location: id.location });
            deliveries.push(
                Delivery {
                    subscriber: id.uuid,
                    mailbox: sender,
                    message: ExchangeMessage::Ack(AckResult::UpdatedSubscription),
                },
            );
            proof {
                assert(deliveries@ =~= seq![
                    Delivery {
                        subscriber: id.uuid,
                        mailbox: sender,
                        message: ExchangeMessage::Ack(AckResult::UpdatedSubscription),
                    },
                ]);
            }
            ServiceOutcome { deliveries, result: Ok(()) }
        } else {
            ServiceOutcome {
                deliveries,
                result: Err(LamarrsServiceError::ClientNotFound { service: self.kind }),
            }
        }
    }

    /// Subscribes a client. One that is in the table already stays as it is:
    /// the mailbox the table holds for it is told `AlreadySubscribed` and the
    /// caller gets an error. A new one is added and told `Success` on the
    /// mailbox it brought.
    pub fn insert_target_client(&mut self, id: ClientIdAndLocation, sender: MailboxId) -> (out:
        ServiceOutcome)
        ensures
            final(self).kind() == old(self).kind(),
            final(self)@ == table_after(
                old(self)@,
                InternalEventMessageServer::AddTargetClient(id, sender),
            ),
            out.result == result_of(
                old(self).kind(),
                old(self)@,
                InternalEventMessageServer::AddTargetClient(id, sender),
            ),
            delivers(
                old(self).kind(),
                old(self)@,
                InternalEventMessageServer::AddTargetClient(id, sender),
                out.deliveries@,
            ),
    {
        broadcast use vstd::std_specs::hash::group_hash_axioms;

        let mut deliveries: Vec<Delivery> = Vec::new();
        let existing = self.target(id.uuid);
        match existing {
            Some(entry) => {
                deliveries.push(
                    Delivery {
                        subscriber: id.uuid,
                        mailbox: entry.sender,
                        message: ExchangeMessage::Nack(NackResult::AlreadySubscribed),
                    },
                );
                proof {
                    assert(deliveries@ =~= seq![
                        Delivery {
                            subscriber: id.uuid,
                            mailbox: entry.sender,
                            message: ExchangeMessage::Nack(NackResult::AlreadySubscribed),
                        },
                    ]);
                }
                ServiceOutcome {
                    deliveries,
                    result: Err(
                        LamarrsServiceError::ClientAlreadySubscribed { service: self.kind },
                    ),
                }
            },
            None => {
                self.targets.insert(id.uuid, TargetClient { sender, location: id.location });
                deliveries.push(
                    Delivery {
                        subscriber: id.uuid,
                        mailbox: sender,
                        message: ExchangeMessage::Ack(AckResult::Success),
                    },
                );
                proof {
                    assert(deliveries@ =~= seq![
                        Delivery {
                            subscriber: id.uuid,
                            mailbox: sender,
                            message: ExchangeMessage::Ack(AckResult::Success),
                        },
                    ]);
                }
                ServiceOutcome { deliveries, result: Ok(()) }
            },
        }
    }

    /// Removes a client from the table. One that is not there is an error,
    /// and the table stays as it is.
    pub fn remove_target_client(&mut self, id: ClientIdAndLocation) -> (out: ServiceOutcome)
        ensures
            final(self).kind() == old(self).kind(),
            final(self)@ == table_after(
                old(self)@,
                InternalEventMessageServer::RemoveTargetClient(id),
            ),
            out.result == result_of(
                old(self).kind(),
                old(self)@,
                InternalEventMessageServer::RemoveTargetClient(id),
            ),
            delivers(
                old(self).kind(),
                old(self)@,
                InternalEventMessageServer::RemoveTargetClient(id),
                out.deliveries@,
            ),
    {
        broadcast use vstd::std_specs::hash::group_hash_axioms;

        let deliveries: Vec<Delivery> = Vec::new();
        match self.targets.remove(&id.uuid) {
            Some(_) => ServiceOutcome { deliveries, result: Ok(()) },
            None => ServiceOutcome {
                deliveries,
                result: Err(LamarrsServiceError::ClientNotFound { service: self.kind }),
            },
        }
    }

    /// Broadcasts an action. One that belongs to another service is an
    /// error and reaches nobody. Otherwise every subscriber whose location
    /// is the filter's, or who has none when the filter has none, gets the
    /// scene once; the others are passed over.
    pub fn write_to_target_clients(
        &mut self,
        action: Action,
        filter: Option<RelativeLocation>,
    ) -> (out: ServiceOutcome)
        ensures
            final(self).kind() == old(self).kind(),
            final(self)@ == old(self)@,
            out.result == result_of(
                old(self).kind(),
                old(self)@,
                InternalEventMessageServer::PerformAction(action, filter),
            ),
            delivers(
                old(self).kind(),
                old(self)@,
                InternalEventMessageServer::PerformAction(action, filter),
                out.deliveries@,
            ),
    {
        if !self.action_is_allowed(&action) {
            return ServiceOutcome {
                deliveries: Vec::new(),
                result: Err(
                    LamarrsServiceError::NotAllowedMessageType {
                        action_message: action,
                        service: self.kind,
                    },
                ),
            };
        }
        let deliveries = broadcast_to(&self.targets, action, filter);
        ServiceOutcome { deliveries, result: Ok(()) }
    }
}

spec fn seen(s: Seq<(&Uuid, &TargetClient)>, n: int, u: Uuid) -> bool {
    exists|j: int| 0 <= j < n && j < s.len() && *(#[trigger] s[j]).0 == u
}

fn broadcast_to(
    targets: &HashMap<Uuid, TargetClient>,
    action: Action,
    filter: Option<RelativeLocation>,
) -> (out: Vec<Delivery>)
    ensures
        is_broadcast(targets@, action, filter, out@),
{
    broadcast use vstd::std_specs::hash::group_hash_axioms;

    let ghost table = targets@;
    let message = ExchangeMessage::Scene(Event::PerformAction(action));
    let mut out: Vec<Delivery> = Vec::new();
    for pair in it: targets.iter()
        invariant
            table == targets@,
            message == scene_of(action),
            it.seq().no_duplicates(),
            forall|i: int|
                0 <= i < it.seq().len() ==> table.contains_key(*(#[trigger] it.seq()[i]).0)
                    && table[*it.seq()[i].0] == *it.seq()[i].1,
            forall|u: Uuid| #[trigger]
                table.contains_key(u) ==> it.seq().contains((&u, &table[u])),
            forall|i: int|
                0 <= i < out@.len() ==> {
                    let d = #[trigger] out@[i];
                    &&& table.contains_key(d.subscriber)
                    &&& targeted(table[d.subscriber], filter)
                    &&& d.mailbox == table[d.subscriber].sender
                    &&& d.message == scene_of(action)
                    &&& seen(it.seq(), it.index(), d.subscriber)
                },
            forall|j: int|
                0 <= j < it.index() && targeted(*(#[trigger] it.seq()[j]).1, filter) ==> receives(
                    out@,
                    *it.seq()[j].0,
                ),
            forall|i: int, j: int|
                0 <= i < j < out@.len() ==> (#[trigger] out@[i]).subscriber != (
                #[trigger] out@[j]).subscriber,
            it.index() == it.seq().len() ==> forall|u: Uuid| #[trigger]
                table.contains_key(u) && targeted(table[u], filter) ==> receives(out@, u),
    {
        let (uuid, entry) = pair;
        let ghost prev = out@;
        let ghost idx = it.index();
        assert(pair == it.seq()[idx]);
        if location_eq(entry.location, filter) {
            proof {
                assert forall|i: int| 0 <= i < prev.len() implies (
                #[trigger] prev[i]).subscriber != *uuid by {
                    if prev[i].subscriber == *uuid {
                        let j = choose|j: int|
                            0 <= j < idx && j < it.seq().len() && *(#[trigger] it.seq()[j]).0
                                == prev[i].subscriber;
                        assert(it.seq()[j] == it.seq()[idx]);
                    }
                }
            }
            out.push(Delivery { subscriber: *uuid, mailbox: entry.sender, message });
            proof {
                assert(out@[prev.len() as int].subscriber == *uuid);
                assert forall|j: int|
                    0 <= j < idx + 1 && targeted(
                        *(#[trigger] it.seq()[j]).1,
                        filter,
                    ) implies receives(out@, *it.seq()[j].0) by {
                    if j < idx {
                        let i = choose|i: int|
                            0 <= i < prev.len() && (#[trigger] prev[i]).subscriber
                                == *it.seq()[j].0;
                        assert(out@[i] == prev[i]);
                    }
                }
            }
        }
        proof {
            assert forall|i: int| 0 <= i < out@.len() implies seen(
                it.seq(),
                idx + 1,
                (#[trigger] out@[i]).subscriber,
            ) by {
                if i < prev.len() {
                    assert(out@[i] == prev[i]);
                    let j = choose|j: int|
                        0 <= j < idx && j < it.seq().len() && *(#[trigger] it.seq()[j]).0
                            == prev[i].subscriber;
                    assert(*it.seq()[j].0 == out@[i].subscriber);
                } else {
                    assert(*it.seq()[idx].0 == out@[i].subscriber);
                }
            }
            assert forall|u: Uuid|
                idx + 1 == it.seq().len() && #[trigger] table.contains_key(u) && targeted(
                    table[u],
                    filter,
                ) implies receives(out@, u) by {
                let p = (&u, &table[u]);
                assert(it.seq().contains(p));
                let j = choose|j: int| 0 <= j < it.seq().len() && it.seq()[j] == p;
                assert(targeted(*it.seq()[j].1, filter));
            }
        }
    }
    out
}

/// Whether two optional locations are the same.
pub fn location_eq(a: Option<RelativeLocation>, b: Option<RelativeLocation>) -> (r: bool)
    ensures
        r == (a == b),
{
    match (a, b) {
        (None, None) => true,
        (Some(x), Some(y)) => x == y,
        _ => false,
    }
}

// --------------------------------------------------------------- laws

/// The table after a run of messages, the first handled first.
pub open spec fn table_after_all(table: Table, events: Seq<InternalEventMessageServer>) -> Table
    decreases events.len(),
{
    if events.len() == 0 {
        table
    } else {
        table_after(table_after_all(table, events.drop_last()), events.last())
    }
}

/// Whether the message subscribes the client `u`.
pub open spec fn subscribes(event: InternalEventMessageServer, u: Uuid) -> bool {
    event matches InternalEventMessageServer::AddTargetClient(id, _) && id.uuid == u
}

/// Whether the message removes the client `u`, be it on its own request or
/// because its handler ended.
pub open spec fn removes(event: InternalEventMessageServer, u: Uuid) -> bool {
    event matches InternalEventMessageServer::RemoveTargetClient(id) && id.uuid == u
}

/// How many messages of the run subscribe `u`.
pub open spec fn count_subscribes(events: Seq<InternalEventMessageServer>, u: Uuid) -> int
    decreases events.len(),
{
    if events.len() == 0 {
        0
    } else {
        count_subscribes(events.drop_last(), u) + if subscribes(events.last(), u) {
            1int
        } else {
            0int
        }
    }
}

/// How many messages of the run remove `u`.
pub open spec fn count_removes(events: Seq<InternalEventMessageServer>, u: Uuid) -> int
    decreases events.len(),
{
    if events.len() == 0 {
        0
    } else {
        count_removes(events.drop_last(), u) + if removes(events.last(), u) {
            1int
        } else {
            0int
        }
    }
}

/// Whether, in a run that starts with nobody subscribed, every message
/// about `u` takes effect: no subscription finds `u` in the table and no
/// removal finds it missing.
pub open spec fn each_takes_effect(events: Seq<InternalEventMessageServer>, u: Uuid) -> bool
    decreases events.len(),
{
    events.len() == 0 || {
        let before = table_after_all(Map::empty(), events.drop_last());
        &&& each_takes_effect(events.drop_last(), u)
        &&& subscribes(events.last(), u) ==> !before.contains_key(u)
        &&& removes(events.last(), u) ==> before.contains_key(u)
    }
}

/// After any run of messages that starts with nobody subscribed, a client is
/// in the table exactly when some message subscribed it and none removed it
/// afterwards.
pub proof fn law_subscribed_iff_not_removed_since(
    events: Seq<InternalEventMessageServer>,
    u: Uuid,
)
    ensures
        table_after_all(Map::empty(), events).contains_key(u) <==> exists|i: int|
            0 <= i < events.len() && subscribes(#[trigger] events[i], u) && forall|j: int|
                i < j < events.len() ==> !removes(#[trigger] events[j], u),
    decreases events.len(),
{
    let holds = |s: Seq<InternalEventMessageServer>|
        exists|i: int|
            0 <= i < s.len() && subscribes(#[trigger] s[i], u) && forall|j: int|
                i < j < s.len() ==> !removes(#[trigger] s[j], u);
    if events.len() > 0 {
        let front = events.drop_last();
        let last = events.last();
        let n = events.len() - 1;
        law_subscribed_iff_not_removed_since(front, u);
        assert forall|k: int| 0 <= k < n implies front[k] == events[k] by {}
        let before = table_after_all(Map::empty(), front);
        if table_after_all(Map::empty(), events).contains_key(u) {
            if subscribes(last, u) {
                assert(subscribes(events[n], u));
            } else {
                assert(before.contains_key(u));
                let i = choose|i: int|
                    0 <= i < front.len() && subscribes(#[trigger] front[i], u) && forall|j: int|
                        i < j < front.len() ==> !removes(#[trigger] front[j], u);
                assert(subscribes(events[i], u));
                assert forall|j: int| i < j < events.len() implies !removes(
                    #[trigger] events[j],
                    u,
                ) by {
                    if j < n {
                        assert(events[j] == front[j]);
                    }
                }
            }
            assert(holds(events));
        }
        if holds(events) {
            let i = choose|i: int|
                0 <= i < events.len() && subscribes(#[trigger] events[i], u) && forall|j: int|
                    i < j < events.len() ==> !removes(#[trigger] events[j], u);
            if i < n {
                assert(subscribes(front[i], u));
                assert forall|j: int| i < j < front.len() implies !removes(
                    #[trigger] front[j],
                    u,
                ) by {
                    assert(front[j] == events[j]);
                }
                assert(before.contains_key(u));
                assert(!removes(events[n], u));
            }
        }
    }
}

/// In a run that starts with nobody subscribed and in which every message
/// about a client takes effect, the client is in the table at the end
/// exactly when it was subscribed more often than removed, which is then
/// once more.
pub proof fn law_subscribed_iff_net_count_positive(
    events: Seq<InternalEventMessageServer>,
    u: Uuid,
)
    requires
        each_takes_effect(events, u),
    ensures
        table_after_all(Map::empty(), events).contains_key(u) <==> count_subscribes(events, u)
            - count_removes(events, u) > 0,
        0 <= count_subscribes(events, u) - count_removes(events, u) <= 1,
    decreases events.len(),
{
    if events.len() > 0 {
        law_subscribed_iff_net_count_positive(events.drop_last(), u);
    }
}

/// One message changes at most the entry of the client it names: whether
/// another client is in the table, and with what entry, stays as it was.
pub proof fn law_only_the_named_entry_changes(
    table: Table,
    event: InternalEventMessageServer,
    other: Uuid,
)
    requires
        match event {
            InternalEventMessageServer::AddTargetClient(id, _) => id.uuid != other,
            InternalEventMessageServer::RemoveTargetClient(id) => id.uuid != other,
            InternalEventMessageServer::UpdateClientData(id, _) => id.uuid != other,
            InternalEventMessageServer::PerformAction(_, _) => true,
        },
    ensures
        table_after(table, event).contains_key(other) == table.contains_key(other),
        table.contains_key(other) ==> table_after(table, event)[other] == table[other],
{
}

/// A broadcast reaches every targeted subscriber exactly once and nobody
/// else.
pub proof fn law_broadcast_exactly_once(
    table: Table,
    action: Action,
    filter: Option<RelativeLocation>,
    deliveries: Seq<Delivery>,
    u: Uuid,
)
    requires
        is_broadcast(table, action, filter, deliveries),
    ensures
        table.contains_key(u) && targeted(table[u], filter) ==> exists|i: int|
            0 <= i < deliveries.len() && (#[trigger] deliveries[i]).subscriber == u
                && deliveries[i].message == scene_of(action) && deliveries[i].mailbox
                == table[u].sender && forall|j: int|
                0 <= j < deliveries.len() && j != i ==> (#[trigger] deliveries[j]).subscriber
                    != u,
        !(table.contains_key(u) && targeted(table[u], filter)) ==> forall|i: int|
            0 <= i < deliveries.len() ==> (#[trigger] deliveries[i]).subscriber != u,
{
    if table.contains_key(u) && targeted(table[u], filter) {
        assert(receives(deliveries, u));
        let i = choose|i: int|
            0 <= i < deliveries.len() && (#[trigger] deliveries[i]).subscriber == u;
        assert forall|j: int| 0 <= j < deliveries.len() && j != i implies (
        #[trigger] deliveries[j]).subscriber != u by {
            if j < i {
                assert(deliveries[j].subscriber != deliveries[i].subscriber);
            } else {
                assert(deliveries[i].subscriber != deliveries[j].subscriber);
            }
        }
    }
}

/// An action that belongs to another service reaches nobody.
pub proof fn law_foreign_action_reaches_nobody(
    kind: Service,
    table: Table,
    action: Action,
    filter: Option<RelativeLocation>,
    deliveries: Seq<Delivery>,
)
    requires
        !allowed(kind, action),
        delivers(
            kind,
            table,
            InternalEventMessageServer::PerformAction(action, filter),
            deliveries,
        ),
    ensures
        deliveries.len() == 0,
        result_of(kind, table, InternalEventMessageServer::PerformAction(action, filter)) is Err,
        table_after(table, InternalEventMessageServer::PerformAction(action, filter)) == table,
{
}

} // verus!
