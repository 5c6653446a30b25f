use lamarrs::action_messages::{Action, Event};
use lamarrs::exchange_messages::{AckResult, ExchangeMessage, NackResult};
use lamarrs::identity::{ClientIdAndLocation, RelativeLocation, Service};
use lamarrs::mqtt::{on_mqtt_published, MqttCommand};
use lamarrs::payload::{AudioFile, ColourRgb, PresetIndex, Subtitles};
use lamarrs::services::{
    location_eq, Delivery, InternalEventMessageServer, LamarrsServiceError, ServiceActor,
    TargetClient,
};

const A1: u128 = 0xa1;
const B1: u128 = 0xb1;
const MAILBOX_A: u64 = 10;
const MAILBOX_B: u64 = 20;

fn id(uuid: u128, location: Option<RelativeLocation>) -> ClientIdAndLocation {
    ClientIdAndLocation::new(uuid, location)
}

fn red() -> Action {
    Action::ChangeColour(ColourRgb::new(255, 0, 0))
}

/// What the ingress and the actor do with an orchestrator's publication.
fn publish(actors: &mut [ServiceActor], payload: &str) -> Vec<Delivery> {
    match on_mqtt_published(payload.as_bytes()) {
        MqttCommand::Dispatch(service, event) => {
            let actor = actors.iter_mut().find(|a| a.service() == service).unwrap();
            let out = actor.handle(event);
            assert_eq!(out.result, Ok(()));
            out.deliveries
        }
        other => panic!("not dispatched: {other:?}"),
    }
}

#[test]
fn a_new_actor_has_nobody() {
    let actor = ServiceActor::new(Service::Colour);
    assert_eq!(actor.service(), Service::Colour);
    assert_eq!(actor.len(), 0);
    assert_eq!(actor.target(A1), None);
}

#[test]
fn scenario_location_targeted_colour() {
    let mut actors = [ServiceActor::new(Service::Colour)];
    let a = actors[0].insert_target_client(id(A1, Some(RelativeLocation::Left)), MAILBOX_A);
    assert_eq!(a.result, Ok(()));
    let b = actors[0].insert_target_client(id(B1, Some(RelativeLocation::Right)), MAILBOX_B);
    assert_eq!(b.result, Ok(()));
    let deliveries = publish(
        &mut actors,
        "{\"Request\":[{\"PerformAction\":{\"ChangeColour\":{\"r\":255,\"g\":0,\"b\":0}}},\"Left\"]}",
    );
    assert_eq!(
        deliveries,
        vec![Delivery {
            subscriber: A1,
            mailbox: MAILBOX_A,
            message: ExchangeMessage::Scene(Event::PerformAction(red())),
        }]
    );
}

#[test]
fn scenario_filter_without_location_reaches_those_without_location() {
    let mut actors = [ServiceActor::new(Service::Colour), ServiceActor::new(Service::Subtitle)];
    actors[1].insert_target_client(id(A1, None), MAILBOX_A);
    actors[1].insert_target_client(id(B1, Some(RelativeLocation::Center)), MAILBOX_B);
    let deliveries = publish(
        &mut actors,
        "{\"Request\":[{\"PerformAction\":{\"ShowSubtitles\":\"hello\"}},null]}",
    );
    assert_eq!(
        deliveries,
        vec![Delivery {
            subscriber: A1,
            mailbox: MAILBOX_A,
            message: ExchangeMessage::Scene(Event::PerformAction(Action::ShowSubtitles(
                Subtitles::new("hello").unwrap()
            ))),
        }]
    );
}

#[test]
fn scenario_duplicate_subscribe() {
    let mut actor = ServiceActor::new(Service::AudioPlayer);
    let first = actor.insert_target_client(id(A1, None), MAILBOX_A);
    assert_eq!(first.result, Ok(()));
    assert_eq!(
        first.deliveries,
        vec![Delivery {
            subscriber: A1,
            mailbox: MAILBOX_A,
            message: ExchangeMessage::Ack(AckResult::Success),
        }]
    );
    // The same client again, on another mailbox and with another location.
    let second = actor.insert_target_client(id(A1, Some(RelativeLocation::Left)), MAILBOX_B);
    assert_eq!(
        second.result,
        Err(LamarrsServiceError::ClientAlreadySubscribed { service: Service::AudioPlayer })
    );
    assert_eq!(
        second.deliveries,
        vec![Delivery {
            subscriber: A1,
            mailbox: MAILBOX_A,
            message: ExchangeMessage::Nack(NackResult::AlreadySubscribed),
        }]
    );
    assert_eq!(actor.len(), 1);
    assert_eq!(actor.target(A1), Some(TargetClient { sender: MAILBOX_A, location: None }));
}

#[test]
fn scenario_re_registration_refreshes_the_mailbox() {
    let mut actor = ServiceActor::new(Service::Colour);
    actor.insert_target_client(id(A1, None), MAILBOX_A);
    // The client comes back on a new connection and registers again.
    let update = actor.handle(InternalEventMessageServer::UpdateClientData(
        id(A1, Some(RelativeLocation::Left)),
        MAILBOX_B,
    ));
    assert_eq!(update.result, Ok(()));
    assert_eq!(
        update.deliveries,
        vec![Delivery {
            subscriber: A1,
            mailbox: MAILBOX_B,
            message: ExchangeMessage::Ack(AckResult::UpdatedSubscription),
        }]
    );
    assert_eq!(
        actor.target(A1),
        Some(TargetClient { sender: MAILBOX_B, location: Some(RelativeLocation::Left) })
    );
    let scene = actor.write_to_target_clients(red(), Some(RelativeLocation::Left));
    assert_eq!(scene.deliveries.len(), 1);
    assert_eq!(scene.deliveries[0].mailbox, MAILBOX_B);
}

#[test]
fn update_of_a_stranger_is_an_error_without_answer() {
    let mut actor = ServiceActor::new(Service::Midi);
    let out = actor.update_target_client(id(A1, None), MAILBOX_A);
    assert_eq!(out.result, Err(LamarrsServiceError::ClientNotFound { service: Service::Midi }));
    assert!(out.deliveries.is_empty());
    assert_eq!(actor.len(), 0);
}

#[test]
fn remove_takes_the_entry_out() {
    let mut actor = ServiceActor::new(Service::Subtitle);
    actor.insert_target_client(id(A1, None), MAILBOX_A);
    actor.insert_target_client(id(B1, None), MAILBOX_B);
    let out = actor.remove_target_client(id(A1, Some(RelativeLocation::Right)));
    assert_eq!(out.result, Ok(()));
    assert!(out.deliveries.is_empty());
    assert_eq!(actor.len(), 1);
    assert_eq!(actor.target(A1), None);
    assert!(actor.target(B1).is_some());
    let again = actor.remove_target_client(id(A1, None));
    assert_eq!(
        again.result,
        Err(LamarrsServiceError::ClientNotFound { service: Service::Subtitle })
    );
    assert_eq!(actor.len(), 1);
}

#[test]
fn in_the_table_after_a_run_of_subscriptions_and_removals() {
    let mut actor = ServiceActor::new(Service::Colour);
    let add = |u| InternalEventMessageServer::AddTargetClient(id(u, None), MAILBOX_A);
    let del = |u| InternalEventMessageServer::RemoveTargetClient(id(u, None));
    // A: subscribed, removed, subscribed: once more often than removed, so in.
    // B: subscribed, removed: as often as removed, so out.
    for e in [add(A1), add(B1), del(A1), del(B1), add(A1)] {
        assert_eq!(actor.handle(e).result, Ok(()));
    }
    assert!(actor.target(A1).is_some());
    assert!(actor.target(B1).is_none());
    assert_eq!(actor.len(), 1);
}

#[test]
fn every_matching_subscriber_gets_the_scene_once() {
    let mut actor = ServiceActor::new(Service::Colour);
    let places = [
        Some(RelativeLocation::Left),
        Some(RelativeLocation::Left),
        Some(RelativeLocation::Center),
        Some(RelativeLocation::Right),
        Some(RelativeLocation::Center),
        None,
    ];
    for (i, place) in places.iter().enumerate() {
        actor.insert_target_client(id(i as u128, *place), 100 + i as u64);
    }
    for filter in [
        Some(RelativeLocation::Center),
        Some(RelativeLocation::Right),
        Some(RelativeLocation::Left),
        None,
    ] {
        let out = actor.write_to_target_clients(red(), filter);
        assert_eq!(out.result, Ok(()));
        let mut got: Vec<u128> = out.deliveries.iter().map(|d| d.subscriber).collect();
        got.sort();
        let want: Vec<u128> = places
            .iter()
            .enumerate()
            .filter(|(_, p)| **p == filter)
            .map(|(i, _)| i as u128)
            .collect();
        assert_eq!(got, want);
        for d in &out.deliveries {
            assert_eq!(d.mailbox, 100 + d.subscriber as u64);
            assert_eq!(d.message, ExchangeMessage::Scene(Event::PerformAction(red())));
        }
    }
    assert_eq!(actor.len(), places.len());
}

#[test]
fn each_service_allows_its_own_action_only() {
    let actions = [
        (Service::Subtitle, Action::ShowSubtitles(Subtitles::new("s").unwrap())),
        (Service::Colour, red()),
        (Service::AudioPlayer, Action::PlayAudio(AudioFile::new("a", "wav").unwrap())),
        (Service::Midi, Action::MidiProgram(PresetIndex::new(3).unwrap())),
    ];
    for service in [Service::Subtitle, Service::Colour, Service::AudioPlayer, Service::Midi] {
        let mut actor = ServiceActor::new(service);
        actor.insert_target_client(id(A1, None), MAILBOX_A);
        for (owner, action) in actions {
            assert_eq!(action.service(), owner);
            assert_eq!(actor.action_is_allowed(&action), owner == service);
            let out = actor.write_to_target_clients(action, None);
            if owner == service {
                assert_eq!(out.result, Ok(()));
                assert_eq!(out.deliveries.len(), 1);
            } else {
                assert_eq!(
                    out.result,
                    Err(LamarrsServiceError::NotAllowedMessageType {
                        action_message: action,
                        service,
                    })
                );
                assert!(out.deliveries.is_empty());
            }
            assert_eq!(actor.len(), 1);
        }
    }
}

#[test]
fn locations_compare_as_options() {
    assert!(location_eq(None, None));
    assert!(location_eq(Some(RelativeLocation::Left), Some(RelativeLocation::Left)));
    assert!(!location_eq(Some(RelativeLocation::Left), Some(RelativeLocation::Right)));
    assert!(!location_eq(Some(RelativeLocation::Left), None));
    assert!(!location_eq(None, Some(RelativeLocation::Center)));
}
