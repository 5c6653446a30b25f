use std::collections::VecDeque;

use lamarrs::action_messages::Action;
use lamarrs::exchange_messages::ExchangeMessage;
use lamarrs::identity::{RelativeLocation, Service};
use lamarrs::payload::{ColourRgb, Subtitles};
use lamarrs::sequencer::{Sequence, SequenceStep, Sequencer, SequencerCommand};
use lamarrs::services::{InternalEventMessageServer, LamarrsServiceError};

fn blue() -> Action {
    Action::ChangeColour(ColourRgb::new(0, 0, 255))
}

fn done() -> Action {
    Action::ShowSubtitles(Subtitles::new("done").unwrap())
}

fn step(name: &str, action: Action, duration: Option<u64>) -> SequenceStep {
    SequenceStep { name: name.to_string(), action, target_location: None, duration }
}

fn sequencer(steps: Vec<SequenceStep>) -> Sequencer {
    Sequencer::new(Sequence { version: 1, sequence: VecDeque::from(steps) })
}

fn dispatch(service: Service, action: Action, place: Option<RelativeLocation>) -> SequencerCommand {
    SequencerCommand::Dispatch(service, InternalEventMessageServer::PerformAction(action, place))
}

#[test]
fn a_sequence_without_steps_idles_at_once() {
    let mut s = sequencer(vec![]);
    assert_eq!(s.remaining(), 0);
    assert!(s.handle(ExchangeMessage::NextScene).is_empty());
    assert!(s.handle(ExchangeMessage::RetriggerScene).is_empty());
    assert_eq!(s.remaining(), 0);
}

#[test]
fn scenario_auto_advance_then_hold() {
    let mut s = sequencer(vec![step("one", blue(), Some(1000)), step("two", done(), None)]);
    let commands = s.handle(ExchangeMessage::NextScene);
    assert_eq!(
        commands,
        vec![
            dispatch(Service::Colour, blue(), None),
            SequencerCommand::Sleep(1000),
            dispatch(Service::Subtitle, done(), None),
        ]
    );
    assert_eq!(s.remaining(), 0);
    // The queue is empty: another trigger does nothing.
    assert!(s.handle(ExchangeMessage::NextScene).is_empty());
    // The last scene can still be played again.
    assert_eq!(
        s.handle(ExchangeMessage::RetriggerScene),
        vec![dispatch(Service::Subtitle, done(), None)]
    );
}

#[test]
fn a_trigger_stops_at_the_first_scene_without_duration() {
    let left = Some(RelativeLocation::Left);
    let mut hold = step("hold", blue(), None);
    hold.target_location = left;
    let mut s = sequencer(vec![
        hold,
        step("a", done(), Some(5)),
        step("b", blue(), Some(7)),
        step("c", done(), None),
        step("d", blue(), Some(9)),
    ]);
    assert_eq!(s.handle(ExchangeMessage::NextScene), vec![dispatch(Service::Colour, blue(), left)]);
    assert_eq!(s.remaining(), 4);
    assert_eq!(
        s.handle(ExchangeMessage::RetriggerScene),
        vec![dispatch(Service::Colour, blue(), left)]
    );
    assert_eq!(s.remaining(), 4);
    assert_eq!(
        s.next_scene(),
        vec![
            dispatch(Service::Subtitle, done(), None),
            SequencerCommand::Sleep(5),
            dispatch(Service::Colour, blue(), None),
            SequencerCommand::Sleep(7),
            dispatch(Service::Subtitle, done(), None),
        ]
    );
    assert_eq!(s.remaining(), 1);
    // The last scene has a duration and nothing behind it.
    assert_eq!(
        s.handle(ExchangeMessage::NextScene),
        vec![dispatch(Service::Colour, blue(), None), SequencerCommand::Sleep(9)]
    );
    assert_eq!(s.remaining(), 0);
    assert_eq!(
        s.handle(ExchangeMessage::RetriggerScene),
        vec![dispatch(Service::Colour, blue(), None)]
    );
}

#[test]
fn other_messages_are_discarded() {
    let mut s = sequencer(vec![step("one", blue(), None)]);
    assert!(s.handle(ExchangeMessage::RetriggerScene).is_empty());
    assert!(s.handle(ExchangeMessage::Heartbeat).is_empty());
    assert!(s.handle(ExchangeMessage::HeartbeatAck).is_empty());
    assert_eq!(s.remaining(), 1);
    assert_eq!(
        Sequencer::dispatch_action_to_perform(&step("x", done(), Some(1))),
        dispatch(Service::Subtitle, done(), None)
    );
}

#[test]
fn only_version_one_is_played() {
    let one = Sequence { version: 1, sequence: VecDeque::from(vec![step("a", blue(), None)]) };
    assert!(one.is_supported());
    assert_eq!(Sequencer::try_new(one).map(|s| s.remaining()), Ok(1));
    for version in [0, 2, 255] {
        let other = Sequence { version, sequence: VecDeque::new() };
        assert!(!other.is_supported());
        assert_eq!(Sequencer::try_new(other).err(), Some(LamarrsServiceError::Sequencer));
    }
}
