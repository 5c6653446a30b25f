//! The sequencer: it walks the timeline of a show, one scene per operator
//! trigger, and on by itself through the scenes that have a duration.
//!
//! The sequencer decides; whoever runs it performs the commands of a step in
//! order, sleeping where a command says so. A trigger that arrives during a
//! sleep waits in the mailbox until the commands are done.

use std::collections::VecDeque;
use vstd::prelude::*;
use crate::action_messages::Action;
use crate::exchange_messages::ExchangeMessage;
use crate::identity::{RelativeLocation, Service};
use crate::services::{allowed, InternalEventMessageServer, LamarrsServiceError};

verus! {

/// The version of the timeline format that this sequencer plays.
pub const SEQUENCE_VERSION: u8 = 1;

/// One scene of the timeline.
#[derive(Debug)]
pub struct SequenceStep {
    pub name: String,
    pub action: Action,
    pub target_location: Option<RelativeLocation>,
    /// How long the scene lasts, in milliseconds. A scene without a duration
    /// lasts until the operator triggers the next one.
    pub duration: Option<u64>,
}

/// The timeline of a show.
#[derive(Debug)]
pub struct Sequence {
    pub version: u8,
    pub sequence: VecDeque<SequenceStep>,
}

impl Sequence {
    /// Whether the timeline is in the version that this sequencer plays.
    pub fn is_supported(&self) -> (b: bool)
        ensures
            b == (self.version == 1),
    {
        self.version == SEQUENCE_VERSION
    }
}

/// What the sequencer asks to be done.
#[derive(Clone, Copy, Debug, PartialEq, Eq)]
pub enum SequencerCommand {
    /// Put the message in the mailbox of the actor of this service.
    Dispatch(Service, InternalEventMessageServer),
    /// Wait this many milliseconds.
    Sleep(u64),
}

/// The state of a sequencer.
pub struct SequencerState {
    /// The scenes still to play, the next one first.
    pub queue: Seq<SequenceStep>,
    /// The scene played last.
    pub last: Option<SequenceStep>,
}

/// The command that plays a scene: its action goes to the actor of the
/// service that performs it, for the location the scene names.
pub open spec fn dispatch_of(step: SequenceStep) -> SequencerCommand {
    SequencerCommand::Dispatch(
        step.action.spec_service(),
        InternalEventMessageServer::PerformAction(step.action, step.target_location),
    )
}

/// How many scenes one trigger plays: up to and with the first that has no
/// duration, or all that are left.
pub open spec fn plays(queue: Seq<SequenceStep>) -> nat
    decreases queue.len(),
{
    if queue.len() == 0 {
        0
    } else if queue[0].duration is None {
        1
    } else {
        1 + plays(queue.skip(1))
    }
}

/// The commands of one trigger: each scene played is dispatched, and each
/// that has a duration is followed by a sleep of that length.
pub open spec fn commands_of(queue: Seq<SequenceStep>) -> Seq<SequencerCommand>
    decreases queue.len(),
{
    if queue.len() == 0 {
        Seq::empty()
    } else {
        match queue[0].duration {
            None => seq![dispatch_of(queue[0])],
            Some(d) => seq![dispatch_of(queue[0]), SequencerCommand::Sleep(d)] + commands_of(
                queue.skip(1),
            ),
        }
    }
}

/// The state after a message.
pub open spec fn after(s: SequencerState, message: ExchangeMessage) -> SequencerState {
    match message {
        ExchangeMessage::NextScene => {
            let n = plays(s.queue);
            SequencerState {
                queue: s.queue.skip(n as int),
                last: if n == 0 {
                    s.last
                } else {
                    Some(s.queue[n - 1])
                },
            }
        },
        _ => s,
    }
}

/// The commands of a message: a trigger plays on from the queue, a
/// retrigger plays the last scene again if there is one, and anything else
/// is discarded.
pub open spec fn commands_for(s: SequencerState, message: ExchangeMessage) -> Seq<
    SequencerCommand,
> {
    match message {
        ExchangeMessage::NextScene => commands_of(s.queue),
        ExchangeMessage::RetriggerScene => match s.last {
            Some(step) => seq![dispatch_of(step)],
            None => Seq::empty(),
        },
        _ => Seq::empty(),
    }
}

/// The sequencer.
pub struct Sequencer {
    queue: VecDeque<SequenceStep>,
    last_sequence_step_played: Option<SequenceStep>,
}

impl View for Sequencer {
    type V = SequencerState;

    closed spec fn view(&self) -> SequencerState {
        SequencerState { queue: self.queue@, last: self.last_sequence_step_played }
    }
}

impl Sequencer {
    /// A sequencer at the start of a timeline.
    pub fn new(sequence: Sequence) -> (s: Self)
        ensures
            s@.queue == sequence.sequence@,
            s@.last is None,
    {
        Sequencer { queue: sequence.sequence, last_sequence_step_played: None }
    }

    /// A sequencer at the start of a timeline, unless the timeline is in a
    /// version that it does not play.
    pub fn try_new(sequence: Sequence) -> (r: Result<Self, LamarrsServiceError>)
        ensures
            match r {
                Ok(s) => sequence.version == 1 && s@.queue == sequence.sequence@ && s@.last
                    is None,
                Err(e) => sequence.version != 1 && e == LamarrsServiceError::Sequencer,
            },
    {
        if sequence.is_supported() {
            Ok(Self::new(sequence))
        } else {
            Err(LamarrsServiceError::Sequencer)
        }
    }

    /// How many scenes are still to play.
    pub fn remaining(&self) -> (n: usize)
        ensures
            n == self@.queue.len(),
    {
        self.queue.len()
    }

    /// The command that plays a scene.
    pub fn dispatch_action_to_perform(sequence_step: &SequenceStep) -> (c: SequencerCommand)
        ensures
            c == dispatch_of(*sequence_step),
    {
        SequencerCommand::Dispatch(
            sequence_step.action.service(),
            InternalEventMessageServer::PerformAction(
                sequence_step.action,
                sequence_step.target_location,
            ),
        )
    }

    /// Handles one message of the mailbox.
    pub fn handle(&mut self, message: ExchangeMessage) -> (commands: Vec<SequencerCommand>)
        ensures
            final(self)@ == after(old(self)@, message),
            commands@ == commands_for(old(self)@, message),
    {
        match message {
            ExchangeMessage::NextScene => self.next_scene(),
            ExchangeMessage::RetriggerScene => {
                let mut commands: Vec<SequencerCommand> = Vec::new();
                match &self.last_sequence_step_played {
                    Some(step) => {
                        commands.push(Self::dispatch_action_to_perform(step));
                        proof {
                            assert(commands@ =~= seq![dispatch_of(*step)]);
                        }
                    },
                    None => {},
                }
                commands
            },
            _ => Vec::new(),
        }
    }

    /// Plays on from the queue: the next scene, and after each scene that
    /// has a duration the one behind it.
    pub fn next_scene(&mut self) -> (commands: Vec<SequencerCommand>)
        ensures
            final(self)@ == after(old(self)@, ExchangeMessage::NextScene),
            commands@ == commands_of(old(self)@.queue),
    {
        let ghost start = self.queue@;
        let ghost first = self.last_sequence_step_played;
        let mut commands: Vec<SequencerCommand> = Vec::new();
        let ghost mut played: nat = 0;
        proof {
            assert(start.skip(0) =~= start);
            assert(commands@ + commands_of(start) =~= commands_of(start));
        }
        loop
            invariant
                start == old(self)@.queue,
                first == old(self)@.last,
                played <= start.len(),
                self.queue@ == start.skip(played as int),
                plays(start) == played + plays(self.queue@),
                commands_of(start) == commands@ + commands_of(self.queue@),
                self.last_sequence_step_played == (if played == 0 {
                    first
                } else {
                    Some(start[played - 1])
                }),
            decreases self.queue@.len(),
        {
            let ghost before = self.queue@;
            let ghost sent = commands@;
            match self.queue.pop_front() {
                None => {
                    proof {
                        assert(commands@ + commands_of(self.queue@) =~= commands@);
                        assert(plays(start) == played);
                        assert(self@.queue =~= start.skip(plays(start) as int));
                    }
                    return commands;
                },
                Some(step) => {
                    proof {
                        assert(before.skip(1) =~= self.queue@);
                        assert(self.queue@ =~= start.skip(played as int + 1));
                        assert(step == start[played as int]);
                    }
                    commands.push(Self::dispatch_action_to_perform(&step));
                    let duration = step.duration;
                    self.last_sequence_step_played = Some(step);
                    match duration {
                        None => {
                            proof {
                                assert(commands@ =~= sent + commands_of(before));
                                assert(plays(before) == 1);
                                played = played + 1;
                                assert(plays(start) == played);
                                assert(self@.queue =~= start.skip(plays(start) as int));
                            }
                            return commands;
                        },
                        Some(d) => {
                            commands.push(SequencerCommand::Sleep(d));
                            proof {
                                assert(commands@ + commands_of(self.queue@) =~= sent
                                    + commands_of(before));
                                played = played + 1;
                            }
                        },
                    }
                },
            }
        }
    }
}

// --------------------------------------------------------------- laws

/// A scene goes to the actor of the service that performs its action, and
/// to no other.
pub proof fn law_dispatch_is_allowed(step: SequenceStep)
    ensures
        dispatch_of(step) matches SequencerCommand::Dispatch(service, event) && event
            == InternalEventMessageServer::PerformAction(step.action, step.target_location)
            && allowed(service, step.action),
{
}

/// With no scene left, a trigger does nothing.
pub proof fn law_empty_queue_idles(s: SequencerState)
    requires
        s.queue.len() == 0,
    ensures
        commands_for(s, ExchangeMessage::NextScene).len() == 0,
        after(s, ExchangeMessage::NextScene).queue.len() == 0,
        after(s, ExchangeMessage::NextScene).last == s.last,
{
}

/// A trigger stops at the first scene that has no duration: every scene it
/// plays before its last has a duration, and where scenes are left over the
/// last one played has none.
pub proof fn law_trigger_plays_to_the_first_hold(queue: Seq<SequenceStep>)
    ensures
        plays(queue) <= queue.len(),
        forall|i: int| 0 <= i < plays(queue) - 1 ==> (#[trigger] queue[i]).duration is Some,
        plays(queue) < queue.len() ==> plays(queue) >= 1 && queue[plays(queue) - 1].duration
            is None,
    decreases queue.len(),
{
    if queue.len() > 0 && queue[0].duration is Some {
        let rest = queue.skip(1);
        law_trigger_plays_to_the_first_hold(rest);
        assert forall|i: int| 0 <= i < plays(queue) - 1 implies (#[trigger] queue[i]).duration
            is Some by {
            if i > 0 {
                assert(queue[i] == rest[i - 1]);
            }
        }
        if plays(queue) < queue.len() {
            assert(queue[plays(queue) - 1] == rest[plays(rest) - 1]);
        }
    }
}

} // verus!
