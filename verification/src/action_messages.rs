//! The payloads of requests and scenes.

use vstd::prelude::*;
use crate::identity::{ClientIdAndLocation, Service};
use crate::payload::{AudioFile, ColourRgb, PresetIndex, Subtitles};

verus! {

/// What a service asks its clients to do.
#[derive(Clone, Copy, Debug, PartialEq, Eq)]
pub enum Action {
    ShowSubtitles(Subtitles),
    ChangeColour(ColourRgb),
    PlayAudio(AudioFile),
    MidiProgram(PresetIndex),
}

impl Action {
    /// Validity: every text is within its capacity and the preset within
    /// its range.
    pub open spec fn wf(self) -> bool {
        match self {
            Action::ShowSubtitles(s) => s.wf(),
            Action::ChangeColour(_) => true,
            Action::PlayAudio(a) => a.wf(),
            Action::MidiProgram(p) => p.wf(),
        }
    }

    /// The service whose clients perform this action.
    pub open spec fn spec_service(&self) -> Service {
        match *self {
            Action::ShowSubtitles(_) => Service::Subtitle,
            Action::ChangeColour(_) => Service::Colour,
            Action::PlayAudio(_) => Service::AudioPlayer,
            Action::MidiProgram(_) => Service::Midi,
        }
    }

    /// The service whose clients perform this action.
    #[verifier::when_used_as_spec(spec_service)]
    pub fn service(&self) -> (s: Service)
        ensures
            s == self.spec_service(),
    {
        match self {
            Action::ShowSubtitles(_) => Service::Subtitle,
            Action::ChangeColour(_) => Service::Colour,
            Action::PlayAudio(_) => Service::AudioPlayer,
            Action::MidiProgram(_) => Service::Midi,
        }
    }

    /// Brings the validity of a value at hand into a proof.
    pub fn valid(&self)
        ensures
            self.wf(),
    {
        match self {
            Action::ShowSubtitles(s) => {
                s.subtitles.valid();
            },
            Action::ChangeColour(_) => {},
            Action::PlayAudio(a) => {
                a.file_name.valid();
                a.file_extension.valid();
            },
            Action::MidiProgram(p) => {
                let _ = p.get();
            },
        }
    }
}

/// What a request or a scene is about.
#[derive(Clone, Copy, Debug, PartialEq, Eq)]
pub enum Event {
    Register(ClientIdAndLocation),
    SubscribeToService(Service, ClientIdAndLocation),
    UnsubscribeFromService(Service, ClientIdAndLocation),
    UpdateLocation(ClientIdAndLocation),
    PerformAction(Action),
}

impl Event {
    /// Validity: that of the action, where there is one.
    pub open spec fn wf(self) -> bool {
        match self {
            Event::PerformAction(a) => a.wf(),
            _ => true,
        }
    }

    /// Brings the validity of a value at hand into a proof.
    pub fn valid(&self)
        ensures
            self.wf(),
    {
        match self {
            Event::PerformAction(a) => a.valid(),
            _ => {},
        }
    }
}

} // verus!
