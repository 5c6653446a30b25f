//! MIDI events as a synthesizer takes them, and the check that each value
//! is within its range.

use vstd::prelude::*;

verus! {

/// A value of seven bits.
pub type U7 = u8;

/// A value of fourteen bits.
pub type U14 = u16;

/// An event for a synthesizer.
#[allow(inconsistent_fields)]
#[derive(Clone, Copy, Debug, PartialEq, Eq, Structural)]
pub enum MidiEvent {
    /// A note begins.
    NoteOn { channel: u8, key: U7, vel: U7 },
    /// A note ends.
    NoteOff { channel: u8, key: U7 },
    /// A controller changes.
    ControlChange { channel: u8, ctrl: U7, value: U7 },
    AllNotesOff { channel: u8 },
    AllSoundOff { channel: u8 },
    /// The pitch bends.
    PitchBend { channel: u8, value: U14 },
    /// The program changes.
    ProgramChange { channel: u8, program_id: U7 },
    /// The pressure on the channel changes.
    ChannelPressure { channel: u8, value: U7 },
    /// The pressure on a key changes.
    PolyphonicKeyPressure { channel: u8, key: U7, value: U7 },
    /// All notes end and all controllers go back to their defaults.
    SystemReset,
}

/// What is wrong with an event.
#[derive(Clone, Copy, Debug, PartialEq, Eq, Structural)]
pub enum OxiError {
    KeyOutOfRange,
    VelocityOutOfRange,
    ChannelOutOfRange,
    CtrlOutOfRange,
    CCValueOutOfRange,
    ProgramOutOfRange,
    KeyPressureOutOfRange,
    ChannelPressureOutOfRange,
    PithBendOutOfRange,
    ChannelHasNoPreset,
    PresetNotFound { bank_id: u32, preset_id: u8, sfont_id: usize },
}

/// The first value of an event that is out of its range, as the error that
/// names it: seven bits for keys, velocities, controllers, their values,
/// programs and pressures, fourteen for the pitch bend.
pub open spec fn fault_of(e: MidiEvent) -> Option<OxiError> {
    match e {
        MidiEvent::NoteOn { key, vel, .. } => if key > 127 {
            Some(OxiError::KeyOutOfRange)
        } else if vel > 127 {
            Some(OxiError::VelocityOutOfRange)
        } else {
            None
        },
        MidiEvent::NoteOff { key, .. } => if key > 127 {
            Some(OxiError::KeyOutOfRange)
        } else {
            None
        },
        MidiEvent::ControlChange { ctrl, value, .. } => if ctrl > 127 {
            Some(OxiError::CtrlOutOfRange)
        } else if value > 127 {
            Some(OxiError::CCValueOutOfRange)
        } else {
            None
        },
        MidiEvent::AllNotesOff { .. } => None,
        MidiEvent::AllSoundOff { .. } => None,
        MidiEvent::PitchBend { value, .. } => if value > 16383 {
            Some(OxiError::PithBendOutOfRange)
        } else {
            None
        },
        MidiEvent::ProgramChange { program_id, .. } => if program_id > 127 {
            Some(OxiError::ProgramOutOfRange)
        } else {
            None
        },
        MidiEvent::ChannelPressure { value, .. } => if value > 127 {
            Some(OxiError::ChannelPressureOutOfRange)
        } else {
            None
        },
        MidiEvent::PolyphonicKeyPressure { key, value, .. } => if key > 127 {
            Some(OxiError::KeyOutOfRange)
        } else if value > 127 {
            Some(OxiError::KeyPressureOutOfRange)
        } else {
            None
        },
        MidiEvent::SystemReset => None,
    }
}

/// Passes a value that lies between two bounds, both included, and fails
/// with the given error on any other.
pub fn range_check(low: u16, high: u16, value: u16, error: OxiError) -> (r: Result<(), OxiError>)
    ensures
        r == (if low <= value <= high {
            Ok::<(), OxiError>(())
        } else {
            Err::<(), OxiError>(error)
        }),
{
    if low <= value && value <= high {
        Ok(())
    } else {
        Err(error)
    }
}

impl MidiEvent {
    /// Gives the event back if every value is within its range, and else
    /// the error for the first that is not.
    pub fn check(self) -> (r: Result<Self, OxiError>)
        ensures
            r == (match fault_of(self) {
                None => Ok::<MidiEvent, OxiError>(self),
                Some(e) => Err::<MidiEvent, OxiError>(e),
            }),
    {
        let checked = match self {
            MidiEvent::NoteOn { key, vel, .. } => {
                match range_check(0, 127, key as u16, OxiError::KeyOutOfRange) {
                    Ok(()) => range_check(0, 127, vel as u16, OxiError::VelocityOutOfRange),
                    Err(e) => Err(e),
                }
            },
            MidiEvent::NoteOff { key, .. } => range_check(
                0,
                127,
                key as u16,
                OxiError::KeyOutOfRange,
            ),
            MidiEvent::ControlChange { ctrl, value, .. } => {
                match range_check(0, 127, ctrl as u16, OxiError::CtrlOutOfRange) {
                    Ok(()) => range_check(0, 127, value as u16, OxiError::CCValueOutOfRange),
                    Err(e) => Err(e),
                }
            },
            MidiEvent::AllNotesOff { .. } => Ok(()),
            MidiEvent::AllSoundOff { .. } => Ok(()),
            MidiEvent::PitchBend { value, .. } => range_check(
                0,
                16383,
                value,
                OxiError::PithBendOutOfRange,
            ),
            MidiEvent::ProgramChange { program_id, .. } => range_check(
                0,
                127,
                program_id as u16,
                OxiError::ProgramOutOfRange,
            ),
            MidiEvent::ChannelPressure { value, .. } => range_check(
                0,
                127,
                value as u16,
                OxiError::ChannelPressureOutOfRange,
            ),
            MidiEvent::PolyphonicKeyPressure { key, value, .. } => {
                match range_check(0, 127, key as u16, OxiError::KeyOutOfRange) {
                    Ok(()) => range_check(0, 127, value as u16, OxiError::KeyPressureOutOfRange),
                    Err(e) => Err(e),
                }
            },
            MidiEvent::SystemReset => Ok(()),
        };
        match checked {
            Ok(()) => Ok(self),
            Err(e) => Err(e),
        }
    }
}

} // verus!
