//! The MIDI messages a client sends to its instrument when the server asks
//! for a preset.

use vstd::prelude::*;
use crate::payload::PresetIndex;

verus! {

/// Milliseconds to leave between the two halves of a bank selection.
pub const BANK_SELECT_PAUSE_MS: u64 = 10;

/// The controller that carries the upper half of a bank number.
pub const BANK_SELECT_MSB: u8 = 0;

/// The controller that carries the lower half of a bank number.
pub const BANK_SELECT_LSB: u8 = 32;

/// A channel voice message. Data values are seven bits wide; a higher bit is
/// dropped on the wire.
#[derive(Clone, Copy, Debug, PartialEq, Eq, Structural)]
pub enum MidiMessage {
    NoteOff { key: u8, vel: u8 },
    NoteOn { key: u8, vel: u8 },
    Aftertouch { key: u8, vel: u8 },
    Controller { controller: u8, value: u8 },
    ProgramChange { program: u8 },
    ChannelAftertouch { vel: u8 },
    PitchBend { bend: u16 },
}

/// What the MIDI service asks to be done.
#[derive(Debug, PartialEq, Eq)]
pub enum MidiCommand {
    /// Write these bytes to the MIDI port.
    Send(Vec<u8>),
    /// Wait this many milliseconds.
    Sleep(u64),
}

/// Why the MIDI service could not do what it was asked.
#[derive(Clone, Copy, Debug, PartialEq, Eq, Structural)]
pub enum MidiServiceError {
    /// The channel is not one of the sixteen.
    ChannelOutOfRange,
    /// The message is not one the service sends.
    UnsupportedMessage,
}

/// The kind of a message in the upper half of its status byte.
pub open spec fn status_kind(msg: MidiMessage) -> u8 {
    match msg {
        MidiMessage::NoteOff { .. } => 0x80,
        MidiMessage::NoteOn { .. } => 0x90,
        MidiMessage::Aftertouch { .. } => 0xA0,
        MidiMessage::Controller { .. } => 0xB0,
        MidiMessage::ProgramChange { .. } => 0xC0,
        MidiMessage::ChannelAftertouch { .. } => 0xD0,
        MidiMessage::PitchBend { .. } => 0xE0,
    }
}

/// The status byte of a message on a channel from 1 to 16.
pub open spec fn status_byte(msg: MidiMessage, channel: u8) -> u8 {
    status_kind(msg) | (((channel - 1) as u8) & 0x0F)
}

/// The bytes of a program change or a control change on a channel.
pub open spec fn message_bytes(msg: MidiMessage, channel: u8) -> Option<Seq<u8>> {
    match msg {
        MidiMessage::ProgramChange { program } => Some(
            seq![status_byte(msg, channel), program & 0x7F],
        ),
        MidiMessage::Controller { controller, value } => Some(
            seq![status_byte(msg, channel), controller & 0x7F, value & 0x7F],
        ),
        _ => None,
    }
}

/// The bank of a preset: presets are counted from one, banks from zero, 128
/// presets to a bank.
pub open spec fn bank_of(preset: int) -> int {
    (preset - 1) / 128
}

/// The program of a preset within its bank, counted from zero.
pub open spec fn program_of(preset: int) -> int {
    (preset - 1) % 128
}

/// The MIDI service of a client: it sends on one channel.
pub struct MidiService {
    default_channel: u8,
}

impl MidiService {
    /// Validity: the channel is one of the sixteen.
    #[verifier::type_invariant]
    pub closed spec fn wf(self) -> bool {
        1 <= self.default_channel <= 16
    }

    /// The channel the service sends on, from 1 to 16.
    pub closed spec fn channel(self) -> u8 {
        self.default_channel
    }

    /// A service on the given channel, or on the first if none is given.
    pub fn try_new(default_channel: Option<u8>) -> (r: Result<Self, MidiServiceError>)
        ensures
            match default_channel {
                None => r matches Ok(s) && s.channel() == 1 && s.wf(),
                Some(c) => if 1 <= c <= 16 {
                    r matches Ok(s) && s.channel() == c && s.wf()
                } else {
                    r matches Err(e) && e == MidiServiceError::ChannelOutOfRange
                },
            },
    {
        let channel = match default_channel {
            Some(c) => c,
            None => 1,
        };
        if 1 <= channel && channel <= 16 {
            Ok(MidiService { default_channel: channel })
        } else {
            Err(MidiServiceError::ChannelOutOfRange)
        }
    }

    /// The bytes of a message: of a program change and of a control change,
    /// the only messages the service sends.
    pub fn send_message(&self, msg: MidiMessage) -> (r: Result<Vec<u8>, MidiServiceError>)
        ensures
            self.wf(),
            match message_bytes(msg, self.channel()) {
                Some(bytes) => r matches Ok(v) && v@ == bytes,
                None => r matches Err(e) && e == MidiServiceError::UnsupportedMessage,
            },
    {
        proof {
            use_type_invariant(self);
        }
        let kind: u8 = match msg {
            MidiMessage::NoteOff { .. } => 0x80,
            MidiMessage::NoteOn { .. } => 0x90,
            MidiMessage::Aftertouch { .. } => 0xA0,
            MidiMessage::Controller { .. } => 0xB0,
            MidiMessage::ProgramChange { .. } => 0xC0,
            MidiMessage::ChannelAftertouch { .. } => 0xD0,
            MidiMessage::PitchBend { .. } => 0xE0,
        };
        let status = kind | ((self.default_channel - 1) & 0x0F);
        let mut bytes: Vec<u8> = Vec::new();
        bytes.push(status);
        match msg {
            MidiMessage::ProgramChange { program } => {
                bytes.push(program & 0x7F);
                proof {
                    assert(bytes@ =~= seq![status, program & 0x7F]);
                }
                Ok(bytes)
            },
            MidiMessage::Controller { controller, value } => {
                bytes.push(controller & 0x7F);
                bytes.push(value & 0x7F);
                proof {
                    assert(bytes@ =~= seq![status, controller & 0x7F, value & 0x7F]);
                }
                Ok(bytes)
            },
            _ => Err(MidiServiceError::UnsupportedMessage),
        }
    }

    /// The message that chooses a program; a program above 127 counts as
    /// 127.
    pub fn program_change(program: u8) -> (msg: MidiMessage)
        ensures
            msg == (MidiMessage::ProgramChange {
                program: if program > 127 {
                    127
                } else {
                    program
                },
            }),
    {
        MidiMessage::ProgramChange { program: if program > 127 {
            127
        } else {
            program
        } }
    }

    /// The message that sets a controller; a value above 127 counts as 127.
    pub fn control_change(cc: u8, value: u8) -> (msg: MidiMessage)
        ensures
            msg == (MidiMessage::Controller {
                controller: if cc > 127 {
                    127
                } else {
                    cc
                },
                value: if value > 127 {
                    127
                } else {
                    value
                },
            }),
    {
        MidiMessage::Controller {
            controller: if cc > 127 {
                127
            } else {
                cc
            },
            value: if value > 127 {
                127
            } else {
                value
            },
        }
    }

    /// The bank and the program of a preset.
    pub fn bank_and_program(preset: &PresetIndex) -> (r: (u8, u8))
        ensures
            r.0 == bank_of(preset.number()),
            r.1 == program_of(preset.number()),
            r.0 <= 127,
            r.1 <= 127,
    {
        let n = preset.get() - 1;
        ((n / 128) as u8, (n % 128) as u8)
    }

    /// What changes the instrument to a preset: the bank is selected, upper
    /// half first, then a pause, then the lower half, and then the program
    /// is chosen.
    pub fn preset_change(&self, preset: &PresetIndex) -> (commands: Vec<MidiCommand>)
        ensures
            commands@.len() == 4,
            commands@[0] matches MidiCommand::Send(b) && Some(b@) == message_bytes(
                MidiMessage::Controller { controller: 0, value: 0 },
                self.channel(),
            ),
            commands@[1] == MidiCommand::Sleep(10),
            commands@[2] matches MidiCommand::Send(b) && Some(b@) == message_bytes(
                MidiMessage::Controller {
                    controller: 32,
                    value: bank_of(preset.number()) as u8,
                },
                self.channel(),
            ),
            commands@[3] matches MidiCommand::Send(b) && Some(b@) == message_bytes(
                MidiMessage::ProgramChange { program: program_of(preset.number()) as u8 },
                self.channel(),
            ),
    {
        let (bank, program) = Self::bank_and_program(preset);
        let mut commands: Vec<MidiCommand> = Vec::new();
        match self.send_message(Self::control_change(BANK_SELECT_MSB, 0)) {
            Ok(b) => commands.push(MidiCommand::Send(b)),
            Err(_) => {},
        }
        commands.push(MidiCommand::Sleep(BANK_SELECT_PAUSE_MS));
        match self.send_message(Self::control_change(BANK_SELECT_LSB, bank)) {
            Ok(b) => commands.push(MidiCommand::Send(b)),
            Err(_) => {},
        }
        match self.send_message(Self::program_change(program)) {
            Ok(b) => commands.push(MidiCommand::Send(b)),
            Err(_) => {},
        }
        commands
    }
}

} // verus!
