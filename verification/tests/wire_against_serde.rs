//! The encodings held against serde's: the binary one against postcard, the
//! text one against serde_json.

use lamarrs::action_messages::{Action, Event};
use lamarrs::binary::encode_binary;
use lamarrs::exchange_messages::{AckResult, ExchangeMessage, NackResult};
use lamarrs::identity::{ClientIdAndLocation, RelativeLocation, Service};
use lamarrs::json::encode_text;
use lamarrs::payload::{AudioFile, ColourRgb, ErrorDescription, PresetIndex, Subtitles};
use serde::ser::{Serialize, SerializeStruct, SerializeTupleVariant, Serializer};

struct Loc(RelativeLocation);
struct Srv(Service);
struct Id(ClientIdAndLocation);
struct UuidOf(u128);
struct Ack(AckResult);
struct Nack(NackResult);
struct Colour(ColourRgb);
struct Audio(AudioFile);
struct Act(Action);
struct Ev(Event);
struct Msg(ExchangeMessage);

impl Serialize for Loc {
    fn serialize<S: Serializer>(&self, s: S) -> Result<S::Ok, S::Error> {
        match self.0 {
            RelativeLocation::Left => s.serialize_unit_variant("RelativeLocation", 0, "Left"),
            RelativeLocation::Center => s.serialize_unit_variant("RelativeLocation", 1, "Center"),
            RelativeLocation::Right => s.serialize_unit_variant("RelativeLocation", 2, "Right"),
        }
    }
}

impl Serialize for Srv {
    fn serialize<S: Serializer>(&self, s: S) -> Result<S::Ok, S::Error> {
        match self.0 {
            Service::Subtitle => s.serialize_unit_variant("Service", 0, "Subtitle"),
            Service::Colour => s.serialize_unit_variant("Service", 1, "Colour"),
            Service::AudioPlayer => s.serialize_unit_variant("Service", 2, "AudioPlayer"),
            Service::Midi => s.serialize_unit_variant("Service", 3, "Midi"),
        }
    }
}

impl Serialize for UuidOf {
    fn serialize<S: Serializer>(&self, s: S) -> Result<S::Ok, S::Error> {
        // What the uuid crate does under serde: text for people, bytes for machines.
        let id = uuid::Uuid::from_u128(self.0);
        if s.is_human_readable() {
            s.serialize_str(&id.hyphenated().to_string())
        } else {
            s.serialize_bytes(id.as_bytes())
        }
    }
}

impl Serialize for Id {
    fn serialize<S: Serializer>(&self, s: S) -> Result<S::Ok, S::Error> {
        let mut st = s.serialize_struct("ClientIdAndLocation", 2)?;
        st.serialize_field("uuid", &UuidOf(self.0.uuid))?;
        st.serialize_field("location", &self.0.location.map(Loc))?;
        st.end()
    }
}

impl Serialize for Ack {
    fn serialize<S: Serializer>(&self, s: S) -> Result<S::Ok, S::Error> {
        match self.0 {
            AckResult::Success => s.serialize_unit_variant("AckResult", 0, "Success"),
            AckResult::UpdatedSubscription => {
                s.serialize_unit_variant("AckResult", 1, "UpdatedSubscription")
            }
            AckResult::UpdatedLocation => s.serialize_unit_variant("AckResult", 2, "UpdatedLocation"),
        }
    }
}

impl Serialize for Nack {
    fn serialize<S: Serializer>(&self, s: S) -> Result<S::Ok, S::Error> {
        match self.0 {
            NackResult::AlreadySubscribed => {
                s.serialize_unit_variant("NackResult", 0, "AlreadySubscribed")
            }
            NackResult::NotSubscribed => s.serialize_unit_variant("NackResult", 1, "NotSubscribed"),
            NackResult::Failed => s.serialize_unit_variant("NackResult", 2, "Failed"),
        }
    }
}

impl Serialize for Colour {
    fn serialize<S: Serializer>(&self, s: S) -> Result<S::Ok, S::Error> {
        let mut st = s.serialize_struct("ColourRgb", 3)?;
        st.serialize_field("r", &self.0.r)?;
        st.serialize_field("g", &self.0.g)?;
        st.serialize_field("b", &self.0.b)?;
        st.end()
    }
}

impl Serialize for Audio {
    fn serialize<S: Serializer>(&self, s: S) -> Result<S::Ok, S::Error> {
        let mut st = s.serialize_struct("AudioFile", 2)?;
        st.serialize_field("file_name", self.0.file_name.to_string().as_str())?;
        st.serialize_field("file_extension", self.0.file_extension.to_string().as_str())?;
        st.end()
    }
}

impl Serialize for Act {
    fn serialize<S: Serializer>(&self, s: S) -> Result<S::Ok, S::Error> {
        match self.0 {
            Action::ShowSubtitles(t) => s.serialize_newtype_variant(
                "Action",
                0,
                "ShowSubtitles",
                t.subtitles.to_string().as_str(),
            ),
            Action::ChangeColour(c) => {
                s.serialize_newtype_variant("Action", 1, "ChangeColour", &Colour(c))
            }
            Action::PlayAudio(f) => s.serialize_newtype_variant("Action", 2, "PlayAudio", &Audio(f)),
            Action::MidiProgram(p) => {
                s.serialize_newtype_variant("Action", 3, "MidiProgram", &p.get())
            }
        }
    }
}

impl Serialize for Ev {
    fn serialize<S: Serializer>(&self, s: S) -> Result<S::Ok, S::Error> {
        match self.0 {
            Event::Register(c) => s.serialize_newtype_variant("Event", 0, "Register", &Id(c)),
            Event::SubscribeToService(v, c) => {
                let mut t = s.serialize_tuple_variant("Event", 1, "SubscribeToService", 2)?;
                t.serialize_field(&Srv(v))?;
                t.serialize_field(&Id(c))?;
                t.end()
            }
            Event::UnsubscribeFromService(v, c) => {
                let mut t = s.serialize_tuple_variant("Event", 2, "UnsubscribeFromService", 2)?;
                t.serialize_field(&Srv(v))?;
                t.serialize_field(&Id(c))?;
                t.end()
            }
            Event::UpdateLocation(c) => {
                s.serialize_newtype_variant("Event", 3, "UpdateLocation", &Id(c))
            }
            Event::PerformAction(a) => {
                s.serialize_newtype_variant("Event", 4, "PerformAction", &Act(a))
            }
        }
    }
}

impl Serialize for Msg {
    fn serialize<S: Serializer>(&self, s: S) -> Result<S::Ok, S::Error> {
        match self.0 {
            ExchangeMessage::Ack(a) => s.serialize_newtype_variant("ExchangeMessage", 0, "Ack", &Ack(a)),
            ExchangeMessage::Nack(n) => {
                s.serialize_newtype_variant("ExchangeMessage", 1, "Nack", &Nack(n))
            }
            ExchangeMessage::Request(e) => {
                s.serialize_newtype_variant("ExchangeMessage", 2, "Request", &Ev(e))
            }
            ExchangeMessage::Scene(e) => {
                s.serialize_newtype_variant("ExchangeMessage", 3, "Scene", &Ev(e))
            }
            ExchangeMessage::Error(d) => s.serialize_newtype_variant(
                "ExchangeMessage",
                4,
                "Error",
                d.error_descr.to_string().as_str(),
            ),
            ExchangeMessage::NextScene => s.serialize_unit_variant("ExchangeMessage", 5, "NextScene"),
            ExchangeMessage::RetriggerScene => {
                s.serialize_unit_variant("ExchangeMessage", 6, "RetriggerScene")
            }
            ExchangeMessage::Heartbeat => s.serialize_unit_variant("ExchangeMessage", 7, "Heartbeat"),
            ExchangeMessage::HeartbeatAck => {
                s.serialize_unit_variant("ExchangeMessage", 8, "HeartbeatAck")
            }
        }
    }
}

fn samples() -> Vec<ExchangeMessage> {
    let id = ClientIdAndLocation::new(
        0x0123_4567_89ab_cdef_fedc_ba98_7654_3210,
        Some(RelativeLocation::Left),
    );
    let anon = ClientIdAndLocation::new(7, None);
    let mut all = vec![
        ExchangeMessage::Ack(AckResult::Success),
        ExchangeMessage::Ack(AckResult::UpdatedSubscription),
        ExchangeMessage::Ack(AckResult::UpdatedLocation),
        ExchangeMessage::Nack(NackResult::AlreadySubscribed),
        ExchangeMessage::Nack(NackResult::NotSubscribed),
        ExchangeMessage::Nack(NackResult::Failed),
        ExchangeMessage::Error(ErrorDescription::new("not \"good\"\n").unwrap()),
        ExchangeMessage::Error(ErrorDescription::new(&"x".repeat(100)).unwrap()),
        ExchangeMessage::NextScene,
        ExchangeMessage::RetriggerScene,
        ExchangeMessage::Heartbeat,
        ExchangeMessage::HeartbeatAck,
    ];
    let mut events = vec![
        Event::Register(id),
        Event::Register(anon),
        Event::UpdateLocation(ClientIdAndLocation::new(u128::MAX, Some(RelativeLocation::Right))),
        Event::PerformAction(Action::ShowSubtitles(Subtitles::new("caf\u{e9}").unwrap())),
        Event::PerformAction(Action::ShowSubtitles(Subtitles::new("").unwrap())),
        Event::PerformAction(Action::PlayAudio(AudioFile::new("intro", "wav").unwrap())),
    ];
    for v in [Service::Subtitle, Service::Colour, Service::AudioPlayer, Service::Midi] {
        events.push(Event::SubscribeToService(v, id));
        events.push(Event::UnsubscribeFromService(
            v,
            ClientIdAndLocation::new(1 << 100, Some(RelativeLocation::Center)),
        ));
    }
    for n in [0u8, 9, 10, 99, 100, 255] {
        events.push(Event::PerformAction(Action::ChangeColour(ColourRgb::new(n, 255 - n, 7))));
    }
    for n in [1u16, 9, 10, 127, 128, 129, 999, 1000, 9999, 10000, 16383, 16384] {
        events.push(Event::PerformAction(Action::MidiProgram(PresetIndex::new(n).unwrap())));
    }
    for e in events {
        all.push(ExchangeMessage::Request(e));
        all.push(ExchangeMessage::Scene(e));
    }
    all
}

#[test]
fn binary_encoding_is_postcard_of_the_serde_model() {
    for m in samples() {
        assert_eq!(encode_binary(&m), postcard::to_allocvec(&Msg(m)).unwrap(), "{m:?}");
    }
}

#[test]
fn text_encoding_is_serde_json_but_for_variants_without_payload() {
    for m in samples() {
        let ours = encode_text(&m);
        let theirs = serde_json::to_string(&Msg(m)).unwrap();
        match m {
            ExchangeMessage::NextScene
            | ExchangeMessage::RetriggerScene
            | ExchangeMessage::Heartbeat
            | ExchangeMessage::HeartbeatAck => {
                // serde writes the bare name; here it is an object like the rest.
                let name = theirs.trim_matches('"');
                assert_eq!(ours, format!("{{\"{name}\":null}}"));
            }
            _ => assert_eq!(ours, theirs),
        }
        // Either way it is JSON.
        assert!(serde_json::from_str::<serde_json::Value>(&ours).is_ok());
    }
}
