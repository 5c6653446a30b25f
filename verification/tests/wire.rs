use lamarrs::action_messages::{Action, Event};
use lamarrs::binary::{decode_binary, encode_binary};
use lamarrs::exchange_messages::{AckResult, ExchangeMessage, NackResult};
use lamarrs::identity::{ClientIdAndLocation, RelativeLocation, Service};
use lamarrs::json::{
    decode_orchestration, decode_text, decode_text_bytes, encode_orchestration, encode_text,
    encode_text_bytes,
};
use lamarrs::orchestration_messages::OrchestrationMessage;
use lamarrs::payload::{AudioFile, ColourRgb, ErrorDescription, PresetIndex, Subtitles};

const ID: u128 = 0xa1a2a3a4_b1b2_c1c2_d1d2_d3d4d5d6d7d8;

fn samples() -> Vec<ExchangeMessage> {
    let id = ClientIdAndLocation::new(ID, Some(RelativeLocation::Center));
    let anon = ClientIdAndLocation::new(0, None);
    vec![
        ExchangeMessage::Ack(AckResult::Success),
        ExchangeMessage::Ack(AckResult::UpdatedSubscription),
        ExchangeMessage::Ack(AckResult::UpdatedLocation),
        ExchangeMessage::Nack(NackResult::AlreadySubscribed),
        ExchangeMessage::Nack(NackResult::NotSubscribed),
        ExchangeMessage::Nack(NackResult::Failed),
        ExchangeMessage::Request(Event::Register(id)),
        ExchangeMessage::Request(Event::Register(anon)),
        ExchangeMessage::Request(Event::SubscribeToService(Service::Colour, id)),
        ExchangeMessage::Request(Event::UnsubscribeFromService(Service::Midi, anon)),
        ExchangeMessage::Request(Event::UpdateLocation(ClientIdAndLocation::new(
            u128::MAX,
            Some(RelativeLocation::Left),
        ))),
        ExchangeMessage::Scene(Event::PerformAction(Action::ShowSubtitles(
            Subtitles::new("hello \"world\"\n\\ \u{1} caf\u{e9}").unwrap(),
        ))),
        ExchangeMessage::Scene(Event::PerformAction(Action::ChangeColour(ColourRgb::new(
            255, 0, 7,
        )))),
        ExchangeMessage::Scene(Event::PerformAction(Action::PlayAudio(
            AudioFile::new("intro", "wav").unwrap(),
        ))),
        ExchangeMessage::Scene(Event::PerformAction(Action::MidiProgram(
            PresetIndex::new(1).unwrap(),
        ))),
        ExchangeMessage::Scene(Event::PerformAction(Action::MidiProgram(
            PresetIndex::new(200).unwrap(),
        ))),
        ExchangeMessage::Scene(Event::PerformAction(Action::MidiProgram(
            PresetIndex::new(16384).unwrap(),
        ))),
        ExchangeMessage::Error(ErrorDescription::new("Unrecognized message: Malformed payload.").unwrap()),
        ExchangeMessage::NextScene,
        ExchangeMessage::RetriggerScene,
        ExchangeMessage::Heartbeat,
        ExchangeMessage::HeartbeatAck,
    ]
}

#[test]
fn binary_round_trip_on_samples() {
    for m in samples() {
        let bytes = encode_binary(&m);
        assert!(bytes.len() <= 102);
        assert_eq!(decode_binary(&bytes), Some(m));
    }
}

#[test]
fn text_round_trip_on_samples() {
    for m in samples() {
        let text = encode_text(&m);
        assert_eq!(decode_text(&text), Some(m), "{text}");
        assert_eq!(encode_text_bytes(&m), text.as_bytes());
        assert_eq!(decode_text_bytes(text.as_bytes()), Some(m));
    }
}

#[test]
fn text_matches_the_documented_shapes() {
    let register = ExchangeMessage::Request(Event::Register(ClientIdAndLocation::new(
        ID,
        Some(RelativeLocation::Center),
    )));
    assert_eq!(
        encode_text(&register),
        "{\"Request\":{\"Register\":{\"uuid\":\"a1a2a3a4-b1b2-c1c2-d1d2-d3d4d5d6d7d8\",\"location\":\"Center\"}}}"
    );
    let colour = ExchangeMessage::Scene(Event::PerformAction(Action::ChangeColour(
        ColourRgb::new(255, 0, 0),
    )));
    assert_eq!(
        encode_text(&colour),
        "{\"Scene\":{\"PerformAction\":{\"ChangeColour\":{\"r\":255,\"g\":0,\"b\":0}}}}"
    );
    assert_eq!(
        encode_text(&ExchangeMessage::Ack(AckResult::Success)),
        "{\"Ack\":\"Success\"}"
    );
    assert_eq!(
        encode_text(&ExchangeMessage::Heartbeat),
        "{\"Heartbeat\":null}"
    );
}

#[test]
fn binary_layout_is_tag_then_fields() {
    assert_eq!(encode_binary(&ExchangeMessage::Heartbeat), vec![7]);
    assert_eq!(encode_binary(&ExchangeMessage::Ack(AckResult::UpdatedLocation)), vec![0, 2]);
    let colour = ExchangeMessage::Scene(Event::PerformAction(Action::ChangeColour(
        ColourRgb::new(255, 0, 0),
    )));
    assert_eq!(encode_binary(&colour), vec![3, 4, 1, 255, 0, 0]);
    let subs = ExchangeMessage::Scene(Event::PerformAction(Action::ShowSubtitles(
        Subtitles::new("hi").unwrap(),
    )));
    assert_eq!(encode_binary(&subs), vec![3, 4, 0, 2, b'h', b'i']);
    let register = ExchangeMessage::Request(Event::Register(ClientIdAndLocation::new(
        ID,
        Some(RelativeLocation::Right),
    )));
    assert_eq!(
        encode_binary(&register),
        vec![
            2, 0, 16, 0xa1, 0xa2, 0xa3, 0xa4, 0xb1, 0xb2, 0xc1, 0xc2, 0xd1, 0xd2, 0xd3, 0xd4,
            0xd5, 0xd6, 0xd7, 0xd8, 1, 2
        ]
    );
    let midi = ExchangeMessage::Scene(Event::PerformAction(Action::MidiProgram(
        PresetIndex::new(16384).unwrap(),
    )));
    assert_eq!(encode_binary(&midi), vec![3, 4, 3, 0x80, 0x80, 0x01]);
}

#[test]
fn decoders_are_strict() {
    assert_eq!(decode_binary(&[]), None);
    assert_eq!(decode_binary(&[9]), None);
    assert_eq!(decode_binary(&[7, 0]), None);
    assert_eq!(decode_binary(&[0, 3]), None);
    assert_eq!(decode_binary(&[3, 4, 3, 0x80, 0x00]), None);
    assert_eq!(decode_binary(&[3, 4, 0, 1, 0xff]), None);
    assert_eq!(decode_text(""), None);
    assert_eq!(decode_text_bytes(&[0xff]), None);
    assert_eq!(decode_text_bytes(b"{\"Error\":\"\xff\"}"), None);
    assert_eq!(decode_text("{\"Heartbeat\":null} "), None);
    assert_eq!(decode_text("{ \"Heartbeat\":null}"), None);
    assert_eq!(decode_text("{\"Heartbeats\":null}"), None);
    assert_eq!(decode_text("{\"Ack\":\"Done\"}"), None);
    assert_eq!(
        decode_text("{\"Scene\":{\"PerformAction\":{\"ChangeColour\":{\"r\":256,\"g\":0,\"b\":0}}}}"),
        None
    );
    assert_eq!(
        decode_text("{\"Scene\":{\"PerformAction\":{\"ChangeColour\":{\"r\":01,\"g\":0,\"b\":0}}}}"),
        None
    );
    assert_eq!(decode_text("{\"Scene\":{\"PerformAction\":{\"MidiProgram\":0}}}"), None);
    assert_eq!(decode_text("{\"Scene\":{\"PerformAction\":{\"MidiProgram\":16385}}}"), None);
}

#[test]
fn orchestration_round_trip() {
    let m = OrchestrationMessage::Request(
        Event::PerformAction(Action::ChangeColour(ColourRgb::new(255, 0, 0))),
        Some(RelativeLocation::Left),
    );
    let bytes = encode_orchestration(&m);
    assert_eq!(
        String::from_utf8(bytes.clone()).unwrap(),
        "{\"Request\":[{\"PerformAction\":{\"ChangeColour\":{\"r\":255,\"g\":0,\"b\":0}}},\"Left\"]}"
    );
    assert_eq!(decode_orchestration(&bytes), Some(m));
    let n = OrchestrationMessage::Request(
        Event::PerformAction(Action::ShowSubtitles(Subtitles::new("hello").unwrap())),
        None,
    );
    let bytes = encode_orchestration(&n);
    assert_eq!(
        String::from_utf8(bytes.clone()).unwrap(),
        "{\"Request\":[{\"PerformAction\":{\"ShowSubtitles\":\"hello\"}},null]}"
    );
    assert_eq!(decode_orchestration(&bytes), Some(n));
    assert_eq!(decode_orchestration(b"{\"Request\":[]}"), None);
}
