use lamarrs::config::{Args, LamarrsServerError, LogLevel};
use lamarrs::midi::{MidiCommand, MidiMessage, MidiService, MidiServiceError};
use lamarrs::midi_event::{range_check, MidiEvent, OxiError};
use lamarrs::mqtt::{
    on_mqtt_published, publish_qos, route, run, subscribe_qos, topic, MqttCommand, MqttEvent, QoS,
};
use lamarrs::action_messages::{Action, Event};
use lamarrs::identity::{ClientIdAndLocation, RelativeLocation, Service};
use lamarrs::orchestration_messages::OrchestrationMessage;
use lamarrs::payload::{ColourRgb, PresetIndex};
use lamarrs::services::InternalEventMessageServer;

fn preset(n: u16) -> PresetIndex {
    PresetIndex::new(n).unwrap()
}

#[test]
fn preset_one_is_bank_zero_program_zero() {
    assert_eq!(MidiService::bank_and_program(&preset(1)), (0, 0));
    let service = MidiService::try_new(None).unwrap();
    assert_eq!(
        service.preset_change(&preset(1)),
        vec![
            MidiCommand::Send(vec![0xB0, 0, 0]),
            MidiCommand::Sleep(10),
            MidiCommand::Send(vec![0xB0, 32, 0]),
            MidiCommand::Send(vec![0xC0, 0]),
        ]
    );
}

#[test]
fn preset_16384_is_bank_127_program_127() {
    assert_eq!(MidiService::bank_and_program(&preset(16384)), (127, 127));
    let service = MidiService::try_new(Some(16)).unwrap();
    assert_eq!(
        service.preset_change(&preset(16384)),
        vec![
            MidiCommand::Send(vec![0xBF, 0, 0]),
            MidiCommand::Sleep(10),
            MidiCommand::Send(vec![0xBF, 32, 127]),
            MidiCommand::Send(vec![0xCF, 127]),
        ]
    );
}

#[test]
fn presets_in_between() {
    assert_eq!(MidiService::bank_and_program(&preset(128)), (0, 127));
    assert_eq!(MidiService::bank_and_program(&preset(129)), (1, 0));
    assert_eq!(MidiService::bank_and_program(&preset(300)), (2, 43));
}

#[test]
fn channels_are_one_to_sixteen() {
    assert!(MidiService::try_new(Some(1)).is_ok());
    assert!(MidiService::try_new(Some(16)).is_ok());
    assert_eq!(MidiService::try_new(Some(0)).err(), Some(MidiServiceError::ChannelOutOfRange));
    assert_eq!(MidiService::try_new(Some(17)).err(), Some(MidiServiceError::ChannelOutOfRange));
}

#[test]
fn only_program_and_control_changes_are_sent() {
    let service = MidiService::try_new(Some(3)).unwrap();
    assert_eq!(service.send_message(MidiService::program_change(5)), Ok(vec![0xC2, 5]));
    assert_eq!(service.send_message(MidiService::program_change(200)), Ok(vec![0xC2, 127]));
    assert_eq!(service.send_message(MidiService::control_change(7, 100)), Ok(vec![0xB2, 7, 100]));
    assert_eq!(service.send_message(MidiService::control_change(255, 255)), Ok(vec![0xB2, 127, 127]));
    assert_eq!(
        service.send_message(MidiMessage::ProgramChange { program: 0x85 }),
        Ok(vec![0xC2, 5])
    );
    for m in [
        MidiMessage::NoteOn { key: 1, vel: 1 },
        MidiMessage::NoteOff { key: 1, vel: 1 },
        MidiMessage::Aftertouch { key: 1, vel: 1 },
        MidiMessage::ChannelAftertouch { vel: 1 },
        MidiMessage::PitchBend { bend: 1 },
    ] {
        assert_eq!(service.send_message(m), Err(MidiServiceError::UnsupportedMessage));
    }
}

#[test]
fn events_are_checked_against_their_ranges() {
    let good = [
        MidiEvent::NoteOn { channel: 0, key: 127, vel: 127 },
        MidiEvent::NoteOff { channel: 200, key: 0 },
        MidiEvent::ControlChange { channel: 0, ctrl: 127, value: 0 },
        MidiEvent::AllNotesOff { channel: 255 },
        MidiEvent::AllSoundOff { channel: 255 },
        MidiEvent::PitchBend { channel: 0, value: 16383 },
        MidiEvent::ProgramChange { channel: 0, program_id: 127 },
        MidiEvent::ChannelPressure { channel: 0, value: 127 },
        MidiEvent::PolyphonicKeyPressure { channel: 0, key: 127, value: 127 },
        MidiEvent::SystemReset,
    ];
    for e in good {
        assert_eq!(e.check(), Ok(e));
    }
    let bad = [
        (MidiEvent::NoteOn { channel: 0, key: 128, vel: 128 }, OxiError::KeyOutOfRange),
        (MidiEvent::NoteOn { channel: 0, key: 0, vel: 128 }, OxiError::VelocityOutOfRange),
        (MidiEvent::NoteOff { channel: 0, key: 128 }, OxiError::KeyOutOfRange),
        (MidiEvent::ControlChange { channel: 0, ctrl: 128, value: 128 }, OxiError::CtrlOutOfRange),
        (MidiEvent::ControlChange { channel: 0, ctrl: 0, value: 128 }, OxiError::CCValueOutOfRange),
        (MidiEvent::PitchBend { channel: 0, value: 16384 }, OxiError::PithBendOutOfRange),
        (MidiEvent::ProgramChange { channel: 0, program_id: 128 }, OxiError::ProgramOutOfRange),
        (MidiEvent::ChannelPressure { channel: 0, value: 128 }, OxiError::ChannelPressureOutOfRange),
        (
            MidiEvent::PolyphonicKeyPressure { channel: 0, key: 128, value: 128 },
            OxiError::KeyOutOfRange,
        ),
        (
            MidiEvent::PolyphonicKeyPressure { channel: 0, key: 0, value: 128 },
            OxiError::KeyPressureOutOfRange,
        ),
    ];
    for (e, fault) in bad {
        assert_eq!(e.check(), Err(fault));
    }
    assert_eq!(range_check(0, 127, 127, OxiError::KeyOutOfRange), Ok(()));
    assert_eq!(range_check(1, 127, 0, OxiError::KeyOutOfRange), Err(OxiError::KeyOutOfRange));
    assert_eq!(range_check(0, 127, 128, OxiError::ChannelHasNoPreset), Err(OxiError::ChannelHasNoPreset));
}

#[test]
fn the_orchestrator_is_heard_on_its_topic() {
    assert_eq!(topic(), "lamarrs/orchestrator");
    assert_eq!(subscribe_qos(), QoS::AtMostOnce);
    assert_eq!(publish_qos(), QoS::AtLeastOnce);
}

#[test]
fn publications_are_routed_by_their_action() {
    let red = Action::ChangeColour(ColourRgb::new(255, 0, 0));
    let payload =
        "{\"Request\":[{\"PerformAction\":{\"ChangeColour\":{\"r\":255,\"g\":0,\"b\":0}}},\"Left\"]}";
    let want = MqttCommand::Dispatch(
        Service::Colour,
        InternalEventMessageServer::PerformAction(red, Some(RelativeLocation::Left)),
    );
    assert_eq!(on_mqtt_published(payload.as_bytes()), want);
    assert_eq!(run(&MqttEvent::Publish(payload.as_bytes().to_vec())), want);
    assert_eq!(
        on_mqtt_published(b"{\"Request\":[{\"PerformAction\":{\"MidiProgram\":12}},null]}"),
        MqttCommand::Dispatch(
            Service::Midi,
            InternalEventMessageServer::PerformAction(Action::MidiProgram(preset(12)), None),
        )
    );
}

#[test]
fn what_is_no_command_is_dropped() {
    assert_eq!(on_mqtt_published(b"not json"), MqttCommand::Nothing);
    assert_eq!(on_mqtt_published(b"{\"Heartbeat\":null}"), MqttCommand::Nothing);
    assert_eq!(
        on_mqtt_published(b"{\"Request\":[{\"PerformAction\":{\"MidiProgram\":0}},null]}"),
        MqttCommand::Nothing
    );
    // A request that is no action is understood and dropped.
    let register = OrchestrationMessage::Request(
        Event::Register(ClientIdAndLocation::new(1, None)),
        None,
    );
    assert_eq!(route(Some(register)), MqttCommand::Nothing);
    assert_eq!(route(None), MqttCommand::Nothing);
    assert_eq!(run(&MqttEvent::Other), MqttCommand::Nothing);
    assert_eq!(run(&MqttEvent::Disconnected), MqttCommand::RetryAfter(3));
}

#[test]
fn log_levels_are_named_in_upper_case() {
    assert_eq!(LogLevel::parse("TRACE"), Some(LogLevel::Trace));
    assert_eq!(LogLevel::parse("DEBUG"), Some(LogLevel::Debug));
    assert_eq!(LogLevel::parse("INFO"), Some(LogLevel::Info));
    assert_eq!(LogLevel::parse("WARN"), Some(LogLevel::Warn));
    assert_eq!(LogLevel::parse("ERROR"), Some(LogLevel::Error));
    assert_eq!(LogLevel::parse("info"), None);
    assert_eq!(LogLevel::parse(""), None);
    assert_eq!(LogLevel::parse("INFOS"), None);
    let args = Args::new("0.0.0.0".to_string(), "show.yaml".to_string());
    assert_eq!(args.log_level, LogLevel::Info);
    assert_eq!(args.port, 8080);
    assert_eq!(args.server_ip, "0.0.0.0");
    assert_eq!(args.sequence_path, "show.yaml");
}

#[test]
fn arguments_with_an_unknown_log_level_are_refused() {
    let good = Args::configured("WARN", "::1".to_string(), 9000, "s.yaml".to_string()).unwrap();
    assert_eq!(good.log_level, LogLevel::Warn);
    assert_eq!(good.port, 9000);
    assert_eq!(good.server_ip, "::1");
    assert_eq!(good.sequence_path, "s.yaml");
    match Args::configured("LOUD", "::1".to_string(), 9000, "s.yaml".to_string()) {
        Err(LamarrsServerError::ServerConfig { err_desc }) => assert_eq!(err_desc, "LOUD"),
        other => panic!("accepted: {other:?}"),
    }
}
