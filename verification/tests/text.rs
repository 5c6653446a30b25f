use lamarrs::action_messages::{Action, Event};
use lamarrs::binary::{decode_binary, encode_binary};
use lamarrs::exchange_messages::ExchangeMessage;
use lamarrs::json::{decode_text, encode_text};
use lamarrs::payload::{AudioFile, ErrorDescription, PresetIndex, Subtitles};
use lamarrs::text::BoundedString;

fn subtitle_scene(text: &str) -> ExchangeMessage {
    ExchangeMessage::Scene(Event::PerformAction(Action::ShowSubtitles(
        Subtitles::new(text).unwrap(),
    )))
}

#[test]
fn bounded_string_keeps_its_text() {
    let t = BoundedString::<8>::from_str("caf\u{e9}").unwrap();
    assert_eq!(t.len(), 5);
    assert!(!t.is_empty());
    assert_eq!(t.as_bytes(), "caf\u{e9}".as_bytes().to_vec());
    assert_eq!(t.to_string(), "caf\u{e9}");
    assert_eq!(t.byte(0), b'c');
    let empty = BoundedString::<8>::new();
    assert!(empty.is_empty());
    assert_eq!(empty.to_string(), "");
    assert_eq!(BoundedString::<8>::from_str(""), Some(empty));
}

#[test]
fn bounded_string_counts_bytes() {
    assert!(BoundedString::<4>::from_str("abcd").is_some());
    assert!(BoundedString::<4>::from_str("abcde").is_none());
    // Three characters, six bytes.
    assert!(BoundedString::<4>::from_str("\u{e9}\u{e9}\u{e9}").is_none());
    assert!(BoundedString::<6>::from_str("\u{e9}\u{e9}\u{e9}").is_some());
}

#[test]
fn bounded_string_refuses_bytes_that_are_not_utf8() {
    assert!(BoundedString::<4>::from_bytes(&[0xff]).is_none());
    assert!(BoundedString::<4>::from_bytes(&[0xc3]).is_none());
    assert!(BoundedString::<4>::from_bytes(&[0xc3, 0xa9]).is_some());
    assert!(BoundedString::<4>::from_bytes(b"abcde").is_none());
}

#[test]
fn bounded_string_agrees_with_heapless_on_what_fits() {
    for text in ["", "a", "abcd", "abcde", "\u{e9}\u{e9}", "\u{e9}\u{e9}\u{e9}", "\u{1f600}"] {
        let theirs = heapless::String::<4>::try_from(text).is_ok();
        let ours = BoundedString::<4>::from_str(text).is_some();
        assert_eq!(ours, theirs, "{text:?}");
    }
}

#[test]
fn equal_texts_are_equal_values() {
    let a = BoundedString::<16>::from_str("same").unwrap();
    let b = BoundedString::<16>::from_bytes(b"same").unwrap();
    assert_eq!(a, b);
    assert_ne!(a, BoundedString::<16>::from_str("same ").unwrap());
}

#[test]
fn subtitles_of_fifty_bytes_are_accepted() {
    let fifty = "a".repeat(50);
    let m = subtitle_scene(&fifty);
    assert_eq!(decode_binary(&encode_binary(&m)), Some(m));
    assert_eq!(decode_text(&encode_text(&m)), Some(m));
}

#[test]
fn subtitles_of_fifty_one_bytes_are_rejected() {
    let fifty_one = "a".repeat(51);
    assert!(Subtitles::new(&fifty_one).is_none());
    // The same scene with one byte more, written by hand.
    let mut binary = vec![3u8, 4, 0, 51];
    binary.extend_from_slice(fifty_one.as_bytes());
    assert_eq!(decode_binary(&binary), None);
    let text = format!(
        "{{\"Scene\":{{\"PerformAction\":{{\"ShowSubtitles\":\"{fifty_one}\"}}}}}}"
    );
    assert_eq!(decode_text(&text), None);
    // With fifty it is the accepted scene.
    let fifty = "a".repeat(50);
    let mut binary = vec![3u8, 4, 0, 50];
    binary.extend_from_slice(fifty.as_bytes());
    assert_eq!(decode_binary(&binary), Some(subtitle_scene(&fifty)));
    let text = format!("{{\"Scene\":{{\"PerformAction\":{{\"ShowSubtitles\":\"{fifty}\"}}}}}}");
    assert_eq!(decode_text(&text), Some(subtitle_scene(&fifty)));
}

#[test]
fn the_other_caps() {
    assert!(AudioFile::new(&"n".repeat(50), "flac").is_some());
    assert!(AudioFile::new(&"n".repeat(51), "flac").is_none());
    assert!(AudioFile::new("n", "flacs").is_none());
    assert!(ErrorDescription::new(&"e".repeat(100)).is_some());
    assert!(ErrorDescription::new(&"e".repeat(101)).is_none());
    assert!(PresetIndex::new(0).is_none());
    assert_eq!(PresetIndex::new(1).unwrap().get(), 1);
    assert_eq!(PresetIndex::new(16384).unwrap().get(), 16384);
    assert!(PresetIndex::new(16385).is_none());
}

#[test]
fn file_name_with_extension_joins_with_a_dot() {
    let f = AudioFile::new("intro", "wav").unwrap();
    assert_eq!(f.file_name_with_extension().to_string(), "intro.wav");
    let longest = AudioFile::new(&"n".repeat(50), "flac").unwrap();
    assert_eq!(longest.file_name_with_extension().len(), 55);
}

#[test]
fn strings_are_escaped_as_json() {
    for text in ["plain", "quote\"d", "back\\slash", "line\nfeed\r\t", "\u{8}\u{c}\u{1}\u{1f}", "caf\u{e9} \u{1f600}", "\u{7f}/"] {
        let m = subtitle_scene(text);
        let ours = encode_text(&m);
        let theirs = format!(
            "{{\"Scene\":{{\"PerformAction\":{{\"ShowSubtitles\":{}}}}}}}",
            serde_json::to_string(text).unwrap()
        );
        assert_eq!(ours, theirs);
        assert_eq!(decode_text(&ours), Some(m));
    }
}

#[test]
fn strings_with_other_escapes_are_refused() {
    for body in ["\\/", "\\u0041", "\\u000A", "\\u000a", "\\x", "\u{1}"] {
        let text = format!("{{\"Error\":\"{body}\"}}");
        assert_eq!(decode_text(&text), None, "{text}");
    }
    assert_eq!(
        decode_text("{\"Error\":\"\\u0001\"}"),
        Some(ExchangeMessage::Error(ErrorDescription::new("\u{1}").unwrap()))
    );
}
