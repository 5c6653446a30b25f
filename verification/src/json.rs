//! The text encoding: every message as one line of JSON.
//!
//! A choice is an object with one member, named after the variant; a variant
//! without a payload has the value `null`. A record is an object with its
//! fields in order, a pair is an array. The decoder is strict: it accepts
//! the text that the encoder writes for a valid message and nothing else.

use vstd::prelude::*;
use vstd::utf8::{encode_utf8, is_ascii_chars, valid_utf8, valid_utf8_concat};
use crate::action_messages::{Action, Event};
use crate::exchange_messages::{AckResult, ExchangeMessage, NackResult};
use crate::identity::{ClientIdAndLocation, RelativeLocation, Service};
use crate::json_tokens::{
    lemma_ascii_is_utf8, lemma_number_is_utf8, lemma_quoted_is_utf8, lemma_string_is_utf8,
    lemma_text_is_utf8, lemma_uuid_text_is_utf8, reads_bytes, dec_name, dec_number, dec_text, dec_uuid_text, digit_at, get_name, get_number, get_string,
    get_uuid_text, is_name, is_text, json_number, json_string, lemma_name, lemma_number,
    lemma_text, lemma_uuid_text, put_number, put_str, put_string, put_uuid_text, quoted,
    uuid_text,
};
use crate::orchestration_messages::OrchestrationMessage;
use crate::payload::{AudioFile, ColourRgb, ErrorDescription, PresetIndex, Subtitles};
use crate::text::string_from_utf8;
use crate::reader::{
    ascii, lemma_take_byte, lemma_take_byte_joins, lemma_take_lit, lemma_take_lit_joins,
    lemma_take_lit_mismatch, reads, take_byte, take_lit, Parsed, Reader,
};

verus! {

// ---------------------------------------------------------------- words

/// The name of a location.
pub open spec fn location_word(l: RelativeLocation) -> Seq<char> {
    match l {
        RelativeLocation::Left => "Left"@,
        RelativeLocation::Center => "Center"@,
        RelativeLocation::Right => "Right"@,
    }
}

/// The name of a service.
pub open spec fn service_word(s: Service) -> Seq<char> {
    match s {
        Service::Subtitle => "Subtitle"@,
        Service::Colour => "Colour"@,
        Service::AudioPlayer => "AudioPlayer"@,
        Service::Midi => "Midi"@,
    }
}

/// The name of a kind of success.
pub open spec fn ack_word(a: AckResult) -> Seq<char> {
    match a {
        AckResult::Success => "Success"@,
        AckResult::UpdatedSubscription => "UpdatedSubscription"@,
        AckResult::UpdatedLocation => "UpdatedLocation"@,
    }
}

/// The name of a kind of refusal.
pub open spec fn nack_word(n: NackResult) -> Seq<char> {
    match n {
        NackResult::AlreadySubscribed => "AlreadySubscribed"@,
        NackResult::NotSubscribed => "NotSubscribed"@,
        NackResult::Failed => "Failed"@,
    }
}

/// A word between double quotes.
pub open spec fn json_word(w: Seq<char>) -> Seq<u8> {
    quoted(ascii(w))
}

/// An object with one member.
pub open spec fn json_tagged(w: Seq<char>, body: Seq<u8>) -> Seq<u8> {
    seq![123u8] + json_word(w) + seq![58u8] + body + seq![125u8]
}

// ------------------------------------------------------------ encodings

/// An optional location: `null` for none, else its name.
pub open spec fn json_opt_location(l: Option<RelativeLocation>) -> Seq<u8> {
    match l {
        None => ascii("null"@),
        Some(x) => json_word(location_word(x)),
    }
}

/// An identity: an object with the identifier as text and the location.
pub open spec fn json_identity(c: ClientIdAndLocation) -> Seq<u8> {
    ascii("{\"uuid\":\""@) + uuid_text(c.uuid) + ascii("\",\"location\":"@) + json_opt_location(
        c.location,
    ) + seq![125u8]
}

/// A colour: an object with the three intensities.
pub open spec fn json_colour(c: ColourRgb) -> Seq<u8> {
    ascii("{\"r\":"@) + json_number(c.r as int) + ascii(",\"g\":"@) + json_number(c.g as int)
        + ascii(",\"b\":"@) + json_number(c.b as int) + seq![125u8]
}

/// An audio file: an object with name and extension.
pub open spec fn json_audio(f: AudioFile) -> Seq<u8> {
    ascii("{\"file_name\":"@) + json_string(f.file_name@) + ascii(",\"file_extension\":"@)
        + json_string(f.file_extension@) + seq![125u8]
}

/// An action: an object with one member, named after it.
pub open spec fn json_action(a: Action) -> Seq<u8> {
    match a {
        Action::ShowSubtitles(s) => json_tagged("ShowSubtitles"@, json_string(s.subtitles@)),
        Action::ChangeColour(c) => json_tagged("ChangeColour"@, json_colour(c)),
        Action::PlayAudio(f) => json_tagged("PlayAudio"@, json_audio(f)),
        Action::MidiProgram(p) => json_tagged("MidiProgram"@, json_number(p.number())),
    }
}

/// A service and an identity as an array of two.
pub open spec fn json_service_identity(s: Service, c: ClientIdAndLocation) -> Seq<u8> {
    seq![91u8] + json_word(service_word(s)) + seq![44u8] + json_identity(c) + seq![93u8]
}

/// An event: an object with one member, named after it.
pub open spec fn json_event(e: Event) -> Seq<u8> {
    match e {
        Event::Register(c) => json_tagged("Register"@, json_identity(c)),
        Event::SubscribeToService(s, c) => json_tagged(
            "SubscribeToService"@,
            json_service_identity(s, c),
        ),
        Event::UnsubscribeFromService(s, c) => json_tagged(
            "UnsubscribeFromService"@,
            json_service_identity(s, c),
        ),
        Event::UpdateLocation(c) => json_tagged("UpdateLocation"@, json_identity(c)),
        Event::PerformAction(a) => json_tagged("PerformAction"@, json_action(a)),
    }
}

/// The text of a message, as UTF-8 bytes.
pub open spec fn text_encoding(m: ExchangeMessage) -> Seq<u8> {
    match m {
        ExchangeMessage::Ack(a) => json_tagged("Ack"@, json_word(ack_word(a))),
        ExchangeMessage::Nack(n) => json_tagged("Nack"@, json_word(nack_word(n))),
        ExchangeMessage::Request(e) => json_tagged("Request"@, json_event(e)),
        ExchangeMessage::Scene(e) => json_tagged("Scene"@, json_event(e)),
        ExchangeMessage::Error(d) => json_tagged("Error"@, json_string(d.error_descr@)),
        ExchangeMessage::NextScene => json_tagged("NextScene"@, ascii("null"@)),
        ExchangeMessage::RetriggerScene => json_tagged("RetriggerScene"@, ascii("null"@)),
        ExchangeMessage::Heartbeat => json_tagged("Heartbeat"@, ascii("null"@)),
        ExchangeMessage::HeartbeatAck => json_tagged("HeartbeatAck"@, ascii("null"@)),
    }
}

/// The message that the given text is the encoding of, if there is one.
pub open spec fn text_decoding(b: Seq<u8>) -> Option<ExchangeMessage> {
    if exists|m: ExchangeMessage| m.wf() && text_encoding(m) == b {
        Some(choose|m: ExchangeMessage| m.wf() && text_encoding(m) == b)
    } else {
        None
    }
}

/// The text of an orchestrator's command, as UTF-8 bytes.
pub open spec fn orchestration_encoding(m: OrchestrationMessage) -> Seq<u8> {
    match m {
        OrchestrationMessage::Request(e, l) => json_tagged(
            "Request"@,
            seq![91u8] + json_event(e) + seq![44u8] + json_opt_location(l) + seq![93u8],
        ),
    }
}

/// The command that the given text is the encoding of, if there is one.
pub open spec fn orchestration_decoding(b: Seq<u8>) -> Option<OrchestrationMessage> {
    if exists|m: OrchestrationMessage| m.wf() && orchestration_encoding(m) == b {
        Some(choose|m: OrchestrationMessage| m.wf() && orchestration_encoding(m) == b)
    } else {
        None
    }
}

// -------------------------------------------------------------- grammar

/// A word the grammar can use: ASCII letters, of the given length.
spec fn word(w: Seq<char>, len: nat) -> bool {
    is_ascii_chars(w) && is_name(ascii(w)) && ascii(w).len() == len
}

/// A punctuation the grammar can use: ASCII, beginning with the given byte.
spec fn key(w: Seq<char>, first: u8) -> bool {
    is_ascii_chars(w) && ascii(w).len() > 0 && ascii(w)[0] == first
}

proof fn lemma_location_words()
    ensures
        word("Left"@, 4),
        word("Center"@, 6),
        word("Right"@, 5),
{
    reveal_strlit("Left");
    reveal_strlit("Center");
    reveal_strlit("Right");
}

proof fn lemma_service_words()
    ensures
        word("Subtitle"@, 8),
        word("Colour"@, 6),
        word("AudioPlayer"@, 11),
        word("Midi"@, 4),
{
    reveal_strlit("Subtitle");
    reveal_strlit("Colour");
    reveal_strlit("AudioPlayer");
    reveal_strlit("Midi");
}

proof fn lemma_ack_words()
    ensures
        word("Success"@, 7),
        word("UpdatedSubscription"@, 19),
        word("UpdatedLocation"@, 15),
{
    reveal_strlit("Success");
    reveal_strlit("UpdatedSubscription");
    reveal_strlit("UpdatedLocation");
}

proof fn lemma_nack_words()
    ensures
        word("AlreadySubscribed"@, 17),
        word("NotSubscribed"@, 13),
        word("Failed"@, 6),
{
    reveal_strlit("AlreadySubscribed");
    reveal_strlit("NotSubscribed");
    reveal_strlit("Failed");
}

proof fn lemma_action_words()
    ensures
        word("ShowSubtitles"@, 13),
        word("ChangeColour"@, 12),
        word("PlayAudio"@, 9),
        word("MidiProgram"@, 11),
{
    reveal_strlit("ShowSubtitles");
    reveal_strlit("ChangeColour");
    reveal_strlit("PlayAudio");
    reveal_strlit("MidiProgram");
}

proof fn lemma_event_words()
    ensures
        word("Register"@, 8),
        word("SubscribeToService"@, 18),
        word("UnsubscribeFromService"@, 22),
        word("UpdateLocation"@, 14),
        word("PerformAction"@, 13),
{
    reveal_strlit("Register");
    reveal_strlit("SubscribeToService");
    reveal_strlit("UnsubscribeFromService");
    reveal_strlit("UpdateLocation");
    reveal_strlit("PerformAction");
}

proof fn lemma_message_words()
    ensures
        word("Ack"@, 3),
        word("Nack"@, 4),
        word("Request"@, 7),
        word("Scene"@, 5),
        word("Error"@, 5),
        word("NextScene"@, 9),
        word("RetriggerScene"@, 14),
        word("Heartbeat"@, 9),
        word("HeartbeatAck"@, 12),
        ascii("Scene"@)[0] == 83,
        ascii("Error"@)[0] == 69,
        ascii("NextScene"@)[0] == 78,
        ascii("Heartbeat"@)[0] == 72,
{
    reveal_strlit("Ack");
    reveal_strlit("Nack");
    reveal_strlit("Request");
    reveal_strlit("Scene");
    reveal_strlit("Error");
    reveal_strlit("NextScene");
    reveal_strlit("RetriggerScene");
    reveal_strlit("Heartbeat");
    reveal_strlit("HeartbeatAck");
}

proof fn lemma_keys()
    ensures
        key("null"@, 110),
        key("{\"uuid\":\""@, 123),
        key("\",\"location\":"@, 34),
        key("{\"r\":"@, 123),
        key(",\"g\":"@, 44),
        key(",\"b\":"@, 44),
        key("{\"file_name\":"@, 123),
        key(",\"file_extension\":"@, 44),
{
    reveal_strlit("null");
    reveal_strlit("{\"uuid\":\"");
    reveal_strlit("\",\"location\":");
    reveal_strlit("{\"r\":");
    reveal_strlit(",\"g\":");
    reveal_strlit(",\"b\":");
    reveal_strlit("{\"file_name\":");
    reveal_strlit(",\"file_extension\":");
}

/// The given byte, then the part already read.
spec fn close<T>(v: T, s: Seq<u8>, b: u8) -> Parsed<T> {
    match take_byte(s) {
        Some((c, rest)) => if c == b {
            Some((v, rest))
        } else {
            None
        },
        None => None,
    }
}

/// The opening of an object with one member: a brace, the name, a colon.
#[verifier::opaque]
spec fn dec_tag(s: Seq<u8>) -> Parsed<Seq<u8>> {
    match take_byte(s) {
        Some((b, r1)) => if b == 123 {
            match dec_name(r1) {
                Some((n, r2)) => close(n, r2, 58),
                None => None,
            }
        } else {
            None
        },
        None => None,
    }
}

spec fn location_of_name(n: Seq<u8>) -> Option<RelativeLocation> {
    if n == ascii("Left"@) {
        Some(RelativeLocation::Left)
    } else if n == ascii("Center"@) {
        Some(RelativeLocation::Center)
    } else if n == ascii("Right"@) {
        Some(RelativeLocation::Right)
    } else {
        None
    }
}

spec fn service_of_name(n: Seq<u8>) -> Option<Service> {
    if n == ascii("Subtitle"@) {
        Some(Service::Subtitle)
    } else if n == ascii("Colour"@) {
        Some(Service::Colour)
    } else if n == ascii("AudioPlayer"@) {
        Some(Service::AudioPlayer)
    } else if n == ascii("Midi"@) {
        Some(Service::Midi)
    } else {
        None
    }
}

spec fn ack_of_name(n: Seq<u8>) -> Option<AckResult> {
    if n == ascii("Success"@) {
        Some(AckResult::Success)
    } else if n == ascii("UpdatedSubscription"@) {
        Some(AckResult::UpdatedSubscription)
    } else if n == ascii("UpdatedLocation"@) {
        Some(AckResult::UpdatedLocation)
    } else {
        None
    }
}

spec fn nack_of_name(n: Seq<u8>) -> Option<NackResult> {
    if n == ascii("AlreadySubscribed"@) {
        Some(NackResult::AlreadySubscribed)
    } else if n == ascii("NotSubscribed"@) {
        Some(NackResult::NotSubscribed)
    } else if n == ascii("Failed"@) {
        Some(NackResult::Failed)
    } else {
        None
    }
}

#[verifier::opaque]
spec fn dec_location(s: Seq<u8>) -> Parsed<RelativeLocation> {
    match dec_name(s) {
        Some((n, rest)) => match location_of_name(n) {
            Some(v) => Some((v, rest)),
            None => None,
        },
        None => None,
    }
}

#[verifier::opaque]
spec fn dec_service(s: Seq<u8>) -> Parsed<Service> {
    match dec_name(s) {
        Some((n, rest)) => match service_of_name(n) {
            Some(v) => Some((v, rest)),
            None => None,
        },
        None => None,
    }
}

#[verifier::opaque]
spec fn dec_ack(s: Seq<u8>) -> Parsed<AckResult> {
    match dec_name(s) {
        Some((n, rest)) => match ack_of_name(n) {
            Some(v) => Some((v, rest)),
            None => None,
        },
        None => None,
    }
}

#[verifier::opaque]
spec fn dec_nack(s: Seq<u8>) -> Parsed<NackResult> {
    match dec_name(s) {
        Some((n, rest)) => match nack_of_name(n) {
            Some(v) => Some((v, rest)),
            None => None,
        },
        None => None,
    }
}

#[verifier::opaque]
spec fn dec_opt_location(s: Seq<u8>) -> Parsed<Option<RelativeLocation>> {
    match take_lit(s, ascii("null"@)) {
        Some(rest) => Some((None, rest)),
        None => match dec_location(s) {
            Some((l, rest)) => Some((Some(l), rest)),
            None => None,
        },
    }
}

#[verifier::opaque]
spec fn dec_identity(s: Seq<u8>) -> Parsed<ClientIdAndLocation> {
    match take_lit(s, ascii("{\"uuid\":\""@)) {
        Some(r1) => match dec_uuid_text(r1) {
            Some((uuid, r2)) => match take_lit(r2, ascii("\",\"location\":"@)) {
                Some(r3) => match dec_opt_location(r3) {
                    Some((location, r4)) => close(ClientIdAndLocation { uuid, location }, r4, 125),
                    None => None,
                },
                None => None,
            },
            None => None,
        },
        None => None,
    }
}

/// A number that fits a byte.
spec fn dec_byte_number(s: Seq<u8>) -> Parsed<u8> {
    match dec_number(s) {
        Some((n, rest)) => if n <= 255 {
            Some((n as u8, rest))
        } else {
            None
        },
        None => None,
    }
}

#[verifier::opaque]
spec fn dec_colour(s: Seq<u8>) -> Parsed<ColourRgb> {
    match take_lit(s, ascii("{\"r\":"@)) {
        Some(r1) => match dec_byte_number(r1) {
            Some((r, r2)) => match take_lit(r2, ascii(",\"g\":"@)) {
                Some(r3) => match dec_byte_number(r3) {
                    Some((g, r4)) => match take_lit(r4, ascii(",\"b\":"@)) {
                        Some(r5) => match dec_byte_number(r5) {
                            Some((b, r6)) => close(ColourRgb { r, g, b }, r6, 125),
                            None => None,
                        },
                        None => None,
                    },
                    None => None,
                },
                None => None,
            },
            None => None,
        },
        None => None,
    }
}

#[verifier::opaque]
spec fn dec_audio(s: Seq<u8>) -> Parsed<AudioFile> {
    match take_lit(s, ascii("{\"file_name\":"@)) {
        Some(r1) => match dec_text::<50>(r1) {
            Some((file_name, r2)) => match take_lit(r2, ascii(",\"file_extension\":"@)) {
                Some(r3) => match dec_text::<4>(r3) {
                    Some((file_extension, r4)) => close(
                        AudioFile { file_name, file_extension },
                        r4,
                        125,
                    ),
                    None => None,
                },
                None => None,
            },
            None => None,
        },
        None => None,
    }
}

#[verifier::opaque]
spec fn dec_preset(s: Seq<u8>) -> Parsed<PresetIndex> {
    match dec_number(s) {
        Some((n, rest)) => if 1 <= n <= 16384 {
            Some((PresetIndex::of(n), rest))
        } else {
            None
        },
        None => None,
    }
}

spec fn dec_action_body(n: Seq<u8>, s: Seq<u8>) -> Parsed<Action> {
    if n == ascii("ShowSubtitles"@) {
        match dec_text::<50>(s) {
            Some((subtitles, rest)) => Some((Action::ShowSubtitles(Subtitles { subtitles }), rest)),
            None => None,
        }
    } else if n == ascii("ChangeColour"@) {
        match dec_colour(s) {
            Some((c, rest)) => Some((Action::ChangeColour(c), rest)),
            None => None,
        }
    } else if n == ascii("PlayAudio"@) {
        match dec_audio(s) {
            Some((f, rest)) => Some((Action::PlayAudio(f), rest)),
            None => None,
        }
    } else if n == ascii("MidiProgram"@) {
        match dec_preset(s) {
            Some((p, rest)) => Some((Action::MidiProgram(p), rest)),
            None => None,
        }
    } else {
        None
    }
}

#[verifier::opaque]
spec fn dec_action(s: Seq<u8>) -> Parsed<Action> {
    match dec_tag(s) {
        Some((n, r1)) => match dec_action_body(n, r1) {
            Some((a, r2)) => close(a, r2, 125),
            None => None,
        },
        None => None,
    }
}

#[verifier::opaque]
spec fn dec_service_identity(s: Seq<u8>) -> Parsed<(Service, ClientIdAndLocation)> {
    match take_byte(s) {
        Some((b, r1)) => if b == 91 {
            match dec_service(r1) {
                Some((v, r2)) => match take_byte(r2) {
                    Some((c, r3)) => if c == 44 {
                        match dec_identity(r3) {
                            Some((id, r4)) => close((v, id), r4, 93),
                            None => None,
                        }
                    } else {
                        None
                    },
                    None => None,
                },
                None => None,
            }
        } else {
            None
        },
        None => None,
    }
}

spec fn dec_event_body(n: Seq<u8>, s: Seq<u8>) -> Parsed<Event> {
    if n == ascii("Register"@) {
        match dec_identity(s) {
            Some((c, rest)) => Some((Event::Register(c), rest)),
            None => None,
        }
    } else if n == ascii("SubscribeToService"@) {
        match dec_service_identity(s) {
            Some((p, rest)) => Some((Event::SubscribeToService(p.0, p.1), rest)),
            None => None,
        }
    } else if n == ascii("UnsubscribeFromService"@) {
        match dec_service_identity(s) {
            Some((p, rest)) => Some((Event::UnsubscribeFromService(p.0, p.1), rest)),
            None => None,
        }
    } else if n == ascii("UpdateLocation"@) {
        match dec_identity(s) {
            Some((c, rest)) => Some((Event::UpdateLocation(c), rest)),
            None => None,
        }
    } else if n == ascii("PerformAction"@) {
        match dec_action(s) {
            Some((a, rest)) => Some((Event::PerformAction(a), rest)),
            None => None,
        }
    } else {
        None
    }
}

#[verifier::opaque]
spec fn dec_event(s: Seq<u8>) -> Parsed<Event> {
    match dec_tag(s) {
        Some((n, r1)) => match dec_event_body(n, r1) {
            Some((e, r2)) => close(e, r2, 125),
            None => None,
        },
        None => None,
    }
}

/// The value of a variant without a payload.
spec fn dec_null<T>(v: T, s: Seq<u8>) -> Parsed<T> {
    match take_lit(s, ascii("null"@)) {
        Some(rest) => Some((v, rest)),
        None => None,
    }
}

spec fn dec_message_body(n: Seq<u8>, s: Seq<u8>) -> Parsed<ExchangeMessage> {
    if n == ascii("Ack"@) {
        match dec_ack(s) {
            Some((a, rest)) => Some((ExchangeMessage::Ack(a), rest)),
            None => None,
        }
    } else if n == ascii("Nack"@) {
        match dec_nack(s) {
            Some((a, rest)) => Some((ExchangeMessage::Nack(a), rest)),
            None => None,
        }
    } else if n == ascii("Request"@) {
        match dec_event(s) {
            Some((e, rest)) => Some((ExchangeMessage::Request(e), rest)),
            None => None,
        }
    } else if n == ascii("Scene"@) {
        match dec_event(s) {
            Some((e, rest)) => Some((ExchangeMessage::Scene(e), rest)),
            None => None,
        }
    } else if n == ascii("Error"@) {
        match dec_text::<100>(s) {
            Some((error_descr, rest)) => Some(
                (ExchangeMessage::Error(ErrorDescription { error_descr }), rest),
            ),
            None => None,
        }
    } else if n == ascii("NextScene"@) {
        dec_null(ExchangeMessage::NextScene, s)
    } else if n == ascii("RetriggerScene"@) {
        dec_null(ExchangeMessage::RetriggerScene, s)
    } else if n == ascii("Heartbeat"@) {
        dec_null(ExchangeMessage::Heartbeat, s)
    } else if n == ascii("HeartbeatAck"@) {
        dec_null(ExchangeMessage::HeartbeatAck, s)
    } else {
        None
    }
}

#[verifier::opaque]
spec fn dec_message(s: Seq<u8>) -> Parsed<ExchangeMessage> {
    match dec_tag(s) {
        Some((n, r1)) => match dec_message_body(n, r1) {
            Some((m, r2)) => close(m, r2, 125),
            None => None,
        },
        None => None,
    }
}

#[verifier::opaque]
spec fn dec_orchestration(s: Seq<u8>) -> Parsed<OrchestrationMessage> {
    match dec_tag(s) {
        Some((n, r1)) => if n == ascii("Request"@) {
            match take_byte(r1) {
                Some((b, r2)) => if b == 91 {
                    match dec_event(r2) {
                        Some((e, r3)) => match take_byte(r3) {
                            Some((c, r4)) => if c == 44 {
                                match dec_opt_location(r4) {
                                    Some((l, r5)) => match close(
                                        OrchestrationMessage::Request(e, l),
                                        r5,
                                        93,
                                    ) {
                                        Some((m, r6)) => close(m, r6, 125),
                                        None => None,
                                    },
                                    None => None,
                                }
                            } else {
                                None
                            },
                            None => None,
                        },
                        None => None,
                    }
                } else {
                    None
                },
                None => None,
            }
        } else {
            None
        },
        None => None,
    }
}

// ------------------------------------- the grammar reads what is written

proof fn lemma_close<T>(v: T, b: u8, rest: Seq<u8>)
    ensures
        close(v, seq![b] + rest, b) == Some((v, rest)),
{
    lemma_take_byte(b, rest);
}

proof fn lemma_tag(w: Seq<char>, rest: Seq<u8>)
    requires
        is_name(ascii(w)),
    ensures
        dec_tag(seq![123u8] + json_word(w) + seq![58u8] + rest) == Some((ascii(w), rest)),
{
    reveal(dec_tag);
    let after = seq![58u8] + rest;
    assert(seq![123u8] + json_word(w) + seq![58u8] + rest =~= seq![123u8] + (json_word(w)
        + after));
    lemma_take_byte(123, json_word(w) + after);
    lemma_name(ascii(w), after);
    lemma_close(ascii(w), 58, rest);
}

/// An object with one member, in front of any input, opens with its name
/// and goes on with its body, a closing brace and that input.
proof fn lemma_tagged(w: Seq<char>, body: Seq<u8>, rest: Seq<u8>)
    requires
        is_name(ascii(w)),
    ensures
        dec_tag(json_tagged(w, body) + rest) == Some((ascii(w), body + (seq![125u8] + rest))),
{
    let tail = body + (seq![125u8] + rest);
    assert(json_tagged(w, body) + rest =~= seq![123u8] + json_word(w) + seq![58u8] + tail);
    lemma_tag(w, tail);
}

proof fn lemma_location(l: RelativeLocation, rest: Seq<u8>)
    ensures
        dec_location(json_word(location_word(l)) + rest) == Some((l, rest)),
        json_word(location_word(l))[0] == 34,
{
    reveal(dec_location);
    lemma_location_words();
    lemma_name(ascii(location_word(l)), rest);
}

proof fn lemma_service(v: Service, rest: Seq<u8>)
    ensures
        dec_service(json_word(service_word(v)) + rest) == Some((v, rest)),
{
    reveal(dec_service);
    lemma_service_words();
    lemma_name(ascii(service_word(v)), rest);
}

proof fn lemma_ack(v: AckResult, rest: Seq<u8>)
    ensures
        dec_ack(json_word(ack_word(v)) + rest) == Some((v, rest)),
{
    reveal(dec_ack);
    lemma_ack_words();
    lemma_name(ascii(ack_word(v)), rest);
}

proof fn lemma_nack(v: NackResult, rest: Seq<u8>)
    ensures
        dec_nack(json_word(nack_word(v)) + rest) == Some((v, rest)),
{
    reveal(dec_nack);
    lemma_nack_words();
    lemma_name(ascii(nack_word(v)), rest);
}

proof fn lemma_opt_location(l: Option<RelativeLocation>, rest: Seq<u8>)
    ensures
        dec_opt_location(json_opt_location(l) + rest) == Some((l, rest)),
{
    reveal(dec_opt_location);
    lemma_keys();
    match l {
        None => {
            lemma_take_lit(ascii("null"@), rest);
        },
        Some(x) => {
            lemma_location(x, rest);
            let s = json_word(location_word(x)) + rest;
            assert(s[0] == json_word(location_word(x))[0]);
            lemma_take_lit_mismatch(s, ascii("null"@));
        },
    }
}

proof fn lemma_identity(c: ClientIdAndLocation, rest: Seq<u8>)
    ensures
        dec_identity(json_identity(c) + rest) == Some((c, rest)),
{
    reveal(dec_identity);
    let k1 = ascii("{\"uuid\":\""@);
    let k2 = ascii("\",\"location\":"@);
    let t4 = seq![125u8] + rest;
    let t3 = json_opt_location(c.location) + t4;
    let t2 = k2 + t3;
    let t1 = uuid_text(c.uuid) + t2;
    assert(json_identity(c) + rest =~= k1 + t1);
    lemma_take_lit(k1, t1);
    lemma_uuid_text(c.uuid, t2);
    lemma_take_lit(k2, t3);
    lemma_opt_location(c.location, t4);
    lemma_close(c, 125, rest);
}

proof fn lemma_byte_number(v: u8, rest: Seq<u8>)
    requires
        !digit_at(rest, 0),
    ensures
        dec_byte_number(json_number(v as int) + rest) == Some((v, rest)),
{
    lemma_number(v as int, rest);
}

proof fn lemma_colour(c: ColourRgb, rest: Seq<u8>)
    ensures
        dec_colour(json_colour(c) + rest) == Some((c, rest)),
{
    reveal(dec_colour);
    lemma_keys();
    let k1 = ascii("{\"r\":"@);
    let k2 = ascii(",\"g\":"@);
    let k3 = ascii(",\"b\":"@);
    let t6 = seq![125u8] + rest;
    let t5 = json_number(c.b as int) + t6;
    let t4 = k3 + t5;
    let t3 = json_number(c.g as int) + t4;
    let t2 = k2 + t3;
    let t1 = json_number(c.r as int) + t2;
    assert(json_colour(c) + rest =~= k1 + t1);
    assert(t2[0] == k2[0]);
    assert(t4[0] == k3[0]);
    assert(t6[0] == 125);
    lemma_take_lit(k1, t1);
    lemma_byte_number(c.r, t2);
    lemma_take_lit(k2, t3);
    lemma_byte_number(c.g, t4);
    lemma_take_lit(k3, t5);
    lemma_byte_number(c.b, t6);
    lemma_close(c, 125, rest);
}

proof fn lemma_audio(f: AudioFile, rest: Seq<u8>)
    requires
        f.wf(),
    ensures
        dec_audio(json_audio(f) + rest) == Some((f, rest)),
{
    reveal(dec_audio);
    let k1 = ascii("{\"file_name\":"@);
    let k2 = ascii(",\"file_extension\":"@);
    let t4 = seq![125u8] + rest;
    let t3 = json_string(f.file_extension@) + t4;
    let t2 = k2 + t3;
    let t1 = json_string(f.file_name@) + t2;
    assert(json_audio(f) + rest =~= k1 + t1);
    lemma_take_lit(k1, t1);
    lemma_text::<50>(f.file_name, t2);
    lemma_take_lit(k2, t3);
    lemma_text::<4>(f.file_extension, t4);
    lemma_close(f, 125, rest);
}

proof fn lemma_preset(p: PresetIndex, rest: Seq<u8>)
    requires
        p.wf(),
        !digit_at(rest, 0),
    ensures
        dec_preset(json_number(p.number()) + rest) == Some((p, rest)),
{
    reveal(dec_preset);
    p.lemma_wf();
    lemma_number(p.number(), rest);
}

proof fn lemma_action(a: Action, rest: Seq<u8>)
    requires
        a.wf(),
    ensures
        dec_action(json_action(a) + rest) == Some((a, rest)),
{
    reveal(dec_action);
    lemma_action_words();
    let t = seq![125u8] + rest;
    assert(t[0] == 125);
    match a {
        Action::ShowSubtitles(s) => {
            lemma_tagged("ShowSubtitles"@, json_string(s.subtitles@), rest);
            lemma_text::<50>(s.subtitles, t);
        },
        Action::ChangeColour(c) => {
            lemma_tagged("ChangeColour"@, json_colour(c), rest);
            lemma_colour(c, t);
        },
        Action::PlayAudio(f) => {
            lemma_tagged("PlayAudio"@, json_audio(f), rest);
            lemma_audio(f, t);
        },
        Action::MidiProgram(p) => {
            lemma_tagged("MidiProgram"@, json_number(p.number()), rest);
            lemma_preset(p, t);
        },
    }
    lemma_close(a, 125, rest);
}

proof fn lemma_service_identity(v: Service, c: ClientIdAndLocation, rest: Seq<u8>)
    ensures
        dec_service_identity(json_service_identity(v, c) + rest) == Some(((v, c), rest)),
{
    reveal(dec_service_identity);
    let t4 = seq![93u8] + rest;
    let t3 = json_identity(c) + t4;
    let t2 = seq![44u8] + t3;
    let t1 = json_word(service_word(v)) + t2;
    assert(json_service_identity(v, c) + rest =~= seq![91u8] + t1);
    lemma_take_byte(91, t1);
    lemma_service(v, t2);
    lemma_take_byte(44, t3);
    lemma_identity(c, t4);
    lemma_close((v, c), 93, rest);
}

proof fn lemma_event(e: Event, rest: Seq<u8>)
    requires
        e.wf(),
    ensures
        dec_event(json_event(e) + rest) == Some((e, rest)),
{
    reveal(dec_event);
    lemma_event_words();
    let t = seq![125u8] + rest;
    match e {
        Event::Register(c) => {
            lemma_tagged("Register"@, json_identity(c), rest);
            lemma_identity(c, t);
        },
        Event::SubscribeToService(v, c) => {
            lemma_tagged("SubscribeToService"@, json_service_identity(v, c), rest);
            lemma_service_identity(v, c, t);
        },
        Event::UnsubscribeFromService(v, c) => {
            lemma_tagged("UnsubscribeFromService"@, json_service_identity(v, c), rest);
            lemma_service_identity(v, c, t);
        },
        Event::UpdateLocation(c) => {
            lemma_tagged("UpdateLocation"@, json_identity(c), rest);
            lemma_identity(c, t);
        },
        Event::PerformAction(a) => {
            lemma_tagged("PerformAction"@, json_action(a), rest);
            lemma_action(a, t);
        },
    }
    lemma_close(e, 125, rest);
}

proof fn lemma_message(m: ExchangeMessage, rest: Seq<u8>)
    requires
        m.wf(),
    ensures
        dec_message(text_encoding(m) + rest) == Some((m, rest)),
{
    reveal(dec_message);
    lemma_message_words();
    let t = seq![125u8] + rest;
    match m {
        ExchangeMessage::Ack(a) => {
            lemma_tagged("Ack"@, json_word(ack_word(a)), rest);
            lemma_ack(a, t);
        },
        ExchangeMessage::Nack(n) => {
            lemma_tagged("Nack"@, json_word(nack_word(n)), rest);
            lemma_nack(n, t);
        },
        ExchangeMessage::Request(e) => {
            lemma_tagged("Request"@, json_event(e), rest);
            lemma_event(e, t);
        },
        ExchangeMessage::Scene(e) => {
            lemma_tagged("Scene"@, json_event(e), rest);
            lemma_event(e, t);
        },
        ExchangeMessage::Error(d) => {
            lemma_tagged("Error"@, json_string(d.error_descr@), rest);
            lemma_text::<100>(d.error_descr, t);
        },
        ExchangeMessage::NextScene => {
            lemma_tagged("NextScene"@, ascii("null"@), rest);
            lemma_take_lit(ascii("null"@), t);
        },
        ExchangeMessage::RetriggerScene => {
            lemma_tagged("RetriggerScene"@, ascii("null"@), rest);
            lemma_take_lit(ascii("null"@), t);
        },
        ExchangeMessage::Heartbeat => {
            lemma_tagged("Heartbeat"@, ascii("null"@), rest);
            lemma_take_lit(ascii("null"@), t);
        },
        ExchangeMessage::HeartbeatAck => {
            lemma_tagged("HeartbeatAck"@, ascii("null"@), rest);
            lemma_take_lit(ascii("null"@), t);
        },
    }
    lemma_close(m, 125, rest);
}

proof fn lemma_orchestration(m: OrchestrationMessage, rest: Seq<u8>)
    requires
        m.wf(),
    ensures
        dec_orchestration(orchestration_encoding(m) + rest) == Some((m, rest)),
{
    reveal(dec_orchestration);
    lemma_message_words();
    match m {
        OrchestrationMessage::Request(e, l) => {
            let body = seq![91u8] + json_event(e) + seq![44u8] + json_opt_location(l) + seq![
                93u8,
            ];
            let t5 = seq![125u8] + rest;
            let t4 = seq![93u8] + t5;
            let t3 = json_opt_location(l) + t4;
            let t2 = seq![44u8] + t3;
            let t1 = json_event(e) + t2;
            lemma_tagged("Request"@, body, rest);
            assert(body + t5 =~= seq![91u8] + t1);
            lemma_take_byte(91, t1);
            lemma_event(e, t2);
            lemma_take_byte(44, t3);
            lemma_opt_location(l, t4);
            lemma_close(m, 93, t5);
            lemma_close(m, 125, rest);
        },
    }
}

// ------------------------------------------------------------ writing

fn location_str(l: RelativeLocation) -> (s: &'static str)
    ensures
        s@ == location_word(l),
        is_ascii_chars(s@),
{
    proof {
        lemma_location_words();
    }
    match l {
        RelativeLocation::Left => "Left",
        RelativeLocation::Center => "Center",
        RelativeLocation::Right => "Right",
    }
}

fn service_str(v: Service) -> (s: &'static str)
    ensures
        s@ == service_word(v),
        is_ascii_chars(s@),
{
    proof {
        lemma_service_words();
    }
    match v {
        Service::Subtitle => "Subtitle",
        Service::Colour => "Colour",
        Service::AudioPlayer => "AudioPlayer",
        Service::Midi => "Midi",
    }
}

fn ack_str(a: AckResult) -> (s: &'static str)
    ensures
        s@ == ack_word(a),
        is_ascii_chars(s@),
{
    proof {
        lemma_ack_words();
    }
    match a {
        AckResult::Success => "Success",
        AckResult::UpdatedSubscription => "UpdatedSubscription",
        AckResult::UpdatedLocation => "UpdatedLocation",
    }
}

fn nack_str(n: NackResult) -> (s: &'static str)
    ensures
        s@ == nack_word(n),
        is_ascii_chars(s@),
{
    proof {
        lemma_nack_words();
    }
    match n {
        NackResult::AlreadySubscribed => "AlreadySubscribed",
        NackResult::NotSubscribed => "NotSubscribed",
        NackResult::Failed => "Failed",
    }
}

fn put_word(w: &str, out: &mut Vec<u8>)
    requires
        is_ascii_chars(w@),
    ensures
        final(out)@ == old(out)@ + json_word(w@),
{
    out.push(34);
    put_str(out, w);
    out.push(34);
    proof {
        assert(out@ =~= old(out)@ + json_word(w@));
    }
}

/// Writes the opening of an object with one member.
fn put_open(w: &str, out: &mut Vec<u8>)
    requires
        is_ascii_chars(w@),
    ensures
        final(out)@ == old(out)@ + (seq![123u8] + json_word(w@) + seq![58u8]),
{
    out.push(123);
    put_word(w, out);
    out.push(58);
    proof {
        assert(out@ =~= old(out)@ + (seq![123u8] + json_word(w@) + seq![58u8]));
    }
}

fn put_opt_location(l: Option<RelativeLocation>, out: &mut Vec<u8>)
    ensures
        final(out)@ == old(out)@ + json_opt_location(l),
{
    match l {
        None => {
            proof {
                lemma_keys();
            }
            put_str(out, "null");
        },
        Some(x) => {
            put_word(location_str(x), out);
        },
    }
}

fn put_identity(c: &ClientIdAndLocation, out: &mut Vec<u8>)
    ensures
        final(out)@ == old(out)@ + json_identity(*c),
{
    proof {
        lemma_keys();
    }
    put_str(out, "{\"uuid\":\"");
    put_uuid_text(c.uuid, out);
    put_str(out, "\",\"location\":");
    put_opt_location(c.location, out);
    out.push(125);
    proof {
        assert(out@ =~= old(out)@ + json_identity(*c));
    }
}

fn put_colour(c: &ColourRgb, out: &mut Vec<u8>)
    ensures
        final(out)@ == old(out)@ + json_colour(*c),
{
    proof {
        lemma_keys();
    }
    put_str(out, "{\"r\":");
    put_number(c.r as u32, out);
    put_str(out, ",\"g\":");
    put_number(c.g as u32, out);
    put_str(out, ",\"b\":");
    put_number(c.b as u32, out);
    out.push(125);
    proof {
        assert(out@ =~= old(out)@ + json_colour(*c));
    }
}

fn put_audio(f: &AudioFile, out: &mut Vec<u8>)
    ensures
        final(out)@ == old(out)@ + json_audio(*f),
{
    proof {
        lemma_keys();
    }
    put_str(out, "{\"file_name\":");
    put_string::<50>(&f.file_name, out);
    put_str(out, ",\"file_extension\":");
    put_string::<4>(&f.file_extension, out);
    out.push(125);
    proof {
        assert(out@ =~= old(out)@ + json_audio(*f));
    }
}

fn put_action(a: &Action, out: &mut Vec<u8>)
    ensures
        final(out)@ == old(out)@ + json_action(*a),
{
    proof {
        lemma_action_words();
    }
    match a {
        Action::ShowSubtitles(s) => {
            put_open("ShowSubtitles", out);
            put_string::<50>(&s.subtitles, out);
        },
        Action::ChangeColour(c) => {
            put_open("ChangeColour", out);
            put_colour(c, out);
        },
        Action::PlayAudio(f) => {
            put_open("PlayAudio", out);
            put_audio(f, out);
        },
        Action::MidiProgram(p) => {
            put_open("MidiProgram", out);
            put_number(p.get() as u32, out);
        },
    }
    out.push(125);
    proof {
        assert(out@ =~= old(out)@ + json_action(*a));
    }
}

fn put_service_identity(v: Service, c: &ClientIdAndLocation, out: &mut Vec<u8>)
    ensures
        final(out)@ == old(out)@ + json_service_identity(v, *c),
{
    out.push(91);
    put_word(service_str(v), out);
    out.push(44);
    put_identity(c, out);
    out.push(93);
    proof {
        assert(out@ =~= old(out)@ + json_service_identity(v, *c));
    }
}

fn put_event(e: &Event, out: &mut Vec<u8>)
    ensures
        final(out)@ == old(out)@ + json_event(*e),
{
    proof {
        lemma_event_words();
    }
    match e {
        Event::Register(c) => {
            put_open("Register", out);
            put_identity(c, out);
        },
        Event::SubscribeToService(v, c) => {
            put_open("SubscribeToService", out);
            put_service_identity(*v, c, out);
        },
        Event::UnsubscribeFromService(v, c) => {
            put_open("UnsubscribeFromService", out);
            put_service_identity(*v, c, out);
        },
        Event::UpdateLocation(c) => {
            put_open("UpdateLocation", out);
            put_identity(c, out);
        },
        Event::PerformAction(a) => {
            put_open("PerformAction", out);
            put_action(a, out);
        },
    }
    out.push(125);
    proof {
        assert(out@ =~= old(out)@ + json_event(*e));
    }
}

/// Encodes a message as text: one line of JSON.
pub fn encode_text(m: &ExchangeMessage) -> (s: String)
    ensures
        encode_utf8(s@) == text_encoding(*m),
{
    m.valid();
    let bytes = encode_text_bytes(m);
    proof {
        law_text_is_utf8(*m);
        vstd::utf8::decode_utf8_encode_utf8(bytes@);
    }
    match string_from_utf8(bytes) {
        Some(s) => s,
        None => String::new(),
    }
}

/// Encodes a message as text, in UTF-8.
pub fn encode_text_bytes(m: &ExchangeMessage) -> (v: Vec<u8>)
    ensures
        v@ == text_encoding(*m),
{
    proof {
        lemma_message_words();
        lemma_keys();
    }
    let mut out: Vec<u8> = Vec::new();
    match m {
        ExchangeMessage::Ack(a) => {
            put_open("Ack", &mut out);
            put_word(ack_str(*a), &mut out);
        },
        ExchangeMessage::Nack(n) => {
            put_open("Nack", &mut out);
            put_word(nack_str(*n), &mut out);
        },
        ExchangeMessage::Request(e) => {
            put_open("Request", &mut out);
            put_event(e, &mut out);
        },
        ExchangeMessage::Scene(e) => {
            put_open("Scene", &mut out);
            put_event(e, &mut out);
        },
        ExchangeMessage::Error(d) => {
            put_open("Error", &mut out);
            put_string::<100>(&d.error_descr, &mut out);
        },
        ExchangeMessage::NextScene => {
            put_open("NextScene", &mut out);
            put_str(&mut out, "null");
        },
        ExchangeMessage::RetriggerScene => {
            put_open("RetriggerScene", &mut out);
            put_str(&mut out, "null");
        },
        ExchangeMessage::Heartbeat => {
            put_open("Heartbeat", &mut out);
            put_str(&mut out, "null");
        },
        ExchangeMessage::HeartbeatAck => {
            put_open("HeartbeatAck", &mut out);
            put_str(&mut out, "null");
        },
    }
    out.push(125);
    proof {
        assert(out@ =~= text_encoding(*m));
    }
    out
}

/// Encodes an orchestrator's command as text.
pub fn encode_orchestration(m: &OrchestrationMessage) -> (v: Vec<u8>)
    ensures
        v@ == orchestration_encoding(*m),
{
    proof {
        lemma_message_words();
    }
    let mut out: Vec<u8> = Vec::new();
    match m {
        OrchestrationMessage::Request(e, l) => {
            put_open("Request", &mut out);
            out.push(91);
            put_event(e, &mut out);
            out.push(44);
            put_opt_location(*l, &mut out);
            out.push(93);
        },
    }
    out.push(125);
    proof {
        assert(out@ =~= orchestration_encoding(*m));
    }
    out
}

// ------------------------------------------------------------ reading

/// Reads the given byte and says whether it was there.
fn get_close(r: &mut Reader, b: u8) -> (found: bool)
    ensures
        forall|v: int|
            #[trigger] close(v, old(r).remaining(), b) == (if found {
                Some((v, final(r).remaining()))
            } else {
                None
            }),
        found ==> old(r).remaining() == seq![b] + final(r).remaining(),
{
    proof {
        lemma_take_byte_joins(r.remaining());
    }
    match r.byte() {
        Some(c) => c == b,
        None => false,
    }
}

/// The part that a closing byte ends, whatever the part is.
proof fn lemma_closed<T>(v: T, s: Seq<u8>, b: u8, found: bool, after: Seq<u8>)
    requires
        close(0int, s, b) == (if found {
            Some((0int, after))
        } else {
            None
        }),
    ensures
        close(v, s, b) == (if found {
            Some((v, after))
        } else {
            None
        }),
{
}

fn get_tag(r: &mut Reader) -> (x: Option<Vec<u8>>)
    ensures
        reads_bytes(dec_tag(old(r).remaining()), x, final(r).remaining()),
        x matches Some(n) ==> is_name(n@) && old(r).remaining() == seq![123u8] + quoted(n@)
            + seq![58u8] + final(r).remaining(),
{
    reveal(dec_tag);
    let ghost s0 = r.remaining();
    proof {
        lemma_take_byte_joins(s0);
    }
    match r.byte() {
        Some(123) => {},
        _ => {
            return None;
        },
    }
    let n = match get_name(r) {
        Some(n) => n,
        None => {
            return None;
        },
    };
    let ghost s2 = r.remaining();
    let found = get_close(r, 58);
    proof {
        lemma_closed(n@, s2, 58, found, r.remaining());
    }
    if !found {
        return None;
    }
    proof {
        assert(s0 =~= seq![123u8] + quoted(n@) + seq![58u8] + r.remaining());
    }
    Some(n)
}

fn get_location(r: &mut Reader) -> (x: Option<RelativeLocation>)
    ensures
        reads(dec_location(old(r).remaining()), x, final(r).remaining()),
        x matches Some(v) ==> old(r).remaining() == json_word(location_word(v)) + final(r).remaining(),
{
    reveal(dec_location);
    proof {
        lemma_location_words();
    }
    let n = match get_name(r) {
        Some(n) => n,
        None => {
            return None;
        },
    };
    if is_text(n.as_slice(), "Left") {
        Some(RelativeLocation::Left)
    } else if is_text(n.as_slice(), "Center") {
        Some(RelativeLocation::Center)
    } else if is_text(n.as_slice(), "Right") {
        Some(RelativeLocation::Right)
    } else {
        None
    }
}

fn get_service(r: &mut Reader) -> (x: Option<Service>)
    ensures
        reads(dec_service(old(r).remaining()), x, final(r).remaining()),
        x matches Some(v) ==> old(r).remaining() == json_word(service_word(v)) + final(r).remaining(),
{
    reveal(dec_service);
    proof {
        lemma_service_words();
    }
    let n = match get_name(r) {
        Some(n) => n,
        None => {
            return None;
        },
    };
    if is_text(n.as_slice(), "Subtitle") {
        Some(Service::Subtitle)
    } else if is_text(n.as_slice(), "Colour") {
        Some(Service::Colour)
    } else if is_text(n.as_slice(), "AudioPlayer") {
        Some(Service::AudioPlayer)
    } else if is_text(n.as_slice(), "Midi") {
        Some(Service::Midi)
    } else {
        None
    }
}

fn get_ack(r: &mut Reader) -> (x: Option<AckResult>)
    ensures
        reads(dec_ack(old(r).remaining()), x, final(r).remaining()),
        x matches Some(v) ==> old(r).remaining() == json_word(ack_word(v)) + final(r).remaining(),
{
    reveal(dec_ack);
    proof {
        lemma_ack_words();
    }
    let n = match get_name(r) {
        Some(n) => n,
        None => {
            return None;
        },
    };
    if is_text(n.as_slice(), "Success") {
        Some(AckResult::Success)
    } else if is_text(n.as_slice(), "UpdatedSubscription") {
        Some(AckResult::UpdatedSubscription)
    } else if is_text(n.as_slice(), "UpdatedLocation") {
        Some(AckResult::UpdatedLocation)
    } else {
        None
    }
}

fn get_nack(r: &mut Reader) -> (x: Option<NackResult>)
    ensures
        reads(dec_nack(old(r).remaining()), x, final(r).remaining()),
        x matches Some(v) ==> old(r).remaining() == json_word(nack_word(v)) + final(r).remaining(),
{
    reveal(dec_nack);
    proof {
        lemma_nack_words();
    }
    let n = match get_name(r) {
        Some(n) => n,
        None => {
            return None;
        },
    };
    if is_text(n.as_slice(), "AlreadySubscribed") {
        Some(NackResult::AlreadySubscribed)
    } else if is_text(n.as_slice(), "NotSubscribed") {
        Some(NackResult::NotSubscribed)
    } else if is_text(n.as_slice(), "Failed") {
        Some(NackResult::Failed)
    } else {
        None
    }
}

fn get_opt_location(r: &mut Reader) -> (x: Option<Option<RelativeLocation>>)
    ensures
        reads(dec_opt_location(old(r).remaining()), x, final(r).remaining()),
        x matches Some(v) ==> old(r).remaining() == json_opt_location(v) + final(r).remaining(),
{
    reveal(dec_opt_location);
    proof {
        lemma_keys();
        lemma_take_lit_joins(r.remaining(), ascii("null"@));
    }
    if r.expect("null") {
        return Some(None);
    }
    match get_location(r) {
        Some(l) => Some(Some(l)),
        None => None,
    }
}

fn get_identity(r: &mut Reader) -> (x: Option<ClientIdAndLocation>)
    ensures
        reads(dec_identity(old(r).remaining()), x, final(r).remaining()),
        x matches Some(v) ==> old(r).remaining() == json_identity(v) + final(r).remaining(),
{
    reveal(dec_identity);
    let ghost s0 = r.remaining();
    proof {
        lemma_keys();
        lemma_take_lit_joins(s0, ascii("{\"uuid\":\""@));
    }
    if !r.expect("{\"uuid\":\"") {
        return None;
    }
    let uuid = match get_uuid_text(r) {
        Some(u) => u,
        None => {
            return None;
        },
    };
    proof {
        lemma_take_lit_joins(r.remaining(), ascii("\",\"location\":"@));
    }
    if !r.expect("\",\"location\":") {
        return None;
    }
    let location = match get_opt_location(r) {
        Some(l) => l,
        None => {
            return None;
        },
    };
    let c = ClientIdAndLocation { uuid, location };
    let ghost s4 = r.remaining();
    let found = get_close(r, 125);
    proof {
        lemma_closed(c, s4, 125, found, r.remaining());
    }
    if !found {
        return None;
    }
    proof {
        assert(s0 =~= json_identity(c) + r.remaining());
    }
    Some(c)
}

fn get_byte_number(r: &mut Reader) -> (x: Option<u8>)
    ensures
        reads(dec_byte_number(old(r).remaining()), x, final(r).remaining()),
        x matches Some(v) ==> old(r).remaining() == json_number(v as int) + final(r).remaining(),
{
    match get_number(r) {
        Some(n) => if n <= 255 {
            Some(n as u8)
        } else {
            None
        },
        None => None,
    }
}

fn get_colour(r: &mut Reader) -> (x: Option<ColourRgb>)
    ensures
        reads(dec_colour(old(r).remaining()), x, final(r).remaining()),
        x matches Some(v) ==> old(r).remaining() == json_colour(v) + final(r).remaining(),
{
    reveal(dec_colour);
    let ghost s0 = r.remaining();
    proof {
        lemma_keys();
        lemma_take_lit_joins(s0, ascii("{\"r\":"@));
    }
    if !r.expect("{\"r\":") {
        return None;
    }
    let red = match get_byte_number(r) {
        Some(v) => v,
        None => {
            return None;
        },
    };
    proof {
        lemma_take_lit_joins(r.remaining(), ascii(",\"g\":"@));
    }
    if !r.expect(",\"g\":") {
        return None;
    }
    let green = match get_byte_number(r) {
        Some(v) => v,
        None => {
            return None;
        },
    };
    proof {
        lemma_take_lit_joins(r.remaining(), ascii(",\"b\":"@));
    }
    if !r.expect(",\"b\":") {
        return None;
    }
    let blue = match get_byte_number(r) {
        Some(v) => v,
        None => {
            return None;
        },
    };
    let c = ColourRgb { r: red, g: green, b: blue };
    let ghost s6 = r.remaining();
    let found = get_close(r, 125);
    proof {
        lemma_closed(c, s6, 125, found, r.remaining());
    }
    if !found {
        return None;
    }
    proof {
        assert(s0 =~= json_colour(c) + r.remaining());
    }
    Some(c)
}

fn get_audio(r: &mut Reader) -> (x: Option<AudioFile>)
    ensures
        reads(dec_audio(old(r).remaining()), x, final(r).remaining()),
        x matches Some(v) ==> v.wf() && old(r).remaining() == json_audio(v) + final(r).remaining(),
{
    reveal(dec_audio);
    let ghost s0 = r.remaining();
    proof {
        lemma_keys();
        lemma_take_lit_joins(s0, ascii("{\"file_name\":"@));
    }
    if !r.expect("{\"file_name\":") {
        return None;
    }
    let file_name = match get_string::<50>(r) {
        Some(v) => v,
        None => {
            return None;
        },
    };
    proof {
        lemma_take_lit_joins(r.remaining(), ascii(",\"file_extension\":"@));
    }
    if !r.expect(",\"file_extension\":") {
        return None;
    }
    let file_extension = match get_string::<4>(r) {
        Some(v) => v,
        None => {
            return None;
        },
    };
    let f = AudioFile { file_name, file_extension };
    let ghost s4 = r.remaining();
    let found = get_close(r, 125);
    proof {
        lemma_closed(f, s4, 125, found, r.remaining());
    }
    if !found {
        return None;
    }
    proof {
        assert(s0 =~= json_audio(f) + r.remaining());
    }
    Some(f)
}

fn get_preset(r: &mut Reader) -> (x: Option<PresetIndex>)
    ensures
        reads(dec_preset(old(r).remaining()), x, final(r).remaining()),
        x matches Some(v) ==> v.wf() && old(r).remaining() == json_number(v.number()) + final(r).remaining(),
{
    reveal(dec_preset);
    match get_number(r) {
        Some(n) => if n <= 16384 {
            PresetIndex::new(n as u16)
        } else {
            None
        },
        None => None,
    }
}

/// The body that the text of an action has behind its name.
spec fn action_body(a: Action) -> Seq<u8> {
    match a {
        Action::ShowSubtitles(s) => json_string(s.subtitles@),
        Action::ChangeColour(c) => json_colour(c),
        Action::PlayAudio(f) => json_audio(f),
        Action::MidiProgram(p) => json_number(p.number()),
    }
}

spec fn action_word(a: Action) -> Seq<char> {
    match a {
        Action::ShowSubtitles(_) => "ShowSubtitles"@,
        Action::ChangeColour(_) => "ChangeColour"@,
        Action::PlayAudio(_) => "PlayAudio"@,
        Action::MidiProgram(_) => "MidiProgram"@,
    }
}

fn get_action_body(n: &Vec<u8>, r: &mut Reader) -> (x: Option<Action>)
    ensures
        reads(dec_action_body(n@, old(r).remaining()), x, final(r).remaining()),
        x matches Some(v) ==> v.wf() && n@ == ascii(action_word(v)) && old(r).remaining()
            == action_body(v) + final(r).remaining(),
{
    proof {
        lemma_action_words();
    }
    if is_text(n.as_slice(), "ShowSubtitles") {
        match get_string::<50>(r) {
            Some(subtitles) => Some(Action::ShowSubtitles(Subtitles { subtitles })),
            None => None,
        }
    } else if is_text(n.as_slice(), "ChangeColour") {
        match get_colour(r) {
            Some(c) => Some(Action::ChangeColour(c)),
            None => None,
        }
    } else if is_text(n.as_slice(), "PlayAudio") {
        match get_audio(r) {
            Some(f) => Some(Action::PlayAudio(f)),
            None => None,
        }
    } else if is_text(n.as_slice(), "MidiProgram") {
        match get_preset(r) {
            Some(p) => Some(Action::MidiProgram(p)),
            None => None,
        }
    } else {
        None
    }
}

fn get_action(r: &mut Reader) -> (x: Option<Action>)
    ensures
        reads(dec_action(old(r).remaining()), x, final(r).remaining()),
        x matches Some(v) ==> v.wf() && old(r).remaining() == json_action(v) + final(r).remaining(),
{
    reveal(dec_action);
    let ghost s0 = r.remaining();
    let n = match get_tag(r) {
        Some(n) => n,
        None => {
            return None;
        },
    };
    let a = match get_action_body(&n, r) {
        Some(a) => a,
        None => {
            return None;
        },
    };
    let ghost s2 = r.remaining();
    let found = get_close(r, 125);
    proof {
        lemma_closed(a, s2, 125, found, r.remaining());
    }
    if !found {
        return None;
    }
    proof {
        assert(json_action(a) == json_tagged(action_word(a), action_body(a)));
        assert(s0 =~= json_action(a) + r.remaining());
    }
    Some(a)
}

fn get_service_identity(r: &mut Reader) -> (x: Option<(Service, ClientIdAndLocation)>)
    ensures
        reads(dec_service_identity(old(r).remaining()), x, final(r).remaining()),
        x matches Some(v) ==> old(r).remaining() == json_service_identity(v.0, v.1) + final(r).remaining(),
{
    reveal(dec_service_identity);
    let ghost s0 = r.remaining();
    proof {
        lemma_take_byte_joins(s0);
    }
    match r.byte() {
        Some(91) => {},
        _ => {
            return None;
        },
    }
    let v = match get_service(r) {
        Some(v) => v,
        None => {
            return None;
        },
    };
    proof {
        lemma_take_byte_joins(r.remaining());
    }
    match r.byte() {
        Some(44) => {},
        _ => {
            return None;
        },
    }
    let c = match get_identity(r) {
        Some(c) => c,
        None => {
            return None;
        },
    };
    let ghost s4 = r.remaining();
    let found = get_close(r, 93);
    proof {
        lemma_closed((v, c), s4, 93, found, r.remaining());
    }
    if !found {
        return None;
    }
    proof {
        assert(s0 =~= json_service_identity(v, c) + r.remaining());
    }
    Some((v, c))
}

spec fn event_body(e: Event) -> Seq<u8> {
    match e {
        Event::Register(c) => json_identity(c),
        Event::SubscribeToService(s, c) => json_service_identity(s, c),
        Event::UnsubscribeFromService(s, c) => json_service_identity(s, c),
        Event::UpdateLocation(c) => json_identity(c),
        Event::PerformAction(a) => json_action(a),
    }
}

spec fn event_word(e: Event) -> Seq<char> {
    match e {
        Event::Register(_) => "Register"@,
        Event::SubscribeToService(_, _) => "SubscribeToService"@,
        Event::UnsubscribeFromService(_, _) => "UnsubscribeFromService"@,
        Event::UpdateLocation(_) => "UpdateLocation"@,
        Event::PerformAction(_) => "PerformAction"@,
    }
}

fn get_event_body(n: &Vec<u8>, r: &mut Reader) -> (x: Option<Event>)
    ensures
        reads(dec_event_body(n@, old(r).remaining()), x, final(r).remaining()),
        x matches Some(v) ==> v.wf() && n@ == ascii(event_word(v)) && old(r).remaining()
            == event_body(v) + final(r).remaining(),
{
    proof {
        lemma_event_words();
    }
    if is_text(n.as_slice(), "Register") {
        match get_identity(r) {
            Some(c) => Some(Event::Register(c)),
            None => None,
        }
    } else if is_text(n.as_slice(), "SubscribeToService") {
        match get_service_identity(r) {
            Some((v, c)) => Some(Event::SubscribeToService(v, c)),
            None => None,
        }
    } else if is_text(n.as_slice(), "UnsubscribeFromService") {
        match get_service_identity(r) {
            Some((v, c)) => Some(Event::UnsubscribeFromService(v, c)),
            None => None,
        }
    } else if is_text(n.as_slice(), "UpdateLocation") {
        match get_identity(r) {
            Some(c) => Some(Event::UpdateLocation(c)),
            None => None,
        }
    } else if is_text(n.as_slice(), "PerformAction") {
        match get_action(r) {
            Some(a) => Some(Event::PerformAction(a)),
            None => None,
        }
    } else {
        None
    }
}

fn get_event(r: &mut Reader) -> (x: Option<Event>)
    ensures
        reads(dec_event(old(r).remaining()), x, final(r).remaining()),
        x matches Some(v) ==> v.wf() && old(r).remaining() == json_event(v) + final(r).remaining(),
{
    reveal(dec_event);
    let ghost s0 = r.remaining();
    let n = match get_tag(r) {
        Some(n) => n,
        None => {
            return None;
        },
    };
    let e = match get_event_body(&n, r) {
        Some(e) => e,
        None => {
            return None;
        },
    };
    let ghost s2 = r.remaining();
    let found = get_close(r, 125);
    proof {
        lemma_closed(e, s2, 125, found, r.remaining());
    }
    if !found {
        return None;
    }
    proof {
        assert(json_event(e) == json_tagged(event_word(e), event_body(e)));
        assert(s0 =~= json_event(e) + r.remaining());
    }
    Some(e)
}

spec fn message_body(m: ExchangeMessage) -> Seq<u8> {
    match m {
        ExchangeMessage::Ack(a) => json_word(ack_word(a)),
        ExchangeMessage::Nack(n) => json_word(nack_word(n)),
        ExchangeMessage::Request(e) => json_event(e),
        ExchangeMessage::Scene(e) => json_event(e),
        ExchangeMessage::Error(d) => json_string(d.error_descr@),
        _ => ascii("null"@),
    }
}

spec fn message_word(m: ExchangeMessage) -> Seq<char> {
    match m {
        ExchangeMessage::Ack(_) => "Ack"@,
        ExchangeMessage::Nack(_) => "Nack"@,
        ExchangeMessage::Request(_) => "Request"@,
        ExchangeMessage::Scene(_) => "Scene"@,
        ExchangeMessage::Error(_) => "Error"@,
        ExchangeMessage::NextScene => "NextScene"@,
        ExchangeMessage::RetriggerScene => "RetriggerScene"@,
        ExchangeMessage::Heartbeat => "Heartbeat"@,
        ExchangeMessage::HeartbeatAck => "HeartbeatAck"@,
    }
}

fn get_null(r: &mut Reader) -> (found: bool)
    ensures
        found <==> take_lit(old(r).remaining(), ascii("null"@)) is Some,
        found ==> take_lit(old(r).remaining(), ascii("null"@)) == Some(final(r).remaining())
            && old(r).remaining() == ascii("null"@) + final(r).remaining(),
{
    proof {
        lemma_keys();
        lemma_take_lit_joins(r.remaining(), ascii("null"@));
    }
    r.expect("null")
}

fn get_message_body(n: &Vec<u8>, r: &mut Reader) -> (x: Option<ExchangeMessage>)
    ensures
        reads(dec_message_body(n@, old(r).remaining()), x, final(r).remaining()),
        x matches Some(v) ==> v.wf() && n@ == ascii(message_word(v)) && old(r).remaining()
            == message_body(v) + final(r).remaining(),
{
    proof {
        lemma_message_words();
    }
    if is_text(n.as_slice(), "Ack") {
        match get_ack(r) {
            Some(a) => Some(ExchangeMessage::Ack(a)),
            None => None,
        }
    } else if is_text(n.as_slice(), "Nack") {
        match get_nack(r) {
            Some(a) => Some(ExchangeMessage::Nack(a)),
            None => None,
        }
    } else if is_text(n.as_slice(), "Request") {
        match get_event(r) {
            Some(e) => Some(ExchangeMessage::Request(e)),
            None => None,
        }
    } else if is_text(n.as_slice(), "Scene") {
        match get_event(r) {
            Some(e) => Some(ExchangeMessage::Scene(e)),
            None => None,
        }
    } else if is_text(n.as_slice(), "Error") {
        match get_string::<100>(r) {
            Some(error_descr) => Some(ExchangeMessage::Error(ErrorDescription { error_descr })),
            None => None,
        }
    } else if is_text(n.as_slice(), "NextScene") {
        if get_null(r) {
            Some(ExchangeMessage::NextScene)
        } else {
            None
        }
    } else if is_text(n.as_slice(), "RetriggerScene") {
        if get_null(r) {
            Some(ExchangeMessage::RetriggerScene)
        } else {
            None
        }
    } else if is_text(n.as_slice(), "Heartbeat") {
        if get_null(r) {
            Some(ExchangeMessage::Heartbeat)
        } else {
            None
        }
    } else if is_text(n.as_slice(), "HeartbeatAck") {
        if get_null(r) {
            Some(ExchangeMessage::HeartbeatAck)
        } else {
            None
        }
    } else {
        None
    }
}

fn get_message(r: &mut Reader) -> (x: Option<ExchangeMessage>)
    ensures
        reads(dec_message(old(r).remaining()), x, final(r).remaining()),
        x matches Some(v) ==> v.wf() && old(r).remaining() == text_encoding(v) + final(r).remaining(),
{
    reveal(dec_message);
    let ghost s0 = r.remaining();
    let n = match get_tag(r) {
        Some(n) => n,
        None => {
            return None;
        },
    };
    let m = match get_message_body(&n, r) {
        Some(m) => m,
        None => {
            return None;
        },
    };
    let ghost s2 = r.remaining();
    let found = get_close(r, 125);
    proof {
        lemma_closed(m, s2, 125, found, r.remaining());
    }
    if !found {
        return None;
    }
    proof {
        assert(text_encoding(m) == json_tagged(message_word(m), message_body(m)));
        assert(s0 =~= text_encoding(m) + r.remaining());
    }
    Some(m)
}

fn get_orchestration(r: &mut Reader) -> (x: Option<OrchestrationMessage>)
    ensures
        reads(dec_orchestration(old(r).remaining()), x, final(r).remaining()),
        x matches Some(v) ==> v.wf() && old(r).remaining() == orchestration_encoding(v) + final(r).remaining(),
{
    reveal(dec_orchestration);
    proof {
        lemma_message_words();
    }
    let ghost s0 = r.remaining();
    let n = match get_tag(r) {
        Some(n) => n,
        None => {
            return None;
        },
    };
    if !is_text(n.as_slice(), "Request") {
        return None;
    }
    proof {
        lemma_take_byte_joins(r.remaining());
    }
    match r.byte() {
        Some(91) => {},
        _ => {
            return None;
        },
    }
    let e = match get_event(r) {
        Some(e) => e,
        None => {
            return None;
        },
    };
    proof {
        lemma_take_byte_joins(r.remaining());
    }
    match r.byte() {
        Some(44) => {},
        _ => {
            return None;
        },
    }
    let l = match get_opt_location(r) {
        Some(l) => l,
        None => {
            return None;
        },
    };
    let m = OrchestrationMessage::Request(e, l);
    let ghost s5 = r.remaining();
    let found = get_close(r, 93);
    proof {
        lemma_closed(m, s5, 93, found, r.remaining());
    }
    if !found {
        return None;
    }
    let ghost s6 = r.remaining();
    let found = get_close(r, 125);
    proof {
        lemma_closed(m, s6, 125, found, r.remaining());
    }
    if !found {
        return None;
    }
    proof {
        assert(s0 =~= orchestration_encoding(m) + r.remaining());
    }
    Some(m)
}

/// Decodes a message from text: `Some` exactly for the text that
/// `encode_text` writes for a valid message, and then that message.
pub fn decode_text(text: &str) -> (r: Option<ExchangeMessage>)
    ensures
        r == text_decoding(encode_utf8(text@)),
        r matches Some(m) ==> m.wf() && text_encoding(m) == encode_utf8(text@),
        r is None ==> forall|m: ExchangeMessage|
            m.wf() ==> text_encoding(m) != encode_utf8(text@),
{
    decode_text_bytes(text.as_bytes())
}

/// Decodes a message from text in UTF-8: `Some` exactly for the bytes that
/// `encode_text_bytes` writes for a valid message, and then that message.
/// Unknown names, white space, fields out of order, strings over their
/// capacity or not UTF-8, numbers out of range and text that goes on after
/// the message are all refused.
pub fn decode_text_bytes(bytes: &[u8]) -> (r: Option<ExchangeMessage>)
    ensures
        r == text_decoding(bytes@),
        r matches Some(m) ==> m.wf() && text_encoding(m) == bytes@,
        r is None ==> forall|m: ExchangeMessage| m.wf() ==> text_encoding(m) != bytes@,
{
    let mut reader = Reader::new(bytes);
    let got = get_message(&mut reader);
    let r = match got {
        Some(m) => if reader.at_end() {
            Some(m)
        } else {
            None
        },
        None => None,
    };
    proof {
        assert forall|m: ExchangeMessage| m.wf() && text_encoding(m) == bytes@ implies r
            == Some(m) by {
            lemma_message(m, Seq::<u8>::empty());
            assert(text_encoding(m) + Seq::<u8>::empty() =~= bytes@);
        }
        if let Some(m) = r {
            assert(reader.remaining() =~= Seq::<u8>::empty());
            assert(text_encoding(m) + Seq::<u8>::empty() =~= text_encoding(m));
        }
    }
    r
}

/// Decodes an orchestrator's command from text: `Some` exactly for the text
/// that `encode_orchestration` writes for a valid command.
pub fn decode_orchestration(bytes: &[u8]) -> (r: Option<OrchestrationMessage>)
    ensures
        r == orchestration_decoding(bytes@),
        r matches Some(m) ==> m.wf() && orchestration_encoding(m) == bytes@,
        r is None ==> forall|m: OrchestrationMessage|
            m.wf() ==> orchestration_encoding(m) != bytes@,
{
    let mut reader = Reader::new(bytes);
    let got = get_orchestration(&mut reader);
    let r = match got {
        Some(m) => if reader.at_end() {
            Some(m)
        } else {
            None
        },
        None => None,
    };
    proof {
        assert forall|m: OrchestrationMessage|
            m.wf() && orchestration_encoding(m) == bytes@ implies r == Some(m) by {
            lemma_orchestration(m, Seq::<u8>::empty());
            assert(orchestration_encoding(m) + Seq::<u8>::empty() =~= bytes@);
        }
        if let Some(m) = r {
            assert(reader.remaining() =~= Seq::<u8>::empty());
            assert(orchestration_encoding(m) + Seq::<u8>::empty() =~= orchestration_encoding(
                m,
            ));
        }
    }
    r
}

// --------------------------------------------------------------- laws

/// Decoding the text of a message gives the message back.
pub proof fn law_text_round_trip(m: ExchangeMessage)
    requires
        m.wf(),
    ensures
        text_decoding(text_encoding(m)) == Some(m),
{
    let b = text_encoding(m);
    let c = choose|x: ExchangeMessage| x.wf() && text_encoding(x) == b;
    law_text_injective(c, m);
}

/// Two valid messages with the same text are the same message.
pub proof fn law_text_injective(a: ExchangeMessage, b: ExchangeMessage)
    requires
        a.wf(),
        b.wf(),
        text_encoding(a) == text_encoding(b),
    ensures
        a == b,
{
    lemma_message(a, Seq::<u8>::empty());
    lemma_message(b, Seq::<u8>::empty());
}

/// Decoding the text of a command gives the command back.
pub proof fn law_orchestration_round_trip(m: OrchestrationMessage)
    requires
        m.wf(),
    ensures
        orchestration_decoding(orchestration_encoding(m)) == Some(m),
{
    let b = orchestration_encoding(m);
    let c = choose|x: OrchestrationMessage| x.wf() && orchestration_encoding(x) == b;
    lemma_orchestration(c, Seq::<u8>::empty());
    lemma_orchestration(m, Seq::<u8>::empty());
}

// ------------------------------------------------------ text is text

proof fn lemma_byte_is_utf8(b: u8)
    requires
        b < 128,
    ensures
        valid_utf8(seq![b]),
{
    lemma_ascii_is_utf8(seq![b]);
}

proof fn lemma_tagged_is_utf8(w: Seq<char>, body: Seq<u8>)
    requires
        is_name(ascii(w)),
        valid_utf8(body),
    ensures
        valid_utf8(json_tagged(w, body)),
{
    lemma_byte_is_utf8(123);
    lemma_byte_is_utf8(58);
    lemma_byte_is_utf8(125);
    lemma_quoted_is_utf8(ascii(w));
    let a = seq![123u8] + json_word(w);
    valid_utf8_concat(seq![123u8], json_word(w));
    valid_utf8_concat(a, seq![58u8]);
    valid_utf8_concat(a + seq![58u8], body);
    valid_utf8_concat(a + seq![58u8] + body, seq![125u8]);
}

proof fn lemma_opt_location_is_utf8(l: Option<RelativeLocation>)
    ensures
        valid_utf8(json_opt_location(l)),
{
    lemma_keys();
    lemma_location_words();
    match l {
        None => {
            lemma_text_is_utf8("null"@);
        },
        Some(x) => {
            lemma_quoted_is_utf8(ascii(location_word(x)));
        },
    }
}

proof fn lemma_identity_is_utf8(c: ClientIdAndLocation)
    ensures
        valid_utf8(json_identity(c)),
{
    lemma_keys();
    let k1 = ascii("{\"uuid\":\""@);
    let k2 = ascii("\",\"location\":"@);
    lemma_text_is_utf8("{\"uuid\":\""@);
    lemma_text_is_utf8("\",\"location\":"@);
    lemma_uuid_text_is_utf8(c.uuid);
    lemma_opt_location_is_utf8(c.location);
    lemma_byte_is_utf8(125);
    valid_utf8_concat(k1, uuid_text(c.uuid));
    valid_utf8_concat(k1 + uuid_text(c.uuid), k2);
    valid_utf8_concat(k1 + uuid_text(c.uuid) + k2, json_opt_location(c.location));
    valid_utf8_concat(
        k1 + uuid_text(c.uuid) + k2 + json_opt_location(c.location),
        seq![125u8],
    );
}

proof fn lemma_colour_is_utf8(c: ColourRgb)
    ensures
        valid_utf8(json_colour(c)),
{
    lemma_keys();
    let k1 = ascii("{\"r\":"@);
    let k2 = ascii(",\"g\":"@);
    let k3 = ascii(",\"b\":"@);
    let r = json_number(c.r as int);
    let g = json_number(c.g as int);
    let b = json_number(c.b as int);
    lemma_text_is_utf8("{\"r\":"@);
    lemma_text_is_utf8(",\"g\":"@);
    lemma_text_is_utf8(",\"b\":"@);
    lemma_number_is_utf8(c.r as int);
    lemma_number_is_utf8(c.g as int);
    lemma_number_is_utf8(c.b as int);
    lemma_byte_is_utf8(125);
    valid_utf8_concat(k1, r);
    valid_utf8_concat(k1 + r, k2);
    valid_utf8_concat(k1 + r + k2, g);
    valid_utf8_concat(k1 + r + k2 + g, k3);
    valid_utf8_concat(k1 + r + k2 + g + k3, b);
    valid_utf8_concat(k1 + r + k2 + g + k3 + b, seq![125u8]);
}

proof fn lemma_audio_is_utf8(f: AudioFile)
    requires
        f.wf(),
    ensures
        valid_utf8(json_audio(f)),
{
    lemma_keys();
    let k1 = ascii("{\"file_name\":"@);
    let k2 = ascii(",\"file_extension\":"@);
    let n = json_string(f.file_name@);
    let e = json_string(f.file_extension@);
    lemma_text_is_utf8("{\"file_name\":"@);
    lemma_text_is_utf8(",\"file_extension\":"@);
    f.file_name.lemma_wf_fits();
    f.file_extension.lemma_wf_fits();
    lemma_string_is_utf8(f.file_name@);
    lemma_string_is_utf8(f.file_extension@);
    lemma_byte_is_utf8(125);
    valid_utf8_concat(k1, n);
    valid_utf8_concat(k1 + n, k2);
    valid_utf8_concat(k1 + n + k2, e);
    valid_utf8_concat(k1 + n + k2 + e, seq![125u8]);
}

proof fn lemma_action_is_utf8(a: Action)
    requires
        a.wf(),
    ensures
        valid_utf8(json_action(a)),
{
    lemma_action_words();
    match a {
        Action::ShowSubtitles(s) => {
            s.subtitles.lemma_wf_fits();
            lemma_string_is_utf8(s.subtitles@);
            lemma_tagged_is_utf8("ShowSubtitles"@, json_string(s.subtitles@));
        },
        Action::ChangeColour(c) => {
            lemma_colour_is_utf8(c);
            lemma_tagged_is_utf8("ChangeColour"@, json_colour(c));
        },
        Action::PlayAudio(f) => {
            lemma_audio_is_utf8(f);
            lemma_tagged_is_utf8("PlayAudio"@, json_audio(f));
        },
        Action::MidiProgram(p) => {
            p.lemma_wf();
            lemma_number_is_utf8(p.number());
            lemma_tagged_is_utf8("MidiProgram"@, json_number(p.number()));
        },
    }
}

proof fn lemma_service_identity_is_utf8(v: Service, c: ClientIdAndLocation)
    ensures
        valid_utf8(json_service_identity(v, c)),
{
    lemma_service_words();
    let w = json_word(service_word(v));
    lemma_quoted_is_utf8(ascii(service_word(v)));
    lemma_identity_is_utf8(c);
    lemma_byte_is_utf8(91);
    lemma_byte_is_utf8(44);
    lemma_byte_is_utf8(93);
    valid_utf8_concat(seq![91u8], w);
    valid_utf8_concat(seq![91u8] + w, seq![44u8]);
    valid_utf8_concat(seq![91u8] + w + seq![44u8], json_identity(c));
    valid_utf8_concat(seq![91u8] + w + seq![44u8] + json_identity(c), seq![93u8]);
}

proof fn lemma_event_is_utf8(e: Event)
    requires
        e.wf(),
    ensures
        valid_utf8(json_event(e)),
{
    lemma_event_words();
    match e {
        Event::Register(c) => {
            lemma_identity_is_utf8(c);
            lemma_tagged_is_utf8("Register"@, json_identity(c));
        },
        Event::SubscribeToService(v, c) => {
            lemma_service_identity_is_utf8(v, c);
            lemma_tagged_is_utf8("SubscribeToService"@, json_service_identity(v, c));
        },
        Event::UnsubscribeFromService(v, c) => {
            lemma_service_identity_is_utf8(v, c);
            lemma_tagged_is_utf8("UnsubscribeFromService"@, json_service_identity(v, c));
        },
        Event::UpdateLocation(c) => {
            lemma_identity_is_utf8(c);
            lemma_tagged_is_utf8("UpdateLocation"@, json_identity(c));
        },
        Event::PerformAction(a) => {
            lemma_action_is_utf8(a);
            lemma_tagged_is_utf8("PerformAction"@, json_action(a));
        },
    }
}

/// The text of a message is text: its bytes are UTF-8.
pub proof fn law_text_is_utf8(m: ExchangeMessage)
    requires
        m.wf(),
    ensures
        valid_utf8(text_encoding(m)),
{
    lemma_message_words();
    lemma_keys();
    lemma_text_is_utf8("null"@);
    match m {
        ExchangeMessage::Ack(a) => {
            lemma_ack_words();
            lemma_quoted_is_utf8(ascii(ack_word(a)));
            lemma_tagged_is_utf8("Ack"@, json_word(ack_word(a)));
        },
        ExchangeMessage::Nack(n) => {
            lemma_nack_words();
            lemma_quoted_is_utf8(ascii(nack_word(n)));
            lemma_tagged_is_utf8("Nack"@, json_word(nack_word(n)));
        },
        ExchangeMessage::Request(e) => {
            lemma_event_is_utf8(e);
            lemma_tagged_is_utf8("Request"@, json_event(e));
        },
        ExchangeMessage::Scene(e) => {
            lemma_event_is_utf8(e);
            lemma_tagged_is_utf8("Scene"@, json_event(e));
        },
        ExchangeMessage::Error(d) => {
            d.error_descr.lemma_wf_fits();
            lemma_string_is_utf8(d.error_descr@);
            lemma_tagged_is_utf8("Error"@, json_string(d.error_descr@));
        },
        ExchangeMessage::NextScene => {
            lemma_tagged_is_utf8("NextScene"@, ascii("null"@));
        },
        ExchangeMessage::RetriggerScene => {
            lemma_tagged_is_utf8("RetriggerScene"@, ascii("null"@));
        },
        ExchangeMessage::Heartbeat => {
            lemma_tagged_is_utf8("Heartbeat"@, ascii("null"@));
        },
        ExchangeMessage::HeartbeatAck => {
            lemma_tagged_is_utf8("HeartbeatAck"@, ascii("null"@));
        },
    }
}

} // verus!
