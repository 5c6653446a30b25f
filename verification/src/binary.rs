//! The binary encoding: one tag byte per choice, then the fields in order.
//!
//! Strings are a length byte followed by their UTF-8 bytes, an identifier is
//! the byte 16 followed by its sixteen bytes, most significant first, and a
//! preset number is a little-endian base-128 number with a continuation bit.
//! The decoder is strict: it accepts the bytes that the encoder writes for a
//! valid message and nothing else.

use vstd::prelude::*;
use vstd::utf8::valid_utf8;
use crate::action_messages::{Action, Event};
use crate::exchange_messages::{AckResult, ExchangeMessage, NackResult};
use crate::identity::{ClientIdAndLocation, RelativeLocation, Service, Uuid};
use crate::payload::{AudioFile, ColourRgb, ErrorDescription, PresetIndex, Subtitles};
use crate::reader::{
    lemma_take_byte, lemma_take_byte_joins, lemma_take_bytes, lemma_take_bytes_joins, reads,
    take_byte, take_bytes, Parsed, Reader,
};
use crate::text::{fits, BoundedString};

verus! {

// ---------------------------------------------------------------- tags

/// The tag of a location.
pub open spec fn location_tag(l: RelativeLocation) -> u8 {
    match l {
        RelativeLocation::Left => 0,
        RelativeLocation::Center => 1,
        RelativeLocation::Right => 2,
    }
}

/// The tag of a service.
pub open spec fn service_tag(s: Service) -> u8 {
    match s {
        Service::Subtitle => 0,
        Service::Colour => 1,
        Service::AudioPlayer => 2,
        Service::Midi => 3,
    }
}

/// The tag of a kind of success.
pub open spec fn ack_tag(a: AckResult) -> u8 {
    match a {
        AckResult::Success => 0,
        AckResult::UpdatedSubscription => 1,
        AckResult::UpdatedLocation => 2,
    }
}

/// The tag of a kind of refusal.
pub open spec fn nack_tag(n: NackResult) -> u8 {
    match n {
        NackResult::AlreadySubscribed => 0,
        NackResult::NotSubscribed => 1,
        NackResult::Failed => 2,
    }
}

/// The location with the given tag.
pub open spec fn location_of_tag(t: u8) -> Option<RelativeLocation> {
    if t == 0 {
        Some(RelativeLocation::Left)
    } else if t == 1 {
        Some(RelativeLocation::Center)
    } else if t == 2 {
        Some(RelativeLocation::Right)
    } else {
        None
    }
}

/// The service with the given tag.
pub open spec fn service_of_tag(t: u8) -> Option<Service> {
    if t == 0 {
        Some(Service::Subtitle)
    } else if t == 1 {
        Some(Service::Colour)
    } else if t == 2 {
        Some(Service::AudioPlayer)
    } else if t == 3 {
        Some(Service::Midi)
    } else {
        None
    }
}

/// The kind of success with the given tag.
pub open spec fn ack_of_tag(t: u8) -> Option<AckResult> {
    if t == 0 {
        Some(AckResult::Success)
    } else if t == 1 {
        Some(AckResult::UpdatedSubscription)
    } else if t == 2 {
        Some(AckResult::UpdatedLocation)
    } else {
        None
    }
}

/// The kind of refusal with the given tag.
pub open spec fn nack_of_tag(t: u8) -> Option<NackResult> {
    if t == 0 {
        Some(NackResult::AlreadySubscribed)
    } else if t == 1 {
        Some(NackResult::NotSubscribed)
    } else if t == 2 {
        Some(NackResult::Failed)
    } else {
        None
    }
}

// ---------------------------------------------------------- encodings

/// An optional location: a zero byte for none, else a one and the tag.
pub open spec fn enc_opt_location(l: Option<RelativeLocation>) -> Seq<u8> {
    match l {
        None => seq![0u8],
        Some(x) => seq![1u8, location_tag(x)],
    }
}

/// The sixteen bytes of an identifier, most significant first.
pub open spec fn uuid_bytes(u: Uuid) -> Seq<u8> {
    seq![
        ((u >> 120) & 0xff) as u8,
        ((u >> 112) & 0xff) as u8,
        ((u >> 104) & 0xff) as u8,
        ((u >> 96) & 0xff) as u8,
        ((u >> 88) & 0xff) as u8,
        ((u >> 80) & 0xff) as u8,
        ((u >> 72) & 0xff) as u8,
        ((u >> 64) & 0xff) as u8,
        ((u >> 56) & 0xff) as u8,
        ((u >> 48) & 0xff) as u8,
        ((u >> 40) & 0xff) as u8,
        ((u >> 32) & 0xff) as u8,
        ((u >> 24) & 0xff) as u8,
        ((u >> 16) & 0xff) as u8,
        ((u >> 8) & 0xff) as u8,
        (u & 0xff) as u8,
    ]
}

/// The identifier that sixteen bytes spell, most significant first.
pub open spec fn uuid_of_bytes(b: Seq<u8>) -> Uuid {
    uuid_of_16(
        b[0], b[1], b[2], b[3], b[4], b[5], b[6], b[7],
        b[8], b[9], b[10], b[11], b[12], b[13], b[14], b[15],
    )
}

/// The identifier with the given bytes, most significant first.
pub open spec fn uuid_of_16(
    b0: u8, b1: u8, b2: u8, b3: u8, b4: u8, b5: u8, b6: u8, b7: u8,
    b8: u8, b9: u8, b10: u8, b11: u8, b12: u8, b13: u8, b14: u8, b15: u8,
) -> Uuid {
    (b0 as u128) << 120 | (b1 as u128) << 112 | (b2 as u128) << 104 | (b3 as u128) << 96
        | (b4 as u128) << 88 | (b5 as u128) << 80 | (b6 as u128) << 72 | (b7 as u128) << 64
        | (b8 as u128) << 56 | (b9 as u128) << 48 | (b10 as u128) << 40 | (b11 as u128) << 32
        | (b12 as u128) << 24 | (b13 as u128) << 16 | (b14 as u128) << 8 | (b15 as u128)
}

/// An identifier: the length sixteen, then its bytes.
pub open spec fn enc_uuid(u: Uuid) -> Seq<u8> {
    seq![16u8] + uuid_bytes(u)
}

/// An identity: the identifier, then the location.
pub open spec fn enc_identity(c: ClientIdAndLocation) -> Seq<u8> {
    enc_uuid(c.uuid) + enc_opt_location(c.location)
}

/// A string: its length in one byte, then its bytes.
pub open spec fn enc_text(t: Seq<u8>) -> Seq<u8> {
    seq![t.len() as u8] + t
}

/// A preset number in base 128, least significant digit first, every digit
/// but the last with its top bit set.
pub open spec fn enc_preset(n: int) -> Seq<u8> {
    if n < 128 {
        seq![n as u8]
    } else if n < 16384 {
        seq![(n % 128 + 128) as u8, (n / 128) as u8]
    } else {
        seq![(n % 128 + 128) as u8, ((n / 128) % 128 + 128) as u8, (n / 16384) as u8]
    }
}

/// A colour: red, green, blue.
pub open spec fn enc_colour(c: ColourRgb) -> Seq<u8> {
    seq![c.r, c.g, c.b]
}

/// An action: its tag, then its payload.
pub open spec fn enc_action(a: Action) -> Seq<u8> {
    match a {
        Action::ShowSubtitles(s) => seq![0u8] + enc_text(s.subtitles@),
        Action::ChangeColour(c) => seq![1u8] + enc_colour(c),
        Action::PlayAudio(f) => seq![2u8] + (enc_text(f.file_name@) + enc_text(
            f.file_extension@,
        )),
        Action::MidiProgram(p) => seq![3u8] + enc_preset(p.number()),
    }
}

/// An event: its tag, then its fields.
pub open spec fn enc_event(e: Event) -> Seq<u8> {
    match e {
        Event::Register(c) => seq![0u8] + enc_identity(c),
        Event::SubscribeToService(s, c) => seq![1u8] + (seq![service_tag(s)] + enc_identity(c)),
        Event::UnsubscribeFromService(s, c) => seq![2u8] + (seq![service_tag(s)] + enc_identity(
            c,
        )),
        Event::UpdateLocation(c) => seq![3u8] + enc_identity(c),
        Event::PerformAction(a) => seq![4u8] + enc_action(a),
    }
}

/// The bytes of a message.
pub open spec fn binary_encoding(m: ExchangeMessage) -> Seq<u8> {
    match m {
        ExchangeMessage::Ack(a) => seq![0u8, ack_tag(a)],
        ExchangeMessage::Nack(n) => seq![1u8, nack_tag(n)],
        ExchangeMessage::Request(e) => seq![2u8] + enc_event(e),
        ExchangeMessage::Scene(e) => seq![3u8] + enc_event(e),
        ExchangeMessage::Error(d) => seq![4u8] + enc_text(d.error_descr@),
        ExchangeMessage::NextScene => seq![5u8],
        ExchangeMessage::RetriggerScene => seq![6u8],
        ExchangeMessage::Heartbeat => seq![7u8],
        ExchangeMessage::HeartbeatAck => seq![8u8],
    }
}

/// The message that the given bytes are the encoding of, if there is one.
pub open spec fn binary_decoding(b: Seq<u8>) -> Option<ExchangeMessage> {
    if exists|m: ExchangeMessage| m.wf() && binary_encoding(m) == b {
        Some(choose|m: ExchangeMessage| m.wf() && binary_encoding(m) == b)
    } else {
        None
    }
}

// ------------------------------------------------------------ grammar

#[verifier::opaque]
spec fn dec_location(s: Seq<u8>) -> Parsed<RelativeLocation> {
    match take_byte(s) {
        Some((t, rest)) => match location_of_tag(t) {
            Some(l) => Some((l, rest)),
            None => None,
        },
        None => None,
    }
}

#[verifier::opaque]
spec fn dec_service(s: Seq<u8>) -> Parsed<Service> {
    match take_byte(s) {
        Some((t, rest)) => match service_of_tag(t) {
            Some(v) => Some((v, rest)),
            None => None,
        },
        None => None,
    }
}

#[verifier::opaque]
spec fn dec_ack(s: Seq<u8>) -> Parsed<AckResult> {
    match take_byte(s) {
        Some((t, rest)) => match ack_of_tag(t) {
            Some(v) => Some((v, rest)),
            None => None,
        },
        None => None,
    }
}

#[verifier::opaque]
spec fn dec_nack(s: Seq<u8>) -> Parsed<NackResult> {
    match take_byte(s) {
        Some((t, rest)) => match nack_of_tag(t) {
            Some(v) => Some((v, rest)),
            None => None,
        },
        None => None,
    }
}

#[verifier::opaque]
spec fn dec_opt_location(s: Seq<u8>) -> Parsed<Option<RelativeLocation>> {
    match take_byte(s) {
        Some((t, r1)) => if t == 0 {
            Some((None, r1))
        } else if t == 1 {
            match dec_location(r1) {
                Some((l, r2)) => Some((Some(l), r2)),
                None => None,
            }
        } else {
            None
        },
        None => None,
    }
}

#[verifier::opaque]
spec fn dec_uuid(s: Seq<u8>) -> Parsed<Uuid> {
    match take_byte(s) {
        Some((t, r1)) => if t == 16 {
            match take_bytes(r1, 16) {
                Some((bs, r2)) => Some((uuid_of_bytes(bs), r2)),
                None => None,
            }
        } else {
            None
        },
        None => None,
    }
}

#[verifier::opaque]
spec fn dec_identity(s: Seq<u8>) -> Parsed<ClientIdAndLocation> {
    match dec_uuid(s) {
        Some((uuid, r1)) => match dec_opt_location(r1) {
            Some((location, r2)) => Some((ClientIdAndLocation { uuid, location }, r2)),
            None => None,
        },
        None => None,
    }
}

#[verifier::opaque]
spec fn dec_text(s: Seq<u8>, cap: nat) -> Parsed<Seq<u8>> {
    match take_byte(s) {
        Some((n, r1)) => if n <= cap {
            match take_bytes(r1, n as nat) {
                Some((bs, r2)) => if valid_utf8(bs) {
                    Some((bs, r2))
                } else {
                    None
                },
                None => None,
            }
        } else {
            None
        },
        None => None,
    }
}

#[verifier::opaque]
spec fn dec_bounded<const N: usize>(s: Seq<u8>) -> Parsed<BoundedString<N>> {
    match dec_text(s, N as nat) {
        Some((bs, rest)) => Some((BoundedString::<N>::of(bs), rest)),
        None => None,
    }
}

#[verifier::opaque]
spec fn dec_preset(s: Seq<u8>) -> Parsed<int> {
    match take_byte(s) {
        Some((b0, r1)) => if b0 < 128 {
            if b0 >= 1 {
                Some((b0 as int, r1))
            } else {
                None
            }
        } else {
            match take_byte(r1) {
                Some((b1, r2)) => if b1 < 128 {
                    if b1 >= 1 {
                        Some(((b0 - 128) + 128 * b1, r2))
                    } else {
                        None
                    }
                } else {
                    match take_byte(r2) {
                        Some((b2, r3)) => if b0 == 128 && b1 == 128 && b2 == 1 {
                            Some((16384int, r3))
                        } else {
                            None
                        },
                        None => None,
                    }
                },
                None => None,
            }
        },
        None => None,
    }
}

#[verifier::opaque]
spec fn dec_colour(s: Seq<u8>) -> Parsed<ColourRgb> {
    match take_bytes(s, 3) {
        Some((bs, rest)) => Some((ColourRgb { r: bs[0], g: bs[1], b: bs[2] }, rest)),
        None => None,
    }
}

#[verifier::opaque]
spec fn dec_action(s: Seq<u8>) -> Parsed<Action> {
    match take_byte(s) {
        Some((t, r1)) => if t == 0 {
            match dec_bounded::<50>(r1) {
                Some((subtitles, r2)) => Some((Action::ShowSubtitles(Subtitles { subtitles }), r2)),
                None => None,
            }
        } else if t == 1 {
            match dec_colour(r1) {
                Some((c, r2)) => Some((Action::ChangeColour(c), r2)),
                None => None,
            }
        } else if t == 2 {
            match dec_bounded::<50>(r1) {
                Some((file_name, r2)) => match dec_bounded::<4>(r2) {
                    Some((file_extension, r3)) => Some(
                        (Action::PlayAudio(AudioFile { file_name, file_extension }), r3),
                    ),
                    None => None,
                },
                None => None,
            }
        } else if t == 3 {
            match dec_preset(r1) {
                Some((n, r2)) => Some((Action::MidiProgram(PresetIndex::of(n)), r2)),
                None => None,
            }
        } else {
            None
        },
        None => None,
    }
}

#[verifier::opaque]
spec fn dec_service_identity(s: Seq<u8>) -> Parsed<(Service, ClientIdAndLocation)> {
    match dec_service(s) {
        Some((v, r1)) => match dec_identity(r1) {
            Some((c, r2)) => Some(((v, c), r2)),
            None => None,
        },
        None => None,
    }
}

#[verifier::opaque]
spec fn dec_event(s: Seq<u8>) -> Parsed<Event> {
    match take_byte(s) {
        Some((t, r1)) => if t == 0 {
            match dec_identity(r1) {
                Some((c, r2)) => Some((Event::Register(c), r2)),
                None => None,
            }
        } else if t == 1 {
            match dec_service_identity(r1) {
                Some((p, r2)) => Some((Event::SubscribeToService(p.0, p.1), r2)),
                None => None,
            }
        } else if t == 2 {
            match dec_service_identity(r1) {
                Some((p, r2)) => Some((Event::UnsubscribeFromService(p.0, p.1), r2)),
                None => None,
            }
        } else if t == 3 {
            match dec_identity(r1) {
                Some((c, r2)) => Some((Event::UpdateLocation(c), r2)),
                None => None,
            }
        } else if t == 4 {
            match dec_action(r1) {
                Some((a, r2)) => Some((Event::PerformAction(a), r2)),
                None => None,
            }
        } else {
            None
        },
        None => None,
    }
}

#[verifier::opaque]
spec fn dec_message(s: Seq<u8>) -> Parsed<ExchangeMessage> {
    match take_byte(s) {
        Some((t, r1)) => if t == 0 {
            match dec_ack(r1) {
                Some((a, r2)) => Some((ExchangeMessage::Ack(a), r2)),
                None => None,
            }
        } else if t == 1 {
            match dec_nack(r1) {
                Some((n, r2)) => Some((ExchangeMessage::Nack(n), r2)),
                None => None,
            }
        } else if t == 2 {
            match dec_event(r1) {
                Some((e, r2)) => Some((ExchangeMessage::Request(e), r2)),
                None => None,
            }
        } else if t == 3 {
            match dec_event(r1) {
                Some((e, r2)) => Some((ExchangeMessage::Scene(e), r2)),
                None => None,
            }
        } else if t == 4 {
            match dec_bounded::<100>(r1) {
                Some((error_descr, r2)) => Some(
                    (ExchangeMessage::Error(ErrorDescription { error_descr }), r2),
                ),
                None => None,
            }
        } else if t == 5 {
            Some((ExchangeMessage::NextScene, r1))
        } else if t == 6 {
            Some((ExchangeMessage::RetriggerScene, r1))
        } else if t == 7 {
            Some((ExchangeMessage::Heartbeat, r1))
        } else if t == 8 {
            Some((ExchangeMessage::HeartbeatAck, r1))
        } else {
            None
        },
        None => None,
    }
}

// ------------------------------------- the grammar reads what is written

/// Sixteen bytes spell the identifier they were taken from.
pub proof fn lemma_uuid_bytes(u: Uuid)
    ensures
        uuid_bytes(u).len() == 16,
        uuid_of_bytes(uuid_bytes(u)) == u,
{
    assert(u == (((u >> 120) & 0xff) as u8 as u128) << 120 | (((u >> 112) & 0xff) as u8 as u128)
        << 112 | (((u >> 104) & 0xff) as u8 as u128) << 104 | (((u >> 96) & 0xff) as u8 as u128)
        << 96 | (((u >> 88) & 0xff) as u8 as u128) << 88 | (((u >> 80) & 0xff) as u8 as u128)
        << 80 | (((u >> 72) & 0xff) as u8 as u128) << 72 | (((u >> 64) & 0xff) as u8 as u128)
        << 64 | (((u >> 56) & 0xff) as u8 as u128) << 56 | (((u >> 48) & 0xff) as u8 as u128)
        << 48 | (((u >> 40) & 0xff) as u8 as u128) << 40 | (((u >> 32) & 0xff) as u8 as u128)
        << 32 | (((u >> 24) & 0xff) as u8 as u128) << 24 | (((u >> 16) & 0xff) as u8 as u128)
        << 16 | (((u >> 8) & 0xff) as u8 as u128) << 8 | ((u & 0xff) as u8 as u128))
        by (bit_vector);
}

proof fn lemma_uuid_of_16(
    b0: u8, b1: u8, b2: u8, b3: u8, b4: u8, b5: u8, b6: u8, b7: u8,
    b8: u8, b9: u8, b10: u8, b11: u8, b12: u8, b13: u8, b14: u8, b15: u8,
)
    ensures
        uuid_bytes(
            uuid_of_16(b0, b1, b2, b3, b4, b5, b6, b7, b8, b9, b10, b11, b12, b13, b14, b15),
        ) == seq![b0, b1, b2, b3, b4, b5, b6, b7, b8, b9, b10, b11, b12, b13, b14, b15],
{
    let u = uuid_of_16(b0, b1, b2, b3, b4, b5, b6, b7, b8, b9, b10, b11, b12, b13, b14, b15);
    assert(((u >> 120) & 0xff) as u8 == b0 && ((u >> 112) & 0xff) as u8 == b1 && ((u >> 104)
        & 0xff) as u8 == b2 && ((u >> 96) & 0xff) as u8 == b3 && ((u >> 88) & 0xff) as u8 == b4
        && ((u >> 80) & 0xff) as u8 == b5 && ((u >> 72) & 0xff) as u8 == b6 && ((u >> 64)
        & 0xff) as u8 == b7) by (bit_vector)
        requires
            u == (b0 as u128) << 120 | (b1 as u128) << 112 | (b2 as u128) << 104 | (b3 as u128)
                << 96 | (b4 as u128) << 88 | (b5 as u128) << 80 | (b6 as u128) << 72 | (
            b7 as u128) << 64 | (b8 as u128) << 56 | (b9 as u128) << 48 | (b10 as u128) << 40 | (
            b11 as u128) << 32 | (b12 as u128) << 24 | (b13 as u128) << 16 | (b14 as u128) << 8
                | (b15 as u128),
    ;
    assert(((u >> 56) & 0xff) as u8 == b8 && ((u >> 48) & 0xff) as u8 == b9 && ((u >> 40)
        & 0xff) as u8 == b10 && ((u >> 32) & 0xff) as u8 == b11 && ((u >> 24) & 0xff) as u8
        == b12 && ((u >> 16) & 0xff) as u8 == b13 && ((u >> 8) & 0xff) as u8 == b14 && (u
        & 0xff) as u8 == b15) by (bit_vector)
        requires
            u == (b0 as u128) << 120 | (b1 as u128) << 112 | (b2 as u128) << 104 | (b3 as u128)
                << 96 | (b4 as u128) << 88 | (b5 as u128) << 80 | (b6 as u128) << 72 | (
            b7 as u128) << 64 | (b8 as u128) << 56 | (b9 as u128) << 48 | (b10 as u128) << 40 | (
            b11 as u128) << 32 | (b12 as u128) << 24 | (b13 as u128) << 16 | (b14 as u128) << 8
                | (b15 as u128),
    ;
    assert(uuid_bytes(u) =~= seq![
        b0, b1, b2, b3, b4, b5, b6, b7, b8, b9, b10, b11, b12, b13, b14, b15,
    ]);
}

/// An identifier has the sixteen bytes it was spelt with.
pub proof fn lemma_uuid_of_bytes(b: Seq<u8>)
    requires
        b.len() == 16,
    ensures
        uuid_bytes(uuid_of_bytes(b)) == b,
{
    lemma_uuid_of_16(
        b[0], b[1], b[2], b[3], b[4], b[5], b[6], b[7],
        b[8], b[9], b[10], b[11], b[12], b[13], b[14], b[15],
    );
    assert(uuid_bytes(uuid_of_bytes(b)) =~= b);
}

proof fn lemma_location(l: RelativeLocation, rest: Seq<u8>)
    ensures
        dec_location(seq![location_tag(l)] + rest) == Some((l, rest)),
{
    reveal(dec_location);
    lemma_take_byte(location_tag(l), rest);
}

proof fn lemma_service(v: Service, rest: Seq<u8>)
    ensures
        dec_service(seq![service_tag(v)] + rest) == Some((v, rest)),
{
    reveal(dec_service);
    lemma_take_byte(service_tag(v), rest);
}

proof fn lemma_ack(v: AckResult, rest: Seq<u8>)
    ensures
        dec_ack(seq![ack_tag(v)] + rest) == Some((v, rest)),
{
    reveal(dec_ack);
    lemma_take_byte(ack_tag(v), rest);
}

proof fn lemma_nack(v: NackResult, rest: Seq<u8>)
    ensures
        dec_nack(seq![nack_tag(v)] + rest) == Some((v, rest)),
{
    reveal(dec_nack);
    lemma_take_byte(nack_tag(v), rest);
}

proof fn lemma_opt_location(l: Option<RelativeLocation>, rest: Seq<u8>)
    ensures
        dec_opt_location(enc_opt_location(l) + rest) == Some((l, rest)),
{
    reveal(dec_opt_location);
    match l {
        None => {
            lemma_take_byte(0, rest);
        },
        Some(x) => {
            assert(enc_opt_location(l) + rest =~= seq![1u8] + (seq![location_tag(x)] + rest));
            lemma_take_byte(1, seq![location_tag(x)] + rest);
            lemma_location(x, rest);
        },
    }
}

proof fn lemma_uuid(u: Uuid, rest: Seq<u8>)
    ensures
        dec_uuid(enc_uuid(u) + rest) == Some((u, rest)),
{
    reveal(dec_uuid);
    lemma_uuid_bytes(u);
    assert(enc_uuid(u) + rest =~= seq![16u8] + (uuid_bytes(u) + rest));
    lemma_take_byte(16, uuid_bytes(u) + rest);
    lemma_take_bytes(uuid_bytes(u), rest);
}

proof fn lemma_identity(c: ClientIdAndLocation, rest: Seq<u8>)
    ensures
        dec_identity(enc_identity(c) + rest) == Some((c, rest)),
{
    reveal(dec_identity);
    assert(enc_identity(c) + rest =~= enc_uuid(c.uuid) + (enc_opt_location(c.location) + rest));
    lemma_uuid(c.uuid, enc_opt_location(c.location) + rest);
    lemma_opt_location(c.location, rest);
}

proof fn lemma_text(t: Seq<u8>, cap: nat, rest: Seq<u8>)
    requires
        fits(t, cap),
        cap < 256,
    ensures
        dec_text(enc_text(t) + rest, cap) == Some((t, rest)),
{
    reveal(dec_text);
    assert(enc_text(t) + rest =~= seq![t.len() as u8] + (t + rest));
    lemma_take_byte(t.len() as u8, t + rest);
    lemma_take_bytes(t, rest);
}

proof fn lemma_bounded<const N: usize>(t: BoundedString<N>, rest: Seq<u8>)
    requires
        t.wf(),
        N < 256,
    ensures
        dec_bounded::<N>(enc_text(t@) + rest) == Some((t, rest)),
{
    reveal(dec_bounded);
    t.lemma_wf_fits();
    lemma_text(t@, N as nat, rest);
    t.lemma_of_view();
}

proof fn lemma_preset(n: int, rest: Seq<u8>)
    requires
        1 <= n <= 16384,
    ensures
        dec_preset(enc_preset(n) + rest) == Some((n, rest)),
{
    reveal(dec_preset);
    if n < 128 {
        lemma_take_byte(n as u8, rest);
    } else if n < 16384 {
        let b0 = (n % 128 + 128) as u8;
        let b1 = (n / 128) as u8;
        assert(enc_preset(n) + rest =~= seq![b0] + (seq![b1] + rest));
        lemma_take_byte(b0, seq![b1] + rest);
        lemma_take_byte(b1, rest);
    } else {
        assert(enc_preset(n) + rest =~= seq![128u8] + (seq![128u8] + (seq![1u8] + rest)));
        lemma_take_byte(128, seq![128u8] + (seq![1u8] + rest));
        lemma_take_byte(128, seq![1u8] + rest);
        lemma_take_byte(1, rest);
    }
}

proof fn lemma_colour(c: ColourRgb, rest: Seq<u8>)
    ensures
        dec_colour(enc_colour(c) + rest) == Some((c, rest)),
{
    reveal(dec_colour);
    lemma_take_bytes(enc_colour(c), rest);
}

proof fn lemma_action(a: Action, rest: Seq<u8>)
    requires
        a.wf(),
    ensures
        dec_action(enc_action(a) + rest) == Some((a, rest)),
{
    reveal(dec_action);
    match a {
        Action::ShowSubtitles(s) => {
            assert(enc_action(a) + rest =~= seq![0u8] + (enc_text(s.subtitles@) + rest));
            lemma_take_byte(0, enc_text(s.subtitles@) + rest);
            lemma_bounded::<50>(s.subtitles, rest);
        },
        Action::ChangeColour(c) => {
            assert(enc_action(a) + rest =~= seq![1u8] + (enc_colour(c) + rest));
            lemma_take_byte(1, enc_colour(c) + rest);
            lemma_colour(c, rest);
        },
        Action::PlayAudio(f) => {
            let tail = enc_text(f.file_extension@) + rest;
            assert(enc_action(a) + rest =~= seq![2u8] + (enc_text(f.file_name@) + tail));
            lemma_take_byte(2, enc_text(f.file_name@) + tail);
            lemma_bounded::<50>(f.file_name, tail);
            lemma_bounded::<4>(f.file_extension, rest);
        },
        Action::MidiProgram(p) => {
            p.lemma_wf();
            assert(enc_action(a) + rest =~= seq![3u8] + (enc_preset(p.number()) + rest));
            lemma_take_byte(3, enc_preset(p.number()) + rest);
            lemma_preset(p.number(), rest);
        },
    }
}

proof fn lemma_service_identity(v: Service, c: ClientIdAndLocation, rest: Seq<u8>)
    ensures
        dec_service_identity((seq![service_tag(v)] + enc_identity(c)) + rest) == Some(
            ((v, c), rest),
        ),
{
    reveal(dec_service_identity);
    assert((seq![service_tag(v)] + enc_identity(c)) + rest =~= seq![service_tag(v)] + (
    enc_identity(c) + rest));
    lemma_service(v, enc_identity(c) + rest);
    lemma_identity(c, rest);
}

proof fn lemma_event(e: Event, rest: Seq<u8>)
    requires
        e.wf(),
    ensures
        dec_event(enc_event(e) + rest) == Some((e, rest)),
{
    reveal(dec_event);
    match e {
        Event::Register(c) => {
            assert(enc_event(e) + rest =~= seq![0u8] + (enc_identity(c) + rest));
            lemma_take_byte(0, enc_identity(c) + rest);
            lemma_identity(c, rest);
        },
        Event::SubscribeToService(v, c) => {
            let body = seq![service_tag(v)] + enc_identity(c);
            assert(enc_event(e) + rest =~= seq![1u8] + (body + rest));
            lemma_take_byte(1, body + rest);
            lemma_service_identity(v, c, rest);
        },
        Event::UnsubscribeFromService(v, c) => {
            let body = seq![service_tag(v)] + enc_identity(c);
            assert(enc_event(e) + rest =~= seq![2u8] + (body + rest));
            lemma_take_byte(2, body + rest);
            lemma_service_identity(v, c, rest);
        },
        Event::UpdateLocation(c) => {
            assert(enc_event(e) + rest =~= seq![3u8] + (enc_identity(c) + rest));
            lemma_take_byte(3, enc_identity(c) + rest);
            lemma_identity(c, rest);
        },
        Event::PerformAction(a) => {
            assert(enc_event(e) + rest =~= seq![4u8] + (enc_action(a) + rest));
            lemma_take_byte(4, enc_action(a) + rest);
            lemma_action(a, rest);
        },
    }
}

proof fn lemma_message(m: ExchangeMessage, rest: Seq<u8>)
    requires
        m.wf(),
    ensures
        dec_message(binary_encoding(m) + rest) == Some((m, rest)),
{
    reveal(dec_message);
    match m {
        ExchangeMessage::Ack(a) => {
            assert(binary_encoding(m) + rest =~= seq![0u8] + (seq![ack_tag(a)] + rest));
            lemma_take_byte(0, seq![ack_tag(a)] + rest);
            lemma_ack(a, rest);
        },
        ExchangeMessage::Nack(n) => {
            assert(binary_encoding(m) + rest =~= seq![1u8] + (seq![nack_tag(n)] + rest));
            lemma_take_byte(1, seq![nack_tag(n)] + rest);
            lemma_nack(n, rest);
        },
        ExchangeMessage::Request(e) => {
            assert(binary_encoding(m) + rest =~= seq![2u8] + (enc_event(e) + rest));
            lemma_take_byte(2, enc_event(e) + rest);
            lemma_event(e, rest);
        },
        ExchangeMessage::Scene(e) => {
            assert(binary_encoding(m) + rest =~= seq![3u8] + (enc_event(e) + rest));
            lemma_take_byte(3, enc_event(e) + rest);
            lemma_event(e, rest);
        },
        ExchangeMessage::Error(d) => {
            assert(binary_encoding(m) + rest =~= seq![4u8] + (enc_text(d.error_descr@) + rest));
            lemma_take_byte(4, enc_text(d.error_descr@) + rest);
            lemma_bounded::<100>(d.error_descr, rest);
        },
        ExchangeMessage::NextScene => {
            lemma_take_byte(5, rest);
        },
        ExchangeMessage::RetriggerScene => {
            lemma_take_byte(6, rest);
        },
        ExchangeMessage::Heartbeat => {
            lemma_take_byte(7, rest);
        },
        ExchangeMessage::HeartbeatAck => {
            lemma_take_byte(8, rest);
        },
    }
}

// ------------------------------------------------------------ writing

fn tag_of_location(l: RelativeLocation) -> (t: u8)
    ensures
        t == location_tag(l),
{
    match l {
        RelativeLocation::Left => 0,
        RelativeLocation::Center => 1,
        RelativeLocation::Right => 2,
    }
}

fn tag_of_service(v: Service) -> (t: u8)
    ensures
        t == service_tag(v),
{
    match v {
        Service::Subtitle => 0,
        Service::Colour => 1,
        Service::AudioPlayer => 2,
        Service::Midi => 3,
    }
}

fn tag_of_ack(a: AckResult) -> (t: u8)
    ensures
        t == ack_tag(a),
{
    match a {
        AckResult::Success => 0,
        AckResult::UpdatedSubscription => 1,
        AckResult::UpdatedLocation => 2,
    }
}

fn tag_of_nack(n: NackResult) -> (t: u8)
    ensures
        t == nack_tag(n),
{
    match n {
        NackResult::AlreadySubscribed => 0,
        NackResult::NotSubscribed => 1,
        NackResult::Failed => 2,
    }
}

fn put_opt_location(l: Option<RelativeLocation>, out: &mut Vec<u8>)
    ensures
        final(out)@ == old(out)@ + enc_opt_location(l),
{
    match l {
        None => {
            out.push(0);
        },
        Some(x) => {
            out.push(1);
            out.push(tag_of_location(x));
        },
    }
    proof {
        assert(out@ =~= old(out)@ + enc_opt_location(l));
    }
}

/// The identifier that sixteen bytes spell.
pub(crate) fn uuid_from_bytes(b: &[u8]) -> (u: Uuid)
    requires
        b@.len() == 16,
    ensures
        u == uuid_of_bytes(b@),
{
    (b[0] as u128) << 120 | (b[1] as u128) << 112 | (b[2] as u128) << 104 | (b[3] as u128) << 96
        | (b[4] as u128) << 88 | (b[5] as u128) << 80 | (b[6] as u128) << 72 | (b[7] as u128)
        << 64 | (b[8] as u128) << 56 | (b[9] as u128) << 48 | (b[10] as u128) << 40 | (
    b[11] as u128) << 32 | (b[12] as u128) << 24 | (b[13] as u128) << 16 | (b[14] as u128) << 8
        | (b[15] as u128)
}

/// The sixteen bytes of an identifier.
pub(crate) fn uuid_to_bytes(u: Uuid) -> (v: Vec<u8>)
    ensures
        v@ == uuid_bytes(u),
{
    let mut out: Vec<u8> = Vec::new();
    put_uuid_bytes(u, &mut out);
    proof {
        assert(out@ =~= uuid_bytes(u));
    }
    out
}

fn put_uuid(u: Uuid, out: &mut Vec<u8>)
    ensures
        final(out)@ == old(out)@ + enc_uuid(u),
{
    out.push(16);
    put_uuid_bytes(u, out);
    proof {
        assert(out@ =~= old(out)@ + enc_uuid(u));
    }
}

fn put_uuid_bytes(u: Uuid, out: &mut Vec<u8>)
    ensures
        final(out)@ == old(out)@ + uuid_bytes(u),
{
    out.push(((u >> 120) & 0xff) as u8);
    out.push(((u >> 112) & 0xff) as u8);
    out.push(((u >> 104) & 0xff) as u8);
    out.push(((u >> 96) & 0xff) as u8);
    out.push(((u >> 88) & 0xff) as u8);
    out.push(((u >> 80) & 0xff) as u8);
    out.push(((u >> 72) & 0xff) as u8);
    out.push(((u >> 64) & 0xff) as u8);
    out.push(((u >> 56) & 0xff) as u8);
    out.push(((u >> 48) & 0xff) as u8);
    out.push(((u >> 40) & 0xff) as u8);
    out.push(((u >> 32) & 0xff) as u8);
    out.push(((u >> 24) & 0xff) as u8);
    out.push(((u >> 16) & 0xff) as u8);
    out.push(((u >> 8) & 0xff) as u8);
    out.push((u & 0xff) as u8);
    proof {
        assert(out@ =~= old(out)@ + uuid_bytes(u));
    }
}

fn put_identity(c: &ClientIdAndLocation, out: &mut Vec<u8>)
    ensures
        final(out)@ == old(out)@ + enc_identity(*c),
{
    put_uuid(c.uuid, out);
    put_opt_location(c.location, out);
    proof {
        assert(out@ =~= old(out)@ + enc_identity(*c));
    }
}

fn put_text<const N: usize>(t: &BoundedString<N>, out: &mut Vec<u8>)
    requires
        N < 256,
    ensures
        final(out)@ == old(out)@ + enc_text(t@),
{
    let n = t.len();
    out.push(n as u8);
    let mut i: usize = 0;
    while i < n
        invariant
            i <= n == t@.len(),
            out@ == old(out)@ + seq![n as u8] + t@.take(i as int),
        decreases n - i,
    {
        out.push(t.byte(i));
        i += 1;
        proof {
            assert(out@ =~= old(out)@ + seq![n as u8] + t@.take(i as int));
        }
    }
    proof {
        assert(t@.take(n as int) =~= t@);
        assert(out@ =~= old(out)@ + enc_text(t@));
    }
}

fn put_preset(p: &PresetIndex, out: &mut Vec<u8>)
    ensures
        final(out)@ == old(out)@ + enc_preset(p.number()),
{
    let n = p.get();
    if n < 128 {
        out.push(n as u8);
    } else if n < 16384 {
        out.push((n % 128 + 128) as u8);
        out.push((n / 128) as u8);
    } else {
        out.push((n % 128 + 128) as u8);
        out.push(((n / 128) % 128 + 128) as u8);
        out.push((n / 16384) as u8);
    }
    proof {
        assert(out@ =~= old(out)@ + enc_preset(p.number()));
    }
}

fn put_action(a: &Action, out: &mut Vec<u8>)
    ensures
        final(out)@ == old(out)@ + enc_action(*a),
{
    match a {
        Action::ShowSubtitles(s) => {
            out.push(0);
            put_text::<50>(&s.subtitles, out);
        },
        Action::ChangeColour(c) => {
            out.push(1);
            out.push(c.r);
            out.push(c.g);
            out.push(c.b);
        },
        Action::PlayAudio(f) => {
            out.push(2);
            put_text::<50>(&f.file_name, out);
            put_text::<4>(&f.file_extension, out);
        },
        Action::MidiProgram(p) => {
            out.push(3);
            put_preset(p, out);
        },
    }
    proof {
        assert(out@ =~= old(out)@ + enc_action(*a));
    }
}

fn put_event(e: &Event, out: &mut Vec<u8>)
    ensures
        final(out)@ == old(out)@ + enc_event(*e),
{
    match e {
        Event::Register(c) => {
            out.push(0);
            put_identity(c, out);
        },
        Event::SubscribeToService(v, c) => {
            out.push(1);
            out.push(tag_of_service(*v));
            put_identity(c, out);
        },
        Event::UnsubscribeFromService(v, c) => {
            out.push(2);
            out.push(tag_of_service(*v));
            put_identity(c, out);
        },
        Event::UpdateLocation(c) => {
            out.push(3);
            put_identity(c, out);
        },
        Event::PerformAction(a) => {
            out.push(4);
            put_action(a, out);
        },
    }
    proof {
        assert(out@ =~= old(out)@ + enc_event(*e));
    }
}

/// Encodes a message.
pub fn encode_binary(m: &ExchangeMessage) -> (v: Vec<u8>)
    ensures
        v@ == binary_encoding(*m),
{
    let mut out: Vec<u8> = Vec::new();
    match m {
        ExchangeMessage::Ack(a) => {
            out.push(0);
            out.push(tag_of_ack(*a));
        },
        ExchangeMessage::Nack(n) => {
            out.push(1);
            out.push(tag_of_nack(*n));
        },
        ExchangeMessage::Request(e) => {
            out.push(2);
            put_event(e, &mut out);
        },
        ExchangeMessage::Scene(e) => {
            out.push(3);
            put_event(e, &mut out);
        },
        ExchangeMessage::Error(d) => {
            out.push(4);
            put_text::<100>(&d.error_descr, &mut out);
        },
        ExchangeMessage::NextScene => {
            out.push(5);
        },
        ExchangeMessage::RetriggerScene => {
            out.push(6);
        },
        ExchangeMessage::Heartbeat => {
            out.push(7);
        },
        ExchangeMessage::HeartbeatAck => {
            out.push(8);
        },
    }
    proof {
        assert(out@ =~= binary_encoding(*m));
    }
    out
}

// ------------------------------------------------------------ reading

fn location_from_tag(t: u8) -> (r: Option<RelativeLocation>)
    ensures
        r == location_of_tag(t),
        r matches Some(v) ==> location_tag(v) == t,
{
    match t {
        0 => Some(RelativeLocation::Left),
        1 => Some(RelativeLocation::Center),
        2 => Some(RelativeLocation::Right),
        _ => None,
    }
}

fn service_from_tag(t: u8) -> (r: Option<Service>)
    ensures
        r == service_of_tag(t),
        r matches Some(v) ==> service_tag(v) == t,
{
    match t {
        0 => Some(Service::Subtitle),
        1 => Some(Service::Colour),
        2 => Some(Service::AudioPlayer),
        3 => Some(Service::Midi),
        _ => None,
    }
}

fn ack_from_tag(t: u8) -> (r: Option<AckResult>)
    ensures
        r == ack_of_tag(t),
        r matches Some(v) ==> ack_tag(v) == t,
{
    match t {
        0 => Some(AckResult::Success),
        1 => Some(AckResult::UpdatedSubscription),
        2 => Some(AckResult::UpdatedLocation),
        _ => None,
    }
}

fn nack_from_tag(t: u8) -> (r: Option<NackResult>)
    ensures
        r == nack_of_tag(t),
        r matches Some(v) ==> nack_tag(v) == t,
{
    match t {
        0 => Some(NackResult::AlreadySubscribed),
        1 => Some(NackResult::NotSubscribed),
        2 => Some(NackResult::Failed),
        _ => None,
    }
}

fn get_location(r: &mut Reader) -> (x: Option<RelativeLocation>)
    ensures
        reads(dec_location(old(r).remaining()), x, final(r).remaining()),
        x matches Some(v) ==> old(r).remaining() == seq![location_tag(v)] + final(r).remaining(),
{
    reveal(dec_location);
    proof {
        lemma_take_byte_joins(r.remaining());
    }
    match r.byte() {
        Some(t) => location_from_tag(t),
        None => None,
    }
}

fn get_service(r: &mut Reader) -> (x: Option<Service>)
    ensures
        reads(dec_service(old(r).remaining()), x, final(r).remaining()),
        x matches Some(v) ==> old(r).remaining() == seq![service_tag(v)] + final(r).remaining(),
{
    reveal(dec_service);
    proof {
        lemma_take_byte_joins(r.remaining());
    }
    match r.byte() {
        Some(t) => service_from_tag(t),
        None => None,
    }
}

fn get_ack(r: &mut Reader) -> (x: Option<AckResult>)
    ensures
        reads(dec_ack(old(r).remaining()), x, final(r).remaining()),
        x matches Some(v) ==> old(r).remaining() == seq![ack_tag(v)] + final(r).remaining(),
{
    reveal(dec_ack);
    proof {
        lemma_take_byte_joins(r.remaining());
    }
    match r.byte() {
        Some(t) => ack_from_tag(t),
        None => None,
    }
}

fn get_nack(r: &mut Reader) -> (x: Option<NackResult>)
    ensures
        reads(dec_nack(old(r).remaining()), x, final(r).remaining()),
        x matches Some(v) ==> old(r).remaining() == seq![nack_tag(v)] + final(r).remaining(),
{
    reveal(dec_nack);
    proof {
        lemma_take_byte_joins(r.remaining());
    }
    match r.byte() {
        Some(t) => nack_from_tag(t),
        None => None,
    }
}

fn get_opt_location(r: &mut Reader) -> (x: Option<Option<RelativeLocation>>)
    ensures
        reads(dec_opt_location(old(r).remaining()), x, final(r).remaining()),
        x matches Some(v) ==> old(r).remaining() == enc_opt_location(v) + final(r).remaining(),
{
    reveal(dec_opt_location);
    let ghost s0 = r.remaining();
    proof {
        lemma_take_byte_joins(s0);
    }
    match r.byte() {
        Some(0) => Some(None),
        Some(1) => {
            match get_location(r) {
                Some(l) => {
                    proof {
                        assert(s0 =~= enc_opt_location(Some(l)) + r.remaining());
                    }
                    Some(Some(l))
                },
                None => None,
            }
        },
        _ => None,
    }
}

fn get_uuid(r: &mut Reader) -> (x: Option<Uuid>)
    ensures
        reads(dec_uuid(old(r).remaining()), x, final(r).remaining()),
        x matches Some(v) ==> old(r).remaining() == enc_uuid(v) + final(r).remaining(),
{
    reveal(dec_uuid);
    let ghost s0 = r.remaining();
    proof {
        lemma_take_byte_joins(s0);
    }
    match r.byte() {
        Some(16) => {
            let ghost s1 = r.remaining();
            proof {
                lemma_take_bytes_joins(s1, 16);
            }
            match r.bytes(16) {
                Some(b) => {
                    let u = uuid_from_bytes(b.as_slice());
                    proof {
                        lemma_uuid_of_16(
                            b[0], b[1], b[2], b[3], b[4], b[5], b[6], b[7],
                            b[8], b[9], b[10], b[11], b[12], b[13], b[14], b[15],
                        );
                        assert(uuid_bytes(u) =~= b@);
                        assert(s0 =~= enc_uuid(u) + r.remaining());
                    }
                    Some(u)
                },
                None => None,
            }
        },
        _ => None,
    }
}

fn get_identity(r: &mut Reader) -> (x: Option<ClientIdAndLocation>)
    ensures
        reads(dec_identity(old(r).remaining()), x, final(r).remaining()),
        x matches Some(v) ==> old(r).remaining() == enc_identity(v) + final(r).remaining(),
{
    reveal(dec_identity);
    let ghost s0 = r.remaining();
    match get_uuid(r) {
        Some(uuid) => match get_opt_location(r) {
            Some(location) => {
                proof {
                    assert(s0 =~= enc_identity(ClientIdAndLocation { uuid, location })
                        + r.remaining());
                }
                Some(ClientIdAndLocation { uuid, location })
            },
            None => None,
        },
        None => None,
    }
}

fn get_bounded<const N: usize>(r: &mut Reader) -> (x: Option<BoundedString<N>>)
    requires
        N < 256,
    ensures
        reads(dec_bounded::<N>(old(r).remaining()), x, final(r).remaining()),
        x matches Some(v) ==> v.wf() && old(r).remaining() == enc_text(v@) + final(r).remaining(),
{
    reveal(dec_bounded);
    reveal(dec_text);
    let ghost s0 = r.remaining();
    proof {
        lemma_take_byte_joins(s0);
    }
    match r.byte() {
        Some(n) => {
            if n as usize > N {
                return None;
            }
            let ghost s1 = r.remaining();
            proof {
                lemma_take_bytes_joins(s1, n as nat);
            }
            match r.bytes(n as usize) {
                Some(b) => match BoundedString::<N>::from_bytes(b.as_slice()) {
                    Some(t) => {
                        proof {
                            assert(s0 =~= enc_text(t@) + r.remaining());
                        }
                        Some(t)
                    },
                    None => None,
                },
                None => None,
            }
        },
        None => None,
    }
}

fn get_preset(r: &mut Reader) -> (x: Option<PresetIndex>)
    ensures
        reads(
            match dec_preset(old(r).remaining()) {
                Some((n, rest)) => Some((PresetIndex::of(n), rest)),
                None => None,
            },
            x,
            final(r).remaining(),
        ),
        x matches Some(v) ==> v.wf() && old(r).remaining() == enc_preset(v.number()) + final(r).remaining(),
{
    reveal(dec_preset);
    let ghost s0 = r.remaining();
    proof {
        lemma_take_byte_joins(s0);
    }
    let b0 = match r.byte() {
        Some(b) => b,
        None => {
            return None;
        },
    };
    if b0 < 128 {
        let p = PresetIndex::new(b0 as u16);
        proof {
            if p is Some {
                assert(s0 =~= enc_preset(b0 as int) + r.remaining());
            }
        }
        return p;
    }
    let ghost s1 = r.remaining();
    proof {
        lemma_take_byte_joins(s1);
    }
    let b1 = match r.byte() {
        Some(b) => b,
        None => {
            return None;
        },
    };
    if b1 < 128 {
        if b1 == 0 {
            return None;
        }
        let n: u16 = (b0 as u16 - 128) + 128 * (b1 as u16);
        let p = PresetIndex::new(n);
        proof {
            assert(s0 =~= enc_preset(n as int) + r.remaining());
        }
        return p;
    }
    let ghost s2 = r.remaining();
    proof {
        lemma_take_byte_joins(s2);
    }
    match r.byte() {
        Some(b2) => {
            if b0 == 128 && b1 == 128 && b2 == 1 {
                let p = PresetIndex::new(16384);
                proof {
                    assert(s0 =~= enc_preset(16384) + r.remaining());
                }
                p
            } else {
                None
            }
        },
        None => None,
    }
}

fn get_colour(r: &mut Reader) -> (x: Option<ColourRgb>)
    ensures
        reads(dec_colour(old(r).remaining()), x, final(r).remaining()),
        x matches Some(v) ==> old(r).remaining() == enc_colour(v) + final(r).remaining(),
{
    reveal(dec_colour);
    let ghost s0 = r.remaining();
    proof {
        lemma_take_bytes_joins(s0, 3);
    }
    match r.bytes(3) {
        Some(b) => {
            let c = ColourRgb { r: b[0], g: b[1], b: b[2] };
            proof {
                assert(enc_colour(c) =~= b@);
            }
            Some(c)
        },
        None => None,
    }
}

fn get_action(r: &mut Reader) -> (x: Option<Action>)
    ensures
        reads(dec_action(old(r).remaining()), x, final(r).remaining()),
        x matches Some(v) ==> v.wf() && old(r).remaining() == enc_action(v) + final(r).remaining(),
{
    reveal(dec_action);
    let ghost s0 = r.remaining();
    proof {
        lemma_take_byte_joins(s0);
    }
    match r.byte() {
        Some(0) => match get_bounded::<50>(r) {
            Some(subtitles) => {
                let a = Action::ShowSubtitles(Subtitles { subtitles });
                proof {
                    assert(s0 =~= enc_action(a) + r.remaining());
                }
                Some(a)
            },
            None => None,
        },
        Some(1) => match get_colour(r) {
            Some(c) => {
                proof {
                    assert(s0 =~= enc_action(Action::ChangeColour(c)) + r.remaining());
                }
                Some(Action::ChangeColour(c))
            },
            None => None,
        },
        Some(2) => match get_bounded::<50>(r) {
            Some(file_name) => match get_bounded::<4>(r) {
                Some(file_extension) => {
                    let a = Action::PlayAudio(AudioFile { file_name, file_extension });
                    proof {
                        assert(s0 =~= enc_action(a) + r.remaining());
                    }
                    Some(a)
                },
                None => None,
            },
            None => None,
        },
        Some(3) => match get_preset(r) {
            Some(p) => {
                proof {
                    assert(s0 =~= enc_action(Action::MidiProgram(p)) + r.remaining());
                }
                Some(Action::MidiProgram(p))
            },
            None => None,
        },
        _ => None,
    }
}

fn get_service_identity(r: &mut Reader) -> (x: Option<(Service, ClientIdAndLocation)>)
    ensures
        reads(dec_service_identity(old(r).remaining()), x, final(r).remaining()),
        x matches Some(v) ==> old(r).remaining() == (seq![service_tag(v.0)] + enc_identity(v.1))
            + final(r).remaining(),
{
    reveal(dec_service_identity);
    let ghost s0 = r.remaining();
    match get_service(r) {
        Some(v) => match get_identity(r) {
            Some(c) => {
                proof {
                    assert(s0 =~= (seq![service_tag(v)] + enc_identity(c)) + r.remaining());
                }
                Some((v, c))
            },
            None => None,
        },
        None => None,
    }
}

fn get_event(r: &mut Reader) -> (x: Option<Event>)
    ensures
        reads(dec_event(old(r).remaining()), x, final(r).remaining()),
        x matches Some(v) ==> v.wf() && old(r).remaining() == enc_event(v) + final(r).remaining(),
{
    reveal(dec_event);
    let ghost s0 = r.remaining();
    proof {
        lemma_take_byte_joins(s0);
    }
    match r.byte() {
        Some(0) => match get_identity(r) {
            Some(c) => {
                proof {
                    assert(s0 =~= enc_event(Event::Register(c)) + r.remaining());
                }
                Some(Event::Register(c))
            },
            None => None,
        },
        Some(1) => match get_service_identity(r) {
            Some((v, c)) => {
                proof {
                    assert(s0 =~= enc_event(Event::SubscribeToService(v, c)) + r.remaining());
                }
                Some(Event::SubscribeToService(v, c))
            },
            None => None,
        },
        Some(2) => match get_service_identity(r) {
            Some((v, c)) => {
                proof {
                    assert(s0 =~= enc_event(Event::UnsubscribeFromService(v, c))
                        + r.remaining());
                }
                Some(Event::UnsubscribeFromService(v, c))
            },
            None => None,
        },
        Some(3) => match get_identity(r) {
            Some(c) => {
                proof {
                    assert(s0 =~= enc_event(Event::UpdateLocation(c)) + r.remaining());
                }
                Some(Event::UpdateLocation(c))
            },
            None => None,
        },
        Some(4) => match get_action(r) {
            Some(a) => {
                proof {
                    assert(s0 =~= enc_event(Event::PerformAction(a)) + r.remaining());
                }
                Some(Event::PerformAction(a))
            },
            None => None,
        },
        _ => None,
    }
}

fn get_message(r: &mut Reader) -> (x: Option<ExchangeMessage>)
    ensures
        reads(dec_message(old(r).remaining()), x, final(r).remaining()),
        x matches Some(v) ==> v.wf() && old(r).remaining() == binary_encoding(v) + final(r).remaining(),
{
    reveal(dec_message);
    let ghost s0 = r.remaining();
    proof {
        lemma_take_byte_joins(s0);
    }
    match r.byte() {
        Some(0) => match get_ack(r) {
            Some(a) => {
                proof {
                    assert(s0 =~= binary_encoding(ExchangeMessage::Ack(a)) + r.remaining());
                }
                Some(ExchangeMessage::Ack(a))
            },
            None => None,
        },
        Some(1) => match get_nack(r) {
            Some(n) => {
                proof {
                    assert(s0 =~= binary_encoding(ExchangeMessage::Nack(n)) + r.remaining());
                }
                Some(ExchangeMessage::Nack(n))
            },
            None => None,
        },
        Some(2) => match get_event(r) {
            Some(e) => {
                proof {
                    assert(s0 =~= binary_encoding(ExchangeMessage::Request(e)) + r.remaining());
                }
                Some(ExchangeMessage::Request(e))
            },
            None => None,
        },
        Some(3) => match get_event(r) {
            Some(e) => {
                proof {
                    assert(s0 =~= binary_encoding(ExchangeMessage::Scene(e)) + r.remaining());
                }
                Some(ExchangeMessage::Scene(e))
            },
            None => None,
        },
        Some(4) => match get_bounded::<100>(r) {
            Some(error_descr) => {
                let m = ExchangeMessage::Error(ErrorDescription { error_descr });
                proof {
                    assert(s0 =~= binary_encoding(m) + r.remaining());
                }
                Some(m)
            },
            None => None,
        },
        Some(5) => Some(ExchangeMessage::NextScene),
        Some(6) => Some(ExchangeMessage::RetriggerScene),
        Some(7) => Some(ExchangeMessage::Heartbeat),
        Some(8) => Some(ExchangeMessage::HeartbeatAck),
        _ => None,
    }
}

/// Decodes a message: `Some` exactly for the bytes that `encode_binary`
/// writes for a valid message, and then that message. Unknown tags, strings
/// over their capacity or not UTF-8, presets out of range, input that ends
/// early and input that goes on after the message are all refused.
pub fn decode_binary(bytes: &[u8]) -> (r: Option<ExchangeMessage>)
    ensures
        r == binary_decoding(bytes@),
        r matches Some(m) ==> m.wf() && binary_encoding(m) == bytes@,
        r is None ==> forall|m: ExchangeMessage| m.wf() ==> binary_encoding(m) != bytes@,
{
    let mut reader = Reader::new(bytes);
    let got = get_message(&mut reader);
    let r = match got {
        Some(m) => if reader.at_end() {
            Some(m)
        } else {
            None
        },
        None => None,
    };
    proof {
        assert forall|m: ExchangeMessage| m.wf() && binary_encoding(m) == bytes@ implies r
            == Some(m) by {
            lemma_message(m, Seq::<u8>::empty());
            assert(binary_encoding(m) + Seq::<u8>::empty() =~= bytes@);
        }
        if let Some(m) = r {
            assert(reader.remaining() =~= Seq::<u8>::empty());
            assert(binary_encoding(m) + Seq::<u8>::empty() =~= binary_encoding(m));
        }
    }
    r
}

// --------------------------------------------------------------- laws

/// Decoding what was encoded gives the message back.
pub proof fn law_binary_round_trip(m: ExchangeMessage)
    requires
        m.wf(),
    ensures
        binary_decoding(binary_encoding(m)) == Some(m),
{
    let b = binary_encoding(m);
    let c = choose|x: ExchangeMessage| x.wf() && binary_encoding(x) == b;
    law_binary_injective(c, m);
}

/// Two valid messages with the same bytes are the same message.
pub proof fn law_binary_injective(a: ExchangeMessage, b: ExchangeMessage)
    requires
        a.wf(),
        b.wf(),
        binary_encoding(a) == binary_encoding(b),
    ensures
        a == b,
{
    lemma_message(a, Seq::<u8>::empty());
    lemma_message(b, Seq::<u8>::empty());
}

/// No valid message is the beginning of another: a stream of encodings can
/// be cut in one way only.
pub proof fn law_binary_prefix_free(a: ExchangeMessage, b: ExchangeMessage, tail: Seq<u8>)
    requires
        a.wf(),
        b.wf(),
        binary_encoding(a) + tail == binary_encoding(b),
    ensures
        a == b,
        tail.len() == 0,
{
    lemma_message(a, tail);
    lemma_message(b, Seq::<u8>::empty());
    assert(binary_encoding(b) + Seq::<u8>::empty() =~= binary_encoding(b));
}

/// Every valid message takes at most 102 bytes, so it fits the 125 bytes
/// that a short frame can carry.
pub proof fn law_binary_size(m: ExchangeMessage)
    requires
        m.wf(),
    ensures
        1 <= binary_encoding(m).len() <= 102,
{
    match m {
        ExchangeMessage::Request(e) => lemma_event_size(e),
        ExchangeMessage::Scene(e) => lemma_event_size(e),
        ExchangeMessage::Error(d) => d.error_descr.lemma_wf_fits(),
        _ => {},
    }
}

proof fn lemma_event_size(e: Event)
    requires
        e.wf(),
    ensures
        enc_event(e).len() <= 60,
{
    match e {
        Event::PerformAction(a) => match a {
            Action::ShowSubtitles(s) => s.subtitles.lemma_wf_fits(),
            Action::PlayAudio(f) => {
                f.file_name.lemma_wf_fits();
                f.file_extension.lemma_wf_fits();
            },
            _ => {},
        },
        _ => {},
    }
}

} // verus!
