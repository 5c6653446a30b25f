//! The client side of a WebSocket, as much of it as an embedded client
//! needs: the opening handshake, and single binary frames of at most 125
//! bytes out and 65535 bytes in.
//!
//! Nothing here touches a socket. The handshake is a request to write and a
//! check of what came back; a frame out is bytes to write; a frame in is
//! read in pieces, each of the size the reader asks for.

use vstd::prelude::*;
use base64ct::Encoding;
use sha1::Digest;
use crate::binary::{binary_encoding, encode_binary, law_binary_size};
use crate::exchange_messages::ExchangeMessage;
use crate::json_tokens::put_str;
use crate::reader::ascii;

verus! {

/// Longest payload of a frame that this client writes.
pub const MAX_SEND_PAYLOAD: usize = 125;

/// Why the WebSocket layer gave up.
#[derive(Clone, Copy, Debug, PartialEq, Eq, Structural)]
pub enum WsError {
    /// The connection could not be made.
    Connect,
    /// The connection failed.
    Tcp,
    /// The server did not accept the upgrade.
    HandshakeFailed,
    /// A frame that this client does not support, or a read that came short.
    InvalidResponse,
    /// A payload longer than the frame or the buffer can hold.
    FrameTooLarge,
    /// Text that is not UTF-8.
    Utf8,
}

// ----------------------------------------------------------- handshake

/// The SHA-1 digest of a byte string.
pub uninterp spec fn sha1_digest(data: Seq<u8>) -> Seq<u8>;

/// The Base64 text of a byte string, in the standard alphabet with padding.
pub uninterp spec fn base64_text(data: Seq<u8>) -> Seq<u8>;

/// Computes a digest with `sha1::Sha1::digest`: the result is the SHA-1
/// digest of the input, which is twenty bytes long.
#[verifier::external_body]
fn sha1(data: &[u8]) -> (r: Vec<u8>)
    ensures
        r@ == sha1_digest(data@),
        r@.len() == 20,
{
    sha1::Sha1::digest(data).to_vec()
}

/// Encodes bytes with `base64ct::Base64::encode_string`, which panics on
/// inputs longer than a quarter of the address space: the result is the
/// Base64 text of the input.
#[verifier::external_body]
fn base64(data: &[u8]) -> (r: Vec<u8>)
    requires
        data@.len() <= usize::MAX / 4,
    ensures
        r@ == base64_text(data@),
{
    base64ct::Base64::encode_string(data).into_bytes()
}

/// The key that a client sends with its upgrade request: sixteen random
/// bytes in Base64.
pub open spec fn key_of(random: Seq<u8>) -> Seq<u8> {
    base64_text(random)
}

/// The answer that a server owes to a key: the Base64 text of the SHA-1
/// digest of the key followed by the protocol's fixed identifier.
pub open spec fn accept_of(key: Seq<u8>) -> Seq<u8> {
    base64_text(sha1_digest(key + ascii("258EAFA5-E914-47DA-95CA-C5AB0DC85B11"@)))
}

/// The upgrade request for a key.
pub open spec fn request_of(key: Seq<u8>) -> Seq<u8> {
    ascii(
        "GET / HTTP/1.1\r\nHost: localhost\r\nUpgrade: websocket\r\nConnection: Upgrade\r\nSec-WebSocket-Version: 13\r\nSec-WebSocket-Key: "@,
    ) + key + ascii("\r\n\r\n"@)
}

/// The key for sixteen random bytes.
pub fn sec_websocket_key(random: &[u8; 16]) -> (key: Vec<u8>)
    ensures
        key@ == key_of(random@),
{
    base64(random.as_slice())
}

/// The upgrade request to write for a key.
pub fn upgrade_request(key: &[u8]) -> (request: Vec<u8>)
    ensures
        request@ == request_of(key@),
{
    let mut out: Vec<u8> = Vec::new();
    proof {
        reveal_strlit(
            "GET / HTTP/1.1\r\nHost: localhost\r\nUpgrade: websocket\r\nConnection: Upgrade\r\nSec-WebSocket-Version: 13\r\nSec-WebSocket-Key: ",
        );
        reveal_strlit("\r\n\r\n");
    }
    put_str(
        &mut out,
        "GET / HTTP/1.1\r\nHost: localhost\r\nUpgrade: websocket\r\nConnection: Upgrade\r\nSec-WebSocket-Version: 13\r\nSec-WebSocket-Key: ",
    );
    let mut i: usize = 0;
    let ghost head = out@;
    while i < key.len()
        invariant
            i <= key@.len(),
            out@ == head + key@.take(i as int),
        decreases key.len() - i,
    {
        out.push(key[i]);
        i += 1;
        proof {
            assert(out@ =~= head + key@.take(i as int));
        }
    }
    proof {
        assert(key@.take(i as int) =~= key@);
    }
    put_str(&mut out, "\r\n\r\n");
    out
}

/// The answer that the server owes to a key.
pub fn expected_accept(key: &[u8]) -> (accept: Vec<u8>)
    ensures
        accept@ == accept_of(key@),
{
    let mut input: Vec<u8> = Vec::new();
    let mut i: usize = 0;
    while i < key.len()
        invariant
            i <= key@.len(),
            input@ == key@.take(i as int),
        decreases key.len() - i,
    {
        input.push(key[i]);
        i += 1;
        proof {
            assert(input@ =~= key@.take(i as int));
        }
    }
    proof {
        assert(key@.take(i as int) =~= key@);
        reveal_strlit("258EAFA5-E914-47DA-95CA-C5AB0DC85B11");
    }
    put_str(&mut input, "258EAFA5-E914-47DA-95CA-C5AB0DC85B11");
    let digest = sha1(input.as_slice());
    base64(digest.as_slice())
}

/// The lower-case form of an ASCII letter, and any other byte as it is.
pub open spec fn lower(b: u8) -> u8 {
    if 65 <= b <= 90 {
        (b + 32) as u8
    } else {
        b
    }
}

/// Space and tab.
pub open spec fn is_blank(b: u8) -> bool {
    b == 32 || b == 9
}

/// The status line of an accepted upgrade.
pub open spec fn status_line() -> Seq<u8> {
    ascii("HTTP/1.1 101 Switching Protocols\r\n"@)
}

/// The name of the header that carries the server's answer, in lower case,
/// with its colon.
pub open spec fn accept_name() -> Seq<u8> {
    ascii("sec-websocket-accept:"@)
}

/// Whether the bytes at a position spell the given lower-case text, in
/// either case.
pub open spec fn spells_at(r: Seq<u8>, p: int, name: Seq<u8>) -> bool {
    p + name.len() <= r.len() && forall|k: int|
        0 <= k < name.len() ==> lower(#[trigger] r[p + k]) == name[k]
}

/// Whether the value at a position is the given one and ends its line.
pub open spec fn value_at(r: Seq<u8>, q: int, value: Seq<u8>) -> bool {
    &&& q + value.len() + 2 <= r.len()
    &&& r.subrange(q, q + value.len()) == value
    &&& r[q + value.len()] == 13
    &&& r[q + value.len() + 1] == 10
}

/// Whether a header line begins at `p` that names the server's answer, in
/// any case, and gives it as `accept`, after any spaces and tabs, where the
/// value begins at `q`.
pub open spec fn accept_header_at(r: Seq<u8>, p: int, q: int, accept: Seq<u8>) -> bool {
    &&& 2 <= p
    &&& r[p - 2] == 13
    &&& r[p - 1] == 10
    &&& spells_at(r, p, accept_name())
    &&& p + accept_name().len() <= q
    &&& forall|k: int| p + accept_name().len() <= k < q ==> is_blank(#[trigger] r[k])
    &&& value_at(r, q, accept)
}

/// Whether a response accepts the upgrade with the given answer: it begins
/// with the status line `HTTP/1.1 101 Switching Protocols`, and one of its
/// header lines is `Sec-WebSocket-Accept` with that answer.
pub open spec fn response_accepts(r: Seq<u8>, accept: Seq<u8>) -> bool {
    &&& status_line().is_prefix_of(r)
    &&& accept.len() > 0
    &&& !is_blank(accept[0])
    &&& exists|p: int, q: int| accept_header_at(r, p, q, accept)
}

fn to_lower(b: u8) -> (l: u8)
    ensures
        l == lower(b),
{
    if 65 <= b && b <= 90 {
        b + 32
    } else {
        b
    }
}

fn spells(r: &[u8], p: usize, name: &[u8]) -> (b: bool)
    ensures
        b == spells_at(r@, p as int, name@),
{
    if p > r.len() || r.len() - p < name.len() {
        return false;
    }
    let mut k: usize = 0;
    while k < name.len()
        invariant
            k <= name@.len(),
            p + name@.len() <= r@.len() <= usize::MAX,
            forall|j: int| 0 <= j < k ==> lower(#[trigger] r@[p + j]) == name@[j],
        decreases name.len() - k,
    {
        if to_lower(r[p + k]) != name[k] {
            proof {
                assert(lower(r@[p + k]) != name@[k as int]);
            }
            return false;
        }
        k += 1;
    }
    true
}

fn has_value(r: &[u8], q: usize, value: &[u8]) -> (b: bool)
    ensures
        b == value_at(r@, q as int, value@),
{
    if q > r.len() || r.len() - q < value.len() || r.len() - q - value.len() < 2 {
        return false;
    }
    let mut k: usize = 0;
    while k < value.len()
        invariant
            k <= value@.len(),
            q + value@.len() + 2 <= r@.len() <= usize::MAX,
            r@.subrange(q as int, q + k) == value@.take(k as int),
        decreases value.len() - k,
    {
        if r[q + k] != value[k] {
            proof {
                if r@.subrange(q as int, q + value@.len()) == value@ {
                    let ki = k as int;
                    assert(r@.subrange(q as int, q + value@.len())[ki] == value@[ki]);
                }
            }
            return false;
        }
        k += 1;
        proof {
            assert(r@.subrange(q as int, q + k) =~= r@.subrange(q as int, q + k - 1).push(
                r@[q + k - 1],
            ));
            assert(value@.take(k as int) =~= value@.take(k - 1).push(value@[k - 1]));
        }
    }
    proof {
        assert(value@.take(k as int) =~= value@);
    }
    r[q + value.len()] == 13 && r[q + value.len() + 1] == 10
}

fn header_at(r: &[u8], p: usize, accept: &[u8]) -> (b: bool)
    requires
        accept@.len() > 0,
        !is_blank(accept@[0]),
    ensures
        b == exists|q: int| accept_header_at(r@, p as int, q, accept@),
{
    proof {
        reveal_strlit("sec-websocket-accept:");
        vstd::utf8::is_ascii_chars_encode_utf8("sec-websocket-accept:"@);
    }
    let name = "sec-websocket-accept:".as_bytes();
    proof {
        assert(name@ =~= accept_name());
    }
    if p < 2 || p > r.len() {
        return false;
    }
    if r[p - 2] != 13 || r[p - 1] != 10 {
        return false;
    }
    if !spells(r, p, name) {
        return false;
    }
    let start = p + name.len();
    let mut q: usize = start;
    while q < r.len() && (r[q] == 32 || r[q] == 9)
        invariant
            start <= q <= r@.len(),
            forall|k: int| start <= k < q ==> is_blank(#[trigger] r@[k]),
        decreases r.len() - q,
    {
        q += 1;
    }
    let found = has_value(r, q, accept);
    proof {
        if found {
            assert(accept_header_at(r@, p as int, q as int, accept@));
        } else {
            assert forall|x: int| !accept_header_at(r@, p as int, x, accept@) by {
                if accept_header_at(r@, p as int, x, accept@) {
                    assert(r@.subrange(x, x + accept@.len())[0] == accept@[0]);
                    if x < q {
                        assert(is_blank(r@[x]));
                    } else if x > q {
                        assert(is_blank(r@[q as int]));
                    }
                }
            }
        }
    }
    found
}

/// Checks a response to the upgrade request against the answer that the
/// server owes.
pub fn check_handshake_response(response: &[u8], accept: &[u8]) -> (r: Result<(), WsError>)
    ensures
        r is Ok <==> response_accepts(response@, accept@),
        r is Err ==> r == Err::<(), WsError>(WsError::HandshakeFailed),
{
    proof {
        reveal_strlit("HTTP/1.1 101 Switching Protocols\r\n");
        vstd::utf8::is_ascii_chars_encode_utf8("HTTP/1.1 101 Switching Protocols\r\n"@);
    }
    let status = "HTTP/1.1 101 Switching Protocols\r\n".as_bytes();
    proof {
        assert(status@ =~= status_line());
    }
    if accept.len() == 0 || accept[0] == 32 || accept[0] == 9 {
        return Err(WsError::HandshakeFailed);
    }
    if !begins_with(response, status) {
        return Err(WsError::HandshakeFailed);
    }
    let mut p: usize = 0;
    while p < response.len()
        invariant
            p <= response@.len(),
            accept@.len() > 0,
            !is_blank(accept@[0]),
            status_line().is_prefix_of(response@),
            forall|x: int, q: int| 0 <= x < p ==> !accept_header_at(response@, x, q, accept@),
        decreases response.len() - p,
    {
        if header_at(response, p, accept) {
            return Ok(());
        }
        p += 1;
    }
    proof {
        assert forall|x: int, q: int| !accept_header_at(response@, x, q, accept@) by {
            if accept_header_at(response@, x, q, accept@) {
                assert(x + accept_name().len() <= response@.len());
            }
        }
    }
    Err(WsError::HandshakeFailed)
}

fn begins_with(r: &[u8], lit: &[u8]) -> (b: bool)
    ensures
        b == lit@.is_prefix_of(r@),
{
    if r.len() < lit.len() {
        return false;
    }
    let mut k: usize = 0;
    while k < lit.len()
        invariant
            k <= lit@.len() <= r@.len(),
            r@.subrange(0, k as int) == lit@.take(k as int),
        decreases lit.len() - k,
    {
        if r[k] != lit[k] {
            proof {
                if lit@.is_prefix_of(r@) {
                    assert(r@.subrange(0, lit@.len() as int)[k as int] == lit@[k as int]);
                }
            }
            return false;
        }
        k += 1;
        proof {
            assert(r@.subrange(0, k as int) =~= r@.subrange(0, k - 1).push(r@[k - 1]));
            assert(lit@.take(k as int) =~= lit@.take(k - 1).push(lit@[k - 1]));
        }
    }
    proof {
        assert(lit@.take(k as int) =~= lit@);
    }
    true
}

/// Checks a response against the key that was sent: the server must accept
/// the upgrade with the answer it owes to that key.
pub fn validate_handshake(response: &[u8], key: &[u8]) -> (r: Result<(), WsError>)
    ensures
        r is Ok <==> response_accepts(response@, accept_of(key@)),
        r is Err ==> r == Err::<(), WsError>(WsError::HandshakeFailed),
{
    let accept = expected_accept(key);
    check_handshake_response(response, accept.as_slice())
}

// ----------------------------------------------------------- frames out

/// A payload with a mask laid over it: each byte combined with the mask
/// byte of its position, the four mask bytes taken round and round.
pub open spec fn masked(payload: Seq<u8>, mask: Seq<u8>) -> Seq<u8> {
    Seq::new(payload.len(), |i: int| payload[i] ^ mask[i % 4])
}

/// The frame that a client writes for a payload of at most 125 bytes: one
/// final binary frame, masked.
pub open spec fn client_frame(payload: Seq<u8>, mask: Seq<u8>) -> Seq<u8> {
    seq![0x82u8, 0x80u8 | (payload.len() as u8)] + mask + masked(payload, mask)
}

/// Laying the same mask over a payload twice gives the payload back.
pub proof fn law_mask_twice(payload: Seq<u8>, mask: Seq<u8>)
    requires
        mask.len() == 4,
    ensures
        masked(masked(payload, mask), mask) == payload,
{
    assert forall|i: int| 0 <= i < payload.len() implies masked(masked(payload, mask), mask)[i]
        == payload[i] by {
        let a = payload[i];
        let b = mask[i % 4];
        assert((a ^ b) ^ b == a) by (bit_vector);
    }
    assert(masked(masked(payload, mask), mask) =~= payload);
}

fn lay_mask(payload: &[u8], mask: &[u8; 4], out: &mut Vec<u8>)
    ensures
        final(out)@ == old(out)@ + masked(payload@, mask@),
{
    let mut i: usize = 0;
    while i < payload.len()
        invariant
            i <= payload@.len(),
            out@ == old(out)@ + masked(payload@, mask@).take(i as int),
        decreases payload.len() - i,
    {
        out.push(payload[i] ^ mask[i % 4]);
        i += 1;
        proof {
            assert(out@ =~= old(out)@ + masked(payload@, mask@).take(i as int));
        }
    }
    proof {
        assert(masked(payload@, mask@).take(i as int) =~= masked(payload@, mask@));
    }
}

/// The frame to write for a payload: refused where the payload is longer
/// than 125 bytes.
pub fn send_bytes(payload: &[u8], mask: &[u8; 4]) -> (r: Result<Vec<u8>, WsError>)
    ensures
        payload@.len() > 125 <==> r is Err,
        r is Err ==> r == Err::<Vec<u8>, WsError>(WsError::FrameTooLarge),
        r matches Ok(frame) ==> frame@ == client_frame(payload@, mask@),
{
    if payload.len() > MAX_SEND_PAYLOAD {
        return Err(WsError::FrameTooLarge);
    }
    let mut out: Vec<u8> = Vec::new();
    out.push(0x82);
    out.push(0x80u8 | (payload.len() as u8));
    out.push(mask[0]);
    out.push(mask[1]);
    out.push(mask[2]);
    out.push(mask[3]);
    proof {
        assert(out@ =~= seq![0x82u8, 0x80u8 | (payload@.len() as u8)] + mask@);
    }
    lay_mask(payload, mask, &mut out);
    Ok(out)
}

/// The frame to write for a message. Every valid message fits a frame.
pub fn send_message_to_lamarrs_server_and_process_response(
    lamarrs_message: &ExchangeMessage,
    mask: &[u8; 4],
) -> (frame: Vec<u8>)
    ensures
        frame@ == client_frame(binary_encoding(*lamarrs_message), mask@),
{
    lamarrs_message.valid();
    proof {
        law_binary_size(*lamarrs_message);
    }
    let payload = encode_binary(lamarrs_message);
    match send_bytes(payload.as_slice(), mask) {
        Ok(frame) => frame,
        Err(_) => Vec::new(),
    }
}

// ------------------------------------------------------------ frames in

/// What a frame reader waits for.
#[derive(Clone, Copy, Debug, PartialEq, Eq)]
pub enum ReadStage {
    /// The two bytes that every frame begins with.
    Header,
    /// The two bytes of a length above 125.
    Length { masked: bool },
    /// The four bytes of the mask.
    Mask { length: usize },
    /// The payload.
    Payload { length: usize, mask: Option<[u8; 4]> },
}

/// How many bytes the reader is to be fed next.
pub open spec fn wanted(stage: ReadStage) -> int {
    match stage {
        ReadStage::Header => 2,
        ReadStage::Length { .. } => 2,
        ReadStage::Mask { .. } => 4,
        ReadStage::Payload { length, .. } => length as int,
    }
}

/// What feeding a reader comes to: the stage it goes on to, and the payload
/// if the frame is complete.
pub type Fed = Result<(ReadStage, Option<Seq<u8>>), WsError>;

/// The step after the mask, or after the length of a frame without one: the
/// payload must fit the buffer, and an empty one completes the frame.
pub open spec fn after_mask(length: usize, mask: Option<[u8; 4]>, capacity: usize) -> Fed {
    if length > capacity {
        Err(WsError::FrameTooLarge)
    } else if length == 0 {
        Ok((ReadStage::Header, Some(Seq::empty())))
    } else {
        Ok((ReadStage::Payload { length, mask }, None))
    }
}

/// The step after the length.
pub open spec fn after_length(masked: bool, length: usize, capacity: usize) -> Fed {
    if masked {
        Ok((ReadStage::Mask { length }, None))
    } else {
        after_mask(length, None, capacity)
    }
}

/// What feeding a reader comes to. Only final binary frames are read; a
/// length of eight bytes is refused, one of two bytes is read most
/// significant byte first; a payload with a mask has it taken off.
pub open spec fn fed(stage: ReadStage, capacity: usize, bytes: Seq<u8>) -> Fed {
    if bytes.len() != wanted(stage) {
        Err(WsError::InvalidResponse)
    } else {
        match stage {
            ReadStage::Header => {
                if !(bytes[0] & 0x0f == 0x02 && bytes[0] & 0x80 != 0) {
                    Err(WsError::InvalidResponse)
                } else if bytes[1] & 0x7f == 127 {
                    Err(WsError::FrameTooLarge)
                } else if bytes[1] & 0x7f == 126 {
                    Ok((ReadStage::Length { masked: bytes[1] & 0x80 != 0 }, None))
                } else {
                    after_length(bytes[1] & 0x80 != 0, (bytes[1] & 0x7f) as usize, capacity)
                }
            },
            ReadStage::Length { masked } => after_length(
                masked,
                (bytes[0] as usize * 256 + bytes[1] as usize) as usize,
                capacity,
            ),
            ReadStage::Mask { length } => after_mask(
                length,
                Some(mask_of(bytes)),
                capacity,
            ),
            ReadStage::Payload { length, mask } => Ok(
                (
                    ReadStage::Header,
                    Some(
                        match mask {
                            Some(m) => masked(bytes, m@),
                            None => bytes,
                        },
                    ),
                ),
            ),
        }
    }
}

/// Four bytes as a mask.
pub closed spec fn mask_of(bytes: Seq<u8>) -> [u8; 4] {
    choose|m: [u8; 4]| m@ == bytes
}

proof fn lemma_mask_of(m: [u8; 4])
    ensures
        mask_of(m@) == m,
{
    let c = mask_of(m@);
    assert(c@ == m@);
    assert(c =~= m);
}

/// Reads frames, one piece at a time.
pub struct FrameReader {
    stage: ReadStage,
    capacity: usize,
}

impl View for FrameReader {
    type V = ReadStage;

    closed spec fn view(&self) -> ReadStage {
        self.stage
    }
}

impl FrameReader {
    /// The longest payload the reader takes.
    pub closed spec fn capacity(&self) -> usize {
        self.capacity
    }

    /// A reader for payloads of at most `capacity` bytes, waiting for a
    /// frame.
    pub fn new(capacity: usize) -> (r: Self)
        ensures
            r@ == ReadStage::Header,
            r.capacity() == capacity,
    {
        FrameReader { stage: ReadStage::Header, capacity }
    }

    /// What the reader waits for.
    pub fn stage(&self) -> (s: ReadStage)
        ensures
            s == self@,
    {
        self.stage
    }

    /// How many bytes to read from the socket and feed next.
    pub fn wants(&self) -> (n: usize)
        ensures
            n == wanted(self@),
    {
        match self.stage {
            ReadStage::Header => 2,
            ReadStage::Length { .. } => 2,
            ReadStage::Mask { .. } => 4,
            ReadStage::Payload { length, .. } => length,
        }
    }

    /// Takes the bytes that were read. `Ok(Some(..))` is the payload of a
    /// complete frame, `Ok(None)` asks for more; after an error the reader
    /// waits for a frame again.
    pub fn recv_message(&mut self, bytes: &[u8]) -> (r: Result<Option<Vec<u8>>, WsError>)
        ensures
            final(self).capacity() == old(self).capacity(),
            match fed(old(self)@, old(self).capacity(), bytes@) {
                Ok((stage, payload)) => final(self)@ == stage && match payload {
                    Some(p) => r matches Ok(Some(v)) && v@ == p,
                    None => r == Ok::<Option<Vec<u8>>, WsError>(None),
                },
                Err(e) => final(self)@ == ReadStage::Header && r == Err::<
                    Option<Vec<u8>>,
                    WsError,
                >(e),
            },
    {
        let stage = self.stage;
        self.stage = ReadStage::Header;
        if bytes.len() != wants_of(stage) {
            return Err(WsError::InvalidResponse);
        }
        match stage {
            ReadStage::Header => {
                let fin = bytes[0] & 0x80 != 0;
                let opcode = bytes[0] & 0x0f;
                if !(opcode == 0x02 && fin) {
                    return Err(WsError::InvalidResponse);
                }
                let is_masked = bytes[1] & 0x80 != 0;
                let len7 = bytes[1] & 0x7f;
                if len7 == 127 {
                    Err(WsError::FrameTooLarge)
                } else if len7 == 126 {
                    self.stage = ReadStage::Length { masked: is_masked };
                    Ok(None)
                } else {
                    self.length_known(is_masked, len7 as usize)
                }
            },
            ReadStage::Length { masked } => {
                let length = bytes[0] as usize * 256 + bytes[1] as usize;
                self.length_known(masked, length)
            },
            ReadStage::Mask { length } => {
                let mask = [bytes[0], bytes[1], bytes[2], bytes[3]];
                proof {
                    assert(mask@ =~= bytes@);
                    lemma_mask_of(mask);
                }
                self.mask_known(length, Some(mask))
            },
            ReadStage::Payload { length, mask } => {
                let mut payload: Vec<u8> = Vec::new();
                match mask {
                    Some(m) => {
                        lay_mask(bytes, &m, &mut payload);
                        proof {
                            assert(payload@ =~= masked(bytes@, m@));
                        }
                    },
                    None => {
                        let mut i: usize = 0;
                        while i < bytes.len()
                            invariant
                                i <= bytes@.len(),
                                payload@ == bytes@.take(i as int),
                            decreases bytes.len() - i,
                        {
                            payload.push(bytes[i]);
                            i += 1;
                            proof {
                                assert(payload@ =~= bytes@.take(i as int));
                            }
                        }
                        proof {
                            assert(bytes@.take(i as int) =~= bytes@);
                        }
                    },
                }
                Ok(Some(payload))
            },
        }
    }

    fn length_known(&mut self, is_masked: bool, length: usize) -> (r: Result<
        Option<Vec<u8>>,
        WsError,
    >)
        requires
            old(self)@ == ReadStage::Header,
        ensures
            final(self).capacity() == old(self).capacity(),
            match after_length(is_masked, length, old(self).capacity()) {
                Ok((stage, payload)) => final(self)@ == stage && match payload {
                    Some(p) => r matches Ok(Some(v)) && v@ == p,
                    None => r == Ok::<Option<Vec<u8>>, WsError>(None),
                },
                Err(e) => final(self)@ == ReadStage::Header && r == Err::<
                    Option<Vec<u8>>,
                    WsError,
                >(e),
            },
    {
        if is_masked {
            self.stage = ReadStage::Mask { length };
            Ok(None)
        } else {
            self.mask_known(length, None)
        }
    }

    fn mask_known(&mut self, length: usize, mask: Option<[u8; 4]>) -> (r: Result<
        Option<Vec<u8>>,
        WsError,
    >)
        requires
            old(self)@ == ReadStage::Header,
        ensures
            final(self).capacity() == old(self).capacity(),
            match after_mask(length, mask, old(self).capacity()) {
                Ok((stage, payload)) => final(self)@ == stage && match payload {
                    Some(p) => r matches Ok(Some(v)) && v@ == p,
                    None => r == Ok::<Option<Vec<u8>>, WsError>(None),
                },
                Err(e) => final(self)@ == ReadStage::Header && r == Err::<
                    Option<Vec<u8>>,
                    WsError,
                >(e),
            },
    {
        if length > self.capacity {
            Err(WsError::FrameTooLarge)
        } else if length == 0 {
            Ok(Some(Vec::new()))
        } else {
            self.stage = ReadStage::Payload { length, mask };
            Ok(None)
        }
    }
}

fn wants_of(stage: ReadStage) -> (n: usize)
    ensures
        n == wanted(stage),
{
    match stage {
        ReadStage::Header => 2,
        ReadStage::Length { .. } => 2,
        ReadStage::Mask { .. } => 4,
        ReadStage::Payload { length, .. } => length,
    }
}

/// A frame that a client wrote is read back piece by piece: the header asks
/// for the mask, the mask for the payload, and the payload comes out as it
/// went in.
pub proof fn law_frame_round_trip(payload: Seq<u8>, mask: [u8; 4], capacity: usize)
    requires
        1 <= payload.len() <= 125,
        payload.len() <= capacity,
    ensures
        ({
            let frame = client_frame(payload, mask@);
            let n = payload.len() as usize;
            &&& frame.len() == 6 + payload.len()
            &&& fed(ReadStage::Header, capacity, frame.subrange(0, 2)) == Ok::<
                (ReadStage, Option<Seq<u8>>),
                WsError,
            >((ReadStage::Mask { length: n }, None))
            &&& fed(ReadStage::Mask { length: n }, capacity, frame.subrange(2, 6)) == Ok::<
                (ReadStage, Option<Seq<u8>>),
                WsError,
            >((ReadStage::Payload { length: n, mask: Some(mask) }, None))
            &&& fed(
                ReadStage::Payload { length: n, mask: Some(mask) },
                capacity,
                frame.subrange(6, frame.len() as int),
            ) == Ok::<(ReadStage, Option<Seq<u8>>), WsError>((ReadStage::Header, Some(payload)))
        }),
{
    let frame = client_frame(payload, mask@);
    let n = payload.len() as u8;
    let b1 = 0x80u8 | n;
    assert(frame[0] == 0x82 && frame[1] == b1);
    assert(0x82u8 & 0x0f == 0x02 && 0x82u8 & 0x80 != 0) by (bit_vector);
    assert(b1 & 0x7f == n && b1 & 0x80 != 0) by (bit_vector)
        requires
            b1 == 0x80u8 | n,
            n <= 125,
    ;
    assert(frame.subrange(2, 6) =~= mask@);
    lemma_mask_of(mask);
    assert(frame.subrange(6, frame.len() as int) =~= masked(payload, mask@));
    law_mask_twice(payload, mask@);
}

/// The frame that a client wrote for an empty payload is read back in two
/// pieces: the header asks for the mask, and the mask completes the frame.
pub proof fn law_empty_frame_round_trip(mask: [u8; 4], capacity: usize)
    ensures
        ({
            let frame = client_frame(Seq::<u8>::empty(), mask@);
            &&& frame.len() == 6
            &&& fed(ReadStage::Header, capacity, frame.subrange(0, 2)) == Ok::<
                (ReadStage, Option<Seq<u8>>),
                WsError,
            >((ReadStage::Mask { length: 0 }, None))
            &&& fed(ReadStage::Mask { length: 0 }, capacity, frame.subrange(2, 6)) == Ok::<
                (ReadStage, Option<Seq<u8>>),
                WsError,
            >((ReadStage::Header, Some(Seq::<u8>::empty())))
        }),
{
    let frame = client_frame(Seq::<u8>::empty(), mask@);
    assert(frame[0] == 0x82 && frame[1] == 0x80u8 | 0u8);
    assert(0x82u8 & 0x0f == 0x02 && 0x82u8 & 0x80 != 0) by (bit_vector);
    assert((0x80u8 | 0u8) & 0x7f == 0 && (0x80u8 | 0u8) & 0x80 != 0) by (bit_vector);
    assert(frame.subrange(2, 6) =~= mask@);
}

} // verus!
