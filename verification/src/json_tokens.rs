//! The tokens of the text encoding: names, strings, numbers, identifiers.
//!
//! The text encoding is JSON in one fixed form: no white space, names and
//! fields in a fixed order, numbers in decimal without leading zeros, and
//! strings with the fewest escapes.

use vstd::prelude::*;
use vstd::utf8::{
    is_ascii_chars, is_ascii_chars_encode_utf8, length_of_first_scalar, partial_valid_utf8,
    partial_valid_utf8_extend_ascii_block, pop_first_scalar, valid_first_scalar, valid_utf8,
    valid_utf8_concat,
};
use crate::binary::{
    lemma_uuid_bytes, lemma_uuid_of_bytes, uuid_bytes, uuid_from_bytes, uuid_of_bytes,
    uuid_to_bytes,
};
use crate::identity::Uuid;
use crate::text::{fits, BoundedString};
use crate::reader::{
    ascii, lemma_take_byte, lemma_take_byte_joins, lemma_take_bytes, lemma_take_bytes_joins,
    reads, take_byte, take_bytes, Parsed, Reader,
};

verus! {

/// An executable decoder of bytes did what the grammar says.
pub open spec fn reads_bytes(grammar: Parsed<Seq<u8>>, got: Option<Vec<u8>>, after: Seq<u8>)
    -> bool {
    match grammar {
        Some((v, rest)) => got matches Some(g) && g@ == v && after == rest,
        None => got is None,
    }
}

// ---------------------------------------------------------- plain text

/// Writes an ASCII text.
pub(crate) fn put_str(out: &mut Vec<u8>, lit: &str)
    requires
        is_ascii_chars(lit@),
    ensures
        final(out)@ == old(out)@ + ascii(lit@),
{
    let bytes = lit.as_bytes();
    proof {
        is_ascii_chars_encode_utf8(lit@);
        assert(bytes@ =~= ascii(lit@));
    }
    let mut i: usize = 0;
    while i < bytes.len()
        invariant
            i <= bytes@.len(),
            out@ == old(out)@ + bytes@.take(i as int),
        decreases bytes.len() - i,
    {
        out.push(bytes[i]);
        i += 1;
        proof {
            assert(out@ =~= old(out)@ + bytes@.take(i as int));
        }
    }
    proof {
        assert(bytes@.take(i as int) =~= bytes@);
    }
}

/// Whether bytes spell an ASCII text.
pub(crate) fn is_text(a: &[u8], lit: &str) -> (r: bool)
    requires
        is_ascii_chars(lit@),
    ensures
        r == (a@ == ascii(lit@)),
{
    let b = lit.as_bytes();
    proof {
        is_ascii_chars_encode_utf8(lit@);
        assert(b@ =~= ascii(lit@));
    }
    if a.len() != b.len() {
        return false;
    }
    let mut i: usize = 0;
    while i < a.len()
        invariant
            b@ == ascii(lit@),
            a@.len() == b@.len(),
            i <= a@.len(),
            a@.take(i as int) == b@.take(i as int),
        decreases a.len() - i,
    {
        if a[i] != b[i] {
            return false;
        }
        i += 1;
        proof {
            assert(a@.take(i as int) =~= a@.take(i - 1).push(a@[i - 1]));
            assert(b@.take(i as int) =~= b@.take(i - 1).push(b@[i - 1]));
        }
    }
    proof {
        assert(a@.take(i as int) =~= a@);
        assert(b@.take(i as int) =~= b@);
    }
    true
}

// --------------------------------------------------------------- names

/// Longest name the decoder reads.
pub const NAME_MAX: usize = 32;

/// The bytes a name is made of: ASCII letters and the underscore.
pub open spec fn is_name_byte(b: u8) -> bool {
    65 <= b <= 90 || 97 <= b <= 122 || b == 95
}

/// Whether bytes are a name.
pub open spec fn is_name(n: Seq<u8>) -> bool {
    n.len() <= 32 && forall|i: int| 0 <= i < n.len() ==> is_name_byte(#[trigger] n[i])
}

/// Bytes between double quotes.
pub open spec fn quoted(n: Seq<u8>) -> Seq<u8> {
    seq![34u8] + n + seq![34u8]
}

/// How many name bytes the input begins with.
pub closed spec fn name_run(s: Seq<u8>) -> nat
    decreases s.len(),
{
    if s.len() > 0 && is_name_byte(s[0]) {
        1 + name_run(s.skip(1))
    } else {
        0
    }
}

/// A name between double quotes.
pub closed spec fn dec_name(s: Seq<u8>) -> Parsed<Seq<u8>> {
    match take_byte(s) {
        Some((q, r1)) => {
            let n = name_run(r1);
            if q == 34 && n <= 32 && n < r1.len() && r1[n as int] == 34 {
                Some((r1.take(n as int), r1.skip(n as int + 1)))
            } else {
                None
            }
        },
        None => None,
    }
}

proof fn lemma_name_run(n: Seq<u8>, rest: Seq<u8>)
    requires
        forall|i: int| 0 <= i < n.len() ==> is_name_byte(#[trigger] n[i]),
        rest.len() == 0 || !is_name_byte(rest[0]),
    ensures
        name_run(n + rest) == n.len(),
    decreases n.len(),
{
    if n.len() == 0 {
        assert(n + rest =~= rest);
    } else {
        assert((n + rest)[0] == n[0]);
        assert((n + rest).skip(1) =~= n.skip(1) + rest);
        assert forall|i: int| 0 <= i < n.skip(1).len() implies is_name_byte(
            #[trigger] n.skip(1)[i],
        ) by {
            assert(n.skip(1)[i] == n[i + 1]);
        }
        lemma_name_run(n.skip(1), rest);
    }
}

/// A quoted name is read back from in front of any input.
pub proof fn lemma_name(n: Seq<u8>, rest: Seq<u8>)
    requires
        is_name(n),
    ensures
        dec_name(quoted(n) + rest) == Some((n, rest)),
{
    let tail = seq![34u8] + rest;
    assert(quoted(n) + rest =~= seq![34u8] + (n + tail));
    lemma_take_byte(34, n + tail);
    lemma_name_run(n, tail);
    assert((n + tail).take(n.len() as int) =~= n);
    assert((n + tail).skip(n.len() as int + 1) =~= rest);
}

/// Reads a quoted name.
pub(crate) fn get_name(r: &mut Reader) -> (x: Option<Vec<u8>>)
    ensures
        reads_bytes(dec_name(old(r).remaining()), x, final(r).remaining()),
        x matches Some(v) ==> is_name(v@) && old(r).remaining() == quoted(v@) + final(r).remaining(),
{
    let ghost s0 = r.remaining();
    proof {
        lemma_take_byte_joins(s0);
    }
    match r.byte() {
        Some(34) => {},
        _ => {
            return None;
        },
    }
    let ghost s1 = r.remaining();
    let mut name: Vec<u8> = Vec::new();
    loop
        invariant
            s0 == old(r).remaining(),
            s0 == seq![34u8] + s1,
            take_byte(s0) == Some((34u8, s1)),
            name@.len() <= 32,
            name@.len() <= s1.len(),
            name@ == s1.take(name@.len() as int),
            r.remaining() == s1.skip(name@.len() as int),
            name_run(s1) == name@.len() + name_run(r.remaining()),
            forall|i: int| 0 <= i < name@.len() ==> is_name_byte(#[trigger] name@[i]),
        decreases s1.len() - name@.len(),
    {
        let ghost cur = r.remaining();
        match r.peek() {
            Some(b) => {
                if b == 34 {
                    proof {
                        lemma_take_byte_joins(cur);
                    }
                    let _ = r.byte();
                    proof {
                        assert(name_run(cur) == 0);
                        assert(cur[0] == s1[name@.len() as int]);
                        assert(r.remaining() =~= s1.skip(name@.len() as int + 1));
                        assert(s1 =~= name@ + cur);
                        assert(s0 =~= quoted(name@) + r.remaining());
                    }
                    return Some(name);
                }
                let is_letter = (65 <= b && b <= 90) || (97 <= b && b <= 122) || b == 95;
                if !is_letter || name.len() >= NAME_MAX {
                    proof {
                        assert(cur[0] == s1[name@.len() as int]);
                        if is_letter {
                            assert(name_run(cur) >= 1);
                        } else {
                            assert(name_run(cur) == 0);
                        }
                    }
                    return None;
                }
                proof {
                    lemma_take_byte_joins(cur);
                }
                let _ = r.byte();
                name.push(b);
                proof {
                    assert(name@ =~= s1.take(name@.len() as int));
                    assert(r.remaining() =~= s1.skip(name@.len() as int));
                }
            },
            None => {
                proof {
                    assert(name_run(cur) == 0);
                    assert(cur.len() == 0);
                }
                return None;
            },
        }
    }
}

// ------------------------------------------------------------- strings

/// The lower-case hexadecimal digit of a number below sixteen.
pub open spec fn hex_digit(n: int) -> u8 {
    if n < 10 {
        (48 + n) as u8
    } else {
        (87 + n) as u8
    }
}

/// The number a lower-case hexadecimal digit stands for.
pub open spec fn hex_value(c: u8) -> Option<int> {
    if 48 <= c <= 57 {
        Some(c - 48)
    } else if 97 <= c <= 102 {
        Some(c - 87)
    } else {
        None
    }
}

/// One byte of a string as it stands between the quotes: the quote and the
/// backslash behind a backslash, the control characters as their short
/// escape where there is one and as `\u00xx` where there is none, every
/// other byte as it is.
pub open spec fn escape_byte(b: u8) -> Seq<u8> {
    if b == 34 {
        seq![92u8, 34u8]
    } else if b == 92 {
        seq![92u8, 92u8]
    } else if b == 8 {
        seq![92u8, 98u8]
    } else if b == 9 {
        seq![92u8, 116u8]
    } else if b == 10 {
        seq![92u8, 110u8]
    } else if b == 12 {
        seq![92u8, 102u8]
    } else if b == 13 {
        seq![92u8, 114u8]
    } else if b < 32 {
        seq![92u8, 117u8, 48u8, 48u8, hex_digit(b as int / 16), hex_digit(b as int % 16)]
    } else {
        seq![b]
    }
}

/// The bytes of a string as they stand between the quotes.
pub open spec fn json_chars(t: Seq<u8>) -> Seq<u8>
    decreases t.len(),
{
    if t.len() == 0 {
        Seq::empty()
    } else {
        escape_byte(t[0]) + json_chars(t.skip(1))
    }
}

/// A string as JSON text.
pub open spec fn json_string(t: Seq<u8>) -> Seq<u8> {
    seq![34u8] + json_chars(t) + seq![34u8]
}

/// The byte that the input begins with the escaped form of, and the length
/// of that form.
pub closed spec fn dec_unit(s: Seq<u8>) -> Option<(u8, nat)> {
    if s.len() == 0 {
        None
    } else if s[0] == 92 {
        if s.len() < 2 {
            None
        } else if s[1] == 34 {
            Some((34u8, 2nat))
        } else if s[1] == 92 {
            Some((92u8, 2nat))
        } else if s[1] == 98 {
            Some((8u8, 2nat))
        } else if s[1] == 116 {
            Some((9u8, 2nat))
        } else if s[1] == 110 {
            Some((10u8, 2nat))
        } else if s[1] == 102 {
            Some((12u8, 2nat))
        } else if s[1] == 114 {
            Some((13u8, 2nat))
        } else if s[1] == 117 && s.len() >= 6 && s[2] == 48 && s[3] == 48 {
            match (hex_value(s[4]), hex_value(s[5])) {
                (Some(hi), Some(lo)) => {
                    let v = hi * 16 + lo;
                    if v < 32 && v != 8 && v != 9 && v != 10 && v != 12 && v != 13 {
                        Some((v as u8, 6nat))
                    } else {
                        None
                    }
                },
                _ => None,
            }
        } else {
            None
        }
    } else if s[0] < 32 || s[0] == 34 {
        None
    } else {
        Some((s[0], 1nat))
    }
}

/// The first part read, in front of the parts read after it.
pub open spec fn prepend(a: Seq<u8>, p: Parsed<Seq<u8>>) -> Parsed<Seq<u8>> {
    match p {
        Some((t, rest)) => Some((a + t, rest)),
        None => None,
    }
}

/// The bytes of a string up to its closing quote.
pub closed spec fn dec_chars(s: Seq<u8>) -> Parsed<Seq<u8>>
    decreases s.len(),
{
    if s.len() == 0 {
        None
    } else if s[0] == 34 {
        Some((Seq::empty(), s.skip(1)))
    } else {
        match dec_unit(s) {
            Some((c, k)) => if 1 <= k <= s.len() {
                prepend(seq![c], dec_chars(s.skip(k as int)))
            } else {
                None
            },
            None => None,
        }
    }
}

/// A string of at most `cap` bytes of UTF-8.
pub closed spec fn dec_string(s: Seq<u8>, cap: nat) -> Parsed<Seq<u8>> {
    match take_byte(s) {
        Some((q, r1)) => if q == 34 {
            match dec_chars(r1) {
                Some((t, rest)) => if fits(t, cap) {
                    Some((t, rest))
                } else {
                    None
                },
                None => None,
            }
        } else {
            None
        },
        None => None,
    }
}

/// A string of at most `N` bytes, as a text.
pub open spec fn dec_text<const N: usize>(s: Seq<u8>) -> Parsed<BoundedString<N>> {
    match dec_string(s, N as nat) {
        Some((t, rest)) => Some((BoundedString::<N>::of(t), rest)),
        None => None,
    }
}

proof fn lemma_unit(b: u8, rest: Seq<u8>)
    ensures
        dec_unit(escape_byte(b) + rest) == Some((b, escape_byte(b).len())),
        escape_byte(b).len() >= 1,
        (escape_byte(b) + rest)[0] != 34,
{
    let e = escape_byte(b);
    let s = e + rest;
    assert(s[0] == e[0]);
    if e.len() >= 2 {
        assert(s[1] == e[1]);
    }
    if e.len() == 6 {
        assert(s[2] == e[2]);
        assert(s[3] == e[3]);
        assert(s[4] == e[4]);
        assert(s[5] == e[5]);
    }
}

proof fn lemma_unit_joins(s: Seq<u8>)
    ensures
        dec_unit(s) matches Some((c, k)) ==> 1 <= k <= s.len() && s.take(k as int)
            == escape_byte(c),
{
    if let Some((c, k)) = dec_unit(s) {
        assert(s.take(k as int) =~= escape_byte(c));
    }
}

proof fn lemma_chars(t: Seq<u8>, rest: Seq<u8>)
    ensures
        dec_chars(json_chars(t) + seq![34u8] + rest) == Some((t, rest)),
    decreases t.len(),
{
    let s = json_chars(t) + seq![34u8] + rest;
    if t.len() == 0 {
        assert(s =~= seq![34u8] + rest);
        assert(s.skip(1) =~= rest);
    } else {
        let e = escape_byte(t[0]);
        let tail = json_chars(t.skip(1)) + seq![34u8] + rest;
        assert(s =~= e + tail);
        lemma_unit(t[0], tail);
        assert(s.skip(e.len() as int) =~= tail);
        lemma_chars(t.skip(1), rest);
        assert(seq![t[0]] + t.skip(1) =~= t);
    }
}

/// A string is read back from in front of any input.
pub proof fn lemma_string(t: Seq<u8>, cap: nat, rest: Seq<u8>)
    requires
        fits(t, cap),
    ensures
        dec_string(json_string(t) + rest, cap) == Some((t, rest)),
{
    let body = json_chars(t) + seq![34u8] + rest;
    assert(json_string(t) + rest =~= seq![34u8] + body);
    lemma_take_byte(34, body);
    lemma_chars(t, rest);
}

/// A text is read back from in front of any input.
pub proof fn lemma_text<const N: usize>(t: BoundedString<N>, rest: Seq<u8>)
    requires
        t.wf(),
    ensures
        dec_text::<N>(json_string(t@) + rest) == Some((t, rest)),
{
    t.lemma_wf_fits();
    lemma_string(t@, N as nat, rest);
    t.lemma_of_view();
}

proof fn lemma_chars_push(t: Seq<u8>, b: u8)
    ensures
        json_chars(t.push(b)) == json_chars(t) + escape_byte(b),
    decreases t.len(),
{
    if t.len() == 0 {
        assert(t.push(b).skip(1) =~= Seq::<u8>::empty());
        assert(json_chars(t.push(b)) =~= escape_byte(b) + json_chars(Seq::<u8>::empty()));
        assert(json_chars(t.push(b)) =~= json_chars(t) + escape_byte(b));
    } else {
        assert(t.push(b).skip(1) =~= t.skip(1).push(b));
        assert(t.push(b)[0] == t[0]);
        lemma_chars_push(t.skip(1), b);
        assert(json_chars(t.push(b)) =~= json_chars(t) + escape_byte(b));
    }
}

fn hex_char(n: u8) -> (c: u8)
    requires
        n < 16,
    ensures
        c == hex_digit(n as int),
{
    if n < 10 {
        48 + n
    } else {
        87 + n
    }
}

fn hex_number(c: u8) -> (r: Option<u8>)
    ensures
        match hex_value(c) {
            Some(v) => r == Some(v as u8) && v < 16 && hex_digit(v) == c,
            None => r is None,
        },
{
    if 48 <= c && c <= 57 {
        Some(c - 48)
    } else if 97 <= c && c <= 102 {
        Some(c - 87)
    } else {
        None
    }
}

fn put_escaped(b: u8, out: &mut Vec<u8>)
    ensures
        final(out)@ == old(out)@ + escape_byte(b),
{
    if b == 34 {
        out.push(92);
        out.push(34);
    } else if b == 92 {
        out.push(92);
        out.push(92);
    } else if b == 8 {
        out.push(92);
        out.push(98);
    } else if b == 9 {
        out.push(92);
        out.push(116);
    } else if b == 10 {
        out.push(92);
        out.push(110);
    } else if b == 12 {
        out.push(92);
        out.push(102);
    } else if b == 13 {
        out.push(92);
        out.push(114);
    } else if b < 32 {
        out.push(92);
        out.push(117);
        out.push(48);
        out.push(48);
        out.push(hex_char(b / 16));
        out.push(hex_char(b % 16));
    } else {
        out.push(b);
    }
    proof {
        assert(out@ =~= old(out)@ + escape_byte(b));
    }
}

/// Writes a text as a JSON string.
pub(crate) fn put_string<const N: usize>(t: &BoundedString<N>, out: &mut Vec<u8>)
    ensures
        final(out)@ == old(out)@ + json_string(t@),
{
    let n = t.len();
    out.push(34);
    let mut i: usize = 0;
    while i < n
        invariant
            i <= n == t@.len(),
            out@ == old(out)@ + seq![34u8] + json_chars(t@.take(i as int)),
        decreases n - i,
    {
        let b = t.byte(i);
        proof {
            lemma_chars_push(t@.take(i as int), b);
            assert(t@.take(i + 1) =~= t@.take(i as int).push(b));
        }
        put_escaped(b, out);
        i += 1;
        proof {
            assert(out@ =~= old(out)@ + seq![34u8] + json_chars(t@.take(i as int)));
        }
    }
    out.push(34);
    proof {
        assert(t@.take(n as int) =~= t@);
        assert(out@ =~= old(out)@ + json_string(t@));
    }
}

fn get_unit(r: &mut Reader) -> (x: Option<u8>)
    ensures
        match dec_unit(old(r).remaining()) {
            Some((c, k)) => x == Some(c) && k <= old(r).remaining().len() && final(r).remaining() == old(r).remaining().skip(k as int),
            None => x is None,
        },
{
    let ghost s = r.remaining();
    proof {
        lemma_take_byte_joins(s);
    }
    let b0 = match r.byte() {
        Some(b) => b,
        None => {
            return None;
        },
    };
    if b0 != 92 {
        if b0 < 32 || b0 == 34 {
            return None;
        }
        return Some(b0);
    }
    let ghost s1 = r.remaining();
    proof {
        lemma_take_byte_joins(s1);
        assert(s1 =~= s.skip(1));
    }
    let b1 = match r.byte() {
        Some(b) => b,
        None => {
            return None;
        },
    };
    let ghost s2 = r.remaining();
    proof {
        assert(s[1] == b1);
        assert(s2 =~= s.skip(2));
    }
    if b1 == 34 {
        Some(34)
    } else if b1 == 92 {
        Some(92)
    } else if b1 == 98 {
        Some(8)
    } else if b1 == 116 {
        Some(9)
    } else if b1 == 110 {
        Some(10)
    } else if b1 == 102 {
        Some(12)
    } else if b1 == 114 {
        Some(13)
    } else if b1 == 117 {
        proof {
            lemma_take_bytes_joins(s2, 4);
        }
        match r.bytes(4) {
            Some(h) => {
                proof {
                    assert(h@[0] == s[2] && h@[1] == s[3] && h@[2] == s[4] && h@[3] == s[5]);
                    assert(r.remaining() =~= s.skip(6));
                }
                if h[0] != 48 || h[1] != 48 {
                    return None;
                }
                match (hex_number(h[2]), hex_number(h[3])) {
                    (Some(hi), Some(lo)) => {
                        let v = hi * 16 + lo;
                        if v < 32 && v != 8 && v != 9 && v != 10 && v != 12 && v != 13 {
                            Some(v)
                        } else {
                            None
                        }
                    },
                    _ => None,
                }
            },
            None => None,
        }
    } else {
        None
    }
}

/// Reads a JSON string of at most `N` bytes.
pub(crate) fn get_string<const N: usize>(r: &mut Reader) -> (x: Option<BoundedString<N>>)
    ensures
        reads(dec_text::<N>(old(r).remaining()), x, final(r).remaining()),
        x matches Some(v) ==> v.wf() && old(r).remaining() == json_string(v@) + final(r).remaining(),
{
    let ghost s0 = r.remaining();
    proof {
        lemma_take_byte_joins(s0);
    }
    match r.byte() {
        Some(34) => {},
        _ => {
            return None;
        },
    }
    let ghost s1 = r.remaining();
    let mut acc: Vec<u8> = Vec::new();
    proof {
        assert(json_chars(acc@) + s1 =~= s1);
        match dec_chars(s1) {
            Some((t, rest)) => {
                assert(acc@ + t =~= t);
            },
            None => {},
        }
    }
    loop
        invariant
            s0 == old(r).remaining(),
            take_byte(s0) == Some((34u8, s1)),
            s0 == seq![34u8] + s1,
            acc@.len() <= N,
            s1 == json_chars(acc@) + r.remaining(),
            dec_chars(s1) == prepend(acc@, dec_chars(r.remaining())),
        decreases r.remaining().len(),
    {
        let ghost cur = r.remaining();
        let ghost before = acc@;
        match r.peek() {
            None => {
                return None;
            },
            Some(34) => {
                proof {
                    lemma_take_byte_joins(cur);
                }
                let _ = r.byte();
                proof {
                    assert(cur.skip(1) =~= r.remaining());
                    assert(acc@ + Seq::<u8>::empty() =~= acc@);
                    assert(dec_chars(s1) == Some((acc@, r.remaining())));
                    assert(s0 =~= json_string(acc@) + r.remaining());
                }
                return BoundedString::<N>::from_bytes(acc.as_slice());
            },
            Some(_) => {
                proof {
                    lemma_unit_joins(cur);
                }
                match get_unit(r) {
                    Some(c) => {
                        proof {
                            let k = match dec_unit(cur) {
                                Some((_, k)) => k,
                                None => 0nat,
                            };
                            let next = dec_chars(r.remaining());
                            assert(dec_chars(cur) == prepend(seq![c], next));
                            match next {
                                Some((t, rest)) => {
                                    assert(before + (seq![c] + t) =~= before.push(c) + t);
                                },
                                None => {},
                            }
                            lemma_chars_push(before, c);
                            assert(cur =~= cur.take(k as int) + r.remaining());
                            assert(s1 =~= json_chars(before.push(c)) + r.remaining());
                        }
                        if acc.len() >= N {
                            return None;
                        }
                        acc.push(c);
                    },
                    None => {
                        return None;
                    },
                }
            },
        }
    }
}

// ------------------------------------------------------------- numbers

/// The decimal digit of a number below ten.
pub open spec fn digit(n: int) -> u8 {
    (48 + n) as u8
}

/// A number up to 99999 in decimal, without leading zeros.
#[verifier::opaque]
pub open spec fn json_number(n: int) -> Seq<u8> {
    let a = n / 10;
    let b = a / 10;
    let c = b / 10;
    let d = c / 10;
    if a == 0 {
        seq![digit(n)]
    } else if b == 0 {
        seq![digit(a), digit(n % 10)]
    } else if c == 0 {
        seq![digit(b), digit(a % 10), digit(n % 10)]
    } else if d == 0 {
        seq![digit(c), digit(b % 10), digit(a % 10), digit(n % 10)]
    } else {
        seq![digit(d), digit(c % 10), digit(b % 10), digit(a % 10), digit(n % 10)]
    }
}

/// Whether the input has a decimal digit at a position.
pub open spec fn digit_at(s: Seq<u8>, i: int) -> bool {
    i < s.len() && 48 <= s[i] <= 57
}

spec fn dv(s: Seq<u8>, i: int) -> int {
    s[i] - 48
}

/// A number of one to five digits, the first of which is zero only where it
/// is the only one.
pub closed spec fn dec_number(s: Seq<u8>) -> Parsed<int> {
    if !digit_at(s, 0) {
        None
    } else if !digit_at(s, 1) {
        Some((dv(s, 0), s.skip(1)))
    } else if s[0] == 48 {
        None
    } else if !digit_at(s, 2) {
        Some((dv(s, 0) * 10 + dv(s, 1), s.skip(2)))
    } else if !digit_at(s, 3) {
        Some(((dv(s, 0) * 10 + dv(s, 1)) * 10 + dv(s, 2), s.skip(3)))
    } else if !digit_at(s, 4) {
        Some((((dv(s, 0) * 10 + dv(s, 1)) * 10 + dv(s, 2)) * 10 + dv(s, 3), s.skip(4)))
    } else if !digit_at(s, 5) {
        Some(
            (
                (((dv(s, 0) * 10 + dv(s, 1)) * 10 + dv(s, 2)) * 10 + dv(s, 3)) * 10 + dv(s, 4),
                s.skip(5),
            ),
        )
    } else {
        None
    }
}

/// The digits of a number, most significant first: none of them is above
/// nine, and the first is zero only where it is the only one.
spec fn digits_number(ds: Seq<int>) -> int {
    if ds.len() == 1 {
        ds[0]
    } else if ds.len() == 2 {
        ds[0] * 10 + ds[1]
    } else if ds.len() == 3 {
        (ds[0] * 10 + ds[1]) * 10 + ds[2]
    } else if ds.len() == 4 {
        ((ds[0] * 10 + ds[1]) * 10 + ds[2]) * 10 + ds[3]
    } else {
        (((ds[0] * 10 + ds[1]) * 10 + ds[2]) * 10 + ds[3]) * 10 + ds[4]
    }
}

spec fn are_digits(ds: Seq<int>) -> bool {
    &&& 1 <= ds.len() <= 5
    &&& forall|i: int| 0 <= i < ds.len() ==> 0 <= #[trigger] ds[i] <= 9
    &&& ds.len() > 1 ==> ds[0] >= 1
}

proof fn lemma_number_of_digits(ds: Seq<int>)
    requires
        are_digits(ds),
    ensures
        0 <= digits_number(ds) <= 99999,
        json_number(digits_number(ds)) == ds.map_values(|d: int| digit(d)),
{
    reveal(json_number);
    let n = digits_number(ds);
    let want = ds.map_values(|d: int| digit(d));
    assert(0 <= ds[0] <= 9);
    if ds.len() >= 2 {
        assert(0 <= ds[1] <= 9);
    }
    if ds.len() >= 3 {
        assert(0 <= ds[2] <= 9);
    }
    if ds.len() >= 4 {
        assert(0 <= ds[3] <= 9);
    }
    if ds.len() >= 5 {
        assert(0 <= ds[4] <= 9);
    }
    let a = n / 10;
    let b = a / 10;
    let c = b / 10;
    let d = c / 10;
    if ds.len() == 1 {
        assert(a == 0);
    } else if ds.len() == 2 {
        assert(a == ds[0] && n % 10 == ds[1]);
    } else if ds.len() == 3 {
        assert(a == ds[0] * 10 + ds[1] && n % 10 == ds[2]);
        assert(b == ds[0] && a % 10 == ds[1]);
    } else if ds.len() == 4 {
        assert(a == (ds[0] * 10 + ds[1]) * 10 + ds[2] && n % 10 == ds[3]);
        assert(b == ds[0] * 10 + ds[1] && a % 10 == ds[2]);
        assert(c == ds[0] && b % 10 == ds[1]);
    } else {
        assert(a == ((ds[0] * 10 + ds[1]) * 10 + ds[2]) * 10 + ds[3] && n % 10 == ds[4]);
        assert(b == (ds[0] * 10 + ds[1]) * 10 + ds[2] && a % 10 == ds[3]);
        assert(c == ds[0] * 10 + ds[1] && b % 10 == ds[2]);
        assert(d == ds[0] && c % 10 == ds[1]);
    }
    assert(json_number(n) =~= want);
}

proof fn lemma_digits_of_number(n: int) -> (ds: Seq<int>)
    requires
        0 <= n <= 99999,
    ensures
        are_digits(ds),
        digits_number(ds) == n,
{
    let a = n / 10;
    let b = a / 10;
    let c = b / 10;
    let d = c / 10;
    if a == 0 {
        seq![n]
    } else if b == 0 {
        seq![a, n % 10]
    } else if c == 0 {
        seq![b, a % 10, n % 10]
    } else if d == 0 {
        seq![c, b % 10, a % 10, n % 10]
    } else {
        seq![d, c % 10, b % 10, a % 10, n % 10]
    }
}

proof fn lemma_digits_read(ds: Seq<int>, rest: Seq<u8>)
    requires
        are_digits(ds),
        !digit_at(rest, 0),
    ensures
        dec_number(ds.map_values(|d: int| digit(d)) + rest) == Some((digits_number(ds), rest)),
{
    let e = ds.map_values(|d: int| digit(d));
    let s = e + rest;
    assert(s.skip(e.len() as int) =~= rest);
    assert forall|i: int| 0 <= i < e.len() implies s[i] == digit(ds[i]) && 0 <= ds[i] <= 9 by {
        assert(s[i] == e[i]);
    }
    assert(s[0] == digit(ds[0]));
    if ds.len() >= 2 {
        assert(s[1] == digit(ds[1]));
    }
    if ds.len() >= 3 {
        assert(s[2] == digit(ds[2]));
    }
    if ds.len() >= 4 {
        assert(s[3] == digit(ds[3]));
    }
    if ds.len() >= 5 {
        assert(s[4] == digit(ds[4]));
    }
    if rest.len() > 0 {
        assert(s[e.len() as int] == rest[0]);
    }
    assert(!digit_at(s, e.len() as int));
}

/// A number is read back from in front of any input that does not go on
/// with a digit.
pub proof fn lemma_number(n: int, rest: Seq<u8>)
    requires
        0 <= n <= 99999,
        !digit_at(rest, 0),
    ensures
        dec_number(json_number(n) + rest) == Some((n, rest)),
        json_number(n).len() >= 1,
        !(json_number(n)[0] == 34),
{
    let ds = lemma_digits_of_number(n);
    lemma_number_of_digits(ds);
    lemma_digits_read(ds, rest);
    assert(0 <= ds[0] <= 9);
}

fn take_digit(r: &mut Reader) -> (x: Option<u8>)
    ensures
        digit_at(old(r).remaining(), 0) ==> x == Some((old(r).remaining()[0] - 48) as u8)
            && final(r).remaining() == old(r).remaining().skip(1),
        !digit_at(old(r).remaining(), 0) ==> x is None && *final(r) == *old(r),
{
    match r.peek() {
        Some(b) => {
            if 48 <= b && b <= 57 {
                let _ = r.byte();
                Some(b - 48)
            } else {
                None
            }
        },
        None => None,
    }
}

/// Writes a number in decimal.
pub(crate) fn put_number(n: u32, out: &mut Vec<u8>)
    requires
        n <= 99999,
    ensures
        final(out)@ == old(out)@ + json_number(n as int),
{
    if n >= 10000 {
        out.push(48 + (n / 10000) as u8);
    }
    if n >= 1000 {
        out.push(48 + (n / 1000 % 10) as u8);
    }
    if n >= 100 {
        out.push(48 + (n / 100 % 10) as u8);
    }
    if n >= 10 {
        out.push(48 + (n / 10 % 10) as u8);
    }
    out.push(48 + (n % 10) as u8);
    proof {
        reveal(json_number);
        assert(out@ =~= old(out)@ + json_number(n as int));
    }
}

/// Reads a number in decimal.
pub(crate) fn get_number(r: &mut Reader) -> (x: Option<u32>)
    ensures
        match dec_number(old(r).remaining()) {
            Some((n, rest)) => x matches Some(v) && v as int == n && final(r).remaining()
                == rest,
            None => x is None,
        },
        x matches Some(v) ==> v <= 99999 && old(r).remaining() == json_number(v as int) + final(r).remaining() && !digit_at(final(r).remaining(), 0),
{
    let ghost s = r.remaining();
    let mut value: u32 = 0;
    let mut count: usize = 0;
    let ghost mut ds: Seq<int> = Seq::empty();
    loop
        invariant
            s == old(r).remaining(),
            count <= 5,
            ds.len() == count,
            count <= s.len(),
            r.remaining() == s.skip(count as int),
            forall|i: int| 0 <= i < count ==> digit_at(s, i) && #[trigger] ds[i] == s[i] - 48,
            count == 0 ==> value == 0,
            count >= 1 ==> value == digits_number(ds),
            value <= 99999,
            count >= 2 ==> s[0] != 48,
        decreases 6 - count,
    {
        let ghost cur = r.remaining();
        proof {
            assert(digit_at(cur, 0) == digit_at(s, count as int));
            if count < s.len() {
                assert(cur[0] == s[count as int]);
            }
        }
        match take_digit(r) {
            Some(d) => {
                if count == 5 || (count == 1 && value == 0) {
                    proof {
                        assert(digit_at(s, 0));
                        if count == 5 {
                            assert(digit_at(s, 1) && digit_at(s, 2) && digit_at(s, 3) && digit_at(
                                s,
                                4,
                            ) && digit_at(s, 5));
                        } else {
                            assert(ds[0] == s[0] - 48);
                        }
                    }
                    return None;
                }
                proof {
                    let before = ds;
                    ds = ds.push(d as int);
                    assert(forall|i: int| 0 <= i < count ==> ds[i] == before[i]);
                    assert(cur.skip(1) =~= s.skip(count + 1));
                    if count == 1 {
                        assert(before[0] == s[0] - 48);
                    }
                }
                value = value * 10 + d as u32;
                count += 1;
            },
            None => {
                if count == 0 {
                    return None;
                }
                proof {
                    assert(are_digits(ds)) by {
                        if count > 1 {
                            assert(ds[0] == s[0] - 48);
                        }
                    }
                    lemma_number_of_digits(ds);
                    let e = ds.map_values(|d: int| digit(d));
                    assert(s.take(count as int) =~= e);
                    assert(s =~= e + r.remaining());
                    lemma_digits_read(ds, r.remaining());
                }
                return Some(value);
            },
        }
    }
}

// --------------------------------------------------------- identifiers

/// A byte as two hexadecimal digits.
pub open spec fn hex_pair(b: u8) -> Seq<u8> {
    seq![hex_digit(b as int / 16), hex_digit(b as int % 16)]
}

/// An identifier as text: its bytes in hexadecimal, in groups of four, two,
/// two, two and six bytes, with hyphens between the groups.
#[verifier::opaque]
pub open spec fn uuid_text(u: Uuid) -> Seq<u8> {
    let b = uuid_bytes(u);
    hex_pair(b[0]) + hex_pair(b[1]) + hex_pair(b[2]) + hex_pair(b[3]) + seq![45u8] + hex_pair(
        b[4],
    ) + hex_pair(b[5]) + seq![45u8] + hex_pair(b[6]) + hex_pair(b[7]) + seq![45u8] + hex_pair(
        b[8],
    ) + hex_pair(b[9]) + seq![45u8] + hex_pair(b[10]) + hex_pair(b[11]) + hex_pair(b[12])
        + hex_pair(b[13]) + hex_pair(b[14]) + hex_pair(b[15])
}

/// Where in the text the two digits of each byte begin.
pub open spec fn pair_offset(k: int) -> int {
    if k < 4 {
        2 * k
    } else if k < 6 {
        2 * k + 1
    } else if k < 8 {
        2 * k + 2
    } else if k < 10 {
        2 * k + 3
    } else {
        2 * k + 4
    }
}

spec fn pair_value(t: Seq<u8>, i: int) -> Option<u8> {
    match (hex_value(t[i]), hex_value(t[i + 1])) {
        (Some(hi), Some(lo)) => Some((hi * 16 + lo) as u8),
        _ => None,
    }
}

spec fn pairs_ok(t: Seq<u8>) -> bool {
    forall|k: int| 0 <= k < 16 ==> (#[trigger] pair_value(t, pair_offset(k))) is Some
}

spec fn pair_bytes(t: Seq<u8>) -> Seq<u8> {
    Seq::new(16, |k: int| pair_value(t, pair_offset(k)).unwrap())
}

/// An identifier as thirty-six characters.
pub closed spec fn dec_uuid_text(s: Seq<u8>) -> Parsed<Uuid> {
    match take_bytes(s, 36) {
        Some((t, rest)) => if t[8] == 45 && t[13] == 45 && t[18] == 45 && t[23] == 45
            && pairs_ok(t) {
            Some((uuid_of_bytes(pair_bytes(t)), rest))
        } else {
            None
        },
        None => None,
    }
}

proof fn lemma_hex(b: u8)
    ensures
        hex_value(hex_pair(b)[0]) == Some(b as int / 16),
        hex_value(hex_pair(b)[1]) == Some(b as int % 16),
{
}

proof fn lemma_uuid_text_at(u: Uuid, k: int)
    requires
        0 <= k < 16,
    ensures
        uuid_text(u).len() == 36,
        uuid_text(u)[pair_offset(k)] == hex_pair(uuid_bytes(u)[k])[0],
        uuid_text(u)[pair_offset(k) + 1] == hex_pair(uuid_bytes(u)[k])[1],
        uuid_text(u)[8] == 45 && uuid_text(u)[13] == 45 && uuid_text(u)[18] == 45 && uuid_text(
            u,
        )[23] == 45,
{
    reveal(uuid_text);
    let b = uuid_bytes(u);
    let t = seq![
        hex_pair(b[0])[0], hex_pair(b[0])[1], hex_pair(b[1])[0], hex_pair(b[1])[1],
        hex_pair(b[2])[0], hex_pair(b[2])[1], hex_pair(b[3])[0], hex_pair(b[3])[1],
        45u8,
        hex_pair(b[4])[0], hex_pair(b[4])[1], hex_pair(b[5])[0], hex_pair(b[5])[1],
        45u8,
        hex_pair(b[6])[0], hex_pair(b[6])[1], hex_pair(b[7])[0], hex_pair(b[7])[1],
        45u8,
        hex_pair(b[8])[0], hex_pair(b[8])[1], hex_pair(b[9])[0], hex_pair(b[9])[1],
        45u8,
        hex_pair(b[10])[0], hex_pair(b[10])[1], hex_pair(b[11])[0], hex_pair(b[11])[1],
        hex_pair(b[12])[0], hex_pair(b[12])[1], hex_pair(b[13])[0], hex_pair(b[13])[1],
        hex_pair(b[14])[0], hex_pair(b[14])[1], hex_pair(b[15])[0], hex_pair(b[15])[1],
    ];
    assert(uuid_text(u) =~= t);
}

/// The text of an identifier is read back from in front of any input.
pub proof fn lemma_uuid_text(u: Uuid, rest: Seq<u8>)
    ensures
        uuid_text(u).len() == 36,
        dec_uuid_text(uuid_text(u) + rest) == Some((u, rest)),
{
    let t = uuid_text(u);
    lemma_uuid_text_at(u, 0);
    lemma_take_bytes(t, rest);
    lemma_uuid_bytes(u);
    assert forall|k: int| 0 <= k < 16 implies (#[trigger] pair_value(t, pair_offset(k)))
        == Some(uuid_bytes(u)[k]) by {
        lemma_uuid_text_at(u, k);
        lemma_hex(uuid_bytes(u)[k]);
    }
    assert(pair_bytes(t) =~= uuid_bytes(u));
}

/// Writes an identifier as text.
pub(crate) fn put_uuid_text(u: Uuid, out: &mut Vec<u8>)
    ensures
        final(out)@ == old(out)@ + uuid_text(u),
{
    let b = uuid_to_bytes(u);
    proof {
        lemma_uuid_bytes(u);
    }
    let mut k: usize = 0;
    let ghost start = out@;
    let ghost t = uuid_text(u);
    proof {
        lemma_uuid_text_at(u, 0);
    }
    while k < 16
        invariant
            k <= 16,
            b@ == uuid_bytes(u),
            b@.len() == 16,
            t == uuid_text(u),
            t.len() == 36,
            out@ == start + t.take(if k == 16 {
                36
            } else {
                pair_offset(k as int)
            }),
        decreases 16 - k,
    {
        proof {
            lemma_uuid_text_at(u, k as int);
        }
        out.push(hex_char(b[k] / 16));
        out.push(hex_char(b[k] % 16));
        if k == 3 || k == 5 || k == 7 || k == 9 {
            out.push(45);
        }
        k += 1;
        proof {
            assert(out@ =~= start + t.take(if k == 16 {
                36
            } else {
                pair_offset(k as int)
            }));
        }
    }
    proof {
        assert(t.take(36) =~= t);
    }
}

fn pair_at(t: &Vec<u8>, i: usize) -> (r: Option<u8>)
    requires
        t@.len() == 36,
        i + 1 < 36,
    ensures
        r == pair_value(t@, i as int),
        r matches Some(b) ==> hex_pair(b) == seq![t@[i as int], t@[i + 1]],
{
    match (hex_number(t[i]), hex_number(t[i + 1])) {
        (Some(hi), Some(lo)) => {
            let b = hi * 16 + lo;
            proof {
                assert(hex_pair(b) =~= seq![t@[i as int], t@[i + 1]]);
            }
            Some(b)
        },
        _ => None,
    }
}

fn offset_of(k: usize) -> (i: usize)
    requires
        k < 16,
    ensures
        i == pair_offset(k as int),
        i + 1 < 36,
{
    if k < 4 {
        2 * k
    } else if k < 6 {
        2 * k + 1
    } else if k < 8 {
        2 * k + 2
    } else if k < 10 {
        2 * k + 3
    } else {
        2 * k + 4
    }
}

proof fn lemma_text_of_pairs(t: Seq<u8>, b: Seq<u8>)
    requires
        t.len() == 36,
        b.len() == 16,
        t[8] == 45 && t[13] == 45 && t[18] == 45 && t[23] == 45,
        forall|j: int|
            0 <= j < 16 ==> hex_pair(#[trigger] b[j]) == seq![
                t[pair_offset(j)],
                t[pair_offset(j) + 1],
            ],
    ensures
        uuid_text(uuid_of_bytes(b)) == t,
{
    let u = uuid_of_bytes(b);
    lemma_uuid_of_bytes(b);
    lemma_uuid_text_at(u, 0);
    assert forall|i: int| 0 <= i < 36 implies uuid_text(u)[i] == t[i] by {
        if i == 8 || i == 13 || i == 18 || i == 23 {
        } else {
            let j: int = if i < 8 {
                i / 2
            } else if i < 13 {
                (i - 1) / 2
            } else if i < 18 {
                (i - 2) / 2
            } else if i < 23 {
                (i - 3) / 2
            } else {
                (i - 4) / 2
            };
            lemma_uuid_text_at(u, j);
            assert(hex_pair(b[j]) == seq![t[pair_offset(j)], t[pair_offset(j) + 1]]);
            assert(hex_pair(b[j])[0] == t[pair_offset(j)]);
            assert(hex_pair(b[j])[1] == t[pair_offset(j) + 1]);
        }
    }
    assert(uuid_text(u) =~= t);
}

/// Reads an identifier as text.
pub(crate) fn get_uuid_text(r: &mut Reader) -> (x: Option<Uuid>)
    ensures
        reads(dec_uuid_text(old(r).remaining()), x, final(r).remaining()),
        x matches Some(v) ==> old(r).remaining() == uuid_text(v) + final(r).remaining(),
{
    let ghost s = r.remaining();
    proof {
        lemma_take_bytes_joins(s, 36);
    }
    let t = match r.bytes(36) {
        Some(t) => t,
        None => {
            return None;
        },
    };
    if t[8] != 45 || t[13] != 45 || t[18] != 45 || t[23] != 45 {
        return None;
    }
    let mut b: Vec<u8> = Vec::new();
    let mut k: usize = 0;
    while k < 16
        invariant
            k <= 16,
            t@.len() == 36,
            b@.len() == k,
            s == old(r).remaining(),
            take_bytes(s, 36) == Some((t@, r.remaining())),
            forall|j: int|
                0 <= j < k ==> (#[trigger] pair_value(t@, pair_offset(j))) == Some(b@[j]),
            forall|j: int|
                0 <= j < k ==> hex_pair(#[trigger] b@[j]) == seq![
                    t@[pair_offset(j)],
                    t@[pair_offset(j) + 1],
                ],
        decreases 16 - k,
    {
        let i = offset_of(k);
        match pair_at(&t, i) {
            Some(v) => {
                b.push(v);
            },
            None => {
                proof {
                    assert(pair_value(t@, pair_offset(k as int)) is None);
                }
                return None;
            },
        }
        k += 1;
    }
    let u = uuid_from_bytes(b.as_slice());
    proof {
        assert(pairs_ok(t@));
        assert(pair_bytes(t@) =~= b@);
        lemma_text_of_pairs(t@, b@);
    }
    Some(u)
}

// ------------------------------------------------- tokens are UTF-8

/// Whether every byte is an ASCII character.
pub open spec fn is_ascii_bytes(s: Seq<u8>) -> bool {
    forall|i: int| 0 <= i < s.len() ==> #[trigger] s[i] < 128
}

/// ASCII characters are UTF-8.
pub proof fn lemma_ascii_is_utf8(s: Seq<u8>)
    requires
        is_ascii_bytes(s),
    ensures
        valid_utf8(s),
{
    assert(s.subrange(0, 0) =~= Seq::<u8>::empty());
    assert(partial_valid_utf8(s, 0));
    partial_valid_utf8_extend_ascii_block(s, 0, s.len() as int);
    assert(s.subrange(0, s.len() as int) =~= s);
}

/// The bytes of an ASCII text are UTF-8.
pub proof fn lemma_text_is_utf8(w: Seq<char>)
    requires
        is_ascii_chars(w),
    ensures
        is_ascii_bytes(ascii(w)),
        valid_utf8(ascii(w)),
{
    lemma_ascii_is_utf8(ascii(w));
}

/// A quoted name is UTF-8.
pub proof fn lemma_quoted_is_utf8(n: Seq<u8>)
    requires
        is_name(n),
    ensures
        valid_utf8(quoted(n)),
{
    assert forall|i: int| 0 <= i < quoted(n).len() implies #[trigger] quoted(n)[i] < 128 by {
        if 1 <= i <= n.len() {
            assert(quoted(n)[i] == n[i - 1]);
        }
    }
    lemma_ascii_is_utf8(quoted(n));
}

proof fn lemma_chars_concat(a: Seq<u8>, b: Seq<u8>)
    ensures
        json_chars(a + b) == json_chars(a) + json_chars(b),
    decreases a.len(),
{
    if a.len() == 0 {
        assert(a + b =~= b);
        assert(json_chars(a) + json_chars(b) =~= json_chars(b));
    } else {
        assert((a + b)[0] == a[0]);
        assert((a + b).skip(1) =~= a.skip(1) + b);
        lemma_chars_concat(a.skip(1), b);
        assert(json_chars(a + b) =~= json_chars(a) + json_chars(b));
    }
}

proof fn lemma_chars_high(s: Seq<u8>)
    requires
        forall|i: int| 0 <= i < s.len() ==> #[trigger] s[i] >= 128,
    ensures
        json_chars(s) == s,
    decreases s.len(),
{
    if s.len() > 0 {
        assert(s[0] >= 128);
        assert forall|i: int| 0 <= i < s.skip(1).len() implies #[trigger] s.skip(1)[i]
            >= 128 by {
            assert(s.skip(1)[i] == s[i + 1]);
        }
        lemma_chars_high(s.skip(1));
        assert(json_chars(s) =~= s);
    } else {
        assert(json_chars(s) =~= s);
    }
}

proof fn lemma_escape_is_ascii(b: u8)
    requires
        b < 128,
    ensures
        is_ascii_bytes(escape_byte(b)),
{
}

/// The bytes of a string between its quotes are UTF-8 where the string is.
proof fn lemma_chars_is_utf8(t: Seq<u8>)
    requires
        valid_utf8(t),
    ensures
        valid_utf8(json_chars(t)),
    decreases t.len(),
{
    if t.len() > 0 {
        let k = length_of_first_scalar(t);
        let first = t.subrange(0, k);
        let rest = pop_first_scalar(t);
        assert(valid_first_scalar(t));
        assert(1 <= k <= 4 && k <= t.len());
        assert(t =~= first + rest);
        lemma_chars_concat(first, rest);
        lemma_chars_is_utf8(rest);
        assert(first[0] == t[0]);
        if k == 1 {
            assert(first.skip(1) =~= Seq::<u8>::empty());
            assert(json_chars(first.skip(1)) =~= Seq::<u8>::empty());
            assert(json_chars(first) =~= escape_byte(t[0]));
            lemma_escape_is_ascii(t[0]);
            lemma_ascii_is_utf8(escape_byte(t[0]));
        } else {
            assert(first[1] == t[1]);
            if k >= 3 {
                assert(first[2] == t[2]);
            }
            if k >= 4 {
                assert(first[3] == t[3]);
            }
            assert forall|i: int| 0 <= i < first.len() implies #[trigger] first[i] >= 128 by {
                assert(first[i] == t[i]);
            }
            lemma_chars_high(first);
            assert(valid_first_scalar(first));
            assert(pop_first_scalar(first) =~= Seq::<u8>::empty());
            assert(valid_utf8(pop_first_scalar(first)));
            assert(valid_utf8(first));
        }
        valid_utf8_concat(json_chars(first), json_chars(rest));
    }
}

/// A string is UTF-8 as JSON text where it is UTF-8 itself.
pub proof fn lemma_string_is_utf8(t: Seq<u8>)
    requires
        valid_utf8(t),
    ensures
        valid_utf8(json_string(t)),
{
    lemma_chars_is_utf8(t);
    lemma_ascii_is_utf8(seq![34u8]);
    valid_utf8_concat(seq![34u8], json_chars(t));
    valid_utf8_concat(seq![34u8] + json_chars(t), seq![34u8]);
}

/// A number is UTF-8.
pub proof fn lemma_number_is_utf8(n: int)
    requires
        0 <= n <= 99999,
    ensures
        valid_utf8(json_number(n)),
{
    reveal(json_number);
    lemma_ascii_is_utf8(json_number(n));
}

/// The text of an identifier is UTF-8.
pub proof fn lemma_uuid_text_is_utf8(u: Uuid)
    ensures
        valid_utf8(uuid_text(u)),
{
    lemma_uuid_text_at(u, 0);
    lemma_uuid_bytes(u);
    assert forall|i: int| 0 <= i < uuid_text(u).len() implies #[trigger] uuid_text(u)[i]
        < 128 by {
        if i == 8 || i == 13 || i == 18 || i == 23 {
        } else {
            let j: int = if i < 8 {
                i / 2
            } else if i < 13 {
                (i - 1) / 2
            } else if i < 18 {
                (i - 2) / 2
            } else if i < 23 {
                (i - 3) / 2
            } else {
                (i - 4) / 2
            };
            lemma_uuid_text_at(u, j);
        }
    }
    lemma_ascii_is_utf8(uuid_text(u));
}

} // verus!
