//! A cursor over received bytes, shared by the decoders.

use vstd::prelude::*;
use vstd::utf8::{is_ascii_chars, is_ascii_chars_encode_utf8};

verus! {

/// What a decoder of one part returns: the part and the input left over.
pub type Parsed<T> = Option<(T, Seq<u8>)>;

/// An executable decoder did what the grammar says: it returned the part
/// and stands at the left-over input, or the grammar has no part here.
pub open spec fn reads<T>(grammar: Parsed<T>, got: Option<T>, after: Seq<u8>) -> bool {
    match grammar {
        Some((v, rest)) => got == Some(v) && after == rest,
        None => got is None,
    }
}

/// The first byte of the input and what follows it.
pub open spec fn take_byte(s: Seq<u8>) -> Option<(u8, Seq<u8>)> {
    if s.len() >= 1 {
        Some((s[0], s.skip(1)))
    } else {
        None
    }
}

/// The first `n` bytes of the input and what follows them.
pub open spec fn take_bytes(s: Seq<u8>, n: nat) -> Option<(Seq<u8>, Seq<u8>)> {
    if s.len() >= n {
        Some((s.take(n as int), s.skip(n as int)))
    } else {
        None
    }
}

/// The bytes of an ASCII text, one per character.
pub open spec fn ascii(s: Seq<char>) -> Seq<u8> {
    Seq::new(s.len(), |i: int| s[i] as u8)
}

/// What follows the given bytes, where the input begins with them.
pub open spec fn take_lit(s: Seq<u8>, lit: Seq<u8>) -> Option<Seq<u8>> {
    if lit.is_prefix_of(s) {
        Some(s.skip(lit.len() as int))
    } else {
        None
    }
}

/// Bytes are recognised in front of any input.
pub proof fn lemma_take_lit(lit: Seq<u8>, rest: Seq<u8>)
    ensures
        take_lit(lit + rest, lit) == Some(rest),
{
    assert((lit + rest).subrange(0, lit.len() as int) =~= lit);
    assert((lit + rest).skip(lit.len() as int) =~= rest);
}

/// What was recognised, followed by what is left, is the input.
pub proof fn lemma_take_lit_joins(s: Seq<u8>, lit: Seq<u8>)
    ensures
        take_lit(s, lit) matches Some(rest) ==> s == lit + rest,
{
    if lit.is_prefix_of(s) {
        assert(s =~= lit + s.skip(lit.len() as int));
    }
}

/// Input that begins with another byte does not begin with the given bytes.
pub proof fn lemma_take_lit_mismatch(s: Seq<u8>, lit: Seq<u8>)
    requires
        lit.len() > 0,
        s.len() == 0 || s[0] != lit[0],
    ensures
        take_lit(s, lit) is None,
{
    if lit.is_prefix_of(s) {
        assert(s.subrange(0, lit.len() as int)[0] == lit[0]);
    }
}

/// A byte is read back from in front of any input.
pub proof fn lemma_take_byte(b: u8, rest: Seq<u8>)
    ensures
        take_byte(seq![b] + rest) == Some((b, rest)),
{
    assert((seq![b] + rest).skip(1) =~= rest);
}

/// Bytes are read back from in front of any input.
pub proof fn lemma_take_bytes(x: Seq<u8>, rest: Seq<u8>)
    ensures
        take_bytes(x + rest, x.len()) == Some((x, rest)),
{
    assert((x + rest).take(x.len() as int) =~= x);
    assert((x + rest).skip(x.len() as int) =~= rest);
}

/// What was read, followed by what is left, is the input.
pub proof fn lemma_take_byte_joins(s: Seq<u8>)
    ensures
        take_byte(s) matches Some((b, rest)) ==> s == seq![b] + rest,
{
    if s.len() >= 1 {
        assert(s =~= seq![s[0]] + s.skip(1));
    }
}

/// What was read, followed by what is left, is the input.
pub proof fn lemma_take_bytes_joins(s: Seq<u8>, n: nat)
    ensures
        take_bytes(s, n) matches Some((x, rest)) ==> s == x + rest && x.len() == n,
{
    if s.len() >= n {
        assert(s =~= s.take(n as int) + s.skip(n as int));
    }
}

/// Reads the bytes of a slice from front to back.
pub(crate) struct Reader<'a> {
    bytes: &'a [u8],
    pos: usize,
}

impl<'a> Reader<'a> {
    #[verifier::type_invariant]
    spec fn inv(self) -> bool {
        self.pos <= self.bytes@.len()
    }

    /// The bytes not read yet.
    pub closed spec fn remaining(self) -> Seq<u8> {
        self.bytes@.skip(self.pos as int)
    }

    /// A reader at the start of `bytes`.
    pub(crate) fn new(bytes: &'a [u8]) -> (r: Self)
        ensures
            r.remaining() == bytes@,
    {
        let r = Reader { bytes, pos: 0 };
        assert(bytes@.skip(0) =~= bytes@);
        r
    }

    /// Whether every byte has been read.
    pub(crate) fn at_end(&self) -> (b: bool)
        ensures
            b == (self.remaining().len() == 0),
    {
        proof {
            use_type_invariant(self);
        }
        self.pos == self.bytes.len()
    }

    /// The next byte, without reading it.
    pub(crate) fn peek(&self) -> (r: Option<u8>)
        ensures
            r == (if self.remaining().len() >= 1 {
                Some(self.remaining()[0])
            } else {
                None
            }),
    {
        proof {
            use_type_invariant(self);
        }
        if self.pos < self.bytes.len() {
            Some(self.bytes[self.pos])
        } else {
            None
        }
    }

    /// Reads one byte.
    pub(crate) fn byte(&mut self) -> (r: Option<u8>)
        ensures
            r is Some <==> take_byte(old(self).remaining()) is Some,
            r matches Some(b) ==> take_byte(old(self).remaining()) == Some(
                (b, final(self).remaining()),
            ),
            r is None ==> *final(self) == *old(self),
    {
        proof {
            use_type_invariant(&*self);
        }
        if self.pos < self.bytes.len() {
            let b = self.bytes[self.pos];
            let ghost before = self.remaining();
            self.pos = self.pos + 1;
            proof {
                assert(self.remaining() =~= before.skip(1));
            }
            Some(b)
        } else {
            None
        }
    }

    /// Reads the given ASCII text if the input begins with it, and says
    /// whether it did.
    pub(crate) fn expect(&mut self, lit: &str) -> (found: bool)
        requires
            is_ascii_chars(lit@),
        ensures
            found <==> take_lit(old(self).remaining(), ascii(lit@)) is Some,
            found ==> take_lit(old(self).remaining(), ascii(lit@)) == Some(
                final(self).remaining(),
            ),
            !found ==> *final(self) == *old(self),
    {
        proof {
            use_type_invariant(&*self);
        }
        let want = lit.as_bytes();
        proof {
            is_ascii_chars_encode_utf8(lit@);
            assert(want@ =~= ascii(lit@));
        }
        let n = want.len();
        if self.bytes.len() - self.pos < n {
            return false;
        }
        let ghost before = self.remaining();
        let start = self.pos;
        let mut i: usize = 0;
        while i < n
            invariant
                i <= n == want@.len(),
                start + n <= self.bytes@.len(),
                start + n <= usize::MAX,
                self.pos == start,
                *self == *old(self),
                want@ == ascii(lit@),
                before == old(self).remaining(),
                before == self.bytes@.skip(start as int),
                before.subrange(0, i as int) == want@.subrange(0, i as int),
            decreases n - i,
        {
            if self.bytes[start + i] != want[i] {
                proof {
                    if want@.is_prefix_of(before) {
                        assert(before.subrange(0, n as int)[i as int] == want@[i as int]);
                    }
                }
                return false;
            }
            i += 1;
            proof {
                assert(before.subrange(0, i as int) =~= before.subrange(0, i - 1).push(
                    before[i - 1],
                ));
                assert(want@.subrange(0, i as int) =~= want@.subrange(0, i - 1).push(
                    want@[i - 1],
                ));
            }
        }
        self.pos = start + n;
        proof {
            assert(want@.subrange(0, n as int) =~= want@);
            assert(self.remaining() =~= before.skip(n as int));
        }
        true
    }

    /// Reads `n` bytes.
    pub(crate) fn bytes(&mut self, n: usize) -> (r: Option<Vec<u8>>)
        ensures
            r is Some <==> take_bytes(old(self).remaining(), n as nat) is Some,
            r matches Some(v) ==> take_bytes(old(self).remaining(), n as nat) == Some(
                (v@, final(self).remaining()),
            ),
            r is None ==> *final(self) == *old(self),
    {
        proof {
            use_type_invariant(&*self);
        }
        if self.bytes.len() - self.pos < n {
            return None;
        }
        let ghost before = self.remaining();
        let start = self.pos;
        let mut v: Vec<u8> = Vec::new();
        let mut i: usize = 0;
        while i < n
            invariant
                i <= n,
                start + n <= self.bytes@.len(),
                start + n <= usize::MAX,
                self.pos == start,
                v@ == self.bytes@.subrange(start as int, start + i),
            decreases n - i,
        {
            v.push(self.bytes[start + i]);
            i += 1;
            proof {
                assert(v@ =~= self.bytes@.subrange(start as int, start + i));
            }
        }
        self.pos = start + n;
        proof {
            assert(v@ =~= before.take(n as int));
            assert(self.remaining() =~= before.skip(n as int));
        }
        Some(v)
    }
}

} // verus!
