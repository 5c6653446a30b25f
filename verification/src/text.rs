//! Fixed-capacity UTF-8 text, the shape every string on the wire has.
//!
//! Capacities are counted in bytes of UTF-8, one per ASCII character, so that
//! every message has an encoding of bounded size.

use vstd::prelude::*;
use vstd::utf8::{decode_utf8, encode_utf8, valid_utf8};

verus! {

/// A text of at most `N` bytes of UTF-8, held in place.
///
/// The unused tail of the buffer is zero, so two values are equal exactly
/// when their texts are (`lemma_equal_by_view`).
#[derive(Clone, Copy, Debug, PartialEq, Eq)]
pub struct BoundedString<const N: usize> {
    len: usize,
    bytes: [u8; N],
}

impl<const N: usize> View for BoundedString<N> {
    type V = Seq<u8>;

    /// The UTF-8 bytes of the text.
    closed spec fn view(&self) -> Seq<u8> {
        self.bytes@.subrange(0, self.len as int)
    }
}

/// Whether a byte string can be held by a text of capacity `cap`.
pub open spec fn fits(s: Seq<u8>, cap: nat) -> bool {
    s.len() <= cap && valid_utf8(s)
}

/// Converts bytes to a `String` through `String::from_utf8`: `Some` exactly
/// for valid UTF-8, and then the string whose characters the bytes encode.
#[verifier::external_body]
pub(crate) fn string_from_utf8(bytes: Vec<u8>) -> (r: Option<String>)
    ensures
        r is Some <==> valid_utf8(bytes@),
        r matches Some(s) ==> s@ == decode_utf8(bytes@),
{
    String::from_utf8(bytes).ok()
}

impl<const N: usize> BoundedString<N> {
    /// Validity: the length is within capacity, the text is UTF-8 and the
    /// tail of the buffer is zero.
    #[verifier::type_invariant]
    pub closed spec fn wf(self) -> bool {
        &&& self.len <= N
        &&& valid_utf8(self.bytes@.subrange(0, self.len as int))
        &&& forall|i: int| self.len <= i < N ==> self.bytes[i] == 0
    }

    /// The valid text with the given bytes, where they fit.
    pub closed spec fn of(s: Seq<u8>) -> Self {
        choose|t: Self| t.wf() && t@ == s
    }

    /// A valid text fits its capacity.
    pub proof fn lemma_wf_fits(self)
        requires
            self.wf(),
        ensures
            fits(self@, N as nat),
    {
    }

    /// `of` gives back the valid text it was handed the bytes of.
    pub proof fn lemma_of_view(self)
        requires
            self.wf(),
        ensures
            Self::of(self@) == self,
    {
        let t = Self::of(self@);
        assert(t.wf() && t@ == self@);
        lemma_equal_by_view(t, self);
    }

    /// The empty text.
    pub fn new() -> (r: Self)
        ensures
            r@ == Seq::<u8>::empty(),
            r.wf(),
    {
        let r = BoundedString { len: 0, bytes: [0u8; N] };
        proof {
            assert(r.bytes@.subrange(0, 0) =~= Seq::<u8>::empty());
            assert(valid_utf8(Seq::<u8>::empty()));
        }
        r
    }

    /// The text with the given bytes: `Some` exactly when they are at most
    /// `N` bytes of valid UTF-8.
    pub fn from_bytes(src: &[u8]) -> (r: Option<Self>)
        ensures
            r is Some <==> fits(src@, N as nat),
            r matches Some(t) ==> t.wf() && t@ == src@ && t == Self::of(src@),
    {
        if src.len() > N {
            return None;
        }
        let mut copy: Vec<u8> = Vec::new();
        let mut bytes = [0u8; N];
        let mut i: usize = 0;
        while i < src.len()
            invariant
                i <= src.len() <= N,
                copy@ == src@.subrange(0, i as int),
                bytes@.subrange(0, i as int) == src@.subrange(0, i as int),
                forall|j: int| i <= j < N ==> bytes[j] == 0,
            decreases src.len() - i,
        {
            copy.push(src[i]);
            bytes[i] = src[i];
            i += 1;
            proof {
                assert(copy@ =~= src@.subrange(0, i as int));
                assert(bytes@.subrange(0, i as int) =~= src@.subrange(0, i as int));
            }
        }
        proof {
            assert(src@.subrange(0, i as int) =~= src@);
        }
        match string_from_utf8(copy) {
            None => None,
            Some(_) => {
                let t = BoundedString { len: src.len(), bytes };
                proof {
                    t.lemma_of_view();
                }
                Some(t)
            },
        }
    }

    /// The text of a string slice: `Some` exactly when its UTF-8 form is at
    /// most `N` bytes long.
    pub fn from_str(s: &str) -> (r: Option<Self>)
        ensures
            r is Some <==> encode_utf8(s@).len() <= N,
            r matches Some(t) ==> t.wf() && t@ == encode_utf8(s@),
    {
        proof {
            vstd::utf8::encode_utf8_valid_utf8(s@);
        }
        Self::from_bytes(s.as_bytes())
    }

    /// Number of bytes of the text.
    pub fn len(&self) -> (n: usize)
        ensures
            n == self@.len(),
            n <= N,
    {
        proof {
            use_type_invariant(self);
        }
        self.len
    }

    /// Whether the text is empty.
    pub fn is_empty(&self) -> (b: bool)
        ensures
            b == (self@.len() == 0),
    {
        proof {
            use_type_invariant(self);
        }
        self.len == 0
    }

    /// The byte at position `i`.
    pub fn byte(&self, i: usize) -> (b: u8)
        requires
            i < self@.len(),
        ensures
            b == self@[i as int],
    {
        proof {
            use_type_invariant(self);
        }
        self.bytes[i]
    }

    /// The bytes of the text.
    pub fn as_bytes(&self) -> (v: Vec<u8>)
        ensures
            v@ == self@,
            self.wf(),
    {
        proof {
            use_type_invariant(self);
        }
        let mut v: Vec<u8> = Vec::new();
        let mut i: usize = 0;
        while i < self.len
            invariant
                i <= self.len <= N,
                v@ == self.bytes@.subrange(0, i as int),
            decreases self.len - i,
        {
            v.push(self.bytes[i]);
            i += 1;
            proof {
                assert(v@ =~= self.bytes@.subrange(0, i as int));
            }
        }
        v
    }

    /// The text as a `String`.
    pub fn to_string(&self) -> (s: String)
        ensures
            s@ == decode_utf8(self@),
    {
        proof {
            use_type_invariant(self);
        }
        match string_from_utf8(self.as_bytes()) {
            Some(s) => s,
            None => String::new(),
        }
    }

    /// States the validity of a value at hand.
    pub fn valid(&self)
        ensures
            self.wf(),
            fits(self@, N as nat),
    {
        proof {
            use_type_invariant(self);
        }
    }
}

/// Two valid texts with the same bytes are the same value.
pub proof fn lemma_equal_by_view<const N: usize>(a: BoundedString<N>, b: BoundedString<N>)
    requires
        a.wf(),
        b.wf(),
        a@ == b@,
    ensures
        a == b,
{
    assert(a@.len() == a.len);
    assert(b@.len() == b.len);
    assert forall|i: int| 0 <= i < N implies a.bytes[i] == b.bytes[i] by {
        if i < a.len {
            assert(a@[i] == a.bytes@[i]);
            assert(b@[i] == b.bytes@[i]);
        } else {
            assert(a.bytes[i] == 0);
            assert(b.bytes[i] == 0);
        }
    }
    assert(a.bytes =~= b.bytes);
}

} // verus!
