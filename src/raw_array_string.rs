use vstd::prelude::*;
use vstd::string::StringSliceAdditionalSpecFns;
use vstd::utf8::*;

use crate::errors::{CapacityError, DecodeError, InvalidEncoding};
use crate::text::{
    byte_len, first_zero, lemma_encode_concat, lemma_encode_zero_iff_nul, lemma_first_zero,
    lemma_byte_len_positive, lemma_first_zero_unique, nul_free,
};

verus! {

/// Relies on std::str::from_utf8: it accepts exactly the valid UTF-8 byte
/// sequences and then hands back the same bytes as text.
#[verifier::external_body]
fn utf8_text(b: &[u8]) -> (r: Option<&str>)
    ensures
        r is Some <==> valid_utf8(b@),
        r matches Some(t) ==> t.spec_bytes() == b@,
{
    match std::str::from_utf8(b) {
        Ok(t) => Some(t),
        Err(_) => None,
    }
}

/// A string of at most `N` bytes of UTF-8, stored inline.
///
/// The text is the part of the buffer before its first zero byte (all of it
/// when there is none). Because a zero byte ends the text, stored text can
/// never contain the NUL character: the operations that take text ask for
/// NUL-free input.
#[derive(Clone, Copy)]
pub struct RawArrayString<const N: usize> {
    xs: [u8; N],
}

impl<const N: usize> RawArrayString<N> {
    /// The bytes of the text: the buffer up to its first zero byte.
    pub closed spec fn bytes(&self) -> Seq<u8> {
        self.xs@.take(first_zero(self.xs@) as int)
    }

    /// The value is well formed: its text bytes are valid UTF-8. Every value
    /// has this property.
    #[verifier::type_invariant]
    pub closed spec fn wf(&self) -> bool {
        valid_utf8(self.bytes())
    }

    /// What the invariant gives about a value: its text bytes are the UTF-8
    /// encoding of its view, hold no zero, and are followed by a zero byte
    /// unless they fill the buffer.
    proof fn lemma_layout(&self)
        requires
            self.wf(),
        ensures
            self.xs@.len() == N,
            self.bytes().len() == first_zero(self.xs@),
            self.bytes().len() <= N,
            self.bytes() == encode_utf8(self@),
            byte_len(self@) == self.bytes().len(),
            nul_free(self@),
            forall|i: int| 0 <= i < self.bytes().len() ==> self.xs@[i] != 0,
            forall|i: int| 0 <= i < self.bytes().len() ==> #[trigger] self.bytes()[i] == self.xs@[i],
            self.bytes().len() < N ==> self.xs@[self.bytes().len() as int] == 0,
    {
        lemma_first_zero(self.xs@);
        decode_utf8_encode_utf8(self.bytes());
        lemma_encode_zero_iff_nul(self@);
        if self.bytes().contains(0u8) {
            let i = choose|i: int| 0 <= i < self.bytes().len() && self.bytes()[i] == 0u8;
            assert(self.xs@[i] == 0);
        }
    }

    /// Every value's text fits the capacity and holds no NUL character.
    pub proof fn lemma_fits(&self)
        requires
            self.wf(),
        ensures
            byte_len(self@) <= N,
            nul_free(self@),
    {
        self.lemma_layout();
    }

    /// A buffer whose bytes before the first zero are valid UTF-8 is a
    /// valid value, with those bytes as its text.
    proof fn lemma_from_buffer(xs: [u8; N], text: Seq<u8>)
        requires
            valid_utf8(text),
            text.len() <= N,
            forall|i: int| 0 <= i < text.len() ==> xs@[i] == text[i] && text[i] != 0,
            text.len() < N ==> xs@[text.len() as int] == 0,
        ensures
            first_zero(xs@) == text.len(),
            xs@.take(first_zero(xs@) as int) == text,
    {
        assert forall|i: int| 0 <= i < text.len() implies xs@[i] != 0 by {
            assert(xs@[i] == text[i]);
        }
        lemma_first_zero_unique(xs@, text.len() as int);
        assert(xs@.take(text.len() as int) =~= text);
    }

    /// An empty string.
    pub fn new() -> (r: Self)
        ensures
            r@ == Seq::<char>::empty(),
    {
        let xs: [u8; N] = [0u8; N];
        proof {
            lemma_first_zero(xs@);
            if N > 0 {
                assert(xs@[0] == 0);
            }
            assert(xs@.take(first_zero(xs@) as int) =~= Seq::<u8>::empty());
        }
        RawArrayString { xs }
    }

    /// Length of the text in bytes, found by scanning for the first zero byte.
    pub fn len(&self) -> (r: usize)
        ensures
            r == byte_len(self@),
            r <= N,
    {
        proof {
            use_type_invariant(self);
            self.lemma_layout();
        }
        let mut i: usize = 0;
        while i < N
            invariant
                i <= N,
                self.xs@.len() == N,
                byte_len(self@) == first_zero(self.xs@),
                forall|j: int| 0 <= j < i ==> self.xs@[j] != 0,
            decreases N - i,
        {
            if self.xs[i] == 0 {
                proof {
                    lemma_first_zero_unique(self.xs@, i as int);
                }
                return i;
            }
            i += 1;
        }
        proof {
            lemma_first_zero_unique(self.xs@, N as int);
        }
        N
    }

    /// Whether the text is empty.
    pub fn is_empty(&self) -> (r: bool)
        ensures
            r == (self@.len() == 0),
    {
        proof {
            use_type_invariant(self);
            self.lemma_layout();
            lemma_byte_len_positive(self@);
        }
        N == 0 || self.xs[0] == 0
    }

    /// The text, read in place.
    pub fn as_str(&self) -> (r: &str)
        ensures
            r@ == self@,
    {
        let len = self.len();
        proof {
            use_type_invariant(self);
            self.lemma_layout();
            assert(self.xs@.subrange(0, len as int) == self.bytes());
        }
        let b: &[u8] = &self.xs[0..len];
        match utf8_text(b) {
            Some(t) => {
                proof {
                    encode_utf8_decode_utf8(t@);
                }
                t
            },
            None => {
                proof {
                    use_type_invariant(self);
                }
                ""
            },
        }
    }

    /// A string holding `s`, or the rejected `s` when it is longer than `N`
    /// bytes.
    pub fn from(s: &str) -> (r: Result<Self, CapacityError<&str>>)
        requires
            nul_free(s@),
        ensures
            r is Ok <==> byte_len(s@) <= N,
            r matches Ok(v) ==> v@ == s@,
            r matches Err(e) ==> e.element == s,
    {
        let mut v = Self::new();
        match v.try_push_str(s) {
            Ok(()) => {
                assert(Seq::<char>::empty() + s@ =~= s@);
                Ok(v)
            },
            Err(e) => Err(e),
        }
    }

    /// Make the text empty. Only the first byte is written.
    pub fn clear(&mut self)
        ensures
            final(self)@ == Seq::<char>::empty(),
    {
        if N > 0 {
            let mut xs = self.xs;
            xs[0] = 0;
            proof {
                Self::lemma_from_buffer(xs, Seq::<u8>::empty());
            }
            self.xs = xs;
        } else {
            proof {
                Self::lemma_from_buffer(self.xs, Seq::<u8>::empty());
            }
        }
    }

    /// Append `s` when it fits in the room left; otherwise hand it back and
    /// leave the value as it was.
    ///
    /// When `s` exactly fills the room left no terminating zero is written.
    /// `s` must not contain NUL, whose encoding is the terminating zero.
    pub fn try_push_str<'a>(&mut self, s: &'a str) -> (r: Result<(), CapacityError<&'a str>>)
        requires
            nul_free(s@),
        ensures
            r is Ok <==> byte_len(old(self)@) + byte_len(s@) <= N,
            r is Ok ==> final(self)@ == old(self)@ + s@,
            r matches Err(e) ==> e.element == s && *final(self) == *old(self),
    {
        proof {
            use_type_invariant(&*self);
            self.lemma_layout();
            lemma_encode_zero_iff_nul(s@);
        }
        let len = self.len();
        let b = s.as_bytes();
        let n = b.len();
        if n > N - len {
            return Err(CapacityError::new(s));
        }
        let ghost old_bytes = self.bytes();
        let mut xs = self.xs;
        let mut i: usize = 0;
        while i < n
            invariant
                len + n <= N,
                len == old_bytes.len(),
                n == b@.len(),
                i <= n,
                xs@.len() == N,
                forall|j: int| 0 <= j < len ==> xs@[j] == old_bytes[j],
                forall|j: int| 0 <= j < i ==> xs@[len + j] == b@[j],
            decreases n - i,
        {
            xs[len + i] = b[i];
            i += 1;
        }
        if n < N - len {
            xs[len + n] = 0;
        }
        proof {
            let text = old_bytes + b@;
            assert forall|j: int| 0 <= j < text.len() implies xs@[j] == text[j] && text[j] != 0 by {
                if j >= len {
                    assert(xs@[len + (j - len)] == b@[j - len]);
                    if b@[j - len] == 0 {
                        assert(b@.contains(0u8));
                    }
                }
            }
            encode_utf8_valid_utf8(s@);
            valid_utf8_concat(old_bytes, b@);
            Self::lemma_from_buffer(xs, text);
            lemma_encode_concat(old(self)@, s@);
            encode_utf8_decode_utf8(old(self)@ + s@);
        }
        self.xs = xs;
        Ok(())
    }

    /// Append `s`, which the caller knows to fit.
    pub fn push_str(&mut self, s: &str)
        requires
            nul_free(s@),
            byte_len(old(self)@) + byte_len(s@) <= N,
        ensures
            final(self)@ == old(self)@ + s@,
    {
        match self.try_push_str(s) {
            Ok(()) => {},
            Err(_) => {},
        }
    }

    /// Whether the text fills the whole capacity.
    pub fn is_full(&self) -> (r: bool)
        ensures
            r == (byte_len(self@) == N),
    {
        self.len() == self.capacity()
    }

    /// A string over a whole raw buffer, or an error when the buffer is not
    /// valid UTF-8.
    ///
    /// The buffer is taken as it is: when it holds a zero byte, the text is
    /// what comes before the first one.
    pub fn from_byte_string(b: &[u8; N]) -> (r: Result<Self, InvalidEncoding>)
        ensures
            r is Ok <==> valid_utf8(b@),
            r matches Ok(v) ==> v@ == decode_utf8(b@.take(first_zero(b@) as int)),
    {
        match utf8_text(b.as_slice()) {
            Some(_) => {
                proof {
                    let k = first_zero(b@) as int;
                    lemma_first_zero(b@);
                    if k < N {
                        is_char_boundary_iff_is_leading_byte(b@, k);
                        valid_utf8_split(b@, k);
                    } else {
                        assert(b@.take(k) =~= b@);
                    }
                }
                Ok(RawArrayString { xs: *b })
            },
            None => Err(InvalidEncoding),
        }
    }

    /// Build a value from text in a serialized form: the error tells the
    /// text's length and the capacity when it is too long, and marks a text
    /// that holds a NUL character as an invalid value.
    pub fn decode_str(v: &str) -> (r: Result<Self, DecodeError>)
        ensures
            match r {
                Ok(x) => decode_result::<N>(v@) == Ok::<Seq<char>, DecodeError>(x@),
                Err(e) => decode_result::<N>(v@) == Err::<Seq<char>, DecodeError>(e),
            },
    {
        let b = v.as_bytes();
        let len = b.len();
        if len > N {
            return Err(DecodeError::InvalidLength { len, capacity: N });
        }
        if has_zero_byte(b) {
            proof {
                lemma_encode_zero_iff_nul(v@);
            }
            return Err(DecodeError::InvalidValue);
        }
        proof {
            lemma_encode_zero_iff_nul(v@);
        }
        match Self::from(v) {
            Ok(x) => Ok(x),
            Err(_) => Err(DecodeError::InvalidLength { len, capacity: N }),
        }
    }

    /// Build a value from bytes in a serialized form: bytes that are not
    /// UTF-8 are an invalid value; text is then taken as by `decode_str`.
    pub fn decode_bytes(v: &[u8]) -> (r: Result<Self, DecodeError>)
        ensures
            !valid_utf8(v@) ==> r == Err::<Self, DecodeError>(DecodeError::InvalidValue),
            valid_utf8(v@) ==> match r {
                Ok(x) => decode_result::<N>(decode_utf8(v@)) == Ok::<Seq<char>, DecodeError>(x@),
                Err(e) => decode_result::<N>(decode_utf8(v@)) == Err::<Seq<char>, DecodeError>(e),
            },
    {
        match utf8_text(v) {
            Some(t) => {
                proof {
                    encode_utf8_decode_utf8(t@);
                }
                Self::decode_str(t)
            },
            None => Err(DecodeError::InvalidValue),
        }
    }

    /// An owned copy of the text.
    pub fn to_string(&self) -> (r: String)
        ensures
            r@ == self@,
    {
        self.as_str().to_owned()
    }

    /// The fixed capacity in bytes.
    pub fn capacity(&self) -> (r: usize)
        ensures
            r == N,
    {
        N
    }
}

/// What decoding the serialized text `t` gives for capacity `N`: the text
/// itself when it fits and holds no NUL character.
pub open spec fn decode_result<const N: usize>(t: Seq<char>) -> Result<Seq<char>, DecodeError> {
    if byte_len(t) > N {
        Err(DecodeError::InvalidLength { len: byte_len(t) as usize, capacity: N })
    } else if !nul_free(t) {
        Err(DecodeError::InvalidValue)
    } else {
        Ok(t)
    }
}

/// Whether `b` holds a zero byte.
fn has_zero_byte(b: &[u8]) -> (r: bool)
    ensures
        r == b@.contains(0u8),
{
    let mut i: usize = 0;
    while i < b.len()
        invariant
            i <= b@.len(),
            forall|j: int| 0 <= j < i ==> b@[j] != 0,
        decreases b@.len() - i,
    {
        if b[i] == 0 {
            return true;
        }
        i += 1;
    }
    false
}

/// Whether `a` and `b` hold the same bytes.
fn bytes_eq(a: &[u8], b: &[u8]) -> (r: bool)
    ensures
        r == (a@ == b@),
{
    if a.len() != b.len() {
        return false;
    }
    let mut i: usize = 0;
    while i < a.len()
        invariant
            a@.len() == b@.len(),
            i <= a@.len(),
            forall|j: int| 0 <= j < i ==> a@[j] == b@[j],
        decreases a@.len() - i,
    {
        if a[i] != b[i] {
            return false;
        }
        i += 1;
    }
    assert(a@ =~= b@);
    true
}

/// Whether two texts are equal, compared through their encodings.
fn str_eq(a: &str, b: &str) -> (r: bool)
    ensures
        r == (a@ == b@),
{
    proof {
        encode_utf8_decode_utf8(a@);
        encode_utf8_decode_utf8(b@);
    }
    bytes_eq(a.as_bytes(), b.as_bytes())
}

impl<const N: usize> Default for RawArrayString<N> {
    /// An empty string.
    fn default() -> (r: Self)
        ensures
            r@ == Seq::<char>::empty(),
    {
        Self::new()
    }
}

impl<const N: usize> PartialEq for RawArrayString<N> {
    /// Two values are equal when their texts are, whatever lies past them.
    fn eq(&self, rhs: &Self) -> (r: bool) {
        str_eq(self.as_str(), rhs.as_str())
    }
}

impl<const N: usize> vstd::std_specs::cmp::PartialEqSpecImpl for RawArrayString<N> {
    open spec fn obeys_eq_spec() -> bool {
        true
    }

    open spec fn eq_spec(&self, rhs: &Self) -> bool {
        self@ == rhs@
    }
}

impl<const N: usize> PartialEq<str> for RawArrayString<N> {
    /// A value equals a text when its own text is that text.
    fn eq(&self, rhs: &str) -> (r: bool) {
        str_eq(self.as_str(), rhs)
    }
}

impl<const N: usize> vstd::std_specs::cmp::PartialEqSpecImpl<str> for RawArrayString<N> {
    open spec fn obeys_eq_spec() -> bool {
        true
    }

    open spec fn eq_spec(&self, rhs: &str) -> bool {
        self@ == rhs@
    }
}

impl<const N: usize> PartialEq<RawArrayString<N>> for str {
    /// A text equals a value when it is that value's text.
    fn eq(&self, rhs: &RawArrayString<N>) -> (r: bool) {
        str_eq(self, rhs.as_str())
    }
}

impl<const N: usize> vstd::std_specs::cmp::PartialEqSpecImpl<RawArrayString<N>> for str {
    open spec fn obeys_eq_spec() -> bool {
        true
    }

    open spec fn eq_spec(&self, rhs: &RawArrayString<N>) -> bool {
        self@ == rhs@
    }
}

impl<const N: usize> View for RawArrayString<N> {
    type V = Seq<char>;

    closed spec fn view(&self) -> Seq<char> {
        decode_utf8(self.bytes())
    }
}

} // verus!
