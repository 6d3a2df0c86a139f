use vstd::prelude::*;
use vstd::utf8::*;

verus! {

/// Number of bytes in the UTF-8 encoding of `t`.
pub open spec fn byte_len(t: Seq<char>) -> nat {
    encode_utf8(t).len()
}

/// `t` holds no NUL character.
pub open spec fn nul_free(t: Seq<char>) -> bool {
    !t.contains('\0')
}

/// Index of the first zero byte of `b`, or `b.len()` when it holds none.
pub open spec fn first_zero(b: Seq<u8>) -> nat
    decreases b.len(),
{
    if b.len() == 0 {
        0
    } else if b[0] == 0 {
        0
    } else {
        1 + first_zero(b.drop_first())
    }
}

/// `first_zero` is the position before which no byte is zero and at which,
/// unless it is the end, a zero byte stands.
pub proof fn lemma_first_zero(b: Seq<u8>)
    ensures
        first_zero(b) <= b.len(),
        forall|i: int| 0 <= i < first_zero(b) ==> b[i] != 0,
        first_zero(b) < b.len() ==> b[first_zero(b) as int] == 0,
    decreases b.len(),
{
    if b.len() > 0 && b[0] != 0 {
        lemma_first_zero(b.drop_first());
        assert forall|i: int| 0 <= i < first_zero(b) implies b[i] != 0 by {
            if i > 0 {
                assert(b[i] == b.drop_first()[i - 1]);
            }
        }
    }
}

/// Any position with the two properties of `lemma_first_zero` is `first_zero`.
pub proof fn lemma_first_zero_unique(b: Seq<u8>, k: int)
    requires
        0 <= k <= b.len(),
        forall|i: int| 0 <= i < k ==> b[i] != 0,
        k < b.len() ==> b[k] == 0,
    ensures
        first_zero(b) == k,
    decreases b.len(),
{
    if b.len() > 0 && k > 0 {
        let t = b.drop_first();
        assert forall|i: int| 0 <= i < k - 1 implies t[i] != 0 by {
            assert(t[i] == b[i + 1]);
        }
        lemma_first_zero_unique(t, k - 1);
    }
}

/// Non-empty text has a non-empty encoding.
pub proof fn lemma_byte_len_positive(t: Seq<char>)
    ensures
        t.len() > 0 <==> byte_len(t) > 0,
{
    if t.len() > 0 {
        assert(t =~= seq![t[0]] + t.drop_first());
        lemma_encode_concat(seq![t[0]], t.drop_first());
        assert(encode_utf8(seq![t[0]]).len() > 0);
    }
}

/// The UTF-8 encoding of a character holds a zero byte only for NUL.
proof fn lemma_encode_scalar_zero(c: char)
    ensures
        encode_scalar(c as u32).contains(0u8) <==> c == '\0',
{
    let v = c as u32;
    let e = encode_scalar(v);
    assert(0xC0u8 | ((v >> 6) & 0x1F) as u8 != 0) by (bit_vector);
    assert(0xE0u8 | ((v >> 12) & 0x0F) as u8 != 0) by (bit_vector);
    assert(0xF0u8 | ((v >> 18) & 0x7) as u8 != 0) by (bit_vector);
    assert(0x80u8 | (v & 0x3F) as u8 != 0) by (bit_vector);
    assert(0x80u8 | ((v >> 6) & 0x3F) as u8 != 0) by (bit_vector);
    assert(0x80u8 | ((v >> 12) & 0x3F) as u8 != 0) by (bit_vector);
    if has_width_1_encoding(v) {
        assert(v <= 0x7F ==> ((v & 0x7F) as u8 == 0 <==> v == 0)) by (bit_vector);
        assert(e[0] == leading_byte_width_1(v));
        if c == '\0' {
            assert(e.contains(0u8));
        }
    } else {
        assert(c != '\0');
        assert(!e.contains(0u8));
    }
}

/// The UTF-8 encoding of `t` holds a zero byte exactly when `t` holds NUL.
pub proof fn lemma_encode_zero_iff_nul(t: Seq<char>)
    ensures
        encode_utf8(t).contains(0u8) <==> t.contains('\0'),
    decreases t.len(),
{
    if t.len() > 0 {
        let head = encode_scalar(t[0] as u32);
        let rest = encode_utf8(t.drop_first());
        lemma_encode_scalar_zero(t[0]);
        lemma_encode_zero_iff_nul(t.drop_first());
        assert(encode_utf8(t) == head + rest);
        if (head + rest).contains(0u8) {
            let i = choose|i: int| 0 <= i < (head + rest).len() && (head + rest)[i] == 0u8;
            if i < head.len() {
                assert(head[i] == 0u8);
            } else {
                assert(rest[i - head.len()] == 0u8);
            }
        }
        if head.contains(0u8) {
            let i = choose|i: int| 0 <= i < head.len() && head[i] == 0u8;
            assert((head + rest)[i] == 0u8);
        }
        if rest.contains(0u8) {
            let i = choose|i: int| 0 <= i < rest.len() && rest[i] == 0u8;
            assert((head + rest)[head.len() + i] == 0u8);
        }
        if t.drop_first().contains('\0') {
            let i = choose|i: int| 0 <= i < t.drop_first().len() && t.drop_first()[i] == '\0';
            assert(t[i + 1] == '\0');
        }
        if t.contains('\0') && t[0] != '\0' {
            let i = choose|i: int| 0 <= i < t.len() && t[i] == '\0';
            assert(t.drop_first()[i - 1] == '\0');
        }
    }
}

/// Encoding distributes over concatenation.
pub proof fn lemma_encode_concat(a: Seq<char>, b: Seq<char>)
    ensures
        encode_utf8(a + b) == encode_utf8(a) + encode_utf8(b),
    decreases a.len(),
{
    if a.len() == 0 {
        assert(a + b =~= b);
        assert(encode_utf8(a) + encode_utf8(b) =~= encode_utf8(b));
    } else {
        lemma_encode_concat(a.drop_first(), b);
        assert((a + b).drop_first() =~= a.drop_first() + b);
        assert((a + b)[0] == a[0]);
        let h = encode_scalar(a[0] as u32);
        assert(h + (encode_utf8(a.drop_first()) + encode_utf8(b)) =~= (h + encode_utf8(
            a.drop_first(),
        )) + encode_utf8(b));
    }
}

} // verus!
