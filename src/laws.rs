use vstd::prelude::*;

use crate::errors::DecodeError;
use crate::raw_array_string::{decode_result, RawArrayString};
use crate::text::{byte_len, lemma_byte_len_positive};

verus! {

/// The text of any value, read out and decoded again for the same capacity,
/// is accepted and gives back that text.
pub proof fn lemma_round_trip<const N: usize>(x: RawArrayString<N>)
    requires
        x.wf(),
    ensures
        decode_result::<N>(x@) == Ok::<Seq<char>, DecodeError>(x@),
{
    x.lemma_fits();
}

/// A full value takes an append exactly when the appended text is empty.
pub proof fn lemma_full_takes_only_empty<const N: usize>(x: RawArrayString<N>, t: Seq<char>)
    requires
        byte_len(x@) == N,
    ensures
        byte_len(x@) + byte_len(t) <= N <==> t.len() == 0,
{
    lemma_byte_len_positive(t);
}

/// With capacity zero the text is always empty, and only empty text can be
/// appended.
pub proof fn lemma_zero_capacity(x: RawArrayString<0>, t: Seq<char>)
    requires
        x.wf(),
    ensures
        x@.len() == 0,
        byte_len(x@) + byte_len(t) <= 0 <==> t.len() == 0,
{
    x.lemma_fits();
    lemma_byte_len_positive(x@);
    lemma_byte_len_positive(t);
}

/// A copy shows the same text as its source.
pub proof fn lemma_copy_same_text<const N: usize>(src: RawArrayString<N>, copy: RawArrayString<N>)
    requires
        copy == src,
    ensures
        copy@ == src@,
{
}

} // verus!
