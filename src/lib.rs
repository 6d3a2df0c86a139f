//! A fixed-capacity UTF-8 string stored inline in a byte array.
//!
//! The current length is not stored: it is the position of the first zero
//! byte in the buffer, or the whole capacity when the buffer holds none.
//! Stored text therefore never contains the NUL character.
mod errors;
mod laws;
mod raw_array_string;
mod text;

pub use crate::errors::{CapacityError, DecodeError, InvalidEncoding};
pub use crate::raw_array_string::{decode_result, RawArrayString};
pub use crate::laws::{
    lemma_copy_same_text, lemma_full_takes_only_empty, lemma_round_trip, lemma_zero_capacity,
};
pub use crate::text::{byte_len, first_zero, nul_free};
