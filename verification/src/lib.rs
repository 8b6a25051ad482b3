//! Deterministic encoding of phrases, usernames and secret values into
//! BN254 scalar-field elements, as consumed by a folding-scheme circuit.
//!
//! The crate packs bounded-length byte strings into 32-byte big-endian
//! buffers whose leading byte is zero, so that every encoded integer lies
//! strictly below the field modulus, and assembles one step's ten field
//! elements (six phrase chunks, two usernames, two secrets) with random
//! chaff filling the slots that carry no data.
use vstd::prelude::*;

pub mod bignat;
pub mod field;
pub mod inputs;

verus! {

/// Number of field elements a phrase is split into.
pub const SECRET_FIELD_LENGTH: usize = 6;

/// Greatest phrase length, in bytes, that the encoder accepts.
pub const MAX_SECRET_LENGTH: usize = 180;

/// Greatest username length, in bytes, that the encoder accepts.
pub const MAX_USERNAME_LENGTH: usize = 30;

} // verus!
