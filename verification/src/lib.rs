//! Base85 codec for the RFC 1924 variant.
//!
//! `encode` turns a byte slice into a string over a fixed 85-character
//! alphabet; `decode` reverses the transformation exactly, skipping a fixed
//! set of whitespace bytes in its input.

use vstd::prelude::*;

pub mod alphabet;
mod arith;
mod codec;
pub mod laws;
pub mod model;

pub use alphabet::byte_to_char85;
pub use alphabet::char85_to_byte;
pub use codec::decode;
pub use codec::encode;

verus! {

/// The ways a `decode` call can fail.
#[derive(Clone, Copy, Debug, PartialEq, Eq, Structural)]
pub enum Error {
    /// The symbol stream ended with a single trailing symbol, which no
    /// encoder output can produce.
    UnexpectedEof,
    /// A non-whitespace byte outside the 85-character alphabet.
    InvalidCharacter(u8),
}

} // verus!
