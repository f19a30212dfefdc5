//! Errors reported by the codec.

use vstd::prelude::*;

verus! {

/// Why a text was not accepted as standard Base64.
#[derive(Debug, Clone, Copy, PartialEq, Eq, Structural)]
pub enum DecodeFault {
    /// A byte outside the alphabet, or a `=` that is not trailing padding.
    InvalidByte { offset: usize, byte: u8 },
    /// The number of alphabet symbols cannot be the encoding of any bytes.
    InvalidLength { len: usize },
    /// The last symbol carries bits that no byte sequence produces.
    InvalidLastSymbol { offset: usize, byte: u8 },
    /// Padding is missing or wrong.
    InvalidPadding,
}

/// The failures of the in-memory and block operations.
#[derive(Debug, Clone, Copy, PartialEq, Eq, Structural)]
pub enum CodecError {
    /// The input is longer than the in-memory limit.
    TooLarge,
    /// A text to decode whose length is not a multiple of four.
    InvalidLength,
    /// A text to decode that is not standard Base64.
    InvalidBase64(DecodeFault),
    /// A block of text to decode that is not UTF-8.
    InvalidUtf8,
}

} // verus!
