//! Single-pass encoding and decoding: the fallback of every strategy, and the
//! only decoder.

use crate::engine::{decode_standard, encode_padded};
use crate::error::CodecError;
use crate::model::{encoding, is_encoding};
use vstd::prelude::*;

verus! {

/// Encodes `input` in one pass, with padding.
pub fn encode_sequential(input: &[u8]) -> (r: String)
    ensures
        r@ == encoding(input@),
{
    encode_padded(input)
}

/// Decodes `text` in one pass: the bytes whose encoding it is, or
/// `InvalidBase64` where it is the encoding of no bytes.
pub fn decode_sequential(text: &str) -> (r: Result<Vec<u8>, CodecError>)
    ensures
        r is Ok <==> is_encoding(text@),
        match r {
            Ok(v) => encoding(v@) == text@,
            Err(e) => e is InvalidBase64,
        },
{
    match decode_standard(text) {
        Ok(v) => Ok(v),
        Err(f) => Err(CodecError::InvalidBase64(f)),
    }
}

} // verus!
