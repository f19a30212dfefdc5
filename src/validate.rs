//! Cheap checks of input sizes, made before any work starts.

use crate::config::MAX_INPUT_SIZE;
use crate::error::CodecError;
use vstd::prelude::*;

verus! {

/// Whether a text of `len` bytes has a length that Base64 can have.
pub fn is_valid_base64_length(len: usize) -> (r: bool)
    ensures
        r == (len % 4 == 0),
{
    len % 4 == 0
}

/// Accepts an input to encode of `len` bytes, unless it exceeds the limit.
pub fn validate_encode_input(len: usize) -> (r: Result<(), CodecError>)
    ensures
        r == (if len > MAX_INPUT_SIZE {
            Err::<(), CodecError>(CodecError::TooLarge)
        } else {
            Ok(())
        }),
{
    if len > MAX_INPUT_SIZE {
        Err(CodecError::TooLarge)
    } else {
        Ok(())
    }
}

/// Accepts a text to decode of `len` bytes, unless it exceeds the limit or
/// its length is not a multiple of four.
pub fn validate_decode_input(len: usize) -> (r: Result<(), CodecError>)
    ensures
        r == (if len > MAX_INPUT_SIZE {
            Err::<(), CodecError>(CodecError::TooLarge)
        } else if len % 4 != 0 {
            Err(CodecError::InvalidLength)
        } else {
            Ok(())
        }),
        len % 4 != 0 ==> r is Err,
{
    if len > MAX_INPUT_SIZE {
        Err(CodecError::TooLarge)
    } else if !is_valid_base64_length(len) {
        Err(CodecError::InvalidLength)
    } else {
        Ok(())
    }
}

} // verus!
