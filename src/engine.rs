//! The calls into outside code that the codec relies on, each with the
//! contract that the outside code's documentation gives it.

use crate::error::DecodeFault;
use crate::model::{encoding, encoding_unpadded};
use base64::Engine as _;
use rayon::iter::IndexedParallelIterator as _;
use rayon::iter::ParallelIterator as _;
use rayon::slice::ParallelSlice as _;
use vstd::prelude::*;
use vstd::string::StringSliceAdditionalSpecFns;
use vstd::utf8::valid_utf8;

verus! {

/// The `i`-th piece of `s` cut into pieces of `size` bytes; the last piece
/// may be shorter.
pub open spec fn piece(s: Seq<u8>, size: int, i: int) -> Seq<u8> {
    let end = if (i + 1) * size <= s.len() {
        (i + 1) * size
    } else {
        s.len() as int
    };
    s.subrange(i * size, end)
}

/// The number of pieces of `size` bytes that cover `n` bytes.
pub open spec fn piece_count(n: int, size: int) -> int {
    (n + size - 1) / size
}

/// Relies on base64's `STANDARD` engine (standard alphabet, padding on):
/// `encode` returns the padded standard Base64 of its input.
#[verifier::external_body]
pub(crate) fn encode_padded(b: &[u8]) -> (r: String)
    ensures
        r@ == encoding(b@),
{
    base64::engine::general_purpose::STANDARD.encode(b)
}

/// Relies on base64's `STANDARD_NO_PAD` engine (standard alphabet, padding
/// off): `encode` returns the standard Base64 of its input without `=`.
#[verifier::external_body]
pub(crate) fn encode_unpadded(b: &[u8]) -> (r: String)
    ensures
        r@ == encoding_unpadded(b@),
{
    base64::engine::general_purpose::STANDARD_NO_PAD.encode(b)
}

/// Relies on base64's `STANDARD` engine `decode`, whose configuration asks
/// for canonical padding and rejects nonzero trailing bits: it succeeds
/// exactly on the texts that are the padded encoding of some bytes, and then
/// returns those bytes.
#[verifier::external_body]
pub(crate) fn decode_standard(t: &str) -> (r: Result<Vec<u8>, DecodeFault>)
    ensures
        match r {
            Ok(v) => encoding(v@) == t@,
            Err(_) => forall|v: Seq<u8>| #[trigger] encoding(v) != t@,
        },
{
    match base64::engine::general_purpose::STANDARD.decode(t) {
        Ok(v) => Ok(v),
        Err(base64::DecodeError::InvalidByte(offset, byte)) => Err(
            DecodeFault::InvalidByte { offset, byte },
        ),
        Err(base64::DecodeError::InvalidLength(len)) => Err(DecodeFault::InvalidLength { len }),
        Err(base64::DecodeError::InvalidLastSymbol(offset, byte)) => Err(
            DecodeFault::InvalidLastSymbol { offset, byte },
        ),
        Err(base64::DecodeError::InvalidPadding) => Err(DecodeFault::InvalidPadding),
    }
}

/// Relies on `num_cpus::get`: the number of logical CPUs this process may
/// use, which is always at least 1.
#[verifier::external_body]
pub(crate) fn available_cpus() -> (r: usize)
    ensures
        r >= 1,
{
    num_cpus::get()
}

/// Encodes one piece of input without padding; the unit of parallel work.
pub(crate) fn encode_piece(c: &[u8]) -> (r: String)
    ensures
        r@ == encoding_unpadded(c@),
{
    encode_unpadded(c)
}

/// Relies on rayon's `par_chunks(size)`, which cuts the slice into pieces of
/// `size` elements (the last one shorter) and panics on a size of 0, and on
/// `collect` into a `Vec`, which keeps the pieces' order.
#[verifier::external_body]
pub(crate) fn encode_pieces_parallel(s: &[u8], size: usize) -> (r: Vec<String>)
    requires
        size > 0,
    ensures
        r@.len() == piece_count(s@.len() as int, size as int),
        forall|i: int|
            0 <= i < r@.len() ==> (#[trigger] r@[i])@ == encoding_unpadded(
                piece(s@, size as int, i),
            ),
{
    s.par_chunks(size).map(|c| encode_piece(c)).collect()
}

/// Relies on `String::from_utf8`, which accepts every valid UTF-8 byte
/// vector and keeps its bytes; an ASCII byte is the UTF-8 of the character
/// with the same code.
#[verifier::external_body]
pub(crate) fn string_from_ascii(v: Vec<u8>) -> (r: String)
    requires
        forall|i: int| 0 <= i < v@.len() ==> #[trigger] v@[i] < 128,
    ensures
        r@ == v@.map_values(|b: u8| b as char),
{
    String::from_utf8(v).unwrap_or_default()
}

/// Relies on `std::str::from_utf8`: the text whose UTF-8 is `b`, or an
/// error exactly when `b` is not valid UTF-8.
#[verifier::external_body]
pub(crate) fn utf8_text(b: &[u8]) -> (r: Option<&str>)
    ensures
        r is Some <==> valid_utf8(b@),
        match r {
            Some(t) => t.spec_bytes() == b@,
            None => true,
        },
{
    std::str::from_utf8(b).ok()
}

} // verus!
