//! The entry points: strategy selection by input size, and the in-memory
//! encode and decode operations built on it.

use crate::config::{
    LARGE_THRESHOLD, MAX_INPUT_SIZE, MAX_THREADS, MIN_CHUNK_SIZE, MULTITHREAD_THRESHOLD,
};
use crate::engine::available_cpus;
use crate::error::CodecError;
use crate::model::{encoding, is_encoding};
use crate::parallel::encode_multithreaded;
use crate::pipeline::encode_pipelined;
use crate::sequential::{decode_sequential, encode_sequential};
use crate::validate::{validate_decode_input, validate_encode_input};
use vstd::prelude::*;
use vstd::string::StringSliceAdditionalSpecFns;

verus! {

/// How an input is encoded.
#[derive(Debug, Clone, Copy, PartialEq, Eq, Structural)]
pub enum Strategy {
    /// One pass over the whole input.
    Sequential,
    /// Chunks encoded in parallel on `threads` threads, joined in order.
    Parallel { threads: usize },
    /// Fixed-size jobs written by offset into one buffer.
    Pipeline,
}

/// The strategy for an input of `len` bytes when `cpus` threads are
/// available.
pub open spec fn strategy_for(len: int, cpus: int) -> Strategy {
    if len < MULTITHREAD_THRESHOLD {
        Strategy::Sequential
    } else if len < LARGE_THRESHOLD {
        Strategy::Parallel {
            threads: (if cpus < MAX_THREADS {
                cpus
            } else {
                MAX_THREADS as int
            }) as usize,
        }
    } else {
        Strategy::Pipeline
    }
}

/// The thread count that an explicit request of `threads` turns into.
pub open spec fn clamped_threads(threads: int) -> int {
    if threads < 1 {
        1
    } else if threads > 2 * MAX_THREADS {
        2 * MAX_THREADS as int
    } else {
        threads
    }
}

/// The strategy for an input of `len` bytes when the caller asks for
/// `threads` threads.
pub open spec fn strategy_with_threads(len: int, threads: int) -> Strategy {
    let n = clamped_threads(threads);
    if n == 1 || len < MIN_CHUNK_SIZE {
        Strategy::Sequential
    } else {
        Strategy::Parallel { threads: n as usize }
    }
}

/// Picks the strategy for an input of `len` bytes with `cpus` threads
/// available.
pub fn select_strategy(len: usize, cpus: usize) -> (r: Strategy)
    ensures
        r == strategy_for(len as int, cpus as int),
{
    if len < MULTITHREAD_THRESHOLD {
        Strategy::Sequential
    } else if len < LARGE_THRESHOLD {
        let threads = if cpus < MAX_THREADS {
            cpus
        } else {
            MAX_THREADS
        };
        Strategy::Parallel { threads }
    } else {
        Strategy::Pipeline
    }
}

/// Picks the strategy for an input of `len` bytes when the caller asks for
/// `threads` threads.
pub fn select_strategy_with_threads(len: usize, threads: usize) -> (r: Strategy)
    ensures
        r == strategy_with_threads(len as int, threads as int),
{
    let n = if threads < 1 {
        1
    } else if threads > 2 * MAX_THREADS {
        2 * MAX_THREADS
    } else {
        threads
    };
    if n == 1 || len < MIN_CHUNK_SIZE {
        Strategy::Sequential
    } else {
        Strategy::Parallel { threads: n }
    }
}

/// Encodes `data` by the strategy `s`; every strategy gives the padded
/// encoding.
pub fn encode_by(data: &[u8], s: Strategy) -> (r: String)
    requires
        data@.len() <= MAX_INPUT_SIZE,
    ensures
        r@ == encoding(data@),
{
    match s {
        Strategy::Sequential => encode_sequential(data),
        Strategy::Parallel { threads } => {
            let n = if threads < 1 {
                1
            } else {
                threads
            };
            encode_multithreaded(data, n)
        },
        Strategy::Pipeline => encode_pipelined(data),
    }
}

/// Encodes `data` as padded standard Base64, choosing the strategy by its
/// size; fails with `TooLarge` exactly when it exceeds `MAX_INPUT_SIZE`.
pub fn encode(data: &[u8]) -> (r: Result<String, CodecError>)
    ensures
        match r {
            Ok(s) => data@.len() <= MAX_INPUT_SIZE && s@ == encoding(data@),
            Err(e) => data@.len() > MAX_INPUT_SIZE && e == CodecError::TooLarge,
        },
{
    match validate_encode_input(data.len()) {
        Err(e) => Err(e),
        Ok(()) => {
            let cpus = available_cpus();
            Ok(encode_by(data, select_strategy(data.len(), cpus)))
        },
    }
}

/// Encodes `data` as padded standard Base64 on about `threads` threads
/// (clamped to 1..16); fails with `TooLarge` exactly when it exceeds
/// `MAX_INPUT_SIZE`.
pub fn encode_with_threads(data: &[u8], threads: usize) -> (r: Result<String, CodecError>)
    ensures
        match r {
            Ok(s) => data@.len() <= MAX_INPUT_SIZE && s@ == encoding(data@),
            Err(e) => data@.len() > MAX_INPUT_SIZE && e == CodecError::TooLarge,
        },
{
    match validate_encode_input(data.len()) {
        Err(e) => Err(e),
        Ok(()) => Ok(encode_by(data, select_strategy_with_threads(data.len(), threads))),
    }
}

/// Decodes the padded standard Base64 `text`. Fails with `TooLarge` when it
/// holds more than `MAX_INPUT_SIZE` bytes, else with `InvalidLength` when its
/// length is not a multiple of four, else with `InvalidBase64` when it is
/// the encoding of no bytes; otherwise returns the bytes it encodes.
pub fn decode(text: &str) -> (r: Result<Vec<u8>, CodecError>)
    ensures
        text.spec_bytes().len() > MAX_INPUT_SIZE ==> r == Err::<Vec<u8>, CodecError>(
            CodecError::TooLarge,
        ),
        text.spec_bytes().len() <= MAX_INPUT_SIZE && text.spec_bytes().len() % 4 != 0 ==> r
            == Err::<Vec<u8>, CodecError>(CodecError::InvalidLength),
        text.spec_bytes().len() <= MAX_INPUT_SIZE && text.spec_bytes().len() % 4 == 0 ==> (r is Ok
            <==> is_encoding(text@)),
        match r {
            Ok(v) => encoding(v@) == text@,
            Err(e) => e is TooLarge || e is InvalidLength || e is InvalidBase64,
        },
{
    match validate_decode_input(text.as_bytes().len()) {
        Err(e) => Err(e),
        Ok(()) => decode_sequential(text),
    }
}

} // verus!
