//! The size limits and thresholds that route work between strategies.

use vstd::prelude::*;

verus! {

/// Inputs at least this long are encoded in parallel.
pub const MULTITHREAD_THRESHOLD: usize = 1048576;

/// Inputs at least this long are encoded by the worker pipeline.
pub const LARGE_THRESHOLD: usize = 20971520;

/// The least number of aligned bytes that each parallel chunk should hold.
pub const MIN_CHUNK_SIZE: usize = 65536;

/// The most threads the size-routed encoder uses.
pub const MAX_THREADS: usize = 8;

/// The largest input, in bytes, of an in-memory call.
pub const MAX_INPUT_SIZE: usize = 104857600;

/// The bytes per job of the worker pipeline; a multiple of 3.
pub const PIPELINE_CHUNK_SIZE: usize = 786432;

/// The number of workers of the pipeline.
pub const WORKER_COUNT: usize = 8;

/// Bytes read per block when a file is encoded as a stream.
pub const STREAM_BLOCK_SIZE: usize = 786432;

/// Characters read per block when a file is decoded as a stream; a multiple
/// of 4, so that no block splits a group.
pub const DECODE_BLOCK_SIZE: usize = 1048576;

} // verus!
