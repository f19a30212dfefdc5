//! A Base64 codec (standard alphabet, `=` padding) whose encoder picks a
//! sequential, chunked-parallel or pipelined strategy by input size, and whose
//! every strategy is proved to produce the single-pass encoding.

pub mod codec;
pub mod config;
pub mod engine;
pub mod error;
pub mod laws;
pub mod model;
pub mod parallel;
pub mod pipeline;
pub mod plan;
pub mod sequential;
pub mod stream;
pub mod validate;
