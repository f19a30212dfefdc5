use ultrabase64::codec::{
    decode, encode, encode_by, encode_with_threads, select_strategy,
    select_strategy_with_threads, Strategy,
};
use ultrabase64::config::{
    LARGE_THRESHOLD, MAX_INPUT_SIZE, MIN_CHUNK_SIZE, MULTITHREAD_THRESHOLD, PIPELINE_CHUNK_SIZE,
    WORKER_COUNT,
};
use ultrabase64::error::{CodecError, DecodeFault};
use ultrabase64::parallel::encode_multithreaded;
use ultrabase64::pipeline::{encode_pipelined, plan_jobs, write_at, ChunkDescriptor};
use ultrabase64::plan::{aligned_split_len, effective_threads, parallel_chunk_size};
use ultrabase64::sequential::{decode_sequential, encode_sequential};
use ultrabase64::stream::{decode_block, StreamEncoder};
use ultrabase64::validate::{
    is_valid_base64_length, validate_decode_input, validate_encode_input,
};

fn sample(n: usize) -> Vec<u8> {
    let mut v = Vec::with_capacity(n);
    let mut x: u32 = 12345;
    for _ in 0..n {
        x = x.wrapping_mul(1103515245).wrapping_add(12345);
        v.push((x >> 16) as u8);
    }
    v
}

#[test]
fn encode_empty() {
    assert_eq!(encode(b"").unwrap(), "");
}

#[test]
fn encode_one_byte_two_pads() {
    assert_eq!(encode(b"f").unwrap(), "Zg==");
}

#[test]
fn encode_two_bytes_one_pad() {
    assert_eq!(encode(b"fo").unwrap(), "Zm8=");
}

#[test]
fn encode_whole_groups_no_pad() {
    assert_eq!(encode(b"foobar").unwrap(), "Zm9vYmFy");
}

#[test]
fn decode_all_padding_is_invalid() {
    assert!(matches!(decode("===="), Err(CodecError::InvalidBase64(_))));
}

#[test]
fn encode_one_past_limit_too_large() {
    let big = vec![0u8; MAX_INPUT_SIZE + 1];
    assert_eq!(encode(&big), Err(CodecError::TooLarge));
    assert_eq!(encode_with_threads(&big, 4), Err(CodecError::TooLarge));
}

#[test]
fn encode_at_limit_accepted() {
    assert_eq!(validate_encode_input(MAX_INPUT_SIZE), Ok(()));
    assert_eq!(validate_encode_input(MAX_INPUT_SIZE + 1), Err(CodecError::TooLarge));
}

#[test]
fn decode_known_values() {
    assert_eq!(decode("").unwrap(), b"".to_vec());
    assert_eq!(decode("Zg==").unwrap(), b"f".to_vec());
    assert_eq!(decode("Zm8=").unwrap(), b"fo".to_vec());
    assert_eq!(decode("Zm9vYmFy").unwrap(), b"foobar".to_vec());
}

#[test]
fn decode_bad_length() {
    assert_eq!(decode("Zg="), Err(CodecError::InvalidLength));
    assert_eq!(decode("Zm9vY"), Err(CodecError::InvalidLength));
}

#[test]
fn decode_too_large() {
    let text = "A".repeat(MAX_INPUT_SIZE + 4);
    assert_eq!(decode(&text), Err(CodecError::TooLarge));
}

#[test]
fn decode_error_details() {
    assert_eq!(
        decode("Zm9v!mFy"),
        Err(CodecError::InvalidBase64(DecodeFault::InvalidByte { offset: 4, byte: b'!' }))
    );
    assert!(matches!(
        decode("Zh=="),
        Err(CodecError::InvalidBase64(DecodeFault::InvalidLastSymbol { .. }))
    ));
    assert!(matches!(decode("Zg=a"), Err(CodecError::InvalidBase64(_))));
}

#[test]
fn validate_decode_rejects_lengths_not_multiple_of_four() {
    for len in 1..200usize {
        let r = validate_decode_input(len);
        if len % 4 == 0 {
            assert_eq!(r, Ok(()));
        } else {
            assert_eq!(r, Err(CodecError::InvalidLength));
        }
        assert_eq!(is_valid_base64_length(len), len % 4 == 0);
    }
    assert_eq!(validate_decode_input(0), Ok(()));
    assert_eq!(validate_decode_input(MAX_INPUT_SIZE + 1), Err(CodecError::TooLarge));
}

#[test]
fn padding_count_by_length() {
    for n in 0..30usize {
        let s = encode(&sample(n)).unwrap();
        let pads = s.chars().filter(|c| *c == '=').count();
        let expected = [0, 2, 1][n % 3];
        assert_eq!(pads, expected);
        assert_eq!(s.len(), (n + 2) / 3 * 4);
    }
}

#[test]
fn round_trip_small() {
    for n in 0..100usize {
        let b = sample(n);
        let e = encode(&b).unwrap();
        assert_eq!(decode(&e).unwrap(), b);
    }
}

#[test]
fn round_trip_all_byte_values() {
    let b: Vec<u8> = (0..=255u8).collect();
    let e = encode(&b).unwrap();
    assert_eq!(decode(&e).unwrap(), b);
}

#[test]
fn strategies_agree_medium() {
    for n in [MULTITHREAD_THRESHOLD, MULTITHREAD_THRESHOLD + 1, 2 * MULTITHREAD_THRESHOLD + 2] {
        let b = sample(n);
        let seq = encode_sequential(&b);
        assert_eq!(encode_multithreaded(&b, 4), seq);
        assert_eq!(encode_multithreaded(&b, 1), seq);
        assert_eq!(encode_multithreaded(&b, 16), seq);
        assert_eq!(encode(&b).unwrap(), seq);
        assert_eq!(encode_with_threads(&b, 3).unwrap(), seq);
        assert_eq!(decode(&seq).unwrap(), b);
    }
}

#[test]
fn strategies_agree_large() {
    let n = PIPELINE_CHUNK_SIZE * WORKER_COUNT * 2 + 5;
    let b = sample(n);
    let seq = encode_sequential(&b);
    assert_eq!(encode_pipelined(&b), seq);
    assert_eq!(encode_multithreaded(&b, 8), seq);
    assert_eq!(encode_by(&b, Strategy::Pipeline), seq);
    assert_eq!(encode_by(&b, Strategy::Parallel { threads: 5 }), seq);
}

#[test]
fn encode_routes_large_inputs() {
    let b = sample(LARGE_THRESHOLD + 2);
    assert_eq!(encode(&b).unwrap(), encode_sequential(&b));
}

#[test]
fn pipeline_small_input_falls_back() {
    assert_eq!(encode_pipelined(b"foobar"), "Zm9vYmFy");
    assert_eq!(encode_pipelined(b"f"), "Zg==");
}

#[test]
fn multithreaded_small_input_falls_back() {
    assert_eq!(encode_multithreaded(b"", 4), "");
    assert_eq!(encode_multithreaded(b"fo", 4), "Zm8=");
}

#[test]
fn strategy_selection_by_size() {
    assert_eq!(select_strategy(0, 4), Strategy::Sequential);
    assert_eq!(select_strategy(MULTITHREAD_THRESHOLD - 1, 4), Strategy::Sequential);
    assert_eq!(select_strategy(MULTITHREAD_THRESHOLD, 4), Strategy::Parallel { threads: 4 });
    assert_eq!(select_strategy(MULTITHREAD_THRESHOLD, 32), Strategy::Parallel { threads: 8 });
    assert_eq!(select_strategy(LARGE_THRESHOLD - 1, 2), Strategy::Parallel { threads: 2 });
    assert_eq!(select_strategy(LARGE_THRESHOLD, 2), Strategy::Pipeline);
}

#[test]
fn strategy_selection_with_threads() {
    assert_eq!(select_strategy_with_threads(MIN_CHUNK_SIZE - 1, 8), Strategy::Sequential);
    assert_eq!(select_strategy_with_threads(MIN_CHUNK_SIZE, 1), Strategy::Sequential);
    assert_eq!(select_strategy_with_threads(MIN_CHUNK_SIZE, 0), Strategy::Sequential);
    assert_eq!(
        select_strategy_with_threads(MIN_CHUNK_SIZE, 100),
        Strategy::Parallel { threads: 16 }
    );
    assert_eq!(
        select_strategy_with_threads(MIN_CHUNK_SIZE, 3),
        Strategy::Parallel { threads: 3 }
    );
}

#[test]
fn chunk_planning() {
    assert_eq!(aligned_split_len(10), 9);
    assert_eq!(aligned_split_len(9), 9);
    assert_eq!(aligned_split_len(1), 0);
    assert_eq!(effective_threads(0, 8), 1);
    assert_eq!(effective_threads(MIN_CHUNK_SIZE * 3, 8), 3);
    assert_eq!(effective_threads(MIN_CHUNK_SIZE * 20, 8), 8);
    assert_eq!(parallel_chunk_size(1_000_002, 4), 250_000 / 3 * 3);
    assert_eq!(parallel_chunk_size(300_000, 1), 300_000);
}

#[test]
fn job_plan_offsets() {
    let jobs = plan_jobs(21, 6);
    assert_eq!(jobs.len(), 4);
    assert_eq!(
        jobs[0],
        ChunkDescriptor { index: 0, input_offset: 0, input_length: 6, output_offset: 0 }
    );
    assert_eq!(
        jobs[3],
        ChunkDescriptor { index: 3, input_offset: 18, input_length: 3, output_offset: 24 }
    );
    assert_eq!(plan_jobs(0, 6).len(), 0);
    assert_eq!(plan_jobs(18, 6).len(), 3);
}

#[test]
fn write_at_offset() {
    let mut out = vec![b'.'; 8];
    write_at(&mut out, 2, "Zm9v");
    assert_eq!(out, b"..Zm9v..".to_vec());
}

fn stream_encode(data: &[u8], block: usize) -> String {
    let mut enc = StreamEncoder::new();
    let mut out = String::new();
    for piece in data.chunks(block) {
        out.push_str(&enc.feed(piece));
    }
    out.push_str(&enc.finish());
    out
}

#[test]
fn stream_encode_any_block_size() {
    let b = sample(1000);
    let whole = encode_sequential(&b);
    for block in [1usize, 2, 3, 4, 5, 7, 64, 999, 1000, 4096] {
        assert_eq!(stream_encode(&b, block), whole);
    }
}

#[test]
fn stream_encode_carry() {
    let mut enc = StreamEncoder::new();
    assert_eq!(enc.feed(b"fo"), "");
    assert_eq!(enc.feed(b"ob"), "Zm9v");
    assert_eq!(enc.finish(), "Yg==");
    let empty = StreamEncoder::new();
    assert_eq!(empty.finish(), "");
}

#[test]
fn decode_blocks() {
    assert_eq!(decode_block(b"Zm9vYmFy").unwrap(), b"foobar".to_vec());
    assert_eq!(decode_block(b"Zm9"), Err(CodecError::InvalidLength));
    assert_eq!(decode_block(&[0xff, 0xfe, 0x41, 0x41]), Err(CodecError::InvalidUtf8));
    assert!(matches!(decode_block(b"Zm9v!!!!"), Err(CodecError::InvalidBase64(_))));
}

#[test]
fn sequential_decode() {
    assert_eq!(decode_sequential("Zg==").unwrap(), b"f".to_vec());
    assert!(decode_sequential("Zg").is_err());
}
