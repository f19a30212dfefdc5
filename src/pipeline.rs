//! The worker-pool encoder: the aligned part of the input is cut into jobs of
//! a fixed size, each job's encoding is written at an output offset computed
//! from its input offset into one buffer sized in advance, and the padded
//! tail fills the end of the buffer.

use crate::config::{MAX_INPUT_SIZE, PIPELINE_CHUNK_SIZE, WORKER_COUNT};
use crate::engine::{encode_padded, encode_pieces_parallel, piece, piece_count, string_from_ascii};
use crate::model::{
    ascii_bytes, encode_groups, encoding, encoding_unpadded, lemma_aligned_encoding,
    lemma_ascii_bytes, lemma_encoding_ascii, lemma_encoding_parts, lemma_groups_subrange,
};
use crate::plan::{aligned_split_len, lemma_piece_bounds, lemma_piece_count};
use vstd::prelude::*;
use vstd::utf8::is_ascii_chars;

verus! {

/// One unit of pipeline work: which aligned bytes to encode and where their
/// encoding goes in the output.
#[derive(Debug, Clone, Copy, PartialEq, Eq, Structural)]
pub struct ChunkDescriptor {
    pub index: usize,
    pub input_offset: usize,
    pub input_length: usize,
    pub output_offset: usize,
}

/// Whether `j` is job `i` of `n` aligned bytes cut into jobs of `size` bytes.
pub open spec fn is_job(j: ChunkDescriptor, n: int, size: int, i: int) -> bool {
    &&& j.index == i
    &&& j.input_offset == i * size
    &&& j.input_length == (if n - i * size <= size {
        n - i * size
    } else {
        size
    })
    &&& j.output_offset == i * size / 3 * 4
}

/// The jobs that cover `n` aligned bytes, `size` bytes each (the last one
/// shorter), in input order.
pub fn plan_jobs(n: usize, size: usize) -> (r: Vec<ChunkDescriptor>)
    requires
        size > 0,
        size % 3 == 0,
        n % 3 == 0,
        n <= MAX_INPUT_SIZE,
    ensures
        r@.len() == piece_count(n as int, size as int),
        forall|i: int| 0 <= i < r@.len() ==> is_job(#[trigger] r@[i], n as int, size as int, i),
{
    let mut jobs: Vec<ChunkDescriptor> = Vec::new();
    let mut off: usize = 0;
    let mut i: usize = 0;
    proof {
        lemma_piece_count(n as int, size as int, 0);
    }
    while off < n
        invariant
            size > 0,
            size % 3 == 0,
            n <= MAX_INPUT_SIZE,
            off <= n,
            n % 3 == 0,
            off % 3 == 0,
            i <= off,
            i == jobs@.len(),
            off < n ==> off == i * size,
            off < n <==> i < piece_count(n as int, size as int),
            off == n ==> i == piece_count(n as int, size as int),
            forall|k: int| 0 <= k < i ==> is_job(#[trigger] jobs@[k], n as int, size as int, k),
        decreases n - off,
    {
        proof {
            lemma_piece_count(n as int, size as int, i + 1);
            assert((i + 1) * size == i * size + size) by (nonlinear_arith);
        }
        let length: usize = if n - off <= size {
            n - off
        } else {
            size
        };
        jobs.push(
            ChunkDescriptor {
                index: i,
                input_offset: off,
                input_length: length,
                output_offset: off / 3 * 4,
            },
        );
        off = off + length;
        i = i + 1;
    }
    jobs
}

/// Writes the bytes of the ASCII text `s` into `out` from `offset` on, and
/// leaves every other byte as it was.
pub fn write_at(out: &mut Vec<u8>, offset: usize, s: &str)
    requires
        is_ascii_chars(s@),
        offset + s@.len() <= old(out)@.len(),
    ensures
        final(out)@ == old(out)@.take(offset as int) + ascii_bytes(s@) + old(out)@.skip(
            offset + s@.len(),
        ),
{
    let b = s.as_bytes();
    proof {
        vstd::string::is_ascii_spec_bytes(s);
        assert(b@ =~= ascii_bytes(s@));
    }
    let ghost start = out@;
    let total = out.len();
    let mut j: usize = 0;
    while j < b.len()
        invariant
            b@ == ascii_bytes(s@),
            offset + b@.len() <= start.len(),
            j <= b@.len(),
            out@.len() == start.len(),
            total == start.len(),
            out@ == start.take(offset as int) + b@.take(j as int) + start.skip(offset + j),
        decreases b@.len() - j,
    {
        out.set(offset + j, b[j]);
        proof {
            assert(out@ =~= start.take(offset as int) + b@.take(j + 1) + start.skip(offset + j + 1));
        }
        j = j + 1;
    }
    proof {
        assert(b@.take(j as int) =~= b@);
    }
}

/// Encodes `input` by the worker pipeline; the result is the padded
/// encoding. Inputs too short to keep every worker busy are encoded in one
/// pass.
pub fn encode_pipelined(input: &[u8]) -> (r: String)
    requires
        input@.len() <= MAX_INPUT_SIZE,
    ensures
        r@ == encoding(input@),
{
    let len = input.len();
    let main_len = aligned_split_len(len);
    if main_len < PIPELINE_CHUNK_SIZE * WORKER_COUNT {
        return encode_padded(input);
    }
    let size = PIPELINE_CHUNK_SIZE;
    let (main, tail) = input.split_at(main_len);
    let jobs = plan_jobs(main_len, size);
    let tail_len: usize = if tail.len() == 0 {
        0
    } else {
        4
    };
    let main_out = main_len / 3 * 4;
    let mut out: Vec<u8> = vec![0u8; main_out + tail_len];
    let results = encode_pieces_parallel(main, size);
    let ghost target = ascii_bytes(encode_groups(main@));
    proof {
        lemma_encoding_ascii(main@);
        lemma_ascii_bytes(encode_groups(main@));
    }
    let mut k: usize = 0;
    while k < jobs.len()
        invariant
            main@.len() == main_len,
            main_len % 3 == 0,
            main_len <= MAX_INPUT_SIZE,
            size == PIPELINE_CHUNK_SIZE,
            main_out == main_len / 3 * 4,
            out@.len() == main_out + tail_len,
            target == ascii_bytes(encode_groups(main@)),
            target.len() == main_out,
            jobs@.len() == piece_count(main_len as int, size as int),
            results@.len() == jobs@.len(),
            forall|i: int|
                0 <= i < jobs@.len() ==> is_job(#[trigger] jobs@[i], main_len as int, size as int, i),
            forall|i: int|
                0 <= i < results@.len() ==> (#[trigger] results@[i])@ == encoding_unpadded(
                    piece(main@, size as int, i),
                ),
            k <= jobs@.len(),
            k < jobs@.len() ==> out@.take(k * size / 3 * 4) == target.take(k * size / 3 * 4),
            k == jobs@.len() ==> out@.take(main_out as int) == target,
        decreases jobs@.len() - k,
    {
        let job = jobs[k];
        let ghost a = k * size / 3;
        let ghost b = (job.input_offset + job.input_length) / 3;
        proof {
            lemma_piece_count(main_len as int, size as int, k as int);
            lemma_piece_count(main_len as int, size as int, k + 1);
            lemma_piece_bounds(main@, size as int, k as int);
            assert(k * size % 3 == 0) by (nonlinear_arith)
                requires
                    size == PIPELINE_CHUNK_SIZE,
            ;
            assert(3 * a == k * size);
            assert(3 * b == job.input_offset + job.input_length);
            let c = piece(main@, size as int, k as int);
            assert(c == main@.subrange(3 * a, 3 * b));
            lemma_aligned_encoding(c);
            lemma_groups_subrange(main@, a, b);
        }
        let encoded = results[job.index].as_str();
        proof {
            lemma_encoding_ascii(piece(main@, size as int, k as int));
        }
        write_at(&mut out, job.output_offset, encoded);
        proof {
            assert(out@.take(4 * b) =~= target.take(4 * b));
            if k + 1 < jobs@.len() {
                assert((k + 1) * size == k * size + size) by (nonlinear_arith);
                assert(4 * b == (k + 1) * size / 3 * 4);
            } else {
                assert(3 * b == main_len);
                assert(4 * b == main_out);
            }
        }
        k = k + 1;
    }
    if jobs.len() == 0 {
        proof {
            assert(out@.take(0) =~= target);
        }
    }
    let t = encode_padded(tail);
    proof {
        lemma_encoding_parts(input@);
        assert(main@ == input@.take(main_len as int));
        assert(tail@ == input@.skip(main_len as int));
        lemma_encoding_ascii(tail@);
        crate::model::lemma_short_encoding(tail@);
    }
    write_at(&mut out, main_out, t.as_str());
    proof {
        lemma_encoding_ascii(input@);
        lemma_ascii_bytes(encoding(input@));
        assert(out@ =~= ascii_bytes(encoding(input@)));
    }
    string_from_ascii(out)
}

} // verus!
