//! Chunk planning: the aligned split of an input, the thread count and chunk
//! size of the parallel encoder, and the jobs of the pipeline.

use crate::config::MIN_CHUNK_SIZE;
use crate::engine::{piece, piece_count};
use crate::model::aligned_len;
use vstd::arithmetic::div_mod::*;
use vstd::prelude::*;

verus! {

/// The number of threads that the parallel encoder uses on `main_len`
/// aligned bytes when `requested` are asked for: one per `MIN_CHUNK_SIZE`
/// bytes, at least 1 and at most `requested`.
pub open spec fn effective_threads_spec(main_len: int, requested: int) -> int {
    let by_size = main_len / MIN_CHUNK_SIZE as int;
    if by_size < 1 {
        1
    } else if by_size > requested {
        requested
    } else {
        by_size
    }
}

/// The length of the aligned part of an input of `len` bytes.
pub fn aligned_split_len(len: usize) -> (r: usize)
    ensures
        r == aligned_len(len as int),
        r % 3 == 0,
        len - r < 3,
{
    len - len % 3
}

/// See `effective_threads_spec`.
pub fn effective_threads(main_len: usize, requested: usize) -> (r: usize)
    requires
        requested >= 1,
    ensures
        r == effective_threads_spec(main_len as int, requested as int),
        1 <= r <= requested,
{
    let by_size = main_len / MIN_CHUNK_SIZE;
    if by_size < 1 {
        1
    } else if by_size > requested {
        requested
    } else {
        by_size
    }
}

/// The chunk size of the parallel encoder: an even share of `main_len`
/// bytes among `threads`, rounded down to whole groups.
pub fn parallel_chunk_size(main_len: usize, threads: usize) -> (r: usize)
    requires
        threads >= 1,
        main_len >= MIN_CHUNK_SIZE * threads,
    ensures
        r == main_len / threads / 3 * 3,
        r % 3 == 0,
        r >= 3,
{
    let share = main_len / threads;
    assert(share >= MIN_CHUNK_SIZE) by {
        lemma_div_is_ordered((MIN_CHUNK_SIZE * threads) as int, main_len as int, threads as int);
        lemma_div_by_multiple(MIN_CHUNK_SIZE as int, threads as int);
        assert(MIN_CHUNK_SIZE * threads == threads * MIN_CHUNK_SIZE);
    }
    share / 3 * 3
}

/// Piece `i` of `size` bytes lies inside `n` bytes exactly when `i` is below
/// the piece count.
pub proof fn lemma_piece_count(n: int, size: int, i: int)
    requires
        n >= 0,
        size > 0,
        i >= 0,
    ensures
        i < piece_count(n, size) <==> i * size < n,
        piece_count(n, size) >= 0,
{
    let q = (n + size - 1) / size;
    let r = (n + size - 1) % size;
    lemma_fundamental_div_mod(n + size - 1, size);
    lemma_mod_pos_bound(n + size - 1, size);
    if i < q {
        assert(i * size <= (q - 1) * size) by (nonlinear_arith)
            requires
                i <= q - 1,
                size > 0,
        ;
        assert((q - 1) * size == q * size - size) by (nonlinear_arith);
    } else {
        assert(i * size >= q * size) by (nonlinear_arith)
            requires
                i >= q,
                size > 0,
        ;
    }
    assert(q >= 0) by (nonlinear_arith)
        requires
            n + size - 1 == size * q + r,
            0 <= r < size,
            n >= 0,
            size > 0,
    ;
}

/// Where piece `i` of `size` bytes of `s` starts and ends.
pub proof fn lemma_piece_bounds(s: Seq<u8>, size: int, i: int)
    requires
        size > 0,
        0 <= i,
        i * size < s.len(),
    ensures
        (i + 1) * size == i * size + size,
        piece(s, size, i) == s.subrange(
            i * size,
            if s.len() - i * size <= size {
                s.len() as int
            } else {
                i * size + size
            },
        ),
{
    assert((i + 1) * size == i * size + size) by (nonlinear_arith);
}

} // verus!
