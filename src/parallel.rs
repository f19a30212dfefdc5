//! The work-stealing encoder: the aligned part of the input is cut into
//! chunks that are encoded in parallel without padding and joined in order;
//! the tail is encoded with padding and appended.

use crate::config::MIN_CHUNK_SIZE;
use crate::engine::{encode_padded, encode_pieces_parallel, piece, piece_count};
use crate::model::{
    encode_groups, encoding, lemma_aligned_encoding, lemma_encoding_parts, lemma_groups_concat,
};
use crate::plan::{
    aligned_split_len, effective_threads, lemma_piece_bounds, lemma_piece_count,
    parallel_chunk_size,
};
use vstd::prelude::*;

verus! {

/// Joins the encodings of the pieces of `main`, cut `size` bytes each, in
/// their order.
pub fn join_pieces(parts: &Vec<String>, main: &[u8], size: usize) -> (r: String)
    requires
        size > 0,
        size % 3 == 0,
        main@.len() % 3 == 0,
        parts@.len() == piece_count(main@.len() as int, size as int),
        forall|i: int|
            0 <= i < parts@.len() ==> (#[trigger] parts@[i])@ == crate::model::encoding_unpadded(
                piece(main@, size as int, i),
            ),
    ensures
        r@ == encode_groups(main@),
{
    let n = main.len();
    let mut out = String::new();
    let mut i: usize = 0;
    let mut off: usize = 0;
    proof {
        lemma_piece_count(n as int, size as int, 0);
        assert(main@.take(0) =~= Seq::<u8>::empty());
    }
    while i < parts.len()
        invariant
            size > 0,
            size % 3 == 0,
            n == main@.len(),
            n % 3 == 0,
            parts@.len() == piece_count(n as int, size as int),
            forall|k: int|
                0 <= k < parts@.len() ==> (#[trigger] parts@[k])@
                    == crate::model::encoding_unpadded(piece(main@, size as int, k)),
            i <= parts@.len(),
            off <= n,
            off % 3 == 0,
            i < parts@.len() ==> off == i * size,
            i == parts@.len() ==> off == n,
            out@ == encode_groups(main@.take(off as int)),
        decreases parts@.len() - i,
    {
        proof {
            lemma_piece_count(n as int, size as int, i as int);
            lemma_piece_bounds(main@, size as int, i as int);
        }
        let next: usize = if n - off <= size {
            n
        } else {
            off + size
        };
        proof {
            let c = piece(main@, size as int, i as int);
            assert(c.len() % 3 == 0);
            lemma_aligned_encoding(c);
            assert(main@.take(next as int) =~= main@.take(off as int) + c);
            lemma_groups_concat(main@.take(off as int), c);
            lemma_piece_count(n as int, size as int, i + 1);
        }
        out.append(parts[i].as_str());
        off = next;
        i = i + 1;
    }
    proof {
        assert(main@.take(n as int) =~= main@);
    }
    out
}

/// Encodes `input` with up to `num_threads` threads; the result is the
/// padded encoding, whatever the thread count.
pub fn encode_multithreaded(input: &[u8], num_threads: usize) -> (r: String)
    requires
        num_threads >= 1,
    ensures
        r@ == encoding(input@),
{
    let len = input.len();
    let main_len = aligned_split_len(len);
    let threads = effective_threads(main_len, num_threads);
    if main_len < MIN_CHUNK_SIZE || main_len / threads < MIN_CHUNK_SIZE {
        return encode_padded(input);
    }
    proof {
        assert(main_len >= MIN_CHUNK_SIZE * threads) by (nonlinear_arith)
            requires
                main_len / threads >= MIN_CHUNK_SIZE,
                threads >= 1,
        ;
    }
    let size = parallel_chunk_size(main_len, threads);
    let (main, tail) = input.split_at(main_len);
    let parts = encode_pieces_parallel(main, size);
    let mut out = join_pieces(&parts, main, size);
    let t = encode_padded(tail);
    proof {
        lemma_encoding_parts(input@);
        assert(main@ == input@.take(main_len as int));
        assert(tail@ == input@.skip(main_len as int));
    }
    out.append(t.as_str());
    out
}

} // verus!
