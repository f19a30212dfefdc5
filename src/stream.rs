//! Streaming encode and decode in bounded memory. The encoder carries the
//! 0 to 2 bytes that do not yet form a group from one block to the next and
//! pads only at the end; the decoder takes blocks whose length is a multiple
//! of four, so that every block is whole groups.

use crate::engine::{encode_padded, encode_unpadded, utf8_text};
use crate::error::CodecError;
use crate::model::{
    aligned_len, encode_groups, encoding, is_encoding, lemma_aligned_encoding,
    lemma_encoding_split,
};
use crate::plan::aligned_split_len;
use crate::sequential::decode_sequential;
use crate::validate::is_valid_base64_length;
use vstd::prelude::*;
use vstd::utf8::{decode_utf8, valid_utf8};

verus! {

/// The bytes that the encoder works on after reading `block` with `carry`
/// left over.
pub open spec fn joined(carry: Seq<u8>, block: Seq<u8>) -> Seq<u8> {
    carry + block
}

/// What the encoder writes after reading `block` with `carry` left over:
/// the whole groups, unpadded.
pub open spec fn step_output(carry: Seq<u8>, block: Seq<u8>) -> Seq<char> {
    let j = joined(carry, block);
    encode_groups(j.take(aligned_len(j.len() as int)))
}

/// What the encoder carries on after reading `block` with `carry` left over.
pub open spec fn step_carry(carry: Seq<u8>, block: Seq<u8>) -> Seq<u8> {
    let j = joined(carry, block);
    j.skip(aligned_len(j.len() as int))
}

/// Everything the encoder writes when it starts with `carry` and reads
/// `blocks` one by one until the end of the stream.
pub open spec fn streamed(carry: Seq<u8>, blocks: Seq<Seq<u8>>) -> Seq<char>
    decreases blocks.len(),
{
    if blocks.len() == 0 {
        encoding(carry)
    } else {
        step_output(carry, blocks[0]) + streamed(step_carry(carry, blocks[0]), blocks.drop_first())
    }
}

/// The state of a streaming encode between two blocks.
pub struct StreamEncoder {
    carry: Vec<u8>,
}

impl StreamEncoder {
    /// The bytes read but not yet encoded.
    pub closed spec fn carried(&self) -> Seq<u8> {
        self.carry@
    }

    /// Fewer than three bytes are ever left over.
    pub closed spec fn wf(&self) -> bool {
        self.carry@.len() < 3
    }

    /// A stream with nothing read yet.
    pub fn new() -> (r: StreamEncoder)
        ensures
            r.wf(),
            r.carried() == Seq::<u8>::empty(),
    {
        StreamEncoder { carry: Vec::new() }
    }

    /// Takes the next block of the stream and returns the text to write for
    /// it: the encoding of the whole groups now available, without padding.
    pub fn feed(&mut self, block: &[u8]) -> (out: String)
        requires
            old(self).wf(),
        ensures
            final(self).wf(),
            out@ == step_output(old(self).carried(), block@),
            final(self).carried() == step_carry(old(self).carried(), block@),
    {
        let mut j: Vec<u8> = Vec::new();
        j.extend_from_slice(self.carry.as_slice());
        j.extend_from_slice(block);
        proof {
            assert(j@ =~= joined(self.carry@, block@));
        }
        let m = aligned_split_len(j.len());
        let (main, rest) = j.as_slice().split_at(m);
        let out = encode_unpadded(main);
        proof {
            lemma_aligned_encoding(main@);
        }
        let mut carry: Vec<u8> = Vec::new();
        carry.extend_from_slice(rest);
        proof {
            assert(carry@ =~= rest@);
        }
        self.carry = carry;
        out
    }

    /// Ends the stream: the padded encoding of the bytes left over.
    pub fn finish(&self) -> (out: String)
        requires
            self.wf(),
        ensures
            out@ == encoding(self.carried()),
    {
        encode_padded(self.carry.as_slice())
    }
}

/// Streaming from a carry gives the encoding of the carry followed by all
/// the blocks.
pub proof fn lemma_streamed(carry: Seq<u8>, blocks: Seq<Seq<u8>>)
    ensures
        streamed(carry, blocks) == encoding(carry + blocks.flatten()),
    decreases blocks.len(),
{
    if blocks.len() == 0 {
        assert(carry + blocks.flatten() =~= carry);
    } else {
        let j = joined(carry, blocks[0]);
        let m = aligned_len(j.len() as int);
        let rest = blocks.drop_first();
        lemma_streamed(j.skip(m), rest);
        let all = j + rest.flatten();
        assert(all == carry + blocks.flatten()) by {
            assert(blocks.flatten() == blocks[0] + rest.flatten());
            assert(all =~= carry + blocks.flatten());
        }
        lemma_encoding_split(all, m);
        assert(all.take(m) =~= j.take(m));
        assert(all.skip(m) =~= j.skip(m) + rest.flatten());
    }
}

/// Chunk-boundary transparency: however a stream is cut into blocks, the
/// text that the streaming encoder writes is the padded encoding of the
/// whole stream.
pub proof fn lemma_stream_transparent(blocks: Seq<Seq<u8>>)
    ensures
        streamed(Seq::<u8>::empty(), blocks) == encoding(blocks.flatten()),
{
    lemma_streamed(Seq::<u8>::empty(), blocks);
    assert(Seq::<u8>::empty() + blocks.flatten() =~= blocks.flatten());
}

/// Decodes one block of a streamed text. Fails with `InvalidUtf8` when the
/// block is not UTF-8, else with `InvalidLength` when its length is not a
/// multiple of four, else with `InvalidBase64` when it is the encoding of no
/// bytes; otherwise returns the bytes it encodes.
pub fn decode_block(block: &[u8]) -> (r: Result<Vec<u8>, CodecError>)
    ensures
        !valid_utf8(block@) ==> r == Err::<Vec<u8>, CodecError>(CodecError::InvalidUtf8),
        valid_utf8(block@) && block@.len() % 4 != 0 ==> r == Err::<Vec<u8>, CodecError>(
            CodecError::InvalidLength,
        ),
        valid_utf8(block@) && block@.len() % 4 == 0 ==> (r is Ok <==> is_encoding(
            decode_utf8(block@),
        )),
        match r {
            Ok(v) => valid_utf8(block@) && encoding(v@) == decode_utf8(block@),
            Err(e) => e is InvalidUtf8 || e is InvalidLength || e is InvalidBase64,
        },
{
    match utf8_text(block) {
        None => Err(CodecError::InvalidUtf8),
        Some(text) => {
            proof {
                vstd::utf8::encode_utf8_decode_utf8(text@);
            }
            if !is_valid_base64_length(block.len()) {
                Err(CodecError::InvalidLength)
            } else {
                decode_sequential(text)
            }
        },
    }
}

} // verus!
