//! The byte layer under the codec: group-varint blocks of four magnitudes.
//!
//! The bytes themselves are written and read by the `group_varint_encoding`
//! crate. This module gives names to what that crate computes and states the
//! few facts about it that the codec is built on. The two names,
//! `varint_block` and `varint_values`, and the contracts of the two wrappers,
//! `write_block` and `read_block`, are taken on trust from that crate's
//! source; the length of a block is computed and proved here, and the rest of
//! the library is proved from these.

use vstd::prelude::*;

verus! {

/// The bytes that `group_varint_encoding::compress_block` appends for a block
/// of four magnitudes.
pub uninterp spec fn varint_block(chunk: Seq<u32>) -> Seq<u8>;

/// The four magnitudes that `group_varint_encoding::decompress_4` reads from
/// the front of `data`.
pub uninterp spec fn varint_values(data: Seq<u8>) -> Seq<u32>;

/// The number of bytes in a group-varint block that starts with the byte
/// `mask`: the mask itself, one byte for each of the four magnitudes, and for
/// each magnitude as many further bytes as its two bits of the mask say.
pub open spec fn block_len(mask: u8) -> nat {
    (5 + (mask & 0b11) + ((mask >> 2) & 0b11) + ((mask >> 4) & 0b11) + ((mask >> 6) & 0b11)) as nat
}

/// Whether `block` is one whole group-varint block that reads back as `chunk`
/// whatever bytes follow it.
pub open spec fn reads_back(block: Seq<u8>, chunk: Seq<u32>) -> bool {
    &&& block.len() >= 5
    &&& block.len() == block_len(block[0])
    &&& forall|rest: Seq<u8>| #[trigger] varint_values(block + rest) == chunk
}

/// Appends the group-varint block of `chunk` to `buffer`, by
/// `group_varint_encoding::compress_block`.
///
/// Taken on trust from that crate's source: the bytes before the block stay
/// as they are; the bytes of the block depend on `chunk` alone; the block's
/// first byte is a mask whose four two-bit fields give the length of the
/// block; and `decompress_4` reads `chunk` back from the block.
#[verifier::external_body]
pub(crate) fn write_block(buffer: &mut Vec<u8>, chunk: [u32; 4])
    ensures
        final(buffer)@ == old(buffer)@ + varint_block(chunk@),
        reads_back(final(buffer)@.skip(old(buffer)@.len() as int), chunk@),
{
    group_varint_encoding::compress_block(buffer, chunk)
}

/// Reads one group-varint block from the front of `data`, by
/// `group_varint_encoding::decompress_4`, and returns the bytes after the
/// block together with the four magnitudes.
///
/// Taken on trust from that crate's source: the call returns where `data`
/// holds the mask byte and the whole block that the mask announces; the block
/// ends where the mask says; and the magnitudes depend on `data` alone.
#[verifier::external_body]
pub(crate) fn read_block(data: &[u8]) -> (result: (&[u8], [u32; 4]))
    requires
        data@.len() >= 1,
        data@.len() >= block_len(data@[0]),
    ensures
        result.0@ == data@.skip(block_len(data@[0]) as int),
        result.1@ == varint_values(data@),
{
    group_varint_encoding::decompress_4(data)
}

/// A group-varint block has between 5 and 17 bytes.
pub proof fn lemma_block_len_bounds(mask: u8)
    ensures
        5 <= block_len(mask) <= 17,
{
    assert((mask & 0b11) <= 3 && ((mask >> 2) & 0b11) <= 3 && ((mask >> 4) & 0b11) <= 3 && ((mask
        >> 6) & 0b11) <= 3) by (bit_vector);
}

/// Computes the number of bytes of the block that starts with `mask`.
pub fn block_size(mask: u8) -> (size: usize)
    ensures
        size == block_len(mask),
        5 <= size <= 17,
{
    proof {
        lemma_block_len_bounds(mask);
    }
    let first: u8 = mask & 0b11;
    let second: u8 = (mask >> 2) & 0b11;
    let third: u8 = (mask >> 4) & 0b11;
    let fourth: u8 = (mask >> 6) & 0b11;
    5 + first as usize + second as usize + third as usize + fourth as usize
}

} // verus!
