//! A compact codec for blocks of four unsigned 32-bit integers.
//!
//! A block is sorted, its base is lowered by a coarse magnitude bound, and the
//! sorted values are replaced by their successive differences. One header byte
//! records how the block was reordered and which bound was taken off; the four
//! small magnitudes that remain are handed to a group-varint byte layer.
//!
//! An encoded block is laid out as follows:
//!
//! ```text
//! byte 0     bits 0 to 4: the code of the sorting order
//!            bits 5 to 7: the offset class
//! bytes 1..  the group-varint block of the four magnitudes
//! ```

pub mod offset;
pub mod sorting;
pub mod varint;

use crate::offset::{best_class, best_offset, decode_offset, lemma_best_class_tight, threshold};
use crate::sorting::{
    apply, apply_encoding, encode_sorting_order, inverse, inverse_encoding, is_order_code,
    is_permutation, is_sorted, is_valid_order_code, lemma_inverse_of_code_undoes,
    lemma_order_code_round_trip, lemma_sort_order_sorts, order_code, order_of_code, sort_order,
    sorting_order,
};
use crate::varint::{
    block_len, block_size, read_block, reads_back, varint_block, varint_values, write_block,
};
use vstd::prelude::*;
use vstd::slice::slice_subrange;

verus! {

/// The header byte that holds `code` in its five low bits and `class` in its
/// three high bits.
pub open spec fn header_byte(code: u8, class: u8) -> u8 {
    (code + 32 * class) as u8
}

/// The code of the sorting order that a header byte holds: its five low bits.
pub open spec fn header_code(header: u8) -> u8 {
    header % 32
}

/// The offset class that a header byte holds: its three high bits.
pub open spec fn header_class(header: u8) -> u8 {
    header / 32
}

/// A header byte gives back the code and the class that it was made of.
pub proof fn lemma_header_fields(code: u8, class: u8)
    requires
        code < 32,
        class < 8,
    ensures
        header_code(header_byte(code, class)) == code,
        header_class(header_byte(code, class)) == class,
{
}

/// The fields of a header byte are what masking and shifting take out of it.
pub proof fn lemma_header_split(header: u8)
    ensures
        header & 0b11111 == header_code(header),
        header >> 5 == header_class(header),
{
    assert(header & 0b11111 == header % 32) by (bit_vector);
    assert(header >> 5 == header / 32) by (bit_vector);
}

/// A header byte is what shifting and joining make of its fields.
pub proof fn lemma_header_join(code: u8, class: u8)
    requires
        code < 32,
        class < 8,
    ensures
        code | (class << 5) == header_byte(code, class),
{
    assert(code | (class << 5) == code + 32 * class) by (bit_vector)
        requires
            code < 32,
            class < 8,
    ;
}

/// The values of a block in ascending order.
pub open spec fn sorted(nums: Seq<u32>) -> Seq<u32> {
    apply(nums, sort_order(nums))
}

/// The offset class of a block: the best class for its least value.
pub open spec fn block_class(nums: Seq<u32>) -> u8 {
    best_class(sorted(nums)[0])
}

/// The four magnitudes that stand for a block: its least value lowered by the
/// bound of the block's class, then the three steps from each sorted value to
/// the next.
pub open spec fn delta_block(nums: Seq<u32>) -> Seq<u32> {
    let s = sorted(nums);
    seq![
        (s[0] - threshold(block_class(nums))) as u32,
        (s[1] - s[0]) as u32,
        (s[2] - s[1]) as u32,
        (s[3] - s[2]) as u32,
    ]
}

/// The header byte of a block.
pub open spec fn block_header(nums: Seq<u32>) -> u8 {
    header_byte(order_code(sort_order(nums)), block_class(nums))
}

/// Whether the running sums of `deltas`, started at the bound of `class`, all
/// fit in 32 bits.
pub open spec fn sums_fit(class: u8, deltas: Seq<u32>) -> bool {
    threshold(class) + deltas[0] + deltas[1] + deltas[2] + deltas[3] <= u32::MAX
}

/// The running sums of `deltas`, started at the bound of `class`.
pub open spec fn running_sums(class: u8, deltas: Seq<u32>) -> Seq<u32> {
    let first = threshold(class) + deltas[0];
    seq![
        first as u32,
        (first + deltas[1]) as u32,
        (first + deltas[1] + deltas[2]) as u32,
        (first + deltas[1] + deltas[2] + deltas[3]) as u32,
    ]
}

/// The block that a header byte and four magnitudes stand for: the running
/// sums of the magnitudes, put back into the order that the block had before
/// it was sorted.
pub open spec fn restored(header: u8, deltas: Seq<u32>) -> Seq<u32> {
    apply(running_sums(header_class(header), deltas), inverse(order_of_code(header_code(header))))
}

/// Whether `data` starts with an encoded block that can be decoded: a header
/// byte with the code of a permutation, a whole group-varint block after it,
/// and magnitudes whose running sums fit in 32 bits.
pub open spec fn decodable(data: Seq<u8>) -> bool {
    &&& data.len() >= 2
    &&& is_order_code(header_code(data[0]))
    &&& data.len() >= 1 + block_len(data[1])
    &&& sums_fit(header_class(data[0]), varint_values(data.skip(1)))
}

/// The block that the front of `data` decodes to.
pub open spec fn decoded_block(data: Seq<u8>) -> Seq<u32> {
    restored(data[0], varint_values(data.skip(1)))
}

/// The bytes of `data` that follow its first encoded block.
pub open spec fn decoded_rest(data: Seq<u8>) -> Seq<u8> {
    data.skip(1 + block_len(data[1]) as int)
}

/// The header byte and the magnitudes of a block give the block back.
pub proof fn lemma_transform_round_trip(nums: Seq<u32>)
    requires
        nums.len() == 4,
    ensures
        is_order_code(header_code(block_header(nums))),
        header_code(block_header(nums)) == order_code(sort_order(nums)),
        header_class(block_header(nums)) == block_class(nums),
        sums_fit(block_class(nums), delta_block(nums)),
        running_sums(block_class(nums), delta_block(nums)) == sorted(nums),
        restored(block_header(nums), delta_block(nums)) == nums,
{
    let order = sort_order(nums);
    lemma_sort_order_sorts(nums);
    lemma_order_code_round_trip(order);
    lemma_best_class_tight(sorted(nums)[0]);
    lemma_header_fields(order_code(order), block_class(nums));
    assert(running_sums(block_class(nums), delta_block(nums)) =~= sorted(nums));
    lemma_inverse_of_code_undoes(nums, order);
}

/// Sorts a block and takes the differences: returns the four magnitudes, the
/// order that sorted the block, and the offset class that was taken off the
/// least value.
pub fn delta_encode(nums: [u32; 4]) -> (result: ([u32; 4], [u8; 4], u8))
    ensures
        result.0@ == delta_block(nums@),
        result.1@ == sort_order(nums@),
        result.2 == block_class(nums@),
        result.2 < 8,
        is_permutation(result.1@),
{
    let (order, sorted_nums) = sorting_order(nums);
    let first: u32 = sorted_nums[0];
    let offset: u8 = best_offset(first);
    let first_: u32 = first - decode_offset(offset);

    let mut res: [u32; 4] = [first_, 0, 0, 0];
    for i in 1usize..4
        invariant
            is_sorted(sorted_nums@),
            res@[0] == first_,
            forall|j: int|
                1 <= j < i ==> #[trigger] res@[j] == sorted_nums@[j] - sorted_nums@[j - 1],
    {
        res[i] = sorted_nums[i] - sorted_nums[i - 1];
    }
    assert(res@ =~= delta_block(nums@));

    (res, order, offset)
}

/// Tells whether the running sums of the magnitudes `nums`, started at the
/// bound of the class `offset`, all fit in 32 bits, as `delta_decode` needs
/// them to.
pub fn magnitudes_fit(nums: [u32; 4], offset: u8) -> (fit: bool)
    requires
        offset < 8,
    ensures
        fit == sums_fit(offset, nums@),
{
    let total: u64 = decode_offset(offset) as u64 + nums[0] as u64 + nums[1] as u64
        + nums[2] as u64 + nums[3] as u64;
    total <= u32::MAX as u64
}

/// Undoes `delta_encode`: sums the magnitudes up from the bound of the offset
/// class, and puts the sums back into the order that the block had before it
/// was sorted.
pub fn delta_decode(nums: [u32; 4], order: u8, offset: u8) -> (result: [u32; 4])
    requires
        is_order_code(order),
        offset < 8,
        sums_fit(offset, nums@),
    ensures
        result@ == apply(running_sums(offset, nums@), inverse(order_of_code(order))),
{
    let ghost deltas = nums@;
    let mut nums = nums;
    nums[0] = nums[0] + decode_offset(offset);
    for i in 1usize..4
        invariant
            sums_fit(offset, deltas),
            deltas.len() == 4,
            nums@[0] == threshold(offset) + deltas[0],
            i >= 2 ==> nums@[1] == nums@[0] + deltas[1],
            i >= 3 ==> nums@[2] == nums@[1] + deltas[2],
            i >= 4 ==> nums@[3] == nums@[2] + deltas[3],
            forall|j: int| i <= j < 4 ==> #[trigger] nums@[j] == deltas[j],
    {
        nums[i] = nums[i] + nums[i - 1];
    }
    assert(nums@ =~= running_sums(offset, deltas));

    let order = inverse_encoding(order);
    apply_encoding(nums, order)
}

/// An encoded block, followed by any bytes, decodes to the block that it was
/// made of and leaves exactly the bytes that follow it, provided that the
/// group-varint block in it reads back as the block's magnitudes.
pub proof fn lemma_round_trip(nums: Seq<u32>, block: Seq<u8>, rest: Seq<u8>)
    requires
        nums.len() == 4,
        reads_back(block, delta_block(nums)),
    ensures
        decodable(seq![block_header(nums)] + block + rest),
        decoded_block(seq![block_header(nums)] + block + rest) == nums,
        decoded_rest(seq![block_header(nums)] + block + rest) == rest,
{
    let data = seq![block_header(nums)] + block + rest;
    lemma_transform_round_trip(nums);
    assert(data[0] == block_header(nums));
    assert(data[1] == block[0]);
    assert(data.skip(1) =~= block + rest);
    assert(data.skip(1 + block.len() as int) =~= rest);
}

/// Appends the encoded form of the block `ns` to `buffer`: the header byte,
/// then the group-varint block of the block's magnitudes.
///
/// What was in the buffer stays in front, unchanged. The bytes that were
/// appended, followed by any others, decode to `ns` and leave those others.
pub fn encode_4(buffer: &mut Vec<u8>, ns: [u32; 4])
    ensures
        final(buffer)@ == old(buffer)@.push(block_header(ns@)) + varint_block(delta_block(ns@)),
        forall|rest: Seq<u8>|
            #![trigger final(buffer)@.skip(old(buffer)@.len() as int) + rest]
            {
                let data = final(buffer)@.skip(old(buffer)@.len() as int) + rest;
                decodable(data) && decoded_block(data) == ns@ && decoded_rest(data) == rest
            },
{
    let (block, order, offset) = delta_encode(ns);

    let code: u8 = encode_sorting_order(order);
    proof {
        lemma_header_join(code, offset);
    }
    let encoded_decoding_info: u8 = code | (offset << 5);

    buffer.push(encoded_decoding_info);

    let ghost with_header = buffer@;
    write_block(buffer, block);

    proof {
        let bytes = varint_block(delta_block(ns@));
        let appended = buffer@.skip(old(buffer)@.len() as int);
        assert(buffer@.skip(with_header.len() as int) =~= bytes);
        assert(appended =~= seq![block_header(ns@)] + bytes);
        assert forall|rest: Seq<u8>|
            #![trigger appended + rest]
            decodable(appended + rest) && decoded_block(appended + rest) == ns@ && decoded_rest(
                appended + rest,
            ) == rest by {
            lemma_round_trip(ns@, bytes, rest);
        }
    }
}

/// Decodes the block at the front of `data`, and returns the bytes that follow
/// the block together with the block.
pub fn decode_4(data: &[u8]) -> (result: (&[u8], [u32; 4]))
    requires
        decodable(data@),
    ensures
        result.0@ == decoded_rest(data@),
        result.1@ == decoded_block(data@),
{
    let encoded_decoding_info: u8 = data[0];
    let order: u8 = encoded_decoding_info & 0b11111;
    let offset: u8 = encoded_decoding_info >> 5;
    proof {
        lemma_header_split(encoded_decoding_info);
    }

    let payload = slice_subrange(data, 1, data.len());
    assert(payload@ =~= data@.skip(1));
    let (rest, nums) = read_block(payload);
    assert(rest@ =~= decoded_rest(data@));

    let nums = delta_decode(nums, order, offset);

    (rest, nums)
}

/// Decodes the block at the front of `data` where there is one that can be
/// decoded, and returns `None` where there is not: where the bytes end before
/// the block does, where the header byte holds no code of a permutation, or
/// where the values of the block would not fit in 32 bits.
pub fn try_decode_4(data: &[u8]) -> (result: Option<(&[u8], [u32; 4])>)
    ensures
        result is Some <==> decodable(data@),
        result matches Some(decoded) ==> decoded.0@ == decoded_rest(data@) && decoded.1@
            == decoded_block(data@),
{
    if data.len() < 2 {
        return None;
    }
    let header: u8 = data[0];
    let order: u8 = header & 0b11111;
    let offset: u8 = header >> 5;
    proof {
        lemma_header_split(header);
    }
    if !is_valid_order_code(order) {
        return None;
    }
    if data.len() - 1 < block_size(data[1]) {
        return None;
    }
    let payload = slice_subrange(data, 1, data.len());
    assert(payload@ =~= data@.skip(1));
    let (_, nums) = read_block(payload);

    if !magnitudes_fit(nums, offset) {
        return None;
    }
    Some(decode_4(data))
}

} // verus!
