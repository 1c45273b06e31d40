//! Sorting a block of four values, and packing the order that sorted it into
//! five bits.
//!
//! An order is an array of four positions: entry `i` names the position of the
//! input whose value comes `i`-th when the block is sorted ascending.

use vstd::prelude::*;

verus! {

/// Whether `order` holds each of the positions 0 to 3 exactly once.
pub open spec fn is_permutation(order: Seq<u8>) -> bool {
    &&& order.len() == 4
    &&& order[0] < 4 && order[1] < 4 && order[2] < 4 && order[3] < 4
    &&& order[0] != order[1] && order[0] != order[2] && order[0] != order[3]
    &&& order[1] != order[2] && order[1] != order[3]
    &&& order[2] != order[3]
}

/// The block that holds at position `i` what `input` holds at `order[i]`.
pub open spec fn apply(input: Seq<u32>, order: Seq<u8>) -> Seq<u32> {
    seq![
        input[order[0] as int],
        input[order[1] as int],
        input[order[2] as int],
        input[order[3] as int],
    ]
}

/// Whether a block of four values never falls from one position to the next.
pub open spec fn is_sorted(nums: Seq<u32>) -> bool {
    nums.len() == 4 && nums[0] <= nums[1] <= nums[2] <= nums[3]
}

/// The lower of the two positions that are neither `a` nor `b`.
pub open spec fn lowest_other(a: u8, b: u8) -> u8 {
    if a != 0 && b != 0 {
        0
    } else if a != 1 && b != 1 {
        1
    } else {
        2
    }
}

/// The higher of the two positions that are neither `a` nor `b`.
pub open spec fn highest_other(a: u8, b: u8) -> u8 {
    if a != 3 && b != 3 {
        3
    } else if a != 2 && b != 2 {
        2
    } else {
        1
    }
}

/// The two positions out of 0 to 3 that are left beside `a` and `b`, the
/// lower one first.
pub fn remaining(a: u8, b: u8) -> (rest: (u8, u8))
    requires
        a < b < 4,
    ensures
        rest.0 == lowest_other(a, b),
        rest.1 == highest_other(a, b),
        rest.0 < rest.1 < 4,
        rest.0 != a && rest.0 != b && rest.1 != a && rest.1 != b,
{
    match (a, b) {
        (0, 1) => (2, 3),
        (0, 2) => (1, 3),
        (0, 3) => (1, 2),
        (1, 2) => (0, 3),
        (1, 3) => (0, 2),
        (2, 3) => (0, 1),
        _ => vstd::pervasive::unreached(),
    }
}

/// Reorders `input` by `encoding`: position `i` of the result holds what
/// `input` holds at position `encoding[i]`.
pub fn apply_encoding(input: [u32; 4], encoding: [u8; 4]) -> (output: [u32; 4])
    requires
        forall|i: int| 0 <= i < 4 ==> encoding[i] < 4,
    ensures
        output@ == apply(input@, encoding@),
{
    let output: [u32; 4] = [
        input[encoding[0] as usize],
        input[encoding[1] as usize],
        input[encoding[2] as usize],
        input[encoding[3] as usize],
    ];
    assert(output@ =~= apply(input@, encoding@));
    output
}

/// Whether no value of the block lies below the one at position `i`.
pub open spec fn is_least(nums: Seq<u32>, i: int) -> bool {
    nums[i] <= nums[0] && nums[i] <= nums[1] && nums[i] <= nums[2] && nums[i] <= nums[3]
}

/// Whether no value of the block lies above the one at position `i`.
pub open spec fn is_greatest(nums: Seq<u32>, i: int) -> bool {
    nums[i] >= nums[0] && nums[i] >= nums[1] && nums[i] >= nums[2] && nums[i] >= nums[3]
}

/// The position that the sort puts first: the earliest one that holds the
/// least value.
pub open spec fn min_index(nums: Seq<u32>) -> u8 {
    if is_least(nums, 0) {
        0
    } else if is_least(nums, 1) {
        1
    } else if is_least(nums, 2) {
        2
    } else {
        3
    }
}

/// The position that the sort puts last: one that holds the greatest value.
/// Where several do, position 1 is taken before position 0, and either
/// before positions 2 and 3, so that the result differs from
/// `min_index(nums)` even where all four values are equal.
pub open spec fn max_index(nums: Seq<u32>) -> u8 {
    if is_greatest(nums, 1) {
        1
    } else if is_greatest(nums, 0) {
        0
    } else if is_greatest(nums, 2) {
        2
    } else {
        3
    }
}

/// The order in which the block is sorted.
///
/// The first and last entries are `min_index` and `max_index`. The two
/// positions between them come in rising order of their values; where those
/// two values are equal, the higher position comes first.
pub open spec fn sort_order(nums: Seq<u32>) -> Seq<u8> {
    let low = min_index(nums);
    let high = max_index(nums);
    let x = lowest_other(low, high);
    let y = highest_other(low, high);
    if nums[x as int] < nums[y as int] {
        seq![low, x, y, high]
    } else {
        seq![low, y, x, high]
    }
}

/// The order that sorts a block is a permutation, and the block reordered by
/// it is sorted.
pub proof fn lemma_sort_order_sorts(nums: Seq<u32>)
    requires
        nums.len() == 4,
    ensures
        is_permutation(sort_order(nums)),
        is_sorted(apply(nums, sort_order(nums))),
{
}

/// Finds the order that sorts `nums` ascending, and the sorted block.
///
/// One pass finds the positions of the least and the greatest value; of
/// equal least values the earliest is taken. A table over the twelve pairs
/// they can form then settles the two positions that are left with a single
/// comparison each.
pub fn sorting_order(nums: [u32; 4]) -> (result: ([u8; 4], [u32; 4]))
    ensures
        result.0@ == sort_order(nums@),
        is_permutation(result.0@),
        result.1@ == apply(nums@, result.0@),
        is_sorted(result.1@),
{
    let (mut mindex, mut maxdex): (usize, usize) = if nums[0] <= nums[1] {
        (0, 1)
    } else {
        (1, 0)
    };

    for i in 2usize..4
        invariant
            mindex < i,
            maxdex < i,
            mindex != maxdex,
            forall|j: int|
                0 <= j < i ==> nums@[mindex as int] <= #[trigger] nums@[j] <= nums@[maxdex as int],
            forall|j: int| 0 <= j < mindex ==> nums@[mindex as int] < #[trigger] nums@[j],
            forall|j: int|
                0 <= j < maxdex && !(j == 0 && maxdex == 1) ==> #[trigger] nums@[j]
                    < nums@[maxdex as int],
            maxdex == 0 ==> nums@[1] < nums@[0],
    {
        if nums[i] < nums[mindex] {
            mindex = i;
        } else if nums[i] > nums[maxdex] {
            maxdex = i;
        }
    }

    assert(mindex == min_index(nums@));
    assert(maxdex == max_index(nums@));

    let index: usize = mindex << 2 | maxdex;
    assert(index == mindex * 4 + maxdex) by (bit_vector)
        requires
            index == mindex << 2 | maxdex,
            mindex < 4,
            maxdex < 4,
    ;

    let res: [u8; 4] = match index {
        0b01_00 => {
            if nums[2] < nums[3] {
                [1, 2, 3, 0]
            } else {
                [1, 3, 2, 0]
            }
        },
        0b10_00 => {
            if nums[1] < nums[3] {
                [2, 1, 3, 0]
            } else {
                [2, 3, 1, 0]
            }
        },
        0b11_00 => {
            if nums[1] < nums[2] {
                [3, 1, 2, 0]
            } else {
                [3, 2, 1, 0]
            }
        },
        0b00_01 => {
            if nums[2] < nums[3] {
                [0, 2, 3, 1]
            } else {
                [0, 3, 2, 1]
            }
        },
        0b10_01 => {
            if nums[0] < nums[3] {
                [2, 0, 3, 1]
            } else {
                [2, 3, 0, 1]
            }
        },
        0b11_01 => {
            if nums[0] < nums[2] {
                [3, 0, 2, 1]
            } else {
                [3, 2, 0, 1]
            }
        },
        0b00_10 => {
            if nums[1] < nums[3] {
                [0, 1, 3, 2]
            } else {
                [0, 3, 1, 2]
            }
        },
        0b01_10 => {
            if nums[0] < nums[3] {
                [1, 0, 3, 2]
            } else {
                [1, 3, 0, 2]
            }
        },
        0b11_10 => {
            if nums[0] < nums[1] {
                [3, 0, 1, 2]
            } else {
                [3, 1, 0, 2]
            }
        },
        0b00_11 => {
            if nums[1] < nums[2] {
                [0, 1, 2, 3]
            } else {
                [0, 2, 1, 3]
            }
        },
        0b01_11 => {
            if nums[0] < nums[2] {
                [1, 0, 2, 3]
            } else {
                [1, 2, 0, 3]
            }
        },
        0b10_11 => {
            if nums[0] < nums[1] {
                [2, 0, 1, 3]
            } else {
                [2, 1, 0, 3]
            }
        },
        _ => vstd::pervasive::unreached(),
    };
    assert(res@ =~= sort_order(nums@));
    proof {
        lemma_sort_order_sorts(nums@);
    }

    let nums = apply_encoding(nums, res);

    (res, nums)
}

/// The five-bit code of an order: the last entry in the two highest bits, the
/// third entry in the two bits below, and a lowest bit that is set where the
/// first entry is greater than the second.
pub open spec fn order_code(order: Seq<u8>) -> u8 {
    (order[3] << 3) | (order[2] << 1) | (if order[0] > order[1] {
        1u8
    } else {
        0u8
    })
}

/// The entry that a code gives for the last place of its order: the code's
/// bits 3 and 4.
pub open spec fn code_last(code: u8) -> u8 {
    code / 8
}

/// The entry that a code gives for the third place of its order: the code's
/// bits 1 and 2.
pub open spec fn code_third(code: u8) -> u8 {
    (code / 2) % 4
}

/// Whether a code asks for the first two entries in falling order: the code's
/// bit 0.
pub open spec fn code_swaps(code: u8) -> bool {
    code % 2 == 1
}

/// Whether `code` is the code of a permutation. Of the 32 values of five
/// bits, the 24 that name two different positions are.
pub open spec fn is_order_code(code: u8) -> bool {
    code < 32 && code_last(code) != code_third(code)
}

/// The order that a code stands for: the two positions that the code does not
/// name, swapped if it says so, then the two that it names.
pub open spec fn order_of_code(code: u8) -> Seq<u8> {
    let last = code_last(code);
    let third = code_third(code);
    let x = lowest_other(last, third);
    let y = highest_other(last, third);
    if code_swaps(code) {
        seq![y, x, third, last]
    } else {
        seq![x, y, third, last]
    }
}

/// The place at which `order` holds `value`.
pub open spec fn position_of(order: Seq<u8>, value: u8) -> u8 {
    if order[0] == value {
        0
    } else if order[1] == value {
        1
    } else if order[2] == value {
        2
    } else {
        3
    }
}

/// The order that undoes `order`: reordering by one and then by the other
/// gives the block back.
pub open spec fn inverse(order: Seq<u8>) -> Seq<u8> {
    seq![
        position_of(order, 0),
        position_of(order, 1),
        position_of(order, 2),
        position_of(order, 3),
    ]
}

/// The fields of a code are what shifting and masking take out of it.
pub proof fn lemma_code_bits(code: u8)
    ensures
        code >> 3 == code_last(code),
        (code >> 1) & 0b11 == code_third(code),
        (code & 1 == 1) == code_swaps(code),
{
    assert(code >> 3 == code / 8) by (bit_vector);
    assert((code >> 1) & 0b11 == (code / 2) % 4) by (bit_vector);
    assert((code & 1 == 1) == (code % 2 == 1)) by (bit_vector);
}

/// The code of a permutation in plain arithmetic.
pub proof fn lemma_order_code_value(order: Seq<u8>)
    requires
        is_permutation(order),
    ensures
        order_code(order) == 8 * order[3] + 2 * order[2] + (if order[0] > order[1] {
            1int
        } else {
            0int
        }),
{
    let a: u8 = order[3];
    let b: u8 = order[2];
    let c: u8 = if order[0] > order[1] {
        1
    } else {
        0
    };
    assert((a << 3) | (b << 1) | c == 8 * a + 2 * b + c) by (bit_vector)
        requires
            a < 4,
            b < 4,
            c < 2,
    ;
}

/// Packing a permutation and unpacking the code gives the permutation back.
pub proof fn lemma_order_code_round_trip(order: Seq<u8>)
    requires
        is_permutation(order),
    ensures
        is_order_code(order_code(order)),
        order_of_code(order_code(order)) == order,
{
    lemma_order_code_value(order);
    assert(order_of_code(order_code(order)) =~= order);
}

/// Unpacking a code of a permutation gives a permutation, and packing that
/// gives the code back.
pub proof fn lemma_order_of_code_round_trip(code: u8)
    requires
        is_order_code(code),
    ensures
        is_permutation(order_of_code(code)),
        order_code(order_of_code(code)) == code,
{
    lemma_order_code_value(order_of_code(code));
}

/// Two permutations with the same code are the same permutation.
pub proof fn lemma_order_code_injective(first: Seq<u8>, second: Seq<u8>)
    requires
        is_permutation(first),
        is_permutation(second),
        order_code(first) == order_code(second),
    ensures
        first == second,
{
    lemma_order_code_round_trip(first);
    lemma_order_code_round_trip(second);
}

/// The inverse of a permutation is a permutation that names, for each
/// position, the place at which the permutation holds it.
pub proof fn lemma_inverse_is_permutation(order: Seq<u8>)
    requires
        is_permutation(order),
    ensures
        is_permutation(inverse(order)),
        forall|i: int| 0 <= i < 4 ==> inverse(order)[#[trigger] order[i] as int] == i,
        forall|i: int| 0 <= i < 4 ==> order[#[trigger] inverse(order)[i] as int] == i,
{
}

/// Reordering a block by a permutation and then by the permutation's inverse
/// gives the block back.
pub proof fn lemma_inverse_undoes(block: Seq<u32>, order: Seq<u8>)
    requires
        block.len() == 4,
        is_permutation(order),
    ensures
        apply(apply(block, order), inverse(order)) == block,
{
    assert(apply(apply(block, order), inverse(order)) =~= block);
}

/// Reordering a block by a permutation, and then by the inverse that is read
/// off the permutation's code, gives the block back.
pub proof fn lemma_inverse_of_code_undoes(block: Seq<u32>, order: Seq<u8>)
    requires
        block.len() == 4,
        is_permutation(order),
    ensures
        apply(apply(block, order), inverse(order_of_code(order_code(order)))) == block,
{
    lemma_order_code_round_trip(order);
    lemma_inverse_undoes(block, order);
}

/// Packs an order into its code: `000aabbc`, with `aa` the last entry, `bb`
/// the third entry, and `c` set where the first entry is greater than the
/// second.
pub fn encode_sorting_order(order: [u8; 4]) -> (code: u8)
    ensures
        code == order_code(order@),
        is_permutation(order@) ==> code == 8 * order@[3] + 2 * order@[2] + (if order@[0]
            > order@[1] {
            1int
        } else {
            0int
        }),
        is_permutation(order@) ==> is_order_code(code) && order_of_code(code) == order@,
{
    let c: u8 = if order[0] > order[1] {
        1
    } else {
        0
    };

    let aa: u8 = order[3];

    let bb: u8 = order[2];

    proof {
        if is_permutation(order@) {
            lemma_order_code_value(order@);
            lemma_order_code_round_trip(order@);
        }
    }
    aa << 3 | bb << 1 | c
}

/// Tells whether `code` is the code of a permutation, as a header byte from
/// an unknown source has to be tested before its block is decoded.
pub fn is_valid_order_code(code: u8) -> (valid: bool)
    ensures
        valid == is_order_code(code),
{
    proof {
        lemma_code_bits(code);
    }
    code < 32 && code >> 3 != (code >> 1) & 0b11
}

/// Unpacks the code of a permutation.
pub fn decode_sorting_order(order: u8) -> (result: [u8; 4])
    requires
        is_order_code(order),
    ensures
        result@ == order_of_code(order),
        is_permutation(result@),
        order_code(result@) == order,
{
    let max: u8 = order >> 3;
    let max2nd: u8 = (order >> 1) & 0b11;
    proof {
        lemma_code_bits(order);
        lemma_order_of_code_round_trip(order);
    }

    let (a, b): (u8, u8) = if max2nd > max {
        remaining(max, max2nd)
    } else {
        remaining(max2nd, max)
    };

    let c: bool = (order & 1) == 1;

    let result: [u8; 4] = if c {
        [b, a, max2nd, max]
    } else {
        [a, b, max2nd, max]
    };
    assert(result@ =~= order_of_code(order));
    result
}

/// Gives, for the code of a permutation, the inverse of that permutation.
///
/// Reordering a sorted block by the result puts every value back where it
/// stood before the block was sorted.
pub fn inverse_encoding(encoded_order: u8) -> (result: [u8; 4])
    requires
        is_order_code(encoded_order),
    ensures
        result@ == inverse(order_of_code(encoded_order)),
        is_permutation(result@),
{
    proof {
        lemma_order_of_code_round_trip(encoded_order);
        lemma_inverse_is_permutation(order_of_code(encoded_order));
    }
    let result: [u8; 4] = match encoded_order {
        2 => [3, 2, 0, 1],
        3 => [3, 2, 1, 0],
        4 => [3, 0, 2, 1],
        5 => [3, 1, 2, 0],
        6 => [3, 0, 1, 2],
        7 => [3, 1, 0, 2],
        8 => [2, 3, 0, 1],
        9 => [2, 3, 1, 0],
        12 => [0, 3, 2, 1],
        13 => [1, 3, 2, 0],
        14 => [0, 3, 1, 2],
        15 => [1, 3, 0, 2],
        16 => [2, 0, 3, 1],
        17 => [2, 1, 3, 0],
        18 => [0, 2, 3, 1],
        19 => [1, 2, 3, 0],
        22 => [0, 1, 3, 2],
        23 => [1, 0, 3, 2],
        24 => [2, 0, 1, 3],
        25 => [2, 1, 0, 3],
        26 => [0, 2, 1, 3],
        27 => [1, 2, 0, 3],
        28 => [0, 1, 2, 3],
        29 => [1, 0, 2, 3],
        _ => vstd::pervasive::unreached(),
    };
    assert(result@ =~= inverse(order_of_code(encoded_order)));
    result
}

} // verus!
