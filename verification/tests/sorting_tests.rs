use quick_compression::sorting::{
    apply_encoding, decode_sorting_order, encode_sorting_order, inverse_encoding,
    is_valid_order_code, remaining,
    sorting_order,
};
use std::collections::HashSet;

fn assert_sorted(nums: [u32; 4]) {
    nums.iter()
        .zip(&nums[1..])
        .for_each(|(n, n_1)| assert!(n <= n_1))
}

fn permut() -> Vec<[u8; 4]> {
    let e = vec![
        // 0 starting
        [0, 1, 2, 3],
        [0, 1, 3, 2],
        [0, 2, 1, 3],
        [0, 2, 3, 1],
        [0, 3, 1, 2],
        [0, 3, 2, 1],
        // 1 starting
        [1, 2, 3, 0],
        [1, 2, 0, 3],
        [1, 3, 2, 0],
        [1, 3, 0, 2],
        [1, 0, 2, 3],
        [1, 0, 3, 2],
        // 2 starting
        [2, 1, 0, 3],
        [2, 1, 3, 0],
        [2, 0, 1, 3],
        [2, 0, 3, 1],
        [2, 3, 1, 0],
        [2, 3, 0, 1],
        // 3 starting
        [3, 2, 1, 0],
        [3, 2, 0, 1],
        [3, 1, 2, 0],
        [3, 1, 0, 2],
        [3, 0, 2, 1],
        [3, 0, 1, 2],
    ];

    let permutations = 24;
    assert_eq!(e.len(), permutations, "expect {permutations} permutations");

    for i in 0..permutations {
        assert_eq!(
            e[i].iter().cloned().collect::<HashSet<_>>().len(),
            4,
            "expect 4 distinct elements in {i}th element of permutations"
        );

        for j in 0..permutations {
            if i == j {
                continue;
            }

            assert_ne!(
                e[i], e[j],
                "expect no two elements of the vector to be the same"
            );
        }
    }

    e
}

#[test]
fn order_inversion() {
    let testdata = permut().into_iter().map(|x| x.map(|i| i as u32));
    let encodings = permut();

    for t in testdata {
        for encoding in encodings.iter().cloned() {
            let t1 = apply_encoding(t, encoding);
            let inverse_encoding = inverse_encoding(encode_sorting_order(encoding));

            let result = apply_encoding(t1, inverse_encoding);

            assert_eq!(
                result, t,
                "expect inverse encoding applied to encoding to preduce original input value"
            );
        }
    }
}

#[test]
fn sorting() {
    let input = permut().into_iter().map(|x| x.map(|i| i as u32));

    for nums in input {
        let (_encoding, result) = sorting_order(nums);
        // verify that the result is actually sorted
        assert_sorted(result);
    }
}

#[test]
fn sorting_encoding() {
    let input = permut().into_iter().map(|x| x.map(|i| i as u32));

    for nums in input {
        let (encoding, _result) = sorting_order(nums);
        for i in [1, 2, 3] {
            assert!(
                nums[encoding[i] as usize] >= nums[encoding[i - 1] as usize],
                "expect encoding to be right"
            );
        }
    }
}

#[test]
fn encoding_applied() {
    let input = permut().into_iter().map(|x| x.map(|i| i as u32));

    for nums in input {
        let (encoding, result) = sorting_order(nums);
        // verify that sorting encoding matches output
        let r1 = apply_encoding(nums, encoding);
        assert_eq!(
            r1, result,
            "expect to match {result:?} after order-encoding is applied"
        );
    }
}

#[test]
fn order_encoding() {
    // first generate all permutations of 0,1,2,3
    let p = permut();

    for p1 in p {
        let e = encode_sorting_order(p1);

        let decoded = decode_sorting_order(e);

        assert_eq!(decoded, p1, "expect to match sorting order {p1:?}");
    }
}

#[test]
fn sorting_order_of_a_falling_block() {
    let (order, sorted) = sorting_order([7, 6, 4, 3]);
    assert_eq!(order, [3, 2, 1, 0]);
    assert_eq!(sorted, [3, 4, 6, 7]);
    let back = apply_encoding(sorted, inverse_encoding(encode_sorting_order(order)));
    assert_eq!(back, [7, 6, 4, 3]);
}

#[test]
fn sorting_order_of_a_rising_block_is_the_identity() {
    let (order, sorted) = sorting_order([0, 1, 2, 3]);
    assert_eq!(order, [0, 1, 2, 3]);
    assert_eq!(sorted, [0, 1, 2, 3]);
}

#[test]
fn sorting_order_breaks_ties_between_equal_values() {
    // All equal: position 0 comes first, position 1 last, and of the two
    // between them the higher one leads.
    assert_eq!(sorting_order([5, 5, 5, 5]), ([0, 3, 2, 1], [5, 5, 5, 5]));
    assert_eq!(sorting_order([0, 0, 0, 0]), ([0, 3, 2, 1], [0, 0, 0, 0]));
    // Least value at positions 0, 1 and 2: the earliest one is taken.
    assert_eq!(
        sorting_order([123, 123, 123, 234]),
        ([0, 2, 1, 3], [123, 123, 123, 234])
    );
    assert_eq!(sorting_order([4, 4, 9, 6]), ([0, 1, 3, 2], [4, 4, 6, 9]));
    // Least value at positions 1, 2 and 3.
    assert_eq!(sorting_order([255, 0, 0, 0]), ([1, 3, 2, 0], [0, 0, 0, 255]));
    // Least value at positions 2 and 3 only: the earlier one is taken.
    assert_eq!(sorting_order([9, 8, 1, 1]), ([2, 3, 1, 0], [1, 1, 8, 9]));
    // Greatest value at positions 1 and 3: the earlier one comes last.
    assert_eq!(sorting_order([2, 9, 1, 9]), ([2, 0, 3, 1], [1, 2, 9, 9]));
    // Greatest value at positions 0 and 1: position 1 comes last.
    assert_eq!(sorting_order([9, 9, 1, 2]), ([2, 3, 0, 1], [1, 2, 9, 9]));
}

#[test]
fn sorting_order_holds_for_extreme_values() {
    let (order, sorted) = sorting_order([u32::MAX, 0, u32::MAX - 1, 1]);
    assert_eq!(order, [1, 3, 2, 0]);
    assert_eq!(sorted, [0, 1, u32::MAX - 1, u32::MAX]);
}

#[test]
fn sorted_block_keeps_every_value() {
    let inputs = [
        [4u32, 4, 2, 2],
        [1, 1, 1, 0],
        [10, 20, 10, 20],
        [3, 1, 2, 1],
        [0, u32::MAX, 0, u32::MAX],
    ];
    for nums in inputs {
        let (order, sorted) = sorting_order(nums);
        assert_sorted(sorted);
        let seen: HashSet<u8> = order.iter().cloned().collect();
        assert_eq!(seen.len(), 4);
        assert!(order.iter().all(|&i| i < 4));
        assert_eq!(apply_encoding(nums, order), sorted);
    }
}

#[test]
fn order_codes_pack_the_three_fields() {
    // 000aabbc: aa = last entry, bb = third entry, c = first > second.
    assert_eq!(encode_sorting_order([0, 1, 2, 3]), 0b11_10_0);
    assert_eq!(encode_sorting_order([1, 0, 2, 3]), 0b11_10_1);
    assert_eq!(encode_sorting_order([3, 2, 1, 0]), 0b00_01_1);
    assert_eq!(encode_sorting_order([1, 2, 3, 0]), 0b00_11_0);
    assert_eq!(encode_sorting_order([2, 1, 0, 3]), 25);
}

#[test]
fn order_codes_are_all_different() {
    let codes: HashSet<u8> = permut().into_iter().map(encode_sorting_order).collect();
    assert_eq!(codes.len(), 24);
    assert!(codes.iter().all(|&code| code < 32));
}

#[test]
fn decoding_an_order_code_places_the_named_positions_last() {
    assert_eq!(decode_sorting_order(0b11_10_0), [0, 1, 2, 3]);
    assert_eq!(decode_sorting_order(0b11_10_1), [1, 0, 2, 3]);
    assert_eq!(decode_sorting_order(0b00_01_1), [3, 2, 1, 0]);
    assert_eq!(decode_sorting_order(0b01_10_0), [0, 3, 2, 1]);
}

#[test]
fn decoding_then_encoding_an_order_code_gives_the_code_back() {
    for code in 0u8..32 {
        if code >> 3 == (code >> 1) & 0b11 {
            continue;
        }
        assert_eq!(encode_sorting_order(decode_sorting_order(code)), code);
    }
}

#[test]
fn inverse_of_a_cycle_is_not_the_cycle() {
    // [1, 2, 3, 0] is no involution: its inverse is [3, 0, 1, 2].
    let code = encode_sorting_order([1, 2, 3, 0]);
    assert_eq!(inverse_encoding(code), [3, 0, 1, 2]);
    assert_eq!(decode_sorting_order(code), [1, 2, 3, 0]);
    let identity = encode_sorting_order([0, 1, 2, 3]);
    assert_eq!(inverse_encoding(identity), [0, 1, 2, 3]);
}

#[test]
fn inverse_names_the_place_of_each_position() {
    for p in permut() {
        let inverse = inverse_encoding(encode_sorting_order(p));
        for i in 0..4 {
            assert_eq!(inverse[p[i] as usize] as usize, i);
            assert_eq!(p[inverse[i] as usize] as usize, i);
        }
    }
}

#[test]
fn remaining_gives_the_other_two_positions() {
    assert_eq!(remaining(0, 1), (2, 3));
    assert_eq!(remaining(0, 2), (1, 3));
    assert_eq!(remaining(0, 3), (1, 2));
    assert_eq!(remaining(1, 2), (0, 3));
    assert_eq!(remaining(1, 3), (0, 2));
    assert_eq!(remaining(2, 3), (0, 1));
}

#[test]
fn apply_encoding_picks_by_position() {
    assert_eq!(apply_encoding([10, 20, 30, 40], [3, 0, 2, 1]), [40, 10, 30, 20]);
    assert_eq!(apply_encoding([10, 20, 30, 40], [0, 0, 0, 0]), [10, 10, 10, 10]);
}

#[test]
fn exactly_the_codes_of_permutations_are_valid() {
    let codes: HashSet<u8> = permut().into_iter().map(encode_sorting_order).collect();
    for code in 0u8..=255 {
        assert_eq!(is_valid_order_code(code), codes.contains(&code));
    }
}

#[test]
fn encode_sorting_order_packs_any_four_bytes() {
    // Entries that are no positions are packed all the same, bits and all.
    assert_eq!(encode_sorting_order([0, 0, 0, 0]), 0);
    assert_eq!(encode_sorting_order([9, 9, 5, 7]), (7 << 3) | (5 << 1));
    assert_eq!(encode_sorting_order([9, 1, 255, 255]), 0xf8 | 0xfe | 1);
}
