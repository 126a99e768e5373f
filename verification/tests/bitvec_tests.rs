use bit_vec::BitVec;
use rtl_computer::alu::{negate_bitvec, sum_bitvecs, try_sum_bitvecs};
use rtl_computer::bitvecutils::{
    bitvec_to_usize, convert_ramdump_to_bitvec, get_bitvec_subset, increment_bitset,
    reverse_bits_in_byte, try_bitvec_to_usize, BinaryDisplay,
};

/// A bit vector from its digits, the bit at index 0 first.
fn bits(text: &str) -> BitVec {
    let mut v = BitVec::new();
    for c in text.chars() {
        v.push(c == '1');
    }
    v
}

/// The `width` low bits of `value`, bit 0 first.
fn word(value: usize, width: usize) -> BitVec {
    let mut v = BitVec::new();
    for i in 0..width {
        v.push((value >> i) & 1 == 1);
    }
    v
}

#[test]
fn subset_inside_the_vector() {
    let v = bits("10110010");
    assert_eq!(get_bitvec_subset(&v, 0, 4), bits("1011"));
    assert_eq!(get_bitvec_subset(&v, 4, 4), bits("0010"));
    assert_eq!(get_bitvec_subset(&v, 2, 3), bits("110"));
    assert_eq!(get_bitvec_subset(&v, 0, 8), v);
    assert_eq!(get_bitvec_subset(&v, 8, 0), bits(""));
}

#[test]
fn subset_past_the_end_is_cleared() {
    let v = bits("11111111");
    assert_eq!(get_bitvec_subset(&v, 5, 4), bits("0000"));
    assert_eq!(get_bitvec_subset(&v, 8, 1), bits("0"));
    assert_eq!(get_bitvec_subset(&v, 0, 9), bits("000000000"));
    assert_eq!(get_bitvec_subset(&bits(""), 0, 3), bits("000"));
}

#[test]
fn subset_with_a_position_near_the_largest_number() {
    let v = bits("1111");
    assert_eq!(get_bitvec_subset(&v, usize::MAX, 2), bits("00"));
    assert_eq!(get_bitvec_subset(&v, usize::MAX - 1, 3), bits("000"));
}

#[test]
fn number_of_a_vector_counts_from_bit_zero() {
    assert_eq!(bitvec_to_usize(&bits("")), 0);
    assert_eq!(bitvec_to_usize(&bits("1")), 1);
    assert_eq!(bitvec_to_usize(&bits("01")), 2);
    assert_eq!(bitvec_to_usize(&bits("1110")), 7);
    assert_eq!(bitvec_to_usize(&bits("00000001")), 128);
    assert_eq!(bitvec_to_usize(&word(0xBEEF, 16)), 0xBEEF);
}

#[test]
fn number_of_a_vector_that_does_not_fit() {
    let wide = BitVec::from_elem(usize::BITS as usize + 1, true);
    assert_eq!(try_bitvec_to_usize(&wide), None);
    let mut high = BitVec::from_elem(usize::BITS as usize + 1, false);
    assert_eq!(try_bitvec_to_usize(&high), Some(0));
    high.set(usize::BITS as usize, true);
    assert_eq!(try_bitvec_to_usize(&high), None);
    let full = BitVec::from_elem(usize::BITS as usize, true);
    assert_eq!(try_bitvec_to_usize(&full), Some(usize::MAX));
    assert_eq!(try_bitvec_to_usize(&bits("101")), Some(5));
}

#[test]
fn increment_adds_one() {
    let mut v = bits("0000");
    increment_bitset(&mut v);
    assert_eq!(v, bits("1000"));
    increment_bitset(&mut v);
    assert_eq!(v, bits("0100"));
    increment_bitset(&mut v);
    assert_eq!(v, bits("1100"));
}

#[test]
fn increment_carries_through_set_bits() {
    let mut v = bits("11101");
    increment_bitset(&mut v);
    assert_eq!(v, bits("00011"));
}

#[test]
fn increment_wraps_to_zero() {
    let mut v = bits("1111");
    increment_bitset(&mut v);
    assert_eq!(v, bits("0000"));
    let mut empty = bits("");
    increment_bitset(&mut empty);
    assert_eq!(empty, bits(""));
}

#[test]
fn increment_is_the_next_number_for_every_byte() {
    for n in 0..256usize {
        let mut v = word(n, 8);
        increment_bitset(&mut v);
        assert_eq!(v.len(), 8);
        assert_eq!(bitvec_to_usize(&v), (n + 1) % 256);
    }
}

#[test]
fn reverse_mirrors_a_byte() {
    assert_eq!(reverse_bits_in_byte(0b0000_0000), 0b0000_0000);
    assert_eq!(reverse_bits_in_byte(0b0000_0001), 0b1000_0000);
    assert_eq!(reverse_bits_in_byte(0b1000_0000), 0b0000_0001);
    assert_eq!(reverse_bits_in_byte(0b1100_1010), 0b0101_0011);
    assert_eq!(reverse_bits_in_byte(0xFF), 0xFF);
    for b in 0..=255u8 {
        assert_eq!(reverse_bits_in_byte(b), b.reverse_bits());
    }
}

#[test]
fn image_bytes_become_bits_lowest_first() {
    let v = convert_ramdump_to_bitvec(&vec![0x01, 0x80, 0x1E]);
    assert_eq!(v, bits("100000000000000101111000"));
    assert_eq!(convert_ramdump_to_bitvec(&vec![]), bits(""));
    assert_eq!(bitvec_to_usize(&convert_ramdump_to_bitvec(&vec![0x07])), 7);
}

#[test]
fn binary_text_shows_the_highest_bit_first() {
    assert_eq!(bits("1000").to_bin_string(), "0001");
    assert_eq!(bits("0111").to_bin_string(), "1110");
    assert_eq!(bits("").to_bin_string(), "");
    assert_eq!(word(0b1010_0001, 8).to_bin_string(), "10100001");
}

#[test]
fn sum_without_a_carry_keeps_the_width() {
    assert_eq!(sum_bitvecs(&word(3, 4), &word(4, 4)), word(7, 4));
    assert_eq!(sum_bitvecs(&word(0, 4), &word(0, 4)), word(0, 4));
    assert_eq!(sum_bitvecs(&bits(""), &bits("")), bits(""));
}

#[test]
fn sum_with_a_carry_grows_by_one_bit() {
    assert_eq!(sum_bitvecs(&word(15, 4), &word(1, 4)), word(16, 5));
    assert_eq!(sum_bitvecs(&word(0xFF, 8), &word(0xFF, 8)), word(0x1FE, 9));
}

#[test]
fn sum_of_operands_of_unequal_width() {
    assert_eq!(sum_bitvecs(&word(5, 3), &word(200, 8)), word(205, 8));
    assert_eq!(sum_bitvecs(&word(255, 8), &word(1, 1)), word(256, 9));
    assert_eq!(sum_bitvecs(&bits(""), &word(9, 4)), word(9, 4));
}

#[test]
fn sum_of_every_pair_of_nibbles() {
    for a in 0..16usize {
        for b in 0..16usize {
            let sum = sum_bitvecs(&word(a, 4), &word(b, 4));
            assert_eq!(bitvec_to_usize(&get_bitvec_subset(&sum, 0, 4)), (a + b) % 16);
            assert_eq!(sum.len() == 5, a + b >= 16);
            if sum.len() == 5 {
                assert_eq!(sum.get(4), Some(true));
            } else {
                assert_eq!(sum.len(), 4);
            }
        }
    }
}

#[test]
fn negation_is_the_twos_complement() {
    assert_eq!(negate_bitvec(&word(1, 8), 8), word(0xFF, 8));
    assert_eq!(negate_bitvec(&word(5, 8), 8), word(251, 8));
    assert_eq!(negate_bitvec(&word(0, 8), 8), word(0, 8));
    assert_eq!(negate_bitvec(&word(3, 2), 4), word(13, 4));
    assert_eq!(negate_bitvec(&word(0x13, 8), 4), word(13, 4));
    assert_eq!(negate_bitvec(&word(7, 4), 0), bits(""));
}

#[test]
fn sum_of_operands_that_leave_room_for_a_carry() {
    assert_eq!(try_sum_bitvecs(&word(9, 4), &word(9, 4)), Some(word(18, 5)));
    assert_eq!(try_sum_bitvecs(&bits(""), &bits("1")), Some(bits("1")));
}
