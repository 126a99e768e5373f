use rtl_computer::bitset::Bitset;

/// The bits of a buffer in the order in which they were written.
fn stream(bytes: &[u8], cursor: usize) -> Vec<bool> {
    let count = if cursor == 0 { bytes.len() * 8 } else { (bytes.len() - 1) * 8 + cursor };
    (0..count).map(|j| (bytes[j / 8] >> (7 - j % 8)) & 1 == 1).collect()
}

/// Bit `i` of `value`, none from index 64 on.
fn value_bit(value: usize, i: usize) -> bool {
    i < 64 && (value >> i) & 1 == 1
}

#[test]
fn new_bitset_is_empty() {
    let b = Bitset::new();
    assert_eq!(b.get(), &Vec::<u8>::new());
    assert_eq!(b.len(), 0);
}

#[test]
fn append_fills_a_byte_from_the_top() {
    let mut b = Bitset::new();
    b.append(0b101, 3);
    assert_eq!(b.get(), &vec![0b1010_0000]);
    b.append(0b11, 2);
    assert_eq!(b.get(), &vec![0b1011_1000]);
    b.append(0b001, 3);
    assert_eq!(b.get(), &vec![0b1011_1001]);
    b.append(1, 1);
    assert_eq!(b.get(), &vec![0b1011_1001, 0b1000_0000]);
}

#[test]
fn append_goes_over_byte_bounds() {
    let mut b = Bitset::new();
    b.append(0xABC, 12);
    assert_eq!(b.get(), &vec![0xAB, 0xC0]);
    b.append(0xDEF12, 20);
    assert_eq!(b.get(), &vec![0xAB, 0xCD, 0xEF, 0x12]);
    b.append(usize::MAX, 64);
    assert_eq!(b.get().len(), 12);
    assert_eq!(&b.get()[4..], &[0xFF; 8]);
}

#[test]
fn append_of_a_whole_number() {
    let mut b = Bitset::new();
    b.append(0x0123_4567_89AB_CDEF, 64);
    assert_eq!(b.get(), &vec![0x01, 0x23, 0x45, 0x67, 0x89, 0xAB, 0xCD, 0xEF]);
    let mut c = Bitset::new();
    c.append(1, 4);
    c.append(0x0123_4567_89AB_CDEF, 64);
    assert_eq!(c.get(), &vec![0x10, 0x12, 0x34, 0x56, 0x78, 0x9A, 0xBC, 0xDE, 0xF0]);
}

#[test]
fn append_into_a_fresh_byte_takes_the_low_bits_only() {
    let mut b = Bitset::new();
    b.append(0x1F, 4);
    assert_eq!(b.get(), &vec![0xF0]);
    let mut c = Bitset::new();
    c.append(0xFFF, 8);
    assert_eq!(c.get(), &vec![0xFF]);
}

#[test]
fn append_lays_higher_bits_over_the_bits_before() {
    let mut b = Bitset::new();
    b.append(0b1010, 4);
    // Bit 2 of the value lies above the two bits that are asked for.
    b.append(0b111, 2);
    assert_eq!(b.get(), &vec![0b1011_1100]);
}

#[test]
fn append_follows_its_model() {
    let values = [0usize, 1, 0b101, 0xFF, 0x1234, 0xDEAD_BEEF, usize::MAX, 0x8000_0000_0000_0001];
    for first in 1..=9u8 {
        for (n, value) in values.iter().enumerate() {
            for bits in [1u8, 2, 3, 7, 8, 9, 15, 16, 17, 33, 63, 64] {
                let mut b = Bitset::new();
                b.append(values[(n + 3) % values.len()] & ((1 << first) - 1), first);
                let cursor = (first % 8) as usize;
                let before = stream(b.get(), cursor);
                b.append(*value, bits);
                let after_cursor = (cursor + bits as usize) % 8;
                let after = stream(b.get(), after_cursor);
                let mut expected = Vec::new();
                for j in 0..before.len() + bits as usize {
                    let kept = j < before.len() && before[j];
                    let laid = j + cursor >= before.len()
                        && value_bit(*value, bits as usize - 1 + before.len() - j);
                    expected.push(kept || laid);
                }
                assert_eq!(after, expected);
            }
        }
    }
}

#[test]
fn length_is_eight_for_each_byte_less_the_cursor() {
    let mut b = Bitset::new();
    b.append(0, 8);
    assert_eq!(b.len(), 8);
    b.append(0, 3);
    assert_eq!(b.len(), 13);
    b.append(0, 5);
    assert_eq!(b.len(), 16);
}

#[test]
fn slice_of_the_buffer() {
    let mut b = Bitset::new();
    b.append(0x0102_0304, 32);
    assert_eq!(b.get_slice(0, 4), &[1, 2, 3, 4]);
    assert_eq!(b.get_slice(1, 2), &[2, 3]);
    assert_eq!(b.get_slice(3, 1), &[4]);
    assert_eq!(b.get_slice(2, 0), &[] as &[u8]);
}
