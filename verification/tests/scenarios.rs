use bit_field::{BitArray, BitField};

#[test]
fn byte_get_bit_reads_single_bits() {
    let word = 0b11110010u8;
    assert_eq!(word.get_bit(0), false);
    assert_eq!(word.get_bit(1), true);
    assert_eq!(word.get_bit(2), false);
    assert_eq!(word.get_bit(3), false);
    assert_eq!(word.get_bit(4), true);
    assert_eq!(word.get_bit(7), true);
}

#[test]
fn word_get_bits_reads_ranges() {
    let word: u32 = 0b110101;
    assert_eq!(word.get_bits(0..3), 0b101);
    assert_eq!(word.get_bits(2..6), 0b1101);
}

#[test]
fn byte_set_bit_sets_and_clears() {
    let mut word = 0u8;
    word.set_bit(1, true);
    assert_eq!(word, 2);
    word.set_bit(3, true);
    assert_eq!(word, 10);
    word.set_bit(1, false);
    assert_eq!(word, 8);
}

#[test]
fn word_set_bit_sets_and_clears() {
    let mut value = 0u32;
    value.set_bit(1, true);
    assert_eq!(value, 2u32);
    value.set_bit(3, true);
    assert_eq!(value, 10u32);
    value.set_bit(1, false);
    assert_eq!(value, 8u32);
}

#[test]
fn byte_set_bits_overwrites_ranges() {
    let mut word = 0u8;
    word.set_bits(0..2, 0b11);
    assert_eq!(word, 0b11);
    word.set_bits(0..4, 0b1010);
    assert_eq!(word, 0b1010);
}

#[test]
fn word_set_bits_overwrites_ranges() {
    let mut value = 0u32;
    value.set_bits(0..2, 0b11);
    assert_eq!(value, 0b11);
    value.set_bits(0..4, 0b1010);
    assert_eq!(value, 0b1010);
}

#[test]
fn set_bit_calls_chain() {
    let mut word = 0u16;
    word.set_bit(0, true).set_bit(15, true).set_bits(4..8, 0b1001);
    assert_eq!(word, 0b1000_0000_1001_0001);
}

#[test]
fn array_set_bits_across_boundary_from_zero() {
    let mut array = [0x0000u32, 0x0000u32];
    array.set_bits(31..35, 0b1010);
    assert_eq!(array, [0x0000, 0b101]);
    assert_eq!(array.get_bits(31..35), 0b1010);
}

#[test]
fn array_set_bits_across_boundary_keeps_low_bits() {
    let mut array = [0u32, 0u32];
    array.set_bits(0..2, 0b11);
    assert_eq!(array, [0b11, 0u32]);
    array.set_bits(31..35, 0b1010);
    assert_eq!(array, [0x0003, 0b101]);
    assert_eq!(array.get_bits(31..35), 0b1010);
}

#[test]
fn array_set_bits_across_boundary_reaches_top_bit() {
    let mut array = [0u32, 0u32];
    array.set_bits(31..35, 0b0101);
    assert_eq!(array, [0x8000_0000, 0b010]);
    assert_eq!(array.get_bits(31..35), 0b0101);
}

#[test]
fn quad_get_bits_reads_upper_half() {
    let field = 0b1111111111010110u64 << 32;
    assert_eq!(field.get_bits(32..42), 0b1111010110);
}

#[test]
fn array_bit_length_counts_all_words() {
    assert_eq!([0u8, 4u8, 8u8].bit_length(), 24);
    assert_eq!([0u32, 5u32].bit_length(), 64);
    let empty: [u16; 0] = [];
    assert_eq!(empty.bit_length(), 0);
    assert_eq!([0i64; 3].bit_length(), 192);
}

#[test]
fn array_get_bit_finds_word_and_index() {
    let value: [u32; 1] = [0b110101];
    assert_eq!(value.get_bit(1), false);
    assert_eq!(value.get_bit(2), true);
    let pair = [0u8, 0b0000_0010u8];
    assert_eq!(pair.get_bit(9), true);
    assert_eq!(pair.get_bit(8), false);
    assert_eq!(pair.get_bit(1), false);
}

#[test]
fn array_get_bits_reads_within_and_across() {
    let value: [u32; 2] = [0b110101, 0b11];
    assert_eq!(value.get_bits(0..3), 0b101);
    assert_eq!(value.get_bits(31..33), 0b10);
    assert_eq!(value.get_bits(32..34), 0b11);
    assert_eq!(value.get_bits(0..32), 0b110101);
    assert_eq!(value.get_bits(32..64), 0b11);
}

#[test]
fn array_set_bit_changes_one_word() {
    let mut value = [0u32];
    value.set_bit(1, true);
    assert_eq!(value, [2u32]);
    value.set_bit(3, true);
    assert_eq!(value, [10u32]);
    value.set_bit(1, false);
    assert_eq!(value, [8u32]);

    let mut pair = [0u8, 0u8, 0u8];
    pair.set_bit(8, true);
    assert_eq!(pair, [0, 1, 0]);
    pair.set_bit(23, true);
    assert_eq!(pair, [0, 1, 0x80]);
    pair.set_bit(8, false);
    assert_eq!(pair, [0, 0, 0x80]);
}
