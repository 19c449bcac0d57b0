use bit_field::{BitArray, BitField};

#[test]
fn pointer_sized_bit_lengths() {
    assert_eq!(usize::bit_length(), usize::BITS as usize);
    assert_eq!(isize::bit_length(), usize::BITS as usize);
    assert_eq!(usize::BIT_LENGTH, usize::BITS as usize);
    assert_eq!(isize::BIT_LENGTH, isize::BITS as usize);
}

#[test]
fn bit_length_constants() {
    assert_eq!(u8::BIT_LENGTH, 8);
    assert_eq!(u16::BIT_LENGTH, 16);
    assert_eq!(u32::BIT_LENGTH, 32);
    assert_eq!(u64::BIT_LENGTH, 64);
    assert_eq!(i8::BIT_LENGTH, 8);
    assert_eq!(i16::BIT_LENGTH, 16);
    assert_eq!(i32::BIT_LENGTH, 32);
    assert_eq!(i64::BIT_LENGTH, 64);
}

#[test]
fn full_width_ranges() {
    assert_eq!(0xa5u8.get_bits(0..8), 0xa5);
    assert_eq!(0xbeefu16.get_bits(0..16), 0xbeef);
    assert_eq!(0xdead_beefu32.get_bits(0..32), 0xdead_beef);
    assert_eq!(u64::MAX.get_bits(0..64), u64::MAX);
    assert_eq!(usize::MAX.get_bits(0..usize::BIT_LENGTH), usize::MAX);

    let mut word = 0xffu8;
    word.set_bits(0..8, 0x5a);
    assert_eq!(word, 0x5a);
    let mut word = 0u64;
    word.set_bits(0..64, u64::MAX);
    assert_eq!(word, u64::MAX);
    let mut word = usize::MAX;
    word.set_bits(0..usize::BIT_LENGTH, 0);
    assert_eq!(word, 0);
}

#[test]
fn single_bit_ranges() {
    let word = 0b1000_0001u8;
    assert_eq!(word.get_bits(0..1), 1);
    assert_eq!(word.get_bits(1..2), 0);
    assert_eq!(word.get_bits(7..8), 1);
    let mut word = 0u8;
    word.set_bits(7..8, 1);
    assert_eq!(word, 0x80);
    word.set_bits(7..8, 0);
    assert_eq!(word, 0);
}

#[test]
fn top_bit_of_every_width() {
    let mut a = 0u8;
    a.set_bit(7, true);
    assert_eq!(a, 0x80);
    assert!(a.get_bit(7));
    let mut b = 0u16;
    b.set_bit(15, true);
    assert_eq!(b, 0x8000);
    assert!(b.get_bit(15));
    let mut c = 0u32;
    c.set_bit(31, true);
    assert_eq!(c, 0x8000_0000);
    assert!(c.get_bit(31));
    let mut d = 0u64;
    d.set_bit(63, true);
    assert_eq!(d, 0x8000_0000_0000_0000);
    assert!(d.get_bit(63));
    let mut e = 0usize;
    e.set_bit(usize::BIT_LENGTH - 1, true);
    assert_eq!(e, 1usize << (usize::BITS - 1));
    assert!(e.get_bit(usize::BIT_LENGTH - 1));
}

#[test]
fn signed_words_are_read_without_sign_extension() {
    assert_eq!((-1i8).get_bits(0..4), 0b1111);
    assert_eq!((-1i8).get_bits(4..8), 0b1111);
    assert_eq!(i8::MIN.get_bits(7..8), 1);
    assert_eq!(64i8.get_bits(0..7), 64);
    assert_eq!((-1i16).get_bits(8..16), 0xff);
    assert_eq!((-1i32).get_bits(28..32), 0xf);
    assert_eq!(i32::MIN.get_bits(24..32), 0x80);
    assert_eq!((-1i64).get_bits(60..64), 0xf);
    assert_eq!((-1isize).get_bits(0..3), 0b111);
    assert_eq!((-1i8).get_bits(0..8), -1);
    assert_eq!(i64::MIN.get_bits(0..64), i64::MIN);
}

#[test]
fn signed_words_get_and_set_single_bits() {
    assert!((-1i8).get_bit(7));
    assert!(i16::MIN.get_bit(15));
    assert!(!i16::MAX.get_bit(15));
    assert!(i32::MIN.get_bit(31));
    assert!(i64::MIN.get_bit(63));
    assert!(isize::MIN.get_bit(isize::BIT_LENGTH - 1));

    let mut a = 0i8;
    a.set_bit(7, true);
    assert_eq!(a, i8::MIN);
    a.set_bit(0, true);
    assert_eq!(a, -127);
    a.set_bit(7, false);
    assert_eq!(a, 1);
    let mut b = -1i32;
    b.set_bit(31, false);
    assert_eq!(b, i32::MAX);
    let mut c = 0i64;
    c.set_bit(63, true);
    assert_eq!(c, i64::MIN);
    let mut d = 0isize;
    d.set_bit(isize::BIT_LENGTH - 1, true);
    assert_eq!(d, isize::MIN);
    let mut e = 0i16;
    e.set_bit(15, true);
    assert_eq!(e, i16::MIN);
}

#[test]
fn signed_words_set_ranges() {
    let mut a = 0i8;
    a.set_bits(4..8, 0b1111);
    assert_eq!(a, -16);
    a.set_bits(0..4, 0b0101);
    assert_eq!(a, -11);
    let mut b = -1i16;
    b.set_bits(8..16, 0);
    assert_eq!(b, 0xff);
    let mut c = -1i32;
    c.set_bits(0..31, 0);
    assert_eq!(c, i32::MIN);
    let mut d = 0i64;
    d.set_bits(32..64, 0xcafe_babe);
    assert_eq!(d, 0xcafe_babe_u64.wrapping_shl(32) as i64);
    let mut e = -1isize;
    e.set_bits(0..4, 0);
    assert_eq!(e, -16);
}

#[test]
fn pointer_sized_words_read_and_write() {
    let mut word = 0usize;
    word.set_bits(3..11, 0xa5);
    assert_eq!(word, 0xa5 << 3);
    assert_eq!(word.get_bits(3..11), 0xa5);
    assert_eq!(word.get_bits(0..3), 0);
    assert!(word.get_bit(3));
    assert!(!word.get_bit(4));
    word.set_bit(4, true);
    assert_eq!(word, (0xa5 << 3) | (1 << 4));
}

#[test]
fn sixteen_bit_ranges() {
    let mut field = 0b1111001010010110u16;
    assert_eq!(field.get_bits(0..4), 0b0110);
    assert_eq!(field.get_bits(4..12), 0b00101001);
    assert_eq!(field.get_bits(12..16), 0b1111);
    field.set_bits(4..12, 0xff);
    assert_eq!(field, 0b1111111111110110);
    field.set_bits(12..16, 0);
    assert_eq!(field, 0b0000111111110110);
}

#[test]
fn array_range_ending_at_the_last_bit() {
    let words = [0x00u8, 0xf0];
    assert_eq!(words.get_bits(12..16), 0xf);
    assert_eq!(words.get_bits(8..16), 0xf0);
    assert_eq!(words.get_bits(15..16), 1);
    let mut words = [0u8, 0u8];
    words.set_bits(12..16, 0b1001);
    assert_eq!(words, [0x00, 0x90]);
    words.set_bits(8..16, 0xff);
    assert_eq!(words, [0x00, 0xff]);
}

#[test]
fn array_range_ending_on_an_inner_boundary() {
    let words = [0xc3u8, 0xff, 0x00];
    assert_eq!(words.get_bits(6..8), 0b11);
    assert_eq!(words.get_bits(0..8), 0xc3);
    assert_eq!(words.get_bits(8..16), 0xff);
    let mut words = [0u8, 0xff, 0];
    words.set_bits(4..8, 0b1111);
    assert_eq!(words, [0xf0, 0xff, 0x00]);
    words.set_bits(8..16, 0x00);
    assert_eq!(words, [0xf0, 0x00, 0x00]);
}

#[test]
fn array_range_of_one_whole_word_across_a_boundary() {
    let words = [0xabu8, 0xcd];
    assert_eq!(words.get_bits(4..12), 0xda);
    let mut words = [0xffu8, 0xff];
    words.set_bits(4..12, 0x00);
    assert_eq!(words, [0x0f, 0xf0]);
    words.set_bits(4..12, 0x81);
    assert_eq!(words, [0x1f, 0xf8]);
}

#[test]
fn array_of_signed_words() {
    let mut words = [0i8, 0i8];
    words.set_bits(6..10, 0b1111);
    assert_eq!(words, [-64, 3]);
    assert_eq!(words.get_bits(6..10), 0b1111);
    assert_eq!(words.get_bits(7..8), 1);
    words.set_bit(15, true);
    assert_eq!(words, [-64, -125]);
    assert!(words.get_bit(15));
}

#[test]
fn array_of_wide_words() {
    let mut words = [0u64, 0u64];
    words.set_bits(60..68, 0xa5);
    assert_eq!(words, [0x5000_0000_0000_0000, 0x0a]);
    assert_eq!(words.get_bits(60..68), 0xa5);
    words.set_bits(32..96, 0xdead_beef_cafe_babe);
    assert_eq!(words.get_bits(32..96), 0xdead_beef_cafe_babe);
    assert_eq!(words, [0xcafe_babe_0000_0000, 0xdead_beef]);
}

#[test]
fn array_works_through_vectors_and_slices() {
    let mut words = vec![0u16; 4];
    words.set_bits(12..20, 0xff);
    assert_eq!(words, vec![0xf000, 0x000f, 0, 0]);
    assert_eq!(words.bit_length(), 64);
    let slice = &mut words[1..3];
    slice.set_bit(16, true);
    assert_eq!(slice.get_bits(0..4), 0xf);
    assert_eq!(words, vec![0xf000, 0x000f, 0x0001, 0]);
}
