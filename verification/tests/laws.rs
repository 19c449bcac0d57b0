use bit_field::{BitArray, BitField};

fn bit_of_bytes(words: &[u8], position: usize) -> bool {
    (words[position / 8] >> (position % 8)) & 1 == 1
}

fn low_ones(width: usize) -> u8 {
    if width >= 8 {
        0xff
    } else {
        (1u8 << width) - 1
    }
}

#[test]
fn byte_set_bit_then_get_bit_round_trips() {
    for start in [0x00u8, 0xff, 0xa5, 0x3c] {
        for bit in 0..8 {
            for value in [false, true] {
                let mut word = start;
                word.set_bit(bit, value);
                assert_eq!(word.get_bit(bit), value);
                for other in 0..8 {
                    if other != bit {
                        assert_eq!(word.get_bit(other), start.get_bit(other));
                    }
                }
            }
        }
    }
}

#[test]
fn byte_set_bits_then_get_bits_round_trips() {
    for before in [0x00u8, 0xff, 0xa5, 0x3c] {
        for start in 0..8 {
            for end in (start + 1)..=8 {
                let width = end - start;
                let ones = low_ones(width);
                for value in [0u8, ones, 0x55 & ones, 0xaa & ones] {
                    let mut word = before;
                    word.set_bits(start..end, value);
                    assert_eq!(word.get_bits(start..end), value);
                    for other in 0..8 {
                        if other < start || other >= end {
                            assert_eq!(word.get_bit(other), before.get_bit(other));
                        }
                    }
                }
            }
        }
    }
}

#[test]
fn byte_get_bits_matches_shift_and_mask() {
    for word in 0..=255u8 {
        for start in 0..8 {
            for end in (start + 1)..=8 {
                let want = (word >> start) & low_ones(end - start);
                assert_eq!(word.get_bits(start..end), want);
            }
        }
    }
}

#[test]
fn signed_byte_get_bits_matches_unsigned() {
    for word in 0..=255u8 {
        for start in 0..8 {
            for end in (start + 1)..=8 {
                let want = (word >> start) & low_ones(end - start);
                assert_eq!((word as i8).get_bits(start..end), want as i8);
            }
        }
    }
}

#[test]
fn word_setters_are_idempotent() {
    let mut once = 0xdead_beefu32;
    once.set_bit(4, false);
    let mut twice = once;
    twice.set_bit(4, false);
    assert_eq!(twice, once);

    let mut once = 0xdead_beefu32;
    once.set_bits(7..19, 0xabc);
    assert_eq!(once, 0xdead_beefu32 & !(0xfff << 7) | (0xabc << 7));
    let mut twice = once;
    twice.set_bits(7..19, 0xabc);
    assert_eq!(twice, once);
}

#[test]
fn array_setters_are_idempotent() {
    let mut once = [0x12u8, 0x34, 0x56];
    once.set_bit(13, true);
    let mut twice = once;
    twice.set_bit(13, true);
    assert_eq!(twice, once);

    let mut once = [0x12u8, 0x34, 0x56];
    once.set_bits(6..11, 0b10110);
    let mut twice = once;
    twice.set_bits(6..11, 0b10110);
    assert_eq!(twice, once);
}

#[test]
fn array_set_bit_then_get_bit_round_trips() {
    let before = [0xa5u8, 0x3c, 0xff];
    for bit in 0..24 {
        for value in [false, true] {
            let mut words = before;
            words.set_bit(bit, value);
            assert_eq!(words.get_bit(bit), value);
            for other in 0..24 {
                if other != bit {
                    assert_eq!(words.get_bit(other), bit_of_bytes(&before, other));
                }
            }
        }
    }
}

#[test]
fn array_boundary_round_trips_for_every_crossing_range() {
    for before in [[0x00u8, 0x00], [0xff, 0xff], [0xa5, 0x3c]] {
        for start in 0..8 {
            for end in 9..=(start + 8) {
                let width = end - start;
                for value in [low_ones(width), 0x55 & low_ones(width), 0xaa & low_ones(width), 0] {
                    let mut words = before;
                    words.set_bits(start..end, value);
                    assert_eq!(words.get_bits(start..end), value);
                    for position in 0..16 {
                        let want = if start <= position && position < end {
                            (value >> (position - start)) & 1 == 1
                        } else {
                            bit_of_bytes(&before, position)
                        };
                        assert_eq!(words.get_bit(position), want);
                    }
                }
            }
        }
    }
}

#[test]
fn array_range_round_trips_for_every_range() {
    let before = [0xa5u8, 0x3c, 0x0f];
    for start in 0..24 {
        for end in (start + 1)..=24 {
            let width = end - start;
            if width > 8 {
                continue;
            }
            let value = 0x6d & low_ones(width);
            let mut words = before;
            words.set_bits(start..end, value);
            assert_eq!(words.get_bits(start..end), value);
            for position in 0..24 {
                let want = if start <= position && position < end {
                    (value >> (position - start)) & 1 == 1
                } else {
                    bit_of_bytes(&before, position)
                };
                assert_eq!(words.get_bit(position), want);
            }
        }
    }
}

#[test]
fn array_get_bits_orders_earlier_words_lower() {
    let words = [0x8000_0000u32, 0x0000_0001];
    assert_eq!(words.get_bits(31..33), 0b11);
    let words = [0x8000_0000u32, 0x0000_0000];
    assert_eq!(words.get_bits(31..33), 0b01);
    let words = [0x0000_0000u32, 0x0000_0001];
    assert_eq!(words.get_bits(31..33), 0b10);
    let words = [0xf0u8, 0x0a];
    assert_eq!(words.get_bits(4..12), 0xaf);
}
