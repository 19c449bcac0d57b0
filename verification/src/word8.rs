//! Bit fields of eight bits: `u8` and `i8`.

use crate::field::BitField;
use crate::model::{extract, fits, splice};
use core::ops::Range;
use vstd::prelude::*;

verus! {

/// The bits `[start, end)` of `x`, moved down to position 0: the word is
/// shifted up until the range touches the top, back down again, and then
/// down by `start`.
pub open spec fn range_u8(x: u8, start: u8, end: u8) -> u8 {
    ((x << ((8 - end) as u8)) >> ((8 - end) as u8)) >> start
}

/// The word with ones at the positions `[start, end)` and zeros elsewhere.
pub open spec fn mask_u8(start: u8, end: u8) -> u8 {
    range_u8(!0u8, start, end) << start
}

/// Masking with a single set bit tests that bit.
proof fn lemma_u8_get_bit(x: u8, i: u8)
    by (bit_vector)
    requires
        i < 8,
    ensures
        ((x & (1u8 << i)) != 0) == ((x >> i) & 1 == 1),
{
}

/// Bit `j` of the range `[s, e)` of `x` is bit `k = j + s` of `x` where
/// that lies inside the range, and is clear elsewhere.
proof fn lemma_u8_get_bits(x: u8, s: u8, e: u8, j: u8, k: u8)
    by (bit_vector)
    requires
        s < e <= 8,
        j < 8,
        k == j + s,
    ensures
        ((range_u8(x, s, e) >> j) & 1 == 1) == (k < e && (x >> k) & 1 == 1),
{
}

/// Or-ing in a single set bit sets that bit, and-ing with its complement
/// clears it, and neither touches another bit.
proof fn lemma_u8_set_bit(x: u8, i: u8, j: u8)
    by (bit_vector)
    requires
        i < 8,
        j < 8,
    ensures
        (((x | (1u8 << i)) >> j) & 1 == 1) == (j == i || (x >> j) & 1 == 1),
        (((x & !(1u8 << i)) >> j) & 1 == 1) == (j != i && (x >> j) & 1 == 1),
{
}

/// Clearing the range `[s, e)` of `x` and or-ing in `v << s` puts bit
/// `k = j - s` of `v` at each position `j` of the range and keeps `x`
/// elsewhere, as long as `v` is confined to the width `w` of the range.
proof fn lemma_u8_set_bits(x: u8, v: u8, s: u8, e: u8, w: u8, j: u8, k: u8)
    by (bit_vector)
    requires
        s < e <= 8,
        w == e - s,
        j < 8,
        s <= j ==> k == j - s,
        range_u8(v, 0, w) == v,
    ensures
        ((((x & !mask_u8(s, e)) | (v << s)) >> j) & 1 == 1) == (if s <= j < e {
            (v >> k) & 1 == 1
        } else {
            (x >> j) & 1 == 1
        }),
{
}

/// Two words that agree above bit `n` and in bit `n` agree from bit `n` on.
/// `m` is `n + 1`.
proof fn lemma_u8_peel(a: u8, b: u8, n: u8, m: u8)
    by (bit_vector)
    requires
        n < 8,
        m == n + 1,
        m < 8 ==> a >> m == b >> m,
        ((a >> n) & 1 == 1) == ((b >> n) & 1 == 1),
    ensures
        a >> n == b >> n,
        n == 0 ==> a == b,
{
}

/// Two words that agree in every bit from `n` on have equal upper parts,
/// and are equal when `n` is 0.
proof fn lemma_u8_same_bits(a: u8, b: u8, n: int)
    requires
        0 <= n < 8,
        forall|j: int| n <= j < 8 ==> #[trigger] a.bits()[j] == b.bits()[j],
    ensures
        a >> (n as u8) == b >> (n as u8),
        n == 0 ==> a == b,
    decreases 8 - n,
{
    if n + 1 < 8 {
        lemma_u8_same_bits(a, b, n + 1);
    }
    assert(a.bits()[n] == b.bits()[n]);
    lemma_u8_peel(a, b, n as u8, (n + 1) as u8);
}

/// A word has no bit set at position `width` or above exactly if it is
/// the range `[0, width)` of itself, that is, if shifting it up by the
/// number of positions above `width` and back down gives the word again.
pub proof fn lemma_u8_fits(v: u8, width: int)
    requires
        0 < width <= 8,
    ensures
        fits(v.bits(), width) <==> range_u8(v, 0, width as u8) == v,
{
    let low = range_u8(v, 0, width as u8);
    assert forall|j: int| 0 <= j < 8 implies #[trigger] low.bits()[j] == (j < width
        && v.bits()[j]) by {
        lemma_u8_get_bits(v, 0, width as u8, j as u8, j as u8);
    }
    if fits(v.bits(), width) {
        lemma_u8_same_bits(low, v, 0);
    }
}

impl BitField for u8 {
    const BIT_LENGTH: usize = 8;

    open spec fn width() -> nat {
        8
    }

    open spec fn bits(&self) -> Seq<bool> {
        Seq::new(8, |i: int| (*self >> (i as u8)) & 1 == 1)
    }

    proof fn lemma_width() {
    }

    proof fn lemma_bits_len(&self) {
    }

    proof fn lemma_bits_injective(&self, other: &Self) {
        lemma_u8_same_bits(*self, *other, 0);
    }

    fn bit_length() -> (n: usize)
        ensures
            n == 8,
    {
        Self::BIT_LENGTH
    }

    fn get_bit(&self, bit: usize) -> (b: bool)
        ensures
            b == (*self & (1u8 << (bit as u8)) != 0),
    {
        proof {
            lemma_u8_get_bit(*self, bit as u8);
        }
        (*self & (1 << bit)) != 0
    }

    fn get_bits(&self, range: Range<usize>) -> (r: Self)
        ensures
            r == range_u8(*self, range.start as u8, range.end as u8),
    {
        // shift away high bits
        let bits = *self << (Self::BIT_LENGTH - range.end) >> (Self::BIT_LENGTH - range.end);
        // shift away low bits
        let r = bits >> range.start;
        proof {
            let want = extract(self.bits(), range.start as int, range.end as int, 8);
            assert forall|j: int| 0 <= j < 8 implies #[trigger] r.bits()[j] == want[j] by {
                lemma_u8_get_bits(
                    *self,
                    range.start as u8,
                    range.end as u8,
                    j as u8,
                    (j + range.start) as u8,
                );
            }
            assert(r.bits() =~= want);
        }
        r
    }

    fn set_bit(&mut self, bit: usize, value: bool) -> (ret: &mut Self)
        ensures
            *ret == if value {
                *old(self) | (1u8 << (bit as u8))
            } else {
                *old(self) & !(1u8 << (bit as u8))
            },
    {
        let ghost before = *self;
        if value {
            *self |= 1 << bit;
        } else {
            *self &= !(1 << bit);
        }
        proof {
            let want = before.bits().update(bit as int, value);
            assert forall|j: int| 0 <= j < 8 implies #[trigger] self.bits()[j] == want[j] by {
                lemma_u8_set_bit(before, bit as u8, j as u8);
            }
            assert(self.bits() =~= want);
        }
        self
    }

    fn set_bits(&mut self, range: Range<usize>, value: Self) -> (ret: &mut Self)
        ensures
            *ret == (*old(self) & !mask_u8(range.start as u8, range.end as u8)) | (value
                << (range.start as u8)),
    {
        let ghost before = *self;
        let bitmask: Self = !(!0 << (Self::BIT_LENGTH - range.end) >> (Self::BIT_LENGTH
            - range.end) >> range.start << range.start);
        // set bits
        *self = (*self & bitmask) | (value << range.start);
        proof {
            let want = splice(before.bits(), range.start as int, range.end as int, value.bits());
            lemma_u8_fits(value, range.end - range.start);
            assert forall|j: int| 0 <= j < 8 implies #[trigger] self.bits()[j] == want[j] by {
                lemma_u8_set_bits(
                    before,
                    value,
                    range.start as u8,
                    range.end as u8,
                    (range.end - range.start) as u8,
                    j as u8,
                    (j - range.start) as u8,
                );
            }
            assert(self.bits() =~= want);
        }
        self
    }
}

/// Reading a signed word as unsigned and back gives the same word, and so
/// does reading an unsigned word as signed and back.
proof fn lemma_i8_cast(a: i8, y: u8)
    by (bit_vector)
    ensures
        ((a as u8) as i8) == a,
        ((y as i8) as u8) == y,
{
}

/// A signed word is handled as the unsigned word with the same bits, so
/// that every shift is a logical one.
impl BitField for i8 {
    const BIT_LENGTH: usize = 8;

    open spec fn width() -> nat {
        8
    }

    /// The bits of the two's complement pattern of the word.
    open spec fn bits(&self) -> Seq<bool> {
        (*self as u8).bits()
    }

    proof fn lemma_width() {
    }

    proof fn lemma_bits_len(&self) {
    }

    proof fn lemma_bits_injective(&self, other: &Self) {
        (*self as u8).lemma_bits_injective(&(*other as u8));
        lemma_i8_cast(*self, 0);
        lemma_i8_cast(*other, 0);
    }

    fn bit_length() -> (n: usize)
        ensures
            n == 8,
    {
        Self::BIT_LENGTH
    }

    fn get_bit(&self, bit: usize) -> (b: bool)
        ensures
            b == ((*self as u8) & (1u8 << (bit as u8)) != 0),
    {
        let word = #[verifier::truncate] (*self as u8);
        word.get_bit(bit)
    }

    fn get_bits(&self, range: Range<usize>) -> (r: Self)
        ensures
            r == range_u8(*self as u8, range.start as u8, range.end as u8) as i8,
    {
        let word = #[verifier::truncate] (*self as u8);
        let low = word.get_bits(range);
        proof {
            lemma_i8_cast(0, low);
        }
        #[verifier::truncate] (low as i8)
    }

    fn set_bit(&mut self, bit: usize, value: bool) -> (ret: &mut Self)
        ensures
            *ret == (if value {
                (*old(self) as u8) | (1u8 << (bit as u8))
            } else {
                (*old(self) as u8) & !(1u8 << (bit as u8))
            }) as i8,
    {
        let mut word = #[verifier::truncate] (*self as u8);
        word.set_bit(bit, value);
        proof {
            lemma_i8_cast(0, word);
        }
        *self = #[verifier::truncate] (word as i8);
        self
    }

    fn set_bits(&mut self, range: Range<usize>, value: Self) -> (ret: &mut Self)
        ensures
            *ret == (((*old(self) as u8) & !mask_u8(range.start as u8, range.end as u8)) | ((
            value as u8) << (range.start as u8))) as i8,
    {
        let mut word = #[verifier::truncate] (*self as u8);
        word.set_bits(range, #[verifier::truncate] (value as u8));
        proof {
            lemma_i8_cast(0, word);
        }
        *self = #[verifier::truncate] (word as i8);
        self
    }
}

} // verus!
