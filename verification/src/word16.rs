//! Bit fields of sixteen bits: `u16` and `i16`.

use crate::field::BitField;
use crate::model::{extract, fits, splice};
use core::ops::Range;
use vstd::prelude::*;

verus! {

/// The bits `[start, end)` of `x`, moved down to position 0: the word is
/// shifted up until the range touches the top, back down again, and then
/// down by `start`.
pub open spec fn range_u16(x: u16, start: u16, end: u16) -> u16 {
    ((x << ((16 - end) as u16)) >> ((16 - end) as u16)) >> start
}

/// The word with ones at the positions `[start, end)` and zeros elsewhere.
pub open spec fn mask_u16(start: u16, end: u16) -> u16 {
    range_u16(!0u16, start, end) << start
}

/// Masking with a single set bit tests that bit.
proof fn lemma_u16_get_bit(x: u16, i: u16)
    by (bit_vector)
    requires
        i < 16,
    ensures
        ((x & (1u16 << i)) != 0) == ((x >> i) & 1 == 1),
{
}

/// Bit `j` of the range `[s, e)` of `x` is bit `k = j + s` of `x` where
/// that lies inside the range, and is clear elsewhere.
proof fn lemma_u16_get_bits(x: u16, s: u16, e: u16, j: u16, k: u16)
    by (bit_vector)
    requires
        s < e <= 16,
        j < 16,
        k == j + s,
    ensures
        ((range_u16(x, s, e) >> j) & 1 == 1) == (k < e && (x >> k) & 1 == 1),
{
}

/// Or-ing in a single set bit sets that bit, and-ing with its complement
/// clears it, and neither touches another bit.
proof fn lemma_u16_set_bit(x: u16, i: u16, j: u16)
    by (bit_vector)
    requires
        i < 16,
        j < 16,
    ensures
        (((x | (1u16 << i)) >> j) & 1 == 1) == (j == i || (x >> j) & 1 == 1),
        (((x & !(1u16 << i)) >> j) & 1 == 1) == (j != i && (x >> j) & 1 == 1),
{
}

/// Clearing the range `[s, e)` of `x` and or-ing in `v << s` puts bit
/// `k = j - s` of `v` at each position `j` of the range and keeps `x`
/// elsewhere, as long as `v` is confined to the width `w` of the range.
proof fn lemma_u16_set_bits(x: u16, v: u16, s: u16, e: u16, w: u16, j: u16, k: u16)
    by (bit_vector)
    requires
        s < e <= 16,
        w == e - s,
        j < 16,
        s <= j ==> k == j - s,
        range_u16(v, 0, w) == v,
    ensures
        ((((x & !mask_u16(s, e)) | (v << s)) >> j) & 1 == 1) == (if s <= j < e {
            (v >> k) & 1 == 1
        } else {
            (x >> j) & 1 == 1
        }),
{
}

/// Two words that agree above bit `n` and in bit `n` agree from bit `n` on.
/// `m` is `n + 1`.
proof fn lemma_u16_peel(a: u16, b: u16, n: u16, m: u16)
    by (bit_vector)
    requires
        n < 16,
        m == n + 1,
        m < 16 ==> a >> m == b >> m,
        ((a >> n) & 1 == 1) == ((b >> n) & 1 == 1),
    ensures
        a >> n == b >> n,
        n == 0 ==> a == b,
{
}

/// Two words that agree in every bit from `n` on have equal upper parts,
/// and are equal when `n` is 0.
proof fn lemma_u16_same_bits(a: u16, b: u16, n: int)
    requires
        0 <= n < 16,
        forall|j: int| n <= j < 16 ==> #[trigger] a.bits()[j] == b.bits()[j],
    ensures
        a >> (n as u16) == b >> (n as u16),
        n == 0 ==> a == b,
    decreases 16 - n,
{
    if n + 1 < 16 {
        lemma_u16_same_bits(a, b, n + 1);
    }
    assert(a.bits()[n] == b.bits()[n]);
    lemma_u16_peel(a, b, n as u16, (n + 1) as u16);
}

/// A word has no bit set at position `width` or above exactly if it is
/// the range `[0, width)` of itself, that is, if shifting it up by the
/// number of positions above `width` and back down gives the word again.
pub proof fn lemma_u16_fits(v: u16, width: int)
    requires
        0 < width <= 16,
    ensures
        fits(v.bits(), width) <==> range_u16(v, 0, width as u16) == v,
{
    let low = range_u16(v, 0, width as u16);
    assert forall|j: int| 0 <= j < 16 implies #[trigger] low.bits()[j] == (j < width
        && v.bits()[j]) by {
        lemma_u16_get_bits(v, 0, width as u16, j as u16, j as u16);
    }
    if fits(v.bits(), width) {
        lemma_u16_same_bits(low, v, 0);
    }
}

impl BitField for u16 {
    const BIT_LENGTH: usize = 16;

    open spec fn width() -> nat {
        16
    }

    open spec fn bits(&self) -> Seq<bool> {
        Seq::new(16, |i: int| (*self >> (i as u16)) & 1 == 1)
    }

    proof fn lemma_width() {
    }

    proof fn lemma_bits_len(&self) {
    }

    proof fn lemma_bits_injective(&self, other: &Self) {
        lemma_u16_same_bits(*self, *other, 0);
    }

    fn bit_length() -> (n: usize)
        ensures
            n == 16,
    {
        Self::BIT_LENGTH
    }

    fn get_bit(&self, bit: usize) -> (b: bool)
        ensures
            b == (*self & (1u16 << (bit as u16)) != 0),
    {
        proof {
            lemma_u16_get_bit(*self, bit as u16);
        }
        (*self & (1 << bit)) != 0
    }

    fn get_bits(&self, range: Range<usize>) -> (r: Self)
        ensures
            r == range_u16(*self, range.start as u16, range.end as u16),
    {
        // shift away high bits
        let bits = *self << (Self::BIT_LENGTH - range.end) >> (Self::BIT_LENGTH - range.end);
        // shift away low bits
        let r = bits >> range.start;
        proof {
            let want = extract(self.bits(), range.start as int, range.end as int, 16);
            assert forall|j: int| 0 <= j < 16 implies #[trigger] r.bits()[j] == want[j] by {
                lemma_u16_get_bits(
                    *self,
                    range.start as u16,
                    range.end as u16,
                    j as u16,
                    (j + range.start) as u16,
                );
            }
            assert(r.bits() =~= want);
        }
        r
    }

    fn set_bit(&mut self, bit: usize, value: bool) -> (ret: &mut Self)
        ensures
            *ret == if value {
                *old(self) | (1u16 << (bit as u16))
            } else {
                *old(self) & !(1u16 << (bit as u16))
            },
    {
        let ghost before = *self;
        if value {
            *self |= 1 << bit;
        } else {
            *self &= !(1 << bit);
        }
        proof {
            let want = before.bits().update(bit as int, value);
            assert forall|j: int| 0 <= j < 16 implies #[trigger] self.bits()[j] == want[j] by {
                lemma_u16_set_bit(before, bit as u16, j as u16);
            }
            assert(self.bits() =~= want);
        }
        self
    }

    fn set_bits(&mut self, range: Range<usize>, value: Self) -> (ret: &mut Self)
        ensures
            *ret == (*old(self) & !mask_u16(range.start as u16, range.end as u16)) | (value
                << (range.start as u16)),
    {
        let ghost before = *self;
        let bitmask: Self = !(!0 << (Self::BIT_LENGTH - range.end) >> (Self::BIT_LENGTH
            - range.end) >> range.start << range.start);
        // set bits
        *self = (*self & bitmask) | (value << range.start);
        proof {
            let want = splice(before.bits(), range.start as int, range.end as int, value.bits());
            lemma_u16_fits(value, range.end - range.start);
            assert forall|j: int| 0 <= j < 16 implies #[trigger] self.bits()[j] == want[j] by {
                lemma_u16_set_bits(
                    before,
                    value,
                    range.start as u16,
                    range.end as u16,
                    (range.end - range.start) as u16,
                    j as u16,
                    (j - range.start) as u16,
                );
            }
            assert(self.bits() =~= want);
        }
        self
    }
}

/// Reading a signed word as unsigned and back gives the same word, and so
/// does reading an unsigned word as signed and back.
proof fn lemma_i16_cast(a: i16, y: u16)
    by (bit_vector)
    ensures
        ((a as u16) as i16) == a,
        ((y as i16) as u16) == y,
{
}

/// A signed word is handled as the unsigned word with the same bits, so
/// that every shift is a logical one.
impl BitField for i16 {
    const BIT_LENGTH: usize = 16;

    open spec fn width() -> nat {
        16
    }

    /// The bits of the two's complement pattern of the word.
    open spec fn bits(&self) -> Seq<bool> {
        (*self as u16).bits()
    }

    proof fn lemma_width() {
    }

    proof fn lemma_bits_len(&self) {
    }

    proof fn lemma_bits_injective(&self, other: &Self) {
        (*self as u16).lemma_bits_injective(&(*other as u16));
        lemma_i16_cast(*self, 0);
        lemma_i16_cast(*other, 0);
    }

    fn bit_length() -> (n: usize)
        ensures
            n == 16,
    {
        Self::BIT_LENGTH
    }

    fn get_bit(&self, bit: usize) -> (b: bool)
        ensures
            b == ((*self as u16) & (1u16 << (bit as u16)) != 0),
    {
        let word = #[verifier::truncate] (*self as u16);
        word.get_bit(bit)
    }

    fn get_bits(&self, range: Range<usize>) -> (r: Self)
        ensures
            r == range_u16(*self as u16, range.start as u16, range.end as u16) as i16,
    {
        let word = #[verifier::truncate] (*self as u16);
        let low = word.get_bits(range);
        proof {
            lemma_i16_cast(0, low);
        }
        #[verifier::truncate] (low as i16)
    }

    fn set_bit(&mut self, bit: usize, value: bool) -> (ret: &mut Self)
        ensures
            *ret == (if value {
                (*old(self) as u16) | (1u16 << (bit as u16))
            } else {
                (*old(self) as u16) & !(1u16 << (bit as u16))
            }) as i16,
    {
        let mut word = #[verifier::truncate] (*self as u16);
        word.set_bit(bit, value);
        proof {
            lemma_i16_cast(0, word);
        }
        *self = #[verifier::truncate] (word as i16);
        self
    }

    fn set_bits(&mut self, range: Range<usize>, value: Self) -> (ret: &mut Self)
        ensures
            *ret == (((*old(self) as u16) & !mask_u16(range.start as u16, range.end as u16)) | ((
            value as u16) << (range.start as u16))) as i16,
    {
        let mut word = #[verifier::truncate] (*self as u16);
        word.set_bits(range, #[verifier::truncate] (value as u16));
        proof {
            lemma_i16_cast(0, word);
        }
        *self = #[verifier::truncate] (word as i16);
        self
    }
}

} // verus!
