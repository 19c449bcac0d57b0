//! Bit fields of sixty-four bits: `u64` and `i64`.

use crate::field::BitField;
use crate::model::{extract, fits, splice};
use core::ops::Range;
use vstd::prelude::*;

verus! {

/// The bits `[start, end)` of `x`, moved down to position 0: the word is
/// shifted up until the range touches the top, back down again, and then
/// down by `start`.
pub open spec fn range_u64(x: u64, start: u64, end: u64) -> u64 {
    ((x << ((64 - end) as u64)) >> ((64 - end) as u64)) >> start
}

/// The word with ones at the positions `[start, end)` and zeros elsewhere.
pub open spec fn mask_u64(start: u64, end: u64) -> u64 {
    range_u64(!0u64, start, end) << start
}

/// Masking with a single set bit tests that bit.
proof fn lemma_u64_get_bit(x: u64, i: u64)
    by (bit_vector)
    requires
        i < 64,
    ensures
        ((x & (1u64 << i)) != 0) == ((x >> i) & 1 == 1),
{
}

/// Bit `j` of the range `[s, e)` of `x` is bit `k = j + s` of `x` where
/// that lies inside the range, and is clear elsewhere.
proof fn lemma_u64_get_bits(x: u64, s: u64, e: u64, j: u64, k: u64)
    by (bit_vector)
    requires
        s < e <= 64,
        j < 64,
        k == j + s,
    ensures
        ((range_u64(x, s, e) >> j) & 1 == 1) == (k < e && (x >> k) & 1 == 1),
{
}

/// Or-ing in a single set bit sets that bit, and-ing with its complement
/// clears it, and neither touches another bit.
proof fn lemma_u64_set_bit(x: u64, i: u64, j: u64)
    by (bit_vector)
    requires
        i < 64,
        j < 64,
    ensures
        (((x | (1u64 << i)) >> j) & 1 == 1) == (j == i || (x >> j) & 1 == 1),
        (((x & !(1u64 << i)) >> j) & 1 == 1) == (j != i && (x >> j) & 1 == 1),
{
}

/// Clearing the range `[s, e)` of `x` and or-ing in `v << s` puts bit
/// `k = j - s` of `v` at each position `j` of the range and keeps `x`
/// elsewhere, as long as `v` is confined to the width `w` of the range.
proof fn lemma_u64_set_bits(x: u64, v: u64, s: u64, e: u64, w: u64, j: u64, k: u64)
    by (bit_vector)
    requires
        s < e <= 64,
        w == e - s,
        j < 64,
        s <= j ==> k == j - s,
        range_u64(v, 0, w) == v,
    ensures
        ((((x & !mask_u64(s, e)) | (v << s)) >> j) & 1 == 1) == (if s <= j < e {
            (v >> k) & 1 == 1
        } else {
            (x >> j) & 1 == 1
        }),
{
}

/// Two words that agree above bit `n` and in bit `n` agree from bit `n` on.
/// `m` is `n + 1`.
proof fn lemma_u64_peel(a: u64, b: u64, n: u64, m: u64)
    by (bit_vector)
    requires
        n < 64,
        m == n + 1,
        m < 64 ==> a >> m == b >> m,
        ((a >> n) & 1 == 1) == ((b >> n) & 1 == 1),
    ensures
        a >> n == b >> n,
        n == 0 ==> a == b,
{
}

/// Two words that agree in every bit from `n` on have equal upper parts,
/// and are equal when `n` is 0.
proof fn lemma_u64_same_bits(a: u64, b: u64, n: int)
    requires
        0 <= n < 64,
        forall|j: int| n <= j < 64 ==> #[trigger] a.bits()[j] == b.bits()[j],
    ensures
        a >> (n as u64) == b >> (n as u64),
        n == 0 ==> a == b,
    decreases 64 - n,
{
    if n + 1 < 64 {
        lemma_u64_same_bits(a, b, n + 1);
    }
    assert(a.bits()[n] == b.bits()[n]);
    lemma_u64_peel(a, b, n as u64, (n + 1) as u64);
}

/// A word has no bit set at position `width` or above exactly if it is
/// the range `[0, width)` of itself, that is, if shifting it up by the
/// number of positions above `width` and back down gives the word again.
pub proof fn lemma_u64_fits(v: u64, width: int)
    requires
        0 < width <= 64,
    ensures
        fits(v.bits(), width) <==> range_u64(v, 0, width as u64) == v,
{
    let low = range_u64(v, 0, width as u64);
    assert forall|j: int| 0 <= j < 64 implies #[trigger] low.bits()[j] == (j < width
        && v.bits()[j]) by {
        lemma_u64_get_bits(v, 0, width as u64, j as u64, j as u64);
    }
    if fits(v.bits(), width) {
        lemma_u64_same_bits(low, v, 0);
    }
}

impl BitField for u64 {
    const BIT_LENGTH: usize = 64;

    open spec fn width() -> nat {
        64
    }

    open spec fn bits(&self) -> Seq<bool> {
        Seq::new(64, |i: int| (*self >> (i as u64)) & 1 == 1)
    }

    proof fn lemma_width() {
    }

    proof fn lemma_bits_len(&self) {
    }

    proof fn lemma_bits_injective(&self, other: &Self) {
        lemma_u64_same_bits(*self, *other, 0);
    }

    fn bit_length() -> (n: usize)
        ensures
            n == 64,
    {
        Self::BIT_LENGTH
    }

    fn get_bit(&self, bit: usize) -> (b: bool)
        ensures
            b == (*self & (1u64 << (bit as u64)) != 0),
    {
        proof {
            lemma_u64_get_bit(*self, bit as u64);
        }
        (*self & (1 << bit)) != 0
    }

    fn get_bits(&self, range: Range<usize>) -> (r: Self)
        ensures
            r == range_u64(*self, range.start as u64, range.end as u64),
    {
        // shift away high bits
        let bits = *self << (Self::BIT_LENGTH - range.end) >> (Self::BIT_LENGTH - range.end);
        // shift away low bits
        let r = bits >> range.start;
        proof {
            let want = extract(self.bits(), range.start as int, range.end as int, 64);
            assert forall|j: int| 0 <= j < 64 implies #[trigger] r.bits()[j] == want[j] by {
                lemma_u64_get_bits(
                    *self,
                    range.start as u64,
                    range.end as u64,
                    j as u64,
                    (j + range.start) as u64,
                );
            }
            assert(r.bits() =~= want);
        }
        r
    }

    fn set_bit(&mut self, bit: usize, value: bool) -> (ret: &mut Self)
        ensures
            *ret == if value {
                *old(self) | (1u64 << (bit as u64))
            } else {
                *old(self) & !(1u64 << (bit as u64))
            },
    {
        let ghost before = *self;
        if value {
            *self |= 1 << bit;
        } else {
            *self &= !(1 << bit);
        }
        proof {
            let want = before.bits().update(bit as int, value);
            assert forall|j: int| 0 <= j < 64 implies #[trigger] self.bits()[j] == want[j] by {
                lemma_u64_set_bit(before, bit as u64, j as u64);
            }
            assert(self.bits() =~= want);
        }
        self
    }

    fn set_bits(&mut self, range: Range<usize>, value: Self) -> (ret: &mut Self)
        ensures
            *ret == (*old(self) & !mask_u64(range.start as u64, range.end as u64)) | (value
                << (range.start as u64)),
    {
        let ghost before = *self;
        let bitmask: Self = !(!0 << (Self::BIT_LENGTH - range.end) >> (Self::BIT_LENGTH
            - range.end) >> range.start << range.start);
        // set bits
        *self = (*self & bitmask) | (value << range.start);
        proof {
            let want = splice(before.bits(), range.start as int, range.end as int, value.bits());
            lemma_u64_fits(value, range.end - range.start);
            assert forall|j: int| 0 <= j < 64 implies #[trigger] self.bits()[j] == want[j] by {
                lemma_u64_set_bits(
                    before,
                    value,
                    range.start as u64,
                    range.end as u64,
                    (range.end - range.start) as u64,
                    j as u64,
                    (j - range.start) as u64,
                );
            }
            assert(self.bits() =~= want);
        }
        self
    }
}

/// Reading a signed word as unsigned and back gives the same word, and so
/// does reading an unsigned word as signed and back.
proof fn lemma_i64_cast(a: i64, y: u64)
    by (bit_vector)
    ensures
        ((a as u64) as i64) == a,
        ((y as i64) as u64) == y,
{
}

/// A signed word is handled as the unsigned word with the same bits, so
/// that every shift is a logical one.
impl BitField for i64 {
    const BIT_LENGTH: usize = 64;

    open spec fn width() -> nat {
        64
    }

    /// The bits of the two's complement pattern of the word.
    open spec fn bits(&self) -> Seq<bool> {
        (*self as u64).bits()
    }

    proof fn lemma_width() {
    }

    proof fn lemma_bits_len(&self) {
    }

    proof fn lemma_bits_injective(&self, other: &Self) {
        (*self as u64).lemma_bits_injective(&(*other as u64));
        lemma_i64_cast(*self, 0);
        lemma_i64_cast(*other, 0);
    }

    fn bit_length() -> (n: usize)
        ensures
            n == 64,
    {
        Self::BIT_LENGTH
    }

    fn get_bit(&self, bit: usize) -> (b: bool)
        ensures
            b == ((*self as u64) & (1u64 << (bit as u64)) != 0),
    {
        let word = #[verifier::truncate] (*self as u64);
        word.get_bit(bit)
    }

    fn get_bits(&self, range: Range<usize>) -> (r: Self)
        ensures
            r == range_u64(*self as u64, range.start as u64, range.end as u64) as i64,
    {
        let word = #[verifier::truncate] (*self as u64);
        let low = word.get_bits(range);
        proof {
            lemma_i64_cast(0, low);
        }
        #[verifier::truncate] (low as i64)
    }

    fn set_bit(&mut self, bit: usize, value: bool) -> (ret: &mut Self)
        ensures
            *ret == (if value {
                (*old(self) as u64) | (1u64 << (bit as u64))
            } else {
                (*old(self) as u64) & !(1u64 << (bit as u64))
            }) as i64,
    {
        let mut word = #[verifier::truncate] (*self as u64);
        word.set_bit(bit, value);
        proof {
            lemma_i64_cast(0, word);
        }
        *self = #[verifier::truncate] (word as i64);
        self
    }

    fn set_bits(&mut self, range: Range<usize>, value: Self) -> (ret: &mut Self)
        ensures
            *ret == (((*old(self) as u64) & !mask_u64(range.start as u64, range.end as u64)) | ((
            value as u64) << (range.start as u64))) as i64,
    {
        let mut word = #[verifier::truncate] (*self as u64);
        word.set_bits(range, #[verifier::truncate] (value as u64));
        proof {
            lemma_i64_cast(0, word);
        }
        *self = #[verifier::truncate] (word as i64);
        self
    }
}

} // verus!
