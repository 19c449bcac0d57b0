//! Bit fields of the width of a pointer: `usize` and `isize`.

use crate::field::BitField;
use crate::model::{extract, fits, splice};
use core::ops::Range;
use vstd::prelude::*;

verus! {

/// The bits `[start, end)` of `x`, moved down to position 0: the word is
/// shifted up until the range touches the top, back down again, and then
/// down by `start`.
pub open spec fn range_usize(x: usize, start: usize, end: usize) -> usize {
    ((x << ((usize::BITS - end) as usize)) >> ((usize::BITS - end) as usize)) >> start
}

/// The word with ones at the positions `[start, end)` and zeros elsewhere.
pub open spec fn mask_usize(start: usize, end: usize) -> usize {
    range_usize(!0usize, start, end) << start
}

/// Masking with a single set bit tests that bit.
proof fn lemma_usize_get_bit(x: usize, i: usize)
    by (bit_vector)
    requires
        i < usize::BITS,
    ensures
        ((x & (1usize << i)) != 0) == ((x >> i) & 1 == 1),
{
}

/// Bit `j` of the range `[s, e)` of `x` is bit `k = j + s` of `x` where
/// that lies inside the range, and is clear elsewhere.
proof fn lemma_usize_get_bits(x: usize, s: usize, e: usize, j: usize, k: usize)
    by (bit_vector)
    requires
        s < e <= usize::BITS,
        j < usize::BITS,
        k == j + s,
    ensures
        ((range_usize(x, s, e) >> j) & 1 == 1) == (k < e && (x >> k) & 1 == 1),
{
}

/// Or-ing in a single set bit sets that bit, and-ing with its complement
/// clears it, and neither touches another bit.
proof fn lemma_usize_set_bit(x: usize, i: usize, j: usize)
    by (bit_vector)
    requires
        i < usize::BITS,
        j < usize::BITS,
    ensures
        (((x | (1usize << i)) >> j) & 1 == 1) == (j == i || (x >> j) & 1 == 1),
        (((x & !(1usize << i)) >> j) & 1 == 1) == (j != i && (x >> j) & 1 == 1),
{
}

/// Clearing the range `[s, e)` of `x` and or-ing in `v << s` puts bit
/// `k = j - s` of `v` at each position `j` of the range and keeps `x`
/// elsewhere, as long as `v` is confined to the width `w` of the range.
proof fn lemma_usize_set_bits(x: usize, v: usize, s: usize, e: usize, w: usize, j: usize, k: usize)
    by (bit_vector)
    requires
        s < e <= usize::BITS,
        w == e - s,
        j < usize::BITS,
        s <= j ==> k == j - s,
        range_usize(v, 0, w) == v,
    ensures
        ((((x & !mask_usize(s, e)) | (v << s)) >> j) & 1 == 1) == (if s <= j < e {
            (v >> k) & 1 == 1
        } else {
            (x >> j) & 1 == 1
        }),
{
}

/// Two words that agree above bit `n` and in bit `n` agree from bit `n` on.
/// `m` is `n + 1`.
proof fn lemma_usize_peel(a: usize, b: usize, n: usize, m: usize)
    by (bit_vector)
    requires
        n < usize::BITS,
        m == n + 1,
        m < usize::BITS ==> a >> m == b >> m,
        ((a >> n) & 1 == 1) == ((b >> n) & 1 == 1),
    ensures
        a >> n == b >> n,
        n == 0 ==> a == b,
{
}

/// Two words that agree in every bit from `n` on have equal upper parts,
/// and are equal when `n` is 0.
proof fn lemma_usize_same_bits(a: usize, b: usize, n: int)
    requires
        0 <= n < usize::BITS,
        forall|j: int| n <= j < usize::BITS ==> #[trigger] a.bits()[j] == b.bits()[j],
    ensures
        a >> (n as usize) == b >> (n as usize),
        n == 0 ==> a == b,
    decreases usize::BITS - n,
{
    if n + 1 < usize::BITS {
        lemma_usize_same_bits(a, b, n + 1);
    }
    assert(a.bits()[n] == b.bits()[n]);
    lemma_usize_peel(a, b, n as usize, (n + 1) as usize);
}

/// A word has no bit set at position `width` or above exactly if it is
/// the range `[0, width)` of itself, that is, if shifting it up by the
/// number of positions above `width` and back down gives the word again.
pub proof fn lemma_usize_fits(v: usize, width: int)
    requires
        0 < width <= usize::BITS,
    ensures
        fits(v.bits(), width) <==> range_usize(v, 0, width as usize) == v,
{
    let low = range_usize(v, 0, width as usize);
    assert forall|j: int| 0 <= j < usize::BITS implies #[trigger] low.bits()[j] == (j < width
        && v.bits()[j]) by {
        lemma_usize_get_bits(v, 0, width as usize, j as usize, j as usize);
    }
    if fits(v.bits(), width) {
        lemma_usize_same_bits(low, v, 0);
    }
}

impl BitField for usize {
    const BIT_LENGTH: usize = usize::BITS as usize;

    open spec fn width() -> nat {
        usize::BITS as nat
    }

    open spec fn bits(&self) -> Seq<bool> {
        Seq::new(usize::BITS as nat, |i: int| (*self >> (i as usize)) & 1 == 1)
    }

    proof fn lemma_width() {
    }

    proof fn lemma_bits_len(&self) {
    }

    proof fn lemma_bits_injective(&self, other: &Self) {
        lemma_usize_same_bits(*self, *other, 0);
    }

    fn bit_length() -> (n: usize)
        ensures
            n == usize::BITS,
    {
        Self::BIT_LENGTH
    }

    fn get_bit(&self, bit: usize) -> (b: bool)
        ensures
            b == (*self & (1usize << bit) != 0),
    {
        proof {
            lemma_usize_get_bit(*self, bit);
        }
        (*self & (1 << bit)) != 0
    }

    fn get_bits(&self, range: Range<usize>) -> (r: Self)
        ensures
            r == range_usize(*self, range.start, range.end),
    {
        // shift away high bits
        let bits = *self << (Self::BIT_LENGTH - range.end) >> (Self::BIT_LENGTH - range.end);
        // shift away low bits
        let r = bits >> range.start;
        proof {
            let want = extract(
                self.bits(),
                range.start as int,
                range.end as int,
                usize::BITS as nat,
            );
            assert forall|j: int| 0 <= j < usize::BITS implies #[trigger] r.bits()[j]
                == want[j] by {
                lemma_usize_get_bits(
                    *self,
                    range.start,
                    range.end,
                    j as usize,
                    (j + range.start) as usize,
                );
            }
            assert(r.bits() =~= want);
        }
        r
    }

    fn set_bit(&mut self, bit: usize, value: bool) -> (ret: &mut Self)
        ensures
            *ret == if value {
                *old(self) | (1usize << bit)
            } else {
                *old(self) & !(1usize << bit)
            },
    {
        let ghost before = *self;
        if value {
            *self |= 1 << bit;
        } else {
            *self &= !(1 << bit);
        }
        proof {
            let want = before.bits().update(bit as int, value);
            assert forall|j: int| 0 <= j < usize::BITS implies #[trigger] self.bits()[j]
                == want[j] by {
                lemma_usize_set_bit(before, bit, j as usize);
            }
            assert(self.bits() =~= want);
        }
        self
    }

    fn set_bits(&mut self, range: Range<usize>, value: Self) -> (ret: &mut Self)
        ensures
            *ret == (*old(self) & !mask_usize(range.start, range.end)) | (value
                << range.start),
    {
        let ghost before = *self;
        let bitmask: Self = !(!0 << (Self::BIT_LENGTH - range.end) >> (Self::BIT_LENGTH
            - range.end) >> range.start << range.start);
        // set bits
        *self = (*self & bitmask) | (value << range.start);
        proof {
            let want = splice(before.bits(), range.start as int, range.end as int, value.bits());
            lemma_usize_fits(value, range.end - range.start);
            assert forall|j: int| 0 <= j < usize::BITS implies #[trigger] self.bits()[j]
                == want[j] by {
                lemma_usize_set_bits(
                    before,
                    value,
                    range.start,
                    range.end,
                    (range.end - range.start) as usize,
                    j as usize,
                    (j - range.start) as usize,
                );
            }
            assert(self.bits() =~= want);
        }
        self
    }
}

/// Reading a signed word as unsigned and back gives the same word, and so
/// does reading an unsigned word as signed and back.
proof fn lemma_isize_cast(a: isize, y: usize)
    by (bit_vector)
    ensures
        ((a as usize) as isize) == a,
        ((y as isize) as usize) == y,
{
}

/// A signed word is handled as the unsigned word with the same bits, so
/// that every shift is a logical one.
impl BitField for isize {
    const BIT_LENGTH: usize = usize::BITS as usize;

    open spec fn width() -> nat {
        usize::BITS as nat
    }

    /// The bits of the two's complement pattern of the word.
    open spec fn bits(&self) -> Seq<bool> {
        (*self as usize).bits()
    }

    proof fn lemma_width() {
    }

    proof fn lemma_bits_len(&self) {
    }

    proof fn lemma_bits_injective(&self, other: &Self) {
        (*self as usize).lemma_bits_injective(&(*other as usize));
        lemma_isize_cast(*self, 0);
        lemma_isize_cast(*other, 0);
    }

    fn bit_length() -> (n: usize)
        ensures
            n == usize::BITS,
    {
        Self::BIT_LENGTH
    }

    fn get_bit(&self, bit: usize) -> (b: bool)
        ensures
            b == ((*self as usize) & (1usize << bit) != 0),
    {
        let word = #[verifier::truncate] (*self as usize);
        word.get_bit(bit)
    }

    fn get_bits(&self, range: Range<usize>) -> (r: Self)
        ensures
            r == range_usize(*self as usize, range.start, range.end) as isize,
    {
        let word = #[verifier::truncate] (*self as usize);
        let low = word.get_bits(range);
        proof {
            lemma_isize_cast(0, low);
        }
        #[verifier::truncate] (low as isize)
    }

    fn set_bit(&mut self, bit: usize, value: bool) -> (ret: &mut Self)
        ensures
            *ret == (if value {
                (*old(self) as usize) | (1usize << bit)
            } else {
                (*old(self) as usize) & !(1usize << bit)
            }) as isize,
    {
        let mut word = #[verifier::truncate] (*self as usize);
        word.set_bit(bit, value);
        proof {
            lemma_isize_cast(0, word);
        }
        *self = #[verifier::truncate] (word as isize);
        self
    }

    fn set_bits(&mut self, range: Range<usize>, value: Self) -> (ret: &mut Self)
        ensures
            *ret == (((*old(self) as usize) & !mask_usize(range.start, range.end)) | ((
            value as usize) << range.start)) as isize,
    {
        let mut word = #[verifier::truncate] (*self as usize);
        word.set_bits(range, #[verifier::truncate] (value as usize));
        proof {
            lemma_isize_cast(0, word);
        }
        *self = #[verifier::truncate] (word as isize);
        self
    }
}

} // verus!
