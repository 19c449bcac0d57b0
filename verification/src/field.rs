//! The bit-field interface of a single fixed-width word.

use crate::model::{extract, fits, splice};
use core::ops::Range;
use vstd::prelude::*;

verus! {

/// A fixed-width word whose bits can be read and written one at a time or as
/// a contiguous range.
///
/// Bit 0 is the least significant bit and bit `BIT_LENGTH - 1` the most
/// significant one. Signed words are handled as their two's complement bit
/// pattern: no operation extends a sign.
pub trait BitField: Sized {
    /// The number of bits in a word of this type.
    const BIT_LENGTH: usize;

    /// The number of bits in a word of this type, for use in contracts.
    spec fn width() -> nat;

    /// The bits of the word, least significant first.
    spec fn bits(&self) -> Seq<bool>;

    /// A word type has at least one bit, and `BIT_LENGTH` is its width.
    proof fn lemma_width()
        ensures
            0 < Self::width(),
            Self::BIT_LENGTH == Self::width(),
    ;

    /// Every word has exactly `width()` bits.
    proof fn lemma_bits_len(&self)
        ensures
            self.bits().len() == Self::width(),
    ;

    /// A word is determined by its bits.
    proof fn lemma_bits_injective(&self, other: &Self)
        requires
            self.bits() == other.bits(),
        ensures
            self == other,
    ;

    /// The number of bits in a word of this type.
    fn bit_length() -> (n: usize)
        ensures
            n == Self::width(),
    ;

    /// Reads the bit at index `bit`.
    fn get_bit(&self, bit: usize) -> (b: bool)
        requires
            bit < Self::width(),
        ensures
            b == self.bits()[bit as int],
    ;

    /// Reads the bits `range.start..range.end`. They come back in the lowest
    /// positions of the result, whose other bits are clear.
    fn get_bits(&self, range: Range<usize>) -> (r: Self)
        requires
            range.start < range.end <= Self::width(),
        ensures
            r.bits() == extract(
                self.bits(),
                range.start as int,
                range.end as int,
                Self::width(),
            ),
    ;

    /// Sets the bit at index `bit` to `value` and leaves every other bit as
    /// it was.
    fn set_bit(&mut self, bit: usize, value: bool) -> (ret: &mut Self)
        requires
            bit < Self::width(),
        ensures
            ret.bits() == old(self).bits().update(bit as int, value),
            *final(self) == *final(ret),
    ;

    /// Overwrites the bits `range.start..range.end` with the lowest bits of
    /// `value` and leaves every other bit as it was. `value` must not have a
    /// bit set at or above the width of the range.
    fn set_bits(&mut self, range: Range<usize>, value: Self) -> (ret: &mut Self)
        requires
            range.start < range.end <= Self::width(),
            fits(value.bits(), range.end - range.start),
        ensures
            ret.bits() == splice(
                old(self).bits(),
                range.start as int,
                range.end as int,
                value.bits(),
            ),
            *final(self) == *final(ret),
    ;
}

} // verus!
