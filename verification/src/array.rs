//! Bit-level access to a slice of words.

use crate::field::BitField;
use crate::layout::{
    flat, lemma_extract_within_word, lemma_locate, lemma_locate_range, lemma_splice_within_word,
};
use crate::model::{extract, fits, lemma_extract_split, lemma_splice_split, splice};
use core::ops::Range;
use vstd::prelude::*;

verus! {

/// A slice of words whose bits can be read and written by their position in
/// the whole slice.
///
/// A range may lie in one word or straddle the boundary between two
/// neighbouring words; it is never wider than one word.
pub trait BitArray<T: BitField>: View<V = Seq<T>> {
    /// The number of bits in the slice.
    fn bit_length(&self) -> (n: usize)
        requires
            self@.len() * T::width() <= usize::MAX,
        ensures
            n == self@.len() * T::width(),
            n == flat(self@).len(),
    ;

    /// Reads the bit at position `bit`.
    fn get_bit(&self, bit: usize) -> (b: bool)
        requires
            bit < self@.len() * T::width(),
        ensures
            b == flat(self@)[bit as int],
    ;

    /// Reads the bits at the positions `range.start..range.end`, which may
    /// lie in one word or straddle two neighbouring words. They come back
    /// in the lowest positions of the result, whose other bits are clear; a
    /// bit from an earlier word is less significant than one from a later
    /// word.
    fn get_bits(&self, range: Range<usize>) -> (r: T)
        requires
            range.start < range.end <= self@.len() * T::width(),
            range.end - range.start <= T::width(),
        ensures
            r.bits() == extract(
                flat(self@),
                range.start as int,
                range.end as int,
                T::width(),
            ),
    ;

    /// Sets the bit at position `bit` to `value` and leaves every other bit
    /// as it was.
    fn set_bit(&mut self, bit: usize, value: bool)
        requires
            bit < old(self)@.len() * T::width(),
        ensures
            final(self)@.len() == old(self)@.len(),
            flat(final(self)@) == flat(old(self)@).update(bit as int, value),
    ;

    /// Overwrites the bits at the positions `range.start..range.end`, which
    /// may lie in one word or straddle two neighbouring words, with the
    /// lowest bits of `value`, and leaves every other bit as it was. `value`
    /// must not have a bit set at or above the width of the range.
    fn set_bits(&mut self, range: Range<usize>, value: T)
        requires
            range.start < range.end <= old(self)@.len() * T::width(),
            range.end - range.start <= T::width(),
            fits(value.bits(), range.end - range.start),
        ensures
            final(self)@.len() == old(self)@.len(),
            flat(final(self)@) == splice(
                flat(old(self)@),
                range.start as int,
                range.end as int,
                value.bits(),
            ),
    ;
}

impl<T: BitField> BitArray<T> for [T] {
    fn bit_length(&self) -> (n: usize)
        ensures
            n == self@.len() * T::width(),
    {
        proof {
            T::lemma_width();
        }
        self.len() * T::BIT_LENGTH
    }

    /// The bit is bit `bit % BIT_LENGTH` of the word at index
    /// `bit / BIT_LENGTH`.
    fn get_bit(&self, bit: usize) -> (b: bool)
        ensures
            b == flat(self@)[bit as int],
            b == self@[bit as int / T::width() as int].bits()[bit as int
                % T::width() as int],
    {
        proof {
            T::lemma_width();
            lemma_locate(bit as int, T::width() as int, self@.len() as int);
        }
        let slice_index = bit / T::BIT_LENGTH;
        let bit_index = bit % T::BIT_LENGTH;
        self[slice_index].get_bit(bit_index)
    }

    /// A range inside one word is read from that word. A range across a
    /// boundary is read in two parts, the one from the earlier word going to
    /// the lower positions of the result.
    fn get_bits(&self, range: Range<usize>) -> (r: T)
        ensures
            r.bits() == extract(
                flat(self@),
                range.start as int,
                range.end as int,
                T::width(),
            ),
            fits(r.bits(), range.end - range.start),
    {
        proof {
            T::lemma_width();
            lemma_locate_range(
                range.start as int,
                range.end as int,
                T::width() as int,
                self@.len() as int,
            );
        }
        let slice_start = range.start / T::BIT_LENGTH;
        let slice_end = range.end / T::BIT_LENGTH;
        let bit_start = range.start % T::BIT_LENGTH;
        let bit_end = range.end % T::BIT_LENGTH;
        let len = range.end - range.start;

        // a range no wider than one word crosses at most one boundary
        assert(slice_end - slice_start <= 1);

        if slice_start == slice_end {
            proof {
                lemma_extract_within_word(
                    self@,
                    slice_start as int,
                    bit_start as int,
                    bit_end as int,
                );
            }
            self[slice_start].get_bits(bit_start..bit_end)
        } else if bit_end == 0 {
            proof {
                lemma_extract_within_word(
                    self@,
                    slice_start as int,
                    bit_start as int,
                    T::width() as int,
                );
            }
            self[slice_start].get_bits(bit_start..T::BIT_LENGTH)
        } else {
            let mut ret = self[slice_start].get_bits(bit_start..T::BIT_LENGTH);
            ret.set_bits((T::BIT_LENGTH - bit_start)..len, self[slice_end].get_bits(0..bit_end));
            proof {
                let boundary = slice_end * T::width();
                lemma_extract_within_word(
                    self@,
                    slice_start as int,
                    bit_start as int,
                    T::width() as int,
                );
                lemma_extract_within_word(self@, slice_end as int, 0, bit_end as int);
                lemma_extract_split(
                    flat(self@),
                    range.start as int,
                    boundary,
                    range.end as int,
                    T::width(),
                );
            }
            ret
        }
    }

    /// Only the word at index `bit / BIT_LENGTH` changes.
    fn set_bit(&mut self, bit: usize, value: bool)
        ensures
            final(self)@.len() == old(self)@.len(),
            flat(final(self)@) == flat(old(self)@).update(bit as int, value),
            forall|k: int|
                0 <= k < old(self)@.len() && k != bit as int / T::width() as int
                    ==> final(self)@[k] == old(self)@[k],
    {
        proof {
            T::lemma_width();
            lemma_locate(bit as int, T::width() as int, self@.len() as int);
        }
        let slice_index = bit / T::BIT_LENGTH;
        let bit_index = bit % T::BIT_LENGTH;
        self[slice_index].set_bit(bit_index, value);
        proof {
            let before = old(self)@;
            let word = slice_index as int;
            let index = bit_index as int;
            before[word].lemma_bits_len();
            assert(self@ == before.update(word, self@[word]));
            assert(self@[word].bits() =~= splice(
                before[word].bits(),
                index,
                index + 1,
                seq![value],
            ));
            lemma_splice_within_word(before, word, index, index + 1, seq![value], self@[word]);
            assert(flat(self@) =~= flat(before).update(bit as int, value));
        }
    }

    /// A range inside one word is written to that word. A range across a
    /// boundary is written in two parts, the lower positions of `value`
    /// going to the earlier word. No word outside the range changes.
    fn set_bits(&mut self, range: Range<usize>, value: T)
        ensures
            final(self)@.len() == old(self)@.len(),
            flat(final(self)@) == splice(
                flat(old(self)@),
                range.start as int,
                range.end as int,
                value.bits(),
            ),
            forall|k: int|
                0 <= k < old(self)@.len() && !(range.start as int / T::width() as int <= k
                    <= (range.end - 1) / T::width() as int) ==> final(self)@[k] == old(self)@[k],
    {
        proof {
            T::lemma_width();
            lemma_locate_range(
                range.start as int,
                range.end as int,
                T::width() as int,
                self@.len() as int,
            );
        }
        let slice_start = range.start / T::BIT_LENGTH;
        let slice_end = range.end / T::BIT_LENGTH;
        let bit_start = range.start % T::BIT_LENGTH;
        let bit_end = range.end % T::BIT_LENGTH;
        let len = range.end - range.start;
        let ghost before = self@;
        let ghost bits = value.bits();

        // a range no wider than one word crosses at most one boundary
        assert(slice_end - slice_start <= 1);

        if slice_start == slice_end {
            self[slice_start].set_bits(bit_start..bit_end, value);
            proof {
                let word = slice_start as int;
                assert(self@ == before.update(word, self@[word]));
                lemma_splice_within_word(
                    before,
                    word,
                    bit_start as int,
                    bit_end as int,
                    bits,
                    self@[word],
                );
            }
        } else if bit_end == 0 {
            self[slice_start].set_bits(bit_start..T::BIT_LENGTH, value);
            proof {
                let word = slice_start as int;
                assert(self@ == before.update(word, self@[word]));
                lemma_splice_within_word(
                    before,
                    word,
                    bit_start as int,
                    T::width() as int,
                    bits,
                    self@[word],
                );
            }
        } else {
            let low = value.get_bits(0..T::BIT_LENGTH - bit_start);
            self[slice_start].set_bits(bit_start..T::BIT_LENGTH, low);
            let ghost half = self@;
            let high = value.get_bits(T::BIT_LENGTH - bit_start..len);
            self[slice_end].set_bits(0..bit_end, high);
            proof {
                let first = slice_start as int;
                let second = slice_end as int;
                let boundary = second * T::width();
                assert(half == before.update(first, half[first]));
                lemma_splice_within_word(
                    before,
                    first,
                    bit_start as int,
                    T::width() as int,
                    low.bits(),
                    half[first],
                );
                assert(self@ == half.update(second, self@[second]));
                lemma_splice_within_word(
                    half,
                    second,
                    0,
                    bit_end as int,
                    high.bits(),
                    self@[second],
                );
                lemma_splice_split(
                    flat(before),
                    range.start as int,
                    boundary,
                    range.end as int,
                    bits,
                    T::width(),
                );
            }
        }
    }
}

} // verus!
