//! Laws that relate the operations to each other.
//!
//! Each law speaks of the values that the operations leave behind: a word
//! written by `set_bit` or `set_bits` is any word whose bits are what the
//! contract of that operation says, and likewise for the words of a slice.

use crate::layout::{flat, lemma_flat_injective};
use crate::field::BitField;
use crate::model::{
    extract, fits, lemma_extract_of_splice, lemma_splice_idempotent, splice,
};
use vstd::prelude::*;

verus! {

/// Round trip of one bit of a word: once `set_bit(bit, value)` has turned
/// `before` into `after`, `get_bit(bit)` on `after` gives `value`, and every
/// other bit of `after` is the bit of `before`.
pub proof fn lemma_word_set_bit_get_bit<T: BitField>(before: T, after: T, bit: int, value: bool)
    requires
        0 <= bit < T::width(),
        after.bits() == before.bits().update(bit, value),
    ensures
        after.bits()[bit] == value,
        forall|i: int|
            0 <= i < T::width() && i != bit ==> after.bits()[i] == #[trigger] before.bits()[i],
{
    before.lemma_bits_len();
}

/// Round trip of a range of a word: once `set_bits(start..end, value)` has
/// turned `before` into `after`, the word `read` that `get_bits(start..end)`
/// gives on `after` is `value`, and every bit of `after` outside the range
/// is the bit of `before`.
pub proof fn lemma_word_set_bits_get_bits<T: BitField>(
    before: T,
    after: T,
    start: int,
    end: int,
    value: T,
    read: T,
)
    requires
        0 <= start < end <= T::width(),
        fits(value.bits(), end - start),
        after.bits() == splice(before.bits(), start, end, value.bits()),
        read.bits() == extract(after.bits(), start, end, T::width()),
    ensures
        read == value,
        forall|i: int|
            0 <= i < T::width() && !(start <= i < end) ==> after.bits()[i]
                == #[trigger] before.bits()[i],
{
    before.lemma_bits_len();
    value.lemma_bits_len();
    lemma_extract_of_splice(before.bits(), start, end, value.bits());
    read.lemma_bits_injective(&value);
}

/// `set_bit` is idempotent on a word: a second call with the same
/// arguments leaves the word that the first call left.
pub proof fn lemma_word_set_bit_idempotent<T: BitField>(
    before: T,
    once: T,
    twice: T,
    bit: int,
    value: bool,
)
    requires
        0 <= bit < T::width(),
        once.bits() == before.bits().update(bit, value),
        twice.bits() == once.bits().update(bit, value),
    ensures
        twice == once,
{
    before.lemma_bits_len();
    assert(twice.bits() =~= once.bits());
    twice.lemma_bits_injective(&once);
}

/// `set_bits` is idempotent on a word: a second call with the same
/// arguments leaves the word that the first call left.
pub proof fn lemma_word_set_bits_idempotent<T: BitField>(
    before: T,
    once: T,
    twice: T,
    start: int,
    end: int,
    value: T,
)
    requires
        0 <= start < end <= T::width(),
        fits(value.bits(), end - start),
        once.bits() == splice(before.bits(), start, end, value.bits()),
        twice.bits() == splice(once.bits(), start, end, value.bits()),
    ensures
        twice == once,
{
    lemma_splice_idempotent(before.bits(), start, end, value.bits());
    twice.lemma_bits_injective(&once);
}

/// Round trip of one bit of a slice: once `set_bit(bit, value)` has turned
/// the words `before` into `after`, `get_bit(bit)` on `after` gives `value`,
/// and every other bit of `after` is the bit of `before`.
pub proof fn lemma_array_set_bit_get_bit<T: BitField>(
    before: Seq<T>,
    after: Seq<T>,
    bit: int,
    value: bool,
)
    requires
        0 <= bit < before.len() * T::width(),
        after.len() == before.len(),
        flat(after) == flat(before).update(bit, value),
    ensures
        flat(after)[bit] == value,
        forall|i: int|
            0 <= i < before.len() * T::width() && i != bit ==> flat(after)[i]
                == #[trigger] flat(before)[i],
{
}

/// Round trip of a range of a slice: once `set_bits(start..end, value)` has
/// turned the words `before` into `after`, the word `read` that
/// `get_bits(start..end)` gives on `after` is `value`, and every bit of
/// `after` outside the range is the bit of `before`. The range may lie in
/// one word or cross from one word into the next.
pub proof fn lemma_array_set_bits_get_bits<T: BitField>(
    before: Seq<T>,
    after: Seq<T>,
    start: int,
    end: int,
    value: T,
    read: T,
)
    requires
        0 <= start < end <= before.len() * T::width(),
        end - start <= T::width(),
        fits(value.bits(), end - start),
        after.len() == before.len(),
        flat(after) == splice(flat(before), start, end, value.bits()),
        read.bits() == extract(flat(after), start, end, T::width()),
    ensures
        read == value,
        forall|i: int|
            0 <= i < before.len() * T::width() && !(start <= i < end) ==> flat(after)[i]
                == #[trigger] flat(before)[i],
{
    value.lemma_bits_len();
    lemma_extract_of_splice(flat(before), start, end, value.bits());
    read.lemma_bits_injective(&value);
}

/// `set_bit` is idempotent on a slice: a second call with the same
/// arguments leaves the words that the first call left.
pub proof fn lemma_array_set_bit_idempotent<T: BitField>(
    before: Seq<T>,
    once: Seq<T>,
    twice: Seq<T>,
    bit: int,
    value: bool,
)
    requires
        0 <= bit < before.len() * T::width(),
        once.len() == before.len(),
        twice.len() == once.len(),
        flat(once) == flat(before).update(bit, value),
        flat(twice) == flat(once).update(bit, value),
    ensures
        twice == once,
{
    assert(flat(twice) =~= flat(once));
    lemma_flat_injective(twice, once);
}

/// `set_bits` is idempotent on a slice: a second call with the same
/// arguments leaves the words that the first call left.
pub proof fn lemma_array_set_bits_idempotent<T: BitField>(
    before: Seq<T>,
    once: Seq<T>,
    twice: Seq<T>,
    start: int,
    end: int,
    value: T,
)
    requires
        0 <= start < end <= before.len() * T::width(),
        end - start <= T::width(),
        fits(value.bits(), end - start),
        once.len() == before.len(),
        twice.len() == once.len(),
        flat(once) == splice(flat(before), start, end, value.bits()),
        flat(twice) == splice(flat(once), start, end, value.bits()),
    ensures
        twice == once,
{
    lemma_splice_idempotent(flat(before), start, end, value.bits());
    lemma_flat_injective(twice, once);
}

/// Across the boundary of a slice of two words, writing and reading are
/// symmetric: for a range that starts in the first word and ends in the
/// second, once `set_bits(start..end, value)` has turned the words `before`
/// into `after`, the word `read` that `get_bits(start..end)` gives on
/// `after` is `value`, and every bit of either word outside the range is as
/// it was.
pub proof fn lemma_array_boundary_round_trip<T: BitField>(
    before: Seq<T>,
    after: Seq<T>,
    start: int,
    end: int,
    value: T,
    read: T,
)
    requires
        before.len() == 2,
        after.len() == 2,
        0 <= start < T::width() < end <= 2 * T::width(),
        end - start <= T::width(),
        fits(value.bits(), end - start),
        flat(after) == splice(flat(before), start, end, value.bits()),
        read.bits() == extract(flat(after), start, end, T::width()),
    ensures
        read == value,
        forall|i: int|
            0 <= i < 2 * T::width() && !(start <= i < end) ==> flat(after)[i]
                == #[trigger] flat(before)[i],
{
    lemma_array_set_bits_get_bits(before, after, start, end, value, read);
}

} // verus!
