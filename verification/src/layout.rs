//! How the bits of a sequence of words are laid out as one flat sequence.
//!
//! Position `i` of the flat sequence is bit `i % width` of the word at index
//! `i / width`: earlier words hold the less significant positions.

use crate::field::BitField;
use crate::model::{extract, splice};
use vstd::arithmetic::div_mod::{lemma_fundamental_div_mod, lemma_fundamental_div_mod_converse};
use vstd::prelude::*;

verus! {

/// The bits of a sequence of words, laid end to end: first all bits of the
/// word at index 0, least significant first, then those of the next word.
pub open spec fn flat<T: BitField>(words: Seq<T>) -> Seq<bool> {
    Seq::new(
        words.len() * T::width(),
        |i: int| words[i / T::width() as int].bits()[i % T::width() as int],
    )
}

/// Position `i` of `count` words of `width` bits each lies in the word at
/// index `i / width`, at the bit index `i % width`.
pub proof fn lemma_locate(i: int, width: int, count: int)
    requires
        0 < width,
        0 <= i < count * width,
    ensures
        0 <= i / width < count,
        0 <= i % width < width,
        i == (i / width) * width + i % width,
{
    lemma_fundamental_div_mod(i, width);
    let q = i / width;
    let r = i % width;
    assert(0 <= r < width);
    assert(i == q * width + r) by (nonlinear_arith)
        requires
            i == width * q + r,
    ;
    assert(0 <= q < count) by (nonlinear_arith)
        requires
            0 < width,
            0 <= r < width,
            0 <= q * width + r < count * width,
    ;
}

/// A range of at most one word's width lies inside one word, or starts in
/// one word and ends in the next one or at its very beginning.
pub proof fn lemma_locate_range(start: int, end: int, width: int, count: int)
    requires
        0 < width,
        0 <= start < end <= count * width,
        end - start <= width,
    ensures
        0 <= start / width < count,
        0 <= start % width < width,
        0 <= end % width < width,
        start == (start / width) * width + start % width,
        end == (end / width) * width + end % width,
        start / width == end / width ==> start % width < end % width,
        start / width != end / width ==> {
            &&& end / width == start / width + 1
            &&& (end / width) * width == (start / width) * width + width
            &&& end % width <= start % width
            &&& end % width > 0 ==> end / width < count
        },
        (end - 1) / width == if end % width == 0 {
            start / width
        } else {
            end / width
        },
{
    lemma_locate(start, width, count);
    lemma_fundamental_div_mod(end, width);
    let first = start / width;
    let lo = start % width;
    let last = end / width;
    let hi = end % width;
    assert(0 <= hi < width);
    assert(end == last * width + hi) by (nonlinear_arith)
        requires
            end == width * last + hi,
    ;
    assert(first <= last <= first + 1) by (nonlinear_arith)
        requires
            0 < width,
            0 <= lo < width,
            0 <= hi < width,
            first * width + lo < last * width + hi,
            (last * width + hi) - (first * width + lo) <= width,
    ;
    if first != last {
        assert(last * width == first * width + width) by (nonlinear_arith)
            requires
                last == first + 1,
        ;
        if hi > 0 {
            assert(last < count) by (nonlinear_arith)
                requires
                    0 < width,
                    0 < hi,
                    last * width + hi <= count * width,
            ;
        }
    }
    if hi == 0 {
        lemma_fundamental_div_mod_converse(end - 1, width, first, width - 1);
    } else {
        lemma_fundamental_div_mod_converse(end - 1, width, last, hi - 1);
    }
}

/// Bit `index` of the word at index `word` is position
/// `word * width + index` of the flat sequence.
pub proof fn lemma_flat_index<T: BitField>(words: Seq<T>, word: int, index: int)
    requires
        0 <= word < words.len(),
        0 <= index < T::width(),
    ensures
        0 <= word * T::width() + index < flat(words).len(),
        flat(words)[word * T::width() + index] == words[word].bits()[index],
{
    let width = T::width() as int;
    let i = word * width + index;
    lemma_fundamental_div_mod_converse(i, width, word, index);
    assert(0 <= i < words.len() * width) by (nonlinear_arith)
        requires
            i == word * width + index,
            0 <= word < words.len(),
            0 <= index < width,
    ;
}

/// A sequence of words is determined by its length and its flat bits.
pub proof fn lemma_flat_injective<T: BitField>(a: Seq<T>, b: Seq<T>)
    requires
        a.len() == b.len(),
        flat(a) == flat(b),
    ensures
        a == b,
{
    assert forall|k: int| 0 <= k < a.len() implies a[k] == b[k] by {
        a[k].lemma_bits_len();
        b[k].lemma_bits_len();
        assert forall|j: int| 0 <= j < T::width() implies a[k].bits()[j] == b[k].bits()[j] by {
            lemma_flat_index(a, k, j);
            lemma_flat_index(b, k, j);
        }
        assert(a[k].bits() =~= b[k].bits());
        a[k].lemma_bits_injective(&b[k]);
    }
    assert(a =~= b);
}

/// Reading a range that lies inside the word at index `word` reads that
/// range of the word.
pub proof fn lemma_extract_within_word<T: BitField>(words: Seq<T>, word: int, lo: int, hi: int)
    requires
        0 <= word < words.len(),
        0 <= lo <= hi <= T::width(),
    ensures
        extract(
            flat(words),
            word * T::width() + lo,
            word * T::width() + hi,
            T::width(),
        ) == extract(words[word].bits(), lo, hi, T::width()),
{
    let width = T::width() as int;
    let base = word * width;
    let direct = extract(flat(words), base + lo, base + hi, width as nat);
    let inner = extract(words[word].bits(), lo, hi, width as nat);
    assert forall|j: int| 0 <= j < width implies direct[j] == inner[j] by {
        if j < hi - lo {
            lemma_flat_index(words, word, lo + j);
        }
    }
    assert(direct =~= inner);
}

/// Writing a range that lies inside the word at index `word` changes that
/// range of the word and no other word.
pub proof fn lemma_splice_within_word<T: BitField>(
    words: Seq<T>,
    word: int,
    lo: int,
    hi: int,
    value: Seq<bool>,
    written: T,
)
    requires
        0 <= word < words.len(),
        0 <= lo <= hi <= T::width(),
        written.bits() == splice(words[word].bits(), lo, hi, value),
    ensures
        flat(words.update(word, written)) == splice(
            flat(words),
            word * T::width() + lo,
            word * T::width() + hi,
            value,
        ),
{
    let width = T::width() as int;
    let base = word * width;
    let after = flat(words.update(word, written));
    let want = splice(flat(words), base + lo, base + hi, value);
    words[word].lemma_bits_len();
    assert forall|i: int| 0 <= i < after.len() implies after[i] == want[i] by {
        lemma_locate(i, width, words.len() as int);
        if i / width == word {
        } else if base + lo <= i < base + hi {
            lemma_fundamental_div_mod_converse(i, width, word, i - base);
        }
    }
    assert(after =~= want);
}

} // verus!
