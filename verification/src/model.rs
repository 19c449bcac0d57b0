//! Bit patterns as sequences of booleans, and the two range operations on them.
//!
//! Index 0 of a pattern is its least significant bit.

use vstd::prelude::*;

verus! {

/// Whether `bits` has no set bit at position `width` or above.
pub open spec fn fits(bits: Seq<bool>, width: int) -> bool {
    forall|i: int| width <= i < bits.len() ==> !#[trigger] bits[i]
}

/// The bits `[start, end)` of `bits`, moved down to position 0 and padded
/// with cleared bits up to `width` positions.
pub open spec fn extract(bits: Seq<bool>, start: int, end: int, width: nat) -> Seq<bool> {
    Seq::new(width, |i: int| i < end - start && bits[start + i])
}

/// `bits` with the positions `[start, end)` replaced by the lowest
/// `end - start` positions of `value`.
pub open spec fn splice(bits: Seq<bool>, start: int, end: int, value: Seq<bool>) -> Seq<bool> {
    Seq::new(
        bits.len(),
        |i: int|
            if start <= i < end {
                value[i - start]
            } else {
                bits[i]
            },
    )
}

/// A range can be read in two parts: the part below `mid` on its own, and
/// the part from `mid` on written above it.
pub proof fn lemma_extract_split(bits: Seq<bool>, start: int, mid: int, end: int, width: nat)
    requires
        start <= mid <= end,
        end - start <= width,
    ensures
        extract(bits, start, end, width) == splice(
            extract(bits, start, mid, width),
            mid - start,
            end - start,
            extract(bits, mid, end, width),
        ),
{
    let whole = extract(bits, start, end, width);
    let joined = splice(
        extract(bits, start, mid, width),
        mid - start,
        end - start,
        extract(bits, mid, end, width),
    );
    assert forall|i: int| 0 <= i < width implies whole[i] == joined[i] by {
        if mid - start <= i < end - start {
            assert(extract(bits, mid, end, width)[i - (mid - start)] == bits[start + i]);
        }
    }
    assert(whole =~= joined);
}

/// A range can be written in two parts: the lowest `mid - start` bits of
/// the value below `mid`, and the remaining bits of the value from `mid` on.
pub proof fn lemma_splice_split(
    bits: Seq<bool>,
    start: int,
    mid: int,
    end: int,
    value: Seq<bool>,
    width: nat,
)
    requires
        start <= mid <= end,
        end - start <= width,
    ensures
        splice(bits, start, end, value) == splice(
            splice(bits, start, mid, extract(value, 0, mid - start, width)),
            mid,
            end,
            extract(value, mid - start, end - start, width),
        ),
{
    let whole = splice(bits, start, end, value);
    let low = extract(value, 0, mid - start, width);
    let high = extract(value, mid - start, end - start, width);
    let parts = splice(splice(bits, start, mid, low), mid, end, high);
    assert forall|i: int| 0 <= i < bits.len() implies whole[i] == parts[i] by {
        if mid <= i < end {
            assert(high[i - mid] == value[i - start]);
        } else if start <= i < mid {
            assert(low[i - start] == value[i - start]);
        }
    }
    assert(whole =~= parts);
}

/// Reading back a range that was just written gives the value that was
/// written, provided the value fits the range.
pub proof fn lemma_extract_of_splice(bits: Seq<bool>, start: int, end: int, value: Seq<bool>)
    requires
        0 <= start <= end <= bits.len(),
        end - start <= value.len(),
        fits(value, end - start),
    ensures
        extract(splice(bits, start, end, value), start, end, value.len()) == value,
{
    let read = extract(splice(bits, start, end, value), start, end, value.len());
    assert forall|i: int| 0 <= i < value.len() implies read[i] == value[i] by {
        if i >= end - start {
            assert(!value[i]);
        }
    }
    assert(read =~= value);
}

/// Writing the same value to the same range a second time changes nothing.
pub proof fn lemma_splice_idempotent(bits: Seq<bool>, start: int, end: int, value: Seq<bool>)
    ensures
        splice(splice(bits, start, end, value), start, end, value) == splice(
            bits,
            start,
            end,
            value,
        ),
{
    let once = splice(bits, start, end, value);
    assert(splice(once, start, end, value) =~= once);
}

} // verus!
