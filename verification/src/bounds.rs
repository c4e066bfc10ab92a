//! The pixel bounds of a box in world coordinates.
//!
//! Under a transform with rotation or skew the corners of a box that is
//! aligned with the world axes do not map to the corners of a box aligned
//! with the pixel axes, so all four corners are mapped and the least and the
//! greatest column and row among them are taken.

use vstd::prelude::*;
use crate::sample::{is_nan, is_nan_bits, sample_less, sample_lt, INFINITY_BITS, SIGN_BIT};

verus! {

/// The pattern of negative infinity.
pub const NEG_INFINITY_BITS: u64 = 0xFFF0_0000_0000_0000;

/// The lesser of two numbers. Where one is NaN the other is taken; of two
/// that stand for the same number, the first.
pub open spec fn lesser(a: u64, b: u64) -> u64 {
    if is_nan(a) {
        b
    } else if is_nan(b) {
        a
    } else if sample_lt(b, a) {
        b
    } else {
        a
    }
}

/// The greater of two numbers. Where one is NaN the other is taken; of two
/// that stand for the same number, the first.
pub open spec fn greater(a: u64, b: u64) -> u64 {
    if is_nan(a) {
        b
    } else if is_nan(b) {
        a
    } else if sample_lt(a, b) {
        b
    } else {
        a
    }
}

/// The least of the first `upto` numbers and positive infinity.
pub open spec fn least_upto(s: Seq<u64>, upto: int) -> u64
    decreases upto,
{
    if upto <= 0 {
        INFINITY_BITS
    } else {
        lesser(least_upto(s, upto - 1), s[upto - 1])
    }
}

/// The greatest of the first `upto` numbers and negative infinity.
pub open spec fn greatest_upto(s: Seq<u64>, upto: int) -> u64
    decreases upto,
{
    if upto <= 0 {
        NEG_INFINITY_BITS
    } else {
        greater(greatest_upto(s, upto - 1), s[upto - 1])
    }
}

/// The lesser of two numbers.
pub fn lesser_bits(a: u64, b: u64) -> (r: u64)
    ensures
        r == lesser(a, b),
{
    if is_nan_bits(a) {
        b
    } else if is_nan_bits(b) {
        a
    } else if sample_less(b, a) {
        b
    } else {
        a
    }
}

/// The greater of two numbers.
pub fn greater_bits(a: u64, b: u64) -> (r: u64)
    ensures
        r == greater(a, b),
{
    if is_nan_bits(a) {
        b
    } else if is_nan_bits(b) {
        a
    } else if sample_less(a, b) {
        b
    } else {
        a
    }
}

/// The least and the greatest column and row among mapped corners, by
/// their patterns.
#[derive(Debug, Clone, Copy, PartialEq, Eq, Structural)]
pub struct CornerBounds {
    pub min_col: u64,
    pub max_col: u64,
    pub min_row: u64,
    pub max_row: u64,
}

/// The columns of the corners, in their order.
pub open spec fn columns(corners: [(u64, u64); 4]) -> Seq<u64> {
    seq![corners[0].0, corners[1].0, corners[2].0, corners[3].0]
}

/// The rows of the corners, in their order.
pub open spec fn rows(corners: [(u64, u64); 4]) -> Seq<u64> {
    seq![corners[0].1, corners[1].1, corners[2].1, corners[3].1]
}

/// The bounds of the four corners of a box, each given as the patterns of
/// its column and its row in pixel coordinates. A coordinate that is NaN is
/// passed over; where all four are, the least is positive infinity and the
/// greatest negative infinity.
pub fn corner_bounds(corners: [(u64, u64); 4]) -> (b: CornerBounds)
    ensures
        b.min_col == least_upto(columns(corners), 4),
        b.max_col == greatest_upto(columns(corners), 4),
        b.min_row == least_upto(rows(corners), 4),
        b.max_row == greatest_upto(rows(corners), 4),
{
    let mut b = CornerBounds {
        min_col: INFINITY_BITS,
        max_col: NEG_INFINITY_BITS,
        min_row: INFINITY_BITS,
        max_row: NEG_INFINITY_BITS,
    };
    let mut i: usize = 0;
    while i < 4
        invariant
            i <= 4,
            b.min_col == least_upto(columns(corners), i as int),
            b.max_col == greatest_upto(columns(corners), i as int),
            b.min_row == least_upto(rows(corners), i as int),
            b.max_row == greatest_upto(rows(corners), i as int),
        decreases 4 - i,
    {
        let (col, row) = corners[i];
        assert(columns(corners)[i as int] == col);
        assert(rows(corners)[i as int] == row);
        b.min_col = lesser_bits(b.min_col, col);
        b.max_col = greater_bits(b.max_col, col);
        b.min_row = lesser_bits(b.min_row, row);
        b.max_row = greater_bits(b.max_row, row);
        i += 1;
    }
    b
}

/// Every number among the first `upto` that is not NaN lies between the
/// least and the greatest of them, and neither of the two is NaN.
pub proof fn lemma_bounds_hold_every_number(s: Seq<u64>, upto: int, i: int)
    requires
        0 <= i < upto <= s.len(),
    ensures
        !is_nan(least_upto(s, upto)),
        !is_nan(greatest_upto(s, upto)),
        !is_nan(s[i]) ==> !sample_lt(s[i], least_upto(s, upto)) && !sample_lt(
            greatest_upto(s, upto),
            s[i],
        ),
    decreases upto,
{
    lemma_bounds_not_nan(s, upto - 1);
    if i < upto - 1 {
        lemma_bounds_hold_every_number(s, upto - 1, i);
    }
}

/// Neither the least nor the greatest of the first `upto` numbers is NaN.
pub proof fn lemma_bounds_not_nan(s: Seq<u64>, upto: int)
    ensures
        !is_nan(least_upto(s, upto)),
        !is_nan(greatest_upto(s, upto)),
    decreases upto,
{
    if upto > 0 {
        lemma_bounds_not_nan(s, upto - 1);
    } else {
        assert(SIGN_BIT == 0x8000_0000_0000_0000);
    }
}

/// The least of the first `upto` numbers is one of them, unless each of them
/// is NaN or positive infinity; and likewise the greatest.
pub proof fn lemma_bounds_are_attained(s: Seq<u64>, upto: int)
    requires
        0 <= upto <= s.len(),
    ensures
        least_upto(s, upto) == INFINITY_BITS || exists|i: int|
            0 <= i < upto && s[i] == least_upto(s, upto),
        greatest_upto(s, upto) == NEG_INFINITY_BITS || exists|i: int|
            0 <= i < upto && s[i] == greatest_upto(s, upto),
    decreases upto,
{
    if upto > 0 {
        lemma_bounds_are_attained(s, upto - 1);
        let low = least_upto(s, upto - 1);
        if least_upto(s, upto) != INFINITY_BITS {
            if least_upto(s, upto) == low {
                let i = choose|i: int| 0 <= i < upto - 1 && s[i] == low;
                assert(0 <= i < upto && s[i] == least_upto(s, upto));
            } else {
                assert(s[upto - 1] == least_upto(s, upto));
            }
        }
        let high = greatest_upto(s, upto - 1);
        if greatest_upto(s, upto) != NEG_INFINITY_BITS {
            if greatest_upto(s, upto) == high {
                let i = choose|i: int| 0 <= i < upto - 1 && s[i] == high;
                assert(0 <= i < upto && s[i] == greatest_upto(s, upto));
            } else {
                assert(s[upto - 1] == greatest_upto(s, upto));
            }
        }
    }
}

} // verus!
