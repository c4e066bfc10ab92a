//! Raster samples as bit patterns of IEEE-754 doubles.
//!
//! A double is a sign bit, eleven exponent bits and fifty-two fraction bits.
//! With the sign bit cleared, the patterns of the numbers that are not NaN
//! grow with the magnitude they stand for, so sign and magnitude order the
//! samples exactly as their numeric values do, and no arithmetic on the
//! numbers themselves is needed for classing and comparing them.

use vstd::prelude::*;

verus! {

/// The pattern with only the sign bit set.
pub const SIGN_BIT: u64 = 0x8000_0000_0000_0000;

/// The pattern of positive infinity: every exponent bit set, no fraction bit.
pub const INFINITY_BITS: u64 = 0x7FF0_0000_0000_0000;

/// The pattern of the NaN that stands for a number that does not exist.
pub const NAN_BITS: u64 = 0x7FF8_0000_0000_0000;

/// The pattern with the sign bit cleared.
pub open spec fn magnitude(bits: u64) -> int {
    if bits >= SIGN_BIT {
        bits - SIGN_BIT
    } else {
        bits as int
    }
}

/// Whether the sign bit is set.
pub open spec fn is_negative(bits: u64) -> bool {
    bits >= SIGN_BIT
}

/// A pattern is NaN when its exponent bits are all set and a fraction bit is.
pub open spec fn is_nan(bits: u64) -> bool {
    magnitude(bits) > INFINITY_BITS
}

/// A pattern is finite unless its exponent bits are all set.
pub open spec fn is_finite(bits: u64) -> bool {
    magnitude(bits) < INFINITY_BITS
}

/// The place of a pattern on the number line: the magnitude, negated under a
/// set sign bit. Both zeros share the place 0.
pub open spec fn order_key(bits: u64) -> int {
    if is_negative(bits) {
        -magnitude(bits)
    } else {
        magnitude(bits)
    }
}

/// Numeric "less than" on patterns. A NaN is neither below nor above anything.
pub open spec fn sample_lt(a: u64, b: u64) -> bool {
    !is_nan(a) && !is_nan(b) && order_key(a) < order_key(b)
}

/// No pattern of the sequence is NaN.
pub open spec fn nan_free(s: Seq<u64>) -> bool {
    forall|i: int| 0 <= i < s.len() ==> !is_nan(#[trigger] s[i])
}

/// One raster cell as it was read: its pattern, and whether its value lies
/// within machine epsilon of the nodata value in force.
#[derive(Debug, Clone, Copy, PartialEq, Eq, Structural)]
pub struct Sample {
    pub bits: u64,
    pub near_nodata: bool,
}

/// The three classes of a cell. Each cell falls under exactly one.
#[derive(Debug, Clone, Copy, PartialEq, Eq, Structural)]
pub enum CellClass {
    /// A number to be aggregated.
    Valid,
    /// The marker of a missing measurement.
    Nodata,
    /// An infinity or a NaN.
    NonFinite,
}

impl Sample {
    /// Nodata is tested first, finiteness second.
    pub open spec fn spec_class(&self) -> CellClass {
        if self.near_nodata {
            CellClass::Nodata
        } else if !is_finite(self.bits) {
            CellClass::NonFinite
        } else {
            CellClass::Valid
        }
    }

    /// The class of the cell.
    pub fn class(&self) -> (c: CellClass)
        ensures
            c == self.spec_class(),
    {
        if self.near_nodata {
            CellClass::Nodata
        } else if !is_finite_bits(self.bits) {
            CellClass::NonFinite
        } else {
            CellClass::Valid
        }
    }
}

/// The pattern with the sign bit cleared.
pub fn magnitude_bits(bits: u64) -> (m: u64)
    ensures
        m == magnitude(bits),
{
    if bits >= SIGN_BIT {
        bits - SIGN_BIT
    } else {
        bits
    }
}

/// Whether the pattern stands for a NaN.
pub fn is_nan_bits(bits: u64) -> (r: bool)
    ensures
        r == is_nan(bits),
{
    magnitude_bits(bits) > INFINITY_BITS
}

/// Whether the pattern stands for a finite number.
pub fn is_finite_bits(bits: u64) -> (r: bool)
    ensures
        r == is_finite(bits),
{
    magnitude_bits(bits) < INFINITY_BITS
}

/// Whether `a` stands for a smaller number than `b`.
pub fn sample_less(a: u64, b: u64) -> (r: bool)
    ensures
        r == sample_lt(a, b),
{
    if is_nan_bits(a) || is_nan_bits(b) {
        return false;
    }
    let ma: u64 = magnitude_bits(a);
    let mb: u64 = magnitude_bits(b);
    if a >= SIGN_BIT {
        if b >= SIGN_BIT {
            ma > mb
        } else {
            ma > 0 || mb > 0
        }
    } else {
        if b >= SIGN_BIT {
            false
        } else {
            ma < mb
        }
    }
}

/// On patterns that are not NaN, "less than" is a strict weak order: nothing
/// is below itself, the relation is transitive, and so is being unordered.
pub proof fn lemma_sample_order(a: u64, b: u64, c: u64)
    requires
        !is_nan(a),
        !is_nan(b),
        !is_nan(c),
    ensures
        !sample_lt(a, a),
        sample_lt(a, b) ==> !sample_lt(b, a),
        sample_lt(a, b) && sample_lt(b, c) ==> sample_lt(a, c),
        !sample_lt(a, b) && !sample_lt(b, a) && !sample_lt(b, c) && !sample_lt(c, b)
            ==> !sample_lt(a, c) && !sample_lt(c, a),
        !sample_lt(a, b) && !sample_lt(b, a) ==> a == b || (magnitude(a) == 0 && magnitude(b)
            == 0),
{
}

} // verus!
