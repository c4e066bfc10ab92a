//! Sampling a raster at a point: the checks on the request, the cells that
//! an interpolation reads, and what it makes of them.

use vstd::prelude::*;
use vstd::string::*;
use crate::errors::OxrsError;
use crate::names::same_text;
use crate::sample::{is_finite, is_finite_bits, is_nan, is_nan_bits, order_key, sample_less};

verus! {

/// The pattern of the number one.
pub const ONE_BITS: u64 = 0x3FF0_0000_0000_0000;

/// How a value is taken at a point that lies between cell centres.
#[derive(Debug, Clone, Copy, PartialEq, Eq, Structural)]
pub enum Interpolation {
    /// The cell that holds the point.
    Nearest,
    /// The four cells around the point, weighted by their distance.
    Bilinear,
}

/// The interpolation called `name`: `nearest` or `bilinear`. Any other name
/// is an invalid argument.
pub fn parse_interpolation(name: &str) -> (r: Result<Interpolation, OxrsError>)
    ensures
        name@ == "nearest"@ ==> r == Ok::<Interpolation, OxrsError>(Interpolation::Nearest),
        name@ == "bilinear"@ ==> r == Ok::<Interpolation, OxrsError>(Interpolation::Bilinear),
        name@ != "nearest"@ && name@ != "bilinear"@ ==> (r matches Err(e) && e.is_invalid_argument(
            "interpolate must be nearest or bilinear"@,
        )),
{
    proof {
        reveal_strlit("nearest");
        reveal_strlit("bilinear");
        assert("nearest"@.len() == 7);
        assert("bilinear"@.len() == 8);
    }
    if same_text(name, "nearest") {
        Ok(Interpolation::Nearest)
    } else if same_text(name, "bilinear") {
        Ok(Interpolation::Bilinear)
    } else {
        Err(OxrsError::InvalidArgument(String::from_str("interpolate must be nearest or bilinear")))
    }
}

/// The coordinate `value`, given by its pattern, where it is finite. An
/// infinity or a NaN is an invalid argument, whose message begins with the
/// `name` of the axis.
pub fn require_finite(value: u64, name: &str) -> (r: Result<u64, OxrsError>)
    ensures
        is_finite(value) ==> r == Ok::<u64, OxrsError>(value),
        !is_finite(value) ==> (r matches Err(e) && e.is_invalid_argument(
            name@ + " must be finite"@,
        )),
{
    if is_finite_bits(value) {
        Ok(value)
    } else {
        let mut text = String::from_str(name);
        text.append(" must be finite");
        Err(OxrsError::InvalidArgument(text))
    }
}

/// The four cells around the corner shared by them, as (row, column): upper
/// left, upper right, lower left, lower right. The lower right one is the
/// cell at `row` and `col`, whose centre is the nearest to the point.
pub fn bilinear_cells(row: isize, col: isize) -> (cells: [(isize, isize); 4])
    requires
        row > isize::MIN,
        col > isize::MIN,
    ensures
        cells[0] == (((row - 1) as isize, (col - 1) as isize)),
        cells[1] == (((row - 1) as isize, col)),
        cells[2] == ((row, (col - 1) as isize)),
        cells[3] == ((row, col)),
{
    [(row - 1, col - 1), (row - 1, col), (row, col - 1), (row, col)]
}

/// Whether the number lies in the unit interval, ends included.
pub open spec fn in_unit(bits: u64) -> bool {
    !is_nan(bits) && 0 <= order_key(bits) <= order_key(ONE_BITS)
}

/// Whether the number lies in the unit interval, ends included.
pub fn in_unit_interval(bits: u64) -> (r: bool)
    ensures
        r == in_unit(bits),
{
    !is_nan_bits(bits) && !sample_less(bits, 0) && !sample_less(ONE_BITS, bits)
}

/// What the four cells around a point give.
#[derive(Debug, Clone, Copy, PartialEq, Eq, Structural)]
pub enum Bilinear {
    /// No value.
    Absent,
    /// The value of one of the four cells, as it is.
    Corner(u64),
    /// All four cells have a value: the result is their weighted sum.
    Blend { ul: u64, ur: u64, ll: u64, lr: u64 },
}

/// What `bilinear` returns.
///
/// Outside the unit square there is no value. Where one of the four cells
/// has none, the cell in row `row` and column `col` of the block decides,
/// and a place outside the block has no value. Otherwise the four values are
/// to be blended.
pub open spec fn spec_bilinear(
    values: [[Option<u64>; 2]; 2],
    x: u64,
    y: u64,
    row: usize,
    col: usize,
) -> Bilinear {
    let ul = values[0][0];
    let ur = values[0][1];
    let ll = values[1][0];
    let lr = values[1][1];
    if !in_unit(x) || !in_unit(y) {
        Bilinear::Absent
    } else if ul.is_none() || ur.is_none() || ll.is_none() || lr.is_none() {
        if row < 2 && col < 2 {
            match values[row as int][col as int] {
                Some(v) => Bilinear::Corner(v),
                None => Bilinear::Absent,
            }
        } else {
            Bilinear::Absent
        }
    } else {
        Bilinear::Blend { ul: ul.unwrap(), ur: ur.unwrap(), ll: ll.unwrap(), lr: lr.unwrap() }
    }
}

/// The interpolation at a point of the unit square spanned by four cell
/// centres; `values` holds the upper row first, `x` and `y` are the patterns
/// of the point's offsets, and `row` and `col` name the cell to fall back on,
/// the one whose centre is nearest to the point.
pub fn bilinear(values: [[Option<u64>; 2]; 2], x: u64, y: u64, row: usize, col: usize) -> (r:
    Bilinear)
    ensures
        r == spec_bilinear(values, x, y, row, col),
{
    if !in_unit_interval(x) || !in_unit_interval(y) {
        return Bilinear::Absent;
    }
    let ul = values[0][0];
    let ur = values[0][1];
    let ll = values[1][0];
    let lr = values[1][1];
    match (ul, ur, ll, lr) {
        (Some(a), Some(b), Some(c), Some(d)) => Bilinear::Blend { ul: a, ur: b, ll: c, lr: d },
        _ => {
            if row < 2 && col < 2 {
                match values[row][col] {
                    Some(v) => Bilinear::Corner(v),
                    None => Bilinear::Absent,
                }
            } else {
                Bilinear::Absent
            }
        },
    }
}

} // verus!
