//! The steps of one zone: whether and what to read, the tally of the cells
//! that the zone covers, and the record of a zone without cells.

use vstd::prelude::*;
use vstd::string::*;
use crate::errors::OxrsError;
use crate::raster::{RasterContext, ReadPlan, Window};
use crate::sample::{is_finite, is_nan, CellClass, Sample};
use crate::stats::{compute_stats, is_last_request, requested, spec_stat_kind};
use crate::stats::{FloatStat, StatKind, StatRecord};

verus! {

/// The pattern of -999, the nodata value of a raster that names none.
pub const DEFAULT_NODATA_BITS: u64 = 0xC08F_3800_0000_0000;

/// The nodata value by which the cells of a zone are classed and with which
/// its window is filled: that of the raster, else -999.
pub fn effective_nodata(ctx: &RasterContext) -> (bits: u64)
    ensures
        bits == match ctx.spec_nodata() {
            Some(v) => v,
            None => DEFAULT_NODATA_BITS,
        },
{
    match ctx.nodata() {
        Some(v) => v,
        None => DEFAULT_NODATA_BITS,
    }
}

/// The statistics asked for where none is given.
pub fn default_stats() -> (names: Vec<String>)
    ensures
        names@.len() == 4,
        names@[0]@ == "count"@,
        names@[1]@ == "min"@,
        names@[2]@ == "max"@,
        names@[3]@ == "mean"@,
{
    let mut names: Vec<String> = Vec::new();
    names.push(String::from_str("count"));
    names.push(String::from_str("min"));
    names.push(String::from_str("max"));
    names.push(String::from_str("mean"));
    names
}

/// What to do for one zone before anything is read.
#[derive(Debug, Clone, Copy, PartialEq, Eq, Structural)]
pub enum ZoneRead {
    /// The zone has no cells: its record is that of an empty zone.
    Skip,
    /// Read the window as planned, then tally.
    Read(ReadPlan),
}

/// The first step of a zone whose geometry spans `window`; a zone without a
/// geometry has none.
///
/// Without a window, or with an empty one, the zone is skipped. A window
/// that reaches beyond the raster is an invalid argument unless `boundless`
/// is set. Otherwise the window is to be read.
pub fn zone_read(ctx: &RasterContext, window: Option<Window>, boundless: bool) -> (r: Result<
    ZoneRead,
    OxrsError,
>)
    requires
        window matches Some(w) ==> ctx.readable(w, boundless),
    ensures
        window.is_none() ==> r == Ok::<ZoneRead, OxrsError>(ZoneRead::Skip),
        window matches Some(w) ==> {
            &&& w.spec_is_empty() ==> r == Ok::<ZoneRead, OxrsError>(ZoneRead::Skip)
            &&& !w.spec_is_empty() && ctx.beyond(w) && !boundless ==> (r matches Err(e)
                && e.is_invalid_argument(
                "Window/bounds is outside dataset extent, boundless reads are disabled"@,
            ))
            &&& !w.spec_is_empty() && (boundless || !ctx.beyond(w)) ==> r == Ok::<
                ZoneRead,
                OxrsError,
            >(
                ZoneRead::Read(
                    ReadPlan {
                        width: w.cols() as usize,
                        height: w.rows() as usize,
                        overlap: ctx.clipped(w),
                    },
                ),
            )
        },
{
    let w = match window {
        Some(w) => w,
        None => {
            return Ok(ZoneRead::Skip);
        },
    };
    if w.is_empty() {
        return Ok(ZoneRead::Skip);
    }
    match ctx.plan_window_read(w, boundless) {
        Ok(plan) => {
            if plan.width == 0 || plan.height == 0 {
                Ok(ZoneRead::Skip)
            } else {
                Ok(ZoneRead::Read(plan))
            }
        },
        Err(e) => Err(e),
    }
}

/// How many of the first `upto` cells are covered by the mask and fall
/// under `class`.
pub open spec fn class_count(mask: Seq<u8>, cells: Seq<Sample>, class: CellClass, upto: int) -> nat
    decreases upto,
{
    if upto <= 0 {
        0
    } else {
        class_count(mask, cells, class, upto - 1) + if mask[upto - 1] != 0 && cells[upto
            - 1].spec_class() == class {
            1nat
        } else {
            0nat
        }
    }
}

/// The patterns of the valid cells among the first `upto` that the mask
/// covers, in their order.
pub open spec fn valid_values(mask: Seq<u8>, cells: Seq<Sample>, upto: int) -> Seq<u64>
    decreases upto,
{
    if upto <= 0 {
        Seq::empty()
    } else {
        let before = valid_values(mask, cells, upto - 1);
        if mask[upto - 1] != 0 && cells[upto - 1].spec_class() == CellClass::Valid {
            before.push(cells[upto - 1].bits)
        } else {
            before
        }
    }
}

/// No more cells fall under a class than there are cells, nor more valid
/// values.
pub proof fn lemma_tally_bounds(mask: Seq<u8>, cells: Seq<Sample>, class: CellClass, upto: int)
    requires
        0 <= upto,
    ensures
        class_count(mask, cells, class, upto) <= upto,
        valid_values(mask, cells, upto).len() <= upto,
        valid_values(mask, cells, upto).len() == class_count(
            mask,
            cells,
            CellClass::Valid,
            upto,
        ),
    decreases upto,
{
    if upto > 0 {
        lemma_tally_bounds(mask, cells, class, upto - 1);
    }
}

/// How many of the first `upto` cells the mask covers.
pub open spec fn covered_count(mask: Seq<u8>, upto: int) -> nat
    decreases upto,
{
    if upto <= 0 {
        0
    } else {
        covered_count(mask, upto - 1) + if mask[upto - 1] != 0 {
            1nat
        } else {
            0nat
        }
    }
}

/// Each covered cell is tallied once: the valid values, the nodata cells and
/// the cells that are not finite add up to the covered cells.
pub proof fn lemma_tally_is_complete(mask: Seq<u8>, cells: Seq<Sample>, upto: int)
    requires
        0 <= upto,
    ensures
        valid_values(mask, cells, upto).len() + class_count(mask, cells, CellClass::Nodata, upto)
            + class_count(mask, cells, CellClass::NonFinite, upto) == covered_count(mask, upto),
    decreases upto,
{
    if upto > 0 {
        lemma_tally_is_complete(mask, cells, upto - 1);
    }
}

/// Every value handed on by the tally is finite.
pub proof fn lemma_tally_values_are_finite(mask: Seq<u8>, cells: Seq<Sample>, upto: int, k: int)
    requires
        0 <= k < valid_values(mask, cells, upto).len(),
    ensures
        is_finite(valid_values(mask, cells, upto)[k]),
        !is_nan(valid_values(mask, cells, upto)[k]),
    decreases upto,
{
    if upto > 0 {
        let before = valid_values(mask, cells, upto - 1);
        if k < before.len() {
            lemma_tally_values_are_finite(mask, cells, upto - 1, k);
        }
    }
}

/// The cells of a zone by class.
pub struct ZoneTally {
    /// The valid values, in the order of the cells.
    pub values: Vec<u64>,
    /// How many covered cells hold the nodata value.
    pub nodata_count: usize,
    /// How many covered cells are not finite.
    pub nan_count: usize,
}

/// Walks the mask and the cells of a window side by side, as far as both
/// reach. A cell whose mask is 0 is passed over; every other cell counts
/// under its class, and a valid one hands its value on.
pub fn tally_zone(mask: &[u8], cells: &[Sample]) -> (tally: ZoneTally)
    ensures
        ({
            let n = if mask@.len() <= cells@.len() {
                mask@.len() as int
            } else {
                cells@.len() as int
            };
            &&& tally.values@ == valid_values(mask@, cells@, n)
            &&& tally.nodata_count == class_count(mask@, cells@, CellClass::Nodata, n)
            &&& tally.nan_count == class_count(mask@, cells@, CellClass::NonFinite, n)
        }),
{
    let n: usize = if mask.len() <= cells.len() {
        mask.len()
    } else {
        cells.len()
    };
    let mut values: Vec<u64> = Vec::new();
    let mut nodata_count: usize = 0;
    let mut nan_count: usize = 0;
    let mut i: usize = 0;
    while i < n
        invariant
            n <= mask@.len(),
            n <= cells@.len(),
            i <= n,
            values@ == valid_values(mask@, cells@, i as int),
            nodata_count == class_count(mask@, cells@, CellClass::Nodata, i as int),
            nan_count == class_count(mask@, cells@, CellClass::NonFinite, i as int),
        decreases n - i,
    {
        proof {
            lemma_tally_bounds(mask@, cells@, CellClass::Nodata, i as int);
            lemma_tally_bounds(mask@, cells@, CellClass::NonFinite, i as int);
        }
        if mask[i] != 0 {
            let cell: Sample = cells[i];
            match cell.class() {
                CellClass::Nodata => {
                    nodata_count += 1;
                },
                CellClass::NonFinite => {
                    nan_count += 1;
                },
                CellClass::Valid => {
                    values.push(cell.bits);
                },
            }
        }
        i += 1;
    }
    ZoneTally { values, nodata_count, nan_count }
}

/// A name that is asked for is asked for a last time.
pub proof fn lemma_last_request(stats: Seq<String>, upto: int, name: Seq<char>)
    requires
        0 <= upto <= stats.len(),
        requested(stats, upto, name),
    ensures
        exists|i: int|
            0 <= i < upto && (#[trigger] stats[i])@ == name && is_last_request(stats, upto, i),
    decreases upto,
{
    let last = upto - 1;
    if stats[last]@ == name {
        assert(is_last_request(stats, upto, last));
    } else {
        let k = choose|k: int| 0 <= k < upto && (#[trigger] stats[k])@ == name;
        assert(0 <= k < last);
        lemma_last_request(stats, last, name);
        let i = choose|i: int|
            0 <= i < last && (#[trigger] stats[i])@ == name && is_last_request(stats, last, i);
        assert(is_last_request(stats, upto, i));
    }
}

/// The record of a zone without cells, where nothing was tallied: the count
/// and the two tallies are 0, and every other statistic asked for is absent.
pub fn empty_record(stats: &[String]) -> (rec: StatRecord)
    ensures
        forall|name: Seq<char>|
            #![trigger rec.ints@.contains_key(name)]
            rec.ints@.contains_key(name) <==> requested(stats@, stats@.len() as int, name)
                && spec_stat_kind(name) == StatKind::Count,
        forall|name: Seq<char>|
            #![trigger rec.floats@.contains_key(name)]
            rec.floats@.contains_key(name) <==> requested(stats@, stats@.len() as int, name)
                && spec_stat_kind(name) != StatKind::Count,
        forall|name: Seq<char>| #[trigger] rec.ints@.contains_key(name) ==> rec.ints@[name] == 0,
        forall|name: Seq<char>| #[trigger]
            rec.floats@.contains_key(name) ==> rec.floats@[name] == (match spec_stat_kind(name) {
                StatKind::Nodata | StatKind::Nan => FloatStat::Whole(0),
                _ => FloatStat::Absent,
            }),
{
    let n: usize = stats.len();
    let mut zeros: Vec<u64> = Vec::new();
    let mut i: usize = 0;
    while i < n
        invariant
            i <= n,
            zeros@.len() == i,
            forall|k: int| 0 <= k < i ==> zeros@[k] == 0,
        decreases n - i,
    {
        zeros.push(0);
        i += 1;
    }
    let values: Vec<u64> = Vec::new();
    let rec = compute_stats(values.as_slice(), stats, 0, 0, zeros.as_slice());
    proof {
        assert forall|name: Seq<char>| #[trigger]
            rec.floats@.contains_key(name) implies rec.floats@[name] == (match spec_stat_kind(
            name,
        ) {
            StatKind::Nodata | StatKind::Nan => FloatStat::Whole(0),
            _ => FloatStat::Absent,
        }) by {
            assert(requested(stats@, n as int, name));
            lemma_last_request(stats@, n as int, name);
            let k = choose|k: int|
                0 <= k < n && (#[trigger] stats@[k])@ == name && is_last_request(
                    stats@,
                    n as int,
                    k,
                );
            assert(rec.floats@.contains_key(stats@[k]@));
        }
    }
    rec
}

} // verus!
