//! Verified core of a zonal-statistics and point-query engine for raster grids.
//!
//! Raster samples are IEEE-754 doubles carried as their 64-bit patterns, so
//! that every rule of the engine is stated over integers.

use vstd::prelude::*;

pub mod bounds;
pub mod errors;
pub mod extremes;
pub mod modes;
pub mod names;
pub mod order;
pub mod point;
pub mod raster;
pub mod sample;
pub mod stats;
pub mod zonal;

verus! {

/// The answer of a library that is loaded and callable.
pub fn healthcheck() -> (answer: &'static str)
    ensures
        answer@ == "ok"@,
{
    "ok"
}

} // verus!
