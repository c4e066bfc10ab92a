use oxrs::errors::{ErrorCategory, OxrsError};
use oxrs::names::{same_text, starts_with_text, NameMap};
use oxrs::raster::{RasterContext, ReadPlan, Window};
use oxrs::sample::Sample;
use oxrs::stats::FloatStat;
use oxrs::zonal::{
    default_stats, effective_nodata, empty_record, tally_zone, zone_read, ZoneRead,
    DEFAULT_NODATA_BITS,
};

fn raster(width: usize, height: usize, nodata: Option<f64>) -> RasterContext {
    RasterContext::open(1, nodata.map(f64::to_bits), None, width, height, true).unwrap()
}

fn sample(value: f64, nodata: f64) -> Sample {
    Sample { bits: value.to_bits(), near_nodata: (value - nodata).abs() <= f64::EPSILON }
}

#[test]
fn healthcheck_says_ok() {
    assert_eq!(oxrs::healthcheck(), "ok");
}

#[test]
fn default_stats_are_count_min_max_mean() {
    assert_eq!(default_stats(), vec!["count", "min", "max", "mean"]);
}

#[test]
fn effective_nodata_falls_back_on_the_default() {
    assert_eq!(DEFAULT_NODATA_BITS, (-999.0_f64).to_bits());
    assert_eq!(effective_nodata(&raster(2, 2, None)), (-999.0_f64).to_bits());
    assert_eq!(effective_nodata(&raster(2, 2, Some(0.0))), 0.0_f64.to_bits());
    assert_eq!(effective_nodata(&raster(2, 2, Some(-1.5))), (-1.5_f64).to_bits());
}

#[test]
fn tally_sorts_covered_cells_by_class() {
    let nodata = -999.0;
    let values = [1.0, -999.0, f64::NAN, 4.0, 5.0, f64::INFINITY, -999.0, 8.0];
    let mask = [1_u8, 1, 1, 0, 1, 1, 0, 255];
    let cells: Vec<Sample> = values.iter().map(|v| sample(*v, nodata)).collect();
    let tally = tally_zone(&mask, &cells);
    assert_eq!(tally.values, vec![1.0_f64.to_bits(), 5.0_f64.to_bits(), 8.0_f64.to_bits()]);
    assert_eq!(tally.nodata_count, 1);
    assert_eq!(tally.nan_count, 2);
}

#[test]
fn tally_stops_with_the_shorter_of_the_two() {
    let cells: Vec<Sample> = [1.0, 2.0, 3.0].iter().map(|v| sample(*v, -999.0)).collect();
    let tally = tally_zone(&[1, 1], &cells);
    assert_eq!(tally.values, vec![1.0_f64.to_bits(), 2.0_f64.to_bits()]);
    let tally = tally_zone(&[1, 1, 1, 1, 1], &cells[..1]);
    assert_eq!(tally.values, vec![1.0_f64.to_bits()]);
    let tally = tally_zone(&[], &cells);
    assert!(tally.values.is_empty());
    assert_eq!((tally.nodata_count, tally.nan_count), (0, 0));
}

#[test]
fn tally_counts_a_nodata_nan_as_nodata() {
    let cells = [Sample { bits: f64::NAN.to_bits(), near_nodata: true }];
    let tally = tally_zone(&[1], &cells);
    assert_eq!((tally.nodata_count, tally.nan_count), (1, 0));
}

#[test]
fn zone_without_cells_is_skipped() {
    let ctx = raster(4, 3, None);
    assert_eq!(zone_read(&ctx, None, true).unwrap(), ZoneRead::Skip);
    assert_eq!(zone_read(&ctx, None, false).unwrap(), ZoneRead::Skip);
    let empty = Window { row_start: 2, row_end: 1, col_start: 0, col_end: 9 };
    assert_eq!(zone_read(&ctx, Some(empty), false).unwrap(), ZoneRead::Skip);
}

#[test]
fn zone_window_is_planned() {
    let ctx = raster(4, 3, None);
    let w = Window { row_start: 1, row_end: 4, col_start: -1, col_end: 1 };
    assert!(matches!(zone_read(&ctx, Some(w), false), Err(OxrsError::InvalidArgument(_))));
    assert_eq!(
        zone_read(&ctx, Some(w), true).unwrap(),
        ZoneRead::Read(ReadPlan {
            width: 3,
            height: 4,
            overlap: Some(Window { row_start: 1, row_end: 2, col_start: 0, col_end: 1 }),
        })
    );
}

#[test]
fn empty_record_has_count_zero_and_zero_tallies() {
    let stats: Vec<String> =
        ["count", "min", "nodata", "nan", "unique", "bogus"].iter().map(|s| s.to_string()).collect();
    let rec = empty_record(&stats);
    assert_eq!(rec.ints.get("count"), Some(0));
    assert_eq!(rec.ints.len(), 1);
    assert_eq!(rec.floats.get("min"), Some(FloatStat::Absent));
    assert_eq!(rec.floats.get("unique"), Some(FloatStat::Absent));
    assert_eq!(rec.floats.get("bogus"), Some(FloatStat::Absent));
    assert_eq!(rec.floats.get("nodata"), Some(FloatStat::Whole(0)));
    assert_eq!(rec.floats.get("nan"), Some(FloatStat::Whole(0)));
    assert_eq!(rec.floats.len(), 5);
}

#[test]
fn error_text_and_category() {
    let e = OxrsError::InvalidArgument("band must be >= 1".to_string());
    assert_eq!(e.to_text(), "invalid argument: band must be >= 1");
    assert_eq!(e.message(), "band must be >= 1");
    assert_eq!(e.category(), ErrorCategory::BadInput);
    let e = OxrsError::Gdal("no such file".to_string());
    assert_eq!(e.to_text(), "GDAL error: no such file");
    assert_eq!(e.category(), ErrorCategory::Runtime);
    let e = OxrsError::Runtime("unable to invert raster geotransform".to_string());
    assert_eq!(e.to_text(), "runtime error: unable to invert raster geotransform");
    assert_eq!(e.category(), ErrorCategory::Runtime);
}

#[test]
fn name_map_holds_each_name_once() {
    let mut map: NameMap<i64> = NameMap::new();
    assert_eq!(map.len(), 0);
    assert_eq!(map.get("a"), None);
    map.insert("a".to_string(), 1);
    map.insert("b".to_string(), 2);
    map.insert("a".to_string(), 3);
    assert_eq!(map.len(), 2);
    assert_eq!(map.get("a"), Some(3));
    assert_eq!(map.get("b"), Some(2));
    assert!(map.contains("b"));
    assert!(!map.contains("c"));
    assert_eq!(map.keys(), vec!["a", "b"]);
}

#[test]
fn text_comparison() {
    assert!(same_text("", ""));
    assert!(same_text("nodata", "nodata"));
    assert!(!same_text("nodata", "nodat"));
    assert!(!same_text("nodata", "nodatb"));
    assert!(same_text("é", "é"));
    assert!(!same_text("é", "e"));
    assert!(starts_with_text("percentile_9", "percentile_"));
    assert!(starts_with_text("percentile_", "percentile_"));
    assert!(starts_with_text("abc", ""));
    assert!(!starts_with_text("percentile", "percentile_"));
    assert!(!starts_with_text("Percentile_9", "percentile_"));
}
