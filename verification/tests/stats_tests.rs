use oxrs::modes::{histogram, mode_value, unique_count};
use oxrs::order::sort_values;
use oxrs::stats::{compute_stats, percentile_token, stat_kind, FloatStat, StatKind, StatRecord};

fn bits(values: &[f64]) -> Vec<u64> {
    values.iter().map(|v| v.to_bits()).collect()
}

fn min_of(values: &[u64]) -> u64 {
    let rec = compute_stats(values, &names(&["min"]), 0, 0, &[0]);
    match rec.floats.get("min") {
        Some(FloatStat::Pattern(bits)) => bits,
        _ => panic!("no minimum"),
    }
}

fn max_of(values: &[u64]) -> u64 {
    let rec = compute_stats(values, &names(&["max"]), 0, 0, &[0]);
    match rec.floats.get("max") {
        Some(FloatStat::Pattern(bits)) => bits,
        _ => panic!("no maximum"),
    }
}

fn names(list: &[&str]) -> Vec<String> {
    list.iter().map(|s| s.to_string()).collect()
}

fn float_of(rec: &StatRecord, name: &str) -> Option<f64> {
    match rec.floats.get(name) {
        Some(FloatStat::Pattern(bits)) => Some(f64::from_bits(bits)),
        Some(FloatStat::Whole(n)) => Some(n as f64),
        Some(FloatStat::Absent) | None => None,
    }
}

#[test]
fn stats_basics() {
    let stats = vec!["min".to_string(), "max".to_string(), "mean".to_string(), "count".to_string()];
    let values = [1.0_f64, 2.0, 3.0];
    let mean = values.iter().sum::<f64>() / (values.len() as f64);
    let derived = vec![0, 0, mean.to_bits(), 0];
    let rec = compute_stats(&bits(&values), &stats, 0, 0, &derived);
    assert_eq!(float_of(&rec, "min"), Some(1.0));
    assert_eq!(float_of(&rec, "max"), Some(3.0));
    assert_eq!(float_of(&rec, "mean"), Some(2.0));
    assert_eq!(rec.ints.get("count"), Some(3));
}

#[test]
fn each_name_stands_in_one_map() {
    let stats = names(&["min", "max", "mean", "count"]);
    let rec = compute_stats(&bits(&[1.0, 2.0, 3.0]), &stats, 0, 0, &[0, 0, 2.0_f64.to_bits(), 0]);
    assert_eq!(rec.floats.len(), 3);
    assert_eq!(rec.ints.len(), 1);
    assert!(!rec.floats.contains("count"));
    assert!(!rec.ints.contains("min"));
    let mut keys = rec.floats.keys();
    keys.sort();
    assert_eq!(keys, names(&["max", "mean", "min"]));
}

#[test]
fn empty_values_give_only_count_and_tallies() {
    let stats = names(&["min", "count", "nodata"]);
    let derived = vec![7, 7, 7];
    let rec = compute_stats(&[], &stats, 2, 0, &derived);
    assert_eq!(rec.floats.get("min"), Some(FloatStat::Absent));
    assert_eq!(rec.ints.get("count"), Some(0));
    assert_eq!(rec.floats.get("nodata"), Some(FloatStat::Whole(2)));
    assert_eq!(float_of(&rec, "nodata"), Some(2.0));
    assert_eq!(rec.ints.get("min"), None);
    assert_eq!(rec.floats.get("count"), None);
}

#[test]
fn empty_values_leave_every_other_statistic_absent() {
    let stats = names(&[
        "max", "mean", "sum", "std", "median", "majority", "minority", "unique", "range",
        "percentile_90", "nan", "whatever",
    ]);
    let derived = vec![5; stats.len()];
    let rec = compute_stats(&[], &stats, 4, 3, &derived);
    for name in ["max", "mean", "sum", "std", "median", "majority", "minority", "unique", "range",
        "percentile_90", "whatever"]
    {
        assert_eq!(rec.floats.get(name), Some(FloatStat::Absent));
    }
    assert_eq!(rec.floats.get("nan"), Some(FloatStat::Whole(3)));
    assert_eq!(rec.ints.len(), 0);
}

#[test]
fn derived_statistics_are_taken_as_handed_in() {
    let stats = names(&["sum", "mean", "std", "median", "range", "nodata", "nan", "percentile_25"]);
    let derived: Vec<u64> =
        [6.0_f64, 2.0, 0.5, 2.0, 2.0, 9.0, 9.0, 1.5].iter().map(|v| v.to_bits()).collect();
    let rec = compute_stats(&bits(&[1.0, 2.0, 3.0]), &stats, 4, 1, &derived);
    assert_eq!(float_of(&rec, "sum"), Some(6.0));
    assert_eq!(float_of(&rec, "mean"), Some(2.0));
    assert_eq!(float_of(&rec, "std"), Some(0.5));
    assert_eq!(float_of(&rec, "median"), Some(2.0));
    assert_eq!(float_of(&rec, "range"), Some(2.0));
    assert_eq!(float_of(&rec, "nodata"), Some(4.0));
    assert_eq!(float_of(&rec, "nan"), Some(1.0));
    assert_eq!(float_of(&rec, "percentile_25"), Some(1.5));
}

#[test]
fn tallies_are_reported_with_samples_too() {
    let rec = compute_stats(&bits(&[1.0]), &names(&["nodata", "nan"]), 5, 6, &[0, 0]);
    assert_eq!(rec.floats.get("nodata"), Some(FloatStat::Whole(5)));
    assert_eq!(rec.floats.get("nan"), Some(FloatStat::Whole(6)));
    assert_eq!(rec.ints.len(), 0);
}

#[test]
fn unknown_name_is_absent_not_an_error() {
    let stats = names(&["bogus", "percentile", "MIN"]);
    let rec = compute_stats(&bits(&[1.0, 2.0]), &stats, 0, 0, &[9, 9, 9]);
    assert_eq!(rec.floats.get("bogus"), Some(FloatStat::Absent));
    assert_eq!(rec.floats.get("percentile"), Some(FloatStat::Absent));
    assert_eq!(rec.floats.get("MIN"), Some(FloatStat::Absent));
    assert_eq!(rec.floats.get("min"), None);
}

#[test]
fn last_request_of_a_name_decides() {
    let stats = names(&["sum", "min", "sum"]);
    let derived = vec![1.0_f64.to_bits(), 0, 6.0_f64.to_bits()];
    let rec = compute_stats(&bits(&[1.0, 2.0, 3.0]), &stats, 0, 0, &derived);
    assert_eq!(float_of(&rec, "sum"), Some(6.0));
    assert_eq!(rec.floats.len(), 2);
}

#[test]
fn majority_and_minority_ties_take_smaller_pattern() {
    let values = bits(&[1.0, 1.0, 2.0, 2.0]);
    assert_eq!(mode_value(&values, true), Some(1.0_f64.to_bits()));
    assert_eq!(mode_value(&values, false), Some(1.0_f64.to_bits()));
    let rec = compute_stats(&values, &names(&["majority", "minority"]), 0, 0, &[0, 0]);
    assert_eq!(float_of(&rec, "majority"), Some(1.0));
    assert_eq!(float_of(&rec, "minority"), Some(1.0));
}

#[test]
fn majority_and_minority_by_count() {
    let values = bits(&[5.0, 3.0, 3.0, 7.0, 3.0, 7.0]);
    assert_eq!(mode_value(&values, true), Some(3.0_f64.to_bits()));
    assert_eq!(mode_value(&values, false), Some(5.0_f64.to_bits()));
    assert_eq!(mode_value(&[], true), None);
    assert_eq!(mode_value(&[], false), None);
}

#[test]
fn mode_tie_is_by_pattern_not_by_value() {
    // The pattern of a negative number is above that of every positive one.
    let values = bits(&[-1.0, 4.0]);
    assert_eq!(mode_value(&values, true), Some(4.0_f64.to_bits()));
    assert_eq!(mode_value(&values, false), Some(4.0_f64.to_bits()));
}

#[test]
fn unique_counts_signed_zeros_apart() {
    let values = bits(&[0.0, -0.0]);
    assert_eq!(unique_count(&values), 2);
    let rec = compute_stats(&values, &names(&["unique"]), 0, 0, &[0]);
    assert_eq!(rec.ints.get("unique"), Some(2));
    assert_eq!(rec.floats.get("unique"), None);
}

#[test]
fn unique_counts_nan_payloads_apart() {
    let a = f64::NAN.to_bits();
    let b = a ^ 1;
    assert!(f64::from_bits(b).is_nan());
    assert_eq!(unique_count(&[a, b, a]), 2);
    assert_eq!(unique_count(&[]), 0);
}

#[test]
fn histogram_counts_each_pattern() {
    let values = bits(&[2.0, 1.0, 2.0, 2.0]);
    let hist = histogram(&values);
    assert_eq!(hist.len(), 2);
    assert_eq!(hist.get(&2.0_f64.to_bits()), Some(&3));
    assert_eq!(hist.get(&1.0_f64.to_bits()), Some(&1));
    assert_eq!(hist.get(&3.0_f64.to_bits()), None);
}

#[test]
fn min_and_max_follow_the_numbers() {
    let values = bits(&[3.5, -2.0, 10.0, -7.25, 0.0]);
    assert_eq!(f64::from_bits(min_of(&values)), -7.25);
    assert_eq!(f64::from_bits(max_of(&values)), 10.0);
    assert_eq!(min_of(&bits(&[4.0])), 4.0_f64.to_bits());
    assert_eq!(max_of(&bits(&[4.0])), 4.0_f64.to_bits());
}

#[test]
fn min_and_max_with_a_nan_are_the_ends_of_the_ascending_form() {
    let values = bits(&[1.0, f64::NAN, 0.0]);
    let sorted = sort_values(&values);
    assert_eq!(min_of(&values), sorted[0]);
    assert_eq!(max_of(&values), sorted[2]);
    assert_eq!(f64::from_bits(min_of(&values)), 1.0);
    assert_eq!(f64::from_bits(max_of(&values)), 0.0);
    let values = bits(&[f64::NAN, 5.0, f64::NAN, -2.0, 7.0, f64::NAN]);
    let sorted = sort_values(&values);
    assert_eq!(min_of(&values), sorted[0]);
    assert_eq!(max_of(&values), sorted[5]);
}

#[test]
fn min_and_max_agree_with_a_stable_sort() {
    let sets: Vec<Vec<f64>> = vec![
        vec![0.0, -0.0, 0.0],
        vec![-0.0, 0.0],
        vec![1.0, -0.0, 0.0, 1.0, -3.0, -3.0],
        vec![f64::INFINITY, 2.0, f64::NEG_INFINITY, 2.0],
        vec![5e-324, 0.0, -5e-324],
        vec![1e308, -1e308, 1.5, 1.5000000000000002],
    ];
    for set in sets {
        let mut sorted = set.clone();
        sorted.sort_by(|a, b| a.partial_cmp(b).unwrap());
        let values = bits(&set);
        assert_eq!(min_of(&values), sorted[0].to_bits());
        assert_eq!(max_of(&values), sorted[sorted.len() - 1].to_bits());
    }
}

#[test]
fn stat_kind_of_each_name() {
    assert_eq!(stat_kind("min"), StatKind::Min);
    assert_eq!(stat_kind("max"), StatKind::Max);
    assert_eq!(stat_kind("mean"), StatKind::Mean);
    assert_eq!(stat_kind("sum"), StatKind::Sum);
    assert_eq!(stat_kind("count"), StatKind::Count);
    assert_eq!(stat_kind("std"), StatKind::Std);
    assert_eq!(stat_kind("median"), StatKind::Median);
    assert_eq!(stat_kind("majority"), StatKind::Majority);
    assert_eq!(stat_kind("minority"), StatKind::Minority);
    assert_eq!(stat_kind("unique"), StatKind::Unique);
    assert_eq!(stat_kind("range"), StatKind::Range);
    assert_eq!(stat_kind("nodata"), StatKind::Nodata);
    assert_eq!(stat_kind("nan"), StatKind::Nan);
    assert_eq!(stat_kind("percentile_5"), StatKind::Percentile);
    assert_eq!(stat_kind("percentile_"), StatKind::Percentile);
    assert_eq!(stat_kind("percentile"), StatKind::Unknown);
    assert_eq!(stat_kind(""), StatKind::Unknown);
    assert_eq!(stat_kind("Min"), StatKind::Unknown);
    assert_eq!(stat_kind("min "), StatKind::Unknown);
}

#[test]
fn percentile_token_is_what_follows_the_last_underscore() {
    assert_eq!(percentile_token("percentile_90"), "90");
    assert_eq!(percentile_token("percentile_12.5"), "12.5");
    assert_eq!(percentile_token("percentile_a_75"), "75");
    assert_eq!(percentile_token("percentile_"), "");
    assert_eq!(percentile_token("plain"), "plain");
    assert_eq!(percentile_token(""), "");
    assert_eq!(percentile_token("percentile_é9"), "é9");
    for name in ["percentile_90", "percentile_a_75", "percentile_", "x"] {
        assert_eq!(Some(percentile_token(name)), name.split('_').last());
    }
}
