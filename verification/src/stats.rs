//! The statistics of one zone: from the valid samples and the names of the
//! statistics asked for, a record that maps each name to its value.
//!
//! What needs no arithmetic on the numbers is settled here: which statistic a
//! name asks for, the count, the minimum and the maximum (the two ends of the
//! ascending form of the samples, from which the percentiles are taken too),
//! the majority, the minority, the number of distinct samples and the two
//! tallies. A
//! statistic that is computed from the numbers (sum, mean, standard
//! deviation, median, range, percentiles) is handed in by the caller as the
//! pattern of its result, one per name asked for.

use vstd::prelude::*;
use crate::extremes::{greatest_index, least_index};
use crate::modes::{is_mode, lemma_mode_unique, mode_value, unique_count};
use crate::names::{same_text, starts_with_text, NameMap};
use crate::order::{ascending_form, lemma_ends_are_extremes, lemma_percentile_ends};
use crate::order::{sort_values, spec_percentile, Percentile};
use crate::sample::nan_free;

verus! {

/// What a name asks for.
#[derive(Debug, Clone, Copy, PartialEq, Eq, Structural)]
pub enum StatKind {
    Min,
    Max,
    Mean,
    Sum,
    Count,
    Std,
    Median,
    Majority,
    Minority,
    Unique,
    Range,
    Nodata,
    Nan,
    /// A name that begins with `percentile_`.
    Percentile,
    /// Any other name. It is no error: its value is absent.
    Unknown,
}

/// The statistic that `name` asks for.
pub open spec fn spec_stat_kind(name: Seq<char>) -> StatKind {
    if name == "min"@ {
        StatKind::Min
    } else if name == "max"@ {
        StatKind::Max
    } else if name == "mean"@ {
        StatKind::Mean
    } else if name == "sum"@ {
        StatKind::Sum
    } else if name == "count"@ {
        StatKind::Count
    } else if name == "std"@ {
        StatKind::Std
    } else if name == "median"@ {
        StatKind::Median
    } else if name == "majority"@ {
        StatKind::Majority
    } else if name == "minority"@ {
        StatKind::Minority
    } else if name == "unique"@ {
        StatKind::Unique
    } else if name == "range"@ {
        StatKind::Range
    } else if name == "nodata"@ {
        StatKind::Nodata
    } else if name == "nan"@ {
        StatKind::Nan
    } else if "percentile_"@.is_prefix_of(name) {
        StatKind::Percentile
    } else {
        StatKind::Unknown
    }
}

/// The statistic that `name` asks for.
pub fn stat_kind(name: &str) -> (kind: StatKind)
    ensures
        kind == spec_stat_kind(name@),
{
    if same_text(name, "min") {
        StatKind::Min
    } else if same_text(name, "max") {
        StatKind::Max
    } else if same_text(name, "mean") {
        StatKind::Mean
    } else if same_text(name, "sum") {
        StatKind::Sum
    } else if same_text(name, "count") {
        StatKind::Count
    } else if same_text(name, "std") {
        StatKind::Std
    } else if same_text(name, "median") {
        StatKind::Median
    } else if same_text(name, "majority") {
        StatKind::Majority
    } else if same_text(name, "minority") {
        StatKind::Minority
    } else if same_text(name, "unique") {
        StatKind::Unique
    } else if same_text(name, "range") {
        StatKind::Range
    } else if same_text(name, "nodata") {
        StatKind::Nodata
    } else if same_text(name, "nan") {
        StatKind::Nan
    } else if starts_with_text(name, "percentile_") {
        StatKind::Percentile
    } else {
        StatKind::Unknown
    }
}

/// `cut` is where the last token of `name` begins: no underscore follows it,
/// and it stands at the start of the name or right behind an underscore.
pub open spec fn is_token_start(name: Seq<char>, cut: int) -> bool {
    &&& 0 <= cut <= name.len()
    &&& forall|k: int| cut <= k < name.len() ==> name[k] != '_'
    &&& cut > 0 ==> name[cut - 1] == '_'
}

/// The part of `name` behind its last underscore; all of it where it has
/// none. In a percentile's name this is the token that gives the percentage.
pub fn percentile_token(name: &str) -> (token: &str)
    ensures
        exists|cut: int| is_token_start(name@, cut) && token@ == name@.subrange(cut, name@.len() as int),
{
    let n: usize = name.unicode_len();
    let mut cut: usize = n;
    while cut > 0 && name.get_char(cut - 1) != '_'
        invariant
            n == name@.len(),
            cut <= n,
            forall|k: int| cut <= k < n ==> name@[k] != '_',
        decreases cut,
    {
        cut -= 1;
    }
    assert(is_token_start(name@, cut as int));
    name.substring_char(cut, n)
}

/// The mode of `s`: its majority, or with `majority` false its minority.
pub open spec fn mode_of(s: Seq<u64>, majority: bool) -> u64 {
    choose|b: u64| is_mode(s, b, majority)
}

/// The whole number that a statistic of this kind has on `values`, where it
/// is a whole number: the count always, the number of distinct samples where
/// there is a sample.
pub open spec fn int_stat(values: Seq<u64>, kind: StatKind) -> Option<i64> {
    match kind {
        StatKind::Count => Some(values.len() as i64),
        StatKind::Unique => if values.len() == 0 {
            None
        } else {
            Some(values.to_set().len() as i64)
        },
        _ => None,
    }
}

/// A statistic that is reported as a number.
#[derive(Debug, Clone, Copy, PartialEq, Eq, Structural)]
pub enum FloatStat {
    /// The statistic has no value.
    Absent,
    /// The number with this pattern.
    Pattern(u64),
    /// This whole number, to be read as a number.
    Whole(usize),
}

/// The number that a statistic of this kind has on `values`, or absent;
/// `nodata_count` and `nan_count` are the two tallies, `derived` is the
/// pattern handed in for the statistic.
///
/// The two tallies are reported as they are, with or without a sample.
/// Without a sample nothing else has a value. With samples, the minimum and
/// the maximum are the two ends of the ascending form of the samples, the
/// two modes are taken from the samples, the statistics computed from the
/// numbers are as handed in, and an unknown name has no value.
pub open spec fn float_stat(
    values: Seq<u64>,
    kind: StatKind,
    nodata_count: usize,
    nan_count: usize,
    derived: u64,
) -> FloatStat {
    match kind {
        StatKind::Nodata => FloatStat::Whole(nodata_count),
        StatKind::Nan => FloatStat::Whole(nan_count),
        StatKind::Unknown => FloatStat::Absent,
        _ => if values.len() == 0 {
            FloatStat::Absent
        } else {
            match kind {
                StatKind::Min => FloatStat::Pattern(ascending_form(values)[0]),
                StatKind::Max => FloatStat::Pattern(ascending_form(values)[values.len() - 1]),
                StatKind::Majority => FloatStat::Pattern(mode_of(values, true)),
                StatKind::Minority => FloatStat::Pattern(mode_of(values, false)),
                _ => FloatStat::Pattern(derived),
            }
        },
    }
}

/// The statistics of one zone. A name stands in one of the two maps.
pub struct StatRecord {
    /// The statistics that are reported as numbers.
    pub floats: NameMap<FloatStat>,
    /// The statistics that are whole numbers.
    pub ints: NameMap<i64>,
}

impl StatRecord {
    /// The record without any statistic.
    pub fn new() -> (rec: Self)
        ensures
            rec.floats@ == Map::<Seq<char>, FloatStat>::empty(),
            rec.ints@ == Map::<Seq<char>, i64>::empty(),
    {
        StatRecord { floats: NameMap::new(), ints: NameMap::new() }
    }
}

/// `name` is among the first `upto` names asked for.
pub open spec fn requested(stats: Seq<String>, upto: int, name: Seq<char>) -> bool {
    exists|i: int| 0 <= i < upto && (#[trigger] stats[i])@ == name
}

/// The name at `i` does not come again among the first `upto` names.
pub open spec fn is_last_request(stats: Seq<String>, upto: int, i: int) -> bool {
    forall|j: int| i < j < upto ==> (#[trigger] stats[j])@ != stats[i]@
}

/// One statistic of `values` as a whole number, if it is one.
fn int_value(values: &[u64], kind: StatKind) -> (r: Option<i64>)
    requires
        values@.len() <= i64::MAX,
    ensures
        r == int_stat(values@, kind),
{
    match kind {
        StatKind::Count => Some(values.len() as i64),
        StatKind::Unique => {
            if values.len() == 0 {
                None
            } else {
                proof {
                    values@.lemma_cardinality_of_set();
                }
                Some(unique_count(values) as i64)
            }
        },
        _ => None,
    }
}

/// The majority or the minority of `values` as a statistic.
fn mode_stat(values: &[u64], majority: bool) -> (r: FloatStat)
    requires
        values@.len() > 0,
    ensures
        r == FloatStat::Pattern(mode_of(values@, majority)),
{
    match mode_value(values, majority) {
        Some(b) => {
            proof {
                lemma_mode_unique(values@, b, mode_of(values@, majority), majority);
            }
            FloatStat::Pattern(b)
        },
        None => FloatStat::Absent,
    }
}

/// One statistic of `values` as a number; `sorted` is their ascending form.
fn float_value(
    values: &[u64],
    sorted: &[u64],
    kind: StatKind,
    nodata_count: usize,
    nan_count: usize,
    derived: u64,
) -> (r: FloatStat)
    requires
        sorted@ == ascending_form(values@),
        sorted@.len() == values@.len(),
    ensures
        r == float_stat(values@, kind, nodata_count, nan_count, derived),
{
    match kind {
        StatKind::Nodata => FloatStat::Whole(nodata_count),
        StatKind::Nan => FloatStat::Whole(nan_count),
        StatKind::Unknown => FloatStat::Absent,
        _ => {
            if values.len() == 0 {
                FloatStat::Absent
            } else {
                match kind {
                    StatKind::Min => FloatStat::Pattern(sorted[0]),
                    StatKind::Max => FloatStat::Pattern(sorted[sorted.len() - 1]),
                    StatKind::Majority => mode_stat(values, true),
                    StatKind::Minority => mode_stat(values, false),
                    _ => FloatStat::Pattern(derived),
                }
            }
        },
    }
}

/// The record of the statistics named in `stats` over the valid samples
/// `values` of a zone in which `nodata_count` cells held the nodata value and
/// `nan_count` were not finite; `derived[i]` is the pattern of the result for
/// `stats[i]` where that statistic is computed from the numbers, and is not
/// read otherwise.
///
/// Every name asked for stands in the record, and no other: under `ints`
/// where its statistic is a whole number on these samples, else under
/// `floats`. Where a name is asked for more than once, the last request
/// decides.
pub fn compute_stats(
    values: &[u64],
    stats: &[String],
    nodata_count: usize,
    nan_count: usize,
    derived: &[u64],
) -> (rec: StatRecord)
    requires
        derived@.len() == stats@.len(),
        values@.len() <= i64::MAX,
    ensures
        forall|name: Seq<char>|
            #![trigger rec.ints@.contains_key(name)]
            #![trigger requested(stats@, stats@.len() as int, name)]
            rec.ints@.contains_key(name) <==> requested(stats@, stats@.len() as int, name)
                && int_stat(values@, spec_stat_kind(name)).is_some(),
        forall|name: Seq<char>|
            #![trigger rec.floats@.contains_key(name)]
            #![trigger requested(stats@, stats@.len() as int, name)]
            rec.floats@.contains_key(name) <==> requested(stats@, stats@.len() as int, name)
                && int_stat(values@, spec_stat_kind(name)).is_none(),
        forall|name: Seq<char>| #[trigger]
            rec.ints@.contains_key(name) ==> Some(rec.ints@[name]) == int_stat(
                values@,
                spec_stat_kind(name),
            ),
        forall|i: int|
            0 <= i < stats@.len() && is_last_request(stats@, stats@.len() as int, i)
                && rec.floats@.contains_key((#[trigger] stats@[i])@) ==> rec.floats@[stats@[i]@]
                == float_stat(
                values@,
                spec_stat_kind(stats@[i]@),
                nodata_count,
                nan_count,
                derived@[i],
            ),
{
    let n: usize = stats.len();
    let sorted = sort_values(values);
    let mut rec = StatRecord::new();
    let mut i: usize = 0;
    while i < n
        invariant
            n == stats@.len(),
            n == derived@.len(),
            sorted@ == ascending_form(values@),
            sorted@.len() == values@.len(),
            values@.len() <= i64::MAX,
            i <= n,
            forall|name: Seq<char>|
                #![trigger rec.ints@.contains_key(name)]
                #![trigger requested(stats@, i as int, name)]
                rec.ints@.contains_key(name) <==> requested(stats@, i as int, name) && int_stat(
                    values@,
                    spec_stat_kind(name),
                ).is_some(),
            forall|name: Seq<char>|
                #![trigger rec.floats@.contains_key(name)]
                #![trigger requested(stats@, i as int, name)]
                rec.floats@.contains_key(name) <==> requested(stats@, i as int, name) && int_stat(
                    values@,
                    spec_stat_kind(name),
                ).is_none(),
            forall|name: Seq<char>| #[trigger]
                rec.ints@.contains_key(name) ==> Some(rec.ints@[name]) == int_stat(
                    values@,
                    spec_stat_kind(name),
                ),
            forall|j: int|
                0 <= j < i && is_last_request(stats@, i as int, j) && rec.floats@.contains_key(
                    (#[trigger] stats@[j])@,
                ) ==> rec.floats@[stats@[j]@] == float_stat(
                    values@,
                    spec_stat_kind(stats@[j]@),
                    nodata_count,
                    nan_count,
                    derived@[j],
                ),
        decreases n - i,
    {
        let name: &String = &stats[i];
        let kind = stat_kind(name.as_str());
        let ghost before = rec;
        match int_value(values, kind) {
            Some(v) => {
                rec.ints.insert(name.clone(), v);
            },
            None => {
                let v = float_value(
                    values,
                    sorted.as_slice(),
                    kind,
                    nodata_count,
                    nan_count,
                    derived[i],
                );
                rec.floats.insert(name.clone(), v);
            },
        }
        proof {
            let upto = i + 1;
            assert(kind == spec_stat_kind(name@));
            assert forall|key: Seq<char>| #[trigger]
                requested(stats@, upto, key) <==> requested(stats@, i as int, key) || key
                    == name@ by {
                if requested(stats@, i as int, key) {
                    let k = choose|k: int| 0 <= k < i && (#[trigger] stats@[k])@ == key;
                    assert(0 <= k < upto && stats@[k]@ == key);
                }
                if key == name@ {
                    assert(stats@[i as int]@ == key);
                }
                if requested(stats@, upto, key) && key != name@ {
                    let k = choose|k: int| 0 <= k < upto && (#[trigger] stats@[k])@ == key;
                    assert(0 <= k < i);
                }
            }
            assert forall|key: Seq<char>|
                #![trigger rec.ints@.contains_key(key)]
                #![trigger requested(stats@, upto, key)]
                rec.ints@.contains_key(key) <==> requested(stats@, upto, key) && int_stat(
                    values@,
                    spec_stat_kind(key),
                ).is_some() by {
                assert(before.ints@.contains_key(key) <==> requested(stats@, i as int, key)
                    && int_stat(values@, spec_stat_kind(key)).is_some());
                assert(requested(stats@, upto, key) <==> requested(stats@, i as int, key) || key
                    == name@);
            }
            assert forall|key: Seq<char>|
                #![trigger rec.floats@.contains_key(key)]
                #![trigger requested(stats@, upto, key)]
                rec.floats@.contains_key(key) <==> requested(stats@, upto, key) && int_stat(
                    values@,
                    spec_stat_kind(key),
                ).is_none() by {
                assert(before.floats@.contains_key(key) <==> requested(stats@, i as int, key)
                    && int_stat(values@, spec_stat_kind(key)).is_none());
                assert(requested(stats@, upto, key) <==> requested(stats@, i as int, key) || key
                    == name@);
            }
            assert forall|j: int|
                0 <= j < upto && is_last_request(stats@, upto, j) && rec.floats@.contains_key(
                    (#[trigger] stats@[j])@,
                ) implies rec.floats@[stats@[j]@] == float_stat(
                values@,
                spec_stat_kind(stats@[j]@),
                nodata_count,
                nan_count,
                derived@[j],
            ) by {
                if j < i {
                    assert(stats@[i as int]@ != stats@[j]@);
                    assert(is_last_request(stats@, i as int, j));
                    assert(before.floats@.contains_key(stats@[j]@));
                    assert(rec.floats@[stats@[j]@] == before.floats@[stats@[j]@]);
                } else {
                    assert(stats@[j]@ == name@);
                }
            }
        }
        i += 1;
    }
    rec
}

/// The percentile of rank 0 is the minimum and that of the last rank the
/// maximum, of any samples of which there is at least one.
pub proof fn lemma_percentile_ends_are_min_and_max(
    values: Seq<u64>,
    nodata_count: usize,
    nan_count: usize,
    derived: u64,
)
    requires
        values.len() > 0,
    ensures
        float_stat(values, StatKind::Min, nodata_count, nan_count, derived) == (match spec_percentile(
            ascending_form(values),
            0,
            0,
        ) {
            Percentile::Exact(p) => FloatStat::Pattern(p),
            Percentile::Blend { .. } => FloatStat::Absent,
        }),
        float_stat(values, StatKind::Max, nodata_count, nan_count, derived) == (match spec_percentile(
            ascending_form(values),
            values.len() - 1,
            values.len() - 1,
        ) {
            Percentile::Exact(p) => FloatStat::Pattern(p),
            Percentile::Blend { .. } => FloatStat::Absent,
        }),
{
    lemma_percentile_ends(values);
}

/// Of samples without a NaN, the minimum is the first of the lowest samples
/// and the maximum the last of the highest.
pub proof fn lemma_min_and_max_are_extremes(
    values: Seq<u64>,
    nodata_count: usize,
    nan_count: usize,
    derived: u64,
)
    requires
        values.len() > 0,
        nan_free(values),
    ensures
        float_stat(values, StatKind::Min, nodata_count, nan_count, derived) == FloatStat::Pattern(
            values[least_index(values)],
        ),
        float_stat(values, StatKind::Max, nodata_count, nan_count, derived) == FloatStat::Pattern(
            values[greatest_index(values)],
        ),
{
    lemma_ends_are_extremes(values);
}

} // verus!
