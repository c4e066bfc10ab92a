//! The samples of a zone in ascending order, and the order statistics that
//! a percentile is made of.
//!
//! The order is that of the numbers. Samples that stand for the same number
//! (the two zeros) keep the order in which they came.

use vstd::prelude::*;
use crate::extremes::{greatest_index, least_index, lemma_extreme_bounds};
use crate::extremes::{lemma_greatest_is_last_maximum, lemma_least_is_first_minimum};
use crate::sample::{lemma_sample_order, nan_free, sample_less, sample_lt, NAN_BITS};

verus! {

/// The sample at `i` comes before the sample at `j` in ascending order: it
/// is the lower of the two, or neither is lower and it stands first.
pub open spec fn precedes(values: Seq<u64>, i: int, j: int) -> bool {
    sample_lt(values[i], values[j]) || (!sample_lt(values[j], values[i]) && i < j)
}

/// `perm` lists places from `lo` up to, not including, `hi`, and each of
/// them at least once; being as long as there are such places, it lists each
/// exactly once.
pub open spec fn lists(perm: Seq<int>, lo: int, hi: int) -> bool {
    &&& perm.len() == hi - lo
    &&& forall|k: int| 0 <= k < perm.len() ==> lo <= #[trigger] perm[k] < hi
    &&& forall|p: int| lo <= p < hi ==> perm.contains(p)
}

/// `sorted` holds the samples of `values` in the order in which `perm`
/// lists their places.
pub open spec fn follows(sorted: Seq<u64>, values: Seq<u64>, perm: Seq<int>) -> bool {
    &&& sorted.len() == perm.len()
    &&& forall|k: int| 0 <= k < perm.len() ==> #[trigger] sorted[k] == values[perm[k]]
}

/// Each place that `perm` lists comes before those listed after it.
pub open spec fn ascending(values: Seq<u64>, perm: Seq<int>) -> bool {
    forall|k: int, l: int|
        0 <= k < l < perm.len() ==> precedes(values, #[trigger] perm[k], #[trigger] perm[l])
}

/// `sorted` is a rearrangement of `values`, and where no sample is NaN it is
/// the ascending one, in which samples that stand for the same number keep
/// their order.
pub open spec fn is_sorted_form(sorted: Seq<u64>, values: Seq<u64>) -> bool {
    exists|perm: Seq<int>|
        lists(perm, 0, values.len() as int) && #[trigger] follows(sorted, values, perm) && (
        nan_free(values) ==> ascending(values, perm))
}

/// Among samples without a NaN, coming before is transitive, and of two
/// different places one comes before the other, never both.
pub proof fn lemma_precedes_order(values: Seq<u64>, a: int, b: int, c: int)
    requires
        nan_free(values),
        0 <= a < values.len(),
        0 <= b < values.len(),
        0 <= c < values.len(),
    ensures
        precedes(values, a, b) && precedes(values, b, c) ==> precedes(values, a, c),
        !(precedes(values, a, b) && precedes(values, b, a)),
        a != b ==> precedes(values, a, b) || precedes(values, b, a),
{
    lemma_sample_order(values[a], values[b], values[c]);
    lemma_sample_order(values[b], values[a], values[c]);
    lemma_sample_order(values[c], values[b], values[a]);
}

/// Two ascending runs merged into one: of the two samples in front the
/// lower is taken, and the one of the first run where neither is lower.
pub open spec fn merged(left: Seq<u64>, right: Seq<u64>) -> Seq<u64>
    decreases left.len() + right.len(),
{
    if left.len() == 0 {
        right
    } else if right.len() == 0 {
        left
    } else if sample_lt(right[0], left[0]) {
        seq![right[0]] + merged(left, right.drop_first())
    } else {
        seq![left[0]] + merged(left.drop_first(), right)
    }
}

/// The ascending form of the samples: that of their first half merged with
/// that of the rest.
///
/// Where no sample is NaN this is the one arrangement that ascends by number
/// and keeps samples that stand for the same number in their order. A NaN is
/// neither below nor above anything, so it stays where the merging leaves
/// it.
pub open spec fn ascending_form(values: Seq<u64>) -> Seq<u64>
    decreases values.len(),
{
    if values.len() <= 1 {
        values
    } else {
        let mid = values.len() as int / 2;
        merged(ascending_form(values.take(mid)), ascending_form(values.skip(mid)))
    }
}

/// Merging puts the places of two runs in one list: that list holds what
/// either holds, follows the merged samples, and ascends where both runs do
/// and every place of the first run lies before every place of the second.
proof fn lemma_merged_places(
    values: Seq<u64>,
    left: Seq<u64>,
    lperm: Seq<int>,
    right: Seq<u64>,
    rperm: Seq<int>,
) -> (perm: Seq<int>)
    requires
        follows(left, values, lperm),
        follows(right, values, rperm),
        forall|k: int| 0 <= k < lperm.len() ==> 0 <= #[trigger] lperm[k] < values.len(),
        forall|k: int| 0 <= k < rperm.len() ==> 0 <= #[trigger] rperm[k] < values.len(),
        forall|a: int, b: int|
            0 <= a < lperm.len() && 0 <= b < rperm.len() ==> #[trigger] lperm[a]
                < #[trigger] rperm[b],
        nan_free(values) ==> ascending(values, lperm) && ascending(values, rperm),
    ensures
        perm.len() == lperm.len() + rperm.len(),
        follows(merged(left, right), values, perm),
        forall|p: int| perm.contains(p) <==> lperm.contains(p) || rperm.contains(p),
        nan_free(values) ==> ascending(values, perm),
    decreases left.len() + right.len(),
{
    if left.len() == 0 {
        assert(forall|p: int| !lperm.contains(p));
        rperm
    } else if right.len() == 0 {
        assert(forall|p: int| !rperm.contains(p));
        lperm
    } else {
        let take_right = sample_lt(right[0], left[0]);
        let place = if take_right {
            rperm[0]
        } else {
            lperm[0]
        };
        let lrest = if take_right {
            left
        } else {
            left.drop_first()
        };
        let lplaces = if take_right {
            lperm
        } else {
            lperm.drop_first()
        };
        let rrest = if take_right {
            right.drop_first()
        } else {
            right
        };
        let rplaces = if take_right {
            rperm.drop_first()
        } else {
            rperm
        };
        assert(forall|k: int| 0 <= k < lplaces.len() ==> lplaces[k] == lperm[k + (lperm.len()
            - lplaces.len())]);
        assert(forall|k: int| 0 <= k < rplaces.len() ==> rplaces[k] == rperm[k + (rperm.len()
            - rplaces.len())]);
        assert(forall|k: int| 0 <= k < lrest.len() ==> lrest[k] == left[k + (left.len()
            - lrest.len())]);
        assert(forall|k: int| 0 <= k < rrest.len() ==> rrest[k] == right[k + (right.len()
            - rrest.len())]);
        let rest = lemma_merged_places(values, lrest, lplaces, rrest, rplaces);
        let perm = seq![place] + rest;
        assert(perm[0] == place);
        assert(forall|k: int| 0 < k < perm.len() ==> perm[k] == rest[k - 1]);
        assert forall|p: int| perm.contains(p) <==> lperm.contains(p) || rperm.contains(p) by {
            if perm.contains(p) {
                let k = choose|k: int| 0 <= k < perm.len() && perm[k] == p;
                if k > 0 {
                    assert(rest.contains(rest[k - 1]));
                    if lplaces.contains(p) {
                        let a = choose|a: int| 0 <= a < lplaces.len() && lplaces[a] == p;
                        assert(lperm[a + (lperm.len() - lplaces.len())] == p);
                    } else {
                        let b = choose|b: int| 0 <= b < rplaces.len() && rplaces[b] == p;
                        assert(rperm[b + (rperm.len() - rplaces.len())] == p);
                    }
                } else {
                    assert(lperm[0] == p || rperm[0] == p);
                }
            }
            if lperm.contains(p) {
                let a = choose|a: int| 0 <= a < lperm.len() && lperm[a] == p;
                if take_right || a > 0 {
                    let at = a - (lperm.len() - lplaces.len());
                    assert(lplaces[at] == p);
                    assert(lplaces.contains(p));
                    let k = choose|k: int| 0 <= k < rest.len() && rest[k] == p;
                    assert(perm[k + 1] == p);
                } else {
                    assert(perm[0] == p);
                }
            }
            if rperm.contains(p) {
                let b = choose|b: int| 0 <= b < rperm.len() && rperm[b] == p;
                if !take_right || b > 0 {
                    let at = b - (rperm.len() - rplaces.len());
                    assert(rplaces[at] == p);
                    assert(rplaces.contains(p));
                    let k = choose|k: int| 0 <= k < rest.len() && rest[k] == p;
                    assert(perm[k + 1] == p);
                } else {
                    assert(perm[0] == p);
                }
            }
        }
        let all = merged(left, right);
        assert(all[0] == values[place]);
        assert(forall|k: int| 0 < k < all.len() ==> all[k] == merged(lrest, rrest)[k - 1]);
        if nan_free(values) {
            assert forall|k: int, l: int| 0 <= k < l < perm.len() implies precedes(
                values,
                #[trigger] perm[k],
                #[trigger] perm[l],
            ) by {
                if k > 0 {
                    assert(precedes(values, rest[k - 1], rest[l - 1]));
                } else {
                    // The place taken comes before every place that is left.
                    let p = rest[l - 1];
                    assert(rest.contains(p));
                    assert(precedes(values, lperm[0], rperm[0]) || precedes(
                        values,
                        rperm[0],
                        lperm[0],
                    ));
                    if lplaces.contains(p) {
                        let a = choose|a: int| 0 <= a < lplaces.len() && lplaces[a] == p;
                        let at = a + (lperm.len() - lplaces.len());
                        assert(lperm[at] == p);
                        if take_right {
                            if at > 0 {
                                assert(precedes(values, lperm[0], lperm[at]));
                                lemma_precedes_order(values, rperm[0], lperm[0], lperm[at]);
                            }
                        } else {
                            assert(precedes(values, lperm[0], lperm[at]));
                        }
                    } else {
                        let b = choose|b: int| 0 <= b < rplaces.len() && rplaces[b] == p;
                        let at = b + (rperm.len() - rplaces.len());
                        assert(rperm[at] == p);
                        if take_right {
                            assert(precedes(values, rperm[0], rperm[at]));
                        } else {
                            if at > 0 {
                                assert(precedes(values, rperm[0], rperm[at]));
                                lemma_precedes_order(values, lperm[0], rperm[0], rperm[at]);
                            }
                        }
                    }
                }
            }
        }
        perm
    }
}

/// The places of the samples from `lo` up to `hi`, in the order of their
/// ascending form.
proof fn lemma_ascending_places(values: Seq<u64>, lo: int, hi: int) -> (perm: Seq<int>)
    requires
        0 <= lo <= hi <= values.len(),
    ensures
        lists(perm, lo, hi),
        follows(ascending_form(values.subrange(lo, hi)), values, perm),
        nan_free(values) ==> ascending(values, perm),
    decreases hi - lo,
{
    let part = values.subrange(lo, hi);
    if hi - lo == 0 {
        Seq::empty()
    } else if hi - lo == 1 {
        let perm = seq![lo];
        assert(perm[0] == lo);
        assert forall|p: int| lo <= p < hi implies perm.contains(p) by {
            assert(perm[0] == p);
        }
        perm
    } else {
        let mid = (hi - lo) / 2;
        assert(part.take(mid) =~= values.subrange(lo, lo + mid));
        assert(part.skip(mid) =~= values.subrange(lo + mid, hi));
        let lperm = lemma_ascending_places(values, lo, lo + mid);
        let rperm = lemma_ascending_places(values, lo + mid, hi);
        let perm = lemma_merged_places(
            values,
            ascending_form(values.subrange(lo, lo + mid)),
            lperm,
            ascending_form(values.subrange(lo + mid, hi)),
            rperm,
        );
        assert forall|k: int| 0 <= k < perm.len() implies lo <= #[trigger] perm[k] < hi by {
            assert(perm.contains(perm[k]));
            if lperm.contains(perm[k]) {
                let a = choose|a: int| 0 <= a < lperm.len() && lperm[a] == perm[k];
            } else {
                let b = choose|b: int| 0 <= b < rperm.len() && rperm[b] == perm[k];
            }
        }
        assert forall|p: int| lo <= p < hi implies perm.contains(p) by {
            if p < lo + mid {
                assert(lperm.contains(p));
            } else {
                assert(rperm.contains(p));
            }
        }
        perm
    }
}

/// The ascending form is a rearrangement of the samples, as long as they
/// are, and where none is NaN it ascends by number and keeps samples that
/// stand for the same number in their order.
pub proof fn lemma_ascending_form_is_sorted(values: Seq<u64>)
    ensures
        is_sorted_form(ascending_form(values), values),
        ascending_form(values).len() == values.len(),
{
    let perm = lemma_ascending_places(values, 0, values.len() as int);
    assert(values.subrange(0, values.len() as int) =~= values);
    assert(follows(ascending_form(values), values, perm));
}

fn merge(left: Vec<u64>, right: Vec<u64>) -> (out: Vec<u64>)
    requires
        left@.len() + right@.len() <= usize::MAX,
    ensures
        out@ == merged(left@, right@),
{
    let n: usize = left.len();
    let m: usize = right.len();
    let mut out: Vec<u64> = Vec::new();
    let mut i: usize = 0;
    let mut j: usize = 0;
    assert(left@.skip(0) =~= left@ && right@.skip(0) =~= right@);
    while i < n || j < m
        invariant
            n == left@.len(),
            m == right@.len(),
            i <= n,
            j <= m,
            out@ + merged(left@.skip(i as int), right@.skip(j as int)) == merged(left@, right@),
        decreases (n - i) + (m - j),
    {
        let ghost before = out@;
        let ghost lrest = left@.skip(i as int);
        let ghost rrest = right@.skip(j as int);
        let take_left: bool = if i >= n {
            false
        } else if j >= m {
            true
        } else {
            !sample_less(right[j], left[i])
        };
        if take_left {
            out.push(left[i]);
            proof {
                assert(lrest.drop_first() =~= left@.skip(i + 1));
                assert(merged(lrest, rrest) =~= seq![left@[i as int]] + merged(
                    left@.skip(i + 1),
                    rrest,
                ));
                assert(out@ + merged(left@.skip(i + 1), rrest) =~= before + merged(lrest, rrest));
            }
            i += 1;
        } else {
            out.push(right[j]);
            proof {
                assert(rrest.drop_first() =~= right@.skip(j + 1));
                assert(merged(lrest, rrest) =~= seq![right@[j as int]] + merged(
                    lrest,
                    right@.skip(j + 1),
                ));
                assert(out@ + merged(lrest, right@.skip(j + 1)) =~= before + merged(lrest, rrest));
            }
            j += 1;
        }
    }
    assert(out@ + merged(left@.skip(n as int), right@.skip(m as int)) =~= out@);
    out
}

fn sort_range(values: &[u64], lo: usize, hi: usize) -> (out: Vec<u64>)
    requires
        lo <= hi <= values@.len(),
    ensures
        out@ == ascending_form(values@.subrange(lo as int, hi as int)),
        out@.len() == hi - lo,
    decreases hi - lo,
{
    let ghost part = values@.subrange(lo as int, hi as int);
    if hi - lo == 0 {
        let out: Vec<u64> = Vec::new();
        assert(out@ =~= part);
        return out;
    }
    if hi - lo == 1 {
        let mut out: Vec<u64> = Vec::new();
        out.push(values[lo]);
        assert(out@ =~= part);
        return out;
    }
    let mid: usize = lo + (hi - lo) / 2;
    proof {
        assert(part.take((hi - lo) as int / 2) =~= values@.subrange(lo as int, mid as int));
        assert(part.skip((hi - lo) as int / 2) =~= values@.subrange(mid as int, hi as int));
        lemma_ascending_form_is_sorted(part);
    }
    let left = sort_range(values, lo, mid);
    let right = sort_range(values, mid, hi);
    merge(left, right)
}

/// The samples in their ascending form.
///
/// The result holds every sample of `values` once. Where none is NaN it is
/// ascending by number, and samples that stand for the same number keep
/// their order.
pub fn sort_values(values: &[u64]) -> (sorted: Vec<u64>)
    ensures
        sorted@ == ascending_form(values@),
        sorted@.len() == values@.len(),
        is_sorted_form(sorted@, values@),
{
    proof {
        assert(values@.subrange(0, values@.len() as int) =~= values@);
        lemma_ascending_form_is_sorted(values@);
    }
    sort_range(values, 0, values.len())
}

/// What a percentile is made of.
#[derive(Debug, Clone, Copy, PartialEq, Eq, Structural)]
pub enum Percentile {
    /// One sample, as it is.
    Exact(u64),
    /// Two neighbours in the order, to be weighted by the fraction of the
    /// rank.
    Blend { low: u64, high: u64 },
}

/// The percentile whose rank lies between the places `low` and `high` of
/// the ascending samples: NaN of no sample, the sample itself of one, the
/// sample at the rank where the rank is whole, and else the two samples
/// around it.
pub open spec fn spec_percentile(sorted: Seq<u64>, low: int, high: int) -> Percentile {
    if sorted.len() == 0 {
        Percentile::Exact(NAN_BITS)
    } else if sorted.len() == 1 {
        Percentile::Exact(sorted[0])
    } else if low == high {
        Percentile::Exact(sorted[low])
    } else {
        Percentile::Blend { low: sorted[low], high: sorted[high] }
    }
}

/// The order statistics of a percentile of the ascending samples `sorted`,
/// where `low` and `high` are its rank rounded down and up.
pub fn percentile(sorted: &[u64], low: usize, high: usize) -> (r: Percentile)
    requires
        sorted@.len() >= 2 ==> low < sorted@.len() && high < sorted@.len(),
    ensures
        r == spec_percentile(sorted@, low as int, high as int),
{
    if sorted.len() == 0 {
        Percentile::Exact(NAN_BITS)
    } else if sorted.len() == 1 {
        Percentile::Exact(sorted[0])
    } else if low == high {
        Percentile::Exact(sorted[low])
    } else {
        Percentile::Blend { low: sorted[low], high: sorted[high] }
    }
}

/// The percentile of rank 0 is the first sample of the ascending form, and
/// that of the last rank its last sample, whatever the samples are.
pub proof fn lemma_percentile_ends(values: Seq<u64>)
    requires
        values.len() > 0,
    ensures
        ascending_form(values).len() == values.len(),
        spec_percentile(ascending_form(values), 0, 0) == Percentile::Exact(
            ascending_form(values)[0],
        ),
        spec_percentile(ascending_form(values), values.len() - 1, values.len() - 1)
            == Percentile::Exact(ascending_form(values)[values.len() - 1]),
{
    lemma_ascending_form_is_sorted(values);
}

/// Of samples without a NaN, the ascending form begins with the first of
/// the lowest samples and ends with the last of the highest: no sample is
/// below its first, none above its last.
pub proof fn lemma_ends_are_extremes(values: Seq<u64>)
    requires
        values.len() > 0,
        nan_free(values),
    ensures
        ascending_form(values)[0] == values[least_index(values)],
        ascending_form(values)[values.len() - 1] == values[greatest_index(values)],
{
    let n = values.len() as int;
    let sorted = ascending_form(values);
    lemma_ascending_form_is_sorted(values);
    let perm = choose|perm: Seq<int>|
        lists(perm, 0, n) && #[trigger] follows(sorted, values, perm) && (nan_free(values)
            ==> ascending(values, perm));
    lemma_extreme_bounds(values);
    lemma_least_is_first_minimum(values);
    lemma_greatest_is_last_maximum(values);
    let least = least_index(values);
    let first = perm[0];
    assert(perm.contains(least));
    let at = choose|k: int| 0 <= k < perm.len() && perm[k] == least;
    if at > 0 {
        assert(precedes(values, perm[0], perm[at]));
        lemma_precedes_order(values, first, least, first);
        assert(false);
    }
    assert(sorted[0] == values[perm[0]]);
    let greatest = greatest_index(values);
    let last = perm[n - 1];
    assert(perm.contains(greatest));
    let top = choose|k: int| 0 <= k < perm.len() && perm[k] == greatest;
    if top < n - 1 {
        assert(precedes(values, perm[top], perm[n - 1]));
        lemma_precedes_order(values, last, greatest, last);
        assert(false);
    }
    assert(sorted[n - 1] == values[perm[n - 1]]);
}

} // verus!
