//! The least and the greatest of a set of samples, by their places.
//!
//! Samples that stand for the same number (the two zeros) are told apart by
//! their place: the least is the first of the lowest samples, the greatest the
//! last of the highest. These are the samples with which the ascending form
//! of samples without a NaN begins and ends.

use vstd::prelude::*;
use crate::sample::{nan_free, sample_lt};

verus! {

/// The place of the least sample: each sample in turn replaces the one held
/// only if it is strictly below it.
pub open spec fn least_index(s: Seq<u64>) -> int
    decreases s.len(),
{
    if s.len() <= 1 {
        0
    } else {
        let held = least_index(s.drop_last());
        if sample_lt(s.last(), s[held]) {
            s.len() - 1
        } else {
            held
        }
    }
}

/// The place of the greatest sample: each sample in turn replaces the one
/// held unless it is strictly below it.
pub open spec fn greatest_index(s: Seq<u64>) -> int
    decreases s.len(),
{
    if s.len() <= 1 {
        0
    } else {
        let held = greatest_index(s.drop_last());
        if sample_lt(s.last(), s[held]) {
            held
        } else {
            s.len() - 1
        }
    }
}

/// Both places lie inside the sequence.
pub proof fn lemma_extreme_bounds(s: Seq<u64>)
    requires
        s.len() > 0,
    ensures
        0 <= least_index(s) < s.len(),
        0 <= greatest_index(s) < s.len(),
    decreases s.len(),
{
    if s.len() > 1 {
        lemma_extreme_bounds(s.drop_last());
    }
}

/// Among samples without a NaN, no sample is below the least, and every
/// sample before it is strictly above it.
pub proof fn lemma_least_is_first_minimum(s: Seq<u64>)
    requires
        s.len() > 0,
        nan_free(s),
    ensures
        forall|j: int| 0 <= j < s.len() ==> !sample_lt(#[trigger] s[j], s[least_index(s)]),
        forall|j: int| 0 <= j < least_index(s) ==> sample_lt(s[least_index(s)], #[trigger] s[j]),
    decreases s.len(),
{
    if s.len() > 1 {
        let head = s.drop_last();
        lemma_extreme_bounds(head);
        lemma_least_is_first_minimum(head);
        let held = least_index(head);
        assert(forall|j: int| 0 <= j < head.len() ==> head[j] == s[j]);
        assert(head[held] == s[held]);
    }
}

/// Among samples without a NaN, no sample is above the greatest, and every
/// sample after it is strictly below it.
pub proof fn lemma_greatest_is_last_maximum(s: Seq<u64>)
    requires
        s.len() > 0,
        nan_free(s),
    ensures
        forall|j: int| 0 <= j < s.len() ==> !sample_lt(s[greatest_index(s)], #[trigger] s[j]),
        forall|j: int|
            greatest_index(s) < j < s.len() ==> sample_lt(#[trigger] s[j], s[greatest_index(s)]),
    decreases s.len(),
{
    if s.len() > 1 {
        let head = s.drop_last();
        lemma_extreme_bounds(head);
        lemma_greatest_is_last_maximum(head);
        let held = greatest_index(head);
        assert(forall|j: int| 0 <= j < head.len() ==> head[j] == s[j]);
        assert(head[held] == s[held]);
    }
}

} // verus!
