//! Counting samples by bit pattern: the most and the least frequent pattern,
//! and the number of distinct ones.
//!
//! Samples are grouped by pattern, not by numeric value, so the two zeros are
//! counted apart, and so are NaNs with different payloads.

use std::collections::HashMap;
use vstd::prelude::*;
use vstd::std_specs::hash::*;

verus! {

broadcast use vstd::std_specs::hash::group_hash_axioms;

/// How often the pattern `b` occurs in `s`.
pub open spec fn occurrences(s: Seq<u64>, b: u64) -> nat
    decreases s.len(),
{
    if s.len() == 0 {
        0
    } else {
        occurrences(s.drop_last(), b) + if s.last() == b {
            1nat
        } else {
            0nat
        }
    }
}

/// Whether the pattern `x` is to be preferred to `b`: by its count, higher for
/// the majority and lower for the minority; among equal counts, the smaller
/// pattern.
pub open spec fn preferred(s: Seq<u64>, x: u64, b: u64, majority: bool) -> bool {
    let cx = occurrences(s, x);
    let cb = occurrences(s, b);
    if majority {
        cx > cb || (cx == cb && x < b)
    } else {
        cx < cb || (cx == cb && x < b)
    }
}

/// `b` occurs in `s`, and no pattern that occurs in `s` is preferred to it.
pub open spec fn is_mode(s: Seq<u64>, b: u64, majority: bool) -> bool {
    &&& s.contains(b)
    &&& forall|i: int| 0 <= i < s.len() ==> !preferred(s, #[trigger] s[i], b, majority)
}

/// A pattern occurs at most as often as the sequence is long, and at least
/// once where it occurs at all.
pub proof fn lemma_occurrences_bounds(s: Seq<u64>, b: u64)
    ensures
        occurrences(s, b) <= s.len(),
        s.contains(b) <==> occurrences(s, b) > 0,
    decreases s.len(),
{
    if s.len() > 0 {
        let head = s.drop_last();
        lemma_occurrences_bounds(head, b);
        if head.contains(b) {
            let i = choose|i: int| 0 <= i < head.len() && head[i] == b;
            assert(s[i] == b);
        }
        if s.last() == b {
            assert(s[s.len() - 1] == b);
        }
        if s.contains(b) && s.last() != b {
            let i = choose|i: int| 0 <= i < s.len() && s[i] == b;
            assert(head[i] == b);
        }
    }
}

/// The sequence has at most one mode of each kind.
pub proof fn lemma_mode_unique(s: Seq<u64>, a: u64, b: u64, majority: bool)
    requires
        is_mode(s, a, majority),
        is_mode(s, b, majority),
    ensures
        a == b,
{
    let i = choose|i: int| 0 <= i < s.len() && s[i] == a;
    let j = choose|j: int| 0 <= j < s.len() && s[j] == b;
    assert(!preferred(s, s[i], b, majority));
    assert(!preferred(s, s[j], a, majority));
}

/// The count of each pattern that occurs in `values`.
pub fn histogram(values: &[u64]) -> (hist: HashMap<u64, usize>)
    ensures
        forall|b: u64| hist@.contains_key(b) <==> values@.contains(b),
        forall|b: u64| hist@.contains_key(b) ==> hist@[b] == occurrences(values@, b),
{
    let n: usize = values.len();
    let mut hist: HashMap<u64, usize> = HashMap::new();
    let mut i: usize = 0;
    while i < n
        invariant
            n == values@.len(),
            i <= n,
            forall|b: u64| hist@.contains_key(b) <==> values@.take(i as int).contains(b),
            forall|b: u64|
                hist@.contains_key(b) ==> hist@[b] == occurrences(values@.take(i as int), b),
        decreases n - i,
    {
        let v: u64 = values[i];
        let ghost seen = values@.take(i as int);
        let ghost next = values@.take(i + 1);
        proof {
            assert(next.drop_last() =~= seen);
            assert(next.last() == v);
            lemma_occurrences_bounds(seen, v);
            assert forall|b: u64| next.contains(b) <==> (seen.contains(b) || b == v) by {
                if seen.contains(b) {
                    let k = choose|k: int| 0 <= k < seen.len() && seen[k] == b;
                    assert(next[k] == b);
                }
                if b == v {
                    assert(next[i as int] == b);
                }
                if next.contains(b) && b != v {
                    let k = choose|k: int| 0 <= k < next.len() && next[k] == b;
                    assert(seen[k] == b);
                }
            }
        }
        let count: usize = match hist.get(&v) {
            Some(c) => *c,
            None => 0,
        };
        hist.insert(v, count + 1);
        i += 1;
    }
    assert(values@.take(n as int) =~= values@);
    hist
}

/// The majority (or, with `majority` false, the minority) of `values`: the
/// pattern with the highest (lowest) count, and among those of equal count
/// the smallest. Absent where there is no value.
pub fn mode_value(values: &[u64], majority: bool) -> (r: Option<u64>)
    ensures
        values@.len() == 0 ==> r.is_none(),
        values@.len() > 0 ==> r.is_some() && is_mode(values@, r.unwrap(), majority),
{
    let n: usize = values.len();
    if n == 0 {
        return None;
    }
    let hist = histogram(values);
    let first: u64 = values[0];
    assert(values@.contains(first));
    let mut best: u64 = first;
    let mut best_count: usize = match hist.get(&first) {
        Some(c) => *c,
        None => 0,
    };
    let mut i: usize = 1;
    while i < n
        invariant
            n == values@.len(),
            1 <= i <= n,
            values@.contains(best),
            best_count == occurrences(values@, best),
            forall|b: u64| hist@.contains_key(b) <==> values@.contains(b),
            forall|b: u64| hist@.contains_key(b) ==> hist@[b] == occurrences(values@, b),
            forall|k: int| 0 <= k < i ==> !preferred(values@, #[trigger] values@[k], best, majority),
        decreases n - i,
    {
        let v: u64 = values[i];
        assert(values@.contains(v));
        let count: usize = match hist.get(&v) {
            Some(c) => *c,
            None => 0,
        };
        let better = if majority {
            count > best_count || (count == best_count && v < best)
        } else {
            count < best_count || (count == best_count && v < best)
        };
        if better {
            best = v;
            best_count = count;
        }
        i += 1;
    }
    Some(best)
}

/// How many distinct patterns occur in `values`.
pub fn unique_count(values: &[u64]) -> (n: usize)
    ensures
        n == values@.to_set().len(),
{
    let hist = histogram(values);
    assert(hist@.dom() =~= values@.to_set());
    hist.len()
}

} // verus!
