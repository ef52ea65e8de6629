//! Sums over ranges of a sequence of seed counts, and the small facts about
//! them that the resolvers need: how a sum reacts to a point update, that a
//! sum of non-negative entries bounds each entry, and how a range splits.

use vstd::prelude::*;

verus! {

/// Sum of the entries of `s` with index in `[lo, hi)`.
pub open spec fn sum_range(s: Seq<int>, lo: int, hi: int) -> int
    decreases hi - lo,
{
    if lo >= hi {
        0
    } else {
        sum_range(s, lo, hi - 1) + s[hi - 1]
    }
}

/// Two sequences that agree on `[lo, hi)` have the same sum there.
pub proof fn lemma_sum_range_agree(s: Seq<int>, t: Seq<int>, lo: int, hi: int)
    requires
        forall|k: int| lo <= k < hi ==> s[k] == t[k],
    ensures
        sum_range(s, lo, hi) == sum_range(t, lo, hi),
    decreases hi - lo,
{
    if lo < hi {
        lemma_sum_range_agree(s, t, lo, hi - 1);
    }
}

/// Updating one entry inside the range moves the sum by the difference.
pub proof fn lemma_sum_range_update(s: Seq<int>, lo: int, hi: int, i: int, v: int)
    requires
        lo <= i < hi,
        0 <= lo,
        hi <= s.len(),
    ensures
        sum_range(s.update(i, v), lo, hi) == sum_range(s, lo, hi) - s[i] + v,
    decreases hi - lo,
{
    if i == hi - 1 {
        lemma_sum_range_agree(s.update(i, v), s, lo, hi - 1);
    } else {
        lemma_sum_range_update(s, lo, hi - 1, i, v);
    }
}

/// A sum of non-negative entries is non-negative.
pub proof fn lemma_sum_range_nonneg(s: Seq<int>, lo: int, hi: int)
    requires
        forall|k: int| lo <= k < hi ==> s[k] >= 0,
    ensures
        sum_range(s, lo, hi) >= 0,
    decreases hi - lo,
{
    if lo < hi {
        lemma_sum_range_nonneg(s, lo, hi - 1);
    }
}

/// With non-negative entries, each entry is at most the whole sum.
pub proof fn lemma_sum_range_elem(s: Seq<int>, lo: int, hi: int, i: int)
    requires
        forall|k: int| lo <= k < hi ==> s[k] >= 0,
        lo <= i < hi,
    ensures
        s[i] <= sum_range(s, lo, hi),
    decreases hi - lo,
{
    if i == hi - 1 {
        lemma_sum_range_nonneg(s, lo, hi - 1);
    } else {
        lemma_sum_range_elem(s, lo, hi - 1, i);
    }
}

/// With non-negative entries, two distinct entries together are at most the sum.
pub proof fn lemma_sum_range_two_elems(s: Seq<int>, lo: int, hi: int, i: int, j: int)
    requires
        forall|k: int| lo <= k < hi ==> s[k] >= 0,
        lo <= i < hi,
        lo <= j < hi,
        i != j,
    ensures
        s[i] + s[j] <= sum_range(s, lo, hi),
    decreases hi - lo,
{
    if j == hi - 1 {
        lemma_sum_range_elem(s, lo, hi - 1, i);
    } else if i == hi - 1 {
        lemma_sum_range_elem(s, lo, hi - 1, j);
    } else {
        lemma_sum_range_two_elems(s, lo, hi - 1, i, j);
    }
}

/// With non-negative entries, three distinct entries together are at most the sum.
pub proof fn lemma_sum_range_three_elems(s: Seq<int>, lo: int, hi: int, i: int, j: int, k: int)
    requires
        forall|m: int| lo <= m < hi ==> s[m] >= 0,
        lo <= i < hi,
        lo <= j < hi,
        lo <= k < hi,
        i != j,
        i != k,
        j != k,
    ensures
        s[i] + s[j] + s[k] <= sum_range(s, lo, hi),
    decreases hi - lo,
{
    if k == hi - 1 {
        lemma_sum_range_two_elems(s, lo, hi - 1, i, j);
    } else if j == hi - 1 {
        lemma_sum_range_two_elems(s, lo, hi - 1, i, k);
    } else if i == hi - 1 {
        lemma_sum_range_two_elems(s, lo, hi - 1, j, k);
    } else {
        lemma_sum_range_three_elems(s, lo, hi - 1, i, j, k);
    }
}

/// A sum over `[lo, hi)` splits at any midpoint.
pub proof fn lemma_sum_range_split(s: Seq<int>, lo: int, mid: int, hi: int)
    requires
        lo <= mid <= hi,
    ensures
        sum_range(s, lo, hi) == sum_range(s, lo, mid) + sum_range(s, mid, hi),
    decreases hi - mid,
{
    if mid < hi {
        lemma_sum_range_split(s, lo, mid, hi - 1);
    }
}

} // verus!
