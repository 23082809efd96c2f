//! The ordered search that routes a sample to its bucket.

use vstd::prelude::*;

verus! {

/// The search window `[under, over)` narrowed until one index is left: the
/// middle boundary is compared with `value`, and the half that cannot hold
/// the sample is dropped.
pub open spec fn narrow(ranges: Seq<u32>, value: u32, under: int, over: int) -> int
    decreases over - under,
{
    if over - under < 2 {
        under
    } else {
        let mid = under + (over - under) / 2;
        if ranges[mid] <= value {
            narrow(ranges, value, mid, over)
        } else {
            narrow(ranges, value, under, mid)
        }
    }
}

/// The index of the bucket that takes `value`.
pub open spec fn bucket_of(ranges: Seq<u32>, value: u32) -> int {
    narrow(ranges, value, 0, ranges.len() as int)
}

/// Every entry is at most the one after it.
pub open spec fn non_decreasing(ranges: Seq<u32>) -> bool {
    forall|i: int, j: int| 0 <= i <= j < ranges.len() ==> ranges[i] <= ranges[j]
}

/// Bucket `idx` holds `value`: its boundary does not exceed the value (past
/// the first bucket, which takes everything below the second boundary), and
/// the next boundary, where there is one, lies above it.
pub open spec fn holds(ranges: Seq<u32>, idx: int, value: u32) -> bool {
    &&& 0 <= idx < ranges.len()
    &&& idx == 0 || ranges[idx] <= value
    &&& idx + 1 == ranges.len() || value < ranges[idx + 1]
}

/// The search stays inside its window.
pub proof fn lemma_narrow_bounds(ranges: Seq<u32>, value: u32, under: int, over: int)
    requires
        under < over,
    ensures
        under <= narrow(ranges, value, under, over) < over,
    decreases over - under,
{
    if over - under >= 2 {
        let mid = under + (over - under) / 2;
        if ranges[mid] <= value {
            lemma_narrow_bounds(ranges, value, mid, over);
        } else {
            lemma_narrow_bounds(ranges, value, under, mid);
        }
    }
}

/// A window whose lower edge does not exceed the value and whose upper edge
/// lies above it narrows to a bucket that holds the value.
pub proof fn lemma_narrow_holds(ranges: Seq<u32>, value: u32, under: int, over: int)
    requires
        0 <= under < over <= ranges.len(),
        under == 0 || ranges[under] <= value,
        over == ranges.len() || value < ranges[over],
    ensures
        holds(ranges, narrow(ranges, value, under, over), value),
    decreases over - under,
{
    if over - under >= 2 {
        let mid = under + (over - under) / 2;
        if ranges[mid] <= value {
            lemma_narrow_holds(ranges, value, mid, over);
        } else {
            lemma_narrow_holds(ranges, value, under, mid);
        }
    }
}

/// On one window, a larger value never narrows to an earlier index.
pub proof fn lemma_narrow_monotonic(ranges: Seq<u32>, a: u32, b: u32, under: int, over: int)
    requires
        a <= b,
        under < over,
    ensures
        narrow(ranges, a, under, over) <= narrow(ranges, b, under, over),
    decreases over - under,
{
    if over - under >= 2 {
        let mid = under + (over - under) / 2;
        if ranges[mid] <= a {
            lemma_narrow_monotonic(ranges, a, b, mid, over);
        } else if ranges[mid] <= b {
            lemma_narrow_bounds(ranges, a, under, mid);
            lemma_narrow_bounds(ranges, b, mid, over);
        } else {
            lemma_narrow_monotonic(ranges, a, b, under, mid);
        }
    }
}

/// Whatever the boundaries, the chosen bucket exists and holds the value.
pub proof fn lemma_bucket_holds(ranges: Seq<u32>, value: u32)
    requires
        ranges.len() >= 1,
    ensures
        holds(ranges, bucket_of(ranges, value), value),
{
    lemma_narrow_holds(ranges, value, 0, ranges.len() as int);
}

/// Bucket lookup is monotonic: of two samples, the larger one never lands in
/// an earlier bucket.
pub proof fn lemma_bucket_monotonic(ranges: Seq<u32>, a: u32, b: u32)
    requires
        ranges.len() >= 1,
        a < b,
    ensures
        bucket_of(ranges, a) <= bucket_of(ranges, b),
{
    lemma_narrow_monotonic(ranges, a, b, 0, ranges.len() as int);
}

/// Where the boundaries never decrease, only one bucket holds a value, so the
/// search finds exactly that one.
pub proof fn lemma_bucket_unique(ranges: Seq<u32>, idx: int, value: u32)
    requires
        non_decreasing(ranges),
        holds(ranges, idx, value),
    ensures
        bucket_of(ranges, value) == idx,
{
    let found = bucket_of(ranges, value);
    lemma_bucket_holds(ranges, value);
    if found < idx {
        assert(ranges[found + 1] <= ranges[idx]);
    } else if idx < found {
        assert(ranges[idx + 1] <= ranges[found]);
    }
}

/// The first bucket takes every value below the second boundary, and the last
/// bucket every value from the last boundary on.
pub proof fn lemma_bucket_edges(ranges: Seq<u32>, value: u32)
    requires
        ranges.len() >= 1,
        non_decreasing(ranges),
    ensures
        ranges.len() == 1 || value < ranges[1] ==> bucket_of(ranges, value) == 0,
        value >= ranges[ranges.len() - 1] ==> bucket_of(ranges, value) == ranges.len() - 1,
{
    if ranges.len() == 1 || value < ranges[1] {
        lemma_bucket_unique(ranges, 0, value);
    }
    if value >= ranges[ranges.len() - 1] {
        lemma_bucket_unique(ranges, ranges.len() - 1, value);
    }
}

/// Finds the bucket for `value` among `ranges`.
pub fn find_bucket(ranges: &[u32], value: u32) -> (idx: usize)
    requires
        ranges@.len() >= 1,
    ensures
        idx == bucket_of(ranges@, value),
        holds(ranges@, idx as int, value),
{
    let mut under: usize = 0;
    let mut over: usize = ranges.len();
    while over - under >= 2
        invariant
            under < over <= ranges@.len(),
            narrow(ranges@, value, under as int, over as int) == bucket_of(ranges@, value),
        decreases over - under,
    {
        let mid: usize = under + (over - under) / 2;
        if ranges[mid] <= value {
            under = mid;
        } else {
            over = mid;
        }
    }
    proof {
        lemma_bucket_holds(ranges@, value);
    }
    under
}

} // verus!
