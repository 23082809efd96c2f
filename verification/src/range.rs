//! Bucket boundaries of the built-in layouts.

use vstd::prelude::*;
use crate::layout::ConfigurationError;

verus! {

/// The least number of buckets that a generated layout can have.
pub const MIN_BUCKETS: u32 = 3;

/// Boundary `i` of the linear layout: zero first, then an interpolation from
/// `min` (at index 1) to `max` (at the last index), rounded down.
pub open spec fn linear_boundary(min: u32, max: u32, count: u32, i: int) -> int
    recommends
        count >= 3,
        0 <= i < count,
{
    if i == 0 {
        0
    } else {
        (min * (count - 1 - i) + max * (i - 1)) / (count - 2)
    }
}

/// The whole linear layout as a sequence.
pub open spec fn linear_boundaries(min: u32, max: u32, count: u32) -> Seq<u32> {
    Seq::new(count as nat, |i: int| linear_boundary(min, max, count, i) as u32)
}

/// `ranges[0]` is zero and every later entry exceeds the one before it.
pub open spec fn strictly_increasing_from_zero(ranges: Seq<u32>) -> bool {
    &&& ranges.len() >= 1
    &&& ranges[0] == 0
    &&& forall|i: int| 0 <= i < ranges.len() - 1 ==> #[trigger] ranges[i] < ranges[i + 1]
}

/// A weighted mean of two 32-bit values lies between them, so it is a 32-bit
/// value itself.
pub proof fn lemma_linear_boundary_bounds(min: u32, max: u32, count: u32, i: int)
    requires
        count >= 3,
        1 <= i < count,
    ensures
        0 <= min * (count - 1 - i) <= 0xFFFF_FFFF * 0xFFFF_FFFF,
        0 <= max * (i - 1) <= 0xFFFF_FFFF * 0xFFFF_FFFF,
        min * (count - 1 - i) + max * (i - 1) <= 0xFFFF_FFFF * (count - 2),
        0 <= linear_boundary(min, max, count, i) <= 0xFFFF_FFFF,
        min <= max ==> min <= linear_boundary(min, max, count, i) <= max,
        max <= min ==> max <= linear_boundary(min, max, count, i) <= min,
{
    let a: int = count - 1 - i;
    let b: int = i - 1;
    let d: int = count - 2;
    let lo: int = if min <= max { min as int } else { max as int };
    let hi: int = if min <= max { max as int } else { min as int };
    assert(a + b == d);
    assert(0 <= min * a <= hi * a) by (nonlinear_arith)
        requires 0 <= min <= hi, 0 <= a;
    assert(0 <= max * b <= hi * b) by (nonlinear_arith)
        requires 0 <= max <= hi, 0 <= b;
    assert(lo * a <= min * a) by (nonlinear_arith)
        requires 0 <= lo <= min, 0 <= a;
    assert(lo * b <= max * b) by (nonlinear_arith)
        requires 0 <= lo <= max, 0 <= b;
    assert(hi * a + hi * b == hi * d) by (nonlinear_arith)
        requires a + b == d;
    assert(lo * a + lo * b == lo * d) by (nonlinear_arith)
        requires a + b == d;
    assert(hi * a <= 0xFFFF_FFFF * 0xFFFF_FFFF) by (nonlinear_arith)
        requires 0 <= hi <= 0xFFFF_FFFF, 0 <= a <= 0xFFFF_FFFF;
    assert(hi * b <= 0xFFFF_FFFF * 0xFFFF_FFFF) by (nonlinear_arith)
        requires 0 <= hi <= 0xFFFF_FFFF, 0 <= b <= 0xFFFF_FFFF;
    assert(hi * d <= 0xFFFF_FFFF * d) by (nonlinear_arith)
        requires 0 <= hi <= 0xFFFF_FFFF, 0 <= d;
    let n: int = min * a + max * b;
    assert(lo * d <= n <= hi * d);
    assert(lo <= n / d <= hi) by (nonlinear_arith)
        requires lo * d <= n <= hi * d, d > 0;
}

/// In a sequence that increases strictly, entry `i` lies at least `i - 1`
/// above entry 1.
pub proof fn lemma_strict_increase_gap(ranges: Seq<u32>, i: int)
    requires
        strictly_increasing_from_zero(ranges),
        1 <= i < ranges.len(),
    ensures
        ranges[i] >= ranges[1] + (i - 1),
    decreases i,
{
    if i > 1 {
        lemma_strict_increase_gap(ranges, i - 1);
        assert(ranges[i - 1] < ranges[i - 1 + 1]);
    }
}

/// In a sequence that increases strictly, a later entry is the larger one.
pub proof fn lemma_strict_increase_order(ranges: Seq<u32>, i: int, j: int)
    requires
        strictly_increasing_from_zero(ranges),
        0 <= i < j < ranges.len(),
    ensures
        ranges[i] < ranges[j],
    decreases j - i,
{
    if i + 1 < j {
        lemma_strict_increase_order(ranges, i, j - 1);
    }
    assert(ranges[j - 1] < ranges[j - 1 + 1]);
}

/// The linear layout starts at `min` (index 1) and ends at `max`.
pub proof fn lemma_linear_ends(min: u32, max: u32, count: u32)
    requires
        count >= 3,
    ensures
        linear_boundary(min, max, count, 1) == min,
        linear_boundary(min, max, count, count - 1) == max,
{
    let d: int = count - 2;
    assert(min * d + max * 0 == min * d) by (nonlinear_arith);
    assert((min * d) / d == min) by (nonlinear_arith)
        requires d > 0;
    assert(min * 0 + max * d == max * d) by (nonlinear_arith);
    assert((max * d) / d == max) by (nonlinear_arith)
        requires d > 0;
}

/// From one boundary of the linear layout to the next, the value grows by at
/// least one where `max - min` is at least `count - 2`.
pub proof fn lemma_linear_step(min: u32, max: u32, count: u32, i: int)
    requires
        count >= 3,
        1 <= i < count - 1,
        max - min >= count - 2,
    ensures
        linear_boundary(min, max, count, i) < linear_boundary(min, max, count, i + 1),
{
    let d: int = count - 2;
    let n: int = min * (count - 1 - i) + max * (i - 1);
    let m: int = min * (count - 1 - (i + 1)) + max * (i + 1 - 1);
    assert(m == n + (max - min)) by (nonlinear_arith)
        requires
            n == min * (count - 1 - i) + max * (i - 1),
            m == min * (count - 1 - (i + 1)) + max * (i + 1 - 1),
    ;
    assert(n / d < m / d) by (nonlinear_arith)
        requires
            m >= n + d,
            d > 0,
    ;
}

/// A linear layout is zero first and strictly increasing after that exactly
/// when its minimum is at least one and `max - min` leaves every step room to
/// grow, that is `max - min >= count - 2`.
pub proof fn lemma_linear_strictly_increasing(min: u32, max: u32, count: u32)
    requires
        count >= 3,
    ensures
        strictly_increasing_from_zero(linear_boundaries(min, max, count)) <==> (min >= 1 && max
            - min >= count - 2),
{
    let ranges = linear_boundaries(min, max, count);
    lemma_linear_ends(min, max, count);
    assert forall|i: int| 1 <= i < count implies #[trigger] ranges[i] == linear_boundary(
        min,
        max,
        count,
        i,
    ) by {
        lemma_linear_boundary_bounds(min, max, count, i);
    }
    assert(ranges[1] == min);
    assert(ranges[count - 1] == max);
    if min >= 1 && max - min >= count - 2 {
        assert forall|i: int| 0 <= i < ranges.len() - 1 implies #[trigger] ranges[i] < ranges[i
            + 1] by {
            if i >= 1 {
                lemma_linear_step(min, max, count, i);
            }
        }
    }
    if strictly_increasing_from_zero(ranges) {
        assert(ranges[0int] < ranges[0int + 1]);
        lemma_strict_increase_gap(ranges, count - 1);
    }
}

/// One boundary per integer: `0, 1, ..., count`.
pub open spec fn consecutive_boundaries(count: u32) -> Seq<u32> {
    Seq::new((count + 1) as nat, |i: int| i as u32)
}

/// A linear layout from 1 to `count` with `count + 1` buckets has one bucket
/// per integer.
pub proof fn lemma_enumerated_boundaries(count: u32)
    requires
        2 <= count < u32::MAX,
    ensures
        linear_boundaries(1, count, (count + 1) as u32) == consecutive_boundaries(count),
{
    let buckets: u32 = (count + 1) as u32;
    let d: int = count - 1;
    assert forall|i: int| 0 <= i < buckets implies linear_boundary(1, count, buckets, i)
        == i by {
        if i >= 1 {
            assert(1 * (buckets - 1 - i) + count * (i - 1) == i * d) by (nonlinear_arith)
                requires
                    buckets == count + 1,
                    d == count - 1,
            ;
            assert((i * d) / d == i) by (nonlinear_arith)
                requires
                    d > 0,
            ;
        }
    }
    assert(linear_boundaries(1, count, buckets) =~= consecutive_boundaries(count));
}

/// The linear layout from 1 to 2 with three buckets is `0, 1, 2`.
pub proof fn lemma_boolean_boundaries()
    ensures
        linear_boundaries(1, 2, 3) == seq![0u32, 1u32, 2u32],
{
    lemma_enumerated_boundaries(2);
    assert(consecutive_boundaries(2) =~= seq![0u32, 1u32, 2u32]);
}

/// The boundaries of a linear layout with `count` buckets between `min` and
/// `max`.
///
/// Fails when `count` is below three, since the interpolation divides by
/// `count - 2`.
pub fn linear_range(min: u32, max: u32, count: u32) -> (res: Result<Vec<u32>, ConfigurationError>)
    ensures
        count < 3 <==> res == Err::<Vec<u32>, ConfigurationError>(ConfigurationError::TooFewBuckets),
        count >= 3 <==> res is Ok,
        res is Ok ==> res->Ok_0@ == linear_boundaries(min, max, count),
        res is Ok ==> res->Ok_0@.len() == count && forall|i: int|
            0 <= i < count ==> #[trigger] res->Ok_0@[i] == linear_boundary(min, max, count, i),
{
    if count < MIN_BUCKETS {
        return Err(ConfigurationError::TooFewBuckets);
    }
    let mut ranges: Vec<u32> = Vec::with_capacity(count as usize);
    ranges.push(0);
    let mut i: u32 = 1;
    while i < count
        invariant
            count >= 3,
            1 <= i <= count,
            ranges@.len() == i,
            forall|j: int| 0 <= j < i ==> #[trigger] ranges@[j] == linear_boundary(min, max, count, j),
        decreases count - i,
    {
        proof {
            lemma_linear_boundary_bounds(min, max, count, i as int);
        }
        let low: u64 = (min as u64) * ((count - 1 - i) as u64);
        let high: u64 = (max as u64) * ((i - 1) as u64);
        let range: u64 = (low + high) / ((count - 2) as u64);
        ranges.push(range as u32);
        i = i + 1;
    }
    assert(ranges@ =~= linear_boundaries(min, max, count));
    Ok(ranges)
}

/// The requested minimum, raised to one where it was zero.
pub open spec fn at_least_one(min: u32) -> u32 {
    if min == 0 {
        1
    } else {
        min
    }
}

/// The boundary that follows `current`, given the `candidate` that the
/// interpolation proposed: the candidate where it lies above `current`, else
/// `current + 1`; nothing where that would pass the largest value.
pub open spec fn exponential_step_spec(current: u32, candidate: u32) -> Option<u32> {
    if candidate > current {
        Some(candidate)
    } else if current < u32::MAX {
        Some((current + 1) as u32)
    } else {
        None
    }
}

/// One step of the exponential generator.
pub fn exponential_step(current: u32, candidate: u32) -> (next: Option<u32>)
    ensures
        next == exponential_step_spec(current, candidate),
        next is Some ==> next->Some_0 > current,
{
    if candidate > current {
        Some(candidate)
    } else if current < u32::MAX {
        Some(current + 1)
    } else {
        None
    }
}

/// `next` can follow `current` with `remaining` boundaries still to come:
/// it is one step on a value that `interpolate` returned for `current`.
pub open spec fn exponential_follows<F: Fn(u32, u32, u32) -> u32>(
    interpolate: F,
    max: u32,
    remaining: u32,
    current: u32,
    next: u32,
) -> bool {
    exists|candidate: u32|
        #[trigger] call_ensures(interpolate, (current, max, remaining), candidate)
            && exponential_step_spec(current, candidate) == Some(next)
}

/// `ranges` is the start of an exponential layout: zero, the minimum raised
/// to at least one, and then boundaries each of which follows the one before.
pub open spec fn exponential_run<F: Fn(u32, u32, u32) -> u32>(
    interpolate: F,
    min: u32,
    max: u32,
    count: u32,
    ranges: Seq<u32>,
) -> bool {
    &&& 2 <= ranges.len() <= count
    &&& ranges[0] == 0
    &&& ranges[1] == at_least_one(min)
    &&& forall|i: int|
        2 <= i < ranges.len() ==> exponential_follows(
            interpolate,
            max,
            (count - i) as u32,
            ranges[i - 1],
            #[trigger] ranges[i],
        )
}

/// The boundaries of an exponential layout with `count` buckets.
///
/// `interpolate(current, max, remaining)` proposes the boundary after
/// `current`: the point one `remaining`-th of the way from `current` to `max`
/// on a logarithmic scale, rounded to the nearest integer. Whatever it
/// proposes, the boundaries come out strictly increasing, since a proposal
/// that does not exceed `current` is replaced by `current + 1`.
///
/// Fails when `count` is below three, and when a boundary would have to lie
/// above the largest 32-bit value.
pub fn exponential_range<F: Fn(u32, u32, u32) -> u32>(
    min: u32,
    max: u32,
    count: u32,
    interpolate: F,
) -> (res: Result<Vec<u32>, ConfigurationError>)
    requires
        forall|current: u32, limit: u32, remaining: u32|
            current >= 1 && remaining >= 1 ==> call_requires(
                interpolate,
                (current, limit, remaining),
            ),
    ensures
        count < 3 <==> res == Err::<Vec<u32>, ConfigurationError>(ConfigurationError::TooFewBuckets),
        res is Ok ==> {
            &&& res->Ok_0@.len() == count
            &&& exponential_run(interpolate, min, max, count, res->Ok_0@)
            &&& strictly_increasing_from_zero(res->Ok_0@)
        },
        res is Err && count >= 3 ==> {
            &&& res->Err_0 == ConfigurationError::BoundaryOverflow
            &&& exists|reached: Seq<u32>|
                {
                    &&& #[trigger] exponential_run(interpolate, min, max, count, reached)
                    &&& reached.len() < count
                    &&& reached.last() == u32::MAX
                }
        },
{
    if count < MIN_BUCKETS {
        return Err(ConfigurationError::TooFewBuckets);
    }
    let mut ranges: Vec<u32> = Vec::with_capacity(count as usize);
    ranges.push(0);
    let mut current: u32 = if min == 0 { 1 } else { min };
    ranges.push(current);
    let mut i: u32 = 2;
    while i < count
        invariant
            count >= 3,
            2 <= i <= count,
            ranges@.len() == i,
            current == ranges@[i - 1],
            current >= 1,
            exponential_run(interpolate, min, max, count, ranges@),
            strictly_increasing_from_zero(ranges@),
            forall|c: u32, l: u32, r: u32|
                c >= 1 && r >= 1 ==> call_requires(interpolate, (c, l, r)),
        decreases count - i,
    {
        let candidate: u32 = interpolate(current, max, count - i);
        let ghost before = ranges@;
        match exponential_step(current, candidate) {
            Some(next) => {
                ranges.push(next);
                proof {
                    assert forall|j: int| 2 <= j < ranges@.len() implies exponential_follows(
                        interpolate,
                        max,
                        (count - j) as u32,
                        ranges@[j - 1],
                        #[trigger] ranges@[j],
                    ) by {
                        if j < i {
                            assert(ranges@[j] == before[j]);
                            assert(ranges@[j - 1] == before[j - 1]);
                        } else {
                            assert(call_ensures(
                                interpolate,
                                (ranges@[j - 1], max, (count - j) as u32),
                                candidate,
                            ));
                        }
                    }
                    assert forall|j: int| 0 <= j < ranges@.len() - 1 implies #[trigger] ranges@[j]
                        < ranges@[j + 1] by {
                        if j + 1 < i {
                            assert(before[j] < before[j + 1]);
                        }
                    }
                }
                current = next;
            },
            None => {
                return Err(ConfigurationError::BoundaryOverflow);
            },
        }
        i = i + 1;
    }
    Ok(ranges)
}

} // verus!
