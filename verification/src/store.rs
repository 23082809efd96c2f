//! The bucket store: boundaries, counters, and the running sum and count.

use vstd::prelude::*;
use vstd::pervasive::unreached;
use vstd::slice::slice_subrange;
use crate::bucket::Bucket;
use crate::bucket::Buckets;
use crate::bucket::UNBOUNDED;
use crate::layout::ConfigurationError;
use crate::layout::Type;
use crate::lookup::find_bucket;
use crate::lookup::holds;
use crate::model::HistogramView;
use crate::range::at_least_one;
use crate::range::consecutive_boundaries;
use crate::range::exponential_range;
use crate::range::exponential_run;
use crate::range::lemma_boolean_boundaries;
use crate::range::lemma_enumerated_boundaries;
use crate::range::lemma_linear_strictly_increasing;
use crate::range::linear_boundaries;
use crate::range::linear_range;
use crate::range::strictly_increasing_from_zero;

verus! {

/// The value that closes a lent boundary buffer: the largest signed 32-bit
/// integer.
pub const SENTINEL: u32 = 0x7FFF_FFFF;

/// `buffer` holds the boundaries of `bucket_count` buckets and the sentinel
/// behind them.
pub open spec fn guarded(buffer: Seq<u32>, bucket_count: int) -> bool {
    &&& buffer.len() == bucket_count + 1
    &&& buffer[bucket_count] == SENTINEL
}

/// The boundary sequence of a histogram, either held by the histogram itself
/// or lent to it by a caller who keeps it alive.
#[derive(Debug)]
pub enum Boundaries<'a> {
    Owned(Vec<u32>),
    Borrowed(&'a [u32]),
}

impl<'a> View for Boundaries<'a> {
    type V = Seq<u32>;

    open spec fn view(&self) -> Seq<u32> {
        match self {
            Boundaries::Owned(v) => v@,
            Boundaries::Borrowed(s) => s@,
        }
    }
}

impl<'a> Boundaries<'a> {
    /// The boundaries as a slice.
    pub fn as_slice(&self) -> (s: &[u32])
        ensures
            s@ == self@,
    {
        match self {
            Boundaries::Owned(v) => v.as_slice(),
            Boundaries::Borrowed(s) => s,
        }
    }

    /// The number of boundaries.
    pub fn len(&self) -> (n: usize)
        ensures
            n == self@.len(),
    {
        self.as_slice().len()
    }
}

/// A histogram: the boundaries of its buckets, one counter per bucket, and
/// the sum and count of what was recorded.
#[derive(Debug)]
pub struct Histogram<'a> {
    min: u32,
    max: u32,
    ranges: Boundaries<'a>,
    buckets: Vec<u32>,
    count: u32,
    sum: u32,
    typ: Type,
}

impl<'a> View for Histogram<'a> {
    type V = HistogramView;

    closed spec fn view(&self) -> HistogramView {
        HistogramView {
            min: self.min,
            max: self.max,
            ranges: self.ranges@,
            buckets: self.buckets@,
            count: self.count,
            sum: self.sum,
            typ: self.typ,
        }
    }
}

impl<'a> Histogram<'a> {
    /// The histogram's invariant: one counter per boundary, at least one
    /// bucket.
    pub open spec fn wf(&self) -> bool {
        self@.well_formed()
    }

    /// A histogram for samples from `min` to `max` over boundaries that the
    /// caller supplies; `ranges.len()` is the number of buckets.
    ///
    /// Fails when `ranges` is empty.
    pub fn factory_get(min: u32, max: u32, ranges: Boundaries<'a>) -> (res: Result<
        Histogram<'a>,
        ConfigurationError,
    >)
        ensures
            ranges@.len() == 0 <==> res is Err,
            res is Err ==> res->Err_0 == ConfigurationError::TooFewBuckets,
            res is Ok ==> res->Ok_0.wf() && res->Ok_0@ == HistogramView::fresh(
                min,
                max,
                ranges@,
                Type::External,
            ),
    {
        let len: usize = ranges.len();
        if len == 0 {
            return Err(ConfigurationError::TooFewBuckets);
        }
        let h = Histogram { min, max, ranges, buckets: vec![0u32; len], count: 0, sum: 0, typ: Type::External };
        assert(h@.buckets =~= HistogramView::fresh(min, max, h@.ranges, Type::External).buckets);
        Ok(h)
    }

    /// A histogram over the first `bucket_count` entries of a buffer that the
    /// caller lends, which must hold one entry more: the sentinel.
    ///
    /// Fails when `buffer` is not `bucket_count + 1` entries long or its last
    /// entry is not the sentinel, and, for a buffer that is in order, when
    /// `bucket_count` is zero.
    pub fn from_guarded(min: u32, max: u32, bucket_count: usize, buffer: &'a [u32]) -> (res: Result<
        Histogram<'a>,
        ConfigurationError,
    >)
        ensures
            !guarded(buffer@, bucket_count as int) <==> res == Err::<
                Histogram<'a>,
                ConfigurationError,
            >(ConfigurationError::MissingSentinel),
            guarded(buffer@, bucket_count as int) && bucket_count == 0 <==> res == Err::<
                Histogram<'a>,
                ConfigurationError,
            >(ConfigurationError::TooFewBuckets),
            guarded(buffer@, bucket_count as int) && bucket_count >= 1 <==> res is Ok,
            res is Ok ==> res->Ok_0.wf() && res->Ok_0@ == HistogramView::fresh(
                min,
                max,
                buffer@.take(bucket_count as int),
                Type::External,
            ),
    {
        let len: usize = buffer.len();
        if len == 0 || len - 1 != bucket_count || buffer[bucket_count] != SENTINEL {
            return Err(ConfigurationError::MissingSentinel);
        }
        let ranges: &'a [u32] = slice_subrange(buffer, 0, bucket_count);
        assert(ranges@ =~= buffer@.take(bucket_count as int));
        Histogram::factory_get(min, max, Boundaries::Borrowed(ranges))
    }

    /// The number of buckets.
    pub fn bucket_count(&self) -> (n: usize)
        requires
            self.wf(),
        ensures
            n == self@.buckets.len(),
            n == self@.ranges.len(),
            n >= 1,
    {
        self.buckets.len()
    }

    /// The bucket boundaries, in bucket order.
    pub fn ranges(&self) -> (r: &[u32])
        ensures
            r@ == self@.ranges,
    {
        self.ranges.as_slice()
    }

    /// The index of the bucket that a sample of `value` goes to.
    pub fn bucket(&self, value: u32) -> (idx: usize)
        requires
            self.wf(),
        ensures
            idx == self@.target(value),
            holds(self@.ranges, idx as int, value),
    {
        find_bucket(self.ranges.as_slice(), value)
    }

    /// Bucket `index`: its start, its end (the next boundary, or the largest
    /// value for the last bucket) and its counter.
    pub fn bucket_at(&self, index: usize) -> (b: Bucket)
        requires
            self.wf(),
            index < self@.buckets.len(),
        ensures
            b@ == self@.bucket(index as int),
    {
        let ranges = self.ranges.as_slice();
        let start: u32 = ranges[index];
        let end: u32 = if index + 1 == ranges.len() {
            UNBOUNDED
        } else {
            ranges[index + 1]
        };
        Bucket::new(start, end, self.buckets[index])
    }

    /// A walk over the buckets, from the first one.
    pub fn buckets<'h>(&'h self) -> (walk: Buckets<'h, 'a>)
        requires
            self.wf(),
        ensures
            walk.wf(),
            walk.source() == self@,
            walk.position() == 0,
            walk.remaining() == self@.bucket_seq(),
    {
        Buckets::new(self)
    }

    /// The counters, one per bucket, in bucket order.
    pub fn counts(&self) -> (c: &[u32])
        ensures
            c@ == self@.buckets,
    {
        self.buckets.as_slice()
    }

    /// The nominal minimum of the samples.
    pub fn min(&self) -> (m: u32)
        ensures
            m == self@.min,
    {
        self.min
    }

    /// The nominal maximum of the samples.
    pub fn max(&self) -> (m: u32)
        ensures
            m == self@.max,
    {
        self.max
    }

    /// The layout of this histogram.
    pub fn layout(&self) -> (t: Type)
        ensures
            t == self@.typ,
    {
        self.typ
    }

    /// The total of the values recorded.
    pub fn sum(&self) -> (s: u32)
        ensures
            s == self@.sum,
    {
        self.sum
    }

    /// The number of samples recorded.
    pub fn count(&self) -> (c: u32)
        ensures
            c == self@.count,
    {
        self.count
    }

    /// Whether nothing has been recorded.
    pub fn is_empty(&self) -> (b: bool)
        ensures
            b == (self@.count == 0),
    {
        self.count == 0
    }

    /// Whether `count` samples of `value` can be recorded without any of the
    /// sum, the count and the target counter passing the largest 32-bit
    /// value.
    pub fn can_accumulate(&self, value: u32, count: u32) -> (b: bool)
        requires
            self.wf(),
        ensures
            b == self@.can_accumulate(value, count),
    {
        let idx: usize = self.bucket(value);
        assert(0 <= value * count <= 0xFFFF_FFFF * 0xFFFF_FFFF) by (nonlinear_arith)
            requires
                0 <= value <= 0xFFFF_FFFF,
                0 <= count <= 0xFFFF_FFFF,
        ;
        let weighted: u64 = (value as u64) * (count as u64);
        weighted <= (u32::MAX - self.sum) as u64 && count <= u32::MAX - self.count
            && self.buckets[idx] < u32::MAX
    }

    /// Records `count` samples of `value`: the sum grows by `value * count`,
    /// the count by `count`, and the counter of the bucket for `value` by
    /// one, whatever `count` is.
    pub fn accumulate(&mut self, value: u32, count: u32)
        requires
            old(self).wf(),
            old(self)@.can_accumulate(value, count),
        ensures
            final(self).wf(),
            final(self)@ == old(self)@.accumulated(value, count),
            final(self)@.sum == old(self)@.sum + value * count,
            final(self)@.count == old(self)@.count + count,
            final(self)@.sum >= old(self)@.sum,
            final(self)@.count >= old(self)@.count,
    {
        let idx: usize = self.bucket(value);
        let ghost before: int = self.sum as int;
        assert(0 <= value * count <= u32::MAX) by (nonlinear_arith)
            requires
                0 <= value,
                0 <= count,
                before + value * count <= u32::MAX,
                before >= 0,
        ;
        self.sum = self.sum + value * count;
        self.count = self.count + count;
        let bumped: u32 = self.buckets[idx] + 1;
        self.buckets.set(idx, bumped);
    }

    /// Records one sample of `value`.
    pub fn add(&mut self, value: u32)
        requires
            old(self).wf(),
            old(self)@.can_accumulate(value, 1),
        ensures
            final(self).wf(),
            final(self)@ == old(self)@.accumulated(value, 1),
            final(self)@.sum == old(self)@.sum + value,
            final(self)@.count == old(self)@.count + 1,
    {
        assert(value * 1 == value) by (nonlinear_arith);
        self.accumulate(value, 1);
    }

    /// Forgets everything recorded; boundaries, range and layout stay.
    pub fn clear(&mut self)
        requires
            old(self).wf(),
        ensures
            final(self).wf(),
            final(self)@ == old(self)@.cleared(),
    {
        self.count = 0;
        self.sum = 0;
        let n: usize = self.buckets.len();
        let mut i: usize = 0;
        while i < n
            invariant
                i <= n,
                n == self.buckets@.len(),
                self.min == old(self).min,
                self.max == old(self).max,
                self.typ == old(self).typ,
                self.ranges == old(self).ranges,
                self.count == 0,
                self.sum == 0,
                forall|j: int| 0 <= j < i ==> self.buckets@[j] == 0,
            decreases n - i,
        {
            self.buckets.set(i, 0);
            i = i + 1;
        }
        assert(self@.buckets =~= old(self)@.cleared().buckets);
    }

    /// A fresh histogram of layout `typ` over boundaries that it owns.
    fn over(min: u32, max: u32, ranges: Vec<u32>, typ: Type) -> (h: Histogram<'a>)
        requires
            ranges@.len() >= 1,
        ensures
            h.wf(),
            h@ == HistogramView::fresh(min, max, ranges@, typ),
    {
        let len: usize = ranges.len();
        let h = Histogram {
            min,
            max,
            ranges: Boundaries::Owned(ranges),
            buckets: vec![0u32; len],
            count: 0,
            sum: 0,
            typ,
        };
        assert(h@.buckets =~= HistogramView::fresh(min, max, h@.ranges, typ).buckets);
        h
    }

    /// A histogram with `count` linear buckets between `min` and `max`; a
    /// `min` of zero is taken as one.
    ///
    /// Fails when `count` is below three.
    pub fn linear(min: u32, max: u32, count: u32) -> (res: Result<
        Histogram<'a>,
        ConfigurationError,
    >)
        ensures
            count < 3 <==> res is Err,
            res is Err ==> res->Err_0 == ConfigurationError::TooFewBuckets,
            res is Ok ==> res->Ok_0.wf() && res->Ok_0@ == HistogramView::fresh(
                at_least_one(min),
                max,
                linear_boundaries(at_least_one(min), max, count),
                Type::Linear,
            ),
            res is Ok ==> (strictly_increasing_from_zero(res->Ok_0@.ranges) <==> max
                - at_least_one(min) >= count - 2),
    {
        let min: u32 = if min == 0 { 1 } else { min };
        proof {
            if count >= 3 {
                lemma_linear_strictly_increasing(min, max, count);
            }
        }
        match linear_range(min, max, count) {
            Ok(ranges) => Ok(Histogram::over(min, max, ranges, Type::Linear)),
            Err(e) => Err(e),
        }
    }

    /// A histogram with `count` exponential buckets between `min` and `max`;
    /// a `min` of zero is taken as one.
    ///
    /// `interpolate(current, max, remaining)` proposes the boundary after
    /// `current`, as [`exponential_range`] describes.
    ///
    /// Fails when `count` is below three, and when a boundary would have to
    /// lie above the largest 32-bit value.
    pub fn exponential<F: Fn(u32, u32, u32) -> u32>(
        min: u32,
        max: u32,
        count: u32,
        interpolate: F,
    ) -> (res: Result<Histogram<'a>, ConfigurationError>)
        requires
            forall|current: u32, limit: u32, remaining: u32|
                current >= 1 && remaining >= 1 ==> call_requires(
                    interpolate,
                    (current, limit, remaining),
                ),
        ensures
            count < 3 <==> res == Err::<Histogram<'a>, ConfigurationError>(
                ConfigurationError::TooFewBuckets,
            ),
            res is Ok ==> {
                &&& res->Ok_0.wf()
                &&& res->Ok_0@ == HistogramView::fresh(
                    at_least_one(min),
                    max,
                    res->Ok_0@.ranges,
                    Type::Exponential,
                )
                &&& res->Ok_0@.ranges.len() == count
                &&& exponential_run(interpolate, min, max, count, res->Ok_0@.ranges)
                &&& strictly_increasing_from_zero(res->Ok_0@.ranges)
            },
            res is Err && count >= 3 ==> {
                &&& res->Err_0 == ConfigurationError::BoundaryOverflow
                &&& exists|reached: Seq<u32>|
                    {
                        &&& #[trigger] exponential_run(interpolate, min, max, count, reached)
                        &&& reached.len() < count
                        &&& reached.last() == u32::MAX
                    }
            },
    {
        let floor: u32 = if min == 0 { 1 } else { min };
        match exponential_range(floor, max, count, interpolate) {
            Ok(ranges) => Ok(Histogram::over(floor, max, ranges, Type::Exponential)),
            Err(e) => {
                proof {
                    if count >= 3 {
                        let reached = choose|reached: Seq<u32>|
                            {
                                &&& #[trigger] exponential_run(
                                    interpolate,
                                    floor,
                                    max,
                                    count,
                                    reached,
                                )
                                &&& reached.len() < count
                                &&& reached.last() == u32::MAX
                            };
                        assert(exponential_run(interpolate, min, max, count, reached));
                    }
                }
                Err(e)
            },
        }
    }

    /// A histogram for boolean samples: one bucket for 0, one for 1, and one
    /// for everything above. It is the linear layout from 1 to 2 with three
    /// buckets under a tag of its own.
    pub fn boolean() -> (h: Histogram<'a>)
        ensures
            h.wf(),
            h@ == HistogramView::fresh(1, 2, linear_boundaries(1, 2, 3), Type::Boolean),
            h@.ranges == seq![0u32, 1u32, 2u32],
            strictly_increasing_from_zero(h@.ranges),
    {
        proof {
            lemma_boolean_boundaries();
            lemma_linear_strictly_increasing(1, 2, 3);
        }
        match linear_range(1, 2, 3) {
            Ok(ranges) => Histogram::over(1, 2, ranges, Type::Boolean),
            Err(_) => unreached(),
        }
    }

    /// A flag histogram: a boolean histogram under the layout tag that older
    /// consumers know it by.
    pub fn flag() -> (h: Histogram<'a>)
        ensures
            h.wf(),
            h@ == HistogramView::fresh(1, 2, linear_boundaries(1, 2, 3), Type::Flag),
            h@.ranges == seq![0u32, 1u32, 2u32],
            strictly_increasing_from_zero(h@.ranges),
    {
        let mut hist = Histogram::boolean();
        hist.typ = Type::Flag;
        assert(hist@.buckets =~= HistogramView::fresh(1, 2, hist@.ranges, Type::Flag).buckets);
        hist
    }

    /// A histogram over the values `0` to `count - 1`, one bucket each, and a
    /// last bucket for everything from `count` on. It is the linear layout
    /// from 1 to `count` with `count + 1` buckets under a tag of its own.
    ///
    /// Fails when `count` is below two, for which the linear layout has too
    /// few buckets, and when `count + 1` is no 32-bit value.
    pub fn enumerated(count: u32) -> (res: Result<Histogram<'a>, ConfigurationError>)
        ensures
            count < 2 <==> res == Err::<Histogram<'a>, ConfigurationError>(
                ConfigurationError::TooFewBuckets,
            ),
            count == u32::MAX <==> res == Err::<Histogram<'a>, ConfigurationError>(
                ConfigurationError::TooManyBuckets,
            ),
            2 <= count < u32::MAX <==> res is Ok,
            res is Ok ==> {
                &&& res->Ok_0.wf()
                &&& res->Ok_0@ == HistogramView::fresh(
                    1,
                    count,
                    linear_boundaries(1, count, (count + 1) as u32),
                    Type::Enumerated,
                )
                &&& res->Ok_0@.ranges == consecutive_boundaries(count)
                &&& res->Ok_0@.ranges.len() == count + 1
                &&& strictly_increasing_from_zero(res->Ok_0@.ranges)
            },
    {
        if count == u32::MAX {
            return Err(ConfigurationError::TooManyBuckets);
        }
        proof {
            if count >= 2 {
                lemma_enumerated_boundaries(count);
                lemma_linear_strictly_increasing(1, count, (count + 1) as u32);
            }
        }
        match linear_range(1, count, count + 1) {
            Ok(ranges) => Ok(Histogram::over(1, count, ranges, Type::Enumerated)),
            Err(e) => Err(e),
        }
    }
}

} // verus!
