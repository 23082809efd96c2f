//! The histogram as plain mathematical values, and what holds of it.

use vstd::prelude::*;
use crate::layout::Type;
use crate::lookup::bucket_of;
use crate::lookup::lemma_bucket_holds;

verus! {

/// What a histogram holds, as plain mathematical values.
pub struct HistogramView {
    pub min: u32,
    pub max: u32,
    pub ranges: Seq<u32>,
    pub buckets: Seq<u32>,
    pub count: u32,
    pub sum: u32,
    pub typ: Type,
}

impl HistogramView {
    /// One counter per boundary, and at least one bucket.
    pub open spec fn well_formed(self) -> bool {
        &&& self.ranges.len() == self.buckets.len()
        &&& self.buckets.len() >= 1
    }

    /// A histogram over `ranges` that has recorded nothing yet.
    pub open spec fn fresh(min: u32, max: u32, ranges: Seq<u32>, typ: Type) -> HistogramView {
        HistogramView {
            min,
            max,
            ranges,
            buckets: Seq::new(ranges.len(), |i: int| 0u32),
            count: 0,
            sum: 0,
            typ,
        }
    }

    /// The bucket that a sample of `value` goes to.
    pub open spec fn target(self, value: u32) -> int {
        bucket_of(self.ranges, value)
    }

    /// The sum, the count and the target counter all have room for `count`
    /// samples of `value`.
    pub open spec fn can_accumulate(self, value: u32, count: u32) -> bool {
        &&& self.sum + value * count <= u32::MAX
        &&& self.count + count <= u32::MAX
        &&& self.buckets[self.target(value)] < u32::MAX
    }

    /// The state after `count` samples of `value`: sum and count grow by the
    /// weighted amounts, the target counter by exactly one.
    pub open spec fn accumulated(self, value: u32, count: u32) -> HistogramView {
        HistogramView {
            sum: (self.sum + value * count) as u32,
            count: (self.count + count) as u32,
            buckets: self.buckets.update(
                self.target(value),
                (self.buckets[self.target(value)] + 1) as u32,
            ),
            ..self
        }
    }

    /// The state after a reset: the configuration stays, everything recorded
    /// is gone.
    pub open spec fn cleared(self) -> HistogramView {
        HistogramView {
            count: 0,
            sum: 0,
            buckets: Seq::new(self.buckets.len(), |i: int| 0u32),
            ..self
        }
    }

    /// The state after one sample of each of `values`, in their order.
    pub open spec fn recorded(self, values: Seq<u32>) -> HistogramView
        decreases values.len(),
    {
        if values.len() == 0 {
            self
        } else {
            self.recorded(values.drop_last()).accumulated(values.last(), 1)
        }
    }

    /// Each of `values` can be recorded in its turn.
    pub open spec fn can_record(self, values: Seq<u32>) -> bool
        decreases values.len(),
    {
        values.len() == 0 || (self.can_record(values.drop_last()) && self.recorded(
            values.drop_last(),
        ).can_accumulate(values.last(), 1))
    }
}

/// The sum of a sequence of counters or samples.
pub open spec fn total(items: Seq<u32>) -> int
    decreases items.len(),
{
    if items.len() == 0 {
        0
    } else {
        total(items.drop_last()) + items.last()
    }
}

/// Counters that are all zero sum to zero.
pub proof fn lemma_total_zero(items: Seq<u32>)
    requires
        forall|i: int| 0 <= i < items.len() ==> items[i] == 0,
    ensures
        total(items) == 0,
    decreases items.len(),
{
    if items.len() > 0 {
        lemma_total_zero(items.drop_last());
    }
}

/// Raising one counter by one raises the sum by one.
pub proof fn lemma_total_bump(items: Seq<u32>, i: int)
    requires
        0 <= i < items.len(),
        items[i] < u32::MAX,
    ensures
        total(items.update(i, (items[i] + 1) as u32)) == total(items) + 1,
    decreases items.len(),
{
    let bumped = items.update(i, (items[i] + 1) as u32);
    if i == items.len() - 1 {
        assert(bumped.drop_last() =~= items.drop_last());
    } else {
        lemma_total_bump(items.drop_last(), i);
        assert(bumped.drop_last() =~= items.drop_last().update(i, (items[i] + 1) as u32));
    }
}

/// A recorded sample keeps the histogram well-formed and its configuration
/// as it was.
pub proof fn lemma_accumulated_well_formed(h: HistogramView, value: u32, count: u32)
    requires
        h.well_formed(),
    ensures
        h.accumulated(value, count).well_formed(),
        h.accumulated(value, count).ranges == h.ranges,
        h.accumulated(value, count).min == h.min,
        h.accumulated(value, count).max == h.max,
        h.accumulated(value, count).typ == h.typ,
        0 <= h.target(value) < h.buckets.len(),
{
    lemma_bucket_holds(h.ranges, value);
}

/// Whatever a histogram held before, after one sample of each of `values`
/// its count has grown by their number, its sum by their sum, and the sum of
/// its counters by their number too.
pub proof fn lemma_recorded_totals(h: HistogramView, values: Seq<u32>)
    requires
        h.well_formed(),
        h.can_record(values),
    ensures
        h.recorded(values).well_formed(),
        h.recorded(values).ranges == h.ranges,
        h.recorded(values).count == h.count + values.len(),
        h.recorded(values).sum == h.sum + total(values),
        total(h.recorded(values).buckets) == total(h.buckets) + values.len(),
    decreases values.len(),
{
    if values.len() > 0 {
        let before = h.recorded(values.drop_last());
        lemma_recorded_totals(h, values.drop_last());
        lemma_accumulated_well_formed(before, values.last(), 1);
        lemma_total_bump(before.buckets, before.target(values.last()));
        assert(values.last() * 1 == values.last()) by (nonlinear_arith);
    }
}

/// For any sequence of single samples recorded by a histogram that held
/// nothing, the count is the number of samples, the sum is the sum of their
/// values, and the counters sum to the count.
pub proof fn lemma_adds_from_empty(h: HistogramView, values: Seq<u32>)
    requires
        h.well_formed(),
        h == h.cleared(),
        h.can_record(values),
    ensures
        h.recorded(values).count == values.len(),
        h.recorded(values).sum == total(values),
        total(h.recorded(values).buckets) == h.recorded(values).count,
{
    lemma_recorded_totals(h, values);
    lemma_total_zero(h.buckets);
}

/// A cleared histogram holds nothing and is the same as one freshly made
/// for the same configuration, so a sample recorded next has the same effect
/// on both.
pub proof fn lemma_cleared_is_fresh(h: HistogramView, value: u32)
    requires
        h.well_formed(),
    ensures
        h.cleared().well_formed(),
        h.cleared().count == 0,
        h.cleared().sum == 0,
        h.cleared() == HistogramView::fresh(h.min, h.max, h.ranges, h.typ),
        h.cleared().can_accumulate(value, 1) == HistogramView::fresh(
            h.min,
            h.max,
            h.ranges,
            h.typ,
        ).can_accumulate(value, 1),
        h.cleared().accumulated(value, 1) == HistogramView::fresh(
            h.min,
            h.max,
            h.ranges,
            h.typ,
        ).accumulated(value, 1),
        h.cleared().cleared() == h.cleared(),
{
    assert(h.cleared().buckets =~= HistogramView::fresh(h.min, h.max, h.ranges, h.typ).buckets);
    assert(h.cleared().cleared().buckets =~= h.cleared().buckets);
}

/// A cleared or freshly made histogram has room for any single sample.
pub proof fn lemma_empty_takes_any(h: HistogramView, value: u32)
    requires
        h.well_formed(),
        h == h.cleared(),
    ensures
        h.can_accumulate(value, 1),
{
    lemma_bucket_holds(h.ranges, value);
    assert(value * 1 == value) by (nonlinear_arith);
}

} // verus!
