//! Buckets as they are handed out: a range of sample values and its counter.

use vstd::prelude::*;
use crate::model::HistogramView;
use crate::store::Histogram;

verus! {

/// The end of the last bucket, which is open above.
pub const UNBOUNDED: u32 = u32::MAX;

/// A bucket as plain values.
pub struct BucketView {
    pub start: u32,
    pub end: u32,
    pub count: u32,
}

/// Where bucket `i` ends: at the next boundary, or nowhere for the last one.
pub open spec fn bucket_end(ranges: Seq<u32>, i: int) -> u32 {
    if i + 1 == ranges.len() {
        UNBOUNDED
    } else {
        ranges[i + 1]
    }
}

impl HistogramView {
    /// Bucket `i` of the histogram.
    pub open spec fn bucket(self, i: int) -> BucketView {
        BucketView { start: self.ranges[i], end: bucket_end(self.ranges, i), count: self.buckets[i] }
    }

    /// All buckets, in ascending order.
    pub open spec fn bucket_seq(self) -> Seq<BucketView> {
        Seq::new(self.buckets.len(), |i: int| self.bucket(i))
    }
}

/// A bucket: the samples from `start` up to, but not including, `end`, and
/// how many of them were recorded.
#[derive(Clone, Copy, Debug)]
pub struct Bucket {
    start: u32,
    end: u32,
    count: u32,
}

impl View for Bucket {
    type V = BucketView;

    closed spec fn view(&self) -> BucketView {
        BucketView { start: self.start, end: self.end, count: self.count }
    }
}

impl Bucket {
    /// A bucket from its three values.
    pub fn new(start: u32, end: u32, count: u32) -> (b: Bucket)
        ensures
            b@ == (BucketView { start, end, count }),
    {
        Bucket { start, end, count }
    }

    /// The number of samples in this bucket's range.
    pub fn count(&self) -> (c: u32)
        ensures
            c == self@.count,
    {
        self.count
    }

    /// The start of this bucket's range.
    pub fn start(&self) -> (s: u32)
        ensures
            s == self@.start,
    {
        self.start
    }

    /// The end of this bucket's range.
    pub fn end(&self) -> (e: u32)
        ensures
            e == self@.end,
    {
        self.end
    }
}

/// A walk over the buckets of a histogram, in ascending order.
#[derive(Debug)]
pub struct Buckets<'h, 'a> {
    histogram: &'h Histogram<'a>,
    index: usize,
}

impl<'h, 'a> Clone for Buckets<'h, 'a> {
    /// A second walk over the same histogram, from the same position.
    fn clone(&self) -> (walk: Buckets<'h, 'a>)
        ensures
            walk.source() == self.source(),
            walk.position() == self.position(),
    {
        Buckets { histogram: self.histogram, index: self.index }
    }
}

impl<'h, 'a> Buckets<'h, 'a> {
    /// The histogram that is walked.
    pub closed spec fn source(&self) -> HistogramView {
        self.histogram@
    }

    /// The number of buckets already handed out.
    pub closed spec fn position(&self) -> nat {
        self.index as nat
    }

    /// The walk is over a well-formed histogram and has not left it.
    pub open spec fn wf(&self) -> bool {
        &&& self.source().well_formed()
        &&& self.position() <= self.source().buckets.len()
    }

    /// The buckets still to come.
    pub open spec fn remaining(&self) -> Seq<BucketView> {
        self.source().bucket_seq().skip(self.position() as int)
    }

    /// A walk that starts at the first bucket of `histogram`.
    pub fn new(histogram: &'h Histogram<'a>) -> (walk: Buckets<'h, 'a>)
        requires
            histogram.wf(),
        ensures
            walk.wf(),
            walk.source() == histogram@,
            walk.position() == 0,
    {
        Buckets { histogram, index: 0 }
    }

    /// The next bucket, or nothing once all were handed out.
    pub fn next(&mut self) -> (item: Option<Bucket>)
        requires
            old(self).wf(),
        ensures
            final(self).wf(),
            final(self).source() == old(self).source(),
            old(self).position() < old(self).source().buckets.len() ==> {
                &&& item is Some
                &&& item->Some_0@ == old(self).source().bucket(old(self).position() as int)
                &&& final(self).position() == old(self).position() + 1
            },
            old(self).position() >= old(self).source().buckets.len() ==> {
                &&& item is None
                &&& final(self).position() == old(self).position()
            },
    {
        if self.index >= self.histogram.bucket_count() {
            return None;
        }
        let bucket = self.histogram.bucket_at(self.index);
        self.index = self.index + 1;
        Some(bucket)
    }
}

} // verus!
