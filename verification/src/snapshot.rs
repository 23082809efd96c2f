//! The two read-only views of a histogram: the dense one and the
//! self-describing one with its run-compacted counters.

use vstd::prelude::*;
use vstd::slice::slice_to_vec;
use crate::bucket::bucket_end;
use crate::bucket::BucketView;
use crate::layout::type_code;
use crate::model::HistogramView;
use crate::range::lemma_strict_increase_order;
use crate::range::strictly_increasing_from_zero;
use crate::store::Histogram;
use crate::text::decimal;
use crate::text::decimal_string;
use crate::text::lemma_decimal_injective;

verus! {

/// The entries for the first `n` buckets: one per bucket with a counter
/// above zero, keyed by the bucket's start, and a zero entry keyed at 0 in
/// front of them where the first such bucket is not bucket 0.
pub open spec fn packed_upto(ranges: Seq<u32>, counts: Seq<u32>, n: int) -> Seq<(u32, u32)>
    decreases n,
{
    if n <= 0 {
        Seq::empty()
    } else {
        let before = packed_upto(ranges, counts, n - 1);
        if counts[n - 1] == 0 {
            before
        } else if n - 1 > 0 && before.len() == 0 {
            seq![(0u32, 0u32), (ranges[n - 1], counts[n - 1])]
        } else {
            before.push((ranges[n - 1], counts[n - 1]))
        }
    }
}

/// The last of the first `n` buckets whose counter is above zero, or -1.
pub open spec fn last_populated(counts: Seq<u32>, n: int) -> int
    decreases n,
{
    if n <= 0 {
        -1
    } else if counts[n - 1] != 0 {
        n - 1
    } else {
        last_populated(counts, n - 1)
    }
}

/// The run-compacted counters: the entries of all buckets, and behind them a
/// zero entry keyed at the end of the last bucket with a counter above zero,
/// unless that bucket is the last of all.
pub open spec fn packed(ranges: Seq<u32>, counts: Seq<u32>) -> Seq<(u32, u32)> {
    let entries = packed_upto(ranges, counts, counts.len() as int);
    let last = last_populated(counts, counts.len() as int);
    if 0 <= last && last + 1 < counts.len() {
        entries.push((bucket_end(ranges, last), 0u32))
    } else {
        entries
    }
}

/// The counter that `entries` hold for `key`: that of the last entry keyed
/// so, and zero where there is none.
pub open spec fn sparse_value(entries: Seq<(u32, u32)>, key: u32) -> u32
    decreases entries.len(),
{
    if entries.len() == 0 {
        0
    } else if entries.last().0 == key {
        entries.last().1
    } else {
        sparse_value(entries.drop_last(), key)
    }
}

/// The dense counters that `entries` stand for over `ranges`: for each
/// bucket the counter keyed by its start, zero where no entry has that key.
pub open spec fn expanded(ranges: Seq<u32>, entries: Seq<(u32, u32)>) -> Seq<u32> {
    Seq::new(ranges.len(), |i: int| sparse_value(entries, ranges[i]))
}

/// The buckets that dense `counts` stand for over `ranges`: bucket `i` starts
/// at `ranges[i]` and holds `counts[i]`.
pub open spec fn unpacked(ranges: Seq<u32>, counts: Seq<u32>) -> Seq<BucketView> {
    Seq::new(
        counts.len(),
        |i: int| BucketView { start: ranges[i], end: bucket_end(ranges, i), count: counts[i] },
    )
}

/// The keys of `entries` increase strictly.
pub open spec fn keys_increasing(entries: Seq<(u32, u32)>) -> bool {
    forall|k: int| 0 <= k < entries.len() - 1 ==> (#[trigger] entries[k]).0 < entries[k + 1].0
}

/// What `last_populated` finds: a bucket with a counter above zero, behind
/// which all counters are zero; or -1 where all counters are zero.
pub proof fn lemma_last_populated(counts: Seq<u32>, n: int)
    requires
        0 <= n <= counts.len(),
    ensures
        -1 <= last_populated(counts, n) < n,
        last_populated(counts, n) >= 0 ==> counts[last_populated(counts, n)] != 0,
        forall|j: int| last_populated(counts, n) < j < n ==> counts[j] == 0,
    decreases n,
{
    if n > 0 && counts[n - 1] == 0 {
        lemma_last_populated(counts, n - 1);
    }
}

/// There are entries exactly where some counter is above zero; the last one
/// is then keyed by the start of the last such bucket.
pub proof fn lemma_packed_upto_last(ranges: Seq<u32>, counts: Seq<u32>, n: int)
    requires
        0 <= n <= counts.len(),
    ensures
        packed_upto(ranges, counts, n).len() == 0 <==> last_populated(counts, n) == -1,
        packed_upto(ranges, counts, n).len() > 0 ==> packed_upto(ranges, counts, n).last().0
            == ranges[last_populated(counts, n)],
    decreases n,
{
    if n > 0 {
        lemma_packed_upto_last(ranges, counts, n - 1);
        lemma_last_populated(counts, n - 1);
    }
}

/// Over boundaries that increase strictly from zero, the entries for the
/// first `n` buckets hold each of those buckets' counters under its start,
/// and zero under the start of every later bucket.
pub proof fn lemma_packed_upto_values(ranges: Seq<u32>, counts: Seq<u32>, n: int, i: int)
    requires
        strictly_increasing_from_zero(ranges),
        counts.len() == ranges.len(),
        0 <= n <= counts.len(),
        0 <= i < counts.len(),
    ensures
        sparse_value(packed_upto(ranges, counts, n), ranges[i]) == (if i < n {
            counts[i]
        } else {
            0
        }),
    decreases n,
{
    if n > 0 {
        let before = packed_upto(ranges, counts, n - 1);
        let entry = (ranges[n - 1], counts[n - 1]);
        lemma_packed_upto_values(ranges, counts, n - 1, i);
        if i < n - 1 {
            lemma_strict_increase_order(ranges, i, n - 1);
        } else if i > n - 1 {
            lemma_strict_increase_order(ranges, n - 1, i);
        }
        if counts[n - 1] == 0 {
        } else if n - 1 > 0 && before.len() == 0 {
            let both = seq![(0u32, 0u32), entry];
            assert(both.last() == entry);
            assert(both.drop_last() =~= seq![(0u32, 0u32)]);
            assert(seq![(0u32, 0u32)].last() == (0u32, 0u32));
            assert(seq![(0u32, 0u32)].drop_last() =~= Seq::<(u32, u32)>::empty());
            if i != n - 1 {
                assert(sparse_value(both, ranges[i]) == sparse_value(
                    seq![(0u32, 0u32)],
                    ranges[i],
                ));
                if i > 0 {
                    lemma_strict_increase_order(ranges, 0, i);
                    assert(sparse_value(seq![(0u32, 0u32)], ranges[i]) == sparse_value(
                        Seq::<(u32, u32)>::empty(),
                        ranges[i],
                    ));
                }
            }
        } else {
            assert(before.push(entry).last() == entry);
            assert(before.push(entry).drop_last() =~= before);
        }
    }
}

/// Over boundaries that increase strictly from zero, the keys of the entries
/// for the first `n` buckets increase strictly.
pub proof fn lemma_packed_upto_keys(ranges: Seq<u32>, counts: Seq<u32>, n: int)
    requires
        strictly_increasing_from_zero(ranges),
        counts.len() == ranges.len(),
        0 <= n <= counts.len(),
    ensures
        keys_increasing(packed_upto(ranges, counts, n)),
    decreases n,
{
    if n > 0 {
        let before = packed_upto(ranges, counts, n - 1);
        lemma_packed_upto_keys(ranges, counts, n - 1);
        lemma_packed_upto_last(ranges, counts, n - 1);
        lemma_last_populated(counts, n - 1);
        if counts[n - 1] != 0 {
            if n - 1 > 0 && before.len() == 0 {
                lemma_strict_increase_order(ranges, 0, n - 1);
            } else if before.len() > 0 {
                lemma_strict_increase_order(
                    ranges,
                    last_populated(counts, n - 1),
                    n - 1,
                );
            }
        }
    }
}

/// The sparse entries, expanded against the boundaries, give back the dense
/// counters: whatever the counters are, so long as the boundaries increase
/// strictly from zero.
pub proof fn lemma_packed_expands(ranges: Seq<u32>, counts: Seq<u32>)
    requires
        strictly_increasing_from_zero(ranges),
        counts.len() == ranges.len(),
    ensures
        expanded(ranges, packed(ranges, counts)) == counts,
{
    let n = counts.len() as int;
    let entries = packed_upto(ranges, counts, n);
    let last = last_populated(counts, n);
    lemma_last_populated(counts, n);
    assert forall|i: int| 0 <= i < n implies sparse_value(packed(ranges, counts), ranges[i])
        == counts[i] by {
        lemma_packed_upto_values(ranges, counts, n, i);
        if 0 <= last && last + 1 < n {
            let marker = (bucket_end(ranges, last), 0u32);
            assert(entries.push(marker).last() == marker);
            assert(entries.push(marker).drop_last() =~= entries);
            if i < last + 1 {
                lemma_strict_increase_order(ranges, i, last + 1);
            } else if i > last + 1 {
                lemma_strict_increase_order(ranges, last + 1, i);
            }
        }
    }
    assert(expanded(ranges, packed(ranges, counts)) =~= counts);
}

/// Over boundaries that increase strictly from zero, no two sparse entries
/// share a key: the keys increase strictly, so a map built from the entries
/// holds every one of them.
pub proof fn lemma_packed_keys(ranges: Seq<u32>, counts: Seq<u32>)
    requires
        strictly_increasing_from_zero(ranges),
        counts.len() == ranges.len(),
    ensures
        keys_increasing(packed(ranges, counts)),
{
    let n = counts.len() as int;
    let last = last_populated(counts, n);
    lemma_packed_upto_keys(ranges, counts, n);
    lemma_packed_upto_last(ranges, counts, n);
    lemma_last_populated(counts, n);
    if 0 <= last && last + 1 < n {
        lemma_strict_increase_order(ranges, last, last + 1);
    }
}

/// A histogram that recorded nothing has no sparse entries at all.
pub proof fn lemma_packed_all_zero(ranges: Seq<u32>, counts: Seq<u32>)
    requires
        forall|i: int| 0 <= i < counts.len() ==> counts[i] == 0,
    ensures
        packed(ranges, counts) == Seq::<(u32, u32)>::empty(),
{
    lemma_packed_upto_zero(ranges, counts, counts.len() as int);
}

/// Buckets whose counters are all zero give no entries.
pub proof fn lemma_packed_upto_zero(ranges: Seq<u32>, counts: Seq<u32>, n: int)
    requires
        0 <= n <= counts.len(),
        forall|i: int| 0 <= i < n ==> counts[i] == 0,
    ensures
        packed_upto(ranges, counts, n) == Seq::<(u32, u32)>::empty(),
        last_populated(counts, n) == -1,
    decreases n,
{
    if n > 0 {
        lemma_packed_upto_zero(ranges, counts, n - 1);
    }
}

/// Buckets whose counters are all above zero give one entry each and no
/// marker.
pub proof fn lemma_packed_upto_dense(ranges: Seq<u32>, counts: Seq<u32>, n: int)
    requires
        0 <= n <= counts.len(),
        forall|i: int| 0 <= i < n ==> counts[i] != 0,
    ensures
        packed_upto(ranges, counts, n) == Seq::new(n as nat, |i: int| (ranges[i], counts[i])),
    decreases n,
{
    if n > 0 {
        lemma_packed_upto_dense(ranges, counts, n - 1);
    }
    assert(packed_upto(ranges, counts, n) =~= Seq::new(
        n as nat,
        |i: int| (ranges[i], counts[i]),
    ));
}

/// A histogram in which every bucket recorded something has one sparse entry
/// per bucket, keyed by its start, and no marker.
pub proof fn lemma_packed_all_nonzero(ranges: Seq<u32>, counts: Seq<u32>)
    requires
        forall|i: int| 0 <= i < counts.len() ==> counts[i] != 0,
    ensures
        packed(ranges, counts) == Seq::new(counts.len(), |i: int| (ranges[i], counts[i])),
{
    lemma_packed_upto_dense(ranges, counts, counts.len() as int);
    lemma_last_populated(counts, counts.len() as int);
}

/// The dense view round-trips: its counters, laid over the boundaries again,
/// are the buckets of the histogram that it was taken from, counter for
/// counter.
pub proof fn lemma_dense_round_trip(h: HistogramView)
    requires
        h.well_formed(),
    ensures
        unpacked(h.ranges, h.buckets) == h.bucket_seq(),
        forall|i: int| 0 <= i < h.buckets.len() ==> unpacked(h.ranges, h.buckets)[i].count
            == h.buckets[i],
{
    assert(unpacked(h.ranges, h.buckets) =~= h.bucket_seq());
}

/// The two views agree: the sparse entries, expanded against the boundaries,
/// are the counters of the dense view.
pub proof fn lemma_views_agree(h: HistogramView)
    requires
        h.well_formed(),
        strictly_increasing_from_zero(h.ranges),
    ensures
        expanded(h.ranges, packed(h.ranges, h.buckets)) == h.buckets,
        h.full().values == keyed(packed(h.ranges, h.buckets)),
{
    lemma_packed_expands(h.ranges, h.buckets);
}

/// The run-compacted counters of `histogram`, in bucket order.
pub fn pack_histogram(histogram: &Histogram) -> (res: Vec<(u32, u32)>)
    requires
        histogram.wf(),
    ensures
        res@ == packed(histogram@.ranges, histogram@.buckets),
{
    let mut res: Vec<(u32, u32)> = Vec::new();
    let mut first: bool = true;
    let mut last: usize = 0;
    let len: usize = histogram.bucket_count();
    let mut last_start: u32 = 0;
    let mut idx: usize = 0;
    while idx < len
        invariant
            histogram.wf(),
            len == histogram@.buckets.len(),
            idx <= len,
            res@ == packed_upto(histogram@.ranges, histogram@.buckets, idx as int),
            first == (res@.len() == 0),
            last == last_populated(histogram@.buckets, idx as int) + 1,
            last <= idx,
            last > 0 ==> last_start == bucket_end(histogram@.ranges, last - 1),
        decreases len - idx,
    {
        let bucket = histogram.bucket_at(idx);
        if bucket.count() != 0 {
            if idx > 0 && first {
                res.push((0, 0));
            }
            last_start = bucket.end();
            first = false;
            last = idx + 1;
            res.push((bucket.start(), bucket.count()));
            assert(res@ =~= packed_upto(histogram@.ranges, histogram@.buckets, idx + 1));
        }
        idx = idx + 1;
    }
    if last > 0 && last < len {
        res.push((last_start, 0));
    }
    res
}

/// The dense view of a histogram: its sum and its raw counters, with no word
/// of the boundaries they belong to.
#[derive(Debug)]
pub struct PersistedHistogram<'h, 'a> {
    histogram: &'h Histogram<'a>,
}

impl<'h, 'a> PersistedHistogram<'h, 'a> {
    /// The histogram that is viewed.
    pub closed spec fn source(&self) -> HistogramView {
        self.histogram@
    }

    /// The total of the values recorded.
    pub fn sum(&self) -> (s: u32)
        ensures
            s == self.source().sum,
    {
        self.histogram.sum()
    }

    /// The counters, one per bucket, in bucket order.
    pub fn counts(&self) -> (c: &[u32])
        ensures
            c@ == self.source().buckets,
    {
        self.histogram.counts()
    }
}

/// A copy of the dense view that stands on its own: the counters and the
/// sum as they were when it was taken.
#[derive(Debug)]
pub struct Snapshot {
    /// The counters, one per bucket, in bucket order.
    pub counts: Vec<u32>,
    /// The total of the values recorded.
    pub sum: u32,
}

/// The sparse entries as they go to the wire: each key is the decimal
/// numeral of the start of its bucket.
pub open spec fn keyed(entries: Seq<(u32, u32)>) -> Seq<(Seq<char>, u32)> {
    Seq::new(entries.len(), |i: int| (decimal(entries[i].0 as nat), entries[i].1))
}

/// Writes the key of each entry as a decimal numeral.
pub fn key_entries(entries: &Vec<(u32, u32)>) -> (res: Vec<(String, u32)>)
    ensures
        res.deep_view() == keyed(entries@),
{
    let mut res: Vec<(String, u32)> = Vec::with_capacity(entries.len());
    let mut i: usize = 0;
    while i < entries.len()
        invariant
            i <= entries@.len(),
            res@.len() == i,
            forall|j: int| 0 <= j < i ==> (#[trigger] res@[j]).0@ == decimal(entries@[j].0 as nat),
            forall|j: int| 0 <= j < i ==> (#[trigger] res@[j]).1 == entries@[j].1,
        decreases entries@.len() - i,
    {
        let entry = entries[i];
        res.push((decimal_string(entry.0), entry.1));
        i = i + 1;
    }
    assert(res.deep_view() =~= keyed(entries@));
    res
}

/// Over boundaries that increase strictly from zero, no two entries of the
/// wire form share a key.
pub proof fn lemma_keyed_distinct(ranges: Seq<u32>, counts: Seq<u32>, i: int, j: int)
    requires
        strictly_increasing_from_zero(ranges),
        counts.len() == ranges.len(),
        0 <= i < j < packed(ranges, counts).len(),
    ensures
        keyed(packed(ranges, counts))[i].0 != keyed(packed(ranges, counts))[j].0,
{
    let entries = packed(ranges, counts);
    lemma_packed_keys(ranges, counts);
    lemma_keys_order(entries, i, j);
    if decimal(entries[i].0 as nat) == decimal(entries[j].0 as nat) {
        lemma_decimal_injective(entries[i].0 as nat, entries[j].0 as nat);
    }
}

/// Where keys increase strictly, a later entry has the larger key.
pub proof fn lemma_keys_order(entries: Seq<(u32, u32)>, i: int, j: int)
    requires
        keys_increasing(entries),
        0 <= i < j < entries.len(),
    ensures
        entries[i].0 < entries[j].0,
    decreases j - i,
{
    if i + 1 < j {
        lemma_keys_order(entries, i, j - 1);
    }
    assert(entries[j - 1].0 < entries[j - 1 + 1].0);
}

/// The self-describing view of a histogram.
#[derive(Debug)]
pub struct FullHistogram {
    /// The nominal range of samples: minimum and maximum.
    pub range: (u32, u32),
    /// The number of buckets.
    pub bucket_count: usize,
    /// The wire code of the layout.
    pub histogram_type: u32,
    /// The run-compacted counters, each keyed by the numeral of the start of
    /// its bucket, in bucket order.
    pub values: Vec<(String, u32)>,
    /// The total of the values recorded.
    pub sum: u32,
}

/// The self-describing view as plain values.
pub struct FullView {
    pub range: (u32, u32),
    pub bucket_count: nat,
    pub histogram_type: u32,
    pub values: Seq<(Seq<char>, u32)>,
    pub sum: u32,
}

impl View for FullHistogram {
    type V = FullView;

    open spec fn view(&self) -> FullView {
        FullView {
            range: self.range,
            bucket_count: self.bucket_count as nat,
            histogram_type: self.histogram_type,
            values: self.values.deep_view(),
            sum: self.sum,
        }
    }
}

impl HistogramView {
    /// What the self-describing view of this histogram holds.
    pub open spec fn full(self) -> FullView {
        FullView {
            range: (self.min, self.max),
            bucket_count: self.buckets.len(),
            histogram_type: type_code(self.typ),
            values: keyed(packed(self.ranges, self.buckets)),
            sum: self.sum,
        }
    }
}

impl<'a> Histogram<'a> {
    /// The dense view of this histogram, for persisting.
    pub fn persisted<'h>(&'h self) -> (p: PersistedHistogram<'h, 'a>)
        ensures
            p.source() == self@,
    {
        PersistedHistogram { histogram: self }
    }

    /// A copy of the counters and the sum, which later samples do not reach.
    pub fn snapshot(&self) -> (s: Snapshot)
        ensures
            s.counts@ == self@.buckets,
            s.sum == self@.sum,
    {
        Snapshot { counts: slice_to_vec(self.counts()), sum: self.sum() }
    }

    /// The self-describing view of this histogram.
    pub fn full(&self) -> (f: FullHistogram)
        requires
            self.wf(),
        ensures
            f@ == self@.full(),
    {
        FullHistogram {
            range: (self.min(), self.max()),
            bucket_count: self.bucket_count(),
            histogram_type: self.layout().code(),
            values: key_entries(&pack_histogram(self)),
            sum: self.sum(),
        }
    }
}

} // verus!
