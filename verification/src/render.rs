//! A histogram as text: one line per bucket, with a bar for its counter.

use vstd::prelude::*;
use crate::bucket::Bucket;
use crate::bucket::BucketView;
use crate::bucket::UNBOUNDED;
use crate::model::HistogramView;
use crate::store::Histogram;
use crate::text::decimal;
use crate::text::decimal_width;
use crate::text::push_decimal;
use crate::text::push_decimal_aligned;
use crate::text::push_spaces;
use crate::text::right_aligned;

verus! {

/// The longest bar, in glyphs, up to rounding.
pub const BAR_WIDTH: u32 = 50;

/// The glyph that bars are drawn with.
pub const GLYPH: char = '\u{220e}';

/// The larger of two numbers.
pub open spec fn larger(a: int, b: int) -> int {
    if a >= b {
        a
    } else {
        b
    }
}

/// The largest counter among the first `n` buckets.
pub open spec fn largest_count(counts: Seq<u32>, n: int) -> int
    decreases n,
{
    if n <= 0 {
        0
    } else {
        larger(largest_count(counts, n - 1), counts[n - 1] as int)
    }
}

/// How many samples one glyph stands for: the largest counter divided by the
/// bar width, and at least one.
pub open spec fn count_per_glyph(counts: Seq<u32>) -> int {
    larger(largest_count(counts, counts.len() as int) / (BAR_WIDTH as int), 1)
}

/// The text for the end of a bucket: its numeral, or `INF` where the bucket
/// is open above.
pub open spec fn end_text(end: u32) -> Seq<char> {
    if end == UNBOUNDED {
        seq!['I', 'N', 'F']
    } else {
        decimal(end as nat)
    }
}

/// The width of the count column for the first `n` buckets: the length of the
/// longest numeral of a counter.
pub open spec fn count_column(h: HistogramView, n: int) -> int
    decreases n,
{
    if n <= 0 {
        0
    } else {
        larger(count_column(h, n - 1), decimal(h.bucket(n - 1).count as nat).len() as int)
    }
}

/// The width of the two range columns for the first `n` buckets: the length
/// of the longest text for a start or an end.
pub open spec fn range_column(h: HistogramView, n: int) -> int
    decreases n,
{
    if n <= 0 {
        0
    } else {
        larger(
            range_column(h, n - 1),
            larger(
                decimal(h.bucket(n - 1).start as nat).len() as int,
                end_text(h.bucket(n - 1).end).len() as int,
            ),
        )
    }
}

/// A bar of `k` glyphs.
pub open spec fn bar(k: nat) -> Seq<char> {
    Seq::new(k, |i: int| GLYPH)
}

/// The line for one bucket: start, end and counter, each moved to the right
/// edge of its column, and a bar of one glyph per `per_glyph` samples.
pub open spec fn bucket_line(
    b: BucketView,
    range_width: nat,
    count_width: nat,
    per_glyph: int,
) -> Seq<char> {
    right_aligned(decimal(b.start as nat), range_width) + " .. "@ + right_aligned(
        end_text(b.end),
        range_width,
    ) + " [ "@ + right_aligned(decimal(b.count as nat), count_width) + " ]: "@ + bar(
        (b.count as int / per_glyph) as nat,
    ) + seq!['\n']
}

/// The lines of the first `n` buckets, one after the other.
pub open spec fn bucket_lines(
    h: HistogramView,
    n: int,
    range_width: nat,
    count_width: nat,
    per_glyph: int,
) -> Seq<char>
    decreases n,
{
    if n <= 0 {
        Seq::empty()
    } else {
        bucket_lines(h, n - 1, range_width, count_width, per_glyph) + bucket_line(
            h.bucket(n - 1),
            range_width,
            count_width,
            per_glyph,
        )
    }
}

/// The first line: the number of samples.
pub open spec fn heading(h: HistogramView) -> Seq<char> {
    "# Number of samples = "@ + decimal(h.count as nat) + seq!['\n']
}

/// The two lines that say what one glyph stands for.
pub open spec fn legend(h: HistogramView) -> Seq<char> {
    "# Each \u{220e} is a count of "@ + decimal(count_per_glyph(h.buckets) as nat) + seq!['\n']
        + "#\n"@
}

/// The whole text: the heading and, where anything was recorded, the legend
/// and one line per bucket in ascending order.
pub open spec fn rendered(h: HistogramView) -> Seq<char> {
    if h.count == 0 {
        heading(h)
    } else {
        heading(h) + legend(h) + bucket_lines(
            h,
            h.buckets.len() as int,
            range_column(h, h.buckets.len() as int) as nat,
            count_column(h, h.buckets.len() as int) as nat,
            count_per_glyph(h.buckets),
        )
    }
}

/// A column is as wide as each of the texts it was measured on.
pub proof fn lemma_columns_fit(h: HistogramView, n: int, i: int)
    requires
        0 <= i < n,
    ensures
        decimal(h.bucket(i).count as nat).len() <= count_column(h, n),
        decimal(h.bucket(i).start as nat).len() <= range_column(h, n),
        end_text(h.bucket(i).end).len() <= range_column(h, n),
        largest_count(h.buckets, n) >= h.buckets[i],
    decreases n,
{
    if i < n - 1 {
        lemma_columns_fit(h, n - 1, i);
    }
}

/// The number of characters in the text for the end of a bucket.
pub fn end_width(end: u32) -> (w: usize)
    ensures
        w == end_text(end).len(),
        1 <= w <= 10,
{
    if end == UNBOUNDED {
        3
    } else {
        decimal_width(end)
    }
}

/// Appends the text for the end of a bucket to `out`, moved to the right
/// edge of a column `width` characters wide.
pub fn push_end_aligned(out: &mut String, end: u32, width: usize)
    requires
        end_text(end).len() <= width,
    ensures
        final(out)@ == old(out)@ + right_aligned(end_text(end), width as nat),
{
    if end == UNBOUNDED {
        push_spaces(out, width - 3);
        out.push('I');
        out.push('N');
        out.push('F');
        assert(out@ =~= old(out)@ + right_aligned(end_text(end), width as nat));
    } else {
        push_decimal_aligned(out, end, width);
    }
}

/// Appends a bar of `k` glyphs to `out`.
pub fn push_bar(out: &mut String, k: u32)
    ensures
        final(out)@ == old(out)@ + bar(k as nat),
{
    let mut i: u32 = 0;
    while i < k
        invariant
            i <= k,
            out@ == old(out)@ + bar(i as nat),
        decreases k - i,
    {
        out.push(GLYPH);
        i = i + 1;
        assert(out@ =~= old(out)@ + bar(i as nat));
    }
    assert(out@ =~= old(out)@ + bar(k as nat));
}

/// Appends the line for `bucket` to `out`.
pub fn push_bucket_line(
    out: &mut String,
    bucket: &Bucket,
    range_width: usize,
    count_width: usize,
    per_glyph: u32,
)
    requires
        decimal(bucket@.start as nat).len() <= range_width,
        end_text(bucket@.end).len() <= range_width,
        decimal(bucket@.count as nat).len() <= count_width,
        per_glyph >= 1,
    ensures
        final(out)@ == old(out)@ + bucket_line(
            bucket@,
            range_width as nat,
            count_width as nat,
            per_glyph as int,
        ),
{
    push_decimal_aligned(out, bucket.start(), range_width);
    out.push_str(" .. ");
    push_end_aligned(out, bucket.end(), range_width);
    out.push_str(" [ ");
    push_decimal_aligned(out, bucket.count(), count_width);
    out.push_str(" ]: ");
    push_bar(out, bucket.count() / per_glyph);
    out.push('\n');
    assert(out@ =~= old(out)@ + bucket_line(
        bucket@,
        range_width as nat,
        count_width as nat,
        per_glyph as int,
    ));
}

impl<'a> Histogram<'a> {
    /// The histogram as text.
    ///
    /// The first line gives the number of samples. Where there are any, a
    /// legend follows, and then one line per bucket: start, end (`INF` for a
    /// bucket that is open above) and counter, right-aligned in columns, and
    /// a bar whose length is the counter divided by what one glyph stands
    /// for.
    pub fn render(&self) -> (out: String)
        requires
            self.wf(),
        ensures
            out@ == rendered(self@),
    {
        let mut out = String::new();
        out.push_str("# Number of samples = ");
        push_decimal(&mut out, self.count());
        out.push('\n');
        assert(out@ =~= heading(self@));
        if self.count() == 0 {
            return out;
        }
        let len: usize = self.bucket_count();
        let mut max_count: u32 = 0;
        let mut count_width: usize = 0;
        let mut range_width: usize = 0;
        let mut i: usize = 0;
        while i < len
            invariant
                self.wf(),
                len == self@.buckets.len(),
                i <= len,
                max_count == largest_count(self@.buckets, i as int),
                count_width == count_column(self@, i as int),
                range_width == range_column(self@, i as int),
                count_width <= 10,
                range_width <= 10,
            decreases len - i,
        {
            let bucket = self.bucket_at(i);
            if bucket.count() > max_count {
                max_count = bucket.count();
            }
            let wide: usize = decimal_width(bucket.count());
            if wide > count_width {
                count_width = wide;
            }
            let wide: usize = decimal_width(bucket.start());
            if wide > range_width {
                range_width = wide;
            }
            let wide: usize = end_width(bucket.end());
            if wide > range_width {
                range_width = wide;
            }
            i = i + 1;
        }
        let per_glyph: u32 = if max_count / BAR_WIDTH >= 1 {
            max_count / BAR_WIDTH
        } else {
            1
        };
        assert(per_glyph == count_per_glyph(self@.buckets));
        out.push_str("# Each \u{220e} is a count of ");
        push_decimal(&mut out, per_glyph);
        out.push('\n');
        out.push_str("#\n");
        assert(out@ =~= heading(self@) + legend(self@));
        let mut i: usize = 0;
        while i < len
            invariant
                self.wf(),
                len == self@.buckets.len(),
                i <= len,
                per_glyph >= 1,
                count_width == count_column(self@, len as int),
                range_width == range_column(self@, len as int),
                out@ == heading(self@) + legend(self@) + bucket_lines(
                    self@,
                    i as int,
                    range_width as nat,
                    count_width as nat,
                    per_glyph as int,
                ),
            decreases len - i,
        {
            let bucket = self.bucket_at(i);
            proof {
                lemma_columns_fit(self@, len as int, i as int);
            }
            let ghost before = out@;
            push_bucket_line(&mut out, &bucket, range_width, count_width, per_glyph);
            i = i + 1;
            assert(out@ =~= heading(self@) + legend(self@) + bucket_lines(
                self@,
                i as int,
                range_width as nat,
                count_width as nat,
                per_glyph as int,
            ));
        }
        out
    }
}

} // verus!
