use histogram::pack_histogram;
use histogram::snapshot::key_entries;
use histogram::text::decimal_string;
use histogram::text::decimal_width;
use histogram::Boundaries;
use histogram::Histogram;

fn log_step(current: u32, max: u32, remaining: u32) -> u32 {
    let log_max = (max as f64).ln();
    let log_current = (current as f64).ln();
    (log_current + (log_max - log_current) / remaining as f64)
        .exp()
        .round() as u32
}

/// The dense counters that sparse entries stand for over `ranges`.
fn expand(ranges: &[u32], entries: &[(u32, u32)]) -> Vec<u32> {
    ranges
        .iter()
        .map(|start| {
            entries
                .iter()
                .rev()
                .find(|(key, _)| key == start)
                .map_or(0, |&(_, count)| count)
        })
        .collect()
}

fn with_counts(ranges: &[u32], counts: &[u32]) -> Histogram<'static> {
    let mut h = Histogram::factory_get(0, 0, Boundaries::Owned(ranges.to_vec())).unwrap();
    for (i, &n) in counts.iter().enumerate() {
        for _ in 0..n {
            h.add(ranges[i]);
        }
    }
    assert_eq!(h.counts(), counts);
    h
}

#[test]
fn persisted_holds_sum_and_dense_counts() {
    let mut h = Histogram::linear(1, 500, 10).unwrap();
    for v in [0, 1, 14, 450, 700] {
        h.add(v);
    }
    let p = h.persisted();
    assert_eq!(p.sum(), 1165);
    assert_eq!(p.counts(), &[1, 2, 0, 0, 0, 0, 0, 0, 1, 1]);
}

#[test]
fn persisted_counts_line_up_with_the_buckets() {
    let mut h = Histogram::exponential(1, 500, 10, log_step).unwrap();
    for v in [0, 1, 14, 450, 700, 3, 3, 99] {
        h.add(v);
    }
    let p = h.persisted();
    let mut walk = h.buckets();
    for (i, &count) in p.counts().iter().enumerate() {
        let bucket = walk.next().unwrap();
        assert_eq!(bucket.count(), count);
        assert_eq!(bucket.start(), h.ranges()[i]);
    }
    assert!(walk.next().is_none());
}

#[test]
fn snapshot_is_a_copy() {
    let mut h = Histogram::boolean();
    h.add(1);
    let s = h.snapshot();
    h.add(1);
    h.add(0);
    assert_eq!(s.counts, vec![0, 1, 0]);
    assert_eq!(s.sum, 1);
    assert_eq!(h.snapshot().counts, vec![1, 2, 0]);
    assert_eq!(h.snapshot().sum, 2);
}

#[test]
fn pack_of_an_empty_histogram_is_empty() {
    let h = Histogram::linear(1, 500, 10).unwrap();
    assert_eq!(pack_histogram(&h), vec![]);
}

#[test]
fn pack_without_gaps_has_no_markers() {
    let h = with_counts(&[0, 10, 20], &[3, 1, 2]);
    assert_eq!(pack_histogram(&h), vec![(0, 3), (10, 1), (20, 2)]);
}

#[test]
fn pack_marks_leading_empty_buckets_once() {
    let h = with_counts(&[0, 10, 20, 30], &[0, 0, 5, 1]);
    assert_eq!(pack_histogram(&h), vec![(0, 0), (20, 5), (30, 1)]);
}

#[test]
fn pack_marks_trailing_empty_buckets_once() {
    let h = with_counts(&[0, 10, 20, 30, 40], &[2, 7, 0, 0, 0]);
    assert_eq!(pack_histogram(&h), vec![(0, 2), (10, 7), (20, 0)]);
}

#[test]
fn pack_leaves_out_empty_buckets_in_between() {
    let h = with_counts(&[0, 10, 20, 30, 40], &[1, 0, 0, 4, 0]);
    assert_eq!(pack_histogram(&h), vec![(0, 1), (30, 4), (40, 0)]);
}

#[test]
fn pack_of_one_bucket_in_the_middle_has_both_markers() {
    let h = with_counts(&[0, 10, 20, 30, 40], &[0, 0, 9, 0, 0]);
    assert_eq!(pack_histogram(&h), vec![(0, 0), (20, 9), (30, 0)]);
}

#[test]
fn pack_of_the_last_bucket_alone_has_no_trailing_marker() {
    let h = with_counts(&[0, 10, 20], &[0, 0, 4]);
    assert_eq!(pack_histogram(&h), vec![(0, 0), (20, 4)]);
}

#[test]
fn pack_of_the_linear_scenario() {
    let mut h = Histogram::linear(1, 500, 10).unwrap();
    for v in [0, 1, 14, 450, 700] {
        h.add(v);
    }
    assert_eq!(pack_histogram(&h), vec![(0, 1), (1, 2), (437, 1), (500, 1)]);
}

#[test]
fn pack_of_the_exponential_scenario() {
    let mut h = Histogram::exponential(1, 500, 10, log_step).unwrap();
    for v in [0, 1, 14, 450, 700] {
        h.add(v);
    }
    assert_eq!(
        pack_histogram(&h),
        vec![(0, 1), (1, 1), (9, 1), (224, 1), (500, 1)]
    );
}

#[test]
fn sparse_entries_expand_to_the_dense_counts() {
    let ranges = [0u32, 10, 20, 30, 40, 50];
    let distributions: [[u32; 6]; 8] = [
        [0, 0, 0, 0, 0, 0],
        [1, 2, 3, 4, 5, 6],
        [0, 0, 3, 0, 0, 0],
        [1, 0, 0, 0, 0, 0],
        [0, 0, 0, 0, 0, 1],
        [1, 0, 0, 0, 0, 1],
        [0, 2, 0, 2, 0, 0],
        [0, 0, 2, 2, 0, 2],
    ];
    for counts in distributions.iter() {
        let h = with_counts(&ranges, counts);
        let entries = pack_histogram(&h);
        assert_eq!(expand(&ranges, &entries), counts.to_vec());
        assert_eq!(expand(&ranges, &entries), h.persisted().counts().to_vec());
        assert!(entries.windows(2).all(|w| w[0].0 < w[1].0));
    }
}

#[test]
fn full_view_describes_the_histogram() {
    let mut h = Histogram::linear(0, 500, 10).unwrap();
    for v in [0, 1, 14, 450, 700] {
        h.add(v);
    }
    let f = h.full();
    assert_eq!(f.range, (1, 500));
    assert_eq!(f.bucket_count, 10);
    assert_eq!(f.histogram_type, 1);
    assert_eq!(f.sum, 1165);
    assert_eq!(
        f.values,
        vec![
            ("0".to_string(), 1),
            ("1".to_string(), 2),
            ("437".to_string(), 1),
            ("500".to_string(), 1)
        ]
    );
}

#[test]
fn full_view_of_an_empty_histogram_has_no_values() {
    let f = Histogram::boolean().full();
    assert_eq!(f.range, (1, 2));
    assert_eq!(f.bucket_count, 3);
    assert_eq!(f.histogram_type, 2);
    assert_eq!(f.sum, 0);
    assert!(f.values.is_empty());
}

#[test]
fn full_view_carries_the_code_of_each_layout() {
    let zero = |_: u32, _: u32, _: u32| 0u32;
    assert_eq!(
        Histogram::exponential(1, 9, 3, zero).unwrap().full().histogram_type,
        0
    );
    assert_eq!(Histogram::linear(1, 9, 3).unwrap().full().histogram_type, 1);
    assert_eq!(Histogram::boolean().full().histogram_type, 2);
    assert_eq!(Histogram::flag().full().histogram_type, 3);
    assert_eq!(Histogram::enumerated(3).unwrap().full().histogram_type, 1);
    assert_eq!(
        Histogram::factory_get(0, 0, Boundaries::Owned(vec![0]))
            .unwrap()
            .full()
            .histogram_type,
        4
    );
}

#[test]
fn full_view_marks_the_trailing_run_at_its_numeral() {
    let mut h = Histogram::enumerated(12).unwrap();
    h.add(9);
    h.add(10);
    let f = h.full();
    assert_eq!(
        f.values,
        vec![
            ("0".to_string(), 0),
            ("9".to_string(), 1),
            ("10".to_string(), 1),
            ("11".to_string(), 0)
        ]
    );
}

#[test]
fn key_entries_writes_numerals() {
    assert_eq!(
        key_entries(&vec![(0, 0), (7, 1), (4_294_967_295, 2)]),
        vec![
            ("0".to_string(), 0),
            ("7".to_string(), 1),
            ("4294967295".to_string(), 2)
        ]
    );
    assert!(key_entries(&Vec::new()).is_empty());
}

#[test]
fn decimal_string_is_the_numeral() {
    for n in [0u32, 1, 9, 10, 11, 99, 100, 101, 1000, 65_535, 1_000_000, u32::MAX] {
        assert_eq!(decimal_string(n), n.to_string());
        assert_eq!(decimal_width(n), n.to_string().len());
    }
}
