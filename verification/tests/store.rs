use histogram::Boundaries;
use histogram::ConfigurationError;
use histogram::Histogram;
use histogram::Type;

fn counts(h: &Histogram) -> Vec<u32> {
    let mut res = Vec::new();
    let mut buckets = h.buckets();
    while let Some(bucket) = buckets.next() {
        res.push(bucket.count());
    }
    res
}

fn always_zero(_current: u32, _max: u32, _remaining: u32) -> u32 {
    0
}

#[test]
fn constructed_histograms_have_one_counter_per_boundary() {
    let made = [
        Histogram::linear(1, 500, 10).unwrap(),
        Histogram::exponential(1, 500, 10, always_zero).unwrap(),
        Histogram::boolean(),
        Histogram::flag(),
        Histogram::enumerated(10).unwrap(),
        Histogram::factory_get(0, 9, Boundaries::Owned(vec![0, 3, 6])).unwrap(),
    ];
    let buckets = [10, 10, 3, 3, 11, 3];
    for (h, &n) in made.iter().zip(buckets.iter()) {
        assert_eq!(h.bucket_count(), n);
        assert_eq!(h.ranges().len(), n);
        assert_eq!(h.counts().len(), n);
        assert_eq!(h.ranges()[0], 0);
        assert!(h.ranges().windows(2).all(|w| w[0] < w[1]));
        assert!(h.is_empty());
        assert_eq!(h.sum(), 0);
        assert!(h.counts().iter().all(|&c| c == 0));
    }
}

#[test]
fn linear_clamps_a_zero_minimum() {
    let h = Histogram::linear(0, 500, 10).unwrap();
    assert_eq!(h.min(), 1);
    assert_eq!(h.max(), 500);
    assert_eq!(h.ranges(), &[0, 1, 63, 125, 188, 250, 312, 375, 437, 500]);
    assert_eq!(h.layout(), Type::Linear);
}

#[test]
fn linear_refuses_fewer_than_three_buckets() {
    assert_eq!(
        Histogram::linear(1, 500, 2).err(),
        Some(ConfigurationError::TooFewBuckets)
    );
    assert_eq!(
        Histogram::linear(1, 500, 0).err(),
        Some(ConfigurationError::TooFewBuckets)
    );
}

#[test]
fn exponential_clamps_a_zero_minimum() {
    let h = Histogram::exponential(0, 100, 5, always_zero).unwrap();
    assert_eq!(h.min(), 1);
    assert_eq!(h.max(), 100);
    assert_eq!(h.ranges(), &[0, 1, 2, 3, 4]);
    assert_eq!(h.layout(), Type::Exponential);
}

#[test]
fn exponential_refuses_bad_configurations() {
    assert_eq!(
        Histogram::exponential(1, 500, 2, always_zero).err(),
        Some(ConfigurationError::TooFewBuckets)
    );
    assert_eq!(
        Histogram::exponential(u32::MAX, 0, 3, always_zero).err(),
        Some(ConfigurationError::BoundaryOverflow)
    );
}

#[test]
fn boolean_has_three_buckets() {
    let h = Histogram::boolean();
    assert_eq!(h.ranges(), &[0, 1, 2]);
    assert_eq!(h.min(), 1);
    assert_eq!(h.max(), 2);
    assert_eq!(h.layout(), Type::Boolean);
}

#[test]
fn boolean_sends_larger_values_to_the_overflow_bucket() {
    let mut h = Histogram::boolean();
    h.add(2);
    h.add(1000);
    assert_eq!(counts(&h), vec![0, 0, 2]);
}

#[test]
fn flag_is_a_boolean_histogram_under_its_own_tag() {
    let h = Histogram::flag();
    assert_eq!(h.ranges(), Histogram::boolean().ranges());
    assert_eq!(h.min(), 1);
    assert_eq!(h.max(), 2);
    assert_eq!(h.layout(), Type::Flag);
}

#[test]
fn enumerated_has_one_bucket_per_value_and_one_more() {
    let h = Histogram::enumerated(4).unwrap();
    assert_eq!(h.ranges(), &[0, 1, 2, 3, 4]);
    assert_eq!(h.bucket_count(), 5);
    assert_eq!(h.min(), 1);
    assert_eq!(h.max(), 4);
    assert_eq!(h.layout(), Type::Enumerated);
}

#[test]
fn enumerated_refuses_bad_configurations() {
    assert_eq!(
        Histogram::enumerated(0).err(),
        Some(ConfigurationError::TooFewBuckets)
    );
    assert_eq!(
        Histogram::enumerated(1).err(),
        Some(ConfigurationError::TooFewBuckets)
    );
    assert_eq!(
        Histogram::enumerated(u32::MAX).err(),
        Some(ConfigurationError::TooManyBuckets)
    );
    assert!(Histogram::enumerated(2).is_ok());
}

#[test]
fn factory_get_takes_owned_and_borrowed_boundaries() {
    let lent = [0u32, 5, 50];
    let mut borrowed = Histogram::factory_get(5, 50, Boundaries::Borrowed(&lent)).unwrap();
    let mut owned = Histogram::factory_get(5, 50, Boundaries::Owned(lent.to_vec())).unwrap();
    for h in [&mut borrowed, &mut owned] {
        assert_eq!(h.layout(), Type::External);
        assert_eq!(h.min(), 5);
        assert_eq!(h.max(), 50);
        assert_eq!(h.ranges(), &lent);
        h.add(4);
        h.add(5);
        h.add(49);
        h.add(50);
        assert_eq!(h.counts(), &[1, 2, 1]);
    }
}

#[test]
fn factory_get_refuses_no_buckets() {
    assert_eq!(
        Histogram::factory_get(0, 0, Boundaries::Owned(Vec::new())).err(),
        Some(ConfigurationError::TooFewBuckets)
    );
    assert_eq!(
        Histogram::factory_get(0, 0, Boundaries::Borrowed(&[])).err(),
        Some(ConfigurationError::TooFewBuckets)
    );
}

#[test]
fn factory_get_with_one_bucket_takes_everything() {
    let mut h = Histogram::factory_get(0, 0, Boundaries::Owned(vec![0])).unwrap();
    h.add(0);
    h.add(u32::MAX);
    assert_eq!(h.counts(), &[2]);
}

#[test]
fn from_guarded_takes_the_boundaries_before_the_sentinel() {
    let buffer = [0u32, 10, 100, 0x7FFF_FFFF];
    let mut h = Histogram::from_guarded(10, 100, 3, &buffer).unwrap();
    assert_eq!(h.bucket_count(), 3);
    assert_eq!(h.ranges(), &[0, 10, 100]);
    assert_eq!(h.layout(), Type::External);
    h.add(0x7FFF_FFFF);
    assert_eq!(h.counts(), &[0, 0, 1]);
}

#[test]
fn from_guarded_refuses_a_buffer_without_sentinel() {
    let buffer = [0u32, 10, 100, 1000];
    assert_eq!(
        Histogram::from_guarded(10, 100, 3, &buffer).err(),
        Some(ConfigurationError::MissingSentinel)
    );
}

#[test]
fn from_guarded_refuses_a_buffer_of_another_length() {
    let buffer = [0u32, 10, 0x7FFF_FFFF];
    assert_eq!(
        Histogram::from_guarded(10, 100, 3, &buffer).err(),
        Some(ConfigurationError::MissingSentinel)
    );
    assert_eq!(
        Histogram::from_guarded(10, 100, 1, &buffer).err(),
        Some(ConfigurationError::MissingSentinel)
    );
    assert_eq!(
        Histogram::from_guarded(10, 100, 0, &[]).err(),
        Some(ConfigurationError::MissingSentinel)
    );
    assert_eq!(
        Histogram::from_guarded(10, 100, usize::MAX, &buffer).err(),
        Some(ConfigurationError::MissingSentinel)
    );
}

#[test]
fn from_guarded_refuses_no_buckets() {
    assert_eq!(
        Histogram::from_guarded(10, 100, 0, &[0x7FFF_FFFF]).err(),
        Some(ConfigurationError::TooFewBuckets)
    );
}

#[test]
fn accumulate_weights_sum_and_count_but_not_the_bucket() {
    let mut h = Histogram::linear(1, 500, 10).unwrap();
    h.accumulate(14, 3);
    assert_eq!(h.sum(), 42);
    assert_eq!(h.count(), 3);
    assert_eq!(counts(&h), vec![0, 1, 0, 0, 0, 0, 0, 0, 0, 0]);
}

#[test]
fn accumulate_of_no_samples_still_marks_the_bucket() {
    let mut h = Histogram::boolean();
    h.accumulate(1, 0);
    assert_eq!(h.sum(), 0);
    assert_eq!(h.count(), 0);
    assert!(h.is_empty());
    assert_eq!(counts(&h), vec![0, 1, 0]);
}

#[test]
fn add_is_accumulate_of_one() {
    let mut added = Histogram::enumerated(5).unwrap();
    let mut accumulated = Histogram::enumerated(5).unwrap();
    for value in [0, 3, 3, 9] {
        added.add(value);
        accumulated.accumulate(value, 1);
    }
    assert_eq!(added.sum(), accumulated.sum());
    assert_eq!(added.count(), accumulated.count());
    assert_eq!(added.counts(), accumulated.counts());
}

#[test]
fn adds_are_counted_and_summed() {
    let values = [0u32, 1, 14, 450, 700, 14, 63, 62, 4_000_000];
    let mut h = Histogram::linear(1, 500, 10).unwrap();
    for &v in values.iter() {
        assert!(h.can_accumulate(v, 1));
        h.add(v);
    }
    assert_eq!(h.count() as usize, values.len());
    assert_eq!(h.sum(), values.iter().sum::<u32>());
    assert_eq!(h.counts().iter().sum::<u32>(), h.count());
}

#[test]
fn bucket_is_where_add_counts() {
    let mut h = Histogram::linear(1, 500, 10).unwrap();
    for value in [0u32, 1, 62, 63, 499, 500, 501] {
        let idx = h.bucket(value);
        let before = h.counts()[idx];
        h.add(value);
        assert_eq!(h.counts()[idx], before + 1);
    }
    assert_eq!(h.bucket(0), 0);
    assert_eq!(h.bucket(62), 1);
    assert_eq!(h.bucket(63), 2);
    assert_eq!(h.bucket(500), 9);
}

#[test]
fn can_accumulate_sees_the_sum_overflow() {
    let mut h = Histogram::boolean();
    h.add(u32::MAX - 1);
    assert!(h.can_accumulate(1, 1));
    assert!(!h.can_accumulate(2, 1));
    assert!(!h.can_accumulate(1, 2));
    assert!(h.can_accumulate(0, 5));
}

#[test]
fn can_accumulate_sees_the_product_overflow() {
    let h = Histogram::boolean();
    assert!(h.can_accumulate(65_535, 65_537));
    assert!(!h.can_accumulate(65_536, 65_536));
    assert!(!h.can_accumulate(u32::MAX, u32::MAX));
}

#[test]
fn can_accumulate_sees_the_count_overflow() {
    let mut h = Histogram::boolean();
    h.accumulate(0, u32::MAX - 1);
    assert!(h.can_accumulate(0, 1));
    assert!(!h.can_accumulate(0, 2));
}

#[test]
fn clear_keeps_the_configuration() {
    let mut h = Histogram::enumerated(3).unwrap();
    h.add(2);
    h.add(7);
    h.clear();
    assert!(h.is_empty());
    assert_eq!(h.sum(), 0);
    assert_eq!(h.count(), 0);
    assert_eq!(h.counts(), &[0, 0, 0, 0]);
    assert_eq!(h.ranges(), &[0, 1, 2, 3]);
    assert_eq!(h.min(), 1);
    assert_eq!(h.max(), 3);
    assert_eq!(h.layout(), Type::Enumerated);
}

#[test]
fn add_after_clear_is_add_to_a_fresh_histogram() {
    let mut cleared = Histogram::linear(1, 500, 10).unwrap();
    for v in [3u32, 99, 1000] {
        cleared.add(v);
    }
    cleared.clear();
    let mut fresh = Histogram::linear(1, 500, 10).unwrap();
    cleared.add(77);
    fresh.add(77);
    assert_eq!(cleared.count(), fresh.count());
    assert_eq!(cleared.sum(), fresh.sum());
    assert_eq!(cleared.counts(), fresh.counts());
    assert_eq!(cleared.ranges(), fresh.ranges());
}

#[test]
fn buckets_walk_in_order_and_end_unbounded() {
    let mut h = Histogram::factory_get(0, 0, Boundaries::Owned(vec![0, 10, 20])).unwrap();
    h.add(15);
    let mut walk = h.buckets();
    let b = walk.next().unwrap();
    assert_eq!((b.start(), b.end(), b.count()), (0, 10, 0));
    let b = walk.next().unwrap();
    assert_eq!((b.start(), b.end(), b.count()), (10, 20, 1));
    let b = walk.next().unwrap();
    assert_eq!((b.start(), b.end(), b.count()), (20, u32::MAX, 0));
    assert!(walk.next().is_none());
    assert!(walk.next().is_none());
}

#[test]
fn buckets_can_be_walked_again() {
    let mut h = Histogram::boolean();
    h.add(1);
    assert_eq!(counts(&h), vec![0, 1, 0]);
    assert_eq!(counts(&h), vec![0, 1, 0]);
}

#[test]
fn bucket_at_is_what_the_walk_hands_out() {
    let mut h = Histogram::enumerated(3).unwrap();
    h.add(1);
    h.add(3);
    let mut walk = h.buckets();
    for i in 0..h.bucket_count() {
        let walked = walk.next().unwrap();
        let direct = h.bucket_at(i);
        assert_eq!(
            (walked.start(), walked.end(), walked.count()),
            (direct.start(), direct.end(), direct.count())
        );
    }
}

#[test]
fn type_codes_are_fixed() {
    assert_eq!(Type::Exponential.code(), 0);
    assert_eq!(Type::Linear.code(), 1);
    assert_eq!(Type::Boolean.code(), 2);
    assert_eq!(Type::Flag.code(), 3);
    assert_eq!(Type::External.code(), 4);
    assert_eq!(Type::Enumerated.code(), 1);
}
