use histogram::Boundaries;
use histogram::Histogram;

#[test]
fn render_of_an_empty_histogram_is_the_heading() {
    let h = Histogram::linear(1, 500, 10).unwrap();
    assert_eq!(h.render(), "# Number of samples = 0\n");
}

#[test]
fn render_of_the_linear_scenario() {
    let mut h = Histogram::linear(1, 500, 10).unwrap();
    for v in [0, 1, 14, 450, 700] {
        h.add(v);
    }
    let expected = "# Number of samples = 5\n\
# Each \u{220e} is a count of 1\n\
#\n\
\x20 0 ..   1 [ 1 ]: \u{220e}\n\
\x20 1 ..  63 [ 2 ]: \u{220e}\u{220e}\n\
\x2063 .. 125 [ 0 ]: \n\
125 .. 188 [ 0 ]: \n\
188 .. 250 [ 0 ]: \n\
250 .. 312 [ 0 ]: \n\
312 .. 375 [ 0 ]: \n\
375 .. 437 [ 0 ]: \n\
437 .. 500 [ 1 ]: \u{220e}\n\
500 .. INF [ 1 ]: \u{220e}\n";
    assert_eq!(h.render(), expected);
}

#[test]
fn render_scales_the_bars_to_the_largest_counter() {
    let mut h = Histogram::boolean();
    for _ in 0..120 {
        h.add(0);
    }
    for _ in 0..3 {
        h.add(1);
    }
    let long = "\u{220e}".repeat(60);
    let expected = format!(
        "# Number of samples = 123\n\
# Each \u{220e} is a count of 2\n\
#\n\
\x20 0 ..   1 [ 120 ]: {}\n\
\x20 1 ..   2 [   3 ]: \u{220e}\n\
\x20 2 .. INF [   0 ]: \n",
        long
    );
    assert_eq!(h.render(), expected);
}

#[test]
fn render_keeps_bars_within_the_width_up_to_rounding() {
    let mut h = Histogram::boolean();
    for _ in 0..5000 {
        h.add(1);
    }
    let text = h.render();
    let longest = text
        .lines()
        .map(|l| l.chars().filter(|&c| c == '\u{220e}').count())
        .max()
        .unwrap();
    assert_eq!(longest, 50);
    assert!(text.contains("# Each \u{220e} is a count of 100\n"));
}

#[test]
fn render_widens_the_range_columns_for_a_long_start() {
    let mut h = Histogram::factory_get(0, 0, Boundaries::Owned(vec![12345])).unwrap();
    h.add(1);
    let expected = "# Number of samples = 1\n\
# Each \u{220e} is a count of 1\n\
#\n\
12345 ..   INF [ 1 ]: \u{220e}\n";
    assert_eq!(h.render(), expected);
}

#[test]
fn render_writes_an_end_at_the_largest_value_as_unbounded() {
    let h = {
        let mut h =
            Histogram::factory_get(0, 0, Boundaries::Owned(vec![0, u32::MAX])).unwrap();
        h.add(0);
        h
    };
    let expected = "# Number of samples = 1\n\
# Each \u{220e} is a count of 1\n\
#\n\
\x20        0 ..        INF [ 1 ]: \u{220e}\n\
4294967295 ..        INF [ 0 ]: \n";
    assert_eq!(h.render(), expected);
}
