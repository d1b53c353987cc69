use grouped_stats::bins::{compute_intervals, plan_layout, sample_range, Interval, Layout};
use grouped_stats::freq::{sum_ni, compute_si, count_frequencies, locate};
use grouped_stats::order::{
    is_nan, order_key, value_eq, value_le, value_lt, INFINITY_BITS, NEG_INFINITY_BITS,
};
use grouped_stats::position::{calculate_medians, calculate_modes, MedianRule, ModeRule};
use grouped_stats::table::tabulate;

fn bits(values: &[f64]) -> Vec<u64> {
    values.iter().map(|v| v.to_bits()).collect()
}

fn iv(start: f64, end: f64) -> Interval {
    Interval { start: start.to_bits(), end: end.to_bits() }
}

/// Lower bounds `min + i * w` of `k` equal bins, as a caller computes them.
fn starts_for(min: f64, max: f64, k: usize) -> Vec<u64> {
    let w = (max - min) / k as f64;
    (0..k).map(|i| (min + i as f64 * w).to_bits()).collect()
}

#[test]
fn degenerate_sample_has_one_bin() {
    let data = bits(&[5.0, 5.0, 5.0]);
    let layout = plan_layout(&data);
    assert_eq!(layout, Layout::OneBin { min: 5.0f64.to_bits(), max: 5.0f64.to_bits() });
    let intervals = compute_intervals(&layout, &Vec::new());
    assert_eq!(intervals, vec![iv(5.0, 5.0)]);
    let t = tabulate(&data, &intervals);
    assert_eq!(t.ni, vec![3]);
    assert_eq!(t.si, vec![3]);
    assert_eq!(t.sum_ni, 3);
    assert_eq!(t.medians, vec![MedianRule::Interpolate { before: 0, freq: 3 }]);
    assert_eq!(t.modes, vec![ModeRule::Interpolate { d1: 3, d2: 3 }]);
}

#[test]
fn empty_sample_has_nothing() {
    let data: Vec<u64> = Vec::new();
    let layout = plan_layout(&data);
    assert_eq!(layout, Layout::NoBins);
    let intervals = compute_intervals(&layout, &Vec::new());
    assert!(intervals.is_empty());
    let t = tabulate(&data, &intervals);
    assert!(t.ni.is_empty());
    assert!(t.si.is_empty());
    assert_eq!(t.sum_ni, 0);
    assert!(t.medians.is_empty());
    assert!(t.modes.is_empty());
}

#[test]
fn one_to_ten_in_four_bins() {
    let values: Vec<f64> = (1..=10).map(|v| v as f64).collect();
    let data = bits(&values);
    let layout = plan_layout(&data);
    assert_eq!(layout, Layout::Split { min: 1.0f64.to_bits(), max: 10.0f64.to_bits() });
    let intervals = compute_intervals(&layout, &starts_for(1.0, 10.0, 4));
    assert_eq!(
        intervals,
        vec![iv(1.0, 3.25), iv(3.25, 5.5), iv(5.5, 7.75), iv(7.75, 10.0)]
    );
    let t = tabulate(&data, &intervals);
    assert_eq!(t.ni, vec![3, 2, 2, 3]);
    assert_eq!(t.si, vec![3, 5, 7, 10]);
    assert_eq!(t.sum_ni, 10);
    assert_eq!(
        t.medians,
        vec![
            MedianRule::Interpolate { before: 0, freq: 3 },
            MedianRule::Interpolate { before: 3, freq: 2 },
            MedianRule::Interpolate { before: 5, freq: 2 },
            MedianRule::Interpolate { before: 7, freq: 3 },
        ]
    );
    assert_eq!(
        t.modes,
        vec![
            ModeRule::Interpolate { d1: 3, d2: 1 },
            ModeRule::Midpoint,
            ModeRule::Midpoint,
            ModeRule::Interpolate { d1: 1, d2: 3 },
        ]
    );
    // Weighted moments by hand from the midpoints and these counts.
    let mids = [2.125, 4.375, 6.625, 8.875];
    let mean: f64 = mids.iter().zip(&t.ni).map(|(x, n)| x * *n as f64).sum::<f64>() / 10.0;
    assert_eq!(mean, 5.5);
    let variance: f64 =
        mids.iter().zip(&t.ni).map(|(x, n)| (x - mean).powi(2) * *n as f64).sum::<f64>() / 10.0;
    assert_eq!(variance, 7.340625);
}

#[test]
fn repeated_tabulation_is_identical() {
    let data = bits(&[3.5, -1.0, 2.0, 8.25, 2.0, 0.0, 7.0]);
    let layout = plan_layout(&data);
    assert_eq!(layout, plan_layout(&data));
    let (min, max) = sample_range(&data);
    let intervals = compute_intervals(&layout, &starts_for(f64::from_bits(min), f64::from_bits(max), 4));
    let a = tabulate(&data, &intervals);
    let b = tabulate(&data, &intervals);
    assert_eq!(a.ni, b.ni);
    assert_eq!(a.si, b.si);
    assert_eq!(a.sum_ni, b.sum_ni);
    assert_eq!(a.medians, b.medians);
    assert_eq!(a.modes, b.modes);
}

#[test]
fn every_observation_counted_once() {
    let values = [-4.5, 0.0, -0.0, 12.0, 3.25, 3.25, 7.0, -1.0, 11.999, 6.0, 1.0];
    let data = bits(&values);
    let layout = plan_layout(&data);
    assert_eq!(layout, Layout::Split { min: (-4.5f64).to_bits(), max: 12.0f64.to_bits() });
    let intervals = compute_intervals(&layout, &starts_for(-4.5, 12.0, 5));
    let t = tabulate(&data, &intervals);
    assert_eq!(t.sum_ni, values.len());
    assert_eq!(t.ni.iter().sum::<usize>(), values.len());
}

#[test]
fn maximum_lands_in_last_bin() {
    let data = bits(&[0.0, 1.0, 2.0, 3.0]);
    let intervals = vec![iv(0.0, 1.5), iv(1.5, 3.0)];
    assert_eq!(locate(3.0f64.to_bits(), &intervals), Some(1));
    assert_eq!(locate(1.5f64.to_bits(), &intervals), Some(1));
    assert_eq!(count_frequencies(&data, &intervals), vec![2, 2]);
}

#[test]
fn closed_pass_catches_inner_upper_bound() {
    // The first bin's upper bound is above the second's start: 2.0 is not
    // in either half-open range, so the closed pass counts it in the first.
    let intervals = vec![iv(0.0, 2.0), iv(2.5, 4.0)];
    assert_eq!(locate(2.0f64.to_bits(), &intervals), Some(0));
    assert_eq!(locate(2.25f64.to_bits(), &intervals), None);
}

#[test]
fn value_outside_all_bins_is_dropped() {
    let data = bits(&[1.0, 2.0, 9.0, f64::NAN]);
    let intervals = vec![iv(1.0, 2.0), iv(2.0, 3.0)];
    let ni = count_frequencies(&data, &intervals);
    assert_eq!(ni, vec![1, 1]);
    assert_eq!(sum_ni(&ni), 2);
}

#[test]
fn cumulative_counts_rise_to_total() {
    let ni = vec![4, 0, 7, 1, 0];
    let si = compute_si(&ni);
    assert_eq!(si, vec![4, 4, 11, 12, 12]);
    assert_eq!(sum_ni(&ni), 12);
    assert!(si.windows(2).all(|w| w[0] <= w[1]));
}

#[test]
fn split_bins_are_contiguous_and_ascending() {
    let layout = Layout::Split { min: 0.1f64.to_bits(), max: 0.7f64.to_bits() };
    let intervals = compute_intervals(&layout, &starts_for(0.1, 0.7, 6));
    assert_eq!(intervals.len(), 6);
    assert_eq!(intervals[0].start, 0.1f64.to_bits());
    assert_eq!(intervals[5].end, 0.7f64.to_bits());
    for w in intervals.windows(2) {
        assert_eq!(w[0].end, w[1].start);
    }
    for i in &intervals {
        assert!(f64::from_bits(i.start) <= f64::from_bits(i.end));
    }
}

#[test]
fn uniform_histogram_modes() {
    assert_eq!(
        calculate_modes(&vec![2, 2, 2, 2]),
        vec![
            ModeRule::Interpolate { d1: 2, d2: 0 },
            ModeRule::Midpoint,
            ModeRule::Midpoint,
            ModeRule::Interpolate { d1: 0, d2: 2 },
        ]
    );
    assert_eq!(calculate_modes(&vec![0, 0, 0]), vec![ModeRule::Midpoint; 3]);
}

#[test]
fn modes_of_a_peak() {
    assert_eq!(
        calculate_modes(&vec![1, 5, 2]),
        vec![
            ModeRule::Midpoint,
            ModeRule::Interpolate { d1: 4, d2: 3 },
            ModeRule::Midpoint,
        ]
    );
    assert_eq!(calculate_modes(&vec![]), vec![]);
}

#[test]
fn medians_empty_without_counts() {
    assert!(calculate_medians(&vec![0, 0], &vec![0, 0]).is_empty());
    assert_eq!(
        calculate_medians(&vec![0, 4], &vec![0, 4]),
        vec![MedianRule::Midpoint, MedianRule::Interpolate { before: 0, freq: 4 }]
    );
}

#[test]
fn float_order_on_bit_patterns() {
    let z = 0.0f64.to_bits();
    let nz = (-0.0f64).to_bits();
    assert!(value_eq(z, nz));
    assert!(!value_lt(nz, z));
    assert!(value_le(nz, z));
    assert!(value_lt((-3.0f64).to_bits(), (-2.5f64).to_bits()));
    assert!(value_lt((-1.0f64).to_bits(), 1.0f64.to_bits()));
    assert!(value_lt(1.0f64.to_bits(), INFINITY_BITS));
    assert!(value_lt(NEG_INFINITY_BITS, f64::MIN.to_bits()));
    let nan = f64::NAN.to_bits();
    assert!(is_nan(nan));
    assert!(!is_nan(INFINITY_BITS));
    assert!(!value_le(nan, nan));
    assert!(!value_eq(nan, nan));
    assert!(order_key(2.0f64.to_bits()) > order_key(1.5f64.to_bits()));
    assert_eq!(order_key(nz), 0);
}

#[test]
fn range_skips_nan() {
    let data = bits(&[f64::NAN, 4.0, -2.0, f64::NAN, 3.0]);
    assert_eq!(sample_range(&data), ((-2.0f64).to_bits(), 4.0f64.to_bits()));
    let only_nan = bits(&[f64::NAN]);
    assert_eq!(sample_range(&only_nan), (INFINITY_BITS, NEG_INFINITY_BITS));
    assert_eq!(
        plan_layout(&only_nan),
        Layout::Split { min: INFINITY_BITS, max: NEG_INFINITY_BITS }
    );
}

#[test]
fn overflowing_range_drops_observations() {
    // The range overflows to infinity, so the first lower bound is NaN and
    // no bin holds either observation: both are left uncounted.
    let values = [-1.0e308, 1.0e308];
    let data = bits(&values);
    let layout = plan_layout(&data);
    assert_eq!(layout, Layout::Split { min: (-1.0e308f64).to_bits(), max: 1.0e308f64.to_bits() });
    let starts = starts_for(-1.0e308, 1.0e308, 2);
    assert!(is_nan(starts[0]));
    let intervals = compute_intervals(&layout, &starts);
    let t = tabulate(&data, &intervals);
    assert_eq!(t.ni, vec![0, 0]);
    assert_eq!(t.sum_ni, 0);
    assert!(t.medians.is_empty());
}
