//! Timed samples and counters.

use networkquality::counter::{CounterAverage, CounterSeries};
use networkquality::exact::{has_settled, mean_of, Exact};
use networkquality::stats::{
    instant_minus_intervals, quantile, sort_ascending, standard_deviation,
    trimmed_mean as trimmed_mean_of, variance_in_range, Deviation, Fraction, Ratio,
    TimeSeries,
};
use networkquality::time::{Timestamp, NANOS_PER_MILLI, NANOS_PER_SEC};
use networkquality::wide::Wide;

const START: Timestamp = Timestamp { nanos: 1_000 };

fn float(ratio: Ratio) -> f64 {
    ratio.num as f64 / ratio.den as f64
}

fn root(deviation: Deviation) -> f64 {
    float(deviation.squared).sqrt()
}

/// How much a counter grew per second.
fn rate(average: CounterAverage) -> f64 {
    match average {
        CounterAverage::Growth { amount, nanos } => {
            amount as f64 / (nanos as f64 / NANOS_PER_SEC as f64)
        }
        CounterAverage::Total(total) => total as f64,
    }
}

fn avg_first_n(n: f64) -> f64 {
    (n + 1.0) / 2.0
}

fn std_first_n(n: f64) -> f64 {
    ((n.powi(2) - 1.0) / 12.0).sqrt()
}

fn at(secs: u64) -> Timestamp {
    START + secs * NANOS_PER_SEC
}

fn first(n: u64) -> TimeSeries<u64> {
    let mut ts = TimeSeries::new();
    for n in 1..=n {
        ts.add(at(n), n);
    }
    ts
}

#[test]
fn lib_average_simple() {
    let mut ts: TimeSeries<u64> = TimeSeries::new();
    assert_eq!(ts.average(), None);

    for n in 1..10u64 {
        ts.add(at(n), n);
        assert_eq!(ts.average().map(float), Some(avg_first_n(n as f64)));
    }
}

#[test]
fn lib_average_intervaled() {
    let intervals = 4;
    let interval_length = NANOS_PER_SEC;
    let ts = first(10);

    let total_avg = ts.average().map(float).unwrap();
    assert_eq!(total_avg, avg_first_n(10.0));

    let to = at(10) + NANOS_PER_MILLI;
    let from = instant_minus_intervals(to, intervals, interval_length);
    let interval_avg = ts.interval_average(from, to).map(float).unwrap();
    assert_eq!(interval_avg, 8.5); // (10 + 9 + 8 + 7) / 4
}

#[test]
fn std_simple() {
    let mut ts: TimeSeries<u64> = TimeSeries::new();

    for n in 1..10u64 {
        ts.add(at(n), n);
        assert_eq!(ts.deviation().map(root), Some(std_first_n(n as f64)));
    }
}

#[test]
fn std_intervaled() {
    let intervals = 4;
    let interval_length = NANOS_PER_SEC;
    let ts = first(10);

    let total = ts.deviation().map(root).unwrap();
    assert_eq!(total, std_first_n(10.0));

    let to = at(10) + NANOS_PER_MILLI;
    let from = instant_minus_intervals(to, intervals, interval_length);
    let interval_std = ts.interval_std(from, to).map(root).unwrap();

    // avg = (10 + 9 + 8 + 7) / 4 = 8.5
    // dist = 1.5, 0.5, -0.5, 1.5
    // sq = 2.25 + 0.25 + 0.25 + 2.25 = 5.0
    // div = 5.0 / 4.0 = 1.25
    // sqrt = 1.118033988749895
    assert_eq!(interval_std, 1.118033988749895);
}

#[test]
fn trimmed_mean() {
    let intervals = 10;
    let interval_length = NANOS_PER_SEC;

    // keep the 90th percentile of values;
    let percentile = Fraction { num: 90, den: 100 };
    let ts = first(20);

    // The 90% of 1..=20 == 18. So we should see the average
    // of the first 18 natural numbers.
    let mean = ts.trimmed_mean(percentile).map(float).unwrap();
    assert_eq!(mean, avg_first_n(18.0));

    // The 90% of the last 10 intervals, [11, 20], keep nine values: the mean
    // drops the last value, 20. The average of [11, 19] is 15.
    let to = at(20) + NANOS_PER_MILLI;
    let from = instant_minus_intervals(to, intervals, interval_length);

    let mean = ts.interval_trimmed_mean(from, to, percentile).map(float).unwrap();
    assert_eq!(mean, 15.0);
}

#[test]
fn counter_average_simple() {
    let mut ts = CounterSeries::new();
    assert_eq!(ts.average(), None);

    for n in 0..10u64 {
        ts.add(at(n), n);
    }

    // Nine more in nine seconds: one per second.
    assert_eq!(ts.average().map(rate), Some(1.0))
}

#[test]
fn counter_average_intervaled() {
    let mut ts = CounterSeries::new();

    let intervals = 4;
    let interval_length = NANOS_PER_SEC;

    for n in 0..=10u64 {
        ts.add(at(n), n);
    }

    let total_avg = ts.average().map(rate).unwrap();
    assert_eq!(total_avg, 1.0);

    let to = at(10) + NANOS_PER_MILLI;
    let from = instant_minus_intervals(to, intervals, interval_length);
    // From seven to ten in three seconds: one per second.
    let interval_avg = ts.interval_average(from, to).map(rate).unwrap();
    assert_eq!(interval_avg, 1.0);
}

#[test]
fn counter_interval_holds_the_readings_before_it() {
    let mut ts = CounterSeries::new();
    for n in 0..=10u64 {
        ts.add(at(n), 10 * n);
    }
    assert_eq!(ts.sum(), 100);
    assert_eq!(ts.interval_sum(at(2), at(5)), 30);
    assert_eq!(
        ts.interval_average(at(2), at(5)),
        Some(CounterAverage::Growth { amount: 30, nanos: 3 * NANOS_PER_SEC })
    );
    assert_eq!(ts.samples().len(), 11);
}

#[test]
fn counter_growth_of_adjoining_intervals_adds_up() {
    let mut ts = CounterSeries::new();
    for (n, total) in [(0u64, 5u64), (1, 9), (3, 40), (7, 41)] {
        ts.add(at(n), total);
    }
    let parts = ts.interval_sum(at(0), at(2)) + ts.interval_sum(at(2), at(7));
    assert_eq!(parts, ts.interval_sum(at(0), at(7)));
    assert_eq!(parts, 36);
}

#[test]
fn samples_are_kept_in_time_order() {
    let mut ts: TimeSeries<u64> = TimeSeries::new();
    ts.add(at(3), 30);
    ts.add(at(1), 10);
    ts.add(at(2), 20);
    ts.add(at(2), 21);
    assert_eq!(ts.values(), vec![10, 21, 20, 30]);
    assert_eq!(ts.sample_interval(at(1), at(2)), vec![20, 21, 10]);
    assert_eq!(ts.sum(), 81);
    assert_eq!(ts.interval_sum(at(2), at(3)), 71);
    assert_eq!(ts.samples().len(), 4);
}

#[test]
fn quantiles_index_the_sorted_values() {
    let values = vec![50, 10, 40, 20, 30];
    assert_eq!(sort_ascending(&values), vec![10, 20, 30, 40, 50]);
    assert_eq!(quantile(&values, Fraction { num: 1, den: 2 }), Some(30));
    assert_eq!(quantile(&values, Fraction { num: 90, den: 100 }), Some(50));
    assert_eq!(quantile(&values, Fraction { num: 1, den: 1 }), None);
    assert_eq!(quantile(&vec![], Fraction { num: 1, den: 2 }), None);
    assert_eq!(first(5).quantile(Fraction { num: 1, den: 2 }), Some(3));
}

#[test]
fn trimming_everything_leaves_no_mean() {
    assert_eq!(trimmed_mean_of(&vec![7], Fraction { num: 95, den: 100 }), None);
    assert_eq!(
        trimmed_mean_of(&vec![7, 9], Fraction { num: 3, den: 2 }),
        Some(Ratio { num: 16, den: 2 })
    );
}

#[test]
fn fractions_are_exact() {
    let third = Exact::quotient(1, 3);
    let sum = third.plus(&third).plus(&third);
    assert!(!sum.less_than(&Exact::whole(1)));
    assert!(!Exact::whole(1).less_than(&sum));
    assert!(third.less(Exact::whole(1)).less_than(&Exact::whole(0)));
    assert!(Exact::whole(-3).less_than(&Exact::whole(-2)));
    assert!(Exact::whole(i128::MIN).less_than(&Exact::whole(i128::MAX)));
    // The product of two negative numbers is positive.
    let four = Exact::whole(-2).times(&Exact::whole(-2));
    assert_eq!(four.floor(), 4);
    assert_eq!(Exact::quotient(7, 2).floor(), 3);
    assert_eq!(Exact::whole(-7).floor(), 0);
    assert_eq!(Exact::quotient(u128::MAX, 2).floor(), u64::MAX);
    assert_eq!(Exact::quotient(u64::MAX as u128 * 2 + 1, 2).floor(), u64::MAX);
    assert!(mean_of(&vec![]).is_none());
    let mean = mean_of(&vec![Exact::whole(1), Exact::whole(2)]).unwrap();
    assert_eq!(mean.times(&Exact::whole(10)).floor(), 15);
    assert_eq!(mean.clone().times(&Exact::whole(10)).floor(), 15);
    // Halves are rounded upwards.
    assert_eq!(mean.round(), 2);
    assert_eq!(Exact::quotient(149, 100).round(), 1);
    assert_eq!(Exact::quotient(0, 1).round(), 0);
}

#[test]
fn samples_after_a_time_leave_it_out() {
    let ts = first(10);
    assert_eq!(ts.sample_recent(at(6), at(10)), vec![10, 9, 8, 7]);
    assert_eq!(ts.sample_interval(at(6), at(10)), vec![10, 9, 8, 7, 6]);
    assert_eq!(ts.sample_recent(at(9), at(10)), vec![10]);
    assert_eq!(ts.sample_recent(at(10), at(10)), vec![]);
}

#[test]
fn variance_is_exact() {
    assert!(variance_in_range(&vec![1, 2, 3]));
    assert!(!variance_in_range(&vec![u64::MAX, u64::MAX]));
    assert_eq!(
        standard_deviation(&vec![1, 2, 3]),
        Some(Deviation { squared: Ratio { num: 6, den: 9 } })
    );
    assert_eq!(standard_deviation(&vec![]), None);
}

fn settled(values: &[u64], current: u64, tolerance: Fraction) -> bool {
    let values = values.iter().map(|v| Exact::whole(*v as i128)).collect();
    has_settled(&values, &Exact::whole(current as i128), &tolerance.exact())
}

#[test]
fn values_settle_within_the_tolerance() {
    let tolerance = Fraction { num: 5, den: 100 };
    // Constant values have no deviation at all.
    assert!(settled(&[100, 100, 100, 100], 100, tolerance));
    // A deviation of two is less than five.
    assert!(settled(&[98, 102, 98, 102], 100, tolerance));
    // A deviation of five is not.
    assert!(!settled(&[95, 105, 95, 105], 100, tolerance));
    // Nothing settles at zero, nor without values.
    assert!(!settled(&[0, 0, 0], 0, tolerance));
    assert!(!settled(&[], 100, tolerance));
    // However large the values are.
    assert!(settled(&[u64::MAX, u64::MAX], u64::MAX, tolerance));
    assert!(settled(&[u64::MAX / 100 * 96, u64::MAX], u64::MAX, tolerance));
    assert!(!settled(&[u64::MAX / 100 * 89, u64::MAX], u64::MAX, tolerance));
    let fine = Fraction { num: 50_000_000_000_000_000, den: 1_000_000_000_000_000_000 };
    assert!(settled(&[98, 102, 98, 102], 100, fine));
    assert!(!settled(&[95, 105, 95, 105], 100, fine));
    // The unit makes no difference.
    let thirds = |values: &[u128]| values.iter().map(|v| Exact::quotient(*v, 3)).collect();
    let current = Exact::quotient(100, 3);
    assert!(has_settled(&thirds(&[98, 102, 98, 102]), &current, &tolerance.exact()));
    assert!(!has_settled(&thirds(&[95, 105, 95, 105]), &current, &tolerance.exact()));
}

#[test]
fn wide_numbers_compare_past_machine_integers() {
    let zero = Wide::new(0);
    let one = Wide::new(1);
    let max = Wide::new(u128::MAX);
    assert!(zero.less_than(&one));
    assert!(!one.less_than(&one));
    assert!(!max.less_than(&one));
    // (n + 1)^2 is n^2 + 2n + 1.
    let next = max.plus(&one);
    let square = next.times(&next);
    let before = max.times(&max).plus(&max).plus(&max);
    assert!(before.less_than(&square));
    assert!(!square.less_than(&before));
    let same = before.plus(&one);
    assert!(!same.less_than(&square));
    assert!(!square.less_than(&same));
    assert!(!zero.times(&square).less_than(&zero));
}

#[test]
fn duration_since_saturates() {
    let a = Timestamp { nanos: 10 };
    let b = Timestamp { nanos: 4 };
    assert_eq!(a.duration_since(b), 6);
    assert_eq!(b.duration_since(a), 0);
    assert_eq!(b.elapsed(a), 6);
    assert_eq!((b + 6) - 6, b);
    assert_eq!(Timestamp::from_duration_micros(Timestamp { nanos: 5_000 }, 2).nanos, 7_000);
}
