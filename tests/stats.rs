use naive_matrix::error::BenchError;
use naive_matrix::stats::{mean, median, sort_samples, summarize, variance, Ratio};

fn value(r: Ratio) -> f64 {
    r.num as f64 / r.den as f64
}

#[test]
fn mean_of_one_to_four() {
    let r = mean(&vec![1, 2, 3, 4]).unwrap();
    assert_eq!(r, Ratio { num: 10, den: 4 });
    assert_eq!(value(r), 2.5);
}

#[test]
fn median_even_count() {
    let r = median(&vec![4, 1, 3, 2]).unwrap();
    assert_eq!(r, Ratio { num: 5, den: 2 });
    assert_eq!(value(r), 2.5);
}

#[test]
fn median_odd_count() {
    let r = median(&vec![3, 1, 2]).unwrap();
    assert_eq!(r, Ratio { num: 2, den: 1 });
    assert_eq!(value(r), 2.0);
}

#[test]
fn std_of_constant_is_zero() {
    let r = variance(&vec![2, 2, 2, 2]).unwrap();
    assert_eq!(r.num, 0);
    assert_eq!(value(r).sqrt(), 0.0);
}

#[test]
fn std_population_formula() {
    let r = variance(&vec![1, 2, 3, 4]).unwrap();
    assert_eq!(r, Ratio { num: 20, den: 16 });
    assert!((value(r).sqrt() - 1.25f64.sqrt()).abs() < 1e-12);
}

#[test]
fn empty_samples_fail_every_statistic() {
    let e: Vec<i64> = Vec::new();
    assert_eq!(mean(&e), Err(BenchError::EmptySample));
    assert_eq!(median(&e), Err(BenchError::EmptySample));
    assert_eq!(variance(&e), Err(BenchError::EmptySample));
    assert_eq!(summarize(&e), Err(BenchError::EmptySample));
}

#[test]
fn single_sample() {
    let s = summarize(&vec![-7]).unwrap();
    assert_eq!(s.mean, Ratio { num: -7, den: 1 });
    assert_eq!(s.median, Ratio { num: -7, den: 1 });
    assert_eq!(s.variance, Ratio { num: 0, den: 1 });
}

#[test]
fn extreme_samples() {
    let big = vec![i64::MAX, i64::MIN];
    assert_eq!(mean(&big).unwrap(), Ratio { num: -1, den: 2 });
    assert_eq!(median(&big).unwrap(), Ratio { num: -1, den: 2 });
    assert_eq!(variance(&vec![i64::MAX, i64::MAX]), Err(BenchError::AccumulatorOverflow));
    assert_eq!(summarize(&vec![i64::MAX, i64::MAX]), Err(BenchError::AccumulatorOverflow));
}

#[test]
fn sorting_keeps_duplicates() {
    assert_eq!(sort_samples(&vec![3, -1, 3, 0, -1]), vec![-1, -1, 0, 3, 3]);
}
