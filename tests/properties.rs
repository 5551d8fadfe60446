use rolling_norm::{Ratio, Series, Surd};

fn batch_mean_var(v: &[i32]) -> (f64, f64) {
    let n = v.len() as f64;
    let mean = v.iter().map(|&x| x as f64).sum::<f64>() / n;
    let var = v.iter().map(|&x| (x as f64 - mean) * (x as f64 - mean)).sum::<f64>() / n;
    (mean, var)
}

fn ratio(r: Ratio) -> f64 {
    r.num as f64 / r.den as f64
}

#[test]
fn exact_values_of_a_full_window() {
    let s = Series::from([2, 4, 6]);
    assert_eq!(s.curr(), 6);
    assert_eq!(s.sum(), 12);
    assert_eq!(s.mean(), Ratio { num: 12, den: 3 });
    // 3 * (4 + 16 + 36) - 12^2 = 24, and 24 / 9 = 8 / 3
    assert_eq!(s.var(), Ratio { num: 24, den: 9 });
    assert_eq!(s.stdev(), Surd { coef: 1, radicand: 24, den: 3 });
    // (3 * 6 - 12) * sqrt(24) / 24
    assert_eq!(s.norm(), Surd { coef: 6, radicand: 24, den: 24 });
}

#[test]
fn new_window_is_all_zero() {
    let s = Series::<4>::new();
    assert_eq!(s.curr(), 0);
    assert_eq!(s.sum(), 0);
    assert_eq!(s.mean(), Ratio { num: 0, den: 4 });
    assert_eq!(s.var(), Ratio { num: 0, den: 16 });
    assert_eq!(s.norm(), Surd { coef: 0, radicand: 0, den: 1 });
    for i in 0..4 {
        assert_eq!(s.index(i), 0);
    }
}

#[test]
fn incremental_matches_batch() {
    let v = [7, -3, 12, 0, 5];
    let batch = Series::from(v);
    let mut inc = Series::<5>::new();
    for x in v {
        inc.insert(x);
    }
    assert_eq!(inc.sum(), batch.sum());
    assert_eq!(inc.mean(), batch.mean());
    assert_eq!(inc.var(), batch.var());
    assert_eq!(inc.stdev(), batch.stdev());
    assert_eq!(inc.norm(), batch.norm());
    for i in 0..5 {
        assert_eq!(inc.index(i), batch.index(i));
    }
}

#[test]
fn sliding_matches_last_values() {
    let stream = [3, 1, 4, 1, 5, 9, 2, 6, 5, 3, 5, 8, 9, 7, 9, -32, 38, 4, 6, 2];
    let mut s = Series::<4>::new();
    for (k, &x) in stream.iter().enumerate() {
        s.insert(x);
        if k + 1 >= 4 {
            let last = &stream[k + 1 - 4..k + 1];
            let (mean, var) = batch_mean_var(last);
            assert!((ratio(s.mean()) - mean).abs() < 1e-9);
            assert!((ratio(s.var()) - var).abs() < 1e-9);
            assert_eq!(s.sum(), last.iter().map(|&x| x as i128).sum::<i128>());
        }
    }
}

#[test]
fn constant_window_has_zero_spread() {
    let mut s = Series::from([1, 2, 3]);
    s.insert(-5);
    s.insert(-5);
    s.insert(-5);
    assert_eq!(s.var().num, 0);
    assert_eq!(s.stdev().radicand, 0);
    assert_eq!(s.norm(), Surd { coef: 0, radicand: 0, den: 1 });
}

#[test]
fn history_order_after_three_inserts() {
    let mut s = Series::from([10, 20, 30]);
    s.insert(-1);
    s.insert(-2);
    s.insert(-3);
    assert_eq!(s.index(0), -3);
    assert_eq!(s.index(1), -2);
    assert_eq!(s.index(2), -1);
}

#[test]
fn index_past_the_window_is_refused() {
    let s = Series::from([1, 2, 3]);
    assert_eq!(s.get(2), Some(1));
    assert_eq!(s.get(3), None);
    assert_eq!(s.get(usize::MAX), None);
}

#[test]
fn insert_evicts_the_oldest() {
    let mut s = Series::from([1, 2, 3]);
    s.insert(3);
    assert_eq!(s.index(0), 3);
    assert_eq!(s.index(1), 3);
    assert_eq!(s.index(2), 2);
    assert_eq!(s.sum(), 8);
}

#[test]
fn sum_after_many_insertions() {
    let mut s = Series::<3>::new();
    for x in 1..=100 {
        s.insert(x);
    }
    assert_eq!(s.sum(), 98 + 99 + 100);
    assert_eq!(s.mean(), Ratio { num: 297, den: 3 });
}

#[test]
fn extreme_values_do_not_overflow() {
    let mut s = Series::from([i32::MIN, i32::MAX, i32::MIN, i32::MAX]);
    assert_eq!(s.sum(), -2);
    s.insert(i32::MIN);
    s.insert(i32::MAX);
    assert_eq!(s.sum(), -2);
    let fresh = Series::from([i32::MIN, i32::MAX, i32::MIN, i32::MAX]);
    assert_eq!(s.var(), fresh.var());
    assert!(s.var().num > 0);
}

#[test]
fn single_slot_window() {
    let mut s = Series::<1>::new();
    s.insert(42);
    assert_eq!(s.curr(), 42);
    assert_eq!(s.index(0), 42);
    assert_eq!(s.mean(), Ratio { num: 42, den: 1 });
    assert_eq!(s.var(), Ratio { num: 0, den: 1 });
    assert_eq!(s.norm(), Surd { coef: 0, radicand: 0, den: 1 });
}

#[test]
fn norm_is_signed_distance_in_stdevs() {
    let s = Series::from([10, 0, 0, 0, -10]);
    let z = s.norm();
    // (5 * -10 - 0) * sqrt(1000) / 1000 = -sqrt(2.5)
    assert_eq!(z, Surd { coef: -50, radicand: 1000, den: 1000 });
    let f = z.coef as f64 * (z.radicand as f64).sqrt() / z.den as f64;
    assert!((f + 2.5f64.sqrt()).abs() < 1e-9);
}

#[test]
fn curr_is_index_zero_and_insert_shifts_history() {
    let mut s = Series::from([5, 6, 7, 8]);
    for x in [11, -4, 9, 0, 3] {
        let before = [s.index(0), s.index(1), s.index(2)];
        s.insert(x);
        assert_eq!(s.curr(), x);
        assert_eq!(s.index(0), x);
        assert_eq!([s.index(1), s.index(2), s.index(3)], before);
    }
}
