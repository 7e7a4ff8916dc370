use timefunc::ratio::Ratio;
use timefunc::store::{Sample, TimeFunc, TimeFuncError};

fn series(points: &[(i64, i64)]) -> TimeFunc {
    let mut tf = TimeFunc::new();
    for &(t, v) in points {
        tf.push(Sample { t, v }).unwrap();
    }
    tf
}

fn as_f64(r: Ratio) -> f64 {
    r.num as f64 / r.den as f64
}

#[test]
fn test_get_moving_average() {
    let start_time: i64 = 1600000000;
    let time_step: i64 = 60;
    let mut time_func = TimeFunc::new();
    time_func.push(Sample { t: start_time, v: 1 }).unwrap();
    time_func.push(Sample { t: start_time + time_step, v: 1 }).unwrap();
    time_func.push(Sample { t: start_time + time_step * 2, v: 1 }).unwrap();

    let av = time_func.get_moving_average(start_time + time_step * 2, time_step * 2);
    assert_eq!(as_f64(av), 1.0)
}

#[test]
fn test_get_fractional_index() {
    let start_time: i64 = 1600000000;
    let time_step: i64 = 60;
    let mut time_func = TimeFunc::new();
    time_func.push(Sample { t: start_time, v: 1 }).unwrap();
    time_func.push(Sample { t: start_time + time_step, v: 1 }).unwrap();
    time_func.push(Sample { t: start_time + time_step * 2, v: 1 }).unwrap();

    let fractional_index = time_func.get_fractional_index(start_time + time_step / 2).unwrap();
    assert_eq!(as_f64(fractional_index), 0.5);
    let fractional_index = time_func.get_fractional_index(start_time - time_step / 2);
    assert!(fractional_index.is_err());
}

#[test]
fn test_get_value_interpolated() {
    let start_time: i64 = 1600000000;
    let time_step: i64 = 60;
    let mut time_func = TimeFunc::new();
    time_func.push(Sample { t: start_time, v: 1 }).unwrap();
    time_func.push(Sample { t: start_time + time_step, v: 2 }).unwrap();
    time_func.push(Sample { t: start_time + time_step * 2, v: 1 }).unwrap();

    let value = time_func.get_value_interpolated(start_time + time_step / 2);
    assert_eq!(as_f64(value), 1.5);
}

#[test]
fn test_get_integral_interpolated() {
    let start_time: i64 = 1600000000;
    let time_step: i64 = 60;
    let mut time_func = TimeFunc::new();
    time_func.push(Sample { t: start_time, v: 1 }).unwrap();
    time_func.push(Sample { t: start_time + time_step, v: 2 }).unwrap();
    time_func.push(Sample { t: start_time + time_step * 2, v: 1 }).unwrap();

    let integral =
        time_func.get_integral_interpolated(start_time + time_step * 2, time_step * 2).unwrap();
    assert_eq!(as_f64(integral), 1.5 * 60.0 + 1.5 * 60.0);
}

#[test]
fn test_fractional_index_exact_hits() {
    let tf = series(&[(0, 1), (60, 1), (120, 1)]);
    for (i, t) in [0i64, 60, 120].iter().enumerate() {
        let f = tf.get_fractional_index(*t).unwrap();
        assert_eq!(f.num, i as i128);
        assert_eq!(f.den, 1);
    }
    assert_eq!(tf.get_fractional_index(-1), Err(TimeFuncError::OutOfRange));
    assert_eq!(tf.get_fractional_index(121), Err(TimeFuncError::OutOfRange));
    // midpoint between positions 1 and 2
    assert_eq!(as_f64(tf.get_fractional_index(90).unwrap()), 1.5);
}

#[test]
fn test_interpolated_hits_every_sample_exactly() {
    let points = [(0i64, 4i64), (60, -2), (150, 9), (151, 10)];
    let tf = series(&points);
    for &(t, v) in points.iter() {
        let r = tf.get_value_interpolated(t);
        assert_eq!(r.num, v as i128);
        assert_eq!(r.den, 1);
    }
}

#[test]
fn test_interpolated_extrapolates_constant() {
    let tf = series(&[(0, 3), (60, 9)]);
    assert_eq!(as_f64(tf.get_value_interpolated(-100)), 3.0);
    assert_eq!(as_f64(tf.get_value_interpolated(1000)), 9.0);
    assert_eq!(as_f64(tf.get_value_interpolated(0)), 3.0);
    assert_eq!(as_f64(tf.get_value_interpolated(40)), 7.0);
}

#[test]
fn test_average_interpolated() {
    let tf = series(&[(0, 1), (60, 2), (120, 1)]);
    let avg = tf.get_average_interpolated(120, 120).unwrap();
    assert_eq!(as_f64(avg), 1.5);
}

#[test]
fn test_integral_out_of_range() {
    let tf = series(&[(0, 1), (60, 2), (120, 1)]);
    // no sample strictly before the window end
    assert_eq!(tf.get_integral_interpolated(0, 60), Err(TimeFuncError::OutOfRange));
    // window start at or beyond the last sample
    assert_eq!(tf.get_integral_interpolated(200, 60), Err(TimeFuncError::OutOfRange));
}

#[test]
fn test_get_rms_flat_series_is_zero() {
    let tf = series(&[(0, 1), (60, 1), (120, 1)]);
    let rms = tf.get_rms(120, 120).unwrap();
    assert_eq!(rms.num, 0);
    assert_eq!(rms.den, 1000000);
}

#[test]
fn test_get_rms_symmetric_deviation() {
    let tf = series(&[(0, 1), (60, 3), (120, 1)]);
    // moving average over the whole window is 2; relative deviation is
    // 0.5 in magnitude on both intervals, so the RMS is exactly 0.5.
    let rms = tf.get_rms(120, 120).unwrap();
    assert_eq!(rms.num, 500000);
    assert_eq!(rms.den, 1000000);
}

#[test]
fn test_get_rms_short_history_is_zero() {
    let tf = series(&[(0, 5)]);
    let rms = tf.get_rms(60, 0).unwrap();
    assert_eq!(rms.num, 0);
    assert_eq!(rms.den, 1);
}

#[test]
fn test_get_rms_zero_average_fails() {
    let tf = series(&[(0, -1), (60, 1), (120, 1)]);
    // the step-weighted sum over [0, 120] is -1 * 60 + 1 * 60 == 0,
    // giving a zero average
    let r = tf.get_rms(120, 120);
    assert_eq!(r, Err(TimeFuncError::DivisionByZero));
}

#[test]
fn test_get_rms_overflow_on_tiny_average() {
    // the step-weighted sum over the window is exactly 1 over a span of
    // 20000000 seconds, so the scaled relative deviation of the first
    // sample is about 2e19 and its square exceeds the i128 range
    let tf = series(&[(0, 1048575), (1, -524287), (3, 0), (20000000, 7)]);
    assert_eq!(tf.get_rms(20000000, 20000000), Err(TimeFuncError::Overflow));
}

#[test]
fn test_get_inflation_exact() {
    let tf = series(&[(0, 100), (31536000, 110)]);
    let f = tf.get_inflation(31536000, 31536000).unwrap();
    // (100/110 - 1) * seconds_per_year / dt == -10/110
    assert_eq!(f.num, -10 * 31536000);
    assert_eq!(f.den, 110 * 31536000);
    assert!((as_f64(f) + 1.0 / 11.0).abs() < 1e-12);
}

#[test]
fn test_get_inflation_no_history_is_zero() {
    let tf = series(&[(60, 100)]);
    let f = tf.get_inflation(60, 0).unwrap();
    assert_eq!(f.num, 0);
    assert_eq!(f.den, 1);
}

#[test]
fn test_get_inflation_zero_value_fails() {
    let tf = series(&[(0, 100), (60, 0)]);
    assert_eq!(tf.get_inflation(60, 60), Err(TimeFuncError::DivisionByZero));
}

#[test]
fn test_get_inflation_interpolated_exact() {
    let tf = series(&[(0, 100), (120, 110)]);
    // interpolated value at 60 is 105, at 120 is 110
    let f = tf.get_inflation_interpolated(60, 120).unwrap();
    let expected = (105.0 / 110.0 - 1.0) * 31536000.0 / 60.0;
    assert!((as_f64(f) - expected).abs() < 1e-9);
}

#[test]
fn test_moving_average_weights_by_time() {
    // value 4 holds for 90 seconds, value 2 for 30 seconds
    let tf = series(&[(0, 4), (90, 2), (120, 2)]);
    let av = tf.get_moving_average(120, 120);
    // (4 * 90 + 2 * 30) / 120 == 3.5
    assert_eq!(as_f64(av), 3.5);
}

#[test]
fn test_rms_timefunc_lengths_and_values() {
    let tf = series(&[(0, 1), (60, 1), (120, 1), (180, 1)]);
    let df = tf.get_rms_timefunc(120).unwrap();
    assert_eq!(df.0.len(), 3);
    assert_eq!(df.0[0].t, 60);
    assert_eq!(df.0[1].t, 120);
    assert_eq!(df.0[2].t, 180);
    for p in &df.0 {
        assert_eq!(p.v.num, 0);
    }
}

#[test]
fn test_inflation_timefunc_flat_is_zero() {
    let tf = series(&[(0, 5), (60, 5), (120, 5)]);
    let df = tf.get_inflation_timefunc(60).unwrap();
    assert_eq!(df.0.len(), 2);
    for p in &df.0 {
        assert_eq!(p.v.num, 0);
    }
}

#[test]
fn test_inflation_interpolated_timefunc_runs() {
    let tf = series(&[(0, 100), (60, 110), (120, 121)]);
    let df = tf.get_inflation_interpolated_timefunc(60).unwrap();
    assert_eq!(df.0.len(), 2);
    for p in &df.0 {
        // value falls across each window, so the rate is negative
        assert!(as_f64(p.v) < 0.0);
    }
}
