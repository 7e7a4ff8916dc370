use timefunc::store::{Sample, TimeFunc, TimeFuncError};

fn series(points: &[(i64, i64)]) -> TimeFunc {
    let mut tf = TimeFunc::new();
    for &(t, v) in points {
        tf.push(Sample { t, v }).unwrap();
    }
    tf
}

#[test]
fn test_push_in_order() {
    let mut tf = TimeFunc::new();
    assert!(tf.push(Sample { t: 10, v: 1 }).is_ok());
    assert!(tf.push(Sample { t: 20, v: 2 }).is_ok());
    assert_eq!(tf.0.len(), 2);
    assert!(tf.verify().is_ok());
}

#[test]
fn test_push_out_of_order_rejected() {
    let mut tf = series(&[(0, 1), (60, 2)]);
    let before = tf.0.clone();
    let r = tf.push(Sample { t: 60, v: 3 });
    assert_eq!(r, Err(TimeFuncError::OutOfOrderInsert));
    let r = tf.push(Sample { t: 30, v: 3 });
    assert_eq!(r, Err(TimeFuncError::OutOfOrderInsert));
    assert_eq!(tf.0.len(), before.len());
    for (a, b) in tf.0.iter().zip(before.iter()) {
        assert_eq!(a, b);
    }
}

#[test]
fn test_verify_detects_disorder() {
    let tf = TimeFunc::from(vec![
        Sample { t: 60, v: 1 },
        Sample { t: 0, v: 2 },
    ]);
    assert_eq!(tf.verify(), Err(TimeFuncError::InvalidSeries));
}

#[test]
fn test_verify_detects_duplicates() {
    let tf = TimeFunc::from(vec![
        Sample { t: 0, v: 1 },
        Sample { t: 0, v: 2 },
    ]);
    assert_eq!(tf.verify(), Err(TimeFuncError::InvalidSeries));
}

#[test]
fn test_is_deduped() {
    let tf = TimeFunc::from(vec![
        Sample { t: 0, v: 1 },
        Sample { t: 0, v: 2 },
        Sample { t: 60, v: 3 },
    ]);
    assert!(!tf.is_deduped());
    let tf = series(&[(0, 1), (60, 2)]);
    assert!(tf.is_deduped());
}

#[test]
fn test_dedup_keeps_first_of_run() {
    let mut tf = TimeFunc::from(vec![
        Sample { t: 0, v: 1 },
        Sample { t: 0, v: 2 },
        Sample { t: 60, v: 3 },
        Sample { t: 60, v: 4 },
        Sample { t: 120, v: 5 },
    ]);
    tf.dedup();
    assert_eq!(tf.0.len(), 3);
    assert_eq!(tf.0[0], Sample { t: 0, v: 1 });
    assert_eq!(tf.0[1], Sample { t: 60, v: 3 });
    assert_eq!(tf.0[2], Sample { t: 120, v: 5 });
}

#[test]
fn test_repair_unordered_input() {
    let mut tf = TimeFunc::from(vec![
        Sample { t: 120, v: 3 },
        Sample { t: 0, v: 1 },
        Sample { t: 60, v: 2 },
        Sample { t: 0, v: 9 },
        Sample { t: 180, v: 4 },
    ]);
    assert!(tf.verify().is_err());
    tf.repair();
    assert!(tf.verify().is_ok());
    // one sample per distinct timestamp
    assert_eq!(tf.0.len(), 4);
    let ts: Vec<i64> = tf.0.iter().map(|s| s.t).collect();
    assert_eq!(ts, vec![0, 60, 120, 180]);
}

#[test]
fn test_domain_and_range() {
    let tf = series(&[(0, 5), (60, -3), (120, 7)]);
    assert_eq!(tf.get_domain(), (0, 120));
    assert_eq!(tf.get_range(), (-3, 7));
}

#[test]
fn test_get_index_variants() {
    let tf = series(&[(0, 1), (60, 2), (120, 3)]);
    assert_eq!(tf.get_index(60), Ok(1));
    assert_eq!(tf.get_index(30), Err(1));
    assert_eq!(tf.get_index(-5), Err(0));
    assert_eq!(tf.get_index(500), Err(3));
    assert_eq!(tf.get_index_safe(30), 1);
    assert_eq!(tf.get_index_safe(-5), 0);
    assert_eq!(tf.get_index_safe(500), 2);
    assert_eq!(tf.get_index_above(0), 1);
    assert_eq!(tf.get_index_above(30), 1);
    assert_eq!(tf.get_index_above(60), 2);
    assert_eq!(tf.get_index_below(30), 0);
    assert_eq!(tf.get_index_below(60), 0);
    assert_eq!(tf.get_index_below(120), 1);
}

#[test]
fn test_get_value_step() {
    let tf = series(&[(0, 1), (60, 2), (120, 3)]);
    assert_eq!(tf.get_value(60), 2);
    assert_eq!(tf.get_value(30), 2);
    assert_eq!(tf.get_value(-10), 1);
    assert_eq!(tf.get_value(500), 3);
}
