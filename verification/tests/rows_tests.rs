use blisp::align::{gather, IndexColumn};
use blisp::mask::{ActiveMask, MaskBits};
use blisp::rows::{eligible_rows, keep_rows, shift_obs_rows, shift_rows, weekend_rows};
use std::sync::Arc;

fn mask(v: &[u8]) -> ActiveMask {
    let b: Vec<bool> = v.iter().map(|&x| x != 0).collect();
    ActiveMask::from_bitvec(MaskBits::from_bools(&b), None)
}

#[test]
fn test_shift_ofs_kernel() {
    let data = [10.0, 20.0, 30.0, 40.0];
    let vals = gather(&data, &shift_rows(4, 1), f64::NAN);
    assert!(vals[0].is_nan());
    assert_eq!(vals[1], 10.0);
    assert_eq!(vals[2], 20.0);
    assert_eq!(vals[3], 30.0);
}

#[test]
fn test_shift_obs_kernel_with_mask() {
    let data = [10.0, 20.0, 30.0, 40.0];
    let m = mask(&[0, 1, 1, 0]);
    let vals = gather(&data, &shift_obs_rows(&m, 1, 4), f64::NAN);
    assert!(vals[0].is_nan());
    assert!(vals[1].is_nan());
    assert!(vals[2].is_nan());
    assert_eq!(vals[3], 10.0);
}

#[test]
fn test_shift_semantic_divergence() {
    let data = [10.0, 20.0, 30.0, 40.0];
    let ofs = gather(&data, &shift_rows(4, 1), f64::NAN);
    let obs = gather(&data, &shift_obs_rows(&mask(&[0, 1, 1, 0]), 1, 4), f64::NAN);
    assert_eq!(ofs[1], 10.0);
    assert!(obs[1].is_nan());
    assert_eq!(ofs[3], 30.0);
    assert_eq!(obs[3], 10.0);
    assert_ne!(ofs[3], obs[3]);
}

#[test]
fn test_shift_equivalence_clean() {
    let m = ActiveMask::empty(4);
    assert_eq!(shift_rows(4, 1), shift_obs_rows(&m, 1, 4));
    assert_eq!(shift_rows(4, 3), shift_obs_rows(&m, 3, 4));
}

#[test]
fn shifts_past_the_end_are_all_na() {
    assert_eq!(shift_rows(3, 5), vec![None, None, None]);
    assert_eq!(shift_rows(3, 0), vec![Some(0), Some(1), Some(2)]);
}

#[test]
fn eligible_rows_and_positions() {
    let (elig, pos) = eligible_rows(&mask(&[0, 1, 1, 0, 0]), 5);
    assert_eq!(elig, vec![0, 3, 4]);
    assert_eq!(pos, vec![0, -1, -1, 1, 2]);
    let (elig, pos) = eligible_rows(&mask(&[1, 0, 1]), 2);
    assert_eq!(elig, vec![1]);
    assert_eq!(pos, vec![-1, 0]);
}

#[test]
fn observation_shift_by_two() {
    let rows = shift_obs_rows(&mask(&[0, 1, 0, 0, 1, 0]), 2, 6);
    assert_eq!(rows, vec![None, None, None, Some(0), None, Some(2)]);
}

#[test]
fn keep_every_kth_row() {
    assert_eq!(keep_rows(5, 2), vec![Some(0), None, Some(2), None, Some(4)]);
    assert_eq!(keep_rows(3, 1), vec![Some(0), Some(1), Some(2)]);
}

#[test]
fn weekend_rows_by_calendar() {
    // 1970-01-01 was a Thursday: days 2 (Sat) and 3 (Sun) are the weekend
    let dates = IndexColumn::Date(Arc::new(vec![0, 1, 2, 3, 4, -1, -4]));
    assert_eq!(
        weekend_rows(&dates).unwrap(),
        vec![false, false, true, true, false, false, true]
    );
    // timestamps in nanoseconds: day 2 is a Saturday, day 1 a Friday, and the
    // last instant before the epoch is on Wednesday
    let day: i64 = 86_400_000_000_000;
    let ts = IndexColumn::Timestamp(Arc::new(vec![2 * day, day, 172_800_000, -1, -4 * day]));
    assert_eq!(weekend_rows(&ts).unwrap(), vec![true, false, false, false, true]);
    let names = IndexColumn::String(Arc::new(vec!["a".to_string()]));
    assert_eq!(
        weekend_rows(&names),
        Err("wkd requires Date or Timestamp index, got String".to_string())
    );
}
