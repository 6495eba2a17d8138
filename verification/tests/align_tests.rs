use blisp::align::{
    asofr_rows, asofr_rows_fallback, asofr_rows_sorted, gather, index_key_le, is_sorted,
    reindex_rows, IndexColumn, IndexKey,
};
use std::sync::Arc;

fn dates(v: &[i32]) -> IndexColumn {
    IndexColumn::Date(Arc::new(v.to_vec()))
}

fn names(v: &[&str]) -> IndexColumn {
    IndexColumn::String(Arc::new(v.iter().map(|s| s.to_string()).collect()))
}

fn values(x: &[f64], rows: &[Option<usize>]) -> Vec<f64> {
    gather(x, rows, f64::NAN)
}

#[test]
fn test_index_column_len() {
    let idx = dates(&[18000, 18001, 18002]);
    assert_eq!(idx.len(), 3);
    assert!(!idx.is_empty());
    assert!(dates(&[]).is_empty());
    assert_eq!(idx.get(1), Some(IndexKey::Date(18001)));
    assert_eq!(idx.get(3), None);
    let s = names(&["A"]);
    assert_eq!(s.get(0), Some(IndexKey::String("A".to_string())));
}

#[test]
fn index_keys_compare_within_one_kind() {
    assert!(index_key_le(&IndexKey::Date(1), &IndexKey::Date(2)));
    assert!(index_key_le(&IndexKey::Date(2), &IndexKey::Date(2)));
    assert!(!index_key_le(&IndexKey::Date(3), &IndexKey::Date(2)));
    assert!(!index_key_le(&IndexKey::Date(1), &IndexKey::Timestamp(2)));
    assert!(index_key_le(
        &IndexKey::String("AB".to_string()),
        &IndexKey::String("B".to_string())
    ));
    assert!(index_key_le(
        &IndexKey::String("A".to_string()),
        &IndexKey::String("AB".to_string())
    ));
    assert!(!index_key_le(
        &IndexKey::String("b".to_string()),
        &IndexKey::String("B".to_string())
    ));
}

#[test]
fn sortedness_of_indices() {
    assert!(is_sorted(&dates(&[1, 2, 2, 5])));
    assert!(!is_sorted(&dates(&[1, 3, 2])));
    assert!(is_sorted(&names(&["A", "AB", "B"])));
    assert!(!is_sorted(&names(&["B", "A"])));
    assert!(is_sorted(&dates(&[])));
}

#[test]
fn test_reindex_by_all_matching() {
    let rows = reindex_rows(&dates(&[18000, 18001, 18002]), &dates(&[18000, 18001, 18002]));
    assert_eq!(rows, vec![Some(0), Some(1), Some(2)]);
    assert_eq!(values(&[100.0, 101.0, 102.0], &rows), vec![100.0, 101.0, 102.0]);
}

#[test]
fn test_reindex_by_with_missing_rows() {
    let rows = reindex_rows(&dates(&[18000, 18002]), &dates(&[18000, 18001, 18002]));
    assert_eq!(rows, vec![Some(0), None, Some(1)]);
    let v = values(&[100.0, 102.0], &rows);
    assert_eq!(v[0], 100.0);
    assert!(v[1].is_nan());
    assert_eq!(v[2], 102.0);
}

#[test]
fn test_reindex_by_reordering() {
    let rows = reindex_rows(&dates(&[18002, 18000, 18001]), &dates(&[18000, 18001, 18002]));
    assert_eq!(values(&[102.0, 100.0, 101.0], &rows), vec![100.0, 101.0, 102.0]);
}

#[test]
fn test_reindex_by_semantics_right_outer_join() {
    let rows = reindex_rows(&names(&["A", "C"]), &names(&["A", "B", "C", "D"]));
    assert_eq!(rows, vec![Some(0), None, Some(1), None]);
    let v = values(&[1.0, 3.0], &rows);
    assert_eq!(v.len(), 4);
    assert_eq!(v[0], 1.0);
    assert!(v[1].is_nan());
    assert_eq!(v[2], 3.0);
    assert!(v[3].is_nan());
}

#[test]
fn reindex_takes_last_duplicate_and_ignores_other_kinds() {
    assert_eq!(reindex_rows(&dates(&[5, 7, 5]), &dates(&[5, 7])), vec![Some(2), Some(1)]);
    assert_eq!(reindex_rows(&names(&["x", "y", "x"]), &names(&["x"])), vec![Some(2)]);
    let ts = IndexColumn::Timestamp(Arc::new(vec![5, 7]));
    assert_eq!(reindex_rows(&dates(&[5, 7]), &ts), vec![None, None]);
}

#[test]
fn property_mapr_idempotence() {
    let x = dates(&[18000, 18002]);
    let y = dates(&[18000, 18001, 18002]);
    let once = reindex_rows(&x, &y);
    let again = reindex_rows(&y, &y);
    let twice: Vec<Option<usize>> =
        again.iter().map(|r| r.and_then(|j| once[j])).collect();
    assert_eq!(once, twice);
}

#[test]
fn property_mapr_identity_when_indices_match() {
    let idx = dates(&[18000, 18001, 18002]);
    assert_eq!(reindex_rows(&idx, &idx), vec![Some(0), Some(1), Some(2)]);
}

#[test]
fn property_mapr_monotonicity() {
    let rows = reindex_rows(&dates(&[18000]), &dates(&[17999, 18000, 18001, 18002, 18003]));
    assert_eq!(rows.len(), 5);
}

#[test]
fn property_no_forward_looking_bias() {
    let rows = reindex_rows(&dates(&[18000, 18002]), &dates(&[18000, 18001, 18002, 18003]));
    let v = values(&[100.0, 102.0], &rows);
    assert_eq!(v[0], 100.0);
    assert!(v[1].is_nan());
    assert_eq!(v[2], 102.0);
    assert!(v[3].is_nan());
}

#[test]
fn property_asofr_identity_when_indices_match() {
    let idx = dates(&[18000, 18001, 18002]);
    assert_eq!(asofr_rows(&idx, &idx), reindex_rows(&idx, &idx));
    let dup = dates(&[3, 1, 3, 2]);
    assert_eq!(asofr_rows(&dup, &dup), reindex_rows(&dup, &dup));
}

#[test]
fn property_asofr_no_forward_looking_bias() {
    let x = dates(&[18000, 18005]);
    let y = dates(&[18000, 18001, 18002, 18003, 18004, 18005, 18006]);
    let v = values(&[100.0, 999.0], &asofr_rows(&x, &y));
    assert_eq!(v, vec![100.0, 100.0, 100.0, 100.0, 100.0, 999.0, 999.0]);
}

#[test]
fn property_asofr_monotonicity() {
    let x = dates(&[18000, 18002, 18005]);
    let y = dates(&[18000, 18001, 18002, 18003, 18004, 18005]);
    let v = values(&[100.0, 102.0, 105.0], &asofr_rows(&x, &y));
    assert_eq!(v, vec![100.0, 100.0, 102.0, 102.0, 102.0, 105.0]);
}

#[test]
fn property_asofr_idempotence() {
    let x = dates(&[18000, 18002]);
    let y = dates(&[18000, 18001, 18002, 18003]);
    let once = asofr_rows(&x, &y);
    let again = asofr_rows(&y, &y);
    let twice: Vec<Option<usize>> =
        again.iter().map(|r| r.and_then(|j| once[j])).collect();
    assert_eq!(once, twice);
}

#[test]
fn property_asofr_equivalence_to_naive() {
    let x = dates(&[18000, 18001, 18003, 18003, 18005]);
    let y = dates(&[17999, 18000, 18002, 18003, 18004, 18006]);
    let fast = asofr_rows_sorted(&x, &y);
    let naive = asofr_rows_fallback(&x, &y);
    assert_eq!(fast, naive);
    assert_eq!(fast, vec![None, Some(0), Some(1), Some(3), Some(3), Some(4)]);
}

#[test]
fn test_asofr_basic_carry_forward() {
    let x = dates(&[18000, 18003]);
    let y = dates(&[18000, 18001, 18002, 18003, 18004]);
    let v = values(&[100.0, 103.0], &asofr_rows(&x, &y));
    assert_eq!(v, vec![100.0, 100.0, 100.0, 103.0, 103.0]);
}

#[test]
fn test_asofr_no_past_values() {
    let x = dates(&[18005, 18006]);
    let y = dates(&[18000, 18001, 18002, 18005]);
    let v = values(&[105.0, 106.0], &asofr_rows(&x, &y));
    assert!(v[0].is_nan());
    assert!(v[1].is_nan());
    assert!(v[2].is_nan());
    assert_eq!(v[3], 105.0);
}

#[test]
fn asofr_unsorted_inputs_use_the_scan() {
    let x = dates(&[18003, 18000, 18003]);
    let y = dates(&[18004, 17999, 18001]);
    assert_eq!(asofr_rows(&x, &y), vec![Some(2), None, Some(1)]);
    let xs = names(&["b", "a", "c"]);
    let ys = names(&["bb", "a"]);
    assert_eq!(asofr_rows(&xs, &ys), vec![Some(0), Some(1)]);
    let ts = IndexColumn::Timestamp(Arc::new(vec![1, 2]));
    assert_eq!(asofr_rows(&ts, &dates(&[5])), vec![None]);
}

#[test]
fn gather_out_of_range_rows_are_na() {
    assert_eq!(gather(&[1u32, 2, 3], &[Some(2), None, Some(7), Some(0)], 0), vec![3, 0, 0, 1]);
}
