use blisp::align::IndexColumn;
use blisp::mask::{
    compile_mask_expr, or_active_masks, reindex_active_mask, reindex_maskset, reindex_row_mask,
    ActiveMask, MaskBits, MaskExpr, MaskSet,
};
use std::sync::Arc;

fn bits(v: &[u8]) -> MaskBits {
    let b: Vec<bool> = v.iter().map(|&x| x != 0).collect();
    MaskBits::from_bools(&b)
}

fn bools(m: &MaskBits) -> Vec<u8> {
    m.to_bools().iter().map(|&b| b as u8).collect()
}

#[test]
fn test_empty_active_mask() {
    let mask = ActiveMask::empty(10);
    assert_eq!(mask.compiled.to_bools().len(), 10);
    assert_eq!(mask.count_masked(), 0);
    assert_eq!(mask.count_unmasked(), 10);
}

#[test]
fn test_mask_set_insert() {
    let mut masks = MaskSet::new();
    let weekend = Arc::new(bits(&[0, 0, 0, 0, 0, 1, 1]));
    masks.insert("weekend".to_string(), weekend, 7).unwrap();
    assert!(masks.contains("weekend"));
}

#[test]
fn test_compile_mask_name() {
    let mut masks = MaskSet::new();
    let weekend = Arc::new(bits(&[0, 0, 0, 0, 0, 1, 1]));
    masks.insert("weekend".to_string(), weekend, 7).unwrap();

    let expr = MaskExpr::Name("weekend".to_string());
    let compiled = compile_mask_expr(&expr, &masks, 7).unwrap();
    assert_eq!(bools(&compiled), vec![0, 0, 0, 0, 0, 1, 1]);
}

#[test]
fn test_compile_mask_not() {
    let mut masks = MaskSet::new();
    let weekend = Arc::new(bits(&[0, 0, 0, 0, 0, 1, 1]));
    masks.insert("weekend".to_string(), weekend, 7).unwrap();

    let expr = MaskExpr::Not(Box::new(MaskExpr::Name("weekend".to_string())));
    let compiled = compile_mask_expr(&expr, &masks, 7).unwrap();
    assert_eq!(bools(&compiled), vec![1, 1, 1, 1, 1, 0, 0]);
}

#[test]
fn test_compile_mask_or() {
    let mut masks = MaskSet::new();
    let weekend = Arc::new(bits(&[0, 0, 0, 0, 0, 1, 1]));
    let holiday = Arc::new(bits(&[0, 1, 0, 0, 0, 0, 0]));
    masks.insert("weekend".to_string(), weekend, 7).unwrap();
    masks.insert("holiday".to_string(), holiday, 7).unwrap();

    let expr = MaskExpr::Or(vec![
        MaskExpr::Name("weekend".to_string()),
        MaskExpr::Name("holiday".to_string()),
    ]);
    let compiled = compile_mask_expr(&expr, &masks, 7).unwrap();
    assert_eq!(bools(&compiled), vec![0, 1, 0, 0, 0, 1, 1]);
}

#[test]
fn mask_set_keeps_names_in_order_and_reports_errors() {
    let mut masks = MaskSet::new();
    masks.insert("weekend".to_string(), Arc::new(bits(&[0, 1])), 2).unwrap();
    masks.insert("holiday".to_string(), Arc::new(bits(&[1, 0])), 2).unwrap();
    let names: Vec<&str> = masks.row_masks.iter().map(|(n, _)| n.as_str()).collect();
    assert_eq!(names, vec!["holiday", "weekend"]);
    assert_eq!(
        masks.insert("x".to_string(), Arc::new(bits(&[1])), 2),
        Err("Mask 'x' length 1 doesn't match expected 2".to_string())
    );
    assert_eq!(
        masks.insert("weekend".to_string(), Arc::new(bits(&[1, 1])), 2),
        Err("Mask 'weekend' collision: different bitsets with same name".to_string())
    );
    // same bits under the same name is accepted
    assert!(masks.insert("weekend".to_string(), Arc::new(bits(&[0, 1])), 2).is_ok());
    assert_eq!(bools(masks.get("weekend").unwrap()), vec![0, 1]);
    assert!(masks.get("nope").is_none());
}

#[test]
fn merge_adds_new_names_and_stops_on_collision() {
    let mut a = MaskSet::new();
    a.insert("b".to_string(), Arc::new(bits(&[1, 0])), 2).unwrap();
    let mut other = MaskSet::new();
    other.insert("a".to_string(), Arc::new(bits(&[0, 0])), 2).unwrap();
    other.insert("b".to_string(), Arc::new(bits(&[1, 0])), 2).unwrap();
    other.insert("c".to_string(), Arc::new(bits(&[1, 1])), 2).unwrap();
    assert!(a.merge(&other).is_ok());
    assert!(a.contains("a") && a.contains("b") && a.contains("c"));

    let mut clash = MaskSet::new();
    clash.insert("c".to_string(), Arc::new(bits(&[0, 0])), 2).unwrap();
    clash.insert("d".to_string(), Arc::new(bits(&[0, 1])), 2).unwrap();
    let r = a.merge(&clash);
    assert_eq!(r, Err("Mask 'c' collision: different bitsets with same name".to_string()));
    assert!(!a.contains("d"));
}

#[test]
fn compile_errors_and_empty_compositions() {
    let masks = MaskSet::new();
    let missing = compile_mask_expr(&MaskExpr::Name("weekend".to_string()), &masks, 3);
    assert_eq!(missing.err(), Some("Mask 'weekend' not found".to_string()));
    let empty_and = compile_mask_expr(&MaskExpr::And(vec![]), &masks, 3).unwrap();
    assert_eq!(bools(&empty_and), vec![0, 0, 0]);
    let empty_or = compile_mask_expr(&MaskExpr::Or(vec![]), &masks, 2).unwrap();
    assert_eq!(bools(&empty_or), vec![0, 0]);
}

#[test]
fn compile_and_of_masks() {
    let mut masks = MaskSet::new();
    masks.insert("x".to_string(), Arc::new(bits(&[1, 1, 0])), 3).unwrap();
    masks.insert("y".to_string(), Arc::new(bits(&[0, 1, 1])), 3).unwrap();
    let expr = MaskExpr::And(vec![
        MaskExpr::Name("x".to_string()),
        MaskExpr::Name("y".to_string()),
    ]);
    assert_eq!(bools(&compile_mask_expr(&expr, &masks, 3).unwrap()), vec![0, 1, 0]);
}

#[test]
fn or_of_active_masks_joins_expressions() {
    let a = ActiveMask::from_bitvec(bits(&[1, 0, 0]), Some(MaskExpr::Name("a".to_string())));
    let b = ActiveMask::from_bitvec(bits(&[0, 0, 1]), Some(MaskExpr::Name("b".to_string())));
    let r = or_active_masks(&a, &b);
    assert_eq!(bools(&r.compiled), vec![1, 0, 1]);
    assert_eq!(
        r.expr,
        Some(MaskExpr::Or(vec![
            MaskExpr::Name("a".to_string()),
            MaskExpr::Name("b".to_string())
        ]))
    );
    let plain = ActiveMask::from_bitvec(bits(&[0, 1, 0]), None);
    assert_eq!(or_active_masks(&plain, &a).expr, Some(MaskExpr::Name("a".to_string())));
    assert_eq!(or_active_masks(&plain, &plain).expr, None);
    assert!(plain.is_masked(1));
    assert!(!plain.is_masked(0));
}

#[test]
fn masks_follow_rows_when_reindexed() {
    let old = IndexColumn::Date(Arc::new(vec![1, 2, 3]));
    let new = IndexColumn::Date(Arc::new(vec![3, 4, 1]));
    let m = bits(&[1, 0, 1]);
    assert_eq!(bools(&reindex_row_mask(&m, &old, &new)), vec![1, 0, 1]);

    let mut set = MaskSet::new();
    set.insert("w".to_string(), Arc::new(bits(&[0, 1, 1])), 3).unwrap();
    let moved = reindex_maskset(&set, &old, &new);
    assert_eq!(bools(moved.get("w").unwrap()), vec![1, 0, 0]);

    let active = ActiveMask::from_bitvec(bits(&[0, 1, 1]), Some(MaskExpr::Name("w".to_string())));
    let moved_active = reindex_active_mask(&active, &moved, &old, &new);
    assert_eq!(bools(&moved_active.compiled), vec![1, 0, 0]);
    assert_eq!(moved_active.expr, Some(MaskExpr::Name("w".to_string())));

    let lost = ActiveMask::from_bitvec(bits(&[0, 1, 1]), Some(MaskExpr::Name("gone".to_string())));
    let fallback = reindex_active_mask(&lost, &moved, &old, &new);
    assert_eq!(bools(&fallback.compiled), vec![0, 0, 0]);

    let bare = ActiveMask::from_bitvec(bits(&[0, 1, 1]), None);
    assert_eq!(bools(&reindex_active_mask(&bare, &moved, &old, &new).compiled), vec![1, 0, 0]);
}
