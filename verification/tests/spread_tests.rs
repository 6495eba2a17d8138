use blisp::spread::spread_plan;

fn names(ns: &[&str]) -> Vec<String> {
    ns.iter().map(|s| s.to_string()).collect()
}

#[test]
fn half_spread_takes_upper_pairs() {
    let (pairs, out) = spread_plan(&names(&["a", "b", "c"]), true).unwrap();
    assert_eq!(pairs, vec![(0, 1), (0, 2), (1, 2)]);
    assert_eq!(out, names(&["a\\b", "a\\c", "b\\c"]));
}

#[test]
fn full_spread_takes_every_ordered_pair() {
    let (pairs, out) = spread_plan(&names(&["a", "b", "c"]), false).unwrap();
    assert_eq!(pairs, vec![(0, 1), (0, 2), (1, 0), (1, 2), (2, 0), (2, 1)]);
    assert_eq!(out[2], "b\\a");
    assert_eq!(out.len(), 6);
}

#[test]
fn spread_needs_two_columns() {
    assert_eq!(
        spread_plan(&names(&["only"]), true),
        Err("xminus requires at least 2 columns (have 1)".to_string())
    );
}
