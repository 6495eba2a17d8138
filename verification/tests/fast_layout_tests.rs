use blisp::fast_layout::{scan_fast_layout, FastLayout};
use blisp::io::NULL_DATE;

fn layout(csv: &[u8], sel: Option<&[String]>) -> Result<FastLayout, String> {
    scan_fast_layout(csv, sel)
}

/// The numbers of output column `j`, reading each cell's bytes; missing or NA cells give NaN.
fn column(csv: &[u8], l: &FastLayout, j: usize) -> Vec<f64> {
    l.cells
        .iter()
        .map(|row| match row[j] {
            Some((s, e)) => std::str::from_utf8(&csv[s..e])
                .unwrap()
                .trim()
                .parse::<f64>()
                .unwrap_or(f64::NAN),
            None => f64::NAN,
        })
        .collect()
}

fn names(v: &[&str]) -> Vec<String> {
    v.iter().map(|s| s.to_string()).collect()
}

#[test]
fn test_parse_csv_fast_simple() {
    let csv = b"DATE;px;vol\n2020-01-01;100.0;200\n2020-01-02;102.5;300\n";
    let l = layout(csv, None).unwrap();
    assert_eq!(l.cells.len(), 2);
    assert_eq!(l.output_names, names(&["px", "vol"]));
    assert!(l.first_col_is_date);
    assert_eq!(l.index_name, "DATE");
    assert_eq!(l.index_dates, vec![18262, 18263]);
    assert_eq!(column(csv, &l, 0), vec![100.0, 102.5]);
    assert_eq!(column(csv, &l, 1), vec![200.0, 300.0]);
}

#[test]
fn test_parse_csv_fast_with_na() {
    let csv = b"DATE;px;vol\n2020-01-01;100.0;200\n2020-01-02;NA;300\n";
    let l = layout(csv, None).unwrap();
    assert_eq!(l.cells.len(), 2);
    let px = column(csv, &l, 0);
    assert_eq!(px[0], 100.0);
    assert!(px[1].is_nan());
}

#[test]
fn test_projection_select_subset() {
    let csv = b"DATE;px;vol;beta\n2020-01-01;100.0;200;1.5\n2020-01-02;102.5;300;1.6\n";
    let selected = names(&["vol"]);
    let l = layout(csv, Some(&selected[..])).unwrap();
    assert_eq!(l.cells.len(), 2);
    assert_eq!(l.output_cols, vec![2]);
    assert_eq!(column(csv, &l, 0), vec![200.0, 300.0]);
}

#[test]
fn test_projection_preserves_order() {
    let csv = b"DATE;a;b;c\n2020-01-01;1;2;3\n";
    let selected = names(&["c", "a"]);
    let l = layout(csv, Some(&selected[..])).unwrap();
    assert_eq!(l.output_names, names(&["a", "c"]));
    assert_eq!(column(csv, &l, 0), vec![1.0]);
    assert_eq!(column(csv, &l, 1), vec![3.0]);
}

#[test]
fn test_projection_none_gives_all_columns() {
    let csv = b"DATE;px;vol\n2020-01-01;100.0;200\n";
    let l = layout(csv, None).unwrap();
    assert_eq!(l.output_cols.len(), 2);
}

#[test]
fn test_projection_unknown_column_errors() {
    let csv = b"DATE;px;vol\n2020-01-01;100.0;200\n";
    let selected = names(&["nonexistent"]);
    let e = layout(csv, Some(&selected[..])).err().unwrap();
    assert!(e.contains("not found"));
    assert_eq!(
        e,
        "file-fast-cols: column 'nonexistent' not found. Available: \"px\", \"vol\""
    );
}

#[test]
fn test_projection_full_matches_unprojected() {
    let csv = b"DATE;px;vol;beta\n2020-01-01;100.0;200;1.5\n2020-01-02;NA;300;1.6\n";
    let full = layout(csv, None).unwrap();
    let all_cols = names(&["px", "vol", "beta"]);
    let proj = layout(csv, Some(&all_cols[..])).unwrap();
    assert_eq!(full.output_cols, proj.output_cols);
    assert_eq!(full.cells, proj.cells);
    for j in 0..full.output_cols.len() {
        let a = column(csv, &full, j);
        let b = column(csv, &proj, j);
        for (x, y) in a.iter().zip(b.iter()) {
            assert_eq!(x.to_bits(), y.to_bits());
        }
    }
}

#[test]
fn fast_layout_one_column_is_an_error() {
    let e = layout(b"DATE\n2020-01-01\n", None).err().unwrap();
    assert_eq!(e, "file-fast: CSV must have at least 2 columns");
}

#[test]
fn fast_layout_text_index() {
    let csv = b"name;x\n alpha ;1\nbeta;2\n";
    let l = layout(csv, None).unwrap();
    assert!(!l.first_col_is_date);
    assert_eq!(l.index_name, "ROW");
    assert_eq!(l.index_strings, names(&["alpha", "beta"]));
    assert!(l.index_dates.is_empty());
    assert_eq!(l.output_names, names(&["name", "x"]));
    assert_eq!(column(csv, &l, 1), vec![1.0, 2.0]);
}

#[test]
fn fast_layout_short_rows_are_missing() {
    let csv = b"DATE;a;b\n2020-01-01;1\n\n2020-01-03;3;4";
    let l = layout(csv, None).unwrap();
    assert_eq!(l.cells.len(), 3);
    assert_eq!(l.cells[0][1], None);
    // a blank line has one empty field: a null date and no cells
    assert_eq!(l.index_dates, vec![18262, NULL_DATE, 18264]);
    assert_eq!(l.cells[1], vec![None, None]);
    assert_eq!(column(csv, &l, 1)[2], 4.0);
}

#[test]
fn fast_layout_last_row_drops_carriage_return() {
    let csv = b"DATE;a\n2020-01-01;1\r\n";
    let l = layout(csv, None).unwrap();
    assert_eq!(l.cells.len(), 1);
    assert_eq!(l.cells[0][0], Some((18, 19)));
}

#[test]
fn fast_layout_header_only_gives_no_rows() {
    let csv = b"DATE;px\n";
    let l = layout(csv, None).unwrap();
    assert_eq!(l.cells.len(), 0);
    assert!(l.first_col_is_date);
    assert_eq!(l.index_name, "DATE");
    assert!(l.index_dates.is_empty());
    let l = layout(b"a;b", None).unwrap();
    assert_eq!(l.cells.len(), 0);
}

#[test]
fn fast_layout_malformed_dates_are_null() {
    let l = layout(b"DATE;a\n2020-01-01;1\n    -  -  ;2\n2020-0:-01;3\n", None).unwrap();
    assert_eq!(l.index_dates, vec![18262, NULL_DATE, NULL_DATE]);
    let bad_selection = vec!["zz".to_string()];
    assert_eq!(
        scan_fast_layout(b"DATE;a\n2020-01-01;1\n    -  -  ;2\n", Some(&bad_selection[..])).err(),
        Some("file-fast-cols: column 'zz' not found. Available: \"a\"".to_string())
    );
}

#[test]
fn selection_order_and_repeats_do_not_matter() {
    let csv = b"DATE;a;b;c\n2020-01-01;1;2;3\n";
    let s1 = vec!["c".to_string(), "a".to_string()];
    let s2 = vec!["a".to_string(), "c".to_string(), "a".to_string()];
    let l1 = layout(csv, Some(&s1[..])).unwrap();
    let l2 = layout(csv, Some(&s2[..])).unwrap();
    assert_eq!(l1.output_cols, vec![1, 3]);
    assert_eq!(l1.output_cols, l2.output_cols);
    assert_eq!(l1.output_names, vec!["a".to_string(), "c".to_string()]);
}

#[test]
fn header_without_rows_accepts_any_selection_of_its_names() {
    let csv = b"a;b\n";
    let first = vec!["a".to_string()];
    let l = layout(csv, Some(&first[..])).unwrap();
    assert!(l.output_cols.is_empty());
    assert!(l.cells.is_empty());
    assert_eq!(l.index_name, "a");
    let both = vec!["b".to_string(), "a".to_string()];
    let l2 = layout(csv, Some(&both[..])).unwrap();
    let l3 = layout(csv, None).unwrap();
    assert_eq!(l2.output_cols, l3.output_cols);
    assert_eq!(l2.cells.len(), 0);
    // the header checks still apply
    assert!(layout(b"onlyone\n", None).is_err());
}
