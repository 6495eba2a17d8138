use blisp::ast::Interner;
use blisp::csv_save::{saved_table, table_dates_writable, SaveCell};
use blisp::io::{NULL_DATE, NULL_TIMESTAMP};
use blisp::value::{Column, Table};

#[test]
fn save_cells_per_column_kind() {
    let mut interner = Interner::new();
    let d = interner.intern("date");
    let t = interner.intern("ts");
    let x = interner.intern("px");
    let table = Table {
        columns: vec![
            (d, Column::Date(vec![18262, NULL_DATE])),
            (t, Column::Timestamp(vec![1577872800000000000, NULL_TIMESTAMP])),
            (x, Column::Numeric(vec!["1.5".to_string()])),
        ],
        row_count: 2,
    };
    assert!(table_dates_writable(&table));
    let s = saved_table(&table, &interner).unwrap();
    assert_eq!(s.headers, vec!["date", "ts", "px"]);
    assert_eq!(s.rows.len(), 2);
    assert_eq!(s.rows[0][0], SaveCell::Text("2020-01-01".to_string()));
    assert_eq!(s.rows[0][1], SaveCell::Text("2020-01-01 10:00:00".to_string()));
    assert_eq!(s.rows[0][2], SaveCell::Numeric(Some("1.5".to_string())));
    assert_eq!(s.rows[1][0], SaveCell::Text("NA".to_string()));
    assert_eq!(s.rows[1][1], SaveCell::Text("NA".to_string()));
    assert_eq!(s.rows[1][2], SaveCell::Numeric(None));
}

#[test]
fn save_empty_table_is_refused() {
    let interner = Interner::new();
    let table = Table::new();
    assert_eq!(
        saved_table(&table, &interner).unwrap_err(),
        "Cannot save empty table"
    );
}

#[test]
fn save_flags_unwritable_dates() {
    let mut interner = Interner::new();
    let d = interner.intern("date");
    let table = Table {
        columns: vec![(d, Column::Date(vec![i32::MAX]))],
        row_count: 1,
    };
    assert!(!table_dates_writable(&table));
}
