use blisp::ast::Interner;
use blisp::csv_table::{parse_csv, parse_csv_cols, records_loadable, table_from_records};
use blisp::io::{NULL_DATE, NULL_TIMESTAMP};
use blisp::value::{Column, Value};

fn strings(v: &[&str]) -> Vec<String> {
    v.iter().map(|s| s.to_string()).collect()
}

#[test]
fn test_parse_csv_simple() {
    let mut interner = Interner::new();
    let csv = "px;vol\n100.0;1000\n102.0;1200";

    let result = parse_csv(csv, &mut interner, None).unwrap().unwrap();

    if let Value::Table(table) = result {
        assert_eq!(table.row_count, 2);
        assert_eq!(table.columns.len(), 2);

        let names: Vec<String> = table
            .columns
            .iter()
            .map(|(sym, _)| interner.resolve(*sym).to_string())
            .collect();
        assert_eq!(names, vec!["px", "vol"]);
    } else {
        panic!("Expected Table");
    }
}

#[test]
fn test_parse_csv_header_trimming() {
    let mut interner = Interner::new();
    let csv = "ES2 Index ;SPY US Equity \n100.0;145.0\n102.0;146.0";

    let result = parse_csv(csv, &mut interner, None).unwrap().unwrap();

    if let Value::Table(table) = result {
        let names: Vec<String> = table
            .columns
            .iter()
            .map(|(sym, _)| interner.resolve(*sym).to_string())
            .collect();

        assert_eq!(names[0], "ES2 Index", "Trailing space should be trimmed");
        assert_eq!(names[1], "SPY US Equity", "Trailing space should be trimmed");

        assert!(table.get_column(interner.intern("ES2 Index")).is_some());
        assert!(table.get_column(interner.intern("SPY US Equity")).is_some());
    } else {
        panic!("Expected Table");
    }
}

#[test]
fn test_parse_csv_with_dates() {
    let mut interner = Interner::new();
    let csv = "date;px;vol\n2000-01-03;100.0;1000\n2000-01-10;102.0;1200\nNA;105.0;1300";
    let result = parse_csv(csv, &mut interner, None).unwrap().unwrap();
    if let Value::Table(table) = result {
        assert_eq!(table.row_count, 3);
        assert_eq!(table.columns.len(), 3);
        match table.get_column(interner.intern("date")).unwrap() {
            Column::Date(data) => {
                assert_eq!(data.len(), 3);
                assert!(data[0] > 0 && data[0] != NULL_DATE);
                assert!(data[1] > data[0]);
                assert_eq!(data[2], NULL_DATE);
            }
            _ => panic!("Date column should be Date type"),
        }
        match table.get_column(interner.intern("px")).unwrap() {
            Column::Numeric(cells) => assert_eq!(cells, &strings(&["100.0", "102.0", "105.0"])),
            _ => panic!("Expected numeric column"),
        }
    } else {
        panic!("Expected Table");
    }
}

#[test]
fn test_type_detection_with_leading_na() {
    let mut interner = Interner::new();
    let csv = "t;x\nNA;NA\n2000-01-01 12:00:00;1\n2000-01-02 00:00:00.5;N/A";
    let result = parse_csv(csv, &mut interner, None).unwrap().unwrap();
    if let Value::Table(table) = result {
        match &table.columns[0].1 {
            Column::Timestamp(v) => {
                assert_eq!(v[0], NULL_TIMESTAMP);
                assert_eq!(v[1], 946728000000000000);
                assert_eq!(v[2], 946771200500000000);
            }
            _ => panic!("Expected timestamp column"),
        }
        match &table.columns[1].1 {
            Column::Numeric(cells) => assert_eq!(cells, &strings(&["NA", "1", "N/A"])),
            _ => panic!("Expected numeric column"),
        }
    } else {
        panic!("Expected Table");
    }
}

#[test]
fn row_limit_and_empty_inputs() {
    let mut interner = Interner::new();
    let csv = "a;b\n1;2\n3;4\n5;6";
    match parse_csv(csv, &mut interner, Some(2)).unwrap().unwrap() {
        Value::Table(t) => assert_eq!(t.row_count, 2),
        _ => panic!("Expected Table"),
    }
    // a header without data rows: its columns, with no rows
    match parse_csv("a;b\n", &mut interner, None).unwrap().unwrap() {
        Value::Table(t) => {
            assert_eq!(t.row_count, 0);
            assert_eq!(t.columns.len(), 2);
            assert_eq!(interner.resolve(t.columns[1].0), "b");
        }
        _ => panic!("Expected Table"),
    }
    // a row limit of 0: the header's columns, with no rows
    match parse_csv(csv, &mut interner, Some(0)).unwrap().unwrap() {
        Value::Table(t) => {
            assert_eq!(t.row_count, 0);
            assert_eq!(t.columns.len(), 2);
            assert_eq!(t.columns[0].1, Column::Numeric(vec![]));
        }
        _ => panic!("Expected Table"),
    }
}

#[test]
fn records_with_errors_and_wrong_widths() {
    let mut interner = Interner::new();
    let headers = Ok(strings(&["a", "b"]));
    let mut records: Vec<Result<Vec<String>, String>> = Vec::new();
    for _ in 0..8 {
        records.push(Ok(strings(&["1", "2"])));
    }
    records.push(Ok(strings(&["1"])));
    assert!(records_loadable(&headers, &records, None));
    assert_eq!(
        table_from_records(headers.clone(), records.clone(), &mut interner, None),
        Err("CSV row has 1 columns, expected 2".to_string())
    );
    // a row limit stops the reading before the bad row
    assert!(table_from_records(headers.clone(), records.clone(), &mut interner, Some(8)).is_ok());

    let bad: Vec<Result<Vec<String>, String>> = vec![Err("boom".to_string())];
    assert_eq!(
        table_from_records(headers.clone(), bad, &mut interner, None),
        Err("Error reading CSV record: boom".to_string())
    );
    assert_eq!(
        table_from_records(Err("no header".to_string()), Vec::new(), &mut interner, None),
        Err("Error reading CSV headers: no header".to_string())
    );
    // a sampled row wider than the header is refused
    let wide: Vec<Result<Vec<String>, String>> = vec![Ok(strings(&["1", "2", "3"]))];
    assert!(!records_loadable(&headers, &wide, None));
}

#[test]
fn csv_reader_reports_ragged_rows() {
    let mut interner = Interner::new();
    let r = parse_csv("a;b\n1;2\n3", &mut interner, None).unwrap();
    assert!(r.is_err());
    assert!(r.unwrap_err().starts_with("Error reading CSV record: "));
}

fn col_names_of(interner: &Interner, v: &Value) -> Vec<String> {
    match v {
        Value::Table(t) => t.columns.iter().map(|(s, _)| interner.resolve(*s).to_string()).collect(),
        _ => panic!("Expected Table"),
    }
}

#[test]
fn csv_cols_in_requested_order() {
    let mut interner = Interner::new();
    let want = strings(&["c", "a"]);
    let v = parse_csv_cols("a;b;c\n1;2;3\n4;5;6", &want, &mut interner).unwrap().unwrap();
    assert_eq!(col_names_of(&interner, &v), want);
    if let Value::Table(t) = &v {
        assert_eq!(t.row_count, 2);
        assert_eq!(t.columns[0].1, Column::Numeric(strings(&["3", "6"])));
        assert_eq!(t.columns[1].1, Column::Numeric(strings(&["1", "4"])));
    }
}

#[test]
fn csv_cols_unknown_name_lists_header() {
    let mut interner = Interner::new();
    let want = strings(&["a", "x"]);
    let e = parse_csv_cols("a ; b;c\n1;2;3", &want, &mut interner).unwrap().unwrap_err();
    assert_eq!(e, "file-cols: column 'x' not found. Available: \"a\", \"b\", \"c\"");
}

#[test]
fn csv_cols_no_rows_gives_empty_table() {
    let mut interner = Interner::new();
    let want = strings(&["b"]);
    let v = parse_csv_cols("a;b\n", &want, &mut interner).unwrap().unwrap();
    if let Value::Table(t) = v {
        assert_eq!(t.columns.len(), 0);
        assert_eq!(t.row_count, 0);
    } else {
        panic!("Expected Table");
    }
}

#[test]
fn csv_cols_types_per_column() {
    let mut interner = Interner::new();
    let want = strings(&["v", "t", "d"]);
    let csv = "d;t;v\n2020-01-01;2020-01-01 10:00:00;1\nNA;NA;2";
    let v = parse_csv_cols(csv, &want, &mut interner).unwrap().unwrap();
    if let Value::Table(t) = v {
        assert_eq!(t.columns[0].1, Column::Numeric(strings(&["1", "2"])));
        assert_eq!(t.columns[1].1, Column::Timestamp(vec![1577872800000000000, NULL_TIMESTAMP]));
        assert_eq!(t.columns[2].1, Column::Date(vec![18262, NULL_DATE]));
    } else {
        panic!("Expected Table");
    }
}

#[test]
fn csv_cols_bad_record_is_an_error() {
    let mut interner = Interner::new();
    let want = strings(&["a"]);
    let e = parse_csv_cols("a;b\n1;2\n3\n", &want, &mut interner).unwrap().unwrap_err();
    assert!(e.starts_with("Error reading CSV record: "), "{}", e);
}
