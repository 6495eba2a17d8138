use std::sync::Arc;

use blisp::ast::Interner;
use blisp::builtins::builtin_len;
use blisp::table_builtins::{
    builtin_col, builtin_cols, builtin_select, builtin_select_num, builtin_setcol, builtin_w, file_head_request,
    file_request, save_request, stdin_request,
};
use blisp::value::{Column, Table, Value};

fn numeric(cells: &[&str]) -> Column {
    Column::Numeric(cells.iter().map(|c| c.to_string()).collect())
}

fn cells(v: &Value) -> Vec<String> {
    match v {
        Value::Col(c) => match &**c {
            Column::Numeric(t) => t.clone(),
            other => panic!("Expected numeric column, got {:?}", other),
        },
        other => panic!("Expected Col result, got {:?}", other),
    }
}

fn px_vol(interner: &mut Interner) -> Value {
    let mut table = Table::new();
    let px_sym = interner.intern("px");
    let vol_sym = interner.intern("vol");
    table.add_column(px_sym, numeric(&["100", "102"]));
    table.add_column(vol_sym, numeric(&["1000", "1200"]));
    Value::Table(Arc::new(table))
}

#[test]
fn test_len_col() {
    let val = Value::Col(Arc::new(numeric(&["1", "2", "3"])));
    let result = builtin_len(&[val]).unwrap();
    assert_eq!(result, Value::Int(3));
}

#[test]
fn test_col_extraction() {
    let mut interner = Interner::new();
    let table_val = px_vol(&mut interner);
    let px_sym = interner.get("px").unwrap();
    let args = vec![table_val.clone(), Value::Sym(px_sym)];
    let result = builtin_col(&args, &interner).unwrap();
    if let Value::Col(col) = result {
        assert_eq!(col.len(), 2);
    } else {
        panic!("Expected Col result");
    }
}

#[test]
fn test_col_extraction_with_string() {
    let mut interner = Interner::new();
    let mut table = Table::new();
    let spy_sym = interner.intern("SPY US Equity");
    let es_sym = interner.intern("ES1 Index");
    table.add_column(spy_sym, numeric(&["145", "146"]));
    table.add_column(es_sym, numeric(&["1534", "1542"]));
    let table_val = Value::Table(Arc::new(table));

    let args = vec![table_val.clone(), Value::Str("SPY US Equity".into())];
    let result = builtin_col(&args, &interner).unwrap();
    assert_eq!(cells(&result), vec!["145", "146"]);

    let args = vec![table_val, Value::Str("ES1 Index".into())];
    let result = builtin_col(&args, &interner).unwrap();
    assert_eq!(cells(&result), vec!["1534", "1542"]);
}

#[test]
fn test_w_extraction() {
    let mut interner = Interner::new();
    let table_val = px_vol(&mut interner);
    let result = builtin_w(&[table_val.clone(), Value::Int(0)]).unwrap();
    if let Value::Col(col) = result {
        assert_eq!(col.len(), 2);
    } else {
        panic!("Expected Col result");
    }
    let result = builtin_w(&[table_val, Value::Int(1)]).unwrap();
    assert_eq!(cells(&result), vec!["1000", "1200"]);
}

#[test]
fn col_errors() {
    let mut interner = Interner::new();
    let table_val = px_vol(&mut interner);
    assert_eq!(
        builtin_col(&[table_val.clone()], &interner),
        Err("col expects 2 arguments (table colname), got 1".to_string())
    );
    assert_eq!(
        builtin_col(&[Value::Int(1), Value::Str("px".into())], &interner),
        Err("Expected table, got int".to_string())
    );
    assert_eq!(
        builtin_col(&[table_val.clone(), Value::Int(1)], &interner),
        Err("col expects symbol or string column name, got int".to_string())
    );
    assert_eq!(
        builtin_col(&[table_val, Value::Str("close".into())], &interner),
        Err("Column 'close' not found in table".to_string())
    );
}

#[test]
fn w_errors() {
    let mut interner = Interner::new();
    let table_val = px_vol(&mut interner);
    assert_eq!(
        builtin_w(&[table_val.clone(), Value::Int(2)]),
        Err("Column index 2 out of bounds (table has 2 columns)".to_string())
    );
    assert_eq!(
        builtin_w(&[table_val.clone(), Value::Str("0".into())]),
        Err("Expected int, got string".to_string())
    );
    assert_eq!(builtin_w(&[table_val]), Err("w expects 2 arguments (table index), got 1".to_string()));
}

#[test]
fn cols_lists_names_in_order() {
    let mut interner = Interner::new();
    let table_val = px_vol(&mut interner);
    let result = builtin_cols(&[table_val], &interner).unwrap();
    match result {
        Value::List(l) => {
            assert_eq!(*l, vec![Value::Str("px".into()), Value::Str("vol".into())]);
        },
        other => panic!("Expected List result, got {:?}", other),
    }
    assert_eq!(builtin_cols(&[Value::Nil], &interner), Err("Expected table, got nil".to_string()));
}

#[test]
fn select_keeps_named_columns_in_order() {
    let mut interner = Interner::new();
    let table_val = px_vol(&mut interner);
    let result = builtin_select(&[table_val.clone(), Value::Str("vol".into()), Value::Str("px".into())], &mut interner)
        .unwrap();
    match result {
        Value::Table(t) => {
            assert_eq!(t.columns.len(), 2);
            assert_eq!(interner.resolve(t.columns[0].0), "vol");
            assert_eq!(interner.resolve(t.columns[1].0), "px");
            assert_eq!(t.columns[0].1, numeric(&["1000", "1200"]));
            assert_eq!(t.row_count, 2);
        },
        other => panic!("Expected Table result, got {:?}", other),
    }
    assert_eq!(
        builtin_select(&[table_val.clone(), Value::Str("close".into())], &mut interner),
        Err("select: column 'close' not found".to_string())
    );
    assert_eq!(
        builtin_select(&[table_val.clone(), Value::Int(1)], &mut interner),
        Err("select: column names must be strings".to_string())
    );
    assert_eq!(
        builtin_select(&[table_val], &mut interner),
        Err("select expects at least 2 arguments (table + column names), got 1".to_string())
    );
}

#[test]
fn setcol_replaces_or_appends() {
    let mut interner = Interner::new();
    let table_val = px_vol(&mut interner);
    let new_col = Value::Col(Arc::new(numeric(&["1", "2"])));

    let replaced = builtin_setcol(&[table_val.clone(), Value::Str("px".into()), new_col.clone()], &mut interner)
        .unwrap();
    match replaced {
        Value::Table(t) => {
            assert_eq!(t.columns.len(), 2);
            assert_eq!(interner.resolve(t.columns[0].0), "px");
            assert_eq!(t.columns[0].1, numeric(&["1", "2"]));
            assert_eq!(t.columns[1].1, numeric(&["1000", "1200"]));
        },
        other => panic!("Expected Table result, got {:?}", other),
    }

    let appended = builtin_setcol(&[table_val.clone(), Value::Str("ret".into()), new_col], &mut interner)
        .unwrap();
    match appended {
        Value::Table(t) => {
            assert_eq!(t.columns.len(), 3);
            assert_eq!(interner.resolve(t.columns[2].0), "ret");
            assert_eq!(t.row_count, 2);
        },
        other => panic!("Expected Table result, got {:?}", other),
    }

    let short = Value::Col(Arc::new(numeric(&["1"])));
    assert_eq!(
        builtin_setcol(&[table_val.clone(), Value::Str("px".into()), short], &mut interner),
        Err("Column length mismatch: table has 2 rows, column has 1".to_string())
    );
    assert_eq!(
        builtin_setcol(&[table_val, Value::Str("px".into()), Value::Int(1)], &mut interner),
        Err("Expected column, got int".to_string())
    );
}

#[test]
fn io_builtin_arguments() {
    assert_eq!(file_request(&[Value::Str("a.csv".into())]), Ok("a.csv".to_string()));
    assert_eq!(file_request(&[Value::Int(1)]), Err("file expects string filename, got int".to_string()));
    assert_eq!(
        file_head_request(&[Value::Str("a.csv".into()), Value::Int(10)]),
        Ok(("a.csv".to_string(), 10))
    );
    assert_eq!(
        file_head_request(&[Value::Str("a.csv".into()), Value::Int(-1)]),
        Err("file-head expects non-negative row limit".to_string())
    );
    assert_eq!(stdin_request(&[]), Ok(()));
    assert_eq!(stdin_request(&[Value::Nil]), Err("stdin expects 0 arguments, got 1".to_string()));
    let table = Value::Table(Arc::new(Table::new()));
    assert!(save_request(&[Value::Str("out.csv".into()), table]).is_ok());
    assert_eq!(
        save_request(&[Value::Str("out.csv".into()), Value::Int(3)]),
        Err("save expects table or tableview, got int".to_string())
    );
}

#[test]
fn select_num_keeps_numeric_columns() {
    let mut interner = Interner::new();
    let mut table = Table::new();
    let d = interner.intern("date");
    let px = interner.intern("px");
    table.add_column(d, Column::Date(vec![19000, 19001]));
    table.add_column(px, numeric(&["1.5", "NA"]));
    let result = builtin_select_num(&[Value::Table(Arc::new(table))]).unwrap();
    match result {
        Value::Table(t) => {
            assert_eq!(t.columns.len(), 1);
            assert_eq!(t.columns[0].0, px);
            assert_eq!(t.row_count, 2);
        },
        other => panic!("Expected Table result, got {:?}", other),
    }
    assert_eq!(
        builtin_select_num(&[Value::Int(1)]),
        Err("Expected table, got int".to_string())
    );
}
