use blisp::ast::SymbolId;
use blisp::builtins::{
    builtin_abs, builtin_add, builtin_len, builtin_mul, builtin_sub, builtin_type_of, register_builtins, Builtin,
};
use blisp::value::Value;

#[test]
fn test_add_scalars() {
    let args = vec![Value::Int(1), Value::Int(2)];
    let result = builtin_add(&args).unwrap();
    assert_eq!(result, Value::Int(3));
}

#[test]
fn test_mul_scalars() {
    let args = vec![Value::Int(3), Value::Int(4)];
    let result = builtin_mul(&args).unwrap();
    assert_eq!(result, Value::Int(12));
}

#[test]
fn test_type_of() {
    let result = builtin_type_of(&[Value::Int(42)]).unwrap();
    assert_eq!(result, Value::Str("int".into()));
}

#[test]
fn integer_abs_and_sub() {
    assert_eq!(builtin_abs(&[Value::Int(-5)]).unwrap(), Value::Int(5));
    assert_eq!(builtin_abs(&[Value::Int(7)]).unwrap(), Value::Int(7));
    assert_eq!(builtin_sub(&[Value::Int(3), Value::Int(10)]).unwrap(), Value::Int(-7));
}

#[test]
fn builtin_errors_name_arity_and_kinds() {
    assert_eq!(builtin_add(&[Value::Int(1)]), Err("+ expects 2 arguments, got 1".to_string()));
    assert_eq!(
        builtin_add(&[Value::Int(1), Value::Str("x".into())]),
        Err("+ cannot add int and string".to_string())
    );
    assert_eq!(
        builtin_sub(&[Value::Nil, Value::Bool(true)]),
        Err("- cannot subtract nil and bool".to_string())
    );
    assert_eq!(
        builtin_mul(&[Value::Sym(SymbolId(0)), Value::Int(2)]),
        Err("* cannot multiply symbol and int".to_string())
    );
    assert_eq!(builtin_abs(&[]), Err("abs expects 1 argument, got 0".to_string()));
    assert_eq!(
        builtin_abs(&[Value::Str("a".into())]),
        Err("abs cannot operate on string".to_string())
    );
    assert_eq!(
        builtin_type_of(&[Value::Nil, Value::Nil]),
        Err("type-of expects 1 argument, got 2".to_string())
    );
}

#[test]
fn string_length_in_bytes() {
    assert_eq!(builtin_len(&[Value::Str("abc".into())]).unwrap(), Value::Int(3));
    assert_eq!(builtin_len(&[Value::Str("\u{e9}".into())]).unwrap(), Value::Int(2));
    assert_eq!(builtin_len(&[Value::Int(3)]), Err("len cannot get length of int".to_string()));
    assert_eq!(builtin_type_of(&[Value::Str("s".into())]).unwrap(), Value::Str("string".into()));
}

#[test]
fn registry_lists_every_builtin_once_in_order() {
    let mut entries: Vec<(String, Builtin)> = Vec::new();
    register_builtins(&mut entries);
    let names: Vec<String> = entries.iter().map(|e| e.0.clone()).collect();
    assert_eq!(names.len(), 53);
    assert_eq!(&names[..4], &["+", "-", "*", "/"]);
    assert_eq!(names.last().map(|s| s.as_str()), Some("len"));
    let mut sorted = names.clone();
    sorted.sort();
    sorted.dedup();
    assert_eq!(sorted.len(), names.len());
    assert!(names.iter().any(|n| n == "select-num"));
}

#[test]
fn registry_ties_each_name_to_its_builtin() {
    let mut entries: Vec<(String, Builtin)> = Vec::new();
    register_builtins(&mut entries);
    let find = |n: &str| entries.iter().find(|e| e.0 == n).map(|e| e.1);
    assert_eq!(find("+"), Some(Builtin::Add));
    assert_eq!(find("type-of"), Some(Builtin::TypeOf));
    assert_eq!(find("select-num"), Some(Builtin::SelectNum));
    assert_eq!(find("cs1-cols"), Some(Builtin::Cs1Cols));
    assert_eq!(find("nope"), None);
}

#[test]
fn test_abs() {
    // the integer half; a float has no place in the library's values
    assert_eq!(builtin_abs(&[Value::Int(-5)]).unwrap(), Value::Int(5));
}

#[test]
fn run_builtin_runs_the_registered_function() {
    let interner = blisp::ast::Interner::new();
    let args = [Value::Int(2), Value::Int(3)];
    assert_eq!(blisp::table_builtins::run_builtin(Builtin::Add, &args, &interner), Some(Ok(Value::Int(5))));
    assert_eq!(blisp::table_builtins::run_builtin(Builtin::Mul, &args, &interner), Some(Ok(Value::Int(6))));
    assert_eq!(
        blisp::table_builtins::run_builtin(Builtin::TypeOf, &[Value::Int(1)], &interner),
        Some(Ok(Value::Str("int".into())))
    );
    assert_eq!(blisp::table_builtins::run_builtin(Builtin::Log, &args, &interner), None);
    assert!(blisp::builtins::is_registered_builtin("select-num"));
    assert!(!blisp::builtins::is_registered_builtin("nope"));
}
