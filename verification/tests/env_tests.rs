use blisp::ast::SymbolId;
use blisp::env::{GlobalEnv, LexicalEnv};
use blisp::value::Value;

#[test]
fn test_global_define_resolve() {
    let mut global = GlobalEnv::new();
    let sym = SymbolId(0);

    global.define(sym, Value::Int(42));
    assert_eq!(global.resolve(sym), Some(&Value::Int(42)));
}

#[test]
fn test_global_update() {
    let mut global = GlobalEnv::new();
    let sym = SymbolId(0);

    global.define(sym, Value::Int(10));
    global.define(sym, Value::Int(20)); // Update
    assert_eq!(global.resolve(sym), Some(&Value::Int(20)));
}

#[test]
fn test_lexical_single_frame() {
    let mut lexical = LexicalEnv::new();
    let sym = SymbolId(0);

    lexical.push_frame();
    lexical.define_local(sym, Value::Int(100));
    assert_eq!(lexical.resolve(sym), Some(&Value::Int(100)));

    lexical.pop_frame();
    assert_eq!(lexical.resolve(sym), None); // Gone after pop
}

#[test]
fn test_lexical_shadowing() {
    let mut lexical = LexicalEnv::new();
    let sym = SymbolId(0);

    lexical.push_frame();
    lexical.define_local(sym, Value::Int(1));

    lexical.push_frame();
    lexical.define_local(sym, Value::Int(2));

    assert_eq!(lexical.resolve(sym), Some(&Value::Int(2))); // Inner wins

    lexical.pop_frame();
    assert_eq!(lexical.resolve(sym), Some(&Value::Int(1))); // Outer visible again
}

#[test]
fn test_lexical_set() {
    let mut lexical = LexicalEnv::new();
    let sym = SymbolId(0);

    lexical.push_frame();
    lexical.define_local(sym, Value::Int(10));

    assert!(lexical.set(sym, Value::Int(20)));
    assert_eq!(lexical.resolve(sym), Some(&Value::Int(20)));

    let other_sym = SymbolId(1);
    assert!(!lexical.set(other_sym, Value::Int(30)));
}

#[test]
fn test_lexical_set_updates_correct_frame() {
    let mut lexical = LexicalEnv::new();
    let x = SymbolId(0);
    let y = SymbolId(1);

    lexical.push_frame();
    lexical.define_local(x, Value::Int(1));

    lexical.push_frame();
    lexical.define_local(x, Value::Int(2));
    lexical.define_local(y, Value::Int(10));

    lexical.set(x, Value::Int(20));
    assert_eq!(lexical.resolve(x), Some(&Value::Int(20)));

    lexical.pop_frame();
    assert_eq!(lexical.resolve(x), Some(&Value::Int(1))); // Still 1!
}

#[test]
fn test_lexical_depth() {
    let mut lexical = LexicalEnv::new();
    assert_eq!(lexical.depth(), 0);

    lexical.push_frame();
    assert_eq!(lexical.depth(), 1);

    lexical.push_frame();
    assert_eq!(lexical.depth(), 2);

    lexical.pop_frame();
    assert_eq!(lexical.depth(), 1);
}

#[test]
fn define_local_without_frame_does_nothing() {
    let mut lexical = LexicalEnv::new();
    lexical.define_local(SymbolId(3), Value::Bool(true));
    assert_eq!(lexical.depth(), 0);
    assert_eq!(lexical.resolve(SymbolId(3)), None);
    lexical.pop_frame();
    assert_eq!(lexical.depth(), 0);
}

#[test]
fn set_on_outer_binding_updates_outer_frame() {
    let mut lexical = LexicalEnv::new();
    let x = SymbolId(0);
    lexical.push_frame();
    lexical.define_local(x, Value::Int(1));
    lexical.push_frame();
    assert!(lexical.set(x, Value::Int(5)));
    assert_eq!(lexical.resolve(x), Some(&Value::Int(5)));
    lexical.pop_frame();
    assert_eq!(lexical.resolve(x), Some(&Value::Int(5)));
}

#[test]
fn snapshot_and_restore() {
    let mut lexical = LexicalEnv::new();
    let x = SymbolId(0);
    lexical.push_frame();
    lexical.define_local(x, Value::Str("a".to_string()));
    let snap = lexical.snapshot();
    lexical.set(x, Value::Nil);
    let mut other = LexicalEnv::new();
    other.restore_and_push(&snap);
    assert_eq!(other.depth(), 2);
    assert_eq!(other.resolve(x), Some(&Value::Str("a".to_string())));
    assert_eq!(lexical.resolve(x), Some(&Value::Nil));
}

#[test]
fn global_len_and_is_empty() {
    let mut global = GlobalEnv::new();
    assert!(global.is_empty());
    assert_eq!(global.len(), 0);
    global.define(SymbolId(1), Value::Int(1));
    global.define(SymbolId(2), Value::Int(2));
    global.define(SymbolId(1), Value::Int(3));
    assert_eq!(global.len(), 2);
    assert!(!global.is_empty());
    assert_eq!(global.resolve(SymbolId(9)), None);
}

#[test]
fn scope_round_trip_restores_bindings() {
    let mut env = LexicalEnv::new();
    env.push_frame();
    env.define_local(SymbolId(1), Value::Int(1));
    env.push_frame();
    env.define_local(SymbolId(1), Value::Int(2));
    env.define_local(SymbolId(2), Value::Int(3));
    assert_eq!(env.resolve(SymbolId(1)), Some(&Value::Int(2)));
    env.pop_frame();
    assert_eq!(env.resolve(SymbolId(1)), Some(&Value::Int(1)));
    assert_eq!(env.resolve(SymbolId(2)), None);
    assert_eq!(env.depth(), 1);
}

#[test]
fn restored_snapshot_resolves_as_captured() {
    let mut env = LexicalEnv::new();
    env.push_frame();
    env.define_local(SymbolId(7), Value::Int(70));
    let snap = env.snapshot();
    env.define_local(SymbolId(7), Value::Int(71));
    env.restore_and_push(&snap);
    assert_eq!(env.resolve(SymbolId(7)), Some(&Value::Int(70)));
    assert_eq!(env.depth(), 2);
}
