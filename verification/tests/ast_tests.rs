use blisp::ast::{Expr, Interner, SymbolId};

#[test]
fn test_interner() {
    let mut interner = Interner::new();

    let id1 = interner.intern("foo");
    let id2 = interner.intern("bar");
    let id3 = interner.intern("foo"); // Should reuse

    assert_eq!(id1, id3);
    assert_ne!(id1, id2);
    assert_eq!(interner.resolve(id1), "foo");
    assert_eq!(interner.resolve(id2), "bar");
}

#[test]
fn test_expr_types() {
    let nil = Expr::Nil;
    let int = Expr::Int(42);
    let list = Expr::List(vec![Expr::Int(1), Expr::Int(2)]);

    assert_eq!(nil, Expr::Nil);
    assert_eq!(int, Expr::Int(42));
    assert_eq!(list, Expr::List(vec![Expr::Int(1), Expr::Int(2)]));
}

#[test]
fn interner_get_finds_only_interned_names() {
    let mut interner = Interner::new();
    assert_eq!(interner.get("x"), None);
    let x = interner.intern("x");
    assert_eq!(x, SymbolId(0));
    assert_eq!(interner.get("x"), Some(SymbolId(0)));
    assert_eq!(interner.get("y"), None);
    let y = interner.intern("y");
    assert_eq!(y, SymbolId(1));
    // interning again keeps the table as it was
    assert_eq!(interner.intern("x"), SymbolId(0));
    assert_eq!(interner.intern("y"), SymbolId(1));
    assert_eq!(interner.get("y"), Some(SymbolId(1)));
}

#[test]
fn interner_handles_non_ascii_names() {
    let mut interner = Interner::new();
    let a = interner.intern("été");
    let b = interner.intern("ete");
    assert_ne!(a, b);
    assert_eq!(interner.resolve(a), "été");
    assert_eq!(interner.intern("été"), a);
}

#[test]
fn interned_ids_survive_later_interning() {
    let mut interner = Interner::new();
    let a = interner.intern("alpha");
    let b = interner.intern("beta");
    let _c = interner.intern("gamma");
    assert_eq!(interner.resolve(a), "alpha");
    assert_eq!(interner.resolve(b), "beta");
    assert_eq!(interner.intern("alpha"), a);
}

#[test]
fn ids_survive_many_later_interns() {
    let mut interner = Interner::new();
    let first = interner.intern("first");
    for k in 0..100 {
        interner.intern(&format!("name{}", k));
    }
    assert_eq!(interner.resolve(first), "first");
}
