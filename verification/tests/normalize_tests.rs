use blisp::ast::{Expr, Interner};
use blisp::normalize::{normalize, normalize_traced, RewriteEvent};

fn sym(interner: &mut Interner, s: &str) -> Expr {
    Expr::Sym(interner.intern(s))
}

fn num(n: f64) -> Expr {
    Expr::Float(n.to_bits())
}

fn int_lit(n: i64) -> Expr {
    Expr::Int(n)
}

#[test]
fn test_normalize_atoms() {
    let mut interner = Interner::new();

    // Atoms are already canonical
    let n = num(42.0);
    let result = normalize(n.clone(), &mut interner);
    assert_eq!(result.inner(), &n);

    let s = sym(&mut interner, "foo");
    let result = normalize(s.clone(), &mut interner);
    assert_eq!(result.inner(), &s);
}

#[test]
fn test_normalize_simple_list() {
    let mut interner = Interner::new();

    // (f x y) => (f x y) - no macros
    let expr = Expr::List(vec![sym(&mut interner, "f"), num(1.0), num(2.0)]);
    let result = normalize(expr.clone(), &mut interner);
    assert_eq!(result.inner(), &expr);
}

#[test]
fn test_thread_first_identity() {
    let mut interner = Interner::new();

    // (-> x) => x
    let expr = Expr::List(vec![sym(&mut interner, "->"), num(42.0)]);
    let result = normalize(expr, &mut interner);
    assert_eq!(result.inner(), &num(42.0));
}

#[test]
fn test_thread_first_single() {
    let mut interner = Interner::new();

    // (-> x (f y)) => (f x y)
    let expr = Expr::List(vec![
        sym(&mut interner, "->"),
        num(1.0),
        Expr::List(vec![sym(&mut interner, "f"), num(2.0)]),
    ]);

    let expected = Expr::List(vec![sym(&mut interner, "f"), num(1.0), num(2.0)]);

    let result = normalize(expr, &mut interner);
    assert_eq!(result.inner(), &expected);
}

#[test]
fn test_thread_first_chain() {
    let mut interner = Interner::new();

    // (-> x (f) (g y)) => (g (f x) y)
    let expr = Expr::List(vec![
        sym(&mut interner, "->"),
        num(1.0),
        Expr::List(vec![sym(&mut interner, "f")]),
        Expr::List(vec![sym(&mut interner, "g"), num(2.0)]),
    ]);

    let expected = Expr::List(vec![
        sym(&mut interner, "g"),
        Expr::List(vec![sym(&mut interner, "f"), num(1.0)]),
        num(2.0),
    ]);

    let result = normalize(expr, &mut interner);
    assert_eq!(result.inner(), &expected);
}

#[test]
fn test_thread_first_bare_symbol() {
    let mut interner = Interner::new();

    // (-> x f) => (f x)
    let expr = Expr::List(vec![
        sym(&mut interner, "->"),
        num(42.0),
        sym(&mut interner, "f"),
    ]);

    let expected = Expr::List(vec![sym(&mut interner, "f"), num(42.0)]);

    let result = normalize(expr, &mut interner);
    assert_eq!(result.inner(), &expected);
}

#[test]
fn test_idempotence() {
    let mut interner = Interner::new();

    // normalize(normalize(x)) == normalize(x)
    let expr = Expr::List(vec![
        sym(&mut interner, "->"),
        num(1.0),
        Expr::List(vec![sym(&mut interner, "f"), num(2.0)]),
        Expr::List(vec![sym(&mut interner, "g"), num(3.0)]),
    ]);

    let once = normalize(expr.clone(), &mut interner);
    let twice = normalize(once.inner().clone(), &mut interner);

    assert_eq!(once, twice, "Normalization must be idempotent");
}

#[test]
fn test_nested_thread_first() {
    let mut interner = Interner::new();

    // (-> (-> x (f)) (g)) => (g (f x))
    let inner = Expr::List(vec![
        sym(&mut interner, "->"),
        num(1.0),
        Expr::List(vec![sym(&mut interner, "f")]),
    ]);

    let outer = Expr::List(vec![
        sym(&mut interner, "->"),
        inner,
        Expr::List(vec![sym(&mut interner, "g")]),
    ]);

    let expected = Expr::List(vec![
        sym(&mut interner, "g"),
        Expr::List(vec![sym(&mut interner, "f"), num(1.0)]),
    ]);

    let result = normalize(outer, &mut interner);
    assert_eq!(result.inner(), &expected);
}

#[test]
fn test_recursive_normalization() {
    let mut interner = Interner::new();

    // (f (-> x (g))) => (f (g x))
    let expr = Expr::List(vec![
        sym(&mut interner, "f"),
        Expr::List(vec![
            sym(&mut interner, "->"),
            num(1.0),
            Expr::List(vec![sym(&mut interner, "g")]),
        ]),
    ]);

    let expected = Expr::List(vec![
        sym(&mut interner, "f"),
        Expr::List(vec![sym(&mut interner, "g"), num(1.0)]),
    ]);

    let result = normalize(expr, &mut interner);
    assert_eq!(result.inner(), &expected);
}



#[test]
fn test_alias_rewrite() {
    let mut interner = Interner::new();

    // (dlog-cols x) => (dlog x)
    let expr = Expr::List(vec![sym(&mut interner, "dlog-cols"), num(1.0)]);
    let result = normalize(expr, &mut interner);
    let expected = Expr::List(vec![sym(&mut interner, "dlog"), num(1.0)]);
    assert_eq!(result.inner(), &expected);
}

#[test]
fn test_alias_cs1() {
    let mut interner = Interner::new();

    // (cs1-col x) => (run_sum x) via cs1-col → run_sum alias
    let expr = Expr::List(vec![sym(&mut interner, "cs1-col"), num(1.0)]);
    let result = normalize(expr, &mut interner);
    let expected = Expr::List(vec![sym(&mut interner, "run_sum"), num(1.0)]);
    assert_eq!(result.inner(), &expected);
}

#[test]
fn test_arg_reorder_2param_prefix() {
    let mut interner = Interner::new();

    // Prefix: (rolling-mean 250 x) → alias to rol_avg → reorder → (rol_avg x 250)
    let expr = Expr::List(vec![
        sym(&mut interner, "rolling-mean"),
        int_lit(250),
        sym(&mut interner, "x"),
    ]);
    let result = normalize(expr, &mut interner);
    let expected = Expr::List(vec![
        sym(&mut interner, "rol_avg"),
        sym(&mut interner, "x"),
        int_lit(250),
    ]);
    assert_eq!(result.inner(), &expected);
}

#[test]
fn test_arg_reorder_2param_already_data_first() {
    let mut interner = Interner::new();

    // Already data-first: (rolling-mean x 250) → alias to (rol_avg x 250)
    let expr = Expr::List(vec![
        sym(&mut interner, "rolling-mean"),
        sym(&mut interner, "x"),
        int_lit(250),
    ]);
    let result = normalize(expr, &mut interner);
    let expected = Expr::List(vec![
        sym(&mut interner, "rol_avg"),
        sym(&mut interner, "x"),
        int_lit(250),
    ]);
    assert_eq!(result.inner(), &expected);
}

#[test]
fn test_arg_reorder_2param_ambiguous() {
    let mut interner = Interner::new();

    // Ambiguous: (shift 2 3) — both are Int, don't rewrite
    let expr = Expr::List(vec![sym(&mut interner, "shift"), int_lit(2), int_lit(3)]);
    let result = normalize(expr, &mut interner);
    let expected = Expr::List(vec![sym(&mut interner, "shift"), int_lit(2), int_lit(3)]);
    assert_eq!(result.inner(), &expected);
}

#[test]
fn test_arg_reorder_3param_prefix() {
    let mut interner = Interner::new();

    // Prefix: (ur 250 5 x) → alias to rsk_adj → reorder → (rsk_adj x 250 5)
    let expr = Expr::List(vec![
        sym(&mut interner, "ur"),
        int_lit(250),
        int_lit(5),
        sym(&mut interner, "x"),
    ]);
    let result = normalize(expr, &mut interner);
    let expected = Expr::List(vec![
        sym(&mut interner, "rsk_adj"),
        sym(&mut interner, "x"),
        int_lit(250),
        int_lit(5),
    ]);
    assert_eq!(result.inner(), &expected);
}

#[test]
fn test_arg_reorder_3param_already_data_first() {
    let mut interner = Interner::new();

    // Already data-first: (ur x 250 5) → alias to (rsk_adj x 250 5)
    let expr = Expr::List(vec![
        sym(&mut interner, "ur"),
        sym(&mut interner, "x"),
        int_lit(250),
        int_lit(5),
    ]);
    let result = normalize(expr, &mut interner);
    let expected = Expr::List(vec![
        sym(&mut interner, "rsk_adj"),
        sym(&mut interner, "x"),
        int_lit(250),
        int_lit(5),
    ]);
    assert_eq!(result.inner(), &expected);
}

#[test]
fn test_thread_then_canonicalize() {
    let mut interner = Interner::new();

    // Full pipeline: (-> x (rolling-mean 250)) → alias + thread → (rol_avg x 250)
    let expr = Expr::List(vec![
        sym(&mut interner, "->"),
        sym(&mut interner, "x"),
        Expr::List(vec![sym(&mut interner, "rolling-mean"), int_lit(250)]),
    ]);
    let result = normalize(expr, &mut interner);
    let expected = Expr::List(vec![
        sym(&mut interner, "rol_avg"),
        sym(&mut interner, "x"),
        int_lit(250),
    ]);
    assert_eq!(result.inner(), &expected);
}

#[test]
fn test_alias_plus_reorder() {
    let mut interner = Interner::new();

    // (shift-cols 2 x) → alias to (shift 2 x) → reorder to (shift x 2)
    let expr = Expr::List(vec![
        sym(&mut interner, "shift-cols"),
        int_lit(2),
        sym(&mut interner, "x"),
    ]);
    let result = normalize(expr, &mut interner);
    let expected = Expr::List(vec![
        sym(&mut interner, "shift"),
        sym(&mut interner, "x"),
        int_lit(2),
    ]);
    assert_eq!(result.inner(), &expected);
}

#[test]
fn test_canonicalize_idempotent() {
    let mut interner = Interner::new();

    // Prefix: (rolling-mean 250 x) → (rol_avg x 250)
    // Second normalize should be identity
    let expr = Expr::List(vec![
        sym(&mut interner, "rolling-mean"),
        int_lit(250),
        sym(&mut interner, "x"),
    ]);
    let once = normalize(expr, &mut interner);
    let twice = normalize(once.inner().clone(), &mut interner);
    assert_eq!(once, twice, "Canonicalization must be idempotent");
}

#[test]
fn test_nested_canonicalize() {
    let mut interner = Interner::new();

    // Nested: (f (dlog-cols x)) → (f (dlog x))
    let expr = Expr::List(vec![
        sym(&mut interner, "f"),
        Expr::List(vec![sym(&mut interner, "dlog-cols"), num(1.0)]),
    ]);
    let result = normalize(expr, &mut interner);
    let expected = Expr::List(vec![
        sym(&mut interner, "f"),
        Expr::List(vec![sym(&mut interner, "dlog"), num(1.0)]),
    ]);
    assert_eq!(result.inner(), &expected);
}

#[test]
fn traced_thread_then_alias() {
    let mut interner = Interner::new();
    let expr = Expr::List(vec![
        sym(&mut interner, "->"),
        sym(&mut interner, "x"),
        Expr::List(vec![sym(&mut interner, "rolling-mean"), int_lit(250)]),
    ]);
    let t = normalize_traced(expr, &mut interner);
    let post = Expr::List(vec![
        sym(&mut interner, "rolling-mean"),
        sym(&mut interner, "x"),
        int_lit(250),
    ]);
    assert_eq!(t.post_thread, post);
    let expected = Expr::List(vec![
        sym(&mut interner, "rol_avg"),
        sym(&mut interner, "x"),
        int_lit(250),
    ]);
    assert_eq!(t.expr.inner(), &expected);
    assert_eq!(t.rewrites.len(), 2);
    assert!(matches!(t.rewrites[0], RewriteEvent::ThreadFirst { form_count: 1 }));
    match &t.rewrites[1] {
        RewriteEvent::Alias { from, to } => {
            assert_eq!(from, "rolling-mean");
            assert_eq!(to, "rol_avg");
        }
        other => panic!("unexpected {:?}", other),
    }
}

#[test]
fn traced_swaps_report_canonical_op() {
    let mut interner = Interner::new();
    let expr = Expr::List(vec![
        sym(&mut interner, "ur"),
        int_lit(250),
        int_lit(5),
        sym(&mut interner, "x"),
    ]);
    let t = normalize_traced(expr, &mut interner);
    assert_eq!(t.rewrites.len(), 2);
    match &t.rewrites[1] {
        RewriteEvent::ArgSwap3 { op } => assert_eq!(op, "rsk_adj"),
        other => panic!("unexpected {:?}", other),
    }
    let expr2 = Expr::List(vec![sym(&mut interner, "shift"), int_lit(2), sym(&mut interner, "x")]);
    let t2 = normalize_traced(expr2, &mut interner);
    assert_eq!(t2.rewrites.len(), 1);
    match &t2.rewrites[0] {
        RewriteEvent::ArgSwap2 { op } => assert_eq!(op, "shift"),
        other => panic!("unexpected {:?}", other),
    }
}

#[test]
fn traced_inner_threads_are_not_reported() {
    let mut interner = Interner::new();
    let inner = Expr::List(vec![
        sym(&mut interner, "->"),
        num(1.0),
        Expr::List(vec![sym(&mut interner, "f")]),
    ]);
    let outer = Expr::List(vec![
        sym(&mut interner, "->"),
        inner,
        Expr::List(vec![sym(&mut interner, "g")]),
    ]);
    let t = normalize_traced(outer, &mut interner);
    assert_eq!(t.rewrites.len(), 1);
    assert!(matches!(t.rewrites[0], RewriteEvent::ThreadFirst { form_count: 1 }));
    let once = normalize(t.expr.inner().clone(), &mut interner);
    assert_eq!(once, t.expr);
}

#[test]
fn normalize_arrow_rebuilt_by_threading() {
    // threading into a form that starts with `->` makes a thread-first form
    // again, which is expanded at once: the result is settled
    let mut interner = Interner::new();
    let expr = Expr::List(vec![
        sym(&mut interner, "->"),
        sym(&mut interner, "a"),
        Expr::List(vec![sym(&mut interner, "->"), sym(&mut interner, "b")]),
    ]);
    let once = normalize(expr, &mut interner);
    let expected = Expr::List(vec![sym(&mut interner, "b"), sym(&mut interner, "a")]);
    assert_eq!(once.inner(), &expected);
    let twice = normalize(once.inner().clone(), &mut interner);
    assert_eq!(twice.inner(), &expected);
}

#[test]
fn test_idempotence_arrow_threaded_into_arrow() {
    let mut interner = Interner::new();

    // (-> 1 ->): the value threaded into a bare `->` is the value itself
    let expr = Expr::List(vec![sym(&mut interner, "->"), Expr::Int(1), sym(&mut interner, "->")]);
    let once = normalize(expr, &mut interner);
    assert_eq!(once.inner(), &Expr::Int(1));
    let twice = normalize(once.inner().clone(), &mut interner);
    assert_eq!(once, twice);
}

#[test]
fn test_idempotence_form_headed_by_arrow() {
    let mut interner = Interner::new();

    // (-> 1 (-> (f 2))) threads 1 into a form whose head is `->`:
    // the result (-> 1 (f 2)) is expanded again, giving (f 1 2)
    let f = sym(&mut interner, "f");
    let expr = Expr::List(vec![
        sym(&mut interner, "->"),
        Expr::Int(1),
        Expr::List(vec![sym(&mut interner, "->"), Expr::List(vec![f.clone(), Expr::Int(2)])]),
    ]);
    let once = normalize(expr, &mut interner);
    assert_eq!(once.inner(), &Expr::List(vec![f, Expr::Int(1), Expr::Int(2)]));
    let twice = normalize(once.inner().clone(), &mut interner);
    assert_eq!(once, twice);
}
