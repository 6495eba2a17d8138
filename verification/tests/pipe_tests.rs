use blisp::ast::{Expr, Interner};
use blisp::normalize::normalize_traced;
use blisp::pipe::{collect_call_sites, find_ir_for_call, walk_calls, CallSite};

fn sym(interner: &mut Interner, s: &str) -> Expr {
    Expr::Sym(interner.intern(s))
}

fn site(canon: &str) -> CallSite {
    CallSite {
        preorder_id: 0,
        user_sym: canon.to_string(),
        canonical_sym: canon.to_string(),
    }
}

fn strings(v: &[&str]) -> Vec<String> {
    v.iter().map(|s| s.to_string()).collect()
}

#[test]
fn pipe_calls_in_preorder_skip_quotes_and_arrows() {
    let mut interner = Interner::new();
    let e = Expr::List(vec![
        sym(&mut interner, "f"),
        Expr::List(vec![sym(&mut interner, "g"), Expr::Int(1)]),
        Expr::Quote(Box::new(Expr::List(vec![sym(&mut interner, "h")]))),
        Expr::List(vec![sym(&mut interner, "->"), sym(&mut interner, "x")]),
        Expr::List(vec![Expr::Int(3), Expr::List(vec![sym(&mut interner, "k")])]),
    ]);
    let mut out = Vec::new();
    walk_calls(&e, &interner, &mut out);
    assert_eq!(out, strings(&["f", "g", "k"]));
}

#[test]
fn pipe_call_sites_pair_user_and_canonical_names() {
    let mut interner = Interner::new();
    let expr = Expr::List(vec![
        sym(&mut interner, "->"),
        sym(&mut interner, "x"),
        Expr::List(vec![sym(&mut interner, "rolling-mean"), Expr::Int(250)]),
        Expr::List(vec![sym(&mut interner, "ln")]),
    ]);
    let t = normalize_traced(expr, &mut interner);
    let (sites, n_user, n_canon) = collect_call_sites(&t.post_thread, t.expr.inner(), &interner);
    assert_eq!((n_user, n_canon), (2, 2));
    assert_eq!(sites.len(), 2);
    assert_eq!(sites[0].preorder_id, 0);
    assert_eq!(sites[0].user_sym, "ln");
    assert_eq!(sites[0].canonical_sym, "log");
    assert_eq!(sites[1].user_sym, "rolling-mean");
    assert_eq!(sites[1].canonical_sym, "rol_avg");
}

#[test]
fn pipe_ir_for_call_uses_first_mentioning_node() {
    let nodes = strings(&[
        "Source::Stdin",
        "FusedElementwise[LOG, EXP]",
        "Unary LOG",
    ]);
    assert_eq!(
        find_ir_for_call(&nodes, &site("log")),
        ("LOG".to_string(), "yes".to_string())
    );
    assert_eq!(
        find_ir_for_call(&nodes[2..], &site("ln")),
        ("LOG".to_string(), "-".to_string())
    );
}

#[test]
fn pipe_ir_for_call_falls_back_by_kind() {
    let nodes = strings(&["Source::File"]);
    assert_eq!(
        find_ir_for_call(&nodes, &site("read-csv")),
        ("Source::File".to_string(), "-".to_string())
    );
    assert_eq!(
        find_ir_for_call(&nodes, &site("mapr")),
        ("ALIGN".to_string(), "-".to_string())
    );
    assert_eq!(
        find_ir_for_call(&nodes, &site("sqrt")),
        ("-".to_string(), "-".to_string())
    );
    assert_eq!(
        find_ir_for_call(&nodes, &site("nothing")),
        ("-".to_string(), "-".to_string())
    );
}
