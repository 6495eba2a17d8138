//! Normalization of expressions into canonical form, before IR compilation.
//!
//! Two passes, purely syntactic:
//! 1. thread-first expansion: `(-> a (f x) (g y z))` becomes `(g (f a x) y z)`;
//! 2. canonicalization: legacy spellings in function position become their
//!    canonical names, and operations written parameter-first
//!    (`(rolling-mean 250 x)`) are put data-first (`(rol_avg x 250)`) when the
//!    roles are unambiguous.

use vstd::prelude::*;
use crate::ast::{
    Expr, ExprV, Interner, SymbolId, expr_view, exprs_view, lemma_exprs_view, lemma_exprs_view_eq,
    spec_intern, no_dups,
};
use crate::text::str_eq;
use crate::ir::{spelling_arith, spelling_compare};

verus! {

// ─── Specification ──────────────────────────────────────────────────────────

/// Every symbol of the expression is below `n`.
pub open spec fn syms_below(e: ExprV, n: nat) -> bool
    decreases e,
{
    match e {
        ExprV::Sym(s) => s < n,
        ExprV::List(es) => syms_below_all(es, n),
        ExprV::Quote(x) => syms_below(*x, n),
        ExprV::QuasiQuote(x) => syms_below(*x, n),
        ExprV::Unquote(x) => syms_below(*x, n),
        ExprV::UnquoteSplicing(x) => syms_below(*x, n),
        _ => true,
    }
}

pub open spec fn syms_below_all(es: Seq<ExprV>, n: nat) -> bool
    decreases es,
{
    if es.len() == 0 {
        true
    } else {
        syms_below_all(es.drop_last(), n) && syms_below(es.last(), n)
    }
}

/// The expression is the symbol named `name` in the table `ns`.
pub open spec fn is_sym_named(e: ExprV, ns: Seq<Seq<char>>, name: Seq<char>) -> bool {
    e matches ExprV::Sym(s) && s < ns.len() && ns[s as int] == name
}

/// Thread-first expansion of an expression.
pub open spec fn expand(e: ExprV, ns: Seq<Seq<char>>) -> ExprV
    decreases e,
{
    match e {
        ExprV::List(es) => if es.len() == 0 {
            e
        } else if is_sym_named(es[0], ns, "->"@) {
            thread_first(es.drop_first(), ns)
        } else {
            settle_list(expand_all(es, ns), ns)
        },
        ExprV::Quote(x) => ExprV::Quote(Box::new(expand(*x, ns))),
        ExprV::QuasiQuote(x) => ExprV::QuasiQuote(Box::new(expand(*x, ns))),
        ExprV::Unquote(x) => ExprV::Unquote(Box::new(expand(*x, ns))),
        ExprV::UnquoteSplicing(x) => ExprV::UnquoteSplicing(Box::new(expand(*x, ns))),
        _ => e,
    }
}

pub open spec fn expand_all(es: Seq<ExprV>, ns: Seq<Seq<char>>) -> Seq<ExprV>
    decreases es,
{
    if es.len() == 0 {
        Seq::empty()
    } else {
        expand_all(es.drop_last(), ns).push(expand(es.last(), ns))
    }
}

/// `(-> a f g ...)` without the arrow: `a` threaded as first argument into
/// each form in turn; nothing to thread gives nil.
pub open spec fn thread_first(args: Seq<ExprV>, ns: Seq<Seq<char>>) -> ExprV
    decreases args,
{
    if args.len() == 0 {
        ExprV::Nil
    } else if args.len() == 1 {
        expand(args[0], ns)
    } else {
        thread_into(thread_first(args.drop_last(), ns), args.last(), ns)
    }
}

/// A value threaded into a form as its first argument: `(f y z)` gives
/// `(f v y z)`, a bare symbol `f` gives `(f v)`, and anything else (or `()`)
/// leaves the value. Where the form's head expands to `->` itself, the
/// threaded form is a thread-first form again and is expanded in turn.
pub open spec fn thread_into(v: ExprV, form: ExprV, ns: Seq<Seq<char>>) -> ExprV
    decreases form,
{
    match form {
        ExprV::List(fs) => if fs.len() == 0 {
            v
        } else {
            settle_list(seq![expand(fs[0], ns), v] + expand_all(fs.drop_first(), ns), ns)
        },
        ExprV::Sym(_) => settle_list(seq![form, v], ns),
        _ => v,
    }
}

/// A list whose elements are already expanded: as it stands, unless its head
/// is `->`, in which case the thread-first form it makes is expanded.
pub open spec fn settle_list(xs: Seq<ExprV>, ns: Seq<Seq<char>>) -> ExprV {
    if xs.len() > 0 && is_sym_named(xs[0], ns, "->"@) {
        if xs.len() == 1 {
            ExprV::Nil
        } else {
            thread_settled_all(xs[1], xs.subrange(2, xs.len() as int), ns)
        }
    } else {
        ExprV::List(xs)
    }
}

/// Threading through forms that are already expanded, in turn.
pub open spec fn thread_settled_all(v: ExprV, rs: Seq<ExprV>, ns: Seq<Seq<char>>) -> ExprV
    decreases rs.len(),
{
    if rs.len() == 0 {
        v
    } else {
        thread_settled(thread_settled_all(v, rs.drop_last(), ns), rs.last(), ns)
    }
}

/// A value threaded into a form that is already expanded (so a list of it
/// does not start with `->`, and a bare `->` threads to the value itself).
pub open spec fn thread_settled(v: ExprV, r: ExprV, ns: Seq<Seq<char>>) -> ExprV {
    match r {
        ExprV::List(rs) => if rs.len() == 0 {
            v
        } else {
            ExprV::List(rs.insert(1, v))
        },
        ExprV::Sym(_) => if is_sym_named(r, ns, "->"@) {
            v
        } else {
            ExprV::List(seq![r, v])
        },
        _ => v,
    }
}

/// Legacy spelling to canonical name.
pub open spec fn canonical_name(name: Seq<char>) -> Option<Seq<char>> {
    if name == "dlog-cols"@ {
        Some("dlog"@)
    } else if name == "dlog-col"@ {
        Some("dlog"@)
    } else if name == "rolling-mean"@ {
        Some("rol_avg"@)
    } else if name == "rolling-std"@ {
        Some("rol_std"@)
    } else if name == "rolling-zscore"@ {
        Some("rol_zsc"@)
    } else if name == "wzs"@ {
        Some("rol_zsc"@)
    } else if name == "cs1"@ {
        Some("run_sum"@)
    } else if name == "ur"@ {
        Some("rsk_adj"@)
    } else if name == "cs1-cols"@ {
        Some("run_sum"@)
    } else if name == "cs1-col"@ {
        Some("run_sum"@)
    } else if name == "ur-cols"@ {
        Some("rsk_adj"@)
    } else if name == "ur-col"@ {
        Some("rsk_adj"@)
    } else if name == "rolling-mean-cols"@ {
        Some("rol_avg"@)
    } else if name == "rolling-std-cols"@ {
        Some("rol_std"@)
    } else if name == "rolling-zscore-cols"@ {
        Some("rol_zsc"@)
    } else if name == "rol_avg_cols"@ {
        Some("rol_avg"@)
    } else if name == "rol_std_cols"@ {
        Some("rol_std"@)
    } else if name == "rol_zsc_cols"@ {
        Some("rol_zsc"@)
    } else if name == "run_sum_cols"@ {
        Some("run_sum"@)
    } else if name == "rsk_adj_cols"@ {
        Some("rsk_adj"@)
    } else if name == "shift-cols"@ {
        Some("shift"@)
    } else if name == "shift-col"@ {
        Some("shift"@)
    } else if name == ">-cols"@ {
        Some(">"@)
    } else if name == ">-col"@ {
        Some(">"@)
    } else if name == "locf-cols"@ {
        Some("locf"@)
    } else if name == "diff-cols"@ {
        Some("diff"@)
    } else if name == "diff-col"@ {
        Some("diff"@)
    } else if name == "ecs1-cols"@ {
        Some("ecs1"@)
    } else if name == "ecs1-col"@ {
        Some("ecs1"@)
    } else if name == "x-"@ {
        Some("xminus"@)
    } else if name == "w5"@ {
        Some("wkd"@)
    } else if name == "let*"@ {
        Some("let"@)
    } else if name == "add"@ {
        Some("+"@)
    } else if name == "sub"@ {
        Some("-"@)
    } else if name == "mul"@ {
        Some("*"@)
    } else if name == "div"@ {
        Some("/"@)
    } else if name == "eq"@ {
        Some("=="@)
    } else if name == "neq"@ {
        Some("!="@)
    } else if name == "gt"@ {
        Some(">"@)
    } else if name == "gte"@ {
        Some(">="@)
    } else if name == "lt"@ {
        Some("<"@)
    } else if name == "lte"@ {
        Some("<="@)
    } else if name == "ln"@ {
        Some("log"@)
    } else {
        None
    }
}

/// What normalization puts in function position for a spelling: its
/// canonical name, or the spelling itself when it has none.
pub open spec fn canon_spelling(w: Seq<char>) -> Seq<char> {
    match canonical_name(w) {
        Some(c) => c,
        None => w,
    }
}

/// An operator written with symbols only (no letter).
pub open spec fn is_symbolic(s: Seq<char>) -> bool {
    forall|i: int| 0 <= i < s.len() ==> !('a' <= #[trigger] s[i] <= 'z')
}

/// Rewriting a legacy spelling keeps what it computes: a spelling of a
/// comparison or of integer arithmetic (`gte`, `sub`, ...) becomes an
/// operator symbol that compares or computes the same on every pair of
/// integers, and an operator symbol stays as it is.
#[verifier::spinoff_prover]
#[verifier::rlimit(100)]
pub proof fn law_alias_keeps_meaning(w: Seq<char>, a: int, b: int)
    ensures
        spelling_compare(w, a, b) is Some ==> spelling_compare(canon_spelling(w), a, b) == spelling_compare(w, a, b)
            && is_symbolic(canon_spelling(w)),
        spelling_arith(w, a, b) is Some ==> spelling_arith(canon_spelling(w), a, b) == spelling_arith(w, a, b)
            && is_symbolic(canon_spelling(w)),
{
    reveal_strlit("dlog-cols");
    reveal_strlit("dlog");
    reveal_strlit("dlog-col");
    reveal_strlit("rolling-mean");
    reveal_strlit("rol_avg");
    reveal_strlit("rolling-std");
    reveal_strlit("rol_std");
    reveal_strlit("rolling-zscore");
    reveal_strlit("rol_zsc");
    reveal_strlit("wzs");
    reveal_strlit("cs1");
    reveal_strlit("run_sum");
    reveal_strlit("ur");
    reveal_strlit("rsk_adj");
    reveal_strlit("cs1-cols");
    reveal_strlit("cs1-col");
    reveal_strlit("ur-cols");
    reveal_strlit("ur-col");
    reveal_strlit("rolling-mean-cols");
    reveal_strlit("rolling-std-cols");
    reveal_strlit("rolling-zscore-cols");
    reveal_strlit("rol_avg_cols");
    reveal_strlit("rol_std_cols");
    reveal_strlit("rol_zsc_cols");
    reveal_strlit("run_sum_cols");
    reveal_strlit("rsk_adj_cols");
    reveal_strlit("shift-cols");
    reveal_strlit("shift");
    reveal_strlit("shift-col");
    reveal_strlit(">-cols");
    reveal_strlit(">");
    reveal_strlit(">-col");
    reveal_strlit("locf-cols");
    reveal_strlit("locf");
    reveal_strlit("diff-cols");
    reveal_strlit("diff");
    reveal_strlit("diff-col");
    reveal_strlit("ecs1-cols");
    reveal_strlit("ecs1");
    reveal_strlit("ecs1-col");
    reveal_strlit("x-");
    reveal_strlit("xminus");
    reveal_strlit("w5");
    reveal_strlit("wkd");
    reveal_strlit("let*");
    reveal_strlit("let");
    reveal_strlit("add");
    reveal_strlit("+");
    reveal_strlit("sub");
    reveal_strlit("-");
    reveal_strlit("mul");
    reveal_strlit("*");
    reveal_strlit("div");
    reveal_strlit("/");
    reveal_strlit("eq");
    reveal_strlit("==");
    reveal_strlit("neq");
    reveal_strlit("!=");
    reveal_strlit("gt");
    reveal_strlit("gte");
    reveal_strlit(">=");
    reveal_strlit("lt");
    reveal_strlit("<");
    reveal_strlit("lte");
    reveal_strlit("<=");
    reveal_strlit("ln");
    reveal_strlit("log");
    assert("dlog-cols"@.len() == 9 && "dlog-cols"@[0] == 'd' && "dlog-cols"@[1] == 'l' && "dlog-cols"@[2] == 'o' && "dlog-cols"@[3] == 'g' && "dlog-cols"@[4] == '-' && "dlog-cols"@[5] == 'c' && "dlog-cols"@[6] == 'o' && "dlog-cols"@[7] == 'l' && "dlog-cols"@[8] == 's');
    assert("dlog"@.len() == 4 && "dlog"@[0] == 'd' && "dlog"@[1] == 'l' && "dlog"@[2] == 'o' && "dlog"@[3] == 'g');
    assert("dlog-col"@.len() == 8 && "dlog-col"@[0] == 'd' && "dlog-col"@[1] == 'l' && "dlog-col"@[2] == 'o' && "dlog-col"@[3] == 'g' && "dlog-col"@[4] == '-' && "dlog-col"@[5] == 'c' && "dlog-col"@[6] == 'o' && "dlog-col"@[7] == 'l');
    assert("rolling-mean"@.len() == 12 && "rolling-mean"@[0] == 'r' && "rolling-mean"@[1] == 'o' && "rolling-mean"@[2] == 'l' && "rolling-mean"@[3] == 'l' && "rolling-mean"@[4] == 'i' && "rolling-mean"@[5] == 'n' && "rolling-mean"@[6] == 'g' && "rolling-mean"@[7] == '-' && "rolling-mean"@[8] == 'm' && "rolling-mean"@[9] == 'e' && "rolling-mean"@[10] == 'a' && "rolling-mean"@[11] == 'n');
    assert("rol_avg"@.len() == 7 && "rol_avg"@[0] == 'r' && "rol_avg"@[1] == 'o' && "rol_avg"@[2] == 'l' && "rol_avg"@[3] == '_' && "rol_avg"@[4] == 'a' && "rol_avg"@[5] == 'v' && "rol_avg"@[6] == 'g');
    assert("rolling-std"@.len() == 11 && "rolling-std"@[0] == 'r' && "rolling-std"@[1] == 'o' && "rolling-std"@[2] == 'l' && "rolling-std"@[3] == 'l' && "rolling-std"@[4] == 'i' && "rolling-std"@[5] == 'n' && "rolling-std"@[6] == 'g' && "rolling-std"@[7] == '-' && "rolling-std"@[8] == 's' && "rolling-std"@[9] == 't' && "rolling-std"@[10] == 'd');
    assert("rol_std"@.len() == 7 && "rol_std"@[0] == 'r' && "rol_std"@[1] == 'o' && "rol_std"@[2] == 'l' && "rol_std"@[3] == '_' && "rol_std"@[4] == 's' && "rol_std"@[5] == 't' && "rol_std"@[6] == 'd');
    assert("rolling-zscore"@.len() == 14 && "rolling-zscore"@[0] == 'r' && "rolling-zscore"@[1] == 'o' && "rolling-zscore"@[2] == 'l' && "rolling-zscore"@[3] == 'l' && "rolling-zscore"@[4] == 'i' && "rolling-zscore"@[5] == 'n' && "rolling-zscore"@[6] == 'g' && "rolling-zscore"@[7] == '-' && "rolling-zscore"@[8] == 'z' && "rolling-zscore"@[9] == 's' && "rolling-zscore"@[10] == 'c' && "rolling-zscore"@[11] == 'o' && "rolling-zscore"@[12] == 'r' && "rolling-zscore"@[13] == 'e');
    assert("rol_zsc"@.len() == 7 && "rol_zsc"@[0] == 'r' && "rol_zsc"@[1] == 'o' && "rol_zsc"@[2] == 'l' && "rol_zsc"@[3] == '_' && "rol_zsc"@[4] == 'z' && "rol_zsc"@[5] == 's' && "rol_zsc"@[6] == 'c');
    assert("wzs"@.len() == 3 && "wzs"@[0] == 'w' && "wzs"@[1] == 'z' && "wzs"@[2] == 's');
    assert("cs1"@.len() == 3 && "cs1"@[0] == 'c' && "cs1"@[1] == 's' && "cs1"@[2] == '1');
    assert("run_sum"@.len() == 7 && "run_sum"@[0] == 'r' && "run_sum"@[1] == 'u' && "run_sum"@[2] == 'n' && "run_sum"@[3] == '_' && "run_sum"@[4] == 's' && "run_sum"@[5] == 'u' && "run_sum"@[6] == 'm');
    assert("ur"@.len() == 2 && "ur"@[0] == 'u' && "ur"@[1] == 'r');
    assert("rsk_adj"@.len() == 7 && "rsk_adj"@[0] == 'r' && "rsk_adj"@[1] == 's' && "rsk_adj"@[2] == 'k' && "rsk_adj"@[3] == '_' && "rsk_adj"@[4] == 'a' && "rsk_adj"@[5] == 'd' && "rsk_adj"@[6] == 'j');
    assert("cs1-cols"@.len() == 8 && "cs1-cols"@[0] == 'c' && "cs1-cols"@[1] == 's' && "cs1-cols"@[2] == '1' && "cs1-cols"@[3] == '-' && "cs1-cols"@[4] == 'c' && "cs1-cols"@[5] == 'o' && "cs1-cols"@[6] == 'l' && "cs1-cols"@[7] == 's');
    assert("cs1-col"@.len() == 7 && "cs1-col"@[0] == 'c' && "cs1-col"@[1] == 's' && "cs1-col"@[2] == '1' && "cs1-col"@[3] == '-' && "cs1-col"@[4] == 'c' && "cs1-col"@[5] == 'o' && "cs1-col"@[6] == 'l');
    assert("ur-cols"@.len() == 7 && "ur-cols"@[0] == 'u' && "ur-cols"@[1] == 'r' && "ur-cols"@[2] == '-' && "ur-cols"@[3] == 'c' && "ur-cols"@[4] == 'o' && "ur-cols"@[5] == 'l' && "ur-cols"@[6] == 's');
    assert("ur-col"@.len() == 6 && "ur-col"@[0] == 'u' && "ur-col"@[1] == 'r' && "ur-col"@[2] == '-' && "ur-col"@[3] == 'c' && "ur-col"@[4] == 'o' && "ur-col"@[5] == 'l');
    assert("rolling-mean-cols"@.len() == 17 && "rolling-mean-cols"@[0] == 'r' && "rolling-mean-cols"@[1] == 'o' && "rolling-mean-cols"@[2] == 'l' && "rolling-mean-cols"@[3] == 'l' && "rolling-mean-cols"@[4] == 'i' && "rolling-mean-cols"@[5] == 'n' && "rolling-mean-cols"@[6] == 'g' && "rolling-mean-cols"@[7] == '-' && "rolling-mean-cols"@[8] == 'm' && "rolling-mean-cols"@[9] == 'e' && "rolling-mean-cols"@[10] == 'a' && "rolling-mean-cols"@[11] == 'n' && "rolling-mean-cols"@[12] == '-' && "rolling-mean-cols"@[13] == 'c' && "rolling-mean-cols"@[14] == 'o' && "rolling-mean-cols"@[15] == 'l' && "rolling-mean-cols"@[16] == 's');
    assert("rolling-std-cols"@.len() == 16 && "rolling-std-cols"@[0] == 'r' && "rolling-std-cols"@[1] == 'o' && "rolling-std-cols"@[2] == 'l' && "rolling-std-cols"@[3] == 'l' && "rolling-std-cols"@[4] == 'i' && "rolling-std-cols"@[5] == 'n' && "rolling-std-cols"@[6] == 'g' && "rolling-std-cols"@[7] == '-' && "rolling-std-cols"@[8] == 's' && "rolling-std-cols"@[9] == 't' && "rolling-std-cols"@[10] == 'd' && "rolling-std-cols"@[11] == '-' && "rolling-std-cols"@[12] == 'c' && "rolling-std-cols"@[13] == 'o' && "rolling-std-cols"@[14] == 'l' && "rolling-std-cols"@[15] == 's');
    assert("rolling-zscore-cols"@.len() == 19 && "rolling-zscore-cols"@[0] == 'r' && "rolling-zscore-cols"@[1] == 'o' && "rolling-zscore-cols"@[2] == 'l' && "rolling-zscore-cols"@[3] == 'l' && "rolling-zscore-cols"@[4] == 'i' && "rolling-zscore-cols"@[5] == 'n' && "rolling-zscore-cols"@[6] == 'g' && "rolling-zscore-cols"@[7] == '-' && "rolling-zscore-cols"@[8] == 'z' && "rolling-zscore-cols"@[9] == 's' && "rolling-zscore-cols"@[10] == 'c' && "rolling-zscore-cols"@[11] == 'o' && "rolling-zscore-cols"@[12] == 'r' && "rolling-zscore-cols"@[13] == 'e' && "rolling-zscore-cols"@[14] == '-' && "rolling-zscore-cols"@[15] == 'c' && "rolling-zscore-cols"@[16] == 'o' && "rolling-zscore-cols"@[17] == 'l' && "rolling-zscore-cols"@[18] == 's');
    assert("rol_avg_cols"@.len() == 12 && "rol_avg_cols"@[0] == 'r' && "rol_avg_cols"@[1] == 'o' && "rol_avg_cols"@[2] == 'l' && "rol_avg_cols"@[3] == '_' && "rol_avg_cols"@[4] == 'a' && "rol_avg_cols"@[5] == 'v' && "rol_avg_cols"@[6] == 'g' && "rol_avg_cols"@[7] == '_' && "rol_avg_cols"@[8] == 'c' && "rol_avg_cols"@[9] == 'o' && "rol_avg_cols"@[10] == 'l' && "rol_avg_cols"@[11] == 's');
    assert("rol_std_cols"@.len() == 12 && "rol_std_cols"@[0] == 'r' && "rol_std_cols"@[1] == 'o' && "rol_std_cols"@[2] == 'l' && "rol_std_cols"@[3] == '_' && "rol_std_cols"@[4] == 's' && "rol_std_cols"@[5] == 't' && "rol_std_cols"@[6] == 'd' && "rol_std_cols"@[7] == '_' && "rol_std_cols"@[8] == 'c' && "rol_std_cols"@[9] == 'o' && "rol_std_cols"@[10] == 'l' && "rol_std_cols"@[11] == 's');
    assert("rol_zsc_cols"@.len() == 12 && "rol_zsc_cols"@[0] == 'r' && "rol_zsc_cols"@[1] == 'o' && "rol_zsc_cols"@[2] == 'l' && "rol_zsc_cols"@[3] == '_' && "rol_zsc_cols"@[4] == 'z' && "rol_zsc_cols"@[5] == 's' && "rol_zsc_cols"@[6] == 'c' && "rol_zsc_cols"@[7] == '_' && "rol_zsc_cols"@[8] == 'c' && "rol_zsc_cols"@[9] == 'o' && "rol_zsc_cols"@[10] == 'l' && "rol_zsc_cols"@[11] == 's');
    assert("run_sum_cols"@.len() == 12 && "run_sum_cols"@[0] == 'r' && "run_sum_cols"@[1] == 'u' && "run_sum_cols"@[2] == 'n' && "run_sum_cols"@[3] == '_' && "run_sum_cols"@[4] == 's' && "run_sum_cols"@[5] == 'u' && "run_sum_cols"@[6] == 'm' && "run_sum_cols"@[7] == '_' && "run_sum_cols"@[8] == 'c' && "run_sum_cols"@[9] == 'o' && "run_sum_cols"@[10] == 'l' && "run_sum_cols"@[11] == 's');
    assert("rsk_adj_cols"@.len() == 12 && "rsk_adj_cols"@[0] == 'r' && "rsk_adj_cols"@[1] == 's' && "rsk_adj_cols"@[2] == 'k' && "rsk_adj_cols"@[3] == '_' && "rsk_adj_cols"@[4] == 'a' && "rsk_adj_cols"@[5] == 'd' && "rsk_adj_cols"@[6] == 'j' && "rsk_adj_cols"@[7] == '_' && "rsk_adj_cols"@[8] == 'c' && "rsk_adj_cols"@[9] == 'o' && "rsk_adj_cols"@[10] == 'l' && "rsk_adj_cols"@[11] == 's');
    assert("shift-cols"@.len() == 10 && "shift-cols"@[0] == 's' && "shift-cols"@[1] == 'h' && "shift-cols"@[2] == 'i' && "shift-cols"@[3] == 'f' && "shift-cols"@[4] == 't' && "shift-cols"@[5] == '-' && "shift-cols"@[6] == 'c' && "shift-cols"@[7] == 'o' && "shift-cols"@[8] == 'l' && "shift-cols"@[9] == 's');
    assert("shift"@.len() == 5 && "shift"@[0] == 's' && "shift"@[1] == 'h' && "shift"@[2] == 'i' && "shift"@[3] == 'f' && "shift"@[4] == 't');
    assert("shift-col"@.len() == 9 && "shift-col"@[0] == 's' && "shift-col"@[1] == 'h' && "shift-col"@[2] == 'i' && "shift-col"@[3] == 'f' && "shift-col"@[4] == 't' && "shift-col"@[5] == '-' && "shift-col"@[6] == 'c' && "shift-col"@[7] == 'o' && "shift-col"@[8] == 'l');
    assert(">-cols"@.len() == 6 && ">-cols"@[0] == '>' && ">-cols"@[1] == '-' && ">-cols"@[2] == 'c' && ">-cols"@[3] == 'o' && ">-cols"@[4] == 'l' && ">-cols"@[5] == 's');
    assert(">"@.len() == 1 && ">"@[0] == '>');
    assert(">-col"@.len() == 5 && ">-col"@[0] == '>' && ">-col"@[1] == '-' && ">-col"@[2] == 'c' && ">-col"@[3] == 'o' && ">-col"@[4] == 'l');
    assert("locf-cols"@.len() == 9 && "locf-cols"@[0] == 'l' && "locf-cols"@[1] == 'o' && "locf-cols"@[2] == 'c' && "locf-cols"@[3] == 'f' && "locf-cols"@[4] == '-' && "locf-cols"@[5] == 'c' && "locf-cols"@[6] == 'o' && "locf-cols"@[7] == 'l' && "locf-cols"@[8] == 's');
    assert("locf"@.len() == 4 && "locf"@[0] == 'l' && "locf"@[1] == 'o' && "locf"@[2] == 'c' && "locf"@[3] == 'f');
    assert("diff-cols"@.len() == 9 && "diff-cols"@[0] == 'd' && "diff-cols"@[1] == 'i' && "diff-cols"@[2] == 'f' && "diff-cols"@[3] == 'f' && "diff-cols"@[4] == '-' && "diff-cols"@[5] == 'c' && "diff-cols"@[6] == 'o' && "diff-cols"@[7] == 'l' && "diff-cols"@[8] == 's');
    assert("diff"@.len() == 4 && "diff"@[0] == 'd' && "diff"@[1] == 'i' && "diff"@[2] == 'f' && "diff"@[3] == 'f');
    assert("diff-col"@.len() == 8 && "diff-col"@[0] == 'd' && "diff-col"@[1] == 'i' && "diff-col"@[2] == 'f' && "diff-col"@[3] == 'f' && "diff-col"@[4] == '-' && "diff-col"@[5] == 'c' && "diff-col"@[6] == 'o' && "diff-col"@[7] == 'l');
    assert("ecs1-cols"@.len() == 9 && "ecs1-cols"@[0] == 'e' && "ecs1-cols"@[1] == 'c' && "ecs1-cols"@[2] == 's' && "ecs1-cols"@[3] == '1' && "ecs1-cols"@[4] == '-' && "ecs1-cols"@[5] == 'c' && "ecs1-cols"@[6] == 'o' && "ecs1-cols"@[7] == 'l' && "ecs1-cols"@[8] == 's');
    assert("ecs1"@.len() == 4 && "ecs1"@[0] == 'e' && "ecs1"@[1] == 'c' && "ecs1"@[2] == 's' && "ecs1"@[3] == '1');
    assert("ecs1-col"@.len() == 8 && "ecs1-col"@[0] == 'e' && "ecs1-col"@[1] == 'c' && "ecs1-col"@[2] == 's' && "ecs1-col"@[3] == '1' && "ecs1-col"@[4] == '-' && "ecs1-col"@[5] == 'c' && "ecs1-col"@[6] == 'o' && "ecs1-col"@[7] == 'l');
    assert("x-"@.len() == 2 && "x-"@[0] == 'x' && "x-"@[1] == '-');
    assert("xminus"@.len() == 6 && "xminus"@[0] == 'x' && "xminus"@[1] == 'm' && "xminus"@[2] == 'i' && "xminus"@[3] == 'n' && "xminus"@[4] == 'u' && "xminus"@[5] == 's');
    assert("w5"@.len() == 2 && "w5"@[0] == 'w' && "w5"@[1] == '5');
    assert("wkd"@.len() == 3 && "wkd"@[0] == 'w' && "wkd"@[1] == 'k' && "wkd"@[2] == 'd');
    assert("let*"@.len() == 4 && "let*"@[0] == 'l' && "let*"@[1] == 'e' && "let*"@[2] == 't' && "let*"@[3] == '*');
    assert("let"@.len() == 3 && "let"@[0] == 'l' && "let"@[1] == 'e' && "let"@[2] == 't');
    assert("add"@.len() == 3 && "add"@[0] == 'a' && "add"@[1] == 'd' && "add"@[2] == 'd');
    assert("+"@.len() == 1 && "+"@[0] == '+');
    assert("sub"@.len() == 3 && "sub"@[0] == 's' && "sub"@[1] == 'u' && "sub"@[2] == 'b');
    assert("-"@.len() == 1 && "-"@[0] == '-');
    assert("mul"@.len() == 3 && "mul"@[0] == 'm' && "mul"@[1] == 'u' && "mul"@[2] == 'l');
    assert("*"@.len() == 1 && "*"@[0] == '*');
    assert("div"@.len() == 3 && "div"@[0] == 'd' && "div"@[1] == 'i' && "div"@[2] == 'v');
    assert("/"@.len() == 1 && "/"@[0] == '/');
    assert("eq"@.len() == 2 && "eq"@[0] == 'e' && "eq"@[1] == 'q');
    assert("=="@.len() == 2 && "=="@[0] == '=' && "=="@[1] == '=');
    assert("neq"@.len() == 3 && "neq"@[0] == 'n' && "neq"@[1] == 'e' && "neq"@[2] == 'q');
    assert("!="@.len() == 2 && "!="@[0] == '!' && "!="@[1] == '=');
    assert("gt"@.len() == 2 && "gt"@[0] == 'g' && "gt"@[1] == 't');
    assert("gte"@.len() == 3 && "gte"@[0] == 'g' && "gte"@[1] == 't' && "gte"@[2] == 'e');
    assert(">="@.len() == 2 && ">="@[0] == '>' && ">="@[1] == '=');
    assert("lt"@.len() == 2 && "lt"@[0] == 'l' && "lt"@[1] == 't');
    assert("<"@.len() == 1 && "<"@[0] == '<');
    assert("lte"@.len() == 3 && "lte"@[0] == 'l' && "lte"@[1] == 't' && "lte"@[2] == 'e');
    assert("<="@.len() == 2 && "<="@[0] == '<' && "<="@[1] == '=');
    assert("ln"@.len() == 2 && "ln"@[0] == 'l' && "ln"@[1] == 'n');
    assert("log"@.len() == 3 && "log"@[0] == 'l' && "log"@[1] == 'o' && "log"@[2] == 'g');
    assert(canonical_name("gt"@) == Some(">"@));
    assert(canonical_name("gte"@) == Some(">="@));
    assert(canonical_name("lt"@) == Some("<"@));
    assert(canonical_name("lte"@) == Some("<="@));
    assert(canonical_name("eq"@) == Some("=="@));
    assert(canonical_name("neq"@) == Some("!="@));
    assert(canonical_name("add"@) == Some("+"@));
    assert(canonical_name("sub"@) == Some("-"@));
    assert(canonical_name("mul"@) == Some("*"@));
    assert(canonical_name("div"@) == Some("/"@));
    assert(canonical_name(">"@) is None);
    assert(canonical_name(">="@) is None);
    assert(canonical_name("<"@) is None);
    assert(canonical_name("<="@) is None);
    assert(canonical_name("=="@) is None);
    assert(canonical_name("!="@) is None);
    assert(canonical_name("+"@) is None);
    assert(canonical_name("-"@) is None);
    assert(canonical_name("*"@) is None);
    assert(canonical_name("/"@) is None);
}

/// Operations with one parameter written `(op param data)` in prefix form.
pub open spec fn param_op_2(name: Seq<char>) -> bool {
    name == "rol_avg"@
        || name == "rol_std"@
        || name == "rolling-mean-min2"@
        || name == "rolling-std-min2"@
        || name == "rol_zsc"@
        || name == "shift"@
        || name == "diff"@
        || name == "keep"@
        || name == "lag-obs"@
        || name == "shift-obs"@
        || name == "ft-mean"@
        || name == "ft-std"@
        || name == "ft-zscore"@
}

/// Operations with two parameters written `(op w step data)` in prefix form.
pub open spec fn param_op_3(name: Seq<char>) -> bool {
    name == "rol_zsc"@
        || name == "rsk_adj"@
}

pub open spec fn is_int(e: ExprV) -> bool {
    e is Int
}

/// The name of a symbol in function position.
pub open spec fn head_name(es: Seq<ExprV>, ns: Seq<Seq<char>>) -> Option<Seq<char>> {
    if es.len() > 0 {
        match es[0] {
            ExprV::Sym(s) => if s < ns.len() {
                Some(ns[s as int])
            } else {
                None
            },
            _ => None,
        }
    } else {
        None
    }
}

/// The alias rewrite of a list's function position.
pub open spec fn alias_step(es: Seq<ExprV>, ns: Seq<Seq<char>>) -> (Seq<ExprV>, Seq<Seq<char>>) {
    match head_name(es, ns) {
        Some(n) => match canonical_name(n) {
            Some(c) => {
                let (ns2, id) = spec_intern(ns, c);
                (es.update(0, ExprV::Sym(id as nat)), ns2)
            },
            None => (es, ns),
        },
        None => (es, ns),
    }
}

/// Whether a list is a parameter-first call of a 2- or 3-parameter operation.
pub open spec fn swap2(es: Seq<ExprV>, ns: Seq<Seq<char>>) -> bool {
    &&& es.len() == 3
    &&& head_name(es, ns) is Some
    &&& param_op_2(head_name(es, ns)->0)
    &&& is_int(es[1])
    &&& !is_int(es[2])
}

pub open spec fn swap3(es: Seq<ExprV>, ns: Seq<Seq<char>>) -> bool {
    &&& es.len() == 4
    &&& head_name(es, ns) is Some
    &&& param_op_3(head_name(es, ns)->0)
    &&& is_int(es[1])
    &&& is_int(es[2])
    &&& !is_int(es[3])
}

/// Data first: `(op p d)` becomes `(op d p)`, `(op w s d)` becomes `(op d w s)`.
pub open spec fn reorder(es: Seq<ExprV>, ns: Seq<Seq<char>>) -> Seq<ExprV> {
    if swap2(es, ns) {
        seq![es[0], es[2], es[1]]
    } else if swap3(es, ns) {
        seq![es[0], es[3], es[1], es[2]]
    } else {
        es
    }
}

/// Canonicalization, children first (left to right), then the alias and the
/// argument order of the list itself; names of canonical spellings are
/// interned as they are met.
pub open spec fn canon(e: ExprV, ns: Seq<Seq<char>>) -> (ExprV, Seq<Seq<char>>)
    decreases e,
{
    match e {
        ExprV::List(es) => if es.len() == 0 {
            (e, ns)
        } else {
            let (es1, ns1) = canon_all(es, ns);
            let (es2, ns2) = alias_step(es1, ns1);
            (ExprV::List(reorder(es2, ns2)), ns2)
        },
        ExprV::Quote(x) => {
            let (y, ns1) = canon(*x, ns);
            (ExprV::Quote(Box::new(y)), ns1)
        },
        ExprV::QuasiQuote(x) => {
            let (y, ns1) = canon(*x, ns);
            (ExprV::QuasiQuote(Box::new(y)), ns1)
        },
        ExprV::Unquote(x) => {
            let (y, ns1) = canon(*x, ns);
            (ExprV::Unquote(Box::new(y)), ns1)
        },
        ExprV::UnquoteSplicing(x) => {
            let (y, ns1) = canon(*x, ns);
            (ExprV::UnquoteSplicing(Box::new(y)), ns1)
        },
        _ => (e, ns),
    }
}

pub open spec fn canon_all(es: Seq<ExprV>, ns: Seq<Seq<char>>) -> (Seq<ExprV>, Seq<Seq<char>>)
    decreases es,
{
    if es.len() == 0 {
        (Seq::empty(), ns)
    } else {
        let (a, ns1) = canon_all(es.drop_last(), ns);
        let (b, ns2) = canon(es.last(), ns1);
        (a.push(b), ns2)
    }
}

/// Normalization: thread-first expansion, then canonicalization.
pub open spec fn spec_normalize(e: ExprV, ns: Seq<Seq<char>>) -> (ExprV, Seq<Seq<char>>) {
    canon(expand(e, ns), ns)
}

/// A rewrite made by normalization, as reported to an inspector.
pub ghost enum EventV {
    ThreadFirst(nat),
    Alias(Seq<char>, Seq<char>),
    ArgSwap2(Seq<char>),
    ArgSwap3(Seq<char>),
}

/// The thread-first expansions met by the expansion of `e`, outermost first
/// and left to right; the forms inside a thread are expanded without report.
pub open spec fn expand_events(e: ExprV, ns: Seq<Seq<char>>) -> Seq<EventV>
    decreases e,
{
    match e {
        ExprV::List(es) => if es.len() == 0 {
            Seq::empty()
        } else if is_sym_named(es[0], ns, "->"@) {
            seq![EventV::ThreadFirst(if es.len() >= 2 { (es.len() - 2) as nat } else { 0 })]
        } else {
            expand_events_all(es, ns)
        },
        ExprV::Quote(x) => expand_events(*x, ns),
        ExprV::QuasiQuote(x) => expand_events(*x, ns),
        ExprV::Unquote(x) => expand_events(*x, ns),
        ExprV::UnquoteSplicing(x) => expand_events(*x, ns),
        _ => Seq::empty(),
    }
}

pub open spec fn expand_events_all(es: Seq<ExprV>, ns: Seq<Seq<char>>) -> Seq<EventV>
    decreases es,
{
    if es.len() == 0 {
        Seq::empty()
    } else {
        expand_events_all(es.drop_last(), ns) + expand_events(es.last(), ns)
    }
}

/// The alias rewrite of a list's function position, if one is made.
pub open spec fn alias_events(es: Seq<ExprV>, ns: Seq<Seq<char>>) -> Seq<EventV> {
    match head_name(es, ns) {
        Some(n) => match canonical_name(n) {
            Some(c) => seq![EventV::Alias(n, c)],
            None => Seq::empty(),
        },
        None => Seq::empty(),
    }
}

/// The argument-order rewrite of a list, if one is made.
pub open spec fn swap_events(es: Seq<ExprV>, ns: Seq<Seq<char>>) -> Seq<EventV> {
    if swap2(es, ns) {
        seq![EventV::ArgSwap2(head_name(es, ns)->0)]
    } else if swap3(es, ns) {
        seq![EventV::ArgSwap3(head_name(es, ns)->0)]
    } else {
        Seq::empty()
    }
}

/// The rewrites made by canonicalizing `e`, children before their list.
pub open spec fn canon_events(e: ExprV, ns: Seq<Seq<char>>) -> Seq<EventV>
    decreases e,
{
    match e {
        ExprV::List(es) => if es.len() == 0 {
            Seq::empty()
        } else {
            let (es1, ns1) = canon_all(es, ns);
            let (es2, ns2) = alias_step(es1, ns1);
            canon_events_all(es, ns) + alias_events(es1, ns1) + swap_events(es2, ns2)
        },
        ExprV::Quote(x) => canon_events(*x, ns),
        ExprV::QuasiQuote(x) => canon_events(*x, ns),
        ExprV::Unquote(x) => canon_events(*x, ns),
        ExprV::UnquoteSplicing(x) => canon_events(*x, ns),
        _ => Seq::empty(),
    }
}

pub open spec fn canon_events_all(es: Seq<ExprV>, ns: Seq<Seq<char>>) -> Seq<EventV>
    decreases es,
{
    if es.len() == 0 {
        Seq::empty()
    } else {
        canon_events_all(es.drop_last(), ns) + canon_events(es.last(), canon_all(es.drop_last(), ns).1)
    }
}

// ─── Executable ─────────────────────────────────────────────────────────────

/// Legacy spelling to canonical name.
pub fn canonical_name_of(name: &str) -> (r: Option<&'static str>)
    ensures
        match r {
            Some(c) => canonical_name(name@) == Some(c@),
            None => canonical_name(name@) is None,
        },
{
    if str_eq(name, "dlog-cols") {
        Some("dlog")
    } else if str_eq(name, "dlog-col") {
        Some("dlog")
    } else if str_eq(name, "rolling-mean") {
        Some("rol_avg")
    } else if str_eq(name, "rolling-std") {
        Some("rol_std")
    } else if str_eq(name, "rolling-zscore") {
        Some("rol_zsc")
    } else if str_eq(name, "wzs") {
        Some("rol_zsc")
    } else if str_eq(name, "cs1") {
        Some("run_sum")
    } else if str_eq(name, "ur") {
        Some("rsk_adj")
    } else if str_eq(name, "cs1-cols") {
        Some("run_sum")
    } else if str_eq(name, "cs1-col") {
        Some("run_sum")
    } else if str_eq(name, "ur-cols") {
        Some("rsk_adj")
    } else if str_eq(name, "ur-col") {
        Some("rsk_adj")
    } else if str_eq(name, "rolling-mean-cols") {
        Some("rol_avg")
    } else if str_eq(name, "rolling-std-cols") {
        Some("rol_std")
    } else if str_eq(name, "rolling-zscore-cols") {
        Some("rol_zsc")
    } else if str_eq(name, "rol_avg_cols") {
        Some("rol_avg")
    } else if str_eq(name, "rol_std_cols") {
        Some("rol_std")
    } else if str_eq(name, "rol_zsc_cols") {
        Some("rol_zsc")
    } else if str_eq(name, "run_sum_cols") {
        Some("run_sum")
    } else if str_eq(name, "rsk_adj_cols") {
        Some("rsk_adj")
    } else if str_eq(name, "shift-cols") {
        Some("shift")
    } else if str_eq(name, "shift-col") {
        Some("shift")
    } else if str_eq(name, ">-cols") {
        Some(">")
    } else if str_eq(name, ">-col") {
        Some(">")
    } else if str_eq(name, "locf-cols") {
        Some("locf")
    } else if str_eq(name, "diff-cols") {
        Some("diff")
    } else if str_eq(name, "diff-col") {
        Some("diff")
    } else if str_eq(name, "ecs1-cols") {
        Some("ecs1")
    } else if str_eq(name, "ecs1-col") {
        Some("ecs1")
    } else if str_eq(name, "x-") {
        Some("xminus")
    } else if str_eq(name, "w5") {
        Some("wkd")
    } else if str_eq(name, "let*") {
        Some("let")
    } else if str_eq(name, "add") {
        Some("+")
    } else if str_eq(name, "sub") {
        Some("-")
    } else if str_eq(name, "mul") {
        Some("*")
    } else if str_eq(name, "div") {
        Some("/")
    } else if str_eq(name, "eq") {
        Some("==")
    } else if str_eq(name, "neq") {
        Some("!=")
    } else if str_eq(name, "gt") {
        Some(">")
    } else if str_eq(name, "gte") {
        Some(">=")
    } else if str_eq(name, "lt") {
        Some("<")
    } else if str_eq(name, "lte") {
        Some("<=")
    } else if str_eq(name, "ln") {
        Some("log")
    } else {
        None
    }
}

fn is_param_op_2(name: &str) -> (r: bool)
    ensures
        r == param_op_2(name@),
{
    str_eq(name, "rol_avg")
        || str_eq(name, "rol_std")
        || str_eq(name, "rolling-mean-min2")
        || str_eq(name, "rolling-std-min2")
        || str_eq(name, "rol_zsc")
        || str_eq(name, "shift")
        || str_eq(name, "diff")
        || str_eq(name, "keep")
        || str_eq(name, "lag-obs")
        || str_eq(name, "shift-obs")
        || str_eq(name, "ft-mean")
        || str_eq(name, "ft-std")
        || str_eq(name, "ft-zscore")
}

fn is_param_op_3(name: &str) -> (r: bool)
    ensures
        r == param_op_3(name@),
{
    str_eq(name, "rol_zsc")
        || str_eq(name, "rsk_adj")
}

// ─── Properties used by the code ────────────────────────────────────────────

/// The first table extended by names pushed after it.
pub open spec fn extends(ns: Seq<Seq<char>>, ns2: Seq<Seq<char>>) -> bool {
    ns.len() <= ns2.len() && forall|i: int| 0 <= i < ns.len() ==> #[trigger] ns2[i] == ns[i]
}

pub proof fn lemma_syms_all(es: Seq<ExprV>, n: nat)
    ensures
        syms_below_all(es, n) == forall|i: int| 0 <= i < es.len() ==> #[trigger] syms_below(es[i], n),
    decreases es.len(),
{
    if es.len() > 0 {
        lemma_syms_all(es.drop_last(), n);
        if syms_below_all(es, n) {
            assert forall|i: int| 0 <= i < es.len() implies #[trigger] syms_below(es[i], n) by {
                if i < es.len() - 1 {
                    assert(es.drop_last()[i] == es[i]);
                }
            }
        } else if forall|i: int| 0 <= i < es.len() ==> #[trigger] syms_below(es[i], n) {
            assert forall|i: int| 0 <= i < es.drop_last().len() implies #[trigger] syms_below(es.drop_last()[i], n) by {
                assert(es.drop_last()[i] == es[i]);
            }
            assert(syms_below(es[es.len() - 1], n));
        }
    }
}

pub proof fn lemma_syms_grow(e: ExprV, n: nat, m: nat)
    requires
        syms_below(e, n),
        n <= m,
    ensures
        syms_below(e, m),
    decreases e,
{
    match e {
        ExprV::List(es) => {
            lemma_syms_all(es, n);
            lemma_syms_all(es, m);
            assert forall|i: int| 0 <= i < es.len() implies #[trigger] syms_below(es[i], m) by {
                lemma_syms_grow(es[i], n, m);
            }
        },
        ExprV::Quote(x) => lemma_syms_grow(*x, n, m),
        ExprV::QuasiQuote(x) => lemma_syms_grow(*x, n, m),
        ExprV::Unquote(x) => lemma_syms_grow(*x, n, m),
        ExprV::UnquoteSplicing(x) => lemma_syms_grow(*x, n, m),
        _ => {},
    }
}

pub proof fn lemma_expand_all(es: Seq<ExprV>, ns: Seq<Seq<char>>)
    ensures
        expand_all(es, ns).len() == es.len(),
        forall|i: int| 0 <= i < es.len() ==> #[trigger] expand_all(es, ns)[i] == expand(es[i], ns),
    decreases es.len(),
{
    if es.len() > 0 {
        lemma_expand_all(es.drop_last(), ns);
        assert forall|i: int| 0 <= i < es.len() implies #[trigger] expand_all(es, ns)[i] == expand(es[i], ns) by {
            if i < es.len() - 1 {
                assert(es.drop_last()[i] == es[i]);
            }
        }
    }
}

/// Expansion brings in no new symbols.
pub proof fn lemma_expand_syms(e: ExprV, ns: Seq<Seq<char>>)
    requires
        syms_below(e, ns.len()),
    ensures
        syms_below(expand(e, ns), ns.len()),
    decreases e,
{
    match e {
        ExprV::List(es) => {
            lemma_syms_all(es, ns.len());
            if es.len() > 0 && is_sym_named(es[0], ns, "->"@) {
                lemma_thread_first_syms(es.drop_first(), ns);
            } else if es.len() > 0 {
                lemma_expand_all_syms(es, ns);
                lemma_expand_all(es, ns);
                lemma_syms_all(expand_all(es, ns), ns.len());
                lemma_settle_syms(expand_all(es, ns), ns);
            }
        },
        ExprV::Quote(x) => lemma_expand_syms(*x, ns),
        ExprV::QuasiQuote(x) => lemma_expand_syms(*x, ns),
        ExprV::Unquote(x) => lemma_expand_syms(*x, ns),
        ExprV::UnquoteSplicing(x) => lemma_expand_syms(*x, ns),
        _ => {},
    }
}

pub proof fn lemma_expand_all_syms(es: Seq<ExprV>, ns: Seq<Seq<char>>)
    requires
        forall|i: int| 0 <= i < es.len() ==> #[trigger] syms_below(es[i], ns.len()),
    ensures
        syms_below_all(expand_all(es, ns), ns.len()),
    decreases es,
{
    lemma_expand_all(es, ns);
    assert forall|i: int| 0 <= i < es.len() implies #[trigger] syms_below(expand_all(es, ns)[i], ns.len()) by {
        assert(decreases_to!(es => es[i]));
        lemma_expand_syms(es[i], ns);
    }
    lemma_syms_all(expand_all(es, ns), ns.len());
}

pub proof fn lemma_thread_first_syms(args: Seq<ExprV>, ns: Seq<Seq<char>>)
    requires
        forall|i: int| 0 <= i < args.len() ==> #[trigger] syms_below(args[i], ns.len()),
    ensures
        syms_below(thread_first(args, ns), ns.len()),
    decreases args,
{
    if args.len() == 1 {
        lemma_expand_syms(args[0], ns);
    } else if args.len() > 1 {
        assert forall|i: int| 0 <= i < args.drop_last().len() implies #[trigger] syms_below(args.drop_last()[i], ns.len()) by {
            assert(args.drop_last()[i] == args[i]);
        }
        lemma_thread_first_syms(args.drop_last(), ns);
        assert(syms_below(args[args.len() - 1], ns.len()));
        lemma_thread_into_syms(thread_first(args.drop_last(), ns), args.last(), ns);
    }
}

pub proof fn lemma_thread_into_syms(v: ExprV, form: ExprV, ns: Seq<Seq<char>>)
    requires
        syms_below(v, ns.len()),
        syms_below(form, ns.len()),
    ensures
        syms_below(thread_into(v, form, ns), ns.len()),
    decreases form,
{
    match form {
        ExprV::List(fs) => {
            if fs.len() > 0 {
                lemma_syms_all(fs, ns.len());
                lemma_expand_syms(fs[0], ns);
                let rest = fs.drop_first();
                assert forall|i: int| 0 <= i < rest.len() implies #[trigger] syms_below(rest[i], ns.len()) by {
                    assert(rest[i] == fs[i + 1]);
                }
                lemma_expand_all_syms(rest, ns);
                lemma_syms_all(expand_all(rest, ns), ns.len());
                let out = seq![expand(fs[0], ns), v] + expand_all(rest, ns);
                assert forall|i: int| 0 <= i < out.len() implies #[trigger] syms_below(out[i], ns.len()) by {
                    if i >= 2 {
                        assert(out[i] == expand_all(rest, ns)[i - 2]);
                    }
                }
                lemma_settle_syms(out, ns);
            }
        },
        ExprV::Sym(_) => {
            let out = seq![form, v];
            assert forall|i: int| 0 <= i < out.len() implies #[trigger] syms_below(out[i], ns.len()) by {}
            lemma_settle_syms(out, ns);
        },
        _ => {},
    }
}

/// Settling a list of expanded elements brings in no new symbols.
pub proof fn lemma_settle_syms(xs: Seq<ExprV>, ns: Seq<Seq<char>>)
    requires
        forall|i: int| 0 <= i < xs.len() ==> #[trigger] syms_below(xs[i], ns.len()),
    ensures
        syms_below(settle_list(xs, ns), ns.len()),
{
    if xs.len() > 0 && is_sym_named(xs[0], ns, "->"@) {
        if xs.len() > 1 {
            let rs = xs.subrange(2, xs.len() as int);
            assert forall|i: int| 0 <= i < rs.len() implies #[trigger] syms_below(rs[i], ns.len()) by {
                assert(rs[i] == xs[i + 2]);
            }
            assert(syms_below(xs[1], ns.len()));
            lemma_thread_settled_all_syms(xs[1], rs, ns);
        }
    } else {
        lemma_syms_all(xs, ns.len());
    }
}

pub proof fn lemma_thread_settled_all_syms(v: ExprV, rs: Seq<ExprV>, ns: Seq<Seq<char>>)
    requires
        syms_below(v, ns.len()),
        forall|i: int| 0 <= i < rs.len() ==> #[trigger] syms_below(rs[i], ns.len()),
    ensures
        syms_below(thread_settled_all(v, rs, ns), ns.len()),
    decreases rs.len(),
{
    if rs.len() > 0 {
        let d = rs.drop_last();
        assert forall|i: int| 0 <= i < d.len() implies #[trigger] syms_below(d[i], ns.len()) by {
            assert(d[i] == rs[i]);
        }
        lemma_thread_settled_all_syms(v, d, ns);
        let acc = thread_settled_all(v, d, ns);
        let r = rs.last();
        assert(syms_below(rs[rs.len() - 1], ns.len()));
        match r {
            ExprV::List(xs) => {
                if xs.len() > 0 {
                    lemma_syms_all(xs, ns.len());
                    let out = xs.insert(1, acc);
                    xs.insert_ensures(1, acc);
                    assert forall|i: int| 0 <= i < out.len() implies #[trigger] syms_below(out[i], ns.len()) by {
                        if i >= 2 {
                            assert(out[(i - 1) + 1] == xs[i - 1]);
                        }
                    }
                    lemma_syms_all(out, ns.len());
                }
            },
            ExprV::Sym(_) => {
                let out = seq![r, acc];
                assert forall|i: int| 0 <= i < out.len() implies #[trigger] syms_below(out[i], ns.len()) by {}
                lemma_syms_all(out, ns.len());
            },
            _ => {},
        }
    }
}

pub proof fn lemma_intern_extends(ns: Seq<Seq<char>>, c: Seq<char>)
    requires
        no_dups(ns),
    ensures
        extends(ns, spec_intern(ns, c).0),
        no_dups(spec_intern(ns, c).0),
        0 <= spec_intern(ns, c).1 < spec_intern(ns, c).0.len(),
        spec_intern(ns, c).0[spec_intern(ns, c).1] == c,
{
    if ns.contains(c) {
        let p = crate::ast::position_of(ns, c);
        assert(0 <= p < ns.len() && ns[p] == c);
    } else {
        let n2 = ns.push(c);
        assert forall|i: int, j: int| 0 <= i < n2.len() && 0 <= j < n2.len() && i != j implies n2[i] != n2[j] by {
            if i == ns.len() as int {
                assert(ns[j] == n2[j]);
            } else if j == ns.len() as int {
                assert(ns[i] == n2[i]);
            }
        }
    }
}

/// Canonicalization extends the name table, keeps it free of duplicates, and
/// gives an expression whose symbols are in the extended table.
pub proof fn lemma_canon_props(e: ExprV, ns: Seq<Seq<char>>)
    requires
        no_dups(ns),
        syms_below(e, ns.len()),
    ensures
        extends(ns, canon(e, ns).1),
        no_dups(canon(e, ns).1),
        syms_below(canon(e, ns).0, canon(e, ns).1.len()),
    decreases e,
{
    match e {
        ExprV::List(es) => {
            if es.len() > 0 {
                lemma_syms_all(es, ns.len());
                lemma_canon_all_props(es, ns);
                let (es1, ns1) = canon_all(es, ns);
                lemma_syms_all(es1, ns1.len());
                let (es2, ns2) = alias_step(es1, ns1);
                if let Some(n) = head_name(es1, ns1) {
                    if let Some(c) = canonical_name(n) {
                        lemma_intern_extends(ns1, c);
                        assert forall|i: int| 0 <= i < es2.len() implies #[trigger] syms_below(es2[i], ns2.len()) by {
                            if i > 0 {
                                lemma_syms_grow(es1[i], ns1.len(), ns2.len());
                            }
                        }
                    }
                }
                lemma_syms_all(es2, ns2.len());
                let out = reorder(es2, ns2);
                assert forall|i: int| 0 <= i < out.len() implies #[trigger] syms_below(out[i], ns2.len()) by {}
                lemma_syms_all(out, ns2.len());
            }
        },
        ExprV::Quote(x) => lemma_canon_props(*x, ns),
        ExprV::QuasiQuote(x) => lemma_canon_props(*x, ns),
        ExprV::Unquote(x) => lemma_canon_props(*x, ns),
        ExprV::UnquoteSplicing(x) => lemma_canon_props(*x, ns),
        _ => {},
    }
}

pub proof fn lemma_canon_all_props(es: Seq<ExprV>, ns: Seq<Seq<char>>)
    requires
        no_dups(ns),
        forall|i: int| 0 <= i < es.len() ==> #[trigger] syms_below(es[i], ns.len()),
    ensures
        extends(ns, canon_all(es, ns).1),
        no_dups(canon_all(es, ns).1),
        canon_all(es, ns).0.len() == es.len(),
        forall|i: int|
            0 <= i < es.len() ==> #[trigger] syms_below(canon_all(es, ns).0[i], canon_all(es, ns).1.len()),
    decreases es,
{
    if es.len() > 0 {
        let d = es.drop_last();
        assert forall|i: int| 0 <= i < d.len() implies #[trigger] syms_below(d[i], ns.len()) by {
            assert(d[i] == es[i]);
        }
        lemma_canon_all_props(d, ns);
        let (a, ns1) = canon_all(d, ns);
        assert(syms_below(es[es.len() - 1], ns.len()));
        lemma_syms_grow(es.last(), ns.len(), ns1.len());
        assert(decreases_to!(es => es.last()));
        lemma_canon_props(es.last(), ns1);
        let (b, ns2) = canon(es.last(), ns1);
        assert forall|i: int| 0 <= i < es.len() implies #[trigger] syms_below(canon_all(es, ns).0[i], ns2.len()) by {
            if i < es.len() - 1 {
                assert(canon_all(es, ns).0[i] == a[i]);
                lemma_syms_grow(a[i], ns1.len(), ns2.len());
            }
        }
    }
}

// ─── Executable ─────────────────────────────────────────────────────────────

/// Whether an expression is the symbol `->`.
fn is_arrow(e: &Expr, interner: &Interner) -> (r: bool)
    requires
        syms_below(e@, interner@.len()),
    ensures
        r == is_sym_named(e@, interner@, "->"@),
{
    match e {
        Expr::Sym(sym) => str_eq(interner.resolve(*sym), "->"),
        _ => false,
    }
}

fn normalize_expr(e: &Expr, interner: &Interner) -> (r: Expr)
    requires
        syms_below(e@, interner@.len()),
    ensures
        r@ == expand(e@, interner@),
    decreases e,
{
    match e {
        Expr::List(es) => {
            proof {
                lemma_exprs_view(es@);
                lemma_syms_all(exprs_view(es@), interner@.len());
            }
            if es.len() == 0 {
                let out: Vec<Expr> = Vec::new();
                assert(exprs_view(out@) =~= exprs_view(es@));
                return Expr::List(out);
            }
            assert(syms_below(exprs_view(es@)[0], interner@.len()));
            if is_arrow(&es[0], interner) {
                return normalize_thread_first(es, interner);
            }
            proof {
                lemma_expand_all_syms(exprs_view(es@), interner@);
            }
            settle_list_exec(normalize_all(es, interner), interner)
        },
        Expr::Nil => Expr::Nil,
        Expr::Bool(b) => Expr::Bool(*b),
        Expr::Int(n) => Expr::Int(*n),
        Expr::Float(f) => Expr::Float(*f),
        Expr::Str(s) => Expr::Str(s.clone()),
        Expr::Sym(s) => Expr::Sym(*s),
        Expr::Quote(x) => Expr::Quote(Box::new(normalize_expr(x, interner))),
        Expr::QuasiQuote(x) => Expr::QuasiQuote(Box::new(normalize_expr(x, interner))),
        Expr::Unquote(x) => Expr::Unquote(Box::new(normalize_expr(x, interner))),
        Expr::UnquoteSplicing(x) => Expr::UnquoteSplicing(Box::new(normalize_expr(x, interner))),
    }
}

fn normalize_all(es: &Vec<Expr>, interner: &Interner) -> (r: Vec<Expr>)
    requires
        syms_below_all(exprs_view(es@), interner@.len()),
    ensures
        exprs_view(r@) == expand_all(exprs_view(es@), interner@),
    decreases es,
{
    proof {
        lemma_exprs_view(es@);
        lemma_syms_all(exprs_view(es@), interner@.len());
        lemma_expand_all(exprs_view(es@), interner@);
    }
    let mut out: Vec<Expr> = Vec::new();
    let mut i: usize = 0;
    while i < es.len()
        invariant
            i <= es@.len(),
            out@.len() == i,
            exprs_view(es@).len() == es@.len(),
            forall|j: int| 0 <= j < es@.len() ==> #[trigger] exprs_view(es@)[j] == expr_view(es@[j]),
            forall|j: int| 0 <= j < es@.len() ==> #[trigger] syms_below(exprs_view(es@)[j], interner@.len()),
            forall|j: int| 0 <= j < i ==> expr_view(#[trigger] out@[j]) == expand(expr_view(es@[j]), interner@),
        decreases es@.len() - i,
    {
        assert(decreases_to!(es => es@[i as int]));
        assert(syms_below(exprs_view(es@)[i as int], interner@.len()));
        out.push(normalize_expr(&es[i], interner));
        i += 1;
    }
    proof {
        lemma_exprs_view(out@);
        assert(exprs_view(out@) =~= expand_all(exprs_view(es@), interner@));
    }
    out
}

/// `(-> args...)`: thread the first argument through the rest (`es[0]` is the arrow).
#[verifier::rlimit(40)]
fn normalize_thread_first(es: &Vec<Expr>, interner: &Interner) -> (r: Expr)
    requires
        es@.len() >= 1,
        syms_below_all(exprs_view(es@), interner@.len()),
    ensures
        r@ == thread_first(exprs_view(es@).drop_first(), interner@),
    decreases es,
{
    let ghost args = exprs_view(es@).drop_first();
    proof {
        lemma_exprs_view(es@);
        lemma_syms_all(exprs_view(es@), interner@.len());
    }
    let n = es.len();
    if n == 1 {
        return Expr::Nil;
    }
    assert(decreases_to!(es => es@[1]));
    assert(syms_below(exprs_view(es@)[1], interner@.len()));
    let mut current = normalize_expr(&es[1], interner);
    assert(args.take(1).len() == 1 && args.take(1)[0] == args[0]);
    let mut j: usize = 2;
    while j < n
        invariant
            2 <= j <= n,
            n == es@.len(),
            args == exprs_view(es@).drop_first(),
            exprs_view(es@).len() == es@.len(),
            forall|k: int| 0 <= k < es@.len() ==> #[trigger] exprs_view(es@)[k] == expr_view(es@[k]),
            forall|k: int| 0 <= k < es@.len() ==> #[trigger] syms_below(exprs_view(es@)[k], interner@.len()),
            current@ == thread_first(args.take(j - 1), interner@),
        decreases n - j,
    {
        assert(args.take(j as int).drop_last() =~= args.take(j - 1));
        assert(args.take(j as int).last() == exprs_view(es@)[j as int]);
        assert(decreases_to!(es => es@[j as int]));
        proof {
            assert(syms_below(exprs_view(es@)[j as int], interner@.len()));
            lemma_thread_first_syms(args.take(j - 1), interner@);
            assert forall|k: int| 0 <= k < args.take(j - 1).len() implies #[trigger] syms_below(args.take(j - 1)[k], interner@.len()) by {
                assert(args.take(j - 1)[k] == exprs_view(es@)[k + 1]);
            }
        }
        current = thread_into_form(current, &es[j], interner);
        j += 1;
    }
    assert(args.take(n - 1) =~= args);
    current
}

/// Thread a value into a form as its first argument.
fn thread_into_form(value: Expr, form: &Expr, interner: &Interner) -> (r: Expr)
    requires
        syms_below(value@, interner@.len()),
        syms_below(form@, interner@.len()),
    ensures
        r@ == thread_into(value@, form@, interner@),
    decreases form,
{
    match form {
        Expr::List(fs) => {
            proof {
                lemma_exprs_view(fs@);
            }
            if fs.len() == 0 {
                return value;
            }
            proof {
                lemma_syms_all(exprs_view(fs@), interner@.len());
                lemma_expand_all(exprs_view(fs@).drop_first(), interner@);
            }
            let ghost fv = exprs_view(fs@);
            let mut out: Vec<Expr> = Vec::new();
            assert(decreases_to!(form => fs@[0]));
            assert(syms_below(fv[0], interner@.len()));
            out.push(normalize_expr(&fs[0], interner));
            out.push(value);
            let mut k: usize = 1;
            while k < fs.len()
                invariant
                    1 <= k <= fs@.len(),
                    out@.len() == k + 1,
                    fv == exprs_view(fs@),
                    fv.len() == fs@.len(),
                    forall|j: int| 0 <= j < fs@.len() ==> #[trigger] fv[j] == expr_view(fs@[j]),
                    forall|j: int| 0 <= j < fs@.len() ==> #[trigger] syms_below(fv[j], interner@.len()),
                    expr_view(out@[0]) == expand(fv[0], interner@),
                    expr_view(out@[1]) == value@,
                    forall|j: int| 2 <= j < k + 1 ==> expr_view(#[trigger] out@[j]) == expand(fv[j - 1], interner@),
                    *form == Expr::List(*fs),
                decreases fs@.len() - k,
            {
                assert(decreases_to!(*fs => fs@[k as int]));
                assert(decreases_to!(*form => (*form)->List_0));
                assert((*form)->List_0 == *fs);
                assert(decreases_to!(form => fs@[k as int]));
                assert(syms_below(fv[k as int], interner@.len()));
                out.push(normalize_expr(&fs[k], interner));
                k += 1;
            }
            proof {
                lemma_exprs_view(out@);
                let want = seq![expand(fv[0], interner@), value@] + expand_all(fv.drop_first(), interner@);
                assert forall|j: int| 0 <= j < out@.len() implies #[trigger] exprs_view(out@)[j] == want[j] by {
                    if j >= 2 {
                        assert(fv.drop_first()[j - 2] == fv[j - 1]);
                    }
                }
                assert(exprs_view(out@) =~= want);
                lemma_expand_syms(fv[0], interner@);
                lemma_expand_all_syms(fv.drop_first(), interner@);
                lemma_syms_all(expand_all(fv.drop_first(), interner@), interner@.len());
                assert forall|j: int| 0 <= j < want.len() implies #[trigger] syms_below(want[j], interner@.len()) by {
                    if j >= 2 {
                        assert(want[j] == expand_all(fv.drop_first(), interner@)[j - 2]);
                    }
                }
                lemma_syms_all(want, interner@.len());
            }
            settle_list_exec(out, interner)
        },
        Expr::Sym(s) => {
            let mut out: Vec<Expr> = Vec::new();
            out.push(Expr::Sym(*s));
            out.push(value);
            proof {
                lemma_exprs_view(out@);
                assert(exprs_view(out@) =~= seq![form@, value@]);
                lemma_syms_all(exprs_view(out@), interner@.len());
            }
            settle_list_exec(out, interner)
        },
        _ => value,
    }
}

/// A list whose elements are already expanded, settled: threaded in turn
/// where its head is `->`.
fn settle_list_exec(xs: Vec<Expr>, interner: &Interner) -> (r: Expr)
    requires
        syms_below_all(exprs_view(xs@), interner@.len()),
    ensures
        r@ == settle_list(exprs_view(xs@), interner@),
{
    let ghost xv = exprs_view(xs@);
    proof {
        lemma_exprs_view(xs@);
        lemma_syms_all(xv, interner@.len());
    }
    if xs.len() == 0 {
        return Expr::List(xs);
    }
    assert(syms_below(xv[0], interner@.len()));
    if !is_arrow(&xs[0], interner) {
        return Expr::List(xs);
    }
    if xs.len() == 1 {
        return Expr::Nil;
    }
    let n = xs.len();
    let mut acc = crate::ast::copy_expr(&xs[1]);
    let mut j: usize = 2;
    assert(xv.subrange(2, 2) =~= Seq::<ExprV>::empty());
    while j < n
        invariant
            2 <= j <= n,
            n == xs@.len(),
            xv == exprs_view(xs@),
            xv.len() == xs@.len(),
            forall|k: int| 0 <= k < xs@.len() ==> #[trigger] xv[k] == expr_view(xs@[k]),
            forall|k: int| 0 <= k < xs@.len() ==> #[trigger] syms_below(xv[k], interner@.len()),
            acc@ == thread_settled_all(xv[1], xv.subrange(2, j as int), interner@),
        decreases n - j,
    {
        assert(xv.subrange(2, j + 1).drop_last() =~= xv.subrange(2, j as int));
        assert(xv.subrange(2, j + 1).last() == xv[j as int]);
        assert(syms_below(xv[j as int], interner@.len()));
        let r = crate::ast::copy_expr(&xs[j]);
        acc = thread_settled_exec(acc, r, interner);
        j += 1;
    }
    acc
}

/// A value threaded into a form that is already expanded.
fn thread_settled_exec(v: Expr, r: Expr, interner: &Interner) -> (out: Expr)
    requires
        syms_below(r@, interner@.len()),
    ensures
        out@ == thread_settled(v@, r@, interner@),
{
    match r {
        Expr::List(mut rs) => {
            let ghost old_rs = rs@;
            proof {
                lemma_exprs_view(old_rs);
            }
            if rs.len() == 0 {
                return v;
            }
            rs.insert(1, v);
            proof {
                lemma_exprs_view(rs@);
                old_rs.insert_ensures(1, v);
                exprs_view(old_rs).insert_ensures(1, v@);
                assert forall|i: int| 0 <= i < rs@.len() implies #[trigger] exprs_view(rs@)[i] == exprs_view(old_rs).insert(1, v@)[i] by {
                    if i >= 2 {
                        assert(rs@[(i - 1) + 1] == old_rs[i - 1]);
                        assert(exprs_view(old_rs).insert(1, v@)[(i - 1) + 1] == exprs_view(old_rs)[i - 1]);
                    }
                }
                assert(exprs_view(rs@) =~= exprs_view(old_rs).insert(1, v@));
            }
            Expr::List(rs)
        },
        Expr::Sym(s) => {
            let head = Expr::Sym(s);
            if is_arrow(&head, interner) {
                return v;
            }
            let mut out: Vec<Expr> = Vec::new();
            out.push(head);
            out.push(v);
            proof {
                lemma_exprs_view(out@);
                assert(exprs_view(out@) =~= seq![r@, v@]);
            }
            Expr::List(out)
        },
        _ => v,
    }
}

fn is_int_expr(e: &Expr) -> (r: bool)
    ensures
        r == is_int(e@),
{
    match e {
        Expr::Int(_) => true,
        _ => false,
    }
}

proof fn lemma_exprs_view_push(s: Seq<Expr>, x: Expr)
    ensures
        exprs_view(s.push(x)) == exprs_view(s).push(expr_view(x)),
{
    assert(s.push(x).drop_last() =~= s);
}

fn canonicalize_all(
    es: &Vec<Expr>,
    interner: &mut Interner,
    trace: bool,
    events: &mut Vec<RewriteEvent>,
) -> (r: Vec<Expr>)
    requires
        old(interner).wf(),
        syms_below_all(exprs_view(es@), old(interner)@.len()),
    ensures
        final(interner).wf(),
        (exprs_view(r@), final(interner)@) == canon_all(exprs_view(es@), old(interner)@),
        events_view(final(events)@) == events_view(old(events)@) + (if trace {
            canon_events_all(exprs_view(es@), old(interner)@)
        } else {
            Seq::empty()
        }),
    decreases es,
{
    let ghost ev = exprs_view(es@);
    let ghost ns0 = interner@;
    let ghost ev0 = events@;
    proof {
        lemma_exprs_view(es@);
        lemma_syms_all(ev, ns0.len());
    }
    let mut out: Vec<Expr> = Vec::new();
    let mut i: usize = 0;
    assert(ev.take(0) =~= Seq::<ExprV>::empty());
    assert(events_view(events@) =~= events_view(ev0) + Seq::<EventV>::empty());
    while i < es.len()
        invariant
            i <= es@.len(),
            ev == exprs_view(es@),
            ev.len() == es@.len(),
            forall|j: int| 0 <= j < es@.len() ==> #[trigger] ev[j] == expr_view(es@[j]),
            forall|j: int| 0 <= j < es@.len() ==> #[trigger] syms_below(ev[j], ns0.len()),
            no_dups(ns0),
            interner.wf(),
            (exprs_view(out@), interner@) == canon_all(ev.take(i as int), ns0),
            events_view(events@) == events_view(ev0) + (if trace {
                canon_events_all(ev.take(i as int), ns0)
            } else {
                Seq::empty()
            }),
        decreases es@.len() - i,
    {
        let ghost mid = events@;
        let ghost ns_i = interner@;
        proof {
            let t = ev.take(i as int);
            assert forall|j: int| 0 <= j < t.len() implies #[trigger] syms_below(t[j], ns0.len()) by {
                assert(t[j] == ev[j]);
            }
            lemma_canon_all_props(t, ns0);
            lemma_syms_grow(ev[i as int], ns0.len(), interner@.len());
            assert(ev.take(i + 1).drop_last() =~= ev.take(i as int));
            assert(ev.take(i + 1).last() == ev[i as int]);
        }
        assert(decreases_to!(es => es@[i as int]));
        let c = canonicalize(&es[i], interner, trace, events);
        proof {
            lemma_exprs_view_push(out@, c);
            if trace {
                assert(canon_events_all(ev.take(i + 1), ns0) == canon_events_all(ev.take(i as int), ns0)
                    + canon_events(ev[i as int], ns_i));
                assert(events_view(events@) =~= events_view(ev0) + canon_events_all(ev.take(i + 1), ns0));
            }
        }
        out.push(c);
        i += 1;
    }
    assert(ev.take(es@.len() as int) =~= ev);
    out
}

/// The name of a symbol in function position, as an owned string.
fn head_text(e: &Expr, interner: &Interner) -> (r: String)
    requires
        e matches Expr::Sym(s) && s.0 < interner@.len(),
    ensures
        e matches Expr::Sym(s) && r@ == interner@[s.0 as int],
{
    match e {
        Expr::Sym(sym) => String::from_str(interner.resolve(*sym)),
        _ => String::new(),
    }
}

#[verifier::rlimit(40)]
fn canonicalize(e: &Expr, interner: &mut Interner, trace: bool, events: &mut Vec<RewriteEvent>) -> (r: Expr)
    requires
        old(interner).wf(),
        syms_below(e@, old(interner)@.len()),
    ensures
        final(interner).wf(),
        (r@, final(interner)@) == canon(e@, old(interner)@),
        events_view(final(events)@) == events_view(old(events)@) + (if trace {
            canon_events(e@, old(interner)@)
        } else {
            Seq::empty()
        }),
    decreases e,
{
    let ghost ev0 = events@;
    match e {
        Expr::List(es) => {
            proof {
                lemma_exprs_view(es@);
            }
            if es.len() == 0 {
                let out: Vec<Expr> = Vec::new();
                assert(exprs_view(out@) =~= exprs_view(es@));
                assert(events_view(events@) =~= events_view(ev0) + Seq::<EventV>::empty());
                return Expr::List(out);
            }
            let ghost ns0 = interner@;
            let ghost ev = exprs_view(es@);
            proof {
                lemma_syms_all(ev, ns0.len());
                lemma_canon_all_props(ev, ns0);
            }
            let mut out = canonicalize_all(es, interner, trace, events);
            let ghost es1 = exprs_view(out@);
            let ghost ns1 = interner@;
            let ghost ev1 = events@;
            proof {
                lemma_exprs_view(out@);
                assert(es1.len() > 0);
                assert(syms_below(es1[0], ns1.len()));
            }
            // legacy spelling in function position
            let alias = match &out[0] {
                Expr::Sym(sym) => canonical_name_of(interner.resolve(*sym)),
                _ => None,
            };
            match alias {
                Some(c) => {
                    proof {
                        lemma_intern_extends(ns1, c@);
                    }
                    if trace {
                        let from = head_text(&out[0], interner);
                        events.push(RewriteEvent::Alias { from, to: String::from_str(c) });
                    }
                    let id = interner.intern(c);
                    let ghost before = out@;
                    out.set(0, Expr::Sym(id));
                    proof {
                        lemma_exprs_view(out@);
                        lemma_exprs_view(before);
                        assert(exprs_view(out@) =~= es1.update(0, ExprV::Sym(id.0 as nat)));
                    }
                },
                None => {},
            }
            let ghost es2 = exprs_view(out@);
            let ghost ns2 = interner@;
            let ghost ev2 = events@;
            assert((es2, ns2) == alias_step(es1, ns1));
            proof {
                if trace {
                    assert(events_view(ev2) =~= events_view(ev1) + alias_events(es1, ns1));
                } else {
                    assert(ev2 == ev1);
                }
            }
            proof {
                lemma_exprs_view(out@);
                lemma_canon_props(e@, ns0);
                if alias is Some {
                    lemma_intern_extends(ns1, alias->0@);
                }
            }
            // parameter-first calls put data first
            let mut swap_2 = false;
            let mut swap_3 = false;
            match &out[0] {
                Expr::Sym(sym) => {
                    assert(es2[0] == ExprV::Sym(sym.0 as nat));
                    assert(sym.0 < ns2.len()) by {
                        if alias is None {
                            lemma_syms_all(es1, ns1.len());
                        }
                    }
                    let name = interner.resolve(*sym);
                    if out.len() == 3 && is_param_op_2(name) && is_int_expr(&out[1]) && !is_int_expr(
                        &out[2],
                    ) {
                        swap_2 = true;
                    }
                    if out.len() == 4 && is_param_op_3(name) && is_int_expr(&out[1]) && is_int_expr(
                        &out[2],
                    ) && !is_int_expr(&out[3]) {
                        swap_3 = true;
                    }
                },
                _ => {},
            }
            assert(swap_2 == swap2(es2, ns2));
            assert(swap_3 == swap3(es2, ns2));
            if trace && (swap_2 || swap_3) {
                let op = head_text(&out[0], interner);
                if swap_2 {
                    events.push(RewriteEvent::ArgSwap2 { op });
                } else {
                    events.push(RewriteEvent::ArgSwap3 { op });
                }
            }
            proof {
                if trace {
                    assert(events_view(events@) =~= events_view(ev2) + swap_events(es2, ns2));
                    assert(events_view(events@) =~= events_view(ev0) + canon_events(e@, ns0));
                } else {
                    assert(events@ == ev1);
                    assert(events_view(ev1) == events_view(ev0) + Seq::<EventV>::empty());
                    assert(events_view(events@) =~= events_view(ev0) + Seq::<EventV>::empty());
                }
            }
            if swap_2 {
                let x = out.remove(2);
                out.insert(1, x);
                proof {
                    lemma_exprs_view(out@);
                    assert(exprs_view(out@) =~= seq![es2[0], es2[2], es2[1]]);
                }
            } else if swap_3 {
                let d = out.remove(3);
                out.insert(1, d);
                proof {
                    lemma_exprs_view(out@);
                    assert(exprs_view(out@) =~= seq![es2[0], es2[3], es2[1], es2[2]]);
                }
            }
            assert(exprs_view(out@) == reorder(es2, ns2));
            Expr::List(out)
        },
        Expr::Quote(x) => Expr::Quote(Box::new(canonicalize(x, interner, trace, events))),
        Expr::QuasiQuote(x) => Expr::QuasiQuote(Box::new(canonicalize(x, interner, trace, events))),
        Expr::Unquote(x) => Expr::Unquote(Box::new(canonicalize(x, interner, trace, events))),
        Expr::UnquoteSplicing(x) => Expr::UnquoteSplicing(Box::new(canonicalize(x, interner, trace, events))),
        _ => {
            assert(events_view(events@) =~= events_view(ev0) + Seq::<EventV>::empty());
            copy_atom(e)
        },
    }
}

/// A copy of an expression that is neither a list nor a quote form.
fn copy_atom(e: &Expr) -> (r: Expr)
    ensures
        !(e is List || e is Quote || e is QuasiQuote || e is Unquote || e is UnquoteSplicing) ==> r@ == e@,
{
    match e {
        Expr::Nil => Expr::Nil,
        Expr::Bool(b) => Expr::Bool(*b),
        Expr::Int(n) => Expr::Int(*n),
        Expr::Float(f) => Expr::Float(*f),
        Expr::Str(s) => Expr::Str(s.clone()),
        Expr::Sym(s) => Expr::Sym(*s),
        _ => Expr::Nil,
    }
}

/// A rewrite made by normalization (for the pipeline inspector).
#[derive(Debug, Clone)]
pub enum RewriteEvent {
    /// `(-> x (f) (g))` expanded; `form_count` is the number of forms threaded
    /// through (the arrow and the initial value left out).
    ThreadFirst { form_count: usize },
    /// Legacy spelling `from` rewritten to its canonical name `to`.
    Alias { from: String, to: String },
    /// `(op param data)` put data first.
    ArgSwap2 { op: String },
    /// `(op w step data)` put data first.
    ArgSwap3 { op: String },
}

impl View for RewriteEvent {
    type V = EventV;

    open spec fn view(&self) -> EventV {
        match self {
            RewriteEvent::ThreadFirst { form_count } => EventV::ThreadFirst(*form_count as nat),
            RewriteEvent::Alias { from, to } => EventV::Alias(from@, to@),
            RewriteEvent::ArgSwap2 { op } => EventV::ArgSwap2(op@),
            RewriteEvent::ArgSwap3 { op } => EventV::ArgSwap3(op@),
        }
    }
}

pub open spec fn events_view(v: Seq<RewriteEvent>) -> Seq<EventV> {
    v.map_values(|e: RewriteEvent| e@)
}

/// Canonical expression after normalization: all threading resolved, all
/// spellings canonical; the form the IR compiler expects.
#[derive(Debug, Clone, PartialEq)]
pub struct CanonExpr(pub Expr);

impl CanonExpr {
    /// The underlying expression.
    pub fn inner(&self) -> (r: &Expr)
        ensures
            *r == self.0,
    {
        &self.0
    }

    /// The underlying expression, consuming the wrapper.
    pub fn into_inner(self) -> (r: Expr)
        ensures
            r == self.0,
    {
        self.0
    }
}

/// Normalize an expression into canonical form: thread-first expansion, then
/// canonicalization.
pub fn normalize(expr: Expr, interner: &mut Interner) -> (r: CanonExpr)
    requires
        old(interner).wf(),
        syms_below(expr@, old(interner)@.len()),
    ensures
        final(interner).wf(),
        (r.0@, final(interner)@) == spec_normalize(expr@, old(interner)@),
{
    let expanded = normalize_expr(&expr, interner);
    proof {
        lemma_expand_syms(expr@, interner@);
    }
    let mut unused: Vec<RewriteEvent> = Vec::new();
    let canonical = canonicalize(&expanded, interner, false, &mut unused);
    CanonExpr(canonical)
}


/// No canonical spelling is itself a legacy spelling.
pub proof fn lemma_canonical_names_final()
    ensures
        canonical_name("dlog"@) is None,
        canonical_name("rol_avg"@) is None,
        canonical_name("rol_std"@) is None,
        canonical_name("rol_zsc"@) is None,
        canonical_name("run_sum"@) is None,
        canonical_name("rsk_adj"@) is None,
        canonical_name("shift"@) is None,
        canonical_name(">"@) is None,
        canonical_name("locf"@) is None,
        canonical_name("diff"@) is None,
        canonical_name("ecs1"@) is None,
        canonical_name("xminus"@) is None,
        canonical_name("wkd"@) is None,
        canonical_name("let"@) is None,
        canonical_name("+"@) is None,
        canonical_name("-"@) is None,
        canonical_name("*"@) is None,
        canonical_name("/"@) is None,
        canonical_name("=="@) is None,
        canonical_name("!="@) is None,
        canonical_name(">="@) is None,
        canonical_name("<"@) is None,
        canonical_name("<="@) is None,
        canonical_name("log"@) is None,
{
    reveal_strlit("!=");
    reveal_strlit("*");
    reveal_strlit("+");
    reveal_strlit("-");
    reveal_strlit("/");
    reveal_strlit("<");
    reveal_strlit("<=");
    reveal_strlit("==");
    reveal_strlit(">");
    reveal_strlit(">-col");
    reveal_strlit(">-cols");
    reveal_strlit(">=");
    reveal_strlit("add");
    reveal_strlit("cs1");
    reveal_strlit("cs1-col");
    reveal_strlit("cs1-cols");
    reveal_strlit("diff");
    reveal_strlit("diff-col");
    reveal_strlit("diff-cols");
    reveal_strlit("div");
    reveal_strlit("dlog");
    reveal_strlit("dlog-col");
    reveal_strlit("dlog-cols");
    reveal_strlit("ecs1");
    reveal_strlit("ecs1-col");
    reveal_strlit("ecs1-cols");
    reveal_strlit("eq");
    reveal_strlit("gt");
    reveal_strlit("gte");
    reveal_strlit("let");
    reveal_strlit("let*");
    reveal_strlit("ln");
    reveal_strlit("locf");
    reveal_strlit("locf-cols");
    reveal_strlit("log");
    reveal_strlit("lt");
    reveal_strlit("lte");
    reveal_strlit("mul");
    reveal_strlit("neq");
    reveal_strlit("rol_avg");
    reveal_strlit("rol_avg_cols");
    reveal_strlit("rol_std");
    reveal_strlit("rol_std_cols");
    reveal_strlit("rol_zsc");
    reveal_strlit("rol_zsc_cols");
    reveal_strlit("rolling-mean");
    reveal_strlit("rolling-mean-cols");
    reveal_strlit("rolling-std");
    reveal_strlit("rolling-std-cols");
    reveal_strlit("rolling-zscore");
    reveal_strlit("rolling-zscore-cols");
    reveal_strlit("rsk_adj");
    reveal_strlit("rsk_adj_cols");
    reveal_strlit("run_sum");
    reveal_strlit("run_sum_cols");
    reveal_strlit("shift");
    reveal_strlit("shift-col");
    reveal_strlit("shift-cols");
    reveal_strlit("sub");
    reveal_strlit("ur");
    reveal_strlit("ur-col");
    reveal_strlit("ur-cols");
    reveal_strlit("w5");
    reveal_strlit("wkd");
    reveal_strlit("wzs");
    reveal_strlit("x-");
    reveal_strlit("xminus");
    assert("!="@.len() == 2);
    assert("*"@.len() == 1);
    assert("+"@.len() == 1);
    assert("-"@.len() == 1);
    assert("/"@.len() == 1);
    assert("<"@.len() == 1);
    assert("<="@.len() == 2);
    assert("=="@.len() == 2);
    assert(">"@.len() == 1);
    assert(">-col"@.len() == 5);
    assert(">-cols"@.len() == 6);
    assert(">="@.len() == 2);
    assert("add"@.len() == 3);
    assert("cs1"@.len() == 3);
    assert("cs1-col"@.len() == 7);
    assert("cs1-cols"@.len() == 8);
    assert("diff"@.len() == 4);
    assert("diff-col"@.len() == 8);
    assert("diff-cols"@.len() == 9);
    assert("div"@.len() == 3);
    assert("dlog"@.len() == 4);
    assert("dlog-col"@.len() == 8);
    assert("dlog-cols"@.len() == 9);
    assert("ecs1"@.len() == 4);
    assert("ecs1-col"@.len() == 8);
    assert("ecs1-cols"@.len() == 9);
    assert("eq"@.len() == 2);
    assert("gt"@.len() == 2);
    assert("gte"@.len() == 3);
    assert("let"@.len() == 3);
    assert("let*"@.len() == 4);
    assert("ln"@.len() == 2);
    assert("locf"@.len() == 4);
    assert("locf-cols"@.len() == 9);
    assert("log"@.len() == 3);
    assert("lt"@.len() == 2);
    assert("lte"@.len() == 3);
    assert("mul"@.len() == 3);
    assert("neq"@.len() == 3);
    assert("rol_avg"@.len() == 7);
    assert("rol_avg_cols"@.len() == 12);
    assert("rol_std"@.len() == 7);
    assert("rol_std_cols"@.len() == 12);
    assert("rol_zsc"@.len() == 7);
    assert("rol_zsc_cols"@.len() == 12);
    assert("rolling-mean"@.len() == 12);
    assert("rolling-mean-cols"@.len() == 17);
    assert("rolling-std"@.len() == 11);
    assert("rolling-std-cols"@.len() == 16);
    assert("rolling-zscore"@.len() == 14);
    assert("rolling-zscore-cols"@.len() == 19);
    assert("rsk_adj"@.len() == 7);
    assert("rsk_adj_cols"@.len() == 12);
    assert("run_sum"@.len() == 7);
    assert("run_sum_cols"@.len() == 12);
    assert("shift"@.len() == 5);
    assert("shift-col"@.len() == 9);
    assert("shift-cols"@.len() == 10);
    assert("sub"@.len() == 3);
    assert("ur"@.len() == 2);
    assert("ur-col"@.len() == 6);
    assert("ur-cols"@.len() == 7);
    assert("w5"@.len() == 2);
    assert("wkd"@.len() == 3);
    assert("wzs"@.len() == 3);
    assert("x-"@.len() == 2);
    assert("xminus"@.len() == 6);
    assert("dlog"@[0] == 'd' && "let*"@[0] == 'l');
    assert("rol_avg"@[0] == 'r' && "cs1-col"@[0] == 'c');
    assert("rol_avg"@[0] == 'r' && "ur-cols"@[0] == 'u');
    assert("rol_std"@[0] == 'r' && "cs1-col"@[0] == 'c');
    assert("rol_std"@[0] == 'r' && "ur-cols"@[0] == 'u');
    assert("rol_zsc"@[0] == 'r' && "cs1-col"@[0] == 'c');
    assert("rol_zsc"@[0] == 'r' && "ur-cols"@[0] == 'u');
    assert("run_sum"@[0] == 'r' && "cs1-col"@[0] == 'c');
    assert("run_sum"@[0] == 'r' && "ur-cols"@[0] == 'u');
    assert("rsk_adj"@[0] == 'r' && "cs1-col"@[0] == 'c');
    assert("rsk_adj"@[0] == 'r' && "ur-cols"@[0] == 'u');
    assert("shift"@[0] == 's' && ">-col"@[0] == '>');
    assert("locf"@[1] == 'o' && "let*"@[1] == 'e');
    assert("diff"@[0] == 'd' && "let*"@[0] == 'l');
    assert("ecs1"@[0] == 'e' && "let*"@[0] == 'l');
    assert("xminus"@[0] == 'x' && "ur-col"@[0] == 'u');
    assert("xminus"@[0] == 'x' && ">-cols"@[0] == '>');
    assert("wkd"@[1] == 'k' && "wzs"@[1] == 'z');
    assert("wkd"@[0] == 'w' && "cs1"@[0] == 'c');
    assert("wkd"@[0] == 'w' && "add"@[0] == 'a');
    assert("wkd"@[0] == 'w' && "sub"@[0] == 's');
    assert("wkd"@[0] == 'w' && "mul"@[0] == 'm');
    assert("wkd"@[0] == 'w' && "div"@[0] == 'd');
    assert("wkd"@[0] == 'w' && "neq"@[0] == 'n');
    assert("wkd"@[0] == 'w' && "gte"@[0] == 'g');
    assert("wkd"@[0] == 'w' && "lte"@[0] == 'l');
    assert("let"@[0] == 'l' && "wzs"@[0] == 'w');
    assert("let"@[0] == 'l' && "cs1"@[0] == 'c');
    assert("let"@[0] == 'l' && "add"@[0] == 'a');
    assert("let"@[0] == 'l' && "sub"@[0] == 's');
    assert("let"@[0] == 'l' && "mul"@[0] == 'm');
    assert("let"@[0] == 'l' && "div"@[0] == 'd');
    assert("let"@[0] == 'l' && "neq"@[0] == 'n');
    assert("let"@[0] == 'l' && "gte"@[0] == 'g');
    assert("let"@[1] == 'e' && "lte"@[1] == 't');
    assert("=="@[0] == '=' && "ur"@[0] == 'u');
    assert("=="@[0] == '=' && "x-"@[0] == 'x');
    assert("=="@[0] == '=' && "w5"@[0] == 'w');
    assert("=="@[0] == '=' && "eq"@[0] == 'e');
    assert("=="@[0] == '=' && "gt"@[0] == 'g');
    assert("=="@[0] == '=' && "lt"@[0] == 'l');
    assert("=="@[0] == '=' && "ln"@[0] == 'l');
    assert("!="@[0] == '!' && "ur"@[0] == 'u');
    assert("!="@[0] == '!' && "x-"@[0] == 'x');
    assert("!="@[0] == '!' && "w5"@[0] == 'w');
    assert("!="@[0] == '!' && "eq"@[0] == 'e');
    assert("!="@[0] == '!' && "gt"@[0] == 'g');
    assert("!="@[0] == '!' && "lt"@[0] == 'l');
    assert("!="@[0] == '!' && "ln"@[0] == 'l');
    assert(">="@[0] == '>' && "ur"@[0] == 'u');
    assert(">="@[0] == '>' && "x-"@[0] == 'x');
    assert(">="@[0] == '>' && "w5"@[0] == 'w');
    assert(">="@[0] == '>' && "eq"@[0] == 'e');
    assert(">="@[0] == '>' && "gt"@[0] == 'g');
    assert(">="@[0] == '>' && "lt"@[0] == 'l');
    assert(">="@[0] == '>' && "ln"@[0] == 'l');
    assert("<="@[0] == '<' && "ur"@[0] == 'u');
    assert("<="@[0] == '<' && "x-"@[0] == 'x');
    assert("<="@[0] == '<' && "w5"@[0] == 'w');
    assert("<="@[0] == '<' && "eq"@[0] == 'e');
    assert("<="@[0] == '<' && "gt"@[0] == 'g');
    assert("<="@[0] == '<' && "lt"@[0] == 'l');
    assert("<="@[0] == '<' && "ln"@[0] == 'l');
    assert("log"@[0] == 'l' && "wzs"@[0] == 'w');
    assert("log"@[0] == 'l' && "cs1"@[0] == 'c');
    assert("log"@[0] == 'l' && "add"@[0] == 'a');
    assert("log"@[0] == 'l' && "sub"@[0] == 's');
    assert("log"@[0] == 'l' && "mul"@[0] == 'm');
    assert("log"@[0] == 'l' && "div"@[0] == 'd');
    assert("log"@[0] == 'l' && "neq"@[0] == 'n');
    assert("log"@[0] == 'l' && "gte"@[0] == 'g');
    assert("log"@[1] == 'o' && "lte"@[1] == 't');
}

/// A canonical spelling is left alone by the alias rewrite.
pub proof fn lemma_alias_final(n: Seq<char>)
    ensures
        canonical_name(n) matches Some(c) ==> canonical_name(c) is None,
{
    lemma_canonical_names_final();
}

// ─── Idempotence ────────────────────────────────────────────────────────────

/// No list of the expression has the symbol `->` in function position.
pub open spec fn arrow_free(e: ExprV, ns: Seq<Seq<char>>) -> bool
    decreases e,
{
    match e {
        ExprV::List(es) => {
            &&& (es.len() > 0 ==> !is_sym_named(es[0], ns, "->"@))
            &&& arrow_free_all(es, ns)
        },
        ExprV::Quote(x) => arrow_free(*x, ns),
        ExprV::QuasiQuote(x) => arrow_free(*x, ns),
        ExprV::Unquote(x) => arrow_free(*x, ns),
        ExprV::UnquoteSplicing(x) => arrow_free(*x, ns),
        _ => true,
    }
}

pub open spec fn arrow_free_all(es: Seq<ExprV>, ns: Seq<Seq<char>>) -> bool
    decreases es,
{
    if es.len() == 0 {
        true
    } else {
        arrow_free_all(es.drop_last(), ns) && arrow_free(es.last(), ns)
    }
}

pub proof fn lemma_arrow_free_all(es: Seq<ExprV>, ns: Seq<Seq<char>>)
    ensures
        arrow_free_all(es, ns) == forall|i: int| 0 <= i < es.len() ==> #[trigger] arrow_free(es[i], ns),
    decreases es.len(),
{
    if es.len() > 0 {
        lemma_arrow_free_all(es.drop_last(), ns);
        if arrow_free_all(es, ns) {
            assert forall|i: int| 0 <= i < es.len() implies #[trigger] arrow_free(es[i], ns) by {
                if i < es.len() - 1 {
                    assert(es.drop_last()[i] == es[i]);
                }
            }
        } else if forall|i: int| 0 <= i < es.len() ==> #[trigger] arrow_free(es[i], ns) {
            assert forall|i: int| 0 <= i < es.drop_last().len() implies #[trigger] arrow_free(es.drop_last()[i], ns) by {
                assert(es.drop_last()[i] == es[i]);
            }
            assert(arrow_free(es[es.len() - 1], ns));
        }
    }
}

/// A list that canonicalization leaves as it is: no legacy spelling in
/// function position, no parameter-first call.
pub open spec fn settled(es: Seq<ExprV>, ns: Seq<Seq<char>>) -> bool {
    &&& (head_name(es, ns) matches Some(n) ==> canonical_name(n) is None)
    &&& !swap2(es, ns)
    &&& !swap3(es, ns)
}

/// Every non-empty list of the expression is settled.
pub open spec fn canonical(e: ExprV, ns: Seq<Seq<char>>) -> bool
    decreases e,
{
    match e {
        ExprV::List(es) => {
            &&& (es.len() > 0 ==> settled(es, ns))
            &&& canonical_all(es, ns)
        },
        ExprV::Quote(x) => canonical(*x, ns),
        ExprV::QuasiQuote(x) => canonical(*x, ns),
        ExprV::Unquote(x) => canonical(*x, ns),
        ExprV::UnquoteSplicing(x) => canonical(*x, ns),
        _ => true,
    }
}

pub open spec fn canonical_all(es: Seq<ExprV>, ns: Seq<Seq<char>>) -> bool
    decreases es,
{
    if es.len() == 0 {
        true
    } else {
        canonical_all(es.drop_last(), ns) && canonical(es.last(), ns)
    }
}

pub proof fn lemma_canonical_all(es: Seq<ExprV>, ns: Seq<Seq<char>>)
    ensures
        canonical_all(es, ns) == forall|i: int| 0 <= i < es.len() ==> #[trigger] canonical(es[i], ns),
    decreases es.len(),
{
    if es.len() > 0 {
        lemma_canonical_all(es.drop_last(), ns);
        if canonical_all(es, ns) {
            assert forall|i: int| 0 <= i < es.len() implies #[trigger] canonical(es[i], ns) by {
                if i < es.len() - 1 {
                    assert(es.drop_last()[i] == es[i]);
                }
            }
        } else if forall|i: int| 0 <= i < es.len() ==> #[trigger] canonical(es[i], ns) {
            assert forall|i: int| 0 <= i < es.drop_last().len() implies #[trigger] canonical(es.drop_last()[i], ns) by {
                assert(es.drop_last()[i] == es[i]);
            }
            assert(canonical(es[es.len() - 1], ns));
        }
    }
}

/// Expansion leaves an arrow-free expression unchanged.
pub proof fn lemma_expand_fixed(e: ExprV, ns: Seq<Seq<char>>)
    requires
        arrow_free(e, ns),
    ensures
        expand(e, ns) == e,
    decreases e,
{
    match e {
        ExprV::List(es) => {
            lemma_arrow_free_all(es, ns);
            if es.len() > 0 {
                lemma_expand_all(es, ns);
                assert forall|i: int| 0 <= i < es.len() implies #[trigger] expand_all(es, ns)[i] == es[i] by {
                    assert(decreases_to!(e => es[i]));
                    lemma_expand_fixed(es[i], ns);
                }
                assert(expand_all(es, ns) =~= es);
            }
        },
        ExprV::Quote(x) => lemma_expand_fixed(*x, ns),
        ExprV::QuasiQuote(x) => lemma_expand_fixed(*x, ns),
        ExprV::Unquote(x) => lemma_expand_fixed(*x, ns),
        ExprV::UnquoteSplicing(x) => lemma_expand_fixed(*x, ns),
        _ => {},
    }
}

/// Expansion leaves no `->` in function position.
pub proof fn lemma_expand_arrow_free(e: ExprV, ns: Seq<Seq<char>>)
    ensures
        arrow_free(expand(e, ns), ns),
    decreases e,
{
    match e {
        ExprV::List(es) => {
            if es.len() == 0 {
                lemma_arrow_free_all(es, ns);
            } else {
                if is_sym_named(es[0], ns, "->"@) {
                    lemma_thread_first_arrow_free(es.drop_first(), ns);
                } else {
                    lemma_expand_all_arrow_free(es, ns);
                    lemma_settle_arrow_free(expand_all(es, ns), ns);
                }
            }
        },
        ExprV::Quote(x) => lemma_expand_arrow_free(*x, ns),
        ExprV::QuasiQuote(x) => lemma_expand_arrow_free(*x, ns),
        ExprV::Unquote(x) => lemma_expand_arrow_free(*x, ns),
        ExprV::UnquoteSplicing(x) => lemma_expand_arrow_free(*x, ns),
        _ => {},
    }
}

pub proof fn lemma_expand_all_arrow_free(es: Seq<ExprV>, ns: Seq<Seq<char>>)
    ensures
        forall|i: int| 0 <= i < expand_all(es, ns).len() ==> #[trigger] arrow_free(expand_all(es, ns)[i], ns),
    decreases es,
{
    lemma_expand_all(es, ns);
    assert forall|i: int| 0 <= i < expand_all(es, ns).len() implies #[trigger] arrow_free(expand_all(es, ns)[i], ns) by {
        assert(decreases_to!(es => es[i]));
        lemma_expand_arrow_free(es[i], ns);
    }
}

pub proof fn lemma_thread_first_arrow_free(args: Seq<ExprV>, ns: Seq<Seq<char>>)
    ensures
        arrow_free(thread_first(args, ns), ns),
    decreases args,
{
    if args.len() == 1 {
        lemma_expand_arrow_free(args[0], ns);
    } else if args.len() > 1 {
        lemma_thread_first_arrow_free(args.drop_last(), ns);
        lemma_thread_into_arrow_free(thread_first(args.drop_last(), ns), args.last(), ns);
    }
}

pub proof fn lemma_thread_into_arrow_free(v: ExprV, form: ExprV, ns: Seq<Seq<char>>)
    requires
        arrow_free(v, ns),
    ensures
        arrow_free(thread_into(v, form, ns), ns),
    decreases form,
{
    match form {
        ExprV::List(fs) => {
            if fs.len() > 0 {
                lemma_expand_arrow_free(fs[0], ns);
                let rest = fs.drop_first();
                lemma_expand_all_arrow_free(rest, ns);
                lemma_expand_all(rest, ns);
                let out = seq![expand(fs[0], ns), v] + expand_all(rest, ns);
                assert forall|i: int| 0 <= i < out.len() implies #[trigger] arrow_free(out[i], ns) by {
                    if i >= 2 {
                        assert(out[i] == expand_all(rest, ns)[i - 2]);
                    }
                }
                lemma_settle_arrow_free(out, ns);
            }
        },
        ExprV::Sym(_) => {
            let out = seq![form, v];
            assert forall|i: int| 0 <= i < out.len() implies #[trigger] arrow_free(out[i], ns) by {}
            lemma_settle_arrow_free(out, ns);
        },
        _ => {},
    }
}

/// Settling a list of arrow-free elements gives an arrow-free expression.
pub proof fn lemma_settle_arrow_free(xs: Seq<ExprV>, ns: Seq<Seq<char>>)
    requires
        forall|i: int| 0 <= i < xs.len() ==> #[trigger] arrow_free(xs[i], ns),
    ensures
        arrow_free(settle_list(xs, ns), ns),
{
    if xs.len() > 0 && is_sym_named(xs[0], ns, "->"@) {
        if xs.len() > 1 {
            let rs = xs.subrange(2, xs.len() as int);
            assert forall|i: int| 0 <= i < rs.len() implies #[trigger] arrow_free(rs[i], ns) by {
                assert(rs[i] == xs[i + 2]);
            }
            assert(arrow_free(xs[1], ns));
            lemma_thread_settled_all_arrow_free(xs[1], rs, ns);
        }
    } else {
        lemma_arrow_free_all(xs, ns);
    }
}

pub proof fn lemma_thread_settled_all_arrow_free(v: ExprV, rs: Seq<ExprV>, ns: Seq<Seq<char>>)
    requires
        arrow_free(v, ns),
        forall|i: int| 0 <= i < rs.len() ==> #[trigger] arrow_free(rs[i], ns),
    ensures
        arrow_free(thread_settled_all(v, rs, ns), ns),
    decreases rs.len(),
{
    if rs.len() > 0 {
        let d = rs.drop_last();
        assert forall|i: int| 0 <= i < d.len() implies #[trigger] arrow_free(d[i], ns) by {
            assert(d[i] == rs[i]);
        }
        lemma_thread_settled_all_arrow_free(v, d, ns);
        let acc = thread_settled_all(v, d, ns);
        let r = rs.last();
        assert(arrow_free(rs[rs.len() - 1], ns));
        match r {
            ExprV::List(xs) => {
                if xs.len() > 0 {
                    lemma_arrow_free_all(xs, ns);
                    let out = xs.insert(1, acc);
                    xs.insert_ensures(1, acc);
                    assert forall|i: int| 0 <= i < out.len() implies #[trigger] arrow_free(out[i], ns) by {
                        if i >= 2 {
                            assert(out[(i - 1) + 1] == xs[i - 1]);
                        }
                    }
                    lemma_arrow_free_all(out, ns);
                    assert(out[0] == xs[0]);
                }
            },
            ExprV::Sym(_) => {
                let out = seq![r, acc];
                assert forall|i: int| 0 <= i < out.len() implies #[trigger] arrow_free(out[i], ns) by {}
                lemma_arrow_free_all(out, ns);
            },
            _ => {},
        }
    }
}

/// No canonical spelling is `->`.
pub proof fn lemma_canonical_not_arrow(n: Seq<char>)
    ensures
        canonical_name(n) matches Some(c) ==> c != "->"@,
{
    reveal_strlit("->");
    reveal_strlit("dlog");
    reveal_strlit("rol_avg");
    reveal_strlit("rol_std");
    reveal_strlit("rol_zsc");
    reveal_strlit("run_sum");
    reveal_strlit("rsk_adj");
    reveal_strlit("shift");
    reveal_strlit(">");
    reveal_strlit("locf");
    reveal_strlit("diff");
    reveal_strlit("ecs1");
    reveal_strlit("xminus");
    reveal_strlit("wkd");
    reveal_strlit("let");
    reveal_strlit("+");
    reveal_strlit("-");
    reveal_strlit("*");
    reveal_strlit("/");
    reveal_strlit("==");
    reveal_strlit("!=");
    reveal_strlit(">=");
    reveal_strlit("<");
    reveal_strlit("<=");
    reveal_strlit("log");
    if canonical_name(n) is Some {
        let c = canonical_name(n)->0;
        assert(c == "dlog"@
            || c == "rol_avg"@
            || c == "rol_std"@
            || c == "rol_zsc"@
            || c == "run_sum"@
            || c == "rsk_adj"@
            || c == "shift"@
            || c == ">"@
            || c == "locf"@
            || c == "diff"@
            || c == "ecs1"@
            || c == "xminus"@
            || c == "wkd"@
            || c == "let"@
            || c == "+"@
            || c == "-"@
            || c == "*"@
            || c == "/"@
            || c == "=="@
            || c == "!="@
            || c == ">="@
            || c == "<"@
            || c == "<="@
            || c == "log"@);
        assert("->"@.len() == 2 && "->"@[0] == '-');
        assert("dlog"@.len() == 4);
        assert("rol_avg"@.len() == 7);
        assert("rol_std"@.len() == 7);
        assert("rol_zsc"@.len() == 7);
        assert("run_sum"@.len() == 7);
        assert("rsk_adj"@.len() == 7);
        assert("shift"@.len() == 5);
        assert(">"@.len() == 1);
        assert("locf"@.len() == 4);
        assert("diff"@.len() == 4);
        assert("ecs1"@.len() == 4);
        assert("xminus"@.len() == 6);
        assert("wkd"@.len() == 3);
        assert("let"@.len() == 3);
        assert("+"@.len() == 1);
        assert("-"@.len() == 1);
        assert("*"@.len() == 1);
        assert("/"@.len() == 1);
        assert("=="@.len() == 2 && "=="@[0] == '=');
        assert("!="@.len() == 2 && "!="@[0] == '!');
        assert(">="@.len() == 2 && ">="@[0] == '>');
        assert("<"@.len() == 1);
        assert("<="@.len() == 2 && "<="@[0] == '<');
        assert("log"@.len() == 3);
    }
}

/// An arrow-free expression stays arrow-free when names are added to the table.
pub proof fn lemma_arrow_free_grow(e: ExprV, ns: Seq<Seq<char>>, ns2: Seq<Seq<char>>)
    requires
        arrow_free(e, ns),
        syms_below(e, ns.len()),
        extends(ns, ns2),
    ensures
        arrow_free(e, ns2),
    decreases e,
{
    match e {
        ExprV::List(es) => {
            lemma_syms_all(es, ns.len());
            lemma_arrow_free_all(es, ns);
            lemma_arrow_free_all(es, ns2);
            if es.len() > 0 {
                assert(syms_below(es[0], ns.len()));
            }
            assert forall|i: int| 0 <= i < es.len() implies #[trigger] arrow_free(es[i], ns2) by {
                assert(decreases_to!(e => es[i]));
                lemma_arrow_free_grow(es[i], ns, ns2);
            }
        },
        ExprV::Quote(x) => lemma_arrow_free_grow(*x, ns, ns2),
        ExprV::QuasiQuote(x) => lemma_arrow_free_grow(*x, ns, ns2),
        ExprV::Unquote(x) => lemma_arrow_free_grow(*x, ns, ns2),
        ExprV::UnquoteSplicing(x) => lemma_arrow_free_grow(*x, ns, ns2),
        _ => {},
    }
}

/// Canonicalization keeps a symbol as it is and makes no symbol of anything else.
pub proof fn lemma_canon_all_heads(es: Seq<ExprV>, ns: Seq<Seq<char>>)
    ensures
        canon_all(es, ns).0.len() == es.len(),
        forall|i: int|
            0 <= i < es.len() ==> ((#[trigger] canon_all(es, ns).0[i] is Sym) == (es[i] is Sym) && (es[i] is Sym
                ==> canon_all(es, ns).0[i] == es[i])),
    decreases es.len(),
{
    if es.len() > 0 {
        let d = es.drop_last();
        lemma_canon_all_heads(d, ns);
        let (a, ns1) = canon_all(d, ns);
        let x = es.last();
        assert((canon(x, ns1).0 is Sym) == (x is Sym) && (x is Sym ==> canon(x, ns1).0 == x));
        assert forall|i: int| 0 <= i < es.len() implies ((#[trigger] canon_all(es, ns).0[i] is Sym) == (es[i] is Sym)
            && (es[i] is Sym ==> canon_all(es, ns).0[i] == es[i])) by {
            if i < es.len() - 1 {
                assert(d[i] == es[i]);
                assert(canon_all(es, ns).0[i] == a[i]);
            }
        }
    }
}

/// Canonicalization keeps an expression arrow-free.
pub proof fn lemma_canon_arrow_free(e: ExprV, ns: Seq<Seq<char>>)
    requires
        no_dups(ns),
        syms_below(e, ns.len()),
        arrow_free(e, ns),
    ensures
        arrow_free(canon(e, ns).0, canon(e, ns).1),
    decreases e,
{
    match e {
        ExprV::List(es) => {
            if es.len() > 0 {
                lemma_syms_all(es, ns.len());
                lemma_arrow_free_all(es, ns);
                lemma_canon_all_props(es, ns);
                lemma_canon_all_arrow_free(es, ns);
                lemma_canon_all_heads(es, ns);
                let (es1, ns1) = canon_all(es, ns);
                let (es2, ns2) = alias_step(es1, ns1);
                assert(syms_below(es[0], ns.len()));
                assert(!is_sym_named(es1[0], ns1, "->"@));
                if let Some(n) = head_name(es1, ns1) {
                    lemma_canonical_not_arrow(n);
                    if let Some(c) = canonical_name(n) {
                        lemma_intern_extends(ns1, c);
                    }
                }
                assert(extends(ns1, ns2));
                assert(!is_sym_named(es2[0], ns2, "->"@));
                assert forall|i: int| 0 <= i < es2.len() implies #[trigger] arrow_free(es2[i], ns2) by {
                    if i > 0 || es2[0] == es1[0] {
                        lemma_arrow_free_grow(es1[i], ns1, ns2);
                    }
                }
                let r = reorder(es2, ns2);
                assert forall|i: int| 0 <= i < r.len() implies #[trigger] arrow_free(r[i], ns2) by {
                    if swap2(es2, ns2) {
                        assert(arrow_free(es2[1], ns2) && arrow_free(es2[2], ns2));
                    } else if swap3(es2, ns2) {
                        assert(arrow_free(es2[1], ns2) && arrow_free(es2[2], ns2) && arrow_free(es2[3], ns2));
                    }
                }
                lemma_arrow_free_all(r, ns2);
                assert(r[0] == es2[0]);
            }
        },
        ExprV::Quote(x) => lemma_canon_arrow_free(*x, ns),
        ExprV::QuasiQuote(x) => lemma_canon_arrow_free(*x, ns),
        ExprV::Unquote(x) => lemma_canon_arrow_free(*x, ns),
        ExprV::UnquoteSplicing(x) => lemma_canon_arrow_free(*x, ns),
        _ => {},
    }
}

pub proof fn lemma_canon_all_arrow_free(es: Seq<ExprV>, ns: Seq<Seq<char>>)
    requires
        no_dups(ns),
        forall|i: int| 0 <= i < es.len() ==> #[trigger] syms_below(es[i], ns.len()),
        forall|i: int| 0 <= i < es.len() ==> #[trigger] arrow_free(es[i], ns),
    ensures
        forall|i: int|
            0 <= i < es.len() ==> #[trigger] arrow_free(canon_all(es, ns).0[i], canon_all(es, ns).1),
    decreases es,
{
    lemma_canon_all_props(es, ns);
    if es.len() > 0 {
        let d = es.drop_last();
        assert forall|i: int| 0 <= i < d.len() implies #[trigger] syms_below(d[i], ns.len()) && arrow_free(d[i], ns) by {
            assert(d[i] == es[i]);
        }
        lemma_canon_all_props(d, ns);
        lemma_canon_all_arrow_free(d, ns);
        let (a, ns1) = canon_all(d, ns);
        assert(syms_below(es[es.len() - 1], ns.len()) && arrow_free(es[es.len() - 1], ns));
        lemma_syms_grow(es.last(), ns.len(), ns1.len());
        lemma_arrow_free_grow(es.last(), ns, ns1);
        assert(decreases_to!(es => es.last()));
        lemma_canon_arrow_free(es.last(), ns1);
        lemma_canon_props(es.last(), ns1);
        let (b, ns2) = canon(es.last(), ns1);
        assert forall|i: int| 0 <= i < es.len() implies #[trigger] arrow_free(canon_all(es, ns).0[i], ns2) by {
            if i < es.len() - 1 {
                assert(canon_all(es, ns).0[i] == a[i]);
                lemma_arrow_free_grow(a[i], ns1, ns2);
            }
        }
    }
}

/// A canonical expression stays canonical when names are added to the table.
pub proof fn lemma_canonical_grow(e: ExprV, ns: Seq<Seq<char>>, ns2: Seq<Seq<char>>)
    requires
        canonical(e, ns),
        syms_below(e, ns.len()),
        extends(ns, ns2),
    ensures
        canonical(e, ns2),
    decreases e,
{
    match e {
        ExprV::List(es) => {
            lemma_syms_all(es, ns.len());
            lemma_canonical_all(es, ns);
            lemma_canonical_all(es, ns2);
            if es.len() > 0 {
                assert(syms_below(es[0], ns.len()));
                assert(head_name(es, ns2) == head_name(es, ns));
            }
            assert forall|i: int| 0 <= i < es.len() implies #[trigger] canonical(es[i], ns2) by {
                assert(decreases_to!(e => es[i]));
                lemma_canonical_grow(es[i], ns, ns2);
            }
        },
        ExprV::Quote(x) => lemma_canonical_grow(*x, ns, ns2),
        ExprV::QuasiQuote(x) => lemma_canonical_grow(*x, ns, ns2),
        ExprV::Unquote(x) => lemma_canonical_grow(*x, ns, ns2),
        ExprV::UnquoteSplicing(x) => lemma_canonical_grow(*x, ns, ns2),
        _ => {},
    }
}

/// Canonicalization gives a canonical expression.
pub proof fn lemma_canon_canonical(e: ExprV, ns: Seq<Seq<char>>)
    requires
        no_dups(ns),
        syms_below(e, ns.len()),
    ensures
        canonical(canon(e, ns).0, canon(e, ns).1),
    decreases e,
{
    match e {
        ExprV::List(es) => {
            if es.len() > 0 {
                lemma_syms_all(es, ns.len());
                lemma_canon_all_props(es, ns);
                lemma_canon_all_canonical(es, ns);
                let (es1, ns1) = canon_all(es, ns);
                let (es2, ns2) = alias_step(es1, ns1);
                if let Some(n) = head_name(es1, ns1) {
                    lemma_alias_final(n);
                    if let Some(c) = canonical_name(n) {
                        lemma_intern_extends(ns1, c);
                    }
                }
                assert(extends(ns1, ns2));
                assert forall|i: int| 0 <= i < es2.len() implies #[trigger] canonical(es2[i], ns2) by {
                    if i > 0 || es2[0] == es1[0] {
                        lemma_canonical_grow(es1[i], ns1, ns2);
                    }
                }
                let r = reorder(es2, ns2);
                assert(settled(r, ns2));
                assert forall|i: int| 0 <= i < r.len() implies #[trigger] canonical(r[i], ns2) by {
                    if swap2(es2, ns2) {
                        assert(canonical(es2[1], ns2) && canonical(es2[2], ns2));
                    } else if swap3(es2, ns2) {
                        assert(canonical(es2[1], ns2) && canonical(es2[2], ns2) && canonical(es2[3], ns2));
                    }
                }
                lemma_canonical_all(r, ns2);
                assert(canonical(ExprV::List(r), ns2));
            } else {
                lemma_canonical_all(es, ns);
            }
        },
        ExprV::Quote(x) => lemma_canon_canonical(*x, ns),
        ExprV::QuasiQuote(x) => lemma_canon_canonical(*x, ns),
        ExprV::Unquote(x) => lemma_canon_canonical(*x, ns),
        ExprV::UnquoteSplicing(x) => lemma_canon_canonical(*x, ns),
        _ => {},
    }
}

pub proof fn lemma_canon_all_canonical(es: Seq<ExprV>, ns: Seq<Seq<char>>)
    requires
        no_dups(ns),
        forall|i: int| 0 <= i < es.len() ==> #[trigger] syms_below(es[i], ns.len()),
    ensures
        forall|i: int|
            0 <= i < es.len() ==> #[trigger] canonical(canon_all(es, ns).0[i], canon_all(es, ns).1),
    decreases es,
{
    lemma_canon_all_props(es, ns);
    if es.len() > 0 {
        let d = es.drop_last();
        assert forall|i: int| 0 <= i < d.len() implies #[trigger] syms_below(d[i], ns.len()) by {
            assert(d[i] == es[i]);
        }
        lemma_canon_all_props(d, ns);
        lemma_canon_all_canonical(d, ns);
        let (a, ns1) = canon_all(d, ns);
        assert(syms_below(es[es.len() - 1], ns.len()));
        lemma_syms_grow(es.last(), ns.len(), ns1.len());
        assert(decreases_to!(es => es.last()));
        lemma_canon_canonical(es.last(), ns1);
        lemma_canon_props(es.last(), ns1);
        let (b, ns2) = canon(es.last(), ns1);
        assert forall|i: int| 0 <= i < es.len() implies #[trigger] canonical(canon_all(es, ns).0[i], ns2) by {
            if i < es.len() - 1 {
                assert(canon_all(es, ns).0[i] == a[i]);
                lemma_canonical_grow(a[i], ns1, ns2);
            }
        }
    }
}

/// Canonicalization leaves a canonical expression, and the table, unchanged.
pub proof fn lemma_canon_fixed(e: ExprV, ns: Seq<Seq<char>>)
    requires
        canonical(e, ns),
        syms_below(e, ns.len()),
    ensures
        canon(e, ns) == (e, ns),
    decreases e,
{
    match e {
        ExprV::List(es) => {
            if es.len() > 0 {
                lemma_syms_all(es, ns.len());
                lemma_canonical_all(es, ns);
                lemma_canon_all_fixed(es, ns);
            }
        },
        ExprV::Quote(x) => lemma_canon_fixed(*x, ns),
        ExprV::QuasiQuote(x) => lemma_canon_fixed(*x, ns),
        ExprV::Unquote(x) => lemma_canon_fixed(*x, ns),
        ExprV::UnquoteSplicing(x) => lemma_canon_fixed(*x, ns),
        _ => {},
    }
}

pub proof fn lemma_canon_all_fixed(es: Seq<ExprV>, ns: Seq<Seq<char>>)
    requires
        forall|i: int| 0 <= i < es.len() ==> #[trigger] canonical(es[i], ns),
        forall|i: int| 0 <= i < es.len() ==> #[trigger] syms_below(es[i], ns.len()),
    ensures
        canon_all(es, ns) == (es, ns),
    decreases es,
{
    if es.len() > 0 {
        let d = es.drop_last();
        assert forall|i: int| 0 <= i < d.len() implies #[trigger] canonical(d[i], ns) && syms_below(d[i], ns.len()) by {
            assert(d[i] == es[i]);
        }
        lemma_canon_all_fixed(d, ns);
        assert(canonical(es[es.len() - 1], ns) && syms_below(es[es.len() - 1], ns.len()));
        assert(decreases_to!(es => es.last()));
        lemma_canon_fixed(es.last(), ns);
        assert(d.push(es.last()) =~= es);
    }
}

/// Canonicalization is idempotent: canonicalizing its own result, with the
/// table it left, changes neither.
pub proof fn law_canonicalize_idempotent(e: ExprV, ns: Seq<Seq<char>>)
    requires
        no_dups(ns),
        syms_below(e, ns.len()),
    ensures
        canon(canon(e, ns).0, canon(e, ns).1) == canon(e, ns),
{
    lemma_canon_props(e, ns);
    lemma_canon_canonical(e, ns);
    lemma_canon_fixed(canon(e, ns).0, canon(e, ns).1);
}

/// Normalization is idempotent: normalizing a normalized expression, with the
/// table it left, changes neither.
pub proof fn law_normalize_idempotent(e: ExprV, ns: Seq<Seq<char>>)
    requires
        no_dups(ns),
        syms_below(e, ns.len()),
    ensures
        spec_normalize(spec_normalize(e, ns).0, spec_normalize(e, ns).1) == spec_normalize(e, ns),
{
    let x = expand(e, ns);
    lemma_expand_syms(e, ns);
    lemma_expand_arrow_free(e, ns);
    let (y, ns1) = canon(x, ns);
    lemma_canon_props(x, ns);
    lemma_canon_canonical(x, ns);
    lemma_canon_arrow_free(x, ns);
    lemma_expand_fixed(y, ns1);
    lemma_canon_fixed(y, ns1);
}

/// Expansion that reports each thread-first form it expands (the forms
/// inside a thread are expanded without report).
fn normalize_expr_traced(e: &Expr, interner: &Interner, events: &mut Vec<RewriteEvent>) -> (r: Expr)
    requires
        syms_below(e@, interner@.len()),
    ensures
        r@ == expand(e@, interner@),
        events_view(final(events)@) == events_view(old(events)@) + expand_events(e@, interner@),
    decreases e,
{
    let ghost ev0 = events@;
    match e {
        Expr::List(es) => {
            proof {
                lemma_exprs_view(es@);
                lemma_syms_all(exprs_view(es@), interner@.len());
            }
            if es.len() == 0 {
                let out: Vec<Expr> = Vec::new();
                assert(exprs_view(out@) =~= exprs_view(es@));
                assert(events_view(events@) =~= events_view(ev0) + Seq::<EventV>::empty());
                return Expr::List(out);
            }
            assert(syms_below(exprs_view(es@)[0], interner@.len()));
            if is_arrow(&es[0], interner) {
                let form_count = if es.len() >= 2 {
                    es.len() - 2
                } else {
                    0
                };
                events.push(RewriteEvent::ThreadFirst { form_count });
                assert(events_view(events@) =~= events_view(ev0) + expand_events(e@, interner@));
                return normalize_thread_first(es, interner);
            }
            let ghost ev = exprs_view(es@);
            let mut out: Vec<Expr> = Vec::new();
            let mut i: usize = 0;
            assert(ev.take(0) =~= Seq::<ExprV>::empty());
            assert(events_view(events@) =~= events_view(ev0) + Seq::<EventV>::empty());
            while i < es.len()
                invariant
                    i <= es@.len(),
                    ev == exprs_view(es@),
                    ev.len() == es@.len(),
                    out@.len() == i,
                    forall|j: int| 0 <= j < es@.len() ==> #[trigger] ev[j] == expr_view(es@[j]),
                    forall|j: int| 0 <= j < es@.len() ==> #[trigger] syms_below(ev[j], interner@.len()),
                    forall|j: int| 0 <= j < i ==> expr_view(#[trigger] out@[j]) == expand(ev[j], interner@),
                    events_view(events@) == events_view(ev0) + expand_events_all(ev.take(i as int), interner@),
                    *e == Expr::List(*es),
                decreases es@.len() - i,
            {
                assert(decreases_to!(*es => es@[i as int]));
                assert(decreases_to!(*e => (*e)->List_0));
                assert((*e)->List_0 == *es);
                assert(decreases_to!(e => es@[i as int]));
                assert(syms_below(ev[i as int], interner@.len()));
                let x = normalize_expr_traced(&es[i], interner, events);
                proof {
                    assert(ev.take(i + 1).drop_last() =~= ev.take(i as int));
                    assert(ev.take(i + 1).last() == ev[i as int]);
                    assert(events_view(events@) =~= events_view(ev0) + expand_events_all(ev.take(i + 1), interner@));
                }
                out.push(x);
                i += 1;
            }
            proof {
                lemma_exprs_view(out@);
                lemma_expand_all(ev, interner@);
                assert(exprs_view(out@) =~= expand_all(ev, interner@));
                assert(ev.take(es@.len() as int) =~= ev);
                lemma_expand_all_syms(ev, interner@);
            }
            settle_list_exec(out, interner)
        },
        Expr::Quote(x) => Expr::Quote(Box::new(normalize_expr_traced(x, interner, events))),
        Expr::QuasiQuote(x) => Expr::QuasiQuote(Box::new(normalize_expr_traced(x, interner, events))),
        Expr::Unquote(x) => Expr::Unquote(Box::new(normalize_expr_traced(x, interner, events))),
        Expr::UnquoteSplicing(x) => Expr::UnquoteSplicing(Box::new(normalize_expr_traced(x, interner, events))),
        _ => {
            assert(events_view(events@) =~= events_view(ev0) + Seq::<EventV>::empty());
            copy_atom(e)
        },
    }
}

/// Result of a traced normalization.
pub struct NormalizeTrace {
    /// The normalized expression.
    pub expr: CanonExpr,
    /// The expression after thread-first expansion, before canonicalization.
    pub post_thread: Expr,
    /// The rewrites, in the order they were made.
    pub rewrites: Vec<RewriteEvent>,
}

/// Normalize, reporting the expression after thread-first expansion and each
/// rewrite made (for the pipeline inspector).
pub fn normalize_traced(expr: Expr, interner: &mut Interner) -> (r: NormalizeTrace)
    requires
        old(interner).wf(),
        syms_below(expr@, old(interner)@.len()),
    ensures
        final(interner).wf(),
        (r.expr.0@, final(interner)@) == spec_normalize(expr@, old(interner)@),
        r.post_thread@ == expand(expr@, old(interner)@),
        events_view(r.rewrites@) == expand_events(expr@, old(interner)@) + canon_events(
            expand(expr@, old(interner)@),
            old(interner)@,
        ),
{
    let mut rewrites: Vec<RewriteEvent> = Vec::new();
    assert(events_view(rewrites@) =~= Seq::<EventV>::empty());
    let expanded = normalize_expr_traced(&expr, interner, &mut rewrites);
    assert(events_view(rewrites@) =~= expand_events(expr@, interner@));
    let post_thread = crate::ast::copy_expr(&expanded);
    proof {
        lemma_expand_syms(expr@, interner@);
    }
    let canonical = canonicalize(&expanded, interner, true, &mut rewrites);
    NormalizeTrace { expr: CanonExpr(canonical), post_thread, rewrites }
}

} // verus!
