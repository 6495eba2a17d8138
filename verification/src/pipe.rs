//! The pipeline inspector's call-site table: the calls of an expression in
//! preorder, as the user wrote them and after canonicalization, and the IR
//! operation each one most likely became.

use vstd::prelude::*;
use crate::ast::{Expr, ExprV, Interner, exprs_view, lemma_exprs_view};
use crate::normalize::{syms_below, syms_below_all, lemma_syms_all};
use crate::cli::{canonical_to_ir_name, spec_canonical_to_ir_name};
use crate::text::{str_eq, texts};
use crate::ir::{Node, NumericFunc, Operation, Plan, UnaryOp};
use crate::fmt::{decimal, push_decimal};

verus! {

/// The names in function position of the lists of `e`, in preorder, leaving
/// out the arrow `->`; quoted forms are not entered.
pub open spec fn calls(e: ExprV, ns: Seq<Seq<char>>) -> Seq<Seq<char>>
    decreases e,
{
    match e {
        ExprV::List(es) => head_call(es, ns) + calls_all(es, ns),
        _ => Seq::empty(),
    }
}

/// The name in function position of a list, unless it is the arrow.
pub open spec fn head_call(es: Seq<ExprV>, ns: Seq<Seq<char>>) -> Seq<Seq<char>> {
    if es.len() > 0 {
        match es[0] {
            ExprV::Sym(s) => if ns[s as int] != "->"@ {
                seq![ns[s as int]]
            } else {
                Seq::empty()
            },
            _ => Seq::empty(),
        }
    } else {
        Seq::empty()
    }
}

pub open spec fn calls_all(es: Seq<ExprV>, ns: Seq<Seq<char>>) -> Seq<Seq<char>>
    decreases es,
{
    if es.len() == 0 {
        Seq::empty()
    } else {
        calls_all(es.drop_last(), ns) + calls(es.last(), ns)
    }
}

pub open spec fn texts_of(v: Seq<String>) -> Seq<Seq<char>> {
    v.map_values(|s: String| s@)
}

/// Append the calls of `e` in preorder (see `calls`).
pub fn walk_calls(e: &Expr, interner: &Interner, out: &mut Vec<String>)
    requires
        syms_below(e@, interner@.len()),
    ensures
        texts_of(final(out)@) == texts_of(old(out)@) + calls(e@, interner@),
    decreases e,
{
    let ghost start = texts_of(out@);
    match e {
        Expr::List(es) => {
            proof {
                lemma_exprs_view(es@);
                lemma_syms_all(exprs_view(es@), interner@.len());
            }
            let ghost ev = exprs_view(es@);
            if es.len() > 0 {
                match &es[0] {
                    Expr::Sym(sym) => {
                        assert(syms_below(ev[0], interner@.len()));
                        let name = interner.resolve(*sym);
                        if !str_eq(name, "->") {
                            let ghost before = out@;
                            out.push(String::from_str(name));
                            assert(texts_of(out@) =~= texts_of(before).push(name@));
                        }
                    },
                    _ => {},
                }
            }
            let ghost mid = texts_of(out@);
            assert(mid =~= start + head_call(ev, interner@));
            let mut i: usize = 0;
            assert(ev.take(0) =~= Seq::<ExprV>::empty());
            assert(texts_of(out@) =~= mid + calls_all(ev.take(0), interner@));
            while i < es.len()
                invariant
                    i <= es@.len(),
                    ev == exprs_view(es@),
                    ev.len() == es@.len(),
                    forall|j: int| 0 <= j < es@.len() ==> #[trigger] ev[j] == es@[j]@,
                    forall|j: int| 0 <= j < es@.len() ==> #[trigger] syms_below(ev[j], interner@.len()),
                    texts_of(out@) == mid + calls_all(ev.take(i as int), interner@),
                    *e == Expr::List(*es),
                decreases es@.len() - i,
            {
                assert(decreases_to!(*es => es@[i as int]));
                assert(decreases_to!(*e => (*e)->List_0));
                assert((*e)->List_0 == *es);
                assert(decreases_to!(e => es@[i as int]));
                assert(syms_below(ev[i as int], interner@.len()));
                walk_calls(&es[i], interner, out);
                proof {
                    assert(ev.take(i + 1).drop_last() =~= ev.take(i as int));
                    assert(ev.take(i + 1).last() == ev[i as int]);
                    assert(texts_of(out@) =~= mid + calls_all(ev.take(i + 1), interner@));
                }
                i += 1;
            }
            assert(ev.take(es@.len() as int) =~= ev);
            assert(texts_of(out@) =~= start + calls(e@, interner@));
        },
        _ => {
            assert(texts_of(out@) =~= start + Seq::<Seq<char>>::empty());
        },
    }
}

/// One call of the expression: its preorder position, the name the user
/// wrote, and its canonical name.
#[derive(Debug, Clone)]
pub struct CallSite {
    pub preorder_id: usize,
    pub user_sym: String,
    pub canonical_sym: String,
}

/// The call sites of an expression: the calls of the expression after
/// thread-first expansion, paired in preorder with those of its canonical
/// form (as far as both go), with the numbers of calls of each.
pub fn collect_call_sites(post_thread: &Expr, canonical: &Expr, interner: &Interner) -> (r: (
    Vec<CallSite>,
    usize,
    usize,
))
    requires
        syms_below(post_thread@, interner@.len()),
        syms_below(canonical@, interner@.len()),
    ensures
        r.1 == calls(post_thread@, interner@).len(),
        r.2 == calls(canonical@, interner@).len(),
        r.0@.len() == if r.1 < r.2 { r.1 } else { r.2 },
        forall|i: int|
            0 <= i < r.0@.len() ==> (#[trigger] r.0@[i]).preorder_id == i && r.0@[i].user_sym@ == calls(
                post_thread@,
                interner@,
            )[i] && r.0@[i].canonical_sym@ == calls(canonical@, interner@)[i],
{
    let mut thread_calls: Vec<String> = Vec::new();
    let mut canonical_calls: Vec<String> = Vec::new();
    walk_calls(post_thread, interner, &mut thread_calls);
    walk_calls(canonical, interner, &mut canonical_calls);
    assert(texts_of(thread_calls@) =~= calls(post_thread@, interner@));
    assert(texts_of(canonical_calls@) =~= calls(canonical@, interner@));
    let n = if thread_calls.len() < canonical_calls.len() {
        thread_calls.len()
    } else {
        canonical_calls.len()
    };
    let mut sites: Vec<CallSite> = Vec::new();
    let mut i: usize = 0;
    while i < n
        invariant
            i <= n,
            n <= thread_calls@.len(),
            n <= canonical_calls@.len(),
            sites@.len() == i,
            forall|j: int|
                0 <= j < i ==> (#[trigger] sites@[j]).preorder_id == j && sites@[j].user_sym@
                    == thread_calls@[j]@ && sites@[j].canonical_sym@ == canonical_calls@[j]@,
        decreases n - i,
    {
        sites.push(
            CallSite {
                preorder_id: i,
                user_sym: thread_calls[i].clone(),
                canonical_sym: canonical_calls[i].clone(),
            },
        );
        i += 1;
    }
    proof {
        assert forall|j: int| 0 <= j < sites@.len() implies sites@[j].user_sym@ == calls(
            post_thread@,
            interner@,
        )[j] by {
            assert(texts_of(thread_calls@)[j] == thread_calls@[j]@);
        }
        assert forall|j: int| 0 <= j < sites@.len() implies sites@[j].canonical_sym@ == calls(
            canonical@,
            interner@,
        )[j] by {
            assert(texts_of(canonical_calls@)[j] == canonical_calls@[j]@);
        }
    }
    (sites, thread_calls.len(), canonical_calls.len())
}

// ─── Correlation with the plan ──────────────────────────────────────────────

/// `needle` occurs in `hay` at position `i`.
pub open spec fn occurs_at(hay: Seq<u8>, needle: Seq<u8>, i: int) -> bool {
    0 <= i && i + needle.len() <= hay.len() && hay.subrange(i, i + needle.len()) == needle
}

pub open spec fn bytes_contain(hay: Seq<u8>, needle: Seq<u8>) -> bool {
    exists|i: int| occurs_at(hay, needle, i)
}

pub open spec fn text_contains(hay: Seq<char>, needle: Seq<char>) -> bool {
    bytes_contain(vstd::utf8::encode_utf8(hay), vstd::utf8::encode_utf8(needle))
}

/// Whether `needle` occurs in `hay` (byte for byte), as `str::contains` finds it.
pub fn contains_str(hay: &str, needle: &str) -> (r: bool)
    ensures
        r == text_contains(hay@, needle@),
{
    let h = hay.as_bytes();
    let nd = needle.as_bytes();
    assert(h@ == vstd::utf8::encode_utf8(hay@));
    assert(nd@ == vstd::utf8::encode_utf8(needle@));
    if nd.len() > h.len() {
        proof {
            assert forall|i: int| !occurs_at(h@, nd@, i) by {}
        }
        return false;
    }
    let hl = h.len();
    let last = hl - nd.len();
    let mut i: usize = 0;
    while i <= last
        invariant
            last == h@.len() - nd@.len(),
            nd@.len() <= h@.len(),
            hl == h@.len(),
            h@ == vstd::utf8::encode_utf8(hay@),
            nd@ == vstd::utf8::encode_utf8(needle@),
            i <= last + 1,
            forall|k: int| 0 <= k < i ==> !occurs_at(h@, nd@, k),
        decreases last + 1 - i,
    {
        let mut j: usize = 0;
        while j < nd.len() && h[i + j] == nd[j]
            invariant
                j <= nd@.len(),
                i <= last,
                last == h@.len() - nd@.len(),
                nd@.len() <= h@.len(),
                hl == h@.len(),
                forall|m: int| 0 <= m < j ==> h@[i + m] == nd@[m],
            decreases nd@.len() - j,
        {
            j += 1;
        }
        if j == nd.len() {
            assert(h@.subrange(i as int, i + nd@.len()) =~= nd@);
            assert(occurs_at(h@, nd@, i as int));
            return true;
        }
        assert(!occurs_at(h@, nd@, i as int)) by {
            if occurs_at(h@, nd@, i as int) {
                assert(h@.subrange(i as int, i + nd@.len())[j as int] == h@[i + j]);
            }
        }
        i += 1;
    }
    proof {
        assert forall|k: int| !occurs_at(h@, nd@, k) by {
            if 0 <= k && k + nd@.len() <= h@.len() {
                assert(k < i);
            }
        }
    }
    false
}

/// Where a call with no matching plan node is shown to have gone: its source
/// kind, binding or join.
pub open spec fn fallback_ir(canon: Seq<char>) -> Seq<char> {
    if canon == "stdin"@ {
        "Source::Stdin"@
    } else if canon == "file"@ || canon == "load"@ || canon == "read-csv"@ {
        "Source::File"@
    } else if canon == "file-fast"@ {
        "Source::FileFast"@
    } else if canon == "let"@ {
        "let-binding"@
    } else if canon == "mapr"@ {
        "ALIGN"@
    } else if canon == "asofr"@ {
        "ASOF_ALIGN"@
    } else if canon == "xminus"@ {
        "SHF_PTW_LIN_SPR"@
    } else {
        "-"@
    }
}

/// The first plan node description from `i` on that mentions `expected`.
pub open spec fn first_mention(descs: Seq<Seq<char>>, expected: Seq<char>, i: int) -> Option<int>
    decreases descs.len() - i,
{
    if i < 0 || i >= descs.len() {
        None
    } else if text_contains(descs[i], expected) {
        Some(i)
    } else {
        first_mention(descs, expected, i + 1)
    }
}

/// The IR operation a call most likely became, and whether it was fused: the
/// first plan node whose description mentions the call's IR name, else where
/// calls of its kind go.
pub open spec fn ir_for_call(descs: Seq<Seq<char>>, canon: Seq<char>) -> (Seq<char>, Seq<char>) {
    match spec_canonical_to_ir_name(canon) {
        Some(expected) => match first_mention(descs, expected, 0) {
            Some(i) => (expected, if text_contains(descs[i], "Fused"@) { "yes"@ } else { "-"@ }),
            None => (fallback_ir(canon), "-"@),
        },
        None => (fallback_ir(canon), "-"@),
    }
}

fn fallback_text(canon: &str) -> (r: &'static str)
    ensures
        r@ == fallback_ir(canon@),
{
    if str_eq(canon, "stdin") {
        "Source::Stdin"
    } else if str_eq(canon, "file") || str_eq(canon, "load") || str_eq(canon, "read-csv") {
        "Source::File"
    } else if str_eq(canon, "file-fast") {
        "Source::FileFast"
    } else if str_eq(canon, "let") {
        "let-binding"
    } else if str_eq(canon, "mapr") {
        "ALIGN"
    } else if str_eq(canon, "asofr") {
        "ASOF_ALIGN"
    } else if str_eq(canon, "xminus") {
        "SHF_PTW_LIN_SPR"
    } else {
        "-"
    }
}

/// Best-effort correlation of a call site with the plan's node descriptions.
pub fn find_ir_for_call(plan_nodes: &[String], site: &CallSite) -> (r: (String, String))
    ensures
        (r.0@, r.1@) == ir_for_call(texts_of(plan_nodes@), site.canonical_sym@),
{
    let ghost descs = texts_of(plan_nodes@);
    let mut i: usize = 0;
    while i < plan_nodes.len()
        invariant
            i <= plan_nodes@.len(),
            descs == texts_of(plan_nodes@),
            spec_canonical_to_ir_name(site.canonical_sym@) matches Some(expected) ==> first_mention(
                descs,
                expected,
                0,
            ) == first_mention(descs, expected, i as int),
        decreases plan_nodes@.len() - i,
    {
        let desc = plan_nodes[i].as_str();
        let ir_name = canonical_to_ir_name(site.canonical_sym.as_str());
        match ir_name {
            Some(expected) => {
                if contains_str(desc, expected) {
                    let fused = if contains_str(desc, "Fused") {
                        "yes"
                    } else {
                        "-"
                    };
                    return (String::from_str(expected), String::from_str(fused));
                }
            },
            None => {},
        }
        i += 1;
    }
    (String::from_str(fallback_text(site.canonical_sym.as_str())), String::from_str("-"))
}

// ─── Fused nodes of a plan ─────────────────────────────────────────────────

/// The name of a numeric function, as the report shows it.
pub open spec fn func_text(f: NumericFunc) -> Seq<char> {
    match f {
        NumericFunc::Dlog => "Dlog"@,
        NumericFunc::Ret => "Ret"@,
        NumericFunc::Log => "Log"@,
        NumericFunc::Exp => "Exp"@,
        NumericFunc::Sqrt => "Sqrt"@,
        NumericFunc::Abs => "Abs"@,
        NumericFunc::Inv => "Inv"@,
        NumericFunc::Shift { k } => "Shift { k: "@ + decimal(k as nat) + " }"@,
        NumericFunc::Cs1 => "Cs1"@,
        NumericFunc::DlogOfs => "DlogOfs"@,
        NumericFunc::DlogObs => "DlogObs"@,
    }
}

/// The names of functions, separated by ", ".
pub open spec fn funcs_text(fs: Seq<NumericFunc>) -> Seq<char>
    decreases fs.len(),
{
    if fs.len() == 0 {
        Seq::empty()
    } else if fs.len() == 1 {
        func_text(fs[0])
    } else {
        funcs_text(fs.drop_last()) + ", "@ + func_text(fs.last())
    }
}

/// How the report names a fused node; other nodes have no label.
pub open spec fn fused_label(op: Operation) -> Option<Seq<char>> {
    match op {
        Operation::Unary(UnaryOp::FusedElementwise { ops, .. }) => Some(
            "FusedElementwise["@ + funcs_text(ops@) + "]"@,
        ),
        Operation::Unary(UnaryOp::FusedCs1Elementwise { ops, .. }) => Some(
            "FusedCs1Elementwise["@ + funcs_text(ops@) + "]"@,
        ),
        Operation::Unary(UnaryOp::FusedCs1DlogOfs { lag, .. }) => Some(
            "FusedCs1DlogOfs(lag="@ + decimal(lag as nat) + ")"@,
        ),
        Operation::Unary(UnaryOp::FusedCs1DlogObs { .. }) => Some("FusedCs1DlogObs"@),
        _ => None,
    }
}

/// The labels of the fused nodes among the first `n` nodes, in plan order.
pub open spec fn fused_labels_of(nodes: Seq<Node>, n: int) -> Seq<Seq<char>>
    decreases n,
{
    if n <= 0 {
        Seq::empty()
    } else {
        match fused_label(nodes[n - 1].op) {
            Some(l) => fused_labels_of(nodes, n - 1).push(l),
            None => fused_labels_of(nodes, n - 1),
        }
    }
}

fn push_func_text(out: &mut String, f: NumericFunc)
    ensures
        final(out)@ == old(out)@ + func_text(f),
{
    match f {
        NumericFunc::Dlog => out.append("Dlog"),
        NumericFunc::Ret => out.append("Ret"),
        NumericFunc::Log => out.append("Log"),
        NumericFunc::Exp => out.append("Exp"),
        NumericFunc::Sqrt => out.append("Sqrt"),
        NumericFunc::Abs => out.append("Abs"),
        NumericFunc::Inv => out.append("Inv"),
        NumericFunc::Shift { k } => {
            out.append("Shift { k: ");
            push_decimal(out, k as u64);
            out.append(" }");
        },
        NumericFunc::Cs1 => out.append("Cs1"),
        NumericFunc::DlogOfs => out.append("DlogOfs"),
        NumericFunc::DlogObs => out.append("DlogObs"),
    }
}

fn push_funcs_text(out: &mut String, fs: &Vec<NumericFunc>)
    ensures
        final(out)@ == old(out)@ + funcs_text(fs@),
{
    let ghost start = out@;
    let mut i: usize = 0;
    while i < fs.len()
        invariant
            i <= fs@.len(),
            out@ == start + funcs_text(fs@.subrange(0, i as int)),
        decreases fs@.len() - i,
    {
        let ghost before = out@;
        if i > 0 {
            out.append(", ");
        }
        push_func_text(out, fs[i]);
        proof {
            let s = fs@.subrange(0, i + 1);
            assert(s.drop_last() =~= fs@.subrange(0, i as int));
            assert(s.last() == fs@[i as int]);
            if i == 0 {
                assert(out@ =~= start + funcs_text(s));
            } else {
                assert(out@ =~= start + funcs_text(s));
            }
        }
        i += 1;
    }
    assert(fs@.subrange(0, fs@.len() as int) =~= fs@);
}

/// The fused nodes of a plan, in plan order, as the report lists them.
pub fn detect_fused_ops(plan: &Plan) -> (r: Vec<String>)
    ensures
        texts(r@) == fused_labels_of(plan.nodes@, plan.nodes@.len() as int),
{
    let mut out: Vec<String> = Vec::new();
    let mut i: usize = 0;
    while i < plan.nodes.len()
        invariant
            i <= plan.nodes@.len(),
            texts(out@) == fused_labels_of(plan.nodes@, i as int),
        decreases plan.nodes@.len() - i,
    {
        let ghost before = out@;
        let mut label = String::new();
        let mut found = true;
        match &plan.nodes[i].op {
            Operation::Unary(UnaryOp::FusedElementwise { ops, .. }) => {
                label.append("FusedElementwise[");
                push_funcs_text(&mut label, ops);
                label.append("]");
            },
            Operation::Unary(UnaryOp::FusedCs1Elementwise { ops, .. }) => {
                label.append("FusedCs1Elementwise[");
                push_funcs_text(&mut label, ops);
                label.append("]");
            },
            Operation::Unary(UnaryOp::FusedCs1DlogOfs { lag, .. }) => {
                label.append("FusedCs1DlogOfs(lag=");
                push_decimal(&mut label, *lag as u64);
                label.append(")");
            },
            Operation::Unary(UnaryOp::FusedCs1DlogObs { .. }) => {
                label.append("FusedCs1DlogObs");
            },
            _ => {
                found = false;
            },
        }
        proof {
            assert(found <==> fused_label(plan.nodes@[i as int].op) is Some);
            assert(found ==> label@ =~= fused_label(plan.nodes@[i as int].op)->0);
        }
        if found {
            out.push(label);
        }
        assert(texts(out@) =~= fused_labels_of(plan.nodes@, i + 1));
        i += 1;
    }
    out
}

} // verus!
