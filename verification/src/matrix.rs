//! The operation matrix of the dictionary command: for every name the
//! language knows, whether users can type it, why, how the normalizer
//! spells it, which layer handles it (IR, glue, legacy builtin) and what the
//! dictionary files say of it.
//!
//! What each row says is decided here from the facts gathered about the name
//! (the planner's probe, the builtin registry, the dictionary entries).

use vstd::prelude::*;
use crate::dic::OpMapEntry;
use crate::ir::{Plan, Operation, Source, UnaryOp, is_pure_elementwise};
use crate::fmt::{decimal, push_decimal};
use crate::normalize::{canonical_name, canonical_name_of, lemma_alias_final};
use crate::text::{texts, contains_text, str_eq};
use crate::pipe::{contains_str, text_contains};
use crate::align::{lex_le, string_le, lemma_lex_refl, lemma_lex_trans, lemma_lex_total};
use crate::dic_rows::{RowOrder, stable_sorted, views};

verus! {

// ─── Tables ─────────────────────────────────────────────────────────────────

pub open spec fn strs(v: Seq<&str>) -> Seq<Seq<char>> {
    v.map_values(|s: &str| s@)
}

/// Control, I/O and logic forms: never data operations.
pub open spec fn glue_forms() -> Seq<Seq<char>> {
    seq![
        "save"@,
        "print"@,
        "progn"@,
        "defmacro"@,
        "define"@,
        "let"@,
        "let*"@,
        "and"@,
        "or"@,
        "not"@,
    ]
}

/// The public finance operations: the declared user API for data work.
pub open spec fn public_finance_ops() -> Seq<Seq<char>> {
    seq![
        "stdin"@,
        "file"@,
        "load"@,
        "read-csv"@,
        "abs"@,
        "exp"@,
        "inv"@,
        "log"@,
        "sqrt"@,
        "+"@,
        "-"@,
        "*"@,
        "/"@,
        ">"@,
        "<"@,
        "<="@,
        ">="@,
        "=="@,
        "!="@,
        "shift"@,
        "dlog"@,
        "cs1"@,
        "locf"@,
        "xminus"@,
        "rolling-mean"@,
        "rolling-std"@,
        "rolling-zscore"@,
        "ur"@,
        "wzs"@,
        "wkd"@,
        "mapr"@,
    ]
}

/// Sources, arithmetic, comparisons and glue forms that are always candidates.
pub open spec fn core_symbols() -> Seq<Seq<char>> {
    seq![
        "stdin"@,
        "file"@,
        "load"@,
        "read-csv"@,
        "+"@,
        "-"@,
        "*"@,
        "/"@,
        ">"@,
        "<"@,
        "<="@,
        ">="@,
        "=="@,
        "!="@,
        "let"@,
        "save"@,
        "print"@,
        "progn"@,
        "not"@,
        "and"@,
        "or"@,
        "defmacro"@,
    ]
}

/// Both sides of every alias of the normalizer, in table order.
pub open spec fn alias_spellings() -> Seq<Seq<char>> {
    seq![
        "dlog-cols"@,
        "dlog"@,
        "dlog-col"@,
        "dlog"@,
        "rolling-mean"@,
        "rol_avg"@,
        "rolling-std"@,
        "rol_std"@,
        "rolling-zscore"@,
        "rol_zsc"@,
        "wzs"@,
        "rol_zsc"@,
        "cs1"@,
        "run_sum"@,
        "ur"@,
        "rsk_adj"@,
        "cs1-cols"@,
        "run_sum"@,
        "cs1-col"@,
        "run_sum"@,
        "ur-cols"@,
        "rsk_adj"@,
        "ur-col"@,
        "rsk_adj"@,
        "rolling-mean-cols"@,
        "rol_avg"@,
        "rolling-std-cols"@,
        "rol_std"@,
        "rolling-zscore-cols"@,
        "rol_zsc"@,
        "rol_avg_cols"@,
        "rol_avg"@,
        "rol_std_cols"@,
        "rol_std"@,
        "rol_zsc_cols"@,
        "rol_zsc"@,
        "run_sum_cols"@,
        "run_sum"@,
        "rsk_adj_cols"@,
        "rsk_adj"@,
        "shift-cols"@,
        "shift"@,
        "shift-col"@,
        "shift"@,
        ">-cols"@,
        ">"@,
        ">-col"@,
        ">"@,
        "locf-cols"@,
        "locf"@,
        "diff-cols"@,
        "diff"@,
        "diff-col"@,
        "diff"@,
        "ecs1-cols"@,
        "ecs1"@,
        "ecs1-col"@,
        "ecs1"@,
        "x-"@,
        "xminus"@,
        "w5"@,
        "wkd"@,
        "let*"@,
        "let"@,
        "add"@,
        "+"@,
        "sub"@,
        "-"@,
        "mul"@,
        "*"@,
        "div"@,
        "/"@,
        "eq"@,
        "=="@,
        "neq"@,
        "!="@,
        "gt"@,
        ">"@,
        "gte"@,
        ">="@,
        "lt"@,
        "<"@,
        "lte"@,
        "<="@,
        "ln"@,
        "log"@,
    ]
}

fn glue_form_table() -> (v: Vec<&'static str>)
    ensures
        strs(v@) == glue_forms(),
{
    let mut v: Vec<&'static str> = Vec::new();
    v.push("save");
    v.push("print");
    v.push("progn");
    v.push("defmacro");
    v.push("define");
    v.push("let");
    v.push("let*");
    v.push("and");
    v.push("or");
    v.push("not");
    assert(strs(v@) =~= glue_forms());
    v
}

fn public_finance_table() -> (v: Vec<&'static str>)
    ensures
        strs(v@) == public_finance_ops(),
{
    let mut v: Vec<&'static str> = Vec::new();
    v.push("stdin");
    v.push("file");
    v.push("load");
    v.push("read-csv");
    v.push("abs");
    v.push("exp");
    v.push("inv");
    v.push("log");
    v.push("sqrt");
    v.push("+");
    v.push("-");
    v.push("*");
    v.push("/");
    v.push(">");
    v.push("<");
    v.push("<=");
    v.push(">=");
    v.push("==");
    v.push("!=");
    v.push("shift");
    v.push("dlog");
    v.push("cs1");
    v.push("locf");
    v.push("xminus");
    v.push("rolling-mean");
    v.push("rolling-std");
    v.push("rolling-zscore");
    v.push("ur");
    v.push("wzs");
    v.push("wkd");
    v.push("mapr");
    assert(strs(v@) =~= public_finance_ops());
    v
}

fn core_symbol_table() -> (v: Vec<&'static str>)
    ensures
        strs(v@) == core_symbols(),
{
    let mut v: Vec<&'static str> = Vec::new();
    v.push("stdin");
    v.push("file");
    v.push("load");
    v.push("read-csv");
    v.push("+");
    v.push("-");
    v.push("*");
    v.push("/");
    v.push(">");
    v.push("<");
    v.push("<=");
    v.push(">=");
    v.push("==");
    v.push("!=");
    v.push("let");
    v.push("save");
    v.push("print");
    v.push("progn");
    v.push("not");
    v.push("and");
    v.push("or");
    v.push("defmacro");
    assert(strs(v@) =~= core_symbols());
    v
}

fn alias_spelling_table() -> (v: Vec<&'static str>)
    ensures
        strs(v@) == alias_spellings(),
{
    let mut v: Vec<&'static str> = Vec::new();
    v.push("dlog-cols");
    v.push("dlog");
    v.push("dlog-col");
    v.push("dlog");
    v.push("rolling-mean");
    v.push("rol_avg");
    v.push("rolling-std");
    v.push("rol_std");
    v.push("rolling-zscore");
    v.push("rol_zsc");
    v.push("wzs");
    v.push("rol_zsc");
    v.push("cs1");
    v.push("run_sum");
    v.push("ur");
    v.push("rsk_adj");
    v.push("cs1-cols");
    v.push("run_sum");
    v.push("cs1-col");
    v.push("run_sum");
    v.push("ur-cols");
    v.push("rsk_adj");
    v.push("ur-col");
    v.push("rsk_adj");
    v.push("rolling-mean-cols");
    v.push("rol_avg");
    v.push("rolling-std-cols");
    v.push("rol_std");
    v.push("rolling-zscore-cols");
    v.push("rol_zsc");
    v.push("rol_avg_cols");
    v.push("rol_avg");
    v.push("rol_std_cols");
    v.push("rol_std");
    v.push("rol_zsc_cols");
    v.push("rol_zsc");
    v.push("run_sum_cols");
    v.push("run_sum");
    v.push("rsk_adj_cols");
    v.push("rsk_adj");
    v.push("shift-cols");
    v.push("shift");
    v.push("shift-col");
    v.push("shift");
    v.push(">-cols");
    v.push(">");
    v.push(">-col");
    v.push(">");
    v.push("locf-cols");
    v.push("locf");
    v.push("diff-cols");
    v.push("diff");
    v.push("diff-col");
    v.push("diff");
    v.push("ecs1-cols");
    v.push("ecs1");
    v.push("ecs1-col");
    v.push("ecs1");
    v.push("x-");
    v.push("xminus");
    v.push("w5");
    v.push("wkd");
    v.push("let*");
    v.push("let");
    v.push("add");
    v.push("+");
    v.push("sub");
    v.push("-");
    v.push("mul");
    v.push("*");
    v.push("div");
    v.push("/");
    v.push("eq");
    v.push("==");
    v.push("neq");
    v.push("!=");
    v.push("gt");
    v.push(">");
    v.push("gte");
    v.push(">=");
    v.push("lt");
    v.push("<");
    v.push("lte");
    v.push("<=");
    v.push("ln");
    v.push("log");
    assert(strs(v@) =~= alias_spellings());
    v
}

/// Whether the table holds a string equal to `n`.
fn table_contains(v: &Vec<&'static str>, n: &str) -> (r: bool)
    ensures
        r == strs(v@).contains(n@),
{
    let mut i: usize = 0;
    while i < v.len()
        invariant
            i <= v@.len(),
            forall|j: int| 0 <= j < i ==> v@[j]@ != n@,
        decreases v@.len() - i,
    {
        if str_eq(v[i], n) {
            assert(strs(v@)[i as int] == n@);
            return true;
        }
        i += 1;
    }
    assert forall|j: int| 0 <= j < strs(v@).len() implies strs(v@)[j] != n@ by {}
    false
}

// ─── Rows ───────────────────────────────────────────────────────────────────

/// Which part of the system handles an operation; the matrix lists the
/// layers in this order.
#[derive(Debug, Clone, Copy, PartialEq, Eq, Structural)]
pub enum Layer {
    IR,
    Glue,
    Legacy,
    Unknown,
}

pub open spec fn layer_label(l: Layer) -> Seq<char> {
    match l {
        Layer::IR => "IR"@,
        Layer::Glue => "GLUE"@,
        Layer::Legacy => "LEGACY"@,
        Layer::Unknown => "UNKNOWN"@,
    }
}

pub open spec fn layer_rank(l: Layer) -> int {
    match l {
        Layer::IR => 0,
        Layer::Glue => 1,
        Layer::Legacy => 2,
        Layer::Unknown => 3,
    }
}

impl Layer {
    /// The label shown in the matrix.
    pub fn label(&self) -> (s: &'static str)
        ensures
            s@ == layer_label(*self),
    {
        match self {
            Layer::IR => "IR",
            Layer::Glue => "GLUE",
            Layer::Legacy => "LEGACY",
            Layer::Unknown => "UNKNOWN",
        }
    }

    fn rank(&self) -> (r: u8)
        ensures
            r == layer_rank(*self),
    {
        match self {
            Layer::IR => 0,
            Layer::Glue => 1,
            Layer::Legacy => 2,
            Layer::Unknown => 3,
        }
    }
}

/// What the planner made of a probe expression for an operation.
#[derive(Debug, Clone)]
pub struct ProbeIR {
    pub ir_variant: String,
    pub node_count: usize,
    pub fusable: bool,
}

/// One row of the matrix.
#[derive(Debug, Clone)]
pub struct MatrixRow {
    pub name: String,
    /// The canonical spelling the normalizer rewrites this name to, if any.
    pub normalize_to: Option<String>,
    /// Whether users can type the name.
    pub is_accept: bool,
    /// Why it is accepted: normalize, planner, builtin, glue.
    pub accept_reasons: Vec<String>,
    /// Whether it belongs to the public finance operations.
    pub is_pub: bool,
    /// The spelling after normalization.
    pub canon: String,
    pub layer: Layer,
    pub ir_variant: String,
    pub fusable: String,
    /// The recommended spelling of a deprecated name, else "-".
    pub use_spelling: String,
    pub yaml_current: String,
    pub yaml_planned: String,
    pub notes: Vec<String>,
}

/// The IR name an entry is shown with: its IR name, or "null".
pub open spec fn ir_or_null(e: OpMapEntry) -> Seq<char> {
    match e.ir {
        Some(s) => s@,
        None => "null"@,
    }
}

/// The first dictionary entry from `i` on that lists the name as an alias
/// (false) or as a legacy token (true), with its IR name.
pub open spec fn yaml_lookup(name: Seq<char>, es: Seq<OpMapEntry>, i: int) -> Option<(Seq<char>, bool)>
    decreases es.len() - i,
{
    if i < 0 || i >= es.len() {
        None
    } else if texts(es[i].aliases@).contains(name) {
        Some((ir_or_null(es[i]), false))
    } else if texts(es[i].legacy_tokens@).contains(name) {
        Some((ir_or_null(es[i]), true))
    } else {
        yaml_lookup(name, es, i + 1)
    }
}

/// Glue forms first, then what the planner handles, then builtins.
pub open spec fn spec_layer(name: Seq<char>, probed: bool, is_builtin: bool) -> Layer {
    if glue_forms().contains(name) {
        Layer::Glue
    } else if probed {
        Layer::IR
    } else if is_builtin {
        Layer::Legacy
    } else {
        Layer::Unknown
    }
}

/// The notes of a row: deprecation from the dictionary or the normalizer,
/// "ir:null!" when a dictionary says null for what the planner handles,
/// "alias-only" for a spelling nothing but the normalizer knows, and "glue".
pub open spec fn spec_notes(
    name: Seq<char>,
    probed: bool,
    is_builtin: bool,
    cur: Option<(Seq<char>, bool)>,
    plan: Option<(Seq<char>, bool)>,
) -> Seq<Seq<char>> {
    let n2 = yaml_notes(spec_layer(name, probed, is_builtin), cur, plan);
    let aliased = canonical_name(name) is Some;
    let n3 = if aliased && !n2.contains("dep"@) {
        n2.push("dep"@)
    } else {
        n2
    };
    let n4 = if aliased && !is_builtin && !probed {
        n3.push("alias-only"@)
    } else {
        n3
    };
    if glue_forms().contains(name) {
        n4.push("glue"@)
    } else {
        n4
    }
}

/// The notes that come from the dictionaries.
pub open spec fn yaml_notes(layer: Layer, cur: Option<(Seq<char>, bool)>, plan: Option<(Seq<char>, bool)>) -> Seq<Seq<char>> {
    let n0: Seq<Seq<char>> = if cur matches Some((_, true)) {
        seq!["dep"@]
    } else {
        Seq::empty()
    };
    let n1 = if cur matches Some((ir, _)) && ir == "null"@ && layer == Layer::IR {
        n0.push("ir:null!"@)
    } else {
        n0
    };
    if plan matches Some((ir, _)) && ir == "null"@ && layer == Layer::IR && !n1.contains("ir:null!"@) {
        n1.push("ir:null!"@)
    } else {
        n1
    }
}

/// Why a name is accepted, in the order normalize, planner, builtin, glue.
pub open spec fn spec_reasons(name: Seq<char>, probed: bool, is_builtin: bool) -> Seq<Seq<char>> {
    let r0: Seq<Seq<char>> = if alias_spellings().contains(name) {
        seq!["normalize"@]
    } else {
        Seq::empty()
    };
    let r1 = if probed {
        r0.push("planner"@)
    } else {
        r0
    };
    let r2 = if is_builtin {
        r1.push("builtin"@)
    } else {
        r1
    };
    if glue_forms().contains(name) {
        r2.push("glue"@)
    } else {
        r2
    }
}

/// The spelling after normalization (aliases never chain).
pub open spec fn canon_of(name: Seq<char>) -> Seq<char> {
    match canonical_name(name) {
        Some(c) => c,
        None => name,
    }
}

pub open spec fn opt_text(o: Option<String>) -> Option<Seq<char>> {
    match o {
        Some(s) => Some(s@),
        None => None,
    }
}

/// The row of `name`, from its probe, whether it is a builtin, and the
/// current and planned dictionaries (looked up unless `no_yaml`).
pub open spec fn row_of(
    r: MatrixRow,
    name: Seq<char>,
    probe: Option<ProbeIR>,
    is_builtin: bool,
    no_yaml: bool,
    cur: Seq<OpMapEntry>,
    plan: Seq<OpMapEntry>,
) -> bool {
    let probed = probe is Some;
    let cur_l = if no_yaml { None } else { yaml_lookup(name, cur, 0) };
    let plan_l = if no_yaml { None } else { yaml_lookup(name, plan, 0) };
    let notes = spec_notes(name, probed, is_builtin, cur_l, plan_l);
    &&& r.name@ == name
    &&& opt_text(r.normalize_to) == canonical_name(name)
    &&& r.is_accept == (alias_spellings().contains(name) || is_builtin || glue_forms().contains(name)
        || probed)
    &&& texts(r.accept_reasons@) == spec_reasons(name, probed, is_builtin)
    &&& r.is_pub == public_finance_ops().contains(name)
    &&& r.canon@ == canon_of(name)
    &&& r.layer == spec_layer(name, probed, is_builtin)
    &&& r.ir_variant@ == (match probe {
        Some(p) => p.ir_variant@,
        None => "-"@,
    })
    &&& r.fusable@ == (if probe matches Some(p) && p.fusable { "elem"@ } else { "-"@ })
    &&& r.use_spelling@ == (if notes.contains("dep"@) { canon_of(name) } else { "-"@ })
    &&& r.yaml_current@ == (if cur_l is Some { "yes"@ } else { "-"@ })
    &&& r.yaml_planned@ == (if plan_l is Some { "yes"@ } else { "-"@ })
    &&& texts(r.notes@) == notes
}

fn ir_text(e: &OpMapEntry) -> (s: String)
    ensures
        s@ == ir_or_null(*e),
{
    match &e.ir {
        Some(s) => s.clone(),
        None => String::from_str("null"),
    }
}

/// Look a name up in dictionary entries: the first entry that lists it as an
/// alias or as a legacy token, with its IR name ("null" when it has none) and
/// whether it was a legacy token.
pub fn find_in_yaml(name: &str, entries: &[OpMapEntry]) -> (r: Option<(String, bool)>)
    ensures
        match r {
            Some((ir, legacy)) => yaml_lookup(name@, entries@, 0) == Some((ir@, legacy)),
            None => yaml_lookup(name@, entries@, 0) is None,
        },
{
    let mut i: usize = 0;
    while i < entries.len()
        invariant
            i <= entries@.len(),
            yaml_lookup(name@, entries@, 0) == yaml_lookup(name@, entries@, i as int),
        decreases entries@.len() - i,
    {
        if contains_text(entries[i].aliases.as_slice(), name) {
            return Some((ir_text(&entries[i]), false));
        }
        if contains_text(entries[i].legacy_tokens.as_slice(), name) {
            return Some((ir_text(&entries[i]), true));
        }
        i += 1;
    }
    None
}

fn push_text(v: &mut Vec<String>, s: &str)
    ensures
        texts(final(v)@) == texts(old(v)@).push(s@),
{
    let ghost before = v@;
    v.push(String::from_str(s));
    assert(texts(v@) =~= texts(before).push(s@));
}

/// Decide the row of `name` from the facts gathered about it: the planner's
/// probe, whether it is a registered builtin, and the current and planned
/// dictionary entries (not consulted when `no_yaml`).
#[verifier::rlimit(40)]
pub fn matrix_row(
    name: &str,
    probe: Option<ProbeIR>,
    is_builtin: bool,
    no_yaml: bool,
    yaml_current: &[OpMapEntry],
    yaml_planned: &[OpMapEntry],
) -> (r: MatrixRow)
    ensures
        row_of(r, name@, probe, is_builtin, no_yaml, yaml_current@, yaml_planned@),
{
    let glue_table = glue_form_table();
    let is_glue = table_contains(&glue_table, name);
    let normalize_to = match canonical_name_of(name) {
        Some(c) => Some(String::from_str(c)),
        None => None,
    };
    let probed = probe.is_some();
    let layer = if is_glue {
        Layer::Glue
    } else if probed {
        Layer::IR
    } else if is_builtin {
        Layer::Legacy
    } else {
        Layer::Unknown
    };
    let ir_variant = match &probe {
        Some(p) => p.ir_variant.clone(),
        None => String::from_str("-"),
    };
    let fusable = match &probe {
        Some(p) => if p.fusable {
            String::from_str("elem")
        } else {
            String::from_str("-")
        },
        None => String::from_str("-"),
    };
    // dictionary lookups
    let ghost cur_l = if no_yaml { None } else { yaml_lookup(name@, yaml_current@, 0) };
    let ghost plan_l = if no_yaml { None } else { yaml_lookup(name@, yaml_planned@, 0) };
    let mut notes: Vec<String> = Vec::new();
    assert(texts(notes@) =~= Seq::<Seq<char>>::empty());
    let yaml_cur;
    let yaml_plan;
    if no_yaml {
        yaml_cur = String::from_str("-");
        yaml_plan = String::from_str("-");
        assert(texts(notes@) == yaml_notes(layer, cur_l, plan_l));
    } else {
        yaml_cur = match find_in_yaml(name, yaml_current) {
            Some((ir, is_legacy)) => {
                if is_legacy {
                    push_text(&mut notes, "dep");
                }
                if str_eq(ir.as_str(), "null") && layer == Layer::IR {
                    push_text(&mut notes, "ir:null!");
                }
                String::from_str("yes")
            },
            None => String::from_str("-"),
        };
        yaml_plan = match find_in_yaml(name, yaml_planned) {
            Some((ir, _)) => {
                if str_eq(ir.as_str(), "null") && layer == Layer::IR {
                    if !contains_text(notes.as_slice(), "ir:null!") {
                        push_text(&mut notes, "ir:null!");
                    }
                }
                String::from_str("yes")
            },
            None => String::from_str("-"),
        };
        assert(texts(notes@) == yaml_notes(layer, cur_l, plan_l));
    }
    if normalize_to.is_some() && !contains_text(notes.as_slice(), "dep") {
        push_text(&mut notes, "dep");
    }
    if normalize_to.is_some() && !is_builtin && !probed {
        push_text(&mut notes, "alias-only");
    }
    if is_glue {
        push_text(&mut notes, "glue");
    }
    assert(texts(notes@) == spec_notes(name@, probed, is_builtin, cur_l, plan_l));
    // accepted: typable through the normalizer, the planner, the builtins or as glue
    let alias_table = alias_spelling_table();
    let is_in_normalize = table_contains(&alias_table, name);
    let is_accept = is_in_normalize || is_builtin || is_glue || probed;
    let mut accept_reasons: Vec<String> = Vec::new();
    assert(texts(accept_reasons@) =~= Seq::<Seq<char>>::empty());
    if is_in_normalize {
        push_text(&mut accept_reasons, "normalize");
    }
    if probed {
        push_text(&mut accept_reasons, "planner");
    }
    if is_builtin {
        push_text(&mut accept_reasons, "builtin");
    }
    if is_glue {
        push_text(&mut accept_reasons, "glue");
    }
    let pub_table = public_finance_table();
    let is_pub = table_contains(&pub_table, name);
    // the canonical spelling, following alias chains (there are none)
    let mut c: &str = match &normalize_to {
        Some(t) => t.as_str(),
        None => name,
    };
    proof {
        lemma_alias_final(name@);
    }
    loop
        invariant
            c@ == canon_of(name@),
            canonical_name(c@) is None,
        decreases 0nat,
    {
        match canonical_name_of(c) {
            Some(next) => {
                if str_eq(next, c) {
                    break;
                }
                c = next;
            },
            None => {
                break;
            },
        }
    }
    let canon = String::from_str(c);
    let use_spelling = if contains_text(notes.as_slice(), "dep") {
        String::from_str(canon.as_str())
    } else {
        String::from_str("-")
    };
    MatrixRow {
        name: String::from_str(name),
        normalize_to,
        is_accept,
        accept_reasons,
        is_pub,
        canon,
        layer,
        ir_variant,
        fusable,
        use_spelling,
        yaml_current: yaml_cur,
        yaml_planned: yaml_plan,
        notes,
    }
}

/// A pure elementwise function mapped over a column.
pub open spec fn fusable_op(op: Operation) -> bool {
    op matches Operation::Unary(UnaryOp::MapNumeric { func, .. }) && (func is Abs || func is Log
        || func is Exp || func is Sqrt || func is Inv)
}

/// Whether a plan maps a pure elementwise function over a column anywhere
/// (the matrix calls such an operation fusable).
pub fn plan_fusable(plan: &Plan) -> (r: bool)
    ensures
        r == exists|i: int| 0 <= i < plan.nodes@.len() && fusable_op(#[trigger] plan.nodes@[i].op),
{
    let mut i: usize = 0;
    while i < plan.nodes.len()
        invariant
            i <= plan.nodes@.len(),
            forall|j: int| 0 <= j < i ==> !fusable_op(#[trigger] plan.nodes@[j].op),
        decreases plan.nodes@.len() - i,
    {
        match &plan.nodes[i].op {
            Operation::Unary(UnaryOp::MapNumeric { func, .. }) => {
                if is_pure_elementwise(func) {
                    assert(fusable_op(plan.nodes@[i as int].op));
                    return true;
                }
            },
            _ => {},
        }
        i += 1;
    }
    false
}

/// The label of a plan's source: what its first node reads from.
pub open spec fn source_label(nodes: Seq<crate::ir::Node>) -> Seq<char> {
    if nodes.len() == 0 {
        "-"@
    } else {
        match nodes[0].op {
            Operation::Source(Source::File { .. }) => "Source::File"@,
            Operation::Source(Source::Variable { .. }) => "Source::Variable"@,
            _ => "-"@,
        }
    }
}

/// The label of a plan that only reads its source.
pub fn format_ir_source(plan: &Plan) -> (s: String)
    ensures
        s@ == source_label(plan.nodes@),
{
    if plan.nodes.len() == 0 {
        return String::from_str("-");
    }
    match &plan.nodes[0].op {
        Operation::Source(Source::File { .. }) => String::from_str("Source::File"),
        Operation::Source(Source::Variable { .. }) => String::from_str("Source::Variable"),
        _ => String::from_str("-"),
    }
}

/// What a probe reports of the plan a name compiles to, given the labels of
/// the plan's operations other than its sources: the one label when there is
/// one, the source's label when there is none, else "composite(<n> nodes)";
/// the plan's number of nodes; and whether it maps a pure elementwise
/// function anywhere.
pub fn probe_of_plan(plan: &Plan, op_labels: &[String]) -> (p: ProbeIR)
    ensures
        p.node_count == plan.nodes@.len(),
        p.fusable == exists|i: int| 0 <= i < plan.nodes@.len() && fusable_op(#[trigger] plan.nodes@[i].op),
        p.ir_variant@ == if op_labels@.len() == 0 {
            source_label(plan.nodes@)
        } else if op_labels@.len() == 1 {
            op_labels@[0]@
        } else {
            "composite("@ + decimal(plan.nodes@.len() as nat) + " nodes)"@
        },
{
    let ir_variant = if op_labels.len() == 0 {
        format_ir_source(plan)
    } else if op_labels.len() == 1 {
        String::from_str(op_labels[0].as_str())
    } else {
        let mut m = String::from_str("composite(");
        push_decimal(&mut m, plan.nodes.len() as u64);
        m.append(" nodes)");
        m
    };
    ProbeIR { ir_variant, node_count: plan.nodes.len(), fusable: plan_fusable(plan) }
}

/// Whether the matrix lists a name under a `--grep` pattern: every name
/// without one, else the names that contain it.
pub fn grep_keeps(name: &str, pattern: Option<&str>) -> (r: bool)
    ensures
        r == match pattern {
            Some(p) => text_contains(name@, p@),
            None => true,
        },
{
    match pattern {
        Some(p) => contains_str(name, p),
        None => true,
    }
}

// ─── Order and summary ──────────────────────────────────────────────────────

pub open spec fn name_bytes(r: MatrixRow) -> Seq<u8> {
    vstd::utf8::encode_utf8(r.name@)
}

/// Rows are ordered by layer, then by name (byte order).
pub open spec fn row_le(a: MatrixRow, b: MatrixRow) -> bool {
    layer_rank(a.layer) < layer_rank(b.layer) || (layer_rank(a.layer) == layer_rank(b.layer) && lex_le(
        name_bytes(a),
        name_bytes(b),
    ))
}

pub open spec fn rows_sorted(rs: Seq<MatrixRow>) -> bool {
    forall|i: int, j: int| 0 <= i < j < rs.len() ==> row_le(rs[i], rs[j])
}

pub proof fn lemma_row_le_total(a: MatrixRow, b: MatrixRow)
    ensures
        row_le(a, b) || row_le(b, a),
{
    lemma_lex_total(name_bytes(a), name_bytes(b));
}

pub proof fn lemma_row_le_trans(a: MatrixRow, b: MatrixRow, c: MatrixRow)
    requires
        row_le(a, b),
        row_le(b, c),
    ensures
        row_le(a, c),
{
    if layer_rank(a.layer) == layer_rank(b.layer) && layer_rank(b.layer) == layer_rank(c.layer) {
        lemma_lex_trans(name_bytes(a), name_bytes(b), name_bytes(c));
    }
}

fn row_le_exec(a: &MatrixRow, b: &MatrixRow) -> (r: bool)
    ensures
        r == row_le(*a, *b),
{
    let ra = a.layer.rank();
    let rb = b.layer.rank();
    ra < rb || (ra == rb && string_le(&a.name, &b.name))
}

impl View for MatrixRow {
    type V = MatrixRow;

    open spec fn view(&self) -> MatrixRow {
        *self
    }
}

impl RowOrder for MatrixRow {
    open spec fn before(a: MatrixRow, b: MatrixRow) -> bool {
        row_le(a, b)
    }

    proof fn lemma_total(a: MatrixRow, b: MatrixRow) {
        lemma_row_le_total(a, b);
    }

    proof fn lemma_trans(a: MatrixRow, b: MatrixRow, c: MatrixRow) {
        lemma_row_le_trans(a, b, c);
    }

    fn before_exec(&self, other: &Self) -> (r: bool) {
        row_le_exec(self, other)
    }
}

/// Rows in matrix order: by layer (IR, glue, legacy, unknown), then by name;
/// rows that tie keep their order.
pub fn sort_rows(rows: Vec<MatrixRow>) -> (r: Vec<MatrixRow>)
    ensures
        r@ == stable_sorted::<MatrixRow>(rows@),
        r@.to_multiset() == rows@.to_multiset(),
        rows_sorted(r@),
{
    let r = crate::dic_rows::sort_rows::<MatrixRow>(rows);
    assert(views(r@) =~= r@);
    assert(views(rows@) =~= rows@);
    assert forall|i: int, j: int| 0 <= i < j < r@.len() implies row_le(r@[i], r@[j]) by {
        assert(<MatrixRow as RowOrder>::before(views(r@)[i], views(r@)[j]));
    }
    r
}

/// Whether the `--grep` pattern keeps a name.
pub open spec fn keeps_name(name: Seq<char>, pattern: Option<Seq<char>>) -> bool {
    match pattern {
        Some(p) => text_contains(name, p),
        None => true,
    }
}

/// The positions among the first `n` candidates of the names the pattern keeps.
pub open spec fn kept_positions(names: Seq<String>, pattern: Option<Seq<char>>, n: int) -> Seq<int>
    decreases n,
{
    if n <= 0 {
        Seq::empty()
    } else if keeps_name(names[n - 1]@, pattern) {
        kept_positions(names, pattern, n - 1).push(n - 1)
    } else {
        kept_positions(names, pattern, n - 1)
    }
}

pub open spec fn opt_view(p: Option<&str>) -> Option<Seq<char>> {
    match p {
        Some(s) => Some(s@),
        None => None,
    }
}

fn copy_probe(p: &Option<ProbeIR>) -> (r: Option<ProbeIR>)
    ensures
        r == *p,
{
    match p {
        Some(x) => Some(ProbeIR { ir_variant: x.ir_variant.clone(), node_count: x.node_count, fusable: x.fusable }),
        None => None,
    }
}

/// The matrix rows of the candidate names that the `--grep` pattern keeps,
/// in matrix order; `probes[i]` is what the planner made of `names[i]` and
/// `builtins[i]` whether the runtime registers it.
pub fn matrix_rows(
    names: &Vec<String>,
    pattern: Option<&str>,
    probes: &Vec<Option<ProbeIR>>,
    builtins: &Vec<bool>,
    no_yaml: bool,
    yaml_current: &[OpMapEntry],
    yaml_planned: &[OpMapEntry],
) -> (r: Vec<MatrixRow>)
    requires
        probes@.len() == names@.len(),
        builtins@.len() == names@.len(),
    ensures
        exists|pre: Seq<MatrixRow>|
            {
                &&& #[trigger] stable_sorted::<MatrixRow>(pre) == r@
                &&& pre.len() == kept_positions(names@, opt_view(pattern), names@.len() as int).len()
                &&& forall|k: int|
                    0 <= k < pre.len() ==> {
                        let i = kept_positions(names@, opt_view(pattern), names@.len() as int)[k];
                        row_of(
                            #[trigger] pre[k],
                            names@[i]@,
                            probes@[i],
                            builtins@[i],
                            no_yaml,
                            yaml_current@,
                            yaml_planned@,
                        )
                    }
            },
{
    let mut rows: Vec<MatrixRow> = Vec::new();
    let mut i: usize = 0;
    while i < names.len()
        invariant
            i <= names@.len(),
            probes@.len() == names@.len(),
            builtins@.len() == names@.len(),
            rows@.len() == kept_positions(names@, opt_view(pattern), i as int).len(),
            forall|k: int| 0 <= k < rows@.len() ==> 0 <= #[trigger] kept_positions(names@, opt_view(pattern), i as int)[k] < i,
            forall|k: int|
                0 <= k < rows@.len() ==> {
                    let j = kept_positions(names@, opt_view(pattern), i as int)[k];
                    row_of(#[trigger] rows@[k], names@[j]@, probes@[j], builtins@[j], no_yaml, yaml_current@, yaml_planned@)
                },
        decreases names@.len() - i,
    {
        let ghost before = rows@;
        if grep_keeps(names[i].as_str(), pattern) {
            let p = copy_probe(&probes[i]);
            let row = matrix_row(names[i].as_str(), p, builtins[i], no_yaml, yaml_current, yaml_planned);
            rows.push(row);
        }
        proof {
            let kp = kept_positions(names@, opt_view(pattern), i as int);
            let kq = kept_positions(names@, opt_view(pattern), i + 1);
            assert(keeps_name(names@[i as int]@, opt_view(pattern)) == (match pattern {
                Some(pp) => text_contains(names@[i as int]@, pp@),
                None => true,
            }));
            assert forall|k: int| 0 <= k < kp.len() implies kq[k] == kp[k] by {}
        }
        i += 1;
    }
    let r = sort_rows(rows);
    assert(stable_sorted::<MatrixRow>(rows@) == r@);
    r
}

pub open spec fn count_layer(rs: Seq<MatrixRow>, l: Layer) -> nat
    decreases rs.len(),
{
    if rs.len() == 0 {
        0
    } else {
        count_layer(rs.drop_last(), l) + if rs.last().layer == l { 1nat } else { 0nat }
    }
}

pub open spec fn count_accept(rs: Seq<MatrixRow>) -> nat
    decreases rs.len(),
{
    if rs.len() == 0 {
        0
    } else {
        count_accept(rs.drop_last()) + if rs.last().is_accept { 1nat } else { 0nat }
    }
}

pub open spec fn count_pub(rs: Seq<MatrixRow>) -> nat
    decreases rs.len(),
{
    if rs.len() == 0 {
        0
    } else {
        count_pub(rs.drop_last()) + if rs.last().is_pub { 1nat } else { 0nat }
    }
}

pub open spec fn count_ir_null(rs: Seq<MatrixRow>) -> nat
    decreases rs.len(),
{
    if rs.len() == 0 {
        0
    } else {
        count_ir_null(rs.drop_last()) + if texts(rs.last().notes@).contains("ir:null!"@) {
            1nat
        } else {
            0nat
        }
    }
}

/// The summary lines of the matrix.
pub struct MatrixSummary {
    pub total: usize,
    pub accept: usize,
    pub public: usize,
    pub ir: usize,
    pub legacy: usize,
    pub glue: usize,
    pub unknown: usize,
    /// Rows where a dictionary says null but the planner handles the name.
    pub yaml_null_but_ir: usize,
}

/// Count the rows by layer, accepted, public and dictionary-null-but-IR.
pub fn summarize(rows: &[MatrixRow]) -> (s: MatrixSummary)
    ensures
        s.total == rows@.len(),
        s.accept == count_accept(rows@),
        s.public == count_pub(rows@),
        s.ir == count_layer(rows@, Layer::IR),
        s.legacy == count_layer(rows@, Layer::Legacy),
        s.glue == count_layer(rows@, Layer::Glue),
        s.unknown == count_layer(rows@, Layer::Unknown),
        s.yaml_null_but_ir == count_ir_null(rows@),
{
    let mut s = MatrixSummary {
        total: rows.len(),
        accept: 0,
        public: 0,
        ir: 0,
        legacy: 0,
        glue: 0,
        unknown: 0,
        yaml_null_but_ir: 0,
    };
    let mut i: usize = 0;
    while i < rows.len()
        invariant
            i <= rows@.len(),
            s.total == rows@.len(),
            s.accept == count_accept(rows@.take(i as int)),
            s.public == count_pub(rows@.take(i as int)),
            s.ir == count_layer(rows@.take(i as int), Layer::IR),
            s.legacy == count_layer(rows@.take(i as int), Layer::Legacy),
            s.glue == count_layer(rows@.take(i as int), Layer::Glue),
            s.unknown == count_layer(rows@.take(i as int), Layer::Unknown),
            s.yaml_null_but_ir == count_ir_null(rows@.take(i as int)),
            s.accept <= i && s.public <= i && s.ir <= i && s.legacy <= i && s.glue <= i && s.unknown <= i
                && s.yaml_null_but_ir <= i,
        decreases rows@.len() - i,
    {
        let r = &rows[i];
        assert(rows@.take(i + 1).drop_last() =~= rows@.take(i as int));
        assert(rows@.take(i + 1).last() == rows@[i as int]);
        if r.is_accept {
            s.accept += 1;
        }
        if r.is_pub {
            s.public += 1;
        }
        match r.layer {
            Layer::IR => s.ir += 1,
            Layer::Glue => s.glue += 1,
            Layer::Legacy => s.legacy += 1,
            Layer::Unknown => s.unknown += 1,
        }
        if contains_text(r.notes.as_slice(), "ir:null!") {
            s.yaml_null_but_ir += 1;
        }
        i += 1;
    }
    assert(rows@.take(rows@.len() as int) =~= rows@);
    s
}

// ─── Candidates ─────────────────────────────────────────────────────────────

pub open spec fn distinct(s: Seq<Seq<char>>) -> bool {
    forall|i: int, j: int| 0 <= i < j < s.len() ==> s[i] != s[j]
}

/// Names the matrix considers: both sides of the normalizer's aliases, the
/// registered builtins, and the core symbols.
pub open spec fn is_candidate(n: Seq<char>, builtins: Seq<Seq<char>>) -> bool {
    alias_spellings().contains(n) || builtins.contains(n) || core_symbols().contains(n)
}

fn insert_unique(v: &mut Vec<String>, s: &str)
    requires
        distinct(texts(old(v)@)),
    ensures
        distinct(texts(final(v)@)),
        forall|n: Seq<char>| #[trigger] texts(final(v)@).contains(n) <==> (texts(old(v)@).contains(n) || n == s@),
{
    if !contains_text(v.as_slice(), s) {
        let ghost before = texts(v@);
        push_text(v, s);
        assert forall|n: Seq<char>| texts(v@).contains(n) <==> (before.contains(n) || n == s@) by {
            if n == s@ {
                assert(texts(v@)[before.len() as int] == s@);
            }
            if texts(v@).contains(n) {
                let i = choose|i: int| 0 <= i < texts(v@).len() && texts(v@)[i] == n;
                if i < before.len() {
                    assert(before[i] == n);
                }
            }
            if before.contains(n) {
                let i = choose|i: int| 0 <= i < before.len() && before[i] == n;
                assert(texts(v@)[i] == n);
            }
        }
    }
}

fn insert_all_strs(v: &mut Vec<String>, items: &Vec<&'static str>)
    requires
        distinct(texts(old(v)@)),
    ensures
        distinct(texts(final(v)@)),
        forall|n: Seq<char>|
            #[trigger] texts(final(v)@).contains(n) <==> (texts(old(v)@).contains(n) || strs(items@).contains(n)),
{
    let ghost start = texts(v@);
    let mut i: usize = 0;
    while i < items.len()
        invariant
            i <= items@.len(),
            distinct(texts(v@)),
            forall|n: Seq<char>|
                #[trigger] texts(v@).contains(n) <==> (start.contains(n) || strs(items@).take(i as int).contains(n)),
        decreases items@.len() - i,
    {
        let ghost prev = texts(v@);
        insert_unique(v, items[i]);
        proof {
            let t = strs(items@).take(i + 1);
            assert(t =~= strs(items@).take(i as int).push(items@[i as int]@));
            assert forall|n: Seq<char>| t.contains(n) <==> (strs(items@).take(i as int).contains(n) || n
                == items@[i as int]@) by {
                if n == items@[i as int]@ {
                    assert(t[i as int] == n);
                }
                if t.contains(n) {
                    let j = choose|j: int| 0 <= j < t.len() && t[j] == n;
                    if j < i {
                        assert(strs(items@).take(i as int)[j] == n);
                    }
                }
                if strs(items@).take(i as int).contains(n) {
                    let j = choose|j: int| 0 <= j < i && strs(items@).take(i as int)[j] == n;
                    assert(t[j] == n);
                }
            }
            assert forall|n: Seq<char>| texts(v@).contains(n) <==> (start.contains(n) || t.contains(n)) by {
                assert(texts(v@).contains(n) <==> (prev.contains(n) || n == items@[i as int]@));
                assert(prev.contains(n) <==> (start.contains(n) || strs(items@).take(i as int).contains(n)));
            }
        }
        i += 1;
    }
    assert(strs(items@).take(items@.len() as int) =~= strs(items@));
}

fn insert_all_strings(v: &mut Vec<String>, items: &[String])
    requires
        distinct(texts(old(v)@)),
    ensures
        distinct(texts(final(v)@)),
        forall|n: Seq<char>|
            #[trigger] texts(final(v)@).contains(n) <==> (texts(old(v)@).contains(n) || texts(items@).contains(n)),
{
    let ghost start = texts(v@);
    let mut i: usize = 0;
    while i < items.len()
        invariant
            i <= items@.len(),
            distinct(texts(v@)),
            forall|n: Seq<char>|
                #[trigger] texts(v@).contains(n) <==> (start.contains(n) || texts(items@).take(i as int).contains(n)),
        decreases items@.len() - i,
    {
        let ghost prev = texts(v@);
        insert_unique(v, items[i].as_str());
        proof {
            let t = texts(items@).take(i + 1);
            assert(t =~= texts(items@).take(i as int).push(items@[i as int]@));
            assert forall|n: Seq<char>| t.contains(n) <==> (texts(items@).take(i as int).contains(n) || n
                == items@[i as int]@) by {
                if n == items@[i as int]@ {
                    assert(t[i as int] == n);
                }
                if t.contains(n) {
                    let j = choose|j: int| 0 <= j < t.len() && t[j] == n;
                    if j < i {
                        assert(texts(items@).take(i as int)[j] == n);
                    }
                }
                if texts(items@).take(i as int).contains(n) {
                    let j = choose|j: int| 0 <= j < i && texts(items@).take(i as int)[j] == n;
                    assert(t[j] == n);
                }
            }
            assert forall|n: Seq<char>| texts(v@).contains(n) <==> (start.contains(n) || t.contains(n)) by {
                assert(texts(v@).contains(n) <==> (prev.contains(n) || n == items@[i as int]@));
                assert(prev.contains(n) <==> (start.contains(n) || texts(items@).take(i as int).contains(n)));
            }
        }
        i += 1;
    }
    assert(texts(items@).take(items@.len() as int) =~= texts(items@));
}

/// Every name the matrix considers, once each: both sides of the
/// normalizer's aliases, the given builtin names, and the core symbols.
pub fn collect_candidate_names(builtin_names: &[String]) -> (r: Vec<String>)
    ensures
        distinct(texts(r@)),
        forall|n: Seq<char>| #[trigger] texts(r@).contains(n) <==> is_candidate(n, texts(builtin_names@)),
{
    let mut names: Vec<String> = Vec::new();
    assert(texts(names@) =~= Seq::<Seq<char>>::empty());
    let aliases = alias_spelling_table();
    insert_all_strs(&mut names, &aliases);
    let ghost a = texts(names@);
    insert_all_strings(&mut names, builtin_names);
    let ghost b = texts(names@);
    let core = core_symbol_table();
    insert_all_strs(&mut names, &core);
    assert forall|n: Seq<char>| texts(names@).contains(n) <==> is_candidate(n, texts(builtin_names@)) by {
        assert(texts(names@).contains(n) <==> (b.contains(n) || core_symbols().contains(n)));
        assert(b.contains(n) <==> (a.contains(n) || texts(builtin_names@).contains(n)));
        assert(a.contains(n) <==> (Seq::<Seq<char>>::empty().contains(n) || alias_spellings().contains(n)));
    }
    names
}

// ─── Laws ───────────────────────────────────────────────────────────────────

/// A legacy spelling is flagged deprecated, and its row recommends the
/// canonical spelling the normalizer rewrites it to.
pub proof fn law_alias_rows_recommend_canon(
    r: MatrixRow,
    name: Seq<char>,
    probe: Option<ProbeIR>,
    is_builtin: bool,
    no_yaml: bool,
    cur: Seq<OpMapEntry>,
    plan: Seq<OpMapEntry>,
)
    requires
        row_of(r, name, probe, is_builtin, no_yaml, cur, plan),
        canonical_name(name) is Some,
    ensures
        texts(r.notes@).contains("dep"@),
        r.canon@ == canonical_name(name)->0,
        r.use_spelling@ == r.canon@,
{
    let cur_l = if no_yaml { None } else { yaml_lookup(name, cur, 0) };
    let plan_l = if no_yaml { None } else { yaml_lookup(name, plan, 0) };
    let probed = probe is Some;
    let n2 = yaml_notes(spec_layer(name, probed, is_builtin), cur_l, plan_l);
    let n3 = if !n2.contains("dep"@) { n2.push("dep"@) } else { n2 };
    assert(n3.contains("dep"@)) by {
        if !n2.contains("dep"@) {
            assert(n3[n2.len() as int] == "dep"@);
        }
    }
    let k = choose|k: int| 0 <= k < n3.len() && n3[k] == "dep"@;
    let notes = spec_notes(name, probed, is_builtin, cur_l, plan_l);
    assert(notes[k] == "dep"@);
}

/// Every name in a known layer (IR, glue, legacy) can be typed.
pub proof fn law_known_layers_accepted(
    r: MatrixRow,
    name: Seq<char>,
    probe: Option<ProbeIR>,
    is_builtin: bool,
    no_yaml: bool,
    cur: Seq<OpMapEntry>,
    plan: Seq<OpMapEntry>,
)
    requires
        row_of(r, name, probe, is_builtin, no_yaml, cur, plan),
        r.layer != Layer::Unknown,
    ensures
        r.is_accept,
{
}

} // verus!
