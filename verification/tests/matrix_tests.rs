use blisp::dic::OpMapEntry;
use blisp::ir::{Node, NodeId, NumericFunc, Operation, Plan, SchemaInfo, Source, UnaryOp};
use blisp::matrix::{
    collect_candidate_names, find_in_yaml, format_ir_source, matrix_row, plan_fusable, probe_of_plan,
    sort_rows, summarize, Layer, MatrixRow, ProbeIR,
};

fn probe(variant: &str, fusable: bool) -> Option<ProbeIR> {
    Some(ProbeIR {
        ir_variant: variant.to_string(),
        node_count: 2,
        fusable,
    })
}

fn entry(ir: Option<&str>, aliases: &[&str], legacy: &[&str]) -> OpMapEntry {
    OpMapEntry {
        ir: ir.map(|s| s.to_string()),
        aliases: aliases.iter().map(|s| s.to_string()).collect(),
        legacy_tokens: legacy.iter().map(|s| s.to_string()).collect(),
        bucket: String::new(),
        semantics: String::new(),
        docs: String::new(),
        notes: String::new(),
    }
}

fn strings(v: &[&str]) -> Vec<String> {
    v.iter().map(|s| s.to_string()).collect()
}

#[test]
fn matrix_ln_is_deprecated_spelling_of_log() {
    let row = matrix_row("ln", probe("Log", true), false, true, &[], &[]);
    assert_eq!(row.normalize_to.as_deref(), Some("log"));
    assert_eq!(row.canon, "log");
    assert_eq!(row.use_spelling, "log");
    assert_eq!(row.notes, strings(&["dep"]));
    assert_eq!(row.layer, Layer::IR);
    assert!(row.is_accept);
    assert_eq!(row.accept_reasons, strings(&["normalize", "planner"]));
    assert_eq!(row.fusable, "elem");
    assert_eq!(row.ir_variant, "Log");
    assert!(!row.is_pub);
    assert_eq!(row.yaml_current, "-");
    assert_eq!(row.yaml_planned, "-");

    let log = matrix_row("log", probe("Log", true), false, true, &[], &[]);
    assert_eq!(log.canon, row.canon);
    assert_eq!(log.use_spelling, "-");
    assert!(log.notes.is_empty());
    assert!(log.is_pub);
}

#[test]
fn matrix_glue_wins_over_planner() {
    let row = matrix_row("let", probe("Source::Variable", false), false, true, &[], &[]);
    assert_eq!(row.layer, Layer::Glue);
    assert_eq!(row.layer.label(), "GLUE");
    assert_eq!(row.notes, strings(&["glue"]));
    assert_eq!(row.accept_reasons, strings(&["normalize", "planner", "glue"]));
    assert_eq!(row.fusable, "-");
    assert_eq!(row.canon, "let");
}

#[test]
fn matrix_alias_only_name() {
    let row = matrix_row("rolling-mean", None, false, true, &[], &[]);
    assert_eq!(row.layer, Layer::Unknown);
    assert_eq!(row.canon, "rol_avg");
    assert_eq!(row.notes, strings(&["dep", "alias-only"]));
    assert!(row.is_accept);
    assert!(row.is_pub);
    assert_eq!(row.ir_variant, "-");
}

#[test]
fn matrix_legacy_builtin() {
    let row = matrix_row("col", None, true, true, &[], &[]);
    assert_eq!(row.layer, Layer::Legacy);
    assert_eq!(row.accept_reasons, strings(&["builtin"]));
    assert!(row.notes.is_empty());
    let unknown = matrix_row("zzz", None, false, true, &[], &[]);
    assert_eq!(unknown.layer, Layer::Unknown);
    assert!(!unknown.is_accept);
    assert!(unknown.accept_reasons.is_empty());
}

#[test]
fn matrix_yaml_null_but_ir_noted_once() {
    let cur = vec![entry(None, &["foo"], &[])];
    let plan = vec![entry(None, &[], &["foo"])];
    let row = matrix_row("foo", probe("Abs", true), false, false, &cur, &plan);
    assert_eq!(row.yaml_current, "yes");
    assert_eq!(row.yaml_planned, "yes");
    assert_eq!(row.notes, strings(&["ir:null!"]));
    let summary = summarize(&[row]);
    assert_eq!(summary.yaml_null_but_ir, 1);
}

#[test]
fn matrix_yaml_legacy_token_is_deprecated() {
    let cur = vec![entry(Some("abs"), &["abs"], &["absolute"])];
    let row = matrix_row("absolute", None, true, false, &cur, &[]);
    assert_eq!(row.yaml_current, "yes");
    assert_eq!(row.yaml_planned, "-");
    assert_eq!(row.notes, strings(&["dep"]));
    // not an alias of the normalizer: recommends itself
    assert_eq!(row.use_spelling, "absolute");
    let ignored = matrix_row("absolute", None, true, true, &cur, &[]);
    assert_eq!(ignored.yaml_current, "-");
    assert!(ignored.notes.is_empty());
}

#[test]
fn matrix_find_in_yaml_first_entry_wins() {
    let entries = vec![
        entry(Some("a"), &["x"], &[]),
        entry(None, &["y"], &["x"]),
        entry(Some("c"), &[], &["y"]),
    ];
    assert_eq!(find_in_yaml("x", &entries), Some(("a".to_string(), false)));
    assert_eq!(find_in_yaml("y", &entries), Some(("null".to_string(), false)));
    assert_eq!(find_in_yaml("z", &entries), None);
}

#[test]
fn matrix_rows_sorted_by_layer_then_name() {
    let rows: Vec<MatrixRow> = vec![
        matrix_row("zzz", None, false, true, &[], &[]),
        matrix_row("sqrt", probe("Sqrt", true), false, true, &[], &[]),
        matrix_row("print", None, false, true, &[], &[]),
        matrix_row("abs", probe("Abs", true), false, true, &[], &[]),
        matrix_row("col", None, true, true, &[], &[]),
    ];
    let sorted = sort_rows(rows);
    let names: Vec<&str> = sorted.iter().map(|r| r.name.as_str()).collect();
    assert_eq!(names, vec!["abs", "sqrt", "print", "col", "zzz"]);
    let s = summarize(&sorted);
    assert_eq!(s.total, 5);
    assert_eq!(s.ir, 2);
    assert_eq!(s.glue, 1);
    assert_eq!(s.legacy, 1);
    assert_eq!(s.unknown, 1);
    assert_eq!(s.accept, 4);
    assert_eq!(s.public, 2);
}

#[test]
fn matrix_candidates_once_each() {
    let builtins = strings(&["col", "let", "dlog"]);
    let names = collect_candidate_names(&builtins);
    for n in ["dlog-cols", "dlog", "ln", "log", "col", "let", "progn", "stdin", "wzs", "rol_zsc"] {
        assert_eq!(names.iter().filter(|x| x.as_str() == n).count(), 1, "{}", n);
    }
    assert!(!names.iter().any(|x| x == "mapr"));
}

#[test]
fn matrix_plan_fusable_needs_pure_elementwise_map() {
    let mut plan = Plan::new();
    let src = plan.add_node(Node {
        id: NodeId(0),
        op: Operation::Source(Source::File {
            path: "x.csv".to_string(),
        }),
        schema: SchemaInfo::unknown(),
    });
    assert!(!plan_fusable(&plan));
    plan.add_node(Node {
        id: NodeId(1),
        op: Operation::Unary(UnaryOp::MapNumeric {
            input: src,
            func: NumericFunc::Dlog,
        }),
        schema: SchemaInfo::unknown(),
    });
    assert!(!plan_fusable(&plan));
    plan.add_node(Node {
        id: NodeId(2),
        op: Operation::Unary(UnaryOp::MapNumeric {
            input: NodeId(1),
            func: NumericFunc::Log,
        }),
        schema: SchemaInfo::unknown(),
    });
    assert!(plan_fusable(&plan));
}

#[test]
fn probe_of_plan_labels() {
    let mut plan = Plan::new();
    assert_eq!(format_ir_source(&plan), "-");
    plan.add_node(Node {
        id: NodeId(0),
        op: Operation::Source(Source::File { path: "x.csv".to_string() }),
        schema: SchemaInfo::unknown(),
    });
    assert_eq!(format_ir_source(&plan), "Source::File");
    let p = probe_of_plan(&plan, &[]);
    assert_eq!(p.ir_variant, "Source::File");
    assert_eq!(p.node_count, 1);
    assert!(!p.fusable);
    plan.add_node(Node {
        id: NodeId(1),
        op: Operation::Unary(UnaryOp::MapNumeric { input: NodeId(0), func: NumericFunc::Log }),
        schema: SchemaInfo::unknown(),
    });
    let p = probe_of_plan(&plan, &["Log".to_string()]);
    assert_eq!(p.ir_variant, "Log");
    assert!(p.fusable);
    let p = probe_of_plan(&plan, &["Log".to_string(), "Exp".to_string()]);
    assert_eq!(p.ir_variant, "composite(2 nodes)");
}

#[test]
fn matrix_rows_filter_then_sort() {
    let names: Vec<String> = ["zzz", "sqrt", "print", "abs", "col"].iter().map(|s| s.to_string()).collect();
    let probes = vec![None, probe("Sqrt", true), None, probe("Abs", true), None];
    let builtins = vec![false, false, false, false, true];
    let rows = blisp::matrix::matrix_rows(&names, None, &probes, &builtins, true, &[], &[]);
    let got: Vec<&str> = rows.iter().map(|r| r.name.as_str()).collect();
    assert_eq!(got, vec!["abs", "sqrt", "print", "col", "zzz"]);
    let kept = blisp::matrix::matrix_rows(&names, Some("s"), &probes, &builtins, true, &[], &[]);
    let got: Vec<&str> = kept.iter().map(|r| r.name.as_str()).collect();
    assert_eq!(got, vec!["abs", "sqrt"]);
    assert_eq!(kept[0].ir_variant, "Abs");
}
