use blisp::dic::OpMapEntry;
use blisp::dic_rows::{
    exposed_aliases, legacy_tokens, resolution_check, todo_ir, todo_priority_counts, unmapped_ir,
};

fn entry(ir: Option<&str>, aliases: &[&str], legacy: &[&str], bucket: &str) -> OpMapEntry {
    OpMapEntry {
        ir: ir.map(|s| s.to_string()),
        aliases: strings(aliases),
        legacy_tokens: strings(legacy),
        bucket: bucket.to_string(),
        semantics: format!("{} semantics", bucket),
        docs: String::new(),
        notes: String::new(),
    }
}

fn strings(v: &[&str]) -> Vec<String> {
    v.iter().map(|s| s.to_string()).collect()
}

fn sample() -> Vec<OpMapEntry> {
    vec![
        entry(Some("LOG"), &["log", "ln"], &["log-col"], "B1"),
        entry(None, &["wstd"], &[], "A1 fusion"),
        entry(None, &[], &["old-sum", "cs1-x"], "A2 planner"),
        entry(Some("ADD"), &["+"], &["add-cols"], "B2"),
        entry(None, &["keepme"], &[], "C3"),
    ]
}

#[test]
fn dic_rows_exposed_sorted_by_alias() {
    let rows = exposed_aliases(&sample(), None);
    let aliases: Vec<&str> = rows.iter().map(|r| r.alias.as_str()).collect();
    assert_eq!(aliases, vec!["+", "keepme", "ln", "log", "wstd"]);
    assert_eq!(rows[0].ir, "ADD");
    assert_eq!(rows[0].legacy_tokens, "add-cols");
    assert_eq!(rows[1].ir, "<builtin>");
    assert_eq!(rows[2].legacy_tokens, "log-col");
    let filtered = exposed_aliases(&sample(), Some("LO"));
    let names: Vec<&str> = filtered.iter().map(|r| r.alias.as_str()).collect();
    assert_eq!(names, vec!["ln", "log"]);
}

#[test]
fn dic_rows_legacy_suggest_first_alias() {
    let rows = legacy_tokens(&sample(), None);
    let tokens: Vec<(&str, &str)> = rows.iter().map(|r| (r.token.as_str(), r.suggested.as_str())).collect();
    assert_eq!(
        tokens,
        vec![("add-cols", "+"), ("cs1-x", "-"), ("log-col", "log"), ("old-sum", "-")]
    );
    let filtered = legacy_tokens(&sample(), Some("sum"));
    assert_eq!(filtered.len(), 1);
    assert_eq!(filtered[0].token, "old-sum");
}

#[test]
fn dic_rows_todo_queue_by_bucket() {
    let rows = todo_ir(&sample(), None);
    let buckets: Vec<&str> = rows.iter().map(|r| r.bucket.as_str()).collect();
    assert_eq!(buckets, vec!["A1 fusion", "A2 planner"]);
    assert_eq!(rows[1].legacy_tokens, strings(&["old-sum", "cs1-x"]));
    assert_eq!(todo_priority_counts(&rows), (1, 1));
    let filtered = todo_ir(&sample(), Some("cs1"));
    assert_eq!(filtered.len(), 1);
    assert_eq!(filtered[0].bucket, "A2 planner");
}

#[test]
fn dic_rows_resolution_failures_first() {
    let ir_names = strings(&["LOG", "ADD", "log"]);
    let builtins = strings(&["+", "ln"]);
    let entries = vec![entry(Some("LOG"), &["log", "ln"], &["log-col"], "B1")];
    let (rows, unknown) = resolution_check(&entries, &ir_names, &builtins);
    let shown: Vec<(&str, &str)> = rows.iter().map(|r| (r.name.as_str(), r.status.as_str())).collect();
    assert_eq!(
        shown,
        vec![
            ("log-col", "FAIL(unknown) [legacy]"),
            ("ln", "OK(BUILTIN)"),
            ("log", "OK(IR: log)"),
        ]
    );
    assert_eq!(rows[0].expected, "LOG");
    assert_eq!(unknown, 1);
}

#[test]
fn dic_rows_unmapped_ir_sorted_unique() {
    let ir_names = strings(&["SQRT", "LOG", "ABS", "SQRT", "ADD"]);
    let unmapped = unmapped_ir(&sample(), &ir_names);
    assert_eq!(unmapped, strings(&["ABS", "SQRT"]));
}

#[test]
fn rows_that_tie_keep_their_order() {
    let entries = vec![
        entry(Some("SECOND"), &["x"], &[], "b"),
        entry(Some("FIRST"), &["a"], &[], "a"),
        entry(Some("THIRD"), &["x"], &[], "c"),
    ];
    let rows = exposed_aliases(&entries, None);
    let pairs: Vec<(&str, &str)> = rows.iter().map(|r| (r.alias.as_str(), r.ir.as_str())).collect();
    assert_eq!(pairs, vec![("a", "FIRST"), ("x", "SECOND"), ("x", "THIRD")]);
}
