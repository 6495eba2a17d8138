use blisp::cli::{canonical_to_ir_name, parse_dic_options, parse_subcommand, DicArgError, Subcommand};
use blisp::dic_view::{OutputFormat, View};
use blisp::dic::{check_resolve, check_resolve_against, validate_op_map, validate_op_map_against, OpMapEntry};
use blisp::dic_view::ResolveStatus;
use blisp::ir::{is_pure_elementwise, NumericFunc};

fn entry(ir: Option<&str>, aliases: &[&str], legacy: &[&str]) -> OpMapEntry {
    OpMapEntry {
        ir: ir.map(|s| s.to_string()),
        aliases: aliases.iter().map(|s| s.to_string()).collect(),
        legacy_tokens: legacy.iter().map(|s| s.to_string()).collect(),
        bucket: String::new(),
        semantics: "x".to_string(),
        docs: String::new(),
        notes: String::new(),
    }
}

fn names(v: &[&str]) -> Vec<String> {
    v.iter().map(|s| s.to_string()).collect()
}

#[test]
fn validation_passes_on_consistent_entries() {
    let entries = vec![
        entry(Some("LOG"), &["log", "ln"], &["log-cols"]),
        entry(None, &["print"], &[]),
    ];
    assert_eq!(validate_op_map_against(&entries, &names(&["LOG", "EXP"])), Ok(()));
}

#[test]
fn validation_reports_every_problem_in_order() {
    let entries = vec![
        entry(Some("LOG"), &["log"], &["ln-old"]),
        entry(Some("NOPE"), &["log", "x"], &[]),
        entry(None, &["x"], &["ln-old"]),
    ];
    let errors = validate_op_map_against(&entries, &names(&["LOG"])).unwrap_err();
    assert_eq!(
        errors,
        vec![
            "\u{274c} Unknown IR op 'NOPE' (not present in src/ir.rs enums). This prevents invented canonical names."
                .to_string(),
            "Alias 'log' maps to both 'LOG' and 'NOPE'".to_string(),
            "Alias 'x' maps to both 'NOPE' and '<builtin>'".to_string(),
            "Legacy token 'ln-old' maps to both 'LOG' and '<builtin>'".to_string(),
        ]
    );
}

#[test]
fn ln_and_log_map_to_the_same_ir_name() {
    assert_eq!(canonical_to_ir_name("ln"), canonical_to_ir_name("log"));
    assert_eq!(canonical_to_ir_name("log"), Some("LOG"));
}

#[test]
fn canonical_names_map_to_ir_names() {
    assert_eq!(canonical_to_ir_name("dlog"), Some("SHF_PTW_OBS_NLN_DLOG"));
    assert_eq!(canonical_to_ir_name("w5"), Some("MSK_WKE"));
    assert_eq!(canonical_to_ir_name("ur"), Some("composite"));
    assert_eq!(canonical_to_ir_name("!="), Some("NEQ"));
    assert_eq!(canonical_to_ir_name("print"), None);
}

#[test]
fn subcommands_from_arguments() {
    assert_eq!(parse_subcommand(&names(&["blisp", "dic"])), Subcommand::Dic);
    assert_eq!(parse_subcommand(&names(&["blisp", "--selftest"])), Subcommand::Selftest);
    assert_eq!(parse_subcommand(&names(&["blisp", "verify"])), Subcommand::Verify);
    assert_eq!(parse_subcommand(&names(&["blisp", "x.lisp"])), Subcommand::Run);
    assert_eq!(parse_subcommand(&names(&["blisp"])), Subcommand::Run);
    assert_eq!(parse_subcommand(&names(&["blisp", "-e", "dic"])), Subcommand::Run);
}

#[test]
fn pure_elementwise_functions() {
    assert!(is_pure_elementwise(&NumericFunc::Abs));
    assert!(is_pure_elementwise(&NumericFunc::Sqrt));
    assert!(!is_pure_elementwise(&NumericFunc::Dlog));
    assert!(!is_pure_elementwise(&NumericFunc::Shift { k: 1 }));
}

#[test]
fn check_resolve_prefers_ir_names() {
    let ir = vec!["LOG".to_string(), "ADD".to_string()];
    match check_resolve_against("LOG", &ir, true) {
        ResolveStatus::IrOp(s) => assert_eq!(s, "LOG"),
        other => panic!("unexpected {:?}", other),
    }
    assert!(matches!(check_resolve_against("col", &ir, true), ResolveStatus::Builtin));
    assert!(matches!(check_resolve_against("col", &ir, false), ResolveStatus::Unknown));
}

fn argv(rest: &[&str]) -> Vec<String> {
    let mut v = vec!["blisp".to_string(), "dic".to_string()];
    v.extend(rest.iter().map(|s| s.to_string()));
    v
}

#[test]
fn dic_options_default_to_matrix_without_yaml() {
    let opts = parse_dic_options(&argv(&[])).unwrap();
    assert_eq!(opts.view, View::Matrix);
    assert_eq!(opts.format, OutputFormat::Table);
    assert!(opts.no_yaml);
    assert_eq!(opts.grep, None);
}

#[test]
fn dic_options_read_view_format_and_grep() {
    let opts = parse_dic_options(&argv(&["--legacy", "--json", "--grep", "dlog"])).unwrap();
    assert_eq!(opts.view, View::Legacy);
    assert_eq!(opts.format, OutputFormat::Json);
    assert_eq!(opts.grep, Some("dlog".to_string()));
    assert!(!opts.no_yaml);

    let opts = parse_dic_options(&argv(&["--json"])).unwrap();
    assert_eq!(opts.view, View::Matrix);
    assert_eq!(opts.format, OutputFormat::Json);

    let opts = parse_dic_options(&argv(&["--todo-ir", "--matrix"])).unwrap();
    assert_eq!(opts.view, View::Matrix);
    assert!(!opts.no_yaml);
}

#[test]
fn dic_options_refuse_bad_arguments() {
    assert_eq!(parse_dic_options(&argv(&["--grep"])), Err(DicArgError::MissingGrepPattern));
    assert_eq!(
        parse_dic_options(&argv(&["--exposed", "--bogus"])),
        Err(DicArgError::UnknownOption("--bogus".to_string()))
    );
}

#[test]
fn validation_against_the_irs_own_names() {
    assert_eq!(validate_op_map(&[entry(Some("LOG"), &["log"], &[]), entry(Some("SHF_PFX_LIN_SUM"), &["cs1"], &[])]), Ok(()));
    let errors = validate_op_map(&[entry(Some("INVENTED"), &["inv2"], &[])]).unwrap_err();
    assert_eq!(errors.len(), 1);
    assert!(errors[0].contains("Unknown IR op 'INVENTED'"));
}

#[test]
fn check_resolve_uses_ir_names_then_the_builtin_registry() {
    match check_resolve("ADD") {
        ResolveStatus::IrOp(s) => assert_eq!(s, "ADD"),
        other => panic!("unexpected {:?}", other),
    }
    assert!(matches!(check_resolve("col"), ResolveStatus::Builtin));
    assert!(matches!(check_resolve("no-such-op"), ResolveStatus::Unknown));
    assert_eq!(blisp::ir::ir_name_set().len(), 17);
}
