//! Command-line helpers: choosing the subcommand, and the IR operation name
//! that each language operation maps to.

use vstd::prelude::*;
use crate::text::str_eq;
use crate::normalize::canonical_name;
use crate::ir::{BinaryFunc, binary_apply, binary_ir_name, ir_compare, spelling_arith, spelling_compare};
use crate::dic_view::OutputFormat;
use crate::dic_view::View as DicView;

verus! {

/// The program's subcommands.
#[derive(Debug, Clone, Copy, PartialEq, Eq, Structural)]
pub enum Subcommand {
    Run,
    Verify,
    Selftest,
    Dic,
}

/// The IR operation name of a canonical operation name (`composite` for
/// operations built from several IR operations).
pub open spec fn spec_canonical_to_ir_name(name: Seq<char>) -> Option<Seq<char>> {
    if name == "dlog"@ {
        Some("SHF_PTW_OBS_NLN_DLOG"@)
    } else if name == "dlog-ofs"@ {
        Some("SHF_PTW_OFS_NLN_DLOG"@)
    } else if name == "ret"@ {
        Some("RET"@)
    } else if name == "log"@ || name == "ln"@ {
        Some("LOG"@)
    } else if name == "exp"@ {
        Some("EXP"@)
    } else if name == "sqrt"@ {
        Some("SQRT"@)
    } else if name == "abs"@ {
        Some("ABS"@)
    } else if name == "inv"@ {
        Some("INV"@)
    } else if name == "locf"@ {
        Some("SHF_REC_NLN_LOCF"@)
    } else if name == "wkd"@ || name == "w5"@ {
        Some("MSK_WKE"@)
    } else if name == "run_sum"@ || name == "cs1"@ {
        Some("SHF_PFX_LIN_SUM"@)
    } else if name == "shift"@ {
        Some("SHF_PTW_LIN_SHF"@)
    } else if name == "lag-obs"@ || name == "shift-obs"@ {
        Some("LAG_OBS"@)
    } else if name == "keep"@ {
        Some("KEEP"@)
    } else if name == "rol_avg"@ || name == "rolling-mean"@ {
        Some("SHF_WIN_LIN_AVG"@)
    } else if name == "rol_std"@ || name == "rolling-std"@ {
        Some("SHF_WIN_NLN_SDV"@)
    } else if name == "rolling-mean-min2"@ {
        Some("SHF_WIN_MIN2_LIN_AVG"@)
    } else if name == "rolling-std-min2"@ {
        Some("SHF_WIN_MIN2_NLN_SDV"@)
    } else if name == "ft-mean"@ {
        Some("SHF_WIN_MIN2_LIN_AVG_EXCL"@)
    } else if name == "ft-std"@ {
        Some("SHF_WIN_MIN2_NLN_SDV_EXCL"@)
    } else if name == "rol_zsc"@ || name == "rolling-zscore"@ || name == "wzs"@ {
        Some("composite"@)
    } else if name == "ft-zscore"@ {
        Some("composite"@)
    } else if name == "rsk_adj"@ || name == "ur"@ {
        Some("composite"@)
    } else if name == "+"@ || name == "add"@ {
        Some("ADD"@)
    } else if name == "-"@ || name == "sub"@ {
        Some("SUB"@)
    } else if name == "*"@ || name == "mul"@ {
        Some("MUL"@)
    } else if name == "/"@ || name == "div"@ {
        Some("DIV"@)
    } else if name == ">"@ || name == "gt"@ {
        Some("GTR"@)
    } else if name == "<"@ || name == "lt"@ {
        Some("LSS"@)
    } else if name == ">="@ || name == "gte"@ {
        Some("GTE"@)
    } else if name == "<="@ || name == "lte"@ {
        Some("LTE"@)
    } else if name == "=="@ || name == "eq"@ {
        Some("EQL"@)
    } else if name == "!="@ || name == "neq"@ {
        Some("NEQ"@)
    } else {
        None
    }
}

/// An arithmetic spelling names the IR operation that computes what the
/// spelling computes: every spelling of integer arithmetic maps to an IR
/// binary function, and the one it maps to gives the spelling's result on
/// every pair of integers. Every spelling of a comparison maps to the IR
/// comparison that tests the same relation.
#[verifier::spinoff_prover]
#[verifier::rlimit(100)]
pub proof fn law_operator_names_map_to_their_operation(s: Seq<char>, f: BinaryFunc, a: int, b: int)
    ensures
        spelling_arith(s, a, b) is Some ==> exists|g: BinaryFunc|
            spec_canonical_to_ir_name(s) == Some(#[trigger] binary_ir_name(g)),
        spec_canonical_to_ir_name(s) == Some(binary_ir_name(f)) ==> spelling_arith(s, a, b) == Some(
            binary_apply(f, a, b),
        ),
        spelling_compare(s, a, b) is Some ==> (spec_canonical_to_ir_name(s) matches Some(n) && ir_compare(n, a, b)
            == spelling_compare(s, a, b)),
{
    reveal_strlit("!=");
    reveal_strlit("*");
    reveal_strlit("+");
    reveal_strlit("-");
    reveal_strlit("/");
    reveal_strlit("<");
    reveal_strlit("<=");
    reveal_strlit("==");
    reveal_strlit(">");
    reveal_strlit(">=");
    reveal_strlit("ABS");
    reveal_strlit("ADD");
    reveal_strlit("DIV");
    reveal_strlit("EQL");
    reveal_strlit("EXP");
    reveal_strlit("GTE");
    reveal_strlit("GTR");
    reveal_strlit("INV");
    reveal_strlit("KEEP");
    reveal_strlit("LAG_OBS");
    reveal_strlit("LOG");
    reveal_strlit("LSS");
    reveal_strlit("LTE");
    reveal_strlit("MSK_WKE");
    reveal_strlit("MUL");
    reveal_strlit("NEQ");
    reveal_strlit("RET");
    reveal_strlit("SHF_PFX_LIN_SUM");
    reveal_strlit("SHF_PTW_LIN_SHF");
    reveal_strlit("SHF_PTW_OBS_NLN_DLOG");
    reveal_strlit("SHF_PTW_OFS_NLN_DLOG");
    reveal_strlit("SHF_REC_NLN_LOCF");
    reveal_strlit("SHF_WIN_LIN_AVG");
    reveal_strlit("SHF_WIN_MIN2_LIN_AVG");
    reveal_strlit("SHF_WIN_MIN2_LIN_AVG_EXCL");
    reveal_strlit("SHF_WIN_MIN2_NLN_SDV");
    reveal_strlit("SHF_WIN_MIN2_NLN_SDV_EXCL");
    reveal_strlit("SHF_WIN_NLN_SDV");
    reveal_strlit("SQRT");
    reveal_strlit("SUB");
    reveal_strlit("abs");
    reveal_strlit("add");
    reveal_strlit("composite");
    reveal_strlit("cs1");
    reveal_strlit("div");
    reveal_strlit("dlog");
    reveal_strlit("dlog-ofs");
    reveal_strlit("eq");
    reveal_strlit("exp");
    reveal_strlit("ft-mean");
    reveal_strlit("ft-std");
    reveal_strlit("ft-zscore");
    reveal_strlit("gt");
    reveal_strlit("gte");
    reveal_strlit("inv");
    reveal_strlit("keep");
    reveal_strlit("lag-obs");
    reveal_strlit("ln");
    reveal_strlit("locf");
    reveal_strlit("log");
    reveal_strlit("lt");
    reveal_strlit("lte");
    reveal_strlit("mul");
    reveal_strlit("neq");
    reveal_strlit("ret");
    reveal_strlit("rol_avg");
    reveal_strlit("rol_std");
    reveal_strlit("rol_zsc");
    reveal_strlit("rolling-mean");
    reveal_strlit("rolling-mean-min2");
    reveal_strlit("rolling-std");
    reveal_strlit("rolling-std-min2");
    reveal_strlit("rolling-zscore");
    reveal_strlit("rsk_adj");
    reveal_strlit("run_sum");
    reveal_strlit("shift");
    reveal_strlit("shift-obs");
    reveal_strlit("sqrt");
    reveal_strlit("sub");
    reveal_strlit("ur");
    reveal_strlit("w5");
    reveal_strlit("wkd");
    reveal_strlit("wzs");
    reveal_strlit("ADD");
    reveal_strlit("SUB");
    reveal_strlit("MUL");
    reveal_strlit("DIV");
    assert("dlog"@.len() == 4 && "dlog"@[0] == 'd' && "dlog"@[1] == 'l' && "dlog"@[2] == 'o' && "dlog"@[3] == 'g');
    assert("SHF_PTW_OBS_NLN_DLOG"@.len() == 20 && "SHF_PTW_OBS_NLN_DLOG"@[0] == 'S' && "SHF_PTW_OBS_NLN_DLOG"@[1] == 'H' && "SHF_PTW_OBS_NLN_DLOG"@[2] == 'F' && "SHF_PTW_OBS_NLN_DLOG"@[3] == '_' && "SHF_PTW_OBS_NLN_DLOG"@[4] == 'P' && "SHF_PTW_OBS_NLN_DLOG"@[5] == 'T' && "SHF_PTW_OBS_NLN_DLOG"@[6] == 'W' && "SHF_PTW_OBS_NLN_DLOG"@[7] == '_' && "SHF_PTW_OBS_NLN_DLOG"@[8] == 'O' && "SHF_PTW_OBS_NLN_DLOG"@[9] == 'B' && "SHF_PTW_OBS_NLN_DLOG"@[10] == 'S' && "SHF_PTW_OBS_NLN_DLOG"@[11] == '_' && "SHF_PTW_OBS_NLN_DLOG"@[12] == 'N' && "SHF_PTW_OBS_NLN_DLOG"@[13] == 'L' && "SHF_PTW_OBS_NLN_DLOG"@[14] == 'N' && "SHF_PTW_OBS_NLN_DLOG"@[15] == '_' && "SHF_PTW_OBS_NLN_DLOG"@[16] == 'D' && "SHF_PTW_OBS_NLN_DLOG"@[17] == 'L' && "SHF_PTW_OBS_NLN_DLOG"@[18] == 'O' && "SHF_PTW_OBS_NLN_DLOG"@[19] == 'G');
    assert("dlog-ofs"@.len() == 8 && "dlog-ofs"@[0] == 'd' && "dlog-ofs"@[1] == 'l' && "dlog-ofs"@[2] == 'o' && "dlog-ofs"@[3] == 'g' && "dlog-ofs"@[4] == '-' && "dlog-ofs"@[5] == 'o' && "dlog-ofs"@[6] == 'f' && "dlog-ofs"@[7] == 's');
    assert("SHF_PTW_OFS_NLN_DLOG"@.len() == 20 && "SHF_PTW_OFS_NLN_DLOG"@[0] == 'S' && "SHF_PTW_OFS_NLN_DLOG"@[1] == 'H' && "SHF_PTW_OFS_NLN_DLOG"@[2] == 'F' && "SHF_PTW_OFS_NLN_DLOG"@[3] == '_' && "SHF_PTW_OFS_NLN_DLOG"@[4] == 'P' && "SHF_PTW_OFS_NLN_DLOG"@[5] == 'T' && "SHF_PTW_OFS_NLN_DLOG"@[6] == 'W' && "SHF_PTW_OFS_NLN_DLOG"@[7] == '_' && "SHF_PTW_OFS_NLN_DLOG"@[8] == 'O' && "SHF_PTW_OFS_NLN_DLOG"@[9] == 'F' && "SHF_PTW_OFS_NLN_DLOG"@[10] == 'S' && "SHF_PTW_OFS_NLN_DLOG"@[11] == '_' && "SHF_PTW_OFS_NLN_DLOG"@[12] == 'N' && "SHF_PTW_OFS_NLN_DLOG"@[13] == 'L' && "SHF_PTW_OFS_NLN_DLOG"@[14] == 'N' && "SHF_PTW_OFS_NLN_DLOG"@[15] == '_' && "SHF_PTW_OFS_NLN_DLOG"@[16] == 'D' && "SHF_PTW_OFS_NLN_DLOG"@[17] == 'L' && "SHF_PTW_OFS_NLN_DLOG"@[18] == 'O' && "SHF_PTW_OFS_NLN_DLOG"@[19] == 'G');
    assert("ret"@.len() == 3 && "ret"@[0] == 'r' && "ret"@[1] == 'e' && "ret"@[2] == 't');
    assert("RET"@.len() == 3 && "RET"@[0] == 'R' && "RET"@[1] == 'E' && "RET"@[2] == 'T');
    assert("log"@.len() == 3 && "log"@[0] == 'l' && "log"@[1] == 'o' && "log"@[2] == 'g');
    assert("ln"@.len() == 2 && "ln"@[0] == 'l' && "ln"@[1] == 'n');
    assert("LOG"@.len() == 3 && "LOG"@[0] == 'L' && "LOG"@[1] == 'O' && "LOG"@[2] == 'G');
    assert("exp"@.len() == 3 && "exp"@[0] == 'e' && "exp"@[1] == 'x' && "exp"@[2] == 'p');
    assert("EXP"@.len() == 3 && "EXP"@[0] == 'E' && "EXP"@[1] == 'X' && "EXP"@[2] == 'P');
    assert("sqrt"@.len() == 4 && "sqrt"@[0] == 's' && "sqrt"@[1] == 'q' && "sqrt"@[2] == 'r' && "sqrt"@[3] == 't');
    assert("SQRT"@.len() == 4 && "SQRT"@[0] == 'S' && "SQRT"@[1] == 'Q' && "SQRT"@[2] == 'R' && "SQRT"@[3] == 'T');
    assert("abs"@.len() == 3 && "abs"@[0] == 'a' && "abs"@[1] == 'b' && "abs"@[2] == 's');
    assert("ABS"@.len() == 3 && "ABS"@[0] == 'A' && "ABS"@[1] == 'B' && "ABS"@[2] == 'S');
    assert("inv"@.len() == 3 && "inv"@[0] == 'i' && "inv"@[1] == 'n' && "inv"@[2] == 'v');
    assert("INV"@.len() == 3 && "INV"@[0] == 'I' && "INV"@[1] == 'N' && "INV"@[2] == 'V');
    assert("locf"@.len() == 4 && "locf"@[0] == 'l' && "locf"@[1] == 'o' && "locf"@[2] == 'c' && "locf"@[3] == 'f');
    assert("SHF_REC_NLN_LOCF"@.len() == 16 && "SHF_REC_NLN_LOCF"@[0] == 'S' && "SHF_REC_NLN_LOCF"@[1] == 'H' && "SHF_REC_NLN_LOCF"@[2] == 'F' && "SHF_REC_NLN_LOCF"@[3] == '_' && "SHF_REC_NLN_LOCF"@[4] == 'R' && "SHF_REC_NLN_LOCF"@[5] == 'E' && "SHF_REC_NLN_LOCF"@[6] == 'C' && "SHF_REC_NLN_LOCF"@[7] == '_' && "SHF_REC_NLN_LOCF"@[8] == 'N' && "SHF_REC_NLN_LOCF"@[9] == 'L' && "SHF_REC_NLN_LOCF"@[10] == 'N' && "SHF_REC_NLN_LOCF"@[11] == '_' && "SHF_REC_NLN_LOCF"@[12] == 'L' && "SHF_REC_NLN_LOCF"@[13] == 'O' && "SHF_REC_NLN_LOCF"@[14] == 'C' && "SHF_REC_NLN_LOCF"@[15] == 'F');
    assert("wkd"@.len() == 3 && "wkd"@[0] == 'w' && "wkd"@[1] == 'k' && "wkd"@[2] == 'd');
    assert("w5"@.len() == 2 && "w5"@[0] == 'w' && "w5"@[1] == '5');
    assert("MSK_WKE"@.len() == 7 && "MSK_WKE"@[0] == 'M' && "MSK_WKE"@[1] == 'S' && "MSK_WKE"@[2] == 'K' && "MSK_WKE"@[3] == '_' && "MSK_WKE"@[4] == 'W' && "MSK_WKE"@[5] == 'K' && "MSK_WKE"@[6] == 'E');
    assert("run_sum"@.len() == 7 && "run_sum"@[0] == 'r' && "run_sum"@[1] == 'u' && "run_sum"@[2] == 'n' && "run_sum"@[3] == '_' && "run_sum"@[4] == 's' && "run_sum"@[5] == 'u' && "run_sum"@[6] == 'm');
    assert("cs1"@.len() == 3 && "cs1"@[0] == 'c' && "cs1"@[1] == 's' && "cs1"@[2] == '1');
    assert("SHF_PFX_LIN_SUM"@.len() == 15 && "SHF_PFX_LIN_SUM"@[0] == 'S' && "SHF_PFX_LIN_SUM"@[1] == 'H' && "SHF_PFX_LIN_SUM"@[2] == 'F' && "SHF_PFX_LIN_SUM"@[3] == '_' && "SHF_PFX_LIN_SUM"@[4] == 'P' && "SHF_PFX_LIN_SUM"@[5] == 'F' && "SHF_PFX_LIN_SUM"@[6] == 'X' && "SHF_PFX_LIN_SUM"@[7] == '_' && "SHF_PFX_LIN_SUM"@[8] == 'L' && "SHF_PFX_LIN_SUM"@[9] == 'I' && "SHF_PFX_LIN_SUM"@[10] == 'N' && "SHF_PFX_LIN_SUM"@[11] == '_' && "SHF_PFX_LIN_SUM"@[12] == 'S' && "SHF_PFX_LIN_SUM"@[13] == 'U' && "SHF_PFX_LIN_SUM"@[14] == 'M');
    assert("shift"@.len() == 5 && "shift"@[0] == 's' && "shift"@[1] == 'h' && "shift"@[2] == 'i' && "shift"@[3] == 'f' && "shift"@[4] == 't');
    assert("SHF_PTW_LIN_SHF"@.len() == 15 && "SHF_PTW_LIN_SHF"@[0] == 'S' && "SHF_PTW_LIN_SHF"@[1] == 'H' && "SHF_PTW_LIN_SHF"@[2] == 'F' && "SHF_PTW_LIN_SHF"@[3] == '_' && "SHF_PTW_LIN_SHF"@[4] == 'P' && "SHF_PTW_LIN_SHF"@[5] == 'T' && "SHF_PTW_LIN_SHF"@[6] == 'W' && "SHF_PTW_LIN_SHF"@[7] == '_' && "SHF_PTW_LIN_SHF"@[8] == 'L' && "SHF_PTW_LIN_SHF"@[9] == 'I' && "SHF_PTW_LIN_SHF"@[10] == 'N' && "SHF_PTW_LIN_SHF"@[11] == '_' && "SHF_PTW_LIN_SHF"@[12] == 'S' && "SHF_PTW_LIN_SHF"@[13] == 'H' && "SHF_PTW_LIN_SHF"@[14] == 'F');
    assert("lag-obs"@.len() == 7 && "lag-obs"@[0] == 'l' && "lag-obs"@[1] == 'a' && "lag-obs"@[2] == 'g' && "lag-obs"@[3] == '-' && "lag-obs"@[4] == 'o' && "lag-obs"@[5] == 'b' && "lag-obs"@[6] == 's');
    assert("shift-obs"@.len() == 9 && "shift-obs"@[0] == 's' && "shift-obs"@[1] == 'h' && "shift-obs"@[2] == 'i' && "shift-obs"@[3] == 'f' && "shift-obs"@[4] == 't' && "shift-obs"@[5] == '-' && "shift-obs"@[6] == 'o' && "shift-obs"@[7] == 'b' && "shift-obs"@[8] == 's');
    assert("LAG_OBS"@.len() == 7 && "LAG_OBS"@[0] == 'L' && "LAG_OBS"@[1] == 'A' && "LAG_OBS"@[2] == 'G' && "LAG_OBS"@[3] == '_' && "LAG_OBS"@[4] == 'O' && "LAG_OBS"@[5] == 'B' && "LAG_OBS"@[6] == 'S');
    assert("keep"@.len() == 4 && "keep"@[0] == 'k' && "keep"@[1] == 'e' && "keep"@[2] == 'e' && "keep"@[3] == 'p');
    assert("KEEP"@.len() == 4 && "KEEP"@[0] == 'K' && "KEEP"@[1] == 'E' && "KEEP"@[2] == 'E' && "KEEP"@[3] == 'P');
    assert("rol_avg"@.len() == 7 && "rol_avg"@[0] == 'r' && "rol_avg"@[1] == 'o' && "rol_avg"@[2] == 'l' && "rol_avg"@[3] == '_' && "rol_avg"@[4] == 'a' && "rol_avg"@[5] == 'v' && "rol_avg"@[6] == 'g');
    assert("rolling-mean"@.len() == 12 && "rolling-mean"@[0] == 'r' && "rolling-mean"@[1] == 'o' && "rolling-mean"@[2] == 'l' && "rolling-mean"@[3] == 'l' && "rolling-mean"@[4] == 'i' && "rolling-mean"@[5] == 'n' && "rolling-mean"@[6] == 'g' && "rolling-mean"@[7] == '-' && "rolling-mean"@[8] == 'm' && "rolling-mean"@[9] == 'e' && "rolling-mean"@[10] == 'a' && "rolling-mean"@[11] == 'n');
    assert("SHF_WIN_LIN_AVG"@.len() == 15 && "SHF_WIN_LIN_AVG"@[0] == 'S' && "SHF_WIN_LIN_AVG"@[1] == 'H' && "SHF_WIN_LIN_AVG"@[2] == 'F' && "SHF_WIN_LIN_AVG"@[3] == '_' && "SHF_WIN_LIN_AVG"@[4] == 'W' && "SHF_WIN_LIN_AVG"@[5] == 'I' && "SHF_WIN_LIN_AVG"@[6] == 'N' && "SHF_WIN_LIN_AVG"@[7] == '_' && "SHF_WIN_LIN_AVG"@[8] == 'L' && "SHF_WIN_LIN_AVG"@[9] == 'I' && "SHF_WIN_LIN_AVG"@[10] == 'N' && "SHF_WIN_LIN_AVG"@[11] == '_' && "SHF_WIN_LIN_AVG"@[12] == 'A' && "SHF_WIN_LIN_AVG"@[13] == 'V' && "SHF_WIN_LIN_AVG"@[14] == 'G');
    assert("rol_std"@.len() == 7 && "rol_std"@[0] == 'r' && "rol_std"@[1] == 'o' && "rol_std"@[2] == 'l' && "rol_std"@[3] == '_' && "rol_std"@[4] == 's' && "rol_std"@[5] == 't' && "rol_std"@[6] == 'd');
    assert("rolling-std"@.len() == 11 && "rolling-std"@[0] == 'r' && "rolling-std"@[1] == 'o' && "rolling-std"@[2] == 'l' && "rolling-std"@[3] == 'l' && "rolling-std"@[4] == 'i' && "rolling-std"@[5] == 'n' && "rolling-std"@[6] == 'g' && "rolling-std"@[7] == '-' && "rolling-std"@[8] == 's' && "rolling-std"@[9] == 't' && "rolling-std"@[10] == 'd');
    assert("SHF_WIN_NLN_SDV"@.len() == 15 && "SHF_WIN_NLN_SDV"@[0] == 'S' && "SHF_WIN_NLN_SDV"@[1] == 'H' && "SHF_WIN_NLN_SDV"@[2] == 'F' && "SHF_WIN_NLN_SDV"@[3] == '_' && "SHF_WIN_NLN_SDV"@[4] == 'W' && "SHF_WIN_NLN_SDV"@[5] == 'I' && "SHF_WIN_NLN_SDV"@[6] == 'N' && "SHF_WIN_NLN_SDV"@[7] == '_' && "SHF_WIN_NLN_SDV"@[8] == 'N' && "SHF_WIN_NLN_SDV"@[9] == 'L' && "SHF_WIN_NLN_SDV"@[10] == 'N' && "SHF_WIN_NLN_SDV"@[11] == '_' && "SHF_WIN_NLN_SDV"@[12] == 'S' && "SHF_WIN_NLN_SDV"@[13] == 'D' && "SHF_WIN_NLN_SDV"@[14] == 'V');
    assert("rolling-mean-min2"@.len() == 17 && "rolling-mean-min2"@[0] == 'r' && "rolling-mean-min2"@[1] == 'o' && "rolling-mean-min2"@[2] == 'l' && "rolling-mean-min2"@[3] == 'l' && "rolling-mean-min2"@[4] == 'i' && "rolling-mean-min2"@[5] == 'n' && "rolling-mean-min2"@[6] == 'g' && "rolling-mean-min2"@[7] == '-' && "rolling-mean-min2"@[8] == 'm' && "rolling-mean-min2"@[9] == 'e' && "rolling-mean-min2"@[10] == 'a' && "rolling-mean-min2"@[11] == 'n' && "rolling-mean-min2"@[12] == '-' && "rolling-mean-min2"@[13] == 'm' && "rolling-mean-min2"@[14] == 'i' && "rolling-mean-min2"@[15] == 'n' && "rolling-mean-min2"@[16] == '2');
    assert("SHF_WIN_MIN2_LIN_AVG"@.len() == 20 && "SHF_WIN_MIN2_LIN_AVG"@[0] == 'S' && "SHF_WIN_MIN2_LIN_AVG"@[1] == 'H' && "SHF_WIN_MIN2_LIN_AVG"@[2] == 'F' && "SHF_WIN_MIN2_LIN_AVG"@[3] == '_' && "SHF_WIN_MIN2_LIN_AVG"@[4] == 'W' && "SHF_WIN_MIN2_LIN_AVG"@[5] == 'I' && "SHF_WIN_MIN2_LIN_AVG"@[6] == 'N' && "SHF_WIN_MIN2_LIN_AVG"@[7] == '_' && "SHF_WIN_MIN2_LIN_AVG"@[8] == 'M' && "SHF_WIN_MIN2_LIN_AVG"@[9] == 'I' && "SHF_WIN_MIN2_LIN_AVG"@[10] == 'N' && "SHF_WIN_MIN2_LIN_AVG"@[11] == '2' && "SHF_WIN_MIN2_LIN_AVG"@[12] == '_' && "SHF_WIN_MIN2_LIN_AVG"@[13] == 'L' && "SHF_WIN_MIN2_LIN_AVG"@[14] == 'I' && "SHF_WIN_MIN2_LIN_AVG"@[15] == 'N' && "SHF_WIN_MIN2_LIN_AVG"@[16] == '_' && "SHF_WIN_MIN2_LIN_AVG"@[17] == 'A' && "SHF_WIN_MIN2_LIN_AVG"@[18] == 'V' && "SHF_WIN_MIN2_LIN_AVG"@[19] == 'G');
    assert("rolling-std-min2"@.len() == 16 && "rolling-std-min2"@[0] == 'r' && "rolling-std-min2"@[1] == 'o' && "rolling-std-min2"@[2] == 'l' && "rolling-std-min2"@[3] == 'l' && "rolling-std-min2"@[4] == 'i' && "rolling-std-min2"@[5] == 'n' && "rolling-std-min2"@[6] == 'g' && "rolling-std-min2"@[7] == '-' && "rolling-std-min2"@[8] == 's' && "rolling-std-min2"@[9] == 't' && "rolling-std-min2"@[10] == 'd' && "rolling-std-min2"@[11] == '-' && "rolling-std-min2"@[12] == 'm' && "rolling-std-min2"@[13] == 'i' && "rolling-std-min2"@[14] == 'n' && "rolling-std-min2"@[15] == '2');
    assert("SHF_WIN_MIN2_NLN_SDV"@.len() == 20 && "SHF_WIN_MIN2_NLN_SDV"@[0] == 'S' && "SHF_WIN_MIN2_NLN_SDV"@[1] == 'H' && "SHF_WIN_MIN2_NLN_SDV"@[2] == 'F' && "SHF_WIN_MIN2_NLN_SDV"@[3] == '_' && "SHF_WIN_MIN2_NLN_SDV"@[4] == 'W' && "SHF_WIN_MIN2_NLN_SDV"@[5] == 'I' && "SHF_WIN_MIN2_NLN_SDV"@[6] == 'N' && "SHF_WIN_MIN2_NLN_SDV"@[7] == '_' && "SHF_WIN_MIN2_NLN_SDV"@[8] == 'M' && "SHF_WIN_MIN2_NLN_SDV"@[9] == 'I' && "SHF_WIN_MIN2_NLN_SDV"@[10] == 'N' && "SHF_WIN_MIN2_NLN_SDV"@[11] == '2' && "SHF_WIN_MIN2_NLN_SDV"@[12] == '_' && "SHF_WIN_MIN2_NLN_SDV"@[13] == 'N' && "SHF_WIN_MIN2_NLN_SDV"@[14] == 'L' && "SHF_WIN_MIN2_NLN_SDV"@[15] == 'N' && "SHF_WIN_MIN2_NLN_SDV"@[16] == '_' && "SHF_WIN_MIN2_NLN_SDV"@[17] == 'S' && "SHF_WIN_MIN2_NLN_SDV"@[18] == 'D' && "SHF_WIN_MIN2_NLN_SDV"@[19] == 'V');
    assert("ft-mean"@.len() == 7 && "ft-mean"@[0] == 'f' && "ft-mean"@[1] == 't' && "ft-mean"@[2] == '-' && "ft-mean"@[3] == 'm' && "ft-mean"@[4] == 'e' && "ft-mean"@[5] == 'a' && "ft-mean"@[6] == 'n');
    assert("SHF_WIN_MIN2_LIN_AVG_EXCL"@.len() == 25 && "SHF_WIN_MIN2_LIN_AVG_EXCL"@[0] == 'S' && "SHF_WIN_MIN2_LIN_AVG_EXCL"@[1] == 'H' && "SHF_WIN_MIN2_LIN_AVG_EXCL"@[2] == 'F' && "SHF_WIN_MIN2_LIN_AVG_EXCL"@[3] == '_' && "SHF_WIN_MIN2_LIN_AVG_EXCL"@[4] == 'W' && "SHF_WIN_MIN2_LIN_AVG_EXCL"@[5] == 'I' && "SHF_WIN_MIN2_LIN_AVG_EXCL"@[6] == 'N' && "SHF_WIN_MIN2_LIN_AVG_EXCL"@[7] == '_' && "SHF_WIN_MIN2_LIN_AVG_EXCL"@[8] == 'M' && "SHF_WIN_MIN2_LIN_AVG_EXCL"@[9] == 'I' && "SHF_WIN_MIN2_LIN_AVG_EXCL"@[10] == 'N' && "SHF_WIN_MIN2_LIN_AVG_EXCL"@[11] == '2' && "SHF_WIN_MIN2_LIN_AVG_EXCL"@[12] == '_' && "SHF_WIN_MIN2_LIN_AVG_EXCL"@[13] == 'L' && "SHF_WIN_MIN2_LIN_AVG_EXCL"@[14] == 'I' && "SHF_WIN_MIN2_LIN_AVG_EXCL"@[15] == 'N' && "SHF_WIN_MIN2_LIN_AVG_EXCL"@[16] == '_' && "SHF_WIN_MIN2_LIN_AVG_EXCL"@[17] == 'A' && "SHF_WIN_MIN2_LIN_AVG_EXCL"@[18] == 'V' && "SHF_WIN_MIN2_LIN_AVG_EXCL"@[19] == 'G' && "SHF_WIN_MIN2_LIN_AVG_EXCL"@[20] == '_' && "SHF_WIN_MIN2_LIN_AVG_EXCL"@[21] == 'E' && "SHF_WIN_MIN2_LIN_AVG_EXCL"@[22] == 'X' && "SHF_WIN_MIN2_LIN_AVG_EXCL"@[23] == 'C' && "SHF_WIN_MIN2_LIN_AVG_EXCL"@[24] == 'L');
    assert("ft-std"@.len() == 6 && "ft-std"@[0] == 'f' && "ft-std"@[1] == 't' && "ft-std"@[2] == '-' && "ft-std"@[3] == 's' && "ft-std"@[4] == 't' && "ft-std"@[5] == 'd');
    assert("SHF_WIN_MIN2_NLN_SDV_EXCL"@.len() == 25 && "SHF_WIN_MIN2_NLN_SDV_EXCL"@[0] == 'S' && "SHF_WIN_MIN2_NLN_SDV_EXCL"@[1] == 'H' && "SHF_WIN_MIN2_NLN_SDV_EXCL"@[2] == 'F' && "SHF_WIN_MIN2_NLN_SDV_EXCL"@[3] == '_' && "SHF_WIN_MIN2_NLN_SDV_EXCL"@[4] == 'W' && "SHF_WIN_MIN2_NLN_SDV_EXCL"@[5] == 'I' && "SHF_WIN_MIN2_NLN_SDV_EXCL"@[6] == 'N' && "SHF_WIN_MIN2_NLN_SDV_EXCL"@[7] == '_' && "SHF_WIN_MIN2_NLN_SDV_EXCL"@[8] == 'M' && "SHF_WIN_MIN2_NLN_SDV_EXCL"@[9] == 'I' && "SHF_WIN_MIN2_NLN_SDV_EXCL"@[10] == 'N' && "SHF_WIN_MIN2_NLN_SDV_EXCL"@[11] == '2' && "SHF_WIN_MIN2_NLN_SDV_EXCL"@[12] == '_' && "SHF_WIN_MIN2_NLN_SDV_EXCL"@[13] == 'N' && "SHF_WIN_MIN2_NLN_SDV_EXCL"@[14] == 'L' && "SHF_WIN_MIN2_NLN_SDV_EXCL"@[15] == 'N' && "SHF_WIN_MIN2_NLN_SDV_EXCL"@[16] == '_' && "SHF_WIN_MIN2_NLN_SDV_EXCL"@[17] == 'S' && "SHF_WIN_MIN2_NLN_SDV_EXCL"@[18] == 'D' && "SHF_WIN_MIN2_NLN_SDV_EXCL"@[19] == 'V' && "SHF_WIN_MIN2_NLN_SDV_EXCL"@[20] == '_' && "SHF_WIN_MIN2_NLN_SDV_EXCL"@[21] == 'E' && "SHF_WIN_MIN2_NLN_SDV_EXCL"@[22] == 'X' && "SHF_WIN_MIN2_NLN_SDV_EXCL"@[23] == 'C' && "SHF_WIN_MIN2_NLN_SDV_EXCL"@[24] == 'L');
    assert("rol_zsc"@.len() == 7 && "rol_zsc"@[0] == 'r' && "rol_zsc"@[1] == 'o' && "rol_zsc"@[2] == 'l' && "rol_zsc"@[3] == '_' && "rol_zsc"@[4] == 'z' && "rol_zsc"@[5] == 's' && "rol_zsc"@[6] == 'c');
    assert("rolling-zscore"@.len() == 14 && "rolling-zscore"@[0] == 'r' && "rolling-zscore"@[1] == 'o' && "rolling-zscore"@[2] == 'l' && "rolling-zscore"@[3] == 'l' && "rolling-zscore"@[4] == 'i' && "rolling-zscore"@[5] == 'n' && "rolling-zscore"@[6] == 'g' && "rolling-zscore"@[7] == '-' && "rolling-zscore"@[8] == 'z' && "rolling-zscore"@[9] == 's' && "rolling-zscore"@[10] == 'c' && "rolling-zscore"@[11] == 'o' && "rolling-zscore"@[12] == 'r' && "rolling-zscore"@[13] == 'e');
    assert("wzs"@.len() == 3 && "wzs"@[0] == 'w' && "wzs"@[1] == 'z' && "wzs"@[2] == 's');
    assert("composite"@.len() == 9 && "composite"@[0] == 'c' && "composite"@[1] == 'o' && "composite"@[2] == 'm' && "composite"@[3] == 'p' && "composite"@[4] == 'o' && "composite"@[5] == 's' && "composite"@[6] == 'i' && "composite"@[7] == 't' && "composite"@[8] == 'e');
    assert("ft-zscore"@.len() == 9 && "ft-zscore"@[0] == 'f' && "ft-zscore"@[1] == 't' && "ft-zscore"@[2] == '-' && "ft-zscore"@[3] == 'z' && "ft-zscore"@[4] == 's' && "ft-zscore"@[5] == 'c' && "ft-zscore"@[6] == 'o' && "ft-zscore"@[7] == 'r' && "ft-zscore"@[8] == 'e');
    assert("rsk_adj"@.len() == 7 && "rsk_adj"@[0] == 'r' && "rsk_adj"@[1] == 's' && "rsk_adj"@[2] == 'k' && "rsk_adj"@[3] == '_' && "rsk_adj"@[4] == 'a' && "rsk_adj"@[5] == 'd' && "rsk_adj"@[6] == 'j');
    assert("ur"@.len() == 2 && "ur"@[0] == 'u' && "ur"@[1] == 'r');
    assert("+"@.len() == 1 && "+"@[0] == '+');
    assert("add"@.len() == 3 && "add"@[0] == 'a' && "add"@[1] == 'd' && "add"@[2] == 'd');
    assert("ADD"@.len() == 3 && "ADD"@[0] == 'A' && "ADD"@[1] == 'D' && "ADD"@[2] == 'D');
    assert("-"@.len() == 1 && "-"@[0] == '-');
    assert("sub"@.len() == 3 && "sub"@[0] == 's' && "sub"@[1] == 'u' && "sub"@[2] == 'b');
    assert("SUB"@.len() == 3 && "SUB"@[0] == 'S' && "SUB"@[1] == 'U' && "SUB"@[2] == 'B');
    assert("*"@.len() == 1 && "*"@[0] == '*');
    assert("mul"@.len() == 3 && "mul"@[0] == 'm' && "mul"@[1] == 'u' && "mul"@[2] == 'l');
    assert("MUL"@.len() == 3 && "MUL"@[0] == 'M' && "MUL"@[1] == 'U' && "MUL"@[2] == 'L');
    assert("/"@.len() == 1 && "/"@[0] == '/');
    assert("div"@.len() == 3 && "div"@[0] == 'd' && "div"@[1] == 'i' && "div"@[2] == 'v');
    assert("DIV"@.len() == 3 && "DIV"@[0] == 'D' && "DIV"@[1] == 'I' && "DIV"@[2] == 'V');
    assert(">"@.len() == 1 && ">"@[0] == '>');
    assert("gt"@.len() == 2 && "gt"@[0] == 'g' && "gt"@[1] == 't');
    assert("GTR"@.len() == 3 && "GTR"@[0] == 'G' && "GTR"@[1] == 'T' && "GTR"@[2] == 'R');
    assert("<"@.len() == 1 && "<"@[0] == '<');
    assert("lt"@.len() == 2 && "lt"@[0] == 'l' && "lt"@[1] == 't');
    assert("LSS"@.len() == 3 && "LSS"@[0] == 'L' && "LSS"@[1] == 'S' && "LSS"@[2] == 'S');
    assert(">="@.len() == 2 && ">="@[0] == '>' && ">="@[1] == '=');
    assert("gte"@.len() == 3 && "gte"@[0] == 'g' && "gte"@[1] == 't' && "gte"@[2] == 'e');
    assert("GTE"@.len() == 3 && "GTE"@[0] == 'G' && "GTE"@[1] == 'T' && "GTE"@[2] == 'E');
    assert("<="@.len() == 2 && "<="@[0] == '<' && "<="@[1] == '=');
    assert("lte"@.len() == 3 && "lte"@[0] == 'l' && "lte"@[1] == 't' && "lte"@[2] == 'e');
    assert("LTE"@.len() == 3 && "LTE"@[0] == 'L' && "LTE"@[1] == 'T' && "LTE"@[2] == 'E');
    assert("=="@.len() == 2 && "=="@[0] == '=' && "=="@[1] == '=');
    assert("eq"@.len() == 2 && "eq"@[0] == 'e' && "eq"@[1] == 'q');
    assert("EQL"@.len() == 3 && "EQL"@[0] == 'E' && "EQL"@[1] == 'Q' && "EQL"@[2] == 'L');
    assert("!="@.len() == 2 && "!="@[0] == '!' && "!="@[1] == '=');
    assert("neq"@.len() == 3 && "neq"@[0] == 'n' && "neq"@[1] == 'e' && "neq"@[2] == 'q');
    assert("NEQ"@.len() == 3 && "NEQ"@[0] == 'N' && "NEQ"@[1] == 'E' && "NEQ"@[2] == 'Q');
    assert(spec_canonical_to_ir_name("-"@) == Some("SUB"@));
    assert(spec_canonical_to_ir_name("+"@) == Some("ADD"@));
    assert(spec_canonical_to_ir_name("add"@) == Some("ADD"@));
    assert(spec_canonical_to_ir_name("sub"@) == Some("SUB"@));
    assert(spec_canonical_to_ir_name("*"@) == Some("MUL"@));
    assert(spec_canonical_to_ir_name("mul"@) == Some("MUL"@));
    assert(spec_canonical_to_ir_name("/"@) == Some("DIV"@));
    assert(spec_canonical_to_ir_name("div"@) == Some("DIV"@));
    if s == "+"@ || s == "add"@ {
        assert(spec_canonical_to_ir_name(s) == Some(binary_ir_name(BinaryFunc::Add)));
    } else if s == "-"@ || s == "sub"@ {
        assert(spec_canonical_to_ir_name(s) == Some(binary_ir_name(BinaryFunc::Sub)));
    } else if s == "*"@ || s == "mul"@ {
        assert(spec_canonical_to_ir_name(s) == Some(binary_ir_name(BinaryFunc::Mul)));
    } else if s == "/"@ || s == "div"@ {
        assert(spec_canonical_to_ir_name(s) == Some(binary_ir_name(BinaryFunc::Div)));
    }
}

/// Rewriting a legacy spelling to its canonical name never changes the IR
/// operation it names: wherever the legacy spelling names an IR operation,
/// its canonical name names the same one.
#[verifier::spinoff_prover]
#[verifier::rlimit(100)]
pub proof fn law_alias_keeps_ir_operation(w: Seq<char>)
    ensures
        canonical_name(w) matches Some(c) ==> (spec_canonical_to_ir_name(w) is Some ==> spec_canonical_to_ir_name(c)
            == spec_canonical_to_ir_name(w)),
{
    reveal_strlit("dlog-cols");
    reveal_strlit("dlog");
    reveal_strlit("dlog-col");
    reveal_strlit("rolling-mean");
    reveal_strlit("rol_avg");
    reveal_strlit("rolling-std");
    reveal_strlit("rol_std");
    reveal_strlit("rolling-zscore");
    reveal_strlit("rol_zsc");
    reveal_strlit("wzs");
    reveal_strlit("cs1");
    reveal_strlit("run_sum");
    reveal_strlit("ur");
    reveal_strlit("rsk_adj");
    reveal_strlit("cs1-cols");
    reveal_strlit("cs1-col");
    reveal_strlit("ur-cols");
    reveal_strlit("ur-col");
    reveal_strlit("rolling-mean-cols");
    reveal_strlit("rolling-std-cols");
    reveal_strlit("rolling-zscore-cols");
    reveal_strlit("rol_avg_cols");
    reveal_strlit("rol_std_cols");
    reveal_strlit("rol_zsc_cols");
    reveal_strlit("run_sum_cols");
    reveal_strlit("rsk_adj_cols");
    reveal_strlit("shift-cols");
    reveal_strlit("shift");
    reveal_strlit("shift-col");
    reveal_strlit(">-cols");
    reveal_strlit(">");
    reveal_strlit(">-col");
    reveal_strlit("locf-cols");
    reveal_strlit("locf");
    reveal_strlit("diff-cols");
    reveal_strlit("diff");
    reveal_strlit("diff-col");
    reveal_strlit("ecs1-cols");
    reveal_strlit("ecs1");
    reveal_strlit("ecs1-col");
    reveal_strlit("x-");
    reveal_strlit("xminus");
    reveal_strlit("w5");
    reveal_strlit("wkd");
    reveal_strlit("let*");
    reveal_strlit("let");
    reveal_strlit("add");
    reveal_strlit("+");
    reveal_strlit("sub");
    reveal_strlit("-");
    reveal_strlit("mul");
    reveal_strlit("*");
    reveal_strlit("div");
    reveal_strlit("/");
    reveal_strlit("eq");
    reveal_strlit("==");
    reveal_strlit("neq");
    reveal_strlit("!=");
    reveal_strlit("gt");
    reveal_strlit("gte");
    reveal_strlit(">=");
    reveal_strlit("lt");
    reveal_strlit("<");
    reveal_strlit("lte");
    reveal_strlit("<=");
    reveal_strlit("ln");
    reveal_strlit("log");
    reveal_strlit("SHF_PTW_OBS_NLN_DLOG");
    reveal_strlit("dlog-ofs");
    reveal_strlit("SHF_PTW_OFS_NLN_DLOG");
    reveal_strlit("ret");
    reveal_strlit("RET");
    reveal_strlit("LOG");
    reveal_strlit("exp");
    reveal_strlit("EXP");
    reveal_strlit("sqrt");
    reveal_strlit("SQRT");
    reveal_strlit("abs");
    reveal_strlit("ABS");
    reveal_strlit("inv");
    reveal_strlit("INV");
    reveal_strlit("SHF_REC_NLN_LOCF");
    reveal_strlit("MSK_WKE");
    reveal_strlit("SHF_PFX_LIN_SUM");
    reveal_strlit("SHF_PTW_LIN_SHF");
    reveal_strlit("lag-obs");
    reveal_strlit("shift-obs");
    reveal_strlit("LAG_OBS");
    reveal_strlit("keep");
    reveal_strlit("KEEP");
    reveal_strlit("SHF_WIN_LIN_AVG");
    reveal_strlit("SHF_WIN_NLN_SDV");
    reveal_strlit("rolling-mean-min2");
    reveal_strlit("SHF_WIN_MIN2_LIN_AVG");
    reveal_strlit("rolling-std-min2");
    reveal_strlit("SHF_WIN_MIN2_NLN_SDV");
    reveal_strlit("ft-mean");
    reveal_strlit("SHF_WIN_MIN2_LIN_AVG_EXCL");
    reveal_strlit("ft-std");
    reveal_strlit("SHF_WIN_MIN2_NLN_SDV_EXCL");
    reveal_strlit("composite");
    reveal_strlit("ft-zscore");
    reveal_strlit("ADD");
    reveal_strlit("SUB");
    reveal_strlit("MUL");
    reveal_strlit("DIV");
    reveal_strlit("GTR");
    reveal_strlit("LSS");
    reveal_strlit("GTE");
    reveal_strlit("LTE");
    reveal_strlit("EQL");
    reveal_strlit("NEQ");
    assert("dlog-cols"@.len() == 9 && "dlog-cols"@[0] == 'd' && "dlog-cols"@[1] == 'l' && "dlog-cols"@[2] == 'o' && "dlog-cols"@[3] == 'g' && "dlog-cols"@[4] == '-' && "dlog-cols"@[5] == 'c' && "dlog-cols"@[6] == 'o' && "dlog-cols"@[7] == 'l' && "dlog-cols"@[8] == 's');
    assert("dlog"@.len() == 4 && "dlog"@[0] == 'd' && "dlog"@[1] == 'l' && "dlog"@[2] == 'o' && "dlog"@[3] == 'g');
    assert("dlog-col"@.len() == 8 && "dlog-col"@[0] == 'd' && "dlog-col"@[1] == 'l' && "dlog-col"@[2] == 'o' && "dlog-col"@[3] == 'g' && "dlog-col"@[4] == '-' && "dlog-col"@[5] == 'c' && "dlog-col"@[6] == 'o' && "dlog-col"@[7] == 'l');
    assert("rolling-mean"@.len() == 12 && "rolling-mean"@[0] == 'r' && "rolling-mean"@[1] == 'o' && "rolling-mean"@[2] == 'l' && "rolling-mean"@[3] == 'l' && "rolling-mean"@[4] == 'i' && "rolling-mean"@[5] == 'n' && "rolling-mean"@[6] == 'g' && "rolling-mean"@[7] == '-' && "rolling-mean"@[8] == 'm' && "rolling-mean"@[9] == 'e' && "rolling-mean"@[10] == 'a' && "rolling-mean"@[11] == 'n');
    assert("rol_avg"@.len() == 7 && "rol_avg"@[0] == 'r' && "rol_avg"@[1] == 'o' && "rol_avg"@[2] == 'l' && "rol_avg"@[3] == '_' && "rol_avg"@[4] == 'a' && "rol_avg"@[5] == 'v' && "rol_avg"@[6] == 'g');
    assert("rolling-std"@.len() == 11 && "rolling-std"@[0] == 'r' && "rolling-std"@[1] == 'o' && "rolling-std"@[2] == 'l' && "rolling-std"@[3] == 'l' && "rolling-std"@[4] == 'i' && "rolling-std"@[5] == 'n' && "rolling-std"@[6] == 'g' && "rolling-std"@[7] == '-' && "rolling-std"@[8] == 's' && "rolling-std"@[9] == 't' && "rolling-std"@[10] == 'd');
    assert("rol_std"@.len() == 7 && "rol_std"@[0] == 'r' && "rol_std"@[1] == 'o' && "rol_std"@[2] == 'l' && "rol_std"@[3] == '_' && "rol_std"@[4] == 's' && "rol_std"@[5] == 't' && "rol_std"@[6] == 'd');
    assert("rolling-zscore"@.len() == 14 && "rolling-zscore"@[0] == 'r' && "rolling-zscore"@[1] == 'o' && "rolling-zscore"@[2] == 'l' && "rolling-zscore"@[3] == 'l' && "rolling-zscore"@[4] == 'i' && "rolling-zscore"@[5] == 'n' && "rolling-zscore"@[6] == 'g' && "rolling-zscore"@[7] == '-' && "rolling-zscore"@[8] == 'z' && "rolling-zscore"@[9] == 's' && "rolling-zscore"@[10] == 'c' && "rolling-zscore"@[11] == 'o' && "rolling-zscore"@[12] == 'r' && "rolling-zscore"@[13] == 'e');
    assert("rol_zsc"@.len() == 7 && "rol_zsc"@[0] == 'r' && "rol_zsc"@[1] == 'o' && "rol_zsc"@[2] == 'l' && "rol_zsc"@[3] == '_' && "rol_zsc"@[4] == 'z' && "rol_zsc"@[5] == 's' && "rol_zsc"@[6] == 'c');
    assert("wzs"@.len() == 3 && "wzs"@[0] == 'w' && "wzs"@[1] == 'z' && "wzs"@[2] == 's');
    assert("cs1"@.len() == 3 && "cs1"@[0] == 'c' && "cs1"@[1] == 's' && "cs1"@[2] == '1');
    assert("run_sum"@.len() == 7 && "run_sum"@[0] == 'r' && "run_sum"@[1] == 'u' && "run_sum"@[2] == 'n' && "run_sum"@[3] == '_' && "run_sum"@[4] == 's' && "run_sum"@[5] == 'u' && "run_sum"@[6] == 'm');
    assert("ur"@.len() == 2 && "ur"@[0] == 'u' && "ur"@[1] == 'r');
    assert("rsk_adj"@.len() == 7 && "rsk_adj"@[0] == 'r' && "rsk_adj"@[1] == 's' && "rsk_adj"@[2] == 'k' && "rsk_adj"@[3] == '_' && "rsk_adj"@[4] == 'a' && "rsk_adj"@[5] == 'd' && "rsk_adj"@[6] == 'j');
    assert("cs1-cols"@.len() == 8 && "cs1-cols"@[0] == 'c' && "cs1-cols"@[1] == 's' && "cs1-cols"@[2] == '1' && "cs1-cols"@[3] == '-' && "cs1-cols"@[4] == 'c' && "cs1-cols"@[5] == 'o' && "cs1-cols"@[6] == 'l' && "cs1-cols"@[7] == 's');
    assert("cs1-col"@.len() == 7 && "cs1-col"@[0] == 'c' && "cs1-col"@[1] == 's' && "cs1-col"@[2] == '1' && "cs1-col"@[3] == '-' && "cs1-col"@[4] == 'c' && "cs1-col"@[5] == 'o' && "cs1-col"@[6] == 'l');
    assert("ur-cols"@.len() == 7 && "ur-cols"@[0] == 'u' && "ur-cols"@[1] == 'r' && "ur-cols"@[2] == '-' && "ur-cols"@[3] == 'c' && "ur-cols"@[4] == 'o' && "ur-cols"@[5] == 'l' && "ur-cols"@[6] == 's');
    assert("ur-col"@.len() == 6 && "ur-col"@[0] == 'u' && "ur-col"@[1] == 'r' && "ur-col"@[2] == '-' && "ur-col"@[3] == 'c' && "ur-col"@[4] == 'o' && "ur-col"@[5] == 'l');
    assert("rolling-mean-cols"@.len() == 17 && "rolling-mean-cols"@[0] == 'r' && "rolling-mean-cols"@[1] == 'o' && "rolling-mean-cols"@[2] == 'l' && "rolling-mean-cols"@[3] == 'l' && "rolling-mean-cols"@[4] == 'i' && "rolling-mean-cols"@[5] == 'n' && "rolling-mean-cols"@[6] == 'g' && "rolling-mean-cols"@[7] == '-' && "rolling-mean-cols"@[8] == 'm' && "rolling-mean-cols"@[9] == 'e' && "rolling-mean-cols"@[10] == 'a' && "rolling-mean-cols"@[11] == 'n' && "rolling-mean-cols"@[12] == '-' && "rolling-mean-cols"@[13] == 'c' && "rolling-mean-cols"@[14] == 'o' && "rolling-mean-cols"@[15] == 'l' && "rolling-mean-cols"@[16] == 's');
    assert("rolling-std-cols"@.len() == 16 && "rolling-std-cols"@[0] == 'r' && "rolling-std-cols"@[1] == 'o' && "rolling-std-cols"@[2] == 'l' && "rolling-std-cols"@[3] == 'l' && "rolling-std-cols"@[4] == 'i' && "rolling-std-cols"@[5] == 'n' && "rolling-std-cols"@[6] == 'g' && "rolling-std-cols"@[7] == '-' && "rolling-std-cols"@[8] == 's' && "rolling-std-cols"@[9] == 't' && "rolling-std-cols"@[10] == 'd' && "rolling-std-cols"@[11] == '-' && "rolling-std-cols"@[12] == 'c' && "rolling-std-cols"@[13] == 'o' && "rolling-std-cols"@[14] == 'l' && "rolling-std-cols"@[15] == 's');
    assert("rolling-zscore-cols"@.len() == 19 && "rolling-zscore-cols"@[0] == 'r' && "rolling-zscore-cols"@[1] == 'o' && "rolling-zscore-cols"@[2] == 'l' && "rolling-zscore-cols"@[3] == 'l' && "rolling-zscore-cols"@[4] == 'i' && "rolling-zscore-cols"@[5] == 'n' && "rolling-zscore-cols"@[6] == 'g' && "rolling-zscore-cols"@[7] == '-' && "rolling-zscore-cols"@[8] == 'z' && "rolling-zscore-cols"@[9] == 's' && "rolling-zscore-cols"@[10] == 'c' && "rolling-zscore-cols"@[11] == 'o' && "rolling-zscore-cols"@[12] == 'r' && "rolling-zscore-cols"@[13] == 'e' && "rolling-zscore-cols"@[14] == '-' && "rolling-zscore-cols"@[15] == 'c' && "rolling-zscore-cols"@[16] == 'o' && "rolling-zscore-cols"@[17] == 'l' && "rolling-zscore-cols"@[18] == 's');
    assert("rol_avg_cols"@.len() == 12 && "rol_avg_cols"@[0] == 'r' && "rol_avg_cols"@[1] == 'o' && "rol_avg_cols"@[2] == 'l' && "rol_avg_cols"@[3] == '_' && "rol_avg_cols"@[4] == 'a' && "rol_avg_cols"@[5] == 'v' && "rol_avg_cols"@[6] == 'g' && "rol_avg_cols"@[7] == '_' && "rol_avg_cols"@[8] == 'c' && "rol_avg_cols"@[9] == 'o' && "rol_avg_cols"@[10] == 'l' && "rol_avg_cols"@[11] == 's');
    assert("rol_std_cols"@.len() == 12 && "rol_std_cols"@[0] == 'r' && "rol_std_cols"@[1] == 'o' && "rol_std_cols"@[2] == 'l' && "rol_std_cols"@[3] == '_' && "rol_std_cols"@[4] == 's' && "rol_std_cols"@[5] == 't' && "rol_std_cols"@[6] == 'd' && "rol_std_cols"@[7] == '_' && "rol_std_cols"@[8] == 'c' && "rol_std_cols"@[9] == 'o' && "rol_std_cols"@[10] == 'l' && "rol_std_cols"@[11] == 's');
    assert("rol_zsc_cols"@.len() == 12 && "rol_zsc_cols"@[0] == 'r' && "rol_zsc_cols"@[1] == 'o' && "rol_zsc_cols"@[2] == 'l' && "rol_zsc_cols"@[3] == '_' && "rol_zsc_cols"@[4] == 'z' && "rol_zsc_cols"@[5] == 's' && "rol_zsc_cols"@[6] == 'c' && "rol_zsc_cols"@[7] == '_' && "rol_zsc_cols"@[8] == 'c' && "rol_zsc_cols"@[9] == 'o' && "rol_zsc_cols"@[10] == 'l' && "rol_zsc_cols"@[11] == 's');
    assert("run_sum_cols"@.len() == 12 && "run_sum_cols"@[0] == 'r' && "run_sum_cols"@[1] == 'u' && "run_sum_cols"@[2] == 'n' && "run_sum_cols"@[3] == '_' && "run_sum_cols"@[4] == 's' && "run_sum_cols"@[5] == 'u' && "run_sum_cols"@[6] == 'm' && "run_sum_cols"@[7] == '_' && "run_sum_cols"@[8] == 'c' && "run_sum_cols"@[9] == 'o' && "run_sum_cols"@[10] == 'l' && "run_sum_cols"@[11] == 's');
    assert("rsk_adj_cols"@.len() == 12 && "rsk_adj_cols"@[0] == 'r' && "rsk_adj_cols"@[1] == 's' && "rsk_adj_cols"@[2] == 'k' && "rsk_adj_cols"@[3] == '_' && "rsk_adj_cols"@[4] == 'a' && "rsk_adj_cols"@[5] == 'd' && "rsk_adj_cols"@[6] == 'j' && "rsk_adj_cols"@[7] == '_' && "rsk_adj_cols"@[8] == 'c' && "rsk_adj_cols"@[9] == 'o' && "rsk_adj_cols"@[10] == 'l' && "rsk_adj_cols"@[11] == 's');
    assert("shift-cols"@.len() == 10 && "shift-cols"@[0] == 's' && "shift-cols"@[1] == 'h' && "shift-cols"@[2] == 'i' && "shift-cols"@[3] == 'f' && "shift-cols"@[4] == 't' && "shift-cols"@[5] == '-' && "shift-cols"@[6] == 'c' && "shift-cols"@[7] == 'o' && "shift-cols"@[8] == 'l' && "shift-cols"@[9] == 's');
    assert("shift"@.len() == 5 && "shift"@[0] == 's' && "shift"@[1] == 'h' && "shift"@[2] == 'i' && "shift"@[3] == 'f' && "shift"@[4] == 't');
    assert("shift-col"@.len() == 9 && "shift-col"@[0] == 's' && "shift-col"@[1] == 'h' && "shift-col"@[2] == 'i' && "shift-col"@[3] == 'f' && "shift-col"@[4] == 't' && "shift-col"@[5] == '-' && "shift-col"@[6] == 'c' && "shift-col"@[7] == 'o' && "shift-col"@[8] == 'l');
    assert(">-cols"@.len() == 6 && ">-cols"@[0] == '>' && ">-cols"@[1] == '-' && ">-cols"@[2] == 'c' && ">-cols"@[3] == 'o' && ">-cols"@[4] == 'l' && ">-cols"@[5] == 's');
    assert(">"@.len() == 1 && ">"@[0] == '>');
    assert(">-col"@.len() == 5 && ">-col"@[0] == '>' && ">-col"@[1] == '-' && ">-col"@[2] == 'c' && ">-col"@[3] == 'o' && ">-col"@[4] == 'l');
    assert("locf-cols"@.len() == 9 && "locf-cols"@[0] == 'l' && "locf-cols"@[1] == 'o' && "locf-cols"@[2] == 'c' && "locf-cols"@[3] == 'f' && "locf-cols"@[4] == '-' && "locf-cols"@[5] == 'c' && "locf-cols"@[6] == 'o' && "locf-cols"@[7] == 'l' && "locf-cols"@[8] == 's');
    assert("locf"@.len() == 4 && "locf"@[0] == 'l' && "locf"@[1] == 'o' && "locf"@[2] == 'c' && "locf"@[3] == 'f');
    assert("diff-cols"@.len() == 9 && "diff-cols"@[0] == 'd' && "diff-cols"@[1] == 'i' && "diff-cols"@[2] == 'f' && "diff-cols"@[3] == 'f' && "diff-cols"@[4] == '-' && "diff-cols"@[5] == 'c' && "diff-cols"@[6] == 'o' && "diff-cols"@[7] == 'l' && "diff-cols"@[8] == 's');
    assert("diff"@.len() == 4 && "diff"@[0] == 'd' && "diff"@[1] == 'i' && "diff"@[2] == 'f' && "diff"@[3] == 'f');
    assert("diff-col"@.len() == 8 && "diff-col"@[0] == 'd' && "diff-col"@[1] == 'i' && "diff-col"@[2] == 'f' && "diff-col"@[3] == 'f' && "diff-col"@[4] == '-' && "diff-col"@[5] == 'c' && "diff-col"@[6] == 'o' && "diff-col"@[7] == 'l');
    assert("ecs1-cols"@.len() == 9 && "ecs1-cols"@[0] == 'e' && "ecs1-cols"@[1] == 'c' && "ecs1-cols"@[2] == 's' && "ecs1-cols"@[3] == '1' && "ecs1-cols"@[4] == '-' && "ecs1-cols"@[5] == 'c' && "ecs1-cols"@[6] == 'o' && "ecs1-cols"@[7] == 'l' && "ecs1-cols"@[8] == 's');
    assert("ecs1"@.len() == 4 && "ecs1"@[0] == 'e' && "ecs1"@[1] == 'c' && "ecs1"@[2] == 's' && "ecs1"@[3] == '1');
    assert("ecs1-col"@.len() == 8 && "ecs1-col"@[0] == 'e' && "ecs1-col"@[1] == 'c' && "ecs1-col"@[2] == 's' && "ecs1-col"@[3] == '1' && "ecs1-col"@[4] == '-' && "ecs1-col"@[5] == 'c' && "ecs1-col"@[6] == 'o' && "ecs1-col"@[7] == 'l');
    assert("x-"@.len() == 2 && "x-"@[0] == 'x' && "x-"@[1] == '-');
    assert("xminus"@.len() == 6 && "xminus"@[0] == 'x' && "xminus"@[1] == 'm' && "xminus"@[2] == 'i' && "xminus"@[3] == 'n' && "xminus"@[4] == 'u' && "xminus"@[5] == 's');
    assert("w5"@.len() == 2 && "w5"@[0] == 'w' && "w5"@[1] == '5');
    assert("wkd"@.len() == 3 && "wkd"@[0] == 'w' && "wkd"@[1] == 'k' && "wkd"@[2] == 'd');
    assert("let*"@.len() == 4 && "let*"@[0] == 'l' && "let*"@[1] == 'e' && "let*"@[2] == 't' && "let*"@[3] == '*');
    assert("let"@.len() == 3 && "let"@[0] == 'l' && "let"@[1] == 'e' && "let"@[2] == 't');
    assert("add"@.len() == 3 && "add"@[0] == 'a' && "add"@[1] == 'd' && "add"@[2] == 'd');
    assert("+"@.len() == 1 && "+"@[0] == '+');
    assert("sub"@.len() == 3 && "sub"@[0] == 's' && "sub"@[1] == 'u' && "sub"@[2] == 'b');
    assert("-"@.len() == 1 && "-"@[0] == '-');
    assert("mul"@.len() == 3 && "mul"@[0] == 'm' && "mul"@[1] == 'u' && "mul"@[2] == 'l');
    assert("*"@.len() == 1 && "*"@[0] == '*');
    assert("div"@.len() == 3 && "div"@[0] == 'd' && "div"@[1] == 'i' && "div"@[2] == 'v');
    assert("/"@.len() == 1 && "/"@[0] == '/');
    assert("eq"@.len() == 2 && "eq"@[0] == 'e' && "eq"@[1] == 'q');
    assert("=="@.len() == 2 && "=="@[0] == '=' && "=="@[1] == '=');
    assert("neq"@.len() == 3 && "neq"@[0] == 'n' && "neq"@[1] == 'e' && "neq"@[2] == 'q');
    assert("!="@.len() == 2 && "!="@[0] == '!' && "!="@[1] == '=');
    assert("gt"@.len() == 2 && "gt"@[0] == 'g' && "gt"@[1] == 't');
    assert("gte"@.len() == 3 && "gte"@[0] == 'g' && "gte"@[1] == 't' && "gte"@[2] == 'e');
    assert(">="@.len() == 2 && ">="@[0] == '>' && ">="@[1] == '=');
    assert("lt"@.len() == 2 && "lt"@[0] == 'l' && "lt"@[1] == 't');
    assert("<"@.len() == 1 && "<"@[0] == '<');
    assert("lte"@.len() == 3 && "lte"@[0] == 'l' && "lte"@[1] == 't' && "lte"@[2] == 'e');
    assert("<="@.len() == 2 && "<="@[0] == '<' && "<="@[1] == '=');
    assert("ln"@.len() == 2 && "ln"@[0] == 'l' && "ln"@[1] == 'n');
    assert("log"@.len() == 3 && "log"@[0] == 'l' && "log"@[1] == 'o' && "log"@[2] == 'g');
    assert("SHF_PTW_OBS_NLN_DLOG"@.len() == 20 && "SHF_PTW_OBS_NLN_DLOG"@[0] == 'S' && "SHF_PTW_OBS_NLN_DLOG"@[1] == 'H' && "SHF_PTW_OBS_NLN_DLOG"@[2] == 'F' && "SHF_PTW_OBS_NLN_DLOG"@[3] == '_' && "SHF_PTW_OBS_NLN_DLOG"@[4] == 'P' && "SHF_PTW_OBS_NLN_DLOG"@[5] == 'T' && "SHF_PTW_OBS_NLN_DLOG"@[6] == 'W' && "SHF_PTW_OBS_NLN_DLOG"@[7] == '_' && "SHF_PTW_OBS_NLN_DLOG"@[8] == 'O' && "SHF_PTW_OBS_NLN_DLOG"@[9] == 'B' && "SHF_PTW_OBS_NLN_DLOG"@[10] == 'S' && "SHF_PTW_OBS_NLN_DLOG"@[11] == '_' && "SHF_PTW_OBS_NLN_DLOG"@[12] == 'N' && "SHF_PTW_OBS_NLN_DLOG"@[13] == 'L' && "SHF_PTW_OBS_NLN_DLOG"@[14] == 'N' && "SHF_PTW_OBS_NLN_DLOG"@[15] == '_' && "SHF_PTW_OBS_NLN_DLOG"@[16] == 'D' && "SHF_PTW_OBS_NLN_DLOG"@[17] == 'L' && "SHF_PTW_OBS_NLN_DLOG"@[18] == 'O' && "SHF_PTW_OBS_NLN_DLOG"@[19] == 'G');
    assert("dlog-ofs"@.len() == 8 && "dlog-ofs"@[0] == 'd' && "dlog-ofs"@[1] == 'l' && "dlog-ofs"@[2] == 'o' && "dlog-ofs"@[3] == 'g' && "dlog-ofs"@[4] == '-' && "dlog-ofs"@[5] == 'o' && "dlog-ofs"@[6] == 'f' && "dlog-ofs"@[7] == 's');
    assert("SHF_PTW_OFS_NLN_DLOG"@.len() == 20 && "SHF_PTW_OFS_NLN_DLOG"@[0] == 'S' && "SHF_PTW_OFS_NLN_DLOG"@[1] == 'H' && "SHF_PTW_OFS_NLN_DLOG"@[2] == 'F' && "SHF_PTW_OFS_NLN_DLOG"@[3] == '_' && "SHF_PTW_OFS_NLN_DLOG"@[4] == 'P' && "SHF_PTW_OFS_NLN_DLOG"@[5] == 'T' && "SHF_PTW_OFS_NLN_DLOG"@[6] == 'W' && "SHF_PTW_OFS_NLN_DLOG"@[7] == '_' && "SHF_PTW_OFS_NLN_DLOG"@[8] == 'O' && "SHF_PTW_OFS_NLN_DLOG"@[9] == 'F' && "SHF_PTW_OFS_NLN_DLOG"@[10] == 'S' && "SHF_PTW_OFS_NLN_DLOG"@[11] == '_' && "SHF_PTW_OFS_NLN_DLOG"@[12] == 'N' && "SHF_PTW_OFS_NLN_DLOG"@[13] == 'L' && "SHF_PTW_OFS_NLN_DLOG"@[14] == 'N' && "SHF_PTW_OFS_NLN_DLOG"@[15] == '_' && "SHF_PTW_OFS_NLN_DLOG"@[16] == 'D' && "SHF_PTW_OFS_NLN_DLOG"@[17] == 'L' && "SHF_PTW_OFS_NLN_DLOG"@[18] == 'O' && "SHF_PTW_OFS_NLN_DLOG"@[19] == 'G');
    assert("ret"@.len() == 3 && "ret"@[0] == 'r' && "ret"@[1] == 'e' && "ret"@[2] == 't');
    assert("RET"@.len() == 3 && "RET"@[0] == 'R' && "RET"@[1] == 'E' && "RET"@[2] == 'T');
    assert("LOG"@.len() == 3 && "LOG"@[0] == 'L' && "LOG"@[1] == 'O' && "LOG"@[2] == 'G');
    assert("exp"@.len() == 3 && "exp"@[0] == 'e' && "exp"@[1] == 'x' && "exp"@[2] == 'p');
    assert("EXP"@.len() == 3 && "EXP"@[0] == 'E' && "EXP"@[1] == 'X' && "EXP"@[2] == 'P');
    assert("sqrt"@.len() == 4 && "sqrt"@[0] == 's' && "sqrt"@[1] == 'q' && "sqrt"@[2] == 'r' && "sqrt"@[3] == 't');
    assert("SQRT"@.len() == 4 && "SQRT"@[0] == 'S' && "SQRT"@[1] == 'Q' && "SQRT"@[2] == 'R' && "SQRT"@[3] == 'T');
    assert("abs"@.len() == 3 && "abs"@[0] == 'a' && "abs"@[1] == 'b' && "abs"@[2] == 's');
    assert("ABS"@.len() == 3 && "ABS"@[0] == 'A' && "ABS"@[1] == 'B' && "ABS"@[2] == 'S');
    assert("inv"@.len() == 3 && "inv"@[0] == 'i' && "inv"@[1] == 'n' && "inv"@[2] == 'v');
    assert("INV"@.len() == 3 && "INV"@[0] == 'I' && "INV"@[1] == 'N' && "INV"@[2] == 'V');
    assert("SHF_REC_NLN_LOCF"@.len() == 16 && "SHF_REC_NLN_LOCF"@[0] == 'S' && "SHF_REC_NLN_LOCF"@[1] == 'H' && "SHF_REC_NLN_LOCF"@[2] == 'F' && "SHF_REC_NLN_LOCF"@[3] == '_' && "SHF_REC_NLN_LOCF"@[4] == 'R' && "SHF_REC_NLN_LOCF"@[5] == 'E' && "SHF_REC_NLN_LOCF"@[6] == 'C' && "SHF_REC_NLN_LOCF"@[7] == '_' && "SHF_REC_NLN_LOCF"@[8] == 'N' && "SHF_REC_NLN_LOCF"@[9] == 'L' && "SHF_REC_NLN_LOCF"@[10] == 'N' && "SHF_REC_NLN_LOCF"@[11] == '_' && "SHF_REC_NLN_LOCF"@[12] == 'L' && "SHF_REC_NLN_LOCF"@[13] == 'O' && "SHF_REC_NLN_LOCF"@[14] == 'C' && "SHF_REC_NLN_LOCF"@[15] == 'F');
    assert("MSK_WKE"@.len() == 7 && "MSK_WKE"@[0] == 'M' && "MSK_WKE"@[1] == 'S' && "MSK_WKE"@[2] == 'K' && "MSK_WKE"@[3] == '_' && "MSK_WKE"@[4] == 'W' && "MSK_WKE"@[5] == 'K' && "MSK_WKE"@[6] == 'E');
    assert("SHF_PFX_LIN_SUM"@.len() == 15 && "SHF_PFX_LIN_SUM"@[0] == 'S' && "SHF_PFX_LIN_SUM"@[1] == 'H' && "SHF_PFX_LIN_SUM"@[2] == 'F' && "SHF_PFX_LIN_SUM"@[3] == '_' && "SHF_PFX_LIN_SUM"@[4] == 'P' && "SHF_PFX_LIN_SUM"@[5] == 'F' && "SHF_PFX_LIN_SUM"@[6] == 'X' && "SHF_PFX_LIN_SUM"@[7] == '_' && "SHF_PFX_LIN_SUM"@[8] == 'L' && "SHF_PFX_LIN_SUM"@[9] == 'I' && "SHF_PFX_LIN_SUM"@[10] == 'N' && "SHF_PFX_LIN_SUM"@[11] == '_' && "SHF_PFX_LIN_SUM"@[12] == 'S' && "SHF_PFX_LIN_SUM"@[13] == 'U' && "SHF_PFX_LIN_SUM"@[14] == 'M');
    assert("SHF_PTW_LIN_SHF"@.len() == 15 && "SHF_PTW_LIN_SHF"@[0] == 'S' && "SHF_PTW_LIN_SHF"@[1] == 'H' && "SHF_PTW_LIN_SHF"@[2] == 'F' && "SHF_PTW_LIN_SHF"@[3] == '_' && "SHF_PTW_LIN_SHF"@[4] == 'P' && "SHF_PTW_LIN_SHF"@[5] == 'T' && "SHF_PTW_LIN_SHF"@[6] == 'W' && "SHF_PTW_LIN_SHF"@[7] == '_' && "SHF_PTW_LIN_SHF"@[8] == 'L' && "SHF_PTW_LIN_SHF"@[9] == 'I' && "SHF_PTW_LIN_SHF"@[10] == 'N' && "SHF_PTW_LIN_SHF"@[11] == '_' && "SHF_PTW_LIN_SHF"@[12] == 'S' && "SHF_PTW_LIN_SHF"@[13] == 'H' && "SHF_PTW_LIN_SHF"@[14] == 'F');
    assert("lag-obs"@.len() == 7 && "lag-obs"@[0] == 'l' && "lag-obs"@[1] == 'a' && "lag-obs"@[2] == 'g' && "lag-obs"@[3] == '-' && "lag-obs"@[4] == 'o' && "lag-obs"@[5] == 'b' && "lag-obs"@[6] == 's');
    assert("shift-obs"@.len() == 9 && "shift-obs"@[0] == 's' && "shift-obs"@[1] == 'h' && "shift-obs"@[2] == 'i' && "shift-obs"@[3] == 'f' && "shift-obs"@[4] == 't' && "shift-obs"@[5] == '-' && "shift-obs"@[6] == 'o' && "shift-obs"@[7] == 'b' && "shift-obs"@[8] == 's');
    assert("LAG_OBS"@.len() == 7 && "LAG_OBS"@[0] == 'L' && "LAG_OBS"@[1] == 'A' && "LAG_OBS"@[2] == 'G' && "LAG_OBS"@[3] == '_' && "LAG_OBS"@[4] == 'O' && "LAG_OBS"@[5] == 'B' && "LAG_OBS"@[6] == 'S');
    assert("keep"@.len() == 4 && "keep"@[0] == 'k' && "keep"@[1] == 'e' && "keep"@[2] == 'e' && "keep"@[3] == 'p');
    assert("KEEP"@.len() == 4 && "KEEP"@[0] == 'K' && "KEEP"@[1] == 'E' && "KEEP"@[2] == 'E' && "KEEP"@[3] == 'P');
    assert("SHF_WIN_LIN_AVG"@.len() == 15 && "SHF_WIN_LIN_AVG"@[0] == 'S' && "SHF_WIN_LIN_AVG"@[1] == 'H' && "SHF_WIN_LIN_AVG"@[2] == 'F' && "SHF_WIN_LIN_AVG"@[3] == '_' && "SHF_WIN_LIN_AVG"@[4] == 'W' && "SHF_WIN_LIN_AVG"@[5] == 'I' && "SHF_WIN_LIN_AVG"@[6] == 'N' && "SHF_WIN_LIN_AVG"@[7] == '_' && "SHF_WIN_LIN_AVG"@[8] == 'L' && "SHF_WIN_LIN_AVG"@[9] == 'I' && "SHF_WIN_LIN_AVG"@[10] == 'N' && "SHF_WIN_LIN_AVG"@[11] == '_' && "SHF_WIN_LIN_AVG"@[12] == 'A' && "SHF_WIN_LIN_AVG"@[13] == 'V' && "SHF_WIN_LIN_AVG"@[14] == 'G');
    assert("SHF_WIN_NLN_SDV"@.len() == 15 && "SHF_WIN_NLN_SDV"@[0] == 'S' && "SHF_WIN_NLN_SDV"@[1] == 'H' && "SHF_WIN_NLN_SDV"@[2] == 'F' && "SHF_WIN_NLN_SDV"@[3] == '_' && "SHF_WIN_NLN_SDV"@[4] == 'W' && "SHF_WIN_NLN_SDV"@[5] == 'I' && "SHF_WIN_NLN_SDV"@[6] == 'N' && "SHF_WIN_NLN_SDV"@[7] == '_' && "SHF_WIN_NLN_SDV"@[8] == 'N' && "SHF_WIN_NLN_SDV"@[9] == 'L' && "SHF_WIN_NLN_SDV"@[10] == 'N' && "SHF_WIN_NLN_SDV"@[11] == '_' && "SHF_WIN_NLN_SDV"@[12] == 'S' && "SHF_WIN_NLN_SDV"@[13] == 'D' && "SHF_WIN_NLN_SDV"@[14] == 'V');
    assert("rolling-mean-min2"@.len() == 17 && "rolling-mean-min2"@[0] == 'r' && "rolling-mean-min2"@[1] == 'o' && "rolling-mean-min2"@[2] == 'l' && "rolling-mean-min2"@[3] == 'l' && "rolling-mean-min2"@[4] == 'i' && "rolling-mean-min2"@[5] == 'n' && "rolling-mean-min2"@[6] == 'g' && "rolling-mean-min2"@[7] == '-' && "rolling-mean-min2"@[8] == 'm' && "rolling-mean-min2"@[9] == 'e' && "rolling-mean-min2"@[10] == 'a' && "rolling-mean-min2"@[11] == 'n' && "rolling-mean-min2"@[12] == '-' && "rolling-mean-min2"@[13] == 'm' && "rolling-mean-min2"@[14] == 'i' && "rolling-mean-min2"@[15] == 'n' && "rolling-mean-min2"@[16] == '2');
    assert("SHF_WIN_MIN2_LIN_AVG"@.len() == 20 && "SHF_WIN_MIN2_LIN_AVG"@[0] == 'S' && "SHF_WIN_MIN2_LIN_AVG"@[1] == 'H' && "SHF_WIN_MIN2_LIN_AVG"@[2] == 'F' && "SHF_WIN_MIN2_LIN_AVG"@[3] == '_' && "SHF_WIN_MIN2_LIN_AVG"@[4] == 'W' && "SHF_WIN_MIN2_LIN_AVG"@[5] == 'I' && "SHF_WIN_MIN2_LIN_AVG"@[6] == 'N' && "SHF_WIN_MIN2_LIN_AVG"@[7] == '_' && "SHF_WIN_MIN2_LIN_AVG"@[8] == 'M' && "SHF_WIN_MIN2_LIN_AVG"@[9] == 'I' && "SHF_WIN_MIN2_LIN_AVG"@[10] == 'N' && "SHF_WIN_MIN2_LIN_AVG"@[11] == '2' && "SHF_WIN_MIN2_LIN_AVG"@[12] == '_' && "SHF_WIN_MIN2_LIN_AVG"@[13] == 'L' && "SHF_WIN_MIN2_LIN_AVG"@[14] == 'I' && "SHF_WIN_MIN2_LIN_AVG"@[15] == 'N' && "SHF_WIN_MIN2_LIN_AVG"@[16] == '_' && "SHF_WIN_MIN2_LIN_AVG"@[17] == 'A' && "SHF_WIN_MIN2_LIN_AVG"@[18] == 'V' && "SHF_WIN_MIN2_LIN_AVG"@[19] == 'G');
    assert("rolling-std-min2"@.len() == 16 && "rolling-std-min2"@[0] == 'r' && "rolling-std-min2"@[1] == 'o' && "rolling-std-min2"@[2] == 'l' && "rolling-std-min2"@[3] == 'l' && "rolling-std-min2"@[4] == 'i' && "rolling-std-min2"@[5] == 'n' && "rolling-std-min2"@[6] == 'g' && "rolling-std-min2"@[7] == '-' && "rolling-std-min2"@[8] == 's' && "rolling-std-min2"@[9] == 't' && "rolling-std-min2"@[10] == 'd' && "rolling-std-min2"@[11] == '-' && "rolling-std-min2"@[12] == 'm' && "rolling-std-min2"@[13] == 'i' && "rolling-std-min2"@[14] == 'n' && "rolling-std-min2"@[15] == '2');
    assert("SHF_WIN_MIN2_NLN_SDV"@.len() == 20 && "SHF_WIN_MIN2_NLN_SDV"@[0] == 'S' && "SHF_WIN_MIN2_NLN_SDV"@[1] == 'H' && "SHF_WIN_MIN2_NLN_SDV"@[2] == 'F' && "SHF_WIN_MIN2_NLN_SDV"@[3] == '_' && "SHF_WIN_MIN2_NLN_SDV"@[4] == 'W' && "SHF_WIN_MIN2_NLN_SDV"@[5] == 'I' && "SHF_WIN_MIN2_NLN_SDV"@[6] == 'N' && "SHF_WIN_MIN2_NLN_SDV"@[7] == '_' && "SHF_WIN_MIN2_NLN_SDV"@[8] == 'M' && "SHF_WIN_MIN2_NLN_SDV"@[9] == 'I' && "SHF_WIN_MIN2_NLN_SDV"@[10] == 'N' && "SHF_WIN_MIN2_NLN_SDV"@[11] == '2' && "SHF_WIN_MIN2_NLN_SDV"@[12] == '_' && "SHF_WIN_MIN2_NLN_SDV"@[13] == 'N' && "SHF_WIN_MIN2_NLN_SDV"@[14] == 'L' && "SHF_WIN_MIN2_NLN_SDV"@[15] == 'N' && "SHF_WIN_MIN2_NLN_SDV"@[16] == '_' && "SHF_WIN_MIN2_NLN_SDV"@[17] == 'S' && "SHF_WIN_MIN2_NLN_SDV"@[18] == 'D' && "SHF_WIN_MIN2_NLN_SDV"@[19] == 'V');
    assert("ft-mean"@.len() == 7 && "ft-mean"@[0] == 'f' && "ft-mean"@[1] == 't' && "ft-mean"@[2] == '-' && "ft-mean"@[3] == 'm' && "ft-mean"@[4] == 'e' && "ft-mean"@[5] == 'a' && "ft-mean"@[6] == 'n');
    assert("SHF_WIN_MIN2_LIN_AVG_EXCL"@.len() == 25 && "SHF_WIN_MIN2_LIN_AVG_EXCL"@[0] == 'S' && "SHF_WIN_MIN2_LIN_AVG_EXCL"@[1] == 'H' && "SHF_WIN_MIN2_LIN_AVG_EXCL"@[2] == 'F' && "SHF_WIN_MIN2_LIN_AVG_EXCL"@[3] == '_' && "SHF_WIN_MIN2_LIN_AVG_EXCL"@[4] == 'W' && "SHF_WIN_MIN2_LIN_AVG_EXCL"@[5] == 'I' && "SHF_WIN_MIN2_LIN_AVG_EXCL"@[6] == 'N' && "SHF_WIN_MIN2_LIN_AVG_EXCL"@[7] == '_' && "SHF_WIN_MIN2_LIN_AVG_EXCL"@[8] == 'M' && "SHF_WIN_MIN2_LIN_AVG_EXCL"@[9] == 'I' && "SHF_WIN_MIN2_LIN_AVG_EXCL"@[10] == 'N' && "SHF_WIN_MIN2_LIN_AVG_EXCL"@[11] == '2' && "SHF_WIN_MIN2_LIN_AVG_EXCL"@[12] == '_' && "SHF_WIN_MIN2_LIN_AVG_EXCL"@[13] == 'L' && "SHF_WIN_MIN2_LIN_AVG_EXCL"@[14] == 'I' && "SHF_WIN_MIN2_LIN_AVG_EXCL"@[15] == 'N' && "SHF_WIN_MIN2_LIN_AVG_EXCL"@[16] == '_' && "SHF_WIN_MIN2_LIN_AVG_EXCL"@[17] == 'A' && "SHF_WIN_MIN2_LIN_AVG_EXCL"@[18] == 'V' && "SHF_WIN_MIN2_LIN_AVG_EXCL"@[19] == 'G' && "SHF_WIN_MIN2_LIN_AVG_EXCL"@[20] == '_' && "SHF_WIN_MIN2_LIN_AVG_EXCL"@[21] == 'E' && "SHF_WIN_MIN2_LIN_AVG_EXCL"@[22] == 'X' && "SHF_WIN_MIN2_LIN_AVG_EXCL"@[23] == 'C' && "SHF_WIN_MIN2_LIN_AVG_EXCL"@[24] == 'L');
    assert("ft-std"@.len() == 6 && "ft-std"@[0] == 'f' && "ft-std"@[1] == 't' && "ft-std"@[2] == '-' && "ft-std"@[3] == 's' && "ft-std"@[4] == 't' && "ft-std"@[5] == 'd');
    assert("SHF_WIN_MIN2_NLN_SDV_EXCL"@.len() == 25 && "SHF_WIN_MIN2_NLN_SDV_EXCL"@[0] == 'S' && "SHF_WIN_MIN2_NLN_SDV_EXCL"@[1] == 'H' && "SHF_WIN_MIN2_NLN_SDV_EXCL"@[2] == 'F' && "SHF_WIN_MIN2_NLN_SDV_EXCL"@[3] == '_' && "SHF_WIN_MIN2_NLN_SDV_EXCL"@[4] == 'W' && "SHF_WIN_MIN2_NLN_SDV_EXCL"@[5] == 'I' && "SHF_WIN_MIN2_NLN_SDV_EXCL"@[6] == 'N' && "SHF_WIN_MIN2_NLN_SDV_EXCL"@[7] == '_' && "SHF_WIN_MIN2_NLN_SDV_EXCL"@[8] == 'M' && "SHF_WIN_MIN2_NLN_SDV_EXCL"@[9] == 'I' && "SHF_WIN_MIN2_NLN_SDV_EXCL"@[10] == 'N' && "SHF_WIN_MIN2_NLN_SDV_EXCL"@[11] == '2' && "SHF_WIN_MIN2_NLN_SDV_EXCL"@[12] == '_' && "SHF_WIN_MIN2_NLN_SDV_EXCL"@[13] == 'N' && "SHF_WIN_MIN2_NLN_SDV_EXCL"@[14] == 'L' && "SHF_WIN_MIN2_NLN_SDV_EXCL"@[15] == 'N' && "SHF_WIN_MIN2_NLN_SDV_EXCL"@[16] == '_' && "SHF_WIN_MIN2_NLN_SDV_EXCL"@[17] == 'S' && "SHF_WIN_MIN2_NLN_SDV_EXCL"@[18] == 'D' && "SHF_WIN_MIN2_NLN_SDV_EXCL"@[19] == 'V' && "SHF_WIN_MIN2_NLN_SDV_EXCL"@[20] == '_' && "SHF_WIN_MIN2_NLN_SDV_EXCL"@[21] == 'E' && "SHF_WIN_MIN2_NLN_SDV_EXCL"@[22] == 'X' && "SHF_WIN_MIN2_NLN_SDV_EXCL"@[23] == 'C' && "SHF_WIN_MIN2_NLN_SDV_EXCL"@[24] == 'L');
    assert("composite"@.len() == 9 && "composite"@[0] == 'c' && "composite"@[1] == 'o' && "composite"@[2] == 'm' && "composite"@[3] == 'p' && "composite"@[4] == 'o' && "composite"@[5] == 's' && "composite"@[6] == 'i' && "composite"@[7] == 't' && "composite"@[8] == 'e');
    assert("ft-zscore"@.len() == 9 && "ft-zscore"@[0] == 'f' && "ft-zscore"@[1] == 't' && "ft-zscore"@[2] == '-' && "ft-zscore"@[3] == 'z' && "ft-zscore"@[4] == 's' && "ft-zscore"@[5] == 'c' && "ft-zscore"@[6] == 'o' && "ft-zscore"@[7] == 'r' && "ft-zscore"@[8] == 'e');
    assert("ADD"@.len() == 3 && "ADD"@[0] == 'A' && "ADD"@[1] == 'D' && "ADD"@[2] == 'D');
    assert("SUB"@.len() == 3 && "SUB"@[0] == 'S' && "SUB"@[1] == 'U' && "SUB"@[2] == 'B');
    assert("MUL"@.len() == 3 && "MUL"@[0] == 'M' && "MUL"@[1] == 'U' && "MUL"@[2] == 'L');
    assert("DIV"@.len() == 3 && "DIV"@[0] == 'D' && "DIV"@[1] == 'I' && "DIV"@[2] == 'V');
    assert("GTR"@.len() == 3 && "GTR"@[0] == 'G' && "GTR"@[1] == 'T' && "GTR"@[2] == 'R');
    assert("LSS"@.len() == 3 && "LSS"@[0] == 'L' && "LSS"@[1] == 'S' && "LSS"@[2] == 'S');
    assert("GTE"@.len() == 3 && "GTE"@[0] == 'G' && "GTE"@[1] == 'T' && "GTE"@[2] == 'E');
    assert("LTE"@.len() == 3 && "LTE"@[0] == 'L' && "LTE"@[1] == 'T' && "LTE"@[2] == 'E');
    assert("EQL"@.len() == 3 && "EQL"@[0] == 'E' && "EQL"@[1] == 'Q' && "EQL"@[2] == 'L');
    assert("NEQ"@.len() == 3 && "NEQ"@[0] == 'N' && "NEQ"@[1] == 'E' && "NEQ"@[2] == 'Q');
    assert(canonical_name("dlog-cols"@) == Some("dlog"@));
    assert(spec_canonical_to_ir_name("dlog-cols"@) is Some ==> spec_canonical_to_ir_name("dlog"@) == spec_canonical_to_ir_name("dlog-cols"@));
    assert(canonical_name("dlog-col"@) == Some("dlog"@));
    assert(spec_canonical_to_ir_name("dlog-col"@) is Some ==> spec_canonical_to_ir_name("dlog"@) == spec_canonical_to_ir_name("dlog-col"@));
    assert(canonical_name("rolling-mean"@) == Some("rol_avg"@));
    assert(spec_canonical_to_ir_name("rolling-mean"@) is Some ==> spec_canonical_to_ir_name("rol_avg"@) == spec_canonical_to_ir_name("rolling-mean"@));
    assert(canonical_name("rolling-std"@) == Some("rol_std"@));
    assert(spec_canonical_to_ir_name("rolling-std"@) is Some ==> spec_canonical_to_ir_name("rol_std"@) == spec_canonical_to_ir_name("rolling-std"@));
    assert(canonical_name("rolling-zscore"@) == Some("rol_zsc"@));
    assert(spec_canonical_to_ir_name("rolling-zscore"@) is Some ==> spec_canonical_to_ir_name("rol_zsc"@) == spec_canonical_to_ir_name("rolling-zscore"@));
    assert(canonical_name("wzs"@) == Some("rol_zsc"@));
    assert(spec_canonical_to_ir_name("wzs"@) is Some ==> spec_canonical_to_ir_name("rol_zsc"@) == spec_canonical_to_ir_name("wzs"@));
    assert(canonical_name("cs1"@) == Some("run_sum"@));
    assert(spec_canonical_to_ir_name("cs1"@) is Some ==> spec_canonical_to_ir_name("run_sum"@) == spec_canonical_to_ir_name("cs1"@));
    assert(canonical_name("ur"@) == Some("rsk_adj"@));
    assert(spec_canonical_to_ir_name("ur"@) is Some ==> spec_canonical_to_ir_name("rsk_adj"@) == spec_canonical_to_ir_name("ur"@));
    assert(canonical_name("cs1-cols"@) == Some("run_sum"@));
    assert(spec_canonical_to_ir_name("cs1-cols"@) is Some ==> spec_canonical_to_ir_name("run_sum"@) == spec_canonical_to_ir_name("cs1-cols"@));
    assert(canonical_name("cs1-col"@) == Some("run_sum"@));
    assert(spec_canonical_to_ir_name("cs1-col"@) is Some ==> spec_canonical_to_ir_name("run_sum"@) == spec_canonical_to_ir_name("cs1-col"@));
    assert(canonical_name("ur-cols"@) == Some("rsk_adj"@));
    assert(spec_canonical_to_ir_name("ur-cols"@) is Some ==> spec_canonical_to_ir_name("rsk_adj"@) == spec_canonical_to_ir_name("ur-cols"@));
    assert(canonical_name("ur-col"@) == Some("rsk_adj"@));
    assert(spec_canonical_to_ir_name("ur-col"@) is Some ==> spec_canonical_to_ir_name("rsk_adj"@) == spec_canonical_to_ir_name("ur-col"@));
    assert(canonical_name("rolling-mean-cols"@) == Some("rol_avg"@));
    assert(spec_canonical_to_ir_name("rolling-mean-cols"@) is Some ==> spec_canonical_to_ir_name("rol_avg"@) == spec_canonical_to_ir_name("rolling-mean-cols"@));
    assert(canonical_name("rolling-std-cols"@) == Some("rol_std"@));
    assert(spec_canonical_to_ir_name("rolling-std-cols"@) is Some ==> spec_canonical_to_ir_name("rol_std"@) == spec_canonical_to_ir_name("rolling-std-cols"@));
    assert(canonical_name("rolling-zscore-cols"@) == Some("rol_zsc"@));
    assert(spec_canonical_to_ir_name("rolling-zscore-cols"@) is Some ==> spec_canonical_to_ir_name("rol_zsc"@) == spec_canonical_to_ir_name("rolling-zscore-cols"@));
    assert(canonical_name("rol_avg_cols"@) == Some("rol_avg"@));
    assert(spec_canonical_to_ir_name("rol_avg_cols"@) is Some ==> spec_canonical_to_ir_name("rol_avg"@) == spec_canonical_to_ir_name("rol_avg_cols"@));
    assert(canonical_name("rol_std_cols"@) == Some("rol_std"@));
    assert(spec_canonical_to_ir_name("rol_std_cols"@) is Some ==> spec_canonical_to_ir_name("rol_std"@) == spec_canonical_to_ir_name("rol_std_cols"@));
    assert(canonical_name("rol_zsc_cols"@) == Some("rol_zsc"@));
    assert(spec_canonical_to_ir_name("rol_zsc_cols"@) is Some ==> spec_canonical_to_ir_name("rol_zsc"@) == spec_canonical_to_ir_name("rol_zsc_cols"@));
    assert(canonical_name("run_sum_cols"@) == Some("run_sum"@));
    assert(spec_canonical_to_ir_name("run_sum_cols"@) is Some ==> spec_canonical_to_ir_name("run_sum"@) == spec_canonical_to_ir_name("run_sum_cols"@));
    assert(canonical_name("rsk_adj_cols"@) == Some("rsk_adj"@));
    assert(spec_canonical_to_ir_name("rsk_adj_cols"@) is Some ==> spec_canonical_to_ir_name("rsk_adj"@) == spec_canonical_to_ir_name("rsk_adj_cols"@));
    assert(canonical_name("shift-cols"@) == Some("shift"@));
    assert(spec_canonical_to_ir_name("shift-cols"@) is Some ==> spec_canonical_to_ir_name("shift"@) == spec_canonical_to_ir_name("shift-cols"@));
    assert(canonical_name("shift-col"@) == Some("shift"@));
    assert(spec_canonical_to_ir_name("shift-col"@) is Some ==> spec_canonical_to_ir_name("shift"@) == spec_canonical_to_ir_name("shift-col"@));
    assert(canonical_name(">-cols"@) == Some(">"@));
    assert(spec_canonical_to_ir_name(">-cols"@) is Some ==> spec_canonical_to_ir_name(">"@) == spec_canonical_to_ir_name(">-cols"@));
    assert(canonical_name(">-col"@) == Some(">"@));
    assert(spec_canonical_to_ir_name(">-col"@) is Some ==> spec_canonical_to_ir_name(">"@) == spec_canonical_to_ir_name(">-col"@));
    assert(canonical_name("locf-cols"@) == Some("locf"@));
    assert(spec_canonical_to_ir_name("locf-cols"@) is Some ==> spec_canonical_to_ir_name("locf"@) == spec_canonical_to_ir_name("locf-cols"@));
    assert(canonical_name("diff-cols"@) == Some("diff"@));
    assert(spec_canonical_to_ir_name("diff-cols"@) is Some ==> spec_canonical_to_ir_name("diff"@) == spec_canonical_to_ir_name("diff-cols"@));
    assert(canonical_name("diff-col"@) == Some("diff"@));
    assert(spec_canonical_to_ir_name("diff-col"@) is Some ==> spec_canonical_to_ir_name("diff"@) == spec_canonical_to_ir_name("diff-col"@));
    assert(canonical_name("ecs1-cols"@) == Some("ecs1"@));
    assert(spec_canonical_to_ir_name("ecs1-cols"@) is Some ==> spec_canonical_to_ir_name("ecs1"@) == spec_canonical_to_ir_name("ecs1-cols"@));
    assert(canonical_name("ecs1-col"@) == Some("ecs1"@));
    assert(spec_canonical_to_ir_name("ecs1-col"@) is Some ==> spec_canonical_to_ir_name("ecs1"@) == spec_canonical_to_ir_name("ecs1-col"@));
    assert(canonical_name("x-"@) == Some("xminus"@));
    assert(spec_canonical_to_ir_name("x-"@) is Some ==> spec_canonical_to_ir_name("xminus"@) == spec_canonical_to_ir_name("x-"@));
    assert(canonical_name("w5"@) == Some("wkd"@));
    assert(spec_canonical_to_ir_name("w5"@) is Some ==> spec_canonical_to_ir_name("wkd"@) == spec_canonical_to_ir_name("w5"@));
    assert(canonical_name("let*"@) == Some("let"@));
    assert(spec_canonical_to_ir_name("let*"@) is Some ==> spec_canonical_to_ir_name("let"@) == spec_canonical_to_ir_name("let*"@));
    assert(canonical_name("add"@) == Some("+"@));
    assert(spec_canonical_to_ir_name("add"@) is Some ==> spec_canonical_to_ir_name("+"@) == spec_canonical_to_ir_name("add"@));
    assert(canonical_name("sub"@) == Some("-"@));
    assert(spec_canonical_to_ir_name("sub"@) is Some ==> spec_canonical_to_ir_name("-"@) == spec_canonical_to_ir_name("sub"@));
    assert(canonical_name("mul"@) == Some("*"@));
    assert(spec_canonical_to_ir_name("mul"@) is Some ==> spec_canonical_to_ir_name("*"@) == spec_canonical_to_ir_name("mul"@));
    assert(canonical_name("div"@) == Some("/"@));
    assert(spec_canonical_to_ir_name("div"@) is Some ==> spec_canonical_to_ir_name("/"@) == spec_canonical_to_ir_name("div"@));
    assert(canonical_name("eq"@) == Some("=="@));
    assert(spec_canonical_to_ir_name("eq"@) is Some ==> spec_canonical_to_ir_name("=="@) == spec_canonical_to_ir_name("eq"@));
    assert(canonical_name("neq"@) == Some("!="@));
    assert(spec_canonical_to_ir_name("neq"@) is Some ==> spec_canonical_to_ir_name("!="@) == spec_canonical_to_ir_name("neq"@));
    assert(canonical_name("gt"@) == Some(">"@));
    assert(spec_canonical_to_ir_name("gt"@) is Some ==> spec_canonical_to_ir_name(">"@) == spec_canonical_to_ir_name("gt"@));
    assert(canonical_name("gte"@) == Some(">="@));
    assert(spec_canonical_to_ir_name("gte"@) is Some ==> spec_canonical_to_ir_name(">="@) == spec_canonical_to_ir_name("gte"@));
    assert(canonical_name("lt"@) == Some("<"@));
    assert(spec_canonical_to_ir_name("lt"@) is Some ==> spec_canonical_to_ir_name("<"@) == spec_canonical_to_ir_name("lt"@));
    assert(canonical_name("lte"@) == Some("<="@));
    assert(spec_canonical_to_ir_name("lte"@) is Some ==> spec_canonical_to_ir_name("<="@) == spec_canonical_to_ir_name("lte"@));
    assert(canonical_name("ln"@) == Some("log"@));
    assert(spec_canonical_to_ir_name("ln"@) is Some ==> spec_canonical_to_ir_name("log"@) == spec_canonical_to_ir_name("ln"@));
}

/// The IR operation name of a canonical operation name.
pub fn canonical_to_ir_name(name: &str) -> (r: Option<&'static str>)
    ensures
        match r {
            Some(s) => spec_canonical_to_ir_name(name@) == Some(s@),
            None => spec_canonical_to_ir_name(name@) is None,
        },
{
    if str_eq(name, "dlog") {
        Some("SHF_PTW_OBS_NLN_DLOG")
    } else if str_eq(name, "dlog-ofs") {
        Some("SHF_PTW_OFS_NLN_DLOG")
    } else if str_eq(name, "ret") {
        Some("RET")
    } else if str_eq(name, "log") || str_eq(name, "ln") {
        Some("LOG")
    } else if str_eq(name, "exp") {
        Some("EXP")
    } else if str_eq(name, "sqrt") {
        Some("SQRT")
    } else if str_eq(name, "abs") {
        Some("ABS")
    } else if str_eq(name, "inv") {
        Some("INV")
    } else if str_eq(name, "locf") {
        Some("SHF_REC_NLN_LOCF")
    } else if str_eq(name, "wkd") || str_eq(name, "w5") {
        Some("MSK_WKE")
    } else if str_eq(name, "run_sum") || str_eq(name, "cs1") {
        Some("SHF_PFX_LIN_SUM")
    } else if str_eq(name, "shift") {
        Some("SHF_PTW_LIN_SHF")
    } else if str_eq(name, "lag-obs") || str_eq(name, "shift-obs") {
        Some("LAG_OBS")
    } else if str_eq(name, "keep") {
        Some("KEEP")
    } else if str_eq(name, "rol_avg") || str_eq(name, "rolling-mean") {
        Some("SHF_WIN_LIN_AVG")
    } else if str_eq(name, "rol_std") || str_eq(name, "rolling-std") {
        Some("SHF_WIN_NLN_SDV")
    } else if str_eq(name, "rolling-mean-min2") {
        Some("SHF_WIN_MIN2_LIN_AVG")
    } else if str_eq(name, "rolling-std-min2") {
        Some("SHF_WIN_MIN2_NLN_SDV")
    } else if str_eq(name, "ft-mean") {
        Some("SHF_WIN_MIN2_LIN_AVG_EXCL")
    } else if str_eq(name, "ft-std") {
        Some("SHF_WIN_MIN2_NLN_SDV_EXCL")
    } else if str_eq(name, "rol_zsc") || str_eq(name, "rolling-zscore") || str_eq(name, "wzs") {
        Some("composite")
    } else if str_eq(name, "ft-zscore") {
        Some("composite")
    } else if str_eq(name, "rsk_adj") || str_eq(name, "ur") {
        Some("composite")
    } else if str_eq(name, "+") || str_eq(name, "add") {
        Some("ADD")
    } else if str_eq(name, "-") || str_eq(name, "sub") {
        Some("SUB")
    } else if str_eq(name, "*") || str_eq(name, "mul") {
        Some("MUL")
    } else if str_eq(name, "/") || str_eq(name, "div") {
        Some("DIV")
    } else if str_eq(name, ">") || str_eq(name, "gt") {
        Some("GTR")
    } else if str_eq(name, "<") || str_eq(name, "lt") {
        Some("LSS")
    } else if str_eq(name, ">=") || str_eq(name, "gte") {
        Some("GTE")
    } else if str_eq(name, "<=") || str_eq(name, "lte") {
        Some("LTE")
    } else if str_eq(name, "==") || str_eq(name, "eq") {
        Some("EQL")
    } else if str_eq(name, "!=") || str_eq(name, "neq") {
        Some("NEQ")
    } else {
        None
    }
}

/// Whether the bytes `s` end with the bytes `suffix`.
pub open spec fn ends_with(s: Seq<u8>, suffix: Seq<u8>) -> bool {
    suffix.len() <= s.len() && s.subrange(s.len() - suffix.len(), s.len() as int) == suffix
}

fn str_ends_with(s: &str, suffix: &str) -> (r: bool)
    ensures
        r == ends_with(vstd::utf8::encode_utf8(s@), vstd::utf8::encode_utf8(suffix@)),
{
    let a = s.as_bytes();
    let b = suffix.as_bytes();
    if b.len() > a.len() {
        return false;
    }
    let off = a.len() - b.len();
    let mut i: usize = 0;
    while i < b.len()
        invariant
            i <= b@.len(),
            off + b@.len() == a@.len(),
            off + b.len() == a.len(),
            a@ == vstd::utf8::encode_utf8(s@),
            b@ == vstd::utf8::encode_utf8(suffix@),
            forall|j: int| 0 <= j < i ==> a@[off + j] == b@[j],
        decreases b@.len() - i,
    {
        if a[off + i] != b[i] {
            assert(a@.subrange(off as int, a@.len() as int)[i as int] == a@[off + i]);
            return false;
        }
        i += 1;
    }
    assert(a@.subrange(off as int, a@.len() as int) =~= b@);
    true
}

/// The subcommand an argument list asks for: the explicit subcommand word
/// after the program name, else `Run`.
pub open spec fn spec_subcommand(args: Seq<Seq<char>>) -> Subcommand {
    if args.len() > 1 && (args[1] == "selftest"@ || args[1] == "--selftest"@) {
        Subcommand::Selftest
    } else if args.len() > 1 && args[1] == "verify"@ {
        Subcommand::Verify
    } else if args.len() > 1 && (args[1] == "dic"@ || args[1] == "--dic"@) {
        Subcommand::Dic
    } else {
        Subcommand::Run
    }
}

/// Choose the subcommand from the command line: an explicit subcommand word,
/// else a script file or `-e` (run), else run.
pub fn parse_subcommand(args: &[String]) -> (s: Subcommand)
    ensures
        s == spec_subcommand(args@.map_values(|a: String| a@)),
{
    let ghost av = args@.map_values(|a: String| a@);
    proof {
        reveal_strlit("selftest");
        reveal_strlit("--selftest");
        reveal_strlit("verify");
        reveal_strlit("run");
        reveal_strlit("dic");
        reveal_strlit("--dic");
    }
    if args.len() > 1 {
        let a = args[1].as_str();
        assert(av[1] == a@);
        if str_eq(a, "selftest") || str_eq(a, "--selftest") {
            return Subcommand::Selftest;
        }
        if str_eq(a, "verify") {
            return Subcommand::Verify;
        }
        if str_eq(a, "run") {
            assert(a@ != "selftest"@ && a@ != "--selftest"@ && a@ != "verify"@);
            assert("run"@[0] == 'r' && "dic"@[0] == 'd');
            assert(a@ != "dic"@ && a@ != "--dic"@);
            return Subcommand::Run;
        }
        if str_eq(a, "dic") || str_eq(a, "--dic") {
            return Subcommand::Dic;
        }
    }
    // script files and inline expressions run
    let mut i: usize = 1;
    while i < args.len()
        invariant
            av == args@.map_values(|a: String| a@),
            spec_subcommand(av) == Subcommand::Run,
        decreases args@.len() - i,
    {
        let arg = args[i].as_str();
        if str_ends_with(arg, ".lisp") || str_ends_with(arg, ".cl") || str_ends_with(arg, ".blisp") {
            return Subcommand::Run;
        }
        if str_eq(arg, "-e") {
            return Subcommand::Run;
        }
        i += 1;
    }
    Subcommand::Run
}

// ─── The options of `dic` ──────────────────────────────────────────────────

/// The options of the `dic` subcommand.
#[derive(Debug, Clone, PartialEq)]
pub struct DicOptions {
    pub view: DicView,
    pub format: OutputFormat,
    pub grep: Option<String>,
    pub no_yaml: bool,
}

/// What the `dic` subcommand refuses on its command line.
#[derive(Debug, Clone, PartialEq)]
pub enum DicArgError {
    /// `--grep` came last, without its pattern.
    MissingGrepPattern,
    /// An argument that is no option of `dic`.
    UnknownOption(String),
}

/// The options of `dic`, with the pattern as text.
pub struct DicOptionsV {
    pub view: DicView,
    pub format: OutputFormat,
    pub grep: Option<Seq<char>>,
    pub no_yaml: bool,
}

pub enum DicArgErrorV {
    MissingGrepPattern,
    UnknownOption(Seq<char>),
}

impl DicOptions {
    pub open spec fn view_v(self) -> DicOptionsV {
        DicOptionsV {
            view: self.view,
            format: self.format,
            grep: match self.grep {
                Some(g) => Some(g@),
                None => None,
            },
            no_yaml: self.no_yaml,
        }
    }
}

impl DicArgError {
    pub open spec fn view_v(self) -> DicArgErrorV {
        match self {
            DicArgError::MissingGrepPattern => DicArgErrorV::MissingGrepPattern,
            DicArgError::UnknownOption(a) => DicArgErrorV::UnknownOption(a@),
        }
    }
}

/// An option that picks a view.
pub open spec fn is_view_flag(a: Seq<char>) -> bool {
    a == "--exposed"@ || a == "--legacy"@ || a == "--todo-ir"@ || a == "--unmapped"@ || a
        == "--check-resolve"@ || a == "--planned"@ || a == "--matrix"@
}

/// Some argument after `blisp dic` picks a view.
pub open spec fn has_view_flag(args: Seq<Seq<char>>) -> bool {
    exists|i: int| 2 <= i < args.len() && is_view_flag(#[trigger] args[i])
}

/// Without a view option, `dic` shows the matrix without reading the YAML
/// files; otherwise all views, unless an option picks one.
pub open spec fn dic_defaults(args: Seq<Seq<char>>) -> DicOptionsV {
    DicOptionsV {
        view: if has_view_flag(args) { DicView::All } else { DicView::Matrix },
        format: OutputFormat::Table,
        grep: None,
        no_yaml: !has_view_flag(args),
    }
}

/// The options after reading the arguments from position `i` on, starting
/// from `st`; a later option overrides an earlier one.
pub open spec fn dic_fold(args: Seq<Seq<char>>, i: int, st: DicOptionsV) -> Result<DicOptionsV, DicArgErrorV>
    decreases args.len() - i,
{
    if i < 0 || i >= args.len() {
        Ok(st)
    } else {
        let a = args[i];
        if a == "--exposed"@ {
            dic_fold(args, i + 1, DicOptionsV { view: DicView::Exposed, ..st })
        } else if a == "--legacy"@ {
            dic_fold(args, i + 1, DicOptionsV { view: DicView::Legacy, ..st })
        } else if a == "--todo-ir"@ {
            dic_fold(args, i + 1, DicOptionsV { view: DicView::TodoIR, ..st })
        } else if a == "--unmapped"@ {
            dic_fold(args, i + 1, DicOptionsV { view: DicView::Unmapped, ..st })
        } else if a == "--check-resolve"@ {
            dic_fold(args, i + 1, DicOptionsV { view: DicView::CheckResolve, ..st })
        } else if a == "--planned"@ {
            dic_fold(args, i + 1, DicOptionsV { view: DicView::Planned, ..st })
        } else if a == "--matrix"@ {
            dic_fold(args, i + 1, DicOptionsV { view: DicView::Matrix, ..st })
        } else if a == "--no-yaml"@ {
            dic_fold(args, i + 1, DicOptionsV { no_yaml: true, ..st })
        } else if a == "--json"@ {
            dic_fold(args, i + 1, DicOptionsV { format: OutputFormat::Json, ..st })
        } else if a == "--grep"@ {
            if i + 1 >= args.len() {
                Err(DicArgErrorV::MissingGrepPattern)
            } else {
                dic_fold(args, i + 2, DicOptionsV { grep: Some(args[i + 1]), ..st })
            }
        } else {
            Err(DicArgErrorV::UnknownOption(a))
        }
    }
}

fn is_view_flag_exec(a: &str) -> (b: bool)
    ensures
        b == is_view_flag(a@),
{
    str_eq(a, "--exposed") || str_eq(a, "--legacy") || str_eq(a, "--todo-ir") || str_eq(a, "--unmapped")
        || str_eq(a, "--check-resolve") || str_eq(a, "--planned") || str_eq(a, "--matrix")
}

/// Read the options of `blisp dic ...` (the arguments after the program name
/// and `dic`).
pub fn parse_dic_options(args: &[String]) -> (r: Result<DicOptions, DicArgError>)
    ensures
        match dic_fold(args@.map_values(|a: String| a@), 2, dic_defaults(args@.map_values(|a: String| a@))) {
            Ok(o) => (r matches Ok(opts) && opts.view_v() == o),
            Err(e) => (r matches Err(err) && err.view_v() == e),
        },
{
    let ghost av = args@.map_values(|a: String| a@);
    let mut any_view = false;
    let mut k: usize = 2;
    while k < args.len()
        invariant
            av == args@.map_values(|a: String| a@),
            2 <= k,
            any_view == exists|j: int| 2 <= j < k && j < av.len() && is_view_flag(#[trigger] av[j]),
        decreases args@.len() - k,
    {
        if is_view_flag_exec(args[k].as_str()) {
            assert(is_view_flag(av[k as int]));
            any_view = true;
        }
        k += 1;
    }
    assert(any_view == has_view_flag(av));
    let mut view = if any_view { DicView::All } else { DicView::Matrix };
    let mut format = OutputFormat::Table;
    let mut grep: Option<String> = None;
    let mut no_yaml = !any_view;
    let ghost goal = dic_fold(av, 2, dic_defaults(av));
    let mut i: usize = 2;
    while i < args.len()
        invariant
            av == args@.map_values(|a: String| a@),
            2 <= i,
            goal == dic_fold(av, 2, dic_defaults(av)),
            goal == dic_fold(av, i as int, DicOptionsV {
                view,
                format,
                grep: match grep {
                    Some(g) => Some(g@),
                    None => None,
                },
                no_yaml,
            }),
        decreases args@.len() - i,
    {
        let a = args[i].as_str();
        assert(av[i as int] == a@);
        if str_eq(a, "--exposed") {
            view = DicView::Exposed;
        } else if str_eq(a, "--legacy") {
            view = DicView::Legacy;
        } else if str_eq(a, "--todo-ir") {
            view = DicView::TodoIR;
        } else if str_eq(a, "--unmapped") {
            view = DicView::Unmapped;
        } else if str_eq(a, "--check-resolve") {
            view = DicView::CheckResolve;
        } else if str_eq(a, "--planned") {
            view = DicView::Planned;
        } else if str_eq(a, "--matrix") {
            view = DicView::Matrix;
        } else if str_eq(a, "--no-yaml") {
            no_yaml = true;
        } else if str_eq(a, "--json") {
            format = OutputFormat::Json;
        } else if str_eq(a, "--grep") {
            if i + 1 >= args.len() {
                return Err(DicArgError::MissingGrepPattern);
            }
            assert(av[i + 1] == args@[i + 1]@);
            grep = Some(args[i + 1].clone());
            i += 2;
            continue;
        } else {
            return Err(DicArgError::UnknownOption(String::from_str(a)));
        }
        i += 1;
    }
    Ok(DicOptions { view, format, grep, no_yaml })
}

} // verus!
