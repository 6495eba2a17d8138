//! Builtin functions: integer arithmetic, absolute value, type names and
//! lengths, and the table builtins that pick, list, select and replace
//! columns. (The floating-point and column kernels of the numeric builtins
//! live with the numeric engine, outside this crate.)

use vstd::prelude::*;
use crate::value::Value;
use crate::text::concat3;
use crate::fmt::{decimal, push_decimal};

verus! {

impl Value {
    /// The name of a value's kind.
    pub open spec fn spec_kind_name(self) -> Seq<char> {
        match self {
            Value::Nil => "nil"@,
            Value::Bool(_) => "bool"@,
            Value::Int(_) => "int"@,
            Value::Str(_) => "string"@,
            Value::Sym(_) => "symbol"@,
            Value::Col(_) => "column"@,
            Value::List(_) => "list"@,
            Value::Table(_) => "table"@,
        }
    }

    /// The name of a value's kind.
    pub fn kind_name(&self) -> (s: &'static str)
        ensures
            s@ == self.spec_kind_name(),
    {
        match self {
            Value::Nil => "nil",
            Value::Bool(_) => "bool",
            Value::Int(_) => "int",
            Value::Str(_) => "string",
            Value::Sym(_) => "symbol",
            Value::Col(_) => "column",
            Value::List(_) => "list",
            Value::Table(_) => "table",
        }
    }
}

/// "`op` expects `want`, got `n`".
pub open spec fn arity_message(op: Seq<char>, want: Seq<char>, n: nat) -> Seq<char> {
    op + " expects "@ + want + ", got "@ + decimal(n)
}

/// "`op` cannot `verb` `a` and `b`" for the type names of two values.
pub open spec fn type_message(op: Seq<char>, verb: Seq<char>, a: Value, b: Value) -> Seq<char> {
    op + " cannot "@ + verb + " "@ + a.spec_kind_name() + " and "@ + b.spec_kind_name()
}

pub(crate) fn arity_error(op: &str, want: &str, n: usize) -> (m: String)
    ensures
        m@ == arity_message(op@, want@, n as nat),
{
    let mut m = concat3(op, " expects ", want);
    m.append(", got ");
    push_decimal(&mut m, n as u64);
    m
}

pub(crate) fn type_error(op: &str, verb: &str, a: &Value, b: &Value) -> (m: String)
    ensures
        m@ == type_message(op@, verb@, *a, *b),
{
    let mut m = concat3(op, " cannot ", verb);
    m.append(" ");
    m.append(a.kind_name());
    m.append(" and ");
    m.append(b.kind_name());
    m
}

/// Whether two values are integers whose `op` result fits in an `i64`.
pub open spec fn int_op_fits(args: Seq<Value>, op: int) -> bool {
    args.len() == 2 && args[0] is Int && args[1] is Int ==> {
        let (a, b) = (args[0]->Int_0 as int, args[1]->Int_0 as int);
        let r = if op == 0 {
            a + b
        } else if op == 1 {
            a - b
        } else {
            a * b
        };
        i64::MIN <= r <= i64::MAX
    }
}

/// (+ a b) - Addition of two integers.
pub fn builtin_add(args: &[Value]) -> (r: Result<Value, String>)
    requires
        int_op_fits(args@, 0),
    ensures
        args@.len() != 2 ==> (r matches Err(e) && e@ == arity_message("+"@, "2 arguments"@, args@.len())),
        args@.len() == 2 ==> match (args@[0], args@[1]) {
            (Value::Int(a), Value::Int(b)) => r == Ok::<Value, String>(Value::Int((a + b) as i64)),
            (a, b) => (r matches Err(e) && e@ == type_message("+"@, "add"@, a, b)),
        },
{
    if args.len() != 2 {
        return Err(arity_error("+", "2 arguments", args.len()));
    }
    match (&args[0], &args[1]) {
        (Value::Int(a), Value::Int(b)) => Ok(Value::Int(*a + *b)),
        _ => Err(type_error("+", "add", &args[0], &args[1])),
    }
}

/// (- a b) - Subtraction of two integers.
pub fn builtin_sub(args: &[Value]) -> (r: Result<Value, String>)
    requires
        int_op_fits(args@, 1),
    ensures
        args@.len() != 2 ==> (r matches Err(e) && e@ == arity_message("-"@, "2 arguments"@, args@.len())),
        args@.len() == 2 ==> match (args@[0], args@[1]) {
            (Value::Int(a), Value::Int(b)) => r == Ok::<Value, String>(Value::Int((a - b) as i64)),
            (a, b) => (r matches Err(e) && e@ == type_message("-"@, "subtract"@, a, b)),
        },
{
    if args.len() != 2 {
        return Err(arity_error("-", "2 arguments", args.len()));
    }
    match (&args[0], &args[1]) {
        (Value::Int(a), Value::Int(b)) => Ok(Value::Int(*a - *b)),
        _ => Err(type_error("-", "subtract", &args[0], &args[1])),
    }
}

/// (* a b) - Multiplication of two integers.
pub fn builtin_mul(args: &[Value]) -> (r: Result<Value, String>)
    requires
        int_op_fits(args@, 2),
    ensures
        args@.len() != 2 ==> (r matches Err(e) && e@ == arity_message("*"@, "2 arguments"@, args@.len())),
        args@.len() == 2 ==> match (args@[0], args@[1]) {
            (Value::Int(a), Value::Int(b)) => r == Ok::<Value, String>(Value::Int((a * b) as i64)),
            (a, b) => (r matches Err(e) && e@ == type_message("*"@, "multiply"@, a, b)),
        },
{
    if args.len() != 2 {
        return Err(arity_error("*", "2 arguments", args.len()));
    }
    match (&args[0], &args[1]) {
        (Value::Int(a), Value::Int(b)) => Ok(Value::Int(*a * *b)),
        _ => Err(type_error("*", "multiply", &args[0], &args[1])),
    }
}

/// (abs x) - Absolute value of an integer (`i64::MIN` has none).
pub fn builtin_abs(args: &[Value]) -> (r: Result<Value, String>)
    requires
        args@.len() == 1 && args@[0] is Int ==> args@[0]->Int_0 != i64::MIN,
    ensures
        args@.len() != 1 ==> (r matches Err(e) && e@ == arity_message("abs"@, "1 argument"@, args@.len())),
        args@.len() == 1 ==> match args@[0] {
            Value::Int(n) => r == Ok::<Value, String>(Value::Int((if n < 0 { -n } else { n as int }) as i64)),
            v => (r matches Err(e) && e@ == "abs cannot operate on "@ + v.spec_kind_name()),
        },
{
    if args.len() != 1 {
        return Err(arity_error("abs", "1 argument", args.len()));
    }
    match &args[0] {
        Value::Int(n) => Ok(Value::Int(if *n < 0 { -*n } else { *n })),
        v => {
            let mut m = String::from_str("abs cannot operate on ");
            m.append(v.kind_name());
            Err(m)
        },
    }
}

/// (type-of x) - The name of a value's kind.
pub fn builtin_type_of(args: &[Value]) -> (r: Result<Value, String>)
    ensures
        args@.len() != 1 ==> (r matches Err(e) && e@ == arity_message("type-of"@, "1 argument"@, args@.len())),
        args@.len() == 1 ==> (r matches Ok(Value::Str(s)) && s@ == args@[0].spec_kind_name()),
{
    if args.len() != 1 {
        return Err(arity_error("type-of", "1 argument", args.len()));
    }
    Ok(Value::Str(String::from_str(args[0].kind_name())))
}

/// (len x) - The number of cells of a column, the number of rows of a table,
/// or the length of a string in bytes.
pub fn builtin_len(args: &[Value]) -> (r: Result<Value, String>)
    ensures
        args@.len() != 1 ==> (r matches Err(e) && e@ == arity_message("len"@, "1 argument"@, args@.len())),
        args@.len() == 1 ==> match args@[0] {
            Value::Str(s) => r == Ok::<Value, String>(
                Value::Int((vstd::utf8::encode_utf8(s@).len() as usize) as i64),
            ),
            Value::Table(t) => r == Ok::<Value, String>(Value::Int(t.row_count as i64)),
            Value::Col(c) => r == Ok::<Value, String>(Value::Int(c.spec_len() as i64)),
            v => (r matches Err(e) && e@ == "len cannot get length of "@ + v.spec_kind_name()),
        },
{
    if args.len() != 1 {
        return Err(arity_error("len", "1 argument", args.len()));
    }
    match &args[0] {
        Value::Col(c) => Ok(Value::Int(c.len() as i64)),
        Value::Table(t) => Ok(Value::Int(t.row_count as i64)),
        Value::Str(s) => Ok(Value::Int(s.as_str().len() as i64)),
        v => {
            let mut m = String::from_str("len cannot get length of ");
            m.append(v.kind_name());
            Err(m)
        },
    }
}

/// The builtin functions of the runtime, one for each name it registers
/// (`Add` is `builtin_add`, and so on).
#[derive(Debug, Clone, Copy, PartialEq, Eq, Structural)]
pub enum Builtin {
    Add,
    Sub,
    Mul,
    Div,
    Log,
    Exp,
    Abs,
    Dlog,
    Shift,
    Diff,
    Sum,
    Sum0,
    Mean,
    Mean0,
    File,
    FileHead,
    Stdin,
    Save,
    Col,
    Setcol,
    Withcol,
    W,
    MakeCol,
    Cols,
    Select,
    SelectNum,
    MapCols,
    ApplyCols,
    DlogCols,
    ShiftCols,
    DiffCols,
    Gt,
    GtCols,
    Lt,
    Gte,
    Lte,
    Eq,
    Neq,
    Locf,
    LocfCols,
    KeepShape,
    KeepShapeCols,
    W5,
    Xminus,
    Cs1,
    Cs1Cols,
    Mapr,
    Ur,
    Wz0,
    Wz0Cols,
    Print,
    TypeOf,
    Len,
}

/// The registry of the builtins, in the order they are registered: each name
/// with the builtin that runs for it. Arithmetic, math, column operations,
/// aggregations, input/output, table operations, comparisons, shape and null
/// operations, table transforms, joins and finance operations, and utilities.
pub open spec fn builtin_table() -> Seq<(Seq<char>, Builtin)> {
    seq![
        ("+"@, Builtin::Add),
        ("-"@, Builtin::Sub),
        ("*"@, Builtin::Mul),
        ("/"@, Builtin::Div),
        ("log"@, Builtin::Log),
        ("exp"@, Builtin::Exp),
        ("abs"@, Builtin::Abs),
        ("dlog"@, Builtin::Dlog),
        ("shift"@, Builtin::Shift),
        ("diff"@, Builtin::Diff),
        ("sum"@, Builtin::Sum),
        ("sum0"@, Builtin::Sum0),
        ("mean"@, Builtin::Mean),
        ("mean0"@, Builtin::Mean0),
        ("file"@, Builtin::File),
        ("file-head"@, Builtin::FileHead),
        ("stdin"@, Builtin::Stdin),
        ("save"@, Builtin::Save),
        ("col"@, Builtin::Col),
        ("setcol"@, Builtin::Setcol),
        ("withcol"@, Builtin::Withcol),
        ("w"@, Builtin::W),
        ("make-col"@, Builtin::MakeCol),
        ("cols"@, Builtin::Cols),
        ("select"@, Builtin::Select),
        ("select-num"@, Builtin::SelectNum),
        ("map-cols"@, Builtin::MapCols),
        ("apply-cols"@, Builtin::ApplyCols),
        ("dlog-cols"@, Builtin::DlogCols),
        ("shift-cols"@, Builtin::ShiftCols),
        ("diff-cols"@, Builtin::DiffCols),
        (">"@, Builtin::Gt),
        (">-cols"@, Builtin::GtCols),
        ("<"@, Builtin::Lt),
        (">="@, Builtin::Gte),
        ("<="@, Builtin::Lte),
        ("=="@, Builtin::Eq),
        ("!="@, Builtin::Neq),
        ("locf"@, Builtin::Locf),
        ("locf-cols"@, Builtin::LocfCols),
        ("keep-shape"@, Builtin::KeepShape),
        ("keep-shape-cols"@, Builtin::KeepShapeCols),
        ("w5"@, Builtin::W5),
        ("xminus"@, Builtin::Xminus),
        ("cs1"@, Builtin::Cs1),
        ("cs1-cols"@, Builtin::Cs1Cols),
        ("mapr"@, Builtin::Mapr),
        ("ur"@, Builtin::Ur),
        ("wz0"@, Builtin::Wz0),
        ("wz0-cols"@, Builtin::Wz0Cols),
        ("print"@, Builtin::Print),
        ("type-of"@, Builtin::TypeOf),
        ("len"@, Builtin::Len),
    ]
}

/// A registry entry as a pair of plain values.
pub open spec fn entries_view(v: Seq<(String, Builtin)>) -> Seq<(Seq<char>, Builtin)> {
    v.map_values(|e: (String, Builtin)| (e.0@, e.1))
}

/// Register every builtin, each name with the builtin that runs for it, in
/// order, after the entries already in the registry.
pub fn register_builtins(registry: &mut Vec<(String, Builtin)>)
    ensures
        entries_view(final(registry)@) == entries_view(old(registry)@) + builtin_table(),
{
    let all: Vec<(&'static str, Builtin)> = vec![
        ("+", Builtin::Add),
        ("-", Builtin::Sub),
        ("*", Builtin::Mul),
        ("/", Builtin::Div),
        ("log", Builtin::Log),
        ("exp", Builtin::Exp),
        ("abs", Builtin::Abs),
        ("dlog", Builtin::Dlog),
        ("shift", Builtin::Shift),
        ("diff", Builtin::Diff),
        ("sum", Builtin::Sum),
        ("sum0", Builtin::Sum0),
        ("mean", Builtin::Mean),
        ("mean0", Builtin::Mean0),
        ("file", Builtin::File),
        ("file-head", Builtin::FileHead),
        ("stdin", Builtin::Stdin),
        ("save", Builtin::Save),
        ("col", Builtin::Col),
        ("setcol", Builtin::Setcol),
        ("withcol", Builtin::Withcol),
        ("w", Builtin::W),
        ("make-col", Builtin::MakeCol),
        ("cols", Builtin::Cols),
        ("select", Builtin::Select),
        ("select-num", Builtin::SelectNum),
        ("map-cols", Builtin::MapCols),
        ("apply-cols", Builtin::ApplyCols),
        ("dlog-cols", Builtin::DlogCols),
        ("shift-cols", Builtin::ShiftCols),
        ("diff-cols", Builtin::DiffCols),
        (">", Builtin::Gt),
        (">-cols", Builtin::GtCols),
        ("<", Builtin::Lt),
        (">=", Builtin::Gte),
        ("<=", Builtin::Lte),
        ("==", Builtin::Eq),
        ("!=", Builtin::Neq),
        ("locf", Builtin::Locf),
        ("locf-cols", Builtin::LocfCols),
        ("keep-shape", Builtin::KeepShape),
        ("keep-shape-cols", Builtin::KeepShapeCols),
        ("w5", Builtin::W5),
        ("xminus", Builtin::Xminus),
        ("cs1", Builtin::Cs1),
        ("cs1-cols", Builtin::Cs1Cols),
        ("mapr", Builtin::Mapr),
        ("ur", Builtin::Ur),
        ("wz0", Builtin::Wz0),
        ("wz0-cols", Builtin::Wz0Cols),
        ("print", Builtin::Print),
        ("type-of", Builtin::TypeOf),
        ("len", Builtin::Len),
    ];
    assert(all@.map_values(|e: (&str, Builtin)| (e.0@, e.1)) =~= builtin_table());
    let ghost start = entries_view(registry@);
    let mut i: usize = 0;
    while i < all.len()
        invariant
            i <= all@.len(),
            all@.map_values(|e: (&str, Builtin)| (e.0@, e.1)) == builtin_table(),
            entries_view(registry@) == start + builtin_table().take(i as int),
        decreases all@.len() - i,
    {
        let ghost before = registry@;
        let (name, b) = all[i];
        registry.push((String::from_str(name), b));
        assert(entries_view(registry@) =~= entries_view(before).push((all@[i as int].0@, all@[i as int].1)));
        assert(builtin_table().take(i + 1) =~= builtin_table().take(i as int).push(
            (all@[i as int].0@, all@[i as int].1),
        ));
        i += 1;
    }
    assert(builtin_table().take(all@.len() as int) =~= builtin_table());
}

/// The names the runtime registers builtins under.
pub open spec fn builtin_names() -> Seq<Seq<char>> {
    builtin_table().map_values(|e: (Seq<char>, Builtin)| e.0)
}

/// Whether the runtime registers a builtin under `name`.
pub fn is_registered_builtin(name: &str) -> (r: bool)
    ensures
        r == builtin_names().contains(name@),
{
    let mut entries: Vec<(String, Builtin)> = Vec::new();
    register_builtins(&mut entries);
    assert(entries_view(entries@) =~= builtin_table());
    let mut i: usize = 0;
    while i < entries.len()
        invariant
            i <= entries@.len(),
            entries_view(entries@) == builtin_table(),
            forall|j: int| 0 <= j < i ==> builtin_names()[j] != name@,
        decreases entries@.len() - i,
    {
        assert(entries_view(entries@)[i as int] == (entries@[i as int].0@, entries@[i as int].1));
        if crate::text::str_eq(entries[i].0.as_str(), name) {
            assert(builtin_names()[i as int] == name@);
            return true;
        }
        i += 1;
    }
    proof {
        if builtin_names().contains(name@) {
            let j = choose|j: int| 0 <= j < builtin_names().len() && builtin_names()[j] == name@;
            assert(false);
        }
    }
    false
}

} // verus!
