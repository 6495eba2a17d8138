//! The table builtins: picking a column by name or by position, listing the
//! column names, selecting columns and replacing or adding a column.
//!
//! A table names its columns by symbols; a name given to a builtin is matched
//! against what the interner resolves each column's symbol to.

use vstd::prelude::*;
use std::sync::Arc;
use crate::ast::{Interner, SymbolId, spec_intern, no_dups};
use crate::value::{Value, Column, ColumnV, Table};
use crate::builtins::{
    Builtin, arity_message, arity_error, builtin_abs, builtin_add, builtin_len, builtin_mul, builtin_sub,
    builtin_type_of, int_op_fits, builtin_table,
};
use crate::ir::spelling_arith;
use crate::csv_table::{first_index, lemma_first_index_bounds};
use crate::text::{str_eq, concat3};
use crate::fmt::{decimal, push_decimal};

verus! {

/// The names of a table's columns, as the interner resolves their symbols.
pub open spec fn column_names(t: Table, names: Seq<Seq<char>>) -> Seq<Seq<char>> {
    t.columns@.map_values(|c: (SymbolId, Column)| names[c.0.0 as int])
}

/// Every column of the table is named by an interned symbol.
pub open spec fn interned_columns(t: Table, names: Seq<Seq<char>>) -> bool {
    forall|i: int| 0 <= i < t.columns@.len() ==> (#[trigger] t.columns@[i]).0.0 < names.len()
}

/// The name a value stands for: a symbol's text, or a string.
pub open spec fn name_of(v: Value, names: Seq<Seq<char>>) -> Option<Seq<char>> {
    match v {
        Value::Sym(id) => Some(names[id.0 as int]),
        Value::Str(s) => Some(s@),
        _ => None,
    }
}

/// A symbol argument is interned.
pub open spec fn sym_interned(v: Value, names: Seq<Seq<char>>) -> bool {
    v is Sym ==> v->Sym_0.0 < names.len()
}

/// The error for a value that should have been a table.
pub open spec fn expected_table_message(v: Value) -> Seq<char> {
    "Expected table, got "@ + v.spec_kind_name()
}

/// The error for a value that should have been an integer.
pub open spec fn expected_int_message(v: Value) -> Seq<char> {
    "Expected int, got "@ + v.spec_kind_name()
}

/// The error for a value that should have been a column.
pub open spec fn expected_column_message(v: Value) -> Seq<char> {
    "Expected column, got "@ + v.spec_kind_name()
}

/// The error for a column name that the table lacks.
pub open spec fn not_found_message(name: Seq<char>) -> Seq<char> {
    "Column '"@ + name + "' not found in table"@
}

/// A copy of a column, cell for cell.
pub fn copy_column(c: &Column) -> (r: Column)
    ensures
        r@ == c@,
{
    match c {
        Column::Numeric(v) => {
            let mut out: Vec<String> = Vec::new();
            let mut i: usize = 0;
            while i < v.len()
                invariant
                    i <= v@.len(),
                    out@ == v@.subrange(0, i as int),
                decreases v@.len() - i,
            {
                out.push(v[i].clone());
                i += 1;
            }
            assert(out@ =~= v@);
            Column::Numeric(out)
        },
        Column::Date(v) => {
            let mut out: Vec<i32> = Vec::new();
            let mut i: usize = 0;
            while i < v.len()
                invariant
                    i <= v@.len(),
                    out@ == v@.subrange(0, i as int),
                decreases v@.len() - i,
            {
                out.push(v[i]);
                i += 1;
            }
            assert(out@ =~= v@);
            Column::Date(out)
        },
        Column::Timestamp(v) => {
            let mut out: Vec<i64> = Vec::new();
            let mut i: usize = 0;
            while i < v.len()
                invariant
                    i <= v@.len(),
                    out@ == v@.subrange(0, i as int),
                decreases v@.len() - i,
            {
                out.push(v[i]);
                i += 1;
            }
            assert(out@ =~= v@);
            Column::Timestamp(out)
        },
    }
}

/// The table a value holds, or the error for a value that is no table.
fn table_arg(v: &Value) -> (r: Result<&Table, String>)
    ensures
        match *v {
            Value::Table(t) => r matches Ok(tr) && *tr == *t,
            _ => r matches Err(e) && e@ == expected_table_message(*v),
        },
{
    match v {
        Value::Table(t) => Ok(&**t),
        _ => {
            let mut m = String::from_str("Expected table, got ");
            m.append(v.kind_name());
            Err(m)
        },
    }
}

/// The name a symbol or string argument stands for.
fn name_arg(v: &Value, interner: &Interner) -> (r: Option<String>)
    requires
        sym_interned(*v, interner@),
    ensures
        match name_of(*v, interner@) {
            Some(n) => r matches Some(s) && s@ == n,
            None => r is None,
        },
{
    match v {
        Value::Sym(id) => Some(String::from_str(interner.resolve(*id))),
        Value::Str(s) => Some(String::from_str(s.as_str())),
        _ => None,
    }
}

/// The position of the first column whose name is `name`.
fn column_position(t: &Table, interner: &Interner, name: &str) -> (r: Option<usize>)
    requires
        interned_columns(*t, interner@),
    ensures
        match r {
            Some(i) => first_index(column_names(*t, interner@), name@, 0) == Some(i as int),
            None => first_index(column_names(*t, interner@), name@, 0) is None,
        },
{
    let ghost nv = column_names(*t, interner@);
    let mut i: usize = 0;
    while i < t.columns.len()
        invariant
            i <= t.columns@.len(),
            interned_columns(*t, interner@),
            nv == column_names(*t, interner@),
            first_index(nv, name@, 0) == first_index(nv, name@, i as int),
        decreases t.columns@.len() - i,
    {
        let sym = t.columns[i].0;
        if str_eq(interner.resolve(sym), name) {
            assert(nv[i as int] == name@);
            return Some(i);
        }
        i += 1;
    }
    None
}

/// (col table name) - The first column of a table whose name is the given
/// symbol's or string's.
pub fn builtin_col(args: &[Value], interner: &Interner) -> (r: Result<Value, String>)
    requires
        args@.len() == 2 && args@[0] is Table ==> interned_columns(*args@[0]->Table_0, interner@),
        args@.len() == 2 ==> sym_interned(args@[1], interner@),
    ensures
        args@.len() != 2 ==> (r matches Err(e) && e@ == arity_message(
            "col"@,
            "2 arguments (table colname)"@,
            args@.len(),
        )),
        args@.len() == 2 ==> match args@[0] {
            Value::Table(t) => match name_of(args@[1], interner@) {
                None => (r matches Err(e) && e@ == "col expects symbol or string column name, got "@
                    + args@[1].spec_kind_name()),
                Some(name) => match first_index(column_names(*t, interner@), name, 0) {
                    None => (r matches Err(e) && e@ == not_found_message(name)),
                    Some(i) => (r matches Ok(Value::Col(c)) && c@ == t.columns@[i].1@),
                },
            },
            v => (r matches Err(e) && e@ == expected_table_message(v)),
        },
{
    if args.len() != 2 {
        return Err(arity_error("col", "2 arguments (table colname)", args.len()));
    }
    let t = table_arg(&args[0])?;
    let name = match name_arg(&args[1], interner) {
        Some(n) => n,
        None => {
            let mut m = String::from_str("col expects symbol or string column name, got ");
            m.append(args[1].kind_name());
            return Err(m);
        },
    };
    let pos = column_position(t, interner, name.as_str());
    proof {
        lemma_first_index_bounds(column_names(*t, interner@), name@, 0);
    }
    match pos {
        Some(i) => Ok(Value::Col(Arc::new(copy_column(&t.columns[i].1)))),
        None => Err(concat3("Column '", name.as_str(), "' not found in table")),
    }
}

/// The error for a column position past the end of a table.
pub open spec fn index_message(index: nat, ncols: nat) -> Seq<char> {
    "Column index "@ + decimal(index) + " out of bounds (table has "@ + decimal(ncols) + " columns)"@
}

/// (w table index) - The column at a position (counted from 0); a negative
/// position wraps to a large one, past any table's end.
pub fn builtin_w(args: &[Value]) -> (r: Result<Value, String>)
    ensures
        args@.len() != 2 ==> (r matches Err(e) && e@ == arity_message(
            "w"@,
            "2 arguments (table index)"@,
            args@.len(),
        )),
        args@.len() == 2 ==> match (args@[0], args@[1]) {
            (Value::Table(t), Value::Int(n)) => {
                let index = n as usize;
                if index < t.columns@.len() {
                    r matches Ok(Value::Col(c)) && c@ == t.columns@[index as int].1@
                } else {
                    r matches Err(e) && e@ == index_message(index as nat, t.columns@.len())
                }
            },
            (Value::Table(_), v) => (r matches Err(e) && e@ == expected_int_message(v)),
            (v, _) => (r matches Err(e) && e@ == expected_table_message(v)),
        },
{
    if args.len() != 2 {
        return Err(arity_error("w", "2 arguments (table index)", args.len()));
    }
    let t = table_arg(&args[0])?;
    let n = match &args[1] {
        Value::Int(n) => *n,
        v => {
            let mut m = String::from_str("Expected int, got ");
            m.append(v.kind_name());
            return Err(m);
        },
    };
    let index = n as usize;
    if index >= t.columns.len() {
        let mut m = String::from_str("Column index ");
        push_decimal(&mut m, index as u64);
        m.append(" out of bounds (table has ");
        push_decimal(&mut m, t.columns.len() as u64);
        m.append(" columns)");
        return Err(m);
    }
    Ok(Value::Col(Arc::new(copy_column(&t.columns[index].1))))
}

/// (cols table) - The names of a table's columns, in order, as strings.
pub fn builtin_cols(args: &[Value], interner: &Interner) -> (r: Result<Value, String>)
    requires
        args@.len() == 1 && args@[0] is Table ==> interned_columns(*args@[0]->Table_0, interner@),
    ensures
        args@.len() != 1 ==> (r matches Err(e) && e@ == arity_message("cols"@, "1 argument"@, args@.len())),
        args@.len() == 1 ==> match args@[0] {
            Value::Table(t) => {
                &&& r matches Ok(Value::List(l))
                &&& l@.len() == t.columns@.len()
                &&& forall|i: int| 0 <= i < t.columns@.len()
                    ==> (#[trigger] l@[i] matches Value::Str(s) && s@ == column_names(*t, interner@)[i])
            },
            v => (r matches Err(e) && e@ == expected_table_message(v)),
        },
{
    if args.len() != 1 {
        return Err(arity_error("cols", "1 argument", args.len()));
    }
    let t = table_arg(&args[0])?;
    let mut out: Vec<Value> = Vec::new();
    let mut i: usize = 0;
    while i < t.columns.len()
        invariant
            i <= t.columns@.len(),
            interned_columns(*t, interner@),
            out@.len() == i,
            forall|k: int| 0 <= k < i
                ==> (#[trigger] out@[k] matches Value::Str(s) && s@ == column_names(*t, interner@)[k]),
        decreases t.columns@.len() - i,
    {
        let name = String::from_str(interner.resolve(t.columns[i].0));
        out.push(Value::Str(name));
        i += 1;
    }
    Ok(Value::List(Arc::new(out)))
}

/// A table's columns, each as its symbol and what it holds.
pub open spec fn columns_view(cols: Seq<(SymbolId, Column)>) -> Seq<(SymbolId, ColumnV)> {
    cols.map_values(|c: (SymbolId, Column)| (c.0, c.1@))
}

/// The number of cells a column holds.
pub open spec fn view_len(c: ColumnV) -> nat {
    match c {
        ColumnV::Numeric(v) => v.len(),
        ColumnV::Date(v) => v.len(),
        ColumnV::Timestamp(v) => v.len(),
    }
}

/// The first column from position `j` on whose symbol is `sym`.
pub open spec fn first_sym(cols: Seq<(SymbolId, Column)>, sym: SymbolId, j: int) -> Option<int>
    decreases cols.len() - j,
{
    if j < 0 || j >= cols.len() {
        None
    } else if cols[j].0 == sym {
        Some(j)
    } else {
        first_sym(cols, sym, j + 1)
    }
}

proof fn lemma_first_sym_bounds(cols: Seq<(SymbolId, Column)>, sym: SymbolId, j: int)
    requires
        0 <= j,
    ensures
        first_sym(cols, sym, j) matches Some(p) ==> j <= p < cols.len() && cols[p].0 == sym,
    decreases cols.len() - j,
{
    if j < cols.len() && cols[j].0 != sym {
        lemma_first_sym_bounds(cols, sym, j + 1);
    }
}

/// The position of the first column whose symbol is `sym`.
fn column_with_symbol(t: &Table, sym: SymbolId) -> (r: Option<usize>)
    ensures
        match r {
            Some(i) => first_sym(t.columns@, sym, 0) == Some(i as int) && i < t.columns@.len(),
            None => first_sym(t.columns@, sym, 0) is None,
        },
{
    let mut i: usize = 0;
    while i < t.columns.len()
        invariant
            i <= t.columns@.len(),
            first_sym(t.columns@, sym, 0) == first_sym(t.columns@, sym, i as int),
        decreases t.columns@.len() - i,
    {
        if t.columns[i].0.0 == sym.0 {
            return Some(i);
        }
        i += 1;
    }
    None
}

/// Selecting, from `cols`, the columns named by the arguments from position
/// `i` on, each name interned in turn into `names`, after the columns `acc`
/// already selected: the interner's table afterwards, and the selected
/// columns or the error that stopped the selection.
pub open spec fn select_from(
    cols: Seq<(SymbolId, Column)>,
    names: Seq<Seq<char>>,
    args: Seq<Value>,
    i: int,
    acc: Seq<(SymbolId, ColumnV)>,
) -> (Seq<Seq<char>>, Result<Seq<(SymbolId, ColumnV)>, Seq<char>>)
    decreases args.len() - i,
{
    if i < 0 || i >= args.len() {
        (names, Ok(acc))
    } else {
        match args[i] {
            Value::Str(s) => {
                let (n2, id) = spec_intern(names, s@);
                let sym = SymbolId(id as usize);
                match first_sym(cols, sym, 0) {
                    None => (n2, Err("select: column '"@ + s@ + "' not found"@)),
                    Some(j) => select_from(cols, n2, args, i + 1, acc.push((sym, cols[j].1@))),
                }
            },
            _ => (names, Err("select: column names must be strings"@)),
        }
    }
}

/// (select table name ...) - A table of the named columns, in the order named;
/// each name is interned as it is looked up.
pub fn builtin_select(args: &[Value], interner: &mut Interner) -> (r: Result<Value, String>)
    requires
        old(interner).wf(),
    ensures
        final(interner).wf(),
        args@.len() < 2 ==> {
            &&& r matches Err(e)
            &&& e@ == arity_message("select"@, "at least 2 arguments (table + column names)"@, args@.len())
            &&& final(interner)@ == old(interner)@
        },
        args@.len() >= 2 ==> match args@[0] {
            Value::Table(t) => {
                let (n, res) = select_from(t.columns@, old(interner)@, args@, 1, Seq::empty());
                &&& final(interner)@ == n
                &&& match res {
                    Ok(cs) => {
                        &&& r matches Ok(Value::Table(nt))
                        &&& columns_view(nt.columns@) == cs
                        &&& nt.row_count == view_len(cs.last().1)
                    },
                    Err(m) => (r matches Err(e) && e@ == m),
                }
            },
            v => (r matches Err(e) && e@ == expected_table_message(v) && final(interner)@ == old(interner)@),
        },
{
    if args.len() < 2 {
        return Err(arity_error("select", "at least 2 arguments (table + column names)", args.len()));
    }
    let t = table_arg(&args[0])?;
    let ghost cols = t.columns@;
    let ghost goal = select_from(cols, interner@, args@, 1, Seq::empty());
    let mut new_table = Table::new();
    assert(columns_view(new_table.columns@) =~= Seq::<(SymbolId, ColumnV)>::empty());
    let mut i: usize = 1;
    while i < args.len()
        invariant
            1 <= i <= args@.len(),
            cols == t.columns@,
            args@[0] matches Value::Table(tt) && *tt == *t,
            goal == select_from(cols, old(interner)@, args@, 1, Seq::empty()),
            interner.wf(),
            goal == select_from(cols, interner@, args@, i as int, columns_view(new_table.columns@)),
            new_table.columns@.len() == i - 1,
            i > 1 ==> new_table.row_count == view_len(columns_view(new_table.columns@).last().1),
        decreases args@.len() - i,
    {
        match &args[i] {
            Value::Str(s) => {
                let ghost n0 = interner@;
                let ghost acc = columns_view(new_table.columns@);
                let sym = interner.intern(s.as_str());
                let found = column_with_symbol(t, sym);
                proof {
                    assert(args@[i as int] == Value::Str(*s));
                    assert(SymbolId((sym.0 as int) as usize) == sym);
                    match found {
                        Some(j) => {
                            assert(goal == select_from(cols, interner@, args@, i + 1, acc.push((sym, cols[j as int].1@))));
                        },
                        None => {
                            assert(select_from(cols, n0, args@, i as int, acc) == (
                                interner@,
                                Err::<Seq<(SymbolId, ColumnV)>, Seq<char>>("select: column '"@ + s@ + "' not found"@),
                            ));
                        },
                    }
                }
                match found {
                    Some(j) => {
                        let col = copy_column(&t.columns[j].1);
                        let ghost before = new_table.columns@;
                        new_table.add_column(sym, col);
                        assert(columns_view(new_table.columns@) =~= columns_view(before).push((sym, col@)));
                    },
                    None => {
                        return Err(concat3("select: column '", s.as_str(), "' not found"));
                    },
                }
            },
            _ => {
                assert(!(args@[i as int] is Str));
                return Err(String::from_str("select: column names must be strings"));
            },
        }
        i += 1;
    }
    Ok(Value::Table(Arc::new(new_table)))
}

/// The numeric columns, in order.
pub open spec fn numeric_columns(cols: Seq<(SymbolId, ColumnV)>) -> Seq<(SymbolId, ColumnV)>
    decreases cols.len(),
{
    if cols.len() == 0 {
        seq![]
    } else if cols.last().1 is Numeric {
        numeric_columns(cols.drop_last()).push(cols.last())
    } else {
        numeric_columns(cols.drop_last())
    }
}

/// `select-num` keeps exactly the numeric columns, in their order: its
/// columns are the input's columns filtered to the numeric ones, so every
/// column it gives is numeric and every numeric input column is in it.
pub proof fn law_select_num_keeps_numeric(cs: Seq<(SymbolId, ColumnV)>)
    ensures
        numeric_columns(cs) == cs.filter(|c: (SymbolId, ColumnV)| c.1 is Numeric),
        forall|i: int| 0 <= i < numeric_columns(cs).len() ==> (#[trigger] numeric_columns(cs)[i]).1 is Numeric,
        forall|j: int| 0 <= j < cs.len() && (#[trigger] cs[j]).1 is Numeric ==> numeric_columns(cs).contains(cs[j]),
    decreases cs.len(),
{
    reveal(Seq::filter);
    if cs.len() > 0 {
        law_select_num_keeps_numeric(cs.drop_last());
        let p = numeric_columns(cs.drop_last());
        assert forall|j: int| 0 <= j < cs.len() && (#[trigger] cs[j]).1 is Numeric implies numeric_columns(cs).contains(cs[j]) by {
            if j < cs.len() - 1 {
                assert(cs.drop_last()[j] == cs[j]);
                assert(p.contains(cs[j]));
                let k = choose|k: int| 0 <= k < p.len() && p[k] == cs[j];
                if cs.last().1 is Numeric {
                    assert(numeric_columns(cs)[k] == cs[j]);
                }
            } else {
                assert(numeric_columns(cs)[numeric_columns(cs).len() - 1] == cs[j]);
            }
        }
    }
}

/// (select-num table) - A table of the numeric columns only, in order.
pub fn builtin_select_num(args: &[Value]) -> (r: Result<Value, String>)
    ensures
        args@.len() != 1 ==> (r matches Err(e) && e@ == arity_message("select-num"@, "1 argument"@, args@.len())),
        args@.len() == 1 ==> match args@[0] {
            Value::Table(t) => {
                let cs = numeric_columns(columns_view(t.columns@));
                &&& r matches Ok(Value::Table(nt))
                &&& columns_view(nt.columns@) == cs
                &&& columns_view(nt.columns@) == columns_view(t.columns@).filter(
                    |c: (SymbolId, ColumnV)| c.1 is Numeric,
                )
                &&& nt.row_count == if cs.len() == 0 { 0 } else { view_len(cs.last().1) }
            },
            v => (r matches Err(e) && e@ == expected_table_message(v)),
        },
{
    if args.len() != 1 {
        return Err(arity_error("select-num", "1 argument", args.len()));
    }
    let t = table_arg(&args[0])?;
    let mut new_table = Table::new();
    let mut i: usize = 0;
    while i < t.columns.len()
        invariant
            i <= t.columns@.len(),
            columns_view(new_table.columns@) == numeric_columns(columns_view(t.columns@).take(i as int)),
            new_table.row_count == if new_table.columns@.len() == 0 {
                0
            } else {
                view_len(columns_view(new_table.columns@).last().1)
            },
        decreases t.columns@.len() - i,
    {
        let ghost before = new_table.columns@;
        assert(columns_view(t.columns@).take(i + 1).drop_last() =~= columns_view(t.columns@).take(i as int));
        match &t.columns[i].1 {
            Column::Numeric(_) => {
                let col = copy_column(&t.columns[i].1);
                new_table.add_column(t.columns[i].0, col);
                assert(columns_view(new_table.columns@) =~= columns_view(before).push((t.columns@[i as int].0, col@)));
            },
            _ => {},
        }
        i += 1;
    }
    assert(columns_view(t.columns@).take(t.columns@.len() as int) =~= columns_view(t.columns@));
    proof {
        law_select_num_keeps_numeric(columns_view(t.columns@));
    }
    Ok(Value::Table(Arc::new(new_table)))
}

/// The error for a column whose length differs from the table's.
pub open spec fn mismatch_message(rows: nat, len: nat) -> Seq<char> {
    "Column length mismatch: table has "@ + decimal(rows) + " rows, column has "@ + decimal(len)
}

/// The columns with every column named `name` replaced by `c`.
pub open spec fn replaced(
    cols: Seq<(SymbolId, ColumnV)>,
    names: Seq<Seq<char>>,
    name: Seq<char>,
    c: ColumnV,
) -> Seq<(SymbolId, ColumnV)> {
    Seq::new(cols.len(), |i: int| if names[i] == name { (cols[i].0, c) } else { cols[i] })
}

/// The symbol a new column gets, and the interner's table afterwards: the
/// symbol argument itself, or the string argument interned.
pub open spec fn new_symbol(v: Value, names: Seq<Seq<char>>) -> (Seq<Seq<char>>, SymbolId) {
    match v {
        Value::Str(s) => (spec_intern(names, s@).0, SymbolId(spec_intern(names, s@).1 as usize)),
        Value::Sym(id) => (names, id),
        _ => (names, SymbolId(0)),
    }
}

/// (setcol table name column) - The table with every column of that name
/// replaced by the given column, or with the column added at the end when no
/// column has that name. The column must have the table's number of rows,
/// unless the table has none.
pub fn builtin_setcol(args: &[Value], interner: &mut Interner) -> (r: Result<Value, String>)
    requires
        old(interner).wf(),
        args@.len() == 3 && args@[0] is Table ==> interned_columns(*args@[0]->Table_0, old(interner)@),
        args@.len() == 3 ==> sym_interned(args@[1], old(interner)@),
    ensures
        final(interner).wf(),
        args@.len() != 3 ==> {
            &&& r matches Err(e)
            &&& e@ == arity_message("setcol"@, "3 arguments (table colname column)"@, args@.len())
            &&& final(interner)@ == old(interner)@
        },
        args@.len() == 3 ==> match (args@[0], name_of(args@[1], old(interner)@), args@[2]) {
            (Value::Table(t), Some(name), Value::Col(c)) => {
                let names = column_names(*t, old(interner)@);
                let rows = if t.row_count > 0 { t.row_count as nat } else { c.spec_len() };
                if t.row_count > 0 && c.spec_len() != t.row_count {
                    &&& r matches Err(e)
                    &&& e@ == mismatch_message(t.row_count as nat, c.spec_len())
                    &&& final(interner)@ == old(interner)@
                } else if names.contains(name) {
                    &&& final(interner)@ == old(interner)@
                    &&& r matches Ok(Value::Table(nt))
                    &&& columns_view(nt.columns@) == replaced(columns_view(t.columns@), names, name, c@)
                    &&& nt.row_count == rows
                } else {
                    &&& final(interner)@ == new_symbol(args@[1], old(interner)@).0
                    &&& r matches Ok(Value::Table(nt))
                    &&& columns_view(nt.columns@) == columns_view(t.columns@).push(
                        (new_symbol(args@[1], old(interner)@).1, c@),
                    )
                    &&& nt.row_count == rows
                }
            },
            (Value::Table(_), Some(_), v) => {
                &&& r matches Err(e)
                &&& e@ == expected_column_message(v)
                &&& final(interner)@ == old(interner)@
            },
            (Value::Table(_), None, v) => {
                &&& r matches Err(e)
                &&& e@ == "setcol expects symbol or string column name, got "@ + args@[1].spec_kind_name()
                &&& final(interner)@ == old(interner)@
            },
            (v, _, _) => {
                &&& r matches Err(e)
                &&& e@ == expected_table_message(v)
                &&& final(interner)@ == old(interner)@
            },
        },
        r matches Ok(Value::Table(nt)) ==> match (args@[0], args@[2]) {
            (Value::Table(t), Value::Col(c)) => (final(interner)@, columns_view(nt.columns@)) == setcol_model(
                columns_view(t.columns@),
                old(interner)@,
                args@[1],
                c@,
            ),
            _ => false,
        },
{
    if args.len() != 3 {
        return Err(arity_error("setcol", "3 arguments (table colname column)", args.len()));
    }
    let t = table_arg(&args[0])?;
    let name = match name_arg(&args[1], interner) {
        Some(n) => n,
        None => {
            let mut m = String::from_str("setcol expects symbol or string column name, got ");
            m.append(args[1].kind_name());
            return Err(m);
        },
    };
    let newc: &Column = match &args[2] {
        Value::Col(c) => &**c,
        v => {
            let mut m = String::from_str("Expected column, got ");
            m.append(v.kind_name());
            return Err(m);
        },
    };
    let n = newc.len();
    if t.row_count > 0 && n != t.row_count {
        let mut m = String::from_str("Column length mismatch: table has ");
        push_decimal(&mut m, t.row_count as u64);
        m.append(" rows, column has ");
        push_decimal(&mut m, n as u64);
        return Err(m);
    }
    let ghost names = column_names(*t, interner@);
    assert(names =~= names_of(columns_view(t.columns@), interner@));
    let ghost want = replaced(columns_view(t.columns@), names, name@, newc@);
    let mut cols: Vec<(SymbolId, Column)> = Vec::new();
    let mut found = false;
    let mut i: usize = 0;
    while i < t.columns.len()
        invariant
            i <= t.columns@.len(),
            interned_columns(*t, interner@),
            names == column_names(*t, interner@),
            want == replaced(columns_view(t.columns@), names, name@, newc@),
            cols@.len() == i,
            forall|k: int| 0 <= k < i ==> #[trigger] columns_view(cols@)[k] == want[k],
            found == exists|k: int| 0 <= k < i && names[k] == name@,
        decreases t.columns@.len() - i,
    {
        let sym = t.columns[i].0;
        let same = str_eq(interner.resolve(sym), name.as_str());
        let ghost before = cols@;
        if same {
            cols.push((sym, copy_column(newc)));
            found = true;
        } else {
            cols.push((sym, copy_column(&t.columns[i].1)));
        }
        proof {
            assert(names[i as int] == interner@[sym.0 as int]);
            assert forall|k: int| 0 <= k < i + 1 implies #[trigger] columns_view(cols@)[k] == want[k] by {
                if k < i {
                    assert(cols@[k] == before[k]);
                    assert(columns_view(before)[k] == want[k]);
                }
            }
            if same {
                assert(names[i as int] == name@);
            }
        }
        i += 1;
    }
    assert(found == names.contains(name@));
    if !found {
        let sym = match &args[1] {
            Value::Sym(id) => *id,
            Value::Str(s) => interner.intern(s.as_str()),
            _ => SymbolId(0),
        };
        let ghost before = cols@;
        cols.push((sym, copy_column(newc)));
        assert(columns_view(cols@) =~= columns_view(before).push((sym, newc@)));
        assert(columns_view(before) =~= columns_view(t.columns@));
    } else {
        assert(columns_view(cols@) =~= want);
    }
    let rows = if t.row_count > 0 { t.row_count } else { n };
    Ok(Value::Table(Arc::new(Table { columns: cols, row_count: rows })))
}

/// The checks of (file path): the path to load.
pub fn file_request(args: &[Value]) -> (r: Result<String, String>)
    ensures
        args@.len() != 1 ==> (r matches Err(e) && e@ == arity_message("file"@, "1 argument (filename)"@, args@.len())),
        args@.len() == 1 ==> match args@[0] {
            Value::Str(s) => (r matches Ok(p) && p@ == s@),
            v => (r matches Err(e) && e@ == "file expects string filename, got "@ + v.spec_kind_name()),
        },
{
    if args.len() != 1 {
        return Err(arity_error("file", "1 argument (filename)", args.len()));
    }
    match &args[0] {
        Value::Str(s) => Ok(String::from_str(s.as_str())),
        v => {
            let mut m = String::from_str("file expects string filename, got ");
            m.append(v.kind_name());
            Err(m)
        },
    }
}

/// The checks of (file-head path n): the path and the number of data rows to
/// load.
pub fn file_head_request(args: &[Value]) -> (r: Result<(String, usize), String>)
    ensures
        args@.len() != 2 ==> (r matches Err(e) && e@ == arity_message(
            "file-head"@,
            "2 arguments (filename n)"@,
            args@.len(),
        )),
        args@.len() == 2 ==> match (args@[0], args@[1]) {
            (Value::Str(s), Value::Int(n)) => if n < 0 {
                r matches Err(e) && e@ == "file-head expects non-negative row limit"@
            } else {
                r matches Ok((p, k)) && p@ == s@ && k == n as usize
            },
            (Value::Str(_), v) => (r matches Err(e) && e@ == expected_int_message(v)),
            (v, _) => (r matches Err(e) && e@ == "file-head expects string filename, got "@ + v.spec_kind_name()),
        },
{
    if args.len() != 2 {
        return Err(arity_error("file-head", "2 arguments (filename n)", args.len()));
    }
    let path = match &args[0] {
        Value::Str(s) => String::from_str(s.as_str()),
        v => {
            let mut m = String::from_str("file-head expects string filename, got ");
            m.append(v.kind_name());
            return Err(m);
        },
    };
    let n = match &args[1] {
        Value::Int(n) => *n,
        v => {
            let mut m = String::from_str("Expected int, got ");
            m.append(v.kind_name());
            return Err(m);
        },
    };
    if n < 0 {
        return Err(String::from_str("file-head expects non-negative row limit"));
    }
    Ok((path, n as usize))
}

/// The checks of (stdin): it takes no arguments.
pub fn stdin_request(args: &[Value]) -> (r: Result<(), String>)
    ensures
        args@.len() == 0 <==> r is Ok,
        args@.len() != 0 ==> (r matches Err(e) && e@ == arity_message("stdin"@, "0 arguments"@, args@.len())),
{
    if args.len() != 0 {
        return Err(arity_error("stdin", "0 arguments", args.len()));
    }
    Ok(())
}

/// The checks of (save path table): the path to write and the table.
pub fn save_request(args: &[Value]) -> (r: Result<(String, &Table), String>)
    ensures
        args@.len() != 2 ==> (r matches Err(e) && e@ == arity_message(
            "save"@,
            "2 arguments (filename table)"@,
            args@.len(),
        )),
        args@.len() == 2 ==> match (args@[0], args@[1]) {
            (Value::Str(s), Value::Table(t)) => (r matches Ok((p, tr)) && p@ == s@ && *tr == *t),
            (Value::Str(_), v) => (r matches Err(e) && e@ == "save expects table or tableview, got "@
                + v.spec_kind_name()),
            (v, _) => (r matches Err(e) && e@ == "save expects string filename, got "@ + v.spec_kind_name()),
        },
{
    if args.len() != 2 {
        return Err(arity_error("save", "2 arguments (filename table)", args.len()));
    }
    let path = match &args[0] {
        Value::Str(s) => String::from_str(s.as_str()),
        v => {
            let mut m = String::from_str("save expects string filename, got ");
            m.append(v.kind_name());
            return Err(m);
        },
    };
    match &args[1] {
        Value::Table(t) => Ok((path, &**t)),
        v => {
            let mut m = String::from_str("save expects table or tableview, got ");
            m.append(v.kind_name());
            Err(m)
        },
    }
}

/// The names of columns given as symbols and contents.
pub open spec fn names_of(cols: Seq<(SymbolId, ColumnV)>, names: Seq<Seq<char>>) -> Seq<Seq<char>> {
    cols.map_values(|c: (SymbolId, ColumnV)| names[c.0.0 as int])
}

/// What `setcol` makes of a table's columns (as symbols and contents), the
/// interner's table `names`, its name argument and the new column: the
/// interner's table afterwards and the new columns.
pub open spec fn setcol_model(
    cols: Seq<(SymbolId, ColumnV)>,
    names: Seq<Seq<char>>,
    arg: Value,
    c: ColumnV,
) -> (Seq<Seq<char>>, Seq<(SymbolId, ColumnV)>) {
    let name = name_of(arg, names)->0;
    let ns = names_of(cols, names);
    if ns.contains(name) {
        (names, replaced(cols, ns, name, c))
    } else {
        (new_symbol(arg, names).0, cols.push((new_symbol(arg, names).1, c)))
    }
}

proof fn lemma_first_index_at(ns: Seq<Seq<char>>, w: Seq<char>, i: int, k: int)
    requires
        0 <= k <= i < ns.len(),
        ns[i] == w,
        forall|j: int| 0 <= j < i ==> ns[j] != w,
    ensures
        first_index(ns, w, k) == Some(i),
    decreases i - k,
{
    if k < i {
        lemma_first_index_at(ns, w, i, k + 1);
    }
}

/// Setting a column and then reading the column of that name gives the
/// column that was set (`col` after `setcol`, with the same name argument).
pub proof fn law_col_after_setcol(cols: Seq<(SymbolId, ColumnV)>, names: Seq<Seq<char>>, arg: Value, c: ColumnV)
    requires
        no_dups(names),
        names.len() < usize::MAX,
        forall|i: int| 0 <= i < cols.len() ==> (#[trigger] cols[i]).0.0 < names.len(),
        arg is Str || (arg is Sym && arg->Sym_0.0 < names.len()),
    ensures
        ({
            let (n2, cols2) = setcol_model(cols, names, arg, c);
            &&& name_of(arg, n2) == name_of(arg, names)
            &&& first_index(names_of(cols2, n2), name_of(arg, n2)->0, 0) matches Some(i)
            &&& cols2[i].1 == c
        }),
{
    let name = name_of(arg, names)->0;
    let ns = names_of(cols, names);
    let (n2, cols2) = setcol_model(cols, names, arg, c);
    if ns.contains(name) {
        let i = choose|i: int| 0 <= i < ns.len() && ns[i] == name;
        // the first column of that name
        let f = first_index(ns, name, 0);
        crate::csv_table::lemma_first_index_bounds(ns, name, 0);
        lemma_first_index_found(ns, name, 0, i);
        let p = f->0;
        assert(names_of(cols2, n2) =~= ns) by {
            assert forall|j: int| 0 <= j < cols2.len() implies #[trigger] names_of(cols2, n2)[j] == ns[j] by {
                assert(cols2[j].0 == cols[j].0);
            }
        }
        assert(cols2[p].1 == c);
    } else {
        let (n3, sym) = new_symbol(arg, names);
        assert(n2 == n3);
        match arg {
            Value::Str(s) => {
                crate::ast::law_intern_idempotent(names, s@);
            },
            _ => {},
        }
        // the interner only grows
        assert(forall|k: int| 0 <= k < names.len() ==> #[trigger] n2[k] == names[k]);
        assert(n2[sym.0 as int] == name);
        let last = cols.len() as int;
        assert forall|j: int| 0 <= j < last implies #[trigger] names_of(cols2, n2)[j] != name by {
            assert(cols2[j] == cols[j]);
            assert(names_of(cols2, n2)[j] == ns[j]);
        }
        lemma_first_index_at(names_of(cols2, n2), name, last, 0);
    }
}

proof fn lemma_first_index_found(ns: Seq<Seq<char>>, w: Seq<char>, k: int, i: int)
    requires
        0 <= k <= i < ns.len(),
        ns[i] == w,
    ensures
        first_index(ns, w, k) is Some,
    decreases i - k,
{
    if ns[k] != w {
        lemma_first_index_found(ns, w, k + 1, i);
    }
}

/// Run the registered builtin `b` on `args`, for the builtins whose whole work
/// is in this library: integer arithmetic, `abs`, `type-of`, `len` and the
/// table builtins that read their arguments only (`col`, `w`, `cols`,
/// `select-num`). The result is what that builtin gives for these arguments.
/// The others (floats, files, the runtime's own state, and `select` and
/// `setcol`, which intern names) give `None` here.
pub fn run_builtin(b: Builtin, args: &[Value], interner: &Interner) -> (r: Option<Result<Value, String>>)
    requires
        b == Builtin::Add ==> int_op_fits(args@, 0),
        b == Builtin::Sub ==> int_op_fits(args@, 1),
        b == Builtin::Mul ==> int_op_fits(args@, 2),
        b == Builtin::Abs ==> (args@.len() == 1 && args@[0] is Int ==> args@[0]->Int_0 != i64::MIN),
        b == Builtin::Col ==> (args@.len() == 2 && args@[0] is Table ==> interned_columns(
            *args@[0]->Table_0,
            interner@,
        )),
        b == Builtin::Col ==> (args@.len() == 2 ==> sym_interned(args@[1], interner@)),
        b == Builtin::Cols ==> (args@.len() == 1 && args@[0] is Table ==> interned_columns(
            *args@[0]->Table_0,
            interner@,
        )),
    ensures
        match b {
            Builtin::Add => r matches Some(x) && call_ensures(builtin_add, (args,), x),
            Builtin::Sub => r matches Some(x) && call_ensures(builtin_sub, (args,), x),
            Builtin::Mul => r matches Some(x) && call_ensures(builtin_mul, (args,), x),
            Builtin::Abs => r matches Some(x) && call_ensures(builtin_abs, (args,), x),
            Builtin::TypeOf => r matches Some(x) && call_ensures(builtin_type_of, (args,), x),
            Builtin::Len => r matches Some(x) && call_ensures(builtin_len, (args,), x),
            Builtin::Col => r matches Some(x) && call_ensures(builtin_col, (args, interner), x),
            Builtin::W => r matches Some(x) && call_ensures(builtin_w, (args,), x),
            Builtin::Cols => r matches Some(x) && call_ensures(builtin_cols, (args, interner), x),
            Builtin::SelectNum => r matches Some(x) && call_ensures(builtin_select_num, (args,), x),
            _ => r is None,
        },
{
    match b {
        Builtin::Add => Some(builtin_add(args)),
        Builtin::Sub => Some(builtin_sub(args)),
        Builtin::Mul => Some(builtin_mul(args)),
        Builtin::Abs => Some(builtin_abs(args)),
        Builtin::TypeOf => Some(builtin_type_of(args)),
        Builtin::Len => Some(builtin_len(args)),
        Builtin::Col => Some(builtin_col(args, interner)),
        Builtin::W => Some(builtin_w(args)),
        Builtin::Cols => Some(builtin_cols(args, interner)),
        Builtin::SelectNum => Some(builtin_select_num(args)),
        _ => None,
    }
}

/// The builtin that the registry lists under an integer operator computes
/// that operator: run on two integers, the builtin registered under `+`, `-`
/// or `*` gives their sum, difference or product.
#[verifier::spinoff_prover]
#[verifier::rlimit(100)]
pub proof fn law_registered_operator_computes(
    k: int,
    args: &[Value],
    interner: &Interner,
    x: i64,
    y: i64,
    r: Option<Result<Value, String>>,
)
    requires
        0 <= k < builtin_table().len(),
        args@ == seq![Value::Int(x), Value::Int(y)],
        call_ensures(run_builtin, (builtin_table()[k].1, args, interner), r),
    ensures
        builtin_table()[k].0 != "/"@ ==> (spelling_arith(builtin_table()[k].0, x as int, y as int) matches Some(v)
            ==> r == Some(Ok::<Value, String>(Value::Int(v as i64)))),
{
    reveal_strlit("+");
    reveal_strlit("-");
    reveal_strlit("*");
    reveal_strlit("/");
    reveal_strlit("log");
    reveal_strlit("exp");
    reveal_strlit("abs");
    reveal_strlit("dlog");
    reveal_strlit("shift");
    reveal_strlit("diff");
    reveal_strlit("sum");
    reveal_strlit("sum0");
    reveal_strlit("mean");
    reveal_strlit("mean0");
    reveal_strlit("file");
    reveal_strlit("file-head");
    reveal_strlit("stdin");
    reveal_strlit("save");
    reveal_strlit("col");
    reveal_strlit("setcol");
    reveal_strlit("withcol");
    reveal_strlit("w");
    reveal_strlit("make-col");
    reveal_strlit("cols");
    reveal_strlit("select");
    reveal_strlit("select-num");
    reveal_strlit("map-cols");
    reveal_strlit("apply-cols");
    reveal_strlit("dlog-cols");
    reveal_strlit("shift-cols");
    reveal_strlit("diff-cols");
    reveal_strlit(">");
    reveal_strlit(">-cols");
    reveal_strlit("<");
    reveal_strlit(">=");
    reveal_strlit("<=");
    reveal_strlit("==");
    reveal_strlit("!=");
    reveal_strlit("locf");
    reveal_strlit("locf-cols");
    reveal_strlit("keep-shape");
    reveal_strlit("keep-shape-cols");
    reveal_strlit("w5");
    reveal_strlit("xminus");
    reveal_strlit("cs1");
    reveal_strlit("cs1-cols");
    reveal_strlit("mapr");
    reveal_strlit("ur");
    reveal_strlit("wz0");
    reveal_strlit("wz0-cols");
    reveal_strlit("print");
    reveal_strlit("type-of");
    reveal_strlit("len");
    reveal_strlit("add");
    reveal_strlit("sub");
    reveal_strlit("mul");
    reveal_strlit("div");
    assert("+"@.len() == 1 && "+"@[0] == '+');
    assert("-"@.len() == 1 && "-"@[0] == '-');
    assert("*"@.len() == 1 && "*"@[0] == '*');
    assert("/"@.len() == 1 && "/"@[0] == '/');
    assert("log"@.len() == 3 && "log"@[0] == 'l' && "log"@[1] == 'o' && "log"@[2] == 'g');
    assert("exp"@.len() == 3 && "exp"@[0] == 'e' && "exp"@[1] == 'x' && "exp"@[2] == 'p');
    assert("abs"@.len() == 3 && "abs"@[0] == 'a' && "abs"@[1] == 'b' && "abs"@[2] == 's');
    assert("dlog"@.len() == 4 && "dlog"@[0] == 'd' && "dlog"@[1] == 'l' && "dlog"@[2] == 'o' && "dlog"@[3] == 'g');
    assert("shift"@.len() == 5 && "shift"@[0] == 's' && "shift"@[1] == 'h' && "shift"@[2] == 'i' && "shift"@[3] == 'f' && "shift"@[4] == 't');
    assert("diff"@.len() == 4 && "diff"@[0] == 'd' && "diff"@[1] == 'i' && "diff"@[2] == 'f' && "diff"@[3] == 'f');
    assert("sum"@.len() == 3 && "sum"@[0] == 's' && "sum"@[1] == 'u' && "sum"@[2] == 'm');
    assert("sum0"@.len() == 4 && "sum0"@[0] == 's' && "sum0"@[1] == 'u' && "sum0"@[2] == 'm' && "sum0"@[3] == '0');
    assert("mean"@.len() == 4 && "mean"@[0] == 'm' && "mean"@[1] == 'e' && "mean"@[2] == 'a' && "mean"@[3] == 'n');
    assert("mean0"@.len() == 5 && "mean0"@[0] == 'm' && "mean0"@[1] == 'e' && "mean0"@[2] == 'a' && "mean0"@[3] == 'n' && "mean0"@[4] == '0');
    assert("file"@.len() == 4 && "file"@[0] == 'f' && "file"@[1] == 'i' && "file"@[2] == 'l' && "file"@[3] == 'e');
    assert("file-head"@.len() == 9 && "file-head"@[0] == 'f' && "file-head"@[1] == 'i' && "file-head"@[2] == 'l' && "file-head"@[3] == 'e' && "file-head"@[4] == '-' && "file-head"@[5] == 'h' && "file-head"@[6] == 'e' && "file-head"@[7] == 'a' && "file-head"@[8] == 'd');
    assert("stdin"@.len() == 5 && "stdin"@[0] == 's' && "stdin"@[1] == 't' && "stdin"@[2] == 'd' && "stdin"@[3] == 'i' && "stdin"@[4] == 'n');
    assert("save"@.len() == 4 && "save"@[0] == 's' && "save"@[1] == 'a' && "save"@[2] == 'v' && "save"@[3] == 'e');
    assert("col"@.len() == 3 && "col"@[0] == 'c' && "col"@[1] == 'o' && "col"@[2] == 'l');
    assert("setcol"@.len() == 6 && "setcol"@[0] == 's' && "setcol"@[1] == 'e' && "setcol"@[2] == 't' && "setcol"@[3] == 'c' && "setcol"@[4] == 'o' && "setcol"@[5] == 'l');
    assert("withcol"@.len() == 7 && "withcol"@[0] == 'w' && "withcol"@[1] == 'i' && "withcol"@[2] == 't' && "withcol"@[3] == 'h' && "withcol"@[4] == 'c' && "withcol"@[5] == 'o' && "withcol"@[6] == 'l');
    assert("w"@.len() == 1 && "w"@[0] == 'w');
    assert("make-col"@.len() == 8 && "make-col"@[0] == 'm' && "make-col"@[1] == 'a' && "make-col"@[2] == 'k' && "make-col"@[3] == 'e' && "make-col"@[4] == '-' && "make-col"@[5] == 'c' && "make-col"@[6] == 'o' && "make-col"@[7] == 'l');
    assert("cols"@.len() == 4 && "cols"@[0] == 'c' && "cols"@[1] == 'o' && "cols"@[2] == 'l' && "cols"@[3] == 's');
    assert("select"@.len() == 6 && "select"@[0] == 's' && "select"@[1] == 'e' && "select"@[2] == 'l' && "select"@[3] == 'e' && "select"@[4] == 'c' && "select"@[5] == 't');
    assert("select-num"@.len() == 10 && "select-num"@[0] == 's' && "select-num"@[1] == 'e' && "select-num"@[2] == 'l' && "select-num"@[3] == 'e' && "select-num"@[4] == 'c' && "select-num"@[5] == 't' && "select-num"@[6] == '-' && "select-num"@[7] == 'n' && "select-num"@[8] == 'u' && "select-num"@[9] == 'm');
    assert("map-cols"@.len() == 8 && "map-cols"@[0] == 'm' && "map-cols"@[1] == 'a' && "map-cols"@[2] == 'p' && "map-cols"@[3] == '-' && "map-cols"@[4] == 'c' && "map-cols"@[5] == 'o' && "map-cols"@[6] == 'l' && "map-cols"@[7] == 's');
    assert("apply-cols"@.len() == 10 && "apply-cols"@[0] == 'a' && "apply-cols"@[1] == 'p' && "apply-cols"@[2] == 'p' && "apply-cols"@[3] == 'l' && "apply-cols"@[4] == 'y' && "apply-cols"@[5] == '-' && "apply-cols"@[6] == 'c' && "apply-cols"@[7] == 'o' && "apply-cols"@[8] == 'l' && "apply-cols"@[9] == 's');
    assert("dlog-cols"@.len() == 9 && "dlog-cols"@[0] == 'd' && "dlog-cols"@[1] == 'l' && "dlog-cols"@[2] == 'o' && "dlog-cols"@[3] == 'g' && "dlog-cols"@[4] == '-' && "dlog-cols"@[5] == 'c' && "dlog-cols"@[6] == 'o' && "dlog-cols"@[7] == 'l' && "dlog-cols"@[8] == 's');
    assert("shift-cols"@.len() == 10 && "shift-cols"@[0] == 's' && "shift-cols"@[1] == 'h' && "shift-cols"@[2] == 'i' && "shift-cols"@[3] == 'f' && "shift-cols"@[4] == 't' && "shift-cols"@[5] == '-' && "shift-cols"@[6] == 'c' && "shift-cols"@[7] == 'o' && "shift-cols"@[8] == 'l' && "shift-cols"@[9] == 's');
    assert("diff-cols"@.len() == 9 && "diff-cols"@[0] == 'd' && "diff-cols"@[1] == 'i' && "diff-cols"@[2] == 'f' && "diff-cols"@[3] == 'f' && "diff-cols"@[4] == '-' && "diff-cols"@[5] == 'c' && "diff-cols"@[6] == 'o' && "diff-cols"@[7] == 'l' && "diff-cols"@[8] == 's');
    assert(">"@.len() == 1 && ">"@[0] == '>');
    assert(">-cols"@.len() == 6 && ">-cols"@[0] == '>' && ">-cols"@[1] == '-' && ">-cols"@[2] == 'c' && ">-cols"@[3] == 'o' && ">-cols"@[4] == 'l' && ">-cols"@[5] == 's');
    assert("<"@.len() == 1 && "<"@[0] == '<');
    assert(">="@.len() == 2 && ">="@[0] == '>' && ">="@[1] == '=');
    assert("<="@.len() == 2 && "<="@[0] == '<' && "<="@[1] == '=');
    assert("=="@.len() == 2 && "=="@[0] == '=' && "=="@[1] == '=');
    assert("!="@.len() == 2 && "!="@[0] == '!' && "!="@[1] == '=');
    assert("locf"@.len() == 4 && "locf"@[0] == 'l' && "locf"@[1] == 'o' && "locf"@[2] == 'c' && "locf"@[3] == 'f');
    assert("locf-cols"@.len() == 9 && "locf-cols"@[0] == 'l' && "locf-cols"@[1] == 'o' && "locf-cols"@[2] == 'c' && "locf-cols"@[3] == 'f' && "locf-cols"@[4] == '-' && "locf-cols"@[5] == 'c' && "locf-cols"@[6] == 'o' && "locf-cols"@[7] == 'l' && "locf-cols"@[8] == 's');
    assert("keep-shape"@.len() == 10 && "keep-shape"@[0] == 'k' && "keep-shape"@[1] == 'e' && "keep-shape"@[2] == 'e' && "keep-shape"@[3] == 'p' && "keep-shape"@[4] == '-' && "keep-shape"@[5] == 's' && "keep-shape"@[6] == 'h' && "keep-shape"@[7] == 'a' && "keep-shape"@[8] == 'p' && "keep-shape"@[9] == 'e');
    assert("keep-shape-cols"@.len() == 15 && "keep-shape-cols"@[0] == 'k' && "keep-shape-cols"@[1] == 'e' && "keep-shape-cols"@[2] == 'e' && "keep-shape-cols"@[3] == 'p' && "keep-shape-cols"@[4] == '-' && "keep-shape-cols"@[5] == 's' && "keep-shape-cols"@[6] == 'h' && "keep-shape-cols"@[7] == 'a' && "keep-shape-cols"@[8] == 'p' && "keep-shape-cols"@[9] == 'e' && "keep-shape-cols"@[10] == '-' && "keep-shape-cols"@[11] == 'c' && "keep-shape-cols"@[12] == 'o' && "keep-shape-cols"@[13] == 'l' && "keep-shape-cols"@[14] == 's');
    assert("w5"@.len() == 2 && "w5"@[0] == 'w' && "w5"@[1] == '5');
    assert("xminus"@.len() == 6 && "xminus"@[0] == 'x' && "xminus"@[1] == 'm' && "xminus"@[2] == 'i' && "xminus"@[3] == 'n' && "xminus"@[4] == 'u' && "xminus"@[5] == 's');
    assert("cs1"@.len() == 3 && "cs1"@[0] == 'c' && "cs1"@[1] == 's' && "cs1"@[2] == '1');
    assert("cs1-cols"@.len() == 8 && "cs1-cols"@[0] == 'c' && "cs1-cols"@[1] == 's' && "cs1-cols"@[2] == '1' && "cs1-cols"@[3] == '-' && "cs1-cols"@[4] == 'c' && "cs1-cols"@[5] == 'o' && "cs1-cols"@[6] == 'l' && "cs1-cols"@[7] == 's');
    assert("mapr"@.len() == 4 && "mapr"@[0] == 'm' && "mapr"@[1] == 'a' && "mapr"@[2] == 'p' && "mapr"@[3] == 'r');
    assert("ur"@.len() == 2 && "ur"@[0] == 'u' && "ur"@[1] == 'r');
    assert("wz0"@.len() == 3 && "wz0"@[0] == 'w' && "wz0"@[1] == 'z' && "wz0"@[2] == '0');
    assert("wz0-cols"@.len() == 8 && "wz0-cols"@[0] == 'w' && "wz0-cols"@[1] == 'z' && "wz0-cols"@[2] == '0' && "wz0-cols"@[3] == '-' && "wz0-cols"@[4] == 'c' && "wz0-cols"@[5] == 'o' && "wz0-cols"@[6] == 'l' && "wz0-cols"@[7] == 's');
    assert("print"@.len() == 5 && "print"@[0] == 'p' && "print"@[1] == 'r' && "print"@[2] == 'i' && "print"@[3] == 'n' && "print"@[4] == 't');
    assert("type-of"@.len() == 7 && "type-of"@[0] == 't' && "type-of"@[1] == 'y' && "type-of"@[2] == 'p' && "type-of"@[3] == 'e' && "type-of"@[4] == '-' && "type-of"@[5] == 'o' && "type-of"@[6] == 'f');
    assert("len"@.len() == 3 && "len"@[0] == 'l' && "len"@[1] == 'e' && "len"@[2] == 'n');
    assert("add"@.len() == 3 && "add"@[0] == 'a' && "add"@[1] == 'd' && "add"@[2] == 'd');
    assert("sub"@.len() == 3 && "sub"@[0] == 's' && "sub"@[1] == 'u' && "sub"@[2] == 'b');
    assert("mul"@.len() == 3 && "mul"@[0] == 'm' && "mul"@[1] == 'u' && "mul"@[2] == 'l');
    assert("div"@.len() == 3 && "div"@[0] == 'd' && "div"@[1] == 'i' && "div"@[2] == 'v');
    let t = builtin_table();
    assert(t[0] == ("+"@, Builtin::Add) && t[1] == ("-"@, Builtin::Sub) && t[2] == ("*"@, Builtin::Mul));
    assert(args@[0] == Value::Int(x) && args@[1] == Value::Int(y));
}

} // verus!
