//! Runtime values bound in environments, and the tables that CSV loading
//! produces.

use vstd::prelude::*;
use std::sync::Arc;
use crate::ast::SymbolId;

verus! {

/// A runtime value: the scalar, symbolic and table values the interpreter
/// binds to names.
#[derive(Debug, Clone, PartialEq)]
pub enum Value {
    Nil,
    Bool(bool),
    Int(i64),
    Str(String),
    Sym(SymbolId),
    Col(Arc<Column>),
    List(Arc<Vec<Value>>),
    Table(Arc<Table>),
}

/// A column of a loaded table: dates as days since the epoch, timestamps as
/// nanoseconds since the epoch (with the null sentinels for NA), and numeric
/// cells as their trimmed text, which the numeric engine turns into floats.
#[derive(Debug, Clone, PartialEq)]
pub enum Column {
    Numeric(Vec<String>),
    Date(Vec<i32>),
    Timestamp(Vec<i64>),
}

/// What a column holds: its cells' texts, dates or timestamps.
pub enum ColumnV {
    Numeric(Seq<Seq<char>>),
    Date(Seq<i32>),
    Timestamp(Seq<i64>),
}

impl View for Column {
    type V = ColumnV;

    open spec fn view(&self) -> ColumnV {
        match self {
            Column::Numeric(v) => ColumnV::Numeric(v@.map_values(|s: String| s@)),
            Column::Date(v) => ColumnV::Date(v@),
            Column::Timestamp(v) => ColumnV::Timestamp(v@),
        }
    }
}

impl Column {
    /// The number of cells.
    pub open spec fn spec_len(&self) -> nat {
        match self {
            Column::Numeric(v) => v@.len(),
            Column::Date(v) => v@.len(),
            Column::Timestamp(v) => v@.len(),
        }
    }

    /// The number of cells.
    pub fn len(&self) -> (n: usize)
        ensures
            n == self.spec_len(),
    {
        match self {
            Column::Numeric(v) => v.len(),
            Column::Date(v) => v.len(),
            Column::Timestamp(v) => v.len(),
        }
    }
}

/// A table: named columns, in order, and its number of rows.
#[derive(Debug, Clone, PartialEq)]
pub struct Table {
    pub columns: Vec<(SymbolId, Column)>,
    pub row_count: usize,
}

impl Table {
    /// An empty table.
    pub fn new() -> (t: Self)
        ensures
            t.columns@.len() == 0,
            t.row_count == 0,
    {
        Table { columns: Vec::new(), row_count: 0 }
    }

    /// Append a column; the table then has as many rows as that column.
    pub fn add_column(&mut self, sym: SymbolId, col: Column)
        ensures
            final(self).columns@ == old(self).columns@.push((sym, col)),
            final(self).row_count == col.spec_len(),
    {
        self.row_count = col.len();
        self.columns.push((sym, col));
    }

    /// The first column named by `sym`.
    pub fn get_column(&self, sym: SymbolId) -> (r: Option<&Column>)
        ensures
            match r {
                Some(c) => exists|i: int|
                    0 <= i < self.columns@.len() && self.columns@[i].0 == sym && self.columns@[i].1 == *c
                        && forall|j: int| 0 <= j < i ==> (#[trigger] self.columns@[j]).0 != sym,
                None => forall|j: int| 0 <= j < self.columns@.len() ==> (#[trigger] self.columns@[j]).0 != sym,
            },
    {
        let mut i: usize = 0;
        while i < self.columns.len()
            invariant
                i <= self.columns@.len(),
                forall|j: int| 0 <= j < i ==> (#[trigger] self.columns@[j]).0 != sym,
            decreases self.columns@.len() - i,
        {
            if self.columns[i].0.0 == sym.0 {
                return Some(&self.columns[i].1);
            }
            i += 1;
        }
        None
    }
}

} // verus!
