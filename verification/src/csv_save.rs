//! The text of a table saved as `;`-separated CSV: the header names and one
//! cell per column and row. Dates and timestamps are written in their text
//! form ("NA" for nulls and missing cells); numeric cells are handed over as
//! their text for the numeric engine to write.

use vstd::prelude::*;
use crate::ast::{Interner, SymbolId};
use crate::io::{
    NULL_DATE, NULL_TIMESTAMP, spec_format_date, spec_format_timestamp, format_date_from_days,
    format_timestamp_from_nanos,
};
use crate::value::{Column, Table};

verus! {

/// One cell of a saved row.
#[derive(Debug, Clone, PartialEq)]
pub enum SaveCell {
    /// Text written as it is.
    Text(String),
    /// A numeric cell's text, or none for a row the column does not reach
    /// (written as a missing number).
    Numeric(Option<String>),
}

/// What is written of a table: header names and rows of cells.
#[derive(Debug, Clone, PartialEq)]
pub struct SavedTable {
    pub headers: Vec<String>,
    pub rows: Vec<Vec<SaveCell>>,
}

pub open spec fn cell_view(c: SaveCell) -> (bool, Option<Seq<char>>) {
    match c {
        SaveCell::Text(s) => (true, Some(s@)),
        SaveCell::Numeric(o) => (false, match o {
            Some(s) => Some(s@),
            None => None,
        }),
    }
}

/// The cell written for row `r` of a column: (whether it is text, its text).
pub open spec fn saved_cell(col: Column, r: int) -> (bool, Option<Seq<char>>) {
    match col {
        Column::Numeric(v) => (false, if r < v@.len() { Some(v@[r]@) } else { None }),
        Column::Date(v) => (true, Some(if r < v@.len() && v@[r] != NULL_DATE {
            spec_format_date(v@[r] as int)
        } else {
            "NA"@
        })),
        Column::Timestamp(v) => (true, Some(if r < v@.len() && v@[r] != NULL_TIMESTAMP {
            spec_format_timestamp(v@[r] as int)
        } else {
            "NA"@
        })),
    }
}

/// A day count the date formatter can write (counts near the top of the range
/// overflow it).
pub open spec fn date_writable(d: i32) -> bool {
    d == NULL_DATE || d <= i32::MAX - 719468
}

pub open spec fn column_writable(col: Column) -> bool {
    match col {
        Column::Date(v) => forall|i: int| 0 <= i < v@.len() ==> #[trigger] date_writable(v@[i]),
        _ => true,
    }
}

/// Every date of the table can be written.
pub open spec fn dates_writable(t: Table) -> bool {
    forall|c: int| 0 <= c < t.columns@.len() ==> #[trigger] column_writable(t.columns@[c].1)
}

fn date_cell(v: &Vec<i32>, r: usize) -> (s: String)
    requires
        forall|i: int| 0 <= i < v@.len() ==> #[trigger] date_writable(v@[i]),
    ensures
        s@ == (if r < v@.len() && v@[r as int] != NULL_DATE {
            spec_format_date(v@[r as int] as int)
        } else {
            "NA"@
        }),
{
    if r < v.len() && v[r] != NULL_DATE {
        assert(date_writable(v@[r as int]));
        format_date_from_days(v[r])
    } else {
        String::from_str("NA")
    }
}

fn timestamp_cell(v: &Vec<i64>, r: usize) -> (s: String)
    ensures
        s@ == (if r < v@.len() && v@[r as int] != NULL_TIMESTAMP {
            spec_format_timestamp(v@[r as int] as int)
        } else {
            "NA"@
        }),
{
    if r < v.len() && v[r] != NULL_TIMESTAMP {
        format_timestamp_from_nanos(v[r])
    } else {
        String::from_str("NA")
    }
}

fn saved_cell_of(col: &Column, r: usize) -> (c: SaveCell)
    requires
        column_writable(*col),
    ensures
        cell_view(c) == saved_cell(*col, r as int),
{
    match col {
        Column::Numeric(v) => if r < v.len() {
            SaveCell::Numeric(Some(v[r].clone()))
        } else {
            SaveCell::Numeric(None)
        },
        Column::Date(v) => SaveCell::Text(date_cell(v, r)),
        Column::Timestamp(v) => SaveCell::Text(timestamp_cell(v, r)),
    }
}

/// The text of a table saved as CSV: its column names (resolved through the
/// interner) and, for each of its rows, one cell per column. An empty table
/// cannot be saved.
pub fn saved_table(table: &Table, interner: &Interner) -> (r: Result<SavedTable, String>)
    requires
        forall|c: int| 0 <= c < table.columns@.len() ==> (#[trigger] table.columns@[c]).0.0 < interner@.len(),
        dates_writable(*table),
    ensures
        table.columns@.len() == 0 <==> r is Err,
        r matches Err(e) ==> e@ == "Cannot save empty table"@,
        r matches Ok(s) ==> {
            &&& s.headers@.len() == table.columns@.len()
            &&& forall|c: int|
                0 <= c < table.columns@.len() ==> #[trigger] s.headers@[c]@ == interner@[table.columns@[c].0.0 as int]
            &&& s.rows@.len() == table.row_count
            &&& forall|r: int|
                0 <= r < table.row_count ==> (#[trigger] s.rows@[r]).len() == table.columns@.len()
                    && forall|c: int|
                    0 <= c < table.columns@.len() ==> cell_view(#[trigger] s.rows@[r][c]) == saved_cell(
                        table.columns@[c].1,
                        r,
                    )
        },
{
    if table.columns.len() == 0 {
        return Err(String::from_str("Cannot save empty table"));
    }
    let ncols = table.columns.len();
    let mut headers: Vec<String> = Vec::new();
    let mut c: usize = 0;
    while c < ncols
        invariant
            c <= ncols,
            ncols == table.columns@.len(),
            forall|i: int| 0 <= i < ncols ==> (#[trigger] table.columns@[i]).0.0 < interner@.len(),
            headers@.len() == c,
            forall|i: int| 0 <= i < c ==> #[trigger] headers@[i]@ == interner@[table.columns@[i].0.0 as int],
        decreases ncols - c,
    {
        let sym: SymbolId = table.columns[c].0;
        headers.push(String::from_str(interner.resolve(sym)));
        c += 1;
    }
    let mut rows: Vec<Vec<SaveCell>> = Vec::new();
    let mut r: usize = 0;
    while r < table.row_count
        invariant
            r <= table.row_count,
            ncols == table.columns@.len(),
            dates_writable(*table),
            rows@.len() == r,
            forall|i: int|
                0 <= i < r ==> (#[trigger] rows@[i]).len() == ncols && forall|j: int|
                    0 <= j < ncols ==> cell_view(#[trigger] rows@[i][j]) == saved_cell(table.columns@[j].1, i),
        decreases table.row_count - r,
    {
        let mut row: Vec<SaveCell> = Vec::new();
        let mut j: usize = 0;
        while j < ncols
            invariant
                j <= ncols,
                ncols == table.columns@.len(),
                dates_writable(*table),
                row@.len() == j,
                forall|k: int| 0 <= k < j ==> cell_view(#[trigger] row@[k]) == saved_cell(table.columns@[k].1, r as int),
            decreases ncols - j,
        {
            let col = &table.columns[j].1;
            assert(column_writable(table.columns@[j as int].1));
            row.push(saved_cell_of(col, r));
            j += 1;
        }
        rows.push(row);
        r += 1;
    }
    Ok(SavedTable { headers, rows })
}

/// Whether every date of the table can be written (see `dates_writable`).
pub fn table_dates_writable(table: &Table) -> (b: bool)
    ensures
        b == dates_writable(*table),
{
    let mut c: usize = 0;
    while c < table.columns.len()
        invariant
            c <= table.columns@.len(),
            forall|cc: int| 0 <= cc < c ==> #[trigger] column_writable(table.columns@[cc].1),
        decreases table.columns@.len() - c,
    {
        match &table.columns[c].1 {
            Column::Date(v) => {
                let mut r: usize = 0;
                while r < v.len()
                    invariant
                        r <= v@.len(),
                        c < table.columns@.len(),
                        table.columns@[c as int].1 == Column::Date(*v),
                        forall|cc: int| 0 <= cc < c ==> #[trigger] column_writable(table.columns@[cc].1),
                        forall|rr: int| 0 <= rr < r ==> #[trigger] date_writable(v@[rr]),
                    decreases v@.len() - r,
                {
                    if v[r] != NULL_DATE && v[r] > i32::MAX - 719468 {
                        assert(!date_writable(v@[r as int]));
                        assert(!column_writable(table.columns@[c as int].1)) by {
                            let col = table.columns@[c as int].1;
                            assert(col matches Column::Date(w) && !date_writable(w@[r as int]));
                        }
                        return false;
                    }
                    r += 1;
                }
                assert(column_writable(table.columns@[c as int].1));
            },
            _ => {},
        }
        c += 1;
    }
    true
}

} // verus!
