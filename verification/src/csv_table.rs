//! Loading `;`-separated CSV text into a table.
//!
//! The `csv` crate splits the text into a header record and data records;
//! this module trims the header names, samples the first rows to decide each
//! column's type (Timestamp > Date > numeric, NA cells skipped), stops at the
//! row limit, reports the first bad record, and builds the columns.

use vstd::prelude::*;
use std::sync::Arc;
use crate::ast::{Interner, SymbolId, spec_intern};
use crate::io::{
    ColType, NULL_DATE, NULL_TIMESTAMP, date_or_null, detect_kind, is_na_chars, spec_trim,
    timestamp_or_null, timestamp_text_ok,
};
use crate::value::{Column, Table, Value};
use crate::text::{concat3, join_with, push_joined, str_eq};
use crate::fmt::{decimal, push_decimal};

verus! {

/// Number of rows sampled for type detection.
pub const TYPE_DETECTION_ROWS: usize = 8;

// ─── Views of records ───────────────────────────────────────────────────────

pub open spec fn strings_view(v: Seq<String>) -> Seq<Seq<char>> {
    v.map_values(|s: String| s@)
}

/// A record as field texts, or the reader's error message.
pub open spec fn record_view(r: Result<Vec<String>, String>) -> Result<Seq<Seq<char>>, Seq<char>> {
    match r {
        Ok(v) => Ok(strings_view(v@)),
        Err(e) => Err(e@),
    }
}

pub open spec fn records_view(rs: Seq<Result<Vec<String>, String>>) -> Seq<
    Result<Seq<Seq<char>>, Seq<char>>,
> {
    rs.map_values(|r: Result<Vec<String>, String>| record_view(r))
}

/// What the `csv` crate reads from `;`-separated text with a header row: the
/// header record, then each data record, each as field texts or as the
/// crate's error message for it.
pub uninterp spec fn csv_records(text: Seq<char>) -> (
    Result<Seq<Seq<char>>, Seq<char>>,
    Seq<Result<Seq<Seq<char>>, Seq<char>>>,
);

/// Split `;`-separated text with the `csv` crate (`ReaderBuilder` with a
/// header row and `;` as delimiter): the header record and every data record,
/// each as its fields, or as the crate's error message for it.
#[verifier::external_body]
fn csv_split(content: &str) -> (r: (Result<Vec<String>, String>, Vec<Result<Vec<String>, String>>))
    ensures
        (record_view(r.0), records_view(r.1@)) == csv_records(content@),
{
    let mut reader = csv::ReaderBuilder::new().has_headers(true).delimiter(b';').from_reader(
        content.as_bytes(),
    );
    let headers = match reader.headers() {
        Ok(h) => Ok(h.iter().map(|f| f.to_string()).collect()),
        Err(e) => Err(format!("{}", e)),
    };
    let records = reader.records().map(|r| match r {
        Ok(rec) => Ok(rec.iter().map(|f| f.to_string()).collect()),
        Err(e) => Err(format!("{}", e)),
    }).collect();
    (headers, records)
}

// ─── Specification ──────────────────────────────────────────────────────────

/// The fields of a record (none for an error).
pub open spec fn rec_fields(r: Result<Seq<Seq<char>>, Seq<char>>) -> Seq<Seq<char>> {
    match r {
        Ok(f) => f,
        Err(_) => Seq::empty(),
    }
}

/// How many records are sampled: up to 8, and no more than the row limit.
pub open spec fn sample_len(limit: Option<usize>, n: nat) -> nat {
    let s: nat = match limit {
        Some(l) => if l < 8 {
            l as nat
        } else {
            8
        },
        None => 8,
    };
    if s < n {
        s
    } else {
        n
    }
}

/// The first error among the first `n` records.
pub open spec fn first_error(rs: Seq<Result<Seq<Seq<char>>, Seq<char>>>, n: nat) -> Option<Seq<char>>
    decreases n,
{
    if n == 0 {
        None
    } else {
        match first_error(rs, (n - 1) as nat) {
            Some(e) => Some(e),
            None => match rs[n - 1] {
                Err(e) => Some(e),
                Ok(_) => None,
            },
        }
    }
}

/// The rows of the first `n` records.
pub open spec fn rows_of(rs: Seq<Result<Seq<Seq<char>>, Seq<char>>>, n: nat) -> Seq<Seq<Seq<char>>> {
    Seq::new(n, |j: int| rec_fields(rs[j]))
}

/// The trimmed field that decides a column's type: the first one in the
/// sample rows that is not an NA token.
pub open spec fn type_field(rows: Seq<Seq<Seq<char>>>, c: int) -> Option<Seq<char>>
    decreases rows.len(),
{
    if rows.len() == 0 {
        None
    } else if c < rows[0].len() && !is_na_chars(spec_trim(rows[0][c])) {
        Some(spec_trim(rows[0][c]))
    } else {
        type_field(rows.drop_first(), c)
    }
}

/// A column's type: what its deciding field indicates, numeric if all sampled
/// cells are NA.
pub open spec fn col_type(rows: Seq<Seq<Seq<char>>>, c: int) -> ColType {
    match type_field(rows, c) {
        Some(f) => detect_kind(spec_trim(f)),
        None => ColType::F64,
    }
}

pub open spec fn header_error(e: Seq<char>) -> Seq<char> {
    "Error reading CSV headers: "@ + e
}

pub open spec fn record_error(e: Seq<char>) -> Seq<char> {
    "Error reading CSV record: "@ + e
}

pub open spec fn width_error(got: nat, expected: nat) -> Seq<char> {
    "CSV row has "@ + decimal(got) + " columns, expected "@ + decimal(expected)
}

/// Reading the records after the sample (the first of them is record number
/// `start`): how many are kept before the row limit or the end, and the error
/// that stops the reading, if any.
pub open spec fn rest_scan(
    rs: Seq<Result<Seq<Seq<char>>, Seq<char>>>,
    start: nat,
    limit: Option<usize>,
    ncols: nat,
) -> (nat, Option<Seq<char>>)
    decreases rs.len(),
{
    if rs.len() == 0 {
        (0, None)
    } else if limit matches Some(l) && start >= l {
        (0, None)
    } else {
        match rs[0] {
            Err(e) => (0, Some(record_error(e))),
            Ok(f) => if f.len() != ncols {
                (0, Some(width_error(f.len(), ncols)))
            } else {
                let (n, e) = rest_scan(rs.drop_first(), start + 1, limit, ncols);
                (n + 1, e)
            },
        }
    }
}

/// The trimmed cells of column `c`, from the rows that have one.
pub open spec fn cell_texts(rows: Seq<Seq<Seq<char>>>, c: int) -> Seq<Seq<char>>
    decreases rows.len(),
{
    if rows.len() == 0 {
        Seq::empty()
    } else if c < rows.last().len() {
        cell_texts(rows.drop_last(), c).push(spec_trim(rows.last()[c]))
    } else {
        cell_texts(rows.drop_last(), c)
    }
}

/// The loaded table: its column names, their types and its rows; or the
/// error message.
pub open spec fn spec_csv_table(
    h: Result<Seq<Seq<char>>, Seq<char>>,
    rs: Seq<Result<Seq<Seq<char>>, Seq<char>>>,
    limit: Option<usize>,
) -> Result<(Seq<Seq<char>>, Seq<ColType>, Seq<Seq<Seq<char>>>), Seq<char>> {
    match h {
        Err(e) => Err(header_error(e)),
        Ok(raw) => {
            let names = raw.map_values(|f: Seq<char>| spec_trim(f));
            let k = sample_len(limit, rs.len());
            match first_error(rs, k) {
                Some(e) => Err(record_error(e)),
                None => {
                    let sample = rows_of(rs, k);
                    let types = Seq::new(names.len(), |c: int| col_type(sample, c));
                    let (n, err) = rest_scan(rs.skip(k as int), k, limit, names.len());
                    match err {
                        Some(e) => Err(e),
                        None => Ok((names, types, rows_of(rs, k + n))),
                    }
                },
            }
        },
    }
}

/// The inputs on which loading does its work without panicking: no sampled
/// row is wider than the header, and every timestamp cell read before the
/// loading stops has a value that fits in 64 bits.
pub open spec fn csv_loadable(
    h: Result<Seq<Seq<char>>, Seq<char>>,
    rs: Seq<Result<Seq<Seq<char>>, Seq<char>>>,
    limit: Option<usize>,
) -> bool {
    match h {
        Err(_) => true,
        Ok(raw) => {
            let k = sample_len(limit, rs.len());
            let sample = rows_of(rs, k);
            let n = rest_scan(rs.skip(k as int), k, limit, raw.len()).0;
            let rows = rows_of(rs, k + n);
            first_error(rs, k) is Some || k == 0 || {
                &&& forall|j: int| 0 <= j < k ==> (#[trigger] sample[j]).len() <= raw.len()
                &&& forall|c: int, j: int|
                    0 <= c < raw.len() && 0 <= j < rows.len() && col_type(sample, c)
                        == ColType::Timestamp && c < rows[j].len() ==> timestamp_text_ok(
                        spec_trim(#[trigger] rows[j][c]),
                    )
            }
        },
    }
}

/// Interning names in order: the final name table and each name's index.
pub open spec fn intern_all(ns: Seq<Seq<char>>, names: Seq<Seq<char>>) -> (Seq<Seq<char>>, Seq<int>)
    decreases names.len(),
{
    if names.len() == 0 {
        (ns, Seq::empty())
    } else {
        let (ns2, ids) = intern_all(ns, names.drop_last());
        let (ns3, id) = spec_intern(ns2, names.last());
        (ns3, ids.push(id))
    }
}

/// A column holds the cells of the given texts under its type.
pub open spec fn column_holds(col: Column, t: ColType, texts: Seq<Seq<char>>) -> bool {
    match (col, t) {
        (Column::Numeric(v), ColType::F64) => strings_view(v@) == texts,
        (Column::Date(v), ColType::Date) => v@.len() == texts.len() && forall|j: int|
            0 <= j < texts.len() ==> #[trigger] v@[j] == date_or_null(texts[j]),
        (Column::Timestamp(v), ColType::Timestamp) => v@.len() == texts.len() && forall|j: int|
            0 <= j < texts.len() ==> #[trigger] v@[j] == timestamp_or_null(texts[j]),
        _ => false,
    }
}

// ─── Lemmas ─────────────────────────────────────────────────────────────────

proof fn lemma_first_error_none(rs: Seq<Result<Seq<Seq<char>>, Seq<char>>>, n: nat)
    requires
        n <= rs.len(),
        forall|j: int| 0 <= j < n ==> (#[trigger] rs[j]) is Ok,
    ensures
        first_error(rs, n) is None,
    decreases n,
{
    if n > 0 {
        lemma_first_error_none(rs, (n - 1) as nat);
    }
}

proof fn lemma_first_error_at(rs: Seq<Result<Seq<Seq<char>>, Seq<char>>>, j: nat, n: nat)
    requires
        j < n <= rs.len(),
        forall|i: int| 0 <= i < j ==> (#[trigger] rs[i]) is Ok,
        rs[j as int] is Err,
    ensures
        first_error(rs, n) == Some(rs[j as int]->Err_0),
    decreases n,
{
    if n > j + 1 {
        lemma_first_error_at(rs, j, (n - 1) as nat);
    } else {
        lemma_first_error_none(rs, j);
    }
}

proof fn lemma_cell_texts_push(rows: Seq<Seq<Seq<char>>>, j: int, c: int)
    requires
        0 <= j < rows.len(),
    ensures
        cell_texts(rows.take(j + 1), c) == if c < rows[j].len() {
            cell_texts(rows.take(j), c).push(spec_trim(rows[j][c]))
        } else {
            cell_texts(rows.take(j), c)
        },
{
    assert(rows.take(j + 1).drop_last() =~= rows.take(j));
}

proof fn lemma_intern_all_push(ns: Seq<Seq<char>>, names: Seq<Seq<char>>, i: int)
    requires
        0 <= i < names.len(),
    ensures
        intern_all(ns, names.take(i + 1)) == ({
            let (ns2, ids) = intern_all(ns, names.take(i));
            let (ns3, id) = spec_intern(ns2, names[i]);
            (ns3, ids.push(id))
        }),
{
    assert(names.take(i + 1).drop_last() =~= names.take(i));
}

proof fn lemma_intern_all_len(ns: Seq<Seq<char>>, names: Seq<Seq<char>>)
    ensures
        intern_all(ns, names).1.len() == names.len(),
    decreases names.len(),
{
    if names.len() > 0 {
        lemma_intern_all_len(ns, names.drop_last());
    }
}

// ─── Loading ────────────────────────────────────────────────────────────────

/// The type of column `c`, from the first `k` records (all of them rows).
fn detect_col(records: &Vec<Result<Vec<String>, String>>, k: usize, c: usize) -> (t: ColType)
    requires
        k <= records@.len(),
        forall|j: int| 0 <= j < k ==> (#[trigger] records@[j]) is Ok,
    ensures
        t == col_type(rows_of(records_view(records@), k as nat), c as int),
{
    match type_field_of(records, k, c) {
        Some(f) => crate::io::detect_column_type(f),
        None => ColType::F64,
    }
}

/// Build column `c` (of type `t`) from the first `n` records.
fn build_column(records: &Vec<Result<Vec<String>, String>>, n: usize, c: usize, t: ColType) -> (col:
    Column)
    requires
        n <= records@.len(),
        forall|j: int| 0 <= j < n ==> (#[trigger] records@[j]) is Ok,
        t == ColType::Timestamp ==> forall|j: int|
            0 <= j < n && c < rows_of(records_view(records@), n as nat)[j].len() ==> timestamp_text_ok(
                spec_trim(#[trigger] rows_of(records_view(records@), n as nat)[j][c as int]),
            ),
    ensures
        column_holds(col, t, cell_texts(rows_of(records_view(records@), n as nat), c as int)),
{
    let ghost rows = rows_of(records_view(records@), n as nat);
    let mut texts: Vec<String> = Vec::new();
    let mut dates: Vec<i32> = Vec::new();
    let mut stamps: Vec<i64> = Vec::new();
    let mut j: usize = 0;
    assert(rows.take(0) =~= Seq::<Seq<Seq<char>>>::empty());
    while j < n
        invariant
            j <= n,
            n <= records@.len(),
            rows == rows_of(records_view(records@), n as nat),
            forall|i: int| 0 <= i < n ==> (#[trigger] records@[i]) is Ok,
            t == ColType::Timestamp ==> forall|i: int|
                0 <= i < n && c < rows[i].len() ==> timestamp_text_ok(spec_trim(#[trigger] rows[i][c as int])),
            t == ColType::F64 ==> strings_view(texts@) == cell_texts(rows.take(j as int), c as int),
            t == ColType::Date ==> dates@.len() == cell_texts(rows.take(j as int), c as int).len()
                && forall|i: int|
                0 <= i < dates@.len() ==> #[trigger] dates@[i] == date_or_null(
                    cell_texts(rows.take(j as int), c as int)[i],
                ),
            t == ColType::Timestamp ==> stamps@.len() == cell_texts(rows.take(j as int), c as int).len()
                && forall|i: int|
                0 <= i < stamps@.len() ==> #[trigger] stamps@[i] == timestamp_or_null(
                    cell_texts(rows.take(j as int), c as int)[i],
                ),
        decreases n - j,
    {
        proof {
            lemma_cell_texts_push(rows, j as int, c as int);
        }
        assert(records@[j as int] is Ok);
        match &records[j] {
            Ok(fields) => {
                assert(rows[j as int] == strings_view(fields@));
                if c < fields.len() {
                    let field = crate::io::trim_text(fields[c].as_str());
                    match t {
                        ColType::F64 => {
                            texts.push(String::from_str(field));
                            assert(strings_view(texts@) =~= cell_texts(rows.take(j + 1), c as int));
                        },
                        ColType::Date => {
                            dates.push(crate::io::parse_date_or_null(field));
                        },
                        ColType::Timestamp => {
                            stamps.push(crate::io::parse_timestamp_or_null(field));
                        },
                    }
                }
            },
            Err(_) => {},
        }
        j += 1;
    }
    assert(rows.take(n as int) =~= rows);
    match t {
        ColType::F64 => Column::Numeric(texts),
        ColType::Date => Column::Date(dates),
        ColType::Timestamp => Column::Timestamp(stamps),
    }
}

/// Trimmed copies of the header names.
fn trim_names(raw: &Vec<String>) -> (names: Vec<String>)
    ensures
        strings_view(names@) == strings_view(raw@).map_values(|f: Seq<char>| spec_trim(f)),
{
    let mut names: Vec<String> = Vec::new();
    let mut i: usize = 0;
    while i < raw.len()
        invariant
            i <= raw@.len(),
            names@.len() == i,
            forall|j: int| 0 <= j < i ==> (#[trigger] names@[j])@ == spec_trim(raw@[j]@),
        decreases raw@.len() - i,
    {
        names.push(String::from_str(crate::io::trim_text(raw[i].as_str())));
        i += 1;
    }
    assert(strings_view(names@) =~= strings_view(raw@).map_values(|f: Seq<char>| spec_trim(f)));
    names
}

/// How many records are sampled (see `sample_len`).
fn sample_count(row_limit: Option<usize>, n: usize) -> (k: usize)
    ensures
        k == sample_len(row_limit, n as nat),
{
    let cap: usize = match row_limit {
        Some(l) => if l < TYPE_DETECTION_ROWS {
            l
        } else {
            TYPE_DETECTION_ROWS
        },
        None => TYPE_DETECTION_ROWS,
    };
    if cap < n {
        cap
    } else {
        n
    }
}

/// The position of the first error among the first `k` records.
fn first_error_pos(records: &Vec<Result<Vec<String>, String>>, k: usize) -> (r: Option<usize>)
    requires
        k <= records@.len(),
    ensures
        match r {
            Some(j) => j < k && records@[j as int] is Err && first_error(records_view(records@), k as nat)
                == Some(records@[j as int]->Err_0@) && forall|i: int| 0 <= i < j ==> (#[trigger] records@[i]) is Ok,
            None => first_error(records_view(records@), k as nat) is None && forall|i: int|
                0 <= i < k ==> (#[trigger] records@[i]) is Ok,
        },
{
    let ghost rv = records_view(records@);
    let mut j: usize = 0;
    while j < k
        invariant
            j <= k,
            k <= records@.len(),
            rv == records_view(records@),
            forall|i: int| 0 <= i < j ==> (#[trigger] records@[i]) is Ok,
        decreases k - j,
    {
        if records[j].is_err() {
            proof {
                assert forall|i: int| 0 <= i < j implies (#[trigger] rv[i]) is Ok by {
                    assert(records@[i] is Ok);
                }
                lemma_first_error_at(rv, j as nat, k as nat);
            }
            return Some(j);
        }
        j += 1;
    }
    proof {
        assert forall|i: int| 0 <= i < k implies (#[trigger] rv[i]) is Ok by {
            assert(records@[i] is Ok);
        }
        lemma_first_error_none(rv, k as nat);
    }
    None
}

/// "CSV row has `got` columns, expected `expected`".
fn width_message(got: usize, expected: usize) -> (m: String)
    ensures
        m@ == width_error(got as nat, expected as nat),
{
    let mut m = String::from_str("CSV row has ");
    push_decimal(&mut m, got as u64);
    m.append(" columns, expected ");
    push_decimal(&mut m, expected as u64);
    m
}

fn prefixed(prefix: &str, e: &str) -> (m: String)
    ensures
        m@ == prefix@ + e@,
{
    let mut m = String::from_str(prefix);
    m.append(e);
    m
}

/// Read the records after the sample (from record `k`): where the kept rows
/// end, and the message of the error that stops the reading, if any.
fn scan_rest(records: &Vec<Result<Vec<String>, String>>, k: usize, row_limit: Option<usize>, ncols: usize) -> (r: (
    usize,
    Option<String>,
))
    requires
        k <= records@.len(),
    ensures
        k <= r.0 <= records@.len(),
        rest_scan(records_view(records@).skip(k as int), k as nat, row_limit, ncols as nat) == (
            (r.0 - k) as nat,
            match r.1 {
                Some(e) => Some(e@),
                None => None::<Seq<char>>,
            },
        ),
        forall|i: int| k <= i < r.0 ==> (#[trigger] records@[i]) is Ok && records@[i]->Ok_0@.len() == ncols,
{
    let ghost rv = records_view(records@);
    let n = records.len();
    let mut j: usize = k;
    assert(rv.skip(k as int) =~= rv.skip(j as int));
    while j < n
        invariant
            k <= j <= n,
            n == records@.len(),
            rv == records_view(records@),
            rest_scan(rv.skip(k as int), k as nat, row_limit, ncols as nat) == ({
                let (m, e) = rest_scan(rv.skip(j as int), j as nat, row_limit, ncols as nat);
                ((m + (j - k)) as nat, e)
            }),
            forall|i: int| k <= i < j ==> (#[trigger] records@[i]) is Ok && records@[i]->Ok_0@.len() == ncols,
        decreases n - j,
    {
        assert(rv.skip(j as int)[0] == rv[j as int]);
        assert(rv.skip(j as int).drop_first() =~= rv.skip(j + 1));
        if let Some(l) = row_limit {
            if j >= l {
                return (j, None);
            }
        }
        match &records[j] {
            Err(e) => {
                return (j, Some(prefixed("Error reading CSV record: ", e.as_str())));
            },
            Ok(fields) => {
                if fields.len() != ncols {
                    return (j, Some(width_message(fields.len(), ncols)));
                }
            },
        }
        j += 1;
    }
    assert(rv.skip(n as int).len() == 0);
    (j, None)
}

/// A loading result agrees with the specification: the error message and an
/// untouched interner, or the table with its names interned in order.
pub open spec fn loaded_as(
    h: Result<Seq<Seq<char>>, Seq<char>>,
    rs: Seq<Result<Seq<Seq<char>>, Seq<char>>>,
    limit: Option<usize>,
    before: Seq<Seq<char>>,
    after: Seq<Seq<char>>,
    r: Result<Value, String>,
) -> bool {
    match spec_csv_table(h, rs, limit) {
        Err(m) => (r matches Err(e) && e@ == m) && after == before,
        Ok((names, types, rows)) => {
            let (ns, ids) = intern_all(before, names);
            &&& r matches Ok(Value::Table(t))
            &&& t.row_count == rows.len()
            &&& t.columns@.len() == names.len()
            &&& after == ns
            &&& forall|i: int|
                0 <= i < names.len() ==> #[trigger] t.columns@[i].0 == SymbolId(ids[i] as usize)
            &&& forall|i: int|
                0 <= i < names.len() ==> column_holds(
                    #[trigger] t.columns@[i].1,
                    types[i],
                    cell_texts(rows, i),
                )
        },
    }
}

/// Build a table from the records the CSV reader produced (the header record
/// and the data records), reading no more than `row_limit` data rows.
pub fn table_from_records(
    headers: Result<Vec<String>, String>,
    records: Vec<Result<Vec<String>, String>>,
    interner: &mut Interner,
    row_limit: Option<usize>,
) -> (r: Result<Value, String>)
    requires
        old(interner).wf(),
        csv_loadable(record_view(headers), records_view(records@), row_limit),
    ensures
        final(interner).wf(),
        loaded_as(
            record_view(headers),
            records_view(records@),
            row_limit,
            old(interner)@,
            final(interner)@,
            r,
        ),
{
    let ghost hv = record_view(headers);
    let ghost rv = records_view(records@);
    let raw = match headers {
        Ok(h) => h,
        Err(e) => {
            return Err(prefixed("Error reading CSV headers: ", e.as_str()));
        },
    };
    let names = trim_names(&raw);
    let ncols = names.len();
    let k = sample_count(row_limit, records.len());
    match first_error_pos(&records, k) {
        Some(j) => {
            return Err(prefixed("Error reading CSV record: ", records[j].as_ref().unwrap_err().as_str()));
        },
        None => {},
    }
    let (end, err) = scan_rest(&records, k, row_limit, ncols);
    match err {
        Some(e) => {
            return Err(e);
        },
        None => {},
    }
    let ghost names_v = strings_view(names@);
    let ghost sample = rows_of(rv, k as nat);
    let ghost rows = rows_of(rv, end as nat);
    let ghost before = interner@;
    assert(names_v == hv->Ok_0.map_values(|f: Seq<char>| spec_trim(f)));
    let mut columns: Vec<(SymbolId, Column)> = Vec::new();
    let mut i: usize = 0;
    assert(names_v.take(0) =~= Seq::<Seq<char>>::empty());
    while i < ncols
        invariant
            i <= ncols,
            ncols == names@.len(),
            names_v == strings_view(names@),
            names_v == hv->Ok_0.map_values(|f: Seq<char>| spec_trim(f)),
            hv == record_view(headers),
            hv is Ok,
            rv == records_view(records@),
            k <= end <= records@.len(),
            k == sample_len(row_limit, records@.len() as nat),
            first_error(rv, k as nat) is None,
            forall|j: int| 0 <= j < k ==> (#[trigger] records@[j]) is Ok,
            forall|j: int| k <= j < end ==> (#[trigger] records@[j]) is Ok,
            rest_scan(rv.skip(k as int), k as nat, row_limit, ncols as nat).0 == end - k,
            sample == rows_of(rv, k as nat),
            rows == rows_of(rv, end as nat),
            csv_loadable(hv, rv, row_limit),
            interner.wf(),
            (interner@, intern_all(before, names_v.take(i as int)).1) == intern_all(before, names_v.take(i as int)),
            columns@.len() == i,
            forall|c: int|
                0 <= c < i ==> #[trigger] columns@[c].0 == SymbolId(
                    intern_all(before, names_v.take(i as int)).1[c] as usize,
                ),
            forall|c: int|
                0 <= c < i ==> column_holds(
                    #[trigger] columns@[c].1,
                    col_type(sample, c),
                    cell_texts(rows, c),
                ),
        decreases ncols - i,
    {
        proof {
            let raw_v = hv->Ok_0;
            assert(names_v.len() == raw_v.len());
            assert(names_v.len() == ncols);
            assert(raw_v.len() == ncols);
            assert(rows == rows_of(rv, (k + rest_scan(rv.skip(k as int), k as nat, row_limit, raw_v.len()).0) as nat));
        }
        let t = detect_col(&records, k, i);
        proof {
            assert forall|jj: int|
                0 <= jj < end && i < rows_of(rv, end as nat)[jj].len() && t == ColType::Timestamp
                implies timestamp_text_ok(spec_trim(#[trigger] rows_of(rv, end as nat)[jj][i as int])) by {
                assert(rows[jj][i as int] == rows_of(rv, end as nat)[jj][i as int]);
            }
        }
        let col = build_column(&records, end, i, t);
        let ghost ids_before = intern_all(before, names_v.take(i as int)).1;
        let ghost cols_before = columns@;

        let sym = interner.intern(names[i].as_str());
        proof {
            lemma_intern_all_push(before, names_v, i as int);
            lemma_intern_all_len(before, names_v.take(i as int));
            assert(names_v[i as int] == names@[i as int]@);
        }
        columns.push((sym, col));
        proof {
            let new_ids = intern_all(before, names_v.take(i + 1)).1;
            assert(new_ids == ids_before.push(sym.0 as int));
            assert(columns@[i as int] == (sym, col));
            assert(sym.0 == new_ids[i as int]);
            assert(t == col_type(sample, i as int));
            assert(column_holds(col, t, cell_texts(rows, i as int)));
            assert forall|c: int| 0 <= c < i + 1 implies #[trigger] columns@[c].0 == SymbolId(
                new_ids[c] as usize,
            ) by {
                if c < i {
                    assert(columns@[c] == cols_before[c]);
                    assert(new_ids[c] == ids_before[c]);
                }
            }
            assert forall|c: int| 0 <= c < i + 1 implies column_holds(
                #[trigger] columns@[c].1,
                col_type(sample, c),
                cell_texts(rows, c),
            ) by {
                if c < i {
                    assert(columns@[c] == cols_before[c]);
                }
            }
        }
        i += 1;
    }
    assert(names_v.take(ncols as int) =~= names_v);
    Ok(Value::Table(Arc::new(Table { columns, row_count: end })))
}

/// Whether `table_from_records` does its work without panicking on these
/// records (see `csv_loadable`).
pub fn records_loadable(
    headers: &Result<Vec<String>, String>,
    records: &Vec<Result<Vec<String>, String>>,
    row_limit: Option<usize>,
) -> (b: bool)
    ensures
        b == csv_loadable(record_view(*headers), records_view(records@), row_limit),
{
    let ghost rv = records_view(records@);
    let raw = match headers {
        Ok(h) => h,
        Err(_) => return true,
    };
    let ncols = raw.len();
    let k = sample_count(row_limit, records.len());
    if first_error_pos(records, k).is_some() || k == 0 {
        return true;
    }
    let ghost sample = rows_of(rv, k as nat);
    let ghost hv = record_view(*headers);
    assert(hv == Ok::<Seq<Seq<char>>, Seq<char>>(strings_view(raw@)));
    // no sampled row is wider than the header
    let mut j: usize = 0;
    while j < k
        invariant
            j <= k,
            k <= records@.len(),
            0 < k,
            k == sample_len(row_limit, records@.len() as nat),
            first_error(rv, k as nat) is None,
            hv == record_view(*headers),
            hv == Ok::<Seq<Seq<char>>, Seq<char>>(strings_view(raw@)),
            ncols == raw@.len(),
            rv == records_view(records@),
            sample == rows_of(rv, k as nat),
            forall|i: int| 0 <= i < k ==> (#[trigger] records@[i]) is Ok,
            forall|i: int| 0 <= i < j ==> (#[trigger] sample[i]).len() <= ncols,
        decreases k - j,
    {
        assert(records@[j as int] is Ok);
        let w = records[j].as_ref().unwrap().len();
        assert(sample[j as int].len() == w);
        if w > ncols {
            return false;
        }
        j += 1;
    }
    let (end, _) = scan_rest(records, k, row_limit, ncols);
    let ghost rows = rows_of(rv, end as nat);
    // type fields, and timestamp cells
    let mut c: usize = 0;
    while c < ncols
        invariant
            c <= ncols,
            ncols == raw@.len(),
            k <= end <= records@.len(),
            0 < k,
            k == sample_len(row_limit, records@.len() as nat),
            first_error(rv, k as nat) is None,
            hv == record_view(*headers),
            hv == Ok::<Seq<Seq<char>>, Seq<char>>(strings_view(raw@)),
            rest_scan(rv.skip(k as int), k as nat, row_limit, ncols as nat).0 == end - k,
            forall|i: int| 0 <= i < k ==> (#[trigger] sample[i]).len() <= ncols,
            rv == records_view(records@),
            sample == rows_of(rv, k as nat),
            rows == rows_of(rv, end as nat),
            forall|i: int| 0 <= i < k ==> (#[trigger] records@[i]) is Ok,
            forall|i: int| k <= i < end ==> (#[trigger] records@[i]) is Ok,
            forall|cc: int, jj: int|
                0 <= cc < c && 0 <= jj < rows.len() && col_type(sample, cc) == ColType::Timestamp
                    && cc < rows[jj].len() ==> timestamp_text_ok(spec_trim(#[trigger] rows[jj][cc])),
        decreases ncols - c,
    {
        let t = detect_col(records, k, c);
        if t == ColType::Timestamp {
            let mut jj: usize = 0;
            while jj < end
                invariant
                    jj <= end,
                    c < ncols,
                    ncols == raw@.len(),
                    k <= end <= records@.len(),
                    0 < k,
                    k == sample_len(row_limit, records@.len() as nat),
                    first_error(rv, k as nat) is None,
                    hv == record_view(*headers),
                    hv == Ok::<Seq<Seq<char>>, Seq<char>>(strings_view(raw@)),
                    rest_scan(rv.skip(k as int), k as nat, row_limit, ncols as nat).0 == end - k,
                    sample == rows_of(rv, k as nat),
                    t == col_type(sample, c as int),
                    t == ColType::Timestamp,
                    strings_view(raw@).len() == ncols,
                    rv == records_view(records@),
                    rows == rows_of(rv, end as nat),
                    forall|i: int| 0 <= i < end ==> (#[trigger] records@[i]) is Ok,
                    forall|i: int|
                        0 <= i < jj && c < rows[i].len() ==> timestamp_text_ok(spec_trim(#[trigger] rows[i][c as int])),
                decreases end - jj,
            {
                assert(records@[jj as int] is Ok);
                let fields = records[jj].as_ref().unwrap();
                assert(rows[jj as int] == strings_view(fields@));
                if c < fields.len() {
                    let cell = crate::io::trim_text(fields[c].as_str());
                    assert(rows[jj as int][c as int] == fields@[c as int]@);
                    if !crate::io::timestamp_text_check(cell) {
                        assert(!timestamp_text_ok(spec_trim(rows[jj as int][c as int])));
                        assert(rows_of(
                            rv,
                            (k + rest_scan(rv.skip(k as int), k as nat, row_limit, strings_view(raw@).len()).0) as nat,
                        )[jj as int][c as int] == rows[jj as int][c as int]);
                        return false;
                    }
                }
                jj += 1;
            }
        }
        c += 1;
    }
    true
}

/// The field that decides the type of column `c` (see `type_field`).
fn type_field_of<'a>(records: &'a Vec<Result<Vec<String>, String>>, k: usize, c: usize) -> (r: Option<
    &'a str,
>)
    requires
        k <= records@.len(),
        forall|j: int| 0 <= j < k ==> (#[trigger] records@[j]) is Ok,
    ensures
        match r {
            Some(f) => type_field(rows_of(records_view(records@), k as nat), c as int) == Some(f@),
            None => type_field(rows_of(records_view(records@), k as nat), c as int) is None,
        },
{
    let ghost rv = records_view(records@);
    let ghost sample = rows_of(rv, k as nat);
    let mut j: usize = 0;
    assert(sample.skip(0) =~= sample);
    while j < k
        invariant
            j <= k,
            k <= records@.len(),
            rv == records_view(records@),
            sample == rows_of(rv, k as nat),
            forall|i: int| 0 <= i < k ==> (#[trigger] records@[i]) is Ok,
            type_field(sample, c as int) == type_field(sample.skip(j as int), c as int),
        decreases k - j,
    {
        assert(sample.skip(j as int)[0] == sample[j as int]);
        assert(sample.skip(j as int).drop_first() =~= sample.skip(j + 1));
        assert(records@[j as int] is Ok);
        let fields = records[j].as_ref().unwrap();
        assert(sample[j as int] == strings_view(fields@));
        if c < fields.len() {
            let field = crate::io::trim_text(fields[c].as_str());
            if !crate::io::is_na_token(field) {
                return Some(field);
            }
        }
        j += 1;
    }
    None
}

/// Parse `;`-separated CSV text into a table, reading no more than
/// `row_limit` data rows. `None` for a text whose records make the loading
/// panic (see `csv_loadable`).
pub fn parse_csv(content: &str, interner: &mut Interner, row_limit: Option<usize>) -> (r: Option<
    Result<Value, String>,
>)
    requires
        old(interner).wf(),
    ensures
        final(interner).wf(),
        r is None <==> !csv_loadable(csv_records(content@).0, csv_records(content@).1, row_limit),
        r is None ==> final(interner)@ == old(interner)@,
        r matches Some(x) ==> loaded_as(
            csv_records(content@).0,
            csv_records(content@).1,
            row_limit,
            old(interner)@,
            final(interner)@,
            x,
        ),
{
    let (headers, records) = csv_split(content);
    if !records_loadable(&headers, &records, row_limit) {
        return None;
    }
    Some(table_from_records(headers, records, interner, row_limit))
}

// ─── Loading selected columns ───────────────────────────────────────────────

/// Position of the first name equal to `w` from `i` on.
pub open spec fn first_index(names: Seq<Seq<char>>, w: Seq<char>, i: int) -> Option<int>
    decreases names.len() - i,
{
    if i < 0 || i >= names.len() {
        None
    } else if names[i] == w {
        Some(i)
    } else {
        first_index(names, w, i + 1)
    }
}

/// The first requested name from position `i` on that the header lacks.
pub open spec fn missing_col(names: Seq<Seq<char>>, wanted: Seq<Seq<char>>, i: int) -> Option<Seq<char>>
    decreases wanted.len() - i,
{
    if i < 0 || i >= wanted.len() {
        None
    } else if first_index(names, wanted[i], 0) is None {
        Some(wanted[i])
    } else {
        missing_col(names, wanted, i + 1)
    }
}

pub open spec fn cols_missing_message(w: Seq<char>, names: Seq<Seq<char>>) -> Seq<char> {
    "file-cols: column '"@ + w + "' not found. Available: \""@ + join_with(names, "\", \""@) + "\""@
}

/// Position of the first bad record from `i` on, or the number of records.
pub open spec fn err_pos(rs: Seq<Result<Seq<Seq<char>>, Seq<char>>>, i: int) -> int
    decreases rs.len() - i,
{
    if i < 0 || i >= rs.len() {
        rs.len() as int
    } else if rs[i] is Err {
        i
    } else {
        err_pos(rs, i + 1)
    }
}

/// The trimmed cells of column `c`, one per row; empty (a missing value)
/// where a row has no such field.
pub open spec fn col_cells(rows: Seq<Seq<Seq<char>>>, c: int) -> Seq<Seq<char>> {
    Seq::new(rows.len(), |j: int| if c < rows[j].len() { spec_trim(rows[j][c]) } else { Seq::empty() })
}

/// The table of the requested columns: for each requested name its header
/// position and type, and all the rows; `None` for a file without data rows;
/// or the error message.
pub open spec fn spec_csv_cols(
    h: Result<Seq<Seq<char>>, Seq<char>>,
    rs: Seq<Result<Seq<Seq<char>>, Seq<char>>>,
    wanted: Seq<Seq<char>>,
) -> Result<Option<(Seq<int>, Seq<ColType>, Seq<Seq<Seq<char>>>)>, Seq<char>> {
    match h {
        Err(e) => Err(header_error(e)),
        Ok(raw) => {
            let names = raw.map_values(|f: Seq<char>| spec_trim(f));
            match missing_col(names, wanted, 0) {
                Some(w) => Err(cols_missing_message(w, names)),
                None => match first_error(rs, rs.len()) {
                    Some(e) => Err(record_error(e)),
                    None => if rs.len() == 0 {
                        Ok(None)
                    } else {
                        let sample = rows_of(rs, sample_len(None, rs.len()));
                        let idx = Seq::new(wanted.len(), |i: int| first_index(names, wanted[i], 0)->0);
                        Ok(
                            Some(
                                (
                                    idx,
                                    Seq::new(wanted.len(), |i: int| col_type(sample, idx[i])),
                                    rows_of(rs, rs.len()),
                                ),
                            ),
                        )
                    },
                },
            }
        },
    }
}

/// The inputs on which loading the requested columns does its work without
/// panicking: every timestamp cell read before a bad record (or the end) has
/// a value that fits in 64 bits.
pub open spec fn cols_loadable(
    h: Result<Seq<Seq<char>>, Seq<char>>,
    rs: Seq<Result<Seq<Seq<char>>, Seq<char>>>,
    wanted: Seq<Seq<char>>,
) -> bool {
    match h {
        Err(_) => true,
        Ok(raw) => {
            let names = raw.map_values(|f: Seq<char>| spec_trim(f));
            let k = sample_len(None, rs.len());
            let sample = rows_of(rs, k);
            let read = rows_of(rs, err_pos(rs, 0) as nat);
            missing_col(names, wanted, 0) is Some || first_error(rs, k) is Some || k == 0 || {
                &&& forall|i: int, j: int|
                    0 <= i < wanted.len() && 0 <= j < read.len() && col_type(
                        sample,
                        first_index(names, wanted[i], 0)->0,
                    ) == ColType::Timestamp && first_index(names, wanted[i], 0)->0 < read[j].len()
                        ==> timestamp_text_ok(
                        spec_trim(#[trigger] read[j][first_index(names, wanted[i], 0)->0]),
                    )
            }
        },
    }
}

/// A result of loading requested columns agrees with the specification: the
/// error and an untouched interner; an empty table; or the columns in the
/// requested order, named by the requested names interned in order.
pub open spec fn loaded_cols_as(
    h: Result<Seq<Seq<char>>, Seq<char>>,
    rs: Seq<Result<Seq<Seq<char>>, Seq<char>>>,
    wanted: Seq<Seq<char>>,
    before: Seq<Seq<char>>,
    after: Seq<Seq<char>>,
    r: Result<Value, String>,
) -> bool {
    match spec_csv_cols(h, rs, wanted) {
        Err(m) => (r matches Err(e) && e@ == m) && after == before,
        Ok(None) => (r matches Ok(Value::Table(t)) && t.columns@.len() == 0 && t.row_count == 0)
            && after == before,
        Ok(Some((idx, types, rows))) => {
            let (ns, ids) = intern_all(before, wanted);
            &&& r matches Ok(Value::Table(t))
            &&& t.row_count == rows.len()
            &&& t.columns@.len() == wanted.len()
            &&& after == ns
            &&& forall|i: int|
                0 <= i < wanted.len() ==> #[trigger] t.columns@[i].0 == SymbolId(ids[i] as usize)
            &&& forall|i: int|
                0 <= i < wanted.len() ==> column_holds(
                    #[trigger] t.columns@[i].1,
                    types[i],
                    col_cells(rows, idx[i]),
                )
        },
    }
}

proof fn lemma_err_pos_at(rs: Seq<Result<Seq<Seq<char>>, Seq<char>>>, i: int, j: int)
    requires
        0 <= i <= j <= rs.len(),
        forall|k: int| i <= k < j ==> (#[trigger] rs[k]) is Ok,
        j < rs.len() ==> rs[j] is Err,
    ensures
        err_pos(rs, i) == j,
    decreases j - i,
{
    if i < j {
        lemma_err_pos_at(rs, i + 1, j);
    }
}

/// Position of the first header name equal to `w`.
fn position_of_name(names: &Vec<String>, w: &str) -> (r: Option<usize>)
    ensures
        match r {
            Some(i) => first_index(strings_view(names@), w@, 0) == Some(i as int),
            None => first_index(strings_view(names@), w@, 0) is None,
        },
{
    let ghost nv = strings_view(names@);
    let mut i: usize = 0;
    while i < names.len()
        invariant
            i <= names@.len(),
            nv == strings_view(names@),
            first_index(nv, w@, 0) == first_index(nv, w@, i as int),
        decreases names@.len() - i,
    {
        if str_eq(names[i].as_str(), w) {
            assert(nv[i as int] == w@);
            return Some(i);
        }
        i += 1;
    }
    None
}

/// Column `c` of type `t`, one cell per record (all of them rows); a record
/// without the field gives a missing value.
fn build_padded_column(records: &Vec<Result<Vec<String>, String>>, c: usize, t: ColType) -> (col: Column)
    requires
        forall|j: int| 0 <= j < records@.len() ==> (#[trigger] records@[j]) is Ok,
        t == ColType::Timestamp ==> forall|j: int|
            0 <= j < records@.len() && c < rows_of(records_view(records@), records@.len() as nat)[j].len()
                ==> timestamp_text_ok(
                spec_trim(#[trigger] rows_of(records_view(records@), records@.len() as nat)[j][c as int]),
            ),
    ensures
        column_holds(col, t, col_cells(rows_of(records_view(records@), records@.len() as nat), c as int)),
{
    let ghost rows = rows_of(records_view(records@), records@.len() as nat);
    let ghost cells = col_cells(rows, c as int);
    let n = records.len();
    let mut texts: Vec<String> = Vec::new();
    let mut dates: Vec<i32> = Vec::new();
    let mut stamps: Vec<i64> = Vec::new();
    let mut j: usize = 0;
    while j < n
        invariant
            j <= n,
            n == records@.len(),
            rows == rows_of(records_view(records@), n as nat),
            cells == col_cells(rows, c as int),
            forall|i: int| 0 <= i < n ==> (#[trigger] records@[i]) is Ok,
            t == ColType::Timestamp ==> forall|i: int|
                0 <= i < n && c < rows[i].len() ==> timestamp_text_ok(spec_trim(#[trigger] rows[i][c as int])),
            t == ColType::F64 ==> texts@.len() == j && forall|i: int| 0 <= i < j ==> (#[trigger] texts@[i])@ == cells[i],
            t == ColType::Date ==> dates@.len() == j && forall|i: int|
                0 <= i < j ==> #[trigger] dates@[i] == date_or_null(cells[i]),
            t == ColType::Timestamp ==> stamps@.len() == j && forall|i: int|
                0 <= i < j ==> #[trigger] stamps@[i] == timestamp_or_null(cells[i]),
        decreases n - j,
    {
        assert(records@[j as int] is Ok);
        let fields = records[j].as_ref().unwrap();
        assert(rows[j as int] == strings_view(fields@));
        if c < fields.len() {
            let field = crate::io::trim_text(fields[c].as_str());
            assert(cells[j as int] == field@);
            match t {
                ColType::F64 => {
                    texts.push(String::from_str(field));
                },
                ColType::Date => {
                    dates.push(crate::io::parse_date_or_null(field));
                },
                ColType::Timestamp => {
                    stamps.push(crate::io::parse_timestamp_or_null(field));
                },
            }
        } else {
            assert(cells[j as int] == Seq::<char>::empty());
            assert(is_na_chars(Seq::<char>::empty()));
            match t {
                ColType::F64 => {
                    texts.push(String::new());
                },
                ColType::Date => {
                    dates.push(NULL_DATE);
                },
                ColType::Timestamp => {
                    stamps.push(NULL_TIMESTAMP);
                },
            }
        }
        j += 1;
    }
    match t {
        ColType::F64 => {
            assert(strings_view(texts@) =~= cells);
            Column::Numeric(texts)
        },
        ColType::Date => Column::Date(dates),
        ColType::Timestamp => Column::Timestamp(stamps),
    }
}

/// The error for a requested name that the header lacks, if any.
fn missing_column_of(names: &Vec<String>, col_names: &[String]) -> (r: Option<String>)
    ensures
        match r {
            Some(m) => missing_col(strings_view(names@), strings_view(col_names@), 0) matches Some(w) && m@
                == cols_missing_message(w, strings_view(names@)),
            None => missing_col(strings_view(names@), strings_view(col_names@), 0) is None,
        },
{
    let ghost nv = strings_view(names@);
    let ghost wv = strings_view(col_names@);
    let mut i: usize = 0;
    while i < col_names.len()
        invariant
            i <= col_names@.len(),
            nv == strings_view(names@),
            wv == strings_view(col_names@),
            missing_col(nv, wv, 0) == missing_col(nv, wv, i as int),
        decreases col_names@.len() - i,
    {
        if position_of_name(names, col_names[i].as_str()).is_none() {
            let mut m = String::from_str("file-cols: column '");
            m.append(col_names[i].as_str());
            m.append("' not found. Available: \"");
            assert(crate::text::texts(names@) == nv);
            push_joined(&mut m, names.as_slice(), "\", \"");
            m.append("\"");
            return Some(m);
        }
        i += 1;
    }
    None
}

/// Build a table of the requested columns, in the requested order, from the
/// records the CSV reader produced; a record without a requested field gives
/// a missing value there.
#[verifier::rlimit(40)]
pub fn table_from_records_cols(
    headers: Result<Vec<String>, String>,
    records: Vec<Result<Vec<String>, String>>,
    col_names: &[String],
    interner: &mut Interner,
) -> (r: Result<Value, String>)
    requires
        old(interner).wf(),
        cols_loadable(record_view(headers), records_view(records@), strings_view(col_names@)),
    ensures
        final(interner).wf(),
        loaded_cols_as(
            record_view(headers),
            records_view(records@),
            strings_view(col_names@),
            old(interner)@,
            final(interner)@,
            r,
        ),
{
    let ghost hv = record_view(headers);
    let ghost rv = records_view(records@);
    let ghost wv = strings_view(col_names@);
    let raw = match headers {
        Ok(h) => h,
        Err(e) => {
            return Err(prefixed("Error reading CSV headers: ", e.as_str()));
        },
    };
    let names = trim_names(&raw);
    let ghost nv = strings_view(names@);
    match missing_column_of(&names, col_names) {
        Some(m) => {
            return Err(m);
        },
        None => {},
    }
    let n = records.len();
    match first_error_pos(&records, n) {
        Some(j) => {
            return Err(prefixed("Error reading CSV record: ", records[j].as_ref().unwrap_err().as_str()));
        },
        None => {},
    }
    if n == 0 {
        return Ok(Value::Table(Arc::new(Table::new())));
    }
    let k = sample_count(None, n);
    proof {
        lemma_err_pos_at(rv, 0, n as int);
        lemma_first_error_none(rv, k as nat);
        assert forall|j: int| 0 <= j < n implies (#[trigger] rv[j]) is Ok by {
            assert(records@[j] is Ok);
        }
    }
    let ghost sample = rows_of(rv, k as nat);
    let ghost rows = rows_of(rv, n as nat);
    let ghost before = interner@;
    let mut columns: Vec<(SymbolId, Column)> = Vec::new();
    let mut i: usize = 0;
    assert(wv.take(0) =~= Seq::<Seq<char>>::empty());
    while i < col_names.len()
        invariant
            i <= col_names@.len(),
            wv == strings_view(col_names@),
            nv == strings_view(names@),
            nv == hv->Ok_0.map_values(|f: Seq<char>| spec_trim(f)),
            hv == record_view(headers),
            hv is Ok,
            rv == records_view(records@),
            n == records@.len(),
            1 <= k <= n,
            k == sample_len(None, n as nat),
            missing_col(nv, wv, 0) is None,
            first_error(rv, k as nat) is None,
            err_pos(rv, 0) == n,
            forall|j: int| 0 <= j < n ==> (#[trigger] records@[j]) is Ok,
            sample == rows_of(rv, k as nat),
            rows == rows_of(rv, n as nat),
            cols_loadable(hv, rv, wv),
            interner.wf(),
            (interner@, intern_all(before, wv.take(i as int)).1) == intern_all(before, wv.take(i as int)),
            columns@.len() == i,
            forall|c: int|
                0 <= c < i ==> #[trigger] columns@[c].0 == SymbolId(
                    intern_all(before, wv.take(i as int)).1[c] as usize,
                ),
            forall|c: int|
                0 <= c < i ==> column_holds(
                    #[trigger] columns@[c].1,
                    col_type(sample, first_index(nv, wv[c], 0)->0),
                    col_cells(rows, first_index(nv, wv[c], 0)->0),
                ),
        decreases col_names@.len() - i,
    {
        let p = position_of_name(&names, col_names[i].as_str());
        proof {
            lemma_missing_none_found(nv, wv, i as int);
        }
        let c = p.unwrap();
        assert(c as int == first_index(nv, wv[i as int], 0)->0);
        let t = detect_col(&records, k, c);
        proof {
            assert forall|jj: int|
                0 <= jj < n && c < rows_of(rv, n as nat)[jj].len() && t == ColType::Timestamp
                implies timestamp_text_ok(spec_trim(#[trigger] rows_of(rv, n as nat)[jj][c as int])) by {
                assert(rows_of(rv, err_pos(rv, 0) as nat) == rows);
                assert(rows[jj][first_index(nv, wv[i as int], 0)->0] == rows[jj][c as int]);
            }
        }
        let col = build_padded_column(&records, c, t);
        let ghost ids_before = intern_all(before, wv.take(i as int)).1;
        let ghost cols_before = columns@;
        let sym = interner.intern(col_names[i].as_str());
        proof {
            lemma_intern_all_push(before, wv, i as int);
            lemma_intern_all_len(before, wv.take(i as int));
            assert(wv[i as int] == col_names@[i as int]@);
        }
        columns.push((sym, col));
        proof {
            let new_ids = intern_all(before, wv.take(i + 1)).1;
            assert(new_ids == ids_before.push(sym.0 as int));
            assert(columns@[i as int] == (sym, col));
            assert forall|cc: int| 0 <= cc < i + 1 implies #[trigger] columns@[cc].0 == SymbolId(
                new_ids[cc] as usize,
            ) by {
                if cc < i {
                    assert(columns@[cc] == cols_before[cc]);
                    assert(new_ids[cc] == ids_before[cc]);
                }
            }
            assert forall|cc: int| 0 <= cc < i + 1 implies column_holds(
                #[trigger] columns@[cc].1,
                col_type(sample, first_index(nv, wv[cc], 0)->0),
                col_cells(rows, first_index(nv, wv[cc], 0)->0),
            ) by {
                if cc < i {
                    assert(columns@[cc] == cols_before[cc]);
                }
            }
        }
        i += 1;
    }
    assert(wv.take(col_names@.len() as int) =~= wv);
    proof {
        lemma_first_error_none(rv, n as nat);
    }
    Ok(Value::Table(Arc::new(Table { columns, row_count: n })))
}

proof fn lemma_missing_none_found(names: Seq<Seq<char>>, wanted: Seq<Seq<char>>, i: int)
    requires
        missing_col(names, wanted, 0) is None,
        0 <= i < wanted.len(),
    ensures
        first_index(names, wanted[i], 0) is Some,
        0 <= first_index(names, wanted[i], 0)->0 < names.len(),
{
    lemma_missing_from(names, wanted, 0, i);
    lemma_first_index_bounds(names, wanted[i], 0);
}

proof fn lemma_missing_from(names: Seq<Seq<char>>, wanted: Seq<Seq<char>>, j: int, i: int)
    requires
        missing_col(names, wanted, j) is None,
        0 <= j <= i < wanted.len(),
    ensures
        first_index(names, wanted[i], 0) is Some,
    decreases i - j,
{
    if j < i {
        lemma_missing_from(names, wanted, j + 1, i);
    }
}

pub proof fn lemma_first_index_bounds(names: Seq<Seq<char>>, w: Seq<char>, i: int)
    requires
        0 <= i,
    ensures
        first_index(names, w, i) matches Some(p) ==> i <= p < names.len() && names[p] == w,
    decreases names.len() - i,
{
    if i < names.len() && names[i] != w {
        lemma_first_index_bounds(names, w, i + 1);
    }
}

/// Whether `table_from_records_cols` does its work without panicking on these
/// records (see `cols_loadable`).
#[verifier::rlimit(40)]
pub fn records_cols_loadable(
    headers: &Result<Vec<String>, String>,
    records: &Vec<Result<Vec<String>, String>>,
    col_names: &[String],
) -> (b: bool)
    ensures
        b == cols_loadable(record_view(*headers), records_view(records@), strings_view(col_names@)),
{
    let ghost rv = records_view(records@);
    let ghost hv = record_view(*headers);
    let ghost wv = strings_view(col_names@);
    let raw = match headers {
        Ok(h) => h,
        Err(_) => return true,
    };
    let names = trim_names(raw);
    let ghost nv = strings_view(names@);
    if missing_column_of(&names, col_names).is_some() {
        return true;
    }
    let n = records.len();
    let k = sample_count(None, n);
    if first_error_pos(records, k).is_some() || k == 0 {
        return true;
    }
    // rows read: up to the first bad record
    let fe = first_error_pos(records, n);
    let end = match fe {
        Some(j) => j,
        None => n,
    };
    proof {
        assert forall|j: int| 0 <= j < end implies (#[trigger] rv[j]) is Ok by {
            assert(records@[j] is Ok);
        }
        if end < n {
            assert(rv[end as int] is Err);
        }
        lemma_err_pos_at(rv, 0, end as int);
    }
    let ghost sample = rows_of(rv, k as nat);
    let ghost read = rows_of(rv, end as nat);
    let mut i: usize = 0;
    while i < col_names.len()
        invariant
            i <= col_names@.len(),
            wv == strings_view(col_names@),
            nv == strings_view(names@),
            nv == hv->Ok_0.map_values(|f: Seq<char>| spec_trim(f)),
            hv == record_view(*headers),
            hv is Ok,
            rv == records_view(records@),
            n == records@.len(),
            1 <= k <= n,
            k <= end || k == end,
            end <= n,
            k == sample_len(None, n as nat),
            missing_col(nv, wv, 0) is None,
            first_error(rv, k as nat) is None,
            forall|j: int| 0 <= j < k ==> (#[trigger] records@[j]) is Ok,
            forall|j: int| 0 <= j < end ==> (#[trigger] records@[j]) is Ok,
            err_pos(rv, 0) == end,
            sample == rows_of(rv, k as nat),
            read == rows_of(rv, end as nat),
            forall|ii: int, j: int|
                0 <= ii < i && 0 <= j < read.len() && col_type(sample, first_index(nv, wv[ii], 0)->0)
                    == ColType::Timestamp && first_index(nv, wv[ii], 0)->0 < read[j].len()
                    ==> timestamp_text_ok(spec_trim(#[trigger] read[j][first_index(nv, wv[ii], 0)->0])),
        decreases col_names@.len() - i,
    {
        let p = position_of_name(&names, col_names[i].as_str());
        proof {
            lemma_missing_none_found(nv, wv, i as int);
        }
        let c = p.unwrap();
        assert(c as int == first_index(nv, wv[i as int], 0)->0);
        let t = detect_col(records, k, c);
        if t == ColType::Timestamp {
            let mut jj: usize = 0;
            while jj < end
                invariant
                    jj <= end,
                    end <= n,
                    n == records@.len(),
                    rv == records_view(records@),
                    read == rows_of(rv, end as nat),
                    forall|j: int| 0 <= j < end ==> (#[trigger] records@[j]) is Ok,
                    forall|j: int|
                        0 <= j < jj && c < read[j].len() ==> timestamp_text_ok(spec_trim(#[trigger] read[j][c as int])),
                    i < col_names@.len(),
                    wv == strings_view(col_names@),
                    nv == strings_view(names@),
                    c as int == first_index(nv, wv[i as int], 0)->0,
                    err_pos(rv, 0) == end,
                    sample == rows_of(rv, k as nat),
                    k <= n,
                    forall|j: int| 0 <= j < k ==> (#[trigger] records@[j]) is Ok,
                    t == col_type(sample, c as int),
                    t == ColType::Timestamp,
                    hv == record_view(*headers),
                    hv is Ok,
                    nv == hv->Ok_0.map_values(|f: Seq<char>| spec_trim(f)),
                    missing_col(nv, wv, 0) is None,
                    first_error(rv, k as nat) is None,
                    1 <= k,
                    k == sample_len(None, n as nat),
                decreases end - jj,
            {
                assert(records@[jj as int] is Ok);
                let fields = records[jj].as_ref().unwrap();
                assert(read[jj as int] == strings_view(fields@));
                if c < fields.len() {
                    let cell = crate::io::trim_text(fields[c].as_str());
                    assert(read[jj as int][c as int] == fields@[c as int]@);
                    if !crate::io::timestamp_text_check(cell) {
                        proof {
                            let ci = first_index(nv, wv[i as int], 0)->0;
                            assert(ci == c);
                            assert(!timestamp_text_ok(spec_trim(read[jj as int][ci])));
                            assert(rows_of(rv, err_pos(rv, 0) as nat) == read);
                            assert(col_type(sample, ci) == ColType::Timestamp);
                            let raw_v = hv->Ok_0;
                            let names_v = raw_v.map_values(|f: Seq<char>| spec_trim(f));
                            assert(names_v == nv);
                            assert(0 <= jj < read.len() && ci < read[jj as int].len());
                            assert(!(forall|ii: int, j: int|
                                0 <= ii < wv.len() && 0 <= j < read.len() && col_type(
                                    sample,
                                    first_index(names_v, wv[ii], 0)->0,
                                ) == ColType::Timestamp && first_index(names_v, wv[ii], 0)->0 < read[j].len()
                                    ==> timestamp_text_ok(
                                    spec_trim(#[trigger] read[j][first_index(names_v, wv[ii], 0)->0]),
                                )));
                            assert(!cols_loadable(hv, rv, wv));
                        }
                        return false;
                    }
                }
                jj += 1;
            }
        }
        i += 1;
    }
    true
}

/// Parse `;`-separated CSV text into a table of the requested columns, in
/// the requested order. `None` for a text whose records make the loading
/// panic (see `cols_loadable`).
pub fn parse_csv_cols(content: &str, col_names: &[String], interner: &mut Interner) -> (r: Option<
    Result<Value, String>,
>)
    requires
        old(interner).wf(),
    ensures
        final(interner).wf(),
        r is None <==> !cols_loadable(csv_records(content@).0, csv_records(content@).1, strings_view(col_names@)),
        r is None ==> final(interner)@ == old(interner)@,
        r matches Some(x) ==> loaded_cols_as(
            csv_records(content@).0,
            csv_records(content@).1,
            strings_view(col_names@),
            old(interner)@,
            final(interner)@,
            x,
        ),
{
    let (headers, records) = csv_split(content);
    if !records_cols_loadable(&headers, &records, col_names) {
        return None;
    }
    Some(table_from_records_cols(headers, records, col_names, interner))
}

} // verus!
