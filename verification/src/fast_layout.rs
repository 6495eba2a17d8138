//! Layout of a semicolon-delimited file for the fast reader: the header,
//! where each row and field lies, which columns are read, and the index
//! column (dates when the first field looks like `YYYY-MM-DD`, else text).
//!
//! Numeric cells are handed out as byte ranges; turning them into numbers is
//! left to the caller.

use vstd::prelude::*;
use crate::io::{is_date_bytes_spec, NULL_DATE};
use crate::io_fast::{
    DELIMITER, NEWLINE, find_byte, header_name, spec_parse_header, spec_parse_date_bytes,
    parse_header, is_date_bytes, parse_date_bytes, field_text,
};
use crate::text::{texts, join_with, push_joined, contains_text};
use crate::fmt::{decimal, push_decimal};

verus! {

pub const CARRIAGE_RETURN: u8 = 13;

// ─── Specification ──────────────────────────────────────────────────────────

/// Number of bytes `c` in `b`.
pub open spec fn count_byte(b: Seq<u8>, c: u8) -> nat
    decreases b.len(),
{
    if b.len() == 0 {
        0
    } else {
        count_byte(b.drop_last(), c) + if b.last() == c { 1nat } else { 0nat }
    }
}

/// End of the header line: its newline, or the end of the data.
pub open spec fn header_end(d: Seq<u8>) -> int {
    find_byte(d, NEWLINE, 0)
}

/// Number of columns: one more than the delimiters of the header line.
pub open spec fn header_cols(d: Seq<u8>) -> nat {
    count_byte(d.subrange(0, header_end(d)), DELIMITER) + 1
}

/// Trimmed names of the header line.
pub open spec fn header_names(d: Seq<u8>) -> Seq<Seq<char>> {
    spec_parse_header(d.subrange(0, header_end(d)))
}

/// Where the first row starts: after the header's newline.
pub open spec fn data_start(d: Seq<u8>) -> int {
    if header_end(d) < d.len() {
        header_end(d) + 1
    } else {
        d.len() as int
    }
}

/// Starts of the lines that follow newlines at or after `p`, leaving out a
/// newline that ends the data.
pub open spec fn later_starts(d: Seq<u8>, p: int) -> Seq<int>
    decreases d.len() - p,
{
    if p < 0 || p >= d.len() {
        Seq::empty()
    } else if d[p] == NEWLINE && p + 1 < d.len() {
        seq![p + 1] + later_starts(d, p + 1)
    } else {
        later_starts(d, p + 1)
    }
}

/// Row starts: the data start, then one after each later newline; none when
/// the header is all there is.
pub open spec fn line_starts(d: Seq<u8>) -> Seq<int> {
    if data_start(d) < d.len() {
        seq![data_start(d)] + later_starts(d, data_start(d))
    } else {
        Seq::empty()
    }
}

/// End of the last row: the data end without a final newline and then
/// without a final carriage return.
pub open spec fn last_end(d: Seq<u8>) -> int {
    let e1 = if d.len() > 0 && d.last() == NEWLINE { d.len() - 1 } else { d.len() as int };
    if e1 > 0 && d[e1 - 1] == CARRIAGE_RETURN {
        e1 - 1
    } else {
        e1
    }
}

/// End of row `r`: the newline before the next row, or the end of the last row.
pub open spec fn row_end(d: Seq<u8>, r: int) -> int {
    if r + 1 < line_starts(d).len() {
        line_starts(d)[r + 1] - 1
    } else {
        last_end(d)
    }
}

/// First delimiter in `[s, re)`, or `re`.
pub open spec fn field_end(d: Seq<u8>, s: int, re: int) -> int
    decreases re - s,
{
    if s >= re {
        re
    } else if d[s] == DELIMITER {
        s
    } else {
        field_end(d, s + 1, re)
    }
}

pub proof fn lemma_field_end(d: Seq<u8>, s: int, re: int)
    requires
        s <= re,
    ensures
        s <= field_end(d, s, re) <= re,
        field_end(d, s, re) < re ==> d[field_end(d, s, re)] == DELIMITER,
    decreases re - s,
{
    if s < re && d[s] != DELIMITER {
        lemma_field_end(d, s + 1, re);
    }
}

/// The first `k` fields of the row `[s, re]`, as byte ranges between
/// delimiters; none when `s` is past `re`.
pub open spec fn field_ranges(d: Seq<u8>, s: int, re: int, k: nat) -> Seq<(int, int)>
    decreases re + 1 - s,
{
    if s > re || k == 0 {
        Seq::empty()
    } else {
        let e = field_end(d, s, re);
        proof {
            lemma_field_end(d, s, re);
        }
        seq![(s, e)] + field_ranges(d, e + 1, re, (k - 1) as nat)
    }
}

/// The fields of row `r`, at most one per column.
pub open spec fn row_fields(d: Seq<u8>, r: int) -> Seq<(int, int)> {
    field_ranges(d, line_starts(d)[r], row_end(d, r), header_cols(d))
}

pub open spec fn field_bytes(d: Seq<u8>, f: (int, int)) -> Seq<u8> {
    d.subrange(f.0, f.1)
}

/// First delimiter or newline at or after `s`, or the end of the data.
pub open spec fn first_sep(d: Seq<u8>, s: int) -> int
    decreases d.len() - s,
{
    if s >= d.len() {
        d.len() as int
    } else if d[s] == DELIMITER || d[s] == NEWLINE {
        s
    } else {
        first_sep(d, s + 1)
    }
}

/// Whether the index is a date column: the first field of the first row
/// looks like `YYYY-MM-DD`; without rows, the index is an empty date index
/// named by the first header column.
pub open spec fn first_col_is_date(d: Seq<u8>) -> bool {
    if line_starts(d).len() == 0 {
        true
    } else {
        let s = line_starts(d)[0];
        is_date_bytes_spec(d.subrange(s, first_sep(d, s)))
    }
}

/// First data column: after the date index, if there is one.
pub open spec fn numeric_start(d: Seq<u8>) -> int {
    if first_col_is_date(d) {
        1
    } else {
        0
    }
}

pub open spec fn numeric_names(d: Seq<u8>) -> Seq<Seq<char>> {
    header_names(d).skip(numeric_start(d))
}

/// Header positions from `c` on that the selection keeps (all of them
/// without a selection), in header order.
pub open spec fn chosen_from(names: Seq<Seq<char>>, sel: Option<Seq<Seq<char>>>, c: int) -> Seq<int>
    decreases names.len() - c,
{
    if c < 0 || c >= names.len() {
        Seq::empty()
    } else if sel matches Some(s) && !s.contains(names[c]) {
        chosen_from(names, sel, c + 1)
    } else {
        seq![c] + chosen_from(names, sel, c + 1)
    }
}

/// The header positions read into output columns: none when no data row
/// follows the header (the frame is empty).
pub open spec fn output_cols(d: Seq<u8>, sel: Option<Seq<Seq<char>>>) -> Seq<int> {
    if line_starts(d).len() == 0 {
        Seq::empty()
    } else {
        chosen_from(header_names(d), sel, numeric_start(d))
    }
}

/// First requested name from position `i` on that is not available.
pub open spec fn first_missing(sel: Seq<Seq<char>>, avail: Seq<Seq<char>>, i: int) -> Option<Seq<char>>
    decreases sel.len() - i,
{
    if i < 0 || i >= sel.len() {
        None
    } else if !avail.contains(sel[i]) {
        Some(sel[i])
    } else {
        first_missing(sel, avail, i + 1)
    }
}

pub open spec fn missing_message(name: Seq<char>, avail: Seq<Seq<char>>) -> Seq<char> {
    "file-fast-cols: column '"@ + name + "' not found. Available: \""@ + join_with(
        avail,
        "\", \""@,
    ) + "\""@
}

pub open spec fn mismatch_message(expected: nat, got: nat) -> Seq<char> {
    "file-fast: header parse mismatch: expected "@ + decimal(expected) + " columns, got "@
        + decimal(got)
}

/// The error the fast reader reports, if any: a header of fewer than two
/// columns, a header that does not split into its columns, or (when there are
/// data rows) the first selected name that is no column after the index.
pub open spec fn fast_error(d: Seq<u8>, sel: Option<Seq<Seq<char>>>) -> Option<Seq<char>> {
    if header_cols(d) < 2 {
        Some("file-fast: CSV must have at least 2 columns"@)
    } else if header_names(d).len() != header_cols(d) {
        Some(mismatch_message(header_cols(d), header_names(d).len()))
    } else if line_starts(d).len() == 0 {
        None
    } else {
        match sel {
            Some(s) => match first_missing(s, numeric_names(d), 0) {
                Some(m) => Some(missing_message(m, numeric_names(d))),
                None => None,
            },
            None => None,
        }
    }
}

/// The index date of row `r`: its first field read as a date, or the null
/// date for a row without fields.
pub open spec fn index_date(d: Seq<u8>, r: int) -> int {
    if row_fields(d, r).len() > 0 {
        spec_parse_date_bytes(field_bytes(d, row_fields(d, r)[0]))
    } else {
        NULL_DATE as int
    }
}

/// The index text of row `r`: its first field, trimmed.
pub open spec fn index_text(d: Seq<u8>, r: int) -> Seq<char> {
    if row_fields(d, r).len() > 0 {
        header_name(field_bytes(d, row_fields(d, r)[0]))
    } else {
        Seq::empty()
    }
}

/// The byte range of header column `out[j]` in row `r`, if the row reaches it.
pub open spec fn cell_in(d: Seq<u8>, out: Seq<int>, r: int, j: int) -> Option<(int, int)> {
    let c = out[j];
    if c < row_fields(d, r).len() {
        Some(row_fields(d, r)[c])
    } else {
        None
    }
}

/// The byte range of output column `j` in row `r`, if the row reaches it.
pub open spec fn cell(d: Seq<u8>, sel: Option<Seq<Seq<char>>>, r: int, j: int) -> Option<(int, int)> {
    cell_in(d, output_cols(d, sel), r, j)
}

pub open spec fn names_of(sel: Option<&[String]>) -> Option<Seq<Seq<char>>> {
    match sel {
        Some(s) => Some(texts(s@)),
        None => None,
    }
}

pub open spec fn range_view(p: (usize, usize)) -> (int, int) {
    (p.0 as int, p.1 as int)
}

pub open spec fn ranges_view(v: Seq<(usize, usize)>) -> Seq<(int, int)> {
    v.map_values(|p: (usize, usize)| range_view(p))
}

pub open spec fn cell_view(c: Option<(usize, usize)>) -> Option<(int, int)> {
    match c {
        Some(p) => Some(range_view(p)),
        None => None,
    }
}

/// Where the fast reader finds everything in the data.
pub struct FastLayout {
    /// Trimmed header names.
    pub column_names: Vec<String>,
    pub first_col_is_date: bool,
    /// Name of the index: the first header name for a date index, else "ROW".
    pub index_name: String,
    /// Header positions of the output columns, in header order.
    pub output_cols: Vec<usize>,
    pub output_names: Vec<String>,
    /// One date per row for a date index, else empty.
    pub index_dates: Vec<i32>,
    /// One text per row for a text index, else empty.
    pub index_strings: Vec<String>,
    /// Per row, per output column: the field's byte range, or none when the
    /// row is too short (a missing value).
    pub cells: Vec<Vec<Option<(usize, usize)>>>,
}

/// The layout that the reader finds in `d` with selection `sel`.
pub open spec fn layout_of(d: Seq<u8>, sel: Option<Seq<Seq<char>>>, l: FastLayout) -> bool {
    let n = line_starts(d).len();
    let date = first_col_is_date(d);
    let out = output_cols(d, sel);
    &&& texts(l.column_names@) == header_names(d)
    &&& l.first_col_is_date == date
    &&& l.index_name@ == (if date { header_names(d)[0] } else { "ROW"@ })
    &&& l.output_cols@.map_values(|c: usize| c as int) == out
    &&& texts(l.output_names@) == out.map_values(|c: int| header_names(d)[c])
    &&& l.index_dates@.map_values(|x: i32| x as int) == (if date {
        Seq::new(n, |r: int| index_date(d, r))
    } else {
        Seq::empty()
    })
    &&& texts(l.index_strings@) == (if date {
        Seq::empty()
    } else {
        Seq::new(n, |r: int| index_text(d, r))
    })
    &&& l.cells@.len() == n
    &&& forall|r: int|
        0 <= r < n ==> (#[trigger] l.cells@[r]).len() == out.len() && forall|j: int|
            0 <= j < out.len() ==> cell_view(#[trigger] l.cells@[r][j]) == cell(d, sel, r, j)
}

// ─── Properties used by the code ────────────────────────────────────────────

pub proof fn lemma_later_starts(d: Seq<u8>, p: int)
    requires
        0 <= p,
    ensures
        forall|i: int|
            0 <= i < later_starts(d, p).len() ==> p + 1 <= #[trigger] later_starts(d, p)[i] < d.len(),
    decreases d.len() - p,
{
    if p < d.len() {
        lemma_later_starts(d, p + 1);
        let rest = later_starts(d, p + 1);
        if d[p] == NEWLINE && p + 1 < d.len() {
            let l = later_starts(d, p);
            assert forall|i: int| 0 <= i < l.len() implies p + 1 <= #[trigger] l[i] < d.len() by {
                if i > 0 {
                    assert(l[i] == rest[i - 1]);
                }
            }
        }
    }
}

pub proof fn lemma_line_starts(d: Seq<u8>)
    ensures
        line_starts(d).len() >= 1 <==> data_start(d) < d.len(),
        line_starts(d).len() >= 1 ==> line_starts(d)[0] == data_start(d),
        forall|i: int| 0 <= i < line_starts(d).len() ==> 0 <= #[trigger] line_starts(d)[i] <= d.len(),
        forall|i: int| 1 <= i < line_starts(d).len() ==> 1 <= #[trigger] line_starts(d)[i] < d.len(),
{
    lemma_find_header_end(d);
    lemma_later_starts(d, data_start(d));
    let l = line_starts(d);
    assert forall|i: int| 1 <= i < l.len() implies 1 <= #[trigger] l[i] < d.len() by {
        assert(l[i] == later_starts(d, data_start(d))[i - 1]);
    }
    assert forall|i: int| 0 <= i < l.len() implies 0 <= #[trigger] l[i] <= d.len() by {
        if i > 0 {
            assert(l[i] == later_starts(d, data_start(d))[i - 1]);
        }
    }
}

pub proof fn lemma_find_header_end(d: Seq<u8>)
    ensures
        0 <= header_end(d) <= d.len(),
        0 <= data_start(d) <= d.len(),
{
    crate::io_fast::lemma_find_byte_bounds(d, NEWLINE, 0);
}

/// Fewer columns give a prefix of the fields.
pub proof fn lemma_field_ranges_prefix(d: Seq<u8>, s: int, re: int, k1: nat, k2: nat)
    requires
        k1 <= k2,
    ensures
        field_ranges(d, s, re, k1).len() <= field_ranges(d, s, re, k2).len(),
        field_ranges(d, s, re, k1).len() == field_ranges(d, s, re, k2).len() || field_ranges(
            d,
            s,
            re,
            k1,
        ).len() == k1,
        forall|i: int|
            0 <= i < field_ranges(d, s, re, k1).len() ==> #[trigger] field_ranges(d, s, re, k1)[i]
                == field_ranges(d, s, re, k2)[i],
    decreases re + 1 - s,
{
    if s <= re && k1 > 0 {
        lemma_field_end(d, s, re);
        let e = field_end(d, s, re);
        lemma_field_ranges_prefix(d, e + 1, re, (k1 - 1) as nat, (k2 - 1) as nat);
        let a = field_ranges(d, s, re, k1);
        let b = field_ranges(d, s, re, k2);
        assert forall|i: int| 0 <= i < a.len() implies #[trigger] a[i] == b[i] by {
            if i > 0 {
                assert(a[i] == field_ranges(d, e + 1, re, (k1 - 1) as nat)[i - 1]);
                assert(b[i] == field_ranges(d, e + 1, re, (k2 - 1) as nat)[i - 1]);
            }
        }
    }
}

/// Every field lies within the row.
pub proof fn lemma_field_ranges_bounds(d: Seq<u8>, s: int, re: int, k: nat)
    ensures
        forall|i: int|
            0 <= i < field_ranges(d, s, re, k).len() ==> s <= (#[trigger] field_ranges(d, s, re, k)[i]).0
                <= field_ranges(d, s, re, k)[i].1 <= re,
    decreases re + 1 - s,
{
    if s <= re && k > 0 {
        lemma_field_end(d, s, re);
        let e = field_end(d, s, re);
        lemma_field_ranges_bounds(d, e + 1, re, (k - 1) as nat);
        let a = field_ranges(d, s, re, k);
        assert forall|i: int| 0 <= i < a.len() implies s <= (#[trigger] a[i]).0 <= a[i].1 <= re by {
            if i > 0 {
                assert(a[i] == field_ranges(d, e + 1, re, (k - 1) as nat)[i - 1]);
            }
        }
    }
}

// ─── Executable ─────────────────────────────────────────────────────────────

/// Scan the header line: its end and its number of delimiters.
fn scan_header(data: &[u8]) -> (r: (usize, usize))
    requires
        data@.len() < usize::MAX,
    ensures
        r.0 == header_end(data@),
        r.1 == count_byte(data@.subrange(0, header_end(data@)), DELIMITER),
        r.1 <= r.0 <= data@.len(),
{
    let len = data.len();
    let mut pos: usize = 0;
    let mut nd: usize = 0;
    while pos < len && data[pos] != NEWLINE
        invariant
            pos <= len,
            len == data@.len(),
            find_byte(data@, NEWLINE, pos as int) == find_byte(data@, NEWLINE, 0),
            nd == count_byte(data@.subrange(0, pos as int), DELIMITER),
            nd <= pos,
        decreases len - pos,
    {
        assert(data@.subrange(0, pos + 1).drop_last() =~= data@.subrange(0, pos as int));
        if data[pos] == DELIMITER {
            nd += 1;
        }
        pos += 1;
    }
    (pos, nd)
}

/// Row starts: the data start, then one after each later newline.
fn scan_line_starts(data: &[u8], start: usize) -> (offs: Vec<usize>)
    requires
        start == data_start(data@),
        data@.len() < usize::MAX,
    ensures
        offs@.map_values(|o: usize| o as int) == line_starts(data@),
{
    let len = data.len();
    let mut offs: Vec<usize> = Vec::new();
    if start >= len {
        proof {
            lemma_find_header_end(data@);
        }
        assert(offs@.map_values(|o: usize| o as int) =~= line_starts(data@));
        return offs;
    }
    offs.push(start);
    let mut pos = start;
    proof {
        lemma_find_header_end(data@);
        assert(offs@.map_values(|o: usize| o as int) =~= seq![start as int]);
    }
    while pos < len
        invariant
            start <= pos <= len,
            len == data@.len(),
            len < usize::MAX,
            start == data_start(data@),
            offs@.map_values(|o: usize| o as int) + later_starts(data@, pos as int) == line_starts(
                data@,
            ),
        decreases len - pos,
    {
        let ghost before = offs@;
        if data[pos] == NEWLINE && pos + 1 < len {
            offs.push(pos + 1);
            assert(offs@.map_values(|o: usize| o as int) =~= before.map_values(|o: usize| o as int).push(
                (pos + 1) as int,
            ));
            assert(later_starts(data@, pos as int) == seq![(pos + 1) as int] + later_starts(
                data@,
                pos + 1,
            ));
            assert(offs@.map_values(|o: usize| o as int) + later_starts(data@, pos + 1) =~= before.map_values(
                |o: usize| o as int,
            ) + later_starts(data@, pos as int));
        }
        pos += 1;
    }
    assert(later_starts(data@, pos as int) =~= Seq::<int>::empty());
    assert(offs@.map_values(|o: usize| o as int) =~= offs@.map_values(|o: usize| o as int) + Seq::<
        int,
    >::empty());
    offs
}

/// Whether the first field of the first row (up to a delimiter or a newline)
/// looks like a date.
fn detect_date_index(data: &[u8], rs: usize) -> (r: bool)
    requires
        rs <= data@.len(),
    ensures
        r == is_date_bytes_spec(data@.subrange(rs as int, first_sep(data@, rs as int))),
{
    let len = data.len();
    let mut end = rs;
    while end < len && data[end] != DELIMITER && data[end] != NEWLINE
        invariant
            rs <= end <= len,
            len == data@.len(),
            first_sep(data@, end as int) == first_sep(data@, rs as int),
        decreases len - end,
    {
        end += 1;
    }
    is_date_bytes(&data[rs..end])
}

/// The first `k` fields of the row `[rs, re]`.
fn scan_fields(data: &[u8], rs: usize, re: usize, k: usize) -> (r: Vec<(usize, usize)>)
    requires
        re <= data@.len(),
        data@.len() < usize::MAX,
    ensures
        ranges_view(r@) == field_ranges(data@, rs as int, re as int, k as nat),
{
    let mut out: Vec<(usize, usize)> = Vec::new();
    let mut fs = rs;
    let mut col: usize = 0;
    while fs <= re && col < k
        invariant
            col <= k,
            re <= data@.len(),
            data@.len() < usize::MAX,
            ranges_view(out@) + field_ranges(data@, fs as int, re as int, (k - col) as nat)
                == field_ranges(data@, rs as int, re as int, k as nat),
        decreases re + 1 - fs,
    {
        let mut fe = fs;
        while fe < re && data[fe] != DELIMITER
            invariant
                fs <= fe <= re,
                re <= data@.len(),
                field_end(data@, fe as int, re as int) == field_end(data@, fs as int, re as int),
            decreases re - fe,
        {
            fe += 1;
        }
        let ghost before = out@;
        out.push((fs, fe));
        proof {
            assert(ranges_view(out@) =~= ranges_view(before).push((fs as int, fe as int)));
            assert(field_ranges(data@, fs as int, re as int, (k - col) as nat) == seq![
                (fs as int, fe as int),
            ] + field_ranges(data@, fe + 1, re as int, (k - col - 1) as nat));
            assert(ranges_view(out@) + field_ranges(data@, fe + 1, re as int, (k - col - 1) as nat)
                =~= ranges_view(before) + field_ranges(data@, fs as int, re as int, (k - col) as nat));
        }
        fs = fe + 1;
        col += 1;
    }
    assert(field_ranges(data@, fs as int, re as int, (k - col) as nat) =~= Seq::<(int, int)>::empty());
    assert(ranges_view(out@) =~= ranges_view(out@) + Seq::<(int, int)>::empty());
    out
}
pub proof fn lemma_chosen_from(names: Seq<Seq<char>>, sel: Option<Seq<Seq<char>>>, c: int)
    requires
        0 <= c,
    ensures
        forall|i: int|
            0 <= i < chosen_from(names, sel, c).len() ==> c <= #[trigger] chosen_from(names, sel, c)[i]
                < names.len(),
        forall|i: int, j: int|
            0 <= i < j < chosen_from(names, sel, c).len() ==> chosen_from(names, sel, c)[i]
                < chosen_from(names, sel, c)[j],
    decreases names.len() - c,
{
    if c < names.len() {
        lemma_chosen_from(names, sel, c + 1);
        let rest = chosen_from(names, sel, c + 1);
        let x = chosen_from(names, sel, c);
        if !(sel matches Some(s) && !s.contains(names[c])) {
            assert forall|i: int| 0 <= i < x.len() implies c <= #[trigger] x[i] < names.len() by {
                if i > 0 {
                    assert(x[i] == rest[i - 1]);
                }
            }
            assert forall|i: int, j: int| 0 <= i < j < x.len() implies x[i] < x[j] by {
                assert(x[j] == rest[j - 1]);
                if i > 0 {
                    assert(x[i] == rest[i - 1]);
                }
            }
        }
    }
}

/// The message for the first requested name that is not available, if any.
fn missing_column(avail: &Vec<String>, sel: &[String]) -> (r: Option<String>)
    ensures
        match r {
            Some(m) => first_missing(texts(sel@), texts(avail@), 0) matches Some(n) && m@
                == missing_message(n, texts(avail@)),
            None => first_missing(texts(sel@), texts(avail@), 0) is None,
        },
{
    let mut i: usize = 0;
    while i < sel.len()
        invariant
            i <= sel@.len(),
            first_missing(texts(sel@), texts(avail@), 0) == first_missing(
                texts(sel@),
                texts(avail@),
                i as int,
            ),
        decreases sel@.len() - i,
    {
        if !contains_text(avail.as_slice(), sel[i].as_str()) {
            let mut m = String::from_str("file-fast-cols: column '");
            m.append(sel[i].as_str());
            m.append("' not found. Available: \"");
            push_joined(&mut m, avail.as_slice(), "\", \"");
            m.append("\"");
            return Some(m);
        }
        i += 1;
    }
    None
}

/// Header positions from `ns` on that the selection keeps.
fn choose_columns(names: &Vec<String>, ns: usize, sel: Option<&[String]>) -> (out: Vec<usize>)
    requires
        ns <= names@.len(),
    ensures
        out@.map_values(|c: usize| c as int) == chosen_from(texts(names@), names_of(sel), ns as int),
{
    let ghost nv = texts(names@);
    let ghost sv = names_of(sel);
    let mut out: Vec<usize> = Vec::new();
    let mut c = ns;
    while c < names.len()
        invariant
            ns <= c <= names@.len(),
            nv == texts(names@),
            sv == names_of(sel),
            out@.map_values(|x: usize| x as int) + chosen_from(nv, sv, c as int) == chosen_from(
                nv,
                sv,
                ns as int,
            ),
        decreases names@.len() - c,
    {
        let keep = match sel {
            Some(s) => contains_text(s, names[c].as_str()),
            None => true,
        };
        let ghost before = out@;
        if keep {
            out.push(c);
            assert(out@.map_values(|x: usize| x as int) =~= before.map_values(|x: usize| x as int).push(
                c as int,
            ));
            assert(out@.map_values(|x: usize| x as int) + chosen_from(nv, sv, c + 1) =~= before.map_values(
                |x: usize| x as int,
            ) + chosen_from(nv, sv, c as int));
        }
        c += 1;
    }
    assert(chosen_from(nv, sv, c as int) =~= Seq::<int>::empty());
    assert(out@.map_values(|x: usize| x as int) =~= out@.map_values(|x: usize| x as int) + Seq::<
        int,
    >::empty());
    out
}

/// End of the last row.
fn last_row_end(data: &[u8]) -> (e: usize)
    ensures
        e == last_end(data@),
{
    let mut e = data.len();
    if e > 0 && data[e - 1] == NEWLINE {
        e -= 1;
    }
    if e > 0 && data[e - 1] == CARRIAGE_RETURN {
        e -= 1;
    }
    e
}

/// The output cells of one row from its fields.
fn row_cells(fields: &Vec<(usize, usize)>, out_cols: &Vec<usize>) -> (r: Vec<Option<(usize, usize)>>)
    ensures
        r@.len() == out_cols@.len(),
        forall|j: int|
            0 <= j < out_cols@.len() ==> cell_view(#[trigger] r@[j]) == (if out_cols@[j] < fields@.len() {
                Some(range_view(fields@[out_cols@[j] as int]))
            } else {
                None
            }),
{
    let mut r: Vec<Option<(usize, usize)>> = Vec::new();
    let mut j: usize = 0;
    while j < out_cols.len()
        invariant
            j <= out_cols@.len(),
            r@.len() == j,
            forall|i: int|
                0 <= i < j ==> cell_view(#[trigger] r@[i]) == (if out_cols@[i] < fields@.len() {
                    Some(range_view(fields@[out_cols@[i] as int]))
                } else {
                    None
                }),
        decreases out_cols@.len() - j,
    {
        let c = out_cols[j];
        if c < fields.len() {
            r.push(Some(fields[c]));
        } else {
            r.push(None);
        }
        j += 1;
    }
    r
}

/// Read every row: its index value and the byte ranges of its output cells.
/// Only the first `k` fields of a row are looked at (all output columns lie
/// below `k`).
#[verifier::rlimit(40)]
fn scan_rows(data: &[u8], offs: &Vec<usize>, k: usize, date: bool, out_cols: &Vec<usize>) -> (r: (
    Vec<i32>,
    Vec<String>,
    Vec<Vec<Option<(usize, usize)>>>,
))
    requires
        data@.len() < usize::MAX,
        offs@.map_values(|o: usize| o as int) == line_starts(data@),
        1 <= k <= header_cols(data@),
        forall|j: int| 0 <= j < out_cols@.len() ==> #[trigger] out_cols@[j] < k,
        date == first_col_is_date(data@),
    ensures
        r.0@.map_values(|x: i32| x as int) == (if date {
            Seq::new(offs@.len(), |i: int| index_date(data@, i))
        } else {
            Seq::empty()
        }),
        texts(r.1@) == (if date {
            Seq::empty()
        } else {
            Seq::new(offs@.len(), |i: int| index_text(data@, i))
        }),
        r.2@.len() == offs@.len(),
        forall|i: int|
            0 <= i < offs@.len() ==> (#[trigger] r.2@[i]).len() == out_cols@.len() && forall|j: int|
                0 <= j < out_cols@.len() ==> cell_view(#[trigger] r.2@[i][j]) == cell_in(
                    data@,
                    out_cols@.map_values(|c: usize| c as int),
                    i,
                    j,
                ),
{
    let ghost d = data@;
    let ghost ov = out_cols@.map_values(|c: usize| c as int);
    let n = offs.len();
    let le = last_row_end(data);
    proof {
        lemma_line_starts(d);
        assert(offs@.map_values(|o: usize| o as int).len() == n);
    }
    let mut dates: Vec<i32> = Vec::new();
    let mut strings: Vec<String> = Vec::new();
    let mut cells: Vec<Vec<Option<(usize, usize)>>> = Vec::new();
    let mut r: usize = 0;
    while r < n
        invariant
            r <= n,
            n == offs@.len(),
            d == data@,
            d.len() < usize::MAX,
            ov == out_cols@.map_values(|c: usize| c as int),
            offs@.map_values(|o: usize| o as int) == line_starts(d),
            le == last_end(d),
            1 <= k <= header_cols(d),
            forall|j: int| 0 <= j < out_cols@.len() ==> #[trigger] out_cols@[j] < k,
            date == first_col_is_date(d),
            forall|i: int| 0 <= i < line_starts(d).len() ==> 0 <= #[trigger] line_starts(d)[i] <= d.len(),
            forall|i: int| 1 <= i < line_starts(d).len() ==> 1 <= #[trigger] line_starts(d)[i] < d.len(),
            dates@.len() == (if date { r as int } else { 0 }),
            forall|i: int| 0 <= i < dates@.len() ==> #[trigger] dates@[i] == index_date(d, i),
            strings@.len() == (if date { 0 } else { r as int }),
            forall|i: int| 0 <= i < strings@.len() ==> #[trigger] strings@[i]@ == index_text(d, i),
            cells@.len() == r,
            forall|i: int|
                0 <= i < r ==> (#[trigger] cells@[i]).len() == out_cols@.len() && forall|j: int|
                    0 <= j < out_cols@.len() ==> cell_view(#[trigger] cells@[i][j]) == cell_in(
                        d,
                        ov,
                        i,
                        j,
                    ),
        decreases n - r,
    {
        let rs = offs[r];
        assert(rs as int == line_starts(d)[r as int]);
        let re = if r + 1 < n {
            assert(offs@[r + 1] as int == line_starts(d)[r + 1]);
            offs[r + 1] - 1
        } else {
            le
        };
        assert(re as int == row_end(d, r as int));
        proof {
            crate::io_fast::lemma_find_byte_bounds(d, NEWLINE, 0);
        }
        let fields = scan_fields(data, rs, re, k);
        let ghost full = row_fields(d, r as int);
        proof {
            lemma_field_ranges_prefix(d, rs as int, re as int, k as nat, header_cols(d));
            lemma_field_ranges_bounds(d, rs as int, re as int, k as nat);
            assert(ranges_view(fields@).len() == fields@.len());
            assert(fields@.len() > 0 ==> range_view(fields@[0]) == ranges_view(fields@)[0]);
            assert(fields@.len() > 0 <==> full.len() > 0);
        }
        if date {
            let v = if fields.len() > 0 {
                let f = fields[0];
                assert(range_view(f) == full[0]);
                parse_date_bytes(&data[f.0..f.1])
            } else {
                NULL_DATE
            };
            assert(v == index_date(d, r as int));
            dates.push(v);
        } else {
            let t = if fields.len() > 0 {
                let f = fields[0];
                assert(range_view(f) == full[0]);
                field_text(&data[f.0..f.1])
            } else {
                String::new()
            };
            assert(t@ == index_text(d, r as int));
            strings.push(t);
        }
        let row = row_cells(&fields, out_cols);
        proof {
            assert forall|j: int| 0 <= j < out_cols@.len() implies cell_view(#[trigger] row@[j]) == cell_in(
                d,
                ov,
                r as int,
                j,
            ) by {
                let c = out_cols@[j] as int;
                assert(ov[j] == c);
                assert(c < k);
                if c < fields@.len() {
                    assert(ranges_view(fields@)[c] == range_view(fields@[c]));
                }
            }
        }
        cells.push(row);
        r += 1;
    }
    proof {
        if date {
            assert(dates@.map_values(|x: i32| x as int) =~= Seq::new(n as nat, |i: int| index_date(d, i)));
            assert(texts(strings@) =~= Seq::<Seq<char>>::empty());
        } else {
            assert(dates@.map_values(|x: i32| x as int) =~= Seq::<int>::empty());
            assert(texts(strings@) =~= Seq::new(n as nat, |i: int| index_text(d, i)));
        }
    }
    (dates, strings, cells)
}

/// Row starts, the date-index test and the end of row `r`, shared by the
/// scanners below.
fn row_bounds(data: &[u8], offs: &Vec<usize>, r: usize, le: usize) -> (b: (usize, usize))
    requires
        data@.len() < usize::MAX,
        offs@.map_values(|o: usize| o as int) == line_starts(data@),
        r < offs@.len(),
        le == last_end(data@),
    ensures
        b.0 == line_starts(data@)[r as int],
        b.1 == row_end(data@, r as int),
        b.1 <= data@.len(),
{
    proof {
        lemma_line_starts(data@);
        assert(offs@[r as int] as int == line_starts(data@)[r as int]);
    }
    let rs = offs[r];
    let re = if r < offs.len() - 1 {
        assert(offs@[r + 1] as int == line_starts(data@)[r + 1]);
        offs[r + 1] - 1
    } else {
        le
    };
    (rs, re)
}

/// Lay out the data for the fast reader, reading only the selected columns
/// (every column after the index without a selection).
#[verifier::rlimit(40)]
pub fn scan_fast_layout(data: &[u8], selected: Option<&[String]>) -> (r: Result<FastLayout, String>)
    requires
        data@.len() < usize::MAX,
    ensures
        match r {
            Err(m) => fast_error(data@, names_of(selected)) == Some(m@),
            Ok(l) => fast_error(data@, names_of(selected)) is None && layout_of(
                data@,
                names_of(selected),
                l,
            ),
        },
{
    let ghost d = data@;
    let (header_end, nd) = scan_header(data);
    let num_cols = nd + 1;
    if num_cols < 2 {
        return Err(String::from_str("file-fast: CSV must have at least 2 columns"));
    }
    proof {
        lemma_find_header_end(d);
    }
    let column_names = parse_header(&data[0..header_end]);
    if column_names.len() != num_cols {
        let mut m = String::from_str("file-fast: header parse mismatch: expected ");
        push_decimal(&mut m, num_cols as u64);
        m.append(" columns, got ");
        push_decimal(&mut m, column_names.len() as u64);
        return Err(m);
    }
    let ghost names = header_names(d);
    assert(texts(column_names@) == names);
    let start = if header_end < data.len() {
        header_end + 1
    } else {
        data.len()
    };
    let offs = scan_line_starts(data, start);
    proof {
        lemma_line_starts(d);
        assert(offs@.map_values(|o: usize| o as int).len() == offs@.len());
        if offs@.len() > 0 {
            assert(offs@[0] as int == line_starts(d)[0]);
        }
    }
    let date = if offs.len() == 0 {
        true
    } else {
        detect_date_index(data, offs[0])
    };
    let ns: usize = if date {
        1
    } else {
        0
    };
    let index_name = if date {
        column_names[0].clone()
    } else {
        String::from_str("ROW")
    };
    if offs.len() == 0 {
        let l = FastLayout {
            column_names,
            first_col_is_date: date,
            index_name,
            output_cols: Vec::new(),
            output_names: Vec::new(),
            index_dates: Vec::new(),
            index_strings: Vec::new(),
            cells: Vec::new(),
        };
        assert(line_starts(d).len() == 0);
        assert(l.first_col_is_date == first_col_is_date(d));
        assert(texts(l.index_strings@) =~= Seq::<Seq<char>>::empty());
        assert(texts(l.column_names@) == header_names(d));
        assert(l.output_cols@.map_values(|x: usize| x as int) =~= output_cols(d, names_of(selected)));
        assert(texts(l.output_names@) =~= output_cols(d, names_of(selected)).map_values(|c: int| names[c]));
        assert(l.index_dates@.map_values(|x: i32| x as int) =~= Seq::new(0, |r: int| index_date(d, r)));
        return Ok(l);
    }
    // names of the columns after the index
    let mut avail: Vec<String> = Vec::new();
    let mut c = ns;
    while c < num_cols
        invariant
            ns <= c <= num_cols,
            num_cols == column_names@.len(),
            avail@.len() == c - ns,
            forall|i: int| 0 <= i < avail@.len() ==> #[trigger] avail@[i] == column_names@[ns + i],
        decreases num_cols - c,
    {
        avail.push(column_names[c].clone());
        c += 1;
    }
    assert(texts(avail@) =~= numeric_names(d)) by {
        assert forall|i: int| 0 <= i < avail@.len() implies #[trigger] texts(avail@)[i] == numeric_names(d)[i] by {
            assert(avail@[i] == column_names@[ns + i]);
            assert(texts(column_names@)[ns + i] == column_names@[ns + i]@);
        }
    }
    match selected {
        Some(sel) => match missing_column(&avail, sel) {
            Some(m) => {
                return Err(m);
            },
            None => {},
        },
        None => {},
    }
    assert(fast_error(d, names_of(selected)) is None);
    let out_cols = choose_columns(&column_names, ns, selected);
    let ghost out = output_cols(d, names_of(selected));
    proof {
        lemma_chosen_from(names, names_of(selected), ns as int);
        assert(out_cols@.map_values(|x: usize| x as int) == out);
        assert forall|j: int| 0 <= j < out_cols@.len() implies #[trigger] out_cols@[j] as int == out[j] by {}
    }
    let mut output_names: Vec<String> = Vec::new();
    let mut j: usize = 0;
    while j < out_cols.len()
        invariant
            j <= out_cols@.len(),
            out.len() == out_cols@.len(),
            forall|i: int| 0 <= i < out_cols@.len() ==> #[trigger] out_cols@[i] as int == out[i],
            forall|i: int| 0 <= i < out.len() ==> 0 <= #[trigger] out[i] < column_names@.len(),
            output_names@.len() == j,
            forall|i: int| 0 <= i < j ==> #[trigger] output_names@[i] == column_names@[out[i]],
        decreases out_cols@.len() - j,
    {
        let x = out_cols[j];
        assert(out[j as int] == x);
        output_names.push(column_names[x].clone());
        j += 1;
    }
    assert(texts(output_names@) =~= out.map_values(|y: int| names[y])) by {
        assert forall|i: int| 0 <= i < output_names@.len() implies #[trigger] texts(output_names@)[i]
            == out.map_values(|y: int| names[y])[i] by {
            assert(output_names@[i] == column_names@[out[i]]);
            assert(texts(column_names@)[out[i]] == column_names@[out[i]]@);
        }
    }
    let max_needed = if out_cols.len() > 0 {
        out_cols[out_cols.len() - 1]
    } else {
        0
    };
    let k = max_needed + 1;
    proof {
        assert forall|i: int| 0 <= i < out_cols@.len() implies #[trigger] out_cols@[i] < k by {
            if i < out_cols@.len() - 1 {
                assert(out[i] < out[out_cols@.len() - 1]);
            }
        }
    }
    let (index_dates, index_strings, cells) = scan_rows(data, &offs, k, date, &out_cols);
    let l = FastLayout {
        column_names,
        first_col_is_date: date,
        index_name,
        output_cols: out_cols,
        output_names,
        index_dates,
        index_strings,
        cells,
    };
    assert(l.output_cols@.map_values(|x: usize| x as int) == out);
    Ok(l)
}

// ─── Laws ───────────────────────────────────────────────────────────────────

pub proof fn lemma_chosen_all(names: Seq<Seq<char>>, ns: int, c: int)
    requires
        0 <= ns <= c,
    ensures
        chosen_from(names, Some(names.skip(ns)), c) == chosen_from(names, None, c),
    decreases names.len() - c,
{
    if c < names.len() {
        lemma_chosen_all(names, ns, c + 1);
        assert(names.skip(ns)[c - ns] == names[c]);
    }
}

pub proof fn lemma_none_missing(s: Seq<Seq<char>>, i: int)
    requires
        0 <= i,
    ensures
        first_missing(s, s, i) is None,
    decreases s.len() - i,
{
    if i < s.len() {
        assert(s.contains(s[i]));
        lemma_none_missing(s, i + 1);
    }
}

/// Selecting every column after the index reads exactly what reading
/// without a selection reads: same outcome, same output columns, same cells.
pub proof fn law_full_selection_matches_unselected(d: Seq<u8>)
    ensures
        fast_error(d, Some(numeric_names(d))) == fast_error(d, None),
        output_cols(d, Some(numeric_names(d))) == output_cols(d, None),
        forall|r: int, j: int| #[trigger] cell(d, Some(numeric_names(d)), r, j) == cell(d, None, r, j),
{
    lemma_chosen_all(header_names(d), numeric_start(d), numeric_start(d));
    lemma_none_missing(numeric_names(d), 0);
}

/// The output columns come in header order, whatever the order of the
/// selection, and each is a column after the index that the selection names.
pub proof fn law_selection_in_header_order(d: Seq<u8>, sel: Option<Seq<Seq<char>>>)
    ensures
        forall|i: int, j: int|
            0 <= i < j < output_cols(d, sel).len() ==> output_cols(d, sel)[i] < output_cols(d, sel)[j],
        forall|i: int|
            0 <= i < output_cols(d, sel).len() ==> numeric_start(d) <= #[trigger] output_cols(d, sel)[i]
                < header_names(d).len(),
{
    lemma_chosen_from(header_names(d), sel, numeric_start(d));
}

proof fn lemma_chosen_same(names: Seq<Seq<char>>, s1: Seq<Seq<char>>, s2: Seq<Seq<char>>, c: int)
    requires
        forall|n: Seq<char>| s1.contains(n) <==> s2.contains(n),
    ensures
        chosen_from(names, Some(s1), c) == chosen_from(names, Some(s2), c),
    decreases names.len() - c,
{
    if 0 <= c < names.len() {
        assert(s1.contains(names[c]) <==> s2.contains(names[c]));
        lemma_chosen_same(names, s1, s2, c + 1);
    }
}

/// No requested name from `i` on is missing exactly when each is available.
proof fn lemma_first_missing_none(s: Seq<Seq<char>>, avail: Seq<Seq<char>>, i: int)
    requires
        0 <= i,
    ensures
        first_missing(s, avail, i) is None <==> forall|k: int| i <= k < s.len() ==> avail.contains(#[trigger] s[k]),
    decreases s.len() - i,
{
    if i < s.len() {
        lemma_first_missing_none(s, avail, i + 1);
    }
}

/// The selection is read as a set of names: two selections that name the same
/// columns, in any order and with any repeats, read the same output columns
/// and the same cells, and either both are refused or neither is.
pub proof fn law_selection_order_irrelevant(d: Seq<u8>, s1: Seq<Seq<char>>, s2: Seq<Seq<char>>)
    requires
        forall|n: Seq<char>| s1.contains(n) <==> s2.contains(n),
    ensures
        output_cols(d, Some(s1)) == output_cols(d, Some(s2)),
        forall|r: int, j: int| #[trigger] cell(d, Some(s1), r, j) == cell(d, Some(s2), r, j),
        fast_error(d, Some(s1)) is None <==> fast_error(d, Some(s2)) is None,
{
    lemma_chosen_same(header_names(d), s1, s2, numeric_start(d));
    let avail = numeric_names(d);
    lemma_first_missing_none(s1, avail, 0);
    lemma_first_missing_none(s2, avail, 0);
    if forall|k: int| 0 <= k < s1.len() ==> avail.contains(#[trigger] s1[k]) {
        assert forall|k: int| 0 <= k < s2.len() implies avail.contains(#[trigger] s2[k]) by {
            assert(s2.contains(s2[k]));
            let k1 = choose|k1: int| 0 <= k1 < s1.len() && s1[k1] == s2[k];
            assert(avail.contains(s1[k1]));
        }
    }
    if forall|k: int| 0 <= k < s2.len() ==> avail.contains(#[trigger] s2[k]) {
        assert forall|k: int| 0 <= k < s1.len() implies avail.contains(#[trigger] s1[k]) by {
            assert(s1.contains(s1[k]));
            let k2 = choose|k2: int| 0 <= k2 < s2.len() && s2[k2] == s1[k];
            assert(avail.contains(s2[k2]));
        }
    }
}

} // verus!
