//! Byte-level scanning for the fast semicolon-delimited CSV reader:
//! header splitting, NA tokens, date fields and field trimming.

use vstd::prelude::*;
use crate::io::{
    days_from_civil, is_date_bytes_spec, is_digit_byte, NULL_DATE, spec_parse_date, spec_format_date, valid_date_bytes,
    law_format_after_parse, date_year, date_month, date_day,
};
use vstd::string::StringSliceAdditionalSpecFns;

verus! {

pub const DELIMITER: u8 = 59;

pub const NEWLINE: u8 = 10;

// ─── Specification ──────────────────────────────────────────────────────────

/// First index at or after `i` holding byte `c`, or the length when none does.
pub open spec fn find_byte(b: Seq<u8>, c: u8, i: int) -> int
    decreases b.len() - i,
{
    if i >= b.len() {
        b.len() as int
    } else if b[i] == c {
        i
    } else {
        find_byte(b, c, i + 1)
    }
}

pub proof fn lemma_find_byte_bounds(b: Seq<u8>, c: u8, i: int)
    requires
        0 <= i <= b.len(),
    ensures
        i <= find_byte(b, c, i) <= b.len(),
        find_byte(b, c, i) < b.len() ==> b[find_byte(b, c, i)] == c,
        forall|j: int| i <= j < find_byte(b, c, i) ==> b[j] != c,
    decreases b.len() - i,
{
    if i < b.len() && b[i] != c {
        lemma_find_byte_bounds(b, c, i + 1);
    }
}

/// The pieces of `b[start..]` between delimiters (one more piece than delimiters);
/// empty when `start` is past the end.
pub open spec fn split_from(b: Seq<u8>, start: int) -> Seq<Seq<u8>>
    decreases b.len() + 1 - start,
{
    if start < 0 || start > b.len() {
        Seq::empty()
    } else {
        let e = find_byte(b, DELIMITER, start);
        proof {
            lemma_find_byte_bounds(b, DELIMITER, start);
        }
        if e < b.len() {
            seq![b.subrange(start, e)] + split_from(b, e + 1)
        } else {
            seq![b.subrange(start, e)]
        }
    }
}

/// A header field as text: its UTF-8 decoding trimmed, or empty when it is not UTF-8.
pub open spec fn header_name(f: Seq<u8>) -> Seq<char> {
    if vstd::utf8::valid_utf8(f) {
        crate::io::spec_trim(vstd::utf8::decode_utf8(f))
    } else {
        Seq::empty()
    }
}

/// The trimmed names of a header line split at ';'.
pub open spec fn spec_parse_header(b: Seq<u8>) -> Seq<Seq<char>> {
    split_from(b, 0).map_values(|f: Seq<u8>| header_name(f))
}

/// The NA spellings of the fast reader: "", "NA", "NaN", "N/A" and their lower-case forms.
pub open spec fn is_na_byte_seq(f: Seq<u8>) -> bool {
    ||| f.len() == 0
    ||| f == seq![78u8, 65u8]
    ||| f == seq![78u8, 97u8, 78u8]
    ||| f == seq![78u8, 47u8, 65u8]
    ||| f == seq![110u8, 97u8]
    ||| f == seq![110u8, 97u8, 110u8]
    ||| f == seq![110u8, 47u8, 97u8]
}

/// First index at or after `i` that is not a space, or the length.
pub open spec fn skip_lead_spaces(b: Seq<u8>, i: int) -> int
    decreases b.len() - i,
{
    if i < b.len() && b[i] == 32 {
        skip_lead_spaces(b, i + 1)
    } else {
        i
    }
}

/// Largest end `e` at most the given one, not below `s`, with no space just before it.
pub open spec fn skip_trail_spaces(b: Seq<u8>, s: int, e: int) -> int
    decreases e - s,
{
    if e > s && b[e - 1] == 32 {
        skip_trail_spaces(b, s, e - 1)
    } else {
        e
    }
}

/// `b` without leading and trailing spaces.
pub open spec fn spec_trim_spaces(b: Seq<u8>) -> Seq<u8> {
    let s = skip_lead_spaces(b, 0);
    b.subrange(s, skip_trail_spaces(b, s, b.len() as int))
}

pub open spec fn raw(c: u8) -> int {
    c as int - 48
}

/// The day count of a date field: the null date unless the field is
/// YYYY-MM-DD in ASCII digits with a month in 1..12 and a day in 1..31.
pub open spec fn spec_parse_date_bytes(f: Seq<u8>) -> int {
    if !is_date_bytes_spec(f) {
        NULL_DATE as int
    } else {
        let y = raw(f[0]) * 1000 + raw(f[1]) * 100 + raw(f[2]) * 10 + raw(f[3]);
        let m = raw(f[5]) * 10 + raw(f[6]);
        let d = raw(f[8]) * 10 + raw(f[9]);
        if !(1 <= m <= 12) || !(1 <= d <= 31) {
            NULL_DATE as int
        } else {
            days_from_civil(y, m, d)
        }
    }
}

/// The fast reader's date parser agrees with the text parser on every field:
/// a field that `parse_date_to_days` reads gives the same day count, and any
/// other field gives the null date.
pub proof fn law_fast_date_agrees(f: Seq<u8>)
    ensures
        spec_parse_date_bytes(f) == match spec_parse_date(f) {
            Some(v) => v,
            None => NULL_DATE as int,
        },
{
}

/// A valid date field read by the fast reader names its own day: formatting
/// the day count gives the field's text back (so no valid month or day is
/// refused, and none is read as another date).
pub proof fn law_fast_date_round_trip(s: Seq<char>)
    requires
        valid_date_bytes(vstd::utf8::encode_utf8(s)),
    ensures
        spec_parse_date_bytes(vstd::utf8::encode_utf8(s)) != NULL_DATE as int,
        spec_format_date(spec_parse_date_bytes(vstd::utf8::encode_utf8(s))) == s,
{
    law_format_after_parse(s);
    law_fast_date_agrees(vstd::utf8::encode_utf8(s));
    let b = vstd::utf8::encode_utf8(s);
    let y = date_year(b);
    let m = date_month(b);
    let d = date_day(b);
    assert(days_from_civil(y, m, d) != NULL_DATE as int) by {
        let yp = if m <= 2 { y - 1 } else { y };
        assert(yp >= -1);
        assert(yp / 400 >= -1);
    }
}

// ─── Helpers ────────────────────────────────────────────────────────────────

/// `str::from_utf8`: the text of the bytes when they are valid UTF-8.
#[verifier::external_body]
fn utf8_text(b: &[u8]) -> (r: Option<&str>)
    ensures
        r is Some <==> vstd::utf8::valid_utf8(b@),
        r matches Some(s) ==> s.spec_bytes() == b@,
{
    std::str::from_utf8(b).ok()
}

/// Trim leading/trailing spaces from a byte slice.
pub fn trim_bytes(b: &[u8]) -> (r: &[u8])
    ensures
        r@ == spec_trim_spaces(b@),
{
    let mut start: usize = 0;
    let mut end: usize = b.len();
    while start < end && b[start] == 32
        invariant
            0 <= start <= end,
            end == b@.len(),
            skip_lead_spaces(b@, start as int) == skip_lead_spaces(b@, 0),
        decreases end - start,
    {
        start += 1;
    }
    while end > start && b[end - 1] == 32
        invariant
            0 <= start <= end <= b@.len(),
            start == skip_lead_spaces(b@, 0),
            skip_trail_spaces(b@, start as int, end as int) == skip_trail_spaces(
                b@,
                start as int,
                b@.len() as int,
            ),
        decreases end - start,
    {
        end -= 1;
    }
    &b[start..end]
}

/// Check if byte slice is an NA token.
pub fn is_na_bytes(field: &[u8]) -> (r: bool)
    ensures
        r == is_na_byte_seq(field@),
{
    let n = field.len();
    let r = if n == 0 {
        true
    } else if n == 2 {
        (field[0] == 78 && field[1] == 65) || (field[0] == 110 && field[1] == 97)
    } else if n == 3 {
        (field[0] == 78 && field[1] == 97 && field[2] == 78) || (field[0] == 78 && field[1] == 47
            && field[2] == 65) || (field[0] == 110 && field[1] == 97 && field[2] == 110) || (
        field[0] == 110 && field[1] == 47 && field[2] == 97)
    } else {
        false
    };
    proof {
        if n == 2 {
            if r {
                assert(field@ =~= seq![78u8, 65u8] || field@ =~= seq![110u8, 97u8]);
            }
        } else if n == 3 {
            if r {
                assert(field@ =~= seq![78u8, 97u8, 78u8] || field@ =~= seq![78u8, 47u8, 65u8]
                    || field@ =~= seq![110u8, 97u8, 110u8] || field@ =~= seq![110u8, 47u8, 97u8]);
            }
        }
    }
    r
}

/// Check if a byte slice looks like YYYY-MM-DD.
pub fn is_date_bytes(field: &[u8]) -> (r: bool)
    ensures
        r == is_date_bytes_spec(field@),
{
    if field.len() != 10 {
        return false;
    }
    field[4] == 45 && field[7] == 45 && is_digit(field[0]) && is_digit(field[1]) && is_digit(
        field[2],
    ) && is_digit(field[3]) && is_digit(field[5]) && is_digit(field[6]) && is_digit(field[8])
        && is_digit(field[9])
}

fn is_digit(c: u8) -> (r: bool)
    ensures
        r == is_digit_byte(c),
{
    48 <= c && c <= 57
}

/// Four bytes at `off` read as a number, each byte counting as its offset from '0'.
pub fn parse_4digit(b: &[u8], off: usize) -> (r: i32)
    requires
        off + 4 <= b@.len(),
        b@[off as int] >= 48 && b@[off + 1] >= 48 && b@[off + 2] >= 48 && b@[off + 3] >= 48,
    ensures
        r == raw(b@[off as int]) * 1000 + raw(b@[off + 1]) * 100 + raw(b@[off + 2]) * 10 + raw(
            b@[off + 3],
        ),
{
    let _n = b.len();
    ((b[off] - 48) as i32) * 1000 + ((b[off + 1] - 48) as i32) * 100 + ((b[off + 2] - 48) as i32)
        * 10 + ((b[off + 3] - 48) as i32)
}

/// Two bytes at `off` read as a number, each byte counting as its offset from '0'.
pub fn parse_2digit(b: &[u8], off: usize) -> (r: i32)
    requires
        off + 2 <= b@.len(),
        b@[off as int] >= 48 && b@[off + 1] >= 48,
    ensures
        r == raw(b@[off as int]) * 10 + raw(b@[off + 1]),
{
    let _n = b.len();
    ((b[off] - 48) as i32) * 10 + ((b[off + 1] - 48) as i32)
}

/// Parse YYYY-MM-DD bytes to days since Unix epoch (Howard Hinnant algorithm).
/// Returns the null date for fields of another shape (NA tokens among them)
/// and for out-of-range months and days.
pub fn parse_date_bytes(field: &[u8]) -> (r: i32)
    ensures
        r == spec_parse_date_bytes(field@),
{
    if !is_date_bytes(field) {
        return NULL_DATE;
    }
    let y = parse_4digit(field, 0);
    let m = parse_2digit(field, 5);
    let d = parse_2digit(field, 8);
    if y < 0 || !(1 <= m && m <= 12) || !(1 <= d && d <= 31) {
        return NULL_DATE;
    }
    let (y, m) = if m <= 2 { (y - 1, m + 9) } else { (y, m - 3) };
    let era: i32 = if y >= 0 { y } else { y - 399 } / 400;
    let yoe = (y - era * 400) as u32;
    let doy = (153 * m as u32 + 2) / 5 + d as u32 - 1;
    let doe = yoe * 365 + yoe / 4 - yoe / 100 + doy;
    era * 146097 + doe as i32 - 719468
}

/// The UTF-8 text of a field, trimmed; empty when the bytes are not UTF-8.
pub fn field_text(piece: &[u8]) -> (name: String)
    ensures
        name@ == header_name(piece@),
{
    match utf8_text(piece) {
        Some(t) => {
            proof {
                vstd::utf8::encode_utf8_decode_utf8(t@);
            }
            crate::io::trim_text(t).to_owned()
        },
        None => String::new(),
    }
}

/// Parse header row into trimmed column names.
pub fn parse_header(header: &[u8]) -> (names: Vec<String>)
    requires
        header@.len() < usize::MAX,
    ensures
        names@.map_values(|s: String| s@) == spec_parse_header(header@),
{
    let mut names: Vec<String> = Vec::new();
    let mut start: usize = 0;
    let len = header.len();
    while start <= len
        invariant
            0 <= start <= len + 1,
            len == header@.len(),
            len < usize::MAX,
            names@.map_values(|s: String| s@) + split_from(header@, start as int).map_values(
                |f: Seq<u8>| header_name(f),
            ) == spec_parse_header(header@),
        decreases len + 1 - start,
    {
        let mut end = start;
        while end < len && header[end] != DELIMITER
            invariant
                start <= end <= len,
                len == header@.len(),
                find_byte(header@, DELIMITER, end as int) == find_byte(
                    header@,
                    DELIMITER,
                    start as int,
                ),
            decreases len - end,
        {
            end += 1;
        }
        let piece = &header[start..end];
        let name = field_text(piece);
        let ghost before = names@.map_values(|s: String| s@);
        names.push(name);
        let ghost rest = split_from(header@, start as int);
        assert(rest[0] == piece@);
        assert(names@.map_values(|s: String| s@) =~= before.push(name@));
        assert(rest.map_values(|f: Seq<u8>| header_name(f)) =~= seq![name@] + split_from(
            header@,
            end + 1,
        ).map_values(|f: Seq<u8>| header_name(f)));
        start = end + 1;
    }
    assert(split_from(header@, start as int) =~= Seq::<Seq<u8>>::empty());
    assert(names@.map_values(|s: String| s@) =~= spec_parse_header(header@));
    names
}

} // verus!
