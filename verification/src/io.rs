//! CSV cell recognition: NA tokens, dates (YYYY-MM-DD) and timestamps
//! (YYYY-MM-DD HH:MM:SS[.fffffffff]), their conversion to day and nanosecond
//! counts since the Unix epoch, and the inverse rendering.

use vstd::prelude::*;
use crate::fmt::{decimal, digit_char, padded_int, push_padded_int, zero_pad};
use crate::text::str_eq;
use vstd::string::StringSliceAdditionalSpecFns;

verus! {

broadcast use vstd::string::group_string_axioms;

/// Sentinel for a missing date (kdb-style null date).
pub const NULL_DATE: i32 = i32::MIN;

/// Sentinel for a missing timestamp (kdb-style null timestamp).
pub const NULL_TIMESTAMP: i64 = i64::MIN;

/// Column type detected from CSV.
#[derive(Debug, Clone, Copy, PartialEq, Eq, Structural)]
pub enum ColType {
    /// Numeric column.
    F64,
    /// Date column (YYYY-MM-DD, stored as i32 days).
    Date,
    /// Timestamp column (YYYY-MM-DD HH:MM:SS[.nanos], stored as i64 nanoseconds).
    Timestamp,
}

// ─── Specification ──────────────────────────────────────────────────────────

pub open spec fn is_digit_byte(c: u8) -> bool {
    48 <= c <= 57
}

pub open spec fn digit_val(c: u8) -> int {
    c as int - 48
}

/// All bytes are ASCII digits.
pub open spec fn all_digits(s: Seq<u8>) -> bool {
    forall|i: int| 0 <= i < s.len() ==> is_digit_byte(#[trigger] s[i])
}

/// The number written by a string of digits (most significant first).
pub open spec fn digits_value(s: Seq<u8>) -> nat
    decreases s.len(),
{
    if s.len() == 0 {
        0
    } else {
        (digits_value(s.drop_last()) * 10 + digit_val(s.last())) as nat
    }
}

pub open spec fn pow10(k: nat) -> nat
    decreases k,
{
    if k == 0 {
        1
    } else {
        10 * pow10((k - 1) as nat)
    }
}

/// The bytes have the shape YYYY-MM-DD (digits and two dashes).
pub open spec fn is_date_bytes_spec(b: Seq<u8>) -> bool {
    &&& b.len() == 10
    &&& b[4] == 45 && b[7] == 45
    &&& is_digit_byte(b[0]) && is_digit_byte(b[1]) && is_digit_byte(b[2]) && is_digit_byte(b[3])
    &&& is_digit_byte(b[5]) && is_digit_byte(b[6])
    &&& is_digit_byte(b[8]) && is_digit_byte(b[9])
}

pub open spec fn date_year(b: Seq<u8>) -> int {
    digit_val(b[0]) * 1000 + digit_val(b[1]) * 100 + digit_val(b[2]) * 10 + digit_val(b[3])
}

pub open spec fn date_month(b: Seq<u8>) -> int {
    digit_val(b[5]) * 10 + digit_val(b[6])
}

pub open spec fn date_day(b: Seq<u8>) -> int {
    digit_val(b[8]) * 10 + digit_val(b[9])
}

/// Days since 1970-01-01 of a proleptic Gregorian (year, month, day)
/// (Howard Hinnant's days_from_civil; `/` is floor division here).
pub open spec fn days_from_civil(year: int, month: int, day: int) -> int {
    let y = if month <= 2 { year - 1 } else { year };
    let era = y / 400;
    let yoe = y - era * 400;
    let mp = if month > 2 { month - 3 } else { month + 9 };
    let doy = (153 * mp + 2) / 5 + day - 1;
    let doe = yoe * 365 + yoe / 4 - yoe / 100 + doy;
    era * 146097 + doe - 719468
}

/// The day count of a YYYY-MM-DD string whose month is 1..12 and day 1..31.
pub open spec fn spec_parse_date(b: Seq<u8>) -> Option<int> {
    if is_date_bytes_spec(b) && 1 <= date_month(b) <= 12 && 1 <= date_day(b) <= 31 {
        Some(days_from_civil(date_year(b), date_month(b), date_day(b)))
    } else {
        None
    }
}

/// Why a YYYY-MM-DD text is no date: its month, else its day, is out of range.
pub open spec fn date_range_error(b: Seq<u8>) -> Seq<char> {
    if !(1 <= date_month(b) <= 12) {
        "Month "@ + decimal(date_month(b) as nat) + " out of range 1-12"@
    } else {
        "Day "@ + decimal(date_day(b) as nat) + " out of range 1-31"@
    }
}

/// Why a text is no date.
pub open spec fn date_error(s: Seq<char>, b: Seq<u8>) -> Seq<char> {
    if !is_date_bytes_spec(b) {
        "Invalid date format '"@ + s + "', expected YYYY-MM-DD"@
    } else {
        date_range_error(b)
    }
}

/// The NA spellings: "", "NA", "NaN", "N/A".
pub open spec fn is_na_chars(c: Seq<char>) -> bool {
    ||| c.len() == 0
    ||| c == seq!['N', 'A']
    ||| c == seq!['N', 'a', 'N']
    ||| c == seq!['N', '/', 'A']
}

/// HH:MM:SS at the start of `t`.
pub open spec fn hms_pattern(t: Seq<u8>) -> bool {
    &&& t.len() >= 8
    &&& t[2] == 58 && t[5] == 58
    &&& is_digit_byte(t[0]) && is_digit_byte(t[1]) && is_digit_byte(t[3])
    &&& is_digit_byte(t[4]) && is_digit_byte(t[6]) && is_digit_byte(t[7])
}

/// The time part is HH:MM:SS, optionally followed by '.' and 1 to 9 digits.
pub open spec fn time_part_ok(t: Seq<u8>) -> bool {
    &&& hms_pattern(t)
    &&& (t.len() == 8 || (10 <= t.len() <= 18 && t[8] == 46 && all_digits(t.skip(9))))
}

/// The bytes have the shape YYYY-MM-DD HH:MM:SS[.fffffffff].
pub open spec fn is_timestamp_bytes_spec(b: Seq<u8>) -> bool {
    &&& b.len() >= 19
    &&& b[10] == 32
    &&& is_date_bytes_spec(b.take(10))
    &&& time_part_ok(b.skip(11))
}

/// Nanoseconds of the optional fraction after HH:MM:SS.
pub open spec fn frac_nanos(t: Seq<u8>) -> int {
    if t.len() > 9 {
        (digits_value(t.skip(9)) * pow10((9 - (t.len() - 9)) as nat)) as int
    } else {
        0
    }
}

pub open spec fn two_digits(t: Seq<u8>, at: int) -> int {
    digit_val(t[at]) * 10 + digit_val(t[at + 1])
}

/// Nanoseconds since the epoch of a timestamp string, when it is valid:
/// the date is valid, hour <= 23, minute <= 59, second <= 59.
pub open spec fn spec_parse_timestamp(b: Seq<u8>) -> Option<int> {
    let t = b.skip(11);
    if is_timestamp_bytes_spec(b) {
        match spec_parse_date(b.take(10)) {
            Some(days) => {
                if two_digits(t, 0) <= 23 && two_digits(t, 3) <= 59 && two_digits(t, 6) <= 59 {
                    Some(
                        days * 86400 * 1_000_000_000 + two_digits(t, 0) * 3600 * 1_000_000_000
                            + two_digits(t, 3) * 60 * 1_000_000_000 + two_digits(t, 6)
                            * 1_000_000_000 + frac_nanos(t),
                    )
                } else {
                    None
                }
            },
            None => None,
        }
    } else {
        None
    }
}

/// Why a text is no timestamp: its shape, its date, then its hour, minute or
/// second.
pub open spec fn timestamp_error(s: Seq<char>, b: Seq<u8>) -> Seq<char> {
    let t = b.skip(11);
    if !is_timestamp_bytes_spec(b) {
        "Invalid timestamp format '"@ + s + "'"@
    } else if spec_parse_date(b.take(10)) is None {
        date_range_error(b.take(10))
    } else if two_digits(t, 0) > 23 {
        "Hour "@ + decimal(two_digits(t, 0) as nat) + " out of range 0-23"@
    } else if two_digits(t, 3) > 59 {
        "Minute "@ + decimal(two_digits(t, 3) as nat) + " out of range 0-59"@
    } else {
        "Second "@ + decimal(two_digits(t, 6) as nat) + " out of range 0-59"@
    }
}

/// The nanosecond count of a valid timestamp fits in an `i64`, including its
/// day part alone.
pub open spec fn timestamp_fits(b: Seq<u8>) -> bool {
    match spec_parse_timestamp(b) {
        Some(v) => {
            &&& spec_parse_date(b.take(10)).unwrap() * 86400 * 1_000_000_000 >= i64::MIN
            &&& v <= i64::MAX
        },
        None => true,
    }
}


/// The date of a text, or the null date for NA tokens and invalid dates.
pub open spec fn date_or_null(s: Seq<char>) -> int {
    if is_na_chars(s) {
        NULL_DATE as int
    } else {
        match spec_parse_date(vstd::utf8::encode_utf8(s)) {
            Some(v) => v,
            None => NULL_DATE as int,
        }
    }
}

/// The timestamp of a text, or the null timestamp for NA tokens and invalid
/// timestamps.
pub open spec fn timestamp_or_null(s: Seq<char>) -> int {
    if is_na_chars(s) {
        NULL_TIMESTAMP as int
    } else {
        match spec_parse_timestamp(vstd::utf8::encode_utf8(s)) {
            Some(v) => v,
            None => NULL_TIMESTAMP as int,
        }
    }
}

/// Texts on which parsing a timestamp does its work without panicking: NA
/// tokens, and texts whose value fits in 64 bits.
pub open spec fn timestamp_text_ok(s: Seq<char>) -> bool {
    is_na_chars(s) || timestamp_fits(vstd::utf8::encode_utf8(s))
}

/// The column type a (trimmed) sample value indicates: Timestamp > Date > F64.
pub open spec fn detect_kind(t: Seq<char>) -> ColType {
    if is_timestamp_bytes_spec(vstd::utf8::encode_utf8(t)) {
        ColType::Timestamp
    } else if is_date_bytes_spec(vstd::utf8::encode_utf8(t)) {
        ColType::Date
    } else {
        ColType::F64
    }
}

/// Floor-division civil date of a day count (Howard Hinnant's civil_from_days):
/// (year, month, day).
pub open spec fn civil_from_days(days: int) -> (int, int, int) {
    let z = days + 719468;
    let era = z / 146097;
    let doe = z - era * 146097;
    let yoe = (doe - doe / 1460 + doe / 36524 - doe / 146096) / 365;
    let y = yoe + era * 400;
    let doy = doe - (365 * yoe + yoe / 4 - yoe / 100);
    let mp = (5 * doy + 2) / 153;
    let d = doy - (153 * mp + 2) / 5 + 1;
    let m = if mp < 10 { mp + 3 } else { mp - 9 };
    (if m <= 2 { y + 1 } else { y }, m, d)
}

/// The text of a day count: "NA" for the null date, else YYYY-MM-DD with the
/// year zero-padded to four places (sign included) and month and day to two.
pub open spec fn spec_format_date(days: int) -> Seq<char> {
    if days == NULL_DATE as int {
        seq!['N', 'A']
    } else {
        let (y, m, d) = civil_from_days(days);
        padded_int(y, 4) + seq!['-'] + padded_int(m, 2) + seq!['-'] + padded_int(d, 2)
    }
}

/// Division truncating toward zero (the `/` of Rust integers).
pub open spec fn tdiv(a: int, b: int) -> int {
    if a >= 0 {
        a / b
    } else {
        -((-a) / b)
    }
}

/// Remainder with the sign of the dividend (the `%` of Rust integers).
pub open spec fn trem(a: int, b: int) -> int {
    a - b * tdiv(a, b)
}

/// `s` without its trailing '0' characters.
pub open spec fn trim_trailing_zeros(s: Seq<char>) -> Seq<char>
    decreases s.len(),
{
    if s.len() > 0 && s.last() == '0' {
        trim_trailing_zeros(s.drop_last())
    } else {
        s
    }
}

/// The text of a nanosecond count: "NA" for the null timestamp, else
/// "DATE HH:MM:SS" with ".fffffffff" (trailing zeros removed) when the
/// sub-second part is not zero. Components use truncating division.
pub open spec fn spec_format_timestamp(nanos: int) -> Seq<char> {
    if nanos == NULL_TIMESTAMP as int {
        seq!['N', 'A']
    } else {
        let total = tdiv(nanos, 1_000_000_000);
        let frac = trem(nanos, 1_000_000_000);
        let days = tdiv(total, 86400);
        let rem = trem(total, 86400);
        let base = spec_format_date(days) + seq![' '] + padded_int(tdiv(rem, 3600), 2) + seq![':']
            + padded_int(tdiv(trem(rem, 3600), 60), 2) + seq![':'] + padded_int(trem(rem, 60), 2);
        if frac == 0 {
            base
        } else {
            base + seq!['.'] + trim_trailing_zeros(padded_int(frac, 9))
        }
    }
}

// ─── NA tokens and type detection ───────────────────────────────────────────

/// Check if token is an NA marker.
pub fn is_na_token(s: &str) -> (r: bool)
    ensures
        r == is_na_chars(s@),
{
    proof {
        reveal_strlit("");
        reveal_strlit("NA");
        reveal_strlit("NaN");
        reveal_strlit("N/A");
        assert(""@ =~= Seq::<char>::empty());
        assert("NA"@ =~= seq!['N', 'A']);
        assert("NaN"@ =~= seq!['N', 'a', 'N']);
        assert("N/A"@ =~= seq!['N', '/', 'A']);
    }
    let e0 = s.is_empty();
    let e1 = str_eq(s, "NA");
    let e2 = str_eq(s, "NaN");
    let e3 = str_eq(s, "N/A");
    e0 || e1 || e2 || e3
}

fn is_digit(c: u8) -> (r: bool)
    ensures
        r == is_digit_byte(c),
{
    48 <= c && c <= 57
}

fn is_date_at(b: &[u8], off: usize) -> (r: bool)
    requires
        off + 10 <= b@.len(),
    ensures
        r == is_date_bytes_spec(b@.subrange(off as int, off + 10)),
{
    let n = b.len();
    let ghost d = b@.subrange(off as int, off + 10);
    assert(forall|i: int| 0 <= i < 10 ==> d[i] == b@[off + i]);
    b[off + 4] == 45 && b[off + 7] == 45 && is_digit(b[off]) && is_digit(b[off + 1]) && is_digit(
        b[off + 2],
    ) && is_digit(b[off + 3]) && is_digit(b[off + 5]) && is_digit(b[off + 6]) && is_digit(
        b[off + 8],
    ) && is_digit(b[off + 9])
}

/// Check if string matches YYYY-MM-DD format.
pub fn is_date_format(s: &str) -> (r: bool)
    ensures
        r == is_date_bytes_spec(s.spec_bytes()),
{
    let b = s.as_bytes();
    if b.len() != 10 {
        return false;
    }
    let r = is_date_at(b, 0);
    assert(b@.subrange(0, 10) =~= b@);
    r
}

/// Check if string matches YYYY-MM-DD HH:MM:SS[.fffffffff] format.
pub fn is_timestamp_format(s: &str) -> (r: bool)
    ensures
        r == is_timestamp_bytes_spec(s.spec_bytes()),
{
    let b = s.as_bytes();
    let n = b.len();
    if n < 19 {
        return false;
    }
    if b[10] != 32 {
        return false;
    }
    if !is_date_at(b, 0) {
        assert(b@.subrange(0, 10) =~= b@.take(10));
        return false;
    }
    assert(b@.subrange(0, 10) =~= b@.take(10));
    let ghost t = b@.skip(11);
    assert(forall|i: int| 0 <= i < t.len() ==> t[i] == b@[11 + i]);
    // time part: HH:MM:SS
    let hms = b[13] == 58 && b[16] == 58 && is_digit(b[11]) && is_digit(b[12]) && is_digit(b[14])
        && is_digit(b[15]) && is_digit(b[17]) && is_digit(b[18]);
    if !hms {
        return false;
    }
    if n == 19 {
        return true;
    }
    assert(t[8] == b@[19]);
    if b[19] != 46 || n < 21 || n > 29 {
        return false;
    }
    let mut i: usize = 20;
    while i < n
        invariant
            20 <= i <= n,
            n == b@.len(),
            b@ == s.spec_bytes(),
            t == b@.skip(11),
            forall|j: int| 20 <= j < i ==> is_digit_byte(#[trigger] b@[j]),
        decreases n - i,
    {
        if !is_digit(b[i]) {
            assert(t.skip(9)[i - 20] == b@[i as int]);
            assert(!is_digit_byte(t.skip(9)[i - 20]));
            return false;
        }
        i += 1;
    }
    assert(all_digits(t.skip(9))) by {
        assert forall|j: int| 0 <= j < t.skip(9).len() implies is_digit_byte(#[trigger] t.skip(9)[j]) by {
            assert(t.skip(9)[j] == b@[20 + j]);
        }
    }
    true
}

/// `str::trim`: the contract claims that the result is the text without its
/// leading and trailing characters of the Unicode `White_Space` property.
#[verifier::external_body]
pub(crate) fn trim_text(s: &str) -> (r: &str)
    ensures
        r@ == spec_trim(s@),
{
    s.trim()
}

/// A character with the Unicode `White_Space` property: U+0009 to U+000D,
/// space, U+0085, U+00A0, U+1680, U+2000 to U+200A, U+2028, U+2029, U+202F,
/// U+205F and U+3000.
pub open spec fn is_white_space(c: char) -> bool {
    let n = c as int;
    (0x09 <= n && n <= 0x0D) || n == 0x20 || n == 0x85 || n == 0xA0 || n == 0x1680 || (0x2000 <= n && n
        <= 0x200A) || n == 0x2028 || n == 0x2029 || n == 0x202F || n == 0x205F || n == 0x3000
}

/// `s` without its leading white space.
pub open spec fn trim_start_spec(s: Seq<char>) -> Seq<char>
    decreases s.len(),
{
    if s.len() > 0 && is_white_space(s[0]) {
        trim_start_spec(s.drop_first())
    } else {
        s
    }
}

/// `s` without its trailing white space.
pub open spec fn trim_end_spec(s: Seq<char>) -> Seq<char>
    decreases s.len(),
{
    if s.len() > 0 && is_white_space(s.last()) {
        trim_end_spec(s.drop_last())
    } else {
        s
    }
}

/// What `str::trim` returns: `s` without leading and trailing white space.
pub open spec fn spec_trim(s: Seq<char>) -> Seq<char> {
    trim_end_spec(trim_start_spec(s))
}

/// Detect column type from a sample value.
///
/// Priority: Timestamp > Date > F64
pub fn detect_column_type(sample: &str) -> (t: ColType)
    ensures
        t == detect_kind(spec_trim(sample@)),
        t == (if is_timestamp_bytes_spec(vstd::utf8::encode_utf8(spec_trim(sample@))) {
            ColType::Timestamp
        } else if is_date_bytes_spec(vstd::utf8::encode_utf8(spec_trim(sample@))) {
            ColType::Date
        } else {
            ColType::F64
        }),
{
    let trimmed = trim_text(sample);
    if is_timestamp_format(trimmed) {
        ColType::Timestamp
    } else if is_date_format(trimmed) {
        ColType::Date
    } else {
        ColType::F64
    }
}


/// Whether every byte of `b` from `start` on is a digit.
fn digits_from(b: &[u8], start: usize) -> (r: bool)
    requires
        start <= b@.len(),
    ensures
        r == all_digits(b@.skip(start as int)),
{
    let n = b.len();
    let mut i: usize = start;
    while i < n
        invariant
            start <= i <= n,
            n == b@.len(),
            forall|j: int| start <= j < i ==> is_digit_byte(#[trigger] b@[j]),
        decreases n - i,
    {
        if !is_digit(b[i]) {
            assert(b@.skip(start as int)[i - start] == b@[i as int]);
            return false;
        }
        i += 1;
    }
    assert forall|j: int| 0 <= j < b@.skip(start as int).len() implies is_digit_byte(
        #[trigger] b@.skip(start as int)[j],
    ) by {
        assert(b@.skip(start as int)[j] == b@[start + j]);
    }
    true
}


// ─── Dates ──────────────────────────────────────────────────────────────────

/// Days since epoch of (year, month, day) (Howard Hinnant's algorithm).
fn days_from_civil_exec(year: i32, month: u32, day: u32) -> (r: i32)
    requires
        0 <= year <= 9999,
        1 <= month <= 12,
        1 <= day <= 31,
    ensures
        r == days_from_civil(year as int, month as int, day as int),
{
    let y: i32 = if month <= 2 { year - 1 } else { year };
    let era: i32 = if y >= 0 { y / 400 } else { (y - 399) / 400 };
    let yoe: u32 = (y - era * 400) as u32;
    let m: u32 = if month > 2 { month - 3 } else { month + 9 };
    let doy: u32 = (153 * m + 2) / 5 + day - 1;
    let doe: u32 = yoe * 365 + yoe / 4 - yoe / 100 + doy;
    era * 146097 + doe as i32 - 719468
}

/// Append a message naming a string.
fn quoted_message(prefix: &str, middle: &str, suffix: &str) -> (m: String)
    ensures
        m@ == prefix@ + middle@ + suffix@,
{
    let mut m = String::new();
    m.append(prefix);
    m.append(middle);
    m.append(suffix);
    m
}

/// A message naming a number.
fn number_message(prefix: &str, n: u64, suffix: &str) -> (m: String)
    ensures
        m@ == prefix@ + decimal(n as nat) + suffix@,
{
    let mut m = String::new();
    m.append(prefix);
    crate::fmt::push_decimal(&mut m, n);
    m.append(suffix);
    m
}

fn digit_at(b: &[u8], i: usize) -> (v: u32)
    requires
        i < b@.len(),
        is_digit_byte(b@[i as int]),
    ensures
        v == digit_val(b@[i as int]),
        v <= 9,
{
    (b[i] - 48) as u32
}

/// Day count of the YYYY-MM-DD at `off` in `b` (already known to have that shape).
fn date_at(b: &[u8], off: usize) -> (r: Result<i32, String>)
    requires
        off + 10 <= b@.len(),
        is_date_bytes_spec(b@.subrange(off as int, off + 10)),
    ensures
        match r {
            Ok(v) => spec_parse_date(b@.subrange(off as int, off + 10)) == Some(v as int),
            Err(e) => spec_parse_date(b@.subrange(off as int, off + 10)) is None && e@ == date_range_error(
                b@.subrange(off as int, off + 10),
            ),
        },
{
    let _n = b.len();
    let ghost d = b@.subrange(off as int, off + 10);
    assert(forall|i: int| 0 <= i < 10 ==> d[i] == b@[off + i]);
    assert(d[0] == b@[off as int] && d[1] == b@[off + 1] && d[2] == b@[off + 2] && d[3] == b@[off + 3]);
    assert(d[5] == b@[off + 5] && d[6] == b@[off + 6] && d[8] == b@[off + 8] && d[9] == b@[off + 9]);
    let y0 = digit_at(b, off);
    let y1 = digit_at(b, off + 1);
    let y2 = digit_at(b, off + 2);
    let y3 = digit_at(b, off + 3);
    let m0 = digit_at(b, off + 5);
    let m1 = digit_at(b, off + 6);
    let d0 = digit_at(b, off + 8);
    let d1 = digit_at(b, off + 9);
    let year: i32 = (y0 * 1000 + y1 * 100 + y2 * 10 + y3) as i32;
    let month: u32 = m0 * 10 + m1;
    let day: u32 = d0 * 10 + d1;
    if month < 1 || month > 12 {
        return Err(number_message("Month ", month as u64, " out of range 1-12"));
    }
    if day < 1 || day > 31 {
        return Err(number_message("Day ", day as u64, " out of range 1-31"));
    }
    Ok(days_from_civil_exec(year, month, day))
}

/// Parse YYYY-MM-DD to days since epoch (Howard Hinnant's algorithm).
///
/// Months outside 1..12 and days outside 1..31 are rejected; the day is not
/// checked against the length of its month.
pub fn parse_date_to_days(s: &str) -> (r: Result<i32, String>)
    ensures
        match r {
            Ok(v) => spec_parse_date(s.spec_bytes()) == Some(v as int),
            Err(e) => spec_parse_date(s.spec_bytes()) is None && e@ == date_error(s@, s.spec_bytes()),
        },
{
    if !is_date_format(s) {
        return Err(quoted_message("Invalid date format '", s, "', expected YYYY-MM-DD"));
    }
    let b = s.as_bytes();
    assert(b@.subrange(0, 10) =~= b@);
    date_at(b, 0)
}

/// Parse a date, or return the null date for NA tokens and invalid dates.
pub fn parse_date_or_null(s: &str) -> (r: i32)
    ensures
        r == date_or_null(s@),
        r == (if is_na_chars(s@) {
            NULL_DATE as int
        } else {
            match spec_parse_date(s.spec_bytes()) {
                Some(v) => v,
                None => NULL_DATE as int,
            }
        }),
{
    if is_na_token(s) {
        return NULL_DATE;
    }
    match parse_date_to_days(s) {
        Ok(v) => v,
        Err(_) => NULL_DATE,
    }
}

/// The civil date of a day count, computed as Hinnant's algorithm does.
fn civil_from_days_exec(days: i32) -> (r: (i32, u32, u32))
    requires
        days <= i32::MAX - 719468,
    ensures
        (r.0 as int, r.1 as int, r.2 as int) == civil_from_days(days as int),
        1 <= r.1 <= 12,
        1 <= r.2 <= 31,
{
    let z: i32 = days + 719468;
    let era: i32 = if z >= 0 { z / 146097 } else { (z - 146096) / 146097 };
    assert(era == (z as int) / 146097);
    let doe: u32 = (z - era * 146097) as u32;
    proof {
        lemma_doe_bounds(doe);
    }
    let yoe: u32 = (doe - doe / 1460 + doe / 36524 - doe / 146096) / 365;
    let y: i32 = yoe as i32 + era * 400;
    let doy: u32 = doe - (365 * yoe + yoe / 4 - yoe / 100);
    let mp: u32 = (5 * doy + 2) / 153;
    proof {
        lemma_month_of_doy(doy);
    }
    let d: u32 = doy - (153 * mp + 2) / 5 + 1;
    let m: u32 = if mp < 10 { mp + 3 } else { mp - 9 };
    let year: i32 = if m <= 2 { y + 1 } else { y };
    (year, m, d)
}

/// Month index and day of a day-of-year (March-based year).
pub proof fn lemma_month_of_doy(doy: u32)
    by (bit_vector)
    requires
        doy <= 365,
    ensures
        (5 * doy + 2) / 153 <= 11,
        (153 * ((5 * doy + 2) / 153) + 2) / 5 <= doy,
        doy - (153 * ((5 * doy + 2) / 153) + 2) / 5 + 1 <= 31,
{
}

/// Convert days since epoch to YYYY-MM-DD (inverse of `parse_date_to_days`).
pub fn format_date_from_days(days: i32) -> (s: String)
    requires
        days == NULL_DATE || days <= i32::MAX - 719468,
    ensures
        s@ == spec_format_date(days as int),
{
    if days == NULL_DATE {
        proof {
            reveal_strlit("NA");
            assert("NA"@ =~= seq!['N', 'A']);
        }
        let mut r = String::new();
        r.append("NA");
        assert(r@ =~= seq!['N', 'A']);
        return r;
    }
    let (year, m, d) = civil_from_days_exec(days);
    let mut out = String::new();
    push_padded_int(&mut out, year as i64, 4);
    proof {
        reveal_strlit("-");
    }
    out.append("-");
    push_padded_int(&mut out, m as i64, 2);
    out.append("-");
    push_padded_int(&mut out, d as i64, 2);
    assert(out@ =~= spec_format_date(days as int));
    out
}

/// Bounds of Hinnant's year-of-era and day-of-year over one 400-year era.
pub proof fn lemma_doe_bounds(doe: u32)
    by (bit_vector)
    requires
        doe <= 146096,
    ensures
        (doe - doe / 1460 + doe / 36524 - doe / 146096) / 365 <= 399,
        365 * ((doe - doe / 1460 + doe / 36524 - doe / 146096) / 365) + ((doe - doe / 1460 + doe
            / 36524 - doe / 146096) / 365) / 4 - ((doe - doe / 1460 + doe / 36524 - doe / 146096)
            / 365) / 100 <= doe,
        doe - (365 * ((doe - doe / 1460 + doe / 36524 - doe / 146096) / 365) + ((doe - doe / 1460
            + doe / 36524 - doe / 146096) / 365) / 4 - ((doe - doe / 1460 + doe / 36524 - doe
            / 146096) / 365) / 100) <= 365,
{
}

/// Hinnant's two conversions are inverse: the civil date of a day count has a
/// month in 1..12 and a day in 1..31, and converts back to the day count.
pub proof fn lemma_civil_inverse(days: int)
    ensures
        1 <= civil_from_days(days).1 <= 12,
        1 <= civil_from_days(days).2 <= 31,
        days_from_civil(civil_from_days(days).0, civil_from_days(days).1, civil_from_days(days).2) == days,
{
    let z = days + 719468;
    let era = z / 146097;
    let doe = z - era * 146097;
    assert(0 <= doe < 146097);
    let du: u32 = doe as u32;
    lemma_doe_bounds(du);
    let yoe = (doe - doe / 1460 + doe / 36524 - doe / 146096) / 365;
    let doy = doe - (365 * yoe + yoe / 4 - yoe / 100);
    assert(0 <= yoe <= 399);
    assert(0 <= doy <= 365);
    let dy: u32 = doy as u32;
    lemma_month_of_doy(dy);
    let mp = (5 * doy + 2) / 153;
    let d = doy - (153 * mp + 2) / 5 + 1;
    let m = if mp < 10 { mp + 3 } else { mp - 9 };
    let y = yoe + era * 400;
    assert(0 <= mp <= 11);
    assert((y / 400) == era) by (nonlinear_arith)
        requires
            y == yoe + era * 400,
            0 <= yoe <= 399,
    ;
    assert(civil_from_days(days) == (if m <= 2 { y + 1 } else { y }, m, d));
}

/// A number below 100 zero-padded to two places: its tens and its units.
proof fn lemma_pad2(v: nat)
    requires
        v < 100,
    ensures
        zero_pad(decimal(v), 2) == seq![digit_char(v / 10), digit_char(v % 10)],
{
    if v < 10 {
        assert(decimal(v) == seq![digit_char(v)]);
        assert(digit_char(0) == '0');
        assert(zero_pad(decimal(v), 2) =~= seq![digit_char(v / 10), digit_char(v % 10)]);
    } else {
        assert(decimal(v / 10) == seq![digit_char(v / 10)]);
        assert(decimal(v) == decimal(v / 10).push(digit_char(v % 10)));
        assert(zero_pad(decimal(v), 2) =~= seq![digit_char(v / 10), digit_char(v % 10)]);
    }
}

/// A number below 10000 zero-padded to four places: its four digits.
proof fn lemma_pad4(v: nat)
    requires
        v < 10000,
    ensures
        zero_pad(decimal(v), 4) == seq![
            digit_char(v / 1000),
            digit_char((v / 100) % 10),
            digit_char((v / 10) % 10),
            digit_char(v % 10),
        ],
{
    let want = seq![digit_char(v / 1000), digit_char((v / 100) % 10), digit_char((v / 10) % 10), digit_char(v % 10)];
    assert(digit_char(0) == '0');
    if v < 10 {
        assert(decimal(v) == seq![digit_char(v)]);
    } else if v < 100 {
        assert(decimal(v / 10) == seq![digit_char(v / 10)]);
        assert(decimal(v) == decimal(v / 10).push(digit_char(v % 10)));
    } else if v < 1000 {
        assert((v / 10) / 10 == v / 100);
        assert(decimal(v / 100) == seq![digit_char(v / 100)]);
        assert(decimal(v / 10) == decimal(v / 100).push(digit_char((v / 10) % 10)));
        assert(decimal(v) == decimal(v / 10).push(digit_char(v % 10)));
    } else {
        assert((v / 10) / 10 == v / 100);
        assert((v / 100) / 10 == v / 1000);
        assert(decimal(v / 1000) == seq![digit_char(v / 1000)]);
        assert(decimal(v / 100) == decimal(v / 1000).push(digit_char((v / 100) % 10)));
        assert(decimal(v / 10) == decimal(v / 100).push(digit_char((v / 10) % 10)));
        assert(decimal(v) == decimal(v / 10).push(digit_char(v % 10)));
    }
    assert(zero_pad(decimal(v), 4) =~= want);
}

proof fn lemma_four_digits(y: u32)
    by (bit_vector)
    requires
        y <= 9999,
    ensures
        (y / 1000) * 1000 + ((y / 100) % 10) * 100 + ((y / 10) % 10) * 10 + y % 10 == y,
        y / 1000 < 10,
{
}

proof fn lemma_two_digits(v: u32)
    by (bit_vector)
    requires
        v <= 99,
    ensures
        (v / 10) * 10 + v % 10 == v,
        v / 10 < 10,
{
}

/// The byte of a digit's character.
proof fn lemma_digit_byte(k: nat)
    requires
        k < 10,
    ensures
        digit_char(k) as u8 as int == k + 48,
        digit_char(k) as int == k + 48,
{
}

/// The text YYYY-MM-DD of a year of four digits, a month and a day parses back
/// to their day count.
proof fn lemma_date_text(y: int, m: int, d: int)
    requires
        0 <= y <= 9999,
        1 <= m <= 12,
        1 <= d <= 31,
    ensures
        spec_parse_date(vstd::utf8::encode_utf8(
            padded_int(y, 4) + seq!['-'] + padded_int(m, 2) + seq!['-'] + padded_int(d, 2),
        )) == Some(days_from_civil(y, m, d)),
{
    lemma_pad4(y as nat);
    lemma_pad2(m as nat);
    lemma_pad2(d as nat);
    lemma_four_digits(y as u32);
    lemma_two_digits(m as u32);
    lemma_two_digits(d as u32);
    let y0 = (y as nat) / 1000;
    let y1 = ((y as nat) / 100) % 10;
    let y2 = ((y as nat) / 10) % 10;
    let y3 = (y as nat) % 10;
    let m0 = (m as nat) / 10;
    let m1 = (m as nat) % 10;
    let d0 = (d as nat) / 10;
    let d1 = (d as nat) % 10;
    lemma_digit_byte(y0);
    lemma_digit_byte(y1);
    lemma_digit_byte(y2);
    lemma_digit_byte(y3);
    lemma_digit_byte(m0);
    lemma_digit_byte(m1);
    lemma_digit_byte(d0);
    lemma_digit_byte(d1);
    let t = seq![
        digit_char(y0),
        digit_char(y1),
        digit_char(y2),
        digit_char(y3),
        '-',
        digit_char(m0),
        digit_char(m1),
        '-',
        digit_char(d0),
        digit_char(d1),
    ];
    assert(padded_int(y, 4) + seq!['-'] + padded_int(m, 2) + seq!['-'] + padded_int(d, 2) =~= t);
    assert(vstd::utf8::is_ascii_chars(t));
    vstd::utf8::is_ascii_chars_encode_utf8(t);
    let b = vstd::utf8::encode_utf8(t);
    assert(b[0] == t[0] as u8 && b[1] == t[1] as u8 && b[2] == t[2] as u8 && b[3] == t[3] as u8);
    assert(b[4] == t[4] as u8 && b[5] == t[5] as u8 && b[6] == t[6] as u8);
    assert(b[7] == t[7] as u8 && b[8] == t[8] as u8 && b[9] == t[9] as u8);
    assert(is_date_bytes_spec(b));
    assert(date_year(b) == y);
    assert(date_month(b) == m);
    assert(date_day(b) == d);
}

/// Formatting a day count and parsing the text back gives the day count, for
/// every date from 0000-01-01 to 9999-12-31 (the dates whose year has four
/// digits).
pub proof fn law_date_round_trip(days: int)
    requires
        days != NULL_DATE as int,
        0 <= civil_from_days(days).0 <= 9999,
    ensures
        spec_parse_date(vstd::utf8::encode_utf8(spec_format_date(days))) == Some(days),
{
    lemma_civil_inverse(days);
    let (y, m, d) = civil_from_days(days);
    lemma_date_text(y, m, d);
}

/// A leap year of the proleptic Gregorian calendar.
pub open spec fn is_leap(y: int) -> bool {
    y % 4 == 0 && (y % 100 != 0 || y % 400 == 0)
}

/// The number of days in month `m` of year `y`.
pub open spec fn days_in_month(y: int, m: int) -> int {
    if m == 4 || m == 6 || m == 9 || m == 11 {
        30
    } else if m == 2 {
        if is_leap(y) {
            29
        } else {
            28
        }
    } else {
        31
    }
}

/// Within a 400-year era, the year of era is recovered from its day of era
/// for every day that the March-based year `yoe` has (366 when the civil year
/// `yoe + 1` is a leap year).
#[verifier::rlimit(100)]
proof fn lemma_yoe_recover(yoe: u32, doy: u32)
    by (bit_vector)
    requires
        yoe <= 399,
        doy <= 365,
        doy == 365 ==> yoe % 4 == 3 && (yoe % 100 != 99 || yoe == 399),
    ensures
        365 * yoe + yoe / 4 - yoe / 100 + doy <= 146096,
        ((365 * yoe + yoe / 4 - yoe / 100 + doy) - (365 * yoe + yoe / 4 - yoe / 100 + doy) / 1460 + (365
            * yoe + yoe / 4 - yoe / 100 + doy) / 36524 - (365 * yoe + yoe / 4 - yoe / 100 + doy) / 146096)
            / 365 == yoe,
{
}

/// Within a March-based year, the month index and day are recovered from the
/// day of year for every day the month has.
proof fn lemma_mp_recover(mp: u32, d: u32)
    by (bit_vector)
    requires
        mp <= 11,
        1 <= d,
        d <= 31,
        mp == 11 ==> d <= 29,
        mp == 1 || mp == 3 || mp == 6 || mp == 8 ==> d <= 30,
    ensures
        (5 * ((153 * mp + 2) / 5 + d - 1) + 2) / 153 == mp,
        (153 * mp + 2) / 5 + d - 1 <= 365,
        mp <= 10 ==> (153 * mp + 2) / 5 + d - 1 <= 364,
        mp == 11 ==> (153 * mp + 2) / 5 + d - 1 == 336 + d,
{
}

/// For a valid calendar date, the civil date of its day count is the date
/// itself: Hinnant's conversions are inverse in this direction too.
#[verifier::spinoff_prover]
pub proof fn lemma_days_inverse(y: int, m: int, d: int)
    requires
        1 <= m <= 12,
        1 <= d <= days_in_month(y, m),
    ensures
        civil_from_days(days_from_civil(y, m, d)) == (y, m, d),
{
    let yp = if m <= 2 { y - 1 } else { y };
    let era = yp / 400;
    let yoe = yp - era * 400;
    assert(0 <= yoe < 400);
    let mp = if m > 2 { m - 3 } else { m + 9 };
    let doy = (153 * mp + 2) / 5 + d - 1;
    let doe = yoe * 365 + yoe / 4 - yoe / 100 + doy;
    lemma_mp_recover(mp as u32, d as u32);
    if doy == 365 {
        assert(mp == 11 && d == 29 && m == 2);
        assert(is_leap(y));
        assert(y == 4 * (era * 100) + (yoe + 1));
        assert(y == 100 * (era * 4) + (yoe + 1));
        assert(y == 400 * era + (yoe + 1));
        vstd::arithmetic::div_mod::lemma_mod_multiples_vanish(era * 100, yoe + 1, 4);
        vstd::arithmetic::div_mod::lemma_mod_multiples_vanish(era * 4, yoe + 1, 100);
        vstd::arithmetic::div_mod::lemma_mod_multiples_vanish(era, yoe + 1, 400);
        assert(yoe % 4 == 3);
        assert(yoe % 100 != 99 || yoe == 399);
    }
    let yu: u32 = yoe as u32;
    let du: u32 = doy as u32;
    lemma_yoe_recover(yu, du);
    assert(doe == 365 * yoe + yoe / 4 - yoe / 100 + doy);
    assert(0 <= doe <= 146096);
    let days = days_from_civil(y, m, d);
    assert(days == era * 146097 + doe - 719468);
    let z = days + 719468;
    assert(z / 146097 == era) by (nonlinear_arith)
        requires
            z == era * 146097 + doe,
            0 <= doe <= 146096,
    ;
    assert((doe - doe / 1460 + doe / 36524 - doe / 146096) / 365 == yoe);
    assert((5 * doy + 2) / 153 == mp);
}

/// A date text whose day exists in its month.
pub open spec fn valid_date_bytes(b: Seq<u8>) -> bool {
    &&& is_date_bytes_spec(b)
    &&& 1 <= date_month(b) <= 12
    &&& 1 <= date_day(b) <= days_in_month(date_year(b), date_month(b))
}

/// Four digits in 0..9 give back their number's digits.
proof fn lemma_digits_of4(a: u32, b: u32, c: u32, d: u32)
    by (nonlinear_arith)
    requires
        a <= 9,
        b <= 9,
        c <= 9,
        d <= 9,
    ensures
        (a * 1000 + b * 100 + c * 10 + d) / 1000 == a,
        ((a * 1000 + b * 100 + c * 10 + d) / 100) % 10 == b,
        ((a * 1000 + b * 100 + c * 10 + d) / 10) % 10 == c,
        (a * 1000 + b * 100 + c * 10 + d) % 10 == d,
        (a * 10 + b) / 10 == a,
        (a * 10 + b) % 10 == b,
{
}

/// Parsing a valid date text and formatting the day count gives the text
/// back: a date text names one day and the formatter writes it the same way.
#[verifier::spinoff_prover]
#[verifier::rlimit(100)]
pub proof fn law_format_after_parse(s: Seq<char>)
    requires
        valid_date_bytes(vstd::utf8::encode_utf8(s)),
    ensures
        spec_parse_date(vstd::utf8::encode_utf8(s)) is Some,
        spec_format_date(spec_parse_date(vstd::utf8::encode_utf8(s))->0) == s,
{
    let b = vstd::utf8::encode_utf8(s);
    let y = date_year(b);
    let m = date_month(b);
    let d = date_day(b);
    lemma_days_inverse(y, m, d);
    let days = days_from_civil(y, m, d);
    assert(spec_parse_date(b) == Some(days));
    let yp = if m <= 2 { y - 1 } else { y };
    assert(days >= -146097 - 719468) by {
        assert(yp >= -1);
        assert(yp / 400 >= -1);
    }
    assert(days != NULL_DATE as int);
    lemma_digits_of4(
        digit_val(b[0]) as u32,
        digit_val(b[1]) as u32,
        digit_val(b[2]) as u32,
        digit_val(b[3]) as u32,
    );
    lemma_digits_of4(digit_val(b[5]) as u32, digit_val(b[6]) as u32, 0, 0);
    lemma_digits_of4(digit_val(b[8]) as u32, digit_val(b[9]) as u32, 0, 0);
    lemma_pad4(y as nat);
    lemma_pad2(m as nat);
    lemma_pad2(d as nat);
    let t = padded_int(y, 4) + seq!['-'] + padded_int(m, 2) + seq!['-'] + padded_int(d, 2);
    assert(spec_format_date(days) == t);
    lemma_digit_byte((y as nat) / 1000);
    lemma_digit_byte(((y as nat) / 100) % 10);
    lemma_digit_byte(((y as nat) / 10) % 10);
    lemma_digit_byte((y as nat) % 10);
    lemma_digit_byte((m as nat) / 10);
    lemma_digit_byte((m as nat) % 10);
    lemma_digit_byte((d as nat) / 10);
    lemma_digit_byte((d as nat) % 10);
    assert(vstd::utf8::is_ascii_chars(t));
    vstd::utf8::is_ascii_chars_encode_utf8(t);
    assert(vstd::utf8::encode_utf8(t) =~= b);
    vstd::utf8::encode_utf8_decode_utf8(s);
    vstd::utf8::encode_utf8_decode_utf8(t);
}

// ─── Timestamps ─────────────────────────────────────────────────────────────

pub proof fn lemma_digits_value_bound(s: Seq<u8>)
    requires
        all_digits(s),
    ensures
        digits_value(s) < pow10(s.len()),
    decreases s.len(),
{
    if s.len() > 0 {
        assert(all_digits(s.drop_last())) by {
            assert forall|i: int| 0 <= i < s.drop_last().len() implies is_digit_byte(#[trigger] s.drop_last()[i]) by {
                assert(s.drop_last()[i] == s[i]);
            }
        }
        lemma_digits_value_bound(s.drop_last());
        assert(is_digit_byte(s[s.len() - 1]));
    }
}

fn pow10_exec(k: u32) -> (r: u64)
    requires
        k <= 9,
    ensures
        r == pow10(k as nat),
        r <= 1_000_000_000,
{
    let mut r: u64 = 1;
    let mut i: u32 = 0;
    while i < k
        invariant
            0 <= i <= k,
            k <= 9,
            r == pow10(i as nat),
        decreases k - i,
    {
        proof {
            lemma_pow10_small(i as nat);
        }
        r = r * 10;
        i += 1;
    }
    proof {
        lemma_pow10_small(k as nat);
    }
    r
}

pub proof fn lemma_pow10_small(a: nat)
    requires
        a <= 9,
    ensures
        pow10(a) <= 1_000_000_000,
        pow10(a) >= 1,
{
    reveal_with_fuel(pow10, 10);
}

/// The fraction digits b[20..n] as a number of nanoseconds.
fn frac_nanos_exec(b: &[u8]) -> (r: i64)
    requires
        b@.len() >= 19,
        time_part_ok(b@.skip(11)),
    ensures
        r == frac_nanos(b@.skip(11)),
        0 <= r < 1_000_000_000,
{
    let n = b.len();
    let ghost t = b@.skip(11);
    if n <= 20 {
        return 0;
    }
    let mut v: u64 = 0;
    let mut i: usize = 20;
    while i < n
        invariant
            20 <= i <= n,
            n == b@.len(),
            n <= 29,
            t == b@.skip(11),
            all_digits(t.skip(9)),
            v == digits_value(b@.subrange(20, i as int)),
            v < pow10((i - 20) as nat),
        decreases n - i,
    {
        assert(t.skip(9)[i - 20] == b@[i as int]);
        let dg = (b[i] - 48) as u64;
        proof {
            lemma_pow10_small((i - 20) as nat);
            assert(b@.subrange(20, i + 1).drop_last() =~= b@.subrange(20, i as int));
        }
        v = v * 10 + dg;
        i += 1;
        proof {
            reveal_with_fuel(pow10, 2);
        }
    }
    assert(b@.subrange(20, n as int) =~= t.skip(9));
    let scale = pow10_exec((29 - n) as u32);
    proof {
        lemma_pow10_small((n - 20) as nat);
        lemma_pow10_split((n - 20) as nat, (29 - n) as nat);
        reveal_with_fuel(pow10, 10);
        assert(v * scale < 1_000_000_000) by (nonlinear_arith)
            requires
                v < pow10((n - 20) as nat),
                scale == pow10((29 - n) as nat),
                pow10((n - 20) as nat) * pow10((29 - n) as nat) == pow10(9),
                pow10(9) == 1_000_000_000,
        ;
    }
    (v * scale) as i64
}

pub proof fn lemma_pow10_split(a: nat, b: nat)
    ensures
        pow10(a) * pow10(b) == pow10(a + b),
    decreases a,
{
    if a > 0 {
        lemma_pow10_split((a - 1) as nat, b);
        let a1 = (a - 1) as nat;
        assert(a1 + b + 1 == a + b);
        assert(pow10(a + b) == 10 * pow10(a1 + b));
        assert(pow10(a1) * pow10(b) == pow10(a1 + b));
        assert(pow10(a) * pow10(b) == 10 * (pow10(a1) * pow10(b))) by (nonlinear_arith)
            requires
                pow10(a) == 10 * pow10(a1),
        ;
    } else {
        assert(pow10(0) == 1);
    }
}

/// Two digits at `i` of `b`, as a number.
fn two_digits_at(b: &[u8], i: usize) -> (r: u32)
    requires
        i + 1 < b@.len(),
        is_digit_byte(b@[i as int]),
        is_digit_byte(b@[i + 1]),
    ensures
        r == digit_val(b@[i as int]) * 10 + digit_val(b@[i + 1]),
        r <= 99,
{
    let hi = (b[i] - 48) as u32;
    let lo = (b[i + 1] - 48) as u32;
    hi * 10 + lo
}

/// Parse YYYY-MM-DD HH:MM:SS[.fffffffff] to nanoseconds since epoch.
///
/// Fractional seconds have 1 to 9 digits and are scaled to nanoseconds.
pub fn parse_timestamp_to_nanos(s: &str) -> (r: Result<i64, String>)
    requires
        timestamp_fits(s.spec_bytes()),
    ensures
        match r {
            Ok(v) => spec_parse_timestamp(s.spec_bytes()) == Some(v as int),
            Err(e) => spec_parse_timestamp(s.spec_bytes()) is None && e@ == timestamp_error(s@, s.spec_bytes()),
        },
{
    if !is_timestamp_format(s) {
        return Err(quoted_message("Invalid timestamp format '", s, "'"));
    }
    let b = s.as_bytes();
    let ghost t = b@.skip(11);
    assert(b@.subrange(0, 10) =~= b@.take(10));
    let days = match date_at(b, 0) {
        Ok(d) => d,
        Err(e) => return Err(e),
    };
    let frac = frac_nanos_exec(b);
    assert(t[0] == b@[11] && t[1] == b@[12] && t[3] == b@[14] && t[4] == b@[15]);
    assert(t[6] == b@[17] && t[7] == b@[18]);
    let hour = two_digits_at(b, 11);
    let minute = two_digits_at(b, 14);
    let second = two_digits_at(b, 17);
    if hour > 23 {
        return Err(number_message("Hour ", hour as u64, " out of range 0-23"));
    }
    if minute > 59 {
        return Err(number_message("Minute ", minute as u64, " out of range 0-59"));
    }
    if second > 59 {
        return Err(number_message("Second ", second as u64, " out of range 0-59"));
    }
    let day_part: i64 = (days as i64) * 86400 * 1_000_000_000;
    let nanos = day_part + (hour as i64) * 3600 * 1_000_000_000 + (minute as i64) * 60
        * 1_000_000_000 + (second as i64) * 1_000_000_000 + frac;
    Ok(nanos)
}

/// Parse a timestamp, or return the null timestamp for NA tokens and invalid timestamps.
pub fn parse_timestamp_or_null(s: &str) -> (r: i64)
    requires
        timestamp_text_ok(s@),
    ensures
        r == timestamp_or_null(s@),
        r == (if is_na_chars(s@) {
            NULL_TIMESTAMP as int
        } else {
            match spec_parse_timestamp(s.spec_bytes()) {
                Some(v) => v,
                None => NULL_TIMESTAMP as int,
            }
        }),
{
    if is_na_token(s) {
        return NULL_TIMESTAMP;
    }
    match parse_timestamp_to_nanos(s) {
        Ok(v) => v,
        Err(_) => NULL_TIMESTAMP,
    }
}

/// Whether a text is one on which `parse_timestamp_or_null` does its work
/// without panicking (see `timestamp_text_ok`).
pub fn timestamp_text_check(s: &str) -> (r: bool)
    ensures
        r == timestamp_text_ok(s@),
{
    if is_na_token(s) {
        return true;
    }
    if !is_timestamp_format(s) {
        return true;
    }
    let b = s.as_bytes();
    let ghost t = b@.skip(11);
    assert(b@.subrange(0, 10) =~= b@.take(10));
    let days = match date_at(b, 0) {
        Ok(d) => d,
        Err(_) => return true,
    };
    assert(t[0] == b@[11] && t[1] == b@[12] && t[3] == b@[14] && t[4] == b@[15]);
    assert(t[6] == b@[17] && t[7] == b@[18]);
    let hour = two_digits_at(b, 11);
    let minute = two_digits_at(b, 14);
    let second = two_digits_at(b, 17);
    if hour > 23 || minute > 59 || second > 59 {
        return true;
    }
    let frac = frac_nanos_exec(b);
    let day_part: i128 = (days as i128) * 86400 * 1_000_000_000;
    let v: i128 = day_part + (hour as i128) * 3600 * 1_000_000_000 + (minute as i128) * 60
        * 1_000_000_000 + (second as i128) * 1_000_000_000 + frac as i128;
    day_part >= i64::MIN as i128 && v <= i64::MAX as i128
}

/// Remove trailing '0' characters.
fn trim_trailing_zeros_exec(s: &String) -> (r: String)
    ensures
        r@ == trim_trailing_zeros(s@),
{
    let chars = s.as_str();
    let n = chars.unicode_len();
    let mut end: usize = n;
    assert(s@.subrange(0, n as int) =~= s@);
    while end > 0 && chars.get_char(end - 1) == '0'
        invariant
            0 <= end <= n,
            n == s@.len(),
            chars@ == s@,
            trim_trailing_zeros(s@) == trim_trailing_zeros(s@.subrange(0, end as int)),
        decreases end,
    {
        assert(s@.subrange(0, end as int).drop_last() =~= s@.subrange(0, end - 1));
        end -= 1;
    }
    let r = chars.substring_char(0, end);
    let mut out = String::new();
    out.append(r);
    assert(out@ =~= trim_trailing_zeros(s@));
    out
}

/// Format nanoseconds as YYYY-MM-DD HH:MM:SS[.fffffffff].
///
/// Fractional seconds are included only when non-zero, trailing zeros removed.
#[verifier::rlimit(40)]
pub fn format_timestamp_from_nanos(nanos: i64) -> (s: String)
    ensures
        s@ == spec_format_timestamp(nanos as int),
{
    proof {
        reveal_strlit("NA");
        reveal_strlit(" ");
        reveal_strlit(":");
        reveal_strlit(".");
    }
    if nanos == NULL_TIMESTAMP {
        let mut r = String::new();
        r.append("NA");
        assert(r@ =~= seq!['N', 'A']);
        return r;
    }
    let total = nanos / 1_000_000_000;
    let frac = nanos % 1_000_000_000;
    let days = total / 86400;
    let rem = total % 86400;
    let hour = rem / 3600;
    let minute = (rem % 3600) / 60;
    let second = rem % 60;
    assert(-106752 <= days <= 106752);
    let mut out = format_date_from_days(days as i32);
    let ghost date = out@;
    out.append(" ");
    push_padded_int(&mut out, hour, 2);
    out.append(":");
    push_padded_int(&mut out, minute, 2);
    out.append(":");
    push_padded_int(&mut out, second, 2);
    let ghost base = out@;
    assert(base =~= spec_format_date(days as int) + seq![' '] + padded_int(tdiv(rem as int, 3600), 2)
        + seq![':'] + padded_int(tdiv(trem(rem as int, 3600), 60), 2) + seq![':'] + padded_int(
        trem(rem as int, 60),
        2,
    ));
    if frac != 0 {
        out.append(".");
        let mut f = String::new();
        push_padded_int(&mut f, frac, 9);
        let t = trim_trailing_zeros_exec(&f);
        out.append(t.as_str());
        assert(out@ =~= base + seq!['.'] + trim_trailing_zeros(padded_int(frac as int, 9)));
    }
    out
}

} // verus!
