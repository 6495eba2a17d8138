use blisp::io::NULL_DATE;
use blisp::io_fast::{
    is_date_bytes, is_na_bytes, parse_2digit, parse_4digit, parse_date_bytes, parse_header,
    trim_bytes,
};

#[test]
fn test_is_date_bytes() {
    assert!(is_date_bytes(b"2020-01-01"));
    assert!(is_date_bytes(b"1999-12-31"));
    assert!(!is_date_bytes(b"not-a-date"));
    assert!(!is_date_bytes(b"2020/01/01"));
    assert!(!is_date_bytes(b"short"));
}

#[test]
fn test_parse_date_bytes() {
    assert_eq!(parse_date_bytes(b"2020-01-01"), 18262);
    assert_eq!(parse_date_bytes(b"1970-01-01"), 0);
    assert_eq!(parse_date_bytes(b"NA"), NULL_DATE);
}

#[test]
fn test_fast_matches_header_parsing() {
    let header = b"DATE;ES1 Index;SPY US Equity;volume";
    let names = parse_header(header);
    assert_eq!(names, vec!["DATE", "ES1 Index", "SPY US Equity", "volume"]);
}

#[test]
fn header_edge_cases() {
    assert_eq!(parse_header(b""), vec![""]);
    assert_eq!(parse_header(b"a;"), vec!["a", ""]);
    assert_eq!(parse_header(b" a ;\tb\r"), vec!["a", "b"]);
    assert_eq!(parse_header(b"x;\xff;y"), vec!["x", "", "y"]);
}

#[test]
fn na_bytes_and_trimming() {
    for t in [&b""[..], b"NA", b"NaN", b"N/A", b"na", b"nan", b"n/a"] {
        assert!(is_na_bytes(t));
    }
    assert!(!is_na_bytes(b"NAN"));
    assert!(!is_na_bytes(b" NA"));
    assert_eq!(trim_bytes(b"  NA "), b"NA");
    assert_eq!(trim_bytes(b"   "), b"");
    assert_eq!(trim_bytes(b"\tx "), b"\tx");
}

#[test]
fn digit_readers_and_loose_dates() {
    assert_eq!(parse_4digit(b"2020", 0), 2020);
    assert_eq!(parse_2digit(b"x07", 1), 7);
    // the field parser only checks the dashes
    assert_eq!(parse_date_bytes(b"2020-13-01"), NULL_DATE);
    assert_eq!(parse_date_bytes(b"2020-02-31"), parse_date_bytes(b"2020-03-02"));
    assert_eq!(parse_date_bytes(b"2020/01/01"), NULL_DATE);
    assert_eq!(parse_date_bytes(b"2020-0:-01"), NULL_DATE);
    assert_eq!(parse_date_bytes(b"    -  -  "), NULL_DATE);
}
