use blisp::io::{
    detect_column_type, format_date_from_days, format_timestamp_from_nanos, is_date_format,
    is_na_token, is_timestamp_format, parse_date_or_null, parse_date_to_days,
    parse_timestamp_or_null, parse_timestamp_to_nanos, ColType, NULL_DATE, NULL_TIMESTAMP,
};

#[test]
fn test_is_date_format() {
    assert!(is_date_format("2000-01-03"));
    assert!(is_date_format("2025-12-31"));
    assert!(!is_date_format("100.0"));
    assert!(!is_date_format("NA"));
    assert!(!is_date_format("2000-1-3")); // Wrong format
    assert!(!is_date_format("20-01-03")); // Wrong format
}

#[test]
fn test_parse_date_to_days() {
    assert_eq!(parse_date_to_days("1970-01-01").unwrap(), 0);

    let days_2000 = parse_date_to_days("2000-01-01").unwrap();
    assert!(days_2000 > 10000 && days_2000 < 11000);

    assert!(parse_date_to_days("2000-1-1").is_err());
    assert!(parse_date_to_days("not-a-date").is_err());
}

#[test]
fn test_parse_date_or_null() {
    assert_eq!(parse_date_or_null("1970-01-01"), 0);
    assert!(parse_date_or_null("2000-01-01") > 0);

    assert_eq!(parse_date_or_null("NA"), NULL_DATE);
    assert_eq!(parse_date_or_null("NaN"), NULL_DATE);
    assert_eq!(parse_date_or_null(""), NULL_DATE);

    assert_eq!(parse_date_or_null("invalid"), NULL_DATE);
    assert_eq!(parse_date_or_null("2000-1-1"), NULL_DATE);
}

#[test]
fn test_parse_date_leap_years() {
    assert_eq!(parse_date_to_days("2000-02-29").unwrap(), 11016);
    assert_eq!(parse_date_to_days("2004-02-29").unwrap(), 12477);
    assert_eq!(parse_date_to_days("1972-02-29").unwrap(), 789);
}

#[test]
fn test_parse_date_roundtrip() {
    let test_dates = vec!["1970-01-01", "2000-01-01", "2000-02-29", "2024-12-31"];

    for date_str in test_dates {
        let days = parse_date_to_days(date_str).unwrap();
        let formatted = format_date_from_days(days);
        assert_eq!(date_str, formatted);
    }
}

#[test]
fn test_parse_timestamp_fractional_seconds() {
    let ts1 = parse_timestamp_to_nanos("1970-01-01 00:00:00.1").unwrap();
    assert_eq!(ts1, 100_000_000);

    let ts2 = parse_timestamp_to_nanos("1970-01-01 00:00:00.123").unwrap();
    assert_eq!(ts2, 123_000_000);

    let ts3 = parse_timestamp_to_nanos("1970-01-01 00:00:00.123456789").unwrap();
    assert_eq!(ts3, 123_456_789);
}

#[test]
fn test_parse_timestamp_roundtrip() {
    let test_timestamps = vec![
        "1970-01-01 00:00:00",
        "2000-01-01 12:30:45",
        "2000-01-01 12:30:45.1",
        "2000-01-01 12:30:45.123",
    ];

    for ts_str in test_timestamps {
        let nanos = parse_timestamp_to_nanos(ts_str).unwrap();
        let formatted = format_timestamp_from_nanos(nanos);
        assert_eq!(ts_str, formatted);
    }
}

#[test]
fn test_detect_date_vs_timestamp() {
    assert!(is_date_format("2000-01-01"));
    assert!(!is_date_format("2000-01-01 12:30:00"));

    assert!(is_timestamp_format("2000-01-01 12:30:00"));
    assert!(is_timestamp_format("2000-01-01 12:30:00.123"));
    assert!(!is_timestamp_format("2000-01-01"));
}

#[test]
fn na_tokens() {
    assert!(is_na_token(""));
    assert!(is_na_token("NA"));
    assert!(is_na_token("NaN"));
    assert!(is_na_token("N/A"));
    assert!(!is_na_token("na"));
    assert!(!is_na_token("N"));
    assert!(!is_na_token("NAN"));
}

#[test]
fn detect_column_types_after_trimming() {
    assert_eq!(detect_column_type(" 2000-01-01 "), ColType::Date);
    assert_eq!(detect_column_type("2000-01-01 12:30:00"), ColType::Timestamp);
    assert_eq!(detect_column_type("\t2000-01-01 12:30:00.5 "), ColType::Timestamp);
    assert_eq!(detect_column_type("145.438"), ColType::F64);
    assert_eq!(detect_column_type("2000/01/01"), ColType::F64);
    // a multi-byte character where the time digits belong: no timestamp
    assert_eq!(detect_column_type("2000-01-01 1\u{e9}:00:0"), ColType::F64);
    assert!(!is_timestamp_format("2000-01-01 0\u{e9}00:00"));
}

#[test]
fn date_range_errors() {
    assert!(parse_date_to_days("2000-13-01").is_err());
    assert!(parse_date_to_days("2000-00-10").is_err());
    assert!(parse_date_to_days("2000-01-32").is_err());
    assert!(parse_date_to_days("2000-01-00").is_err());
    // days are not checked against month length
    assert_eq!(parse_date_to_days("2001-02-31").unwrap(), parse_date_to_days("2001-03-03").unwrap());
    assert_eq!(parse_date_to_days("0000-03-01").unwrap(), -719468);
    assert_eq!(parse_date_to_days("0000-01-01").unwrap(), -719528);
    assert_eq!(parse_date_to_days("9999-12-31").unwrap(), 2932896);
}

#[test]
fn format_dates() {
    assert_eq!(format_date_from_days(0), "1970-01-01");
    assert_eq!(format_date_from_days(-1), "1969-12-31");
    assert_eq!(format_date_from_days(11016), "2000-02-29");
    assert_eq!(format_date_from_days(NULL_DATE), "NA");
    assert_eq!(format_date_from_days(-719528), "0000-01-01");
    assert_eq!(format_date_from_days(-719529), "-001-12-31");
    assert_eq!(format_date_from_days(2932897), "10000-01-01");
}

#[test]
fn timestamp_validation() {
    assert!(!is_timestamp_format("2000-01-01T12:30:00"));
    assert!(!is_timestamp_format("2000-01-01 12:30:00."));
    assert!(!is_timestamp_format("2000-01-01 12:30:00.1234567890"));
    assert!(!is_timestamp_format("2000-01-01 12-30-00"));
    assert!(is_timestamp_format("2000-01-01 99:99:99"));
    assert!(parse_timestamp_to_nanos("2000-01-01 24:00:00").is_err());
    assert!(parse_timestamp_to_nanos("2000-01-01 23:60:00").is_err());
    assert!(parse_timestamp_to_nanos("2000-01-01 23:59:60").is_err());
    assert!(parse_timestamp_to_nanos("2000-13-01 00:00:00").is_err());
    assert_eq!(
        parse_timestamp_to_nanos("1970-01-02 01:01:01.5").unwrap(),
        86400 * 1_000_000_000 + 3661 * 1_000_000_000 + 500_000_000
    );
    assert_eq!(parse_timestamp_or_null("NA"), NULL_TIMESTAMP);
    assert_eq!(parse_timestamp_or_null("garbage"), NULL_TIMESTAMP);
    assert_eq!(parse_timestamp_or_null("1970-01-01 00:00:01"), 1_000_000_000);
}

#[test]
fn format_timestamps() {
    assert_eq!(format_timestamp_from_nanos(0), "1970-01-01 00:00:00");
    assert_eq!(format_timestamp_from_nanos(1_500_000_000), "1970-01-01 00:00:01.5");
    assert_eq!(format_timestamp_from_nanos(NULL_TIMESTAMP), "NA");
    assert_eq!(format_timestamp_from_nanos(123_456_789), "1970-01-01 00:00:00.123456789");
    // negative counts are rendered component-wise with truncating division
    assert_eq!(format_timestamp_from_nanos(-1_000_000_000), "1970-01-01 00:00:-1");
}

#[test]
fn date_and_timestamp_error_messages() {
    assert_eq!(parse_date_to_days("2024-13-01"), Err("Month 13 out of range 1-12".to_string()));
    assert_eq!(parse_date_to_days("2024-01-32"), Err("Day 32 out of range 1-31".to_string()));
    assert_eq!(
        parse_date_to_days("01/02/2024"),
        Err("Invalid date format '01/02/2024', expected YYYY-MM-DD".to_string())
    );
    assert_eq!(
        parse_timestamp_to_nanos("2024-01-01 24:00:00"),
        Err("Hour 24 out of range 0-23".to_string())
    );
    assert_eq!(
        parse_timestamp_to_nanos("2024-01-01 12:60:00"),
        Err("Minute 60 out of range 0-59".to_string())
    );
    assert_eq!(
        parse_timestamp_to_nanos("2024-00-01 12:00:00"),
        Err("Month 0 out of range 1-12".to_string())
    );
    assert_eq!(
        parse_timestamp_to_nanos("2024-01-01"),
        Err("Invalid timestamp format '2024-01-01'".to_string())
    );
}

#[test]
fn detect_column_type_trims_unicode_white_space() {
    // no-break space and ideographic space are White_Space; the text inside is a date
    assert_eq!(detect_column_type("\u{3000}2000-01-01\u{a0}"), ColType::Date);
    // a zero-width space is not White_Space, so the text stays as it is
    assert_eq!(detect_column_type("\u{200b}2000-01-01"), ColType::F64);
}

#[test]
fn date_format_then_parse_round_trips() {
    // 0000-03-01, 1969-12-31, the epoch, 2024-02-29 and 9999-12-31
    for days in [-719468, -1, 0, 19782, 2932896] {
        let text = format_date_from_days(days);
        assert_eq!(parse_date_to_days(&text), Ok(days), "{}", text);
    }
    assert_eq!(format_date_from_days(2932896), "9999-12-31");
}

#[test]
fn date_parse_then_format_round_trips() {
    for text in ["1970-01-01", "2000-01-01", "2000-02-29", "2024-12-31", "0000-01-01", "9999-12-31"] {
        let days = parse_date_to_days(text).unwrap();
        assert_eq!(format_date_from_days(days), text);
    }
}
