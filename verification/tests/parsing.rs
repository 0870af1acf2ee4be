//! Step-size and period-start parsing.

use entsoe_surplus::error::EntsoeError;
use entsoe_surplus::resolution::parse_resolution;
use entsoe_surplus::time::{parse_timestamp, Timestamp};

#[test]
fn test_parse_resolution() {
    assert_eq!(parse_resolution("PT15M").unwrap(), 15);
    assert_eq!(parse_resolution("PT30M").unwrap(), 30);
    assert_eq!(parse_resolution("PT60M").unwrap(), 60);
    assert!(parse_resolution("invalid").is_err());
}

#[test]
fn test_parse_timestamp() {
    let ts = parse_timestamp("2023-08-14T22:00Z").unwrap();
    assert_eq!(ts.year(), 2023);
    assert_eq!(ts.month(), 8);
    assert_eq!(ts.day(), 14);
    assert_eq!(ts.hour(), 22);
}

#[test]
fn parse_resolution_rejects_malformed() {
    assert!(matches!(
        parse_resolution("PT1H"),
        Err(EntsoeError::InvalidResolution(s)) if s == "PT1H"
    ));
    assert!(parse_resolution("PTM").is_err());
    assert!(parse_resolution("15M").is_err());
    assert!(parse_resolution("PT-5M").is_err());
    assert!(parse_resolution("PT99999999999999999999M").is_err());
    assert!(parse_resolution("").is_err());
}

#[test]
fn parse_resolution_accepts_leading_zeros() {
    assert_eq!(parse_resolution("PT015M").unwrap(), 15);
}

#[test]
fn parse_timestamp_compact_reads_seconds_as_zero() {
    let compact = parse_timestamp("2023-08-14T00:00Z").unwrap();
    let full = parse_timestamp("2023-08-14T00:00:00Z").unwrap();
    assert_eq!(compact, full);
    assert_eq!(compact.seconds, 1_691_971_200);
}

#[test]
fn parse_timestamp_honours_numeric_offsets() {
    let utc = parse_timestamp("2023-08-14T02:00:00Z").unwrap();
    let plus = parse_timestamp("2023-08-14T04:00:00+02:00").unwrap();
    let minus = parse_timestamp("2023-08-13T21:00:00-05:00").unwrap();
    assert_eq!(plus, utc);
    assert_eq!(minus, utc);
}

#[test]
fn parse_timestamp_rejects_malformed() {
    assert!(matches!(
        parse_timestamp("2023-13-14T00:00Z"),
        Err(EntsoeError::InvalidTimestamp(s)) if s == "2023-13-14T00:00Z"
    ));
    assert!(parse_timestamp("2023-02-29T00:00Z").is_err());
    assert!(parse_timestamp("2024-02-29T00:00Z").is_ok());
    assert!(parse_timestamp("2023-08-14T24:00Z").is_err());
    assert!(parse_timestamp("2023-08-14T00:00").is_err());
    assert!(parse_timestamp("2023-08-14T22:00:05").is_err());
    assert!(parse_timestamp("2023-08-14T22:00:61Z").is_err());
    assert!(parse_timestamp("2023-08-14T22:00:05.Z").is_err());
    assert!(parse_timestamp("2023-08-14T22:00:05.123").is_err());
    assert!(parse_timestamp("2023-08-14T00:00:00+02:60").is_err());
    assert!(parse_timestamp("2023-08-14T00:00:00+24:00").is_err());
    // the lowercase marker never closes the compact form
    assert!(parse_timestamp("2023-08-14T22:00z").is_err());
    assert!(parse_timestamp("not a time").is_err());
}

#[test]
fn parse_timestamp_accepts_relaxed_separators() {
    let reference = parse_timestamp("2023-08-14T22:00Z").unwrap();
    assert_eq!(parse_timestamp("2023-08-14t22:00Z").unwrap(), reference);
    assert_eq!(parse_timestamp("2023-08-14 22:00Z").unwrap(), reference);
    assert_eq!(parse_timestamp("2023-08-14T22:00:00z").unwrap(), reference);
}

#[test]
fn parse_timestamp_drops_the_second_fraction() {
    let whole = parse_timestamp("2023-08-14T22:00:05Z").unwrap();
    assert_eq!(parse_timestamp("2023-08-14T22:00:05.5Z").unwrap(), whole);
    assert_eq!(
        parse_timestamp("2023-08-14T22:00:05.123456789012Z").unwrap(),
        whole
    );
    assert_eq!(
        parse_timestamp("2023-08-14T22:00:05.000000001+00:00").unwrap(),
        whole
    );
}

#[test]
fn parse_timestamp_reads_leap_second_as_its_whole_second() {
    let last = parse_timestamp("2023-08-14T23:59:59Z").unwrap();
    assert_eq!(parse_timestamp("2023-08-14T23:59:60Z").unwrap(), last);
    assert_eq!(parse_timestamp("2023-08-14T23:59:60.9Z").unwrap(), last);
}

#[test]
fn parse_timestamp_accepts_the_typographic_minus_offset() {
    let utc = parse_timestamp("2023-08-14T06:00:00Z").unwrap();
    let hyphen = parse_timestamp("2023-08-14T04:00:00-02:00").unwrap();
    let minus = parse_timestamp("2023-08-14T04:00:00\u{2212}02:00").unwrap();
    assert_eq!(hyphen, utc);
    assert_eq!(minus, utc);
    // any offset below a whole day is in range
    let wide = parse_timestamp("2023-08-14T00:00:00+23:59").unwrap();
    assert_eq!(wide.seconds, utc.seconds - 6 * 3600 - 23 * 3600 - 59 * 60);
}

#[test]
fn timestamp_calendar_round_trip_on_epoch() {
    let epoch = Timestamp { seconds: 0 };
    assert_eq!(epoch.year(), 1970);
    assert_eq!(epoch.month(), 1);
    assert_eq!(epoch.day(), 1);
    assert_eq!(epoch.hour(), 0);
    let before = Timestamp { seconds: -1 };
    assert_eq!(before.year(), 1969);
    assert_eq!(before.month(), 12);
    assert_eq!(before.day(), 31);
    assert_eq!(before.hour(), 23);
}
