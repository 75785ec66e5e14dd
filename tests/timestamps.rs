use documentalist::{parse_timecode, Error, TimedEffects, Value};

fn text(s: &str) -> Value {
    Value::Text(s.to_string())
}

fn number(s: &str) -> Value {
    Value::Number(s.to_string())
}

#[test]
fn parses_hours_minutes_seconds_and_fraction() {
    assert_eq!(parse_timecode("1:02:03.5"), Ok(3_723_500_000_000));
}

#[test]
fn parses_bare_seconds() {
    assert_eq!(parse_timecode("03"), Ok(3_000_000_000));
}

#[test]
fn parses_minutes_and_seconds() {
    assert_eq!(parse_timecode("02:03"), Ok(123_000_000_000));
}

#[test]
fn fraction_is_right_aligned_into_nine_digits() {
    assert_eq!(parse_timecode("0.05"), Ok(50_000_000));
    assert_eq!(parse_timecode("0.123456789"), Ok(123_456_789));
    assert_eq!(parse_timecode("1.1234567891"), Ok(1_123_456_789));
    assert_eq!(parse_timecode("4."), Ok(4_000_000_000));
}

#[test]
fn groups_left_of_hours_are_not_read() {
    assert_eq!(parse_timecode("9:1:00:00"), Ok(3_600_000_000_000));
}

#[test]
fn rejects_non_numeric_group() {
    assert_eq!(parse_timecode("1:ab:03"), Err(Error::InvalidTimestamp));
    assert_eq!(parse_timecode(""), Err(Error::InvalidTimestamp));
    assert_eq!(parse_timecode(":30"), Err(Error::InvalidTimestamp));
    assert_eq!(parse_timecode("+5"), Err(Error::InvalidTimestamp));
    assert_eq!(parse_timecode("1.5x"), Err(Error::InvalidTimestamp));
}

#[test]
fn rejects_timecode_too_large_for_nanoseconds() {
    assert_eq!(parse_timecode("18446744073"), Ok(18_446_744_073_000_000_000));
    assert_eq!(parse_timecode("18446744074"), Err(Error::InvalidTimestamp));
    assert_eq!(parse_timecode("99999999999999999999999"), Err(Error::InvalidTimestamp));
}

#[test]
fn bare_number_counts_nanoseconds() {
    assert_eq!(TimedEffects::parse_timestamp(&number("42")), Ok(42));
    assert_eq!(TimedEffects::parse_timestamp(&number("1.5")), Err(Error::InvalidTimestamp));
    assert_eq!(TimedEffects::parse_timestamp(&number("-3")), Err(Error::InvalidTimestamp));
}

#[test]
fn text_key_parses_as_timecode() {
    assert_eq!(TimedEffects::parse_timestamp(&text("00:05")), Ok(5_000_000_000));
    assert_eq!(TimedEffects::parse_timestamp(&Value::Null), Err(Error::InvalidTimestamp));
}

#[test]
fn timestamp_keys_are_recognised_by_pattern() {
    assert!(TimedEffects::is_timestamp(&text("00:05")));
    assert!(TimedEffects::is_timestamp(&text("01:02:03.5")));
    assert!(TimedEffects::is_timestamp(&number("7")));
    assert!(!TimedEffects::is_timestamp(&text("vol")));
    assert!(!TimedEffects::is_timestamp(&text("5")));
    assert!(!TimedEffects::is_timestamp(&Value::Null));
}
