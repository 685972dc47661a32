use sail_function::datetime::{
    parse_date, parse_timestamp, DateValue, LiteralError, TimeValue, TimeZoneValue,
};

fn date(year: i32, month: u32, day: u32) -> DateValue {
    DateValue { year, month, day }
}

#[test]
fn parse_full_dates() {
    assert_eq!(parse_date("2024-02-29"), Ok(date(2024, 2, 29)));
    assert_eq!(parse_date("2024-1-5"), Ok(date(2024, 1, 5)));
    assert_eq!(parse_date("  2024-01-05\n"), Ok(date(2024, 1, 5)));
    assert_eq!(parse_date("-0044-03-15"), Ok(date(-44, 3, 15)));
    assert_eq!(parse_date("+2000-12-31"), Ok(date(2000, 12, 31)));
    assert_eq!(parse_date("1234567-01-01"), Ok(date(1234567, 1, 1)));
}

#[test]
fn parse_short_dates() {
    assert_eq!(parse_date("2024"), Ok(date(2024, 1, 1)));
    assert_eq!(parse_date("2024-03"), Ok(date(2024, 3, 1)));
}

#[test]
fn parse_dates_followed_by_a_time() {
    assert_eq!(parse_date("2024-01-15T10:30:00"), Ok(date(2024, 1, 15)));
    assert_eq!(parse_date("2024-01-15 anything at all"), Ok(date(2024, 1, 15)));
    assert_eq!(parse_date("2024-01T10:30"), Err(LiteralError::Syntax));
    assert_eq!(parse_date("2024 01"), Err(LiteralError::Syntax));
}

#[test]
fn refuse_malformed_dates() {
    assert_eq!(parse_date(""), Err(LiteralError::Syntax));
    assert_eq!(parse_date("   "), Err(LiteralError::Syntax));
    assert_eq!(parse_date("24-01-01"), Err(LiteralError::Syntax));
    assert_eq!(parse_date("12345678-01-01"), Err(LiteralError::Syntax));
    assert_eq!(parse_date("2024-001-01"), Err(LiteralError::Syntax));
    assert_eq!(parse_date("2024-01-"), Err(LiteralError::Syntax));
    assert_eq!(parse_date("2024/01/01"), Err(LiteralError::Syntax));
    assert_eq!(parse_date("2024-01-01-"), Err(LiteralError::Syntax));
    assert_eq!(parse_date("+"), Err(LiteralError::Syntax));
}

#[test]
fn refuse_days_not_in_the_calendar() {
    assert_eq!(parse_date("2023-02-29"), Err(LiteralError::OutOfRange));
    assert_eq!(parse_date("1900-02-29"), Err(LiteralError::OutOfRange));
    assert_eq!(parse_date("2000-02-29"), Ok(date(2000, 2, 29)));
    assert_eq!(parse_date("2024-13-01"), Err(LiteralError::OutOfRange));
    assert_eq!(parse_date("2024-04-31"), Err(LiteralError::OutOfRange));
    assert_eq!(parse_date("2024-00-10"), Err(LiteralError::OutOfRange));
    assert_eq!(parse_date("2024-01-00"), Err(LiteralError::OutOfRange));
}

#[test]
fn rendered_dates_read_back() {
    for (y, m, d) in [(0, 1, 1), (1970, 1, 1), (2024, 2, 29), (9999, 12, 31), (1, 6, 30)] {
        let text = format!("{:04}-{:02}-{:02}", y, m, d);
        assert_eq!(parse_date(&text), Ok(date(y, m, d)));
    }
}

fn time(hour: u32, minute: u32, second: u32, microsecond: u32) -> TimeValue {
    TimeValue { hour, minute, second, microsecond }
}

#[test]
fn parse_timestamps() {
    let ts = parse_timestamp("2024-01-15 10:30:45.123456789").unwrap();
    assert_eq!(ts.date, date(2024, 1, 15));
    assert_eq!(ts.time, time(10, 30, 45, 123456));
    assert_eq!(ts.time_zone, TimeZoneValue::Absent);

    let ts = parse_timestamp("2024-01-15T7:5").unwrap();
    assert_eq!(ts.time, time(7, 5, 0, 0));

    let ts = parse_timestamp("2024-01-15 10:30:45.5").unwrap();
    assert_eq!(ts.time, time(10, 30, 45, 500000));

    let ts = parse_timestamp(" 2024-01-15 ").unwrap();
    assert_eq!(ts.time, time(0, 0, 0, 0));

    let ts = parse_timestamp("2024-01").unwrap();
    assert_eq!(ts.date, date(2024, 1, 1));
    assert_eq!(ts.time, time(0, 0, 0, 0));

    let ts = parse_timestamp("2024-01-15T").unwrap();
    assert_eq!(ts.time, time(0, 0, 0, 0));
}

#[test]
fn parse_timestamp_zones() {
    assert_eq!(parse_timestamp("2024-01-15 10:30:00Z").unwrap().time_zone, TimeZoneValue::Utc);
    assert_eq!(
        parse_timestamp("2024-01-15 10:30:00+05:30").unwrap().time_zone,
        TimeZoneValue::Offset { negative: false, hours: 5, minutes: 30 }
    );
    assert_eq!(
        parse_timestamp("2024-01-15 10:30-8").unwrap().time_zone,
        TimeZoneValue::Offset { negative: true, hours: 8, minutes: 0 }
    );
    assert_eq!(
        parse_timestamp("2024-01-15 10:30:00 America/Los_Angeles").unwrap().time_zone,
        TimeZoneValue::Named("America/Los_Angeles")
    );
    assert_eq!(
        parse_timestamp("2024-01-15 10:30:00UTC").unwrap().time_zone,
        TimeZoneValue::Named("UTC")
    );
}

#[test]
fn refuse_malformed_timestamps() {
    assert_eq!(parse_timestamp("2024-01-15 1030").unwrap_err(), LiteralError::Syntax);
    assert_eq!(parse_timestamp("2024-01-15 10:30:").unwrap_err(), LiteralError::Syntax);
    assert_eq!(parse_timestamp("2024-01-15 10:30:00.").unwrap_err(), LiteralError::Syntax);
    assert_eq!(parse_timestamp("2024-01 10:30").unwrap_err(), LiteralError::Syntax);
    assert_eq!(parse_timestamp("2024-01-15 10:30:00+").unwrap_err(), LiteralError::Syntax);
    assert_eq!(parse_timestamp("2024-01-15 10:30:00 5").unwrap_err(), LiteralError::Syntax);
    assert_eq!(parse_timestamp("2024-01-15 10:30 Ünïcode").unwrap_err(), LiteralError::Syntax);
    assert_eq!(parse_timestamp("").unwrap_err(), LiteralError::Syntax);
}

#[test]
fn refuse_out_of_range_timestamps() {
    assert_eq!(parse_timestamp("2024-01-15 24:00:00").unwrap_err(), LiteralError::OutOfRange);
    assert_eq!(parse_timestamp("2024-01-15 10:60").unwrap_err(), LiteralError::OutOfRange);
    assert_eq!(parse_timestamp("2024-01-15 10:30:60").unwrap_err(), LiteralError::OutOfRange);
    assert_eq!(parse_timestamp("2024-01-15 10:30+19").unwrap_err(), LiteralError::OutOfRange);
    assert_eq!(parse_timestamp("2023-02-29 10:30").unwrap_err(), LiteralError::OutOfRange);
}

#[test]
fn timestamp_dates_are_date_literals() {
    for text in ["2024-01-15 10:30", "2024-03", "-0100-02-28T00:00:00Z", "2024-01-15T"] {
        let ts = parse_timestamp(text).unwrap();
        assert_eq!(parse_date(text), Ok(ts.date));
    }
}
