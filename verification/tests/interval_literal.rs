use sail_function::interval_literal::{parse_interval, IntervalError, IntervalValue};

fn interval(months: i32, days: i32, microseconds: i64) -> Result<IntervalValue, IntervalError> {
    Ok(IntervalValue { months, days, microseconds })
}

#[test]
fn single_terms() {
    assert_eq!(parse_interval("1 day"), interval(0, 1, 0));
    assert_eq!(parse_interval("3 months"), interval(3, 0, 0));
    assert_eq!(parse_interval("2 years"), interval(24, 0, 0));
    assert_eq!(parse_interval("-1 week"), interval(0, -7, 0));
    assert_eq!(parse_interval("1 hour"), interval(0, 0, 3_600_000_000));
    assert_eq!(parse_interval("1 minute"), interval(0, 0, 60_000_000));
    assert_eq!(parse_interval("1 second"), interval(0, 0, 1_000_000));
    assert_eq!(parse_interval("1 millisecond"), interval(0, 0, 1000));
    assert_eq!(parse_interval("1 microsecond"), interval(0, 0, 1));
}

#[test]
fn terms_add_up() {
    assert_eq!(parse_interval("INTERVAL 1 YEAR 2 MONTHS"), interval(14, 0, 0));
    assert_eq!(parse_interval("1 hour 30 minutes"), interval(0, 0, 5_400_000_000));
    assert_eq!(
        parse_interval("interval 1 day -2 hours 3 seconds"),
        interval(0, 1, -7_200_000_000 + 3_000_000)
    );
    assert_eq!(parse_interval("1 millisecond 1 microsecond"), interval(0, 0, 1001));
    assert_eq!(parse_interval("1 day 2 days"), interval(0, 3, 0));
}

#[test]
fn signs_spacing_and_case() {
    assert_eq!(parse_interval("+ 5 days"), interval(0, 5, 0));
    assert_eq!(parse_interval("- 1 day"), interval(0, -1, 0));
    assert_eq!(parse_interval("  1 days\t"), interval(0, 1, 0));
    assert_eq!(parse_interval("1   DAYS    2  Hours"), interval(0, 1, 7_200_000_000));
    assert_eq!(parse_interval("InTeRvAl 7 dAy"), interval(0, 7, 0));
}

#[test]
fn fractions_of_seconds() {
    assert_eq!(parse_interval("1.5 seconds"), interval(0, 0, 1_500_000));
    assert_eq!(parse_interval("-1.5 seconds"), interval(0, 0, -1_500_000));
    assert_eq!(parse_interval("1.123456789 seconds"), interval(0, 0, 1_123_456));
    assert_eq!(parse_interval("1. second"), interval(0, 0, 1_000_000));
    assert_eq!(parse_interval("+.5 seconds"), interval(0, 0, 500_000));
    assert_eq!(parse_interval("1.1234567890 seconds"), Err(IntervalError::Precision));
    assert_eq!(parse_interval("1.5 days"), Err(IntervalError::FractionalUnit));
    assert_eq!(parse_interval("1.5 minutes"), Err(IntervalError::FractionalUnit));
}

#[test]
fn empty_and_malformed() {
    assert_eq!(parse_interval(""), Err(IntervalError::Empty));
    assert_eq!(parse_interval("   "), Err(IntervalError::Empty));
    assert_eq!(parse_interval("interval"), Err(IntervalError::Empty));
    assert_eq!(parse_interval("intervalx 1 day"), Err(IntervalError::Syntax));
    assert_eq!(parse_interval("1day"), Err(IntervalError::Syntax));
    assert_eq!(parse_interval("1 dayx"), Err(IntervalError::Syntax));
    assert_eq!(parse_interval("1 days,"), Err(IntervalError::Syntax));
    assert_eq!(parse_interval("1 fortnight"), Err(IntervalError::Syntax));
    assert_eq!(parse_interval("1"), Err(IntervalError::Syntax));
    assert_eq!(parse_interval("day"), Err(IntervalError::Syntax));
    assert_eq!(parse_interval("1 day -"), Err(IntervalError::Syntax));
    assert_eq!(parse_interval(".5 seconds"), Err(IntervalError::Syntax));
}

#[test]
fn overflow_is_refused() {
    assert_eq!(
        parse_interval("9223372036854775807 microseconds"),
        interval(0, 0, i64::MAX)
    );
    assert_eq!(
        parse_interval("9223372036854775808 microseconds"),
        Err(IntervalError::Overflow)
    );
    assert_eq!(parse_interval("2147483647 days"), interval(0, i32::MAX, 0));
    assert_eq!(parse_interval("2147483648 days"), Err(IntervalError::Overflow));
    assert_eq!(parse_interval("2147483647 days 1 day"), Err(IntervalError::Overflow));
    assert_eq!(parse_interval("178956970 years"), interval(2_147_483_640, 0, 0));
    assert_eq!(parse_interval("178956971 years"), Err(IntervalError::Overflow));
    assert_eq!(
        parse_interval("2562047788 hours"),
        interval(0, 0, 9_223_372_036_800_000_000)
    );
    assert_eq!(parse_interval("2562047789 hours"), Err(IntervalError::Overflow));
    // The overflowing number is refused before the malformed unit after it.
    assert_eq!(
        parse_interval("99999999999999999999 fortnights"),
        Err(IntervalError::Overflow)
    );
}

#[test]
fn units_agree_on_concrete_values() {
    assert_eq!(parse_interval("1 year"), parse_interval("12 months"));
    assert_eq!(parse_interval("2 weeks"), parse_interval("14 days"));
    assert_eq!(parse_interval("1 hour"), parse_interval("60 minutes"));
    assert_eq!(parse_interval("1 minute"), parse_interval("60 seconds"));
    assert_eq!(parse_interval("1 second"), parse_interval("1000 milliseconds"));
    assert_eq!(parse_interval("1 millisecond"), parse_interval("1000 microseconds"));
}
