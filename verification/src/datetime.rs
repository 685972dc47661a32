//! Date and timestamp literals, parsed from the byte strings Spark accepts. A date is
//! `[+-]yyyy[yyy]`, `[+-]yyyy[yyy]-[m]m` or `[+-]yyyy[yyy]-[m]m-[d]d`, the last optionally
//! followed by a space or a `T` and anything. Surrounding whitespace and control characters are
//! ignored, and the date must exist in the proleptic Gregorian calendar.
use vstd::prelude::*;
use vstd::string::StringSliceAdditionalSpecFns;

verus! {

/// An ASCII decimal digit.
pub open spec fn is_digit(c: u8) -> bool {
    48 <= c <= 57
}

/// A byte trimmed from both ends of a literal: whitespace and control characters.
pub open spec fn is_trimmed(c: u8) -> bool {
    c <= 32 || c == 127
}

/// The first position at or after `i`, before `hi`, that is not a digit (`hi` if none).
pub open spec fn run_end(b: Seq<u8>, i: int, hi: int) -> int
    decreases hi - i,
{
    if i < hi && is_digit(b[i]) {
        run_end(b, i + 1, hi)
    } else {
        i
    }
}

/// The value of the decimal digits `b[lo..hi]`.
pub open spec fn decimal(b: Seq<u8>, lo: int, hi: int) -> nat
    decreases hi - lo,
{
    if hi <= lo {
        0
    } else {
        decimal(b, lo, hi - 1) * 10 + (b[hi - 1] - 48) as nat
    }
}

/// The first position at or after `i`, before `hi`, that is not trimmed (`hi` if none).
pub open spec fn trim_start(b: Seq<u8>, i: int, hi: int) -> int
    decreases hi - i,
{
    if i < hi && is_trimmed(b[i]) {
        trim_start(b, i + 1, hi)
    } else {
        i
    }
}

/// The end of `b[lo..hi]` once trimmed bytes are dropped from its end.
pub open spec fn trim_end(b: Seq<u8>, lo: int, hi: int) -> int
    decreases hi - lo,
{
    if lo < hi && is_trimmed(b[hi - 1]) {
        trim_end(b, lo, hi - 1)
    } else {
        hi
    }
}

/// Whether `y` is a leap year of the proleptic Gregorian calendar.
pub open spec fn is_leap_year(y: int) -> bool {
    let a = if y < 0 { -y } else { y };
    a % 4 == 0 && (a % 100 != 0 || a % 400 == 0)
}

/// The number of days of month `m` (1 to 12) of year `y`.
pub open spec fn days_in_month(y: int, m: int) -> int {
    if m == 2 {
        if is_leap_year(y) {
            29
        } else {
            28
        }
    } else if m == 4 || m == 6 || m == 9 || m == 11 {
        30
    } else {
        31
    }
}

/// Whether year `y`, month `m` and day `d` name a day of the calendar.
pub open spec fn is_valid_date(y: int, m: int, d: int) -> bool {
    1 <= m <= 12 && 1 <= d <= days_in_month(y, m)
}

/// A date: year (negative before year 0), month and day of the month.
#[derive(Debug, Clone, Copy, PartialEq, Eq, Structural)]
pub struct DateValue {
    pub year: i32,
    pub month: u32,
    pub day: u32,
}

/// Why a literal is refused.
#[derive(Debug, Clone, Copy, PartialEq, Eq, Structural)]
pub enum LiteralError {
    /// The text does not have the literal's form.
    Syntax,
    /// The text has the form, but a field is out of its range (no such day, hour...).
    OutOfRange,
}

/// The leading date of a literal in `b[lo..hi]`: its sign, its year, month and day digit runs
/// (`month` and `day` are 1 when absent), and where it ends; `None` if the text does not start
/// with a date. `complete` tells whether all three fields are there.
pub struct DateSyntax {
    pub negative: bool,
    pub year: nat,
    pub month: nat,
    pub day: nat,
    pub end: int,
    pub complete: bool,
}

/// Reads the date at the start of `b[lo..hi]`: an optional sign, a year of 4 to 7 digits, and
/// optionally `-` and a month of 1 or 2 digits, then optionally `-` and a day of 1 or 2 digits.
/// The date may only be followed by something after a complete `y-m-d`.
pub open spec fn date_syntax(b: Seq<u8>, lo: int, hi: int) -> Option<DateSyntax> {
    let signed = lo < hi && (b[lo] == 45u8 || b[lo] == 43u8);
    let negative = lo < hi && b[lo] == 45u8;
    let y0 = if signed { lo + 1 } else { lo };
    let y1 = run_end(b, y0, hi);
    if !(4 <= y1 - y0 <= 7) {
        None
    } else if y1 == hi {
        Some(DateSyntax { negative, year: decimal(b, y0, y1), month: 1, day: 1, end: y1, complete: false })
    } else if b[y1] != 45u8 {
        None
    } else {
        let m0 = y1 + 1;
        let m1 = run_end(b, m0, hi);
        if !(1 <= m1 - m0 <= 2) {
            None
        } else if m1 == hi {
            Some(
                DateSyntax {
                    negative,
                    year: decimal(b, y0, y1),
                    month: decimal(b, m0, m1),
                    day: 1,
                    end: m1,
                    complete: false,
                },
            )
        } else if b[m1] != 45u8 {
            None
        } else {
            let d0 = m1 + 1;
            let d1 = run_end(b, d0, hi);
            if !(1 <= d1 - d0 <= 2) {
                None
            } else {
                Some(
                    DateSyntax {
                        negative,
                        year: decimal(b, y0, y1),
                        month: decimal(b, m0, m1),
                        day: decimal(b, d0, d1),
                        end: d1,
                        complete: true,
                    },
                )
            }
        }
    }
}

/// The date a date literal denotes, or why it is refused.
pub open spec fn spec_parse_date(b: Seq<u8>) -> Result<DateValue, LiteralError> {
    let lo = trim_start(b, 0, b.len() as int);
    let hi = trim_end(b, lo, b.len() as int);
    match date_syntax(b, lo, hi) {
        None => Err(LiteralError::Syntax),
        Some(d) => if !(d.end == hi || (d.complete && (b[d.end] == 32u8 || b[d.end] == 84u8))) {
            Err(LiteralError::Syntax)
        } else {
            let year = if d.negative { -d.year } else { d.year as int };
            if is_valid_date(year, d.month as int, d.day as int) {
                Ok(DateValue { year: year as i32, month: d.month as u32, day: d.day as u32 })
            } else {
                Err(LiteralError::OutOfRange)
            }
        },
    }
}

} // verus!

verus! {

/// Every position of a digit run holds a digit, and the run ends within bounds.
pub proof fn lemma_run_end(b: Seq<u8>, i: int, hi: int)
    requires
        0 <= i,
        hi <= b.len(),
    ensures
        i <= run_end(b, i, hi),
        i <= hi ==> run_end(b, i, hi) <= hi,
        run_end(b, i, hi) < hi ==> !is_digit(b[run_end(b, i, hi)]),
        forall|k: int| i <= k < run_end(b, i, hi) ==> is_digit(#[trigger] b[k]),
    decreases hi - i,
{
    if i < hi && is_digit(b[i]) {
        lemma_run_end(b, i + 1, hi);
    }
}

/// Ten to the power `n`.
pub open spec fn pow10(n: nat) -> nat
    decreases n,
{
    if n == 0 {
        1
    } else {
        10 * pow10((n - 1) as nat)
    }
}

/// A run of `n` digits is worth less than `10^n`.
pub proof fn lemma_decimal_bound(b: Seq<u8>, lo: int, hi: int)
    requires
        lo <= hi,
        forall|k: int| lo <= k < hi ==> is_digit(#[trigger] b[k]),
    ensures
        decimal(b, lo, hi) < pow10((hi - lo) as nat),
    decreases hi - lo,
{
    if hi > lo {
        lemma_decimal_bound(b, lo, hi - 1);
        assert(is_digit(b[hi - 1]));
        let p = pow10((hi - 1 - lo) as nat);
        assert(pow10((hi - lo) as nat) == 10 * p);
        assert(decimal(b, lo, hi - 1) * 10 + (b[hi - 1] - 48) < 10 * p) by (nonlinear_arith)
            requires
                decimal(b, lo, hi - 1) < p,
                0 <= b[hi - 1] - 48 <= 9,
        ;
    }
}

/// Small powers of ten.
pub proof fn lemma_pow10_values()
    ensures
        pow10(1) == 10,
        pow10(2) == 100,
        pow10(7) == 10_000_000,
        pow10(8) == 100_000_000,
        pow10(9) == 1_000_000_000,
{
    reveal_with_fuel(pow10, 10);
}

/// A shorter run of digits is worth less than a longer one's bound.
pub proof fn lemma_pow10_monotone(m: nat, n: nat)
    requires
        m <= n,
    ensures
        pow10(m) <= pow10(n),
    decreases n,
{
    if m < n {
        lemma_pow10_monotone(m, (n - 1) as nat);
    }
}

/// The first position at or after `i`, before `hi`, that is not a digit.
pub(crate) fn digit_run_end(b: &[u8], i: usize, hi: usize) -> (end: usize)
    requires
        hi <= b@.len(),
    ensures
        end == run_end(b@, i as int, hi as int),
{
    let mut j = i;
    while j < hi && 48 <= b[j] && b[j] <= 57
        invariant
            hi <= b@.len(),
            i <= j,
            run_end(b@, i as int, hi as int) == run_end(b@, j as int, hi as int),
        decreases hi - j,
    {
        j = j + 1;
    }
    j
}

/// The value of the decimal digits `b[lo..hi]`, at most nine of them.
pub(crate) fn decimal_value(b: &[u8], lo: usize, hi: usize) -> (value: u32)
    requires
        lo <= hi <= b@.len(),
        hi - lo <= 9,
        forall|k: int| lo <= k < hi ==> is_digit(#[trigger] b@[k]),
    ensures
        value == decimal(b@, lo as int, hi as int),
{
    let mut value: u32 = 0;
    let mut k = lo;
    while k < hi
        invariant
            lo <= k <= hi <= b@.len(),
            hi - lo <= 9,
            forall|j: int| lo <= j < hi ==> is_digit(#[trigger] b@[j]),
            value == decimal(b@, lo as int, k as int),
        decreases hi - k,
    {
        proof {
            lemma_decimal_bound(b@, lo as int, k as int);
            lemma_pow10_monotone((k - lo) as nat, 8);
            lemma_pow10_values();
            assert(is_digit(b@[k as int]));
        }
        value = value * 10 + (b[k] - 48) as u32;
        k = k + 1;
    }
    value
}

/// The first position at or after `i`, before `hi`, that is not trimmed.
pub(crate) fn trimmed_start(b: &[u8], i: usize, hi: usize) -> (start: usize)
    requires
        hi <= b@.len(),
    ensures
        start == trim_start(b@, i as int, hi as int),
{
    let mut j = i;
    while j < hi && (b[j] <= 32 || b[j] == 127)
        invariant
            hi <= b@.len(),
            i <= j,
            trim_start(b@, i as int, hi as int) == trim_start(b@, j as int, hi as int),
        decreases hi - j,
    {
        j = j + 1;
    }
    j
}

/// The end of `b[lo..hi]` once trimmed bytes are dropped from its end.
pub(crate) fn trimmed_end(b: &[u8], lo: usize, hi: usize) -> (end: usize)
    requires
        hi <= b@.len(),
    ensures
        end == trim_end(b@, lo as int, hi as int),
{
    let mut j = hi;
    while lo < j && (b[j - 1] <= 32 || b[j - 1] == 127)
        invariant
            hi <= b@.len(),
            j <= hi,
            trim_end(b@, lo as int, hi as int) == trim_end(b@, lo as int, j as int),
        decreases j,
    {
        j = j - 1;
    }
    j
}

/// Whether year `y` (a magnitude) is a leap year.
fn leap_year(y: u32) -> (leap: bool)
    ensures
        leap == is_leap_year(y as int),
{
    y % 4 == 0 && (y % 100 != 0 || y % 400 == 0)
}

/// Whether the year (by its sign and magnitude), month and day name a day of the calendar.
fn valid_date(negative: bool, year: u32, month: u32, day: u32) -> (valid: bool)
    ensures
        valid == is_valid_date(if negative { -(year as int) } else { year as int }, month as int, day as int),
{
    if month < 1 || month > 12 || day < 1 {
        return false;
    }
    let days: u32 = if month == 2 {
        if leap_year(year) {
            29
        } else {
            28
        }
    } else if month == 4 || month == 6 || month == 9 || month == 11 {
        30
    } else {
        31
    };
    day <= days
}

} // verus!

verus! {

/// The leading date of a literal, as read.
struct DateFields {
    negative: bool,
    year: u32,
    month: u32,
    day: u32,
    end: usize,
    complete: bool,
}

/// The read fields are those of the date syntax.
spec fn fields_match(f: DateFields, d: DateSyntax) -> bool {
    &&& f.negative == d.negative
    &&& f.year == d.year
    &&& f.month == d.month
    &&& f.day == d.day
    &&& f.end == d.end
    &&& f.complete == d.complete
}

/// Reads a run of `min` to `max` digits at `start`, at most 7; its end and value.
fn digit_field(b: &[u8], start: usize, hi: usize, min: usize, max: usize) -> (field: Option<
    (usize, u32),
>)
    requires
        hi <= b@.len(),
        start <= hi,
        max <= 7,
    ensures
        match field {
            Some((end, value)) => end == run_end(b@, start as int, hi as int) && end <= hi && min
                <= end - start <= max && value == decimal(b@, start as int, end as int) && value
                < 10_000_000,
            None => !(min <= run_end(b@, start as int, hi as int) - start <= max),
        },
{
    let end = digit_run_end(b, start, hi);
    proof {
        lemma_run_end(b@, start as int, hi as int);
    }
    if end - start < min || end - start > max {
        return None;
    }
    let value = decimal_value(b, start, end);
    proof {
        lemma_decimal_bound(b@, start as int, end as int);
        lemma_pow10_monotone((end - start) as nat, 7);
        lemma_pow10_values();
    }
    Some((end, value))
}

/// Reads the date at the start of `b[lo..hi]`.
fn read_date(b: &[u8], lo: usize, hi: usize) -> (date: Option<DateFields>)
    requires
        lo <= hi <= b@.len(),
    ensures
        match date {
            Some(f) => date_syntax(b@, lo as int, hi as int) matches Some(d) && fields_match(f, d)
                && f.end <= hi && f.year < 10_000_000,
            None => date_syntax(b@, lo as int, hi as int) is None,
        },
{
    let signed = lo < hi && (b[lo] == 45 || b[lo] == 43);
    let negative = lo < hi && b[lo] == 45;
    let y0 = if signed {
        lo + 1
    } else {
        lo
    };
    let (y1, year) = match digit_field(b, y0, hi, 4, 7) {
        Some(f) => f,
        None => return None,
    };
    if y1 == hi {
        return Some(DateFields { negative, year, month: 1, day: 1, end: y1, complete: false });
    }
    if b[y1] != 45 {
        return None;
    }
    let (m1, month) = match digit_field(b, y1 + 1, hi, 1, 2) {
        Some(f) => f,
        None => return None,
    };
    if m1 == hi {
        return Some(DateFields { negative, year, month, day: 1, end: m1, complete: false });
    }
    if b[m1] != 45 {
        return None;
    }
    let (d1, day) = match digit_field(b, m1 + 1, hi, 1, 2) {
        Some(f) => f,
        None => return None,
    };
    Some(DateFields { negative, year, month, day, end: d1, complete: true })
}

/// Parses a date literal: `[+-]yyyy[yyy][-[m]m[-[d]d]]`, the full form optionally followed by
/// a space or a `T` and anything; surrounding whitespace and control characters are ignored.
/// The date must exist: a month from 1 to 12 and a day within it.
pub fn parse_date(s: &str) -> (result: Result<DateValue, LiteralError>)
    ensures
        result == spec_parse_date(s.spec_bytes()),
{
    let b = s.as_bytes();
    let lo = trimmed_start(b, 0, b.len());
    proof {
        lemma_trim_bounds(b@, 0, b@.len() as int);
    }
    let hi = trimmed_end(b, lo, b.len());
    proof {
        lemma_trim_end_bounds(b@, lo as int, b@.len() as int);
    }
    let date = match read_date(b, lo, hi) {
        Some(f) => f,
        None => return Err(LiteralError::Syntax),
    };
    if !(date.end == hi || (date.complete && (b[date.end] == 32 || b[date.end] == 84))) {
        return Err(LiteralError::Syntax);
    }
    if !valid_date(date.negative, date.year, date.month, date.day) {
        return Err(LiteralError::OutOfRange);
    }
    let year: i32 = if date.negative {
        -(date.year as i32)
    } else {
        date.year as i32
    };
    Ok(DateValue { year, month: date.month, day: date.day })
}

/// Trimming the start stays within bounds.
pub proof fn lemma_trim_bounds(b: Seq<u8>, i: int, hi: int)
    requires
        0 <= i <= hi,
    ensures
        i <= trim_start(b, i, hi) <= hi,
    decreases hi - i,
{
    if i < hi && is_trimmed(b[i]) {
        lemma_trim_bounds(b, i + 1, hi);
    }
}

/// Trimming the end stays within bounds.
pub proof fn lemma_trim_end_bounds(b: Seq<u8>, lo: int, hi: int)
    requires
        lo <= hi,
    ensures
        lo <= trim_end(b, lo, hi) <= hi,
    decreases hi - lo,
{
    if lo < hi && is_trimmed(b[hi - 1]) {
        lemma_trim_end_bounds(b, lo, hi - 1);
    }
}

} // verus!

verus! {

/// A time of day.
#[derive(Debug, Clone, Copy, PartialEq, Eq, Structural)]
pub struct TimeValue {
    pub hour: u32,
    pub minute: u32,
    pub second: u32,
    pub microsecond: u32,
}

/// The time of a literal that gives none.
pub open spec fn midnight() -> TimeValue {
    TimeValue { hour: 0, minute: 0, second: 0, microsecond: 0 }
}

/// The time read from `b[q..hi]`, and where it ends.
pub struct TimeSyntax {
    pub hour: nat,
    pub minute: nat,
    pub second: nat,
    pub microsecond: nat,
    pub end: int,
}

/// The microseconds a fraction of a second `b[f0..f1]` gives: its first six digits, padded
/// with zeros; further digits are dropped.
pub open spec fn fraction_micros(b: Seq<u8>, f0: int, f1: int) -> nat {
    let k = if f1 - f0 <= 6 { f1 - f0 } else { 6 };
    decimal(b, f0, f0 + k) * pow10((6 - k) as nat)
}

/// Reads a time at `q`: `[h]h:[m]m`, optionally followed by `:[s]s`, itself optionally followed
/// by `.` and one or more digits of the fraction of a second.
pub open spec fn time_syntax(b: Seq<u8>, q: int, hi: int) -> Option<TimeSyntax> {
    let h1 = run_end(b, q, hi);
    if !(1 <= h1 - q <= 2) || h1 >= hi || b[h1] != 58u8 {
        None
    } else {
        let m0 = h1 + 1;
        let m1 = run_end(b, m0, hi);
        if !(1 <= m1 - m0 <= 2) {
            None
        } else if m1 >= hi || b[m1] != 58u8 {
            Some(TimeSyntax { hour: decimal(b, q, h1), minute: decimal(b, m0, m1), second: 0, microsecond: 0, end: m1 })
        } else {
            let s0 = m1 + 1;
            let s1 = run_end(b, s0, hi);
            if !(1 <= s1 - s0 <= 2) {
                None
            } else if s1 >= hi || b[s1] != 46u8 {
                Some(
                    TimeSyntax {
                        hour: decimal(b, q, h1),
                        minute: decimal(b, m0, m1),
                        second: decimal(b, s0, s1),
                        microsecond: 0,
                        end: s1,
                    },
                )
            } else {
                let f0 = s1 + 1;
                let f1 = run_end(b, f0, hi);
                if f1 - f0 < 1 {
                    None
                } else {
                    Some(
                        TimeSyntax {
                            hour: decimal(b, q, h1),
                            minute: decimal(b, m0, m1),
                            second: decimal(b, s0, s1),
                            microsecond: fraction_micros(b, f0, f1),
                            end: f1,
                        },
                    )
                }
            }
        }
    }
}

/// The time zone of a timestamp literal, in the terms the contracts use: a named zone is the
/// part of the text between two positions.
pub enum ZoneSyntax {
    Absent,
    Utc,
    Offset { negative: bool, hours: nat, minutes: nat },
    Named { start: int, end: int },
}

/// An ASCII letter.
pub open spec fn is_letter(c: u8) -> bool {
    (65 <= c <= 90) || (97 <= c <= 122)
}

/// Reads the time zone that ends a timestamp literal, from `z0` to `hi`: nothing, or after an
/// optional space `Z` (UTC), a sign with `[h]h` and optionally `:[m]m` (an offset), or a name
/// that starts with a letter.
pub open spec fn zone_syntax(b: Seq<u8>, z0: int, hi: int) -> Option<ZoneSyntax> {
    if z0 >= hi {
        Some(ZoneSyntax::Absent)
    } else {
        let z = if b[z0] == 32u8 { z0 + 1 } else { z0 };
        if z >= hi {
            None
        } else if b[z] == 90u8 && z + 1 == hi {
            Some(ZoneSyntax::Utc)
        } else if b[z] == 43u8 || b[z] == 45u8 {
            let h0 = z + 1;
            let h1 = run_end(b, h0, hi);
            if !(1 <= h1 - h0 <= 2) {
                None
            } else if h1 == hi {
                Some(ZoneSyntax::Offset { negative: b[z] == 45u8, hours: decimal(b, h0, h1), minutes: 0 })
            } else if b[h1] != 58u8 {
                None
            } else {
                let m0 = h1 + 1;
                let m1 = run_end(b, m0, hi);
                if !(1 <= m1 - m0 <= 2) || m1 != hi {
                    None
                } else {
                    Some(
                        ZoneSyntax::Offset {
                            negative: b[z] == 45u8,
                            hours: decimal(b, h0, h1),
                            minutes: decimal(b, m0, m1),
                        },
                    )
                }
            }
        } else if is_letter(b[z]) {
            Some(ZoneSyntax::Named { start: z, end: hi })
        } else {
            None
        }
    }
}

/// A timestamp literal in the terms the contracts use.
pub struct TimestampSyntax {
    pub date: DateSyntax,
    pub time: Option<TimeSyntax>,
    pub zone: ZoneSyntax,
}

/// Reads a timestamp literal in `b[lo..hi]`: a date, and after a complete `y-m-d` optionally a
/// space or a `T`, then optionally a time and a time zone.
pub open spec fn timestamp_syntax(b: Seq<u8>, lo: int, hi: int) -> Option<TimestampSyntax> {
    match date_syntax(b, lo, hi) {
        None => None,
        Some(d) => if d.end == hi {
            Some(TimestampSyntax { date: d, time: None, zone: ZoneSyntax::Absent })
        } else if !(d.complete && (b[d.end] == 32u8 || b[d.end] == 84u8)) {
            None
        } else if d.end + 1 == hi {
            Some(TimestampSyntax { date: d, time: None, zone: ZoneSyntax::Absent })
        } else {
            match time_syntax(b, d.end + 1, hi) {
                None => None,
                Some(t) => match zone_syntax(b, t.end, hi) {
                    None => None,
                    Some(z) => Some(TimestampSyntax { date: d, time: Some(t), zone: z }),
                },
            }
        },
    }
}

} // verus!

verus! {

/// The time zone of a timestamp literal.
#[derive(Debug, Clone, Copy, PartialEq, Eq)]
pub enum TimeZoneValue<'a> {
    /// No time zone: the session's applies.
    Absent,
    /// `Z`.
    Utc,
    /// A fixed offset from UTC.
    Offset { negative: bool, hours: u32, minutes: u32 },
    /// A zone name, such as `America/Los_Angeles` or `UTC`, as written.
    Named(&'a str),
}

/// A timestamp: a date, a time of day and a time zone.
#[derive(Debug, Clone, Copy, PartialEq, Eq)]
pub struct TimestampValue<'a> {
    pub date: DateValue,
    pub time: TimeValue,
    pub time_zone: TimeZoneValue<'a>,
}

/// The signed year of a read date.
pub open spec fn signed_year(d: DateSyntax) -> int {
    if d.negative {
        -d.year
    } else {
        d.year as int
    }
}

/// Every field of a read timestamp is within its range: a day of the calendar, an hour below
/// 24, minutes and seconds below 60, and an offset of at most 18 hours and 59 minutes.
pub open spec fn timestamp_in_range(ts: TimestampSyntax) -> bool {
    &&& is_valid_date(signed_year(ts.date), ts.date.month as int, ts.date.day as int)
    &&& ts.time matches Some(t) ==> t.hour <= 23 && t.minute <= 59 && t.second <= 59
    &&& ts.zone matches ZoneSyntax::Offset { hours, minutes, .. } ==> hours <= 18 && minutes <= 59
}

/// The timestamp a timestamp literal denotes, in the terms of the contracts, or why it is
/// refused. Only ASCII text can be a timestamp.
pub open spec fn spec_parse_timestamp(s: &str) -> Result<TimestampSyntax, LiteralError> {
    let b = s.spec_bytes();
    let lo = trim_start(b, 0, b.len() as int);
    let hi = trim_end(b, lo, b.len() as int);
    if !vstd::string::is_ascii(s) {
        Err(LiteralError::Syntax)
    } else {
        match timestamp_syntax(b, lo, hi) {
            None => Err(LiteralError::Syntax),
            Some(ts) => if timestamp_in_range(ts) {
                Ok(ts)
            } else {
                Err(LiteralError::OutOfRange)
            },
        }
    }
}

/// A parsed timestamp holds what was read from the literal `s`.
pub open spec fn timestamp_matches(v: TimestampValue, ts: TimestampSyntax, s: &str) -> bool {
    &&& v.date == DateValue {
        year: signed_year(ts.date) as i32,
        month: ts.date.month as u32,
        day: ts.date.day as u32,
    }
    &&& v.time == match ts.time {
        Some(t) => TimeValue {
            hour: t.hour as u32,
            minute: t.minute as u32,
            second: t.second as u32,
            microsecond: t.microsecond as u32,
        },
        None => midnight(),
    }
    &&& match ts.zone {
        ZoneSyntax::Absent => v.time_zone == TimeZoneValue::Absent,
        ZoneSyntax::Utc => v.time_zone == TimeZoneValue::Utc,
        ZoneSyntax::Offset { negative, hours, minutes } => v.time_zone == TimeZoneValue::Offset {
            negative,
            hours: hours as u32,
            minutes: minutes as u32,
        },
        ZoneSyntax::Named { start, end } => v.time_zone matches TimeZoneValue::Named(name) && name@
            == s@.subrange(start, end),
    }
}

} // verus!

verus! {

/// A time, as read.
struct TimeFields {
    hour: u32,
    minute: u32,
    second: u32,
    microsecond: u32,
    end: usize,
}

/// The read time fields are those of the time syntax.
spec fn time_fields_match(f: TimeFields, t: TimeSyntax) -> bool {
    &&& f.hour == t.hour
    &&& f.minute == t.minute
    &&& f.second == t.second
    &&& f.microsecond == t.microsecond
    &&& f.end == t.end
}

/// A time zone, as read.
enum ZoneFields {
    Absent,
    Utc,
    Offset { negative: bool, hours: u32, minutes: u32 },
    Named { start: usize, end: usize },
}

/// The read zone is that of the zone syntax.
spec fn zone_fields_match(f: ZoneFields, z: ZoneSyntax) -> bool {
    match (f, z) {
        (ZoneFields::Absent, ZoneSyntax::Absent) => true,
        (ZoneFields::Utc, ZoneSyntax::Utc) => true,
        (
            ZoneFields::Offset { negative: n1, hours: h1, minutes: m1 },
            ZoneSyntax::Offset { negative: n2, hours: h2, minutes: m2 },
        ) => n1 == n2 && h1 == h2 && m1 == m2,
        (ZoneFields::Named { start: s1, end: e1 }, ZoneSyntax::Named { start: s2, end: e2 }) => s1
            == s2 && e1 == e2,
        _ => false,
    }
}

/// `value` followed by `6 - k` zeros.
pub(crate) fn pad_micros(value: u32, k: usize) -> (micros: u32)
    requires
        k <= 6,
        value < pow10(k as nat),
    ensures
        micros == value * pow10((6 - k) as nat),
        micros < 1_000_000,
{
    let mut micros = value;
    let mut i = k;
    assert(pow10(0) == 1);
    assert(value * pow10(0) == value);
    while i < 6
        invariant
            k <= i <= 6,
            micros == value * pow10((i - k) as nat),
            micros < pow10(i as nat),
        decreases 6 - i,
    {
        proof {
            lemma_pow10_monotone(i as nat, 6);
            reveal_with_fuel(pow10, 7);
            assert(pow10((i + 1 - k) as nat) == 10 * pow10((i - k) as nat));
            assert(pow10((i + 1) as nat) == 10 * pow10(i as nat));
            assert(value * pow10((i + 1 - k) as nat) == (value * pow10((i - k) as nat)) * 10) by (nonlinear_arith)
                requires
                    pow10((i + 1 - k) as nat) == 10 * pow10((i - k) as nat),
            ;
        }
        micros = micros * 10;
        i = i + 1;
    }
    proof {
        reveal_with_fuel(pow10, 7);
    }
    micros
}

/// Reads the time at `q`.
fn read_time(b: &[u8], q: usize, hi: usize) -> (time: Option<TimeFields>)
    requires
        q <= hi <= b@.len(),
    ensures
        match time {
            Some(f) => time_syntax(b@, q as int, hi as int) matches Some(t) && time_fields_match(
                f,
                t,
            ) && f.end <= hi,
            None => time_syntax(b@, q as int, hi as int) is None,
        },
{
    let (h1, hour) = match digit_field(b, q, hi, 1, 2) {
        Some(f) => f,
        None => return None,
    };
    if h1 >= hi || b[h1] != 58 {
        return None;
    }
    let (m1, minute) = match digit_field(b, h1 + 1, hi, 1, 2) {
        Some(f) => f,
        None => return None,
    };
    if m1 >= hi || b[m1] != 58 {
        return Some(TimeFields { hour, minute, second: 0, microsecond: 0, end: m1 });
    }
    let (s1, second) = match digit_field(b, m1 + 1, hi, 1, 2) {
        Some(f) => f,
        None => return None,
    };
    if s1 >= hi || b[s1] != 46 {
        return Some(TimeFields { hour, minute, second, microsecond: 0, end: s1 });
    }
    let f0 = s1 + 1;
    let f1 = digit_run_end(b, f0, hi);
    proof {
        lemma_run_end(b@, f0 as int, hi as int);
    }
    if f1 - f0 < 1 {
        return None;
    }
    let k = if f1 - f0 <= 6 {
        f1 - f0
    } else {
        6
    };
    let digits = decimal_value(b, f0, f0 + k);
    proof {
        lemma_decimal_bound(b@, f0 as int, (f0 + k) as int);
    }
    let microsecond = pad_micros(digits, k);
    Some(TimeFields { hour, minute, second, microsecond, end: f1 })
}

/// Reads the time zone from `z0` to `hi`.
fn read_zone(b: &[u8], z0: usize, hi: usize) -> (zone: Option<ZoneFields>)
    requires
        z0 <= hi <= b@.len(),
    ensures
        match zone {
            Some(f) => zone_syntax(b@, z0 as int, hi as int) matches Some(z) && zone_fields_match(
                f,
                z,
            ) && (f matches ZoneFields::Named { start, end } ==> start <= end <= hi),
            None => zone_syntax(b@, z0 as int, hi as int) is None,
        },
{
    if z0 >= hi {
        return Some(ZoneFields::Absent);
    }
    let z = if b[z0] == 32 {
        z0 + 1
    } else {
        z0
    };
    if z >= hi {
        return None;
    }
    if b[z] == 90 && z + 1 == hi {
        return Some(ZoneFields::Utc);
    }
    if b[z] == 43 || b[z] == 45 {
        let negative = b[z] == 45;
        let (h1, hours) = match digit_field(b, z + 1, hi, 1, 2) {
            Some(f) => f,
            None => return None,
        };
        if h1 == hi {
            return Some(ZoneFields::Offset { negative, hours, minutes: 0 });
        }
        if b[h1] != 58 {
            return None;
        }
        let (m1, minutes) = match digit_field(b, h1 + 1, hi, 1, 2) {
            Some(f) => f,
            None => return None,
        };
        if m1 != hi {
            return None;
        }
        return Some(ZoneFields::Offset { negative, hours, minutes });
    }
    if (65 <= b[z] && b[z] <= 90) || (97 <= b[z] && b[z] <= 122) {
        return Some(ZoneFields::Named { start: z, end: hi });
    }
    None
}

} // verus!

verus! {

/// Parses a timestamp literal: a date as `parse_date` reads it; after a complete `y-m-d`
/// optionally a space or a `T`, then optionally a time `[h]h:[m]m[:[s]s[.fraction]]` (the
/// fraction's first six digits give the microseconds, later ones are dropped) and a time zone:
/// after an optional space, `Z`, an offset `+[h]h[:[m]m]` or `-[h]h[:[m]m]`, or a zone name that
/// starts with a letter. Surrounding whitespace and control characters are ignored; the text
/// must be ASCII, the date must exist, the hour be below 24, minutes and seconds below 60, and
/// an offset at most 18 hours and 59 minutes.
pub fn parse_timestamp(s: &str) -> (result: Result<TimestampValue<'_>, LiteralError>)
    ensures
        match result {
            Ok(v) => spec_parse_timestamp(s) matches Ok(ts) && timestamp_matches(v, ts, s),
            Err(e) => spec_parse_timestamp(s) == Err::<TimestampSyntax, LiteralError>(e),
        },
{
    if !s.is_ascii() {
        return Err(LiteralError::Syntax);
    }
    let b = s.as_bytes();
    proof {
        vstd::string::is_ascii_spec_bytes(s);
    }
    let lo = trimmed_start(b, 0, b.len());
    proof {
        lemma_trim_bounds(b@, 0, b@.len() as int);
    }
    let hi = trimmed_end(b, lo, b.len());
    proof {
        lemma_trim_end_bounds(b@, lo as int, b@.len() as int);
    }
    let date = match read_date(b, lo, hi) {
        Some(f) => f,
        None => return Err(LiteralError::Syntax),
    };
    let mut time = TimeFields { hour: 0, minute: 0, second: 0, microsecond: 0, end: date.end };
    let mut has_time = false;
    let mut zone = ZoneFields::Absent;
    if date.end != hi {
        if !(date.complete && (b[date.end] == 32 || b[date.end] == 84)) {
            return Err(LiteralError::Syntax);
        }
        if date.end + 1 != hi {
            time = match read_time(b, date.end + 1, hi) {
                Some(t) => t,
                None => return Err(LiteralError::Syntax),
            };
            has_time = true;
            zone = match read_zone(b, time.end, hi) {
                Some(z) => z,
                None => return Err(LiteralError::Syntax),
            };
        }
    }
    if !valid_date(date.negative, date.year, date.month, date.day) {
        return Err(LiteralError::OutOfRange);
    }
    if has_time && (time.hour > 23 || time.minute > 59 || time.second > 59) {
        return Err(LiteralError::OutOfRange);
    }
    let time_zone = match zone {
        ZoneFields::Absent => TimeZoneValue::Absent,
        ZoneFields::Utc => TimeZoneValue::Utc,
        ZoneFields::Offset { negative, hours, minutes } => {
            if hours > 18 || minutes > 59 {
                return Err(LiteralError::OutOfRange);
            }
            TimeZoneValue::Offset { negative, hours, minutes }
        },
        ZoneFields::Named { start, end } => TimeZoneValue::Named(s.substring_ascii(start, end)),
    };
    let year: i32 = if date.negative {
        -(date.year as i32)
    } else {
        date.year as i32
    };
    Ok(
        TimestampValue {
            date: DateValue { year, month: date.month, day: date.day },
            time: TimeValue {
                hour: time.hour,
                minute: time.minute,
                second: time.second,
                microsecond: time.microsecond,
            },
            time_zone,
        },
    )
}

} // verus!

verus! {

/// The date part of every timestamp literal is read as the date literal parser reads it: a
/// timestamp is accepted only where the same text is accepted as a date, with the same date.
pub proof fn law_timestamp_date_is_date_literal(s: &str)
    requires
        spec_parse_timestamp(s) is Ok,
    ensures
        spec_parse_date(s.spec_bytes()) == Ok::<DateValue, LiteralError>(
            DateValue {
                year: signed_year(spec_parse_timestamp(s)->Ok_0.date) as i32,
                month: spec_parse_timestamp(s)->Ok_0.date.month as u32,
                day: spec_parse_timestamp(s)->Ok_0.date.day as u32,
            },
        ),
{
}

/// The ASCII digit of `v` (0 to 9).
pub open spec fn digit_byte(v: nat) -> u8 {
    (48 + v) as u8
}

/// A date written `yyyy-mm-dd`, with leading zeros.
pub open spec fn render_date(y: nat, m: nat, d: nat) -> Seq<u8> {
    seq![
        digit_byte(y / 1000),
        digit_byte((y / 100) % 10),
        digit_byte((y / 10) % 10),
        digit_byte(y % 10),
        45u8,
        digit_byte(m / 10),
        digit_byte(m % 10),
        45u8,
        digit_byte(d / 10),
        digit_byte(d % 10),
    ]
}

/// A date of years 0 to 9999 written `yyyy-mm-dd` is read back as itself.
pub proof fn law_parse_date_reads_rendered_date(y: nat, m: nat, d: nat)
    requires
        y <= 9999,
        is_valid_date(y as int, m as int, d as int),
    ensures
        spec_parse_date(render_date(y, m, d)) == Ok::<DateValue, LiteralError>(
            DateValue { year: y as i32, month: m as u32, day: d as u32 },
        ),
{
    let b = render_date(y, m, d);
    assert(b.len() == 10);
    reveal_with_fuel(trim_start, 2);
    reveal_with_fuel(trim_end, 2);
    assert(trim_start(b, 0, 10) == 0);
    assert(trim_end(b, 0, 10) == 10);
    reveal_with_fuel(run_end, 6);
    assert(run_end(b, 0, 10) == 4);
    assert(run_end(b, 5, 10) == 7);
    assert(run_end(b, 8, 10) == 10);
    reveal_with_fuel(decimal, 5);
    assert(decimal(b, 0, 4) == y);
    assert(decimal(b, 5, 7) == m);
    assert(decimal(b, 8, 10) == d);
}


/// The length of month `m` by the knuckle rule: from January to July the odd months have 31
/// days and the even ones 30, from August to December the even months have 31 and the odd ones
/// 30; February has 28 days, 29 in a leap year.
pub open spec fn knuckle_days(y: int, m: int) -> int {
    if m == 2 {
        if is_leap_year(y) {
            29
        } else {
            28
        }
    } else if m <= 7 {
        if m % 2 == 1 {
            31
        } else {
            30
        }
    } else if m % 2 == 0 {
        31
    } else {
        30
    }
}

/// The month lengths are the Gregorian ones: each follows the knuckle rule, and the months of
/// a year add up to 365 days, 366 in a leap year.
pub proof fn law_month_lengths(y: int, m: int)
    requires
        1 <= m <= 12,
    ensures
        days_in_month(y, m) == knuckle_days(y, m),
        days_in_month(y, 1) + days_in_month(y, 2) + days_in_month(y, 3) + days_in_month(y, 4)
            + days_in_month(y, 5) + days_in_month(y, 6) + days_in_month(y, 7) + days_in_month(y, 8)
            + days_in_month(y, 9) + days_in_month(y, 10) + days_in_month(y, 11) + days_in_month(
            y,
            12,
        ) == if is_leap_year(y) {
            366int
        } else {
            365int
        },
{
}

/// A parsed date is a day of the calendar: its month is from 1 to 12 and its day from 1 to the
/// month's length by the knuckle rule (30 days in April, June, September and November).
pub proof fn law_parsed_date_is_calendar_day(b: Seq<u8>)
    ensures
        spec_parse_date(b) matches Ok(d) ==> 1 <= d.month <= 12 && 1 <= d.day <= knuckle_days(
            d.year as int,
            d.month as int,
        ),
{
    let lo = trim_start(b, 0, b.len() as int);
    lemma_trim_bounds(b, 0, b.len() as int);
    let hi = trim_end(b, lo, b.len() as int);
    lemma_trim_end_bounds(b, lo, b.len() as int);
    lemma_date_year_bound(b, lo, hi);
    if spec_parse_date(b) is Ok {
        let d = spec_parse_date(b)->Ok_0;
        law_month_lengths(d.year as int, d.month as int);
    }
}

/// A date's year has at most seven digits.
pub proof fn lemma_date_year_bound(b: Seq<u8>, lo: int, hi: int)
    requires
        0 <= lo <= hi <= b.len(),
    ensures
        date_syntax(b, lo, hi) matches Some(ds) ==> ds.year < 10_000_000,
{
    let signed = lo < hi && (b[lo] == 45u8 || b[lo] == 43u8);
    let y0 = if signed {
        lo + 1
    } else {
        lo
    };
    let y1 = run_end(b, y0, hi);
    lemma_run_end(b, y0, hi);
    if 4 <= y1 - y0 <= 7 {
        lemma_decimal_bound(b, y0, y1);
        lemma_pow10_monotone((y1 - y0) as nat, 7);
        lemma_pow10_values();
    }
}

/// An offset time zone is west of UTC exactly when its sign is `-`: a zone read as an offset
/// is negative if and only if a `-` occurs in its text.
pub proof fn law_offset_sign(b: Seq<u8>, z0: int, hi: int)
    requires
        0 <= z0,
        hi <= b.len(),
    ensures
        zone_syntax(b, z0, hi) matches Some(ZoneSyntax::Offset { negative, .. }) ==> (negative <==> exists|k: int| z0 <= k < hi && b[k] == 45u8),
{
    if z0 < hi {
        let z = if b[z0] == 32u8 {
            z0 + 1
        } else {
            z0
        };
        if z < hi && (b[z] == 43u8 || b[z] == 45u8) {
            let h0 = z + 1;
            let h1 = run_end(b, h0, hi);
            lemma_run_end(b, h0, hi);
            let m0 = h1 + 1;
            let m1 = run_end(b, m0, hi);
            lemma_run_end(b, m0, hi);
            if b[z] == 45u8 {
                assert(b[z] == 45u8);
            } else if zone_syntax(b, z0, hi) matches Some(ZoneSyntax::Offset { .. }) {
                assert forall|k: int| z0 <= k < hi implies b[k] != 45u8 by {
                    if k > z && k < h1 {
                        assert(is_digit(b[k]));
                    } else if k > h1 && k < m1 {
                        assert(is_digit(b[k]));
                    }
                }
            }
        }
    }
}
} // verus!
