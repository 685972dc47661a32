//! Unqualified interval strings, read the way Spark reads them (`IntervalUtils.stringToInterval`):
//! an optional `interval` prefix, then one or more terms `[+|-] number unit`. The number is a run
//! of digits, optionally followed by `.` and at most nine digits of a fraction, which only
//! seconds may have; the unit is one of year, month, week, day, hour, minute, second,
//! millisecond and microsecond, optionally plural. Letters are compared without regard to case,
//! terms are separated by whitespace, and surrounding whitespace and control characters are
//! ignored. The terms add up, with exact arithmetic, into months, days and microseconds.
use vstd::prelude::*;
use vstd::string::StringSliceAdditionalSpecFns;

use crate::datetime::{
    decimal, fraction_micros, is_digit, lemma_decimal_bound, lemma_run_end, lemma_trim_bounds,
    lemma_trim_end_bounds, run_end, trim_end, trim_start,
};
use crate::interval_scale::{fits_i32, fits_i64};

verus! {

/// An interval: months, days and microseconds, each counted separately.
#[derive(Debug, Clone, Copy, PartialEq, Eq, Structural)]
pub struct IntervalValue {
    pub months: i32,
    pub days: i32,
    pub microseconds: i64,
}

/// Why an interval string is refused.
#[derive(Debug, Clone, Copy, PartialEq, Eq, Structural)]
pub enum IntervalError {
    /// The string is empty, or only the `interval` prefix.
    Empty,
    /// The string does not have the form of an interval.
    Syntax,
    /// A number, or a sum of months, days or microseconds, does not fit its integer.
    Overflow,
    /// A number with a fraction is given a unit other than seconds.
    FractionalUnit,
    /// A fraction has more than nine digits, beyond nanoseconds.
    Precision,
}

/// The units a term can be counted in.
#[derive(Debug, Clone, Copy, PartialEq, Eq, Structural)]
pub enum IntervalUnit {
    Year,
    Month,
    Week,
    Day,
    Hour,
    Minute,
    Second,
    Millisecond,
    Microsecond,
}

/// A byte that separates the parts of an interval string: an ASCII whitespace character.
pub open spec fn is_space(c: u8) -> bool {
    c == 32 || (9 <= c <= 13) || (28 <= c <= 31)
}

/// A byte with ASCII upper-case letters turned to lower case.
pub open spec fn ascii_lower(c: u8) -> u8 {
    if 65 <= c <= 90 {
        (c + 32) as u8
    } else {
        c
    }
}

/// The first position at or after `i`, before `hi`, that is not whitespace (`hi` if none).
pub open spec fn space_end(b: Seq<u8>, i: int, hi: int) -> int
    decreases hi - i,
{
    if 0 <= i < hi && is_space(b[i]) {
        space_end(b, i + 1, hi)
    } else {
        i
    }
}

/// Whether the word `w` (lower case) starts at `i`, within `hi`, regardless of case.
pub open spec fn word_at(b: Seq<u8>, i: int, hi: int, w: Seq<u8>) -> bool {
    &&& 0 <= i
    &&& i + w.len() <= hi
    &&& forall|k: int| 0 <= k < w.len() ==> ascii_lower(#[trigger] b[i + k]) == w[k]
}

/// The word `interval`.
pub open spec fn interval_word() -> Seq<u8> {
    seq![105u8, 110u8, 116u8, 101u8, 114u8, 118u8, 97u8, 108u8]
}

/// The word that names a unit, in its singular form.
pub open spec fn unit_word(unit: IntervalUnit) -> Seq<u8> {
    match unit {
        IntervalUnit::Year => seq![121u8, 101u8, 97u8, 114u8],
        IntervalUnit::Month => seq![109u8, 111u8, 110u8, 116u8, 104u8],
        IntervalUnit::Week => seq![119u8, 101u8, 101u8, 107u8],
        IntervalUnit::Day => seq![100u8, 97u8, 121u8],
        IntervalUnit::Hour => seq![104u8, 111u8, 117u8, 114u8],
        IntervalUnit::Minute => seq![109u8, 105u8, 110u8, 117u8, 116u8, 101u8],
        IntervalUnit::Second => seq![115u8, 101u8, 99u8, 111u8, 110u8, 100u8],
        IntervalUnit::Millisecond => seq![
            109u8,
            105u8,
            108u8,
            108u8,
            105u8,
            115u8,
            101u8,
            99u8,
            111u8,
            110u8,
            100u8,
        ],
        IntervalUnit::Microsecond => seq![
            109u8,
            105u8,
            99u8,
            114u8,
            111u8,
            115u8,
            101u8,
            99u8,
            111u8,
            110u8,
            100u8,
        ],
    }
}

/// The unit named at `i`, if one is.
pub open spec fn unit_at(b: Seq<u8>, i: int, hi: int) -> Option<IntervalUnit> {
    if word_at(b, i, hi, unit_word(IntervalUnit::Year)) {
        Some(IntervalUnit::Year)
    } else if word_at(b, i, hi, unit_word(IntervalUnit::Month)) {
        Some(IntervalUnit::Month)
    } else if word_at(b, i, hi, unit_word(IntervalUnit::Week)) {
        Some(IntervalUnit::Week)
    } else if word_at(b, i, hi, unit_word(IntervalUnit::Day)) {
        Some(IntervalUnit::Day)
    } else if word_at(b, i, hi, unit_word(IntervalUnit::Hour)) {
        Some(IntervalUnit::Hour)
    } else if word_at(b, i, hi, unit_word(IntervalUnit::Minute)) {
        Some(IntervalUnit::Minute)
    } else if word_at(b, i, hi, unit_word(IntervalUnit::Second)) {
        Some(IntervalUnit::Second)
    } else if word_at(b, i, hi, unit_word(IntervalUnit::Millisecond)) {
        Some(IntervalUnit::Millisecond)
    } else if word_at(b, i, hi, unit_word(IntervalUnit::Microsecond)) {
        Some(IntervalUnit::Microsecond)
    } else {
        None
    }
}

/// A term, read up to the end of its unit's name: the sign, the magnitude of the number, the
/// microseconds of its fraction if it has one, and the unit.
pub struct TermHead {
    pub negative: bool,
    pub value: nat,
    pub fraction: Option<nat>,
    pub unit: IntervalUnit,
    pub end: int,
}

/// The unit of a term whose number ends at `t`.
pub open spec fn unit_head(
    b: Seq<u8>,
    t: int,
    hi: int,
    negative: bool,
    value: nat,
    fraction: Option<nat>,
) -> Result<TermHead, IntervalError> {
    let u0 = space_end(b, t, hi);
    if u0 >= hi {
        Err(IntervalError::Syntax)
    } else if fraction is Some && ascii_lower(b[u0]) != 115u8 {
        Err(IntervalError::FractionalUnit)
    } else {
        match unit_at(b, u0, hi) {
            None => Err(IntervalError::Syntax),
            Some(unit) => Ok(
                TermHead { negative, value, fraction, unit, end: u0 + unit_word(unit).len() },
            ),
        }
    }
}

/// Reads the term at `i` up to the end of its unit's name: a sign or a digit, optional
/// whitespace, the digits (whose value must fit an `i64`), optionally `.` and at most nine
/// digits, whitespace, and the unit.
pub open spec fn term_head(b: Seq<u8>, i: int, hi: int) -> Result<TermHead, IntervalError> {
    let c = b[i];
    if !(c == 45u8 || c == 43u8 || is_digit(c)) {
        Err(IntervalError::Syntax)
    } else {
        let negative = c == 45u8;
        let j = if is_digit(c) {
            i
        } else {
            i + 1
        };
        let v0 = space_end(b, j, hi);
        let v1 = run_end(b, v0, hi);
        if v0 >= hi {
            Err(IntervalError::Syntax)
        } else if decimal(b, v0, v1) > i64::MAX {
            Err(IntervalError::Overflow)
        } else if v1 >= hi {
            Err(IntervalError::Syntax)
        } else if b[v1] == 46u8 {
            let f0 = v1 + 1;
            let f1 = run_end(b, f0, hi);
            if f1 - f0 > 9 {
                Err(IntervalError::Precision)
            } else if f1 >= hi || !is_space(b[f1]) {
                Err(IntervalError::Syntax)
            } else {
                unit_head(b, f1, hi, negative, decimal(b, v0, v1), Some(fraction_micros(b, f0, f1)))
            }
        } else if is_space(b[v1]) {
            unit_head(b, v1, hi, negative, decimal(b, v0, v1), None)
        } else {
            Err(IntervalError::Syntax)
        }
    }
}

/// The number of a term, with its sign.
pub open spec fn signed_value(h: TermHead) -> int {
    if h.negative {
        -h.value
    } else {
        h.value as int
    }
}

/// The microseconds of a term's fraction, with its sign; zero without a fraction.
pub open spec fn signed_fraction(h: TermHead) -> int {
    match h.fraction {
        Some(f) => if h.negative {
            -f
        } else {
            f as int
        },
        None => 0,
    }
}

/// The months of an interval with `months` added, or `None` when they overflow.
pub open spec fn add_months(acc: IntervalValue, months: int) -> Option<IntervalValue> {
    if fits_i32(acc.months + months) {
        Some(IntervalValue { months: (acc.months + months) as i32, days: acc.days, microseconds: acc.microseconds })
    } else {
        None
    }
}

/// The days of an interval with `days` added, or `None` when they overflow.
pub open spec fn add_days(acc: IntervalValue, days: int) -> Option<IntervalValue> {
    if fits_i32(acc.days + days) {
        Some(IntervalValue { months: acc.months, days: (acc.days + days) as i32, microseconds: acc.microseconds })
    } else {
        None
    }
}

/// The microseconds of an interval with `micros` added, or `None` when they overflow.
pub open spec fn add_micros(acc: IntervalValue, micros: int) -> Option<IntervalValue> {
    if fits_i64(acc.microseconds + micros) {
        Some(IntervalValue { months: acc.months, days: acc.days, microseconds: (acc.microseconds + micros) as i64 })
    } else {
        None
    }
}

/// The interval with `v` of `unit` added, and for seconds the fraction's `frac` microseconds,
/// the way Spark's exact arithmetic does it: a count of months or days given directly must
/// itself fit an `i32`, and a product of microseconds must itself fit an `i64`; `None` on
/// overflow.
pub open spec fn apply_unit(acc: IntervalValue, unit: IntervalUnit, v: int, frac: int) -> Option<
    IntervalValue,
> {
    match unit {
        IntervalUnit::Year => add_months(acc, 12 * v),
        IntervalUnit::Month => if fits_i32(v) {
            add_months(acc, v)
        } else {
            None
        },
        IntervalUnit::Week => add_days(acc, 7 * v),
        IntervalUnit::Day => if fits_i32(v) {
            add_days(acc, v)
        } else {
            None
        },
        IntervalUnit::Hour => if fits_i64(v * 3_600_000_000) {
            add_micros(acc, v * 3_600_000_000)
        } else {
            None
        },
        IntervalUnit::Minute => if fits_i64(v * 60_000_000) {
            add_micros(acc, v * 60_000_000)
        } else {
            None
        },
        IntervalUnit::Second => if fits_i64(v * 1_000_000) && fits_i64(
            acc.microseconds + v * 1_000_000,
        ) {
            add_micros(acc, v * 1_000_000 + frac)
        } else {
            None
        },
        IntervalUnit::Millisecond => if fits_i64(v * 1000) {
            add_micros(acc, v * 1000)
        } else {
            None
        },
        IntervalUnit::Microsecond => add_micros(acc, v),
    }
}

/// Where the next term may start after a unit's name ending at `e`: the end, or after an
/// optional `s` and one whitespace; `None` when something else follows.
pub open spec fn suffix_next(b: Seq<u8>, e: int, hi: int) -> Option<int> {
    if e >= hi {
        Some(hi)
    } else if ascii_lower(b[e]) == 115u8 {
        if e + 1 >= hi {
            Some(hi)
        } else if is_space(b[e + 1]) {
            Some(e + 2)
        } else {
            None
        }
    } else if is_space(b[e]) {
        Some(e + 1)
    } else {
        None
    }
}

/// Skipping whitespace never moves back.
pub proof fn lemma_space_end(b: Seq<u8>, i: int, hi: int)
    requires
        0 <= i,
    ensures
        i <= space_end(b, i, hi),
        i <= hi ==> space_end(b, i, hi) <= hi,
        space_end(b, i, hi) < hi ==> !is_space(b[space_end(b, i, hi)]),
        forall|k: int| i <= k < space_end(b, i, hi) ==> is_space(#[trigger] b[k]),
    decreases hi - i,
{
    if 0 <= i < hi && is_space(b[i]) {
        lemma_space_end(b, i + 1, hi);
    }
}

/// A run of digits never ends before it starts.
pub proof fn lemma_digits_advance(b: Seq<u8>, i: int, hi: int)
    requires
        0 <= i,
    ensures
        i <= run_end(b, i, hi),
    decreases hi - i,
{
    if i < hi && is_digit(b[i]) {
        lemma_digits_advance(b, i + 1, hi);
    }
}

/// A term read at `i` ends after `i`.
pub proof fn lemma_term_advances(b: Seq<u8>, i: int, hi: int)
    requires
        0 <= i < hi,
    ensures
        term_head(b, i, hi) matches Ok(h) ==> h.end > i,
{
    let c = b[i];
    let j = if is_digit(c) {
        i
    } else {
        i + 1
    };
    let v0 = space_end(b, j, hi);
    lemma_space_end(b, j, hi);
    let v1 = run_end(b, v0, hi);
    lemma_digits_advance(b, v0, hi);
    lemma_space_end(b, v1, hi);
    let f1 = run_end(b, v1 + 1, hi);
    lemma_digits_advance(b, v1 + 1, hi);
    lemma_space_end(b, f1, hi);
}

/// The interval the terms from `i` to `hi` add to `acc`, or the first error met.
pub open spec fn intervals_from(b: Seq<u8>, i: int, hi: int, acc: IntervalValue) -> Result<
    IntervalValue,
    IntervalError,
>
    decreases hi - i,
{
    if i < 0 || i >= hi {
        Ok(acc)
    } else if is_space(b[i]) {
        intervals_from(b, i + 1, hi, acc)
    } else {
        match term_head(b, i, hi) {
            Err(e) => Err(e),
            Ok(h) => match apply_unit(acc, h.unit, signed_value(h), signed_fraction(h)) {
                None => Err(IntervalError::Overflow),
                Some(next_acc) => match suffix_next(b, h.end, hi) {
                    None => Err(IntervalError::Syntax),
                    Some(next) => {
                        proof {
                            lemma_term_advances(b, i, hi);
                        }
                        intervals_from(b, next, hi, next_acc)
                    },
                },
            },
        }
    }
}

/// The zero interval.
pub open spec fn zero_interval() -> IntervalValue {
    IntervalValue { months: 0, days: 0, microseconds: 0 }
}

/// The interval an interval string denotes, or why it is refused.
pub open spec fn spec_parse_interval(b: Seq<u8>) -> Result<IntervalValue, IntervalError> {
    let lo = trim_start(b, 0, b.len() as int);
    let hi = trim_end(b, lo, b.len() as int);
    if lo >= hi {
        Err(IntervalError::Empty)
    } else if word_at(b, lo, hi, interval_word()) {
        if lo + 8 == hi {
            Err(IntervalError::Empty)
        } else if !is_space(b[lo + 8]) {
            Err(IntervalError::Syntax)
        } else {
            intervals_from(b, lo + 9, hi, zero_interval())
        }
    } else {
        intervals_from(b, lo, hi, zero_interval())
    }
}

} // verus!

verus! {

/// Whether `c` is whitespace.
fn space_byte(c: u8) -> (space: bool)
    ensures
        space == is_space(c),
{
    c == 32 || (9 <= c && c <= 13) || (28 <= c && c <= 31)
}

/// `c` with an upper-case ASCII letter turned to lower case.
fn lower_byte(c: u8) -> (lower: u8)
    ensures
        lower == ascii_lower(c),
{
    if 65 <= c && c <= 90 {
        c + 32
    } else {
        c
    }
}

/// The first position at or after `i`, before `hi`, that is not whitespace.
fn spaces_end(b: &[u8], i: usize, hi: usize) -> (end: usize)
    requires
        hi <= b@.len(),
    ensures
        end == space_end(b@, i as int, hi as int),
{
    let mut j = i;
    while j < hi && space_byte(b[j])
        invariant
            hi <= b@.len(),
            i <= j,
            space_end(b@, i as int, hi as int) == space_end(b@, j as int, hi as int),
        decreases hi - j,
    {
        j = j + 1;
    }
    j
}

/// Whether the word `w` starts at `i`, within `hi`, regardless of case.
fn word_matches(b: &[u8], i: usize, hi: usize, w: &[u8]) -> (found: bool)
    requires
        hi <= b@.len(),
    ensures
        found == word_at(b@, i as int, hi as int, w@),
{
    if w.len() > hi || i > hi - w.len() {
        return false;
    }
    let mut k: usize = 0;
    while k < w.len()
        invariant
            i + w@.len() <= hi <= b@.len(),
            k <= w@.len(),
            forall|m: int| 0 <= m < k ==> ascii_lower(#[trigger] b@[i + m]) == w@[m],
        decreases w@.len() - k,
    {
        if lower_byte(b[i + k]) != w[k] {
            return false;
        }
        k = k + 1;
    }
    true
}


/// The name of a unit, in its singular form.
fn unit_word_bytes(unit: IntervalUnit) -> (w: Vec<u8>)
    ensures
        w@ == unit_word(unit),
{
    let w = match unit {
        IntervalUnit::Year => vec![121u8, 101, 97, 114],
        IntervalUnit::Month => vec![109u8, 111, 110, 116, 104],
        IntervalUnit::Week => vec![119u8, 101, 101, 107],
        IntervalUnit::Day => vec![100u8, 97, 121],
        IntervalUnit::Hour => vec![104u8, 111, 117, 114],
        IntervalUnit::Minute => vec![109u8, 105, 110, 117, 116, 101],
        IntervalUnit::Second => vec![115u8, 101, 99, 111, 110, 100],
        IntervalUnit::Millisecond => vec![109u8, 105, 108, 108, 105, 115, 101, 99, 111, 110, 100],
        IntervalUnit::Microsecond => vec![109u8, 105, 99, 114, 111, 115, 101, 99, 111, 110, 100],
    };
    assert(w@ =~= unit_word(unit));
    w
}

/// The unit named at `i`, if one is.
fn read_unit(b: &[u8], i: usize, hi: usize) -> (unit: Option<IntervalUnit>)
    requires
        hi <= b@.len(),
    ensures
        unit == unit_at(b@, i as int, hi as int),
{
    let units = [
        IntervalUnit::Year,
        IntervalUnit::Month,
        IntervalUnit::Week,
        IntervalUnit::Day,
        IntervalUnit::Hour,
        IntervalUnit::Minute,
        IntervalUnit::Second,
        IntervalUnit::Millisecond,
        IntervalUnit::Microsecond,
    ];
    let mut k: usize = 0;
    while k < 9
        invariant
            hi <= b@.len(),
            k <= 9,
            units@ == seq![
                IntervalUnit::Year,
                IntervalUnit::Month,
                IntervalUnit::Week,
                IntervalUnit::Day,
                IntervalUnit::Hour,
                IntervalUnit::Minute,
                IntervalUnit::Second,
                IntervalUnit::Millisecond,
                IntervalUnit::Microsecond,
            ],
            forall|m: int|
                0 <= m < k ==> !word_at(b@, i as int, hi as int, unit_word(#[trigger] units@[m])),
        decreases 9 - k,
    {
        let unit = units[k];
        let w = unit_word_bytes(unit);
        if word_matches(b, i, hi, w.as_slice()) {
            return Some(unit);
        }
        k = k + 1;
    }
    None
}


/// A longer run of digits is worth at least as much as its prefix.
pub proof fn lemma_decimal_monotone(b: Seq<u8>, lo: int, m: int, n: int)
    requires
        lo <= m <= n,
    ensures
        decimal(b, lo, m) <= decimal(b, lo, n),
    decreases n - m,
{
    if m < n {
        lemma_decimal_monotone(b, lo, m, n - 1);
    }
}

/// Reads the digits at `v0`: where they end and their value, or `None` when the value does
/// not fit an `i64`.
fn read_number(b: &[u8], v0: usize, hi: usize) -> (number: Option<(usize, i64)>)
    requires
        v0 <= hi <= b@.len(),
    ensures
        match number {
            Some((v1, value)) => v1 == run_end(b@, v0 as int, hi as int) && v1 <= hi && value
                == decimal(b@, v0 as int, v1 as int) && value >= 0,
            None => decimal(b@, v0 as int, run_end(b@, v0 as int, hi as int)) > i64::MAX,
        },
{
    proof {
        lemma_run_end(b@, v0 as int, hi as int);
    }
    let mut j = v0;
    let mut value: i64 = 0;
    while j < hi && 48 <= b[j] && b[j] <= 57
        invariant
            v0 <= j <= hi <= b@.len(),
            run_end(b@, v0 as int, hi as int) == run_end(b@, j as int, hi as int),
            v0 <= run_end(b@, v0 as int, hi as int) <= hi,
            value == decimal(b@, v0 as int, j as int),
            value >= 0,
        decreases hi - j,
    {
        let digit = (b[j] - 48) as i64;
        let next = match value.checked_mul(10) {
            Some(tens) => tens.checked_add(digit),
            None => None,
        };
        match next {
            Some(n) => {
                value = n;
            },
            None => {
                proof {
                    lemma_run_end(b@, j as int, hi as int);
                    lemma_decimal_monotone(
                        b@,
                        v0 as int,
                        j + 1,
                        run_end(b@, v0 as int, hi as int),
                    );
                }
                return None;
            },
        }
        j = j + 1;
    }
    Some((j, value))
}

/// The fraction of a term as the spec sees it.
pub open spec fn fraction_spec(fraction: Option<u32>) -> Option<nat> {
    match fraction {
        Some(f) => Some(f as nat),
        None => None,
    }
}

/// A term as read, up to the end of its unit's name.
struct TermFields {
    negative: bool,
    value: i64,
    fraction: Option<u32>,
    unit: IntervalUnit,
    end: usize,
}

/// The read term is the term of the syntax.
spec fn term_fields_match(f: TermFields, h: TermHead) -> bool {
    &&& f.negative == h.negative
    &&& f.value == h.value
    &&& fraction_spec(f.fraction) == h.fraction
    &&& f.unit == h.unit
    &&& f.end == h.end
}

/// Reads the unit of a term whose number ends at `t`.
fn read_unit_head(
    b: &[u8],
    t: usize,
    hi: usize,
    negative: bool,
    value: i64,
    fraction: Option<u32>,
) -> (head: Result<TermFields, IntervalError>)
    requires
        t <= hi <= b@.len(),
        value >= 0,
    ensures
        match head {
            Ok(f) => unit_head(
                b@,
                t as int,
                hi as int,
                negative,
                value as nat,
                fraction_spec(fraction),
            ) matches Ok(h) && term_fields_match(f, h) && f.end <= hi,
            Err(e) => unit_head(b@, t as int, hi as int, negative, value as nat, fraction_spec(fraction))
                == Err::<TermHead, IntervalError>(e),
        },
{
    let u0 = spaces_end(b, t, hi);
    proof {
        lemma_space_end(b@, t as int, hi as int);
    }
    if u0 >= hi {
        return Err(IntervalError::Syntax);
    }
    if fraction.is_some() && lower_byte(b[u0]) != 115 {
        return Err(IntervalError::FractionalUnit);
    }
    match read_unit(b, u0, hi) {
        None => Err(IntervalError::Syntax),
        Some(unit) => {
            let w = unit_word_bytes(unit);
            Ok(TermFields { negative, value, fraction, unit, end: u0 + w.len() })
        },
    }
}

/// Reads the term at `i` up to the end of its unit's name.
fn read_term_head(b: &[u8], i: usize, hi: usize) -> (head: Result<TermFields, IntervalError>)
    requires
        i < hi <= b@.len(),
    ensures
        match head {
            Ok(f) => term_head(b@, i as int, hi as int) matches Ok(h) && term_fields_match(f, h)
                && f.end <= hi && f.value >= 0 && (f.fraction matches Some(x) ==> x < 1_000_000),
            Err(e) => term_head(b@, i as int, hi as int) == Err::<TermHead, IntervalError>(e),
        },
{
    let c = b[i];
    let digit = 48 <= c && c <= 57;
    if !(c == 45 || c == 43 || digit) {
        return Err(IntervalError::Syntax);
    }
    let negative = c == 45;
    let j = if digit {
        i
    } else {
        i + 1
    };
    let v0 = spaces_end(b, j, hi);
    proof {
        lemma_space_end(b@, j as int, hi as int);
    }
    if v0 >= hi {
        return Err(IntervalError::Syntax);
    }
    let (v1, value) = match read_number(b, v0, hi) {
        Some(number) => number,
        None => return Err(IntervalError::Overflow),
    };
    if v1 >= hi {
        return Err(IntervalError::Syntax);
    }
    if b[v1] == 46 {
        let f0 = v1 + 1;
        let f1 = crate::datetime::digit_run_end(b, f0, hi);
        proof {
            lemma_run_end(b@, f0 as int, hi as int);
        }
        if f1 - f0 > 9 {
            return Err(IntervalError::Precision);
        }
        if f1 >= hi || !space_byte(b[f1]) {
            return Err(IntervalError::Syntax);
        }
        let k = if f1 - f0 <= 6 {
            f1 - f0
        } else {
            6
        };
        let digits = crate::datetime::decimal_value(b, f0, f0 + k);
        proof {
            lemma_decimal_bound(b@, f0 as int, (f0 + k) as int);
        }
        let micros = crate::datetime::pad_micros(digits, k);
        read_unit_head(b, f1, hi, negative, value, Some(micros))
    } else if space_byte(b[v1]) {
        read_unit_head(b, v1, hi, negative, value, None)
    } else {
        Err(IntervalError::Syntax)
    }
}


/// The interval with `delta` months added, or `None` on overflow.
fn months_plus(acc: IntervalValue, delta: i128) -> (next: Option<IntervalValue>)
    requires
        -0x1_0000_0000_0000_0000_0000_0000 <= delta <= 0x1_0000_0000_0000_0000_0000_0000,
    ensures
        next == add_months(acc, delta as int),
{
    let months = acc.months as i128 + delta;
    if -0x8000_0000 <= months && months <= 0x7fff_ffff {
        Some(IntervalValue { months: months as i32, days: acc.days, microseconds: acc.microseconds })
    } else {
        None
    }
}

/// The interval with `delta` days added, or `None` on overflow.
fn days_plus(acc: IntervalValue, delta: i128) -> (next: Option<IntervalValue>)
    requires
        -0x1_0000_0000_0000_0000_0000_0000 <= delta <= 0x1_0000_0000_0000_0000_0000_0000,
    ensures
        next == add_days(acc, delta as int),
{
    let days = acc.days as i128 + delta;
    if -0x8000_0000 <= days && days <= 0x7fff_ffff {
        Some(IntervalValue { months: acc.months, days: days as i32, microseconds: acc.microseconds })
    } else {
        None
    }
}

/// The interval with `delta` microseconds added, or `None` on overflow.
fn micros_plus(acc: IntervalValue, delta: i128) -> (next: Option<IntervalValue>)
    requires
        -0x1_0000_0000_0000_0000_0000_0000 <= delta <= 0x1_0000_0000_0000_0000_0000_0000,
    ensures
        next == add_micros(acc, delta as int),
{
    let micros = acc.microseconds as i128 + delta;
    if -0x8000_0000_0000_0000 <= micros && micros <= 0x7fff_ffff_ffff_ffff {
        Some(IntervalValue { months: acc.months, days: acc.days, microseconds: micros as i64 })
    } else {
        None
    }
}

/// Whether `x` fits an `i32`.
fn fits_in_i32(x: i128) -> (fits: bool)
    ensures
        fits == fits_i32(x as int),
{
    -0x8000_0000 <= x && x <= 0x7fff_ffff
}

/// Whether `x` fits an `i64`.
fn fits_in_i64(x: i128) -> (fits: bool)
    ensures
        fits == fits_i64(x as int),
{
    -0x8000_0000_0000_0000 <= x && x <= 0x7fff_ffff_ffff_ffff
}

/// Adds a read term to the interval, or `None` on overflow.
fn add_term(acc: IntervalValue, f: &TermFields) -> (next: Option<IntervalValue>)
    requires
        f.value >= 0,
        f.fraction matches Some(x) ==> x < 1_000_000,
    ensures
        next == apply_unit(
            acc,
            f.unit,
            if f.negative {
                -f.value
            } else {
                f.value as int
            },
            match f.fraction {
                Some(x) => if f.negative {
                    -x
                } else {
                    x as int
                },
                None => 0,
            },
        ),
{
    let v: i128 = if f.negative {
        -(f.value as i128)
    } else {
        f.value as i128
    };
    let frac: i128 = match f.fraction {
        Some(x) => if f.negative {
            -(x as i128)
        } else {
            x as i128
        },
        None => 0,
    };
    assert(-0x8000_0000_0000_0000 <= v <= 0x7fff_ffff_ffff_ffff);
    assert(-3_600_000_000 * 0x8000_0000_0000_0000 <= v * 3_600_000_000 <= 3_600_000_000
        * 0x8000_0000_0000_0000) by (nonlinear_arith)
        requires
            -0x8000_0000_0000_0000 <= v <= 0x8000_0000_0000_0000,
    ;
    assert(-60_000_000 * 0x8000_0000_0000_0000 <= v * 60_000_000 <= 60_000_000
        * 0x8000_0000_0000_0000) by (nonlinear_arith)
        requires
            -0x8000_0000_0000_0000 <= v <= 0x8000_0000_0000_0000,
    ;
    assert(-1_000_000 * 0x8000_0000_0000_0000 <= v * 1_000_000 <= 1_000_000
        * 0x8000_0000_0000_0000) by (nonlinear_arith)
        requires
            -0x8000_0000_0000_0000 <= v <= 0x8000_0000_0000_0000,
    ;
    match f.unit {
        IntervalUnit::Year => months_plus(acc, 12 * v),
        IntervalUnit::Month => if fits_in_i32(v) {
            months_plus(acc, v)
        } else {
            None
        },
        IntervalUnit::Week => days_plus(acc, 7 * v),
        IntervalUnit::Day => if fits_in_i32(v) {
            days_plus(acc, v)
        } else {
            None
        },
        IntervalUnit::Hour => {
            let p = v * 3_600_000_000;
            if fits_in_i64(p) {
                micros_plus(acc, p)
            } else {
                None
            }
        },
        IntervalUnit::Minute => {
            let p = v * 60_000_000;
            if fits_in_i64(p) {
                micros_plus(acc, p)
            } else {
                None
            }
        },
        IntervalUnit::Second => {
            let p = v * 1_000_000;
            if fits_in_i64(p) && fits_in_i64(acc.microseconds as i128 + p) {
                micros_plus(acc, p + frac)
            } else {
                None
            }
        },
        IntervalUnit::Millisecond => {
            let p = v * 1000;
            if fits_in_i64(p) {
                micros_plus(acc, p)
            } else {
                None
            }
        },
        IntervalUnit::Microsecond => micros_plus(acc, v),
    }
}

/// Where the next term may start after a unit's name ending at `e`, or `None`.
fn read_suffix(b: &[u8], e: usize, hi: usize) -> (next: Option<usize>)
    requires
        e <= hi <= b@.len(),
    ensures
        match next {
            Some(n) => suffix_next(b@, e as int, hi as int) == Some(n as int) && n <= hi && (e < n
                || e == hi),
            None => suffix_next(b@, e as int, hi as int) is None,
        },
{
    if e >= hi {
        Some(hi)
    } else if lower_byte(b[e]) == 115 {
        if e + 1 >= hi {
            Some(hi)
        } else if space_byte(b[e + 1]) {
            Some(e + 2)
        } else {
            None
        }
    } else if space_byte(b[e]) {
        Some(e + 1)
    } else {
        None
    }
}


/// Reads the terms from `start` to `hi` and adds them up.
fn read_terms(b: &[u8], start: usize, hi: usize) -> (result: Result<IntervalValue, IntervalError>)
    requires
        start <= hi <= b@.len(),
    ensures
        result == intervals_from(b@, start as int, hi as int, zero_interval()),
{
    let mut acc = IntervalValue { months: 0, days: 0, microseconds: 0 };
    let mut i = start;
    loop
        invariant
            i <= hi <= b@.len(),
            intervals_from(b@, i as int, hi as int, acc) == intervals_from(
                b@,
                start as int,
                hi as int,
                zero_interval(),
            ),
        decreases hi - i,
    {
        let t = spaces_end(b, i, hi);
        proof {
            lemma_space_end(b@, i as int, hi as int);
            lemma_skip_spaces(b@, i as int, t as int, hi as int, acc);
        }
        if t >= hi {
            return Ok(acc);
        }
        let head = match read_term_head(b, t, hi) {
            Ok(head) => head,
            Err(e) => return Err(e),
        };
        let next_acc = match add_term(acc, &head) {
            Some(next_acc) => next_acc,
            None => return Err(IntervalError::Overflow),
        };
        proof {
            lemma_term_advances(b@, t as int, hi as int);
        }
        let next = match read_suffix(b, head.end, hi) {
            Some(next) => next,
            None => return Err(IntervalError::Syntax),
        };
        acc = next_acc;
        i = next;
    }
}

/// Whitespace before a term changes nothing.
proof fn lemma_skip_spaces(b: Seq<u8>, i: int, t: int, hi: int, acc: IntervalValue)
    requires
        0 <= i <= t,
        t == space_end(b, i, hi),
    ensures
        intervals_from(b, i, hi, acc) == intervals_from(b, t, hi, acc),
    decreases t - i,
{
    if i < t {
        lemma_space_end(b, i, hi);
        lemma_space_end(b, i + 1, hi);
        lemma_skip_spaces(b, i + 1, t, hi, acc);
    }
}

/// Parses an unqualified interval string: an optional `interval` prefix, then terms
/// `[+|-] number unit` separated by whitespace, added up into months, days and microseconds.
pub fn parse_interval(s: &str) -> (result: Result<IntervalValue, IntervalError>)
    ensures
        result == spec_parse_interval(s.spec_bytes()),
{
    let b = s.as_bytes();
    let lo = crate::datetime::trimmed_start(b, 0, b.len());
    proof {
        lemma_trim_bounds(b@, 0, b@.len() as int);
    }
    let hi = crate::datetime::trimmed_end(b, lo, b.len());
    proof {
        lemma_trim_end_bounds(b@, lo as int, b@.len() as int);
    }
    if lo >= hi {
        return Err(IntervalError::Empty);
    }
    let prefix: Vec<u8> = vec![105u8, 110, 116, 101, 114, 118, 97, 108];
    assert(prefix@ =~= interval_word());
    if word_matches(b, lo, hi, prefix.as_slice()) {
        if lo + 8 == hi {
            return Err(IntervalError::Empty);
        }
        if !space_byte(b[lo + 8]) {
            return Err(IntervalError::Syntax);
        }
        read_terms(b, lo + 9, hi)
    } else {
        read_terms(b, lo, hi)
    }
}


/// Spark's units agree with each other: a year is twelve months, a week seven days, an hour
/// sixty minutes, a minute sixty seconds, a second a thousand milliseconds and a millisecond a
/// thousand microseconds. Adding a count in the larger unit gives what adding the converted
/// count in the smaller one gives, wherever that count fits the smaller unit's checks.
pub proof fn law_units_agree(acc: IntervalValue, v: int)
    ensures
        fits_i32(12 * v) ==> apply_unit(acc, IntervalUnit::Year, v, 0) == apply_unit(
            acc,
            IntervalUnit::Month,
            12 * v,
            0,
        ),
        fits_i32(7 * v) ==> apply_unit(acc, IntervalUnit::Week, v, 0) == apply_unit(
            acc,
            IntervalUnit::Day,
            7 * v,
            0,
        ),
        fits_i64(60 * v) ==> apply_unit(acc, IntervalUnit::Hour, v, 0) == apply_unit(
            acc,
            IntervalUnit::Minute,
            60 * v,
            0,
        ),
        fits_i64(60 * v) ==> apply_unit(
            acc,
            IntervalUnit::Minute,
            v,
            0,
        ) == apply_unit(acc, IntervalUnit::Second, 60 * v, 0),
        fits_i64(1000 * v) ==> apply_unit(acc, IntervalUnit::Second, v, 0) == apply_unit(
            acc,
            IntervalUnit::Millisecond,
            1000 * v,
            0,
        ),
        fits_i64(1000 * v) ==> apply_unit(acc, IntervalUnit::Millisecond, v, 0) == apply_unit(
            acc,
            IntervalUnit::Microsecond,
            1000 * v,
            0,
        ),
{
    assert(v * 3_600_000_000 == (60 * v) * 60_000_000) by (nonlinear_arith);
    assert(v * 60_000_000 == (60 * v) * 1_000_000) by (nonlinear_arith);
    assert(v * 1_000_000 == (1000 * v) * 1000) by (nonlinear_arith);
    assert(v * 1000 == 1000 * v) by (nonlinear_arith);
}


/// A term's sign applies to its whole number, fraction included: a seconds term adds
/// `sign * (whole seconds * 1_000_000 + fraction microseconds)` to the microseconds and leaves
/// the months and days alone (so `-0.5 seconds` adds `-500000`); it is refused exactly when a
/// step of that sum leaves the `i64` range.
pub proof fn law_seconds_term_adds_signed_number(acc: IntervalValue, h: TermHead)
    requires
        h.unit == IntervalUnit::Second,
    ensures
        ({
            let sign: int = if h.negative {
                -1
            } else {
                1
            };
            let frac: int = match h.fraction {
                Some(f) => f as int,
                None => 0,
            };
            let whole = sign * h.value * 1_000_000;
            let total = sign * (h.value * 1_000_000 + frac);
            &&& apply_unit(acc, h.unit, signed_value(h), signed_fraction(h)) matches Some(r) ==> {
                &&& r.microseconds == acc.microseconds + total
                &&& r.months == acc.months
                &&& r.days == acc.days
            }
            &&& (fits_i64(whole) && fits_i64(acc.microseconds + whole) && fits_i64(
                acc.microseconds + total,
            )) <==> apply_unit(acc, h.unit, signed_value(h), signed_fraction(h)) is Some
        }),
{
    let sign: int = if h.negative {
        -1
    } else {
        1
    };
    let frac: int = match h.fraction {
        Some(f) => f as int,
        None => 0,
    };
    assert(signed_value(h) * 1_000_000 == sign * h.value * 1_000_000) by (nonlinear_arith)
        requires
            signed_value(h) == sign * h.value,
    ;
    assert(signed_value(h) * 1_000_000 + signed_fraction(h) == sign * (h.value * 1_000_000
        + frac)) by (nonlinear_arith)
        requires
            signed_value(h) == sign * h.value,
            signed_fraction(h) == sign * frac,
    ;
}

/// Negating a term negates what it adds: for any unit, a count `v` with fraction `frac` and
/// the count `-v` with fraction `-frac` move the months, days and microseconds by opposite
/// amounts, whenever both are accepted.
pub proof fn law_negated_term_negates(acc: IntervalValue, unit: IntervalUnit, v: int, frac: int)
    ensures
        apply_unit(acc, unit, v, frac) matches Some(r1) ==> apply_unit(acc, unit, -v, -frac) matches Some(r2) ==> {
            &&& r1.months - acc.months == -(r2.months - acc.months)
            &&& r1.days - acc.days == -(r2.days - acc.days)
            &&& r1.microseconds - acc.microseconds == -(r2.microseconds - acc.microseconds)
        },
{
    assert((-v) * 3_600_000_000 == -(v * 3_600_000_000)) by (nonlinear_arith);
    assert((-v) * 60_000_000 == -(v * 60_000_000)) by (nonlinear_arith);
    assert((-v) * 1_000_000 == -(v * 1_000_000)) by (nonlinear_arith);
    assert((-v) * 1000 == -(v * 1000)) by (nonlinear_arith);
}

/// A term is negative exactly when it starts with `-`, and has a fraction exactly when a `.`
/// follows its digits.
pub proof fn law_term_sign_and_fraction(b: Seq<u8>, i: int, hi: int)
    requires
        0 <= i < hi <= b.len(),
    ensures
        term_head(b, i, hi) matches Ok(h) ==> {
            &&& (h.negative <==> b[i] == 45u8)
            &&& (h.fraction is Some <==> exists|k: int| i <= k < h.end && b[k] == 46u8)
        },
{
    let c = b[i];
    let j = if is_digit(c) {
        i
    } else {
        i + 1
    };
    let v0 = space_end(b, j, hi);
    lemma_space_end(b, j, hi);
    let v1 = run_end(b, v0, hi);
    lemma_run_end(b, v0, hi);
    lemma_space_end(b, v1, hi);
    let f1 = run_end(b, v1 + 1, hi);
    lemma_run_end(b, v1 + 1, hi);
    lemma_space_end(b, f1, hi);
    if term_head(b, i, hi) is Ok {
        let h = term_head(b, i, hi)->Ok_0;
        let t = if v1 < hi && b[v1] == 46u8 {
            f1
        } else {
            v1
        };
        let u0 = space_end(b, t, hi);
        assert(unit_at(b, u0, hi) == Some(h.unit));
        assert(word_at(b, u0, hi, unit_word(h.unit)));
        if h.fraction is None {
            assert forall|k: int| i <= k < h.end implies b[k] != 46u8 by {
                if k >= u0 {
                    assert(b[u0 + (k - u0)] == b[k]);
                    assert(ascii_lower(b[u0 + (k - u0)]) == unit_word(h.unit)[k - u0]);
                }
            }
        }
    }
}
} // verus!
