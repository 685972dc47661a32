//! Scaling an ANSI interval by an integral number, the way Spark does it: on the single stored
//! number of the interval -- the months of a year-month interval or the microseconds of a
//! day-time one -- with exact arithmetic, an error on overflow and on a zero divisor, and a
//! quotient rounded HALF_UP (away from zero on a tie).
use vstd::prelude::*;

use crate::rounding::{
    abs, div_half_up, lemma_div_negative_divisor, lemma_half_up_from_remainder, lemma_rounding_step_fits, lemma_trunc_div_rem,
    trunc_div,
};

verus! {

/// Why scaling an interval by an integral number fails.
#[derive(Debug, Clone, Copy, PartialEq, Eq, Structural)]
pub enum ScaleError {
    /// The exact result does not fit the interval's integer.
    Overflow,
    /// The divisor is zero.
    DividedByZero,
}

/// Whether `x` fits an `i32`.
pub open spec fn fits_i32(x: int) -> bool {
    i32::MIN <= x <= i32::MAX
}

/// Whether `x` fits an `i64`.
pub open spec fn fits_i64(x: int) -> bool {
    i64::MIN <= x <= i64::MAX
}

/// Where the division `numerator / denominator` of `divide_half_up` stays clear of the
/// machine's limits: the divisor is not `i128::MIN`, the quotient fits, and twice the
/// remainder's magnitude fits.
pub open spec fn half_up_in_range(numerator: int, denominator: int) -> bool {
    &&& denominator != i128::MIN
    &&& !(numerator == i128::MIN && denominator == -1)
    &&& denominator != 0 ==> 2 * (abs(numerator) % abs(denominator)) <= i128::MAX
}

/// What `divide_half_up` gives back.
pub open spec fn spec_divide_half_up(numerator: int, denominator: int) -> Result<int, ScaleError> {
    if denominator == 0 {
        Err(ScaleError::DividedByZero)
    } else {
        Ok(div_half_up(numerator, denominator))
    }
}

/// Divides exactly and rounds HALF_UP on the remainder, the way Spark's `IntMath`/`LongMath`
/// do: the remainder decides the rounding, not a float.
pub fn divide_half_up(numerator: i128, denominator: i128) -> (result: Result<i128, ScaleError>)
    requires
        half_up_in_range(numerator as int, denominator as int),
    ensures
        match result {
            Ok(q) => spec_divide_half_up(numerator as int, denominator as int) == Ok::<int, ScaleError>(q as int),
            Err(e) => spec_divide_half_up(numerator as int, denominator as int) == Err::<int, ScaleError>(e),
        },
{
    if denominator == 0 {
        return Err(ScaleError::DividedByZero);
    }
    let quotient = numerator / denominator;
    let remainder = numerator % denominator;
    proof {
        lemma_trunc_div_rem(numerator as int, denominator as int);
    }
    let abs_remainder = if remainder < 0 {
        -remainder
    } else {
        remainder
    };
    let abs_denominator = if denominator < 0 {
        -denominator
    } else {
        denominator
    };
    proof {
        lemma_half_up_from_remainder(numerator as int, denominator as int);
        let ghost n = numerator as int;
        let ghost d = denominator as int;
        if d < 0 {
            lemma_div_negative_divisor(n, d);
            lemma_div_negative_divisor(-n, d);
        }
        assert(quotient as int == (if n >= 0 { n / d } else { -((-n) / d) }));
        assert(remainder as int == (if n >= 0 { n % d } else { -((-n) % d) }));
        assert(quotient as int == trunc_div(numerator as int, denominator as int));
        assert(abs_remainder as int == abs(numerator as int) % abs(denominator as int));
        if 2 * abs_remainder >= abs_denominator {
            lemma_rounding_step_fits(numerator as int, denominator as int);
        }
    }
    if 2 * abs_remainder >= abs_denominator {
        let away: i128 = if (numerator < 0) == (denominator < 0) {
            1
        } else {
            -1
        };
        Ok(quotient + away)
    } else {
        Ok(quotient)
    }
}

} // verus!

verus! {

impl ScaleError {
    /// The message Spark raises for this error.
    pub open spec fn spec_message(self) -> Seq<char> {
        match self {
            ScaleError::Overflow => "integer overflow"@,
            ScaleError::DividedByZero => "[INTERVAL_DIVIDED_BY_ZERO] Division by zero. Use `try_divide` to tolerate divisor being 0 and return NULL instead."@,
        }
    }

    /// The message Spark raises for this error.
    pub fn message(&self) -> (text: String)
        ensures
            text@ == self.spec_message(),
    {
        match self {
            ScaleError::Overflow => String::from_str("integer overflow"),
            ScaleError::DividedByZero => String::from_str(
                "[INTERVAL_DIVIDED_BY_ZERO] Division by zero. Use `try_divide` to tolerate divisor being 0 and return NULL instead.",
            ),
        }
    }
}

/// Operands widened from `i64` keep `divide_half_up` within the machine's limits.
pub proof fn lemma_i64_operands_in_range(numerator: int, denominator: int)
    requires
        fits_i64(numerator),
        fits_i64(denominator),
    ensures
        half_up_in_range(numerator, denominator),
{
    if denominator != 0 {
        vstd::arithmetic::div_mod::lemma_mod_bound(abs(numerator), abs(denominator));
    }
}

/// The months of a year-month interval multiplied by `number`, or the overflow.
pub open spec fn spec_multiply_months(months: int, number: int) -> Result<i32, ScaleError> {
    if fits_i32(months * number) {
        Ok((months * number) as i32)
    } else {
        Err(ScaleError::Overflow)
    }
}

/// The months of a year-month interval divided by `number`, rounded HALF_UP, or the error.
pub open spec fn spec_divide_months(months: int, number: int) -> Result<i32, ScaleError> {
    if number == 0 {
        Err(ScaleError::DividedByZero)
    } else if fits_i32(div_half_up(months, number)) {
        Ok(div_half_up(months, number) as i32)
    } else {
        Err(ScaleError::Overflow)
    }
}

/// The microseconds of a day-time interval multiplied by `number`, or the overflow.
pub open spec fn spec_multiply_micros(micros: int, number: int) -> Result<i64, ScaleError> {
    if fits_i64(micros * number) {
        Ok((micros * number) as i64)
    } else {
        Err(ScaleError::Overflow)
    }
}

/// The microseconds of a day-time interval divided by `number`, rounded HALF_UP, or the error.
pub open spec fn spec_divide_micros(micros: int, number: int) -> Result<i64, ScaleError> {
    if number == 0 {
        Err(ScaleError::DividedByZero)
    } else if fits_i64(div_half_up(micros, number)) {
        Ok(div_half_up(micros, number) as i64)
    } else {
        Err(ScaleError::Overflow)
    }
}

/// `MultiplyYMInterval` by an integral number: exact, an error when the months overflow.
pub fn multiply_integral_i32(months: i32, number: i64) -> (result: Result<i32, ScaleError>)
    ensures
        result == spec_multiply_months(months as int, number as int),
{
    match i64::from(months).checked_mul(number) {
        Some(scaled) => match i32::try_from(scaled) {
            Ok(value) => Ok(value),
            Err(_) => Err(ScaleError::Overflow),
        },
        None => {
            proof {
                assert(!fits_i32(months * number)) by (nonlinear_arith)
                    requires
                        !fits_i64(months * number),
                ;
            }
            Err(ScaleError::Overflow)
        },
    }
}

/// `DivideYMInterval` by an integral number: HALF_UP, an error on a zero divisor or overflow.
pub fn divide_integral_i32(months: i32, number: i64) -> (result: Result<i32, ScaleError>)
    ensures
        result == spec_divide_months(months as int, number as int),
{
    proof {
        lemma_i64_operands_in_range(months as int, number as int);
    }
    match divide_half_up(i128::from(months), i128::from(number)) {
        Ok(scaled) => match i32::try_from(scaled) {
            Ok(value) => Ok(value),
            Err(_) => Err(ScaleError::Overflow),
        },
        Err(e) => Err(e),
    }
}

/// `MultiplyDTInterval` by an integral number: exact, an error when the microseconds overflow.
pub fn multiply_integral_i64(micros: i64, number: i64) -> (result: Result<i64, ScaleError>)
    ensures
        result == spec_multiply_micros(micros as int, number as int),
{
    match micros.checked_mul(number) {
        Some(value) => Ok(value),
        None => Err(ScaleError::Overflow),
    }
}

/// `DivideDTInterval` by an integral number: HALF_UP, an error on a zero divisor or overflow.
pub fn divide_integral_i64(micros: i64, number: i64) -> (result: Result<i64, ScaleError>)
    ensures
        result == spec_divide_micros(micros as int, number as int),
{
    proof {
        lemma_i64_operands_in_range(micros as int, number as int);
    }
    match divide_half_up(i128::from(micros), i128::from(number)) {
        Ok(scaled) => match i64::try_from(scaled) {
            Ok(value) => Ok(value),
            Err(_) => Err(ScaleError::Overflow),
        },
        Err(e) => Err(e),
    }
}

} // verus!

verus! {

/// How the type of the number that scales an interval is classified (DataFusion's
/// `NativeType`): an integer, another numeric type (a float or a decimal), the null type, a
/// string, or anything else.
#[derive(Debug, Clone, Copy, PartialEq, Eq, Structural)]
pub enum NumberClass {
    Integer,
    Numeric,
    Null,
    String,
    Other,
}

/// The two shapes Spark distinguishes for the scaling number: exact integral arithmetic on an
/// `Int64`, or a `Double` rounded HALF_UP.
#[derive(Debug, Clone, Copy, PartialEq, Eq, Structural)]
pub enum ScaleBy {
    Integral,
    Fractional,
}

/// The shape the scaling number is coerced to, by the class of its type; `None` where Spark
/// cannot scale an interval by it. A string scales the interval too, as a `Double`
/// (`NumericType.defaultConcreteType`).
pub fn coerce_number(class: NumberClass) -> (coerced: Option<ScaleBy>)
    ensures
        coerced == match class {
            NumberClass::Integer => Some(ScaleBy::Integral),
            NumberClass::Numeric | NumberClass::Null | NumberClass::String => Some(
                ScaleBy::Fractional,
            ),
            NumberClass::Other => None::<ScaleBy>,
        },
{
    match class {
        NumberClass::Integer => Some(ScaleBy::Integral),
        NumberClass::Numeric | NumberClass::Null | NumberClass::String => Some(ScaleBy::Fractional),
        NumberClass::Other => None,
    }
}

} // verus!

verus! {

/// Dividing a year-month interval by the number it was just multiplied by gives the months
/// back: a successful multiplication is undone exactly by the division.
pub proof fn law_divide_months_undoes_multiply(months: i32, number: i64)
    requires
        number != 0,
        spec_multiply_months(months as int, number as int) is Ok,
    ensures
        spec_divide_months(
            spec_multiply_months(months as int, number as int)->Ok_0 as int,
            number as int,
        ) == Ok::<i32, ScaleError>(months),
{
    crate::rounding::law_div_half_up_of_multiple(months as int, number as int);
}

/// Dividing a day-time interval by the number it was just multiplied by gives the microseconds
/// back: a successful multiplication is undone exactly by the division.
pub proof fn law_divide_micros_undoes_multiply(micros: i64, number: i64)
    requires
        number != 0,
        spec_multiply_micros(micros as int, number as int) is Ok,
    ensures
        spec_divide_micros(
            spec_multiply_micros(micros as int, number as int)->Ok_0 as int,
            number as int,
        ) == Ok::<i64, ScaleError>(micros),
{
    crate::rounding::law_div_half_up_of_multiple(micros as int, number as int);
}

/// A year-month interval divided by a number rounds to a nearest count of months, a tie going
/// away from zero (HALF_UP), whenever the division succeeds.
pub proof fn law_divide_months_rounds_half_up(months: i32, number: i64)
    requires
        spec_divide_months(months as int, number as int) is Ok,
    ensures
        ({
            let q = spec_divide_months(months as int, number as int)->Ok_0 as int;
            &&& 2 * abs(months - q * number) <= abs(number as int)
            &&& 2 * abs(months - q * number) == abs(number as int) ==> abs(q) * abs(number as int)
                > abs(months as int)
        }),
{
    crate::rounding::law_div_half_up_is_nearest_away_from_zero(months as int, number as int);
}

} // verus!
