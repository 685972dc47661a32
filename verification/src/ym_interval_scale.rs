//! Scaling a year-month interval by an integral number: Spark operates on its months, an
//! `Int32`, with exact operations, an error on overflow and on a zero divisor, and a quotient
//! rounded HALF_UP -- away from zero on a tie (`IntMath.divide`).
use vstd::prelude::*;

use crate::interval_scale::{
    fits_i32, spec_divide_months, spec_multiply_months, NumberClass, ScaleBy, ScaleError,
};
use crate::rounding::{
    abs, div_half_up, lemma_div_negative_divisor, lemma_half_up_from_remainder,
    lemma_rounding_step_fits, lemma_trunc_div_rem, trunc_div, trunc_rem,
};

verus! {

/// The months multiplied by `number`; an error when the product leaves the `Int32`.
pub fn multiply_integral(months: i32, number: i64) -> (result: Result<i32, ScaleError>)
    ensures
        result == spec_multiply_months(months as int, number as int),
{
    match i64::from(months).checked_mul(number) {
        Some(total) => match i32::try_from(total) {
            Ok(value) => Ok(value),
            Err(_) => Err(ScaleError::Overflow),
        },
        None => {
            proof {
                assert(!fits_i32(months * number)) by (nonlinear_arith)
                    requires
                        !(i64::MIN <= months * number <= i64::MAX),
                ;
            }
            Err(ScaleError::Overflow)
        },
    }
}

/// The months divided by `number`, exactly and rounded HALF_UP, so the remainder decides, not a
/// float. `i64` cannot overflow here: `|months| <= i32::MAX`, and the divisor's magnitude is only
/// ever compared, never negated.
pub fn divide_integral(months: i32, number: i64) -> (result: Result<i32, ScaleError>)
    ensures
        result == spec_divide_months(months as int, number as int),
{
    if number == 0 {
        return Err(ScaleError::DividedByZero);
    }
    let months = i64::from(months);
    let quotient = months / number;
    let remainder = months % number;
    let ghost m = months as int;
    let ghost d = number as int;
    proof {
        if d < 0 {
            lemma_div_negative_divisor(m, d);
            lemma_div_negative_divisor(-m, d);
        }
        lemma_trunc_div_rem(m, d);
        lemma_half_up_from_remainder(m, d);
        assert(quotient as int == (if m >= 0 { m / d } else { -((-m) / d) }));
        assert(remainder as int == (if m >= 0 { m % d } else { -((-m) % d) }));
        assert(quotient as int == trunc_div(m, d));
        assert(remainder as int == trunc_rem(m, d));
        vstd::arithmetic::div_mod::lemma_mod_decreases(abs(m) as nat, abs(d) as nat);
        assert(abs(remainder as int) <= abs(m));
        assert(-2147483648 <= m <= 2147483647);
        assert(-2147483648 <= remainder <= 2147483648);
    }
    let doubled = 2 * remainder;
    let twice_remainder = if doubled < 0 {
        -doubled
    } else {
        doubled
    };
    // `2 * |remainder| >= |number|`, with `|number|` never formed: it is `2^63` for `i64::MIN`.
    let rounds_away = if number < 0 {
        -twice_remainder <= number
    } else {
        twice_remainder >= number
    };
    let rounded = if rounds_away {
        proof {
            lemma_rounding_step_fits(m, d);
        }
        quotient + if (months < 0) == (number < 0) {
            1
        } else {
            -1
        }
    } else {
        quotient
    };
    match i32::try_from(rounded) {
        Ok(value) => Ok(value),
        Err(_) => Err(ScaleError::Overflow),
    }
}

/// The shape the scaling number is coerced to, by the class of its type; `None` where Spark
/// cannot scale a year-month interval by it (a string among them).
pub fn coerce_number(class: NumberClass) -> (coerced: Option<ScaleBy>)
    ensures
        coerced == match class {
            NumberClass::Integer => Some(ScaleBy::Integral),
            NumberClass::Numeric | NumberClass::Null => Some(ScaleBy::Fractional),
            NumberClass::String | NumberClass::Other => None::<ScaleBy>,
        },
{
    match class {
        NumberClass::Integer => Some(ScaleBy::Integral),
        NumberClass::Numeric | NumberClass::Null => Some(ScaleBy::Fractional),
        NumberClass::String | NumberClass::Other => None,
    }
}

} // verus!
