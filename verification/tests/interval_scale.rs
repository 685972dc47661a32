use sail_function::interval_scale::{
    coerce_number, divide_half_up, divide_integral_i32, divide_integral_i64, multiply_integral_i32,
    multiply_integral_i64, NumberClass, ScaleBy, ScaleError,
};
use sail_function::ym_interval_scale;

#[test]
fn divide_half_up_rounds_to_nearest() {
    assert_eq!(divide_half_up(7, 3), Ok(2));
    assert_eq!(divide_half_up(8, 3), Ok(3));
    assert_eq!(divide_half_up(-8, 3), Ok(-3));
    assert_eq!(divide_half_up(8, -3), Ok(-3));
    assert_eq!(divide_half_up(-8, -3), Ok(3));
    assert_eq!(divide_half_up(1, 3), Ok(0));
    assert_eq!(divide_half_up(0, -5), Ok(0));
}

#[test]
fn divide_half_up_breaks_ties_away_from_zero() {
    assert_eq!(divide_half_up(7, 2), Ok(4));
    assert_eq!(divide_half_up(-7, 2), Ok(-4));
    assert_eq!(divide_half_up(5, -2), Ok(-3));
    assert_eq!(divide_half_up(-5, -2), Ok(3));
    assert_eq!(divide_half_up(1, 2), Ok(1));
    assert_eq!(divide_half_up(-1, 2), Ok(-1));
}

#[test]
fn divide_half_up_by_zero() {
    assert_eq!(divide_half_up(7, 0), Err(ScaleError::DividedByZero));
    assert_eq!(divide_half_up(0, 0), Err(ScaleError::DividedByZero));
}

#[test]
fn multiply_months() {
    assert_eq!(multiply_integral_i32(3, 4), Ok(12));
    assert_eq!(multiply_integral_i32(-3, 4), Ok(-12));
    assert_eq!(multiply_integral_i32(i32::MAX, 1), Ok(i32::MAX));
    assert_eq!(multiply_integral_i32(i32::MAX, 2), Err(ScaleError::Overflow));
    assert_eq!(multiply_integral_i32(i32::MIN, -1), Err(ScaleError::Overflow));
    // The product overflows even the `i64` it is computed in.
    assert_eq!(multiply_integral_i32(5, i64::MAX), Err(ScaleError::Overflow));
}

#[test]
fn divide_months() {
    assert_eq!(divide_integral_i32(10, 4), Ok(3));
    assert_eq!(divide_integral_i32(-10, 4), Ok(-3));
    assert_eq!(divide_integral_i32(10, 3), Ok(3));
    assert_eq!(divide_integral_i32(10, 0), Err(ScaleError::DividedByZero));
    assert_eq!(divide_integral_i32(i32::MIN, -1), Err(ScaleError::Overflow));
    assert_eq!(divide_integral_i32(5, i64::MIN), Ok(0));
}

#[test]
fn multiply_micros() {
    assert_eq!(multiply_integral_i64(3, -4), Ok(-12));
    assert_eq!(multiply_integral_i64(i64::MAX, 2), Err(ScaleError::Overflow));
    assert_eq!(multiply_integral_i64(i64::MIN, -1), Err(ScaleError::Overflow));
}

#[test]
fn divide_micros() {
    assert_eq!(divide_integral_i64(-15, 10), Ok(-2));
    assert_eq!(divide_integral_i64(14, 10), Ok(1));
    assert_eq!(divide_integral_i64(1_000_000, 0), Err(ScaleError::DividedByZero));
    assert_eq!(divide_integral_i64(i64::MIN, -1), Err(ScaleError::Overflow));
    assert_eq!(divide_integral_i64(i64::MIN, 1), Ok(i64::MIN));
}

#[test]
fn year_month_functions_agree_with_the_general_ones() {
    for months in [0, 1, -1, 7, -7, 12, i32::MAX, i32::MIN, 123_456] {
        for number in [1i64, -1, 2, -2, 3, 4, 0, 1000, i64::MAX, i64::MIN] {
            assert_eq!(
                ym_interval_scale::multiply_integral(months, number),
                multiply_integral_i32(months, number)
            );
            assert_eq!(
                ym_interval_scale::divide_integral(months, number),
                divide_integral_i32(months, number)
            );
        }
    }
}

#[test]
fn year_month_divide_by_the_smallest_number() {
    assert_eq!(ym_interval_scale::divide_integral(5, i64::MIN), Ok(0));
    assert_eq!(ym_interval_scale::divide_integral(-5, i64::MIN), Ok(0));
    assert_eq!(ym_interval_scale::divide_integral(0, i64::MIN), Ok(0));
}

#[test]
fn divide_undoes_multiply() {
    for months in [0, 1, -1, 13, -250, 1_000_000] {
        for number in [1i64, -1, 3, -7, 100] {
            let product = multiply_integral_i32(months, number).unwrap();
            assert_eq!(divide_integral_i32(product, number), Ok(months));
        }
    }
    let product = multiply_integral_i64(-86_400_000_000, 7).unwrap();
    assert_eq!(divide_integral_i64(product, 7), Ok(-86_400_000_000));
}

#[test]
fn divide_rounds_to_a_nearest_count() {
    for months in [-11, -10, -9, -1, 0, 1, 9, 10, 11] {
        for number in [-4i64, -3, -2, 2, 3, 4] {
            let q = divide_integral_i32(months, number).unwrap() as i64;
            let error = (months as i64 - q * number).abs();
            assert!(2 * error <= number.abs());
            if 2 * error == number.abs() {
                assert!(q.abs() * number.abs() > (months as i64).abs());
            }
        }
    }
}

#[test]
fn scale_number_coercion() {
    assert_eq!(coerce_number(NumberClass::Integer), Some(ScaleBy::Integral));
    assert_eq!(coerce_number(NumberClass::Numeric), Some(ScaleBy::Fractional));
    assert_eq!(coerce_number(NumberClass::Null), Some(ScaleBy::Fractional));
    assert_eq!(coerce_number(NumberClass::String), Some(ScaleBy::Fractional));
    assert_eq!(coerce_number(NumberClass::Other), None);
    assert_eq!(ym_interval_scale::coerce_number(NumberClass::String), None);
    assert_eq!(ym_interval_scale::coerce_number(NumberClass::Integer), Some(ScaleBy::Integral));
    assert_eq!(ym_interval_scale::coerce_number(NumberClass::Null), Some(ScaleBy::Fractional));
}

#[test]
fn error_messages() {
    assert_eq!(ScaleError::Overflow.message(), "integer overflow");
    assert_eq!(
        ScaleError::DividedByZero.message(),
        "[INTERVAL_DIVIDED_BY_ZERO] Division by zero. Use `try_divide` to tolerate divisor being 0 and return NULL instead."
    );
}
