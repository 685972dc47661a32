//! Integer division rounded HALF_UP: to the nearest integer, a tie going away from zero.
use vstd::arithmetic::div_mod::*;
use vstd::arithmetic::mul::*;
use vstd::prelude::*;

verus! {

/// Absolute value of a mathematical integer.
pub open spec fn abs(x: int) -> int {
    if x < 0 {
        -x
    } else {
        x
    }
}

/// `+1` when `n / d` is non-negative, `-1` otherwise (taking `0 / d` as non-negative
/// only when the signs of `n` and `d` agree; the magnitude is then zero anyway).
pub open spec fn quotient_sign(n: int, d: int) -> int {
    if (n < 0) == (d < 0) {
        1
    } else {
        -1
    }
}

/// The integer nearest to `n / d`, a tie going away from zero (Spark's HALF_UP).
pub open spec fn div_half_up(n: int, d: int) -> int
    recommends
        d != 0,
{
    quotient_sign(n, d) * ((2 * abs(n) + abs(d)) / (2 * abs(d)))
}

/// Rust's truncating quotient of `n / d`.
pub open spec fn trunc_div(n: int, d: int) -> int
    recommends
        d != 0,
{
    quotient_sign(n, d) * (abs(n) / abs(d))
}

/// Rust's truncating remainder of `n % d`: it takes the sign of `n`.
pub open spec fn trunc_rem(n: int, d: int) -> int
    recommends
        d != 0,
{
    if n < 0 {
        -(abs(n) % abs(d))
    } else {
        abs(n) % abs(d)
    }
}

/// Euclidean division by a negative divisor is minus the division by its magnitude.
pub proof fn lemma_div_negative_divisor(x: int, d: int)
    requires
        d < 0,
    ensures
        x / d == -(x / (-d)),
        x % d == x % (-d),
{
    let b = -d;
    lemma_fundamental_div_mod(x, b);
    lemma_mod_bound(x, b);
    let q = x / b;
    let r = x % b;
    assert(x == d * (-q) + r) by (nonlinear_arith)
        requires
            x == b * q + r,
            b == -d,
    ;
    assert(x / d == -q && x % d == r) by (nonlinear_arith)
        requires
            x == d * (-q) + r,
            0 <= r < -d,
            d < 0,
    ;
}

} // verus!

verus! {

/// What Rust's `/` and `%` on signed integers compute, in terms of magnitudes.
pub proof fn lemma_trunc_div_rem(n: int, d: int)
    requires
        d != 0,
    ensures
        (if n >= 0 { n / d } else { -((-n) / d) }) == trunc_div(n, d),
        (if n >= 0 { n % d } else { -((-n) % d) }) == trunc_rem(n, d),
        0 <= abs(n) % abs(d) < abs(d),
        n == d * trunc_div(n, d) + trunc_rem(n, d),
{
    let a = abs(n);
    let b = abs(d);
    if d < 0 {
        lemma_div_negative_divisor(n, d);
        lemma_div_negative_divisor(-n, d);
    }
    lemma_mod_bound(a, b);
    lemma_fundamental_div_mod(a, b);
    let q = a / b;
    let r = a % b;
    assert(n == d * trunc_div(n, d) + trunc_rem(n, d)) by (nonlinear_arith)
        requires
            a == b * q + r,
            a == abs(n),
            b == abs(d),
            trunc_div(n, d) == quotient_sign(n, d) * q,
            trunc_rem(n, d) == (if n < 0 { -r } else { r }),
    ;
}

/// The HALF_UP quotient is the truncating one, moved one step away from zero when twice the
/// remainder reaches the divisor.
pub proof fn lemma_half_up_from_remainder(n: int, d: int)
    requires
        d != 0,
    ensures
        div_half_up(n, d) == if 2 * (abs(n) % abs(d)) >= abs(d) {
            trunc_div(n, d) + quotient_sign(n, d)
        } else {
            trunc_div(n, d)
        },
{
    let a = abs(n);
    let b = abs(d);
    lemma_mod_bound(a, b);
    lemma_fundamental_div_mod(a, b);
    let q = a / b;
    let r = a % b;
    if 2 * r >= b {
        assert(2 * a + b == (q + 1) * (2 * b) + (2 * r - b)) by (nonlinear_arith)
            requires
                a == b * q + r,
        ;
        lemma_fundamental_div_mod_converse(2 * a + b, 2 * b, q + 1, 2 * r - b);
    } else {
        assert(2 * a + b == q * (2 * b) + (2 * r + b)) by (nonlinear_arith)
            requires
                a == b * q + r,
        ;
        lemma_fundamental_div_mod_converse(2 * a + b, 2 * b, q, 2 * r + b);
    }
    assert(quotient_sign(n, d) * (q + 1) == quotient_sign(n, d) * q + quotient_sign(n, d)) by (nonlinear_arith);
}

} // verus!

verus! {

/// When the remainder rounds the quotient away from zero, the divisor's magnitude is at least
/// two, so the truncating quotient has at most half the numerator's magnitude.
pub proof fn lemma_rounding_step_fits(n: int, d: int)
    requires
        d != 0,
        2 * (abs(n) % abs(d)) >= abs(d),
    ensures
        abs(d) >= 2,
        abs(n) / abs(d) <= abs(n) / 2,
        abs(trunc_div(n, d)) == abs(n) / abs(d),
{
    let a = abs(n);
    let b = abs(d);
    lemma_mod_bound(a, b);
    if b == 1 {
        lemma_mod_self_0(1);
        assert(a % 1 == 0) by {
            lemma_small_mod(0, 1);
            lemma_fundamental_div_mod(a, 1);
        }
    }
    lemma_div_is_ordered_by_denominator(a, 2, b);
    lemma_div_pos_is_pos(a, b);
}

} // verus!

verus! {

/// HALF_UP rounding gives a nearest integer to `n / d`, and on a tie the one farther from
/// zero.
pub proof fn law_div_half_up_is_nearest_away_from_zero(n: int, d: int)
    requires
        d != 0,
    ensures
        2 * abs(n - div_half_up(n, d) * d) <= abs(d),
        2 * abs(n - div_half_up(n, d) * d) == abs(d) ==> abs(div_half_up(n, d)) * abs(d) > abs(n),
{
    let a = abs(n);
    let b = abs(d);
    lemma_mod_bound(a, b);
    lemma_fundamental_div_mod(a, b);
    lemma_half_up_from_remainder(n, d);
    let q0 = a / b;
    let r = a % b;
    let s = quotient_sign(n, d);
    let m = if 2 * r >= b { q0 + 1 } else { q0 };
    lemma_div_pos_is_pos(a, b);
    assert(div_half_up(n, d) == s * m) by (nonlinear_arith)
        requires
            trunc_div(n, d) == s * q0,
            div_half_up(n, d) == (if 2 * r >= b { trunc_div(n, d) + s } else { trunc_div(n, d) }),
            m == (if 2 * r >= b { q0 + 1 } else { q0 }),
    ;
    // The error of the rounded quotient, in magnitudes.
    assert(abs(n - div_half_up(n, d) * d) == abs(a - m * b)) by (nonlinear_arith)
        requires
            a == abs(n),
            b == abs(d),
            s == quotient_sign(n, d),
            div_half_up(n, d) == s * m,
            m >= 0,
    ;
    assert(abs(div_half_up(n, d)) == m) by (nonlinear_arith)
        requires
            div_half_up(n, d) == s * m,
            s == 1 || s == -1,
            m >= 0,
    ;
    assert(2 * abs(a - m * b) <= b && (2 * abs(a - m * b) == b ==> m * b > a)) by (nonlinear_arith)
        requires
            a == b * q0 + r,
            0 <= r < b,
            m == (if 2 * r >= b { q0 + 1 } else { q0 }),
    ;
}

/// HALF_UP rounding is symmetric: negating the numerator or the divisor negates the quotient.
pub proof fn law_div_half_up_is_odd(n: int, d: int)
    requires
        d != 0,
    ensures
        div_half_up(-n, d) == -div_half_up(n, d),
        div_half_up(n, -d) == -div_half_up(n, d),
{
    let b = abs(d);
    if n == 0 {
        vstd::arithmetic::div_mod::lemma_basic_div(b, 2 * b);
    }
}

/// Dividing an exact multiple of the divisor gives the multiplier back, with no rounding.
pub proof fn law_div_half_up_of_multiple(k: int, d: int)
    requires
        d != 0,
    ensures
        div_half_up(k * d, d) == k,
{
    let b = abs(d);
    let a = abs(k * d);
    assert(a == abs(k) * b) by (nonlinear_arith)
        requires
            a == abs(k * d),
            b == abs(d),
    ;
    lemma_mod_multiples_basic(abs(k), b);
    lemma_div_multiples_vanish(abs(k), b);
    assert(abs(k) * b == b * abs(k)) by (nonlinear_arith);
    lemma_half_up_from_remainder(k * d, d);
    lemma_trunc_div_rem(k * d, d);
    assert(trunc_div(k * d, d) == k) by (nonlinear_arith)
        requires
            trunc_div(k * d, d) == quotient_sign(k * d, d) * (a / b),
            a / b == abs(k),
            a == abs(k * d),
            d != 0,
    ;
}

} // verus!
