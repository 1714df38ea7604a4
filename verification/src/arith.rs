//! Integer division as the measurements use it.
use vstd::prelude::*;

verus! {

/// Division by a positive number that drops the fraction.
pub open spec fn quotient(a: int, b: int) -> int {
    if a >= 0 {
        a / b
    } else {
        -((-a) / b)
    }
}

/// What division by a positive number leaves, with the sign of the dividend.
pub open spec fn remainder(a: int, b: int) -> int {
    a - quotient(a, b) * b
}

/// Divides by a positive number and drops the fraction.
pub fn divide(a: i128, b: i128) -> (q: i128)
    requires
        b > 0,
        a > i128::MIN,
    ensures
        q == quotient(a as int, b as int),
        a >= 0 ==> 0 <= q <= a,
        a < 0 ==> a <= q <= 0,
{
    let size: i128 = if a >= 0 { a } else { -a };
    assert(0 <= size as int / b as int <= size) by (nonlinear_arith)
        requires
            size >= 0,
            b > 0,
    ;
    let q: i128 = size / b;
    if a >= 0 {
        q
    } else {
        -q
    }
}

/// The start of the minute that holds an instant in milliseconds.
pub open spec fn minute_floor(at: int) -> int {
    at / 60_000 * 60_000
}

/// The start of the minute that holds an instant in milliseconds.
pub fn minute_start(at: i64) -> (start: i64)
    requires
        minute_floor(at as int) >= i64::MIN,
    ensures
        start == minute_floor(at as int),
        start <= at < start + 60_000,
{
    if at >= 0 {
        at / 60_000 * 60_000
    } else {
        let back: i128 = -(at as i128);
        let past: i128 = back % 60_000;
        if past == 0 {
            at
        } else {
            (at as i128 - (60_000 - past)) as i64
        }
    }
}

/// An instant at which a minute begins.
pub open spec fn is_minute(at: int) -> bool {
    at % 60_000 == 0
}

/// Whether a minute begins at an instant.
pub fn on_minute(at: i64) -> (r: bool)
    ensures
        r == is_minute(at as int),
{
    let size: i128 = if at >= 0 {
        at as i128
    } else {
        -(at as i128)
    };
    size % 60_000 == 0
}

/// Dropping the fraction keeps the nearest whole number towards zero: what is left over is less than
/// the divisor, and has the sign of the dividend.
pub proof fn fractions_are_dropped(a: int, b: int)
    requires
        b > 0,
    ensures
        a >= 0 ==> quotient(a, b) * b <= a < (quotient(a, b) + 1) * b,
        a <= 0 ==> (quotient(a, b) - 1) * b < a <= quotient(a, b) * b,
        quotient(a, b) * b + remainder(a, b) == a,
        a >= 0 ==> 0 <= remainder(a, b) < b,
        a <= 0 ==> -b < remainder(a, b) <= 0,
{
    let size = if a >= 0 { a } else { -a };
    let q = size / b;
    vstd::arithmetic::div_mod::lemma_fundamental_div_mod(size, b);
    vstd::arithmetic::div_mod::lemma_mod_bound(size, b);
    assert(q * b <= size < (q + 1) * b) by (nonlinear_arith)
        requires
            size == b * q + size % b,
            0 <= size % b < b,
    ;
    assert((-q) * b == -(q * b)) by (nonlinear_arith);
    assert((q + 1) * b == q * b + b) by (nonlinear_arith);
    assert((-q - 1) * b == -(q * b) - b) by (nonlinear_arith);
    if a == 0 {
        assert(q == 0) by (nonlinear_arith)
            requires
                q * b <= 0,
                0 < (q + 1) * b,
                b > 0,
        ;
    }
}

/// A minute begins with every sixty thousandth millisecond, and nowhere else; the minute of a time
/// begins not after it and less than a minute before it.
pub proof fn minutes_follow_each_other(at: int, k: int)
    ensures
        minute_floor(at) <= at < minute_floor(at) + 60_000,
        is_minute(minute_floor(at)),
        is_minute(at) <==> minute_floor(at) == at,
        is_minute(60_000 * k),
        60_000 * k < at < 60_000 * (k + 1) ==> !is_minute(at) && minute_floor(at) == 60_000 * k,
{
}

} // verus!
