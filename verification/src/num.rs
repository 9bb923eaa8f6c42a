//! Integer arithmetic shared by the engine.
use vstd::prelude::*;

verus! {

/// Division that rounds toward zero.
pub open spec fn trunc_div(a: int, b: int) -> int
    recommends
        b != 0,
{
    if a >= 0 {
        a / b
    } else {
        -((-a) / b)
    }
}

/// Whether a number is a 64-bit signed integer.
pub open spec fn fits_i64(a: int) -> bool {
    i64::MIN <= a <= i64::MAX
}

/// Whether a number is a 128-bit signed integer.
pub open spec fn fits_i128(a: int) -> bool {
    i128::MIN <= a <= i128::MAX
}

/// Absolute value.
pub open spec fn abs(a: int) -> int {
    if a >= 0 {
        a
    } else {
        -a
    }
}

/// The larger of two integers.
pub open spec fn max(a: int, b: int) -> int {
    if a >= b {
        a
    } else {
        b
    }
}

/// The smaller of two integers.
pub open spec fn min(a: int, b: int) -> int {
    if a <= b {
        a
    } else {
        b
    }
}

/// `a` limited to the range from `lo` to `hi`.
pub open spec fn clamp(a: int, lo: int, hi: int) -> int {
    if a < lo {
        lo
    } else if a > hi {
        hi
    } else {
        a
    }
}

/// Dividing a 64-bit integer by another gives a 64-bit integer, but for the lowest by minus one.
pub proof fn lemma_div_fits(a: int, b: int)
    requires
        fits_i64(a),
        b != 0,
        a != i64::MIN || b != -1,
    ensures
        fits_i64(trunc_div(a, b)),
        abs(trunc_div(a, b)) <= abs(a),
{
    let x = abs(a);
    assert(-x <= x / b <= x) by (nonlinear_arith)
        requires
            x >= 0,
            b != 0,
    ;
    if a == i64::MIN && b < 0 {
        assert(x / b > -x) by (nonlinear_arith)
            requires
                x > 0,
                b < -1,
        ;
    }
}

/// The product of two 64-bit integers fits into 128 bits.
pub proof fn lemma_product_fits(a: int, b: int)
    requires
        fits_i64(a),
        fits_i64(b),
    ensures
        fits_i128(a * b),
{
    assert(-0x4000_0000_0000_0000_0000_0000_0000_0000 <= a * b
        <= 0x4000_0000_0000_0000_0000_0000_0000_0000) by (nonlinear_arith)
        requires
            -0x8000_0000_0000_0000 <= a <= 0x8000_0000_0000_0000,
            -0x8000_0000_0000_0000 <= b <= 0x8000_0000_0000_0000,
    ;
}

/// Divides, rounding toward zero.
pub fn div_trunc(a: i64, b: i64) -> (q: i64)
    requires
        b != 0,
        !(a == i64::MIN && b == -1),
    ensures
        q == trunc_div(a as int, b as int),
{
    proof {
        lemma_div_fits(a as int, b as int);
    }
    a / b
}

/// Whether a 128-bit number fits into 64 bits.
pub fn in_i64(a: i128) -> (r: bool)
    ensures
        r == fits_i64(a as int),
{
    i64::MIN as i128 <= a && a <= i64::MAX as i128
}

/// Division leaves a remainder that is smaller than the divisor, and cuts off toward zero: the
/// quotient times the divisor never reaches beyond the dividend, and has its sign.
pub proof fn division_cuts_toward_zero(a: int, b: int)
    requires
        b != 0,
    ensures
        abs(trunc_div(a, b) * b) <= abs(a) < abs(trunc_div(a, b) * b) + abs(b),
        a >= 0 ==> trunc_div(a, b) * b >= 0,
        a <= 0 ==> trunc_div(a, b) * b <= 0,
{
    let x = abs(a);
    let q = x / b;
    assert(0 <= q * b <= x < q * b + abs(b)) by {
        vstd::arithmetic::div_mod::lemma_fundamental_div_mod(x, b);
        assert(q * b == b * q) by (nonlinear_arith);
        assert(0 <= x % b < abs(b)) by (nonlinear_arith)
            requires
                b != 0,
                abs(b) == b || abs(b) == -b,
                abs(b) >= 0,
        ;
        assert(q * b >= 0) by (nonlinear_arith)
            requires
                q == x / b,
                x >= 0,
                b != 0,
        ;
    }
    assert((-q) * b == -(q * b)) by (nonlinear_arith);
}

} // verus!
