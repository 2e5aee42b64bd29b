//! Amounts and their division.

use vstd::prelude::*;

verus! {

/// Whether `value` fits an `i128`.
pub open spec fn fits(value: int) -> bool {
    i128::MIN <= value <= i128::MAX
}

/// The quotient of `a` by a positive `b`, rounded towards zero.
pub open spec fn trunc_div(a: int, b: int) -> int {
    if a >= 0 {
        a / b
    } else {
        -((-a) / b)
    }
}

/// A quotient times the divisor falls short of the dividend by less than the divisor, on the side
/// of zero.
pub proof fn law_quotient_is_rounded_towards_zero(a: int, b: int)
    requires
        b > 0,
    ensures
        a >= 0 ==> trunc_div(a, b) >= 0 && 0 <= a - trunc_div(a, b) * b < b,
        a < 0 ==> trunc_div(a, b) <= 0 && -b < a - trunc_div(a, b) * b <= 0,
{
    let m = if a >= 0 {
        a
    } else {
        -a
    };
    assert(m / b >= 0 && 0 <= m - (m / b) * b < b) by (nonlinear_arith)
        requires
            m >= 0,
            b > 0,
    ;
    assert((-(m / b)) * b == -((m / b) * b)) by (nonlinear_arith);
}

/// A number fits if it is neither below the least nor above the greatest `i128`.
pub proof fn law_fitting(value: int)
    ensures
        fits(value) <==> -0x8000_0000_0000_0000_0000_0000_0000_0000int <= value
            && value < 0x8000_0000_0000_0000_0000_0000_0000_0000int,
{
}

/// A quotient lies between zero and the dividend.
pub proof fn lemma_trunc_div_bound(a: int, b: int)
    requires
        b > 0,
    ensures
        a >= 0 ==> 0 <= trunc_div(a, b) <= a,
        a < 0 ==> a <= trunc_div(a, b) <= 0,
{
    let m = if a >= 0 {
        a
    } else {
        -a
    };
    assert(0 <= m / b <= m) by (nonlinear_arith)
        requires
            m >= 0,
            b > 0,
    ;
}

/// Divides, rounding towards zero.
pub fn divide(a: i128, b: i128) -> (r: i128)
    requires
        b > 0,
    ensures
        r == trunc_div(a as int, b as int),
{
    proof {
        lemma_trunc_div_bound(a as int, b as int);
    }
    a.checked_div(b).unwrap()
}

} // verus!
