//! Truncating integer division.

use vstd::prelude::*;

verus! {

/// The quotient of `a` and `b` rounded toward zero.
pub open spec fn quotient(a: int, b: int) -> int {
    if a >= 0 && b > 0 {
        a / b
    } else if a >= 0 {
        -(a / (-b))
    } else if b > 0 {
        -((-a) / b)
    } else {
        (-a) / (-b)
    }
}

/// The distance of an integer from zero.
pub open spec fn magnitude(i: int) -> nat {
    if i < 0 {
        (-i) as nat
    } else {
        i as nat
    }
}

/// The distance of an integer from zero.
pub fn unsigned_abs(i: i128) -> (r: u128)
    ensures
        r == magnitude(i as int),
{
    if i < 0 {
        (-(i + 1)) as u128 + 1
    } else {
        i as u128
    }
}

/// Divide, rounding toward zero.
pub fn divide(a: i128, b: i128) -> (r: i128)
    requires
        b != 0,
        !(a == i128::MIN && b == -1),
    ensures
        r == quotient(a as int, b as int),
{
    let x: u128 = unsigned_abs(a);
    let y: u128 = unsigned_abs(b);
    let q: u128 = x / y;
    assert(q <= x) by (nonlinear_arith)
        requires
            q == x / y,
            y >= 1,
    ;
    if (a < 0) == (b < 0) {
        assert(q <= i128::MAX) by {
            if q > i128::MAX {
                assert(y == 1) by (nonlinear_arith)
                    requires
                        q == x / y,
                        y >= 1,
                        x <= 0x8000_0000_0000_0000_0000_0000_0000_0000,
                        q > 0x7fff_ffff_ffff_ffff_ffff_ffff_ffff_ffff,
                ;
            }
        }
        q as i128
    } else if q == 0 {
        0
    } else {
        -((q - 1) as i128) - 1
    }
}

/// What a quotient leaves is smaller than the divisor, and lies on the side
/// of the dividend.
pub proof fn quotients_round_toward_zero(a: int, b: int)
    requires
        b != 0,
    ensures
        ({
            let rest = a - quotient(a, b) * b;
            &&& -magnitude(b) < rest < magnitude(b)
            &&& a >= 0 ==> rest >= 0
            &&& a <= 0 ==> rest <= 0
        }),
{
    let x: int = if a < 0 {
        -a
    } else {
        a
    };
    let y: int = if b < 0 {
        -b
    } else {
        b
    };
    let q = x / y;
    vstd::arithmetic::div_mod::lemma_fundamental_div_mod(x, y);
    vstd::arithmetic::div_mod::lemma_mod_bound(x, y);
    assert(y * q == q * y) by (nonlinear_arith);
    assert((-q) * y == -(q * y)) by (nonlinear_arith);
    assert(q * (-y) == -(q * y)) by (nonlinear_arith);
    assert((-q) * (-y) == q * y) by (nonlinear_arith);
}

} // verus!
