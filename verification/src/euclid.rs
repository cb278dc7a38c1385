//! The extended Euclidean algorithm.
//!
//! [`egcd`] follows the recursion of [`egcd_spec`] step by step, so the Bezout coefficients it
//! returns are exactly those of that recursion and of no other variant of the algorithm: there
//! is no demand that the first operand be the smaller, and a first operand of zero returns
//! the second operand with the coefficients `0` and `1`. The sign of the divisor returned is
//! whatever the chain of remainders leaves; its magnitude is the greatest common divisor.

use crate::divisibility::{
    divides, gcd, is_gcd, lemma_divides_combination, lemma_divides_multiple,
    lemma_divides_negated, lemma_gcd_is,
};
use crate::identities::{is_zero, one, zero};
use crate::truncated::{
    lemma_trunc_div_rem, lemma_trunc_is_machine_division, magnitude, trunc_div, trunc_rem,
};
use vstd::prelude::*;

verus! {

/// The triple `(g, x, y)` of the extended Euclidean algorithm on `a` and `b`.
///
/// For `a == 0` it is `(b, 0, 1)`. Otherwise, with `(g, x, y)` the triple of the remainder of
/// `b` by `a` and of `a`, it is `(g, y - q * x, x)`, where `q` is the quotient of `b` by `a`.
/// Quotient and remainder round toward zero.
pub open spec fn egcd_spec(a: int, b: int) -> (int, int, int)
    decreases magnitude(a),
    via egcd_spec_terminates
{
    if a == 0 {
        (b, 0, 1)
    } else {
        let t: (int, int, int) = egcd_spec(trunc_rem(b, a), a);
        (t.0, t.2 - trunc_div(b, a) * t.1, t.1)
    }
}

#[via_fn]
proof fn egcd_spec_terminates(a: int, b: int) {
    if a != 0 {
        lemma_trunc_div_rem(b, a);
    }
}

/// Bezout's identity: the coefficients combine the operands to the divisor.
pub proof fn lemma_egcd_bezout(a: int, b: int)
    ensures
        a * egcd_spec(a, b).1 + b * egcd_spec(a, b).2 == egcd_spec(a, b).0,
    decreases magnitude(a),
{
    if a != 0 {
        let r: int = trunc_rem(b, a);
        let q: int = trunc_div(b, a);
        let t: (int, int, int) = egcd_spec(r, a);
        lemma_trunc_div_rem(b, a);
        lemma_egcd_bezout(r, a);
        assert(a * (t.2 - q * t.1) + b * t.1 == t.0) by (nonlinear_arith)
            requires
                b == a * q + r,
                r * t.1 + a * t.2 == t.0,
        ;
    }
}

/// The divisor returned divides both operands.
pub proof fn lemma_egcd_divides(a: int, b: int)
    ensures
        divides(egcd_spec(a, b).0, a),
        divides(egcd_spec(a, b).0, b),
    decreases magnitude(a),
{
    if a == 0 {
        lemma_divides_multiple(b, 0);
        lemma_divides_multiple(b, 1);
        assert(b * 0 == 0 && b * 1 == b) by (nonlinear_arith);
    } else {
        let r: int = trunc_rem(b, a);
        let q: int = trunc_div(b, a);
        let g: int = egcd_spec(r, a).0;
        lemma_trunc_div_rem(b, a);
        lemma_egcd_divides(r, a);
        lemma_divides_combination(g, a, r, q, 1);
        assert(a * q + r * 1 == b) by (nonlinear_arith)
            requires
                b == a * q + r,
        ;
    }
}

/// The magnitude of the divisor returned is the greatest common divisor of the operands.
pub proof fn lemma_egcd_is_gcd(a: int, b: int)
    ensures
        is_gcd(magnitude(egcd_spec(a, b).0), a, b),
        gcd(a, b) == magnitude(egcd_spec(a, b).0),
{
    let t: (int, int, int) = egcd_spec(a, b);
    let g: int = magnitude(t.0);
    lemma_egcd_divides(a, b);
    lemma_egcd_bezout(a, b);
    assert(divides(g, a) && divides(g, b)) by {
        lemma_divides_negated(t.0, a);
        lemma_divides_negated(t.0, b);
    }
    assert forall|d: int| #[trigger] divides(d, a) && divides(d, b) implies divides(d, g) by {
        lemma_divides_combination(d, a, b, t.1, t.2);
        lemma_divides_combination(d, a, b, -t.1, -t.2);
        assert(a * (-t.1) + b * (-t.2) == -t.0) by (nonlinear_arith)
            requires
                a * t.1 + b * t.2 == t.0,
        ;
    }
    lemma_gcd_is(g, a, b);
}

/// Operands that are not negative give a divisor that is not negative: the greatest common
/// divisor itself.
pub proof fn lemma_egcd_of_naturals(a: int, b: int)
    requires
        a >= 0,
        b >= 0,
    ensures
        egcd_spec(a, b).0 == gcd(a, b),
{
    lemma_egcd_is_gcd(a, b);
    lemma_egcd_sign(a, b);
}

/// The size of what the algorithm returns.
///
/// Where `a` is zero the triple is `(b, 0, 1)`, and where `a` is not zero and divides `b` it
/// is `(a, 1, 0)`. In every other case each coefficient is at most half the other operand in
/// magnitude, and the divisor is smaller in magnitude than `a`.
pub proof fn lemma_egcd_bounds(a: int, b: int)
    ensures
        a == 0 ==> egcd_spec(a, b) == (b, 0int, 1int),
        a != 0 && trunc_rem(b, a) == 0 ==> egcd_spec(a, b) == (a, 1int, 0int),
        a != 0 && trunc_rem(b, a) != 0 ==> {
            &&& 2 * magnitude(egcd_spec(a, b).1) <= magnitude(b)
            &&& 2 * magnitude(egcd_spec(a, b).2) <= magnitude(a)
            &&& magnitude(egcd_spec(a, b).0) < magnitude(a)
        },
    decreases magnitude(a),
{
    if a != 0 {
        let r: int = trunc_rem(b, a);
        let q: int = trunc_div(b, a);
        let t: (int, int, int) = egcd_spec(r, a);
        lemma_trunc_div_rem(b, a);
        lemma_egcd_bounds(r, a);
        if r == 0 {
            assert(q * 0 == 0) by (nonlinear_arith);
        } else {
            lemma_trunc_div_rem(a, r);
            let x: int = t.2 - q * t.1;
            if trunc_rem(a, r) == 0 {
                assert(q * 1 == q) by (nonlinear_arith);
                assert(2 * magnitude(q) <= magnitude(a) * magnitude(q)) by (nonlinear_arith)
                    requires
                        magnitude(a) >= 2,
                        magnitude(q) >= 0,
                ;
            } else {
                assert(2 * magnitude(x) <= magnitude(b)) by (nonlinear_arith)
                    requires
                        x == t.2 - q * t.1,
                        2 * magnitude(t.1) <= magnitude(a),
                        2 * magnitude(t.2) <= magnitude(r),
                        magnitude(b) == magnitude(a) * magnitude(q) + magnitude(r),
                        magnitude(x) == (if x < 0 { -x } else { x }),
                        magnitude(q) == (if q < 0 { -q } else { q }),
                        magnitude(t.1) == (if t.1 < 0 { -t.1 } else { t.1 }),
                        magnitude(t.2) == (if t.2 < 0 { -t.2 } else { t.2 }),
                ;
            }
        }
    }
}

/// With a second operand of zero the algorithm returns the first operand as the divisor.
pub proof fn lemma_egcd_second_zero(a: int)
    ensures
        egcd_spec(a, 0).0 == a,
{
    lemma_egcd_bounds(a, 0);
    if a != 0 {
        lemma_trunc_div_rem(0, a);
    }
}

/// Operands that are not negative give a divisor that is not negative.
proof fn lemma_egcd_sign(a: int, b: int)
    requires
        a >= 0,
        b >= 0,
    ensures
        egcd_spec(a, b).0 >= 0,
    decreases a,
{
    if a != 0 {
        lemma_trunc_div_rem(b, a);
        lemma_egcd_sign(trunc_rem(b, a), a);
    }
}

/// The recursion on operands wide enough that no step can overflow.
fn egcd_wide(a: i128, b: i128) -> (r: (i128, i128, i128))
    requires
        i64::MIN <= a <= i64::MAX,
        i64::MIN <= b <= i64::MAX,
    ensures
        (r.0 as int, r.1 as int, r.2 as int) == egcd_spec(a as int, b as int),
    decreases magnitude(a as int),
{
    if is_zero(&a) {
        (b, zero(), one())
    } else {
        proof {
            lemma_trunc_div_rem(b as int, a as int);
            lemma_trunc_is_machine_division(b as int, a as int);
            lemma_egcd_bounds(trunc_rem(b as int, a as int), a as int);
        }
        let (g, x, y): (i128, i128, i128) = egcd_wide(b % a, a);
        let q: i128 = b / a;
        assert(-0x4000_0000_0000_0000_0000_0000_0000_0000 <= q * x
            <= 0x4000_0000_0000_0000_0000_0000_0000_0000) by (nonlinear_arith)
            requires
                -0x8000_0000_0000_0000 <= q <= 0x8000_0000_0000_0000,
                -0x8000_0000_0000_0000 <= x <= 0x8000_0000_0000_0000,
        ;
        (g, y - q * x, x)
    }
}

/// Returns the greatest common divisor of `a` and `b`, up to sign, and the coefficients `x`
/// and `y` with `a * x + b * y` equal to it, as [`egcd_spec`] defines them.
///
/// No pair of operands is excluded, and none is required to be ordered. The steps are
/// carried out on `i128`, so the quotient of `i64::MIN` by `-1` is no obstacle.
pub fn egcd(a: i64, b: i64) -> (r: (i64, i64, i64))
    ensures
        (r.0 as int, r.1 as int, r.2 as int) == egcd_spec(a as int, b as int),
        a * r.1 + b * r.2 == r.0,
        is_gcd(magnitude(r.0 as int), a as int, b as int),
        magnitude(r.0 as int) == gcd(a as int, b as int),
        a >= 0 && b >= 0 ==> r.0 == gcd(a as int, b as int),
        a == 0 ==> r == (b, 0i64, 1i64),
{
    proof {
        lemma_egcd_bounds(a as int, b as int);
        lemma_egcd_bezout(a as int, b as int);
        lemma_egcd_is_gcd(a as int, b as int);
        if a >= 0 && b >= 0 {
            lemma_egcd_of_naturals(a as int, b as int);
        }
    }
    let (g, x, y): (i128, i128, i128) = egcd_wide(a as i128, b as i128);
    (g as i64, x as i64, y as i64)
}

} // verus!
