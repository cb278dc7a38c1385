//! The modular multiplicative inverse.

use crate::divisibility::{
    gcd, is_gcd, lemma_divides_bound, lemma_divides_combination, lemma_divides_multiple,
};
use crate::euclid::{
    egcd, egcd_spec, lemma_egcd_bezout, lemma_egcd_bounds, lemma_egcd_is_gcd,
    lemma_egcd_of_naturals, lemma_egcd_second_zero,
};
use crate::floored::{
    floor_mod, is_residue, lemma_floor_mod_congruent, lemma_floor_mod_equal,
    lemma_floor_mod_of_residue, lemma_floor_mod_residue, mod_floor,
};
use crate::identities::is_one;
use crate::truncated::{magnitude, trunc_div, trunc_rem};
use vstd::arithmetic::div_mod::{lemma_basic_div, lemma_small_mod};
use vstd::prelude::*;

verus! {

/// `x` is an inverse of `a` modulo `m`: the product `a * x` and `1` have the same floored
/// modulus by `m`. Meaningful for `m != 0`.
pub open spec fn is_inverse(x: int, a: int, m: int) -> bool {
    floor_mod(a * x, m) == floor_mod(1, m)
}

/// What [`modinverse`] returns: where the extended Euclidean algorithm on `a` and `m` yields
/// the divisor `1`, the floored modulus by `m` of the coefficient that it yields for `a`, and
/// nothing where it yields any other divisor.
pub open spec fn modinverse_spec(a: int, m: int) -> Option<int> {
    if egcd_spec(a, m).0 == 1 {
        Some(floor_mod(egcd_spec(a, m).1, m))
    } else {
        None
    }
}

/// Where the algorithm yields the divisor `1`, the value of [`modinverse_spec`] is a residue
/// of the modulus and an inverse of `a`.
pub proof fn lemma_modinverse_is_inverse(a: int, m: int)
    requires
        m != 0,
        egcd_spec(a, m).0 == 1,
    ensures
        is_residue(modinverse_spec(a, m)->Some_0, m),
        is_inverse(modinverse_spec(a, m)->Some_0, a, m),
{
    let x0: int = egcd_spec(a, m).1;
    let y0: int = egcd_spec(a, m).2;
    let x: int = floor_mod(x0, m);
    lemma_egcd_bezout(a, m);
    lemma_floor_mod_residue(x0, m);
    let k: int = choose|k: int| x0 - x == #[trigger] (m * k);
    lemma_divides_multiple(m, -(a * k) - y0);
    assert(a * x - 1 == m * (-(a * k) - y0)) by (nonlinear_arith)
        requires
            a * x0 + m * y0 == 1,
            x0 - x == m * k,
    ;
    lemma_floor_mod_congruent(a * x, 1, m);
}

/// An integer has at most one inverse among the residues of a modulus.
pub proof fn lemma_inverse_unique(a: int, m: int, x: int, y: int)
    requires
        m != 0,
        is_residue(x, m),
        is_residue(y, m),
        is_inverse(x, a, m),
        is_inverse(y, a, m),
    ensures
        x == y,
{
    lemma_floor_mod_equal(a * x, 1, m);
    lemma_floor_mod_equal(a * y, 1, m);
    let i: int = choose|k: int| a * x - 1 == #[trigger] (m * k);
    let j: int = choose|k: int| a * y - 1 == #[trigger] (m * k);
    lemma_divides_multiple(m, y * i - x * j);
    assert(x - y == m * (y * i - x * j)) by (nonlinear_arith)
        requires
            a * x - 1 == m * i,
            a * y - 1 == m * j,
    ;
    lemma_floor_mod_congruent(x, y, m);
    lemma_floor_mod_of_residue(x, m);
    lemma_floor_mod_of_residue(y, m);
}

/// Only an integer whose greatest common divisor with the modulus is `1` has an inverse.
pub proof fn lemma_inverse_needs_coprime(a: int, m: int, x: int)
    requires
        m != 0,
        is_inverse(x, a, m),
    ensures
        gcd(a, m) == 1,
{
    lemma_egcd_is_gcd(a, m);
    let g: int = gcd(a, m);
    assert(is_gcd(g, a, m));
    lemma_floor_mod_equal(a * x, 1, m);
    let k: int = choose|k: int| a * x - 1 == #[trigger] (m * k);
    lemma_divides_combination(g, a, m, x, -k);
    assert(a * x + m * (-k) == 1) by (nonlinear_arith)
        requires
            a * x - 1 == m * k,
    ;
    lemma_divides_bound(g, 1);
}

/// Where the greatest common divisor of `a` and `m` is not `1`, [`modinverse_spec`] is `None`.
/// For operands that are not negative the converse holds too.
pub proof fn lemma_modinverse_coprime(a: int, m: int)
    ensures
        gcd(a, m) != 1 ==> modinverse_spec(a, m) is None,
        a >= 0 && m >= 0 && gcd(a, m) == 1 ==> modinverse_spec(a, m) is Some,
{
    lemma_egcd_is_gcd(a, m);
    if a >= 0 && m >= 0 {
        lemma_egcd_of_naturals(a, m);
    }
}

/// Modulo `1` the inverse of every integer but `-1` is `0`. For `-1` the algorithm yields the
/// divisor `-1`, and [`modinverse_spec`] is `None`.
pub proof fn lemma_modinverse_modulus_one(a: int)
    ensures
        a != -1 ==> modinverse_spec(a, 1) == Some(0int),
        modinverse_spec(-1, 1) is None,
{
    lemma_egcd_bounds(a, 1);
    lemma_egcd_bounds(-1, 1);
    assert(trunc_rem(1, -1) == 0);
    if a == 1 {
        assert(trunc_rem(1, 1) == 0);
    } else if a != 0 && a != -1 {
        // The remainder of 1 by a is 1 and the quotient is 0, and 1 divides a.
        lemma_small_mod(1, magnitude(a) as nat);
        lemma_basic_div(1, magnitude(a));
        assert(trunc_rem(1, a) == 1);
        assert(trunc_div(1, a) == 0);
        lemma_egcd_bounds(1, a);
        assert(trunc_rem(a, 1) == 0);
        assert(egcd_spec(1, a) == (1int, 1int, 0int));
        assert(egcd_spec(a, 1) == (1int, 0int, 1int));
    }
}

/// Returns the inverse of `a` modulo `m` among the residues of `m`, or `None`.
///
/// The result is `Some` exactly where the extended Euclidean algorithm on `a` and `m` yields
/// the divisor `1`. Where the greatest common divisor of `a` and `m` is not `1` there is no
/// inverse and the result is `None`. Where it is `1` but the algorithm yields `-1`, which
/// happens only with a negative operand, the result is `None` as well.
///
/// A modulus of zero is admitted unless `a` is `1`, the one case in which the algorithm
/// yields the divisor `1` and the floored modulus by zero would be asked for.
pub fn modinverse(a: i64, m: i64) -> (r: Option<i64>)
    requires
        m == 0 ==> a != 1,
    ensures
        match r {
            Some(x) => modinverse_spec(a as int, m as int) == Some(x as int),
            None => modinverse_spec(a as int, m as int) is None,
        },
        r is Some <==> egcd_spec(a as int, m as int).0 == 1,
        r matches Some(x) ==> {
            &&& m != 0
            &&& is_residue(x as int, m as int)
            &&& is_inverse(x as int, a as int, m as int)
            &&& forall|y: int|
                is_residue(y, m as int) && #[trigger] is_inverse(y, a as int, m as int) ==> y
                    == x
        },
        gcd(a as int, m as int) != 1 ==> {
            &&& r is None
            &&& m != 0 ==> forall|y: int| !#[trigger] is_inverse(y, a as int, m as int)
        },
        a >= 0 && m >= 0 ==> (r is Some <==> gcd(a as int, m as int) == 1),
        m == 1 && a != -1 ==> r == Some(0i64),
{
    proof {
        lemma_egcd_second_zero(a as int);
        lemma_modinverse_coprime(a as int, m as int);
        lemma_modinverse_modulus_one(a as int);
        if m != 0 {
            assert forall|y: int| #[trigger]
                is_inverse(y, a as int, m as int) implies gcd(a as int, m as int) == 1 by {
                lemma_inverse_needs_coprime(a as int, m as int, y);
            }
        }
    }
    let (g, x, _): (i64, i64, i64) = egcd(a, m);
    if !is_one(&g) {
        None
    } else {
        let inverse: i64 = mod_floor(x, m);
        proof {
            lemma_modinverse_is_inverse(a as int, m as int);
            assert forall|y: int|
                is_residue(y, m as int) && #[trigger] is_inverse(
                    y,
                    a as int,
                    m as int,
                ) implies y == inverse by {
                lemma_inverse_unique(a as int, m as int, inverse as int, y);
            }
        }
        Some(inverse)
    }
}

} // verus!
