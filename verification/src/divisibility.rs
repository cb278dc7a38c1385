//! Divisibility and the greatest common divisor of two integers.

use crate::truncated::magnitude;
use vstd::prelude::*;

verus! {

/// `d` divides `n`: `n` is an integer multiple of `d`. Only zero is a multiple of zero.
pub open spec fn divides(d: int, n: int) -> bool {
    exists|k: int| n == #[trigger] (d * k)
}

/// `g` is the greatest common divisor of `a` and `b`: it is not negative, it divides both, and
/// every integer that divides both divides it. The greatest common divisor of zero and zero
/// is zero.
pub open spec fn is_gcd(g: int, a: int, b: int) -> bool {
    &&& g >= 0
    &&& divides(g, a)
    &&& divides(g, b)
    &&& forall|d: int| #[trigger] divides(d, a) && divides(d, b) ==> divides(d, g)
}

/// The greatest common divisor of `a` and `b`. [`lemma_gcd_unique`] shows that at most one
/// integer qualifies, [`crate::euclid::lemma_egcd_is_gcd`] that one does.
pub open spec fn gcd(a: int, b: int) -> int {
    choose|g: int| is_gcd(g, a, b)
}

/// Every product with `d` is a multiple of `d`.
pub proof fn lemma_divides_multiple(d: int, k: int)
    ensures
        divides(d, d * k),
        divides(d, k * d),
{
    assert(k * d == d * k) by (nonlinear_arith);
}

/// `d` and `-d` divide the same integers.
pub proof fn lemma_divides_negated(d: int, n: int)
    requires
        divides(d, n),
    ensures
        divides(-d, n),
        divides(magnitude(d), n),
{
    let k: int = choose|k: int| n == #[trigger] (d * k);
    assert(n == (-d) * (-k)) by (nonlinear_arith)
        requires
            n == d * k,
    ;
}

/// A common divisor of `a` and `b` divides every integer combination of them.
pub proof fn lemma_divides_combination(d: int, a: int, b: int, x: int, y: int)
    requires
        divides(d, a),
        divides(d, b),
    ensures
        divides(d, a * x + b * y),
{
    let i: int = choose|k: int| a == #[trigger] (d * k);
    let j: int = choose|k: int| b == #[trigger] (d * k);
    assert(a * x + b * y == d * (i * x + j * y)) by (nonlinear_arith)
        requires
            a == d * i,
            b == d * j,
    ;
}

/// A divisor of a non-zero integer is not larger in magnitude.
pub proof fn lemma_divides_bound(d: int, n: int)
    requires
        divides(d, n),
        n != 0,
    ensures
        d != 0,
        magnitude(d) <= magnitude(n),
{
    let k: int = choose|k: int| n == #[trigger] (d * k);
    assert(d != 0 && magnitude(d) <= magnitude(n)) by (nonlinear_arith)
        requires
            n == d * k,
            n != 0,
            magnitude(d) == (if d < 0 { -d } else { d }),
            magnitude(n) == (if n < 0 { -n } else { n }),
    ;
}

/// Two integers that divide each other agree up to sign.
pub proof fn lemma_divides_antisymmetric(a: int, b: int)
    requires
        divides(a, b),
        divides(b, a),
    ensures
        magnitude(a) == magnitude(b),
{
    if a == 0 {
        let k: int = choose|k: int| b == #[trigger] (a * k);
        assert(a * k == 0) by (nonlinear_arith)
            requires
                a == 0,
        ;
    } else if b == 0 {
        let k: int = choose|k: int| a == #[trigger] (b * k);
        assert(b * k == 0) by (nonlinear_arith)
            requires
                b == 0,
        ;
    } else {
        lemma_divides_bound(a, b);
        lemma_divides_bound(b, a);
    }
}

/// Unless both integers are zero, their greatest common divisor is positive and no integer
/// that divides both is larger.
pub proof fn lemma_gcd_is_largest(g: int, a: int, b: int, d: int)
    requires
        is_gcd(g, a, b),
        a != 0 || b != 0,
        divides(d, a),
        divides(d, b),
    ensures
        g > 0,
        d <= g,
{
    if a != 0 {
        lemma_divides_bound(g, a);
    } else {
        lemma_divides_bound(g, b);
    }
    lemma_divides_bound(d, g);
}

/// A pair of integers has at most one greatest common divisor.
pub proof fn lemma_gcd_unique(g: int, h: int, a: int, b: int)
    requires
        is_gcd(g, a, b),
        is_gcd(h, a, b),
    ensures
        g == h,
{
    lemma_divides_antisymmetric(g, h);
}

/// Whatever satisfies [`is_gcd`] is the value of [`gcd`].
pub proof fn lemma_gcd_is(g: int, a: int, b: int)
    requires
        is_gcd(g, a, b),
    ensures
        gcd(a, b) == g,
{
    lemma_gcd_unique(gcd(a, b), g, a, b);
}

} // verus!
