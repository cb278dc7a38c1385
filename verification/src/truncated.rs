//! Division that rounds toward zero, as the machine's `/` and `%` do on signed integers.
//!
//! Specifications in Verus use Euclidean division, whose remainder is never negative. The
//! quotient and remainder of this module follow the sign of the dividend instead.

use vstd::arithmetic::div_mod::{lemma_fundamental_div_mod, lemma_mod_bound};
use vstd::prelude::*;

verus! {

/// The absolute value of `x`.
pub open spec fn magnitude(x: int) -> int {
    if x < 0 {
        -x
    } else {
        x
    }
}

/// The quotient of `n` by `d`, rounded toward zero. Meaningful for `d != 0`.
pub open spec fn trunc_div(n: int, d: int) -> int {
    if (n < 0) == (d < 0) {
        magnitude(n) / magnitude(d)
    } else {
        -(magnitude(n) / magnitude(d))
    }
}

/// The remainder that goes with [`trunc_div`]: zero, or of the sign of `n`. Meaningful for
/// `d != 0`.
pub open spec fn trunc_rem(n: int, d: int) -> int {
    if n < 0 {
        -(magnitude(n) % magnitude(d))
    } else {
        magnitude(n) % magnitude(d)
    }
}

/// Quotient and remainder recompose the dividend, and the remainder is smaller in magnitude
/// than the divisor and never of the sign opposite to the dividend's.
pub proof fn lemma_trunc_div_rem(n: int, d: int)
    requires
        d != 0,
    ensures
        n == d * trunc_div(n, d) + trunc_rem(n, d),
        magnitude(n) == magnitude(d) * magnitude(trunc_div(n, d)) + magnitude(trunc_rem(n, d)),
        magnitude(trunc_rem(n, d)) < magnitude(d),
        n >= 0 ==> trunc_rem(n, d) >= 0,
        n <= 0 ==> trunc_rem(n, d) <= 0,
{
    let an: int = magnitude(n);
    let ad: int = magnitude(d);
    lemma_fundamental_div_mod(an, ad);
    lemma_mod_bound(an, ad);
    let q: int = an / ad;
    assert(0 <= q) by (nonlinear_arith)
        requires
            an == ad * q + an % ad,
            0 <= an % ad < ad,
            0 <= an,
    ;
    assert(d * trunc_div(n, d) == if n < 0 { -(ad * q) } else { ad * q }) by (nonlinear_arith)
        requires
            ad == (if d < 0 { -d } else { d }),
            trunc_div(n, d) == (if (n < 0) == (d < 0) { q } else { -q }),
    ;
    assert(magnitude(trunc_div(n, d)) == q);
}

/// On operands of a machine type, `/` and `%` compute [`trunc_div`] and [`trunc_rem`]: for a
/// dividend that is not negative the Euclidean quotient and remainder, for a negative one
/// those of its negation, negated.
pub proof fn lemma_trunc_is_machine_division(n: int, d: int)
    requires
        d != 0,
    ensures
        trunc_div(n, d) == (if n >= 0 { n / d } else { -((-n) / d) }),
        trunc_rem(n, d) == (if n >= 0 { n % d } else { -((-n) % d) }),
{
    let an: int = magnitude(n);
    let ad: int = magnitude(d);
    lemma_fundamental_div_mod(an, ad);
    lemma_mod_bound(an, ad);
    lemma_fundamental_div_mod(an, d);
    if d < 0 {
        assert(an % d == an % ad && an / d == -(an / ad)) by (nonlinear_arith)
            requires
                d < 0,
                ad == -d,
                an == ad * (an / ad) + an % ad,
                0 <= an % ad < ad,
                an == d * (an / d) + an % d,
        ;
    }
}

} // verus!
