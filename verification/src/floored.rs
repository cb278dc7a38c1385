//! The floored modulus: the remainder that takes the sign of the modulus.

use crate::divisibility::{divides, lemma_divides_multiple};
use crate::truncated::{
    lemma_trunc_div_rem, lemma_trunc_is_machine_division, trunc_div, trunc_rem,
};
use vstd::arithmetic::div_mod::{
    lemma_fundamental_div_mod, lemma_mod_bound, lemma_mod_multiples_vanish, lemma_small_mod,
};
use vstd::prelude::*;

verus! {

/// The remainder of `a` by `m` under flooring division: the one integer congruent to `a`
/// modulo `m` that lies in `0 <= r < m` for a positive `m` and in `m < r <= 0` for a negative
/// `m`. Meaningful for `m != 0`.
pub open spec fn floor_mod(a: int, m: int) -> int {
    if m > 0 {
        a % m
    } else {
        -((-a) % (-m))
    }
}

/// `r` lies in the range of residues of the modulus `m`.
pub open spec fn is_residue(r: int, m: int) -> bool {
    if m > 0 {
        0 <= r < m
    } else {
        m < r <= 0
    }
}

/// The floored modulus lies in the range of residues and is congruent to its argument.
pub proof fn lemma_floor_mod_residue(a: int, m: int)
    requires
        m != 0,
    ensures
        is_residue(floor_mod(a, m), m),
        divides(m, a - floor_mod(a, m)),
{
    if m > 0 {
        lemma_fundamental_div_mod(a, m);
        lemma_mod_bound(a, m);
        lemma_divides_multiple(m, a / m);
    } else {
        lemma_fundamental_div_mod(-a, -m);
        lemma_mod_bound(-a, -m);
        let k: int = (-a) / (-m);
        lemma_divides_multiple(m, k);
        assert(a - floor_mod(a, m) == m * k) by (nonlinear_arith)
            requires
                -a == (-m) * k + (-a) % (-m),
                floor_mod(a, m) == -((-a) % (-m)),
        ;
    }
}

/// Integers that differ by a multiple of the modulus have the same floored modulus.
pub proof fn lemma_floor_mod_congruent(a: int, b: int, m: int)
    requires
        m != 0,
        divides(m, a - b),
    ensures
        floor_mod(a, m) == floor_mod(b, m),
{
    let k: int = choose|k: int| a - b == #[trigger] (m * k);
    if m > 0 {
        lemma_mod_multiples_vanish(k, b, m);
        assert(m * k + b == a);
    } else {
        lemma_mod_multiples_vanish(k, -b, -m);
        assert((-m) * k + (-b) == -a) by (nonlinear_arith)
            requires
                a - b == m * k,
        ;
    }
}

/// Integers with the same floored modulus differ by a multiple of the modulus.
pub proof fn lemma_floor_mod_equal(a: int, b: int, m: int)
    requires
        m != 0,
        floor_mod(a, m) == floor_mod(b, m),
    ensures
        divides(m, a - b),
{
    lemma_floor_mod_residue(a, m);
    lemma_floor_mod_residue(b, m);
    let i: int = choose|k: int| a - floor_mod(a, m) == #[trigger] (m * k);
    let j: int = choose|k: int| b - floor_mod(b, m) == #[trigger] (m * k);
    lemma_divides_multiple(m, i - j);
    assert(a - b == m * (i - j)) by (nonlinear_arith)
        requires
            a - floor_mod(a, m) == m * i,
            b - floor_mod(b, m) == m * j,
            floor_mod(a, m) == floor_mod(b, m),
    ;
}

/// A residue of the modulus is its own floored modulus.
pub proof fn lemma_floor_mod_of_residue(r: int, m: int)
    requires
        m != 0,
        is_residue(r, m),
    ensures
        floor_mod(r, m) == r,
{
    if m > 0 {
        lemma_small_mod(r as nat, m as nat);
    } else {
        lemma_small_mod((-r) as nat, (-m) as nat);
    }
}

/// Among the residues of the modulus only the floored modulus is congruent to `a`.
pub proof fn lemma_floor_mod_unique(a: int, m: int, r: int)
    requires
        m != 0,
        is_residue(r, m),
        divides(m, a - r),
    ensures
        r == floor_mod(a, m),
{
    lemma_floor_mod_congruent(a, r, m);
    lemma_floor_mod_of_residue(r, m);
}

/// Taking the floored modulus a second time changes nothing.
pub proof fn lemma_floor_mod_idempotent(a: int, m: int)
    requires
        m != 0,
    ensures
        floor_mod(floor_mod(a, m), m) == floor_mod(a, m),
{
    lemma_floor_mod_residue(a, m);
    lemma_floor_mod_of_residue(floor_mod(a, m), m);
}

/// The floored modulus is the truncated remainder, shifted by the modulus and reduced once
/// more.
pub proof fn lemma_floor_mod_by_remainders(a: int, m: int)
    requires
        m != 0,
    ensures
        trunc_rem(trunc_rem(a, m) + m, m) == floor_mod(a, m),
{
    let t: int = trunc_rem(a, m);
    let q: int = trunc_div(a, m);
    let s: int = t + m;
    lemma_trunc_div_rem(a, m);
    lemma_trunc_div_rem(s, m);
    let r: int = trunc_rem(s, m);
    let p: int = trunc_div(s, m);
    // r is a residue of m, and differs from a by a multiple of m.
    assert(is_residue(r, m));
    lemma_divides_multiple(m, q + p - 1);
    assert(a - r == m * (q + p - 1)) by (nonlinear_arith)
        requires
            a == m * q + t,
            t + m == m * p + r,
    ;
    lemma_floor_mod_unique(a, m, r);
}

/// Returns the floored modulus of `a` by `m`: the residue of `a` that is zero or of the sign
/// of `m`.
///
/// The modulus must not be zero. The value is computed as the remainder of `a` by `m`, plus
/// `m`, reduced by `m` again, on `i128`, where the sum cannot overflow.
pub fn mod_floor(a: i64, m: i64) -> (r: i64)
    requires
        m != 0,
    ensures
        r == floor_mod(a as int, m as int),
        m > 0 ==> 0 <= r < m,
        m < 0 ==> m < r <= 0,
        divides(m as int, a - r),
{
    let wide_a: i128 = a as i128;
    let wide_m: i128 = m as i128;
    proof {
        lemma_trunc_div_rem(a as int, m as int);
        lemma_trunc_is_machine_division(a as int, m as int);
        lemma_trunc_is_machine_division(trunc_rem(a as int, m as int) + m, m as int);
        lemma_floor_mod_by_remainders(a as int, m as int);
        lemma_floor_mod_residue(a as int, m as int);
    }
    let r: i128 = (wide_a % wide_m + wide_m) % wide_m;
    r as i64
}

} // verus!
