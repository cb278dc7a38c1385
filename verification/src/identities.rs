//! The additive and multiplicative identities, taken from `num_traits`.
//!
//! Nothing here is proved: each contract restates what the source of `num_traits` shows for
//! the primitive integer type in question.

use vstd::prelude::*;

verus! {

/// Calls `num_traits::Zero::is_zero` for `i128`, which compares its argument with the
/// literal `0`: the result is `true` exactly for zero.
#[verifier::external_body]
pub(crate) fn is_zero(a: &i128) -> (r: bool)
    ensures
        r == (*a == 0),
{
    num_traits::Zero::is_zero(a)
}

/// Calls `num_traits::Zero::zero` for `i128`, which returns the literal `0`.
#[verifier::external_body]
pub(crate) fn zero() -> (r: i128)
    ensures
        r == 0,
{
    num_traits::Zero::zero()
}

/// Calls `num_traits::One::one` for `i128`, which returns the literal `1`.
#[verifier::external_body]
pub(crate) fn one() -> (r: i128)
    ensures
        r == 1,
{
    num_traits::One::one()
}

/// Calls `num_traits::One::is_one` for `i64`, which compares its argument with the literal
/// `1`: the result is `true` exactly for one.
#[verifier::external_body]
pub(crate) fn is_one(a: &i64) -> (r: bool)
    ensures
        r == (*a == 1),
{
    num_traits::One::is_one(a)
}

} // verus!
