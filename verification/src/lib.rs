//! The extended Euclidean algorithm and the modular multiplicative inverse on `i64`.
//!
//! Three functions make up the library:
//!
//! - [`egcd`] returns a greatest common divisor of two integers, up to sign, together with
//!   the Bezout coefficients that combine the two integers to it;
//! - [`mod_floor`] returns the floored modulus, the remainder that is zero or of the sign of
//!   the modulus;
//! - [`modinverse`] puts the two together and returns the inverse of an integer modulo
//!   another, or `None`.
//!
//! # Conventions
//!
//! Several variants of the extended Euclidean algorithm exist, and they differ in the
//! coefficients and in the sign of the divisor that they return. This library fixes one:
//!
//! - `egcd(0, b)` is `(b, 0, 1)`, and for `a != 0` the triple of `egcd(a, b)` is derived from
//!   that of `egcd(b % a, a)`, with `/` and `%` rounding toward zero;
//! - the operands need not be ordered, and none is excluded;
//! - the divisor returned may be negative: its magnitude is the greatest common divisor;
//! - `modinverse` returns an inverse only where that divisor is exactly `1`. With a negative
//!   operand the divisor can be `-1`, and `modinverse` then returns `None` although an
//!   inverse exists.
//!
//! A modulus of zero is outside the domain of `mod_floor`.
//!
//! Each function states its result over the mathematical integers: see
//! [`euclid::egcd_spec`], [`floored::floor_mod`] and [`inverse::modinverse_spec`].

pub mod divisibility;
pub mod euclid;
pub mod floored;
mod identities;
pub mod inverse;
pub mod truncated;

pub use crate::euclid::egcd;
pub use crate::floored::mod_floor;
pub use crate::inverse::modinverse;
