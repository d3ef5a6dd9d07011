//! The scalar capability a caller supplies to the complex arithmetic and
//! the transforms.

use vstd::prelude::*;

verus! {

/// The minimal capability set a scalar must provide: field operations, a
/// zero test, square root, circular and hyperbolic trigonometry, exponential
/// and logarithmic functions, and conversions from small integers.
///
/// Each executable operation is paired with a specification function that
/// names its result; an implementation promises only that the operation
/// agrees with its own specification-level denotation. Every contract in
/// this crate is stated over those denotations, so what is proved holds for
/// any implementation that keeps that promise — a double-precision float,
/// for instance, supplied by the embedding program or by a test.
pub trait Scalar: Sized + Copy {
    spec fn spec_add(self, rhs: Self) -> Self;

    spec fn spec_sub(self, rhs: Self) -> Self;

    spec fn spec_mul(self, rhs: Self) -> Self;

    spec fn spec_div(self, rhs: Self) -> Self;

    spec fn spec_neg(self) -> Self;

    spec fn spec_zero() -> Self;

    spec fn spec_one() -> Self;

    spec fn spec_is_zero(self) -> bool;

    spec fn spec_sqrt(self) -> Self;

    spec fn spec_sin(self) -> Self;

    spec fn spec_cos(self) -> Self;

    spec fn spec_atan2(self, x: Self) -> Self;

    spec fn spec_sinh(self) -> Self;

    spec fn spec_cosh(self) -> Self;

    spec fn spec_exp(self) -> Self;

    spec fn spec_ln(self) -> Self;

    spec fn spec_log(self, base: Self) -> Self;

    spec fn spec_powi(self, e: i32) -> Self;

    spec fn spec_powf(self, e: Self) -> Self;

    spec fn spec_from_i32(v: i32) -> Self;

    spec fn spec_from_usize(v: usize) -> Self;

    spec fn spec_two_pi() -> Self;

    fn add(self, rhs: Self) -> (r: Self)
        ensures
            r == self.spec_add(rhs),
    ;

    fn sub(self, rhs: Self) -> (r: Self)
        ensures
            r == self.spec_sub(rhs),
    ;

    fn mul(self, rhs: Self) -> (r: Self)
        ensures
            r == self.spec_mul(rhs),
    ;

    fn div(self, rhs: Self) -> (r: Self)
        ensures
            r == self.spec_div(rhs),
    ;

    fn neg(self) -> (r: Self)
        ensures
            r == self.spec_neg(),
    ;

    fn zero() -> (r: Self)
        ensures
            r == Self::spec_zero(),
    ;

    fn one() -> (r: Self)
        ensures
            r == Self::spec_one(),
    ;

    fn is_zero(self) -> (r: bool)
        ensures
            r == self.spec_is_zero(),
    ;

    fn sqrt(self) -> (r: Self)
        ensures
            r == self.spec_sqrt(),
    ;

    fn sin(self) -> (r: Self)
        ensures
            r == self.spec_sin(),
    ;

    fn cos(self) -> (r: Self)
        ensures
            r == self.spec_cos(),
    ;

    fn atan2(self, x: Self) -> (r: Self)
        ensures
            r == self.spec_atan2(x),
    ;

    fn sinh(self) -> (r: Self)
        ensures
            r == self.spec_sinh(),
    ;

    fn cosh(self) -> (r: Self)
        ensures
            r == self.spec_cosh(),
    ;

    fn exp(self) -> (r: Self)
        ensures
            r == self.spec_exp(),
    ;

    fn ln(self) -> (r: Self)
        ensures
            r == self.spec_ln(),
    ;

    fn log(self, base: Self) -> (r: Self)
        ensures
            r == self.spec_log(base),
    ;

    fn powi(self, e: i32) -> (r: Self)
        ensures
            r == self.spec_powi(e),
    ;

    fn powf(self, e: Self) -> (r: Self)
        ensures
            r == self.spec_powf(e),
    ;

    fn from_i32(v: i32) -> (r: Self)
        ensures
            r == Self::spec_from_i32(v),
    ;

    fn from_usize(v: usize) -> (r: Self)
        ensures
            r == Self::spec_from_usize(v),
    ;

    fn two_pi() -> (r: Self)
        ensures
            r == Self::spec_two_pi(),
    ;

    /// Negation undoes itself: an implementation's negation must be an
    /// involution on its values. IEEE floating point keeps this
    /// bit-for-bit, since its negation only flips the sign; no further
    /// algebraic law is demanded, because none other holds exactly of
    /// floats on every input.
    proof fn lemma_neg_involution(self)
        ensures
            self.spec_neg().spec_neg() == self,
    ;
}

} // verus!
