//! Complex numbers over an abstract scalar: rectangular arithmetic, polar
//! conversion, and the transcendental functions defined through polar-form
//! or exponential identities.

use vstd::prelude::*;
use crate::errors::MathError;
use crate::scalar::Scalar;

verus! {

/// An immutable pair (real, imaginary) with value semantics.
#[derive(Clone, Copy, Debug)]
pub struct Complex<T: Scalar> {
    pub real: T,
    pub imag: T,
}

/// The accessors every complex representation offers.
pub trait ComplexTrait<T: Scalar>: Sized {
    fn new(re: T, im: T) -> Self;

    fn real_part(&self) -> T;

    fn imag(&self) -> T;

    fn magnitude(&self) -> T;

    fn phase(&self) -> T;

    fn conjugate(&self) -> Self;

    fn i() -> Self;
}

/// Componentwise sum.
pub open spec fn cadd<T: Scalar>(a: Complex<T>, b: Complex<T>) -> Complex<T> {
    Complex { real: a.real.spec_add(b.real), imag: a.imag.spec_add(b.imag) }
}

/// Componentwise difference.
pub open spec fn csub<T: Scalar>(a: Complex<T>, b: Complex<T>) -> Complex<T> {
    Complex { real: a.real.spec_sub(b.real), imag: a.imag.spec_sub(b.imag) }
}

/// The product (ac - bd) + (ad + bc)i.
pub open spec fn cmul<T: Scalar>(a: Complex<T>, b: Complex<T>) -> Complex<T> {
    Complex {
        real: a.real.spec_mul(b.real).spec_sub(a.imag.spec_mul(b.imag)),
        imag: a.real.spec_mul(b.imag).spec_add(a.imag.spec_mul(b.real)),
    }
}

/// Componentwise negation.
pub open spec fn cneg<T: Scalar>(a: Complex<T>) -> Complex<T> {
    Complex { real: a.real.spec_neg(), imag: a.imag.spec_neg() }
}

/// The conjugate a - bi.
pub open spec fn cconj<T: Scalar>(a: Complex<T>) -> Complex<T> {
    Complex { real: a.real, imag: a.imag.spec_neg() }
}

/// Conjugation is an involution: applied twice it gives back the value
/// exactly, since the scalar's negation is one. The companion identity —
/// that conjugation preserves the magnitude — is not stated: it would need
/// (-b)·(-b) == b·b of the scalar, which IEEE arithmetic does not keep
/// bit-for-bit on every input.
pub proof fn lemma_conjugate_involution<T: Scalar>(z: Complex<T>)
    ensures
        cconj(cconj(z)) == z,
{
    z.imag.lemma_neg_involution();
}

/// The squared magnitude a² + b².
pub open spec fn sq_norm<T: Scalar>(a: Complex<T>) -> T {
    a.real.spec_mul(a.real).spec_add(a.imag.spec_mul(a.imag))
}

/// The quotient, with both components divided by the squared magnitude of
/// the divisor; meaningful only when that denominator is not zero.
pub open spec fn cdiv<T: Scalar>(a: Complex<T>, b: Complex<T>) -> Complex<T> {
    Complex {
        real: a.real.spec_mul(b.real).spec_add(a.imag.spec_mul(b.imag)).spec_div(sq_norm(b)),
        imag: a.imag.spec_mul(b.real).spec_sub(a.real.spec_mul(b.imag)).spec_div(sq_norm(b)),
    }
}

/// The zero complex value.
pub open spec fn czero<T: Scalar>() -> Complex<T> {
    Complex { real: T::spec_zero(), imag: T::spec_zero() }
}

/// The unit complex value.
pub open spec fn cone<T: Scalar>() -> Complex<T> {
    Complex { real: T::spec_one(), imag: T::spec_zero() }
}

/// The magnitude sqrt(a² + b²).
pub open spec fn cmag<T: Scalar>(a: Complex<T>) -> T {
    sq_norm(a).spec_sqrt()
}

/// The phase atan2(b, a).
pub open spec fn cphase<T: Scalar>(a: Complex<T>) -> T {
    a.imag.spec_atan2(a.real)
}

/// (r cos θ, r sin θ).
pub open spec fn c_from_polar<T: Scalar>(magnitude: T, phase: T) -> Complex<T> {
    Complex {
        real: magnitude.spec_mul(phase.spec_cos()),
        imag: magnitude.spec_mul(phase.spec_sin()),
    }
}

/// sin z = sin(a)·cosh(b) + i·cos(a)·sinh(b).
pub open spec fn csin<T: Scalar>(a: Complex<T>) -> Complex<T> {
    Complex {
        real: a.real.spec_sin().spec_mul(a.imag.spec_cosh()),
        imag: a.real.spec_cos().spec_mul(a.imag.spec_sinh()),
    }
}

/// cos z = cos(a)·cosh(b) - i·sin(a)·sinh(b).
pub open spec fn ccos<T: Scalar>(a: Complex<T>) -> Complex<T> {
    Complex {
        real: a.real.spec_cos().spec_mul(a.imag.spec_cosh()),
        imag: a.real.spec_sin().spec_mul(a.imag.spec_sinh()).spec_neg(),
    }
}

/// sinh z = sinh(a)·cos(b) + i·cosh(a)·sin(b).
pub open spec fn csinh<T: Scalar>(a: Complex<T>) -> Complex<T> {
    Complex {
        real: a.real.spec_sinh().spec_mul(a.imag.spec_cos()),
        imag: a.real.spec_cosh().spec_mul(a.imag.spec_sin()),
    }
}

/// cosh z = cosh(a)·cos(b) + i·sinh(a)·sin(b).
pub open spec fn ccosh<T: Scalar>(a: Complex<T>) -> Complex<T> {
    Complex {
        real: a.real.spec_cosh().spec_mul(a.imag.spec_cos()),
        imag: a.real.spec_sinh().spec_mul(a.imag.spec_sin()),
    }
}

impl<T: Scalar> Complex<T> {
    /// The pair (real, imag).
    pub fn new(re: T, im: T) -> (r: Self)
        ensures
            r.real == re,
            r.imag == im,
    {
        Complex { real: re, imag: im }
    }

    /// The real component.
    pub fn real_part(&self) -> (r: T)
        ensures
            r == self.real,
    {
        self.real
    }

    /// The imaginary component.
    pub fn imag(&self) -> (r: T)
        ensures
            r == self.imag,
    {
        self.imag
    }

    /// sqrt(a² + b²).
    pub fn magnitude(&self) -> (r: T)
        ensures
            r == cmag(*self),
    {
        self.real.mul(self.real).add(self.imag.mul(self.imag)).sqrt()
    }

    /// atan2(b, a).
    pub fn phase(&self) -> (r: T)
        ensures
            r == cphase(*self),
    {
        self.imag.atan2(self.real)
    }

    /// The conjugate a - bi.
    pub fn conjugate(&self) -> (r: Self)
        ensures
            r == cconj(*self),
    {
        Complex { real: self.real, imag: self.imag.neg() }
    }

    /// The imaginary unit i.
    pub fn i() -> (r: Self)
        ensures
            r.real == T::spec_zero(),
            r.imag == T::spec_one(),
    {
        Complex { real: T::zero(), imag: T::one() }
    }

    /// The zero complex value.
    pub fn zero() -> (r: Self)
        ensures
            r == czero::<T>(),
    {
        Complex { real: T::zero(), imag: T::zero() }
    }

    /// Both components are the zero scalar.
    pub fn is_zero(&self) -> (r: bool)
        ensures
            r == (self.real.spec_is_zero() && self.imag.spec_is_zero()),
    {
        self.real.is_zero() && self.imag.is_zero()
    }

    /// The unit complex value.
    pub fn one() -> (r: Self)
        ensures
            r == cone::<T>(),
    {
        Complex { real: T::one(), imag: T::zero() }
    }

    /// The real component is one and the imaginary component zero.
    pub fn is_one(&self) -> (r: bool)
        ensures
            r == (self.real.spec_sub(T::spec_one()).spec_is_zero() && self.imag.spec_is_zero()),
    {
        self.real.sub(T::one()).is_zero() && self.imag.is_zero()
    }

    /// A real value promoted to a complex one.
    pub fn from_real(value: T) -> (r: Self)
        ensures
            r.real == value,
            r.imag == T::spec_zero(),
    {
        Complex { real: value, imag: T::zero() }
    }

    /// Componentwise sum.
    pub fn add(self, other: Self) -> (r: Self)
        ensures
            r == cadd(self, other),
    {
        Complex { real: self.real.add(other.real), imag: self.imag.add(other.imag) }
    }

    /// Componentwise difference.
    pub fn sub(self, other: Self) -> (r: Self)
        ensures
            r == csub(self, other),
    {
        Complex { real: self.real.sub(other.real), imag: self.imag.sub(other.imag) }
    }

    /// (ac - bd) + (ad + bc)i.
    pub fn mul(self, other: Self) -> (r: Self)
        ensures
            r == cmul(self, other),
    {
        let re = self.real.mul(other.real).sub(self.imag.mul(other.imag));
        let im = self.real.mul(other.imag).add(self.imag.mul(other.real));
        Complex { real: re, imag: im }
    }

    /// Division; fails when the squared magnitude of the divisor is exactly
    /// the zero scalar.
    pub fn div(self, other: Self) -> (r: Result<Self, MathError>)
        ensures
            (if sq_norm(other).spec_is_zero() {
                r == Err::<Complex<T>, MathError>(MathError::DivisionByZero)
            } else {
                r == Ok::<Complex<T>, MathError>(cdiv(self, other))
            }),
    {
        let denom = other.real.mul(other.real).add(other.imag.mul(other.imag));
        if denom.is_zero() {
            return Err(MathError::DivisionByZero);
        }
        let re = self.real.mul(other.real).add(self.imag.mul(other.imag)).div(denom);
        let im = self.imag.mul(other.real).sub(self.real.mul(other.imag)).div(denom);
        Ok(Complex { real: re, imag: im })
    }

    /// Componentwise negation.
    pub fn neg(self) -> (r: Self)
        ensures
            r == cneg(self),
    {
        Complex { real: self.real.neg(), imag: self.imag.neg() }
    }

    /// (r cos θ, r sin θ).
    pub fn from_polar(magnitude: T, phase: T) -> (r: Self)
        ensures
            r == c_from_polar(magnitude, phase),
    {
        Complex { real: magnitude.mul(phase.cos()), imag: magnitude.mul(phase.sin()) }
    }

    /// The pair (magnitude, phase).
    pub fn to_polar(&self) -> (r: (T, T))
        ensures
            r.0 == cmag(*self),
            r.1 == cphase(*self),
    {
        (self.magnitude(), self.phase())
    }

    /// The magnitude, under its usual name for real numbers.
    pub fn abs(&self) -> (r: T)
        ensures
            r == cmag(*self),
    {
        self.magnitude()
    }

    /// Square root by halving the phase in polar form.
    pub fn sqrt(&self) -> (r: Self)
        ensures
            r == c_from_polar(cmag(*self).spec_sqrt(), cphase(*self).spec_div(T::spec_from_i32(2))),
    {
        let root = self.magnitude().sqrt();
        let theta = self.phase().div(T::from_i32(2));
        Complex::from_polar(root, theta)
    }

    /// Integer power by polar-form exponentiation: rᵏ and θ·k.
    pub fn powi(&self, exponent: i32) -> (r: Self)
        ensures
            r == c_from_polar(
                cmag(*self).spec_powi(exponent),
                cphase(*self).spec_mul(T::spec_from_i32(exponent)),
            ),
    {
        let root = self.magnitude().powi(exponent);
        let theta = self.phase().mul(T::from_i32(exponent));
        Complex::from_polar(root, theta)
    }

    /// Real power by polar-form exponentiation: r^e and θ·e.
    pub fn powf(&self, exponent: T) -> (r: Self)
        ensures
            r == c_from_polar(cmag(*self).spec_powf(exponent), cphase(*self).spec_mul(exponent)),
    {
        let root = self.magnitude().powf(exponent);
        let theta = self.phase().mul(exponent);
        Complex::from_polar(root, theta)
    }

    /// e^z = e^a (cos b + i sin b).
    pub fn exp(&self) -> (r: Self)
        ensures
            r.real == self.real.spec_exp().spec_mul(self.imag.spec_cos()),
            r.imag == self.real.spec_exp().spec_mul(self.imag.spec_sin()),
    {
        let exp_real = self.real.exp();
        Complex { real: exp_real.mul(self.imag.cos()), imag: exp_real.mul(self.imag.sin()) }
    }

    /// ln z = ln r + iθ.
    pub fn ln(&self) -> (r: Self)
        ensures
            r.real == cmag(*self).spec_ln(),
            r.imag == cphase(*self),
    {
        Complex { real: self.magnitude().ln(), imag: self.phase() }
    }

    /// log_base z = log_base r + iθ.
    pub fn log(&self, base: T) -> (r: Self)
        ensures
            r.real == cmag(*self).spec_log(base),
            r.imag == cphase(*self),
    {
        Complex { real: self.magnitude().log(base), imag: self.phase() }
    }

    /// sin z through the circular/hyperbolic identity.
    pub fn sin(&self) -> (r: Self)
        ensures
            r == csin(*self),
    {
        Complex {
            real: self.real.sin().mul(self.imag.cosh()),
            imag: self.real.cos().mul(self.imag.sinh()),
        }
    }

    /// The polar-form arcsine counterpart: (sin θ / r, cos θ / r).
    pub fn asin(&self) -> (r: Self)
        ensures
            r.real == cphase(*self).spec_sin().spec_div(cmag(*self)),
            r.imag == cphase(*self).spec_cos().spec_div(cmag(*self)),
    {
        let root = self.magnitude();
        let theta = self.phase();
        Complex { real: theta.sin().div(root), imag: theta.cos().div(root) }
    }

    /// cos z through the circular/hyperbolic identity.
    pub fn cos(&self) -> (r: Self)
        ensures
            r == ccos(*self),
    {
        Complex {
            real: self.real.cos().mul(self.imag.cosh()),
            imag: self.real.sin().mul(self.imag.sinh()).neg(),
        }
    }

    /// The polar-form arccosine counterpart: (cos θ / r, -sin θ / r).
    pub fn acos(&self) -> (r: Self)
        ensures
            r.real == cphase(*self).spec_cos().spec_div(cmag(*self)),
            r.imag == cphase(*self).spec_sin().spec_div(cmag(*self)).spec_neg(),
    {
        let root = self.magnitude();
        let theta = self.phase();
        Complex { real: theta.cos().div(root), imag: theta.sin().div(root).neg() }
    }

    /// sin z / cos z; fails when cos z is exactly the zero complex value,
    /// and when the division itself has a zero denominator.
    pub fn tan(&self) -> (r: Result<Self, MathError>)
        ensures
            (if ccos(*self).real.spec_is_zero() && ccos(*self).imag.spec_is_zero() {
                r == Err::<Complex<T>, MathError>(MathError::DivisionByZero)
            } else if sq_norm(ccos(*self)).spec_is_zero() {
                r == Err::<Complex<T>, MathError>(MathError::DivisionByZero)
            } else {
                r == Ok::<Complex<T>, MathError>(cdiv(csin(*self), ccos(*self)))
            }),
    {
        let denom = self.cos();
        if denom.real.is_zero() && denom.imag.is_zero() {
            return Err(MathError::DivisionByZero);
        }
        self.sin().div(denom)
    }

    /// The polar-form arctangent counterpart: (sin θ / r, cos θ / r).
    pub fn atan(&self) -> (r: Self)
        ensures
            r.real == cphase(*self).spec_sin().spec_div(cmag(*self)),
            r.imag == cphase(*self).spec_cos().spec_div(cmag(*self)),
    {
        let root = self.magnitude();
        let theta = self.phase();
        Complex { real: theta.sin().div(root), imag: theta.cos().div(root) }
    }

    /// The polar decomposition of the point (x, y): magnitude and atan2.
    pub fn atan2(y: T, x: T) -> (r: Self)
        ensures
            r.real == x.spec_mul(x).spec_add(y.spec_mul(y)).spec_sqrt(),
            r.imag == y.spec_atan2(x),
    {
        let root = x.mul(x).add(y.mul(y)).sqrt();
        let theta = y.atan2(x);
        Complex { real: root, imag: theta }
    }

    /// sinh z through the hyperbolic/circular identity.
    pub fn sinh(&self) -> (r: Self)
        ensures
            r == csinh(*self),
    {
        Complex {
            real: self.real.sinh().mul(self.imag.cos()),
            imag: self.real.cosh().mul(self.imag.sin()),
        }
    }

    /// The polar-form hyperbolic arcsine counterpart.
    pub fn asinh(&self) -> (r: Self)
        ensures
            r.real == cphase(*self).spec_sinh().spec_div(cmag(*self)),
            r.imag == cphase(*self).spec_cosh().spec_div(cmag(*self)),
    {
        let root = self.magnitude();
        let theta = self.phase();
        Complex { real: theta.sinh().div(root), imag: theta.cosh().div(root) }
    }

    /// cosh z through the hyperbolic/circular identity.
    pub fn cosh(&self) -> (r: Self)
        ensures
            r == ccosh(*self),
    {
        Complex {
            real: self.real.cosh().mul(self.imag.cos()),
            imag: self.real.sinh().mul(self.imag.sin()),
        }
    }

    /// The polar-form hyperbolic arccosine counterpart.
    pub fn acosh(&self) -> (r: Self)
        ensures
            r.real == cphase(*self).spec_cosh().spec_div(cmag(*self)),
            r.imag == cphase(*self).spec_sinh().spec_div(cmag(*self)),
    {
        let root = self.magnitude();
        let theta = self.phase();
        Complex { real: theta.cosh().div(root), imag: theta.sinh().div(root) }
    }

    /// sinh z / cosh z; fails when cosh z is exactly the zero complex value,
    /// and when the division itself has a zero denominator.
    pub fn tanh(&self) -> (r: Result<Self, MathError>)
        ensures
            (if ccosh(*self).real.spec_is_zero() && ccosh(*self).imag.spec_is_zero() {
                r == Err::<Complex<T>, MathError>(MathError::DivisionByZero)
            } else if sq_norm(ccosh(*self)).spec_is_zero() {
                r == Err::<Complex<T>, MathError>(MathError::DivisionByZero)
            } else {
                r == Ok::<Complex<T>, MathError>(cdiv(csinh(*self), ccosh(*self)))
            }),
    {
        let denom = self.cosh();
        if denom.real.is_zero() && denom.imag.is_zero() {
            return Err(MathError::DivisionByZero);
        }
        self.sinh().div(denom)
    }

    /// The polar-form hyperbolic arctangent counterpart.
    pub fn atanh(&self) -> (r: Self)
        ensures
            r.real == cphase(*self).spec_sinh().spec_div(cmag(*self)),
            r.imag == cphase(*self).spec_cosh().spec_div(cmag(*self)),
    {
        let root = self.magnitude();
        let theta = self.phase();
        Complex { real: theta.sinh().div(root), imag: theta.cosh().div(root) }
    }
}

impl<T: Scalar> ComplexTrait<T> for Complex<T> {
    fn new(re: T, im: T) -> Self {
        Complex { real: re, imag: im }
    }

    fn real_part(&self) -> T {
        self.real
    }

    fn imag(&self) -> T {
        self.imag
    }

    fn magnitude(&self) -> T {
        self.real.mul(self.real).add(self.imag.mul(self.imag)).sqrt()
    }

    fn phase(&self) -> T {
        self.imag.atan2(self.real)
    }

    fn conjugate(&self) -> Self {
        Complex { real: self.real, imag: self.imag.neg() }
    }

    fn i() -> Self {
        Complex { real: T::zero(), imag: T::one() }
    }
}

} // verus!
