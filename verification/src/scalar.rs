//! Complex scalars.
//!
//! A scalar is a `Complex64` of the `num` crate. The verifier carries such a value
//! through without looking inside it: each arithmetic operation is done by `num`,
//! and its result is known here only by name.
//!
//! Two scalars are the same here when their parts are the same numbers; a part
//! that is not a number is one value, whatever bits it holds.
//!
//! Real quantities (a squared norm, a norm, a probability) are carried as complex
//! values that lie on the real axis, so that every scalar has one type.

use num::complex::Complex64;
use vstd::prelude::*;

verus! {

/// `Complex` of `num`: a value of it is carried through and never looked into.
#[verifier::external_type_specification]
#[verifier::external_body]
#[verifier::reject_recursive_types(T)]
pub struct ExComplex<T>(num::complex::Complex<T>);

/// The complex number whose real and imaginary parts are the integers `re` and `im`.
pub uninterp spec fn complex_of(re: int, im: int) -> Complex64;

/// What `num` returns for `a + b`.
pub uninterp spec fn sum_of(a: Complex64, b: Complex64) -> Complex64;

/// What `num` returns for `a - b`.
pub uninterp spec fn difference_of(a: Complex64, b: Complex64) -> Complex64;

/// What `num` returns for `a * b`.
pub uninterp spec fn product_of(a: Complex64, b: Complex64) -> Complex64;

/// What `num` returns for the complex conjugate of `a`.
pub uninterp spec fn conjugate_of(a: Complex64) -> Complex64;

/// What `num` returns for the squared magnitude of `a`, placed on the real axis.
pub uninterp spec fn norm_sqr_of(a: Complex64) -> Complex64;

/// The square root of the real part of `a`, placed on the real axis.
pub uninterp spec fn sqrt_of(a: Complex64) -> Complex64;

/// What `num` returns for `a` divided by the real part of `b`.
pub uninterp spec fn quotient_of(a: Complex64, b: Complex64) -> Complex64;

/// The scalar 0.
pub open spec fn zero() -> Complex64 {
    complex_of(0, 0)
}

/// The scalar 1.
pub open spec fn one() -> Complex64 {
    complex_of(1, 0)
}

/// Whether `a` is one of the scalars 0 and 1.
pub open spec fn is_bit(a: Complex64) -> bool {
    a == zero() || a == one()
}

/// The product of two scalars that are each 0 or 1: 1 where both are 1, else 0.
pub open spec fn bit_product(a: Complex64, b: Complex64) -> Complex64 {
    if a == one() && b == one() {
        one()
    } else {
        zero()
    }
}

/// `Complex::new` of `num`, on two integers converted without loss. The result is
/// named by its two parts.
#[verifier::external_body]
pub(crate) fn from_ints(re: i32, im: i32) -> (c: Complex64)
    ensures
        c == complex_of(re as int, im as int),
{
    Complex64::new(re.into(), im.into())
}

/// `Add` of `num` on two complex numbers. Claims only that the sum depends on
/// nothing but the operands.
#[verifier::external_body]
pub(crate) fn plus(a: &Complex64, b: &Complex64) -> (c: Complex64)
    ensures
        c == sum_of(*a, *b),
{
    a + b
}

/// `Sub` of `num` on two complex numbers. Claims only that the difference depends
/// on nothing but the operands.
#[verifier::external_body]
pub(crate) fn minus(a: &Complex64, b: &Complex64) -> (c: Complex64)
    ensures
        c == difference_of(*a, *b),
{
    a - b
}

/// `Mul` of `num` on two complex numbers, which computes
/// `(a.re * b.re - a.im * b.im) + (a.re * b.im + a.im * b.re) i`. Claims that the
/// product depends on nothing but the operands, and that among the scalars 0 and 1
/// it is the exact one: 1 * 1 is 1, and 0 * 0, 0 * 1 and 1 * 0 are 0.
#[verifier::external_body]
pub(crate) fn times(a: &Complex64, b: &Complex64) -> (c: Complex64)
    ensures
        c == product_of(*a, *b),
        is_bit(*a) && is_bit(*b) ==> c == bit_product(*a, *b),
{
    a * b
}

/// `Complex::conj` of `num`, which keeps the real part and negates the imaginary
/// one. Claims that the conjugate depends on nothing but the operand, and that
/// conjugating it again gives the operand back, negation being exact.
#[verifier::external_body]
pub(crate) fn conj(a: &Complex64) -> (c: Complex64)
    ensures
        c == conjugate_of(*a),
        conjugate_of(c) == *a,
{
    a.conj()
}

/// `Complex::norm_sqr` of `num`, which computes `re * re + im * im`; the real
/// result is placed on the real axis by `num`'s `From`. Claims only that it depends
/// on nothing but the operand.
#[verifier::external_body]
pub(crate) fn norm_sqr_scalar(a: &Complex64) -> (c: Complex64)
    ensures
        c == norm_sqr_of(*a),
{
    Complex64::from(a.norm_sqr())
}

/// The square root of std on the real part of `a`, placed on the real axis by
/// `num`'s `From`. Claims only that it depends on nothing but the operand.
#[verifier::external_body]
pub(crate) fn sqrt_scalar(a: &Complex64) -> (c: Complex64)
    ensures
        c == sqrt_of(*a),
{
    Complex64::from(a.re.sqrt())
}

/// `Div` of `num` of a complex number by a real one, here the real part of `b`;
/// it divides both parts. Claims only that the quotient depends on nothing but the
/// operands. A zero divisor is not an error: the parts are then infinite or not
/// numbers.
#[verifier::external_body]
pub(crate) fn over(a: &Complex64, b: &Complex64) -> (c: Complex64)
    ensures
        c == quotient_of(*a, *b),
{
    a / b.re
}

} // verus!
