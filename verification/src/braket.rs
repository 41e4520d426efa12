//! Kets and bras: column and row vectors, and the four standard states of one qubit.

use crate::scalar::{complex_of, from_ints, one, zero};
use crate::matrix::Matrix;
use crate::tensor::Tensor;
use num::complex::Complex64;
use vstd::prelude::*;

verus! {

/// The standard states of one qubit.
#[derive(Clone, Copy, Debug)]
pub enum Basis {
    /// The state written 0.
    Zero,
    /// The state written 1.
    One,
    /// The normalized sum of the states 0 and 1.
    Plus,
    /// The normalized difference of the states 0 and 1.
    Minus,
}

/// The column vector of the given coefficients.
pub open spec fn ket_of(coefficients: Seq<Complex64>) -> Matrix {
    Matrix { rows: coefficients.len(), cols: 1, entries: coefficients }
}

/// The row vector of the given coefficients.
pub open spec fn bra_of(coefficients: Seq<Complex64>) -> Matrix {
    Matrix { rows: 1, cols: coefficients.len(), entries: coefficients }
}

/// The coefficients of a standard state before any normalization: `(1, 0)` for the
/// state 0 and `(0, 1)` for the state 1.
pub open spec fn unnormalized(state: Basis, as_ket: bool) -> Matrix {
    let first = seq![one(), zero()];
    let second = seq![zero(), one()];
    let (upper, lower) = if as_ket {
        (ket_of(first), ket_of(second))
    } else {
        (bra_of(first), bra_of(second))
    };
    match state {
        Basis::Zero => upper,
        Basis::One => lower,
        Basis::Plus => upper.add(lower),
        Basis::Minus => upper.subtract(lower),
    }
}

/// A standard state as a column (`as_ket`) or as a row: the states 0 and 1 as they
/// are, their sum and their difference divided by their norm.
pub open spec fn basis_of(state: Basis, as_ket: bool) -> Matrix {
    match state {
        Basis::Zero | Basis::One => unnormalized(state, as_ket),
        Basis::Plus | Basis::Minus => unnormalized(state, as_ket).unit(),
    }
}

/// The column vector of the given coefficients. Nothing is normalized.
pub fn ket(coefficients: Vec<Complex64>) -> (t: Tensor)
    ensures
        t@ == ket_of(coefficients@),
        t@.wf(),
{
    let rows = coefficients.len();
    assert(rows * 1 == rows);
    Tensor::new(coefficients, (rows, 1))
}

/// The row vector of the given coefficients. Nothing is normalized.
pub fn bra(coefficients: Vec<Complex64>) -> (t: Tensor)
    ensures
        t@ == bra_of(coefficients@),
        t@.wf(),
{
    let cols = coefficients.len();
    assert(1 * cols == cols);
    Tensor::new(coefficients, (1, cols))
}

/// The two real integers `first` and `second` as a list of scalars.
fn pair(first: i32, second: i32) -> (v: Vec<Complex64>)
    ensures
        v@ == seq![complex_of(first as int, 0), complex_of(second as int, 0)],
{
    let mut v: Vec<Complex64> = Vec::new();
    v.push(from_ints(first, 0));
    v.push(from_ints(second, 0));
    proof {
        assert(v@ =~= seq![complex_of(first as int, 0), complex_of(second as int, 0)]);
    }
    v
}

/// A standard state of one qubit as a column vector.
pub fn basis_ket(state: Basis) -> (t: Tensor)
    ensures
        t@ == basis_of(state, true),
        t@.wf(),
{
    match state {
        Basis::Zero => ket(pair(1, 0)),
        Basis::One => ket(pair(0, 1)),
        Basis::Plus => ket(pair(1, 0)).add(&ket(pair(0, 1))).unit(),
        Basis::Minus => ket(pair(1, 0)).subtract(&ket(pair(0, 1))).unit(),
    }
}

/// A standard state of one qubit as a row vector.
pub fn basis_bra(state: Basis) -> (t: Tensor)
    ensures
        t@ == basis_of(state, false),
        t@.wf(),
{
    match state {
        Basis::Zero => bra(pair(1, 0)),
        Basis::One => bra(pair(0, 1)),
        Basis::Plus => bra(pair(1, 0)).add(&bra(pair(0, 1))).unit(),
        Basis::Minus => bra(pair(1, 0)).subtract(&bra(pair(0, 1))).unit(),
    }
}

} // verus!
