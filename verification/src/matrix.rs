//! The mathematical model of a dense complex matrix, and what each operation on
//! matrices computes.

use crate::layout::{lemma_cell_position, lemma_kron_position};
use crate::scalar::{
    conjugate_of, difference_of, norm_sqr_of, one, product_of, quotient_of, sqrt_of, sum_of, zero,
};
use num::complex::Complex64;
use vstd::arithmetic::power2::{
    lemma2_to64, lemma_pow2_adds, lemma_pow2_pos, lemma_pow2_unfold, pow2,
};
use vstd::prelude::*;

verus! {

/// The mathematical content of a tensor: its shape and its entries in row-major
/// order.
pub struct Matrix {
    pub rows: nat,
    pub cols: nat,
    pub entries: Seq<Complex64>,
}

impl Matrix {
    /// There is one entry for each position.
    pub open spec fn wf(self) -> bool {
        self.entries.len() == self.rows * self.cols
    }

    /// The entry in row `row` and column `col`.
    pub open spec fn at(self, row: int, col: int) -> Complex64 {
        self.entries[col + row * self.cols]
    }

    /// The left factor of the entry at position `p` of the Kronecker product with
    /// `rhs`: with `(y, x)` the cell of `p`, the entry of `self` in row
    /// `y / rhs.rows` and column `x / rhs.cols`.
    pub open spec fn kron_left(self, rhs: Matrix, p: int) -> Complex64 {
        let cols = (self.cols * rhs.cols) as int;
        self.at((p / cols) / (rhs.rows as int), (p % cols) / (rhs.cols as int))
    }

    /// The right factor of the entry at position `p` of the Kronecker product with
    /// `rhs`: with `(y, x)` the cell of `p`, the entry of `rhs` in row
    /// `y % rhs.rows` and column `x % rhs.cols`.
    pub open spec fn kron_right(self, rhs: Matrix, p: int) -> Complex64 {
        let cols = (self.cols * rhs.cols) as int;
        rhs.at((p / cols) % (rhs.rows as int), (p % cols) % (rhs.cols as int))
    }

    /// The Kronecker product: the entry in row `j * rhs.rows + l` and column
    /// `i * rhs.cols + k` is the product of `self` at `(j, i)` and `rhs` at `(l, k)`.
    pub open spec fn kron(self, rhs: Matrix) -> Matrix {
        Matrix {
            rows: self.rows * rhs.rows,
            cols: self.cols * rhs.cols,
            entries: Seq::new(
                self.rows * rhs.rows * (self.cols * rhs.cols),
                |p: int| product_of(self.kron_left(rhs, p), self.kron_right(rhs, p)),
            ),
        }
    }

    /// Whether the Kronecker product of `self` and `rhs` has a size that the
    /// machine can hold.
    pub open spec fn kron_fits(self, rhs: Matrix) -> bool {
        &&& self.rows * rhs.rows <= usize::MAX
        &&& self.cols * rhs.cols <= usize::MAX
        &&& self.rows * rhs.rows * (self.cols * rhs.cols) <= usize::MAX
    }

    /// The conjugate transpose: the entry in row `j` and column `i` is the conjugate
    /// of the entry of `self` in row `i` and column `j`.
    pub open spec fn dag(self) -> Matrix {
        Matrix {
            rows: self.cols,
            cols: self.rows,
            entries: Seq::new(
                self.cols * self.rows,
                |p: int| conjugate_of(self.at(p % (self.rows as int), p / (self.rows as int))),
            ),
        }
    }

    /// The sum of the first `n` products of row `row` of `self` with column `col` of
    /// `rhs`, added one by one to 0, from the left.
    pub open spec fn row_col(self, rhs: Matrix, row: int, col: int, n: nat) -> Complex64
        decreases n,
    {
        if n == 0 {
            zero()
        } else {
            sum_of(
                self.row_col(rhs, row, col, (n - 1) as nat),
                product_of(self.at(row, n - 1), rhs.at(n - 1, col)),
            )
        }
    }

    /// The matrix product: the entry in row `i` and column `j` is the sum over `k`
    /// of the products of `self` at `(i, k)` and `rhs` at `(k, j)`.
    pub open spec fn multiply(self, rhs: Matrix) -> Matrix {
        Matrix {
            rows: self.rows,
            cols: rhs.cols,
            entries: Seq::new(
                self.rows * rhs.cols,
                |p: int|
                    self.row_col(rhs, p / (rhs.cols as int), p % (rhs.cols as int), self.cols),
            ),
        }
    }

    /// The projector of `self`: its product with its own conjugate transpose.
    pub open spec fn proj(self) -> Matrix {
        self.multiply(self.dag())
    }

    /// The entrywise sum of two matrices of one shape.
    pub open spec fn add(self, rhs: Matrix) -> Matrix {
        Matrix {
            rows: self.rows,
            cols: self.cols,
            entries: Seq::new(self.entries.len(), |p: int| sum_of(self.entries[p], rhs.entries[p])),
        }
    }

    /// The entrywise difference of two matrices of one shape.
    pub open spec fn subtract(self, rhs: Matrix) -> Matrix {
        Matrix {
            rows: self.rows,
            cols: self.cols,
            entries: Seq::new(
                self.entries.len(),
                |p: int| difference_of(self.entries[p], rhs.entries[p]),
            ),
        }
    }

    /// Each entry divided by the real number `divisor`.
    pub open spec fn scale_down(self, divisor: Complex64) -> Matrix {
        Matrix {
            rows: self.rows,
            cols: self.cols,
            entries: Seq::new(self.entries.len(), |p: int| quotient_of(self.entries[p], divisor)),
        }
    }

    /// The sum of the products of the first `n` entries of `self` with those of
    /// `rhs`, added one by one to 0, from the left. No entry is conjugated.
    pub open spec fn dot_prefix(self, rhs: Matrix, n: nat) -> Complex64
        decreases n,
    {
        if n == 0 {
            zero()
        } else {
            sum_of(
                self.dot_prefix(rhs, (n - 1) as nat),
                product_of(self.entries[n - 1], rhs.entries[n - 1]),
            )
        }
    }

    /// The dot product of the entries of `self` and `rhs`, without conjugation.
    pub open spec fn dot(self, rhs: Matrix) -> Complex64 {
        self.dot_prefix(rhs, self.entries.len())
    }

    /// The sum of the squared magnitudes of the first `n` entries, added one by one
    /// to 0, from the left.
    pub open spec fn norm_sqr_prefix(self, n: nat) -> Complex64
        decreases n,
    {
        if n == 0 {
            zero()
        } else {
            sum_of(self.norm_sqr_prefix((n - 1) as nat), norm_sqr_of(self.entries[n - 1]))
        }
    }

    /// The sum of the squared magnitudes of all entries.
    pub open spec fn norm_sqr(self) -> Complex64 {
        self.norm_sqr_prefix(self.entries.len())
    }

    /// The square root of the sum of the squared magnitudes of all entries.
    pub open spec fn norm(self) -> Complex64 {
        sqrt_of(self.norm_sqr())
    }

    /// `self` divided by its norm.
    pub open spec fn unit(self) -> Matrix {
        self.scale_down(self.norm())
    }

    /// The factor that stands at position `k` when `self` is embedded at position
    /// `i` among identity matrices of two rows.
    pub open spec fn expand_factor(self, i: nat, k: nat) -> Matrix {
        if k == i {
            self
        } else {
            Matrix::eye(2)
        }
    }

    /// `self` embedded at position `i` of `n` factors: the Kronecker product, taken
    /// from the left, of identity matrices of two rows, with `self` in place of the
    /// one at position `i`. Position 0 is the leftmost factor. With no factor asked
    /// for, the one at position 0 is still there.
    pub open spec fn expand(self, n: nat, i: nat) -> Matrix
        decreases n,
    {
        if n <= 1 {
            self.expand_factor(i, 0)
        } else {
            self.expand((n - 1) as nat, i).kron(self.expand_factor(i, (n - 1) as nat))
        }
    }

    /// Whether every Kronecker product taken on the way to `self.expand(n, i)` has a
    /// size that the machine can hold.
    pub open spec fn expand_fits(self, n: nat, i: nat) -> bool
        decreases n,
    {
        if n <= 1 {
            true
        } else {
            &&& self.expand_fits((n - 1) as nat, i)
            &&& self.expand((n - 1) as nat, i).kron_fits(self.expand_factor(i, (n - 1) as nat))
        }
    }

    /// The identity matrix of `n` rows.
    pub open spec fn eye(n: nat) -> Matrix {
        Matrix {
            rows: n,
            cols: n,
            entries: Seq::new(
                n * n,
                |p: int|
                    if p / (n as int) == p % (n as int) {
                        one()
                    } else {
                        zero()
                    },
            ),
        }
    }
}

/// The identity matrix holds 1 on the diagonal and 0 elsewhere.
pub proof fn lemma_eye_at(n: nat, row: int, col: int)
    requires
        0 <= row < n,
        0 <= col < n,
    ensures
        Matrix::eye(n).at(row, col) == if row == col {
            one()
        } else {
            zero()
        },
{
    lemma_cell_position(row, col, n as int, n as int);
}

/// The conjugate transpose holds, in row `col` and column `row`, the conjugate of
/// the entry in row `row` and column `col`.
pub proof fn lemma_dag_at(a: Matrix, row: int, col: int)
    requires
        0 <= row < a.rows,
        0 <= col < a.cols,
    ensures
        a.dag().at(col, row) == conjugate_of(a.at(row, col)),
{
    lemma_cell_position(col, row, a.cols as int, a.rows as int);
}

/// The Kronecker product holds, in row `j * b.rows + l` and column
/// `i * b.cols + k`, the product of `a` at `(j, i)` and `b` at `(l, k)`.
pub proof fn lemma_kron_at(a: Matrix, b: Matrix, j: int, i: int, l: int, k: int)
    requires
        0 <= j < a.rows,
        0 <= i < a.cols,
        0 <= l < b.rows,
        0 <= k < b.cols,
    ensures
        0 <= j * b.rows + l < a.kron(b).rows,
        0 <= i * b.cols + k < a.kron(b).cols,
        a.kron(b).at(j * b.rows + l, i * b.cols + k) == product_of(a.at(j, i), b.at(l, k)),
{
    lemma_kron_position(
        a.rows as int,
        a.cols as int,
        b.rows as int,
        b.cols as int,
        i,
        j,
        k,
        l,
    );
}

/// The matrix product holds, in row `row` and column `col`, the sum over `k` of
/// the products of `a` at `(row, k)` and `b` at `(k, col)`.
pub proof fn lemma_multiply_at(a: Matrix, b: Matrix, row: int, col: int)
    requires
        0 <= row < a.rows,
        0 <= col < b.cols,
    ensures
        a.multiply(b).at(row, col) == a.row_col(b, row, col, a.cols),
{
    lemma_cell_position(row, col, a.rows as int, b.cols as int);
}

/// The Kronecker product is associative in shape: however three matrices are
/// grouped, their product has the same number of rows, of columns and of entries.
pub proof fn lemma_kron_shape_associative(a: Matrix, b: Matrix, c: Matrix)
    ensures
        a.kron(b).kron(c).rows == a.kron(b.kron(c)).rows,
        a.kron(b).kron(c).cols == a.kron(b.kron(c)).cols,
        a.kron(b).kron(c).entries.len() == a.kron(b.kron(c)).entries.len(),
{
    assert((a.rows * b.rows) * c.rows == a.rows * (b.rows * c.rows)) by (nonlinear_arith);
    assert((a.cols * b.cols) * c.cols == a.cols * (b.cols * c.cols)) by (nonlinear_arith);
}

/// An operator of two rows and two columns, embedded among `k` factors out of `n`,
/// has `2^k` rows and columns, and every product on the way fits where `4^n` does.
pub proof fn lemma_expand_qubit_operator(op: Matrix, k: nat, i: nat, n: nat)
    requires
        op.rows == 2,
        op.cols == 2,
        1 <= k <= n,
        pow2(2 * n) <= usize::MAX,
    ensures
        op.expand_fits(k, i),
        op.expand(k, i).rows == pow2(k),
        op.expand(k, i).cols == pow2(k),
    decreases k,
{
    lemma2_to64();
    if k > 1 {
        let j = (k - 1) as nat;
        lemma_expand_qubit_operator(op, j, i, n);
        lemma_pow2_unfold(k);
        lemma_pow2_adds(k, k);
        lemma_pow2_adds(2 * k, (2 * n - 2 * k) as nat);
        lemma_pow2_pos((2 * n - 2 * k) as nat);
        lemma_pow2_pos(k);
        let side = pow2(k);
        assert(2 * pow2(j) == pow2(j) * 2) by (nonlinear_arith);
        assert(side * side <= usize::MAX && side <= side * side) by (nonlinear_arith)
            requires
                side >= 1,
                pow2(2 * k) == side * side,
                pow2(2 * n) == pow2(2 * k) * pow2((2 * n - 2 * k) as nat),
                pow2((2 * n - 2 * k) as nat) >= 1,
                pow2(2 * n) <= usize::MAX,
        ;
    }
}

} // verus!
