//! Arithmetic of row-major positions.

use vstd::arithmetic::div_mod::{lemma_fundamental_div_mod, lemma_fundamental_div_mod_converse};
use vstd::prelude::*;

verus! {

/// The cell `(row, col)` of a grid lies at position `col + row * cols`, and that
/// position gives the cell back.
pub proof fn lemma_cell_position(row: int, col: int, rows: int, cols: int)
    requires
        0 <= row < rows,
        0 <= col < cols,
    ensures
        0 <= col + row * cols < rows * cols,
        (col + row * cols) / cols == row,
        (col + row * cols) % cols == col,
{
    assert(0 <= row * cols && row * cols + cols <= rows * cols) by (nonlinear_arith)
        requires
            0 <= row < rows,
            0 < cols,
    ;
    lemma_fundamental_div_mod_converse(col + row * cols, cols, row, col);
}

/// A position of a grid belongs to one cell, whose row and column are its quotient
/// and remainder by the number of columns.
pub proof fn lemma_position_cell(p: int, rows: int, cols: int)
    requires
        0 <= rows,
        0 <= cols,
        0 <= p < rows * cols,
    ensures
        0 < cols,
        0 <= p / cols < rows,
        0 <= p % cols < cols,
        p == p % cols + (p / cols) * cols,
{
    assert(0 < cols) by (nonlinear_arith)
        requires
            0 <= rows,
            0 <= cols,
            0 < rows * cols,
    ;
    lemma_fundamental_div_mod(p, cols);
    let q = p / cols;
    let r = p % cols;
    assert(0 <= r < cols);
    assert(0 <= q < rows) by (nonlinear_arith)
        requires
            p == cols * q + r,
            0 <= r < cols,
            0 <= p < rows * cols,
            0 < cols,
    ;
    assert(cols * q == q * cols) by (nonlinear_arith);
}

/// In a single row or a single column, reading by columns is reading by rows.
pub proof fn lemma_vector_position(p: int, rows: int, cols: int)
    requires
        rows == 1 || cols == 1,
        0 <= rows,
        0 <= cols,
        0 <= p < rows * cols,
    ensures
        0 < rows,
        p / rows + (p % rows) * cols == p,
{
    if rows == 1 {
        assert(p / 1 == p && p % 1 == 0);
        assert(0 * cols == 0);
    } else {
        assert(rows * 1 == rows);
        assert(0 <= p < rows);
        lemma_fundamental_div_mod_converse(p, rows, 0, p);
        assert(p * 1 == p);
    }
}

/// Position `p` of a grid of `rows` rows and `cols` columns, read column by column,
/// is the cell in row `p % rows` and column `p / rows`; read row by row, that cell
/// lies at position `p / rows + (p % rows) * cols`, which leads back to `p`.
pub proof fn lemma_transposed_position(p: int, rows: int, cols: int)
    requires
        0 <= rows,
        0 <= cols,
        0 <= p < rows * cols,
    ensures
        0 < rows,
        0 <= p % rows < rows,
        0 <= p / rows < cols,
        0 <= p / rows + (p % rows) * cols < rows * cols,
        (p / rows + (p % rows) * cols) / cols == p % rows,
        (p / rows + (p % rows) * cols) % cols == p / rows,
        p == p % rows + (p / rows) * rows,
{
    assert(rows * cols == cols * rows) by (nonlinear_arith);
    lemma_position_cell(p, cols, rows);
    lemma_cell_position(p % rows, p / rows, rows, cols);
}

/// The four coordinates of a position of a Kronecker product are in range, and
/// give the position back.
pub proof fn lemma_kron_coordinates(lr: int, lc: int, rr: int, rc: int, p: int)
    requires
        0 <= lr,
        0 <= lc,
        0 <= rr,
        0 <= rc,
        0 <= p < (lr * rr) * (lc * rc),
    ensures
        0 < rr,
        0 < rc,
        0 < lc * rc,
        0 <= (p % (lc * rc)) / rc < lc,
        0 <= (p % (lc * rc)) % rc < rc,
        0 <= (p / (lc * rc)) / rr < lr,
        0 <= (p / (lc * rc)) % rr < rr,
        p == (((p % (lc * rc)) / rc) * rc + (p % (lc * rc)) % rc) + (((p / (lc * rc)) / rr) * rr + (p
            / (lc * rc)) % rr) * (lc * rc),
{
    assert(0 <= lr * rr && 0 <= lc * rc) by (nonlinear_arith)
        requires
            0 <= lr,
            0 <= lc,
            0 <= rr,
            0 <= rc,
    ;
    lemma_position_cell(p, lr * rr, lc * rc);
    let y = p / (lc * rc);
    let x = p % (lc * rc);
    lemma_position_cell(x, lc, rc);
    assert(lr * rr == rr * lr) by (nonlinear_arith);
    lemma_position_cell(y, lr, rr);
}

/// The position that the loops of the Kronecker product write for the coordinates
/// `(i, j, k, l)` is in range, and has these coordinates.
pub proof fn lemma_kron_position(lr: int, lc: int, rr: int, rc: int, i: int, j: int, k: int, l: int)
    requires
        0 <= i < lc,
        0 <= j < lr,
        0 <= k < rc,
        0 <= l < rr,
    ensures
        0 <= i * rc + k < lc * rc,
        0 <= j * rr + l < lr * rr,
        0 <= (i * rc + k) + (j * rr + l) * (lc * rc) < (lr * rr) * (lc * rc),
        ((i * rc + k) + (j * rr + l) * (lc * rc)) / (lc * rc) == j * rr + l,
        ((i * rc + k) + (j * rr + l) * (lc * rc)) % (lc * rc) == i * rc + k,
        (i * rc + k) / rc == i,
        (i * rc + k) % rc == k,
        (j * rr + l) / rr == j,
        (j * rr + l) % rr == l,
{
    lemma_cell_position(i, k, lc, rc);
    lemma_cell_position(j, l, lr, rr);
    lemma_cell_position(j * rr + l, i * rc + k, lr * rr, lc * rc);
}

} // verus!
