//! Dense complex matrices.

use crate::layout::{
    lemma_cell_position, lemma_kron_coordinates, lemma_kron_position, lemma_transposed_position,
    lemma_vector_position,
};
use crate::matrix::Matrix;
use crate::scalar::{
    bit_product, conj, conjugate_of, difference_of, from_ints, is_bit, minus, norm_sqr_scalar, over,
    plus, product_of, quotient_of, sqrt_scalar, sum_of, times,
};
use num::complex::Complex64;
use vstd::arithmetic::div_mod::lemma_fundamental_div_mod;
use vstd::arithmetic::power2::{lemma2_to64, lemma_pow2_unfold, pow2};
use vstd::prelude::*;

verus! {

/// A dense matrix of complex numbers, stored row by row.
#[derive(Debug)]
pub struct Tensor {
    data: Vec<Complex64>,
    shape: (usize, usize),
}

impl View for Tensor {
    type V = Matrix;

    closed spec fn view(&self) -> Matrix {
        Matrix { rows: self.shape.0 as nat, cols: self.shape.1 as nat, entries: self.data@ }
    }
}

impl Tensor {
    #[verifier::type_invariant]
    spec fn inv(self) -> bool {
        self.data@.len() == self.shape.0 * self.shape.1
    }

    /// A tensor of the given entries and shape `(rows, cols)`. The number of entries
    /// must be `rows * cols`.
    pub fn new(data: Vec<Complex64>, shape: (usize, usize)) -> (t: Tensor)
        requires
            data@.len() == shape.0 * shape.1,
        ensures
            t@ == (Matrix { rows: shape.0 as nat, cols: shape.1 as nat, entries: data@ }),
            t@.wf(),
    {
        Tensor { data, shape }
    }

    /// A tensor of the given entries and shape, or `None` where the number of
    /// entries is not `rows * cols`.
    pub fn try_new(data: Vec<Complex64>, shape: (usize, usize)) -> (t: Option<Tensor>)
        ensures
            t.is_some() <==> data@.len() == shape.0 * shape.1,
            t matches Some(t) ==> t@ == (Matrix {
                rows: shape.0 as nat,
                cols: shape.1 as nat,
                entries: data@,
            }) && t@.wf(),
    {
        let len = data.len();
        match shape.0.checked_mul(shape.1) {
            Some(n) => {
                if len == n {
                    Some(Tensor { data, shape })
                } else {
                    None
                }
            },
            None => None,
        }
    }

    /// The shape `(rows, cols)`.
    pub fn shape(&self) -> (s: (usize, usize))
        ensures
            s.0 == self@.rows,
            s.1 == self@.cols,
            self@.wf(),
    {
        proof {
            use_type_invariant(self);
        }
        self.shape
    }

    /// The entries in row-major order.
    pub fn data(&self) -> (d: &Vec<Complex64>)
        ensures
            d@ == self@.entries,
            self@.wf(),
    {
        proof {
            use_type_invariant(self);
        }
        &self.data
    }

    /// The entry in row `row` and column `col`, read at `col + row * cols` of the
    /// row-major entries.
    pub fn at(&self, row: usize, col: usize) -> (c: Complex64)
        requires
            col + row * self@.cols < self@.entries.len(),
        ensures
            c == self@.at(row as int, col as int),
    {
        let len = self.data.len();
        assert(0 <= row * self.shape.1 <= col + row * self.shape.1 < len) by (nonlinear_arith)
            requires
                col + row * self.shape.1 < len,
        ;
        self.data[col + row * self.shape.1]
    }

    /// The identity matrix of `n` rows.
    pub fn eye(n: usize) -> (t: Tensor)
        ensures
            t@ == Matrix::eye(n as nat),
            t@.wf(),
    {
        let mut data: Vec<Complex64> = Vec::new();
        assert(0 * n == 0);
        for i in 0..n
            invariant
                data@.len() == i * n,
                forall|p: int|
                    0 <= p < data@.len() ==> #[trigger] data@[p] == Matrix::eye(n as nat).entries[p],
        {
            for j in 0..n
                invariant
                    i < n,
                    data@.len() == i * n + j,
                    forall|p: int|
                        0 <= p < data@.len() ==> #[trigger] data@[p] == Matrix::eye(
                            n as nat,
                        ).entries[p],
            {
                proof {
                    lemma_cell_position(i as int, j as int, n as int, n as int);
                    assert(i * n + j == j + i * n);
                }
                if i == j {
                    data.push(from_ints(1, 0));
                } else {
                    data.push(from_ints(0, 0));
                }
            }
            assert((i + 1) * n == i * n + n) by (nonlinear_arith);
        }
        proof {
            assert(data@ =~= Matrix::eye(n as nat).entries);
        }
        Tensor { data, shape: (n, n) }
    }

    /// The sum of the squared magnitudes of all entries, whatever the shape. It is
    /// a real number, carried on the real axis.
    pub fn norm_sqr(&self) -> (c: Complex64)
        ensures
            c == self@.norm_sqr(),
    {
        let len = self.data.len();
        let mut sum = from_ints(0, 0);
        for p in 0..len
            invariant
                len == self.data@.len(),
                sum == self@.norm_sqr_prefix(p as nat),
        {
            let term = norm_sqr_scalar(&self.data[p]);
            sum = plus(&sum, &term);
        }
        sum
    }

    /// The norm: the square root of `norm_sqr`. It is a real number, carried on the
    /// real axis.
    pub fn norm(&self) -> (c: Complex64)
        ensures
            c == self@.norm(),
    {
        let total = self.norm_sqr();
        sqrt_scalar(&total)
    }

    /// `self` divided by its norm. A zero norm is not refused: the entries are then
    /// not numbers.
    pub fn unit(&self) -> (t: Tensor)
        ensures
            t@ == self@.unit(),
            t@.wf(),
    {
        let norm = self.norm();
        self.scale_down(&norm)
    }

    /// The conjugate transpose. A row or a column is conjugated entry by entry and
    /// takes the other shape; any other matrix is read column by column. Both ways
    /// give the same matrix, and its conjugate transpose is `self` again.
    pub fn dag(&self) -> (t: Tensor)
        ensures
            t@ == self@.dag(),
            t@.dag() == self@,
            t@.wf(),
    {
        proof {
            use_type_invariant(self);
        }
        let (m, n) = self.shape;
        let ghost a = self@;
        let mut data: Vec<Complex64> = Vec::new();
        if m == 1 || n == 1 {
            let len = self.data.len();
            for p in 0..len
                invariant
                    a == self@,
                    a.wf(),
                    a.rows == m,
                    a.cols == n,
                    m == 1 || n == 1,
                    len == self.data@.len(),
                    data@.len() == p,
                    forall|q: int|
                        0 <= q < data@.len() ==> dag_holds(a, #[trigger] data@[q], q),
            {
                let value = conj(&self.data[p]);
                proof {
                    lemma_vector_position(p as int, m as int, n as int);
                    assert(a.at((p as int) % (m as int), (p as int) / (m as int)) == a.entries[p as int]);
                    assert(dag_holds(a, value, p as int));
                }
                data.push(value);
            }
        } else {
            assert(0 * m == 0);
            for j in 0..n
                invariant
                    a == self@,
                    a.wf(),
                    a.rows == m,
                    a.cols == n,
                    data@.len() == j * m,
                    forall|q: int|
                        0 <= q < data@.len() ==> dag_holds(a, #[trigger] data@[q], q),
            {
                for i in 0..m
                    invariant
                        a == self@,
                        a.wf(),
                        a.rows == m,
                        a.cols == n,
                        j < n,
                        data@.len() == j * m + i,
                        forall|q: int|
                            0 <= q < data@.len() ==> dag_holds(a, #[trigger] data@[q], q),
                {
                    proof {
                        lemma_cell_position(i as int, j as int, m as int, n as int);
                    }
                    let value = conj(&self.at(i, j));
                    proof {
                        lemma_cell_position(j as int, i as int, n as int, m as int);
                        assert(j * m + i == i + j * m);
                        assert(dag_holds(a, value, j * m + i));
                    }
                    data.push(value);
                }
                assert((j + 1) * m == j * m + m) by (nonlinear_arith);
            }
        }
        proof {
            assert(m * n == n * m) by (nonlinear_arith);
            assert(data@.len() == n * m);
            let d = Matrix { rows: n as nat, cols: m as nat, entries: data@ };
            assert forall|q: int| 0 <= q < n * m implies data@[q] == a.dag().entries[q] by {
                assert(dag_holds(a, data@[q], q));
            }
            assert(data@ =~= a.dag().entries);
            assert(d == a.dag());
            assert forall|q: int| 0 <= q < m * n implies d.dag().entries[q] == a.entries[q] by {
                lemma_transposed_position(q, n as int, m as int);
                let r = q / (n as int) + (q % (n as int)) * m;
                assert(d.at(q % (n as int), q / (n as int)) == data@[r]);
                assert(dag_holds(a, data@[r], r));
                assert(a.at(r % (m as int), r / (m as int)) == a.entries[q]);
            }
            assert(d.dag().entries =~= a.entries);
            assert(d.dag() == a);
        }
        Tensor { data, shape: (n, m) }
    }

    /// The projector of `self`: its product with its own conjugate transpose.
    pub fn proj(&self) -> (t: Tensor)
        ensures
            t@ == self@.proj(),
            t@.wf(),
    {
        let dagger = self.dag();
        self.multiply(&dagger)
    }

    /// The Kronecker product of `self` and `rhs`. Its size must be one that the
    /// machine can hold. The product of two identity matrices is the identity
    /// matrix whose number of rows is the product of theirs.
    pub fn prod(&self, rhs: &Tensor) -> (t: Tensor)
        requires
            self@.kron_fits(rhs@),
        ensures
            t@ == self@.kron(rhs@),
            t@.wf(),
            self@ == Matrix::eye(self@.rows) && rhs@ == Matrix::eye(rhs@.rows) ==> t@
                == Matrix::eye(self@.rows * rhs@.rows),
    {
        proof {
            use_type_invariant(self);
            use_type_invariant(rhs);
        }
        let (lr, lc) = self.shape;
        let (rr, rc) = rhs.shape;
        let rows = lr * rr;
        let cols = lc * rc;
        let ghost a = self@;
        let ghost b = rhs@;
        let ghost total = (lr * rr) * (lc * rc);
        let mut data = vec![from_ints(0, 0); rows * cols];
        proof {
            assert forall|p: int|
                0 <= p < total && written(
                    lc as int,
                    rc as int,
                    rr as int,
                    p,
                    0,
                    0,
                    0,
                    0,
                ) implies kron_holds(a, b, #[trigger] data@[p], p) by {
                lemma_kron_coordinates(lr as int, lc as int, rr as int, rc as int, p);
            }
        }
        for i in 0..lc
            invariant
                a == self@,
                b == rhs@,
                a.wf(),
                b.wf(),
                a.rows == lr,
                a.cols == lc,
                b.rows == rr,
                b.cols == rc,
                cols == lc * rc,
                total == (lr * rr) * (lc * rc),
                lr * rr <= usize::MAX,
                total <= usize::MAX,
                data@.len() == total,
                forall|p: int|
                    0 <= p < total && written(lc as int, rc as int, rr as int, p, i as int, 0, 0, 0)
                        ==> kron_holds(a, b, #[trigger] data@[p], p),
        {
            for j in 0..lr
                invariant
                    a == self@,
                    b == rhs@,
                    a.wf(),
                    b.wf(),
                    a.rows == lr,
                    a.cols == lc,
                    b.rows == rr,
                    b.cols == rc,
                    cols == lc * rc,
                    total == (lr * rr) * (lc * rc),
                    lr * rr <= usize::MAX,
                    total <= usize::MAX,
                lr * rr <= usize::MAX,
                total <= usize::MAX,
                    data@.len() == total,
                    i < lc,
                    forall|p: int|
                        0 <= p < total && written(
                            lc as int,
                            rc as int,
                            rr as int,
                            p,
                            i as int,
                            j as int,
                            0,
                            0,
                        ) ==> kron_holds(a, b, #[trigger] data@[p], p),
            {
                for k in 0..rc
                    invariant
                        a == self@,
                        b == rhs@,
                        a.wf(),
                        b.wf(),
                        a.rows == lr,
                        a.cols == lc,
                        b.rows == rr,
                        b.cols == rc,
                        cols == lc * rc,
                        total == (lr * rr) * (lc * rc),
                        lr * rr <= usize::MAX,
                        total <= usize::MAX,
                    lr * rr <= usize::MAX,
                    total <= usize::MAX,
                lr * rr <= usize::MAX,
                total <= usize::MAX,
                        data@.len() == total,
                        i < lc,
                        j < lr,
                        forall|p: int|
                            0 <= p < total && written(
                                lc as int,
                                rc as int,
                                rr as int,
                                p,
                                i as int,
                                j as int,
                                k as int,
                                0,
                            ) ==> kron_holds(a, b, #[trigger] data@[p], p),
                {
                    for l in 0..rr
                        invariant
                            a == self@,
                            b == rhs@,
                            a.wf(),
                            b.wf(),
                            a.rows == lr,
                            a.cols == lc,
                            b.rows == rr,
                            b.cols == rc,
                            cols == lc * rc,
                            total == (lr * rr) * (lc * rc),
                            lr * rr <= usize::MAX,
                            total <= usize::MAX,
                        lr * rr <= usize::MAX,
                        total <= usize::MAX,
                    lr * rr <= usize::MAX,
                    total <= usize::MAX,
                lr * rr <= usize::MAX,
                total <= usize::MAX,
                            data@.len() == total,
                            i < lc,
                            j < lr,
                            k < rc,
                            forall|p: int|
                                0 <= p < total && written(
                                    lc as int,
                                    rc as int,
                                    rr as int,
                                    p,
                                    i as int,
                                    j as int,
                                    k as int,
                                    l as int,
                                ) ==> kron_holds(a, b, #[trigger] data@[p], p),
                    {
                        proof {
                            lemma_kron_position(
                                lr as int,
                                lc as int,
                                rr as int,
                                rc as int,
                                i as int,
                                j as int,
                                k as int,
                                l as int,
                            );
                            lemma_cell_position(j as int, i as int, lr as int, lc as int);
                            lemma_cell_position(l as int, k as int, rr as int, rc as int);
                        }
                        let x = i * rc + k;
                        let y = j * rr + l;
                        let left = self.at(j, i);
                        let right = rhs.at(l, k);
                        let value = times(&left, &right);
                        let ghost before = data@;
                        let ghost target = x + y * cols;
                        data.set(x + y * cols, value);
                        proof {
                            assert(kron_holds(a, b, value, target));
                            assert forall|p: int|
                                0 <= p < total && written(
                                    lc as int,
                                    rc as int,
                                    rr as int,
                                    p,
                                    i as int,
                                    j as int,
                                    k as int,
                                    l + 1,
                                ) implies kron_holds(a, b, #[trigger] data@[p], p) by {
                                if p != target {
                                    lemma_kron_coordinates(
                                        lr as int,
                                        lc as int,
                                        rr as int,
                                        rc as int,
                                        p,
                                    );
                                    assert(written(
                                        lc as int,
                                        rc as int,
                                        rr as int,
                                        p,
                                        i as int,
                                        j as int,
                                        k as int,
                                        l as int,
                                    ));
                                    assert(data@[p] == before[p]);
                                }
                            }
                        }
                    }
                    proof {
                        assert forall|p: int|
                            0 <= p < total && written(
                                lc as int,
                                rc as int,
                                rr as int,
                                p,
                                i as int,
                                j as int,
                                k + 1,
                                0,
                            ) implies kron_holds(a, b, #[trigger] data@[p], p) by {
                            lemma_kron_coordinates(lr as int, lc as int, rr as int, rc as int, p);
                            assert(written(
                                lc as int,
                                rc as int,
                                rr as int,
                                p,
                                i as int,
                                j as int,
                                k as int,
                                rr as int,
                            ));
                        }
                    }
                }
                proof {
                    assert forall|p: int|
                        0 <= p < total && written(
                            lc as int,
                            rc as int,
                            rr as int,
                            p,
                            i as int,
                            j + 1,
                            0,
                            0,
                        ) implies kron_holds(a, b, #[trigger] data@[p], p) by {
                        lemma_kron_coordinates(lr as int, lc as int, rr as int, rc as int, p);
                        assert(written(
                            lc as int,
                            rc as int,
                            rr as int,
                            p,
                            i as int,
                            j as int,
                            rc as int,
                            0,
                        ));
                    }
                }
            }
            proof {
                assert forall|p: int|
                    0 <= p < total && written(
                        lc as int,
                        rc as int,
                        rr as int,
                        p,
                        i + 1,
                        0,
                        0,
                        0,
                    ) implies kron_holds(a, b, #[trigger] data@[p], p) by {
                    lemma_kron_coordinates(lr as int, lc as int, rr as int, rc as int, p);
                    assert(written(
                        lc as int,
                        rc as int,
                        rr as int,
                        p,
                        i as int,
                        lr as int,
                        0,
                        0,
                    ));
                }
            }
        }
        proof {
            assert forall|p: int| 0 <= p < total implies data@[p] == a.kron(b).entries[p] by {
                lemma_kron_coordinates(lr as int, lc as int, rr as int, rc as int, p);
                assert(written(lc as int, rc as int, rr as int, p, lc as int, 0, 0, 0));
            }
            assert(data@ =~= a.kron(b).entries);
            if a == Matrix::eye(a.rows) && b == Matrix::eye(b.rows) {
                assert forall|p: int| 0 <= p < total implies data@[p] == Matrix::eye(
                    a.rows * b.rows,
                ).entries[p] by {
                    lemma_kron_coordinates(lr as int, lc as int, rr as int, rc as int, p);
                    assert(written(lc as int, rc as int, rr as int, p, lc as int, 0, 0, 0));
                    lemma_kron_of_identities(a.rows, b.rows, p);
                }
                assert(data@ =~= Matrix::eye(a.rows * b.rows).entries);
            }
        }
        Tensor { data, shape: (rows, cols) }
    }

    /// `self` embedded at position `i` of `n` factors, the others being identity
    /// matrices of two rows. Every product on the way must have a size that the
    /// machine can hold. The identity matrix of two rows, embedded among at least
    /// one factor, gives the identity matrix of `2^n` rows.
    pub fn expand(&self, n: usize, i: usize) -> (t: Tensor)
        requires
            self@.expand_fits(n as nat, i as nat),
        ensures
            t@ == self@.expand(n as nat, i as nat),
            t@.wf(),
            n >= 1 && self@ == Matrix::eye(2) ==> t@ == Matrix::eye(pow2(n as nat)),
    {
        let eye = Tensor::eye(2);
        let mut product = if i == 0 {
            self.clone()
        } else {
            eye.clone()
        };
        let mut k: usize = 1;
        proof {
            use_type_invariant(self);
            lemma2_to64();
            assert(self@.expand(1, i as nat) == self@.expand_factor(i as nat, 0));
        }
        while k < n
            invariant
                1 <= k,
                k <= n || k == 1,
                eye@ == Matrix::eye(2),
                self@.expand_fits(n as nat, i as nat),
                product@ == self@.expand(k as nat, i as nat),
                product@.wf(),
                self@ == Matrix::eye(2) ==> product@ == Matrix::eye(pow2(k as nat)),
            decreases n - k,
        {
            proof {
                lemma_expand_fits_before(self@, n as nat, (k + 1) as nat, i as nat);
                lemma_pow2_unfold((k + 1) as nat);
                assert(pow2(k as nat) * 2 == 2 * pow2(k as nat)) by (nonlinear_arith);
            }
            product = if k == i {
                product.prod(self)
            } else {
                product.prod(&eye)
            };
            k = k + 1;
        }
        proof {
            if n == 0 {
                assert(self@.expand(1, i as nat) == self@.expand_factor(i as nat, 0));
                assert(self@.expand(0, i as nat) == self@.expand_factor(i as nat, 0));
            }
        }
        product
    }

    /// The entrywise sum. Both tensors must have one shape.
    pub fn add(&self, rhs: &Tensor) -> (t: Tensor)
        requires
            self@.rows == rhs@.rows,
            self@.cols == rhs@.cols,
        ensures
            t@ == self@.add(rhs@),
            t@.wf(),
    {
        proof {
            use_type_invariant(self);
            use_type_invariant(rhs);
        }
        let len = self.data.len();
        let mut data: Vec<Complex64> = Vec::new();
        for p in 0..len
            invariant
                len == self.data@.len(),
                len == rhs.data@.len(),
                data@.len() == p,
                forall|q: int|
                    0 <= q < data@.len() ==> #[trigger] data@[q] == sum_of(
                        self.data@[q],
                        rhs.data@[q],
                    ),
        {
            data.push(plus(&self.data[p], &rhs.data[p]));
        }
        proof {
            assert(data@ =~= self@.add(rhs@).entries);
        }
        Tensor { data, shape: self.shape }
    }

    /// The entrywise difference. Both tensors must have one shape.
    pub fn subtract(&self, rhs: &Tensor) -> (t: Tensor)
        requires
            self@.rows == rhs@.rows,
            self@.cols == rhs@.cols,
        ensures
            t@ == self@.subtract(rhs@),
            t@.wf(),
    {
        proof {
            use_type_invariant(self);
            use_type_invariant(rhs);
        }
        let len = self.data.len();
        let mut data: Vec<Complex64> = Vec::new();
        for p in 0..len
            invariant
                len == self.data@.len(),
                len == rhs.data@.len(),
                data@.len() == p,
                forall|q: int|
                    0 <= q < data@.len() ==> #[trigger] data@[q] == difference_of(
                        self.data@[q],
                        rhs.data@[q],
                    ),
        {
            data.push(minus(&self.data[p], &rhs.data[p]));
        }
        proof {
            assert(data@ =~= self@.subtract(rhs@).entries);
        }
        Tensor { data, shape: self.shape }
    }

    /// Each entry divided by a real number, which is carried on the real axis of
    /// `divisor`. A zero divisor is not refused: the entries are then infinite or
    /// not numbers.
    pub fn scale_down(&self, divisor: &Complex64) -> (t: Tensor)
        ensures
            t@ == self@.scale_down(*divisor),
            t@.wf(),
    {
        proof {
            use_type_invariant(self);
        }
        let len = self.data.len();
        let mut data: Vec<Complex64> = Vec::new();
        for p in 0..len
            invariant
                len == self.data@.len(),
                data@.len() == p,
                forall|q: int|
                    0 <= q < data@.len() ==> #[trigger] data@[q] == quotient_of(
                        self.data@[q],
                        *divisor,
                    ),
        {
            data.push(over(&self.data[p], divisor));
        }
        proof {
            assert(data@ =~= self@.scale_down(*divisor).entries);
        }
        Tensor { data, shape: self.shape }
    }

    /// The dot product of the entries of two tensors, taken in row-major order and
    /// without conjugation. Both must have the same number of entries.
    pub fn dot(&self, rhs: &Tensor) -> (c: Complex64)
        requires
            self@.entries.len() == rhs@.entries.len(),
        ensures
            c == self@.dot(rhs@),
    {
        let len = self.data.len();
        let mut sum = from_ints(0, 0);
        for p in 0..len
            invariant
                len == self.data@.len(),
                len == rhs.data@.len(),
                sum == self@.dot_prefix(rhs@, p as nat),
        {
            let term = times(&self.data[p], &rhs.data[p]);
            sum = plus(&sum, &term);
        }
        sum
    }

    /// The matrix product of `self` and `rhs`. `self` must have as many columns as
    /// `rhs` has rows.
    pub fn multiply(&self, rhs: &Tensor) -> (t: Tensor)
        requires
            self@.cols == rhs@.rows,
        ensures
            t@ == self@.multiply(rhs@),
            t@.wf(),
    {
        proof {
            use_type_invariant(self);
            use_type_invariant(rhs);
        }
        let (rows, n) = self.shape;
        let cols = rhs.shape.1;
        let ghost a = self@;
        let ghost b = rhs@;
        let mut data: Vec<Complex64> = Vec::new();
        assert(0 * cols == 0);
        for i in 0..rows
            invariant
                a == self@,
                b == rhs@,
                a.wf(),
                b.wf(),
                a.rows == rows,
                a.cols == n,
                b.rows == n,
                b.cols == cols,
                data@.len() == i * cols,
                forall|p: int|
                    0 <= p < data@.len() ==> #[trigger] data@[p] == a.row_col(
                        b,
                        p / (cols as int),
                        p % (cols as int),
                        n as nat,
                    ),
        {
            for j in 0..cols
                invariant
                    a == self@,
                    b == rhs@,
                    a.wf(),
                    b.wf(),
                    a.rows == rows,
                    a.cols == n,
                    b.rows == n,
                    b.cols == cols,
                    i < rows,
                    data@.len() == i * cols + j,
                    forall|p: int|
                        0 <= p < data@.len() ==> #[trigger] data@[p] == a.row_col(
                            b,
                            p / (cols as int),
                            p % (cols as int),
                            n as nat,
                        ),
            {
                let mut sum = from_ints(0, 0);
                for k in 0..n
                    invariant
                        a == self@,
                        b == rhs@,
                        a.wf(),
                        b.wf(),
                        a.rows == rows,
                        a.cols == n,
                        b.rows == n,
                        b.cols == cols,
                        i < rows,
                        j < cols,
                        sum == a.row_col(b, i as int, j as int, k as nat),
                {
                    proof {
                        lemma_cell_position(i as int, k as int, rows as int, n as int);
                        lemma_cell_position(k as int, j as int, n as int, cols as int);
                    }
                    let term = times(&self.at(i, k), &rhs.at(k, j));
                    sum = plus(&sum, &term);
                }
                proof {
                    lemma_cell_position(i as int, j as int, rows as int, cols as int);
                    assert(j + i * cols == i * cols + j);
                }
                data.push(sum);
            }
            assert((i + 1) * cols == i * cols + cols) by (nonlinear_arith);
        }
        proof {
            assert(data@ =~= a.multiply(b).entries);
        }
        Tensor { data, shape: (rows, cols) }
    }
}

impl Clone for Tensor {
    /// A tensor of the same shape and entries.
    fn clone(&self) -> (t: Tensor)
        ensures
            t@ == self@,
            t@.wf(),
    {
        proof {
            use_type_invariant(self);
        }
        let len = self.data.len();
        let mut data: Vec<Complex64> = Vec::new();
        for p in 0..len
            invariant
                len == self.data@.len(),
                data@.len() == p,
                forall|q: int| 0 <= q < data@.len() ==> #[trigger] data@[q] == self.data@[q],
        {
            data.push(self.data[p]);
        }
        proof {
            assert(data@ =~= self.data@);
        }
        Tensor { data, shape: self.shape }
    }
}

/// Whether the loops of the Kronecker product, standing at column `i` and row `j`
/// of the left factor and at column `k` and row `l` of the right one, have already
/// written position `p`. The factors have `lc` and `rc` columns, the right one
/// `rr` rows.
spec fn written(lc: int, rc: int, rr: int, p: int, i: int, j: int, k: int, l: int) -> bool {
    let y = p / (lc * rc);
    let x = p % (lc * rc);
    let (pi, pk, pj, pl) = (x / rc, x % rc, y / rr, y % rr);
    pi < i || (pi == i && (pj < j || (pj == j && (pk < k || (pk == k && pl < l)))))
}

/// What the Kronecker product of `a` and `b` holds at position `p` is `value`.
spec fn kron_holds(a: Matrix, b: Matrix, value: Complex64, p: int) -> bool {
    &&& value == product_of(a.kron_left(b, p), a.kron_right(b, p))
    &&& is_bit(a.kron_left(b, p)) && is_bit(a.kron_right(b, p)) ==> value == bit_product(
        a.kron_left(b, p),
        a.kron_right(b, p),
    )
}

/// Where the products on the way to `n` factors fit, those on the way to fewer
/// factors fit too.
proof fn lemma_expand_fits_before(op: Matrix, n: nat, k: nat, i: nat)
    requires
        op.expand_fits(n, i),
        k <= n,
    ensures
        op.expand_fits(k, i),
    decreases n,
{
    if k < n && n > 1 {
        lemma_expand_fits_before(op, (n - 1) as nat, k, i);
    }
}

/// What the conjugate transpose of `a` holds at position `p` is `value`, and the
/// conjugate of `value` is the entry of `a` that it was made from.
spec fn dag_holds(a: Matrix, value: Complex64, p: int) -> bool {
    &&& value == conjugate_of(a.at(p % (a.rows as int), p / (a.rows as int)))
    &&& conjugate_of(value) == a.at(p % (a.rows as int), p / (a.rows as int))
}

/// At each position the factors of the Kronecker product of two identity matrices
/// are 0 or 1, and both are 1 exactly on the diagonal of the product.
proof fn lemma_kron_of_identities(m: nat, q: nat, p: int)
    requires
        0 <= p < (m * q) * (m * q),
    ensures
        is_bit(Matrix::eye(m).kron_left(Matrix::eye(q), p)),
        is_bit(Matrix::eye(m).kron_right(Matrix::eye(q), p)),
        bit_product(
            Matrix::eye(m).kron_left(Matrix::eye(q), p),
            Matrix::eye(m).kron_right(Matrix::eye(q), p),
        ) == Matrix::eye(m * q).entries[p],
{
    let (mi, qi) = (m as int, q as int);
    lemma_kron_coordinates(mi, mi, qi, qi, p);
    let y = p / (mi * qi);
    let x = p % (mi * qi);
    lemma_cell_position(y / qi, x / qi, mi, mi);
    lemma_cell_position(y % qi, x % qi, qi, qi);
    lemma_fundamental_div_mod(x, qi);
    lemma_fundamental_div_mod(y, qi);
    assert(y == x <==> (y / qi == x / qi && y % qi == x % qi));
}

} // verus!
