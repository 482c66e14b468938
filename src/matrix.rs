//! The dense matrix type, its shape-level operations, and the products.

use vstd::prelude::*;
use crate::arith::{apply2, dot_of, fold_sum, inner_product, is_binary_op, lemma_apply2, sum_of};
use crate::error::LinalgError;
use crate::vector::{zipped, Vector};

verus! {

/// `m` is a rectangular grid with at least one row and one column.
pub open spec fn is_grid<T>(m: Seq<Seq<T>>) -> bool {
    &&& m.len() >= 1
    &&& m[0].len() >= 1
    &&& forall|i: int| 0 <= i < m.len() ==> (#[trigger] m[i]).len() == m[0].len()
}

/// Number of rows of a grid.
pub open spec fn rows_of<T>(m: Seq<Seq<T>>) -> nat {
    m.len()
}

/// Number of columns of a grid.
pub open spec fn cols_of<T>(m: Seq<Seq<T>>) -> nat {
    m[0].len()
}

/// The grid with `rows` rows and `cols` columns whose entry `[i, j]` is
/// `data[i * cols + j]`.
pub open spec fn grid_from_flat<T>(rows: nat, cols: nat, data: Seq<T>) -> Seq<Seq<T>> {
    Seq::new(rows, |i: int| Seq::new(cols, |j: int| data[i * cols + j]))
}

/// The grid whose entry `[j, i]` is `m[i, j]`.
pub open spec fn transposed<T>(m: Seq<Seq<T>>) -> Seq<Seq<T>> {
    Seq::new(cols_of(m), |j: int| Seq::new(rows_of(m), |i: int| m[i][j]))
}

/// Index `i` of a sequence from which the entry at `k` was removed, as an
/// index of the full sequence.
pub open spec fn skip_index(i: int, k: int) -> int {
    if i < k {
        i
    } else {
        i + 1
    }
}

/// The grid `m` without row `r` and column `c`, the other rows and columns
/// keeping their order.
pub open spec fn minor_of<T>(m: Seq<Seq<T>>, r: int, c: int) -> Seq<Seq<T>> {
    Seq::new(
        (rows_of(m) - 1) as nat,
        |i: int| Seq::new((cols_of(m) - 1) as nat, |j: int| m[skip_index(i, r)][skip_index(j, c)]),
    )
}

/// `m` is a grid with as many rows as columns.
pub open spec fn is_square<T>(m: Seq<Seq<T>>) -> bool {
    is_grid(m) && rows_of(m) == cols_of(m)
}

/// The product of grids `a` and `b`: entry `[i, j]` is the inner product of
/// row `i` of `a` and column `j` of `b`.
pub open spec fn product_of<T, P: Fn(T, T) -> T, M: Fn(T, T) -> T>(
    a: Seq<Seq<T>>,
    b: Seq<Seq<T>>,
    zero: T,
    plus: P,
    times: M,
) -> Seq<Seq<T>> {
    Seq::new(
        rows_of(a),
        |i: int| Seq::new(cols_of(b), |j: int| dot_of(a[i], transposed(b)[j], zero, plus, times)),
    )
}

/// The entry-wise combination of two grids of the same shape with `f`.
pub open spec fn zipped_grid<T, F: Fn(T, T) -> T>(a: Seq<Seq<T>>, b: Seq<Seq<T>>, f: F) -> Seq<
    Seq<T>,
> {
    Seq::new(rows_of(a), |i: int| zipped(a[i], b[i], f))
}

/// The `n` x `n` grid with `one` on the diagonal and `zero` elsewhere.
pub open spec fn identity_of<T>(n: nat, zero: T, one: T) -> Seq<Seq<T>> {
    Seq::new(
        n,
        |i: int|
            Seq::new(
                n,
                |j: int|
                    if i == j {
                        one
                    } else {
                        zero
                    },
            ),
    )
}

/// The Kronecker product of grids `a` and `b`: entry `[i, j]` is `a`'s entry
/// of the block that holds it times `b`'s entry at its place in the block.
pub open spec fn kronecker_of<T, M: Fn(T, T) -> T>(a: Seq<Seq<T>>, b: Seq<Seq<T>>, times: M) -> Seq<
    Seq<T>,
> {
    Seq::new(
        rows_of(a) * rows_of(b),
        |i: int|
            Seq::new(
                cols_of(a) * cols_of(b),
                |j: int|
                    apply2(
                        times,
                        a[i / rows_of(b) as int][j / cols_of(b) as int],
                        b[i % rows_of(b) as int][j % cols_of(b) as int],
                    ),
            ),
    )
}

/// The product of grid `m` and the column `v`: entry `i` is the inner product
/// of row `i` and `v`.
pub open spec fn mat_vec_of<T, P: Fn(T, T) -> T, M: Fn(T, T) -> T>(
    m: Seq<Seq<T>>,
    v: Seq<T>,
    zero: T,
    plus: P,
    times: M,
) -> Seq<T> {
    Seq::new(rows_of(m), |i: int| dot_of(m[i], v, zero, plus, times))
}

/// The diagonal of a grid: the entries `[i, i]` for `i` below both the
/// number of rows and the number of columns.
pub open spec fn diagonal_of<T>(m: Seq<Seq<T>>) -> Seq<T> {
    Seq::new(
        if rows_of(m) <= cols_of(m) {
            rows_of(m)
        } else {
            cols_of(m)
        },
        |i: int| m[i][i],
    )
}

/// The entries of a grid in row-major order.
pub open spec fn flat_of<T>(m: Seq<Seq<T>>) -> Seq<T>
    decreases m.len(),
{
    if m.len() == 0 {
        Seq::empty()
    } else {
        flat_of(m.drop_last()) + m.last()
    }
}

/// A dense matrix, stored row by row.
pub struct Matrix<T> {
    data: Vec<Vec<T>>,
}

impl<T> View for Matrix<T> {
    type V = Seq<Seq<T>>;

    closed spec fn view(&self) -> Seq<Seq<T>> {
        self.data@.map_values(|row: Vec<T>| row@)
    }
}

impl<T> Matrix<T> {
    #[verifier::type_invariant]
    spec fn well_formed(&self) -> bool {
        is_grid(self@)
    }
}

impl<T: Copy> Matrix<T> {
    /// Builds a matrix from its rows. The rows must all have the same positive length.
    pub(crate) fn from_grid(data: Vec<Vec<T>>) -> (r: Matrix<T>)
        requires
            is_grid(data@.map_values(|row: Vec<T>| row@)),
        ensures
            r@ == data@.map_values(|row: Vec<T>| row@),
    {
        Matrix { data }
    }

    /// Builds a `rows` x `cols` matrix from `data`, read row by row.
    pub fn from_shape_vec(rows: usize, cols: usize, data: Vec<T>) -> (r: Result<
        Matrix<T>,
        LinalgError,
    >)
        ensures
            r is Ok <==> rows >= 1 && cols >= 1 && rows * cols == data@.len(),
            r is Ok ==> r->Ok_0@ == grid_from_flat(rows as nat, cols as nat, data@),
            r is Err ==> r->Err_0 == LinalgError::DimensionMismatch,
    {
        if rows == 0 || cols == 0 || data.len() / cols != rows || data.len() % cols != 0 {
            proof {
                if rows >= 1 && cols >= 1 && rows * cols == data@.len() {
                    vstd::arithmetic::div_mod::lemma_div_multiples_vanish(rows as int, cols as int);
                    vstd::arithmetic::div_mod::lemma_mod_multiples_basic(rows as int, cols as int);
                    assert(cols * rows == rows * cols) by (nonlinear_arith);
                }
            }
            return Err(LinalgError::DimensionMismatch);
        }
        proof {
            vstd::arithmetic::div_mod::lemma_fundamental_div_mod(data@.len() as int, cols as int);
            assert(rows * cols == cols * rows) by (nonlinear_arith);
        }
        let ghost want = grid_from_flat(rows as nat, cols as nat, data@);
        let len = data.len();
        let mut out: Vec<Vec<T>> = Vec::new();
        let mut k: usize = 0;
        let mut i: usize = 0;
        while i < rows
            invariant
                rows >= 1,
                cols >= 1,
                rows * cols == data@.len(),
                len == data@.len(),
                i <= rows,
                k == i * cols,
                want == grid_from_flat(rows as nat, cols as nat, data@),
                out@.len() == i,
                forall|a: int| 0 <= a < i ==> (#[trigger] out@[a])@ == want[a],
            decreases rows - i,
        {
            proof {
                assert((i + 1) * cols <= rows * cols) by (nonlinear_arith)
                    requires
                        i < rows,
                        cols >= 1,
                ;
                assert((i + 1) * cols == i * cols + cols) by (nonlinear_arith);
            }
            let mut row: Vec<T> = Vec::new();
            let mut j: usize = 0;
            while j < cols
                invariant
                    cols >= 1,
                    i < rows,
                    rows * cols == data@.len(),
                    len == data@.len(),
                    (i + 1) * cols <= rows * cols,
                    (i + 1) * cols == i * cols + cols,
                    j <= cols,
                    k == i * cols + j,
                    row@.len() == j,
                    forall|b: int| 0 <= b < j ==> #[trigger] row@[b] == data@[i * cols + b],
                decreases cols - j,
            {
                assert(k < data@.len());
                row.push(data[k]);
                k += 1;
                j += 1;
            }
            assert(row@ =~= want[i as int]);
            out.push(row);
            i += 1;
        }
        let ghost view = out@.map_values(|row: Vec<T>| row@);
        assert(view =~= want);
        Ok(Matrix::from_grid(out))
    }

    /// Number of rows.
    pub fn nrows(&self) -> (r: usize)
        ensures
            r == rows_of(self@),
            is_grid(self@),
    {
        proof {
            use_type_invariant(self);
        }
        self.data.len()
    }

    /// Number of columns.
    pub fn ncols(&self) -> (r: usize)
        ensures
            r == cols_of(self@),
            is_grid(self@),
    {
        proof {
            use_type_invariant(self);
        }
        self.data[0].len()
    }

    /// The entry in row `i` and column `j`.
    pub fn get(&self, i: usize, j: usize) -> (r: T)
        requires
            i < rows_of(self@),
            j < cols_of(self@),
        ensures
            r == self@[i as int][j as int],
    {
        proof {
            use_type_invariant(self);
            assert(self.data@[i as int]@ == self@[i as int]);
        }
        self.data[i][j]
    }

    /// The matrix whose entry `[j, i]` is this matrix's entry `[i, j]`.
    pub fn transpose(&self) -> (r: Matrix<T>)
        ensures
            r@ == transposed(self@),
    {
        let rows = self.nrows();
        let cols = self.ncols();
        let ghost want = transposed(self@);
        let mut out: Vec<Vec<T>> = Vec::new();
        let mut j: usize = 0;
        while j < cols
            invariant
                is_grid(self@),
                rows == rows_of(self@),
                cols == cols_of(self@),
                want == transposed(self@),
                j <= cols,
                out@.len() == j,
                forall|a: int| 0 <= a < j ==> (#[trigger] out@[a])@ == want[a],
            decreases cols - j,
        {
            let mut col: Vec<T> = Vec::new();
            let mut i: usize = 0;
            while i < rows
                invariant
                    is_grid(self@),
                    rows == rows_of(self@),
                    cols == cols_of(self@),
                    j < cols,
                    i <= rows,
                    col@.len() == i,
                    forall|b: int| 0 <= b < i ==> #[trigger] col@[b] == self@[b][j as int],
                decreases rows - i,
            {
                col.push(self.get(i, j));
                i += 1;
            }
            assert(col@ =~= want[j as int]);
            out.push(col);
            j += 1;
        }
        let ghost view = out@.map_values(|row: Vec<T>| row@);
        assert(view =~= want);
        Matrix::from_grid(out)
    }

    /// The matrix without row `row` and column `col`.
    pub fn minor(&self, row: usize, col: usize) -> (r: Matrix<T>)
        requires
            2 <= rows_of(self@),
            2 <= cols_of(self@),
            row < rows_of(self@),
            col < cols_of(self@),
        ensures
            r@ == minor_of(self@, row as int, col as int),
    {
        let rows = self.nrows();
        let cols = self.ncols();
        let ghost want = minor_of(self@, row as int, col as int);
        let mut out: Vec<Vec<T>> = Vec::new();
        let mut i: usize = 0;
        while i < rows
            invariant
                is_grid(self@),
                rows == rows_of(self@),
                cols == cols_of(self@),
                2 <= rows,
                2 <= cols,
                row < rows,
                col < cols,
                want == minor_of(self@, row as int, col as int),
                i <= rows,
                out@.len() == if i <= row { i as int } else { i - 1 },
                forall|a: int| 0 <= a < out@.len() ==> (#[trigger] out@[a])@ == want[a],
            decreases rows - i,
        {
            if i != row {
                let mut line: Vec<T> = Vec::new();
                let mut j: usize = 0;
                while j < cols
                    invariant
                        is_grid(self@),
                        rows == rows_of(self@),
                        cols == cols_of(self@),
                        i < rows,
                        col < cols,
                        j <= cols,
                        line@.len() == if j <= col { j as int } else { j - 1 },
                        forall|b: int|
                            0 <= b < line@.len() ==> #[trigger] line@[b] == self@[i as int][skip_index(b, col as int)],
                    decreases cols - j,
                {
                    if j != col {
                        line.push(self.get(i, j));
                    }
                    j += 1;
                }
                let ghost at = out@.len() as int;
                assert(skip_index(at, row as int) == i);
                assert(line@ =~= want[at]);
                out.push(line);
            }
            i += 1;
        }
        let ghost view = out@.map_values(|line: Vec<T>| line@);
        assert(view =~= want);
        Matrix::from_grid(out)
    }

    /// Row `i`.
    pub fn row(&self, i: usize) -> (r: Vec<T>)
        requires
            i < rows_of(self@),
        ensures
            r@ == self@[i as int],
    {
        proof {
            use_type_invariant(self);
            assert(self.data@[i as int]@ == self@[i as int]);
        }
        let src = &self.data[i];
        let mut r: Vec<T> = Vec::new();
        let mut k: usize = 0;
        while k < src.len()
            invariant
                k <= src@.len(),
                r@ == src@.take(k as int),
            decreases src@.len() - k,
        {
            r.push(src[k]);
            k += 1;
            proof {
                assert(r@ =~= src@.take(k as int));
            }
        }
        proof {
            assert(src@.take(src@.len() as int) == src@);
        }
        r
    }

    /// The matrix product. Fails with `DimensionMismatch` unless this matrix has
    /// as many columns as `other` has rows.
    pub fn multiply<P: Fn(T, T) -> T, M: Fn(T, T) -> T>(
        &self,
        other: &Matrix<T>,
        zero: T,
        plus: &P,
        times: &M,
    ) -> (r: Result<Matrix<T>, LinalgError>)
        requires
            is_binary_op(*plus),
            is_binary_op(*times),
        ensures
            r is Ok <==> cols_of(self@) == rows_of(other@),
            r is Ok ==> r->Ok_0@ == product_of(self@, other@, zero, *plus, *times),
            r is Err ==> r->Err_0 == LinalgError::DimensionMismatch,
    {
        let n = self.nrows();
        let p = self.ncols();
        let m = other.ncols();
        if p != other.nrows() {
            return Err(LinalgError::DimensionMismatch);
        }
        let columns = other.transpose();
        let ghost want = product_of(self@, other@, zero, *plus, *times);
        let mut out: Vec<Vec<T>> = Vec::new();
        let mut i: usize = 0;
        while i < n
            invariant
                is_grid(self@),
                is_grid(other@),
                n == rows_of(self@),
                p == cols_of(self@),
                p == rows_of(other@),
                m == cols_of(other@),
                columns@ == transposed(other@),
                is_binary_op(*plus),
                is_binary_op(*times),
                want == product_of(self@, other@, zero, *plus, *times),
                i <= n,
                out@.len() == i,
                forall|a: int| 0 <= a < i ==> (#[trigger] out@[a])@ == want[a],
            decreases n - i,
        {
            let left = self.row(i);
            let mut line: Vec<T> = Vec::new();
            let mut j: usize = 0;
            while j < m
                invariant
                    is_grid(self@),
                    is_grid(other@),
                    n == rows_of(self@),
                    p == cols_of(self@),
                    p == rows_of(other@),
                    m == cols_of(other@),
                    columns@ == transposed(other@),
                    left@ == self@[i as int],
                    is_binary_op(*plus),
                    is_binary_op(*times),
                    want == product_of(self@, other@, zero, *plus, *times),
                    i < n,
                    j <= m,
                    line@.len() == j,
                    forall|b: int| 0 <= b < j ==> #[trigger] line@[b] == want[i as int][b],
                decreases m - j,
            {
                let right = columns.row(j);
                line.push(inner_product(&left, &right, zero, plus, times));
                j += 1;
            }
            assert(line@ =~= want[i as int]);
            out.push(line);
            i += 1;
        }
        let ghost view = out@.map_values(|line: Vec<T>| line@);
        assert(view =~= want);
        Ok(Matrix::from_grid(out))
    }

    /// Entry-wise sum. Fails with `DimensionMismatch` unless both matrices have
    /// the same shape.
    pub fn add<P: Fn(T, T) -> T>(&self, other: &Matrix<T>, plus: &P) -> (r: Result<
        Matrix<T>,
        LinalgError,
    >)
        requires
            is_binary_op(*plus),
        ensures
            r is Ok <==> rows_of(self@) == rows_of(other@) && cols_of(self@) == cols_of(other@),
            r is Ok ==> r->Ok_0@ == zipped_grid(self@, other@, *plus),
            r is Err ==> r->Err_0 == LinalgError::DimensionMismatch,
    {
        let n = self.nrows();
        let m = self.ncols();
        if n != other.nrows() || m != other.ncols() {
            return Err(LinalgError::DimensionMismatch);
        }
        let ghost want = zipped_grid(self@, other@, *plus);
        let mut out: Vec<Vec<T>> = Vec::new();
        let mut i: usize = 0;
        while i < n
            invariant
                is_grid(self@),
                is_grid(other@),
                n == rows_of(self@),
                n == rows_of(other@),
                m == cols_of(self@),
                m == cols_of(other@),
                is_binary_op(*plus),
                want == zipped_grid(self@, other@, *plus),
                i <= n,
                out@.len() == i,
                forall|a: int| 0 <= a < i ==> (#[trigger] out@[a])@ == want[a],
            decreases n - i,
        {
            let mut line: Vec<T> = Vec::new();
            let mut j: usize = 0;
            while j < m
                invariant
                    is_grid(self@),
                    is_grid(other@),
                    n == rows_of(self@),
                    n == rows_of(other@),
                    m == cols_of(self@),
                    m == cols_of(other@),
                    is_binary_op(*plus),
                    i < n,
                    j <= m,
                    line@.len() == j,
                    forall|b: int| 0 <= b < j ==> #[trigger] line@[b] == apply2(
                        *plus,
                        self@[i as int][b],
                        other@[i as int][b],
                    ),
                decreases m - j,
            {
                let x = self.get(i, j);
                let y = other.get(i, j);
                let s = plus(x, y);
                proof {
                    lemma_apply2(*plus, x, y, s);
                }
                line.push(s);
                j += 1;
            }
            assert(line@ =~= want[i as int]);
            out.push(line);
            i += 1;
        }
        let ghost view = out@.map_values(|line: Vec<T>| line@);
        assert(view =~= want);
        Ok(Matrix::from_grid(out))
    }

    /// The `rows` x `cols` matrix with every entry `zero`.
    pub fn zero(rows: usize, cols: usize, zero: T) -> (r: Matrix<T>)
        requires
            rows >= 1,
            cols >= 1,
        ensures
            r@ == Seq::new(rows as nat, |i: int| Seq::new(cols as nat, |j: int| zero)),
    {
        let ghost want = Seq::new(rows as nat, |i: int| Seq::new(cols as nat, |j: int| zero));
        let mut out: Vec<Vec<T>> = Vec::new();
        let mut i: usize = 0;
        while i < rows
            invariant
                rows >= 1,
                cols >= 1,
                want == Seq::new(rows as nat, |i: int| Seq::new(cols as nat, |j: int| zero)),
                i <= rows,
                out@.len() == i,
                forall|a: int| 0 <= a < i ==> (#[trigger] out@[a])@ == want[a],
            decreases rows - i,
        {
            let mut line: Vec<T> = Vec::new();
            let mut j: usize = 0;
            while j < cols
                invariant
                    j <= cols,
                    line@.len() == j,
                    forall|b: int| 0 <= b < j ==> #[trigger] line@[b] == zero,
                decreases cols - j,
            {
                line.push(zero);
                j += 1;
            }
            assert(line@ =~= want[i as int]);
            out.push(line);
            i += 1;
        }
        let ghost view = out@.map_values(|line: Vec<T>| line@);
        assert(view =~= want);
        Matrix::from_grid(out)
    }

    /// The `size` x `size` identity matrix: `one` on the diagonal, `zero` elsewhere.
    pub fn identity(size: usize, zero: T, one: T) -> (r: Matrix<T>)
        requires
            size >= 1,
        ensures
            r@ == identity_of(size as nat, zero, one),
    {
        let ghost want = identity_of(size as nat, zero, one);
        let mut out: Vec<Vec<T>> = Vec::new();
        let mut i: usize = 0;
        while i < size
            invariant
                size >= 1,
                want == identity_of(size as nat, zero, one),
                i <= size,
                out@.len() == i,
                forall|a: int| 0 <= a < i ==> (#[trigger] out@[a])@ == want[a],
            decreases size - i,
        {
            let mut line: Vec<T> = Vec::new();
            let mut j: usize = 0;
            while j < size
                invariant
                    i < size,
                    j <= size,
                    line@.len() == j,
                    forall|b: int| 0 <= b < j ==> #[trigger] line@[b] == if i == b {
                        one
                    } else {
                        zero
                    },
                decreases size - j,
            {
                if i == j {
                    line.push(one);
                } else {
                    line.push(zero);
                }
                j += 1;
            }
            assert(line@ =~= want[i as int]);
            out.push(line);
            i += 1;
        }
        let ghost view = out@.map_values(|line: Vec<T>| line@);
        assert(view =~= want);
        Matrix::from_grid(out)
    }

    /// The product of this matrix and the column vector `v`. Fails with
    /// `DimensionMismatch` unless this matrix has as many columns as `v` has entries.
    pub fn multiply_vector<P: Fn(T, T) -> T, M: Fn(T, T) -> T>(
        &self,
        v: &Vector<T>,
        zero: T,
        plus: &P,
        times: &M,
    ) -> (r: Result<Vector<T>, LinalgError>)
        requires
            is_binary_op(*plus),
            is_binary_op(*times),
        ensures
            r is Ok <==> cols_of(self@) == v@.len(),
            r is Ok ==> r->Ok_0@ == mat_vec_of(self@, v@, zero, *plus, *times),
            r is Err ==> r->Err_0 == LinalgError::DimensionMismatch,
    {
        let n = self.nrows();
        if self.ncols() != v.len() {
            return Err(LinalgError::DimensionMismatch);
        }
        let column = v.to_vec();
        let ghost want = mat_vec_of(self@, v@, zero, *plus, *times);
        let mut out: Vec<T> = Vec::new();
        let mut i: usize = 0;
        while i < n
            invariant
                is_grid(self@),
                n == rows_of(self@),
                cols_of(self@) == v@.len(),
                column@ == v@,
                is_binary_op(*plus),
                is_binary_op(*times),
                want == mat_vec_of(self@, v@, zero, *plus, *times),
                i <= n,
                out@.len() == i,
                forall|a: int| 0 <= a < i ==> #[trigger] out@[a] == want[a],
            decreases n - i,
        {
            let line = self.row(i);
            out.push(inner_product(&line, &column, zero, plus, times));
            i += 1;
        }
        assert(out@ =~= want);
        Ok(Vector::from_nonempty(out))
    }

    /// The sum of the diagonal entries, from `zero`, in order.
    pub fn trace<P: Fn(T, T) -> T>(&self, zero: T, plus: &P) -> (r: T)
        requires
            is_binary_op(*plus),
        ensures
            r == sum_of(diagonal_of(self@), zero, *plus),
    {
        let n = self.nrows();
        let m = self.ncols();
        let k = if n <= m {
            n
        } else {
            m
        };
        let mut diag: Vec<T> = Vec::new();
        let mut i: usize = 0;
        while i < k
            invariant
                is_grid(self@),
                n == rows_of(self@),
                m == cols_of(self@),
                k == diagonal_of(self@).len(),
                i <= k,
                diag@.len() == i,
                forall|a: int| 0 <= a < i ==> #[trigger] diag@[a] == self@[a][a],
            decreases k - i,
        {
            diag.push(self.get(i, i));
            i += 1;
        }
        assert(diag@ =~= diagonal_of(self@));
        fold_sum(&diag, zero, plus)
    }

    /// The Kronecker product: block `[p, q]` of the result is `other` with every
    /// entry multiplied into this matrix's entry `[p, q]`.
    pub fn kronecker_product<M: Fn(T, T) -> T>(&self, other: &Matrix<T>, times: &M) -> (r: Matrix<T>)
        requires
            rows_of(self@) * rows_of(other@) <= usize::MAX,
            cols_of(self@) * cols_of(other@) <= usize::MAX,
            is_binary_op(*times),
        ensures
            r@ == kronecker_of(self@, other@, *times),
    {
        let ar = self.nrows();
        let ac = self.ncols();
        let br = other.nrows();
        let bc = other.ncols();
        let ghost want = kronecker_of(self@, other@, *times);
        let mut out: Vec<Vec<T>> = Vec::new();
        let mut p: usize = 0;
        while p < ar
            invariant
                is_grid(self@),
                is_grid(other@),
                ar == rows_of(self@),
                ac == cols_of(self@),
                br == rows_of(other@),
                bc == cols_of(other@),
                ar * br <= usize::MAX,
                ac * bc <= usize::MAX,
                is_binary_op(*times),
                want == kronecker_of(self@, other@, *times),
                p <= ar,
                out@.len() == p * br,
                forall|x: int| 0 <= x < out@.len() ==> (#[trigger] out@[x])@ == want[x],
            decreases ar - p,
        {
            let mut s: usize = 0;
            while s < br
                invariant
                    is_grid(self@),
                    is_grid(other@),
                    ar == rows_of(self@),
                    ac == cols_of(self@),
                    br == rows_of(other@),
                    bc == cols_of(other@),
                    ar * br <= usize::MAX,
                    ac * bc <= usize::MAX,
                    is_binary_op(*times),
                    want == kronecker_of(self@, other@, *times),
                    p < ar,
                    s <= br,
                    out@.len() == p * br + s,
                    forall|x: int| 0 <= x < out@.len() ==> (#[trigger] out@[x])@ == want[x],
                decreases br - s,
            {
                let ghost row_index = p * br + s;
                proof {
                    assert(row_index < ar * br) by (nonlinear_arith)
                        requires
                            row_index == p * br + s,
                            p < ar,
                            s < br,
                    ;
                    vstd::arithmetic::div_mod::lemma_fundamental_div_mod_converse(
                        row_index,
                        br as int,
                        p as int,
                        s as int,
                    );
                }
                let mut line: Vec<T> = Vec::new();
                let mut q: usize = 0;
                while q < ac
                    invariant
                        is_grid(self@),
                        is_grid(other@),
                        ar == rows_of(self@),
                        ac == cols_of(self@),
                        br == rows_of(other@),
                        bc == cols_of(other@),
                        ac * bc <= usize::MAX,
                        is_binary_op(*times),
                        p < ar,
                        s < br,
                        q <= ac,
                        line@.len() == q * bc,
                        forall|y: int| 0 <= y < line@.len() ==> #[trigger] line@[y] == apply2(
                            *times,
                            self@[p as int][y / bc as int],
                            other@[s as int][y % bc as int],
                        ),
                    decreases ac - q,
                {
                    let mut t: usize = 0;
                    while t < bc
                        invariant
                            is_grid(self@),
                            is_grid(other@),
                            ar == rows_of(self@),
                            ac == cols_of(self@),
                            br == rows_of(other@),
                            bc == cols_of(other@),
                            ac * bc <= usize::MAX,
                            is_binary_op(*times),
                            p < ar,
                            s < br,
                            q < ac,
                            t <= bc,
                            line@.len() == q * bc + t,
                            forall|y: int| 0 <= y < line@.len() ==> #[trigger] line@[y] == apply2(
                                *times,
                                self@[p as int][y / bc as int],
                                other@[s as int][y % bc as int],
                            ),
                        decreases bc - t,
                    {
                        let x = self.get(p, q);
                        let y = other.get(s, t);
                        let e = times(x, y);
                        proof {
                            lemma_apply2(*times, x, y, e);
                            vstd::arithmetic::div_mod::lemma_fundamental_div_mod_converse(
                                q * bc + t,
                                bc as int,
                                q as int,
                                t as int,
                            );
                        }
                        line.push(e);
                        t += 1;
                    }
                    proof {
                        assert((q + 1) * bc == q * bc + bc) by (nonlinear_arith);
                    }
                    q += 1;
                }
                proof {
                    assert(line@.len() == ac * bc);
                    assert(line@ =~= want[row_index]);
                }
                out.push(line);
                s += 1;
            }
            proof {
                assert((p + 1) * br == p * br + br) by (nonlinear_arith);
            }
            p += 1;
        }
        let ghost view = out@.map_values(|line: Vec<T>| line@);
        assert(view =~= want);
        proof {
            assert(ar * br >= 1 && ac * bc >= 1) by (nonlinear_arith)
                requires
                    ar >= 1,
                    br >= 1,
                    ac >= 1,
                    bc >= 1,
            ;
        }
        Matrix::from_grid(out)
    }

    /// The entries in row-major order.
    pub fn flatten(&self) -> (r: Vec<T>)
        ensures
            r@ == flat_of(self@),
    {
        let n = self.nrows();
        let mut out: Vec<T> = Vec::new();
        let mut i: usize = 0;
        while i < n
            invariant
                is_grid(self@),
                n == rows_of(self@),
                i <= n,
                out@ == flat_of(self@.take(i as int)),
            decreases n - i,
        {
            let mut line = self.row(i);
            proof {
                assert(self@.take(i + 1).drop_last() == self@.take(i as int));
                assert(self@.take(i + 1).last() == self@[i as int]);
            }
            out.append(&mut line);
            i += 1;
        }
        proof {
            assert(self@.take(n as int) == self@);
        }
        out
    }

}

/// Transposing twice gives back the matrix.
pub proof fn lemma_transpose_involutive<T>(m: Seq<Seq<T>>)
    requires
        is_grid(m),
    ensures
        is_grid(transposed(m)),
        transposed(transposed(m)) == m,
{
    let t = transposed(m);
    assert(t[0].len() == rows_of(m));
    assert(transposed(t) =~~= m);
}

/// Adding matrices is commutative when the scalar addition is: the sum of
/// `a` and `b` equals the sum of `b` and `a`.
pub proof fn lemma_add_commutative<T, P: Fn(T, T) -> T>(a: Seq<Seq<T>>, b: Seq<Seq<T>>, plus: P)
    requires
        is_grid(a),
        is_grid(b),
        rows_of(a) == rows_of(b),
        cols_of(a) == cols_of(b),
        forall|x: T, y: T| #[trigger] apply2(plus, x, y) == apply2(plus, y, x),
    ensures
        zipped_grid(a, b, plus) == zipped_grid(b, a, plus),
{
    assert forall|i: int| 0 <= i < rows_of(a) implies zipped_grid(a, b, plus)[i] =~= zipped_grid(
        b,
        a,
        plus,
    )[i] by {
        assert(a[i].len() == b[i].len());
    }
    assert(zipped_grid(a, b, plus) =~= zipped_grid(b, a, plus));
}

/// Entry `[p * rows(b) + s, q * cols(b) + t]` of the Kronecker product of `a`
/// and `b` is `a[p, q]` times `b[s, t]`, and the product has
/// `rows(a) * rows(b)` rows of `cols(a) * cols(b)` entries.
pub proof fn lemma_kronecker_entry<T, M: Fn(T, T) -> T>(
    a: Seq<Seq<T>>,
    b: Seq<Seq<T>>,
    times: M,
    p: int,
    q: int,
    s: int,
    t: int,
)
    requires
        is_grid(a),
        is_grid(b),
        0 <= p < rows_of(a),
        0 <= q < cols_of(a),
        0 <= s < rows_of(b),
        0 <= t < cols_of(b),
    ensures
        is_grid(kronecker_of(a, b, times)),
        rows_of(kronecker_of(a, b, times)) == rows_of(a) * rows_of(b),
        cols_of(kronecker_of(a, b, times)) == cols_of(a) * cols_of(b),
        kronecker_of(a, b, times)[p * rows_of(b) + s][q * cols_of(b) + t] == apply2(
            times,
            a[p][q],
            b[s][t],
        ),
{
    let ra = rows_of(a) as int;
    let ca = cols_of(a) as int;
    let rb = rows_of(b) as int;
    let cb = cols_of(b) as int;
    assert(p * rb + s < ra * rb) by (nonlinear_arith)
        requires
            0 <= p < ra,
            0 <= s < rb,
    ;
    assert(q * cb + t < ca * cb) by (nonlinear_arith)
        requires
            0 <= q < ca,
            0 <= t < cb,
    ;
    assert(p * rb + s >= 0 && q * cb + t >= 0) by (nonlinear_arith)
        requires
            0 <= p,
            0 <= s,
            0 <= q,
            0 <= t,
            rb >= 1,
            cb >= 1,
    ;
    assert(ra * rb >= 1 && ca * cb >= 1) by (nonlinear_arith)
        requires
            ra >= 1,
            rb >= 1,
            ca >= 1,
            cb >= 1,
    ;
    vstd::arithmetic::div_mod::lemma_fundamental_div_mod_converse(p * rb + s, rb, p, s);
    vstd::arithmetic::div_mod::lemma_fundamental_div_mod_converse(q * cb + t, cb, q, t);
}

} // verus!
