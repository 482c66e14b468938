//! LU decomposition by Doolittle elimination, without pivoting.

use vstd::prelude::*;
use crate::arith::{apply2, is_binary_op, lemma_apply2};
use crate::error::LinalgError;
use crate::matrix::{is_square, lemma_transpose_involutive, rows_of, transposed, Matrix};

verus! {

/// The left-to-right sum, from `zero`, of `times(L[r, j], U[j, c])` over the
/// first `t` values of `j`, where `L` and `U` are the factors of the Doolittle
/// decomposition of `a`.
pub open spec fn lu_partial_sum<
    T,
    P: Fn(T, T) -> T,
    S: Fn(T, T) -> T,
    M: Fn(T, T) -> T,
    D: Fn(T, T) -> T,
>(
    a: Seq<Seq<T>>,
    r: int,
    c: int,
    t: int,
    zero: T,
    one: T,
    plus: P,
    minus: S,
    times: M,
    divide: D,
) -> T
    decreases t, 0int,
{
    if t <= 0 {
        zero
    } else {
        apply2(
            plus,
            lu_partial_sum(a, r, c, t - 1, zero, one, plus, minus, times, divide),
            apply2(
                times,
                lu_lower_entry(a, r, t - 1, zero, one, plus, minus, times, divide),
                lu_upper_entry(a, t - 1, c, zero, one, plus, minus, times, divide),
            ),
        )
    }
}

/// Entry `[i, k]` of the upper factor of the Doolittle decomposition of `a`:
/// `zero` below the diagonal, else `a[i, k]` minus the partial sum over `j < i`.
pub open spec fn lu_upper_entry<
    T,
    P: Fn(T, T) -> T,
    S: Fn(T, T) -> T,
    M: Fn(T, T) -> T,
    D: Fn(T, T) -> T,
>(
    a: Seq<Seq<T>>,
    i: int,
    k: int,
    zero: T,
    one: T,
    plus: P,
    minus: S,
    times: M,
    divide: D,
) -> T
    decreases i, 1int,
{
    if i < 0 || k < i {
        zero
    } else {
        apply2(
            minus,
            a[i][k],
            lu_partial_sum(a, i, k, i, zero, one, plus, minus, times, divide),
        )
    }
}

/// Entry `[k, i]` of the unit lower factor of the Doolittle decomposition of
/// `a`: `zero` above the diagonal, `one` on it, and below it `a[k, i]` minus
/// the partial sum over `j < i`, divided by the pivot `U[i, i]`.
pub open spec fn lu_lower_entry<
    T,
    P: Fn(T, T) -> T,
    S: Fn(T, T) -> T,
    M: Fn(T, T) -> T,
    D: Fn(T, T) -> T,
>(
    a: Seq<Seq<T>>,
    k: int,
    i: int,
    zero: T,
    one: T,
    plus: P,
    minus: S,
    times: M,
    divide: D,
) -> T
    decreases i, 2int,
{
    if i < 0 || k < i {
        zero
    } else if k == i {
        one
    } else {
        apply2(
            divide,
            apply2(
                minus,
                a[k][i],
                lu_partial_sum(a, k, i, i, zero, one, plus, minus, times, divide),
            ),
            lu_upper_entry(a, i, i, zero, one, plus, minus, times, divide),
        )
    }
}

/// The unit lower factor of the Doolittle decomposition of the square grid `a`.
pub open spec fn lu_lower_of<
    T,
    P: Fn(T, T) -> T,
    S: Fn(T, T) -> T,
    M: Fn(T, T) -> T,
    D: Fn(T, T) -> T,
>(a: Seq<Seq<T>>, zero: T, one: T, plus: P, minus: S, times: M, divide: D) -> Seq<Seq<T>> {
    Seq::new(
        rows_of(a),
        |r: int|
            Seq::new(
                rows_of(a),
                |c: int| lu_lower_entry(a, r, c, zero, one, plus, minus, times, divide),
            ),
    )
}

/// The upper factor of the Doolittle decomposition of the square grid `a`.
pub open spec fn lu_upper_of<
    T,
    P: Fn(T, T) -> T,
    S: Fn(T, T) -> T,
    M: Fn(T, T) -> T,
    D: Fn(T, T) -> T,
>(a: Seq<Seq<T>>, zero: T, one: T, plus: P, minus: S, times: M, divide: D) -> Seq<Seq<T>> {
    Seq::new(
        rows_of(a),
        |r: int|
            Seq::new(
                rows_of(a),
                |c: int| lu_upper_entry(a, r, c, zero, one, plus, minus, times, divide),
            ),
    )
}

/// `cols` holds the first columns of the lower Doolittle factor of `a`, and
/// `rows` the first rows of its upper factor, each of length `n`.
spec fn lu_progress<T, P: Fn(T, T) -> T, S: Fn(T, T) -> T, M: Fn(T, T) -> T, D: Fn(T, T) -> T>(
    a: Seq<Seq<T>>,
    n: int,
    cols: Seq<Vec<T>>,
    rows: Seq<Vec<T>>,
    zero: T,
    one: T,
    plus: P,
    minus: S,
    times: M,
    divide: D,
) -> bool {
    &&& forall|x: int| 0 <= x < cols.len() ==> (#[trigger] cols[x])@.len() == n
    &&& forall|x: int| 0 <= x < rows.len() ==> (#[trigger] rows[x])@.len() == n
    &&& forall|x: int, y: int|
        0 <= x < cols.len() && 0 <= y < n ==> #[trigger] cols[x]@[y] == lu_lower_entry(
            a,
            y,
            x,
            zero,
            one,
            plus,
            minus,
            times,
            divide,
        )
    &&& forall|x: int, y: int|
        0 <= x < rows.len() && 0 <= y < n ==> #[trigger] rows[x]@[y] == lu_upper_entry(
            a,
            x,
            y,
            zero,
            one,
            plus,
            minus,
            times,
            divide,
        )
}

/// The partial sum of the Doolittle decomposition for entry `[r, c]` over the
/// first `t` values of `j`, read from the columns of the lower factor and the
/// rows of the upper factor found so far.
fn lu_sum<T: Copy, P: Fn(T, T) -> T, S: Fn(T, T) -> T, M: Fn(T, T) -> T, D: Fn(T, T) -> T>(
    lower_cols: &Vec<Vec<T>>,
    upper_rows: &Vec<Vec<T>>,
    r: usize,
    c: usize,
    t: usize,
    zero: T,
    one: T,
    plus: &P,
    minus: &S,
    times: &M,
    divide: &D,
    Ghost(a): Ghost<Seq<Seq<T>>>,
    Ghost(n): Ghost<int>,
) -> (out: T)
    requires
        is_binary_op(*plus),
        is_binary_op(*times),
        r < n,
        c < n,
        t <= lower_cols@.len(),
        t <= upper_rows@.len(),
        lu_progress(a, n, lower_cols@, upper_rows@, zero, one, *plus, *minus, *times, *divide),
    ensures
        out == lu_partial_sum(a, r as int, c as int, t as int, zero, one, *plus, *minus, *times, *divide),
{
    let mut acc = zero;
    let mut j: usize = 0;
    while j < t
        invariant
            is_binary_op(*plus),
            is_binary_op(*times),
            r < n,
            c < n,
            t <= lower_cols@.len(),
            t <= upper_rows@.len(),
            lu_progress(a, n, lower_cols@, upper_rows@, zero, one, *plus, *minus, *times, *divide),
            j <= t,
            acc == lu_partial_sum(a, r as int, c as int, j as int, zero, one, *plus, *minus, *times, *divide),
        decreases t - j,
    {
        let l = lower_cols[j][r];
        let u = upper_rows[j][c];
        let p = times(l, u);
        let next = plus(acc, p);
        proof {
            lemma_apply2(*times, l, u, p);
            lemma_apply2(*plus, acc, p, next);
        }
        acc = next;
        j += 1;
    }
    acc
}

impl<T: Copy> Matrix<T> {
    /// The Doolittle LU decomposition without pivoting: a unit lower factor `L`
    /// and an upper factor `U`. Fails with `NotSquare` on a matrix that is not
    /// square. A zero pivot is divided by as it stands.
    pub fn lu_decomposition<P: Fn(T, T) -> T, S: Fn(T, T) -> T, M: Fn(T, T) -> T, D: Fn(T, T) -> T>(
        &self,
        zero: T,
        one: T,
        plus: &P,
        minus: &S,
        times: &M,
        divide: &D,
    ) -> (r: Result<(Matrix<T>, Matrix<T>), LinalgError>)
        requires
            is_binary_op(*plus),
            is_binary_op(*minus),
            is_binary_op(*times),
            is_binary_op(*divide),
        ensures
            r is Ok <==> is_square(self@),
            r is Ok ==> r->Ok_0.0@ == lu_lower_of(self@, zero, one, *plus, *minus, *times, *divide),
            r is Ok ==> r->Ok_0.1@ == lu_upper_of(self@, zero, one, *plus, *minus, *times, *divide),
            r is Err ==> r->Err_0 == LinalgError::NotSquare,
    {
        let n = self.nrows();
        if n != self.ncols() {
            return Err(LinalgError::NotSquare);
        }
        let ghost a = self@;
        let mut lower_cols: Vec<Vec<T>> = Vec::new();
        let mut upper_rows: Vec<Vec<T>> = Vec::new();
        let mut i: usize = 0;
        while i < n
            invariant
                is_square(a),
                a == self@,
                n == rows_of(a),
                is_binary_op(*plus),
                is_binary_op(*minus),
                is_binary_op(*times),
                is_binary_op(*divide),
                i <= n,
                lower_cols@.len() == i,
                upper_rows@.len() == i,
                lu_progress(a, n as int, lower_cols@, upper_rows@, zero, one, *plus, *minus, *times, *divide),
            decreases n - i,
        {
            let mut urow: Vec<T> = Vec::new();
            let mut k: usize = 0;
            while k < n
                invariant
                    is_square(a),
                    a == self@,
                    n == rows_of(a),
                    is_binary_op(*plus),
                    is_binary_op(*minus),
                    is_binary_op(*times),
                    is_binary_op(*divide),
                    i < n,
                    k <= n,
                    lower_cols@.len() == i,
                    upper_rows@.len() == i,
                    lu_progress(a, n as int, lower_cols@, upper_rows@, zero, one, *plus, *minus, *times, *divide),
                    urow@.len() == k,
                    forall|y: int| 0 <= y < k ==> #[trigger] urow@[y] == lu_upper_entry(
                        a, i as int, y, zero, one, *plus, *minus, *times, *divide),
                decreases n - k,
            {
                if k < i {
                    urow.push(zero);
                } else {
                    let sum = lu_sum(&lower_cols, &upper_rows, i, k, i, zero, one, plus, minus, times, divide, Ghost(a), Ghost(n as int));
                    let entry = self.get(i, k);
                    let u = minus(entry, sum);
                    proof {
                        lemma_apply2(*minus, entry, sum, u);
                    }
                    urow.push(u);
                }
                k += 1;
            }
            upper_rows.push(urow);
            let mut lcol: Vec<T> = Vec::new();
            let mut k: usize = 0;
            while k < n
                invariant
                    is_square(a),
                    a == self@,
                    n == rows_of(a),
                    is_binary_op(*plus),
                    is_binary_op(*minus),
                    is_binary_op(*times),
                    is_binary_op(*divide),
                    i < n,
                    k <= n,
                    lower_cols@.len() == i,
                    upper_rows@.len() == i + 1,
                    lu_progress(a, n as int, lower_cols@, upper_rows@, zero, one, *plus, *minus, *times, *divide),
                    lcol@.len() == k,
                    forall|y: int| 0 <= y < k ==> #[trigger] lcol@[y] == lu_lower_entry(
                        a, y, i as int, zero, one, *plus, *minus, *times, *divide),
                decreases n - k,
            {
                if k < i {
                    lcol.push(zero);
                } else if k == i {
                    lcol.push(one);
                } else {
                    let sum = lu_sum(&lower_cols, &upper_rows, k, i, i, zero, one, plus, minus, times, divide, Ghost(a), Ghost(n as int));
                    let entry = self.get(k, i);
                    let diff = minus(entry, sum);
                    let pivot = upper_rows[i][i];
                    let l = divide(diff, pivot);
                    proof {
                        lemma_apply2(*minus, entry, sum, diff);
                        lemma_apply2(*divide, diff, pivot, l);
                    }
                    lcol.push(l);
                }
                k += 1;
            }
            lower_cols.push(lcol);
            i += 1;
        }
        let ghost lt = lower_cols@.map_values(|line: Vec<T>| line@);
        let ghost want_l = lu_lower_of(a, zero, one, *plus, *minus, *times, *divide);
        let ghost want_u = lu_upper_of(a, zero, one, *plus, *minus, *times, *divide);
        assert forall|x: int| 0 <= x < n implies lt[x] =~= transposed(want_l)[x] by {}
        assert(lt =~= transposed(want_l));
        let ghost uv = upper_rows@.map_values(|line: Vec<T>| line@);
        assert forall|x: int| 0 <= x < n implies uv[x] =~= want_u[x] by {}
        assert(uv =~= want_u);
        let columns = Matrix::from_grid(lower_cols);
        let lower = columns.transpose();
        proof {
            lemma_transpose_involutive(want_l);
        }
        Ok((lower, Matrix::from_grid(upper_rows)))
    }
}

/// The lower factor of the Doolittle decomposition is unit lower-triangular
/// and the upper factor is upper-triangular.
pub proof fn lemma_lu_triangular<
    T,
    P: Fn(T, T) -> T,
    S: Fn(T, T) -> T,
    M: Fn(T, T) -> T,
    D: Fn(T, T) -> T,
>(a: Seq<Seq<T>>, zero: T, one: T, plus: P, minus: S, times: M, divide: D)
    requires
        is_square(a),
    ensures
        forall|r: int, c: int|
            0 <= r < c < rows_of(a) ==> #[trigger] lu_lower_of(
                a,
                zero,
                one,
                plus,
                minus,
                times,
                divide,
            )[r][c] == zero,
        forall|r: int|
            0 <= r < rows_of(a) ==> #[trigger] lu_lower_of(
                a,
                zero,
                one,
                plus,
                minus,
                times,
                divide,
            )[r][r] == one,
        forall|r: int, c: int|
            0 <= c < r < rows_of(a) ==> #[trigger] lu_upper_of(
                a,
                zero,
                one,
                plus,
                minus,
                times,
                divide,
            )[r][c] == zero,
{
}

} // verus!
