//! Determinants by recursive Laplace expansion, and inverses by the adjugate.

use vstd::prelude::*;
use crate::arith::{
    apply1, apply2, holds, is_binary_op, is_predicate, is_unary_op, lemma_apply1, lemma_apply2,
    lemma_holds,
};
use crate::error::LinalgError;
use crate::matrix::{is_square, minor_of, rows_of, Matrix};

verus! {

/// The term of the Laplace expansion of `m` along its first row that belongs to
/// column `c`: `(s * m[0, c]) * det(minor(m, 0, c))`, where the sign `s` is
/// positive for even `c` and negative for odd `c`.
pub open spec fn cofactor_term<T, P: Fn(T, T) -> T, M: Fn(T, T) -> T, N: Fn(T) -> T>(
    m: Seq<Seq<T>>,
    c: int,
    zero: T,
    plus: P,
    times: M,
    neg: N,
) -> T
    decreases m.len(), 0nat,
{
    let a = if c % 2 == 0 {
        m[0][c]
    } else {
        apply1(neg, m[0][c])
    };
    if 1 < m.len() {
        apply2(times, a, det_of(minor_of(m, 0, c), zero, plus, times, neg))
    } else {
        a
    }
}

/// The left-to-right sum, from `zero`, of the terms of the first `k` columns
/// of the Laplace expansion of `m` along its first row.
pub open spec fn expansion_of<T, P: Fn(T, T) -> T, M: Fn(T, T) -> T, N: Fn(T) -> T>(
    m: Seq<Seq<T>>,
    k: int,
    zero: T,
    plus: P,
    times: M,
    neg: N,
) -> T
    decreases m.len(), k,
{
    if k <= 0 {
        zero
    } else {
        apply2(
            plus,
            expansion_of(m, k - 1, zero, plus, times, neg),
            cofactor_term(m, k - 1, zero, plus, times, neg),
        )
    }
}

/// The determinant of a square grid by Laplace expansion along the first row:
/// the single entry of a 1 x 1 grid, else the sum of the terms of all columns.
pub open spec fn det_of<T, P: Fn(T, T) -> T, M: Fn(T, T) -> T, N: Fn(T) -> T>(
    m: Seq<Seq<T>>,
    zero: T,
    plus: P,
    times: M,
    neg: N,
) -> T
    decreases m.len(), m.len() + 1,
{
    if m.len() <= 1 {
        m[0][0]
    } else {
        expansion_of(m, m.len() as int, zero, plus, times, neg)
    }
}

/// The cofactor of entry `[i, j]` of a square grid: the determinant of the
/// minor without row `i` and column `j`, negated when `i + j` is odd. The minor
/// of a 1 x 1 grid is empty, and the determinant of an empty grid is `one`.
pub open spec fn cofactor_of<T, P: Fn(T, T) -> T, M: Fn(T, T) -> T, N: Fn(T) -> T>(
    m: Seq<Seq<T>>,
    i: int,
    j: int,
    zero: T,
    one: T,
    plus: P,
    times: M,
    neg: N,
) -> T {
    let d = if rows_of(m) <= 1 {
        one
    } else {
        det_of(minor_of(m, i, j), zero, plus, times, neg)
    };
    if (i + j) % 2 == 0 {
        d
    } else {
        apply1(neg, d)
    }
}

/// The inverse of a square grid with determinant `det` by the adjugate method:
/// entry `[i, j]` is the cofactor of `[j, i]` divided by `det`.
pub open spec fn inverse_of<
    T,
    P: Fn(T, T) -> T,
    M: Fn(T, T) -> T,
    N: Fn(T) -> T,
    D: Fn(T, T) -> T,
>(m: Seq<Seq<T>>, det: T, zero: T, one: T, plus: P, times: M, neg: N, divide: D) -> Seq<Seq<T>> {
    Seq::new(
        rows_of(m),
        |i: int|
            Seq::new(
                rows_of(m),
                |j: int| apply2(divide, cofactor_of(m, j, i, zero, one, plus, times, neg), det),
            ),
    )
}

impl<T: Copy> Matrix<T> {
    /// The determinant of a square matrix, by recursive Laplace expansion.
    fn det_rec<P: Fn(T, T) -> T, M: Fn(T, T) -> T, N: Fn(T) -> T>(
        &self,
        zero: T,
        plus: &P,
        times: &M,
        neg: &N,
    ) -> (r: T)
        requires
            is_square(self@),
            is_binary_op(*plus),
            is_binary_op(*times),
            is_unary_op(*neg),
        ensures
            r == det_of(self@, zero, *plus, *times, *neg),
        decreases self@.len(),
    {
        let n = self.nrows();
        if n == 1 {
            return self.get(0, 0);
        }
        let ghost m = self@;
        let mut acc = zero;
        let mut c: usize = 0;
        while c < n
            invariant
                is_square(m),
                m == self@,
                n == m.len(),
                2 <= n,
                is_binary_op(*plus),
                is_binary_op(*times),
                is_unary_op(*neg),
                c <= n,
                acc == expansion_of(m, c as int, zero, *plus, *times, *neg),
            decreases n - c,
        {
            let entry = self.get(0, c);
            let signed = if c % 2 == 0 {
                entry
            } else {
                let e = neg(entry);
                proof {
                    lemma_apply1(*neg, entry, e);
                }
                e
            };
            let sub = self.minor(0, c);
            let d = sub.det_rec(zero, plus, times, neg);
            let t = times(signed, d);
            proof {
                lemma_apply2(*times, signed, d, t);
                assert(t == cofactor_term(m, c as int, zero, *plus, *times, *neg));
            }
            let next = plus(acc, t);
            proof {
                lemma_apply2(*plus, acc, t, next);
            }
            acc = next;
            c += 1;
        }
        acc
    }

    /// The determinant, by recursive Laplace expansion along the first row;
    /// `None` when the matrix is not square.
    pub fn determinant<P: Fn(T, T) -> T, M: Fn(T, T) -> T, N: Fn(T) -> T>(
        &self,
        zero: T,
        plus: &P,
        times: &M,
        neg: &N,
    ) -> (r: Option<T>)
        requires
            is_binary_op(*plus),
            is_binary_op(*times),
            is_unary_op(*neg),
        ensures
            r is Some <==> is_square(self@),
            r is Some ==> r->Some_0 == det_of(self@, zero, *plus, *times, *neg),
    {
        if self.nrows() != self.ncols() {
            return None;
        }
        Some(self.det_rec(zero, plus, times, neg))
    }

    /// The cofactor of entry `[i, j]` of a square matrix.
    fn cofactor<P: Fn(T, T) -> T, M: Fn(T, T) -> T, N: Fn(T) -> T>(
        &self,
        i: usize,
        j: usize,
        zero: T,
        one: T,
        plus: &P,
        times: &M,
        neg: &N,
    ) -> (r: T)
        requires
            is_square(self@),
            i < rows_of(self@),
            j < rows_of(self@),
            is_binary_op(*plus),
            is_binary_op(*times),
            is_unary_op(*neg),
        ensures
            r == cofactor_of(self@, i as int, j as int, zero, one, *plus, *times, *neg),
    {
        let d = if self.nrows() == 1 {
            one
        } else {
            self.minor(i, j).det_rec(zero, plus, times, neg)
        };
        if i % 2 == j % 2 {
            proof {
                assert((i + j) % 2 == 0);
            }
            d
        } else {
            proof {
                assert((i + j) % 2 == 1);
            }
            let r = neg(d);
            proof {
                lemma_apply1(*neg, d, r);
            }
            r
        }
    }

    /// The inverse by the adjugate method: the transposed matrix of cofactors,
    /// each divided by the determinant. Fails with `NotSquare` on a matrix that
    /// is not square, and with `Singular` when `is_zero` holds of the determinant.
    pub fn inverse<
        P: Fn(T, T) -> T,
        M: Fn(T, T) -> T,
        N: Fn(T) -> T,
        D: Fn(T, T) -> T,
        Z: Fn(T) -> bool,
    >(&self, zero: T, one: T, plus: &P, times: &M, neg: &N, divide: &D, is_zero: &Z) -> (r: Result<
        Matrix<T>,
        LinalgError,
    >)
        requires
            is_binary_op(*plus),
            is_binary_op(*times),
            is_unary_op(*neg),
            is_binary_op(*divide),
            is_predicate(*is_zero),
        ensures
            !is_square(self@) ==> r == Err::<Matrix<T>, LinalgError>(LinalgError::NotSquare),
            is_square(self@) ==> {
                let det = det_of(self@, zero, *plus, *times, *neg);
                &&& holds(*is_zero, det) ==> r == Err::<Matrix<T>, LinalgError>(
                    LinalgError::Singular,
                )
                &&& !holds(*is_zero, det) ==> r is Ok && r->Ok_0@ == inverse_of(
                    self@,
                    det,
                    zero,
                    one,
                    *plus,
                    *times,
                    *neg,
                    *divide,
                )
            },
    {
        let n = self.nrows();
        if n != self.ncols() {
            return Err(LinalgError::NotSquare);
        }
        let det = self.det_rec(zero, plus, times, neg);
        let singular = is_zero(det);
        proof {
            lemma_holds(*is_zero, det, singular);
        }
        if singular {
            return Err(LinalgError::Singular);
        }
        let ghost want = inverse_of(self@, det, zero, one, *plus, *times, *neg, *divide);
        let mut out: Vec<Vec<T>> = Vec::new();
        let mut i: usize = 0;
        while i < n
            invariant
                is_square(self@),
                n == rows_of(self@),
                is_binary_op(*plus),
                is_binary_op(*times),
                is_unary_op(*neg),
                is_binary_op(*divide),
                want == inverse_of(self@, det, zero, one, *plus, *times, *neg, *divide),
                i <= n,
                out@.len() == i,
                forall|a: int| 0 <= a < i ==> (#[trigger] out@[a])@ == want[a],
            decreases n - i,
        {
            let mut line: Vec<T> = Vec::new();
            let mut j: usize = 0;
            while j < n
                invariant
                    is_square(self@),
                    n == rows_of(self@),
                    is_binary_op(*plus),
                    is_binary_op(*times),
                    is_unary_op(*neg),
                    is_binary_op(*divide),
                    want == inverse_of(self@, det, zero, one, *plus, *times, *neg, *divide),
                    i < n,
                    j <= n,
                    line@.len() == j,
                    forall|b: int| 0 <= b < j ==> #[trigger] line@[b] == want[i as int][b],
                decreases n - j,
            {
                let c = self.cofactor(j, i, zero, one, plus, times, neg);
                let x = divide(c, det);
                proof {
                    lemma_apply2(*divide, c, det, x);
                }
                line.push(x);
                j += 1;
            }
            assert(line@ =~= want[i as int]);
            out.push(line);
            i += 1;
        }
        let ghost view = out@.map_values(|line: Vec<T>| line@);
        assert(view =~= want);
        Ok(Matrix::from_grid(out))
    }
}

} // verus!
