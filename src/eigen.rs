//! Power iteration for the dominant eigenvector, and the Rayleigh quotient.

use vstd::prelude::*;
use crate::arith::{
    apply2, dot_of, holds, is_binary_op, is_predicate, is_relation, is_unary_op, lemma_apply2,
    lemma_holds, lemma_related, related,
};
use crate::error::LinalgError;
use crate::matrix::{cols_of, is_square, mat_vec_of, rows_of, Matrix};
use crate::vector::{normalized_of, Vector};

verus! {

/// The iterate of power iteration on `m` after `k` steps: the vector of ones
/// at first, then each time the normalized product of `m` and the previous one.
pub open spec fn power_iterate<
    T,
    P: Fn(T, T) -> T,
    M: Fn(T, T) -> T,
    R: Fn(T) -> T,
    D: Fn(T, T) -> T,
    Z: Fn(T) -> bool,
>(
    m: Seq<Seq<T>>,
    k: nat,
    zero: T,
    one: T,
    plus: P,
    times: M,
    sqrt: R,
    divide: D,
    is_zero: Z,
) -> Seq<T>
    decreases k,
{
    if k == 0 {
        Seq::new(rows_of(m), |i: int| one)
    } else {
        normalized_of(
            mat_vec_of(
                m,
                power_iterate(m, (k - 1) as nat, zero, one, plus, times, sqrt, divide, is_zero),
                zero,
                plus,
                times,
            ),
            zero,
            plus,
            times,
            sqrt,
            divide,
            is_zero,
        )
    }
}

/// `close` holds of every entry of `next` and the entry of `prev` at the same place.
pub open spec fn settled<T, C: Fn(T, T) -> bool>(prev: Seq<T>, next: Seq<T>, close: C) -> bool {
    forall|i: int| 0 <= i < next.len() ==> #[trigger] related(close, next[i], prev[i])
}

/// Power iteration on `m` settles in its step from iterate `k` to iterate `k + 1`.
pub open spec fn settles_at<
    T,
    P: Fn(T, T) -> T,
    M: Fn(T, T) -> T,
    R: Fn(T) -> T,
    D: Fn(T, T) -> T,
    Z: Fn(T) -> bool,
    C: Fn(T, T) -> bool,
>(
    m: Seq<Seq<T>>,
    k: nat,
    zero: T,
    one: T,
    plus: P,
    times: M,
    sqrt: R,
    divide: D,
    is_zero: Z,
    close: C,
) -> bool {
    settled(
        power_iterate(m, k, zero, one, plus, times, sqrt, divide, is_zero),
        power_iterate(m, k + 1, zero, one, plus, times, sqrt, divide, is_zero),
        close,
    )
}

/// The Rayleigh quotient of `m` and `v`: `((m v) . v) / (v . v)`.
pub open spec fn rayleigh_of<T, P: Fn(T, T) -> T, M: Fn(T, T) -> T, D: Fn(T, T) -> T>(
    m: Seq<Seq<T>>,
    v: Seq<T>,
    zero: T,
    plus: P,
    times: M,
    divide: D,
) -> T {
    apply2(
        divide,
        dot_of(mat_vec_of(m, v, zero, plus, times), v, zero, plus, times),
        dot_of(v, v, zero, plus, times),
    )
}

/// Whether `close` holds of every entry of `next` and the entry of `prev` at
/// the same place.
fn all_close<T: Copy, C: Fn(T, T) -> bool>(prev: &Vector<T>, next: &Vector<T>, close: &C) -> (r:
    bool)
    requires
        prev@.len() == next@.len(),
        is_relation(*close),
    ensures
        r == settled(prev@, next@, *close),
{
    let n = next.len();
    let mut i: usize = 0;
    while i < n
        invariant
            n == next@.len(),
            n == prev@.len(),
            is_relation(*close),
            i <= n,
            forall|j: int| 0 <= j < i ==> #[trigger] related(*close, next@[j], prev@[j]),
        decreases n - i,
    {
        let a = next.get(i);
        let b = prev.get(i);
        let ok = close(a, b);
        proof {
            lemma_related(*close, a, b, ok);
        }
        if !ok {
            return false;
        }
        i += 1;
    }
    true
}

impl<T: Copy> Matrix<T> {
    /// The dominant eigenvector by power iteration: start from the vector of
    /// ones and replace it by the normalized product of the matrix and it, until
    /// `close` holds of each new entry and the old one. Fails with
    /// `DimensionMismatch` on a matrix that is not square, and with
    /// `NonConvergence` when `max_iters` steps do not settle.
    pub fn eigenvector<
        P: Fn(T, T) -> T,
        M: Fn(T, T) -> T,
        R: Fn(T) -> T,
        D: Fn(T, T) -> T,
        Z: Fn(T) -> bool,
        C: Fn(T, T) -> bool,
    >(
        &self,
        max_iters: usize,
        zero: T,
        one: T,
        plus: &P,
        times: &M,
        sqrt: &R,
        divide: &D,
        is_zero: &Z,
        close: &C,
    ) -> (r: Result<Vector<T>, LinalgError>)
        requires
            is_binary_op(*plus),
            is_binary_op(*times),
            is_unary_op(*sqrt),
            is_binary_op(*divide),
            is_predicate(*is_zero),
            is_relation(*close),
        ensures
            !is_square(self@) ==> r == Err::<Vector<T>, LinalgError>(
                LinalgError::DimensionMismatch,
            ),
            is_square(self@) ==> (r is Ok <==> exists|k: nat|
                k < max_iters && #[trigger] settles_at(
                    self@,
                    k,
                    zero,
                    one,
                    *plus,
                    *times,
                    *sqrt,
                    *divide,
                    *is_zero,
                    *close,
                )),
            is_square(self@) && r is Err ==> r->Err_0 == LinalgError::NonConvergence,
            r is Ok ==> exists|k: nat|
                {
                    &&& k < max_iters
                    &&& #[trigger] settles_at(
                        self@,
                        k,
                        zero,
                        one,
                        *plus,
                        *times,
                        *sqrt,
                        *divide,
                        *is_zero,
                        *close,
                    )
                    &&& forall|j: nat|
                        j < k ==> !#[trigger] settles_at(
                            self@,
                            j,
                            zero,
                            one,
                            *plus,
                            *times,
                            *sqrt,
                            *divide,
                            *is_zero,
                            *close,
                        )
                    &&& r->Ok_0@ == power_iterate(
                        self@,
                        k + 1,
                        zero,
                        one,
                        *plus,
                        *times,
                        *sqrt,
                        *divide,
                        *is_zero,
                    )
                },
    {
        let n = self.nrows();
        if n != self.ncols() {
            return Err(LinalgError::DimensionMismatch);
        }
        let mut start: Vec<T> = Vec::new();
        let mut i: usize = 0;
        while i < n
            invariant
                i <= n,
                start@.len() == i,
                forall|j: int| 0 <= j < i ==> #[trigger] start@[j] == one,
            decreases n - i,
        {
            start.push(one);
            i += 1;
        }
        let ghost m = self@;
        assert(start@ =~= power_iterate(m, 0, zero, one, *plus, *times, *sqrt, *divide, *is_zero));
        let mut current = Vector::from_nonempty(start);
        let mut step: usize = 0;
        while step < max_iters
            invariant
                is_square(m),
                m == self@,
                n == rows_of(m),
                is_binary_op(*plus),
                is_binary_op(*times),
                is_unary_op(*sqrt),
                is_binary_op(*divide),
                is_predicate(*is_zero),
                is_relation(*close),
                step <= max_iters,
                current@ == power_iterate(
                    m,
                    step as nat,
                    zero,
                    one,
                    *plus,
                    *times,
                    *sqrt,
                    *divide,
                    *is_zero,
                ),
                forall|j: nat|
                    j < step ==> !#[trigger] settles_at(
                        m,
                        j,
                        zero,
                        one,
                        *plus,
                        *times,
                        *sqrt,
                        *divide,
                        *is_zero,
                        *close,
                    ),
            decreases max_iters - step,
        {
            let product = match self.multiply_vector(&current, zero, plus, times) {
                Ok(p) => p,
                Err(e) => {
                    return Err(e);
                },
            };
            let next = product.normalize(zero, plus, times, sqrt, divide, is_zero);
            assert(next@ == power_iterate(
                m,
                (step + 1) as nat,
                zero,
                one,
                *plus,
                *times,
                *sqrt,
                *divide,
                *is_zero,
            ));
            if all_close(&current, &next, close) {
                assert(settles_at(m, step as nat, zero, one, *plus, *times, *sqrt, *divide, *is_zero, *close));
                return Ok(next);
            }
            current = next;
            step += 1;
        }
        Err(LinalgError::NonConvergence)
    }

    /// The Rayleigh quotient `((A v) . v) / (v . v)`, the eigenvalue estimate
    /// for `v`. Fails with `DimensionMismatch` unless the matrix is square with
    /// as many rows as `v` has entries, and with `DegenerateQuotient` when
    /// `is_zero` holds of `v . v`.
    pub fn eigenvalue<P: Fn(T, T) -> T, M: Fn(T, T) -> T, D: Fn(T, T) -> T, Z: Fn(T) -> bool>(
        &self,
        v: &Vector<T>,
        zero: T,
        plus: &P,
        times: &M,
        divide: &D,
        is_zero: &Z,
    ) -> (r: Result<T, LinalgError>)
        requires
            is_binary_op(*plus),
            is_binary_op(*times),
            is_binary_op(*divide),
            is_predicate(*is_zero),
        ensures
            !(rows_of(self@) == v@.len() && cols_of(self@) == v@.len()) ==> r == Err::<
                T,
                LinalgError,
            >(LinalgError::DimensionMismatch),
            rows_of(self@) == v@.len() && cols_of(self@) == v@.len() ==> {
                let den = dot_of(v@, v@, zero, *plus, *times);
                &&& holds(*is_zero, den) ==> r == Err::<T, LinalgError>(
                    LinalgError::DegenerateQuotient,
                )
                &&& !holds(*is_zero, den) ==> r == Ok::<T, LinalgError>(
                    rayleigh_of(self@, v@, zero, *plus, *times, *divide),
                )
            },
    {
        let product = match self.multiply_vector(v, zero, plus, times) {
            Ok(p) => p,
            Err(e) => {
                return Err(e);
            },
        };
        let numerator = match product.dot(v, zero, plus, times) {
            Ok(x) => x,
            Err(e) => {
                return Err(e);
            },
        };
        let denominator = match v.dot(v, zero, plus, times) {
            Ok(x) => x,
            Err(e) => {
                return Err(e);
            },
        };
        let degenerate = is_zero(denominator);
        proof {
            lemma_holds(*is_zero, denominator, degenerate);
        }
        if degenerate {
            return Err(LinalgError::DegenerateQuotient);
        }
        let q = divide(numerator, denominator);
        proof {
            lemma_apply2(*divide, numerator, denominator, q);
        }
        Ok(q)
    }
}

} // verus!
