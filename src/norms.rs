//! The L1, L2 and infinity norms of a matrix.

use vstd::prelude::*;
use crate::arith::{
    fold_sum, inner_product, is_binary_op, is_relation, is_unary_op, lemma_apply1,
    lemma_related, related,
};
use crate::matrix::{flat_of, is_grid, rows_of, Matrix};
use crate::vector::{l1_of, l2_of, map_entries};

verus! {

/// The L1 norm of each row of a grid.
pub open spec fn row_l1s_of<T, P: Fn(T, T) -> T, A: Fn(T) -> T>(
    m: Seq<Seq<T>>,
    zero: T,
    plus: P,
    abs: A,
) -> Seq<T> {
    Seq::new(m.len(), |i: int| l1_of(m[i], zero, plus, abs))
}

/// The largest entry of a non-empty sequence, scanning left to right: an entry
/// replaces the largest so far unless `greater` holds of the largest so far and it.
pub open spec fn max_of<T, G: Fn(T, T) -> bool>(s: Seq<T>, greater: G) -> T
    decreases s.len(),
{
    if s.len() <= 1 {
        s[0]
    } else {
        let best = max_of(s.drop_last(), greater);
        if related(greater, best, s.last()) {
            best
        } else {
            s.last()
        }
    }
}

impl<T: Copy> Matrix<T> {
    /// The L1 norm: the sum of the absolute values of all entries, row by row.
    pub fn l1_norm<P: Fn(T, T) -> T, A: Fn(T) -> T>(&self, zero: T, plus: &P, abs: &A) -> (r: T)
        requires
            is_binary_op(*plus),
            is_unary_op(*abs),
        ensures
            r == l1_of(flat_of(self@), zero, *plus, *abs),
    {
        let entries = self.flatten();
        let absolute = map_entries(&entries, abs);
        fold_sum(&absolute, zero, plus)
    }

    /// The L2 (Frobenius) norm: the square root of the sum of the squares of
    /// all entries, row by row.
    pub fn l2_norm<P: Fn(T, T) -> T, M: Fn(T, T) -> T, R: Fn(T) -> T>(
        &self,
        zero: T,
        plus: &P,
        times: &M,
        sqrt: &R,
    ) -> (r: T)
        requires
            is_binary_op(*plus),
            is_binary_op(*times),
            is_unary_op(*sqrt),
        ensures
            r == l2_of(flat_of(self@), zero, *plus, *times, *sqrt),
    {
        let entries = self.flatten();
        let s = inner_product(&entries, &entries, zero, plus, times);
        let r = sqrt(s);
        proof {
            lemma_apply1(*sqrt, s, r);
        }
        r
    }

    /// The infinity norm: the largest L1 norm of a row.
    pub fn infinity_norm<P: Fn(T, T) -> T, A: Fn(T) -> T, G: Fn(T, T) -> bool>(
        &self,
        zero: T,
        plus: &P,
        abs: &A,
        greater: &G,
    ) -> (r: T)
        requires
            is_binary_op(*plus),
            is_unary_op(*abs),
            is_relation(*greater),
        ensures
            r == max_of(row_l1s_of(self@, zero, *plus, *abs), *greater),
    {
        let n = self.nrows();
        let ghost sums = row_l1s_of(self@, zero, *plus, *abs);
        let first = self.row(0);
        let mut best = fold_sum(&map_entries(&first, abs), zero, plus);
        proof {
            assert(sums.take(1).drop_last().len() == 0);
        }
        let mut i: usize = 1;
        while i < n
            invariant
                is_grid(self@),
                n == rows_of(self@),
                is_binary_op(*plus),
                is_unary_op(*abs),
                is_relation(*greater),
                sums == row_l1s_of(self@, zero, *plus, *abs),
                1 <= i <= n,
                best == max_of(sums.take(i as int), *greater),
            decreases n - i,
        {
            let line = self.row(i);
            let s = fold_sum(&map_entries(&line, abs), zero, plus);
            let keep = greater(best, s);
            proof {
                lemma_related(*greater, best, s, keep);
                assert(sums.take(i + 1).drop_last() == sums.take(i as int));
            }
            if !keep {
                best = s;
            }
            i += 1;
        }
        proof {
            assert(sums.take(n as int) == sums);
        }
        best
    }
}

} // verus!
