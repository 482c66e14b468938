//! The dense vector type and its operations.

use vstd::prelude::*;
use crate::arith::{
    apply1, apply2, dot_of, holds, inner_product, is_binary_op, is_predicate, is_unary_op,
    lemma_apply1, lemma_apply2, lemma_holds, sum_of,
};
use crate::error::LinalgError;

verus! {

/// The entries of `v`, each mapped through the unary operation `f`.
pub open spec fn mapped<T, F: Fn(T) -> T>(v: Seq<T>, f: F) -> Seq<T> {
    Seq::new(v.len(), |k: int| apply1(f, v[k]))
}

/// The entries of `x` and `y`, pairwise combined with the binary operation `f`.
pub open spec fn zipped<T, F: Fn(T, T) -> T>(x: Seq<T>, y: Seq<T>, f: F) -> Seq<T> {
    Seq::new(x.len(), |k: int| apply2(f, x[k], y[k]))
}

/// The L1 norm: the sum of the absolute values.
pub open spec fn l1_of<T, P: Fn(T, T) -> T, A: Fn(T) -> T>(
    v: Seq<T>,
    zero: T,
    plus: P,
    abs: A,
) -> T {
    sum_of(mapped(v, abs), zero, plus)
}

/// The L2 norm: the square root of the sum of the squares.
pub open spec fn l2_of<T, P: Fn(T, T) -> T, M: Fn(T, T) -> T, R: Fn(T) -> T>(
    v: Seq<T>,
    zero: T,
    plus: P,
    times: M,
    sqrt: R,
) -> T {
    apply1(sqrt, dot_of(v, v, zero, plus, times))
}

/// `v` scaled to unit length: each entry divided by the magnitude, unless
/// `is_zero` holds of the magnitude, in which case `v` itself.
pub open spec fn normalized_of<
    T,
    P: Fn(T, T) -> T,
    M: Fn(T, T) -> T,
    R: Fn(T) -> T,
    D: Fn(T, T) -> T,
    Z: Fn(T) -> bool,
>(v: Seq<T>, zero: T, plus: P, times: M, sqrt: R, divide: D, is_zero: Z) -> Seq<T> {
    let mag = l2_of(v, zero, plus, times, sqrt);
    if holds(is_zero, mag) {
        v
    } else {
        Seq::new(v.len(), |k: int| apply2(divide, v[k], mag))
    }
}

/// The entries of `v`, each mapped through `f`.
pub fn map_entries<T: Copy, F: Fn(T) -> T>(v: &Vec<T>, f: &F) -> (r: Vec<T>)
    requires
        is_unary_op(*f),
    ensures
        r@ == mapped(v@, *f),
{
    let mut out: Vec<T> = Vec::new();
    let mut k: usize = 0;
    while k < v.len()
        invariant
            is_unary_op(*f),
            k <= v@.len(),
            out@.len() == k,
            forall|b: int| 0 <= b < k ==> #[trigger] out@[b] == apply1(*f, v@[b]),
        decreases v@.len() - k,
    {
        let x = f(v[k]);
        proof {
            lemma_apply1(*f, v@[k as int], x);
        }
        out.push(x);
        k += 1;
    }
    assert(out@ =~= mapped(v@, *f));
    out
}

/// A dense vector with at least one entry.
pub struct Vector<T> {
    data: Vec<T>,
}

impl<T> View for Vector<T> {
    type V = Seq<T>;

    closed spec fn view(&self) -> Seq<T> {
        self.data@
    }
}

impl<T> Vector<T> {
    #[verifier::type_invariant]
    spec fn well_formed(&self) -> bool {
        self.data@.len() >= 1
    }
}

impl<T: Copy> Vector<T> {
    /// A vector holding `data`; fails with `DimensionMismatch` when `data` is empty.
    pub fn from_vec(data: Vec<T>) -> (r: Result<Vector<T>, LinalgError>)
        ensures
            r is Ok <==> data@.len() >= 1,
            r is Ok ==> r->Ok_0@ == data@,
            r is Err ==> r->Err_0 == LinalgError::DimensionMismatch,
    {
        if data.len() == 0 {
            return Err(LinalgError::DimensionMismatch);
        }
        Ok(Vector { data })
    }

    /// A vector holding `data`, which is not empty.
    pub(crate) fn from_nonempty(data: Vec<T>) -> (r: Vector<T>)
        requires
            data@.len() >= 1,
        ensures
            r@ == data@,
    {
        Vector { data }
    }

    /// Number of entries.
    pub fn len(&self) -> (r: usize)
        ensures
            r == self@.len(),
            r >= 1,
    {
        proof {
            use_type_invariant(self);
        }
        self.data.len()
    }

    /// The entry at `i`.
    pub fn get(&self, i: usize) -> (r: T)
        requires
            i < self@.len(),
        ensures
            r == self@[i as int],
    {
        self.data[i]
    }

    /// The entries, in order.
    pub fn to_vec(&self) -> (r: Vec<T>)
        ensures
            r@ == self@,
    {
        let mut out: Vec<T> = Vec::new();
        let mut k: usize = 0;
        while k < self.data.len()
            invariant
                k <= self@.len(),
                out@ == self@.take(k as int),
            decreases self@.len() - k,
        {
            out.push(self.data[k]);
            k += 1;
            proof {
                assert(out@ =~= self@.take(k as int));
            }
        }
        proof {
            assert(self@.take(self@.len() as int) == self@);
        }
        out
    }

    /// Entry-wise sum. Fails with `DimensionMismatch` when the lengths differ.
    pub fn add<P: Fn(T, T) -> T>(&self, other: &Vector<T>, plus: &P) -> (r: Result<
        Vector<T>,
        LinalgError,
    >)
        requires
            is_binary_op(*plus),
        ensures
            r is Ok <==> self@.len() == other@.len(),
            r is Ok ==> r->Ok_0@ == zipped(self@, other@, *plus),
            r is Err ==> r->Err_0 == LinalgError::DimensionMismatch,
    {
        let n = self.len();
        if n != other.len() {
            return Err(LinalgError::DimensionMismatch);
        }
        let mut out: Vec<T> = Vec::new();
        let mut k: usize = 0;
        while k < n
            invariant
                is_binary_op(*plus),
                n == self@.len(),
                n == other@.len(),
                n >= 1,
                k <= n,
                out@.len() == k,
                forall|b: int| 0 <= b < k ==> #[trigger] out@[b] == apply2(
                    *plus,
                    self@[b],
                    other@[b],
                ),
            decreases n - k,
        {
            let a = self.get(k);
            let b = other.get(k);
            let x = plus(a, b);
            proof {
                lemma_apply2(*plus, a, b, x);
            }
            out.push(x);
            k += 1;
        }
        assert(out@ =~= zipped(self@, other@, *plus));
        Ok(Vector { data: out })
    }

    /// The inner product. Fails with `DimensionMismatch` when the lengths differ.
    pub fn dot<P: Fn(T, T) -> T, M: Fn(T, T) -> T>(
        &self,
        other: &Vector<T>,
        zero: T,
        plus: &P,
        times: &M,
    ) -> (r: Result<T, LinalgError>)
        requires
            is_binary_op(*plus),
            is_binary_op(*times),
        ensures
            r is Ok <==> self@.len() == other@.len(),
            r is Ok ==> r->Ok_0 == dot_of(self@, other@, zero, *plus, *times),
            r is Err ==> r->Err_0 == LinalgError::DimensionMismatch,
    {
        if self.len() != other.len() {
            return Err(LinalgError::DimensionMismatch);
        }
        Ok(inner_product(&self.data, &other.data, zero, plus, times))
    }

    /// The Euclidean length: the square root of the sum of the squares.
    pub fn magnitude<P: Fn(T, T) -> T, M: Fn(T, T) -> T, R: Fn(T) -> T>(
        &self,
        zero: T,
        plus: &P,
        times: &M,
        sqrt: &R,
    ) -> (r: T)
        requires
            is_binary_op(*plus),
            is_binary_op(*times),
            is_unary_op(*sqrt),
        ensures
            r == l2_of(self@, zero, *plus, *times, *sqrt),
    {
        let s = inner_product(&self.data, &self.data, zero, plus, times);
        let r = sqrt(s);
        proof {
            lemma_apply1(*sqrt, s, r);
        }
        r
    }

    /// The L2 norm, the same as the magnitude.
    pub fn l2_norm<P: Fn(T, T) -> T, M: Fn(T, T) -> T, R: Fn(T) -> T>(
        &self,
        zero: T,
        plus: &P,
        times: &M,
        sqrt: &R,
    ) -> (r: T)
        requires
            is_binary_op(*plus),
            is_binary_op(*times),
            is_unary_op(*sqrt),
        ensures
            r == l2_of(self@, zero, *plus, *times, *sqrt),
    {
        self.magnitude(zero, plus, times, sqrt)
    }

    /// The L1 norm: the sum of the absolute values.
    pub fn l1_norm<P: Fn(T, T) -> T, A: Fn(T) -> T>(&self, zero: T, plus: &P, abs: &A) -> (r: T)
        requires
            is_binary_op(*plus),
            is_unary_op(*abs),
        ensures
            r == l1_of(self@, zero, *plus, *abs),
    {
        let absolute = map_entries(&self.data, abs);
        crate::arith::fold_sum(&absolute, zero, plus)
    }

    /// This vector scaled to unit length; the vector itself when `is_zero` holds
    /// of its magnitude.
    pub fn normalize<
        P: Fn(T, T) -> T,
        M: Fn(T, T) -> T,
        R: Fn(T) -> T,
        D: Fn(T, T) -> T,
        Z: Fn(T) -> bool,
    >(&self, zero: T, plus: &P, times: &M, sqrt: &R, divide: &D, is_zero: &Z) -> (r: Vector<T>)
        requires
            is_binary_op(*plus),
            is_binary_op(*times),
            is_unary_op(*sqrt),
            is_binary_op(*divide),
            is_predicate(*is_zero),
        ensures
            r@ == normalized_of(self@, zero, *plus, *times, *sqrt, *divide, *is_zero),
    {
        let n = self.len();
        let mag = self.magnitude(zero, plus, times, sqrt);
        let degenerate = is_zero(mag);
        proof {
            lemma_holds(*is_zero, mag, degenerate);
        }
        if degenerate {
            return Vector { data: self.to_vec() };
        }
        let mut out: Vec<T> = Vec::new();
        let mut k: usize = 0;
        while k < n
            invariant
                is_binary_op(*divide),
                n == self@.len(),
                n >= 1,
                k <= n,
                out@.len() == k,
                forall|b: int| 0 <= b < k ==> #[trigger] out@[b] == apply2(*divide, self@[b], mag),
            decreases n - k,
        {
            let a = self.get(k);
            let x = divide(a, mag);
            proof {
                lemma_apply2(*divide, a, mag, x);
            }
            out.push(x);
            k += 1;
        }
        let ghost want = normalized_of(self@, zero, *plus, *times, *sqrt, *divide, *is_zero);
        assert(out@ =~= want);
        Vector { data: out }
    }
}

} // verus!
