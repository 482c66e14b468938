//! The scalar arithmetic that callers hand in as closures, and sums over it.
//!
//! Each operation must accept every input and have a single result for it;
//! `apply2`, `apply1`, `holds` and `related` name that result.

use vstd::prelude::*;

verus! {

/// `f` accepts every pair of scalars and has exactly one possible result for each.
pub open spec fn is_binary_op<T, F: Fn(T, T) -> T>(f: F) -> bool {
    &&& forall|a: T, b: T| #[trigger] f.requires((a, b))
    &&& forall|a: T, b: T, x: T, y: T|
        #[trigger] f.ensures((a, b), x) && #[trigger] f.ensures((a, b), y) ==> x == y
}

/// `f` accepts every scalar and has exactly one possible result for each.
pub open spec fn is_unary_op<T, F: Fn(T) -> T>(f: F) -> bool {
    &&& forall|a: T| #[trigger] f.requires((a,))
    &&& forall|a: T, x: T, y: T|
        #[trigger] f.ensures((a,), x) && #[trigger] f.ensures((a,), y) ==> x == y
}

/// `f` accepts every scalar and has exactly one possible answer for each.
pub open spec fn is_predicate<T, F: Fn(T) -> bool>(f: F) -> bool {
    &&& forall|a: T| #[trigger] f.requires((a,))
    &&& forall|a: T, x: bool, y: bool|
        #[trigger] f.ensures((a,), x) && #[trigger] f.ensures((a,), y) ==> x == y
}

/// `f` accepts every pair of scalars and has exactly one possible answer for each.
pub open spec fn is_relation<T, F: Fn(T, T) -> bool>(f: F) -> bool {
    &&& forall|a: T, b: T| #[trigger] f.requires((a, b))
    &&& forall|a: T, b: T, x: bool, y: bool|
        #[trigger] f.ensures((a, b), x) && #[trigger] f.ensures((a, b), y) ==> x == y
}

/// The answer of the relation `f` on `a` and `b`.
pub open spec fn related<T, F: Fn(T, T) -> bool>(f: F, a: T, b: T) -> bool {
    choose|r: bool| f.ensures((a, b), r)
}

/// An answer returned by a call of a relation is its answer.
pub proof fn lemma_related<T, F: Fn(T, T) -> bool>(f: F, a: T, b: T, r: bool)
    requires
        is_relation(f),
        f.ensures((a, b), r),
    ensures
        related(f, a, b) == r,
{
}

/// The result of the binary operation `f` on `a` and `b`.
pub open spec fn apply2<T, F: Fn(T, T) -> T>(f: F, a: T, b: T) -> T {
    choose|r: T| f.ensures((a, b), r)
}

/// The result of the unary operation `f` on `a`.
pub open spec fn apply1<T, F: Fn(T) -> T>(f: F, a: T) -> T {
    choose|r: T| f.ensures((a,), r)
}

/// The answer of the predicate `f` on `a`.
pub open spec fn holds<T, F: Fn(T) -> bool>(f: F, a: T) -> bool {
    choose|r: bool| f.ensures((a,), r)
}

/// Left fold of `plus` over `s`, starting from `zero`:
/// `plus(... plus(plus(zero, s[0]), s[1]) ..., s[n-1])`.
pub open spec fn sum_of<T, F: Fn(T, T) -> T>(s: Seq<T>, zero: T, plus: F) -> T
    decreases s.len(),
{
    if s.len() == 0 {
        zero
    } else {
        apply2(plus, sum_of(s.drop_last(), zero, plus), s.last())
    }
}

/// A value returned by a call of a binary operation is its result.
pub proof fn lemma_apply2<T, F: Fn(T, T) -> T>(f: F, a: T, b: T, r: T)
    requires
        is_binary_op(f),
        f.ensures((a, b), r),
    ensures
        apply2(f, a, b) == r,
{
}

/// A value returned by a call of a unary operation is its result.
pub proof fn lemma_apply1<T, F: Fn(T) -> T>(f: F, a: T, r: T)
    requires
        is_unary_op(f),
        f.ensures((a,), r),
    ensures
        apply1(f, a) == r,
{
}

/// An answer returned by a call of a predicate is its answer.
pub proof fn lemma_holds<T, F: Fn(T) -> bool>(f: F, a: T, r: bool)
    requires
        is_predicate(f),
        f.ensures((a,), r),
    ensures
        holds(f, a) == r,
{
}

/// Adds up `s` from left to right with `plus`, starting from `zero`.
pub fn fold_sum<T: Copy, F: Fn(T, T) -> T>(s: &Vec<T>, zero: T, plus: &F) -> (r: T)
    requires
        is_binary_op(*plus),
    ensures
        r == sum_of(s@, zero, *plus),
{
    let mut acc = zero;
    let mut i: usize = 0;
    while i < s.len()
        invariant
            is_binary_op(*plus),
            i <= s@.len(),
            acc == sum_of(s@.take(i as int), zero, *plus),
        decreases s@.len() - i,
    {
        let x = s[i];
        let next = plus(acc, x);
        proof {
            lemma_apply2(*plus, acc, x, next);
            assert(s@.take(i + 1).drop_last() == s@.take(i as int));
        }
        acc = next;
        i += 1;
    }
    proof {
        assert(s@.take(s@.len() as int) == s@);
    }
    acc
}

/// The products `times(x[k], y[k])` of the entries of `x` and `y`, pairwise.
pub open spec fn products_of<T, M: Fn(T, T) -> T>(x: Seq<T>, y: Seq<T>, times: M) -> Seq<T> {
    Seq::new(x.len(), |k: int| apply2(times, x[k], y[k]))
}

/// The inner product of `x` and `y`: the left-to-right sum, from `zero`, of
/// their pairwise products.
pub open spec fn dot_of<T, P: Fn(T, T) -> T, M: Fn(T, T) -> T>(
    x: Seq<T>,
    y: Seq<T>,
    zero: T,
    plus: P,
    times: M,
) -> T {
    sum_of(products_of(x, y, times), zero, plus)
}

/// The inner product of two sequences of the same length.
pub fn inner_product<T: Copy, P: Fn(T, T) -> T, M: Fn(T, T) -> T>(
    x: &Vec<T>,
    y: &Vec<T>,
    zero: T,
    plus: &P,
    times: &M,
) -> (r: T)
    requires
        x@.len() == y@.len(),
        is_binary_op(*plus),
        is_binary_op(*times),
    ensures
        r == dot_of(x@, y@, zero, *plus, *times),
{
    let ghost prods = products_of(x@, y@, *times);
    let mut acc = zero;
    let mut k: usize = 0;
    while k < x.len()
        invariant
            x@.len() == y@.len(),
            is_binary_op(*plus),
            is_binary_op(*times),
            prods == products_of(x@, y@, *times),
            k <= x@.len(),
            acc == sum_of(prods.take(k as int), zero, *plus),
        decreases x@.len() - k,
    {
        let p = times(x[k], y[k]);
        let next = plus(acc, p);
        proof {
            lemma_apply2(*times, x@[k as int], y@[k as int], p);
            lemma_apply2(*plus, acc, p, next);
            assert(prods.take(k + 1).drop_last() == prods.take(k as int));
        }
        acc = next;
        k += 1;
    }
    proof {
        assert(prods.take(x@.len() as int) == prods);
    }
    acc
}

} // verus!
