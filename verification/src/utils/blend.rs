//! Weighted sums.
use vstd::prelude::*;

use crate::scalar::Arithmetic;

verus! {

/// `r` is `a` with `w` times `x` added.
pub open spec fn is_accumulated<T, O: Arithmetic<T>>(ops: &O, a: T, w: T, x: T, r: T) -> bool {
    exists|p: T| #[trigger]
        crate::scalar::product_of(ops, w, x, p) && crate::scalar::sum_of(ops, a, p, r)
}

/// `a` with `w` times `x` added.
pub fn accumulated<T: Copy, O: Arithmetic<T>>(a: T, w: T, x: T, ops: &O) -> (r: T)
    ensures
        is_accumulated(ops, a, w, x, r),
{
    let p = ops.times(w, x);
    assert(crate::scalar::product_of(ops, w, x, p));
    ops.plus(a, p)
}

/// `r` comes from `zero` by adding the products of the weights and values,
/// one after the other.
pub open spec fn is_blend<T, O: Arithmetic<T>>(ops: &O, zero: T, terms: Seq<(T, T)>, r: T) -> bool
    decreases terms.len(),
{
    if terms.len() == 0 {
        r == zero
    } else {
        exists|p: T|
            is_blend(ops, zero, terms.drop_last(), p) && #[trigger] is_accumulated(
                ops,
                p,
                terms.last().0,
                terms.last().1,
                r,
            )
    }
}

/// The sum of the products of the weights and values.
pub fn blend<T: Copy, O: Arithmetic<T>>(ops: &O, zero: T, terms: &Vec<(T, T)>) -> (r: T)
    ensures
        is_blend(ops, zero, terms@, r),
{
    let mut r = zero;
    for k in 0..terms.len()
        invariant
            is_blend(ops, zero, terms@.take(k as int), r),
    {
        let ghost before = r;
        let (w, x) = terms[k];
        r = accumulated(r, w, x, ops);
        proof {
            let next = terms@.take(k + 1);
            assert(next.drop_last() =~= terms@.take(k as int));
            assert(is_accumulated(ops, before, next.last().0, next.last().1, r));
        }
    }
    assert(terms@.take(terms@.len() as int) =~= terms@);
    r
}

/// The sum of the products of the weights and values, exactly.
pub open spec fn exact_sum<T>(value: spec_fn(T) -> real, terms: Seq<(T, T)>) -> real
    decreases terms.len(),
{
    if terms.len() == 0 {
        0 as real
    } else {
        exact_sum(value, terms.drop_last()) + value(terms.last().0) * value(terms.last().1)
    }
}

/// In exact arithmetic a blend is the sum of the products.
pub proof fn law_exact_blend<T, O: Arithmetic<T>>(
    ops: &O,
    zero: T,
    terms: Seq<(T, T)>,
    r: T,
    value: spec_fn(T) -> real,
)
    requires
        crate::scalar::is_exact(ops, value),
        value(zero) == 0 as real,
        is_blend(ops, zero, terms, r),
    ensures
        value(r) == exact_sum(value, terms),
    decreases terms.len(),
{
    if terms.len() > 0 {
        let p = choose|p: T|
            is_blend(ops, zero, terms.drop_last(), p) && #[trigger] is_accumulated(
                ops,
                p,
                terms.last().0,
                terms.last().1,
                r,
            );
        law_exact_blend(ops, zero, terms.drop_last(), p, value);
    }
}

} // verus!
