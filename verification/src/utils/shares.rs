//! Weights turned into shares of their sum.
use crate::scalar::{Arithmetic, Division, Signs};
use vstd::prelude::*;

verus! {

/// `r` comes from `zero` by adding the weights one after the other.
pub open spec fn is_total<T, O: Arithmetic<T>>(ops: &O, zero: T, row: Seq<T>, r: T) -> bool
    decreases row.len(),
{
    if row.len() == 0 {
        r == zero
    } else {
        exists|before: T|
            is_total(ops, zero, row.drop_last(), before) && #[trigger] crate::scalar::sum_of(
                ops,
                before,
                row.last(),
                r,
            )
    }
}

pub(crate) fn total<T: Copy, O: Arithmetic<T>>(row: &Vec<T>, zero: T, ops: &O) -> (r: T)
    ensures
        is_total(ops, zero, row@, r),
{
    let mut r = zero;
    for i in 0..row.len()
        invariant
            is_total(ops, zero, row@.take(i as int), r),
    {
        let ghost before = r;
        r = ops.plus(r, row[i]);
        proof {
            let next = row@.take(i + 1);
            assert(next.drop_last() =~= row@.take(i as int));
            assert(crate::scalar::sum_of(ops, before, next.last(), r));
        }
    }
    assert(row@.take(row@.len() as int) =~= row@);
    r
}

/// `r` holds the weights divided by `sum`.
pub open spec fn are_quotients<T, O: Division<T> + Signs<T>>(
    ops: &O,
    row: Seq<T>,
    sum: T,
    r: Seq<T>,
) -> bool {
    &&& r.len() == row.len()
    &&& forall|i: int| 0 <= i < row.len() ==> crate::scalar::quotient_of(ops, row[i], sum, #[trigger] r[i])
}

/// `r` holds the shares of the weights in their sum, or the weights themselves
/// where the sum is not positive.
pub open spec fn are_shares<T, O: Division<T> + Signs<T>>(ops: &O, zero: T, row: Seq<T>, r: Seq<T>) -> bool {
    exists|sum: T|
        {
            &&& #[trigger] is_total(ops, zero, row, sum)
            &&& {
                ||| crate::scalar::says_positive(ops, sum, true) && are_quotients(ops, row, sum, r)
                ||| crate::scalar::says_positive(ops, sum, false) && r == row
            }
        }
}

/// The shares of the weights in their sum. Weights without a positive sum stay
/// as they are.
pub fn normalised<T: Copy, O: Division<T> + Signs<T>>(row: Vec<T>, zero: T, ops: &O) -> (r: Vec<T>)
    ensures
        are_shares(ops, zero, row@, r@),
        r@.len() == row@.len(),
{
    let sum = total(&row, zero, ops);
    if ops.positive(sum) {
        let mut r: Vec<T> = Vec::new();
        for i in 0..row.len()
            invariant
                r@.len() == i,
                forall|j: int|
                    0 <= j < i ==> crate::scalar::quotient_of(ops, row@[j], sum, #[trigger] r@[j]),
        {
            r.push(ops.quotient(row[i], sum));
        }
        assert(are_quotients(ops, row@, sum, r@));
        r
    } else {
        row
    }
}

/// The sum of the numbers that `value` stands for.
pub open spec fn exact_total<T>(value: spec_fn(T) -> real, row: Seq<T>) -> real
    decreases row.len(),
{
    if row.len() == 0 {
        0 as real
    } else {
        exact_total(value, row.drop_last()) + value(row.last())
    }
}

pub proof fn lemma_exact_total<T, O: Arithmetic<T>>(
    ops: &O,
    zero: T,
    row: Seq<T>,
    r: T,
    value: spec_fn(T) -> real,
)
    requires
        crate::scalar::is_exact(ops, value),
        value(zero) == 0 as real,
        is_total(ops, zero, row, r),
    ensures
        value(r) == exact_total(value, row),
    decreases row.len(),
{
    if row.len() > 0 {
        let before = choose|before: T|
            is_total(ops, zero, row.drop_last(), before) && #[trigger] crate::scalar::sum_of(
                ops,
                before,
                row.last(),
                r,
            );
        lemma_exact_total(ops, zero, row.drop_last(), before, value);
    }
}

proof fn lemma_quotients<T, O: Division<T> + Signs<T>>(
    ops: &O,
    row: Seq<T>,
    sum: T,
    r: Seq<T>,
    value: spec_fn(T) -> real,
)
    requires
        crate::scalar::divides_exactly(ops, value),
        crate::scalar::tells_signs(ops, value),
        value(sum) > 0 as real,
        are_quotients(ops, row, sum, r),
    ensures
        exact_total(value, r) * value(sum) == exact_total(value, row),
    decreases row.len(),
{
    let s = value(sum);
    if row.len() == 0 {
        assert((0 as real) * s == 0 as real) by (nonlinear_arith);
    } else {
        let n = row.len() - 1;
        assert forall|i: int| 0 <= i < n implies crate::scalar::quotient_of(
            ops,
            row.drop_last()[i],
            sum,
            #[trigger] r.drop_last()[i],
        ) by {
            assert(crate::scalar::quotient_of(ops, row[i], sum, r[i]));
        }
        lemma_quotients(ops, row.drop_last(), sum, r.drop_last(), value);
        assert(crate::scalar::quotient_of(ops, row[n], sum, r[n]));
        let head = exact_total(value, r.drop_last());
        let a = value(row[n]);
        let q = value(r[n]);
        assert(q * s == a) by (nonlinear_arith)
            requires
                q == a / s,
                s > 0 as real,
        ;
        assert((head + q) * s == head * s + q * s) by (nonlinear_arith);
    }
}

/// What shares come to in exact arithmetic: they sum to one where the weights
/// have a positive sum, and are the weights where not.
pub open spec fn shares_exactly<T>(value: spec_fn(T) -> real, row: Seq<T>, r: Seq<T>) -> bool {
    if exact_total(value, row) > 0 as real {
        exact_total(value, r) == 1 as real
    } else {
        r == row
    }
}

/// Shares sum to one, unless the weights have no positive sum.
pub proof fn law_shares_sum_to_one<T, O: Division<T> + Signs<T>>(
    ops: &O,
    zero: T,
    row: Seq<T>,
    r: Seq<T>,
    value: spec_fn(T) -> real,
)
    requires
        crate::scalar::is_exact(ops, value),
        crate::scalar::divides_exactly(ops, value),
        crate::scalar::tells_signs(ops, value),
        value(zero) == 0 as real,
        are_shares(ops, zero, row, r),
    ensures
        shares_exactly(value, row, r),
{
    let sum = choose|sum: T|
        {
            &&& #[trigger] is_total(ops, zero, row, sum)
            &&& {
                ||| crate::scalar::says_positive(ops, sum, true) && are_quotients(ops, row, sum, r)
                ||| crate::scalar::says_positive(ops, sum, false) && r == row
            }
        };
    lemma_exact_total(ops, zero, row, sum, value);
    let s = value(sum);
    if s > 0 as real {
        assert(!crate::scalar::says_positive(ops, sum, false));
        lemma_quotients(ops, row, sum, r, value);
        let t = exact_total(value, r);
        assert(t == 1 as real) by (nonlinear_arith)
            requires
                t * s == s,
                s > 0 as real,
        ;
    } else {
        assert(!crate::scalar::says_positive(ops, sum, true));
    }
}

} // verus!
