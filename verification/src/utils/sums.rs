//! Sums of real numbers.
use vstd::prelude::*;

verus! {

/// `f(0) + f(1) + ... + f(n - 1)`.
pub open spec fn sum(f: spec_fn(int) -> real, n: nat) -> real
    decreases n,
{
    if n == 0 {
        0 as real
    } else {
        sum(f, (n - 1) as nat) + f(n - 1)
    }
}

/// Sums of the same numbers are the same.
pub proof fn lemma_same_sum(f: spec_fn(int) -> real, g: spec_fn(int) -> real, n: nat)
    requires
        forall|i: int| 0 <= i < n ==> #[trigger] f(i) == g(i),
    ensures
        sum(f, n) == sum(g, n),
    decreases n,
{
    if n > 0 {
        lemma_same_sum(f, g, (n - 1) as nat);
        assert(f(n - 1) == g(n - 1));
    }
}

/// A sum of sums, term by term.
pub proof fn lemma_sum_plus(
    f: spec_fn(int) -> real,
    g: spec_fn(int) -> real,
    h: spec_fn(int) -> real,
    n: nat,
)
    requires
        forall|i: int| 0 <= i < n ==> #[trigger] h(i) == f(i) + g(i),
    ensures
        sum(h, n) == sum(f, n) + sum(g, n),
    decreases n,
{
    if n > 0 {
        lemma_sum_plus(f, g, h, (n - 1) as nat);
        assert(h(n - 1) == f(n - 1) + g(n - 1));
    }
}

/// A multiple of a sum, term by term.
pub proof fn lemma_sum_times(c: real, f: spec_fn(int) -> real, h: spec_fn(int) -> real, n: nat)
    requires
        forall|i: int| 0 <= i < n ==> #[trigger] h(i) == c * f(i),
    ensures
        sum(h, n) == c * sum(f, n),
    decreases n,
{
    if n > 0 {
        lemma_sum_times(c, f, h, (n - 1) as nat);
        let (a, b) = (sum(f, (n - 1) as nat), f(n - 1));
        assert(h(n - 1) == c * b);
        assert(c * a + c * b == c * (a + b)) by (nonlinear_arith);
    } else {
        assert(c * (0 as real) == 0 as real) by (nonlinear_arith);
    }
}

/// A sum of numbers that are not negative is not negative.
pub proof fn lemma_sum_not_negative(f: spec_fn(int) -> real, n: nat)
    requires
        forall|i: int| 0 <= i < n ==> #[trigger] f(i) >= 0 as real,
    ensures
        sum(f, n) >= 0 as real,
    decreases n,
{
    if n > 0 {
        lemma_sum_not_negative(f, (n - 1) as nat);
        assert(f(n - 1) >= 0 as real);
    }
}

/// The numbers of a table, summed by rows and by columns.
pub proof fn lemma_sum_swap(
    f: spec_fn(int, int) -> real,
    rows: spec_fn(int) -> real,
    columns: spec_fn(int) -> real,
    m: nat,
    n: nat,
)
    requires
        forall|k: int| 0 <= k < m ==> #[trigger] rows(k) == sum(|i: int| f(k, i), n),
        forall|i: int| 0 <= i < n ==> #[trigger] columns(i) == sum(|k: int| f(k, i), m),
    ensures
        sum(rows, m) == sum(columns, n),
    decreases m,
{
    if m == 0 {
        let none = |i: int| 0 as real;
        assert forall|i: int| 0 <= i < n implies #[trigger] columns(i) == none(i) by {
            assert(columns(i) == sum(|k: int| f(k, i), 0));
        }
        lemma_same_sum(columns, none, n);
        lemma_sum_none(none, n);
    } else {
        let fewer = |i: int| sum(|k: int| f(k, i), (m - 1) as nat);
        let last = |i: int| f(m - 1, i);
        lemma_sum_swap(f, rows, fewer, (m - 1) as nat, n);
        assert forall|i: int| 0 <= i < n implies #[trigger] columns(i) == fewer(i) + last(i) by {
            let column = |k: int| f(k, i);
            assert(sum(column, m) == sum(column, (m - 1) as nat) + column(m - 1));
        }
        lemma_sum_plus(fewer, last, columns, n);
        assert(rows(m - 1) == sum(|i: int| f(m - 1, i), n));
        lemma_same_sum(|i: int| f(m - 1, i), last, n);
    }
}

pub proof fn lemma_sum_none(f: spec_fn(int) -> real, n: nat)
    requires
        forall|i: int| 0 <= i < n ==> #[trigger] f(i) == 0 as real,
    ensures
        sum(f, n) == 0 as real,
    decreases n,
{
    if n > 0 {
        lemma_sum_none(f, (n - 1) as nat);
        assert(f(n - 1) == 0 as real);
    }
}

/// In exact arithmetic a total is the sum.
pub proof fn lemma_total<T, O: crate::scalar::Arithmetic<T>>(
    ops: &O,
    zero: T,
    row: Seq<T>,
    r: T,
    value: spec_fn(T) -> real,
)
    requires
        crate::scalar::is_exact(ops, value),
        value(zero) == 0 as real,
        crate::utils::shares::is_total(ops, zero, row, r),
    ensures
        value(r) == sum(|i: int| value(row[i]), row.len()),
    decreases row.len(),
{
    let f = |i: int| value(row[i]);
    if row.len() > 0 {
        let less = row.drop_last();
        let before = choose|before: T|
            crate::utils::shares::is_total(ops, zero, less, before)
                && #[trigger] crate::scalar::sum_of(ops, before, row.last(), r);
        lemma_total(ops, zero, less, before, value);
        let g = |i: int| value(less[i]);
        assert forall|i: int| 0 <= i < less.len() implies #[trigger] g(i) == f(i) by {
            assert(less[i] == row[i]);
        }
        lemma_same_sum(g, f, less.len());
    }
}

/// In exact arithmetic a blend is the sum of its products.
pub proof fn lemma_blend<T, O: crate::scalar::Arithmetic<T>>(
    ops: &O,
    zero: T,
    terms: Seq<(T, T)>,
    r: T,
    value: spec_fn(T) -> real,
)
    requires
        crate::scalar::is_exact(ops, value),
        value(zero) == 0 as real,
        crate::utils::blend::is_blend(ops, zero, terms, r),
    ensures
        value(r) == sum(|i: int| value(terms[i].0) * value(terms[i].1), terms.len()),
{
    crate::utils::blend::law_exact_blend(ops, zero, terms, r, value);
    lemma_exact_sum(value, terms);
}

proof fn lemma_exact_sum<T>(value: spec_fn(T) -> real, terms: Seq<(T, T)>)
    ensures
        crate::utils::blend::exact_sum(value, terms) == sum(
            |i: int| value(terms[i].0) * value(terms[i].1),
            terms.len(),
        ),
    decreases terms.len(),
{
    let f = |i: int| value(terms[i].0) * value(terms[i].1);
    if terms.len() > 0 {
        let less = terms.drop_last();
        lemma_exact_sum(value, less);
        let g = |i: int| value(less[i].0) * value(less[i].1);
        assert forall|i: int| 0 <= i < less.len() implies #[trigger] g(i) == f(i) by {
            assert(less[i] == terms[i]);
        }
        lemma_same_sum(g, f, less.len());
    }
}

} // verus!
