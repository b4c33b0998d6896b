//! What a step of the phenotype comes to in exact arithmetic.
use vstd::prelude::*;

use crate::parameters_regressor::phenotype_step::Equations;
use crate::parameters_regressor::SolveOps;
use crate::scalar::Arithmetic;

verus! {

/// What key `i` does to row `k`.
pub open spec fn slope_of<T>(
    value: spec_fn(T) -> real,
    rows: Seq<Vec<T>>,
    cols: Seq<usize>,
    k: int,
    i: int,
) -> real {
    value(rows[k]@[cols[i] as int])
}

/// What a change of the keys leaves of row `k` of the residual.
pub open spec fn left_over<T>(
    value: spec_fn(T) -> real,
    rows: Seq<Vec<T>>,
    cols: Seq<usize>,
    residual: Seq<T>,
    change: Seq<real>,
    k: int,
) -> real {
    crate::utils::sums::sum(|i: int| slope_of(value, rows, cols, k, i) * change[i], cols.len()) - value(residual[k])
}

/// The regularised error of a change of the keys: the squares of what is left of
/// the residual, and the squares of the changes, by their weights.
pub open spec fn regularised_error<T>(
    value: spec_fn(T) -> real,
    rows: Seq<Vec<T>>,
    cols: Seq<usize>,
    residual: Seq<T>,
    weights: Seq<T>,
    change: Seq<real>,
) -> real {
    crate::utils::sums::sum(
        |k: int|
            left_over(value, rows, cols, residual, change, k) * left_over(
                value,
                rows,
                cols,
                residual,
                change,
                k,
            ),
        rows.len(),
    ) + crate::utils::sums::sum(|i: int| value(weights[i]) * (change[i] * change[i]), cols.len())
}

/// At the change `z` no key makes the regularised error smaller to first order.
pub open spec fn is_stationary<T>(
    value: spec_fn(T) -> real,
    rows: Seq<Vec<T>>,
    cols: Seq<usize>,
    residual: Seq<T>,
    weights: Seq<T>,
    z: Seq<real>,
) -> bool {
    &&& z.len() == cols.len()
    &&& forall|i: int|
        0 <= i < cols.len() ==> #[trigger] pull(value, rows, cols, residual, z, i) + value(
            weights[i],
        ) * z[i] == 0 as real
}

/// How much key `i` still acts on what is left of the residual.
pub open spec fn pull<T>(
    value: spec_fn(T) -> real,
    rows: Seq<Vec<T>>,
    cols: Seq<usize>,
    residual: Seq<T>,
    z: Seq<real>,
    i: int,
) -> real {
    crate::utils::sums::sum(
        |k: int|
            slope_of(value, rows, cols, k, i) * left_over(value, rows, cols, residual, z, k),
        rows.len(),
    )
}

/// `x` solves the equations.
pub open spec fn solves<T>(
    value: spec_fn(T) -> real,
    matrix: Seq<Vec<T>>,
    right: Seq<T>,
    x: Seq<real>,
) -> bool {
    &&& x.len() == right.len()
    &&& forall|i: int|
        0 <= i < right.len() ==> crate::utils::sums::sum(|j: int| value(matrix[i]@[j]) * x[j], right.len()) == value(
            #[trigger] right[i],
        )
}

/// The numbers that a list stands for.
pub open spec fn numbers<T>(value: spec_fn(T) -> real, x: Seq<T>) -> Seq<real> {
    Seq::new(x.len(), |i: int| value(x[i]))
}

/// What the solver gives solves the equations, and it gives something where
/// something solves them. Every number is finite.
pub open spec fn solves_exactly<T, O: SolveOps<T>>(ops: &O, value: spec_fn(T) -> real) -> bool {
    &&& forall|matrix: Vec<Vec<T>>, right: Vec<T>, x: Vec<T>| #[trigger]
        call_ensures(O::solved, (ops, &matrix, &right), Some(x)) ==> solves(
            value,
            matrix@,
            right@,
            numbers(value, x@),
        )
    &&& forall|matrix: Vec<Vec<T>>, right: Vec<T>, z: Seq<real>| #[trigger]
        solves(value, matrix@, right@, z) ==> !call_ensures(
            O::solved,
            (ops, &matrix, &right),
            None::<Vec<T>>,
        )
    &&& forall|x: T, r: bool| #[trigger] call_ensures(O::finite, (ops, x), r) ==> r
}

/// Entry `i` of the equations, in the slopes: at `z` the left side less the right
/// side is what key `i` still pulls, and what its weight holds back.
proof fn lemma_equation<T, O: Arithmetic<T> + SolveOps<T>>(
    ops: &O,
    rows: Seq<Vec<T>>,
    cols: Seq<usize>,
    residual: Seq<T>,
    weights: Seq<T>,
    zero: T,
    e: Equations<T>,
    value: spec_fn(T) -> real,
    z: Seq<real>,
    i: int,
)
    requires
        crate::scalar::is_exact(ops, value),
        value(zero) == 0 as real,
        weights.len() == cols.len(),
        crate::parameters_regressor::phenotype_step::are_equations(
            ops,
            rows,
            cols,
            residual,
            weights,
            zero,
            e,
        ),
        z.len() == cols.len(),
        0 <= i < cols.len(),
    ensures
        crate::utils::sums::sum(|j: int| value(e.matrix@[i]@[j]) * z[j], cols.len()) - value(e.right@[i]) == pull(
            value,
            rows,
            cols,
            residual,
            z,
            i,
        ) + value(weights[i]) * z[i],
{
    let a = e.slopes@;
    let n = cols.len();
    let m = rows.len();
    let s = |k: int, j: int| slope_of(value, rows, cols, k, j);
    assert forall|k: int, j: int| 0 <= k < m && 0 <= j < n implies value(#[trigger] a[k]@[j]) == s(
        k,
        j,
    ) by {
        assert(a[k]@ == crate::parameters_regressor::phenotype_step::columns_of(rows[k]@, cols));
    }
    // The entries of the matrix.
    let products = |j: int| crate::utils::sums::sum(|k: int| s(k, i) * s(k, j), m);
    let held = |j: int| if i == j { value(weights[i]) } else { 0 as real };
    assert forall|j: int| 0 <= j < n implies value(#[trigger] e.matrix@[i]@[j]) == products(j) + held(
        j,
    ) by {
        let w = if i == j {
            weights[i]
        } else {
            zero
        };
        assert(crate::parameters_regressor::phenotype_step::is_normal_entry(
            ops,
            zero,
            a,
            weights,
            i,
            j,
            e.matrix@[i]@[j],
        ));
        let terms = crate::parameters_regressor::phenotype_step::column_terms(a, i, j);
        let p = choose|p: T| #[trigger]
            crate::utils::blend::is_blend(ops, zero, terms, p) && crate::scalar::sum_of(
                ops,
                p,
                w,
                e.matrix@[i]@[j],
            );
        crate::utils::sums::lemma_blend(ops, zero, terms, p, value);
        let f = |k: int| value(terms[k].0) * value(terms[k].1);
        let g = |k: int| s(k, i) * s(k, j);
        assert forall|k: int| 0 <= k < m implies #[trigger] f(k) == g(k) by {
            assert(value(a[k]@[i]) == s(k, i));
            assert(value(a[k]@[j]) == s(k, j));
        }
        crate::utils::sums::lemma_same_sum(f, g, m);
    }
    // The right side.
    let right = |k: int| s(k, i) * value(residual[k]);
    assert(value(e.right@[i]) == crate::utils::sums::sum(right, m)) by {
        let terms = crate::parameters_regressor::phenotype_step::residual_terms(a, residual, i);
        assert(crate::utils::blend::is_blend(ops, zero, terms, e.right@[i]));
        crate::utils::sums::lemma_blend(ops, zero, terms, e.right@[i], value);
        let f = |k: int| value(terms[k].0) * value(terms[k].1);
        assert forall|k: int| 0 <= k < m implies #[trigger] f(k) == right(k) by {
            assert(value(a[k]@[i]) == s(k, i));
        }
        crate::utils::sums::lemma_same_sum(f, right, m);
    }
    // The left side: the weight, and the slopes times themselves times `z`.
    let left = |j: int| value(e.matrix@[i]@[j]) * z[j];
    let by_slopes = |j: int| products(j) * z[j];
    let by_weight = |j: int| held(j) * z[j];
    assert forall|j: int| 0 <= j < n implies #[trigger] left(j) == by_slopes(j) + by_weight(j) by {
        let (p, h, x) = (products(j), held(j), z[j]);
        assert(value(e.matrix@[i]@[j]) == p + h);
        assert((p + h) * x == p * x + h * x) by (nonlinear_arith);
    }
    crate::utils::sums::lemma_sum_plus(by_slopes, by_weight, left, n);
    lemma_only(by_weight, i, n, z);
    // Sum over the rows first.
    let f = |k: int, j: int| (s(k, i) * s(k, j)) * z[j];
    let across = |k: int| crate::utils::sums::sum(|j: int| f(k, j), n);
    assert forall|j: int| 0 <= j < n implies #[trigger] by_slopes(j) == crate::utils::sums::sum(|k: int| f(k, j), m) by {
        let g = |k: int| s(k, i) * s(k, j);
        let h = |k: int| f(k, j);
        let x = z[j];
        assert forall|k: int| 0 <= k < m implies #[trigger] h(k) == x * g(k) by {
            let y = g(k);
            assert(y * x == x * y) by (nonlinear_arith);
        }
        crate::utils::sums::lemma_sum_times(x, g, h, m);
        let p = products(j);
        assert(p == crate::utils::sums::sum(g, m));
        assert(p * x == x * p) by (nonlinear_arith);
    }
    crate::utils::sums::lemma_sum_swap(f, across, by_slopes, m, n);
    let acts = |k: int|
        s(k, i) * left_over(value, rows, cols, residual, z, k);
    let minus = |k: int| -right(k);
    assert forall|k: int| 0 <= k < m implies #[trigger] acts(k) == across(k) + minus(k) by {
        let inner = |j: int| s(k, j) * z[j];
        let outer = |j: int| f(k, j);
        let x = s(k, i);
        assert forall|j: int| 0 <= j < n implies #[trigger] outer(j) == x * inner(j) by {
            let (y, w) = (s(k, j), z[j]);
            assert((x * y) * w == x * (y * w)) by (nonlinear_arith);
        }
        crate::utils::sums::lemma_sum_times(x, inner, outer, n);
        let same = |j: int| slope_of(value, rows, cols, k, j) * z[j];
        crate::utils::sums::lemma_same_sum(inner, same, n);
        let (b, r) = (crate::utils::sums::sum(inner, n), value(residual[k]));
        assert(left_over(value, rows, cols, residual, z, k) == b - r);
        assert(x * (b - r) == x * b - x * r) by (nonlinear_arith);
    }
    crate::utils::sums::lemma_sum_plus(across, minus, acts, m);
    crate::utils::sums::lemma_sum_times(-1 as real, right, minus, m);
    let same = |k: int|
        slope_of(value, rows, cols, k, i) * left_over(value, rows, cols, residual, z, k);
    crate::utils::sums::lemma_same_sum(acts, same, m);
    assert(pull(value, rows, cols, residual, z, i) == crate::utils::sums::sum(same, m));
}

/// A sum in which one term counts.
proof fn lemma_only(f: spec_fn(int) -> real, i: int, n: nat, z: Seq<real>)
    requires
        0 <= i < n,
        forall|j: int| 0 <= j < n && j != i ==> #[trigger] f(j) == 0 as real * z[j],
    ensures
        crate::utils::sums::sum(f, n) == f(i),
    decreases n,
{
    let x = z[n - 1];
    assert((0 as real) * x == 0 as real) by (nonlinear_arith);
    if i == n - 1 {
        assert forall|j: int| 0 <= j < n - 1 implies #[trigger] f(j) == 0 as real by {
            let y = z[j];
            assert((0 as real) * y == 0 as real) by (nonlinear_arith);
        }
        crate::utils::sums::lemma_sum_none(f, (n - 1) as nat);
    } else {
        lemma_only(f, i, (n - 1) as nat, z);
        assert(f(n - 1) == 0 as real * x);
    }
}

proof fn lemma_squares(u: real, v: real)
    ensures
        (u + v) * (u + v) == u * u + 2 as real * (u * v) + v * v,
        v * v >= 0 as real,
{
    assert((u + v) * (u + v) == u * u + 2 as real * (u * v) + v * v) by (nonlinear_arith);
    assert(v * v >= 0 as real) by (nonlinear_arith);
}

/// Where no key makes the regularised error smaller to first order, no change has
/// a smaller one.
proof fn lemma_stationary_is_least<T>(
    value: spec_fn(T) -> real,
    rows: Seq<Vec<T>>,
    cols: Seq<usize>,
    residual: Seq<T>,
    weights: Seq<T>,
    d: Seq<real>,
    e: Seq<real>,
)
    requires
        weights.len() == cols.len(),
        forall|i: int| 0 <= i < weights.len() ==> value(#[trigger] weights[i]) >= 0 as real,
        is_stationary(value, rows, cols, residual, weights, d),
        e.len() == cols.len(),
    ensures
        regularised_error(value, rows, cols, residual, weights, d) <= regularised_error(
            value,
            rows,
            cols,
            residual,
            weights,
            e,
        ),
{
    let n = cols.len();
    let m = rows.len();
    let s = |k: int, i: int| slope_of(value, rows, cols, k, i);
    let h = |i: int| e[i] - d[i];
    let u = |k: int| left_over(value, rows, cols, residual, d, k);
    let v = |k: int| crate::utils::sums::sum(|i: int| s(k, i) * h(i), n);
    assert forall|k: int| 0 <= k < m implies left_over(value, rows, cols, residual, e, k) == #[trigger] u(
        k,
    ) + v(k) by {
        let old = |i: int| slope_of(value, rows, cols, k, i) * d[i];
        let new = |i: int| slope_of(value, rows, cols, k, i) * e[i];
        let more = |i: int| s(k, i) * h(i);
        assert forall|i: int| 0 <= i < n implies #[trigger] new(i) == old(i) + more(i) by {
            let (x, y, z) = (s(k, i), d[i], e[i]);
            assert(x * z == x * y + x * (z - y)) by (nonlinear_arith);
        }
        crate::utils::sums::lemma_sum_plus(old, more, new, n);
    }
    // The squares of what is left.
    let before = |k: int| u(k) * u(k);
    let cross = |k: int| 2 as real * (u(k) * v(k));
    let extra = |k: int| v(k) * v(k);
    let half = |k: int| before(k) + cross(k);
    let after = |k: int|
        left_over(value, rows, cols, residual, e, k) * left_over(
            value,
            rows,
            cols,
            residual,
            e,
            k,
        );
    assert forall|k: int| 0 <= k < m implies #[trigger] after(k) == half(k) + extra(k) by {
        lemma_squares(u(k), v(k));
        assert(left_over(value, rows, cols, residual, e, k) == u(k) + v(k));
    }
    crate::utils::sums::lemma_sum_plus(before, cross, half, m);
    crate::utils::sums::lemma_sum_plus(half, extra, after, m);
    assert forall|k: int| 0 <= k < m implies #[trigger] extra(k) >= 0 as real by {
        lemma_squares(u(k), v(k));
    }
    crate::utils::sums::lemma_sum_not_negative(extra, m);
    // The squares of the changes.
    let kept = |i: int| value(weights[i]) * (d[i] * d[i]);
    let turn = |i: int| 2 as real * ((value(weights[i]) * d[i]) * h(i));
    let gain = |i: int| value(weights[i]) * (h(i) * h(i));
    let part = |i: int| kept(i) + turn(i);
    let held = |i: int| value(weights[i]) * (e[i] * e[i]);
    assert forall|i: int| 0 <= i < n implies #[trigger] held(i) == part(i) + gain(i) && gain(i)
        >= 0 as real by {
        let (w, x, y) = (value(weights[i]), d[i], h(i));
        lemma_squares(x, y);
        assert(e[i] == x + y);
        let (a, b, c) = (x * x, x * y, y * y);
        assert(w * (a + 2 as real * b + c) == w * a + 2 as real * (w * b) + w * c) by (nonlinear_arith);
        assert(w * (x * y) == (w * x) * y) by (nonlinear_arith);
        assert(w * c >= 0 as real) by (nonlinear_arith)
            requires
                w >= 0 as real,
                c >= 0 as real,
        ;
    }
    crate::utils::sums::lemma_sum_plus(kept, turn, part, n);
    crate::utils::sums::lemma_sum_plus(part, gain, held, n);
    assert forall|i: int| 0 <= i < n implies #[trigger] gain(i) >= 0 as real by {
        assert(held(i) == part(i) + gain(i) && gain(i) >= 0 as real);
    }
    crate::utils::sums::lemma_sum_not_negative(gain, n);
    // The terms of first order cancel.
    let f = |k: int, i: int| (s(k, i) * u(k)) * h(i);
    let across = |k: int| u(k) * v(k);
    let down = |i: int| pull(value, rows, cols, residual, d, i) * h(i);
    assert forall|k: int| 0 <= k < m implies #[trigger] across(k) == crate::utils::sums::sum(|i: int| f(k, i), n) by {
        let inner = |i: int| s(k, i) * h(i);
        let outer = |i: int| f(k, i);
        let x = u(k);
        assert forall|i: int| 0 <= i < n implies #[trigger] outer(i) == x * inner(i) by {
            let (y, z) = (s(k, i), h(i));
            assert((y * x) * z == x * (y * z)) by (nonlinear_arith);
        }
        crate::utils::sums::lemma_sum_times(x, inner, outer, n);
    }
    assert forall|i: int| 0 <= i < n implies #[trigger] down(i) == crate::utils::sums::sum(|k: int| f(k, i), m) by {
        let inner = |k: int|
            slope_of(value, rows, cols, k, i) * left_over(value, rows, cols, residual, d, k);
        let outer = |k: int| f(k, i);
        let x = h(i);
        assert forall|k: int| 0 <= k < m implies #[trigger] outer(k) == x * inner(k) by {
            let y = s(k, i) * u(k);
            assert(y * x == x * y) by (nonlinear_arith);
        }
        crate::utils::sums::lemma_sum_times(x, inner, outer, m);
        let y = crate::utils::sums::sum(inner, m);
        assert(y == pull(value, rows, cols, residual, d, i));
        assert(y * x == x * y) by (nonlinear_arith);
    }
    crate::utils::sums::lemma_sum_swap(f, across, down, m, n);
    crate::utils::sums::lemma_sum_times(2 as real, across, cross, m);
    assert forall|i: int| 0 <= i < n implies #[trigger] turn(i) == -2 as real * down(i) by {
        let (p, w, x, y) = (
            pull(value, rows, cols, residual, d, i),
            value(weights[i]),
            d[i],
            h(i),
        );
        assert(p + w * x == 0 as real);
        let q = w * x;
        assert(2 as real * (q * y) == -2 as real * (p * y)) by (nonlinear_arith)
            requires
                p == -q,
        ;
    }
    crate::utils::sums::lemma_sum_times(-2 as real, down, turn, n);
    let first = |k: int|
        left_over(value, rows, cols, residual, d, k) * left_over(
            value,
            rows,
            cols,
            residual,
            d,
            k,
        );
    crate::utils::sums::lemma_same_sum(before, first, m);
    assert(crate::utils::sums::sum(across, m) == crate::utils::sums::sum(down, n));
    assert(crate::utils::sums::sum(cross, m) + crate::utils::sums::sum(turn, n) == 0 as real);
    assert(regularised_error(value, rows, cols, residual, weights, d) == crate::utils::sums::sum(first, m) + crate::utils::sums::sum(kept, n));
    assert(regularised_error(value, rows, cols, residual, weights, e) == crate::utils::sums::sum(after, m) + crate::utils::sums::sum(held, n));
}

/// In exact arithmetic the change of the keys has the smallest regularised error:
/// no other change of the keys leaves less of the residual, in squares and with the
/// squares of the changes by their weights, where the weights are not negative and
/// some change is stationary.
pub proof fn law_step_is_least<T, O: Arithmetic<T> + SolveOps<T>>(
    ops: &O,
    rows: Seq<Vec<T>>,
    cols: Seq<usize>,
    residual: Seq<T>,
    weights: Seq<T>,
    zero: T,
    d: Seq<T>,
    value: spec_fn(T) -> real,
    z: Seq<real>,
    other: Seq<real>,
)
    requires
        crate::scalar::is_exact(ops, value),
        solves_exactly(ops, value),
        value(zero) == 0 as real,
        weights.len() == cols.len(),
        forall|i: int| 0 <= i < weights.len() ==> value(#[trigger] weights[i]) >= 0 as real,
        is_stationary(value, rows, cols, residual, weights, z),
        crate::parameters_regressor::phenotype_step::is_solution(
            ops,
            rows,
            cols,
            residual,
            weights,
            zero,
            d,
        ),
        other.len() == cols.len(),
    ensures
        d.len() == cols.len(),
        regularised_error(value, rows, cols, residual, weights, numbers(value, d))
            <= regularised_error(value, rows, cols, residual, weights, other),
{
    let n = cols.len();
    let e = choose|e: Equations<T>| #[trigger]
        crate::parameters_regressor::phenotype_step::are_equations(
            ops,
            rows,
            cols,
            residual,
            weights,
            zero,
            e,
        ) && crate::parameters_regressor::phenotype_step::is_change(
            ops,
            e.solved,
            n as int,
            zero,
            d,
        );
    let (matrix, right) = (e.matrix, e.right);
    assert(solves(value, matrix@, right@, z)) by {
        assert forall|i: int| 0 <= i < right@.len() implies crate::utils::sums::sum(
            |j: int| value(matrix@[i]@[j]) * z[j],
            right@.len(),
        ) == value(#[trigger] right@[i]) by {
            lemma_equation(ops, rows, cols, residual, weights, zero, e, value, z, i);
            assert(pull(value, rows, cols, residual, z, i) + value(weights[i]) * z[i] == 0 as real);
        }
    }
    assert(e.solved is Some);
    let x = e.solved->0;
    assert(solves(value, matrix@, right@, numbers(value, x@)));
    let found = numbers(value, d);
    assert(found =~= numbers(value, x@)) by {
        assert forall|i: int| 0 <= i < n implies d[i] == x@[i] by {
            assert(crate::parameters_regressor::phenotype_step::is_kept(ops, x@[i], zero, d[i]));
        }
    }
    assert forall|i: int| 0 <= i < n implies #[trigger] pull(
        value,
        rows,
        cols,
        residual,
        found,
        i,
    ) + value(weights[i]) * found[i] == 0 as real by {
        lemma_equation(ops, rows, cols, residual, weights, zero, e, value, found, i);
        assert(crate::utils::sums::sum(|j: int| value(matrix@[i]@[j]) * found[j], n) == value(right@[i]));
    }
    lemma_stationary_is_least(value, rows, cols, residual, weights, found, other);
}

/// In exact arithmetic the right side that is handed to the solver holds for each
/// key the sum over the rows of its slope times the residual.
pub proof fn law_right_side<T, O: Arithmetic<T> + SolveOps<T>>(
    ops: &O,
    rows: Seq<Vec<T>>,
    cols: Seq<usize>,
    residual: Seq<T>,
    weights: Seq<T>,
    zero: T,
    e: Equations<T>,
    value: spec_fn(T) -> real,
    i: int,
)
    requires
        crate::scalar::is_exact(ops, value),
        value(zero) == 0 as real,
        weights.len() == cols.len(),
        crate::parameters_regressor::phenotype_step::are_equations(
            ops,
            rows,
            cols,
            residual,
            weights,
            zero,
            e,
        ),
        0 <= i < cols.len(),
    ensures
        value(e.right@[i]) == crate::utils::sums::sum(
            |k: int| value(rows[k]@[cols[i] as int]) * value(residual[k]),
            rows.len(),
        ),
{
    let terms = crate::parameters_regressor::phenotype_step::residual_terms(
        e.slopes@,
        residual,
        i,
    );
    assert(crate::utils::blend::is_blend(ops, zero, terms, e.right@[i]));
    crate::utils::sums::lemma_blend(ops, zero, terms, e.right@[i], value);
    let f = |k: int| value(terms[k].0) * value(terms[k].1);
    let g = |k: int| value(rows[k]@[cols[i] as int]) * value(residual[k]);
    assert forall|k: int| 0 <= k < rows.len() implies #[trigger] f(k) == g(k) by {
        assert(e.slopes@[k]@ == crate::parameters_regressor::phenotype_step::columns_of(
            rows[k]@,
            cols,
        ));
    }
    crate::utils::sums::lemma_same_sum(f, g, rows.len());
}

/// In exact arithmetic the changes that are solved for have the smallest regularised
/// error, each in its element of the batch, by the slopes and the residual of
/// that element.
pub proof fn law_changes_are_least<T: Copy, O: Arithmetic<T> + SolveOps<T>>(
    ops: &O,
    jacobian: Vec<Vec<Vec<T>>>,
    residual: Vec<Vec<T>>,
    cols: Vec<usize>,
    weights: Vec<T>,
    zero: T,
    changes: Vec<Vec<T>>,
    value: spec_fn(T) -> real,
    b: int,
    z: Seq<real>,
    other: Seq<real>,
)
    requires
        crate::scalar::is_exact(ops, value),
        solves_exactly(ops, value),
        value(zero) == 0 as real,
        weights@.len() == cols@.len(),
        forall|i: int| 0 <= i < weights@.len() ==> value(#[trigger] weights@[i]) >= 0 as real,
        call_ensures(
            crate::parameters_regressor::phenotype_step::tikhonov_solve::<T, O>,
            (&jacobian, &residual, &cols, &weights, zero, ops),
            changes,
        ),
        0 <= b < jacobian@.len(),
        is_stationary(value, jacobian@[b]@, cols@, residual@[b]@, weights@, z),
        other.len() == cols@.len(),
    ensures
        changes@.len() == jacobian@.len(),
        changes@[b]@.len() == cols@.len(),
        regularised_error(
            value,
            jacobian@[b]@,
            cols@,
            residual@[b]@,
            weights@,
            numbers(value, changes@[b]@),
        ) <= regularised_error(
            value,
            jacobian@[b]@,
            cols@,
            residual@[b]@,
            weights@,
            other,
        ),
{
    law_step_is_least(
        ops,
        jacobian@[b]@,
        cols@,
        residual@[b]@,
        weights@,
        zero,
        changes@[b]@,
        value,
        z,
        other,
    );
}

} // verus!
