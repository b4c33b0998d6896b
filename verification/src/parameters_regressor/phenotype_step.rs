//! One step of the phenotype: slopes from perturbed bodies, and the change
//! that they call for.
use vstd::prelude::*;

use crate::parameters_regressor::SolveOps;
use crate::scalar::Arithmetic;
use crate::utils::blend::blend;

verus! {

/// `x` is the slope of coordinate `c` of sample `s` in label `l`: how it
/// changes from the first body of the row to that of the label, times
/// `per_step`.
pub open spec fn is_slope<T, O: Arithmetic<T>>(
    ops: &O,
    per_step: T,
    points: Seq<Vec<[T; 3]>>,
    samples: Seq<u32>,
    n_labels: int,
    b: int,
    s: int,
    c: int,
    l: int,
    x: T,
) -> bool {
    let row = b * (n_labels + 1);
    let at = samples[s] as int;
    exists|d: T| #[trigger]
        crate::scalar::difference_of(ops, points[row + l + 1]@[at]@[c], points[row]@[at]@[c], d)
            && crate::scalar::product_of(ops, d, per_step, x)
}

fn slope<T: Copy, O: Arithmetic<T>>(x: T, y: T, per_step: T, ops: &O) -> (r: T)
    ensures
        exists|d: T| #[trigger]
            crate::scalar::difference_of(ops, x, y, d) && crate::scalar::product_of(
                ops,
                d,
                per_step,
                r,
            ),
{
    let d = ops.minus(x, y);
    assert(crate::scalar::difference_of(ops, x, y, d));
    ops.times(d, per_step)
}

/// The slopes of one coordinate of one sample, one for each label.
pub open spec fn are_slopes<T, O: Arithmetic<T>>(
    ops: &O,
    per_step: T,
    points: Seq<Vec<[T; 3]>>,
    samples: Seq<u32>,
    n_labels: int,
    b: int,
    s: int,
    c: int,
    xs: Seq<T>,
) -> bool {
    &&& xs.len() == n_labels
    &&& forall|l: int|
        0 <= l < n_labels ==> is_slope(
            ops,
            per_step,
            points,
            samples,
            n_labels,
            b,
            s,
            c,
            l,
            #[trigger] xs[l],
        )
}

/// The bodies have all samples, and there is one for each label and one more
/// for each element.
pub open spec fn jacobian_shape<T>(
    points: Seq<Vec<[T; 3]>>,
    samples: Seq<u32>,
    n_labels: int,
    batch: int,
) -> bool {
    &&& points.len() == batch * (n_labels + 1)
    &&& forall|i: int, s: int|
        0 <= i < points.len() && 0 <= s < samples.len() ==> (#[trigger] samples[s]) < (
        #[trigger] points[i])@.len()
}

fn slopes<T: Copy, O: Arithmetic<T>>(
    points: &Vec<Vec<[T; 3]>>,
    samples: &Vec<u32>,
    n_labels: usize,
    batch: usize,
    per_step: T,
    ops: &O,
    b: usize,
    s: usize,
    c: usize,
) -> (r: Vec<T>)
    requires
        n_labels < usize::MAX,
        jacobian_shape(points@, samples@, n_labels as int, batch as int),
        b < batch,
        s < samples@.len(),
        c < 3,
    ensures
        are_slopes(
            ops,
            per_step,
            points@,
            samples@,
            n_labels as int,
            b as int,
            s as int,
            c as int,
            r@,
        ),
{
    let repeats: usize = n_labels + 1;
    assert(0 <= b * repeats && b * repeats + repeats <= batch * repeats) by (nonlinear_arith)
        requires
            b < batch,
    ;
    assert(batch * repeats == points.len());
    let row: usize = b * repeats;
    let at: usize = samples[s] as usize;
    let mut r: Vec<T> = Vec::new();
    for l in 0..n_labels
        invariant
            repeats == n_labels + 1,
            row == b * repeats,
            row + repeats <= points.len(),
            jacobian_shape(points@, samples@, n_labels as int, batch as int),
            s < samples@.len(),
            c < 3,
            at == samples@[s as int],
            r@.len() == l,
            forall|k: int|
                0 <= k < l ==> is_slope(
                    ops,
                    per_step,
                    points@,
                    samples@,
                    n_labels as int,
                    b as int,
                    s as int,
                    c as int,
                    k,
                    #[trigger] r@[k],
                ),
    {
        assert(samples@[s as int] < points@[row + l + 1]@.len());
        assert(samples@[s as int] < points@[row as int]@.len());
        r.push(slope(points[row + l + 1][at][c], points[row][at][c], per_step, ops));
    }
    r
}

/// For each element of the batch the slopes: a row for each coordinate of
/// each sample, a column for each label. The bodies of an element stand
/// together, the unchanged one first, then one for each label. A slope is how
/// much the changed one is off, times `per_step`.
pub fn macro_jacobian<T: Copy, O: Arithmetic<T>>(
    points: &Vec<Vec<[T; 3]>>,
    samples: &Vec<u32>,
    n_labels: usize,
    batch: usize,
    ops: &O,
    per_step: T,
) -> (r: Vec<Vec<Vec<T>>>)
    requires
        n_labels < usize::MAX,
        jacobian_shape(points@, samples@, n_labels as int, batch as int),
    ensures
        r@.len() == batch,
        forall|b: int| 0 <= b < batch ==> (#[trigger] r@[b])@.len() == 3 * samples@.len(),
        forall|b: int, s: int, c: int|
            0 <= b < batch && 0 <= s < samples@.len() && 0 <= c < 3 ==> #[trigger] is_row(
                ops,
                per_step,
                points@,
                samples@,
                n_labels as int,
                r@[b]@,
                b,
                s,
                c,
            ),
        are_all_slopes(ops, per_step, points@, samples@, n_labels as int, batch as int, r@),
{
    let mut r: Vec<Vec<Vec<T>>> = Vec::new();
    for b in 0..batch
        invariant
            n_labels < usize::MAX,
            jacobian_shape(points@, samples@, n_labels as int, batch as int),
            r@.len() == b,
            forall|d: int| 0 <= d < b ==> (#[trigger] r@[d])@.len() == 3 * samples@.len(),
            forall|d: int, s: int, c: int|
                0 <= d < b && 0 <= s < samples@.len() && 0 <= c < 3 ==> #[trigger] is_row(
                    ops,
                    per_step,
                    points@,
                    samples@,
                    n_labels as int,
                    r@[d]@,
                    d,
                    s,
                    c,
                ),
    {
        let mut rows: Vec<Vec<T>> = Vec::new();
        for s in 0..samples.len()
            invariant
                n_labels < usize::MAX,
                b < batch,
                jacobian_shape(points@, samples@, n_labels as int, batch as int),
                rows@.len() == 3 * s,
                forall|t: int, c: int|
                    0 <= t < s && 0 <= c < 3 ==> #[trigger] is_row(
                        ops,
                        per_step,
                        points@,
                        samples@,
                        n_labels as int,
                        rows@,
                        b as int,
                        t,
                        c,
                    ),
        {
            let ghost before = rows@;
            rows.push(slopes(points, samples, n_labels, batch, per_step, ops, b, s, 0));
            rows.push(slopes(points, samples, n_labels, batch, per_step, ops, b, s, 1));
            rows.push(slopes(points, samples, n_labels, batch, per_step, ops, b, s, 2));
            proof {
                assert forall|t: int, c: int|
                    0 <= t < s + 1 && 0 <= c < 3 implies #[trigger] is_row(
                    ops,
                    per_step,
                    points@,
                    samples@,
                    n_labels as int,
                    rows@,
                    b as int,
                    t,
                    c,
                ) by {
                    if t < s {
                        assert(is_row(
                            ops,
                            per_step,
                            points@,
                            samples@,
                            n_labels as int,
                            before,
                            b as int,
                            t,
                            c,
                        ));
                        assert(rows@[3 * t + c] == before[3 * t + c]);
                    } else {
                        assert(c == 0 || c == 1 || c == 2);
                    }
                }
            }
        }
        let ghost before = r@;
        r.push(rows);
        proof {
            assert forall|d: int, s: int, c: int|
                0 <= d < b + 1 && 0 <= s < samples@.len() && 0 <= c < 3 implies #[trigger] is_row(
                ops,
                per_step,
                points@,
                samples@,
                n_labels as int,
                r@[d]@,
                d,
                s,
                c,
            ) by {
                if d < b {
                    assert(r@[d] == before[d]);
                }
            }
        }
    }
    r
}

/// Row `3 * s + c` holds the slopes of coordinate `c` of sample `s`.
pub open spec fn is_row<T, O: Arithmetic<T>>(
    ops: &O,
    per_step: T,
    points: Seq<Vec<[T; 3]>>,
    samples: Seq<u32>,
    n_labels: int,
    rows: Seq<Vec<T>>,
    b: int,
    s: int,
    c: int,
) -> bool {
    are_slopes(ops, per_step, points, samples, n_labels, b, s, c, rows[3 * s + c]@)
}

/// `r` holds the slopes of all coordinates of all samples, for each element.
pub open spec fn are_all_slopes<T, O: Arithmetic<T>>(
    ops: &O,
    per_step: T,
    points: Seq<Vec<[T; 3]>>,
    samples: Seq<u32>,
    n_labels: int,
    batch: int,
    r: Seq<Vec<Vec<T>>>,
) -> bool {
    &&& r.len() == batch
    &&& forall|b: int| 0 <= b < batch ==> (#[trigger] r[b])@.len() == 3 * samples.len()
    &&& forall|b: int, s: int, c: int|
        0 <= b < batch && 0 <= s < samples.len() && 0 <= c < 3 ==> #[trigger] is_row(
            ops,
            per_step,
            points,
            samples,
            n_labels,
            r[b]@,
            b,
            s,
            c,
        )
}

/// The columns of a row.
pub open spec fn columns_of<T>(row: Seq<T>, cols: Seq<usize>) -> Seq<T> {
    Seq::new(cols.len(), |i: int| row[cols[i] as int])
}

/// `a` holds the columns of the rows.
pub open spec fn is_selection<T>(rows: Seq<Vec<T>>, cols: Seq<usize>, a: Seq<Vec<T>>) -> bool {
    &&& a.len() == rows.len()
    &&& forall|i: int| 0 <= i < rows.len() ==> (#[trigger] a[i])@ == columns_of(rows[i]@, cols)
}

fn select<T: Copy>(rows: &Vec<Vec<T>>, cols: &Vec<usize>) -> (a: Vec<Vec<T>>)
    requires
        forall|i: int, k: int|
            0 <= i < rows@.len() && 0 <= k < cols@.len() ==> (#[trigger] cols@[k]) < (
            #[trigger] rows@[i])@.len(),
    ensures
        is_selection(rows@, cols@, a@),
{
    let mut a: Vec<Vec<T>> = Vec::new();
    for i in 0..rows.len()
        invariant
            forall|i: int, k: int|
                0 <= i < rows@.len() && 0 <= k < cols@.len() ==> (#[trigger] cols@[k]) < (
                #[trigger] rows@[i])@.len(),
            a@.len() == i,
            forall|j: int| 0 <= j < i ==> (#[trigger] a@[j])@ == columns_of(rows@[j]@, cols@),
    {
        let row = &rows[i];
        let mut picked: Vec<T> = Vec::new();
        for k in 0..cols.len()
            invariant
                i < rows@.len(),
                *row == rows@[i as int],
                forall|i: int, k: int|
                    0 <= i < rows@.len() && 0 <= k < cols@.len() ==> (#[trigger] cols@[k]) < (
                    #[trigger] rows@[i])@.len(),
                picked@ =~= columns_of(row@, cols@.take(k as int)),
        {
            assert(cols@[k as int] < rows@[i as int]@.len());
            picked.push(row[cols[k]]);
        }
        assert(cols@.take(cols@.len() as int) =~= cols@);
        a.push(picked);
    }
    a
}

/// `d` is what was solved, with 0 for what is not finite; 0 throughout where
/// there is no solution with `n` values.
pub open spec fn is_change<T, O: SolveOps<T>>(
    ops: &O,
    solved: Option<Vec<T>>,
    n: int,
    zero: T,
    d: Seq<T>,
) -> bool {
    &&& d.len() == n
    &&& if solved is Some && solved->0@.len() == n {
        forall|i: int| 0 <= i < n ==> is_kept(ops, solved->0@[i], zero, #[trigger] d[i])
    } else {
        forall|i: int| 0 <= i < n ==> #[trigger] d[i] == zero
    }
}

pub open spec fn is_kept<T, O: SolveOps<T>>(ops: &O, x: T, zero: T, d: T) -> bool {
    ||| call_ensures(O::finite, (ops, x), true) && d == x
    ||| call_ensures(O::finite, (ops, x), false) && d == zero
}

/// The products of two columns, row by row.
pub open spec fn column_terms<T>(a: Seq<Vec<T>>, i: int, j: int) -> Seq<(T, T)> {
    Seq::new(a.len(), |k: int| (a[k]@[i], a[k]@[j]))
}

/// The products of a column and the residual, row by row.
pub open spec fn residual_terms<T>(a: Seq<Vec<T>>, residual: Seq<T>, i: int) -> Seq<(T, T)> {
    Seq::new(a.len(), |k: int| (a[k]@[i], residual[k]))
}

/// `r` is the entry of the slopes times themselves, plus that of the diagonal
/// matrix of the weights.
pub open spec fn is_normal_entry<T, O: Arithmetic<T>>(
    ops: &O,
    zero: T,
    a: Seq<Vec<T>>,
    weights: Seq<T>,
    i: int,
    j: int,
    r: T,
) -> bool {
    let held = if i == j {
        weights[i]
    } else {
        zero
    };
    exists|p: T| #[trigger]
        crate::utils::blend::is_blend(ops, zero, column_terms(a, i, j), p)
            && crate::scalar::sum_of(ops, p, held, r)
}

/// `m` is the matrix of the normal equations: the slopes times themselves,
/// with the weights on the diagonal.
pub open spec fn is_normal<T, O: Arithmetic<T>>(
    ops: &O,
    zero: T,
    a: Seq<Vec<T>>,
    weights: Seq<T>,
    m: Seq<Vec<T>>,
) -> bool {
    &&& m.len() == weights.len()
    &&& forall|i: int| 0 <= i < m.len() ==> (#[trigger] m[i])@.len() == weights.len()
    &&& forall|i: int, j: int|
        0 <= i < m.len() && 0 <= j < weights.len() ==> is_normal_entry(
            ops,
            zero,
            a,
            weights,
            i,
            j,
            #[trigger] m[i]@[j],
        )
}

/// `right` is the right side of the normal equations: the slopes times the
/// residual.
pub open spec fn is_right_side<T, O: Arithmetic<T>>(
    ops: &O,
    zero: T,
    a: Seq<Vec<T>>,
    residual: Seq<T>,
    n: int,
    right: Seq<T>,
) -> bool {
    &&& right.len() == n
    &&& forall|i: int|
        0 <= i < n ==> crate::utils::blend::is_blend(
            ops,
            zero,
            residual_terms(a, residual, i),
            #[trigger] right[i],
        )
}

fn normal_entry<T: Copy, O: Arithmetic<T>>(
    a: &Vec<Vec<T>>,
    weights: &Vec<T>,
    i: usize,
    j: usize,
    zero: T,
    ops: &O,
) -> (r: T)
    requires
        i < weights@.len(),
        j < weights@.len(),
        forall|k: int| 0 <= k < a@.len() ==> (#[trigger] a@[k])@.len() == weights@.len(),
    ensures
        is_normal_entry(ops, zero, a@, weights@, i as int, j as int, r),
{
    let mut terms: Vec<(T, T)> = Vec::new();
    for k in 0..a.len()
        invariant
            i < weights@.len(),
            j < weights@.len(),
            forall|k: int| 0 <= k < a@.len() ==> (#[trigger] a@[k])@.len() == weights@.len(),
            terms@ =~= column_terms(a@.take(k as int), i as int, j as int),
    {
        assert(a@[k as int]@.len() == weights@.len());
        let row = &a[k];
        terms.push((row[i], row[j]));
    }
    assert(a@.take(a@.len() as int) =~= a@);
    let p = blend(ops, zero, &terms);
    let w = if i == j {
        weights[i]
    } else {
        zero
    };
    let r = ops.plus(p, w);
    assert(crate::scalar::sum_of(ops, p, w, r));
    r
}

fn normal_matrix<T: Copy, O: Arithmetic<T>>(
    a: &Vec<Vec<T>>,
    weights: &Vec<T>,
    zero: T,
    ops: &O,
) -> (m: Vec<Vec<T>>)
    requires
        forall|k: int| 0 <= k < a@.len() ==> (#[trigger] a@[k])@.len() == weights@.len(),
    ensures
        is_normal(ops, zero, a@, weights@, m@),
{
    let n: usize = weights.len();
    let mut m: Vec<Vec<T>> = Vec::new();
    for i in 0..n
        invariant
            n == weights@.len(),
            forall|k: int| 0 <= k < a@.len() ==> (#[trigger] a@[k])@.len() == weights@.len(),
            m@.len() == i,
            forall|k: int| 0 <= k < i ==> (#[trigger] m@[k])@.len() == n,
            forall|k: int, j: int|
                0 <= k < i && 0 <= j < n ==> is_normal_entry(
                    ops,
                    zero,
                    a@,
                    weights@,
                    k,
                    j,
                    #[trigger] m@[k]@[j],
                ),
    {
        let mut row: Vec<T> = Vec::new();
        for j in 0..n
            invariant
                n == weights@.len(),
                i < n,
                forall|k: int| 0 <= k < a@.len() ==> (#[trigger] a@[k])@.len() == weights@.len(),
                row@.len() == j,
                forall|k: int|
                    0 <= k < j ==> is_normal_entry(
                        ops,
                        zero,
                        a@,
                        weights@,
                        i as int,
                        k,
                        #[trigger] row@[k],
                    ),
        {
            row.push(normal_entry(a, weights, i, j, zero, ops));
        }
        m.push(row);
    }
    m
}

fn right_side<T: Copy, O: Arithmetic<T>>(
    a: &Vec<Vec<T>>,
    residual: &Vec<T>,
    n: usize,
    zero: T,
    ops: &O,
) -> (right: Vec<T>)
    requires
        a@.len() <= residual@.len(),
        forall|k: int| 0 <= k < a@.len() ==> (#[trigger] a@[k])@.len() == n,
    ensures
        is_right_side(ops, zero, a@, residual@, n as int, right@),
{
    let mut right: Vec<T> = Vec::new();
    for i in 0..n
        invariant
            a@.len() <= residual@.len(),
            forall|k: int| 0 <= k < a@.len() ==> (#[trigger] a@[k])@.len() == n,
            right@.len() == i,
            forall|j: int|
                0 <= j < i ==> crate::utils::blend::is_blend(
                    ops,
                    zero,
                    residual_terms(a@, residual@, j),
                    #[trigger] right@[j],
                ),
    {
        let mut terms: Vec<(T, T)> = Vec::new();
        for k in 0..a.len()
            invariant
                i < n,
                a@.len() <= residual@.len(),
                forall|k: int| 0 <= k < a@.len() ==> (#[trigger] a@[k])@.len() == n,
                terms@ =~= residual_terms(a@.take(k as int), residual@, i as int),
        {
            assert(a@[k as int]@.len() == n);
            terms.push((a[k][i], residual[k]));
        }
        assert(a@.take(a@.len() as int) =~= a@);
        right.push(blend(ops, zero, &terms));
    }
    right
}

/// The normal equations of a step, and what solves them.
pub struct Equations<T> {
    pub slopes: Vec<Vec<T>>,
    pub matrix: Vec<Vec<T>>,
    pub right: Vec<T>,
    pub solved: Option<Vec<T>>,
}

/// The equations are those of the columns of the rows, the residual and the
/// weights.
pub open spec fn are_equations<T, O: Arithmetic<T> + SolveOps<T>>(
    ops: &O,
    rows: Seq<Vec<T>>,
    cols: Seq<usize>,
    residual: Seq<T>,
    weights: Seq<T>,
    zero: T,
    e: Equations<T>,
) -> bool {
    &&& is_selection(rows, cols, e.slopes@)
    &&& is_normal(ops, zero, e.slopes@, weights, e.matrix@)
    &&& is_right_side(ops, zero, e.slopes@, residual, cols.len() as int, e.right@)
    &&& call_ensures(O::solved, (ops, &e.matrix, &e.right), e.solved)
}

/// `d` is the change that the slopes of the columns and the residual call for.
pub open spec fn is_solution<T, O: Arithmetic<T> + SolveOps<T>>(
    ops: &O,
    rows: Seq<Vec<T>>,
    cols: Seq<usize>,
    residual: Seq<T>,
    weights: Seq<T>,
    zero: T,
    d: Seq<T>,
) -> bool {
    exists|e: Equations<T>| #[trigger]
        are_equations(ops, rows, cols, residual, weights, zero, e) && is_change(
            ops,
            e.solved,
            cols.len() as int,
            zero,
            d,
        )
}

fn solution<T: Copy, O: Arithmetic<T> + SolveOps<T>>(
    rows: &Vec<Vec<T>>,
    residual: &Vec<T>,
    cols: &Vec<usize>,
    weights: &Vec<T>,
    zero: T,
    ops: &O,
) -> (d: Vec<T>)
    requires
        rows@.len() <= residual@.len(),
        forall|i: int, k: int|
            0 <= i < rows@.len() && 0 <= k < cols@.len() ==> (#[trigger] cols@[k]) < (
            #[trigger] rows@[i])@.len(),
        weights@.len() == cols@.len(),
    ensures
        is_solution(ops, rows@, cols@, residual@, weights@, zero, d@),
{
    let n: usize = cols.len();
    let slopes = select(rows, cols);
    let matrix = normal_matrix(&slopes, weights, zero, ops);
    let right = right_side(&slopes, residual, n, zero, ops);
    let solved = ops.solved(&matrix, &right);
    let solvable = match &solved {
        Some(x) => x.len() == n,
        None => false,
    };
    let mut d: Vec<T> = Vec::new();
    for i in 0..n
        invariant
            solvable == (solved is Some && solved->0@.len() == n),
            d@.len() == i,
            if solvable {
                forall|k: int| 0 <= k < i ==> is_kept(ops, solved->0@[k], zero, #[trigger] d@[k])
            } else {
                forall|k: int| 0 <= k < i ==> #[trigger] d@[k] == zero
            },
    {
        let mut y = zero;
        if let Some(x) = &solved {
            if x.len() == n && ops.finite(x[i]) {
                y = x[i];
            }
        }
        d.push(y);
    }
    proof {
        let e = Equations { slopes, matrix, right, solved };
        assert(are_equations(ops, rows@, cols@, residual@, weights@, zero, e));
        assert(is_change(ops, e.solved, n as int, zero, d@));
    }
    d
}

/// For each element of the batch the change of each key: what solves the normal
/// equations of the slopes of the keys' columns and of the residual, with the
/// weights of the regularisation, which hold the change back.
pub fn tikhonov_solve<T: Copy, O: Arithmetic<T> + SolveOps<T>>(
    jacobian: &Vec<Vec<Vec<T>>>,
    residual: &Vec<Vec<T>>,
    cols: &Vec<usize>,
    weights: &Vec<T>,
    zero: T,
    ops: &O,
) -> (r: Vec<Vec<T>>)
    requires
        jacobian@.len() <= residual@.len(),
        forall|b: int|
            0 <= b < jacobian@.len() ==> (#[trigger] jacobian@[b])@.len() <= residual@[b]@.len(),
        forall|b: int, i: int, k: int|
            0 <= b < jacobian@.len() && 0 <= i < jacobian@[b]@.len() && 0 <= k < cols@.len() ==> (
            #[trigger] cols@[k]) < (#[trigger] jacobian@[b]@[i])@.len(),
        weights@.len() == cols@.len(),
    ensures
        r@.len() == jacobian@.len(),
        forall|b: int|
            0 <= b < r@.len() ==> is_solution(
                ops,
                jacobian@[b]@,
                cols@,
                residual@[b]@,
                weights@,
                zero,
                (#[trigger] r@[b])@,
            ),
{
    let mut r: Vec<Vec<T>> = Vec::new();
    for b in 0..jacobian.len()
        invariant
            jacobian@.len() <= residual@.len(),
            forall|b: int|
                0 <= b < jacobian@.len() ==> (#[trigger] jacobian@[b])@.len()
                    <= residual@[b]@.len(),
            forall|b: int, i: int, k: int|
                0 <= b < jacobian@.len() && 0 <= i < jacobian@[b]@.len() && 0 <= k < cols@.len()
                    ==> (#[trigger] cols@[k]) < (#[trigger] jacobian@[b]@[i])@.len(),
            weights@.len() == cols@.len(),
            r@.len() == b,
            forall|d: int|
                0 <= d < b ==> is_solution(
                    ops,
                    jacobian@[d]@,
                    cols@,
                    residual@[d]@,
                    weights@,
                    zero,
                    (#[trigger] r@[d])@,
                ),
    {
        assert(jacobian@[b as int]@.len() <= residual@[b as int]@.len());
        r.push(solution(&jacobian[b], &residual[b], cols, weights, zero, ops));
    }
    r
}

} // verus!
