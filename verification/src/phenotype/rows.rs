//! The rows of coefficients of a phenotype: the shares of the races, and the
//! interpolation weights of the other features.
use vstd::prelude::*;

use crate::phenotype::{
    batch_size, broadcast, coefficients_of_rows, stack_features, BatchMismatch, MaskMismatch,
    PhenotypeValues,
};
use crate::scalar::{Bounds, Division};
use crate::utils::interpolation::linear_interpolation_coefficients;

verus! {

/// For each feature the values at which its variations stand.
#[derive(Debug, Clone)]
pub struct PhenotypeAnchors<T> {
    pub age: Vec<T>,
    pub gender: Vec<T>,
    pub muscle: Vec<T>,
    pub weight: Vec<T>,
    pub height: Vec<T>,
    pub proportions: Vec<T>,
    pub cupsize: Vec<T>,
    pub firmness: Vec<T>,
}

impl<T> PhenotypeAnchors<T> {
    /// Every feature has two anchors at least, and the columns can be counted.
    pub open spec fn spaced(&self) -> bool {
        &&& self.age@.len() >= 2
        &&& self.gender@.len() >= 2
        &&& self.muscle@.len() >= 2
        &&& self.weight@.len() >= 2
        &&& self.height@.len() >= 2
        &&& self.proportions@.len() >= 2
        &&& self.cupsize@.len() >= 2
        &&& self.firmness@.len() >= 2
        &&& column_count(*self) <= usize::MAX
    }
}

/// Numbers out of counts. Nothing is taken for granted of what is returned.
pub trait CountOps<T>: Division<T> {
    fn number(&self, n: usize) -> T;
}

/// `x` stands `i` steps above `low`.
pub open spec fn is_anchor<T, O: CountOps<T>>(ops: &O, low: T, step: T, i: usize, x: T) -> bool {
    exists|k: T, up: T| #[trigger]
        call_ensures(O::number, (ops, i), k) && #[trigger] crate::scalar::product_of(
            ops,
            step,
            k,
            up,
        ) && crate::scalar::sum_of(ops, low, up, x)
}

/// `step` is the distance from `low` to `high` in `n` equal parts.
pub open spec fn is_anchor_step<T, O: CountOps<T>>(
    ops: &O,
    low: T,
    high: T,
    n: usize,
    step: T,
) -> bool {
    exists|range: T, k: T| #[trigger]
        crate::scalar::difference_of(ops, high, low, range) && #[trigger] call_ensures(
            O::number,
            (ops, n),
            k,
        ) && crate::scalar::quotient_of(ops, range, k, step)
}

/// `xs` are `n` numbers from `low` to `high`, evenly spaced.
pub open spec fn are_even<T, O: CountOps<T>>(
    ops: &O,
    low: T,
    high: T,
    n: int,
    xs: Seq<T>,
) -> bool {
    &&& xs.len() == n
    &&& exists|step: T| #[trigger]
        is_anchor_step(ops, low, high, (n - 1) as usize, step) && forall|i: int|
            0 <= i < n ==> is_anchor(ops, low, step, i as usize, #[trigger] xs[i])
}

fn even<T: Copy, O: CountOps<T>>(low: T, high: T, n: usize, ops: &O) -> (r: Vec<T>)
    requires
        n >= 2,
    ensures
        are_even(ops, low, high, n as int, r@),
{
    let range = ops.minus(high, low);
    let parts = ops.number(n - 1);
    let step = ops.quotient(range, parts);
    proof {
        assert(crate::scalar::difference_of(ops, high, low, range));
        assert(call_ensures(O::number, (ops, (n - 1) as usize), parts));
        assert(is_anchor_step(ops, low, high, (n - 1) as usize, step));
    }
    let mut r: Vec<T> = Vec::new();
    for i in 0..n
        invariant
            r@.len() == i,
            forall|j: int| 0 <= j < i ==> is_anchor(ops, low, step, j as usize, #[trigger] r@[j]),
    {
        let k = ops.number(i);
        let up = ops.times(step, k);
        let x = ops.plus(low, up);
        proof {
            assert(call_ensures(O::number, (ops, i), k));
            assert(crate::scalar::product_of(ops, step, k, up));
            assert(is_anchor(ops, low, step, i, x));
        }
        r.push(x);
    }
    r
}

impl<T: Copy> PhenotypeAnchors<T> {
    /// The anchors of every feature, evenly spaced from 0 to 1; those of the
    /// age from `youngest`.
    pub fn build<O: CountOps<T>>(youngest: T, zero: T, one: T, ops: &O) -> (r: Self)
        ensures
            r.spaced(),
            are_even(ops, youngest, one, 5, r.age@),
            are_even(ops, zero, one, 2, r.gender@),
            are_even(ops, zero, one, 3, r.muscle@),
            are_even(ops, zero, one, 3, r.weight@),
            are_even(ops, zero, one, 2, r.height@),
            are_even(ops, zero, one, 2, r.proportions@),
            are_even(ops, zero, one, 3, r.cupsize@),
            are_even(ops, zero, one, 3, r.firmness@),
    {
        PhenotypeAnchors {
            age: even(youngest, one, 5, ops),
            gender: even(zero, one, 2, ops),
            muscle: even(zero, one, 3, ops),
            weight: even(zero, one, 3, ops),
            height: even(zero, one, 2, ops),
            proportions: even(zero, one, 2, ops),
            cupsize: even(zero, one, 3, ops),
            firmness: even(zero, one, 3, ops),
        }
    }
}

/// The features with anchors, in the order of their columns: the values and
/// the anchors of each.
pub open spec fn anchored<T>(
    values: PhenotypeValues<Vec<T>>,
    anchors: PhenotypeAnchors<T>,
) -> Seq<(Vec<T>, Vec<T>)> {
    seq![
        (values.gender, anchors.gender),
        (values.age, anchors.age),
        (values.muscle, anchors.muscle),
        (values.weight, anchors.weight),
        (values.height, anchors.height),
        (values.proportions, anchors.proportions),
        (values.cupsize, anchors.cupsize),
        (values.firmness, anchors.firmness),
    ]
}

/// `rows` are the weights of the anchors, one row for each value.
pub open spec fn are_weight_rows<T, O: Division<T> + Bounds<T>>(
    ops: &O,
    extrapolate: bool,
    zero: T,
    one: T,
    f: (Vec<T>, Vec<T>),
    rows: Seq<Vec<T>>,
) -> bool {
    &&& rows.len() == f.0@.len()
    &&& forall|b: int|
        0 <= b < rows.len() ==> crate::utils::interpolation::is_weight_row(
            ops,
            extrapolate,
            zero,
            one,
            f.1@,
            f.0@[b],
            (#[trigger] rows[b])@,
        )
}

/// `row` are the shares of three values in their sum; a share that is no number is
/// `third` instead.
pub open spec fn is_race_row<T, O: Division<T> + Bounds<T>>(
    ops: &O,
    third: T,
    a: T,
    b: T,
    c: T,
    row: Seq<T>,
) -> bool {
    exists|two: T, sum: T|
        {
            &&& #[trigger] crate::scalar::sum_of(ops, a, b, two)
            &&& #[trigger] crate::scalar::sum_of(ops, two, c, sum)
            &&& row.len() == 3
            &&& is_share(ops, third, a, sum, row[0])
            &&& is_share(ops, third, b, sum, row[1])
            &&& is_share(ops, third, c, sum, row[2])
        }
}

/// `r` is the quotient of `x` and `sum`, or `third` where that is no number.
pub open spec fn is_share<T, O: Division<T> + Bounds<T>>(
    ops: &O,
    third: T,
    x: T,
    sum: T,
    r: T,
) -> bool {
    exists|q: T, none: bool| #[trigger]
        crate::scalar::quotient_of(ops, x, sum, q) && #[trigger] crate::scalar::says_undefined(
            ops,
            q,
            none,
        ) && r == if none {
            third
        } else {
            q
        }
}

fn share<T: Copy, O: Division<T> + Bounds<T>>(ops: &O, third: T, x: T, sum: T) -> (r: T)
    ensures
        is_share(ops, third, x, sum, r),
{
    let q = ops.quotient(x, sum);
    let none = ops.undefined(q);
    assert(crate::scalar::quotient_of(ops, x, sum, q));
    assert(crate::scalar::says_undefined(ops, q, none));
    if none {
        third
    } else {
        q
    }
}

fn race_row<T: Copy, O: Division<T> + Bounds<T>>(
    ops: &O,
    third: T,
    a: T,
    b: T,
    c: T,
) -> (row: Vec<T>)
    ensures
        is_race_row(ops, third, a, b, c, row@),
{
    let two = ops.plus(a, b);
    let sum = ops.plus(two, c);
    let row: Vec<T> = vec![
        share(ops, third, a, sum),
        share(ops, third, b, sum),
        share(ops, third, c, sum),
    ];
    assert(crate::scalar::sum_of(ops, a, b, two) && crate::scalar::sum_of(ops, two, c, sum));
    row
}

/// The shares of the races, one row for each element of the batch.
pub open spec fn are_race_rows<T, O: Division<T> + Bounds<T>>(
    ops: &O,
    third: T,
    values: PhenotypeValues<Vec<T>>,
    batch: int,
    rows: Seq<Vec<T>>,
) -> bool {
    &&& rows.len() == batch
    &&& forall|b: int|
        0 <= b < batch ==> is_race_row(
            ops,
            third,
            crate::phenotype::element(values.african@, b),
            crate::phenotype::element(values.asian@, b),
            crate::phenotype::element(values.caucasian@, b),
            (#[trigger] rows[b])@,
        )
}

/// The lists of values that decide the size of the batch.
pub open spec fn value_counts<T>(values: PhenotypeValues<Vec<T>>) -> Seq<nat> {
    seq![
        values.age@.len(),
        values.gender@.len(),
        values.muscle@.len(),
        values.weight@.len(),
        values.height@.len(),
        values.proportions@.len(),
        values.cupsize@.len(),
        values.firmness@.len(),
    ]
}

/// `m` is the largest of the lengths.
pub open spec fn is_largest(counts: Seq<nat>, m: nat) -> bool {
    &&& counts.contains(m)
    &&& forall|i: int| 0 <= i < counts.len() ==> #[trigger] counts[i] <= m
}

/// Every list that has to serve the batch: those of the races, then those of
/// the features in the order of their columns.
pub open spec fn serving<T>(values: PhenotypeValues<Vec<T>>) -> Seq<nat> {
    seq![
        values.african@.len(),
        values.asian@.len(),
        values.caucasian@.len(),
        values.gender@.len(),
        values.age@.len(),
        values.muscle@.len(),
        values.weight@.len(),
        values.height@.len(),
        values.proportions@.len(),
        values.cupsize@.len(),
        values.firmness@.len(),
    ]
}

pub open spec fn misfits(len: nat, batch: nat) -> bool {
    len != batch && len != 1
}

/// The columns of all features: the shares of the races, then the weights of
/// the others.
pub open spec fn are_parts<T, O: Division<T> + Bounds<T>>(
    ops: &O,
    extrapolate: bool,
    third: T,
    zero: T,
    one: T,
    values: PhenotypeValues<Vec<T>>,
    anchors: PhenotypeAnchors<T>,
    batch: int,
    parts: Seq<Seq<Vec<T>>>,
) -> bool {
    &&& parts.len() == 9
    &&& are_race_rows(ops, third, values, batch, parts[0])
    &&& forall|f: int|
        0 <= f < 8 ==> are_weight_rows(
            ops,
            extrapolate,
            zero,
            one,
            #[trigger] anchored(values, anchors)[f],
            parts[f + 1],
        )
}

/// `rows` are the columns of all features, for each element of the batch.
pub open spec fn are_phenotype_rows<T, O: Division<T> + Bounds<T>>(
    ops: &O,
    extrapolate: bool,
    third: T,
    zero: T,
    one: T,
    values: PhenotypeValues<Vec<T>>,
    anchors: PhenotypeAnchors<T>,
    rows: Seq<Vec<T>>,
) -> bool {
    &&& is_largest(value_counts(values), rows.len())
    &&& forall|i: int| 0 <= i < 11 ==> !misfits(#[trigger] serving(values)[i], rows.len())
    &&& exists|parts: Seq<Seq<Vec<T>>>| #[trigger]
        are_parts(
            ops,
            extrapolate,
            third,
            zero,
            one,
            values,
            anchors,
            rows.len() as int,
            parts,
        ) && forall|b: int|
            0 <= b < rows.len() ==> (#[trigger] rows[b])@ == crate::phenotype::stacked(parts, b, 9)
}

/// The outcome of laying out the coefficients of a phenotype.
pub open spec fn rows_outcome<T, O: Division<T> + Bounds<T>>(
    ops: &O,
    extrapolate: bool,
    third: T,
    zero: T,
    one: T,
    values: PhenotypeValues<Vec<T>>,
    anchors: PhenotypeAnchors<T>,
    r: Result<Vec<Vec<T>>, BatchMismatch>,
) -> bool {
    match r {
        Ok(rows) => are_phenotype_rows(
            ops,
            extrapolate,
            third,
            zero,
            one,
            values,
            anchors,
            rows@,
        ),
        Err(e) => {
            &&& is_largest(value_counts(values), e.batch as nat)
            &&& exists|i: int|
                {
                    &&& 0 <= i < 11
                    &&& misfits(#[trigger] serving(values)[i], e.batch as nat)
                    &&& e.len == serving(values)[i]
                    &&& forall|j: int|
                        0 <= j < i ==> !misfits(#[trigger] serving(values)[j], e.batch as nat)
                }
        },
    }
}

fn weight_rows<T: Copy, O: Division<T> + Bounds<T>>(
    values: &Vec<T>,
    anchors: &Vec<T>,
    extrapolate: bool,
    zero: T,
    one: T,
    ops: &O,
) -> (rows: Vec<Vec<T>>)
    requires
        anchors@.len() >= 2,
    ensures
        are_weight_rows(ops, extrapolate, zero, one, (*values, *anchors), rows@),
{
    linear_interpolation_coefficients(values, anchors, extrapolate, zero, one, ops)
}

/// The row of coefficients of each element of the batch: the shares of the
/// three races, then for each feature the weights of its variations. `third`
/// is what a share counts as where the races sum to nothing.
pub fn phenotype_rows<T: Copy, O: Division<T> + Bounds<T>>(
    values: &PhenotypeValues<Vec<T>>,
    anchors: &PhenotypeAnchors<T>,
    extrapolate: bool,
    zero: T,
    one: T,
    ops: &O,
    third: T,
) -> (r: Result<Vec<Vec<T>>, BatchMismatch>)
    requires
        anchors.spaced(),
    ensures
        rows_outcome(ops, extrapolate, third, zero, one, *values, *anchors, r),
{
    let ghost all = anchored(*values, *anchors);
    proof {
        assert(all[0].1@.len() >= 2);
        assert(all[1].1@.len() >= 2);
        assert(all[2].1@.len() >= 2);
        assert(all[3].1@.len() >= 2);
        assert(all[4].1@.len() >= 2);
        assert(all[5].1@.len() >= 2);
        assert(all[6].1@.len() >= 2);
        assert(all[7].1@.len() >= 2);
    }
    let lens: Vec<usize> = vec![
        values.age.len(),
        values.gender.len(),
        values.muscle.len(),
        values.weight.len(),
        values.height.len(),
        values.proportions.len(),
        values.cupsize.len(),
        values.firmness.len(),
    ];
    let batch: usize = batch_size(&lens);
    let ghost counts = value_counts(*values);
    let ghost lists = serving(*values);
    proof {
        let i = choose|i: int| 0 <= i < lens@.len() && lens@[i] == batch;
        assert(counts[i] == batch);
        assert forall|i: int| 0 <= i < counts.len() implies #[trigger] counts[i] <= batch by {
            assert(lens@[i] <= batch);
        }
    }
    let african = match broadcast(&values.african, batch) {
        Ok(v) => v,
        Err(e) => {
            assert(misfits(lists[0], batch as nat));
            return Err(e);
        },
    };
    let asian = match broadcast(&values.asian, batch) {
        Ok(v) => v,
        Err(e) => {
            assert(misfits(lists[1], batch as nat));
            return Err(e);
        },
    };
    let caucasian = match broadcast(&values.caucasian, batch) {
        Ok(v) => v,
        Err(e) => {
            assert(misfits(lists[2], batch as nat));
            return Err(e);
        },
    };
    let mut race: Vec<Vec<T>> = Vec::new();
    for b in 0..batch
        invariant
            african@.len() == batch,
            asian@.len() == batch,
            caucasian@.len() == batch,
            race@.len() == b,
            forall|d: int|
                0 <= d < b ==> is_race_row(
                    ops,
                    third,
                    african@[d],
                    asian@[d],
                    caucasian@[d],
                    (#[trigger] race@[d])@,
                ),
    {
        race.push(race_row(ops, third, african[b], asian[b], caucasian[b]));
    }
    assert(are_race_rows(ops, third, *values, batch as int, race@));
    let parts: Vec<Vec<Vec<T>>> = vec![
        race,
        weight_rows(&values.gender, &anchors.gender, extrapolate, zero, one, ops),
        weight_rows(&values.age, &anchors.age, extrapolate, zero, one, ops),
        weight_rows(&values.muscle, &anchors.muscle, extrapolate, zero, one, ops),
        weight_rows(&values.weight, &anchors.weight, extrapolate, zero, one, ops),
        weight_rows(&values.height, &anchors.height, extrapolate, zero, one, ops),
        weight_rows(&values.proportions, &anchors.proportions, extrapolate, zero, one, ops),
        weight_rows(&values.cupsize, &anchors.cupsize, extrapolate, zero, one, ops),
        weight_rows(&values.firmness, &anchors.firmness, extrapolate, zero, one, ops),
    ];
    proof {
        let views = crate::phenotype::row_views(parts@);
        assert forall|f: int| 0 <= f < 8 implies are_weight_rows(
            ops,
            extrapolate,
            zero,
            one,
            #[trigger] all[f],
            views[f + 1],
        ) by {
            assert(f == 0 || f == 1 || f == 2 || f == 3 || f == 4 || f == 5 || f == 6 || f == 7);
        }
        assert(are_parts(
            ops,
            extrapolate,
            third,
            zero,
            one,
            *values,
            *anchors,
            batch as int,
            views,
        ));
        assert(!misfits(lists[0], batch as nat));
        assert(!misfits(lists[1], batch as nat));
        assert(!misfits(lists[2], batch as nat));
        assert forall|i: int| 1 <= i < 9 implies parts@[i]@.len() == #[trigger] lists[i + 2] by {
            assert(are_weight_rows(ops, extrapolate, zero, one, all[i - 1], parts@[i]@));
            assert(i == 1 || i == 2 || i == 3 || i == 4 || i == 5 || i == 6 || i == 7 || i == 8);
        }
    }
    match stack_features(&parts, batch) {
        Ok(rows) => {
            proof {
                assert forall|i: int| 0 <= i < 11 implies !misfits(
                    #[trigger] lists[i],
                    batch as nat,
                ) by {
                    if i >= 3 {
                        assert(!crate::phenotype::part_misfits(parts@, batch as int, i - 2));
                        assert(parts@[i - 2]@.len() == lists[i - 2 + 2]);
                    }
                }
            }
            Ok(rows)
        },
        Err(e) => {
            proof {
                let i = choose|i: int|
                    {
                        &&& 0 <= i < parts@.len()
                        &&& #[trigger] crate::phenotype::part_misfits(parts@, batch as int, i)
                        &&& forall|j: int|
                            0 <= j < i ==> !#[trigger] crate::phenotype::part_misfits(
                                parts@,
                                batch as int,
                                j,
                            )
                        &&& e.len == parts@[i]@.len()
                        &&& e.batch == batch
                    };
                assert(i >= 1);
                assert(parts@[i]@.len() == lists[i + 2]);
                assert(misfits(lists[i + 2], batch as nat));
                assert forall|j: int| 0 <= j < i + 2 implies !misfits(
                    #[trigger] lists[j],
                    batch as nat,
                ) by {
                    if j >= 3 {
                        assert(!crate::phenotype::part_misfits(parts@, batch as int, j - 2));
                        assert(parts@[j - 2]@.len() == lists[j - 2 + 2]);
                    }
                }
            }
            Err(e)
        },
    }
}

/// The number of columns: one for each race and each anchor.
pub open spec fn column_count<T>(anchors: PhenotypeAnchors<T>) -> nat {
    3 + anchors.gender@.len() + anchors.age@.len() + anchors.muscle@.len() + anchors.weight@.len()
        + anchors.height@.len() + anchors.proportions@.len() + anchors.cupsize@.len()
        + anchors.firmness@.len()
}

/// The number of columns.
fn columns<T>(anchors: &PhenotypeAnchors<T>) -> (r: usize)
    requires
        column_count(*anchors) <= usize::MAX,
    ensures
        r == column_count(*anchors),
{
    3 + anchors.gender.len() + anchors.age.len() + anchors.muscle.len() + anchors.weight.len()
        + anchors.height.len() + anchors.proportions.len() + anchors.cupsize.len()
        + anchors.firmness.len()
}

proof fn lemma_column_count<T, O: Division<T> + Bounds<T>>(
    ops: &O,
    extrapolate: bool,
    third: T,
    zero: T,
    one: T,
    values: PhenotypeValues<Vec<T>>,
    anchors: PhenotypeAnchors<T>,
    batch: int,
    parts: Seq<Seq<Vec<T>>>,
    b: int,
)
    requires
        are_parts(ops, extrapolate, third, zero, one, values, anchors, batch, parts),
        0 <= b < batch,
        forall|f: int|
            0 <= f < 8 ==> {
                let len = (#[trigger] anchored(values, anchors)[f]).0@.len();
                len == 1 || len == batch
            },
    ensures
        crate::phenotype::stacked(parts, b, 9).len() == column_count(anchors),
{
    let all = anchored(values, anchors);
    reveal_with_fuel(crate::phenotype::stacked, 10);
    assert(is_race_row(
        ops,
        third,
        crate::phenotype::element(values.african@, b),
        crate::phenotype::element(values.asian@, b),
        crate::phenotype::element(values.caucasian@, b),
        parts[0][b]@,
    ));
    assert(crate::phenotype::element(parts[0], b)@.len() == 3);
    assert forall|f: int| 0 <= f < 8 implies crate::phenotype::element(
        parts[f + 1],
        b,
    )@.len() == (#[trigger] all[f]).1@.len() by {
        let rows = parts[f + 1];
        assert(are_weight_rows(ops, extrapolate, zero, one, all[f], rows));
        let at = if rows.len() == 1 {
            0
        } else {
            b
        };
        assert(crate::utils::interpolation::is_weight_row(
            ops,
            extrapolate,
            zero,
            one,
            all[f].1@,
            all[f].0@[at],
            rows[at]@,
        ));
    }
    assert(crate::phenotype::element(parts[1], b)@.len() == all[0].1@.len());
    assert(crate::phenotype::element(parts[2], b)@.len() == all[1].1@.len());
    assert(crate::phenotype::element(parts[3], b)@.len() == all[2].1@.len());
    assert(crate::phenotype::element(parts[4], b)@.len() == all[3].1@.len());
    assert(crate::phenotype::element(parts[5], b)@.len() == all[4].1@.len());
    assert(crate::phenotype::element(parts[6], b)@.len() == all[5].1@.len());
    assert(crate::phenotype::element(parts[7], b)@.len() == all[6].1@.len());
    assert(crate::phenotype::element(parts[8], b)@.len() == all[7].1@.len());
}

/// What stops the coefficients of a phenotype from being computed.
#[derive(Debug, Clone, Copy)]
pub enum CoefficientError {
    Batch(BatchMismatch),
    Mask(MaskMismatch),
}

/// `r` are the products that the masks select from the rows.
pub open spec fn are_coefficients<T, O: Division<T> + Bounds<T>>(
    ops: &O,
    one: T,
    rows: Seq<Vec<T>>,
    masks: Seq<Vec<bool>>,
    r: Seq<Vec<T>>,
) -> bool {
    &&& r.len() == rows.len()
    &&& forall|b: int| 0 <= b < rows.len() ==> (#[trigger] r[b])@.len() == masks.len()
    &&& forall|b: int, c: int|
        0 <= b < rows.len() && 0 <= c < masks.len() ==> crate::phenotype::is_product(
            ops,
            crate::phenotype::factors(rows[b]@, masks[c]@, one),
            #[trigger] r[b]@[c],
        )
}

/// `r` are the coefficients of the blend shapes with the masks.
pub open spec fn are_gated<T, O: Division<T> + Bounds<T>>(
    ops: &O,
    extrapolate: bool,
    third: T,
    zero: T,
    one: T,
    values: PhenotypeValues<Vec<T>>,
    anchors: PhenotypeAnchors<T>,
    masks: Seq<Vec<bool>>,
    r: Seq<Vec<T>>,
) -> bool {
    exists|rows: Seq<Vec<T>>|
        {
            &&& #[trigger] are_phenotype_rows(
                ops,
                extrapolate,
                third,
                zero,
                one,
                values,
                anchors,
                rows,
            )
            &&& forall|c: int|
                0 <= c < masks.len() ==> (#[trigger] masks[c])@.len() == column_count(anchors)
            &&& are_coefficients(ops, one, rows, masks, r)
        }
}

/// What [`blendshape_coefficients`] makes of its inputs.
pub open spec fn coefficients_outcome<T, O: Division<T> + Bounds<T>>(
    ops: &O,
    extrapolate: bool,
    third: T,
    zero: T,
    one: T,
    values: PhenotypeValues<Vec<T>>,
    anchors: PhenotypeAnchors<T>,
    masks: Seq<Vec<bool>>,
    r: Result<Vec<Vec<T>>, CoefficientError>,
) -> bool {
    match r {
        Ok(coefficients) => are_gated(
            ops,
            extrapolate,
            third,
            zero,
            one,
            values,
            anchors,
            masks,
            coefficients@,
        ),
        Err(CoefficientError::Batch(e)) => rows_outcome(
            ops,
            extrapolate,
            third,
            zero,
            one,
            values,
            anchors,
            Err(e),
        ),
        Err(CoefficientError::Mask(e)) => {
            &&& e.columns == column_count(anchors)
            &&& exists|rows: Seq<Vec<T>>| #[trigger]
                are_phenotype_rows(
                    ops,
                    extrapolate,
                    third,
                    zero,
                    one,
                    values,
                    anchors,
                    rows,
                )
            &&& exists|c: int| #[trigger]
                crate::phenotype::first_misfit(masks, e.columns as int, c) && e.mask
                    == masks[c]@.len()
        },
    }
}

/// The coefficient of every blend shape for every element of the batch: the
/// product of the interpolation weights and race shares that the mask of the
/// shape selects.
pub fn blendshape_coefficients<T: Copy, O: Division<T> + Bounds<T>>(
    values: &PhenotypeValues<Vec<T>>,
    anchors: &PhenotypeAnchors<T>,
    masks: &Vec<Vec<bool>>,
    extrapolate: bool,
    zero: T,
    one: T,
    ops: &O,
    third: T,
) -> (r: Result<Vec<Vec<T>>, CoefficientError>)
    requires
        anchors.spaced(),
    ensures
        coefficients_outcome(
            ops,
            extrapolate,
            third,
            zero,
            one,
            *values,
            *anchors,
            masks@,
            r,
        ),
{
    match phenotype_rows(values, anchors, extrapolate, zero, one, ops, third) {
        Err(e) => Err(CoefficientError::Batch(e)),
        Ok(rows) => {
            let ghost batch = rows@.len() as int;
            proof {
                let parts = choose|parts: Seq<Seq<Vec<T>>>| #[trigger]
                    are_parts(
                        ops,
                        extrapolate,
                        third,
                        zero,
                        one,
                        *values,
                        *anchors,
                        batch,
                        parts,
                    ) && forall|b: int|
                        0 <= b < batch ==> (#[trigger] rows@[b])@ == crate::phenotype::stacked(
                            parts,
                            b,
                            9,
                        );
                assert forall|f: int| 0 <= f < 8 implies {
                    let len = (#[trigger] anchored(*values, *anchors)[f]).0@.len();
                    len == 1 || len == batch
                } by {
                    assert(!misfits(serving(*values)[f + 3], rows@.len()));
                }
                assert forall|b: int| 0 <= b < batch implies (#[trigger] rows@[b])@.len()
                    == column_count(*anchors) by {
                    lemma_column_count(
                        ops,
                        extrapolate,
                        third,
                        zero,
                        one,
                        *values,
                        *anchors,
                        batch,
                        parts,
                        b,
                    );
                }
            }
            match coefficients_of_rows(&rows, masks, columns(anchors), one, ops) {
                Ok(coefficients) => {
                    proof {
                        assert forall|c: int| 0 <= c < masks@.len() implies (
                        #[trigger] masks@[c])@.len() == column_count(*anchors) by {
                            assert(!crate::phenotype::mask_misfits(
                                masks@,
                                column_count(*anchors) as int,
                                c,
                            ));
                        }
                        assert(are_coefficients(ops, one, rows@, masks@, coefficients@));
                    }
                    Ok(coefficients)
                },
                Err(e) => Err(CoefficientError::Mask(e)),
            }
        },
    }
}

proof fn lemma_share(a: real, s: real)
    requires
        s != 0 as real,
    ensures
        (a / s) * s == a,
{
    assert((a / s) * s == a) by (nonlinear_arith)
        requires
            s != 0 as real,
    ;
}

/// A quotient is said to be no number exactly where nothing is divided by nothing,
/// as far as nothing else is divided by nothing.
pub open spec fn quotients_are_told<T, O: Division<T>>(ops: &O, value: spec_fn(T) -> real) -> bool {
    forall|x: T, y: T, q: T, r: bool|
        {
            &&& #[trigger] crate::scalar::quotient_of(ops, x, y, q)
            &&& #[trigger] crate::scalar::says_undefined(ops, q, r)
        } ==> {
            &&& value(y) != 0 as real ==> !r
            &&& value(x) == 0 as real && value(y) == 0 as real ==> r
        }
}

/// In exact arithmetic the shares of the races sum to 1, unless the races sum
/// to nothing.
pub proof fn law_race_shares<T, O: Division<T> + Bounds<T>>(
    ops: &O,
    third: T,
    a: T,
    b: T,
    c: T,
    row: Seq<T>,
    value: spec_fn(T) -> real,
)
    requires
        crate::scalar::is_exact(ops, value),
        crate::scalar::divides_exactly(ops, value),
        quotients_are_told(ops, value),
        value(a) + value(b) + value(c) != 0 as real,
        is_race_row(ops, third, a, b, c, row),
    ensures
        value(row[0]) + value(row[1]) + value(row[2]) == 1 as real,
{
    let (two, sum) = choose|two: T, sum: T|
        {
            &&& #[trigger] crate::scalar::sum_of(ops, a, b, two)
            &&& #[trigger] crate::scalar::sum_of(ops, two, c, sum)
            &&& row.len() == 3
            &&& is_share(ops, third, a, sum, row[0])
            &&& is_share(ops, third, b, sum, row[1])
            &&& is_share(ops, third, c, sum, row[2])
        };
    let s = value(sum);
    let x = value(row[0]);
    let y = value(row[1]);
    let z = value(row[2]);
    lemma_share(value(a), s);
    lemma_share(value(b), s);
    lemma_share(value(c), s);
    assert(x * s == value(a));
    assert(y * s == value(b));
    assert(z * s == value(c));
    let t = x + y + z;
    assert(t * s == x * s + y * s + z * s) by (nonlinear_arith)
        requires
            t == x + y + z,
    ;
    assert(t * s == s);
    assert(t == 1 as real) by (nonlinear_arith)
        requires
            t * s == s,
            s != 0 as real,
    ;
}

/// In exact arithmetic each share is a third where all three races are nothing.
pub proof fn law_no_races<T, O: Division<T> + Bounds<T>>(
    ops: &O,
    third: T,
    a: T,
    b: T,
    c: T,
    row: Seq<T>,
    value: spec_fn(T) -> real,
)
    requires
        crate::scalar::is_exact(ops, value),
        quotients_are_told(ops, value),
        value(a) == 0 as real,
        value(b) == 0 as real,
        value(c) == 0 as real,
        is_race_row(ops, third, a, b, c, row),
    ensures
        row == seq![third, third, third],
{
    let (two, sum) = choose|two: T, sum: T|
        {
            &&& #[trigger] crate::scalar::sum_of(ops, a, b, two)
            &&& #[trigger] crate::scalar::sum_of(ops, two, c, sum)
            &&& row.len() == 3
            &&& is_share(ops, third, a, sum, row[0])
            &&& is_share(ops, third, b, sum, row[1])
            &&& is_share(ops, third, c, sum, row[2])
        };
    assert(value(sum) == 0 as real);
    assert(row =~= seq![third, third, third]);
}

} // verus!
