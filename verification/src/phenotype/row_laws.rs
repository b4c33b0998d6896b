//! What the columns of a phenotype say in exact arithmetic: each feature by the
//! columns of its own labels, and by no other.
use vstd::prelude::*;

use crate::phenotype::rows::PhenotypeAnchors;
use crate::phenotype::PhenotypeValues;
use crate::scalar::{Bounds, Division};

verus! {

/// The value that a list gives for element `b`: a single one is for all.
pub open spec fn given<T>(values: Seq<T>, b: int) -> T {
    if values.len() == 1 {
        values[0]
    } else {
        values[b]
    }
}

/// A number, brought between two bounds unless it may go beyond them.
pub open spec fn bounded(extrapolate: bool, x: real, low: real, high: real) -> real {
    if extrapolate {
        x
    } else if x < low {
        low
    } else if x > high {
        high
    } else {
        x
    }
}

/// The columns from `from` on stand under these labels. Their weights sum to one,
/// and, mixed with the anchors, they are the value given: as it is, or, where
/// the lines end at the anchors, as far as the anchors go. No column is used
/// beside those of two neighbouring anchors, and none is negative where the
/// lines end at the anchors.
pub open spec fn says<T>(
    extrapolate: bool,
    value: spec_fn(T) -> real,
    row: Seq<T>,
    from: int,
    labels: Seq<Seq<char>>,
    anchors: Seq<T>,
    v: T,
) -> bool {
    &&& anchors.len() == labels.len()
    &&& 0 <= from <= from + labels.len() <= row.len()
    &&& row.len() == crate::phenotype::variation_labels().len()
    &&& forall|k: int|
        0 <= k < labels.len() ==> #[trigger] labels[k] == crate::phenotype::variation_labels()[from
            + k]
    &&& crate::utils::sums::sum(|k: int| value(row[from + k]), labels.len()) == 1 as real
    &&& crate::utils::sums::sum(
        |k: int| value(row[from + k]) * value(anchors[k]),
        labels.len(),
    ) == bounded(extrapolate, value(v), value(anchors[0]), value(anchors.last()))
    &&& forall|i: int, j: int|
        0 <= i && i + 1 < j < labels.len() ==> value(#[trigger] row[from + i]) == 0 as real
            || value(#[trigger] row[from + j]) == 0 as real
    &&& !extrapolate ==> forall|k: int|
        0 <= k < labels.len() ==> value(#[trigger] row[from + k]) >= 0 as real
}

/// The anchors of every feature ascend, and there is one for each of its labels.
pub open spec fn are_labelled<T>(
    value: spec_fn(T) -> real,
    anchors: PhenotypeAnchors<T>,
) -> bool {
    &&& anchors.gender@.len() == 2
    &&& anchors.age@.len() == 5
    &&& anchors.muscle@.len() == 3
    &&& anchors.weight@.len() == 3
    &&& anchors.height@.len() == 2
    &&& anchors.proportions@.len() == 2
    &&& anchors.cupsize@.len() == 3
    &&& anchors.firmness@.len() == 3
    &&& crate::utils::interpolation_laws::ascends(value, anchors.gender@)
    &&& crate::utils::interpolation_laws::ascends(value, anchors.age@)
    &&& crate::utils::interpolation_laws::ascends(value, anchors.muscle@)
    &&& crate::utils::interpolation_laws::ascends(value, anchors.weight@)
    &&& crate::utils::interpolation_laws::ascends(value, anchors.height@)
    &&& crate::utils::interpolation_laws::ascends(value, anchors.proportions@)
    &&& crate::utils::interpolation_laws::ascends(value, anchors.cupsize@)
    &&& crate::utils::interpolation_laws::ascends(value, anchors.firmness@)
}

/// Counts are the numbers they stand for.
pub open spec fn counts_exactly<T, O: crate::phenotype::rows::CountOps<T>>(
    ops: &O,
    value: spec_fn(T) -> real,
) -> bool {
    forall|n: usize, x: T| #[trigger] call_ensures(O::number, (ops, n), x) ==> value(x) == n as real
}

/// `xs` are `n + 1` numbers that divide the way from `low` to `high` into `n`
/// equal parts.
pub open spec fn divide<T>(
    value: spec_fn(T) -> real,
    low: T,
    high: T,
    n: int,
    xs: Seq<T>,
) -> bool {
    &&& xs.len() == n + 1
    &&& forall|i: int|
        0 <= i <= n ==> (value(#[trigger] xs[i]) - value(low)) * n as real == (value(high) - value(
            low,
        )) * i as real
}

proof fn lemma_divide<T, O: crate::phenotype::rows::CountOps<T>>(
    ops: &O,
    low: T,
    high: T,
    n: int,
    xs: Seq<T>,
    value: spec_fn(T) -> real,
)
    requires
        crate::scalar::is_exact(ops, value),
        crate::scalar::divides_exactly(ops, value),
        counts_exactly(ops, value),
        1 <= n < 10,
        crate::phenotype::rows::are_even(ops, low, high, n + 1, xs),
    ensures
        divide(value, low, high, n, xs),
{
    let step = choose|step: T| #[trigger]
        crate::phenotype::rows::is_anchor_step(ops, low, high, n as usize, step) && forall|i: int|
            0 <= i < n + 1 ==> crate::phenotype::rows::is_anchor(
                ops,
                low,
                step,
                i as usize,
                #[trigger] xs[i],
            );
    let s = value(step);
    let range = value(high) - value(low);
    let m = n as real;
    assert(s == range / m);
    assert(s * m == range) by (nonlinear_arith)
        requires
            s == range / m,
            m != 0 as real,
    ;
    assert forall|i: int| 0 <= i <= n implies (value(#[trigger] xs[i]) - value(low)) * n as real
        == (value(high) - value(low)) * i as real by {
        assert(crate::phenotype::rows::is_anchor(ops, low, step, i as usize, xs[i]));
        let k = i as real;
        let x = value(xs[i]) - value(low);
        assert(x == s * k);
        assert(x * m == range * k) by (nonlinear_arith)
            requires
                x == s * k,
                s * m == range,
        ;
    }
}

/// In exact arithmetic the anchors that are built go in even steps from 0 to 1,
/// those of the age from the youngest to 1: as many as each feature has labels.
pub proof fn law_anchors_are_even<T: Copy, O: crate::phenotype::rows::CountOps<T>>(
    ops: &O,
    youngest: T,
    zero: T,
    one: T,
    anchors: PhenotypeAnchors<T>,
    value: spec_fn(T) -> real,
)
    requires
        crate::scalar::is_exact(ops, value),
        crate::scalar::divides_exactly(ops, value),
        counts_exactly(ops, value),
        call_ensures(
            PhenotypeAnchors::<T>::build::<O>,
            (youngest, zero, one, ops),
            anchors,
        ),
    ensures
        divide(value, zero, one, 1, anchors.gender@),
        divide(value, youngest, one, 4, anchors.age@),
        divide(value, zero, one, 2, anchors.muscle@),
        divide(value, zero, one, 2, anchors.weight@),
        divide(value, zero, one, 1, anchors.height@),
        divide(value, zero, one, 1, anchors.proportions@),
        divide(value, zero, one, 2, anchors.cupsize@),
        divide(value, zero, one, 2, anchors.firmness@),
{
    lemma_divide(ops, zero, one, 1, anchors.gender@, value);
    lemma_divide(ops, youngest, one, 4, anchors.age@, value);
    lemma_divide(ops, zero, one, 2, anchors.muscle@, value);
    lemma_divide(ops, zero, one, 2, anchors.weight@, value);
    lemma_divide(ops, zero, one, 1, anchors.height@, value);
    lemma_divide(ops, zero, one, 1, anchors.proportions@, value);
    lemma_divide(ops, zero, one, 2, anchors.cupsize@, value);
    lemma_divide(ops, zero, one, 2, anchors.firmness@, value);
}

/// The columns of a coefficient row, by their labels.
pub proof fn law_columns_are_labelled()
    ensures
        crate::phenotype::variation_labels() == seq![
            "african"@,
            "asian"@,
            "caucasian"@,
            "male"@,
            "female"@,
            "newborn"@,
            "baby"@,
            "child"@,
            "young"@,
            "old"@,
            "minmuscle"@,
            "averagemuscle"@,
            "maxmuscle"@,
            "minweight"@,
            "averageweight"@,
            "maxweight"@,
            "minheight"@,
            "maxheight"@,
            "idealproportions"@,
            "uncommonproportions"@,
            "mincup"@,
            "averagecup"@,
            "maxcup"@,
            "minfirmness"@,
            "averagefirmness"@,
            "maxfirmness"@,
        ],
{
    assert(crate::phenotype::variation_labels() =~= seq![
        "african"@,
        "asian"@,
        "caucasian"@,
        "male"@,
        "female"@,
        "newborn"@,
        "baby"@,
        "child"@,
        "young"@,
        "old"@,
        "minmuscle"@,
        "averagemuscle"@,
        "maxmuscle"@,
        "minweight"@,
        "averageweight"@,
        "maxweight"@,
        "minheight"@,
        "maxheight"@,
        "idealproportions"@,
        "uncommonproportions"@,
        "mincup"@,
        "averagecup"@,
        "maxcup"@,
        "minfirmness"@,
        "averagefirmness"@,
        "maxfirmness"@,
    ]);
}

pub proof fn lemma_two_terms(f: spec_fn(int) -> real, end: int, n: nat)
    requires
        1 <= end,
        forall|k: int| 0 <= k < n && k != end - 1 && k != end ==> #[trigger] f(k) == 0 as real,
    ensures
        crate::utils::sums::sum(f, n) == (if end - 1 < n {
            f(end - 1)
        } else {
            0 as real
        }) + (if end < n {
            f(end)
        } else {
            0 as real
        }),
    decreases n,
{
    if n > 0 {
        lemma_two_terms(f, end, (n - 1) as nat);
        if n - 1 != end && n - 1 != end - 1 {
            assert(f(n - 1) == 0 as real);
        }
    }
}

/// The upper weight of a segment.
pub open spec fn upper_share(extrapolate: bool, v: real, lo: real, hi: real) -> real {
    bounded(extrapolate, (v - lo) / (hi - lo), 0 as real, 1 as real)
}

pub proof fn lemma_way(v: real, lo: real, hi: real)
    requires
        lo < hi,
    ensures
        ({
            let a = (v - lo) / (hi - lo);
            &&& lo + a * (hi - lo) == v
            &&& v < lo <==> a < 0 as real
            &&& v > hi <==> a > 1 as real
        }),
{
    let d = hi - lo;
    let a = (v - lo) / d;
    assert(a * d == v - lo) by (nonlinear_arith)
        requires
            a == (v - lo) / d,
            d > 0 as real,
    ;
    assert(a < 0 as real <==> a * d < 0 as real) by (nonlinear_arith)
        requires
            d > 0 as real,
    ;
    assert(a > 1 as real <==> a * d > d) by (nonlinear_arith)
        requires
            d > 0 as real,
    ;
}

/// The weights of a row: two neighbours, the upper with its share and the
/// lower with the rest.
pub proof fn lemma_weights<T, O: Division<T> + Bounds<T>>(
    ops: &O,
    extrapolate: bool,
    zero: T,
    one: T,
    anchors: Seq<T>,
    v: T,
    row: Seq<T>,
    value: spec_fn(T) -> real,
) -> (end: int)
    requires
        crate::utils::interpolation_laws::interpolates_exactly(ops, zero, one, value),
        anchors.len() >= 2,
        crate::utils::interpolation_laws::ascends(value, anchors),
        crate::utils::interpolation::is_weight_row(
            ops,
            extrapolate,
            zero,
            one,
            anchors,
            v,
            row,
        ),
    ensures
        crate::utils::interpolation_laws::in_segment(value, anchors, v, end),
        row.len() == anchors.len(),
        value(row[end]) == upper_share(
            extrapolate,
            value(v),
            value(anchors[end - 1]),
            value(anchors[end]),
        ),
        value(row[end - 1]) == 1 as real - value(row[end]),
        forall|k: int|
            0 <= k < row.len() && k != end - 1 && k != end ==> value(#[trigger] row[k])
                == 0 as real,
{
    let (below, pair) = choose|below: int, pair: (T, T)|
        {
            let end = crate::utils::interpolation::segment_end(below, anchors.len() as int);
            &&& #[trigger] crate::utils::interpolation::splits_at(ops, anchors, v, below)
            &&& #[trigger] crate::utils::interpolation::are_segment_weights(
                ops,
                extrapolate,
                zero,
                one,
                anchors,
                v,
                below,
                pair,
            )
            &&& row == Seq::new(
                anchors.len(),
                |k: int|
                    if k == end - 1 {
                        pair.0
                    } else if k == end {
                        pair.1
                    } else {
                        zero
                    },
            )
        };
    let end = crate::utils::interpolation::segment_end(below, anchors.len() as int);
    let (lower, upper) = (anchors[end - 1], anchors[end]);
    if end > 1 {
        assert(value(anchors[below - 1]) < value(v));
    }
    if end < anchors.len() - 1 {
        assert(value(v) <= value(anchors[below]));
    }
    assert(value(lower) < value(upper));
    let a = choose|a: T|
        {
            &&& #[trigger] crate::utils::interpolation::is_fraction(ops, v, lower, upper, a)
            &&& if extrapolate {
                pair.1 == a
            } else {
                crate::utils::bounds::is_clamped(ops, a, zero, one, pair.1)
            }
            &&& crate::scalar::difference_of(ops, one, pair.1, pair.0)
        };
    assert(value(a) == (value(v) - value(lower)) / (value(upper) - value(lower)));
    if !extrapolate {
        crate::utils::bounds::law_clamped(ops, a, zero, one, pair.1, value);
    }
    end
}

/// In exact arithmetic the weights of a value sum to one, mix the anchors into
/// the value, and fall on two neighbours.
proof fn lemma_says<T, O: Division<T> + Bounds<T>>(
    ops: &O,
    extrapolate: bool,
    zero: T,
    one: T,
    anchors: Seq<T>,
    v: T,
    part: Seq<T>,
    row: Seq<T>,
    from: int,
    labels: Seq<Seq<char>>,
    value: spec_fn(T) -> real,
)
    requires
        crate::utils::interpolation_laws::interpolates_exactly(ops, zero, one, value),
        anchors.len() >= 2,
        anchors.len() == labels.len(),
        crate::utils::interpolation_laws::ascends(value, anchors),
        crate::utils::interpolation::is_weight_row(
            ops,
            extrapolate,
            zero,
            one,
            anchors,
            v,
            part,
        ),
        0 <= from <= from + labels.len() <= row.len(),
        row.len() == crate::phenotype::variation_labels().len(),
        forall|k: int| 0 <= k < labels.len() ==> row[from + k] == #[trigger] part[k],
        forall|k: int|
            0 <= k < labels.len() ==> #[trigger] labels[k]
                == crate::phenotype::variation_labels()[from + k],
    ensures
        says(extrapolate, value, row, from, labels, anchors, v),
{
    let n = labels.len();
    let end = lemma_weights(ops, extrapolate, zero, one, anchors, v, part, value);
    let (lo, hi) = (value(anchors[end - 1]), value(anchors[end]));
    let weight = |k: int| value(row[from + k]);
    let term = |k: int| value(row[from + k]) * value(anchors[k]);
    assert forall|k: int| 0 <= k < n && k != end - 1 && k != end implies #[trigger] weight(k)
        == 0 as real by {
        assert(part[k] == row[from + k]);
    }
    assert forall|k: int| 0 <= k < n && k != end - 1 && k != end implies #[trigger] term(k)
        == 0 as real by {
        assert(part[k] == row[from + k]);
        let x = value(anchors[k]);
        assert((0 as real) * x == 0 as real) by (nonlinear_arith);
    }
    lemma_two_terms(weight, end, n);
    lemma_two_terms(term, end, n);
    assert(row[from + end] == part[end] && row[from + (end - 1)] == part[end - 1]);
    let s = value(part[end]);
    assert(lo < hi);
    lemma_way(value(v), lo, hi);
    let a = (value(v) - lo) / (hi - lo);
    assert((1 as real - s) * lo + s * hi == lo + s * (hi - lo)) by (nonlinear_arith);
    assert((0 as real) * (hi - lo) == 0 as real) by (nonlinear_arith);
    assert(value(anchors[0]) <= lo);
    assert(hi <= value(anchors.last()));
    let d = hi - lo;
    assert((1 as real) * d == d) by (nonlinear_arith);
    if !extrapolate && value(v) < lo {
        assert(end == 1);
        assert(s == 0 as real);
    }
    if !extrapolate && value(v) > hi {
        assert(end == anchors.len() - 1);
        assert(s == 1 as real);
    }
    assert(lo + s * (hi - lo) == bounded(
        extrapolate,
        value(v),
        value(anchors[0]),
        value(anchors.last()),
    ));
    assert(term(end - 1) == (1 as real - s) * lo);
    assert(term(end) == s * hi);
    assert forall|i: int, j: int| 0 <= i && i + 1 < j < labels.len() implies value(
        #[trigger] row[from + i],
    ) == 0 as real || value(#[trigger] row[from + j]) == 0 as real by {
        assert(row[from + i] == part[i] && row[from + j] == part[j]);
    }
    if !extrapolate {
        assert forall|k: int| 0 <= k < labels.len() implies value(#[trigger] row[from + k])
            >= 0 as real by {
            assert(row[from + k] == part[k]);
        }
    }
}

/// The parts of a row: the shares of the races, then the weights of each feature.
#[verifier::rlimit(40)]
proof fn lemma_layout<T: Copy, O: Division<T> + Bounds<T>>(
    ops: &O,
    extrapolate: bool,
    third: T,
    zero: T,
    one: T,
    values: PhenotypeValues<Vec<T>>,
    anchors: PhenotypeAnchors<T>,
    rows: Seq<Vec<T>>,
    b: int,
    value: spec_fn(T) -> real,
)
    requires
        are_labelled(value, anchors),
        crate::phenotype::rows::are_phenotype_rows(
            ops,
            extrapolate,
            third,
            zero,
            one,
            values,
            anchors,
            rows,
        ),
        0 <= b < rows.len(),
    ensures
        rows[b]@.len() == 26,
        crate::phenotype::rows::is_race_row(
            ops,
            third,
            given(values.african@, b),
            given(values.asian@, b),
            given(values.caucasian@, b),
            rows[b]@.subrange(0, 3),
        ),
        is_part(ops, extrapolate, zero, one, anchors.gender, values.gender, rows[b], 3, b),
        is_part(ops, extrapolate, zero, one, anchors.age, values.age, rows[b], 5, b),
        is_part(ops, extrapolate, zero, one, anchors.muscle, values.muscle, rows[b], 10, b),
        is_part(ops, extrapolate, zero, one, anchors.weight, values.weight, rows[b], 13, b),
        is_part(ops, extrapolate, zero, one, anchors.height, values.height, rows[b], 16, b),
        is_part(
            ops,
            extrapolate,
            zero,
            one,
            anchors.proportions,
            values.proportions,
            rows[b],
            18,
            b,
        ),
        is_part(ops, extrapolate, zero, one, anchors.cupsize, values.cupsize, rows[b], 20, b),
        is_part(ops, extrapolate, zero, one, anchors.firmness, values.firmness, rows[b], 23, b),
{
    let parts = choose|parts: Seq<Seq<Vec<T>>>| #[trigger]
        crate::phenotype::rows::are_parts(
            ops,
            extrapolate,
            third,
            zero,
            one,
            values,
            anchors,
            rows.len() as int,
            parts,
        ) && forall|b: int|
            0 <= b < rows.len() ==> (#[trigger] rows[b])@ == crate::phenotype::stacked(parts, b, 9);
    let all = crate::phenotype::rows::anchored(values, anchors);
    let serving = crate::phenotype::rows::serving(values);
    assert(rows[b]@ == crate::phenotype::stacked(parts, b, 9));
    reveal_with_fuel(crate::phenotype::stacked, 10);
    let e = |f: int| crate::phenotype::element(parts[f], b)@;
    assert forall|f: int| 0 <= f < 8 implies crate::utils::interpolation::is_weight_row(
        ops,
        extrapolate,
        zero,
        one,
        (#[trigger] all[f]).1@,
        given(all[f].0@, b),
        e(f + 1),
    ) by {
        let list = parts[f + 1];
        assert(crate::phenotype::rows::are_weight_rows(ops, extrapolate, zero, one, all[f], list));
        assert(!crate::phenotype::rows::misfits(serving[f + 3], rows.len()));
        let at: int = if list.len() == 1 {
            0
        } else {
            b
        };
        assert(crate::utils::interpolation::is_weight_row(
            ops,
            extrapolate,
            zero,
            one,
            all[f].1@,
            all[f].0@[at],
            list[at]@,
        ));
    }
    assert(all[0] == (values.gender, anchors.gender) && all[1] == (values.age, anchors.age));
    assert(all[2] == (values.muscle, anchors.muscle) && all[3] == (values.weight, anchors.weight));
    assert(all[4] == (values.height, anchors.height));
    assert(all[5] == (values.proportions, anchors.proportions));
    assert(all[6] == (values.cupsize, anchors.cupsize));
    assert(all[7] == (values.firmness, anchors.firmness));
    assert(crate::phenotype::rows::is_race_row(
        ops,
        third,
        given(values.african@, b),
        given(values.asian@, b),
        given(values.caucasian@, b),
        parts[0][b]@,
    ));
    assert(e(0).len() == 3);
    let row = rows[b]@;
    assert(row == e(0) + e(1) + e(2) + e(3) + e(4) + e(5) + e(6) + e(7) + e(8)) by {
        assert(Seq::<T>::empty() + e(0) =~= e(0));
    }
    assert(row.subrange(0, 3) =~= e(0));
    assert(row.subrange(3, 5) =~= e(1));
    assert(row.subrange(5, 10) =~= e(2));
    assert(row.subrange(10, 13) =~= e(3));
    assert(row.subrange(13, 16) =~= e(4));
    assert(row.subrange(16, 18) =~= e(5));
    assert(row.subrange(18, 20) =~= e(6));
    assert(row.subrange(20, 23) =~= e(7));
    assert(row.subrange(23, 26) =~= e(8));
}

/// The columns from `from` on are the weights of the value of element `b`.
spec fn is_part<T, O: Division<T> + Bounds<T>>(
    ops: &O,
    extrapolate: bool,
    zero: T,
    one: T,
    anchors: Vec<T>,
    values: Vec<T>,
    row: Vec<T>,
    from: int,
    b: int,
) -> bool {
    crate::utils::interpolation::is_weight_row(
        ops,
        extrapolate,
        zero,
        one,
        anchors@,
        given(values@, b),
        row@.subrange(from, from + anchors@.len()),
    )
}

/// The columns under the labels of each feature say the value given for that feature.
pub open spec fn says_all<T>(
    extrapolate: bool,
    value: spec_fn(T) -> real,
    row: Seq<T>,
    anchors: PhenotypeAnchors<T>,
    values: PhenotypeValues<Vec<T>>,
    b: int,
) -> bool {
    &&& says(
        extrapolate,
        value,
        row,
        3,
        seq!["male"@, "female"@],
        anchors.gender@,
        given(values.gender@, b),
    )
    &&& says(
        extrapolate,
        value,
        row,
        5,
        seq!["newborn"@, "baby"@, "child"@, "young"@, "old"@],
        anchors.age@,
        given(values.age@, b),
    )
    &&& says(
        extrapolate,
        value,
        row,
        10,
        seq!["minmuscle"@, "averagemuscle"@, "maxmuscle"@],
        anchors.muscle@,
        given(values.muscle@, b),
    )
    &&& says(
        extrapolate,
        value,
        row,
        13,
        seq!["minweight"@, "averageweight"@, "maxweight"@],
        anchors.weight@,
        given(values.weight@, b),
    )
    &&& says(
        extrapolate,
        value,
        row,
        16,
        seq!["minheight"@, "maxheight"@],
        anchors.height@,
        given(values.height@, b),
    )
    &&& says(
        extrapolate,
        value,
        row,
        18,
        seq!["idealproportions"@, "uncommonproportions"@],
        anchors.proportions@,
        given(values.proportions@, b),
    )
    &&& says(
        extrapolate,
        value,
        row,
        20,
        seq!["mincup"@, "averagecup"@, "maxcup"@],
        anchors.cupsize@,
        given(values.cupsize@, b),
    )
    &&& says(
        extrapolate,
        value,
        row,
        23,
        seq!["minfirmness"@, "averagefirmness"@, "maxfirmness"@],
        anchors.firmness@,
        given(values.firmness@, b),
    )
}

/// The columns say the values given for the features.
#[verifier::rlimit(40)]
pub proof fn lemma_columns_say<T: Copy, O: Division<T> + Bounds<T>>(
    ops: &O,
    extrapolate: bool,
    third: T,
    zero: T,
    one: T,
    values: PhenotypeValues<Vec<T>>,
    anchors: PhenotypeAnchors<T>,
    rows: Seq<Vec<T>>,
    b: int,
    value: spec_fn(T) -> real,
)
    requires
        crate::utils::interpolation_laws::interpolates_exactly(ops, zero, one, value),
        are_labelled(value, anchors),
        crate::phenotype::rows::are_phenotype_rows(
            ops,
            extrapolate,
            third,
            zero,
            one,
            values,
            anchors,
            rows,
        ),
        0 <= b < rows.len(),
    ensures
        says_all(extrapolate, value, rows[b]@, anchors, values, b),
        rows[b]@.len() == 26,
{
    lemma_layout(ops, extrapolate, third, zero, one, values, anchors, rows, b, value);
    law_columns_are_labelled();
    lemma_feature(
        ops,
        extrapolate,
        zero,
        one,
        anchors.gender,
        values.gender,
        rows[b],
        3,
        b,
        seq!["male"@, "female"@],
        value,
    );
    lemma_feature(
        ops,
        extrapolate,
        zero,
        one,
        anchors.age,
        values.age,
        rows[b],
        5,
        b,
        seq!["newborn"@, "baby"@, "child"@, "young"@, "old"@],
        value,
    );
    lemma_feature(
        ops,
        extrapolate,
        zero,
        one,
        anchors.muscle,
        values.muscle,
        rows[b],
        10,
        b,
        seq!["minmuscle"@, "averagemuscle"@, "maxmuscle"@],
        value,
    );
    lemma_feature(
        ops,
        extrapolate,
        zero,
        one,
        anchors.weight,
        values.weight,
        rows[b],
        13,
        b,
        seq!["minweight"@, "averageweight"@, "maxweight"@],
        value,
    );
    lemma_feature(
        ops,
        extrapolate,
        zero,
        one,
        anchors.height,
        values.height,
        rows[b],
        16,
        b,
        seq!["minheight"@, "maxheight"@],
        value,
    );
    lemma_feature(
        ops,
        extrapolate,
        zero,
        one,
        anchors.proportions,
        values.proportions,
        rows[b],
        18,
        b,
        seq!["idealproportions"@, "uncommonproportions"@],
        value,
    );
    lemma_feature(
        ops,
        extrapolate,
        zero,
        one,
        anchors.cupsize,
        values.cupsize,
        rows[b],
        20,
        b,
        seq!["mincup"@, "averagecup"@, "maxcup"@],
        value,
    );
    lemma_feature(
        ops,
        extrapolate,
        zero,
        one,
        anchors.firmness,
        values.firmness,
        rows[b],
        23,
        b,
        seq!["minfirmness"@, "averagefirmness"@, "maxfirmness"@],
        value,
    );
}

/// In exact arithmetic the columns under the labels of a feature say the value
/// that is given for that feature, for each of the features.
pub proof fn law_columns_say_features<T: Copy, O: Division<T> + Bounds<T>>(
    ops: &O,
    extrapolate: bool,
    third: T,
    zero: T,
    one: T,
    values: PhenotypeValues<Vec<T>>,
    anchors: PhenotypeAnchors<T>,
    rows: Vec<Vec<T>>,
    b: int,
    value: spec_fn(T) -> real,
)
    requires
        crate::utils::interpolation_laws::interpolates_exactly(ops, zero, one, value),
        are_labelled(value, anchors),
        call_ensures(
            crate::phenotype::rows::phenotype_rows::<T, O>,
            (&values, &anchors, extrapolate, zero, one, ops, third),
            Ok(rows),
        ),
        0 <= b < rows@.len(),
    ensures
        says(
            extrapolate,
            value,
            rows@[b]@,
            3,
            seq!["male"@, "female"@],
            anchors.gender@,
            given(values.gender@, b),
        ),
        says(
            extrapolate,
            value,
            rows@[b]@,
            5,
            seq!["newborn"@, "baby"@, "child"@, "young"@, "old"@],
            anchors.age@,
            given(values.age@, b),
        ),
        says(
            extrapolate,
            value,
            rows@[b]@,
            10,
            seq!["minmuscle"@, "averagemuscle"@, "maxmuscle"@],
            anchors.muscle@,
            given(values.muscle@, b),
        ),
        says(
            extrapolate,
            value,
            rows@[b]@,
            13,
            seq!["minweight"@, "averageweight"@, "maxweight"@],
            anchors.weight@,
            given(values.weight@, b),
        ),
        says(
            extrapolate,
            value,
            rows@[b]@,
            16,
            seq!["minheight"@, "maxheight"@],
            anchors.height@,
            given(values.height@, b),
        ),
        says(
            extrapolate,
            value,
            rows@[b]@,
            18,
            seq!["idealproportions"@, "uncommonproportions"@],
            anchors.proportions@,
            given(values.proportions@, b),
        ),
        says(
            extrapolate,
            value,
            rows@[b]@,
            20,
            seq!["mincup"@, "averagecup"@, "maxcup"@],
            anchors.cupsize@,
            given(values.cupsize@, b),
        ),
        says(
            extrapolate,
            value,
            rows@[b]@,
            23,
            seq!["minfirmness"@, "averagefirmness"@, "maxfirmness"@],
            anchors.firmness@,
            given(values.firmness@, b),
        ),
{
    lemma_columns_say(ops, extrapolate, third, zero, one, values, anchors, rows@, b, value);
}

proof fn lemma_feature<T, O: Division<T> + Bounds<T>>(
    ops: &O,
    extrapolate: bool,
    zero: T,
    one: T,
    anchors: Vec<T>,
    values: Vec<T>,
    row: Vec<T>,
    from: int,
    b: int,
    labels: Seq<Seq<char>>,
    value: spec_fn(T) -> real,
)
    requires
        crate::utils::interpolation_laws::interpolates_exactly(ops, zero, one, value),
        labels.len() == anchors@.len() >= 2,
        crate::utils::interpolation_laws::ascends(value, anchors@),
        is_part(ops, extrapolate, zero, one, anchors, values, row, from, b),
        0 <= from <= from + labels.len() <= row@.len(),
        row@.len() == crate::phenotype::variation_labels().len(),
        forall|k: int|
            0 <= k < labels.len() ==> #[trigger] labels[k]
                == crate::phenotype::variation_labels()[from + k],
    ensures
        says(extrapolate, value, row@, from, labels, anchors@, given(values@, b)),
{
    lemma_says(
        ops,
        extrapolate,
        zero,
        one,
        anchors@,
        given(values@, b),
        row@.subrange(from, from + anchors@.len()),
        row@,
        from,
        labels,
        value,
    );
}

/// In exact arithmetic a column is decided by the value of its own feature alone:
/// in two batches in which that value is the same, the columns under the labels
/// of the feature are the same, whatever the other features are.
pub proof fn law_columns_are_independent<T: Copy, O: Division<T> + Bounds<T>>(
    ops: &O,
    extrapolate: bool,
    third: T,
    zero: T,
    one: T,
    values: PhenotypeValues<Vec<T>>,
    others: PhenotypeValues<Vec<T>>,
    anchors: PhenotypeAnchors<T>,
    rows: Vec<Vec<T>>,
    columns: Vec<Vec<T>>,
    b: int,
    c: int,
    value: spec_fn(T) -> real,
)
    requires
        crate::utils::interpolation_laws::interpolates_exactly(ops, zero, one, value),
        are_labelled(value, anchors),
        call_ensures(
            crate::phenotype::rows::phenotype_rows::<T, O>,
            (&values, &anchors, extrapolate, zero, one, ops, third),
            Ok(rows),
        ),
        call_ensures(
            crate::phenotype::rows::phenotype_rows::<T, O>,
            (&others, &anchors, extrapolate, zero, one, ops, third),
            Ok(columns),
        ),
        0 <= b < rows@.len(),
        0 <= c < columns@.len(),
    ensures
        given(values.gender@, b) == given(others.gender@, c) ==> agree(
            value,
            rows@[b]@,
            columns@[c]@,
            3,
            5,
        ),
        given(values.age@, b) == given(others.age@, c) ==> agree(
            value,
            rows@[b]@,
            columns@[c]@,
            5,
            10,
        ),
        given(values.muscle@, b) == given(others.muscle@, c) ==> agree(
            value,
            rows@[b]@,
            columns@[c]@,
            10,
            13,
        ),
        given(values.weight@, b) == given(others.weight@, c) ==> agree(
            value,
            rows@[b]@,
            columns@[c]@,
            13,
            16,
        ),
        given(values.height@, b) == given(others.height@, c) ==> agree(
            value,
            rows@[b]@,
            columns@[c]@,
            16,
            18,
        ),
        given(values.proportions@, b) == given(others.proportions@, c) ==> agree(
            value,
            rows@[b]@,
            columns@[c]@,
            18,
            20,
        ),
        given(values.cupsize@, b) == given(others.cupsize@, c) ==> agree(
            value,
            rows@[b]@,
            columns@[c]@,
            20,
            23,
        ),
        given(values.firmness@, b) == given(others.firmness@, c) ==> agree(
            value,
            rows@[b]@,
            columns@[c]@,
            23,
            26,
        ),
{
    lemma_layout(ops, extrapolate, third, zero, one, values, anchors, rows@, b, value);
    lemma_layout(ops, extrapolate, third, zero, one, others, anchors, columns@, c, value);
    let (r, s) = (rows@[b], columns@[c]);
    lemma_agree(ops, extrapolate, zero, one, anchors.gender, values.gender, others.gender, r, s, 3, b, c, value);
    lemma_agree(ops, extrapolate, zero, one, anchors.age, values.age, others.age, r, s, 5, b, c, value);
    lemma_agree(ops, extrapolate, zero, one, anchors.muscle, values.muscle, others.muscle, r, s, 10, b, c, value);
    lemma_agree(ops, extrapolate, zero, one, anchors.weight, values.weight, others.weight, r, s, 13, b, c, value);
    lemma_agree(ops, extrapolate, zero, one, anchors.height, values.height, others.height, r, s, 16, b, c, value);
    lemma_agree(ops, extrapolate, zero, one, anchors.proportions, values.proportions, others.proportions, r, s, 18, b, c, value);
    lemma_agree(ops, extrapolate, zero, one, anchors.cupsize, values.cupsize, others.cupsize, r, s, 20, b, c, value);
    lemma_agree(ops, extrapolate, zero, one, anchors.firmness, values.firmness, others.firmness, r, s, 23, b, c, value);
}

/// Two rows have the same values in the columns from `from` to `to`.
pub open spec fn agree<T>(
    value: spec_fn(T) -> real,
    r: Seq<T>,
    s: Seq<T>,
    from: int,
    to: int,
) -> bool {
    forall|k: int| from <= k < to ==> value(#[trigger] r[k]) == value(s[k])
}

proof fn lemma_agree<T, O: Division<T> + Bounds<T>>(
    ops: &O,
    extrapolate: bool,
    zero: T,
    one: T,
    anchors: Vec<T>,
    values: Vec<T>,
    others: Vec<T>,
    r: Vec<T>,
    s: Vec<T>,
    from: int,
    b: int,
    c: int,
    value: spec_fn(T) -> real,
)
    requires
        crate::utils::interpolation_laws::interpolates_exactly(ops, zero, one, value),
        anchors@.len() >= 2,
        crate::utils::interpolation_laws::ascends(value, anchors@),
        is_part(ops, extrapolate, zero, one, anchors, values, r, from, b),
        is_part(ops, extrapolate, zero, one, anchors, others, s, from, c),
        0 <= from <= from + anchors@.len() <= r@.len(),
        r@.len() == s@.len(),
    ensures
        given(values@, b) == given(others@, c) ==> agree(
            value,
            r@,
            s@,
            from,
            from + anchors@.len(),
        ),
{
    if given(values@, b) == given(others@, c) {
        let v = given(values@, b);
        let (p, q) = (
            r@.subrange(from, from + anchors@.len()),
            s@.subrange(from, from + anchors@.len()),
        );
        let end = lemma_weights(ops, extrapolate, zero, one, anchors@, v, p, value);
        let other = lemma_weights(ops, extrapolate, zero, one, anchors@, v, q, value);
        if end < other {
            assert(value(anchors@[end]) <= value(anchors@[other - 1]));
        }
        if other < end {
            assert(value(anchors@[other]) <= value(anchors@[end - 1]));
        }
        assert forall|k: int| from <= k < from + anchors@.len() implies value(#[trigger] r@[k])
            == value(s@[k]) by {
            assert(r@[k] == p[k - from] && s@[k] == q[k - from]);
        }
    }
}

/// In exact arithmetic the columns under the races are in the ratio of the values
/// given for them: each, times the sum of all three, is the value given for the
/// race of its label.
pub proof fn law_columns_say_races<T: Copy, O: Division<T> + Bounds<T>>(
    ops: &O,
    extrapolate: bool,
    third: T,
    zero: T,
    one: T,
    values: PhenotypeValues<Vec<T>>,
    anchors: PhenotypeAnchors<T>,
    rows: Vec<Vec<T>>,
    b: int,
    value: spec_fn(T) -> real,
)
    requires
        crate::utils::interpolation_laws::interpolates_exactly(ops, zero, one, value),
        crate::phenotype::rows::quotients_are_told(ops, value),
        are_labelled(value, anchors),
        call_ensures(
            crate::phenotype::rows::phenotype_rows::<T, O>,
            (&values, &anchors, extrapolate, zero, one, ops, third),
            Ok(rows),
        ),
        0 <= b < rows@.len(),
    ensures
        crate::phenotype::variation_labels()[0] == "african"@,
        crate::phenotype::variation_labels()[1] == "asian"@,
        crate::phenotype::variation_labels()[2] == "caucasian"@,
        ({
            let african = value(given(values.african@, b));
            let asian = value(given(values.asian@, b));
            let caucasian = value(given(values.caucasian@, b));
            let all = african + asian + caucasian;
            all != 0 as real ==> {
                &&& value(rows@[b]@[0]) * all == african
                &&& value(rows@[b]@[1]) * all == asian
                &&& value(rows@[b]@[2]) * all == caucasian
            }
        }),
{
    lemma_layout(ops, extrapolate, third, zero, one, values, anchors, rows@, b, value);
    law_columns_are_labelled();
    let (x, y, z) = (
        given(values.african@, b),
        given(values.asian@, b),
        given(values.caucasian@, b),
    );
    let row = rows@[b]@.subrange(0, 3);
    let (two, sum) = choose|two: T, sum: T|
        {
            &&& #[trigger] crate::scalar::sum_of(ops, x, y, two)
            &&& #[trigger] crate::scalar::sum_of(ops, two, z, sum)
            &&& row.len() == 3
            &&& crate::phenotype::rows::is_share(ops, third, x, sum, row[0])
            &&& crate::phenotype::rows::is_share(ops, third, y, sum, row[1])
            &&& crate::phenotype::rows::is_share(ops, third, z, sum, row[2])
        };
    let s = value(sum);
    if s != 0 as real {
        lemma_share(value(x), s);
        lemma_share(value(y), s);
        lemma_share(value(z), s);
    }
    assert(row[0] == rows@[b]@[0] && row[1] == rows@[b]@[1] && row[2] == rows@[b]@[2]);
}

/// A list serves a batch.
pub open spec fn serves<T>(values: Vec<T>, batch: int) -> bool {
    values@.len() == 1 || values@.len() == batch
}

/// The rows are as many as the longest list of a feature has values. They come
/// exactly where every list has one value or as many as the longest; else the
/// length of a list that has neither is told.
pub proof fn law_batch<T: Copy, O: Division<T> + Bounds<T>>(
    ops: &O,
    extrapolate: bool,
    third: T,
    zero: T,
    one: T,
    values: PhenotypeValues<Vec<T>>,
    anchors: PhenotypeAnchors<T>,
    r: Result<Vec<Vec<T>>, crate::phenotype::BatchMismatch>,
)
    requires
        call_ensures(
            crate::phenotype::rows::phenotype_rows::<T, O>,
            (&values, &anchors, extrapolate, zero, one, ops, third),
            r,
        ),
    ensures
        ({
            let batch: int = match r {
                Ok(rows) => rows@.len() as int,
                Err(e) => e.batch as int,
            };
            let fits = {
                &&& serves(values.african, batch)
                &&& serves(values.asian, batch)
                &&& serves(values.caucasian, batch)
                &&& serves(values.gender, batch)
                &&& serves(values.age, batch)
                &&& serves(values.muscle, batch)
                &&& serves(values.weight, batch)
                &&& serves(values.height, batch)
                &&& serves(values.proportions, batch)
                &&& serves(values.cupsize, batch)
                &&& serves(values.firmness, batch)
            };
            &&& values.gender@.len() <= batch
            &&& values.age@.len() <= batch
            &&& values.muscle@.len() <= batch
            &&& values.weight@.len() <= batch
            &&& values.height@.len() <= batch
            &&& values.proportions@.len() <= batch
            &&& values.cupsize@.len() <= batch
            &&& values.firmness@.len() <= batch
            &&& {
                ||| values.gender@.len() == batch
                ||| values.age@.len() == batch
                ||| values.muscle@.len() == batch
                ||| values.weight@.len() == batch
                ||| values.height@.len() == batch
                ||| values.proportions@.len() == batch
                ||| values.cupsize@.len() == batch
                ||| values.firmness@.len() == batch
            }
            &&& r is Ok <==> fits
            &&& r matches Err(e) ==> e.len != 1 && e.len != batch && {
                ||| values.african@.len() == e.len
                ||| values.asian@.len() == e.len
                ||| values.caucasian@.len() == e.len
                ||| values.gender@.len() == e.len
                ||| values.age@.len() == e.len
                ||| values.muscle@.len() == e.len
                ||| values.weight@.len() == e.len
                ||| values.height@.len() == e.len
                ||| values.proportions@.len() == e.len
                ||| values.cupsize@.len() == e.len
                ||| values.firmness@.len() == e.len
            }
        }),
{
    let counts = crate::phenotype::rows::value_counts(values);
    let serving = crate::phenotype::rows::serving(values);
    assert(crate::phenotype::rows::rows_outcome(
        ops,
        extrapolate,
        third,
        zero,
        one,
        values,
        anchors,
        r,
    ));
    let batch: nat = match r {
        Ok(rows) => rows@.len(),
        Err(e) => e.batch as nat,
    };
    assert(crate::phenotype::rows::is_largest(counts, batch));
    let i = choose|i: int| 0 <= i < counts.len() && counts[i] == batch;
    assert(counts[i] == batch);
    assert(counts[0] == values.age@.len() && counts[1] == values.gender@.len());
    assert(counts[2] == values.muscle@.len() && counts[3] == values.weight@.len());
    assert(counts[4] == values.height@.len() && counts[5] == values.proportions@.len());
    assert(counts[6] == values.cupsize@.len() && counts[7] == values.firmness@.len());
    assert(serving[0] == values.african@.len() && serving[1] == values.asian@.len());
    assert(serving[2] == values.caucasian@.len() && serving[3] == values.gender@.len());
    assert(serving[4] == values.age@.len() && serving[5] == values.muscle@.len());
    assert(serving[6] == values.weight@.len() && serving[7] == values.height@.len());
    assert(serving[8] == values.proportions@.len() && serving[9] == values.cupsize@.len());
    assert(serving[10] == values.firmness@.len());
}

proof fn lemma_share(a: real, s: real)
    requires
        s != 0 as real,
    ensures
        (a / s) * s == a,
{
    assert((a / s) * s == a) by (nonlinear_arith)
        requires
            s != 0 as real,
    ;
}

} // verus!
