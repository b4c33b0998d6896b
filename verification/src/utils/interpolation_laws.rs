//! What linear interpolation comes to in exact arithmetic.
use vstd::prelude::*;

use crate::scalar::{Arithmetic, Bounds, Division};

verus! {

/// How far `v` is on the way from `lo` to `hi`.
pub open spec fn fraction(v: real, lo: real, hi: real) -> real {
    (v - lo) / (hi - lo)
}

/// In exact arithmetic the weights of the two anchors sum to one. Between the
/// anchors, or where the line goes on beyond them, the upper one has the
/// fraction of the way to it; else none of the weights is negative.
pub proof fn law_segment_weights<T, O: Division<T> + Bounds<T>>(
    ops: &O,
    extrapolate: bool,
    zero: T,
    one: T,
    v: T,
    lower: T,
    upper: T,
    pair: (T, T),
    value: spec_fn(T) -> real,
)
    requires
        crate::scalar::is_exact(ops, value),
        crate::scalar::compares(ops, value),
        crate::scalar::divides_exactly(ops, value),
        value(zero) == 0 as real,
        value(one) == 1 as real,
        value(lower) < value(upper),
        crate::utils::interpolation::is_split(
            ops,
            extrapolate,
            zero,
            one,
            v,
            lower,
            upper,
            pair,
        ),
    ensures
        value(pair.0) + value(pair.1) == 1 as real,
        extrapolate || value(lower) <= value(v) <= value(upper) ==> value(pair.1) == fraction(
            value(v),
            value(lower),
            value(upper),
        ),
        !extrapolate ==> value(pair.0) >= 0 as real && value(pair.1) >= 0 as real,
{
    let a = choose|a: T|
        {
            &&& #[trigger] crate::utils::interpolation::is_fraction(ops, v, lower, upper, a)
            &&& if extrapolate {
                pair.1 == a
            } else {
                crate::utils::bounds::is_clamped(ops, a, zero, one, pair.1)
            }
            &&& crate::scalar::difference_of(ops, one, pair.1, pair.0)
        };
    let (way, length) = choose|way: T, length: T|
        {
            &&& #[trigger] crate::scalar::difference_of(ops, v, lower, way)
            &&& #[trigger] crate::scalar::difference_of(ops, upper, lower, length)
            &&& crate::scalar::quotient_of(ops, way, length, a)
        };
    assert(value(a) == fraction(value(v), value(lower), value(upper)));
    if !extrapolate {
        crate::utils::bounds::law_clamped(ops, a, zero, one, pair.1, value);
        if value(lower) <= value(v) <= value(upper) {
            lemma_fraction(value(v), value(lower), value(upper));
            if value(v) == value(lower) {
                let d = value(upper) - value(lower);
                assert((0 as real) / d == 0 as real) by (nonlinear_arith)
                    requires
                        d > 0 as real,
                ;
            }
        }
    }
}

/// The values of the anchors grow.
pub open spec fn ascends<T>(value: spec_fn(T) -> real, anchors: Seq<T>) -> bool {
    forall|i: int, j: int|
        0 <= i < j < anchors.len() ==> value(#[trigger] anchors[i]) < value(#[trigger] anchors[j])
}

/// The weights of a row and the images of the anchors.
pub open spec fn image_terms<T>(row: Seq<T>, images: Seq<T>) -> Seq<(T, T)> {
    Seq::new(row.len(), |k: int| (row[k], images[k]))
}

/// A row with two weights, at `end - 1` and at `end`.
pub open spec fn two_weights<T>(n: nat, end: int, pair: (T, T), zero: T) -> Seq<T> {
    Seq::new(
        n,
        |k: int|
            if k == end - 1 {
                pair.0
            } else if k == end {
                pair.1
            } else {
                zero
            },
    )
}

proof fn lemma_none(x: real)
    ensures
        (0 as real) * x == 0 as real,
{
    assert((0 as real) * x == 0 as real) by (nonlinear_arith);
}

proof fn lemma_two_terms<T>(
    value: spec_fn(T) -> real,
    n: nat,
    end: int,
    pair: (T, T),
    zero: T,
    images: Seq<T>,
    m: nat,
)
    requires
        value(zero) == 0 as real,
        1 <= end < n,
        m <= n,
        images.len() == n,
    ensures
        crate::utils::blend::exact_sum(
            value,
            image_terms(two_weights(n, end, pair, zero), images).take(m as int),
        ) == (if end - 1 < m {
            value(pair.0) * value(images[end - 1])
        } else {
            0 as real
        }) + (if end < m {
            value(pair.1) * value(images[end])
        } else {
            0 as real
        }),
    decreases m,
{
    let all = image_terms(two_weights(n, end, pair, zero), images);
    let terms = all.take(m as int);
    if m > 0 {
        lemma_two_terms(value, n, end, pair, zero, images, (m - 1) as nat);
        assert(terms.drop_last() =~= all.take(m - 1));
        assert(terms.last() == all[m - 1]);
        lemma_none(value(images[m - 1]));
    }
}

/// What stands at the end of a row applied to images: the two images of the
/// segment, weighted.
proof fn lemma_image<T, O: Arithmetic<T>>(
    ops: &O,
    value: spec_fn(T) -> real,
    end: int,
    pair: (T, T),
    zero: T,
    row: Seq<T>,
    images: Seq<T>,
    r: T,
)
    requires
        crate::scalar::is_exact(ops, value),
        value(zero) == 0 as real,
        1 <= end < images.len(),
        row == two_weights(images.len(), end, pair, zero),
        crate::utils::blend::is_blend(ops, zero, image_terms(row, images), r),
    ensures
        value(r) == value(pair.0) * value(images[end - 1]) + value(pair.1) * value(images[end]),
{
    let terms = image_terms(row, images);
    crate::utils::blend::law_exact_blend(ops, zero, terms, r, value);
    lemma_two_terms(value, images.len(), end, pair, zero, images, images.len());
    assert(terms.take(images.len() as int) =~= terms);
}

/// The segment of a value: nothing below it but the first, nothing above it
/// but the last.
pub open spec fn in_segment<T>(
    value: spec_fn(T) -> real,
    anchors: Seq<T>,
    v: T,
    end: int,
) -> bool {
    &&& 1 <= end < anchors.len()
    &&& end > 1 ==> value(anchors[end - 1]) < value(v)
    &&& end < anchors.len() - 1 ==> value(v) <= value(anchors[end])
}

proof fn lemma_segment<T, O: Division<T> + Bounds<T>>(
    ops: &O,
    value: spec_fn(T) -> real,
    anchors: Seq<T>,
    v: T,
    below: int,
)
    requires
        crate::scalar::compares(ops, value),
        anchors.len() >= 2,
        ascends(value, anchors),
        crate::utils::interpolation::splits_at(ops, anchors, v, below),
    ensures
        in_segment(
            value,
            anchors,
            v,
            crate::utils::interpolation::segment_end(below, anchors.len() as int),
        ),
{
    let end = crate::utils::interpolation::segment_end(below, anchors.len() as int);
    if end > 1 {
        assert(value(anchors[below - 1]) < value(v));
    }
    if end < anchors.len() - 1 {
        assert(value(v) <= value(anchors[below]));
    }
}

/// `lo + a * (hi - lo)`.
pub open spec fn between(lo: real, hi: real, a: real) -> real {
    lo + a * (hi - lo)
}

proof fn lemma_between(lo: real, hi: real, a: real)
    ensures
        (1 as real - a) * lo + a * hi == between(lo, hi, a),
{
    assert((1 as real - a) * lo + a * hi == lo + a * (hi - lo)) by (nonlinear_arith);
}

proof fn lemma_fraction(v: real, lo: real, hi: real)
    requires
        lo < hi,
    ensures
        between(lo, hi, fraction(v, lo, hi)) == v,
        v > lo ==> fraction(v, lo, hi) > 0 as real,
        v <= hi ==> fraction(v, lo, hi) <= 1 as real,
{
    let a = fraction(v, lo, hi);
    let d = hi - lo;
    assert(a * d == v - lo) by (nonlinear_arith)
        requires
            a == (v - lo) / d,
            d > 0 as real,
    ;
    if v > lo {
        assert(a > 0 as real) by (nonlinear_arith)
            requires
                a * d == v - lo,
                d > 0 as real,
                v > lo,
        ;
    }
    if v <= hi {
        assert(a <= 1 as real) by (nonlinear_arith)
            requires
                a * d == v - lo,
                d == hi - lo,
                d > 0 as real,
                v <= hi,
        ;
    }
}

proof fn lemma_back(lo: real, hi: real, a: real)
    requires
        lo < hi,
    ensures
        fraction(between(lo, hi, a), lo, hi) == a,
        a > 0 as real ==> between(lo, hi, a) > lo,
        a <= 1 as real ==> between(lo, hi, a) <= hi,
{
    let d = hi - lo;
    let w = between(lo, hi, a) - lo;
    assert(w == a * d);
    assert(w / d == a) by (nonlinear_arith)
        requires
            w == a * d,
            d > 0 as real,
    ;
    if a > 0 as real {
        assert(a * d > 0 as real) by (nonlinear_arith)
            requires
                a > 0 as real,
                d > 0 as real,
        ;
    }
    if a <= 1 as real {
        assert(a * d <= d) by (nonlinear_arith)
            requires
                a <= 1 as real,
                d > 0 as real,
        ;
    }
}

/// The arithmetic is exact in the numbers that `value` stands for.
pub open spec fn interpolates_exactly<T, O: Division<T> + Bounds<T>>(
    ops: &O,
    zero: T,
    one: T,
    value: spec_fn(T) -> real,
) -> bool {
    &&& crate::scalar::is_exact(ops, value)
    &&& crate::scalar::compares(ops, value)
    &&& crate::scalar::divides_exactly(ops, value)
    &&& value(zero) == 0 as real
    &&& value(one) == 1 as real
}

/// The values of two lists that belong together: `row` expresses `v` by the
/// anchors, and `r` is the same mix of the images.
pub open spec fn is_mapped<T, O: Division<T> + Bounds<T>>(
    ops: &O,
    extrapolate: bool,
    zero: T,
    one: T,
    anchors: Seq<T>,
    images: Seq<T>,
    v: T,
    r: T,
) -> bool {
    exists|row: Seq<T>| #[trigger]
        crate::utils::interpolation::is_weight_row(ops, extrapolate, zero, one, anchors, v, row)
            && crate::utils::blend::is_blend(ops, zero, image_terms(row, images), r)
}

/// The value is between the outermost anchors, or the lines go on beyond them.
pub open spec fn within<T>(
    extrapolate: bool,
    value: spec_fn(T) -> real,
    anchors: Seq<T>,
    v: T,
) -> bool {
    extrapolate || value(anchors[0]) <= value(v) <= value(anchors.last())
}

proof fn lemma_mapped<T, O: Division<T> + Bounds<T>>(
    ops: &O,
    extrapolate: bool,
    zero: T,
    one: T,
    anchors: Seq<T>,
    images: Seq<T>,
    v: T,
    r: T,
    value: spec_fn(T) -> real,
) -> (end: int)
    requires
        interpolates_exactly(ops, zero, one, value),
        anchors.len() >= 2,
        images.len() == anchors.len(),
        ascends(value, anchors),
        within(extrapolate, value, anchors, v),
        is_mapped(ops, extrapolate, zero, one, anchors, images, v, r),
    ensures
        in_segment(value, anchors, v, end),
        value(r) == between(
            value(images[end - 1]),
            value(images[end]),
            fraction(value(v), value(anchors[end - 1]), value(anchors[end])),
        ),
{
    let row = choose|row: Seq<T>| #[trigger]
        crate::utils::interpolation::is_weight_row(ops, extrapolate, zero, one, anchors, v, row)
            && crate::utils::blend::is_blend(ops, zero, image_terms(row, images), r);
    let (below, pair) = choose|below: int, pair: (T, T)|
        {
            let end = crate::utils::interpolation::segment_end(below, anchors.len() as int);
            &&& #[trigger] crate::utils::interpolation::splits_at(ops, anchors, v, below)
            &&& #[trigger] crate::utils::interpolation::are_segment_weights(
                ops,
                extrapolate,
                zero,
                one,
                anchors,
                v,
                below,
                pair,
            )
            &&& row == Seq::new(
                anchors.len(),
                |k: int|
                    if k == end - 1 {
                        pair.0
                    } else if k == end {
                        pair.1
                    } else {
                        zero
                    },
            )
        };
    let end = crate::utils::interpolation::segment_end(below, anchors.len() as int);
    lemma_segment(ops, value, anchors, v, below);
    assert(row =~= two_weights(images.len(), end, pair, zero));
    lemma_image(ops, value, end, pair, zero, row, images, r);
    assert(value(anchors[end - 1]) < value(anchors[end]));
    law_segment_weights(
        ops,
        extrapolate,
        zero,
        one,
        v,
        anchors[end - 1],
        anchors[end],
        pair,
        value,
    );
    let a = fraction(value(v), value(anchors[end - 1]), value(anchors[end]));
    lemma_between(value(images[end - 1]), value(images[end]), a);
    end
}

/// In exact arithmetic the weights express the value: mixed with the anchors
/// themselves, they give it back.
pub proof fn law_weights_reproduce<T, O: Division<T> + Bounds<T>>(
    ops: &O,
    extrapolate: bool,
    zero: T,
    one: T,
    anchors: Seq<T>,
    v: T,
    r: T,
    value: spec_fn(T) -> real,
)
    requires
        interpolates_exactly(ops, zero, one, value),
        anchors.len() >= 2,
        ascends(value, anchors),
        within(extrapolate, value, anchors, v),
        is_mapped(ops, extrapolate, zero, one, anchors, anchors, v, r),
    ensures
        value(r) == value(v),
{
    let end = lemma_mapped(
        ops,
        extrapolate,
        zero,
        one,
        anchors,
        anchors,
        v,
        r,
        value,
    );
    assert(value(anchors[end - 1]) < value(anchors[end]));
    lemma_fraction(value(v), value(anchors[end - 1]), value(anchors[end]));
}

/// In exact arithmetic, what is mapped from one ascending list of anchors to
/// another and back comes out as it was.
pub proof fn law_mapped_back<T, O: Division<T> + Bounds<T>>(
    ops: &O,
    zero: T,
    one: T,
    anchors: Seq<T>,
    images: Seq<T>,
    v: T,
    there: T,
    back: T,
    value: spec_fn(T) -> real,
)
    requires
        interpolates_exactly(ops, zero, one, value),
        anchors.len() >= 2,
        images.len() == anchors.len(),
        ascends(value, anchors),
        ascends(value, images),
        is_mapped(ops, true, zero, one, anchors, images, v, there),
        is_mapped(ops, true, zero, one, images, anchors, there, back),
    ensures
        value(back) == value(v),
{
    let e = lemma_mapped(ops, true, zero, one, anchors, images, v, there, value);
    let f = lemma_mapped(ops, true, zero, one, images, anchors, there, back, value);
    let lo = value(anchors[e - 1]);
    let hi = value(anchors[e]);
    let a = fraction(value(v), lo, hi);
    assert(lo < hi);
    assert(value(images[e - 1]) < value(images[e]));
    lemma_fraction(value(v), lo, hi);
    lemma_back(value(images[e - 1]), value(images[e]), a);
    if f < e {
        assert(value(there) <= value(images[f]));
        if f < e - 1 {
            assert(value(images[f]) < value(images[e - 1]));
        }
        assert(false);
    }
    if f > e {
        assert(value(images[f - 1]) < value(there));
        if e < f - 1 {
            assert(value(images[e]) < value(images[f - 1]));
        }
        assert(false);
    }
}

} // verus!
