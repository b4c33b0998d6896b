//! Linear interpolation between ascending anchors.
use crate::scalar::{Bounds, Division};
use crate::utils::bounds::clamp;
use vstd::prelude::*;

verus! {

/// `a` is how far `v` is on the way from `lower` to `upper`.
pub open spec fn is_fraction<T, O: Division<T> + Bounds<T>>(ops: &O, v: T, lower: T, upper: T, a: T) -> bool {
    exists|way: T, length: T|
        {
            &&& #[trigger] crate::scalar::difference_of(ops, v, lower, way)
            &&& #[trigger] crate::scalar::difference_of(ops, upper, lower, length)
            &&& crate::scalar::quotient_of(ops, way, length, a)
        }
}

/// `pair` are the weights of the two anchors around `v`, kept between zero and
/// one unless the line is to go on beyond them.
pub open spec fn is_split<T, O: Division<T> + Bounds<T>>(
    ops: &O,
    extrapolate: bool,
    zero: T,
    one: T,
    v: T,
    lower: T,
    upper: T,
    pair: (T, T),
) -> bool {
    exists|a: T|
        {
            &&& #[trigger] is_fraction(ops, v, lower, upper, a)
            &&& if extrapolate {
                pair.1 == a
            } else {
                crate::utils::bounds::is_clamped(ops, a, zero, one, pair.1)
            }
            &&& crate::scalar::difference_of(ops, one, pair.1, pair.0)
        }
}

/// The weights of the anchors below and above a value. Without `extrapolate` a
/// value beyond the anchors counts as the nearest of the two.
pub fn segment_weights<T: Copy, O: Division<T> + Bounds<T>>(
    v: T,
    lower: T,
    upper: T,
    extrapolate: bool,
    zero: T,
    one: T,
    ops: &O,
) -> (pair: (T, T))
    ensures
        is_split(ops, extrapolate, zero, one, v, lower, upper, pair),
{
    let way = ops.minus(v, lower);
    let length = ops.minus(upper, lower);
    let a = ops.quotient(way, length);
    assert(crate::scalar::difference_of(ops, v, lower, way));
    assert(crate::scalar::difference_of(ops, upper, lower, length));
    assert(is_fraction(ops, v, lower, upper, a));
    let share = if extrapolate {
        a
    } else {
        clamp(a, zero, one, ops)
    };
    (ops.minus(one, share), share)
}

/// `v` belongs behind the first `n` anchors: the last of them is below `v`,
/// and the one after them is not.
pub open spec fn splits_at<T, O: Division<T> + Bounds<T>>(
    ops: &O,
    anchors: Seq<T>,
    v: T,
    n: int,
) -> bool {
    &&& 0 <= n <= anchors.len()
    &&& n > 0 ==> crate::scalar::says_less(ops, anchors[n - 1], v, true)
    &&& n < anchors.len() ==> crate::scalar::says_less(ops, anchors[n], v, false)
}

/// The number of anchors below `v`, by bisection.
fn anchors_below<T: Copy, O: Division<T> + Bounds<T>>(ops: &O, anchors: &Vec<T>, v: T) -> (r: usize)
    ensures
        splits_at(ops, anchors@, v, r as int),
{
    let mut lo: usize = 0;
    let mut hi: usize = anchors.len();
    while lo < hi
        invariant
            lo <= hi <= anchors@.len(),
            lo > 0 ==> crate::scalar::says_less(ops, anchors@[lo - 1], v, true),
            hi < anchors@.len() ==> crate::scalar::says_less(
                ops,
                anchors@[hi as int],
                v,
                false,
            ),
        decreases hi - lo,
    {
        let mid: usize = lo + (hi - lo) / 2;
        if ops.less(anchors[mid], v) {
            lo = mid + 1;
        } else {
            hi = mid;
        }
    }
    lo
}

/// The anchor that bounds the segment of `v` from above, given how many
/// anchors are below `v`: outside the anchors, the first or the last segment
/// is taken.
pub open spec fn segment_end(below: int, anchors: int) -> int {
    if below < 1 {
        1
    } else if below > anchors - 1 {
        anchors - 1
    } else {
        below
    }
}

/// `pair` are the weights of the two anchors of the segment of `v`.
pub open spec fn are_segment_weights<T, O: Division<T> + Bounds<T>>(
    ops: &O,
    extrapolate: bool,
    zero: T,
    one: T,
    anchors: Seq<T>,
    v: T,
    below: int,
    pair: (T, T),
) -> bool {
    let end = segment_end(below, anchors.len() as int);
    is_split(ops, extrapolate, zero, one, v, anchors[end - 1], anchors[end], pair)
}

/// `row` expresses `v` by the two anchors of its segment: all other weights
/// are zero.
pub open spec fn is_weight_row<T, O: Division<T> + Bounds<T>>(
    ops: &O,
    extrapolate: bool,
    zero: T,
    one: T,
    anchors: Seq<T>,
    v: T,
    row: Seq<T>,
) -> bool {
    exists|below: int, pair: (T, T)|
        {
            let end = segment_end(below, anchors.len() as int);
            &&& #[trigger] splits_at(ops, anchors, v, below)
            &&& #[trigger] are_segment_weights(
                ops,
                extrapolate,
                zero,
                one,
                anchors,
                v,
                below,
                pair,
            )
            &&& row == Seq::new(
                anchors.len(),
                |k: int|
                    if k == end - 1 {
                        pair.0
                    } else if k == end {
                        pair.1
                    } else {
                        zero
                    },
            )
        }
}

/// The weights that express each value by the anchors around it. With
/// `extrapolate` the outermost lines go on beyond the anchors; else a value
/// beyond them counts as the outermost anchor.
pub fn linear_interpolation_coefficients<T: Copy, O: Division<T> + Bounds<T>>(
    values: &Vec<T>,
    anchors: &Vec<T>,
    extrapolate: bool,
    zero: T,
    one: T,
    ops: &O,
) -> (r: Vec<Vec<T>>)
    requires
        anchors@.len() >= 2,
    ensures
        r@.len() == values@.len(),
        forall|b: int|
            0 <= b < values@.len() ==> is_weight_row(
                ops,
                extrapolate,
                zero,
                one,
                anchors@,
                values@[b],
                (#[trigger] r@[b])@,
            ),
{
    let n: usize = anchors.len();
    let count: usize = values.len();
    let mut r: Vec<Vec<T>> = Vec::new();
    for b in 0..count
        invariant
            n == anchors@.len(),
            n >= 2,
            count == values@.len(),
            r@.len() == b,
            forall|d: int|
                0 <= d < b ==> is_weight_row(
                    ops,
                    extrapolate,
                    zero,
                    one,
                    anchors@,
                    values@[d],
                    (#[trigger] r@[d])@,
                ),
    {
        let v: T = values[b];
        let below: usize = anchors_below(ops, anchors, v);
        let end: usize = if below < 1 {
            1
        } else if below > n - 1 {
            n - 1
        } else {
            below
        };
        let pair = segment_weights(v, anchors[end - 1], anchors[end], extrapolate, zero, one, ops);
        let mut row: Vec<T> = Vec::new();
        for k in 0..n
            invariant
                1 <= end < n,
                row@.len() == k,
                forall|j: int|
                    0 <= j < k ==> #[trigger] row@[j] == if j == end - 1 {
                        pair.0
                    } else if j == end {
                        pair.1
                    } else {
                        zero
                    },
        {
            if k == end - 1 {
                row.push(pair.0);
            } else if k == end {
                row.push(pair.1);
            } else {
                row.push(zero);
            }
        }
        proof {
            assert(splits_at(ops, anchors@, v, below as int));
            assert(are_segment_weights(
                ops,
                extrapolate,
                zero,
                one,
                anchors@,
                v,
                below as int,
                pair,
            ));
            assert(row@ =~= Seq::new(
                anchors@.len(),
                |k: int|
                    if k == end - 1 {
                        pair.0
                    } else if k == end {
                        pair.1
                    } else {
                        zero
                    },
            ));
        }
        r.push(row);
    }
    r
}

/// At most two weights of a row differ from zero, and they are neighbours.
pub proof fn law_two_neighbours<T, O: Division<T> + Bounds<T>>(
    ops: &O,
    extrapolate: bool,
    zero: T,
    one: T,
    anchors: Seq<T>,
    v: T,
    row: Seq<T>,
)
    requires
        anchors.len() >= 2,
        is_weight_row(ops, extrapolate, zero, one, anchors, v, row),
    ensures
        row.len() == anchors.len(),
        forall|i: int, j: int|
            0 <= i < j < row.len() && #[trigger] row[i] != zero && #[trigger] row[j] != zero ==> j
                == i + 1,
{
}

} // verus!
