//! Means of points and of distances.
use vstd::prelude::*;

use crate::scalar::Lengths;
use crate::utils::distance::distance;
use crate::utils::shares::total;

verus! {

/// The operations by which points are averaged. Nothing is taken for granted
/// of what they return.
pub trait MeanOps<T>: Lengths<T> {
    /// `a` over the number `n`.
    fn over(&self, a: T, n: usize) -> T;

    /// Meters in millimeters.
    fn millimeters(&self, a: T) -> T;
}

pub open spec fn over_of<T, O: MeanOps<T>>(ops: &O, a: T, n: usize, r: T) -> bool {
    call_ensures(O::over, (ops, a, n), r)
}

/// One coordinate of the points.
pub open spec fn column<T>(points: Seq<[T; 3]>, c: int) -> Seq<T> {
    Seq::new(points.len(), |i: int| points[i]@[c])
}

/// `r` is the mean of a list that is not empty.
pub open spec fn is_mean<T, O: MeanOps<T>>(ops: &O, zero: T, list: Seq<T>, r: T) -> bool {
    exists|sum: T| #[trigger]
        crate::utils::shares::is_total(ops, zero, list, sum) && over_of(
            ops,
            sum,
            list.len() as usize,
            r,
        )
}

/// `r` is the mean of the points, or the origin where there is none.
pub open spec fn is_mean_point<T, O: MeanOps<T>>(
    ops: &O,
    zero: T,
    points: Seq<[T; 3]>,
    r: Seq<T>,
) -> bool {
    &&& r.len() == 3
    &&& forall|c: int|
        0 <= c < 3 ==> if points.len() == 0 {
            #[trigger] r[c] == zero
        } else {
            is_mean(ops, zero, column(points, c), r[c])
        }
}

fn mean_coordinate<T: Copy, O: MeanOps<T>>(
    points: &Vec<[T; 3]>,
    c: usize,
    zero: T,
    ops: &O,
) -> (r: T)
    requires
        c < 3,
    ensures
        is_mean(ops, zero, column(points@, c as int), r),
{
    let mut list: Vec<T> = Vec::new();
    for i in 0..points.len()
        invariant
            c < 3,
            list@ =~= column(points@.take(i as int), c as int),
    {
        list.push(points[i][c]);
    }
    assert(points@.take(points@.len() as int) =~= points@);
    let sum = total(&list, zero, ops);
    ops.over(sum, list.len())
}

/// The mean of the points; the origin where there is none.
pub fn mean_point<T: Copy, O: MeanOps<T>>(points: &Vec<[T; 3]>, zero: T, ops: &O) -> (r: [T; 3])
    ensures
        is_mean_point(ops, zero, points@, r@),
{
    if points.len() == 0 {
        [zero, zero, zero]
    } else {
        [
            mean_coordinate(points, 0, zero, ops),
            mean_coordinate(points, 1, zero, ops),
            mean_coordinate(points, 2, zero, ops),
        ]
    }
}

/// `ds` are the distances of the points of two lists.
pub open spec fn are_distances<T, O: MeanOps<T>>(
    ops: &O,
    a: Seq<[T; 3]>,
    b: Seq<[T; 3]>,
    ds: Seq<T>,
) -> bool {
    &&& ds.len() == a.len()
    &&& forall|i: int| 0 <= i < a.len() ==> crate::utils::distance::is_distance(ops, a[i]@, b[i]@, #[trigger] ds[i])
}

/// `r` is the mean distance of the points of two lists, in millimeters.
pub open spec fn is_mean_distance<T, O: MeanOps<T>>(
    ops: &O,
    zero: T,
    a: Seq<[T; 3]>,
    b: Seq<[T; 3]>,
    r: T,
) -> bool {
    exists|ds: Seq<T>, mean: T|
        {
            &&& #[trigger] are_distances(ops, a, b, ds)
            &&& #[trigger] is_mean(ops, zero, ds, mean)
            &&& call_ensures(O::millimeters, (ops, mean), r)
        }
}

fn mean_distance<T: Copy, O: MeanOps<T>>(
    a: &Vec<[T; 3]>,
    b: &Vec<[T; 3]>,
    zero: T,
    ops: &O,
) -> (r: T)
    requires
        a@.len() == b@.len(),
    ensures
        is_mean_distance(ops, zero, a@, b@, r),
{
    let mut ds: Vec<T> = Vec::new();
    for i in 0..a.len()
        invariant
            a@.len() == b@.len(),
            ds@.len() == i,
            forall|j: int| 0 <= j < i ==> crate::utils::distance::is_distance(ops, a@[j]@, b@[j]@, #[trigger] ds@[j]),
    {
        ds.push(distance(&a[i], &b[i], ops));
    }
    let sum = total(&ds, zero, ops);
    let mean = ops.over(sum, ds.len());
    proof {
        assert(are_distances(ops, a@, b@, ds@));
        assert(is_mean(ops, zero, ds@, mean));
    }
    ops.millimeters(mean)
}

/// For each element of the batch the mean distance of its points, in
/// millimeters.
pub fn per_element_distances<T: Copy, O: MeanOps<T>>(
    a: &Vec<Vec<[T; 3]>>,
    b: &Vec<Vec<[T; 3]>>,
    zero: T,
    ops: &O,
) -> (r: Vec<T>)
    requires
        a@.len() == b@.len(),
        forall|e: int| 0 <= e < a@.len() ==> (#[trigger] a@[e])@.len() == b@[e]@.len(),
    ensures
        r@.len() == a@.len(),
        forall|e: int|
            0 <= e < a@.len() ==> is_mean_distance(ops, zero, a@[e]@, b@[e]@, #[trigger] r@[e]),
{
    let mut r: Vec<T> = Vec::new();
    for e in 0..a.len()
        invariant
            a@.len() == b@.len(),
            forall|e: int| 0 <= e < a@.len() ==> (#[trigger] a@[e])@.len() == b@[e]@.len(),
            r@.len() == e,
            forall|f: int|
                0 <= f < e ==> is_mean_distance(ops, zero, a@[f]@, b@[f]@, #[trigger] r@[f]),
    {
        assert(a@[e as int]@.len() == b@[e as int]@.len());
        r.push(mean_distance(&a[e], &b[e], zero, ops));
    }
    r
}

} // verus!
