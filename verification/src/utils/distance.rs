//! Distances of points.
use vstd::prelude::*;

use crate::scalar::{Arithmetic, Lengths};

verus! {

/// `way` leads from `b` to `a`.
pub open spec fn is_way<T, O: Arithmetic<T>>(ops: &O, a: Seq<T>, b: Seq<T>, way: [T; 3]) -> bool {
    forall|c: int|
        0 <= c < 3 ==> crate::scalar::difference_of(ops, a[c], b[c], #[trigger] way@[c])
}

pub(crate) fn way<T: Copy, O: Arithmetic<T>>(a: &[T; 3], b: &[T; 3], ops: &O) -> (r: [T; 3])
    ensures
        is_way(ops, a@, b@, r),
{
    [ops.minus(a[0], b[0]), ops.minus(a[1], b[1]), ops.minus(a[2], b[2])]
}

/// `d` is the distance of two points.
pub open spec fn is_distance<T, O: Lengths<T>>(ops: &O, a: Seq<T>, b: Seq<T>, d: T) -> bool {
    exists|way: [T; 3]| #[trigger]
        is_way(ops, a, b, way) && crate::scalar::length_of(ops, way, d)
}

pub(crate) fn distance<T: Copy, O: Lengths<T>>(a: &[T; 3], b: &[T; 3], ops: &O) -> (d: T)
    ensures
        is_distance(ops, a@, b@, d),
{
    let between = way(a, b, ops);
    ops.length(&between)
}

} // verus!
