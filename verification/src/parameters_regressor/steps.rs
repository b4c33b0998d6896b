//! The steps of a fit on lists of points and poses.
use vstd::prelude::*;

use crate::models::full_model::copy_row;
use crate::models::matrices::matrix_product;
use crate::registration::Rigid;
use crate::rotation::{inner, rigid_to_homogeneous};
use crate::scalar::Arithmetic;

verus! {

/// The points of all elements, one after the other.
pub open spec fn flattened<A>(points: Seq<Vec<A>>) -> Seq<A>
    decreases points.len(),
{
    if points.len() == 0 {
        Seq::empty()
    } else {
        flattened(points.drop_last()) + points.last()@
    }
}

/// The points of all elements, one after the other.
pub fn flatten<A: Copy>(points: &Vec<Vec<A>>) -> (r: Vec<A>)
    ensures
        r@ == flattened(points@),
{
    let mut r: Vec<A> = Vec::new();
    for b in 0..points.len()
        invariant
            r@ == flattened(points@.take(b as int)),
    {
        let mut more = copy_row(&points[b]);
        r.append(&mut more);
        assert(points@.take(b + 1).drop_last() =~= points@.take(b as int));
    }
    assert(points@.take(points@.len() as int) =~= points@);
    r
}

/// `n` points in each element make up the product.
pub proof fn lemma_flat_len<A>(points: Seq<Vec<A>>, n: int)
    requires
        forall|b: int| 0 <= b < points.len() ==> (#[trigger] points[b])@.len() == n,
    ensures
        flattened(points).len() == points.len() * n,
    decreases points.len(),
{
    if points.len() > 0 {
        let rest = points.drop_last();
        assert forall|b: int| 0 <= b < rest.len() implies (#[trigger] rest[b])@.len() == n by {
            assert(rest[b] == points[b]);
        }
        lemma_flat_len(rest, n);
        let m = rest.len() as int;
        assert(points.last()@.len() == n);
        assert((m + 1) * n == m * n + n) by (nonlinear_arith);
    } else {
        assert(0 * n == 0);
    }
}

/// The points of each element that the indices name.
pub open spec fn are_picked<A>(points: Seq<Vec<A>>, at: Seq<u32>, r: Seq<Vec<A>>) -> bool {
    &&& r.len() == points.len()
    &&& forall|b: int|
        0 <= b < r.len() ==> (#[trigger] r[b])@ == crate::models::full_model::picked(
            points[b]@,
            at,
        )
}

/// Every index names a point of every element.
pub open spec fn picks_within<A>(points: Seq<Vec<A>>, at: Seq<u32>) -> bool {
    forall|b: int, i: int|
        0 <= b < points.len() && 0 <= i < at.len() ==> (#[trigger] at[i]) < (
        #[trigger] points[b])@.len()
}

/// The points of each element that the indices name, where it has them all.
pub fn pick_all<A: Copy>(points: &Vec<Vec<A>>, at: &Vec<u32>) -> (r: Option<Vec<Vec<A>>>)
    ensures
        match r {
            Some(picked) => picks_within(points@, at@) && are_picked(points@, at@, picked@),
            None => !picks_within(points@, at@),
        },
{
    let mut r: Vec<Vec<A>> = Vec::new();
    for b in 0..points.len()
        invariant
            r@.len() == b,
            forall|d: int, i: int|
                0 <= d < b && 0 <= i < at@.len() ==> (#[trigger] at@[i]) < (
                #[trigger] points@[d])@.len(),
            forall|d: int|
                0 <= d < b ==> (#[trigger] r@[d])@ == crate::models::full_model::picked(
                    points@[d]@,
                    at@,
                ),
    {
        let row = &points[b];
        let mut picked: Vec<A> = Vec::new();
        for i in 0..at.len()
            invariant
                b < points@.len(),
                *row == points@[b as int],
                picked@.len() == i,
                forall|k: int| 0 <= k < i ==> (#[trigger] at@[k]) < row@.len(),
                forall|k: int| 0 <= k < i ==> #[trigger] picked@[k] == row@[at@[k] as int],
        {
            if at[i] as usize >= row.len() {
                assert(at@[i as int] >= points@[b as int]@.len());
                return None;
            }
            picked.push(row[at[i] as usize]);
        }
        assert(picked@ =~= crate::models::full_model::picked(row@, at@));
        r.push(picked);
    }
    Some(r)
}

/// There is one rigid transform for each pose, and each pose has a root.
pub open spec fn roots_fit<T>(pose: Seq<Vec<[[T; 4]; 4]>>, roots: Seq<Rigid<T>>) -> bool {
    &&& pose.len() == roots.len()
    &&& forall|b: int| 0 <= b < pose.len() ==> (#[trigger] pose[b])@.len() > 0
}

/// `r` is the pose with the rigid transform for a root.
pub open spec fn is_rerooted<T>(
    pose: Seq<[[T; 4]; 4]>,
    root: Rigid<T>,
    zero: T,
    one: T,
    r: Seq<[[T; 4]; 4]>,
) -> bool {
    &&& r.len() == pose.len()
    &&& crate::rotation::rows4(r[0]) =~~= crate::rotation::homogeneous(
        crate::rotation::rows3(root.rotation),
        root.translation@,
        zero,
        one,
    )
    &&& forall|j: int| 1 <= j < r.len() ==> #[trigger] r[j] == pose[j]
}

/// The poses with other roots.
pub fn replace_root<T: Copy>(
    pose: &Vec<Vec<[[T; 4]; 4]>>,
    roots: &Vec<Rigid<T>>,
    zero: T,
    one: T,
) -> (r: Option<Vec<Vec<[[T; 4]; 4]>>>)
    ensures
        match r {
            Some(out) => {
                &&& roots_fit(pose@, roots@)
                &&& out@.len() == pose@.len()
                &&& forall|b: int|
                    0 <= b < out@.len() ==> is_rerooted(
                        pose@[b]@,
                        roots@[b],
                        zero,
                        one,
                        (#[trigger] out@[b])@,
                    )
            },
            None => !roots_fit(pose@, roots@),
        },
{
    if pose.len() != roots.len() {
        return None;
    }
    let mut out: Vec<Vec<[[T; 4]; 4]>> = Vec::new();
    for b in 0..pose.len()
        invariant
            pose@.len() == roots@.len(),
            out@.len() == b,
            forall|d: int| 0 <= d < b ==> (#[trigger] pose@[d])@.len() > 0,
            forall|d: int|
                0 <= d < b ==> is_rerooted(
                    pose@[d]@,
                    roots@[d],
                    zero,
                    one,
                    (#[trigger] out@[d])@,
                ),
    {
        if pose[b].len() == 0 {
            assert(pose@[b as int]@.len() == 0);
            return None;
        }
        let mut row = copy_row(&pose[b]);
        row[0] = rigid_to_homogeneous(&roots[b].rotation, &roots[b].translation, zero, one);
        out.push(row);
    }
    Some(out)
}

/// `q` is the point under the rigid transform.
pub open spec fn is_moved_point<T, O: Arithmetic<T>>(
    ops: &O,
    root: Rigid<T>,
    p: Seq<T>,
    q: Seq<T>,
) -> bool {
    forall|c: int|
        0 <= c < 3 ==> is_moved_coordinate(
            ops,
            crate::rotation::rows3(root.rotation)[c],
            root.translation@[c],
            p,
            #[trigger] q[c],
        )
}

pub open spec fn is_moved_coordinate<T, O: Arithmetic<T>>(
    ops: &O,
    row: Seq<T>,
    t: T,
    p: Seq<T>,
    q: T,
) -> bool {
    exists|x: T| #[trigger]
        crate::rotation::is_inner(ops, row, p, x) && crate::scalar::sum_of(ops, x, t, q)
}

fn moved_coordinate<T: Copy, O: Arithmetic<T>>(row: &[T; 3], t: T, p: &[T; 3], ops: &O) -> (q: T)
    ensures
        is_moved_coordinate(ops, row@, t, p@, q),
{
    let x = inner(ops, row, p);
    assert(crate::rotation::is_inner(ops, row@, p@, x));
    ops.plus(x, t)
}

fn moved_point<T: Copy, O: Arithmetic<T>>(root: &Rigid<T>, p: &[T; 3], ops: &O) -> (q: [T; 3])
    ensures
        is_moved_point(ops, *root, p@, q@),
{
    let q = [
        moved_coordinate(&root.rotation[0], root.translation[0], p, ops),
        moved_coordinate(&root.rotation[1], root.translation[1], p, ops),
        moved_coordinate(&root.rotation[2], root.translation[2], p, ops),
    ];
    proof {
        assert forall|c: int| 0 <= c < 3 implies is_moved_coordinate(
            ops,
            crate::rotation::rows3(root.rotation)[c],
            root.translation@[c],
            p@,
            #[trigger] q@[c],
        ) by {
            assert(c == 0 || c == 1 || c == 2);
        }
    }
    q
}

/// `r` are the points of each element under its rigid transform.
pub open spec fn are_moved_points<T, O: Arithmetic<T>>(
    ops: &O,
    roots: Seq<Rigid<T>>,
    points: Seq<Vec<[T; 3]>>,
    r: Seq<Vec<[T; 3]>>,
) -> bool {
    &&& r.len() == points.len()
    &&& forall|b: int| 0 <= b < r.len() ==> (#[trigger] r[b])@.len() == points[b]@.len()
    &&& forall|b: int, i: int|
        0 <= b < r.len() && 0 <= i < points[b]@.len() ==> is_moved_point(
            ops,
            roots[b],
            points[b]@[i]@,
            (#[trigger] r[b]@[i])@,
        )
}

/// The points of each element under its rigid transform.
pub fn move_points<T: Copy, O: Arithmetic<T>>(
    points: &Vec<Vec<[T; 3]>>,
    roots: &Vec<Rigid<T>>,
    ops: &O,
) -> (r: Vec<Vec<[T; 3]>>)
    requires
        points@.len() == roots@.len(),
    ensures
        are_moved_points(ops, roots@, points@, r@),
{
    let mut r: Vec<Vec<[T; 3]>> = Vec::new();
    for b in 0..points.len()
        invariant
            points@.len() == roots@.len(),
            r@.len() == b,
            forall|d: int| 0 <= d < b ==> (#[trigger] r@[d])@.len() == points@[d]@.len(),
            forall|d: int, i: int|
                0 <= d < b && 0 <= i < points@[d]@.len() ==> is_moved_point(
                    ops,
                    roots@[d],
                    points@[d]@[i]@,
                    (#[trigger] r@[d]@[i])@,
                ),
    {
        let row = &points[b];
        let root = &roots[b];
        let mut out: Vec<[T; 3]> = Vec::new();
        for i in 0..row.len()
            invariant
                out@.len() == i,
                forall|k: int|
                    0 <= k < i ==> is_moved_point(ops, *root, row@[k]@, (#[trigger] out@[k])@),
        {
            out.push(moved_point(root, &row[i], ops));
        }
        r.push(out);
    }
    r
}

/// The lists of matrices have the same shape.
pub open spec fn same_shape<A, B>(a: Seq<Vec<A>>, b: Seq<Vec<B>>) -> bool {
    &&& a.len() == b.len()
    &&& forall|i: int| 0 <= i < a.len() ==> (#[trigger] a[i])@.len() == b[i]@.len()
}

/// `r` holds the products of the matrices.
pub open spec fn are_products<T, O: Arithmetic<T>>(
    ops: &O,
    zero: T,
    a: Seq<Vec<[[T; 4]; 4]>>,
    b: Seq<Vec<[[T; 4]; 4]>>,
    r: Seq<Vec<[[T; 4]; 4]>>,
) -> bool {
    &&& same_shape(r, a)
    &&& forall|e: int, j: int|
        0 <= e < r.len() && 0 <= j < a[e]@.len() ==> crate::models::matrices::is_matrix_product(
            ops,
            zero,
            crate::rotation::rows4(a[e]@[j]),
            crate::rotation::rows4(b[e]@[j]),
            crate::rotation::rows4(#[trigger] r[e]@[j]),
        )
}

/// The products of the matrices of two lists.
pub fn multiply_all<T: Copy, O: Arithmetic<T>>(
    a: &Vec<Vec<[[T; 4]; 4]>>,
    b: &Vec<Vec<[[T; 4]; 4]>>,
    zero: T,
    ops: &O,
) -> (r: Vec<Vec<[[T; 4]; 4]>>)
    requires
        same_shape(a@, b@),
    ensures
        are_products(ops, zero, a@, b@, r@),
{
    let mut r: Vec<Vec<[[T; 4]; 4]>> = Vec::new();
    for e in 0..a.len()
        invariant
            same_shape(a@, b@),
            r@.len() == e,
            forall|d: int| 0 <= d < e ==> (#[trigger] r@[d])@.len() == a@[d]@.len(),
            forall|d: int, j: int|
                0 <= d < e && 0 <= j < a@[d]@.len()
                    ==> crate::models::matrices::is_matrix_product(
                    ops,
                    zero,
                    crate::rotation::rows4(a@[d]@[j]),
                    crate::rotation::rows4(b@[d]@[j]),
                    crate::rotation::rows4(#[trigger] r@[d]@[j]),
                ),
    {
        let x = &a[e];
        let y = &b[e];
        assert(a@[e as int]@.len() == b@[e as int]@.len());
        let mut row: Vec<[[T; 4]; 4]> = Vec::new();
        for j in 0..x.len()
            invariant
                x@.len() == y@.len(),
                row@.len() == j,
                forall|k: int|
                    0 <= k < j ==> crate::models::matrices::is_matrix_product(
                        ops,
                        zero,
                        crate::rotation::rows4(x@[k]),
                        crate::rotation::rows4(y@[k]),
                        crate::rotation::rows4(#[trigger] row@[k]),
                    ),
        {
            row.push(matrix_product(&x[j], &y[j], zero, ops));
        }
        r.push(row);
    }
    r
}

/// `r` holds each element `repeats` times in a row.
pub open spec fn are_repeated<A>(rows: Seq<Vec<A>>, repeats: int, r: Seq<Vec<A>>) -> bool {
    &&& r.len() == rows.len() * repeats
    &&& forall|k: int| 0 <= k < r.len() ==> (#[trigger] r[k])@ == rows[k / repeats]@
}

/// Each element `repeats` times in a row.
pub fn repeat_rows<A: Copy>(rows: &Vec<Vec<A>>, repeats: usize) -> (r: Vec<Vec<A>>)
    requires
        repeats > 0,
    ensures
        are_repeated(rows@, repeats as int, r@),
{
    let mut r: Vec<Vec<A>> = Vec::new();
    assert(0 * repeats == 0);
    for b in 0..rows.len()
        invariant
            repeats > 0,
            r@.len() == b * repeats,
            forall|k: int| 0 <= k < r@.len() ==> (#[trigger] r@[k])@ == rows@[k / repeats as int]@,
    {
        assert((b + 1) * repeats == b * repeats + repeats) by (nonlinear_arith);
        for i in 0..repeats
            invariant
                b < rows@.len(),
                repeats > 0,
                r@.len() == b * repeats + i,
                forall|k: int|
                    0 <= k < r@.len() ==> (#[trigger] r@[k])@ == rows@[k / repeats as int]@,
        {
            r.push(copy_row(&rows[b]));
            proof {
                let k = b * repeats + i;
                assert(k / repeats as int == b) by (nonlinear_arith)
                    requires
                        k == b * repeats + i,
                        0 <= i < repeats,
                ;
            }
        }
    }
    r
}

/// `r` holds the differences of the coordinates of the sampled points.
pub open spec fn are_residuals<T, O: Arithmetic<T>>(
    ops: &O,
    target: Seq<[T; 3]>,
    found: Seq<[T; 3]>,
    samples: Seq<u32>,
    r: Seq<T>,
) -> bool {
    &&& r.len() == 3 * samples.len()
    &&& forall|s: int, c: int|
        #![trigger samples[s], r[3 * s + c]]
        0 <= s < samples.len() && 0 <= c < 3 ==> crate::scalar::difference_of(
            ops,
            target[samples[s] as int]@[c],
            found[samples[s] as int]@[c],
            r[3 * s + c],
        )
}

fn residual<T: Copy, O: Arithmetic<T>>(
    target: &Vec<[T; 3]>,
    found: &Vec<[T; 3]>,
    samples: &Vec<u32>,
    ops: &O,
) -> (r: Vec<T>)
    requires
        forall|i: int| 0 <= i < samples@.len() ==> (#[trigger] samples@[i]) < target@.len(),
        forall|i: int| 0 <= i < samples@.len() ==> (#[trigger] samples@[i]) < found@.len(),
    ensures
        are_residuals(ops, target@, found@, samples@, r@),
{
    let mut r: Vec<T> = Vec::new();
    for s in 0..samples.len()
        invariant
            forall|i: int| 0 <= i < samples@.len() ==> (#[trigger] samples@[i]) < target@.len(),
            forall|i: int| 0 <= i < samples@.len() ==> (#[trigger] samples@[i]) < found@.len(),
            r@.len() == 3 * s,
            forall|t: int, c: int|
                #![trigger samples@[t], r@[3 * t + c]]
                0 <= t < s && 0 <= c < 3 ==> crate::scalar::difference_of(
                    ops,
                    target@[samples@[t] as int]@[c],
                    found@[samples@[t] as int]@[c],
                    r@[3 * t + c],
                ),
    {
        let ghost before = r@;
        let at: usize = samples[s] as usize;
        let a = target[at];
        let b = found[at];
        r.push(ops.minus(a[0], b[0]));
        r.push(ops.minus(a[1], b[1]));
        r.push(ops.minus(a[2], b[2]));
        proof {
            assert forall|t: int, c: int|
                #![trigger samples@[t], r@[3 * t + c]]
                0 <= t < s + 1 && 0 <= c < 3 implies crate::scalar::difference_of(
                ops,
                target@[samples@[t] as int]@[c],
                found@[samples@[t] as int]@[c],
                r@[3 * t + c],
            ) by {
                if t < s {
                    assert(r@[3 * t + c] == before[3 * t + c]);
                } else {
                    assert(c == 0 || c == 1 || c == 2);
                }
            }
        }
    }
    r
}

/// For each element how far the sampled points are from the target.
pub fn residuals<T: Copy, O: Arithmetic<T>>(
    target: &Vec<Vec<[T; 3]>>,
    found: &Vec<Vec<[T; 3]>>,
    samples: &Vec<u32>,
    ops: &O,
) -> (r: Vec<Vec<T>>)
    requires
        target@.len() == found@.len(),
        picks_within(target@, samples@),
        picks_within(found@, samples@),
    ensures
        r@.len() == target@.len(),
        forall|b: int|
            0 <= b < r@.len() ==> are_residuals(
                ops,
                target@[b]@,
                found@[b]@,
                samples@,
                (#[trigger] r@[b])@,
            ),
{
    let mut r: Vec<Vec<T>> = Vec::new();
    for b in 0..target.len()
        invariant
            target@.len() == found@.len(),
            picks_within(target@, samples@),
            picks_within(found@, samples@),
            r@.len() == b,
            forall|d: int|
                0 <= d < b ==> are_residuals(
                    ops,
                    target@[d]@,
                    found@[d]@,
                    samples@,
                    (#[trigger] r@[d])@,
                ),
    {
        proof {
            assert forall|i: int| 0 <= i < samples@.len() implies (#[trigger] samples@[i])
                < target@[b as int]@.len() && samples@[i] < found@[b as int]@.len() by {
                assert(samples@[i] < target@[b as int]@.len());
                assert(samples@[i] < found@[b as int]@.len());
            }
        }
        r.push(residual(&target[b], &found[b], samples, ops));
    }
    r
}

} // verus!
