//! The alternating fit: the transforms of the bones from the vertices that
//! they move, the pose from the transforms, and the order of the steps.
use vstd::prelude::*;

use crate::registration::proper::{nearest_rotation, FactorOps};
use crate::registration::{register, RegistrationOps, Rigid};
use crate::rotation::{identity_matrix, rigid_from_homogeneous, rigid_to_homogeneous};
use crate::scalar::Bounds;
use crate::utils::shares::total;

verus! {

// ---------------------------------------------------------------------------
// Bones from vertices
// ---------------------------------------------------------------------------

/// The operations of the registration of bones. Nothing is taken for granted
/// of what they return.
pub trait BoneOps<T>: RegistrationOps<T> + Bounds<T> {
    fn doubled(&self, a: T) -> T;
}

/// The points of a list, from `start` on, at the given places.
pub open spec fn points_at<T>(points: Seq<[T; 3]>, start: int, places: Seq<u32>) -> Seq<[T; 3]> {
    Seq::new(places.len(), |i: int| points[start + places[i]])
}

fn pick<T: Copy>(points: &Vec<[T; 3]>, start: usize, places: &Vec<u32>) -> (r: Vec<[T; 3]>)
    requires
        forall|i: int|
            0 <= i < places@.len() ==> start + (#[trigger] places@[i]) < points@.len(),
    ensures
        r@ == points_at(points@, start as int, places@),
{
    let mut r: Vec<[T; 3]> = Vec::new();
    for i in 0..places.len()
        invariant
            forall|i: int|
                0 <= i < places@.len() ==> start + (#[trigger] places@[i]) < points@.len(),
            r@ =~= points_at(points@, start as int, places@.take(i as int)),
    {
        assert(start + places@[i as int] < points.len());
        r.push(points[start + places[i] as usize]);
    }
    assert(places@.take(places@.len() as int) =~= places@);
    r
}

/// `m` stands after the values were offered: one takes over if it is greater
/// than the one that stands, which is `zero` at first.
pub open spec fn is_greatest<T, O: BoneOps<T>>(ops: &O, zero: T, values: Seq<T>, m: T) -> bool
    decreases values.len(),
{
    if values.len() == 0 {
        m == zero
    } else {
        exists|before: T|
            is_greatest(ops, zero, values.drop_last(), before) && #[trigger] takes_over(
                ops,
                before,
                values.last(),
                m,
            )
    }
}

pub open spec fn takes_over<T, O: BoneOps<T>>(ops: &O, before: T, v: T, m: T) -> bool {
    ||| crate::scalar::says_less(ops, before, v, true) && m == v
    ||| crate::scalar::says_less(ops, before, v, false) && m == before
}

fn greatest<T: Copy, O: BoneOps<T>>(ops: &O, zero: T, values: &Vec<T>) -> (m: T)
    ensures
        is_greatest(ops, zero, values@, m),
{
    let mut m = zero;
    for i in 0..values.len()
        invariant
            is_greatest(ops, zero, values@.take(i as int), m),
    {
        let ghost before = m;
        if ops.less(m, values[i]) {
            m = values[i];
        }
        proof {
            let next = values@.take(i + 1);
            assert(next.drop_last() =~= values@.take(i as int));
            assert(takes_over(ops, before, next.last(), m));
        }
    }
    assert(values@.take(values@.len() as int) =~= values@);
    m
}

/// `share` is one over the total weight, or 0 where that is not positive.
pub open spec fn is_joint_share<T, O: RegistrationOps<T>>(
    ops: &O,
    zero: T,
    weights: Seq<T>,
    share: T,
) -> bool {
    exists|sum: T| #[trigger]
        crate::utils::shares::is_total(ops, zero, weights, sum) && {
            ||| crate::scalar::says_positive(ops, sum, true) && call_ensures(
                O::reciprocal,
                (ops, sum),
                share,
            )
            ||| crate::scalar::says_positive(ops, sum, false) && share == zero
        }
}

/// `joint` is the weighted mean of the points.
pub open spec fn is_joint<T, O: RegistrationOps<T>>(
    ops: &O,
    zero: T,
    points: Seq<[T; 3]>,
    weights: Seq<T>,
    joint: Seq<T>,
) -> bool {
    exists|share: T| #[trigger]
        is_joint_share(ops, zero, weights, share) && crate::registration::is_centre(
            ops,
            zero,
            points,
            points.len(),
            weights,
            share,
            joint,
        )
}

fn joint_of<T: Copy, O: RegistrationOps<T>>(
    ops: &O,
    zero: T,
    points: &Vec<[T; 3]>,
    weights: &Vec<T>,
) -> (r: [T; 3])
    requires
        points@.len() == weights@.len(),
    ensures
        is_joint(ops, zero, points@, weights@, r@),
{
    let sum = total(weights, zero, ops);
    let share = if ops.positive(sum) {
        ops.reciprocal(sum)
    } else {
        zero
    };
    assert(is_joint_share(ops, zero, weights@, share));
    crate::registration::centre(ops, zero, points, points.len(), weights, share)
}

/// What one bone is fitted by: its vertices in both meshes with the joint
/// between them, and their weights.
pub struct Support<T> {
    pub from: Seq<[T; 3]>,
    pub to: Seq<[T; 3]>,
    pub weights: Seq<T>,
}

/// The joint counts twice as much as the heaviest vertex.
pub open spec fn is_support<T, O: BoneOps<T>>(
    ops: &O,
    zero: T,
    from: Seq<[T; 3]>,
    to: Seq<[T; 3]>,
    weights: Seq<T>,
    s: Support<T>,
) -> bool {
    exists|a: [T; 3], b: [T; 3], m: T, d: T|
        {
            &&& #[trigger] is_joint(ops, zero, from, weights, a@)
            &&& #[trigger] is_joint(ops, zero, to, weights, b@)
            &&& #[trigger] is_greatest(ops, zero, weights, m)
            &&& #[trigger] call_ensures(O::doubled, (ops, m), d)
            &&& s.from == from.push(a)
            &&& s.to == to.push(b)
            &&& s.weights == weights.push(d)
        }
}

/// `h` is the rigid transform that takes the vertices of a bone nearest to
/// their targets, and the identity where it has none.
pub open spec fn is_bone_transform<T, O: BoneOps<T>>(
    ops: &O,
    zero: T,
    one: T,
    from: Seq<[T; 3]>,
    to: Seq<[T; 3]>,
    weights: Seq<T>,
    h: Seq<Seq<T>>,
) -> bool {
    if from.len() == 0 {
        h =~~= crate::rotation::identity_rows(zero, one)
    } else {
        exists|s: Support<T>, rigid: Rigid<T>|
            {
                &&& #[trigger] is_support(ops, zero, from, to, weights, s)
                &&& #[trigger] crate::registration::is_registration(
                    ops,
                    zero,
                    one,
                    s.from,
                    s.to,
                    s.weights,
                    rigid,
                )
                &&& h =~~= crate::rotation::homogeneous(
                    crate::rotation::rows3(rigid.rotation),
                    rigid.translation@,
                    zero,
                    one,
                )
            }
    }
}

fn bone_transform<T: Copy, O: BoneOps<T>>(
    ops: &O,
    zero: T,
    one: T,
    from: &Vec<[T; 3]>,
    to: &Vec<[T; 3]>,
    weights: &Vec<T>,
) -> (h: [[T; 4]; 4])
    requires
        from@.len() == to@.len(),
        from@.len() == weights@.len(),
    ensures
        is_bone_transform(
            ops,
            zero,
            one,
            from@,
            to@,
            weights@,
            crate::rotation::rows4(h),
        ),
{
    if from.len() == 0 {
        return identity_matrix(zero, one);
    }
    let a = joint_of(ops, zero, from, weights);
    let b = joint_of(ops, zero, to, weights);
    let m = greatest(ops, zero, weights);
    let d = ops.doubled(m);
    let mut src: Vec<[T; 3]> = Vec::new();
    let mut tgt: Vec<[T; 3]> = Vec::new();
    let mut ws: Vec<T> = Vec::new();
    for i in 0..from.len()
        invariant
            from@.len() == to@.len(),
            from@.len() == weights@.len(),
            src@ =~= from@.take(i as int),
            tgt@ =~= to@.take(i as int),
            ws@ =~= weights@.take(i as int),
    {
        src.push(from[i]);
        tgt.push(to[i]);
        ws.push(weights[i]);
    }
    src.push(a);
    tgt.push(b);
    ws.push(d);
    let rigid = register(&src, &tgt, &ws, zero, one, ops);
    let h = rigid_to_homogeneous(&rigid.rotation, &rigid.translation, zero, one);
    proof {
        let s = Support { from: src@, to: tgt@, weights: ws@ };
        assert(src@ =~= from@.push(a));
        assert(tgt@ =~= to@.push(b));
        assert(ws@ =~= weights@.push(d));
        assert(is_support(ops, zero, from@, to@, weights@, s));
        assert(crate::registration::is_registration(
            ops,
            zero,
            one,
            s.from,
            s.to,
            s.weights,
            rigid,
        ));
    }
    h
}

/// `r` are the transforms of the bones, for each element of the batch.
pub open spec fn are_bone_transforms<T, O: BoneOps<T>>(
    ops: &O,
    zero: T,
    one: T,
    reference: Seq<[T; 3]>,
    target: Seq<[T; 3]>,
    batch: int,
    n: int,
    vertex_sets: Seq<Vec<u32>>,
    weights: Seq<Vec<T>>,
    r: Seq<Vec<[[T; 4]; 4]>>,
) -> bool {
    forall|b: int, j: int|
        0 <= b < batch && 0 <= j < vertex_sets.len() ==> is_bone_transform(
            ops,
            zero,
            one,
            points_at(reference, b * n, vertex_sets[j]@),
            points_at(target, b * n, vertex_sets[j]@),
            weights[j]@,
            crate::rotation::rows4(#[trigger] r[b]@[j]),
        )
}

/// For each element of the batch and each bone the transform that takes its
/// vertices nearest to their targets. The points of the elements stand one
/// after the other, `n` each.
pub fn register_bones<T: Copy, O: BoneOps<T>>(
    reference: &Vec<[T; 3]>,
    target: &Vec<[T; 3]>,
    batch: usize,
    n: usize,
    vertex_sets: &Vec<Vec<u32>>,
    weights: &Vec<Vec<T>>,
    zero: T,
    one: T,
    ops: &O,
) -> (r: Vec<Vec<[[T; 4]; 4]>>)
    requires
        batch * n <= reference@.len(),
        batch * n <= target@.len(),
        vertex_sets@.len() == weights@.len(),
        forall|j: int|
            0 <= j < vertex_sets@.len() ==> (#[trigger] vertex_sets@[j])@.len()
                == weights@[j]@.len(),
        forall|j: int, i: int|
            0 <= j < vertex_sets@.len() && 0 <= i < vertex_sets@[j]@.len() ==> (
            #[trigger] vertex_sets@[j]@[i]) < n,
    ensures
        r@.len() == batch,
        forall|b: int| 0 <= b < batch ==> (#[trigger] r@[b])@.len() == vertex_sets@.len(),
        forall|b: int, j: int|
            0 <= b < batch && 0 <= j < vertex_sets@.len() ==> is_bone_transform(
                ops,
                zero,
                one,
                points_at(reference@, b * n, vertex_sets@[j]@),
                points_at(target@, b * n, vertex_sets@[j]@),
                weights@[j]@,
                crate::rotation::rows4(#[trigger] r@[b]@[j]),
            ),
        are_bone_transforms(
            ops,
            zero,
            one,
            reference@,
            target@,
            batch as int,
            n as int,
            vertex_sets@,
            weights@,
            r@,
        ),
{
    let mut r: Vec<Vec<[[T; 4]; 4]>> = Vec::new();
    for b in 0..batch
        invariant
            batch * n <= reference@.len(),
            batch * n <= target@.len(),
            vertex_sets@.len() == weights@.len(),
            forall|j: int|
                0 <= j < vertex_sets@.len() ==> (#[trigger] vertex_sets@[j])@.len()
                    == weights@[j]@.len(),
            forall|j: int, i: int|
                0 <= j < vertex_sets@.len() && 0 <= i < vertex_sets@[j]@.len() ==> (
                #[trigger] vertex_sets@[j]@[i]) < n,
            r@.len() == b,
            forall|d: int| 0 <= d < b ==> (#[trigger] r@[d])@.len() == vertex_sets@.len(),
            forall|d: int, j: int|
                0 <= d < b && 0 <= j < vertex_sets@.len() ==> is_bone_transform(
                    ops,
                    zero,
                    one,
                    points_at(reference@, d * n, vertex_sets@[j]@),
                    points_at(target@, d * n, vertex_sets@[j]@),
                    weights@[j]@,
                    crate::rotation::rows4(#[trigger] r@[d]@[j]),
                ),
    {
        assert(b * n + n <= batch * n && 0 <= b * n) by (nonlinear_arith)
            requires
                b < batch,
        ;
        assert(batch * n <= reference.len());
        let start: usize = b * n;
        let mut row: Vec<[[T; 4]; 4]> = Vec::new();
        for j in 0..vertex_sets.len()
            invariant
                start == b * n,
                start + n <= reference@.len(),
                start + n <= target@.len(),
                vertex_sets@.len() == weights@.len(),
                forall|j: int|
                    0 <= j < vertex_sets@.len() ==> (#[trigger] vertex_sets@[j])@.len()
                        == weights@[j]@.len(),
                forall|j: int, i: int|
                    0 <= j < vertex_sets@.len() && 0 <= i < vertex_sets@[j]@.len() ==> (
                    #[trigger] vertex_sets@[j]@[i]) < n,
                row@.len() == j,
                forall|k: int|
                    0 <= k < j ==> is_bone_transform(
                        ops,
                        zero,
                        one,
                        points_at(reference@, b * n, vertex_sets@[k]@),
                        points_at(target@, b * n, vertex_sets@[k]@),
                        weights@[k]@,
                        crate::rotation::rows4(#[trigger] row@[k]),
                    ),
        {
            proof {
                assert forall|i: int| 0 <= i < vertex_sets@[j as int]@.len() implies start + (
                #[trigger] vertex_sets@[j as int]@[i]) < start + n by {}
            }
            assert(vertex_sets@[j as int]@.len() == weights@[j as int]@.len());
            let from = pick(reference, start, &vertex_sets[j]);
            let to = pick(target, start, &vertex_sets[j]);
            row.push(bone_transform(ops, zero, one, &from, &to, &weights[j]));
        }
        r.push(row);
    }
    r
}

// ---------------------------------------------------------------------------
// Poses without translation
// ---------------------------------------------------------------------------

/// The rows without their translation.
pub open spec fn in_place<T>(rows: Seq<Seq<T>>, zero: T) -> Seq<Seq<T>> {
    seq![
        rows[0].update(3, zero),
        rows[1].update(3, zero),
        rows[2].update(3, zero),
        rows[3],
    ]
}

/// What becomes of the pose of bone `j`: the identity for the root and for a
/// bone without vertices, else the pose without its translation.
pub open spec fn reset_rows<T>(
    rows: Seq<Seq<T>>,
    j: int,
    supported: bool,
    zero: T,
    one: T,
) -> Seq<Seq<T>> {
    if j == 0 || !supported {
        crate::rotation::identity_rows(zero, one)
    } else {
        in_place(rows, zero)
    }
}

fn reset<T: Copy>(m: &[[T; 4]; 4], j: usize, supported: bool, zero: T, one: T) -> (r: [[T; 4]; 4])
    ensures
        crate::rotation::rows4(r) =~~= reset_rows(
            crate::rotation::rows4(*m),
            j as int,
            supported,
            zero,
            one,
        ),
{
    if j == 0 || !supported {
        return identity_matrix(zero, one);
    }
    let a = m[0];
    let b = m[1];
    let c = m[2];
    let r = [[a[0], a[1], a[2], zero], [b[0], b[1], b[2], zero], [c[0], c[1], c[2], zero], m[3]];
    assert(crate::rotation::rows4(r) =~~= in_place(crate::rotation::rows4(*m), zero));
    r
}

/// The pose without translations: the root and the bones without vertices at
/// rest, the others turned in place.
pub fn zero_translation_for_supported_joints<T: Copy>(
    pose: &Vec<Vec<[[T; 4]; 4]>>,
    vertex_sets: &Vec<Vec<u32>>,
    zero: T,
    one: T,
) -> (r: Vec<Vec<[[T; 4]; 4]>>)
    requires
        forall|b: int| 0 <= b < pose@.len() ==> (#[trigger] pose@[b])@.len() == vertex_sets@.len(),
    ensures
        r@.len() == pose@.len(),
        forall|b: int| 0 <= b < r@.len() ==> (#[trigger] r@[b])@.len() == vertex_sets@.len(),
        forall|b: int, j: int|
            0 <= b < r@.len() && 0 <= j < vertex_sets@.len() ==> crate::rotation::rows4(
                #[trigger] r@[b]@[j],
            ) =~~= reset_rows(
                crate::rotation::rows4(pose@[b]@[j]),
                j,
                vertex_sets@[j]@.len() > 0,
                zero,
                one,
            ),
{
    let mut r: Vec<Vec<[[T; 4]; 4]>> = Vec::new();
    for b in 0..pose.len()
        invariant
            forall|b: int|
                0 <= b < pose@.len() ==> (#[trigger] pose@[b])@.len() == vertex_sets@.len(),
            r@.len() == b,
            forall|d: int| 0 <= d < b ==> (#[trigger] r@[d])@.len() == vertex_sets@.len(),
            forall|d: int, j: int|
                0 <= d < b && 0 <= j < vertex_sets@.len() ==> crate::rotation::rows4(
                    #[trigger] r@[d]@[j],
                ) =~~= reset_rows(
                    crate::rotation::rows4(pose@[d]@[j]),
                    j,
                    vertex_sets@[j]@.len() > 0,
                    zero,
                    one,
                ),
    {
        let bones = &pose[b];
        let mut row: Vec<[[T; 4]; 4]> = Vec::new();
        for j in 0..bones.len()
            invariant
                bones@.len() == vertex_sets@.len(),
                row@.len() == j,
                forall|k: int|
                    0 <= k < j ==> crate::rotation::rows4(#[trigger] row@[k]) =~~= reset_rows(
                        crate::rotation::rows4(bones@[k]),
                        k,
                        vertex_sets@[k]@.len() > 0,
                        zero,
                        one,
                    ),
        {
            row.push(reset(&bones[j], j, vertex_sets[j].len() > 0, zero, one));
        }
        r.push(row);
    }
    r
}

/// To take the translations out twice is to take them out once.
pub proof fn law_reset_twice<T>(rows: Seq<Seq<T>>, j: int, supported: bool, zero: T, one: T)
    requires
        rows.len() == 4,
        forall|i: int| 0 <= i < 4 ==> (#[trigger] rows[i]).len() == 4,
    ensures
        reset_rows(reset_rows(rows, j, supported, zero, one), j, supported, zero, one)
            =~~= reset_rows(rows, j, supported, zero, one),
{
    if j != 0 && supported {
        let once = in_place(rows, zero);
        let twice = in_place(once, zero);
        assert(twice[0] =~= once[0]);
        assert(twice[1] =~= once[1]);
        assert(twice[2] =~= once[2]);
        assert(twice[3] =~= once[3]);
    }
}

/// `after` is `before` with its rotation replaced by the nearest exact one.
pub open spec fn is_sanitized<T, O: FactorOps<T>>(
    ops: &O,
    zero: T,
    one: T,
    before: Seq<Seq<T>>,
    after: Seq<Seq<T>>,
) -> bool {
    exists|m: [[T; 3]; 3], clean: [[T; 3]; 3]|
        {
            &&& crate::rotation::rows3(m) =~~= crate::rotation::linear_part(before)
            &&& #[trigger] crate::registration::proper::is_nearest_rotation(
                ops,
                zero,
                one,
                m,
                crate::rotation::rows3(clean),
            )
            &&& after =~~= seq![
                crate::rotation::rows3(clean)[0].push(before[0][3]),
                crate::rotation::rows3(clean)[1].push(before[1][3]),
                crate::rotation::rows3(clean)[2].push(before[2][3]),
                before[3],
            ]
        }
}

fn sanitized<T: Copy, O: FactorOps<T>>(h: &[[T; 4]; 4], zero: T, one: T, ops: &O) -> (r: [[T;
    4]; 4])
    ensures
        is_sanitized(ops, zero, one, crate::rotation::rows4(*h), crate::rotation::rows4(r)),
{
    let (m, t) = rigid_from_homogeneous(h);
    let clean = nearest_rotation(ops, zero, one, &m);
    let a = clean[0];
    let b = clean[1];
    let c = clean[2];
    let r = [
        [a[0], a[1], a[2], t[0]],
        [b[0], b[1], b[2], t[1]],
        [c[0], c[1], c[2], t[2]],
        h[3],
    ];
    proof {
        let before = crate::rotation::rows4(*h);
        assert(crate::rotation::rows4(r) =~~= seq![
            crate::rotation::rows3(clean)[0].push(before[0][3]),
            crate::rotation::rows3(clean)[1].push(before[1][3]),
            crate::rotation::rows3(clean)[2].push(before[2][3]),
            before[3],
        ]);
    }
    r
}

/// The pose with the rotation of every bone replaced by the nearest exact one;
/// translations stay.
pub fn sanitize_pose_parameters<T: Copy, O: FactorOps<T>>(
    pose: &Vec<Vec<[[T; 4]; 4]>>,
    zero: T,
    one: T,
    ops: &O,
) -> (r: Vec<Vec<[[T; 4]; 4]>>)
    ensures
        r@.len() == pose@.len(),
        forall|b: int| 0 <= b < r@.len() ==> (#[trigger] r@[b])@.len() == pose@[b]@.len(),
        forall|b: int, j: int|
            0 <= b < r@.len() && 0 <= j < pose@[b]@.len() ==> is_sanitized(
                ops,
                zero,
                one,
                crate::rotation::rows4(pose@[b]@[j]),
                crate::rotation::rows4(#[trigger] r@[b]@[j]),
            ),
{
    let mut r: Vec<Vec<[[T; 4]; 4]>> = Vec::new();
    for b in 0..pose.len()
        invariant
            r@.len() == b,
            forall|d: int| 0 <= d < b ==> (#[trigger] r@[d])@.len() == pose@[d]@.len(),
            forall|d: int, j: int|
                0 <= d < b && 0 <= j < pose@[d]@.len() ==> is_sanitized(
                    ops,
                    zero,
                    one,
                    crate::rotation::rows4(pose@[d]@[j]),
                    crate::rotation::rows4(#[trigger] r@[d]@[j]),
                ),
    {
        let bones = &pose[b];
        let mut row: Vec<[[T; 4]; 4]> = Vec::new();
        for j in 0..bones.len()
            invariant
                row@.len() == j,
                forall|k: int|
                    0 <= k < j ==> is_sanitized(
                        ops,
                        zero,
                        one,
                        crate::rotation::rows4(bones@[k]),
                        crate::rotation::rows4(#[trigger] row@[k]),
                    ),
        {
            row.push(sanitized(&bones[j], zero, one, ops));
        }
        r.push(row);
    }
    r
}

} // verus!
