//! What the transforms of the bones that are fitted come to in exact arithmetic.
use vstd::prelude::*;

use crate::models::motions::{Motion, Shift, Turn};
use crate::parameters_regressor::fitting::{BoneOps, Support};
use crate::registration::Rigid;

verus! {

/// Doubling is exact in the numbers that `value` stands for.
pub open spec fn doubles_exactly<T, O: BoneOps<T>>(ops: &O, value: spec_fn(T) -> real) -> bool {
    forall|a: T, r: T| #[trigger]
        call_ensures(O::doubled, (ops, a), r) ==> value(r) == 2 as real * value(a)
}

proof fn lemma_greatest<T, O: BoneOps<T>>(
    ops: &O,
    zero: T,
    values: Seq<T>,
    m: T,
    value: spec_fn(T) -> real,
)
    requires
        crate::scalar::compares(ops, value),
        crate::parameters_regressor::fitting::is_greatest(ops, zero, values, m),
    ensures
        m == zero || values.contains(m),
        value(m) >= value(zero),
        forall|i: int| 0 <= i < values.len() ==> value(#[trigger] values[i]) <= value(m),
    decreases values.len(),
{
    if values.len() > 0 {
        let less = values.drop_last();
        let before = choose|before: T|
            crate::parameters_regressor::fitting::is_greatest(ops, zero, less, before)
                && #[trigger] crate::parameters_regressor::fitting::takes_over(
                ops,
                before,
                values.last(),
                m,
            );
        lemma_greatest(ops, zero, less, before, value);
        assert(values[values.len() - 1] == values.last());
        if less.contains(before) {
            let k = choose|k: int| 0 <= k < less.len() && less[k] == before;
            assert(values[k] == before);
        }
        assert forall|i: int| 0 <= i < values.len() implies value(#[trigger] values[i]) <= value(
            m,
        ) by {
            if i < less.len() {
                assert(less[i] == values[i]);
            }
        }
    }
}

/// `centre` is the weighted mean of the points: what the points are off it, by
/// their weights, comes to nothing.
pub open spec fn is_weighted_mean<T>(
    value: spec_fn(T) -> real,
    points: Seq<[T; 3]>,
    weights: Seq<T>,
    centre: [T; 3],
) -> bool {
    forall|c: int|
        0 <= c < 3 ==> crate::registration::least_laws::total(
            #[trigger] crate::registration::least_laws::scaled_along(
                crate::registration::least_laws::weights_seen(value, weights),
                crate::registration::recovery_laws::offsets_of(value, points, centre@),
                c,
            ),
        ) == 0 as real
}

proof fn lemma_joint<T, O: BoneOps<T>>(
    ops: &O,
    zero: T,
    points: Seq<[T; 3]>,
    weights: Seq<T>,
    joint: [T; 3],
    value: spec_fn(T) -> real,
)
    requires
        crate::scalar::is_exact(ops, value),
        crate::registration::recovery_laws::registers_exactly(ops, value),
        value(zero) == 0 as real,
        points.len() == weights.len(),
        crate::utils::shares::exact_total(value, weights) > 0 as real,
        crate::parameters_regressor::fitting::is_joint(ops, zero, points, weights, joint@),
    ensures
        is_weighted_mean(value, points, weights, joint),
{
    let share = choose|share: T| #[trigger]
        crate::parameters_regressor::fitting::is_joint_share(ops, zero, weights, share)
            && crate::registration::is_centre(
            ops,
            zero,
            points,
            points.len(),
            weights,
            share,
            joint@,
        );
    let sum = choose|sum: T| #[trigger]
        crate::utils::shares::is_total(ops, zero, weights, sum) && {
            ||| crate::scalar::says_positive(ops, sum, true) && call_ensures(
                O::reciprocal,
                (ops, sum),
                share,
            )
            ||| crate::scalar::says_positive(ops, sum, false) && share == zero
        };
    crate::utils::shares::lemma_exact_total(ops, zero, weights, sum, value);
    assert forall|c: int| 0 <= c < 3 implies crate::registration::least_laws::total(
        #[trigger] crate::registration::least_laws::scaled_along(
            crate::registration::least_laws::weights_seen(value, weights),
            crate::registration::recovery_laws::offsets_of(value, points, joint@),
            c,
        ),
    ) == 0 as real by {
        assert(crate::registration::is_centre_coordinate(
            ops,
            zero,
            points,
            points.len(),
            weights,
            share,
            c,
            joint@[c],
        ));
        crate::registration::least_laws::lemma_centred(
            ops,
            zero,
            points,
            weights,
            share,
            joint@,
            c,
            value,
        );
    }
}

/// The points of element `b` at the given places, where each element has `n`.
pub open spec fn of_element<T>(points: Seq<[T; 3]>, b: int, n: int, places: Seq<u32>) -> Seq<
    [T; 3],
> {
    Seq::new(places.len(), |i: int| points[b * n + places[i] as int])
}

/// The motion brings the points, and their mean with twice the weight of the heaviest,
/// as close to the others as the rotation and the shift do; nothing is moved
/// where there are no points.
pub open spec fn is_nearest<T>(
    value: spec_fn(T) -> real,
    from: Seq<[T; 3]>,
    to: Seq<[T; 3]>,
    w: Seq<T>,
    m: Motion,
    means: ([T; 3], [T; 3], T),
    q: Turn,
    t: Shift,
) -> bool {
    &&& from.len() == 0 ==> m == (Motion {
        turn: crate::models::motions::straight(),
        shift: crate::models::motions::origin(),
    })
    &&& crate::utils::shares::exact_total(value, w) > 0 as real ==> {
        &&& is_weighted_mean(value, from, w, means.0)
        &&& is_weighted_mean(value, to, w, means.1)
        &&& forall|i: int|
            0 <= i < w.len() ==> 2 as real * value(#[trigger] w[i]) <= value(means.2)
        &&& exists|i: int|
            0 <= i < w.len() && value(means.2) == 2 as real * value(#[trigger] w[i])
        &&& crate::registration::least_laws::misfit(
            value,
            w.push(means.2),
            from.push(means.0),
            to.push(means.1),
            m.turn,
            m.shift,
        ) <= crate::registration::least_laws::misfit(
            value,
            w.push(means.2),
            from.push(means.0),
            to.push(means.1),
            q,
            t,
        )
    }
}

#[verifier::rlimit(30)]
proof fn lemma_nearest<T, O: BoneOps<T>>(
    ops: &O,
    zero: T,
    one: T,
    from: Seq<[T; 3]>,
    to: Seq<[T; 3]>,
    w: Seq<T>,
    h: Seq<Seq<T>>,
    q: Turn,
    t: Shift,
    value: spec_fn(T) -> real,
) -> (means: ([T; 3], [T; 3], T))
    requires
        crate::scalar::is_exact(ops, value),
        crate::scalar::compares(ops, value),
        doubles_exactly(ops, value),
        crate::registration::recovery_laws::registers_exactly(ops, value),
        value(zero) == 0 as real,
        value(one) == 1 as real,
        from.len() == to.len(),
        from.len() == w.len(),
        crate::registration::recovery_laws::weighs(value, w),
        crate::registration::proper_laws::is_proper_turn(q),
        crate::parameters_regressor::fitting::is_bone_transform(ops, zero, one, from, to, w, h),
    ensures
        is_nearest(
            value,
            from,
            to,
            w,
            crate::models::motions::motion_of(value, h),
            means,
            q,
            t,
        ),
{
    let m = crate::models::motions::motion_of(value, h);
    if from.len() == 0 {
        let e = crate::rotation::identity_rows(zero, one);
        assert(h[0] == e[0] && h[1] == e[1] && h[2] == e[2]);
        assert(w.len() == 0);
        ([zero, zero, zero], [zero, zero, zero], zero)
    } else if crate::utils::shares::exact_total(value, w) > 0 as real {
        let (s, rigid) = choose|s: Support<T>, rigid: Rigid<T>|
            {
                &&& #[trigger] crate::parameters_regressor::fitting::is_support(
                    ops,
                    zero,
                    from,
                    to,
                    w,
                    s,
                )
                &&& #[trigger] crate::registration::is_registration(
                    ops,
                    zero,
                    one,
                    s.from,
                    s.to,
                    s.weights,
                    rigid,
                )
                &&& h =~~= crate::rotation::homogeneous(
                    crate::rotation::rows3(rigid.rotation),
                    rigid.translation@,
                    zero,
                    one,
                )
            };
        let (x, y, g, d) = choose|x: [T; 3], y: [T; 3], g: T, d: T|
            {
                &&& #[trigger] crate::parameters_regressor::fitting::is_joint(
                    ops,
                    zero,
                    from,
                    w,
                    x@,
                )
                &&& #[trigger] crate::parameters_regressor::fitting::is_joint(
                    ops,
                    zero,
                    to,
                    w,
                    y@,
                )
                &&& #[trigger] crate::parameters_regressor::fitting::is_greatest(ops, zero, w, g)
                &&& #[trigger] call_ensures(O::doubled, (ops, g), d)
                &&& s.from == from.push(x)
                &&& s.to == to.push(y)
                &&& s.weights == w.push(d)
            };
        lemma_joint(ops, zero, from, w, x, value);
        lemma_joint(ops, zero, to, w, y, value);
        lemma_greatest(ops, zero, w, g, value);
        assert(exists|i: int|
            0 <= i < w.len() && value(d) == 2 as real * value(#[trigger] w[i])) by {
            if w.contains(g) {
                let i = choose|i: int| 0 <= i < w.len() && w[i] == g;
                assert(value(d) == 2 as real * value(w[i]));
            } else {
                assert(value(w[0]) == 0 as real);
            }
        }
        assert(w.push(d).drop_last() =~= w);
        crate::registration::least_laws::law_registration_least(
            ops,
            zero,
            one,
            s.from,
            s.to,
            s.weights,
            rigid,
            q,
            t,
            value,
        );
        let rotation = crate::rotation::rows3(rigid.rotation);
        let full = crate::rotation::homogeneous(rotation, rigid.translation@, zero, one);
        assert(h == full);
        assert(h[0] == rotation[0].push(rigid.translation@[0]));
        assert(h[1] == rotation[1].push(rigid.translation@[1]));
        assert(h[2] == rotation[2].push(rigid.translation@[2]));
        assert(m.turn == crate::models::turn_laws::turn_of(value, rotation));
        (x, y, d)
    } else {
        ([zero, zero, zero], [zero, zero, zero], zero)
    }
}

/// In exact arithmetic the transform of a bone brings its vertices, and their mean
/// with twice the weight of the heaviest, as close to their targets as any rotation
/// and shift, in the weighted sum of the squares of the distances: its vertices
/// are those of its own set, in its own element, in both meshes. A bone without
/// vertices stays where it is.
pub proof fn law_bones_are_registered<T: Copy, O: BoneOps<T>>(
    ops: &O,
    reference: Vec<[T; 3]>,
    target: Vec<[T; 3]>,
    batch: usize,
    n: usize,
    vertex_sets: Vec<Vec<u32>>,
    weights: Vec<Vec<T>>,
    zero: T,
    one: T,
    r: Vec<Vec<[[T; 4]; 4]>>,
    b: int,
    j: int,
    q: Turn,
    t: Shift,
    value: spec_fn(T) -> real,
) -> (means: ([T; 3], [T; 3], T))
    requires
        crate::scalar::is_exact(ops, value),
        crate::scalar::compares(ops, value),
        doubles_exactly(ops, value),
        crate::registration::recovery_laws::registers_exactly(ops, value),
        value(zero) == 0 as real,
        value(one) == 1 as real,
        call_ensures(
            crate::parameters_regressor::fitting::register_bones::<T, O>,
            (&reference, &target, batch, n, &vertex_sets, &weights, zero, one, ops),
            r,
        ),
        0 <= b < batch,
        0 <= j < vertex_sets@.len(),
        vertex_sets@[j]@.len() == weights@[j]@.len(),
        crate::registration::recovery_laws::weighs(value, weights@[j]@),
        crate::registration::proper_laws::is_proper_turn(q),
    ensures
        r@.len() == batch,
        r@[b]@.len() == vertex_sets@.len(),
        ({
            let m = crate::models::motions::motion_of(value, crate::rotation::rows4(r@[b]@[j]));
            let from = of_element(reference@, b, n as int, vertex_sets@[j]@);
            let to = of_element(target@, b, n as int, vertex_sets@[j]@);
            is_nearest(value, from, to, weights@[j]@, m, means, q, t)
        }),
{
    let places = vertex_sets@[j]@;
    let w = weights@[j]@;
    let from = of_element(reference@, b, n as int, places);
    let to = of_element(target@, b, n as int, places);
    let h = crate::rotation::rows4(r@[b]@[j]);
    assert(from =~= crate::parameters_regressor::fitting::points_at(reference@, b * n, places));
    assert(to =~= crate::parameters_regressor::fitting::points_at(target@, b * n, places));
    assert(r@[b]@.len() == vertex_sets@.len());
    assert(crate::parameters_regressor::fitting::are_bone_transforms(
        ops,
        zero,
        one,
        reference@,
        target@,
        batch as int,
        n as int,
        vertex_sets@,
        weights@,
        r@,
    ));
    assert(r@[b]@[j] == r@[b]@[j]);
    assert(crate::parameters_regressor::fitting::is_bone_transform(ops, zero, one, from, to, w, h));
    lemma_nearest(ops, zero, one, from, to, w, h, q, t, value)
}

/// A pose without translations has the root and the bones without vertices at rest,
/// and the others turned as they were, at the origin.
pub proof fn law_poses_in_place<T: Copy>(
    pose: Vec<Vec<[[T; 4]; 4]>>,
    vertex_sets: Vec<Vec<u32>>,
    zero: T,
    one: T,
    r: Vec<Vec<[[T; 4]; 4]>>,
    b: int,
    j: int,
)
    requires
        call_ensures(
            crate::parameters_regressor::fitting::zero_translation_for_supported_joints::<T>,
            (&pose, &vertex_sets, zero, one),
            r,
        ),
        0 <= b < pose@.len(),
        0 <= j < vertex_sets@.len(),
    ensures
        r@.len() == pose@.len(),
        r@[b]@.len() == vertex_sets@.len(),
        ({
            let (h, g) = (
                crate::rotation::rows4(r@[b]@[j]),
                crate::rotation::rows4(pose@[b]@[j]),
            );
            forall|i: int, k: int|
                0 <= i < 4 && 0 <= k < 4 ==> #[trigger] h[i][k] == if j == 0
                    || vertex_sets@[j]@.len() == 0 {
                    if i == k {
                        one
                    } else {
                        zero
                    }
                } else if i < 3 && k == 3 {
                    zero
                } else {
                    g[i][k]
                }
        }),
{
    let (h, g) = (crate::rotation::rows4(r@[b]@[j]), crate::rotation::rows4(pose@[b]@[j]));
    let s = vertex_sets@[j]@.len() > 0;
    let e = crate::parameters_regressor::fitting::reset_rows(g, j, s, zero, one);
    assert(r@[b]@[j] == r@[b]@[j]);
    assert(r@[b]@.len() == vertex_sets@.len());
    assert(h =~~= e);
    assert forall|i: int, k: int| 0 <= i < 4 && 0 <= k < 4 implies #[trigger] h[i][k] == if j == 0
        || vertex_sets@[j]@.len() == 0 {
        if i == k {
            one
        } else {
            zero
        }
    } else if i < 3 && k == 3 {
        zero
    } else {
        g[i][k]
    } by {
        assert(h[i][k] == e[i][k]);
        assert(i == 0 || i == 1 || i == 2 || i == 3);
        assert(k == 0 || k == 1 || k == 2 || k == 3);
    }
}

} // verus!
