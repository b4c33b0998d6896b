//! In exact arithmetic whole bodies come back where parameters are taken from them
//! and pose them again.
use vstd::prelude::*;

use crate::kinematics::bone_poses::EndpointOps;
use crate::models::body::Model;
use crate::models::forward::ForwardOutput;
use crate::models::full_model::SkinningMethod;
use crate::models::matrices::Matrices;
use crate::models::pose::{PoseParameterization, PoseState};
use crate::skinning::MotionOps;

verus! {

/// Every transform of the pose is rigid; without a pose there is none.
pub open spec fn pose_is_rigid<T>(
    value: spec_fn(T) -> real,
    pose: Option<Seq<Vec<[[T; 4]; 4]>>>,
) -> bool {
    pose is Some ==> forall|d: int, j: int|
        0 <= d < pose->0.len() && 0 <= j < pose->0[d]@.len() ==> crate::models::motions::is_rigid(
            value,
            crate::rotation::rows4(#[trigger] pose->0[d]@[j]),
        )
}

proof fn lemma_rest_rigid<T, O: EndpointOps<T>>(
    ops: &O,
    zero: T,
    one: T,
    rolls: Seq<[[T; 3]; 3]>,
    heads: Seq<[T; 3]>,
    tails: Seq<[T; 3]>,
    rest: Seq<[[T; 4]; 4]>,
    value: spec_fn(T) -> real,
    j: int,
)
    requires
        crate::scalar::is_exact(ops, value),
        crate::models::turn_laws::turns_exactly(ops, value),
        value(zero) == 0 as real,
        value(one) == 1 as real,
        rolls.len() == heads.len(),
        crate::models::rest_laws::rolls_turn(value, rolls),
        crate::models::forward::are_rest_poses(ops, zero, one, rolls, heads, tails, rest),
        0 <= j < rest.len(),
    ensures
        crate::models::motions::is_rigid(value, crate::rotation::rows4(rest[j])),
{
    let (axis, over) = choose|axis: [T; 3], over: [[T; 3]; 3]|
        {
            &&& #[trigger] crate::models::forward::own_axis(zero, one, axis)
            &&& #[trigger] crate::models::forward::is_turned_over(ops, zero, one, over)
            &&& rest.len() == heads.len()
            &&& forall|i: int|
                0 <= i < rest.len() ==> crate::kinematics::bone_poses::is_bone_pose(
                    ops,
                    heads[i],
                    tails[i],
                    rolls[i],
                    axis,
                    over,
                    zero,
                    one,
                    crate::rotation::rows4(#[trigger] rest[i]),
                )
        };
    crate::models::turn_laws::law_turned_over_orthogonal(ops, zero, one, over, value);
    crate::models::turn_laws::law_rest_poses_orthogonal(
        ops,
        heads[j],
        tails[j],
        rolls[j],
        axis,
        over,
        zero,
        one,
        crate::rotation::rows4(rest[j]),
        value,
    );
}

proof fn lemma_identity_rigid<T>(value: spec_fn(T) -> real, zero: T, one: T, m: Seq<Seq<T>>)
    requires
        value(zero) == 0 as real,
        value(one) == 1 as real,
        m =~~= crate::rotation::identity_rows(zero, one),
    ensures
        crate::models::motions::is_rigid(value, m),
{
    assert(m == crate::rotation::identity_rows(zero, one));
    let (o, e) = (0 as real, 1 as real);
    assert(o * o == o && o * e == o && e * o == o && e * e == e) by (nonlinear_arith)
        requires
            o == 0 as real,
            e == 1 as real,
    ;
}

/// Bodies posed once, and posed again by the parameters taken from them.
pub open spec fn are_posed_again<T: Copy, O: EndpointOps<T> + MotionOps<T>>(
    ops: &O,
    zero: T,
    one: T,
    model: Model<T>,
    coefficients: Seq<Vec<T>>,
    pose: Option<Seq<Vec<[[T; 4]; 4]>>>,
    mode: PoseParameterization,
    out: ForwardOutput<T>,
    target: PoseParameterization,
    converted: Seq<Vec<[[T; 4]; 4]>>,
    again: ForwardOutput<T>,
) -> bool {
    &&& crate::models::forward::is_forward(ops, zero, one, model, coefficients, pose, mode, out)
    &&& forall|d: int|
        0 <= d < out.skeletons@.len() ==> crate::models::pose::are_parameters(
            &(Matrices { ops, zero, one }),
            out.skeletons@[d],
            target,
            (#[trigger] converted[d])@,
        )
    &&& crate::models::forward::is_forward(
        ops,
        zero,
        one,
        model,
        coefficients,
        Some(converted),
        target,
        again,
    )
}

/// The operations are functions, and exact in the numbers that `value` stands for.
pub open spec fn poses_exactly<T, O: EndpointOps<T>>(
    ops: &O,
    zero: T,
    one: T,
    value: spec_fn(T) -> real,
) -> bool {
    &&& crate::models::outcome_laws::poses_one(ops)
    &&& crate::scalar::is_exact(ops, value)
    &&& crate::models::turn_laws::turns_exactly(ops, value)
    &&& value(zero) == 0 as real
    &&& value(one) == 1 as real
}

/// The transform of a bone comes back.
proof fn lemma_bone_returns<T: Copy, O: EndpointOps<T> + MotionOps<T>>(
    ops: &O,
    zero: T,
    one: T,
    model: Model<T>,
    coefficients: Seq<Vec<T>>,
    pose: Option<Seq<Vec<[[T; 4]; 4]>>>,
    mode: PoseParameterization,
    out: ForwardOutput<T>,
    target: PoseParameterization,
    converted: Seq<Vec<[[T; 4]; 4]>>,
    again: ForwardOutput<T>,
    value: spec_fn(T) -> real,
    d: int,
    j: int,
)
    requires
        model.wf(),
        poses_exactly(ops, zero, one, value),
        crate::models::rest_laws::rolls_turn(value, model.bone_rolls_rotmat@),
        pose_is_rigid(value, pose),
        crate::models::pose_laws::roots_agree(model.figure.bone_parents@, mode, target),
        are_posed_again(
            ops,
            zero,
            one,
            model,
            coefficients,
            pose,
            mode,
            out,
            target,
            converted,
            again,
        ),
        0 <= d < coefficients.len(),
        0 <= j < model.figure.bone_labels@.len(),
    ensures
        crate::models::motions::motion_of(
            value,
            crate::rotation::rows4(out.skeletons@[d].transforms@[j]),
        ) == crate::models::motions::motion_of(
            value,
            crate::rotation::rows4(again.skeletons@[d].transforms@[j]),
        ),
{
    let given = Some(converted);
    let bones = model.figure.bone_labels@.len() as int;
    let parents = model.figure.bone_parents@;
    let (heads, tails) = choose|heads: Seq<Vec<[T; 3]>>, tails: Seq<Vec<[T; 3]>>|
        {
            &&& #[trigger] crate::models::forward::are_shaped(
                ops,
                zero,
                model.template_bone_heads@,
                model.bone_heads_blendshapes@,
                coefficients,
                heads,
            )
            &&& #[trigger] crate::models::forward::are_shaped(
                ops,
                zero,
                model.template_bone_tails@,
                model.bone_tails_blendshapes@,
                coefficients,
                tails,
            )
            &&& forall|b: int|
                0 <= b < out.skeletons@.len() ==> crate::models::forward::is_posed_element(
                    ops,
                    zero,
                    one,
                    model,
                    mode,
                    heads[b]@,
                    tails[b]@,
                    pose,
                    b,
                    #[trigger] out.skeletons@[b],
                )
        };
    let (heads2, tails2) = choose|heads: Seq<Vec<[T; 3]>>, tails: Seq<Vec<[T; 3]>>|
        {
            &&& #[trigger] crate::models::forward::are_shaped(
                ops,
                zero,
                model.template_bone_heads@,
                model.bone_heads_blendshapes@,
                coefficients,
                heads,
            )
            &&& #[trigger] crate::models::forward::are_shaped(
                ops,
                zero,
                model.template_bone_tails@,
                model.bone_tails_blendshapes@,
                coefficients,
                tails,
            )
            &&& forall|b: int|
                0 <= b < again.skeletons@.len() ==> crate::models::forward::is_posed_element(
                    ops,
                    zero,
                    one,
                    model,
                    target,
                    heads[b]@,
                    tails[b]@,
                    given,
                    b,
                    #[trigger] again.skeletons@[b],
                )
        };
    crate::models::outcome_laws::law_one_shape(
        ops,
        zero,
        model.template_bone_heads@,
        model.bone_heads_blendshapes@,
        coefficients,
        heads,
        heads2,
        d,
    );
    crate::models::outcome_laws::law_one_shape(
        ops,
        zero,
        model.template_bone_tails@,
        model.bone_tails_blendshapes@,
        coefficients,
        tails,
        tails2,
        d,
    );
    let s = out.skeletons@[d];
    let t = again.skeletons@[d];
    assert(crate::models::forward::is_posed_element(
        ops,
        zero,
        one,
        model,
        mode,
        heads[d]@,
        tails[d]@,
        pose,
        d,
        s,
    ));
    let (rest, params, identity) = lemma_element(
        ops,
        zero,
        one,
        model,
        mode,
        heads[d]@,
        tails[d]@,
        pose,
        d,
        s,
    );
    assert(crate::models::forward::is_posed_element(
        ops,
        zero,
        one,
        model,
        target,
        heads2[d]@,
        tails2[d]@,
        given,
        d,
        t,
    ));
    let (rest2, params2, identity2) = lemma_element(
        ops,
        zero,
        one,
        model,
        target,
        heads2[d]@,
        tails2[d]@,
        given,
        d,
        t,
    );
    crate::models::outcome_laws::law_one_rest(
        ops,
        zero,
        one,
        model.bone_rolls_rotmat@,
        heads[d]@,
        tails[d]@,
        rest,
        rest2,
    );
    crate::models::outcome_laws::lemma_one_array(identity, identity2);
    assert(params2 == converted[d]@);
    assert(heads[d]@.len() == bones);
    assert(rest.len() == bones);
    assert(parents.len() == bones);
    assert(params.len() == bones) by {
        if pose is Some {
            assert(pose->0[d]@.len() == bones);
        }
    }
    assert forall|i: int| 0 <= i < rest.len() implies crate::models::motions::is_rigid(
        value,
        crate::rotation::rows4(#[trigger] rest[i]),
    ) by {
        lemma_rest_rigid(
            ops,
            zero,
            one,
            model.bone_rolls_rotmat@,
            heads[d]@,
            tails[d]@,
            rest,
            value,
            i,
        );
    }
    assert forall|i: int| 0 <= i < params.len() implies crate::models::motions::is_rigid(
        value,
        crate::rotation::rows4(#[trigger] params[i]),
    ) by {
        if pose is None {
            lemma_identity_rigid(value, zero, one, crate::rotation::rows4(params[i]));
        } else {
            assert(params[i] == pose->0[d]@[i]);
        }
    }
    crate::models::motions::law_skeletons_round_trip(
        ops,
        zero,
        one,
        parents,
        rest,
        mode,
        params,
        identity,
        s,
        target,
        converted[d]@,
        t,
        value,
        j,
    );
}

/// What a posed element was posed from.
proof fn lemma_element<T: Copy, O: EndpointOps<T>>(
    ops: &O,
    zero: T,
    one: T,
    model: Model<T>,
    mode: PoseParameterization,
    heads: Seq<[T; 3]>,
    tails: Seq<[T; 3]>,
    pose: Option<Seq<Vec<[[T; 4]; 4]>>>,
    b: int,
    s: PoseState<[[T; 4]; 4]>,
) -> (r: (Seq<[[T; 4]; 4]>, Seq<[[T; 4]; 4]>, [[T; 4]; 4]))
    requires
        crate::models::forward::is_posed_element(
            ops,
            zero,
            one,
            model,
            mode,
            heads,
            tails,
            pose,
            b,
            s,
        ),
    ensures
        crate::models::forward::are_rest_poses(
            ops,
            zero,
            one,
            model.bone_rolls_rotmat@,
            heads,
            tails,
            r.0,
        ),
        crate::models::forward::are_pose_parameters(
            zero,
            one,
            pose,
            model.figure.bone_labels@.len() as int,
            b,
            r.1,
        ),
        crate::rotation::rows4(r.2) =~~= crate::rotation::identity_rows(zero, one),
        crate::models::pose::is_posed(
            &(Matrices { ops, zero, one }),
            mode,
            model.figure.bone_parents@,
            r.0,
            r.1,
            r.2,
            s,
        ),
{
    let (rest, params, identity) = choose|
        rest: Vec<[[T; 4]; 4]>,
        params: Vec<[[T; 4]; 4]>,
        identity: [[T; 4]; 4],
    |
        {
            &&& #[trigger] crate::models::forward::are_rest_poses(
                ops,
                zero,
                one,
                model.bone_rolls_rotmat@,
                heads,
                tails,
                rest@,
            )
            &&& #[trigger] crate::models::forward::are_pose_parameters(
                zero,
                one,
                pose,
                model.figure.bone_labels@.len() as int,
                b,
                params@,
            )
            &&& crate::rotation::rows4(identity) =~~= crate::rotation::identity_rows(zero, one)
            &&& #[trigger] crate::models::pose::is_posed(
                &(Matrices { ops, zero, one }),
                mode,
                model.figure.bone_parents@,
                rest@,
                params@,
                identity,
                s,
            )
        };
    (rest@, params@, identity)
}

/// In exact arithmetic a body comes back where parameters are taken from it under
/// any parameterization and pose it again: every vertex is in its place. Where
/// dual quaternions move the vertices, this holds as far as the mixture of the
/// transforms turns. With several roots it holds where both parameterizations treat
/// the first root apart, or neither does, and of absolute poses.
pub proof fn law_bodies_round_trip<T: Copy, O: EndpointOps<T> + MotionOps<T>>(
    ops: &O,
    zero: T,
    one: T,
    model: Model<T>,
    coefficients: Seq<Vec<T>>,
    pose: Option<Seq<Vec<[[T; 4]; 4]>>>,
    mode: PoseParameterization,
    out: ForwardOutput<T>,
    target: PoseParameterization,
    converted: Seq<Vec<[[T; 4]; 4]>>,
    again: ForwardOutput<T>,
    value: spec_fn(T) -> real,
    b: int,
    i: int,
    c: int,
)
    requires
        model.wf(),
        poses_exactly(ops, zero, one, value),
        crate::models::rest_laws::rolls_turn(value, model.bone_rolls_rotmat@),
        pose_is_rigid(value, pose),
        crate::models::pose_laws::roots_agree(model.figure.bone_parents@, mode, target),
        are_posed_again(
            ops,
            zero,
            one,
            model,
            coefficients,
            pose,
            mode,
            out,
            target,
            converted,
            again,
        ),
        0 <= b < coefficients.len(),
        0 <= i < model.figure.template_vertices@.len(),
        0 <= c < 3,
        model.figure.skinning_method == SkinningMethod::Dqs
            ==> crate::skinning::dual_laws::moves_exactly(ops, value)
            && crate::skinning::alike_laws::mixture_turns(
            ops,
            zero,
            one,
            model.figure.vertex_bones.weights@[i]@,
            crate::skinning::gathered(
                crate::models::forward::transforms_of(out.skeletons@),
                model.figure.bone_labels@.len() as int,
                b,
                model.figure.vertex_bones.indices@[i]@,
            ),
            value,
        ),
    ensures
        value(again.vertices@[b]@[i]@[c]) == value(out.vertices@[b]@[i]@[c]),
{
    let k = model.figure.bone_labels@.len() as int;
    let size = coefficients.len() as int;
    let table = model.figure.vertex_bones;
    let weights = table.weights@[i]@;
    let bones = table.indices@[i]@;
    let first = crate::models::forward::transforms_of(out.skeletons@);
    let second = crate::models::forward::transforms_of(again.skeletons@);
    let ms = crate::skinning::gathered(first, k, b, bones);
    let ns = crate::skinning::gathered(second, k, b, bones);
    assert(crate::skinning::bones_within(bones, k, b, size));
    assert forall|s: int| 0 <= s < ms.len() implies crate::models::motions::motion_of(
        value,
        crate::rotation::rows4(#[trigger] ms[s]),
    ) == crate::models::motions::motion_of(value, crate::rotation::rows4(ns[s])) by {
        let at = b * k + bones[s];
        assert(b * k + bones[s] < size * k);
        assert(b * k >= 0) by (nonlinear_arith)
            requires
                b >= 0,
                k >= 0,
        ;
        let d = at / k;
        assert(0 <= d < size && 0 <= at % k < k) by (nonlinear_arith)
            requires
                0 <= at < size * k,
                d == at / k,
                k > 0,
        ;
        assert(first[d] == out.skeletons@[d].transforms);
        assert(second[d] == again.skeletons@[d].transforms);
        lemma_bone_returns(
            ops,
            zero,
            one,
            model,
            coefficients,
            pose,
            mode,
            out,
            target,
            converted,
            again,
            value,
            d,
            at % k,
        );
    }
    assert(crate::models::round_trip_laws::same_motions(value, ms, ns));
    crate::models::outcome_laws::law_one_shape(
        ops,
        zero,
        model.figure.template_vertices@,
        model.blendshapes@,
        coefficients,
        out.rest_vertices@,
        again.rest_vertices@,
        b,
    );
    let p = out.rest_vertices@[b]@[i];
    let x = out.vertices@[b]@[i];
    let y = again.vertices@[b]@[i];
    assert(again.rest_vertices@[b]@[i] == p);
    assert(crate::models::forward::is_moved_vertex(
        ops,
        zero,
        one,
        model,
        out.rest_vertices@,
        first,
        b,
        i,
        x,
    ));
    assert(crate::models::forward::is_moved_vertex(
        ops,
        zero,
        one,
        model,
        again.rest_vertices@,
        second,
        b,
        i,
        y,
    ));
    assert(weights.len() == bones.len());
    match model.figure.skinning_method {
        SkinningMethod::Lbs => {
            crate::models::round_trip_laws::law_same_motions_same_place(
                ops,
                zero,
                one,
                weights,
                ms,
                ns,
                p@,
                x@,
                y@,
                value,
            );
        },
        SkinningMethod::Dqs => {
            crate::models::round_trip_laws::lemma_same_matrices(value, ms, ns);
            crate::skinning::alike_laws::law_same_matrices_same_place(
                ops,
                zero,
                one,
                weights,
                ms,
                ns,
                p,
                x,
                y,
                value,
            );
        },
    }
    assert(c == 0 || c == 1 || c == 2);
}

} // verus!
