//! What a body at rest comes to in exact arithmetic.
use vstd::prelude::*;

use crate::kinematics::bone_poses::{BoneSteps, EndpointOps};
use crate::models::body::{BodySources, BuildSteps, Measures, Model};
use crate::models::forward::ForwardOutput;
use crate::models::full_model::{ModelOptions, SkinningMethod};
use crate::models::matrices::{Matrices, NoFailure};
use crate::models::pose::{PoseParameterization, PoseState, ResolvedParameterization};
use crate::phenotype::{PhenotypeAnchors, PhenotypeValues};
use crate::rotation::AngleOps;
use crate::scalar::{Arithmetic, Division, Signs};
use crate::skinning::MotionOps;
use crate::utils::mean::MeanOps;

verus! {

/// The entries of the identity.
pub open spec fn unit(r: int, c: int) -> real {
    if r == c {
        1 as real
    } else {
        0 as real
    }
}

/// The matrix has the entries of the identity.
pub open spec fn is_unit<T>(value: spec_fn(T) -> real, m: Seq<Seq<T>>) -> bool {
    forall|r: int, c: int| 0 <= r < 4 && 0 <= c < 4 ==> value(#[trigger] m[r][c]) == unit(r, c)
}

/// The matrices have the same entries.
pub open spec fn same_entries<T>(
    value: spec_fn(T) -> real,
    a: Seq<Seq<T>>,
    b: Seq<Seq<T>>,
) -> bool {
    forall|r: int, c: int|
        0 <= r < 4 && 0 <= c < 4 ==> value(#[trigger] a[r][c]) == value(b[r][c])
}

/// In exact arithmetic the entries of a product are those of matrix algebra.
pub proof fn law_exact_matrix_product<T, O: Arithmetic<T>>(
    ops: &O,
    zero: T,
    a: Seq<Seq<T>>,
    b: Seq<Seq<T>>,
    r: Seq<Seq<T>>,
    value: spec_fn(T) -> real,
    i: int,
    j: int,
)
    requires
        crate::scalar::is_exact(ops, value),
        value(zero) == 0 as real,
        crate::models::matrices::is_matrix_product(ops, zero, a, b, r),
        0 <= i < 4,
        0 <= j < 4,
    ensures
        value(r[i][j]) == crate::rotation_laws::composed(value, a, b, i, j),
{
    let terms = crate::models::matrices::product_terms(a, b, i, j);
    crate::utils::blend::law_exact_blend(ops, zero, terms, r[i][j], value);
    let three = terms.drop_last();
    let two = three.drop_last();
    let first = two.drop_last();
    assert(first.drop_last().len() == 0);
    assert(crate::utils::blend::exact_sum(value, first.drop_last()) == 0 as real);
    assert(crate::utils::blend::exact_sum(value, first) == value(a[i][0]) * value(b[0][j]));
    assert(crate::utils::blend::exact_sum(value, two) == value(a[i][0]) * value(b[0][j]) + value(
        a[i][1],
    ) * value(b[1][j]));
    assert(crate::utils::blend::exact_sum(value, three) == value(a[i][0]) * value(b[0][j]) + value(
        a[i][1],
    ) * value(b[1][j]) + value(a[i][2]) * value(b[2][j]));
}

proof fn lemma_select(w: real, x: real, y: real, z: real, k: int)
    requires
        0 <= k < 4,
    ensures
        w * unit(0, k) + x * unit(1, k) + y * unit(2, k) + z * unit(3, k) == if k == 0 {
            w
        } else if k == 1 {
            x
        } else if k == 2 {
            y
        } else {
            z
        },
        unit(k, 0) * w + unit(k, 1) * x + unit(k, 2) * y + unit(k, 3) * z == if k == 0 {
            w
        } else if k == 1 {
            x
        } else if k == 2 {
            y
        } else {
            z
        },
{
    let o = 0 as real;
    let e = 1 as real;
    assert(w * o == o && x * o == o && y * o == o && z * o == o) by (nonlinear_arith)
        requires
            o == 0 as real,
    ;
    assert(w * e == w && x * e == x && y * e == y && z * e == z) by (nonlinear_arith)
        requires
            e == 1 as real,
    ;
    assert(o * w == o && o * x == o && o * y == o && o * z == o) by (nonlinear_arith)
        requires
            o == 0 as real,
    ;
    assert(e * w == w && e * x == x && e * y == y && e * z == z) by (nonlinear_arith)
        requires
            e == 1 as real,
    ;
}

proof fn lemma_times_unit<T, O: Arithmetic<T>>(
    ops: &O,
    zero: T,
    a: Seq<Seq<T>>,
    b: Seq<Seq<T>>,
    r: Seq<Seq<T>>,
    value: spec_fn(T) -> real,
)
    requires
        crate::scalar::is_exact(ops, value),
        value(zero) == 0 as real,
        crate::models::matrices::is_matrix_product(ops, zero, a, b, r),
    ensures
        is_unit(value, b) ==> same_entries(value, r, a),
        is_unit(value, a) ==> same_entries(value, r, b),
{
    if is_unit(value, b) {
        assert forall|i: int, j: int| 0 <= i < 4 && 0 <= j < 4 implies value(#[trigger] r[i][j])
            == value(a[i][j]) by {
            law_exact_matrix_product(ops, zero, a, b, r, value, i, j);
            lemma_select(value(a[i][0]), value(a[i][1]), value(a[i][2]), value(a[i][3]), j);
            assert(value(b[0][j]) == unit(0, j) && value(b[1][j]) == unit(1, j));
            assert(value(b[2][j]) == unit(2, j) && value(b[3][j]) == unit(3, j));
        }
    }
    if is_unit(value, a) {
        assert forall|i: int, j: int| 0 <= i < 4 && 0 <= j < 4 implies value(#[trigger] r[i][j])
            == value(b[i][j]) by {
            law_exact_matrix_product(ops, zero, a, b, r, value, i, j);
            lemma_select(value(b[0][j]), value(b[1][j]), value(b[2][j]), value(b[3][j]), i);
            assert(value(a[i][0]) == unit(i, 0) && value(a[i][1]) == unit(i, 1));
            assert(value(a[i][2]) == unit(i, 2) && value(a[i][3]) == unit(i, 3));
        }
    }
}

/// The matrix is the rigid transform with a rotation and a translation.
pub open spec fn is_rigid<T>(value: spec_fn(T) -> real, zero: T, one: T, h: Seq<Seq<T>>) -> bool {
    &&& h[3] == seq![zero, zero, zero, one]
    &&& crate::rotation_laws::is_rotation(value, crate::rotation::linear_part(h))
}

/// In exact arithmetic identity deltas leave every bone at rest: its pose is
/// its rest pose, and its transform the identity.
pub proof fn law_identities_keep_rest<T: Copy, O: Arithmetic<T>>(
    ops: &O,
    zero: T,
    one: T,
    parents: Seq<i64>,
    rest: Seq<[[T; 4]; 4]>,
    delta: Seq<[[T; 4]; 4]>,
    poses: Seq<[[T; 4]; 4]>,
    transforms: Seq<[[T; 4]; 4]>,
    value: spec_fn(T) -> real,
    b: int,
)
    requires
        crate::scalar::is_exact(ops, value),
        value(zero) == 0 as real,
        value(one) == 1 as real,
        parents.len() == rest.len(),
        forall|i: int| 0 <= i < parents.len() ==> #[trigger] parents[i] < i,
        forall|i: int|
            0 <= i < rest.len() ==> is_rigid(
                value,
                zero,
                one,
                crate::rotation::rows4(#[trigger] rest[i]),
            ),
        forall|i: int|
            0 <= i < rest.len() ==> is_unit(value, crate::rotation::rows4(#[trigger] delta[i])),
        crate::kinematics::all_posed(
            &(Matrices { ops, zero, one }),
            parents,
            rest,
            delta,
            None,
            poses,
            transforms,
        ),
        0 <= b < rest.len(),
    ensures
        same_entries(
            value,
            crate::rotation::rows4(poses[b]),
            crate::rotation::rows4(rest[b]),
        ),
        is_unit(value, crate::rotation::rows4(transforms[b])),
    decreases b,
{
    let matrices = Matrices { ops, zero, one };
    let above = crate::kinematics::above_bone(parents[b], None, transforms);
    assert(crate::kinematics::bone_posed(
        &matrices,
        rest[b],
        delta[b],
        above,
        poses[b],
        transforms[b],
    ));
    let (t, i) = choose|t: [[T; 4]; 4], i: [[T; 4]; 4]| #[trigger]
        crate::kinematics::product::<[[T; 4]; 4], NoFailure, Matrices<T, O>>(
            &matrices,
            rest[b],
            delta[b],
            t,
        ) && #[trigger] crate::kinematics::inverse_of::<[[T; 4]; 4], NoFailure, Matrices<T, O>>(
            &matrices,
            rest[b],
            i,
        ) && crate::kinematics::bone_step(&matrices, above, t, i, poses[b], transforms[b]);
    let home = crate::rotation::rows4(rest[b]);
    let turned = crate::rotation::rows4(t);
    let back = crate::rotation::rows4(i);
    let pose = crate::rotation::rows4(poses[b]);
    let transform = crate::rotation::rows4(transforms[b]);
    assert(is_unit(value, crate::rotation::rows4(delta[b])));
    assert(is_rigid(value, zero, one, home));
    lemma_times_unit(ops, zero, home, crate::rotation::rows4(delta[b]), turned, value);
    if parents[b] >= 0 {
        law_identities_keep_rest(
            ops,
            zero,
            one,
            parents,
            rest,
            delta,
            poses,
            transforms,
            value,
            parents[b] as int,
        );
        let up = crate::rotation::rows4(transforms[parents[b] as int]);
        lemma_times_unit(ops, zero, up, turned, pose, value);
    }
    assert forall|r: int, c: int| 0 <= r < 4 && 0 <= c < 4 implies value(#[trigger] pose[r][c])
        == value(home[r][c]) by {
        assert(value(pose[r][c]) == value(turned[r][c]));
        assert(value(turned[r][c]) == value(home[r][c]));
    }
    assert forall|r: int, c: int| 0 <= r < 4 && 0 <= c < 4 implies value(
        #[trigger] transform[r][c],
    ) == unit(r, c) by {
        law_exact_matrix_product(ops, zero, pose, back, transform, value, r, c);
        crate::rotation_laws::law_rigid_inverse(ops, home, zero, one, back, value, r, c);
        assert(value(pose[r][0]) == value(home[r][0]) && value(pose[r][1]) == value(home[r][1]));
        assert(value(pose[r][2]) == value(home[r][2]) && value(pose[r][3]) == value(home[r][3]));
    }
}

/// The rolls of the bones turn without stretching.
pub open spec fn rolls_turn<T>(value: spec_fn(T) -> real, rolls: Seq<[[T; 3]; 3]>) -> bool {
    forall|j: int|
        0 <= j < rolls.len() ==> crate::models::motions::is_orthogonal(
            crate::models::turn_laws::turn_of(
                value,
                crate::rotation::rows3(#[trigger] rolls[j]),
            ),
        )
}

/// An orthogonal matrix has rows of length 1 at right angles.
proof fn lemma_orthogonal_rows<T>(value: spec_fn(T) -> real, h: Seq<Seq<T>>)
    requires
        h.len() == 4,
        h[0].len() == 4,
        h[1].len() == 4,
        h[2].len() == 4,
        crate::models::motions::is_rigid(value, h),
    ensures
        crate::rotation_laws::is_rotation(value, crate::rotation::linear_part(h)),
{
    let linear = crate::rotation::linear_part(h);
    let t = crate::models::motions::motion_of(value, h).turn;
    let back = crate::models::motions::transposed(t);
    let p = crate::models::motions::turns(t, back);
    assert(crate::models::motions::transposed(back) == t);
    assert(p == crate::models::motions::straight());
    assert forall|r: int, c: int| 0 <= r < 3 && 0 <= c < 3 implies crate::rotation_laws::inner(
        value,
        #[trigger] linear[r],
        #[trigger] linear[c],
    ) == if r == c {
        1 as real
    } else {
        0 as real
    } by {
        assert(linear[0] =~= h[0].take(3) && linear[1] =~= h[1].take(3) && linear[2] =~= h[2].take(
            3,
        ));
        assert(r == 0 || r == 1 || r == 2);
        assert(c == 0 || c == 1 || c == 2);
        assert(p.x.x == crate::models::motions::dot(t.x, t.x));
        assert(p.x.y == crate::models::motions::dot(t.x, t.y));
        assert(p.x.z == crate::models::motions::dot(t.x, t.z));
        assert(p.y.x == crate::models::motions::dot(t.y, t.x));
        assert(p.y.y == crate::models::motions::dot(t.y, t.y));
        assert(p.y.z == crate::models::motions::dot(t.y, t.z));
        assert(p.z.x == crate::models::motions::dot(t.z, t.x));
        assert(p.z.y == crate::models::motions::dot(t.z, t.y));
        assert(p.z.z == crate::models::motions::dot(t.z, t.z));
    }
}

proof fn lemma_element_at_rest<T: Copy, O: EndpointOps<T>>(
    ops: &O,
    zero: T,
    one: T,
    model: Model<T>,
    heads: Seq<[T; 3]>,
    tails: Seq<[T; 3]>,
    b: int,
    s: PoseState<[[T; 4]; 4]>,
    value: spec_fn(T) -> real,
)
    requires
        model.wf(),
        heads.len() == model.figure.bone_labels@.len(),
        crate::models::forward::is_posed_element(
            ops,
            zero,
            one,
            model,
            PoseParameterization::RestRelative,
            heads,
            tails,
            None,
            b,
            s,
        ),
        crate::scalar::is_exact(ops, value),
        value(zero) == 0 as real,
        crate::models::turn_laws::turns_exactly(ops, value),
        value(one) == 1 as real,
        rolls_turn(value, model.bone_rolls_rotmat@),
    ensures
        s.transforms@.len() == model.figure.bone_labels@.len(),
        forall|j: int|
            0 <= j < s.transforms@.len() ==> is_unit(
                value,
                crate::rotation::rows4(#[trigger] s.transforms@[j]),
            ),
{
    let matrices = Matrices { ops, zero, one };
    let mode = PoseParameterization::RestRelative;
    let bones = model.figure.bone_labels@.len() as int;
    let none: Option<Seq<Vec<[[T; 4]; 4]>>> = None;
    let (rest, params, identity) = choose|
        rest: Vec<[[T; 4]; 4]>,
        params: Vec<[[T; 4]; 4]>,
        identity: [[T; 4]; 4],
    |
        {
            &&& #[trigger] crate::models::forward::are_rest_poses(
                ops,
                zero,
                one,
                model.bone_rolls_rotmat@,
                heads,
                tails,
                rest@,
            )
            &&& #[trigger] crate::models::forward::are_pose_parameters(
                zero,
                one,
                none,
                bones,
                b,
                params@,
            )
            &&& crate::rotation::rows4(identity) =~~= crate::rotation::identity_rows(zero, one)
            &&& #[trigger] crate::models::pose::is_posed(
                &matrices,
                mode,
                model.figure.bone_parents@,
                rest@,
                params@,
                identity,
                s,
            )
        };
    let parents = model.figure.bone_parents@;
    let r = choose|r: ResolvedParameterization<[[T; 4]; 4]>|
        {
            &&& #[trigger] crate::models::pose::is_resolved(
                &matrices,
                mode,
                parents,
                rest@,
                params@,
                identity,
                r,
            )
            &&& s.rest@ == rest@
            &&& s.delta == r.delta_transforms
            &&& s.base == r.base_transform
            &&& match r.bone_overrides {
                Some(fk) => s.transforms == fk.transforms && s.poses == fk.poses,
                None => crate::kinematics::all_posed(
                    &matrices,
                    parents,
                    rest@,
                    s.delta@,
                    s.base,
                    s.poses@,
                    s.transforms@,
                ),
            }
        };
    assert(s.delta@ == params@ && s.base is None);
    assert(parents.len() == bones);
    assert(rest@.len() == bones);
    assert forall|j: int| 0 <= j < rest@.len() implies is_rigid(
        value,
        zero,
        one,
        crate::rotation::rows4(#[trigger] rest@[j]),
    ) by {
        let (axis, over) = choose|axis: [T; 3], over: [[T; 3]; 3]|
            {
                &&& #[trigger] crate::models::forward::own_axis(zero, one, axis)
                &&& #[trigger] crate::models::forward::is_turned_over(ops, zero, one, over)
                &&& rest@.len() == heads.len()
                &&& forall|i: int|
                    0 <= i < rest@.len() ==> crate::kinematics::bone_poses::is_bone_pose(
                        ops,
                        heads[i],
                        tails[i],
                        model.bone_rolls_rotmat@[i],
                        axis,
                        over,
                        zero,
                        one,
                        crate::rotation::rows4(#[trigger] rest@[i]),
                    )
            };
        let home = crate::rotation::rows4(rest@[j]);
        let steps = choose|steps: BoneSteps<T>| #[trigger]
            crate::kinematics::bone_poses::are_bone_steps(
                ops,
                heads[j],
                tails[j],
                model.bone_rolls_rotmat@[j],
                axis,
                over,
                zero,
                one,
                steps,
            ) && home =~~= crate::rotation::homogeneous(
                crate::rotation::rows3(steps.rotation),
                heads[j]@,
                zero,
                one,
            );
        assert(home == crate::rotation::homogeneous(
            crate::rotation::rows3(steps.rotation),
            heads[j]@,
            zero,
            one,
        ));
        crate::models::turn_laws::law_turned_over_orthogonal(ops, zero, one, over, value);
        crate::models::turn_laws::law_rest_poses_orthogonal(
            ops,
            heads[j],
            tails[j],
            model.bone_rolls_rotmat@[j],
            axis,
            over,
            zero,
            one,
            home,
            value,
        );
        lemma_orthogonal_rows(value, home);
    }
    assert forall|j: int| 0 <= j < rest@.len() implies is_unit(
        value,
        crate::rotation::rows4(#[trigger] s.delta@[j]),
    ) by {
        let d = crate::rotation::rows4(params@[j]);
        assert(d =~~= crate::rotation::identity_rows(zero, one));
        assert(d == crate::rotation::identity_rows(zero, one));
    }
    assert forall|j: int| 0 <= j < s.transforms@.len() implies is_unit(
        value,
        crate::rotation::rows4(#[trigger] s.transforms@[j]),
    ) by {
        law_identities_keep_rest(
            ops,
            zero,
            one,
            parents,
            rest@,
            s.delta@,
            s.poses@,
            s.transforms@,
            value,
            j,
        );
    }
}

/// The rotation and the shift of the identity leave a point in place.
proof fn lemma_unit_keeps<T>(
    value: spec_fn(T) -> real,
    h: Seq<Seq<T>>,
    p: Seq<T>,
)
    requires
        h.len() == 4,
        forall|r: int| 0 <= r < 4 ==> (#[trigger] h[r]).len() == 4,
        is_unit(value, h),
    ensures
        crate::unit_quaternion_laws::has_unit_rows(
            crate::unit_quaternion_laws::matrix(value, crate::rotation::linear_part(h)),
        ),
        crate::unit_quaternion_laws::determinant(
            crate::unit_quaternion_laws::matrix(value, crate::rotation::linear_part(h)),
        ) == 1 as real,
        forall|c: int|
            0 <= c < 3 ==> crate::rotation_laws::inner(
                value,
                #[trigger] crate::rotation::linear_part(h)[c],
                p,
            ) + value(crate::rotation::translation_part(h)[c]) == value(p[c]),
{
    let (o, e) = (0 as real, 1 as real);
    assert(o * o == o && o * e == o && e * o == o && e * e == e) by (nonlinear_arith)
        requires
            o == 0 as real,
            e == 1 as real,
    ;
    let (x, y, z) = (value(p[0]), value(p[1]), value(p[2]));
    assert(e * x == x && o * x == o) by (nonlinear_arith)
        requires
            o == 0 as real,
            e == 1 as real,
    ;
    assert(e * y == y && o * y == o) by (nonlinear_arith)
        requires
            o == 0 as real,
            e == 1 as real,
    ;
    assert(e * z == z && o * z == o) by (nonlinear_arith)
        requires
            o == 0 as real,
            e == 1 as real,
    ;
    assert(value(h[0][0]) == e && value(h[0][1]) == o && value(h[0][2]) == o && value(h[0][3]) == o);
    assert(value(h[1][0]) == o && value(h[1][1]) == e && value(h[1][2]) == o && value(h[1][3]) == o);
    assert(value(h[2][0]) == o && value(h[2][1]) == o && value(h[2][2]) == e && value(h[2][3]) == o);
    let m = crate::unit_quaternion_laws::matrix(value, crate::rotation::linear_part(h));
    assert(m.xx == e && m.xy == o && m.xz == o);
    assert(m.yx == o && m.yy == e && m.yz == o);
    assert(m.zx == o && m.zy == o && m.zz == e);
    assert forall|c: int| 0 <= c < 3 implies crate::rotation_laws::inner(
        value,
        #[trigger] crate::rotation::linear_part(h)[c],
        p,
    ) + value(crate::rotation::translation_part(h)[c]) == value(p[c]) by {
        assert(c == 0 || c == 1 || c == 2);
    }
}

/// In exact arithmetic a body without pose parameters, taken relative to its
/// rest pose, keeps its rest vertices, where the weights of each vertex sum
/// to 1.
pub proof fn law_rest_pose_keeps_vertices<
    T: Copy,
    O: EndpointOps<T> + MotionOps<T>,
>(
    ops: &O,
    third: T,
    zero: T,
    one: T,
    model: Model<T>,
    values: PhenotypeValues<Vec<T>>,
    changes: Seq<(String, Vec<T>)>,
    out: ForwardOutput<T>,
    value: spec_fn(T) -> real,
    b: int,
    i: int,
    c: int,
)
    requires
        model.wf(),
        crate::models::forward::forward_outcome(
            ops,
            third,
            zero,
            one,
            model,
            None,
            values,
            changes,
            Some(PoseParameterization::RestRelative),
            Ok(out),
        ),
        crate::scalar::is_exact(ops, value),
        model.figure.skinning_method == SkinningMethod::Dqs
            ==> crate::skinning::dual_laws::moves_exactly(ops, value),
        value(zero) == 0 as real,
        value(one) == 1 as real,
        crate::models::turn_laws::turns_exactly(ops, value),
        rolls_turn(value, model.bone_rolls_rotmat@),
        0 <= b < out.vertices@.len(),
        0 <= i < model.figure.template_vertices@.len(),
        crate::utils::shares::exact_total(value, model.figure.vertex_bones.weights@[i]@)
            == 1 as real,
        0 <= c < 3,
    ensures
        value(out.vertices@[b]@[i]@[c]) == value(out.rest_vertices@[b]@[i]@[c]),
{
    let mode = PoseParameterization::RestRelative;
    let none: Option<Seq<Vec<[[T; 4]; 4]>>> = None;
    let coefficients = choose|coefficients: Vec<Vec<T>>| #[trigger]
        crate::models::forward::shape_outcome(
            ops,
            third,
            zero,
            one,
            model,
            values,
            changes,
            Ok(coefficients),
        ) && crate::models::forward::posed_outcome(
            ops,
            zero,
            one,
            model,
            coefficients@,
            none,
            mode,
            Ok(out),
        );
    let (heads, tails) = choose|heads: Seq<Vec<[T; 3]>>, tails: Seq<Vec<[T; 3]>>|
        {
            &&& #[trigger] crate::models::forward::are_shaped(
                ops,
                zero,
                model.template_bone_heads@,
                model.bone_heads_blendshapes@,
                coefficients@,
                heads,
            )
            &&& #[trigger] crate::models::forward::are_shaped(
                ops,
                zero,
                model.template_bone_tails@,
                model.bone_tails_blendshapes@,
                coefficients@,
                tails,
            )
            &&& forall|d: int|
                0 <= d < out.skeletons@.len() ==> crate::models::forward::is_posed_element(
                    ops,
                    zero,
                    one,
                    model,
                    mode,
                    heads[d]@,
                    tails[d]@,
                    none,
                    d,
                    #[trigger] out.skeletons@[d],
                )
        };
    let k = model.figure.bone_labels@.len() as int;
    let table = model.figure.vertex_bones;
    let transforms = crate::models::forward::transforms_of(out.skeletons@);
    let bones = table.indices@[i]@;
    let ms = crate::skinning::gathered(transforms, k, b, bones);
    let size = coefficients@.len() as int;
    assert(crate::skinning::bones_within(bones, k, b, size));
    assert forall|s: int, r: int, q: int| 0 <= s < ms.len() && 0 <= r < 4 && 0 <= q < 4 implies value(
        #[trigger] ms[s]@[r]@[q],
    ) == unit(r, q) by {
        let at = b * k + bones[s];
        assert(b * k + bones[s] < size * k);
        assert(b * k >= 0) by (nonlinear_arith)
            requires
                b >= 0,
                k >= 0,
        ;
        let d = at / k;
        assert(0 <= d < size && 0 <= at % k < k) by (nonlinear_arith)
            requires
                0 <= at < size * k,
                d == at / k,
                k > 0,
        ;
        let state = out.skeletons@[d];
        assert(heads[d]@.len() == model.template_bone_heads@.len());
        lemma_element_at_rest(ops, zero, one, model, heads[d]@, tails[d]@, d, state, value);
        let t = state.transforms@[at % k];
        assert(transforms[d] == state.transforms);
        assert(ms[s] == t);
        assert(value(crate::rotation::rows4(t)[r][q]) == unit(r, q));
        assert(crate::rotation::rows4(t)[r] == t@[r]@);
    }
    let shared = |r: int, q: int| unit(r, q);
    assert(crate::skinning_laws::all_equal(value, ms, shared));
    assert(crate::models::forward::is_moved_vertex(
        ops,
        zero,
        one,
        model,
        out.rest_vertices@,
        transforms,
        b,
        i,
        out.vertices@[b]@[i],
    ));
    assert(table.weights@[i]@.len() == table.indices@[i]@.len());
    match model.figure.skinning_method {
        SkinningMethod::Lbs => {
            crate::skinning_laws::law_shared_transform(
                ops,
                zero,
                one,
                table.weights@[i]@,
                ms,
                out.rest_vertices@[b]@[i]@,
                out.vertices@[b]@[i]@,
                value,
                shared,
            );
        },
        SkinningMethod::Dqs => {
            assert(ms.len() > 0);
            let h = crate::rotation::rows4(ms[0]);
            assert forall|r: int, q: int| 0 <= r < 4 && 0 <= q < 4 implies value(
                #[trigger] h[r][q],
            ) == unit(r, q) by {
                assert(h[r] == ms[0]@[r]@);
            }
            let firsts = Seq::new(ms.len(), |s: int| ms[0]);
            assert forall|s: int, r: int, q: int|
                0 <= s < ms.len() && 0 <= r < 3 && 0 <= q < 4 implies value(
                #[trigger] ms[s]@[r]@[q],
            ) == value(firsts[s]@[r]@[q]) by {
                assert(value(ms[0]@[r]@[q]) == unit(r, q));
            }
            lemma_unit_keeps(value, h, out.rest_vertices@[b]@[i]@);
            crate::skinning::alike_laws::law_shared_motion(
                ops,
                zero,
                one,
                table.weights@[i]@,
                ms,
                out.rest_vertices@[b]@[i],
                out.vertices@[b]@[i],
                value,
            );
            assert(value(out.vertices@[b]@[i]@[c]) == crate::rotation_laws::inner(
                value,
                crate::rotation::linear_part(h)[c],
                out.rest_vertices@[b]@[i]@,
            ) + value(crate::rotation::translation_part(h)[c]));
        },
    }
}

proof fn lemma_roll_turns<T, O: AngleOps<T>>(
    ops: &O,
    zero: T,
    one: T,
    angle: T,
    m: [[T; 3]; 3],
    value: spec_fn(T) -> real,
)
    requires
        crate::scalar::is_exact(ops, value),
        crate::models::turn_laws::turns_exactly(ops, value),
        value(zero) == 0 as real,
        value(one) == 1 as real,
        crate::models::body::is_roll(ops, zero, one, angle, m),
    ensures
        crate::models::motions::is_orthogonal(
            crate::models::turn_laws::turn_of(value, crate::rotation::rows3(m)),
        ),
{
    let (c, s, n) = choose|c: T, s: T, n: T|
        {
            &&& #[trigger] call_ensures(O::cosine, (ops, angle), c)
            &&& #[trigger] call_ensures(O::sine, (ops, angle), s)
            &&& #[trigger] crate::scalar::negative_of(ops, s, n)
            &&& crate::rotation::rows3(m) =~~= crate::rotation::euler_entries(
                'y',
                c,
                s,
                n,
                zero,
                one,
            )->0
        };
    let rows = crate::rotation::rows3(m);
    assert(rows == crate::rotation::euler_entries('y', c, s, n, zero, one)->0);
    crate::models::turn_laws::law_euler_turns_about_axis('y', c, s, n, zero, one, value);
    let (o, e) = (0 as real, 1 as real);
    assert(o * o == o && e * e == e) by (nonlinear_arith)
        requires
            o == 0 as real,
            e == 1 as real,
    ;
    let y = crate::models::turn_laws::axis_of('y');
    assert(crate::models::motions::dot(y, y) == e);
    crate::models::turn_laws::law_rodrigues_orthogonal(value(c), value(s), y);
}

/// In exact arithmetic the rolls of a model that was built turn its bones
/// without stretching.
pub proof fn law_built_rolls_turn<
    T: Copy,
    O: Division<T> + Signs<T> + MeanOps<T> + AngleOps<T>,
>(
    ops: &O,
    measures: Measures<T>,
    opts: ModelOptions,
    sources: BodySources<T>,
    anchors: PhenotypeAnchors<T>,
    model: Model<T>,
    value: spec_fn(T) -> real,
)
    requires
        crate::models::body::build_outcome(ops, measures, opts, sources, anchors, Ok(model)),
        crate::scalar::is_exact(ops, value),
        crate::models::turn_laws::turns_exactly(ops, value),
        value(measures.zero) == 0 as real,
        value(measures.one) == 1 as real,
    ensures
        rolls_turn(value, model.bone_rolls_rotmat@),
{
    let s = choose|s: BuildSteps<T>| #[trigger]
        crate::models::body::is_model(ops, measures, opts, sources, anchors, s, model);
    let rolls = model.bone_rolls_rotmat@;
    assert forall|j: int| 0 <= j < rolls.len() implies crate::models::motions::is_orthogonal(
        crate::models::turn_laws::turn_of(value, crate::rotation::rows3(#[trigger] rolls[j])),
    ) by {
        lemma_roll_turns(
            ops,
            measures.zero,
            measures.one,
            model.figure.bone_rolls@[j],
            rolls[j],
            value,
        );
    }
}

} // verus!
