//! Which bone of the rig a bone of the model is, and how far it is rolled.
use vstd::prelude::*;

use crate::kinematics::bone_poses::{BoneSteps, EndpointOps};
use crate::models::body::{BodySources, BuildSteps, Measures, Model};
use crate::models::full_model::{ModelError, ModelOptions};
use crate::models::motions::{Shift, Turn};
use crate::models::rig::{BoneHierarchy, Bones, RigBoneJson, RigError, WeightsJson};
use crate::data::obj::ObjMesh;
use crate::phenotype::PhenotypeAnchors;
use crate::rotation::AngleOps;
use crate::scalar::{Division, Signs};
use crate::utils::mean::MeanOps;

verus! {

/// Every bone of a hierarchy is one of the rig: the one with its label, whose head
/// and tail vertices and whose roll it has.
pub proof fn law_bones_are_those_of_the_rig<R, S, T>(
    bones: Seq<(String, RigBoneJson<R>)>,
    mesh: ObjMesh<S>,
    names: Seq<Seq<char>>,
    before: WeightsJson<T>,
    after: WeightsJson<T>,
    h: BoneHierarchy<R>,
    j: int,
) -> (i: int)
    requires
        crate::models::rig::bone_names(bones).no_duplicates(),
        crate::models::rig::hierarchy_outcome(bones, mesh, names, before, after, Ok(h)),
        0 <= j < h.labels@.len(),
    ensures
        0 <= i < bones.len(),
        h.labels@[j]@ == bones[i].0@,
        h.rolls@[j] == bones[i].1.roll,
        crate::models::rig::regressor_vertices(bones[i].1.head, mesh, h.head_regressors@[j]@),
        crate::models::rig::regressor_vertices(bones[i].1.tail, mesh, h.tail_regressors@[j]@),
        !names.contains(h.labels@[j]@),
{
    let parent = crate::models::rig::parent_of(bones);
    let (order, up) = choose|order: Seq<usize>, up: Seq<i64>|
        #![trigger crate::models::rig::is_depth_first(parent, order, up)]
        crate::models::rig::is_depth_first(parent, order, up) && crate::models::rig::built(
            bones,
            mesh,
            names,
            before.table(),
            after.table(),
            Ok::<BoneHierarchy<R>, RigError>(h),
            order,
            up,
        );
    let start = choose|start: Bones<R, T>|
        #![trigger crate::models::rig::is_start(start, bones, mesh, order, up)]
        {
            &&& crate::models::rig::is_start(start, bones, mesh, order, up)
            &&& start.weights == before.table()
            &&& crate::models::rig::removals(start, names, names.len()) == Some(
                h.model(after.table()),
            )
        };
    let m = h.model(after.table());
    assert(crate::models::rig::topological(start.parents)) by {
        assert forall|k: int| 0 <= k < start.parents.len() implies -1
            <= #[trigger] start.parents[k] < k by {
            assert(start.parents[k] == up[k] as int);
        }
    }
    assert(start.labels.no_duplicates()) by {
        assert forall|a: int, b: int|
            0 <= a < b < start.labels.len() implies start.labels[a] != start.labels[b] by {
            let names = crate::models::rig::bone_names(bones);
            assert(order[a] != order[b]);
            assert(start.labels[a] == names[order[a] as int]);
            assert(start.labels[b] == names[order[b] as int]);
        }
    }
    crate::models::rig_laws::law_removals_labels(start, names, names.len(), m);
    assert(names.take(names.len() as int) =~= names);
    let label = m.labels[j];
    assert(label == h.labels@[j]@);
    crate::models::rig_laws::lemma_kept_members(start.labels, names);
    assert(m.labels.contains(label));
    assert(start.labels.contains(label));
    let k = choose|k: int| 0 <= k < start.labels.len() && start.labels[k] == label;
    crate::models::removal_laws::law_removals_keep_bones(start, names, names.len(), m, k, j);
    crate::models::rig_laws::law_removals_keep_topology(start, names, names.len(), m);
    assert(m.heads[j] == h.head_regressors@[j]@);
    assert(m.tails[j] == h.tail_regressors@[j]@);
    assert(crate::models::rig::regressor_vertices(
        crate::models::rig::regressor_at(bones, order, k),
        mesh,
        start.heads[k],
    ));
    assert(crate::models::rig::regressor_vertices(
        crate::models::rig::regressor_at(bones, order, order.len() + k),
        mesh,
        start.tails[k],
    ));
    order[k] as int
}

/// In exact arithmetic the roll of a bone is the turn about the second axis by the
/// angle that the rig gives for the bone of that label: it takes the first axis
/// to `(cos, 0, -sin)`, the third to `(sin, 0, cos)`, and leaves the second.
pub proof fn law_rolls_are_those_of_the_rig<
    T: Copy,
    O: Division<T> + Signs<T> + MeanOps<T> + AngleOps<T>,
>(
    ops: &O,
    measures: Measures<T>,
    opts: ModelOptions,
    sources: BodySources<T>,
    anchors: PhenotypeAnchors<T>,
    model: Model<T>,
    value: spec_fn(T) -> real,
    i: int,
    j: int,
) -> (turn: (T, T))
    requires
        call_ensures(
            Model::<T>::build::<O>,
            (&opts, &sources, anchors, &measures, ops),
            Ok::<Model<T>, ModelError>(model),
        ),
        crate::scalar::is_exact(ops, value),
        value(measures.zero) == 0 as real,
        value(measures.one) == 1 as real,
        crate::models::rig::bone_names(sources.rig@).no_duplicates(),
        0 <= i < sources.rig@.len(),
        0 <= j < model.figure.bone_labels@.len(),
        model.figure.bone_labels@[j]@ == sources.rig@[i].0@,
    ensures
        call_ensures(O::cosine, (ops, sources.rig@[i].1.roll), turn.0),
        call_ensures(O::sine, (ops, sources.rig@[i].1.roll), turn.1),
        0 <= j < model.bone_rolls_rotmat@.len(),
        crate::models::turn_laws::turn_of(
            value,
            crate::rotation::rows3(model.bone_rolls_rotmat@[j]),
        ) == about_second_axis(value(turn.0), value(turn.1)),
{
    assert(crate::models::body::build_outcome(ops, measures, opts, sources, anchors, Ok(model)));
    let s = choose|s: BuildSteps<T>| #[trigger]
        crate::models::body::is_model(ops, measures, opts, sources, anchors, s, model);
    let h = model.figure.hierarchy();
    let k = law_bones_are_those_of_the_rig(
        sources.rig@,
        sources.mesh,
        crate::names::views(opts.bones_to_remove@),
        s.before,
        s.after,
        h,
        j,
    );
    let names = crate::models::rig::bone_names(sources.rig@);
    assert(names[i] == names[k]);
    let angle = sources.rig@[i].1.roll;
    let m = model.bone_rolls_rotmat@[j];
    let (zero, one) = (measures.zero, measures.one);
    assert(crate::models::body::is_roll(ops, zero, one, angle, m));
    let (c, d, n) = choose|c: T, d: T, n: T|
        {
            &&& #[trigger] call_ensures(O::cosine, (ops, angle), c)
            &&& #[trigger] call_ensures(O::sine, (ops, angle), d)
            &&& #[trigger] crate::scalar::negative_of(ops, d, n)
            &&& crate::rotation::rows3(m) =~~= crate::rotation::euler_entries(
                'y',
                c,
                d,
                n,
                zero,
                one,
            )->0
        };
    assert(crate::rotation::rows3(m) == crate::rotation::euler_entries('y', c, d, n, zero, one)->0);
    (c, d)
}

/// The turn about the second axis by the angle with cosine `c` and sine `s`, by
/// its rows.
pub open spec fn about_second_axis(c: real, s: real) -> Turn {
    Turn {
        x: Shift { x: c, y: 0 as real, z: s },
        y: Shift { x: 0 as real, y: 1 as real, z: 0 as real },
        z: Shift { x: -s, y: 0 as real, z: c },
    }
}

/// In exact arithmetic the rest frame of a bone is the frame of its direction after
/// the roll: the frame takes the own axis of the bone to the direction from head to
/// tail and leaves what is at right angles to both, and the rest frame does to
/// a vector what the frame does to the rolled vector.
pub proof fn law_rest_frames_are_rolled<T, O: EndpointOps<T>>(
    ops: &O,
    head: [T; 3],
    tail: [T; 3],
    roll: [[T; 3]; 3],
    y_axis: [T; 3],
    fallback: [[T; 3]; 3],
    zero: T,
    one: T,
    pose: Seq<Seq<T>>,
    value: spec_fn(T) -> real,
) -> (frame: Turn)
    requires
        crate::scalar::is_exact(ops, value),
        crate::scalar::tells_signs(ops, value),
        crate::models::turn_laws::turns_exactly(ops, value),
        crate::models::axis_laws::arcs_exactly(ops, value),
        value(zero) == 0 as real,
        value(one) == 1 as real,
        crate::models::motions::row_seen(value, head@) != crate::models::motions::row_seen(
            value,
            tail@,
        ),
        ({
            let y = crate::models::motions::row_seen(value, y_axis@);
            &&& crate::models::motions::dot(y, y) == 1 as real
            &&& crate::models::motions::applied(
                crate::models::turn_laws::turn_of(value, crate::rotation::rows3(fallback)),
                y,
            ) == crate::models::motions::minus(y)
        }),
        crate::kinematics::bone_poses::is_bone_pose(
            ops,
            head,
            tail,
            roll,
            y_axis,
            fallback,
            zero,
            one,
            pose,
        ),
    ensures
        ({
            let y = crate::models::motions::row_seen(value, y_axis@);
            let along = crate::models::motions::applied(frame, y);
            let across = crate::models::turn_laws::crossed(along, y);
            &&& crate::models::axis_laws::points_along(
                along,
                crate::models::motions::row_seen(value, head@),
                crate::models::motions::row_seen(value, tail@),
            )
            &&& crate::models::motions::applied(frame, across) == across
        }),
        forall|v: Shift| #[trigger]
            crate::models::motions::applied(
                crate::models::motions::motion_of(value, pose).turn,
                v,
            ) == crate::models::motions::applied(
                frame,
                crate::models::motions::applied(
                    crate::models::turn_laws::turn_of(value, crate::rotation::rows3(roll)),
                    v,
                ),
            ),
        crate::models::motions::motion_of(value, pose).shift == crate::models::motions::row_seen(
            value,
            head@,
        ),
{
    let s = choose|s: BoneSteps<T>| #[trigger]
        crate::kinematics::bone_poses::are_bone_steps(
            ops,
            head,
            tail,
            roll,
            y_axis,
            fallback,
            zero,
            one,
            s,
        ) && pose =~~= crate::rotation::homogeneous(
            crate::rotation::rows3(s.rotation),
            head@,
            zero,
            one,
        );
    let turn = crate::rotation::rows3(s.turn);
    let spun = crate::rotation::rows3(roll);
    let rotation = crate::rotation::rows3(s.rotation);
    assert(pose == crate::rotation::homogeneous(rotation, head@, zero, one));
    crate::models::axis_laws::lemma_direction(ops, head, tail, s, value);
    crate::models::axis_laws::lemma_turn_takes_axis(ops, y_axis, fallback, zero, one, s, value);
    crate::models::turn_laws::law_exact_product_turn(ops, turn, spun, rotation, value);
    let frame = crate::models::turn_laws::turn_of(value, turn);
    let rolled = crate::models::turn_laws::turn_of(value, spun);
    assert(pose[0] == rotation[0].push(head@[0]));
    assert(pose[1] == rotation[1].push(head@[1]));
    assert(pose[2] == rotation[2].push(head@[2]));
    assert(crate::models::motions::motion_of(value, pose).turn
        == crate::models::turn_laws::turn_of(value, rotation));
    assert forall|v: Shift| #[trigger]
        crate::models::motions::applied(
            crate::models::motions::motion_of(value, pose).turn,
            v,
        ) == crate::models::motions::applied(
            frame,
            crate::models::motions::applied(rolled, v),
        ) by {
        crate::models::motions::lemma_applied_twice(frame, rolled, v);
    }
    frame
}

/// In exact arithmetic the rest pose of a bone of a skeleton is the frame of its own
/// direction after its own roll, at its own head.
pub proof fn law_rest_skeletons_are_rolled<T, O: EndpointOps<T>>(
    ops: &O,
    zero: T,
    one: T,
    rolls: Seq<[[T; 3]; 3]>,
    heads: Seq<[T; 3]>,
    tails: Seq<[T; 3]>,
    rest: Seq<[[T; 4]; 4]>,
    value: spec_fn(T) -> real,
    j: int,
) -> (frame: Turn)
    requires
        crate::scalar::is_exact(ops, value),
        crate::scalar::tells_signs(ops, value),
        crate::models::turn_laws::turns_exactly(ops, value),
        crate::models::axis_laws::arcs_exactly(ops, value),
        value(zero) == 0 as real,
        value(one) == 1 as real,
        crate::models::forward::are_rest_poses(ops, zero, one, rolls, heads, tails, rest),
        0 <= j < rest.len(),
        crate::models::motions::row_seen(value, heads[j]@) != crate::models::motions::row_seen(
            value,
            tails[j]@,
        ),
    ensures
        rest.len() == heads.len(),
        ({
            let y = Shift { x: 0 as real, y: 1 as real, z: 0 as real };
            let along = crate::models::motions::applied(frame, y);
            let across = crate::models::turn_laws::crossed(along, y);
            &&& crate::models::axis_laws::points_along(
                along,
                crate::models::motions::row_seen(value, heads[j]@),
                crate::models::motions::row_seen(value, tails[j]@),
            )
            &&& crate::models::motions::applied(frame, across) == across
        }),
        forall|v: Shift| #[trigger]
            crate::models::motions::applied(
                crate::models::motions::motion_of(value, crate::rotation::rows4(rest[j])).turn,
                v,
            ) == crate::models::motions::applied(
                frame,
                crate::models::motions::applied(
                    crate::models::turn_laws::turn_of(value, crate::rotation::rows3(rolls[j])),
                    v,
                ),
            ),
        crate::models::motions::motion_of(value, crate::rotation::rows4(rest[j])).shift
            == crate::models::motions::row_seen(value, heads[j]@),
{
    let (axis, over) = choose|axis: [T; 3], over: [[T; 3]; 3]|
        {
            &&& #[trigger] crate::models::forward::own_axis(zero, one, axis)
            &&& #[trigger] crate::models::forward::is_turned_over(ops, zero, one, over)
            &&& rest.len() == heads.len()
            &&& forall|i: int|
                0 <= i < rest.len() ==> crate::kinematics::bone_poses::is_bone_pose(
                    ops,
                    heads[i],
                    tails[i],
                    rolls[i],
                    axis,
                    over,
                    zero,
                    one,
                    crate::rotation::rows4(#[trigger] rest[i]),
                )
        };
    let y = crate::models::motions::straight().y;
    assert(crate::models::motions::row_seen(value, axis@) == y);
    crate::models::motions::lemma_dot_units(y);
    let n = choose|n: T| #[trigger]
        crate::scalar::negative_of(ops, one, n) && crate::rotation::rows3(over) =~~= seq![
            seq![one, zero, zero],
            seq![zero, n, zero],
            seq![zero, zero, n],
        ];
    let rows = crate::rotation::rows3(over);
    assert(rows == seq![seq![one, zero, zero], seq![zero, n, zero], seq![zero, zero, n]]);
    let t = crate::models::turn_laws::turn_of(value, rows);
    crate::models::motions::lemma_dot_units(t.x);
    crate::models::motions::lemma_dot_units(t.y);
    crate::models::motions::lemma_dot_units(t.z);
    assert(crate::models::motions::applied(t, y) == crate::models::motions::minus(y));
    law_rest_frames_are_rolled(
        ops,
        heads[j],
        tails[j],
        rolls[j],
        axis,
        over,
        zero,
        one,
        crate::rotation::rows4(rest[j]),
        value,
    )
}

} // verus!
