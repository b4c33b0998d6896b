//! What the shapes of a model that was built come to in exact arithmetic.
use vstd::prelude::*;
use vstd::string::*;

use crate::models::blend_shapes::ShapePlan;
use crate::models::body::{BodySources, BuildSteps, Measures, Model};
use crate::models::full_model::{ModelError, ModelOptions};
use crate::models::macrodetails::{LocalChange, PlannedTarget};
use crate::models::motions::Shift;
use crate::phenotype::PhenotypeAnchors;
use crate::rotation::AngleOps;
use crate::scalar::{Arithmetic, Division, Signs};
use crate::utils::mean::MeanOps;

verus! {

/// A point of the files in the axes and the unit of the model: the second axis of the
/// files is the third of the model, and their third the opposite of its second.
pub open spec fn placed(scale: real, p: Shift) -> Shift {
    Shift { x: scale * p.x, y: -(scale * p.z), z: scale * p.y }
}

/// The coordinates of a point.
pub open spec fn seen<T>(value: spec_fn(T) -> real, p: [T; 3]) -> Shift {
    Shift { x: value(p@[0]), y: value(p@[1]), z: value(p@[2]) }
}

/// The points of the model are those of the files at the same vertices.
pub open spec fn are_placed<T>(
    value: spec_fn(T) -> real,
    scale: T,
    points: Seq<[T; 3]>,
    moved: Seq<[T; 3]>,
) -> bool {
    &&& moved.len() == points.len()
    &&& forall|v: int|
        0 <= v < moved.len() ==> seen(value, #[trigger] moved[v]) == placed(
            value(scale),
            seen(value, points[v]),
        )
}

proof fn lemma_placed<T, O: Arithmetic<T>>(
    ops: &O,
    scale: T,
    zero: T,
    world: [[T; 3]; 3],
    points: Seq<[T; 3]>,
    moved: Seq<[T; 3]>,
    value: spec_fn(T) -> real,
)
    requires
        crate::scalar::is_exact(ops, value),
        value(zero) == 0 as real,
        crate::models::body::is_world(ops, scale, zero, world),
        crate::models::blend_shapes::are_transformed(
            ops,
            crate::rotation::rows3(world),
            points,
            moved,
        ),
    ensures
        are_placed(value, scale, points, moved),
{
    let n = choose|n: T| #[trigger]
        crate::scalar::negative_of(ops, scale, n) && crate::rotation::rows3(world)
            =~~= crate::models::world::world_rows(scale, n, zero);
    assert(crate::rotation::rows3(world) == crate::models::world::world_rows(scale, n, zero));
    assert forall|v: int| 0 <= v < moved.len() implies seen(value, #[trigger] moved[v]) == placed(
        value(scale),
        seen(value, points[v]),
    ) by {
        crate::models::world::law_world_axes(
            ops,
            scale,
            n,
            zero,
            points[v]@,
            moved[v]@,
            value,
        );
    }
}

/// How many of the first `n` targets have a file.
pub open spec fn files_before<A>(offsets: Seq<Option<A>>, n: nat) -> nat
    decreases n,
{
    if n == 0 {
        0
    } else {
        files_before(offsets, (n - 1) as nat) + if offsets[n - 1] is Some {
            1nat
        } else {
            0nat
        }
    }
}

proof fn lemma_files<A>(offsets: Seq<Option<A>>, n: nat, i: int)
    requires
        n <= offsets.len(),
    ensures
        crate::models::blend_shapes::present(offsets, n).len() == files_before(offsets, n),
        0 <= i < n && offsets[i] is Some ==> files_before(offsets, i as nat) < files_before(
            offsets,
            n,
        ) && crate::models::blend_shapes::present(offsets, n)[files_before(offsets, i as nat) as int]
            == i,
    decreases n,
{
    if n > 0 {
        lemma_files(offsets, (n - 1) as nat, i);
    }
}

/// A coordinate of a newborn: that of the shape of the baby by the scaling, and that
/// of the template by as much as the scaling is off one, over the factor.
pub open spec fn is_newborn_of<T>(
    value: spec_fn(T) -> real,
    scaling: T,
    factor: T,
    baby: real,
    template: T,
    r: T,
) -> bool {
    (value(r) - value(scaling) * baby) * value(factor) == (value(scaling) - 1 as real) * value(
        template,
    )
}

proof fn lemma_newborn(s: real, f: real, x: real, t: real, r: real)
    requires
        f != 0 as real,
        r == s * x + ((s - 1 as real) / f) * t,
    ensures
        (r - s * x) * f == (s - 1 as real) * t,
{
    let l = s - 1 as real;
    let e = l / f;
    assert(e * f == l) by (nonlinear_arith)
        requires
            e == l / f,
            f != 0 as real,
    ;
    assert((e * t) * f == l * t) by (nonlinear_arith)
        requires
            e * f == l,
    ;
    assert(r - s * x == e * t);
}

/// What stands at a coordinate.
pub open spec fn coordinate(p: Shift, c: int) -> real {
    if c == 0 {
        p.x
    } else if c == 1 {
        p.y
    } else {
        p.z
    }
}

/// The shape of a target: its offsets, moved to the axes of the model, or for newborns
/// brought to their proportions after that.
pub open spec fn is_shape_of<T>(
    value: spec_fn(T) -> real,
    measures: Measures<T>,
    template: Seq<[T; 3]>,
    newborn: bool,
    offsets: Seq<[T; 3]>,
    shape: Seq<[T; 3]>,
) -> bool {
    if newborn {
        &&& shape.len() == template.len()
        &&& forall|v: int, c: int|
            0 <= v < shape.len() && 0 <= c < 3 ==> is_newborn_of(
                value,
                measures.newborn.scaling@[c],
                measures.newborn.factor,
                coordinate(placed(value(measures.scale), seen(value, offsets[v])), c),
                template[v]@[c],
                #[trigger] shape[v]@[c],
            )
    } else {
        are_placed(value, measures.scale, offsets, shape)
    }
}

proof fn lemma_target_shape<T, O: Division<T>>(
    ops: &O,
    measures: Measures<T>,
    world: [[T; 3]; 3],
    template: Seq<[T; 3]>,
    target: PlannedTarget,
    offsets: Seq<[T; 3]>,
    shape: Seq<[T; 3]>,
    value: spec_fn(T) -> real,
)
    requires
        crate::scalar::is_exact(ops, value),
        crate::scalar::divides_exactly(ops, value),
        value(measures.zero) == 0 as real,
        value(measures.one) == 1 as real,
        value(measures.newborn.factor) != 0 as real,
        offsets.len() == template.len(),
        crate::models::body::is_world(ops, measures.scale, measures.zero, world),
        crate::models::blend_shapes::is_target_shape(
            ops,
            crate::rotation::rows3(world),
            measures.newborn,
            measures.one,
            template,
            target,
            offsets,
            shape,
        ),
    ensures
        is_shape_of(value, measures, template, target.newborn, offsets, shape),
{
    let (scale, zero) = (measures.scale, measures.zero);
    if target.newborn {
        let moved = choose|moved: Seq<[T; 3]>| #[trigger]
            crate::models::blend_shapes::are_transformed(
                ops,
                crate::rotation::rows3(world),
                offsets,
                moved,
            ) && crate::models::blend_shapes::is_newborn_shape(
                ops,
                measures.newborn,
                measures.one,
                template,
                moved,
                shape,
            );
        lemma_placed(ops, scale, zero, world, offsets, moved, value);
        assert forall|v: int, c: int| 0 <= v < shape.len() && 0 <= c < 3 implies is_newborn_of(
            value,
            measures.newborn.scaling@[c],
            measures.newborn.factor,
            coordinate(placed(value(scale), seen(value, offsets[v])), c),
            template[v]@[c],
            #[trigger] shape[v]@[c],
        ) by {
            let (s, f) = (measures.newborn.scaling@[c], measures.newborn.factor);
            let (x, t, r) = (moved[v]@[c], template[v]@[c], shape[v]@[c]);
            assert(crate::models::world::is_newborn_coordinate(
                ops,
                s,
                f,
                measures.one,
                x,
                t,
                r,
            ));
            let (extra, a, b) = choose|extra: T, a: T, b: T|
                {
                    &&& #[trigger] crate::models::world::is_extra(ops, s, f, measures.one, extra)
                    &&& #[trigger] crate::scalar::product_of(ops, s, x, a)
                    &&& #[trigger] crate::scalar::product_of(ops, extra, t, b)
                    &&& crate::scalar::sum_of(ops, a, b, r)
                };
            assert(value(extra) == (value(s) - 1 as real) / value(f));
            lemma_newborn(value(s), value(f), value(x), value(t), value(r));
            assert(seen(value, moved[v]) == placed(value(scale), seen(value, offsets[v])));
            assert(value(x) == coordinate(seen(value, moved[v]), c));
        }
    } else {
        lemma_placed(ops, scale, zero, world, offsets, shape, value);
    }
}

/// The vertices that a model keeps, in the order of the mesh.
pub open spec fn kept<A>(points: Seq<A>, at: Option<Vec<u32>>) -> Seq<A> {
    match at {
        None => points,
        Some(at) => Seq::new(at@.len(), |k: int| points[at@[k] as int]),
    }
}

/// Numbers are divided by counts exactly.
pub open spec fn averages_exactly<T, O: MeanOps<T>>(ops: &O, value: spec_fn(T) -> real) -> bool {
    forall|a: T, n: usize, r: T| #[trigger]
        crate::utils::mean::over_of(ops, a, n, r) && n > 0 ==> value(r) * n as real == value(a)
}

/// The joint is the mean of the points at the vertices, and the origin without any.
pub open spec fn is_mean_of<T>(
    value: spec_fn(T) -> real,
    at: Seq<u32>,
    points: Seq<[T; 3]>,
    joint: [T; 3],
) -> bool {
    forall|c: int|
        0 <= c < 3 ==> if at.len() == 0 {
            value(#[trigger] joint@[c]) == 0 as real
        } else {
            value(joint@[c]) * at.len() as real == crate::utils::sums::sum(
                |k: int| value(points[at[k] as int]@[c]),
                at.len(),
            )
        }
}

proof fn lemma_joint<T, O: MeanOps<T>>(
    ops: &O,
    zero: T,
    at: Seq<u32>,
    points: Seq<[T; 3]>,
    joint: [T; 3],
    value: spec_fn(T) -> real,
)
    requires
        crate::scalar::is_exact(ops, value),
        averages_exactly(ops, value),
        value(zero) == 0 as real,
        at.len() <= usize::MAX,
        crate::utils::mean::is_mean_point(
            ops,
            zero,
            crate::models::full_model::picked(points, at),
            joint@,
        ),
    ensures
        is_mean_of(value, at, points, joint),
{
    let some = crate::models::full_model::picked(points, at);
    assert forall|c: int| 0 <= c < 3 implies if at.len() == 0 {
        value(#[trigger] joint@[c]) == 0 as real
    } else {
        value(joint@[c]) * at.len() as real == crate::utils::sums::sum(
            |k: int| value(points[at[k] as int]@[c]),
            at.len(),
        )
    } by {
        let x = joint@[c];
        if at.len() > 0 {
            let list = crate::utils::mean::column(some, c);
            let sum = choose|sum: T| #[trigger]
                crate::utils::shares::is_total(ops, zero, list, sum)
                    && crate::utils::mean::over_of(ops, sum, list.len() as usize, x);
            crate::utils::sums::lemma_total(ops, zero, list, sum, value);
            crate::utils::sums::lemma_same_sum(
                |k: int| value(list[k]),
                |k: int| value(points[at[k] as int]@[c]),
                at.len(),
            );
        }
    }
}

/// The joints of bones are the means of the points at the vertices of each.
pub open spec fn are_means_of<T>(
    value: spec_fn(T) -> real,
    regressors: Seq<Vec<u32>>,
    points: Seq<[T; 3]>,
    joints: Seq<[T; 3]>,
) -> bool {
    &&& joints.len() == regressors.len()
    &&& forall|j: int|
        0 <= j < joints.len() ==> is_mean_of(
            value,
            regressors[j]@,
            points,
            #[trigger] joints[j],
        )
}

proof fn lemma_joints<T, O: MeanOps<T>>(
    ops: &O,
    zero: T,
    regressors: Seq<Vec<u32>>,
    points: Seq<[T; 3]>,
    joints: Seq<[T; 3]>,
    value: spec_fn(T) -> real,
)
    requires
        crate::scalar::is_exact(ops, value),
        averages_exactly(ops, value),
        value(zero) == 0 as real,
        crate::models::full_model::are_joints(ops, zero, points, regressors, joints),
    ensures
        are_means_of(value, regressors, points, joints),
{
    assert forall|j: int| 0 <= j < joints.len() implies is_mean_of(
        value,
        regressors[j]@,
        points,
        #[trigger] joints[j],
    ) by {
        assert(regressors[j].len() == regressors[j]@.len());
        lemma_joint(ops, zero, regressors[j]@, points, joints[j], value);
    }
}

/// The vertices that a regressor names: one, those of the faces of a group, each once and
/// in ascending order, or those that it lists.
pub open spec fn names_vertices<S>(
    regressor: crate::models::rig::CoordinateRegressorJson,
    mesh: crate::data::obj::ObjMesh<S>,
    at: Seq<u32>,
) -> bool {
    &&& regressor.strategy@ == "VERTEX"@ && regressor.vertex_index is Some ==> at
        == seq![regressor.vertex_index->0]
    &&& regressor.strategy@ == "CUBE"@ && regressor.cube_name is Some ==> forall|g: int|
        {
            &&& 0 <= g < mesh.groups@.len()
            &&& (#[trigger] mesh.groups@[g]).0@ == regressor.cube_name->0@
            &&& forall|k: int|
                0 <= k < mesh.groups@.len() && k != g ==> (#[trigger] mesh.groups@[k]).0@
                    != regressor.cube_name->0@
        } ==> {
            &&& forall|a: int, b: int| 0 <= a < b < at.len() ==> at[a] < at[b]
            &&& forall|v: u32|
                at.contains(v) <==> exists|f: int, k: int|
                    {
                        &&& 0 <= f < mesh.groups@[g].1.face_vertex_indices@.len()
                        &&& 0 <= k < mesh.groups@[g].1.face_vertex_indices@[f]@.len()
                        &&& #[trigger] mesh.groups@[g].1.face_vertex_indices@[f]@[k] == v
                    }
        }
    &&& regressor.strategy@ != "VERTEX"@ && regressor.strategy@ != "CUBE"@
        && regressor.vertex_indices is Some ==> at == regressor.vertex_indices->0@
}

/// In exact arithmetic the shapes of a model that was built are those of its
/// sources. `whole` is the mesh in the axes of the model, and the template holds
/// the vertices of it that are kept. Each macrodetail target that has a file has
/// a shape, in the order of the targets, whose whole is made of the offsets of that
/// file, gated by the variations of that target. After these each local change has
/// two shapes: the first is made of the offsets of its positive target, the second of
/// those of its negative one, and its label is the name of the positive one.
/// The heads and the tails of the bones are the means over their own vertices of the
/// whole, and so is how far each shape moves them.
#[verifier::rlimit(40)]
pub proof fn law_shapes_are_those_of_the_files<
    T: Copy,
    O: Division<T> + Signs<T> + MeanOps<T> + AngleOps<T>,
>(
    ops: &O,
    measures: Measures<T>,
    opts: ModelOptions,
    sources: BodySources<T>,
    anchors: PhenotypeAnchors<T>,
    model: Model<T>,
    planned: Vec<PlannedTarget>,
    value: spec_fn(T) -> real,
) -> (r: (Seq<[T; 3]>, Seq<Vec<[T; 3]>>, Seq<LocalChange>))
    requires
        call_ensures(
            Model::<T>::build::<O>,
            (&opts, &sources, anchors, &measures, ops),
            Ok::<Model<T>, ModelError>(model),
        ),
        call_ensures(crate::models::macrodetails::macrodetail_targets, (), planned),
        crate::scalar::is_exact(ops, value),
        crate::scalar::divides_exactly(ops, value),
        averages_exactly(ops, value),
        value(measures.zero) == 0 as real,
        value(measures.one) == 1 as real,
        value(measures.newborn.factor) != 0 as real,
        sources.targets.complete(
            opts.include_genital_morphs,
            sources.mesh.vertices@.len() as int,
        ),
    ensures
        are_placed(value, measures.scale, sources.mesh.vertices@, r.0),
        r.1.len() == model.blendshapes@.len(),
        forall|s: int|
            0 <= s < r.1.len() ==> (#[trigger] model.blendshapes@[s])@ == kept(
                r.1[s]@,
                model.figure.base_mesh_vertex_indices,
            ),
        r.1.len() == files_before(
            sources.targets.offsets@,
            sources.targets.offsets@.len(),
        ) + 2 * r.2.len(),
        forall|i: int|
            0 <= i < planned@.len() && (#[trigger] sources.targets.offsets@[i]) is Some ==> {
                let s = files_before(sources.targets.offsets@, i as nat) as int;
                &&& is_shape_of(
                    value,
                    measures,
                    r.0,
                    planned@[i].newborn,
                    sources.targets.offsets@[i]->0@,
                    r.1[s]@,
                )
                &&& model.stacked_phenotype_blend_shapes_mask@[s]@ == planned@[i].mask@
            },
        forall|i: int|
            0 <= i < planned@.len() && (#[trigger] sources.targets.offsets@[i]) is None
                ==> planned@[i].optional,
        exists|order: Seq<usize>| #[trigger]
            crate::names::is_alphabetical(
                crate::models::macrodetails::group_names(sources.targets.groups@),
                order,
            ) && crate::models::macrodetails::are_changes(
                r.2,
                crate::models::macrodetails::ordered_changes(
                    sources.targets.groups@,
                    order,
                    opts.include_genital_morphs,
                    sources.targets.groups@.len(),
                ),
            ),
        model.local_change_labels@.len() == r.2.len(),
        forall|j: int|
            0 <= j < r.2.len() ==> (#[trigger] r.2[j]).positive@ == model.local_change_labels@[j]@,
        forall|j: int|
            0 <= j < r.2.len() ==> {
                let s = files_before(
                    sources.targets.offsets@,
                    sources.targets.offsets@.len(),
                ) + 2 * j;
                &&& are_placed(
                    value,
                    measures.scale,
                    (#[trigger] sources.targets.poles@[j]).0@,
                    r.1[s]@,
                )
                &&& are_placed(
                    value,
                    measures.scale,
                    sources.targets.poles@[j].1@,
                    r.1[s + 1]@,
                )
            },
        are_means_of(
            value,
            model.figure.head_regressors@,
            r.0,
            model.template_bone_heads@,
        ),
        are_means_of(
            value,
            model.figure.tail_regressors@,
            r.0,
            model.template_bone_tails@,
        ),
        model.bone_heads_blendshapes@.len() == r.1.len(),
        model.bone_tails_blendshapes@.len() == r.1.len(),
        forall|s: int|
            0 <= s < r.1.len() ==> are_means_of(
                value,
                model.figure.head_regressors@,
                r.1[s]@,
                (#[trigger] model.bone_heads_blendshapes@[s])@,
            ),
        forall|s: int|
            0 <= s < r.1.len() ==> are_means_of(
                value,
                model.figure.tail_regressors@,
                r.1[s]@,
                (#[trigger] model.bone_tails_blendshapes@[s])@,
            ),
{
    assert(crate::models::body::build_outcome(ops, measures, opts, sources, anchors, Ok(model)));
    let s = choose|s: BuildSteps<T>| #[trigger]
        crate::models::body::is_model(ops, measures, opts, sources, anchors, s, model);
    let (world, zero, scale) = (s.world, measures.zero, measures.scale);
    let targets = sources.targets;
    let rows = crate::rotation::rows3(world);
    let template = s.template@;
    lemma_placed(ops, scale, zero, world, sources.mesh.vertices@, template, value);
    let plan = choose|plan: ShapePlan| #[trigger]
        crate::models::blend_shapes::is_shape_plan(
            targets.groups@,
            opts.include_genital_morphs,
            plan,
        ) && crate::models::blend_shapes::is_stacked(
            ops,
            rows,
            measures.newborn,
            measures.one,
            template,
            plan,
            targets,
            s.stacked,
        );
    let shapes = s.stacked.blendshapes@;
    let at = crate::models::blend_shapes::present(targets.offsets@, targets.offsets@.len());
    lemma_files(targets.offsets@, targets.offsets@.len(), 0);
    assert forall|k: int| 0 <= k < shapes.len() implies (#[trigger] model.blendshapes@[k])@
        == kept(shapes[k]@, model.figure.base_mesh_vertex_indices) by {
        match model.figure.base_mesh_vertex_indices {
            None => {},
            Some(v) => {
                assert(model.blendshapes@[k]@ =~= kept(shapes[k]@, Some(v)));
            },
        }
    }
    assert forall|i: int|
        0 <= i < planned@.len() && (#[trigger] targets.offsets@[i]) is Some implies {
        let k = files_before(targets.offsets@, i as nat) as int;
        &&& is_shape_of(
            value,
            measures,
            template,
            planned@[i].newborn,
            targets.offsets@[i]->0@,
            shapes[k]@,
        )
        &&& model.stacked_phenotype_blend_shapes_mask@[k]@ == planned@[i].mask@
    } by {
        let k = files_before(targets.offsets@, i as nat) as int;
        lemma_files(targets.offsets@, targets.offsets@.len(), i);
        assert(at[k] == i);
        let e = crate::models::macrodetails::target_entries()[i];
        assert(crate::models::macrodetails::is_planned(planned@[i], e));
        assert(crate::models::macrodetails::is_planned(plan.planned@[i], e));
        assert(s.stacked.mask@[k]@ == plan.planned@[at[k]].mask@);
        assert(planned@[i].mask@ =~= plan.planned@[i].mask@);
        assert(crate::models::blend_shapes::is_target_shape(
            ops,
            rows,
            measures.newborn,
            measures.one,
            template,
            plan.planned@[at[k]],
            targets.offsets@[at[k]]->0@,
            shapes[k]@,
        ));
        lemma_target_shape(
            ops,
            measures,
            world,
            template,
            plan.planned@[i],
            targets.offsets@[i]->0@,
            shapes[k]@,
            value,
        );
    }
    assert forall|i: int|
        0 <= i < planned@.len() && (#[trigger] targets.offsets@[i])
            is None implies planned@[i].optional by {
        let e = crate::models::macrodetails::target_entries()[i];
        assert(crate::models::macrodetails::is_planned(planned@[i], e));
        assert(crate::models::macrodetails::is_planned(plan.planned@[i], e));
        assert(!crate::models::blend_shapes::lacks(plan, targets, i));
    }
    assert forall|j: int| 0 <= j < plan.changes@.len() implies {
        let k = at.len() + 2 * j;
        &&& are_placed(value, scale, (#[trigger] targets.poles@[j]).0@, shapes[k]@)
        &&& are_placed(value, scale, targets.poles@[j].1@, shapes[k + 1]@)
    } by {
        let k = at.len() + 2 * j;
        lemma_placed(ops, scale, zero, world, targets.poles@[j].0@, shapes[k]@, value);
        lemma_placed(ops, scale, zero, world, targets.poles@[j].1@, shapes[k + 1]@, value);
    }
    assert forall|j: int|
        0 <= j < plan.changes@.len() implies (#[trigger] plan.changes@[j]).positive@
        == model.local_change_labels@[j]@ by {
        assert(s.stacked.local_change_labels@[j]@ == plan.changes@[j].positive@);
    }
    let (heads, tails) = (model.figure.head_regressors@, model.figure.tail_regressors@);
    lemma_joints(ops, zero, heads, template, model.template_bone_heads@, value);
    lemma_joints(ops, zero, tails, template, model.template_bone_tails@, value);
    assert forall|k: int| 0 <= k < shapes.len() implies are_means_of(
        value,
        heads,
        shapes[k]@,
        (#[trigger] model.bone_heads_blendshapes@[k])@,
    ) by {
        lemma_joints(ops, zero, heads, shapes[k]@, model.bone_heads_blendshapes@[k]@, value);
    }
    assert forall|k: int| 0 <= k < shapes.len() implies are_means_of(
        value,
        tails,
        shapes[k]@,
        (#[trigger] model.bone_tails_blendshapes@[k])@,
    ) by {
        lemma_joints(ops, zero, tails, shapes[k]@, model.bone_tails_blendshapes@[k]@, value);
    }
    (template, shapes, plan.changes@)
}

/// The head and the tail of a bone of a model that was built are over the vertices
/// that the rig names for the bone of that label.
pub proof fn law_regressors_are_those_of_the_rig<
    T: Copy,
    O: Division<T> + Signs<T> + MeanOps<T> + AngleOps<T>,
>(
    ops: &O,
    measures: Measures<T>,
    opts: ModelOptions,
    sources: BodySources<T>,
    anchors: PhenotypeAnchors<T>,
    model: Model<T>,
    i: int,
    j: int,
)
    requires
        call_ensures(
            Model::<T>::build::<O>,
            (&opts, &sources, anchors, &measures, ops),
            Ok::<Model<T>, ModelError>(model),
        ),
        crate::models::rig::bone_names(sources.rig@).no_duplicates(),
        0 <= i < sources.rig@.len(),
        0 <= j < model.figure.bone_labels@.len(),
        model.figure.bone_labels@[j]@ == sources.rig@[i].0@,
    ensures
        names_vertices(
            sources.rig@[i].1.head,
            sources.mesh,
            model.figure.head_regressors@[j]@,
        ),
        names_vertices(
            sources.rig@[i].1.tail,
            sources.mesh,
            model.figure.tail_regressors@[j]@,
        ),
{
    assert(crate::models::body::build_outcome(ops, measures, opts, sources, anchors, Ok(model)));
    let s = choose|s: BuildSteps<T>| #[trigger]
        crate::models::body::is_model(ops, measures, opts, sources, anchors, s, model);
    let k = crate::models::roll_laws::law_bones_are_those_of_the_rig(
        sources.rig@,
        sources.mesh,
        crate::names::views(opts.bones_to_remove@),
        s.before,
        s.after,
        model.figure.hierarchy(),
        j,
    );
    let names = crate::models::rig::bone_names(sources.rig@);
    assert(names[i] == names[k]);
    lemma_names(sources.rig@[i].1.head, sources.mesh, model.figure.head_regressors@[j]@);
    lemma_names(sources.rig@[i].1.tail, sources.mesh, model.figure.tail_regressors@[j]@);
}

#[verifier::rlimit(40)]
proof fn lemma_names<S>(
    regressor: crate::models::rig::CoordinateRegressorJson,
    mesh: crate::data::obj::ObjMesh<S>,
    at: Seq<u32>,
)
    requires
        crate::models::rig::regressor_vertices(regressor, mesh, at),
    ensures
        names_vertices(regressor, mesh, at),
{
    reveal_strlit("VERTEX");
    reveal_strlit("CUBE");
    assert("VERTEX"@.len() == 6 && "CUBE"@.len() == 4);
    if regressor.strategy@ == "CUBE"@ && regressor.cube_name is Some {
        let name = regressor.cube_name->0@;
        assert forall|g: int|
            {
                &&& 0 <= g < mesh.groups@.len()
                &&& (#[trigger] mesh.groups@[g]).0@ == name
                &&& forall|k: int|
                    0 <= k < mesh.groups@.len() && k != g ==> (#[trigger] mesh.groups@[k]).0@
                        != name
            } implies {
            &&& forall|a: int, b: int| 0 <= a < b < at.len() ==> at[a] < at[b]
            &&& forall|v: u32|
                at.contains(v) <==> exists|f: int, k: int|
                    {
                        &&& 0 <= f < mesh.groups@[g].1.face_vertex_indices@.len()
                        &&& 0 <= k < mesh.groups@[g].1.face_vertex_indices@[f]@.len()
                        &&& #[trigger] mesh.groups@[g].1.face_vertex_indices@[f]@[k] == v
                    }
        } by {
            lemma_group_at(mesh, name, g);
            let faces = mesh.groups@[g].1.face_vertex_indices@;
            assert(crate::utils::index::is_ascending_set(at, faces));
            assert forall|v: u32|
                at.contains(v) <==> exists|f: int, k: int|
                    {
                        &&& 0 <= f < faces.len()
                        &&& 0 <= k < faces[f]@.len()
                        &&& #[trigger] faces[f]@[k] == v
                    } by {
                assert(at.contains(v) <==> crate::utils::index::occurs(
                    faces,
                    faces.len() as int,
                    v,
                ));
            }
        }
    }
}

proof fn lemma_group_at<S>(mesh: crate::data::obj::ObjMesh<S>, name: Seq<char>, g: int)
    requires
        0 <= g < mesh.groups@.len(),
        mesh.groups@[g].0@ == name,
        forall|k: int|
            0 <= k < mesh.groups@.len() && k != g ==> (#[trigger] mesh.groups@[k]).0@ != name,
    ensures
        mesh.group_at(name) == Some(g),
{
    let names = mesh.names();
    crate::names::lemma_first_at(names, name);
    assert(names[g] == name);
    match crate::names::first_at(names, name) {
        Some(k) => {
            assert(names[k] == mesh.groups@[k].0@);
        },
        None => {},
    }
}

} // verus!
