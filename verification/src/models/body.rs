//! The complete body model: a figure with its blend shapes, the joints that
//! they move, and what a phenotype selects of them.
use vstd::prelude::*;

use crate::data::obj::ObjMesh;
use crate::models::blend_shapes::{load_all, Newborn, StackedBlendShapes, Targets};
use crate::models::full_model::{
    copy_row, regress_joints, select_faces, Faces, Figure, ModelError, ModelOptions,
};
use crate::models::rig::{RigBoneJson, WeightsJson};
use crate::models::world::{apply_world_transform, default_world_transform};
use crate::phenotype::PhenotypeAnchors;
use crate::rotation::{euler_to_rotmat, AngleOps};
use crate::scalar::{Arithmetic, Division, Signs};
use crate::utils::mean::MeanOps;

verus! {

/// What a body is built from.
#[derive(Debug, Clone)]
pub struct BodySources<T> {
    pub mesh: ObjMesh<T>,
    pub rig: Vec<(String, RigBoneJson<T>)>,
    pub weights: WeightsJson<T>,
    pub targets: Targets<T>,
}

/// The numbers that the sources are to be taken by.
#[derive(Debug, Clone, Copy)]
pub struct Measures<T> {
    /// The unit of the files, in units of the model.
    pub scale: T,
    pub newborn: Newborn<T>,
    pub zero: T,
    pub one: T,
}

/// A body with scalars of type `T`.
#[derive(Debug, Clone)]
pub struct Model<T> {
    pub figure: Figure<T>,
    pub texture_coordinates: Vec<[T; 2]>,
    pub blendshapes: Vec<Vec<[T; 3]>>,
    pub template_bone_heads: Vec<[T; 3]>,
    pub template_bone_tails: Vec<[T; 3]>,
    pub bone_heads_blendshapes: Vec<Vec<[T; 3]>>,
    pub bone_tails_blendshapes: Vec<Vec<[T; 3]>>,
    pub bone_rolls_rotmat: Vec<[[T; 3]; 3]>,
    /// For each gated blend shape the variations that gate it.
    pub stacked_phenotype_blend_shapes_mask: Vec<Vec<bool>>,
    pub anchors: PhenotypeAnchors<T>,
    pub local_change_labels: Vec<String>,
}

/// Every shape has `n` offsets.
pub open spec fn shapes_of_size<T>(shapes: Seq<Vec<[T; 3]>>, n: int) -> bool {
    forall|s: int| 0 <= s < shapes.len() ==> (#[trigger] shapes[s])@.len() == n
}

impl<T> BodySources<T> {
    /// The parts of the sources fit together: names occur once, faces have
    /// texture coordinates, regressors and faces name vertices of the mesh,
    /// and there is one offset for each vertex. Where the edited topology is
    /// wanted, the discarded faces know the texture of the caps.
    pub open spec fn sound(&self, opts: ModelOptions) -> bool {
        let n = self.mesh.vertices@.len() as int;
        &&& self.rig@.len() <= i64::MAX
        &&& crate::models::rig::bone_names(self.rig@).no_duplicates()
        &&& crate::models::rig::rig_within(self.rig@, self.mesh, n)
        &&& self.weights.distinct()
        &&& self.targets.complete(opts.include_genital_morphs, n)
        &&& crate::models::full_model::textured(self.mesh)
        &&& crate::models::full_model::caps_known(opts, self.mesh)
        &&& opts.remove_unattached_vertices ==> crate::models::rig::all_below(
            crate::models::full_model::body_faces(opts, self.mesh).0,
            n,
        )
    }
}

/// What was made on the way to a model.
pub struct BuildSteps<T> {
    pub world: [[T; 3]; 3],
    pub template: Vec<[T; 3]>,
    pub faces: Faces,
    pub before: WeightsJson<T>,
    pub after: WeightsJson<T>,
    pub stacked: StackedBlendShapes<T>,
}

/// `m` turns the axes of the files into those of the model.
pub open spec fn is_world<T, O: Arithmetic<T>>(ops: &O, scale: T, zero: T, m: [[T; 3]; 3]) -> bool {
    exists|negative: T| #[trigger]
        crate::scalar::negative_of(ops, scale, negative) && crate::rotation::rows3(m)
            =~~= crate::models::world::world_rows(scale, negative, zero)
}

/// The mesh of the sources is in the axes of the model at `s.template`, and
/// `s.faces` are the faces that the model keeps.
pub open spec fn is_placed<T, O: Arithmetic<T>>(
    ops: &O,
    measures: Measures<T>,
    opts: ModelOptions,
    sources: BodySources<T>,
    s: BuildSteps<T>,
) -> bool {
    &&& is_world(ops, measures.scale, measures.zero, s.world)
    &&& crate::models::blend_shapes::are_transformed(
        ops,
        crate::rotation::rows3(s.world),
        sources.mesh.vertices@,
        s.template@,
    )
    &&& crate::models::full_model::selection_outcome(opts, sources.mesh, Ok(s.faces))
    &&& s.before.table() == sources.weights.table()
}

/// `r` is the turn of a bone about its own axis.
pub open spec fn is_roll<T, O: AngleOps<T>>(
    ops: &O,
    zero: T,
    one: T,
    angle: T,
    r: [[T; 3]; 3],
) -> bool {
    crate::rotation::is_euler(ops, 'y', angle, zero, one, Some(r))
}

/// `r` are the joints that each shape moves, and how far.
pub open spec fn are_joint_shapes<T, O: MeanOps<T>>(
    ops: &O,
    zero: T,
    shapes: Seq<Vec<[T; 3]>>,
    regressors: Seq<Vec<u32>>,
    r: Seq<Vec<[T; 3]>>,
) -> bool {
    &&& r.len() == shapes.len()
    &&& forall|s: int|
        0 <= s < shapes.len() ==> crate::models::full_model::are_joints(
            ops,
            zero,
            shapes[s]@,
            regressors,
            (#[trigger] r[s])@,
        )
}

/// `r` are the shapes, restricted to the kept vertices where some were
/// dropped.
pub open spec fn are_kept_shapes<T>(
    shapes: Seq<Vec<[T; 3]>>,
    kept: Option<Vec<u32>>,
    r: Seq<Vec<[T; 3]>>,
) -> bool {
    &&& r.len() == shapes.len()
    &&& forall|s: int|
        0 <= s < shapes.len() ==> (#[trigger] r[s])@ == match kept {
            None => shapes[s]@,
            Some(at) => crate::models::full_model::picked(shapes[s]@, at@),
        }
}

/// `model` is the body of the sources.
pub open spec fn is_model<
    T: Copy,
    O: Division<T> + Signs<T> + MeanOps<T> + AngleOps<T>,
>(
    ops: &O,
    measures: Measures<T>,
    opts: ModelOptions,
    sources: BodySources<T>,
    anchors: PhenotypeAnchors<T>,
    s: BuildSteps<T>,
    model: Model<T>,
) -> bool {
    let f = model.figure;
    let zero = measures.zero;
    let shapes = s.stacked.blendshapes@;
    &&& is_placed(ops, measures, opts, sources, s)
    &&& crate::models::full_model::figure_outcome(
        ops,
        zero,
        opts,
        sources.mesh,
        s.template@,
        s.faces,
        sources.rig@,
        s.before,
        s.after,
        Ok(f),
    )
    &&& crate::models::blend_shapes::stacking_outcome(
        ops,
        crate::rotation::rows3(s.world),
        measures.newborn,
        measures.one,
        s.template@,
        opts.include_genital_morphs,
        sources.targets,
        Ok(s.stacked),
    )
    &&& crate::models::full_model::are_joints(
        ops,
        zero,
        s.template@,
        f.head_regressors@,
        model.template_bone_heads@,
    )
    &&& crate::models::full_model::are_joints(
        ops,
        zero,
        s.template@,
        f.tail_regressors@,
        model.template_bone_tails@,
    )
    &&& are_joint_shapes(ops, zero, shapes, f.head_regressors@, model.bone_heads_blendshapes@)
    &&& are_joint_shapes(ops, zero, shapes, f.tail_regressors@, model.bone_tails_blendshapes@)
    &&& model.bone_rolls_rotmat@.len() == f.bone_rolls@.len()
    &&& forall|b: int|
        0 <= b < f.bone_rolls@.len() ==> is_roll(
            ops,
            zero,
            measures.one,
            f.bone_rolls@[b],
            #[trigger] model.bone_rolls_rotmat@[b],
        )
    &&& are_kept_shapes(shapes, f.base_mesh_vertex_indices, model.blendshapes@)
    &&& model.stacked_phenotype_blend_shapes_mask == s.stacked.mask
    &&& model.local_change_labels == s.stacked.local_change_labels
    &&& model.anchors == anchors
    &&& model.texture_coordinates@ == sources.mesh.texture_coordinates@
}

/// What [`Model::build`] makes of its inputs.
pub open spec fn build_outcome<
    T: Copy,
    O: Division<T> + Signs<T> + MeanOps<T> + AngleOps<T>,
>(
    ops: &O,
    measures: Measures<T>,
    opts: ModelOptions,
    sources: BodySources<T>,
    anchors: PhenotypeAnchors<T>,
    r: Result<Model<T>, ModelError>,
) -> bool {
    match r {
        Ok(model) => exists|s: BuildSteps<T>| #[trigger]
            is_model(ops, measures, opts, sources, anchors, s, model),
        Err(ModelError::Config(text)) => crate::models::full_model::selection_outcome(
            opts,
            sources.mesh,
            Err(ModelError::Config(text)),
        ),
        Err(ModelError::Rig(e)) => exists|s: BuildSteps<T>| #[trigger]
            is_placed(ops, measures, opts, sources, s)
                && crate::models::rig::hierarchy_outcome(
                sources.rig@,
                sources.mesh,
                crate::names::views(opts.bones_to_remove@),
                s.before,
                s.after,
                Err(e),
            ),
        Err(ModelError::Macrodetails(e)) => {
            exists|s: BuildSteps<T>, f: Figure<T>|
                {
                    &&& #[trigger] is_placed(ops, measures, opts, sources, s)
                    &&& #[trigger] crate::models::full_model::figure_outcome(
                        ops,
                        measures.zero,
                        opts,
                        sources.mesh,
                        s.template@,
                        s.faces,
                        sources.rig@,
                        s.before,
                        s.after,
                        Ok(f),
                    )
                    &&& crate::models::blend_shapes::stacking_outcome(
                        ops,
                        crate::rotation::rows3(s.world),
                        measures.newborn,
                        measures.one,
                        s.template@,
                        opts.include_genital_morphs,
                        sources.targets,
                        Err(e),
                    )
                }
        },
    }
}

fn roll<T: Copy, O: AngleOps<T>>(angle: T, zero: T, one: T, ops: &O) -> (r: [[T; 3]; 3])
    ensures
        is_roll(ops, zero, one, angle, r),
{
    match euler_to_rotmat('y', angle, None, zero, one, ops) {
        Some(m) => m,
        None => [[one, zero, zero], [zero, one, zero], [zero, zero, one]],
    }
}

fn joint_shapes<T: Copy, O: MeanOps<T>>(
    shapes: &Vec<Vec<[T; 3]>>,
    regressors: &Vec<Vec<u32>>,
    n: usize,
    zero: T,
    ops: &O,
) -> (r: Vec<Vec<[T; 3]>>)
    requires
        shapes_of_size(shapes@, n as int),
        crate::models::full_model::regressors_within(regressors@, n as int),
    ensures
        are_joint_shapes(ops, zero, shapes@, regressors@, r@),
{
    let mut r: Vec<Vec<[T; 3]>> = Vec::new();
    for s in 0..shapes.len()
        invariant
            shapes_of_size(shapes@, n as int),
            crate::models::full_model::regressors_within(regressors@, n as int),
            r@.len() == s,
            forall|d: int|
                0 <= d < s ==> crate::models::full_model::are_joints(
                    ops,
                    zero,
                    shapes@[d]@,
                    regressors@,
                    (#[trigger] r@[d])@,
                ),
    {
        assert(shapes@[s as int]@.len() == n);
        r.push(regress_joints(&shapes[s], regressors, zero, ops));
    }
    r
}

fn pick<A: Copy>(points: &Vec<A>, at: &Vec<u32>) -> (r: Vec<A>)
    requires
        forall|i: int| 0 <= i < at@.len() ==> #[trigger] at@[i] < points@.len(),
    ensures
        r@ == crate::models::full_model::picked(points@, at@),
{
    let mut r: Vec<A> = Vec::new();
    for i in 0..at.len()
        invariant
            forall|i: int| 0 <= i < at@.len() ==> #[trigger] at@[i] < points@.len(),
            r@.len() == i,
            forall|j: int| 0 <= j < i ==> #[trigger] r@[j] == points@[at@[j] as int],
    {
        r.push(points[at[i] as usize]);
    }
    assert(r@ =~= crate::models::full_model::picked(points@, at@));
    r
}

fn kept_shapes<T: Copy>(shapes: Vec<Vec<[T; 3]>>, kept: &Option<Vec<u32>>, n: usize) -> (r: Vec<
    Vec<[T; 3]>,
>)
    requires
        shapes_of_size(shapes@, n as int),
        kept is Some ==> forall|i: int|
            0 <= i < kept->0@.len() ==> #[trigger] kept->0@[i] < n,
    ensures
        are_kept_shapes(shapes@, *kept, r@),
{
    match kept {
        None => shapes,
        Some(at) => {
            let mut r: Vec<Vec<[T; 3]>> = Vec::new();
            for s in 0..shapes.len()
                invariant
                    shapes_of_size(shapes@, n as int),
                    forall|i: int| 0 <= i < at@.len() ==> #[trigger] at@[i] < n,
                    r@.len() == s,
                    forall|d: int|
                        0 <= d < s ==> (#[trigger] r@[d])@ == crate::models::full_model::picked(
                            shapes@[d]@,
                            at@,
                        ),
            {
                assert(shapes@[s as int]@.len() == n);
                r.push(pick(&shapes[s], at));
            }
            r
        },
    }
}

impl<T: Copy> Model<T> {
    /// The parts of the model fit together: the figure is sound, there is one
    /// offset of each shape for each vertex and for each joint, and one shape
    /// for each mask and two for each local change.
    pub open spec fn wf(&self) -> bool {
        let bones = self.figure.bone_labels@.len() as int;
        &&& self.figure.wf()
        &&& self.anchors.spaced()
        &&& shapes_of_size(self.blendshapes@, self.figure.template_vertices@.len() as int)
        &&& shapes_of_size(self.bone_heads_blendshapes@, bones)
        &&& shapes_of_size(self.bone_tails_blendshapes@, bones)
        &&& self.bone_heads_blendshapes@.len() == self.blendshapes@.len()
        &&& self.bone_tails_blendshapes@.len() == self.blendshapes@.len()
        &&& self.template_bone_heads@.len() == bones
        &&& self.template_bone_tails@.len() == bones
        &&& self.bone_rolls_rotmat@.len() == bones
        &&& self.blendshapes@.len() == self.stacked_phenotype_blend_shapes_mask@.len() + 2
            * self.local_change_labels@.len()
    }

    /// The number of bones.
    pub fn bone_count(&self) -> (r: usize)
        ensures
            r == self.figure.bone_labels@.len(),
    {
        self.figure.bone_labels.len()
    }

    /// The number of vertices.
    pub fn vertex_count(&self) -> (r: usize)
        ensures
            r == self.figure.template_vertices@.len(),
    {
        self.figure.template_vertices.len()
    }

    /// The phenotype labels, in canonical order.
    pub fn phenotype_labels(&self) -> (r: Vec<&'static str>)
        ensures
            crate::names::str_views(r@) =~= crate::models::full_model::label_list(
                self.figure.all_phenotypes,
            ),
    {
        self.figure.phenotype_labels()
    }

    /// Builds the body of the sources: the mesh in the axes of the model with
    /// the faces that the options keep, the skeleton of the rig, the blend
    /// shapes of the targets, and the joints that the shapes move. Vertices
    /// are dropped last, where that is wanted.
    pub fn build<O: Division<T> + Signs<T> + MeanOps<T> + AngleOps<T>>(
        opts: &ModelOptions,
        sources: &BodySources<T>,
        anchors: PhenotypeAnchors<T>,
        measures: &Measures<T>,
        ops: &O,
    ) -> (r: Result<Self, ModelError>)
        requires
            sources.sound(*opts),
            anchors.spaced(),
        ensures
            build_outcome(ops, *measures, *opts, *sources, anchors, r),
            r is Ok ==> r->Ok_0.wf(),
    {
        let zero = measures.zero;
        let mesh = &sources.mesh;
        let n: usize = mesh.vertices.len();
        let world = default_world_transform(measures.scale, zero, ops);
        let template = apply_world_transform(&mesh.vertices, &world, ops);
        let faces = match select_faces(opts, mesh) {
            Ok(faces) => faces,
            Err(e) => {
                return Err(e);
            },
        };
        let ghost chosen = faces;
        proof {
            if opts.remove_unattached_vertices {
                crate::models::full_model::lemma_selected_within(*opts, *mesh, faces, n as int);
            }
        }
        let mut weights = sources.weights.copied();
        let ghost before = weights;
        let built = Figure::build(
            opts,
            mesh,
            &template,
            faces,
            &sources.rig,
            &mut weights,
            zero,
            ops,
        );
        let ghost mut s = BuildSteps {
            world,
            template,
            faces: chosen,
            before,
            after: weights,
            stacked: arbitrary(),
        };
        assert(is_placed(ops, *measures, *opts, *sources, s));
        let figure = match built {
            Ok(figure) => figure,
            Err(e) => {
                return Err(e);
            },
        };
        let stacked = match load_all(
            &sources.targets,
            opts.include_genital_morphs,
            &template,
            &world,
            &measures.newborn,
            measures.one,
            ops,
        ) {
            Ok(stacked) => stacked,
            Err(e) => {
                assert(crate::models::full_model::figure_outcome(
                    ops,
                    zero,
                    *opts,
                    *mesh,
                    s.template@,
                    s.faces,
                    sources.rig@,
                    s.before,
                    s.after,
                    Ok(figure),
                ));
                return Err(ModelError::Macrodetails(e));
            },
        };
        proof {
            s.stacked = stacked;
            crate::models::rig::law_regressors_within(
                sources.rig@,
                *mesh,
                crate::names::views(opts.bones_to_remove@),
                before,
                weights,
                figure.hierarchy(),
                n as int,
            );
            lemma_rows_within(figure.head_regressors@, n as int);
            lemma_rows_within(figure.tail_regressors@, n as int);
        }
        let template_bone_heads = regress_joints(&template, &figure.head_regressors, zero, ops);
        let template_bone_tails = regress_joints(&template, &figure.tail_regressors, zero, ops);
        let bone_heads_blendshapes = joint_shapes(
            &stacked.blendshapes,
            &figure.head_regressors,
            n,
            zero,
            ops,
        );
        let bone_tails_blendshapes = joint_shapes(
            &stacked.blendshapes,
            &figure.tail_regressors,
            n,
            zero,
            ops,
        );
        let mut bone_rolls_rotmat: Vec<[[T; 3]; 3]> = Vec::new();
        for b in 0..figure.bone_rolls.len()
            invariant
                bone_rolls_rotmat@.len() == b,
                forall|d: int|
                    0 <= d < b ==> is_roll(
                        ops,
                        zero,
                        measures.one,
                        figure.bone_rolls@[d],
                        #[trigger] bone_rolls_rotmat@[d],
                    ),
        {
            bone_rolls_rotmat.push(roll(figure.bone_rolls[b], zero, measures.one, ops));
        }
        let StackedBlendShapes { blendshapes, mask, n_macrodetails: _, local_change_labels } =
            stacked;
        let model = Model {
            texture_coordinates: copy_row(&mesh.texture_coordinates),
            blendshapes: kept_shapes(blendshapes, &figure.base_mesh_vertex_indices, n),
            template_bone_heads,
            template_bone_tails,
            bone_heads_blendshapes,
            bone_tails_blendshapes,
            bone_rolls_rotmat,
            stacked_phenotype_blend_shapes_mask: mask,
            anchors,
            local_change_labels,
            figure,
        };
        proof {
            assert(is_model(ops, *measures, *opts, *sources, anchors, s, model));
            lemma_model_wf(ops, *measures, *opts, *sources, anchors, s, model);
        }
        Ok(model)
    }
}

proof fn lemma_rows_within(rows: Seq<Vec<u32>>, n: int)
    requires
        crate::models::rig::all_below(crate::data::obj::rows(rows), n),
    ensures
        crate::models::full_model::regressors_within(rows, n),
{
    let views = crate::data::obj::rows(rows);
    assert forall|b: int, k: int| 0 <= b < rows.len() && 0 <= k < rows[b]@.len() implies
        #[trigger] rows[b]@[k] < n by {
        assert(views[b] == rows[b]@);
        assert(views[b][k] < n);
    }
}

proof fn lemma_model_wf<T: Copy, O: Division<T> + Signs<T> + MeanOps<T> + AngleOps<T>>(
    ops: &O,
    measures: Measures<T>,
    opts: ModelOptions,
    sources: BodySources<T>,
    anchors: PhenotypeAnchors<T>,
    s: BuildSteps<T>,
    model: Model<T>,
)
    requires
        is_model(ops, measures, opts, sources, anchors, s, model),
        anchors.spaced(),
        shapes_of_size(s.stacked.blendshapes@, s.template@.len() as int),
    ensures
        model.wf(),
{
    let f = model.figure;
    assert forall|k: int| 0 <= k < model.blendshapes@.len() implies (
    #[trigger] model.blendshapes@[k])@.len() == f.template_vertices@.len() by {
        assert(s.stacked.blendshapes@[k]@.len() == s.template@.len());
    }
    assert forall|k: int| 0 <= k < model.bone_heads_blendshapes@.len() implies (
    #[trigger] model.bone_heads_blendshapes@[k])@.len() == f.bone_labels@.len() by {
        assert(crate::models::full_model::are_joints(
            ops,
            measures.zero,
            s.stacked.blendshapes@[k]@,
            f.head_regressors@,
            model.bone_heads_blendshapes@[k]@,
        ));
    }
    assert forall|k: int| 0 <= k < model.bone_tails_blendshapes@.len() implies (
    #[trigger] model.bone_tails_blendshapes@[k])@.len() == f.bone_labels@.len() by {
        assert(crate::models::full_model::are_joints(
            ops,
            measures.zero,
            s.stacked.blendshapes@[k]@,
            f.tail_regressors@,
            model.bone_tails_blendshapes@[k]@,
        ));
    }
}

} // verus!
