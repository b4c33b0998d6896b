//! What a body has from its options.
use vstd::prelude::*;

use crate::models::body::{BodySources, BuildSteps, Measures, Model};
use crate::models::full_model::{ModelError, ModelOptions, PrunedMesh};
use crate::models::rig::VertexBoneMatrix;
use crate::phenotype::PhenotypeAnchors;
use crate::rotation::AngleOps;
use crate::scalar::{Division, Signs};
use crate::utils::mean::MeanOps;

verus! {

/// A body has its ways of posing, of skinning and of taking phenotypes from the options of
/// the same name. It knows the former places of its vertices exactly where the options
/// drop those that no face uses. Its faces are those that were selected, with their
/// texture coordinates: each corner is where the vertex of the whole template is, and
/// nothing is dropped that a face uses.
pub proof fn law_bodies_follow_their_options<
    T: Copy,
    O: Division<T> + Signs<T> + MeanOps<T> + AngleOps<T>,
>(
    ops: &O,
    measures: Measures<T>,
    opts: ModelOptions,
    sources: BodySources<T>,
    anchors: PhenotypeAnchors<T>,
    model: Model<T>,
    f: int,
    k: int,
) -> (s: BuildSteps<T>)
    requires
        call_ensures(
            Model::<T>::build::<O>,
            (&opts, &sources, anchors, &measures, ops),
            Ok::<Model<T>, ModelError>(model),
        ),
    ensures
        model.figure.default_pose_parameterization == opts.default_pose_parameterization,
        model.figure.skinning_method == opts.skinning_method,
        model.figure.extrapolate_phenotypes == opts.extrapolate_phenotypes,
        model.figure.all_phenotypes == opts.all_phenotypes,
        model.figure.base_mesh_vertex_indices is Some <==> opts.remove_unattached_vertices,
        model.anchors == anchors,
        model.texture_coordinates@ == sources.mesh.texture_coordinates@,
        crate::models::full_model::selection_outcome(opts, sources.mesh, Ok(s.faces)),
        model.figure.face_texture_coordinate_indices == s.faces.texture,
        model.figure.faces@.len() == s.faces.vertices@.len(),
        0 <= f < s.faces.vertices@.len() ==> model.figure.faces@[f]@.len()
            == s.faces.vertices@[f]@.len(),
        0 <= f < s.faces.vertices@.len() && 0 <= k < s.faces.vertices@[f]@.len()
            ==> model.figure.template_vertices@[model.figure.faces@[f]@[k] as int]
            == s.template@[s.faces.vertices@[f]@[k] as int],
{
    assert(crate::models::body::build_outcome(ops, measures, opts, sources, anchors, Ok(model)));
    let s = choose|s: BuildSteps<T>| #[trigger]
        crate::models::body::is_model(ops, measures, opts, sources, anchors, s, model);
    let m = model.figure;
    let table = choose|table: VertexBoneMatrix<T>|
        {
            &&& #[trigger] crate::models::rig::is_vertex_bone_matrix(
                s.after,
                m.bone_labels@,
                s.template@.len() as int,
                measures.zero,
                ops,
                table,
            )
            &&& opts.remove_unattached_vertices ==> crate::models::full_model::is_pruned(
                s.template@,
                table,
                s.faces.vertices@,
                PrunedMesh {
                    template_vertices: m.template_vertices,
                    vertex_bones: m.vertex_bones,
                    faces: m.faces,
                    kept: m.base_mesh_vertex_indices->0,
                },
            )
        };
    if opts.remove_unattached_vertices {
        let pruned = PrunedMesh {
            template_vertices: m.template_vertices,
            vertex_bones: m.vertex_bones,
            faces: m.faces,
            kept: m.base_mesh_vertex_indices->0,
        };
        crate::models::full_model::law_pruning_keeps_shape(
            s.template@,
            table,
            s.faces.vertices@,
            pruned,
        );
        if 0 <= f < s.faces.vertices@.len() {
            assert(crate::models::full_model::renumbered(
                s.faces.vertices@[f]@,
                pruned.faces@[f]@,
                pruned.kept@,
            ));
            if 0 <= k < s.faces.vertices@[f]@.len() {
                assert(pruned.faces@[f]@[k] < pruned.kept@.len());
            }
        }
    }
    s
}

} // verus!
