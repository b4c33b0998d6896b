//! The forward pass: from a phenotype and pose parameters to posed and skinned
//! bodies.
use vstd::prelude::*;

use crate::kinematics::bone_poses::{get_bone_poses, EndpointOps};
use crate::models::body::Model;
use crate::models::full_model::{copy_row, SkinningMethod};
use crate::models::local_changes::{local_change_activations, LocalChangeError};
use crate::models::matrices::Matrices;
use crate::models::pose::{pose_parameterization, pose_skeleton, PoseParameterization, PoseState};
use crate::phenotype::{blendshape_coefficients, CoefficientError, PhenotypeValues};
use crate::rotation::identity_matrix;
use crate::scalar::{Arithmetic, Bounds, Division};
use crate::skinning::{
    apply_linear_blendshape, dual_quaternion_skinning, linear_blend_skinning, MotionOps, SkinError,
};

verus! {

/// What stops the coefficients of a body from being computed.
#[derive(Debug, Clone)]
pub enum ShapeError {
    Coefficients(CoefficientError),
    LocalChange(LocalChangeError),
}

/// What stops a forward pass.
#[derive(Debug, Clone)]
pub enum ForwardError {
    Shape(ShapeError),
    /// The model has no bones.
    NoBones,
    /// There is not one pose for each element of the batch.
    Batch { have: usize, want: usize },
    /// A pose does not have one transform for each bone.
    BoneCount { have: usize, want: usize },
    Skin(SkinError),
}

/// Posed bodies, one for each element of a batch.
#[derive(Debug, Clone)]
pub struct ForwardOutput<T> {
    pub vertices: Vec<Vec<[T; 3]>>,
    pub rest_vertices: Vec<Vec<[T; 3]>>,
    pub skeletons: Vec<PoseState<[[T; 4]; 4]>>,
    pub blendshape_coeffs: Vec<Vec<T>>,
    /// The parameterization that the poses were given in.
    pub parameterization: PoseParameterization,
}

/// The numbers that bodies are computed with.
#[derive(Debug, Clone, Copy)]
pub struct Numbers<'a, O, T> {
    pub ops: &'a O,
    /// What a share of the races is where there is nothing to share.
    pub third: T,
    pub zero: T,
    pub one: T,
}

/// `whole` are the coefficients of the gated shapes, followed by the
/// activations of the local changes.
pub open spec fn are_joined<T, O: Arithmetic<T> + Bounds<T>>(
    ops: &O,
    zero: T,
    labels: Seq<String>,
    changes: Seq<(String, Vec<T>)>,
    gated: Seq<Vec<T>>,
    whole: Seq<Vec<T>>,
) -> bool {
    &&& whole.len() == gated.len()
    &&& forall|b: int|
        0 <= b < whole.len() ==> {
            let row = (#[trigger] whole[b])@;
            let n = gated[b]@.len() as int;
            &&& row.len() == n + 2 * labels.len()
            &&& row.take(n) == gated[b]@
            &&& crate::models::local_changes::is_activation_row(
                ops,
                zero,
                labels,
                changes,
                b,
                row.skip(n),
            )
        }
}

/// The values for every label are one for all or one for each element of the
/// batch.
pub open spec fn no_misfit<T>(
    labels: Seq<String>,
    changes: Seq<(String, Vec<T>)>,
    batch: int,
) -> bool {
    forall|i: int|
        0 <= i < labels.len() ==> !crate::models::local_changes::change_misfits(
            changes,
            (#[trigger] labels[i])@,
            batch,
        )
}

/// What the coefficients of a body come to.
pub open spec fn shape_outcome<T: Copy, O: Division<T> + Bounds<T>>(
    ops: &O,
    third: T,
    zero: T,
    one: T,
    model: Model<T>,
    values: PhenotypeValues<Vec<T>>,
    changes: Seq<(String, Vec<T>)>,
    r: Result<Vec<Vec<T>>, ShapeError>,
) -> bool {
    let masks = model.stacked_phenotype_blend_shapes_mask@;
    let labels = model.local_change_labels@;
    match r {
        Ok(whole) => {
            &&& no_misfit(labels, changes, whole@.len() as int)
            &&& exists|gated: Seq<Vec<T>>| #[trigger]
                crate::phenotype::rows::are_gated(
                    ops,
                    model.figure.extrapolate_phenotypes,
                    third,
                    zero,
                    one,
                    values,
                    model.anchors,
                    masks,
                    gated,
                ) && are_joined(ops, zero, labels, changes, gated, whole@)
        },
        Err(ShapeError::Coefficients(e)) => crate::phenotype::rows::coefficients_outcome(
            ops,
            model.figure.extrapolate_phenotypes,
            third,
            zero,
            one,
            values,
            model.anchors,
            masks,
            Err(e),
        ),
        Err(ShapeError::LocalChange(e)) => exists|gated: Seq<Vec<T>>| #[trigger]
            crate::phenotype::rows::are_gated(
                ops,
                model.figure.extrapolate_phenotypes,
                third,
                zero,
                one,
                values,
                model.anchors,
                masks,
                gated,
            ) && crate::models::local_changes::first_misfit(
                labels,
                changes,
                gated.len() as int,
                e,
            ),
    }
}

/// `out` are the template points with the weighted shapes added, for each row
/// of coefficients.
pub open spec fn are_shaped<T, O: Arithmetic<T>>(
    ops: &O,
    zero: T,
    template: Seq<[T; 3]>,
    shapes: Seq<Vec<[T; 3]>>,
    coefficients: Seq<Vec<T>>,
    out: Seq<Vec<[T; 3]>>,
) -> bool {
    &&& out.len() == coefficients.len()
    &&& forall|b: int| 0 <= b < out.len() ==> (#[trigger] out[b])@.len() == template.len()
    &&& forall|b: int, i: int, c: int|
        0 <= b < out.len() && 0 <= i < template.len() && 0 <= c < 3 ==> crate::skinning::is_shaped(
            ops,
            zero,
            template,
            shapes,
            coefficients[b]@,
            i,
            c,
            #[trigger] out[b]@[i]@[c],
        )
}

/// The axis that a bone lies on in its own frame.
pub open spec fn own_axis<T>(zero: T, one: T, axis: [T; 3]) -> bool {
    axis@ == seq![zero, one, zero]
}

/// `m` turns a bone over: it stands in where a bone points against its axis.
pub open spec fn is_turned_over<T, O: Arithmetic<T>>(
    ops: &O,
    zero: T,
    one: T,
    m: [[T; 3]; 3],
) -> bool {
    exists|n: T| #[trigger]
        crate::scalar::negative_of(ops, one, n) && crate::rotation::rows3(m) =~~= seq![
            seq![one, zero, zero],
            seq![zero, n, zero],
            seq![zero, zero, n],
        ]
}

/// `rest` are the rest poses of bones with the given heads and tails.
pub open spec fn are_rest_poses<T, O: EndpointOps<T>>(
    ops: &O,
    zero: T,
    one: T,
    rolls: Seq<[[T; 3]; 3]>,
    heads: Seq<[T; 3]>,
    tails: Seq<[T; 3]>,
    rest: Seq<[[T; 4]; 4]>,
) -> bool {
    exists|axis: [T; 3], over: [[T; 3]; 3]|
        {
            &&& #[trigger] own_axis(zero, one, axis)
            &&& #[trigger] is_turned_over(ops, zero, one, over)
            &&& rest.len() == heads.len()
            &&& forall|i: int|
                0 <= i < rest.len() ==> crate::kinematics::bone_poses::is_bone_pose(
                    ops,
                    heads[i],
                    tails[i],
                    rolls[i],
                    axis,
                    over,
                    zero,
                    one,
                    crate::rotation::rows4(#[trigger] rest[i]),
                )
        }
}

/// The parameters of element `b`: those given, or identities.
pub open spec fn are_pose_parameters<T>(
    zero: T,
    one: T,
    pose: Option<Seq<Vec<[[T; 4]; 4]>>>,
    bones: int,
    b: int,
    params: Seq<[[T; 4]; 4]>,
) -> bool {
    match pose {
        Some(rows) => params == rows[b]@,
        None => params.len() == bones && forall|i: int|
            0 <= i < bones ==> crate::rotation::rows4(#[trigger] params[i]) =~~= crate::rotation::identity_rows(
                zero,
                one,
            ),
    }
}

/// `s` is the skeleton of element `b`, posed.
pub open spec fn is_posed_element<T: Copy, O: EndpointOps<T>>(
    ops: &O,
    zero: T,
    one: T,
    model: Model<T>,
    mode: PoseParameterization,
    heads: Seq<[T; 3]>,
    tails: Seq<[T; 3]>,
    pose: Option<Seq<Vec<[[T; 4]; 4]>>>,
    b: int,
    s: PoseState<[[T; 4]; 4]>,
) -> bool {
    exists|rest: Vec<[[T; 4]; 4]>, params: Vec<[[T; 4]; 4]>, identity: [[T; 4]; 4]|
        {
            &&& #[trigger] are_rest_poses(
                ops,
                zero,
                one,
                model.bone_rolls_rotmat@,
                heads,
                tails,
                rest@,
            )
            &&& #[trigger] are_pose_parameters(
                zero,
                one,
                pose,
                model.figure.bone_labels@.len() as int,
                b,
                params@,
            )
            &&& crate::rotation::rows4(identity) =~~= crate::rotation::identity_rows(zero, one)
            &&& #[trigger] crate::models::pose::is_posed(
                &(Matrices { ops, zero, one }),
                mode,
                model.figure.bone_parents@,
                rest@,
                params@,
                identity,
                s,
            )
        }
}

/// The transforms of the skeletons.
pub open spec fn transforms_of<M>(skeletons: Seq<PoseState<M>>) -> Seq<Vec<M>> {
    skeletons.map_values(|s: PoseState<M>| s.transforms)
}

/// `q` is vertex `i` of element `b`, moved by the method of the model.
pub open spec fn is_moved_vertex<T: Copy, O: EndpointOps<T> + MotionOps<T>>(
    ops: &O,
    zero: T,
    one: T,
    model: Model<T>,
    rest: Seq<Vec<[T; 3]>>,
    transforms: Seq<Vec<[[T; 4]; 4]>>,
    b: int,
    i: int,
    q: [T; 3],
) -> bool {
    let k = model.figure.bone_labels@.len() as int;
    let weights = model.figure.vertex_bones.weights@[i]@;
    let ms = crate::skinning::gathered(
        transforms,
        k,
        b,
        model.figure.vertex_bones.indices@[i]@,
    );
    match model.figure.skinning_method {
        SkinningMethod::Lbs => crate::skinning::is_skinned(
            ops,
            zero,
            one,
            weights,
            ms,
            rest[b]@[i]@,
            q@,
        ),
        SkinningMethod::Dqs => crate::skinning::is_dual_skinned(
            ops,
            zero,
            one,
            weights,
            ms,
            rest[b]@[i],
            q,
        ),
    }
}

/// There is one pose for each element of the batch, and one transform in it
/// for each bone.
pub open spec fn pose_fits<M>(pose: Option<Seq<Vec<M>>>, batch: int, bones: int) -> bool {
    pose is Some ==> pose->0.len() == batch && forall|b: int|
        0 <= b < pose->0.len() ==> (#[trigger] pose->0[b])@.len() == bones
}

/// `out` are the bodies with the coefficients, in the poses.
pub open spec fn is_forward<T: Copy, O: EndpointOps<T> + MotionOps<T>>(
    ops: &O,
    zero: T,
    one: T,
    model: Model<T>,
    coefficients: Seq<Vec<T>>,
    pose: Option<Seq<Vec<[[T; 4]; 4]>>>,
    mode: PoseParameterization,
    out: ForwardOutput<T>,
) -> bool {
    let transforms = transforms_of(out.skeletons@);
    &&& model.figure.bone_labels@.len() > 0
    &&& coefficients.len() > 0
    &&& model.figure.skinning_method == SkinningMethod::Dqs
        ==> model.figure.vertex_bones.max_bones_per_vertex > 0
    &&& pose_fits(pose, coefficients.len() as int, model.figure.bone_labels@.len() as int)
    &&& out.blendshape_coeffs@ == coefficients
    &&& out.parameterization == mode
    &&& out.skeletons@.len() == coefficients.len()
    &&& all_bones_within(model, coefficients.len() as int)
    &&& are_skeletons(ops, zero, one, model, coefficients, pose, mode, out.skeletons@)
    &&& are_shaped(
        ops,
        zero,
        model.figure.template_vertices@,
        model.blendshapes@,
        coefficients,
        out.rest_vertices@,
    )
    &&& out.vertices@.len() == coefficients.len()
    &&& forall|b: int|
        0 <= b < out.vertices@.len() ==> (#[trigger] out.vertices@[b])@.len()
            == model.figure.template_vertices@.len()
    &&& forall|b: int, i: int|
        0 <= b < out.vertices@.len() && 0 <= i < model.figure.template_vertices@.len()
            ==> is_moved_vertex(
            ops,
            zero,
            one,
            model,
            out.rest_vertices@,
            transforms,
            b,
            i,
            #[trigger] out.vertices@[b]@[i],
        )
}

/// The skeletons of the bodies: heads and tails shaped by the coefficients,
/// rest poses between them, posed by the parameters.
pub open spec fn are_skeletons<T: Copy, O: EndpointOps<T> + MotionOps<T>>(
    ops: &O,
    zero: T,
    one: T,
    model: Model<T>,
    coefficients: Seq<Vec<T>>,
    pose: Option<Seq<Vec<[[T; 4]; 4]>>>,
    mode: PoseParameterization,
    skeletons: Seq<PoseState<[[T; 4]; 4]>>,
) -> bool {
    exists|heads: Seq<Vec<[T; 3]>>, tails: Seq<Vec<[T; 3]>>|
        {
            &&& #[trigger] are_shaped(
                ops,
                zero,
                model.template_bone_heads@,
                model.bone_heads_blendshapes@,
                coefficients,
                heads,
            )
            &&& #[trigger] are_shaped(
                ops,
                zero,
                model.template_bone_tails@,
                model.bone_tails_blendshapes@,
                coefficients,
                tails,
            )
            &&& forall|b: int|
                0 <= b < skeletons.len() ==> is_posed_element(
                    ops,
                    zero,
                    one,
                    model,
                    mode,
                    heads[b]@,
                    tails[b]@,
                    pose,
                    b,
                    #[trigger] skeletons[b],
                )
        }
}

/// The parameterization that is asked for, or the one of the model.
pub open spec fn chosen(
    asked: Option<PoseParameterization>,
    default: PoseParameterization,
) -> PoseParameterization {
    match asked {
        Some(p) => p,
        None => default,
    }
}

/// The first pose that does not have one transform for each bone is at `b`.
pub open spec fn first_short<M>(rows: Seq<Vec<M>>, bones: int, b: int) -> bool {
    &&& 0 <= b < rows.len()
    &&& rows[b]@.len() != bones
    &&& forall|d: int| 0 <= d < b ==> (#[trigger] rows[d])@.len() == bones
}

/// What a forward pass on given coefficients comes to.
pub open spec fn posed_outcome<T: Copy, O: EndpointOps<T> + MotionOps<T>>(
    ops: &O,
    zero: T,
    one: T,
    model: Model<T>,
    coefficients: Seq<Vec<T>>,
    pose: Option<Seq<Vec<[[T; 4]; 4]>>>,
    mode: PoseParameterization,
    r: Result<ForwardOutput<T>, ForwardError>,
) -> bool {
    let bones = model.figure.bone_labels@.len();
    match r {
        Ok(out) => is_forward(ops, zero, one, model, coefficients, pose, mode, out),
        Err(ForwardError::NoBones) => bones == 0,
        Err(ForwardError::Batch { have, want }) => {
            &&& bones > 0
            &&& want == coefficients.len()
            &&& pose is Some
            &&& have == pose->0.len()
            &&& have != want
        },
        Err(ForwardError::BoneCount { have, want }) => {
            &&& bones > 0
            &&& want == bones
            &&& pose is Some
            &&& pose->0.len() == coefficients.len()
            &&& exists|b: int| #[trigger]
                first_short(pose->0, bones as int, b) && have == pose->0[b]@.len()
        },
        Err(ForwardError::Skin(e)) => {
            &&& bones > 0
            &&& pose_fits(pose, coefficients.len() as int, bones as int)
            &&& skinning_fails(model, coefficients.len() as int, e)
        },
        Err(ForwardError::Shape(_)) => false,
    }
}

/// No vertex has a bone beyond the skeletons of the batch.
pub open spec fn all_bones_within<T>(model: Model<T>, batch: int) -> bool {
    let table = model.figure.vertex_bones;
    let k = model.figure.bone_labels@.len() as int;
    forall|b: int, i: int|
        0 <= b < batch && 0 <= i < table.indices@.len() ==> #[trigger] crate::skinning::bones_within(
            table.indices@[i]@,
            k,
            b,
            batch,
        )
}

/// Skinning fails: there is no body, a vertex has a bone beyond the skeleton,
/// or dual quaternions are to be mixed where no vertex has a bone.
pub open spec fn skinning_fails<T>(model: Model<T>, batch: int, e: SkinError) -> bool {
    let table = model.figure.vertex_bones;
    match e {
        SkinError::Batch { have, want } => batch == 0 && have == 0 && want == 1,
        SkinError::BoneIndex => !all_bones_within(model, batch),
        SkinError::NoBones => batch > 0 && table.max_bones_per_vertex == 0
            && model.figure.skinning_method == SkinningMethod::Dqs,
        SkinError::Coefficients => false,
    }
}

pub(crate) fn copy_rows<A: Copy>(rows: &Vec<Vec<A>>) -> (r: Vec<Vec<A>>)
    ensures
        r@.len() == rows@.len(),
        forall|i: int| 0 <= i < r@.len() ==> (#[trigger] r@[i])@ == rows@[i]@,
{
    let mut r: Vec<Vec<A>> = Vec::new();
    for i in 0..rows.len()
        invariant
            r@.len() == i,
            forall|j: int| 0 <= j < i ==> (#[trigger] r@[j])@ == rows@[j]@,
    {
        r.push(copy_row(&rows[i]));
    }
    r
}

fn turned_over<T: Copy, O: Arithmetic<T>>(zero: T, one: T, ops: &O) -> (r: [[T; 3]; 3])
    ensures
        is_turned_over(ops, zero, one, r),
{
    let n = ops.negative(one);
    let r = [[one, zero, zero], [zero, n, zero], [zero, zero, n]];
    assert(crate::scalar::negative_of(ops, one, n));
    assert(crate::rotation::rows3(r) =~~= seq![
        seq![one, zero, zero],
        seq![zero, n, zero],
        seq![zero, zero, n],
    ]);
    r
}

/// The rows of the table, as a batch of one.
fn as_batch<A: Copy>(rows: &Vec<Vec<A>>) -> (r: Vec<Vec<Vec<A>>>)
    ensures
        r@.len() == 1,
        r@[0]@.len() == rows@.len(),
        forall|i: int| 0 <= i < rows@.len() ==> (#[trigger] r@[0]@[i])@ == rows@[i]@,
{
    let mut r: Vec<Vec<Vec<A>>> = Vec::new();
    r.push(copy_rows(rows));
    r
}

impl<T: Copy> Model<T> {
    /// The coefficients of the blend shapes for each element of a batch: those
    /// that the phenotype selects, then those of the local changes. A change
    /// above zero drives its label in the one direction, a change below zero
    /// in the other; other names than the labels of the model are passed over.
    pub fn phenotype_coefficients_with_local_changes<O: Division<T> + Bounds<T>>(
        &self,
        values: &PhenotypeValues<Vec<T>>,
        changes: &Vec<(String, Vec<T>)>,
        numbers: &Numbers<O, T>,
    ) -> (r: Result<Vec<Vec<T>>, ShapeError>)
        requires
            self.anchors.spaced(),
        ensures
            shape_outcome(
                numbers.ops,
                numbers.third,
                numbers.zero,
                numbers.one,
                *self,
                *values,
                changes@,
                r,
            ),
    {
        let gated = match blendshape_coefficients(
            values,
            &self.anchors,
            &self.stacked_phenotype_blend_shapes_mask,
            self.figure.extrapolate_phenotypes,
            numbers.zero,
            numbers.one,
            numbers.ops,
            numbers.third,
        ) {
            Ok(gated) => gated,
            Err(e) => {
                return Err(ShapeError::Coefficients(e));
            },
        };
        let labels = &self.local_change_labels;
        let driven = match local_change_activations(
            labels,
            changes,
            gated.len(),
            numbers.zero,
            numbers.ops,
        ) {
            Ok(driven) => driven,
            Err(e) => {
                return Err(ShapeError::LocalChange(e));
            },
        };
        let mut whole: Vec<Vec<T>> = Vec::new();
        for b in 0..gated.len()
            invariant
                driven@.len() == gated@.len(),
                forall|e: int|
                    0 <= e < gated@.len() ==> crate::models::local_changes::is_activation_row(
                        numbers.ops,
                        numbers.zero,
                        labels@,
                        changes@,
                        e,
                        (#[trigger] driven@[e])@,
                    ),
                whole@.len() == b,
                forall|d: int|
                    0 <= d < b ==> (#[trigger] whole@[d])@ == gated@[d]@ + driven@[d]@,
        {
            let mut row = copy_row(&gated[b]);
            let mut more = copy_row(&driven[b]);
            row.append(&mut more);
            whole.push(row);
        }
        proof {
            assert forall|b: int| 0 <= b < whole@.len() implies {
                let row = (#[trigger] whole@[b])@;
                let n = gated@[b]@.len() as int;
                &&& row.len() == n + 2 * labels@.len()
                &&& row.take(n) == gated@[b]@
                &&& crate::models::local_changes::is_activation_row(
                    numbers.ops,
                    numbers.zero,
                    labels@,
                    changes@,
                    b,
                    row.skip(n),
                )
            } by {
                let n = gated@[b]@.len() as int;
                assert(whole@[b]@.take(n) =~= gated@[b]@);
                assert(whole@[b]@.skip(n) =~= driven@[b]@);
            }
            assert(are_joined(numbers.ops, numbers.zero, labels@, changes@, gated@, whole@));
        }
        Ok(whole)
    }

    /// The coefficients of the blend shapes without local changes.
    pub fn phenotype_coefficients<O: Division<T> + Bounds<T>>(
        &self,
        values: &PhenotypeValues<Vec<T>>,
        numbers: &Numbers<O, T>,
    ) -> (r: Result<Vec<Vec<T>>, ShapeError>)
        requires
            self.anchors.spaced(),
        ensures
            shape_outcome(
                numbers.ops,
                numbers.third,
                numbers.zero,
                numbers.one,
                *self,
                *values,
                Seq::<(String, Vec<T>)>::empty(),
                r,
            ),
    {
        let none: Vec<(String, Vec<T>)> = Vec::new();
        self.phenotype_coefficients_with_local_changes(values, &none, numbers)
    }

    fn skeleton<O: EndpointOps<T> + MotionOps<T>>(
        &self,
        heads: &Vec<[T; 3]>,
        tails: &Vec<[T; 3]>,
        pose: Option<&Vec<Vec<[[T; 4]; 4]>>>,
        b: usize,
        mode: PoseParameterization,
        numbers: &Numbers<O, T>,
    ) -> (s: PoseState<[[T; 4]; 4]>)
        requires
            self.wf(),
            self.figure.bone_labels@.len() > 0,
            heads@.len() == self.figure.bone_labels@.len(),
            tails@.len() == self.figure.bone_labels@.len(),
            pose is Some ==> b < pose->0@.len() && pose->0@[b as int]@.len()
                == self.figure.bone_labels@.len(),
        ensures
            is_posed_element(
                numbers.ops,
                numbers.zero,
                numbers.one,
                *self,
                mode,
                heads@,
                tails@,
                match pose {
                    Some(rows) => Some(rows@),
                    None => None,
                },
                b as int,
                s,
            ),
            s.transforms@.len() == self.figure.bone_labels@.len(),
    {
        let ops = numbers.ops;
        let zero = numbers.zero;
        let one = numbers.one;
        let bones: usize = self.figure.bone_labels.len();
        let axis = [zero, one, zero];
        let over = turned_over(zero, one, ops);
        let identity = identity_matrix(zero, one);
        let rest = get_bone_poses(
            heads,
            tails,
            &self.bone_rolls_rotmat,
            &axis,
            &over,
            zero,
            one,
            ops,
        );
        let params = match pose {
            Some(rows) => copy_row(&rows[b]),
            None => {
                let mut r: Vec<[[T; 4]; 4]> = Vec::new();
                for i in 0..bones
                    invariant
                        crate::rotation::rows4(identity) =~~= crate::rotation::identity_rows(zero, one),
                        r@.len() == i,
                        forall|j: int| 0 <= j < i ==> #[trigger] r@[j] == identity,
                {
                    r.push(identity);
                }
                r
            },
        };
        let matrices = Matrices { ops, zero, one };
        let ghost given = match pose {
            Some(rows) => Some(rows@),
            None => None,
        };
        let ghost first = rest;
        let ghost asked = params;
        proof {
            assert(axis@ =~= seq![zero, one, zero]);
            assert(own_axis(zero, one, axis));
            assert(are_rest_poses(
                ops,
                zero,
                one,
                self.bone_rolls_rotmat@,
                heads@,
                tails@,
                rest@,
            ));
            assert(are_pose_parameters(zero, one, given, bones as int, b as int, params@));
            assert(self.figure.bone_parents@ == self.figure.hierarchy().parents@);
            assert(self.figure.bone_parents.len() <= usize::MAX);
            assert forall|k: int| 0 <= k < self.figure.bone_parents@.len() implies
                #[trigger] crate::kinematics::leads_to_root(self.figure.bone_parents@, k) by {
                crate::kinematics::law_ordered_bones_descend(self.figure.bone_parents@, k);
            }
            crate::kinematics::law_fronts_cover(
                self.figure.bone_parents@,
                self.figure.propagation_fronts@,
            );
        }
        match pose_skeleton(
            &matrices,
            mode,
            &self.figure.propagation_fronts,
            &self.figure.bone_parents,
            rest,
            params,
            &identity,
        ) {
            Ok(s) => {
                proof {
                    assert(crate::models::pose::is_posed(
                        &matrices,
                        mode,
                        self.figure.bone_parents@,
                        first@,
                        asked@,
                        identity,
                        s,
                    ));
                    crate::models::pose::lemma_posed_lengths(
                        &matrices,
                        mode,
                        self.figure.bone_parents@,
                        first@,
                        asked@,
                        identity,
                        s,
                    );
                }
                s
            },
            Err(e) => {
                proof {
                    crate::models::matrices::law_posing_never_fails(
                        &matrices,
                        mode,
                        self.figure.propagation_fronts@,
                        self.figure.bone_parents@,
                        first@,
                        asked@,
                        identity,
                        e,
                    );
                }
                vstd::pervasive::unreached()
            },
        }
    }

    fn skinned<O: EndpointOps<T> + MotionOps<T>>(
        &self,
        rest: &Vec<Vec<[T; 3]>>,
        transforms: &Vec<Vec<[[T; 4]; 4]>>,
        numbers: &Numbers<O, T>,
    ) -> (r: Result<Vec<Vec<[T; 3]>>, SkinError>)
        requires
            self.wf(),
            self.figure.bone_labels@.len() > 0,
            rest@.len() == transforms@.len(),
            rest@.len() * self.figure.bone_labels@.len() <= u32::MAX,
            self.figure.bone_labels@.len() <= u32::MAX,
            forall|b: int|
                0 <= b < rest@.len() ==> (#[trigger] rest@[b])@.len()
                    == self.figure.template_vertices@.len(),
            forall|b: int|
                0 <= b < transforms@.len() ==> (#[trigger] transforms@[b])@.len()
                    == self.figure.bone_labels@.len(),
        ensures
            match r {
                Ok(out) => {
                    &&& out@.len() == rest@.len()
                    &&& out@.len() > 0
                    &&& self.figure.skinning_method == SkinningMethod::Dqs
                        ==> self.figure.vertex_bones.max_bones_per_vertex > 0
                    &&& forall|b: int|
                        0 <= b < out@.len() ==> (#[trigger] out@[b])@.len()
                            == self.figure.template_vertices@.len()
                    &&& forall|b: int, i: int|
                        0 <= b < out@.len() && 0 <= i < self.figure.template_vertices@.len()
                            ==> is_moved_vertex(
                            numbers.ops,
                            numbers.zero,
                            numbers.one,
                            *self,
                            rest@,
                            transforms@,
                            b,
                            i,
                            #[trigger] out@[b]@[i],
                        )
                    &&& all_bones_within(*self, out@.len() as int)
                },
                Err(e) => skinning_fails(*self, rest@.len() as int, e),
            },
    {
        let table = &self.figure.vertex_bones;
        let weights = as_batch(&table.weights);
        let indices = as_batch(&table.indices);
        let v: usize = self.figure.template_vertices.len();
        let m: usize = table.max_bones_per_vertex;
        let k: usize = self.figure.bone_labels.len();
        let ghost sizes = crate::skinning::sizes_of(rest@, weights@, indices@, transforms@);
        proof {
            assert(crate::skinning::skin_shape(
                rest@,
                weights@,
                indices@,
                transforms@,
                v as int,
                m as int,
                k as int,
            )) by {
                assert forall|b: int, i: int|
                    0 <= b < weights@.len() && 0 <= i < v implies (
                #[trigger] weights@[b]@[i])@.len() == m by {
                    assert(weights@[0]@[i]@ == table.weights@[i]@);
                }
                assert forall|b: int, i: int|
                    0 <= b < indices@.len() && 0 <= i < v implies (
                #[trigger] indices@[b]@[i])@.len() == m by {
                    assert(indices@[0]@[i]@ == table.indices@[i]@);
                }
            }
            assert forall|size: int| #[trigger] crate::skinning::is_batch(sizes, size) implies size
                * k <= u32::MAX by {
                lemma_batch(rest@, weights@, indices@, transforms@, size);
                if size == 1 {
                    assert(1 * k == k);
                }
            }
        }
        let r = match self.figure.skinning_method {
            SkinningMethod::Lbs => linear_blend_skinning(
                rest,
                &weights,
                &indices,
                transforms,
                v,
                m,
                k,
                numbers.zero,
                numbers.one,
                numbers.ops,
            ),
            SkinningMethod::Dqs => dual_quaternion_skinning(
                rest,
                &weights,
                &indices,
                transforms,
                v,
                m,
                k,
                numbers.zero,
                numbers.one,
                numbers.ops,
            ),
        };
        proof {
            match &r {
                Ok(out) => {
                    lemma_batch(rest@, weights@, indices@, transforms@, out@.len() as int);
                    assert forall|b: int, i: int|
                        0 <= b < out@.len() && 0 <= i < v implies is_moved_vertex(
                        numbers.ops,
                        numbers.zero,
                        numbers.one,
                        *self,
                        rest@,
                        transforms@,
                        b,
                        i,
                        #[trigger] out@[b]@[i],
                    ) by {
                        assert(weights@[0]@[i]@ == table.weights@[i]@);
                        assert(indices@[0]@[i]@ == table.indices@[i]@);
                    }
                    assert forall|b: int, i: int|
                        0 <= b < out@.len() && 0 <= i < table.indices@.len() implies
                        #[trigger] crate::skinning::bones_within(
                            table.indices@[i]@,
                            k as int,
                            b,
                            out@.len() as int,
                        ) by {
                        assert(indices@[0]@[i]@ == table.indices@[i]@);
                        assert(!crate::skinning::stray_bone(
                            sizes,
                            indices@,
                            k as int,
                            out@.len() as int,
                            b,
                            i,
                        ));
                    }
                    assert(all_bones_within(*self, out@.len() as int));
                },
                Err(SkinError::BoneIndex) => {
                    let (size, b, i) = choose|size: int, b: int, i: int| #[trigger]
                        crate::skinning::stray_bone(sizes, indices@, k as int, size, b, i) && 0
                            <= i < v;
                    lemma_batch(rest@, weights@, indices@, transforms@, size);
                    assert(indices@[0]@[i]@ == table.indices@[i]@);
                    assert(!crate::skinning::bones_within(
                        table.indices@[i]@,
                        k as int,
                        b,
                        rest@.len() as int,
                    ));
                },
                Err(SkinError::Batch { have, want }) => {
                    lemma_misfit(
                        rest@,
                        weights@,
                        indices@,
                        transforms@,
                        *have as int,
                        *want as int,
                    );
                },
                Err(SkinError::NoBones) => {
                    let size = choose|size: int| #[trigger]
                        crate::skinning::is_batch(sizes, size);
                    lemma_batch(rest@, weights@, indices@, transforms@, size);
                },
                Err(SkinError::Coefficients) => {},
            }
        }
        r
    }

    /// The bodies with the coefficients, in the poses: the joints and the
    /// vertices that the coefficients shape, the parameters resolved against
    /// the bones at rest, forward kinematics, and the vertices skinned by the
    /// method of the model. Without a pose the parameters are identities.
    pub fn posed<O: EndpointOps<T> + MotionOps<T>>(
        &self,
        coefficients: Vec<Vec<T>>,
        pose: Option<&Vec<Vec<[[T; 4]; 4]>>>,
        mode: PoseParameterization,
        numbers: &Numbers<O, T>,
    ) -> (r: Result<ForwardOutput<T>, ForwardError>)
        requires
            self.wf(),
            self.figure.bone_labels@.len() <= u32::MAX,
            coefficients@.len() * self.figure.bone_labels@.len() <= u32::MAX,
            forall|b: int|
                0 <= b < coefficients@.len() ==> (#[trigger] coefficients@[b])@.len()
                    == self.blendshapes@.len(),
        ensures
            posed_outcome(
                numbers.ops,
                numbers.zero,
                numbers.one,
                *self,
                coefficients@,
                match pose {
                    Some(rows) => Some(rows@),
                    None => None,
                },
                mode,
                r,
            ),
    {
        let ops = numbers.ops;
        let zero = numbers.zero;
        let ghost given = match pose {
            Some(rows) => Some(rows@),
            None => None,
        };
        let bones: usize = self.figure.bone_labels.len();
        let batch: usize = coefficients.len();
        if bones == 0 {
            return Err(ForwardError::NoBones);
        }
        if let Some(rows) = pose {
            if rows.len() != batch {
                return Err(ForwardError::Batch { have: rows.len(), want: batch });
            }
            for b in 0..batch
                invariant
                    batch == rows@.len(),
                    batch == coefficients@.len(),
                    bones == self.figure.bone_labels@.len(),
                    bones > 0,
                    pose == Some(rows),
                    given == Some(rows@),
                    forall|d: int| 0 <= d < b ==> (#[trigger] rows@[d])@.len() == bones,
            {
                if rows[b].len() != bones {
                    assert(first_short(given->0, bones as int, b as int));
                    assert(given->0.len() == coefficients@.len());
                    return Err(ForwardError::BoneCount { have: rows[b].len(), want: bones });
                }
            }
        }
        let heads = match apply_linear_blendshape(
            &self.template_bone_heads,
            &self.bone_heads_blendshapes,
            &coefficients,
            zero,
            ops,
        ) {
            Ok(heads) => heads,
            Err(e) => {
                return Err(ForwardError::Skin(e));
            },
        };
        let tails = match apply_linear_blendshape(
            &self.template_bone_tails,
            &self.bone_tails_blendshapes,
            &coefficients,
            zero,
            ops,
        ) {
            Ok(tails) => tails,
            Err(e) => {
                return Err(ForwardError::Skin(e));
            },
        };
        let mut skeletons: Vec<PoseState<[[T; 4]; 4]>> = Vec::new();
        let mut transforms: Vec<Vec<[[T; 4]; 4]>> = Vec::new();
        for b in 0..batch
            invariant
                self.wf(),
                ops == numbers.ops,
                zero == numbers.zero,
                bones == self.figure.bone_labels@.len(),
                bones > 0,
                given == match pose {
                    Some(rows) => Some(rows@),
                    None => None,
                },
                pose is Some ==> pose->0@.len() == batch && forall|d: int|
                    0 <= d < batch ==> (#[trigger] pose->0@[d])@.len() == bones,
                heads@.len() == batch,
                tails@.len() == batch,
                forall|d: int| 0 <= d < batch ==> (#[trigger] heads@[d])@.len() == bones,
                forall|d: int| 0 <= d < batch ==> (#[trigger] tails@[d])@.len() == bones,
                skeletons@.len() == b,
                transforms@.len() == b,
                forall|d: int| 0 <= d < b ==> (#[trigger] transforms@[d])@.len() == bones,
                forall|d: int|
                    0 <= d < b ==> (#[trigger] transforms@[d])@ == skeletons@[d].transforms@,
                forall|d: int|
                    0 <= d < b ==> is_posed_element(
                        ops,
                        zero,
                        numbers.one,
                        *self,
                        mode,
                        heads@[d]@,
                        tails@[d]@,
                        given,
                        d,
                        #[trigger] skeletons@[d],
                    ),
        {
            let s = self.skeleton(&heads[b], &tails[b], pose, b, mode, numbers);
            transforms.push(copy_row(&s.transforms));
            skeletons.push(s);
        }
        let rest_vertices = match apply_linear_blendshape(
            &self.figure.template_vertices,
            &self.blendshapes,
            &coefficients,
            zero,
            ops,
        ) {
            Ok(rest_vertices) => rest_vertices,
            Err(e) => {
                return Err(ForwardError::Skin(e));
            },
        };
        let vertices = match self.skinned(&rest_vertices, &transforms, numbers) {
            Ok(vertices) => vertices,
            Err(e) => {
                return Err(ForwardError::Skin(e));
            },
        };
        let out = ForwardOutput {
            vertices,
            rest_vertices,
            skeletons,
            blendshape_coeffs: coefficients,
            parameterization: mode,
        };
        proof {
            assert(are_shaped(
                ops,
                zero,
                self.template_bone_heads@,
                self.bone_heads_blendshapes@,
                coefficients@,
                heads@,
            ));
            assert(are_shaped(
                ops,
                zero,
                self.template_bone_tails@,
                self.bone_tails_blendshapes@,
                coefficients@,
                tails@,
            ));
            let views = transforms_of(skeletons@);
            assert forall|b: int, i: int|
                0 <= b < vertices@.len() && 0 <= i < self.figure.template_vertices@.len() implies
                is_moved_vertex(
                    ops,
                    zero,
                    numbers.one,
                    *self,
                    rest_vertices@,
                    views,
                    b,
                    i,
                    #[trigger] vertices@[b]@[i],
                ) by {
                assert(all_bones_within(*self, batch as int));
                assert(crate::skinning::bones_within(
                    self.figure.vertex_bones.indices@[i]@,
                    bones as int,
                    b,
                    batch as int,
                ));
                lemma_same_transforms(
                    transforms@,
                    views,
                    bones as int,
                    b,
                    self.figure.vertex_bones.indices@[i]@,
                );
            }
        }
        Ok(out)
    }
}

/// What a forward pass comes to.
pub open spec fn forward_outcome<
    T: Copy,
    O: EndpointOps<T> + MotionOps<T>,
>(
    ops: &O,
    third: T,
    zero: T,
    one: T,
    model: Model<T>,
    pose: Option<Seq<Vec<[[T; 4]; 4]>>>,
    values: PhenotypeValues<Vec<T>>,
    changes: Seq<(String, Vec<T>)>,
    asked: Option<PoseParameterization>,
    r: Result<ForwardOutput<T>, ForwardError>,
) -> bool {
    match r {
        Err(ForwardError::Shape(e)) => shape_outcome(
            ops,
            third,
            zero,
            one,
            model,
            values,
            changes,
            Err(e),
        ),
        _ => exists|coefficients: Vec<Vec<T>>| #[trigger]
            shape_outcome(ops, third, zero, one, model, values, changes, Ok(coefficients))
                && posed_outcome(
                ops,
                zero,
                one,
                model,
                coefficients@,
                pose,
                chosen(asked, model.figure.default_pose_parameterization),
                r,
            ),
    }
}

/// The bones of a batch of phenotypes can be counted.
pub open spec fn countable<T>(values: PhenotypeValues<Vec<T>>, bones: int) -> bool {
    &&& bones <= u32::MAX
    &&& forall|n: nat| #[trigger]
        crate::phenotype::rows::is_largest(crate::phenotype::rows::value_counts(values), n) ==> n
            * bones <= u32::MAX
}

proof fn lemma_row_lengths<T: Copy, O: Division<T> + Bounds<T>>(
    ops: &O,
    third: T,
    zero: T,
    one: T,
    model: Model<T>,
    values: PhenotypeValues<Vec<T>>,
    changes: Seq<(String, Vec<T>)>,
    coefficients: Vec<Vec<T>>,
)
    requires
        model.wf(),
        shape_outcome(ops, third, zero, one, model, values, changes, Ok(coefficients)),
    ensures
        crate::phenotype::rows::is_largest(
            crate::phenotype::rows::value_counts(values),
            coefficients@.len(),
        ),
        forall|b: int|
            0 <= b < coefficients@.len() ==> (#[trigger] coefficients@[b])@.len()
                == model.blendshapes@.len(),
{
    let masks = model.stacked_phenotype_blend_shapes_mask@;
    let gated = choose|gated: Seq<Vec<T>>| #[trigger]
        crate::phenotype::rows::are_gated(
            ops,
            model.figure.extrapolate_phenotypes,
            third,
            zero,
            one,
            values,
            model.anchors,
            masks,
            gated,
        ) && are_joined(ops, zero, model.local_change_labels@, changes, gated, coefficients@);
    assert forall|b: int| 0 <= b < coefficients@.len() implies (
    #[trigger] coefficients@[b])@.len() == model.blendshapes@.len() by {
        assert(gated[b]@.len() == masks.len());
    }
}

/// A forward pass makes one body for each element of the batch.
pub proof fn lemma_forward_size<T: Copy, O: EndpointOps<T> + MotionOps<T>>(
    ops: &O,
    third: T,
    zero: T,
    one: T,
    model: Model<T>,
    pose: Option<Seq<Vec<[[T; 4]; 4]>>>,
    values: PhenotypeValues<Vec<T>>,
    changes: Seq<(String, Vec<T>)>,
    asked: Option<PoseParameterization>,
    out: ForwardOutput<T>,
)
    requires
        model.wf(),
        forward_outcome(ops, third, zero, one, model, pose, values, changes, asked, Ok(out)),
    ensures
        crate::phenotype::rows::is_largest(
            crate::phenotype::rows::value_counts(values),
            out.vertices@.len(),
        ),
        forall|b: int|
            0 <= b < out.vertices@.len() ==> (#[trigger] out.vertices@[b])@.len()
                == model.figure.template_vertices@.len(),
{
    let coefficients = choose|coefficients: Vec<Vec<T>>| #[trigger]
        shape_outcome(ops, third, zero, one, model, values, changes, Ok(coefficients))
            && posed_outcome(
            ops,
            zero,
            one,
            model,
            coefficients@,
            pose,
            chosen(asked, model.figure.default_pose_parameterization),
            Ok(out),
        );
    lemma_row_lengths(ops, third, zero, one, model, values, changes, coefficients);
}

fn copy_state<M: Copy>(s: &PoseState<M>) -> (r: PoseState<M>)
    ensures
        r.rest@ == s.rest@,
        r.delta@ == s.delta@,
        r.base == s.base,
        r.poses@ == s.poses@,
        r.transforms@ == s.transforms@,
{
    PoseState {
        rest: copy_row(&s.rest),
        delta: copy_row(&s.delta),
        base: s.base,
        poses: copy_row(&s.poses),
        transforms: copy_row(&s.transforms),
    }
}

impl<T: Copy> Model<T> {
    /// The bodies of a batch of phenotypes and local changes, in the poses.
    /// Without a parameterization the poses are taken by the one of the model.
    pub fn forward_with_local_changes<O: EndpointOps<T> + MotionOps<T>>(
        &self,
        pose: Option<&Vec<Vec<[[T; 4]; 4]>>>,
        values: &PhenotypeValues<Vec<T>>,
        changes: &Vec<(String, Vec<T>)>,
        asked: Option<PoseParameterization>,
        numbers: &Numbers<O, T>,
    ) -> (r: Result<ForwardOutput<T>, ForwardError>)
        requires
            self.wf(),
            countable(*values, self.figure.bone_labels@.len() as int),
        ensures
            forward_outcome(
                numbers.ops,
                numbers.third,
                numbers.zero,
                numbers.one,
                *self,
                match pose {
                    Some(rows) => Some(rows@),
                    None => None,
                },
                *values,
                changes@,
                asked,
                r,
            ),
    {
        let coefficients = match self.phenotype_coefficients_with_local_changes(
            values,
            changes,
            numbers,
        ) {
            Ok(coefficients) => coefficients,
            Err(e) => {
                return Err(ForwardError::Shape(e));
            },
        };
        proof {
            lemma_row_lengths(
                numbers.ops,
                numbers.third,
                numbers.zero,
                numbers.one,
                *self,
                *values,
                changes@,
                coefficients,
            );
        }
        let mode = match asked {
            Some(p) => p,
            None => self.figure.default_pose_parameterization,
        };
        self.posed(coefficients, pose, mode, numbers)
    }

    /// The bodies of a batch of phenotypes, in the poses.
    pub fn forward<O: EndpointOps<T> + MotionOps<T>>(
        &self,
        pose: Option<&Vec<Vec<[[T; 4]; 4]>>>,
        values: &PhenotypeValues<Vec<T>>,
        asked: Option<PoseParameterization>,
        numbers: &Numbers<O, T>,
    ) -> (r: Result<ForwardOutput<T>, ForwardError>)
        requires
            self.wf(),
            countable(*values, self.figure.bone_labels@.len() as int),
        ensures
            forward_outcome(
                numbers.ops,
                numbers.third,
                numbers.zero,
                numbers.one,
                *self,
                match pose {
                    Some(rows) => Some(rows@),
                    None => None,
                },
                *values,
                Seq::<(String, Vec<T>)>::empty(),
                asked,
                r,
            ),
    {
        let none: Vec<(String, Vec<T>)> = Vec::new();
        self.forward_with_local_changes(pose, values, &none, asked, numbers)
    }
}

impl<T: Copy> ForwardOutput<T> {
    /// Every skeleton has bones, and one entry for each of them.
    pub open spec fn wf(&self) -> bool {
        forall|b: int|
            0 <= b < self.skeletons@.len() ==> {
                let s = #[trigger] self.skeletons@[b];
                &&& s.rest@.len() > 0
                &&& s.delta@.len() == s.rest@.len()
                &&& s.poses@.len() == s.rest@.len()
            }
    }

    /// The parameters that pose the bodies as they are, under another
    /// parameterization.
    pub fn pose_parameterization<O: Arithmetic<T>>(
        &self,
        target: PoseParameterization,
        zero: T,
        one: T,
        ops: &O,
    ) -> (r: Vec<Vec<[[T; 4]; 4]>>)
        requires
            self.wf(),
        ensures
            r@.len() == self.skeletons@.len(),
            forall|b: int|
                0 <= b < r@.len() ==> crate::models::pose::are_parameters(
                    &(Matrices { ops, zero, one }),
                    self.skeletons@[b],
                    target,
                    (#[trigger] r@[b])@,
                ),
    {
        let matrices = Matrices { ops, zero, one };
        let mut r: Vec<Vec<[[T; 4]; 4]>> = Vec::new();
        for b in 0..self.skeletons.len()
            invariant
                self.wf(),
                matrices == (Matrices { ops, zero, one }),
                r@.len() == b,
                forall|d: int|
                    0 <= d < b ==> crate::models::pose::are_parameters(
                        &matrices,
                        self.skeletons@[d],
                        target,
                        (#[trigger] r@[d])@,
                    ),
        {
            assert(self.skeletons@[b as int].rest@.len() > 0);
            let s = copy_state(&self.skeletons[b]);
            let ghost copied = s;
            match pose_parameterization(&matrices, s, target) {
                Ok(params) => {
                    assert(crate::models::pose::are_parameters(
                        &matrices,
                        copied,
                        target,
                        params@,
                    ));
                    r.push(params);
                },
                Err(e) => {
                    proof {
                        crate::models::matrices::law_parameters_never_fail(
                            &matrices,
                            copied,
                            target,
                            e,
                        );
                    }
                },
            }
        }
        r
    }
}

/// The skeletons of a forward pass have one entry for each bone of the model.
pub proof fn law_forward_sound<T: Copy, O: EndpointOps<T> + MotionOps<T>>(
    ops: &O,
    zero: T,
    one: T,
    model: Model<T>,
    coefficients: Seq<Vec<T>>,
    pose: Option<Seq<Vec<[[T; 4]; 4]>>>,
    mode: PoseParameterization,
    out: ForwardOutput<T>,
)
    requires
        model.wf(),
        is_forward(ops, zero, one, model, coefficients, pose, mode, out),
    ensures
        out.wf(),
        forall|b: int|
            0 <= b < out.skeletons@.len() ==> (#[trigger] out.skeletons@[b]).rest@.len()
                == model.figure.bone_labels@.len(),
{
    let (heads, tails) = choose|heads: Seq<Vec<[T; 3]>>, tails: Seq<Vec<[T; 3]>>|
        {
            &&& #[trigger] are_shaped(
                ops,
                zero,
                model.template_bone_heads@,
                model.bone_heads_blendshapes@,
                coefficients,
                heads,
            )
            &&& #[trigger] are_shaped(
                ops,
                zero,
                model.template_bone_tails@,
                model.bone_tails_blendshapes@,
                coefficients,
                tails,
            )
            &&& forall|b: int|
                0 <= b < out.skeletons@.len() ==> is_posed_element(
                    ops,
                    zero,
                    one,
                    model,
                    mode,
                    heads[b]@,
                    tails[b]@,
                    pose,
                    b,
                    #[trigger] out.skeletons@[b],
                )
        };
    assert forall|b: int| 0 <= b < out.skeletons@.len() implies {
        let s = #[trigger] out.skeletons@[b];
        &&& s.rest@.len() == model.figure.bone_labels@.len()
        &&& s.delta@.len() == s.rest@.len()
        &&& s.poses@.len() == s.rest@.len()
    } by {
        let s = out.skeletons@[b];
        let (rest, params, identity) = choose|
            rest: Vec<[[T; 4]; 4]>,
            params: Vec<[[T; 4]; 4]>,
            identity: [[T; 4]; 4],
        |
            {
                &&& #[trigger] are_rest_poses(
                    ops,
                    zero,
                    one,
                    model.bone_rolls_rotmat@,
                    heads[b]@,
                    tails[b]@,
                    rest@,
                )
                &&& #[trigger] are_pose_parameters(
                    zero,
                    one,
                    pose,
                    model.figure.bone_labels@.len() as int,
                    b,
                    params@,
                )
                &&& crate::rotation::rows4(identity) =~~= crate::rotation::identity_rows(zero, one)
                &&& #[trigger] crate::models::pose::is_posed(
                    &(Matrices { ops, zero, one }),
                    mode,
                    model.figure.bone_parents@,
                    rest@,
                    params@,
                    identity,
                    s,
                )
            };
        assert(heads[b]@.len() == model.template_bone_heads@.len());
        crate::models::pose::lemma_posed_lengths(
            &(Matrices { ops, zero, one }),
            mode,
            model.figure.bone_parents@,
            rest@,
            params@,
            identity,
            s,
        );
    }
}

proof fn lemma_batch<T, P, M>(
    rest: Seq<Vec<P>>,
    weights: Seq<Vec<Vec<T>>>,
    indices: Seq<Vec<Vec<u32>>>,
    transforms: Seq<Vec<M>>,
    size: int,
)
    requires
        weights.len() == 1,
        indices.len() == 1,
        rest.len() == transforms.len(),
        crate::skinning::is_batch(
            crate::skinning::sizes_of(rest, weights, indices, transforms),
            size,
        ),
    ensures
        size == rest.len(),
{
    let sizes = crate::skinning::sizes_of(rest, weights, indices, transforms);
    assert(crate::skinning::broadcasts(sizes[0], size));
    if size != 1 {
        let i = choose|i: int| 0 <= i < sizes.len() && sizes[i] == size as nat;
        assert(i == 0 || i == 1 || i == 2 || i == 3);
    }
}

proof fn lemma_misfit<T, P, M>(
    rest: Seq<Vec<P>>,
    weights: Seq<Vec<Vec<T>>>,
    indices: Seq<Vec<Vec<u32>>>,
    transforms: Seq<Vec<M>>,
    have: int,
    want: int,
)
    requires
        weights.len() == 1,
        indices.len() == 1,
        rest.len() == transforms.len(),
        crate::skinning::misfits(
            crate::skinning::sizes_of(rest, weights, indices, transforms),
            have,
            want,
        ),
    ensures
        rest.len() == 0,
        have == 0,
        want == 1,
{
    let sizes = crate::skinning::sizes_of(rest, weights, indices, transforms);
    assert(sizes[0] <= want);
    let i = choose|i: int|
        {
            &&& 0 <= i < sizes.len()
            &&& #[trigger] sizes[i] == have
            &&& !crate::skinning::broadcasts(sizes[i], want)
            &&& forall|j: int|
                0 <= j < i ==> crate::skinning::broadcasts(#[trigger] sizes[j], want)
        };
    assert(i == 0 || i == 1 || i == 2 || i == 3);
    if want != 1 {
        let j = choose|j: int| 0 <= j < sizes.len() && sizes[j] == want as nat;
        assert(j == 0 || j == 1 || j == 2 || j == 3);
    }
}

proof fn lemma_same_transforms<M>(
    a: Seq<Vec<M>>,
    b: Seq<Vec<M>>,
    k: int,
    e: int,
    bones: Seq<u32>,
)
    requires
        a.len() == b.len(),
        forall|d: int| 0 <= d < a.len() ==> (#[trigger] a[d])@ == b[d]@,
        k > 0,
        0 <= e < a.len(),
        crate::skinning::bones_within(bones, k, e, a.len() as int),
    ensures
        crate::skinning::gathered(a, k, e, bones) == crate::skinning::gathered(b, k, e, bones),
{
    let size = a.len() as int;
    assert forall|s: int| 0 <= s < bones.len() implies crate::skinning::transform_of(
        a,
        k,
        e,
        bones[s],
    ) == #[trigger] crate::skinning::transform_of(b, k, e, bones[s]) by {
        let at = e * k + bones[s];
        assert(at < size * k);
        assert(0 <= at / k < size) by (nonlinear_arith)
            requires
                0 <= at < size * k,
                k > 0,
        ;
        let d = crate::skinning::element(a.len(), at / k);
        assert(a[d]@ == b[d]@);
    }
    assert(crate::skinning::gathered(a, k, e, bones) =~= crate::skinning::gathered(
        b,
        k,
        e,
        bones,
    ));
}

} // verus!
