//! The bodies of a batch are those of its elements, one by one.
use vstd::prelude::*;

use crate::kinematics::bone_poses::EndpointOps;
use crate::models::body::Model;
use crate::models::forward::ForwardOutput;
use crate::models::matrices::Matrices;
use crate::models::pose::{PoseParameterization, PoseState};
use crate::phenotype::rows::PhenotypeAnchors;
use crate::phenotype::PhenotypeValues;
use crate::scalar::{Arithmetic, Bounds, Division};
use crate::skinning::dual::MotionOps;

verus! {

/// `one` holds the value of element `b` alone.
pub open spec fn is_value_of<T>(values: Vec<T>, b: int, one: Vec<T>) -> bool {
    one@ == seq![crate::phenotype::element(values@, b)]
}

/// `one` is the phenotype of element `b` alone.
pub open spec fn is_phenotype_of<T>(
    values: PhenotypeValues<Vec<T>>,
    b: int,
    one: PhenotypeValues<Vec<T>>,
) -> bool {
    &&& is_value_of(values.age, b, one.age)
    &&& is_value_of(values.gender, b, one.gender)
    &&& is_value_of(values.muscle, b, one.muscle)
    &&& is_value_of(values.weight, b, one.weight)
    &&& is_value_of(values.height, b, one.height)
    &&& is_value_of(values.proportions, b, one.proportions)
    &&& is_value_of(values.cupsize, b, one.cupsize)
    &&& is_value_of(values.firmness, b, one.firmness)
    &&& is_value_of(values.african, b, one.african)
    &&& is_value_of(values.asian, b, one.asian)
    &&& is_value_of(values.caucasian, b, one.caucasian)
}

/// The pose of element `b` alone.
pub open spec fn pose_of<M>(pose: Option<Seq<Vec<M>>>, b: int) -> Option<Seq<Vec<M>>> {
    match pose {
        Some(rows) => Some(seq![rows[b]]),
        None => None,
    }
}

/// `one` are the changes of element `b` alone.
pub open spec fn are_changes_of<T>(
    changes: Seq<(String, Vec<T>)>,
    b: int,
    one: Seq<(String, Vec<T>)>,
) -> bool {
    &&& one.len() == changes.len()
    &&& forall|i: int|
        0 <= i < one.len() ==> {
            &&& (#[trigger] one[i]).0@ == changes[i].0@
            &&& is_value_of(changes[i].1, b, one[i].1)
        }
}

/// `one` is the body of element `b` alone.
pub open spec fn is_output_of<T>(out: ForwardOutput<T>, b: int, one: ForwardOutput<T>) -> bool {
    &&& one.vertices@ == seq![out.vertices@[b]]
    &&& one.rest_vertices@ == seq![out.rest_vertices@[b]]
    &&& one.skeletons@ == seq![out.skeletons@[b]]
    &&& one.blendshape_coeffs@ == seq![out.blendshape_coeffs@[b]]
    &&& one.parameterization == out.parameterization
}

proof fn lemma_stacked<T>(parts: Seq<Seq<Vec<T>>>, b: int, one: Seq<Seq<Vec<T>>>, n: nat)
    requires
        forall|i: int|
            0 <= i < n ==> #[trigger] one[i] == seq![crate::phenotype::element(parts[i], b)],
    ensures
        crate::phenotype::stacked(one, 0, n) == crate::phenotype::stacked(parts, b, n),
    decreases n,
{
    if n > 0 {
        lemma_stacked(parts, b, one, (n - 1) as nat);
        assert(one[n - 1] == seq![crate::phenotype::element(parts[n - 1], b)]);
    }
}

proof fn lemma_gated<T, O: Division<T> + Bounds<T>>(
    ops: &O,
    extrapolate: bool,
    third: T,
    zero: T,
    one: T,
    values: PhenotypeValues<Vec<T>>,
    anchors: PhenotypeAnchors<T>,
    masks: Seq<Vec<bool>>,
    r: Seq<Vec<T>>,
    b: int,
    single: PhenotypeValues<Vec<T>>,
)
    requires
        crate::phenotype::rows::are_gated(
            ops,
            extrapolate,
            third,
            zero,
            one,
            values,
            anchors,
            masks,
            r,
        ),
        0 <= b < r.len(),
        is_phenotype_of(values, b, single),
    ensures
        crate::phenotype::rows::are_gated(
            ops,
            extrapolate,
            third,
            zero,
            one,
            single,
            anchors,
            masks,
            seq![r[b]],
        ),
{
    let rows = choose|rows: Seq<Vec<T>>|
        {
            &&& #[trigger] crate::phenotype::rows::are_phenotype_rows(
                ops,
                extrapolate,
                third,
                zero,
                one,
                values,
                anchors,
                rows,
            )
            &&& forall|c: int|
                0 <= c < masks.len() ==> (#[trigger] masks[c])@.len()
                    == crate::phenotype::rows::column_count(anchors)
            &&& crate::phenotype::rows::are_coefficients(ops, one, rows, masks, r)
        };
    let batch = rows.len() as int;
    let parts = choose|parts: Seq<Seq<Vec<T>>>| #[trigger]
        crate::phenotype::rows::are_parts(
            ops,
            extrapolate,
            third,
            zero,
            one,
            values,
            anchors,
            batch,
            parts,
        ) && forall|b: int|
            0 <= b < rows.len() ==> (#[trigger] rows[b])@ == crate::phenotype::stacked(parts, b, 9);
    let row = seq![rows[b]];
    let part = Seq::new(9, |i: int| seq![crate::phenotype::element(parts[i], b)]);
    let all = crate::phenotype::rows::anchored(values, anchors);
    let alone = crate::phenotype::rows::anchored(single, anchors);
    assert(part[0] == seq![crate::phenotype::element(parts[0], b)]);
    assert(crate::phenotype::rows::is_race_row(
        ops,
        third,
        crate::phenotype::element(values.african@, b),
        crate::phenotype::element(values.asian@, b),
        crate::phenotype::element(values.caucasian@, b),
        parts[0][b]@,
    ));
    assert(crate::phenotype::rows::are_race_rows(ops, third, single, 1, part[0]));
    assert forall|f: int| 0 <= f < 8 implies crate::phenotype::rows::are_weight_rows(
        ops,
        extrapolate,
        zero,
        one,
        #[trigger] alone[f],
        part[f + 1],
    ) by {
        let rows = parts[f + 1];
        assert(crate::phenotype::rows::are_weight_rows(
            ops,
            extrapolate,
            zero,
            one,
            all[f],
            rows,
        ));
        assert(!crate::phenotype::rows::misfits(
            crate::phenotype::rows::serving(values)[f + 3],
            batch as nat,
        ));
        assert(all[f].0@.len() == crate::phenotype::rows::serving(values)[f + 3]);
        assert(is_value_of(all[f].0, b, alone[f].0));
        let at = if rows.len() == 1 {
            0
        } else {
            b
        };
        assert(crate::utils::interpolation::is_weight_row(
            ops,
            extrapolate,
            zero,
            one,
            all[f].1@,
            all[f].0@[at],
            rows[at]@,
        ));
        assert(part[f + 1] == seq![rows[at]]);
    }
    assert(crate::phenotype::rows::are_parts(
        ops,
        extrapolate,
        third,
        zero,
        one,
        single,
        anchors,
        1,
        part,
    ));
    lemma_stacked(parts, b, part, 9);
    let counts = crate::phenotype::rows::value_counts(single);
    assert(counts[0] == 1);
    assert(crate::phenotype::rows::is_largest(counts, 1));
    assert(row[0]@ == crate::phenotype::stacked(part, 0, 9));
    assert(row.len() == 1);
    assert(crate::phenotype::rows::are_phenotype_rows(
        ops,
        extrapolate,
        third,
        zero,
        one,
        single,
        anchors,
        row,
    ));
    assert(crate::phenotype::rows::are_coefficients(ops, one, row, masks, seq![r[b]])) by {
        assert forall|c: int| 0 <= c < masks.len() implies crate::phenotype::is_product(
            ops,
            crate::phenotype::factors(row[0]@, masks[c]@, one),
            #[trigger] r[b]@[c],
        ) by {
        }
    }
}

proof fn lemma_changes<T>(
    changes: Seq<(String, Vec<T>)>,
    b: int,
    one: Seq<(String, Vec<T>)>,
    label: Seq<char>,
)
    requires
        are_changes_of(changes, b, one),
    ensures
        match crate::models::local_changes::change_for(changes, label) {
            None => crate::models::local_changes::change_for(one, label) is None,
            Some(values) => crate::models::local_changes::change_for(one, label) == Some(
                seq![crate::phenotype::element(values, b)],
            ),
        },
{
    let names = crate::models::local_changes::change_names(changes);
    assert(names =~= crate::models::local_changes::change_names(one));
    crate::names::lemma_first_at(names, label);
}

proof fn lemma_joined<T, O: Arithmetic<T> + Bounds<T>>(
    ops: &O,
    zero: T,
    labels: Seq<String>,
    changes: Seq<(String, Vec<T>)>,
    gated: Seq<Vec<T>>,
    whole: Seq<Vec<T>>,
    b: int,
    one: Seq<(String, Vec<T>)>,
)
    requires
        crate::models::forward::are_joined(ops, zero, labels, changes, gated, whole),
        0 <= b < whole.len(),
        are_changes_of(changes, b, one),
    ensures
        crate::models::forward::are_joined(ops, zero, labels, one, seq![gated[b]], seq![whole[b]]),
        crate::models::forward::no_misfit(labels, one, 1),
{
    let row = whole[b]@;
    let n = gated[b]@.len() as int;
    let rest = row.skip(n);
    assert(crate::models::local_changes::is_activation_row(ops, zero, labels, changes, b, rest));
    assert forall|i: int| 0 <= i < labels.len() implies {
        &&& crate::models::local_changes::is_activation(
            ops,
            zero,
            one,
            (#[trigger] labels[i])@,
            0,
            rest[2 * i],
            rest[2 * i + 1],
        )
        &&& !crate::models::local_changes::change_misfits(one, labels[i]@, 1)
    } by {
        lemma_changes(changes, b, one, labels[i]@);
        assert(crate::models::local_changes::is_activation(
            ops,
            zero,
            changes,
            labels[i]@,
            b,
            rest[2 * i],
            rest[2 * i + 1],
        ));
    }
    assert(crate::models::local_changes::is_activation_row(ops, zero, labels, one, 0, rest));
}

/// The coefficients of an element of a batch are those of the element alone.
pub proof fn law_batched_coefficients<T: Copy, O: Division<T> + Bounds<T>>(
    ops: &O,
    third: T,
    zero: T,
    one: T,
    model: Model<T>,
    values: PhenotypeValues<Vec<T>>,
    changes: Seq<(String, Vec<T>)>,
    coefficients: Vec<Vec<T>>,
    b: int,
    single_values: PhenotypeValues<Vec<T>>,
    single_changes: Seq<(String, Vec<T>)>,
    single: Vec<Vec<T>>,
)
    requires
        crate::models::forward::shape_outcome(
            ops,
            third,
            zero,
            one,
            model,
            values,
            changes,
            Ok(coefficients),
        ),
        0 <= b < coefficients@.len(),
        is_phenotype_of(values, b, single_values),
        are_changes_of(changes, b, single_changes),
        single@ == seq![coefficients@[b]],
    ensures
        crate::models::forward::shape_outcome(
            ops,
            third,
            zero,
            one,
            model,
            single_values,
            single_changes,
            Ok(single),
        ),
{
    let masks = model.stacked_phenotype_blend_shapes_mask@;
    let labels = model.local_change_labels@;
    let gated = choose|gated: Seq<Vec<T>>| #[trigger]
        crate::phenotype::rows::are_gated(
            ops,
            model.figure.extrapolate_phenotypes,
            third,
            zero,
            one,
            values,
            model.anchors,
            masks,
            gated,
        ) && crate::models::forward::are_joined(
            ops,
            zero,
            labels,
            changes,
            gated,
            coefficients@,
        );
    lemma_gated(
        ops,
        model.figure.extrapolate_phenotypes,
        third,
        zero,
        one,
        values,
        model.anchors,
        masks,
        gated,
        b,
        single_values,
    );
    lemma_joined(ops, zero, labels, changes, gated, coefficients@, b, single_changes);
    assert(crate::models::forward::are_joined(
        ops,
        zero,
        labels,
        single_changes,
        seq![gated[b]],
        single@,
    ));
}

proof fn lemma_shaped<T, O: Arithmetic<T>>(
    ops: &O,
    zero: T,
    template: Seq<[T; 3]>,
    shapes: Seq<Vec<[T; 3]>>,
    coefficients: Seq<Vec<T>>,
    out: Seq<Vec<[T; 3]>>,
    b: int,
)
    requires
        crate::models::forward::are_shaped(ops, zero, template, shapes, coefficients, out),
        0 <= b < out.len(),
    ensures
        crate::models::forward::are_shaped(
            ops,
            zero,
            template,
            shapes,
            seq![coefficients[b]],
            seq![out[b]],
        ),
{
    let one = seq![out[b]];
    assert forall|d: int, i: int, c: int|
        0 <= d < 1 && 0 <= i < template.len() && 0 <= c < 3 implies crate::skinning::is_shaped(
        ops,
        zero,
        template,
        shapes,
        seq![coefficients[b]][d]@,
        i,
        c,
        #[trigger] one[d]@[i]@[c],
    ) by {
        assert(one[d]@[i]@[c] == out[b]@[i]@[c]);
    }
}

proof fn lemma_posed_element<T: Copy, O: EndpointOps<T>>(
    ops: &O,
    zero: T,
    one: T,
    model: Model<T>,
    mode: PoseParameterization,
    heads: Seq<[T; 3]>,
    tails: Seq<[T; 3]>,
    pose: Option<Seq<Vec<[[T; 4]; 4]>>>,
    b: int,
    s: PoseState<[[T; 4]; 4]>,
)
    requires
        crate::models::forward::is_posed_element(
            ops,
            zero,
            one,
            model,
            mode,
            heads,
            tails,
            pose,
            b,
            s,
        ),
    ensures
        crate::models::forward::is_posed_element(
            ops,
            zero,
            one,
            model,
            mode,
            heads,
            tails,
            pose_of(pose, b),
            0,
            s,
        ),
{
    let bones = model.figure.bone_labels@.len() as int;
    let (rest, params, identity) = choose|
        rest: Vec<[[T; 4]; 4]>,
        params: Vec<[[T; 4]; 4]>,
        identity: [[T; 4]; 4],
    |
        {
            &&& #[trigger] crate::models::forward::are_rest_poses(
                ops,
                zero,
                one,
                model.bone_rolls_rotmat@,
                heads,
                tails,
                rest@,
            )
            &&& #[trigger] crate::models::forward::are_pose_parameters(
                zero,
                one,
                pose,
                bones,
                b,
                params@,
            )
            &&& crate::rotation::rows4(identity) =~~= crate::rotation::identity_rows(zero, one)
            &&& #[trigger] crate::models::pose::is_posed(
                &(Matrices { ops, zero, one }),
                mode,
                model.figure.bone_parents@,
                rest@,
                params@,
                identity,
                s,
            )
        };
    assert(crate::models::forward::are_pose_parameters(
        zero,
        one,
        pose_of(pose, b),
        bones,
        0,
        params@,
    ));
}

proof fn lemma_bones_within<T>(model: Model<T>, batch: int)
    requires
        crate::models::forward::all_bones_within(model, batch),
        batch > 0,
    ensures
        crate::models::forward::all_bones_within(model, 1),
        forall|i: int, s: int|
            #![trigger model.figure.vertex_bones.indices@[i]@[s]]
            0 <= i < model.figure.vertex_bones.indices@.len() && 0 <= s
                < model.figure.vertex_bones.indices@[i]@.len()
                ==> model.figure.vertex_bones.indices@[i]@[s]
                < model.figure.bone_labels@.len(),
{
    let k = model.figure.bone_labels@.len() as int;
    let indices = model.figure.vertex_bones.indices@;
    let last = batch - 1;
    assert(last * k + k == batch * k) by (nonlinear_arith)
        requires
            last == batch - 1,
    ;
    assert forall|i: int, s: int|
        #![trigger indices[i]@[s]]
        0 <= i < indices.len() && 0 <= s < indices[i]@.len() implies indices[i]@[s] < k by {
        assert(crate::skinning::bones_within(indices[i]@, k, last, batch));
    }
    assert forall|b: int, i: int|
        0 <= b < 1 && 0 <= i < indices.len() implies #[trigger] crate::skinning::bones_within(
        indices[i]@,
        k,
        b,
        1,
    ) by {
        assert(b * k == 0 && 1 * k == k) by (nonlinear_arith)
            requires
                b == 0,
        ;
    }
}

proof fn lemma_transform<M>(transforms: Seq<Vec<M>>, k: int, b: int, bone: u32)
    requires
        bone < k,
        0 <= b < transforms.len(),
    ensures
        crate::skinning::transform_of(transforms, k, b, bone) == transforms[b]@[bone as int],
{
    let at = b * k + bone;
    vstd::arithmetic::div_mod::lemma_fundamental_div_mod_converse(at, k, b, bone as int);
}

/// The bodies of a batch are those of its elements: given the coefficients, a
/// pose and what comes of them, the body of an element is what comes of its
/// own coefficients and pose.
pub proof fn law_batched_poses<T: Copy, O: EndpointOps<T> + MotionOps<T>>(
    ops: &O,
    zero: T,
    one: T,
    model: Model<T>,
    coefficients: Seq<Vec<T>>,
    pose: Option<Seq<Vec<[[T; 4]; 4]>>>,
    mode: PoseParameterization,
    out: ForwardOutput<T>,
    b: int,
    single: ForwardOutput<T>,
)
    requires
        model.figure.wf(),
        crate::models::forward::is_forward(
            ops,
            zero,
            one,
            model,
            coefficients,
            pose,
            mode,
            out,
        ),
        0 <= b < coefficients.len(),
        is_output_of(out, b, single),
    ensures
        crate::models::forward::is_forward(
            ops,
            zero,
            one,
            model,
            seq![coefficients[b]],
            pose_of(pose, b),
            mode,
            single,
        ),
{
    let bones = model.figure.bone_labels@.len() as int;
    let batch = coefficients.len() as int;
    let (heads, tails) = choose|heads: Seq<Vec<[T; 3]>>, tails: Seq<Vec<[T; 3]>>|
        {
            &&& #[trigger] crate::models::forward::are_shaped(
                ops,
                zero,
                model.template_bone_heads@,
                model.bone_heads_blendshapes@,
                coefficients,
                heads,
            )
            &&& #[trigger] crate::models::forward::are_shaped(
                ops,
                zero,
                model.template_bone_tails@,
                model.bone_tails_blendshapes@,
                coefficients,
                tails,
            )
            &&& forall|b: int|
                0 <= b < out.skeletons@.len() ==> crate::models::forward::is_posed_element(
                    ops,
                    zero,
                    one,
                    model,
                    mode,
                    heads[b]@,
                    tails[b]@,
                    pose,
                    b,
                    #[trigger] out.skeletons@[b],
                )
        };
    lemma_shaped(
        ops,
        zero,
        model.template_bone_heads@,
        model.bone_heads_blendshapes@,
        coefficients,
        heads,
        b,
    );
    lemma_shaped(
        ops,
        zero,
        model.template_bone_tails@,
        model.bone_tails_blendshapes@,
        coefficients,
        tails,
        b,
    );
    lemma_shaped(
        ops,
        zero,
        model.figure.template_vertices@,
        model.blendshapes@,
        coefficients,
        out.rest_vertices@,
        b,
    );
    lemma_posed_element(
        ops,
        zero,
        one,
        model,
        mode,
        heads[b]@,
        tails[b]@,
        pose,
        b,
        out.skeletons@[b],
    );
    let head = seq![heads[b]];
    let tail = seq![tails[b]];
    assert(crate::models::forward::are_shaped(
        ops,
        zero,
        model.template_bone_heads@,
        model.bone_heads_blendshapes@,
        seq![coefficients[b]],
        head,
    ));
    assert(crate::models::forward::are_shaped(
        ops,
        zero,
        model.template_bone_tails@,
        model.bone_tails_blendshapes@,
        seq![coefficients[b]],
        tail,
    ));
    assert(head[0] == heads[b] && tail[0] == tails[b]);
    assert(crate::models::forward::are_skeletons(
        ops,
        zero,
        one,
        model,
        seq![coefficients[b]],
        pose_of(pose, b),
        mode,
        single.skeletons@,
    ));
    lemma_bones_within(model, batch);
    let transforms = crate::models::forward::transforms_of(out.skeletons@);
    let alone = crate::models::forward::transforms_of(single.skeletons@);
    assert(alone[0] == transforms[b]);
    assert forall|d: int, i: int|
        0 <= d < single.vertices@.len() && 0 <= i
            < model.figure.template_vertices@.len() implies crate::models::forward::is_moved_vertex(
        ops,
        zero,
        one,
        model,
        single.rest_vertices@,
        alone,
        d,
        i,
        #[trigger] single.vertices@[d]@[i],
    ) by {
        let row = model.figure.vertex_bones.indices@[i]@;
        assert(crate::models::forward::is_moved_vertex(
            ops,
            zero,
            one,
            model,
            out.rest_vertices@,
            transforms,
            b,
            i,
            out.vertices@[b]@[i],
        ));
        let ms = crate::skinning::gathered(transforms, bones, b, row);
        let own = crate::skinning::gathered(alone, bones, 0, row);
        assert forall|s: int| 0 <= s < row.len() implies #[trigger] ms[s] == own[s] by {
            assert(model.figure.vertex_bones.indices@[i]@[s] < bones);
            lemma_transform(transforms, bones, b, row[s]);
            lemma_transform(alone, bones, 0, row[s]);
        }
        assert(ms =~= own);
    }
}

/// A batch comes to what its elements come to alone: the body of an element of
/// a forward pass is what a forward pass makes of its phenotype, changes and
/// pose.
pub proof fn law_batch_consistent<T: Copy, O: EndpointOps<T> + MotionOps<T>>(
    ops: &O,
    third: T,
    zero: T,
    one: T,
    model: Model<T>,
    pose: Option<Seq<Vec<[[T; 4]; 4]>>>,
    values: PhenotypeValues<Vec<T>>,
    changes: Seq<(String, Vec<T>)>,
    asked: Option<PoseParameterization>,
    out: ForwardOutput<T>,
    b: int,
    single_values: PhenotypeValues<Vec<T>>,
    single_changes: Seq<(String, Vec<T>)>,
    single: ForwardOutput<T>,
)
    requires
        model.figure.wf(),
        crate::models::forward::forward_outcome(
            ops,
            third,
            zero,
            one,
            model,
            pose,
            values,
            changes,
            asked,
            Ok(out),
        ),
        0 <= b < out.vertices@.len(),
        is_phenotype_of(values, b, single_values),
        are_changes_of(changes, b, single_changes),
        is_output_of(out, b, single),
    ensures
        crate::models::forward::forward_outcome(
            ops,
            third,
            zero,
            one,
            model,
            pose_of(pose, b),
            single_values,
            single_changes,
            asked,
            Ok(single),
        ),
{
    let mode = crate::models::forward::chosen(asked, model.figure.default_pose_parameterization);
    let coefficients = choose|coefficients: Vec<Vec<T>>| #[trigger]
        crate::models::forward::shape_outcome(
            ops,
            third,
            zero,
            one,
            model,
            values,
            changes,
            Ok(coefficients),
        ) && crate::models::forward::posed_outcome(
            ops,
            zero,
            one,
            model,
            coefficients@,
            pose,
            mode,
            Ok(out),
        );
    law_batched_coefficients(
        ops,
        third,
        zero,
        one,
        model,
        values,
        changes,
        coefficients,
        b,
        single_values,
        single_changes,
        single.blendshape_coeffs,
    );
    law_batched_poses(
        ops,
        zero,
        one,
        model,
        coefficients@,
        pose,
        mode,
        out,
        b,
        single,
    );
}

} // verus!
