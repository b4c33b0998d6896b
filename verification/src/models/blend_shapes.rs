//! The blend shapes of a body, stacked from the offsets of its targets.
use vstd::prelude::*;
use vstd::string::*;

use crate::models::macrodetails::{local_changes, macrodetail_targets, LocalChange, PlannedTarget,
    TargetGroup};
use crate::models::world::{apply_newborn_scaling, apply_world_transform};
use crate::scalar::{Arithmetic, Division};

verus! {

/// The targets of a body, in the order in which their shapes are stacked, and the
/// local changes that follow them.
#[derive(Debug, Clone)]
pub struct ShapePlan {
    pub planned: Vec<PlannedTarget>,
    pub changes: Vec<LocalChange>,
}

/// What the files of the targets hold: offsets, one for each vertex.
#[derive(Debug, Clone)]
pub struct Targets<T> {
    /// For each target of the plan its offsets; `None` where its file does not
    /// exist.
    pub offsets: Vec<Option<Vec<[T; 3]>>>,
    /// The catalogue of the local changes.
    pub groups: Vec<TargetGroup>,
    /// For each local change of the plan the offsets of its positive and of its
    /// negative target.
    pub poles: Vec<(Vec<[T; 3]>, Vec<[T; 3]>)>,
}

/// How a shape of a baby becomes one of a newborn: its offsets are scaled, and
/// the template is added, scaled by as much less one, over `factor`.
#[derive(Debug, Clone, Copy)]
pub struct Newborn<T> {
    pub scaling: [T; 3],
    pub factor: T,
}

/// Blend shapes, and for the first of them the variations that gate them.
#[derive(Debug, Clone)]
pub struct StackedBlendShapes<T> {
    pub blendshapes: Vec<Vec<[T; 3]>>,
    pub mask: Vec<Vec<bool>>,
    /// The number of gated shapes. The others follow in pairs, the positive
    /// and the negative direction of each local change.
    pub n_macrodetails: usize,
    pub local_change_labels: Vec<String>,
}

/// What stops blend shapes from being stacked.
#[derive(Debug, Clone)]
pub enum MacrodetailsError {
    /// A required file does not exist.
    Missing(String),
}

/// The plan is that of all macrodetail targets and of the changes of the catalogue.
pub open spec fn is_shape_plan(groups: Seq<TargetGroup>, genitals: bool, plan: ShapePlan) -> bool {
    &&& plan.planned@.len() == crate::models::macrodetails::target_entries().len()
    &&& forall|i: int|
        0 <= i < plan.planned@.len() ==> crate::models::macrodetails::is_planned(
            #[trigger] plan.planned@[i],
            crate::models::macrodetails::target_entries()[i],
        )
    &&& exists|order: Seq<usize>| #[trigger]
        crate::names::is_alphabetical(crate::models::macrodetails::group_names(groups), order)
            && crate::models::macrodetails::are_changes(
            plan.changes@,
            crate::models::macrodetails::ordered_changes(groups, order, genitals, groups.len()),
        )
}

/// The plan of the shapes: all macrodetail targets, then the changes of the
/// catalogue, those of the genitals only where they are wanted.
pub fn shape_plan(groups: &Vec<TargetGroup>, genitals: bool) -> (r: ShapePlan)
    ensures
        is_shape_plan(groups@, genitals, r),
{
    ShapePlan { planned: macrodetail_targets(), changes: local_changes(groups, genitals) }
}

/// Every list of offsets has one for each of the `n` vertices.
pub open spec fn offsets_of_size<T>(targets: Targets<T>, n: int) -> bool {
    &&& forall|i: int|
        0 <= i < targets.offsets@.len() && (#[trigger] targets.offsets@[i]) is Some
            ==> targets.offsets@[i]->0@.len() == n
    &&& forall|j: int|
        0 <= j < targets.poles@.len() ==> (#[trigger] targets.poles@[j]).0@.len() == n
            && targets.poles@[j].1@.len() == n
}

/// There are offsets for each target of the plan, one for each of the `n` vertices.
pub open spec fn fits<T>(plan: ShapePlan, targets: Targets<T>, n: int) -> bool {
    &&& targets.offsets@.len() == plan.planned@.len()
    &&& targets.poles@.len() == plan.changes@.len()
    &&& offsets_of_size(targets, n)
}

impl<T> Targets<T> {
    /// There are offsets for each macrodetail target and for each change of the
    /// catalogue, one for each of the `n` vertices.
    pub open spec fn complete(&self, genitals: bool, n: int) -> bool {
        &&& self.offsets@.len() == crate::models::macrodetails::target_entries().len()
        &&& forall|order: Seq<usize>| #[trigger]
            crate::names::is_alphabetical(
                crate::models::macrodetails::group_names(self.groups@),
                order,
            ) ==> self.poles@.len() == crate::models::macrodetails::ordered_changes(
                self.groups@,
                order,
                genitals,
                self.groups@.len(),
            ).len()
        &&& offsets_of_size(*self, n)
    }
}

/// A required target has no file.
pub open spec fn lacks<T>(plan: ShapePlan, targets: Targets<T>, i: int) -> bool {
    targets.offsets@[i] is None && !plan.planned@[i].optional
}

/// The positions of the first `n` targets that have a file.
pub open spec fn present<A>(offsets: Seq<Option<A>>, n: nat) -> Seq<int>
    decreases n,
{
    if n == 0 {
        Seq::empty()
    } else if offsets[n - 1] is Some {
        present(offsets, (n - 1) as nat).push(n - 1)
    } else {
        present(offsets, (n - 1) as nat)
    }
}

/// `moved` are the points under the matrix.
pub open spec fn are_transformed<T, O: Arithmetic<T>>(
    ops: &O,
    world: Seq<Seq<T>>,
    points: Seq<[T; 3]>,
    moved: Seq<[T; 3]>,
) -> bool {
    &&& moved.len() == points.len()
    &&& forall|i: int|
        0 <= i < moved.len() ==> crate::models::world::is_transformed(
            ops,
            world,
            points[i]@,
            (#[trigger] moved[i])@,
        )
}

/// `r` is the shape in the proportions of a newborn.
pub open spec fn is_newborn_shape<T, O: Division<T>>(
    ops: &O,
    newborn: Newborn<T>,
    one: T,
    template: Seq<[T; 3]>,
    shape: Seq<[T; 3]>,
    r: Seq<[T; 3]>,
) -> bool {
    &&& r.len() == template.len()
    &&& forall|i: int, c: int|
        0 <= i < r.len() && 0 <= c < 3 ==> crate::models::world::is_newborn_coordinate(
            ops,
            newborn.scaling@[c],
            newborn.factor,
            one,
            shape[i]@[c],
            template[i]@[c],
            #[trigger] r[i]@[c],
        )
}

/// `shape` is what the offsets of a target make of the template.
pub open spec fn is_target_shape<T, O: Division<T>>(
    ops: &O,
    world: Seq<Seq<T>>,
    newborn: Newborn<T>,
    one: T,
    template: Seq<[T; 3]>,
    target: PlannedTarget,
    offsets: Seq<[T; 3]>,
    shape: Seq<[T; 3]>,
) -> bool {
    if target.newborn {
        exists|moved: Seq<[T; 3]>| #[trigger]
            are_transformed(ops, world, offsets, moved) && is_newborn_shape(
                ops,
                newborn,
                one,
                template,
                moved,
                shape,
            )
    } else {
        are_transformed(ops, world, offsets, shape)
    }
}

/// `r` holds the shapes of the targets that have a file, with their masks,
/// then the two directions of each local change.
pub open spec fn is_stacked<T, O: Division<T>>(
    ops: &O,
    world: Seq<Seq<T>>,
    newborn: Newborn<T>,
    one: T,
    template: Seq<[T; 3]>,
    plan: ShapePlan,
    targets: Targets<T>,
    r: StackedBlendShapes<T>,
) -> bool {
    let at = present(targets.offsets@, targets.offsets@.len());
    &&& forall|i: int| 0 <= i < plan.planned@.len() ==> !#[trigger] lacks(plan, targets, i)
    &&& r.n_macrodetails == at.len()
    &&& r.mask@.len() == at.len()
    &&& r.blendshapes@.len() == at.len() + 2 * plan.changes@.len()
    &&& r.local_change_labels@.len() == plan.changes@.len()
    &&& forall|k: int|
        0 <= k < at.len() ==> (#[trigger] r.mask@[k])@ == plan.planned@[at[k]].mask@
    &&& forall|k: int|
        0 <= k < at.len() ==> is_target_shape(
            ops,
            world,
            newborn,
            one,
            template,
            plan.planned@[at[k]],
            targets.offsets@[at[k]]->0@,
            (#[trigger] r.blendshapes@[k])@,
        )
    &&& forall|j: int|
        0 <= j < plan.changes@.len() ==> (#[trigger] r.local_change_labels@[j])@
            == plan.changes@[j].positive@
    &&& forall|j: int|
        #![trigger targets.poles@[j]]
        0 <= j < plan.changes@.len() ==> are_transformed(
            ops,
            world,
            targets.poles@[j].0@,
            r.blendshapes@[at.len() + 2 * j]@,
        ) && are_transformed(
            ops,
            world,
            targets.poles@[j].1@,
            r.blendshapes@[at.len() + 2 * j + 1]@,
        )
}

fn copy_mask(mask: &Vec<bool>) -> (r: Vec<bool>)
    ensures
        r@ == mask@,
{
    let mut r: Vec<bool> = Vec::new();
    for i in 0..mask.len()
        invariant
            r@ == mask@.take(i as int),
    {
        r.push(mask[i]);
        assert(mask@.take(i + 1) == mask@.take(i as int).push(mask@[i as int]));
    }
    assert(mask@.take(mask@.len() as int) == mask@);
    r
}

fn target_shape<T: Copy, O: Division<T>>(
    target: &PlannedTarget,
    offsets: &Vec<[T; 3]>,
    template: &Vec<[T; 3]>,
    world: &[[T; 3]; 3],
    newborn: &Newborn<T>,
    one: T,
    ops: &O,
) -> (shape: Vec<[T; 3]>)
    requires
        offsets@.len() == template@.len(),
    ensures
        is_target_shape(
            ops,
            crate::rotation::rows3(*world),
            *newborn,
            one,
            template@,
            *target,
            offsets@,
            shape@,
        ),
        shape@.len() == template@.len(),
{
    let moved = apply_world_transform(offsets, world, ops);
    assert(are_transformed(ops, crate::rotation::rows3(*world), offsets@, moved@));
    if target.newborn {
        apply_newborn_scaling(&moved, template, &newborn.scaling, newborn.factor, one, ops)
    } else {
        moved
    }
}

/// Stacks the blend shapes of a plan: each target that has a file, moved to the
/// axes of the model and for newborns brought to their proportions, then
/// the two directions of each local change. A required target without a file
/// is an error.
pub fn stack_shapes<T: Copy, O: Division<T>>(
    plan: &ShapePlan,
    targets: &Targets<T>,
    template: &Vec<[T; 3]>,
    world: &[[T; 3]; 3],
    newborn: &Newborn<T>,
    one: T,
    ops: &O,
) -> (r: Result<StackedBlendShapes<T>, MacrodetailsError>)
    requires
        fits(*plan, *targets, template@.len() as int),
    ensures
        match r {
            Ok(stacked) => {
                &&& is_stacked(
                    ops,
                    crate::rotation::rows3(*world),
                    *newborn,
                    one,
                    template@,
                    *plan,
                    *targets,
                    stacked,
                )
                &&& forall|s: int|
                    0 <= s < stacked.blendshapes@.len() ==> (
                    #[trigger] stacked.blendshapes@[s])@.len() == template@.len()
            },
            Err(MacrodetailsError::Missing(path)) => first_missing(*plan, *targets, path@),
        },
{
    let ghost w = crate::rotation::rows3(*world);
    let ghost given = targets.offsets@;
    let mut blendshapes: Vec<Vec<[T; 3]>> = Vec::new();
    let mut mask: Vec<Vec<bool>> = Vec::new();
    for i in 0..plan.planned.len()
        invariant
            fits(*plan, *targets, template@.len() as int),
            w == crate::rotation::rows3(*world),
            given == targets.offsets@,
            forall|j: int| 0 <= j < i ==> !#[trigger] lacks(*plan, *targets, j),
            blendshapes@.len() == present(given, i as nat).len(),
            mask@.len() == present(given, i as nat).len(),
            forall|s: int|
                0 <= s < blendshapes@.len() ==> (#[trigger] blendshapes@[s])@.len()
                    == template@.len(),
            forall|k: int|
                0 <= k < mask@.len() ==> (#[trigger] mask@[k])@ == plan.planned@[present(
                    given,
                    i as nat,
                )[k]].mask@,
            forall|k: int|
                0 <= k < blendshapes@.len() ==> is_target_shape(
                    ops,
                    w,
                    *newborn,
                    one,
                    template@,
                    plan.planned@[present(given, i as nat)[k]],
                    given[present(given, i as nat)[k]]->0@,
                    (#[trigger] blendshapes@[k])@,
                ),
    {
        let target = &plan.planned[i];
        match &targets.offsets[i] {
            Some(offsets) => {
                assert(given[i as int] is Some);
                blendshapes.push(target_shape(target, offsets, template, world, newborn, one, ops));
                mask.push(copy_mask(&target.mask));
            },
            None => {
                if !target.optional {
                    assert(lacks(*plan, *targets, i as int));
                    return Err(MacrodetailsError::Missing(target.path.clone()));
                }
            },
        }
        assert(!lacks(*plan, *targets, i as int));
    }
    let n_macrodetails: usize = mask.len();
    let ghost gated = blendshapes@;
    let mut local_change_labels: Vec<String> = Vec::new();
    for j in 0..plan.changes.len()
        invariant
            fits(*plan, *targets, template@.len() as int),
            w == crate::rotation::rows3(*world),
            n_macrodetails == gated.len(),
            blendshapes@.len() == gated.len() + 2 * j,
            local_change_labels@.len() == j,
            forall|k: int| 0 <= k < gated.len() ==> blendshapes@[k] == #[trigger] gated[k],
            forall|s: int|
                0 <= s < blendshapes@.len() ==> (#[trigger] blendshapes@[s])@.len()
                    == template@.len(),
            forall|d: int|
                0 <= d < j ==> (#[trigger] local_change_labels@[d])@
                    == plan.changes@[d].positive@,
            forall|d: int|
                #![trigger targets.poles@[d]]
                0 <= d < j ==> are_transformed(
                    ops,
                    w,
                    targets.poles@[d].0@,
                    blendshapes@[gated.len() + 2 * d]@,
                ) && are_transformed(
                    ops,
                    w,
                    targets.poles@[d].1@,
                    blendshapes@[gated.len() + 2 * d + 1]@,
                ),
    {
        local_change_labels.push(plan.changes[j].positive.clone());
        let up = apply_world_transform(&targets.poles[j].0, world, ops);
        let down = apply_world_transform(&targets.poles[j].1, world, ops);
        assert(targets.poles@[j as int].0@.len() == template@.len());
        blendshapes.push(up);
        blendshapes.push(down);
    }
    let stacked = StackedBlendShapes { blendshapes, mask, n_macrodetails, local_change_labels };
    proof {
        let at = present(given, given.len());
        assert forall|k: int| 0 <= k < at.len() implies is_target_shape(
            ops,
            w,
            *newborn,
            one,
            template@,
            plan.planned@[at[k]],
            given[at[k]]->0@,
            (#[trigger] stacked.blendshapes@[k])@,
        ) by {
            assert(stacked.blendshapes@[k] == gated[k]);
        }
    }
    Ok(stacked)
}

/// The outcome of stacking the shapes of a body.
pub open spec fn stacking_outcome<T, O: Division<T>>(
    ops: &O,
    world: Seq<Seq<T>>,
    newborn: Newborn<T>,
    one: T,
    template: Seq<[T; 3]>,
    genitals: bool,
    targets: Targets<T>,
    r: Result<StackedBlendShapes<T>, MacrodetailsError>,
) -> bool {
    exists|plan: ShapePlan| #[trigger]
        is_shape_plan(targets.groups@, genitals, plan) && match r {
            Ok(stacked) => is_stacked(ops, world, newborn, one, template, plan, targets, stacked),
            Err(MacrodetailsError::Missing(path)) => first_missing(plan, targets, path@),
        }
}

/// Stacks the blend shapes of a body: those of all macrodetail targets and of the
/// local changes of the catalogue. A required target without a file is an error.
pub fn load_all<T: Copy, O: Division<T>>(
    targets: &Targets<T>,
    genitals: bool,
    template: &Vec<[T; 3]>,
    world: &[[T; 3]; 3],
    newborn: &Newborn<T>,
    one: T,
    ops: &O,
) -> (r: Result<StackedBlendShapes<T>, MacrodetailsError>)
    requires
        targets.complete(genitals, template@.len() as int),
    ensures
        stacking_outcome(
            ops,
            crate::rotation::rows3(*world),
            *newborn,
            one,
            template@,
            genitals,
            *targets,
            r,
        ),
        r is Ok ==> forall|s: int|
            0 <= s < r->Ok_0.blendshapes@.len() ==> (#[trigger] r->Ok_0.blendshapes@[s])@.len()
                == template@.len(),
{
    let plan = shape_plan(&targets.groups, genitals);
    stack_shapes(&plan, targets, template, world, newborn, one, ops)
}

/// The path is that of the first required target without a file.
pub open spec fn first_missing<T>(plan: ShapePlan, targets: Targets<T>, path: Seq<char>) -> bool {
    exists|i: int|
        {
            &&& 0 <= i < plan.planned@.len()
            &&& #[trigger] lacks(plan, targets, i)
            &&& forall|j: int| 0 <= j < i ==> !#[trigger] lacks(plan, targets, j)
            &&& path == plan.planned@[i].path@
        }
}

/// The file of one target of a local change, below the data directory.
pub open spec fn change_file(group: Seq<char>, label: Seq<char>) -> Seq<char> {
    "mpfb2/targets/"@ + group + "/"@ + label + ".target.gz"@
}

/// The file of one target of a local change, below the data directory.
pub fn change_path(group: &str, label: &str) -> (r: String)
    ensures
        r@ == change_file(group@, label@),
{
    let mut r: String = "mpfb2/targets/".to_owned();
    r.append(group);
    r.append("/");
    r.append(label);
    r.append(".target.gz");
    r
}

} // verus!
