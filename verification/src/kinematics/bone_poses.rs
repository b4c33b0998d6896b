//! The rest poses of bones from their ends and rolls.
use vstd::prelude::*;

use crate::rotation::{
    divided, inner, matrix_product, minor, rigid_to_homogeneous, rotvec_to_rotmat, AngleOps,
};
use crate::scalar::{Arithmetic, Signs};

verus! {

/// The operations that turn the ends of a bone into its pose. Nothing is taken
/// for granted of what they return.
pub trait EndpointOps<T>: AngleOps<T> + Signs<T> {
    /// The angle of the point with the height and the width.
    fn arc(&self, height: T, width: T) -> T;

    /// Whether the number is near 1.
    fn near_one(&self, a: T) -> bool;
}

/// `r` is the cross product of `a` and `b`.
pub open spec fn is_cross<T, O: Arithmetic<T>>(ops: &O, a: Seq<T>, b: Seq<T>, r: Seq<T>) -> bool {
    &&& crate::rotation::is_minor(ops, a[1], b[2], a[2], b[1], r[0])
    &&& crate::rotation::is_minor(ops, a[2], b[0], a[0], b[2], r[1])
    &&& crate::rotation::is_minor(ops, a[0], b[1], a[1], b[0], r[2])
}

pub(crate) fn cross<T: Copy, O: Arithmetic<T>>(ops: &O, a: &[T; 3], b: &[T; 3]) -> (r: [T; 3])
    ensures
        is_cross(ops, a@, b@, r@),
{
    [
        minor(ops, a[1], b[2], a[2], b[1]),
        minor(ops, a[2], b[0], a[0], b[2]),
        minor(ops, a[0], b[1], a[1], b[0]),
    ]
}

/// `r` is `t` times each coordinate, with the sign turned.
pub open spec fn is_turned<T, O: Arithmetic<T>>(ops: &O, a: Seq<T>, t: T, r: Seq<T>) -> bool {
    &&& is_turned_coordinate(ops, a[0], t, r[0])
    &&& is_turned_coordinate(ops, a[1], t, r[1])
    &&& is_turned_coordinate(ops, a[2], t, r[2])
}

pub open spec fn is_turned_coordinate<T, O: Arithmetic<T>>(ops: &O, a: T, t: T, r: T) -> bool {
    exists|m: T| #[trigger]
        crate::scalar::product_of(ops, a, t, m) && crate::scalar::negative_of(ops, m, r)
}

fn turned_coordinate<T: Copy, O: Arithmetic<T>>(ops: &O, a: T, t: T) -> (r: T)
    ensures
        is_turned_coordinate(ops, a, t, r),
{
    let m = ops.times(a, t);
    let r = ops.negative(m);
    assert(crate::scalar::product_of(ops, a, t, m));
    r
}

/// The rows of the rotation by nothing.
pub open spec fn unturned<T>(zero: T, one: T) -> Seq<Seq<T>> {
    seq![seq![one, zero, zero], seq![zero, one, zero], seq![zero, zero, one]]
}

/// What the pose of a bone goes through.
pub struct BoneSteps<T> {
    pub along: [T; 3],
    pub length: T,
    pub unit: [T; 3],
    pub cross: [T; 3],
    pub cosine: T,
    pub sine: T,
    pub angle: T,
    pub divisor: T,
    pub axis: [T; 3],
    pub rotvec: [T; 3],
    pub square: T,
    pub turn: [[T; 3]; 3],
    pub rotation: [[T; 3]; 3],
}

/// The bone's own axis is turned into the direction from head to tail. Where
/// there is no axis to turn about, nothing is turned if the bone points along
/// its own axis; else, where it points against it or has no length, the
/// fallback is taken.
pub open spec fn are_bone_steps<T, O: EndpointOps<T>>(
    ops: &O,
    head: [T; 3],
    tail: [T; 3],
    roll: [[T; 3]; 3],
    y_axis: [T; 3],
    fallback: [[T; 3]; 3],
    zero: T,
    one: T,
    s: BoneSteps<T>,
) -> bool {
    &&& crate::scalar::difference_of(ops, tail@[0], head@[0], s.along@[0])
    &&& crate::scalar::difference_of(ops, tail@[1], head@[1], s.along@[1])
    &&& crate::scalar::difference_of(ops, tail@[2], head@[2], s.along@[2])
    &&& crate::scalar::length_of(ops, s.along, s.length)
    &&& crate::rotation::is_divided(ops, s.along@, s.length, s.unit@)
    &&& is_cross(ops, s.unit@, y_axis@, s.cross@)
    &&& crate::rotation::is_inner(ops, s.unit@, y_axis@, s.cosine)
    &&& crate::scalar::length_of(ops, s.cross, s.sine)
    &&& call_ensures(O::arc, (ops, s.sine, s.cosine), s.angle)
    &&& call_ensures(O::not_zero, (ops, s.sine), s.divisor)
    &&& crate::rotation::is_divided(ops, s.cross@, s.divisor, s.axis@)
    &&& is_turned(ops, s.axis@, s.angle, s.rotvec@)
    &&& crate::rotation::is_inner(ops, s.axis@, s.axis@, s.square)
    &&& {
        ||| call_ensures(O::near_one, (ops, s.square), true) && crate::rotation::is_rotation_of(
            ops,
            s.rotvec,
            zero,
            one,
            crate::rotation::rows3(s.turn),
        )
        ||| call_ensures(O::near_one, (ops, s.square), false) && crate::scalar::says_positive(
            ops,
            s.cosine,
            true,
        ) && crate::rotation::rows3(s.turn) =~~= unturned(zero, one)
        ||| call_ensures(O::near_one, (ops, s.square), false) && crate::scalar::says_positive(
            ops,
            s.cosine,
            false,
        ) && s.turn == fallback
    }
    &&& crate::rotation::is_matrix_product(
        ops,
        crate::rotation::rows3(s.turn),
        crate::rotation::rows3(roll),
        crate::rotation::rows3(s.rotation),
    )
}

/// `pose` is the pose of a bone with the ends and the roll.
pub open spec fn is_bone_pose<T, O: EndpointOps<T>>(
    ops: &O,
    head: [T; 3],
    tail: [T; 3],
    roll: [[T; 3]; 3],
    y_axis: [T; 3],
    fallback: [[T; 3]; 3],
    zero: T,
    one: T,
    pose: Seq<Seq<T>>,
) -> bool {
    exists|s: BoneSteps<T>| #[trigger]
        are_bone_steps(ops, head, tail, roll, y_axis, fallback, zero, one, s) && pose
            =~~= crate::rotation::homogeneous(
            crate::rotation::rows3(s.rotation),
            head@,
            zero,
            one,
        )
}

fn bone_pose<T: Copy, O: EndpointOps<T>>(
    ops: &O,
    head: &[T; 3],
    tail: &[T; 3],
    roll: &[[T; 3]; 3],
    y_axis: &[T; 3],
    fallback: &[[T; 3]; 3],
    zero: T,
    one: T,
) -> (pose: [[T; 4]; 4])
    ensures
        is_bone_pose(
            ops,
            *head,
            *tail,
            *roll,
            *y_axis,
            *fallback,
            zero,
            one,
            crate::rotation::rows4(pose),
        ),
{
    let along = [
        ops.minus(tail[0], head[0]),
        ops.minus(tail[1], head[1]),
        ops.minus(tail[2], head[2]),
    ];
    let length = ops.length(&along);
    let unit = divided(ops, &along, length);
    let crossed = cross(ops, &unit, y_axis);
    let cosine = inner(ops, &unit, y_axis);
    let sine = ops.length(&crossed);
    let angle = ops.arc(sine, cosine);
    let divisor = ops.not_zero(sine);
    let axis = divided(ops, &crossed, divisor);
    let rotvec = [
        turned_coordinate(ops, axis[0], angle),
        turned_coordinate(ops, axis[1], angle),
        turned_coordinate(ops, axis[2], angle),
    ];
    let square = inner(ops, &axis, &axis);
    let turn = if ops.near_one(square) {
        rotvec_to_rotmat(&rotvec, zero, one, ops)
    } else if ops.positive(cosine) {
        [[one, zero, zero], [zero, one, zero], [zero, zero, one]]
    } else {
        *fallback
    };
    let rotation = matrix_product(ops, &turn, roll);
    let pose = rigid_to_homogeneous(&rotation, head, zero, one);
    proof {
        let s = BoneSteps {
            along,
            length,
            unit,
            cross: crossed,
            cosine,
            sine,
            angle,
            divisor,
            axis,
            rotvec,
            square,
            turn,
            rotation,
        };
        assert(crate::rotation::rows3([
            [one, zero, zero],
            [zero, one, zero],
            [zero, zero, one],
        ]) =~~= unturned(zero, one));
        assert(are_bone_steps(
            ops,
            *head,
            *tail,
            *roll,
            *y_axis,
            *fallback,
            zero,
            one,
            s,
        ));
    }
    pose
}

/// The rest poses of bones: each bone turns its own axis `y_axis` into the
/// direction from its head to its tail, after its roll, and stands at its
/// head. Where a bone points against its own axis, or its tail is at its head,
/// `fallback` is taken.
pub fn get_bone_poses<T: Copy, O: EndpointOps<T>>(
    heads: &Vec<[T; 3]>,
    tails: &Vec<[T; 3]>,
    rolls: &Vec<[[T; 3]; 3]>,
    y_axis: &[T; 3],
    fallback: &[[T; 3]; 3],
    zero: T,
    one: T,
    ops: &O,
) -> (r: Vec<[[T; 4]; 4]>)
    requires
        tails@.len() == heads@.len(),
        rolls@.len() == heads@.len(),
    ensures
        r@.len() == heads@.len(),
        forall|i: int|
            0 <= i < r@.len() ==> is_bone_pose(
                ops,
                heads@[i],
                tails@[i],
                rolls@[i],
                *y_axis,
                *fallback,
                zero,
                one,
                crate::rotation::rows4(#[trigger] r@[i]),
            ),
{
    let mut r: Vec<[[T; 4]; 4]> = Vec::new();
    for i in 0..heads.len()
        invariant
            tails@.len() == heads@.len(),
            rolls@.len() == heads@.len(),
            r@.len() == i,
            forall|j: int|
                0 <= j < i ==> is_bone_pose(
                    ops,
                    heads@[j],
                    tails@[j],
                    rolls@[j],
                    *y_axis,
                    *fallback,
                    zero,
                    one,
                    crate::rotation::rows4(#[trigger] r@[j]),
                ),
    {
        r.push(bone_pose(ops, &heads[i], &tails[i], &rolls[i], y_axis, fallback, zero, one));
    }
    r
}

/// A rest pose stands at the head of its bone.
pub proof fn law_pose_at_head<T, O: EndpointOps<T>>(
    ops: &O,
    head: [T; 3],
    tail: [T; 3],
    roll: [[T; 3]; 3],
    y_axis: [T; 3],
    fallback: [[T; 3]; 3],
    zero: T,
    one: T,
    pose: Seq<Seq<T>>,
)
    requires
        is_bone_pose(ops, head, tail, roll, y_axis, fallback, zero, one, pose),
    ensures
        crate::rotation::translation_part(pose) =~= head@,
{
    let s = choose|s: BoneSteps<T>| #[trigger]
        are_bone_steps(ops, head, tail, roll, y_axis, fallback, zero, one, s) && pose
            =~~= crate::rotation::homogeneous(
            crate::rotation::rows3(s.rotation),
            head@,
            zero,
            one,
        );
    assert(pose == crate::rotation::homogeneous(
        crate::rotation::rows3(s.rotation),
        head@,
        zero,
        one,
    ));
    assert(head@.len() == 3);
}

} // verus!
