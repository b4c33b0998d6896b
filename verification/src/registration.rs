//! The rigid transform that takes one set of points nearest to another.
use vstd::prelude::*;

pub mod least_laws;
pub mod polar_laws;
pub mod proper;
pub mod proper_laws;
pub mod recovery_laws;
pub mod trace_laws;

use crate::registration::proper::{best_rotation, FactorOps};
use crate::rotation::{inner, SignedProduct};
use crate::scalar::{Arithmetic, Signs};
use crate::utils::shares::total;

verus! {

/// The operations of a registration beside plain arithmetic. Nothing is taken
/// for granted of what they return.
pub trait RegistrationOps<T>: FactorOps<T> + Signs<T> {
    fn reciprocal(&self, a: T) -> T;
}

/// `r` comes from `zero` by adding the products one after the other.
pub open spec fn is_running_sum<T, O: Arithmetic<T>>(
    ops: &O,
    zero: T,
    terms: Seq<SignedProduct<T>>,
    r: T,
) -> bool
    decreases terms.len(),
{
    if terms.len() == 0 {
        r == zero
    } else {
        exists|before: T|
            is_running_sum(ops, zero, terms.drop_last(), before)
                && #[trigger] crate::rotation::is_step(ops, before, terms.last(), r)
    }
}

fn running_sum<T: Copy, O: Arithmetic<T>>(
    ops: &O,
    zero: T,
    left: &Vec<T>,
    right: &Vec<T>,
) -> (r: T)
    requires
        left@.len() == right@.len(),
    ensures
        is_running_sum(ops, zero, pairs(left@, right@), r),
{
    let mut r = zero;
    let ghost all = pairs(left@, right@);
    for i in 0..left.len()
        invariant
            left@.len() == right@.len(),
            all == pairs(left@, right@),
            is_running_sum(ops, zero, all.take(i as int), r),
    {
        let ghost before = r;
        let p = ops.times(left[i], right[i]);
        r = ops.plus(r, p);
        proof {
            let next = all.take(i + 1);
            assert(next.drop_last() =~= all.take(i as int));
            assert(crate::scalar::product_of(ops, next.last().left, next.last().right, p));
            assert(crate::rotation::is_step(ops, before, next.last(), r));
        }
    }
    assert(all.take(all.len() as int) =~= all);
    r
}

/// The products of two lists, all added.
pub open spec fn pairs<T>(left: Seq<T>, right: Seq<T>) -> Seq<SignedProduct<T>> {
    Seq::new(left.len(), |i: int| crate::rotation::added(left[i], right[i]))
}

/// One coordinate of the first `n` points.
pub open spec fn coordinate<T>(points: Seq<[T; 3]>, n: nat, c: int) -> Seq<T> {
    Seq::new(n, |i: int| points[i]@[c])
}

fn column<T: Copy>(points: &Vec<[T; 3]>, n: usize, c: usize) -> (r: Vec<T>)
    requires
        n <= points@.len(),
        c < 3,
    ensures
        r@ == coordinate(points@, n as nat, c as int),
{
    let mut r: Vec<T> = Vec::new();
    for i in 0..n
        invariant
            n <= points@.len(),
            c < 3,
            r@ =~= coordinate(points@, i as nat, c as int),
    {
        r.push(points[i][c]);
    }
    r
}

/// `inverse` is one over the total weight, or 1 where that is not positive.
pub open spec fn is_share<T, O: RegistrationOps<T>>(
    ops: &O,
    zero: T,
    one: T,
    weights: Seq<T>,
    inverse: T,
) -> bool {
    exists|sum: T| #[trigger]
        crate::utils::shares::is_total(ops, zero, weights, sum) && {
            ||| crate::scalar::says_positive(ops, sum, true) && call_ensures(
                O::reciprocal,
                (ops, sum),
                inverse,
            )
            ||| crate::scalar::says_positive(ops, sum, false) && inverse == one
        }
}

/// `centre` is the weighted mean of the first `n` points.
pub open spec fn is_centre<T, O: Arithmetic<T>>(
    ops: &O,
    zero: T,
    points: Seq<[T; 3]>,
    n: nat,
    weights: Seq<T>,
    inverse: T,
    centre: Seq<T>,
) -> bool {
    forall|c: int|
        0 <= c < 3 ==> is_centre_coordinate(
            ops,
            zero,
            points,
            n,
            weights,
            inverse,
            c,
            #[trigger] centre[c],
        )
}

pub open spec fn is_centre_coordinate<T, O: Arithmetic<T>>(
    ops: &O,
    zero: T,
    points: Seq<[T; 3]>,
    n: nat,
    weights: Seq<T>,
    inverse: T,
    c: int,
    r: T,
) -> bool {
    exists|sum: T|
        is_running_sum(ops, zero, pairs(weights.take(n as int), coordinate(points, n, c)), sum)
            && #[trigger] crate::scalar::product_of(ops, sum, inverse, r)
}

fn centre_coordinate<T: Copy, O: Arithmetic<T>>(
    ops: &O,
    zero: T,
    points: &Vec<[T; 3]>,
    n: usize,
    weights: &Vec<T>,
    inverse: T,
    c: usize,
) -> (r: T)
    requires
        n <= points@.len(),
        weights@.len() == n,
        c < 3,
    ensures
        is_centre_coordinate(ops, zero, points@, n as nat, weights@, inverse, c as int, r),
{
    let xs = column(points, n, c);
    let sum = running_sum(ops, zero, weights, &xs);
    assert(weights@.take(n as int) =~= weights@);
    let r = ops.times(sum, inverse);
    assert(crate::scalar::product_of(ops, sum, inverse, r));
    r
}

/// `offsets` are the differences of one coordinate to the centre.
pub open spec fn are_offsets<T, O: Arithmetic<T>>(
    ops: &O,
    points: Seq<[T; 3]>,
    n: nat,
    c: int,
    centre: T,
    offsets: Seq<T>,
) -> bool {
    &&& offsets.len() == n
    &&& forall|i: int|
        0 <= i < n ==> crate::scalar::difference_of(
            ops,
            points[i]@[c],
            centre,
            #[trigger] offsets[i],
        )
}

fn offsets<T: Copy, O: Arithmetic<T>>(
    ops: &O,
    points: &Vec<[T; 3]>,
    n: usize,
    c: usize,
    centre: T,
) -> (r: Vec<T>)
    requires
        n <= points@.len(),
        c < 3,
    ensures
        are_offsets(ops, points@, n as nat, c as int, centre, r@),
{
    let mut r: Vec<T> = Vec::new();
    for i in 0..n
        invariant
            n <= points@.len(),
            c < 3,
            are_offsets(ops, points@, i as nat, c as int, centre, r@),
    {
        r.push(ops.minus(points[i][c], centre));
    }
    r
}

/// `scaled` are the offsets times the weights.
pub open spec fn are_scaled<T, O: Arithmetic<T>>(
    ops: &O,
    weights: Seq<T>,
    offsets: Seq<T>,
    scaled: Seq<T>,
) -> bool {
    &&& scaled.len() == offsets.len()
    &&& forall|i: int|
        0 <= i < offsets.len() ==> crate::scalar::product_of(
            ops,
            weights[i],
            offsets[i],
            #[trigger] scaled[i],
        )
}

fn scaled<T: Copy, O: Arithmetic<T>>(ops: &O, weights: &Vec<T>, offsets: &Vec<T>) -> (r: Vec<T>)
    requires
        offsets@.len() <= weights@.len(),
    ensures
        are_scaled(ops, weights@, offsets@, r@),
{
    let mut r: Vec<T> = Vec::new();
    for i in 0..offsets.len()
        invariant
            offsets@.len() <= weights@.len(),
            r@.len() == i,
            forall|j: int|
                0 <= j < i ==> crate::scalar::product_of(
                    ops,
                    weights@[j],
                    offsets@[j],
                    #[trigger] r@[j],
                ),
    {
        r.push(ops.times(weights[i], offsets[i]));
    }
    r
}

/// `h` is an entry of the weighted cross covariance of the two sets.
pub open spec fn is_covariance<T, O: Arithmetic<T>>(
    ops: &O,
    zero: T,
    src: Seq<[T; 3]>,
    tgt: Seq<[T; 3]>,
    n: nat,
    weights: Seq<T>,
    from: Seq<T>,
    to: Seq<T>,
    r: int,
    c: int,
    h: T,
) -> bool {
    exists|dx: Seq<T>, wx: Seq<T>, dy: Seq<T>|
        {
            &&& #[trigger] are_offsets(ops, src, n, r, from[r], dx)
            &&& #[trigger] are_scaled(ops, weights, dx, wx)
            &&& #[trigger] are_offsets(ops, tgt, n, c, to[c], dy)
            &&& is_running_sum(ops, zero, pairs(wx, dy), h)
        }
}

fn covariance<T: Copy, O: Arithmetic<T>>(
    ops: &O,
    zero: T,
    src: &Vec<[T; 3]>,
    tgt: &Vec<[T; 3]>,
    weights: &Vec<T>,
    from: &[T; 3],
    to: &[T; 3],
    r: usize,
    c: usize,
) -> (h: T)
    requires
        src@.len() <= tgt@.len(),
        src@.len() <= weights@.len(),
        r < 3,
        c < 3,
    ensures
        is_covariance(
            ops,
            zero,
            src@,
            tgt@,
            src@.len(),
            weights@,
            from@,
            to@,
            r as int,
            c as int,
            h,
        ),
{
    let n: usize = src.len();
    let dx = offsets(ops, src, n, r, from[r]);
    let wx = scaled(ops, weights, &dx);
    let dy = offsets(ops, tgt, n, c, to[c]);
    running_sum(ops, zero, &wx, &dy)
}

/// `t` takes the rotated first centre to the second one.
pub open spec fn is_shift<T, O: Arithmetic<T>>(
    ops: &O,
    rotation: Seq<Seq<T>>,
    from: Seq<T>,
    to: Seq<T>,
    r: int,
    t: T,
) -> bool {
    exists|u: T|
        crate::rotation::is_inner(ops, rotation[r], from, u)
            && #[trigger] crate::scalar::difference_of(ops, to[r], u, t)
}

/// A rotation and a translation.
#[derive(Debug, Clone, Copy)]
pub struct Rigid<T> {
    pub rotation: [[T; 3]; 3],
    pub translation: [T; 3],
}

/// What a registration goes through: the share of one unit of weight, the two
/// centres and the cross covariance.
pub struct Steps<T> {
    pub share: T,
    pub from: [T; 3],
    pub to: [T; 3],
    pub covariance: [[T; 3]; 3],
}

pub open spec fn are_steps<T, O: RegistrationOps<T>>(
    ops: &O,
    zero: T,
    one: T,
    src: Seq<[T; 3]>,
    tgt: Seq<[T; 3]>,
    weights: Seq<T>,
    steps: Steps<T>,
    rigid: Rigid<T>,
) -> bool {
    let n = src.len();
    &&& is_share(ops, zero, one, weights, steps.share)
    &&& is_centre(ops, zero, src, n, weights, steps.share, steps.from@)
    &&& is_centre(ops, zero, tgt, n, weights, steps.share, steps.to@)
    &&& forall|r: int, c: int|
        0 <= r < 3 && 0 <= c < 3 ==> is_covariance(
            ops,
            zero,
            src,
            tgt,
            n,
            weights,
            steps.from@,
            steps.to@,
            r,
            c,
            #[trigger] steps.covariance@[r]@[c],
        )
    &&& crate::registration::proper::is_best_rotation(
        ops,
        zero,
        one,
        steps.covariance,
        crate::rotation::rows3(rigid.rotation),
    )
    &&& forall|r: int|
        0 <= r < 3 ==> is_shift(
            ops,
            crate::rotation::rows3(rigid.rotation),
            steps.from@,
            steps.to@,
            r,
            #[trigger] rigid.translation@[r],
        )
}

/// `rigid` takes the points of `src` nearest to those of `tgt`.
pub open spec fn is_registration<T, O: RegistrationOps<T>>(
    ops: &O,
    zero: T,
    one: T,
    src: Seq<[T; 3]>,
    tgt: Seq<[T; 3]>,
    weights: Seq<T>,
    rigid: Rigid<T>,
) -> bool {
    exists|steps: Steps<T>| #[trigger]
        are_steps(ops, zero, one, src, tgt, weights, steps, rigid)
}

fn shift<T: Copy, O: Arithmetic<T>>(
    ops: &O,
    rotation: &[[T; 3]; 3],
    from: &[T; 3],
    to: &[T; 3],
    r: usize,
) -> (t: T)
    requires
        r < 3,
    ensures
        is_shift(ops, crate::rotation::rows3(*rotation), from@, to@, r as int, t),
{
    let row = rotation[r];
    assert(crate::rotation::rows3(*rotation)[r as int] == row@);
    let u = inner(ops, &row, from);
    let t = ops.minus(to[r], u);
    assert(crate::scalar::difference_of(ops, to@[r as int], u, t));
    t
}

pub(crate) fn centre<T: Copy, O: Arithmetic<T>>(
    ops: &O,
    zero: T,
    points: &Vec<[T; 3]>,
    n: usize,
    weights: &Vec<T>,
    share: T,
) -> (r: [T; 3])
    requires
        n <= points@.len(),
        weights@.len() == n,
    ensures
        is_centre(ops, zero, points@, n as nat, weights@, share, r@),
{
    [
        centre_coordinate(ops, zero, points, n, weights, share, 0),
        centre_coordinate(ops, zero, points, n, weights, share, 1),
        centre_coordinate(ops, zero, points, n, weights, share, 2),
    ]
}

/// The rigid transform that takes the points of `src` nearest to those of
/// `tgt`, by their weights.
pub fn register<T: Copy, O: RegistrationOps<T>>(
    src: &Vec<[T; 3]>,
    tgt: &Vec<[T; 3]>,
    weights: &Vec<T>,
    zero: T,
    one: T,
    ops: &O,
) -> (r: Rigid<T>)
    requires
        src@.len() <= tgt@.len(),
        src@.len() == weights@.len(),
    ensures
        is_registration(ops, zero, one, src@, tgt@, weights@, r),
{
    let n: usize = src.len();
    let sum = total(weights, zero, ops);
    let share = if ops.positive(sum) {
        ops.reciprocal(sum)
    } else {
        one
    };
    assert(is_share(ops, zero, one, weights@, share));
    let from = centre(ops, zero, src, n, weights, share);
    let to = centre(ops, zero, tgt, n, weights, share);
    let h = [
        [
            covariance(ops, zero, src, tgt, weights, &from, &to, 0, 0),
            covariance(ops, zero, src, tgt, weights, &from, &to, 0, 1),
            covariance(ops, zero, src, tgt, weights, &from, &to, 0, 2),
        ],
        [
            covariance(ops, zero, src, tgt, weights, &from, &to, 1, 0),
            covariance(ops, zero, src, tgt, weights, &from, &to, 1, 1),
            covariance(ops, zero, src, tgt, weights, &from, &to, 1, 2),
        ],
        [
            covariance(ops, zero, src, tgt, weights, &from, &to, 2, 0),
            covariance(ops, zero, src, tgt, weights, &from, &to, 2, 1),
            covariance(ops, zero, src, tgt, weights, &from, &to, 2, 2),
        ],
    ];
    let rotation = best_rotation(ops, zero, one, &h);
    let translation = [
        shift(ops, &rotation, &from, &to, 0),
        shift(ops, &rotation, &from, &to, 1),
        shift(ops, &rotation, &from, &to, 2),
    ];
    let r = Rigid { rotation, translation };
    proof {
        let steps = Steps { share, from, to, covariance: h };
        assert forall|i: int, j: int| 0 <= i < 3 && 0 <= j < 3 implies is_covariance(
            ops,
            zero,
            src@,
            tgt@,
            src@.len(),
            weights@,
            from@,
            to@,
            i,
            j,
            #[trigger] h@[i]@[j],
        ) by {
            assert(i == 0 || i == 1 || i == 2);
            assert(j == 0 || j == 1 || j == 2);
        }
        assert(are_steps(ops, zero, one, src@, tgt@, weights@, steps, r));
    }
    r
}

/// The weights of element `b`: those given, or 1 for each point.
pub open spec fn weights_of<T>(weights: Option<&Vec<Vec<T>>>, b: int, n: nat, one: T) -> Seq<T> {
    match weights {
        Some(w) => w@[b]@,
        None => Seq::new(n, |i: int| one),
    }
}

/// For each element of a batch the rigid transform that takes the points of
/// `src` nearest to those of `tgt`. Without weights every point counts alike.
pub fn rigid_points_registration<T: Copy, O: RegistrationOps<T>>(
    src: &Vec<Vec<[T; 3]>>,
    tgt: &Vec<Vec<[T; 3]>>,
    weights: Option<&Vec<Vec<T>>>,
    zero: T,
    one: T,
    ops: &O,
) -> (r: Vec<Rigid<T>>)
    requires
        src@.len() <= tgt@.len(),
        forall|b: int| 0 <= b < src@.len() ==> (#[trigger] src@[b])@.len() <= tgt@[b]@.len(),
        weights is Some ==> src@.len() <= weights->0@.len() && forall|b: int|
            0 <= b < src@.len() ==> (#[trigger] src@[b])@.len() == weights->0@[b]@.len(),
    ensures
        r@.len() == src@.len(),
        forall|b: int|
            0 <= b < r@.len() ==> is_registration(
                ops,
                zero,
                one,
                src@[b]@,
                tgt@[b]@,
                weights_of(weights, b, src@[b]@.len(), one),
                #[trigger] r@[b],
            ),
{
    let mut r: Vec<Rigid<T>> = Vec::new();
    for b in 0..src.len()
        invariant
            src@.len() <= tgt@.len(),
            forall|b: int| 0 <= b < src@.len() ==> (#[trigger] src@[b])@.len() <= tgt@[b]@.len(),
            weights is Some ==> src@.len() <= weights->0@.len() && forall|b: int|
                0 <= b < src@.len() ==> (#[trigger] src@[b])@.len() == weights->0@[b]@.len(),
            r@.len() == b,
            forall|d: int|
                0 <= d < b ==> is_registration(
                    ops,
                    zero,
                    one,
                    src@[d]@,
                    tgt@[d]@,
                    weights_of(weights, d, src@[d]@.len(), one),
                    #[trigger] r@[d],
                ),
    {
        assert(src@[b as int]@.len() <= tgt@[b as int]@.len());
        let rigid = match weights {
            Some(w) => register(&src[b], &tgt[b], &w[b], zero, one, ops),
            None => {
                let n: usize = src[b].len();
                let mut ones: Vec<T> = Vec::new();
                for i in 0..n
                    invariant
                        ones@ =~= Seq::new(i as nat, |j: int| one),
                {
                    ones.push(one);
                }
                register(&src[b], &tgt[b], &ones, zero, one, ops)
            },
        };
        r.push(rigid);
    }
    r
}

/// In exact arithmetic a registration takes the first centre to the second.
pub proof fn law_centre_to_centre<T, O: RegistrationOps<T>>(
    ops: &O,
    zero: T,
    one: T,
    src: Seq<[T; 3]>,
    tgt: Seq<[T; 3]>,
    weights: Seq<T>,
    steps: Steps<T>,
    rigid: Rigid<T>,
    value: spec_fn(T) -> real,
    r: int,
)
    requires
        crate::scalar::is_exact(ops, value),
        are_steps(ops, zero, one, src, tgt, weights, steps, rigid),
        0 <= r < 3,
    ensures
        crate::rotation_laws::inner(value, rigid.rotation@[r]@, steps.from@) + value(
            rigid.translation@[r],
        ) == value(steps.to@[r]),
{
    let rows = crate::rotation::rows3(rigid.rotation);
    let t = rigid.translation@[r];
    let terms = crate::rotation::inner_terms(rows[r], steps.from@);
    assert(is_shift(ops, rows, steps.from@, steps.to@, r, t));
    let u = choose|u: T|
        crate::rotation::is_inner(ops, rows[r], steps.from@, u)
            && #[trigger] crate::scalar::difference_of(
            ops,
            steps.to@[r],
            u,
            t,
        );
    crate::rotation_laws::law_exact_signed_sum(ops, terms, u, value);
    crate::rotation_laws::lemma_three_terms(value, terms);
    assert(rows[r] == rigid.rotation@[r]@);
}

} // verus!
