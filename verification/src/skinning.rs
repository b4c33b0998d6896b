//! Blend shapes and skinning: vertices are moved by weighted shapes, then by
//! the weighted transforms of their bones.
pub mod alike_laws;
pub mod dual;
pub mod dual_laws;
pub mod mixture_laws;
pub mod rigid_laws;

use vstd::prelude::*;

pub use dual::{DualQuaternion, MotionOps};

use crate::scalar::Arithmetic;
use crate::skinning::dual::{agrees, homogeneous_to_dual_quaternion, moved_point, opposite};
use crate::utils::blend::blend;

verus! {

/// What stops skinning.
#[derive(Debug, Clone, Copy, PartialEq, Eq, Structural)]
pub enum SkinError {
    /// An argument has neither the size of the batch nor one element.
    Batch { have: usize, want: usize },
    /// A bone index is beyond the transforms.
    BoneIndex,
    /// No vertex has a bone.
    NoBones,
    /// There are more or fewer coefficients than blend shapes.
    Coefficients,
}

/// `r` is the largest of the sizes, and at least 1.
pub open spec fn is_max_batch(sizes: Seq<usize>, r: usize) -> bool {
    &&& r >= 1
    &&& forall|i: int| 0 <= i < sizes.len() ==> #[trigger] sizes[i] <= r
    &&& r == 1 || sizes.contains(r)
}

/// The size of the batch: the largest of the sizes, and at least 1.
pub fn max_batch(sizes: &Vec<usize>) -> (r: usize)
    ensures
        is_max_batch(sizes@, r),
{
    let mut r: usize = 1;
    for i in 0..sizes.len()
        invariant
            r >= 1,
            forall|j: int| 0 <= j < i ==> #[trigger] sizes@[j] <= r,
            r == 1 || sizes@.contains(r),
    {
        if sizes[i] > r {
            r = sizes[i];
            assert(sizes@[i as int] == r);
        }
    }
    r
}

/// Whether a list of `have` elements can serve a batch of `want`.
pub open spec fn broadcasts(have: nat, want: int) -> bool {
    have == want || have == 1
}

/// Which element of a list of `have` serves element `b` of the batch.
pub open spec fn element(have: nat, b: int) -> int {
    if have == 1 {
        0
    } else {
        b
    }
}

fn element_index(have: usize, b: usize) -> (r: usize)
    ensures
        r == element(have as nat, b as int),
{
    if have == 1 {
        0
    } else {
        b
    }
}

/// Which of the sizes is the first that cannot serve the batch.
fn first_misfit(sizes: &Vec<usize>, want: usize) -> (r: Option<usize>)
    ensures
        match r {
            Some(i) => {
                &&& i < sizes@.len()
                &&& !broadcasts(sizes@[i as int] as nat, want as int)
                &&& forall|j: int|
                    0 <= j < i ==> broadcasts(#[trigger] sizes@[j] as nat, want as int)
            },
            None => forall|j: int|
                0 <= j < sizes@.len() ==> broadcasts(#[trigger] sizes@[j] as nat, want as int),
        },
{
    for i in 0..sizes.len()
        invariant
            forall|j: int| 0 <= j < i ==> broadcasts(#[trigger] sizes@[j] as nat, want as int),
    {
        if sizes[i] != want && sizes[i] != 1 {
            return Some(i);
        }
    }
    None
}

/// The transform that a bone index stands for in element `b` of the batch.
/// The transforms of the elements stand one after the other, `k` each.
pub open spec fn transform_of<M>(transforms: Seq<Vec<M>>, k: int, b: int, bone: u32) -> M {
    let at = b * k + bone;
    transforms[element(transforms.len(), at / k)]@[at % k]
}

/// The transforms of the bones of one vertex.
pub open spec fn gathered<M>(transforms: Seq<Vec<M>>, k: int, b: int, bones: Seq<u32>) -> Seq<M> {
    Seq::new(bones.len(), |s: int| transform_of(transforms, k, b, bones[s]))
}

/// Every bone index of a vertex stands for a transform of the batch.
pub open spec fn bones_within(bones: Seq<u32>, k: int, b: int, size: int) -> bool {
    forall|s: int| 0 <= s < bones.len() ==> b * k + #[trigger] bones[s] < size * k
}

proof fn lemma_split(at: int, k: int, size: int)
    requires
        0 <= at < size * k,
        0 <= k,
    ensures
        k > 0,
        0 <= at / k < size,
        0 <= at % k < k,
{
    assert(k > 0) by (nonlinear_arith)
        requires
            0 <= at < size * k,
            0 <= k,
    ;
    assert(0 <= at / k < size && 0 <= at % k < k) by (nonlinear_arith)
        requires
            0 <= at < size * k,
            k > 0,
    ;
}

/// The transforms of the bones of one vertex.
fn gather<M: Copy>(
    transforms: &Vec<Vec<M>>,
    k: usize,
    b: usize,
    size: usize,
    bones: &Vec<u32>,
) -> (r: Option<Vec<M>>)
    requires
        b < size,
        size * k <= u32::MAX,
        broadcasts(transforms@.len(), size as int),
        forall|i: int| 0 <= i < transforms@.len() ==> (#[trigger] transforms@[i])@.len() == k,
    ensures
        match r {
            Some(ms) => bones_within(bones@, k as int, b as int, size as int) && ms@ == gathered(
                transforms@,
                k as int,
                b as int,
                bones@,
            ),
            None => !bones_within(bones@, k as int, b as int, size as int),
        },
{
    let mut r: Vec<M> = Vec::new();
    assert(b * k <= size * k) by (nonlinear_arith)
        requires
            b < size,
    ;
    assert(0 <= b * k) by (nonlinear_arith);
    for s in 0..bones.len()
        invariant
            b < size,
            0 <= b * k <= size * k <= u32::MAX,
            broadcasts(transforms@.len(), size as int),
            forall|i: int| 0 <= i < transforms@.len() ==> (#[trigger] transforms@[i])@.len() == k,
            forall|j: int| 0 <= j < s ==> b * k + #[trigger] bones@[j] < size * k,
            r@ =~= gathered(transforms@, k as int, b as int, bones@.take(s as int)),
    {
        let start: u64 = (b * k) as u64;
        let end: u64 = (size * k) as u64;
        let at: u64 = start + bones[s] as u64;
        if at >= end {
            return None;
        }
        proof {
            lemma_split(at as int, k as int, size as int);
        }
        let row: usize = element_index(transforms.len(), at as usize / k);
        let col: usize = at as usize % k;
        r.push(transforms[row][col]);
        assert(transform_of(transforms@, k as int, b as int, bones@[s as int]) == r@.last());
    }
    assert(bones@.take(bones@.len() as int) =~= bones@);
    Some(r)
}

/// The weights, the bones and the transforms have the shape that skinning
/// takes: `v` vertices with `m` bones each, and `k` transforms.
pub open spec fn skin_shape<T, P, M>(
    vertices: Seq<Vec<P>>,
    weights: Seq<Vec<Vec<T>>>,
    indices: Seq<Vec<Vec<u32>>>,
    transforms: Seq<Vec<M>>,
    v: int,
    m: int,
    k: int,
) -> bool {
    &&& forall|b: int| 0 <= b < vertices.len() ==> (#[trigger] vertices[b])@.len() == v
    &&& forall|b: int| 0 <= b < weights.len() ==> (#[trigger] weights[b])@.len() == v
    &&& forall|b: int, i: int|
        0 <= b < weights.len() && 0 <= i < v ==> (#[trigger] weights[b]@[i])@.len() == m
    &&& forall|b: int| 0 <= b < indices.len() ==> (#[trigger] indices[b])@.len() == v
    &&& forall|b: int, i: int|
        0 <= b < indices.len() && 0 <= i < v ==> (#[trigger] indices[b]@[i])@.len() == m
    &&& forall|b: int| 0 <= b < transforms.len() ==> (#[trigger] transforms[b])@.len() == k
}

/// The sizes of the four arguments.
pub open spec fn sizes_of<T, P, M>(
    vertices: Seq<Vec<P>>,
    weights: Seq<Vec<Vec<T>>>,
    indices: Seq<Vec<Vec<u32>>>,
    transforms: Seq<Vec<M>>,
) -> Seq<nat> {
    seq![vertices.len(), weights.len(), indices.len(), transforms.len()]
}

/// `size` is the batch size of the arguments, and all of them serve it.
pub open spec fn is_batch(sizes: Seq<nat>, size: int) -> bool {
    &&& size >= 1
    &&& size == 1 || sizes.contains(size as nat)
    &&& forall|i: int| 0 <= i < sizes.len() ==> broadcasts(#[trigger] sizes[i], size)
}

/// The first argument that cannot serve the batch has `have` elements.
pub open spec fn misfits(sizes: Seq<nat>, have: int, want: int) -> bool {
    &&& want >= 1
    &&& want == 1 || sizes.contains(want as nat)
    &&& forall|i: int| 0 <= i < sizes.len() ==> #[trigger] sizes[i] <= want
    &&& exists|i: int|
        {
            &&& 0 <= i < sizes.len()
            &&& #[trigger] sizes[i] == have
            &&& !broadcasts(sizes[i], want)
            &&& forall|j: int| 0 <= j < i ==> broadcasts(#[trigger] sizes[j], want)
        }
}

/// The batch size of the four arguments, or the one that does not fit.
fn batch_of(sizes: &Vec<usize>) -> (r: Result<usize, SkinError>)
    ensures
        match r {
            Ok(size) => is_batch(sizes@.map_values(|n: usize| n as nat), size as int),
            Err(SkinError::Batch { have, want }) => misfits(
                sizes@.map_values(|n: usize| n as nat),
                have as int,
                want as int,
            ),
            Err(_) => false,
        },
{
    let ghost nats = sizes@.map_values(|n: usize| n as nat);
    let want: usize = max_batch(sizes);
    proof {
        if sizes@.contains(want) {
            let i = choose|i: int| 0 <= i < sizes@.len() && sizes@[i] == want;
            assert(nats[i] == want as nat);
        }
        assert forall|i: int| 0 <= i < nats.len() implies #[trigger] nats[i] <= want by {
            assert(sizes@[i] <= want);
        }
    }
    match first_misfit(sizes, want) {
        Some(i) => {
            proof {
                assert(nats[i as int] == sizes@[i as int] as nat);
                assert forall|j: int| 0 <= j < i implies broadcasts(
                    #[trigger] nats[j],
                    want as int,
                ) by {
                    assert(broadcasts(sizes@[j] as nat, want as int));
                }
            }
            Err(SkinError::Batch { have: sizes[i], want })
        },
        None => {
            proof {
                assert forall|j: int| 0 <= j < nats.len() implies broadcasts(
                    #[trigger] nats[j],
                    want as int,
                ) by {
                    assert(broadcasts(sizes@[j] as nat, want as int));
                }
            }
            Ok(want)
        },
    }
}

/// The weights of the bones and one entry of their transforms.
pub open spec fn entry_terms<T>(
    weights: Seq<T>,
    ms: Seq<[[T; 4]; 4]>,
    r: int,
    c: int,
) -> Seq<(T, T)> {
    Seq::new(weights.len(), |s: int| (weights[s], ms[s]@[r]@[c]))
}

/// A row of a transform and the point that it is applied to.
pub open spec fn row_terms<T>(row: Seq<T>, p: Seq<T>, one: T) -> Seq<(T, T)> {
    seq![(row[0], p[0]), (row[1], p[1]), (row[2], p[2]), (row[3], one)]
}

/// `row` is row `r` of the weighted sum of the transforms.
pub open spec fn is_blended_row<T, O: Arithmetic<T>>(
    ops: &O,
    zero: T,
    weights: Seq<T>,
    ms: Seq<[[T; 4]; 4]>,
    r: int,
    row: Seq<T>,
) -> bool {
    &&& row.len() == 4
    &&& forall|c: int|
        0 <= c < 4 ==> crate::utils::blend::is_blend(
            ops,
            zero,
            entry_terms(weights, ms, r, c),
            #[trigger] row[c],
        )
}

/// `q` is the coordinate `r` of the point `p` under the weighted sum of the
/// transforms.
pub open spec fn is_skinned_coordinate<T, O: Arithmetic<T>>(
    ops: &O,
    zero: T,
    one: T,
    weights: Seq<T>,
    ms: Seq<[[T; 4]; 4]>,
    p: Seq<T>,
    r: int,
    q: T,
) -> bool {
    exists|row: Seq<T>| #[trigger]
        is_blended_row(ops, zero, weights, ms, r, row) && crate::utils::blend::is_blend(
            ops,
            zero,
            row_terms(row, p, one),
            q,
        )
}

/// `q` is the point `p` under the weighted sum of the transforms.
pub open spec fn is_skinned<T, O: Arithmetic<T>>(
    ops: &O,
    zero: T,
    one: T,
    weights: Seq<T>,
    ms: Seq<[[T; 4]; 4]>,
    p: Seq<T>,
    q: Seq<T>,
) -> bool {
    &&& is_skinned_coordinate(ops, zero, one, weights, ms, p, 0, q[0])
    &&& is_skinned_coordinate(ops, zero, one, weights, ms, p, 1, q[1])
    &&& is_skinned_coordinate(ops, zero, one, weights, ms, p, 2, q[2])
}

fn blended_entry<T: Copy, O: Arithmetic<T>>(
    ops: &O,
    zero: T,
    weights: &Vec<T>,
    ms: &Vec<[[T; 4]; 4]>,
    r: usize,
    c: usize,
) -> (e: T)
    requires
        weights@.len() == ms@.len(),
        r < 4,
        c < 4,
    ensures
        crate::utils::blend::is_blend(
            ops,
            zero,
            entry_terms(weights@, ms@, r as int, c as int),
            e,
        ),
{
    let mut terms: Vec<(T, T)> = Vec::new();
    for s in 0..weights.len()
        invariant
            weights@.len() == ms@.len(),
            r < 4,
            c < 4,
            terms@ =~= entry_terms(weights@.take(s as int), ms@, r as int, c as int),
    {
        let row = ms[s][r];
        terms.push((weights[s], row[c]));
    }
    assert(weights@.take(weights@.len() as int) =~= weights@);
    blend(ops, zero, &terms)
}

fn skinned_coordinate<T: Copy, O: Arithmetic<T>>(
    ops: &O,
    zero: T,
    one: T,
    weights: &Vec<T>,
    ms: &Vec<[[T; 4]; 4]>,
    p: &[T; 3],
    r: usize,
) -> (q: T)
    requires
        weights@.len() == ms@.len(),
        r < 3,
    ensures
        is_skinned_coordinate(ops, zero, one, weights@, ms@, p@, r as int, q),
{
    let a = blended_entry(ops, zero, weights, ms, r, 0);
    let b = blended_entry(ops, zero, weights, ms, r, 1);
    let c = blended_entry(ops, zero, weights, ms, r, 2);
    let d = blended_entry(ops, zero, weights, ms, r, 3);
    let terms: Vec<(T, T)> = vec![(a, p[0]), (b, p[1]), (c, p[2]), (d, one)];
    let q = blend(ops, zero, &terms);
    proof {
        let row = seq![a, b, c, d];
        assert(is_blended_row(ops, zero, weights@, ms@, r as int, row));
        assert(terms@ =~= row_terms(row, p@, one));
    }
    q
}

/// The outcome of skinning: each vertex of each element of the batch is
/// placed by `placed(b, v, q)`.
pub open spec fn skin_outcome<T, P, M>(
    vertices: Seq<Vec<P>>,
    weights: Seq<Vec<Vec<T>>>,
    indices: Seq<Vec<Vec<u32>>>,
    transforms: Seq<Vec<M>>,
    v: int,
    k: int,
    placed: spec_fn(int, int, P) -> bool,
    r: Result<Vec<Vec<P>>, SkinError>,
) -> bool {
    let sizes = sizes_of(vertices, weights, indices, transforms);
    match r {
        Ok(out) => {
            &&& is_batch(sizes, out@.len() as int)
            &&& forall|b: int| 0 <= b < out@.len() ==> (#[trigger] out@[b])@.len() == v
            &&& forall|b: int, i: int|
                0 <= b < out@.len() && 0 <= i < v ==> placed(b, i, #[trigger] out@[b]@[i])
            &&& forall|b: int, i: int|
                0 <= b < out@.len() && 0 <= i < v ==> !#[trigger] stray_bone(
                    sizes,
                    indices,
                    k,
                    out@.len() as int,
                    b,
                    i,
                )
        },
        Err(SkinError::Batch { have, want }) => misfits(sizes, have as int, want as int),
        Err(SkinError::BoneIndex) => exists|size: int, b: int, i: int| #[trigger]
            stray_bone(sizes, indices, k, size, b, i) && 0 <= i < v,
        Err(_) => false,
    }
}

/// The batch is small enough for its transforms to be counted.
pub open spec fn countable(sizes: Seq<nat>, k: int) -> bool {
    forall|size: int| #[trigger] is_batch(sizes, size) ==> size * k <= u32::MAX
}

/// A bone index of vertex `i` in element `b` is beyond the transforms.
pub open spec fn stray_bone(
    sizes: Seq<nat>,
    indices: Seq<Vec<Vec<u32>>>,
    k: int,
    size: int,
    b: int,
    i: int,
) -> bool {
    &&& is_batch(sizes, size)
    &&& 0 <= b < size
    &&& !bones_within(indices[element(indices.len(), b)]@[i]@, k, b, size)
}

/// `q` is what `place` makes of vertex `i` in element `b`, its weights and the
/// transforms of its bones.
pub open spec fn is_placed<T, P, M, F: Fn(&Vec<T>, &Vec<M>, &P) -> P>(
    place: F,
    vertices: Seq<Vec<P>>,
    weights: Seq<Vec<Vec<T>>>,
    indices: Seq<Vec<Vec<u32>>>,
    transforms: Seq<Vec<M>>,
    k: int,
    b: int,
    i: int,
    q: P,
) -> bool {
    exists|ms: Vec<M>|
        ms@ == gathered(transforms, k, b, indices[element(indices.len(), b)]@[i]@)
            && #[trigger] call_ensures(
            place,
            (
                &weights[element(weights.len(), b)]@[i],
                &ms,
                &vertices[element(vertices.len(), b)]@[i],
            ),
            q,
        )
}

/// Places every vertex of every element of the batch.
fn skin_all<T, P, M: Copy, F: Fn(&Vec<T>, &Vec<M>, &P) -> P>(
    vertices: &Vec<Vec<P>>,
    bone_weights: &Vec<Vec<Vec<T>>>,
    bone_indices: &Vec<Vec<Vec<u32>>>,
    bone_transforms: &Vec<Vec<M>>,
    v: usize,
    m: usize,
    k: usize,
    place: F,
) -> (r: Result<Vec<Vec<P>>, SkinError>)
    requires
        skin_shape(
            vertices@,
            bone_weights@,
            bone_indices@,
            bone_transforms@,
            v as int,
            m as int,
            k as int,
        ),
        countable(sizes_of(vertices@, bone_weights@, bone_indices@, bone_transforms@), k as int),
        forall|w: &Vec<T>, ms: &Vec<M>, p: &P|
            w@.len() == m && ms@.len() == m ==> #[trigger] call_requires(place, (w, ms, p)),
    ensures
        skin_outcome(
            vertices@,
            bone_weights@,
            bone_indices@,
            bone_transforms@,
            v as int,
            k as int,
            |b: int, i: int, q: P|
                is_placed(
                    place,
                    vertices@,
                    bone_weights@,
                    bone_indices@,
                    bone_transforms@,
                    k as int,
                    b,
                    i,
                    q,
                ),
            r,
        ),
{
    let ghost sizes = sizes_of(vertices@, bone_weights@, bone_indices@, bone_transforms@);
    let lens: Vec<usize> = vec![
        vertices.len(),
        bone_weights.len(),
        bone_indices.len(),
        bone_transforms.len(),
    ];
    assert(lens@.map_values(|n: usize| n as nat) =~= sizes);
    let size: usize = match batch_of(&lens) {
        Ok(size) => size,
        Err(e) => {
            return Err(e);
        },
    };
    proof {
        assert(size * k <= u32::MAX);
        assert(broadcasts(sizes[0], size as int));
        assert(broadcasts(sizes[1], size as int));
        assert(broadcasts(sizes[2], size as int));
        assert(broadcasts(sizes[3], size as int));
    }
    let mut out: Vec<Vec<P>> = Vec::new();
    for b in 0..size
        invariant
            skin_shape(
                vertices@,
                bone_weights@,
                bone_indices@,
                bone_transforms@,
                v as int,
                m as int,
                k as int,
            ),
            sizes == sizes_of(vertices@, bone_weights@, bone_indices@, bone_transforms@),
            is_batch(sizes, size as int),
            broadcasts(vertices@.len(), size as int),
            broadcasts(bone_weights@.len(), size as int),
            broadcasts(bone_indices@.len(), size as int),
            broadcasts(bone_transforms@.len(), size as int),
            size * k <= u32::MAX,
            forall|w: &Vec<T>, ms: &Vec<M>, p: &P|
                w@.len() == m && ms@.len() == m ==> #[trigger] call_requires(place, (w, ms, p)),
            out@.len() == b,
            forall|d: int| 0 <= d < b ==> (#[trigger] out@[d])@.len() == v,
            forall|d: int, i: int|
                0 <= d < b && 0 <= i < v ==> !#[trigger] stray_bone(
                    sizes,
                    bone_indices@,
                    k as int,
                    size as int,
                    d,
                    i,
                ),
            forall|d: int, i: int|
                0 <= d < b && 0 <= i < v ==> is_placed(
                    place,
                    vertices@,
                    bone_weights@,
                    bone_indices@,
                    bone_transforms@,
                    k as int,
                    d,
                    i,
                    #[trigger] out@[d]@[i],
                ),
    {
        let points = &vertices[element_index(vertices.len(), b)];
        let weights = &bone_weights[element_index(bone_weights.len(), b)];
        let indices = &bone_indices[element_index(bone_indices.len(), b)];
        let mut row: Vec<P> = Vec::new();
        for i in 0..v
            invariant
                skin_shape(
                    vertices@,
                    bone_weights@,
                    bone_indices@,
                    bone_transforms@,
                    v as int,
                    m as int,
                    k as int,
                ),
                b < size,
                sizes == sizes_of(vertices@, bone_weights@, bone_indices@, bone_transforms@),
                is_batch(sizes, size as int),
                broadcasts(vertices@.len(), size as int),
                broadcasts(bone_weights@.len(), size as int),
                broadcasts(bone_indices@.len(), size as int),
                broadcasts(bone_transforms@.len(), size as int),
                size * k <= u32::MAX,
                forall|w: &Vec<T>, ms: &Vec<M>, p: &P|
                    w@.len() == m && ms@.len() == m ==> #[trigger] call_requires(place, (w, ms, p)),
                *points == vertices@[element(vertices@.len(), b as int)],
                *weights == bone_weights@[element(bone_weights@.len(), b as int)],
                *indices == bone_indices@[element(bone_indices@.len(), b as int)],
                points@.len() == v,
                weights@.len() == v,
                indices@.len() == v,
                row@.len() == i,
                forall|j: int|
                    0 <= j < i ==> !#[trigger] stray_bone(
                        sizes,
                        bone_indices@,
                        k as int,
                        size as int,
                        b as int,
                        j,
                    ),
                forall|j: int|
                    0 <= j < i ==> is_placed(
                        place,
                        vertices@,
                        bone_weights@,
                        bone_indices@,
                        bone_transforms@,
                        k as int,
                        b as int,
                        j,
                        #[trigger] row@[j],
                    ),
        {
            let ms = match gather(bone_transforms, k, b, size, &indices[i]) {
                Some(ms) => ms,
                None => {
                    assert(stray_bone(
                        sizes,
                        bone_indices@,
                        k as int,
                        size as int,
                        b as int,
                        i as int,
                    ));
                    return Err(SkinError::BoneIndex);
                },
            };
            assert(bone_weights@[element(bone_weights@.len(), b as int)]@[i as int]@.len() == m);
            assert(bone_indices@[element(bone_indices@.len(), b as int)]@[i as int]@.len() == m);
            row.push(place(&weights[i], &ms, &points[i]));
        }
        out.push(row);
    }
    Ok(out)
}

/// Whether `q` is where linear blend skinning puts vertex `i` in element `b`.
pub open spec fn is_linear_blend<T, O: Arithmetic<T>>(
    ops: &O,
    zero: T,
    one: T,
    vertices: Seq<Vec<[T; 3]>>,
    weights: Seq<Vec<Vec<T>>>,
    indices: Seq<Vec<Vec<u32>>>,
    transforms: Seq<Vec<[[T; 4]; 4]>>,
    k: int,
    b: int,
    i: int,
    q: Seq<T>,
) -> bool {
    is_skinned(
        ops,
        zero,
        one,
        weights[element(weights.len(), b)]@[i]@,
        gathered(transforms, k, b, indices[element(indices.len(), b)]@[i]@),
        vertices[element(vertices.len(), b)]@[i]@,
        q,
    )
}

/// Linear blend skinning: each vertex is moved by the weighted sum of the
/// transforms of its bones. There are `v` vertices with `m` bones each, and `k`
/// transforms.
pub fn linear_blend_skinning<T: Copy, O: Arithmetic<T>>(
    vertices: &Vec<Vec<[T; 3]>>,
    bone_weights: &Vec<Vec<Vec<T>>>,
    bone_indices: &Vec<Vec<Vec<u32>>>,
    bone_transforms: &Vec<Vec<[[T; 4]; 4]>>,
    v: usize,
    m: usize,
    k: usize,
    zero: T,
    one: T,
    ops: &O,
) -> (r: Result<Vec<Vec<[T; 3]>>, SkinError>)
    requires
        skin_shape(
            vertices@,
            bone_weights@,
            bone_indices@,
            bone_transforms@,
            v as int,
            m as int,
            k as int,
        ),
        countable(sizes_of(vertices@, bone_weights@, bone_indices@, bone_transforms@), k as int),
    ensures
        skin_outcome(
            vertices@,
            bone_weights@,
            bone_indices@,
            bone_transforms@,
            v as int,
            k as int,
            |b: int, i: int, q: [T; 3]|
                is_linear_blend(
                    ops,
                    zero,
                    one,
                    vertices@,
                    bone_weights@,
                    bone_indices@,
                    bone_transforms@,
                    k as int,
                    b,
                    i,
                    q@,
                ),
            r,
        ),
{
    let place = |w: &Vec<T>, ms: &Vec<[[T; 4]; 4]>, p: &[T; 3]| -> (q: [T; 3])
        requires
            w@.len() == ms@.len(),
        ensures
            is_skinned(ops, zero, one, w@, ms@, p@, q@),
        {
            let x = skinned_coordinate(ops, zero, one, w, ms, p, 0);
            let y = skinned_coordinate(ops, zero, one, w, ms, p, 1);
            let z = skinned_coordinate(ops, zero, one, w, ms, p, 2);
            [x, y, z]
        };
    let r = skin_all(vertices, bone_weights, bone_indices, bone_transforms, v, m, k, place);
    proof {
        if r is Ok {
            let out = r->Ok_0;
            assert forall|b: int, i: int| 0 <= b < out@.len() && 0 <= i < v implies is_linear_blend(
                ops,
                zero,
                one,
                vertices@,
                bone_weights@,
                bone_indices@,
                bone_transforms@,
                k as int,
                b,
                i,
                (#[trigger] out@[b]@[i])@,
            ) by {
                assert(is_placed(
                    place,
                    vertices@,
                    bone_weights@,
                    bone_indices@,
                    bone_transforms@,
                    k as int,
                    b,
                    i,
                    out@[b]@[i],
                ));
            }
        }
    }
    r
}

/// `raw` are the transforms as dual quaternions.
pub open spec fn are_duals<T, O: MotionOps<T>>(
    ops: &O,
    one: T,
    ms: Seq<[[T; 4]; 4]>,
    raw: Seq<DualQuaternion<T>>,
) -> bool {
    &&& raw.len() == ms.len()
    &&& forall|s: int|
        0 <= s < ms.len() ==> crate::skinning::dual::is_dual(
            ops,
            one,
            crate::rotation::rows4(ms[s]),
            #[trigger] raw[s],
        )
}

/// `q` is `raw`, turned over where it points away from `first`.
pub open spec fn is_aligned<T, O: MotionOps<T>>(
    ops: &O,
    first: DualQuaternion<T>,
    raw: DualQuaternion<T>,
    q: DualQuaternion<T>,
) -> bool {
    ||| crate::skinning::dual::is_agreement(ops, raw, first, true) && q == raw
    ||| crate::skinning::dual::is_agreement(ops, raw, first, false)
        && crate::skinning::dual::is_opposite(ops, raw, q)
}

/// `aligned` is `raw` with those turned over that point away from the first.
pub open spec fn are_aligned<T, O: MotionOps<T>>(
    ops: &O,
    raw: Seq<DualQuaternion<T>>,
    aligned: Seq<DualQuaternion<T>>,
) -> bool {
    &&& aligned.len() == raw.len()
    &&& forall|s: int|
        0 <= s < raw.len() ==> is_aligned(ops, raw[0], raw[s], #[trigger] aligned[s])
}

/// The rotation of a dual quaternion, or its translation.
pub open spec fn part<T>(q: DualQuaternion<T>, translation: bool) -> Seq<T> {
    if translation {
        q.1@
    } else {
        q.0@
    }
}

/// The weights and one component of the quaternions.
pub open spec fn component_terms<T>(
    weights: Seq<T>,
    qs: Seq<DualQuaternion<T>>,
    translation: bool,
    c: int,
) -> Seq<(T, T)> {
    Seq::new(weights.len(), |s: int| (weights[s], part(qs[s], translation)[c]))
}

/// `mean` is the weighted sum of the dual quaternions.
pub open spec fn is_mean<T, O: Arithmetic<T>>(
    ops: &O,
    zero: T,
    weights: Seq<T>,
    qs: Seq<DualQuaternion<T>>,
    mean: DualQuaternion<T>,
) -> bool {
    forall|translation: bool, c: int|
        0 <= c < 4 ==> crate::utils::blend::is_blend(
            ops,
            zero,
            component_terms(weights, qs, translation, c),
            #[trigger] part(mean, translation)[c],
        )
}

/// `q` is the point `p` under the weighted sum of the transforms as dual
/// quaternions.
pub open spec fn is_dual_skinned<T, O: MotionOps<T>>(
    ops: &O,
    zero: T,
    one: T,
    weights: Seq<T>,
    ms: Seq<[[T; 4]; 4]>,
    p: [T; 3],
    q: [T; 3],
) -> bool {
    exists|
        raw: Seq<DualQuaternion<T>>,
        aligned: Seq<DualQuaternion<T>>,
        mean: DualQuaternion<T>,
    |
        {
            &&& #[trigger] are_duals(ops, one, ms, raw)
            &&& #[trigger] are_aligned(ops, raw, aligned)
            &&& #[trigger] is_mean(ops, zero, weights, aligned, mean)
            &&& crate::skinning::dual::is_moved(ops, zero, mean, p@, q@)
        }
}

fn mean_component<T: Copy, O: Arithmetic<T>>(
    ops: &O,
    zero: T,
    weights: &Vec<T>,
    qs: &Vec<DualQuaternion<T>>,
    translation: bool,
    c: usize,
) -> (e: T)
    requires
        weights@.len() == qs@.len(),
        c < 4,
    ensures
        crate::utils::blend::is_blend(
            ops,
            zero,
            component_terms(weights@, qs@, translation, c as int),
            e,
        ),
{
    let mut terms: Vec<(T, T)> = Vec::new();
    for s in 0..weights.len()
        invariant
            weights@.len() == qs@.len(),
            c < 4,
            terms@ =~= component_terms(weights@.take(s as int), qs@, translation, c as int),
    {
        let x = if translation {
            qs[s].1[c]
        } else {
            qs[s].0[c]
        };
        terms.push((weights[s], x));
    }
    assert(weights@.take(weights@.len() as int) =~= weights@);
    blend(ops, zero, &terms)
}

fn mean<T: Copy, O: Arithmetic<T>>(
    ops: &O,
    zero: T,
    weights: &Vec<T>,
    qs: &Vec<DualQuaternion<T>>,
) -> (r: DualQuaternion<T>)
    requires
        weights@.len() == qs@.len(),
    ensures
        is_mean(ops, zero, weights@, qs@, r),
{
    let rotation = [
        mean_component(ops, zero, weights, qs, false, 0),
        mean_component(ops, zero, weights, qs, false, 1),
        mean_component(ops, zero, weights, qs, false, 2),
        mean_component(ops, zero, weights, qs, false, 3),
    ];
    let translation = [
        mean_component(ops, zero, weights, qs, true, 0),
        mean_component(ops, zero, weights, qs, true, 1),
        mean_component(ops, zero, weights, qs, true, 2),
        mean_component(ops, zero, weights, qs, true, 3),
    ];
    (rotation, translation)
}

fn dual_skinned<T: Copy, O: MotionOps<T>>(
    ops: &O,
    zero: T,
    one: T,
    weights: &Vec<T>,
    ms: &Vec<[[T; 4]; 4]>,
    p: &[T; 3],
) -> (q: [T; 3])
    requires
        weights@.len() == ms@.len(),
        ms@.len() > 0,
    ensures
        is_dual_skinned(ops, zero, one, weights@, ms@, *p, q),
{
    let mut raw: Vec<DualQuaternion<T>> = Vec::new();
    for s in 0..ms.len()
        invariant
            raw@.len() == s,
            forall|j: int|
                0 <= j < s ==> crate::skinning::dual::is_dual(
                    ops,
                    one,
                    crate::rotation::rows4(ms@[j]),
                    #[trigger] raw@[j],
                ),
    {
        raw.push(homogeneous_to_dual_quaternion(&ms[s], one, ops));
    }
    let mut aligned: Vec<DualQuaternion<T>> = Vec::new();
    for s in 0..raw.len()
        invariant
            raw@.len() > 0,
            aligned@.len() == s,
            forall|j: int|
                0 <= j < s ==> is_aligned(ops, raw@[0], raw@[j], #[trigger] aligned@[j]),
    {
        let q = if agrees(&raw[s], &raw[0], ops) {
            raw[s]
        } else {
            opposite(&raw[s], ops)
        };
        aligned.push(q);
    }
    let mean = mean(ops, zero, weights, &aligned);
    let q = moved_point(&mean, p, zero, ops);
    proof {
        assert(are_duals(ops, one, ms@, raw@));
        assert(are_aligned(ops, raw@, aligned@));
        assert(is_mean(ops, zero, weights@, aligned@, mean));
    }
    q
}

/// Whether `q` is where dual quaternion skinning puts vertex `i` in element
/// `b`.
pub open spec fn is_dual_blend<T, O: MotionOps<T>>(
    ops: &O,
    zero: T,
    one: T,
    vertices: Seq<Vec<[T; 3]>>,
    weights: Seq<Vec<Vec<T>>>,
    indices: Seq<Vec<Vec<u32>>>,
    transforms: Seq<Vec<[[T; 4]; 4]>>,
    k: int,
    b: int,
    i: int,
    q: [T; 3],
) -> bool {
    is_dual_skinned(
        ops,
        zero,
        one,
        weights[element(weights.len(), b)]@[i]@,
        gathered(transforms, k, b, indices[element(indices.len(), b)]@[i]@),
        vertices[element(vertices.len(), b)]@[i],
        q,
    )
}

/// Dual quaternion skinning: each vertex is moved by the weighted sum of the
/// transforms of its bones as dual quaternions, all turned to the side of the
/// first. There are `v` vertices with `m` bones each, and `k` transforms.
pub fn dual_quaternion_skinning<T: Copy, O: MotionOps<T>>(
    vertices: &Vec<Vec<[T; 3]>>,
    bone_weights: &Vec<Vec<Vec<T>>>,
    bone_indices: &Vec<Vec<Vec<u32>>>,
    bone_transforms: &Vec<Vec<[[T; 4]; 4]>>,
    v: usize,
    m: usize,
    k: usize,
    zero: T,
    one: T,
    ops: &O,
) -> (r: Result<Vec<Vec<[T; 3]>>, SkinError>)
    requires
        skin_shape(
            vertices@,
            bone_weights@,
            bone_indices@,
            bone_transforms@,
            v as int,
            m as int,
            k as int,
        ),
        countable(sizes_of(vertices@, bone_weights@, bone_indices@, bone_transforms@), k as int),
    ensures
        m > 0 ==> skin_outcome(
            vertices@,
            bone_weights@,
            bone_indices@,
            bone_transforms@,
            v as int,
            k as int,
            |b: int, i: int, q: [T; 3]|
                is_dual_blend(
                    ops,
                    zero,
                    one,
                    vertices@,
                    bone_weights@,
                    bone_indices@,
                    bone_transforms@,
                    k as int,
                    b,
                    i,
                    q,
                ),
            r,
        ),
        m == 0 ==> match r {
            Err(SkinError::NoBones) => exists|size: int| #[trigger]
                is_batch(
                    sizes_of(vertices@, bone_weights@, bone_indices@, bone_transforms@),
                    size,
                ),
            Err(SkinError::Batch { have, want }) => misfits(
                sizes_of(vertices@, bone_weights@, bone_indices@, bone_transforms@),
                have as int,
                want as int,
            ),
            _ => false,
        },
{
    if m == 0 {
        let lens: Vec<usize> = vec![
            vertices.len(),
            bone_weights.len(),
            bone_indices.len(),
            bone_transforms.len(),
        ];
        assert(lens@.map_values(|n: usize| n as nat) =~= sizes_of(
            vertices@,
            bone_weights@,
            bone_indices@,
            bone_transforms@,
        ));
        return match batch_of(&lens) {
            Ok(_) => Err(SkinError::NoBones),
            Err(e) => Err(e),
        };
    }
    let place = |w: &Vec<T>, ms: &Vec<[[T; 4]; 4]>, p: &[T; 3]| -> (q: [T; 3])
        requires
            w@.len() == ms@.len(),
            ms@.len() > 0,
        ensures
            is_dual_skinned(ops, zero, one, w@, ms@, *p, q),
        { dual_skinned(ops, zero, one, w, ms, p) };
    let r = skin_all(vertices, bone_weights, bone_indices, bone_transforms, v, m, k, place);
    proof {
        if r is Ok {
            let out = r->Ok_0;
            assert forall|b: int, i: int| 0 <= b < out@.len() && 0 <= i < v implies is_dual_blend(
                ops,
                zero,
                one,
                vertices@,
                bone_weights@,
                bone_indices@,
                bone_transforms@,
                k as int,
                b,
                i,
                #[trigger] out@[b]@[i],
            ) by {
                assert(is_placed(
                    place,
                    vertices@,
                    bone_weights@,
                    bone_indices@,
                    bone_transforms@,
                    k as int,
                    b,
                    i,
                    out@[b]@[i],
                ));
            }
        }
    }
    r
}

/// The coefficients and one coordinate of a vertex in each shape.
pub open spec fn shape_terms<T>(
    coefficients: Seq<T>,
    shapes: Seq<Vec<[T; 3]>>,
    i: int,
    c: int,
) -> Seq<(T, T)> {
    Seq::new(shapes.len(), |s: int| (coefficients[s], shapes[s]@[i]@[c]))
}

/// `q` is the template coordinate with the weighted shapes added.
pub open spec fn is_shaped<T, O: Arithmetic<T>>(
    ops: &O,
    zero: T,
    template: Seq<[T; 3]>,
    shapes: Seq<Vec<[T; 3]>>,
    coefficients: Seq<T>,
    i: int,
    c: int,
    q: T,
) -> bool {
    exists|mixed: T| #[trigger]
        crate::scalar::sum_of(ops, template[i]@[c], mixed, q) && crate::utils::blend::is_blend(
            ops,
            zero,
            shape_terms(coefficients, shapes, i, c),
            mixed,
        )
}

fn shaped<T: Copy, O: Arithmetic<T>>(
    ops: &O,
    zero: T,
    template: &Vec<[T; 3]>,
    shapes: &Vec<Vec<[T; 3]>>,
    coefficients: &Vec<T>,
    i: usize,
    c: usize,
) -> (q: T)
    requires
        i < template@.len(),
        c < 3,
        coefficients@.len() == shapes@.len(),
        forall|s: int|
            0 <= s < shapes@.len() ==> (#[trigger] shapes@[s])@.len() == template@.len(),
    ensures
        is_shaped(
            ops,
            zero,
            template@,
            shapes@,
            coefficients@,
            i as int,
            c as int,
            q,
        ),
{
    let mut terms: Vec<(T, T)> = Vec::new();
    for s in 0..shapes.len()
        invariant
            i < template@.len(),
            c < 3,
            coefficients@.len() == shapes@.len(),
            forall|s: int|
                0 <= s < shapes@.len() ==> (#[trigger] shapes@[s])@.len() == template@.len(),
            terms@ =~= shape_terms(coefficients@, shapes@.take(s as int), i as int, c as int),
    {
        terms.push((coefficients[s], shapes[s][i][c]));
    }
    assert(shapes@.take(shapes@.len() as int) =~= shapes@);
    let mixed = blend(ops, zero, &terms);
    let q = ops.plus(template[i][c], mixed);
    assert(crate::scalar::sum_of(ops, template@[i as int]@[c as int], mixed, q));
    q
}

/// The template with the weighted shapes added, for each row of coefficients.
pub fn apply_linear_blendshape<T: Copy, O: Arithmetic<T>>(
    template: &Vec<[T; 3]>,
    shapes: &Vec<Vec<[T; 3]>>,
    coefficients: &Vec<Vec<T>>,
    zero: T,
    ops: &O,
) -> (r: Result<Vec<Vec<[T; 3]>>, SkinError>)
    requires
        forall|s: int|
            0 <= s < shapes@.len() ==> (#[trigger] shapes@[s])@.len() == template@.len(),
    ensures
        match r {
            Ok(out) => {
                &&& forall|b: int|
                    0 <= b < coefficients@.len() ==> (#[trigger] coefficients@[b])@.len()
                        == shapes@.len()
                &&& out@.len() == coefficients@.len()
                &&& forall|b: int|
                    0 <= b < out@.len() ==> (#[trigger] out@[b])@.len() == template@.len()
                &&& forall|b: int, i: int, c: int|
                    0 <= b < out@.len() && 0 <= i < template@.len() && 0 <= c < 3 ==> is_shaped(
                        ops,
                        zero,
                        template@,
                        shapes@,
                        coefficients@[b]@,
                        i,
                        c,
                        #[trigger] out@[b]@[i]@[c],
                    )
            },
            Err(e) => {
                &&& e is Coefficients
                &&& exists|b: int|
                    0 <= b < coefficients@.len() && (#[trigger] coefficients@[b])@.len()
                        != shapes@.len()
            },
        },
{
    let mut out: Vec<Vec<[T; 3]>> = Vec::new();
    for b in 0..coefficients.len()
        invariant
            forall|s: int|
                0 <= s < shapes@.len() ==> (#[trigger] shapes@[s])@.len() == template@.len(),
            out@.len() == b,
            forall|d: int|
                0 <= d < b ==> (#[trigger] coefficients@[d])@.len() == shapes@.len(),
            forall|d: int| 0 <= d < b ==> (#[trigger] out@[d])@.len() == template@.len(),
            forall|d: int, i: int, c: int|
                0 <= d < b && 0 <= i < template@.len() && 0 <= c < 3 ==> is_shaped(
                    ops,
                    zero,
                    template@,
                    shapes@,
                    coefficients@[d]@,
                    i,
                    c,
                    #[trigger] out@[d]@[i]@[c],
                ),
    {
        let row = &coefficients[b];
        if row.len() != shapes.len() {
            return Err(SkinError::Coefficients);
        }
        let mut points: Vec<[T; 3]> = Vec::new();
        for i in 0..template.len()
            invariant
                forall|s: int|
                    0 <= s < shapes@.len() ==> (#[trigger] shapes@[s])@.len() == template@.len(),
                row@.len() == shapes@.len(),
                points@.len() == i,
                forall|j: int, c: int|
                    0 <= j < i && 0 <= c < 3 ==> is_shaped(
                        ops,
                        zero,
                        template@,
                        shapes@,
                        row@,
                        j,
                        c,
                        #[trigger] points@[j]@[c],
                    ),
        {
            let x = shaped(ops, zero, template, shapes, row, i, 0);
            let y = shaped(ops, zero, template, shapes, row, i, 1);
            let z = shaped(ops, zero, template, shapes, row, i, 2);
            points.push([x, y, z]);
        }
        out.push(points);
    }
    Ok(out)
}

} // verus!
