//! Models on another mesh: vertices, blend shapes and skinning weights are
//! interpolated from three vertices of a reference model each.
use vstd::prelude::*;
use vstd::string::*;

use crate::data::obj::{ObjGroup, ObjMesh};
use crate::models::body::Model;
use crate::models::full_model::{Figure, ModelOptions};
use crate::models::rig::VertexBoneMatrix;
use crate::paths::join;
use crate::scalar::{Arithmetic, Division, Signs};
use crate::utils::blend::{accumulated, blend};
use crate::utils::shares::normalised;

verus! {

/// The weights of the three source vertices and one coordinate of each.
pub open spec fn coordinate_terms<T>(
    points: Seq<[T; 3]>,
    weights: Seq<T>,
    sources: Seq<u32>,
    c: int,
) -> Seq<(T, T)> {
    Seq::new(3, |k: int| (weights[k], points[sources[k] as int]@[c]))
}

fn blend3<T: Copy, O: Arithmetic<T>>(
    ops: &O,
    zero: T,
    w: [T; 3],
    x: [T; 3],
) -> (r: T)
    ensures
        crate::utils::blend::is_blend(ops, zero, Seq::new(3, |k: int| (w@[k], x@[k])), r),
{
    let terms: Vec<(T, T)> = vec![(w[0], x[0]), (w[1], x[1]), (w[2], x[2])];
    assert(terms@ =~= Seq::new(3, |k: int| (w@[k], x@[k])));
    blend(ops, zero, &terms)
}

/// Every source names one of the first `n` vertices.
pub open spec fn sources_within(sources: Seq<[u32; 3]>, n: int) -> bool {
    forall|i: int, k: int|
        0 <= i < sources.len() && 0 <= k < 3 ==> (#[trigger] sources[i]@[k]) < n
}

/// For each target vertex the weighted sum of three source points:
pub fn interpolate_points<T: Copy, O: Arithmetic<T>>(
    points: &Vec<[T; 3]>,
    weights: &Vec<[T; 3]>,
    sources: &Vec<[u32; 3]>,
    zero: T,
    ops: &O,
) -> (r: Vec<[T; 3]>)
    requires
        weights@.len() == sources@.len(),
        sources_within(sources@, points@.len() as int),
    ensures
        r@.len() == sources@.len(),
        forall|i: int, c: int|
            0 <= i < r@.len() && 0 <= c < 3 ==> crate::utils::blend::is_blend(
                ops,
                zero,
                coordinate_terms(points@, weights@[i]@, sources@[i]@, c),
                #[trigger] r@[i]@[c],
            ),
{
    let n: usize = sources.len();
    let mut r: Vec<[T; 3]> = Vec::new();
    for i in 0..n
        invariant
            n == sources@.len(),
            weights@.len() == sources@.len(),
            sources_within(sources@, points@.len() as int),
            r@.len() == i,
            forall|j: int, c: int|
                0 <= j < i && 0 <= c < 3 ==> crate::utils::blend::is_blend(
                    ops,
                    zero,
                    coordinate_terms(points@, weights@[j]@, sources@[j]@, c),
                    #[trigger] r@[j]@[c],
                ),
    {
        let s = sources[i];
        let w = weights[i];
        proof {
            assert(sources@[i as int]@[0] < points@.len());
            assert(sources@[i as int]@[1] < points@.len());
            assert(sources@[i as int]@[2] < points@.len());
        }
        let a = points[s[0] as usize];
        let b = points[s[1] as usize];
        let c = points[s[2] as usize];
        let x = blend3(ops, zero, w, [a[0], b[0], c[0]]);
        let y = blend3(ops, zero, w, [a[1], b[1], c[1]]);
        let z = blend3(ops, zero, w, [a[2], b[2], c[2]]);
        proof {
            assert(Seq::new(3, |k: int| (w@[k], [a[0], b[0], c[0]]@[k])) =~= coordinate_terms(
                points@,
                w@,
                s@,
                0,
            ));
            assert(Seq::new(3, |k: int| (w@[k], [a[1], b[1], c[1]]@[k])) =~= coordinate_terms(
                points@,
                w@,
                s@,
                1,
            ));
            assert(Seq::new(3, |k: int| (w@[k], [a[2], b[2], c[2]]@[k])) =~= coordinate_terms(
                points@,
                w@,
                s@,
                2,
            ));
        }
        let point = [x, y, z];
        r.push(point);
        proof {
            assert forall|j: int, c: int| 0 <= j < i + 1 && 0 <= c < 3 implies crate::utils::blend::is_blend(
                ops,
                zero,
                coordinate_terms(points@, weights@[j]@, sources@[j]@, c),
                #[trigger] r@[j]@[c],
            ) by {
                if j == i {
                    assert(r@[j]@[c] == point@[c]);
                }
            }
        }
    }
    r
}

/// What one source vertex adds to a bone: its weight in the blend and the
/// weight that it gives the bone, for each of the first `n` slots of its row
/// that name the bone.
pub open spec fn row_terms<T>(
    bones: Seq<u32>,
    weights: Seq<T>,
    share: T,
    bone: int,
    n: nat,
) -> Seq<(T, T)>
    decreases n,
{
    if n == 0 {
        Seq::empty()
    } else if bones[n - 1] == bone {
        row_terms(bones, weights, share, bone, (n - 1) as nat).push((share, weights[n - 1]))
    } else {
        row_terms(bones, weights, share, bone, (n - 1) as nat)
    }
}

/// What the first `k` of the source vertices add to a bone.
pub open spec fn bone_terms<T>(
    table: VertexBoneMatrix<T>,
    shares: Seq<T>,
    sources: Seq<u32>,
    bone: int,
    k: nat,
) -> Seq<(T, T)>
    decreases k,
{
    if k == 0 {
        Seq::empty()
    } else {
        let src = sources[k - 1] as int;
        bone_terms(table, shares, sources, bone, (k - 1) as nat) + row_terms(
            table.indices@[src]@,
            table.weights@[src]@,
            shares[k - 1],
            bone,
            table.indices@[src]@.len(),
        )
    }
}

/// The bones whose flag is set, in ascending order.
pub open spec fn flagged_bones(flags: Seq<bool>, n: nat) -> Seq<u32>
    decreases n,
{
    if n == 0 {
        Seq::empty()
    } else if flags[n - 1] {
        flagged_bones(flags, (n - 1) as nat).push((n - 1) as u32)
    } else {
        flagged_bones(flags, (n - 1) as nat)
    }
}

/// The values of the bones whose flag is set.
pub open spec fn flagged_values<T>(values: Seq<T>, flags: Seq<bool>, n: nat) -> Seq<T>
    decreases n,
{
    if n == 0 {
        Seq::empty()
    } else if flags[n - 1] {
        flagged_values(values, flags, (n - 1) as nat).push(values[n - 1])
    } else {
        flagged_values(values, flags, (n - 1) as nat)
    }
}

/// `sums[b]` is what the three source vertices add up to for bone `b`.
pub open spec fn are_sums<T, O: Arithmetic<T>>(
    ops: &O,
    zero: T,
    table: VertexBoneMatrix<T>,
    shares: Seq<T>,
    sources: Seq<u32>,
    sums: Seq<T>,
) -> bool {
    forall|b: int|
        0 <= b < sums.len() ==> crate::utils::blend::is_blend(
            ops,
            zero,
            bone_terms(table, shares, sources, b, 3),
            #[trigger] sums[b],
        )
}

/// `flags[b]` says whether `sums[b]` is positive.
pub open spec fn are_flags<T, O: Division<T> + Signs<T>>(
    ops: &O,
    sums: Seq<T>,
    flags: Seq<bool>,
) -> bool {
    &&& flags.len() == sums.len()
    &&& forall|b: int|
        0 <= b < sums.len() ==> crate::scalar::says_positive(ops, sums[b], #[trigger] flags[b])
}

/// The influences on one target vertex: the sums of its three source vertices
/// for the bones where they are positive.
pub open spec fn is_influence<T, O: Division<T> + Signs<T>>(
    ops: &O,
    zero: T,
    bones: nat,
    table: VertexBoneMatrix<T>,
    shares: Seq<T>,
    sources: Seq<u32>,
    bone_row: Seq<u32>,
    value_row: Seq<T>,
) -> bool {
    exists|sums: Seq<T>, flags: Seq<bool>|
        {
            &&& sums.len() == bones
            &&& #[trigger] are_sums(ops, zero, table, shares, sources, sums)
            &&& #[trigger] are_flags(ops, sums, flags)
            &&& bone_row == flagged_bones(flags, bones)
            &&& value_row == flagged_values(sums, flags, bones)
        }
}

/// Every vertex has as many weights as bones.
pub open spec fn rows_match<T>(table: VertexBoneMatrix<T>) -> bool {
    &&& table.weights@.len() == table.indices@.len()
    &&& forall|v: int|
        0 <= v < table.indices@.len() ==> (#[trigger] table.weights@[v])@.len()
            == table.indices@[v]@.len()
}

fn influence_row<T: Copy, O: Division<T> + Signs<T>>(
    table: &VertexBoneMatrix<T>,
    shares: [T; 3],
    sources: [u32; 3],
    bones: usize,
    zero: T,
    ops: &O,
) -> (r: (Vec<u32>, Vec<T>))
    requires
        rows_match(*table),
        forall|k: int| 0 <= k < 3 ==> #[trigger] sources@[k] < table.indices@.len(),
    ensures
        is_influence(
            ops,
            zero,
            bones as nat,
            *table,
            shares@,
            sources@,
            r.0@,
            r.1@,
        ),
        r.0@.len() == r.1@.len(),
{
    let mut sums: Vec<T> = Vec::new();
    for b in 0..bones
        invariant
            sums@.len() == b,
            forall|j: int| 0 <= j < b ==> #[trigger] sums@[j] == zero,
    {
        sums.push(zero);
    }
    proof {
        assert forall|b: int| 0 <= b < bones implies crate::utils::blend::is_blend(
            ops,
            zero,
            bone_terms(*table, shares@, sources@, b, 0),
            #[trigger] sums@[b],
        ) by {}
    }
    for k in 0..3
        invariant
            rows_match(*table),
            forall|k: int| 0 <= k < 3 ==> #[trigger] sources@[k] < table.indices@.len(),
            sums@.len() == bones,
            forall|b: int|
                0 <= b < bones ==> crate::utils::blend::is_blend(
                    ops,
                    zero,
                    bone_terms(*table, shares@, sources@, b, k as nat),
                    #[trigger] sums@[b],
                ),
    {
        assert(sources@[k as int] < table.indices@.len());
        let src: usize = sources[k] as usize;
        let share: T = shares[k];
        let row: &Vec<u32> = &table.indices[src];
        let row_weights: &Vec<T> = &table.weights[src];
        let width: usize = row.len();
        proof {
            assert(table.weights@[src as int]@.len() == table.indices@[src as int]@.len());
            assert forall|b: int| 0 <= b < bones implies crate::utils::blend::is_blend(
                ops,
                zero,
                bone_terms(*table, shares@, sources@, b, k as nat) + row_terms(
                    row@,
                    row_weights@,
                    share,
                    b,
                    0,
                ),
                #[trigger] sums@[b],
            ) by {
                assert(bone_terms(*table, shares@, sources@, b, k as nat) + row_terms(
                    row@,
                    row_weights@,
                    share,
                    b,
                    0,
                ) =~= bone_terms(*table, shares@, sources@, b, k as nat));
            }
        }
        for s in 0..width
            invariant
                width == row@.len(),
                width == row_weights@.len(),
                sums@.len() == bones,
                forall|b: int|
                    0 <= b < bones ==> crate::utils::blend::is_blend(
                        ops,
                        zero,
                        bone_terms(*table, shares@, sources@, b, k as nat) + row_terms(
                            row@,
                            row_weights@,
                            share,
                            b,
                            s as nat,
                        ),
                        #[trigger] sums@[b],
                    ),
        {
            let bone: usize = row[s] as usize;
            let ghost before = sums@;
            if bone < bones {
                let sum = accumulated(sums[bone], share, row_weights[s], ops);
                sums[bone] = sum;
            }
            proof {
                assert forall|b: int| 0 <= b < bones implies crate::utils::blend::is_blend(
                    ops,
                    zero,
                    bone_terms(*table, shares@, sources@, b, k as nat) + row_terms(
                        row@,
                        row_weights@,
                        share,
                        b,
                        (s + 1) as nat,
                    ),
                    #[trigger] sums@[b],
                ) by {
                    let head = bone_terms(*table, shares@, sources@, b, k as nat);
                    let done = head + row_terms(row@, row_weights@, share, b, s as nat);
                    assert(crate::utils::blend::is_blend(ops, zero, done, before[b]));
                    if b == bone {
                        let longer = head + row_terms(
                            row@,
                            row_weights@,
                            share,
                            b,
                            (s + 1) as nat,
                        );
                        assert(longer =~= done.push((share, row_weights@[s as int])));
                        assert(longer.drop_last() =~= done);
                        assert(longer.last() == (share, row_weights@[s as int]));
                        assert(crate::utils::blend::is_accumulated(
                            ops,
                            before[b],
                            longer.last().0,
                            longer.last().1,
                            sums@[b],
                        ));
                    }
                }
            }
        }
    }
    let mut bone_row: Vec<u32> = Vec::new();
    let mut value_row: Vec<T> = Vec::new();
    let ghost mut flags: Seq<bool> = Seq::empty();
    for b in 0..bones
        invariant
            sums@.len() == bones,
            flags.len() == b,
            forall|j: int|
                0 <= j < b ==> crate::scalar::says_positive(ops, sums@[j], #[trigger] flags[j]),
            bone_row@ == flagged_bones(flags, b as nat),
            value_row@ == flagged_values(sums@, flags, b as nat),
            bone_row@.len() == value_row@.len(),
    {
        let keep = ops.positive(sums[b]);
        let ghost before = flags;
        proof {
            flags = flags.push(keep);
            lemma_flags_prefix(sums@, before, flags, b as nat);
        }
        if keep {
            bone_row.push(b as u32);
            value_row.push(sums[b]);
        }
    }
    proof {
        assert(are_sums(ops, zero, *table, shares@, sources@, sums@));
        assert(are_flags(ops, sums@, flags));
    }
    (bone_row, value_row)
}

proof fn lemma_flags_prefix<T>(values: Seq<T>, a: Seq<bool>, b: Seq<bool>, n: nat)
    requires
        n <= a.len(),
        n <= b.len(),
        forall|i: int| 0 <= i < n ==> a[i] == b[i],
    ensures
        flagged_bones(a, n) == flagged_bones(b, n),
        flagged_values(values, a, n) == flagged_values(values, b, n),
    decreases n,
{
    if n > 0 {
        lemma_flags_prefix(values, a, b, (n - 1) as nat);
    }
}

/// `row` followed by copies of `filler` up to the given width.
fn padded_row<A: Copy>(row: Vec<A>, width: usize, filler: A) -> (r: Vec<A>)
    requires
        row@.len() <= width,
    ensures
        r@ == crate::models::rig::padded(row@, width as nat, filler),
{
    let ghost given = row@;
    let mut r = row;
    while r.len() < width
        invariant
            given.len() <= r@.len() <= width,
            forall|i: int| 0 <= i < given.len() ==> r@[i] == given[i],
            forall|i: int| given.len() <= i < r@.len() ==> r@[i] == filler,
        decreases width - r@.len(),
    {
        r.push(filler);
    }
    assert(r@ =~= crate::models::rig::padded(given, width as nat, filler));
    r
}

/// The bone and the value rows of all target vertices before they are padded.
pub open spec fn are_influences<T, O: Division<T> + Signs<T>>(
    ops: &O,
    zero: T,
    bones: nat,
    table: VertexBoneMatrix<T>,
    shares: Seq<[T; 3]>,
    sources: Seq<[u32; 3]>,
    bone_rows: Seq<Seq<u32>>,
    value_rows: Seq<Seq<T>>,
) -> bool {
    &&& bone_rows.len() == sources.len()
    &&& value_rows.len() == sources.len()
    &&& forall|i: int|
        #![trigger bone_rows[i]]
        #![trigger value_rows[i]]
        0 <= i < sources.len() ==> is_influence(
            ops,
            zero,
            bones,
            table,
            shares[i]@,
            sources[i]@,
            bone_rows[i],
            value_rows[i],
        ) && bone_rows[i].len() == value_rows[i].len()
}

/// `width` is the length of the longest row.
pub open spec fn is_longest<X>(rows: Seq<Seq<X>>, width: nat) -> bool {
    &&& forall|i: int| 0 <= i < rows.len() ==> (#[trigger] rows[i]).len() <= width
    &&& width == 0 || exists|i: int| 0 <= i < rows.len() && (#[trigger] rows[i]).len() == width
}

/// `r` is the skinning table of the target vertices: the influences on each,
/// turned into shares of their sum, and then padded to one width.
pub open spec fn is_interpolated_table<T, O: Division<T> + Signs<T>>(
    ops: &O,
    zero: T,
    bones: nat,
    table: VertexBoneMatrix<T>,
    shares: Seq<[T; 3]>,
    sources: Seq<[u32; 3]>,
    r: VertexBoneMatrix<T>,
) -> bool {
    exists|bone_rows: Seq<Seq<u32>>, value_rows: Seq<Seq<T>>, scaled: Seq<Vec<T>>|
        {
            &&& #[trigger] are_influences(
                ops,
                zero,
                bones,
                table,
                shares,
                sources,
                bone_rows,
                value_rows,
            )
            &&& #[trigger] are_share_rows(ops, zero, value_rows, scaled)
            &&& is_longest(bone_rows, r.max_bones_per_vertex as nat)
            &&& r.indices@.len() == sources.len()
            &&& r.weights@.len() == sources.len()
            &&& forall|i: int|
                0 <= i < sources.len() ==> (#[trigger] r.indices@[i])@
                    == crate::models::rig::padded(
                    bone_rows[i],
                    r.max_bones_per_vertex as nat,
                    0,
                )
            &&& forall|i: int|
                0 <= i < sources.len() ==> (#[trigger] r.weights@[i])@
                    == crate::models::rig::padded(
                    scaled[i]@,
                    r.max_bones_per_vertex as nat,
                    zero,
                )
        }
}

/// `out[i]` holds the shares of the weights in `rows[i]`.
pub open spec fn are_share_rows<T, O: Division<T> + Signs<T>>(
    ops: &O,
    zero: T,
    rows: Seq<Seq<T>>,
    out: Seq<Vec<T>>,
) -> bool {
    &&& out.len() == rows.len()
    &&& forall|i: int|
        0 <= i < rows.len() ==> crate::utils::shares::are_shares(
            ops,
            zero,
            rows[i],
            (#[trigger] out[i])@,
        )
}

/// The skinning table of the target vertices.
pub fn interpolate_weights<T: Copy, O: Division<T> + Signs<T>>(
    table: &VertexBoneMatrix<T>,
    shares: &Vec<[T; 3]>,
    sources: &Vec<[u32; 3]>,
    bones: usize,
    zero: T,
    ops: &O,
) -> (r: VertexBoneMatrix<T>)
    requires
        rows_match(*table),
        shares@.len() == sources@.len(),
        sources_within(sources@, table.indices@.len() as int),
    ensures
        is_interpolated_table(
            ops,
            zero,
            bones as nat,
            *table,
            shares@,
            sources@,
            r,
        ),
        rows_match(r),
        r.indices@.len() == sources@.len(),
{
    let n: usize = sources.len();
    let mut bone_rows: Vec<Vec<u32>> = Vec::new();
    let mut scaled: Vec<Vec<T>> = Vec::new();
    let ghost mut value_rows: Seq<Seq<T>> = Seq::empty();
    let mut width: usize = 0;
    for i in 0..n
        invariant
            n == sources@.len(),
            rows_match(*table),
            shares@.len() == sources@.len(),
            sources_within(sources@, table.indices@.len() as int),
            bone_rows@.len() == i,
            scaled@.len() == i,
            value_rows.len() == i,
            forall|j: int|
                #![trigger bone_rows@[j]]
                0 <= j < i ==> is_influence(
                    ops,
                    zero,
                    bones as nat,
                    *table,
                    shares@[j]@,
                    sources@[j]@,
                    bone_rows@[j]@,
                    value_rows[j],
                ) && bone_rows@[j]@.len() == value_rows[j].len(),
            forall|j: int|
                0 <= j < i ==> crate::utils::shares::are_shares(
                    ops,
                    zero,
                    value_rows[j],
                    (#[trigger] scaled@[j])@,
                ) && scaled@[j]@.len() == value_rows[j].len(),
            forall|j: int| 0 <= j < i ==> (#[trigger] bone_rows@[j])@.len() <= width,
            width == 0 || exists|j: int|
                0 <= j < i && (#[trigger] bone_rows@[j])@.len() == width,
    {
        proof {
            assert forall|k: int| 0 <= k < 3 implies #[trigger] sources@[i as int]@[k]
                < table.indices@.len() by {}
        }
        let ghost bone_rows0 = bone_rows@;
        let (bone_row, value_row) = influence_row(
            table,
            shares[i],
            sources[i],
            bones,
            zero,
            ops,
        );
        proof {
            value_rows = value_rows.push(value_row@);
        }
        let out = normalised(value_row, zero, ops);
        let ghost widest_before = width;
        if bone_row.len() > width {
            width = bone_row.len();
        }
        bone_rows.push(bone_row);
        scaled.push(out);
        proof {
            assert(bone_rows@[i as int] == bone_row);
            if width == widest_before && width != 0 {
                let j = choose|j: int|
                    0 <= j < i && (#[trigger] bone_rows0[j])@.len() == widest_before;
                assert(bone_rows@[j] == bone_rows0[j]);
            }
            assert forall|j: int| 0 <= j < i implies bone_rows@[j] == #[trigger] bone_rows0[j] by {}
            assert forall|j: int| 0 <= j < i + 1 implies (#[trigger] bone_rows@[j])@.len()
                <= width by {
                if j < i {
                    assert(bone_rows@[j] == bone_rows0[j]);
                }
            }
        }
    }
    let ghost bone_seqs = crate::data::obj::rows(bone_rows@);
    let ghost scaled_s = scaled@;
    proof {
        assert(are_influences(
            ops,
            zero,
            bones as nat,
            *table,
            shares@,
            sources@,
            bone_seqs,
            value_rows,
        )) by {
            assert forall|i: int|
                #![trigger bone_seqs[i]]
                #![trigger value_rows[i]]
                0 <= i < sources@.len() implies is_influence(
                ops,
                zero,
                bones as nat,
                *table,
                shares@[i]@,
                sources@[i]@,
                bone_seqs[i],
                value_rows[i],
            ) && bone_seqs[i].len() == value_rows[i].len() by {
                assert(bone_seqs[i] == bone_rows@[i]@);
            }
        }
        assert(are_share_rows(ops, zero, value_rows, scaled_s));
        assert(is_longest(bone_seqs, width as nat)) by {
            assert forall|i: int| 0 <= i < bone_seqs.len() implies (#[trigger] bone_seqs[i]).len()
                <= width by {
                assert(bone_seqs[i] == bone_rows@[i]@);
            }
            if width != 0 {
                let j = choose|j: int|
                    0 <= j < bone_rows@.len() && (#[trigger] bone_rows@[j])@.len() == width;
                assert(bone_seqs[j] == bone_rows@[j]@);
            }
        }
    }
    let mut indices: Vec<Vec<u32>> = Vec::new();
    let mut weights: Vec<Vec<T>> = Vec::new();
    for i in 0..n
        invariant
            bone_rows@.len() == n,
            scaled@.len() == n,
            value_rows.len() == n,
            scaled_s.len() == n,
            bone_seqs.len() == n,
            indices@.len() == i,
            weights@.len() == i,
            forall|j: int| i <= j < n ==> #[trigger] bone_rows@[j]@ == bone_seqs[j],
            forall|j: int| i <= j < n ==> #[trigger] scaled@[j] == scaled_s[j],
            forall|j: int| 0 <= j < n ==> (#[trigger] bone_seqs[j]).len() <= width,
            forall|j: int|
                0 <= j < n ==> (#[trigger] scaled_s[j])@.len() == bone_seqs[j].len(),
            forall|j: int|
                0 <= j < i ==> (#[trigger] indices@[j])@ == crate::models::rig::padded(
                    bone_seqs[j],
                    width as nat,
                    0,
                ),
            forall|j: int|
                0 <= j < i ==> (#[trigger] weights@[j])@ == crate::models::rig::padded(
                    scaled_s[j]@,
                    width as nat,
                    zero,
                ),
    {
        let mut bone_row: Vec<u32> = Vec::new();
        let mut value_row: Vec<T> = Vec::new();
        assert(bone_rows@[i as int]@ == bone_seqs[i as int]);
        assert(scaled@[i as int] == scaled_s[i as int]);
        std::mem::swap(&mut bone_row, &mut bone_rows[i]);
        std::mem::swap(&mut value_row, &mut scaled[i]);
        assert(bone_seqs[i as int].len() <= width);
        assert(scaled_s[i as int]@.len() == bone_seqs[i as int].len());
        indices.push(padded_row(bone_row, width, 0));
        weights.push(padded_row(value_row, width, zero));
    }
    VertexBoneMatrix { indices, weights, max_bones_per_vertex: width }
}

// ---------------------------------------------------------------------------
// Models on another mesh
// ---------------------------------------------------------------------------

/// The three numbers of each group of three.
pub fn triples(flat: &Vec<u32>) -> (r: Vec<[u32; 3]>)
    ensures
        r@.len() == flat@.len() / 3,
        forall|i: int, k: int|
            0 <= i < r@.len() && 0 <= k < 3 ==> #[trigger] r@[i]@[k] == flat@[3 * i + k],
{
    let total: usize = flat.len();
    let n: usize = total / 3;
    let mut r: Vec<[u32; 3]> = Vec::new();
    for i in 0..n
        invariant
            total == flat@.len(),
            n == flat@.len() / 3,
            r@.len() == i,
            forall|j: int, k: int|
                0 <= j < i && 0 <= k < 3 ==> #[trigger] r@[j]@[k] == flat@[3 * j + k],
    {
        let t = [flat[3 * i], flat[3 * i + 1], flat[3 * i + 2]];
        r.push(t);
        proof {
            assert forall|j: int, k: int| 0 <= j < i + 1 && 0 <= k < 3 implies #[trigger] r@[j]@[k]
                == flat@[3 * j + k] by {
                if j == i {
                    assert(r@[j]@[k] == t@[k]);
                }
            }
        }
    }
    r
}

/// The weights of each vertex, from three rows with one weight for each
/// vertex.
pub fn weight_columns<T: Copy>(flat: &Vec<T>, vertices: usize) -> (r: Vec<[T; 3]>)
    requires
        flat@.len() == 3 * vertices,
    ensures
        r@.len() == vertices,
        forall|i: int, k: int|
            0 <= i < vertices && 0 <= k < 3 ==> #[trigger] r@[i]@[k] == flat@[k * vertices + i],
{
    let total: usize = flat.len();
    let mut r: Vec<[T; 3]> = Vec::new();
    for i in 0..vertices
        invariant
            total == flat@.len(),
            flat@.len() == 3 * vertices,
            r@.len() == i,
            forall|j: int, k: int|
                0 <= j < i && 0 <= k < 3 ==> #[trigger] r@[j]@[k] == flat@[k * vertices + j],
    {
        let t = [flat[i], flat[vertices + i], flat[2 * vertices + i]];
        r.push(t);
        proof {
            assert forall|j: int, k: int| 0 <= j < i + 1 && 0 <= k < 3 implies #[trigger] r@[j]@[k]
                == flat@[k * vertices + j] by {
                if j == i {
                    assert(r@[j]@[k] == t@[k]);
                    if k == 0 {
                        assert(k * vertices == 0) by (nonlinear_arith)
                            requires
                                k == 0,
                        ;
                    } else if k == 1 {
                        assert(k * vertices == vertices) by (nonlinear_arith)
                            requires
                                k == 1,
                        ;
                    } else {
                        assert(k * vertices == 2 * vertices) by (nonlinear_arith)
                            requires
                                k == 2,
                        ;
                    }
                }
            }
        }
    }
    r
}

fn triangle_rows(faces: &Vec<[u32; 3]>) -> (r: Vec<Vec<u32>>)
    ensures
        crate::data::obj::rows(r@) =~~= crate::utils::mesh::corners(faces@),
{
    let mut r: Vec<Vec<u32>> = Vec::new();
    for i in 0..faces.len()
        invariant
            crate::data::obj::rows(r@) =~~= crate::utils::mesh::corners(faces@).take(i as int),
    {
        let ghost before = r@;
        let t = faces[i];
        let row: Vec<u32> = vec![t[0], t[1], t[2]];
        assert(row@ =~= t@);
        r.push(row);
        proof {
            assert(crate::data::obj::rows(r@) =~= crate::data::obj::rows(before).push(t@));
            assert(crate::utils::mesh::corners(faces@).take(i + 1) =~= crate::utils::mesh::corners(
                faces@,
            ).take(i as int).push(t@));
        }
    }
    assert(crate::utils::mesh::corners(faces@).take(faces@.len() as int)
        =~= crate::utils::mesh::corners(faces@));
    r
}

/// Rebuilds a model on another mesh: each vertex of the new mesh takes its
/// place and its skinning weights from three vertices of the reference, in
/// the given shares. Textures are dropped; the skeleton and the settings stay.
pub fn interpolate_figure<T: Copy, O: Division<T> + Signs<T>>(
    reference: Figure<T>,
    shares: &Vec<[T; 3]>,
    sources: &Vec<[u32; 3]>,
    faces: &Vec<[u32; 3]>,
    zero: T,
    ops: &O,
) -> (r: Figure<T>)
    requires
        rows_match(reference.vertex_bones),
        reference.template_vertices@.len() == reference.vertex_bones.indices@.len(),
        shares@.len() == sources@.len(),
        sources_within(sources@, reference.template_vertices@.len() as int),
    ensures
        r.template_vertices@.len() == sources@.len(),
        forall|i: int, c: int|
            0 <= i < sources@.len() && 0 <= c < 3 ==> crate::utils::blend::is_blend(
                ops,
                zero,
                coordinate_terms(
                    reference.template_vertices@,
                    shares@[i]@,
                    sources@[i]@,
                    c,
                ),
                #[trigger] r.template_vertices@[i]@[c],
            ),
        is_interpolated_table(
            ops,
            zero,
            reference.bone_labels@.len(),
            reference.vertex_bones,
            shares@,
            sources@,
            r.vertex_bones,
        ),
        crate::data::obj::rows(r.faces@) =~~= crate::utils::mesh::corners(faces@),
        r.face_texture_coordinate_indices@.len() == 0,
        r.base_mesh_vertex_indices is None,
        r.hierarchy() == reference.hierarchy(),
        r.propagation_fronts == reference.propagation_fronts,
        r.extrapolate_phenotypes == reference.extrapolate_phenotypes,
        r.all_phenotypes == reference.all_phenotypes,
        r.default_pose_parameterization == reference.default_pose_parameterization,
        r.skinning_method == reference.skinning_method,
        reference.wf() ==> r.wf(),
{
    let template_vertices = interpolate_points(
        &reference.template_vertices,
        shares,
        sources,
        zero,
        ops,
    );
    let vertex_bones = interpolate_weights(
        &reference.vertex_bones,
        shares,
        sources,
        reference.bone_labels.len(),
        zero,
        ops,
    );
    Figure {
        template_vertices,
        vertex_bones,
        faces: triangle_rows(faces),
        face_texture_coordinate_indices: Vec::new(),
        base_mesh_vertex_indices: None,
        bone_labels: reference.bone_labels,
        bone_parents: reference.bone_parents,
        propagation_fronts: reference.propagation_fronts,
        head_regressors: reference.head_regressors,
        tail_regressors: reference.tail_regressors,
        bone_rolls: reference.bone_rolls,
        extrapolate_phenotypes: reference.extrapolate_phenotypes,
        all_phenotypes: reference.all_phenotypes,
        default_pose_parameterization: reference.default_pose_parameterization,
        skinning_method: reference.skinning_method,
    }
}

/// `out` are the points of the target vertices, taken from those of the
/// reference in the given shares.
pub open spec fn are_interpolated<T, O: Arithmetic<T>>(
    ops: &O,
    zero: T,
    points: Seq<[T; 3]>,
    shares: Seq<[T; 3]>,
    sources: Seq<[u32; 3]>,
    out: Seq<[T; 3]>,
) -> bool {
    &&& out.len() == sources.len()
    &&& forall|i: int, c: int|
        0 <= i < sources.len() && 0 <= c < 3 ==> crate::utils::blend::is_blend(
            ops,
            zero,
            coordinate_terms(points, shares[i]@, sources[i]@, c),
            #[trigger] out[i]@[c],
        )
}

/// `r` is the reference on another mesh, with each vertex taken from three of the
/// reference in the given shares: the joints, the skeleton and the phenotype stay,
/// and there are no textures.
pub open spec fn is_retopologised<T: Copy, O: Division<T> + Signs<T>>(
    ops: &O,
    zero: T,
    reference: Model<T>,
    shares: Seq<[T; 3]>,
    sources: Seq<[u32; 3]>,
    faces: Seq<[u32; 3]>,
    r: Model<T>,
) -> bool {
    &&& are_interpolated(
        ops,
        zero,
        reference.figure.template_vertices@,
        shares,
        sources,
        r.figure.template_vertices@,
    )
    &&& r.blendshapes@.len() == reference.blendshapes@.len()
    &&& forall|s: int|
        0 <= s < r.blendshapes@.len() ==> are_interpolated(
            ops,
            zero,
            reference.blendshapes@[s]@,
            shares,
            sources,
            (#[trigger] r.blendshapes@[s])@,
        )
    &&& is_interpolated_table(
        ops,
        zero,
        reference.figure.bone_labels@.len(),
        reference.figure.vertex_bones,
        shares,
        sources,
        r.figure.vertex_bones,
    )
    &&& crate::data::obj::rows(r.figure.faces@) =~~= crate::utils::mesh::corners(faces)
    &&& r.figure.face_texture_coordinate_indices@.len() == 0
    &&& r.figure.base_mesh_vertex_indices is None
    &&& r.figure.hierarchy() == reference.figure.hierarchy()
    &&& r.figure.propagation_fronts == reference.figure.propagation_fronts
    &&& r.figure.extrapolate_phenotypes == reference.figure.extrapolate_phenotypes
    &&& r.figure.all_phenotypes == reference.figure.all_phenotypes
    &&& r.figure.default_pose_parameterization == reference.figure.default_pose_parameterization
    &&& r.figure.skinning_method == reference.figure.skinning_method
    &&& r.texture_coordinates@.len() == 0
    &&& r.template_bone_heads == reference.template_bone_heads
    &&& r.template_bone_tails == reference.template_bone_tails
    &&& r.bone_heads_blendshapes == reference.bone_heads_blendshapes
    &&& r.bone_tails_blendshapes == reference.bone_tails_blendshapes
    &&& r.bone_rolls_rotmat == reference.bone_rolls_rotmat
    &&& r.stacked_phenotype_blend_shapes_mask == reference.stacked_phenotype_blend_shapes_mask
    &&& r.anchors == reference.anchors
    &&& r.local_change_labels == reference.local_change_labels
}

/// Rebuilds a body on another mesh: its vertices, its blend shapes and its
/// skinning table are taken from the reference, three vertices for each target
/// vertex. Textures are dropped; the joints, the skeleton and the phenotype
/// stay.
pub fn interpolate_topology<T: Copy, O: Division<T> + Signs<T>>(
    reference: Model<T>,
    shares: &Vec<[T; 3]>,
    sources: &Vec<[u32; 3]>,
    faces: &Vec<[u32; 3]>,
    zero: T,
    ops: &O,
) -> (r: Model<T>)
    requires
        reference.wf(),
        shares@.len() == sources@.len(),
        sources_within(sources@, reference.figure.template_vertices@.len() as int),
    ensures
        r.wf(),
        is_retopologised(ops, zero, reference, shares@, sources@, faces@, r),
{
    let mut blendshapes: Vec<Vec<[T; 3]>> = Vec::new();
    for s in 0..reference.blendshapes.len()
        invariant
            reference.wf(),
            shares@.len() == sources@.len(),
            sources_within(sources@, reference.figure.template_vertices@.len() as int),
            blendshapes@.len() == s,
            forall|d: int|
                0 <= d < s ==> are_interpolated(
                    ops,
                    zero,
                    reference.blendshapes@[d]@,
                    shares@,
                    sources@,
                    (#[trigger] blendshapes@[d])@,
                ),
    {
        assert(reference.blendshapes@[s as int]@.len()
            == reference.figure.template_vertices@.len());
        blendshapes.push(
            interpolate_points(&reference.blendshapes[s], shares, sources, zero, ops),
        );
    }
    let r = Model {
        figure: interpolate_figure(reference.figure, shares, sources, faces, zero, ops),
        texture_coordinates: Vec::new(),
        blendshapes,
        template_bone_heads: reference.template_bone_heads,
        template_bone_tails: reference.template_bone_tails,
        bone_heads_blendshapes: reference.bone_heads_blendshapes,
        bone_tails_blendshapes: reference.bone_tails_blendshapes,
        bone_rolls_rotmat: reference.bone_rolls_rotmat,
        stacked_phenotype_blend_shapes_mask: reference.stacked_phenotype_blend_shapes_mask,
        anchors: reference.anchors,
        local_change_labels: reference.local_change_labels,
    };
    proof {
        assert(r.figure.bone_labels == r.figure.hierarchy().labels);
        assert(crate::models::body::shapes_of_size(
            r.blendshapes@,
            r.figure.template_vertices@.len() as int,
        ));
    }
    r
}

/// The source vertices of each target vertex: the corners of the triangle
/// nearest to it.
pub fn nearest_corners(triangles: &Vec<[u32; 3]>, face_ids: &Vec<u32>) -> (r: Vec<[u32; 3]>)
    requires
        forall|i: int| 0 <= i < face_ids@.len() ==> #[trigger] face_ids@[i] < triangles@.len(),
    ensures
        r@ == face_ids@.map_values(|f: u32| triangles@[f as int]),
{
    let mut r: Vec<[u32; 3]> = Vec::new();
    for i in 0..face_ids.len()
        invariant
            forall|i: int| 0 <= i < face_ids@.len() ==> #[trigger] face_ids@[i] < triangles@.len(),
            r@.len() == i,
            forall|j: int| 0 <= j < i ==> #[trigger] r@[j] == triangles@[face_ids@[j] as int],
    {
        r.push(triangles[face_ids[i] as usize]);
    }
    assert(r@ =~= face_ids@.map_values(|f: u32| triangles@[f as int]));
    r
}

/// The options of the reference model for the SMPL-X mesh: with the eyes,
/// without the tongue.
pub fn smplx_reference_options(opts: ModelOptions) -> (r: ModelOptions)
    ensures
        r == (ModelOptions { include_eyes: true, include_tongue: false, ..opts }),
{
    ModelOptions { include_eyes: true, include_tongue: false, ..opts }
}

/// The options of the reference model for another mesh: without the eyes and
/// the tongue, and with all vertices.
pub fn alternative_reference_options(opts: ModelOptions) -> (r: ModelOptions)
    ensures
        r == (ModelOptions {
            include_eyes: false,
            include_tongue: false,
            remove_unattached_vertices: false,
            ..opts
        }),
{
    ModelOptions {
        include_eyes: false,
        include_tongue: false,
        remove_unattached_vertices: false,
        ..opts
    }
}

/// The group that holds the faces of a topology mesh: its first.
pub fn first_group<S>(mesh: &ObjMesh<S>) -> (r: Option<&ObjGroup>)
    ensures
        match r {
            Some(g) => mesh.groups@.len() > 0 && *g == mesh.groups@[0].1,
            None => mesh.groups@.len() == 0,
        },
{
    if mesh.groups.len() > 0 {
        Some(&mesh.groups[0].1)
    } else {
        None
    }
}

/// The file of the converted SMPL-X weights, below the cache directory.
pub fn smplx_safetensors_path(cache_dir: &Vec<u8>) -> (r: Vec<u8>)
    ensures
        r@ == crate::paths::joined(
            cache_dir@,
            vstd::utf8::encode_utf8("noncommercial/anny2smplx.safetensors"@),
        ),
{
    join(cache_dir, "noncommercial/anny2smplx.safetensors")
}

} // verus!
