//! Fitting of pose and phenotype to a target mesh: which vertices a bone is
//! fitted to, which phenotypes are optimised, how their values are laid out
//! and changed, and in which order the steps go.
use vstd::prelude::*;

pub mod body_fit;
pub mod bone_laws;
pub mod fitting;
pub mod move_laws;
pub mod phenotype_step;
pub mod region_laws;
pub mod regressor;
pub mod schedule;
pub mod schedule_laws;
pub mod search_laws;
pub mod slope_laws;
pub mod step_laws;
pub mod steps;
pub mod travel_laws;
pub mod whole_laws;

pub use crate::parameters_regressor::body_fit::RegressorOptions;
pub use crate::parameters_regressor::regressor::Regressor;
pub use crate::parameters_regressor::schedule::FitResult;

use crate::models::full_model::Figure;
use crate::names::{contains, same};
use crate::phenotype::{BatchMismatch, PhenotypeValues};
use crate::scalar::{Arithmetic, Bounds, Division, Signs};
use crate::utils::bounds::damped_step;
use crate::utils::index::ascending_set;
use crate::utils::shares::normalised;

verus! {

/// What a fit solves for numerically. Nothing is taken for granted of what is
/// returned.
pub trait SolveOps<T> {
    /// What solves the equations with the rows of `matrix` on the left and
    /// `right` on the right, where something does.
    fn solved(&self, matrix: &Vec<Vec<T>>, right: &Vec<T>) -> Option<Vec<T>>;

    fn finite(&self, a: T) -> bool;
}

// ---------------------------------------------------------------------------
// Vertices of the bones
// ---------------------------------------------------------------------------

/// For each bone the vertices that it moves, and their shares.
#[derive(Debug, Clone)]
pub struct Partition<T> {
    /// The vertices that a face uses, in ascending order.
    pub unique_ids: Vec<u32>,
    /// For each bone the places in `unique_ids` of the vertices that it moves.
    pub joint_vertex_sets: Vec<Vec<u32>>,
    /// The shares of those vertices.
    pub vertex_joint_weights: Vec<Vec<T>>,
}

/// Of the first `m` bones of vertex `v` those that are bone `j` with a weight
/// that counts: the vertex and the weight of each.
pub open spec fn slots<T>(
    bones: Seq<u32>,
    weights: Seq<T>,
    counts: Seq<bool>,
    v: u32,
    j: int,
    m: nat,
) -> Seq<(u32, T)>
    decreases m,
{
    if m == 0 {
        Seq::empty()
    } else {
        let before = slots(bones, weights, counts, v, j, (m - 1) as nat);
        if counts[m - 1] && bones[m - 1] == j {
            before.push((v, weights[m - 1]))
        } else {
            before
        }
    }
}

/// The vertices that bone `j` moves among the first `n`, and their weights.
pub open spec fn moved<T>(
    ids: Seq<u32>,
    bones: Seq<Vec<u32>>,
    weights: Seq<Vec<T>>,
    counts: Seq<Seq<bool>>,
    j: int,
    n: nat,
) -> Seq<(u32, T)>
    decreases n,
{
    if n == 0 {
        Seq::empty()
    } else {
        let id = ids[n - 1] as int;
        moved(ids, bones, weights, counts, j, (n - 1) as nat) + slots(
            bones[id]@,
            weights[id]@,
            counts[id],
            (n - 1) as u32,
            j,
            bones[id]@.len(),
        )
    }
}

/// `counts` is what `significant` says of the weights.
pub open spec fn are_counts<T, F: Fn(&T) -> bool>(
    significant: F,
    weights: Seq<Vec<T>>,
    counts: Seq<Seq<bool>>,
) -> bool {
    &&& counts.len() == weights.len()
    &&& forall|i: int, s: int|
        0 <= i < weights.len() && 0 <= s < weights[i]@.len() ==> call_ensures(
            significant,
            (&weights[i]@[s],),
            #[trigger] counts[i][s],
        )
    &&& forall|i: int| 0 <= i < weights.len() ==> (#[trigger] counts[i]).len() == weights[i]@.len()
}

pub open spec fn firsts<T>(entries: Seq<(u32, T)>) -> Seq<u32> {
    entries.map_values(|e: (u32, T)| e.0)
}

pub open spec fn seconds<T>(entries: Seq<(u32, T)>) -> Seq<T> {
    entries.map_values(|e: (u32, T)| e.1)
}

/// `p` lists for each bone the vertices that it moves.
pub open spec fn is_partition<T, F: Fn(&T) -> bool, O: Division<T> + Signs<T>>(
    significant: F,
    ops: &O,
    zero: T,
    ids: Seq<u32>,
    bones: Seq<Vec<u32>>,
    weights: Seq<Vec<T>>,
    n_bones: int,
    p: Partition<T>,
) -> bool {
    &&& p.unique_ids@ == ids
    &&& p.joint_vertex_sets@.len() == n_bones
    &&& p.vertex_joint_weights@.len() == n_bones
    &&& exists|counts: Seq<Seq<bool>>| #[trigger]
        are_counts(significant, weights, counts) && forall|j: int|
            0 <= j < n_bones ==> is_bone_part(
                ops,
                zero,
                moved(ids, bones, weights, counts, j, ids.len()),
                #[trigger] p.joint_vertex_sets@[j],
                p.vertex_joint_weights@[j],
            )
}

/// The vertices and the shares are those of the entries.
pub open spec fn is_bone_part<T, O: Division<T> + Signs<T>>(
    ops: &O,
    zero: T,
    entries: Seq<(u32, T)>,
    vertices: Vec<u32>,
    shares: Vec<T>,
) -> bool {
    vertices@ == firsts(entries) && crate::utils::shares::are_shares(
        ops,
        zero,
        seconds(entries),
        shares@,
    )
}

/// The weights that count.
fn counting<T, F: Fn(&T) -> bool>(weights: &Vec<Vec<T>>, significant: &F) -> (r: Vec<Vec<bool>>)
    requires
        forall|w: &T| call_requires(*significant, (w,)),
    ensures
        are_counts(*significant, weights@, views2(r@)),
{
    let mut r: Vec<Vec<bool>> = Vec::new();
    for i in 0..weights.len()
        invariant
            forall|w: &T| call_requires(*significant, (w,)),
            r@.len() == i,
            forall|d: int| 0 <= d < i ==> (#[trigger] r@[d])@.len() == weights@[d]@.len(),
            forall|d: int, s: int|
                0 <= d < i && 0 <= s < weights@[d]@.len() ==> call_ensures(
                    *significant,
                    (&weights@[d]@[s],),
                    #[trigger] r@[d]@[s],
                ),
    {
        let row = &weights[i];
        let mut marks: Vec<bool> = Vec::new();
        for s in 0..row.len()
            invariant
                forall|w: &T| call_requires(*significant, (w,)),
                marks@.len() == s,
                forall|k: int|
                    0 <= k < s ==> call_ensures(*significant, (&row@[k],), #[trigger] marks@[k]),
        {
            marks.push(significant(&row[s]));
        }
        r.push(marks);
    }
    proof {
        let counts = views2(r@);
        assert forall|i: int, s: int|
            0 <= i < weights@.len() && 0 <= s < weights@[i]@.len() implies call_ensures(
            *significant,
            (&weights@[i]@[s],),
            #[trigger] counts[i][s],
        ) by {
            assert(counts[i][s] == r@[i]@[s]);
        }
    }
    r
}

pub open spec fn views2(rows: Seq<Vec<bool>>) -> Seq<Seq<bool>> {
    rows.map_values(|row: Vec<bool>| row@)
}

/// The vertices that bone `j` moves, and their weights.
fn vertices_of<T: Copy>(
    ids: &Vec<u32>,
    bones: &Vec<Vec<u32>>,
    weights: &Vec<Vec<T>>,
    counts: &Vec<Vec<bool>>,
    j: usize,
) -> (r: (Vec<u32>, Vec<T>))
    requires
        ids@.len() <= u32::MAX,
        bones@.len() == weights@.len(),
        counts@.len() == weights@.len(),
        forall|i: int| 0 <= i < ids@.len() ==> (#[trigger] ids@[i]) < bones@.len(),
        forall|i: int|
            0 <= i < bones@.len() ==> (#[trigger] bones@[i])@.len() == weights@[i]@.len(),
        forall|i: int|
            0 <= i < weights@.len() ==> (#[trigger] counts@[i])@.len() == weights@[i]@.len(),
    ensures
        r.0@ == firsts(moved(ids@, bones@, weights@, views2(counts@), j as int, ids@.len())),
        r.1@ == seconds(moved(ids@, bones@, weights@, views2(counts@), j as int, ids@.len())),
{
    let ghost marks = views2(counts@);
    let mut at: Vec<u32> = Vec::new();
    let mut ws: Vec<T> = Vec::new();
    for n in 0..ids.len()
        invariant
            marks == views2(counts@),
            ids@.len() <= u32::MAX,
            bones@.len() == weights@.len(),
            counts@.len() == weights@.len(),
            forall|i: int| 0 <= i < ids@.len() ==> (#[trigger] ids@[i]) < bones@.len(),
            forall|i: int|
                0 <= i < bones@.len() ==> (#[trigger] bones@[i])@.len() == weights@[i]@.len(),
            forall|i: int|
                0 <= i < weights@.len() ==> (#[trigger] counts@[i])@.len() == weights@[i]@.len(),
            at@ =~= firsts(moved(ids@, bones@, weights@, marks, j as int, n as nat)),
            ws@ =~= seconds(moved(ids@, bones@, weights@, marks, j as int, n as nat)),
    {
        let id: usize = ids[n] as usize;
        assert(ids@[n as int] < bones@.len());
        let m: usize = bones[id].len();
        let ghost before = moved(ids@, bones@, weights@, marks, j as int, n as nat);
        assert(counts@[id as int]@.len() == weights@[id as int]@.len());
        assert(marks[id as int] == counts@[id as int]@);
        for s in 0..m
            invariant
                marks == views2(counts@),
                n < u32::MAX,
                id < bones@.len(),
                bones@.len() == weights@.len(),
                counts@.len() == weights@.len(),
                m == bones@[id as int]@.len(),
                m == weights@[id as int]@.len(),
                m == counts@[id as int]@.len(),
                marks[id as int] == counts@[id as int]@,
                at@ =~= firsts(
                    before + slots(
                        bones@[id as int]@,
                        weights@[id as int]@,
                        marks[id as int],
                        n as u32,
                        j as int,
                        s as nat,
                    ),
                ),
                ws@ =~= seconds(
                    before + slots(
                        bones@[id as int]@,
                        weights@[id as int]@,
                        marks[id as int],
                        n as u32,
                        j as int,
                        s as nat,
                    ),
                ),
        {
            if counts[id][s] && bones[id][s] as usize == j {
                at.push(n as u32);
                ws.push(weights[id][s]);
            }
        }
    }
    (at, ws)
}

/// For each of the bones the vertices that it moves: those with a weight that
/// is `significant`. The weights of a bone become shares of their sum.
pub fn build_partition<T: Copy, F: Fn(&T) -> bool, O: Division<T> + Signs<T>>(
    unique_ids: Vec<u32>,
    bone_indices: &Vec<Vec<u32>>,
    bone_weights: &Vec<Vec<T>>,
    n_bones: usize,
    significant: F,
    ops: &O,
    zero: T,
) -> (p: Partition<T>)
    requires
        unique_ids@.len() <= u32::MAX,
        bone_indices@.len() == bone_weights@.len(),
        forall|i: int|
            0 <= i < unique_ids@.len() ==> (#[trigger] unique_ids@[i]) < bone_indices@.len(),
        forall|i: int|
            0 <= i < bone_indices@.len() ==> (#[trigger] bone_indices@[i])@.len()
                == bone_weights@[i]@.len(),
        forall|w: &T| call_requires(significant, (w,)),
    ensures
        is_partition(
            significant,
            ops,
            zero,
            unique_ids@,
            bone_indices@,
            bone_weights@,
            n_bones as int,
            p,
        ),
{
    let counts = counting(bone_weights, &significant);
    let ghost marks = views2(counts@);
    proof {
        assert forall|i: int| 0 <= i < bone_weights@.len() implies (#[trigger] counts@[i])@.len()
            == bone_weights@[i]@.len() by {
            assert(marks[i] == counts@[i]@);
        }
    }
    let mut sets: Vec<Vec<u32>> = Vec::new();
    let mut shares: Vec<Vec<T>> = Vec::new();
    for j in 0..n_bones
        invariant
            marks == views2(counts@),
            unique_ids@.len() <= u32::MAX,
            bone_indices@.len() == bone_weights@.len(),
            counts@.len() == bone_weights@.len(),
            forall|i: int|
                0 <= i < unique_ids@.len() ==> (#[trigger] unique_ids@[i]) < bone_indices@.len(),
            forall|i: int|
                0 <= i < bone_indices@.len() ==> (#[trigger] bone_indices@[i])@.len()
                    == bone_weights@[i]@.len(),
            forall|i: int|
                0 <= i < bone_weights@.len() ==> (#[trigger] counts@[i])@.len()
                    == bone_weights@[i]@.len(),
            sets@.len() == j,
            shares@.len() == j,
            forall|k: int|
                0 <= k < j ==> is_bone_part(
                    ops,
                    zero,
                    moved(
                        unique_ids@,
                        bone_indices@,
                        bone_weights@,
                        marks,
                        k,
                        unique_ids@.len(),
                    ),
                    #[trigger] sets@[k],
                    shares@[k],
                ),
    {
        let (at, raw) = vertices_of(&unique_ids, bone_indices, bone_weights, &counts, j);
        let ghost entries = moved(
            unique_ids@,
            bone_indices@,
            bone_weights@,
            marks,
            j as int,
            unique_ids@.len(),
        );
        assert(raw@ == seconds(entries));
        let share = normalised(raw, zero, ops);
        assert(is_bone_part(ops, zero, entries, at, share));
        sets.push(at);
        shares.push(share);
    }
    Partition { unique_ids, joint_vertex_sets: sets, vertex_joint_weights: shares }
}

proof fn lemma_slots_place<T>(
    bones: Seq<u32>,
    weights: Seq<T>,
    counts: Seq<bool>,
    v: u32,
    j: int,
    m: nat,
)
    ensures
        forall|i: int|
            0 <= i < slots(bones, weights, counts, v, j, m).len() ==> (#[trigger] slots(
                bones,
                weights,
                counts,
                v,
                j,
                m,
            )[i]).0 == v,
    decreases m,
{
    if m > 0 {
        lemma_slots_place(bones, weights, counts, v, j, (m - 1) as nat);
        let before = slots(bones, weights, counts, v, j, (m - 1) as nat);
        let all = slots(bones, weights, counts, v, j, m);
        assert forall|i: int| 0 <= i < all.len() implies (#[trigger] all[i]).0 == v by {
            if i < before.len() {
                assert(all[i] == before[i]);
            }
        }
    }
}

proof fn lemma_moved_places<T>(
    ids: Seq<u32>,
    bones: Seq<Vec<u32>>,
    weights: Seq<Vec<T>>,
    counts: Seq<Seq<bool>>,
    j: int,
    n: nat,
)
    requires
        n <= u32::MAX,
    ensures
        forall|i: int|
            0 <= i < moved(ids, bones, weights, counts, j, n).len() ==> (#[trigger] moved(
                ids,
                bones,
                weights,
                counts,
                j,
                n,
            )[i]).0 < n,
    decreases n,
{
    if n > 0 {
        let id = ids[n - 1] as int;
        lemma_moved_places(ids, bones, weights, counts, j, (n - 1) as nat);
        lemma_slots_place(
            bones[id]@,
            weights[id]@,
            counts[id],
            (n - 1) as u32,
            j,
            bones[id]@.len(),
        );
        let before = moved(ids, bones, weights, counts, j, (n - 1) as nat);
        let own = slots(
            bones[id]@,
            weights[id]@,
            counts[id],
            (n - 1) as u32,
            j,
            bones[id]@.len(),
        );
        let all = moved(ids, bones, weights, counts, j, n);
        assert forall|i: int| 0 <= i < all.len() implies (#[trigger] all[i]).0 < n by {
            if i < before.len() {
                assert(all[i] == before[i]);
            } else {
                assert(all[i] == own[i - before.len()]);
            }
        }
    }
}

/// In exact arithmetic the shares of the vertices of a bone sum to one, unless
/// their weights have no positive sum; each vertex of a bone is one of the
/// given ones.
pub proof fn law_partition<T, F: Fn(&T) -> bool, O: Division<T> + Signs<T>>(
    significant: F,
    ops: &O,
    zero: T,
    ids: Seq<u32>,
    bones: Seq<Vec<u32>>,
    weights: Seq<Vec<T>>,
    n_bones: int,
    p: Partition<T>,
    value: spec_fn(T) -> real,
    j: int,
)
    requires
        crate::scalar::is_exact(ops, value),
        crate::scalar::divides_exactly(ops, value),
        crate::scalar::tells_signs(ops, value),
        value(zero) == 0 as real,
        is_partition(significant, ops, zero, ids, bones, weights, n_bones, p),
        ids.len() <= u32::MAX,
        0 <= j < n_bones,
    ensures
        ({
            let sum = crate::utils::shares::exact_total(value, p.vertex_joint_weights@[j]@);
            sum == 1 as real || sum <= 0 as real
        }),
        forall|i: int|
            0 <= i < p.joint_vertex_sets@[j]@.len() ==> (#[trigger] p.joint_vertex_sets@[j]@[i])
                < ids.len(),
{
    let counts = choose|counts: Seq<Seq<bool>>| #[trigger]
        are_counts(significant, weights, counts) && forall|j: int|
            0 <= j < n_bones ==> is_bone_part(
                ops,
                zero,
                moved(ids, bones, weights, counts, j, ids.len()),
                #[trigger] p.joint_vertex_sets@[j],
                p.vertex_joint_weights@[j],
            );
    let entries = moved(ids, bones, weights, counts, j, ids.len());
    assert(is_bone_part(
        ops,
        zero,
        entries,
        p.joint_vertex_sets@[j],
        p.vertex_joint_weights@[j],
    ));
    crate::utils::shares::law_shares_sum_to_one(
        ops,
        zero,
        seconds(entries),
        p.vertex_joint_weights@[j]@,
        value,
    );
    lemma_moved_places(ids, bones, weights, counts, j, ids.len());
}

// ---------------------------------------------------------------------------
// Sampled vertices
// ---------------------------------------------------------------------------

pub open spec fn smaller(a: int, b: int) -> int {
    if a <= b {
        a
    } else {
        b
    }
}

/// `r` is where sample `i` of `n` stands among `of` vertices.
pub open spec fn is_sample<F: Fn(usize, usize, usize) -> usize>(
    place: F,
    of: usize,
    i: usize,
    n: usize,
    r: u32,
) -> bool {
    exists|at: usize| #[trigger]
        call_ensures(place, (i, n, of), at) && r == smaller(at as int, of - 1)
}

/// The places of at most `n_points` of the vertices: `place(i, n, of)` says where
/// sample `i` of `n` stands among `of` vertices.
pub fn sample_vertices<F: Fn(usize, usize, usize) -> usize>(
    of: usize,
    n_points: usize,
    place: F,
) -> (r: Vec<u32>)
    requires
        of <= u32::MAX,
        forall|i: usize, n: usize, of: usize| i < n <= of ==> call_requires(place, (i, n, of)),
    ensures
        r@.len() == smaller(n_points as int, of as int),
        forall|i: int|
            0 <= i < r@.len() ==> is_sample(
                place,
                of,
                i as usize,
                r@.len() as usize,
                #[trigger] r@[i],
            ),
{
    let n: usize = if n_points <= of {
        n_points
    } else {
        of
    };
    let mut r: Vec<u32> = Vec::new();
    for i in 0..n
        invariant
            of <= u32::MAX,
            n <= of,
            forall|i: usize, n: usize, of: usize| i < n <= of ==> call_requires(place, (i, n, of)),
            r@.len() == i,
            forall|k: int|
                0 <= k < i ==> is_sample(place, of, k as usize, n, #[trigger] r@[k]),
    {
        let at: usize = place(i, n, of);
        let last: usize = of - 1;
        let at_most: usize = if at <= last {
            at
        } else {
            last
        };
        r.push(at_most as u32);
        assert(is_sample(place, of, i, n, r@[i as int]));
    }
    r
}

/// What a fit needs to know of a model: the vertices of its bones, and those
/// at which slopes are taken.
#[derive(Debug, Clone)]
pub struct BoneRegions<T> {
    pub partition: Partition<T>,
    /// Places among the vertices of the partition.
    pub sample_idx: Vec<u32>,
}

proof fn lemma_ascending_bound(s: Seq<u32>, i: int)
    requires
        crate::utils::index::strictly_ascending(s),
        0 <= i < s.len(),
    ensures
        i <= s[i],
    decreases i,
{
    if i > 0 {
        lemma_ascending_bound(s, i - 1);
        assert(s[i - 1] < s[i]);
    }
}

impl<T> BoneRegions<T> {
    /// There is a set of vertices for each of the bones, with a share for each
    /// of them.
    pub open spec fn fits(&self, bones: int) -> bool {
        let p = self.partition;
        &&& p.joint_vertex_sets@.len() == bones
        &&& p.vertex_joint_weights@.len() == bones
        &&& forall|j: int|
            0 <= j < bones ==> (#[trigger] p.joint_vertex_sets@[j])@.len()
                == p.vertex_joint_weights@[j]@.len()
        &&& forall|j: int, i: int|
            0 <= j < bones && 0 <= i < p.joint_vertex_sets@[j]@.len() ==> (
            #[trigger] p.joint_vertex_sets@[j]@[i]) < p.unique_ids@.len()
    }
}

proof fn lemma_partition_fits<T, F: Fn(&T) -> bool, O: Division<T> + Signs<T>>(
    significant: F,
    ops: &O,
    zero: T,
    ids: Seq<u32>,
    bones: Seq<Vec<u32>>,
    weights: Seq<Vec<T>>,
    n_bones: int,
    r: BoneRegions<T>,
)
    requires
        is_partition(significant, ops, zero, ids, bones, weights, n_bones, r.partition),
        ids.len() <= u32::MAX,
    ensures
        r.fits(n_bones),
{
    let p = r.partition;
    let counts = choose|counts: Seq<Seq<bool>>| #[trigger]
        are_counts(significant, weights, counts) && forall|j: int|
            0 <= j < n_bones ==> is_bone_part(
                ops,
                zero,
                moved(ids, bones, weights, counts, j, ids.len()),
                #[trigger] p.joint_vertex_sets@[j],
                p.vertex_joint_weights@[j],
            );
    assert forall|j: int, i: int|
        0 <= j < n_bones && 0 <= i < p.joint_vertex_sets@[j]@.len() implies (
    #[trigger] p.joint_vertex_sets@[j]@[i]) < p.unique_ids@.len() by {
        let entries = moved(ids, bones, weights, counts, j, ids.len());
        assert(is_bone_part(
            ops,
            zero,
            entries,
            p.joint_vertex_sets@[j],
            p.vertex_joint_weights@[j],
        ));
        lemma_moved_places(ids, bones, weights, counts, j, ids.len());
        assert(entries[i].0 == p.joint_vertex_sets@[j]@[i]);
    }
}

impl<T: Copy> BoneRegions<T> {
    /// The vertices of the bones of a model, and at most `n_points` vertices
    /// at which slopes are taken.
    pub fn new<
        F: Fn(&T) -> bool,
        O: Division<T> + Signs<T>,
        S: Fn(usize, usize, usize) -> usize,
    >(model: &Figure<T>, n_points: usize, significant: F, zero: T, ops: &O, place: S) -> (r: Self)
        requires
            model.template_vertices@.len() <= u32::MAX,
            model.vertex_bones.indices@.len() == model.template_vertices@.len(),
            model.vertex_bones.weights@.len() == model.template_vertices@.len(),
            forall|i: int|
                0 <= i < model.vertex_bones.indices@.len() ==> (
                #[trigger] model.vertex_bones.indices@[i])@.len()
                    == model.vertex_bones.weights@[i]@.len(),
            forall|x: u32|
                crate::utils::index::occurs(
                    model.faces@,
                    model.faces@.len() as int,
                    x,
                ) ==> x < model.template_vertices@.len(),
            forall|w: &T| call_requires(significant, (w,)),
            forall|i: usize, n: usize, of: usize| i < n <= of ==> call_requires(place, (i, n, of)),
        ensures
            crate::utils::index::is_ascending_set(r.partition.unique_ids@, model.faces@),
            is_partition(
                significant,
                ops,
                zero,
                r.partition.unique_ids@,
                model.vertex_bones.indices@,
                model.vertex_bones.weights@,
                model.bone_labels@.len() as int,
                r.partition,
            ),
            r.sample_idx@.len() == smaller(
                n_points as int,
                r.partition.unique_ids@.len() as int,
            ),
            forall|i: int|
                0 <= i < r.sample_idx@.len() ==> is_sample(
                    place,
                    r.partition.unique_ids@.len() as usize,
                    i as usize,
                    r.sample_idx@.len() as usize,
                    #[trigger] r.sample_idx@[i],
                ),
            r.fits(model.bone_labels@.len() as int),
    {
        let unique_ids = ascending_set(&model.faces);
        proof {
            assert forall|i: int| 0 <= i < unique_ids@.len() implies (#[trigger] unique_ids@[i])
                < model.template_vertices@.len() by {
                assert(unique_ids@.contains(unique_ids@[i]));
            }
            if unique_ids@.len() > 0 {
                lemma_ascending_bound(unique_ids@, unique_ids@.len() - 1);
            }
        }
        let sample_idx = sample_vertices(unique_ids.len(), n_points, place);
        let partition = build_partition(
            unique_ids,
            &model.vertex_bones.indices,
            &model.vertex_bones.weights,
            model.bone_count(),
            significant,
            ops,
            zero,
        );
        let r = BoneRegions { partition, sample_idx };
        proof {
            lemma_partition_fits(
                significant,
                ops,
                zero,
                r.partition.unique_ids@,
                model.vertex_bones.indices@,
                model.vertex_bones.weights@,
                model.bone_labels@.len() as int,
                r,
            );
        }
        r
    }
}

// ---------------------------------------------------------------------------
// Phenotypes to optimise
// ---------------------------------------------------------------------------

/// The labels without the excluded ones, in their order.
pub fn optim_keys(labels: &Vec<&'static str>, excluded: &Vec<&str>) -> (r: Vec<&'static str>)
    ensures
        crate::names::str_views(r@) =~= crate::names::others(
            crate::names::str_views(labels@),
            crate::names::str_views(excluded@),
            labels@.len(),
        ),
{
    let ghost all = crate::names::str_views(labels@);
    let ghost out = crate::names::str_views(excluded@);
    let mut r: Vec<&'static str> = Vec::new();
    for i in 0..labels.len()
        invariant
            all == crate::names::str_views(labels@),
            out == crate::names::str_views(excluded@),
            crate::names::str_views(r@) =~= crate::names::others(all, out, i as nat),
    {
        assert(all[i as int] == labels@[i as int]@);
        if !contains(excluded, labels[i]) {
            let ghost before = r@;
            r.push(labels[i]);
            assert(crate::names::str_views(r@) =~= crate::names::str_views(before).push(
                all[i as int],
            ));
        }
    }
    r
}

/// The column of each key: the last place of its label.
pub fn key_columns(labels: &Vec<&'static str>, keys: &Vec<&'static str>) -> (r: Vec<usize>)
    requires
        forall|i: int|
            0 <= i < keys@.len() ==> crate::names::str_views(labels@).contains(
                (#[trigger] keys@[i])@,
            ),
    ensures
        r@.len() == keys@.len(),
        forall|i: int|
            0 <= i < r@.len() ==> crate::names::last_at(
                crate::names::str_views(labels@),
                keys@[i]@,
            ) == Some(#[trigger] r@[i] as int),
{
    let ghost all = crate::names::str_views(labels@);
    let mut r: Vec<usize> = Vec::new();
    for i in 0..keys.len()
        invariant
            all == crate::names::str_views(labels@),
            forall|i: int| 0 <= i < keys@.len() ==> all.contains((#[trigger] keys@[i])@),
            r@.len() == i,
            forall|k: int|
                0 <= k < i ==> crate::names::last_at(all, keys@[k]@) == Some(
                    #[trigger] r@[k] as int,
                ),
    {
        assert(all.contains(keys@[i as int]@));
        let mut c: usize = labels.len();
        while c > 0 && !found_at(labels, c, keys[i])
            invariant
                c <= labels@.len(),
                i < keys@.len(),
                all == crate::names::str_views(labels@),
                forall|k: int| c <= k < all.len() ==> all[k] != keys@[i as int]@,
            decreases c,
        {
            c = c - 1;
        }
        proof {
            let k = choose|k: int| 0 <= k < all.len() && all[k] == keys@[i as int]@;
            assert(k < c);
            crate::names::lemma_last_at_is(all, keys@[i as int]@, c - 1);
        }
        r.push(c - 1);
    }
    r
}

fn found_at(labels: &Vec<&'static str>, c: usize, key: &str) -> (r: bool)
    requires
        0 < c <= labels@.len(),
    ensures
        r == (crate::names::str_views(labels@)[c - 1] == key@),
{
    same(labels[c - 1], key)
}

/// The names of a list of weights.
pub open spec fn weight_names<T>(weights: Seq<(String, T)>) -> Seq<Seq<char>> {
    Seq::new(weights.len(), |i: int| weights[i].0@)
}

/// The weight with the name, or `one` where there is none.
pub open spec fn weight_of<T>(weights: Seq<(String, T)>, key: Seq<char>, one: T) -> T {
    match crate::names::last_at(weight_names(weights), key) {
        Some(i) => weights[i].1,
        None => one,
    }
}

/// The weight of the regularisation of each key: the one with its name, or
/// `one` where there is none.
pub fn regularisation<T: Copy>(
    keys: &Vec<&'static str>,
    weights: &Vec<(String, T)>,
    one: T,
) -> (r: Vec<T>)
    ensures
        r@.len() == keys@.len(),
        forall|i: int|
            0 <= i < r@.len() ==> #[trigger] r@[i] == weight_of(weights@, keys@[i]@, one),
{
    let ghost names = weight_names(weights@);
    let mut r: Vec<T> = Vec::new();
    for i in 0..keys.len()
        invariant
            names == weight_names(weights@),
            r@.len() == i,
            forall|k: int|
                0 <= k < i ==> #[trigger] r@[k] == weight_of(weights@, keys@[k]@, one),
    {
        let mut c: usize = 0;
        let mut w = one;
        while c < weights.len()
            invariant
                c <= weights@.len(),
                i < keys@.len(),
                names == weight_names(weights@),
                w == weight_of(weights@.take(c as int), keys@[i as int]@, one),
            decreases weights.len() - c,
        {
            let ghost key = keys@[i as int]@;
            let ghost before = weight_names(weights@.take(c as int));
            let ghost after = weight_names(weights@.take(c + 1));
            if same(weights[c].0.as_str(), keys[i]) {
                w = weights[c].1;
                proof {
                    crate::names::lemma_last_at_is(after, key, c as int);
                }
            } else {
                proof {
                    assert(after.drop_last() =~= before);
                    crate::names::lemma_last_at(before, key);
                    match crate::names::last_at(before, key) {
                        Some(k) => {
                            assert forall|l: int| k < l < after.len() implies after[l] != key by {
                                if l < c {
                                    assert(after[l] == before[l]);
                                }
                            }
                            assert(after[k] == before[k]);
                            crate::names::lemma_last_at_is(after, key, k);
                        },
                        None => {
                            crate::names::lemma_last_at(after, key);
                            match crate::names::last_at(after, key) {
                                Some(k) => {
                                    assert(k < c);
                                    assert(after[k] == before[k]);
                                },
                                None => {},
                            }
                        },
                    }
                }
            }
            c = c + 1;
        }
        assert(weights@.take(weights@.len() as int) =~= weights@);
        r.push(w);
    }
    r
}

// ---------------------------------------------------------------------------
// Values of the phenotypes
// ---------------------------------------------------------------------------

/// A label that is none of a phenotype.
#[derive(Debug, Clone, Copy, PartialEq, Eq, Structural)]
pub struct UnknownLabel {
    /// Its place in the list of labels.
    pub at: usize,
}

/// `after` is what `change` makes of the values of label `i`.
pub open spec fn is_changed<T, F: Fn(usize, usize, T) -> T>(
    change: F,
    i: usize,
    before: Seq<T>,
    after: Seq<T>,
) -> bool {
    &&& after.len() == before.len()
    &&& forall|k: int|
        0 <= k < before.len() ==> call_ensures(
            change,
            (i, k as usize, before[k]),
            #[trigger] after[k],
        )
}

/// The values of the first `n` labels were changed, and no other values.
pub open spec fn are_changed<T, F: Fn(usize, usize, T) -> T>(
    change: F,
    before: PhenotypeValues<Vec<T>>,
    after: PhenotypeValues<Vec<T>>,
    labels: Seq<Seq<char>>,
    n: int,
) -> bool {
    &&& forall|i: int|
        0 <= i < n ==> {
            &&& before.value(#[trigger] labels[i]) is Some
            &&& after.value(labels[i]) is Some
            &&& is_changed(
                change,
                i as usize,
                before.value(labels[i])->0@,
                after.value(labels[i])->0@,
            )
        }
    &&& forall|l: Seq<char>|
        !labels.take(n).contains(l) ==> #[trigger] after.value(l) == before.value(l)
}

/// To replace the value of one label is to leave the others.
pub proof fn law_with_value<T>(p: PhenotypeValues<T>, label: Seq<char>, v: T, other: Seq<char>)
    ensures
        p.with(label, v) is Some <==> p.value(label) is Some,
        p.with(label, v) is Some ==> p.with(label, v)->0.value(other) == if other == label {
            Some(v)
        } else {
            p.value(other)
        },
{
}

fn changed_values<T: Copy, F: Fn(usize, usize, T) -> T>(
    values: &Vec<T>,
    i: usize,
    change: &F,
) -> (r: Vec<T>)
    requires
        forall|k: usize, x: T| k < values@.len() ==> call_requires(*change, (i, k, x)),
    ensures
        is_changed(*change, i, values@, r@),
{
    let mut r: Vec<T> = Vec::new();
    for k in 0..values.len()
        invariant
            forall|k: usize, x: T| k < values@.len() ==> call_requires(*change, (i, k, x)),
            r@.len() == k,
            forall|j: int|
                0 <= j < k ==> call_ensures(*change, (i, j as usize, values@[j]), #[trigger] r@[j]),
    {
        r.push(change(i, k, values[k]));
    }
    r
}

/// Every list of values has `n` elements.
pub open spec fn all_of_len<T>(p: PhenotypeValues<Vec<T>>, n: nat) -> bool {
    forall|l: Seq<char>| (#[trigger] p.value(l)) is Some ==> p.value(l)->0@.len() == n
}

/// Changes the values of each label in turn: `change(i, k, x)` is what becomes
/// of `x`, the value `k` of label `i`. Stops at a label that is unknown.
fn change_labels<T: Copy, F: Fn(usize, usize, T) -> T>(
    phen: &mut PhenotypeValues<Vec<T>>,
    labels: &Vec<&'static str>,
    change: &F,
    len: usize,
) -> (r: Result<(), UnknownLabel>)
    requires
        crate::names::str_views(labels@).no_duplicates(),
        all_of_len(*old(phen), len as nat),
        forall|i: usize, k: usize, x: T|
            i < labels@.len() && k < len ==> call_requires(*change, (i, k, x)),
    ensures
        match r {
            Ok(_) => are_changed(
                *change,
                *old(phen),
                *final(phen),
                crate::names::str_views(labels@),
                labels@.len() as int,
            ),
            Err(e) => e.at < labels@.len() && old(phen).value(labels@[e.at as int]@) is None
                && are_changed(
                *change,
                *old(phen),
                *final(phen),
                crate::names::str_views(labels@),
                e.at as int,
            ),
        },
        all_of_len(*final(phen), len as nat),
{
    let ghost names = crate::names::str_views(labels@);
    let ghost start = *phen;
    for i in 0..labels.len()
        invariant
            names == crate::names::str_views(labels@),
            names.no_duplicates(),
            start == *old(phen),
            all_of_len(*phen, len as nat),
            forall|i: usize, k: usize, x: T|
                i < labels@.len() && k < len ==> call_requires(*change, (i, k, x)),
            are_changed(*change, start, *phen, names, i as int),
    {
        let ghost before = *phen;
        let ghost label = labels@[i as int]@;
        assert(names[i as int] == label);
        proof {
            if names.take(i as int).contains(label) {
                let j = choose|j: int| 0 <= j < i && names.take(i as int)[j] == label;
                assert(names[j] == names[i as int]);
                assert(false);
            }
            assert(before.value(label) == start.value(label));
        }
        let values = match phen.get(labels[i]) {
            Some(v) => changed_values(v, i, change),
            None => {
                return Err(UnknownLabel { at: i });
            },
        };
        let ghost after = values;
        let _known = phen.set(labels[i], values);
        proof {
            law_with_value(before, label, after, label);
            assert forall|l: Seq<char>| (#[trigger] phen.value(l)) is Some implies phen.value(
                l,
            )->0@.len() == len by {
                law_with_value(before, label, after, l);
                assert(before.value(label) is Some);
            }
            assert forall|k: int| 0 <= k < i + 1 implies {
                &&& start.value(#[trigger] names[k]) is Some
                &&& phen.value(names[k]) is Some
                &&& is_changed(
                    *change,
                    k as usize,
                    start.value(names[k])->0@,
                    phen.value(names[k])->0@,
                )
            } by {
                law_with_value(before, label, after, names[k]);
                if k < i {
                    assert(names[k] != names[i as int]);
                }
            }
            assert forall|l: Seq<char>|
                !names.take(i + 1).contains(l) implies #[trigger] phen.value(l) == start.value(
                l,
            ) by {
                law_with_value(before, label, after, l);
                assert(names.take(i + 1)[i as int] == label);
                if names.take(i as int).contains(l) {
                    let j = choose|j: int| 0 <= j < i && names.take(i as int)[j] == l;
                    assert(names.take(i + 1)[j] == l);
                }
            }
        }
    }
    Ok(())
}

/// The value of element `b` in each of its `repeats` places.
pub open spec fn repeated<T>(values: Seq<T>, batch: nat, repeats: nat) -> Seq<T> {
    Seq::new(batch * repeats, |i: int| crate::phenotype::element(values, i / (repeats as int)))
}

proof fn lemma_place(b: int, repeats: int, p: int)
    requires
        0 <= b,
        0 <= p < repeats,
    ensures
        (b * repeats + p) / repeats == b,
        (b * repeats + p) % repeats == p,
{
    vstd::arithmetic::div_mod::lemma_fundamental_div_mod_converse(b * repeats + p, repeats, b, p);
}

/// Each value `repeats` times in a row, from one for all elements of the
/// batch or one for each.
pub fn repeat_values<T: Copy>(values: &Vec<T>, batch: usize, repeats: usize) -> (r: Result<
    Vec<T>,
    BatchMismatch,
>)
    requires
        batch * repeats <= usize::MAX,
    ensures
        match r {
            Ok(all) => {
                &&& values@.len() == batch || values@.len() == 1
                &&& all@ == repeated(values@, batch as nat, repeats as nat)
            },
            Err(e) => {
                &&& values@.len() != batch && values@.len() != 1
                &&& e.len == values@.len() && e.batch == batch
            },
        },
{
    let len: usize = values.len();
    if len != batch && len != 1 {
        return Err(BatchMismatch { len, batch });
    }
    let mut all: Vec<T> = Vec::new();
    assert(0 * repeats == 0) by (nonlinear_arith);
    for b in 0..batch
        invariant
            len == values@.len(),
            len == batch || len == 1,
            all@.len() == b * repeats,
            forall|i: int|
                0 <= i < all@.len() ==> #[trigger] all@[i] == crate::phenotype::element(
                    values@,
                    i / (repeats as int),
                ),
    {
        let x = if len == 1 {
            values[0]
        } else {
            values[b]
        };
        for p in 0..repeats
            invariant
                len == values@.len(),
                x == crate::phenotype::element(values@, b as int),
                all@.len() == b * repeats + p,
                forall|i: int|
                    0 <= i < all@.len() ==> #[trigger] all@[i] == crate::phenotype::element(
                        values@,
                        i / (repeats as int),
                    ),
        {
            all.push(x);
            proof {
                lemma_place(b as int, repeats as int, p as int);
            }
        }
        assert(b * repeats + repeats == (b + 1) * repeats) by (nonlinear_arith);
    }
    assert(all@ =~= repeated(values@, batch as nat, repeats as nat));
    Ok(all)
}

/// The lists of values, in the order in which they are repeated.
pub open spec fn fields<T>(p: PhenotypeValues<Vec<T>>) -> Seq<Seq<T>> {
    seq![
        p.age@,
        p.gender@,
        p.muscle@,
        p.weight@,
        p.height@,
        p.proportions@,
        p.cupsize@,
        p.firmness@,
        p.african@,
        p.asian@,
        p.caucasian@,
    ]
}

/// A list serves a batch if it has one value for all or one for each.
pub open spec fn serves(len: nat, batch: nat) -> bool {
    len == batch || len == 1
}

/// The outcome of repeating the values of a phenotype.
pub open spec fn repeat_outcome<T>(
    p: PhenotypeValues<Vec<T>>,
    batch: nat,
    repeats: nat,
    r: Result<PhenotypeValues<Vec<T>>, BatchMismatch>,
) -> bool {
    match r {
        Ok(q) => forall|f: int|
            0 <= f < 11 ==> serves((#[trigger] fields(p)[f]).len(), batch) && fields(q)[f]
                == repeated(fields(p)[f], batch, repeats),
        Err(e) => exists|f: int|
            {
                &&& 0 <= f < 11
                &&& !serves((#[trigger] fields(p)[f]).len(), batch)
                &&& e.len == fields(p)[f].len()
                &&& e.batch == batch
                &&& forall|g: int| 0 <= g < f ==> serves((#[trigger] fields(p)[g]).len(), batch)
            },
    }
}

/// The values of each element `repeats` times in a row.
pub fn repeat_phenotype<T: Copy>(
    phen: &PhenotypeValues<Vec<T>>,
    batch: usize,
    repeats: usize,
) -> (r: Result<PhenotypeValues<Vec<T>>, BatchMismatch>)
    requires
        batch * repeats <= usize::MAX,
    ensures
        repeat_outcome(*phen, batch as nat, repeats as nat, r),
{
    let ghost all = fields(*phen);
    let age = match repeat_values(&phen.age, batch, repeats) {
        Ok(v) => v,
        Err(e) => {
            assert(!serves(all[0].len(), batch as nat));
            return Err(e);
        },
    };
    let gender = match repeat_values(&phen.gender, batch, repeats) {
        Ok(v) => v,
        Err(e) => {
            assert(!serves(all[1].len(), batch as nat));
            return Err(e);
        },
    };
    let muscle = match repeat_values(&phen.muscle, batch, repeats) {
        Ok(v) => v,
        Err(e) => {
            assert(!serves(all[2].len(), batch as nat));
            return Err(e);
        },
    };
    let weight = match repeat_values(&phen.weight, batch, repeats) {
        Ok(v) => v,
        Err(e) => {
            assert(!serves(all[3].len(), batch as nat));
            return Err(e);
        },
    };
    let height = match repeat_values(&phen.height, batch, repeats) {
        Ok(v) => v,
        Err(e) => {
            assert(!serves(all[4].len(), batch as nat));
            return Err(e);
        },
    };
    let proportions = match repeat_values(&phen.proportions, batch, repeats) {
        Ok(v) => v,
        Err(e) => {
            assert(!serves(all[5].len(), batch as nat));
            return Err(e);
        },
    };
    let cupsize = match repeat_values(&phen.cupsize, batch, repeats) {
        Ok(v) => v,
        Err(e) => {
            assert(!serves(all[6].len(), batch as nat));
            return Err(e);
        },
    };
    let firmness = match repeat_values(&phen.firmness, batch, repeats) {
        Ok(v) => v,
        Err(e) => {
            assert(!serves(all[7].len(), batch as nat));
            return Err(e);
        },
    };
    let african = match repeat_values(&phen.african, batch, repeats) {
        Ok(v) => v,
        Err(e) => {
            assert(!serves(all[8].len(), batch as nat));
            return Err(e);
        },
    };
    let asian = match repeat_values(&phen.asian, batch, repeats) {
        Ok(v) => v,
        Err(e) => {
            assert(!serves(all[9].len(), batch as nat));
            return Err(e);
        },
    };
    let caucasian = match repeat_values(&phen.caucasian, batch, repeats) {
        Ok(v) => v,
        Err(e) => {
            assert(!serves(all[10].len(), batch as nat));
            return Err(e);
        },
    };
    Ok(
        PhenotypeValues {
            age,
            gender,
            muscle,
            weight,
            height,
            proportions,
            cupsize,
            firmness,
            african,
            asian,
            caucasian,
        },
    )
}

/// The places in a row of repeats: one for each label, and the first.
pub open spec fn row_len(labels: Seq<Seq<char>>) -> int {
    labels.len() as int + 1
}

/// `after` is `before` with `eps` added where the place in the row of repeats
/// is that of label `i`; the first place belongs to none.
pub open spec fn is_bumped<T, O: Arithmetic<T>>(
    ops: &O,
    eps: T,
    i: int,
    repeats: int,
    before: Seq<T>,
    after: Seq<T>,
) -> bool {
    &&& after.len() == before.len()
    &&& forall|k: int|
        0 <= k < before.len() ==> if k % repeats == i + 1 {
            crate::scalar::sum_of(ops, before[k], eps, #[trigger] after[k])
        } else {
            after[k] == before[k]
        }
}

/// The values of each label were bumped in its own place, and no others.
pub open spec fn is_perturbed<T, O: Arithmetic<T>>(
    ops: &O,
    eps: T,
    labels: Seq<Seq<char>>,
    before: PhenotypeValues<Vec<T>>,
    after: PhenotypeValues<Vec<T>>,
) -> bool {
    &&& forall|i: int|
        0 <= i < labels.len() ==> {
            &&& before.value(#[trigger] labels[i]) is Some
            &&& after.value(labels[i]) is Some
            &&& is_bumped(
                ops,
                eps,
                i,
                row_len(labels),
                before.value(labels[i])->0@,
                after.value(labels[i])->0@,
            )
        }
    &&& forall|l: Seq<char>|
        !labels.contains(l) ==> #[trigger] after.value(l) == before.value(l)
}

/// Adds `eps` to each label in its own place of the row of repeats, which has
/// one place more than there are labels: the first is left as it is.
pub fn perturb_phenotype<T: Copy, O: Arithmetic<T>>(
    phen: PhenotypeValues<Vec<T>>,
    labels: &Vec<&'static str>,
    total: usize,
    eps: T,
    ops: &O,
) -> (r: Result<PhenotypeValues<Vec<T>>, UnknownLabel>)
    requires
        labels@.len() < usize::MAX,
        crate::names::str_views(labels@).no_duplicates(),
        all_of_len(phen, total as nat),
    ensures
        match r {
            Ok(p) => is_perturbed(ops, eps, crate::names::str_views(labels@), phen, p)
                && all_of_len(p, total as nat),
            Err(e) => e.at < labels@.len() && phen.value(labels@[e.at as int]@) is None,
        },
        (forall|i: int|
            0 <= i < labels@.len() ==> phen.value((#[trigger] labels@[i])@) is Some) ==> r is Ok,
{
    let repeats: usize = labels.len() + 1;
    let change = |i: usize, k: usize, x: T| -> (y: T)
        requires
            i < usize::MAX,
        ensures
            if k % repeats == i + 1 {
                crate::scalar::sum_of(ops, x, eps, y)
            } else {
                y == x
            },
        {
            if k % repeats == i + 1 {
                ops.plus(x, eps)
            } else {
                x
            }
        };
    let ghost names = crate::names::str_views(labels@);
    let mut p = phen;
    match change_labels(&mut p, labels, &change, total) {
        Ok(_) => {
            proof {
                assert(names.take(names.len() as int) =~= names);
                assert forall|i: int| 0 <= i < names.len() implies {
                    &&& phen.value(#[trigger] names[i]) is Some
                    &&& p.value(names[i]) is Some
                    &&& is_bumped(
                        ops,
                        eps,
                        i,
                        row_len(names),
                        phen.value(names[i])->0@,
                        p.value(names[i])->0@,
                    )
                } by {
                    let before = phen.value(names[i])->0@;
                    let after = p.value(names[i])->0@;
                    assert(is_changed(change, i as usize, before, after));
                    assert forall|k: int| 0 <= k < before.len() implies if k % row_len(names) == i + 1 {
                        crate::scalar::sum_of(ops, before[k], eps, #[trigger] after[k])
                    } else {
                        after[k] == before[k]
                    } by {
                        assert(call_ensures(change, (i as usize, k as usize, before[k]), after[k]));
                        assert(before.len() == total);
                    }
                }
            }
            Ok(p)
        },
        Err(e) => Err(e),
    }
}

/// The bounds of a step: its length, and the values that it may end at.
#[derive(Debug, Clone, Copy)]
pub struct StepBounds<T> {
    pub most: T,
    pub low: T,
    pub high: T,
}

/// Each value took the bounded step of its entry of column `i`.
pub open spec fn is_stepped<T, O: Arithmetic<T> + Bounds<T>>(
    ops: &O,
    bounds: StepBounds<T>,
    delta: Seq<Vec<T>>,
    i: int,
    before: Seq<T>,
    after: Seq<T>,
) -> bool {
    &&& after.len() == before.len()
    &&& forall|b: int|
        0 <= b < before.len() ==> crate::utils::bounds::is_damped_step(
            ops,
            before[b],
            delta[b]@[i],
            bounds.most,
            bounds.low,
            bounds.high,
            #[trigger] after[b],
        )
}

/// The values of each key were stepped by its column, and no others changed.
pub open spec fn are_stepped<T, O: Arithmetic<T> + Bounds<T>>(
    ops: &O,
    bounds: StepBounds<T>,
    delta: Seq<Vec<T>>,
    keys: Seq<Seq<char>>,
    before: PhenotypeValues<Vec<T>>,
    after: PhenotypeValues<Vec<T>>,
    n: int,
) -> bool {
    &&& forall|i: int|
        0 <= i < n ==> {
            &&& before.value(#[trigger] keys[i]) is Some
            &&& after.value(keys[i]) is Some
            &&& is_stepped(
                ops,
                bounds,
                delta,
                i,
                before.value(keys[i])->0@,
                after.value(keys[i])->0@,
            )
        }
    &&& forall|l: Seq<char>|
        !keys.take(n).contains(l) ==> #[trigger] after.value(l) == before.value(l)
}

/// Moves the value of each key in each element of the batch by its entry of
/// `delta`, by no more than the bounds allow.
pub fn apply_phenotype_delta<T: Copy, O: Arithmetic<T> + Bounds<T>>(
    phen: &mut PhenotypeValues<Vec<T>>,
    delta: &Vec<Vec<T>>,
    keys: &Vec<&'static str>,
    bounds: StepBounds<T>,
    ops: &O,
) -> (r: Result<(), UnknownLabel>)
    requires
        crate::names::str_views(keys@).no_duplicates(),
        all_of_len(*old(phen), delta@.len()),
        forall|b: int| 0 <= b < delta@.len() ==> (#[trigger] delta@[b])@.len() == keys@.len(),
    ensures
        match r {
            Ok(_) => are_stepped(
                ops,
                bounds,
                delta@,
                crate::names::str_views(keys@),
                *old(phen),
                *final(phen),
                keys@.len() as int,
            ),
            Err(e) => e.at < keys@.len() && old(phen).value(keys@[e.at as int]@) is None
                && are_stepped(
                ops,
                bounds,
                delta@,
                crate::names::str_views(keys@),
                *old(phen),
                *final(phen),
                e.at as int,
            ),
        },
        (forall|i: int|
            0 <= i < keys@.len() ==> old(phen).value((#[trigger] keys@[i])@) is Some) ==> r is Ok,
        all_of_len(*final(phen), delta@.len()),
{
    let n: usize = keys.len();
    let batch: usize = delta.len();
    let change = |i: usize, k: usize, x: T| -> (y: T)
        requires
            i < n,
            k < delta@.len(),
            delta@[k as int]@.len() == n,
        ensures
            crate::utils::bounds::is_damped_step(
                ops,
                x,
                delta@[k as int]@[i as int],
                bounds.most,
                bounds.low,
                bounds.high,
                y,
            ),
        { damped_step(x, delta[k][i], bounds.most, bounds.low, bounds.high, ops) };
    let ghost start = *phen;
    let ghost names = crate::names::str_views(keys@);
    proof {
        assert forall|i: usize, k: usize, x: T| i < n && k < batch implies call_requires(
            change,
            (i, k, x),
        ) by {
            assert(delta@[k as int]@.len() == n);
        }
    }
    let r = change_labels(phen, keys, &change, batch);
    proof {
        let m = match r {
            Ok(_) => names.len() as int,
            Err(e) => e.at as int,
        };
        assert forall|i: int| 0 <= i < m implies {
            &&& start.value(#[trigger] names[i]) is Some
            &&& phen.value(names[i]) is Some
            &&& is_stepped(
                ops,
                bounds,
                delta@,
                i,
                start.value(names[i])->0@,
                phen.value(names[i])->0@,
            )
        } by {
            let before = start.value(names[i])->0@;
            let after = phen.value(names[i])->0@;
            assert(is_changed(change, i as usize, before, after));
            assert forall|b: int| 0 <= b < before.len() implies crate::utils::bounds::is_damped_step(
                ops,
                before[b],
                delta@[b]@[i],
                bounds.most,
                bounds.low,
                bounds.high,
                #[trigger] after[b],
            ) by {
                assert(call_ensures(change, (i as usize, b as usize, before[b]), after[b]));
                assert(before.len() == batch);
            }
        }
    }
    r
}

/// In exact arithmetic the values of the keys are within the bounds after a
/// step.
pub proof fn law_stepped_within<T, O: Arithmetic<T> + Bounds<T>>(
    ops: &O,
    bounds: StepBounds<T>,
    delta: Seq<Vec<T>>,
    keys: Seq<Seq<char>>,
    before: PhenotypeValues<Vec<T>>,
    after: PhenotypeValues<Vec<T>>,
    value: spec_fn(T) -> real,
    i: int,
    b: int,
)
    requires
        crate::scalar::is_exact(ops, value),
        crate::scalar::compares(ops, value),
        0 as real <= value(bounds.most),
        value(bounds.low) <= value(bounds.high),
        are_stepped(ops, bounds, delta, keys, before, after, keys.len() as int),
        0 <= i < keys.len(),
        0 <= b < before.value(keys[i])->0@.len(),
    ensures
        value(bounds.low) <= value(after.value(keys[i])->0@[b]) <= value(bounds.high),
{
    let old_values = before.value(keys[i])->0@;
    let new_values = after.value(keys[i])->0@;
    assert(is_stepped(ops, bounds, delta, i, old_values, new_values));
    crate::utils::bounds::law_damped_step(
        ops,
        old_values[b],
        delta[b]@[i],
        bounds.most,
        bounds.low,
        bounds.high,
        new_values[b],
        value,
    );
}

/// In each row of repeats the first place holds the values as they were, and
/// the place of a label differs from it in that label alone.
pub proof fn law_one_label_per_place<T, O: Arithmetic<T>>(
    ops: &O,
    eps: T,
    labels: Seq<Seq<char>>,
    before: PhenotypeValues<Vec<T>>,
    after: PhenotypeValues<Vec<T>>,
    i: int,
    k: int,
)
    requires
        is_perturbed(ops, eps, labels, before, after),
        0 <= i < labels.len(),
        0 <= k < before.value(labels[i])->0@.len(),
        k % row_len(labels) != i + 1,
    ensures
        after.value(labels[i])->0@[k] == before.value(labels[i])->0@[k],
{
    assert(is_bumped(
        ops,
        eps,
        i,
        row_len(labels),
        before.value(labels[i])->0@,
        after.value(labels[i])->0@,
    ));
}

} // verus!
