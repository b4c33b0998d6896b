//! The body model: which faces and vertices it keeps, its skeleton and its
//! skinning table.
use vstd::prelude::*;
use vstd::string::*;

pub use crate::models::body::Model;
pub use crate::models::forward::ForwardOutput;

use crate::data::obj::{ObjGroup, ObjMesh};
use crate::kinematics::propagation_fronts;
use crate::models::blend_shapes::MacrodetailsError;
use crate::names::same;
use crate::models::pose::PoseParameterization;
use crate::models::rig::{build_hierarchy, build_vertex_bone_matrix, BoneHierarchy, RigBoneJson,
    RigError, VertexBoneMatrix, WeightsJson};
use crate::text::push_decimal;
use crate::utils::index::ascending_set;
use crate::utils::mean::{mean_point, MeanOps};
use crate::scalar::{Division, Signs};

verus! {

/// Why a model cannot be built.
#[derive(Debug, Clone)]
pub enum ModelError {
    Rig(RigError),
    Macrodetails(MacrodetailsError),
    Config(String),
}

#[derive(Debug, Clone, Copy, PartialEq, Eq, Structural)]
pub enum SkinningMethod {
    /// Linear blend skinning.
    Lbs,
    /// Dual-quaternion skinning.
    Dqs,
}

#[derive(Debug, Clone, Copy, PartialEq, Eq, Structural)]
pub enum Rig {
    /// The full default rig.
    Default,
}

/// Which faces the mesh has.
#[derive(Debug, Clone, Copy, PartialEq, Eq, Structural)]
pub enum Topology {
    /// The genital region is replaced by cap quads.
    Default,
    /// The faces of the base mesh as they are.
    Makehuman,
}

impl Rig {
    /// The file of the bones, below the data directory.
    pub fn rig_filename(self) -> (r: &'static str)
        ensures
            r@ == "mpfb2/rigs/standard/rig.default.json"@,
    {
        match self {
            Rig::Default => "mpfb2/rigs/standard/rig.default.json",
        }
    }

    /// The file of the skinning weights, below the data directory.
    pub fn weights_filename(self) -> (r: &'static str)
        ensures
            r@ == "mpfb2/rigs/standard/weights.default.json"@,
    {
        match self {
            Rig::Default => "mpfb2/rigs/standard/weights.default.json",
        }
    }
}

/// What a model is to be built from.
#[derive(Debug, Clone)]
pub struct ModelOptions {
    pub rig: Rig,
    pub include_eyes: bool,
    pub include_tongue: bool,
    /// Bones to take out of the hierarchy, in this order.
    pub bones_to_remove: Vec<String>,
    pub topology: Topology,
    /// Where given, one flag for each face: whether it is kept.
    pub faces_to_keep: Option<Vec<bool>>,
    /// Whether vertices that no kept face uses are dropped.
    pub remove_unattached_vertices: bool,
    pub default_pose_parameterization: PoseParameterization,
    pub skinning_method: SkinningMethod,
    pub extrapolate_phenotypes: bool,
    pub all_phenotypes: bool,
    /// Whether the local changes hold the `genitals` category.
    pub include_genital_morphs: bool,
}

impl ModelOptions {
    /// The default rig on the raw mesh, with nothing removed.
    pub fn new() -> (r: Self)
        ensures
            r.rig == Rig::Default,
            !r.include_eyes,
            !r.include_tongue,
            r.bones_to_remove@.len() == 0,
            r.topology == Topology::Makehuman,
            r.faces_to_keep is None,
            !r.remove_unattached_vertices,
            r.default_pose_parameterization == PoseParameterization::RootRelativeWorld,
            r.skinning_method == SkinningMethod::Lbs,
            !r.extrapolate_phenotypes,
            !r.all_phenotypes,
            !r.include_genital_morphs,
    {
        ModelOptions {
            rig: Rig::Default,
            include_eyes: false,
            include_tongue: false,
            bones_to_remove: Vec::new(),
            topology: Topology::Makehuman,
            faces_to_keep: None,
            remove_unattached_vertices: false,
            default_pose_parameterization: PoseParameterization::RootRelativeWorld,
            skinning_method: SkinningMethod::Lbs,
            extrapolate_phenotypes: false,
            all_phenotypes: false,
            include_genital_morphs: false,
        }
    }
}

// ---------------------------------------------------------------------------
// Faces
// ---------------------------------------------------------------------------

/// Faces and, for each, the texture coordinates of its corners.
#[derive(Debug, Clone)]
pub struct Faces {
    pub vertices: Vec<Vec<u32>>,
    pub texture: Vec<Vec<u32>>,
}

impl Faces {
    pub open spec fn vertex_rows(&self) -> Seq<Seq<u32>> {
        crate::data::obj::rows(self.vertices@)
    }

    pub open spec fn texture_rows(&self) -> Seq<Seq<u32>> {
        crate::data::obj::rows(self.texture@)
    }
}

/// The faces of the named group; none where the mesh does not have it.
pub open spec fn group_vertex_rows<S>(mesh: ObjMesh<S>, name: Seq<char>) -> Seq<Seq<u32>> {
    match mesh.group_at(name) {
        Some(i) => crate::data::obj::rows(mesh.groups@[i].1.face_vertex_indices@),
        None => Seq::empty(),
    }
}

pub open spec fn group_texture_rows<S>(mesh: ObjMesh<S>, name: Seq<char>) -> Seq<Seq<u32>> {
    match mesh.group_at(name) {
        Some(i) => crate::data::obj::rows(mesh.groups@[i].1.face_texture_coordinate_indices@),
        None => Seq::empty(),
    }
}

/// The faces of the body, then those of the eyes and of the tongue as wanted.
pub open spec fn body_rows(
    of: spec_fn(Seq<char>) -> Seq<Seq<u32>>,
    eyes: bool,
    tongue: bool,
) -> Seq<Seq<u32>> {
    of("body"@) + (if eyes {
        of("helper-l-eye"@) + of("helper-r-eye"@)
    } else {
        Seq::empty()
    }) + (if tongue {
        of("helper-tongue"@)
    } else {
        Seq::empty()
    })
}

/// Copies lists onto the end of other lists.
fn append_rows(to: &mut Vec<Vec<u32>>, from: &Vec<Vec<u32>>)
    ensures
        crate::data::obj::rows(final(to)@) =~= crate::data::obj::rows(old(to)@)
            + crate::data::obj::rows(from@),
{
    for i in 0..from.len()
        invariant
            crate::data::obj::rows(to@) =~= crate::data::obj::rows(old(to)@)
                + crate::data::obj::rows(from@).take(i as int),
    {
        let row = from[i].clone();
        proof {
            assert(row@ =~= from@[i as int]@);
            assert(crate::data::obj::rows(from@).take(i + 1) =~= crate::data::obj::rows(
                from@,
            ).take(i as int).push(from@[i as int]@));
        }
        let ghost before = to@;
        to.push(row);
        assert(crate::data::obj::rows(to@) =~= crate::data::obj::rows(before).push(row@));
    }
    assert(crate::data::obj::rows(from@).take(from@.len() as int) =~= crate::data::obj::rows(
        from@,
    ));
}

fn append_group<S>(faces: &mut Faces, mesh: &ObjMesh<S>, name: &str)
    ensures
        final(faces).vertex_rows() =~= old(faces).vertex_rows() + group_vertex_rows(*mesh, name@),
        final(faces).texture_rows() =~= old(faces).texture_rows() + group_texture_rows(
            *mesh,
            name@,
        ),
{
    match mesh.group(name) {
        Some(g) => {
            append_rows(&mut faces.vertices, &g.face_vertex_indices);
            append_rows(&mut faces.texture, &g.face_texture_coordinate_indices);
        },
        None => {},
    }
}

/// The faces of the body, and of the eyes and the tongue as wanted. Only the
/// body has to be there.
pub fn collect_body_faces<S>(mesh: &ObjMesh<S>, eyes: bool, tongue: bool) -> (r: Result<
    Faces,
    ModelError,
>)
    ensures
        match r {
            Ok(faces) => {
                &&& mesh.group_at("body"@) is Some
                &&& faces.vertex_rows() =~= body_rows(
                    |name: Seq<char>| group_vertex_rows(*mesh, name),
                    eyes,
                    tongue,
                )
                &&& faces.texture_rows() =~= body_rows(
                    |name: Seq<char>| group_texture_rows(*mesh, name),
                    eyes,
                    tongue,
                )
            },
            Err(e) => {
                &&& mesh.group_at("body"@) is None
                &&& e is Config
                &&& e->Config_0@ == "base mesh has no 'body' group"@
            },
        },
{
    if mesh.group("body").is_none() {
        return Err(ModelError::Config("base mesh has no 'body' group".to_owned()));
    }
    let mut faces = Faces { vertices: Vec::new(), texture: Vec::new() };
    append_group(&mut faces, mesh, "body");
    if eyes {
        append_group(&mut faces, mesh, "helper-l-eye");
        append_group(&mut faces, mesh, "helper-r-eye");
    }
    if tongue {
        append_group(&mut faces, mesh, "helper-tongue");
    }
    Ok(faces)
}

/// The vertices of the region that the edited mesh replaces.
pub open spec fn is_discarded(v: u32) -> bool {
    1778 <= v < 1794 || 8450 <= v < 8466
}

pub open spec fn face_discarded(face: Seq<u32>) -> bool {
    exists|k: int| 0 <= k < face.len() && is_discarded(#[trigger] face[k])
}

/// Of `rows`, those whose face in `faces` is not discarded.
pub open spec fn undiscarded(faces: Seq<Seq<u32>>, rows: Seq<Seq<u32>>, n: nat) -> Seq<Seq<u32>>
    decreases n,
{
    if n == 0 {
        Seq::empty()
    } else if face_discarded(faces[n - 1]) {
        undiscarded(faces, rows, (n - 1) as nat)
    } else {
        undiscarded(faces, rows, (n - 1) as nat).push(rows[n - 1])
    }
}

/// Vertex and texture coordinate of each corner, as far as both lists go.
pub open spec fn corner_pairs(face: Seq<u32>, texture: Seq<u32>) -> Seq<(u32, u32)> {
    Seq::new(
        if face.len() <= texture.len() {
            face.len()
        } else {
            texture.len()
        },
        |k: int| (face[k], texture[k]),
    )
}

/// Vertex and texture coordinate of the corners of the discarded faces.
pub open spec fn discarded_pairs(faces: Seq<Seq<u32>>, texture: Seq<Seq<u32>>, n: nat) -> Seq<
    (u32, u32),
>
    decreases n,
{
    if n == 0 {
        Seq::empty()
    } else if face_discarded(faces[n - 1]) {
        discarded_pairs(faces, texture, (n - 1) as nat) + corner_pairs(
            faces[n - 1],
            texture[n - 1],
        )
    } else {
        discarded_pairs(faces, texture, (n - 1) as nat)
    }
}

/// The first texture coordinate that the pairs give vertex `v`.
pub open spec fn texture_of(pairs: Seq<(u32, u32)>, v: u32) -> Option<u32>
    decreases pairs.len(),
{
    if pairs.len() == 0 {
        None
    } else {
        match texture_of(pairs.drop_last(), v) {
            Some(t) => Some(t),
            None => if pairs.last().0 == v {
                Some(pairs.last().1)
            } else {
                None
            },
        }
    }
}

/// Pair `i` gives its vertex another texture coordinate than an earlier pair.
pub open spec fn conflicts(pairs: Seq<(u32, u32)>, i: int) -> bool {
    let earlier = texture_of(pairs.take(i), pairs[i].0);
    earlier is Some && earlier->0 != pairs[i].1
}

pub open spec fn conflict_text(v: u32, earlier: u32, later: u32) -> Seq<char> {
    "vertex "@ + crate::text::decimal(v as nat) + " has inconsistent texture coordinates "@
        + crate::text::decimal(earlier as nat) + " vs "@ + crate::text::decimal(later as nat)
}

/// The quads that close the gaps: seven on the left, seven on the right.
pub open spec fn cap_quads() -> Seq<Seq<u32>> {
    seq![
        seq![8437u32, 8438, 8439, 8440],
        seq![8436u32, 8437, 8440, 8441],
        seq![8435u32, 8436, 8441, 8442],
        seq![8434u32, 8435, 8442, 8443],
        seq![8449u32, 8434, 8443, 8444],
        seq![8448u32, 8449, 8444, 8445],
        seq![8447u32, 8448, 8445, 8446],
        seq![1762u32, 1771, 1770, 1763],
        seq![1763u32, 1770, 1769, 1764],
        seq![1764u32, 1769, 1768, 1765],
        seq![1765u32, 1768, 1767, 1766],
        seq![1762u32, 1777, 1772, 1771],
        seq![1777u32, 1776, 1773, 1772],
        seq![1776u32, 1775, 1774, 1773],
    ]
}

pub open spec fn cap_texture(pairs: Seq<(u32, u32)>) -> Seq<Seq<u32>> {
    cap_quads().map_values(
        |quad: Seq<u32>| quad.map_values(|v: u32| texture_of(pairs, v)->0),
    )
}

/// Every corner of a cap has a texture coordinate.
pub open spec fn caps_covered(pairs: Seq<(u32, u32)>) -> bool {
    forall|q: int, k: int|
        0 <= q < cap_quads().len() && 0 <= k < cap_quads()[q].len() ==> texture_of(
            pairs,
            #[trigger] cap_quads()[q][k],
        ) is Some
}

proof fn lemma_texture_prefix(pairs: Seq<(u32, u32)>, n: int, v: u32)
    requires
        0 <= n <= pairs.len(),
        texture_of(pairs.take(n), v) is Some,
    ensures
        texture_of(pairs, v) == texture_of(pairs.take(n), v),
    decreases pairs.len() - n,
{
    if n < pairs.len() {
        assert(pairs.take(n + 1).drop_last() == pairs.take(n));
        lemma_texture_prefix(pairs, n + 1, v);
    } else {
        assert(pairs.take(n) == pairs);
    }
}

fn find_texture(pairs: &Vec<(u32, u32)>, v: u32) -> (r: Option<u32>)
    ensures
        r == texture_of(pairs@, v),
{
    let mut i: usize = 0;
    assert(texture_of(pairs@.take(0), v) is None);
    while i < pairs.len()
        invariant
            i <= pairs@.len(),
            texture_of(pairs@.take(i as int), v) is None,
        decreases pairs.len() - i,
    {
        let (vertex, texture) = pairs[i];
        proof {
            assert(pairs@.take(i + 1).drop_last() == pairs@.take(i as int));
            assert(pairs@.take(i + 1).last() == pairs@[i as int]);
        }
        if vertex == v {
            proof {
                lemma_texture_prefix(pairs@, i + 1, v);
            }
            return Some(texture);
        }
        i = i + 1;
    }
    assert(pairs@.take(pairs@.len() as int) == pairs@);
    None
}

fn discards(face: &Vec<u32>) -> (r: bool)
    ensures
        r == face_discarded(face@),
{
    for k in 0..face.len()
        invariant
            forall|j: int| 0 <= j < k ==> !is_discarded(#[trigger] face@[j]),
    {
        let v: u32 = face[k];
        if (1778 <= v && v < 1794) || (8450 <= v && v < 8466) {
            assert(is_discarded(face@[k as int]));
            return true;
        }
    }
    false
}

fn quad(a: u32, b: u32, c: u32, d: u32) -> (r: Vec<u32>)
    ensures
        r@ == seq![a, b, c, d],
{
    let r: Vec<u32> = vec![a, b, c, d];
    assert(r@ =~= seq![a, b, c, d]);
    r
}

fn cap_table() -> (r: Vec<Vec<u32>>)
    ensures
        crate::data::obj::rows(r@) == cap_quads(),
{
    let mut r: Vec<Vec<u32>> = Vec::new();
    r.push(quad(8437, 8438, 8439, 8440));
    r.push(quad(8436, 8437, 8440, 8441));
    r.push(quad(8435, 8436, 8441, 8442));
    r.push(quad(8434, 8435, 8442, 8443));
    r.push(quad(8449, 8434, 8443, 8444));
    r.push(quad(8448, 8449, 8444, 8445));
    r.push(quad(8447, 8448, 8445, 8446));
    r.push(quad(1762, 1771, 1770, 1763));
    r.push(quad(1763, 1770, 1769, 1764));
    r.push(quad(1764, 1769, 1768, 1765));
    r.push(quad(1765, 1768, 1767, 1766));
    r.push(quad(1762, 1777, 1772, 1771));
    r.push(quad(1777, 1776, 1773, 1772));
    r.push(quad(1776, 1775, 1774, 1773));
    assert(crate::data::obj::rows(r@) =~= cap_quads());
    r
}

fn conflict_message(v: u32, earlier: u32, later: u32) -> (r: String)
    ensures
        r@ == conflict_text(v, earlier, later),
{
    let mut msg = "vertex ".to_owned();
    push_decimal(&mut msg, v as u64);
    msg.append(" has inconsistent texture coordinates ");
    push_decimal(&mut msg, earlier as u64);
    msg.append(" vs ");
    push_decimal(&mut msg, later as u64);
    msg
}

/// Adds the corners of a discarded face to the pairs; the position of the
/// first one that conflicts with an earlier pair comes back.
fn add_corners(pairs: &mut Vec<(u32, u32)>, face: &Vec<u32>, texture: &Vec<u32>) -> (r: Option<
    (u32, u32, u32),
>)
    requires
        forall|i: int| 0 <= i < old(pairs)@.len() ==> !#[trigger] conflicts(old(pairs)@, i),
    ensures
        ({
            let all = old(pairs)@ + corner_pairs(face@, texture@);
            match r {
                None => final(pairs)@ == all && forall|i: int|
                    0 <= i < all.len() ==> !#[trigger] conflicts(all, i),
                Some((v, earlier, later)) => exists|i: int|
                    {
                        &&& 0 <= i < all.len()
                        &&& #[trigger] conflicts(all, i)
                        &&& forall|j: int| 0 <= j < i ==> !#[trigger] conflicts(all, j)
                        &&& v == all[i].0
                        &&& texture_of(all.take(i), v) == Some(earlier)
                        &&& later == all[i].1
                    },
            }
        }),
{
    let ghost start = pairs@.len() as int;
    let ghost before = pairs@;
    let ghost corners = corner_pairs(face@, texture@);
    let ghost all = before + corners;
    let n: usize = if face.len() <= texture.len() {
        face.len()
    } else {
        texture.len()
    };
    proof {
        assert(pairs@ == all.take(start));
        assert forall|i: int| 0 <= i < start implies !#[trigger] conflicts(all, i) by {
            assert(!conflicts(before, i));
            assert(all.take(i) == before.take(i));
        }
    }
    for k in 0..n
        invariant
            before == old(pairs)@,
            n == corners.len(),
            corners == corner_pairs(face@, texture@),
            all == before + corners,
            start == before.len(),
            pairs@ == all.take(start + k),
            forall|i: int| 0 <= i < start + k ==> !#[trigger] conflicts(all, i),
    {
        let v: u32 = face[k];
        let t: u32 = texture[k];
        assert(all[start + k] == (v, t));
        if let Some(earlier) = find_texture(pairs, v) {
            if earlier != t {
                assert(conflicts(all, start + k));
                return Some((v, earlier, t));
            }
        }
        assert(!conflicts(all, start + k));
        pairs.push((v, t));
        assert(pairs@ == all.take(start + k + 1));
    }
    assert(all.take(start + n) == all);
    None
}

/// Replaces the faces that touch the discarded region by the cap quads. A cap
/// corner takes the texture coordinate that its vertex has in the discarded
/// faces; it is an error if they give a vertex two of them. Kept faces come
/// first, then the caps on the left, then those on the right.
pub fn get_edited_mesh_faces(faces: &Vec<Vec<u32>>, face_tex_indices: &Vec<Vec<u32>>) -> (r: Result<
    (Vec<Vec<u32>>, Vec<Vec<u32>>),
    ModelError,
>)
    requires
        faces@.len() <= face_tex_indices@.len(),
        ({
            let pairs = discarded_pairs(
                crate::data::obj::rows(faces@),
                crate::data::obj::rows(face_tex_indices@),
                faces@.len(),
            );
            (forall|i: int| 0 <= i < pairs.len() ==> !#[trigger] conflicts(pairs, i))
                ==> caps_covered(pairs)
        }),
    ensures
        ({
            let fs = crate::data::obj::rows(faces@);
            let ts = crate::data::obj::rows(face_tex_indices@);
            let pairs = discarded_pairs(fs, ts, faces@.len());
            match r {
                Ok((vertices, texture)) => {
                    &&& forall|i: int| 0 <= i < pairs.len() ==> !#[trigger] conflicts(pairs, i)
                    &&& crate::data::obj::rows(vertices@) =~= undiscarded(fs, fs, faces@.len())
                        + cap_quads()
                    &&& crate::data::obj::rows(texture@) =~= undiscarded(fs, ts, faces@.len())
                        + cap_texture(pairs)
                },
                Err(e) => exists|i: int|
                    {
                        &&& 0 <= i < pairs.len()
                        &&& #[trigger] conflicts(pairs, i)
                        &&& forall|j: int| 0 <= j < i ==> !#[trigger] conflicts(pairs, j)
                        &&& e is Config
                        &&& e->Config_0@ == conflict_text(
                            pairs[i].0,
                            texture_of(pairs.take(i), pairs[i].0)->0,
                            pairs[i].1,
                        )
                    },
            }
        }),
{
    let ghost fs = crate::data::obj::rows(faces@);
    let ghost ts = crate::data::obj::rows(face_tex_indices@);
    let n: usize = faces.len();
    let mut vertices: Vec<Vec<u32>> = Vec::new();
    let mut texture: Vec<Vec<u32>> = Vec::new();
    let mut pairs: Vec<(u32, u32)> = Vec::new();
    for i in 0..n
        invariant
            n == faces@.len(),
            n <= face_tex_indices@.len(),
            fs == crate::data::obj::rows(faces@),
            ts == crate::data::obj::rows(face_tex_indices@),
            crate::data::obj::rows(vertices@) =~= undiscarded(fs, fs, i as nat),
            crate::data::obj::rows(texture@) =~= undiscarded(fs, ts, i as nat),
            pairs@ == discarded_pairs(fs, ts, i as nat),
            forall|j: int| 0 <= j < pairs@.len() ==> !#[trigger] conflicts(pairs@, j),
    {
        assert(fs[i as int] == faces@[i as int]@);
        assert(ts[i as int] == face_tex_indices@[i as int]@);
        let ghost pairs0 = pairs@;
        if discards(&faces[i]) {
            if let Some((v, earlier, later)) = add_corners(
                &mut pairs,
                &faces[i],
                &face_tex_indices[i],
            ) {
                let msg = conflict_message(v, earlier, later);
                proof {
                    let upto = discarded_pairs(fs, ts, (i + 1) as nat);
                    assert(upto == pairs0 + corner_pairs(fs[i as int], ts[i as int]));
                    let k = choose|k: int|
                        {
                            &&& 0 <= k < upto.len()
                            &&& #[trigger] conflicts(upto, k)
                            &&& forall|j: int| 0 <= j < k ==> !#[trigger] conflicts(upto, j)
                            &&& v == upto[k].0
                            &&& texture_of(upto.take(k), v) == Some(earlier)
                            &&& later == upto[k].1
                        };
                    lemma_conflict_stays(fs, ts, (i + 1) as nat, n as nat, k);
                    let all = discarded_pairs(fs, ts, n as nat);
                    assert(conflicts(all, k));
                    assert forall|j: int| 0 <= j < k implies !#[trigger] conflicts(all, j) by {
                        assert(!conflicts(upto, j));
                    }
                }
                return Err(ModelError::Config(msg));
            }
        } else {
            let ghost v0 = vertices@;
            let ghost t0 = texture@;
            let row = faces[i].clone();
            let tex_row = face_tex_indices[i].clone();
            proof {
                assert(row@ =~= faces@[i as int]@);
                assert(tex_row@ =~= face_tex_indices@[i as int]@);
            }
            vertices.push(row);
            texture.push(tex_row);
            proof {
                assert(crate::data::obj::rows(vertices@) =~= crate::data::obj::rows(v0).push(
                    fs[i as int],
                ));
                assert(crate::data::obj::rows(texture@) =~= crate::data::obj::rows(t0).push(
                    ts[i as int],
                ));
            }
        }
    }
    let caps = cap_table();
    let ghost kept_vertices = undiscarded(fs, fs, n as nat);
    let ghost kept_texture = undiscarded(fs, ts, n as nat);
    let ghost want = cap_texture(pairs@);
    let cap_count: usize = caps.len();
    proof {
        assert(crate::data::obj::rows(caps@).len() == cap_quads().len());
        assert(kept_vertices =~= kept_vertices + cap_quads().take(0));
        assert(kept_texture =~= kept_texture + want.take(0));
    }
    for q in 0..cap_count
        invariant
            cap_count == caps@.len(),
            crate::data::obj::rows(caps@) == cap_quads(),
            caps_covered(pairs@),
            want == cap_texture(pairs@),
            crate::data::obj::rows(vertices@) =~= kept_vertices + cap_quads().take(q as int),
            crate::data::obj::rows(texture@) =~= kept_texture + want.take(q as int),
    {
        let ghost cap = cap_quads()[q as int];
        assert(cap == crate::data::obj::rows(caps@)[q as int]);
        assert(cap == caps@[q as int]@);
        let width: usize = caps[q].len();
        let mut tex_row: Vec<u32> = Vec::new();
        for k in 0..width
            invariant
                q < cap_count,
                cap_count == caps@.len(),
                cap_count == cap_quads().len(),
                width == caps@[q as int]@.len(),
                cap == caps@[q as int]@,
                cap == cap_quads()[q as int],
                caps_covered(pairs@),
                tex_row@.len() == k,
                forall|j: int|
                    0 <= j < k ==> #[trigger] tex_row@[j] == texture_of(pairs@, cap[j])->0,
        {
            assert(texture_of(pairs@, cap_quads()[q as int][k as int]) is Some);
            let t: u32 = match find_texture(&pairs, caps[q][k]) {
                Some(t) => t,
                None => 0,
            };
            tex_row.push(t);
        }
        let row = caps[q].clone();
        let ghost v0 = vertices@;
        let ghost t0 = texture@;
        proof {
            assert(row@ =~= cap);
            assert(tex_row@ =~= want[q as int]);
        }
        vertices.push(row);
        texture.push(tex_row);
        proof {
            assert(crate::data::obj::rows(vertices@) =~= crate::data::obj::rows(v0).push(cap));
            assert(crate::data::obj::rows(texture@) =~= crate::data::obj::rows(t0).push(
                want[q as int],
            ));
            assert(cap_quads().take(q + 1) =~= cap_quads().take(q as int).push(cap));
            assert(want.take(q + 1) =~= want.take(q as int).push(want[q as int]));
        }
    }
    proof {
        assert(cap_quads().take(cap_count as int) =~= cap_quads());
        assert(want.take(cap_count as int) =~= want);
    }
    Ok((vertices, texture))
}

/// A conflict among the corners of the first faces is one among all.
proof fn lemma_conflict_stays(
    faces: Seq<Seq<u32>>,
    texture: Seq<Seq<u32>>,
    n: nat,
    end: nat,
    i: int,
)
    requires
        n <= end,
        0 <= i < discarded_pairs(faces, texture, n).len(),
    ensures
        i < discarded_pairs(faces, texture, end).len(),
        discarded_pairs(faces, texture, end)[i] == discarded_pairs(faces, texture, n)[i],
        discarded_pairs(faces, texture, end).take(i) == discarded_pairs(faces, texture, n).take(
            i,
        ),
        forall|j: int|
            0 <= j <= i ==> #[trigger] conflicts(discarded_pairs(faces, texture, end), j)
                == conflicts(discarded_pairs(faces, texture, n), j),
    decreases end,
{
    if n < end {
        lemma_conflict_stays(faces, texture, n, (end - 1) as nat, i);
        let before = discarded_pairs(faces, texture, (end - 1) as nat);
        let all = discarded_pairs(faces, texture, end);
        assert(all.take(i) =~= before.take(i));
        assert forall|j: int| 0 <= j <= i implies #[trigger] conflicts(all, j) == conflicts(
            discarded_pairs(faces, texture, n),
            j,
        ) by {
            assert(all.take(j) =~= before.take(j));
            assert(conflicts(all, j) == conflicts(before, j));
        }
    }
}

/// Of `rows`, those that the mask keeps.
pub open spec fn masked(rows: Seq<Seq<u32>>, mask: Seq<bool>, n: nat) -> Seq<Seq<u32>>
    decreases n,
{
    if n == 0 {
        Seq::empty()
    } else if mask[n - 1] {
        masked(rows, mask, (n - 1) as nat).push(rows[n - 1])
    } else {
        masked(rows, mask, (n - 1) as nat)
    }
}

pub open spec fn mask_length_text(mask: nat, faces: nat) -> Seq<char> {
    "faces_to_keep length "@ + crate::text::decimal(mask) + " ≠ face count "@
        + crate::text::decimal(faces)
}

/// Keeps the faces whose flag is set. There has to be one flag for each face.
pub fn keep_faces(faces: &Faces, mask: &Vec<bool>) -> (r: Result<Faces, ModelError>)
    requires
        faces.vertices@.len() <= faces.texture@.len(),
    ensures
        match r {
            Ok(kept) => {
                &&& mask@.len() == faces.vertices@.len()
                &&& kept.vertex_rows() =~= masked(faces.vertex_rows(), mask@, mask@.len())
                &&& kept.texture_rows() =~= masked(faces.texture_rows(), mask@, mask@.len())
            },
            Err(e) => {
                &&& mask@.len() != faces.vertices@.len()
                &&& e is Config
                &&& e->Config_0@ == mask_length_text(mask@.len(), faces.vertices@.len())
            },
        },
{
    let n: usize = mask.len();
    if n != faces.vertices.len() {
        let mut msg = "faces_to_keep length ".to_owned();
        push_decimal(&mut msg, n as u64);
        msg.append(" ≠ face count ");
        push_decimal(&mut msg, faces.vertices.len() as u64);
        return Err(ModelError::Config(msg));
    }
    let mut vertices: Vec<Vec<u32>> = Vec::new();
    let mut texture: Vec<Vec<u32>> = Vec::new();
    let ghost fs = faces.vertex_rows();
    let ghost ts = faces.texture_rows();
    for i in 0..n
        invariant
            n == mask@.len(),
            n == faces.vertices@.len(),
            n <= faces.texture@.len(),
            fs == faces.vertex_rows(),
            ts == faces.texture_rows(),
            crate::data::obj::rows(vertices@) =~= masked(fs, mask@, i as nat),
            crate::data::obj::rows(texture@) =~= masked(ts, mask@, i as nat),
    {
        if mask[i] {
            let ghost v0 = vertices@;
            let ghost t0 = texture@;
            let row = faces.vertices[i].clone();
            let tex_row = faces.texture[i].clone();
            proof {
                assert(row@ =~= fs[i as int]);
                assert(tex_row@ =~= ts[i as int]);
            }
            vertices.push(row);
            texture.push(tex_row);
            proof {
                assert(crate::data::obj::rows(vertices@) =~= crate::data::obj::rows(v0).push(
                    fs[i as int],
                ));
                assert(crate::data::obj::rows(texture@) =~= crate::data::obj::rows(t0).push(
                    ts[i as int],
                ));
            }
        }
    }
    Ok(Faces { vertices, texture })
}

/// The faces of a mesh before the mask of the options is applied.
pub open spec fn body_faces<S>(opts: ModelOptions, mesh: ObjMesh<S>) -> (
    Seq<Seq<u32>>,
    Seq<Seq<u32>>,
) {
    let fs = body_rows(
        |name: Seq<char>| group_vertex_rows(mesh, name),
        opts.include_eyes,
        opts.include_tongue,
    );
    let ts = body_rows(
        |name: Seq<char>| group_texture_rows(mesh, name),
        opts.include_eyes,
        opts.include_tongue,
    );
    if opts.topology == Topology::Default {
        (
            undiscarded(fs, fs, fs.len()) + cap_quads(),
            undiscarded(fs, ts, fs.len()) + cap_texture(discarded_pairs(fs, ts, fs.len())),
        )
    } else {
        (fs, ts)
    }
}

/// The corners of the body faces that the edited topology discards.
pub open spec fn body_pairs<S>(opts: ModelOptions, mesh: ObjMesh<S>) -> Seq<(u32, u32)> {
    let fs = body_rows(
        |name: Seq<char>| group_vertex_rows(mesh, name),
        opts.include_eyes,
        opts.include_tongue,
    );
    let ts = body_rows(
        |name: Seq<char>| group_texture_rows(mesh, name),
        opts.include_eyes,
        opts.include_tongue,
    );
    discarded_pairs(fs, ts, fs.len())
}

/// Every group lists texture coordinates for each of its faces.
pub open spec fn textured<S>(mesh: ObjMesh<S>) -> bool {
    forall|i: int|
        0 <= i < mesh.groups@.len() ==> (#[trigger] mesh.groups@[i]).1.face_vertex_indices@.len()
            == mesh.groups@[i].1.face_texture_coordinate_indices@.len()
}

/// A mesh that was read lists texture coordinates for each face.
pub proof fn law_read_mesh_textured(mesh: ObjMesh<String>, m: crate::data::obj::ObjModel)
    requires
        crate::data::obj::mesh_is(mesh, m),
    ensures
        textured(mesh),
{
    assert forall|i: int| 0 <= i < mesh.groups@.len() implies (
    #[trigger] mesh.groups@[i]).1.face_vertex_indices@.len()
        == mesh.groups@[i].1.face_texture_coordinate_indices@.len() by {
        let name = crate::data::obj::group_names(m.faces)[i];
        let faces = crate::data::obj::group_faces(m.faces, name);
        assert(crate::data::obj::group_is(mesh.groups@[i].1, faces));
        assert(crate::data::obj::rows(mesh.groups@[i].1.face_vertex_indices@).len()
            == crate::data::obj::vertex_rows(faces).len());
        assert(crate::data::obj::rows(mesh.groups@[i].1.face_texture_coordinate_indices@).len()
            == crate::data::obj::texture_rows(faces).len());
    }
}

/// Where the edited topology is wanted of a mesh with a body, and no vertex of
/// the discarded faces has two texture coordinates, they give one to every
/// corner of the caps.
pub open spec fn caps_known<S>(opts: ModelOptions, mesh: ObjMesh<S>) -> bool {
    mesh.group_at("body"@) is Some && opts.topology == Topology::Default ==> {
        let pairs = body_pairs(opts, mesh);
        (forall|i: int| 0 <= i < pairs.len() ==> !#[trigger] conflicts(pairs, i)) ==> caps_covered(
            pairs,
        )
    }
}

proof fn lemma_masked_within(rows: Seq<Seq<u32>>, mask: Seq<bool>, m: nat, n: int)
    requires
        crate::models::rig::all_below(rows, n),
        m <= rows.len(),
    ensures
        crate::models::rig::all_below(masked(rows, mask, m), n),
    decreases m,
{
    if m > 0 {
        lemma_masked_within(rows, mask, (m - 1) as nat, n);
        let before = masked(rows, mask, (m - 1) as nat);
        let now = masked(rows, mask, m);
        assert forall|b: int, k: int| 0 <= b < now.len() && 0 <= k < now[b].len() implies
            #[trigger] now[b][k] < n by {
            if b < before.len() {
                assert(now[b] == before[b]);
                assert(before[b][k] < n);
            } else {
                assert(now[b] == rows[m - 1]);
                assert(rows[m - 1][k] < n);
            }
        }
    }
}

/// The selected faces name no other vertices than the faces of the body.
pub proof fn lemma_selected_within<S>(
    opts: ModelOptions,
    mesh: ObjMesh<S>,
    faces: Faces,
    n: int,
)
    requires
        selection_outcome(opts, mesh, Ok(faces)),
        crate::models::rig::all_below(body_faces(opts, mesh).0, n),
    ensures
        forall|i: int, k: int|
            0 <= i < faces.vertices@.len() && 0 <= k < faces.vertices@[i]@.len()
                ==> #[trigger] faces.vertices@[i]@[k] < n,
{
    let fs = body_faces(opts, mesh).0;
    if opts.faces_to_keep is Some {
        lemma_masked_within(fs, opts.faces_to_keep->0@, fs.len(), n);
    }
    let rows = faces.vertex_rows();
    assert forall|i: int, k: int|
        0 <= i < faces.vertices@.len() && 0 <= k < faces.vertices@[i]@.len() implies
        #[trigger] faces.vertices@[i]@[k] < n by {
        assert(rows[i] == faces.vertices@[i]@);
        assert(rows[i][k] < n);
    }
}

/// What [`select_faces`] makes of its inputs.
pub open spec fn selection_outcome<S>(
    opts: ModelOptions,
    mesh: ObjMesh<S>,
    r: Result<Faces, ModelError>,
) -> bool {
    let (fs, ts) = body_faces(opts, mesh);
    let pairs = body_pairs(opts, mesh);
    let clash = opts.topology == Topology::Default && exists|i: int|
        0 <= i < pairs.len() && #[trigger] conflicts(pairs, i);
    match r {
        Ok(kept) => {
            &&& mesh.group_at("body"@) is Some
            &&& !clash
            &&& match opts.faces_to_keep {
                None => kept.vertex_rows() =~= fs && kept.texture_rows() =~= ts,
                Some(mask) => mask@.len() == fs.len() && kept.vertex_rows() =~= masked(
                    fs,
                    mask@,
                    fs.len(),
                ) && kept.texture_rows() =~= masked(ts, mask@, fs.len()),
            }
        },
        Err(e) => {
            &&& e is Config
            &&& if mesh.group_at("body"@) is None {
                e->Config_0@ == "base mesh has no 'body' group"@
            } else if clash {
                exists|i: int|
                    {
                        &&& 0 <= i < pairs.len()
                        &&& #[trigger] conflicts(pairs, i)
                        &&& forall|j: int| 0 <= j < i ==> !#[trigger] conflicts(pairs, j)
                        &&& e->Config_0@ == conflict_text(
                            pairs[i].0,
                            texture_of(pairs.take(i), pairs[i].0)->0,
                            pairs[i].1,
                        )
                    }
            } else {
                &&& opts.faces_to_keep is Some
                &&& opts.faces_to_keep->0@.len() != fs.len()
                &&& e->Config_0@ == mask_length_text(
                    opts.faces_to_keep->0@.len(),
                    fs.len(),
                )
            }
        },
    }
}

/// The faces that a model keeps of a mesh: body, eyes and tongue as wanted,
/// edited for the default topology, then masked.
pub fn select_faces<S>(opts: &ModelOptions, mesh: &ObjMesh<S>) -> (r: Result<Faces, ModelError>)
    requires
        textured(*mesh),
        caps_known(*opts, *mesh),
    ensures
        selection_outcome(*opts, *mesh, r),
{
    let mut faces = match collect_body_faces(mesh, opts.include_eyes, opts.include_tongue) {
        Ok(faces) => faces,
        Err(e) => {
            return Err(e);
        },
    };
    proof {
        lemma_textured_rows(*mesh, "body"@);
        lemma_textured_rows(*mesh, "helper-l-eye"@);
        lemma_textured_rows(*mesh, "helper-r-eye"@);
        lemma_textured_rows(*mesh, "helper-tongue"@);
        assert(faces.vertex_rows().len() == faces.texture_rows().len());
        assert(faces.vertices@.len() == faces.texture@.len());
    }
    match opts.topology {
        Topology::Default => match get_edited_mesh_faces(&faces.vertices, &faces.texture) {
            Ok((vertices, texture)) => {
                proof {
                    let fs = faces.vertex_rows();
                    lemma_undiscarded_len(fs, fs, faces.texture_rows(), fs.len());
                    assert(crate::data::obj::rows(vertices@).len() == crate::data::obj::rows(
                        texture@,
                    ).len());
                }
                faces = Faces { vertices, texture };
            },
            Err(e) => {
                return Err(e);
            },
        },
        Topology::Makehuman => {},
    }
    match &opts.faces_to_keep {
        None => Ok(faces),
        Some(mask) => keep_faces(&faces, mask),
    }
}

/// Vertex and texture coordinate of the corners of the discarded faces; `None` where
/// a vertex has two texture coordinates.
fn consistent_pairs(faces: &Vec<Vec<u32>>, texture: &Vec<Vec<u32>>) -> (r: Option<Vec<(u32, u32)>>)
    requires
        faces@.len() <= texture@.len(),
    ensures
        ({
            let pairs = discarded_pairs(
                crate::data::obj::rows(faces@),
                crate::data::obj::rows(texture@),
                faces@.len(),
            );
            match r {
                Some(found) => found@ == pairs && forall|i: int|
                    0 <= i < pairs.len() ==> !#[trigger] conflicts(pairs, i),
                None => exists|i: int| 0 <= i < pairs.len() && #[trigger] conflicts(pairs, i),
            }
        }),
{
    let ghost fs = crate::data::obj::rows(faces@);
    let ghost ts = crate::data::obj::rows(texture@);
    let n: usize = faces.len();
    let mut pairs: Vec<(u32, u32)> = Vec::new();
    for i in 0..n
        invariant
            n == faces@.len(),
            n <= texture@.len(),
            fs == crate::data::obj::rows(faces@),
            ts == crate::data::obj::rows(texture@),
            pairs@ == discarded_pairs(fs, ts, i as nat),
            forall|j: int| 0 <= j < pairs@.len() ==> !#[trigger] conflicts(pairs@, j),
    {
        assert(fs[i as int] == faces@[i as int]@);
        assert(ts[i as int] == texture@[i as int]@);
        let ghost before = pairs@;
        if discards(&faces[i]) {
            if add_corners(&mut pairs, &faces[i], &texture[i]).is_some() {
                proof {
                    let upto = discarded_pairs(fs, ts, (i + 1) as nat);
                    assert(upto == before + corner_pairs(fs[i as int], ts[i as int]));
                    let k = choose|k: int| 0 <= k < upto.len() && #[trigger] conflicts(upto, k);
                    lemma_conflict_stays(fs, ts, (i + 1) as nat, n as nat, k);
                    assert(conflicts(discarded_pairs(fs, ts, n as nat), k));
                }
                return None;
            }
        }
    }
    Some(pairs)
}

/// Whether the pairs give a texture coordinate to every corner of the caps.
fn covers_caps(pairs: &Vec<(u32, u32)>) -> (r: bool)
    ensures
        r == caps_covered(pairs@),
{
    let caps = cap_table();
    assert(crate::data::obj::rows(caps@).len() == cap_quads().len());
    for q in 0..caps.len()
        invariant
            caps@.len() == cap_quads().len(),
            crate::data::obj::rows(caps@) == cap_quads(),
            forall|p: int, k: int|
                0 <= p < q && 0 <= k < cap_quads()[p].len() ==> texture_of(
                    pairs@,
                    #[trigger] cap_quads()[p][k],
                ) is Some,
    {
        assert(crate::data::obj::rows(caps@)[q as int] == caps@[q as int]@);
        let width: usize = caps[q].len();
        for k in 0..width
            invariant
                q < caps@.len(),
                width == caps@[q as int]@.len(),
                caps@.len() == cap_quads().len(),
                cap_quads()[q as int] == caps@[q as int]@,
                forall|j: int|
                    0 <= j < k ==> texture_of(
                        pairs@,
                        #[trigger] cap_quads()[q as int][j],
                    ) is Some,
        {
            if find_texture(pairs, caps[q][k]).is_none() {
                assert(texture_of(pairs@, cap_quads()[q as int][k as int]) is None);
                return false;
            }
        }
    }
    true
}

/// Whether faces can be selected: the edited topology needs a texture coordinate for
/// every corner of the caps, unless the discarded faces give a vertex two of them.
pub fn caps_are_known<S>(opts: &ModelOptions, mesh: &ObjMesh<S>) -> (r: bool)
    requires
        textured(*mesh),
    ensures
        r == caps_known(*opts, *mesh),
{
    match opts.topology {
        Topology::Makehuman => true,
        Topology::Default => match collect_body_faces(
            mesh,
            opts.include_eyes,
            opts.include_tongue,
        ) {
            Err(_) => true,
            Ok(faces) => {
                proof {
                    lemma_textured_rows(*mesh, "body"@);
                    lemma_textured_rows(*mesh, "helper-l-eye"@);
                    lemma_textured_rows(*mesh, "helper-r-eye"@);
                    lemma_textured_rows(*mesh, "helper-tongue"@);
                    assert(faces.vertex_rows().len() == faces.texture_rows().len());
                    assert(faces.vertices@.len() == faces.texture@.len());
                }
                match consistent_pairs(&faces.vertices, &faces.texture) {
                    Some(pairs) => covers_caps(&pairs),
                    None => true,
                }
            },
        },
    }
}

proof fn lemma_textured_rows<S>(mesh: ObjMesh<S>, name: Seq<char>)
    requires
        textured(mesh),
    ensures
        group_vertex_rows(mesh, name).len() == group_texture_rows(mesh, name).len(),
{
    crate::names::lemma_first_at(mesh.names(), name);
    if let Some(i) = mesh.group_at(name) {
        assert(mesh.groups@[i].1.face_vertex_indices@.len()
            == mesh.groups@[i].1.face_texture_coordinate_indices@.len());
    }
}

proof fn lemma_undiscarded_len(
    faces: Seq<Seq<u32>>,
    a: Seq<Seq<u32>>,
    b: Seq<Seq<u32>>,
    n: nat,
)
    ensures
        undiscarded(faces, a, n).len() == undiscarded(faces, b, n).len(),
    decreases n,
{
    if n > 0 {
        lemma_undiscarded_len(faces, a, b, (n - 1) as nat);
    }
}

proof fn lemma_undiscarded_free(faces: Seq<Seq<u32>>, n: nat)
    requires
        n <= faces.len(),
    ensures
        forall|i: int|
            0 <= i < undiscarded(faces, faces, n).len() ==> !face_discarded(
                #[trigger] undiscarded(faces, faces, n)[i],
            ),
    decreases n,
{
    if n > 0 {
        lemma_undiscarded_free(faces, (n - 1) as nat);
        let before = undiscarded(faces, faces, (n - 1) as nat);
        let now = undiscarded(faces, faces, n);
        assert forall|i: int| 0 <= i < now.len() implies !face_discarded(#[trigger] now[i]) by {
            if i < before.len() {
                assert(now[i] == before[i]);
            } else {
                assert(now[i] == faces[n - 1]);
            }
        }
    }
}

proof fn lemma_caps_free(q: int)
    requires
        0 <= q < cap_quads().len(),
    ensures
        !face_discarded(cap_quads()[q]),
        cap_quads()[q].len() == 4,
{
    let quad = cap_quads()[q];
    assert(quad.len() == 4);
    assert(!is_discarded(quad[0]) && !is_discarded(quad[1]) && !is_discarded(quad[2])
        && !is_discarded(quad[3]));
}

/// No face of the edited mesh touches the discarded region, and the edit adds
/// fourteen quads to the faces that it keeps.
pub proof fn law_edited_faces_free(faces: Seq<Seq<u32>>)
    ensures
        cap_quads().len() == 14,
        forall|i: int|
            0 <= i < (undiscarded(faces, faces, faces.len()) + cap_quads()).len()
                ==> !face_discarded(
                #[trigger] (undiscarded(faces, faces, faces.len()) + cap_quads())[i],
            ),
{
    lemma_undiscarded_free(faces, faces.len());
    let kept = undiscarded(faces, faces, faces.len());
    let all = kept + cap_quads();
    assert forall|i: int| 0 <= i < all.len() implies !face_discarded(#[trigger] all[i]) by {
        if i < kept.len() {
            assert(all[i] == kept[i]);
        } else {
            lemma_caps_free(i - kept.len());
        }
    }
}

// ---------------------------------------------------------------------------
// Vertices
// ---------------------------------------------------------------------------

/// A mesh with the vertices that its faces use, and where they came from.
#[derive(Debug, Clone)]
pub struct PrunedMesh<T> {
    pub template_vertices: Vec<[T; 3]>,
    pub vertex_bones: VertexBoneMatrix<T>,
    pub faces: Vec<Vec<u32>>,
    /// The former index of each vertex, ascending.
    pub kept: Vec<u32>,
}

pub(crate) fn copy_row<A: Copy>(row: &Vec<A>) -> (r: Vec<A>)
    ensures
        r@ == row@,
{
    let mut r: Vec<A> = Vec::new();
    for i in 0..row.len()
        invariant
            r@ == row@.take(i as int),
    {
        r.push(row[i]);
        assert(row@.take(i + 1) == row@.take(i as int).push(row@[i as int]));
    }
    assert(row@.take(row@.len() as int) == row@);
    r
}

/// `after` uses the vertices `kept` for what `before` uses the vertices of the
/// larger mesh for.
pub open spec fn renumbered(before: Seq<u32>, after: Seq<u32>, kept: Seq<u32>) -> bool {
    &&& after.len() == before.len()
    &&& forall|k: int|
        0 <= k < after.len() ==> #[trigger] after[k] < kept.len() && kept[after[k] as int]
            == before[k]
}

/// `r` is the mesh without the vertices that no face uses.
pub open spec fn is_pruned<T>(
    template_vertices: Seq<[T; 3]>,
    vertex_bones: VertexBoneMatrix<T>,
    faces: Seq<Vec<u32>>,
    r: PrunedMesh<T>,
) -> bool {
    &&& crate::utils::index::is_ascending_set(r.kept@, faces)
    &&& r.template_vertices@ == r.kept@.map_values(|v: u32| template_vertices[v as int])
    &&& r.vertex_bones.max_bones_per_vertex == vertex_bones.max_bones_per_vertex
    &&& r.vertex_bones.indices@.len() == r.kept@.len()
    &&& r.vertex_bones.weights@.len() == r.kept@.len()
    &&& forall|i: int|
        0 <= i < r.kept@.len() ==> (#[trigger] r.vertex_bones.indices@[i])@
            == vertex_bones.indices@[r.kept@[i] as int]@
    &&& forall|i: int|
        0 <= i < r.kept@.len() ==> (#[trigger] r.vertex_bones.weights@[i])@
            == vertex_bones.weights@[r.kept@[i] as int]@
    &&& r.faces@.len() == faces.len()
    &&& forall|i: int|
        0 <= i < faces.len() ==> renumbered(faces[i]@, (#[trigger] r.faces@[i])@, r.kept@)
}

/// Drops the vertices that no face uses, and renumbers the rest in their
/// order.
pub fn prune_unattached_vertices<T: Copy>(
    template_vertices: &Vec<[T; 3]>,
    vertex_bones: &VertexBoneMatrix<T>,
    faces: &Vec<Vec<u32>>,
) -> (r: PrunedMesh<T>)
    requires
        template_vertices@.len() <= vertex_bones.indices@.len(),
        template_vertices@.len() <= vertex_bones.weights@.len(),
        forall|i: int, k: int|
            0 <= i < faces@.len() && 0 <= k < faces@[i]@.len() ==> #[trigger] faces@[i]@[k]
                < template_vertices@.len(),
    ensures
        is_pruned(template_vertices@, *vertex_bones, faces@, r),
        forall|i: int|
            0 <= i < r.kept@.len() ==> #[trigger] r.kept@[i] < template_vertices@.len(),
{
    let n: usize = template_vertices.len();
    let kept = ascending_set(faces);
    let m: usize = kept.len();
    proof {
        assert forall|i: int| 0 <= i < m implies #[trigger] kept@[i] < n by {
            assert(kept@.contains(kept@[i]));
            let (a, b) = choose|a: int, b: int|
                0 <= a < faces@.len() && 0 <= b < faces@[a]@.len() && #[trigger] faces@[a]@[b]
                    == kept@[i];
            assert(faces@[a]@[b] < n);
        }
        lemma_ascending_bound(kept@);
    }
    let mut new_index: Vec<u32> = Vec::new();
    for v in 0..n
        invariant
            new_index@.len() == v,
    {
        new_index.push(0);
    }
    let mut template: Vec<[T; 3]> = Vec::new();
    let mut indices: Vec<Vec<u32>> = Vec::new();
    let mut weights: Vec<Vec<T>> = Vec::new();
    for i in 0..m
        invariant
            m == kept@.len(),
            m <= 0x1_0000_0000,
            n == template_vertices@.len(),
            n <= vertex_bones.indices@.len(),
            n <= vertex_bones.weights@.len(),
            new_index@.len() == n,
            crate::utils::index::strictly_ascending(kept@),
            forall|j: int| 0 <= j < m ==> #[trigger] kept@[j] < n,
            template@.len() == i,
            indices@.len() == i,
            weights@.len() == i,
            forall|j: int| 0 <= j < i ==> #[trigger] new_index@[kept@[j] as int] == j,
            forall|j: int|
                0 <= j < i ==> #[trigger] template@[j] == template_vertices@[kept@[j] as int],
            forall|j: int|
                0 <= j < i ==> (#[trigger] indices@[j])@
                    == vertex_bones.indices@[kept@[j] as int]@,
            forall|j: int|
                0 <= j < i ==> (#[trigger] weights@[j])@
                    == vertex_bones.weights@[kept@[j] as int]@,
    {
        let v: usize = kept[i] as usize;
        assert(kept@[i as int] < n);
        let ghost before = new_index@;
        new_index[v] = i as u32;
        proof {
            assert forall|j: int| 0 <= j < i + 1 implies #[trigger] new_index@[kept@[j] as int]
                == j by {
                if j < i {
                    assert(kept@[j] < kept@[i as int]);
                    assert(before[kept@[j] as int] == j);
                }
            }
        }
        template.push(template_vertices[v]);
        indices.push(copy_row(&vertex_bones.indices[v]));
        weights.push(copy_row(&vertex_bones.weights[v]));
    }
    let mut new_faces: Vec<Vec<u32>> = Vec::new();
    let face_count: usize = faces.len();
    for f in 0..face_count
        invariant
            face_count == faces@.len(),
            n == template_vertices@.len(),
            m == kept@.len(),
            new_index@.len() == n,
            crate::utils::index::is_ascending_set(kept@, faces@),
            forall|i: int, k: int|
                0 <= i < faces@.len() && 0 <= k < faces@[i]@.len() ==> #[trigger] faces@[i]@[k] < n,
            forall|j: int| 0 <= j < m ==> #[trigger] new_index@[kept@[j] as int] == j,
            new_faces@.len() == f,
            forall|i: int|
                0 <= i < f ==> renumbered(faces@[i]@, (#[trigger] new_faces@[i])@, kept@),
    {
        let width: usize = faces[f].len();
        let mut row: Vec<u32> = Vec::new();
        for k in 0..width
            invariant
                f < faces@.len(),
                width == faces@[f as int]@.len(),
                n == template_vertices@.len(),
                m == kept@.len(),
                new_index@.len() == n,
                crate::utils::index::is_ascending_set(kept@, faces@),
                forall|i: int, k: int|
                    0 <= i < faces@.len() && 0 <= k < faces@[i]@.len() ==> #[trigger] faces@[i]@[k]
                        < n,
                forall|j: int| 0 <= j < m ==> #[trigger] new_index@[kept@[j] as int] == j,
                row@.len() == k,
                forall|j: int|
                    0 <= j < k ==> #[trigger] row@[j] < kept@.len() && kept@[row@[j] as int]
                        == faces@[f as int]@[j],
        {
            let v: u32 = faces[f][k];
            proof {
                assert(faces@[f as int]@[k as int] == v);
                assert(v < n);
                assert(crate::utils::index::occurs(faces@, faces@.len() as int, v));
                assert(kept@.contains(v));
                let j = choose|j: int| 0 <= j < kept@.len() && kept@[j] == v;
                assert(new_index@[kept@[j] as int] == j);
            }
            row.push(new_index[v as usize]);
        }
        new_faces.push(row);
    }
    assert(template@ =~= kept@.map_values(|v: u32| template_vertices@[v as int]));
    PrunedMesh {
        template_vertices: template,
        vertex_bones: VertexBoneMatrix {
            indices,
            weights,
            max_bones_per_vertex: vertex_bones.max_bones_per_vertex,
        },
        faces: new_faces,
        kept,
    }
}

proof fn lemma_ascending_bound(s: Seq<u32>)
    requires
        crate::utils::index::strictly_ascending(s),
    ensures
        s.len() <= 0x1_0000_0000,
{
    if s.len() > 0 {
        lemma_ascending_at_least(s, s.len() - 1);
    }
}

proof fn lemma_ascending_at_least(s: Seq<u32>, i: int)
    requires
        crate::utils::index::strictly_ascending(s),
        0 <= i < s.len(),
    ensures
        s[i] >= i,
    decreases i,
{
    if i > 0 {
        lemma_ascending_at_least(s, i - 1);
        assert(s[i - 1] < s[i]);
    }
}

/// A pruned face has its corners where they were before: vertex `k` of face
/// `i` is at the same place, and every vertex left is used by a face.
pub proof fn law_pruning_keeps_shape<T>(
    template_vertices: Seq<[T; 3]>,
    vertex_bones: VertexBoneMatrix<T>,
    faces: Seq<Vec<u32>>,
    r: PrunedMesh<T>,
)
    requires
        is_pruned(template_vertices, vertex_bones, faces, r),
    ensures
        forall|i: int, k: int|
            #![trigger r.faces@[i]@[k]]
            0 <= i < faces.len() && 0 <= k < faces[i]@.len()
                ==> r.template_vertices@[r.faces@[i]@[k] as int]
                == template_vertices[faces[i]@[k] as int],
        forall|v: u32|
            v < r.template_vertices@.len() ==> #[trigger] crate::utils::index::occurs(
                r.faces@,
                r.faces@.len() as int,
                v,
            ),
{
    assert forall|i: int, k: int|
        #![trigger r.faces@[i]@[k]]
        0 <= i < faces.len() && 0 <= k < faces[i]@.len() implies r.template_vertices@[r.faces@[i]@[k] as int]
        == template_vertices[faces[i]@[k] as int] by {
        assert(renumbered(faces[i]@, r.faces@[i]@, r.kept@));
        assert(r.faces@[i]@[k] < r.kept@.len());
    }
    assert forall|v: u32|
        v < r.template_vertices@.len() implies #[trigger] crate::utils::index::occurs(
        r.faces@,
        r.faces@.len() as int,
        v,
    ) by {
        let old_v = r.kept@[v as int];
        assert(r.kept@.contains(old_v));
        let (i, k) = choose|i: int, k: int|
            0 <= i < faces.len() && 0 <= k < faces[i]@.len() && #[trigger] faces[i]@[k] == old_v;
        assert(renumbered(faces[i]@, r.faces@[i]@, r.kept@));
        let w = r.faces@[i]@[k] as int;
        assert(r.faces@[i]@[k] < r.kept@.len());
        if w < v {
            assert(r.kept@[w] < r.kept@[v as int]);
        } else if v < w {
            assert(r.kept@[v as int] < r.kept@[w]);
        }
    }
}

/// `r` are the means of the points that the regressors name.
pub open spec fn are_joints<T, O: MeanOps<T>>(
    ops: &O,
    zero: T,
    points: Seq<[T; 3]>,
    regressors: Seq<Vec<u32>>,
    r: Seq<[T; 3]>,
) -> bool {
    &&& r.len() == regressors.len()
    &&& forall|b: int|
        0 <= b < r.len() ==> crate::utils::mean::is_mean_point(
            ops,
            zero,
            picked(points, regressors[b]@),
            (#[trigger] r[b])@,
        )
}

/// The regressors name vertices below `n`.
pub open spec fn regressors_within(regressors: Seq<Vec<u32>>, n: int) -> bool {
    forall|b: int, k: int|
        0 <= b < regressors.len() && 0 <= k < regressors[b]@.len()
            ==> #[trigger] regressors[b]@[k] < n
}

/// The points of a list that the indices name.
pub open spec fn picked<A>(points: Seq<A>, indices: Seq<u32>) -> Seq<A> {
    indices.map_values(|i: u32| points[i as int])
}

/// For each bone the mean of the points that its regressor names: the
/// template joints of the template vertices, the joint displacements of a
/// blend shape.
pub fn regress_joints<T: Copy, O: MeanOps<T>>(
    points: &Vec<[T; 3]>,
    regressors: &Vec<Vec<u32>>,
    zero: T,
    ops: &O,
) -> (r: Vec<[T; 3]>)
    requires
        regressors_within(regressors@, points@.len() as int),
    ensures
        are_joints(ops, zero, points@, regressors@, r@),
{
    let mut r: Vec<[T; 3]> = Vec::new();
    let n: usize = regressors.len();
    for b in 0..n
        invariant
            n == regressors@.len(),
            forall|b: int, k: int|
                0 <= b < regressors@.len() && 0 <= k < regressors@[b]@.len()
                    ==> #[trigger] regressors@[b]@[k] < points@.len(),
                r@.len() == b,
            forall|j: int|
                0 <= j < b ==> crate::utils::mean::is_mean_point(
                    ops,
                    zero,
                    picked(points@, regressors@[j]@),
                    (#[trigger] r@[j])@,
                ),
    {
        let width: usize = regressors[b].len();
        let mut list: Vec<[T; 3]> = Vec::new();
        for k in 0..width
            invariant
                b < regressors@.len(),
                width == regressors@[b as int]@.len(),
                forall|b: int, k: int|
                    0 <= b < regressors@.len() && 0 <= k < regressors@[b]@.len()
                        ==> #[trigger] regressors@[b]@[k] < points@.len(),
                list@.len() == k,
                forall|j: int|
                    0 <= j < k ==> #[trigger] list@[j] == points@[regressors@[b as int]@[j] as int],
        {
            assert(regressors@[b as int]@[k as int] < points@.len());
            list.push(points[regressors[b][k] as usize]);
        }
        assert(list@ =~= picked(points@, regressors@[b as int]@));
        r.push(mean_point(&list, zero, ops));
    }
    r
}

// ---------------------------------------------------------------------------
// The figure
// ---------------------------------------------------------------------------

/// The mesh, the skeleton and the skinning table of a body, with scalars of
/// type `T`.
#[derive(Debug, Clone)]
pub struct Figure<T> {
    pub template_vertices: Vec<[T; 3]>,
    pub vertex_bones: VertexBoneMatrix<T>,
    pub faces: Vec<Vec<u32>>,
    pub face_texture_coordinate_indices: Vec<Vec<u32>>,
    /// Where vertices were dropped, the index that each vertex had before.
    pub base_mesh_vertex_indices: Option<Vec<u32>>,
    pub bone_labels: Vec<String>,
    pub bone_parents: Vec<i64>,
    pub propagation_fronts: Vec<(Vec<usize>, Vec<i64>)>,
    pub head_regressors: Vec<Vec<u32>>,
    pub tail_regressors: Vec<Vec<u32>>,
    pub bone_rolls: Vec<T>,
    pub extrapolate_phenotypes: bool,
    pub all_phenotypes: bool,
    pub default_pose_parameterization: PoseParameterization,
    pub skinning_method: SkinningMethod,
}

/// The phenotype labels of a model: all of them, or those that neither name a
/// race nor a detail of the chest.
pub open spec fn label_list(all: bool) -> Seq<Seq<char>> {
    let basic = seq![
        "gender"@,
        "age"@,
        "muscle"@,
        "weight"@,
        "height"@,
        "proportions"@,
    ];
    if all {
        basic + seq!["cupsize"@, "firmness"@, "african"@, "asian"@, "caucasian"@]
    } else {
        basic
    }
}

/// What [`Figure::build`] makes of its inputs, where `before` and `after` are
/// the skinning weights before and after it.
pub open spec fn figure_outcome<T: Copy, O: Division<T> + Signs<T>>(
    ops: &O,
    zero: T,
    opts: ModelOptions,
    mesh: ObjMesh<T>,
    template: Seq<[T; 3]>,
    faces: Faces,
    rig: Seq<(String, RigBoneJson<T>)>,
    before: WeightsJson<T>,
    after: WeightsJson<T>,
    r: Result<Figure<T>, ModelError>,
) -> bool {
    match r {
        Ok(model) => {
            &&& crate::models::rig::hierarchy_outcome(
                rig,
                mesh,
                crate::names::views(opts.bones_to_remove@),
                before,
                after,
                Ok(model.hierarchy()),
            )
            &&& model.wf()
            &&& model.face_texture_coordinate_indices == faces.texture
            &&& model.extrapolate_phenotypes == opts.extrapolate_phenotypes
            &&& model.all_phenotypes == opts.all_phenotypes
            &&& model.default_pose_parameterization == opts.default_pose_parameterization
            &&& model.skinning_method == opts.skinning_method
            &&& exists|table: VertexBoneMatrix<T>|
                {
                    &&& #[trigger] crate::models::rig::is_vertex_bone_matrix(
                        after,
                        model.bone_labels@,
                        template.len() as int,
                        zero,
                        ops,
                        table,
                    )
                    &&& if opts.remove_unattached_vertices {
                        &&& model.base_mesh_vertex_indices is Some
                        &&& is_pruned(
                            template,
                            table,
                            faces.vertices@,
                            PrunedMesh {
                                template_vertices: model.template_vertices,
                                vertex_bones: model.vertex_bones,
                                faces: model.faces,
                                kept: model.base_mesh_vertex_indices->0,
                            },
                        )
                        &&& forall|i: int|
                            0 <= i < model.base_mesh_vertex_indices->0@.len()
                                ==> #[trigger] model.base_mesh_vertex_indices->0@[i]
                                < template.len()
                    } else {
                        &&& model.base_mesh_vertex_indices is None
                        &&& model.template_vertices@ == template
                        &&& model.vertex_bones == table
                        &&& model.faces == faces.vertices
                    }
                }
        },
        Err(ModelError::Rig(e)) => crate::models::rig::hierarchy_outcome(
            rig,
            mesh,
            crate::names::views(opts.bones_to_remove@),
            before,
            after,
            Err(e),
        ),
        Err(_) => false,
    }
}

impl<T: Copy> Figure<T> {
    /// The number of bones.
    pub fn bone_count(&self) -> (r: usize)
        ensures
            r == self.bone_labels@.len(),
    {
        self.bone_labels.len()
    }

    /// The number of vertices.
    pub fn vertex_count(&self) -> (r: usize)
        ensures
            r == self.template_vertices@.len(),
    {
        self.template_vertices.len()
    }

    /// The phenotype labels, in canonical order.
    pub fn phenotype_labels(&self) -> (r: Vec<&'static str>)
        ensures
            crate::names::str_views(r@) =~= label_list(self.all_phenotypes),
    {
        let mut r: Vec<&'static str> = vec![
            "gender",
            "age",
            "muscle",
            "weight",
            "height",
            "proportions",
        ];
        if self.all_phenotypes {
            r.push("cupsize");
            r.push("firmness");
            r.push("african");
            r.push("asian");
            r.push("caucasian");
        }
        r
    }

    /// The hierarchy of the model's bones.
    pub open spec fn hierarchy(&self) -> BoneHierarchy<T> {
        BoneHierarchy {
            labels: self.bone_labels,
            parents: self.bone_parents,
            head_regressors: self.head_regressors,
            tail_regressors: self.tail_regressors,
            rolls: self.bone_rolls,
        }
    }

    /// The parts of the figure fit together: parents stand before their
    /// children, the fronts cover the bones, and each vertex has its row in
    /// the skinning table.
    pub open spec fn wf(&self) -> bool {
        &&& self.hierarchy().wf()
        &&& crate::kinematics::are_fronts(self.bone_parents@, self.propagation_fronts@)
        &&& self.vertex_bones.level()
        &&& self.vertex_bones.indices@.len() == self.template_vertices@.len()
    }

    /// Builds the figure of a mesh with its vertices at `template`: the
    /// hierarchy of the rig without the bones to remove, its skinning table,
    /// and the chosen faces, where wanted without the vertices that they do
    /// not use.
    pub fn build<O: Division<T> + Signs<T>>(
        opts: &ModelOptions,
        mesh: &ObjMesh<T>,
        template: &Vec<[T; 3]>,
        faces: Faces,
        rig: &Vec<(String, RigBoneJson<T>)>,
        weights: &mut WeightsJson<T>,
        zero: T,
        ops: &O,
    ) -> (r: Result<Self, ModelError>)
        requires
            rig@.len() <= i64::MAX,
            crate::models::rig::bone_names(rig@).no_duplicates(),
            old(weights).distinct(),
            opts.remove_unattached_vertices ==> forall|i: int, k: int|
                0 <= i < faces.vertices@.len() && 0 <= k < faces.vertices@[i]@.len()
                    ==> #[trigger] faces.vertices@[i]@[k] < template@.len(),
        ensures
            final(weights).distinct(),
            figure_outcome(
                ops,
                zero,
                *opts,
                *mesh,
                template@,
                faces,
                rig@,
                *old(weights),
                *final(weights),
                r,
            ),
    {
        let h = match build_hierarchy(rig, mesh, &opts.bones_to_remove, weights) {
            Ok(h) => h,
            Err(e) => {
                return Err(ModelError::Rig(e));
            },
        };
        let table = build_vertex_bone_matrix(
            weights,
            &h.labels,
            template.len(),
            zero,
            ops,
        );
        let fronts = propagation_fronts(&h.parents);
        let ghost h0 = h;
        let ghost table0 = table;
        assert(table.level());
        let (template_vertices, vertex_bones, face_rows, kept) = if opts.remove_unattached_vertices {
            let pruned = prune_unattached_vertices(template, &table, &faces.vertices);
            proof {
                let rows = pruned.vertex_bones;
                assert forall|i: int| 0 <= i < rows.indices@.len() implies (
                #[trigger] rows.indices@[i])@.len() == table.max_bones_per_vertex by {
                    assert(pruned.kept@[i] < template@.len());
                    assert(table.indices@[pruned.kept@[i] as int]@.len()
                        == table.max_bones_per_vertex);
                }
                assert forall|i: int| 0 <= i < rows.weights@.len() implies (
                #[trigger] rows.weights@[i])@.len() == table.max_bones_per_vertex by {
                    assert(pruned.kept@[i] < template@.len());
                    assert(table.weights@[pruned.kept@[i] as int]@.len()
                        == table.max_bones_per_vertex);
                }
                assert(rows.level());
            }
            (pruned.template_vertices, pruned.vertex_bones, pruned.faces, Some(pruned.kept))
        } else {
            (copy_row(template), table, faces.vertices, None)
        };
        let model = Figure {
            template_vertices,
            vertex_bones,
            faces: face_rows,
            face_texture_coordinate_indices: faces.texture,
            base_mesh_vertex_indices: kept,
            bone_labels: h.labels,
            bone_parents: h.parents,
            propagation_fronts: fronts,
            head_regressors: h.head_regressors,
            tail_regressors: h.tail_regressors,
            bone_rolls: h.rolls,
            extrapolate_phenotypes: opts.extrapolate_phenotypes,
            all_phenotypes: opts.all_phenotypes,
            default_pose_parameterization: opts.default_pose_parameterization,
            skinning_method: opts.skinning_method,
        };
        proof {
            assert(model.hierarchy() == h0);
            assert(crate::models::rig::is_vertex_bone_matrix(
                *weights,
                model.bone_labels@,
                template@.len() as int,
                zero,
                ops,
                table0,
            ));
        }
        Ok(model)
    }
}

} // verus!
