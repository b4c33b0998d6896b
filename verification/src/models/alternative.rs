//! Models on a mesh that lies close to the default one.
use vstd::prelude::*;

use crate::data::obj::ObjMesh;
use crate::models::body::Model;
use crate::models::retopology::{first_group, interpolate_topology, nearest_corners};
use crate::scalar::{Arithmetic, Bounds, Lengths, Signs};
use crate::utils::mesh::{point_to_mesh_distance_and_face_uvs, triangulate_faces, Nearest, SearchOps};

verus! {

/// Why a model on another mesh cannot be had.
#[derive(Debug, Clone)]
pub enum RetopologyError<T> {
    /// The default mesh has no group of faces.
    DefaultMissingGroup,
    /// The other mesh has no group of faces.
    AltTopologyMissingGroup,
    /// A vertex of the other mesh is too far from the default one: the largest
    /// distance.
    AltTopologyTooFar(T),
    /// A corner of the default mesh is no vertex of the reference.
    BeyondReference,
}

/// `r` are the points with the second axis turned to the third.
pub open spec fn are_turned<T, O: Arithmetic<T>>(
    ops: &O,
    points: Seq<[T; 3]>,
    r: Seq<[T; 3]>,
) -> bool {
    &&& r.len() == points.len()
    &&& forall|i: int|
        0 <= i < points.len() ==> {
            &&& (#[trigger] r[i])@[0] == points[i]@[0]
            &&& crate::scalar::negative_of(ops, points[i]@[2], r[i]@[1])
            &&& r[i]@[2] == points[i]@[1]
        }
}

/// Turns the second axis to the third.
pub fn turned<T: Copy, O: Arithmetic<T>>(points: &Vec<[T; 3]>, ops: &O) -> (r: Vec<[T; 3]>)
    ensures
        are_turned(ops, points@, r@),
{
    let mut r: Vec<[T; 3]> = Vec::new();
    for i in 0..points.len()
        invariant
            r@.len() == i,
            forall|j: int|
                0 <= j < i ==> {
                    &&& (#[trigger] r@[j])@[0] == points@[j]@[0]
                    &&& crate::scalar::negative_of(ops, points@[j]@[2], r@[j]@[1])
                    &&& r@[j]@[2] == points@[j]@[1]
                },
    {
        let p = points[i];
        let n = ops.negative(p[2]);
        assert(crate::scalar::negative_of(ops, points@[i as int]@[2], n));
        r.push([p[0], n, p[1]]);
    }
    r
}

/// `r` is the largest of the first `n` distances, and `zero` where none is larger.
pub open spec fn is_farthest<T, O: Bounds<T>>(
    ops: &O,
    zero: T,
    found: Seq<Nearest<T>>,
    n: nat,
    r: T,
) -> bool
    decreases n,
{
    if n == 0 {
        r == zero
    } else {
        exists|before: T, farther: bool|
            {
                &&& #[trigger] crate::scalar::says_less(
                    ops,
                    before,
                    found[n - 1].distance,
                    farther,
                )
                &&& is_farthest(ops, zero, found, (n - 1) as nat, before)
                &&& r == if farther {
                    found[n - 1].distance
                } else {
                    before
                }
            }
    }
}

fn farthest<T: Copy, O: Bounds<T>>(found: &Vec<Nearest<T>>, zero: T, ops: &O) -> (r: T)
    ensures
        is_farthest(ops, zero, found@, found@.len(), r),
{
    let mut r = zero;
    for i in 0..found.len()
        invariant
            is_farthest(ops, zero, found@, i as nat, r),
    {
        let before = r;
        let farther = ops.less(before, found[i].distance);
        let ghost n = (i + 1) as nat;
        assert(crate::scalar::says_less(ops, before, found@[n - 1].distance, farther));
        assert(is_farthest(ops, zero, found@, (n - 1) as nat, before));
        if farther {
            r = found[i].distance;
        }
        assert(is_farthest(ops, zero, found@, n, r));
    }
    r
}

/// How another mesh lies on the default one: the vertices of both in the axes of
/// the model, their triangles, and for each vertex of the other mesh the nearest
/// triangle of the default one.
pub struct Placement<T> {
    pub from: Seq<[T; 3]>,
    pub triangles: Seq<[u32; 3]>,
    pub to: Seq<[T; 3]>,
    pub faces: Seq<[u32; 3]>,
    pub found: Seq<Nearest<T>>,
    pub farthest: T,
}

/// The mesh has a group, and `p` is how the other mesh lies on it.
pub open spec fn is_placed<T, O: SearchOps<T> + Lengths<T>>(
    ops: &O,
    far: T,
    zero: T,
    one: T,
    default: ObjMesh<T>,
    other: ObjMesh<T>,
    p: Placement<T>,
) -> bool {
    &&& default.groups@.len() > 0
    &&& other.groups@.len() > 0
    &&& are_turned(ops, default.vertices@, p.from)
    &&& are_turned(ops, other.vertices@, p.to)
    &&& crate::utils::mesh::are_triangulated(
        ops,
        p.from,
        default.groups@[0].1.face_vertex_indices@,
        p.triangles,
    )
    &&& crate::utils::mesh::are_triangulated(
        ops,
        p.to,
        other.groups@[0].1.face_vertex_indices@,
        p.faces,
    )
    &&& p.found.len() == p.to.len()
    &&& forall|i: int|
        0 <= i < p.found.len() ==> crate::utils::mesh::is_nearest(
            ops,
            far,
            zero,
            one,
            p.from,
            p.triangles,
            p.to[i],
            #[trigger] p.found[i],
        )
    &&& is_farthest(ops, zero, p.found, p.found.len(), p.farthest)
}

/// The other mesh is too far away: the largest distance is more than the limit, or
/// there is no triangle to be near to.
pub open spec fn is_too_far<T, O: Bounds<T>>(ops: &O, limit: T, p: Placement<T>, r: bool) -> bool {
    exists|more: bool| #[trigger]
        crate::scalar::says_less(ops, limit, p.farthest, more) && r == (more || (p.triangles.len()
            == 0 && p.found.len() > 0))
}

/// The corners of the nearest triangles.
pub open spec fn nearest_sources<T>(p: Placement<T>) -> Seq<[u32; 3]> {
    p.found.map_values(|n: Nearest<T>| p.triangles[n.face as int])
}

/// Where on the nearest triangles the vertices lie.
pub open spec fn nearest_shares<T>(p: Placement<T>) -> Seq<[T; 3]> {
    p.found.map_values(|n: Nearest<T>| n.barycentric)
}

/// The outcome of taking a model over to another mesh.
pub open spec fn alternative_outcome<T: Copy, O: SearchOps<T> + Lengths<T> + Signs<T>>(
    ops: &O,
    limit: T,
    far: T,
    zero: T,
    one: T,
    reference: Model<T>,
    default: ObjMesh<T>,
    other: ObjMesh<T>,
    r: Result<Model<T>, RetopologyError<T>>,
) -> bool {
    if default.groups@.len() == 0 {
        r == Err::<Model<T>, _>(RetopologyError::<T>::DefaultMissingGroup)
    } else if other.groups@.len() == 0 {
        r == Err::<Model<T>, _>(RetopologyError::<T>::AltTopologyMissingGroup)
    } else {
        exists|p: Placement<T>, apart: bool|
            {
                &&& is_placed(ops, far, zero, one, default, other, p)
                &&& #[trigger] is_too_far(ops, limit, p, apart)
                &&& if apart {
                    r == Err::<Model<T>, _>(RetopologyError::AltTopologyTooFar(p.farthest))
                } else if !crate::models::retopology::sources_within(
                    nearest_sources(p),
                    reference.figure.template_vertices@.len() as int,
                ) {
                    r == Err::<Model<T>, _>(RetopologyError::<T>::BeyondReference)
                } else {
                    &&& r is Ok
                    &&& r->Ok_0.wf()
                    &&& crate::models::retopology::is_retopologised(
                        ops,
                        zero,
                        reference,
                        nearest_shares(p),
                        nearest_sources(p),
                        p.faces,
                        r->Ok_0,
                    )
                }
            }
    }
}

/// The faces of the first group are triangles and quads, and the corners of the
/// quads are vertices.
pub open spec fn is_topology<T>(mesh: ObjMesh<T>) -> bool {
    mesh.groups@.len() > 0 ==> {
        let faces = mesh.groups@[0].1.face_vertex_indices@;
        &&& forall|i: int|
            0 <= i < faces.len() ==> (#[trigger] faces[i])@.len() == 3 || faces[i]@.len() == 4
        &&& crate::utils::mesh::quads_within(faces, mesh.vertices@.len() as int)
    }
}

/// The corners of the triangles of the first group are vertices too.
pub open spec fn all_within<T>(mesh: ObjMesh<T>) -> bool {
    mesh.groups@.len() > 0 ==> {
        let faces = mesh.groups@[0].1.face_vertex_indices@;
        forall|i: int, k: int|
            0 <= i < faces.len() && 0 <= k < faces[i]@.len() ==> #[trigger] faces[i]@[k]
                < mesh.vertices@.len()
    }
}

/// Whether a mesh can serve: its faces are triangles and quads whose corners are
/// vertices.
pub fn serves<T>(mesh: &ObjMesh<T>) -> (r: bool)
    ensures
        r <==> is_topology(*mesh) && all_within(*mesh),
{
    if mesh.groups.len() == 0 {
        return true;
    }
    let faces = &mesh.groups[0].1.face_vertex_indices;
    let n: usize = mesh.vertices.len();
    for i in 0..faces.len()
        invariant
            mesh.groups@.len() > 0,
            faces@ == mesh.groups@[0].1.face_vertex_indices@,
            n == mesh.vertices@.len(),
            forall|j: int|
                0 <= j < i ==> (#[trigger] faces@[j])@.len() == 3 || faces@[j]@.len() == 4,
            forall|j: int, k: int|
                0 <= j < i && 0 <= k < faces@[j]@.len() ==> #[trigger] faces@[j]@[k] < n,
    {
        let face = &faces[i];
        if face.len() != 3 && face.len() != 4 {
            assert(faces@[i as int]@.len() != 3 && faces@[i as int]@.len() != 4);
            return false;
        }
        for k in 0..face.len()
            invariant
                mesh.groups@.len() > 0,
                faces@ == mesh.groups@[0].1.face_vertex_indices@,
                n == mesh.vertices@.len(),
                i < faces@.len(),
                *face == faces@[i as int],
                forall|c: int| 0 <= c < k ==> #[trigger] faces@[i as int]@[c] < n,
        {
            if face[k] as usize >= n {
                assert(faces@[i as int]@[k as int] >= n);
                return false;
            }
        }
    }
    true
}

proof fn lemma_triangles_within(
    faces: Seq<Vec<u32>>,
    first: Seq<bool>,
    r: Seq<[u32; 3]>,
    n: int,
)
    requires
        forall|i: int|
            0 <= i < faces.len() ==> (#[trigger] faces[i])@.len() == 3 || faces[i]@.len() == 4,
        forall|i: int, k: int|
            0 <= i < faces.len() && 0 <= k < faces[i]@.len() ==> #[trigger] faces[i]@[k] < n,
        crate::utils::mesh::corners(r) =~~= crate::utils::mesh::triangles(
            faces,
            first,
            faces.len(),
        ),
    ensures
        crate::utils::mesh::corners_within(r, n),
{
    crate::utils::mesh::law_triangles_of_faces(faces, first, faces.len());
    let all = crate::utils::mesh::triangles(faces, first, faces.len());
    assert forall|t: int, k: int| 0 <= t < r.len() && 0 <= k < 3 implies #[trigger] r[t]@[k] < n by {
        assert(crate::utils::mesh::corners(r)[t] == r[t]@);
        assert(all[t][k] == r[t]@[k]);
        let x = all[t][k];
        assert(crate::utils::index::occurs(faces, faces.len() as int, x));
        let (i, j) = choose|i: int, j: int|
            0 <= i < faces.len() && 0 <= j < faces[i]@.len() && #[trigger] faces[i]@[j] == x;
        assert(faces[i]@[j] < n);
    }
}

proof fn lemma_nearest_face<T, O: SearchOps<T>>(
    ops: &O,
    far: T,
    zero: T,
    one: T,
    vertices: Seq<[T; 3]>,
    faces: Seq<[u32; 3]>,
    p: [T; 3],
    r: Nearest<T>,
)
    requires
        crate::utils::mesh::is_nearest(ops, far, zero, one, vertices, faces, p, r),
        faces.len() > 0,
    ensures
        r.face < faces.len(),
{
    let (squares, shares, k) = choose|squares: Seq<T>, shares: Seq<[T; 3]>, k: int|
        {
            &&& #[trigger] crate::utils::mesh::are_measured(
                ops,
                zero,
                one,
                vertices,
                faces,
                p,
                squares,
                shares,
            )
            &&& #[trigger] crate::utils::mesh::is_standing(ops, far, squares, faces.len(), k)
            &&& call_ensures(
                O::root,
                (ops, crate::utils::mesh::standing(squares, far, k)),
                r.distance,
            )
            &&& if k < 0 {
                r.face == 0 && r.barycentric@ == seq![one, zero, zero]
            } else {
                r.face == k as u32 && r.barycentric == shares[k]
            }
        };
    crate::utils::mesh::lemma_standing_prefix(ops, far, squares, squares, faces.len(), k);
}

/// The triangles of the nearest places, and where on them they are.
fn places<T: Copy>(found: &Vec<Nearest<T>>) -> (r: (Vec<u32>, Vec<[T; 3]>))
    ensures
        r.0@ == found@.map_values(|n: Nearest<T>| n.face),
        r.1@ == found@.map_values(|n: Nearest<T>| n.barycentric),
{
    let mut faces: Vec<u32> = Vec::new();
    let mut shares: Vec<[T; 3]> = Vec::new();
    for i in 0..found.len()
        invariant
            faces@.len() == i,
            shares@.len() == i,
            forall|j: int| 0 <= j < i ==> #[trigger] faces@[j] == found@[j].face,
            forall|j: int| 0 <= j < i ==> #[trigger] shares@[j] == found@[j].barycentric,
    {
        faces.push(found[i].face);
        shares.push(found[i].barycentric);
    }
    assert(faces@ =~= found@.map_values(|n: Nearest<T>| n.face));
    assert(shares@ =~= found@.map_values(|n: Nearest<T>| n.barycentric));
    (faces, shares)
}

/// Whether every source names one of the first `n` vertices.
pub fn sources_are_within(sources: &Vec<[u32; 3]>, n: usize) -> (r: bool)
    ensures
        r <==> crate::models::retopology::sources_within(sources@, n as int),
{
    for i in 0..sources.len()
        invariant
            forall|j: int, k: int|
                0 <= j < i && 0 <= k < 3 ==> (#[trigger] sources@[j]@[k]) < n,
    {
        let s = sources[i];
        if s[0] as usize >= n {
            assert(sources@[i as int]@[0] >= n);
            return false;
        }
        if s[1] as usize >= n {
            assert(sources@[i as int]@[1] >= n);
            return false;
        }
        if s[2] as usize >= n {
            assert(sources@[i as int]@[2] >= n);
            return false;
        }
        assert forall|k: int| 0 <= k < 3 implies (#[trigger] sources@[i as int]@[k]) < n by {
            assert(k == 0 || k == 1 || k == 2);
        }
    }
    true
}

/// Takes a model over to another mesh that lies within `limit` of the default one.
/// Both meshes are turned to the axes of the model, and every vertex of the other
/// one takes its place, its blend shapes and its skinning weights from the corners
/// of the nearest triangle of the default one.
pub fn alternative_topology<T: Copy, O: SearchOps<T> + Lengths<T> + Signs<T>>(
    reference: Model<T>,
    default: &ObjMesh<T>,
    other: &ObjMesh<T>,
    limit: T,
    far: T,
    zero: T,
    one: T,
    ops: &O,
) -> (r: Result<Model<T>, RetopologyError<T>>)
    requires
        reference.wf(),
        is_topology(*default),
        all_within(*default),
        is_topology(*other),
    ensures
        alternative_outcome(ops, limit, far, zero, one, reference, *default, *other, r),
{
    let from_group = match first_group(default) {
        Some(g) => g,
        None => {
            return Err(RetopologyError::DefaultMissingGroup);
        },
    };
    let to_group = match first_group(other) {
        Some(g) => g,
        None => {
            return Err(RetopologyError::AltTopologyMissingGroup);
        },
    };
    let from = turned(&default.vertices, ops);
    let to = turned(&other.vertices, ops);
    let triangles = triangulate_faces(&from, &from_group.face_vertex_indices, ops);
    let faces = triangulate_faces(&to, &to_group.face_vertex_indices, ops);
    proof {
        let quads = from_group.face_vertex_indices@;
        let first = choose|first: Seq<bool>| #[trigger]
            crate::utils::mesh::are_diagonals(ops, from@, quads, first)
                && crate::utils::mesh::corners(triangles@) =~~= crate::utils::mesh::triangles(
                quads,
                first,
                quads.len(),
            );
        lemma_triangles_within(quads, first, triangles@, from@.len() as int);
    }
    let found = point_to_mesh_distance_and_face_uvs(&to, &from, &triangles, far, zero, one, ops);
    let largest = farthest(&found, zero, ops);
    let ghost p = Placement {
        from: from@,
        triangles: triangles@,
        to: to@,
        faces: faces@,
        found: found@,
        farthest: largest,
    };
    assert(is_placed(ops, far, zero, one, *default, *other, p));
    let more = ops.less(limit, largest);
    assert(crate::scalar::says_less(ops, limit, p.farthest, more));
    if more || (triangles.len() == 0 && found.len() > 0) {
        assert(is_too_far(ops, limit, p, true));
        return Err(RetopologyError::AltTopologyTooFar(largest));
    }
    assert(is_too_far(ops, limit, p, false));
    let (nearest, shares) = places(&found);
    proof {
        assert forall|i: int| 0 <= i < nearest@.len() implies #[trigger] nearest@[i]
            < triangles@.len() by {
            lemma_nearest_face(ops, far, zero, one, from@, triangles@, to@[i], found@[i]);
        }
    }
    let sources = nearest_corners(&triangles, &nearest);
    proof {
        assert(sources@ =~= nearest_sources(p));
        assert(shares@ =~= nearest_shares(p));
    }
    if !sources_are_within(&sources, reference.figure.template_vertices.len()) {
        return Err(RetopologyError::BeyondReference);
    }
    Ok(interpolate_topology(reference, &shares, &sources, &faces, zero, ops))
}

} // verus!
