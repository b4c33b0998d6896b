//! What body measurements are taken from: the loop of waist vertices and the
//! triangles of the mesh.
pub mod measure_laws;

use vstd::prelude::*;

use crate::rotation::{inner, minor};
use crate::scalar::{Bounds, Division, Lengths};
use crate::utils::distance::distance;
use crate::utils::mesh::triangulate_faces;
use crate::utils::shares::total;

verus! {

/// The vertices round the waist of the base mesh, in the order of the loop.
pub open spec fn waist_loop() -> Seq<u32> {
    seq![
        4121, 10763, 10760, 10757, 10777, 10776, 10779, 10780, 10778, 10781, 10771, 10773, 10772,
        10775, 10774, 10814, 10834, 10816, 10817, 10818, 10819, 10820, 10821, 4181, 4180, 4179,
        4178, 4177, 4176, 4175, 4196, 4173, 4131, 4132, 4129, 4130, 4128, 4138, 4135, 4137, 4136,
        4133, 4134, 4108, 4113, 4118,
    ]
}

fn waist_vertices() -> (r: Vec<u32>)
    ensures
        r@ == waist_loop(),
{
    let r: Vec<u32> = vec![
        4121, 10763, 10760, 10757, 10777, 10776, 10779, 10780, 10778, 10781, 10771, 10773, 10772,
        10775, 10774, 10814, 10834, 10816, 10817, 10818, 10819, 10820, 10821, 4181, 4180, 4179,
        4178, 4177, 4176, 4175, 4196, 4173, 4131, 4132, 4129, 4130, 4128, 4138, 4135, 4137, 4136,
        4133, 4134, 4108, 4113, 4118,
    ];
    assert(r@ =~= waist_loop());
    r
}

/// `new` is the last place at which `remap` holds `old`.
pub open spec fn is_place(remap: Seq<u32>, old: u32, new: u32) -> bool {
    &&& new < remap.len()
    &&& remap[new as int] == old
    &&& forall|j: int| new < j < remap.len() ==> remap[j] != old
}

/// `indices` are the places of the waist vertices among the kept ones.
pub open spec fn is_waist(remap: Option<Seq<u32>>, indices: Seq<u32>) -> bool {
    match remap {
        None => indices == waist_loop(),
        Some(kept) => {
            &&& indices.len() == waist_loop().len()
            &&& forall|i: int|
                0 <= i < indices.len() ==> is_place(kept, waist_loop()[i], #[trigger] indices[i])
        },
    }
}

pub open spec fn view_of(remap: Option<&Vec<u32>>) -> Option<Seq<u32>> {
    match remap {
        None => None,
        Some(kept) => Some(kept@),
    }
}

/// The last place of a vertex among the kept ones.
fn place(remap: &Vec<u32>, old: u32) -> (r: Option<u32>)
    requires
        remap@.len() <= u32::MAX + 1,
    ensures
        match r {
            Some(new) => is_place(remap@, old, new),
            None => !remap@.contains(old),
        },
{
    let mut i: usize = remap.len();
    while i > 0
        invariant
            i <= remap@.len() <= u32::MAX + 1,
            forall|j: int| i <= j < remap@.len() ==> remap@[j] != old,
        decreases i,
    {
        i = i - 1;
        if remap[i] == old {
            return Some(i as u32);
        }
    }
    None
}

/// Where the waist vertices stand among the kept vertices of the base mesh:
/// `base_mesh_vertex_indices` lists the kept ones, and is absent where all
/// are kept. `None` where a waist vertex was dropped.
pub fn waist_vertex_indices(base_mesh_vertex_indices: Option<&Vec<u32>>) -> (r: Option<Vec<u32>>)
    requires
        base_mesh_vertex_indices is Some ==> base_mesh_vertex_indices->0@.len() <= u32::MAX + 1,
    ensures
        match r {
            Some(indices) => is_waist(view_of(base_mesh_vertex_indices), indices@),
            None => base_mesh_vertex_indices is Some && exists|i: int|
                0 <= i < waist_loop().len() && !base_mesh_vertex_indices->0@.contains(
                    #[trigger] waist_loop()[i],
                ),
        },
{
    let waist = waist_vertices();
    match base_mesh_vertex_indices {
        None => Some(waist),
        Some(remap) => {
            let mut r: Vec<u32> = Vec::new();
            for i in 0..waist.len()
                invariant
                    waist@ == waist_loop(),
                    base_mesh_vertex_indices == Some(remap),
                    remap@.len() <= u32::MAX + 1,
                    r@.len() == i,
                    forall|j: int|
                        0 <= j < i ==> is_place(remap@, waist_loop()[j], #[trigger] r@[j]),
            {
                match place(remap, waist[i]) {
                    Some(new) => r.push(new),
                    None => {
                        assert(!remap@.contains(waist_loop()[i as int]));
                        return None;
                    },
                }
            }
            Some(r)
        },
    }
}

/// The waist loop and the triangles of a model.
#[derive(Debug, Clone)]
pub struct Anthropometry {
    pub waist_vertex_indices: Vec<u32>,
    pub triangular_faces: Vec<[u32; 3]>,
}

/// The first, the second or the third corners of triangles.
pub open spec fn column(tris: Seq<[u32; 3]>, c: int) -> Seq<u32> {
    tris.map_values(|t: [u32; 3]| t@[c])
}

impl Anthropometry {
    /// The waist loop and the triangles of a model with the faces, or `None`
    /// where a vertex of the waist was dropped. Quads are split along the
    /// diagonals that are shorter in the given vertices.
    pub fn new<T: Copy, O: Lengths<T> + Bounds<T>>(
        vertices: &Vec<[T; 3]>,
        faces: &Vec<Vec<u32>>,
        base_mesh_vertex_indices: Option<&Vec<u32>>,
        ops: &O,
    ) -> (r: Option<Self>)
        requires
            base_mesh_vertex_indices is Some ==> base_mesh_vertex_indices->0@.len() <= u32::MAX + 1,
            forall|i: int|
                0 <= i < faces@.len() ==> (#[trigger] faces@[i])@.len() == 3 || faces@[i]@.len()
                    == 4,
            crate::utils::mesh::quads_within(faces@, vertices@.len() as int),
        ensures
            match r {
                Some(a) => {
                    &&& is_waist(view_of(base_mesh_vertex_indices), a.waist_vertex_indices@)
                    &&& crate::utils::mesh::are_triangulated(
                        ops,
                        vertices@,
                        faces@,
                        a.triangular_faces@,
                    )
                },
                None => base_mesh_vertex_indices is Some && exists|i: int|
                    0 <= i < waist_loop().len() && !base_mesh_vertex_indices->0@.contains(
                        #[trigger] waist_loop()[i],
                    ),
            },
    {
        match waist_vertex_indices(base_mesh_vertex_indices) {
            Some(waist) => Some(
                Anthropometry {
                    waist_vertex_indices: waist,
                    triangular_faces: triangulate_faces(vertices, faces, ops),
                },
            ),
            None => None,
        }
    }

    /// The loop turned by one: the vertex before each vertex of the waist.
    pub fn waist_predecessors(&self) -> (r: Vec<u32>)
        ensures
            r@.len() == self.waist_vertex_indices@.len(),
            forall|i: int|
                0 < i < r@.len() ==> #[trigger] r@[i] == self.waist_vertex_indices@[i - 1],
            r@.len() > 0 ==> r@[0] == self.waist_vertex_indices@.last(),
    {
        let mut r: Vec<u32> = Vec::new();
        let n: usize = self.waist_vertex_indices.len();
        for i in 0..n
            invariant
                n == self.waist_vertex_indices@.len(),
                r@.len() == i,
                forall|j: int|
                    0 < j < i ==> #[trigger] r@[j] == self.waist_vertex_indices@[j - 1],
                i > 0 ==> r@[0] == self.waist_vertex_indices@[n - 1],
        {
            if i == 0 {
                r.push(self.waist_vertex_indices[n - 1]);
            } else {
                r.push(self.waist_vertex_indices[i - 1]);
            }
        }
        r
    }

    /// The first, the second and the third corners of the triangles.
    pub fn face_columns(&self) -> (r: (Vec<u32>, Vec<u32>, Vec<u32>))
        ensures
            r.0@ == column(self.triangular_faces@, 0),
            r.1@ == column(self.triangular_faces@, 1),
            r.2@ == column(self.triangular_faces@, 2),
    {
        let mut first: Vec<u32> = Vec::new();
        let mut second: Vec<u32> = Vec::new();
        let mut third: Vec<u32> = Vec::new();
        for i in 0..self.triangular_faces.len()
            invariant
                first@ =~= column(self.triangular_faces@.take(i as int), 0),
                second@ =~= column(self.triangular_faces@.take(i as int), 1),
                third@ =~= column(self.triangular_faces@.take(i as int), 2),
        {
            first.push(self.triangular_faces[i][0]);
            second.push(self.triangular_faces[i][1]);
            third.push(self.triangular_faces[i][2]);
        }
        assert(self.triangular_faces@.take(self.triangular_faces@.len() as int)
            =~= self.triangular_faces@);
        (first, second, third)
    }
}

/// The waist has a place exactly where every vertex of the loop is kept.
pub proof fn law_waist_needs_whole_loop(kept: Seq<u32>, indices: Seq<u32>)
    requires
        is_waist(Some(kept), indices),
    ensures
        forall|i: int| 0 <= i < waist_loop().len() ==> kept.contains(#[trigger] waist_loop()[i]),
{
    assert forall|i: int| 0 <= i < waist_loop().len() implies kept.contains(
        #[trigger] waist_loop()[i],
    ) by {
        assert(is_place(kept, waist_loop()[i], indices[i]));
    }
}

// ---------------------------------------------------------------------------
// Measurements
// ---------------------------------------------------------------------------

/// The operations of the measurements. Nothing is taken for granted of what
/// they return.
pub trait MeasureOps<T>: Division<T> + Lengths<T> + Bounds<T> {
    fn sixth(&self, a: T) -> T;

    fn absolute(&self, a: T) -> T;
}

/// `m` stands after the values were offered: one takes over if it is less
/// than the one that stands, or greater, which is the first value at first.
pub open spec fn is_extreme<T, O: MeasureOps<T>>(
    ops: &O,
    least: bool,
    values: Seq<T>,
    m: T,
) -> bool
    decreases values.len(),
{
    if values.len() <= 1 {
        m == values[0]
    } else {
        exists|before: T|
            is_extreme(ops, least, values.drop_last(), before) && #[trigger] takes_over(
                ops,
                least,
                before,
                values.last(),
                m,
            )
    }
}

pub open spec fn takes_over<T, O: MeasureOps<T>>(
    ops: &O,
    least: bool,
    before: T,
    v: T,
    m: T,
) -> bool {
    let (a, b) = if least {
        (v, before)
    } else {
        (before, v)
    };
    ||| crate::scalar::says_less(ops, a, b, true) && m == v
    ||| crate::scalar::says_less(ops, a, b, false) && m == before
}

fn extreme<T: Copy, O: MeasureOps<T>>(ops: &O, least: bool, values: &Vec<T>) -> (m: T)
    requires
        values@.len() > 0,
    ensures
        is_extreme(ops, least, values@, m),
{
    let mut m = values[0];
    for i in 1..values.len()
        invariant
            values@.len() > 0,
            is_extreme(ops, least, values@.take(i as int), m),
    {
        let ghost before = m;
        let v = values[i];
        let over = if least {
            ops.less(v, m)
        } else {
            ops.less(m, v)
        };
        if over {
            m = v;
        }
        proof {
            let next = values@.take(i + 1);
            assert(next.drop_last() =~= values@.take(i as int));
            assert(takes_over(ops, least, before, next.last(), m));
        }
    }
    assert(values@.take(values@.len() as int) =~= values@);
    m
}

/// The heights of the vertices.
pub open spec fn heights<T>(vertices: Seq<[T; 3]>) -> Seq<T> {
    vertices.map_values(|v: [T; 3]| v@[2])
}

/// `h` is the highest height less the lowest.
pub open spec fn is_height<T, O: MeasureOps<T>>(ops: &O, vertices: Seq<[T; 3]>, h: T) -> bool {
    exists|top: T, bottom: T| #[trigger]
        is_extreme(ops, false, heights(vertices), top) && #[trigger] is_extreme(
            ops,
            true,
            heights(vertices),
            bottom,
        ) && crate::scalar::difference_of(ops, top, bottom, h)
}

/// The vertex before vertex `i` of a loop.
pub open spec fn predecessor(waist: Seq<u32>, i: int) -> u32 {
    if i == 0 {
        waist.last()
    } else {
        waist[i - 1]
    }
}

/// `c` is the sum of the lengths of the edges of the loop.
pub open spec fn is_circumference<T, O: MeasureOps<T>>(
    ops: &O,
    zero: T,
    waist: Seq<u32>,
    vertices: Seq<[T; 3]>,
    c: T,
) -> bool {
    exists|lengths: Seq<T>| #[trigger]
        crate::utils::shares::is_total(ops, zero, lengths, c) && lengths.len() == waist.len()
            && forall|i: int|
            0 <= i < waist.len() ==> crate::utils::distance::is_distance(
                ops,
                vertices[predecessor(waist, i) as int]@,
                vertices[waist[i] as int]@,
                #[trigger] lengths[i],
            )
}

/// `x` is a sixth of the triple product of the corners.
pub open spec fn is_signed_volume<T, O: MeasureOps<T>>(
    ops: &O,
    a: [T; 3],
    b: [T; 3],
    c: [T; 3],
    x: T,
) -> bool {
    exists|n: Seq<T>, t: T|
        {
            &&& crate::rotation::is_minor(ops, a@[1], b@[2], a@[2], b@[1], n[0])
            &&& crate::rotation::is_minor(ops, a@[2], b@[0], a@[0], b@[2], n[1])
            &&& crate::rotation::is_minor(ops, a@[0], b@[1], a@[1], b@[0], n[2])
            &&& #[trigger] crate::rotation::is_inner(ops, n, c@, t)
            &&& call_ensures(O::sixth, (ops, t), x)
        }
}

/// `v` is the size of the sum of the signed volumes of the triangles.
pub open spec fn is_volume<T, O: MeasureOps<T>>(
    ops: &O,
    zero: T,
    triangles: Seq<[u32; 3]>,
    vertices: Seq<[T; 3]>,
    v: T,
) -> bool {
    exists|parts: Seq<T>, sum: T| #[trigger]
        crate::utils::shares::is_total(ops, zero, parts, sum) && parts.len() == triangles.len()
            && call_ensures(O::absolute, (ops, sum), v) && forall|i: int|
            0 <= i < triangles.len() ==> is_signed_volume(
                ops,
                vertices[triangles[i]@[0] as int],
                vertices[triangles[i]@[1] as int],
                vertices[triangles[i]@[2] as int],
                #[trigger] parts[i],
            )
}

/// `m` is the volume times the density.
pub open spec fn is_mass<T, O: MeasureOps<T>>(
    ops: &O,
    zero: T,
    density: T,
    triangles: Seq<[u32; 3]>,
    vertices: Seq<[T; 3]>,
    m: T,
) -> bool {
    exists|v: T| #[trigger]
        is_volume(ops, zero, triangles, vertices, v) && crate::scalar::product_of(
            ops,
            v,
            density,
            m,
        )
}

/// `x` is the mass over the square of the height.
pub open spec fn is_bmi<T, O: MeasureOps<T>>(
    ops: &O,
    zero: T,
    density: T,
    triangles: Seq<[u32; 3]>,
    vertices: Seq<[T; 3]>,
    x: T,
) -> bool {
    exists|h: T, m: T, square: T| #[trigger]
        is_height(ops, vertices, h) && #[trigger] is_mass(
            ops,
            zero,
            density,
            triangles,
            vertices,
            m,
        ) && #[trigger] crate::scalar::product_of(ops, h, h, square) && crate::scalar::quotient_of(
            ops,
            m,
            square,
            x,
        )
}

/// The measurements of a body.
#[derive(Debug, Clone, Copy)]
pub struct Measurements<T> {
    pub height: T,
    pub waist_circumference: T,
    pub volume: T,
    pub mass: T,
    pub bmi: T,
}

impl Anthropometry {
    /// The waist and the triangles name vertices of the body.
    pub open spec fn fits(&self, n: int) -> bool {
        &&& forall|i: int|
            0 <= i < self.waist_vertex_indices@.len() ==> (
            #[trigger] self.waist_vertex_indices@[i]) < n
        &&& forall|i: int, k: int|
            0 <= i < self.triangular_faces@.len() && 0 <= k < 3 ==> (
            #[trigger] self.triangular_faces@[i]@[k]) < n
    }

    /// The height of a body with vertices.
    pub fn height<T: Copy, O: MeasureOps<T>>(&self, vertices: &Vec<[T; 3]>, ops: &O) -> (h: T)
        requires
            vertices@.len() > 0,
        ensures
            is_height(ops, vertices@, h),
    {
        let mut zs: Vec<T> = Vec::new();
        for i in 0..vertices.len()
            invariant
                zs@ =~= heights(vertices@.take(i as int)),
        {
            zs.push(vertices[i][2]);
        }
        assert(vertices@.take(vertices@.len() as int) =~= vertices@);
        let top = extreme(ops, false, &zs);
        let bottom = extreme(ops, true, &zs);
        let h = ops.minus(top, bottom);
        assert(is_extreme(ops, false, heights(vertices@), top) && is_extreme(
            ops,
            true,
            heights(vertices@),
            bottom,
        ));
        h
    }

    /// The length of the waist loop.
    pub fn waist_circumference<T: Copy, O: MeasureOps<T>>(
        &self,
        vertices: &Vec<[T; 3]>,
        zero: T,
        ops: &O,
    ) -> (c: T)
        requires
            self.fits(vertices@.len() as int),
        ensures
            is_circumference(ops, zero, self.waist_vertex_indices@, vertices@, c),
    {
        let before = self.waist_predecessors();
        let ghost waist = self.waist_vertex_indices@;
        let mut lengths: Vec<T> = Vec::new();
        for i in 0..self.waist_vertex_indices.len()
            invariant
                self.fits(vertices@.len() as int),
                waist == self.waist_vertex_indices@,
                before@.len() == waist.len(),
                forall|j: int| 0 < j < before@.len() ==> #[trigger] before@[j] == waist[j - 1],
                before@.len() > 0 ==> before@[0] == waist.last(),
                lengths@.len() == i,
                forall|j: int|
                    0 <= j < i ==> crate::utils::distance::is_distance(
                        ops,
                        vertices@[predecessor(waist, j) as int]@,
                        vertices@[waist[j] as int]@,
                        #[trigger] lengths@[j],
                    ),
        {
            assert(before@[i as int] == predecessor(waist, i as int));
            assert(waist[i as int] < vertices@.len());
            assert(waist[waist.len() - 1] < vertices@.len());
            if i > 0 {
                assert(waist[i - 1] < vertices@.len());
            }
            let a = vertices[before[i] as usize];
            let b = vertices[self.waist_vertex_indices[i] as usize];
            lengths.push(distance(&a, &b, ops));
        }
        total(&lengths, zero, ops)
    }

    /// The volume that the triangles enclose.
    pub fn volume<T: Copy, O: MeasureOps<T>>(
        &self,
        vertices: &Vec<[T; 3]>,
        zero: T,
        ops: &O,
    ) -> (v: T)
        requires
            self.fits(vertices@.len() as int),
        ensures
            is_volume(ops, zero, self.triangular_faces@, vertices@, v),
    {
        let mut parts: Vec<T> = Vec::new();
        for i in 0..self.triangular_faces.len()
            invariant
                self.fits(vertices@.len() as int),
                parts@.len() == i,
                forall|j: int|
                    0 <= j < i ==> is_signed_volume(
                        ops,
                        vertices@[self.triangular_faces@[j]@[0] as int],
                        vertices@[self.triangular_faces@[j]@[1] as int],
                        vertices@[self.triangular_faces@[j]@[2] as int],
                        #[trigger] parts@[j],
                    ),
        {
            let t = self.triangular_faces[i];
            proof {
                assert(self.triangular_faces@[i as int]@[0] < vertices@.len());
                assert(self.triangular_faces@[i as int]@[1] < vertices@.len());
                assert(self.triangular_faces@[i as int]@[2] < vertices@.len());
            }
            let a = vertices[t[0] as usize];
            let b = vertices[t[1] as usize];
            let c = vertices[t[2] as usize];
            let n = [
                minor(ops, a[1], b[2], a[2], b[1]),
                minor(ops, a[2], b[0], a[0], b[2]),
                minor(ops, a[0], b[1], a[1], b[0]),
            ];
            let x = inner(ops, &n, &c);
            let part = ops.sixth(x);
            assert(crate::rotation::is_inner(ops, n@, c@, x));
            assert(is_signed_volume(ops, a, b, c, part));
            parts.push(part);
        }
        let sum = total(&parts, zero, ops);
        let v = ops.absolute(sum);
        assert(crate::utils::shares::is_total(ops, zero, parts@, sum));
        v
    }

    /// The mass of the body, by its density.
    pub fn mass<T: Copy, O: MeasureOps<T>>(
        &self,
        vertices: &Vec<[T; 3]>,
        zero: T,
        density: T,
        ops: &O,
    ) -> (m: T)
        requires
            self.fits(vertices@.len() as int),
        ensures
            is_mass(ops, zero, density, self.triangular_faces@, vertices@, m),
    {
        let v = self.volume(vertices, zero, ops);
        ops.times(v, density)
    }

    /// The mass over the square of the height.
    pub fn bmi<T: Copy, O: MeasureOps<T>>(
        &self,
        vertices: &Vec<[T; 3]>,
        zero: T,
        density: T,
        ops: &O,
    ) -> (x: T)
        requires
            vertices@.len() > 0,
            self.fits(vertices@.len() as int),
        ensures
            is_bmi(ops, zero, density, self.triangular_faces@, vertices@, x),
    {
        let h = self.height(vertices, ops);
        let m = self.mass(vertices, zero, density, ops);
        let square = ops.times(h, h);
        assert(crate::scalar::product_of(ops, h, h, square));
        ops.quotient(m, square)
    }

    /// All measurements of a body.
    pub fn measurements<T: Copy, O: MeasureOps<T>>(
        &self,
        vertices: &Vec<[T; 3]>,
        zero: T,
        density: T,
        ops: &O,
    ) -> (r: Measurements<T>)
        requires
            vertices@.len() > 0,
            self.fits(vertices@.len() as int),
        ensures
            is_height(ops, vertices@, r.height),
            is_circumference(
                ops,
                zero,
                self.waist_vertex_indices@,
                vertices@,
                r.waist_circumference,
            ),
            is_volume(ops, zero, self.triangular_faces@, vertices@, r.volume),
            is_mass(ops, zero, density, self.triangular_faces@, vertices@, r.mass),
            is_bmi(ops, zero, density, self.triangular_faces@, vertices@, r.bmi),
    {
        Measurements {
            height: self.height(vertices, ops),
            waist_circumference: self.waist_circumference(vertices, zero, ops),
            volume: self.volume(vertices, zero, ops),
            mass: self.mass(vertices, zero, density, ops),
            bmi: self.bmi(vertices, zero, density, ops),
        }
    }
}

} // verus!
