//! Which faces belong to a body part, from the colors of a segmentation
//! image.
pub mod pixel_laws;

use vstd::prelude::*;

use crate::names::same;
use crate::phenotype::rows::CountOps;
use crate::utils::mean::MeanOps;
use crate::utils::shares::total;

verus! {

/// What stops a segmentation.
#[derive(Debug, Clone)]
pub enum SegmentationError {
    /// The body part has no color.
    UnknownLabel(String),
    /// A face has no texture coordinates.
    MissingTextureCoords,
}

/// The colors of the body parts, and the color of each face.
#[derive(Debug, Clone)]
pub struct FaceSegmentation {
    pub label_to_color: Vec<(String, [u8; 3])>,
    pub face_colors: Vec<[u8; 3]>,
}

/// The names of a list of colors.
pub open spec fn color_names(colors: Seq<(String, [u8; 3])>) -> Seq<Seq<char>> {
    Seq::new(colors.len(), |i: int| colors[i].0@)
}

/// The color of a body part. Where the name stands twice, the later color
/// counts.
pub open spec fn color_of(colors: Seq<(String, [u8; 3])>, label: Seq<char>) -> Option<Seq<u8>> {
    match crate::names::last_at(color_names(colors), label) {
        Some(i) => Some(colors[i].1@),
        None => None,
    }
}

/// Whether one of the first `n` labels has the color.
pub open spec fn is_wanted(
    colors: Seq<(String, [u8; 3])>,
    labels: Seq<&str>,
    n: int,
    color: Seq<u8>,
) -> bool {
    exists|k: int| 0 <= k < n && color_of(colors, #[trigger] labels[k]@) == Some(color)
}

/// The outcome of asking for the faces of body parts: the first label without
/// a color, or whether each face has the color of one of the labels.
pub open spec fn mask_outcome(
    colors: Seq<(String, [u8; 3])>,
    faces: Seq<[u8; 3]>,
    labels: Seq<&str>,
    r: Result<Vec<bool>, SegmentationError>,
) -> bool {
    match r {
        Ok(mask) => {
            &&& forall|k: int| 0 <= k < labels.len() ==> color_of(colors, #[trigger] labels[k]@) is Some
            &&& mask@.len() == faces.len()
            &&& forall|i: int|
                0 <= i < faces.len() ==> (#[trigger] mask@[i] <==> is_wanted(
                    colors,
                    labels,
                    labels.len() as int,
                    faces[i]@,
                ))
        },
        Err(SegmentationError::UnknownLabel(l)) => exists|k: int|
            {
                &&& 0 <= k < labels.len()
                &&& (#[trigger] labels[k])@ == l@
                &&& color_of(colors, l@) is None
                &&& forall|j: int| 0 <= j < k ==> color_of(colors, #[trigger] labels[j]@) is Some
            },
        Err(_) => false,
    }
}

/// Whether two colors are the same.
fn same_color(a: &[u8; 3], b: &[u8; 3]) -> (r: bool)
    ensures
        r == (a@ == b@),
{
    let r = a[0] == b[0] && a[1] == b[1] && a[2] == b[2];
    assert(r ==> a@ =~= b@);
    r
}

impl FaceSegmentation {
    /// A segmentation with the given colors of body parts and faces.
    pub fn new(label_to_color: Vec<(String, [u8; 3])>, face_colors: Vec<[u8; 3]>) -> (r: Self)
        ensures
            r.label_to_color == label_to_color,
            r.face_colors == face_colors,
    {
        FaceSegmentation { label_to_color, face_colors }
    }

    /// The color of a body part.
    pub fn color(&self, label: &str) -> (r: Option<[u8; 3]>)
        ensures
            match r {
                Some(c) => color_of(self.label_to_color@, label@) == Some(c@),
                None => color_of(self.label_to_color@, label@) is None,
            },
    {
        let ghost names = color_names(self.label_to_color@);
        let mut i: usize = self.label_to_color.len();
        while i > 0
            invariant
                i <= self.label_to_color@.len(),
                names == color_names(self.label_to_color@),
                forall|j: int| i <= j < names.len() ==> names[j] != label@,
            decreases i,
        {
            i = i - 1;
            if same(self.label_to_color[i].0.as_str(), label) {
                proof {
                    crate::names::lemma_last_at_is(names, label@, i as int);
                }
                return Some(self.label_to_color[i].1);
            }
        }
        proof {
            crate::names::lemma_last_at(names, label@);
        }
        None
    }

    /// For each face, whether it belongs to one of the body parts.
    pub fn face_mask(&self, labels: &Vec<&str>) -> (r: Result<Vec<bool>, SegmentationError>)
        ensures
            mask_outcome(self.label_to_color@, self.face_colors@, labels@, r),
    {
        let ghost colors = self.label_to_color@;
        let mut targets: Vec<[u8; 3]> = Vec::new();
        for k in 0..labels.len()
            invariant
                colors == self.label_to_color@,
                targets@.len() == k,
                forall|j: int|
                    0 <= j < k ==> color_of(colors, (#[trigger] labels@[j])@) == Some(targets@[j]@),
        {
            match self.color(labels[k]) {
                Some(c) => targets.push(c),
                None => {
                    assert(labels@[k as int]@ == labels@[k as int]@);
                    return Err(SegmentationError::UnknownLabel(labels[k].to_owned()));
                },
            }
        }
        let mut mask: Vec<bool> = Vec::new();
        for i in 0..self.face_colors.len()
            invariant
                colors == self.label_to_color@,
                targets@.len() == labels@.len(),
                forall|j: int|
                    0 <= j < labels@.len() ==> color_of(colors, (#[trigger] labels@[j])@) == Some(
                        targets@[j]@,
                    ),
                mask@.len() == i,
                forall|j: int|
                    0 <= j < i ==> (#[trigger] mask@[j] <==> is_wanted(
                        colors,
                        labels@,
                        labels@.len() as int,
                        self.face_colors@[j]@,
                    )),
        {
            let ghost face = self.face_colors@[i as int]@;
            let mut wanted = false;
            for k in 0..targets.len()
                invariant
                    i < self.face_colors@.len(),
                    face == self.face_colors@[i as int]@,
                    targets@.len() == labels@.len(),
                    forall|j: int|
                        0 <= j < labels@.len() ==> color_of(colors, (#[trigger] labels@[j])@)
                            == Some(targets@[j]@),
                    wanted <==> is_wanted(colors, labels@, k as int, face),
            {
                let ghost before = wanted;
                let hit = same_color(&self.face_colors[i], &targets[k]);
                proof {
                    assert(color_of(colors, labels@[k as int]@) == Some(targets@[k as int]@));
                    if is_wanted(colors, labels@, k + 1, face) && !before {
                        let j = choose|j: int|
                            0 <= j < k + 1 && color_of(colors, #[trigger] labels@[j]@) == Some(face);
                        assert(j == k);
                    }
                }
                if hit {
                    wanted = true;
                }
            }
            mask.push(wanted);
        }
        Ok(mask)
    }
}

/// `v`, or the end of the range from 0 to `top` that is nearest to it.
pub open spec fn clamped(v: int, top: int) -> int {
    if v < 0 {
        0
    } else if v > top {
        top
    } else {
        v
    }
}

/// Where the color of the pixel nearest to a texture position begins in the
/// buffer. The horizontal position is kept below the height of the image, and
/// the vertical one below its width; in a square image that is the same.
pub open spec fn pixel_offset(at: (i64, i64), width: int, height: int) -> int {
    (clamped(at.1 as int, width - 1) * width + clamped(at.0 as int, height - 1)) * 3
}

fn clamp(v: i64, top: usize) -> (r: usize)
    requires
        top <= i64::MAX,
    ensures
        r == clamped(v as int, top as int),
{
    if v < 0 {
        0
    } else if v > top as i64 {
        top
    } else {
        v as usize
    }
}

/// The operations that turn texture coordinates into pixels. Nothing is taken
/// for granted of what they return.
pub trait PixelOps<T>: MeanOps<T> + CountOps<T> {
    /// The nearest whole number.
    fn rounded(&self, a: T) -> i64;
}

/// One coordinate of the corners of a face in the texture.
pub open spec fn corner_coordinates<T>(texture: Seq<[T; 2]>, face: Seq<u32>, c: int) -> Seq<T> {
    Seq::new(face.len(), |i: int| texture[face[i] as int]@[c])
}

/// `r` is the pixel at `share` of the `n` pixels.
pub open spec fn is_pixel<T, O: PixelOps<T>>(ops: &O, share: T, n: usize, r: i64) -> bool {
    exists|count: T, x: T| #[trigger]
        call_ensures(O::number, (ops, n), count) && #[trigger] crate::scalar::product_of(
            ops,
            share,
            count,
            x,
        ) && call_ensures(O::rounded, (ops, x), r)
}

/// `at` is the pixel at the centre of the face: the mean of the texture
/// coordinates of its corners, across the width and from the top of the image.
pub open spec fn is_centre<T, O: PixelOps<T>>(
    ops: &O,
    zero: T,
    one: T,
    texture: Seq<[T; 2]>,
    face: Seq<u32>,
    width: usize,
    height: usize,
    at: (i64, i64),
) -> bool {
    exists|u: T, v: T, down: T|
        {
            &&& #[trigger] crate::utils::mean::is_mean(
                ops,
                zero,
                corner_coordinates(texture, face, 0),
                u,
            )
            &&& #[trigger] crate::utils::mean::is_mean(
                ops,
                zero,
                corner_coordinates(texture, face, 1),
                v,
            )
            &&& #[trigger] crate::scalar::difference_of(ops, one, v, down)
            &&& is_pixel(ops, u, width, at.0)
            &&& is_pixel(ops, down, height, at.1)
        }
}

fn mean_corner<T: Copy, O: PixelOps<T>>(
    texture: &Vec<[T; 2]>,
    face: &Vec<u32>,
    c: usize,
    zero: T,
    ops: &O,
) -> (r: T)
    requires
        c < 2,
        corners_within(face@, texture@.len()),
    ensures
        crate::utils::mean::is_mean(ops, zero, corner_coordinates(texture@, face@, c as int), r),
{
    let mut list: Vec<T> = Vec::new();
    for i in 0..face.len()
        invariant
            c < 2,
            corners_within(face@, texture@.len()),
            list@ =~= corner_coordinates(texture@, face@.take(i as int), c as int),
    {
        assert(face@[i as int] < texture@.len());
        list.push(texture[face[i] as usize][c]);
    }
    assert(face@.take(face@.len() as int) =~= face@);
    let sum = total(&list, zero, ops);
    ops.over(sum, list.len())
}

fn pixel<T: Copy, O: PixelOps<T>>(share: T, n: usize, ops: &O) -> (r: i64)
    ensures
        is_pixel(ops, share, n, r),
{
    let count = ops.number(n);
    let x = ops.times(share, count);
    assert(call_ensures(O::number, (ops, n), count));
    assert(crate::scalar::product_of(ops, share, count, x));
    ops.rounded(x)
}

/// Every corner of the face has texture coordinates.
pub open spec fn corners_within(face: Seq<u32>, n: nat) -> bool {
    forall|i: int| 0 <= i < face.len() ==> #[trigger] face[i] < n
}

/// The pixel at the centre of a face. It may lie outside the image.
pub fn face_centre<T: Copy, O: PixelOps<T>>(
    texture: &Vec<[T; 2]>,
    face: &Vec<u32>,
    width: usize,
    height: usize,
    zero: T,
    one: T,
    ops: &O,
) -> (at: (i64, i64))
    requires
        corners_within(face@, texture@.len()),
    ensures
        is_centre(ops, zero, one, texture@, face@, width, height, at),
{
    let u = mean_corner(texture, face, 0, zero, ops);
    let v = mean_corner(texture, face, 1, zero, ops);
    let down = ops.minus(one, v);
    assert(crate::scalar::difference_of(ops, one, v, down));
    (pixel(u, width, ops), pixel(down, height, ops))
}

/// The image has a pixel at the centre of the face.
pub open spec fn centre_within<T, O: PixelOps<T>>(
    ops: &O,
    zero: T,
    one: T,
    texture: Seq<[T; 2]>,
    face: Seq<u32>,
    width: usize,
    height: usize,
    size: nat,
) -> bool {
    forall|at: (i64, i64)| #[trigger]
        is_centre(ops, zero, one, texture, face, width, height, at) ==> pixel_offset(
            at,
            width as int,
            height as int,
        ) + 2 < size
}

/// The color is that of the pixel at the centre of the face.
pub open spec fn has_color<T, O: PixelOps<T>>(
    ops: &O,
    zero: T,
    one: T,
    texture: Seq<[T; 2]>,
    face: Seq<u32>,
    pixels: Seq<u8>,
    width: usize,
    height: usize,
    color: Seq<u8>,
) -> bool {
    exists|at: (i64, i64)| #[trigger]
        is_centre(ops, zero, one, texture, face, width, height, at) && color == pixels.subrange(
            pixel_offset(at, width as int, height as int),
            pixel_offset(at, width as int, height as int) + 3,
        )
}

/// The color of each face: that of the image at the centre of its texture
/// coordinates. A centre outside the image takes the nearest pixel.
pub fn sample_face_colors<T: Copy, O: PixelOps<T>>(
    texture: &Vec<[T; 2]>,
    faces: &Vec<Vec<u32>>,
    pixels: &Vec<u8>,
    width: usize,
    height: usize,
    zero: T,
    one: T,
    ops: &O,
) -> (r: Result<Vec<[u8; 3]>, SegmentationError>)
    requires
        0 < width <= i64::MAX,
        0 < height <= i64::MAX,
        forall|i: int|
            0 <= i < faces@.len() ==> corners_within((#[trigger] faces@[i])@, texture@.len()),
        forall|i: int|
            0 <= i < faces@.len() && (#[trigger] faces@[i])@.len() > 0 ==> centre_within(
                ops,
                zero,
                one,
                texture@,
                faces@[i]@,
                width,
                height,
                pixels@.len(),
            ),
    ensures
        match r {
            Ok(colors) => {
                &&& colors@.len() == faces@.len()
                &&& forall|i: int|
                    0 <= i < colors@.len() ==> (#[trigger] faces@[i])@.len() > 0 && has_color(
                        ops,
                        zero,
                        one,
                        texture@,
                        faces@[i]@,
                        pixels@,
                        width,
                        height,
                        colors@[i]@,
                    )
            },
            Err(e) => {
                &&& e is MissingTextureCoords
                &&& exists|i: int| 0 <= i < faces@.len() && (#[trigger] faces@[i])@.len() == 0
            },
        },
{
    let mut colors: Vec<[u8; 3]> = Vec::new();
    for i in 0..faces.len()
        invariant
            0 < width <= i64::MAX,
            0 < height <= i64::MAX,
            forall|i: int|
                0 <= i < faces@.len() ==> corners_within((#[trigger] faces@[i])@, texture@.len()),
            forall|i: int|
                0 <= i < faces@.len() && (#[trigger] faces@[i])@.len() > 0 ==> centre_within(
                    ops,
                    zero,
                    one,
                    texture@,
                    faces@[i]@,
                    width,
                    height,
                    pixels@.len(),
                ),
            colors@.len() == i,
            forall|j: int|
                0 <= j < i ==> (#[trigger] faces@[j])@.len() > 0 && has_color(
                    ops,
                    zero,
                    one,
                    texture@,
                    faces@[j]@,
                    pixels@,
                    width,
                    height,
                    colors@[j]@,
                ),
    {
        let face = &faces[i];
        if face.len() == 0 {
            return Err(SegmentationError::MissingTextureCoords);
        }
        let at: (i64, i64) = face_centre(texture, face, width, height, zero, one, ops);
        let px: usize = clamp(at.0, height - 1);
        let py: usize = clamp(at.1, width - 1);
        assert(pixel_offset(at, width as int, height as int) + 2 < pixels@.len());
        assert((py * width + px) * 3 + 2 < pixels.len());
        assert(0 <= py * width) by (nonlinear_arith);
        let off: usize = (py * width + px) * 3;
        let color = [pixels[off], pixels[off + 1], pixels[off + 2]];
        assert(color@ =~= pixels@.subrange(off as int, off + 3));
        colors.push(color);
    }
    Ok(colors)
}

/// In a square image every clamped pixel lies inside.
pub proof fn law_square_image_covers(at: (i64, i64), side: int)
    requires
        side > 0,
    ensures
        0 <= pixel_offset(at, side, side),
        pixel_offset(at, side, side) + 2 < side * side * 3,
{
    let x = clamped(at.0 as int, side - 1);
    let y = clamped(at.1 as int, side - 1);
    assert(0 <= (y * side + x) * 3 && (y * side + x) * 3 + 2 < side * side * 3) by (nonlinear_arith)
        requires
            0 <= x < side,
            0 <= y < side,
    ;
}

/// A square image with three bytes to the pixel has a pixel at the centre of every
/// face.
pub proof fn law_square_image_has_centres<T, O: PixelOps<T>>(
    ops: &O,
    zero: T,
    one: T,
    texture: Seq<[T; 2]>,
    face: Seq<u32>,
    side: usize,
    size: nat,
)
    requires
        side > 0,
        size == side * side * 3,
    ensures
        centre_within(ops, zero, one, texture, face, side, side, size),
{
    assert forall|at: (i64, i64)| #[trigger]
        is_centre(ops, zero, one, texture, face, side, side, at) implies pixel_offset(
        at,
        side as int,
        side as int,
    ) + 2 < size by {
        law_square_image_covers(at, side as int);
    }
}

} // verus!
