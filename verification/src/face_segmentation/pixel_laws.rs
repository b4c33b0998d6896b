//! Where the colour of a face is read, and which faces a mask holds.
use vstd::prelude::*;

use crate::face_segmentation::{FaceSegmentation, PixelOps, SegmentationError};

verus! {

/// Counts, means and roundings are exact in the numbers that `value` stands for.
pub open spec fn samples_exactly<T, O: PixelOps<T>>(
    ops: &O,
    value: spec_fn(T) -> real,
    nearest: spec_fn(real) -> int,
) -> bool {
    &&& crate::scalar::is_exact(ops, value)
    &&& crate::models::shape_laws::averages_exactly(ops, value)
    &&& crate::phenotype::row_laws::counts_exactly(ops, value)
    &&& forall|a: T, r: i64| #[trigger]
        call_ensures(O::rounded, (ops, a), r) ==> r == nearest(value(a))
}

/// `m` is the mean of one texture coordinate over the corners of the face.
pub open spec fn is_corner_mean<T>(
    value: spec_fn(T) -> real,
    texture: Seq<[T; 2]>,
    face: Seq<u32>,
    c: int,
    m: real,
) -> bool {
    m * face.len() as real == crate::utils::sums::sum(
        |i: int| value(texture[face[i] as int]@[c]),
        face.len(),
    )
}

proof fn lemma_mean<T, O: PixelOps<T>>(
    ops: &O,
    zero: T,
    texture: Seq<[T; 2]>,
    face: Seq<u32>,
    c: int,
    m: T,
    value: spec_fn(T) -> real,
    nearest: spec_fn(real) -> int,
)
    requires
        samples_exactly(ops, value, nearest),
        value(zero) == 0 as real,
        0 < face.len() <= usize::MAX,
        crate::utils::mean::is_mean(
            ops,
            zero,
            crate::face_segmentation::corner_coordinates(texture, face, c),
            m,
        ),
    ensures
        is_corner_mean(value, texture, face, c, value(m)),
{
    let list = crate::face_segmentation::corner_coordinates(texture, face, c);
    let sum = choose|sum: T| #[trigger]
        crate::utils::shares::is_total(ops, zero, list, sum) && crate::utils::mean::over_of(
            ops,
            sum,
            list.len() as usize,
            m,
        );
    crate::utils::sums::lemma_total(ops, zero, list, sum, value);
    crate::utils::sums::lemma_same_sum(
        |i: int| value(list[i]),
        |i: int| value(texture[face[i] as int]@[c]),
        face.len(),
    );
}

/// In exact arithmetic the centre of a face in an image is, across, the mean of the first
/// texture coordinate of its corners, by the width, and down, what the mean of
/// the second leaves of one, by the height.
pub proof fn law_centre_of_face<T: Copy, O: PixelOps<T>>(
    ops: &O,
    texture: Vec<[T; 2]>,
    face: Vec<u32>,
    width: usize,
    height: usize,
    zero: T,
    one: T,
    at: (i64, i64),
    value: spec_fn(T) -> real,
    nearest: spec_fn(real) -> int,
) -> (means: (real, real))
    requires
        samples_exactly(ops, value, nearest),
        value(zero) == 0 as real,
        value(one) == 1 as real,
        face@.len() > 0,
        call_ensures(
            crate::face_segmentation::face_centre::<T, O>,
            (&texture, &face, width, height, zero, one, ops),
            at,
        ),
    ensures
        is_corner_mean(value, texture@, face@, 0, means.0),
        is_corner_mean(value, texture@, face@, 1, means.1),
        at.0 == nearest(means.0 * width as real),
        at.1 == nearest((1 as real - means.1) * height as real),
{
    let (u, v, down) = choose|u: T, v: T, down: T|
        {
            &&& #[trigger] crate::utils::mean::is_mean(
                ops,
                zero,
                crate::face_segmentation::corner_coordinates(texture@, face@, 0),
                u,
            )
            &&& #[trigger] crate::utils::mean::is_mean(
                ops,
                zero,
                crate::face_segmentation::corner_coordinates(texture@, face@, 1),
                v,
            )
            &&& #[trigger] crate::scalar::difference_of(ops, one, v, down)
            &&& crate::face_segmentation::is_pixel(ops, u, width, at.0)
            &&& crate::face_segmentation::is_pixel(ops, down, height, at.1)
        };
    assert(face.len() == face@.len());
    lemma_mean(ops, zero, texture@, face@, 0, u, value, nearest);
    lemma_mean(ops, zero, texture@, face@, 1, v, value, nearest);
    (value(u), value(v))
}

/// A face has the colour of the pixel at its centre: the three bytes at the column and
/// the row of the centre, where these are in the image.
pub proof fn law_color_of_face<T: Copy, O: PixelOps<T>>(
    ops: &O,
    texture: Vec<[T; 2]>,
    faces: Vec<Vec<u32>>,
    pixels: Vec<u8>,
    width: usize,
    height: usize,
    zero: T,
    one: T,
    colors: Vec<[u8; 3]>,
    f: int,
) -> (at: (i64, i64))
    requires
        call_ensures(
            crate::face_segmentation::sample_face_colors::<T, O>,
            (&texture, &faces, &pixels, width, height, zero, one, ops),
            Ok::<Vec<[u8; 3]>, SegmentationError>(colors),
        ),
        0 < width <= i64::MAX,
        0 < height <= i64::MAX,
        0 <= f < faces@.len(),
        forall|at: (i64, i64)| #[trigger]
            crate::face_segmentation::is_centre(
                ops,
                zero,
                one,
                texture@,
                faces@[f]@,
                width,
                height,
                at,
            ) ==> 0 <= at.0 && 0 <= at.1 && at.0 < width && at.0 < height && at.1 < width && at.1
                < height && 3 * (at.1 * width + at.0) + 3 <= pixels@.len(),
    ensures
        colors@.len() == faces@.len(),
        crate::face_segmentation::is_centre(
            ops,
            zero,
            one,
            texture@,
            faces@[f]@,
            width,
            height,
            at,
        ),
        forall|c: int|
            0 <= c < 3 ==> #[trigger] colors@[f]@[c] == pixels@[3 * (at.1 * width + at.0) + c],
{
    assert(faces@[f] == faces@[f]);
    assert(crate::face_segmentation::has_color(
        ops,
        zero,
        one,
        texture@,
        faces@[f]@,
        pixels@,
        width,
        height,
        colors@[f]@,
    ));
    let at = choose|at: (i64, i64)| #[trigger]
        crate::face_segmentation::is_centre(
            ops,
            zero,
            one,
            texture@,
            faces@[f]@,
            width,
            height,
            at,
        ) && colors@[f]@ == pixels@.subrange(
            crate::face_segmentation::pixel_offset(at, width as int, height as int),
            crate::face_segmentation::pixel_offset(at, width as int, height as int) + 3,
        );
    let o = crate::face_segmentation::pixel_offset(at, width as int, height as int);
    assert(o == 3 * (at.1 * width + at.0));
    assert(0 <= at.1 * width) by (nonlinear_arith)
        requires
            0 <= at.1,
            0 < width,
    ;
    assert forall|c: int| 0 <= c < 3 implies #[trigger] colors@[f]@[c] == pixels@[3 * (at.1
        * width + at.0) + c] by {
        assert(colors@[f]@[c] == pixels@.subrange(o, o + 3)[c]);
    }
    at
}

/// The colour of a label is the last that is given for it.
pub open spec fn is_last_color(
    colors: Seq<(String, [u8; 3])>,
    label: Seq<char>,
    color: Seq<u8>,
) -> bool {
    exists|i: int|
        {
            &&& 0 <= i < colors.len()
            &&& (#[trigger] colors[i]).0@ == label
            &&& colors[i].1@ == color
            &&& forall|k: int| i < k < colors.len() ==> (#[trigger] colors[k]).0@ != label
        }
}

pub proof fn lemma_color(colors: Seq<(String, [u8; 3])>, label: Seq<char>, color: Seq<u8>)
    ensures
        crate::face_segmentation::color_of(colors, label) == Some(color) <==> is_last_color(
            colors,
            label,
            color,
        ),
{
    let names = crate::face_segmentation::color_names(colors);
    crate::names::lemma_last_at(names, label);
    match crate::names::last_at(names, label) {
        Some(i) => {
            assert(names[i] == colors[i].0@);
            assert forall|k: int| i < k < colors.len() implies (#[trigger] colors[k]).0@
                != label by {
                assert(names[k] != label);
            }
            if is_last_color(colors, label, color) {
                let j = choose|j: int|
                    {
                        &&& 0 <= j < colors.len()
                        &&& (#[trigger] colors[j]).0@ == label
                        &&& colors[j].1@ == color
                        &&& forall|k: int|
                            j < k < colors.len() ==> (#[trigger] colors[k]).0@ != label
                    };
                assert(names[j] == label);
                assert(i == j);
            }
        },
        None => {
            if is_last_color(colors, label, color) {
                let j = choose|j: int| 0 <= j < colors.len() && (#[trigger] colors[j]).0@ == label;
                assert(names[j] == label);
            }
        },
    }
}

/// The mask of some labels holds exactly the faces with the colour of one of them.
pub proof fn law_mask_holds_colors(
    s: FaceSegmentation,
    labels: Vec<&str>,
    mask: Vec<bool>,
    f: int,
)
    requires
        call_ensures(
            FaceSegmentation::face_mask,
            (&s, &labels),
            Ok::<Vec<bool>, SegmentationError>(mask),
        ),
        0 <= f < s.face_colors@.len(),
    ensures
        mask@.len() == s.face_colors@.len(),
        mask@[f] <==> exists|k: int|
            0 <= k < labels@.len() && is_last_color(
                s.label_to_color@,
                (#[trigger] labels@[k])@,
                s.face_colors@[f]@,
            ),
{
    let (colors, face) = (s.label_to_color@, s.face_colors@[f]@);
    assert(crate::face_segmentation::mask_outcome(colors, s.face_colors@, labels@, Ok(mask)));
    assert(mask@[f] <==> crate::face_segmentation::is_wanted(
        colors,
        labels@,
        labels@.len() as int,
        face,
    ));
    if mask@[f] {
        let k = choose|k: int|
            0 <= k < labels@.len() && crate::face_segmentation::color_of(
                colors,
                #[trigger] labels@[k]@,
            ) == Some(face);
        lemma_color(colors, labels@[k]@, face);
    }
    if exists|k: int|
        0 <= k < labels@.len() && is_last_color(colors, (#[trigger] labels@[k])@, face) {
        let k = choose|k: int|
            0 <= k < labels@.len() && is_last_color(colors, (#[trigger] labels@[k])@, face);
        lemma_color(colors, labels@[k]@, face);
    }
}

} // verus!
