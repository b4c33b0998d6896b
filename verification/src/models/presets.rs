//! Hand and head models: which bones and faces of the body they keep.
use vstd::prelude::*;
use vstd::string::*;

use crate::face_segmentation::{FaceSegmentation, SegmentationError};
use crate::models::full_model::ModelOptions;
use crate::names::contains;

verus! {

/// A hand.
#[derive(Debug, Clone, Copy, PartialEq, Eq, Structural)]
pub enum HandSide {
    Left,
    Right,
}

pub open spec fn side_suffix(side: HandSide) -> Seq<char> {
    match side {
        HandSide::Left => "L"@,
        HandSide::Right => "R"@,
    }
}

impl HandSide {
    /// How the names of bones and body parts of the side end.
    pub fn suffix(self) -> (r: &'static str)
        ensures
            r@ == side_suffix(self),
    {
        match self {
            HandSide::Left => "L",
            HandSide::Right => "R",
        }
    }
}

/// The bones of a hand, without the ending of the side.
pub open spec fn hand_bone_stems() -> Seq<Seq<char>> {
    seq![
        "wrist"@,
        "finger1-1"@,
        "finger1-2"@,
        "finger1-3"@,
        "metacarpal1"@,
        "finger2-1"@,
        "finger2-2"@,
        "finger2-3"@,
        "metacarpal2"@,
        "finger3-1"@,
        "finger3-2"@,
        "finger3-3"@,
        "metacarpal3"@,
        "finger4-1"@,
        "finger4-2"@,
        "finger4-3"@,
        "metacarpal4"@,
        "finger5-1"@,
        "finger5-2"@,
        "finger5-3"@,
    ]
}

/// A name and the ending of a side.
pub open spec fn sided(stem: Seq<char>, side: HandSide) -> Seq<char> {
    stem + "."@ + side_suffix(side)
}

fn sided_name(stem: &str, side: HandSide) -> (r: String)
    ensures
        r@ == sided(stem@, side),
{
    stem.to_owned().concat(".").concat(side.suffix())
}

/// The bones of a hand.
pub fn hand_bones(side: HandSide) -> (r: Vec<String>)
    ensures
        crate::names::views(r@) =~= hand_bone_stems().map_values(
            |stem: Seq<char>| sided(stem, side),
        ),
{
    let stems: Vec<&str> = vec![
        "wrist",
        "finger1-1",
        "finger1-2",
        "finger1-3",
        "metacarpal1",
        "finger2-1",
        "finger2-2",
        "finger2-3",
        "metacarpal2",
        "finger3-1",
        "finger3-2",
        "finger3-3",
        "metacarpal3",
        "finger4-1",
        "finger4-2",
        "finger4-3",
        "metacarpal4",
        "finger5-1",
        "finger5-2",
        "finger5-3",
    ];
    proof {
        assert(crate::names::str_views(stems@) =~= hand_bone_stems());
    }
    let mut r: Vec<String> = Vec::new();
    for i in 0..stems.len()
        invariant
            crate::names::str_views(stems@) == hand_bone_stems(),
            r@.len() == i,
            forall|j: int|
                0 <= j < i ==> (#[trigger] r@[j])@ == sided(hand_bone_stems()[j], side),
    {
        assert(stems@[i as int]@ == hand_bone_stems()[i as int]);
        r.push(sided_name(stems[i], side));
    }
    assert(stems@.len() == crate::names::str_views(stems@).len());
    r
}

/// The body part of a hand.
pub fn hand_part(side: HandSide) -> (r: String)
    ensures
        r@ == sided("hand"@, side),
{
    sided_name("hand", side)
}

pub open spec fn neck_bones() -> Seq<Seq<char>> {
    seq!["neck01"@, "neck02"@, "neck03"@, "head"@]
}

/// The bones that move the face.
pub open spec fn facial_bones() -> Seq<Seq<char>> {
    seq![
        "jaw"@,
        "special04"@,
        "oris02"@,
        "oris01"@,
        "oris06.L"@,
        "oris07.L"@,
        "oris06.R"@,
        "oris07.R"@,
        "levator02.L"@,
        "levator03.L"@,
        "levator04.L"@,
        "levator05.L"@,
        "levator02.R"@,
        "levator03.R"@,
        "levator04.R"@,
        "levator05.R"@,
        "special01"@,
        "oris04.L"@,
        "oris03.L"@,
        "oris04.R"@,
        "oris03.R"@,
        "oris06"@,
        "oris05"@,
        "special03"@,
        "levator06.L"@,
        "levator06.R"@,
        "special06.L"@,
        "special05.L"@,
        "orbicularis03.L"@,
        "orbicularis04.L"@,
        "special06.R"@,
        "special05.R"@,
        "orbicularis03.R"@,
        "orbicularis04.R"@,
        "temporalis01.L"@,
        "oculi02.L"@,
        "oculi01.L"@,
        "temporalis01.R"@,
        "oculi02.R"@,
        "oculi01.R"@,
        "temporalis02.L"@,
        "risorius02.L"@,
        "risorius03.L"@,
        "temporalis02.R"@,
        "risorius02.R"@,
        "risorius03.R"@,
    ]
}

pub open spec fn eye_bones() -> Seq<Seq<char>> {
    seq!["eye.L"@, "eye.R"@]
}

pub open spec fn tongue_bones() -> Seq<Seq<char>> {
    seq![
        "tongue00"@,
        "tongue01"@,
        "tongue02"@,
        "tongue03"@,
        "tongue04"@,
        "tongue05.L"@,
        "tongue05.R"@,
        "tongue06.L"@,
        "tongue06.R"@,
        "tongue07.L"@,
        "tongue07.R"@,
    ]
}

/// The bones of a head, with those of the eyes and of the tongue as wanted.
pub open spec fn head_bone_list(eyes: bool, tongue: bool) -> Seq<Seq<char>> {
    neck_bones() + facial_bones() + (if eyes {
        eye_bones()
    } else {
        Seq::empty()
    }) + (if tongue {
        tongue_bones()
    } else {
        Seq::empty()
    })
}

/// The bones of a head, with those of the eyes and of the tongue as wanted.
pub fn head_bones(eyes: bool, tongue: bool) -> (r: Vec<&'static str>)
    ensures
        crate::names::str_views(r@) =~= head_bone_list(eyes, tongue),
{
    let mut r: Vec<&'static str> = vec![
        "neck01",
        "neck02",
        "neck03",
        "head",
        "jaw",
        "special04",
        "oris02",
        "oris01",
        "oris06.L",
        "oris07.L",
        "oris06.R",
        "oris07.R",
        "levator02.L",
        "levator03.L",
        "levator04.L",
        "levator05.L",
        "levator02.R",
        "levator03.R",
        "levator04.R",
        "levator05.R",
        "special01",
        "oris04.L",
        "oris03.L",
        "oris04.R",
        "oris03.R",
        "oris06",
        "oris05",
        "special03",
        "levator06.L",
        "levator06.R",
        "special06.L",
        "special05.L",
        "orbicularis03.L",
        "orbicularis04.L",
        "special06.R",
        "special05.R",
        "orbicularis03.R",
        "orbicularis04.R",
        "temporalis01.L",
        "oculi02.L",
        "oculi01.L",
        "temporalis01.R",
        "oculi02.R",
        "oculi01.R",
        "temporalis02.L",
        "risorius02.L",
        "risorius03.L",
        "temporalis02.R",
        "risorius02.R",
        "risorius03.R",
    ];
    assert(crate::names::str_views(r@) =~= neck_bones() + facial_bones());
    if eyes {
        let ghost before = r@;
        r.push("eye.L");
        r.push("eye.R");
        assert(crate::names::str_views(r@) =~= crate::names::str_views(before) + eye_bones());
    }
    if tongue {
        let ghost before = r@;
        let mut more: Vec<&'static str> = vec![
            "tongue00",
            "tongue01",
            "tongue02",
            "tongue03",
            "tongue04",
            "tongue05.L",
            "tongue05.R",
            "tongue06.L",
            "tongue06.R",
            "tongue07.L",
            "tongue07.R",
        ];
        assert(crate::names::str_views(more@) =~= tongue_bones());
        let ghost added = more@;
        r.append(&mut more);
        assert(crate::names::str_views(r@) =~= crate::names::str_views(before)
            + crate::names::str_views(added));
    }
    r
}

/// The body parts of a head. With the eyes, the back of the left eye stands
/// twice and that of the right eye does not stand.
pub open spec fn head_part_list(eyes: bool, tongue: bool) -> Seq<Seq<char>> {
    seq!["head"@, "eye_cavity.R"@, "eye_cavity.L"@, "mouth_cavity"@] + (if eyes {
        seq!["eye_front.L"@, "eye_back.L"@, "eye_front.R"@, "eye_back.L"@]
    } else {
        Seq::empty()
    }) + (if tongue {
        seq!["tongue"@]
    } else {
        Seq::empty()
    })
}

/// The body parts of a head.
pub fn head_parts(eyes: bool, tongue: bool) -> (r: Vec<&'static str>)
    ensures
        crate::names::str_views(r@) =~= head_part_list(eyes, tongue),
{
    let mut r: Vec<&'static str> = vec!["head", "eye_cavity.R", "eye_cavity.L", "mouth_cavity"];
    if eyes {
        r.push("eye_front.L");
        r.push("eye_back.L");
        r.push("eye_front.R");
        r.push("eye_back.L");
    }
    if tongue {
        r.push("tongue");
    }
    r
}

/// The bones that a model of a body part does without: all but those to keep,
/// in their order.
pub fn bones_to_remove(labels: &Vec<String>, keep: &Vec<&str>) -> (r: Vec<String>)
    ensures
        crate::names::views(r@) =~= crate::names::others(
            crate::names::views(labels@),
            crate::names::str_views(keep@),
            labels@.len(),
        ),
{
    let ghost all = crate::names::views(labels@);
    let ghost kept = crate::names::str_views(keep@);
    let mut r: Vec<String> = Vec::new();
    for i in 0..labels.len()
        invariant
            all == crate::names::views(labels@),
            kept == crate::names::str_views(keep@),
            crate::names::views(r@) =~= crate::names::others(all, kept, i as nat),
    {
        assert(all[i as int] == labels@[i as int]@);
        if !contains(keep, labels[i].as_str()) {
            let ghost before = r@;
            r.push(labels[i].clone());
            assert(crate::names::views(r@) =~= crate::names::views(before).push(all[i as int]));
        }
    }
    r
}

/// The slices of a list of strings.
fn slices(names: &Vec<String>) -> (r: Vec<&str>)
    ensures
        crate::names::str_views(r@) =~= crate::names::views(names@),
{
    let mut r: Vec<&str> = Vec::new();
    for i in 0..names.len()
        invariant
            r@.len() == i,
            forall|j: int| 0 <= j < i ==> (#[trigger] r@[j])@ == names@[j]@,
    {
        r.push(names[i].as_str());
    }
    r
}

/// The bones that a hand model does without.
pub fn hand_bones_to_remove(labels: &Vec<String>, side: HandSide) -> (r: Vec<String>)
    ensures
        crate::names::views(r@) =~= crate::names::others(
            crate::names::views(labels@),
            hand_bone_stems().map_values(|stem: Seq<char>| sided(stem, side)),
            labels@.len(),
        ),
{
    let keep = hand_bones(side);
    let keep = slices(&keep);
    bones_to_remove(labels, &keep)
}

/// The bones that a head model does without.
pub fn head_bones_to_remove(labels: &Vec<String>, eyes: bool, tongue: bool) -> (r: Vec<String>)
    ensures
        crate::names::views(r@) =~= crate::names::others(
            crate::names::views(labels@),
            head_bone_list(eyes, tongue),
            labels@.len(),
        ),
{
    let keep = head_bones(eyes, tongue);
    bones_to_remove(labels, &keep)
}

/// The options of a model that does without the bones `gone` and keeps the
/// faces of the parts, on top of `base`.
pub open spec fn reduced_options(
    base: ModelOptions,
    gone: Seq<Seq<char>>,
    seg: FaceSegmentation,
    parts: Seq<Seq<char>>,
    r: Result<ModelOptions, SegmentationError>,
) -> bool {
    exists|labels: Seq<&str>| #[trigger]
        crate::names::str_views(labels) == parts && match r {
            Ok(opts) => {
                &&& crate::names::views(opts.bones_to_remove@) == gone
                &&& opts.faces_to_keep is Some
                &&& crate::face_segmentation::mask_outcome(
                    seg.label_to_color@,
                    seg.face_colors@,
                    labels,
                    Ok(opts.faces_to_keep->0),
                )
                &&& opts == (ModelOptions {
                    bones_to_remove: opts.bones_to_remove,
                    faces_to_keep: opts.faces_to_keep,
                    ..base
                })
            },
            Err(e) => crate::face_segmentation::mask_outcome(
                seg.label_to_color@,
                seg.face_colors@,
                labels,
                Err(e),
            ),
        }
}

/// The options of a hand model, from those of the whole body, the labels of
/// its bones and its segmentation.
pub fn hand_options(
    opts: ModelOptions,
    side: HandSide,
    bone_labels: &Vec<String>,
    segmentation: &FaceSegmentation,
) -> (r: Result<ModelOptions, SegmentationError>)
    ensures
        reduced_options(
            opts,
            crate::names::others(
                crate::names::views(bone_labels@),
                hand_bone_stems().map_values(|stem: Seq<char>| sided(stem, side)),
                bone_labels@.len(),
            ),
            *segmentation,
            seq![sided("hand"@, side)],
            r,
        ),
{
    let part = hand_part(side);
    let mut labels: Vec<&str> = Vec::new();
    labels.push(part.as_str());
    assert(crate::names::str_views(labels@) =~= seq![sided("hand"@, side)]);
    match segmentation.face_mask(&labels) {
        Ok(mask) => {
            let gone = hand_bones_to_remove(bone_labels, side);
            Ok(ModelOptions { bones_to_remove: gone, faces_to_keep: Some(mask), ..opts })
        },
        Err(e) => Err(e),
    }
}

/// The options of the whole body from which a head model is made.
pub fn head_body_options(opts: ModelOptions, eyes: bool, tongue: bool) -> (r: ModelOptions)
    ensures
        r == (ModelOptions { include_eyes: eyes, include_tongue: tongue, ..opts }),
{
    ModelOptions { include_eyes: eyes, include_tongue: tongue, ..opts }
}

/// The options of a head model, from those of the whole body, the labels of
/// its bones and its segmentation.
pub fn head_options(
    opts: ModelOptions,
    eyes: bool,
    tongue: bool,
    bone_labels: &Vec<String>,
    segmentation: &FaceSegmentation,
) -> (r: Result<ModelOptions, SegmentationError>)
    ensures
        reduced_options(
            (ModelOptions { include_eyes: eyes, include_tongue: tongue, ..opts }),
            crate::names::others(
                crate::names::views(bone_labels@),
                head_bone_list(eyes, tongue),
                bone_labels@.len(),
            ),
            *segmentation,
            head_part_list(eyes, tongue),
            r,
        ),
{
    let labels = head_parts(eyes, tongue);
    assert(crate::names::str_views(labels@) == head_part_list(eyes, tongue));
    match segmentation.face_mask(&labels) {
        Ok(mask) => {
            let gone = head_bones_to_remove(bone_labels, eyes, tongue);
            let body = head_body_options(opts, eyes, tongue);
            Ok(ModelOptions { bones_to_remove: gone, faces_to_keep: Some(mask), ..body })
        },
        Err(e) => Err(e),
    }
}

} // verus!
