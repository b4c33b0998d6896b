//! Which bones and parts hands and heads keep.
use vstd::prelude::*;
use vstd::string::*;

use crate::face_segmentation::{FaceSegmentation, SegmentationError};
use crate::models::full_model::ModelOptions;
use crate::models::presets::HandSide;

verus! {

/// A finger and a joint of it, counted from one, by name.
pub open spec fn finger_bone(finger: char, joint: char) -> Seq<char> {
    seq!['f', 'i', 'n', 'g', 'e', 'r', finger, '-', joint]
}

/// The bone in the palm that leads to a finger.
pub open spec fn palm_bone(finger: char) -> Seq<char> {
    seq!['m', 'e', 't', 'a', 'c', 'a', 'r', 'p', 'a', 'l', finger]
}

/// The letter of a side.
pub open spec fn letter(side: HandSide) -> char {
    match side {
        HandSide::Left => 'L',
        HandSide::Right => 'R',
    }
}

/// The bone belongs to the hand: the wrist, one of the three joints of the five fingers or
/// one of the four bones in the palm, followed by a dot and the letter of the side.
pub open spec fn is_of_hand(bone: Seq<char>, side: HandSide) -> bool {
    &&& bone.len() >= 2
    &&& bone[bone.len() - 1] == letter(side)
    &&& bone[bone.len() - 2] == '.'
    &&& is_hand_stem(bone.take(bone.len() - 2))
}

/// The name without its side.
pub open spec fn is_hand_stem(stem: Seq<char>) -> bool {
    ||| stem == seq!['w', 'r', 'i', 's', 't']
    ||| stem.len() == 9 && '1' <= stem[6] <= '5' && '1' <= stem[8] <= '3' && stem == finger_bone(
        stem[6],
        stem[8],
    )
    ||| stem.len() == 11 && '1' <= stem[10] <= '4' && stem == palm_bone(stem[10])
}

/// The places of the bones in the list.
spec fn place_of(stem: Seq<char>) -> int {
    if stem.len() == 5 {
        0
    } else if stem.len() == 9 {
        1 + 4 * (stem[6] as int - '1' as int) + (stem[8] as int - '1' as int)
    } else {
        4 + 4 * (stem[10] as int - '1' as int)
    }
}

#[verifier::rlimit(60)]
proof fn lemma_stems()
    ensures
        ({
            let s = crate::models::presets::hand_bone_stems();
            &&& s.len() == 20
            &&& s[0] == seq!['w', 'r', 'i', 's', 't']
            &&& s[1] == finger_bone('1', '1') && s[2] == finger_bone('1', '2') && s[3]
                == finger_bone('1', '3') && s[4] == palm_bone('1')
            &&& s[5] == finger_bone('2', '1') && s[6] == finger_bone('2', '2') && s[7]
                == finger_bone('2', '3') && s[8] == palm_bone('2')
            &&& s[9] == finger_bone('3', '1') && s[10] == finger_bone('3', '2') && s[11]
                == finger_bone('3', '3') && s[12] == palm_bone('3')
            &&& s[13] == finger_bone('4', '1') && s[14] == finger_bone('4', '2') && s[15]
                == finger_bone('4', '3') && s[16] == palm_bone('4')
            &&& s[17] == finger_bone('5', '1') && s[18] == finger_bone('5', '2') && s[19]
                == finger_bone('5', '3')
        }),
{
    reveal_strlit("wrist");
    reveal_strlit("finger1-1");
    reveal_strlit("finger1-2");
    reveal_strlit("finger1-3");
    reveal_strlit("metacarpal1");
    reveal_strlit("finger2-1");
    reveal_strlit("finger2-2");
    reveal_strlit("finger2-3");
    reveal_strlit("metacarpal2");
    reveal_strlit("finger3-1");
    reveal_strlit("finger3-2");
    reveal_strlit("finger3-3");
    reveal_strlit("metacarpal3");
    reveal_strlit("finger4-1");
    reveal_strlit("finger4-2");
    reveal_strlit("finger4-3");
    reveal_strlit("metacarpal4");
    reveal_strlit("finger5-1");
    reveal_strlit("finger5-2");
    reveal_strlit("finger5-3");
    let s = crate::models::presets::hand_bone_stems();
    assert(s[0] =~= seq!['w', 'r', 'i', 's', 't']);
    assert(s[1] =~= finger_bone('1', '1'));
    assert(s[2] =~= finger_bone('1', '2'));
    assert(s[3] =~= finger_bone('1', '3'));
    assert(s[4] =~= palm_bone('1'));
    assert(s[5] =~= finger_bone('2', '1'));
    assert(s[6] =~= finger_bone('2', '2'));
    assert(s[7] =~= finger_bone('2', '3'));
    assert(s[8] =~= palm_bone('2'));
    assert(s[9] =~= finger_bone('3', '1'));
    assert(s[10] =~= finger_bone('3', '2'));
    assert(s[11] =~= finger_bone('3', '3'));
    assert(s[12] =~= palm_bone('3'));
    assert(s[13] =~= finger_bone('4', '1'));
    assert(s[14] =~= finger_bone('4', '2'));
    assert(s[15] =~= finger_bone('4', '3'));
    assert(s[16] =~= palm_bone('4'));
    assert(s[17] =~= finger_bone('5', '1'));
    assert(s[18] =~= finger_bone('5', '2'));
    assert(s[19] =~= finger_bone('5', '3'));
}

#[verifier::rlimit(60)]
proof fn lemma_hand_stem(stem: Seq<char>)
    ensures
        is_hand_stem(stem) <==> crate::models::presets::hand_bone_stems().contains(stem),
{
    lemma_stems();
    let s = crate::models::presets::hand_bone_stems();
    if is_hand_stem(stem) {
        let k = place_of(stem);
        if stem.len() == 9 {
            let (d, p) = (stem[6], stem[8]);
            assert(d == '1' || d == '2' || d == '3' || d == '4' || d == '5');
            assert(p == '1' || p == '2' || p == '3');
        } else if stem.len() == 11 {
            let d = stem[10];
            assert(d == '1' || d == '2' || d == '3' || d == '4');
        }
        assert(s[k] == stem);
    }
    if s.contains(stem) {
        let k = choose|k: int| 0 <= k < s.len() && s[k] == stem;
        assert(is_hand_stem(s[k]));
    }
}

proof fn lemma_hand_bone(bone: Seq<char>, side: HandSide)
    ensures
        is_of_hand(bone, side) <==> crate::models::presets::hand_bone_stems().map_values(
            |stem: Seq<char>| crate::models::presets::sided(stem, side),
        ).contains(bone),
{
    reveal_strlit(".");
    reveal_strlit("L");
    reveal_strlit("R");
    let s = crate::models::presets::hand_bone_stems();
    let all = s.map_values(|stem: Seq<char>| crate::models::presets::sided(stem, side));
    if is_of_hand(bone, side) {
        let stem = bone.take(bone.len() - 2);
        lemma_hand_stem(stem);
        let k = choose|k: int| 0 <= k < s.len() && s[k] == stem;
        assert(crate::models::presets::sided(stem, side) =~= bone);
        assert(all[k] == bone);
    }
    if all.contains(bone) {
        let k = choose|k: int| 0 <= k < all.len() && all[k] == bone;
        let stem = s[k];
        assert(bone == crate::models::presets::sided(stem, side));
        assert(bone.take(bone.len() - 2) =~= stem);
        assert(s.contains(stem));
        lemma_hand_stem(stem);
    }
}

/// Whether a list of names holds a name.
pub open spec fn holds(names: Seq<String>, name: Seq<char>) -> bool {
    exists|i: int| 0 <= i < names.len() && (#[trigger] names[i])@ == name
}

proof fn lemma_holds(names: Seq<String>, name: Seq<char>)
    ensures
        holds(names, name) <==> crate::names::views(names).contains(name),
{
    let v = crate::names::views(names);
    if holds(names, name) {
        let i = choose|i: int| 0 <= i < names.len() && (#[trigger] names[i])@ == name;
        assert(v[i] == name);
    }
    if v.contains(name) {
        let i = choose|i: int| 0 <= i < v.len() && v[i] == name;
        assert(names[i]@ == name);
    }
}

proof fn lemma_removed(labels: Seq<String>, keep: Seq<Seq<char>>, r: Seq<String>, bone: Seq<char>)
    requires
        crate::names::views(r) == crate::names::others(
            crate::names::views(labels),
            keep,
            labels.len(),
        ),
    ensures
        holds(r, bone) <==> holds(labels, bone) && !keep.contains(bone),
{
    let all = crate::names::views(labels);
    crate::names::law_others_not_kept(all, keep, labels.len(), bone);
    assert(all.take(labels.len() as int) =~= all);
    lemma_holds(r, bone);
    lemma_holds(labels, bone);
}

/// A hand model keeps of the bones those of its own hand, and does without every other
/// one, those of the other hand among them.
pub proof fn law_hands_keep_their_bones(
    labels: Vec<String>,
    side: HandSide,
    r: Vec<String>,
    bone: Seq<char>,
)
    requires
        call_ensures(crate::models::presets::hand_bones_to_remove, (&labels, side), r),
    ensures
        holds(r@, bone) <==> holds(labels@, bone) && !is_of_hand(bone, side),
{
    let keep = crate::models::presets::hand_bone_stems().map_values(
        |stem: Seq<char>| crate::models::presets::sided(stem, side),
    );
    lemma_removed(labels@, keep, r@, bone);
    lemma_hand_bone(bone, side);
}

/// The name begins as those of the bones of the tongue.
pub open spec fn is_of_tongue(bone: Seq<char>) -> bool {
    bone.len() > 6 && bone.take(6) == seq!['t', 'o', 'n', 'g', 'u', 'e']
}

/// The name is that of an eye.
pub open spec fn is_of_eye(bone: Seq<char>) -> bool {
    bone == seq!['e', 'y', 'e', '.', 'L'] || bone == seq!['e', 'y', 'e', '.', 'R']
}

#[verifier::rlimit(60)]
proof fn lemma_tongue(k: int)
    ensures
        0 <= k < crate::models::presets::tongue_bones().len() ==> is_of_tongue(
            crate::models::presets::tongue_bones()[k],
        ) && !is_of_eye(crate::models::presets::tongue_bones()[k]),
{
    reveal_strlit("tongue00");
    reveal_strlit("tongue01");
    reveal_strlit("tongue02");
    reveal_strlit("tongue03");
    reveal_strlit("tongue04");
    reveal_strlit("tongue05.L");
    reveal_strlit("tongue05.R");
    reveal_strlit("tongue06.L");
    reveal_strlit("tongue06.R");
    reveal_strlit("tongue07.L");
    reveal_strlit("tongue07.R");
    let s = crate::models::presets::tongue_bones();
    let t = seq!['t', 'o', 'n', 'g', 'u', 'e'];
    assert(s[0].take(6) =~= t);
    assert(s[1].take(6) =~= t);
    assert(s[2].take(6) =~= t);
    assert(s[3].take(6) =~= t);
    assert(s[4].take(6) =~= t);
    assert(s[5].take(6) =~= t);
    assert(s[6].take(6) =~= t);
    assert(s[7].take(6) =~= t);
    assert(s[8].take(6) =~= t);
    assert(s[9].take(6) =~= t);
    assert(s[10].take(6) =~= t);
}

proof fn lemma_eyes()
    ensures
        crate::models::presets::eye_bones() == seq![
            seq!['e', 'y', 'e', '.', 'L'],
            seq!['e', 'y', 'e', '.', 'R'],
        ],
{
    reveal_strlit("eye.L");
    reveal_strlit("eye.R");
    let s = crate::models::presets::eye_bones();
    assert(s[0] =~= seq!['e', 'y', 'e', '.', 'L']);
    assert(s[1] =~= seq!['e', 'y', 'e', '.', 'R']);
}

/// Two head models of one body with the same tongue do without the same bones, but for
/// those of the eyes: with its eyes a head keeps the bones of both. And two with the same
/// eyes differ only by bones of the tongue, all of which the one with its tongue keeps.
pub proof fn law_heads_differ_by_eyes_and_tongue(
    labels: Vec<String>,
    eyes: bool,
    tongue: bool,
    r: Vec<String>,
    without_eyes: Vec<String>,
    without_tongue: Vec<String>,
    bone: Seq<char>,
)
    requires
        call_ensures(crate::models::presets::head_bones_to_remove, (&labels, eyes, tongue), r),
        call_ensures(
            crate::models::presets::head_bones_to_remove,
            (&labels, false, tongue),
            without_eyes,
        ),
        call_ensures(
            crate::models::presets::head_bones_to_remove,
            (&labels, eyes, false),
            without_tongue,
        ),
    ensures
        holds(r@, bone) ==> holds(labels@, bone),
        eyes && is_of_eye(bone) ==> !holds(r@, bone),
        !(eyes && is_of_eye(bone)) ==> (holds(r@, bone) <==> holds(without_eyes@, bone)),
        !(tongue && is_of_tongue(bone)) ==> (holds(r@, bone) <==> holds(without_tongue@, bone)),
{
    let keep = crate::models::presets::head_bone_list(eyes, tongue);
    let blind = crate::models::presets::head_bone_list(false, tongue);
    let mute = crate::models::presets::head_bone_list(eyes, false);
    lemma_removed(labels@, keep, r@, bone);
    lemma_removed(labels@, blind, without_eyes@, bone);
    lemma_removed(labels@, mute, without_tongue@, bone);
    lemma_head_list(eyes, tongue, bone);
    lemma_head_list(false, tongue, bone);
    lemma_head_list(eyes, false, bone);
    lemma_eyes();
    let e = crate::models::presets::eye_bones();
    assert(e[0] == seq!['e', 'y', 'e', '.', 'L'] && e[1] == seq!['e', 'y', 'e', '.', 'R']);
    assert(is_of_eye(bone) <==> e.contains(bone));
    let t = crate::models::presets::tongue_bones();
    if t.contains(bone) {
        let k = choose|k: int| 0 <= k < t.len() && t[k] == bone;
        lemma_tongue(k);
    }
}

proof fn lemma_in_sum(a: Seq<Seq<char>>, b: Seq<Seq<char>>, bone: Seq<char>)
    ensures
        (a + b).contains(bone) <==> a.contains(bone) || b.contains(bone),
{
    let s = a + b;
    if a.contains(bone) {
        let k = choose|k: int| 0 <= k < a.len() && a[k] == bone;
        assert(s[k] == bone);
    }
    if b.contains(bone) {
        let k = choose|k: int| 0 <= k < b.len() && b[k] == bone;
        assert(s[a.len() + k] == bone);
    }
    if s.contains(bone) {
        let k = choose|k: int| 0 <= k < s.len() && s[k] == bone;
        if k < a.len() {
            assert(a[k] == bone);
        } else {
            assert(b[k - a.len()] == bone);
        }
    }
}

proof fn lemma_head_list(eyes: bool, tongue: bool, bone: Seq<char>)
    ensures
        crate::models::presets::head_bone_list(eyes, tongue).contains(bone) <==> {
            ||| crate::models::presets::neck_bones().contains(bone)
            ||| crate::models::presets::facial_bones().contains(bone)
            ||| eyes && crate::models::presets::eye_bones().contains(bone)
            ||| tongue && crate::models::presets::tongue_bones().contains(bone)
        },
{
    let a = crate::models::presets::neck_bones();
    let b = crate::models::presets::facial_bones();
    let c = if eyes {
        crate::models::presets::eye_bones()
    } else {
        Seq::empty()
    };
    let d = if tongue {
        crate::models::presets::tongue_bones()
    } else {
        Seq::empty()
    };
    lemma_in_sum(a + b + c, d, bone);
    lemma_in_sum(a + b, c, bone);
    lemma_in_sum(a, b, bone);
}

/// The options of a head model ask for its eyes and its tongue as wanted, and leave all
/// the rest, but the bones and the faces, as it was.
pub proof fn law_heads_ask_for_eyes_and_tongue(
    opts: ModelOptions,
    eyes: bool,
    tongue: bool,
    labels: Vec<String>,
    segmentation: FaceSegmentation,
    r: ModelOptions,
)
    requires
        call_ensures(
            crate::models::presets::head_options,
            (opts, eyes, tongue, &labels, &segmentation),
            Ok::<ModelOptions, SegmentationError>(r),
        ),
    ensures
        r.include_eyes == eyes,
        r.include_tongue == tongue,
        r.rig == opts.rig,
        r.topology == opts.topology,
        r.remove_unattached_vertices == opts.remove_unattached_vertices,
        r.default_pose_parameterization == opts.default_pose_parameterization,
        r.skinning_method == opts.skinning_method,
        r.extrapolate_phenotypes == opts.extrapolate_phenotypes,
        r.all_phenotypes == opts.all_phenotypes,
        r.include_genital_morphs == opts.include_genital_morphs,
        r.faces_to_keep is Some,
        r.faces_to_keep->0@.len() == segmentation.face_colors@.len(),
{
}

/// The options of a hand model keep, of the faces, those of the color of that hand, and
/// leave all the rest, but the bones, as it was.
pub proof fn law_hands_keep_their_faces(
    opts: ModelOptions,
    side: HandSide,
    labels: Vec<String>,
    segmentation: FaceSegmentation,
    r: ModelOptions,
    f: int,
)
    requires
        call_ensures(
            crate::models::presets::hand_options,
            (opts, side, &labels, &segmentation),
            Ok::<ModelOptions, SegmentationError>(r),
        ),
        0 <= f < segmentation.face_colors@.len(),
    ensures
        r.faces_to_keep is Some,
        r.faces_to_keep->0@.len() == segmentation.face_colors@.len(),
        r.faces_to_keep->0@[f] <==> crate::face_segmentation::pixel_laws::is_last_color(
            segmentation.label_to_color@,
            seq!['h', 'a', 'n', 'd', '.', letter(side)],
            segmentation.face_colors@[f]@,
        ),
        r.include_eyes == opts.include_eyes,
        r.include_tongue == opts.include_tongue,
        r.rig == opts.rig,
        r.topology == opts.topology,
        r.remove_unattached_vertices == opts.remove_unattached_vertices,
        r.default_pose_parameterization == opts.default_pose_parameterization,
        r.skinning_method == opts.skinning_method,
        r.extrapolate_phenotypes == opts.extrapolate_phenotypes,
        r.all_phenotypes == opts.all_phenotypes,
        r.include_genital_morphs == opts.include_genital_morphs,
{
    reveal_strlit("hand");
    reveal_strlit(".");
    reveal_strlit("L");
    reveal_strlit("R");
    let name = crate::models::presets::sided("hand"@, side);
    assert(name =~= seq!['h', 'a', 'n', 'd', '.', letter(side)]);
    let (colors, faces) = (segmentation.label_to_color@, segmentation.face_colors@);
    let parts = choose|parts: Seq<&str>| #[trigger]
        crate::names::str_views(parts) == seq![name]
            && crate::face_segmentation::mask_outcome(
            colors,
            faces,
            parts,
            Ok(r.faces_to_keep->0),
        );
    let views = crate::names::str_views(parts);
    assert(views.len() == parts.len());
    assert(views[0] == parts[0]@);
    let face = faces[f]@;
    let mask = r.faces_to_keep->0@;
    assert(mask[f] <==> crate::face_segmentation::is_wanted(
        colors,
        parts,
        parts.len() as int,
        face,
    ));
    if crate::face_segmentation::pixel_laws::is_last_color(colors, name, face) {
        crate::face_segmentation::pixel_laws::lemma_color(colors, name, face);
        assert(crate::face_segmentation::color_of(colors, parts[0]@) == Some(face));
    }
    if mask[f] {
        crate::face_segmentation::pixel_laws::lemma_color(colors, name, face);
    }
}

} // verus!
