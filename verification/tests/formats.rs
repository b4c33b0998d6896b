use std::io::Write;

use anny_rs::data::obj::{self, ObjError};
use anny_rs::data::target_gz::{self, TargetGzError};
use anny_rs::face_segmentation::{FaceSegmentation, SegmentationError};
use anny_rs::names::{alphabetical, contains, find_first, is_before, same};
use anny_rs::paths::{anny2smplx_path, cache_dir, cache_dir_in, join};
use anny_rs::text::{
    chars_of, decode_line, float_literal, parse_signed, parse_unsigned, push_decimal, split_lines,
    split_slashes, split_words, string_of, IntFault,
};

fn gz(text: &[u8]) -> Vec<u8> {
    let mut e = flate2::write::GzEncoder::new(Vec::new(), flate2::Compression::default());
    e.write_all(text).unwrap();
    e.finish().unwrap()
}

fn strings(words: &[&str]) -> Vec<String> {
    words.iter().map(|w| w.to_string()).collect()
}

const CUBE: &str = "# a comment\nmtllib cube.mtl\no first\nv 0 0 0\nv 1.5 -2e-3 .5\nv 1 1 0\n\
    vt 0.25 0.75\nvt 1 0\ng body extra\nf 1/1 2/2 3/1\ng joint\nf 3 2 1\ng body\nf 1//7 3/ 2/x\n";

#[test]
fn obj_groups_keep_their_faces() {
    let mesh = obj::load(CUBE.as_bytes()).unwrap();
    assert_eq!(mesh.vertices.len(), 3);
    assert_eq!(mesh.vertices[1], ["1.5".to_string(), "-2e-3".to_string(), ".5".to_string()]);
    assert_eq!(mesh.texture_coordinates, vec![["0.25".to_string(), "0.75".to_string()], ["1".to_string(), "0".to_string()]]);
    assert_eq!(mesh.group_order(), strings(&["body", "joint"]));
    let body = mesh.group("body").unwrap();
    assert_eq!(body.face_vertex_indices, vec![vec![0, 1, 2], vec![0, 2, 1]]);
    assert_eq!(body.face_texture_coordinate_indices, vec![vec![0, 1, 0], vec![]]);
    let joint = mesh.group("joint").unwrap();
    assert_eq!(joint.face_vertex_indices, vec![vec![2, 1, 0]]);
    assert!(mesh.group("nothing").is_none());
}

#[test]
fn obj_faces_before_a_group_have_no_name() {
    let mesh = obj::load(b"v 0 0 0\nf 1 1 1\n").unwrap();
    assert_eq!(mesh.group_order(), strings(&["noname"]));
}

#[test]
fn obj_reading_stops_at_the_second_object() {
    let mesh = obj::load(b"o a\nv 0 0 0\no b\nv broken\n").unwrap();
    assert_eq!(mesh.vertices.len(), 1);
}

#[test]
fn obj_errors_name_line_and_fault() {
    let cases: [(&[u8], usize, &str); 6] = [
        (b"v 1 2", 1, "vertex needs 3 coords, got 2"),
        (b"\nv 1 2 x", 2, "vertex parse: invalid float literal"),
        (b"vt 1", 1, "vt needs 2 coords, got 1"),
        (b"vt 1 1..2", 1, "texture coord parse: invalid float literal"),
        (b"# c\n\nf 1 a/2 3", 3, "face vertex index: a/2"),
        (b"f 1 /2", 1, "face vertex index: /2"),
    ];
    for (text, at, want) in cases {
        match obj::load(text) {
            Err(ObjError::Malformed { line, msg }) => {
                assert_eq!(line, at);
                assert_eq!(msg, want);
            }
            other => panic!("{:?}", other),
        }
    }
    match obj::load(b"v 0 0 0\n\xff\xfe\n") {
        Err(ObjError::InvalidUtf8 { line }) => assert_eq!(line, 2),
        other => panic!("{:?}", other),
    }
}

#[test]
fn saved_meshes_read_back() {
    let vertices = vec![
        ["0".to_string(), "1".to_string(), "2".to_string()],
        ["-1.5".to_string(), "3.25".to_string(), "0.1".to_string()],
    ];
    let faces = vec![vec![0, 1, 0], vec![1, 0, 1, 0]];
    let text = obj::save(&vertices, &faces);
    assert_eq!(text, "v 0 1 2\nv -1.5 3.25 0.1\nf 1 2 1\nf 2 1 2 1\n");
    let mesh = obj::load(text.as_bytes()).unwrap();
    assert_eq!(mesh.vertices, vertices);
    assert_eq!(mesh.group("noname").unwrap().face_vertex_indices, faces);
}

#[test]
fn targets_hold_offsets_by_vertex() {
    let r = target_gz::load(&gz(b"1 .5 0 -1\n\n3 1 2 3\r\n1 4 5 6\n"), 4).unwrap();
    assert!(r[0].is_none());
    assert_eq!(r[1], Some(["4".to_string(), "5".to_string(), "6".to_string()]));
    assert!(r[2].is_none());
    assert_eq!(r[3], Some(["1".to_string(), "2".to_string(), "3".to_string()]));
}

#[test]
fn empty_target_is_all_zeros() {
    // The content is empty, so no vertex has an offset.
    let buf = target_gz::load(&gz(b""), 19158).unwrap();
    assert_eq!(buf.len(), 19158);
    assert!(buf.iter().all(|x| x.is_none()));
}

#[test]
fn target_errors_name_line_and_fault() {
    let cases: [(&[u8], usize, &str); 5] = [
        (b"x 1 2 3", 1, "vertex id parse: invalid digit found in string"),
        (b"-1 1 2 3", 1, "vertex id parse: invalid digit found in string"),
        (b"99999999999999999999999 1 2 3", 1, "vertex id parse: number too large to fit in target type"),
        (b"0 1 2 3\n1 1 2", 2, "offset needs 3 floats, got 2"),
        (b"0 1 2 z", 1, "offset parse: invalid float literal"),
    ];
    for (text, at, want) in cases {
        match target_gz::load(&gz(text), 4) {
            Err(TargetGzError::Malformed { line, msg }) => {
                assert_eq!(line, at);
                assert_eq!(msg, want);
            }
            other => panic!("{:?}", other),
        }
    }
    match target_gz::load(&gz(b"4 0 0 0"), 4) {
        Err(TargetGzError::OutOfBounds { id, count }) => assert_eq!((id, count), (4, 4)),
        other => panic!("{:?}", other),
    }
    match target_gz::load(&gz(b"0 0 0 0\n\xff\n"), 4) {
        Err(TargetGzError::InvalidUtf8 { line }) => assert_eq!(line, 2),
        other => panic!("{:?}", other),
    }
    assert!(matches!(target_gz::load(b"not compressed", 4), Err(TargetGzError::Gzip)));
    let whole = gz(b"0 1 2 3\n1 1 2 3\n2 1 2 3\n");
    assert!(matches!(target_gz::load(&whole[..whole.len() - 6], 4), Err(TargetGzError::Gzip)));
}

#[test]
fn target_text_without_compression() {
    let r = target_gz::read(b"0 1 2 3\n", true, 1).unwrap();
    assert_eq!(r[0], Some(["1".to_string(), "2".to_string(), "3".to_string()]));
    assert!(matches!(target_gz::read(b"0 1 2 3\n", false, 1), Err(TargetGzError::Gzip)));
}

#[test]
fn lines_and_words() {
    let lines = split_lines(b"a\nb\r\n\nc");
    assert_eq!(lines, vec![b"a".to_vec(), b"b\r".to_vec(), b"".to_vec(), b"c".to_vec()]);
    assert!(split_lines(b"").is_empty());
    assert_eq!(decode_line(&"h\u{e9}".as_bytes().to_vec()), Some(vec!['h', '\u{e9}']));
    assert_eq!(decode_line(&vec![0xff]), None);
    let words = split_words(&chars_of("  one\ttwo\u{a0}three "));
    let words: Vec<String> = words.iter().map(string_of).collect();
    assert_eq!(words, strings(&["one", "two", "three"]));
    let parts = split_slashes(&chars_of("1//3"));
    let parts: Vec<String> = parts.iter().map(string_of).collect();
    assert_eq!(parts, strings(&["1", "", "3"]));
}

#[test]
fn integers() {
    assert_eq!(parse_unsigned(&chars_of("042")), Ok(42));
    assert_eq!(parse_unsigned(&chars_of("+7")), Ok(7));
    assert_eq!(parse_unsigned(&chars_of("+")), Err(IntFault::InvalidDigit));
    assert_eq!(parse_unsigned(&chars_of("18446744073709551616")), Err(IntFault::TooLarge));
    assert_eq!(parse_signed(&chars_of("-9223372036854775808")), Some(i64::MIN));
    assert_eq!(parse_signed(&chars_of("9223372036854775808")), None);
    assert_eq!(parse_signed(&chars_of("-")), None);
    let mut s = String::from("n=");
    push_decimal(&mut s, 0);
    push_decimal(&mut s, 18446744073709551615);
    assert_eq!(s, "n=018446744073709551615");
}

#[test]
fn float_literals_are_those_that_parse() {
    for s in [
        "1", "-1", "+1", "1.", ".5", "1.5e3", "1e-3", "1E+3", "inf", "-Infinity", "NaN", "nan", "+inf",
        "", ".", "e5", "1e", "1e+", "1.2.3", "0x1", "1_0", "+-1", "in", "infinit", "1 ",
    ] {
        assert_eq!(float_literal(&chars_of(s)), s.parse::<f64>().is_ok(), "{:?}", s);
    }
}

#[test]
fn names_are_found_and_ordered() {
    let names = strings(&["b", "a", "b", "aa"]);
    assert!(same("x", "x") && !same("x", "y"));
    assert_eq!(find_first(&names, "b"), Some(0));
    assert_eq!(find_first(&names, "z"), None);
    assert!(contains(&vec!["a", "b"], "b"));
    assert!(is_before("a", "aa") && is_before("aa", "b") && !is_before("b", "b"));
    assert_eq!(alphabetical(&names).iter().map(|i| names[*i].as_str()).collect::<Vec<_>>(), vec!["a", "aa", "b", "b"]);
}

#[test]
fn cache_locations() {
    let bytes = |s: &str| s.as_bytes().to_vec();
    assert_eq!(join(&bytes("a"), "b"), bytes("a/b"));
    assert_eq!(join(&bytes("a/"), "b"), bytes("a/b"));
    assert_eq!(join(&bytes(""), "b"), bytes("b"));
    assert_eq!(cache_dir_in(Some("/x".to_string()), Some(bytes("/h"))), bytes("/x"));
    assert_eq!(cache_dir_in(None, Some(bytes("/h"))), bytes("/h/.cache/anny"));
    assert_eq!(cache_dir_in(None, None), bytes(".anny"));
    // A home that is no text is still a home.
    let odd = cache_dir_in(None, Some(vec![b'/', 0xff]));
    assert_eq!(odd, [vec![b'/', 0xff], bytes("/.cache/anny")].concat());
    assert_eq!(cache_dir(Some("/set".to_string())), bytes("/set"));
    let found = dirs::home_dir().map(|p| p.into_os_string().into_encoded_bytes());
    assert_eq!(cache_dir(None), cache_dir_in(None, found));
    assert_eq!(anny2smplx_path(&bytes("/c")), bytes("/c/noncommercial/anny2smplx.pth"));
}

#[test]
fn face_colours_select_faces() {
    let colours = vec![("head".to_string(), [1, 2, 3]), ("hand".to_string(), [4, 5, 6])];
    let s = FaceSegmentation::new(colours, vec![[1, 2, 3], [4, 5, 6], [9, 9, 9]]);
    assert_eq!(s.color("hand"), Some([4, 5, 6]));
    assert_eq!(s.color("foot"), None);
    assert_eq!(s.face_mask(&vec!["head"]).unwrap(), vec![true, false, false]);
    assert_eq!(s.face_mask(&vec!["hand", "head"]).unwrap(), vec![true, true, false]);
    assert_eq!(s.face_mask(&vec![]).unwrap(), vec![false, false, false]);
    match s.face_mask(&vec!["head", "foot"]) {
        Err(SegmentationError::UnknownLabel(l)) => assert_eq!(l, "foot"),
        other => panic!("{:?}", other),
    }
}
