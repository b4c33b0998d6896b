//! Wavefront OBJ meshes.
//!
//! Faces keep their arity: a mesh may hold triangles and quads side by side,
//! and the caller decides whether to triangulate. Coordinates are kept as the
//! literals that the file writes, each of them checked to be a floating-point
//! number.
use vstd::prelude::*;
use vstd::string::*;

use crate::names::same;
use crate::text::{decode_line, float_literal, parse_signed, push_decimal, split_lines,
    split_slashes, split_words, string_of};

verus! {

/// Why a text is not a mesh.
#[derive(Debug, Clone)]
pub enum ObjError {
    /// The line with this number is not valid UTF-8.
    InvalidUtf8 { line: usize },
    Malformed { line: usize, msg: String },
}

/// The faces of one named group. Faces are variable-arity.
#[derive(Debug, Clone)]
pub struct ObjGroup {
    pub face_vertex_indices: Vec<Vec<u32>>,
    pub face_texture_coordinate_indices: Vec<Vec<u32>>,
}

/// A mesh with coordinates of type `S`.
#[derive(Debug, Clone)]
pub struct ObjMesh<S> {
    pub vertices: Vec<[S; 3]>,
    pub texture_coordinates: Vec<[S; 2]>,
    /// The groups that hold a face, in the order of their first faces. Faces
    /// before the first `g` line belong to the group `noname`.
    pub groups: Vec<(String, ObjGroup)>,
}

// ---------------------------------------------------------------------------
// Model
// ---------------------------------------------------------------------------

/// The rows of a list of lists.
pub open spec fn rows<A>(v: Seq<Vec<A>>) -> Seq<Seq<A>> {
    v.map_values(|row: Vec<A>| row@)
}

/// One `f` line, with the group that it stands in.
pub struct FaceLine {
    pub group: Seq<char>,
    pub vertices: Seq<u32>,
    pub texture: Seq<u32>,
}

/// What the lines read so far amount to.
pub struct ObjModel {
    pub vertices: Seq<Seq<Seq<char>>>,
    pub texture: Seq<Seq<Seq<char>>>,
    pub faces: Seq<FaceLine>,
    /// The group that the next face belongs to.
    pub group: Seq<char>,
}

pub open spec fn default_group() -> Seq<char> {
    seq!['n', 'o', 'n', 'a', 'm', 'e']
}

pub open spec fn empty_model() -> ObjModel {
    ObjModel {
        vertices: Seq::empty(),
        texture: Seq::empty(),
        faces: Seq::empty(),
        group: default_group(),
    }
}

/// What reading one more line leads to.
pub enum ObjStep {
    Next(ObjModel),
    /// A second object begins.
    Stop,
    InvalidUtf8,
    Malformed(Seq<char>),
}

pub open spec fn all_float_literals(args: Seq<Seq<char>>) -> bool {
    forall|i: int| 0 <= i < args.len() ==> crate::text::is_float_literal(#[trigger] args[i])
}

/// The zero-based index that a one-based OBJ index stands for, as 32 bits.
pub open spec fn zero_based(v: int) -> u32 {
    ((v - 1) % 0x1_0000_0000) as u32
}

/// The vertex index that a corner such as `7/3/1` names.
pub open spec fn corner_vertex(arg: Seq<char>) -> Option<int> {
    crate::text::signed_value(crate::text::slash_pieces(arg)[0])
}

/// The texture-coordinate index of a corner, where it names one.
pub open spec fn corner_texture(arg: Seq<char>) -> Option<int> {
    let pieces = crate::text::slash_pieces(arg);
    if pieces.len() > 1 {
        crate::text::signed_value(pieces[1])
    } else {
        None
    }
}

/// The first corner without a vertex index.
pub open spec fn bad_corner(args: Seq<Seq<char>>) -> Option<Seq<char>>
    decreases args.len(),
{
    if args.len() == 0 {
        None
    } else {
        match bad_corner(args.drop_last()) {
            Some(bad) => Some(bad),
            None => if corner_vertex(args.last()) is None {
                Some(args.last())
            } else {
                None
            },
        }
    }
}

pub open spec fn face_vertices(args: Seq<Seq<char>>) -> Seq<u32> {
    args.map_values(|arg: Seq<char>| zero_based(corner_vertex(arg)->0))
}

/// The texture-coordinate indices of the corners that name one.
pub open spec fn face_texture(args: Seq<Seq<char>>) -> Seq<u32>
    decreases args.len(),
{
    if args.len() == 0 {
        Seq::empty()
    } else {
        match corner_texture(args.last()) {
            Some(v) => face_texture(args.drop_last()).push(zero_based(v)),
            None => face_texture(args.drop_last()),
        }
    }
}

/// Reads one line, given as its words.
pub open spec fn words_step(m: ObjModel, words: Seq<Seq<char>>) -> ObjStep {
    if words.len() == 0 || words[0][0] == '#' {
        ObjStep::Next(m)
    } else {
        let args = words.skip(1);
        if words[0] == seq!['o'] {
            if m.vertices.len() > 0 {
                ObjStep::Stop
            } else {
                ObjStep::Next(m)
            }
        } else if words[0] == seq!['v'] {
            if !all_float_literals(args) {
                ObjStep::Malformed("vertex parse: invalid float literal"@)
            } else if args.len() != 3 {
                ObjStep::Malformed(
                    "vertex needs 3 coords, got "@ + crate::text::decimal(args.len()),
                )
            } else {
                ObjStep::Next(ObjModel { vertices: m.vertices.push(args), ..m })
            }
        } else if words[0] == seq!['v', 't'] {
            if !all_float_literals(args) {
                ObjStep::Malformed("texture coord parse: invalid float literal"@)
            } else if args.len() != 2 {
                ObjStep::Malformed("vt needs 2 coords, got "@ + crate::text::decimal(args.len()))
            } else {
                ObjStep::Next(ObjModel { texture: m.texture.push(args), ..m })
            }
        } else if words[0] == seq!['g'] {
            let group = if args.len() > 0 {
                args[0]
            } else {
                default_group()
            };
            ObjStep::Next(ObjModel { group, ..m })
        } else if words[0] == seq!['f'] {
            match bad_corner(args) {
                Some(bad) => ObjStep::Malformed("face vertex index: "@ + bad),
                None => {
                    let face = FaceLine {
                        group: m.group,
                        vertices: face_vertices(args),
                        texture: face_texture(args),
                    };
                    ObjStep::Next(ObjModel { faces: m.faces.push(face), ..m })
                },
            }
        } else {
            ObjStep::Next(m)
        }
    }
}

pub open spec fn line_step(m: ObjModel, line: Seq<u8>) -> ObjStep {
    match crate::text::line_chars(line) {
        None => ObjStep::InvalidUtf8,
        Some(cs) => words_step(m, crate::text::words(cs)),
    }
}

/// How far reading a text has come.
pub enum ObjProgress {
    Reading(ObjModel),
    Stopped(ObjModel),
    InvalidUtf8 { line: int },
    Malformed { line: int, msg: Seq<char> },
}

/// The progress after the first `n` lines. Lines count from one.
pub open spec fn progress(lines: Seq<Seq<u8>>, n: nat) -> ObjProgress
    decreases n,
{
    if n == 0 {
        ObjProgress::Reading(empty_model())
    } else {
        match progress(lines, (n - 1) as nat) {
            ObjProgress::Reading(m) => match line_step(m, lines[n - 1]) {
                ObjStep::Next(next) => ObjProgress::Reading(next),
                ObjStep::Stop => ObjProgress::Stopped(m),
                ObjStep::InvalidUtf8 => ObjProgress::InvalidUtf8 { line: n as int },
                ObjStep::Malformed(msg) => ObjProgress::Malformed { line: n as int, msg },
            },
            done => done,
        }
    }
}

/// What a text amounts to.
pub open spec fn outcome(lines: Seq<Seq<u8>>) -> ObjProgress {
    progress(lines, lines.len())
}

/// Once reading has ended it stays ended.
proof fn lemma_progress_ended(lines: Seq<Seq<u8>>, n: nat, end: nat)
    requires
        n <= end,
        !(progress(lines, n) is Reading),
    ensures
        progress(lines, end) == progress(lines, n),
    decreases end,
{
    if n < end {
        lemma_progress_ended(lines, n, (end - 1) as nat);
    }
}

/// The groups of the faces, in the order of their first faces.
pub open spec fn group_names(faces: Seq<FaceLine>) -> Seq<Seq<char>>
    decreases faces.len(),
{
    if faces.len() == 0 {
        Seq::empty()
    } else {
        let names = group_names(faces.drop_last());
        if names.contains(faces.last().group) {
            names
        } else {
            names.push(faces.last().group)
        }
    }
}

/// The faces of one group, in file order.
pub open spec fn group_faces(faces: Seq<FaceLine>, name: Seq<char>) -> Seq<FaceLine>
    decreases faces.len(),
{
    if faces.len() == 0 {
        Seq::empty()
    } else {
        let before = group_faces(faces.drop_last(), name);
        if faces.last().group == name {
            before.push(faces.last())
        } else {
            before
        }
    }
}

pub open spec fn vertex_rows(faces: Seq<FaceLine>) -> Seq<Seq<u32>> {
    faces.map_values(|f: FaceLine| f.vertices)
}

pub open spec fn texture_rows(faces: Seq<FaceLine>) -> Seq<Seq<u32>> {
    faces.map_values(|f: FaceLine| f.texture)
}

/// `g` holds exactly the given faces.
pub open spec fn group_is(g: ObjGroup, faces: Seq<FaceLine>) -> bool {
    &&& rows(g.face_vertex_indices@) =~= vertex_rows(faces)
    &&& rows(g.face_texture_coordinate_indices@) =~= texture_rows(faces)
}

/// `groups` is the given faces, sorted into their groups.
pub open spec fn groups_are(groups: Seq<(String, ObjGroup)>, faces: Seq<FaceLine>) -> bool {
    &&& groups.len() == group_names(faces).len()
    &&& forall|i: int|
        #![trigger groups[i]]
        0 <= i < groups.len() ==> groups[i].0@ == group_names(faces)[i] && group_is(
            groups[i].1,
            group_faces(faces, group_names(faces)[i]),
        )
}

/// The literals of a coordinate list.
pub open spec fn literals<const N: usize>(v: Seq<[String; N]>) -> Seq<Seq<Seq<char>>> {
    v.map_values(|c: [String; N]| c@.map_values(|s: String| s@))
}

/// `mesh` is what the model describes.
pub open spec fn mesh_is(mesh: ObjMesh<String>, m: ObjModel) -> bool {
    &&& literals(mesh.vertices@) =~= m.vertices
    &&& literals(mesh.texture_coordinates@) =~= m.texture
    &&& groups_are(mesh.groups@, m.faces)
}

proof fn lemma_group_names(faces: Seq<FaceLine>)
    ensures
        group_names(faces).no_duplicates(),
        forall|name: Seq<char>| !group_names(faces).contains(name) ==> #[trigger] group_faces(
            faces,
            name,
        ).len() == 0,
    decreases faces.len(),
{
    if faces.len() > 0 {
        let before = faces.drop_last();
        let last = faces.last().group;
        lemma_group_names(before);
        assert forall|name: Seq<char>| !group_names(faces).contains(name) implies
            #[trigger] group_faces(faces, name).len() == 0 by {
            let names = group_names(before);
            if names.contains(name) {
                let k = choose|k: int| 0 <= k < names.len() && names[k] == name;
                assert(names.push(last)[k] == name);
            }
            if !names.contains(last) {
                assert(names.push(last)[names.len() as int] == last);
            }
            assert(group_faces(before, name).len() == 0);
        }
    }
}

// ---------------------------------------------------------------------------
// Reading
// ---------------------------------------------------------------------------

fn add_face(
    groups: &mut Vec<(String, ObjGroup)>,
    name: &String,
    vertices: Vec<u32>,
    texture: Vec<u32>,
    Ghost(faces): Ghost<Seq<FaceLine>>,
)
    requires
        groups_are(old(groups)@, faces),
    ensures
        groups_are(
            final(groups)@,
            faces.push(
                FaceLine { group: name@, vertices: vertices@, texture: texture@ },
            ),
        ),
{
    let ghost face = FaceLine { group: name@, vertices: vertices@, texture: texture@ };
    let ghost names = group_names(faces);
    let ghost all = faces.push(face);
    proof {
        assert(all.drop_last() == faces);
        lemma_group_names(faces);
    }
    let mut i: usize = 0;
    while i < groups.len() && groups[i].0 != *name
        invariant
            i <= groups@.len(),
            groups@ == old(groups)@,
            groups_are(groups@, faces),
            names == group_names(faces),
            forall|k: int| 0 <= k < i ==> names[k] != name@,
        decreases groups.len() - i,
    {
        i = i + 1;
    }
    if i < groups.len() {
        let ghost before = groups@[i as int].1;
        groups[i].1.face_vertex_indices.push(vertices);
        groups[i].1.face_texture_coordinate_indices.push(texture);
        proof {
            assert(names[i as int] == name@);
            assert(names.contains(name@));
            assert(group_names(all) == names);
            let after = groups@[i as int].1;
            let own = group_faces(faces, name@);
            assert(group_faces(all, name@) == own.push(face));
            assert(rows(after.face_vertex_indices@) =~= rows(before.face_vertex_indices@).push(
                face.vertices,
            ));
            assert(rows(after.face_texture_coordinate_indices@) =~= rows(
                before.face_texture_coordinate_indices@,
            ).push(face.texture));
            assert(vertex_rows(own.push(face)) =~= vertex_rows(own).push(face.vertices));
            assert(texture_rows(own.push(face)) =~= texture_rows(own).push(face.texture));
            assert(group_is(after, own.push(face)));
            assert forall|j: int|
                #![trigger groups@[j]]
                0 <= j < groups@.len() implies groups@[j].0@ == group_names(all)[j] && group_is(
                groups@[j].1,
                group_faces(all, group_names(all)[j]),
            ) by {
                assert(old(groups)@[j].0@ == names[j]);
                if j != i {
                    assert(groups@[j] == old(groups)@[j]);
                    assert(names[j] != name@);
                    assert(group_faces(all, names[j]) == group_faces(faces, names[j]));
                }
            }
        }
    } else {
        let group = ObjGroup {
            face_vertex_indices: vec![vertices],
            face_texture_coordinate_indices: vec![texture],
        };
        proof {
            assert(!names.contains(name@));
            assert(group_names(all) == names.push(name@));
            assert(group_faces(faces, name@).len() == 0);
            assert(group_faces(all, name@) =~= seq![face]);
            assert(group_is(group, seq![face]));
        }
        groups.push((name.clone(), group));
        proof {
            assert forall|j: int|
                #![trigger groups@[j]]
                0 <= j < groups@.len() implies groups@[j].0@ == group_names(all)[j] && group_is(
                groups@[j].1,
                group_faces(all, group_names(all)[j]),
            ) by {
                if j < names.len() {
                    assert(groups@[j] == old(groups)@[j]);
                    assert(names[j] != name@);
                    assert(group_faces(all, names[j]) == group_faces(faces, names[j]));
                }
            }
        }
    }
}

/// Wraps a one-based index to its zero-based 32 bits.
fn to_zero_based(v: i64) -> (r: u32)
    ensures
        r == zero_based(v as int),
{
    let shifted: u128 = (v as i128 - 1 + 0x1_0000_0000_0000_0000) as u128;
    (shifted % 0x1_0000_0000) as u32
}

/// The indices of a face line, or the position of the first corner without a
/// vertex index.
fn parse_corners(words: &Vec<Vec<char>>) -> (r: Result<(Vec<u32>, Vec<u32>), usize>)
    requires
        words@.len() > 0,
    ensures
        match r {
            Ok((vertices, texture)) => {
                let args = rows(words@).skip(1);
                &&& bad_corner(args) is None
                &&& vertices@ == face_vertices(args)
                &&& texture@ == face_texture(args)
            },
            Err(k) => k < words@.len() && bad_corner(rows(words@).skip(1)) == Some(
                words@[k as int]@,
            ),
        },
{
    let ghost args = rows(words@).skip(1);
    let mut vertices: Vec<u32> = Vec::new();
    let mut texture: Vec<u32> = Vec::new();
    let mut k: usize = 1;
    while k < words.len()
        invariant
            1 <= k <= words@.len(),
            args == rows(words@).skip(1),
            bad_corner(args.take(k - 1)) is None,
            vertices@ == face_vertices(args.take(k - 1)),
            texture@ == face_texture(args.take(k - 1)),
        decreases words.len() - k,
    {
        let ghost seen = args.take(k as int);
        proof {
            assert(seen.drop_last() == args.take(k - 1));
            assert(seen.last() == words@[k as int]@);
        }
        let pieces = split_slashes(&words[k]);
        match parse_signed(&pieces[0]) {
            Some(v) => {
                vertices.push(to_zero_based(v));
                assert(vertices@ == face_vertices(seen));
            },
            None => {
                proof {
                    assert(bad_corner(seen) == Some(words@[k as int]@));
                    lemma_bad_corner(args, k as int);
                }
                return Err(k);
            },
        }
        if pieces.len() > 1 {
            if let Some(v) = parse_signed(&pieces[1]) {
                texture.push(to_zero_based(v));
            }
        }
        k = k + 1;
    }
    assert(args.take(words@.len() - 1) == args);
    Ok((vertices, texture))
}

proof fn lemma_bad_corner(args: Seq<Seq<char>>, n: int)
    requires
        0 <= n <= args.len(),
        bad_corner(args.take(n)) is Some,
    ensures
        bad_corner(args) == bad_corner(args.take(n)),
    decreases args.len() - n,
{
    if n < args.len() {
        assert(args.take(n + 1).drop_last() == args.take(n));
        lemma_bad_corner(args, n + 1);
    } else {
        assert(args.take(n) == args);
    }
}

/// Whether all words behind the first write a floating-point number.
pub(crate) fn coordinates_ok(words: &Vec<Vec<char>>) -> (r: bool)
    requires
        words@.len() > 0,
    ensures
        r == all_float_literals(rows(words@).skip(1)),
{
    let ghost args = rows(words@).skip(1);
    let mut k: usize = 1;
    while k < words.len()
        invariant
            1 <= k <= words@.len(),
            args == rows(words@).skip(1),
            forall|i: int| 0 <= i < k - 1 ==> crate::text::is_float_literal(#[trigger] args[i]),
        decreases words.len() - k,
    {
        assert(args[k - 1] == words@[k as int]@);
        if !float_literal(&words[k]) {
            return false;
        }
        k = k + 1;
    }
    true
}

fn message(text: &str, tail: &Vec<char>) -> (r: String)
    ensures
        r@ == text@ + tail@,
{
    let mut r = text.to_owned();
    for i in 0..tail.len()
        invariant
            r@ == text@ + tail@.take(i as int),
    {
        r.push(tail[i]);
        assert(tail@.take(i + 1) == tail@.take(i as int).push(tail@[i as int]));
    }
    assert(tail@.take(tail@.len() as int) == tail@);
    r
}

fn count_message(text: &str, n: usize) -> (r: String)
    ensures
        r@ == text@ + crate::text::decimal(n as nat),
{
    let mut r = text.to_owned();
    push_decimal(&mut r, n as u64);
    r
}

fn is_keyword(word: &Vec<char>, first: char, second: Option<char>) -> (r: bool)
    ensures
        r == (word@ == match second {
            None => seq![first],
            Some(c) => seq![first, c],
        }),
{
    let r = match second {
        None => word.len() == 1 && word[0] == first,
        Some(c) => word.len() == 2 && word[0] == first && word[1] == c,
    };
    proof {
        match second {
            None => assert(r == (word@ =~= seq![first])),
            Some(c) => assert(r == (word@ =~= seq![first, c])),
        }
    }
    r
}

/// A text half read: the mesh so far and the group of the next face.
struct ObjReader {
    mesh: ObjMesh<String>,
    group: String,
}

spec fn reader_is(reader: ObjReader, m: ObjModel) -> bool {
    &&& mesh_is(reader.mesh, m)
    &&& reader.group@ == m.group
}

/// What became of one line.
enum LineEnd {
    Next,
    Stop,
    InvalidUtf8,
    Malformed(String),
}

impl ObjReader {
    /// Reads one line, given as its words.
    fn read_words(&mut self, words: &Vec<Vec<char>>, Ghost(m): Ghost<ObjModel>) -> (r: LineEnd)
        requires
            reader_is(*old(self), m),
            forall|i: int| 0 <= i < words@.len() ==> (#[trigger] words@[i])@.len() > 0,
        ensures
            match words_step(m, rows(words@)) {
                ObjStep::Next(next) => r is Next && reader_is(*final(self), next),
                ObjStep::Stop => r is Stop && reader_is(*final(self), m),
                ObjStep::InvalidUtf8 => false,
                ObjStep::Malformed(msg) => r is Malformed && r->Malformed_0@ == msg,
            },
    {
        if words.len() == 0 {
            return LineEnd::Next;
        }
        let ghost all = rows(words@);
        let ghost args = all.skip(1);
        assert(all[0] == words@[0]@);
        let kw: &Vec<char> = &words[0];
        if kw[0] == '#' {
            return LineEnd::Next;
        }
        if is_keyword(kw, 'o', None) {
            proof {
                assert(literals(self.mesh.vertices@).len() == m.vertices.len());
            }
            if self.mesh.vertices.len() > 0 {
                return LineEnd::Stop;
            }
            return LineEnd::Next;
        }
        if is_keyword(kw, 'v', None) {
            if !coordinates_ok(words) {
                return LineEnd::Malformed("vertex parse: invalid float literal".to_owned());
            }
            if words.len() != 4 {
                return LineEnd::Malformed(
                    count_message("vertex needs 3 coords, got ", words.len() - 1),
                );
            }
            let corner = [string_of(&words[1]), string_of(&words[2]), string_of(&words[3])];
            let ghost before = self.mesh.vertices@;
            proof {
                assert(corner@.map_values(|s: String| s@) =~= args);
            }
            self.mesh.vertices.push(corner);
            proof {
                assert(literals(self.mesh.vertices@) =~= literals(before).push(args));
            }
            return LineEnd::Next;
        }
        if is_keyword(kw, 'v', Some('t')) {
            if !coordinates_ok(words) {
                return LineEnd::Malformed("texture coord parse: invalid float literal".to_owned());
            }
            if words.len() != 3 {
                return LineEnd::Malformed(
                    count_message("vt needs 2 coords, got ", words.len() - 1),
                );
            }
            let corner = [string_of(&words[1]), string_of(&words[2])];
            let ghost before = self.mesh.texture_coordinates@;
            proof {
                assert(corner@.map_values(|s: String| s@) =~= args);
            }
            self.mesh.texture_coordinates.push(corner);
            proof {
                assert(literals(self.mesh.texture_coordinates@) =~= literals(before).push(args));
            }
            return LineEnd::Next;
        }
        if is_keyword(kw, 'g', None) {
            if words.len() > 1 {
                self.group = string_of(&words[1]);
                assert(args[0] == words@[1]@);
            } else {
                self.group = noname();
            }
            return LineEnd::Next;
        }
        if is_keyword(kw, 'f', None) {
            return match parse_corners(words) {
                Ok((vertices, texture)) => {
                    add_face(
                        &mut self.mesh.groups,
                        &self.group,
                        vertices,
                        texture,
                        Ghost(m.faces),
                    );
                    LineEnd::Next
                },
                Err(k) => LineEnd::Malformed(message("face vertex index: ", &words[k])),
            };
        }
        LineEnd::Next
    }

    fn read_line(&mut self, line: &Vec<u8>, Ghost(m): Ghost<ObjModel>) -> (r: LineEnd)
        requires
            reader_is(*old(self), m),
        ensures
            match line_step(m, line@) {
                ObjStep::Next(next) => r is Next && reader_is(*final(self), next),
                ObjStep::Stop => r is Stop && reader_is(*final(self), m),
                ObjStep::InvalidUtf8 => r is InvalidUtf8,
                ObjStep::Malformed(msg) => r is Malformed && r->Malformed_0@ == msg,
            },
    {
        match decode_line(line) {
            None => LineEnd::InvalidUtf8,
            Some(cs) => {
                let words = split_words(&cs);
                proof {
                    assert(rows(words@) =~= crate::text::words(cs@));
                    crate::text::lemma_words_nonempty(cs@);
                }
                self.read_words(&words, Ghost(m))
            },
        }
    }
}

fn noname() -> (r: String)
    ensures
        r@ == default_group(),
{
    let cs: Vec<char> = vec!['n', 'o', 'n', 'a', 'm', 'e'];
    assert(cs@ == default_group());
    string_of(&cs)
}

/// Reads a mesh. Lines end at a newline byte and count from one; a line that
/// is empty, a comment or of an unknown kind is passed over; reading stops
/// where a second object begins.
pub fn load(bytes: &[u8]) -> (r: Result<ObjMesh<String>, ObjError>)
    ensures
        match outcome(crate::text::byte_lines(bytes@)) {
            ObjProgress::Reading(m) => r is Ok && mesh_is(r->Ok_0, m),
            ObjProgress::Stopped(m) => r is Ok && mesh_is(r->Ok_0, m),
            ObjProgress::InvalidUtf8 { line } => r is Err && r->Err_0 is InvalidUtf8
                && r->Err_0->InvalidUtf8_line == line,
            ObjProgress::Malformed { line, msg } => r is Err && r->Err_0 is Malformed
                && r->Err_0->Malformed_line == line && r->Err_0->msg@ == msg,
        },
{
    let lines = split_lines(bytes);
    let ghost all = crate::text::byte_lines(bytes@);
    let mut reader = ObjReader {
        mesh: ObjMesh {
            vertices: Vec::new(),
            texture_coordinates: Vec::new(),
            groups: Vec::new(),
        },
        group: noname(),
    };
    let ghost mut m = empty_model();
    let n: usize = lines.len();
    let mut i: usize = 0;
    while i < n
        invariant
            i <= n,
            n == lines@.len(),
            lines@.len() == all.len(),
            all == crate::text::byte_lines(bytes@),
            forall|k: int| 0 <= k < lines@.len() ==> (#[trigger] lines@[k])@ == all[k],
            progress(all, i as nat) == ObjProgress::Reading(m),
            reader_is(reader, m),
        decreases n - i,
    {
        let end = reader.read_line(&lines[i], Ghost(m));
        proof {
            assert(lines@[i as int]@ == all[i as int]);
            if !(progress(all, (i + 1) as nat) is Reading) {
                lemma_progress_ended(all, (i + 1) as nat, n as nat);
            }
        }
        match end {
            LineEnd::Next => {
                proof {
                    m = progress(all, (i + 1) as nat)->Reading_0;
                }
            },
            LineEnd::Stop => {
                return Ok(reader.mesh);
            },
            LineEnd::InvalidUtf8 => {
                return Err(ObjError::InvalidUtf8 { line: i + 1 });
            },
            LineEnd::Malformed(msg) => {
                return Err(ObjError::Malformed { line: i + 1, msg });
            },
        }
        i = i + 1;
    }
    Ok(reader.mesh)
}

impl<S> ObjMesh<S> {
    /// The group names differ from each other.
    pub open spec fn distinct_groups(&self) -> bool {
        forall|i: int, j: int|
            0 <= i < j < self.groups@.len() ==> (#[trigger] self.groups@[i]).0@ != (
            #[trigger] self.groups@[j]).0@
    }

    /// The names of the groups.
    pub open spec fn names(&self) -> Seq<Seq<char>> {
        self.groups@.map_values(|g: (String, ObjGroup)| g.0@)
    }

    /// Position of the first group with the given name.
    pub open spec fn group_at(&self, name: Seq<char>) -> Option<int> {
        crate::names::first_at(self.names(), name)
    }

    /// The group with the given name.
    pub fn group(&self, name: &str) -> (r: Option<&ObjGroup>)
        ensures
            match r {
                Some(g) => self.group_at(name@) is Some && *g
                    == self.groups@[self.group_at(name@)->0].1,
                None => self.group_at(name@) is None,
            },
    {
        let ghost all = self.names();
        let mut i: usize = 0;
        while i < self.groups.len()
            invariant
                i <= self.groups@.len(),
                all == self.names(),
                forall|j: int| 0 <= j < i ==> all[j] != name@,
            decreases self.groups.len() - i,
        {
            assert(all[i as int] == self.groups@[i as int].0@);
            if same(self.groups[i].0.as_str(), name) {
                proof {
                    crate::names::lemma_first_at_is(all, name@, i as int);
                }
                return Some(&self.groups[i].1);
            }
            i = i + 1;
        }
        proof {
            crate::names::lemma_first_at(all, name@);
        }
        None
    }

    /// The names of the groups, in the order of their first faces.
    pub fn group_order(&self) -> (r: Vec<String>)
        ensures
            crate::names::views(r@) =~= self.names(),
    {
        let mut r: Vec<String> = Vec::new();
        for i in 0..self.groups.len()
            invariant
                r@.len() == i,
                forall|k: int| 0 <= k < i ==> (#[trigger] r@[k])@ == self.groups@[k].0@,
        {
            r.push(self.groups[i].0.clone());
        }
        r
    }
}

/// No two groups of a mesh that was read share a name.
pub proof fn law_read_groups_distinct(mesh: ObjMesh<String>, m: ObjModel)
    requires
        mesh_is(mesh, m),
    ensures
        mesh.distinct_groups(),
{
    lemma_group_names(m.faces);
}

// ---------------------------------------------------------------------------
// Writing
// ---------------------------------------------------------------------------

/// `v`, the three literals, a newline.
pub open spec fn vertex_line(v: Seq<Seq<char>>) -> Seq<char> {
    seq!['v', ' '] + v[0] + seq![' '] + v[1] + seq![' '] + v[2] + seq!['\n']
}

/// The one-based indices of a face, a space between two.
pub open spec fn corner_list(f: Seq<u32>) -> Seq<char>
    decreases f.len(),
{
    if f.len() == 0 {
        Seq::empty()
    } else if f.len() == 1 {
        crate::text::decimal((f[0] + 1) as nat)
    } else {
        corner_list(f.drop_last()) + seq![' '] + crate::text::decimal((f.last() + 1) as nat)
    }
}

/// `f`, the corners, a newline.
pub open spec fn face_line(f: Seq<u32>) -> Seq<char> {
    seq!['f', ' '] + corner_list(f) + seq!['\n']
}

pub open spec fn vertex_text(vertices: Seq<Seq<Seq<char>>>) -> Seq<char>
    decreases vertices.len(),
{
    if vertices.len() == 0 {
        Seq::empty()
    } else {
        vertex_text(vertices.drop_last()) + vertex_line(vertices.last())
    }
}

pub open spec fn face_text(faces: Seq<Seq<u32>>) -> Seq<char>
    decreases faces.len(),
{
    if faces.len() == 0 {
        Seq::empty()
    } else {
        face_text(faces.drop_last()) + face_line(faces.last())
    }
}

/// The text of a mesh: a line for each vertex, then a line for each face.
pub open spec fn mesh_text(vertices: Seq<Seq<Seq<char>>>, faces: Seq<Seq<u32>>) -> Seq<char> {
    vertex_text(vertices) + face_text(faces)
}

fn push_corners(text: &mut String, face: &Vec<u32>)
    requires
        forall|k: int| 0 <= k < face@.len() ==> #[trigger] face@[k] < u32::MAX,
    ensures
        final(text)@ == old(text)@ + corner_list(face@),
{
    for k in 0..face.len()
        invariant
            forall|k: int| 0 <= k < face@.len() ==> #[trigger] face@[k] < u32::MAX,
            text@ == old(text)@ + corner_list(face@.take(k as int)),
    {
        let ghost seen = face@.take(k + 1);
        proof {
            assert(seen.drop_last() == face@.take(k as int));
            assert(seen.last() == face@[k as int]);
        }
        if k > 0 {
            text.push(' ');
        }
        push_decimal(text, face[k] as u64 + 1);
        assert(text@ == old(text)@ + corner_list(seen));
    }
    assert(face@.take(face@.len() as int) == face@);
}

/// Writes a mesh: vertices, given as their literals, then faces. A face index
/// is written plus one, so it has to be below the largest `u32`.
pub fn save(vertices: &Vec<[String; 3]>, faces: &Vec<Vec<u32>>) -> (text: String)
    requires
        forall|i: int, k: int|
            0 <= i < faces@.len() && 0 <= k < faces@[i]@.len() ==> #[trigger] faces@[i]@[k]
                < u32::MAX,
    ensures
        text@ == mesh_text(literals(vertices@), rows(faces@)),
{
    let mut text = String::new();
    let ghost vs = literals(vertices@);
    let ghost fs = rows(faces@);
    for i in 0..vertices.len()
        invariant
            vs == literals(vertices@),
            text@ == vertex_text(vs.take(i as int)),
    {
        let ghost before = text@;
        let ghost seen = vs.take(i + 1);
        proof {
            assert(seen.drop_last() == vs.take(i as int));
            assert(seen.last() == vs[i as int]);
            assert(vs[i as int] == vertices@[i as int]@.map_values(|s: String| s@));
        }
        text.push('v');
        text.push(' ');
        text.append(vertices[i][0].as_str());
        text.push(' ');
        text.append(vertices[i][1].as_str());
        text.push(' ');
        text.append(vertices[i][2].as_str());
        text.push('\n');
        assert(text@ == before + vertex_line(vs[i as int]));
    }
    proof {
        assert(vs.take(vs.len() as int) == vs);
        assert(text@ == vertex_text(vs) + face_text(fs.take(0)));
    }
    for i in 0..faces.len()
        invariant
            forall|i: int, k: int|
                0 <= i < faces@.len() && 0 <= k < faces@[i]@.len() ==> #[trigger] faces@[i]@[k]
                    < u32::MAX,
            fs == rows(faces@),
            text@ == vertex_text(vs) + face_text(fs.take(i as int)),
    {
        let ghost before = text@;
        let ghost seen = fs.take(i + 1);
        proof {
            assert(seen.drop_last() == fs.take(i as int));
            assert(seen.last() == fs[i as int]);
            assert(fs[i as int] == faces@[i as int]@);
        }
        text.push('f');
        text.push(' ');
        push_corners(&mut text, &faces[i]);
        text.push('\n');
        proof {
            assert(text@ == before + face_line(fs[i as int]));
            assert(text@ == vertex_text(vs) + face_text(seen));
        }
    }
    assert(fs.take(fs.len() as int) == fs);
    text
}

} // verus!
