//! Reading a mesh text back.
use vstd::prelude::*;
use vstd::utf8::*;

use crate::data::obj::{FaceLine, ObjModel, ObjProgress, ObjStep};
use crate::text::IntFault;

verus! {

/// The characters that stand in written lines: ASCII, and no newline.
spec fn plain(s: Seq<char>) -> bool {
    forall|i: int| 0 <= i < s.len() ==> (#[trigger] s[i] as u32) < 0x80 && s[i] != '\n'
}

/// A word that is written: it holds characters, all of them plain and visible.
spec fn solid(s: Seq<char>) -> bool {
    &&& s.len() > 0
    &&& forall|i: int|
        0 <= i < s.len() ==> (#[trigger] s[i] as u32) < 0x80 && !crate::text::is_white_space(s[i])
}

spec fn ends_line(b: Seq<u8>) -> bool {
    b.len() == 0 || b.last() == 10
}

/// The lines of a text that ends its last line, followed by another text.
proof fn lemma_lines_concat(a: Seq<u8>, b: Seq<u8>)
    requires
        ends_line(a),
    ensures
        crate::text::byte_lines(a + b) == crate::text::byte_lines(a) + crate::text::byte_lines(b),
    decreases a.len(),
{
    if a.len() == 0 {
        assert(a + b == b);
        assert(crate::text::byte_lines(a).len() == 0);
        assert(crate::text::byte_lines(a) + crate::text::byte_lines(b)
            == crate::text::byte_lines(b));
    } else {
        crate::text::lemma_line_len(a);
        let n = crate::text::line_len(a) as int;
        if n == a.len() {
            assert(a[n - 1] != 10);
        }
        crate::text::lemma_line_len_at(a + b, n);
        assert((a + b).take(n) == a.take(n));
        assert((a + b).skip(n + 1) == a.skip(n + 1) + b);
        lemma_lines_concat(a.skip(n + 1), b);
        let tail = crate::text::byte_lines(a.skip(n + 1));
        assert(crate::text::byte_lines(a) == seq![a.take(n)] + tail);
        assert(seq![a.take(n)] + (tail + crate::text::byte_lines(b)) == (seq![a.take(n)] + tail)
            + crate::text::byte_lines(b));
    }
}

/// The code of an ASCII character fits into a byte.
proof fn lemma_char_code(c: char)
    requires
        (c as u32) < 0x80,
    ensures
        '\0' <= c <= '\u{7f}',
        c as u8 == c as u32,
        c as u32 == 10 ==> c == '\n',
{
}

spec fn bytes_of(s: Seq<char>) -> Seq<u8> {
    s.map_values(|c: char| c as u8)
}

proof fn lemma_bytes_of_plain(s: Seq<char>)
    requires
        forall|i: int| 0 <= i < s.len() ==> (#[trigger] s[i] as u32) < 0x80,
    ensures
        encode_utf8(s) == bytes_of(s),
        valid_utf8(bytes_of(s)),
        decode_utf8(bytes_of(s)) == s,
{
    assert forall|i: int| 0 <= i < s.len() implies '\0' <= #[trigger] s[i] <= '\u{7f}' by {
        lemma_char_code(s[i]);
    }
    assert(is_ascii_chars(s));
    is_ascii_chars_encode_utf8(s);
    assert(encode_utf8(s) =~= bytes_of(s));
    encode_utf8_valid_utf8(s);
    encode_utf8_decode_utf8(s);
}

/// One written line reads back as its characters.
proof fn lemma_one_line(s: Seq<char>)
    requires
        plain(s),
    ensures
        crate::text::byte_lines(bytes_of(s.push('\n'))) == seq![bytes_of(s)],
        ends_line(bytes_of(s.push('\n'))),
        crate::text::line_chars(bytes_of(s)) == Some(s),
{
    lemma_bytes_of_plain(s);
    let b = bytes_of(s.push('\n'));
    let n = s.len() as int;
    assert(b[n] == 10);
    assert forall|i: int| 0 <= i < n implies b[i] != 10 by {
        assert(s.push('\n')[i] == s[i]);
        assert((s[i] as u32) < 0x80 && s[i] != '\n');
        lemma_char_code(s[i]);
        assert(b[i] == s[i] as u8);
    }
    crate::text::lemma_line_len_at(b, n);
    assert(b.take(n) == bytes_of(s));
    assert(b.skip(n + 1).len() == 0);
    assert(crate::text::byte_lines(b.skip(n + 1)).len() == 0);
    assert(crate::text::byte_lines(b) == seq![b.take(n)]);
}

/// The words of a word, a space and a rest.
proof fn lemma_words_cons(w: Seq<char>, rest: Seq<char>)
    requires
        solid(w),
    ensures
        crate::text::words(w + seq![' '] + rest) == seq![w] + crate::text::words(rest),
{
    let s = w + seq![' '] + rest;
    assert(s[w.len() as int] == ' ');
    assert forall|i: int| 0 <= i < w.len() implies !crate::text::is_white_space(
        #[trigger] s[i],
    ) by {
        assert(s[i] == w[i]);
    }
    crate::text::lemma_word_len_at(s, w.len() as int);
    assert(s.take(w.len() as int) == w);
    let tail = s.skip(w.len() as int);
    assert(tail[0] == ' ');
    assert(tail.drop_first() == rest);
    assert(crate::text::words(tail) == crate::text::words(rest));
    assert(!crate::text::is_white_space(s[0]));
    assert(crate::text::words(s) == seq![w] + crate::text::words(tail));
}

proof fn lemma_words_single(w: Seq<char>)
    requires
        solid(w),
    ensures
        crate::text::words(w) == seq![w],
{
    crate::text::lemma_word_len_at(w, w.len() as int);
    assert(w.take(w.len() as int) == w);
    assert(!crate::text::is_white_space(w[0]));
    assert(crate::text::words(w.skip(w.len() as int)).len() == 0);
    assert(crate::text::words(w) == seq![w] + crate::text::words(w.skip(w.len() as int)));
    assert(crate::text::words(w) == seq![w]);
}

/// The words of a text followed by a space and a word.
proof fn lemma_words_snoc(a: Seq<char>, w: Seq<char>)
    requires
        solid(w),
    ensures
        crate::text::words(a + seq![' '] + w) == crate::text::words(a).push(w),
    decreases a.len(),
{
    let s = a + seq![' '] + w;
    if a.len() == 0 {
        assert(s.drop_first() == w);
        lemma_words_single(w);
        assert(crate::text::words(a).len() == 0);
        assert(crate::text::words(s) == crate::text::words(w));
        assert(crate::text::words(a).push(w) == seq![w]);
    } else if crate::text::is_white_space(a[0]) {
        assert(s.drop_first() == a.drop_first() + seq![' '] + w);
        lemma_words_snoc(a.drop_first(), w);
        assert(crate::text::words(s) == crate::text::words(s.drop_first()));
        assert(crate::text::words(a) == crate::text::words(a.drop_first()));
    } else {
        crate::text::lemma_word_len(a);
        let n = crate::text::word_len(a) as int;
        if n < a.len() {
            assert(crate::text::is_white_space(s[n]));
        } else {
            assert(s[n] == ' ');
        }
        assert forall|i: int| 0 <= i < n implies !crate::text::is_white_space(
            #[trigger] s[i],
        ) by {
            assert(s[i] == a[i]);
        }
        crate::text::lemma_word_len_at(s, n);
        assert(s.take(n) == a.take(n));
        assert(s.skip(n) == a.skip(n) + seq![' '] + w);
        assert(n > 0);
        lemma_words_snoc(a.skip(n), w);
        let tail = crate::text::words(a.skip(n));
        assert(crate::text::words(s) == seq![a.take(n)] + tail.push(w));
        assert(crate::text::words(a) == seq![a.take(n)] + tail);
        assert(seq![a.take(n)] + tail.push(w) == (seq![a.take(n)] + tail).push(w));
    }
}

// ---------------------------------------------------------------------------
// Literals and indices
// ---------------------------------------------------------------------------

proof fn lemma_digit_run(s: Seq<char>)
    ensures
        crate::text::digit_run(s) <= s.len(),
        forall|i: int|
            0 <= i < crate::text::digit_run(s) ==> crate::text::is_digit(#[trigger] s[i]),
    decreases s.len(),
{
    if s.len() > 0 && crate::text::is_digit(s[0]) {
        lemma_digit_run(s.drop_first());
        assert forall|i: int| 0 <= i < crate::text::digit_run(s) implies crate::text::is_digit(
            #[trigger] s[i],
        ) by {
            if i > 0 {
                assert(s.drop_first()[i - 1] == s[i]);
            }
        }
    }
}

spec fn visible(c: char) -> bool {
    (c as u32) < 0x80 && !crate::text::is_white_space(c)
}

proof fn lemma_exponent_visible(s: Seq<char>)
    requires
        crate::text::is_exponent(s),
    ensures
        forall|i: int| 0 <= i < s.len() ==> visible(#[trigger] s[i]),
{
    let k: int = if s.len() >= 2 && (s[1] == '+' || s[1] == '-') {
        2
    } else {
        1
    };
    lemma_digit_run(s.skip(k));
    assert forall|i: int| 0 <= i < s.len() implies visible(#[trigger] s[i]) by {
        if i >= k {
            assert(s.skip(k)[i - k] == s[i]);
        }
    }
}

proof fn lemma_number_visible(s: Seq<char>)
    requires
        crate::text::is_number(s),
    ensures
        s.len() > 0,
        forall|i: int| 0 <= i < s.len() ==> visible(#[trigger] s[i]),
{
    lemma_digit_run(s);
    let whole = crate::text::digit_run(s) as int;
    let dot = whole < s.len() && s[whole] == '.';
    let mut end = whole;
    if dot {
        lemma_digit_run(s.skip(whole + 1));
        end = whole + 1 + crate::text::digit_run(s.skip(whole + 1));
    }
    if end != s.len() {
        lemma_exponent_visible(s.skip(end));
    }
    assert forall|i: int| 0 <= i < s.len() implies visible(#[trigger] s[i]) by {
        if i < whole {
            assert(crate::text::is_digit(s[i]));
        } else if i >= end {
            assert(s.skip(end)[i - end] == s[i]);
        } else if i > whole {
            assert(s.skip(whole + 1)[i - whole - 1] == s[i]);
        }
    }
}

proof fn lemma_letters_visible(s: Seq<char>, word: Seq<char>)
    requires
        crate::text::is_word_ignoring_case(s, word),
        word.len() > 0,
        forall|i: int| 0 <= i < word.len() ==> 0x61 <= #[trigger] word[i] as u32 <= 0x7a,
    ensures
        s.len() > 0,
        forall|i: int| 0 <= i < s.len() ==> visible(#[trigger] s[i]),
{
    assert forall|i: int| 0 <= i < s.len() implies visible(#[trigger] s[i]) by {
        assert(crate::text::ascii_lower(s[i]) == word[i]);
        if !(0x41 <= s[i] as u32 <= 0x5a) {
            assert(s[i] == word[i]);
        }
    }
}

/// A floating-point literal is a word of plain characters.
proof fn lemma_float_literal_solid(s: Seq<char>)
    requires
        crate::text::is_float_literal(s),
    ensures
        solid(s),
{
    let t = crate::text::after_sign(s);
    if crate::text::is_number(t) {
        lemma_number_visible(t);
    } else if crate::text::is_word_ignoring_case(t, seq!['i', 'n', 'f']) {
        lemma_letters_visible(t, seq!['i', 'n', 'f']);
    } else if crate::text::is_word_ignoring_case(
        t,
        seq!['i', 'n', 'f', 'i', 'n', 'i', 't', 'y'],
    ) {
        lemma_letters_visible(t, seq!['i', 'n', 'f', 'i', 'n', 'i', 't', 'y']);
    } else {
        lemma_letters_visible(t, seq!['n', 'a', 'n']);
    }
    assert forall|i: int| 0 <= i < s.len() implies (#[trigger] s[i] as u32) < 0x80
        && !crate::text::is_white_space(s[i]) by {
        if t.len() < s.len() {
            if i > 0 {
                assert(t[i - 1] == s[i]);
            }
        } else {
            assert(t[i] == s[i]);
        }
        assert(visible(s[i]));
    }
}

/// A written index names the vertex that it was written for.
proof fn lemma_corner(n: u32)
    requires
        n < u32::MAX,
    ensures
        solid(crate::text::decimal((n + 1) as nat)),
        crate::data::obj::corner_vertex(crate::text::decimal((n + 1) as nat)) == Some(n + 1),
        crate::data::obj::zero_based(n + 1) == n,
        crate::data::obj::corner_texture(crate::text::decimal((n + 1) as nat)) is None,
{
    let d = crate::text::decimal((n + 1) as nat);
    crate::text::law_decimal_read_back((n + 1) as nat, 0x7fff_ffff_ffff_ffff);
    assert forall|i: int| 0 <= i < d.len() implies (#[trigger] d[i] as u32) < 0x80
        && !crate::text::is_white_space(d[i]) by {
        assert(crate::text::is_digit(d[i]));
    }
    assert forall|i: int| 0 <= i < d.len() implies d[i] != '/' by {
        assert(crate::text::is_digit(d[i]));
    }
    crate::text::lemma_slash_at(d, d.len() as int);
    assert(crate::text::slash_pieces(d) == seq![d]);
    assert(crate::text::is_digit(d[0]));
}

// ---------------------------------------------------------------------------
// Lines
// ---------------------------------------------------------------------------

spec fn without_newline(s: Seq<char>) -> Seq<char> {
    s.drop_last()
}

proof fn lemma_vertex_line(v: Seq<Seq<char>>, m: ObjModel)
    requires
        v.len() == 3,
        crate::data::obj::all_float_literals(v),
    ensures
        plain(without_newline(crate::data::obj::vertex_line(v))),
        crate::data::obj::vertex_line(v) == without_newline(
            crate::data::obj::vertex_line(v),
        ).push('\n'),
        crate::data::obj::words_step(
            m,
            crate::text::words(without_newline(crate::data::obj::vertex_line(v))),
        ) == ObjStep::Next(ObjModel { vertices: m.vertices.push(v), ..m }),
{
    let line = crate::data::obj::vertex_line(v);
    let s = without_newline(line);
    lemma_float_literal_solid(v[0]);
    lemma_float_literal_solid(v[1]);
    lemma_float_literal_solid(v[2]);
    assert(s.push('\n') == line);
    let c = v[2];
    let bc = v[1] + seq![' '] + c;
    let abc = v[0] + seq![' '] + bc;
    assert(s == seq!['v'] + seq![' '] + abc);
    assert forall|i: int| 0 <= i < s.len() implies (#[trigger] s[i] as u32) < 0x80 && s[i]
        != '\n' by {
        let a = v[0].len() as int;
        let b = v[1].len() as int;
        if 2 <= i < 2 + a {
            assert(s[i] == v[0][i - 2]);
        } else if 3 + a <= i < 3 + a + b {
            assert(s[i] == v[1][i - 3 - a]);
        } else if 4 + a + b <= i {
            assert(s[i] == v[2][i - 4 - a - b]);
        }
    }
    lemma_words_single(c);
    lemma_words_cons(v[1], c);
    lemma_words_cons(v[0], bc);
    lemma_words_cons(seq!['v'], abc);
    let words = crate::text::words(s);
    assert(words == seq![seq!['v'], v[0], v[1], v[2]]);
    assert(words.skip(1) == v);
    assert(words[0] == seq!['v']);
    assert(seq!['v'] != seq!['o']) by {
        assert(seq!['v'][0] != seq!['o'][0]);
    }
}

/// What the corners of a face read back as.
proof fn lemma_corner_list(f: Seq<u32>)
    requires
        forall|k: int| 0 <= k < f.len() ==> #[trigger] f[k] < u32::MAX,
    ensures
        plain(crate::data::obj::corner_list(f)),
        ({
            let args = crate::text::words(crate::data::obj::corner_list(f));
            &&& args.len() == f.len()
            &&& crate::data::obj::bad_corner(args) is None
            &&& crate::data::obj::face_vertices(args) == f
            &&& crate::data::obj::face_texture(args) == Seq::<u32>::empty()
        }),
    decreases f.len(),
{
    let text = crate::data::obj::corner_list(f);
    if f.len() == 0 {
        assert(crate::text::words(text).len() == 0);
        assert(crate::data::obj::face_vertices(crate::text::words(text)) == f);
    } else {
        let d = crate::text::decimal((f.last() + 1) as nat);
        lemma_corner(f.last());
        lemma_corner_list(f.drop_last());
        let before = crate::data::obj::corner_list(f.drop_last());
        let old_args = crate::text::words(before);
        if f.len() == 1 {
            lemma_words_single(d);
            assert(text == d);
            assert(old_args.push(d) == seq![d]);
        } else {
            assert(text == before + seq![' '] + d);
            lemma_words_snoc(before, d);
        }
        let args = crate::text::words(text);
        assert(args == old_args.push(d));
        assert(args.drop_last() == old_args);
        assert(args.last() == d);
        assert(crate::data::obj::bad_corner(args) is None);
        assert(crate::data::obj::face_vertices(args) == f) by {
            assert(crate::data::obj::face_vertices(args) == crate::data::obj::face_vertices(
                old_args,
            ).push(f.last()));
        }
        assert(plain(text)) by {
            assert forall|i: int| 0 <= i < text.len() implies (#[trigger] text[i] as u32) < 0x80
                && text[i] != '\n' by {
                if f.len() == 1 {
                    assert(text[i] == d[i]);
                } else if i < before.len() {
                    assert(text[i] == before[i]);
                } else if i > before.len() {
                    assert(text[i] == d[i - before.len() - 1]);
                }
            }
        }
    }
}

proof fn lemma_face_line(f: Seq<u32>, m: ObjModel)
    requires
        forall|k: int| 0 <= k < f.len() ==> #[trigger] f[k] < u32::MAX,
    ensures
        plain(without_newline(crate::data::obj::face_line(f))),
        crate::data::obj::face_line(f) == without_newline(crate::data::obj::face_line(f)).push(
            '\n',
        ),
        crate::data::obj::words_step(
            m,
            crate::text::words(without_newline(crate::data::obj::face_line(f))),
        ) == ObjStep::Next(
            ObjModel {
                faces: m.faces.push(
                    FaceLine { group: m.group, vertices: f, texture: Seq::empty() },
                ),
                ..m
            },
        ),
{
    let line = crate::data::obj::face_line(f);
    let s = without_newline(line);
    let corners = crate::data::obj::corner_list(f);
    lemma_corner_list(f);
    assert(s.push('\n') == line);
    assert(s == seq!['f'] + seq![' '] + corners);
    assert forall|i: int| 0 <= i < s.len() implies (#[trigger] s[i] as u32) < 0x80 && s[i]
        != '\n' by {
        if i >= 2 {
            assert(s[i] == corners[i - 2]);
        }
    }
    lemma_words_cons(seq!['f'], corners);
    let words = crate::text::words(s);
    assert(words.skip(1) == crate::text::words(corners));
    assert(words[0] == seq!['f']);
    assert(seq!['f'] != seq!['o'] && seq!['f'] != seq!['v'] && seq!['f'] != seq!['g']) by {
        assert(seq!['f'][0] == 'f');
        assert(seq!['o'][0] == 'o');
        assert(seq!['v'][0] == 'v');
        assert(seq!['g'][0] == 'g');
    }
    assert(seq!['f'] != seq!['v', 't']) by {
        assert(seq!['f'].len() != seq!['v', 't'].len());
    }
}

// ---------------------------------------------------------------------------
// Texts
// ---------------------------------------------------------------------------

/// Reading further lines does not change what the earlier ones amount to.
proof fn lemma_progress_prefix(a: Seq<Seq<u8>>, b: Seq<Seq<u8>>, n: nat)
    requires
        n <= a.len(),
    ensures
        crate::data::obj::progress(a + b, n) == crate::data::obj::progress(a, n),
    decreases n,
{
    if n > 0 {
        lemma_progress_prefix(a, b, (n - 1) as nat);
        assert((a + b)[n - 1] == a[n - 1]);
    }
}

/// One more written line.
proof fn lemma_append_line(text: Seq<char>, line: Seq<char>, m: ObjModel, next: ObjModel)
    requires
        plain(line),
        ends_line(bytes_of(text)),
        crate::data::obj::outcome(crate::text::byte_lines(bytes_of(text)))
            == ObjProgress::Reading(m),
        crate::data::obj::words_step(m, crate::text::words(line)) == ObjStep::Next(next),
    ensures
        ends_line(bytes_of(text + line.push('\n'))),
        crate::data::obj::outcome(crate::text::byte_lines(bytes_of(text + line.push('\n'))))
            == ObjProgress::Reading(next),
{
    lemma_one_line(line);
    let a = bytes_of(text);
    let b = bytes_of(line.push('\n'));
    assert(bytes_of(text + line.push('\n')) =~= a + b);
    lemma_lines_concat(a, b);
    let before = crate::text::byte_lines(a);
    let lines = crate::text::byte_lines(a + b);
    assert(lines == before.push(bytes_of(line)));
    assert(lines == before + seq![bytes_of(line)]);
    lemma_progress_prefix(before, seq![bytes_of(line)], before.len());
    assert(lines[before.len() as int] == bytes_of(line));
    assert(crate::data::obj::progress(lines, lines.len()) == ObjProgress::Reading(next));
    assert((a + b).last() == b.last());
}

/// The model of a mesh that holds nothing but vertices and faces.
pub open spec fn plain_model(vertices: Seq<Seq<Seq<char>>>, faces: Seq<Seq<u32>>) -> ObjModel {
    ObjModel {
        vertices,
        texture: Seq::empty(),
        faces: faces.map_values(
            |f: Seq<u32>|
                FaceLine {
                    group: crate::data::obj::default_group(),
                    vertices: f,
                    texture: Seq::empty(),
                },
        ),
        group: crate::data::obj::default_group(),
    }
}

spec fn reads_as(text: Seq<char>, m: ObjModel) -> bool {
    &&& ends_line(bytes_of(text))
    &&& forall|i: int| 0 <= i < text.len() ==> (#[trigger] text[i] as u32) < 0x80
    &&& crate::data::obj::outcome(crate::text::byte_lines(bytes_of(text)))
        == ObjProgress::Reading(m)
}

proof fn lemma_vertex_text(vertices: Seq<Seq<Seq<char>>>)
    requires
        forall|i: int|
            0 <= i < vertices.len() ==> (#[trigger] vertices[i]).len() == 3
                && crate::data::obj::all_float_literals(vertices[i]),
    ensures
        reads_as(
            crate::data::obj::vertex_text(vertices),
            plain_model(vertices, Seq::empty()),
        ),
    decreases vertices.len(),
{
    let text = crate::data::obj::vertex_text(vertices);
    let m = plain_model(vertices, Seq::empty());
    if vertices.len() == 0 {
        assert(crate::text::byte_lines(bytes_of(text)).len() == 0);
        assert(m.faces =~= Seq::<FaceLine>::empty());
        assert(m.vertices =~= Seq::<Seq<Seq<char>>>::empty());
    } else {
        let front = vertices.drop_last();
        let v = vertices.last();
        let before = plain_model(front, Seq::empty());
        assert forall|i: int| 0 <= i < front.len() implies (#[trigger] front[i]).len() == 3
            && crate::data::obj::all_float_literals(front[i]) by {
            assert(front[i] == vertices[i]);
        }
        lemma_vertex_text(front);
        lemma_vertex_line(v, before);
        assert(front.push(v) == vertices);
        lemma_append_line(
            crate::data::obj::vertex_text(front),
            without_newline(crate::data::obj::vertex_line(v)),
            before,
            m,
        );
        lemma_ascii_append(
            crate::data::obj::vertex_text(front),
            without_newline(crate::data::obj::vertex_line(v)),
        );
    }
}

proof fn lemma_ascii_append(text: Seq<char>, line: Seq<char>)
    requires
        forall|i: int| 0 <= i < text.len() ==> (#[trigger] text[i] as u32) < 0x80,
        plain(line),
    ensures
        forall|i: int|
            0 <= i < (text + line.push('\n')).len() ==> (#[trigger] (text + line.push('\n'))[i]
                as u32) < 0x80,
{
    let all = text + line.push('\n');
    assert forall|i: int| 0 <= i < all.len() implies (#[trigger] all[i] as u32) < 0x80 by {
        if i < text.len() {
            assert(all[i] == text[i]);
        } else if i < text.len() + line.len() {
            assert(all[i] == line[i - text.len()]);
        }
    }
}

proof fn lemma_mesh_text(vertices: Seq<Seq<Seq<char>>>, faces: Seq<Seq<u32>>)
    requires
        forall|i: int|
            0 <= i < vertices.len() ==> (#[trigger] vertices[i]).len() == 3
                && crate::data::obj::all_float_literals(vertices[i]),
        forall|i: int, k: int|
            0 <= i < faces.len() && 0 <= k < faces[i].len() ==> #[trigger] faces[i][k] < u32::MAX,
    ensures
        reads_as(
            crate::data::obj::mesh_text(vertices, faces),
            plain_model(vertices, faces),
        ),
    decreases faces.len(),
{
    let text = crate::data::obj::mesh_text(vertices, faces);
    let m = plain_model(vertices, faces);
    if faces.len() == 0 {
        lemma_vertex_text(vertices);
        assert(text == crate::data::obj::vertex_text(vertices));
        assert(m.faces =~= plain_model(vertices, Seq::empty()).faces);
    } else {
        let front = faces.drop_last();
        let f = faces.last();
        let before = plain_model(vertices, front);
        assert forall|i: int, k: int| 0 <= i < front.len() && 0 <= k < front[i].len() implies
            #[trigger] front[i][k] < u32::MAX by {
            assert(front[i] == faces[i]);
            assert(faces[i][k] < u32::MAX);
        }
        lemma_mesh_text(vertices, front);
        assert forall|k: int| 0 <= k < f.len() implies #[trigger] f[k] < u32::MAX by {
            assert(faces[faces.len() - 1][k] < u32::MAX);
        }
        lemma_face_line(f, before);
        let line = without_newline(crate::data::obj::face_line(f));
        let old_text = crate::data::obj::mesh_text(vertices, front);
        assert(text == old_text + line.push('\n'));
        assert(m.faces =~= before.faces.push(
            FaceLine { group: before.group, vertices: f, texture: Seq::empty() },
        ));
        lemma_append_line(old_text, line, before, m);
        lemma_ascii_append(old_text, line);
    }
}

/// Reading back what [`crate::data::obj::save`] writes gives the same vertex
/// literals and the same faces, all in the group `noname`.
pub proof fn law_save_then_load(vertices: Seq<Seq<Seq<char>>>, faces: Seq<Seq<u32>>)
    requires
        forall|i: int|
            0 <= i < vertices.len() ==> (#[trigger] vertices[i]).len() == 3
                && crate::data::obj::all_float_literals(vertices[i]),
        forall|i: int, k: int|
            0 <= i < faces.len() && 0 <= k < faces[i].len() ==> #[trigger] faces[i][k] < u32::MAX,
    ensures
        crate::data::obj::outcome(
            crate::text::byte_lines(
                encode_utf8(crate::data::obj::mesh_text(vertices, faces)),
            ),
        ) == ObjProgress::Reading(plain_model(vertices, faces)),
{
    lemma_mesh_text(vertices, faces);
    lemma_bytes_of_plain(crate::data::obj::mesh_text(vertices, faces));
}

} // verus!
