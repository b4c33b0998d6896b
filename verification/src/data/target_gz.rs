//! Blend-shape targets: gzip-compressed text with a line
//! `<vertex_id> <dx> <dy> <dz>` for each vertex that moves. Ids are
//! zero-based, offsets are in decimeters.
use std::io::Read;

use vstd::prelude::*;
use vstd::string::*;

use crate::data::obj::coordinates_ok;
use crate::text::{decode_line, parse_unsigned, push_decimal, split_lines,
    split_words, string_of, IntFault};

verus! {

/// Why a file is not a target for the mesh.
#[derive(Debug, Clone)]
pub enum TargetGzError {
    /// The compressed stream breaks off or is corrupt.
    Gzip,
    /// The line with this number is not valid UTF-8.
    InvalidUtf8 { line: usize },
    Malformed { line: usize, msg: String },
    OutOfBounds { id: usize, count: usize },
}

/// The text that a gzip stream holds, where the stream is intact.
pub uninterp spec fn gunzip(bytes: Seq<u8>) -> Option<Seq<u8>>;

/// Reads `flate2::read::GzDecoder` to its end. The flag says whether the
/// first member of the stream was decoded whole, its checksum included; the
/// bytes are then its contents. Of a stream that breaks off or is corrupt,
/// the bytes are some that came out before the error: how many is left open.
#[verifier::external_body]
fn decompress(bytes: &[u8]) -> (r: (Vec<u8>, bool))
    ensures
        r.1 == (gunzip(bytes@) is Some),
        r.1 ==> gunzip(bytes@) == Some(r.0@),
{
    let mut text = Vec::new();
    let whole = flate2::read::GzDecoder::new(bytes).read_to_end(&mut text).is_ok();
    (text, whole)
}

// ---------------------------------------------------------------------------
// Model
// ---------------------------------------------------------------------------

/// The offset of each vertex, as its three literals; `None` where the file
/// does not mention the vertex.
pub type Offsets = Seq<Option<Seq<Seq<char>>>>;

pub open spec fn no_offsets(count: nat) -> Offsets {
    Seq::new(count, |i: int| None)
}

pub enum TargetProgress {
    Reading(Offsets),
    InvalidUtf8 { line: int },
    Malformed { line: int, msg: Seq<char> },
    OutOfBounds { id: int },
}

pub open spec fn fault_text(fault: IntFault) -> Seq<char> {
    match fault {
        IntFault::InvalidDigit => "invalid digit found in string"@,
        IntFault::TooLarge => "number too large to fit in target type"@,
    }
}

/// Reads one line, given as its words.
pub open spec fn words_step(deltas: Offsets, line: int, words: Seq<Seq<char>>) -> TargetProgress {
    if words.len() == 0 {
        TargetProgress::Reading(deltas)
    } else {
        let args = words.skip(1);
        match crate::text::unsigned_value(words[0]) {
            Err(fault) => TargetProgress::Malformed {
                line,
                msg: "vertex id parse: "@ + fault_text(fault),
            },
            Ok(id) => if id >= deltas.len() {
                TargetProgress::OutOfBounds { id }
            } else if !crate::data::obj::all_float_literals(args) {
                TargetProgress::Malformed { line, msg: "offset parse: invalid float literal"@ }
            } else if args.len() != 3 {
                TargetProgress::Malformed {
                    line,
                    msg: "offset needs 3 floats, got "@ + crate::text::decimal(args.len()),
                }
            } else {
                TargetProgress::Reading(deltas.update(id, Some(args)))
            },
        }
    }
}

/// The progress after the first `n` lines. Lines count from one.
pub open spec fn progress(lines: Seq<Seq<u8>>, count: nat, n: nat) -> TargetProgress
    decreases n,
{
    if n == 0 {
        TargetProgress::Reading(no_offsets(count))
    } else {
        match progress(lines, count, (n - 1) as nat) {
            TargetProgress::Reading(deltas) => match crate::text::line_chars(lines[n - 1]) {
                None => TargetProgress::InvalidUtf8 { line: n as int },
                Some(cs) => words_step(deltas, n as int, crate::text::words(cs)),
            },
            done => done,
        }
    }
}

proof fn lemma_progress_ended(lines: Seq<Seq<u8>>, count: nat, n: nat, end: nat)
    requires
        n <= end,
        !(progress(lines, count, n) is Reading),
    ensures
        progress(lines, count, end) == progress(lines, count, n),
    decreases end,
{
    if n < end {
        lemma_progress_ended(lines, count, n, (end - 1) as nat);
    }
}

/// The lines to read: all of them, or of a text that breaks off only those
/// that end in a newline.
pub open spec fn target_lines(text: Seq<u8>, whole: bool) -> Seq<Seq<u8>> {
    let lines = crate::text::byte_lines(text);
    if !whole && text.len() > 0 && text.last() != 10 {
        lines.drop_last()
    } else {
        lines
    }
}

/// `r` is what the lines of the text amount to; where none of them is at
/// fault but the text breaks off, it is [`TargetGzError::Gzip`].
pub open spec fn is_outcome(
    r: Result<Vec<Option<[String; 3]>>, TargetGzError>,
    text: Seq<u8>,
    whole: bool,
    count: usize,
) -> bool {
    let lines = target_lines(text, whole);
    match progress(lines, count as nat, lines.len()) {
        TargetProgress::Reading(deltas) => if whole {
            r is Ok && offsets(r->Ok_0@) =~= deltas
        } else {
            r is Err && r->Err_0 is Gzip
        },
        TargetProgress::InvalidUtf8 { line } => r is Err && r->Err_0 is InvalidUtf8
            && r->Err_0->InvalidUtf8_line == line,
        TargetProgress::Malformed { line, msg } => r is Err && r->Err_0 is Malformed
            && r->Err_0->Malformed_line == line && r->Err_0->msg@ == msg,
        TargetProgress::OutOfBounds { id } => r is Err && r->Err_0 is OutOfBounds && r->Err_0->id
            == id && r->Err_0->count == count,
    }
}

pub open spec fn offsets(v: Seq<Option<[String; 3]>>) -> Offsets {
    v.map_values(
        |c: Option<[String; 3]>|
            match c {
                Some(a) => Some(a@.map_values(|s: String| s@)),
                None => None,
            },
    )
}

// ---------------------------------------------------------------------------
// Reading
// ---------------------------------------------------------------------------

fn read_words(
    deltas: &mut Vec<Option<[String; 3]>>,
    line: usize,
    words: &Vec<Vec<char>>,
) -> (r: Option<TargetGzError>)
    ensures
        final(deltas)@.len() == old(deltas)@.len(),
        match words_step(
            offsets(old(deltas)@),
            line as int,
            crate::data::obj::rows(words@),
        ) {
            TargetProgress::Reading(next) => r is None && offsets(final(deltas)@) =~= next,
            TargetProgress::InvalidUtf8 { line } => false,
            TargetProgress::Malformed { line, msg } => r is Some && r->0 is Malformed
                && r->0->Malformed_line == line && r->0->msg@ == msg,
            TargetProgress::OutOfBounds { id } => r is Some && r->0 is OutOfBounds && r->0->id
                == id && r->0->count == old(deltas)@.len(),
        },
{
    if words.len() == 0 {
        return None;
    }
    let ghost args = crate::data::obj::rows(words@).skip(1);
    assert(crate::data::obj::rows(words@)[0] == words@[0]@);
    let id: usize = match parse_unsigned(&words[0]) {
        Ok(id) => id,
        Err(fault) => {
            let mut msg = "vertex id parse: ".to_owned();
            match fault {
                IntFault::InvalidDigit => msg.append("invalid digit found in string"),
                IntFault::TooLarge => msg.append("number too large to fit in target type"),
            }
            return Some(TargetGzError::Malformed { line, msg });
        },
    };
    if id >= deltas.len() {
        return Some(TargetGzError::OutOfBounds { id, count: deltas.len() });
    }
    if !coordinates_ok(words) {
        return Some(
            TargetGzError::Malformed {
                line,
                msg: "offset parse: invalid float literal".to_owned(),
            },
        );
    }
    if words.len() != 4 {
        let mut msg = "offset needs 3 floats, got ".to_owned();
        push_decimal(&mut msg, (words.len() - 1) as u64);
        return Some(TargetGzError::Malformed { line, msg });
    }
    let offset = [string_of(&words[1]), string_of(&words[2]), string_of(&words[3])];
    assert(offset@.map_values(|s: String| s@) =~= args);
    deltas[id] = Some(offset);
    assert(offsets(deltas@) =~= offsets(old(deltas)@).update(id as int, Some(args)));
    None
}

/// Reads the text of a target. `whole` says whether the text is all that the
/// file holds.
pub fn read(text: &[u8], whole: bool, vertices_count: usize) -> (r: Result<
    Vec<Option<[String; 3]>>,
    TargetGzError,
>)
    ensures
        is_outcome(r, text@, whole, vertices_count),
{
    let lines = split_lines(text);
    let ghost all = target_lines(text@, whole);
    let mut n: usize = lines.len();
    if !whole && text.len() > 0 && text[text.len() - 1] != 10 {
        proof {
            assert(n > 0);
        }
        n = n - 1;
    }
    let mut deltas: Vec<Option<[String; 3]>> = Vec::new();
    for k in 0..vertices_count
        invariant
            deltas@.len() == k,
            forall|j: int| 0 <= j < k ==> #[trigger] deltas@[j] is None,
    {
        deltas.push(None);
    }
    assert(offsets(deltas@) =~= no_offsets(vertices_count as nat));
    let mut i: usize = 0;
    while i < n
        invariant
            i <= n,
            n == all.len(),
            n <= lines@.len(),
            deltas@.len() == vertices_count,
            all == target_lines(text@, whole),
            forall|k: int| 0 <= k < n ==> (#[trigger] lines@[k])@ == all[k],
            progress(all, vertices_count as nat, i as nat) is Reading,
            offsets(deltas@) == progress(all, vertices_count as nat, i as nat)->Reading_0,
        decreases n - i,
    {
        assert(lines@[i as int]@ == all[i as int]);
        proof {
            if !(progress(all, vertices_count as nat, (i + 1) as nat) is Reading) {
                lemma_progress_ended(all, vertices_count as nat, (i + 1) as nat, n as nat);
            }
        }
        match decode_line(&lines[i]) {
            None => {
                return Err(TargetGzError::InvalidUtf8 { line: i + 1 });
            },
            Some(cs) => {
                let words = split_words(&cs);
                proof {
                    assert(crate::data::obj::rows(words@) =~= crate::text::words(cs@));
                }
                if let Some(e) = read_words(&mut deltas, i + 1, &words) {
                    return Err(e);
                }
            },
        }
        i = i + 1;
    }
    if whole {
        Ok(deltas)
    } else {
        Err(TargetGzError::Gzip)
    }
}

/// Reads a compressed target for a mesh with the given number of vertices:
/// the offset of each vertex as its literals, `None` where it does not move.
/// Where several lines name a vertex, the last one holds. Of a stream that is
/// not intact the lines that came out before the error are still read, so the
/// error is the first of theirs, if there is one.
pub fn load(bytes: &[u8], vertices_count: usize) -> (r: Result<
    Vec<Option<[String; 3]>>,
    TargetGzError,
>)
    ensures
        match gunzip(bytes@) {
            Some(text) => is_outcome(r, text, true, vertices_count),
            None => exists|text: Seq<u8>| #[trigger] is_outcome(r, text, false, vertices_count),
        },
{
    let (text, whole) = decompress(bytes);
    let r = read(text.as_slice(), whole, vertices_count);
    proof {
        if !whole {
            assert(is_outcome(r, text@, false, vertices_count));
        }
    }
    r
}

} // verus!
