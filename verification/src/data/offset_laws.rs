//! What the lines of an offset file say of a vertex.
use vstd::prelude::*;

use crate::data::target_gz::{TargetGzError, TargetProgress};

verus! {

/// The words of a line of text; none where it is no text.
pub open spec fn words_of(line: Seq<u8>) -> Seq<Seq<char>> {
    match crate::text::line_chars(line) {
        Some(chars) => crate::text::words(chars),
        None => Seq::empty(),
    }
}

/// The line has four words, and the first one is the number of the vertex.
pub open spec fn is_about(line: Seq<u8>, vertex: int) -> bool {
    let words = words_of(line);
    words.len() == 4 && match crate::text::unsigned_value(words[0]) {
        Ok(id) => id == vertex,
        Err(_) => false,
    }
}

/// Line `n` is the last of the first `end` that is about the vertex.
pub open spec fn is_last_about(lines: Seq<Seq<u8>>, end: int, vertex: int, n: int) -> bool {
    &&& 0 <= n < end
    &&& is_about(lines[n], vertex)
    &&& forall|m: int| n < m < end ==> !is_about(#[trigger] lines[m], vertex)
}

proof fn lemma_number(s: Seq<char>, limit: int)
    ensures
        match crate::text::digits_value(s, limit) {
            Ok(v) => v >= 0,
            Err(_) => true,
        },
    decreases s.len(),
{
    if s.len() > 0 {
        lemma_number(s.drop_last(), limit);
    }
}

/// What the lines so far say of a vertex: the three words behind its number in the
/// last line about it, and nothing where there is no such line.
proof fn lemma_said(lines: Seq<Seq<u8>>, count: nat, n: nat, vertex: int) -> (at: int)
    requires
        n <= lines.len(),
        crate::data::target_gz::progress(lines, count, n) is Reading,
        0 <= vertex < count,
    ensures
        ({
            let said = crate::data::target_gz::progress(lines, count, n)->Reading_0;
            &&& said.len() == count
            &&& match said[vertex] {
                Some(w) => {
                    &&& is_last_about(lines, n as int, vertex, at)
                    &&& w == seq![
                        words_of(lines[at])[1],
                        words_of(lines[at])[2],
                        words_of(lines[at])[3],
                    ]
                },
                None => forall|m: int| 0 <= m < n ==> !is_about(#[trigger] lines[m], vertex),
            }
        }),
    decreases n,
{
    if n == 0 {
        -1
    } else {
        let before = lemma_said(lines, count, (n - 1) as nat, vertex);
        let words = words_of(lines[n - 1]);
        let earlier = crate::data::target_gz::progress(lines, count, (n - 1) as nat)->Reading_0;
        let now = crate::data::target_gz::progress(lines, count, n)->Reading_0;
        assert(crate::text::line_chars(lines[n - 1]) is Some);
        assert(TargetProgress::Reading(now) == crate::data::target_gz::words_step(
            earlier,
            n as int,
            words,
        ));
        if words.len() > 0 {
            assert(words.skip(1).len() == 3);
            assert(words.skip(1) =~= seq![words[1], words[2], words[3]]);
        }
        if is_about(lines[n - 1], vertex) {
            assert(now[vertex] == Some(words.skip(1)));
            assert(is_last_about(lines, n as int, vertex, n - 1));
            n - 1
        } else {
            if words.len() > 0 {
                assert(words.len() == 4);
                let id = crate::text::unsigned_value(words[0])->Ok_0;
                assert(crate::text::unsigned_value(words[0]) is Ok);
                lemma_number(words[0], usize::MAX as int);
                lemma_number(words[0].skip(1), usize::MAX as int);
                assert(0 <= id && id != vertex);
                assert(now == earlier.update(id, Some(words.skip(1))));
            } else {
                assert(now == earlier);
            }
            assert(now[vertex] == earlier[vertex]);
            before
        }
    }
}

/// Where a file is read, the offset of each vertex stands in the last line about it: its
/// first, second and third word behind the number of the vertex. A vertex without a line
/// has none.
pub proof fn law_offsets_are_those_of_the_lines(
    text: &[u8],
    count: usize,
    r: Vec<Option<[String; 3]>>,
    vertex: int,
) -> (at: int)
    requires
        call_ensures(
            crate::data::target_gz::read,
            (text, true, count),
            Ok::<Vec<Option<[String; 3]>>, TargetGzError>(r),
        ),
        0 <= vertex < count,
    ensures
        r@.len() == count,
        ({
            let lines = crate::text::byte_lines(text@);
            match r@[vertex] {
                Some(offset) => {
                    &&& is_last_about(lines, lines.len() as int, vertex, at)
                    &&& offset@[0]@ == words_of(lines[at])[1]
                    &&& offset@[1]@ == words_of(lines[at])[2]
                    &&& offset@[2]@ == words_of(lines[at])[3]
                },
                None => forall|m: int|
                    0 <= m < lines.len() ==> !is_about(#[trigger] lines[m], vertex),
            }
        }),
{
    let lines = crate::text::byte_lines(text@);
    assert(crate::data::target_gz::is_outcome(Ok(r), text@, true, count));
    let at = lemma_said(lines, count as nat, lines.len(), vertex);
    let said = crate::data::target_gz::progress(lines, count as nat, lines.len())->Reading_0;
    let all = crate::data::target_gz::offsets(r@);
    assert(all == said);
    assert(all.len() == r@.len());
    match r@[vertex] {
        Some(offset) => {
            let w = offset@.map_values(|s: String| s@);
            assert(all[vertex] == Some(w));
            assert(w[0] == offset@[0]@ && w[1] == offset@[1]@ && w[2] == offset@[2]@);
        },
        None => {
            assert(all[vertex] is None);
        },
    }
    at
}

} // verus!
