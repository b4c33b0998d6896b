//! Lines, words and numbers of plain-text files.
use vstd::prelude::*;
use vstd::string::*;
use vstd::utf8::*;

verus! {

/// `String::push` appends the given character to the end of the string.
pub assume_specification[ String::push ](s: &mut String, ch: char)
    ensures
        final(s)@ == old(s)@.push(ch),
;

/// The error of `core::str::from_utf8`; carried through, never looked into.
#[verifier::external_type_specification]
#[verifier::external_body]
pub struct ExUtf8Error(core::str::Utf8Error);

/// `core::str::from_utf8` succeeds exactly on valid UTF-8, and the string it
/// returns has the given bytes as its UTF-8 encoding.
pub assume_specification[ core::str::from_utf8 ](v: &[u8]) -> (r: Result<
    &str,
    core::str::Utf8Error,
>)
    ensures
        r is Ok <==> valid_utf8(v@),
        r is Ok ==> r->Ok_0.spec_bytes() == v@,
;

// ---------------------------------------------------------------------------
// Lines
// ---------------------------------------------------------------------------

/// Length of the first line of `b`, its newline not counted.
pub open spec fn line_len(b: Seq<u8>) -> nat
    decreases b.len(),
{
    if b.len() == 0 || b[0] == 10 {
        0
    } else {
        1 + line_len(b.drop_first())
    }
}

pub proof fn lemma_line_len(b: Seq<u8>)
    ensures
        line_len(b) <= b.len(),
        line_len(b) < b.len() ==> b[line_len(b) as int] == 10,
        forall|i: int| 0 <= i < line_len(b) ==> b[i] != 10,
    decreases b.len(),
{
    if b.len() != 0 && b[0] != 10 {
        lemma_line_len(b.drop_first());
        assert forall|i: int| 0 <= i < line_len(b) implies b[i] != 10 by {
            if i > 0 {
                assert(b.drop_first()[i - 1] == b[i]);
            }
        }
    }
}

/// The length of the first line is pinned by where its newline is.
pub proof fn lemma_line_len_at(b: Seq<u8>, n: int)
    requires
        0 <= n <= b.len(),
        n < b.len() ==> b[n] == 10,
        forall|i: int| 0 <= i < n ==> b[i] != 10,
    ensures
        line_len(b) == n,
{
    lemma_line_len(b);
    if line_len(b) < n {
        assert(b[line_len(b) as int] == 10);
    }
}

/// The lines of `b`: the runs between newline bytes. A last line without a
/// newline counts if it holds a byte.
pub open spec fn byte_lines(b: Seq<u8>) -> Seq<Seq<u8>>
    decreases b.len(),
{
    if b.len() == 0 {
        Seq::empty()
    } else {
        let n = line_len(b) as int;
        if n < b.len() {
            seq![b.take(n)] + byte_lines(b.skip(n + 1))
        } else {
            seq![b]
        }
    }
}

/// Splits `b` into its lines, the newlines left out.
pub fn split_lines(b: &[u8]) -> (lines: Vec<Vec<u8>>)
    ensures
        lines@.len() == byte_lines(b@).len(),
        forall|i: int| 0 <= i < lines@.len() ==> (#[trigger] lines@[i])@ == byte_lines(b@)[i],
{
    let mut lines: Vec<Vec<u8>> = Vec::new();
    let mut current: Vec<u8> = Vec::new();
    let mut i: usize = 0;
    let ghost mut start: int = 0;
    proof {
        assert(b@.skip(0) == b@);
    }
    while i < b.len()
        invariant
            0 <= start <= i <= b.len(),
            current@ == b@.subrange(start, i as int),
            forall|k: int| start <= k < i ==> b@[k] != 10,
            byte_lines(b@).len() == lines@.len() + byte_lines(b@.skip(start)).len(),
            forall|k: int|
                0 <= k < lines@.len() ==> (#[trigger] lines@[k])@ == byte_lines(b@)[k],
            forall|k: int|
                0 <= k < byte_lines(b@.skip(start)).len() ==> byte_lines(b@.skip(start))[k]
                    == #[trigger] byte_lines(b@)[lines@.len() + k],
        decreases b.len() - i,
    {
        let c: u8 = b[i];
        if c == 10 {
            proof {
                let rest = b@.skip(start);
                lemma_line_len_at(rest, i - start);
                assert(rest.take(i - start) == current@);
                assert(rest.skip(i - start + 1) == b@.skip(i + 1));
                let tail = byte_lines(b@.skip(i + 1));
                assert(byte_lines(rest) == seq![current@] + tail);
                assert(byte_lines(rest)[0] == byte_lines(b@)[lines@.len() + 0int]);
                assert forall|k: int| 0 <= k < tail.len() implies tail[k]
                    == #[trigger] byte_lines(b@)[lines@.len() + 1 + k] by {
                    assert(byte_lines(rest)[k + 1] == byte_lines(b@)[lines@.len() + (k + 1)]);
                }
                start = i + 1;
            }
            lines.push(current);
            current = Vec::new();
        } else {
            current.push(c);
        }
        i = i + 1;
    }
    proof {
        let rest = b@.skip(start);
        assert(rest == current@);
        lemma_line_len_at(rest, rest.len() as int);
        if rest.len() > 0 {
            assert(byte_lines(rest) == seq![current@]);
            assert(byte_lines(rest)[0] == byte_lines(b@)[lines@.len() + 0int]);
        }
    }
    if current.len() > 0 {
        lines.push(current);
    }
    lines
}

/// The characters of a line, or `None` where it is not valid UTF-8.
pub open spec fn line_chars(line: Seq<u8>) -> Option<Seq<char>> {
    if valid_utf8(line) {
        Some(decode_utf8(line))
    } else {
        None
    }
}

/// Decodes a line.
pub fn decode_line(line: &Vec<u8>) -> (r: Option<Vec<char>>)
    ensures
        match r {
            Some(cs) => line_chars(line@) == Some(cs@),
            None => line_chars(line@) is None,
        },
{
    match core::str::from_utf8(line.as_slice()) {
        Ok(s) => {
            proof {
                encode_utf8_decode_utf8(s@);
            }
            Some(chars_of(s))
        },
        Err(_) => None,
    }
}

/// The characters of a string, in order.
pub fn chars_of(s: &str) -> (r: Vec<char>)
    ensures
        r@ == s@,
{
    let mut r: Vec<char> = Vec::new();
    for c in it: s.chars()
        invariant
            r@.len() == it.index(),
            it.seq() == s@,
            forall|k: int| 0 <= k < r@.len() ==> r@[k] == s@[k],
    {
        r.push(c);
    }
    r
}

/// The string of the given characters.
pub fn string_of(cs: &Vec<char>) -> (r: String)
    ensures
        r@ == cs@,
{
    let mut r = String::new();
    for i in 0..cs.len()
        invariant
            r@ == cs@.take(i as int),
    {
        r.push(cs[i]);
        assert(cs@.take(i + 1) == cs@.take(i as int).push(cs@[i as int]));
    }
    assert(cs@.take(cs@.len() as int) == cs@);
    r
}

// ---------------------------------------------------------------------------
// Words
// ---------------------------------------------------------------------------

/// The characters with the Unicode `White_Space` property.
pub open spec fn is_white_space(c: char) -> bool {
    let n = c as u32;
    ||| 0x9 <= n <= 0xd
    ||| n == 0x20
    ||| n == 0x85
    ||| n == 0xa0
    ||| n == 0x1680
    ||| 0x2000 <= n <= 0x200a
    ||| n == 0x2028
    ||| n == 0x2029
    ||| n == 0x202f
    ||| n == 0x205f
    ||| n == 0x3000
}

/// Whether `c` has the Unicode `White_Space` property.
pub fn white_space(c: char) -> (r: bool)
    ensures
        r == is_white_space(c),
{
    let n: u32 = c as u32;
    (0x9 <= n && n <= 0xd) || n == 0x20 || n == 0x85 || n == 0xa0 || n == 0x1680 || (0x2000 <= n
        && n <= 0x200a) || n == 0x2028 || n == 0x2029 || n == 0x202f || n == 0x205f || n == 0x3000
}

/// Length of the longest prefix of `s` without white space.
pub open spec fn word_len(s: Seq<char>) -> nat
    decreases s.len(),
{
    if s.len() == 0 || is_white_space(s[0]) {
        0
    } else {
        1 + word_len(s.drop_first())
    }
}

pub proof fn lemma_word_len(s: Seq<char>)
    ensures
        word_len(s) <= s.len(),
        word_len(s) < s.len() ==> is_white_space(s[word_len(s) as int]),
        forall|i: int| 0 <= i < word_len(s) ==> !is_white_space(#[trigger] s[i]),
    decreases s.len(),
{
    if s.len() != 0 && !is_white_space(s[0]) {
        lemma_word_len(s.drop_first());
        assert forall|i: int| 0 <= i < word_len(s) implies !is_white_space(#[trigger] s[i]) by {
            if i > 0 {
                assert(s.drop_first()[i - 1] == s[i]);
            }
        }
    }
}

/// The length of the first word is pinned by where white space follows it.
pub proof fn lemma_word_len_at(s: Seq<char>, n: int)
    requires
        0 <= n <= s.len(),
        n < s.len() ==> is_white_space(s[n]),
        forall|i: int| 0 <= i < n ==> !is_white_space(#[trigger] s[i]),
    ensures
        word_len(s) == n,
{
    lemma_word_len(s);
    if word_len(s) < n {
        assert(!is_white_space(s[word_len(s) as int]));
    }
}

/// The words of `s`: its maximal runs without white space.
pub open spec fn words(s: Seq<char>) -> Seq<Seq<char>>
    decreases s.len(),
{
    if s.len() == 0 {
        Seq::empty()
    } else if is_white_space(s[0]) {
        words(s.drop_first())
    } else {
        proof {
            lemma_word_len(s);
        }
        seq![s.take(word_len(s) as int)] + words(s.skip(word_len(s) as int))
    }
}

/// `b` holds the sequences `a` from position `from` on.
pub open spec fn continues_at<A>(a: Seq<Seq<A>>, b: Seq<Seq<A>>, from: int) -> bool {
    &&& b.len() == from + a.len()
    &&& forall|k: int| 0 <= k < a.len() ==> a[k] == #[trigger] b[from + k]
}

/// The words of `s`, in order.
pub fn split_words(s: &Vec<char>) -> (r: Vec<Vec<char>>)
    ensures
        r@.len() == words(s@).len(),
        forall|i: int| 0 <= i < r@.len() ==> (#[trigger] r@[i])@ == words(s@)[i],
{
    let mut r: Vec<Vec<char>> = Vec::new();
    let mut current: Vec<char> = Vec::new();
    let mut i: usize = 0;
    let ghost mut start: int = 0;
    proof {
        assert(s@.skip(0) == s@);
    }
    while i < s.len()
        invariant
            0 <= start <= i <= s.len(),
            current@ == s@.subrange(start, i as int),
            forall|k: int| start <= k < i ==> !is_white_space(#[trigger] s@[k]),
            continues_at(words(s@.skip(start)), words(s@), r@.len() as int),
            forall|k: int| 0 <= k < r@.len() ==> (#[trigger] r@[k])@ == words(s@)[k],
        decreases s.len() - i,
    {
        let c: char = s[i];
        if white_space(c) {
            let ghost rest = s@.skip(start);
            proof {
                assert(rest.skip(i - start) == s@.skip(i as int));
                assert(rest.skip(i - start).drop_first() == s@.skip(i + 1));
                assert(words(s@.skip(i as int)) == words(s@.skip(i + 1)));
            }
            if current.len() > 0 {
                proof {
                    lemma_word_len_at(rest, i - start);
                    assert(rest.take(i - start) == current@);
                    let tail = words(s@.skip(i + 1));
                    assert(words(rest) == seq![current@] + tail);
                    assert(words(rest)[0] == words(s@)[r@.len() + 0int]);
                    assert forall|k: int| 0 <= k < tail.len() implies tail[k]
                        == #[trigger] words(s@)[r@.len() + 1 + k] by {
                        assert(words(rest)[k + 1] == words(s@)[r@.len() + (k + 1)]);
                    }
                }
                r.push(current);
                current = Vec::new();
            } else {
                proof {
                    assert(rest == s@.skip(i as int));
                }
            }
            proof {
                start = i + 1;
            }
        } else {
            current.push(c);
        }
        i = i + 1;
    }
    proof {
        let rest = s@.skip(start);
        assert(rest == current@);
        if rest.len() > 0 {
            assert(!is_white_space(s@[start]));
            lemma_word_len_at(rest, rest.len() as int);
            assert(rest.take(rest.len() as int) == rest);
            assert(rest.skip(rest.len() as int) == Seq::<char>::empty());
            assert(words(rest.skip(rest.len() as int)).len() == 0);
            assert(words(rest) == seq![rest]);
            assert(words(rest)[0] == words(s@)[r@.len() + 0int]);
        }
    }
    if current.len() > 0 {
        r.push(current);
    }
    r
}

/// Every word holds a character, and none of its characters is white space.
pub proof fn lemma_words_nonempty(s: Seq<char>)
    ensures
        forall|i: int| 0 <= i < words(s).len() ==> (#[trigger] words(s)[i]).len() > 0,
    decreases s.len(),
{
    if s.len() != 0 {
        if is_white_space(s[0]) {
            lemma_words_nonempty(s.drop_first());
            assert(words(s) == words(s.drop_first()));
        } else {
            lemma_word_len(s);
            let rest = s.skip(word_len(s) as int);
            lemma_words_nonempty(rest);
            assert forall|i: int| 0 <= i < words(s).len() implies (#[trigger] words(s)[i]).len()
                > 0 by {
                if i > 0 {
                    assert(words(s)[i] == words(rest)[i - 1]);
                }
            }
        }
    }
}

/// Position of the first `/` of `s`, or its length.
pub open spec fn slash_at(s: Seq<char>) -> nat
    decreases s.len(),
{
    if s.len() == 0 || s[0] == '/' {
        0
    } else {
        1 + slash_at(s.drop_first())
    }
}

pub proof fn lemma_slash_at(s: Seq<char>, n: int)
    requires
        0 <= n <= s.len(),
        n < s.len() ==> s[n] == '/',
        forall|i: int| 0 <= i < n ==> s[i] != '/',
    ensures
        slash_at(s) == n,
    decreases s.len(),
{
    if n > 0 {
        assert(s[0] != '/');
        lemma_slash_at(s.drop_first(), n - 1);
    }
}

/// The pieces of `s` between its `/` characters.
pub open spec fn slash_pieces(s: Seq<char>) -> Seq<Seq<char>>
    decreases s.len(),
{
    let n = slash_at(s) as int;
    if n < s.len() {
        seq![s.take(n)] + slash_pieces(s.skip(n + 1))
    } else {
        seq![s]
    }
}

/// Splits `s` at every `/`.
pub fn split_slashes(s: &Vec<char>) -> (r: Vec<Vec<char>>)
    ensures
        r@.len() == slash_pieces(s@).len(),
        r@.len() >= 1,
        forall|i: int| 0 <= i < r@.len() ==> (#[trigger] r@[i])@ == slash_pieces(s@)[i],
{
    let mut r: Vec<Vec<char>> = Vec::new();
    let mut current: Vec<char> = Vec::new();
    let mut i: usize = 0;
    let ghost mut start: int = 0;
    proof {
        assert(s@.skip(0) == s@);
    }
    while i < s.len()
        invariant
            0 <= start <= i <= s.len(),
            current@ == s@.subrange(start, i as int),
            forall|k: int| start <= k < i ==> s@[k] != '/',
            continues_at(slash_pieces(s@.skip(start)), slash_pieces(s@), r@.len() as int),
            forall|k: int| 0 <= k < r@.len() ==> (#[trigger] r@[k])@ == slash_pieces(s@)[k],
        decreases s.len() - i,
    {
        let c: char = s[i];
        if c == '/' {
            proof {
                let rest = s@.skip(start);
                lemma_slash_at(rest, i - start);
                assert(rest.take(i - start) == current@);
                assert(rest.skip(i - start + 1) == s@.skip(i + 1));
                let tail = slash_pieces(s@.skip(i + 1));
                assert(slash_pieces(rest) == seq![current@] + tail);
                assert(slash_pieces(rest)[0] == slash_pieces(s@)[r@.len() + 0int]);
                assert forall|k: int| 0 <= k < tail.len() implies tail[k]
                    == #[trigger] slash_pieces(s@)[r@.len() + 1 + k] by {
                    assert(slash_pieces(rest)[k + 1] == slash_pieces(s@)[r@.len() + (k + 1)]);
                }
                start = i + 1;
            }
            r.push(current);
            current = Vec::new();
        } else {
            current.push(c);
        }
        i = i + 1;
    }
    proof {
        let rest = s@.skip(start);
        assert(rest == current@);
        lemma_slash_at(rest, rest.len() as int);
        assert(slash_pieces(rest) == seq![current@]);
        assert(slash_pieces(rest)[0] == slash_pieces(s@)[r@.len() + 0int]);
    }
    r.push(current);
    r
}

// ---------------------------------------------------------------------------
// Integers
// ---------------------------------------------------------------------------

pub open spec fn is_digit(c: char) -> bool {
    0x30 <= c as u32 <= 0x39
}

pub open spec fn digit_value(c: char) -> int {
    c as u32 - 0x30
}

/// Why a word is not an integer of the wanted type.
#[derive(Debug, Clone, Copy, PartialEq, Eq, Structural)]
pub enum IntFault {
    InvalidDigit,
    TooLarge,
}

/// The number that the digits `s` write, read from the left: the first
/// character that is not a digit, or that takes the number over `limit`,
/// decides the fault.
pub open spec fn digits_value(s: Seq<char>, limit: int) -> Result<int, IntFault>
    decreases s.len(),
{
    if s.len() == 0 {
        Ok(0)
    } else {
        match digits_value(s.drop_last(), limit) {
            Ok(v) => if !is_digit(s.last()) {
                Err(IntFault::InvalidDigit)
            } else if v * 10 + digit_value(s.last()) > limit {
                Err(IntFault::TooLarge)
            } else {
                Ok(v * 10 + digit_value(s.last()))
            },
            Err(e) => Err(e),
        }
    }
}

/// A fault in a prefix is the fault of the whole.
pub proof fn lemma_digits_fault(s: Seq<char>, n: int, limit: int)
    requires
        0 <= n <= s.len(),
        digits_value(s.take(n), limit) is Err,
    ensures
        digits_value(s, limit) == digits_value(s.take(n), limit),
    decreases s.len() - n,
{
    if n < s.len() {
        assert(s.take(n + 1).drop_last() == s.take(n));
        lemma_digits_fault(s, n + 1, limit);
    } else {
        assert(s.take(n) == s);
    }
}

fn read_digits(s: &Vec<char>, from: usize, limit: u64) -> (r: Result<u64, IntFault>)
    requires
        from <= s@.len(),
    ensures
        match r {
            Ok(v) => digits_value(s@.skip(from as int), limit as int) == Ok::<int, IntFault>(
                v as int,
            ) && v <= limit,
            Err(e) => digits_value(s@.skip(from as int), limit as int) == Err::<int, IntFault>(e),
        },
{
    let ghost t = s@.skip(from as int);
    let mut v: u64 = 0;
    let mut i: usize = from;
    while i < s.len()
        invariant
            from <= i <= s@.len(),
            t == s@.skip(from as int),
            v <= limit,
            digits_value(t.take(i - from), limit as int) == Ok::<int, IntFault>(v as int),
        decreases s.len() - i,
    {
        let c: char = s[i];
        let n: u32 = c as u32;
        proof {
            assert(t.take(i - from + 1).drop_last() == t.take(i - from));
            assert(t.take(i - from + 1).last() == c);
        }
        if n < 0x30 || n > 0x39 {
            proof {
                lemma_digits_fault(t, i - from + 1, limit as int);
            }
            return Err(IntFault::InvalidDigit);
        }
        let next: u128 = v as u128 * 10 + (n - 0x30) as u128;
        if next > limit as u128 {
            proof {
                lemma_digits_fault(t, i - from + 1, limit as int);
            }
            return Err(IntFault::TooLarge);
        }
        v = next as u64;
        i = i + 1;
    }
    assert(t.take(t.len() as int) == t);
    Ok(v)
}

/// The `usize` that the word `s` writes: digits behind an optional `+`.
pub open spec fn unsigned_value(s: Seq<char>) -> Result<int, IntFault> {
    let t = if s.len() > 0 && s[0] == '+' {
        s.skip(1)
    } else {
        s
    };
    if t.len() == 0 {
        Err(IntFault::InvalidDigit)
    } else {
        digits_value(t, usize::MAX as int)
    }
}

/// Reads a word as a `usize`.
pub fn parse_unsigned(s: &Vec<char>) -> (r: Result<usize, IntFault>)
    ensures
        match r {
            Ok(v) => unsigned_value(s@) == Ok::<int, IntFault>(v as int),
            Err(e) => unsigned_value(s@) == Err::<int, IntFault>(e),
        },
{
    let mut from: usize = 0;
    if s.len() > 0 && s[0] == '+' {
        from = 1;
    }
    if from == s.len() {
        return Err(IntFault::InvalidDigit);
    }
    assert(s@.skip(0) == s@);
    match read_digits(s, from, usize::MAX as u64) {
        Ok(v) => Ok(v as usize),
        Err(e) => Err(e),
    }
}

/// The `i64` that the word `s` writes: digits behind an optional sign.
pub open spec fn signed_value(s: Seq<char>) -> Option<int> {
    if s.len() > 0 && s[0] == '-' {
        match digits_value(s.skip(1), 0x8000_0000_0000_0000) {
            Ok(v) if s.len() > 1 => Some(-v),
            _ => None,
        }
    } else {
        let t = if s.len() > 0 && s[0] == '+' {
            s.skip(1)
        } else {
            s
        };
        match digits_value(t, 0x7fff_ffff_ffff_ffff) {
            Ok(v) if t.len() > 0 => Some(v),
            _ => None,
        }
    }
}

/// Reads a word as an `i64`.
pub fn parse_signed(s: &Vec<char>) -> (r: Option<i64>)
    ensures
        match r {
            Some(v) => signed_value(s@) == Some(v as int),
            None => signed_value(s@) is None,
        },
{
    if s.len() > 0 && s[0] == '-' {
        if s.len() == 1 {
            return None;
        }
        return match read_digits(s, 1, 0x8000_0000_0000_0000) {
            Ok(v) => Some((-(v as i128)) as i64),
            Err(_) => None,
        };
    }
    let mut from: usize = 0;
    if s.len() > 0 && s[0] == '+' {
        from = 1;
    }
    if from == s.len() {
        return None;
    }
    assert(s@.skip(0) == s@);
    match read_digits(s, from, 0x7fff_ffff_ffff_ffff) {
        Ok(v) => Some(v as i64),
        Err(_) => None,
    }
}

pub open spec fn digit_of(d: nat) -> char {
    (0x30 + d) as char
}

/// `n` in decimal, without leading zeros.
pub open spec fn decimal(n: nat) -> Seq<char>
    decreases n,
{
    if n < 10 {
        seq![digit_of(n)]
    } else {
        decimal(n / 10).push(digit_of(n % 10))
    }
}

fn digit_char(d: u64) -> (c: char)
    requires
        d < 10,
    ensures
        c == digit_of(d as nat),
{
    match d {
        0 => '0',
        1 => '1',
        2 => '2',
        3 => '3',
        4 => '4',
        5 => '5',
        6 => '6',
        7 => '7',
        8 => '8',
        _ => '9',
    }
}

/// Appends `n` in decimal to `s`.
pub fn push_decimal(s: &mut String, n: u64)
    ensures
        final(s)@ == old(s)@ + decimal(n as nat),
    decreases n,
{
    if n < 10 {
        s.push(digit_char(n));
        assert(s@ == old(s)@ + decimal(n as nat));
    } else {
        push_decimal(s, n / 10);
        s.push(digit_char(n % 10));
        assert(s@ == old(s)@ + decimal(n as nat));
    }
}

/// Reading back what [`push_decimal`] writes gives the number again.
pub proof fn law_decimal_read_back(n: nat, limit: int)
    requires
        n <= limit,
    ensures
        digits_value(decimal(n), limit) == Ok::<int, IntFault>(n as int),
        decimal(n).len() > 0,
        forall|i: int| 0 <= i < decimal(n).len() ==> is_digit(#[trigger] decimal(n)[i]),
    decreases n,
{
    if n < 10 {
        assert(decimal(n).drop_last() == Seq::<char>::empty());
        assert(digits_value(decimal(n).drop_last(), limit) == Ok::<int, IntFault>(0));
        assert(decimal(n).last() == digit_of(n));
    } else {
        law_decimal_read_back(n / 10, limit);
        assert(decimal(n).drop_last() == decimal(n / 10));
        assert(decimal(n).last() == digit_of(n % 10));
        assert forall|i: int| 0 <= i < decimal(n).len() implies is_digit(
            #[trigger] decimal(n)[i],
        ) by {
            if i < decimal(n).len() - 1 {
                assert(decimal(n)[i] == decimal(n / 10)[i]);
            }
        }
    }
}

// ---------------------------------------------------------------------------
// Floating-point literals
// ---------------------------------------------------------------------------

/// Length of the longest prefix of `s` that holds digits only.
pub open spec fn digit_run(s: Seq<char>) -> nat
    decreases s.len(),
{
    if s.len() == 0 || !is_digit(s[0]) {
        0
    } else {
        1 + digit_run(s.drop_first())
    }
}

proof fn lemma_digit_run_at(s: Seq<char>, n: int)
    requires
        0 <= n <= s.len(),
        n < s.len() ==> !is_digit(s[n]),
        forall|i: int| 0 <= i < n ==> is_digit(#[trigger] s[i]),
    ensures
        digit_run(s) == n,
    decreases s.len(),
{
    if n > 0 {
        assert(is_digit(s[0]));
        assert forall|i: int| 0 <= i < n - 1 implies is_digit(#[trigger] s.drop_first()[i]) by {
            assert(s.drop_first()[i] == s[i + 1]);
        }
        lemma_digit_run_at(s.drop_first(), n - 1);
    }
}

fn count_digits(s: &Vec<char>, from: usize) -> (n: usize)
    requires
        from <= s@.len(),
    ensures
        n == digit_run(s@.skip(from as int)),
        from + n <= s@.len(),
{
    let mut i: usize = from;
    while i < s.len() && 0x30 <= s[i] as u32 && s[i] as u32 <= 0x39
        invariant
            from <= i <= s@.len(),
            forall|k: int| from <= k < i ==> is_digit(#[trigger] s@[k]),
        decreases s.len() - i,
    {
        i = i + 1;
    }
    proof {
        let t = s@.skip(from as int);
        assert forall|k: int| 0 <= k < i - from implies is_digit(#[trigger] t[k]) by {
            assert(t[k] == s@[from + k]);
        }
        lemma_digit_run_at(t, i - from);
    }
    i - from
}

/// `e`, an optional sign, digits.
pub open spec fn is_exponent(s: Seq<char>) -> bool {
    let k: int = if s.len() >= 2 && (s[1] == '+' || s[1] == '-') {
        2
    } else {
        1
    };
    &&& s.len() > k
    &&& s[0] == 'e' || s[0] == 'E'
    &&& digit_run(s.skip(k)) == s.len() - k
}

/// Digits with at most one `.` among or around them, then an optional exponent.
pub open spec fn is_number(s: Seq<char>) -> bool {
    let whole = digit_run(s) as int;
    let dot = whole < s.len() && s[whole] == '.';
    let fraction = if dot {
        digit_run(s.skip(whole + 1)) as int
    } else {
        0
    };
    let end = if dot {
        whole + 1 + fraction
    } else {
        whole
    };
    &&& whole + fraction > 0
    &&& end == s.len() || is_exponent(s.skip(end))
}

pub open spec fn ascii_lower(c: char) -> char {
    if 0x41 <= c as u32 <= 0x5a {
        (c as u32 + 0x20) as char
    } else {
        c
    }
}

/// `s` is `word`, whatever the case of its ASCII letters.
pub open spec fn is_word_ignoring_case(s: Seq<char>, word: Seq<char>) -> bool {
    &&& s.len() == word.len()
    &&& forall|i: int| 0 <= i < s.len() ==> ascii_lower(#[trigger] s[i]) == word[i]
}

pub open spec fn after_sign(s: Seq<char>) -> Seq<char> {
    if s.len() > 0 && (s[0] == '+' || s[0] == '-') {
        s.skip(1)
    } else {
        s
    }
}

/// The words that write a floating-point number: a decimal number, an
/// infinity or a NaN, behind an optional sign.
pub open spec fn is_float_literal(s: Seq<char>) -> bool {
    let t = after_sign(s);
    ||| is_number(t)
    ||| is_word_ignoring_case(t, seq!['i', 'n', 'f'])
    ||| is_word_ignoring_case(t, seq!['i', 'n', 'f', 'i', 'n', 'i', 't', 'y'])
    ||| is_word_ignoring_case(t, seq!['n', 'a', 'n'])
}

fn number_at(s: &Vec<char>, from: usize) -> (r: bool)
    requires
        from <= s@.len(),
    ensures
        r == is_number(s@.skip(from as int)),
{
    let ghost t = s@.skip(from as int);
    let n: usize = s.len();
    let whole: usize = count_digits(s, from);
    let mut end: usize = from + whole;
    let mut fraction: usize = 0;
    if end < s.len() && s[end] == '.' {
        proof {
            assert(t.skip(whole + 1) == s@.skip(end + 1));
            assert(t[whole as int] == s@[end as int]);
        }
        fraction = count_digits(s, end + 1);
        end = end + 1 + fraction;
    } else {
        proof {
            if end < s@.len() {
                assert(t[whole as int] == s@[end as int]);
            }
        }
    }
    if whole == 0 && fraction == 0 {
        return false;
    }
    if end == n {
        return true;
    }
    let ghost x = s@.skip(end as int);
    proof {
        assert(t.skip(end - from) == x);
        assert(x[0] == s@[end as int]);
    }
    if s[end] != 'e' && s[end] != 'E' {
        return false;
    }
    let mut digits: usize = end + 1;
    if s.len() - end >= 2 && (s[end + 1] == '+' || s[end + 1] == '-') {
        digits = end + 2;
    }
    proof {
        if s@.len() - end >= 2 {
            assert(x[1] == s@[end + 1]);
        }
    }
    if digits == s.len() {
        return false;
    }
    assert(x.skip(digits - end) == s@.skip(digits as int));
    count_digits(s, digits) == s.len() - digits
}

fn word_at(s: &Vec<char>, from: usize, word: &Vec<char>) -> (r: bool)
    requires
        from <= s@.len(),
        forall|i: int| 0 <= i < word@.len() ==> 0x61 <= #[trigger] word@[i] as u32 <= 0x7a,
    ensures
        r == is_word_ignoring_case(s@.skip(from as int), word@),
{
    let ghost t = s@.skip(from as int);
    let n: usize = s.len();
    if n - from != word.len() {
        return false;
    }
    for i in 0..word.len()
        invariant
            from + word@.len() == s@.len(),
            n == s@.len(),
            t == s@.skip(from as int),
            forall|k: int| 0 <= k < word@.len() ==> 0x61 <= #[trigger] word@[k] as u32 <= 0x7a,
            forall|k: int| 0 <= k < i ==> ascii_lower(#[trigger] t[k]) == word@[k],
    {
        let c: char = s[from + i];
        let w: char = word[i];
        assert(t[i as int] == c);
        if c != w && !(0x41 <= c as u32 && c as u32 <= 0x5a && c as u32 + 0x20 == w as u32) {
            return false;
        }
        proof {
            char_u32_cast(w, w as u32);
            if c != w {
                assert(ascii_lower(c) == (w as u32) as char);
            } else {
                assert(0x61 <= c as u32);
            }
        }
    }
    true
}

/// Whether the word `s` writes a floating-point number.
pub fn float_literal(s: &Vec<char>) -> (r: bool)
    ensures
        r == is_float_literal(s@),
{
    let mut from: usize = 0;
    if s.len() > 0 && (s[0] == '+' || s[0] == '-') {
        from = 1;
    }
    assert(s@.skip(from as int) == after_sign(s@));
    let inf: Vec<char> = vec!['i', 'n', 'f'];
    let infinity: Vec<char> = vec!['i', 'n', 'f', 'i', 'n', 'i', 't', 'y'];
    let nan: Vec<char> = vec!['n', 'a', 'n'];
    assert(inf@ == seq!['i', 'n', 'f']);
    assert(infinity@ == seq!['i', 'n', 'f', 'i', 'n', 'i', 't', 'y']);
    assert(nan@ == seq!['n', 'a', 'n']);
    number_at(s, from) || word_at(s, from, &inf) || word_at(s, from, &infinity) || word_at(
        s,
        from,
        &nan,
    )
}

} // verus!
