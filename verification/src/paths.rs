//! Where downloaded data is kept. A path is held as its bytes, which need not be
//! text.
use vstd::prelude::*;
use vstd::string::*;
use vstd::utf8::*;

verus! {

/// The byte between the parts of a path.
pub const SLASH: u8 = 47;

/// A path below a directory: the two with one `/` between them. A directory
/// without a name adds nothing.
pub open spec fn joined(dir: Seq<u8>, path: Seq<u8>) -> Seq<u8> {
    if dir.len() == 0 {
        path
    } else if dir.last() == SLASH {
        dir + path
    } else {
        dir + seq![SLASH] + path
    }
}

/// The bytes of a text.
pub fn bytes_of(text: &str) -> (r: Vec<u8>)
    ensures
        r@ == encode_utf8(text@),
{
    let mut r: Vec<u8> = Vec::new();
    r.extend_from_slice(text.as_bytes());
    assert(r@ =~= encode_utf8(text@));
    r
}

/// Joins a relative path to a directory.
pub fn join(dir: &Vec<u8>, path: &str) -> (r: Vec<u8>)
    ensures
        r@ == joined(dir@, encode_utf8(path@)),
{
    let mut r: Vec<u8> = Vec::new();
    r.extend_from_slice(dir.as_slice());
    assert(r@ =~= dir@);
    if r.len() > 0 && r[r.len() - 1] != SLASH {
        r.push(SLASH);
    }
    let ghost before = r@;
    r.extend_from_slice(path.as_bytes());
    assert(r@ =~= before + encode_utf8(path@));
    proof {
        if dir@.len() == 0 {
            assert(before + encode_utf8(path@) =~= encode_utf8(path@));
        }
    }
    r
}

/// The cache directory: the one that is set, else the one in the home
/// directory, else one below the working directory.
pub open spec fn cache_location(custom: Option<Seq<char>>, home: Option<Seq<u8>>) -> Seq<u8> {
    match custom {
        Some(dir) => encode_utf8(dir),
        None => match home {
            Some(dir) => joined(joined(dir, encode_utf8(".cache"@)), encode_utf8("anny"@)),
            None => encode_utf8(".anny"@),
        },
    }
}

/// Calls `dirs::home_dir`, which asks the environment for the home directory
/// of the user, and hands on the bytes of its path. Nothing is claimed of the
/// answer.
#[verifier::external_body]
fn home_dir() -> (r: Option<Vec<u8>>) {
    match dirs::home_dir() {
        Some(home) => Some(home.into_os_string().into_encoded_bytes()),
        None => None,
    }
}

pub open spec fn view_of(s: Option<String>) -> Option<Seq<char>> {
    match s {
        Some(t) => Some(t@),
        None => None,
    }
}

pub open spec fn bytes_in(s: Option<Vec<u8>>) -> Option<Seq<u8>> {
    match s {
        Some(t) => Some(t@),
        None => None,
    }
}

/// The cache directory, given the directory that is set for it and the home
/// directory.
pub fn cache_dir_in(custom: Option<String>, home: Option<Vec<u8>>) -> (r: Vec<u8>)
    ensures
        r@ == cache_location(view_of(custom), bytes_in(home)),
{
    match custom {
        Some(dir) => bytes_of(dir.as_str()),
        None => match home {
            Some(dir) => {
                let cache = join(&dir, ".cache");
                join(&cache, "anny")
            },
            None => bytes_of(".anny"),
        },
    }
}

/// The cache directory: `custom` where it is given, and otherwise `anny` in
/// the `.cache` directory of the user, or `.anny` for a user without a home.
pub fn cache_dir(custom: Option<String>) -> (r: Vec<u8>)
    ensures
        exists|home: Option<Seq<u8>>| r@ == #[trigger] cache_location(view_of(custom), home),
{
    let home = home_dir();
    let ghost seen = bytes_in(home);
    let r = cache_dir_in(custom, home);
    assert(r@ == cache_location(view_of(custom), seen));
    r
}

/// The file of the SMPL-X weights, below the cache directory.
pub fn anny2smplx_path(cache_dir: &Vec<u8>) -> (r: Vec<u8>)
    ensures
        r@ == joined(cache_dir@, encode_utf8("noncommercial/anny2smplx.pth"@)),
{
    join(cache_dir, "noncommercial/anny2smplx.pth")
}

/// A directory that is set is used as it is, whatever the home directory.
pub proof fn law_custom_cache_wins(custom: Seq<char>, home: Option<Seq<u8>>)
    ensures
        cache_location(Some(custom), home) == encode_utf8(custom),
{
}

/// The bytes of `.cache` and of `anny`.
proof fn lemma_names()
    ensures
        encode_utf8(".cache"@) == seq![46u8, 99, 97, 99, 104, 101],
        encode_utf8("anny"@) == seq![97u8, 110, 110, 121],
        encode_utf8(".anny"@) == seq![46u8, 97, 110, 110, 121],
{
    reveal_strlit(".cache");
    reveal_strlit("anny");
    reveal_strlit(".anny");
    is_ascii_chars_encode_utf8(".cache"@);
    is_ascii_chars_encode_utf8("anny"@);
    is_ascii_chars_encode_utf8(".anny"@);
    assert(encode_utf8(".cache"@) =~= seq![46u8, 99, 97, 99, 104, 101]);
    assert(encode_utf8("anny"@) =~= seq![97u8, 110, 110, 121]);
    assert(encode_utf8(".anny"@) =~= seq![46u8, 97, 110, 110, 121]);
}

/// Without a directory that is set, the cache is `/.cache/anny` behind the directory of
/// the user, and `.anny` for a user without one.
pub proof fn law_cache_is_below_home(custom: Option<String>, home: Option<Vec<u8>>, r: Vec<u8>)
    requires
        call_ensures(cache_dir_in, (custom, home), r),
    ensures
        custom is Some ==> r@ == encode_utf8(custom->0@),
        custom is None && home is None ==> r@ == seq![46u8, 97, 110, 110, 121],
        custom is None && home is Some && home->0@.len() > 0 && home->0@.last() != 47 ==> r@
            == home->0@ + seq![47u8, 46, 99, 97, 99, 104, 101, 47, 97, 110, 110, 121],
{
    lemma_names();
    if custom is None && home is Some && home->0@.len() > 0 && home->0@.last() != 47 {
        let below = home->0@ + seq![47u8] + seq![46u8, 99, 97, 99, 104, 101];
        assert(below == joined(home->0@, encode_utf8(".cache"@)));
        assert(below.last() == 101);
        assert(r@ =~= below + seq![47u8] + seq![97u8, 110, 110, 121]);
        assert(r@ =~= home->0@ + seq![47u8, 46, 99, 97, 99, 104, 101, 47, 97, 110, 110, 121]);
    }
}

} // verus!
