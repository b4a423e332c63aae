//! Calls into the `regex` and `flate2` crates, and into std functions that
//! vstd gives no specification.  Each wrapper states what its contract
//! claims of the function it calls; nothing here is proved.

use vstd::prelude::*;
use std::io::Read;

verus! {

/// The capture groups that `regex::Regex::captures` reports for `pattern` on
/// `haystack`: `None` when the pattern does not compile or does not match;
/// otherwise one entry per group, group 0 first, `None` for a group that did
/// not take part in the match.
pub uninterp spec fn regex_captures_of(pattern: Seq<char>, haystack: Seq<char>) -> Option<
    Seq<Option<Seq<char>>>,
>;

pub open spec fn group_view(g: Option<String>) -> Option<Seq<char>> {
    match g {
        Some(s) => Some(s@),
        None => None,
    }
}

pub open spec fn captures_view(c: Option<Vec<Option<String>>>) -> Option<Seq<Option<Seq<char>>>> {
    match c {
        Some(v) => Some(v@.map_values(|g: Option<String>| group_view(g))),
        None => None,
    }
}

/// `regex::Regex::new(pattern)` followed by `Regex::captures(haystack)`
/// (leftmost-first match), each group converted to an owned string.  The
/// contract only names the result: it is `regex_captures_of` of the two
/// arguments, so the same pattern and text always give the same groups.
#[verifier::external_body]
pub(crate) fn regex_captures(pattern: &str, haystack: &str) -> (r: Option<Vec<Option<String>>>)
    ensures
        captures_view(r) == regex_captures_of(pattern@, haystack@),
{
    let re = regex::Regex::new(pattern).ok()?;
    re.captures(haystack).map(|c| c.iter().map(|m| m.map(|m| m.as_str().to_owned())).collect())
}

pub open spec fn opt_string_view(o: Option<String>) -> Option<Seq<char>> {
    match o {
        Some(s) => Some(s@),
        None => None,
    }
}

/// The final component of a path as `std::path::Path::file_name` reports it:
/// `None` when the path ends in `..` or has no components.
pub uninterp spec fn path_file_name_of(p: Seq<char>) -> Option<Seq<char>>;

/// The text after the last `/` of a path (all of it when there is none).
pub open spec fn after_last_slash(p: Seq<char>) -> Seq<char>
    decreases p.len(),
{
    if p.len() == 0 {
        p
    } else if p.last() == '/' {
        Seq::<char>::empty()
    } else {
        after_last_slash(p.drop_last()).push(p.last())
    }
}

/// `std::path::Path::file_name` on a path given as a string, converted back
/// to a string.  The contract names the result and states the documented
/// case of a path whose last component is a name: when the text after the
/// last `/` is neither empty, `.` nor `..`, that text is the file name.
/// Paths ending in `/`, `.` or `..` are left to the name.
#[verifier::external_body]
pub(crate) fn path_file_name(p: &str) -> (r: Option<String>)
    ensures
        opt_string_view(r) == path_file_name_of(p@),
        ({
            let n = after_last_slash(p@);
            n.len() > 0 && n != seq!['.'] && n != seq!['.', '.']
        }) ==> opt_string_view(r) == Some(after_last_slash(p@)),
{
    std::path::Path::new(p).file_name().map(|n| n.to_string_lossy().into_owned())
}

/// The path without its final component, as `std::path::Path::parent`
/// reports it: `None` for the empty path and for a path that ends in a root.
pub uninterp spec fn path_parent_of(p: Seq<char>) -> Option<Seq<char>>;

/// `std::path::Path::parent` on a path given as a string.  The contract
/// names the result and states what the documentation says of it: the path
/// without its final component, so strictly shorter than the path.
#[verifier::external_body]
pub(crate) fn path_parent(p: &str) -> (r: Option<String>)
    ensures
        opt_string_view(r) == path_parent_of(p@),
        r matches Some(q) ==> q@.len() < p@.len(),
{
    std::path::Path::new(p).parent().map(|q| q.to_string_lossy().into_owned())
}

/// ASCII lower-casing of one character.
pub open spec fn ascii_lower(c: char) -> char {
    if 'A' <= c <= 'Z' {
        ((c as u32) + 32) as char
    } else {
        c
    }
}

/// What `str::to_lowercase` returns for `s` (Unicode lower-case mapping).
pub uninterp spec fn to_lowercase_of(s: Seq<char>) -> Seq<char>;

/// `str::to_lowercase`.  The contract names the result and states what the
/// documentation gives for ASCII text: each letter `A`-`Z` becomes `a`-`z`
/// and every other character stays.  For other text it says nothing more.
#[verifier::external_body]
pub(crate) fn to_lowercase(s: &str) -> (r: String)
    ensures
        r@ == to_lowercase_of(s@),
        (forall|i: int| 0 <= i < s@.len() ==> (s@[i] as u32) < 128) ==> r@ == s@.map_values(
            |c: char| ascii_lower(c),
        ),
{
    s.to_lowercase()
}

/// The text that `flate2::read::GzDecoder` yields for `bytes` when read to
/// the end as UTF-8: `None` when the data is not valid gzip or the result is
/// not valid UTF-8.
pub uninterp spec fn gunzip_text_of(bytes: Seq<u8>) -> Option<Seq<char>>;

/// Decompresses gzip data with `flate2::read::GzDecoder` and reads the
/// result with `Read::read_to_string`.  The contract only names the result.
#[verifier::external_body]
pub(crate) fn gunzip_text(bytes: &[u8]) -> (r: Option<String>)
    ensures
        opt_string_view(r) == gunzip_text_of(bytes@),
{
    let mut dec = flate2::read::GzDecoder::new(bytes);
    let mut s = String::new();
    dec.read_to_string(&mut s).ok()?;
    Some(s)
}

/// `Clone` for `std::time::Duration`, a `Copy` type: the clone equals the
/// value cloned.  The derived `Clone` of `CompileResult` calls it.
pub assume_specification[ <std::time::Duration as Clone>::clone ](d: &std::time::Duration) -> (r:
    std::time::Duration)
    ensures
        r == *d,
;

} // verus!
