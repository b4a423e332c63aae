//! Path helpers.  Paths are held as strings; the parts of `std::path` that
//! the logic needs are reached through `bridge`, and the extension rule of
//! `Path::extension` is stated and proved here.

use vstd::prelude::*;
use crate::bridge::{path_file_name, path_file_name_of, opt_string_view};
use crate::text::{chars_of, string_of_range};

verus! {

/// Index of the last `'.'` in `n[0..j]`, or `-1`.
pub open spec fn last_dot_before(n: Seq<char>, j: int) -> int
    decreases j,
{
    if j <= 0 {
        -1
    } else if n[j - 1] == '.' {
        j - 1
    } else {
        last_dot_before(n, j - 1)
    }
}

/// The extension of a file name as `Path::extension` documents it: none
/// without an embedded `.`, none for a name that begins with `.` and has no
/// other `.`, otherwise the part after the final `.`.
pub open spec fn name_extension(n: Seq<char>) -> Option<Seq<char>> {
    let k = last_dot_before(n, n.len() as int);
    if k <= 0 {
        None
    } else {
        Some(n.subrange(k + 1, n.len() as int))
    }
}

/// `Path::extension`: the extension of the file name, if any.
pub open spec fn path_extension_spec(p: Seq<char>) -> Option<Seq<char>> {
    match path_file_name_of(p) {
        Some(n) => name_extension(n),
        None => None,
    }
}

proof fn lemma_last_dot_bound(n: Seq<char>, j: int)
    requires
        j <= n.len(),
    ensures
        -1 <= last_dot_before(n, j) < j || (j <= 0 && last_dot_before(n, j) == -1),
        last_dot_before(n, j) >= 0 ==> n[last_dot_before(n, j)] == '.',
    decreases j,
{
    if j > 0 && n[j - 1] != '.' {
        lemma_last_dot_bound(n, j - 1);
    }
}

/// The extension of a file name.
pub fn name_extension_exec(n: &str) -> (r: Option<String>)
    ensures
        opt_string_view(r) == name_extension(n@),
{
    let cs = chars_of(n);
    let len = cs.len();
    let mut j = len;
    while j > 0 && cs[j - 1] != '.'
        invariant
            0 <= j <= len == cs@.len(),
            cs@ == n@,
            last_dot_before(n@, len as int) == last_dot_before(n@, j as int),
        decreases j,
    {
        j = j - 1;
    }
    proof {
        lemma_last_dot_bound(n@, len as int);
    }
    if j <= 1 {
        None
    } else {
        Some(string_of_range(&cs, j, len))
    }
}

/// `Path::extension` on a path given as a string.
pub fn path_extension(p: &str) -> (r: Option<String>)
    ensures
        opt_string_view(r) == path_extension_spec(p@),
{
    match path_file_name(p) {
        Some(n) => name_extension_exec(n.as_str()),
        None => None,
    }
}

/// The path has the extension `ext`.
pub fn has_extension(p: &str, ext: &str) -> (r: bool)
    ensures
        r == (path_extension_spec(p@) == Some(ext@)),
{
    match path_extension(p) {
        Some(e) => crate::compiler::str_equal(e.as_str(), ext),
        None => false,
    }
}

} // verus!
