//! File-name facts shared by the storage, maintenance and export rules.

use vstd::prelude::*;
use crate::text::{has_char, str_eq};

verus! {

/// A name that every platform's path parser reads as one plain component:
/// non-empty, not `.` or `..`, and free of `/`, `\` and `:`.
pub open spec fn is_plain_name(s: Seq<char>) -> bool {
    &&& s.len() > 0
    &&& s != seq!['.']
    &&& s != seq!['.', '.']
    &&& !has_char(s, '/')
    &&& !has_char(s, '\\')
    &&& !has_char(s, ':')
}

/// The last component of a path, as `std::path::Path::file_name` reads it
/// on the platform the program runs on (followed by `OsStr::to_str`).
/// What holds on every platform: a plain name is its own file name, and a
/// file name never holds `/`, is never empty, `.` or `..`. How `\` and `:`
/// are read depends on the platform and is left unsaid.
#[verifier::external_body]
pub(crate) fn file_name_of(path: &str) -> (r: Option<String>)
    ensures
        is_plain_name(path@) ==> r is Some && r->0@ == path@,
        r is Some ==> r->0@.len() > 0 && !has_char(r->0@, '/') && r->0@ != seq!['.']
            && r->0@ != seq!['.', '.'],
{
    std::path::Path::new(path).file_name().and_then(|name| name.to_str()).map(|name| name.to_string())
}

/// Index of the last occurrence of `c` in `s`, or -1.
pub open spec fn last_index_of(s: Seq<char>, c: char) -> int
    decreases s.len(),
{
    if s.len() == 0 {
        -1
    } else if s.last() == c {
        s.len() - 1
    } else {
        last_index_of(s.drop_last(), c)
    }
}

/// The extension of a plain file name: the text after its last `.`,
/// unless that `.` is the first character or there is none.
pub open spec fn spec_extension(s: Seq<char>) -> Option<Seq<char>> {
    let p = last_index_of(s, '.');
    if p <= 0 {
        None
    } else {
        Some(s.skip(p + 1))
    }
}

/// The extension of the last path component, as
/// `std::path::Path::extension` reads it (followed by `OsStr::to_str`).
/// For plain names it is `spec_extension`; how other paths are split
/// depends on the platform and is left unsaid.
#[verifier::external_body]
pub(crate) fn extension_of(path: &str) -> (r: Option<String>)
    ensures
        is_plain_name(path@) ==> match spec_extension(path@) {
            Some(e) => r is Some && r->0@ == e,
            None => r is None,
        },
{
    std::path::Path::new(path).extension().and_then(|ext| ext.to_str()).map(|ext| ext.to_string())
}

/// `Path::new(name).file_name() == Some(name)`: the name is a single
/// path component on this platform.
pub fn is_own_file_name(name: &str) -> (r: bool)
    ensures
        is_plain_name(name@) ==> r,
        r ==> name@.len() > 0 && !has_char(name@, '/') && name@ != seq!['.'] && name@ != seq!['.', '.'],
{
    match file_name_of(name) {
        Some(file_name) => str_eq(file_name.as_str(), name),
        None => false,
    }
}

} // verus!
