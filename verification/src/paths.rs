//! The parts of `std::path` that the indexer relies on. Path parsing is
//! std's; each call is made once here, and its result is named.

use vstd::prelude::*;

verus! {

/// Some(view of the string), or None.
pub open spec fn opt_view(o: Option<String>) -> Option<Seq<char>> {
    match o {
        Some(s) => Some(s@),
        None => None,
    }
}

/// The last component of the path `p`, as `Path::file_name` gives it.
pub uninterp spec fn file_name_of(p: Seq<char>) -> Option<Seq<char>>;

/// The extension of the path `p`, as `Path::extension` gives it.
pub uninterp spec fn extension_of(p: Seq<char>) -> Option<Seq<char>>;

/// The path `p` relative to `base`, as `Path::strip_prefix` gives it.
pub uninterp spec fn strip_prefix_of(p: Seq<char>, base: Seq<char>) -> Option<Seq<char>>;

/// `part` joined onto the path `base`, as `Path::join` gives it with the
/// separator and the rules of the platform the crate is built for.
pub uninterp spec fn joined_path_of(base: Seq<char>, part: Seq<char>) -> Seq<char>;

/// `s` in lower case, as `str::to_lowercase` gives it.
pub uninterp spec fn lowercase_of(s: Seq<char>) -> Seq<char>;

/// `s` is one ordinary path component on every platform: not empty, not
/// `.` or `..`, and without `'/'`, `'\\'` or `':'`.
pub open spec fn plain_component(s: Seq<char>) -> bool {
    &&& s.len() > 0
    &&& s != "."@
    &&& s != ".."@
    &&& forall|i: int| 0 <= i < s.len() ==> s[i] != '/' && s[i] != '\\' && s[i] != ':'
}

/// `s` with each ASCII capital letter replaced by its small letter.
pub open spec fn ascii_lowercase(s: Seq<char>) -> Seq<char> {
    s.map_values(|c: char| if 'A' <= c <= 'Z' {
        ((c as u32) + 32) as char
    } else {
        c
    })
}

/// The index of the last `'.'` in `name`, if any.
pub open spec fn last_dot(name: Seq<char>) -> Option<int>
    decreases name.len(),
{
    if name.len() == 0 {
        None
    } else if name.last() == '.' {
        Some(name.len() - 1)
    } else {
        last_dot(name.drop_last())
    }
}

/// The extension of a file name: what follows its last `'.'`, unless there is
/// no `'.'` or the only one starts the name.
pub open spec fn extension_of_name(name: Seq<char>) -> Option<Seq<char>> {
    match last_dot(name) {
        Some(i) => if i == 0 {
            None
        } else {
            Some(name.skip(i + 1))
        },
        None => None,
    }
}

/// `Path::file_name`: the final component of `path`, if there is one (None
/// when the path ends in `..` or is a root). The name is the component's text,
/// converted lossily to UTF-8.
#[verifier::external_body]
pub(crate) fn path_file_name(path: &str) -> (r: Option<String>)
    ensures
        opt_view(r) == file_name_of(path@),
{
    std::path::Path::new(path).file_name().map(|n| n.to_string_lossy().into_owned())
}

/// `Path::extension`: per its documentation, None when there is no file
/// name, when the file name has no `'.'`, or when its only `'.'` starts it;
/// otherwise what follows the file name's last `'.'`.
#[verifier::external_body]
pub(crate) fn path_extension(path: &str) -> (r: Option<String>)
    ensures
        opt_view(r) == extension_of(path@),
        opt_view(r) == match file_name_of(path@) {
            Some(name) => extension_of_name(name),
            None => None,
        },
{
    std::path::Path::new(path).extension().map(|e| e.to_string_lossy().into_owned())
}

/// `Path::strip_prefix`: the path that, joined onto `base`, gives `path`;
/// None when `base` is not a prefix of `path` component by component.
#[verifier::external_body]
pub(crate) fn path_strip_prefix(path: &str, base: &str) -> (r: Option<String>)
    ensures
        opt_view(r) == strip_prefix_of(path@, base@),
{
    std::path::Path::new(path).strip_prefix(base).ok().map(|p| p.to_string_lossy().into_owned())
}

/// `Path::join`: `part` adjoined to `base` with the platform's separator
/// (an absolute `part` replaces `base`). Which separator is used, and what
/// counts as absolute, depends on the platform the crate is built for, so
/// the result is only named, not spelled out. What holds on every platform
/// is stated: when `part` is one ordinary component, it is pushed as the last
/// component, so it is the file name of the result.
#[verifier::external_body]
pub(crate) fn path_join(base: &str, part: &str) -> (r: String)
    ensures
        r@ == joined_path_of(base@, part@),
        plain_component(part@) ==> file_name_of(r@) == Some(part@),
{
    std::path::Path::new(base).join(part).to_string_lossy().into_owned()
}

/// `str::to_lowercase`: the lower-case equivalent of `s` under Unicode's
/// `Lowercase` mapping. Of text that is all ASCII it is stated that each
/// capital letter becomes its small letter and nothing else changes; of other
/// text nothing more is stated.
#[verifier::external_body]
pub(crate) fn to_lowercase(s: &str) -> (r: String)
    ensures
        r@ == lowercase_of(s@),
        (forall|i: int| 0 <= i < s@.len() ==> (s@[i] as u32) < 128) ==> r@ == ascii_lowercase(s@),
{
    s.to_lowercase()
}

} // verus!
