//! Where the configuration and the indices are kept: a `code-indexer`
//! directory under the user's configuration directory.

use vstd::prelude::*;
use vstd::string::StringExecFns;
use crate::paths::{file_name_of, joined_path_of, opt_view, path_join, plain_component};

verus! {

/// The user's configuration directory, from `dirs::config_dir`. It depends
/// on the operating system and the environment (`$XDG_CONFIG_HOME` or
/// `$HOME/.config` on Linux), so nothing is stated of it; a path that is not
/// UTF-8 is converted lossily.
#[verifier::external_body]
fn user_config_dir() -> (r: Option<String>) {
    dirs::config_dir().map(|p| p.to_string_lossy().into_owned())
}

/// The application's directory under the user configuration directory
/// `base` (or under `.` when there is none).
pub open spec fn config_dir_from(base: Option<Seq<char>>) -> Seq<char> {
    joined_path_of(
        match base {
            Some(b) => b,
            None => "."@,
        },
        "code-indexer"@,
    )
}

pub open spec fn config_path_from(base: Option<Seq<char>>) -> Seq<char> {
    joined_path_of(config_dir_from(base), "config.json"@)
}

pub open spec fn index_dir_from(base: Option<Seq<char>>) -> Seq<char> {
    joined_path_of(config_dir_from(base), "indices"@)
}

pub open spec fn index_path_from(base: Option<Seq<char>>, project_name: Seq<char>) -> Seq<char> {
    joined_path_of(index_dir_from(base), project_name)
}

/// The application's directory under the given user configuration directory.
pub fn config_dir_under(base: Option<String>) -> (r: String)
    ensures
        r@ == config_dir_from(opt_view(base)),
{
    let root = match base {
        Some(b) => b,
        None => String::from_str("."),
    };
    path_join(root.as_str(), "code-indexer")
}

/// The application's configuration directory.
pub fn get_config_dir() -> (r: String)
    ensures
        exists|base: Option<Seq<char>>| r@ == #[trigger] config_dir_from(base),
{
    let base = user_config_dir();
    let r = config_dir_under(base);
    assert(r@ == config_dir_from(opt_view(base)));
    r
}

/// The configuration file.
pub fn get_config_path() -> (r: String)
    ensures
        exists|base: Option<Seq<char>>| r@ == #[trigger] config_path_from(base),
{
    let dir = get_config_dir();
    let ghost base = choose|base: Option<Seq<char>>| dir@ == #[trigger] config_dir_from(base);
    let r = path_join(dir.as_str(), "config.json");
    assert(r@ == config_path_from(base));
    r
}

/// The directory that holds one directory per index.
pub fn get_index_dir() -> (r: String)
    ensures
        exists|base: Option<Seq<char>>| r@ == #[trigger] index_dir_from(base),
{
    let dir = get_config_dir();
    let ghost base = choose|base: Option<Seq<char>>| dir@ == #[trigger] config_dir_from(base);
    let r = path_join(dir.as_str(), "indices");
    assert(r@ == index_dir_from(base));
    r
}

/// The directory of the index of the project `project_name`: the project's
/// name joined onto the index directory. A name that is one ordinary path
/// component is the file name of the result, so different such names give
/// different directories.
pub fn get_index_path(project_name: &str) -> (r: String)
    ensures
        exists|base: Option<Seq<char>>| r@ == #[trigger] index_path_from(base, project_name@),
        plain_component(project_name@) ==> file_name_of(r@) == Some(project_name@),
{
    let dir = get_index_dir();
    let ghost base = choose|base: Option<Seq<char>>| dir@ == #[trigger] index_dir_from(base);
    let r = path_join(dir.as_str(), project_name);
    assert(r@ == index_path_from(base, project_name@));
    r
}

} // verus!
