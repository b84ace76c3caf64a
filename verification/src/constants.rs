//! Fixed settings: which directories are skipped, which file extensions are
//! indexed, and the sizes used when chunking and batching.

use vstd::prelude::*;
use crate::text::text_eq;

verus! {

/// Largest number of lines in one chunk.
pub const CHUNK_MAX_LINES: usize = 100;

/// Number of lines that consecutive chunks share.
pub const CHUNK_OVERLAP: usize = 10;

/// Number of chunks sent for embedding per batch.
pub const BATCH_SIZE: usize = 10;

/// Directory names that are never descended into nor listed.
pub open spec fn is_ignored_dir(name: Seq<char>) -> bool {
    ||| name == ".git"@
    ||| name == "node_modules"@
    ||| name == "dist"@
    ||| name == "build"@
    ||| name == ".next"@
    ||| name == "target"@
    ||| name == "__pycache__"@
    ||| name == ".venv"@
    ||| name == "venv"@
    ||| name == "vendor"@
    ||| name == ".idea"@
    ||| name == ".vscode"@
    ||| name == "bin"@
    ||| name == "obj"@
    ||| name == ".cache"@
    ||| name == ".temp"@
    ||| name == "tmp"@
    ||| name == "temp"@
}

/// Extensions of source files (lower case, without the dot).
pub open spec fn is_code_extension(ext: Seq<char>) -> bool {
    ||| ext == "ts"@
    ||| ext == "tsx"@
    ||| ext == "js"@
    ||| ext == "jsx"@
    ||| ext == "mjs"@
    ||| ext == "cts"@
    ||| ext == "py"@
    ||| ext == "rs"@
    ||| ext == "go"@
    ||| ext == "java"@
    ||| ext == "c"@
    ||| ext == "cpp"@
    ||| ext == "h"@
    ||| ext == "hpp"@
    ||| ext == "cs"@
    ||| ext == "rb"@
    ||| ext == "php"@
    ||| ext == "swift"@
    ||| ext == "kt"@
    ||| ext == "scala"@
    ||| ext == "vue"@
    ||| ext == "svelte"@
}

/// Extensions of configuration files, documents and scripts that are indexed too.
pub open spec fn is_other_extension(ext: Seq<char>) -> bool {
    ||| ext == "md"@
    ||| ext == "json"@
    ||| ext == "yaml"@
    ||| ext == "yml"@
    ||| ext == "toml"@
    ||| ext == "xml"@
    ||| ext == "html"@
    ||| ext == "css"@
    ||| ext == "scss"@
    ||| ext == "sql"@
    ||| ext == "sh"@
    ||| ext == "bash"@
    ||| ext == "zsh"@
    ||| ext == "ps1"@
    ||| ext == "bat"@
    ||| ext == "dockerfile"@
}

pub fn ignored_dir(name: &str) -> (r: bool)
    ensures
        r == is_ignored_dir(name@),
{
    text_eq(name, ".git") || text_eq(name, "node_modules") || text_eq(name, "dist") || text_eq(
        name,
        "build",
    ) || text_eq(name, ".next") || text_eq(name, "target") || text_eq(name, "__pycache__")
        || text_eq(name, ".venv") || text_eq(name, "venv") || text_eq(name, "vendor") || text_eq(
        name,
        ".idea",
    ) || text_eq(name, ".vscode") || text_eq(name, "bin") || text_eq(name, "obj") || text_eq(
        name,
        ".cache",
    ) || text_eq(name, ".temp") || text_eq(name, "tmp") || text_eq(name, "temp")
}

pub fn code_extension(ext: &str) -> (r: bool)
    ensures
        r == is_code_extension(ext@),
{
    text_eq(ext, "ts") || text_eq(ext, "tsx") || text_eq(ext, "js") || text_eq(ext, "jsx")
        || text_eq(ext, "mjs") || text_eq(ext, "cts") || text_eq(ext, "py") || text_eq(ext, "rs")
        || text_eq(ext, "go") || text_eq(ext, "java") || text_eq(ext, "c") || text_eq(ext, "cpp")
        || text_eq(ext, "h") || text_eq(ext, "hpp") || text_eq(ext, "cs") || text_eq(ext, "rb")
        || text_eq(ext, "php") || text_eq(ext, "swift") || text_eq(ext, "kt") || text_eq(
        ext,
        "scala",
    ) || text_eq(ext, "vue") || text_eq(ext, "svelte")
}

pub fn other_extension(ext: &str) -> (r: bool)
    ensures
        r == is_other_extension(ext@),
{
    text_eq(ext, "md") || text_eq(ext, "json") || text_eq(ext, "yaml") || text_eq(ext, "yml")
        || text_eq(ext, "toml") || text_eq(ext, "xml") || text_eq(ext, "html") || text_eq(
        ext,
        "css",
    ) || text_eq(ext, "scss") || text_eq(ext, "sql") || text_eq(ext, "sh") || text_eq(
        ext,
        "bash",
    ) || text_eq(ext, "zsh") || text_eq(ext, "ps1") || text_eq(ext, "bat") || text_eq(
        ext,
        "dockerfile",
    )
}

} // verus!
