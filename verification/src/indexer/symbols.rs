//! Recognising the lines of a chunk that define a symbol (a function, type,
//! class, import and the like), by the keywords each language starts them with.

use vstd::prelude::*;
use crate::constants::{code_extension, is_code_extension};
use crate::text::{
    chars_of, contains_chars, has_prefix, has_substring, is_white_space, join, lemma_lines_no_newline,
    lemma_lines_of_join, lemma_trim_idempotent, lemma_trim_no_newline, lemma_trimmed_last, lines,
    lines_of, no_newline, starts_with_chars, string_of, text_eq, trim, trim_chars, utf8_len,
    utf8_len_exceeds, views,
};

verus! {

/// Longest trimmed line, in UTF-8 bytes, that can count as a symbol line.
pub const MAX_SYMBOL_LINE_BYTES: usize = 100;

pub open spec fn rust_symbol(t: Seq<char>) -> bool {
    ||| has_prefix(t, "fn "@)
    ||| has_prefix(t, "struct "@)
    ||| has_prefix(t, "impl "@)
    ||| has_prefix(t, "enum "@)
    ||| has_prefix(t, "trait "@)
    ||| has_prefix(t, "pub "@)
}

pub open spec fn python_symbol(t: Seq<char>) -> bool {
    ||| has_prefix(t, "def "@)
    ||| has_prefix(t, "async def "@)
    ||| has_prefix(t, "class "@)
}

pub open spec fn go_symbol(t: Seq<char>) -> bool {
    ||| has_prefix(t, "func "@)
    ||| has_prefix(t, "type "@)
    ||| has_prefix(t, "struct "@)
    ||| has_prefix(t, "interface "@)
}

pub open spec fn java_like_symbol(t: Seq<char>) -> bool {
    ||| has_substring(t, " class "@)
    ||| has_prefix(t, "public "@)
    ||| has_prefix(t, "private "@)
}

pub open spec fn script_symbol(t: Seq<char>) -> bool {
    ||| has_substring(t, "function "@)
    ||| has_substring(t, "const "@)
    ||| has_substring(t, "class "@)
    ||| has_prefix(t, "import "@)
    ||| has_prefix(t, "export "@)
}

pub open spec fn c_family_symbol(t: Seq<char>) -> bool {
    ||| has_prefix(t, "void "@)
    ||| has_prefix(t, "int "@)
    ||| has_prefix(t, "class "@)
    ||| has_prefix(t, "struct "@)
}

/// The keywords looked for in files whose extension is not a known source extension.
pub open spec fn generic_symbol(t: Seq<char>) -> bool {
    ||| has_prefix(t, "function "@)
    ||| has_prefix(t, "fn "@)
    ||| has_prefix(t, "def "@)
    ||| has_prefix(t, "class "@)
    ||| has_prefix(t, "struct "@)
    ||| has_prefix(t, "import "@)
    ||| has_prefix(t, "export "@)
    ||| has_prefix(t, "pub "@)
    ||| has_prefix(t, "func "@)
}

/// The trimmed line is short enough and not empty.
pub open spec fn symbol_sized(t: Seq<char>) -> bool {
    t.len() > 0 && utf8_len(t) <= MAX_SYMBOL_LINE_BYTES
}

/// Whether `line` defines a symbol in a file with extension `ext`.
pub open spec fn symbol_line(line: Seq<char>, ext: Seq<char>) -> bool {
    let t = trim(line);
    if !symbol_sized(t) {
        false
    } else if ext == "rs"@ {
        rust_symbol(t)
    } else if ext == "py"@ {
        python_symbol(t)
    } else if ext == "go"@ {
        go_symbol(t)
    } else if ext == "java"@ || ext == "kt"@ || ext == "cs"@ {
        java_like_symbol(t)
    } else if ext == "ts"@ || ext == "tsx"@ || ext == "js"@ || ext == "jsx"@ || ext == "vue"@
        || ext == "svelte"@ {
        script_symbol(t)
    } else if ext == "c"@ || ext == "cpp"@ || ext == "h"@ || ext == "hpp"@ {
        c_family_symbol(t)
    } else {
        false
    }
}

/// Whether the trimmed line `t` is kept as a symbol of a file with extension `ext`.
pub open spec fn kept_symbol(t: Seq<char>, ext: Seq<char>) -> bool {
    symbol_sized(t) && if is_code_extension(ext) {
        symbol_line(t, ext)
    } else {
        generic_symbol(t)
    }
}

/// The symbols among `ls`: each line trimmed, in order, those that are kept.
pub open spec fn symbols_of_lines(ls: Seq<Seq<char>>, ext: Seq<char>) -> Seq<Seq<char>>
    decreases ls.len(),
{
    if ls.len() == 0 {
        Seq::empty()
    } else {
        let rest = symbols_of_lines(ls.drop_last(), ext);
        let t = trim(ls.last());
        if kept_symbol(t, ext) {
            rest.push(t)
        } else {
            rest
        }
    }
}

/// The symbols of `content` for a file with extension `ext`.
pub open spec fn symbols(content: Seq<char>, ext: Seq<char>) -> Seq<Seq<char>> {
    symbols_of_lines(lines(content), ext)
}

/// The lines of `ls` that `is_symbol_line` accepts, trimmed, in order.
pub open spec fn symbol_lines_of(ls: Seq<Seq<char>>, ext: Seq<char>) -> Seq<Seq<char>>
    decreases ls.len(),
{
    if ls.len() == 0 {
        Seq::empty()
    } else {
        let rest = symbol_lines_of(ls.drop_last(), ext);
        if symbol_line(ls.last(), ext) {
            rest.push(trim(ls.last()))
        } else {
            rest
        }
    }
}

proof fn lemma_symbols_of_lines_agree(ls: Seq<Seq<char>>, ext: Seq<char>)
    requires
        is_code_extension(ext),
    ensures
        symbols_of_lines(ls, ext) == symbol_lines_of(ls, ext),
    decreases ls.len(),
{
    if ls.len() > 0 {
        lemma_symbols_of_lines_agree(ls.drop_last(), ext);
        lemma_trim_idempotent(ls.last());
    }
}

proof fn lemma_symbols_of_lines_trimmed(ls: Seq<Seq<char>>, ext: Seq<char>)
    ensures
        forall|k: int|
            0 <= k < symbols_of_lines(ls, ext).len() ==> {
                let s = #[trigger] symbols_of_lines(ls, ext)[k];
                &&& trim(s) == s
                &&& symbol_sized(s)
            },
    decreases ls.len(),
{
    if ls.len() > 0 {
        lemma_symbols_of_lines_trimmed(ls.drop_last(), ext);
        lemma_trim_idempotent(ls.last());
        let rest = symbols_of_lines(ls.drop_last(), ext);
        let all = symbols_of_lines(ls, ext);
        assert forall|k: int| 0 <= k < all.len() implies {
            let s = #[trigger] all[k];
            &&& trim(s) == s
            &&& symbol_sized(s)
        } by {
            if k < rest.len() {
                assert(all[k] == rest[k]);
            }
        }
    }
}

/// What `extract_symbols` gives relates to `is_symbol_line`: every symbol is
/// a trimmed line, not empty and at most 100 bytes long; and for a source
/// extension the symbols are exactly the lines that `is_symbol_line`
/// accepts, trimmed, in order.
pub proof fn lemma_symbols_are_symbol_lines(content: Seq<char>, ext: Seq<char>)
    ensures
        forall|k: int|
            0 <= k < symbols(content, ext).len() ==> {
                let s = #[trigger] symbols(content, ext)[k];
                &&& trim(s) == s
                &&& symbol_sized(s)
            },
        is_code_extension(ext) ==> symbols(content, ext) == symbol_lines_of(lines(content), ext),
{
    lemma_symbols_of_lines_trimmed(lines(content), ext);
    if is_code_extension(ext) {
        lemma_symbols_of_lines_agree(lines(content), ext);
    }
}

proof fn lemma_symbols_of_lines_clean(ls: Seq<Seq<char>>, ext: Seq<char>)
    requires
        forall|k: int| 0 <= k < ls.len() ==> no_newline(#[trigger] ls[k]),
    ensures
        forall|k: int|
            0 <= k < symbols_of_lines(ls, ext).len() ==> {
                let s = #[trigger] symbols_of_lines(ls, ext)[k];
                &&& trim(s) == s
                &&& kept_symbol(s, ext)
                &&& no_newline(s)
            },
    decreases ls.len(),
{
    if ls.len() > 0 {
        let init = ls.drop_last();
        assert forall|k: int| 0 <= k < init.len() implies no_newline(#[trigger] init[k]) by {
            assert(init[k] == ls[k]);
        }
        lemma_symbols_of_lines_clean(init, ext);
        lemma_trim_idempotent(ls.last());
        assert(no_newline(ls[ls.len() - 1]));
        lemma_trim_no_newline(ls.last());
        let rest = symbols_of_lines(init, ext);
        let all = symbols_of_lines(ls, ext);
        assert forall|k: int| 0 <= k < all.len() implies {
            let s = #[trigger] all[k];
            &&& trim(s) == s
            &&& kept_symbol(s, ext)
            &&& no_newline(s)
        } by {
            if k < rest.len() {
                assert(all[k] == rest[k]);
            }
        }
    }
}

proof fn lemma_symbols_of_lines_fixed(ls: Seq<Seq<char>>, ext: Seq<char>)
    requires
        forall|k: int|
            0 <= k < ls.len() ==> {
                let s = #[trigger] ls[k];
                &&& trim(s) == s
                &&& kept_symbol(s, ext)
            },
    ensures
        symbols_of_lines(ls, ext) == ls,
    decreases ls.len(),
{
    if ls.len() > 0 {
        let init = ls.drop_last();
        assert forall|k: int| 0 <= k < init.len() implies {
            let s = #[trigger] init[k];
            &&& trim(s) == s
            &&& kept_symbol(s, ext)
        } by {
            assert(init[k] == ls[k]);
        }
        lemma_symbols_of_lines_fixed(init, ext);
        let l = ls[ls.len() - 1];
        assert(init.push(ls.last()) =~= ls);
    }
}

/// Extracting symbols is idempotent: the symbols of a text, joined by
/// `'\n'`, have exactly themselves as their symbols.
pub proof fn lemma_extract_symbols_idempotent(content: Seq<char>, ext: Seq<char>)
    ensures
        symbols(join(symbols(content, ext), seq!['\n']), ext) == symbols(content, ext),
{
    let ls = lines(content);
    let syms = symbols(content, ext);
    lemma_lines_no_newline(content);
    lemma_symbols_of_lines_clean(ls, ext);
    assert forall|k: int| 0 <= k < syms.len() implies {
        let l = #[trigger] syms[k];
        &&& no_newline(l)
        &&& l.len() > 0
        &&& l.last() != '\r'
    } by {
        let l = syms[k];
        lemma_trimmed_last(l);
        assert(is_white_space('\r'));
    }
    lemma_lines_of_join(syms);
    lemma_symbols_of_lines_fixed(syms, ext);
}

/// The characters of the extensions that select a language.
proof fn lemma_language_extensions()
    ensures
        "rs"@ == seq!['r', 's'],
        "py"@ == seq!['p', 'y'],
        "go"@ == seq!['g', 'o'],
        "java"@ == seq!['j', 'a', 'v', 'a'],
        "kt"@ == seq!['k', 't'],
        "cs"@ == seq!['c', 's'],
        "ts"@ == seq!['t', 's'],
        "tsx"@ == seq!['t', 's', 'x'],
        "js"@ == seq!['j', 's'],
        "jsx"@ == seq!['j', 's', 'x'],
        "vue"@ == seq!['v', 'u', 'e'],
        "svelte"@ == seq!['s', 'v', 'e', 'l', 't', 'e'],
        "c"@ == seq!['c'],
        "cpp"@ == seq!['c', 'p', 'p'],
        "h"@ == seq!['h'],
        "hpp"@ == seq!['h', 'p', 'p'],
{
    reveal_strlit("rs");
    reveal_strlit("py");
    reveal_strlit("go");
    reveal_strlit("java");
    reveal_strlit("kt");
    reveal_strlit("cs");
    reveal_strlit("ts");
    reveal_strlit("tsx");
    reveal_strlit("js");
    reveal_strlit("jsx");
    reveal_strlit("vue");
    reveal_strlit("svelte");
    reveal_strlit("c");
    reveal_strlit("cpp");
    reveal_strlit("h");
    reveal_strlit("hpp");
    assert("rs"@ =~= seq!['r', 's']);
    assert("py"@ =~= seq!['p', 'y']);
    assert("go"@ =~= seq!['g', 'o']);
    assert("java"@ =~= seq!['j', 'a', 'v', 'a']);
    assert("kt"@ =~= seq!['k', 't']);
    assert("cs"@ =~= seq!['c', 's']);
    assert("ts"@ =~= seq!['t', 's']);
    assert("tsx"@ =~= seq!['t', 's', 'x']);
    assert("js"@ =~= seq!['j', 's']);
    assert("jsx"@ =~= seq!['j', 's', 'x']);
    assert("vue"@ =~= seq!['v', 'u', 'e']);
    assert("svelte"@ =~= seq!['s', 'v', 'e', 'l', 't', 'e']);
    assert("c"@ =~= seq!['c']);
    assert("cpp"@ =~= seq!['c', 'p', 'p']);
    assert("h"@ =~= seq!['h']);
    assert("hpp"@ =~= seq!['h', 'p', 'p']);
}

/// In a `.rs` file, a symbol line is one that, trimmed, is not empty, is at
/// most 100 bytes, and starts with `fn `, `struct `, `impl `, `enum `,
/// `trait ` or `pub `.
pub proof fn lemma_rust_symbol_lines(line: Seq<char>)
    ensures
        symbol_line(line, "rs"@) == ({
            let t = trim(line);
            t.len() > 0 && utf8_len(t) <= 100 && (has_prefix(t, "fn "@) || has_prefix(t, "struct "@)
                || has_prefix(t, "impl "@) || has_prefix(t, "enum "@) || has_prefix(t, "trait "@)
                || has_prefix(t, "pub "@))
        }),
{
}

/// In a `.py` file: trimmed, not empty, at most 100 bytes, and starting with
/// `def `, `async def ` or `class `.
pub proof fn lemma_python_symbol_lines(line: Seq<char>)
    ensures
        symbol_line(line, "py"@) == ({
            let t = trim(line);
            t.len() > 0 && utf8_len(t) <= 100 && (has_prefix(t, "def "@) || has_prefix(
                t,
                "async def "@,
            ) || has_prefix(t, "class "@))
        }),
{
    lemma_language_extensions();
}

/// In a `.go` file: trimmed, not empty, at most 100 bytes, and starting with
/// `func `, `type `, `struct ` or `interface `.
pub proof fn lemma_go_symbol_lines(line: Seq<char>)
    ensures
        symbol_line(line, "go"@) == ({
            let t = trim(line);
            t.len() > 0 && utf8_len(t) <= 100 && (has_prefix(t, "func "@) || has_prefix(t, "type "@)
                || has_prefix(t, "struct "@) || has_prefix(t, "interface "@))
        }),
{
    lemma_language_extensions();
}

/// In a `.java`, `.kt` or `.cs` file: trimmed, not empty, at most 100 bytes,
/// and containing ` class ` or starting with `public ` or `private `.
pub proof fn lemma_java_like_symbol_lines(line: Seq<char>, ext: Seq<char>)
    requires
        ext == "java"@ || ext == "kt"@ || ext == "cs"@,
    ensures
        symbol_line(line, ext) == ({
            let t = trim(line);
            t.len() > 0 && utf8_len(t) <= 100 && (has_substring(t, " class "@) || has_prefix(
                t,
                "public "@,
            ) || has_prefix(t, "private "@))
        }),
{
    lemma_language_extensions();
}

/// In a `.ts`, `.tsx`, `.js`, `.jsx`, `.vue` or `.svelte` file: trimmed, not
/// empty, at most 100 bytes, and containing `function `, `const ` or `class `,
/// or starting with `import ` or `export `.
pub proof fn lemma_script_symbol_lines(line: Seq<char>, ext: Seq<char>)
    requires
        ext == "ts"@ || ext == "tsx"@ || ext == "js"@ || ext == "jsx"@ || ext == "vue"@ || ext
            == "svelte"@,
    ensures
        symbol_line(line, ext) == ({
            let t = trim(line);
            t.len() > 0 && utf8_len(t) <= 100 && (has_substring(t, "function "@) || has_substring(
                t,
                "const "@,
            ) || has_substring(t, "class "@) || has_prefix(t, "import "@) || has_prefix(
                t,
                "export "@,
            ))
        }),
{
    lemma_language_extensions();
}

/// In a `.c`, `.cpp`, `.h` or `.hpp` file: trimmed, not empty, at most 100
/// bytes, and starting with `void `, `int `, `class ` or `struct `.
pub proof fn lemma_c_family_symbol_lines(line: Seq<char>, ext: Seq<char>)
    requires
        ext == "c"@ || ext == "cpp"@ || ext == "h"@ || ext == "hpp"@,
    ensures
        symbol_line(line, ext) == ({
            let t = trim(line);
            t.len() > 0 && utf8_len(t) <= 100 && (has_prefix(t, "void "@) || has_prefix(t, "int "@)
                || has_prefix(t, "class "@) || has_prefix(t, "struct "@))
        }),
{
    lemma_language_extensions();
    assert("cs"@.len() == 2 && "c"@.len() == 1 && "cpp"@.len() == 3 && "h"@.len() == 1);
    assert("hpp"@.len() == 3);
}

/// For any other extension no line is a symbol line.
pub proof fn lemma_other_extensions_have_no_symbol_lines(line: Seq<char>, ext: Seq<char>)
    requires
        !(ext == "rs"@ || ext == "py"@ || ext == "go"@ || ext == "java"@ || ext == "kt"@ || ext
            == "cs"@ || ext == "ts"@ || ext == "tsx"@ || ext == "js"@ || ext == "jsx"@ || ext
            == "vue"@ || ext == "svelte"@ || ext == "c"@ || ext == "cpp"@ || ext == "h"@ || ext
            == "hpp"@),
    ensures
        !symbol_line(line, ext),
{
}

/// For an extension that is not a known source extension, a trimmed line is
/// kept as a symbol when it is not empty, is at most 100 bytes, and starts
/// with one of `function `, `fn `, `def `, `class `, `struct `, `import `,
/// `export `, `pub `, `func `.
pub proof fn lemma_generic_symbols(t: Seq<char>, ext: Seq<char>)
    requires
        !is_code_extension(ext),
    ensures
        kept_symbol(t, ext) == (t.len() > 0 && utf8_len(t) <= 100 && (has_prefix(t, "function "@)
            || has_prefix(t, "fn "@) || has_prefix(t, "def "@) || has_prefix(t, "class "@)
            || has_prefix(t, "struct "@) || has_prefix(t, "import "@) || has_prefix(t, "export "@)
            || has_prefix(t, "pub "@) || has_prefix(t, "func "@))),
{
}

fn prefixed(t: &[char], p: &str) -> (r: bool)
    ensures
        r == has_prefix(t@, p@),
{
    let pc = chars_of(p);
    starts_with_chars(t, pc.as_slice())
}

fn mentions(t: &[char], p: &str) -> (r: bool)
    ensures
        r == has_substring(t@, p@),
{
    let pc = chars_of(p);
    contains_chars(t, pc.as_slice())
}

fn sized(t: &[char]) -> (r: bool)
    ensures
        r == symbol_sized(t@),
{
    t.len() > 0 && !utf8_len_exceeds(t, MAX_SYMBOL_LINE_BYTES)
}

/// Whether `line` defines a symbol in a file with extension `ext`: after
/// trimming it is not empty, at most 100 bytes long, and starts with (or, for
/// some languages, contains) one of the language's keywords.
pub fn is_symbol_line(line: &str, ext: &str) -> (r: bool)
    ensures
        r == symbol_line(line@, ext@),
{
    let lc = chars_of(line);
    let t = trim_chars(lc.as_slice());
    let t = t.as_slice();
    if !sized(t) {
        return false;
    }
    if text_eq(ext, "rs") {
        prefixed(t, "fn ") || prefixed(t, "struct ") || prefixed(t, "impl ") || prefixed(t, "enum ")
            || prefixed(t, "trait ") || prefixed(t, "pub ")
    } else if text_eq(ext, "py") {
        prefixed(t, "def ") || prefixed(t, "async def ") || prefixed(t, "class ")
    } else if text_eq(ext, "go") {
        prefixed(t, "func ") || prefixed(t, "type ") || prefixed(t, "struct ") || prefixed(
            t,
            "interface ",
        )
    } else if text_eq(ext, "java") || text_eq(ext, "kt") || text_eq(ext, "cs") {
        mentions(t, " class ") || prefixed(t, "public ") || prefixed(t, "private ")
    } else if text_eq(ext, "ts") || text_eq(ext, "tsx") || text_eq(ext, "js") || text_eq(ext, "jsx")
        || text_eq(ext, "vue") || text_eq(ext, "svelte") {
        mentions(t, "function ") || mentions(t, "const ") || mentions(t, "class ") || prefixed(
            t,
            "import ",
        ) || prefixed(t, "export ")
    } else if text_eq(ext, "c") || text_eq(ext, "cpp") || text_eq(ext, "h") || text_eq(ext, "hpp") {
        prefixed(t, "void ") || prefixed(t, "int ") || prefixed(t, "class ") || prefixed(
            t,
            "struct ",
        )
    } else {
        false
    }
}

fn is_generic_symbol(t: &[char]) -> (r: bool)
    ensures
        r == generic_symbol(t@),
{
    prefixed(t, "function ") || prefixed(t, "fn ") || prefixed(t, "def ") || prefixed(t, "class ")
        || prefixed(t, "struct ") || prefixed(t, "import ") || prefixed(t, "export ") || prefixed(
        t,
        "pub ",
    ) || prefixed(t, "func ")
}

/// The symbol lines of `content`, trimmed, in the order they occur. For a
/// known source extension a line is one as `is_symbol_line` says; for any
/// other extension, one that starts with a common keyword of several languages.
pub fn extract_symbols(content: &str, ext: &str) -> (r: Vec<String>)
    ensures
        views(r@) == symbols(content@, ext@),
{
    let use_generic = !code_extension(ext);
    let cc = chars_of(content);
    let ls = lines_of(cc.as_slice());
    let ghost all = lines(content@);
    let mut r: Vec<String> = Vec::new();
    let mut i: usize = 0;
    while i < ls.len()
        invariant
            i <= ls@.len(),
            ls@.len() == all.len(),
            forall|k: int| 0 <= k < ls@.len() ==> #[trigger] ls@[k]@ == all[k],
            use_generic == !is_code_extension(ext@),
            views(r@) == symbols_of_lines(all.take(i as int), ext@),
        decreases ls@.len() - i,
    {
        let t = trim_chars(ls[i].as_slice());
        let ts = t.as_slice();
        let keep = if !sized(ts) {
            false
        } else if use_generic {
            is_generic_symbol(ts)
        } else {
            let line = string_of(ts);
            is_symbol_line(line.as_str(), ext)
        };
        proof {
            assert(all.take(i + 1).drop_last() == all.take(i as int));
            assert(all.take(i + 1).last() == all[i as int]);
        }
        if keep {
            let s = string_of(ts);
            r.push(s);
            assert(views(r@) == views(r@.drop_last()).push(s@));
        }
        i = i + 1;
    }
    assert(all.take(all.len() as int) == all);
    r
}

} // verus!
