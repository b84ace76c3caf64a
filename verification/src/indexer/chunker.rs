//! Cutting a file into overlapping chunks of lines (a sliding window), each
//! with its symbols and an identifier made of its path and line range.

use vstd::prelude::*;
use crate::constants::{CHUNK_MAX_LINES, CHUNK_OVERLAP};
use crate::indexer::symbols::{extract_symbols, symbols};
use crate::models::{ChunkView, CodeChunk};
use crate::paths::{
    extension_of, file_name_of, lowercase_of, path_extension, path_file_name, path_strip_prefix,
    strip_prefix_of, to_lowercase,
};
use crate::text::{
    decimal, join, join_with_newlines, lemma_decimal_digits, lemma_decimal_injective, push_decimal, replace_separators,
    separators_to_underscores, views,
};
use vstd::string::StringExecFns;

verus! {

/// The line ranges `[start, end)` of the chunks of a file of `n` lines, for
/// the windows that begin at `start`: each window is at most `CHUNK_MAX_LINES`
/// long, the next one begins `CHUNK_OVERLAP` lines before the previous one
/// ends, and the last one ends at `n`.
pub open spec fn windows_from(start: int, n: int) -> Seq<(int, int)>
    decreases n - start,
{
    if start < 0 || start >= n {
        Seq::empty()
    } else {
        let end = if start + CHUNK_MAX_LINES < n {
            start + CHUNK_MAX_LINES
        } else {
            n
        };
        if end == n {
            seq![(start, end)]
        } else {
            seq![(start, end)] + windows_from(end - CHUNK_OVERLAP, n)
        }
    }
}

/// The line ranges of the chunks of a file of `n` lines.
pub open spec fn windows(n: int) -> Seq<(int, int)> {
    windows_from(0, n)
}

/// Line `i` lies in one of the windows `w`.
pub open spec fn in_some_window(w: Seq<(int, int)>, i: int) -> bool {
    exists|k: int| #![trigger w[k]] 0 <= k < w.len() && w[k].0 <= i < w[k].1
}

/// What holds of the windows that begin at `start`; `lemma_windows_cover_file`
/// states it for a whole file.
#[verifier::rlimit(30)]
pub proof fn lemma_windows_from(start: int, n: int)
    requires
        0 <= start,
    ensures
        ({
            let w = windows_from(start, n);
            &&& (w.len() == 0 <==> start >= n)
            &&& start < n ==> w[0].0 == start && w.last().1 == n
            &&& forall|k: int|
                0 <= k < w.len() ==> start <= #[trigger] w[k].0 < w[k].1 <= n && w[k].1 - w[k].0
                    <= CHUNK_MAX_LINES
            &&& forall|k: int|
                0 <= k < w.len() - 1 ==> #[trigger] w[k + 1].0 == w[k].1 - CHUNK_OVERLAP && w[k].1
                    - w[k].0 == CHUNK_MAX_LINES
            &&& forall|i: int| start <= i < n ==> #[trigger] in_some_window(w, i)
        }),
    decreases n - start,
{
    let w = windows_from(start, n);
    if start < n {
        let end = if start + CHUNK_MAX_LINES < n {
            start + CHUNK_MAX_LINES
        } else {
            n
        };
        if end == n {
            assert(w == seq![(start, end)]);
            assert forall|i: int| start <= i < n implies #[trigger] in_some_window(w, i) by {
                assert(w[0].0 <= i < w[0].1);
            }
        } else {
            let next = end - CHUNK_OVERLAP;
            let rest = windows_from(next, n);
            lemma_windows_from(next, n);
            assert(w == seq![(start, end)] + rest);
            assert forall|k: int| 0 <= k < w.len() - 1 implies #[trigger] w[k + 1].0 == w[k].1
                - CHUNK_OVERLAP && w[k].1 - w[k].0 == CHUNK_MAX_LINES by {
                if k == 0 {
                    assert(w[1] == rest[0]);
                } else {
                    let j = k - 1;
                    assert(w[k] == rest[j]);
                    assert(w[k + 1] == rest[j + 1]);
                    assert(rest[j + 1].0 == rest[j].1 - CHUNK_OVERLAP);
                }
            }
            assert forall|k: int|
                0 <= k < w.len() implies start <= #[trigger] w[k].0 < w[k].1 <= n && w[k].1
                - w[k].0 <= CHUNK_MAX_LINES by {
                if k > 0 {
                    assert(w[k] == rest[k - 1]);
                }
            }
            assert forall|i: int| start <= i < n implies #[trigger] in_some_window(w, i) by {
                if i < end {
                    assert(w[0].0 <= i < w[0].1);
                } else {
                    assert(in_some_window(rest, i));
                    let k = choose|k: int| #![trigger rest[k]] 0 <= k < rest.len() && rest[k].0 <= i < rest[k].1;
                    assert(w[k + 1] == rest[k]);
                    assert(w[k + 1].0 <= i < w[k + 1].1);
                }
            }
        }
    }
}

/// The chunks of a file of `n` lines: there are none when the file is empty;
/// otherwise the first begins at line 0 and the last ends at line `n`; each
/// holds at least one and at most `CHUNK_MAX_LINES` lines; every chunk but the
/// last holds exactly `CHUNK_MAX_LINES` lines, and the next one begins
/// `CHUNK_OVERLAP` lines before it ends; and every line lies in some chunk.
pub proof fn lemma_windows_cover_file(n: int)
    requires
        0 <= n,
    ensures
        ({
            let w = windows(n);
            &&& (w.len() == 0 <==> n == 0)
            &&& n > 0 ==> w[0].0 == 0 && w.last().1 == n
            &&& forall|k: int|
                0 <= k < w.len() ==> 0 <= #[trigger] w[k].0 < w[k].1 <= n && w[k].1 - w[k].0
                    <= CHUNK_MAX_LINES
            &&& forall|k: int|
                0 <= k < w.len() - 1 ==> #[trigger] w[k + 1].0 == w[k].1 - CHUNK_OVERLAP && w[k].1
                    - w[k].0 == CHUNK_MAX_LINES
            &&& forall|i: int| 0 <= i < n ==> #[trigger] in_some_window(w, i)
        }),
{
    lemma_windows_from(0, n);
}

proof fn lemma_window_starts_increase(n: int, j: int, k: int)
    requires
        0 <= n,
        0 <= j < k < windows(n).len(),
    ensures
        windows(n)[j].0 < windows(n)[k].0,
    decreases k - j,
{
    lemma_windows_cover_file(n);
    let w = windows(n);
    assert(w[(k - 1) + 1].0 == w[k - 1].1 - CHUNK_OVERLAP);
    if j < k - 1 {
        lemma_window_starts_increase(n, j, k - 1);
    }
}

/// Within one file, no two chunks have the same identifier.
#[verifier::rlimit(30)]
pub proof fn lemma_chunk_ids_distinct(relative_path: Seq<char>, n: int, j: int, k: int)
    requires
        0 <= n,
        0 <= j < k < windows(n).len(),
    ensures
        chunk_id(relative_path, windows(n)[j].0, windows(n)[j].1) != chunk_id(
            relative_path,
            windows(n)[k].0,
            windows(n)[k].1,
        ),
{
    let w = windows(n);
    lemma_windows_cover_file(n);
    lemma_window_starts_increase(n, j, k);
    let (s1, e1) = w[j];
    let (s2, e2) = w[k];
    let p = separators_to_underscores(relative_path) + seq![':'];
    let a = decimal(s1 as nat);
    let c = decimal(s2 as nat);
    let left = a + seq![':'] + decimal(e1 as nat);
    let right = c + seq![':'] + decimal(e2 as nat);
    lemma_decimal_digits(s1 as nat);
    lemma_decimal_digits(s2 as nat);
    if chunk_id(relative_path, s1, e1) == chunk_id(relative_path, s2, e2) {
        assert(chunk_id(relative_path, s1, e1) =~= p + left);
        assert(chunk_id(relative_path, s2, e2) =~= p + right);
        assert(left =~= (p + left).skip(p.len() as int));
        assert(right =~= (p + right).skip(p.len() as int));
        assert(left == right);
        if a.len() < c.len() {
            assert(left[a.len() as int] == ':');
            assert(right[a.len() as int] == c[a.len() as int]);
        } else if c.len() < a.len() {
            assert(right[c.len() as int] == ':');
            assert(left[c.len() as int] == a[c.len() as int]);
        } else {
            assert(a =~= left.take(a.len() as int));
            assert(c =~= right.take(c.len() as int));
            lemma_decimal_injective(s1 as nat, s2 as nat);
        }
    }
}

/// The identifier of the chunk of lines `[start, end)`: the relative path with
/// its separators made `'_'`, then `":start:end"`.
pub open spec fn chunk_id(relative_path: Seq<char>, start: int, end: int) -> Seq<char> {
    separators_to_underscores(relative_path) + seq![':'] + decimal(start as nat) + seq![':']
        + decimal(end as nat)
}

/// The chunk of lines `[start, end)` of a file.
pub open spec fn chunk_at(
    file_path: Seq<char>,
    relative_path: Seq<char>,
    ext: Seq<char>,
    lines: Seq<Seq<char>>,
    start: int,
    end: int,
) -> ChunkView {
    let content = join(lines.subrange(start, end), seq!['\n']);
    ChunkView {
        chunk_id: chunk_id(relative_path, start, end),
        file_path: file_path,
        relative_path: relative_path,
        start_line: (start + 1) as usize,
        end_line: end as usize,
        content: content,
        extension: ext,
        symbols: symbols(content, ext),
    }
}

/// `chunks` are the chunks of the file with the given lines, one per window, in order.
pub open spec fn chunks_of(
    chunks: Seq<CodeChunk>,
    file_path: Seq<char>,
    relative_path: Seq<char>,
    ext: Seq<char>,
    lines: Seq<Seq<char>>,
) -> bool {
    let w = windows(lines.len() as int);
    &&& chunks.len() == w.len()
    &&& forall|k: int|
        0 <= k < w.len() ==> #[trigger] chunks[k]@ == chunk_at(
            file_path,
            relative_path,
            ext,
            lines,
            w[k].0,
            w[k].1,
        )
}

/// Cuts a file, given as its lines, into chunks: one per window of
/// `windows(lines.len())`, with its content (the lines joined by `'\n'`), its
/// 1-based first line, its symbols and its identifier.
#[verifier::rlimit(30)]
pub fn chunk_lines(file_path: &str, relative_path: &str, ext: &str, lines: &Vec<String>) -> (r:
    Vec<CodeChunk>)
    ensures
        chunks_of(r@, file_path@, relative_path@, ext@, views(lines@)),
{
    let n = lines.len();
    let ghost all = views(lines@);
    let ghost w = windows(n as int);
    let id_base = replace_separators(relative_path);
    let mut r: Vec<CodeChunk> = Vec::new();
    let ghost mut done: Seq<(int, int)> = Seq::empty();
    if n == 0 {
        return r;
    }
    let mut start: usize = 0;
    loop
        invariant_except_break
            start < n,
            w == done + windows_from(start as int, n as int),
        invariant
            n == lines@.len(),
            all == views(lines@),
            w == windows(n as int),
            id_base@ == separators_to_underscores(relative_path@),
            r@.len() == done.len(),
            forall|k: int|
                0 <= k < done.len() ==> #[trigger] r@[k]@ == chunk_at(
                    file_path@,
                    relative_path@,
                    ext@,
                    all,
                    done[k].0,
                    done[k].1,
                ),
        ensures
            w == done,
            r@.len() == done.len(),
            forall|k: int|
                0 <= k < done.len() ==> #[trigger] r@[k]@ == chunk_at(
                    file_path@,
                    relative_path@,
                    ext@,
                    all,
                    done[k].0,
                    done[k].1,
                ),
        decreases n - start,
    {
        let end = if n - start > CHUNK_MAX_LINES {
            start + CHUNK_MAX_LINES
        } else {
            n
        };
        let content = join_with_newlines(lines, start, end);
        let syms = extract_symbols(content.as_str(), ext);
        let mut id = id_base.clone();
        id.push(':');
        push_decimal(&mut id, start as u64);
        id.push(':');
        push_decimal(&mut id, end as u64);
        assert(id@ =~= chunk_id(relative_path@, start as int, end as int));
        let chunk = CodeChunk {
            chunk_id: id,
            file_path: String::from_str(file_path),
            relative_path: String::from_str(relative_path),
            start_line: start + 1,
            end_line: end,
            content: content,
            extension: String::from_str(ext),
            symbols: syms,
        };
        proof {
            assert(views(lines@.subrange(start as int, end as int)) == all.subrange(
                start as int,
                end as int,
            ));
            assert(chunk@.symbols == views(chunk.symbols@));
            assert(chunk@.content == join(all.subrange(start as int, end as int), seq!['\n']));
            assert(chunk@.chunk_id == chunk_id(relative_path@, start as int, end as int));
            assert(chunk@ == chunk_at(
                file_path@,
                relative_path@,
                ext@,
                all,
                start as int,
                end as int,
            ));
        }
        r.push(chunk);
        proof {
            let rest = windows_from(start as int, n as int);
            assert(rest[0] == (start as int, end as int));
            done = done.push((start as int, end as int));
            if end == n {
                assert(rest == seq![(start as int, end as int)]);
                assert(w == done);
            } else {
                assert(rest == seq![(start as int, end as int)] + windows_from(
                    end - CHUNK_OVERLAP,
                    n as int,
                ));
                assert(w == done + windows_from(end - CHUNK_OVERLAP, n as int));
            }
        }
        if end == n {
            break;
        }
        start = end - CHUNK_OVERLAP;
    }
    r
}

/// The chunks of a file of `n` lines, counted from 1: there are none exactly
/// when the file is empty; the first begins at line 1 and the last ends at
/// line `n`; each holds from 1 to 100 lines, every one but the last exactly
/// 100, and the next begins 9 lines before it ends (so they share 10 lines);
/// each holds its lines joined by `'\n'`, the symbols of that content, the
/// file's paths and extension, and an identifier made of the relative path
/// (separators as `'_'`) and its 0-based line range; and no two identifiers
/// are equal.
pub proof fn lemma_chunks_of_file(
    chunks: Seq<CodeChunk>,
    file_path: Seq<char>,
    relative_path: Seq<char>,
    ext: Seq<char>,
    lines: Seq<Seq<char>>,
)
    requires
        chunks_of(chunks, file_path, relative_path, ext, lines),
        lines.len() <= usize::MAX,
    ensures
        chunks.len() == 0 <==> lines.len() == 0,
        lines.len() > 0 ==> chunks[0]@.start_line == 1 && chunks.last()@.end_line == lines.len(),
        forall|k: int|
            0 <= k < chunks.len() ==> {
                let c = (#[trigger] chunks[k])@;
                &&& 1 <= c.start_line <= c.end_line <= lines.len()
                &&& c.end_line - c.start_line < 100
                &&& c.content == join(lines.subrange(c.start_line - 1, c.end_line as int), seq!['\n'])
                &&& c.symbols == symbols(c.content, ext)
                &&& c.file_path == file_path
                &&& c.relative_path == relative_path
                &&& c.extension == ext
                &&& c.chunk_id == separators_to_underscores(relative_path) + seq![':'] + decimal(
                    (c.start_line - 1) as nat,
                ) + seq![':'] + decimal(c.end_line as nat)
            },
        forall|k: int|
            0 <= k < chunks.len() - 1 ==> {
                &&& (#[trigger] chunks[k + 1])@.start_line == chunks[k]@.end_line - 9
                &&& chunks[k]@.end_line - chunks[k]@.start_line == 99
            },
        forall|j: int, k: int|
            0 <= j < k < chunks.len() ==> (#[trigger] chunks[j])@.chunk_id != (#[trigger] chunks[k])@.chunk_id,
{
    let n = lines.len() as int;
    let w = windows(n);
    lemma_windows_cover_file(n);
    assert forall|k: int| 0 <= k < chunks.len() - 1 implies {
        &&& (#[trigger] chunks[k + 1])@.start_line == chunks[k]@.end_line - 9
        &&& chunks[k]@.end_line - chunks[k]@.start_line == 99
    } by {
        assert(chunks[k]@ == chunk_at(file_path, relative_path, ext, lines, w[k].0, w[k].1));
        assert(chunks[k + 1]@ == chunk_at(file_path, relative_path, ext, lines, w[k + 1].0, w[k + 1].1));
    }
    assert forall|j: int, k: int| 0 <= j < k < chunks.len() implies (#[trigger] chunks[j])@.chunk_id
        != (#[trigger] chunks[k])@.chunk_id by {
        assert(chunks[j]@ == chunk_at(file_path, relative_path, ext, lines, w[j].0, w[j].1));
        assert(chunks[k]@ == chunk_at(file_path, relative_path, ext, lines, w[k].0, w[k].1));
        lemma_chunk_ids_distinct(relative_path, n, j, k);
    }
    if n > 0 {
        assert(chunks[chunks.len() - 1]@ == chunk_at(
            file_path,
            relative_path,
            ext,
            lines,
            w[w.len() - 1].0,
            w[w.len() - 1].1,
        ));
    }
}

/// The path of `file_path` relative to `root_path`; failing that, its file
/// name; failing that, the path itself.
pub open spec fn relative_path_of(file_path: Seq<char>, root_path: Seq<char>) -> Seq<char> {
    match strip_prefix_of(file_path, root_path) {
        Some(rel) => rel,
        None => match file_name_of(file_path) {
            Some(name) => name,
            None => file_path,
        },
    }
}

/// The extension of `file_path` in lower case, or empty when it has none.
pub open spec fn lower_extension_of(file_path: Seq<char>) -> Seq<char> {
    match extension_of(file_path) {
        Some(e) => lowercase_of(e),
        None => Seq::empty(),
    }
}

/// Cuts the file at `file_path`, whose lines have been read, into chunks; the
/// chunks record the path relative to `root_path` and the file's extension.
pub fn chunk_file(file_path: &str, root_path: &str, lines: &Vec<String>) -> (r: Vec<CodeChunk>)
    ensures
        chunks_of(
            r@,
            file_path@,
            relative_path_of(file_path@, root_path@),
            lower_extension_of(file_path@),
            views(lines@),
        ),
{
    let ext = match path_extension(file_path) {
        Some(e) => to_lowercase(e.as_str()),
        None => String::new(),
    };
    let relative = match path_strip_prefix(file_path, root_path) {
        Some(rel) => rel,
        None => match path_file_name(file_path) {
            Some(name) => name,
            None => String::from_str(file_path),
        },
    };
    chunk_lines(file_path, relative.as_str(), ext.as_str(), lines)
}

} // verus!
