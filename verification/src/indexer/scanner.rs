//! Deciding which files are indexed and which directory entries are skipped
//! while walking a project.

use vstd::prelude::*;
use crate::constants::{
    code_extension, ignored_dir, is_code_extension, is_ignored_dir, is_other_extension,
    other_extension,
};
use crate::paths::{extension_of, lowercase_of, path_extension, to_lowercase};
use crate::text::chars_of;
use vstd::string::StringExecFns;

verus! {

/// A file is indexed when its extension, in lower case, is a source or other
/// indexed extension.
pub open spec fn code_file(path: Seq<char>) -> bool {
    match extension_of(path) {
        Some(e) => is_code_extension(lowercase_of(e)) || is_other_extension(lowercase_of(e)),
        None => false,
    }
}

/// Whether the file at `path` is one to index.
pub fn is_code_file(path: &str) -> (r: bool)
    ensures
        r == code_file(path@),
{
    match path_extension(path) {
        Some(e) => {
            let lower = to_lowercase(e.as_str());
            code_extension(lower.as_str()) || other_extension(lower.as_str())
        },
        None => false,
    }
}

/// An entry named `name` is skipped while walking: hidden entries (whose
/// name starts with `'.'`) and ignored directory names.
pub open spec fn skipped_entry(name: Seq<char>) -> bool {
    (name.len() > 0 && name[0] == '.') || is_ignored_dir(name)
}

/// Whether the entry named `name` is skipped while walking a project.
pub fn is_skipped_entry(name: &str) -> (r: bool)
    ensures
        r == skipped_entry(name@),
{
    let v = chars_of(name);
    (v.len() > 0 && v[0] == '.') || ignored_dir(name)
}

/// What a walk does with a directory entry.
#[derive(Debug, PartialEq, Eq)]
pub enum EntryStep {
    /// Left out (hidden or ignored).
    Skip,
    /// A directory to walk into.
    Descend,
    /// A file to index.
    Collect,
    /// A file that is not indexed.
    Pass,
}

pub open spec fn entry_step(name: Seq<char>, path: Seq<char>, is_dir: bool) -> EntryStep {
    if skipped_entry(name) {
        EntryStep::Skip
    } else if is_dir {
        EntryStep::Descend
    } else if code_file(path) {
        EntryStep::Collect
    } else {
        EntryStep::Pass
    }
}

/// What to do with the entry named `name` at `path` met while walking a project.
pub fn classify_entry(name: &str, path: &str, is_dir: bool) -> (r: EntryStep)
    ensures
        r == entry_step(name@, path@, is_dir),
{
    if is_skipped_entry(name) {
        EntryStep::Skip
    } else if is_dir {
        EntryStep::Descend
    } else if is_code_file(path) {
        EntryStep::Collect
    } else {
        EntryStep::Pass
    }
}

/// An entry is skipped exactly when its name starts with `'.'` or is one of
/// the ignored directory names; any other directory is walked into, and any
/// other file is collected exactly when it is a file to index.
pub proof fn lemma_entry_steps(name: Seq<char>, path: Seq<char>, is_dir: bool)
    ensures
        (entry_step(name, path, is_dir) == EntryStep::Skip) <==> (name.len() > 0 && name[0] == '.'
            || name == ".git"@ || name == "node_modules"@ || name == "dist"@ || name == "build"@
            || name == ".next"@ || name == "target"@ || name == "__pycache__"@
            || name == ".venv"@ || name == "venv"@ || name == "vendor"@ || name == ".idea"@
            || name == ".vscode"@ || name == "bin"@ || name == "obj"@ || name == ".cache"@
            || name == ".temp"@ || name == "tmp"@ || name == "temp"@),
        entry_step(name, path, is_dir) != EntryStep::Skip && is_dir ==> entry_step(name, path, is_dir)
            == EntryStep::Descend,
        entry_step(name, path, is_dir) != EntryStep::Skip && !is_dir ==> entry_step(name, path, is_dir)
            == if code_file(path) {
            EntryStep::Collect
        } else {
            EntryStep::Pass
        },
{
}

/// A file is indexed exactly when it has an extension whose lower-case form
/// is one of the source extensions (ts, tsx, js, jsx, mjs, cts, py, rs, go,
/// java, c, cpp, h, hpp, cs, rb, php, swift, kt, scala, vue, svelte) or one of
/// the other indexed extensions (md, json, yaml, yml, toml, xml, html, css,
/// scss, sql, sh, bash, zsh, ps1, bat, dockerfile).
pub proof fn lemma_code_files(path: Seq<char>)
    ensures
        code_file(path) == match extension_of(path) {
            Some(e) => {
                let x = lowercase_of(e);
                x == "ts"@ || x == "tsx"@ || x == "js"@ || x == "jsx"@ || x == "mjs"@
                || x == "cts"@ || x == "py"@ || x == "rs"@ || x == "go"@ || x == "java"@
                || x == "c"@ || x == "cpp"@ || x == "h"@ || x == "hpp"@ || x == "cs"@
                || x == "rb"@ || x == "php"@ || x == "swift"@ || x == "kt"@ || x == "scala"@
                || x == "vue"@ || x == "svelte"@ || x == "md"@ || x == "json"@ || x == "yaml"@
                || x == "yml"@ || x == "toml"@ || x == "xml"@ || x == "html"@ || x == "css"@
                || x == "scss"@ || x == "sql"@ || x == "sh"@ || x == "bash"@ || x == "zsh"@
                || x == "ps1"@ || x == "bat"@ || x == "dockerfile"@
            },
            None => false,
        },
{
}

} // verus!

verus! {

/// Work left in a walk: a directory still to read, or a file found to index.
#[derive(Debug)]
pub enum WalkItem {
    Dir(String),
    File(String),
}

/// What a walk asks for next.
#[derive(Debug)]
pub enum WalkStep {
    /// Read this directory and report its entries with `entries_read`.
    ReadDir(String),
    /// The walk is over; these are the files to index, in the order found.
    Finished(Vec<String>),
}

/// A depth-first walk of a project that collects the files to index, in the
/// order in which a recursive walk visits them: each directory's entries in
/// the order they are read, a subdirectory's files before the next entry's.
/// The caller reads the directories; the walk decides.
pub struct CodeFileWalk {
    /// The items still to visit; the last is visited first.
    pub pending: Vec<WalkItem>,
    /// The files found so far.
    pub files: Vec<String>,
}

/// The items an entry list gives: each entry that is not skipped, as a
/// directory to read or a file to index, in the order read.
pub open spec fn entry_items(entries: Seq<crate::models::FileEntry>) -> Seq<WalkItem>
    decreases entries.len(),
{
    if entries.len() == 0 {
        Seq::empty()
    } else {
        let rest = entry_items(entries.drop_last());
        let e = entries.last();
        match entry_step(e.name@, e.path@, e.is_folder) {
            EntryStep::Descend => rest.push(WalkItem::Dir(e.path)),
            EntryStep::Collect => rest.push(WalkItem::File(e.path)),
            _ => rest,
        }
    }
}

/// The pending items after popping the files at the top of `pending`, the
/// files popped (in the order popped), and the directory then on top, if any.
pub open spec fn pop_files(pending: Seq<WalkItem>) -> (Seq<WalkItem>, Seq<String>, Option<String>)
    decreases pending.len(),
{
    if pending.len() == 0 {
        (pending, Seq::empty(), None)
    } else {
        match pending.last() {
            WalkItem::Dir(d) => (pending.drop_last(), Seq::empty(), Some(d)),
            WalkItem::File(f) => {
                let (p, fs, d) = pop_files(pending.drop_last());
                (p, seq![f] + fs, d)
            },
        }
    }
}

impl CodeFileWalk {
    /// Starts a walk at `root`; a root that is not a directory gives no files.
    pub fn new(root: &str, root_is_dir: bool) -> (w: Self)
        ensures
            w.files@.len() == 0,
            root_is_dir ==> w.pending@.len() == 1 && (w.pending@[0] matches WalkItem::Dir(d)
                && d@ == root@),
            !root_is_dir ==> w.pending@.len() == 0,
    {
        let mut pending = Vec::new();
        if root_is_dir {
            pending.push(WalkItem::Dir(String::from_str(root)));
        }
        CodeFileWalk { pending, files: Vec::new() }
    }

    /// Collects the files at the top of the pending items, then asks for the
    /// next directory to read, or ends the walk.
    #[verifier::rlimit(30)]
    pub fn next_step(&mut self) -> (step: WalkStep)
        ensures
            ({
                let (p, fs, d) = pop_files(old(self).pending@);
                &&& final(self).pending@ == p
                &&& final(self).files@ == old(self).files@ + fs
                &&& match d {
                    Some(dir) => step == WalkStep::ReadDir(dir),
                    None => p.len() == 0 && (step matches WalkStep::Finished(all) && all@
                        == final(self).files@),
                }
            }),
    {
        let ghost start_files = self.files@;
        let ghost start_pending = self.pending@;
        let ghost mut popped: Seq<String> = Seq::empty();
        loop
            invariant
                ({
                    let (p0, fs0, d0) = pop_files(start_pending);
                    let (p, fs, d) = pop_files(self.pending@);
                    &&& p0 == p
                    &&& d0 == d
                    &&& fs0 == popped + fs
                }),
                self.files@ == start_files + popped,
                start_files == old(self).files@,
                start_pending == old(self).pending@,
            decreases self.pending@.len(),
        {
            let ghost before = self.pending@;
            match self.pending.pop() {
                None => {
                    proof {
                        assert(popped + Seq::<String>::empty() =~= popped);
                    }
                    let files = self.files.clone();
                    proof {
                        assert forall|k: int| 0 <= k < files@.len() implies files@[k]
                            == self.files@[k] by {
                            assert(vstd::pervasive::cloned(self.files@[k], files@[k]));
                        }
                        assert(files@ =~= self.files@);
                    }
                    return WalkStep::Finished(files);
                },
                Some(WalkItem::Dir(d)) => {
                    proof {
                        assert(before.drop_last() =~= self.pending@);
                        assert(before.last() == WalkItem::Dir(d));
                        assert(popped + Seq::<String>::empty() =~= popped);
                    }
                    return WalkStep::ReadDir(d);
                },
                Some(WalkItem::File(f)) => {
                    proof {
                        assert(before.drop_last() =~= self.pending@);
                        assert(before.last() == WalkItem::File(f));
                        let (p, fs, d) = pop_files(self.pending@);
                        assert(popped + (seq![f] + fs) =~= popped.push(f) + fs);
                        popped = popped.push(f);
                    }
                    self.files.push(f);
                },
            }
        }
    }

    /// Takes the entries of the directory last asked for, in the order read:
    /// the kept ones are visited next, first entry first.
    #[verifier::rlimit(30)]
    pub fn entries_read(&mut self, entries: Vec<crate::models::FileEntry>)
        ensures
            final(self).files@ == old(self).files@,
            final(self).pending@ == old(self).pending@ + entry_items(entries@).reverse(),
    {
        let ghost start = self.pending@;
        let mut i: usize = entries.len();
        assert(entries@.take(i as int) =~= entries@);
        while i > 0
            invariant
                i <= entries@.len(),
                self.files@ == old(self).files@,
                self.pending@ + entry_items(entries@.take(i as int)).reverse() == start
                    + entry_items(entries@).reverse(),
            decreases i,
        {
            i = i - 1;
            let e = &entries[i];
            let step = classify_entry(e.name.as_str(), e.path.as_str(), e.is_folder);
            let ghost before = self.pending@;
            proof {
                assert(entries@.take(i + 1).drop_last() =~= entries@.take(i as int));
                assert(entries@.take(i + 1).last() == entries@[i as int]);
            }
            match step {
                EntryStep::Descend => {
                    self.pending.push(WalkItem::Dir(e.path.clone()));
                },
                EntryStep::Collect => {
                    self.pending.push(WalkItem::File(e.path.clone()));
                },
                _ => {},
            }
            proof {
                let prefix = entry_items(entries@.take(i as int));
                let longer = entry_items(entries@.take(i + 1));
                if longer.len() == prefix.len() + 1 {
                    assert(longer.reverse() =~= seq![longer.last()] + prefix.reverse());
                    assert(self.pending@ =~= before.push(longer.last()));
                    assert(self.pending@ + prefix.reverse() =~= before + longer.reverse());
                } else {
                    assert(longer == prefix);
                }
            }
        }
        assert(entries@.take(0) =~= Seq::<crate::models::FileEntry>::empty());
        assert(self.pending@ + Seq::<WalkItem>::empty() =~= self.pending@);
    }
}

/// What a project's directories hold, as a walk reads them: `listing(d)` are
/// the entries of the directory at path `d`, in the order read; `rank`
/// decreases from a directory to each subdirectory walked into (the tree is
/// finite).
pub open spec fn ranked_listing(
    listing: spec_fn(Seq<char>) -> Seq<crate::models::FileEntry>,
    rank: spec_fn(Seq<char>) -> nat,
) -> bool {
    forall|d: Seq<char>, i: int|
        #![trigger listing(d)[i]]
        0 <= i < listing(d).len() && entry_step(
            listing(d)[i].name@,
            listing(d)[i].path@,
            listing(d)[i].is_folder,
        ) == EntryStep::Descend ==> rank(listing(d)[i].path@) < rank(d)
}

/// The files a recursive walk collects from the first `n` entries of the
/// directory `d`: a file to index is collected, a directory is walked
/// into in place, anything else is left.
pub open spec fn walk_entries(
    listing: spec_fn(Seq<char>) -> Seq<crate::models::FileEntry>,
    rank: spec_fn(Seq<char>) -> nat,
    d: Seq<char>,
    n: nat,
) -> Seq<String>
    decreases rank(d), n,
    when ranked_listing(listing, rank) && n <= listing(d).len()
{
    if n == 0 {
        Seq::empty()
    } else {
        let before = walk_entries(listing, rank, d, (n - 1) as nat);
        let e = listing(d)[n - 1];
        match entry_step(e.name@, e.path@, e.is_folder) {
            EntryStep::Descend => before + walk_entries(
                listing,
                rank,
                e.path@,
                listing(e.path@).len(),
            ),
            EntryStep::Collect => before.push(e.path),
            _ => before,
        }
    }
}

/// The files a recursive walk collects from the directory `d`.
pub open spec fn walk_dir(
    listing: spec_fn(Seq<char>) -> Seq<crate::models::FileEntry>,
    rank: spec_fn(Seq<char>) -> nat,
    d: Seq<char>,
) -> Seq<String> {
    walk_entries(listing, rank, d, listing(d).len())
}

/// The files a pending item stands for.
pub open spec fn expand_item(
    listing: spec_fn(Seq<char>) -> Seq<crate::models::FileEntry>,
    rank: spec_fn(Seq<char>) -> nat,
    item: WalkItem,
) -> Seq<String> {
    match item {
        WalkItem::Dir(d) => walk_dir(listing, rank, d@),
        WalkItem::File(f) => seq![f],
    }
}

/// The files the pending items stand for, the last (top) item first.
pub open spec fn expand_stack(
    listing: spec_fn(Seq<char>) -> Seq<crate::models::FileEntry>,
    rank: spec_fn(Seq<char>) -> nat,
    pending: Seq<WalkItem>,
) -> Seq<String>
    decreases pending.len(),
{
    if pending.len() == 0 {
        Seq::empty()
    } else {
        expand_item(listing, rank, pending.last()) + expand_stack(
            listing,
            rank,
            pending.drop_last(),
        )
    }
}

/// The files items stand for, the first item first.
pub open spec fn expand_in_order(
    listing: spec_fn(Seq<char>) -> Seq<crate::models::FileEntry>,
    rank: spec_fn(Seq<char>) -> nat,
    items: Seq<WalkItem>,
) -> Seq<String>
    decreases items.len(),
{
    if items.len() == 0 {
        Seq::empty()
    } else {
        expand_in_order(listing, rank, items.drop_last()) + expand_item(
            listing,
            rank,
            items.last(),
        )
    }
}

proof fn lemma_expand_stack_reversed(
    listing: spec_fn(Seq<char>) -> Seq<crate::models::FileEntry>,
    rank: spec_fn(Seq<char>) -> nat,
    p: Seq<WalkItem>,
    items: Seq<WalkItem>,
)
    ensures
        expand_stack(listing, rank, p + items.reverse()) == expand_in_order(listing, rank, items)
            + expand_stack(listing, rank, p),
    decreases items.len(),
{
    if items.len() == 0 {
        assert(p + items.reverse() =~= p);
        assert(Seq::<String>::empty() + expand_stack(listing, rank, p) =~= expand_stack(
            listing,
            rank,
            p,
        ));
    } else {
        let init = items.drop_last();
        let last = items.last();
        assert(items.reverse() =~= seq![last] + init.reverse());
        assert(p + items.reverse() =~= p.push(last) + init.reverse());
        lemma_expand_stack_reversed(listing, rank, p.push(last), init);
        assert(p.push(last).drop_last() =~= p);
        assert(p.push(last).last() == last);
        let a = expand_in_order(listing, rank, init);
        let b = expand_item(listing, rank, last);
        let c = expand_stack(listing, rank, p);
        assert(a + (b + c) =~= (a + b) + c);
    }
}

proof fn lemma_walk_entries_items(
    listing: spec_fn(Seq<char>) -> Seq<crate::models::FileEntry>,
    rank: spec_fn(Seq<char>) -> nat,
    d: Seq<char>,
    n: nat,
)
    requires
        ranked_listing(listing, rank),
        n <= listing(d).len(),
    ensures
        walk_entries(listing, rank, d, n) == expand_in_order(
            listing,
            rank,
            entry_items(listing(d).take(n as int)),
        ),
    decreases n,
{
    let es = listing(d).take(n as int);
    if n > 0 {
        lemma_walk_entries_items(listing, rank, d, (n - 1) as nat);
        assert(es.drop_last() =~= listing(d).take(n - 1));
        assert(es.last() == listing(d)[n - 1]);
        let items = entry_items(es);
        let prev = entry_items(es.drop_last());
        let e = listing(d)[n - 1];
        match entry_step(e.name@, e.path@, e.is_folder) {
            EntryStep::Descend => {
                assert(items.drop_last() == prev);
            },
            EntryStep::Collect => {
                assert(items.drop_last() == prev);
            },
            _ => {},
        }
    } else {
        assert(es =~= Seq::<crate::models::FileEntry>::empty());
    }
}

/// The files that a walk returns are those that the recursive walk of its
/// root collects, in the same order, when each directory it asks for is read
/// as `listing` says. The files found so far followed by what the pending
/// items stand for (each directory: what the recursive walk collects from it)
/// stay the same through every step:
/// - `next_step` moves files from the top of the pending items to the files
///   found, and either asks for a directory, which the items stood for, or
///   finishes when nothing is pending;
/// - `entries_read` with that directory's entries puts in its place items
///   that stand for the same files.
/// A walk that starts at a directory thus stands for exactly its recursive walk.
pub proof fn lemma_walk_collects_recursively(
    listing: spec_fn(Seq<char>) -> Seq<crate::models::FileEntry>,
    rank: spec_fn(Seq<char>) -> nat,
    pending: Seq<WalkItem>,
    d: Seq<char>,
    root: String,
)
    requires
        ranked_listing(listing, rank),
    ensures
        ({
            let (p, fs, top) = pop_files(pending);
            expand_stack(listing, rank, pending) == fs + match top {
                Some(dir) => walk_dir(listing, rank, dir@) + expand_stack(listing, rank, p),
                None => Seq::empty(),
            }
        }),
        pop_files(pending).2 is None ==> pop_files(pending).0.len() == 0,
        expand_stack(listing, rank, pending + entry_items(listing(d)).reverse()) == walk_dir(
            listing,
            rank,
            d,
        ) + expand_stack(listing, rank, pending),
        expand_stack(listing, rank, seq![WalkItem::Dir(root)]) == walk_dir(listing, rank, root@),
{
    lemma_pop_files_expand(listing, rank, pending);
    lemma_expand_stack_reversed(listing, rank, pending, entry_items(listing(d)));
    lemma_walk_entries_items(listing, rank, d, listing(d).len());
    assert(listing(d).take(listing(d).len() as int) =~= listing(d));
    let one = seq![WalkItem::Dir(root)];
    assert(one.drop_last() =~= Seq::<WalkItem>::empty());
    assert(one.last() == WalkItem::Dir(root));
    assert(expand_stack(listing, rank, Seq::<WalkItem>::empty()) == Seq::<String>::empty());
    assert(walk_dir(listing, rank, root@) + Seq::<String>::empty() =~= walk_dir(
        listing,
        rank,
        root@,
    ));
}

proof fn lemma_pop_files_expand(
    listing: spec_fn(Seq<char>) -> Seq<crate::models::FileEntry>,
    rank: spec_fn(Seq<char>) -> nat,
    pending: Seq<WalkItem>,
)
    ensures
        ({
            let (p, fs, top) = pop_files(pending);
            expand_stack(listing, rank, pending) == fs + match top {
                Some(dir) => walk_dir(listing, rank, dir@) + expand_stack(listing, rank, p),
                None => Seq::empty(),
            }
        }),
        pop_files(pending).2 is None ==> pop_files(pending).0.len() == 0,
    decreases pending.len(),
{
    if pending.len() > 0 {
        match pending.last() {
            WalkItem::Dir(d) => {
                assert(Seq::<String>::empty() + (walk_dir(listing, rank, d@) + expand_stack(
                    listing,
                    rank,
                    pending.drop_last(),
                )) =~= walk_dir(listing, rank, d@) + expand_stack(
                    listing,
                    rank,
                    pending.drop_last(),
                ));
            },
            WalkItem::File(f) => {
                lemma_pop_files_expand(listing, rank, pending.drop_last());
                let (p, fs, top) = pop_files(pending.drop_last());
                match top {
                    Some(dir) => {
                        assert(seq![f] + (fs + (walk_dir(listing, rank, dir@) + expand_stack(
                            listing,
                            rank,
                            p,
                        ))) =~= (seq![f] + fs) + (walk_dir(listing, rank, dir@) + expand_stack(
                            listing,
                            rank,
                            p,
                        )));
                    },
                    None => {
                        assert(seq![f] + (fs + Seq::<String>::empty()) =~= (seq![f] + fs)
                            + Seq::<String>::empty());
                    },
                }
            },
        }
    }
}

/// The error that ends a walk when a directory cannot be read.
pub fn read_dir_failure_message(detail: &str) -> (r: String)
    ensures
        r@ == "无法读取目录: "@ + detail@,
{
    let mut r = String::from_str("无法读取目录: ");
    r.append(detail);
    r
}

} // verus!
