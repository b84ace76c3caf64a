//! The decisions behind the application's commands: how directory listings
//! and indices are ordered, when indexing stops with an error, how work is
//! batched and reported, and how a search is bounded. The commands
//! themselves, which read and write files and call the embedding service,
//! run these.

use vstd::prelude::*;
use vstd::string::StringExecFns;
use crate::constants::{is_ignored_dir, ignored_dir, BATCH_SIZE};
use crate::models::{placeholder_api_key, Config, FileEntry, IndexMetadata};
use crate::ordering::{listing_sort, stable_sort_of, stably_arranged, ListingOrder};
use crate::paths::{file_name_of, path_file_name};
use crate::text::{
    chars_of, concat_all, decimal, digit_char, lemma_concat_all_lt, lemma_concat_all_take, lemma_four_digits,
    lemma_four_digits_lt, lemma_text_lt_irreflexive, lemma_text_lt_total,
    lemma_text_lt_transitive, lemma_two_digits, lemma_two_digits_lt, push_decimal,
    push_zero_padded, text_eq, text_less, text_lt, trim, trim_chars, zero_padded,
};

verus! {

// ---------------------------------------------------------------------------
// Directory listings
// ---------------------------------------------------------------------------

/// Folders come before files; within each, names in lexicographic order.
impl ListingOrder for FileEntry {
    open spec fn precedes(self, other: Self) -> bool {
        (self.is_folder && !other.is_folder) || (self.is_folder == other.is_folder && text_lt(
            self.name@,
            other.name@,
        ))
    }

    fn goes_before(&self, other: &Self) -> (r: bool) {
        if self.is_folder != other.is_folder {
            self.is_folder
        } else {
            text_less(self.name.as_str(), other.name.as_str())
        }
    }

    proof fn lemma_irreflexive(a: Self) {
        lemma_text_lt_irreflexive(a.name@);
    }

    proof fn lemma_transitive(a: Self, b: Self, c: Self) {
        if a.is_folder == b.is_folder && b.is_folder == c.is_folder {
            lemma_text_lt_transitive(a.name@, b.name@, c.name@);
        }
    }

    proof fn lemma_split(a: Self, b: Self, c: Self) {
        if a.is_folder == b.is_folder && b.is_folder == c.is_folder {
            lemma_text_lt_total(a.name@, c.name@);
            if text_lt(c.name@, a.name@) {
                lemma_text_lt_transitive(c.name@, a.name@, b.name@);
            }
        }
    }
}

/// An entry is listed unless it is `.` or `..`, or an ignored directory.
pub open spec fn listed_entry(e: FileEntry) -> bool {
    !(e.name@ == "."@ || e.name@ == ".."@) && !(e.is_folder && is_ignored_dir(e.name@))
}

/// The entries of `s` that are listed, in their order.
pub open spec fn listed_entries(s: Seq<FileEntry>) -> Seq<FileEntry>
    decreases s.len(),
{
    if s.len() == 0 {
        Seq::empty()
    } else {
        let rest = listed_entries(s.drop_last());
        if listed_entry(s.last()) {
            rest.push(s.last())
        } else {
            rest
        }
    }
}

/// The listing of a directory with the given entries: the listed ones,
/// folders first, each group by name, entries that compare equal in the
/// order they were read.
pub fn arrange_directory_entries(entries: Vec<FileEntry>) -> (r: Vec<FileEntry>)
    ensures
        stable_sort_of(r@, listed_entries(entries@)),
{
    let ghost s = entries@;
    let mut kept: Vec<FileEntry> = Vec::new();
    let mut rest = entries;
    let n = rest.len();
    let mut i: usize = 0;
    while i < n
        invariant
            n == s.len(),
            i <= n,
            rest@ == s.skip(i as int),
            kept@ == listed_entries(s.take(i as int)),
        decreases n - i,
    {
        assert(rest@[0] == s[i as int]);
        let e = rest.remove(0);
        assert(rest@ =~= s.skip(i + 1));
        proof {
            assert(s.take(i + 1).drop_last() =~= s.take(i as int));
            assert(s.take(i + 1).last() == e);
        }
        let dots = text_eq(e.name.as_str(), ".") || text_eq(e.name.as_str(), "..");
        let ignored = e.is_folder && ignored_dir(e.name.as_str());
        if !dots && !ignored {
            kept.push(e);
        }
        i = i + 1;
    }
    assert(s.take(n as int) =~= s);
    listing_sort(kept)
}

proof fn lemma_listed_entries_are_listed(s: Seq<FileEntry>)
    ensures
        forall|k: int|
            0 <= k < listed_entries(s).len() ==> listed_entry(#[trigger] listed_entries(s)[k]),
        listed_entries(s).len() <= s.len(),
    decreases s.len(),
{
    if s.len() > 0 {
        lemma_listed_entries_are_listed(s.drop_last());
        let rest = listed_entries(s.drop_last());
        let all = listed_entries(s);
        assert forall|k: int| 0 <= k < all.len() implies listed_entry(#[trigger] all[k]) by {
            if k < rest.len() {
                assert(all[k] == rest[k]);
            }
        }
    }
}

/// A directory listing holds no `.`, `..` or ignored folder; folders come
/// before files; and among folders, and among files, names are in
/// lexicographic order (the order of `String`'s `Ord`).
pub proof fn lemma_directory_listing_order(entries: Seq<FileEntry>, r: Seq<FileEntry>)
    requires
        stable_sort_of(r, listed_entries(entries)),
    ensures
        forall|k: int|
            0 <= k < r.len() ==> {
                let e = #[trigger] r[k];
                &&& e.name@ != "."@
                &&& e.name@ != ".."@
                &&& !(e.is_folder && is_ignored_dir(e.name@))
            },
        forall|i: int, j: int|
            0 <= i < j < r.len() ==> (#[trigger] r[i]).is_folder || !(#[trigger] r[j]).is_folder,
        forall|i: int, j: int|
            0 <= i < j < r.len() && (#[trigger] r[i]).is_folder == (#[trigger] r[j]).is_folder
                ==> !text_lt(r[j].name@, r[i].name@),
{
    let s = listed_entries(entries);
    let perm = choose|perm: Seq<int>| stably_arranged(r, s, perm);
    lemma_listed_entries_are_listed(entries);
    assert forall|k: int| 0 <= k < r.len() implies {
        let e = #[trigger] r[k];
        &&& e.name@ != "."@
        &&& e.name@ != ".."@
        &&& !(e.is_folder && is_ignored_dir(e.name@))
    } by {
        assert(r[k] == s[perm[k]]);
        assert(listed_entry(s[perm[k]]));
    }
    assert forall|i: int, j: int| 0 <= i < j < r.len() implies (#[trigger] r[i]).is_folder
        || !(#[trigger] r[j]).is_folder by {
        assert(!r[j].precedes(r[i]));
    }
    assert forall|i: int, j: int|
        0 <= i < j < r.len() && (#[trigger] r[i]).is_folder == (#[trigger] r[j]).is_folder
            implies !text_lt(r[j].name@, r[i].name@) by {
        assert(!r[j].precedes(r[i]));
    }
}

/// Why a path cannot be listed: it does not exist, or it is not a directory.
pub fn check_directory(found: bool, is_dir: bool) -> (r: Result<(), String>)
    ensures
        !found ==> (r matches Err(m) && m@ == "目录不存在"@),
        found && !is_dir ==> (r matches Err(m) && m@ == "路径不是目录"@),
        found && is_dir ==> r is Ok,
{
    if !found {
        Err(String::from_str("目录不存在"))
    } else if !is_dir {
        Err(String::from_str("路径不是目录"))
    } else {
        Ok(())
    }
}

/// The drive letters a Windows machine may have, `A:` to `Z:`, each with its
/// root path; the ones that exist are listed.
pub fn drive_candidates() -> (r: Vec<FileEntry>)
    ensures
        r@.len() == 26,
        forall|k: int|
            0 <= k < 26 ==> {
                let letter = (65 + k) as char;
                &&& (#[trigger] r@[k]).name@ == seq![letter, ':']
                &&& r@[k].path@ == seq![letter, ':', '\\']
                &&& r@[k].is_folder
            },
{
    let mut r: Vec<FileEntry> = Vec::new();
    let mut k: u8 = 0;
    while k < 26
        invariant
            k <= 26,
            r@.len() == k,
            forall|j: int|
                0 <= j < k ==> {
                    let letter = (65 + j) as char;
                    &&& (#[trigger] r@[j]).name@ == seq![letter, ':']
                    &&& r@[j].path@ == seq![letter, ':', '\\']
                    &&& r@[j].is_folder
                },
        decreases 26 - k,
    {
        let letter = (65 + k) as char;
        let mut name = String::new();
        name.push(letter);
        name.push(':');
        let mut path = String::new();
        path.push(letter);
        path.push(':');
        path.push('\\');
        assert(name@ =~= seq![letter, ':']);
        assert(path@ =~= seq![letter, ':', '\\']);
        r.push(FileEntry { name, path, is_folder: true });
        k = k + 1;
    }
    r
}

/// The single root of a Unix-like machine.
pub fn unix_root() -> (r: Vec<FileEntry>)
    ensures
        r@.len() == 1,
        r@[0].name@ == "/"@,
        r@[0].path@ == "/"@,
        r@[0].is_folder,
{
    let mut r = Vec::new();
    r.push(FileEntry { name: String::from_str("/"), path: String::from_str("/"), is_folder: true });
    r
}

// ---------------------------------------------------------------------------
// Indices
// ---------------------------------------------------------------------------

/// Newer indices first (by the creation time text, which sorts by time).
impl ListingOrder for IndexMetadata {
    open spec fn precedes(self, other: Self) -> bool {
        text_lt(other.created_at@, self.created_at@)
    }

    fn goes_before(&self, other: &Self) -> (r: bool) {
        text_less(other.created_at.as_str(), self.created_at.as_str())
    }

    proof fn lemma_irreflexive(a: Self) {
        lemma_text_lt_irreflexive(a.created_at@);
    }

    proof fn lemma_transitive(a: Self, b: Self, c: Self) {
        lemma_text_lt_transitive(c.created_at@, b.created_at@, a.created_at@);
    }

    proof fn lemma_split(a: Self, b: Self, c: Self) {
        lemma_text_lt_total(a.created_at@, c.created_at@);
        if text_lt(a.created_at@, c.created_at@) {
            lemma_text_lt_transitive(b.created_at@, a.created_at@, c.created_at@);
        }
    }
}

/// The known indices, most recently created first; indices created at the
/// same time keep the order they were found in.
pub fn newest_first(indices: Vec<IndexMetadata>) -> (r: Vec<IndexMetadata>)
    ensures
        stable_sort_of(r@, indices@),
{
    listing_sort(indices)
}

/// In the list of indices, no index comes after one whose creation time
/// text is earlier (in `String`'s order, over the whole text).
pub proof fn lemma_indices_newest_first(indices: Seq<IndexMetadata>, r: Seq<IndexMetadata>)
    requires
        stable_sort_of(r, indices),
    ensures
        forall|i: int, j: int|
            0 <= i < j < r.len() ==> !text_lt(
                (#[trigger] r[i]).created_at@,
                (#[trigger] r[j]).created_at@,
            ),
{
    let perm = choose|perm: Seq<int>| stably_arranged(r, indices, perm);
    assert forall|i: int, j: int| 0 <= i < j < r.len() implies !text_lt(
        (#[trigger] r[i]).created_at@,
        (#[trigger] r[j]).created_at@,
    ) by {
        assert(!r[j].precedes(r[i]));
    }
}

/// Indices whose creation time texts were made from times `a` and `b`
/// (with four-digit years) are listed later-created first: if the one made
/// at `a` stands before the one made at `b`, then `b` is not after `a`.
pub proof fn lemma_indices_listed_by_time(
    indices: Seq<IndexMetadata>,
    r: Seq<IndexMetadata>,
    i: int,
    j: int,
    a: nat,
    b: nat,
)
    requires
        stable_sort_of(r, indices),
        0 <= i < j < r.len(),
        r[i].created_at@ == timestamp_text(a),
        r[j].created_at@ == timestamp_text(b),
        a < four_digit_year_limit(),
        b < four_digit_year_limit(),
    ensures
        b <= a,
{
    lemma_indices_newest_first(indices, r);
    if a < b {
        lemma_timestamp_order(a, b);
        assert(!text_lt(r[i].created_at@, r[j].created_at@));
    }
}

// ---------------------------------------------------------------------------
// Time stamps
// ---------------------------------------------------------------------------

/// Times below this many seconds after the epoch have a four-digit year.
pub open spec fn four_digit_year_limit() -> nat {
    253_234_080_000
}

/// The year of the time `secs` seconds after the Unix epoch, counting every
/// year as 365 days.
pub open spec fn timestamp_year(secs: nat) -> nat {
    secs / 86400 / 365 + 1970
}

/// The month of that time, counting every month as 30 days (it can reach 13).
pub open spec fn timestamp_month(secs: nat) -> nat {
    secs / 86400 % 365 / 30 + 1
}

/// The day of the month of that time.
pub open spec fn timestamp_day(secs: nat) -> nat {
    secs / 86400 % 365 % 30 + 1
}

pub open spec fn timestamp_hour(secs: nat) -> nat {
    secs % 86400 / 3600
}

pub open spec fn timestamp_minute(secs: nat) -> nat {
    secs % 3600 / 60
}

pub open spec fn timestamp_second(secs: nat) -> nat {
    secs % 60
}

/// The pieces of the creation time text for `secs` seconds after the Unix
/// epoch: `YYYY-MM-DD hh:mm:ss`.
pub open spec fn timestamp_fields(secs: nat) -> Seq<Seq<char>> {
    seq![
        zero_padded(timestamp_year(secs), 4),
        seq!['-'],
        zero_padded(timestamp_month(secs), 2),
        seq!['-'],
        zero_padded(timestamp_day(secs), 2),
        seq![' '],
        zero_padded(timestamp_hour(secs), 2),
        seq![':'],
        zero_padded(timestamp_minute(secs), 2),
        seq![':'],
        zero_padded(timestamp_second(secs), 2),
    ]
}

/// The creation time text for `secs` seconds after the Unix epoch.
pub open spec fn timestamp_text(secs: nat) -> Seq<char> {
    concat_all(timestamp_fields(secs))
}

proof fn lemma_year_bound(secs: nat)
    by (nonlinear_arith)
    requires
        secs < four_digit_year_limit(),
    ensures
        secs / 86400 / 365 + 1970 < 10000,
{
}

#[verifier::rlimit(30)]
proof fn lemma_timestamp_fields(secs: nat)
    requires
        secs < four_digit_year_limit(),
    ensures
        timestamp_fields(secs).len() == 11,
        timestamp_fields(secs)[0].len() == 4,
        forall|i: int| 1 <= i < 11 && i % 2 == 1 ==> #[trigger] timestamp_fields(secs)[i].len() == 1,
        forall|i: int| 2 <= i < 11 && i % 2 == 0 ==> #[trigger] timestamp_fields(secs)[i].len() == 2,
{
    let f = timestamp_fields(secs);
    let days = secs / 86400;
    let remaining_days = days % 365;
    lemma_year_bound(secs);
    lemma_four_digits((days / 365 + 1970) as nat);
    lemma_two_digits(remaining_days / 30 + 1);
    lemma_two_digits(remaining_days % 30 + 1);
    lemma_two_digits((secs % 86400) / 3600);
    lemma_two_digits((secs % 3600) / 60);
    lemma_two_digits(secs % 60);
}

proof fn lemma_div_order(a: nat, b: nat, m: nat)
    by (nonlinear_arith)
    requires
        a < b,
        m > 0,
    ensures
        a / m < b / m || (a / m == b / m && a % m < b % m),
{
}

proof fn lemma_day_time_mods(a: nat)
    ensures
        (a % 86400) % 3600 == a % 3600,
        ((a % 86400) % 3600) % 60 == a % 60,
        (a % 3600) % 60 == a % 60,
{
    vstd::arithmetic::div_mod::lemma_mod_mod(a as int, 3600, 24);
    vstd::arithmetic::div_mod::lemma_mod_mod(a as int, 60, 60);
}

proof fn lemma_fields_equal_lengths(a: nat, b: nat)
    requires
        a < four_digit_year_limit(),
        b < four_digit_year_limit(),
    ensures
        timestamp_fields(a).len() == 11,
        timestamp_fields(b).len() == 11,
        forall|i: int|
            0 <= i < 11 ==> #[trigger] timestamp_fields(a)[i].len() == timestamp_fields(b)[i].len(),
{
    lemma_timestamp_fields(a);
    lemma_timestamp_fields(b);
    assert forall|i: int| 0 <= i < 11 implies #[trigger] timestamp_fields(a)[i].len()
        == timestamp_fields(b)[i].len() by {
        if i == 0 {
        } else if i % 2 == 1 {
        } else {
        }
    }
}

/// Creation time texts sort as the times do (for times with four-digit
/// years, which `newest_first` relies on): a later time gives a text that
/// comes later.
#[verifier::rlimit(40)]
pub proof fn lemma_timestamp_order(a: nat, b: nat)
    requires
        a < b < four_digit_year_limit(),
    ensures
        text_lt(timestamp_text(a), timestamp_text(b)),
{
    lemma_fields_equal_lengths(a, b);
    lemma_year_bound(a);
    lemma_year_bound(b);
    let fa = timestamp_fields(a);
    let fb = timestamp_fields(b);
    lemma_div_order(a, b, 86400);
    let da = a / 86400;
    let db = b / 86400;
    if da < db {
        lemma_div_order(da, db, 365);
        let ra = da % 365;
        let rb = db % 365;
        if da / 365 < db / 365 {
            lemma_four_digits_lt(da / 365 + 1970, db / 365 + 1970);
            lemma_concat_all_lt(fa, fb, 0);
        } else {
            lemma_div_order(ra, rb, 30);
            if ra / 30 < rb / 30 {
                lemma_two_digits_lt(ra / 30 + 1, rb / 30 + 1);
                lemma_concat_all_lt(fa, fb, 2);
            } else {
                lemma_two_digits_lt(ra % 30 + 1, rb % 30 + 1);
                lemma_concat_all_lt(fa, fb, 4);
            }
        }
    } else {
        let ta = a % 86400;
        let tb = b % 86400;
        lemma_day_time_mods(a);
        lemma_day_time_mods(b);
        lemma_div_order(ta, tb, 3600);
        if ta / 3600 < tb / 3600 {
            lemma_two_digits_lt(ta / 3600, tb / 3600);
            lemma_concat_all_lt(fa, fb, 6);
        } else {
            let ma = ta % 3600;
            let mb = tb % 3600;
            lemma_div_order(ma, mb, 60);
            if ma / 60 < mb / 60 {
                lemma_two_digits_lt(ma / 60, mb / 60);
                lemma_concat_all_lt(fa, fb, 8);
            } else {
                lemma_two_digits_lt(ma % 60, mb % 60);
                lemma_concat_all_lt(fa, fb, 10);
            }
        }
    }
}

proof fn lemma_timestamp_ranges(secs: nat)
    requires
        secs < four_digit_year_limit(),
    ensures
        1970 <= timestamp_year(secs) <= 9999,
        1 <= timestamp_month(secs) <= 13,
        1 <= timestamp_day(secs) <= 30,
        timestamp_hour(secs) <= 23,
        timestamp_minute(secs) <= 59,
        timestamp_second(secs) <= 59,
{
    lemma_year_bound(secs);
}

proof fn lemma_concat_eleven(fs: Seq<Seq<char>>)
    requires
        fs.len() == 11,
    ensures
        concat_all(fs) == fs[0] + fs[1] + fs[2] + fs[3] + fs[4] + fs[5] + fs[6] + fs[7] + fs[8]
            + fs[9] + fs[10],
{
    assert(fs.take(0) =~= Seq::<Seq<char>>::empty());
    lemma_concat_all_take(fs, 0);
    lemma_concat_all_take(fs, 1);
    lemma_concat_all_take(fs, 2);
    lemma_concat_all_take(fs, 3);
    lemma_concat_all_take(fs, 4);
    lemma_concat_all_take(fs, 5);
    lemma_concat_all_take(fs, 6);
    lemma_concat_all_take(fs, 7);
    lemma_concat_all_take(fs, 8);
    lemma_concat_all_take(fs, 9);
    lemma_concat_all_take(fs, 10);
    assert(fs.take(11) =~= fs);
    assert(Seq::<char>::empty() + fs[0] =~= fs[0]);
}

/// The two digits of a number below 100.
spec fn two_chars(n: nat) -> Seq<char> {
    seq![digit_char(n / 10), digit_char(n % 10)]
}

/// The creation time text, character by character.
spec fn timestamp_chars(secs: nat) -> Seq<char> {
    let y = timestamp_year(secs);
    seq![
        digit_char(y / 1000),
        digit_char((y / 100) % 10),
        digit_char((y / 10) % 10),
        digit_char(y % 10),
    ] + seq!['-'] + two_chars(timestamp_month(secs)) + seq!['-'] + two_chars(timestamp_day(secs))
        + seq![' '] + two_chars(timestamp_hour(secs)) + seq![':'] + two_chars(
        timestamp_minute(secs),
    ) + seq![':'] + two_chars(timestamp_second(secs))
}

proof fn lemma_timestamp_chars(secs: nat)
    requires
        secs < four_digit_year_limit(),
    ensures
        timestamp_text(secs) == timestamp_chars(secs),
{
    lemma_timestamp_ranges(secs);
    lemma_four_digits(timestamp_year(secs));
    lemma_two_digits(timestamp_month(secs));
    lemma_two_digits(timestamp_day(secs));
    lemma_two_digits(timestamp_hour(secs));
    lemma_two_digits(timestamp_minute(secs));
    lemma_two_digits(timestamp_second(secs));
    lemma_concat_eleven(timestamp_fields(secs));
}

/// The form of a creation time text (for times with four-digit years): 19
/// characters, `YYYY-MM-DD hh:mm:ss`, each place outside the separators a
/// decimal digit; the year is at least 1970, the month from 1 to 13, the day
/// from 1 to 30, the hour at most 23, and the minute and second at most 59.
pub proof fn lemma_timestamp_shape(secs: nat)
    requires
        secs < four_digit_year_limit(),
    ensures
        timestamp_text(secs).len() == 19,
        timestamp_text(secs)[4] == '-',
        timestamp_text(secs)[7] == '-',
        timestamp_text(secs)[10] == ' ',
        timestamp_text(secs)[13] == ':',
        timestamp_text(secs)[16] == ':',
        forall|i: int|
            0 <= i < 19 && i != 4 && i != 7 && i != 10 && i != 13 && i != 16 ==> '0'
                <= #[trigger] timestamp_text(secs)[i] <= '9',
        timestamp_text(secs).subrange(0, 4) == decimal(timestamp_year(secs)),
        timestamp_text(secs).subrange(5, 7) == zero_padded(timestamp_month(secs), 2),
        timestamp_text(secs).subrange(8, 10) == zero_padded(timestamp_day(secs), 2),
        timestamp_text(secs).subrange(11, 13) == zero_padded(timestamp_hour(secs), 2),
        timestamp_text(secs).subrange(14, 16) == zero_padded(timestamp_minute(secs), 2),
        timestamp_text(secs).subrange(17, 19) == zero_padded(timestamp_second(secs), 2),
        1970 <= timestamp_year(secs) <= 9999,
        1 <= timestamp_month(secs) <= 13,
        1 <= timestamp_day(secs) <= 30,
        timestamp_hour(secs) <= 23,
        timestamp_minute(secs) <= 59,
        timestamp_second(secs) <= 59,
{
    let y = timestamp_year(secs);
    lemma_timestamp_ranges(secs);
    lemma_timestamp_chars(secs);
    lemma_four_digits(y);
    assert(zero_padded(y, 4) == decimal(y));
    lemma_two_digits(timestamp_month(secs));
    lemma_two_digits(timestamp_day(secs));
    lemma_two_digits(timestamp_hour(secs));
    lemma_two_digits(timestamp_minute(secs));
    lemma_two_digits(timestamp_second(secs));
    let t = timestamp_text(secs);
    assert(t.len() == 19);
    assert(t.subrange(0, 4) =~= zero_padded(y, 4));
    assert(t.subrange(5, 7) =~= zero_padded(timestamp_month(secs), 2));
    assert(t.subrange(8, 10) =~= zero_padded(timestamp_day(secs), 2));
    assert(t.subrange(11, 13) =~= zero_padded(timestamp_hour(secs), 2));
    assert(t.subrange(14, 16) =~= zero_padded(timestamp_minute(secs), 2));
    assert(t.subrange(17, 19) =~= zero_padded(timestamp_second(secs), 2));
}

/// The creation time text for `secs` seconds after the Unix epoch.
#[verifier::rlimit(30)]
pub fn format_timestamp(secs: u64) -> (r: String)
    ensures
        r@ == timestamp_text(secs as nat),
{
    let days = secs / 86400;
    let years = days / 365 + 1970;
    let remaining_days = days % 365;
    let months = remaining_days / 30 + 1;
    let day = remaining_days % 30 + 1;
    let hours = (secs % 86400) / 3600;
    let minutes = (secs % 3600) / 60;
    let seconds = secs % 60;
    let ghost f = timestamp_fields(secs as nat);
    let mut r = String::new();
    assert(r@ =~= concat_all(f.take(0)));
    push_zero_padded(&mut r, years, 4);
    proof {
        lemma_concat_all_take(f, 0);
    }
    r.push('-');
    proof {
        lemma_concat_all_take(f, 1);
    }
    push_zero_padded(&mut r, months, 2);
    proof {
        lemma_concat_all_take(f, 2);
    }
    r.push('-');
    proof {
        lemma_concat_all_take(f, 3);
    }
    push_zero_padded(&mut r, day, 2);
    proof {
        lemma_concat_all_take(f, 4);
    }
    r.push(' ');
    proof {
        lemma_concat_all_take(f, 5);
    }
    push_zero_padded(&mut r, hours, 2);
    proof {
        lemma_concat_all_take(f, 6);
    }
    r.push(':');
    proof {
        lemma_concat_all_take(f, 7);
    }
    push_zero_padded(&mut r, minutes, 2);
    proof {
        lemma_concat_all_take(f, 8);
    }
    r.push(':');
    proof {
        lemma_concat_all_take(f, 9);
    }
    push_zero_padded(&mut r, seconds, 2);
    proof {
        lemma_concat_all_take(f, 10);
        assert(f.take(11) =~= f);
    }
    r
}

/// `std::time::SystemTime`, carried through opaquely.
#[verifier::external_type_specification]
#[verifier::external_body]
pub struct ExSystemTime(std::time::SystemTime);

/// `SystemTime::now`: the current time of the system clock; nothing is
/// stated of it.
#[verifier::external_body]
fn system_now() -> (t: std::time::SystemTime) {
    std::time::SystemTime::now()
}

/// `SystemTime::duration_since(UNIX_EPOCH)`: None when `t` lies before the
/// epoch. Nothing is stated of the duration, which depends on the clock.
#[verifier::external_body]
fn since_epoch(t: &std::time::SystemTime) -> (r: Option<core::time::Duration>) {
    t.duration_since(std::time::UNIX_EPOCH).ok()
}

/// `Duration::as_secs`: the whole seconds of `d`; nothing is stated of them.
#[verifier::external_body]
fn whole_seconds(d: &core::time::Duration) -> (r: u64) {
    d.as_secs()
}

/// The creation time text for now (a clock before the epoch counts as 0).
pub fn get_timestamp() -> (r: String)
    ensures
        exists|secs: u64| r@ == #[trigger] timestamp_text(secs as nat),
{
    let now = system_now();
    let secs = match since_epoch(&now) {
        Some(d) => whole_seconds(&d),
        None => 0,
    };
    format_timestamp(secs)
}

// ---------------------------------------------------------------------------
// Indexing a folder
// ---------------------------------------------------------------------------

/// Indexing needs an API key other than the placeholder.
pub fn check_api_key(config: &Config) -> (r: Result<(), String>)
    ensures
        config.api_key@ == placeholder_api_key() ==> (r matches Err(m) && m@ == "请先在配置文件中设置 API Key"@),
        config.api_key@ != placeholder_api_key() ==> r is Ok,
{
    if text_eq(config.api_key.as_str(), "YOUR_API_KEY") {
        Err(String::from_str("请先在配置文件中设置 API Key"))
    } else {
        Ok(())
    }
}

/// The folder to index must exist and be a directory.
pub fn check_folder(found: bool, is_dir: bool) -> (r: Result<(), String>)
    ensures
        !(found && is_dir) ==> (r matches Err(m) && m@ == "无效的文件夹路径"@),
        found && is_dir ==> r is Ok,
{
    if !found || !is_dir {
        Err(String::from_str("无效的文件夹路径"))
    } else {
        Ok(())
    }
}

/// A project is named after its folder's last component, or `unknown`.
pub open spec fn project_name_of(folder: Seq<char>) -> Seq<char> {
    match file_name_of(folder) {
        Some(name) => name,
        None => "unknown"@,
    }
}

/// The name of the project in the folder `folder_path`.
pub fn project_name(folder_path: &str) -> (r: String)
    ensures
        r@ == project_name_of(folder_path@),
{
    match path_file_name(folder_path) {
        Some(name) => name,
        None => String::from_str("unknown"),
    }
}

/// Indexing stops when no file was found.
pub fn check_files_found(total_files: usize) -> (r: Result<(), String>)
    ensures
        total_files == 0 ==> (r matches Err(m) && m@ == "未找到任何代码文件"@),
        total_files > 0 ==> r is Ok,
{
    if total_files == 0 {
        Err(String::from_str("未找到任何代码文件"))
    } else {
        Ok(())
    }
}

/// Indexing stops when the files gave no chunk.
pub fn check_chunks_made(total_chunks: usize) -> (r: Result<(), String>)
    ensures
        total_chunks == 0 ==> (r matches Err(m) && m@ == "无法生成代码块"@),
        total_chunks > 0 ==> r is Ok,
{
    if total_chunks == 0 {
        Err(String::from_str("无法生成代码块"))
    } else {
        Ok(())
    }
}

/// Chunking progress is reported every 50 files and after the last one.
pub fn reports_chunking_progress(file_count: usize, total_files: usize) -> (r: bool)
    ensures
        r == (file_count % 50 == 0 || file_count == total_files),
{
    file_count % 50 == 0 || file_count == total_files
}

/// `"切分代码 (count/total)"`.
pub fn chunking_message(file_count: usize, total_files: usize) -> (r: String)
    ensures
        r@ == "切分代码 ("@ + decimal(file_count as nat) + "/"@ + decimal(total_files as nat)
            + ")"@,
{
    let mut r = String::from_str("切分代码 (");
    push_decimal(&mut r, file_count as u64);
    r.append("/");
    push_decimal(&mut r, total_files as u64);
    r.append(")");
    r
}

/// The chunk ranges `[start, end)` of the embedding batches: `BATCH_SIZE`
/// chunks each, the last one possibly shorter.
pub open spec fn batch_range(total: nat, k: int) -> (int, int) {
    let start = k * BATCH_SIZE;
    (start, if start + BATCH_SIZE < total {
        start + BATCH_SIZE
    } else {
        total as int
    })
}

/// The end of the batch that starts at chunk `start` of `total`.
pub fn batch_end(start: usize, total: usize) -> (r: usize)
    requires
        start % BATCH_SIZE == 0,
        start < total,
    ensures
        r == batch_range(total as nat, (start / BATCH_SIZE) as int).1,
{
    if total - start > BATCH_SIZE {
        start + BATCH_SIZE
    } else {
        total
    }
}

/// Embedding progress is reported for batches that start at a multiple of 50
/// and for the last one.
pub fn reports_batch_progress(start: usize, end: usize, total: usize) -> (r: bool)
    ensures
        r == (start % 50 == 0 || end == total),
{
    start % 50 == 0 || end == total
}

/// `"第 n 批"`, the batch that starts at chunk `start` counted from 1.
pub fn batch_label(start: usize) -> (r: String)
    ensures
        r@ == "第 "@ + decimal((start / BATCH_SIZE + 1) as nat) + " 批"@,
{
    let mut r = String::from_str("第 ");
    push_decimal(&mut r, (start / BATCH_SIZE) as u64 + 1);
    r.append(" 批");
    r
}

/// `"生成嵌入向量 (end/total)"`.
pub fn embedding_progress_message(end: usize, total: usize) -> (r: String)
    ensures
        r@ == "生成嵌入向量 ("@ + decimal(end as nat) + "/"@ + decimal(total as nat) + ")"@,
{
    let mut r = String::from_str("生成嵌入向量 (");
    push_decimal(&mut r, end as u64);
    r.append("/");
    push_decimal(&mut r, total as u64);
    r.append(")");
    r
}

/// `"准备生成 n 个嵌入向量..."`.
pub fn embedding_start_message(total_chunks: usize) -> (r: String)
    ensures
        r@ == "准备生成 "@ + decimal(total_chunks as nat) + " 个嵌入向量..."@,
{
    let mut r = String::from_str("准备生成 ");
    push_decimal(&mut r, total_chunks as u64);
    r.append(" 个嵌入向量...");
    r
}

/// The error that ends indexing when the embedding of a chunk fails.
pub fn embedding_failure_message(relative_path: &str, error: &str) -> (r: String)
    ensures
        r@ == "Embedding API 调用失败 (文件: "@ + relative_path@ + "):\n\n"@ + error@
            + "\n\n请检查 API Key 是否正确，或网络连接是否正常。"@,
{
    let mut r = String::from_str("Embedding API 调用失败 (文件: ");
    r.append(relative_path);
    r.append("):\n\n");
    r.append(error);
    r.append("\n\n请检查 API Key 是否正确，或网络连接是否正常。");
    r
}

/// The dimension recorded for an index: that of the first embedding, or 1536
/// when there is none.
pub fn embedding_dim(embeddings: &Vec<Vec<u32>>) -> (r: usize)
    ensures
        embeddings@.len() > 0 ==> r == embeddings@[0]@.len(),
        embeddings@.len() == 0 ==> r == 1536,
{
    if embeddings.len() > 0 {
        embeddings[0].len()
    } else {
        1536
    }
}

/// `"索引完成! f 个文件, c 个代码块"`.
pub fn completion_message(total_files: usize, total_chunks: usize) -> (r: String)
    ensures
        r@ == "索引完成! "@ + decimal(total_files as nat) + " 个文件, "@ + decimal(
            total_chunks as nat,
        ) + " 个代码块"@,
{
    let mut r = String::from_str("索引完成! ");
    push_decimal(&mut r, total_files as u64);
    r.append(" 个文件, ");
    push_decimal(&mut r, total_chunks as u64);
    r.append(" 个代码块");
    r
}

/// The report that indexing returns: where the index was saved, and its counts.
pub fn index_summary(index_path: &str, total_files: usize, total_chunks: usize, dim: usize) -> (r:
    String)
    ensures
        r@ == "索引已保存到: "@ + index_path@ + "\n\n统计:\n- 文件数: "@ + decimal(
            total_files as nat,
        ) + "\n- 代码块: "@ + decimal(total_chunks as nat) + "\n- 向量维度: "@ + decimal(
            dim as nat,
        ),
{
    let mut r = String::from_str("索引已保存到: ");
    r.append(index_path);
    r.append("\n\n统计:\n- 文件数: ");
    push_decimal(&mut r, total_files as u64);
    r.append("\n- 代码块: ");
    push_decimal(&mut r, total_chunks as u64);
    r.append("\n- 向量维度: ");
    push_decimal(&mut r, dim as u64);
    r
}

// ---------------------------------------------------------------------------
// Searching
// ---------------------------------------------------------------------------

/// A query that is empty once trimmed is refused.
pub fn check_query(query: &str) -> (r: Result<(), String>)
    ensures
        trim(query@).len() == 0 ==> (r matches Err(m) && m@ == "查询不能为空"@),
        trim(query@).len() > 0 ==> r is Ok,
{
    let q = chars_of(query);
    let t = trim_chars(q.as_slice());
    if t.len() == 0 {
        Err(String::from_str("查询不能为空"))
    } else {
        Ok(())
    }
}

/// The error for a project without an index.
pub fn missing_index_message(project_name: &str) -> (r: String)
    ensures
        r@ == "项目 '"@ + project_name@ + "' 的索引不存在"@,
{
    let mut r = String::from_str("项目 '");
    r.append(project_name);
    r.append("' 的索引不存在");
    r
}

/// How many results a search returns: `top_k` (10 when not given), at most
/// as many as there are chunks.
pub fn result_count(top_k: Option<usize>, available: usize) -> (r: usize)
    ensures
        r == match top_k {
            Some(k) => if k < available {
                k
            } else {
                available
            },
            None => if 10 < available {
                10
            } else {
                available
            },
        },
{
    let k = match top_k {
        Some(k) => k,
        None => 10,
    };
    if k < available {
        k
    } else {
        available
    }
}

} // verus!
