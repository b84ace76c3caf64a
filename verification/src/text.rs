//! Character-level text handling: the views of `str` and `String` are
//! sequences of `char`, and every operation here is stated over them.

use vstd::prelude::*;
use vstd::string::StringExecFns;

verus! {

/// `String::push`: appends the character `ch` to `s`, as its documentation says.
pub assume_specification[ String::push ](s: &mut String, ch: char)
    ensures
        final(s)@ == old(s)@.push(ch),
;

/// Whether the two strings hold the same characters.
pub fn text_eq(a: &str, b: &str) -> (r: bool)
    ensures
        r == (a@ == b@),
{
    let x = chars_of(a);
    let y = chars_of(b);
    if x.len() != y.len() {
        return false;
    }
    let mut i: usize = 0;
    while i < x.len()
        invariant
            x@ == a@,
            y@ == b@,
            x@.len() == y@.len(),
            i <= x@.len(),
            x@.take(i as int) == y@.take(i as int),
        decreases x@.len() - i,
    {
        if x[i] != y[i] {
            assert(a@[i as int] != b@[i as int]);
            return false;
        }
        assert(x@.take(i + 1) == x@.take(i as int).push(x@[i as int]));
        assert(y@.take(i + 1) == y@.take(i as int).push(y@[i as int]));
        i = i + 1;
    }
    assert(x@.take(x@.len() as int) == x@);
    assert(y@.take(y@.len() as int) == y@);
    true
}

/// The characters of a string slice, in order.
pub fn chars_of(s: &str) -> (v: Vec<char>)
    ensures
        v@ == s@,
{
    broadcast use vstd::string::group_string_axioms;

    let mut v: Vec<char> = Vec::new();
    for c in it: s.chars()
        invariant
            v@ == it.seq().take(it.index() as int),
            it.seq() == s@,
    {
        v.push(c);
    }
    v
}

/// A string made of the given characters.
pub fn string_of(v: &[char]) -> (s: String)
    ensures
        s@ == v@,
{
    let mut s = String::new();
    let mut i: usize = 0;
    while i < v.len()
        invariant
            i <= v@.len(),
            s@ == v@.take(i as int),
        decreases v@.len() - i,
    {
        s.push(v[i]);
        i = i + 1;
        assert(v@.take(i as int) == v@.take((i - 1) as int).push(v@[i - 1]));
    }
    assert(v@.take(v@.len() as int) == v@);
    s
}

/// Appends the characters of `v` to `out`.
pub fn push_chars(out: &mut String, v: &[char])
    ensures
        final(out)@ == old(out)@ + v@,
{
    let mut i: usize = 0;
    while i < v.len()
        invariant
            i <= v@.len(),
            out@ == old(out)@ + v@.take(i as int),
        decreases v@.len() - i,
    {
        out.push(v[i]);
        i = i + 1;
        assert(v@.take(i as int) == v@.take((i - 1) as int).push(v@[i - 1]));
    }
    assert(v@.take(v@.len() as int) == v@);
}

// ---------------------------------------------------------------------------
// Whitespace and trimming
// ---------------------------------------------------------------------------

/// The Unicode `White_Space` property, which `char::is_whitespace` and
/// `str::trim` go by.
pub open spec fn is_white_space(c: char) -> bool {
    let u = c as u32;
    ||| 0x09 <= u <= 0x0d
    ||| u == 0x20
    ||| u == 0x85
    ||| u == 0xa0
    ||| u == 0x1680
    ||| 0x2000 <= u <= 0x200a
    ||| u == 0x2028
    ||| u == 0x2029
    ||| u == 0x202f
    ||| u == 0x205f
    ||| u == 0x3000
}

/// `s` without its leading whitespace.
pub open spec fn trim_start(s: Seq<char>) -> Seq<char>
    decreases s.len(),
{
    if s.len() > 0 && is_white_space(s[0]) {
        trim_start(s.drop_first())
    } else {
        s
    }
}

/// `s` without its trailing whitespace.
pub open spec fn trim_end(s: Seq<char>) -> Seq<char>
    decreases s.len(),
{
    if s.len() > 0 && is_white_space(s.last()) {
        trim_end(s.drop_last())
    } else {
        s
    }
}

/// `s` without leading and trailing whitespace, as `str::trim` gives it.
pub open spec fn trim(s: Seq<char>) -> Seq<char> {
    trim_end(trim_start(s))
}

proof fn lemma_trim_start_clean(s: Seq<char>)
    ensures
        trim_start(s).len() == 0 || !is_white_space(trim_start(s)[0]),
    decreases s.len(),
{
    if s.len() > 0 && is_white_space(s[0]) {
        lemma_trim_start_clean(s.drop_first());
    }
}

proof fn lemma_trim_end_clean(s: Seq<char>)
    ensures
        trim_end(s).len() == 0 || !is_white_space(trim_end(s).last()),
        trim_end(s).len() <= s.len(),
        trim_end(s) == s.take(trim_end(s).len() as int),
    decreases s.len(),
{
    if s.len() > 0 && is_white_space(s.last()) {
        lemma_trim_end_clean(s.drop_last());
        let t = trim_end(s.drop_last());
        assert(s.drop_last().take(t.len() as int) =~= s.take(t.len() as int));
    } else {
        assert(s.take(s.len() as int) =~= s);
    }
}

/// Trimming twice is trimming once.
pub proof fn lemma_trim_idempotent(s: Seq<char>)
    ensures
        trim(trim(s)) == trim(s),
{
    let u = trim_start(s);
    let t = trim_end(u);
    lemma_trim_start_clean(s);
    lemma_trim_end_clean(u);
    if t.len() > 0 {
        assert(t == u.take(t.len() as int));
        assert(t[0] == u[0]);
    }
    assert(trim_start(t) == t);
}

proof fn lemma_trim_start_skips(s: Seq<char>)
    ensures
        trim_start(s).len() <= s.len(),
        trim_start(s) == s.skip(s.len() - trim_start(s).len()),
        forall|k: int| 0 <= k < s.len() - trim_start(s).len() ==> is_white_space(#[trigger] s[k]),
    decreases s.len(),
{
    if s.len() > 0 && is_white_space(s[0]) {
        let t = s.drop_first();
        lemma_trim_start_skips(t);
        assert(t.skip(t.len() - trim_start(t).len()) =~= s.skip(s.len() - trim_start(s).len()));
        assert forall|k: int| 0 <= k < s.len() - trim_start(s).len() implies is_white_space(
            #[trigger] s[k],
        ) by {
            if k > 0 {
                assert(s[k] == t[k - 1]);
            }
        }
    } else {
        assert(s.skip(0) =~= s);
    }
}

proof fn lemma_trim_end_takes(s: Seq<char>)
    ensures
        forall|k: int| trim_end(s).len() <= k < s.len() ==> is_white_space(#[trigger] s[k]),
    decreases s.len(),
{
    lemma_trim_end_clean(s);
    if s.len() > 0 && is_white_space(s.last()) {
        let t = s.drop_last();
        lemma_trim_end_takes(t);
        assert forall|k: int| trim_end(s).len() <= k < s.len() implies is_white_space(
            #[trigger] s[k],
        ) by {
            if k < t.len() {
                assert(s[k] == t[k]);
            }
        }
    }
}

/// Trimming removes whitespace from both ends and nothing else: the result
/// is the part of `s` from `start` to `end`, everything before `start` and
/// from `end` on is whitespace, and the result neither starts nor ends with
/// whitespace.
pub proof fn lemma_trim_removes_outer_whitespace(s: Seq<char>)
    ensures
        exists|start: int, end: int|
            {
                &&& 0 <= start <= end <= s.len()
                &&& trim(s) == s.subrange(start, end)
                &&& forall|k: int| 0 <= k < start ==> is_white_space(#[trigger] s[k])
                &&& forall|k: int| end <= k < s.len() ==> is_white_space(#[trigger] s[k])
                &&& start < end ==> !is_white_space(s[start]) && !is_white_space(s[end - 1])
            },
{
    let u = trim_start(s);
    let start = s.len() - u.len();
    lemma_trim_start_skips(s);
    lemma_trim_start_clean(s);
    lemma_trim_end_clean(u);
    lemma_trim_end_takes(u);
    let t = trim_end(u);
    let end = start + t.len();
    assert(t =~= s.subrange(start, end));
    assert forall|k: int| end <= k < s.len() implies is_white_space(#[trigger] s[k]) by {
        assert(s[k] == u[k - start]);
    }
    if start < end {
        assert(s[start] == u[0]);
        assert(t[0] == u[0]);
    }
    assert({
        &&& 0 <= start <= end <= s.len()
        &&& trim(s) == s.subrange(start, end)
        &&& forall|k: int| 0 <= k < start ==> is_white_space(#[trigger] s[k])
        &&& forall|k: int| end <= k < s.len() ==> is_white_space(#[trigger] s[k])
        &&& start < end ==> !is_white_space(s[start]) && !is_white_space(s[end - 1])
    });
}

pub fn is_white_space_char(c: char) -> (r: bool)
    ensures
        r == is_white_space(c),
{
    let u = c as u32;
    (0x09 <= u && u <= 0x0d) || u == 0x20 || u == 0x85 || u == 0xa0 || u == 0x1680 || (0x2000
        <= u && u <= 0x200a) || u == 0x2028 || u == 0x2029 || u == 0x202f || u == 0x205f || u
        == 0x3000
}

/// The characters of `v` without leading and trailing whitespace.
pub fn trim_chars(v: &[char]) -> (r: Vec<char>)
    ensures
        r@ == trim(v@),
{
    let n = v.len();
    let mut lo: usize = 0;
    assert(v@.subrange(0, n as int) == v@);
    while lo < n && is_white_space_char(v[lo])
        invariant
            n == v@.len(),
            lo <= n,
            trim_start(v@) == trim_start(v@.subrange(lo as int, n as int)),
        decreases n - lo,
    {
        assert(v@.subrange(lo as int, n as int).drop_first() == v@.subrange(
            lo + 1,
            n as int,
        ));
        lo = lo + 1;
    }
    let mut hi: usize = n;
    while hi > lo && is_white_space_char(v[hi - 1])
        invariant
            n == v@.len(),
            lo <= hi <= n,
            trim_start(v@) == v@.subrange(lo as int, n as int),
            trim(v@) == trim_end(v@.subrange(lo as int, hi as int)),
        decreases hi - lo,
    {
        assert(v@.subrange(lo as int, hi as int).drop_last() == v@.subrange(
            lo as int,
            hi - 1,
        ));
        hi = hi - 1;
    }
    let mut r: Vec<char> = Vec::new();
    let mut i: usize = lo;
    while i < hi
        invariant
            lo <= i <= hi <= n,
            n == v@.len(),
            r@ == v@.subrange(lo as int, i as int),
        decreases hi - i,
    {
        r.push(v[i]);
        i = i + 1;
        assert(r@ == v@.subrange(lo as int, i as int));
    }
    r
}

// ---------------------------------------------------------------------------
// Lines
// ---------------------------------------------------------------------------

/// The pieces of `s` between `'\n'` characters (one more piece than there are
/// newlines; a piece may be empty).
pub open spec fn split_newlines(s: Seq<char>) -> Seq<Seq<char>>
    decreases s.len(),
{
    if s.len() == 0 {
        seq![Seq::empty()]
    } else {
        let p = split_newlines(s.drop_last());
        if s.last() == '\n' {
            p.push(Seq::empty())
        } else {
            p.update(p.len() - 1, p.last().push(s.last()))
        }
    }
}

/// A line that ended with `"\r\n"` loses its `'\r'`.
pub open spec fn strip_cr(l: Seq<char>) -> Seq<char> {
    if l.len() > 0 && l.last() == '\r' {
        l.drop_last()
    } else {
        l
    }
}

/// The lines of `s` as `str::lines` yields them: split at `'\n'`, a `'\r'`
/// just before a `'\n'` dropped, and no empty line after a final line ending.
pub open spec fn lines(s: Seq<char>) -> Seq<Seq<char>> {
    let parts = split_newlines(s);
    let n = parts.len();
    let ended = Seq::new((n - 1) as nat, |i: int| strip_cr(parts[i]));
    if parts[n - 1].len() == 0 {
        ended
    } else {
        ended.push(parts[n - 1])
    }
}

/// The lines of `v`, each as its characters.
#[verifier::rlimit(30)]
pub fn lines_of(v: &[char]) -> (r: Vec<Vec<char>>)
    ensures
        r@.len() == lines(v@).len(),
        forall|k: int| 0 <= k < r@.len() ==> #[trigger] r@[k]@ == lines(v@)[k],
{
    let n = v.len();
    let mut done: Vec<Vec<char>> = Vec::new();
    let mut cur: Vec<char> = Vec::new();
    let ghost mut raw: Seq<Seq<char>> = Seq::empty();
    let mut i: usize = 0;
    while i < n
        invariant
            n == v@.len(),
            i <= n,
            split_newlines(v@.take(i as int)) == raw.push(cur@),
            done@.len() == raw.len(),
            forall|k: int| 0 <= k < raw.len() ==> #[trigger] done@[k]@ == strip_cr(raw[k]),
        decreases n - i,
    {
        let c = v[i];
        proof {
            assert(v@.take(i + 1).drop_last() == v@.take(i as int));
            assert(v@.take(i + 1).last() == c);
        }
        if c == '\n' {
            let ghost piece = cur@;
            let mut line = cur;
            if line.len() > 0 && line[line.len() - 1] == '\r' {
                line.pop();
            }
            assert(line@ == strip_cr(piece));
            done.push(line);
            proof {
                raw = raw.push(piece);
            }
            cur = Vec::new();
        } else {
            let ghost prev = cur@;
            cur.push(c);
            proof {
                assert(raw.push(cur@) == raw.push(prev).update(raw.len() as int, cur@));
            }
        }
        i = i + 1;
        assert(forall|k: int| 0 <= k < raw.len() ==> #[trigger] done@[k]@ == strip_cr(raw[k]));
    }
    proof {
        assert(v@.take(n as int) == v@);
    }
    let ghost parts = raw.push(cur@);
    if cur.len() > 0 {
        done.push(cur);
    }
    proof {
        let l = lines(v@);
        assert(parts.len() - 1 == raw.len());
        if parts[parts.len() - 1].len() == 0 {
            assert(l.len() == raw.len());
        } else {
            assert(l.len() == raw.len() + 1);
            assert(l[raw.len() as int] == parts[raw.len() as int]);
        }
        assert forall|k: int| 0 <= k < done@.len() implies #[trigger] done@[k]@ == lines(v@)[k] by {
            if k < raw.len() {
                assert(parts[k] == raw[k]);
            }
        }
    }
    done
}

/// `s` holds no `'\n'`.
pub open spec fn no_newline(s: Seq<char>) -> bool {
    forall|i: int| 0 <= i < s.len() ==> s[i] != '\n'
}

proof fn lemma_split_newlines_no_newline(s: Seq<char>)
    ensures
        forall|k: int| 0 <= k < split_newlines(s).len() ==> no_newline(#[trigger] split_newlines(s)[k]),
        split_newlines(s).len() > 0,
    decreases s.len(),
{
    if s.len() > 0 {
        lemma_split_newlines_no_newline(s.drop_last());
        let p = split_newlines(s.drop_last());
        let q = split_newlines(s);
        assert forall|k: int| 0 <= k < q.len() implies no_newline(#[trigger] q[k]) by {
            if k < p.len() {
                assert(no_newline(p[k]));
            }
        }
    }
}

/// No line of `s` holds a `'\n'`.
pub proof fn lemma_lines_no_newline(s: Seq<char>)
    ensures
        forall|k: int| 0 <= k < lines(s).len() ==> no_newline(#[trigger] lines(s)[k]),
{
    lemma_split_newlines_no_newline(s);
    let parts = split_newlines(s);
    let l = lines(s);
    assert forall|k: int| 0 <= k < l.len() implies no_newline(#[trigger] l[k]) by {
        assert(no_newline(parts[k]));
    }
}

/// Trimming adds no `'\n'`.
pub proof fn lemma_trim_no_newline(s: Seq<char>)
    requires
        no_newline(s),
    ensures
        no_newline(trim(s)),
{
    lemma_trim_start_no_newline(s);
    lemma_trim_end_no_newline(trim_start(s));
}

proof fn lemma_trim_start_no_newline(s: Seq<char>)
    requires
        no_newline(s),
    ensures
        no_newline(trim_start(s)),
    decreases s.len(),
{
    if s.len() > 0 && is_white_space(s[0]) {
        assert(no_newline(s.drop_first())) by {
            assert forall|i: int| 0 <= i < s.drop_first().len() implies s.drop_first()[i] != '\n' by {
                assert(s.drop_first()[i] == s[i + 1]);
            }
        }
        lemma_trim_start_no_newline(s.drop_first());
    }
}

proof fn lemma_trim_end_no_newline(s: Seq<char>)
    requires
        no_newline(s),
    ensures
        no_newline(trim_end(s)),
    decreases s.len(),
{
    if s.len() > 0 && is_white_space(s.last()) {
        assert(no_newline(s.drop_last())) by {
            assert forall|i: int| 0 <= i < s.drop_last().len() implies s.drop_last()[i] != '\n' by {
                assert(s.drop_last()[i] == s[i]);
            }
        }
        lemma_trim_end_no_newline(s.drop_last());
    }
}

/// A text whose trimming leaves it unchanged and is not empty ends in a
/// character that is not whitespace (in particular, not `'\r'`).
pub proof fn lemma_trimmed_last(s: Seq<char>)
    requires
        trim(s) == s,
        s.len() > 0,
    ensures
        !is_white_space(s.last()),
{
    lemma_trim_end_clean(trim_start(s));
}

proof fn lemma_split_newlines_single(y: Seq<char>)
    requires
        no_newline(y),
    ensures
        split_newlines(y) == seq![y],
    decreases y.len(),
{
    if y.len() > 0 {
        assert(no_newline(y.drop_last())) by {
            assert forall|i: int| 0 <= i < y.drop_last().len() implies y.drop_last()[i] != '\n' by {
                assert(y.drop_last()[i] == y[i]);
            }
        }
        lemma_split_newlines_single(y.drop_last());
        assert(y.drop_last().push(y.last()) =~= y);
        assert(seq![y.drop_last()].update(0, y) =~= seq![y]);
    } else {
        assert(y =~= Seq::<char>::empty());
    }
}

proof fn lemma_split_newlines_append(x: Seq<char>, y: Seq<char>)
    requires
        no_newline(y),
    ensures
        split_newlines(x + seq!['\n'] + y) == split_newlines(x).push(y),
    decreases y.len(),
{
    let s = x + seq!['\n'] + y;
    if y.len() == 0 {
        assert(s.drop_last() =~= x);
        assert(y =~= Seq::<char>::empty());
        assert(s.last() == '\n');
    } else {
        let y0 = y.drop_last();
        assert(no_newline(y0)) by {
            assert forall|i: int| 0 <= i < y0.len() implies y0[i] != '\n' by {
                assert(y0[i] == y[i]);
            }
        }
        lemma_split_newlines_append(x, y0);
        assert(s.drop_last() =~= x + seq!['\n'] + y0);
        assert(s.last() == y.last());
        assert(y0.push(y.last()) =~= y);
        let p = split_newlines(x).push(y0);
        assert(p.update(p.len() - 1, y) =~= split_newlines(x).push(y));
    }
}

proof fn lemma_split_newlines_join(ls: Seq<Seq<char>>)
    requires
        ls.len() > 0,
        forall|k: int| 0 <= k < ls.len() ==> no_newline(#[trigger] ls[k]),
    ensures
        split_newlines(join(ls, seq!['\n'])) == ls,
    decreases ls.len(),
{
    if ls.len() == 1 {
        assert(no_newline(ls[0]));
        lemma_split_newlines_single(ls[0]);
        assert(ls =~= seq![ls[0]]);
    } else {
        let init = ls.drop_last();
        assert forall|k: int| 0 <= k < init.len() implies no_newline(#[trigger] init[k]) by {
            assert(init[k] == ls[k]);
        }
        lemma_split_newlines_join(init);
        assert(no_newline(ls.last()));
        lemma_split_newlines_append(join(init, seq!['\n']), ls.last());
        assert(init.push(ls.last()) =~= ls);
    }
}

/// Texts without `'\n'`, not empty and not ending in `'\r'`, joined by
/// `'\n'` and split again with `str::lines`, come back unchanged.
pub proof fn lemma_lines_of_join(ls: Seq<Seq<char>>)
    requires
        forall|k: int|
            0 <= k < ls.len() ==> {
                let l = #[trigger] ls[k];
                &&& no_newline(l)
                &&& l.len() > 0
                &&& l.last() != '\r'
            },
    ensures
        lines(join(ls, seq!['\n'])) == ls,
{
    let s = join(ls, seq!['\n']);
    if ls.len() == 0 {
        assert(split_newlines(s) == seq![Seq::<char>::empty()]);
        assert(lines(s) =~= ls);
    } else {
        assert forall|k: int| 0 <= k < ls.len() implies no_newline(#[trigger] ls[k]) by {
            let l = ls[k];
        }
        lemma_split_newlines_join(ls);
        let n = ls.len();
        let ended = Seq::new((n - 1) as nat, |i: int| strip_cr(ls[i]));
        assert(ls[n - 1].len() > 0);
        assert forall|i: int| 0 <= i < n - 1 implies ended[i] == ls[i] by {
            let l = ls[i];
        }
        assert(lines(s) == ended.push(ls[n - 1]));
        assert(ended.push(ls[n - 1]) =~= ls);
    }
}

/// The pieces of `ls` joined by `"\r\n"`, split at `'\n'`: each piece but the
/// last keeps the `'\r'` of its line ending.
proof fn lemma_split_newlines_crlf_join(ls: Seq<Seq<char>>)
    requires
        ls.len() > 0,
        forall|k: int| 0 <= k < ls.len() ==> no_newline(#[trigger] ls[k]),
    ensures
        split_newlines(join(ls, seq!['\r', '\n'])) == Seq::new(
            ls.len(),
            |i: int|
                if i < ls.len() - 1 {
                    ls[i].push('\r')
                } else {
                    ls[i]
                },
        ),
    decreases ls.len(),
{
    let n = ls.len();
    let want = Seq::new(n, |i: int| if i < n - 1 { ls[i].push('\r') } else { ls[i] });
    if n == 1 {
        assert(no_newline(ls[0]));
        lemma_split_newlines_single(ls[0]);
        assert(want =~= seq![ls[0]]);
    } else {
        let init = ls.drop_last();
        assert forall|k: int| 0 <= k < init.len() implies no_newline(#[trigger] init[k]) by {
            assert(init[k] == ls[k]);
        }
        lemma_split_newlines_crlf_join(init);
        let x = join(init, seq!['\r', '\n']);
        let xr = x + seq!['\r'];
        assert(no_newline(ls.last()));
        lemma_split_newlines_append(xr, ls.last());
        assert(join(ls, seq!['\r', '\n']) =~= xr + seq!['\n'] + ls.last());
        assert(xr.drop_last() =~= x);
        assert(xr.last() == '\r');
        let p = split_newlines(x);
        let q = p.update(p.len() - 1, p.last().push('\r'));
        assert(split_newlines(xr) == q);
        assert(q.push(ls.last()) =~= want);
    }
}

/// Texts without `'\n'`, not empty and not ending in `'\r'`, joined by
/// `"\r\n"` and split again with `str::lines`, come back unchanged: a
/// `'\r'` before a `'\n'` belongs to the line ending.
pub proof fn lemma_lines_of_crlf_join(ls: Seq<Seq<char>>)
    requires
        forall|k: int|
            0 <= k < ls.len() ==> {
                let l = #[trigger] ls[k];
                &&& no_newline(l)
                &&& l.len() > 0
                &&& l.last() != '\r'
            },
    ensures
        lines(join(ls, seq!['\r', '\n'])) == ls,
{
    let s = join(ls, seq!['\r', '\n']);
    if ls.len() == 0 {
        assert(split_newlines(s) == seq![Seq::<char>::empty()]);
        assert(lines(s) =~= ls);
    } else {
        assert forall|k: int| 0 <= k < ls.len() implies no_newline(#[trigger] ls[k]) by {
            let l = ls[k];
        }
        lemma_split_newlines_crlf_join(ls);
        let n = ls.len();
        let parts = split_newlines(s);
        let ended = Seq::new((n - 1) as nat, |i: int| strip_cr(parts[i]));
        assert(parts[n - 1] == ls[n - 1]);
        assert(ls[n - 1].len() > 0);
        assert forall|i: int| 0 <= i < n - 1 implies ended[i] == ls[i] by {
            assert(parts[i] == ls[i].push('\r'));
            assert(ls[i].push('\r').drop_last() =~= ls[i]);
        }
        assert(lines(s) == ended.push(parts[n - 1]));
        assert(ended.push(parts[n - 1]) =~= ls);
    }
}

/// A final line ending adds no empty line: lines that each hold no `'\n'`,
/// not ending in `'\r'`, joined by `'\n'` with one more `'\n'` after the
/// last, come back unchanged.
pub proof fn lemma_lines_of_terminated(ls: Seq<Seq<char>>)
    requires
        ls.len() > 0,
        forall|k: int|
            0 <= k < ls.len() ==> {
                let l = #[trigger] ls[k];
                &&& no_newline(l)
                &&& l.last() != '\r' || l.len() == 0
            },
    ensures
        lines(join(ls, seq!['\n']) + seq!['\n']) == ls,
{
    let s = join(ls, seq!['\n']) + seq!['\n'];
    assert forall|k: int| 0 <= k < ls.len() implies no_newline(#[trigger] ls[k]) by {
        let l = ls[k];
    }
    lemma_split_newlines_join(ls);
    lemma_split_newlines_append(join(ls, seq!['\n']), Seq::empty());
    assert(s =~= join(ls, seq!['\n']) + seq!['\n'] + Seq::<char>::empty());
    let parts = split_newlines(s);
    assert(parts == ls.push(Seq::empty()));
    let n = parts.len();
    let ended = Seq::new((n - 1) as nat, |i: int| strip_cr(parts[i]));
    assert forall|i: int| 0 <= i < n - 1 implies ended[i] == ls[i] by {
        assert(parts[i] == ls[i]);
        let l = ls[i];
    }
    assert(ended =~= ls);
}

// ---------------------------------------------------------------------------
// Prefixes and substrings
// ---------------------------------------------------------------------------

/// `s` begins with `p` (`str::starts_with` with a string pattern).
pub open spec fn has_prefix(s: Seq<char>, p: Seq<char>) -> bool {
    p.len() <= s.len() && s.subrange(0, p.len() as int) == p
}

/// `p` occurs in `s` starting at index `i`.
pub open spec fn occurs_at(s: Seq<char>, p: Seq<char>, i: int) -> bool {
    0 <= i && i + p.len() <= s.len() && s.subrange(i, i + p.len()) == p
}

/// `p` occurs somewhere in `s` (`str::contains` with a string pattern).
pub open spec fn has_substring(s: Seq<char>, p: Seq<char>) -> bool {
    exists|i: int| #[trigger] occurs_at(s, p, i)
}

/// Whether `p` occurs in `s` at index `i`.
pub fn occurs_at_index(s: &[char], p: &[char], i: usize) -> (r: bool)
    ensures
        r == occurs_at(s@, p@, i as int),
{
    if i > s.len() || p.len() > s.len() - i {
        return false;
    }
    let mut k: usize = 0;
    while k < p.len()
        invariant
            i + p@.len() <= s@.len(),
            s@.len() == s.len(),
            k <= p@.len(),
            s@.subrange(i as int, i + k) == p@.take(k as int),
        decreases p@.len() - k,
    {
        if s[i + k] != p[k] {
            assert(s@.subrange(i as int, i + p@.len())[k as int] != p@[k as int]);
            return false;
        }
        k = k + 1;
        assert(s@.subrange(i as int, i + k) == p@.take(k as int));
    }
    assert(p@.take(p@.len() as int) == p@);
    true
}

pub fn starts_with_chars(s: &[char], p: &[char]) -> (r: bool)
    ensures
        r == has_prefix(s@, p@),
{
    occurs_at_index(s, p, 0)
}

pub fn contains_chars(s: &[char], p: &[char]) -> (r: bool)
    ensures
        r == has_substring(s@, p@),
{
    if p.len() > s.len() {
        assert forall|i: int| !#[trigger] occurs_at(s@, p@, i) by {}
        return false;
    }
    let last = s.len() - p.len();
    let mut i: usize = 0;
    loop
        invariant
            last == s@.len() - p@.len(),
            i <= last,
            forall|j: int| 0 <= j < i ==> !#[trigger] occurs_at(s@, p@, j),
        ensures
            forall|j: int| 0 <= j <= last ==> !#[trigger] occurs_at(s@, p@, j),
        decreases last - i,
    {
        if occurs_at_index(s, p, i) {
            return true;
        }
        if i == last {
            break;
        }
        i = i + 1;
    }
    assert forall|j: int| !#[trigger] occurs_at(s@, p@, j) by {
        if 0 <= j <= last {
        }
    }
    false
}

// ---------------------------------------------------------------------------
// UTF-8 length
// ---------------------------------------------------------------------------

/// The number of bytes of `c` in UTF-8.
pub open spec fn utf8_width(c: char) -> nat {
    let u = c as u32;
    if u < 0x80 {
        1
    } else if u < 0x800 {
        2
    } else if u < 0x10000 {
        3
    } else {
        4
    }
}

/// The number of bytes of `s` in UTF-8 (what `str::len` returns).
pub open spec fn utf8_len(s: Seq<char>) -> nat
    decreases s.len(),
{
    if s.len() == 0 {
        0
    } else {
        utf8_len(s.drop_last()) + utf8_width(s.last())
    }
}

proof fn lemma_utf8_len_concat(a: Seq<char>, b: Seq<char>)
    ensures
        utf8_len(a + b) == utf8_len(a) + utf8_len(b),
    decreases b.len(),
{
    if b.len() == 0 {
        assert(a + b =~= a);
    } else {
        lemma_utf8_len_concat(a, b.drop_last());
        assert((a + b).drop_last() =~= a + b.drop_last());
        assert((a + b).last() == b.last());
    }
}

/// `utf8_len` is the length of vstd's UTF-8 encoding, which `str::len` returns.
pub proof fn lemma_utf8_len_is_encoded_len(s: Seq<char>)
    ensures
        utf8_len(s) == vstd::utf8::encode_utf8(s).len(),
    decreases s.len(),
{
    if s.len() > 0 {
        lemma_utf8_len_is_encoded_len(s.drop_first());
        lemma_utf8_len_concat(seq![s[0]], s.drop_first());
        assert(seq![s[0]] + s.drop_first() =~= s);
        assert(seq![s[0]].drop_last() =~= Seq::<char>::empty());
        vstd::utf8::char_is_scalar(s[0]);
        let u = s[0] as u32;
        assert(vstd::utf8::encode_scalar(u).len() == utf8_width(s[0]));
        assert(utf8_len(Seq::<char>::empty()) == 0);
        assert(utf8_len(seq![s[0]]) == utf8_width(s[0]));
        assert(vstd::utf8::encode_utf8(s) == vstd::utf8::encode_scalar(u)
            + vstd::utf8::encode_utf8(s.drop_first()));
    }
}

/// Whether the UTF-8 encoding of `v` is longer than `limit` bytes.
pub fn utf8_len_exceeds(v: &[char], limit: usize) -> (r: bool)
    requires
        limit < usize::MAX - 4,
    ensures
        r == (utf8_len(v@) > limit),
{
    let mut total: usize = 0;
    let mut i: usize = 0;
    while i < v.len()
        invariant
            i <= v@.len(),
            limit < usize::MAX - 4,
            total == utf8_len(v@.take(i as int)),
            total <= limit,
        decreases v@.len() - i,
    {
        let u = v[i] as u32;
        let w: usize = if u < 0x80 {
            1
        } else if u < 0x800 {
            2
        } else if u < 0x10000 {
            3
        } else {
            4
        };
        proof {
            assert(v@.take(i + 1).drop_last() == v@.take(i as int));
        }
        total = total + w;
        i = i + 1;
        if total > limit {
            proof {
                lemma_utf8_len_prefix_monotone(v@, i as int);
            }
            return true;
        }
    }
    assert(v@.take(v@.len() as int) == v@);
    false
}

/// A prefix never has a longer encoding than the whole.
pub proof fn lemma_utf8_len_prefix_monotone(s: Seq<char>, i: int)
    requires
        0 <= i <= s.len(),
    ensures
        utf8_len(s.take(i)) <= utf8_len(s),
    decreases s.len() - i,
{
    if i < s.len() {
        lemma_utf8_len_prefix_monotone(s, i + 1);
        assert(s.take(i + 1).drop_last() == s.take(i));
    } else {
        assert(s.take(i) == s);
    }
}

// ---------------------------------------------------------------------------
// Decimal numbers
// ---------------------------------------------------------------------------

/// The decimal digit for `d` (0 through 9).
pub open spec fn digit_char(d: nat) -> char {
    if d == 0 {
        '0'
    } else if d == 1 {
        '1'
    } else if d == 2 {
        '2'
    } else if d == 3 {
        '3'
    } else if d == 4 {
        '4'
    } else if d == 5 {
        '5'
    } else if d == 6 {
        '6'
    } else if d == 7 {
        '7'
    } else if d == 8 {
        '8'
    } else {
        '9'
    }
}

/// `n` in decimal, without leading zeros (as `{}` formats an integer).
pub open spec fn decimal(n: nat) -> Seq<char>
    decreases n,
{
    if n < 10 {
        seq![digit_char(n)]
    } else {
        decimal(n / 10).push(digit_char(n % 10))
    }
}

/// `n` in decimal, padded on the left with `'0'` to at least `width`
/// characters (as `{:0width$}` formats an unsigned integer).
pub open spec fn zero_padded(n: nat, width: nat) -> Seq<char> {
    let d = decimal(n);
    if d.len() < width {
        Seq::new((width - d.len()) as nat, |i: int| '0') + d
    } else {
        d
    }
}

/// A number in decimal has at least one character, and no `':'`.
pub proof fn lemma_decimal_digits(n: nat)
    ensures
        decimal(n).len() >= 1,
        n >= 10 ==> decimal(n).len() >= 2,
        forall|i: int| 0 <= i < decimal(n).len() ==> #[trigger] decimal(n)[i] != ':',
    decreases n,
{
    if n >= 10 {
        lemma_decimal_digits(n / 10);
        let p = decimal(n / 10);
        assert forall|i: int| 0 <= i < decimal(n).len() implies #[trigger] decimal(n)[i] != ':' by {
            if i < p.len() {
                assert(decimal(n)[i] == p[i]);
            }
        }
    }
}

/// Different numbers have different decimal forms.
pub proof fn lemma_decimal_injective(a: nat, b: nat)
    requires
        decimal(a) == decimal(b),
    ensures
        a == b,
    decreases a,
{
    lemma_decimal_digits(a);
    lemma_decimal_digits(b);
    if a >= 10 && b >= 10 {
        assert(decimal(a).drop_last() == decimal(a / 10));
        assert(decimal(b).drop_last() == decimal(b / 10));
        lemma_decimal_injective(a / 10, b / 10);
        assert(decimal(a).last() == digit_char(a % 10));
        assert(decimal(b).last() == digit_char(b % 10));
    } else if a < 10 && b < 10 {
        assert(decimal(a)[0] == digit_char(a));
        assert(decimal(b)[0] == digit_char(b));
    }
}

pub fn digit_of(d: u64) -> (c: char)
    requires
        d < 10,
    ensures
        c == digit_char(d as nat),
{
    if d == 0 {
        '0'
    } else if d == 1 {
        '1'
    } else if d == 2 {
        '2'
    } else if d == 3 {
        '3'
    } else if d == 4 {
        '4'
    } else if d == 5 {
        '5'
    } else if d == 6 {
        '6'
    } else if d == 7 {
        '7'
    } else if d == 8 {
        '8'
    } else {
        '9'
    }
}

/// Appends `n` in decimal to `out`.
pub fn push_decimal(out: &mut String, n: u64)
    ensures
        final(out)@ == old(out)@ + decimal(n as nat),
    decreases n,
{
    if n >= 10 {
        push_decimal(out, n / 10);
    }
    out.push(digit_of(n % 10));
    proof {
        if n >= 10 {
            assert(old(out)@ + decimal(n as nat) == old(out)@ + decimal((n / 10) as nat) + seq![
                digit_char((n % 10) as nat),
            ]);
        }
    }
}

/// Appends `n` in decimal, padded with `'0'` to at least `width` characters.
pub fn push_zero_padded(out: &mut String, n: u64, width: usize)
    ensures
        final(out)@ == old(out)@ + zero_padded(n as nat, width as nat),
{
    let mut digits = String::new();
    push_decimal(&mut digits, n);
    let d = chars_of(digits.as_str());
    let len = d.len();
    let ghost start = out@;
    let mut k: usize = len;
    while k < width
        invariant
            len <= k,
            k <= width || len >= width,
            len >= width ==> k == len,
            d@ == decimal(n as nat),
            len == d@.len(),
            out@ == start + Seq::new((k - len) as nat, |i: int| '0'),
        decreases width - k,
    {
        out.push('0');
        k = k + 1;
        assert(out@ == start + Seq::new((k - len) as nat, |i: int| '0'));
    }
    push_chars(out, d.as_slice());
    proof {
        if len < width {
            assert(k == width);
        } else {
            assert(Seq::new((k - len) as nat, |i: int| '0') =~= Seq::<char>::empty());
            assert(start + Seq::<char>::empty() =~= start);
        }
        assert(start + Seq::new((k - len) as nat, |i: int| '0') + decimal(n as nat) == start
            + zero_padded(n as nat, width as nat));
    }
}

// ---------------------------------------------------------------------------
// Joining and replacing
// ---------------------------------------------------------------------------

/// The pieces of `l` joined by `sep` (as `[String]::join`).
pub open spec fn join(l: Seq<Seq<char>>, sep: Seq<char>) -> Seq<char>
    decreases l.len(),
{
    if l.len() == 0 {
        Seq::empty()
    } else if l.len() == 1 {
        l[0]
    } else {
        join(l.drop_last(), sep) + sep + l.last()
    }
}

/// The characters of a sequence of strings.
pub open spec fn views(l: Seq<String>) -> Seq<Seq<char>> {
    l.map_values(|s: String| s@)
}

/// The strings `l[start..end]` joined by `'\n'`.
pub fn join_with_newlines(l: &Vec<String>, start: usize, end: usize) -> (r: String)
    requires
        start <= end <= l@.len(),
    ensures
        r@ == join(views(l@.subrange(start as int, end as int)), seq!['\n']),
{
    let mut r = String::new();
    let mut i: usize = start;
    while i < end
        invariant
            start <= i <= end <= l@.len(),
            r@ == join(views(l@.subrange(start as int, i as int)), seq!['\n']),
        decreases end - i,
    {
        let ghost before = views(l@.subrange(start as int, i as int));
        if i > start {
            r.push('\n');
        }
        r.append(l[i].as_str());
        i = i + 1;
        proof {
            let after = views(l@.subrange(start as int, i as int));
            assert(after.drop_last() == before);
            assert(after.last() == l@[i - 1]@);
            if i - 1 == start {
                assert(before.len() == 0);
                assert(r@ == after[0]);
            }
        }
    }
    r
}

/// `s` with every `'/'` and `'\\'` replaced by `'_'`.
pub open spec fn separators_to_underscores(s: Seq<char>) -> Seq<char> {
    s.map_values(|c: char| if c == '/' || c == '\\' { '_' } else { c })
}

pub fn replace_separators(s: &str) -> (r: String)
    ensures
        r@ == separators_to_underscores(s@),
{
    let v = chars_of(s);
    let mut r = String::new();
    let mut i: usize = 0;
    while i < v.len()
        invariant
            i <= v@.len(),
            v@ == s@,
            r@ == separators_to_underscores(v@.take(i as int)),
        decreases v@.len() - i,
    {
        let c = v[i];
        if c == '/' || c == '\\' {
            r.push('_');
        } else {
            r.push(c);
        }
        i = i + 1;
        assert(r@ == separators_to_underscores(v@.take(i as int)));
    }
    assert(v@.take(v@.len() as int) == v@);
    r
}

} // verus!

verus! {

// ---------------------------------------------------------------------------
// Ordering of text
// ---------------------------------------------------------------------------

/// `a` comes strictly before `b` in lexicographic order of code points, the
/// order of `String`'s `Ord` (UTF-8 preserves code point order).
pub open spec fn text_lt(a: Seq<char>, b: Seq<char>) -> bool
    decreases a.len(),
{
    if a.len() == 0 {
        b.len() > 0
    } else if b.len() == 0 {
        false
    } else if a[0] != b[0] {
        a[0] < b[0]
    } else {
        text_lt(a.drop_first(), b.drop_first())
    }
}

/// `a` differs first from `b` at index `i`, where `a` has the smaller character.
pub open spec fn first_difference_smaller(a: Seq<char>, b: Seq<char>, i: int) -> bool {
    0 <= i < a.len() && i < b.len() && a.take(i) == b.take(i) && a[i] < b[i]
}

/// `text_lt` is lexicographic order: `a` comes before `b` exactly when, at
/// the first index where they differ, `a` has the smaller character, or when
/// `a` is a proper prefix of `b`.
pub proof fn lemma_text_lt_lexicographic(a: Seq<char>, b: Seq<char>)
    ensures
        text_lt(a, b) <==> ((exists|i: int| first_difference_smaller(a, b, i)) || (a.len() < b.len()
            && b.take(a.len() as int) == a)),
    decreases a.len(),
{
    if a.len() == 0 {
        assert(b.take(0) =~= a);
    } else if b.len() == 0 {
    } else if a[0] != b[0] {
        if a[0] < b[0] {
            assert(a.take(0) =~= b.take(0));
            assert(first_difference_smaller(a, b, 0));
        }
        assert forall|i: int| !first_difference_smaller(a, b, i) || a[0] < b[0] by {
            if first_difference_smaller(a, b, i) && i > 0 {
                assert(a.take(i)[0] == b.take(i)[0]);
            }
        }
        if a.len() < b.len() && b.take(a.len() as int) == a {
            assert(b.take(a.len() as int)[0] == b[0]);
        }
    } else {
        let a1 = a.drop_first();
        let b1 = b.drop_first();
        lemma_text_lt_lexicographic(a1, b1);
        assert forall|i: int| first_difference_smaller(a, b, i) implies i > 0
            && first_difference_smaller(a1, b1, i - 1) by {
            assert(a1.take(i - 1) =~= a.take(i).drop_first());
            assert(b1.take(i - 1) =~= b.take(i).drop_first());
        }
        assert forall|i: int| first_difference_smaller(a1, b1, i) implies first_difference_smaller(
            a,
            b,
            i + 1,
        ) by {
            assert(a.take(i + 1) =~= seq![a[0]] + a1.take(i));
            assert(b.take(i + 1) =~= seq![b[0]] + b1.take(i));
        }
        if (exists|i: int| first_difference_smaller(a1, b1, i)) {
            let i = choose|i: int| first_difference_smaller(a1, b1, i);
            assert(first_difference_smaller(a, b, i + 1));
        }
        if (exists|i: int| first_difference_smaller(a, b, i)) {
            let i = choose|i: int| first_difference_smaller(a, b, i);
            assert(first_difference_smaller(a1, b1, i - 1));
        }
        if a.len() < b.len() && b.take(a.len() as int) == a {
            assert(b1.take(a1.len() as int) =~= b.take(a.len() as int).drop_first());
        }
        if a1.len() < b1.len() && b1.take(a1.len() as int) == a1 {
            assert(b.take(a.len() as int) =~= seq![b[0]] + b1.take(a1.len() as int));
            assert(a =~= seq![a[0]] + a1);
        }
    }
}

pub proof fn lemma_text_lt_irreflexive(a: Seq<char>)
    ensures
        !text_lt(a, a),
    decreases a.len(),
{
    if a.len() > 0 {
        lemma_text_lt_irreflexive(a.drop_first());
    }
}

pub proof fn lemma_text_lt_transitive(a: Seq<char>, b: Seq<char>, c: Seq<char>)
    requires
        text_lt(a, b),
        text_lt(b, c),
    ensures
        text_lt(a, c),
    decreases a.len(),
{
    if a.len() > 0 && b.len() > 0 && c.len() > 0 {
        if a[0] == b[0] && b[0] == c[0] {
            lemma_text_lt_transitive(a.drop_first(), b.drop_first(), c.drop_first());
        }
    }
}

pub proof fn lemma_text_lt_total(a: Seq<char>, b: Seq<char>)
    ensures
        a == b || text_lt(a, b) || text_lt(b, a),
    decreases a.len(),
{
    if a.len() > 0 && b.len() > 0 {
        if a[0] == b[0] {
            lemma_text_lt_total(a.drop_first(), b.drop_first());
            if a.drop_first() == b.drop_first() {
                assert(a =~= seq![a[0]] + a.drop_first());
                assert(b =~= seq![b[0]] + b.drop_first());
            }
        }
    } else if a.len() == 0 && b.len() == 0 {
        assert(a =~= b);
    }
}

/// Whether `a` comes strictly before `b` in lexicographic order.
pub fn text_less(a: &str, b: &str) -> (r: bool)
    ensures
        r == text_lt(a@, b@),
{
    let av = chars_of(a);
    let bv = chars_of(b);
    let mut i: usize = 0;
    assert(av@.skip(0) =~= av@);
    assert(bv@.skip(0) =~= bv@);
    while i < av.len() && i < bv.len()
        invariant
            i <= av@.len(),
            i <= bv@.len(),
            text_lt(a@, b@) == text_lt(av@.skip(i as int), bv@.skip(i as int)),
            av@ == a@,
            bv@ == b@,
        decreases av@.len() - i,
    {
        if av[i] != bv[i] {
            assert(av@.skip(i as int)[0] == av[i as int]);
            assert(bv@.skip(i as int)[0] == bv[i as int]);
            return av[i] < bv[i];
        }
        assert(av@.skip(i as int).drop_first() =~= av@.skip(i + 1));
        assert(bv@.skip(i as int).drop_first() =~= bv@.skip(i + 1));
        i = i + 1;
    }
    i < bv.len()
}

} // verus!

verus! {

/// The pieces of `fs` one after the other.
pub open spec fn concat_all(fs: Seq<Seq<char>>) -> Seq<char>
    decreases fs.len(),
{
    if fs.len() == 0 {
        Seq::empty()
    } else {
        concat_all(fs.drop_last()) + fs.last()
    }
}

/// Adding the next piece.
pub proof fn lemma_concat_all_take(fs: Seq<Seq<char>>, k: int)
    requires
        0 <= k < fs.len(),
    ensures
        concat_all(fs.take(k + 1)) == concat_all(fs.take(k)) + fs[k],
{
    assert(fs.take(k + 1).drop_last() =~= fs.take(k));
}

proof fn lemma_concat_all_same_len(f1: Seq<Seq<char>>, f2: Seq<Seq<char>>)
    requires
        f1.len() == f2.len(),
        forall|i: int| 0 <= i < f1.len() ==> #[trigger] f1[i].len() == f2[i].len(),
    ensures
        concat_all(f1).len() == concat_all(f2).len(),
    decreases f1.len(),
{
    if f1.len() > 0 {
        assert forall|i: int| 0 <= i < f1.len() - 1 implies #[trigger] f1.drop_last()[i].len()
            == f2.drop_last()[i].len() by {
            assert(f1.drop_last()[i] == f1[i]);
            assert(f2.drop_last()[i] == f2[i]);
        }
        lemma_concat_all_same_len(f1.drop_last(), f2.drop_last());
    }
}

proof fn lemma_concat_all_same(f1: Seq<Seq<char>>, f2: Seq<Seq<char>>)
    requires
        f1.len() == f2.len(),
        forall|i: int| 0 <= i < f1.len() ==> #[trigger] f1[i] == f2[i],
    ensures
        concat_all(f1) == concat_all(f2),
{
    assert(f1 =~= f2);
}

proof fn lemma_text_lt_common_prefix(a: Seq<char>, b: Seq<char>, c: Seq<char>)
    ensures
        text_lt(a + b, a + c) == text_lt(b, c),
    decreases a.len(),
{
    if a.len() > 0 {
        assert((a + b)[0] == a[0]);
        assert((a + c)[0] == a[0]);
        assert((a + b).drop_first() =~= a.drop_first() + b);
        assert((a + c).drop_first() =~= a.drop_first() + c);
        lemma_text_lt_common_prefix(a.drop_first(), b, c);
    } else {
        assert(a + b =~= b);
        assert(a + c =~= c);
    }
}

proof fn lemma_text_lt_prefix_decides(a: Seq<char>, a2: Seq<char>, b: Seq<char>, c: Seq<char>)
    requires
        a.len() == a2.len(),
        text_lt(a, a2),
    ensures
        text_lt(a + b, a2 + c),
    decreases a.len(),
{
    assert((a + b)[0] == a[0]);
    assert((a2 + c)[0] == a2[0]);
    if a[0] == a2[0] {
        assert((a + b).drop_first() =~= a.drop_first() + b);
        assert((a2 + c).drop_first() =~= a2.drop_first() + c);
        lemma_text_lt_prefix_decides(a.drop_first(), a2.drop_first(), b, c);
    }
}

/// Two sequences of pieces, piece by piece of equal lengths, compare as their
/// first differing piece does.
#[verifier::rlimit(30)]
pub proof fn lemma_concat_all_lt(f1: Seq<Seq<char>>, f2: Seq<Seq<char>>, j: int)
    requires
        f1.len() == f2.len(),
        0 <= j < f1.len(),
        forall|i: int| 0 <= i < f1.len() ==> #[trigger] f1[i].len() == f2[i].len(),
        forall|i: int| 0 <= i < j ==> #[trigger] f1[i] == f2[i],
        text_lt(f1[j], f2[j]),
    ensures
        text_lt(concat_all(f1), concat_all(f2)),
    decreases f1.len(),
{
    let p1 = f1.drop_last();
    let p2 = f2.drop_last();
    if j == f1.len() - 1 {
        assert forall|i: int| 0 <= i < p1.len() implies #[trigger] p1[i] == p2[i] by {
            assert(p1[i] == f1[i]);
            assert(p2[i] == f2[i]);
        }
        lemma_concat_all_same(p1, p2);
        lemma_text_lt_common_prefix(concat_all(p1), f1.last(), f2.last());
    } else {
        assert forall|i: int| 0 <= i < p1.len() implies #[trigger] p1[i].len() == p2[i].len() by {
            assert(p1[i] == f1[i]);
            assert(p2[i] == f2[i]);
        }
        assert forall|i: int| 0 <= i < j implies #[trigger] p1[i] == p2[i] by {
            assert(p1[i] == f1[i]);
            assert(p2[i] == f2[i]);
        }
        assert(p1[j] == f1[j] && p2[j] == f2[j]);
        lemma_concat_all_lt(p1, p2, j);
        lemma_concat_all_same_len(p1, p2);
        lemma_text_lt_prefix_decides(concat_all(p1), concat_all(p2), f1.last(), f2.last());
    }
}

/// A number below 100 padded to two digits.
pub proof fn lemma_two_digits(n: nat)
    requires
        n < 100,
    ensures
        zero_padded(n, 2) == seq![digit_char(n / 10), digit_char(n % 10)],
{
    if n < 10 {
        assert(decimal(n) == seq![digit_char(n)]);
        assert(zero_padded(n, 2) =~= seq!['0', digit_char(n)]);
    } else {
        assert(decimal(n / 10) == seq![digit_char(n / 10)]);
        assert(decimal(n) =~= seq![digit_char(n / 10), digit_char(n % 10)]);
    }
}

/// A four-digit number in decimal.
#[verifier::rlimit(30)]
pub proof fn lemma_four_digits(n: nat)
    requires
        1000 <= n < 10000,
    ensures
        zero_padded(n, 4) == seq![
            digit_char(n / 1000),
            digit_char((n / 100) % 10),
            digit_char((n / 10) % 10),
            digit_char(n % 10),
        ],
{
    let a = n / 100;
    assert(a / 10 == n / 1000);
    assert(decimal(a / 10) == seq![digit_char(a / 10)]);
    assert(decimal(a) =~= seq![digit_char(a / 10), digit_char(a % 10)]);
    let b = n / 10;
    assert(b / 10 == a);
    assert(decimal(b) =~= decimal(a).push(digit_char(b % 10)));
    assert(decimal(n) =~= decimal(b).push(digit_char(n % 10)));
}

proof fn lemma_digit_char_lt(a: nat, b: nat)
    requires
        a < b < 10,
    ensures
        digit_char(a) < digit_char(b),
{
}

/// Comparing two non-empty texts by their first characters.
proof fn lemma_text_lt_step(a: Seq<char>, b: Seq<char>)
    requires
        a.len() > 0,
        b.len() > 0,
    ensures
        a[0] < b[0] ==> text_lt(a, b),
        a[0] == b[0] ==> text_lt(a, b) == text_lt(a.drop_first(), b.drop_first()),
{
}

/// Two digit sequences of the same length compare as their first differing digit.
proof fn lemma_digit_seq_lt(xs: Seq<nat>, ys: Seq<nat>, j: int)
    requires
        xs.len() == ys.len(),
        0 <= j < xs.len(),
        forall|i: int| 0 <= i < xs.len() ==> #[trigger] xs[i] < 10 && ys[i] < 10,
        forall|i: int| 0 <= i < j ==> #[trigger] xs[i] == ys[i],
        xs[j] < ys[j],
    ensures
        text_lt(xs.map_values(|d: nat| digit_char(d)), ys.map_values(|d: nat| digit_char(d))),
    decreases j,
{
    let sx = xs.map_values(|d: nat| digit_char(d));
    let sy = ys.map_values(|d: nat| digit_char(d));
    lemma_text_lt_step(sx, sy);
    if j == 0 {
        lemma_digit_char_lt(xs[0], ys[0]);
    } else {
        assert(sx.drop_first() =~= xs.drop_first().map_values(|d: nat| digit_char(d)));
        assert(sy.drop_first() =~= ys.drop_first().map_values(|d: nat| digit_char(d)));
        assert forall|i: int| 0 <= i < xs.len() - 1 implies #[trigger] xs.drop_first()[i] < 10
            && ys.drop_first()[i] < 10 by {
            assert(xs.drop_first()[i] == xs[i + 1]);
            assert(ys.drop_first()[i] == ys[i + 1]);
        }
        assert forall|i: int| 0 <= i < j - 1 implies #[trigger] xs.drop_first()[i]
            == ys.drop_first()[i] by {
            assert(xs.drop_first()[i] == xs[i + 1]);
            assert(ys.drop_first()[i] == ys[i + 1]);
        }
        lemma_digit_seq_lt(xs.drop_first(), ys.drop_first(), j - 1);
    }
}

/// Numbers below 100, padded to two digits, compare as the numbers do.
pub proof fn lemma_two_digits_lt(x: nat, y: nat)
    requires
        x < y < 100,
    ensures
        text_lt(zero_padded(x, 2), zero_padded(y, 2)),
{
    lemma_two_digits(x);
    lemma_two_digits(y);
    let xs = seq![x / 10, x % 10];
    let ys = seq![y / 10, y % 10];
    assert(zero_padded(x, 2) =~= xs.map_values(|d: nat| digit_char(d)));
    assert(zero_padded(y, 2) =~= ys.map_values(|d: nat| digit_char(d)));
    if x / 10 < y / 10 {
        lemma_digit_seq_lt(xs, ys, 0);
    } else {
        lemma_digit_seq_lt(xs, ys, 1);
    }
}

proof fn lemma_four_digit_parts(x: nat)
    by (nonlinear_arith)
    requires
        x < 10000,
    ensures
        x == 1000 * (x / 1000) + 100 * ((x / 100) % 10) + 10 * ((x / 10) % 10) + x % 10,
        x / 1000 < 10,
        (x / 100) % 10 < 10,
        (x / 10) % 10 < 10,
        x % 10 < 10,
{
}

/// Four-digit numbers compare as their decimal forms do.
#[verifier::rlimit(30)]
pub proof fn lemma_four_digits_lt(x: nat, y: nat)
    requires
        1000 <= x < y < 10000,
    ensures
        text_lt(zero_padded(x, 4), zero_padded(y, 4)),
{
    lemma_four_digits(x);
    lemma_four_digits(y);
    lemma_four_digit_parts(x);
    lemma_four_digit_parts(y);
    let xs = seq![x / 1000, (x / 100) % 10, (x / 10) % 10, x % 10];
    let ys = seq![y / 1000, (y / 100) % 10, (y / 10) % 10, y % 10];
    assert(zero_padded(x, 4) =~= xs.map_values(|d: nat| digit_char(d)));
    assert(zero_padded(y, 4) =~= ys.map_values(|d: nat| digit_char(d)));
    if xs[0] != ys[0] {
        lemma_digit_seq_lt(xs, ys, 0);
    } else if xs[1] != ys[1] {
        lemma_digit_seq_lt(xs, ys, 1);
    } else if xs[2] != ys[2] {
        lemma_digit_seq_lt(xs, ys, 2);
    } else {
        lemma_digit_seq_lt(xs, ys, 3);
    }
}

} // verus!
