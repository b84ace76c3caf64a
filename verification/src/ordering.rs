//! Stable sorting for listings: the order in which the entries of a
//! directory and the known indices are shown.

use vstd::prelude::*;
use vstd::set_lib::{lemma_int_range, lemma_subset_equality, set_int_range};

verus! {

/// An order in which values are listed: `precedes` is a strict weak order
/// (irreflexive, transitive, and what is not before `b` is not before
/// anything that `b` comes before).
pub trait ListingOrder: Sized {
    /// `self` is listed before `other`.
    spec fn precedes(self, other: Self) -> bool;

    fn goes_before(&self, other: &Self) -> (r: bool)
        ensures
            r == self.precedes(*other),
    ;

    proof fn lemma_irreflexive(a: Self)
        ensures
            !a.precedes(a),
    ;

    proof fn lemma_transitive(a: Self, b: Self, c: Self)
        requires
            a.precedes(b),
            b.precedes(c),
        ensures
            a.precedes(c),
    ;

    proof fn lemma_split(a: Self, b: Self, c: Self)
        requires
            a.precedes(b),
        ensures
            a.precedes(c) || c.precedes(b),
    ;
}

/// No element of `s` is listed before one that stands earlier in `s`.
pub open spec fn listed_in_order<T: ListingOrder>(s: Seq<T>) -> bool {
    forall|i: int, j: int| 0 <= i < j < s.len() ==> !#[trigger] s[j].precedes(#[trigger] s[i])
}

/// `r` is `s` rearranged by `perm` (`r[i]` is `s[perm[i]]`), in listing order,
/// with elements that neither precedes the other kept in their order in `s`.
pub open spec fn stably_arranged<T: ListingOrder>(r: Seq<T>, s: Seq<T>, perm: Seq<int>) -> bool {
    &&& perm.len() == r.len()
    &&& r.len() == s.len()
    &&& forall|i: int| 0 <= i < r.len() ==> 0 <= #[trigger] perm[i] < s.len() && r[i] == s[perm[i]]
    &&& forall|i: int, j: int| 0 <= i < j < r.len() ==> #[trigger] perm[i] != #[trigger] perm[j]
    &&& listed_in_order(r)
    &&& forall|i: int, j: int|
        0 <= i < j < r.len() && !(#[trigger] r[i]).precedes(#[trigger] r[j]) ==> perm[i] < perm[j]
}

/// `r` is the stable sort of `s` in listing order.
pub open spec fn stable_sort_of<T: ListingOrder>(r: Seq<T>, s: Seq<T>) -> bool {
    exists|perm: Seq<int>| stably_arranged(r, s, perm)
}

/// Sorts `v` into listing order, keeping the order of elements that neither
/// precedes the other (as `sort_by` does).
#[verifier::rlimit(30)]
pub fn listing_sort<T: ListingOrder>(v: Vec<T>) -> (r: Vec<T>)
    ensures
        stable_sort_of(r@, v@),
{
    let ghost s = v@;
    let n = v.len();
    let mut rest = v;
    let mut r: Vec<T> = Vec::new();
    let ghost mut perm: Seq<int> = Seq::empty();
    let mut i: usize = 0;
    while i < n
        invariant
            n == s.len(),
            i <= n,
            rest@ == s.skip(i as int),
            perm.len() == r@.len(),
            r@.len() == i,
            forall|k: int| 0 <= k < r@.len() ==> 0 <= #[trigger] perm[k] < i && r@[k] == s[perm[k]],
            forall|a: int, b: int| 0 <= a < b < r@.len() ==> #[trigger] perm[a] != #[trigger] perm[b],
            listed_in_order(r@),
            forall|a: int, b: int|
                0 <= a < b < r@.len() && !(#[trigger] r@[a]).precedes(#[trigger] r@[b]) ==> perm[a]
                    < perm[b],
        decreases n - i,
    {
        assert(rest@[0] == s[i as int]);
        let x = rest.remove(0);
        assert(rest@ =~= s.skip(i + 1));
        let mut p: usize = r.len();
        while p > 0 && x.goes_before(&r[p - 1])
            invariant
                p <= r@.len(),
                forall|k: int| p <= k < r@.len() ==> x.precedes(#[trigger] r@[k]),
            decreases p,
        {
            p = p - 1;
        }
        proof {
            assert forall|k: int| 0 <= k < p implies !x.precedes(#[trigger] r@[k]) by {
                if x.precedes(r@[k]) {
                    if k < p - 1 {
                        T::lemma_split(x, r@[k], r@[p - 1]);
                    }
                }
            }
        }
        let ghost old_r = r@;
        let ghost old_perm = perm;
        r.insert(p, x);
        proof {
            perm = old_perm.insert(p as int, i as int);
            assert(r@ == old_r.insert(p as int, x));
            assert forall|k: int| 0 <= k < r@.len() implies 0 <= #[trigger] perm[k] < i + 1
                && r@[k] == s[perm[k]] by {
                if k < p {
                    assert(perm[k] == old_perm[k]);
                } else if k > p {
                    assert(perm[k] == old_perm[k - 1]);
                }
            }
            assert forall|a: int, b: int| 0 <= a < b < r@.len() implies #[trigger] perm[a]
                != #[trigger] perm[b] by {
                if a < p && b > p {
                    assert(perm[a] == old_perm[a] && perm[b] == old_perm[b - 1]);
                } else if a > p {
                    assert(perm[a] == old_perm[a - 1] && perm[b] == old_perm[b - 1]);
                } else if b < p {
                    assert(perm[a] == old_perm[a] && perm[b] == old_perm[b]);
                } else if a == p {
                    assert(perm[b] == old_perm[b - 1]);
                } else {
                    assert(perm[a] == old_perm[a]);
                }
            }
            assert forall|a: int, b: int| 0 <= a < b < r@.len() implies !#[trigger] r@[b].precedes(
                #[trigger] r@[a],
            ) by {
                if a < p && b > p {
                    assert(r@[a] == old_r[a] && r@[b] == old_r[b - 1]);
                } else if a > p {
                    assert(r@[a] == old_r[a - 1] && r@[b] == old_r[b - 1]);
                } else if b < p {
                    assert(r@[a] == old_r[a] && r@[b] == old_r[b]);
                } else if a == p {
                    assert(r@[b] == old_r[b - 1]);
                    assert(x.precedes(old_r[b - 1]));
                    if old_r[b - 1].precedes(x) {
                        T::lemma_transitive(x, old_r[b - 1], x);
                        T::lemma_irreflexive(x);
                    }
                } else {
                    assert(r@[a] == old_r[a]);
                    assert(!x.precedes(old_r[a]));
                }
            }
            assert forall|a: int, b: int|
                0 <= a < b < r@.len() && !(#[trigger] r@[a]).precedes(#[trigger] r@[b]) implies perm[a]
                < perm[b] by {
                if a < p && b > p {
                    assert(r@[a] == old_r[a] && r@[b] == old_r[b - 1]);
                    assert(perm[a] == old_perm[a] && perm[b] == old_perm[b - 1]);
                } else if a > p {
                    assert(r@[a] == old_r[a - 1] && r@[b] == old_r[b - 1]);
                    assert(perm[a] == old_perm[a - 1] && perm[b] == old_perm[b - 1]);
                } else if b < p {
                    assert(r@[a] == old_r[a] && r@[b] == old_r[b]);
                    assert(perm[a] == old_perm[a] && perm[b] == old_perm[b]);
                } else if a == p {
                    assert(r@[b] == old_r[b - 1]);
                    assert(x.precedes(old_r[b - 1]));
                } else {
                    assert(perm[a] == old_perm[a]);
                    assert(perm[b] == i);
                }
            }
        }
        i = i + 1;
    }
    proof {
        assert(stably_arranged(r@, s, perm));
    }
    r
}

/// Index `a` of `s` goes before index `b`: its element precedes, or neither
/// element precedes the other and `a` is the earlier index.
pub open spec fn index_before<T: ListingOrder>(s: Seq<T>, a: int, b: int) -> bool {
    s[a].precedes(s[b]) || (!s[a].precedes(s[b]) && !s[b].precedes(s[a]) && a < b)
}

proof fn lemma_index_before_asymmetric<T: ListingOrder>(s: Seq<T>, a: int, b: int)
    requires
        index_before(s, a, b),
    ensures
        !index_before(s, b, a),
{
    if s[a].precedes(s[b]) && s[b].precedes(s[a]) {
        T::lemma_transitive(s[a], s[b], s[a]);
        T::lemma_irreflexive(s[a]);
    }
}

proof fn lemma_arranged_increasing<T: ListingOrder>(
    r: Seq<T>,
    s: Seq<T>,
    perm: Seq<int>,
    i: int,
    j: int,
)
    requires
        stably_arranged(r, s, perm),
        0 <= i < j < r.len(),
    ensures
        index_before(s, perm[i], perm[j]),
{
    assert(!r[j].precedes(r[i]));
    if !r[i].precedes(r[j]) {
        assert(perm[i] < perm[j]);
    }
}

proof fn lemma_perm_onto(perm: Seq<int>, n: int, b: int)
    requires
        perm.len() == n,
        forall|i: int| 0 <= i < n ==> 0 <= #[trigger] perm[i] < n,
        forall|i: int, j: int| 0 <= i < j < n ==> #[trigger] perm[i] != #[trigger] perm[j],
        0 <= b < n,
    ensures
        exists|j: int| 0 <= j < n && perm[j] == b,
{
    broadcast use vstd::seq_lib::seq_to_set_is_finite;

    assert(perm.no_duplicates()) by {
        assert forall|i: int, j: int| 0 <= i < n && 0 <= j < n && i != j implies perm[i]
            != perm[j] by {
            if i > j {
                assert(perm[j] != perm[i]);
            }
        }
    }
    perm.unique_seq_to_set();
    lemma_int_range(0, n);
    assert(perm.to_set().subset_of(set_int_range(0, n)));
    lemma_subset_equality(perm.to_set(), set_int_range(0, n));
    assert(set_int_range(0, n).contains(b));
    assert(perm.to_set().contains(b));
}

#[verifier::rlimit(30)]
proof fn lemma_perms_agree<T: ListingOrder>(
    s: Seq<T>,
    r1: Seq<T>,
    r2: Seq<T>,
    p1: Seq<int>,
    p2: Seq<int>,
    i: int,
)
    requires
        stably_arranged(r1, s, p1),
        stably_arranged(r2, s, p2),
        0 <= i < s.len(),
    ensures
        forall|k: int| 0 <= k <= i ==> p1[k] == p2[k],
    decreases i,
{
    let n = s.len() as int;
    if i > 0 {
        lemma_perms_agree(s, r1, r2, p1, p2, i - 1);
    }
    let a = p1[i];
    let b = p2[i];
    if a != b {
        lemma_perm_onto(p1, n, b);
        let j = choose|j: int| 0 <= j < n && p1[j] == b;
        if j < i {
            assert(p2[j] == b);
        }
        assert(j > i);
        lemma_arranged_increasing(r1, s, p1, i, j);
        lemma_perm_onto(p2, n, a);
        let j2 = choose|j2: int| 0 <= j2 < n && p2[j2] == a;
        if j2 < i {
            assert(p1[j2] == a);
        }
        assert(j2 > i);
        lemma_arranged_increasing(r2, s, p2, i, j2);
        lemma_index_before_asymmetric(s, a, b);
    }
    assert forall|k: int| 0 <= k <= i implies p1[k] == p2[k] by {
        if k < i {
        }
    }
}

/// The stable sort is unique: two stable sorts of the same sequence in
/// listing order are the same sequence.
pub proof fn lemma_stable_sort_unique<T: ListingOrder>(r1: Seq<T>, r2: Seq<T>, s: Seq<T>)
    requires
        stable_sort_of(r1, s),
        stable_sort_of(r2, s),
    ensures
        r1 == r2,
{
    let p1 = choose|perm: Seq<int>| stably_arranged(r1, s, perm);
    let p2 = choose|perm: Seq<int>| stably_arranged(r2, s, perm);
    if s.len() > 0 {
        lemma_perms_agree(s, r1, r2, p1, p2, s.len() - 1);
        assert forall|k: int| 0 <= k < s.len() implies r1[k] == r2[k] by {
            assert(p1[k] == p2[k]);
        }
    }
    assert(r1 =~= r2);
}

} // verus!
