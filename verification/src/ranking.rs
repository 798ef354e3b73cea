//! Stable ordering of lists by a ranking: what ranks higher goes first, and items that
//! rank alike keep the order they came in (as `sort_by` does).

use vstd::prelude::*;

verus! {

/// Items that can be put in order.
pub trait Ranked: Sized {
    /// Whether `self` goes strictly before `other`.
    spec fn outranks(self, other: Self) -> bool;

    /// Going before is transitive.
    proof fn lemma_outranks_transitive(a: Self, b: Self, c: Self)
        requires
            a.outranks(b),
            b.outranks(c),
        ensures
            a.outranks(c),
    ;

    /// Nothing goes before itself.
    proof fn lemma_outranks_irreflexive(a: Self)
        ensures
            !a.outranks(a),
    ;

    /// Whether `self` goes strictly before `other`.
    fn goes_before(&self, other: &Self) -> (r: bool)
        ensures
            r == self.outranks(*other),
    ;
}

/// Numbers in ascending order.
impl Ranked for u64 {
    open spec fn outranks(self, other: u64) -> bool {
        self < other
    }

    proof fn lemma_outranks_transitive(a: u64, b: u64, c: u64) {
    }

    proof fn lemma_outranks_irreflexive(a: u64) {
    }

    fn goes_before(&self, other: &u64) -> (r: bool) {
        *self < *other
    }
}

/// Where `x` goes in the ordered list `sorted`, looking from position `j` on: before the
/// first item it outranks, or at the end.
pub open spec fn place_from<T: Ranked>(sorted: Seq<T>, x: T, j: int) -> int
    decreases sorted.len() - j,
{
    if 0 <= j < sorted.len() && !x.outranks(sorted[j]) {
        place_from(sorted, x, j + 1)
    } else {
        j
    }
}

/// `sorted` with `x` put in its place, after every item it does not outrank.
pub open spec fn placed<T: Ranked>(sorted: Seq<T>, x: T) -> Seq<T> {
    sorted.insert(place_from(sorted, x, 0), x)
}

/// `s` put in order, items that rank alike keeping their order.
pub open spec fn in_rank_order<T: Ranked>(s: Seq<T>) -> Seq<T>
    decreases s.len(),
{
    if s.len() == 0 {
        s
    } else {
        placed(in_rank_order(s.drop_last()), s.last())
    }
}

/// No item of `s` outranks one that comes before it.
pub open spec fn is_rank_ordered<T: Ranked>(s: Seq<T>) -> bool {
    forall|i: int, j: int| 0 <= i < j < s.len() ==> !(#[trigger] s[j]).outranks(#[trigger] s[i])
}

proof fn lemma_place_bounds<T: Ranked>(sorted: Seq<T>, x: T, j: int)
    requires
        0 <= j <= sorted.len(),
    ensures
        j <= place_from(sorted, x, j) <= sorted.len(),
        forall|k: int| j <= k < place_from(sorted, x, j) ==> !x.outranks(#[trigger] sorted[k]),
        place_from(sorted, x, j) < sorted.len() ==> x.outranks(sorted[place_from(sorted, x, j)]),
    decreases sorted.len() - j,
{
    if j < sorted.len() && !x.outranks(sorted[j]) {
        lemma_place_bounds(sorted, x, j + 1);
    }
}

proof fn lemma_placed_keeps_order<T: Ranked>(sorted: Seq<T>, x: T)
    requires
        is_rank_ordered(sorted),
    ensures
        is_rank_ordered(placed(sorted, x)),
        placed(sorted, x).to_multiset() == sorted.to_multiset().insert(x),
{
    let p = place_from(sorted, x, 0);
    lemma_place_bounds(sorted, x, 0);
    let r = placed(sorted, x);
    sorted.insert_ensures(p, x);
    vstd::seq_lib::to_multiset_insert(sorted, p, x);
    assert forall|i: int, j: int| 0 <= i < j < r.len() implies !(#[trigger] r[j]).outranks(
        #[trigger] r[i],
    ) by {
        if j < p {
            assert(r[i] == sorted[i] && r[j] == sorted[j]);
        } else if j == p {
            assert(r[i] == sorted[i]);
            assert(r[j] == x);
        } else if i == p {
            assert(r[i] == x);
            assert(r[j] == sorted[j - 1]);
            if r[j].outranks(x) {
                T::lemma_outranks_transitive(sorted[j - 1], x, sorted[p]);
                if p == j - 1 {
                    T::lemma_outranks_irreflexive(sorted[p]);
                } else {
                    assert(!sorted[j - 1].outranks(sorted[p]));
                }
            }
        } else if i < p {
            assert(r[i] == sorted[i] && r[j] == sorted[j - 1]);
        } else {
            assert(r[i] == sorted[i - 1] && r[j] == sorted[j - 1]);
        }
    }
}

/// Putting a list in rank order leaves it ordered, with the same items as often as
/// before.
pub proof fn law_rank_order_sorts<T: Ranked>(s: Seq<T>)
    ensures
        is_rank_ordered(in_rank_order(s)),
        in_rank_order(s).to_multiset() == s.to_multiset(),
        in_rank_order(s).len() == s.len(),
    decreases s.len(),
{
    if s.len() > 0 {
        law_rank_order_sorts(s.drop_last());
        lemma_placed_keeps_order(in_rank_order(s.drop_last()), s.last());
        vstd::seq_lib::to_multiset_build(s.drop_last(), s.last());
        assert(s.drop_last().push(s.last()) =~= s);
    }
    vstd::seq_lib::to_multiset_len(in_rank_order(s));
    vstd::seq_lib::to_multiset_len(s);
}

/// The items of `s` have pairwise different keys.
pub open spec fn keys_distinct<T>(s: Seq<T>, key: spec_fn(T) -> Seq<char>) -> bool {
    forall|i: int, j: int| 0 <= i < s.len() && 0 <= j < s.len() && i != j ==> key(#[trigger] s[i]) != key(#[trigger] s[j])
}

/// Putting items with pairwise different keys in rank order keeps their keys different.
pub proof fn law_rank_order_keeps_keys_distinct<T: Ranked>(s: Seq<T>, key: spec_fn(T) -> Seq<char>)
    requires
        keys_distinct(s, key),
    ensures
        keys_distinct(in_rank_order(s), key),
{
    let r = in_rank_order(s);
    law_rank_order_sorts(s);
    assert(s.no_duplicates()) by {
        assert forall|i: int, j: int| 0 <= i < s.len() && 0 <= j < s.len() && i != j implies s[i] != s[j] by {
            assert(key(s[i]) != key(s[j]));
        }
    }
    s.lemma_multiset_has_no_duplicates();
    r.lemma_multiset_has_no_duplicates_conv();
    assert forall|i: int, j: int| 0 <= i < r.len() && 0 <= j < r.len() && i != j implies key(#[trigger] r[i]) != key(#[trigger] r[j]) by {
        vstd::seq_lib::to_multiset_contains(r, r[i]);
        vstd::seq_lib::to_multiset_contains(r, r[j]);
        vstd::seq_lib::to_multiset_contains(s, r[i]);
        vstd::seq_lib::to_multiset_contains(s, r[j]);
        assert(r.contains(r[i]));
        assert(r.contains(r[j]));
        let a = choose|a: int| 0 <= a < s.len() && s[a] == r[i];
        let b = choose|b: int| 0 <= b < s.len() && s[b] == r[j];
        assert(r[i] != r[j]);
        assert(a != b);
    }
}

/// `v` in rank order; items that rank alike keep their order (a stable sort).
pub fn sort_ranked<T: Ranked>(v: Vec<T>) -> (r: Vec<T>)
    ensures
        r@ == in_rank_order(v@),
{
    let ghost orig = v@;
    let mut rest = v;
    let mut r: Vec<T> = Vec::new();
    let n = rest.len();
    let mut i: usize = 0;
    while i < n
        invariant
            n == orig.len(),
            i <= n,
            rest@ == orig.subrange(i as int, n as int),
            r@ == in_rank_order(orig.take(i as int)),
        decreases n - i,
    {
        let x = rest.remove(0);
        assert(x == orig[i as int]);
        let mut j: usize = 0;
        while j < r.len() && !x.goes_before(&r[j])
            invariant
                j <= r@.len(),
                place_from(r@, x, j as int) == place_from(r@, x, 0),
            decreases r@.len() - j,
        {
            j = j + 1;
        }
        proof {
            assert(orig.take(i + 1).drop_last() =~= orig.take(i as int));
            assert(orig.take(i + 1).last() == x);
        }
        r.insert(j, x);
        assert(rest@ =~= orig.subrange(i + 1, n as int));
        i = i + 1;
    }
    assert(orig.take(n as int) =~= orig);
    r
}

/// The first `n` items of `s`, or all of them when there are fewer.
pub open spec fn first_at_most<T>(s: Seq<T>, n: nat) -> Seq<T> {
    if s.len() > n {
        s.take(n as int)
    } else {
        s
    }
}

pub proof fn lemma_in_first_at_most<T>(s: Seq<T>, n: nat, k: int)
    requires
        0 <= k < first_at_most(s, n).len(),
    ensures
        first_at_most(s, n).len() <= s.len(),
        first_at_most(s, n)[k] == s[k],
        s.contains(first_at_most(s, n)[k]),
{
    assert(s[k] == first_at_most(s, n)[k]);
}

pub proof fn lemma_sorted_member<T: Ranked>(s: Seq<T>, k: int)
    requires
        0 <= k < in_rank_order(s).len(),
    ensures
        s.contains(in_rank_order(s)[k]),
{
    law_rank_order_sorts(s);
    let x = in_rank_order(s)[k];
    assert(in_rank_order(s).contains(x));
    vstd::seq_lib::to_multiset_contains(in_rank_order(s), x);
    vstd::seq_lib::to_multiset_contains(s, x);
}
pub proof fn lemma_prefix_keeps_keys_distinct<T>(s: Seq<T>, n: nat, key: spec_fn(T) -> Seq<char>)
    requires
        keys_distinct(s, key),
    ensures
        keys_distinct(first_at_most(s, n), key),
{
    let t = first_at_most(s, n);
    assert forall|i: int, j: int| 0 <= i < t.len() && 0 <= j < t.len() && i != j implies key(
        #[trigger] t[i],
    ) != key(#[trigger] t[j]) by {
        lemma_in_first_at_most(s, n, i);
        lemma_in_first_at_most(s, n, j);
    }
}

} // verus!
