//! Searching sequences.
use vstd::prelude::*;

verus! {

/// The first position in `s` at which `p` holds; the length of `s` where it holds nowhere.
pub open spec fn first_where<T>(s: Seq<T>, p: spec_fn(T) -> bool) -> int
    decreases s.len(),
{
    if s.len() == 0 || p(s[0]) {
        0
    } else {
        1 + first_where(s.drop_first(), p)
    }
}

/// The first position is the one before which `p` holds nowhere.
pub proof fn lemma_first_where<T>(s: Seq<T>, p: spec_fn(T) -> bool, n: int)
    requires
        0 <= n <= s.len(),
        forall|j: int| 0 <= j < n ==> !p(#[trigger] s[j]),
        n < s.len() ==> p(s[n]),
    ensures
        first_where(s, p) == n,
    decreases n,
{
    if n > 0 {
        assert(!p(s[0]));
        let rest = s.drop_first();
        assert forall|j: int| 0 <= j < n - 1 implies !p(#[trigger] rest[j]) by {
            assert(rest[j] == s[j + 1]);
        }
        lemma_first_where(rest, p, n - 1);
    }
}

/// What the first position is.
pub proof fn lemma_first_where_is<T>(s: Seq<T>, p: spec_fn(T) -> bool)
    ensures
        0 <= first_where(s, p) <= s.len(),
        forall|j: int| 0 <= j < first_where(s, p) ==> !p(#[trigger] s[j]),
        first_where(s, p) < s.len() ==> p(s[first_where(s, p)]),
    decreases s.len(),
{
    if s.len() > 0 && !p(s[0]) {
        let rest = s.drop_first();
        lemma_first_where_is(rest, p);
        assert forall|j: int| 0 <= j < first_where(s, p) implies !p(#[trigger] s[j]) by {
            if j > 0 {
                assert(rest[j - 1] == s[j]);
            }
        }
    }
}

/// Filtering one item more.
pub proof fn lemma_filter_next<T>(s: Seq<T>, p: spec_fn(T) -> bool, i: int)
    requires
        0 <= i < s.len(),
    ensures
        s.take(i + 1).filter(p) == if p(s[i]) {
            s.take(i).filter(p).push(s[i])
        } else {
            s.take(i).filter(p)
        },
{
    reveal(Seq::filter);
    assert(s.take(i + 1).drop_last() == s.take(i));
    assert(s.take(i + 1).last() == s[i]);
}

/// `a` holds the items of `b`: at each position the one that `order` names there.
pub open spec fn rearranged<T>(a: Seq<T>, b: Seq<T>, order: Seq<int>) -> bool {
    &&& a.len() == b.len() && order.len() == b.len()
    &&& order.no_duplicates()
    &&& forall|i: int| 0 <= i < b.len() ==> 0 <= #[trigger] order[i] < b.len() && a[i] == b[order[i]]
}

/// `a` and `b` hold the same items, each as often, in whatever order.
pub open spec fn same_items<T>(a: Seq<T>, b: Seq<T>) -> bool {
    exists|order: Seq<int>| rearranged(a, b, order)
}

/// What is left of a sequence in order is in order.
pub proof fn lemma_filter_ordered<T>(s: Seq<T>, p: spec_fn(T) -> bool, key: spec_fn(T) -> int)
    requires
        forall|j: int, k: int| 0 <= j <= k < s.len() ==> key(#[trigger] s[j]) <= key(#[trigger] s[k]),
    ensures
        forall|j: int, k: int|
            0 <= j <= k < s.filter(p).len() ==> key(#[trigger] s.filter(p)[j]) <= key(#[trigger] s.filter(p)[k]),
        forall|j: int| 0 <= j < s.filter(p).len() ==> key(#[trigger] s.filter(p)[j]) <= key(s.last()),
    decreases s.len(),
{
    reveal(Seq::filter);
    if s.len() > 0 {
        let front = s.drop_last();
        assert forall|j: int, k: int| 0 <= j <= k < front.len() implies key(#[trigger] front[j]) <= key(#[trigger] front[k]) by {
            assert(front[j] == s[j] && front[k] == s[k]);
        }
        lemma_filter_ordered(front, p, key);
        let kept = front.filter(p);
        let all = s.filter(p);
        assert(all == if p(s.last()) {
            kept.push(s.last())
        } else {
            kept
        });
        if front.len() > 0 {
            assert(front.last() == s[s.len() - 2]);
            assert(key(s[s.len() - 2]) <= key(s[s.len() - 1]));
        } else {
            assert(kept.len() == 0);
        }
        assert forall|j: int| 0 <= j < all.len() implies key(#[trigger] all[j]) <= key(s.last()) by {
            if j < kept.len() {
                assert(all[j] == kept[j]);
            } else {
                assert(all[j] == s.last());
            }
        }
        assert forall|j: int, k: int| 0 <= j <= k < all.len() implies key(#[trigger] all[j]) <= key(#[trigger] all[k]) by {
            if k < kept.len() {
                assert(all[j] == kept[j] && all[k] == kept[k]);
            } else {
                assert(all[k] == s.last());
            }
        }
    }
}

/// What is left of a sequence are its items that pass, and no others.
pub proof fn lemma_filter_has<T>(s: Seq<T>, p: spec_fn(T) -> bool, x: T)
    ensures
        s.filter(p).contains(x) <==> s.contains(x) && p(x),
    decreases s.len(),
{
    reveal(Seq::filter);
    if s.len() > 0 {
        let front = s.drop_last();
        let kept = front.filter(p);
        let all = s.filter(p);
        lemma_filter_has(front, p, x);
        if all.contains(x) {
            let i = choose|i: int| 0 <= i < all.len() && all[i] == x;
            if i < kept.len() {
                assert(kept[i] == x);
                let j = choose|j: int| 0 <= j < front.len() && front[j] == x;
                assert(s[j] == x);
            } else {
                assert(s[s.len() - 1] == x);
            }
        }
        if s.contains(x) && p(x) {
            let j = choose|j: int| 0 <= j < s.len() && s[j] == x;
            if j < front.len() {
                assert(front[j] == x);
                let i = choose|i: int| 0 <= i < kept.len() && kept[i] == x;
                assert(all[i] == x);
            } else {
                assert(all[kept.len() as int] == x);
            }
        }
    }
}

} // verus!
