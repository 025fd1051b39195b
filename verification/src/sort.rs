//! Stable sorting by lists of numbers, compared from the left.
use vstd::prelude::*;

verus! {

/// `a` comes before `b`: at the first difference it is smaller, or it ends first.
pub open spec fn lex_lt(a: Seq<u64>, b: Seq<u64>) -> bool
    decreases b.len(),
{
    if b.len() == 0 {
        false
    } else if a.len() == 0 {
        true
    } else {
        a[0] < b[0] || (a[0] == b[0] && lex_lt(a.drop_first(), b.drop_first()))
    }
}

/// Position `a` goes before position `b`: by the key, and by the position where the keys are equal.
pub open spec fn goes_before(keys: Seq<Seq<u64>>, a: int, b: int) -> bool {
    lex_lt(keys[a], keys[b]) || (keys[a] == keys[b] && a < b)
}

/// `order` lists every position of `keys` once, in stable ascending order.
pub open spec fn is_stable_order(keys: Seq<Seq<u64>>, order: Seq<usize>) -> bool {
    &&& order.len() == keys.len()
    &&& forall|i: int| 0 <= i < order.len() ==> (#[trigger] order[i]) < keys.len()
    &&& forall|a: usize| a < keys.len() ==> #[trigger] order.contains(a)
    &&& forall|i: int, j: int|
        0 <= i < j < order.len() ==> goes_before(
            keys,
            (#[trigger] order[i]) as int,
            (#[trigger] order[j]) as int,
        )
}

/// The stable ascending order of the positions of `keys`.
pub open spec fn stable_order(keys: Seq<Seq<u64>>) -> Seq<usize> {
    choose|order: Seq<usize>| is_stable_order(keys, order)
}

/// Nothing comes before itself.
pub proof fn lemma_lex_irreflexive(a: Seq<u64>)
    ensures
        !lex_lt(a, a),
    decreases a.len(),
{
    if a.len() > 0 {
        lemma_lex_irreflexive(a.drop_first());
    }
}

/// Of two lists one comes before the other, or they are equal.
pub proof fn lemma_lex_total(a: Seq<u64>, b: Seq<u64>)
    ensures
        lex_lt(a, b) || a == b || lex_lt(b, a),
    decreases a.len(),
{
    if a.len() > 0 && b.len() > 0 {
        lemma_lex_total(a.drop_first(), b.drop_first());
        if a[0] == b[0] && a.drop_first() == b.drop_first() {
            assert(a == seq![a[0]] + a.drop_first());
            assert(b == seq![b[0]] + b.drop_first());
        }
    } else if a.len() == 0 && b.len() == 0 {
        assert(a =~= b);
    }
}

/// The order of lists carries over from one pair to the next.
pub proof fn lemma_lex_transitive(a: Seq<u64>, b: Seq<u64>, c: Seq<u64>)
    requires
        lex_lt(a, b),
        lex_lt(b, c),
    ensures
        lex_lt(a, c),
    decreases c.len(),
{
    if a.len() > 0 && b.len() > 0 && c.len() > 0 && a[0] == b[0] && b[0] == c[0] {
        lemma_lex_transitive(a.drop_first(), b.drop_first(), c.drop_first());
    }
}

proof fn lemma_goes_before_transitive(keys: Seq<Seq<u64>>, a: int, b: int, c: int)
    requires
        goes_before(keys, a, b),
        goes_before(keys, b, c),
    ensures
        goes_before(keys, a, c),
{
    if lex_lt(keys[a], keys[b]) && lex_lt(keys[b], keys[c]) {
        lemma_lex_transitive(keys[a], keys[b], keys[c]);
    }
}

proof fn lemma_goes_before_strict(keys: Seq<Seq<u64>>, a: int, b: int)
    requires
        goes_before(keys, a, b),
    ensures
        a != b,
        !goes_before(keys, b, a),
{
    lemma_lex_irreflexive(keys[a]);
    lemma_lex_irreflexive(keys[b]);
    if lex_lt(keys[a], keys[b]) && lex_lt(keys[b], keys[a]) {
        lemma_lex_transitive(keys[a], keys[b], keys[a]);
    }
}

/// There is only one stable order.
pub proof fn lemma_stable_order_unique(keys: Seq<Seq<u64>>, p: Seq<usize>, q: Seq<usize>)
    requires
        is_stable_order(keys, p),
        is_stable_order(keys, q),
    ensures
        p == q,
{
    lemma_same_up_to(keys, p, q, keys.len() as int);
    assert(p =~= q);
}

proof fn lemma_same_up_to(keys: Seq<Seq<u64>>, p: Seq<usize>, q: Seq<usize>, n: int)
    requires
        is_stable_order(keys, p),
        is_stable_order(keys, q),
        0 <= n <= keys.len(),
    ensures
        forall|i: int| 0 <= i < n ==> p[i] == q[i],
    decreases n,
{
    if n > 0 {
        lemma_same_up_to(keys, p, q, n - 1);
        let i = n - 1;
        if p[i] != q[i] {
            lemma_lex_total(keys[p[i] as int], keys[q[i] as int]);
            if goes_before(keys, p[i] as int, q[i] as int) {
                lemma_no_gap(keys, p, q, i);
            } else {
                assert(goes_before(keys, q[i] as int, p[i] as int));
                lemma_no_gap(keys, q, p, i);
            }
        }
    }
}

proof fn lemma_no_gap(keys: Seq<Seq<u64>>, p: Seq<usize>, q: Seq<usize>, i: int)
    requires
        is_stable_order(keys, p),
        is_stable_order(keys, q),
        0 <= i < keys.len(),
        forall|j: int| 0 <= j < i ==> p[j] == q[j],
    ensures
        !goes_before(keys, p[i] as int, q[i] as int),
{
    if goes_before(keys, p[i] as int, q[i] as int) {
        lemma_goes_before_strict(keys, p[i] as int, q[i] as int);
        assert(q.contains(p[i]));
        let k = choose|k: int| 0 <= k < q.len() && q[k] == p[i];
        if k < i {
            assert(p[k] == p[i]);
            assert(goes_before(keys, p[k] as int, p[i] as int));
            lemma_goes_before_strict(keys, p[k] as int, p[i] as int);
        } else if k > i {
            assert(goes_before(keys, q[i] as int, q[k] as int));
        }
    }
}

/// Where a new position goes in an order: before the first whose key comes after its own.
spec fn place_for(keys: Seq<Seq<u64>>, order: Seq<usize>, key: Seq<u64>, n: nat) -> nat
    decreases n,
{
    if n == 0 || !lex_lt(key, keys[order[n - 1] as int]) {
        n
    } else {
        place_for(keys, order, key, (n - 1) as nat)
    }
}

proof fn lemma_place_for(keys: Seq<Seq<u64>>, order: Seq<usize>, key: Seq<u64>, n: nat)
    requires
        n <= order.len(),
    ensures
        place_for(keys, order, key, n) <= n,
        forall|i: int| place_for(keys, order, key, n) <= i < n ==> lex_lt(key, keys[(#[trigger] order[i]) as int]),
        place_for(keys, order, key, n) > 0 ==> !lex_lt(
            key,
            keys[order[place_for(keys, order, key, n) - 1] as int],
        ),
    decreases n,
{
    if n > 0 && lex_lt(key, keys[order[n - 1] as int]) {
        lemma_place_for(keys, order, key, (n - 1) as nat);
    }
}

/// Every list of keys has a stable order, and [`stable_order`] is it.
pub proof fn lemma_stable_order_is_one(keys: Seq<Seq<u64>>)
    requires
        keys.len() <= usize::MAX,
    ensures
        is_stable_order(keys, stable_order(keys)),
{
    let order = lemma_stable_order_exists(keys);
    assert(is_stable_order(keys, order));
}

proof fn lemma_stable_order_exists(keys: Seq<Seq<u64>>) -> (r: Seq<usize>)
    requires
        keys.len() <= usize::MAX,
    ensures
        is_stable_order(keys, r),
    decreases keys.len(),
{
    if keys.len() == 0 {
        Seq::empty()
    } else {
        let before = keys.drop_last();
        let p = lemma_stable_order_exists(before);
        let last = (keys.len() - 1) as usize;
        let key = keys.last();
        let at = place_for(before, p, key, p.len()) as int;
        lemma_place_for(before, p, key, p.len());
        let r = p.insert(at, last);
        assert forall|a: usize| a < keys.len() implies #[trigger] r.contains(a) by {
            if a == last {
                assert(r[at] == last);
            } else {
                assert(p.contains(a));
                let k = choose|k: int| 0 <= k < p.len() && p[k] == a;
                if k < at {
                    assert(r[k] == a);
                } else {
                    assert(r[k + 1] == a);
                }
            }
        }
        assert forall|i: int, j: int| 0 <= i < j < r.len() implies goes_before(
            keys,
            (#[trigger] r[i]) as int,
            (#[trigger] r[j]) as int,
        ) by {
            let a: int = if i < at {
                i
            } else {
                i - 1
            };
            let b: int = if j < at {
                j
            } else {
                j - 1
            };
            if i != at && j != at {
                assert(r[i] == p[a] && r[j] == p[b]);
                assert(goes_before(before, p[a] as int, p[b] as int));
            } else if i == at {
                assert(r[j] == p[b]);
                assert(lex_lt(key, before[p[b] as int]));
            } else {
                assert(r[i] == p[a]);
                lemma_lex_total(before[p[a] as int], key);
                lemma_not_after(before, p, key, a, at - 1);
            }
        }
        r
    }
}

/// What stands before something that does not come after a key does not come after it either.
proof fn lemma_not_after(keys: Seq<Seq<u64>>, order: Seq<usize>, key: Seq<u64>, a: int, b: int)
    requires
        is_stable_order(keys, order),
        0 <= a <= b < order.len(),
        !lex_lt(key, keys[order[b] as int]),
    ensures
        !lex_lt(key, keys[order[a] as int]),
{
    if a < b && lex_lt(key, keys[order[a] as int]) {
        assert(goes_before(keys, order[a] as int, order[b] as int));
        if lex_lt(keys[order[a] as int], keys[order[b] as int]) {
            lemma_lex_transitive(key, keys[order[a] as int], keys[order[b] as int]);
        }
    }
}

/// The views of a list of keys.
pub open spec fn key_views(keys: Seq<Vec<u64>>) -> Seq<Seq<u64>> {
    keys.map_values(|k: Vec<u64>| k@)
}

/// Whether `a` comes before `b`.
fn comes_before(a: &Vec<u64>, b: &Vec<u64>) -> (r: bool)
    ensures
        r == lex_lt(a@, b@),
{
    let mut i: usize = 0;
    assert(a@.skip(0) == a@);
    assert(b@.skip(0) == b@);
    while i < a.len() && i < b.len() && a[i] == b[i]
        invariant
            i <= a@.len(),
            i <= b@.len(),
            lex_lt(a@.skip(i as int), b@.skip(i as int)) == lex_lt(a@, b@),
        decreases a.len() - i,
    {
        assert(a@.skip(i as int).drop_first() == a@.skip(i + 1));
        assert(b@.skip(i as int).drop_first() == b@.skip(i + 1));
        i += 1;
    }
    if i == b.len() {
        false
    } else if i == a.len() {
        true
    } else {
        a[i] < b[i]
    }
}

/// The positions of `keys` in stable ascending order.
#[verifier::loop_isolation(false)]
pub fn order_of(keys: &Vec<Vec<u64>>) -> (r: Vec<usize>)
    ensures
        r@ == stable_order(key_views(keys@)),
        is_stable_order(key_views(keys@), r@),
{
    let ghost ks = key_views(keys@);
    let mut order: Vec<usize> = Vec::new();
    let mut k: usize = 0;
    while k < keys.len()
        invariant
            k <= keys@.len(),
            order@.len() == k,
            forall|i: int| 0 <= i < order@.len() ==> (#[trigger] order@[i]) < k,
            forall|a: usize| a < k ==> #[trigger] order@.contains(a),
            forall|i: int, j: int|
                0 <= i < j < order@.len() ==> goes_before(
                    ks,
                    (#[trigger] order@[i]) as int,
                    (#[trigger] order@[j]) as int,
                ),
        decreases keys.len() - k,
    {
        let mut pos: usize = order.len();
        while pos > 0 && comes_before(&keys[k], &keys[order[pos - 1]])
            invariant
                pos <= order@.len(),
                forall|j: int|
                    pos <= j < order@.len() ==> lex_lt(ks[k as int], ks[(#[trigger] order@[j]) as int]),
            decreases pos,
        {
            pos -= 1;
        }
        let ghost before = order@;
        order.insert(pos, k);
        proof {
            assert(order@ == before.insert(pos as int, k));
            assert forall|a: usize| a < k + 1 implies #[trigger] order@.contains(a) by {
                if a == k {
                    assert(order@[pos as int] == a);
                } else {
                    assert(before.contains(a));
                    let i = choose|i: int| 0 <= i < before.len() && before[i] == a;
                    if i < pos {
                        assert(order@[i] == a);
                    } else {
                        assert(order@[i + 1] == a);
                    }
                }
            }
            assert forall|i: int| 0 <= i < pos implies goes_before(
                ks,
                (#[trigger] before[i]) as int,
                k as int,
            ) by {
                let last = before[pos - 1] as int;
                lemma_lex_total(ks[k as int], ks[last]);
                assert(goes_before(ks, last, k as int));
                if i < pos - 1 {
                    assert(goes_before(ks, before[i] as int, last));
                    lemma_goes_before_transitive(ks, before[i] as int, last, k as int);
                }
            }
            assert forall|i: int, j: int| 0 <= i < j < order@.len() implies goes_before(
                ks,
                (#[trigger] order@[i]) as int,
                (#[trigger] order@[j]) as int,
            ) by {
                if j == pos {
                    assert(order@[i] == before[i]);
                } else if i == pos {
                    assert(order@[j] == before[j - 1]);
                }
            }
        }
        k += 1;
    }
    proof {
        assert(is_stable_order(ks, order@));
        lemma_stable_order_unique(ks, order@, stable_order(ks));
    }
    order
}

/// The code points of `s`, by which strings are ordered.
pub open spec fn text_key(s: Seq<char>) -> Seq<u64> {
    s.map_values(|c: char| c as u64)
}

/// The code points of `s`, by which strings are ordered.
pub fn key_of_text(s: &str) -> (r: Vec<u64>)
    ensures
        r@ == text_key(s@),
{
    let chars = crate::text::chars_of(s);
    let mut r: Vec<u64> = Vec::new();
    for i in 0..chars.len()
        invariant
            r@ == text_key(chars@.take(i as int)),
    {
        r.push(chars[i] as u64);
        assert(text_key(chars@.take(i + 1)) == text_key(chars@.take(i as int)).push(
            chars@[i as int] as u64,
        ));
    }
    assert(chars@.take(chars@.len() as int) == chars@);
    r
}

/// The items of `list` at the positions `order`.
pub open spec fn arranged<T>(list: Seq<T>, order: Seq<usize>) -> Seq<T> {
    order.map_values(|i: usize| list[i as int])
}

/// Of lists of one number the smaller number comes first.
pub proof fn lemma_lex_one(a: Seq<u64>, b: Seq<u64>)
    requires
        a.len() == 1,
        b.len() == 1,
    ensures
        lex_lt(a, b) == (a[0] < b[0]),
{
    reveal_with_fuel(lex_lt, 2);
}

/// Of lists of two numbers the smaller first number comes first, and the smaller second one where the first
/// are equal.
pub proof fn lemma_lex_two(a: Seq<u64>, b: Seq<u64>)
    requires
        a.len() == 2,
        b.len() == 2,
    ensures
        lex_lt(a, b) == (a[0] < b[0] || (a[0] == b[0] && a[1] < b[1])),
{
    reveal_with_fuel(lex_lt, 3);
}

/// A list that is put in the order of its keys holds its items once each; no key comes before an earlier
/// one, and items with equal keys keep their order.
pub proof fn lemma_arranged<T>(list: Seq<T>, keys: Seq<Seq<u64>>)
    requires
        keys.len() == list.len(),
        list.len() <= usize::MAX,
    ensures
        ({
            let order = stable_order(keys);
            let r = arranged(list, order);
            &&& r.len() == list.len() && order.len() == list.len()
            &&& forall|i: int| 0 <= i < r.len() ==> (#[trigger] order[i]) < list.len() && r[i] == list[order[i] as int]
            &&& forall|k: usize| k < list.len() ==> #[trigger] order.contains(k)
            &&& order.no_duplicates()
            &&& forall|i: int, j: int|
                0 <= i < j < r.len() ==> !lex_lt(keys[(#[trigger] order[j]) as int], keys[(#[trigger] order[i]) as int]) && (
                keys[order[i] as int] == keys[order[j] as int] ==> order[i] < order[j])
        }),
{
    let order = stable_order(keys);
    lemma_stable_order_is_one(keys);
    assert forall|i: int, j: int| 0 <= i < j < order.len() implies !lex_lt(
        keys[(#[trigger] order[j]) as int],
        keys[(#[trigger] order[i]) as int],
    ) && (keys[order[i] as int] == keys[order[j] as int] ==> order[i] < order[j]) && order[i] != order[j] by {
        assert(goes_before(keys, order[i] as int, order[j] as int));
        lemma_goes_before_strict(keys, order[i] as int, order[j] as int);
        lemma_lex_irreflexive(keys[order[i] as int]);
    }
    assert(order.no_duplicates()) by {
        assert forall|i: int, j: int| 0 <= i < order.len() && 0 <= j < order.len() && i != j implies order[i] != order[j] by {
            if i < j {
                assert(order[i] != order[j]);
            } else {
                assert(order[j] != order[i]);
            }
        }
    }
}

} // verus!
