//! Lexicographic order of integer keys, and stable sorting by such keys.
use vstd::prelude::*;
use vstd::seq_lib::to_multiset_build;

verus! {

/// How two keys stand to each other.
#[derive(Clone, Copy, PartialEq, Eq, Structural, Debug)]
pub enum KeyOrder {
    Less,
    Equal,
    Greater,
}

/// Whether key `a` comes strictly before key `b`: at the first difference its
/// number is smaller, or it ends there.
pub open spec fn key_lt(a: Seq<int>, b: Seq<int>) -> bool
    decreases a.len(),
{
    b.len() > 0 && (a.len() == 0 || a[0] < b[0] || (a[0] == b[0] && key_lt(a.skip(1), b.skip(1))))
}

/// Whether key `a` does not come after key `b`.
pub open spec fn key_le(a: Seq<int>, b: Seq<int>) -> bool {
    a == b || key_lt(a, b)
}

/// The integers of an executable key.
pub open spec fn ints(k: Seq<u128>) -> Seq<int> {
    Seq::new(k.len(), |i: int| k[i] as int)
}

pub open spec fn key_order(a: Seq<int>, b: Seq<int>) -> KeyOrder {
    if key_lt(a, b) {
        KeyOrder::Less
    } else if a == b {
        KeyOrder::Equal
    } else {
        KeyOrder::Greater
    }
}

/// No key comes before itself.
pub proof fn lemma_key_lt_irreflexive(a: Seq<int>)
    ensures
        !key_lt(a, a),
    decreases a.len(),
{
    if a.len() > 0 {
        lemma_key_lt_irreflexive(a.skip(1));
    }
}

/// Of two different keys one comes before the other.
pub proof fn lemma_key_lt_total(a: Seq<int>, b: Seq<int>)
    ensures
        key_lt(a, b) || a == b || key_lt(b, a),
    decreases a.len(),
{
    if a.len() > 0 && b.len() > 0 && a[0] == b[0] {
        lemma_key_lt_total(a.skip(1), b.skip(1));
        if a.skip(1) == b.skip(1) {
            assert(a == seq![a[0]] + a.skip(1));
            assert(b == seq![b[0]] + b.skip(1));
        }
    } else if a.len() == 0 && b.len() == 0 {
        assert(a == b);
    }
}

/// The order of keys is transitive.
pub proof fn lemma_key_lt_transitive(a: Seq<int>, b: Seq<int>, c: Seq<int>)
    requires
        key_lt(a, b),
        key_lt(b, c),
    ensures
        key_lt(a, c),
    decreases a.len(),
{
    if a.len() > 0 && a[0] == b[0] && b[0] == c[0] {
        lemma_key_lt_transitive(a.skip(1), b.skip(1), c.skip(1));
    }
}

/// Of two keys at most one comes before the other.
pub proof fn lemma_key_lt_asymmetric(a: Seq<int>, b: Seq<int>)
    ensures
        !(key_lt(a, b) && key_lt(b, a)),
{
    if key_lt(a, b) && key_lt(b, a) {
        lemma_key_lt_transitive(a, b, a);
        lemma_key_lt_irreflexive(a);
    }
}

pub proof fn lemma_key_le_transitive(a: Seq<int>, b: Seq<int>, c: Seq<int>)
    requires
        key_le(a, b),
        key_le(b, c),
    ensures
        key_le(a, c),
{
    if key_lt(a, b) && key_lt(b, c) {
        lemma_key_lt_transitive(a, b, c);
    }
}

/// Compares two keys.
pub fn compare_keys(a: &Vec<u128>, b: &Vec<u128>) -> (r: KeyOrder)
    ensures
        r == key_order(ints(a@), ints(b@)),
{
    let ghost s = ints(a@);
    let ghost t = ints(b@);
    let mut i: usize = 0;
    assert(s.skip(0) == s && t.skip(0) == t);
    while i < a.len() && i < b.len()
        invariant
            i <= a.len(),
            i <= b.len(),
            s == ints(a@),
            t == ints(b@),
            s.take(i as int) == t.take(i as int),
            key_lt(s, t) == key_lt(s.skip(i as int), t.skip(i as int)),
        decreases a.len() - i,
    {
        if a[i] < b[i] {
            return KeyOrder::Less;
        }
        if b[i] < a[i] {
            assert(s[i as int] != t[i as int]);
            return KeyOrder::Greater;
        }
        proof {
            assert(s.take(i + 1) == s.take(i as int).push(s[i as int]));
            assert(t.take(i + 1) == t.take(i as int).push(t[i as int]));
            assert(s.skip(i as int).skip(1) == s.skip(i + 1));
            assert(t.skip(i as int).skip(1) == t.skip(i + 1));
        }
        i += 1;
    }
    if a.len() < b.len() {
        KeyOrder::Less
    } else if a.len() == b.len() {
        proof {
            assert(s.take(s.len() as int) == s && t.take(t.len() as int) == t);
            lemma_key_lt_irreflexive(s);
        }
        KeyOrder::Equal
    } else {
        KeyOrder::Greater
    }
}

/// `order` with the index `x` put behind the last index whose key does not
/// come after that of `x`.
pub open spec fn placed(order: Seq<int>, keys: Seq<Seq<int>>, x: int) -> Seq<int>
    decreases order.len(),
{
    if order.len() == 0 || key_le(keys[order.last()], keys[x]) {
        order.push(x)
    } else {
        placed(order.drop_last(), keys, x).push(order.last())
    }
}

/// The indices of the first `n` keys in stable order: by key, and by index
/// where keys are equal.
pub open spec fn stable_order_of(keys: Seq<Seq<int>>, n: nat) -> Seq<int>
    decreases n,
{
    if n == 0 {
        seq![]
    } else {
        placed(stable_order_of(keys, (n - 1) as nat), keys, n - 1)
    }
}

/// The indices of `keys` in stable order.
pub open spec fn stable_order(keys: Seq<Seq<int>>) -> Seq<int> {
    stable_order_of(keys, keys.len())
}

/// `items` in the order that `order` gives.
pub open spec fn reordered<T>(items: Seq<T>, order: Seq<int>) -> Seq<T> {
    Seq::new(order.len(), |i: int| items[order[i]])
}

/// `items`, of which `keys` holds the keys, stably sorted.
pub open spec fn sorted_by<T>(items: Seq<T>, keys: Seq<Seq<int>>) -> Seq<T> {
    reordered(items, stable_order(keys))
}

/// Whether the keys along `order` never step back, and equal keys stand by index.
pub open spec fn in_stable_order(order: Seq<int>, keys: Seq<Seq<int>>) -> bool {
    forall|i: int, j: int|
        0 <= i < j < order.len() ==> {
            ||| key_lt(keys[#[trigger] order[i]], keys[#[trigger] order[j]])
            ||| keys[order[i]] == keys[order[j]] && order[i] < order[j]
        }
}

/// Whether `order` holds each of the indices `0..n` once.
pub open spec fn is_permutation(order: Seq<int>, n: nat) -> bool {
    &&& order.len() == n
    &&& forall|i: int| 0 <= i < n ==> 0 <= #[trigger] order[i] < n
    &&& forall|x: int| 0 <= x < n ==> order.contains(x)
}

proof fn lemma_placed(order: Seq<int>, keys: Seq<Seq<int>>, x: int)
    requires
        is_permutation(order, x as nat),
        x >= 0,
        in_stable_order(order, keys),
    ensures
        is_permutation(placed(order, keys, x), (x + 1) as nat),
        in_stable_order(placed(order, keys, x), keys),
{
    lemma_placed_at(order, keys, x);
    let p = choose|p: int| #[trigger] placed_at(order, keys, x, p);
    let r = placed(order, keys, x);
    assert(r == order.take(p).push(x) + order.skip(p));
    assert forall|i: int| 0 <= i < x + 1 implies 0 <= #[trigger] r[i] < x + 1 by {
        if i < p {
            assert(r[i] == order[i]);
        } else if i > p {
            assert(r[i] == order[i - 1]);
        }
    }
    assert forall|y: int| 0 <= y < x + 1 implies r.contains(y) by {
        if y == x {
            assert(r[p] == x);
        } else {
            assert(order.contains(y));
            let k = choose|k: int| 0 <= k < order.len() && order[k] == y;
            if k < p {
                assert(r[k] == y);
            } else {
                assert(r[k + 1] == y);
            }
        }
    }
    assert forall|i: int, j: int| 0 <= i < j < r.len() implies {
        ||| key_lt(keys[#[trigger] r[i]], keys[#[trigger] r[j]])
        ||| keys[r[i]] == keys[r[j]] && r[i] < r[j]
    } by {
        let a = if i < p { i } else { i - 1 };
        let b = if j < p { j } else { j - 1 };
        if i != p && j != p {
            assert(r[i] == order[a] && r[j] == order[b]);
        } else if j == p {
            assert(r[i] == order[i] && r[j] == x);
            assert(key_le(keys[order[i]], keys[x]));
        } else {
            assert(r[i] == x && r[j] == order[j - 1]);
            assert(!key_le(keys[order[j - 1]], keys[x]));
            lemma_key_lt_total(keys[order[j - 1]], keys[x]);
        }
    }
}

/// `p` is where `x` goes: the keys before it do not come after that of `x`,
/// the others do.
spec fn placed_at(order: Seq<int>, keys: Seq<Seq<int>>, x: int, p: int) -> bool {
    &&& 0 <= p <= order.len()
    &&& placed(order, keys, x) == order.take(p).push(x) + order.skip(p)
    &&& forall|i: int| 0 <= i < p ==> key_le(keys[#[trigger] order[i]], keys[x])
    &&& forall|i: int| p <= i < order.len() ==> !key_le(keys[#[trigger] order[i]], keys[x])
}

proof fn lemma_placed_at(order: Seq<int>, keys: Seq<Seq<int>>, x: int)
    requires
        in_stable_order(order, keys),
    ensures
        exists|p: int| #[trigger] placed_at(order, keys, x, p),
    decreases order.len(),
{
    if order.len() == 0 || key_le(keys[order.last()], keys[x]) {
        let p = order.len() as int;
        assert(order.take(p).push(x) + order.skip(p) == order.push(x));
        assert forall|i: int| 0 <= i < p implies key_le(keys[#[trigger] order[i]], keys[x]) by {
            if i < p - 1 {
                assert(key_le(keys[order[i]], keys[order[p - 1]]));
                lemma_key_le_transitive(keys[order[i]], keys[order[p - 1]], keys[x]);
            }
        }
        assert(placed_at(order, keys, x, p));
    } else {
        let rest = order.drop_last();
        assert(in_stable_order(rest, keys)) by {
            assert forall|i: int, j: int| 0 <= i < j < rest.len() implies {
                ||| key_lt(keys[#[trigger] rest[i]], keys[#[trigger] rest[j]])
                ||| keys[rest[i]] == keys[rest[j]] && rest[i] < rest[j]
            } by {
                assert(rest[i] == order[i] && rest[j] == order[j]);
            }
        }
        lemma_placed_at(rest, keys, x);
        let p = choose|p: int| #[trigger] placed_at(rest, keys, x, p);
        assert(order.take(p) == rest.take(p));
        assert(order.skip(p) == rest.skip(p).push(order.last()));
        assert(placed(order, keys, x) == order.take(p).push(x) + order.skip(p));
        assert forall|i: int| 0 <= i < p implies key_le(keys[#[trigger] order[i]], keys[x]) by {
            assert(rest[i] == order[i]);
        }
        assert forall|i: int| p <= i < order.len() implies !key_le(
            keys[#[trigger] order[i]],
            keys[x],
        ) by {
            if i < rest.len() {
                assert(rest[i] == order[i]);
            }
        }
        assert(placed_at(order, keys, x, p));
    }
}

/// Stable order holds every index once, in order of the keys, and equal keys
/// keep their order.
pub proof fn lemma_stable_order(keys: Seq<Seq<int>>, n: nat)
    requires
        n <= keys.len(),
    ensures
        is_permutation(stable_order_of(keys, n), n),
        in_stable_order(stable_order_of(keys, n), keys),
    decreases n,
{
    if n > 0 {
        lemma_stable_order(keys, (n - 1) as nat);
        lemma_placed(stable_order_of(keys, (n - 1) as nat), keys, n - 1);
    }
}

/// Placing an item keeps those that are there.
proof fn lemma_placed_items<T>(items: Seq<T>, order: Seq<int>, keys: Seq<Seq<int>>, x: int)
    ensures
        reordered(items, placed(order, keys, x)).to_multiset() == reordered(
            items,
            order,
        ).to_multiset().insert(items[x]),
    decreases order.len(),
{
    let all = placed(order, keys, x);
    if order.len() == 0 || key_le(keys[order.last()], keys[x]) {
        assert(reordered(items, all) == reordered(items, order).push(items[x]));
        to_multiset_build(reordered(items, order), items[x]);
    } else {
        let front = order.drop_last();
        let last = items[order.last()];
        lemma_placed_items(items, front, keys, x);
        assert(reordered(items, all) == reordered(items, placed(front, keys, x)).push(last));
        assert(reordered(items, order) == reordered(items, front).push(last));
        to_multiset_build(reordered(items, placed(front, keys, x)), last);
        to_multiset_build(reordered(items, front), last);
    }
}

proof fn lemma_sorted_items<T>(items: Seq<T>, keys: Seq<Seq<int>>, n: nat)
    requires
        n <= items.len(),
    ensures
        reordered(items, stable_order_of(keys, n)).to_multiset() == items.take(
            n as int,
        ).to_multiset(),
    decreases n,
{
    if n == 0 {
        assert(reordered(items, stable_order_of(keys, n)) == items.take(0));
    } else {
        let m = (n - 1) as nat;
        lemma_sorted_items(items, keys, m);
        lemma_placed_items(items, stable_order_of(keys, m), keys, n - 1);
        assert(items.take(n as int) == items.take(n - 1).push(items[n - 1]));
        to_multiset_build(items.take(n - 1), items[n - 1]);
    }
}

/// Sorting neither loses nor adds an item.
pub proof fn sorting_keeps_items<T>(items: Seq<T>, keys: Seq<Seq<int>>)
    requires
        items.len() == keys.len(),
    ensures
        sorted_by(items, keys).to_multiset() == items.to_multiset(),
{
    lemma_sorted_items(items, keys, items.len());
    assert(items.take(items.len() as int) == items);
}

/// The integers of executable keys.
pub open spec fn key_views(keys: Seq<Vec<u128>>) -> Seq<Seq<int>> {
    Seq::new(keys.len(), |i: int| ints(keys[i]@))
}

/// The integers of executable indices.
pub open spec fn index_views(order: Seq<usize>) -> Seq<int> {
    Seq::new(order.len(), |i: int| order[i] as int)
}

/// The indices of `keys` in stable order.
pub fn sort_indices(keys: &Vec<Vec<u128>>) -> (r: Vec<usize>)
    ensures
        index_views(r@) == stable_order(key_views(keys@)),
        r.len() == keys.len(),
        forall|i: int| 0 <= i < r.len() ==> #[trigger] r@[i] < keys.len(),
{
    let ghost ks = key_views(keys@);
    let mut r: Vec<usize> = Vec::new();
    let mut n: usize = 0;
    while n < keys.len()
        invariant
            n <= keys.len(),
            r.len() == n,
            ks == key_views(keys@),
            index_views(r@) == stable_order_of(ks, n as nat),
        decreases keys.len() - n,
    {
        let ghost order = index_views(r@);
        proof {
            lemma_stable_order(ks, n as nat);
            lemma_placed_at(order, ks, n as int);
        }
        let ghost p = choose|p: int| #[trigger] placed_at(order, ks, n as int, p);
        let mut low: usize = 0;
        let mut high: usize = n;
        while low < high
            invariant
                low <= p <= high <= n,
                n < keys.len(),
                r.len() == n,
                ks == key_views(keys@),
                order == index_views(r@),
                is_permutation(order, n as nat),
                placed_at(order, ks, n as int, p),
            decreases high - low,
        {
            let mid: usize = low + (high - low) / 2;
            proof {
                assert(0 <= order[mid as int] < n);
                assert(order[mid as int] == r@[mid as int]);
            }
            match compare_keys(&keys[r[mid]], &keys[n]) {
                KeyOrder::Greater => {
                    assert(!key_le(ks[order[mid as int]], ks[n as int]));
                    high = mid;
                },
                _ => {
                    assert(key_le(ks[order[mid as int]], ks[n as int]));
                    low = mid + 1;
                },
            }
        }
        r.insert(low, n);
        assert(index_views(r@) == order.take(p).push(n as int) + order.skip(p));
        n += 1;
    }
    proof {
        lemma_stable_order(ks, n as nat);
        assert forall|i: int| 0 <= i < r.len() implies #[trigger] r@[i] < keys.len() by {
            assert(index_views(r@)[i] == r@[i]);
        }
    }
    r
}

} // verus!
