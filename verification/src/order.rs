//! Sorting by textual keys.
//!
//! A key is a list of strings; keys are ordered by their first differing
//! string, and a key before every key that extends it.

use vstd::prelude::*;

use crate::strings::{before, before_irreflexive, before_is_lexicographic, before_total, before_transitive, less};
use crate::text::{same, views};

verus! {

/// A sort key.
pub type Key = Seq<Seq<char>>;

/// Whether key `a` comes before key `b`.
pub open spec fn key_before(a: Key, b: Key) -> bool
    decreases a.len(),
{
    if b.len() == 0 {
        false
    } else if a.len() == 0 {
        true
    } else if a[0] != b[0] {
        before(a[0], b[0])
    } else {
        key_before(a.skip(1), b.skip(1))
    }
}

/// The order of keys is irreflexive.
pub proof fn key_before_irreflexive(a: Key)
    ensures
        !key_before(a, a),
    decreases a.len(),
{
    if a.len() > 0 {
        key_before_irreflexive(a.skip(1));
    }
}

/// The order of keys is transitive.
pub proof fn key_before_transitive(a: Key, b: Key, c: Key)
    requires
        key_before(a, b),
        key_before(b, c),
    ensures
        key_before(a, c),
    decreases a.len(),
{
    if a.len() > 0 {
        if a[0] == b[0] && b[0] == c[0] {
            key_before_transitive(a.skip(1), b.skip(1), c.skip(1));
        } else if a[0] != b[0] && b[0] != c[0] {
            before_transitive(a[0], b[0], c[0]);
            if a[0] == c[0] {
                before_irreflexive(a[0]);
            }
        }
    }
}

/// Of two keys one comes first, or they are the same.
pub proof fn key_before_total(a: Key, b: Key)
    ensures
        key_before(a, b) || key_before(b, a) || a == b,
    decreases a.len(),
{
    if a.len() > 0 && b.len() > 0 {
        if a[0] == b[0] {
            key_before_total(a.skip(1), b.skip(1));
            if a.skip(1) == b.skip(1) {
                assert(a.skip(1).len() == b.skip(1).len());
                assert forall|i: int| 0 <= i < a.len() implies a[i] == b[i] by {
                    if i > 0 {
                        assert(a.skip(1)[i - 1] == b.skip(1)[i - 1]);
                    }
                }
                assert(a =~= b);
            }
        } else {
            before_total(a[0], b[0]);
        }
    } else if a.len() == 0 && b.len() == 0 {
        assert(a =~= b);
    }
}

/// Keys of one text are ordered as their texts are: behind a common beginning the
/// smaller character decides, and what ends first comes first.
pub proof fn keys_are_ordered_like_texts(common: Seq<char>, a: Seq<char>, b: Seq<char>)
    requires
        b.len() > 0,
        a.len() > 0 ==> a[0] < b[0],
    ensures
        key_before(seq![common + a], seq![common + b]),
        !key_before(seq![common + b], seq![common + a]),
{
    before_is_lexicographic(common, a, b);
    if common + a == common + b {
        before_irreflexive(common + a);
    }
}

/// Tells whether key `a` comes before key `b`.
pub fn key_less(a: &Vec<String>, b: &Vec<String>) -> (r: bool)
    ensures
        r == key_before(views(a@), views(b@)),
{
    let ghost x = views(a@);
    let ghost y = views(b@);
    let mut i: usize = 0;
    assert(x.skip(0) =~= x);
    assert(y.skip(0) =~= y);
    while i < a.len() && i < b.len()
        invariant
            i <= a@.len(),
            i <= b@.len(),
            x == views(a@),
            y == views(b@),
            key_before(x, y) == key_before(x.skip(i as int), y.skip(i as int)),
        decreases a@.len() - i,
    {
        assert(x.skip(i as int)[0] == a@[i as int]@);
        assert(y.skip(i as int)[0] == b@[i as int]@);
        if !same(a[i].as_str(), b[i].as_str()) {
            return less(a[i].as_str(), b[i].as_str());
        }
        assert(x.skip(i as int).skip(1) =~= x.skip(i + 1));
        assert(y.skip(i as int).skip(1) =~= y.skip(i + 1));
        i += 1;
    }
    i < b.len()
}

/// The first position from `i` on whose key comes after `k`, or the length.
pub open spec fn slot_from(keys: Seq<Key>, k: Key, i: int) -> int
    decreases keys.len() - i,
{
    if i < 0 || i >= keys.len() {
        keys.len() as int
    } else if key_before(k, keys[i]) {
        i
    } else {
        slot_from(keys, k, i + 1)
    }
}

/// The places that the first `n` items take in sorted order: each item stands
/// behind those whose key is not greater, so that items with equal keys keep
/// their order.
pub open spec fn sorting(keys: Seq<Key>, n: int) -> Seq<int>
    decreases n,
{
    if n <= 0 || n > keys.len() {
        Seq::empty()
    } else {
        let earlier = sorting(keys, n - 1);
        earlier.insert(slot_from(picked(keys, earlier), keys[n - 1], 0), n - 1)
    }
}

/// The items at the given places.
pub open spec fn picked<A>(items: Seq<A>, places: Seq<int>) -> Seq<A> {
    Seq::new(places.len(), |i: int| items[places[i]])
}

/// The order in which the items of a list come when sorted by their keys.
pub open spec fn sort_order(keys: Seq<Key>) -> Seq<int> {
    sorting(keys, keys.len() as int)
}

/// Whether no later key comes before an earlier one.
pub open spec fn ascending(keys: Seq<Key>) -> bool {
    forall|i: int, j: int| 0 <= i < j < keys.len() ==> !key_before(#[trigger] keys[j], #[trigger] keys[i])
}

/// The slot of a key splits the list.
pub proof fn slot_splits(keys: Seq<Key>, k: Key, i: int)
    requires
        0 <= i <= keys.len(),
    ensures
        i <= slot_from(keys, k, i) <= keys.len(),
        forall|j: int| i <= j < slot_from(keys, k, i) ==> !key_before(k, #[trigger] keys[j]),
        slot_from(keys, k, i) < keys.len() ==> key_before(k, keys[slot_from(keys, k, i)]),
    decreases keys.len() - i,
{
    if i < keys.len() && !key_before(k, keys[i]) {
        slot_splits(keys, k, i + 1);
    }
}

/// Sorting uses each of the first `n` places once.
pub proof fn sorting_is_permutation(keys: Seq<Key>, n: int)
    requires
        0 <= n <= keys.len(),
    ensures
        sorting(keys, n).len() == n,
        forall|i: int| 0 <= i < n ==> 0 <= #[trigger] sorting(keys, n)[i] < n,
        forall|i: int, j: int| 0 <= i < j < n ==> #[trigger] sorting(keys, n)[i] != #[trigger] sorting(keys, n)[j],
        forall|p: int| 0 <= p < n ==> sorting(keys, n).contains(p),
    decreases n,
{
    if n > 0 {
        let earlier = sorting(keys, n - 1);
        sorting_is_permutation(keys, n - 1);
        let k = slot_from(picked(keys, earlier), keys[n - 1], 0);
        slot_splits(picked(keys, earlier), keys[n - 1], 0);
        let s = sorting(keys, n);
        assert(s =~= earlier.insert(k, n - 1));
        assert forall|p: int| 0 <= p < n implies s.contains(p) by {
            if p == n - 1 {
                assert(s[k] == p);
            } else {
                assert(earlier.contains(p));
                let i = choose|i: int| 0 <= i < earlier.len() && earlier[i] == p;
                if i < k {
                    assert(s[i] == p);
                } else {
                    assert(s[i + 1] == p);
                }
            }
        }
    }
}

/// The sorted list is in ascending order of its keys.
pub proof fn sorting_is_ascending(keys: Seq<Key>, n: int)
    requires
        0 <= n <= keys.len(),
    ensures
        ascending(picked(keys, sorting(keys, n))),
    decreases n,
{
    if n > 0 {
        let earlier = sorting(keys, n - 1);
        sorting_is_ascending(keys, n - 1);
        sorting_is_permutation(keys, n - 1);
        let p = picked(keys, earlier);
        let x = keys[n - 1];
        let k = slot_from(p, x, 0);
        slot_splits(p, x, 0);
        let q = picked(keys, sorting(keys, n));
        assert(q =~= p.insert(k, x));
        assert forall|i: int, j: int| 0 <= i < j < q.len() implies !key_before(#[trigger] q[j], #[trigger] q[i]) by {
            let oi = if i < k { i } else { i - 1 };
            let oj = if j < k { j } else { j - 1 };
            if i == k {
                // everything behind the slot is not before the key
                assert(key_before(x, p[k]));
                assert(q[j] == p[oj]);
                if key_before(p[oj], x) {
                    key_before_transitive(p[oj], x, p[k]);
                    if oj == k {
                        key_before_irreflexive(p[k]);
                    } else {
                        assert(!key_before(p[oj], p[k]));
                    }
                }
            } else if j == k {
                assert(q[i] == p[i]);
            } else {
                assert(q[i] == p[oi]);
                assert(q[j] == p[oj]);
            }
        }
    }
}

/// The order in which the items of a list come when sorted by their keys.
pub fn sorted_places(keys: &Vec<Vec<String>>) -> (r: Vec<usize>)
    ensures
        r@.len() == keys@.len(),
        forall|i: int| 0 <= i < r@.len() ==> #[trigger] r@[i] < keys@.len(),
        r@.map_values(|p: usize| p as int) == sort_order(key_views(keys@)),
{
    let ghost ks = key_views(keys@);
    let mut out: Vec<usize> = Vec::new();
    let mut n: usize = 0;
    assert(out@.map_values(|p: usize| p as int) =~= sorting(ks, 0));
    while n < keys.len()
        invariant
            n <= keys@.len(),
            ks == key_views(keys@),
            out@.len() == n,
            forall|i: int| 0 <= i < out@.len() ==> #[trigger] out@[i] < n,
            out@.map_values(|p: usize| p as int) == sorting(ks, n as int),
        decreases keys@.len() - n,
    {
        let ghost earlier = sorting(ks, n as int);
        let ghost p = picked(ks, earlier);
        let mut k: usize = 0;
        while k < out.len() && !key_less(&keys[n], &keys[out[k]])
            invariant
                n < keys@.len(),
                k <= out@.len(),
                ks == key_views(keys@),
                out@.len() == n,
                forall|i: int| 0 <= i < out@.len() ==> #[trigger] out@[i] < n,
                out@.map_values(|p: usize| p as int) == earlier,
                p == picked(ks, earlier),
                slot_from(p, ks[n as int], 0) == slot_from(p, ks[n as int], k as int),
            decreases out@.len() - k,
        {
            assert(earlier[k as int] == out@[k as int]);
            assert(p[k as int] == views(keys@[out@[k as int] as int]@));
            k += 1;
        }
        proof {
            if k < out@.len() {
                assert(earlier[k as int] == out@[k as int]);
                assert(p[k as int] == views(keys@[out@[k as int] as int]@));
            }
            assert(slot_from(p, ks[n as int], 0) == k);
        }
        let ghost before_insert = out@;
        out.insert(k, n);
        proof {
            assert(out@.map_values(|p: usize| p as int) =~= earlier.insert(k as int, n as int));
            assert(sorting(ks, n + 1) == earlier.insert(k as int, n as int));
        }
        n += 1;
    }
    out
}

/// The keys of a list of key lists.
pub open spec fn key_views(keys: Seq<Vec<String>>) -> Seq<Key> {
    keys.map_values(|k: Vec<String>| views(k@))
}

}
