//! What it means to select from a list: the items at some places, in order, each
//! place once.

use vstd::prelude::*;

verus! {

/// Whether a list holds the items at some places of another one, in order.
pub open spec fn picks<A>(all: Seq<A>, chosen: Seq<A>, places: Seq<int>) -> bool {
    &&& chosen.len() == places.len()
    &&& forall|i: int| 0 <= i < places.len() ==> 0 <= #[trigger] places[i] < all.len() && chosen[i] == all[places[i]]
    &&& forall|i: int, j: int| 0 <= i < j < places.len() ==> #[trigger] places[i] < #[trigger] places[j]
}

/// Selecting nothing.
pub proof fn pick_nothing<A>(all: Seq<A>)
    ensures
        picks(all, Seq::<A>::empty(), Seq::<int>::empty()),
        forall|x: int| !(#[trigger] Seq::<int>::empty().contains(x)),
{
}

/// Selecting one more item, behind all the others.
pub proof fn pick_next<A>(all: Seq<A>, chosen: Seq<A>, places: Seq<int>, k: int)
    requires
        picks(all, chosen, places),
        0 <= k < all.len(),
        forall|x: int| #[trigger] places.contains(x) ==> x < k,
    ensures
        picks(all, chosen.push(all[k]), places.push(k)),
        forall|x: int| #[trigger] places.push(k).contains(x) <==> places.contains(x) || x == k,
{
    let more = places.push(k);
    assert forall|i: int| 0 <= i < places.len() implies #[trigger] places[i] < k by {
        assert(places.contains(places[i]));
    }
    assert forall|x: int| #[trigger] more.contains(x) <==> places.contains(x) || x == k by {
        if places.contains(x) {
            let i = choose|i: int| 0 <= i < places.len() && places[i] == x;
            assert(more[i] == x);
        }
        if x == k {
            assert(more[places.len() as int] == x);
        }
        if more.contains(x) {
            let i = choose|i: int| 0 <= i < more.len() && more[i] == x;
            if i < places.len() {
                assert(places[i] == x);
            }
        }
    }
}

/// What is selected are exactly the items at the places.
pub proof fn picked_items<A>(all: Seq<A>, chosen: Seq<A>, places: Seq<int>, x: A)
    requires
        picks(all, chosen, places),
    ensures
        chosen.contains(x) <==> exists|k: int| #[trigger] places.contains(k) && all[k] == x,
{
    if chosen.contains(x) {
        let i = choose|i: int| 0 <= i < chosen.len() && chosen[i] == x;
        assert(places.contains(places[i]));
        assert(all[places[i]] == x);
    }
    if exists|k: int| #[trigger] places.contains(k) && all[k] == x {
        let k = choose|k: int| #[trigger] places.contains(k) && all[k] == x;
        let i = choose|i: int| 0 <= i < places.len() && places[i] == k;
        assert(chosen[i] == x);
    }
}

/// Two lists behind each other hold what either holds.
pub proof fn sum_contains<A>(a: Seq<A>, b: Seq<A>, x: A)
    ensures
        (a + b).contains(x) <==> a.contains(x) || b.contains(x),
{
    let c = a + b;
    if a.contains(x) {
        let i = choose|i: int| 0 <= i < a.len() && a[i] == x;
        assert(c[i] == x);
    }
    if b.contains(x) {
        let i = choose|i: int| 0 <= i < b.len() && b[i] == x;
        assert(c[a.len() + i] == x);
    }
    if c.contains(x) {
        let i = choose|i: int| 0 <= i < c.len() && c[i] == x;
        if i < a.len() {
            assert(a[i] == x);
        } else {
            assert(b[i - a.len()] == x);
        }
    }
}

/// Whether a list goes on where another one ends.
pub open spec fn goes_on<A>(a: Seq<A>, b: Seq<A>) -> bool {
    a.len() <= b.len() && forall|i: int| 0 <= i < a.len() ==> #[trigger] b[i] == a[i]
}

/// What a list holds, a list that goes on from it holds too.
pub proof fn going_on_keeps<A>(a: Seq<A>, b: Seq<A>, x: A)
    requires
        goes_on(a, b),
        a.contains(x),
    ensures
        b.contains(x),
{
    let i = choose|i: int| 0 <= i < a.len() && a[i] == x;
    assert(b[i] == x);
}

}
