//! Walks over syntax trees.

use vstd::prelude::*;

use crate::tree::{group_tree, Syntax, TreeView};

verus! {

broadcast use group_tree;

/// A node and everything below it: each node before its children, the children
/// from right to left.
pub open spec fn descend(t: TreeView, n: usize) -> Seq<usize>
    decreases t.nodes.len() - n, t.kids(n).len() + 1,
{
    seq![n] + descend_kids(t, n, t.kids(n).len() as int)
}

/// The first `k` children of a node and everything below them, from right to
/// left.
pub open spec fn descend_kids(t: TreeView, n: usize, k: int) -> Seq<usize>
    decreases t.nodes.len() - n, k,
{
    if k <= 0 || k > t.kids(n).len() {
        Seq::empty()
    } else {
        descend(t, t.kids(n)[k - 1]) + descend_kids(t, n, k - 1)
    }
}

/// Appends a node and everything below it.
fn descend_into(t: &Syntax, n: usize, out: &mut Vec<usize>)
    requires
        t@.wf(),
        n < t@.nodes.len(),
        forall|i: int| 0 <= i < old(out)@.len() ==> (#[trigger] old(out)@[i]) < t@.nodes.len(),
    ensures
        final(out)@ == old(out)@ + descend(t@, n),
        forall|i: int| 0 <= i < final(out)@.len() ==> (#[trigger] final(out)@[i]) < t@.nodes.len(),
    decreases t@.nodes.len() - n,
{
    let ghost start = out@;
    out.push(n);
    let kids = t.kids(n);
    let mut k: usize = kids.len();
    let ghost all = descend_kids(t@, n, kids@.len() as int);
    assert(out@ =~= start + seq![n]);
    let ghost mut done: Seq<usize> = Seq::empty();
    assert(done + descend_kids(t@, n, k as int) =~= all);
    while k > 0
        invariant
            k <= kids@.len(),
            t@.wf(),
            n < t@.nodes.len(),
            kids@ == t@.kids(n),
            forall|j: int| 0 <= j < kids@.len() ==> t@.below(n, #[trigger] kids@[j]),
            forall|i: int| 0 <= i < out@.len() ==> (#[trigger] out@[i]) < t@.nodes.len(),
            out@ == start + seq![n] + done,
            done + descend_kids(t@, n, k as int) == all,
        decreases k,
    {
        k -= 1;
        let c = kids[k];
        assert(t@.below(n, c));
        let ghost before_call = out@;
        descend_into(t, c, out);
        proof {
            let next = done + descend(t@, c);
            assert(next + descend_kids(t@, n, k as int) =~= done + (descend(t@, c) + descend_kids(t@, n, k as int)));
            assert(out@ =~= start + seq![n] + next);
            done = next;
        }
    }
    assert(done =~= all);
    assert(out@ =~= start + descend(t@, n));
}

/// A node and everything below it.
pub fn descendants(t: &Syntax, n: usize) -> (r: Vec<usize>)
    requires
        t@.wf(),
        n < t@.nodes.len(),
    ensures
        r@ == descend(t@, n),
        forall|i: int| 0 <= i < r@.len() ==> (#[trigger] r@[i]) < t@.nodes.len(),
{
    let mut out: Vec<usize> = Vec::new();
    descend_into(t, n, &mut out);
    assert(out@ =~= descend(t@, n));
    out
}

/// The nodes of a kind below a node, from right to left; nothing is looked for
/// below a node that is of the kind.
pub open spec fn typed(t: TreeView, n: usize, kind: Seq<char>, k: int) -> Seq<usize>
    decreases t.nodes.len() - n, k,
{
    if k <= 0 || k > t.kids(n).len() {
        Seq::empty()
    } else {
        let c = t.kids(n)[k - 1];
        (if t.kind(c) == kind {
            seq![c]
        } else {
            typed(t, c, kind, t.kids(c).len() as int)
        }) + typed(t, n, kind, k - 1)
    }
}

/// Every node of a kind below a node.
pub open spec fn typed_below(t: TreeView, n: usize, kind: Seq<char>) -> Seq<usize> {
    typed(t, n, kind, t.kids(n).len() as int)
}

fn typed_into(t: &Syntax, n: usize, kind: &str, out: &mut Vec<usize>)
    requires
        t@.wf(),
        n < t@.nodes.len(),
        forall|i: int| 0 <= i < old(out)@.len() ==> (#[trigger] old(out)@[i]) < t@.nodes.len(),
    ensures
        final(out)@ == old(out)@ + typed_below(t@, n, kind@),
        forall|i: int| 0 <= i < final(out)@.len() ==> (#[trigger] final(out)@[i]) < t@.nodes.len(),
    decreases t@.nodes.len() - n,
{
    let ghost start = out@;
    let kids = t.kids(n);
    let mut k: usize = kids.len();
    let ghost all = typed_below(t@, n, kind@);
    let ghost mut done: Seq<usize> = Seq::empty();
    assert(done + typed(t@, n, kind@, k as int) =~= all);
    assert(out@ =~= start + done);
    while k > 0
        invariant
            k <= kids@.len(),
            t@.wf(),
            n < t@.nodes.len(),
            kids@ == t@.kids(n),
            forall|j: int| 0 <= j < kids@.len() ==> t@.below(n, #[trigger] kids@[j]),
            forall|i: int| 0 <= i < out@.len() ==> (#[trigger] out@[i]) < t@.nodes.len(),
            out@ == start + done,
            done + typed(t@, n, kind@, k as int) == all,
        decreases k,
    {
        k -= 1;
        let c = kids[k];
        assert(t@.below(n, c));
        let ghost found = if t@.kind(c) == kind@ {
            seq![c]
        } else {
            typed_below(t@, c, kind@)
        };
        if t.is(c, kind) {
            out.push(c);
        } else {
            typed_into(t, c, kind, out);
        }
        proof {
            let next = done + found;
            assert(next + typed(t@, n, kind@, k as int) =~= done + (found + typed(t@, n, kind@, k as int)));
            assert(out@ =~= start + next);
            done = next;
        }
    }
    assert(done =~= all);
}

/// Every node of a kind below a node.
pub fn walk_type(t: &Syntax, n: usize, kind: &str) -> (r: Vec<usize>)
    requires
        t@.wf(),
        n < t@.nodes.len(),
    ensures
        r@ == typed_below(t@, n, kind@),
        forall|i: int| 0 <= i < r@.len() ==> (#[trigger] r@[i]) < t@.nodes.len(),
{
    let mut out: Vec<usize> = Vec::new();
    typed_into(t, n, kind, &mut out);
    assert(out@ =~= typed_below(t@, n, kind@));
    out
}

/// The first node of a kind, in source order, among a node and everything below
/// it.
pub open spec fn first_of(t: TreeView, n: usize, kind: Seq<char>) -> Option<usize>
    decreases t.nodes.len() - n, t.kids(n).len() + 1,
{
    if t.kind(n) == kind {
        Some(n)
    } else {
        first_in_kids(t, n, kind, t.kids(n).len() as int)
    }
}

/// The first node of a kind below the first `k` children.
pub open spec fn first_in_kids(t: TreeView, n: usize, kind: Seq<char>, k: int) -> Option<usize>
    decreases t.nodes.len() - n, k,
{
    if k <= 0 || k > t.kids(n).len() {
        None
    } else {
        match first_in_kids(t, n, kind, k - 1) {
            Some(c) => Some(c),
            None => first_of(t, t.kids(n)[k - 1], kind),
        }
    }
}

/// What is found below the first `k` children is found below more of them.
proof fn first_stays(t: TreeView, n: usize, kind: Seq<char>, k: int, m: int)
    requires
        0 <= k <= m <= t.kids(n).len(),
        first_in_kids(t, n, kind, k) is Some,
    ensures
        first_in_kids(t, n, kind, m) == first_in_kids(t, n, kind, k),
    decreases m - k,
{
    if k < m {
        first_stays(t, n, kind, k, m - 1);
    }
}

/// The first node of a kind, in source order.
pub fn find_first(t: &Syntax, n: usize, kind: &str) -> (r: Option<usize>)
    requires
        t@.wf(),
        n < t@.nodes.len(),
    ensures
        r == first_of(t@, n, kind@),
        r is Some ==> r->0 < t@.nodes.len(),
    decreases t@.nodes.len() - n,
{
    if t.is(n, kind) {
        return Some(n);
    }
    let kids = t.kids(n);
    let mut k: usize = 0;
    while k < kids.len()
        invariant
            k <= kids@.len(),
            t@.wf(),
            n < t@.nodes.len(),
            t@.kind(n) != kind@,
            kids@ == t@.kids(n),
            forall|j: int| 0 <= j < kids@.len() ==> t@.below(n, #[trigger] kids@[j]),
            first_in_kids(t@, n, kind@, k as int) is None,
        decreases kids@.len() - k,
    {
        let c = kids[k];
        assert(t@.below(n, c));
        let found = find_first(t, c, kind);
        if found.is_some() {
            proof {
                assert(first_in_kids(t@, n, kind@, k + 1) == found);
                first_stays(t@, n, kind@, k + 1, kids@.len() as int);
            }
            return found;
        }
        k += 1;
    }
    None
}

/// Descending from a node reaches the node itself and what descending from its children
/// reaches, and nothing else.
pub proof fn descending_reaches_what_is_below(t: TreeView, n: usize, x: usize)
    ensures
        descend(t, n)[0] == n,
        descend(t, n).contains(x) <==> x == n || exists|j: int|
            0 <= j < t.kids(n).len() && (#[trigger] descend(t, t.kids(n)[j])).contains(x),
{
    let k = t.kids(n).len() as int;
    kids_are_reached(t, n, k, x);
    let all = descend(t, n);
    assert(all[0] == n);
    crate::selection::sum_contains(seq![n], descend_kids(t, n, k), x);
    assert(seq![n].contains(x) <==> x == n) by {
        assert(seq![n][0] == n);
    }
}

proof fn kids_are_reached(t: TreeView, n: usize, k: int, x: usize)
    requires
        0 <= k <= t.kids(n).len(),
    ensures
        descend_kids(t, n, k).contains(x) <==> exists|j: int| 0 <= j < k && (#[trigger] descend(t, t.kids(n)[j])).contains(x),
    decreases k,
{
    if k > 0 {
        kids_are_reached(t, n, k - 1, x);
        crate::selection::sum_contains(descend(t, t.kids(n)[k - 1]), descend_kids(t, n, k - 1), x);
        if descend(t, t.kids(n)[k - 1]).contains(x) {
            assert(0 <= k - 1 < k && descend(t, t.kids(n)[k - 1]).contains(x));
        }
    }
}

/// The nodes of a kind below a node are its children of that kind and the nodes of that kind
/// below its other children.
pub proof fn kinds_are_found_below(t: TreeView, n: usize, kind: Seq<char>, k: int, x: usize)
    requires
        0 <= k <= t.kids(n).len(),
    ensures
        typed(t, n, kind, k).contains(x) <==> exists|j: int|
            0 <= j < k && ({
                let c = #[trigger] t.kids(n)[j];
                if t.kind(c) == kind {
                    x == c
                } else {
                    typed_below(t, c, kind).contains(x)
                }
            }),
    decreases k,
{
    if k > 0 {
        kinds_are_found_below(t, n, kind, k - 1, x);
        let c = t.kids(n)[k - 1];
        let own = if t.kind(c) == kind {
            seq![c]
        } else {
            typed(t, c, kind, t.kids(c).len() as int)
        };
        crate::selection::sum_contains(own, typed(t, n, kind, k - 1), x);
        assert(seq![c][0] == c);
        assert(seq![c].contains(x) <==> x == c);
    }
}

/// What is found below a node is of the kind that was asked for.
pub proof fn found_nodes_have_the_kind(t: TreeView, n: usize, kind: Seq<char>, k: int)
    ensures
        forall|i: int| 0 <= i < typed(t, n, kind, k).len() ==> t.kind(#[trigger] typed(t, n, kind, k)[i]) == kind,
    decreases t.nodes.len() - n, k,
{
    if 0 < k <= t.kids(n).len() {
        found_nodes_have_the_kind(t, n, kind, k - 1);
        let c = t.kids(n)[k - 1];
        if t.kind(c) != kind {
            found_nodes_have_the_kind(t, c, kind, t.kids(c).len() as int);
        }
        let own = if t.kind(c) == kind {
            seq![c]
        } else {
            typed(t, c, kind, t.kids(c).len() as int)
        };
        let rest = typed(t, n, kind, k - 1);
        let all = typed(t, n, kind, k);
        assert(all == own + rest);
        assert forall|i: int| 0 <= i < all.len() implies t.kind(#[trigger] all[i]) == kind by {
            if i < own.len() {
                assert(all[i] == own[i]);
            } else {
                assert(all[i] == rest[i - own.len()]);
            }
        }
    }
}

/// The first node of a kind is of that kind; where there is none, no node that descending
/// reaches is.
pub proof fn first_of_a_kind(t: TreeView, n: usize, kind: Seq<char>)
    ensures
        match first_of(t, n, kind) {
            Some(x) => t.kind(x) == kind && descend(t, n).contains(x),
            None => forall|x: usize| #[trigger] descend(t, n).contains(x) ==> t.kind(x) != kind,
        },
        t.kind(n) == kind ==> first_of(t, n, kind) == Some(n),
    decreases t.nodes.len() - n, t.kids(n).len() + 1,
{
    let k = t.kids(n).len() as int;
    descending_reaches_what_is_below(t, n, n);
    if t.kind(n) != kind {
        first_in_children(t, n, kind, k);
        match first_of(t, n, kind) {
            Some(x) => {
                descending_reaches_what_is_below(t, n, x);
            },
            None => {
                assert forall|x: usize| #[trigger] descend(t, n).contains(x) implies t.kind(x) != kind by {
                    descending_reaches_what_is_below(t, n, x);
                }
            },
        }
    }
}

proof fn first_in_children(t: TreeView, n: usize, kind: Seq<char>, k: int)
    requires
        0 <= k <= t.kids(n).len(),
    ensures
        match first_in_kids(t, n, kind, k) {
            Some(x) => t.kind(x) == kind && exists|j: int|
                0 <= j < k && (#[trigger] descend(t, t.kids(n)[j])).contains(x),
            None => forall|j: int, x: usize|
                0 <= j < k && #[trigger] descend(t, t.kids(n)[j]).contains(x) ==> t.kind(x) != kind,
        },
    decreases t.nodes.len() - n, k,
{
    if k > 0 {
        first_in_children(t, n, kind, k - 1);
        first_of_a_kind(t, t.kids(n)[k - 1], kind);
        if first_in_kids(t, n, kind, k - 1) is None && first_in_kids(t, n, kind, k) is Some {
            let x = first_in_kids(t, n, kind, k)->0;
            assert(0 <= k - 1 < k && descend(t, t.kids(n)[k - 1]).contains(x));
        }
    }
}

}
