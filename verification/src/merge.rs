//! Combining graphs, and dropping repeated edges.

use vstd::prelude::*;

use crate::graph::{duplicate_message, ids, node_at, Graph, GraphView};
use crate::index::{place_after_push, Buckets};
use crate::meta::{lookup, stored, updated_by, MetaView, MetaValue, ValueView};
use crate::node::{nodes_equal, Node, NodeView};
use crate::relation::{Relation, RelationView};
use crate::status::{ResolverStatus, RESOLVER_STATUS_KEY};
use crate::text::{add_item, concat3, same, views};

verus! {

// ---------------------------------------------------------------------------
// Merging
// ---------------------------------------------------------------------------

/// Whether a node may not join a list of nodes: its id is taken, and either
/// sharing is not allowed or the node there is a different one.
pub open spec fn collides(nodes: Seq<NodeView>, node: NodeView, allow_shared: bool) -> bool {
    match node_at(nodes, node.id) {
        Some(existing) => !(allow_shared && nodes_equal(existing, node)),
        None => false,
    }
}

/// The first of the nodes from `i` on that may not join.
pub open spec fn first_collision(
    nodes: Seq<NodeView>,
    incoming: Seq<NodeView>,
    allow_shared: bool,
    i: int,
) -> Option<int>
    decreases incoming.len() - i,
{
    if i < 0 || i >= incoming.len() {
        None
    } else if collides(nodes, incoming[i], allow_shared) {
        Some(i)
    } else {
        first_collision(nodes, incoming, allow_shared, i + 1)
    }
}

/// The graph after the first `n` of the incoming nodes have joined.
pub open spec fn joined_nodes(g: GraphView, incoming: Seq<NodeView>, n: int) -> GraphView
    decreases n,
{
    if n <= 0 || n > incoming.len() {
        g
    } else {
        joined_nodes(g, incoming, n - 1).insert(incoming[n - 1])
    }
}

/// The status a metadata value stands for.
pub open spec fn status_of(v: ValueView) -> ResolverStatus {
    match v {
        ValueView::Text(s) => ResolverStatus::named(s),
        _ => ResolverStatus::Unavailable,
    }
}

/// The metadata of two graphs together: the incoming values win, save that two
/// resolver statuses become the worse of the two.
pub open spec fn merged_metadata(mine: MetaView, theirs: MetaView) -> MetaView {
    let together = updated_by(mine, theirs, theirs.len() as int);
    match (lookup(mine, "resolver_status"@), lookup(theirs, "resolver_status"@)) {
        (Some(a), Some(b)) => stored(
            together,
            "resolver_status"@,
            ValueView::Text(ResolverStatus::worse(status_of(a), status_of(b)).name()),
        ),
        _ => together,
    }
}

/// The graph that merging gives where nothing collides.
pub open spec fn merged(g: GraphView, other: GraphView) -> GraphView {
    GraphView {
        nodes: joined_nodes(g, other.nodes, other.nodes.len() as int).nodes,
        relations: g.relations + other.relations,
        metadata: merged_metadata(g.metadata, other.metadata),
    }
}

/// What merging found at the first place is a collision, and there is none
/// before it.
pub proof fn first_collision_is_first(nodes: Seq<NodeView>, incoming: Seq<NodeView>, allow_shared: bool, i: int)
    requires
        0 <= i,
    ensures
        match first_collision(nodes, incoming, allow_shared, i) {
            Some(k) => {
                &&& i <= k < incoming.len()
                &&& collides(nodes, incoming[k], allow_shared)
                &&& forall|j: int| i <= j < k ==> !collides(nodes, #[trigger] incoming[j], allow_shared)
            },
            None => forall|j: int|
                i <= j < incoming.len() ==> !collides(nodes, #[trigger] incoming[j], allow_shared),
        },
    decreases incoming.len() - i,
{
    if i < incoming.len() && !collides(nodes, incoming[i], allow_shared) {
        first_collision_is_first(nodes, incoming, allow_shared, i + 1);
    }
}

/// Joining keeps the nodes that were there, in their places, and changes
/// neither edges nor metadata.
pub proof fn joining_keeps_nodes(g: GraphView, incoming: Seq<NodeView>, n: int)
    requires
        0 <= n <= incoming.len(),
    ensures
        g.nodes.len() <= joined_nodes(g, incoming, n).nodes.len(),
        forall|i: int| 0 <= i < g.nodes.len() ==> #[trigger] joined_nodes(g, incoming, n).nodes[i] == g.nodes[i],
        joined_nodes(g, incoming, n).relations == g.relations,
        joined_nodes(g, incoming, n).metadata == g.metadata,
        forall|i: int| 0 <= i < n ==> joined_nodes(g, incoming, n).has((#[trigger] incoming[i]).id),
    decreases n,
{
    if n > 0 {
        joining_keeps_nodes(g, incoming, n - 1);
        let a = joined_nodes(g, incoming, n - 1);
        let b = joined_nodes(g, incoming, n);
        let x = incoming[n - 1];
        if !a.has(x.id) {
            assert(ids(b.nodes) =~= ids(a.nodes).push(x.id));
            assert forall|i: int| 0 <= i < n implies b.has((#[trigger] incoming[i]).id) by {
                place_after_push(ids(a.nodes), incoming[i].id, x.id);
            }
        }
    }
}

/// Two resolver statuses merge to the worse of the two, whichever graph is
/// merged into which.
pub proof fn merged_status_is_the_worse(mine: MetaView, theirs: MetaView, a: ValueView, b: ValueView)
    requires
        lookup(mine, "resolver_status"@) == Some(a),
        lookup(theirs, "resolver_status"@) == Some(b),
    ensures
        lookup(merged_metadata(mine, theirs), "resolver_status"@) == Some(
            ValueView::Text(ResolverStatus::worse(status_of(a), status_of(b)).name()),
        ),
        lookup(merged_metadata(mine, theirs), "resolver_status"@) == lookup(
            merged_metadata(theirs, mine),
            "resolver_status"@,
        ),
{
    let key = "resolver_status"@;
    let worst = ValueView::Text(ResolverStatus::worse(status_of(a), status_of(b)).name());
    crate::meta::stored_then_found(updated_by(mine, theirs, theirs.len() as int), key, worst, key);
    crate::meta::stored_then_found(updated_by(theirs, mine, mine.len() as int), key, worst, key);
    crate::status::combine_is_symmetric(status_of(a), status_of(b));
}

/// A merged graph holds what either graph held: every node under its id, the first graph's
/// own where both have it, and every edge, the first graph's first.
pub proof fn merged_graphs_hold_both(g: GraphView, other: GraphView, id: Seq<char>, i: int)
    ensures
        node_at(g.nodes, id) is Some ==> node_at(merged(g, other).nodes, id) == node_at(g.nodes, id),
        node_at(g.nodes, id) is None ==> node_at(merged(g, other).nodes, id) == node_at(other.nodes, id),
        merged(g, other).relations.len() == g.relations.len() + other.relations.len(),
        0 <= i < g.relations.len() ==> merged(g, other).relations[i] == g.relations[i],
        0 <= i < other.relations.len() ==> merged(g, other).relations[g.relations.len() + i] == other.relations[i],
{
    joined_are_found(g, other.nodes, other.nodes.len() as int, id);
    assert(other.nodes.take(other.nodes.len() as int) =~= other.nodes);
}

proof fn joined_are_found(g: GraphView, incoming: Seq<NodeView>, n: int, id: Seq<char>)
    requires
        0 <= n <= incoming.len(),
    ensures
        node_at(g.nodes, id) is Some ==> node_at(joined_nodes(g, incoming, n).nodes, id) == node_at(g.nodes, id),
        node_at(g.nodes, id) is None ==> node_at(joined_nodes(g, incoming, n).nodes, id) == node_at(incoming.take(n), id),
    decreases n,
{
    if n > 0 {
        joined_are_found(g, incoming, n - 1, id);
        let x = incoming[n - 1];
        crate::graph::added_nodes_are_found(joined_nodes(g, incoming, n - 1), x, id);
        assert(incoming.take(n) =~= incoming.take(n - 1).push(x));
        assert(ids(incoming.take(n)) =~= ids(incoming.take(n - 1)).push(x.id));
        place_after_push(ids(incoming.take(n - 1)), id, x.id);
        let keys = ids(incoming.take(n - 1));
        match crate::text::position(keys, id) {
            Some(i) => {
                crate::text::position_is_first(keys, id, 0);
                assert(incoming.take(n)[i] == incoming.take(n - 1)[i]);
            },
            None => {},
        }
    } else {
        assert(incoming.take(0) =~= Seq::<NodeView>::empty());
        crate::graph::ids_find_nodes(incoming.take(0), id);
    }
}

/// Merging is refused exactly where an incoming node has the id of one that is there, unless
/// such nodes may be shared and the two are equal.
pub proof fn collisions_are_refused(nodes: Seq<NodeView>, incoming: Seq<NodeView>, allow_shared: bool)
    ensures
        first_collision(nodes, incoming, allow_shared, 0) is None <==> forall|j: int|
            0 <= j < incoming.len() ==> node_at(nodes, (#[trigger] incoming[j]).id) is None || (allow_shared && nodes_equal(
                node_at(nodes, incoming[j].id)->0,
                incoming[j],
            )),
{
    first_collision_is_first(nodes, incoming, allow_shared, 0);
    if first_collision(nodes, incoming, allow_shared, 0) is None {
        assert forall|j: int| 0 <= j < incoming.len() implies node_at(nodes, (#[trigger] incoming[j]).id) is None || (
        allow_shared && nodes_equal(node_at(nodes, incoming[j].id)->0, incoming[j])) by {
            assert(!collides(nodes, incoming[j], allow_shared));
        }
    }
}

/// The status a metadata value stands for.
fn read_status(v: &MetaValue) -> (r: ResolverStatus)
    ensures
        r == status_of(v@),
{
    match v {
        MetaValue::Text(s) => ResolverStatus::coerce(s.as_str()),
        _ => ResolverStatus::Unavailable,
    }
}

impl Graph {
    /// Merges another graph into this one.
    ///
    /// With `allow_shared` equal nodes may coincide, which is how graphs of
    /// different languages are combined. Either the whole graph merges or
    /// nothing does: every id is checked before any node is added. Edges are
    /// appended as they are.
    pub fn merge(&mut self, other: &Graph, allow_shared: bool) -> (r: Result<(), String>)
        requires
            old(self).wf(),
            other.wf(),
        ensures
            final(self).wf(),
            match first_collision(old(self)@.nodes, other@.nodes, allow_shared, 0) {
                Some(k) => final(self)@ == old(self)@ && r is Err && r->Err_0@ == duplicate_message(
                    other@.nodes[k].id,
                ),
                None => r is Ok && final(self)@ == merged(old(self)@, other@),
            },
    {
        let ghost start = self@;
        let incoming = other.nodes();
        let mut i: usize = 0;
        while i < incoming.len()
            invariant
                i <= incoming@.len(),
                self.wf(),
                self@ == start,
                views(incoming@) == other@.nodes,
                first_collision(start.nodes, other@.nodes, allow_shared, 0) == first_collision(
                    start.nodes,
                    other@.nodes,
                    allow_shared,
                    i as int,
                ),
            decreases incoming@.len() - i,
        {
            let node = &incoming[i];
            assert(other@.nodes[i as int] == node@);
            if let Some(existing) = self.node(node.id.as_str()) {
                let shared = allow_shared && existing.equals(node);
                if !shared {
                    return Err(concat3("Node with id '", node.id.as_str(), "' already exists"));
                }
            }
            i += 1;
        }
        let mut k: usize = 0;
        while k < incoming.len()
            invariant
                k <= incoming@.len(),
                self.wf(),
                views(incoming@) == other@.nodes,
                self@ == joined_nodes(start, other@.nodes, k as int),
            decreases incoming@.len() - k,
        {
            assert(other@.nodes[k as int] == incoming@[k as int]@);
            self.insert_node(incoming[k].copy());
            k += 1;
        }
        proof {
            joining_keeps_nodes(start, other@.nodes, other@.nodes.len() as int);
        }
        let ghost with_nodes = self@;
        let edges = other.relations();
        let mut e: usize = 0;
        assert(start.relations + other@.relations.take(0) =~= start.relations);
        while e < edges.len()
            invariant
                e <= edges@.len(),
                self.wf(),
                views(edges@) == other@.relations,
                with_nodes.relations == start.relations,
                self@ == (GraphView { relations: start.relations + other@.relations.take(e as int), ..with_nodes }),
            decreases edges@.len() - e,
        {
            assert(other@.relations[e as int] == edges@[e as int]@);
            self.push_relation(edges[e].copy());
            assert(start.relations + other@.relations.take(e + 1) =~= (start.relations + other@.relations.take(
                e as int,
            )).push(other@.relations[e as int]));
            e += 1;
        }
        assert(other@.relations.take(edges@.len() as int) =~= other@.relations);
        let mut metadata = self.metadata().copy();
        let worst: Option<ResolverStatus> = match (
            metadata.get(RESOLVER_STATUS_KEY),
            other.metadata().get(RESOLVER_STATUS_KEY),
        ) {
            (Some(a), Some(b)) => Some(ResolverStatus::combine(read_status(a), read_status(b))),
            _ => None,
        };
        metadata.update(other.metadata());
        if let Some(status) = worst {
            metadata.set(RESOLVER_STATUS_KEY, MetaValue::text(status.as_str()));
        }
        self.set_metadata(metadata);
        Ok(())
    }
}

// ---------------------------------------------------------------------------
// Dropping repeated edges
// ---------------------------------------------------------------------------

/// Whether two edges are the same fact: neither carries metadata, and both
/// join the same nodes in the same way.
pub open spec fn same_fact(a: RelationView, b: RelationView) -> bool {
    &&& a.metadata.len() == 0
    &&& b.metadata.len() == 0
    &&& a.source_id == b.source_id
    &&& a.target_id == b.target_id
    &&& a.kind == b.kind
}

/// Whether one of the edges states the same fact.
pub open spec fn stated(relations: Seq<RelationView>, r: RelationView) -> bool {
    exists|i: int| 0 <= i < relations.len() && same_fact(#[trigger] relations[i], r)
}

/// The first `n` edges without those that repeat a fact stated before.
pub open spec fn without_repeats(relations: Seq<RelationView>, n: int) -> Seq<RelationView>
    decreases n,
{
    if n <= 0 || n > relations.len() {
        Seq::empty()
    } else {
        let earlier = without_repeats(relations, n - 1);
        if stated(earlier, relations[n - 1]) {
            earlier
        } else {
            earlier.push(relations[n - 1])
        }
    }
}

/// Whether no edge repeats the fact of an earlier one.
pub open spec fn no_repeats(relations: Seq<RelationView>) -> bool {
    forall|i: int, j: int|
        0 <= i < j < relations.len() ==> !same_fact(#[trigger] relations[i], #[trigger] relations[j])
}

/// What is left states every fact once.
pub proof fn dropping_leaves_no_repeats(relations: Seq<RelationView>, n: int)
    requires
        0 <= n <= relations.len(),
    ensures
        no_repeats(without_repeats(relations, n)),
        without_repeats(relations, n).len() <= n,
        forall|i: int| 0 <= i < n ==> without_repeats(relations, n).contains(#[trigger] relations[i]) || stated(
            without_repeats(relations, n),
            relations[i],
        ),
    decreases n,
{
    if n > 0 {
        dropping_leaves_no_repeats(relations, n - 1);
        let a = without_repeats(relations, n - 1);
        let b = without_repeats(relations, n);
        if !stated(a, relations[n - 1]) {
            assert(b =~= a.push(relations[n - 1]));
            assert forall|i: int, j: int| 0 <= i < j < b.len() implies !same_fact(
                #[trigger] b[i],
                #[trigger] b[j],
            ) by {
                if j == b.len() - 1 {
                    assert(b[i] == a[i]);
                }
            }
            assert forall|i: int| 0 <= i < n implies b.contains(#[trigger] relations[i]) || stated(
                b,
                relations[i],
            ) by {
                if i == n - 1 {
                    assert(b[b.len() - 1] == relations[i]);
                } else if a.contains(relations[i]) {
                    let k = choose|k: int| 0 <= k < a.len() && a[k] == relations[i];
                    assert(b[k] == relations[i]);
                } else {
                    let k = choose|k: int| 0 <= k < a.len() && same_fact(#[trigger] a[k], relations[i]);
                    assert(b[k] == a[k]);
                }
            }
        }
    }
}

/// Where nothing repeats, nothing is dropped.
proof fn nothing_to_drop(relations: Seq<RelationView>, n: int)
    requires
        0 <= n <= relations.len(),
        no_repeats(relations),
    ensures
        without_repeats(relations, n) == relations.take(n),
    decreases n,
{
    if n > 0 {
        nothing_to_drop(relations, n - 1);
        let a = relations.take(n - 1);
        if stated(a, relations[n - 1]) {
            let k = choose|k: int| 0 <= k < a.len() && same_fact(#[trigger] a[k], relations[n - 1]);
            assert(relations[k] == a[k]);
            assert(!same_fact(relations[k], relations[n - 1]));
        }
        assert(relations.take(n) =~= a.push(relations[n - 1]));
    } else {
        assert(relations.take(0) =~= Seq::<RelationView>::empty());
    }
}

/// Dropping repeats twice is dropping them once.
pub proof fn dropping_is_idempotent(relations: Seq<RelationView>)
    ensures
        ({
            let once = without_repeats(relations, relations.len() as int);
            without_repeats(once, once.len() as int) == once
        }),
{
    let once = without_repeats(relations, relations.len() as int);
    dropping_leaves_no_repeats(relations, relations.len() as int);
    nothing_to_drop(once, once.len() as int);
    assert(once.take(once.len() as int) =~= once);
}

/// An edge with metadata records where it was observed: it is never dropped.
pub proof fn observed_edges_stay(relations: Seq<RelationView>, n: int)
    requires
        0 <= n <= relations.len(),
    ensures
        observed(without_repeats(relations, n), without_repeats(relations, n).len() as int) == observed(relations, n),
    decreases n,
{
    if n > 0 {
        observed_edges_stay(relations, n - 1);
        let a = without_repeats(relations, n - 1);
        let b = without_repeats(relations, n);
        if !stated(a, relations[n - 1]) {
            observed_prefix(a, relations[n - 1], a.len() as int);
            assert(b[b.len() - 1] == relations[n - 1]);
        }
    }
}

/// The edges with metadata among the first `n`, in order.
pub open spec fn observed(relations: Seq<RelationView>, n: int) -> Seq<RelationView>
    decreases n,
{
    if n <= 0 || n > relations.len() {
        Seq::empty()
    } else {
        let earlier = observed(relations, n - 1);
        if relations[n - 1].metadata.len() > 0 {
            earlier.push(relations[n - 1])
        } else {
            earlier
        }
    }
}

proof fn observed_prefix(a: Seq<RelationView>, x: RelationView, n: int)
    requires
        0 <= n <= a.len(),
    ensures
        observed(a.push(x), n) == observed(a, n),
    decreases n,
{
    if n > 0 {
        observed_prefix(a, x, n - 1);
        assert(a.push(x)[n - 1] == a[n - 1]);
    }
}

/// Whether a list of places holds every structural edge that leaves a node.
spec fn places_cover(kept: Seq<RelationView>, b: Buckets) -> bool {
    &&& forall|id: Seq<char>, i: int|
        #![trigger b.at(id)[i]]
        0 <= i < b.at(id).len() ==> (b.at(id)[i] as int) < kept.len()
    &&& forall|k: int|
        0 <= k < kept.len() && (#[trigger] kept[k]).metadata.len() == 0 ==> b.at(kept[k].source_id).contains(k as usize)
}

/// Tells whether a kept edge states the same fact.
fn is_stated(kept: &Vec<Relation>, b: &Buckets, r: &Relation) -> (found: bool)
    requires
        b.wf(),
        places_cover(views(kept@), *b),
        kept@.len() <= usize::MAX,
    ensures
        found == stated(views(kept@), r@),
{
    if !r.metadata.is_empty() {
        return false;
    }
    let ghost ks = views(kept@);
    let n = b.len(r.source_id.as_str());
    let mut i: usize = 0;
    while i < n
        invariant
            i <= n,
            b.wf(),
            ks == views(kept@),
            places_cover(ks, *b),
            n == b.at(r.source_id@).len(),
            forall|j: int|
                0 <= j < i ==> !same_fact(#[trigger] ks[b.at(r.source_id@)[j] as int], r@),
        decreases n - i,
    {
        let p = b.get(r.source_id.as_str(), i);
        assert(b.at(r.source_id@)[i as int] == p);
        let x = &kept[p];
        assert(ks[p as int] == x@);
        if x.metadata.is_empty() && same(x.source_id.as_str(), r.source_id.as_str()) && same(
            x.target_id.as_str(),
            r.target_id.as_str(),
        ) && x.kind == r.kind && r.metadata.is_empty() {
            return true;
        }
        i += 1;
    }
    proof {
        if stated(ks, r@) {
            let k = choose|k: int| 0 <= k < ks.len() && same_fact(#[trigger] ks[k], r@);
            assert(b.at(ks[k].source_id).contains(k as usize));
            let j = choose|j: int| 0 <= j < b.at(r.source_id@).len() && b.at(r.source_id@)[j] == k as usize;
            assert(!same_fact(ks[b.at(r.source_id@)[j] as int], r@));
        }
    }
    false
}

impl Graph {
    /// Drops edges that repeat a fact, keeping the first of each.
    ///
    /// An edge without metadata is a fact and has no multiplicity. An edge with
    /// metadata records where it was observed, and every one of those is kept.
    pub fn dedupe_structural_relations(&mut self)
        requires
            old(self).wf(),
        ensures
            final(self).wf(),
            final(self)@ == (GraphView {
                relations: without_repeats(old(self)@.relations, old(self)@.relations.len() as int),
                ..old(self)@
            }),
    {
        let all = self.relations();
        let mut kept: Vec<Relation> = Vec::new();
        let mut b = Buckets::new();
        let mut i: usize = 0;
        assert(views(kept@) =~= Seq::<RelationView>::empty());
        while i < all.len()
            invariant
                i <= all@.len(),
                b.wf(),
                views(all@) == old(self)@.relations,
                views(kept@) == without_repeats(old(self)@.relations, i as int),
                kept@.len() <= i,
                places_cover(views(kept@), b),
            decreases all@.len() - i,
        {
            let r = &all[i];
            assert(old(self)@.relations[i as int] == r@);
            if !is_stated(&kept, &b, r) {
                let ghost old_kept = views(kept@);
                let ghost old_b = b;
                b.add(r.source_id.as_str(), kept.len());
                add_item(&mut kept, r.copy());
                proof {
                    let ks = views(kept@);
                    assert forall|id: Seq<char>, j: int|
                        #![trigger b.at(id)[j]]
                        0 <= j < b.at(id).len() implies (b.at(id)[j] as int) < ks.len() by {
                        if j < old_b.at(id).len() {
                            assert(old_b.at(id)[j] == b.at(id)[j]);
                        }
                    }
                    assert forall|k: int| 0 <= k < ks.len() && (#[trigger] ks[k]).metadata.len() == 0 implies b.at(
                        ks[k].source_id,
                    ).contains(k as usize) by {
                        let id = ks[k].source_id;
                        if k < old_kept.len() {
                            assert(old_kept[k] == ks[k]);
                            assert(old_b.at(id).contains(k as usize));
                            let j = choose|j: int| 0 <= j < old_b.at(id).len() && old_b.at(id)[j] == k as usize;
                            assert(b.at(id)[j] == k as usize);
                        } else {
                            assert(b.at(id)[b.at(id).len() - 1] == k as usize);
                        }
                    }
                }
            }
            i += 1;
        }
        self.set_relations(kept);
    }
}

}
