//! The graph: nodes in insertion order, edges in insertion order, metadata,
//! and the queries over them.

use vstd::prelude::*;

use crate::index::{Buckets, Places};
use crate::meta::{keys_distinct, stored, Metadata, MetaView, MetaValue, ValueView};
use crate::node::{Node, NodeView};
use crate::relation::{Relation, RelationKind, RelationView};
use crate::selection::{pick_next, pick_nothing, picked_items, picks};
use crate::strings::{decimal, decimal_text};
use crate::text::{add_item, concat3, concat5, copy, position, position_is_first, views};

verus! {

// ---------------------------------------------------------------------------
// The model
// ---------------------------------------------------------------------------

/// The mathematical reading of a graph.
pub struct GraphView {
    pub nodes: Seq<NodeView>,
    pub relations: Seq<RelationView>,
    pub metadata: MetaView,
}

/// The ids of a list of nodes, in order.
pub open spec fn ids(nodes: Seq<NodeView>) -> Seq<Seq<char>> {
    nodes.map_values(|n: NodeView| n.id)
}

/// The node with an id.
pub open spec fn node_at(nodes: Seq<NodeView>, id: Seq<char>) -> Option<NodeView> {
    match position(ids(nodes), id) {
        Some(i) => Some(nodes[i]),
        None => None,
    }
}

impl GraphView {
    /// The graph without nodes, edges and metadata.
    pub open spec fn empty() -> GraphView {
        GraphView { nodes: Seq::empty(), relations: Seq::empty(), metadata: Seq::empty() }
    }

    /// Whether the graph holds a node with this id.
    pub open spec fn has(self, id: Seq<char>) -> bool {
        position(ids(self.nodes), id) is Some
    }

    /// The graph with a node added, unless its id is taken.
    pub open spec fn insert(self, node: NodeView) -> GraphView {
        if self.has(node.id) {
            self
        } else {
            GraphView { nodes: self.nodes.push(node), ..self }
        }
    }

    /// The graph with an edge added.
    pub open spec fn relate(self, relation: RelationView) -> GraphView {
        GraphView { relations: self.relations.push(relation), ..self }
    }

    /// The graph with a metadata value stored.
    pub open spec fn note(self, key: Seq<char>, value: ValueView) -> GraphView {
        GraphView { metadata: stored(self.metadata, key, value), ..self }
    }
}

/// Whether an edge leaves, or enters, a node.
pub open spec fn touches(r: RelationView, id: Seq<char>, outgoing: bool) -> bool {
    if outgoing {
        r.source_id == id
    } else {
        r.target_id == id
    }
}

/// Whether an edge is of a kind; without a kind every edge is.
pub open spec fn of_kind(r: RelationView, kind: Option<RelationKind>) -> bool {
    match kind {
        Some(k) => r.kind == k,
        None => true,
    }
}

/// Of the first `n` edges those that touch a node and are of a kind, in order.
pub open spec fn edge_list(
    relations: Seq<RelationView>,
    id: Seq<char>,
    kind: Option<RelationKind>,
    outgoing: bool,
    n: int,
) -> Seq<RelationView>
    decreases n,
{
    if n <= 0 || n > relations.len() {
        Seq::empty()
    } else {
        let earlier = edge_list(relations, id, kind, outgoing, n - 1);
        let r = relations[n - 1];
        if touches(r, id, outgoing) && of_kind(r, kind) {
            earlier.push(r)
        } else {
            earlier
        }
    }
}

/// The edges that touch a node and are of a kind, in order.
pub open spec fn edges_of(
    relations: Seq<RelationView>,
    id: Seq<char>,
    kind: Option<RelationKind>,
    outgoing: bool,
) -> Seq<RelationView> {
    edge_list(relations, id, kind, outgoing, relations.len() as int)
}

/// Of the first `n` edges the places of those that touch a node.
spec fn place_list(relations: Seq<RelationView>, id: Seq<char>, outgoing: bool, n: int) -> Seq<usize>
    decreases n,
{
    if n <= 0 || n > relations.len() {
        Seq::empty()
    } else {
        let earlier = place_list(relations, id, outgoing, n - 1);
        if touches(relations[n - 1], id, outgoing) {
            earlier.push((n - 1) as usize)
        } else {
            earlier
        }
    }
}

/// Of the edges at the first `n` given places those of a kind, in order.
spec fn kind_list(relations: Seq<RelationView>, places: Seq<usize>, kind: Option<RelationKind>, n: int) -> Seq<
    RelationView,
>
    decreases n,
{
    if n <= 0 || n > places.len() {
        Seq::empty()
    } else {
        let earlier = kind_list(relations, places, kind, n - 1);
        let r = relations[places[n - 1] as int];
        if of_kind(r, kind) {
            earlier.push(r)
        } else {
            earlier
        }
    }
}

/// Appending a place leaves what the earlier places give.
proof fn kind_list_of_prefix(
    relations: Seq<RelationView>,
    places: Seq<usize>,
    more: usize,
    kind: Option<RelationKind>,
    n: int,
)
    requires
        0 <= n <= places.len(),
    ensures
        kind_list(relations, places.push(more), kind, n) == kind_list(relations, places, kind, n),
    decreases n,
{
    if n > 0 {
        kind_list_of_prefix(relations, places, more, kind, n - 1);
        assert(places.push(more)[n - 1] == places[n - 1]);
    }
}

/// The edges at a node's places are the node's edges.
proof fn places_give_edges(
    relations: Seq<RelationView>,
    id: Seq<char>,
    kind: Option<RelationKind>,
    outgoing: bool,
    n: int,
)
    requires
        0 <= n <= relations.len() <= usize::MAX,
    ensures
        ({
            let p = place_list(relations, id, outgoing, n);
            kind_list(relations, p, kind, p.len() as int) == edge_list(relations, id, kind, outgoing, n)
        }),
        forall|i: int|
            0 <= i < place_list(relations, id, outgoing, n).len() ==> (#[trigger] place_list(
                relations,
                id,
                outgoing,
                n,
            )[i]) < n,
    decreases n,
{
    if n > 0 {
        places_give_edges(relations, id, kind, outgoing, n - 1);
        let p = place_list(relations, id, outgoing, n - 1);
        if touches(relations[n - 1], id, outgoing) {
            let q = p.push((n - 1) as usize);
            kind_list_of_prefix(relations, p, (n - 1) as usize, kind, p.len() as int);
            assert(q[q.len() - 1] == (n - 1) as usize);
        }
    }
}

/// The nodes with the first `n` of the given ids; an id without a node is
/// skipped.
pub open spec fn resolved_ids(nodes: Seq<NodeView>, wanted: Seq<Seq<char>>, n: int) -> Seq<NodeView>
    decreases n,
{
    if n <= 0 || n > wanted.len() {
        Seq::empty()
    } else {
        let earlier = resolved_ids(nodes, wanted, n - 1);
        match node_at(nodes, wanted[n - 1]) {
            Some(node) => earlier.push(node),
            None => earlier,
        }
    }
}

/// The first place from `i` on of a node whose id an earlier node has.
pub open spec fn first_repeat(nodes: Seq<NodeView>, i: int) -> Option<int>
    decreases nodes.len() - i,
{
    if i < 0 || i >= nodes.len() {
        None
    } else if position(ids(nodes.take(i)), nodes[i].id) is Some {
        Some(i)
    } else {
        first_repeat(nodes, i + 1)
    }
}

/// The far ends of a list of edges.
pub open spec fn far_ends(relations: Seq<RelationView>, outgoing: bool) -> Seq<Seq<char>> {
    relations.map_values(|r: RelationView| if outgoing { r.target_id } else { r.source_id })
}

/// The nodes at the far ends of a node's edges of a kind.
pub open spec fn across(g: GraphView, id: Seq<char>, kind: RelationKind, outgoing: bool) -> Seq<NodeView> {
    let wanted = far_ends(edges_of(g.relations, id, Some(kind), outgoing), outgoing);
    resolved_ids(g.nodes, wanted, wanted.len() as int)
}

// ---------------------------------------------------------------------------
// What the model promises
// ---------------------------------------------------------------------------

/// An id finds a node of the list that bears it, and finds none only where no node
/// bears it.
pub proof fn ids_find_nodes(nodes: Seq<NodeView>, id: Seq<char>)
    ensures
        match node_at(nodes, id) {
            Some(n) => nodes.contains(n) && n.id == id,
            None => forall|i: int| 0 <= i < nodes.len() ==> (#[trigger] nodes[i]).id != id,
        },
        (node_at(nodes, id) is Some) == (exists|i: int| 0 <= i < nodes.len() && (#[trigger] nodes[i]).id == id),
{
    let all = ids(nodes);
    position_is_first(all, id, 0);
    match position(all, id) {
        Some(k) => {
            assert(all[k] == nodes[k].id);
        },
        None => {
            assert forall|i: int| 0 <= i < nodes.len() implies (#[trigger] nodes[i]).id != id by {
                assert(all[i] == nodes[i].id);
            }
        },
    }
}

/// A node that is added is found under its id, unless the id was taken; whatever
/// else was found is found as before.
pub proof fn added_nodes_are_found(g: GraphView, node: NodeView, id: Seq<char>)
    ensures
        node_at(g.insert(node).nodes, id) == (if id == node.id && node_at(g.nodes, id) is None {
            Some(node)
        } else {
            node_at(g.nodes, id)
        }),
        g.insert(node).relations == g.relations,
        g.insert(node).metadata == g.metadata,
        g.nodes.is_prefix_of(g.insert(node).nodes),
{
    let more = g.insert(node).nodes;
    let (a, b) = (ids(g.nodes), ids(more));
    position_is_first(a, id, 0);
    position_is_first(b, id, 0);
    position_is_first(a, node.id, 0);
    if !g.has(node.id) {
        assert(more == g.nodes.push(node));
        assert(b =~= a.push(node.id));
        match position(a, id) {
            Some(k) => {
                assert(b[k] == id);
                let m = position(b, id)->0;
                if m < a.len() {
                    assert(a[m] == b[m]);
                }
                assert(m == k);
                assert(more[k] == g.nodes[k]);
            },
            None => {
                if id == node.id {
                    assert(b[a.len() as int] == id);
                    let m = position(b, id)->0;
                    if m < a.len() {
                        assert(a[m] == b[m]);
                    }
                } else if position(b, id) is Some {
                    let m = position(b, id)->0;
                    if m < a.len() {
                        assert(a[m] == b[m]);
                    }
                }
            },
        }
    }
}

/// Asking for the edges of a node selects those that leave it, or enter it, and are
/// of the kind that is asked for, and no others, in their order.
pub proof fn edges_are_selected(
    relations: Seq<RelationView>,
    id: Seq<char>,
    kind: Option<RelationKind>,
    outgoing: bool,
    n: int,
) -> (places: Seq<int>)
    requires
        0 <= n <= relations.len(),
    ensures
        picks(relations, edge_list(relations, id, kind, outgoing, n), places),
        forall|k: int| #[trigger]
            places.contains(k) <==> 0 <= k < n && (outgoing ==> relations[k].source_id == id) && (!outgoing
                ==> relations[k].target_id == id) && (kind is Some ==> relations[k].kind == kind->0),
    decreases n,
{
    if n == 0 {
        pick_nothing(relations);
        Seq::empty()
    } else {
        let p = edges_are_selected(relations, id, kind, outgoing, n - 1);
        let r = relations[n - 1];
        if (outgoing ==> r.source_id == id) && (!outgoing ==> r.target_id == id) && (kind is Some ==> r.kind == kind->0) {
            pick_next(relations, edge_list(relations, id, kind, outgoing, n - 1), p, n - 1);
            p.push(n - 1)
        } else {
            p
        }
    }
}

/// The edges of a node are exactly the edges of the graph that leave it, or enter
/// it, and are of the kind that is asked for.
pub proof fn edges_are_those_asked_for(
    relations: Seq<RelationView>,
    id: Seq<char>,
    kind: Option<RelationKind>,
    outgoing: bool,
)
    ensures
        forall|x: RelationView| #[trigger]
            edges_of(relations, id, kind, outgoing).contains(x) <==> relations.contains(x) && (outgoing ==> x.source_id == id)
                && (!outgoing ==> x.target_id == id) && (kind is Some ==> x.kind == kind->0),
{
    let n = relations.len() as int;
    let found = edges_of(relations, id, kind, outgoing);
    let p = edges_are_selected(relations, id, kind, outgoing, n);
    assert forall|x: RelationView| #[trigger] found.contains(x) <==> relations.contains(x) && (outgoing ==> x.source_id
        == id) && (!outgoing ==> x.target_id == id) && (kind is Some ==> x.kind == kind->0) by {
        picked_items(relations, found, p, x);
        if relations.contains(x) {
            let k = choose|k: int| 0 <= k < n && relations[k] == x;
            assert(p.contains(k) <==> (outgoing ==> x.source_id == id) && (!outgoing ==> x.target_id == id) && (kind is Some
                ==> x.kind == kind->0));
        }
    }
}

/// What ids are resolved to are the nodes that bear one of them.
proof fn resolved_nodes_bear_the_ids(nodes: Seq<NodeView>, wanted: Seq<Seq<char>>, n: int, x: NodeView)
    requires
        0 <= n <= wanted.len(),
    ensures
        resolved_ids(nodes, wanted, n).contains(x) <==> exists|i: int|
            0 <= i < n && node_at(nodes, #[trigger] wanted[i]) == Some(x),
    decreases n,
{
    if n > 0 {
        resolved_nodes_bear_the_ids(nodes, wanted, n - 1, x);
        let a = resolved_ids(nodes, wanted, n - 1);
        let b = resolved_ids(nodes, wanted, n);
        if a.contains(x) {
            let k = choose|k: int| 0 <= k < a.len() && a[k] == x;
            assert(b[k] == x);
        }
        if node_at(nodes, wanted[n - 1]) == Some(x) {
            assert(b[b.len() - 1] == x);
        }
        if b.contains(x) {
            let k = choose|k: int| 0 <= k < b.len() && b[k] == x;
            if k < a.len() {
                assert(a[k] == x);
            } else {
                assert(node_at(nodes, wanted[n - 1]) == Some(x));
            }
        }
    }
}

/// Looking across the edges of a kind finds a node exactly where an edge of that
/// kind joins the two, in the direction that is asked for.
pub proof fn nodes_across_are_joined(g: GraphView, id: Seq<char>, kind: RelationKind, outgoing: bool, x: NodeView)
    ensures
        across(g, id, kind, outgoing).contains(x) <==> node_at(g.nodes, x.id) == Some(x) && exists|k: int|
            #![trigger g.relations[k]]
            0 <= k < g.relations.len() && g.relations[k].kind == kind && (outgoing ==> g.relations[k].source_id == id
                && g.relations[k].target_id == x.id) && (!outgoing ==> g.relations[k].target_id == id
                && g.relations[k].source_id == x.id),
{
    let edges = edges_of(g.relations, id, Some(kind), outgoing);
    let wanted = far_ends(edges, outgoing);
    let p = edges_are_selected(g.relations, id, Some(kind), outgoing, g.relations.len() as int);
    resolved_nodes_bear_the_ids(g.nodes, wanted, wanted.len() as int, x);
    if across(g, id, kind, outgoing).contains(x) {
        let i = choose|i: int| 0 <= i < wanted.len() && node_at(g.nodes, #[trigger] wanted[i]) == Some(x);
        ids_find_nodes(g.nodes, wanted[i]);
        assert(p.contains(p[i]));
        let k = p[i];
        assert(edges[i] == g.relations[k]);
        assert(wanted[i] == (if outgoing { g.relations[k].target_id } else { g.relations[k].source_id }));
    }
    if node_at(g.nodes, x.id) == Some(x) && exists|k: int|
        #![trigger g.relations[k]]
        0 <= k < g.relations.len() && g.relations[k].kind == kind && (outgoing ==> g.relations[k].source_id == id
            && g.relations[k].target_id == x.id) && (!outgoing ==> g.relations[k].target_id == id
            && g.relations[k].source_id == x.id) {
        let k = choose|k: int|
            #![trigger g.relations[k]]
            0 <= k < g.relations.len() && g.relations[k].kind == kind && (outgoing ==> g.relations[k].source_id == id
                && g.relations[k].target_id == x.id) && (!outgoing ==> g.relations[k].target_id == id
                && g.relations[k].source_id == x.id);
        assert(p.contains(k));
        let i = choose|i: int| 0 <= i < p.len() && p[i] == k;
        assert(edges[i] == g.relations[k]);
        assert(wanted[i] == x.id);
    }
}

/// One node calls another exactly where the other is called by it, and so for every
/// kind of edge.
pub proof fn both_directions_agree(g: GraphView, kind: RelationKind, a: NodeView, b: NodeView)
    requires
        node_at(g.nodes, a.id) == Some(a),
        node_at(g.nodes, b.id) == Some(b),
    ensures
        across(g, a.id, kind, true).contains(b) <==> across(g, b.id, kind, false).contains(a),
{
    nodes_across_are_joined(g, a.id, kind, true, b);
    nodes_across_are_joined(g, b.id, kind, false, a);
}

/// The first repeat is the first node whose id an earlier node bears; without one
/// all ids differ.
pub proof fn repeats_are_found(nodes: Seq<NodeView>, from: int)
    requires
        0 <= from,
    ensures
        match first_repeat(nodes, from) {
            Some(i) => {
                &&& from <= i < nodes.len()
                &&& exists|j: int| 0 <= j < i && (#[trigger] nodes[j]).id == nodes[i].id
                &&& forall|k: int, j: int|
                    from <= k < i && 0 <= j < k ==> (#[trigger] nodes[j]).id != (#[trigger] nodes[k]).id
            },
            None => forall|k: int, j: int|
                from <= k < nodes.len() && 0 <= j < k ==> (#[trigger] nodes[j]).id != (#[trigger] nodes[k]).id,
        },
    decreases nodes.len() - from,
{
    if from < nodes.len() {
        let all = ids(nodes.take(from));
        position_is_first(all, nodes[from].id, 0);
        match position(all, nodes[from].id) {
            Some(j) => {
                assert(all[j] == nodes[j].id);
            },
            None => {
                repeats_are_found(nodes, from + 1);
                assert forall|j: int| 0 <= j < from implies (#[trigger] nodes[j]).id != nodes[from].id by {
                    assert(all[j] == nodes[j].id);
                }
            },
        }
    }
}

// ---------------------------------------------------------------------------
// The data structure
// ---------------------------------------------------------------------------

/// The graph. Both edge indices are built on first use and dropped whenever
/// the edges change.
pub struct Graph {
    nodes: Vec<Node>,
    places: Places,
    relations: Vec<Relation>,
    metadata: Metadata,
    out_index: Option<Buckets>,
    in_index: Option<Buckets>,
}

impl View for Graph {
    type V = GraphView;

    closed spec fn view(&self) -> GraphView {
        GraphView { nodes: views(self.nodes@), relations: views(self.relations@), metadata: self.metadata@ }
    }
}

/// Whether an edge index lists exactly each node's edges.
spec fn index_agrees(index: Option<Buckets>, relations: Seq<RelationView>, outgoing: bool) -> bool {
    match index {
        Some(b) => {
            &&& b.wf()
            &&& forall|id: Seq<char>| (#[trigger] b.at(id)) == place_list(
                relations,
                id,
                outgoing,
                relations.len() as int,
            )
        },
        None => true,
    }
}

/// Tells whether an edge is of a kind.
fn kind_matches(r: &Relation, kind: &Option<RelationKind>) -> (b: bool)
    ensures
        b == of_kind(r@, *kind),
{
    match kind {
        Some(k) => r.kind == *k,
        None => true,
    }
}

impl Graph {
    /// No two nodes share an id, every id is found at its node's place, no key
    /// occurs twice in the metadata of a node, and an edge index, where there is
    /// one, agrees with the edges.
    pub closed spec fn wf(&self) -> bool {
        &&& self.places.wf()
        &&& self.places@ == ids(views(self.nodes@))
        &&& forall|i: int| 0 <= i < self.nodes@.len() ==> keys_distinct((#[trigger] views(self.nodes@)[i]).metadata)
        &&& index_agrees(self.out_index, views(self.relations@), true)
        &&& index_agrees(self.in_index, views(self.relations@), false)
    }

    /// No two nodes of a graph share an id.
    pub proof fn ids_are_distinct(&self)
        requires
            self.wf(),
        ensures
            forall|i: int, j: int| 0 <= i < j < self@.nodes.len() ==> (#[trigger] self@.nodes[i]).id != (
            #[trigger] self@.nodes[j]).id,
    {
        self.places.strings_are_distinct();
        assert forall|i: int, j: int| 0 <= i < j < self@.nodes.len() implies (#[trigger] self@.nodes[i]).id != (
        #[trigger] self@.nodes[j]).id by {
            assert(self.places@[i] == ids(self@.nodes)[i]);
            assert(self.places@[j] == ids(self@.nodes)[j]);
        }
    }

    /// No key occurs twice in the metadata of a node.
    pub proof fn node_keys_are_distinct(&self)
        requires
            self.wf(),
        ensures
            forall|i: int| 0 <= i < self@.nodes.len() ==> keys_distinct((#[trigger] self@.nodes[i]).metadata),
    {
    }

    /// A graph without nodes, edges and metadata.
    pub fn new() -> (r: Graph)
        ensures
            r.wf(),
            r@ == GraphView::empty(),
    {
        let r = Graph {
            nodes: Vec::new(),
            places: Places::new(),
            relations: Vec::new(),
            metadata: Metadata::new(),
            out_index: None,
            in_index: None,
        };
        assert(ids(views(r.nodes@)) =~= Seq::<Seq<char>>::empty());
        assert(views(r.nodes@) =~= Seq::<NodeView>::empty());
        assert(views(r.relations@) =~= Seq::<RelationView>::empty());
        r
    }

    /// A graph without nodes, edges and metadata.
    pub fn empty() -> (r: Graph)
        ensures
            r.wf(),
            r@ == GraphView::empty(),
    {
        Graph::new()
    }

    /// The nodes, in insertion order.
    pub fn nodes(&self) -> (r: &Vec<Node>)
        ensures
            views(r@) == self@.nodes,
    {
        &self.nodes
    }

    /// The edges, in insertion order.
    pub fn relations(&self) -> (r: &Vec<Relation>)
        ensures
            views(r@) == self@.relations,
    {
        &self.relations
    }

    /// The metadata.
    pub fn metadata(&self) -> (r: &Metadata)
        ensures
            r@ == self@.metadata,
    {
        &self.metadata
    }

    /// The number of nodes.
    pub fn len(&self) -> (r: usize)
        ensures
            r == self@.nodes.len(),
    {
        self.nodes.len()
    }

    /// The size of a graph in words.
    pub fn repr(&self) -> (r: String)
        ensures
            r@ == "Graph(nodes="@ + decimal(self@.nodes.len()) + ", relations="@ + decimal(self@.relations.len()) + ")"@,
    {
        concat5(
            "Graph(nodes=",
            decimal_text(self.nodes.len() as u64).as_str(),
            ", relations=",
            decimal_text(self.relations.len() as u64).as_str(),
            ")",
        )
    }

    /// Stores a value in the graph's metadata.
    pub fn set_metadata_item(&mut self, key: &str, value: MetaValue)
        requires
            old(self).wf(),
        ensures
            final(self).wf(),
            final(self)@ == old(self)@.note(key@, value@),
    {
        self.metadata.set(key, value);
    }

    /// Tells whether the graph holds a node with this id.
    pub fn has_node(&self, id: &str) -> (r: bool)
        requires
            self.wf(),
        ensures
            r == self@.has(id@),
    {
        self.places.get(id).is_some()
    }

    /// The node with this id.
    pub fn node(&self, id: &str) -> (r: Option<&Node>)
        requires
            self.wf(),
        ensures
            match r {
                Some(n) => node_at(self@.nodes, id@) == Some(n@) && n.id@ == id@,
                None => node_at(self@.nodes, id@) is None,
            },
    {
        match self.places.get(id) {
            Some(i) => {
                proof {
                    assert(ids(views(self.nodes@))[i as int] == views(self.nodes@)[i as int].id);
                }
                Some(&self.nodes[i])
            },
            None => None,
        }
    }

    /// Adds a node under an id that is free.
    fn append_node(&mut self, node: Node)
        requires
            old(self).wf(),
            !old(self)@.has(node.id@),
        ensures
            final(self).wf(),
            final(self)@ == (GraphView { nodes: old(self)@.nodes.push(node@), ..old(self)@ }),
    {
        let ghost nv = node@;
        proof {
            use_type_invariant(&node.metadata);
        }
        self.places.add(node.id.as_str(), self.nodes.len());
        add_item(&mut self.nodes, node);
        assert(ids(views(self.nodes@)) =~= ids(views(old(self).nodes@)).push(nv.id));
    }

    /// Adds a node; a node whose id is taken is dropped.
    pub fn insert_node(&mut self, node: Node)
        requires
            old(self).wf(),
        ensures
            final(self).wf(),
            final(self)@ == old(self)@.insert(node@),
    {
        if !self.has_node(node.id.as_str()) {
            self.append_node(node);
        }
    }

    /// Adds a node, or returns the message to report where its id is taken.
    pub fn add_node(&mut self, node: Node) -> (r: Result<(), String>)
        requires
            old(self).wf(),
        ensures
            final(self).wf(),
            match r {
                Ok(_) => !old(self)@.has(node@.id) && final(self)@ == old(self)@.insert(node@),
                Err(message) => old(self)@.has(node@.id) && final(self)@ == old(self)@ && message@ == duplicate_message(
                    node@.id,
                ),
            },
    {
        if self.has_node(node.id.as_str()) {
            return Err(concat3("Node with id '", node.id.as_str(), "' already exists"));
        }
        self.append_node(node);
        Ok(())
    }

    /// Adds an edge.
    pub fn push_relation(&mut self, relation: Relation)
        requires
            old(self).wf(),
        ensures
            final(self).wf(),
            final(self)@ == old(self)@.relate(relation@),
    {
        add_item(&mut self.relations, relation);
        self.out_index = None;
        self.in_index = None;
    }

    /// Adds an edge.
    pub fn add_relation(&mut self, relation: Relation)
        requires
            old(self).wf(),
        ensures
            final(self).wf(),
            final(self)@ == old(self)@.relate(relation@),
    {
        self.push_relation(relation)
    }

    /// Replaces the edges.
    pub(crate) fn set_relations(&mut self, relations: Vec<Relation>)
        requires
            old(self).wf(),
        ensures
            final(self).wf(),
            final(self)@ == (GraphView { relations: views(relations@), ..old(self)@ }),
    {
        self.relations = relations;
        self.out_index = None;
        self.in_index = None;
    }

    /// Replaces the metadata.
    pub(crate) fn set_metadata(&mut self, metadata: Metadata)
        requires
            old(self).wf(),
        ensures
            final(self).wf(),
            final(self)@ == (GraphView { metadata: metadata@, ..old(self)@ }),
    {
        self.metadata = metadata;
    }

    /// Builds a graph from its parts, or returns the message to report where two
    /// nodes have the same id.
    pub fn from_parts(metadata: Metadata, nodes: Vec<Node>, relations: Vec<Relation>) -> (r: Result<Graph, String>)
        ensures
            match r {
                Ok(g) => {
                    &&& g.wf()
                    &&& first_repeat(views(nodes@), 0) is None
                    &&& g@ == (GraphView {
                        nodes: views(nodes@),
                        relations: views(relations@),
                        metadata: metadata@,
                    })
                },
                Err(message) => match first_repeat(views(nodes@), 0) {
                    Some(i) => message@ == duplicate_message(views(nodes@)[i].id),
                    None => false,
                },
            },
    {
        let mut g = Graph::new();
        let ghost all = views(nodes@);
        assert(g@.nodes =~= all.take(0));
        let mut i: usize = 0;
        while i < nodes.len()
            invariant
                i <= nodes@.len(),
                all == views(nodes@),
                g.wf(),
                g@ == (GraphView { nodes: all.take(i as int), ..GraphView::empty() }),
                first_repeat(all, 0) == first_repeat(all, i as int),
            decreases nodes@.len() - i,
        {
            assert(all[i as int] == nodes@[i as int]@);
            match g.add_node(nodes[i].copy()) {
                Ok(_) => {},
                Err(message) => {
                    return Err(message);
                },
            }
            assert(all.take(i + 1) =~= all.take(i as int).push(all[i as int]));
            i += 1;
        }
        assert(all.take(nodes@.len() as int) =~= all);
        g.set_metadata(metadata);
        g.set_relations(relations);
        Ok(g)
    }

    /// Builds one edge index.
    fn build_index(&self, outgoing: bool) -> (r: Buckets)
        ensures
            index_agrees(Some(r), views(self.relations@), outgoing),
    {
        let mut b = Buckets::new();
        let mut i: usize = 0;
        let ghost rels = views(self.relations@);
        while i < self.relations.len()
            invariant
                i <= self.relations@.len(),
                rels == views(self.relations@),
                b.wf(),
                forall|id: Seq<char>| (#[trigger] b.at(id)) == place_list(rels, id, outgoing, i as int),
            decreases self.relations@.len() - i,
        {
            let r = &self.relations[i];
            let ghost before_add = b;
            if outgoing {
                b.add(r.source_id.as_str(), i);
            } else {
                b.add(r.target_id.as_str(), i);
            }
            proof {
                assert(rels[i as int] == r@);
                assert forall|id: Seq<char>| (#[trigger] b.at(id)) == place_list(rels, id, outgoing, i + 1) by {
                    assert(before_add.at(id) == place_list(rels, id, outgoing, i as int));
                }
            }
            i += 1;
        }
        b
    }

    /// Builds both edge indices unless they are there.
    fn ensure_index(&mut self)
        requires
            old(self).wf(),
        ensures
            final(self).wf(),
            final(self)@ == old(self)@,
            final(self).out_index is Some,
            final(self).in_index is Some,
    {
        if self.out_index.is_none() {
            let b = self.build_index(true);
            self.out_index = Some(b);
        }
        if self.in_index.is_none() {
            let b = self.build_index(false);
            self.in_index = Some(b);
        }
    }

    /// The edges that leave, or enter, a node and are of a kind.
    pub fn edges(&mut self, node_id: &str, kind: Option<RelationKind>, outgoing: bool) -> (r: Vec<Relation>)
        requires
            old(self).wf(),
        ensures
            final(self).wf(),
            final(self)@ == old(self)@,
            views(r@) == edges_of(old(self)@.relations, node_id@, kind, outgoing),
    {
        self.ensure_index();
        let mut out: Vec<Relation> = Vec::new();
        let ghost rels = views(self.relations@);
        let ghost places = place_list(rels, node_id@, outgoing, rels.len() as int);
        let total: usize = self.relations.len();
        proof {
            places_give_edges(rels, node_id@, kind, outgoing, rels.len() as int);
            assert(views(out@) =~= Seq::<RelationView>::empty());
        }
        let index: &Option<Buckets> = if outgoing {
            &self.out_index
        } else {
            &self.in_index
        };
        if let Some(b) = index {
            assert(b.at(node_id@) == places);
            let n = b.len(node_id);
            let mut i: usize = 0;
            while i < n
                invariant
                    i <= n,
                    b.wf(),
                    b.at(node_id@) == places,
                    n == places.len(),
                    rels == views(self.relations@),
                    forall|j: int| 0 <= j < places.len() ==> (#[trigger] places[j]) < rels.len(),
                    views(out@) == kind_list(rels, places, kind, i as int),
                decreases n - i,
            {
                let p = b.get(node_id, i);
                assert(p == places[i as int]);
                let r = &self.relations[p];
                assert(r@ == rels[p as int]);
                if kind_matches(r, &kind) {
                    add_item(&mut out, r.copy());
                }
                i += 1;
            }
        }
        out
    }

    /// The edges that leave a node.
    pub fn outgoing(&mut self, node_id: &str, kind: Option<RelationKind>) -> (r: Vec<Relation>)
        requires
            old(self).wf(),
        ensures
            final(self).wf(),
            final(self)@ == old(self)@,
            views(r@) == edges_of(old(self)@.relations, node_id@, kind, true),
            forall|x: RelationView| #[trigger]
                views(r@).contains(x) <==> old(self)@.relations.contains(x) && x.source_id == node_id@ && (kind is Some
                    ==> x.kind == kind->0),
    {
        proof {
            edges_are_those_asked_for(self@.relations, node_id@, kind, true);
        }
        self.edges(node_id, kind, true)
    }

    /// The edges that enter a node.
    pub fn incoming(&mut self, node_id: &str, kind: Option<RelationKind>) -> (r: Vec<Relation>)
        requires
            old(self).wf(),
        ensures
            final(self).wf(),
            final(self)@ == old(self)@,
            views(r@) == edges_of(old(self)@.relations, node_id@, kind, false),
            forall|x: RelationView| #[trigger]
                views(r@).contains(x) <==> old(self)@.relations.contains(x) && x.target_id == node_id@ && (kind is Some
                    ==> x.kind == kind->0),
    {
        proof {
            edges_are_those_asked_for(self@.relations, node_id@, kind, false);
        }
        self.edges(node_id, kind, false)
    }

    /// The nodes with the given ids; an id without a node is skipped.
    pub fn resolve(&self, wanted: &Vec<String>) -> (r: Vec<Node>)
        requires
            self.wf(),
        ensures
            views(r@) == resolved_ids(self@.nodes, views(wanted@), wanted@.len() as int),
    {
        let mut out: Vec<Node> = Vec::new();
        let mut i: usize = 0;
        assert(views(out@) =~= Seq::<NodeView>::empty());
        while i < wanted.len()
            invariant
                i <= wanted@.len(),
                self.wf(),
                views(out@) == resolved_ids(self@.nodes, views(wanted@), i as int),
            decreases wanted@.len() - i,
        {
            assert(views(wanted@)[i as int] == wanted@[i as int]@);
            if let Some(n) = self.node(wanted[i].as_str()) {
                add_item(&mut out, n.copy());
            }
            i += 1;
        }
        out
    }

    /// The nodes at the far ends of a node's edges of a kind.
    fn across(&mut self, node_id: &str, kind: RelationKind, outgoing: bool) -> (r: Vec<Node>)
        requires
            old(self).wf(),
        ensures
            final(self).wf(),
            final(self)@ == old(self)@,
            views(r@) == across(old(self)@, node_id@, kind, outgoing),
    {
        let edges = self.edges(node_id, Some(kind), outgoing);
        let mut wanted: Vec<String> = Vec::new();
        let mut i: usize = 0;
        let ghost all = far_ends(views(edges@), outgoing);
        assert(views(wanted@) =~= all.take(0));
        while i < edges.len()
            invariant
                i <= edges@.len(),
                all == far_ends(views(edges@), outgoing),
                views(wanted@) == all.take(i as int),
            decreases edges@.len() - i,
        {
            let r = &edges[i];
            assert(views(edges@)[i as int] == r@);
            if outgoing {
                add_item(&mut wanted, copy(r.target_id.as_str()));
            } else {
                add_item(&mut wanted, copy(r.source_id.as_str()));
            }
            assert(all.take(i + 1) =~= all.take(i as int).push(all[i as int]));
            i += 1;
        }
        assert(all.take(edges@.len() as int) =~= all);
        self.resolve(&wanted)
    }

    /// What a node calls.
    pub fn callees(&mut self, node_id: &str) -> (r: Vec<Node>)
        requires
            old(self).wf(),
        ensures
            final(self).wf(),
            final(self)@ == old(self)@,
            views(r@) == across(old(self)@, node_id@, RelationKind::Calls, true),
            forall|x: NodeView| #[trigger]
                views(r@).contains(x) <==> node_at(old(self)@.nodes, x.id) == Some(x) && exists|k: int|
                    0 <= k < old(self)@.relations.len() && (#[trigger] old(self)@.relations[k]).kind == RelationKind::Calls
                        && old(self)@.relations[k].source_id == node_id@ && old(self)@.relations[k].target_id == x.id,
    {
        proof {
            assert forall|x: NodeView| #[trigger]
                across(self@, node_id@, RelationKind::Calls, true).contains(x) <==> node_at(self@.nodes, x.id) == Some(x)
                    && exists|k: int|
                    0 <= k < self@.relations.len() && (#[trigger] self@.relations[k]).kind == RelationKind::Calls
                        && self@.relations[k].source_id == node_id@ && self@.relations[k].target_id == x.id by {
                nodes_across_are_joined(self@, node_id@, RelationKind::Calls, true, x);
            }
        }
        self.across(node_id, RelationKind::Calls, true)
    }

    /// What calls a node.
    pub fn callers(&mut self, node_id: &str) -> (r: Vec<Node>)
        requires
            old(self).wf(),
        ensures
            final(self).wf(),
            final(self)@ == old(self)@,
            views(r@) == across(old(self)@, node_id@, RelationKind::Calls, false),
            forall|x: NodeView| #[trigger]
                views(r@).contains(x) <==> node_at(old(self)@.nodes, x.id) == Some(x) && exists|k: int|
                    0 <= k < old(self)@.relations.len() && (#[trigger] old(self)@.relations[k]).kind == RelationKind::Calls
                        && old(self)@.relations[k].target_id == node_id@ && old(self)@.relations[k].source_id == x.id,
    {
        proof {
            assert forall|x: NodeView| #[trigger]
                across(self@, node_id@, RelationKind::Calls, false).contains(x) <==> node_at(self@.nodes, x.id) == Some(x)
                    && exists|k: int|
                    0 <= k < self@.relations.len() && (#[trigger] self@.relations[k]).kind == RelationKind::Calls
                        && self@.relations[k].target_id == node_id@ && self@.relations[k].source_id == x.id by {
                nodes_across_are_joined(self@, node_id@, RelationKind::Calls, false, x);
            }
        }
        self.across(node_id, RelationKind::Calls, false)
    }

    /// What references a node.
    pub fn references_to(&mut self, node_id: &str) -> (r: Vec<Node>)
        requires
            old(self).wf(),
        ensures
            final(self).wf(),
            final(self)@ == old(self)@,
            views(r@) == across(old(self)@, node_id@, RelationKind::References, false),
            forall|x: NodeView| #[trigger]
                views(r@).contains(x) <==> node_at(old(self)@.nodes, x.id) == Some(x) && exists|k: int|
                    0 <= k < old(self)@.relations.len() && (#[trigger] old(self)@.relations[k]).kind == RelationKind::References
                        && old(self)@.relations[k].target_id == node_id@ && old(self)@.relations[k].source_id == x.id,
    {
        proof {
            assert forall|x: NodeView| #[trigger]
                across(self@, node_id@, RelationKind::References, false).contains(x) <==> node_at(self@.nodes, x.id) == Some(x)
                    && exists|k: int|
                    0 <= k < self@.relations.len() && (#[trigger] self@.relations[k]).kind == RelationKind::References
                        && self@.relations[k].target_id == node_id@ && self@.relations[k].source_id == x.id by {
                nodes_across_are_joined(self@, node_id@, RelationKind::References, false, x);
            }
        }
        self.across(node_id, RelationKind::References, false)
    }
}

/// The message for an id that is taken.
pub open spec fn duplicate_message(id: Seq<char>) -> Seq<char> {
    "Node with id '"@ + id + "' already exists"@
}

}
