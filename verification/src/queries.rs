//! Queries that return nodes or parts of a graph.

use vstd::hash_set::StringHashSet;
use vstd::prelude::*;

use crate::graph::{added_nodes_are_found, edges_of, ids, ids_find_nodes, node_at, touches, Graph, GraphView};
use crate::index::{table_get, Table};
use crate::node::{Node, NodeKind, NodeView};
use crate::relation::{Relation, RelationView};
use crate::selection::{pick_next, pick_nothing, picked_items, picks};
use crate::text::{add_item, copy, position_is_first, same, views};

verus! {

// ---------------------------------------------------------------------------
// Nodes by a property
// ---------------------------------------------------------------------------

/// The nodes of a file are those whose path is the file's.
pub open spec fn in_file(nodes: Seq<NodeView>, file_path: Seq<char>, n: int) -> Seq<NodeView>
    decreases n,
{
    if n <= 0 || n > nodes.len() {
        Seq::empty()
    } else {
        let earlier = in_file(nodes, file_path, n - 1);
        if nodes[n - 1].file_path == Some(file_path) {
            earlier.push(nodes[n - 1])
        } else {
            earlier
        }
    }
}

/// The nodes whose short or qualified name is the given one.
pub open spec fn with_name(nodes: Seq<NodeView>, name: Seq<char>, n: int) -> Seq<NodeView>
    decreases n,
{
    if n <= 0 || n > nodes.len() {
        Seq::empty()
    } else {
        let earlier = with_name(nodes, name, n - 1);
        if nodes[n - 1].name == name || nodes[n - 1].qualified_name == name {
            earlier.push(nodes[n - 1])
        } else {
            earlier
        }
    }
}

/// The nodes of a kind.
pub open spec fn with_kind(nodes: Seq<NodeView>, kind: NodeKind, n: int) -> Seq<NodeView>
    decreases n,
{
    if n <= 0 || n > nodes.len() {
        Seq::empty()
    } else {
        let earlier = with_kind(nodes, kind, n - 1);
        if nodes[n - 1].kind == kind {
            earlier.push(nodes[n - 1])
        } else {
            earlier
        }
    }
}

/// Asking for a kind selects the nodes of that kind and no others, in their order.
pub proof fn nodes_of_a_kind_are_selected(nodes: Seq<NodeView>, kind: NodeKind, n: int) -> (places: Seq<int>)
    requires
        0 <= n <= nodes.len(),
    ensures
        picks(nodes, with_kind(nodes, kind, n), places),
        forall|k: int| #[trigger] places.contains(k) <==> 0 <= k < n && nodes[k].kind == kind,
    decreases n,
{
    if n == 0 {
        pick_nothing(nodes);
        Seq::empty()
    } else {
        let p = nodes_of_a_kind_are_selected(nodes, kind, n - 1);
        if nodes[n - 1].kind == kind {
            pick_next(nodes, with_kind(nodes, kind, n - 1), p, n - 1);
            p.push(n - 1)
        } else {
            p
        }
    }
}

/// Asking for a file selects the nodes whose path it is and no others, in their
/// order.
pub proof fn nodes_of_a_file_are_selected(nodes: Seq<NodeView>, file_path: Seq<char>, n: int) -> (places: Seq<int>)
    requires
        0 <= n <= nodes.len(),
    ensures
        picks(nodes, in_file(nodes, file_path, n), places),
        forall|k: int| #[trigger] places.contains(k) <==> 0 <= k < n && nodes[k].file_path == Some(file_path),
    decreases n,
{
    if n == 0 {
        pick_nothing(nodes);
        Seq::empty()
    } else {
        let p = nodes_of_a_file_are_selected(nodes, file_path, n - 1);
        if nodes[n - 1].file_path == Some(file_path) {
            pick_next(nodes, in_file(nodes, file_path, n - 1), p, n - 1);
            p.push(n - 1)
        } else {
            p
        }
    }
}

/// Asking for a name selects the nodes that bear it, short or qualified, and no
/// others, in their order.
pub proof fn nodes_of_a_name_are_selected(nodes: Seq<NodeView>, name: Seq<char>, n: int) -> (places: Seq<int>)
    requires
        0 <= n <= nodes.len(),
    ensures
        picks(nodes, with_name(nodes, name, n), places),
        forall|k: int| #[trigger] places.contains(k) <==> 0 <= k < n && (nodes[k].name == name || nodes[k].qualified_name == name),
    decreases n,
{
    if n == 0 {
        pick_nothing(nodes);
        Seq::empty()
    } else {
        let p = nodes_of_a_name_are_selected(nodes, name, n - 1);
        if (nodes[n - 1].name == name || nodes[n - 1].qualified_name == name) {
            pick_next(nodes, with_name(nodes, name, n - 1), p, n - 1);
            p.push(n - 1)
        } else {
            p
        }
    }
}

/// What a table gives once it is one entry longer.
proof fn longer_table_get(t: Seq<(Seq<char>, Seq<char>)>, e: (Seq<char>, Seq<char>), key: Seq<char>)
    ensures
        table_get(t.push(e), key) == (match table_get(t, key) {
            Some(v) => Some(v),
            None => if e.0 == key {
                Some(e.1)
            } else {
                None
            },
        }),
    decreases t.len(),
{
    if t.len() > 0 {
        longer_table_get(t.skip(1), e, key);
        assert(t.push(e).skip(1) =~= t.skip(1).push(e));
        assert(t.push(e)[0] == t[0]);
    } else {
        assert(t.push(e).skip(1) =~= t);
    }
}

/// A qualified name leads to the first module that bears it, and leads nowhere only
/// where no module bears it.
pub proof fn names_lead_to_modules(nodes: Seq<NodeView>, name: Seq<char>, n: int)
    requires
        0 <= n <= nodes.len(),
    ensures
        match table_get(modules_by_name(nodes, n), name) {
            Some(id) => exists|k: int|
                #![trigger nodes[k]]
                0 <= k < n && nodes[k].kind == NodeKind::Module && nodes[k].qualified_name == name && nodes[k].id == id
                    && forall|j: int|
                    0 <= j < k ==> (#[trigger] nodes[j]).kind != NodeKind::Module || nodes[j].qualified_name != name,
            None => forall|k: int|
                0 <= k < n ==> (#[trigger] nodes[k]).kind != NodeKind::Module || nodes[k].qualified_name != name,
        },
    decreases n,
{
    if n > 0 {
        names_lead_to_modules(nodes, name, n - 1);
        let x = nodes[n - 1];
        longer_table_get(modules_by_name(nodes, n - 1), (x.qualified_name, x.id), name);
    }
}

/// Tells whether a node's path is the given one.
fn path_is(n: &Node, file_path: &str) -> (r: bool)
    ensures
        r == (n@.file_path == Some(file_path@)),
{
    match &n.file_path {
        Some(p) => same(p.as_str(), file_path),
        None => false,
    }
}

/// The ids of the modules among the first `n` nodes, by qualified name; the first
/// module of a name keeps it.
pub open spec fn modules_by_name(nodes: Seq<NodeView>, n: int) -> Seq<(Seq<char>, Seq<char>)>
    decreases n,
{
    if n <= 0 || n > nodes.len() {
        Seq::empty()
    } else {
        let earlier = modules_by_name(nodes, n - 1);
        let node = nodes[n - 1];
        if node.kind == NodeKind::Module && table_get(earlier, node.qualified_name) is None {
            earlier.push((node.qualified_name, node.id))
        } else {
            earlier
        }
    }
}

impl Graph {
    /// The ids of the modules by qualified name.
    pub fn module_index(&self) -> (r: Table)
        ensures
            r.wf(),
            r@ == modules_by_name(self@.nodes, self@.nodes.len() as int),
    {
        let all = self.nodes();
        let mut out = Table::new();
        let mut i: usize = 0;
        while i < all.len()
            invariant
                i <= all@.len(),
                views(all@) == self@.nodes,
                out.wf(),
                out@ == modules_by_name(self@.nodes, i as int),
            decreases all@.len() - i,
        {
            assert(self@.nodes[i as int] == all@[i as int]@);
            if all[i].kind == NodeKind::Module && out.get(all[i].qualified_name.as_str()).is_none() {
                out.add(all[i].qualified_name.as_str(), all[i].id.as_str());
            }
            i += 1;
        }
        out
    }

    /// Every node of a kind, in insertion order.
    pub fn nodes_by_kind(&self, kind: NodeKind) -> (r: Vec<Node>)
        ensures
            views(r@) == with_kind(self@.nodes, kind, self@.nodes.len() as int),
            forall|i: int|
                0 <= i < self@.nodes.len() ==> ((#[trigger] self@.nodes[i]).kind == kind <==> views(r@).contains(self@.nodes[i])),
            forall|x: NodeView| #[trigger] views(r@).contains(x) ==> self@.nodes.contains(x) && x.kind == kind,
    {
        let all = self.nodes();
        let mut out: Vec<Node> = Vec::new();
        let mut i: usize = 0;
        assert(views(out@) =~= Seq::<NodeView>::empty());
        while i < all.len()
            invariant
                i <= all@.len(),
                views(all@) == self@.nodes,
                views(out@) == with_kind(self@.nodes, kind, i as int),
            decreases all@.len() - i,
        {
            assert(self@.nodes[i as int] == all@[i as int]@);
            if all[i].kind == kind {
                add_item(&mut out, all[i].copy());
            }
            i += 1;
        }
        proof {
            let p = nodes_of_a_kind_are_selected(self@.nodes, kind, self@.nodes.len() as int);
            let found = views(out@);
            assert forall|x: NodeView| #[trigger] found.contains(x) <==> self@.nodes.contains(x) && x.kind == kind by {
                picked_items(self@.nodes, found, p, x);
                if self@.nodes.contains(x) && x.kind == kind {
                    let k = choose|k: int| 0 <= k < self@.nodes.len() && self@.nodes[k] == x;
                    assert(p.contains(k));
                }
            }
            assert forall|i: int| 0 <= i < self@.nodes.len() implies self@.nodes.contains(#[trigger] self@.nodes[i]) by {
            }
        }
        out
    }

    /// Every node declared in a file, in insertion order.
    pub fn nodes_in_file(&self, file_path: &str) -> (r: Vec<Node>)
        ensures
            views(r@) == in_file(self@.nodes, file_path@, self@.nodes.len() as int),
            forall|i: int|
                0 <= i < self@.nodes.len() ==> ((#[trigger] self@.nodes[i]).file_path == Some(file_path@) <==> views(r@).contains(self@.nodes[i])),
            forall|x: NodeView| #[trigger] views(r@).contains(x) ==> self@.nodes.contains(x) && x.file_path == Some(file_path@),
    {
        let all = self.nodes();
        let mut out: Vec<Node> = Vec::new();
        let mut i: usize = 0;
        assert(views(out@) =~= Seq::<NodeView>::empty());
        while i < all.len()
            invariant
                i <= all@.len(),
                views(all@) == self@.nodes,
                views(out@) == in_file(self@.nodes, file_path@, i as int),
            decreases all@.len() - i,
        {
            assert(self@.nodes[i as int] == all@[i as int]@);
            if path_is(&all[i], file_path) {
                add_item(&mut out, all[i].copy());
            }
            i += 1;
        }
        proof {
            let p = nodes_of_a_file_are_selected(self@.nodes, file_path@, self@.nodes.len() as int);
            let found = views(out@);
            assert forall|x: NodeView| #[trigger] found.contains(x) <==> self@.nodes.contains(x) && x.file_path == Some(file_path@) by {
                picked_items(self@.nodes, found, p, x);
                if self@.nodes.contains(x) && x.file_path == Some(file_path@) {
                    let k = choose|k: int| 0 <= k < self@.nodes.len() && self@.nodes[k] == x;
                    assert(p.contains(k));
                }
            }
            assert forall|i: int| 0 <= i < self@.nodes.len() implies self@.nodes.contains(#[trigger] self@.nodes[i]) by {
            }
        }
        out
    }

    /// The nodes whose short or qualified name is the given one.
    pub fn nodes_by_name(&self, name: &str) -> (r: Vec<Node>)
        ensures
            views(r@) == with_name(self@.nodes, name@, self@.nodes.len() as int),
            forall|i: int|
                0 <= i < self@.nodes.len() ==> (((#[trigger] self@.nodes[i]).name == name@ || self@.nodes[i].qualified_name == name@) <==> views(r@).contains(self@.nodes[i])),
            forall|x: NodeView| #[trigger] views(r@).contains(x) ==> self@.nodes.contains(x) && (x.name == name@ || x.qualified_name == name@),
    {
        let all = self.nodes();
        let mut out: Vec<Node> = Vec::new();
        let mut i: usize = 0;
        assert(views(out@) =~= Seq::<NodeView>::empty());
        while i < all.len()
            invariant
                i <= all@.len(),
                views(all@) == self@.nodes,
                views(out@) == with_name(self@.nodes, name@, i as int),
            decreases all@.len() - i,
        {
            assert(self@.nodes[i as int] == all@[i as int]@);
            if same(all[i].name.as_str(), name) || same(all[i].qualified_name.as_str(), name) {
                add_item(&mut out, all[i].copy());
            }
            i += 1;
        }
        proof {
            let p = nodes_of_a_name_are_selected(self@.nodes, name@, self@.nodes.len() as int);
            let found = views(out@);
            assert forall|x: NodeView| #[trigger] found.contains(x) <==> self@.nodes.contains(x) && (x.name == name@ || x.qualified_name == name@) by {
                picked_items(self@.nodes, found, p, x);
                if self@.nodes.contains(x) && (x.name == name@ || x.qualified_name == name@) {
                    let k = choose|k: int| 0 <= k < self@.nodes.len() && self@.nodes[k] == x;
                    assert(p.contains(k));
                }
            }
            assert forall|i: int| 0 <= i < self@.nodes.len() implies self@.nodes.contains(#[trigger] self@.nodes[i]) by {
            }
        }
        out
    }
}

// ---------------------------------------------------------------------------
// Neighbours
// ---------------------------------------------------------------------------

/// How far a search has come: the ids it has seen, those it goes on from, and
/// the nodes it has found.
pub struct Search {
    pub seen: Set<Seq<char>>,
    pub next: Seq<Seq<char>>,
    pub found: Seq<NodeView>,
}

/// The other end of an edge.
pub open spec fn other_end(r: RelationView, id: Seq<char>) -> Seq<char> {
    if r.source_id == id {
        r.target_id
    } else {
        r.source_id
    }
}

/// The search after looking at one id.
pub open spec fn seen_id(nodes: Seq<NodeView>, v: Search, id: Seq<char>) -> Search {
    if v.seen.contains(id) {
        v
    } else {
        Search {
            seen: v.seen.insert(id),
            next: v.next.push(id),
            found: match node_at(nodes, id) {
                Some(n) => v.found.push(n),
                None => v.found,
            },
        }
    }
}

/// The search after looking along the first `n` of an id's edges.
pub open spec fn seen_along(nodes: Seq<NodeView>, id: Seq<char>, edges: Seq<RelationView>, v: Search, n: int) -> Search
    decreases n,
{
    if n <= 0 || n > edges.len() {
        v
    } else {
        seen_id(nodes, seen_along(nodes, id, edges, v, n - 1), other_end(edges[n - 1], id))
    }
}

/// The search after looking along all of an id's edges: first those that leave
/// it, then those that enter it.
pub open spec fn seen_from(g: GraphView, id: Seq<char>, v: Search) -> Search {
    let out = edges_of(g.relations, id, None, true);
    let inc = edges_of(g.relations, id, None, false);
    seen_along(g.nodes, id, inc, seen_along(g.nodes, id, out, v, out.len() as int), inc.len() as int)
}

/// The search after going on from the first `n` ids of a frontier.
pub open spec fn seen_from_all(g: GraphView, frontier: Seq<Seq<char>>, v: Search, n: int) -> Search
    decreases n,
{
    if n <= 0 || n > frontier.len() {
        v
    } else {
        seen_from(g, frontier[n - 1], seen_from_all(g, frontier, v, n - 1))
    }
}

/// The search after a number of rounds.
pub open spec fn rounds(g: GraphView, id: Seq<char>, depth: nat) -> Search
    decreases depth,
{
    if depth == 0 {
        Search { seen: Set::empty().insert(id), next: seq![id], found: Seq::empty() }
    } else {
        let v = rounds(g, id, (depth - 1) as nat);
        seen_from_all(
            g,
            v.next,
            Search { seen: v.seen, next: Seq::empty(), found: v.found },
            v.next.len() as int,
        )
    }
}

/// The nodes within a number of hops of a node, in either direction.
pub open spec fn neighborhood(g: GraphView, id: Seq<char>, depth: nat) -> Seq<NodeView> {
    rounds(g, id, depth).found
}

/// What every search keeps: found nodes carry ids that were seen, each once,
/// and never the start.
pub open spec fn search_ok(g: GraphView, start: Seq<char>, v: Search) -> bool {
    &&& v.seen.contains(start)
    &&& forall|i: int| 0 <= i < v.found.len() ==> v.seen.contains((#[trigger] v.found[i]).id) && v.found[i].id != start
    &&& forall|i: int, j: int| 0 <= i < j < v.found.len() ==> (#[trigger] v.found[i]).id != (#[trigger] v.found[j]).id
    &&& forall|x: Seq<char>|
        v.seen.contains(x) && x != start && g.has(x) ==> #[trigger] v.found.contains(node_at(g.nodes, x)->0)
    &&& forall|i: int|
        0 <= i < v.found.len() ==> node_at(g.nodes, (#[trigger] v.found[i]).id) == Some(v.found[i])
}

proof fn node_at_has_id(nodes: Seq<NodeView>, id: Seq<char>)
    ensures
        match node_at(nodes, id) {
            Some(n) => n.id == id,
            None => true,
        },
{
    position_is_first(ids(nodes), id, 0);
}

proof fn seen_id_ok(g: GraphView, start: Seq<char>, v: Search, id: Seq<char>)
    requires
        search_ok(g, start, v),
    ensures
        search_ok(g, start, seen_id(g.nodes, v, id)),
        seen_id(g.nodes, v, id).seen == v.seen.insert(id),
{
    node_at_has_id(g.nodes, id);
    let w = seen_id(g.nodes, v, id);
    if v.seen.contains(id) {
        assert(v.seen.insert(id) =~= v.seen);
    } else {
        assert forall|x: Seq<char>| w.seen.contains(x) && x != start && g.has(x) implies #[trigger] w.found.contains(
            node_at(g.nodes, x)->0,
        ) by {
            let n = node_at(g.nodes, x)->0;
            if x == id {
                assert(w.found[w.found.len() - 1] == n);
            } else {
                assert(v.found.contains(n));
                let k = choose|k: int| 0 <= k < v.found.len() && v.found[k] == n;
                assert(w.found[k] == n);
            }
        }
        assert forall|i: int| 0 <= i < w.found.len() implies w.seen.contains((#[trigger] w.found[i]).id) && w.found[i].id
            != start && node_at(g.nodes, w.found[i].id) == Some(w.found[i]) by {
            if i < v.found.len() {
                assert(w.found[i] == v.found[i]);
            }
        }
        assert forall|i: int, j: int| 0 <= i < j < w.found.len() implies (#[trigger] w.found[i]).id
            != (#[trigger] w.found[j]).id by {
            assert(w.found[i] == v.found[i]);
            if j < v.found.len() {
                assert(w.found[j] == v.found[j]);
            }
        }
    }
}

/// Whether two ids are joined by an edge.
pub open spec fn adjacent(relations: Seq<RelationView>, a: Seq<char>, b: Seq<char>) -> bool {
    exists|i: int|
        0 <= i < relations.len() && (((#[trigger] relations[i]).source_id == a && relations[i].target_id == b) || (
        relations[i].source_id == b && relations[i].target_id == a))
}

/// The ids within a number of hops of an id.
pub open spec fn within(relations: Seq<RelationView>, id: Seq<char>, depth: nat, x: Seq<char>) -> bool
    decreases depth,
{
    if depth == 0 {
        x == id
    } else {
        within(relations, id, (depth - 1) as nat, x) || exists|y: Seq<char>| #[trigger]
            adjacent(relations, y, x) && within(relations, id, (depth - 1) as nat, y)
    }
}

/// The edges of a node are exactly those that touch it.
proof fn edges_are_those_that_touch(
    relations: Seq<RelationView>,
    id: Seq<char>,
    outgoing: bool,
    n: int,
    x: RelationView,
)
    requires
        0 <= n <= relations.len(),
    ensures
        crate::graph::edge_list(relations, id, None, outgoing, n).contains(x) <==> (exists|i: int|
            0 <= i < n && #[trigger] relations[i] == x && touches(x, id, outgoing)),
    decreases n,
{
    if n > 0 {
        edges_are_those_that_touch(relations, id, outgoing, n - 1, x);
        let a = crate::graph::edge_list(relations, id, None, outgoing, n - 1);
        let b = crate::graph::edge_list(relations, id, None, outgoing, n);
        if a.contains(x) {
            let k = choose|k: int| 0 <= k < a.len() && a[k] == x;
            assert(b[k] == x);
        }
        if b.contains(x) {
            let k = choose|k: int| 0 <= k < b.len() && b[k] == x;
            if k < a.len() {
                assert(a[k] == x);
            } else {
                assert(relations[n - 1] == x);
            }
        }
        if relations[n - 1] == x && touches(x, id, outgoing) {
            assert(b[b.len() - 1] == x);
        }
    }
}

proof fn along_ok(g: GraphView, start: Seq<char>, id: Seq<char>, edges: Seq<RelationView>, v: Search, n: int)
    requires
        0 <= n <= edges.len(),
        search_ok(g, start, v),
    ensures
        ({
            let w = seen_along(g.nodes, id, edges, v, n);
            &&& search_ok(g, start, w)
            &&& forall|x: Seq<char>| #[trigger]
                w.seen.contains(x) <==> v.seen.contains(x) || exists|i: int|
                    0 <= i < n && other_end(#[trigger] edges[i], id) == x
            &&& forall|x: Seq<char>| #[trigger] w.next.contains(x) <==> v.next.contains(x) || (w.seen.contains(x)
                && !v.seen.contains(x))
        }),
    decreases n,
{
    if n > 0 {
        along_ok(g, start, id, edges, v, n - 1);
        let a = seen_along(g.nodes, id, edges, v, n - 1);
        let w = seen_along(g.nodes, id, edges, v, n);
        let e = other_end(edges[n - 1], id);
        seen_id_ok(g, start, a, e);
        assert forall|x: Seq<char>| #[trigger] w.seen.contains(x) <==> v.seen.contains(x) || exists|i: int|
            0 <= i < n && other_end(#[trigger] edges[i], id) == x by {
            if w.seen.contains(x) && !v.seen.contains(x) {
                if a.seen.contains(x) {
                    let i = choose|i: int| 0 <= i < n - 1 && other_end(#[trigger] edges[i], id) == x;
                    assert(other_end(edges[i], id) == x);
                } else {
                    assert(other_end(edges[n - 1], id) == x);
                }
            }
            if exists|i: int| 0 <= i < n && other_end(#[trigger] edges[i], id) == x {
                let i = choose|i: int| 0 <= i < n && other_end(#[trigger] edges[i], id) == x;
                if i < n - 1 {
                    assert(a.seen.contains(x));
                }
            }
        }
        assert forall|x: Seq<char>| #[trigger] w.next.contains(x) <==> v.next.contains(x) || (w.seen.contains(x)
            && !v.seen.contains(x)) by {
            if a.seen.contains(e) {
                assert(a.seen.insert(e) =~= a.seen);
            } else {
                assert(w.next == a.next.push(e));
                if a.next.contains(x) {
                    let k = choose|k: int| 0 <= k < a.next.len() && a.next[k] == x;
                    assert(w.next[k] == x);
                }
                if x == e {
                    assert(w.next[w.next.len() - 1] == x);
                }
                if w.next.contains(x) {
                    let k = choose|k: int| 0 <= k < w.next.len() && w.next[k] == x;
                    if k < a.next.len() {
                        assert(a.next[k] == x);
                    }
                }
            }
        }
    }
}

proof fn from_ok(g: GraphView, start: Seq<char>, id: Seq<char>, v: Search)
    requires
        search_ok(g, start, v),
    ensures
        ({
            let w = seen_from(g, id, v);
            &&& search_ok(g, start, w)
            &&& forall|x: Seq<char>| #[trigger] w.seen.contains(x) <==> v.seen.contains(x) || adjacent(g.relations, id, x)
            &&& forall|x: Seq<char>| #[trigger] w.next.contains(x) <==> v.next.contains(x) || (w.seen.contains(x)
                && !v.seen.contains(x))
        }),
{
    let out = edges_of(g.relations, id, None, true);
    let inc = edges_of(g.relations, id, None, false);
    let n = g.relations.len() as int;
    let m = seen_along(g.nodes, id, out, v, out.len() as int);
    let w = seen_from(g, id, v);
    along_ok(g, start, id, out, v, out.len() as int);
    along_ok(g, start, id, inc, m, inc.len() as int);
    assert forall|x: Seq<char>| #[trigger] w.seen.contains(x) <==> v.seen.contains(x) || adjacent(
        g.relations,
        id,
        x,
    ) by {
        if w.seen.contains(x) && !v.seen.contains(x) {
            if m.seen.contains(x) {
                let i = choose|i: int| 0 <= i < out.len() && other_end(#[trigger] out[i], id) == x;
                edges_are_those_that_touch(g.relations, id, true, n, out[i]);
                assert(out.contains(out[i]));
                let k = choose|k: int| 0 <= k < n && #[trigger] g.relations[k] == out[i];
                assert(adjacent(g.relations, id, x));
            } else {
                let i = choose|i: int| 0 <= i < inc.len() && other_end(#[trigger] inc[i], id) == x;
                edges_are_those_that_touch(g.relations, id, false, n, inc[i]);
                assert(inc.contains(inc[i]));
                let k = choose|k: int| 0 <= k < n && #[trigger] g.relations[k] == inc[i];
                assert(adjacent(g.relations, id, x));
            }
        }
        if adjacent(g.relations, id, x) {
            let k = choose|k: int|
                0 <= k < n && (((#[trigger] g.relations[k]).source_id == id && g.relations[k].target_id == x) || (
                g.relations[k].source_id == x && g.relations[k].target_id == id));
            let r = g.relations[k];
            if r.source_id == id && r.target_id == x {
                edges_are_those_that_touch(g.relations, id, true, n, r);
                assert(out.contains(r));
                let i = choose|i: int| 0 <= i < out.len() && out[i] == r;
                assert(other_end(out[i], id) == x);
                assert(m.seen.contains(x));
            } else {
                edges_are_those_that_touch(g.relations, id, false, n, r);
                assert(inc.contains(r));
                let i = choose|i: int| 0 <= i < inc.len() && inc[i] == r;
                assert(other_end(inc[i], id) == x);
            }
        }
    }
}

proof fn from_all_ok(g: GraphView, start: Seq<char>, frontier: Seq<Seq<char>>, v: Search, n: int)
    requires
        0 <= n <= frontier.len(),
        search_ok(g, start, v),
    ensures
        ({
            let w = seen_from_all(g, frontier, v, n);
            &&& search_ok(g, start, w)
            &&& forall|x: Seq<char>| #[trigger]
                w.seen.contains(x) <==> v.seen.contains(x) || exists|i: int|
                    0 <= i < n && adjacent(g.relations, #[trigger] frontier[i], x)
            &&& forall|x: Seq<char>| #[trigger] w.next.contains(x) <==> v.next.contains(x) || (w.seen.contains(x)
                && !v.seen.contains(x))
        }),
    decreases n,
{
    if n > 0 {
        from_all_ok(g, start, frontier, v, n - 1);
        let a = seen_from_all(g, frontier, v, n - 1);
        let w = seen_from_all(g, frontier, v, n);
        from_ok(g, start, frontier[n - 1], a);
        assert forall|x: Seq<char>| #[trigger] w.seen.contains(x) <==> v.seen.contains(x) || exists|i: int|
            0 <= i < n && adjacent(g.relations, #[trigger] frontier[i], x) by {
            if w.seen.contains(x) && !v.seen.contains(x) {
                if a.seen.contains(x) {
                    let i = choose|i: int| 0 <= i < n - 1 && adjacent(g.relations, #[trigger] frontier[i], x);
                    assert(adjacent(g.relations, frontier[i], x));
                } else {
                    assert(adjacent(g.relations, frontier[n - 1], x));
                }
            }
            if exists|i: int| 0 <= i < n && adjacent(g.relations, #[trigger] frontier[i], x) {
                let i = choose|i: int| 0 <= i < n && adjacent(g.relations, #[trigger] frontier[i], x);
                if i < n - 1 {
                    assert(a.seen.contains(x));
                }
            }
        }
    }
}

/// What each round keeps: it has seen exactly what lies within as many hops,
/// and has not yet gone on only from what it saw last.
proof fn rounds_ok(g: GraphView, id: Seq<char>, depth: nat)
    ensures
        ({
            let v = rounds(g, id, depth);
            &&& search_ok(g, id, v)
            &&& forall|x: Seq<char>| #[trigger] v.seen.contains(x) <==> within(g.relations, id, depth, x)
            &&& forall|x: Seq<char>| #[trigger] v.next.contains(x) ==> v.seen.contains(x)
            &&& forall|x: Seq<char>, y: Seq<char>|
                v.seen.contains(x) && !v.next.contains(x) && #[trigger] adjacent(g.relations, x, y)
                    ==> v.seen.contains(y)
        }),
    decreases depth,
{
    if depth == 0 {
        let v = rounds(g, id, 0);
        assert(v.next.contains(id)) by {
            assert(v.next[0] == id);
        }
    } else {
        let d = (depth - 1) as nat;
        rounds_ok(g, id, d);
        let p = rounds(g, id, d);
        let s = Search { seen: p.seen, next: Seq::empty(), found: p.found };
        let v = rounds(g, id, depth);
        assert(search_ok(g, id, s));
        from_all_ok(g, id, p.next, s, p.next.len() as int);
        assert forall|x: Seq<char>| #[trigger] v.seen.contains(x) <==> within(g.relations, id, depth, x) by {
            assert(p.seen.contains(x) <==> within(g.relations, id, d, x));
            if v.seen.contains(x) && !p.seen.contains(x) {
                let i = choose|i: int| 0 <= i < p.next.len() && adjacent(g.relations, #[trigger] p.next[i], x);
                assert(p.next.contains(p.next[i]));
                assert(p.seen.contains(p.next[i]));
                assert(within(g.relations, id, d, p.next[i]));
            }
            if within(g.relations, id, depth, x) && !within(g.relations, id, d, x) {
                let y = choose|y: Seq<char>| #[trigger]
                    adjacent(g.relations, y, x) && within(g.relations, id, d, y);
                assert(p.seen.contains(y));
                if p.next.contains(y) {
                    let i = choose|i: int| 0 <= i < p.next.len() && p.next[i] == y;
                    assert(adjacent(g.relations, p.next[i], x));
                    assert(v.seen.contains(x));
                } else {
                    assert(p.seen.contains(x));
                }
            }
        }
        assert forall|x: Seq<char>, y: Seq<char>|
            v.seen.contains(x) && !v.next.contains(x) && #[trigger] adjacent(g.relations, x, y) implies v.seen.contains(
            y,
        ) by {
            assert(p.seen.contains(x));
            if p.next.contains(x) {
                let i = choose|i: int| 0 <= i < p.next.len() && p.next[i] == x;
                assert(adjacent(g.relations, p.next[i], y));
            }
        }
    }
}

/// The neighbourhood of a node is exactly the other nodes within that many
/// hops, each of them once.
pub proof fn neighborhood_is_exact(g: GraphView, id: Seq<char>, depth: nat)
    ensures
        forall|i: int, j: int|
            0 <= i < j < neighborhood(g, id, depth).len() ==> (#[trigger] neighborhood(g, id, depth)[i]).id
                != (#[trigger] neighborhood(g, id, depth)[j]).id,
        forall|i: int|
            0 <= i < neighborhood(g, id, depth).len() ==> {
                let n = #[trigger] neighborhood(g, id, depth)[i];
                n.id != id && within(g.relations, id, depth, n.id) && node_at(g.nodes, n.id) == Some(n)
            },
        forall|x: Seq<char>|
            x != id && g.has(x) && within(g.relations, id, depth, x) ==> #[trigger] neighborhood(g, id, depth).contains(
                node_at(g.nodes, x)->0,
            ),
{
    rounds_ok(g, id, depth);
    let v = rounds(g, id, depth);
    assert forall|i: int| 0 <= i < v.found.len() implies within(g.relations, id, depth, (#[trigger] v.found[i]).id) by {
        assert(v.seen.contains(v.found[i].id));
    }
    assert forall|x: Seq<char>| x != id && g.has(x) && within(g.relations, id, depth, x) implies #[trigger] neighborhood(
        g,
        id,
        depth,
    ).contains(node_at(g.nodes, x)->0) by {
        assert(v.seen.contains(x));
    }
}

/// The state of a running search.
struct Walk {
    seen: StringHashSet,
    next: Vec<String>,
    found: Vec<Node>,
}

impl Walk {
    spec fn state(&self) -> Search {
        Search { seen: self.seen@, next: views(self.next@), found: views(self.found@) }
    }

    fn see(&mut self, g: &Graph, id: &str)
        requires
            g.wf(),
        ensures
            final(self).state() == seen_id(g@.nodes, old(self).state(), id@),
    {
        let ghost before_add = self.seen@;
        let fresh = self.seen.insert(copy(id));
        assert(!fresh ==> self.seen@ =~= before_add);
        if fresh {
            add_item(&mut self.next, copy(id));
            if let Some(n) = g.node(id) {
                add_item(&mut self.found, n.copy());
            }
        }
    }

    fn see_along(&mut self, g: &Graph, id: &str, edges: &Vec<Relation>)
        requires
            g.wf(),
        ensures
            final(self).state() == seen_along(
                g@.nodes,
                id@,
                views(edges@),
                old(self).state(),
                edges@.len() as int,
            ),
    {
        let mut i: usize = 0;
        while i < edges.len()
            invariant
                i <= edges@.len(),
                g.wf(),
                self.state() == seen_along(g@.nodes, id@, views(edges@), old(self).state(), i as int),
            decreases edges@.len() - i,
        {
            let r = &edges[i];
            assert(views(edges@)[i as int] == r@);
            if same(r.source_id.as_str(), id) {
                self.see(g, r.target_id.as_str());
            } else {
                self.see(g, r.source_id.as_str());
            }
            i += 1;
        }
    }
}

impl Graph {
    /// The distinct nodes within a number of hops of a node, in either
    /// direction, in the order in which a breadth-first search meets them.
    pub fn neighbors(&mut self, node_id: &str, depth: u32) -> (r: Vec<Node>)
        requires
            old(self).wf(),
        ensures
            final(self).wf(),
            final(self)@ == old(self)@,
            views(r@) == neighborhood(old(self)@, node_id@, depth as nat),
    {
        let ghost g = self@;
        let mut w = Walk { seen: StringHashSet::new(), next: Vec::new(), found: Vec::new() };
        w.seen.insert(copy(node_id));
        w.next.push(copy(node_id));
        proof {
            assert(views(w.next@) =~= seq![node_id@]);
            assert(views(w.found@) =~= Seq::<NodeView>::empty());
        }
        let mut d: u32 = 0;
        while d < depth
            invariant
                d <= depth,
                self.wf(),
                self@ == g,
                w.state() == rounds(g, node_id@, d as nat),
            decreases depth - d,
        {
            let ghost p = w.state();
            let mut frontier: Vec<String> = Vec::new();
            std::mem::swap(&mut frontier, &mut w.next);
            let ghost s = Search { seen: p.seen, next: Seq::empty(), found: p.found };
            assert(views(w.next@) =~= Seq::<Seq<char>>::empty());
            let mut i: usize = 0;
            while i < frontier.len()
                invariant
                    i <= frontier@.len(),
                    self.wf(),
                    self@ == g,
                    views(frontier@) == p.next,
                    w.state() == seen_from_all(g, p.next, s, i as int),
                decreases frontier@.len() - i,
            {
                assert(p.next[i as int] == frontier@[i as int]@);
                let out = self.edges(frontier[i].as_str(), None, true);
                let inc = self.edges(frontier[i].as_str(), None, false);
                w.see_along(self, frontier[i].as_str(), &out);
                w.see_along(self, frontier[i].as_str(), &inc);
                i += 1;
            }
            d += 1;
        }
        w.found
    }
}

// ---------------------------------------------------------------------------
// Parts of a graph
// ---------------------------------------------------------------------------

/// The first `n` nodes whose id is wanted, added to a graph in order.
pub open spec fn chosen_nodes(g: GraphView, wanted: Seq<Seq<char>>, nodes: Seq<NodeView>, n: int) -> GraphView
    decreases n,
{
    if n <= 0 || n > nodes.len() {
        g
    } else {
        let earlier = chosen_nodes(g, wanted, nodes, n - 1);
        if wanted.contains(nodes[n - 1].id) {
            earlier.insert(nodes[n - 1])
        } else {
            earlier
        }
    }
}

/// A graph with the node of an id added, where the source graph has it.
pub open spec fn with_end(g: GraphView, nodes: Seq<NodeView>, id: Seq<char>) -> GraphView {
    match node_at(nodes, id) {
        Some(n) => g.insert(n),
        None => g,
    }
}

/// A graph with the first `n` edges that touch a wanted id added, each with
/// the nodes at its ends.
pub open spec fn chosen_edges(
    g: GraphView,
    wanted: Seq<Seq<char>>,
    nodes: Seq<NodeView>,
    relations: Seq<RelationView>,
    n: int,
) -> GraphView
    decreases n,
{
    if n <= 0 || n > relations.len() {
        g
    } else {
        let earlier = chosen_edges(g, wanted, nodes, relations, n - 1);
        let r = relations[n - 1];
        if wanted.contains(r.source_id) || wanted.contains(r.target_id) {
            with_end(with_end(earlier, nodes, r.source_id), nodes, r.target_id).relate(r)
        } else {
            earlier
        }
    }
}

/// The part of a graph around some nodes: those nodes in the graph's order,
/// every edge that touches one of them, and the nodes at the far ends.
pub open spec fn part(g: GraphView, wanted: Seq<Seq<char>>) -> GraphView {
    let start = GraphView { nodes: Seq::empty(), relations: Seq::empty(), metadata: g.metadata };
    chosen_edges(
        chosen_nodes(start, wanted, g.nodes, g.nodes.len() as int),
        wanted,
        g.nodes,
        g.relations,
        g.relations.len() as int,
    )
}

/// A part does not depend on the order in which its nodes are asked for, nor
/// on how often.
pub proof fn part_ignores_request_order(g: GraphView, a: Seq<Seq<char>>, b: Seq<Seq<char>>)
    requires
        forall|x: Seq<char>| #[trigger] a.contains(x) <==> b.contains(x),
    ensures
        part(g, a) == part(g, b),
{
    let start = GraphView { nodes: Seq::empty(), relations: Seq::empty(), metadata: g.metadata };
    same_nodes_chosen(start, a, b, g.nodes, g.nodes.len() as int);
    same_edges_chosen(
        chosen_nodes(start, a, g.nodes, g.nodes.len() as int),
        a,
        b,
        g.nodes,
        g.relations,
        g.relations.len() as int,
    );
}

proof fn same_nodes_chosen(g: GraphView, a: Seq<Seq<char>>, b: Seq<Seq<char>>, nodes: Seq<NodeView>, n: int)
    requires
        forall|x: Seq<char>| #[trigger] a.contains(x) <==> b.contains(x),
    ensures
        chosen_nodes(g, a, nodes, n) == chosen_nodes(g, b, nodes, n),
    decreases n,
{
    if 0 < n <= nodes.len() {
        same_nodes_chosen(g, a, b, nodes, n - 1);
        assert(a.contains(nodes[n - 1].id) <==> b.contains(nodes[n - 1].id));
    }
}

proof fn same_edges_chosen(
    g: GraphView,
    a: Seq<Seq<char>>,
    b: Seq<Seq<char>>,
    nodes: Seq<NodeView>,
    relations: Seq<RelationView>,
    n: int,
)
    requires
        forall|x: Seq<char>| #[trigger] a.contains(x) <==> b.contains(x),
    ensures
        chosen_edges(g, a, nodes, relations, n) == chosen_edges(g, b, nodes, relations, n),
    decreases n,
{
    if 0 < n <= relations.len() {
        same_edges_chosen(g, a, b, nodes, relations, n - 1);
        assert(a.contains(relations[n - 1].source_id) <==> b.contains(relations[n - 1].source_id));
        assert(a.contains(relations[n - 1].target_id) <==> b.contains(relations[n - 1].target_id));
    }
}

/// Whether an id is asked for, or stands at an end of one of the first `n` edges
/// that touch what is asked for.
pub open spec fn reached(wanted: Seq<Seq<char>>, relations: Seq<RelationView>, n: int, id: Seq<char>) -> bool {
    wanted.contains(id) || exists|k: int|
        0 <= k < n && (wanted.contains((#[trigger] relations[k]).source_id) || wanted.contains(relations[k].target_id)) && (
        relations[k].source_id == id || relations[k].target_id == id)
}

/// The node under an id once a list is one node longer.
proof fn lookup_in_longer(nodes: Seq<NodeView>, n: int, id: Seq<char>)
    requires
        0 < n <= nodes.len(),
    ensures
        node_at(nodes.take(n), id) == (if id == nodes[n - 1].id && node_at(nodes.take(n - 1), id) is None {
            Some(nodes[n - 1])
        } else {
            node_at(nodes.take(n - 1), id)
        }),
{
    let a = ids(nodes.take(n - 1));
    let b = ids(nodes.take(n));
    position_is_first(a, id, 0);
    position_is_first(b, id, 0);
    assert(b =~= a.push(nodes[n - 1].id));
    if crate::text::position(a, id) is Some {
        let k = crate::text::position(a, id)->0;
        assert(b[k] == id);
        let m = crate::text::position(b, id)->0;
        if m < a.len() {
            assert(a[m] == b[m]);
        }
        assert(m == k);
    } else if crate::text::position(b, id) is Some {
        let m = crate::text::position(b, id)->0;
        if m < a.len() {
            assert(a[m] == b[m]);
        }
    } else if id == nodes[n - 1].id {
        assert(b[n - 1] == id);
    }
}

proof fn chosen_nodes_lookup(g: GraphView, wanted: Seq<Seq<char>>, nodes: Seq<NodeView>, n: int, id: Seq<char>)
    requires
        0 <= n <= nodes.len(),
        g.nodes.len() == 0,
    ensures
        node_at(chosen_nodes(g, wanted, nodes, n).nodes, id) == (if wanted.contains(id) {
            node_at(nodes.take(n), id)
        } else {
            None
        }),
        chosen_nodes(g, wanted, nodes, n).relations == g.relations,
    decreases n,
{
    if n == 0 {
        assert(g.nodes =~= nodes.take(0));
        ids_find_nodes(nodes.take(0), id);
    } else {
        chosen_nodes_lookup(g, wanted, nodes, n - 1, id);
        lookup_in_longer(nodes, n, id);
        added_nodes_are_found(chosen_nodes(g, wanted, nodes, n - 1), nodes[n - 1], id);
    }
}

proof fn end_lookup(g: GraphView, nodes: Seq<NodeView>, end: Seq<char>, id: Seq<char>)
    requires
        node_at(g.nodes, id) is Some ==> node_at(g.nodes, id) == node_at(nodes, id),
    ensures
        node_at(with_end(g, nodes, end).nodes, id) == (if id == end {
            node_at(nodes, id)
        } else {
            node_at(g.nodes, id)
        }),
        with_end(g, nodes, end).relations == g.relations,
{
    ids_find_nodes(nodes, end);
    if node_at(nodes, end) is Some {
        added_nodes_are_found(g, node_at(nodes, end)->0, id);
    }
}

proof fn chosen_edges_lookup(
    g: GraphView,
    wanted: Seq<Seq<char>>,
    nodes: Seq<NodeView>,
    relations: Seq<RelationView>,
    n: int,
    id: Seq<char>,
)
    requires
        0 <= n <= relations.len(),
        node_at(g.nodes, id) == (if wanted.contains(id) {
            node_at(nodes, id)
        } else {
            None
        }),
    ensures
        node_at(chosen_edges(g, wanted, nodes, relations, n).nodes, id) == (if reached(wanted, relations, n, id) {
            node_at(nodes, id)
        } else {
            None
        }),
    decreases n,
{
    if n > 0 {
        chosen_edges_lookup(g, wanted, nodes, relations, n - 1, id);
        let h = chosen_edges(g, wanted, nodes, relations, n - 1);
        let r = relations[n - 1];
        assert(reached(wanted, relations, n, id) <==> reached(wanted, relations, n - 1, id) || ((wanted.contains(r.source_id)
            || wanted.contains(r.target_id)) && (r.source_id == id || r.target_id == id)));
        if wanted.contains(r.source_id) || wanted.contains(r.target_id) {
            end_lookup(h, nodes, r.source_id, id);
            end_lookup(with_end(h, nodes, r.source_id), nodes, r.target_id, id);
        }
    }
}

/// A part holds a node exactly where it is asked for, or stands at an end of an edge
/// that touches what is asked for; and it holds it as the whole does.
pub proof fn part_holds_what_is_reached(g: GraphView, wanted: Seq<Seq<char>>, id: Seq<char>)
    ensures
        node_at(part(g, wanted).nodes, id) == (if reached(wanted, g.relations, g.relations.len() as int, id) {
            node_at(g.nodes, id)
        } else {
            None
        }),
{
    let start = GraphView { nodes: Seq::empty(), relations: Seq::empty(), metadata: g.metadata };
    chosen_nodes_lookup(start, wanted, g.nodes, g.nodes.len() as int, id);
    assert(g.nodes.take(g.nodes.len() as int) =~= g.nodes);
    chosen_edges_lookup(
        chosen_nodes(start, wanted, g.nodes, g.nodes.len() as int),
        wanted,
        g.nodes,
        g.relations,
        g.relations.len() as int,
        id,
    );
}

proof fn chosen_edges_selected(
    g: GraphView,
    wanted: Seq<Seq<char>>,
    nodes: Seq<NodeView>,
    relations: Seq<RelationView>,
    n: int,
) -> (places: Seq<int>)
    requires
        0 <= n <= relations.len(),
        g.relations.len() == 0,
    ensures
        picks(relations, chosen_edges(g, wanted, nodes, relations, n).relations, places),
        forall|k: int| #[trigger]
            places.contains(k) <==> 0 <= k < n && (wanted.contains(relations[k].source_id) || wanted.contains(
                relations[k].target_id,
            )),
    decreases n,
{
    if n == 0 {
        pick_nothing(relations);
        assert(g.relations =~= Seq::empty());
        Seq::empty()
    } else {
        let p = chosen_edges_selected(g, wanted, nodes, relations, n - 1);
        let r = relations[n - 1];
        let h = chosen_edges(g, wanted, nodes, relations, n - 1);
        if wanted.contains(r.source_id) || wanted.contains(r.target_id) {
            pick_next(relations, h.relations, p, n - 1);
            p.push(n - 1)
        } else {
            p
        }
    }
}

/// The edges of a part are exactly those of the whole that touch what is asked for,
/// in their order.
pub proof fn part_holds_edges_that_touch(g: GraphView, wanted: Seq<Seq<char>>) -> (places: Seq<int>)
    ensures
        picks(g.relations, part(g, wanted).relations, places),
        forall|k: int| #[trigger]
            places.contains(k) <==> 0 <= k < g.relations.len() && (wanted.contains(g.relations[k].source_id)
                || wanted.contains(g.relations[k].target_id)),
{
    let start = GraphView { nodes: Seq::empty(), relations: Seq::empty(), metadata: g.metadata };
    chosen_nodes_lookup(start, wanted, g.nodes, g.nodes.len() as int, Seq::empty());
    chosen_edges_selected(
        chosen_nodes(start, wanted, g.nodes, g.nodes.len() as int),
        wanted,
        g.nodes,
        g.relations,
        g.relations.len() as int,
    )
}

/// A part keeps the metadata of the whole.
pub proof fn part_keeps_metadata(g: GraphView, wanted: Seq<Seq<char>>)
    ensures
        part(g, wanted).metadata == g.metadata,
{
    let start = GraphView { nodes: Seq::empty(), relations: Seq::empty(), metadata: g.metadata };
    chosen_nodes_keep(start, wanted, g.nodes, g.nodes.len() as int);
    chosen_edges_keep(
        chosen_nodes(start, wanted, g.nodes, g.nodes.len() as int),
        wanted,
        g.nodes,
        g.relations,
        g.relations.len() as int,
    );
}

proof fn chosen_nodes_keep(g: GraphView, wanted: Seq<Seq<char>>, nodes: Seq<NodeView>, n: int)
    ensures
        chosen_nodes(g, wanted, nodes, n).metadata == g.metadata,
    decreases n,
{
    if 0 < n <= nodes.len() {
        chosen_nodes_keep(g, wanted, nodes, n - 1);
    }
}

proof fn chosen_edges_keep(
    g: GraphView,
    wanted: Seq<Seq<char>>,
    nodes: Seq<NodeView>,
    relations: Seq<RelationView>,
    n: int,
)
    ensures
        chosen_edges(g, wanted, nodes, relations, n).metadata == g.metadata,
    decreases n,
{
    if 0 < n <= relations.len() {
        chosen_edges_keep(g, wanted, nodes, relations, n - 1);
    }
}

/// A set of the strings of a list.
fn set_of(v: &Vec<String>) -> (r: StringHashSet)
    ensures
        forall|x: Seq<char>| #[trigger] r@.contains(x) <==> views(v@).contains(x),
{
    let mut s = StringHashSet::new();
    let mut i: usize = 0;
    while i < v.len()
        invariant
            i <= v@.len(),
            forall|x: Seq<char>| #[trigger] s@.contains(x) <==> views(v@).take(i as int).contains(x),
        decreases v@.len() - i,
    {
        let ghost before_add = s@;
        s.insert(copy(v[i].as_str()));
        proof {
            let a = views(v@).take(i as int);
            let b = views(v@).take(i + 1);
            assert(b =~= a.push(v@[i as int]@));
            assert forall|x: Seq<char>| #[trigger] s@.contains(x) <==> b.contains(x) by {
                if a.contains(x) {
                    let k = choose|k: int| 0 <= k < a.len() && a[k] == x;
                    assert(b[k] == x);
                }
                if x == v@[i as int]@ {
                    assert(b[i as int] == x);
                }
                if b.contains(x) && x != v@[i as int]@ {
                    let k = choose|k: int| 0 <= k < b.len() && b[k] == x;
                    assert(a[k] == x);
                }
            }
        }
        i += 1;
    }
    assert(views(v@).take(v@.len() as int) =~= views(v@));
    s
}

impl Graph {
    /// Adds the node of an id, where another graph has it.
    fn add_end(&mut self, from: &Graph, id: &str)
        requires
            old(self).wf(),
            from.wf(),
        ensures
            final(self).wf(),
            final(self)@ == with_end(old(self)@, from@.nodes, id@),
    {
        if let Some(n) = from.node(id) {
            self.insert_node(n.copy());
        }
    }

    /// A new graph of the given nodes and every edge that touches them, with
    /// the nodes at the far ends. The nodes come in this graph's order.
    pub fn subgraph(&self, node_ids: &Vec<String>) -> (r: Graph)
        requires
            self.wf(),
        ensures
            r.wf(),
            r@ == part(self@, views(node_ids@)),
    {
        let wanted = set_of(node_ids);
        let ghost want = views(node_ids@);
        let mut sub = Graph::new();
        sub.set_metadata(self.metadata().copy());
        let ghost start = sub@;
        let nodes = self.nodes();
        let mut i: usize = 0;
        while i < nodes.len()
            invariant
                i <= nodes@.len(),
                sub.wf(),
                views(nodes@) == self@.nodes,
                forall|x: Seq<char>| #[trigger] wanted@.contains(x) <==> want.contains(x),
                sub@ == chosen_nodes(start, want, self@.nodes, i as int),
            decreases nodes@.len() - i,
        {
            assert(self@.nodes[i as int] == nodes@[i as int]@);
            if wanted.contains(nodes[i].id.as_str()) {
                sub.insert_node(nodes[i].copy());
            }
            i += 1;
        }
        let ghost mid = sub@;
        let relations = self.relations();
        let mut k: usize = 0;
        while k < relations.len()
            invariant
                k <= relations@.len(),
                sub.wf(),
                self.wf(),
                views(relations@) == self@.relations,
                forall|x: Seq<char>| #[trigger] wanted@.contains(x) <==> want.contains(x),
                sub@ == chosen_edges(mid, want, self@.nodes, self@.relations, k as int),
            decreases relations@.len() - k,
        {
            let r = &relations[k];
            assert(self@.relations[k as int] == r@);
            if wanted.contains(r.source_id.as_str()) || wanted.contains(r.target_id.as_str()) {
                sub.add_end(self, r.source_id.as_str());
                sub.add_end(self, r.target_id.as_str());
                sub.push_relation(r.copy());
            }
            k += 1;
        }
        sub
    }

    /// The part of the graph around every node of a file.
    pub fn subgraph_for_file(&self, file_path: &str) -> (r: Graph)
        requires
            self.wf(),
        ensures
            r.wf(),
            r@ == part(self@, ids(in_file(self@.nodes, file_path@, self@.nodes.len() as int))),
    {
        let declared = self.nodes_in_file(file_path);
        let ghost all = ids(views(declared@));
        let mut wanted: Vec<String> = Vec::new();
        let mut i: usize = 0;
        assert(views(wanted@) =~= all.take(0));
        while i < declared.len()
            invariant
                i <= declared@.len(),
                all == ids(views(declared@)),
                views(wanted@) == all.take(i as int),
            decreases declared@.len() - i,
        {
            add_item(&mut wanted, copy(declared[i].id.as_str()));
            assert(all[i as int] == declared@[i as int]@.id);
            assert(all.take(i + 1) =~= all.take(i as int).push(all[i as int]));
            i += 1;
        }
        assert(all.take(declared@.len() as int) =~= all);
        self.subgraph(&wanted)
    }
}

}
