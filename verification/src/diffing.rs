//! A deterministic structural diff of two graphs.

use vstd::prelude::*;

use crate::graph::{ids, node_at, Graph, GraphView};
use crate::meta::{keys_distinct, MetaView, Metadata, ValueView};
use crate::node::{nodes_equal, nodes_equal_either_way, Node, NodeView};
use crate::order::{
    key_before, key_before_irreflexive, key_before_total, key_before_transitive, key_less, key_views, picked, sort_order,
    sorted_places, sorting_is_permutation, Key,
};
use crate::relation::{Relation, RelationView};
use crate::strings::{decimal, decimal_text, join, joined};
use crate::text::{add_item, concat3, concat5, copy, position, position_is_first, views};
use crate::values::canonical_value;

verus! {

// ---------------------------------------------------------------------------
// Canonical texts
// ---------------------------------------------------------------------------

/// The stable text of one entry.
pub open spec fn canonical_entry(e: (Seq<char>, ValueView)) -> Seq<char> {
    e.0 + ":"@ + canonical_value(e.1)
}

/// The sort keys of metadata entries: their keys.
pub open spec fn entry_keys(m: MetaView) -> Seq<Key> {
    m.map_values(|e: (Seq<char>, ValueView)| seq![e.0])
}

/// The stable text of metadata: its entries in the order of their keys.
pub open spec fn canonical(m: MetaView) -> Seq<char> {
    let entries = picked(m, sort_order(entry_keys(m)));
    "{"@ + joined(entries.map_values(|e: (Seq<char>, ValueView)| canonical_entry(e)), ","@) + "}"@
}

/// Writes metadata.
pub fn canonical_text(m: &Metadata) -> (r: String)
    ensures
        r@ == canonical(m@),
{
    let mut keys: Vec<Vec<String>> = Vec::new();
    let mut i: usize = 0;
    assert(key_views(keys@) =~= entry_keys(m@).take(0));
    while i < m.len()
        invariant
            i <= m@.len(),
            key_views(keys@) == entry_keys(m@).take(i as int),
        decreases m@.len() - i,
    {
        let mut k: Vec<String> = Vec::new();
        k.push(copy(m.entry(i).key.as_str()));
        assert(views(k@) =~= seq![m@[i as int].0]);
        let ghost kv = views(k@);
        let ghost before_add = key_views(keys@);
        keys.push(k);
        assert(key_views(keys@) =~= before_add.push(kv));
        assert(entry_keys(m@).take(i + 1) =~= entry_keys(m@).take(i as int).push(entry_keys(m@)[i as int]));
        i += 1;
    }
    assert(entry_keys(m@).take(m@.len() as int) =~= entry_keys(m@));
    let places = sorted_places(&keys);
    let ghost order = sort_order(entry_keys(m@));
    let ghost entries = picked(m@, order);
    let ghost texts = entries.map_values(|e: (Seq<char>, ValueView)| canonical_entry(e));
    let mut parts: Vec<String> = Vec::new();
    let mut j: usize = 0;
    assert(views(parts@) =~= texts.take(0));
    while j < places.len()
        invariant
            j <= places@.len(),
            places@.len() == m@.len(),
            forall|q: int| 0 <= q < places@.len() ==> #[trigger] places@[q] < m@.len(),
            places@.map_values(|p: usize| p as int) == order,
            entries == picked(m@, order),
            texts == entries.map_values(|e: (Seq<char>, ValueView)| canonical_entry(e)),
            views(parts@) == texts.take(j as int),
        decreases places@.len() - j,
    {
        let e = m.entry(places[j]);
        proof {
            assert(order[j as int] == places@[j as int]);
            assert(entries[j as int] == e@);
            assert(texts[j as int] == canonical_entry(e@));
            assert(texts.take(j + 1) =~= texts.take(j as int).push(texts[j as int]));
        }
        let v = e.value.canonical();
        add_item(&mut parts, concat3(e.key.as_str(), ":", v.as_str()));
        j += 1;
    }
    assert(texts.take(places@.len() as int) =~= texts);
    concat3("{", join(&parts, ",").as_str(), "}")
}

// ---------------------------------------------------------------------------
// Edges by key
// ---------------------------------------------------------------------------

/// The key of an edge: its ends, its kind, and its metadata. Metadata is part
/// of the key so that two calls from different places stay two edges, and so
/// that a change of metadata alone shows.
pub open spec fn relation_key(r: RelationView) -> Key {
    seq![r.source_id, r.target_id, r.kind.name(), canonical(r.metadata)]
}

/// Computes the key of an edge.
pub fn key_of(r: &Relation) -> (k: Vec<String>)
    ensures
        views(k@) == relation_key(r@),
{
    let mut k: Vec<String> = Vec::new();
    k.push(copy(r.source_id.as_str()));
    k.push(copy(r.target_id.as_str()));
    k.push(copy(r.kind.as_str()));
    k.push(canonical_text(&r.metadata));
    assert(views(k@) =~= relation_key(r@));
    k
}

/// An edge under its key.
pub struct Keyed {
    pub key: Vec<String>,
    pub place: usize,
}

impl View for Keyed {
    type V = (Key, int);

    open spec fn view(&self) -> (Key, int) {
        (views(self.key@), self.place as int)
    }
}

/// The first position from `i` on whose key does not come before `k`, or the
/// length.
pub open spec fn spot_from(s: Seq<(Key, int)>, k: Key, i: int) -> int
    decreases s.len() - i,
{
    if i < 0 || i >= s.len() {
        s.len() as int
    } else if key_before(s[i].0, k) {
        spot_from(s, k, i + 1)
    } else {
        i
    }
}

/// A sorted list with a place stored under a key, in place of what was there.
pub open spec fn put(s: Seq<(Key, int)>, k: Key, place: int) -> Seq<(Key, int)> {
    let i = spot_from(s, k, 0);
    if i < s.len() && s[i].0 == k {
        s.update(i, (k, place))
    } else {
        s.insert(i, (k, place))
    }
}

/// The first `n` edges under their keys, in the order of the keys; of edges
/// with equal keys the last one stays.
pub open spec fn by_key(relations: Seq<RelationView>, n: int) -> Seq<(Key, int)>
    decreases n,
{
    if n <= 0 || n > relations.len() {
        Seq::empty()
    } else {
        put(by_key(relations, n - 1), relation_key(relations[n - 1]), n - 1)
    }
}

/// Whether a key is in the list.
pub open spec fn has_key(s: Seq<(Key, int)>, k: Key) -> bool {
    exists|i: int| 0 <= i < s.len() && (#[trigger] s[i]).0 == k
}

/// Of the first `n` keyed edges those whose key the other list lacks.
pub open spec fn only_here(
    relations: Seq<RelationView>,
    mine: Seq<(Key, int)>,
    theirs: Seq<(Key, int)>,
    n: int,
) -> Seq<RelationView>
    decreases n,
{
    if n <= 0 || n > mine.len() {
        Seq::empty()
    } else {
        let earlier = only_here(relations, mine, theirs, n - 1);
        if has_key(theirs, mine[n - 1].0) {
            earlier
        } else {
            earlier.push(relations[mine[n - 1].1])
        }
    }
}

/// The edges that one list has and the other lacks, in the order of their keys.
pub open spec fn relations_only_in(a: Seq<RelationView>, b: Seq<RelationView>) -> Seq<RelationView> {
    let mine = by_key(a, a.len() as int);
    only_here(a, mine, by_key(b, b.len() as int), mine.len() as int)
}

proof fn spot_splits(s: Seq<(Key, int)>, k: Key, i: int)
    requires
        0 <= i <= s.len(),
    ensures
        i <= spot_from(s, k, i) <= s.len(),
    decreases s.len() - i,
{
    if i < s.len() && key_before(s[i].0, k) {
        spot_splits(s, k, i + 1);
    }
}

proof fn by_key_places(relations: Seq<RelationView>, n: int)
    requires
        0 <= n <= relations.len(),
    ensures
        forall|i: int|
            0 <= i < by_key(relations, n).len() ==> 0 <= (#[trigger] by_key(relations, n)[i]).1 < n && by_key(
                relations,
                n,
            )[i].0 == relation_key(relations[by_key(relations, n)[i].1]),
    decreases n,
{
    if n > 0 {
        by_key_places(relations, n - 1);
        spot_splits(by_key(relations, n - 1), relation_key(relations[n - 1]), 0);
    }
}

/// The first `n` edges under their keys.
fn keyed_relations(relations: &Vec<Relation>) -> (r: Vec<Keyed>)
    ensures
        views(r@) == by_key(views(relations@), relations@.len() as int),
{
    let ghost rels = views(relations@);
    let mut out: Vec<Keyed> = Vec::new();
    let mut n: usize = 0;
    assert(views(out@) =~= by_key(rels, 0));
    while n < relations.len()
        invariant
            n <= relations@.len(),
            rels == views(relations@),
            views(out@) == by_key(rels, n as int),
        decreases relations@.len() - n,
    {
        let key = key_of(&relations[n]);
        assert(views(key@) == relation_key(rels[n as int]));
        let ghost k = views(key@);
        let ghost s = views(out@);
        let mut i: usize = 0;
        while i < out.len() && key_less(&out[i].key, &key)
            invariant
                i <= out@.len(),
                s == views(out@),
                k == views(key@),
                spot_from(s, k, 0) == spot_from(s, k, i as int),
            decreases out@.len() - i,
        {
            assert(s[i as int] == out@[i as int]@);
            i += 1;
        }
        assert(i < out@.len() ==> s[i as int] == out@[i as int]@);
        assert(spot_from(s, k, 0) == i);
        if i < out.len() && crate::meta::same_texts(&out[i].key, &key) {
            let e = Keyed { key, place: n };
            let ghost ev = e@;
            out.set(i, e);
            assert(views(out@) =~= s.update(i as int, ev));
        } else {
            let e = Keyed { key, place: n };
            let ghost ev = e@;
            out.insert(i, e);
            assert(views(out@) =~= s.insert(i as int, ev));
        }
        n += 1;
    }
    out
}

/// Tells whether a key is in a list.
fn holds_key(s: &Vec<Keyed>, k: &Vec<String>) -> (r: bool)
    ensures
        r == has_key(views(s@), views(k@)),
{
    let mut i: usize = 0;
    while i < s.len()
        invariant
            i <= s@.len(),
            forall|j: int| 0 <= j < i ==> (#[trigger] views(s@)[j]).0 != views(k@),
        decreases s@.len() - i,
    {
        assert(views(s@)[i as int] == s@[i as int]@);
        if crate::meta::same_texts(&s[i].key, k) {
            return true;
        }
        i += 1;
    }
    false
}

/// The edges that one list has and the other lacks.
fn relations_only(a: &Vec<Relation>, b: &Vec<Relation>) -> (r: Vec<Relation>)
    ensures
        views(r@) == relations_only_in(views(a@), views(b@)),
{
    let mine = keyed_relations(a);
    let theirs = keyed_relations(b);
    let ghost m = views(mine@);
    let ghost t = views(theirs@);
    proof {
        by_key_places(views(a@), a@.len() as int);
    }
    let mut out: Vec<Relation> = Vec::new();
    let mut i: usize = 0;
    assert(views(out@) =~= Seq::<RelationView>::empty());
    while i < mine.len()
        invariant
            i <= mine@.len(),
            m == views(mine@),
            t == views(theirs@),
            m == by_key(views(a@), a@.len() as int),
            forall|j: int| 0 <= j < m.len() ==> 0 <= (#[trigger] m[j]).1 < a@.len(),
            views(out@) == only_here(views(a@), m, t, i as int),
        decreases mine@.len() - i,
    {
        assert(m[i as int] == mine@[i as int]@);
        if !holds_key(&theirs, &mine[i].key) {
            add_item(&mut out, a[mine[i].place].copy());
        }
        i += 1;
    }
    out
}

// ---------------------------------------------------------------------------
// Nodes
// ---------------------------------------------------------------------------

/// Of the first `n` nodes those whose id the other list lacks.
pub open spec fn new_nodes(nodes: Seq<NodeView>, others: Seq<NodeView>, n: int) -> Seq<NodeView>
    decreases n,
{
    if n <= 0 || n > nodes.len() {
        Seq::empty()
    } else {
        let earlier = new_nodes(nodes, others, n - 1);
        if position(ids(others), nodes[n - 1].id) is None {
            earlier.push(nodes[n - 1])
        } else {
            earlier
        }
    }
}

/// Of the first `n` nodes those that differ from the node of the same id in
/// the other list, each behind that node.
pub open spec fn differing(nodes: Seq<NodeView>, previous: Seq<NodeView>, n: int) -> Seq<(NodeView, NodeView)>
    decreases n,
{
    if n <= 0 || n > nodes.len() {
        Seq::empty()
    } else {
        let earlier = differing(nodes, previous, n - 1);
        match node_at(previous, nodes[n - 1].id) {
            Some(p) => if nodes_equal(p, nodes[n - 1]) {
                earlier
            } else {
                earlier.push((p, nodes[n - 1]))
            },
            None => earlier,
        }
    }
}

/// The sort keys of nodes: their ids.
pub open spec fn node_keys(nodes: Seq<NodeView>) -> Seq<Key> {
    nodes.map_values(|n: NodeView| seq![n.id])
}

/// The sort keys of changed nodes: the ids of their new forms.
pub open spec fn change_keys(pairs: Seq<(NodeView, NodeView)>) -> Seq<Key> {
    pairs.map_values(|p: (NodeView, NodeView)| seq![p.1.id])
}

/// Nodes in the order of their ids.
pub open spec fn sorted_nodes(nodes: Seq<NodeView>) -> Seq<NodeView> {
    picked(nodes, sort_order(node_keys(nodes)))
}

/// Changed nodes in the order of their ids.
pub open spec fn sorted_changes(pairs: Seq<(NodeView, NodeView)>) -> Seq<(NodeView, NodeView)> {
    picked(pairs, sort_order(change_keys(pairs)))
}

/// A node before and after.
pub struct Change {
    pub before: Node,
    pub after: Node,
}

impl View for Change {
    type V = (NodeView, NodeView);

    open spec fn view(&self) -> (NodeView, NodeView) {
        (self.before@, self.after@)
    }
}

/// What changed from one graph to another.
pub struct GraphDiff {
    pub added_nodes: Vec<Node>,
    pub removed_nodes: Vec<Node>,
    pub changed_nodes: Vec<Change>,
    pub added_relations: Vec<Relation>,
    pub removed_relations: Vec<Relation>,
}

/// The mathematical reading of a diff.
pub struct DiffView {
    pub added_nodes: Seq<NodeView>,
    pub removed_nodes: Seq<NodeView>,
    pub changed_nodes: Seq<(NodeView, NodeView)>,
    pub added_relations: Seq<RelationView>,
    pub removed_relations: Seq<RelationView>,
}

impl View for GraphDiff {
    type V = DiffView;

    open spec fn view(&self) -> DiffView {
        DiffView {
            added_nodes: views(self.added_nodes@),
            removed_nodes: views(self.removed_nodes@),
            changed_nodes: views(self.changed_nodes@),
            added_relations: views(self.added_relations@),
            removed_relations: views(self.removed_relations@),
        }
    }
}

/// The diff from an old graph to a new one: nodes in the order of their ids,
/// edges in the order of their keys.
pub open spec fn diff_of(old_graph: GraphView, new_graph: GraphView) -> DiffView {
    DiffView {
        added_nodes: sorted_nodes(new_nodes(new_graph.nodes, old_graph.nodes, new_graph.nodes.len() as int)),
        removed_nodes: sorted_nodes(new_nodes(old_graph.nodes, new_graph.nodes, old_graph.nodes.len() as int)),
        changed_nodes: sorted_changes(differing(new_graph.nodes, old_graph.nodes, new_graph.nodes.len() as int)),
        added_relations: relations_only_in(new_graph.relations, old_graph.relations),
        removed_relations: relations_only_in(old_graph.relations, new_graph.relations),
    }
}

/// Whether a diff says nothing.
pub open spec fn says_nothing(d: DiffView) -> bool {
    &&& d.added_nodes.len() == 0
    &&& d.removed_nodes.len() == 0
    &&& d.changed_nodes.len() == 0
    &&& d.added_relations.len() == 0
    &&& d.removed_relations.len() == 0
}

impl GraphDiff {
    /// Tells whether the two graphs are structurally the same.
    pub fn is_empty(&self) -> (r: bool)
        ensures
            r == says_nothing(self@),
    {
        self.added_nodes.len() == 0 && self.removed_nodes.len() == 0 && self.changed_nodes.len() == 0
            && self.added_relations.len() == 0 && self.removed_relations.len() == 0
    }

    /// The numbers of a diff in words.
    pub fn repr(&self) -> (r: String)
        ensures
            r@ == diff_text(self@),
    {
        let nodes = concat5(
            "GraphDiff(+",
            decimal_text(self.added_nodes.len() as u64).as_str(),
            " nodes, -",
            decimal_text(self.removed_nodes.len() as u64).as_str(),
            " nodes, ~",
        );
        let changed = concat3(nodes.as_str(), decimal_text(self.changed_nodes.len() as u64).as_str(), " nodes, +");
        concat5(
            changed.as_str(),
            decimal_text(self.added_relations.len() as u64).as_str(),
            " relations, -",
            decimal_text(self.removed_relations.len() as u64).as_str(),
            " relations)",
        )
    }
}

/// The numbers of a diff in words.
pub open spec fn diff_text(d: DiffView) -> Seq<char> {
    let nodes = "GraphDiff(+"@ + decimal(d.added_nodes.len()) + " nodes, -"@ + decimal(d.removed_nodes.len())
        + " nodes, ~"@;
    let changed = nodes + decimal(d.changed_nodes.len()) + " nodes, +"@;
    changed + decimal(d.added_relations.len()) + " relations, -"@ + decimal(d.removed_relations.len())
        + " relations)"@
}

/// The nodes of one list whose id the other graph lacks, in the order of ids.
fn nodes_only(nodes: &Vec<Node>, others: &Graph) -> (r: Vec<Node>)
    requires
        others.wf(),
    ensures
        views(r@) == sorted_nodes(new_nodes(views(nodes@), others@.nodes, nodes@.len() as int)),
{
    let mut found: Vec<Node> = Vec::new();
    let mut keys: Vec<Vec<String>> = Vec::new();
    let mut i: usize = 0;
    assert(views(found@) =~= Seq::<NodeView>::empty());
    assert(key_views(keys@) =~= node_keys(views(found@)));
    while i < nodes.len()
        invariant
            i <= nodes@.len(),
            others.wf(),
            views(found@) == new_nodes(views(nodes@), others@.nodes, i as int),
            key_views(keys@) == node_keys(views(found@)),
        decreases nodes@.len() - i,
    {
        assert(views(nodes@)[i as int] == nodes@[i as int]@);
        if !others.has_node(nodes[i].id.as_str()) {
            let mut k: Vec<String> = Vec::new();
            k.push(copy(nodes[i].id.as_str()));
            let ghost before_keys = key_views(keys@);
            let ghost before_found = views(found@);
            assert(views(k@) =~= seq![nodes@[i as int].id@]);
            let ghost kv = views(k@);
            keys.push(k);
            add_item(&mut found, nodes[i].copy());
            assert(key_views(keys@) =~= before_keys.push(kv));
            assert(node_keys(views(found@)) =~= node_keys(before_found).push(kv));
        }
        i += 1;
    }
    let places = sorted_places(&keys);
    assert(node_keys(views(found@)).len() == views(found@).len());
    assert(keys@.len() == found@.len()) by {
        assert(key_views(keys@).len() == keys@.len());
    }
    let ghost sorted = sorted_nodes(views(found@));
    let mut out: Vec<Node> = Vec::new();
    let mut j: usize = 0;
    assert(views(out@) =~= sorted.take(0));
    while j < places.len()
        invariant
            j <= places@.len(),
            places@.len() == found@.len(),
            forall|q: int| 0 <= q < places@.len() ==> #[trigger] places@[q] < found@.len(),
            places@.map_values(|p: usize| p as int) == sort_order(node_keys(views(found@))),
            sorted == sorted_nodes(views(found@)),
            views(out@) == sorted.take(j as int),
        decreases places@.len() - j,
    {
        proof {
            assert(sort_order(node_keys(views(found@)))[j as int] == places@[j as int]);
            assert(sorted[j as int] == found@[places@[j as int] as int]@);
            assert(sorted.take(j + 1) =~= sorted.take(j as int).push(sorted[j as int]));
        }
        add_item(&mut out, found[places[j]].copy());
        j += 1;
    }
    assert(sorted.take(places@.len() as int) =~= sorted);
    out
}

/// The nodes that differ between two graphs, in the order of ids.
fn nodes_changed(nodes: &Vec<Node>, previous: &Graph) -> (r: Vec<Change>)
    requires
        previous.wf(),
    ensures
        views(r@) == sorted_changes(differing(views(nodes@), previous@.nodes, nodes@.len() as int)),
{
    let mut found: Vec<Change> = Vec::new();
    let mut keys: Vec<Vec<String>> = Vec::new();
    let mut i: usize = 0;
    assert(views(found@) =~= Seq::<(NodeView, NodeView)>::empty());
    assert(key_views(keys@) =~= change_keys(views(found@)));
    while i < nodes.len()
        invariant
            i <= nodes@.len(),
            previous.wf(),
            views(found@) == differing(views(nodes@), previous@.nodes, i as int),
            key_views(keys@) == change_keys(views(found@)),
        decreases nodes@.len() - i,
    {
        assert(views(nodes@)[i as int] == nodes@[i as int]@);
        if let Some(p) = previous.node(nodes[i].id.as_str()) {
            if !p.equals(&nodes[i]) {
                let mut k: Vec<String> = Vec::new();
                k.push(copy(nodes[i].id.as_str()));
                let ghost before_keys = key_views(keys@);
                let ghost before_found = views(found@);
                assert(views(k@) =~= seq![nodes@[i as int].id@]);
                let ghost kv = views(k@);
                keys.push(k);
                add_item(&mut found, Change { before: p.copy(), after: nodes[i].copy() });
                assert(key_views(keys@) =~= before_keys.push(kv));
                assert(change_keys(views(found@)) =~= change_keys(before_found).push(kv));
            }
        }
        i += 1;
    }
    let places = sorted_places(&keys);
    assert(change_keys(views(found@)).len() == views(found@).len());
    assert(keys@.len() == found@.len()) by {
        assert(key_views(keys@).len() == keys@.len());
    }
    let ghost sorted = sorted_changes(views(found@));
    let mut out: Vec<Change> = Vec::new();
    let mut j: usize = 0;
    assert(views(out@) =~= sorted.take(0));
    while j < places.len()
        invariant
            j <= places@.len(),
            places@.len() == found@.len(),
            forall|q: int| 0 <= q < places@.len() ==> #[trigger] places@[q] < found@.len(),
            places@.map_values(|p: usize| p as int) == sort_order(change_keys(views(found@))),
            sorted == sorted_changes(views(found@)),
            views(out@) == sorted.take(j as int),
        decreases places@.len() - j,
    {
        proof {
            assert(sort_order(change_keys(views(found@)))[j as int] == places@[j as int]);
            assert(sorted[j as int] == found@[places@[j as int] as int]@);
            assert(sorted.take(j + 1) =~= sorted.take(j as int).push(sorted[j as int]));
        }
        let c = &found[places[j]];
        add_item(&mut out, Change { before: c.before.copy(), after: c.after.copy() });
        j += 1;
    }
    assert(sorted.take(places@.len() as int) =~= sorted);
    out
}

/// The structural diff from an old graph to a new one.
pub fn diff_graphs(old_graph: &Graph, new_graph: &Graph) -> (d: GraphDiff)
    requires
        old_graph.wf(),
        new_graph.wf(),
    ensures
        d@ == diff_of(old_graph@, new_graph@),
{
    GraphDiff {
        added_nodes: nodes_only(new_graph.nodes(), old_graph),
        removed_nodes: nodes_only(old_graph.nodes(), new_graph),
        changed_nodes: nodes_changed(new_graph.nodes(), old_graph),
        added_relations: relations_only(new_graph.relations(), old_graph.relations()),
        removed_relations: relations_only(old_graph.relations(), new_graph.relations()),
    }
}

impl Graph {
    /// The structural diff from this graph, the old one, to another.
    pub fn diff(&self, other: &Graph) -> (d: GraphDiff)
        requires
            self.wf(),
            other.wf(),
        ensures
            d@ == diff_of(self@, other@),
    {
        diff_graphs(self, other)
    }
}

// ---------------------------------------------------------------------------
// Laws
// ---------------------------------------------------------------------------

/// A changed node with its two forms in the other order.
pub open spec fn turned(p: (NodeView, NodeView)) -> (NodeView, NodeView) {
    (p.1, p.0)
}

/// Changed nodes, each with its two forms in the other order.
pub open spec fn turned_all(pairs: Seq<(NodeView, NodeView)>) -> Seq<(NodeView, NodeView)> {
    pairs.map_values(|p: (NodeView, NodeView)| turned(p))
}

/// Whether every id occurs once, and every key once in a node's metadata.
spec fn sound(nodes: Seq<NodeView>) -> bool {
    &&& ids(nodes).no_duplicates()
    &&& forall|i: int| 0 <= i < nodes.len() ==> keys_distinct((#[trigger] nodes[i]).metadata)
}

/// Whether a pair is a node of one list before, and one of the other after a
/// change.
spec fn is_change(nodes: Seq<NodeView>, previous: Seq<NodeView>, p: (NodeView, NodeView)) -> bool {
    &&& previous.contains(p.0)
    &&& nodes.contains(p.1)
    &&& p.0.id == p.1.id
    &&& !nodes_equal(p.0, p.1)
}

/// The node under the id of a node is that node.
proof fn node_is_found(nodes: Seq<NodeView>, x: NodeView)
    requires
        ids(nodes).no_duplicates(),
        nodes.contains(x),
    ensures
        node_at(nodes, x.id) == Some(x),
{
    let i = choose|i: int| 0 <= i < nodes.len() && nodes[i] == x;
    position_is_first(ids(nodes), x.id, 0);
    assert(ids(nodes)[i] == x.id);
    let k = position(ids(nodes), x.id)->0;
    assert(ids(nodes)[k] == ids(nodes)[i]);
}

/// The node under an id is one of the list, and has the id.
proof fn found_node_is_listed(nodes: Seq<NodeView>, id: Seq<char>)
    requires
        node_at(nodes, id) is Some,
    ensures
        nodes.contains(node_at(nodes, id)->0),
        node_at(nodes, id)->0.id == id,
{
    position_is_first(ids(nodes), id, 0);
    let k = position(ids(nodes), id)->0;
    assert(ids(nodes)[k] == nodes[k].id);
}

/// What `differing` lists: the changes among the first `n` nodes, each once.
proof fn differing_lists_changes(nodes: Seq<NodeView>, previous: Seq<NodeView>, n: int)
    requires
        ids(nodes).no_duplicates(),
        ids(previous).no_duplicates(),
        0 <= n <= nodes.len(),
    ensures
        forall|k: int|
            0 <= k < differing(nodes, previous, n).len() ==> is_change(
                nodes.take(n),
                previous,
                #[trigger] differing(nodes, previous, n)[k],
            ),
        forall|p: (NodeView, NodeView)| #[trigger]
            is_change(nodes.take(n), previous, p) ==> differing(nodes, previous, n).contains(p),
        change_keys(differing(nodes, previous, n)).no_duplicates(),
    decreases n,
{
    let all = differing(nodes, previous, n);
    if n > 0 {
        differing_lists_changes(nodes, previous, n - 1);
        let earlier = differing(nodes, previous, n - 1);
        let x = nodes[n - 1];
        assert(nodes.take(n)[n - 1] == x);
        if node_at(previous, x.id) is Some {
            found_node_is_listed(previous, x.id);
        }
        assert forall|k: int| 0 <= k < all.len() implies is_change(nodes.take(n), previous, #[trigger] all[k]) by {
            if k < earlier.len() {
                assert(is_change(nodes.take(n - 1), previous, earlier[k]));
                let i = choose|i: int| 0 <= i < n - 1 && #[trigger] nodes.take(n - 1)[i] == earlier[k].1;
                assert(nodes.take(n)[i] == earlier[k].1);
            }
        }
        assert forall|p: (NodeView, NodeView)| #[trigger] is_change(nodes.take(n), previous, p) implies all.contains(
            p,
        ) by {
            let i = choose|i: int| 0 <= i < n && #[trigger] nodes.take(n)[i] == p.1;
            node_is_found(previous, p.0);
            if i < n - 1 {
                assert(nodes.take(n - 1)[i] == p.1);
                assert(is_change(nodes.take(n - 1), previous, p));
                let k = choose|k: int| 0 <= k < earlier.len() && earlier[k] == p;
                assert(all[k] == p);
            } else {
                assert(all[all.len() - 1] == p);
            }
        }
        let keys = change_keys(all);
        assert forall|i: int, j: int| 0 <= i < keys.len() && 0 <= j < keys.len() && i != j implies keys[i]
            != keys[j] by {
            let (lo, hi) = if i < j {
                (i, j)
            } else {
                (j, i)
            };
            assert(keys[lo] == change_keys(earlier)[lo]);
            if hi < earlier.len() {
                assert(keys[hi] == change_keys(earlier)[hi]);
            } else {
                assert(is_change(nodes.take(n - 1), previous, earlier[lo]));
                let k = choose|k: int| 0 <= k < n - 1 && #[trigger] nodes.take(n - 1)[k] == earlier[lo].1;
                assert(ids(nodes)[k] != ids(nodes)[n - 1]);
                assert(keys[lo][0] == earlier[lo].1.id);
                assert(keys[hi][0] == x.id);
            }
        }
    }
}

/// Whether each key comes before those that follow it.
spec fn climbing(keys: Seq<Key>) -> bool {
    forall|i: int, j: int| 0 <= i < j < keys.len() ==> key_before(#[trigger] keys[i], #[trigger] keys[j])
}

/// Sorted changes hold what the changes hold, and climb by id.
proof fn sorted_changes_climb(pairs: Seq<(NodeView, NodeView)>)
    requires
        change_keys(pairs).no_duplicates(),
    ensures
        climbing(change_keys(sorted_changes(pairs))),
        forall|p: (NodeView, NodeView)| #[trigger] sorted_changes(pairs).contains(p) <==> pairs.contains(p),
{
    let keys = change_keys(pairs);
    let order = sort_order(keys);
    let sorted = sorted_changes(pairs);
    sorting_is_permutation(keys, keys.len() as int);
    crate::order::sorting_is_ascending(keys, keys.len() as int);
    assert(change_keys(sorted) =~= picked(keys, order));
    assert forall|i: int, j: int| 0 <= i < j < sorted.len() implies key_before(
        #[trigger] change_keys(sorted)[i],
        #[trigger] change_keys(sorted)[j],
    ) by {
        let x = picked(keys, order)[i];
        let y = picked(keys, order)[j];
        assert(order[i] != order[j]);
        assert(x == keys[order[i]] && y == keys[order[j]]);
        key_before_total(x, y);
        assert(!key_before(y, x));
    }
    assert forall|p: (NodeView, NodeView)| #[trigger] sorted.contains(p) <==> pairs.contains(p) by {
        if sorted.contains(p) {
            let i = choose|i: int| 0 <= i < sorted.len() && sorted[i] == p;
            assert(pairs[order[i]] == p);
        }
        if pairs.contains(p) {
            let k = choose|k: int| 0 <= k < pairs.len() && pairs[k] == p;
            assert(order.contains(k));
            let i = choose|i: int| 0 <= i < order.len() && order[i] == k;
            assert(sorted[i] == p);
        }
    }
}

/// Two lists of changes that climb by id and hold the same changes are the
/// same.
proof fn climbing_changes_agree(a: Seq<(NodeView, NodeView)>, b: Seq<(NodeView, NodeView)>)
    requires
        climbing(change_keys(a)),
        climbing(change_keys(b)),
        forall|p: (NodeView, NodeView)| #[trigger] a.contains(p) <==> b.contains(p),
    ensures
        a == b,
    decreases a.len(),
{
    if a.len() == 0 {
        if b.len() > 0 {
            assert(b.contains(b[0]));
            assert(a.contains(b[0]));
        }
        assert(a =~= b);
    } else {
        assert(a.contains(a[0]));
        assert(b.contains(a[0]));
        let j = choose|j: int| 0 <= j < b.len() && b[j] == a[0];
        assert(b.contains(b[0]));
        assert(a.contains(b[0]));
        let i = choose|i: int| 0 <= i < a.len() && a[i] == b[0];
        let (x, y) = (change_keys(a), change_keys(b));
        assert(x[0] == y[j] && x[i] == y[0]);
        if j > 0 {
            assert(key_before(y[0], y[j]));
            if i > 0 {
                assert(key_before(x[0], x[i]));
                key_before_transitive(x[0], x[i], x[0]);
            }
            key_before_irreflexive(x[0]);
        }
        let (c, d) = (a.skip(1), b.skip(1));
        assert(change_keys(c) =~= x.skip(1));
        assert(change_keys(d) =~= y.skip(1));
        assert forall|p: (NodeView, NodeView)| #[trigger] c.contains(p) <==> d.contains(p) by {
            if c.contains(p) {
                let k = choose|k: int| 0 <= k < c.len() && c[k] == p;
                assert(a[k + 1] == p);
                assert(a.contains(p));
                let m = choose|m: int| 0 <= m < b.len() && b[m] == p;
                if m == 0 {
                    assert(key_before(x[0], x[k + 1]));
                    key_before_irreflexive(x[0]);
                }
                assert(d[m - 1] == p);
            }
            if d.contains(p) {
                let k = choose|k: int| 0 <= k < d.len() && d[k] == p;
                assert(b[k + 1] == p);
                assert(b.contains(p));
                assert(a.contains(p));
                let m = choose|m: int| 0 <= m < a.len() && a[m] == p;
                if m == 0 {
                    assert(key_before(y[0], y[k + 1]));
                    key_before_irreflexive(y[0]);
                }
                assert(c[m - 1] == p);
            }
        }
        climbing_changes_agree(c, d);
        assert forall|k: int| 0 <= k < a.len() implies a[k] == b[k] by {
            if k > 0 {
                assert(c[k - 1] == d[k - 1]);
            }
        }
        assert(c.len() == d.len());
        assert(a =~= b);
    }
}

/// A change one way is the turned change the other way.
proof fn changes_turn(a: Seq<NodeView>, b: Seq<NodeView>, p: (NodeView, NodeView))
    requires
        sound(a),
        sound(b),
    ensures
        is_change(a, b, p) == is_change(b, a, turned(p)),
{
    if a.contains(p.1) && b.contains(p.0) {
        let i = choose|i: int| 0 <= i < a.len() && a[i] == p.1;
        let j = choose|j: int| 0 <= j < b.len() && b[j] == p.0;
        assert(keys_distinct(a[i].metadata) && keys_distinct(b[j].metadata));
        nodes_equal_either_way(p.0, p.1);
    }
}

proof fn changes_mirror(a: Seq<NodeView>, b: Seq<NodeView>)
    requires
        sound(a),
        sound(b),
    ensures
        sorted_changes(differing(b, a, b.len() as int)) == turned_all(
            sorted_changes(differing(a, b, a.len() as int)),
        ),
{
    let there = differing(b, a, b.len() as int);
    let back = differing(a, b, a.len() as int);
    differing_lists_changes(b, a, b.len() as int);
    differing_lists_changes(a, b, a.len() as int);
    assert(b.take(b.len() as int) =~= b);
    assert(a.take(a.len() as int) =~= a);
    sorted_changes_climb(there);
    sorted_changes_climb(back);
    let x = sorted_changes(there);
    let y = sorted_changes(back);
    let z = turned_all(y);
    assert forall|k: int| 0 <= k < y.len() implies (#[trigger] y[k]).0.id == y[k].1.id by {
        assert(y.contains(y[k]));
        assert(back.contains(y[k]));
        let m = choose|m: int| 0 <= m < back.len() && back[m] == y[k];
        assert(is_change(a, b, back[m]));
    }
    assert(change_keys(z) =~= change_keys(y)) by {
        assert forall|k: int| 0 <= k < y.len() implies change_keys(z)[k] == change_keys(y)[k] by {
            assert(z[k] == turned(y[k]));
        }
    }
    assert forall|p: (NodeView, NodeView)| #[trigger] x.contains(p) <==> z.contains(p) by {
        changes_turn(b, a, p);
        if x.contains(p) {
            assert(there.contains(p));
            let m = choose|m: int| 0 <= m < there.len() && there[m] == p;
            assert(is_change(b, a, there[m]));
            assert(is_change(a, b, turned(p)));
            assert(y.contains(turned(p)));
            let k = choose|k: int| 0 <= k < y.len() && y[k] == turned(p);
            assert(z[k] == p);
        }
        if z.contains(p) {
            let k = choose|k: int| 0 <= k < z.len() && z[k] == p;
            assert(z[k] == turned(y[k]));
            assert(y.contains(y[k]));
            assert(back.contains(y[k]));
            let m = choose|m: int| 0 <= m < back.len() && back[m] == y[k];
            assert(is_change(a, b, back[m]));
            assert(turned(p) == y[k]);
            assert(is_change(b, a, p));
        }
    }
    climbing_changes_agree(x, z);
}

/// The nodes of a graph are sound.
proof fn graph_nodes_are_sound(g: &Graph)
    requires
        g.wf(),
    ensures
        sound(g@.nodes),
{
    g.ids_are_distinct();
    g.node_keys_are_distinct();
    let all = ids(g@.nodes);
    assert forall|i: int, j: int| 0 <= i < all.len() && 0 <= j < all.len() && i != j implies all[i] != all[j] by {
        assert(all[i] == g@.nodes[i].id && all[j] == g@.nodes[j].id);
    }
}

/// What one direction of a diff adds, the other removes, and what changes has
/// its two forms in the other order.
pub proof fn diff_mirrors(a: &Graph, b: &Graph)
    requires
        a.wf(),
        b.wf(),
    ensures
        diff_of(a@, b@).added_nodes == diff_of(b@, a@).removed_nodes,
        diff_of(a@, b@).removed_nodes == diff_of(b@, a@).added_nodes,
        diff_of(a@, b@).changed_nodes == turned_all(diff_of(b@, a@).changed_nodes),
        diff_of(a@, b@).added_relations == diff_of(b@, a@).removed_relations,
        diff_of(a@, b@).removed_relations == diff_of(b@, a@).added_relations,
{
    graph_nodes_are_sound(a);
    graph_nodes_are_sound(b);
    changes_mirror(a@.nodes, b@.nodes);
}

proof fn nothing_new(nodes: Seq<NodeView>, n: int)
    requires
        0 <= n <= nodes.len(),
    ensures
        new_nodes(nodes, nodes, n).len() == 0,
    decreases n,
{
    if n > 0 {
        nothing_new(nodes, n - 1);
        position_is_first(ids(nodes), nodes[n - 1].id, 0);
        assert(ids(nodes)[n - 1] == nodes[n - 1].id);
    }
}

proof fn nothing_differs(nodes: Seq<NodeView>, n: int)
    requires
        0 <= n <= nodes.len(),
        sound(nodes),
    ensures
        differing(nodes, nodes, n).len() == 0,
    decreases n,
{
    if n > 0 {
        nothing_differs(nodes, n - 1);
        let x = nodes[n - 1];
        position_is_first(ids(nodes), x.id, 0);
        assert(ids(nodes)[n - 1] == x.id);
        let k = position(ids(nodes), x.id)->0;
        assert(ids(nodes)[k] == ids(nodes)[n - 1]);
        assert(k == n - 1);
        crate::node::node_equals_itself(x);
    }
}

proof fn nothing_only_here(relations: Seq<RelationView>, mine: Seq<(Key, int)>, n: int)
    requires
        0 <= n <= mine.len(),
    ensures
        only_here(relations, mine, mine, n).len() == 0,
    decreases n,
{
    if n > 0 {
        nothing_only_here(relations, mine, n - 1);
        assert(mine[n - 1].0 == mine[n - 1].0);
        assert(has_key(mine, mine[n - 1].0));
    }
}

/// A graph does not differ from itself.
pub proof fn diff_with_itself_says_nothing(g: &Graph)
    requires
        g.wf(),
    ensures
        says_nothing(diff_of(g@, g@)),
{
    graph_nodes_are_sound(g);
    let nodes = g@.nodes;
    let n = nodes.len() as int;
    nothing_new(nodes, n);
    nothing_differs(nodes, n);
    sorting_is_permutation(node_keys(new_nodes(nodes, nodes, n)), 0);
    sorting_is_permutation(change_keys(differing(nodes, nodes, n)), 0);
    let mine = by_key(g@.relations, g@.relations.len() as int);
    nothing_only_here(g@.relations, mine, mine.len() as int);
}

/// The nodes of a diff come in ascending order of their ids.
pub proof fn diff_is_sorted(a: GraphView, b: GraphView)
    ensures
        crate::order::ascending(node_keys(diff_of(a, b).added_nodes)),
        crate::order::ascending(node_keys(diff_of(a, b).removed_nodes)),
        crate::order::ascending(change_keys(diff_of(a, b).changed_nodes)),
{
    let added = new_nodes(b.nodes, a.nodes, b.nodes.len() as int);
    let removed = new_nodes(a.nodes, b.nodes, a.nodes.len() as int);
    let changed = differing(b.nodes, a.nodes, b.nodes.len() as int);
    sorted_nodes_ascend(added);
    sorted_nodes_ascend(removed);
    let keys = change_keys(changed);
    crate::order::sorting_is_ascending(keys, keys.len() as int);
    sorting_is_permutation(keys, keys.len() as int);
    assert(change_keys(sorted_changes(changed)) =~= picked(keys, sort_order(keys)));
}

proof fn sorted_nodes_ascend(nodes: Seq<NodeView>)
    ensures
        crate::order::ascending(node_keys(sorted_nodes(nodes))),
{
    let keys = node_keys(nodes);
    crate::order::sorting_is_ascending(keys, keys.len() as int);
    sorting_is_permutation(keys, keys.len() as int);
    assert(node_keys(sorted_nodes(nodes)) =~= picked(keys, sort_order(keys)));
}

// ---------------------------------------------------------------------------
// What a diff tells
// ---------------------------------------------------------------------------

/// Whether two edges are the same to a diff: they join the same ends in the same
/// way, and their metadata reads the same.
pub open spec fn edges_alike(a: RelationView, b: RelationView) -> bool {
    a.source_id == b.source_id && a.target_id == b.target_id && a.kind == b.kind && canonical(a.metadata) == canonical(
        b.metadata,
    )
}

/// Edges have one key exactly where they are alike.
proof fn keys_tell_edges_apart(a: RelationView, b: RelationView)
    ensures
        relation_key(a) == relation_key(b) <==> edges_alike(a, b),
{
    let (x, y) = (relation_key(a), relation_key(b));
    if x == y {
        assert(x[0] == y[0] && x[1] == y[1] && x[2] == y[2] && x[3] == y[3]);
        if a.kind != b.kind {
            crate::relation::relation_kind_names_differ(a.kind, b.kind);
        }
    } else if edges_alike(a, b) {
        assert(x =~= y);
    }
}

/// Storing a place under a key keeps every other key, and adds that one.
proof fn put_adds_the_key(s: Seq<(Key, int)>, k: Key, place: int, other: Key)
    ensures
        has_key(put(s, k, place), other) <==> has_key(s, other) || other == k,
{
    spot_splits(s, k, 0);
    let at = spot_from(s, k, 0);
    let r = put(s, k, place);
    if has_key(s, other) {
        let j = choose|j: int| 0 <= j < s.len() && (#[trigger] s[j]).0 == other;
        if at < s.len() && s[at].0 == k {
            if j == at {
                assert(r[at].0 == other);
            } else {
                assert(r[j] == s[j]);
            }
        } else if j < at {
            assert(r[j] == s[j]);
        } else {
            assert(r[j + 1] == s[j]);
        }
    }
    assert(r[at].0 == k);
    if has_key(r, other) {
        let j = choose|j: int| 0 <= j < r.len() && (#[trigger] r[j]).0 == other;
        if at < s.len() && s[at].0 == k {
            if j != at {
                assert(s[j].0 == other);
            }
        } else if j < at {
            assert(s[j].0 == other);
        } else if j > at {
            assert(s[j - 1].0 == other);
        }
    }
}

/// The keys in the list are those of the first `n` edges.
proof fn keys_are_those_of_edges(relations: Seq<RelationView>, n: int, k: Key)
    requires
        0 <= n <= relations.len(),
    ensures
        has_key(by_key(relations, n), k) <==> exists|i: int| 0 <= i < n && relation_key(#[trigger] relations[i]) == k,
    decreases n,
{
    if n > 0 {
        keys_are_those_of_edges(relations, n - 1, k);
        put_adds_the_key(by_key(relations, n - 1), relation_key(relations[n - 1]), n - 1, k);
        if exists|i: int| 0 <= i < n && relation_key(#[trigger] relations[i]) == k {
            let i = choose|i: int| 0 <= i < n && relation_key(#[trigger] relations[i]) == k;
            if i < n - 1 {
                assert(relation_key(relations[i]) == k);
            }
        }
        if relation_key(relations[n - 1]) == k {
            assert(has_key(by_key(relations, n), k));
        }
    }
}

/// What is kept of the first `n` keyed edges are those whose key the other list
/// lacks.
proof fn kept_edges(relations: Seq<RelationView>, mine: Seq<(Key, int)>, theirs: Seq<(Key, int)>, n: int, x: RelationView)
    requires
        0 <= n <= mine.len(),
    ensures
        only_here(relations, mine, theirs, n).contains(x) <==> exists|i: int|
            0 <= i < n && relations[(#[trigger] mine[i]).1] == x && !has_key(theirs, mine[i].0),
    decreases n,
{
    if n > 0 {
        kept_edges(relations, mine, theirs, n - 1, x);
        let a = only_here(relations, mine, theirs, n - 1);
        let b = only_here(relations, mine, theirs, n);
        if a.contains(x) {
            let k = choose|k: int| 0 <= k < a.len() && a[k] == x;
            assert(b[k] == x);
        }
        if !has_key(theirs, mine[n - 1].0) && relations[mine[n - 1].1] == x {
            assert(b[b.len() - 1] == x);
        }
        if b.contains(x) {
            let k = choose|k: int| 0 <= k < b.len() && b[k] == x;
            if k < a.len() {
                assert(a[k] == x);
            } else {
                assert(relations[mine[n - 1].1] == x);
            }
        }
    }
}

/// Whether a list holds an edge that is alike.
pub open spec fn has_alike(relations: Seq<RelationView>, x: RelationView) -> bool {
    exists|j: int| 0 <= j < relations.len() && edges_alike(#[trigger] relations[j], x)
}

/// What one list of edges has and the other lacks are edges of the one to which no
/// edge of the other is alike; and of every such edge one that is alike is listed.
proof fn lacking_edges_are_listed(a: Seq<RelationView>, b: Seq<RelationView>, x: RelationView)
    ensures
        relations_only_in(a, b).contains(x) ==> a.contains(x) && !has_alike(b, x),
        a.contains(x) && !has_alike(b, x) ==> has_alike(relations_only_in(a, b), x),
{
    let mine = by_key(a, a.len() as int);
    let theirs = by_key(b, b.len() as int);
    let out = relations_only_in(a, b);
    by_key_places(a, a.len() as int);
    if out.contains(x) {
        kept_edges(a, mine, theirs, mine.len() as int, x);
        let i = choose|i: int| 0 <= i < mine.len() && a[(#[trigger] mine[i]).1] == x && !has_key(theirs, mine[i].0);
        assert(a[mine[i].1] == x);
        keys_are_those_of_edges(b, b.len() as int, mine[i].0);
        if has_alike(b, x) {
            let j = choose|j: int| 0 <= j < b.len() && edges_alike(#[trigger] b[j], x);
            keys_tell_edges_apart(b[j], x);
            assert(relation_key(b[j]) == mine[i].0);
        }
    }
    if a.contains(x) && !has_alike(b, x) {
        let i = choose|i: int| 0 <= i < a.len() && a[i] == x;
        let key = relation_key(a[i]);
        keys_are_those_of_edges(a, a.len() as int, key);
        keys_are_those_of_edges(b, b.len() as int, key);
        assert(has_key(mine, key));
        let m = choose|m: int| 0 <= m < mine.len() && (#[trigger] mine[m]).0 == key;
        if has_key(theirs, key) {
            let j = choose|j: int| 0 <= j < b.len() && relation_key(#[trigger] b[j]) == key;
            keys_tell_edges_apart(b[j], x);
            assert(edges_alike(b[j], x));
        }
        let y = a[mine[m].1];
        kept_edges(a, mine, theirs, mine.len() as int, y);
        assert(a[mine[m].1] == y && !has_key(theirs, mine[m].0));
        assert(out.contains(y));
        let k = choose|k: int| 0 <= k < out.len() && out[k] == y;
        keys_tell_edges_apart(y, x);
        assert(edges_alike(out[k], x));
    }
}

/// A diff adds an edge exactly where the new graph has it and no edge of the old one
/// joins the same ends in the same way with the same metadata, and it removes an edge
/// exactly where that is so the other way round. Of edges that are alike one is told.
pub proof fn diff_tells_edges_apart(old_graph: GraphView, new_graph: GraphView, x: RelationView)
    ensures
        diff_of(old_graph, new_graph).added_relations.contains(x) ==> new_graph.relations.contains(x) && !has_alike(
            old_graph.relations,
            x,
        ),
        diff_of(old_graph, new_graph).removed_relations.contains(x) ==> old_graph.relations.contains(x) && !has_alike(
            new_graph.relations,
            x,
        ),
        new_graph.relations.contains(x) && !has_alike(old_graph.relations, x) ==> has_alike(
            diff_of(old_graph, new_graph).added_relations,
            x,
        ),
        old_graph.relations.contains(x) && !has_alike(new_graph.relations, x) ==> has_alike(
            diff_of(old_graph, new_graph).removed_relations,
            x,
        ),
{
    lacking_edges_are_listed(new_graph.relations, old_graph.relations, x);
    lacking_edges_are_listed(old_graph.relations, new_graph.relations, x);
}

/// Where a diff says nothing, every edge of either graph has one in the other that
/// joins the same ends in the same way.
pub proof fn graphs_without_a_diff_share_their_edges(old_graph: GraphView, new_graph: GraphView, x: RelationView)
    requires
        says_nothing(diff_of(old_graph, new_graph)),
    ensures
        new_graph.relations.contains(x) ==> exists|j: int|
            0 <= j < old_graph.relations.len() && (#[trigger] old_graph.relations[j]).source_id == x.source_id
                && old_graph.relations[j].target_id == x.target_id && old_graph.relations[j].kind == x.kind,
        old_graph.relations.contains(x) ==> exists|j: int|
            0 <= j < new_graph.relations.len() && (#[trigger] new_graph.relations[j]).source_id == x.source_id
                && new_graph.relations[j].target_id == x.target_id && new_graph.relations[j].kind == x.kind,
{
    diff_tells_edges_apart(old_graph, new_graph, x);
    let (a, b) = (old_graph.relations, new_graph.relations);
    if b.contains(x) {
        assert(has_alike(a, x));
        let j = choose|j: int| 0 <= j < a.len() && edges_alike(#[trigger] a[j], x);
        assert(a[j].kind == x.kind);
    }
    if a.contains(x) {
        assert(has_alike(b, x));
        let j = choose|j: int| 0 <= j < b.len() && edges_alike(#[trigger] b[j], x);
        assert(b[j].kind == x.kind);
    }
}

/// The nodes whose id the other list lacks.
proof fn new_nodes_are_those_lacking(nodes: Seq<NodeView>, others: Seq<NodeView>, n: int, x: NodeView)
    requires
        0 <= n <= nodes.len(),
    ensures
        new_nodes(nodes, others, n).contains(x) <==> (exists|i: int| 0 <= i < n && #[trigger] nodes[i] == x) && forall|j: int|
            0 <= j < others.len() ==> (#[trigger] others[j]).id != x.id,
    decreases n,
{
    if n > 0 {
        new_nodes_are_those_lacking(nodes, others, n - 1, x);
        crate::graph::ids_find_nodes(others, nodes[n - 1].id);
        let a = new_nodes(nodes, others, n - 1);
        let b = new_nodes(nodes, others, n);
        if a.contains(x) {
            let k = choose|k: int| 0 <= k < a.len() && a[k] == x;
            assert(b[k] == x);
        }
        if b.len() > a.len() && nodes[n - 1] == x {
            assert(b[b.len() - 1] == x);
        }
        if b.contains(x) {
            let k = choose|k: int| 0 <= k < b.len() && b[k] == x;
            if k < a.len() {
                assert(a[k] == x);
            } else {
                assert(nodes[n - 1] == x);
            }
        }
    }
}

/// Sorting nodes keeps exactly the nodes.
proof fn sorted_nodes_are_the_nodes(nodes: Seq<NodeView>, x: NodeView)
    ensures
        sorted_nodes(nodes).contains(x) <==> nodes.contains(x),
{
    let keys = node_keys(nodes);
    let order = sort_order(keys);
    let sorted = sorted_nodes(nodes);
    sorting_is_permutation(keys, keys.len() as int);
    if sorted.contains(x) {
        let i = choose|i: int| 0 <= i < sorted.len() && sorted[i] == x;
        assert(nodes[order[i]] == x);
    }
    if nodes.contains(x) {
        let k = choose|k: int| 0 <= k < nodes.len() && nodes[k] == x;
        assert(order.contains(k));
        let i = choose|i: int| 0 <= i < order.len() && order[i] == k;
        assert(sorted[i] == x);
    }
}

/// A diff adds exactly the nodes of the new graph whose ids the old one lacks, removes
/// exactly those of the old graph whose ids the new one lacks, and reports as changed
/// exactly the pairs that share an id and differ in anything else.
pub proof fn diff_tells_nodes_apart(a: &Graph, b: &Graph, x: NodeView, y: NodeView)
    requires
        a.wf(),
        b.wf(),
    ensures
        diff_of(a@, b@).added_nodes.contains(x) <==> b@.nodes.contains(x) && forall|j: int|
            0 <= j < a@.nodes.len() ==> (#[trigger] a@.nodes[j]).id != x.id,
        diff_of(a@, b@).removed_nodes.contains(x) <==> a@.nodes.contains(x) && forall|j: int|
            0 <= j < b@.nodes.len() ==> (#[trigger] b@.nodes[j]).id != x.id,
        diff_of(a@, b@).changed_nodes.contains((x, y)) <==> a@.nodes.contains(x) && b@.nodes.contains(y) && x.id == y.id
            && !(x.kind == y.kind && x.qualified_name == y.qualified_name && x.name == y.name && x.file_path == y.file_path
            && x.span == y.span && crate::meta::same_entries(x.metadata, y.metadata)),
{
    let (m, n) = (a@.nodes.len() as int, b@.nodes.len() as int);
    new_nodes_are_those_lacking(b@.nodes, a@.nodes, n, x);
    new_nodes_are_those_lacking(a@.nodes, b@.nodes, m, x);
    sorted_nodes_are_the_nodes(new_nodes(b@.nodes, a@.nodes, n), x);
    sorted_nodes_are_the_nodes(new_nodes(a@.nodes, b@.nodes, m), x);
    graph_nodes_are_sound(a);
    graph_nodes_are_sound(b);
    let all = differing(b@.nodes, a@.nodes, n);
    differing_lists_changes(b@.nodes, a@.nodes, n);
    assert(b@.nodes.take(n) =~= b@.nodes);
    sorted_changes_climb(all);
    assert(is_change(b@.nodes, a@.nodes, (x, y)) <==> all.contains((x, y))) by {
        if all.contains((x, y)) {
            let k = choose|k: int| 0 <= k < all.len() && all[k] == (x, y);
            assert(is_change(b@.nodes.take(n), a@.nodes, all[k]));
        }
    }
}

/// The texts that stand for metadata of one entry differ where its values read
/// differently.
proof fn values_show_in_metadata(key: Seq<char>, v: ValueView, w: ValueView)
    requires
        canonical_value(v) != canonical_value(w),
    ensures
        canonical(seq![(key, v)]) != canonical(seq![(key, w)]),
        canonical(seq![(key, v)]) != canonical(Seq::empty()),
{
    reveal_strlit("{");
    reveal_strlit("}");
    reveal_strlit(":");
    let (a, b, c) = (seq![(key, v)], seq![(key, w)], Seq::<(Seq<char>, ValueView)>::empty());
    one_entry_text(key, v);
    one_entry_text(key, w);
    sorting_is_permutation(entry_keys(c), 0);
    let x = canonical(a);
    let y = canonical(b);
    let head = "{"@ + key + ":"@;
    assert(x =~= head + canonical_value(v) + "}"@);
    assert(y =~= head + canonical_value(w) + "}"@);
    if x == y {
        let n = head.len() as int;
        assert(x.subrange(n, x.len() - 1) =~= canonical_value(v));
        assert(y.subrange(n, y.len() - 1) =~= canonical_value(w));
    }
    let entries = picked(c, sort_order(entry_keys(c)));
    assert(entries.map_values(|e: (Seq<char>, ValueView)| canonical_entry(e)).len() == 0);
    assert(canonical(c).len() == 2);
    assert(x.len() >= 3);
}

/// The text of metadata of one entry.
proof fn one_entry_text(key: Seq<char>, v: ValueView)
    ensures
        canonical(seq![(key, v)]) == "{"@ + (key + ":"@ + canonical_value(v)) + "}"@,
{
    let m = seq![(key, v)];
    let keys = entry_keys(m);
    sorting_is_permutation(keys, 1);
    let order = sort_order(keys);
    assert(order[0] == 0);
    let entries = picked(m, order);
    let texts = entries.map_values(|e: (Seq<char>, ValueView)| canonical_entry(e));
    assert(entries[0] == (key, v));
    assert(texts.len() == 1 && texts[0] == canonical_entry((key, v)));
    assert(joined(texts, ","@) == texts[0]);
}

/// A change of metadata alone shows: where the values under a key read differently,
/// the edge is removed in its old form and added in its new one.
pub proof fn diff_shows_changed_metadata(
    old_graph: GraphView,
    new_graph: GraphView,
    r: RelationView,
    key: Seq<char>,
    v: ValueView,
    w: ValueView,
)
    requires
        old_graph.relations == seq![RelationView { metadata: seq![(key, v)], ..r }],
        new_graph.relations == seq![RelationView { metadata: seq![(key, w)], ..r }],
        canonical_value(v) != canonical_value(w),
    ensures
        diff_of(old_graph, new_graph).removed_relations.contains(old_graph.relations[0]),
        diff_of(old_graph, new_graph).added_relations.contains(new_graph.relations[0]),
{
    values_show_in_metadata(key, v, w);
    let d = diff_of(old_graph, new_graph);
    let (x, y) = (old_graph.relations[0], new_graph.relations[0]);
    assert(!edges_alike(x, y) && !edges_alike(y, x));
    diff_tells_edges_apart(old_graph, new_graph, x);
    diff_tells_edges_apart(old_graph, new_graph, y);
    assert(has_alike(d.added_relations, y));
    let k = choose|k: int| 0 <= k < d.added_relations.len() && edges_alike(#[trigger] d.added_relations[k], y);
    diff_tells_edges_apart(old_graph, new_graph, d.added_relations[k]);
    assert(has_alike(d.removed_relations, x));
    let m = choose|m: int| 0 <= m < d.removed_relations.len() && edges_alike(#[trigger] d.removed_relations[m], x);
    diff_tells_edges_apart(old_graph, new_graph, d.removed_relations[m]);
}

}
