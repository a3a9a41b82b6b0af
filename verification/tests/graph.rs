use callix::graph::Graph;
use callix::meta::{MetaValue, Metadata};
use callix::metrics::ResolverMetrics;
use callix::node::{Node, NodeKind};
use callix::relation::{Relation, RelationKind};
use callix::status::ResolverStatus;

fn node(id: &str, kind: NodeKind) -> Node {
    Node {
        id: id.to_string(),
        kind,
        qualified_name: format!("q.{}", id),
        name: id.to_string(),
        file_path: Some(format!("{}.go", &id[..1])),
        span: None,
        metadata: Metadata::new(),
    }
}

fn edge(a: &str, b: &str, kind: RelationKind) -> Relation {
    Relation::plain(a, b, kind)
}

fn ids(nodes: &[Node]) -> Vec<&str> {
    nodes.iter().map(|n| n.id.as_str()).collect()
}

fn sample() -> Graph {
    let mut g = Graph::new();
    for id in ["a1", "a2", "b1", "c1"] {
        assert!(g.add_node(node(id, NodeKind::Function)).is_ok());
    }
    g.add_relation(edge("a1", "a2", RelationKind::Calls));
    g.add_relation(edge("a2", "b1", RelationKind::Calls));
    g.add_relation(edge("c1", "a2", RelationKind::References));
    g.add_relation(edge("a1", "zz", RelationKind::Calls));
    g
}

#[test]
fn an_id_is_added_once() {
    let mut g = sample();
    assert_eq!(g.add_node(node("a1", NodeKind::Class)).err().unwrap(), "Node with id 'a1' already exists");
    assert_eq!(g.len(), 4);
    assert_eq!(g.node("a1").unwrap().kind, NodeKind::Function);
    assert!(g.has_node("b1") && !g.has_node("zz"));
    assert_eq!(g.repr(), "Graph(nodes=4, relations=4)");
}

#[test]
fn edges_are_found_from_both_ends() {
    let mut g = sample();
    assert_eq!(g.outgoing("a1", None).len(), 2);
    assert_eq!(g.incoming("a2", Some(RelationKind::Calls)).len(), 1);
    assert_eq!(ids(&g.callees("a1")), vec!["a2"]);
    assert_eq!(ids(&g.callers("a2")), vec!["a1"]);
    assert_eq!(ids(&g.references_to("a2")), vec!["c1"]);
    // An edge added after a query is seen by the next one.
    g.add_relation(edge("b1", "a2", RelationKind::Calls));
    assert_eq!(ids(&g.callers("a2")), vec!["a1", "b1"]);
}

#[test]
fn neighbours_and_parts_are_taken_by_distance_and_id() {
    let mut g = sample();
    let mut near: Vec<String> = g.neighbors("a1", 1).iter().map(|n| n.id.clone()).collect();
    near.sort();
    assert_eq!(near, vec!["a2"]);
    let mut far: Vec<String> = g.neighbors("a1", 2).iter().map(|n| n.id.clone()).collect();
    far.sort();
    assert_eq!(far, vec!["a2", "b1", "c1"]);
    let part = g.subgraph(&vec!["b1".to_string(), "a2".to_string(), "none".to_string()]);
    // What an edge joins to the chosen nodes comes along.
    assert_eq!(ids(part.nodes()), vec!["a2", "b1", "a1", "c1"]);
    assert_eq!(part.relations().len(), 3);
    let file = g.subgraph_for_file("b.go");
    assert_eq!(ids(file.nodes()), vec!["b1", "a2"]);
    assert_eq!(ids(&g.nodes_in_file("c.go")), vec!["c1"]);
    assert_eq!(ids(&g.nodes_by_name("b1")), vec!["b1"]);
    assert_eq!(g.nodes_by_kind(NodeKind::Class).len(), 0);
}

#[test]
fn the_first_module_of_a_name_is_indexed() {
    let mut g = Graph::new();
    let mut second = node("m2", NodeKind::Module);
    second.qualified_name = "q.m1".to_string();
    g.insert_node(node("m1", NodeKind::Module));
    g.insert_node(second);
    g.insert_node(node("f1", NodeKind::Function));
    let index = g.module_index();
    assert_eq!(index.get("q.m1").as_deref(), Some("m1"));
    assert_eq!(index.get("q.f1"), None);
}

#[test]
fn merging_refuses_what_is_there_unless_it_may_be_shared() {
    let mut g = sample();
    let mut other = Graph::new();
    other.insert_node(node("a1", NodeKind::Function));
    other.insert_node(node("x1", NodeKind::Function));
    other.add_relation(edge("x1", "a1", RelationKind::Calls));
    assert!(g.merge(&other, false).is_err());
    assert_eq!(g.len(), 4);
    assert!(g.merge(&other, true).is_ok());
    assert_eq!(g.len(), 5);
    assert_eq!(ids(&g.callers("a1")), vec!["x1"]);
}

#[test]
fn merging_keeps_the_worse_status() {
    let mut g = Graph::new();
    g.set_metadata_item("resolver_status", MetaValue::text("ok"));
    let mut other = Graph::new();
    other.set_metadata_item("resolver_status", MetaValue::text("degraded"));
    assert!(g.merge(&other, true).is_ok());
    assert_eq!(g.metadata().get_text("resolver_status"), "degraded");
    assert_eq!(ResolverStatus::combine(ResolverStatus::Complete, ResolverStatus::Unavailable), ResolverStatus::Unavailable);
    assert_eq!(ResolverStatus::coerce("no such thing"), ResolverStatus::Unavailable);
}

#[test]
fn repeated_facts_are_dropped_and_observed_ones_stay() {
    let mut g = sample();
    g.add_relation(edge("a1", "a2", RelationKind::Calls));
    let mut seen = edge("a1", "a2", RelationKind::Calls);
    seen.metadata.set("line", MetaValue::Number(3));
    g.add_relation(seen);
    let mut again = edge("a1", "a2", RelationKind::Calls);
    again.metadata.set("line", MetaValue::Number(3));
    g.add_relation(again);
    g.dedupe_structural_relations();
    assert_eq!(g.relations().len(), 6);
    g.dedupe_structural_relations();
    assert_eq!(g.relations().len(), 6);
}

#[test]
fn a_diff_names_what_came_went_and_changed() {
    let old = sample();
    let mut new = sample();
    assert!(old.diff(&new).is_empty());
    new.insert_node(node("d1", NodeKind::Class));
    new.add_relation(edge("d1", "a1", RelationKind::Calls));
    let d = old.diff(&new);
    assert_eq!(ids(&d.added_nodes), vec!["d1"]);
    assert_eq!(d.added_relations.len(), 1);
    assert!(d.removed_nodes.is_empty() && d.removed_relations.is_empty() && d.changed_nodes.is_empty());
    assert_eq!(d.repr(), "GraphDiff(+1 nodes, -0 nodes, ~0 nodes, +1 relations, -0 relations)");
    let back = new.diff(&old);
    assert_eq!(ids(&back.removed_nodes), vec!["d1"]);
    let mut renamed = sample();
    let mut moved = node("a1", NodeKind::Function);
    moved.name = "other".to_string();
    let mut changed = Graph::new();
    changed.insert_node(moved);
    for n in ["a2", "b1", "c1"] {
        changed.insert_node(node(n, NodeKind::Function));
    }
    for r in renamed.outgoing("a1", None) {
        changed.add_relation(r);
    }
    let d = old.diff(&changed);
    assert_eq!(d.changed_nodes.len(), 1);
    assert_eq!(d.removed_relations.len(), 2);
}

#[test]
fn consumers_are_linked_to_providers_once() {
    let mut g = Graph::new();
    for id in ["server", "client"] {
        g.insert_node(node(id, NodeKind::Function));
    }
    let mut contract = node("contract", NodeKind::Boundary);
    contract.metadata.set("mechanism", MetaValue::text("http"));
    contract.metadata.set("key", MetaValue::text("GET /users/{}"));
    g.insert_node(contract);
    let mut exposes = edge("server", "contract", RelationKind::Exposes);
    exposes.metadata.set("confidence", MetaValue::Percent(100));
    g.add_relation(exposes);
    let mut consumes = edge("client", "contract", RelationKind::Consumes);
    consumes.metadata.set("confidence", MetaValue::Percent(90));
    g.add_relation(consumes);
    assert_eq!(g.link_boundaries(0), 1);
    assert_eq!(g.link_boundaries(0), 0);
    let link = g.relations().iter().find(|r| r.kind == RelationKind::CommunicatesWith).unwrap();
    assert_eq!((link.source_id.as_str(), link.target_id.as_str()), ("client", "server"));
    assert_eq!(format!("{:?}", link.metadata.get("confidence")), "Some(Product(90000000))");
    let mut strict = Graph::new();
    assert_eq!(strict.link_boundaries(0), 0);
}

/// A server and a client of one contract, with the confidences of their edges.
fn pair(server: Option<MetaValue>, client: Option<MetaValue>) -> Graph {
    let mut g = Graph::new();
    for id in ["server", "client"] {
        g.insert_node(node(id, NodeKind::Function));
    }
    g.insert_node(node("contract", NodeKind::Boundary));
    for (id, kind, confidence) in
        [("server", RelationKind::Exposes, server), ("client", RelationKind::Consumes, client)]
    {
        let mut r = edge(id, "contract", kind);
        if let Some(c) = confidence {
            r.metadata.set("confidence", c);
        }
        g.add_relation(r);
    }
    g
}

fn link_confidence(g: &Graph) -> String {
    let link = g.relations().iter().find(|r| r.kind == RelationKind::CommunicatesWith).unwrap();
    link.metadata.get_text("confidence")
}

#[test]
fn any_number_is_a_confidence() {
    // Nought is below every threshold but nought.
    assert_eq!(pair(None, Some(MetaValue::Number(0))).link_boundaries(50_000_000), 0);
    assert_eq!(pair(None, Some(MetaValue::Number(0))).link_boundaries(0), 1);
    // A missing confidence, and one that is no number, count as one.
    let mut g = pair(None, Some(MetaValue::text("high")));
    assert_eq!(g.link_boundaries(100_000_000), 1);
    assert_eq!(link_confidence(&g), "1.0");
    // A product of an earlier run is read on the same scale.
    let mut g = pair(Some(MetaValue::Product(50_000_000)), Some(MetaValue::Percent(90)));
    assert_eq!(g.link_boundaries(45_010_000), 0);
    assert_eq!(g.link_boundaries(45_000_000), 1);
    assert_eq!(link_confidence(&g), "0.45");
    // A flag is one or nought, and a number may be above one.
    assert_eq!(pair(Some(MetaValue::Flag(false)), None).link_boundaries(1), 0);
    let mut g = pair(Some(MetaValue::Number(3)), Some(MetaValue::Percent(50)));
    assert_eq!(g.link_boundaries(150_000_000), 1);
    assert_eq!(link_confidence(&g), "1.5");
    // What does not fit is held as the greatest number.
    let mut g = pair(Some(MetaValue::Product(u128::MAX)), Some(MetaValue::Number(2)));
    assert_eq!(g.link_boundaries(u64::MAX), 1);
}

#[test]
fn numbers_are_compared_as_numbers() {
    let one = |v: MetaValue| Metadata::new().with("confidence", v);
    assert!(one(MetaValue::Number(1)).same(&one(MetaValue::Percent(100))));
    assert!(one(MetaValue::Product(90_000_000)).same(&one(MetaValue::Percent(90))));
    assert!(one(MetaValue::Flag(true)).same(&one(MetaValue::Number(1))));
    assert!(!one(MetaValue::Number(1)).same(&one(MetaValue::Percent(99))));
    assert!(!one(MetaValue::Number(1)).same(&one(MetaValue::text("1"))));
    assert!(!one(MetaValue::Number(1)).same(&Metadata::new().with("other", MetaValue::Number(1))));
}

#[test]
fn values_have_texts() {
    let shown = |v: MetaValue| Metadata::new().with("k", v).get_text("k");
    assert_eq!(shown(MetaValue::Nothing), "None");
    assert_eq!(shown(MetaValue::Flag(true)), "True");
    assert_eq!(shown(MetaValue::Number(7)), "7");
    assert_eq!(shown(MetaValue::Percent(100)), "1.0");
    assert_eq!(shown(MetaValue::Percent(95)), "0.95");
    assert_eq!(shown(MetaValue::Percent(5)), "0.05");
    assert_eq!(shown(MetaValue::Product(81_000_000)), "0.81");
    assert_eq!(shown(MetaValue::Product(0)), "0.0");
    assert_eq!(shown(MetaValue::Product(1_500)), "1.5e-05");
    assert_eq!(shown(MetaValue::Product(1)), "1e-08");
    assert_eq!(shown(MetaValue::text("it's")), "it's");
    assert_eq!(shown(MetaValue::Texts(vec!["a".to_string(), "b".to_string()])), "['a', 'b']");
    assert_eq!(Metadata::new().get_text("k"), "");
    assert_eq!(MetaValue::text("it's").canonical(), "\"it's\"");
    assert_eq!(MetaValue::text("say \"it's\"").canonical(), "'say \"it\\'s\"'");
    assert_eq!(MetaValue::text("a\\b\n\u{1}\u{7f}").canonical(), "'a\\\\b\\n\\x01\\x7f'");
    assert_eq!(MetaValue::Texts(vec!["a".to_string(), "b".to_string()]).canonical(), "['a','b']");
}

#[test]
fn a_key_is_stored_once() {
    let mut m = Metadata::new().with_text("a", "1").with_text("b", "2").with_text("a", "3");
    assert_eq!(m.len(), 2);
    assert_eq!((m.entry(0).key.as_str(), m.get_text("a").as_str()), ("a", "3"));
    m.set("b", MetaValue::Nothing);
    assert_eq!(m.len(), 2);
    assert!(!m.is_empty());
}

#[test]
fn edges_of_a_diff_come_in_the_order_of_their_texts() {
    let sure = |n: u32| {
        let mut r = edge("client", "server", RelationKind::CommunicatesWith);
        r.metadata.set("confidence", MetaValue::Percent(n));
        r
    };
    let mut new_graph = Graph::new();
    new_graph.add_relation(sure(100));
    new_graph.add_relation(sure(90));
    let d = Graph::new().diff(&new_graph);
    let order: Vec<String> = d.added_relations.iter().map(|r| r.metadata.get_text("confidence")).collect();
    assert_eq!(order, ["0.9", "1.0"]);
}

#[test]
fn a_diff_the_other_way_turns_every_change() {
    let mut a = sample();
    let mut b = Graph::new();
    for id in ["c1", "a2", "a1"] {
        let mut n = node(id, NodeKind::Function);
        if id != "a2" {
            n.metadata.set("line", MetaValue::Number(4));
        }
        b.insert_node(n);
    }
    let there = a.diff(&b);
    let back = b.diff(&a);
    let there_ids: Vec<&str> = there.changed_nodes.iter().map(|c| c.after.id.as_str()).collect();
    assert_eq!(there_ids, ["a1", "c1"]);
    assert_eq!(there.changed_nodes.len(), back.changed_nodes.len());
    for (x, y) in there.changed_nodes.iter().zip(&back.changed_nodes) {
        assert!(x.before.equals(&y.after) && x.after.equals(&y.before));
        assert_eq!(x.after.metadata.get_text("line"), "4");
        assert_eq!(y.after.metadata.get_text("line"), "");
    }
    assert_eq!(ids(&there.removed_nodes), ids(&back.added_nodes));
    assert!(a.diff(&a).is_empty() && b.diff(&b).is_empty());
    a.add_relation(edge("a1", "b1", RelationKind::Calls));
    assert!(a.diff(&a).is_empty());
}

#[test]
fn a_graph_is_built_from_its_parts() {
    let meta = || Metadata::new().with_text("resolver_status", "ok");
    let nodes = || vec![node("a1", NodeKind::Function), node("b1", NodeKind::Class)];
    let g = Graph::from_parts(meta(), nodes(), vec![edge("a1", "b1", RelationKind::Calls)]).ok().unwrap();
    assert_eq!(g.repr(), "Graph(nodes=2, relations=1)");
    assert_eq!(g.metadata().get_text("resolver_status"), "ok");
    assert!(g.has_node("b1"));
    let mut twice = nodes();
    twice.push(node("a1", NodeKind::Module));
    let e = Graph::from_parts(meta(), twice, vec![]).err().unwrap();
    assert_eq!(e, "Node with id 'a1' already exists");
}

#[test]
fn counters_add_up() {
    let mut a = ResolverMetrics { queries: 3, resolved: 2, internal: 1, external: 1, unresolved: 1, micros: 5 };
    let b = ResolverMetrics { queries: 4, resolved: 4, internal: 4, external: 0, unresolved: 0, micros: 6 };
    a.merge(&b);
    assert_eq!((a.queries, a.resolved, a.internal, a.external, a.unresolved, a.micros), (7, 6, 5, 1, 1, 11));
    assert_eq!(a.repr(), "ResolverMetrics(queries=7, resolved=6, internal=5, external=1, unresolved=1)");
    assert_eq!(a.as_dict().get_text("internal"), "5");
}
