//! Nodes for the packages that a project declares.

use vstd::prelude::*;

use crate::graph::{Graph, GraphView};
use crate::ids::{kind_id, node_kind_id};
use crate::meta::Metadata;
use crate::node::{Node, NodeKind, NodeView};
use crate::order::{key_views, picked, sort_order, sorted_places, Key};
use crate::relation::{plain_edge, Relation, RelationKind};
use crate::text::{add_item, add_new, copy, views, with_new};

verus! {

/// The first `n` strings of a list without repeats.
pub open spec fn distinct(names: Seq<Seq<char>>, n: int) -> Seq<Seq<char>>
    decreases n,
{
    if n <= 0 || n > names.len() {
        Seq::empty()
    } else {
        with_new(distinct(names, n - 1), names[n - 1])
    }
}

/// The sort keys of single strings.
pub open spec fn text_keys(names: Seq<Seq<char>>) -> Seq<Key> {
    names.map_values(|s: Seq<char>| seq![s])
}

/// The strings of a list in ascending order, without repeats.
pub open spec fn sorted_names(names: Seq<Seq<char>>) -> Seq<Seq<char>> {
    let d = distinct(names, names.len() as int);
    picked(d, sort_order(text_keys(d)))
}

/// The node of a declared package.
pub open spec fn dependency_node(project: Seq<char>, name: Seq<char>) -> NodeView {
    NodeView {
        id: kind_id(project, name, NodeKind::Dependency),
        kind: NodeKind::Dependency,
        qualified_name: name,
        name,
        file_path: None,
        span: None,
        metadata: Seq::empty(),
    }
}

/// The graph after the first `n` names were declared.
pub open spec fn declared(
    g: GraphView,
    project: Seq<char>,
    project_id: Seq<char>,
    names: Seq<Seq<char>>,
    n: int,
) -> GraphView
    decreases n,
{
    if n <= 0 || n > names.len() {
        g
    } else {
        let earlier = declared(g, project, project_id, names, n - 1);
        let name = names[n - 1];
        if name.len() == 0 {
            earlier
        } else {
            let node = dependency_node(project, name);
            earlier.insert(node).relate(plain_edge(project_id, node.id, RelationKind::DependsOn))
        }
    }
}

/// Sorts strings, dropping repeats.
pub fn sort_names(names: &Vec<String>) -> (r: Vec<String>)
    ensures
        views(r@) == sorted_names(views(names@)),
{
    let mut unique: Vec<String> = Vec::new();
    let mut i: usize = 0;
    assert(views(unique@) =~= Seq::<Seq<char>>::empty());
    while i < names.len()
        invariant
            i <= names@.len(),
            views(unique@) == distinct(views(names@), i as int),
        decreases names@.len() - i,
    {
        assert(views(names@)[i as int] == names@[i as int]@);
        add_new(&mut unique, copy(names[i].as_str()));
        i += 1;
    }
    let ghost d = views(unique@);
    let mut keys: Vec<Vec<String>> = Vec::new();
    let mut k: usize = 0;
    assert(key_views(keys@) =~= text_keys(d).take(0));
    while k < unique.len()
        invariant
            k <= unique@.len(),
            d == views(unique@),
            key_views(keys@) == text_keys(d).take(k as int),
        decreases unique@.len() - k,
    {
        let mut key: Vec<String> = Vec::new();
        key.push(copy(unique[k].as_str()));
        assert(views(key@) =~= seq![d[k as int]]);
        let ghost kv = views(key@);
        let ghost before_add = key_views(keys@);
        keys.push(key);
        assert(key_views(keys@) =~= before_add.push(kv));
        assert(text_keys(d).take(k + 1) =~= text_keys(d).take(k as int).push(text_keys(d)[k as int]));
        k += 1;
    }
    assert(text_keys(d).take(d.len() as int) =~= text_keys(d));
    let places = sorted_places(&keys);
    assert(keys@.len() == unique@.len()) by {
        assert(key_views(keys@).len() == keys@.len());
    }
    let ghost sorted = picked(d, sort_order(text_keys(d)));
    let mut out: Vec<String> = Vec::new();
    let mut j: usize = 0;
    assert(views(out@) =~= sorted.take(0));
    while j < places.len()
        invariant
            j <= places@.len(),
            places@.len() == unique@.len(),
            d == views(unique@),
            forall|q: int| 0 <= q < places@.len() ==> #[trigger] places@[q] < unique@.len(),
            places@.map_values(|p: usize| p as int) == sort_order(text_keys(d)),
            sorted == picked(d, sort_order(text_keys(d))),
            views(out@) == sorted.take(j as int),
        decreases places@.len() - j,
    {
        proof {
            assert(sort_order(text_keys(d))[j as int] == places@[j as int]);
            assert(sorted[j as int] == unique@[places@[j as int] as int]@);
            assert(sorted.take(j + 1) =~= sorted.take(j as int).push(sorted[j as int]));
        }
        add_item(&mut out, copy(unique[places[j]].as_str()));
        j += 1;
    }
    assert(sorted.take(places@.len() as int) =~= sorted);
    out
}

/// Declares one node per name, with an edge from the project.
///
/// Names come in ascending order, because the order of nodes is part of a
/// graph's value.
pub fn declare_dependencies(graph: &mut Graph, project: &str, project_id: &str, names: &Vec<String>)
    requires
        old(graph).wf(),
    ensures
        final(graph).wf(),
        final(graph)@ == declared(
            old(graph)@,
            project@,
            project_id@,
            sorted_names(views(names@)),
            sorted_names(views(names@)).len() as int,
        ),
{
    let sorted = sort_names(names);
    let mut i: usize = 0;
    while i < sorted.len()
        invariant
            i <= sorted@.len(),
            graph.wf(),
            graph@ == declared(old(graph)@, project@, project_id@, views(sorted@), i as int),
        decreases sorted@.len() - i,
    {
        let name = sorted[i].as_str();
        assert(views(sorted@)[i as int] == name@);
        if !name.is_empty() {
            let id = node_kind_id(project, name, NodeKind::Dependency);
            let node = Node {
                id: copy(id.as_str()),
                kind: NodeKind::Dependency,
                qualified_name: copy(name),
                name: copy(name),
                file_path: None,
                span: None,
                metadata: Metadata::new(),
            };
            graph.insert_node(node);
            graph.push_relation(Relation::plain(project_id, id.as_str(), RelationKind::DependsOn));
        }
        i += 1;
    }
}

}
