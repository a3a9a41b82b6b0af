//! What reading and resolving a project promise, whatever its language.

use vstd::prelude::*;

use crate::adapter::{
    answer_lists, boundary_edge, boundary_node, completed, counters_of, definition_at, edge_of_role, enclosers,
    enclosing, external_name, external_node, innermost, name_over, name_range, named_in, pass_after, pass_step,
    passes_after, place_key, shown_path, starts_no_earlier, total_uses, use_metadata, with_all_ports, with_boundary,
    with_file_node, with_ports, with_root_ports, BuiltView, FileBoundariesView, Pass, PassContext, Resolution,
    ResolvedView,
};
use crate::boundaries::BoundaryView;
use crate::graph::{added_nodes_are_found, ids_find_nodes, node_at, GraphView};
use crate::ids::{id_of_boundary, kind_id};
use crate::meta::{lookup, stored, stored_then_found, MetaView, ValueView};
use crate::metrics::ResolverMetrics;
use crate::node::{NodeKind, NodeView};
use crate::occurrence::OccurrenceView;
use crate::relation::{RelationKind, RelationView};
use crate::selection::{goes_on, going_on_keeps};
use crate::span::Span;

verus! {

// ---------------------------------------------------------------------------
// Definitions and enclosing functions
// ---------------------------------------------------------------------------

/// Whether the name of a node stands over a place of a file.
pub open spec fn name_stands_over(n: NodeView, file: Seq<char>, line: u32, col: u32) -> bool {
    n.file_path == Some(file) && match lookup(n.metadata, "name_span"@) {
        Some(ValueView::Place(p)) => p.holds(line, col),
        _ => false,
    }
}

proof fn named_are_in_order(nodes: Seq<NodeView>, file: Seq<char>, n: int)
    requires
        0 <= n <= nodes.len(),
        nodes.len() <= usize::MAX,
    ensures
        forall|i: int| 0 <= i < named_in(nodes, file, n).len() ==> (#[trigger] named_in(nodes, file, n)[i]) < n && nodes[
            named_in(nodes, file, n)[i] as int
        ].file_path == Some(file),
        forall|x: int|
            0 <= x < n && (#[trigger] nodes[x]).file_path == Some(file) && name_range(nodes[x]) is Some ==> named_in(
                nodes,
                file,
                n,
            ).contains(x as usize),
    decreases n,
{
    if n > 0 {
        named_are_in_order(nodes, file, n - 1);
        let a = named_in(nodes, file, n - 1);
        let b = named_in(nodes, file, n);
        assert forall|x: int|
            0 <= x < n && (#[trigger] nodes[x]).file_path == Some(file) && name_range(nodes[x]) is Some implies b.contains(
            x as usize,
        ) by {
            if x < n - 1 {
                assert(a.contains(x as usize));
                let i = choose|i: int| 0 <= i < a.len() && a[i] == x as usize;
                assert(b[i] == x as usize);
            } else {
                assert(b[b.len() - 1] == x as usize);
            }
        }
        assert forall|i: int| 0 <= i < b.len() implies (#[trigger] b[i]) < n && nodes[b[i] as int].file_path == Some(file) by {
            if i < a.len() {
                assert(b[i] == a[i]);
            }
        }
    }
}

proof fn over_is_found(nodes: Seq<NodeView>, list: Seq<usize>, line: u32, col: u32, k: int)
    requires
        0 <= k <= list.len(),
    ensures
        match name_over(nodes, list, line, col, k) {
            Some(id) => exists|i: int|
                k <= i < list.len() && ({
                    let x = nodes[#[trigger] list[i] as int];
                    x.id == id && name_range(x) is Some && name_range(x)->0.holds(line, col)
                }),
            None => forall|i: int|
                k <= i < list.len() ==> ({
                    let x = nodes[#[trigger] list[i] as int];
                    name_range(x) is None || !name_range(x)->0.holds(line, col)
                }),
        },
    decreases list.len() - k,
{
    if k < list.len() {
        over_is_found(nodes, list, line, col, k + 1);
        let x = nodes[list[k] as int];
        if name_range(x) is Some && name_range(x)->0.holds(line, col) {
            assert(k <= k < list.len());
        }
    }
}

/// A place leads to a node whose name stands over it, and to none where no name of the file
/// does.
pub proof fn places_lead_to_the_name_over_them(nodes: Seq<NodeView>, file: Seq<char>, line: u32, col: u32)
    requires
        nodes.len() <= usize::MAX,
    ensures
        match definition_at(nodes, file, line, col) {
            Some(id) => exists|i: int|
                0 <= i < nodes.len() && (#[trigger] nodes[i]).id == id && name_stands_over(nodes[i], file, line, col),
            None => forall|i: int| 0 <= i < nodes.len() ==> !name_stands_over(#[trigger] nodes[i], file, line, col),
        },
{
    let n = nodes.len() as int;
    let list = named_in(nodes, file, n);
    named_are_in_order(nodes, file, n);
    over_is_found(nodes, list, line, col, 0);
    match definition_at(nodes, file, line, col) {
        Some(id) => {
            let i = choose|i: int|
                0 <= i < list.len() && ({
                    let x = nodes[#[trigger] list[i] as int];
                    x.id == id && name_range(x) is Some && name_range(x)->0.holds(line, col)
                });
            assert(nodes[list[i] as int].id == id);
        },
        None => {
            assert forall|i: int| 0 <= i < nodes.len() implies !name_stands_over(#[trigger] nodes[i], file, line, col) by {
                if name_stands_over(nodes[i], file, line, col) {
                    assert(list.contains(i as usize));
                    let j = choose|j: int| 0 <= j < list.len() && list[j] == i as usize;
                    assert(nodes[list[j] as int] == nodes[i]);
                }
            }
        },
    }
}

/// Whether a node is a function or method of a file whose range holds a place.
pub open spec fn encloses(n: NodeView, file: Seq<char>, line: u32, col: u32) -> bool {
    (n.kind is Function || n.kind is Method) && n.file_path == Some(file) && n.span is Some && n.span->0.holds(line, col)
}

spec fn comes_from(nodes: Seq<NodeView>, file: Seq<char>, n: int, e: (Seq<char>, Span)) -> bool {
    exists|x: int|
        0 <= x < n && (#[trigger] nodes[x]).id == e.0 && nodes[x].span == Some(e.1) && nodes[x].file_path == Some(file) && (
        nodes[x].kind is Function || nodes[x].kind is Method)
}

proof fn candidates_enclose(nodes: Seq<NodeView>, file: Seq<char>, n: int)
    requires
        0 <= n <= nodes.len(),
    ensures
        forall|i: int|
            0 <= i < enclosers(nodes, file, n).len() ==> comes_from(nodes, file, n, #[trigger] enclosers(nodes, file, n)[i]),
        forall|x: int|
            0 <= x < n && ((#[trigger] nodes[x]).kind is Function || nodes[x].kind is Method) && nodes[x].file_path == Some(
                file,
            ) && nodes[x].span is Some ==> enclosers(nodes, file, n).contains((nodes[x].id, nodes[x].span->0)),
    decreases n,
{
    if n > 0 {
        candidates_enclose(nodes, file, n - 1);
        let a = enclosers(nodes, file, n - 1);
        let b = enclosers(nodes, file, n);
        assert forall|i: int| 0 <= i < b.len() implies comes_from(nodes, file, n, #[trigger] b[i]) by {
            if i < a.len() {
                assert(b[i] == a[i]);
                assert(comes_from(nodes, file, n - 1, a[i]));
                let x = choose|x: int|
                    0 <= x < n - 1 && (#[trigger] nodes[x]).id == a[i].0 && nodes[x].span == Some(a[i].1)
                        && nodes[x].file_path == Some(file) && (nodes[x].kind is Function || nodes[x].kind is Method);
                assert(nodes[x].id == b[i].0);
            } else {
                assert(nodes[n - 1].id == b[i].0);
            }
        }
        assert forall|x: int|
            0 <= x < n && ((#[trigger] nodes[x]).kind is Function || nodes[x].kind is Method) && nodes[x].file_path == Some(
                file,
            ) && nodes[x].span is Some implies b.contains((nodes[x].id, nodes[x].span->0)) by {
            if x < n - 1 {
                let e = (nodes[x].id, nodes[x].span->0);
                assert(a.contains(e));
                let i = choose|i: int| 0 <= i < a.len() && a[i] == e;
                assert(b[i] == e);
            } else {
                assert(b[b.len() - 1] == (nodes[x].id, nodes[x].span->0));
            }
        }
    }
}

proof fn innermost_is_last(candidates: Seq<(Seq<char>, Span)>, line: u32, col: u32, n: int)
    requires
        0 <= n <= candidates.len(),
    ensures
        match innermost(candidates, line, col, n) {
            Some(c) => c.1.holds(line, col) && (exists|i: int| 0 <= i < n && #[trigger] candidates[i] == c) && forall|i: int|
                0 <= i < n && (#[trigger] candidates[i]).1.holds(line, col) ==> starts_no_earlier(c.1, candidates[i].1),
            None => forall|i: int| 0 <= i < n ==> !(#[trigger] candidates[i]).1.holds(line, col),
        },
    decreases n,
{
    if n > 0 {
        innermost_is_last(candidates, line, col, n - 1);
        assert(candidates[n - 1] == candidates[n - 1]);
    }
}

/// A place belongs to the function or method of its file that holds it and starts last, and
/// to the file where none holds it.
pub proof fn places_belong_to_the_innermost_function(nodes: Seq<NodeView>, file: Seq<char>, file_id: Seq<char>, line: u32, col: u32)
    ensures
        ({
            let r = enclosing(nodes, file, file_id, line, col);
            &&& (forall|i: int| 0 <= i < nodes.len() ==> !encloses(#[trigger] nodes[i], file, line, col)) ==> r == file_id
            &&& (exists|i: int| 0 <= i < nodes.len() && encloses(#[trigger] nodes[i], file, line, col)) ==> exists|i: int|
                0 <= i < nodes.len() && (#[trigger] nodes[i]).id == r && encloses(nodes[i], file, line, col) && forall|j: int|
                    0 <= j < nodes.len() && encloses(#[trigger] nodes[j], file, line, col) ==> starts_no_earlier(
                        nodes[i].span->0,
                        nodes[j].span->0,
                    )
        }),
{
    let n = nodes.len() as int;
    let all = enclosers(nodes, file, n);
    candidates_enclose(nodes, file, n);
    innermost_is_last(all, line, col, all.len() as int);
    match innermost(all, line, col, all.len() as int) {
        Some(c) => {
            let k = choose|k: int| 0 <= k < all.len() && #[trigger] all[k] == c;
            assert(comes_from(nodes, file, n, all[k]));
            let x = choose|x: int|
                0 <= x < n && (#[trigger] nodes[x]).id == all[k].0 && nodes[x].span == Some(all[k].1) && nodes[x].file_path
                    == Some(file) && (nodes[x].kind is Function || nodes[x].kind is Method);
            assert(encloses(nodes[x], file, line, col));
            assert forall|j: int| 0 <= j < nodes.len() && encloses(#[trigger] nodes[j], file, line, col) implies starts_no_earlier(
                nodes[x].span->0,
                nodes[j].span->0,
            ) by {
                let e = (nodes[j].id, nodes[j].span->0);
                assert(all.contains(e));
                let i = choose|i: int| 0 <= i < all.len() && all[i] == e;
                assert(all[i].1.holds(line, col));
            }
        },
        None => {
            assert forall|j: int| 0 <= j < nodes.len() implies !encloses(#[trigger] nodes[j], file, line, col) by {
                if encloses(nodes[j], file, line, col) {
                    let e = (nodes[j].id, nodes[j].span->0);
                    assert(all.contains(e));
                    let i = choose|i: int| 0 <= i < all.len() && all[i] == e;
                    assert(!all[i].1.holds(line, col));
                }
            }
        },
    }
}

// ---------------------------------------------------------------------------
// Uses
// ---------------------------------------------------------------------------

/// Whether a graph holds all that another one holds, in its place.
pub open spec fn graph_grown(a: GraphView, b: GraphView) -> bool {
    goes_on(a.nodes, b.nodes) && goes_on(a.relations, b.relations) && a.metadata == b.metadata
}

/// The edge of a use says where the use stands, and of a read or a write which of the two it
/// is.
pub proof fn edges_say_where_the_use_stands(o: OccurrenceView)
    ensures
        lookup(use_metadata(o), "span"@) == Some(ValueView::Place(o.span)),
        o.role == "read"@ || o.role == "write"@ ==> lookup(use_metadata(o), "access"@) == Some(ValueView::Text(o.role)),
        o.role != "read"@ && o.role != "write"@ ==> lookup(use_metadata(o), "access"@) is None,
{
    reveal_strlit("span");
    reveal_strlit("access");
    assert("span"@.len() != "access"@.len());
    let none: MetaView = Seq::empty();
    stored_then_found(none, "span"@, ValueView::Place(o.span), "access"@);
    let first = stored(none, "span"@, ValueView::Place(o.span));
    stored_then_found(first, "access"@, ValueView::Text(o.role), "span"@);
}

/// A use that is answered becomes an edge of the kind that its role means, from where it
/// stands: to the definition where the project holds it, and to a symbol outside where it
/// does not. A use without an answer becomes nothing but a count.
pub proof fn answered_uses_become_edges(c: PassContext, p: Pass, file: Seq<char>, o: OccurrenceView, a: ResolvedView, kind: RelationKind)
    requires
        edge_of_role(o.role) == Some(kind),
    ensures
        ({
            let after = pass_step(c, p, file, o, Some(a));
            let inside = a.origin == "internal"@ && a.file_path is Some && definition_at(
                c.nodes,
                shown_path(a.file_path->0, c.project_root),
                a.line,
                a.col,
            ) is Some;
            let edge = after.graph.relations.last();
            &&& after.graph.relations.len() == p.graph.relations.len() + 1
            &&& goes_on(p.graph.relations, after.graph.relations)
            &&& edge.source_id == o.enclosing_id
            &&& edge.kind == kind
            &&& edge.metadata == use_metadata(o)
            &&& after.resolved == p.resolved + 1
            &&& after.unresolved == p.unresolved
            &&& inside ==> edge.target_id == definition_at(
                c.nodes,
                shown_path(a.file_path->0, c.project_root),
                a.line,
                a.col,
            )->0 && after.internal == p.internal + 1 && after.external == p.external && after.graph.nodes == p.graph.nodes
            &&& !inside && a.full_name.len() > 0 ==> edge.target_id == kind_id(
                c.project,
                a.full_name,
                NodeKind::ExternalSymbol,
            )
            &&& !inside && a.full_name.len() == 0 ==> edge.target_id == kind_id(
                c.project,
                place_key(shown_path(file, c.project_root), o),
                NodeKind::ExternalSymbol,
            )
            &&& !inside ==> after.internal == p.internal && after.external == p.external + 1 && node_at(
                after.graph.nodes,
                edge.target_id,
            ) is Some
        }),
        ({
            let after = pass_step(c, p, file, o, None);
            after.graph == p.graph && after.unresolved == p.unresolved + 1 && after.resolved == p.resolved
        }),
{
    let name = external_name(shown_path(file, c.project_root), o, a);
    let node = external_node(c.project, name, a.origin, c.separator);
    added_nodes_are_found(p.graph, node, node.id);
}

/// A pass keeps what the graph held, and what each of its steps added.
pub proof fn passes_keep_each_step(
    c: PassContext,
    g: GraphView,
    uses: Seq<(Seq<char>, OccurrenceView)>,
    answers: Seq<Option<ResolvedView>>,
    k: int,
    j: int,
)
    requires
        0 <= j <= k <= uses.len(),
    ensures
        graph_grown(pass_after(c, g, uses, answers, j).graph, pass_after(c, g, uses, answers, k).graph),
        graph_grown(g, pass_after(c, g, uses, answers, k).graph),
        j < k ==> graph_grown(
            pass_step(c, pass_after(c, g, uses, answers, j), uses[j].0, uses[j].1, answers[j]).graph,
            pass_after(c, g, uses, answers, k).graph,
        ),
    decreases k,
{
    if k > 0 {
        passes_keep_each_step(c, g, uses, answers, k - 1, if j < k {
            j
        } else {
            0
        });
    }
}

/// Each root of a project is resolved against the graph of all of them, under its own name.
pub proof fn roots_are_resolved_in_turn(
    project_root: Seq<char>,
    separator: Seq<char>,
    nodes: Seq<NodeView>,
    g: GraphView,
    built: Seq<BuiltView>,
    answers: Seq<Seq<Option<ResolvedView>>>,
    n: int,
)
    requires
        0 < n <= built.len(),
    ensures
        ({
            let before = passes_after(project_root, separator, nodes, g, built, answers, n - 1);
            let after = passes_after(project_root, separator, nodes, g, built, answers, n);
            let c = PassContext { project: built[n - 1].project, project_root, separator, nodes };
            let k = built[n - 1].occurrences.len() as int;
            &&& after.graph == pass_after(c, before.graph, built[n - 1].occurrences, answers[n - 1], k).graph
            &&& graph_grown(before.graph, after.graph)
            &&& after.resolved >= before.resolved
            &&& after.unresolved >= before.unresolved
        }),
{
    let before = passes_after(project_root, separator, nodes, g, built, answers, n - 1);
    let c = PassContext { project: built[n - 1].project, project_root, separator, nodes };
    let k = built[n - 1].occurrences.len() as int;
    passes_keep_each_step(c, before.graph, built[n - 1].occurrences, answers[n - 1], k, 0);
}

// ---------------------------------------------------------------------------
// Ports
// ---------------------------------------------------------------------------

/// A port of a server is exposed and any other port is consumed, by the function around it,
/// at the node of its contract and with its confidence.
pub proof fn servers_expose_and_clients_consume(g: GraphView, id: Seq<char>, b: BoundaryView)
    ensures
        ({
            let after = with_boundary(g, id, b);
            let edge = after.relations.last();
            &&& graph_grown(g, after)
            &&& after.relations.len() == g.relations.len() + 1
            &&& edge.source_id == id
            &&& edge.target_id == id_of_boundary(b.mechanism, b.key)
            &&& b.role == "server"@ ==> edge.kind is Exposes
            &&& b.role != "server"@ ==> edge.kind is Consumes
            &&& lookup(edge.metadata, "confidence"@) == Some(ValueView::Percent(b.confidence))
            &&& node_at(after.nodes, edge.target_id) is Some
            &&& node_at(g.nodes, edge.target_id) is None ==> ({
                let x = node_at(after.nodes, edge.target_id)->0;
                &&& x.kind is Boundary
                &&& x.name == b.key
                &&& x.qualified_name == b.key
                &&& lookup(x.metadata, "mechanism"@) == Some(ValueView::Text(b.mechanism))
                &&& lookup(x.metadata, "key"@) == Some(ValueView::Text(b.key))
            })
        }),
{
    let node = boundary_node(b);
    added_nodes_are_found(g, node, node.id);
    let none: MetaView = Seq::empty();
    stored_then_found(none, "confidence"@, ValueView::Percent(b.confidence), "confidence"@);
    stored_then_found(none, "mechanism"@, ValueView::Text(b.mechanism), "mechanism"@);
    let first = stored(none, "mechanism"@, ValueView::Text(b.mechanism));
    reveal_strlit("mechanism");
    reveal_strlit("key");
    assert("mechanism"@.len() != "key"@.len());
    stored_then_found(first, "key"@, ValueView::Text(b.key), "mechanism"@);
}

proof fn ports_add(g: GraphView, nodes: Seq<NodeView>, f: FileBoundariesView, j: int, k: int)
    requires
        0 <= j <= k <= f.refs.len(),
    ensures
        graph_grown(with_ports(g, nodes, f, j), with_ports(g, nodes, f, k)),
        with_ports(g, nodes, f, 0) == g,
    decreases k,
{
    if j < k {
        ports_add(g, nodes, f, j, k - 1);
    }
}

/// Every port of a file becomes an edge from the function around it.
pub proof fn ports_hang_on_the_function_around(g: GraphView, nodes: Seq<NodeView>, f: FileBoundariesView, k: int, j: int)
    requires
        0 <= j < k <= f.refs.len(),
    ensures
        with_ports(g, nodes, f, k).relations.contains(
            boundary_edge(enclosing(nodes, f.file_rel, f.file_id, f.refs[j].line, f.refs[j].col), f.refs[j]),
        ),
{
    ports_add(g, nodes, f, j + 1, k);
    let b = f.refs[j];
    let edge = boundary_edge(enclosing(nodes, f.file_rel, f.file_id, b.line, b.col), b);
    let edges = with_ports(g, nodes, f, j + 1).relations;
    assert(edges[edges.len() - 1] == edge);
    assert(edges.contains(edge));
    going_on_keeps(edges, with_ports(g, nodes, f, k).relations, edge);
}

proof fn files_add(g: GraphView, nodes: Seq<NodeView>, files: Seq<FileBoundariesView>, i: int, n: int)
    requires
        0 <= i <= n <= files.len(),
    ensures
        graph_grown(with_all_ports(g, nodes, files, i), with_all_ports(g, nodes, files, n)),
        with_all_ports(g, nodes, files, 0) == g,
    decreases n,
{
    if i < n {
        files_add(g, nodes, files, i, n - 1);
        ports_add(with_all_ports(g, nodes, files, n - 1), nodes, files[n - 1], 0, files[n - 1].refs.len() as int);
    }
}

/// Every port of every file becomes an edge from the function around it.
pub proof fn all_ports_hang_on_the_function_around(
    g: GraphView,
    nodes: Seq<NodeView>,
    files: Seq<FileBoundariesView>,
    n: int,
    i: int,
    j: int,
)
    requires
        0 <= i < n <= files.len(),
        0 <= j < files[i].refs.len(),
    ensures
        with_all_ports(g, nodes, files, n).relations.contains(
            boundary_edge(
                enclosing(nodes, files[i].file_rel, files[i].file_id, files[i].refs[j].line, files[i].refs[j].col),
                files[i].refs[j],
            ),
        ),
{
    let f = files[i];
    let before = with_all_ports(g, nodes, files, i);
    ports_hang_on_the_function_around(before, nodes, f, f.refs.len() as int, j);
    files_add(g, nodes, files, i + 1, n);
    going_on_keeps(
        with_all_ports(g, nodes, files, i + 1).relations,
        with_all_ports(g, nodes, files, n).relations,
        boundary_edge(enclosing(nodes, f.file_rel, f.file_id, f.refs[j].line, f.refs[j].col), f.refs[j]),
    );
}

/// The ports of every root are added to the graph of those before it.
pub proof fn roots_keep_their_ports(g: GraphView, built: Seq<BuiltView>, n: int, i: int)
    requires
        0 <= i <= n <= built.len(),
    ensures
        graph_grown(with_root_ports(g, built, i), with_root_ports(g, built, n)),
        graph_grown(g, with_root_ports(g, built, n)),
        i < n ==> graph_grown(
            with_all_ports(
                with_root_ports(g, built, i),
                with_root_ports(g, built, i).nodes,
                built[i].boundaries,
                built[i].boundaries.len() as int,
            ),
            with_root_ports(g, built, n),
        ),
    decreases n,
{
    if n > 0 {
        roots_keep_their_ports(g, built, n - 1, if i < n {
            i
        } else {
            0
        });
        let before = with_root_ports(g, built, n - 1);
        files_add(before, before.nodes, built[n - 1].boundaries, 0, built[n - 1].boundaries.len() as int);
    }
}

// ---------------------------------------------------------------------------
// Files
// ---------------------------------------------------------------------------

/// A file that is new stands in the graph under its path, contained by what it was added
/// to; one that is known changes nothing.
pub proof fn files_are_contained(g: GraphView, project: Seq<char>, file_rel: Seq<char>, name: Seq<char>, container: Seq<char>)
    ensures
        ({
            let id = kind_id(project, file_rel, NodeKind::File);
            let after = with_file_node(g, project, file_rel, name, container);
            &&& node_at(after.nodes, id) is Some
            &&& node_at(g.nodes, id) is Some ==> after == g
            &&& node_at(g.nodes, id) is None ==> ({
                let x = node_at(after.nodes, id)->0;
                &&& x.kind is File
                &&& x.qualified_name == file_rel
                &&& x.name == name
                &&& x.file_path == Some(file_rel)
                &&& after.relations == g.relations.push(
                    RelationView {
                        source_id: container,
                        target_id: id,
                        kind: RelationKind::Contains,
                        metadata: Seq::empty(),
                    },
                )
            })
        }),
{
    let node = crate::adapter::file_node(project, file_rel, name);
    added_nodes_are_found(g, node, node.id);
    ids_find_nodes(g.nodes, node.id);
}

// ---------------------------------------------------------------------------
// Outcomes
// ---------------------------------------------------------------------------

proof fn steps_are_counted_once(
    c: PassContext,
    g: GraphView,
    uses: Seq<(Seq<char>, OccurrenceView)>,
    answers: Seq<Option<ResolvedView>>,
    k: int,
)
    requires
        0 <= k <= uses.len(),
    ensures
        ({
            let p = pass_after(c, g, uses, answers, k);
            p.resolved + p.unresolved == k && p.internal + p.external <= p.resolved
        }),
    decreases k,
{
    if k > 0 {
        steps_are_counted_once(c, g, uses, answers, k - 1);
    }
}

/// Every use of every root is asked once and is either resolved or not; only a resolved one
/// leads inside or outside.
pub proof fn uses_are_counted_once(
    project_root: Seq<char>,
    separator: Seq<char>,
    nodes: Seq<NodeView>,
    g: GraphView,
    built: Seq<BuiltView>,
    answers: Seq<Seq<Option<ResolvedView>>>,
    n: int,
)
    requires
        0 <= n <= built.len(),
    ensures
        ({
            let p = passes_after(project_root, separator, nodes, g, built, answers, n);
            p.resolved + p.unresolved == total_uses(built, n) && p.internal + p.external <= p.resolved && graph_grown(g, p.graph)
        }),
        n > 0 ==> total_uses(built, n) == total_uses(built, n - 1) + built[n - 1].occurrences.len(),
    decreases n,
{
    if n > 0 {
        uses_are_counted_once(project_root, separator, nodes, g, built, answers, n - 1);
        roots_are_resolved_in_turn(project_root, separator, nodes, g, built, answers, n);
        let before = passes_after(project_root, separator, nodes, g, built, answers, n - 1);
        let c = PassContext { project: built[n - 1].project, project_root, separator, nodes };
        let k = built[n - 1].occurrences.len() as int;
        steps_are_counted_once(c, before.graph, built[n - 1].occurrences, answers[n - 1], k);
    }
}

/// A finished graph says how its resolution went: the status of the resolver, or that there
/// was none, and the counts of what was asked and answered. It keeps all that was read.
pub proof fn outcomes_are_noted(
    g: GraphView,
    project_root: Seq<char>,
    separator: Seq<char>,
    built: Seq<BuiltView>,
    resolution: Option<Resolution>,
    m: ResolverMetrics,
)
    requires
        lookup(completed(g, project_root, separator, built, resolution).metadata, "resolver_metrics"@) == Some(
            ValueView::Counters(m),
        ),
        total_uses(built, built.len() as int) <= u64::MAX,
    ensures
        ({
            let whole = completed(g, project_root, separator, built, resolution);
            let status = lookup(whole.metadata, "resolver_status"@);
            &&& goes_on(g.nodes, whole.nodes)
            &&& goes_on(g.relations, whole.relations)
            &&& resolution is None ==> status == Some(ValueView::Text("unavailable"@)) && m.queries == 0 && m.resolved == 0
                && m.unresolved == 0 && m.internal == 0 && m.external == 0 && m.micros == 0
            &&& resolution matches Some(r) ==> status == Some(ValueView::Text(r.status.name())) && m.micros == r.micros
                && m.queries == total_uses(built, built.len() as int) && m.resolved + m.unresolved == m.queries
                && m.internal + m.external <= m.resolved
        }),
{
    let n = built.len() as int;
    reveal_strlit("resolver_status");
    reveal_strlit("resolver_metrics");
    assert("resolver_status"@.len() == 15 && "resolver_metrics"@.len() == 16);
    match resolution {
        Some(r) => {
            let answers = answer_lists(r.answers@);
            let p = passes_after(project_root, separator, g.nodes, g, built, answers, n);
            uses_are_counted_once(project_root, separator, g.nodes, g, built, answers, n);
            let full = with_root_ports(p.graph, built, n);
            roots_keep_their_ports(p.graph, built, n, 0);
            let first = full.note("resolver_status"@, ValueView::Text(r.status.name()));
            let counters = ValueView::Counters(counters_of(p, total_uses(built, n), r.micros));
            stored_then_found(full.metadata, "resolver_status"@, ValueView::Text(r.status.name()), "resolver_metrics"@);
            stored_then_found(first.metadata, "resolver_metrics"@, counters, "resolver_status"@);
        },
        None => {
            let full = with_root_ports(g, built, n);
            roots_keep_their_ports(g, built, n, 0);
            let first = full.note("resolver_status"@, ValueView::Text("unavailable"@));
            stored_then_found(full.metadata, "resolver_status"@, ValueView::Text("unavailable"@), "resolver_metrics"@);
            stored_then_found(
                first.metadata,
                "resolver_metrics"@,
                ValueView::Counters(ResolverMetrics::zero()),
                "resolver_status"@,
            );
        },
    }
}

}
