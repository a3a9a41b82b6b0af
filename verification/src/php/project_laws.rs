//! What reading a PHP project promises.

use vstd::prelude::*;

use crate::adapter::{file_node, located, shown_path, with_file_node, FileBoundariesView};
use crate::adapter_laws::{files_are_contained, graph_grown};
use crate::graph::{added_nodes_are_found, ids_find_nodes, node_at};
use crate::ids::kind_id;
use crate::index::table_get;
use crate::node::NodeKind;
use crate::paths::{base, placed_below, relative_path};
use crate::php::adapter::{
    answers_to, chain_after, container_of, file_context, namespace_node, php_status, root_built, roots_built, with_source, with_sources,
    ModuleChain, PhpBuild, PhpRootView,
};
use crate::php::boundary::source_ports;
use crate::php::names::file_namespace;
use crate::php::resolver::{rebased, IndexedView, PhpSourceView};
use crate::php::structure_laws::{grown, visiting_adds};
use crate::php::symbols::{AnswerView, SiteView};
use crate::php::uses::answer_at;
use crate::php::visitor::{file_start, with_file, FrameView};
use crate::occurrence::OccurrenceView;
use crate::relation::{RelationKind, RelationView};
use crate::selection::goes_on;
use crate::strings::joined;

verus! {

/// A part of a namespace that is new becomes a module that the part before it contains, and
/// the first part one that the project contains; a part that is known is gone through.
pub proof fn namespaces_are_modules(start: ModuleChain, project: Seq<char>, parts: Seq<Seq<char>>, n: int)
    requires
        0 < n <= parts.len(),
    ensures
        ({
            let before = chain_after(start, project, parts, n - 1);
            let after = chain_after(start, project, parts, n);
            let qname = joined(parts.take(n), "\\"@);
            let id = kind_id(project, qname, NodeKind::Module);
            &&& table_get(before.modules, qname) is Some ==> after.graph == before.graph && after.parent == table_get(
                before.modules,
                qname,
            )->0
            &&& table_get(before.modules, qname) is None ==> {
                &&& after.parent == id
                &&& after.modules == before.modules.push((qname, id))
                &&& after.graph.relations == before.graph.relations.push(
                    RelationView {
                        source_id: before.parent,
                        target_id: id,
                        kind: RelationKind::Contains,
                        metadata: Seq::empty(),
                    },
                )
                &&& node_at(after.graph.nodes, id) is Some
                &&& node_at(before.graph.nodes, id) is None ==> ({
                    let x = node_at(after.graph.nodes, id)->0;
                    x.kind is Module && x.qualified_name == qname && x.name == parts[n - 1]
                })
            }
        }),
        chain_after(start, project, parts, 0) == start,
{
    let before = chain_after(start, project, parts, n - 1);
    let node = namespace_node(project, joined(parts.take(n), "\\"@), parts[n - 1]);
    added_nodes_are_found(before.graph, node, node.id);
}

/// A source is a file of the module of its namespace. Its uses are noted at its path, and
/// its ports are kept with the file; a source without a tree gives nothing.
pub proof fn sources_are_read(
    project_root: Seq<char>,
    root: PhpRootView,
    project_id: Seq<char>,
    modules: Seq<(Seq<char>, Seq<char>)>,
    b: PhpBuild,
    f: PhpSourceView,
)
    ensures
        ({
            let after = with_source(project_root, root, project_id, modules, b, f);
            let rel = relative_path(f.path, project_root, root.dir);
            let file_id = kind_id(root.project(), rel, NodeKind::File);
            &&& f.tree() is None ==> after == b
            &&& f.tree() is Some ==> {
                let t = f.tree()->0;
                let found = source_ports(t, f.source->0) + f.extra;
                &&& node_at(after.graph.nodes, file_id) is Some
                &&& graph_grown(b.graph, after.graph)
                &&& goes_on(b.uses, after.uses)
                &&& forall|i: int| b.uses.len() <= i < after.uses.len() ==> (#[trigger] after.uses[i]).0 == f.path
                &&& found.len() > 0 ==> after.ports == b.ports.push(
                    FileBoundariesView { file_rel: rel, file_id, refs: found },
                )
                &&& found.len() == 0 ==> after.ports == b.ports
                &&& node_at(b.graph.nodes, file_id) is None ==> after.graph.relations[b.graph.relations.len() as int] == (
                RelationView {
                    source_id: match table_get(modules, file_namespace(t, 0)) {
                        Some(id) => id,
                        None => project_id,
                    },
                    target_id: file_id,
                    kind: RelationKind::Contains,
                    metadata: Seq::empty(),
                })
            }
        }),
{
    if f.tree() is Some {
        let t = f.tree()->0;
        let c = file_context(project_root, root, modules, f.path);
        let namespace = file_namespace(t, 0);
        let container = container_of(modules, namespace, project_id);
        let listed = with_file_node(b.graph, c.project, c.file_rel, base(f.path), container);
        files_are_contained(b.graph, c.project, c.file_rel, base(f.path), container);
        added_nodes_are_found(b.graph, file_node(c.project, c.file_rel, base(f.path)), c.file_id);
        let frame = FrameView { container: c.file_id, kind: NodeKind::File };
        visiting_adds(t, c, frame, file_start(listed, namespace), 0);
        let read = with_file(t, c, listed, namespace, 0);
        assert(grown(file_start(listed, namespace), read));
        ids_find_nodes(listed.nodes, c.file_id);
        ids_find_nodes(read.graph.nodes, c.file_id);
        let i = choose|i: int| 0 <= i < listed.nodes.len() && (#[trigger] listed.nodes[i]).id == c.file_id;
        assert(read.graph.nodes[i].id == c.file_id);
        let after = with_source(project_root, root, project_id, modules, b, f);
        let more = located(f.path, read.uses);
        assert forall|i: int| b.uses.len() <= i < after.uses.len() implies (#[trigger] after.uses[i]).0 == f.path by {
            assert(after.uses[i] == more[i - b.uses.len()]);
        }
        if node_at(b.graph.nodes, c.file_id) is None {
            let k = b.graph.relations.len() as int;
            assert(read.graph.relations[k] == listed.relations[k]);
        }
    }
}

/// Every place of use gets the answer of the index for it.
pub proof fn uses_are_asked_in_order(x: IndexedView, uses: Seq<(Seq<char>, OccurrenceView)>, i: int)
    requires
        0 <= i < uses.len(),
    ensures
        answers_to(x, uses).len() == uses.len(),
        answers_to(x, uses)[i] == x.resolved(uses[i].0, uses[i].1.line, uses[i].1.col),
{
}

/// An answer inside the project becomes a place below its root, and one outside a name with
/// its origin. Without an index nothing is answered.
pub proof fn answers_become_references(x: IndexedView, root: Seq<char>, file: Seq<char>, line: u32, col: u32, site: SiteView, name: Seq<char>, origin: Seq<char>)
    ensures
        x.root is None ==> x.resolved(file, line, col) is None,
        x.root == Some(root) && answer_at(x.answers, shown_path(file, root), line, col) is None ==> x.resolved(
            file,
            line,
            col,
        ) is None,
        x.root == Some(root) && answer_at(x.answers, shown_path(file, root), line, col) == Some(AnswerView::Internal(site))
            ==> {
            let r = x.resolved(file, line, col);
            r is Some && r->0.origin == "internal"@ && r->0.file_path == Some(placed_below(root, site.path)) && r->0.line
                == site.line && r->0.col == site.col
        },
        x.root == Some(root) && answer_at(x.answers, shown_path(file, root), line, col) == Some(
            AnswerView::External(name, origin),
        ) ==> {
            let r = x.resolved(file, line, col);
            r is Some && r->0.origin == origin && r->0.full_name == name && r->0.file_path is None
        },
{
}

/// A table of symbols is never complete: with a document it is degraded, and without one it
/// is unavailable.
pub proof fn tables_are_never_complete(index: Option<IndexedView>)
    ensures
        index is None ==> php_status(index) is Unavailable,
        index is Some && index->0.docs.len() == 0 ==> php_status(index) is Unavailable,
        index is Some && index->0.docs.len() > 0 ==> php_status(index) is Degraded,
        !(php_status(index) is Complete),
{
}

/// The directory of a map stands below the directory of its manifest.
pub proof fn maps_stand_below_their_manifest(base: Seq<char>, dir: Seq<char>)
    ensures
        base.len() > 0 && dir.len() > 0 ==> rebased(base, dir) == base + "/"@ + dir,
        base.len() == 0 ==> rebased(base, dir) == dir,
        base.len() > 0 && dir.len() == 0 ==> rebased(base, dir) == base,
{
}

/// Every source with a tree is a file of the graph, and what was read before it stays.
pub proof fn all_sources_are_read(
    project_root: Seq<char>,
    root: PhpRootView,
    project_id: Seq<char>,
    modules: Seq<(Seq<char>, Seq<char>)>,
    b: PhpBuild,
    n: int,
    j: int,
)
    requires
        0 <= j < n <= root.files.len(),
    ensures
        ({
            let after = with_sources(project_root, root, project_id, modules, b, n);
            let rel = relative_path(root.files[j].path, project_root, root.dir);
            &&& root.files[j].tree() is Some ==> node_at(after.graph.nodes, kind_id(root.project(), rel, NodeKind::File)) is Some
            &&& graph_grown(b.graph, after.graph)
            &&& goes_on(b.uses, after.uses)
        }),
    decreases n,
{
    let before = with_sources(project_root, root, project_id, modules, b, n - 1);
    let after = with_sources(project_root, root, project_id, modules, b, n);
    sources_are_read(project_root, root, project_id, modules, before, root.files[n - 1]);
    if n > 1 {
        all_sources_are_read(project_root, root, project_id, modules, b, n - 1, if j < n - 1 {
            j
        } else {
            0
        });
    } else {
        assert(before == b);
    }
    if j < n - 1 && root.files[j].tree() is Some {
        let id = kind_id(root.project(), relative_path(root.files[j].path, project_root, root.dir), NodeKind::File);
        ids_find_nodes(before.graph.nodes, id);
        ids_find_nodes(after.graph.nodes, id);
        let i = choose|i: int| 0 <= i < before.graph.nodes.len() && (#[trigger] before.graph.nodes[i]).id == id;
        assert(after.graph.nodes[i].id == id);
    }
}

/// Every root of a project is built, in order and under its own name.
pub proof fn all_roots_are_built(project_root: Seq<char>, roots: Seq<PhpRootView>, n: int, i: int)
    requires
        0 <= i < n <= roots.len(),
    ensures
        roots_built(project_root, roots, n).1.len() == n,
        roots_built(project_root, roots, n).1[i].project == roots[i].project(),
    decreases n,
{
    if n > 1 {
        all_roots_are_built(project_root, roots, n - 1, if i < n - 1 {
            i
        } else {
            0
        });
    } else {
        assert(roots_built(project_root, roots, 0).1.len() == 0);
    }
    let earlier = roots_built(project_root, roots, n - 1);
    let one = root_built(project_root, earlier.0, roots[n - 1]);
    reveal(root_built);
    assert(roots_built(project_root, roots, n).1 == earlier.1.push(one.1));
    assert(one.1.project == roots[n - 1].project());
}

}
