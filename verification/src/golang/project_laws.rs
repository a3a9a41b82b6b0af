//! What reading a Go project promises.

use vstd::prelude::*;

use crate::adapter::{file_node, located, with_file_node, FileBoundariesView};
use crate::adapter_laws::{files_are_contained, graph_grown};
use crate::golang::adapter::{
    file_context, package_id, package_node, package_of, root_built, roots_built, with_bound, with_package, with_source, with_sources,
    GoBuild, GoRootView, GoSourceView,
};
use crate::golang::boundary::{ports_in, Q_GRPC_CLIENT_ASSIGN, Q_SELECTOR_CALL};
use crate::golang::resolver::{answer_in, cache_from, cached, target_origin, AnswerView, BaseView};
use crate::golang::structure_laws::{declarations_add, grown};
use crate::golang::visitor::{with_declarations, with_file, GoImportView, GoState};
use crate::graph::{added_nodes_are_found, ids_find_nodes, node_at, GraphView};
use crate::ids::kind_id;
use crate::index::table_get;
use crate::node::NodeKind;
use crate::paths::{base, below_dir, directory, relative_path, segments, under_dir};
use crate::relation::{RelationKind, RelationView};
use crate::selection::{goes_on, going_on_keeps};
use crate::string_laws::numbers_are_read_back;
use crate::strings::{decimal, pieces};
use crate::tree::{parsed_hits, parsed_tree, Grammar, TreeView};

verus! {

/// The package of a file is its module at the root, and the directory below the module
/// elsewhere.
pub proof fn packages_follow_directories(path: Seq<char>, root: Seq<char>, module: Seq<char>, rel: Seq<char>)
    ensures
        below_dir(directory(path), root) == Some(rel) && rel.len() > 0 ==> package_of(path, root, module) == module + "/"@
            + rel,
        below_dir(directory(path), root) == Some(rel) && rel.len() == 0 ==> package_of(path, root, module) == module,
{
}

/// A package that is new becomes a module that the project contains; one that is known
/// changes nothing.
pub proof fn packages_are_contained(
    g: GraphView,
    packages: Seq<(Seq<char>, Seq<char>)>,
    project: Seq<char>,
    qname: Seq<char>,
    project_id: Seq<char>,
)
    ensures
        ({
            let after = with_package(g, packages, project, qname, project_id);
            let id = kind_id(project, qname, NodeKind::Module);
            &&& table_get(packages, qname) is Some ==> after == (g, packages)
            &&& table_get(packages, qname) is None ==> {
                &&& after.0.relations == g.relations.push(
                    RelationView { source_id: project_id, target_id: id, kind: RelationKind::Contains, metadata: Seq::empty() },
                )
                &&& node_at(after.0.nodes, id) is Some
                &&& node_at(g.nodes, id) is None ==> node_at(after.0.nodes, id)->0.kind is Module && node_at(
                    after.0.nodes,
                    id,
                )->0.qualified_name == qname
                &&& after.1 == packages.push((qname, id))
                &&& package_id(packages, project, qname) == id
            }
        }),
{
    let node = package_node(project, qname);
    added_nodes_are_found(g, node, node.id);
}

proof fn reading_adds(c: crate::golang::visitor::GoFileView, t: TreeView, st: GoState, list: Seq<usize>, k: int)
    requires
        0 <= k <= list.len(),
    ensures
        grown(st, with_declarations(c, t, st, list, k)),
    decreases k,
{
    if k > 0 {
        reading_adds(c, t, st, list, k - 1);
        declarations_add(c, t, with_declarations(c, t, st, list, k - 1), list[k - 1]);
    }
}

/// A source is a file of its package. Its uses are noted at its path, and its ports are kept
/// with the file; one that could not be read is listed and gives neither.
pub proof fn sources_are_read(project_root: Seq<char>, root: GoRootView, project_id: Seq<char>, b: GoBuild, f: GoSourceView)
    ensures
        ({
            let after = with_source(project_root, root, project_id, b, f);
            let rel = relative_path(f.path, project_root, root.dir);
            let file_id = kind_id(root.project(), rel, NodeKind::File);
            &&& node_at(after.graph.nodes, file_id) is Some
            &&& graph_grown(b.graph, after.graph)
            &&& f.source is None ==> after.uses == b.uses && after.ports == b.ports && after.imports == b.imports
            &&& f.source is Some ==> goes_on(b.uses, after.uses) && forall|i: int|
                b.uses.len() <= i < after.uses.len() ==> (#[trigger] after.uses[i]).0 == f.path
            &&& f.source is Some ==> ({
                let found = ports_in(
                    parsed_tree(Grammar::Go, f.source->0)->0,
                    parsed_hits(Grammar::Go, f.source->0, Q_SELECTOR_CALL@),
                    parsed_hits(Grammar::Go, f.source->0, Q_GRPC_CLIENT_ASSIGN@),
                );
                &&& found.len() > 0 ==> after.ports == b.ports.push(FileBoundariesView { file_rel: rel, file_id, refs: found })
                &&& found.len() == 0 ==> after.ports == b.ports
            })
        }),
{
    let c = file_context(project_root, root, f.path);
    let placed = with_package(b.graph, b.packages, c.project, c.package, project_id);
    let module_id = package_id(b.packages, c.project, c.package);
    packages_are_contained(b.graph, b.packages, c.project, c.package, project_id);
    let graph = with_file_node(placed.0, c.project, c.file_rel, base(f.path), module_id);
    files_are_contained(placed.0, c.project, c.file_rel, base(f.path), module_id);
    added_nodes_are_found(placed.0, file_node(c.project, c.file_rel, base(f.path)), c.file_id);
    let after = with_source(project_root, root, project_id, b, f);
    if f.source is Some {
        let t = parsed_tree(Grammar::Go, f.source->0)->0;
        let start = GoState { graph, occurrences: Seq::empty(), imports: b.imports };
        let read = with_file(c, t, start, 0);
        reading_adds(c, t, start, t.kids(0), t.kids(0).len() as int);
        ids_find_nodes(graph.nodes, c.file_id);
        ids_find_nodes(read.graph.nodes, c.file_id);
        let i = choose|i: int| 0 <= i < graph.nodes.len() && (#[trigger] graph.nodes[i]).id == c.file_id;
        assert(read.graph.nodes[i].id == c.file_id);
        let more = located(f.path, read.occurrences);
        assert forall|i: int| b.uses.len() <= i < after.uses.len() implies (#[trigger] after.uses[i]).0 == f.path by {
            assert(after.uses[i] == more[i - b.uses.len()]);
        }
    }
}

proof fn binding_adds(g: GraphView, project: Seq<char>, packages: Seq<(Seq<char>, Seq<char>)>, imports: Seq<GoImportView>, j: int, n: int)
    requires
        0 <= j <= n <= imports.len(),
    ensures
        graph_grown(with_bound(g, project, packages, imports, j), with_bound(g, project, packages, imports, n)),
    decreases n,
{
    if j < n {
        binding_adds(g, project, packages, imports, j, n - 1);
    }
}

/// An import of the project's own leads to the package of its path: the file imports it and
/// the import resolves to it. A path without a package becomes a symbol outside.
pub proof fn own_imports_lead_to_their_package(
    g: GraphView,
    project: Seq<char>,
    packages: Seq<(Seq<char>, Seq<char>)>,
    imports: Seq<GoImportView>,
    n: int,
    j: int,
)
    requires
        0 <= j < n <= imports.len(),
    ensures
        ({
            let i = imports[j];
            let target = match table_get(packages, i.path) {
                Some(id) => id,
                None => kind_id(project, i.path, NodeKind::ExternalSymbol),
            };
            let after = with_bound(g, project, packages, imports, n);
            &&& after.relations.contains(
                RelationView { source_id: i.file_id, target_id: target, kind: RelationKind::Imports, metadata: Seq::empty() },
            )
            &&& after.relations.contains(
                RelationView { source_id: i.import_id, target_id: target, kind: RelationKind::ResolvesTo, metadata: Seq::empty() },
            )
        }),
{
    binding_adds(g, project, packages, imports, j + 1, n);
    let edges = with_bound(g, project, packages, imports, j + 1).relations;
    let a = edges[edges.len() - 2];
    let b = edges[edges.len() - 1];
    assert(edges.contains(a) && edges.contains(b));
    going_on_keeps(edges, with_bound(g, project, packages, imports, n).relations, a);
    going_on_keeps(edges, with_bound(g, project, packages, imports, n).relations, b);
}

proof fn cache_is_found(parts: Seq<Seq<char>>, i: int)
    requires
        0 <= i,
    ensures
        cache_from(parts, i) <==> exists|j: int| i <= j < parts.len() - 1 && #[trigger] parts[j] == "pkg"@ && parts[j + 1] == "mod"@,
    decreases parts.len() - i,
{
    if i + 1 < parts.len() {
        cache_is_found(parts, i + 1);
    }
}

/// A target in the module cache is a third party's, whatever else holds it; else one below
/// the project is the project's own, and one below the installation is the standard
/// library's.
pub proof fn targets_belong_to_what_holds_them(given: Seq<char>, root: BaseView, goroot: BaseView, j: int)
    ensures
        0 <= j < segments(given).len() - 1 && segments(given)[j] == "pkg"@ && segments(given)[j + 1] == "mod"@ ==> target_origin(
            given,
            given,
            Some(root),
            Some(goroot),
        ) == "third_party"@,
        !cached(given) && under_dir(given, root.given) ==> target_origin(given, given, Some(root), Some(goroot)) == "internal"@,
        !cached(given) && !under_dir(given, root.given) && !under_dir(given, root.resolved) && under_dir(given, goroot.given)
            ==> target_origin(given, given, Some(root), Some(goroot)) == "stdlib"@,
        !cached(given) && !under_dir(given, root.given) && !under_dir(given, root.resolved) && !under_dir(given, goroot.given)
            && !under_dir(given, goroot.resolved) ==> target_origin(given, given, Some(root), Some(goroot)) == "unknown"@,
        target_origin(given, given, None, None) != "internal"@,
{
    cache_is_found(segments(given), 0);
    reveal_strlit("third_party");
    reveal_strlit("internal");
    reveal_strlit("unknown");
    assert("third_party"@.len() != "internal"@.len());
    assert("unknown"@.len() != "internal"@.len());
}

/// Every source of a root is a file of the graph, and what was read before it stays.
pub proof fn all_sources_are_read(project_root: Seq<char>, root: GoRootView, project_id: Seq<char>, b: GoBuild, n: int, j: int)
    requires
        0 <= j < n <= root.files.len(),
    ensures
        ({
            let after = with_sources(project_root, root, project_id, b, n);
            let rel = relative_path(root.files[j].path, project_root, root.dir);
            &&& node_at(after.graph.nodes, kind_id(root.project(), rel, NodeKind::File)) is Some
            &&& graph_grown(b.graph, after.graph)
            &&& goes_on(b.uses, after.uses)
        }),
    decreases n,
{
    let before = with_sources(project_root, root, project_id, b, n - 1);
    let after = with_sources(project_root, root, project_id, b, n);
    sources_are_read(project_root, root, project_id, before, root.files[n - 1]);
    if n > 1 {
        all_sources_are_read(project_root, root, project_id, b, n - 1, if j < n - 1 {
            j
        } else {
            0
        });
    } else {
        assert(before == b);
    }
    if j < n - 1 {
        let id = kind_id(root.project(), relative_path(root.files[j].path, project_root, root.dir), NodeKind::File);
        ids_find_nodes(before.graph.nodes, id);
        ids_find_nodes(after.graph.nodes, id);
        let i = choose|i: int| 0 <= i < before.graph.nodes.len() && (#[trigger] before.graph.nodes[i]).id == id;
        assert(after.graph.nodes[i].id == id);
    }
}

/// Every root of a project is built, in order and under its own name.
pub proof fn all_roots_are_built(project_root: Seq<char>, roots: Seq<GoRootView>, n: int, i: int)
    requires
        0 <= i < n <= roots.len(),
    ensures
        roots_built(project_root, roots, n).1.len() == n,
        roots_built(project_root, roots, n).1[i].project == roots[i].project(),
    decreases n,
{
    if n > 1 {
        all_roots_are_built(project_root, roots, n - 1, if i < n - 1 {
            i
        } else {
            0
        });
    } else {
        assert(roots_built(project_root, roots, 0).1.len() == 0);
    }
    let earlier = roots_built(project_root, roots, n - 1);
    let one = root_built(project_root, earlier.0, roots[n - 1]);
    reveal(root_built);
    assert(roots_built(project_root, roots, n).1 == earlier.1.push(one.1));
    assert(one.1.project == roots[n - 1].project());
}

/// An answer is a path, a line and a column, parted by tabs.
pub proof fn answers_are_read_back(raw: Seq<char>, path: Seq<char>, line: u32, col: u32)
    requires
        pieces(raw, '\t') == seq![path, decimal(line as nat), decimal(col as nat)],
    ensures
        path.len() > 0 ==> answer_in(raw) == Some(AnswerView { path, line, col }),
        path.len() == 0 ==> answer_in(raw) is None,
{
    numbers_are_read_back(line as nat);
    numbers_are_read_back(col as nat);
    let parts = pieces(raw, '\t');
    assert(parts[0] == path && parts[1] == decimal(line as nat) && parts[2] == decimal(col as nat));
}

}
