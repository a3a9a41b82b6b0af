//! Analysis of a PHP project.
//!
//! A module is a namespace, and namespaces nest. Every namespace of a root has
//! its node before the first file is read, so that an import is bound alike
//! whichever file comes first.

use vstd::prelude::*;

use crate::adapter::{
    answer_lists, answer_views, complete, counters_of, ensure_file, ensure_project, locate, located, passes_after,
    project_node, strict_error, strict_message, total_uses, with_file_node, with_outcome, with_root_ports, BuiltRoot,
    BuiltView, FileBoundaries, FileBoundariesView, FileOccurrence, Resolution, ResolvedRef, ResolvedView,
};
use crate::boundaries::add_ports;
use crate::dependencies::{declare_dependencies, declared, sorted_names};
use crate::graph::{Graph, GraphView};
use crate::ids::{kind_id, node_kind_id};
use crate::index::{table_get, Table};
use crate::merge::without_repeats;
use crate::meta::Metadata;
use crate::metrics::ResolverMetrics;
use crate::node::{Node, NodeKind, NodeView};
use crate::occurrence::OccurrenceView;
use crate::paths::{base, base_name, relative_path, relative_to};
use crate::php::boundary::{parsed_boundaries, source_ports};
use crate::php::deps::{dependencies, internal_prefixes, ComposerFiles, ComposerView};
use crate::php::detector::{manifest_of, php_detect_project_name, php_name};
use crate::php::names::{file_namespace, has_php_statements, php_namespace};
use crate::php::resolver::{some_unparsed, status_of, IndexedView, PhpResolver, PhpSource, PhpSourceView};
use crate::php::visitor::{first_parts, visit_file, with_file, PhpFile, PhpFileView, PhpVisitor};
use crate::relation::{plain_edge, Relation, RelationKind};
use crate::status::ResolverStatus;
use crate::strings::{after_last, join, joined, pieces, split, tail_after};
use crate::text::{add_item, copy, opt_view, views};
use crate::tree::{parse, Grammar};

verus! {

/// A project root: its directory, its manifests, and its sources.
pub struct PhpRoot {
    pub dir: String,
    pub manifests: ComposerFiles,
    pub files: Vec<PhpSource>,
}

/// The mathematical reading of a root.
pub struct PhpRootView {
    pub dir: Seq<char>,
    pub manifests: ComposerView,
    pub files: Seq<PhpSourceView>,
}

impl View for PhpRoot {
    type V = PhpRootView;

    open spec fn view(&self) -> PhpRootView {
        PhpRootView { dir: self.dir@, manifests: self.manifests@, files: views(self.files@) }
    }
}

impl PhpRootView {
    /// The name of the project.
    pub open spec fn project(self) -> Seq<char> {
        php_name(manifest_of(self.manifests.manifest), base(self.dir))
    }
}

// ---------------------------------------------------------------------------
// Modules
// ---------------------------------------------------------------------------

/// The node of a namespace.
pub open spec fn namespace_node(project: Seq<char>, qname: Seq<char>, name: Seq<char>) -> NodeView {
    NodeView {
        id: kind_id(project, qname, NodeKind::Module),
        kind: NodeKind::Module,
        qualified_name: qname,
        name,
        file_path: None,
        span: None,
        metadata: Seq::empty(),
    }
}

/// How far the modules of a namespace are there.
pub struct ModuleChain {
    pub graph: GraphView,
    pub modules: Seq<(Seq<char>, Seq<char>)>,
    /// The module that the next one is inside of.
    pub parent: Seq<char>,
}

/// The modules of the first `n` prefixes of a namespace, each inside the one
/// before.
pub open spec fn chain_after(start: ModuleChain, project: Seq<char>, parts: Seq<Seq<char>>, n: int) -> ModuleChain
    decreases n,
{
    if n <= 0 || n > parts.len() {
        start
    } else {
        let earlier = chain_after(start, project, parts, n - 1);
        let qname = joined(parts.take(n), "\\"@);
        match table_get(earlier.modules, qname) {
            Some(id) => ModuleChain { parent: id, ..earlier },
            None => {
                let node = namespace_node(project, qname, parts[n - 1]);
                ModuleChain {
                    graph: earlier.graph.insert(node).relate(
                        plain_edge(earlier.parent, node.id, RelationKind::Contains),
                    ),
                    modules: earlier.modules.push((qname, node.id)),
                    parent: node.id,
                }
            },
        }
    }
}

/// The graph and the table with the modules of a namespace. The global
/// namespace has none.
pub open spec fn with_namespace(
    g: GraphView,
    modules: Seq<(Seq<char>, Seq<char>)>,
    project: Seq<char>,
    project_id: Seq<char>,
    namespace: Seq<char>,
) -> (GraphView, Seq<(Seq<char>, Seq<char>)>) {
    if namespace.len() == 0 {
        (g, modules)
    } else {
        let parts = pieces(namespace, '\\');
        let c = chain_after(
            ModuleChain { graph: g, modules, parent: project_id },
            project,
            parts,
            parts.len() as int,
        );
        (c.graph, c.modules)
    }
}

/// The namespace of a source that holds PHP.
pub open spec fn space_of(f: PhpSourceView) -> Option<Seq<char>> {
    match f.tree() {
        Some(t) => Some(file_namespace(t, 0)),
        None => None,
    }
}

/// The graph and the table with the modules of the first `n` sources.
pub open spec fn with_namespaces(
    g: GraphView,
    project: Seq<char>,
    project_id: Seq<char>,
    files: Seq<PhpSourceView>,
    n: int,
) -> (GraphView, Seq<(Seq<char>, Seq<char>)>)
    decreases n,
{
    if n <= 0 || n > files.len() {
        (g, Seq::empty())
    } else {
        let earlier = with_namespaces(g, project, project_id, files, n - 1);
        match space_of(files[n - 1]) {
            Some(namespace) => with_namespace(earlier.0, earlier.1, project, project_id, namespace),
            None => earlier,
        }
    }
}

/// Makes sure that the modules of a namespace are there.
#[verifier::loop_isolation(false)]
fn ensure_module_chain(graph: &mut Graph, modules: &mut Table, project: &str, project_id: &str, namespace: &str)
    requires
        old(graph).wf(),
        old(modules).wf(),
    ensures
        final(graph).wf(),
        final(modules).wf(),
        (final(graph)@, final(modules)@) == with_namespace(
            old(graph)@,
            old(modules)@,
            project@,
            project_id@,
            namespace@,
        ),
{
    if namespace.is_empty() {
        return;
    }
    let parts = split(namespace, '\\');
    let ghost all = views(parts@);
    let ghost start = ModuleChain { graph: graph@, modules: modules@, parent: project_id@ };
    let mut parent = copy(project_id);
    let mut depth: usize = 0;
    while depth < parts.len()
        invariant
            depth <= parts@.len(),
            graph.wf(),
            modules.wf(),
            (ModuleChain { graph: graph@, modules: modules@, parent: parent@ }) == chain_after(
                start,
                project@,
                all,
                depth as int,
            ),
        decreases parts@.len() - depth,
    {
        assert(all[depth as int] == parts@[depth as int]@);
        let head = first_parts(&parts, depth + 1);
        let qname = join(&head, "\\");
        match modules.get(qname.as_str()) {
            Some(id) => {
                parent = id;
            },
            None => {
                let id = node_kind_id(project, qname.as_str(), NodeKind::Module);
                let node = Node {
                    id: copy(id.as_str()),
                    kind: NodeKind::Module,
                    qualified_name: copy(qname.as_str()),
                    name: copy(parts[depth].as_str()),
                    file_path: None,
                    span: None,
                    metadata: Metadata::new(),
                };
                graph.insert_node(node);
                graph.push_relation(Relation::plain(parent.as_str(), id.as_str(), RelationKind::Contains));
                modules.add(qname.as_str(), id.as_str());
                parent = id;
            },
        }
        depth += 1;
    }
}

/// The namespace of a source that holds PHP; an error where it gives no tree.
pub fn read_namespace(f: &PhpSource) -> (r: Result<Option<String>, ()>)
    ensures
        match r {
            Ok(namespace) => !f@.gives_no_tree() && opt_view(namespace) == space_of(f@),
            Err(_) => f@.gives_no_tree(),
        },
{
    match &f.source {
        None => Ok(None),
        Some(bytes) => match parse(Grammar::Php, bytes.as_slice()) {
            None => Err(()),
            Some(p) => {
                if has_php_statements(p.syntax(), 0) {
                    Ok(Some(php_namespace(p.syntax(), 0)))
                } else {
                    Ok(None)
                }
            },
        },
    }
}

/// Makes sure that the modules of every source are there; `None` where one of
/// the sources gives no tree.
#[verifier::loop_isolation(false)]
fn ensure_modules(graph: &mut Graph, project: &str, project_id: &str, files: &Vec<PhpSource>) -> (r: Option<Table>)
    requires
        old(graph).wf(),
    ensures
        final(graph).wf(),
        r is None <==> some_unparsed(views(files@)),
        r is Some ==> r->0.wf() && (final(graph)@, r->0@) == with_namespaces(
            old(graph)@,
            project@,
            project_id@,
            views(files@),
            files@.len() as int,
        ),
{
    let ghost g = graph@;
    let ghost all = views(files@);
    let mut modules = Table::new();
    let mut i: usize = 0;
    while i < files.len()
        invariant
            i <= files@.len(),
            graph.wf(),
            modules.wf(),
            (graph@, modules@) == with_namespaces(g, project@, project_id@, all, i as int),
            forall|k: int| 0 <= k < i ==> !(#[trigger] all[k]).gives_no_tree(),
        decreases files@.len() - i,
    {
        assert(all[i as int] == files@[i as int]@);
        match read_namespace(&files[i]) {
            Ok(Some(namespace)) => {
                ensure_module_chain(graph, &mut modules, project, project_id, namespace.as_str());
            },
            Ok(None) => {},
            Err(_) => {
                assert(all[i as int].gives_no_tree());
                return None;
            },
        }
        i += 1;
    }
    Some(modules)
}

// ---------------------------------------------------------------------------
// Files
// ---------------------------------------------------------------------------

/// How far reading a root has come.
pub struct PhpBuild {
    pub graph: GraphView,
    pub uses: Seq<(Seq<char>, OccurrenceView)>,
    pub ports: Seq<FileBoundariesView>,
}

/// What is known of a file before it is read.
pub open spec fn file_context(
    project_root: Seq<char>,
    root: PhpRootView,
    modules: Seq<(Seq<char>, Seq<char>)>,
    path: Seq<char>,
) -> PhpFileView {
    let file_rel = relative_path(path, project_root, root.dir);
    PhpFileView {
        project: root.project(),
        file_rel,
        file_id: kind_id(root.project(), file_rel, NodeKind::File),
        internal: root.manifests.own_prefixes(),
        vendors: root.manifests.vendors(),
        modules,
    }
}

/// The module that a file belongs to, or the project.
pub open spec fn container_of(modules: Seq<(Seq<char>, Seq<char>)>, namespace: Seq<char>, project_id: Seq<char>) -> Seq<
    char,
> {
    match table_get(modules, namespace) {
        Some(id) => id,
        None => project_id,
    }
}

/// The build after one file. The ports that others found come after the ones
/// read off the source. A file without PHP leaves no trace.
pub open spec fn with_source(
    project_root: Seq<char>,
    root: PhpRootView,
    project_id: Seq<char>,
    modules: Seq<(Seq<char>, Seq<char>)>,
    b: PhpBuild,
    f: PhpSourceView,
) -> PhpBuild {
    match f.tree() {
        Some(t) => {
            let c = file_context(project_root, root, modules, f.path);
            let namespace = file_namespace(t, 0);
            let listed = with_file_node(
                b.graph,
                c.project,
                c.file_rel,
                base(f.path),
                container_of(modules, namespace, project_id),
            );
            let read = with_file(t, c, listed, namespace, 0);
            let found = source_ports(t, f.source->0) + f.extra;
            PhpBuild {
                graph: read.graph,
                uses: b.uses + located(f.path, read.uses),
                ports: if found.len() == 0 {
                    b.ports
                } else {
                    b.ports.push(FileBoundariesView { file_rel: c.file_rel, file_id: c.file_id, refs: found })
                },
            }
        },
        None => b,
    }
}

/// The build after the first `n` files.
pub open spec fn with_sources(
    project_root: Seq<char>,
    root: PhpRootView,
    project_id: Seq<char>,
    modules: Seq<(Seq<char>, Seq<char>)>,
    b: PhpBuild,
    n: int,
) -> PhpBuild
    decreases n,
{
    if n <= 0 || n > root.files.len() {
        b
    } else {
        with_source(
            project_root,
            root,
            project_id,
            modules,
            with_sources(project_root, root, project_id, modules, b, n - 1),
            root.files[n - 1],
        )
    }
}

/// The graph and the findings of a root.
#[verifier::opaque]
pub open spec fn root_built(project_root: Seq<char>, g: GraphView, root: PhpRootView) -> (GraphView, BuiltView) {
    let project = root.project();
    let node = project_node(project, project, after_last(project, "/"@));
    let names = sorted_names(root.manifests.vendors());
    let g1 = declared(g.insert(node), project, node.id, names, names.len() as int);
    let spaces = with_namespaces(g1, project, node.id, root.files, root.files.len() as int);
    let start = PhpBuild { graph: spaces.0, uses: Seq::empty(), ports: Seq::empty() };
    let b = with_sources(project_root, root, node.id, spaces.1, start, root.files.len() as int);
    (b.graph, BuiltView { project, occurrences: b.uses, boundaries: b.ports })
}

/// Reads one file of a root into the graph.
fn read_source(
    graph: Graph,
    project_root: &str,
    root: &PhpRoot,
    project: &str,
    project_id: &str,
    internal: &Vec<String>,
    vendors: &Vec<String>,
    modules: &Table,
    uses: &mut Vec<FileOccurrence>,
    ports: &mut Vec<FileBoundaries>,
    f: &PhpSource,
) -> (r: Graph)
    requires
        graph.wf(),
        modules.wf(),
        project@ == root@.project(),
        views(internal@) == root@.manifests.own_prefixes(),
        views(vendors@) == root@.manifests.vendors(),
        !f@.gives_no_tree(),
    ensures
        r.wf(),
        (PhpBuild { graph: r@, uses: views(final(uses)@), ports: views(final(ports)@) }) == with_source(
            project_root@,
            root@,
            project_id@,
            modules@,
            (PhpBuild { graph: graph@, uses: views(old(uses)@), ports: views(old(ports)@) }),
            f@,
        ),
{
    let mut graph = graph;
    if let Some(bytes) = &f.source {
        if let Some(p) = parse(Grammar::Php, bytes.as_slice()) {
            if has_php_statements(p.syntax(), 0) {
                let path = f.path.as_str();
                let namespace = php_namespace(p.syntax(), 0);
                let container = match modules.get(namespace.as_str()) {
                    Some(id) => id,
                    None => copy(project_id),
                };
                let file_rel = relative_to(path, project_root, root.dir.as_str());
                let name = base_name(path);
                let file_id = ensure_file(&mut graph, project, file_rel.as_str(), name.as_str(), container.as_str());
                let c = PhpFile {
                    project,
                    file_rel: file_rel.as_str(),
                    file_id: file_id.as_str(),
                    internal,
                    vendors,
                    modules,
                };
                assert(c@ == file_context(project_root@, root@, modules@, path@));
                let mut visitor = PhpVisitor::new(graph, namespace.as_str());
                visit_file(p.syntax(), &c, &mut visitor, 0);
                locate(path, &visitor.occurrences, uses);
                let mut refs = parsed_boundaries(&p);
                add_ports(&mut refs, &f.extra);
                assert(refs@.len() == views(refs@).len());
                if refs.len() > 0 {
                    add_item(
                        ports,
                        FileBoundaries { file_rel: copy(file_rel.as_str()), file_id: copy(file_id.as_str()), refs },
                    );
                }
                return visitor.graph;
            }
        }
    }
    graph
}

/// Reads a root into the graph; `None` where a source gives no tree.
#[verifier::loop_isolation(false)]
pub fn build_root_structure(graph: Graph, project_root: &str, root: &PhpRoot) -> (r: Option<(Graph, BuiltRoot)>)
    requires
        graph.wf(),
    ensures
        r is None <==> some_unparsed(root@.files),
        r is Some ==> (r->0).0.wf() && ((r->0).0@, (r->0).1@) == root_built(project_root@, graph@, root@),
{
    let ghost g = graph@;
    let mut graph = graph;
    let directory = base_name(root.dir.as_str());
    let project = php_detect_project_name(&root.manifests.manifest, directory.as_str());
    let vendors = dependencies(&root.manifests);
    let internal = internal_prefixes(&root.manifests);
    let short = tail_after(project.as_str(), "/");
    let project_id = ensure_project(&mut graph, project.as_str(), project.as_str(), short.as_str());
    declare_dependencies(&mut graph, project.as_str(), project_id.as_str(), &vendors);
    let modules = match ensure_modules(&mut graph, project.as_str(), project_id.as_str(), &root.files) {
        Some(m) => m,
        None => {
            return None;
        },
    };
    let mut uses: Vec<FileOccurrence> = Vec::new();
    let mut ports: Vec<FileBoundaries> = Vec::new();
    let ghost start = PhpBuild { graph: graph@, uses: views(uses@), ports: views(ports@) };
    proof {
        assert(start.uses =~= Seq::<(Seq<char>, OccurrenceView)>::empty());
        assert(start.ports =~= Seq::<FileBoundariesView>::empty());
    }
    let mut i: usize = 0;
    while i < root.files.len()
        invariant
            i <= root.files@.len(),
            graph.wf(),
            (PhpBuild { graph: graph@, uses: views(uses@), ports: views(ports@) }) == with_sources(
                project_root@,
                root@,
                project_id@,
                modules@,
                start,
                i as int,
            ),
        decreases root.files@.len() - i,
    {
        let f = &root.files[i];
        assert(root@.files[i as int] == f@);
        graph =
        read_source(
            graph,
            project_root,
            root,
            project.as_str(),
            project_id.as_str(),
            &internal,
            &vendors,
            &modules,
            &mut uses,
            &mut ports,
            f,
        );
        i += 1;
    }
    proof {
        reveal(root_built);
    }
    Some((graph, BuiltRoot { project, occurrences: uses, boundaries: ports }))
}

// ---------------------------------------------------------------------------
// Projects
// ---------------------------------------------------------------------------

/// The graph and the findings of the first `n` roots.
pub open spec fn roots_built(project_root: Seq<char>, roots: Seq<PhpRootView>, n: int) -> (GraphView, Seq<BuiltView>)
    decreases n,
{
    if n <= 0 || n > roots.len() {
        (GraphView::empty(), Seq::empty())
    } else {
        let earlier = roots_built(project_root, roots, n - 1);
        let one = root_built(project_root, earlier.0, roots[n - 1]);
        (one.0, earlier.1.push(one.1))
    }
}

/// Whether a source of some root gives no tree.
pub open spec fn some_root_unparsed(roots: Seq<PhpRootView>) -> bool {
    exists|i: int| 0 <= i < roots.len() && some_unparsed((#[trigger] roots[i]).files)
}

/// A project whose structure was read, before resolution.
pub struct PhpAnalysis {
    pub graph: Graph,
    pub roots: Vec<BuiltRoot>,
}

/// Reads the structure of every root; `None` where a source gives no tree.
pub fn read_structure(project_root: &str, roots: &Vec<PhpRoot>) -> (r: Option<PhpAnalysis>)
    ensures
        r is None <==> some_root_unparsed(views(roots@)),
        r is Some ==> {
            &&& r->0.graph.wf()
            &&& (r->0.graph@, views(r->0.roots@)) == roots_built(project_root@, views(roots@), roots@.len() as int)
        },
{
    let mut graph = Graph::empty();
    let mut built: Vec<BuiltRoot> = Vec::new();
    assert(views(built@) =~= Seq::<BuiltView>::empty());
    let mut i: usize = 0;
    while i < roots.len()
        invariant
            i <= roots@.len(),
            graph.wf(),
            (graph@, views(built@)) == roots_built(project_root@, views(roots@), i as int),
            forall|k: int| 0 <= k < i ==> !some_unparsed((#[trigger] views(roots@)[k]).files),
        decreases roots@.len() - i,
    {
        assert(views(roots@)[i as int] == roots@[i as int]@);
        match build_root_structure(graph, project_root, &roots[i]) {
            Some(b) => {
                graph = b.0;
                add_item(&mut built, b.1);
            },
            None => {
                assert(some_unparsed(views(roots@)[i as int].files));
                return None;
            },
        }
        i += 1;
    }
    Some(PhpAnalysis { graph, roots: built })
}

/// What a resolver answers for places of use.
pub open spec fn answers_to(x: IndexedView, uses: Seq<(Seq<char>, OccurrenceView)>) -> Seq<Option<ResolvedView>> {
    uses.map_values(|u: (Seq<char>, OccurrenceView)| x.resolved(u.0, u.1.line, u.1.col))
}

/// What a resolver answers for the places of use of roots.
pub open spec fn answers_to_roots(x: IndexedView, built: Seq<BuiltView>) -> Seq<Seq<Option<ResolvedView>>> {
    built.map_values(|b: BuiltView| answers_to(x, b.occurrences))
}

/// The graph of a finished analysis. Without a resolver it stays structural.
/// What several visits state alike stands in it once.
pub open spec fn php_completed(
    g: GraphView,
    project_root: Seq<char>,
    built: Seq<BuiltView>,
    index: Option<IndexedView>,
    micros: u64,
) -> GraphView {
    let n = built.len() as int;
    let full = match index {
        Some(x) => {
            let p = passes_after(project_root, "\\"@, g.nodes, g, built, answers_to_roots(x, built), n);
            with_outcome(
                with_root_ports(p.graph, built, n),
                status_of(x.docs),
                counters_of(p, total_uses(built, n), micros),
            )
        },
        None => with_outcome(with_root_ports(g, built, n), ResolverStatus::Unavailable, ResolverMetrics::zero()),
    };
    GraphView { relations: without_repeats(full.relations, full.relations.len() as int), ..full }
}

/// The status that a resolver, or its absence, leaves behind.
pub open spec fn php_status(index: Option<IndexedView>) -> ResolverStatus {
    match index {
        Some(x) => status_of(x.docs),
        None => ResolverStatus::Unavailable,
    }
}

/// Asks a resolver for the places of use of a root.
#[verifier::loop_isolation(false)]
fn ask(resolver: &PhpResolver, uses: &Vec<FileOccurrence>) -> (r: Vec<Option<ResolvedRef>>)
    requires
        resolver.wf(),
    ensures
        r@.len() == uses@.len(),
        answer_views(r@) == answers_to(resolver@, views(uses@)),
{
    let mut out: Vec<Option<ResolvedRef>> = Vec::new();
    let ghost all = views(uses@);
    let mut i: usize = 0;
    while i < uses.len()
        invariant
            i <= uses@.len(),
            out@.len() == i,
            forall|k: int|
                0 <= k < i ==> opt_view(#[trigger] out@[k]) == resolver@.resolved(all[k].0, all[k].1.line, all[k].1.col),
        decreases uses@.len() - i,
    {
        assert(all[i as int] == uses@[i as int]@);
        let u = &uses[i];
        out.push(resolver.resolve_one(u.file.as_str(), u.occurrence.line, u.occurrence.col));
        i += 1;
    }
    assert(answer_views(out@) =~= answers_to(resolver@, all));
    out
}

/// Asks a resolver for the places of use of every root.
#[verifier::loop_isolation(false)]
fn ask_all(resolver: &PhpResolver, built: &Vec<BuiltRoot>) -> (r: Vec<Vec<Option<ResolvedRef>>>)
    requires
        resolver.wf(),
    ensures
        r@.len() == built@.len(),
        forall|i: int| 0 <= i < built@.len() ==> (#[trigger] r@[i])@.len() == built@[i].occurrences@.len(),
        answer_lists(r@) == answers_to_roots(resolver@, views(built@)),
{
    let mut out: Vec<Vec<Option<ResolvedRef>>> = Vec::new();
    let ghost all = views(built@);
    let mut i: usize = 0;
    while i < built.len()
        invariant
            i <= built@.len(),
            out@.len() == i,
            forall|k: int| 0 <= k < i ==> (#[trigger] out@[k])@.len() == built@[k].occurrences@.len(),
            forall|k: int| 0 <= k < i ==> answer_views((#[trigger] out@[k])@) == answers_to(resolver@, all[k].occurrences),
        decreases built@.len() - i,
    {
        assert(all[i as int] == built@[i as int]@);
        out.push(ask(resolver, &built[i].occurrences));
        i += 1;
    }
    assert(answer_lists(out@) =~= answers_to_roots(resolver@, all));
    out
}

/// Finishes an analysis: binds the places of use, adds the ports, stores the
/// outcome. In strict mode a graph that is not fully resolved is refused, and a
/// table of symbols never resolves fully.
pub fn analyze(
    project_root: &str,
    analysis: PhpAnalysis,
    resolver: &Option<PhpResolver>,
    micros: u64,
    strict: bool,
) -> (r: Result<Graph, String>)
    requires
        analysis.graph.wf(),
        *resolver is Some ==> resolver->0.wf(),
        total_uses(views(analysis.roots@), analysis.roots@.len() as int) <= u64::MAX,
    ensures
        match r {
            Ok(g) => {
                &&& !strict
                &&& g.wf()
                &&& g@ == php_completed(
                    analysis.graph@,
                    project_root@,
                    views(analysis.roots@),
                    opt_view(*resolver),
                    micros,
                )
            },
            Err(e) => strict && e@ == strict_message("PHP"@, php_status(opt_view(*resolver))),
        },
{
    let mut graph = analysis.graph;
    let resolution = match resolver {
        Some(x) => Some(Resolution { answers: ask_all(x, &analysis.roots), status: x.status(), micros }),
        None => None,
    };
    let status = complete(&mut graph, project_root, "\\", &analysis.roots, &resolution);
    if strict && status != ResolverStatus::Complete {
        return Err(strict_error("PHP", status));
    }
    graph.dedupe_structural_relations();
    Ok(graph)
}

}
