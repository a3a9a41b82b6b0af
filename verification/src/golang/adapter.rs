//! Analysis of a Go project.

use vstd::prelude::*;

use crate::adapter::{
    answers_fit, complete, completed, ensure_external_symbol, ensure_file, ensure_project, external_node, locate,
    located, outcome_status, project_node, strict_error, strict_message, with_file_node, BuiltRoot, BuiltView, FileBoundaries,
    FileBoundariesView, FileOccurrence, Resolution,
};
use crate::dependencies::distinct;
use crate::golang::boundary::{parsed_boundaries, ports_in, Q_GRPC_CLIENT_ASSIGN, Q_SELECTOR_CALL};
use crate::golang::deps::{all_required, declared_module, last_segment, module_path_in, project_name, required_modules_in};
use crate::golang::visitor::{extract, with_file, GoFile, GoFileView, GoFound, GoImport, GoImportView, GoState};
use crate::graph::{Graph, GraphView};
use crate::ids::{kind_id, node_kind_id};
use crate::index::{table_get, Table};
use crate::meta::Metadata;
use crate::node::{Node, NodeKind, NodeView};
use crate::occurrence::OccurrenceView;
use crate::paths::{base, base_name, below, below_dir, directory, parent_dir, relative_path, relative_to};
use crate::relation::{plain_edge, Relation, RelationKind};
use crate::status::ResolverStatus;
use crate::strings::{after_last, tail_after};
use crate::text::{add_item, concat3, copy, opt_view, views};
use crate::tree::{parse, parsed_hits, parsed_tree, Grammar};

verus! {

/// A Go source: its path, and its bytes where it can be read.
pub struct GoSource {
    pub path: String,
    pub source: Option<Vec<u8>>,
}

/// The mathematical reading of a source.
pub struct GoSourceView {
    pub path: Seq<char>,
    pub source: Option<Seq<u8>>,
}

impl View for GoSource {
    type V = GoSourceView;

    open spec fn view(&self) -> GoSourceView {
        GoSourceView { path: self.path@, source: opt_view(self.source) }
    }
}

/// A module root: its directory, the text of its go.mod, and its sources.
pub struct GoRoot {
    pub dir: String,
    pub go_mod: Option<String>,
    pub files: Vec<GoSource>,
}

/// The mathematical reading of a module root.
pub struct GoRootView {
    pub dir: Seq<char>,
    pub go_mod: Option<Seq<char>>,
    pub files: Seq<GoSourceView>,
}

impl View for GoRoot {
    type V = GoRootView;

    open spec fn view(&self) -> GoRootView {
        GoRootView { dir: self.dir@, go_mod: opt_view(self.go_mod), files: views(self.files@) }
    }
}

impl GoRootView {
    /// The module's path: as go.mod declares it, or the name of the directory.
    pub open spec fn module(self) -> Seq<char> {
        match self.go_mod {
            Some(text) => match declared_module(text) {
                Some(m) => m,
                None => base(self.dir),
            },
            None => base(self.dir),
        }
    }

    /// The modules that go.mod requires, each once.
    pub open spec fn required(self) -> Seq<Seq<char>> {
        match self.go_mod {
            Some(text) => distinct(all_required(text), all_required(text).len() as int),
            None => Seq::empty(),
        }
    }

    /// The name of the project.
    pub open spec fn project(self) -> Seq<char> {
        last_segment(self.module())
    }

    /// Whether a source of the root gives no tree.
    pub open spec fn unparsed(self) -> bool {
        exists|i: int| 0 <= i < self.files.len() && #[trigger] gives_no_tree(self.files[i])
    }
}

/// Whether a source can be read and gives no tree.
pub open spec fn gives_no_tree(f: GoSourceView) -> bool {
    f.source is Some && parsed_tree(Grammar::Go, f.source->0) is None
}

/// The qualified name of a file's package: the module's path and the file's
/// directory in it. A file outside the root counts as the root package.
pub open spec fn package_of(path: Seq<char>, root: Seq<char>, module: Seq<char>) -> Seq<char> {
    match below_dir(directory(path), root) {
        Some(rel) => if rel.len() == 0 {
            module
        } else {
            module + "/"@ + rel
        },
        None => module,
    }
}

/// The qualified name of a file's package.
pub fn package_qname(path: &str, root: &str, module: &str) -> (r: String)
    ensures
        r@ == package_of(path@, root@, module@),
{
    let dir = parent_dir(path);
    match below(dir.as_str(), root) {
        Some(rel) => {
            if rel.as_str().is_empty() {
                copy(module)
            } else {
                concat3(module, "/", rel.as_str())
            }
        },
        None => copy(module),
    }
}

/// The node of a package.
pub open spec fn package_node(project: Seq<char>, qname: Seq<char>) -> NodeView {
    NodeView {
        id: kind_id(project, qname, NodeKind::Module),
        kind: NodeKind::Module,
        qualified_name: qname,
        name: after_last(qname, "/"@),
        file_path: None,
        span: None,
        metadata: Seq::empty(),
    }
}

/// How far reading a root has come.
pub struct GoBuild {
    pub graph: GraphView,
    /// The id of each package's node.
    pub packages: Seq<(Seq<char>, Seq<char>)>,
    pub uses: Seq<(Seq<char>, OccurrenceView)>,
    pub imports: Seq<GoImportView>,
    pub ports: Seq<FileBoundariesView>,
}

/// The graph and the table with a package in them.
pub open spec fn with_package(
    g: GraphView,
    packages: Seq<(Seq<char>, Seq<char>)>,
    project: Seq<char>,
    qname: Seq<char>,
    project_id: Seq<char>,
) -> (GraphView, Seq<(Seq<char>, Seq<char>)>) {
    if table_get(packages, qname) is Some {
        (g, packages)
    } else {
        let node = package_node(project, qname);
        (
            g.insert(node).relate(plain_edge(project_id, node.id, RelationKind::Contains)),
            packages.push((qname, node.id)),
        )
    }
}

/// The id of a package's node.
pub open spec fn package_id(
    packages: Seq<(Seq<char>, Seq<char>)>,
    project: Seq<char>,
    qname: Seq<char>,
) -> Seq<char> {
    match table_get(packages, qname) {
        Some(id) => id,
        None => kind_id(project, qname, NodeKind::Module),
    }
}

/// Makes sure that a package has a node inside the project; returns its id.
fn ensure_package(graph: &mut Graph, project: &str, qname: &str, project_id: &str, packages: &mut Table) -> (id: String)
    requires
        old(graph).wf(),
        old(packages).wf(),
    ensures
        final(graph).wf(),
        final(packages).wf(),
        (final(graph)@, final(packages)@) == with_package(
            old(graph)@,
            old(packages)@,
            project@,
            qname@,
            project_id@,
        ),
        id@ == package_id(old(packages)@, project@, qname@),
{
    if let Some(id) = packages.get(qname) {
        return id;
    }
    let id = node_kind_id(project, qname, NodeKind::Module);
    let node = Node {
        id: copy(id.as_str()),
        kind: NodeKind::Module,
        qualified_name: copy(qname),
        name: tail_after(qname, "/"),
        file_path: None,
        span: None,
        metadata: Metadata::new(),
    };
    graph.insert_node(node);
    graph.push_relation(Relation::plain(project_id, id.as_str(), RelationKind::Contains));
    packages.add(qname, id.as_str());
    id
}

/// What is known of a file before it is read.
pub open spec fn file_context(project_root: Seq<char>, root: GoRootView, path: Seq<char>) -> GoFileView {
    let file_rel = relative_path(path, project_root, root.dir);
    GoFileView {
        project: root.project(),
        package: package_of(path, root.dir, root.module()),
        file_id: kind_id(root.project(), file_rel, NodeKind::File),
        file_rel,
        own_module: root.module(),
        required: root.required(),
    }
}

/// The build after one file.
pub open spec fn with_source(
    project_root: Seq<char>,
    root: GoRootView,
    project_id: Seq<char>,
    b: GoBuild,
    f: GoSourceView,
) -> GoBuild {
    let c = file_context(project_root, root, f.path);
    let placed = with_package(b.graph, b.packages, c.project, c.package, project_id);
    let module_id = package_id(b.packages, c.project, c.package);
    let graph = with_file_node(placed.0, c.project, c.file_rel, base(f.path), module_id);
    let listed = GoBuild { graph, packages: placed.1, ..b };
    match f.source {
        None => listed,
        Some(bytes) => {
            let t = parsed_tree(Grammar::Go, bytes)->0;
            let read = with_file(
                c,
                t,
                GoState { graph, occurrences: Seq::empty(), imports: b.imports },
                0,
            );
            let found = ports_in(
                t,
                parsed_hits(Grammar::Go, bytes, Q_SELECTOR_CALL@),
                parsed_hits(Grammar::Go, bytes, Q_GRPC_CLIENT_ASSIGN@),
            );
            GoBuild {
                graph: read.graph,
                uses: b.uses + located(f.path, read.occurrences),
                imports: read.imports,
                ports: if found.len() == 0 {
                    b.ports
                } else {
                    b.ports.push(FileBoundariesView { file_rel: c.file_rel, file_id: c.file_id, refs: found })
                },
                ..listed
            }
        },
    }
}

/// The build after the first `n` files.
pub open spec fn with_sources(
    project_root: Seq<char>,
    root: GoRootView,
    project_id: Seq<char>,
    b: GoBuild,
    n: int,
) -> GoBuild
    decreases n,
{
    if n <= 0 || n > root.files.len() {
        b
    } else {
        with_source(
            project_root,
            root,
            project_id,
            with_sources(project_root, root, project_id, b, n - 1),
            root.files[n - 1],
        )
    }
}

/// The graph with the first `n` internal imports bound. An import path is the
/// qualified name of its package; one that is not found becomes an external
/// symbol, so that no edge is lost.
pub open spec fn with_bound(
    g: GraphView,
    project: Seq<char>,
    packages: Seq<(Seq<char>, Seq<char>)>,
    imports: Seq<GoImportView>,
    n: int,
) -> GraphView
    decreases n,
{
    if n <= 0 || n > imports.len() {
        g
    } else {
        let earlier = with_bound(g, project, packages, imports, n - 1);
        let i = imports[n - 1];
        match table_get(packages, i.path) {
            Some(id) => earlier.relate(plain_edge(i.file_id, id, RelationKind::Imports)).relate(
                plain_edge(i.import_id, id, RelationKind::ResolvesTo),
            ),
            None => {
                let node = external_node(project, i.path, "internal"@, "."@);
                earlier.insert(node).relate(plain_edge(i.file_id, node.id, RelationKind::Imports)).relate(
                    plain_edge(i.import_id, node.id, RelationKind::ResolvesTo),
                )
            },
        }
    }
}

/// The graph and the findings of a root.
#[verifier::opaque]
pub open spec fn root_built(project_root: Seq<char>, g: GraphView, root: GoRootView) -> (GraphView, BuiltView) {
    let node = project_node(root.project(), root.module(), root.project());
    let start = GoBuild {
        graph: g.insert(node),
        packages: Seq::empty(),
        uses: Seq::empty(),
        imports: Seq::empty(),
        ports: Seq::empty(),
    };
    let b = with_sources(project_root, root, node.id, start, root.files.len() as int);
    (
        with_bound(b.graph, root.project(), b.packages, b.imports, b.imports.len() as int),
        BuiltView { project: root.project(), occurrences: b.uses, boundaries: b.ports },
    )
}

/// Reads one file of a root into the graph; `false` where it gives no tree.
fn read_source(
    graph: &mut Graph,
    project_root: &str,
    root: &GoRoot,
    project: &str,
    module: &str,
    required: &Vec<String>,
    project_id: &str,
    packages: &mut Table,
    uses: &mut Vec<FileOccurrence>,
    imports: &mut Vec<GoImport>,
    ports: &mut Vec<FileBoundaries>,
    f: &GoSource,
) -> (r: bool)
    requires
        old(graph).wf(),
        old(packages).wf(),
        project@ == root@.project(),
        module@ == root@.module(),
        views(required@) == root@.required(),
    ensures
        final(graph).wf(),
        final(packages).wf(),
        r == !gives_no_tree(f@),
        r ==> (GoBuild {
            graph: final(graph)@,
            packages: final(packages)@,
            uses: views(final(uses)@),
            imports: views(final(imports)@),
            ports: views(final(ports)@),
        }) == with_source(
            project_root@,
            root@,
            project_id@,
            (GoBuild {
                graph: old(graph)@,
                packages: old(packages)@,
                uses: views(old(uses)@),
                imports: views(old(imports)@),
                ports: views(old(ports)@),
            }),
            f@,
        ),
{
    let path = f.path.as_str();
    let package = package_qname(path, root.dir.as_str(), module);
    let module_id = ensure_package(graph, project, package.as_str(), project_id, packages);
    let file_rel = relative_to(path, project_root, root.dir.as_str());
    let name = base_name(path);
    let file_id = ensure_file(graph, project, file_rel.as_str(), name.as_str(), module_id.as_str());
    let ghost uses_before = views(uses@);
    let ghost ports_before = views(ports@);
    match &f.source {
        None => true,
        Some(bytes) => match parse(Grammar::Go, bytes.as_slice()) {
            None => false,
            Some(p) => {
                let c = GoFile {
                    project,
                    package: package.as_str(),
                    file_id: file_id.as_str(),
                    file_rel: file_rel.as_str(),
                    own_module: module,
                    required,
                };
                let mut found = GoFound::new();
                std::mem::swap(&mut found.internal_imports, imports);
                assert(views(found.occurrences@) =~= Seq::<OccurrenceView>::empty());
                assert(c@ == file_context(project_root@, root@, path@));
                extract(&c, p.syntax(), graph, &mut found, 0);
                std::mem::swap(&mut found.internal_imports, imports);
                locate(path, &found.occurrences, uses);
                let refs = parsed_boundaries(&p);
                assert(refs@.len() == views(refs@).len());
                if refs.len() > 0 {
                    add_item(ports, FileBoundaries { file_rel: copy(file_rel.as_str()), file_id: copy(file_id.as_str()), refs });
                }
                true
            },
        },
    }
}

/// Binds internal imports to packages.
#[verifier::loop_isolation(false)]
fn bind_imports(graph: &mut Graph, project: &str, packages: &Table, imports: &Vec<GoImport>)
    requires
        old(graph).wf(),
        packages.wf(),
    ensures
        final(graph).wf(),
        final(graph)@ == with_bound(old(graph)@, project@, packages@, views(imports@), imports@.len() as int),
{
    let ghost g = graph@;
    let mut i: usize = 0;
    while i < imports.len()
        invariant
            i <= imports@.len(),
            graph.wf(),
            graph@ == with_bound(g, project@, packages@, views(imports@), i as int),
        decreases imports@.len() - i,
    {
        let x = &imports[i];
        assert(views(imports@)[i as int] == x@);
        let id = match packages.get(x.path.as_str()) {
            Some(id) => id,
            None => ensure_external_symbol(graph, project, x.path.as_str(), "internal", "."),
        };
        graph.push_relation(Relation::plain(x.file_id.as_str(), id.as_str(), RelationKind::Imports));
        graph.push_relation(Relation::plain(x.import_id.as_str(), id.as_str(), RelationKind::ResolvesTo));
        i += 1;
    }
}

/// Reads a module root into the graph; `None` where a source gives no tree.
#[verifier::loop_isolation(false)]
pub fn build_root_structure(graph: &mut Graph, project_root: &str, root: &GoRoot) -> (r: Option<BuiltRoot>)
    requires
        old(graph).wf(),
    ensures
        final(graph).wf(),
        r is None <==> root@.unparsed(),
        r is Some ==> (final(graph)@, r->0@) == root_built(project_root@, old(graph)@, root@),
{
    let mut module = base_name(root.dir.as_str());
    let mut required: Vec<String> = Vec::new();
    assert(views(required@) =~= Seq::<Seq<char>>::empty());
    if let Some(text) = &root.go_mod {
        required = required_modules_in(text.as_str());
        if let Some(m) = module_path_in(text.as_str()) {
            module = m;
        }
    }
    let empty = String::new();
    let project = project_name(Some(module.as_str()), empty.as_str());
    let ghost g = graph@;
    let project_id = ensure_project(graph, project.as_str(), module.as_str(), project.as_str());
    let mut packages = Table::new();
    let mut uses: Vec<FileOccurrence> = Vec::new();
    let mut imports: Vec<GoImport> = Vec::new();
    let mut ports: Vec<FileBoundaries> = Vec::new();
    let ghost start = GoBuild {
        graph: graph@,
        packages: packages@,
        uses: views(uses@),
        imports: views(imports@),
        ports: views(ports@),
    };
    proof {
        assert(start.uses =~= Seq::<(Seq<char>, OccurrenceView)>::empty());
        assert(start.imports =~= Seq::<GoImportView>::empty());
        assert(start.ports =~= Seq::<FileBoundariesView>::empty());
    }
    let mut i: usize = 0;
    while i < root.files.len()
        invariant
            i <= root.files@.len(),
            graph.wf(),
            packages.wf(),
            (GoBuild {
                graph: graph@,
                packages: packages@,
                uses: views(uses@),
                imports: views(imports@),
                ports: views(ports@),
            }) == with_sources(project_root@, root@, project_id@, start, i as int),
            forall|k: int| 0 <= k < i ==> !#[trigger] gives_no_tree(root@.files[k]),
        decreases root.files@.len() - i,
    {
        let f = &root.files[i];
        assert(root@.files[i as int] == f@);
        let ok = read_source(
            graph,
            project_root,
            root,
            project.as_str(),
            module.as_str(),
            &required,
            project_id.as_str(),
            &mut packages,
            &mut uses,
            &mut imports,
            &mut ports,
            f,
        );
        if !ok {
            assert(gives_no_tree(root@.files[i as int]));
            return None;
        }
        i += 1;
    }
    bind_imports(graph, project.as_str(), &packages, &imports);
    proof {
        reveal(root_built);
    }
    Some(BuiltRoot { project, occurrences: uses, boundaries: ports })
}

/// The graph and the findings of the first `n` roots.
pub open spec fn roots_built(
    project_root: Seq<char>,
    roots: Seq<GoRootView>,
    n: int,
) -> (GraphView, Seq<BuiltView>)
    decreases n,
{
    if n <= 0 || n > roots.len() {
        (GraphView::empty(), Seq::empty())
    } else {
        let earlier = roots_built(project_root, roots, n - 1);
        let one = root_built(project_root, earlier.0, roots[n - 1]);
        (one.0, earlier.1.push(one.1))
    }
}

/// Whether a source of some root gives no tree.
pub open spec fn some_unparsed(roots: Seq<GoRootView>) -> bool {
    exists|i: int| 0 <= i < roots.len() && (#[trigger] roots[i]).unparsed()
}

/// A project whose structure was read, before resolution.
pub struct GoAnalysis {
    pub graph: Graph,
    pub roots: Vec<BuiltRoot>,
}

/// Reads the structure of every root; `None` where a source gives no tree.
///
/// What comes back lists the places of use that a resolver is to answer.
pub fn read_structure(project_root: &str, roots: &Vec<GoRoot>) -> (r: Option<GoAnalysis>)
    ensures
        r is None <==> some_unparsed(views(roots@)),
        r is Some ==> {
            &&& r->0.graph.wf()
            &&& (r->0.graph@, views(r->0.roots@)) == roots_built(project_root@, views(roots@), roots@.len() as int)
        },
{
    let mut graph = Graph::empty();
    let mut built: Vec<BuiltRoot> = Vec::new();
    assert(views(built@) =~= Seq::<BuiltView>::empty());
    let mut i: usize = 0;
    while i < roots.len()
        invariant
            i <= roots@.len(),
            graph.wf(),
            (graph@, views(built@)) == roots_built(project_root@, views(roots@), i as int),
            forall|k: int| 0 <= k < i ==> !(#[trigger] views(roots@)[k]).unparsed(),
        decreases roots@.len() - i,
    {
        assert(views(roots@)[i as int] == roots@[i as int]@);
        match build_root_structure(&mut graph, project_root, &roots[i]) {
            Some(b) => {
                add_item(&mut built, b);
            },
            None => {
                assert(views(roots@)[i as int].unparsed());
                return None;
            },
        }
        i += 1;
    }
    Some(GoAnalysis { graph, roots: built })
}

/// Finishes an analysis with what a resolver gave. In strict mode a graph that
/// is not fully resolved is refused.
pub fn analyze(
    project_root: &str,
    analysis: GoAnalysis,
    resolution: &Option<Resolution>,
    strict: bool,
) -> (r: Result<Graph, String>)
    requires
        analysis.graph.wf(),
        answers_fit(analysis.roots@, *resolution),
    ensures
        match r {
            Ok(g) => {
                &&& !strict || outcome_status(*resolution) == ResolverStatus::Complete
                &&& g.wf()
                &&& g@ == completed(analysis.graph@, project_root@, "."@, views(analysis.roots@), *resolution)
            },
            Err(e) => {
                &&& strict && outcome_status(*resolution) != ResolverStatus::Complete
                &&& e@ == strict_message("Go"@, outcome_status(*resolution))
            },
        },
{
    let mut graph = analysis.graph;
    let status = complete(&mut graph, project_root, ".", &analysis.roots, resolution);
    if strict && status != ResolverStatus::Complete {
        return Err(strict_error("Go", status));
    }
    Ok(graph)
}

}
