//! Analysis of a C or C++ project.
//!
//! A mixed project is analysed once for each dialect, and the graphs are merged:
//! each file is claimed by exactly one of the two.

use vstd::prelude::*;

use crate::adapter::{
    apply_boundaries, edge_of_role, ensure_external_symbol, ensure_project, external_node, internal_id,
    internal_target, project_node, role_to_kind, store_outcome, with_all_ports, with_outcome, FileBoundaries,
    FileBoundariesView, NameIndex, ResolvedRef, ResolvedView,
};
use crate::boundaries::{add_ports, BoundaryRef, BoundaryView};
use crate::cfamily::boundary::{grammar, grammar_of, matches_in, parsed_boundaries, ports_in};
use crate::cfamily::deps::{dependencies, BuildFiles};
use crate::cfamily::detector::{family_project, project_name};
use crate::cfamily::emitter::{owner_id, surveyed, with_facts, CFamilyEmitter, EmitContext};
use crate::cfamily::headers::{claimed, claims, existing_dirs, include_search_dirs, DeclLedger, DeclView};
use crate::cfamily::reader::{facts_of, read_file, ReadContext};
use crate::cfamily::visitor::{declared_scopes, file_scopes, FactsView, FileFacts, Owner, UseView};
use crate::cfamily::Dialect;
use crate::dependencies::{declare_dependencies, declared, sorted_names};
use crate::graph::{node_at, Graph, GraphView};
use crate::ids::{kind_id, node_kind_id};
use crate::index::{table_get, Table};
use crate::merge::without_repeats;
use crate::meta::Metadata;
use crate::metrics::ResolverMetrics;
use crate::node::{Node, NodeKind, NodeView};
use crate::paths::{base, base_name, directory, parent_dir, relative_path, relative_to};
use crate::relation::{plain_edge, Relation, RelationKind};
use crate::status::ResolverStatus;
use crate::strings::{decimal, decimal_text};
use crate::text::{add_all_new, add_item, chars_of, copy, opt_view, string_of, views, with_all_new};
use crate::tree::{parse, parsed_tree};

verus! {

/// A source: its path, and its bytes where it can be read.
pub struct FamilySource {
    pub path: String,
    pub source: Option<Vec<u8>>,
    /// The ports that others found in the source.
    pub extra: Vec<BoundaryRef>,
}

/// The mathematical reading of a source.
pub struct FamilySourceView {
    pub path: Seq<char>,
    pub source: Option<Seq<u8>>,
    pub extra: Seq<BoundaryView>,
}

impl View for FamilySource {
    type V = FamilySourceView;

    open spec fn view(&self) -> FamilySourceView {
        FamilySourceView { path: self.path@, source: opt_view(self.source), extra: views(self.extra@) }
    }
}

/// A root: its directory, the text of its listfile, its build files, the
/// directories in it, and the sources below it.
pub struct FamilyRoot {
    pub dir: String,
    pub listfile: Option<String>,
    pub build: BuildFiles,
    pub existing: Vec<String>,
    pub files: Vec<FamilySource>,
}

/// The mathematical reading of a root.
pub struct FamilyRootView {
    pub dir: Seq<char>,
    pub listfile: Option<Seq<char>>,
    pub packages: Seq<Seq<char>>,
    pub existing: Seq<Seq<char>>,
    pub files: Seq<FamilySourceView>,
}

impl View for FamilyRoot {
    type V = FamilyRootView;

    open spec fn view(&self) -> FamilyRootView {
        FamilyRootView {
            dir: self.dir@,
            listfile: opt_view(self.listfile),
            packages: self.build.packages(),
            existing: views(self.existing@),
            files: views(self.files@),
        }
    }
}

impl FamilyRootView {
    /// The name of the project.
    pub open spec fn project(self) -> Seq<char> {
        family_project(self.listfile, base(self.dir))
    }
}

// ---------------------------------------------------------------------------
// Structure
// ---------------------------------------------------------------------------

/// Whether reading a source stops the analysis: a parser that is asked gives no
/// tree.
pub open spec fn fails(dialect: Dialect, f: FamilySourceView) -> bool {
    match f.source {
        Some(bytes) => match claimed(dialect, f.path, bytes) {
            Some(mine) => mine && parsed_tree(grammar(dialect), bytes) is None,
            None => true,
        },
        None => false,
    }
}

/// Whether a dialect reads a source: it can be read, and the dialect claims it.
pub open spec fn reads(dialect: Dialect, f: FamilySourceView) -> bool {
    f.source is Some && claimed(dialect, f.path, f.source->0) == Some(true)
}

/// A source that the dialect reads: its path relative to the project, its
/// bytes, and the ports that others found in it.
pub struct OwnedView {
    pub file_rel: Seq<char>,
    pub source: Seq<u8>,
    pub extra: Seq<BoundaryView>,
}

/// The sources that the dialect reads among the first `n`.
pub open spec fn owned_sources(
    dialect: Dialect,
    project_root: Seq<char>,
    dir: Seq<char>,
    files: Seq<FamilySourceView>,
    n: int,
) -> Seq<OwnedView>
    decreases n,
{
    if n <= 0 || n > files.len() {
        Seq::empty()
    } else {
        let earlier = owned_sources(dialect, project_root, dir, files, n - 1);
        let f = files[n - 1];
        if reads(dialect, f) {
            earlier.push(OwnedView { file_rel: relative_path(f.path, project_root, dir), source: f.source->0, extra: f.extra })
        } else {
            earlier
        }
    }
}

/// The records that the first `n` sources declare, each once.
pub open spec fn records_of(dialect: Dialect, sources: Seq<OwnedView>, n: int) -> Seq<Seq<char>>
    decreases n,
{
    if n <= 0 || n > sources.len() {
        Seq::empty()
    } else {
        let found = file_scopes(parsed_tree(grammar(dialect), sources[n - 1].source)->0, 0).records;
        with_all_new(records_of(dialect, sources, n - 1), found, found.len() as int)
    }
}

/// The facts of a source.
pub open spec fn source_facts(dialect: Dialect, records: Seq<Seq<char>>, s: OwnedView) -> FactsView {
    facts_of(
        parsed_tree(grammar(dialect), s.source)->0,
        0,
        ReadContext { dialect, file_rel: s.file_rel, records },
    )
}

/// The ledger after the first `n` sources.
pub open spec fn ledger_after(dialect: Dialect, records: Seq<Seq<char>>, sources: Seq<OwnedView>, n: int) -> Seq<DeclView>
    decreases n,
{
    if n <= 0 || n > sources.len() {
        Seq::empty()
    } else {
        let facts = source_facts(dialect, records, sources[n - 1]);
        surveyed(
            ledger_after(dialect, records, sources, n - 1),
            facts.file_rel,
            facts.declarations,
            facts.declarations.len() as int,
        )
    }
}

/// The module of a file: the directory that holds it, which is the only grouping
/// that C offers. The files of the root itself are in a module of the project's
/// name.
pub open spec fn module_of(file_rel: Seq<char>, project: Seq<char>) -> Seq<char> {
    if directory(file_rel).len() == 0 {
        project
    } else {
        directory(file_rel)
    }
}

/// The module of a file.
pub fn directory_module(file_rel: &str, project: &str) -> (r: String)
    ensures
        r@ == module_of(file_rel@, project@),
{
    let dir = parent_dir(file_rel);
    if dir.as_str().is_empty() {
        copy(project)
    } else {
        dir
    }
}

/// Where the part behind the last slash or colon among the first `n` characters
/// begins.
pub open spec fn segment_start(s: Seq<char>, n: int) -> int
    decreases n,
{
    if n <= 0 || n > s.len() {
        0
    } else if s[n - 1] == '/' || s[n - 1] == ':' {
        n
    } else {
        segment_start(s, n - 1)
    }
}

/// The short name of a module.
pub open spec fn module_name(qname: Seq<char>) -> Seq<char> {
    let last = qname.skip(segment_start(qname, qname.len() as int));
    if last.len() == 0 {
        qname
    } else {
        last
    }
}

/// The short name of a module.
#[verifier::loop_isolation(false)]
fn short_module_name(qname: &str) -> (r: String)
    ensures
        r@ == module_name(qname@),
{
    let s = chars_of(qname);
    let n: usize = s.len();
    let mut k: usize = n;
    while k > 0 && s[k - 1] != '/' && s[k - 1] != ':'
        invariant
            k <= n == s@.len(),
            segment_start(s@, n as int) == segment_start(s@, k as int),
        decreases k,
    {
        k -= 1;
    }
    let last = string_of(s.as_slice(), k, n);
    assert(last@ =~= qname@.skip(k as int));
    if last.as_str().is_empty() {
        copy(qname)
    } else {
        last
    }
}

/// The node of a module.
pub open spec fn module_node(project: Seq<char>, qname: Seq<char>) -> NodeView {
    NodeView {
        id: kind_id(project, qname, NodeKind::Module),
        kind: NodeKind::Module,
        qualified_name: qname,
        name: module_name(qname),
        file_path: None,
        span: None,
        metadata: Seq::empty(),
    }
}

/// A graph, and the id of each module's node.
pub struct Placed {
    pub graph: GraphView,
    pub modules: Seq<(Seq<char>, Seq<char>)>,
}

/// The graph with a module.
pub open spec fn with_module(p: Placed, project: Seq<char>, qname: Seq<char>, project_id: Seq<char>) -> Placed {
    if table_get(p.modules, qname) is Some {
        p
    } else {
        let node = module_node(project, qname);
        Placed {
            graph: p.graph.insert(node).relate(plain_edge(project_id, node.id, RelationKind::Contains)),
            modules: p.modules.push((qname, node.id)),
        }
    }
}

/// The id of a module's node.
pub open spec fn module_id(modules: Seq<(Seq<char>, Seq<char>)>, project: Seq<char>, qname: Seq<char>) -> Seq<char> {
    match table_get(modules, qname) {
        Some(id) => id,
        None => kind_id(project, qname, NodeKind::Module),
    }
}

/// The node of a file.
pub open spec fn family_file(project: Seq<char>, file_rel: Seq<char>) -> NodeView {
    NodeView {
        id: kind_id(project, file_rel, NodeKind::File),
        kind: NodeKind::File,
        qualified_name: file_rel,
        name: base(file_rel),
        file_path: Some(file_rel),
        span: None,
        metadata: Seq::empty(),
    }
}

/// The graph with a file in its module.
pub open spec fn with_family_file(p: Placed, project: Seq<char>, project_id: Seq<char>, file_rel: Seq<char>) -> Placed {
    let node = family_file(project, file_rel);
    if p.graph.has(node.id) {
        p
    } else {
        let qname = module_of(file_rel, project);
        let placed = with_module(Placed { graph: p.graph.insert(node), ..p }, project, qname, project_id);
        Placed {
            graph: placed.graph.relate(
                plain_edge(module_id(p.modules, project, qname), node.id, RelationKind::Contains),
            ),
            ..placed
        }
    }
}

/// The graph with the first `n` files. They come before what is in them, so that
/// a header is there whichever file is written first.
pub open spec fn with_family_files(
    g: GraphView,
    project: Seq<char>,
    project_id: Seq<char>,
    sources: Seq<OwnedView>,
    n: int,
) -> Placed
    decreases n,
{
    if n <= 0 || n > sources.len() {
        Placed { graph: g, modules: Seq::empty() }
    } else {
        with_family_file(
            with_family_files(g, project, project_id, sources, n - 1),
            project,
            project_id,
            sources[n - 1].file_rel,
        )
    }
}

/// The paths of the files.
pub open spec fn paths_of(sources: Seq<OwnedView>) -> Seq<Seq<char>> {
    sources.map_values(|s: OwnedView| s.file_rel)
}

/// A file that was analysed.
pub struct AnalysedView {
    pub file_rel: Seq<char>,
    pub file_id: Seq<char>,
    pub facts: FactsView,
    pub boundaries: Seq<BoundaryView>,
}

/// A file that was analysed.
pub struct Analysed {
    pub file_rel: String,
    pub file_id: String,
    pub facts: FileFacts,
    pub boundaries: Vec<BoundaryRef>,
}

impl View for Analysed {
    type V = AnalysedView;

    open spec fn view(&self) -> AnalysedView {
        AnalysedView {
            file_rel: self.file_rel@,
            file_id: self.file_id@,
            facts: self.facts@,
            boundaries: views(self.boundaries@),
        }
    }
}

/// What a source contributes. The ports that others found come after the ones
/// read off the source.
pub open spec fn analysed_source(
    dialect: Dialect,
    project: Seq<char>,
    records: Seq<Seq<char>>,
    s: OwnedView,
) -> AnalysedView {
    AnalysedView {
        file_rel: s.file_rel,
        file_id: kind_id(project, s.file_rel, NodeKind::File),
        facts: source_facts(dialect, records, s),
        boundaries: ports_in(parsed_tree(grammar(dialect), s.source)->0, dialect, matches_in(dialect, s.source))
            + s.extra,
    }
}

/// The graph with the facts of the first `n` sources.
pub open spec fn with_sources(
    g: GraphView,
    c: EmitContext,
    dialect: Dialect,
    records: Seq<Seq<char>>,
    sources: Seq<OwnedView>,
    n: int,
) -> GraphView
    decreases n,
{
    if n <= 0 || n > sources.len() {
        g
    } else {
        let a = analysed_source(dialect, c.project, records, sources[n - 1]);
        with_facts(with_sources(g, c, dialect, records, sources, n - 1), c, a.facts, a.file_id)
    }
}

/// A root that was read.
pub struct FamilyBuiltView {
    pub project: Seq<char>,
    pub files: Seq<AnalysedView>,
}

/// A root that was read.
pub struct FamilyBuilt {
    pub project: String,
    pub files: Vec<Analysed>,
}

impl View for FamilyBuilt {
    type V = FamilyBuiltView;

    open spec fn view(&self) -> FamilyBuiltView {
        FamilyBuiltView { project: self.project@, files: views(self.files@) }
    }
}

/// What the sources contribute.
pub open spec fn analysed_sources(
    dialect: Dialect,
    project: Seq<char>,
    records: Seq<Seq<char>>,
    sources: Seq<OwnedView>,
) -> Seq<AnalysedView> {
    sources.map_values(|s: OwnedView| analysed_source(dialect, project, records, s))
}

/// The sources of a root that the dialect reads.
pub open spec fn root_sources(dialect: Dialect, project_root: Seq<char>, root: FamilyRootView) -> Seq<OwnedView> {
    owned_sources(dialect, project_root, root.dir, root.files, root.files.len() as int)
}

/// The graph and the findings of a root.
#[verifier::opaque]
pub open spec fn family_root_built(
    dialect: Dialect,
    project_root: Seq<char>,
    g: GraphView,
    root: FamilyRootView,
) -> (GraphView, FamilyBuiltView) {
    let project = root.project();
    let sources = root_sources(dialect, project_root, root);
    let n = sources.len() as int;
    let records = records_of(dialect, sources, n);
    let node = project_node(project, project, project);
    let names = sorted_names(root.packages);
    let depending = declared(g.insert(node), project, node.id, names, names.len() as int);
    let placed = with_family_files(depending, project, node.id, sources, n);
    let c = EmitContext {
        project,
        entries: ledger_after(dialect, records, sources, n),
        search_dirs: existing_dirs(root.existing, 4),
        known_files: paths_of(sources),
    };
    (
        with_sources(placed.graph, c, dialect, records, sources, n),
        FamilyBuiltView { project, files: analysed_sources(dialect, project, records, sources) },
    )
}

/// Whether a source of a root stops the analysis.
pub open spec fn root_fails(dialect: Dialect, root: FamilyRootView) -> bool {
    exists|i: int| 0 <= i < root.files.len() && fails(dialect, #[trigger] root.files[i])
}

/// A source that the dialect reads.
struct Owned {
    file_rel: String,
    source: Vec<u8>,
    extra: Vec<BoundaryRef>,
}

impl View for Owned {
    type V = OwnedView;

    closed spec fn view(&self) -> OwnedView {
        OwnedView { file_rel: self.file_rel@, source: self.source@, extra: views(self.extra@) }
    }
}

/// Whether every source can be parsed.
spec fn all_parsed(dialect: Dialect, sources: Seq<OwnedView>) -> bool {
    forall|i: int| 0 <= i < sources.len() ==> parsed_tree(grammar(dialect), (#[trigger] sources[i]).source) is Some
}

/// The sources that the dialect reads; `None` where one stops the analysis.
#[verifier::loop_isolation(false)]
fn own_sources(dialect: Dialect, project_root: &str, root: &FamilyRoot) -> (r: Option<Vec<Owned>>)
    ensures
        r is None <==> root_fails(dialect, root@),
        r is Some ==> {
            &&& views(r->0@) == root_sources(dialect, project_root@, root@)
            &&& all_parsed(dialect, views(r->0@))
        },
{
    let ghost fs = root@.files;
    let mut out: Vec<Owned> = Vec::new();
    let mut i: usize = 0;
    assert(views(out@) =~= Seq::<OwnedView>::empty());
    while i < root.files.len()
        invariant
            i <= root.files@.len(),
            views(out@) == owned_sources(dialect, project_root@, root.dir@, fs, i as int),
            all_parsed(dialect, views(out@)),
            forall|k: int| 0 <= k < i ==> !fails(dialect, #[trigger] fs[k]),
        decreases root.files@.len() - i,
    {
        let f = &root.files[i];
        assert(fs[i as int] == f@);
        if let Some(bytes) = &f.source {
            match claims(dialect, f.path.as_str(), bytes.as_slice()) {
                Some(mine) => {
                    if mine {
                        if parse(grammar_of(dialect), bytes.as_slice()).is_none() {
                            assert(fails(dialect, fs[i as int]));
                            return None;
                        }
                        let file_rel = relative_to(f.path.as_str(), project_root, root.dir.as_str());
                        let ghost before_add = views(out@);
                        let source = vstd::slice::slice_to_vec(bytes.as_slice());
                        let mut extra: Vec<BoundaryRef> = Vec::new();
                        add_ports(&mut extra, &f.extra);
                        assert(views(extra@) =~= f@.extra);
                        let o = Owned { file_rel, source, extra };
                        let ghost ov = o@;
                        add_item(&mut out, o);
                        assert forall|k: int| 0 <= k < views(out@).len() implies parsed_tree(
                            grammar(dialect),
                            (#[trigger] views(out@)[k]).source,
                        ) is Some by {
                            if k < before_add.len() {
                                assert(views(out@)[k] == before_add[k]);
                            } else {
                                assert(views(out@)[k] == ov);
                            }
                        }
                    }
                },
                None => {
                    assert(fails(dialect, fs[i as int]));
                    return None;
                },
            }
        }
        i += 1;
    }
    Some(out)
}

/// Makes sure that a module has a node inside the project; returns its id.
fn ensure_module(graph: &mut Graph, project: &str, qname: &str, project_id: &str, modules: &mut Table) -> (id: String)
    requires
        old(graph).wf(),
        old(modules).wf(),
    ensures
        final(graph).wf(),
        final(modules).wf(),
        (Placed { graph: final(graph)@, modules: final(modules)@ }) == with_module(
            (Placed { graph: old(graph)@, modules: old(modules)@ }),
            project@,
            qname@,
            project_id@,
        ),
        id@ == module_id(old(modules)@, project@, qname@),
{
    if let Some(id) = modules.get(qname) {
        return id;
    }
    let id = node_kind_id(project, qname, NodeKind::Module);
    let node = Node {
        id: copy(id.as_str()),
        kind: NodeKind::Module,
        qualified_name: copy(qname),
        name: short_module_name(qname),
        file_path: None,
        span: None,
        metadata: Metadata::new(),
    };
    graph.insert_node(node);
    graph.push_relation(Relation::plain(project_id, id.as_str(), RelationKind::Contains));
    modules.add(qname, id.as_str());
    id
}

/// Makes sure that a file has a node in its module.
fn ensure_family_file(graph: &mut Graph, project: &str, project_id: &str, file_rel: &str, modules: &mut Table)
    requires
        old(graph).wf(),
        old(modules).wf(),
    ensures
        final(graph).wf(),
        final(modules).wf(),
        (Placed { graph: final(graph)@, modules: final(modules)@ }) == with_family_file(
            (Placed { graph: old(graph)@, modules: old(modules)@ }),
            project@,
            project_id@,
            file_rel@,
        ),
{
    let id = node_kind_id(project, file_rel, NodeKind::File);
    if graph.has_node(id.as_str()) {
        return;
    }
    let node = Node {
        id: copy(id.as_str()),
        kind: NodeKind::File,
        qualified_name: copy(file_rel),
        name: base_name(file_rel),
        file_path: Some(copy(file_rel)),
        span: None,
        metadata: Metadata::new(),
    };
    graph.insert_node(node);
    let qname = directory_module(file_rel, project);
    let module = ensure_module(graph, project, qname.as_str(), project_id, modules);
    graph.push_relation(Relation::plain(module.as_str(), id.as_str(), RelationKind::Contains));
}

/// The records that sources declare.
#[verifier::loop_isolation(false)]
fn collect_records(dialect: Dialect, sources: &Vec<Owned>) -> (r: Vec<String>)
    requires
        all_parsed(dialect, views(sources@)),
    ensures
        views(r@) == records_of(dialect, views(sources@), sources@.len() as int),
{
    let ghost ss = views(sources@);
    let mut records: Vec<String> = Vec::new();
    let mut i: usize = 0;
    assert(views(records@) =~= Seq::<Seq<char>>::empty());
    while i < sources.len()
        invariant
            i <= sources@.len(),
            views(records@) == records_of(dialect, ss, i as int),
        decreases sources@.len() - i,
    {
        assert(ss[i as int] == sources@[i as int]@);
        if let Some(p) = parse(grammar_of(dialect), sources[i].source.as_slice()) {
            let scopes = declared_scopes(p.syntax(), 0);
            add_all_new(&mut records, &scopes.records);
            assert(scopes@.records.len() == scopes.records@.len());
        }
        i += 1;
    }
    records
}

/// Reads the facts of every source, and records every declaring site.
#[verifier::loop_isolation(false)]
fn survey_sources(dialect: Dialect, records: &Vec<String>, sources: &Vec<Owned>, ledger: &mut DeclLedger) -> (r: Vec<
    FileFacts,
>)
    requires
        all_parsed(dialect, views(sources@)),
        old(ledger).wf(),
        old(ledger)@ == Seq::<DeclView>::empty(),
    ensures
        final(ledger).wf(),
        final(ledger)@ == ledger_after(dialect, views(records@), views(sources@), sources@.len() as int),
        r@.len() == sources@.len(),
        forall|i: int|
            0 <= i < r@.len() ==> (#[trigger] r@[i])@ == source_facts(dialect, views(records@), views(sources@)[i]),
{
    let ghost ss = views(sources@);
    let ghost rs = views(records@);
    let mut out: Vec<FileFacts> = Vec::new();
    let mut i: usize = 0;
    while i < sources.len()
        invariant
            i <= sources@.len(),
            ledger.wf(),
            ledger@ == ledger_after(dialect, rs, ss, i as int),
            out@.len() == i,
            forall|k: int| 0 <= k < i ==> (#[trigger] out@[k])@ == source_facts(dialect, rs, ss[k]),
        decreases sources@.len() - i,
    {
        let s = &sources[i];
        assert(ss[i as int] == s@);
        match parse(grammar_of(dialect), s.source.as_slice()) {
            Some(p) => {
                let facts = read_file(p.syntax(), 0, dialect, s.file_rel.as_str(), records);
                facts.survey(ledger);
                out.push(facts);
            },
            None => {
                assert(false);
            },
        }
        i += 1;
    }
    out
}

/// Writes the facts of every source; returns what each one contributes.
#[verifier::loop_isolation(false)]
fn emit_sources(
    graph: &mut Graph,
    emitter: &CFamilyEmitter,
    dialect: Dialect,
    records: &Vec<String>,
    sources: &Vec<Owned>,
    facts: Vec<FileFacts>,
) -> (r: Vec<Analysed>)
    requires
        old(graph).wf(),
        emitter.ledger.wf(),
        all_parsed(dialect, views(sources@)),
        facts@.len() == sources@.len(),
        forall|i: int|
            0 <= i < facts@.len() ==> (#[trigger] facts@[i])@ == source_facts(
                dialect,
                views(records@),
                views(sources@)[i],
            ),
    ensures
        final(graph).wf(),
        final(graph)@ == with_sources(
            old(graph)@,
            emitter@,
            dialect,
            views(records@),
            views(sources@),
            sources@.len() as int,
        ),
        views(r@) == analysed_sources(dialect, emitter@.project, views(records@), views(sources@)),
{
    let ghost g = graph@;
    let ghost ss = views(sources@);
    let ghost rs = views(records@);
    let ghost all = analysed_sources(dialect, emitter@.project, rs, ss);
    let ghost given = facts@;
    let mut rest = facts;
    let mut out: Vec<Analysed> = Vec::new();
    let mut i: usize = 0;
    assert(views(out@) =~= all.take(0));
    assert(rest@ =~= given.skip(0));
    while i < sources.len()
        invariant
            i <= sources@.len(),
            graph.wf(),
            graph@ == with_sources(g, emitter@, dialect, rs, ss, i as int),
            views(out@) == all.take(i as int),
            rest@ == given.skip(i as int),
        decreases sources@.len() - i,
    {
        let s = &sources[i];
        assert(ss[i as int] == s@);
        assert(given[i as int]@ == source_facts(dialect, rs, ss[i as int]));
        let own = rest.remove(0);
        assert(rest@ =~= given.skip(i + 1));
        let file_id = node_kind_id(emitter.project_name, s.file_rel.as_str(), NodeKind::File);
        emitter.emit(graph, &own, file_id.as_str());
        match parse(grammar_of(dialect), s.source.as_slice()) {
            Some(p) => {
                let mut boundaries = parsed_boundaries(&p, dialect);
                add_ports(&mut boundaries, &s.extra);
                let a = Analysed { file_rel: copy(s.file_rel.as_str()), file_id, facts: own, boundaries };
                assert(a@ == all[i as int]);
                add_item(&mut out, a);
            },
            None => {
                assert(false);
            },
        }
        assert(all.take(i + 1) =~= all.take(i as int).push(all[i as int]));
        i += 1;
    }
    assert(all.take(sources@.len() as int) =~= all);
    out
}

/// Reads a root into the graph; `None` where a source stops the analysis.
///
/// The records of all files come first: they tell a method from a function in a
/// namespace. Then every declaring site is recorded before the first node is
/// written, then nodes are written in the order of the files.
#[verifier::loop_isolation(false)]
pub fn build_root(graph: &mut Graph, dialect: Dialect, project_root: &str, root: &FamilyRoot) -> (r: Option<FamilyBuilt>)
    requires
        old(graph).wf(),
    ensures
        final(graph).wf(),
        r is None <==> root_fails(dialect, root@),
        r is Some ==> (final(graph)@, r->0@) == family_root_built(dialect, project_root@, old(graph)@, root@),
{
    let sources = match own_sources(dialect, project_root, root) {
        Some(s) => s,
        None => {
            return None;
        },
    };
    let ghost ss = views(sources@);
    let directory_name = base_name(root.dir.as_str());
    let project = project_name(&root.listfile, directory_name.as_str());
    let records = collect_records(dialect, &sources);
    let mut ledger = DeclLedger::new();
    let facts = survey_sources(dialect, &records, &sources, &mut ledger);
    let project_id = ensure_project(graph, project.as_str(), project.as_str(), project.as_str());
    let names = dependencies(&root.build);
    declare_dependencies(graph, project.as_str(), project_id.as_str(), &names);
    let ghost depending = graph@;
    let mut modules = Table::new();
    let mut known: Vec<String> = Vec::new();
    let mut i: usize = 0;
    assert(views(known@) =~= paths_of(ss).take(0));
    while i < sources.len()
        invariant
            i <= sources@.len(),
            graph.wf(),
            modules.wf(),
            (Placed { graph: graph@, modules: modules@ }) == with_family_files(
                depending,
                project@,
                project_id@,
                ss,
                i as int,
            ),
            views(known@) == paths_of(ss).take(i as int),
        decreases sources@.len() - i,
    {
        assert(ss[i as int] == sources@[i as int]@);
        let file_rel = sources[i].file_rel.as_str();
        ensure_family_file(graph, project.as_str(), project_id.as_str(), file_rel, &mut modules);
        add_item(&mut known, copy(file_rel));
        assert(paths_of(ss).take(i + 1) =~= paths_of(ss).take(i as int).push(paths_of(ss)[i as int]));
        i += 1;
    }
    assert(paths_of(ss).take(sources@.len() as int) =~= paths_of(ss));
    let search_dirs = include_search_dirs(&root.existing);
    let emitter = CFamilyEmitter {
        project_name: project.as_str(),
        ledger: &ledger,
        search_dirs: &search_dirs,
        known_files: &known,
    };
    let files = emit_sources(graph, &emitter, dialect, &records, &sources, facts);
    proof {
        reveal(family_root_built);
    }
    Some(FamilyBuilt { project: copy(project.as_str()), files })
}

// ---------------------------------------------------------------------------
// Resolution
// ---------------------------------------------------------------------------

/// The declaration that a name means in a file, as a symbol index answers.
#[derive(Debug)]
pub struct IndexAnswer {
    pub qualified_name: String,
    pub kind: NodeKind,
}

impl View for IndexAnswer {
    type V = (Seq<char>, NodeKind);

    open spec fn view(&self) -> (Seq<char>, NodeKind) {
        (self.qualified_name@, self.kind)
    }
}

/// The views of optional answers.
pub open spec fn index_answers(answers: Seq<Option<IndexAnswer>>) -> Seq<Option<(Seq<char>, NodeKind)>> {
    answers.map_values(|a: Option<IndexAnswer>| opt_view(a))
}

/// The views of lists of optional answers.
pub open spec fn index_lists(answers: Seq<Vec<Option<IndexAnswer>>>) -> Seq<Seq<Option<(Seq<char>, NodeKind)>>> {
    answers.map_values(|v: Vec<Option<IndexAnswer>>| index_answers(v@))
}

/// How far resolution has come.
pub struct FamilyPass {
    pub graph: GraphView,
    pub queries: nat,
    pub resolved: nat,
    pub internal: nat,
    pub external: nat,
    pub unresolved: nat,
}

/// The key of a name that is declared in nothing its file can see. The place is
/// part of it, so that different unknowns stay apart.
pub open spec fn unknown_key(file_rel: Seq<char>, u: UseView) -> Seq<char> {
    u.name + "@"@ + file_rel + ":"@ + decimal(u.span.start_line as nat) + ":"@ + decimal(u.span.start_col as nat)
}

/// The pass after one place of use.
pub open spec fn family_step(
    project: Seq<char>,
    p: FamilyPass,
    file_rel: Seq<char>,
    file_id: Seq<char>,
    u: UseView,
    answer: Option<(Seq<char>, NodeKind)>,
) -> FamilyPass {
    match edge_of_role(u.role) {
        None => p,
        Some(kind) => {
            let asked = FamilyPass { queries: p.queries + 1, ..p };
            let enclosing = owner_id(project, u.owner, file_id);
            if !p.graph.has(enclosing) {
                FamilyPass { unresolved: p.unresolved + 1, ..asked }
            } else {
                match answer {
                    Some(a) => {
                        let target = kind_id(project, a.0, a.1);
                        if !p.graph.has(target) {
                            FamilyPass { unresolved: p.unresolved + 1, ..asked }
                        } else {
                            FamilyPass {
                                graph: p.graph.relate(plain_edge(enclosing, target, kind)),
                                resolved: p.resolved + 1,
                                internal: p.internal + 1,
                                ..asked
                            }
                        }
                    },
                    None => {
                        let node = external_node(project, unknown_key(file_rel, u), "unknown"@, "::"@);
                        FamilyPass {
                            graph: p.graph.insert(node).relate(plain_edge(enclosing, node.id, kind)),
                            resolved: p.resolved + 1,
                            external: p.external + 1,
                            ..asked
                        }
                    },
                }
            }
        },
    }
}

/// The pass after the first `k` places of use of a file.
pub open spec fn family_file_pass(
    project: Seq<char>,
    p: FamilyPass,
    file: AnalysedView,
    answers: Seq<Option<(Seq<char>, NodeKind)>>,
    k: int,
) -> FamilyPass
    decreases k,
{
    if k <= 0 || k > file.facts.occurrences.len() {
        p
    } else {
        family_step(
            project,
            family_file_pass(project, p, file, answers, k - 1),
            file.file_rel,
            file.file_id,
            file.facts.occurrences[k - 1],
            answers[k - 1],
        )
    }
}

/// The pass after the first `n` files of a root.
pub open spec fn family_pass(
    project: Seq<char>,
    p: FamilyPass,
    files: Seq<AnalysedView>,
    answers: Seq<Seq<Option<(Seq<char>, NodeKind)>>>,
    n: int,
) -> FamilyPass
    decreases n,
{
    if n <= 0 || n > files.len() {
        p
    } else {
        family_file_pass(
            project,
            family_pass(project, p, files, answers, n - 1),
            files[n - 1],
            answers[n - 1],
            files[n - 1].facts.occurrences.len() as int,
        )
    }
}

/// The pass before anything was resolved.
pub open spec fn no_pass(g: GraphView) -> FamilyPass {
    FamilyPass { graph: g, queries: 0, resolved: 0, internal: 0, external: 0, unresolved: 0 }
}

/// Whether the counters of a pass agree: every query is resolved or not, and
/// what is resolved is internal or external.
pub open spec fn counts_agree(p: FamilyPass) -> bool {
    p.queries == p.resolved + p.unresolved && p.resolved == p.internal + p.external
}

/// The counters agree after any number of places of use, and grow by at most one
/// for each of them.
pub proof fn family_file_counts(
    project: Seq<char>,
    p: FamilyPass,
    file: AnalysedView,
    answers: Seq<Option<(Seq<char>, NodeKind)>>,
    k: int,
)
    requires
        counts_agree(p),
        0 <= k <= file.facts.occurrences.len(),
    ensures
        counts_agree(family_file_pass(project, p, file, answers, k)),
        family_file_pass(project, p, file, answers, k).queries <= p.queries + k,
    decreases k,
{
    if k > 0 {
        family_file_counts(project, p, file, answers, k - 1);
    }
}

/// The places of use in the first `n` files.
pub open spec fn uses_in_files(files: Seq<AnalysedView>, n: int) -> nat
    decreases n,
{
    if n <= 0 || n > files.len() {
        0
    } else {
        uses_in_files(files, n - 1) + files[n - 1].facts.occurrences.len()
    }
}

proof fn uses_in_files_grow(files: Seq<AnalysedView>, n: int, m: int)
    requires
        0 <= n <= m <= files.len(),
    ensures
        uses_in_files(files, n) <= uses_in_files(files, m),
    decreases m - n,
{
    if n < m {
        uses_in_files_grow(files, n, m - 1);
    }
}

/// The counters agree after any number of files.
pub proof fn family_counts(
    project: Seq<char>,
    p: FamilyPass,
    files: Seq<AnalysedView>,
    answers: Seq<Seq<Option<(Seq<char>, NodeKind)>>>,
    n: int,
)
    requires
        counts_agree(p),
        0 <= n <= files.len(),
    ensures
        counts_agree(family_pass(project, p, files, answers, n)),
        family_pass(project, p, files, answers, n).queries <= p.queries + uses_in_files(files, n),
    decreases n,
{
    if n > 0 {
        family_counts(project, p, files, answers, n - 1);
        family_file_counts(
            project,
            family_pass(project, p, files, answers, n - 1),
            files[n - 1],
            answers[n - 1],
            files[n - 1].facts.occurrences.len() as int,
        );
    }
}

/// The id of the node that an owner names.
fn enclosing_id(project: &str, owner: &Owner, file_id: &str) -> (r: String)
    ensures
        r@ == owner_id(project@, owner@, file_id@),
{
    match owner {
        Owner::File => copy(file_id),
        Owner::Decl { qualified_name, kind } => node_kind_id(project, qualified_name.as_str(), *kind),
    }
}

/// Whether counters stand for a pass.
spec fn counts_are(m: ResolverMetrics, p: FamilyPass) -> bool {
    m.queries == p.queries && m.resolved == p.resolved && m.internal == p.internal && m.external == p.external
        && m.unresolved == p.unresolved && m.micros == 0
}

/// Binds the places of use of one file.
#[verifier::loop_isolation(false)]
fn resolve_file(
    graph: &mut Graph,
    project: &str,
    file: &Analysed,
    answers: &Vec<Option<IndexAnswer>>,
    m: &mut ResolverMetrics,
    Ghost(p): Ghost<FamilyPass>,
)
    requires
        old(graph).wf(),
        old(graph)@ == p.graph,
        counts_are(*old(m), p),
        counts_agree(p),
        answers@.len() == file.facts.occurrences@.len(),
        p.queries + file.facts.occurrences@.len() <= u64::MAX,
    ensures
        final(graph).wf(),
        ({
            let q = family_file_pass(
                project@,
                p,
                file@,
                index_answers(answers@),
                file.facts.occurrences@.len() as int,
            );
            &&& final(graph)@ == q.graph
            &&& counts_are(*final(m), q)
        }),
{
    let ghost us = file@.facts.occurrences;
    let ghost ans = index_answers(answers@);
    let mut k: usize = 0;
    while k < file.facts.occurrences.len()
        invariant
            k <= file.facts.occurrences@.len(),
            graph.wf(),
            ({
                let q = family_file_pass(project@, p, file@, ans, k as int);
                &&& graph@ == q.graph
                &&& counts_are(*m, q)
            }),
        decreases file.facts.occurrences@.len() - k,
    {
        let u = &file.facts.occurrences[k];
        proof {
            assert(us[k as int] == u@);
            assert(ans[k as int] == opt_view(answers@[k as int]));
            family_file_counts(project@, p, file@, ans, k as int);
        }
        if let Some(kind) = role_to_kind(u.role.as_str()) {
            m.queries = m.queries + 1;
            let enclosing = enclosing_id(project, &u.owner, file.file_id.as_str());
            if !graph.has_node(enclosing.as_str()) {
                m.unresolved = m.unresolved + 1;
            } else {
                match &answers[k] {
                    Some(a) => {
                        let target = node_kind_id(project, a.qualified_name.as_str(), a.kind);
                        if graph.has_node(target.as_str()) {
                            m.resolved = m.resolved + 1;
                            m.internal = m.internal + 1;
                            graph.push_relation(Relation::plain(enclosing.as_str(), target.as_str(), kind));
                        } else {
                            m.unresolved = m.unresolved + 1;
                        }
                    },
                    None => {
                        let mut key = copy(u.name.as_str());
                        key.append("@");
                        key.append(file.file_rel.as_str());
                        key.append(":");
                        key.append(decimal_text(u.span.start_line as u64).as_str());
                        key.append(":");
                        key.append(decimal_text(u.span.start_col as u64).as_str());
                        let target = ensure_external_symbol(graph, project, key.as_str(), "unknown", "::");
                        m.resolved = m.resolved + 1;
                        m.external = m.external + 1;
                        graph.push_relation(Relation::plain(enclosing.as_str(), target.as_str(), kind));
                    },
                }
            }
        }
        k += 1;
    }
}

/// Whether an index answered each place of use.
pub open spec fn index_fits(files: Seq<Analysed>, answers: Seq<Vec<Option<IndexAnswer>>>) -> bool {
    &&& answers.len() == files.len()
    &&& forall|i: int|
        0 <= i < files.len() ==> (#[trigger] answers[i])@.len() == files[i].facts.occurrences@.len()
    &&& uses_in_files(views(files), files.len() as int) <= u64::MAX
}

/// Binds the places of use of a root to what a symbol index answered for them.
///
/// A name that no visible declaration explains is kept against an external
/// symbol; a place whose own node, or whose target, is not in the graph counts
/// as unresolved.
#[verifier::loop_isolation(false)]
pub fn resolve(graph: &mut Graph, project: &str, files: &Vec<Analysed>, answers: &Vec<Vec<Option<IndexAnswer>>>) -> (m:
    ResolverMetrics)
    requires
        old(graph).wf(),
        index_fits(files@, answers@),
    ensures
        final(graph).wf(),
        ({
            let p = family_pass(
                project@,
                no_pass(old(graph)@),
                views(files@),
                index_lists(answers@),
                files@.len() as int,
            );
            &&& final(graph)@ == p.graph
            &&& m.queries == p.queries
            &&& m.resolved == p.resolved
            &&& m.internal == p.internal
            &&& m.external == p.external
            &&& m.unresolved == p.unresolved
            &&& m.micros == 0
        }),
{
    let ghost g = graph@;
    let ghost fs = views(files@);
    let ghost ans = index_lists(answers@);
    let mut m = ResolverMetrics::new();
    let mut i: usize = 0;
    while i < files.len()
        invariant
            i <= files@.len(),
            graph.wf(),
            ({
                let p = family_pass(project@, no_pass(g), fs, ans, i as int);
                &&& graph@ == p.graph
                &&& counts_are(m, p)
            }),
        decreases files@.len() - i,
    {
        let ghost p = family_pass(project@, no_pass(g), fs, ans, i as int);
        proof {
            assert(fs[i as int] == files@[i as int]@);
            assert(ans[i as int] == index_answers(answers@[i as int]@));
            family_counts(project@, no_pass(g), fs, ans, i as int);
            uses_in_files_grow(fs, i + 1, files@.len() as int);
            assert(fs[i as int].facts.occurrences.len() == files@[i as int].facts.occurrences@.len());
        }
        resolve_file(graph, project, &files[i], &answers[i], &mut m, Ghost(p));
        i += 1;
    }
    m
}

// ---------------------------------------------------------------------------
// The whole analysis
// ---------------------------------------------------------------------------

/// The graph and the findings of the first `n` roots.
pub open spec fn family_roots_built(
    dialect: Dialect,
    project_root: Seq<char>,
    roots: Seq<FamilyRootView>,
    n: int,
) -> (GraphView, Seq<FamilyBuiltView>)
    decreases n,
{
    if n <= 0 || n > roots.len() {
        (GraphView::empty(), Seq::empty())
    } else {
        let earlier = family_roots_built(dialect, project_root, roots, n - 1);
        let one = family_root_built(dialect, project_root, earlier.0, roots[n - 1]);
        (one.0, earlier.1.push(one.1))
    }
}

/// Whether a source of some root stops the analysis.
pub open spec fn some_root_fails(dialect: Dialect, roots: Seq<FamilyRootView>) -> bool {
    exists|i: int| 0 <= i < roots.len() && root_fails(dialect, #[trigger] roots[i])
}

/// A project whose structure was read, before resolution.
pub struct FamilyAnalysis {
    pub dialect: Dialect,
    pub graph: Graph,
    pub roots: Vec<FamilyBuilt>,
}

/// Reads the structure of every root; `None` where a source stops the analysis.
///
/// What comes back lists the places of use that a symbol index is to answer.
pub fn read_structure(dialect: Dialect, project_root: &str, roots: &Vec<FamilyRoot>) -> (r: Option<FamilyAnalysis>)
    ensures
        r is None <==> some_root_fails(dialect, views(roots@)),
        r is Some ==> {
            &&& r->0.dialect == dialect
            &&& r->0.graph.wf()
            &&& (r->0.graph@, views(r->0.roots@)) == family_roots_built(
                dialect,
                project_root@,
                views(roots@),
                roots@.len() as int,
            )
        },
{
    let mut graph = Graph::empty();
    let mut built: Vec<FamilyBuilt> = Vec::new();
    assert(views(built@) =~= Seq::<FamilyBuiltView>::empty());
    let mut i: usize = 0;
    while i < roots.len()
        invariant
            i <= roots@.len(),
            graph.wf(),
            (graph@, views(built@)) == family_roots_built(dialect, project_root@, views(roots@), i as int),
            forall|k: int| 0 <= k < i ==> !root_fails(dialect, #[trigger] views(roots@)[k]),
        decreases roots@.len() - i,
    {
        assert(views(roots@)[i as int] == roots@[i as int]@);
        match build_root(&mut graph, dialect, project_root, &roots[i]) {
            Some(b) => {
                add_item(&mut built, b);
            },
            None => {
                assert(root_fails(dialect, views(roots@)[i as int]));
                return None;
            },
        }
        i += 1;
    }
    Some(FamilyAnalysis { dialect, graph, roots: built })
}

/// The passes over the first `n` roots, and the counters they leave.
pub open spec fn family_passes(
    g: GraphView,
    roots: Seq<FamilyBuiltView>,
    answers: Seq<Seq<Seq<Option<(Seq<char>, NodeKind)>>>>,
    n: int,
) -> FamilyPass
    decreases n,
{
    if n <= 0 || n > roots.len() {
        no_pass(g)
    } else {
        let before = family_passes(g, roots, answers, n - 1);
        let b = roots[n - 1];
        let p = family_pass(b.project, no_pass(before.graph), b.files, answers[n - 1], b.files.len() as int);
        FamilyPass {
            graph: p.graph,
            queries: before.queries + p.queries,
            resolved: before.resolved + p.resolved,
            internal: before.internal + p.internal,
            external: before.external + p.external,
            unresolved: before.unresolved + p.unresolved,
        }
    }
}

/// The places of use in the first `n` roots.
pub open spec fn uses_in_roots(roots: Seq<FamilyBuiltView>, n: int) -> nat
    decreases n,
{
    if n <= 0 || n > roots.len() {
        0
    } else {
        uses_in_roots(roots, n - 1) + uses_in_files(roots[n - 1].files, roots[n - 1].files.len() as int)
    }
}

proof fn uses_in_roots_grow(roots: Seq<FamilyBuiltView>, n: int, m: int)
    requires
        0 <= n <= m <= roots.len(),
    ensures
        uses_in_roots(roots, n) <= uses_in_roots(roots, m),
    decreases m - n,
{
    if n < m {
        uses_in_roots_grow(roots, n, m - 1);
    }
}

/// Over all roots the counters agree.
pub proof fn family_passes_agree(
    g: GraphView,
    roots: Seq<FamilyBuiltView>,
    answers: Seq<Seq<Seq<Option<(Seq<char>, NodeKind)>>>>,
    n: int,
)
    requires
        0 <= n <= roots.len(),
    ensures
        counts_agree(family_passes(g, roots, answers, n)),
        family_passes(g, roots, answers, n).queries <= uses_in_roots(roots, n),
    decreases n,
{
    if n > 0 {
        family_passes_agree(g, roots, answers, n - 1);
        let before = family_passes(g, roots, answers, n - 1);
        let b = roots[n - 1];
        family_counts(b.project, no_pass(before.graph), b.files, answers[n - 1], b.files.len() as int);
    }
}

/// The views of answers for each file of each root.
pub open spec fn root_answers(
    answers: Seq<Vec<Vec<Option<IndexAnswer>>>>,
) -> Seq<Seq<Seq<Option<(Seq<char>, NodeKind)>>>> {
    answers.map_values(|v: Vec<Vec<Option<IndexAnswer>>>| index_lists(v@))
}

/// The ports of the first `n` files, for those that have any.
pub open spec fn ports_of_files(files: Seq<AnalysedView>, n: int) -> Seq<FileBoundariesView>
    decreases n,
{
    if n <= 0 || n > files.len() {
        Seq::empty()
    } else {
        let f = files[n - 1];
        let earlier = ports_of_files(files, n - 1);
        if f.boundaries.len() == 0 {
            earlier
        } else {
            earlier.push(FileBoundariesView { file_rel: f.file_rel, file_id: f.file_id, refs: f.boundaries })
        }
    }
}

/// The graph with the ports of the first `n` roots.
pub open spec fn with_family_ports(g: GraphView, roots: Seq<FamilyBuiltView>, n: int) -> GraphView
    decreases n,
{
    if n <= 0 || n > roots.len() {
        g
    } else {
        let before = with_family_ports(g, roots, n - 1);
        let ports = ports_of_files(roots[n - 1].files, roots[n - 1].files.len() as int);
        with_all_ports(before, before.nodes, ports, ports.len() as int)
    }
}

/// The ports of files, for those that have any.
#[verifier::loop_isolation(false)]
fn gather_ports(files: &Vec<Analysed>) -> (r: Vec<FileBoundaries>)
    ensures
        views(r@) == ports_of_files(views(files@), files@.len() as int),
{
    let ghost fs = views(files@);
    let mut out: Vec<FileBoundaries> = Vec::new();
    let mut i: usize = 0;
    assert(views(out@) =~= Seq::<FileBoundariesView>::empty());
    while i < files.len()
        invariant
            i <= files@.len(),
            views(out@) == ports_of_files(fs, i as int),
        decreases files@.len() - i,
    {
        let f = &files[i];
        assert(fs[i as int] == f@);
        assert(f@.boundaries.len() == f.boundaries@.len());
        if f.boundaries.len() > 0 {
            let mut refs: Vec<BoundaryRef> = Vec::new();
            add_ports(&mut refs, &f.boundaries);
            assert(views(refs@) =~= f@.boundaries);
            add_item(
                &mut out,
                FileBoundaries { file_rel: copy(f.file_rel.as_str()), file_id: copy(f.file_id.as_str()), refs },
            );
        }
        i += 1;
    }
    out
}

/// The counters of a finished pass.
pub open spec fn family_counters(p: FamilyPass, micros: u64) -> ResolverMetrics {
    ResolverMetrics {
        queries: p.queries as u64,
        resolved: p.resolved as u64,
        internal: p.internal as u64,
        external: p.external as u64,
        unresolved: p.unresolved as u64,
        micros,
    }
}

/// What an index gave for each root, how complete the index is, and the
/// microseconds it took.
pub struct FamilyResolution {
    pub answers: Vec<Vec<Vec<Option<IndexAnswer>>>>,
    pub status: ResolverStatus,
    pub micros: u64,
}

impl FamilyResolution {
    /// What a symbol table gave. It is no type checker, so that a graph it
    /// resolved is never complete.
    pub fn of_table(answers: Vec<Vec<Vec<Option<IndexAnswer>>>>, micros: u64) -> (r: FamilyResolution)
        ensures
            r.answers == answers,
            r.micros == micros,
            r.status == ResolverStatus::Degraded,
    {
        FamilyResolution { answers, status: ResolverStatus::Degraded, micros }
    }
}

/// What an analysis goes by: the index of a compiler front end, or the symbol
/// table where that index is not to be had.
pub fn choose_resolution(compiler: Option<FamilyResolution>, table: Option<FamilyResolution>) -> (r: Option<
    FamilyResolution,
>)
    ensures
        r == (if compiler is Some && compiler->0.status != ResolverStatus::Unavailable {
            compiler
        } else {
            table
        }),
{
    match compiler {
        Some(c) => {
            if c.status == ResolverStatus::Unavailable {
                table
            } else {
                Some(c)
            }
        },
        None => table,
    }
}

/// The declaration that a compiler's answer for a place of use points at.
pub open spec fn declared_answer(
    nodes: Seq<NodeView>,
    project_root: Seq<char>,
    answer: Option<ResolvedView>,
) -> Option<(Seq<char>, NodeKind)> {
    match answer {
        Some(a) => match internal_target(nodes, project_root, a) {
            Some(id) => match node_at(nodes, id) {
                Some(n) => Some((n.qualified_name, n.kind)),
                None => None,
            },
            None => None,
        },
        None => None,
    }
}

/// The declarations that a compiler's answers for places of use point at. An
/// answer outside the project points at none.
#[verifier::loop_isolation(false)]
pub fn declared_answers(graph: &Graph, project_root: &str, answers: &Vec<Option<ResolvedRef>>) -> (r: Vec<
    Option<IndexAnswer>,
>)
    requires
        graph.wf(),
    ensures
        r@.len() == answers@.len(),
        forall|i: int|
            0 <= i < r@.len() ==> opt_view(#[trigger] r@[i]) == declared_answer(
                graph@.nodes,
                project_root@,
                opt_view(answers@[i]),
            ),
{
    let index = NameIndex::from_graph(graph);
    let mut out: Vec<Option<IndexAnswer>> = Vec::new();
    let mut i: usize = 0;
    while i < answers.len()
        invariant
            i <= answers@.len(),
            out@.len() == i,
            forall|k: int|
                0 <= k < i ==> opt_view(#[trigger] out@[k]) == declared_answer(
                    graph@.nodes,
                    project_root@,
                    opt_view(answers@[k]),
                ),
        decreases answers@.len() - i,
    {
        let mut found: Option<IndexAnswer> = None;
        if let Some(a) = &answers[i] {
            if let Some(id) = internal_id(&index, project_root, a) {
                if let Some(n) = graph.node(id.as_str()) {
                    found = Some(IndexAnswer { qualified_name: copy(n.qualified_name.as_str()), kind: n.kind });
                }
            }
        }
        out.push(found);
        i += 1;
    }
    out
}

/// Whether an index answered each place of use of each root.
pub open spec fn resolution_fits(roots: Seq<FamilyBuilt>, resolution: Option<FamilyResolution>) -> bool {
    resolution is Some ==> {
        &&& resolution->0.answers@.len() == roots.len()
        &&& forall|i: int| 0 <= i < roots.len() ==> index_fits(roots[i].files@, (#[trigger] resolution->0.answers@[i])@)
        &&& uses_in_roots(views(roots), roots.len() as int) <= u64::MAX
    }
}

/// Tells whether an index answered each place of use of some files.
fn check_index(files: &Vec<Analysed>, answers: &Vec<Vec<Option<IndexAnswer>>>) -> (r: bool)
    ensures
        r == index_fits(files@, answers@),
{
    if answers.len() != files.len() {
        return false;
    }
    let mut i: usize = 0;
    while i < files.len()
        invariant
            i <= files@.len(),
            answers@.len() == files@.len(),
            forall|k: int|
                0 <= k < i ==> (#[trigger] answers@[k])@.len() == files@[k].facts.occurrences@.len(),
        decreases files@.len() - i,
    {
        if answers[i].len() != files[i].facts.occurrences.len() {
            assert(answers@[i as int]@.len() != files@[i as int].facts.occurrences@.len());
            return false;
        }
        i += 1;
    }
    count_uses(files, 0).is_some()
}

/// Counts the places of use of some files on top of others; `None` where there
/// are too many.
fn count_uses(files: &Vec<Analysed>, earlier: u64) -> (r: Option<u64>)
    ensures
        ({
            let total = earlier + uses_in_files(views(files@), files@.len() as int);
            match r {
                Some(n) => n == total,
                None => total > u64::MAX,
            }
        }),
{
    let ghost fs = views(files@);
    let mut total: u64 = earlier;
    let mut i: usize = 0;
    while i < files.len()
        invariant
            i <= files@.len(),
            fs == views(files@),
            total == earlier + uses_in_files(fs, i as int),
        decreases files@.len() - i,
    {
        assert(fs[i as int] == files@[i as int]@);
        let more: u64 = files[i].facts.occurrences.len() as u64;
        proof {
            uses_in_files_grow(fs, i + 1, files@.len() as int);
        }
        if more > u64::MAX - total {
            return None;
        }
        total = total + more;
        i += 1;
    }
    Some(total)
}

/// Tells whether an index answered each place of use of each root.
#[verifier::loop_isolation(false)]
pub fn check_resolution(roots: &Vec<FamilyBuilt>, resolution: &Option<FamilyResolution>) -> (r: bool)
    ensures
        r == resolution_fits(roots@, *resolution),
{
    match resolution {
        Some(given) => {
            if given.answers.len() != roots.len() {
                return false;
            }
            let ghost rs = views(roots@);
            let mut total: u64 = 0;
            let mut counted = true;
            let mut i: usize = 0;
            while i < roots.len()
                invariant
                    i <= roots@.len(),
                    rs == views(roots@),
                    given.answers@.len() == roots@.len(),
                    forall|k: int| 0 <= k < i ==> index_fits(roots@[k].files@, (#[trigger] given.answers@[k])@),
                    counted ==> total == uses_in_roots(rs, i as int),
                    !counted ==> uses_in_roots(rs, i as int) > u64::MAX,
                decreases roots@.len() - i,
            {
                assert(rs[i as int] == roots@[i as int]@);
                if !check_index(&roots[i].files, &given.answers[i]) {
                    assert(!index_fits(roots@[i as int].files@, given.answers@[i as int]@));
                    return false;
                }
                if counted {
                    match count_uses(&roots[i].files, total) {
                        Some(n) => {
                            total = n;
                        },
                        None => {
                            counted = false;
                        },
                    }
                }
                i += 1;
            }
            counted
        },
        None => true,
    }
}

/// The status of an analysis: that of the index it went by.
pub open spec fn family_status(resolution: Option<FamilyResolution>) -> ResolverStatus {
    match resolution {
        Some(r) => r.status,
        None => ResolverStatus::Unavailable,
    }
}

/// The graph of a finished analysis.
pub open spec fn family_completed(
    g: GraphView,
    roots: Seq<FamilyBuiltView>,
    resolution: Option<FamilyResolution>,
) -> GraphView {
    let n = roots.len() as int;
    let full = match resolution {
        Some(r) => {
            let p = family_passes(g, roots, root_answers(r.answers@), n);
            with_outcome(with_family_ports(p.graph, roots, n), family_status(resolution), family_counters(p, r.micros))
        },
        None => with_outcome(with_family_ports(g, roots, n), family_status(resolution), ResolverMetrics::zero()),
    };
    GraphView { relations: without_repeats(full.relations, full.relations.len() as int), ..full }
}

/// The message with which a strict analysis refuses a graph.
pub open spec fn family_strict_message(dialect: Dialect, status: ResolverStatus) -> Seq<char> {
    dialect.name() + " resolver status is '"@ + status.name()
        + "'; refusing to return a degraded graph in strict mode. The C family has no compiler-backed resolver — see the docs for why."@
}

/// Binds the places of use of every root.
#[verifier::loop_isolation(false)]
fn resolve_roots(graph: &mut Graph, roots: &Vec<FamilyBuilt>, answers: &Vec<Vec<Vec<Option<IndexAnswer>>>>) -> (m:
    ResolverMetrics)
    requires
        old(graph).wf(),
        answers@.len() == roots@.len(),
        forall|i: int| 0 <= i < roots@.len() ==> index_fits(roots@[i].files@, (#[trigger] answers@[i])@),
        uses_in_roots(views(roots@), roots@.len() as int) <= u64::MAX,
    ensures
        final(graph).wf(),
        ({
            let p = family_passes(old(graph)@, views(roots@), root_answers(answers@), roots@.len() as int);
            &&& final(graph)@ == p.graph
            &&& m == family_counters(p, 0)
        }),
{
    let ghost g = graph@;
    let ghost rs = views(roots@);
    let ghost ans = root_answers(answers@);
    let mut m = ResolverMetrics::new();
    let mut i: usize = 0;
    while i < roots.len()
        invariant
            i <= roots@.len(),
            graph.wf(),
            ({
                let p = family_passes(g, rs, ans, i as int);
                &&& graph@ == p.graph
                &&& counts_are(m, p)
            }),
        decreases roots@.len() - i,
    {
        let b = &roots[i];
        proof {
            assert(rs[i as int] == b@);
            assert(ans[i as int] == index_lists(answers@[i as int]@));
            assert(b@.files.len() == b.files@.len());
            family_passes_agree(g, rs, ans, i + 1);
            uses_in_roots_grow(rs, i + 1, roots@.len() as int);
            assert(index_fits(roots@[i as int].files@, answers@[i as int]@));
        }
        let pass = resolve(graph, b.project.as_str(), &b.files, &answers[i]);
        m.merge(&pass);
        i += 1;
    }
    proof {
        family_passes_agree(g, rs, ans, roots@.len() as int);
        assert(m == family_counters(family_passes(g, rs, ans, roots@.len() as int), 0));
    }
    m
}

/// Finishes an analysis: resolution, then ports, then the outcome. In strict mode
/// a graph that is not complete is refused.
#[verifier::loop_isolation(false)]
pub fn analyze_family(analysis: FamilyAnalysis, resolution: &Option<FamilyResolution>, strict: bool) -> (r: Result<
    Graph,
    String,
>)
    requires
        analysis.graph.wf(),
        resolution_fits(analysis.roots@, *resolution),
    ensures
        match r {
            Ok(g) => {
                &&& !strict || family_status(*resolution) == ResolverStatus::Complete
                &&& g.wf()
                &&& g@ == family_completed(analysis.graph@, views(analysis.roots@), *resolution)
            },
            Err(e) => {
                &&& strict && family_status(*resolution) != ResolverStatus::Complete
                &&& e@ == family_strict_message(analysis.dialect, family_status(*resolution))
            },
        },
{
    let dialect = analysis.dialect;
    let roots = analysis.roots;
    let mut graph = analysis.graph;
    let ghost g = graph@;
    let ghost rs = views(roots@);
    let mut m = ResolverMetrics::new();
    let mut status = ResolverStatus::Unavailable;
    if let Some(r) = resolution {
        m = resolve_roots(&mut graph, &roots, &r.answers);
        m.micros = r.micros;
        status = r.status;
    }
    let ghost resolved = graph@;
    let mut i: usize = 0;
    while i < roots.len()
        invariant
            i <= roots@.len(),
            graph.wf(),
            graph@ == with_family_ports(resolved, rs, i as int),
        decreases roots@.len() - i,
    {
        assert(rs[i as int] == roots@[i as int]@);
        assert(rs[i as int].files.len() == roots@[i as int].files@.len());
        let ports = gather_ports(&roots[i].files);
        assert(views(ports@).len() == ports@.len());
        apply_boundaries(&mut graph, &ports);
        i += 1;
    }
    store_outcome(&mut graph, status, m);
    if strict && status != ResolverStatus::Complete {
        let mut e = copy(dialect.as_str());
        e.append(" resolver status is '");
        e.append(status.as_str());
        e.append(
            "'; refusing to return a degraded graph in strict mode. The C family has no compiler-backed resolver — see the docs for why.",
        );
        return Err(e);
    }
    graph.dedupe_structural_relations();
    Ok(graph)
}

}
