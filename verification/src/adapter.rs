//! What the language adapters share: binding places of use to definitions, and
//! adding boundaries.

use vstd::prelude::*;

use crate::boundaries::{BoundaryRef, BoundaryView};
use crate::graph::{Graph, GraphView};
use crate::ids::{boundary_id, id_of_boundary, kind_id, node_kind_id};
use crate::index::Buckets;
use crate::meta::{lookup, stored_then_found, MetaValue, MetaView, Metadata, Noted, ValueView};
use crate::metrics::ResolverMetrics;
use crate::node::{Node, NodeKind, NodeView};
use crate::occurrence::{OccurrenceRef, OccurrenceView};
use crate::paths::{below, below_dir};
use crate::relation::{plain_edge, Relation, RelationKind, RelationView};
use crate::span::Span;
use crate::status::ResolverStatus;
use crate::strings::{after_last, decimal, decimal_text, tail_after};
use crate::text::{add_item, copy, opt_view, same, views};

verus! {

// ---------------------------------------------------------------------------
// Names and roles
// ---------------------------------------------------------------------------

/// The kind of edge that a role gives.
pub open spec fn edge_of_role(role: Seq<char>) -> Option<RelationKind> {
    if role == "call"@ {
        Some(RelationKind::Calls)
    } else if role == "base"@ {
        Some(RelationKind::InheritsFrom)
    } else if role == "annotation"@ {
        Some(RelationKind::HasType)
    } else if role == "read"@ || role == "write"@ {
        Some(RelationKind::References)
    } else {
        None
    }
}

/// The kind of edge that a role gives.
pub fn role_to_kind(role: &str) -> (r: Option<RelationKind>)
    ensures
        r == edge_of_role(role@),
{
    if same(role, "call") {
        Some(RelationKind::Calls)
    } else if same(role, "base") {
        Some(RelationKind::InheritsFrom)
    } else if same(role, "annotation") {
        Some(RelationKind::HasType)
    } else if same(role, "read") || same(role, "write") {
        Some(RelationKind::References)
    } else {
        None
    }
}

/// The node of a symbol outside the project. Its short name is what follows the
/// last separator.
pub open spec fn external_node(
    project: Seq<char>,
    qname: Seq<char>,
    origin: Seq<char>,
    separator: Seq<char>,
) -> NodeView {
    NodeView {
        id: kind_id(project, qname, NodeKind::ExternalSymbol),
        kind: NodeKind::ExternalSymbol,
        qualified_name: qname,
        name: after_last(qname, separator),
        file_path: None,
        span: None,
        metadata: Seq::<(Seq<char>, ValueView)>::empty().put("origin"@, ValueView::Text(origin)),
    }
}

/// Makes sure that a symbol outside the project has a node; returns its id.
pub fn ensure_external_symbol(graph: &mut Graph, project: &str, qname: &str, origin: &str, separator: &str) -> (id:
    String)
    requires
        old(graph).wf(),
    ensures
        final(graph).wf(),
        final(graph)@ == old(graph)@.insert(external_node(project@, qname@, origin@, separator@)),
        id@ == kind_id(project@, qname@, NodeKind::ExternalSymbol),
{
    let id = node_kind_id(project, qname, NodeKind::ExternalSymbol);
    let node = Node {
        id: copy(id.as_str()),
        kind: NodeKind::ExternalSymbol,
        qualified_name: copy(qname),
        name: tail_after(qname, separator),
        file_path: None,
        span: None,
        metadata: Metadata::new().with_text("origin", origin),
    };
    graph.insert_node(node);
    id
}

/// The node of a project.
pub open spec fn project_node(project: Seq<char>, qname: Seq<char>, name: Seq<char>) -> NodeView {
    NodeView {
        id: kind_id(project, qname, NodeKind::Project),
        kind: NodeKind::Project,
        qualified_name: qname,
        name,
        file_path: None,
        span: None,
        metadata: Seq::empty(),
    }
}

/// Makes sure that a project has a node; returns its id.
pub fn ensure_project(graph: &mut Graph, project: &str, qname: &str, name: &str) -> (id: String)
    requires
        old(graph).wf(),
    ensures
        final(graph).wf(),
        final(graph)@ == old(graph)@.insert(project_node(project@, qname@, name@)),
        id@ == kind_id(project@, qname@, NodeKind::Project),
{
    let id = node_kind_id(project, qname, NodeKind::Project);
    let node = Node {
        id: copy(id.as_str()),
        kind: NodeKind::Project,
        qualified_name: copy(qname),
        name: copy(name),
        file_path: None,
        span: None,
        metadata: Metadata::new(),
    };
    graph.insert_node(node);
    id
}

/// The node of a file.
pub open spec fn file_node(project: Seq<char>, file_rel: Seq<char>, name: Seq<char>) -> NodeView {
    NodeView {
        id: kind_id(project, file_rel, NodeKind::File),
        kind: NodeKind::File,
        qualified_name: file_rel,
        name,
        file_path: Some(file_rel),
        span: None,
        metadata: Seq::empty(),
    }
}

/// The graph with the node of a file, inside its container.
pub open spec fn with_file_node(
    g: GraphView,
    project: Seq<char>,
    file_rel: Seq<char>,
    name: Seq<char>,
    container_id: Seq<char>,
) -> GraphView {
    let node = file_node(project, file_rel, name);
    if g.has(node.id) {
        g
    } else {
        g.insert(node).relate(plain_edge(container_id, node.id, RelationKind::Contains))
    }
}

/// Makes sure that a file has a node inside its container; returns its id.
pub fn ensure_file(graph: &mut Graph, project: &str, file_rel: &str, name: &str, container_id: &str) -> (id: String)
    requires
        old(graph).wf(),
    ensures
        final(graph).wf(),
        final(graph)@ == with_file_node(old(graph)@, project@, file_rel@, name@, container_id@),
        id@ == kind_id(project@, file_rel@, NodeKind::File),
{
    let id = node_kind_id(project, file_rel, NodeKind::File);
    if graph.has_node(id.as_str()) {
        return id;
    }
    let node = Node {
        id: copy(id.as_str()),
        kind: NodeKind::File,
        qualified_name: copy(file_rel),
        name: copy(name),
        file_path: Some(copy(file_rel)),
        span: None,
        metadata: Metadata::new(),
    };
    graph.insert_node(node);
    graph.push_relation(Relation::plain(container_id, id.as_str(), RelationKind::Contains));
    id
}

// ---------------------------------------------------------------------------
// Definitions by the position of their names
// ---------------------------------------------------------------------------

/// The range of a node's name, where it is known.
pub open spec fn name_range(n: NodeView) -> Option<Span> {
    match lookup(n.metadata, "name_span"@) {
        Some(ValueView::Place(p)) => Some(p),
        _ => None,
    }
}

/// Whether a node is declared in a file under a name of known range.
pub open spec fn named_there(n: NodeView, file: Seq<char>) -> bool {
    n.file_path == Some(file) && name_range(n) is Some
}

/// The places of the first `n` nodes that are declared in a file under a name
/// of known range.
pub open spec fn named_in(nodes: Seq<NodeView>, file: Seq<char>, n: int) -> Seq<usize>
    decreases n,
{
    if n <= 0 || n > nodes.len() {
        Seq::empty()
    } else if named_there(nodes[n - 1], file) {
        named_in(nodes, file, n - 1).push((n - 1) as usize)
    } else {
        named_in(nodes, file, n - 1)
    }
}

/// The id of the first of the given nodes from `k` on whose name holds a
/// position.
pub open spec fn name_over(nodes: Seq<NodeView>, list: Seq<usize>, line: u32, col: u32, k: int) -> Option<Seq<char>>
    decreases list.len() - k,
{
    if k < 0 || k >= list.len() {
        None
    } else {
        let n = nodes[list[k] as int];
        match name_range(n) {
            Some(p) => if p.holds(line, col) {
                Some(n.id)
            } else {
                name_over(nodes, list, line, col, k + 1)
            },
            None => name_over(nodes, list, line, col, k + 1),
        }
    }
}

/// The id of the node whose name stands at a position of a file.
pub open spec fn definition_at(nodes: Seq<NodeView>, file: Seq<char>, line: u32, col: u32) -> Option<Seq<char>> {
    name_over(nodes, named_in(nodes, file, nodes.len() as int), line, col, 0)
}

/// One named node.
struct NameEntry {
    id: String,
    span: Option<Span>,
}

/// Finds nodes by the position of their names.
pub struct NameIndex {
    by_file: Buckets,
    entries: Vec<NameEntry>,
    nodes: Ghost<Seq<NodeView>>,
}

impl NameIndex {
    /// The nodes that the index was built from.
    pub closed spec fn nodes(&self) -> Seq<NodeView> {
        self.nodes@
    }

    /// The index lists exactly the named nodes of each file.
    pub closed spec fn wf(&self) -> bool {
        &&& self.by_file.wf()
        &&& self.entries@.len() == self.nodes@.len()
        &&& forall|i: int|
            0 <= i < self.nodes@.len() ==> (#[trigger] self.entries@[i]).id@ == self.nodes@[i].id
                && self.entries@[i].span == name_range(self.nodes@[i])
        &&& forall|f: Seq<char>| (#[trigger] self.by_file.at(f)) == named_in(self.nodes@, f, self.nodes@.len() as int)
    }

    /// Builds the index of a graph.
    #[verifier::loop_isolation(false)]
    pub fn from_graph(graph: &Graph) -> (r: NameIndex)
        ensures
            r.wf(),
            r.nodes() == graph@.nodes,
    {
        let nodes = graph.nodes();
        let ghost all = graph@.nodes;
        let mut by_file = Buckets::new();
        let mut entries: Vec<NameEntry> = Vec::new();
        let mut i: usize = 0;
        while i < nodes.len()
            invariant
                i <= nodes@.len(),
                by_file.wf(),
                entries@.len() == i,
                forall|k: int|
                    0 <= k < i ==> (#[trigger] entries@[k]).id@ == all[k].id && entries@[k].span == name_range(all[k]),
                forall|f: Seq<char>| (#[trigger] by_file.at(f)) == named_in(all, f, i as int),
            decreases nodes@.len() - i,
        {
            let n = &nodes[i];
            assert(all[i as int] == n@);
            let span: Option<Span> = match n.metadata.get("name_span") {
                Some(MetaValue::Place(p)) => Some(*p),
                _ => None,
            };
            let ghost before_add = by_file;
            if span.is_some() {
                if let Some(f) = &n.file_path {
                    by_file.add(f.as_str(), i);
                }
            }
            entries.push(NameEntry { id: copy(n.id.as_str()), span });
            assert forall|f: Seq<char>| (#[trigger] by_file.at(f)) == named_in(all, f, i + 1) by {
                assert(before_add.at(f) == named_in(all, f, i as int));
            }
            i += 1;
        }
        NameIndex { by_file, entries, nodes: Ghost(all) }
    }

    /// The id of the node whose name stands at a position of a file.
    #[verifier::loop_isolation(false)]
    pub fn lookup_name(&self, file: &str, line: u32, col: u32) -> (r: Option<String>)
        requires
            self.wf(),
        ensures
            opt_view(r) == definition_at(self.nodes(), file@, line, col),
    {
        let ghost all = self.nodes@;
        let ghost list = named_in(all, file@, all.len() as int);
        proof {
            named_in_are_nodes(all, file@, all.len() as int);
        }
        let n = self.by_file.len(file);
        assert(self.by_file.at(file@) == list);
        let mut k: usize = 0;
        while k < n
            invariant
                k <= n,
                name_over(all, list, line, col, 0) == name_over(all, list, line, col, k as int),
            decreases n - k,
        {
            let p = self.by_file.get(file, k);
            assert(list[k as int] == p);
            let e = &self.entries[p];
            if let Some(span) = e.span {
                if span.contains(line, col) {
                    return Some(copy(e.id.as_str()));
                }
            }
            k += 1;
        }
        None
    }
}

proof fn named_in_are_nodes(nodes: Seq<NodeView>, file: Seq<char>, n: int)
    requires
        0 <= n <= nodes.len(),
    ensures
        forall|i: int| 0 <= i < named_in(nodes, file, n).len() ==> (#[trigger] named_in(nodes, file, n)[i]) < nodes.len(),
    decreases n,
{
    if n > 0 {
        named_in_are_nodes(nodes, file, n - 1);
        let a = named_in(nodes, file, n - 1);
        let b = named_in(nodes, file, n);
        assert forall|i: int| 0 <= i < b.len() implies (#[trigger] b[i]) < nodes.len() by {
            if i < a.len() {
                assert(b[i] == a[i]);
            }
        }
    }
}

// ---------------------------------------------------------------------------
// The resolve pass
// ---------------------------------------------------------------------------

/// A resolver's answer for one place of use. Coordinates are 1-based.
#[derive(Debug)]
pub struct ResolvedRef {
    pub full_name: String,
    pub file_path: Option<String>,
    pub line: u32,
    pub col: u32,
    pub kind: String,
    pub origin: String,
}

/// The mathematical reading of an answer.
pub struct ResolvedView {
    pub full_name: Seq<char>,
    pub file_path: Option<Seq<char>>,
    pub line: u32,
    pub col: u32,
    pub kind: Seq<char>,
    pub origin: Seq<char>,
}

impl View for ResolvedRef {
    type V = ResolvedView;

    open spec fn view(&self) -> ResolvedView {
        ResolvedView {
            full_name: self.full_name@,
            file_path: opt_view(self.file_path),
            line: self.line,
            col: self.col,
            kind: self.kind@,
            origin: self.origin@,
        }
    }
}

/// A place of use in a file of the project.
#[derive(Debug)]
pub struct FileOccurrence {
    pub file: String,
    pub occurrence: OccurrenceRef,
}

impl View for FileOccurrence {
    type V = (Seq<char>, OccurrenceView);

    open spec fn view(&self) -> (Seq<char>, OccurrenceView) {
        (self.file@, self.occurrence@)
    }
}

/// The places of use with the path of their file.
pub open spec fn located(path: Seq<char>, uses: Seq<OccurrenceView>) -> Seq<(Seq<char>, OccurrenceView)> {
    uses.map_values(|o: OccurrenceView| (path, o))
}

/// Adds places of use with the path of their file.
#[verifier::loop_isolation(false)]
pub fn locate(path: &str, uses: &Vec<OccurrenceRef>, out: &mut Vec<FileOccurrence>)
    ensures
        views(final(out)@) == views(old(out)@) + located(path@, views(uses@)),
{
    let ghost start = views(out@);
    let ghost all = located(path@, views(uses@));
    let mut i: usize = 0;
    assert(views(out@) =~= start + all.take(0));
    while i < uses.len()
        invariant
            i <= uses@.len(),
            views(out@) == start + all.take(i as int),
        decreases uses@.len() - i,
    {
        assert(views(uses@)[i as int] == uses@[i as int]@);
        add_item(out, FileOccurrence { file: copy(path), occurrence: uses[i].copy() });
        assert(all.take(i + 1) =~= all.take(i as int).push(all[i as int]));
        assert(views(out@) =~= start + all.take(i + 1));
        i += 1;
    }
    assert(all.take(uses@.len() as int) =~= all);
}

/// A path as nodes keep it: relative to the project where it lies in it.
pub open spec fn shown_path(path: Seq<char>, project_root: Seq<char>) -> Seq<char> {
    match below_dir(path, project_root) {
        Some(r) => r,
        None => path,
    }
}

/// A path as nodes keep it.
pub fn relative_to_project(path: &str, project_root: &str) -> (r: String)
    ensures
        r@ == shown_path(path@, project_root@),
{
    match below(path, project_root) {
        Some(r) => r,
        None => copy(path),
    }
}

/// The key of a target that could not be named. The file is part of it, so that
/// places with the same coordinates in different files stay apart.
pub open spec fn place_key(file: Seq<char>, o: OccurrenceView) -> Seq<char> {
    o.role + "@"@ + file + ":"@ + decimal(o.line as nat) + ":"@ + decimal(o.col as nat)
}

/// The key of a target that could not be named.
pub fn positional_key(file: &str, o: &OccurrenceRef) -> (r: String)
    ensures
        r@ == place_key(file@, o@),
{
    let mut s = copy(o.role.as_str());
    s.append("@");
    s.append(file);
    s.append(":");
    s.append(decimal_text(o.line as u64).as_str());
    s.append(":");
    s.append(decimal_text(o.col as u64).as_str());
    s
}

/// How far a resolve pass has come.
pub struct Pass {
    pub graph: GraphView,
    pub resolved: nat,
    pub internal: nat,
    pub external: nat,
    pub unresolved: nat,
}

/// The metadata of the edge from a place of use.
pub open spec fn use_metadata(o: OccurrenceView) -> MetaView {
    let m = Seq::<(Seq<char>, ValueView)>::empty().put("span"@, ValueView::Place(o.span));
    if o.role == "read"@ || o.role == "write"@ {
        m.put("access"@, ValueView::Text(o.role))
    } else {
        m
    }
}

/// The definition inside the project that an answer points at.
pub open spec fn internal_target(
    nodes: Seq<NodeView>,
    project_root: Seq<char>,
    answer: ResolvedView,
) -> Option<Seq<char>> {
    if answer.origin == "internal"@ && answer.file_path is Some {
        definition_at(nodes, shown_path(answer.file_path->0, project_root), answer.line, answer.col)
    } else {
        None
    }
}

/// The name under which an answer outside the project is kept.
pub open spec fn external_name(file: Seq<char>, o: OccurrenceView, answer: ResolvedView) -> Seq<char> {
    if answer.full_name.len() == 0 {
        place_key(file, o)
    } else {
        answer.full_name
    }
}

/// What a resolve pass is given beside the places of use.
pub struct PassContext {
    pub project: Seq<char>,
    pub project_root: Seq<char>,
    /// What parts the segments of a qualified name.
    pub separator: Seq<char>,
    /// The nodes among which definitions are looked up.
    pub nodes: Seq<NodeView>,
}

/// The pass after one place of use.
pub open spec fn pass_step(
    c: PassContext,
    p: Pass,
    file: Seq<char>,
    o: OccurrenceView,
    answer: Option<ResolvedView>,
) -> Pass {
    match answer {
        None => Pass { unresolved: p.unresolved + 1, ..p },
        Some(a) => match edge_of_role(o.role) {
            None => Pass { resolved: p.resolved + 1, ..p },
            Some(kind) => match internal_target(c.nodes, c.project_root, a) {
                Some(target) => Pass {
                    resolved: p.resolved + 1,
                    internal: p.internal + 1,
                    graph: p.graph.relate(
                        RelationView {
                            source_id: o.enclosing_id,
                            target_id: target,
                            kind,
                            metadata: use_metadata(o),
                        },
                    ),
                    ..p
                },
                None => {
                    let name = external_name(shown_path(file, c.project_root), o, a);
                    let node = external_node(c.project, name, a.origin, c.separator);
                    Pass {
                        resolved: p.resolved + 1,
                        external: p.external + 1,
                        graph: p.graph.insert(node).relate(
                            RelationView {
                                source_id: o.enclosing_id,
                                target_id: node.id,
                                kind,
                                metadata: use_metadata(o),
                            },
                        ),
                        ..p
                    }
                },
            },
        },
    }
}

/// The pass after the first `k` places of use.
pub open spec fn pass_after(
    c: PassContext,
    g: GraphView,
    uses: Seq<(Seq<char>, OccurrenceView)>,
    answers: Seq<Option<ResolvedView>>,
    k: int,
) -> Pass
    decreases k,
{
    if k <= 0 || k > uses.len() {
        Pass { graph: g, resolved: 0, internal: 0, external: 0, unresolved: 0 }
    } else {
        pass_step(
            c,
            pass_after(c, g, uses, answers, k - 1),
            uses[k - 1].0,
            uses[k - 1].1,
            answers[k - 1],
        )
    }
}

/// The views of a list of optional answers.
pub open spec fn answer_views(answers: Seq<Option<ResolvedRef>>) -> Seq<Option<ResolvedView>> {
    answers.map_values(|a: Option<ResolvedRef>| opt_view(a))
}

/// Every place of use is counted once as resolved or unresolved, and a resolved
/// one at most once as internal or external.
pub proof fn pass_counts(
    c: PassContext,
    g: GraphView,
    uses: Seq<(Seq<char>, OccurrenceView)>,
    answers: Seq<Option<ResolvedView>>,
    k: int,
)
    requires
        0 <= k <= uses.len(),
    ensures
        ({
            let p = pass_after(c, g, uses, answers, k);
            &&& p.resolved + p.unresolved == k
            &&& p.internal + p.external <= p.resolved
        }),
    decreases k,
{
    if k > 0 {
        pass_counts(c, g, uses, answers, k - 1);
    }
}

/// The edge from a place of use.
fn use_relation(o: &OccurrenceRef, target_id: &str, kind: RelationKind) -> (r: Relation)
    ensures
        r@ == (RelationView {
            source_id: o.enclosing_id@,
            target_id: target_id@,
            kind,
            metadata: use_metadata(o@),
        }),
{
    let m = Metadata::new().with("span", MetaValue::Place(o.span));
    let metadata = if same(o.role.as_str(), "read") || same(o.role.as_str(), "write") {
        m.with_text("access", o.role.as_str())
    } else {
        m
    };
    Relation { source_id: copy(o.enclosing_id.as_str()), target_id: copy(target_id), kind, metadata }
}

/// The definition inside the project that an answer points at.
pub fn internal_id(index: &NameIndex, project_root: &str, a: &ResolvedRef) -> (r: Option<String>)
    requires
        index.wf(),
    ensures
        opt_view(r) == internal_target(index.nodes(), project_root@, a@),
{
    if !same(a.origin.as_str(), "internal") {
        return None;
    }
    match &a.file_path {
        Some(f) => {
            let shown = relative_to_project(f.as_str(), project_root);
            index.lookup_name(shown.as_str(), a.line, a.col)
        },
        None => None,
    }
}

/// Binds places of use to what the resolver answered.
///
/// A definition inside the project is found by the position of its name; any
/// other answer becomes an external symbol, so that no edge is lost.
#[verifier::loop_isolation(false)]
pub fn resolve_pass(
    graph: &mut Graph,
    index: &NameIndex,
    project: &str,
    project_root: &str,
    separator: &str,
    uses: &Vec<FileOccurrence>,
    answers: &Vec<Option<ResolvedRef>>,
) -> (m: ResolverMetrics)
    requires
        old(graph).wf(),
        index.wf(),
        answers@.len() == uses@.len(),
    ensures
        final(graph).wf(),
        ({
            let p = pass_after(
                (PassContext {
                    project: project@,
                    project_root: project_root@,
                    separator: separator@,
                    nodes: index.nodes(),
                }),
                old(graph)@,
                views(uses@),
                answer_views(answers@),
                uses@.len() as int,
            );
            &&& final(graph)@ == p.graph
            &&& m.queries == uses@.len()
            &&& m.resolved == p.resolved
            &&& m.internal == p.internal
            &&& m.external == p.external
            &&& m.unresolved == p.unresolved
            &&& m.micros == 0
        }),
{
    let ghost c = PassContext {
        project: project@,
        project_root: project_root@,
        separator: separator@,
        nodes: index.nodes(),
    };
    let ghost us = views(uses@);
    let ghost ans = answer_views(answers@);
    let ghost g = graph@;
    let total: usize = uses.len();
    let mut m = ResolverMetrics::new();
    m.queries = total as u64;
    let mut i: usize = 0;
    while i < uses.len()
        invariant
            i <= uses@.len(),
            graph.wf(),
            m.queries == total as u64,
            m.micros == 0,
            ({
                let p = pass_after(c, g, us, ans, i as int);
                &&& graph@ == p.graph
                &&& m.resolved == p.resolved
                &&& m.internal == p.internal
                &&& m.external == p.external
                &&& m.unresolved == p.unresolved
            }),
        decreases uses@.len() - i,
    {
        let u = &uses[i];
        let o = &u.occurrence;
        proof {
            pass_counts(c, g, us, ans, i as int);
            assert(us[i as int] == u@);
            assert(ans[i as int] == opt_view(answers@[i as int]));
        }
        match &answers[i] {
            None => {
                m.unresolved = m.unresolved + 1;
            },
            Some(a) => {
                m.resolved = m.resolved + 1;
                if let Some(kind) = role_to_kind(o.role.as_str()) {
                    match internal_id(index, project_root, a) {
                        Some(id) => {
                            m.internal = m.internal + 1;
                            graph.push_relation(use_relation(o, id.as_str(), kind));
                        },
                        None => {
                            m.external = m.external + 1;
                            let name = if a.full_name.as_str().is_empty() {
                                let shown = relative_to_project(u.file.as_str(), project_root);
                                positional_key(shown.as_str(), o)
                            } else {
                                copy(a.full_name.as_str())
                            };
                            let id = ensure_external_symbol(graph, project, name.as_str(), a.origin.as_str(), separator);
                            graph.push_relation(use_relation(o, id.as_str(), kind));
                        },
                    }
                }
            },
        }
        i += 1;
    }
    m
}

// ---------------------------------------------------------------------------
// Boundaries
// ---------------------------------------------------------------------------

/// A function or method and its range.
pub struct Encloser {
    pub id: String,
    pub span: Span,
}

impl View for Encloser {
    type V = (Seq<char>, Span);

    open spec fn view(&self) -> (Seq<char>, Span) {
        (self.id@, self.span)
    }
}

/// The functions and methods of a file among the first `n` nodes.
pub open spec fn enclosers(nodes: Seq<NodeView>, file: Seq<char>, n: int) -> Seq<(Seq<char>, Span)>
    decreases n,
{
    if n <= 0 || n > nodes.len() {
        Seq::empty()
    } else {
        let x = nodes[n - 1];
        let earlier = enclosers(nodes, file, n - 1);
        if (x.kind == NodeKind::Function || x.kind == NodeKind::Method) && x.file_path == Some(file) && x.span is Some {
            earlier.push((x.id, x.span->0))
        } else {
            earlier
        }
    }
}

/// Whether a range starts no earlier than another one.
pub open spec fn starts_no_earlier(a: Span, b: Span) -> bool {
    a.start_line > b.start_line || (a.start_line == b.start_line && a.start_col >= b.start_col)
}

/// The innermost of the first `n` candidates that hold a position: the one that
/// starts last.
pub open spec fn innermost(
    candidates: Seq<(Seq<char>, Span)>,
    line: u32,
    col: u32,
    n: int,
) -> Option<(Seq<char>, Span)>
    decreases n,
{
    if n <= 0 || n > candidates.len() {
        None
    } else {
        let c = candidates[n - 1];
        match innermost(candidates, line, col, n - 1) {
            Some(best) => if c.1.holds(line, col) && starts_no_earlier(c.1, best.1) {
                Some(c)
            } else {
                Some(best)
            },
            None => if c.1.holds(line, col) {
                Some(c)
            } else {
                None
            },
        }
    }
}

/// The id of what encloses a position: the innermost function or method, or the
/// file.
pub open spec fn enclosing(
    nodes: Seq<NodeView>,
    file_rel: Seq<char>,
    file_id: Seq<char>,
    line: u32,
    col: u32,
) -> Seq<char> {
    let candidates = enclosers(nodes, file_rel, nodes.len() as int);
    match innermost(candidates, line, col, candidates.len() as int) {
        Some(c) => c.0,
        None => file_id,
    }
}

/// The shared node of a contract.
pub open spec fn boundary_node(b: BoundaryView) -> NodeView {
    NodeView {
        id: id_of_boundary(b.mechanism, b.key),
        kind: NodeKind::Boundary,
        qualified_name: b.key,
        name: b.key,
        file_path: None,
        span: None,
        metadata: Seq::<(Seq<char>, ValueView)>::empty()
            .put("mechanism"@, ValueView::Text(b.mechanism))
            .put("key"@, ValueView::Text(b.key)),
    }
}

/// The edge from a port to its contract: a server exposes it, a client consumes
/// it.
pub open spec fn boundary_edge(enclosing_id: Seq<char>, b: BoundaryView) -> RelationView {
    RelationView {
        source_id: enclosing_id,
        target_id: id_of_boundary(b.mechanism, b.key),
        kind: if b.role == "server"@ {
            RelationKind::Exposes
        } else {
            RelationKind::Consumes
        },
        metadata: Seq::<(Seq<char>, ValueView)>::empty().put("confidence"@, ValueView::Percent(b.confidence)),
    }
}

/// The graph with a port added.
pub open spec fn with_boundary(g: GraphView, enclosing_id: Seq<char>, b: BoundaryView) -> GraphView {
    g.insert(boundary_node(b)).relate(boundary_edge(enclosing_id, b))
}

/// The ports of one file.
pub struct FileBoundaries {
    pub file_rel: String,
    pub file_id: String,
    pub refs: Vec<BoundaryRef>,
}

/// The mathematical reading of a file's ports.
pub struct FileBoundariesView {
    pub file_rel: Seq<char>,
    pub file_id: Seq<char>,
    pub refs: Seq<BoundaryView>,
}

impl View for FileBoundaries {
    type V = FileBoundariesView;

    open spec fn view(&self) -> FileBoundariesView {
        FileBoundariesView { file_rel: self.file_rel@, file_id: self.file_id@, refs: views(self.refs@) }
    }
}

/// The graph after the first `k` ports of a file.
pub open spec fn with_ports(g: GraphView, nodes: Seq<NodeView>, f: FileBoundariesView, k: int) -> GraphView
    decreases k,
{
    if k <= 0 || k > f.refs.len() {
        g
    } else {
        let b = f.refs[k - 1];
        with_boundary(with_ports(g, nodes, f, k - 1), enclosing(nodes, f.file_rel, f.file_id, b.line, b.col), b)
    }
}

/// The graph after the ports of the first `n` files.
pub open spec fn with_all_ports(g: GraphView, nodes: Seq<NodeView>, files: Seq<FileBoundariesView>, n: int) -> GraphView
    decreases n,
{
    if n <= 0 || n > files.len() {
        g
    } else {
        with_ports(with_all_ports(g, nodes, files, n - 1), nodes, files[n - 1], files[n - 1].refs.len() as int)
    }
}

/// The functions and methods of a file.
#[verifier::loop_isolation(false)]
fn enclosers_of(graph: &Graph, file: &str) -> (r: Vec<Encloser>)
    ensures
        views(r@) == enclosers(graph@.nodes, file@, graph@.nodes.len() as int),
{
    let nodes = graph.nodes();
    let ghost all = graph@.nodes;
    let mut out: Vec<Encloser> = Vec::new();
    let mut i: usize = 0;
    assert(views(out@) =~= Seq::<(Seq<char>, Span)>::empty());
    while i < nodes.len()
        invariant
            i <= nodes@.len(),
            views(out@) == enclosers(all, file@, i as int),
        decreases nodes@.len() - i,
    {
        let x = &nodes[i];
        assert(all[i as int] == x@);
        if x.kind == NodeKind::Function || x.kind == NodeKind::Method {
            if let (Some(f), Some(span)) = (&x.file_path, x.span) {
                if same(f.as_str(), file) {
                    add_item(&mut out, Encloser { id: copy(x.id.as_str()), span });
                }
            }
        }
        i += 1;
    }
    out
}

/// The place of the innermost candidate that holds a position.
#[verifier::loop_isolation(false)]
pub fn innermost_enclosing(candidates: &Vec<Encloser>, line: u32, col: u32) -> (r: Option<usize>)
    ensures
        match r {
            Some(k) => k < candidates@.len() && innermost(
                views(candidates@),
                line,
                col,
                candidates@.len() as int,
            ) == Some(candidates@[k as int]@),
            None => innermost(views(candidates@), line, col, candidates@.len() as int) is None,
        },
{
    let ghost cs = views(candidates@);
    let mut best: Option<usize> = None;
    let mut i: usize = 0;
    while i < candidates.len()
        invariant
            i <= candidates@.len(),
            match best {
                Some(k) => k < candidates@.len() && innermost(cs, line, col, i as int) == Some(candidates@[k as int]@),
                None => innermost(cs, line, col, i as int) is None,
            },
        decreases candidates@.len() - i,
    {
        let c = &candidates[i];
        assert(cs[i as int] == c@);
        if c.span.contains(line, col) {
            match best {
                Some(k) => {
                    let b = candidates[k].span;
                    if c.span.start_line > b.start_line || (c.span.start_line == b.start_line && c.span.start_col
                        >= b.start_col) {
                        best = Some(i);
                    }
                },
                None => {
                    best = Some(i);
                },
            }
        }
        i += 1;
    }
    best
}

/// Adds a port: the shared node of its contract, and an edge to it.
pub fn add_boundary(graph: &mut Graph, enclosing_id: &str, b: &BoundaryRef)
    requires
        old(graph).wf(),
    ensures
        final(graph).wf(),
        final(graph)@ == with_boundary(old(graph)@, enclosing_id@, b@),
{
    let id = boundary_id(b.mechanism.as_str(), b.key.as_str());
    let node = Node {
        id: copy(id.as_str()),
        kind: NodeKind::Boundary,
        qualified_name: copy(b.key.as_str()),
        name: copy(b.key.as_str()),
        file_path: None,
        span: None,
        metadata: Metadata::new().with_text("mechanism", b.mechanism.as_str()).with_text("key", b.key.as_str()),
    };
    graph.insert_node(node);
    let kind = if same(b.role.as_str(), "server") {
        RelationKind::Exposes
    } else {
        RelationKind::Consumes
    };
    graph.push_relation(
        Relation {
            source_id: copy(enclosing_id),
            target_id: id,
            kind,
            metadata: Metadata::new().with("confidence", MetaValue::Percent(b.confidence)),
        },
    );
}

/// Adding ports adds contract nodes only, so that what encloses a position
/// stays what it was.
proof fn enclosers_stay(g: GraphView, enclosing_id: Seq<char>, b: BoundaryView, file: Seq<char>)
    ensures
        ({
            let h = with_boundary(g, enclosing_id, b);
            enclosers(h.nodes, file, h.nodes.len() as int) == enclosers(g.nodes, file, g.nodes.len() as int)
        }),
{
    let node = boundary_node(b);
    if !g.has(node.id) {
        let more = g.nodes.push(node);
        enclosers_prefix(g.nodes, node, file, g.nodes.len() as int);
        assert(more[more.len() - 1] == node);
    }
}

proof fn enclosers_prefix(nodes: Seq<NodeView>, x: NodeView, file: Seq<char>, n: int)
    requires
        0 <= n <= nodes.len(),
    ensures
        enclosers(nodes.push(x), file, n) == enclosers(nodes, file, n),
    decreases n,
{
    if n > 0 {
        enclosers_prefix(nodes, x, file, n - 1);
        assert(nodes.push(x)[n - 1] == nodes[n - 1]);
    }
}

/// Adds the ports of each file, at what encloses them.
#[verifier::loop_isolation(false)]
pub fn apply_boundaries(graph: &mut Graph, files: &Vec<FileBoundaries>)
    requires
        old(graph).wf(),
    ensures
        final(graph).wf(),
        final(graph)@ == with_all_ports(old(graph)@, old(graph)@.nodes, views(files@), files@.len() as int),
{
    let ghost g = graph@;
    let ghost fs = views(files@);
    let mut i: usize = 0;
    while i < files.len()
        invariant
            i <= files@.len(),
            graph.wf(),
            graph@ == with_all_ports(g, g.nodes, fs, i as int),
            forall|f: Seq<char>| #[trigger]
                enclosers(graph@.nodes, f, graph@.nodes.len() as int) == enclosers(g.nodes, f, g.nodes.len() as int),
        decreases files@.len() - i,
    {
        let f = &files[i];
        assert(fs[i as int] == f@);
        let candidates = enclosers_of(graph, f.file_rel.as_str());
        let ghost mid = graph@;
        let mut k: usize = 0;
        while k < f.refs.len()
            invariant
                k <= f.refs@.len(),
                graph.wf(),
                graph@ == with_ports(mid, g.nodes, f@, k as int),
                forall|x: Seq<char>| #[trigger]
                    enclosers(graph@.nodes, x, graph@.nodes.len() as int) == enclosers(
                        g.nodes,
                        x,
                        g.nodes.len() as int,
                    ),
            decreases f.refs@.len() - k,
        {
            let b = &f.refs[k];
            assert(f@.refs[k as int] == b@);
            let ghost before_add = graph@;
            match innermost_enclosing(&candidates, b.line, b.col) {
                Some(c) => {
                    add_boundary(graph, candidates[c].id.as_str(), b);
                },
                None => {
                    add_boundary(graph, f.file_id.as_str(), b);
                },
            }
            proof {
                let e = enclosing(g.nodes, f@.file_rel, f@.file_id, b@.line, b@.col);
                assert(graph@ == with_boundary(before_add, e, b@));
                assert forall|x: Seq<char>| #[trigger]
                    enclosers(graph@.nodes, x, graph@.nodes.len() as int) == enclosers(
                        g.nodes,
                        x,
                        g.nodes.len() as int,
                    ) by {
                    enclosers_stay(before_add, e, b@, x);
                    assert(enclosers(before_add.nodes, x, before_add.nodes.len() as int) == enclosers(
                        g.nodes,
                        x,
                        g.nodes.len() as int,
                    ));
                }
            }
            k += 1;
        }
        i += 1;
    }
}

/// Two ports of one contract meet on one node, whatever project or language
/// they come from.
pub proof fn ports_of_one_contract_meet(a: BoundaryView, b: BoundaryView)
    requires
        a.mechanism == b.mechanism,
        a.key == b.key,
    ensures
        boundary_node(a) == boundary_node(b),
{
}

// ---------------------------------------------------------------------------
// The end of an analysis
// ---------------------------------------------------------------------------

/// The message with which a strict analysis refuses a graph.
pub open spec fn strict_message(language: Seq<char>, status: ResolverStatus) -> Seq<char> {
    language + " resolver status is '"@ + status.name() + "'; refusing to return a degraded graph in strict mode"@
}

/// The graph with the status and the counters of its resolve phase.
pub open spec fn with_outcome(g: GraphView, status: ResolverStatus, m: ResolverMetrics) -> GraphView {
    g.note("resolver_status"@, ValueView::Text(status.name())).note("resolver_metrics"@, ValueView::Counters(m))
}

/// A graph always says how complete it is: after an analysis its metadata holds
/// the status and the counters of the resolve phase, and nothing else of it
/// was touched by noting them.
pub proof fn graphs_say_how_complete_they_are(g: GraphView, status: ResolverStatus, m: ResolverMetrics, key: Seq<char>)
    ensures
        ({
            let noted = with_outcome(g, status, m);
            &&& lookup(noted.metadata, "resolver_status"@) == Some(ValueView::Text(status.name()))
            &&& lookup(noted.metadata, "resolver_metrics"@) == Some(ValueView::Counters(m))
            &&& key != "resolver_status"@ && key != "resolver_metrics"@ ==> lookup(noted.metadata, key) == lookup(
                g.metadata,
                key,
            )
            &&& noted.nodes == g.nodes && noted.relations == g.relations
        }),
{
    reveal_strlit("resolver_status");
    reveal_strlit("resolver_metrics");
    let first = g.note("resolver_status"@, ValueView::Text(status.name()));
    assert("resolver_status"@.len() != "resolver_metrics"@.len());
    stored_then_found(g.metadata, "resolver_status"@, ValueView::Text(status.name()), key);
    stored_then_found(first.metadata, "resolver_metrics"@, ValueView::Counters(m), "resolver_status"@);
    stored_then_found(first.metadata, "resolver_metrics"@, ValueView::Counters(m), key);
}

/// One root that was read: its project, the places of use and the ports.
pub struct BuiltRoot {
    pub project: String,
    pub occurrences: Vec<FileOccurrence>,
    pub boundaries: Vec<FileBoundaries>,
}

/// The mathematical reading of a root that was read.
pub struct BuiltView {
    pub project: Seq<char>,
    pub occurrences: Seq<(Seq<char>, OccurrenceView)>,
    pub boundaries: Seq<FileBoundariesView>,
}

impl View for BuiltRoot {
    type V = BuiltView;

    open spec fn view(&self) -> BuiltView {
        BuiltView {
            project: self.project@,
            occurrences: views(self.occurrences@),
            boundaries: views(self.boundaries@),
        }
    }
}

/// The places of use in the first `n` roots.
pub open spec fn total_uses(built: Seq<BuiltView>, n: int) -> nat
    decreases n,
{
    if n <= 0 || n > built.len() {
        0
    } else {
        total_uses(built, n - 1) + built[n - 1].occurrences.len()
    }
}

/// There are no fewer places of use in more roots.
proof fn total_uses_grow(built: Seq<BuiltView>, n: int, m: int)
    requires
        0 <= n <= m <= built.len(),
    ensures
        total_uses(built, n) <= total_uses(built, m),
    decreases m - n,
{
    if n < m {
        total_uses_grow(built, n, m - 1);
    }
}

/// Tells whether the places of use of all roots can be counted.
pub fn uses_fit(built: &Vec<BuiltRoot>) -> (r: bool)
    ensures
        r == (total_uses(views(built@), built@.len() as int) <= u64::MAX),
{
    let ghost bs = views(built@);
    let mut total: u64 = 0;
    let mut i: usize = 0;
    while i < built.len()
        invariant
            i <= built@.len(),
            bs == views(built@),
            total == total_uses(bs, i as int),
        decreases built@.len() - i,
    {
        assert(bs[i as int] == built@[i as int]@);
        let more: u64 = built[i].occurrences.len() as u64;
        proof {
            total_uses_grow(bs, i + 1, built@.len() as int);
        }
        if more > u64::MAX - total {
            return false;
        }
        total = total + more;
        i += 1;
    }
    true
}

/// The passes over the first `n` roots, one after the other.
pub open spec fn passes_after(
    project_root: Seq<char>,
    separator: Seq<char>,
    nodes: Seq<NodeView>,
    g: GraphView,
    built: Seq<BuiltView>,
    answers: Seq<Seq<Option<ResolvedView>>>,
    n: int,
) -> Pass
    decreases n,
{
    if n <= 0 || n > built.len() {
        Pass { graph: g, resolved: 0, internal: 0, external: 0, unresolved: 0 }
    } else {
        let before = passes_after(project_root, separator, nodes, g, built, answers, n - 1);
        let b = built[n - 1];
        let c = PassContext { project: b.project, project_root, separator, nodes };
        let p = pass_after(c, before.graph, b.occurrences, answers[n - 1], b.occurrences.len() as int);
        Pass {
            graph: p.graph,
            resolved: before.resolved + p.resolved,
            internal: before.internal + p.internal,
            external: before.external + p.external,
            unresolved: before.unresolved + p.unresolved,
        }
    }
}

/// The views of lists of optional answers.
pub open spec fn answer_lists(answers: Seq<Vec<Option<ResolvedRef>>>) -> Seq<Seq<Option<ResolvedView>>> {
    answers.map_values(|v: Vec<Option<ResolvedRef>>| answer_views(v@))
}

/// Over all roots every place of use is counted once as resolved or unresolved,
/// and a resolved one at most once as internal or external.
pub proof fn passes_counts(
    project_root: Seq<char>,
    separator: Seq<char>,
    nodes: Seq<NodeView>,
    g: GraphView,
    built: Seq<BuiltView>,
    answers: Seq<Seq<Option<ResolvedView>>>,
    n: int,
)
    requires
        0 <= n <= built.len(),
    ensures
        ({
            let p = passes_after(project_root, separator, nodes, g, built, answers, n);
            &&& p.resolved + p.unresolved == total_uses(built, n)
            &&& p.internal + p.external <= p.resolved
        }),
    decreases n,
{
    if n > 0 {
        passes_counts(project_root, separator, nodes, g, built, answers, n - 1);
        let before = passes_after(project_root, separator, nodes, g, built, answers, n - 1);
        let b = built[n - 1];
        let c = PassContext { project: b.project, project_root, separator, nodes };
        pass_counts(c, before.graph, b.occurrences, answers[n - 1], b.occurrences.len() as int);
    }
}

/// Runs one pass per root, with one index for all of them, so that a definition
/// in another root is found.
#[verifier::loop_isolation(false)]
pub fn resolve_roots(
    graph: &mut Graph,
    project_root: &str,
    separator: &str,
    built: &Vec<BuiltRoot>,
    answers: &Vec<Vec<Option<ResolvedRef>>>,
) -> (m: ResolverMetrics)
    requires
        old(graph).wf(),
        answers@.len() == built@.len(),
        forall|i: int|
            0 <= i < built@.len() ==> (#[trigger] answers@[i])@.len() == built@[i].occurrences@.len(),
        total_uses(views(built@), built@.len() as int) <= u64::MAX,
    ensures
        final(graph).wf(),
        ({
            let p = passes_after(
                project_root@,
                separator@,
                old(graph)@.nodes,
                old(graph)@,
                views(built@),
                answer_lists(answers@),
                built@.len() as int,
            );
            &&& final(graph)@ == p.graph
            &&& m.queries == total_uses(views(built@), built@.len() as int)
            &&& m.resolved == p.resolved
            &&& m.internal == p.internal
            &&& m.external == p.external
            &&& m.unresolved == p.unresolved
            &&& m.micros == 0
        }),
{
    let ghost g = graph@;
    let ghost bs = views(built@);
    let ghost ans = answer_lists(answers@);
    let index = NameIndex::from_graph(graph);
    let mut m = ResolverMetrics::new();
    let mut i: usize = 0;
    while i < built.len()
        invariant
            i <= built@.len(),
            graph.wf(),
            m.micros == 0,
            m.queries == total_uses(bs, i as int),
            ({
                let p = passes_after(project_root@, separator@, g.nodes, g, bs, ans, i as int);
                &&& graph@ == p.graph
                &&& m.resolved == p.resolved
                &&& m.internal == p.internal
                &&& m.external == p.external
                &&& m.unresolved == p.unresolved
            }),
        decreases built@.len() - i,
    {
        let b = &built[i];
        proof {
            assert(bs[i as int] == b@);
            assert(ans[i as int] == answer_views(answers@[i as int]@));
            passes_counts(project_root@, separator@, g.nodes, g, bs, ans, i + 1);
            total_uses_grow(bs, i + 1, built@.len() as int);
        }
        let pass = resolve_pass(
            graph,
            &index,
            b.project.as_str(),
            project_root,
            separator,
            &b.occurrences,
            &answers[i],
        );
        m.merge(&pass);
        i += 1;
    }
    m
}

/// The graph with the ports of the first `n` roots.
pub open spec fn with_root_ports(g: GraphView, built: Seq<BuiltView>, n: int) -> GraphView
    decreases n,
{
    if n <= 0 || n > built.len() {
        g
    } else {
        let before = with_root_ports(g, built, n - 1);
        with_all_ports(before, before.nodes, built[n - 1].boundaries, built[n - 1].boundaries.len() as int)
    }
}

/// Adds the ports of every root.
#[verifier::loop_isolation(false)]
pub fn apply_root_boundaries(graph: &mut Graph, built: &Vec<BuiltRoot>)
    requires
        old(graph).wf(),
    ensures
        final(graph).wf(),
        final(graph)@ == with_root_ports(old(graph)@, views(built@), built@.len() as int),
{
    let ghost g = graph@;
    let ghost bs = views(built@);
    let mut i: usize = 0;
    while i < built.len()
        invariant
            i <= built@.len(),
            graph.wf(),
            graph@ == with_root_ports(g, bs, i as int),
        decreases built@.len() - i,
    {
        assert(bs[i as int] == built@[i as int]@);
        apply_boundaries(graph, &built[i].boundaries);
        i += 1;
    }
}

/// What a resolver gave: an answer for each place of use of each root, its
/// status, and the microseconds it took.
pub struct Resolution {
    pub answers: Vec<Vec<Option<ResolvedRef>>>,
    pub status: ResolverStatus,
    pub micros: u64,
}

/// The counters of a finished pass.
pub open spec fn counters_of(p: Pass, queries: nat, micros: u64) -> ResolverMetrics {
    ResolverMetrics {
        queries: queries as u64,
        resolved: p.resolved as u64,
        internal: p.internal as u64,
        external: p.external as u64,
        unresolved: p.unresolved as u64,
        micros,
    }
}

/// The graph after resolution and ports, with the outcome in its metadata.
/// Without a resolver it stays structural, and the status says so.
pub open spec fn completed(
    g: GraphView,
    project_root: Seq<char>,
    separator: Seq<char>,
    built: Seq<BuiltView>,
    resolution: Option<Resolution>,
) -> GraphView {
    match resolution {
        Some(r) => {
            let n = built.len() as int;
            let p = passes_after(project_root, separator, g.nodes, g, built, answer_lists(r.answers@), n);
            with_outcome(
                with_root_ports(p.graph, built, n),
                r.status,
                counters_of(p, total_uses(built, n), r.micros),
            )
        },
        None => with_outcome(
            with_root_ports(g, built, built.len() as int),
            ResolverStatus::Unavailable,
            ResolverMetrics::zero(),
        ),
    }
}

/// Whether a resolver answered each place of use of each root.
pub open spec fn answers_fit(built: Seq<BuiltRoot>, resolution: Option<Resolution>) -> bool {
    resolution is Some ==> {
        &&& resolution->0.answers@.len() == built.len()
        &&& forall|i: int|
            0 <= i < built.len() ==> (#[trigger] resolution->0.answers@[i])@.len() == built[i].occurrences@.len()
        &&& total_uses(views(built), built.len() as int) <= u64::MAX
    }
}

/// Tells whether a resolver answered each place of use of each root.
#[verifier::loop_isolation(false)]
pub fn check_answers(built: &Vec<BuiltRoot>, resolution: &Option<Resolution>) -> (r: bool)
    ensures
        r == answers_fit(built@, *resolution),
{
    match resolution {
        Some(given) => {
            if given.answers.len() != built.len() {
                return false;
            }
            let mut i: usize = 0;
            while i < built.len()
                invariant
                    i <= built@.len(),
                    given.answers@.len() == built@.len(),
                    forall|k: int|
                        0 <= k < i ==> (#[trigger] given.answers@[k])@.len() == built@[k].occurrences@.len(),
                decreases built@.len() - i,
            {
                if given.answers[i].len() != built[i].occurrences.len() {
                    assert(given.answers@[i as int]@.len() != built@[i as int].occurrences@.len());
                    return false;
                }
                i += 1;
            }
            uses_fit(built)
        },
        None => true,
    }
}

/// The status that a resolver, or its absence, leaves behind.
pub open spec fn outcome_status(resolution: Option<Resolution>) -> ResolverStatus {
    match resolution {
        Some(r) => r.status,
        None => ResolverStatus::Unavailable,
    }
}

/// Resolves, adds ports and stores the outcome. Ports come last, so that their
/// nodes stand behind what resolution added.
pub fn complete(
    graph: &mut Graph,
    project_root: &str,
    separator: &str,
    built: &Vec<BuiltRoot>,
    resolution: &Option<Resolution>,
) -> (status: ResolverStatus)
    requires
        old(graph).wf(),
        answers_fit(built@, *resolution),
    ensures
        final(graph).wf(),
        final(graph)@ == completed(old(graph)@, project_root@, separator@, views(built@), *resolution),
        status == outcome_status(*resolution),
{
    let mut m = ResolverMetrics::new();
    let mut status = ResolverStatus::Unavailable;
    let ghost g = graph@;
    if let Some(r) = resolution {
        m = resolve_roots(graph, project_root, separator, built, &r.answers);
        m.micros = r.micros;
        status = r.status;
        proof {
            let n = built@.len() as int;
            let p = passes_after(
                project_root@,
                separator@,
                g.nodes,
                g,
                views(built@),
                answer_lists(r.answers@),
                n,
            );
            assert(m == counters_of(p, total_uses(views(built@), n), r.micros));
        }
    }
    apply_root_boundaries(graph, built);
    store_outcome(graph, status, m);
    status
}

/// Stores the status and the counters of a resolve phase.
pub fn store_outcome(graph: &mut Graph, status: ResolverStatus, m: ResolverMetrics)
    requires
        old(graph).wf(),
    ensures
        final(graph).wf(),
        final(graph)@ == with_outcome(old(graph)@, status, m),
{
    graph.set_metadata_item("resolver_status", MetaValue::text(status.as_str()));
    graph.set_metadata_item("resolver_metrics", MetaValue::Counters(m));
}

/// The message with which a strict analysis refuses a graph.
pub fn strict_error(language: &str, status: ResolverStatus) -> (r: String)
    ensures
        r@ == strict_message(language@, status),
{
    let mut s = copy(language);
    s.append(" resolver status is '");
    s.append(status.as_str());
    s.append("'; refusing to return a degraded graph in strict mode");
    s
}

}
