//! Writing the facts of C and C++ files into a graph.

use vstd::prelude::*;

use crate::adapter::{ensure_external_symbol, external_node};
use crate::cfamily::headers::{
    decl_at, included_path, others, recorded, resolve_include, DeclLedger, DeclSite, DeclView, SiteView,
};
use crate::cfamily::visitor::{
    FactsView, FileFacts, FoundDecl, FoundInclude, FoundView, IncludeView, Owner, OwnerView, UseView,
};
use crate::graph::{Graph, GraphView};
use crate::ids::{kind_id, node_kind_id};
use crate::meta::{MetaValue, MetaView, Metadata, Noted, ValueView};
use crate::node::{Node, NodeKind, NodeView};
use crate::occurrence::{occurrence_at, OccurrenceRef, OccurrenceView};
use crate::relation::{plain_edge, Relation, RelationKind};
use crate::text::{add_item, concat3, copy, same, views};

verus! {

/// The site of a declaration.
pub open spec fn site_of(file_rel: Seq<char>, d: FoundView) -> SiteView {
    SiteView { file_rel, span: d.span, name_span: d.name_span, defines: d.defines }
}

/// The ledger with the first `k` declarations of a file.
pub open spec fn surveyed(entries: Seq<DeclView>, file_rel: Seq<char>, decls: Seq<FoundView>, k: int) -> Seq<DeclView>
    decreases k,
{
    if k <= 0 || k > decls.len() {
        entries
    } else {
        let d = decls[k - 1];
        recorded(surveyed(entries, file_rel, decls, k - 1), d.kind, d.qualified_name, site_of(file_rel, d))
    }
}

impl FileFacts {
    /// Records every declaring site of the file. This runs for every file of a
    /// root before the first node is written.
    #[verifier::loop_isolation(false)]
    pub fn survey(&self, ledger: &mut DeclLedger)
        requires
            old(ledger).wf(),
        ensures
            final(ledger).wf(),
            final(ledger)@ == surveyed(
                old(ledger)@,
                self@.file_rel,
                self@.declarations,
                self@.declarations.len() as int,
            ),
    {
        let ghost start = ledger@;
        let ghost ds = self@.declarations;
        let mut k: usize = 0;
        while k < self.declarations.len()
            invariant
                k <= self.declarations@.len(),
                ledger.wf(),
                ledger@ == surveyed(start, self.file_rel@, ds, k as int),
            decreases self.declarations@.len() - k,
        {
            let d = &self.declarations[k];
            assert(ds[k as int] == d@);
            let site = DeclSite {
                file_rel: copy(self.file_rel.as_str()),
                span: d.span,
                name_span: d.name_span,
                defines: d.defines,
            };
            ledger.record(d.kind, d.qualified_name.as_str(), site);
            k += 1;
        }
    }
}

/// What is known when facts are written.
pub struct EmitContext {
    pub project: Seq<char>,
    pub entries: Seq<DeclView>,
    pub search_dirs: Seq<Seq<char>>,
    pub known_files: Seq<Seq<char>>,
}

/// The id of the node that an owner names.
pub open spec fn owner_id(project: Seq<char>, owner: OwnerView, file_id: Seq<char>) -> Seq<char> {
    match owner {
        OwnerView::File => file_id,
        OwnerView::Decl { qualified_name, kind } => kind_id(project, qualified_name, kind),
    }
}

/// The metadata that depends on the kind of a declaration.
pub open spec fn kind_metadata(d: FoundView) -> MetaView {
    let m = Seq::<(Seq<char>, ValueView)>::empty().put("name_span"@, ValueView::Place(d.name_span));
    let linkage = ValueView::Text(d.linkage.name());
    let definition = ValueView::Flag(d.defines);
    let hidden = ValueView::Flag(d.is_static);
    let template = ValueView::Flag(d.is_template);
    let access = ValueView::Text(d.access);
    let annotation = ValueView::Text(d.type_text);
    match d.kind {
        NodeKind::Function | NodeKind::Method => m
            .put("linkage"@, linkage)
            .put("is_definition"@, definition)
            .put("is_static"@, hidden)
            .put("is_virtual"@, ValueView::Flag(d.is_virtual))
            .put("is_template"@, template)
            .put("signature"@, ValueView::Text(d.signature))
            .put("return_type"@, ValueView::Text(d.type_text))
            .put("access"@, access),
        NodeKind::Variable => m
            .put("linkage"@, linkage)
            .put("is_definition"@, definition)
            .put("is_static"@, hidden)
            .put("is_extern"@, ValueView::Flag(d.is_extern))
            .put("annotation"@, annotation),
        NodeKind::Attribute => m
            .put("access"@, access)
            .put("is_static"@, hidden)
            .put("annotation"@, annotation)
            .put("is_enumerator"@, ValueView::Flag(d.record_kind == "enumerator"@)),
        NodeKind::Class => m
            .put("record_kind"@, ValueView::Text(d.record_kind))
            .put("linkage"@, linkage)
            .put("is_definition"@, definition)
            .put("is_template"@, template)
            .put("access"@, access),
        NodeKind::TypeAlias => m
            .put("underlying"@, ValueView::Text(d.type_text))
            .put("is_concept"@, ValueView::Flag(d.record_kind == "concept"@))
            .put("is_template"@, template),
        _ => m.put("annotation"@, annotation),
    }
}

/// The metadata of a declaration. A parameter has one site for each spelling of
/// its name, and lists no others.
pub open spec fn decl_metadata(d: FoundView, declared_in: Seq<Seq<char>>) -> MetaView {
    if d.kind == NodeKind::Parameter {
        kind_metadata(d)
    } else {
        kind_metadata(d).put("declared_in"@, ValueView::Texts(declared_in))
    }
}

/// The files beside the owner's that declare a name.
pub open spec fn elsewhere(entries: Seq<DeclView>, d: FoundView) -> Seq<Seq<char>> {
    match decl_at(entries, d.kind, d.qualified_name) {
        Some(e) => others(e.declared_in, e.owner.file_rel, e.declared_in.len() as int),
        None => Seq::empty(),
    }
}

/// Whether a site is the one that the node is built from.
pub open spec fn owning(entries: Seq<DeclView>, file_rel: Seq<char>, d: FoundView) -> bool {
    match decl_at(entries, d.kind, d.qualified_name) {
        Some(e) => e.owner.file_rel == file_rel && e.owner.span == d.span,
        None => false,
    }
}

/// The node of a declaration.
pub open spec fn decl_node(c: EmitContext, file_rel: Seq<char>, d: FoundView) -> NodeView {
    NodeView {
        id: kind_id(c.project, d.qualified_name, d.kind),
        kind: d.kind,
        qualified_name: d.qualified_name,
        name: d.name,
        file_path: Some(file_rel),
        span: Some(d.span),
        metadata: decl_metadata(d, elsewhere(c.entries, d)),
    }
}

/// The graph with a declaration. Only the owning site writes the node; every
/// declaring file declares it.
pub open spec fn with_decl(g: GraphView, c: EmitContext, file_rel: Seq<char>, file_id: Seq<char>, d: FoundView) -> GraphView {
    let node = decl_node(c, file_rel, d);
    let owner = owner_id(c.project, d.owner, file_id);
    let written = if owning(c.entries, file_rel, d) {
        g.insert(node)
    } else {
        g
    };
    let filed = if d.kind != NodeKind::Parameter && owner != file_id {
        written.relate(plain_edge(file_id, node.id, RelationKind::Declares))
    } else {
        written
    };
    filed.relate(plain_edge(owner, node.id, RelationKind::Declares))
}

/// The graph with the first `k` declarations of a file.
pub open spec fn with_decls(
    g: GraphView,
    c: EmitContext,
    file_rel: Seq<char>,
    file_id: Seq<char>,
    decls: Seq<FoundView>,
    k: int,
) -> GraphView
    decreases k,
{
    if k <= 0 || k > decls.len() {
        g
    } else {
        with_decl(with_decls(g, c, file_rel, file_id, decls, k - 1), c, file_rel, file_id, decls[k - 1])
    }
}

/// The file that a directive reads.
pub open spec fn read_path(c: EmitContext, file_rel: Seq<char>, i: IncludeView) -> Option<Seq<char>> {
    if i.style == "computed"@ {
        None
    } else {
        included_path(i.path, i.style == "quoted"@, file_rel, c.search_dirs, c.known_files)
    }
}

/// Where a directive leads.
pub open spec fn read_origin(path: Option<Seq<char>>) -> Seq<char> {
    if path is Some {
        "internal"@
    } else {
        "unknown"@
    }
}

/// The node of a directive. The reading file is part of its name: each file that
/// reads a header is a place of its own.
pub open spec fn directive_node(c: EmitContext, file_rel: Seq<char>, i: IncludeView) -> NodeView {
    let qname = file_rel + "::"@ + i.path;
    let path = read_path(c, file_rel, i);
    NodeView {
        id: kind_id(c.project, qname, NodeKind::Import),
        kind: NodeKind::Import,
        qualified_name: qname,
        name: i.path,
        file_path: Some(file_rel),
        span: Some(i.span),
        metadata: Seq::<(Seq<char>, ValueView)>::empty()
            .put("origin"@, ValueView::Text(read_origin(path)))
            .put("include_path"@, ValueView::Text(i.path))
            .put("include_style"@, ValueView::Text(i.style))
            .put("resolved_path"@, match path {
                    Some(p) => ValueView::Text(p),
                    None => ValueView::Nothing,
                }),
    }
}

/// The graph with a directive: bound to the header's file, or to an external
/// symbol.
pub open spec fn with_directive(
    g: GraphView,
    c: EmitContext,
    file_rel: Seq<char>,
    file_id: Seq<char>,
    i: IncludeView,
) -> GraphView {
    let node = directive_node(c, file_rel, i);
    let declared = g.insert(node).relate(plain_edge(file_id, node.id, RelationKind::Declares));
    match read_path(c, file_rel, i) {
        Some(path) => {
            let target = kind_id(c.project, path, NodeKind::File);
            declared.relate(plain_edge(file_id, target, RelationKind::Imports)).relate(
                plain_edge(node.id, target, RelationKind::ResolvesTo),
            )
        },
        None => {
            let symbol = external_node(c.project, i.path, "unknown"@, "/"@);
            declared.insert(symbol).relate(plain_edge(file_id, symbol.id, RelationKind::Imports)).relate(
                plain_edge(node.id, symbol.id, RelationKind::ResolvesTo),
            )
        },
    }
}

/// The graph with the first `k` directives of a file.
pub open spec fn with_directives(
    g: GraphView,
    c: EmitContext,
    file_rel: Seq<char>,
    file_id: Seq<char>,
    list: Seq<IncludeView>,
    k: int,
) -> GraphView
    decreases k,
{
    if k <= 0 || k > list.len() {
        g
    } else {
        with_directive(with_directives(g, c, file_rel, file_id, list, k - 1), c, file_rel, file_id, list[k - 1])
    }
}

/// The graph with the facts of a file.
pub open spec fn with_facts(g: GraphView, c: EmitContext, facts: FactsView, file_id: Seq<char>) -> GraphView {
    let declared = with_decls(
        g,
        c,
        facts.file_rel,
        file_id,
        facts.declarations,
        facts.declarations.len() as int,
    );
    with_directives(declared, c, facts.file_rel, file_id, facts.includes, facts.includes.len() as int)
}

/// The places of use with the ids of what encloses them.
pub open spec fn placed(project: Seq<char>, file_id: Seq<char>, uses: Seq<UseView>) -> Seq<OccurrenceView> {
    uses.map_values(|u: UseView| occurrence_at(u.role, owner_id(project, u.owner, file_id), u.span))
}

/// Writes the facts of files into a graph.
pub struct CFamilyEmitter<'a> {
    pub project_name: &'a str,
    /// Filled over every file before the first one is written.
    pub ledger: &'a DeclLedger,
    pub search_dirs: &'a Vec<String>,
    /// The files of the root: a directive is bound to these alone.
    pub known_files: &'a Vec<String>,
}

impl<'a> View for CFamilyEmitter<'a> {
    type V = EmitContext;

    open spec fn view(&self) -> EmitContext {
        EmitContext {
            project: self.project_name@,
            entries: self.ledger@,
            search_dirs: views(self.search_dirs@),
            known_files: views(self.known_files@),
        }
    }
}

/// The metadata of a declaration.
fn metadata_for(d: &FoundDecl, declared_in: Vec<String>) -> (r: Metadata)
    ensures
        r@ == decl_metadata(d@, views(declared_in@)),
{
    let m = Metadata::new().with("name_span", MetaValue::Place(d.name_span));
    let own = match d.kind {
        NodeKind::Function | NodeKind::Method => m.with_text("linkage", d.linkage.as_str()).with(
            "is_definition",
            MetaValue::Flag(d.defines),
        ).with("is_static", MetaValue::Flag(d.is_static)).with("is_virtual", MetaValue::Flag(d.is_virtual)).with(
            "is_template",
            MetaValue::Flag(d.is_template),
        ).with_text("signature", d.signature.as_str()).with_text("return_type", d.type_text.as_str()).with_text(
            "access",
            d.access.as_str(),
        ),
        NodeKind::Variable => m.with_text("linkage", d.linkage.as_str()).with(
            "is_definition",
            MetaValue::Flag(d.defines),
        ).with("is_static", MetaValue::Flag(d.is_static)).with("is_extern", MetaValue::Flag(d.is_extern)).with_text(
            "annotation",
            d.type_text.as_str(),
        ),
        NodeKind::Attribute => m.with_text("access", d.access.as_str()).with(
            "is_static",
            MetaValue::Flag(d.is_static),
        ).with_text("annotation", d.type_text.as_str()).with(
            "is_enumerator",
            MetaValue::Flag(same(d.record_kind.as_str(), "enumerator")),
        ),
        NodeKind::Class => m.with_text("record_kind", d.record_kind.as_str()).with_text(
            "linkage",
            d.linkage.as_str(),
        ).with("is_definition", MetaValue::Flag(d.defines)).with("is_template", MetaValue::Flag(d.is_template)).with_text(
            "access",
            d.access.as_str(),
        ),
        NodeKind::TypeAlias => m.with_text("underlying", d.type_text.as_str()).with(
            "is_concept",
            MetaValue::Flag(same(d.record_kind.as_str(), "concept")),
        ).with("is_template", MetaValue::Flag(d.is_template)),
        _ => m.with_text("annotation", d.type_text.as_str()),
    };
    if d.kind == NodeKind::Parameter {
        own
    } else {
        own.with("declared_in", MetaValue::Texts(declared_in))
    }
}

impl<'a> CFamilyEmitter<'a> {
    /// The id of the node that an owner names.
    fn owner_id(&self, owner: &Owner, file_id: &str) -> (r: String)
        ensures
            r@ == owner_id(self.project_name@, owner@, file_id@),
    {
        match owner {
            Owner::File => copy(file_id),
            Owner::Decl { qualified_name, kind } => node_kind_id(self.project_name, qualified_name.as_str(), *kind),
        }
    }

    /// Writes one declaration.
    fn emit_decl(&self, graph: &mut Graph, file_rel: &str, file_id: &str, d: &FoundDecl)
        requires
            old(graph).wf(),
            self.ledger.wf(),
        ensures
            final(graph).wf(),
            final(graph)@ == with_decl(old(graph)@, self@, file_rel@, file_id@, d@),
    {
        let site = DeclSite { file_rel: copy(file_rel), span: d.span, name_span: d.name_span, defines: d.defines };
        let id = node_kind_id(self.project_name, d.qualified_name.as_str(), d.kind);
        if self.ledger.owns(d.kind, d.qualified_name.as_str(), &site) {
            let declared_in = self.ledger.declared_elsewhere(d.kind, d.qualified_name.as_str());
            let node = Node {
                id: copy(id.as_str()),
                kind: d.kind,
                qualified_name: copy(d.qualified_name.as_str()),
                name: copy(d.name.as_str()),
                file_path: Some(copy(file_rel)),
                span: Some(d.span),
                metadata: metadata_for(d, declared_in),
            };
            graph.insert_node(node);
        }
        let owner = self.owner_id(&d.owner, file_id);
        if d.kind != NodeKind::Parameter && !same(owner.as_str(), file_id) {
            graph.push_relation(Relation::plain(file_id, id.as_str(), RelationKind::Declares));
        }
        graph.push_relation(Relation::plain(owner.as_str(), id.as_str(), RelationKind::Declares));
    }

    /// Writes one directive.
    fn emit_include(&self, graph: &mut Graph, file_rel: &str, file_id: &str, i: &FoundInclude)
        requires
            old(graph).wf(),
        ensures
            final(graph).wf(),
            final(graph)@ == with_directive(old(graph)@, self@, file_rel@, file_id@, i@),
    {
        let resolved: Option<String> = if same(i.style.as_str(), "computed") {
            None
        } else {
            resolve_include(
                i.path.as_str(),
                same(i.style.as_str(), "quoted"),
                file_rel,
                self.search_dirs,
                self.known_files,
            )
        };
        let origin = if resolved.is_some() {
            "internal"
        } else {
            "unknown"
        };
        let qname = concat3(file_rel, "::", i.path.as_str());
        let id = node_kind_id(self.project_name, qname.as_str(), NodeKind::Import);
        let shown = match &resolved {
            Some(p) => MetaValue::text(p.as_str()),
            None => MetaValue::Nothing,
        };
        let node = Node {
            id: copy(id.as_str()),
            kind: NodeKind::Import,
            qualified_name: qname,
            name: copy(i.path.as_str()),
            file_path: Some(copy(file_rel)),
            span: Some(i.span),
            metadata: Metadata::new().with_text("origin", origin).with_text("include_path", i.path.as_str()).with_text(
                "include_style",
                i.style.as_str(),
            ).with("resolved_path", shown),
        };
        graph.insert_node(node);
        graph.push_relation(Relation::plain(file_id, id.as_str(), RelationKind::Declares));
        let target = match &resolved {
            Some(p) => node_kind_id(self.project_name, p.as_str(), NodeKind::File),
            None => ensure_external_symbol(graph, self.project_name, i.path.as_str(), origin, "/"),
        };
        graph.push_relation(Relation::plain(file_id, target.as_str(), RelationKind::Imports));
        graph.push_relation(Relation::plain(id.as_str(), target.as_str(), RelationKind::ResolvesTo));
    }

    /// Writes the facts of a file; returns its places of use.
    #[verifier::loop_isolation(false)]
    pub fn emit(&self, graph: &mut Graph, facts: &FileFacts, file_id: &str) -> (r: Vec<OccurrenceRef>)
        requires
            old(graph).wf(),
            self.ledger.wf(),
        ensures
            final(graph).wf(),
            final(graph)@ == with_facts(old(graph)@, self@, facts@, file_id@),
            views(r@) == placed(self.project_name@, file_id@, facts@.occurrences),
    {
        let file_rel = facts.file_rel.as_str();
        let ghost g = graph@;
        let ghost ds = facts@.declarations;
        let mut i: usize = 0;
        while i < facts.declarations.len()
            invariant
                i <= facts.declarations@.len(),
                graph.wf(),
                graph@ == with_decls(g, self@, file_rel@, file_id@, ds, i as int),
            decreases facts.declarations@.len() - i,
        {
            assert(ds[i as int] == facts.declarations@[i as int]@);
            self.emit_decl(graph, file_rel, file_id, &facts.declarations[i]);
            i += 1;
        }
        let ghost declared = graph@;
        let ghost is = facts@.includes;
        let mut k: usize = 0;
        while k < facts.includes.len()
            invariant
                k <= facts.includes@.len(),
                graph.wf(),
                graph@ == with_directives(declared, self@, file_rel@, file_id@, is, k as int),
            decreases facts.includes@.len() - k,
        {
            assert(is[k as int] == facts.includes@[k as int]@);
            self.emit_include(graph, file_rel, file_id, &facts.includes[k]);
            k += 1;
        }
        let ghost all = placed(self.project_name@, file_id@, facts@.occurrences);
        let mut out: Vec<OccurrenceRef> = Vec::new();
        let mut j: usize = 0;
        assert(views(out@) =~= all.take(0));
        while j < facts.occurrences.len()
            invariant
                j <= facts.occurrences@.len(),
                views(out@) == all.take(j as int),
            decreases facts.occurrences@.len() - j,
        {
            let u = &facts.occurrences[j];
            assert(facts@.occurrences[j as int] == u@);
            let enclosing = self.owner_id(&u.owner, file_id);
            add_item(&mut out, OccurrenceRef::at(u.role.as_str(), enclosing.as_str(), u.span));
            assert(all.take(j + 1) =~= all.take(j as int).push(all[j as int]));
            j += 1;
        }
        assert(all.take(facts.occurrences@.len() as int) =~= all);
        out
    }
}

}
