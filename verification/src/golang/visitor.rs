//! Structural extraction from Go: types, functions, values and imports.
//!
//! Go has no nested declaration scopes, so only a file's top-level declarations
//! are walked.

use vstd::prelude::*;

use crate::golang::deps::{classify_import, import_origin};
use crate::graph::{Graph, GraphView};
use crate::ids::{kind_id, node_kind_id};
use crate::meta::{MetaValue, Metadata, Noted, ValueView};
use crate::node::{Node, NodeKind, NodeView};
use crate::occurrence::{occurrence_at, OccurrenceRef, OccurrenceView};
use crate::relation::{plain_edge, Relation, RelationKind};
use crate::strings::{after_last, strip_around, tail_after, without_around};
use crate::text::{add_item, concat3, concat5, copy, same, views};
use crate::tree::{group_tree, Syntax, TreeView};
use crate::walk::{descend, descendants, typed_below, walk_type};

verus! {

broadcast use group_tree;

/// What is known of a file before it is read.
pub struct GoFile<'a> {
    pub project: &'a str,
    /// The qualified name of the file's package.
    pub package: &'a str,
    pub file_id: &'a str,
    pub file_rel: &'a str,
    /// The project's own module, and the modules it requires.
    pub own_module: &'a str,
    pub required: &'a Vec<String>,
}

/// The mathematical reading of what is known of a file.
pub struct GoFileView {
    pub project: Seq<char>,
    pub package: Seq<char>,
    pub file_id: Seq<char>,
    pub file_rel: Seq<char>,
    pub own_module: Seq<char>,
    pub required: Seq<Seq<char>>,
}

impl<'a> View for GoFile<'a> {
    type V = GoFileView;

    open spec fn view(&self) -> GoFileView {
        GoFileView {
            project: self.project@,
            package: self.package@,
            file_id: self.file_id@,
            file_rel: self.file_rel@,
            own_module: self.own_module@,
            required: views(self.required@),
        }
    }
}

/// An import of a package of the project itself: bound to the package's node
/// once every package is known.
pub struct GoImport {
    pub import_id: String,
    pub path: String,
    pub file_id: String,
}

/// The mathematical reading of an internal import.
pub struct GoImportView {
    pub import_id: Seq<char>,
    pub path: Seq<char>,
    pub file_id: Seq<char>,
}

impl View for GoImport {
    type V = GoImportView;

    open spec fn view(&self) -> GoImportView {
        GoImportView { import_id: self.import_id@, path: self.path@, file_id: self.file_id@ }
    }
}

/// What reading files has found beside nodes and edges.
pub struct GoFound {
    pub occurrences: Vec<OccurrenceRef>,
    pub internal_imports: Vec<GoImport>,
}

impl GoFound {
    /// Nothing found yet.
    pub fn new() -> (r: GoFound)
        ensures
            views(r.occurrences@) == Seq::<OccurrenceView>::empty(),
            views(r.internal_imports@) == Seq::<GoImportView>::empty(),
    {
        let r = GoFound { occurrences: Vec::new(), internal_imports: Vec::new() };
        assert(views(r.occurrences@) =~= Seq::<OccurrenceView>::empty());
        assert(views(r.internal_imports@) =~= Seq::<GoImportView>::empty());
        r
    }
}

/// What reading files makes: the graph, the places of use, the internal imports.
pub struct GoState {
    pub graph: GraphView,
    pub occurrences: Seq<OccurrenceView>,
    pub imports: Seq<GoImportView>,
}

/// The state that a graph and the findings stand for.
pub open spec fn go_state(graph: Graph, found: GoFound) -> GoState {
    GoState {
        graph: graph@,
        occurrences: views(found.occurrences@),
        imports: views(found.internal_imports@),
    }
}

// ---------------------------------------------------------------------------
// Specifications
// ---------------------------------------------------------------------------

/// The name token of a callee: `None` when the result of an expression is called.
pub open spec fn callee_name(t: TreeView, function: usize) -> Option<usize> {
    if t.kind(function) == "identifier"@ {
        Some(function)
    } else if t.kind(function) == "selector_expression"@ {
        t.field(function, "field"@)
    } else {
        None
    }
}

/// The name token that a node calls.
pub open spec fn call_at(t: TreeView, n: usize) -> Option<usize> {
    if t.kind(n) == "call_expression"@ {
        match t.field(n, "function"@) {
            Some(f) => callee_name(t, f),
            None => None,
        }
    } else {
        None
    }
}

/// Whether a node is the target of an assignment or of an increment.
pub open spec fn assigned(t: TreeView, n: usize) -> bool {
    match t.parent(n) {
        Some(p) => {
            ||| t.kind(p) == "inc_statement"@
            ||| t.kind(p) == "dec_statement"@
            ||| t.kind(p) == "expression_list"@ && match t.parent(p) {
                Some(g) => t.kind(g) == "assignment_statement"@ && t.field(g, "left"@) == Some(p),
                None => false,
            }
        },
        None => false,
    }
}

/// Whether a node is what a call calls.
pub open spec fn called(t: TreeView, n: usize) -> bool {
    match t.parent(n) {
        Some(p) => t.kind(p) == "call_expression"@ && t.field(p, "function"@) == Some(n),
        None => false,
    }
}

/// The name token that a node reads or writes: the field of a selector that is
/// not itself called.
pub open spec fn reference_at(t: TreeView, n: usize) -> Option<usize> {
    if t.kind(n) == "selector_expression"@ && !called(t, n) {
        t.field(n, "field"@)
    } else {
        None
    }
}

/// The role of a selector.
pub open spec fn reference_role(t: TreeView, n: usize) -> Seq<char> {
    if assigned(t, n) {
        "write"@
    } else {
        "read"@
    }
}

/// The calls that the first `k` of the given nodes make.
pub open spec fn calls_in(t: TreeView, list: Seq<usize>, enclosing_id: Seq<char>, k: int) -> Seq<OccurrenceView>
    decreases k,
{
    if k <= 0 || k > list.len() {
        Seq::empty()
    } else {
        let earlier = calls_in(t, list, enclosing_id, k - 1);
        match call_at(t, list[k - 1]) {
            Some(name) => earlier.push(occurrence_at("call"@, enclosing_id, t.span(name))),
            None => earlier,
        }
    }
}

/// The reads and writes that the first `k` of the given nodes make.
pub open spec fn references_in(t: TreeView, list: Seq<usize>, enclosing_id: Seq<char>, k: int) -> Seq<OccurrenceView>
    decreases k,
{
    if k <= 0 || k > list.len() {
        Seq::empty()
    } else {
        let earlier = references_in(t, list, enclosing_id, k - 1);
        match reference_at(t, list[k - 1]) {
            Some(name) => earlier.push(
                occurrence_at(reference_role(t, list[k - 1]), enclosing_id, t.span(name)),
            ),
            None => earlier,
        }
    }
}

/// The calls, then the reads and writes, inside a scope.
pub open spec fn uses_in(t: TreeView, scope: usize, enclosing_id: Seq<char>) -> Seq<OccurrenceView> {
    let list = descend(t, scope);
    calls_in(t, list, enclosing_id, list.len() as int) + references_in(t, list, enclosing_id, list.len() as int)
}

/// The token that names a type.
pub open spec fn name_of_type(t: TreeView, n: usize) -> Option<usize> {
    if t.kind(n) == "type_identifier"@ {
        Some(n)
    } else if t.kind(n) == "qualified_type"@ {
        t.field(n, "name"@)
    } else {
        None
    }
}

/// The token that names the type a field declaration embeds.
pub open spec fn embedded_type(t: TreeView, field_declaration: usize) -> Option<usize> {
    if t.kind(field_declaration) == "field_declaration"@ && t.field(field_declaration, "name"@) is None {
        match t.field(field_declaration, "type"@) {
            Some(ty) => name_of_type(t, ty),
            None => None,
        }
    } else {
        None
    }
}

/// The types that the first `k` of the given field declarations embed.
pub open spec fn embedded_in(t: TreeView, list: Seq<usize>, id: Seq<char>, k: int) -> Seq<OccurrenceView>
    decreases k,
{
    if k <= 0 || k > list.len() {
        Seq::empty()
    } else {
        let earlier = embedded_in(t, list, id, k - 1);
        match embedded_type(t, list[k - 1]) {
            Some(name) => earlier.push(occurrence_at("base"@, id, t.span(name))),
            None => earlier,
        }
    }
}

/// The types that the field lists among the first `k` of the given nodes embed.
pub open spec fn struct_bases(t: TreeView, list: Seq<usize>, id: Seq<char>, k: int) -> Seq<OccurrenceView>
    decreases k,
{
    if k <= 0 || k > list.len() {
        Seq::empty()
    } else {
        let earlier = struct_bases(t, list, id, k - 1);
        let n = list[k - 1];
        if t.kind(n) == "field_declaration_list"@ {
            earlier + embedded_in(t, t.kids(n), id, t.kids(n).len() as int)
        } else {
            earlier
        }
    }
}

/// The token that names the type an interface element embeds. An element of
/// several terms is a constraint, not an embedding.
pub open spec fn embedded_element(t: TreeView, elem: usize) -> Option<usize> {
    if t.kind(elem) == "type_elem"@ && t.named_kids(elem).len() == 1 {
        name_of_type(t, t.named_kids(elem)[0])
    } else {
        None
    }
}

/// The types that the elements among the first `k` of the given nodes embed.
pub open spec fn interface_bases(t: TreeView, list: Seq<usize>, id: Seq<char>, k: int) -> Seq<OccurrenceView>
    decreases k,
{
    if k <= 0 || k > list.len() {
        Seq::empty()
    } else {
        let earlier = interface_bases(t, list, id, k - 1);
        match embedded_element(t, list[k - 1]) {
            Some(name) => earlier.push(occurrence_at("base"@, id, t.span(name))),
            None => earlier,
        }
    }
}

/// The types that a struct or an interface embeds.
pub open spec fn bases_of(t: TreeView, type_node: usize, id: Seq<char>) -> Seq<OccurrenceView> {
    let kids = t.kids(type_node);
    if t.kind(type_node) == "struct_type"@ {
        struct_bases(t, kids, id, kids.len() as int)
    } else {
        interface_bases(t, kids, id, kids.len() as int)
    }
}

/// The node of a declaration.
pub open spec fn declared_node(
    c: GoFileView,
    t: TreeView,
    qname: Seq<char>,
    name: Seq<char>,
    kind: NodeKind,
    full: usize,
    name_node: usize,
) -> NodeView {
    NodeView {
        id: kind_id(c.project, qname, kind),
        kind,
        qualified_name: qname,
        name,
        file_path: Some(c.file_rel),
        span: Some(t.span(full)),
        metadata: Seq::<(Seq<char>, ValueView)>::empty().put("name_span"@, ValueView::Place(t.span(name_node))),
    }
}

/// The graph after a declaration: a name that is there already stays as it is.
pub open spec fn declare(
    c: GoFileView,
    t: TreeView,
    g: GraphView,
    qname: Seq<char>,
    name: Seq<char>,
    kind: NodeKind,
    full: usize,
    name_node: usize,
) -> GraphView {
    let node = declared_node(c, t, qname, name, kind, full, name_node);
    if g.has(node.id) {
        g
    } else {
        g.insert(node).relate(plain_edge(c.file_id, node.id, RelationKind::Declares))
    }
}

/// The state after a function declaration.
pub open spec fn with_function(c: GoFileView, t: TreeView, st: GoState, n: usize) -> GoState {
    match t.field(n, "name"@) {
        Some(name_node) => {
            let name = t.text(name_node);
            let qname = c.package + "."@ + name;
            let id = kind_id(c.project, qname, NodeKind::Function);
            GoState {
                graph: declare(c, t, st.graph, qname, name, NodeKind::Function, n, name_node),
                occurrences: st.occurrences + uses_in(t, n, id),
                ..st
            }
        },
        None => st,
    }
}

/// The name of a method's receiver type; empty where it has none.
pub open spec fn receiver_of(t: TreeView, n: usize) -> Seq<char> {
    match t.field(n, "receiver"@) {
        Some(r) => {
            let found = typed_below(t, r, "type_identifier"@);
            if found.len() > 0 {
                t.text(found[0])
            } else {
                Seq::empty()
            }
        },
        None => Seq::empty(),
    }
}

/// The qualified name of a method.
pub open spec fn method_qname(c: GoFileView, t: TreeView, n: usize, name: Seq<char>) -> Seq<char> {
    let receiver = receiver_of(t, n);
    if receiver.len() == 0 {
        c.package + "."@ + name
    } else {
        c.package + "."@ + receiver + "."@ + name
    }
}

/// The state after a method declaration.
pub open spec fn with_method(c: GoFileView, t: TreeView, st: GoState, n: usize) -> GoState {
    match t.field(n, "name"@) {
        Some(name_node) => {
            let name = t.text(name_node);
            let qname = method_qname(c, t, n, name);
            let id = kind_id(c.project, qname, NodeKind::Method);
            GoState {
                graph: declare(c, t, st.graph, qname, name, NodeKind::Method, n, name_node),
                occurrences: st.occurrences + uses_in(t, n, id),
                ..st
            }
        },
        None => st,
    }
}

/// Whether a type declaration declares a struct or an interface.
pub open spec fn struct_like(t: TreeView, n: usize) -> bool {
    t.kind(n) == "type_spec"@ && match t.field(n, "type"@) {
        Some(ty) => t.kind(ty) == "struct_type"@ || t.kind(ty) == "interface_type"@,
        None => false,
    }
}

/// The state after one type of a type declaration.
pub open spec fn with_type(c: GoFileView, t: TreeView, st: GoState, n: usize) -> GoState {
    if t.kind(n) == "type_spec"@ || t.kind(n) == "type_alias"@ {
        match t.field(n, "name"@) {
            Some(name_node) => {
                let kind = if struct_like(t, n) {
                    NodeKind::Class
                } else {
                    NodeKind::TypeAlias
                };
                let name = t.text(name_node);
                let qname = c.package + "."@ + name;
                let id = kind_id(c.project, qname, kind);
                GoState {
                    graph: declare(c, t, st.graph, qname, name, kind, n, name_node),
                    occurrences: if struct_like(t, n) {
                        st.occurrences + bases_of(t, t.field(n, "type"@)->0, id)
                    } else {
                        st.occurrences
                    },
                    ..st
                }
            },
            None => st,
        }
    } else {
        st
    }
}

/// The state after the types among the first `k` of the given nodes.
pub open spec fn with_types(c: GoFileView, t: TreeView, st: GoState, list: Seq<usize>, k: int) -> GoState
    decreases k,
{
    if k <= 0 || k > list.len() {
        st
    } else {
        with_type(c, t, with_types(c, t, st, list, k - 1), list[k - 1])
    }
}

/// The graph after the first `k` names of a variable or constant declaration.
pub open spec fn with_names(c: GoFileView, t: TreeView, g: GraphView, n: usize, names: Seq<usize>, k: int) -> GraphView
    decreases k,
{
    if k <= 0 || k > names.len() {
        g
    } else {
        let name = t.text(names[k - 1]);
        declare(
            c,
            t,
            with_names(c, t, g, n, names, k - 1),
            c.package + "."@ + name,
            name,
            NodeKind::Variable,
            n,
            names[k - 1],
        )
    }
}

/// The graph after the first `k` variable or constant declarations.
pub open spec fn with_values(c: GoFileView, t: TreeView, g: GraphView, list: Seq<usize>, k: int) -> GraphView
    decreases k,
{
    if k <= 0 || k > list.len() {
        g
    } else {
        let names = t.fields(list[k - 1], "name"@);
        with_names(c, t, with_values(c, t, g, list, k - 1), list[k - 1], names, names.len() as int)
    }
}

/// The path that an import names; empty where it names none.
pub open spec fn path_of_import(t: TreeView, n: usize) -> Seq<char> {
    match t.field(n, "path"@) {
        Some(p) => without_around(t.text(p), '"'),
        None => Seq::empty(),
    }
}

/// The node of an external package.
pub open spec fn symbol_node(project: Seq<char>, path: Seq<char>, origin: Seq<char>) -> NodeView {
    NodeView {
        id: kind_id(project, path, NodeKind::ExternalSymbol),
        kind: NodeKind::ExternalSymbol,
        qualified_name: path,
        name: after_last(path, "/"@),
        file_path: None,
        span: None,
        metadata: Seq::<(Seq<char>, ValueView)>::empty().put("origin"@, ValueView::Text(origin)),
    }
}

/// The node of an import.
pub open spec fn import_node(c: GoFileView, t: TreeView, n: usize, path: Seq<char>, origin: Seq<char>) -> NodeView {
    let qname = c.file_rel + "::"@ + path;
    NodeView {
        id: kind_id(c.project, qname, NodeKind::Import),
        kind: NodeKind::Import,
        qualified_name: qname,
        name: path,
        file_path: Some(c.file_rel),
        span: Some(t.span(n)),
        metadata: Seq::<(Seq<char>, ValueView)>::empty()
            .put("origin"@, ValueView::Text(origin))
            .put("import_path"@, ValueView::Text(path)),
    }
}

/// The state after one import. An import of the project itself is left for
/// later; any other one resolves to an external symbol.
pub open spec fn with_import(c: GoFileView, t: TreeView, st: GoState, n: usize) -> GoState {
    let path = path_of_import(t, n);
    if path.len() == 0 {
        st
    } else {
        let origin = import_origin(path, Some(c.own_module), c.required);
        let node = import_node(c, t, n, path, origin);
        if st.graph.has(node.id) {
            st
        } else {
            let g = st.graph.insert(node).relate(plain_edge(c.file_id, node.id, RelationKind::Declares));
            if origin == "internal"@ {
                GoState {
                    graph: g,
                    imports: st.imports.push(GoImportView { import_id: node.id, path, file_id: c.file_id }),
                    ..st
                }
            } else {
                let sym = symbol_node(c.project, path, origin);
                GoState {
                    graph: g.insert(sym).relate(plain_edge(node.id, sym.id, RelationKind::ResolvesTo)),
                    ..st
                }
            }
        }
    }
}

/// The state after the first `k` imports.
pub open spec fn with_imports(c: GoFileView, t: TreeView, st: GoState, list: Seq<usize>, k: int) -> GoState
    decreases k,
{
    if k <= 0 || k > list.len() {
        st
    } else {
        with_import(c, t, with_imports(c, t, st, list, k - 1), list[k - 1])
    }
}

/// The state after one top-level declaration.
pub open spec fn with_declaration(c: GoFileView, t: TreeView, st: GoState, n: usize) -> GoState {
    if t.kind(n) == "function_declaration"@ {
        with_function(c, t, st, n)
    } else if t.kind(n) == "method_declaration"@ {
        with_method(c, t, st, n)
    } else if t.kind(n) == "type_declaration"@ {
        with_types(c, t, st, t.kids(n), t.kids(n).len() as int)
    } else if t.kind(n) == "var_declaration"@ {
        let list = typed_below(t, n, "var_spec"@);
        GoState { graph: with_values(c, t, st.graph, list, list.len() as int), ..st }
    } else if t.kind(n) == "const_declaration"@ {
        let list = typed_below(t, n, "const_spec"@);
        GoState { graph: with_values(c, t, st.graph, list, list.len() as int), ..st }
    } else if t.kind(n) == "import_declaration"@ {
        let list = typed_below(t, n, "import_spec"@);
        with_imports(c, t, st, list, list.len() as int)
    } else {
        st
    }
}

/// The state after the first `k` of the given top-level declarations.
pub open spec fn with_declarations(c: GoFileView, t: TreeView, st: GoState, list: Seq<usize>, k: int) -> GoState
    decreases k,
{
    if k <= 0 || k > list.len() {
        st
    } else {
        with_declaration(c, t, with_declarations(c, t, st, list, k - 1), list[k - 1])
    }
}

/// The state after a whole file.
pub open spec fn with_file(c: GoFileView, t: TreeView, st: GoState, root: usize) -> GoState {
    with_declarations(c, t, st, t.kids(root), t.kids(root).len() as int)
}

// ---------------------------------------------------------------------------
// Extraction
// ---------------------------------------------------------------------------

/// The name token of a callee.
fn called_name(t: &Syntax, function: usize) -> (r: Option<usize>)
    requires
        t@.wf(),
        function < t@.nodes.len(),
    ensures
        r == callee_name(t@, function),
        r is Some ==> r->0 < t@.nodes.len(),
{
    if t.is(function, "identifier") {
        Some(function)
    } else if t.is(function, "selector_expression") {
        t.field(function, "field")
    } else {
        None
    }
}

/// Tells whether a node is the target of an assignment or of an increment.
fn is_assignment_target(t: &Syntax, n: usize) -> (r: bool)
    requires
        t@.wf(),
        n < t@.nodes.len(),
    ensures
        r == assigned(t@, n),
{
    match t.parent(n) {
        Some(p) => {
            if t.is(p, "inc_statement") || t.is(p, "dec_statement") {
                return true;
            }
            if t.is(p, "expression_list") {
                if let Some(g) = t.parent(p) {
                    if t.is(g, "assignment_statement") {
                        if let Some(l) = t.field(g, "left") {
                            return l == p;
                        }
                    }
                }
            }
            false
        },
        None => false,
    }
}

/// Tells whether a node is what a call calls.
fn is_called(t: &Syntax, n: usize) -> (r: bool)
    requires
        t@.wf(),
        n < t@.nodes.len(),
    ensures
        r == called(t@, n),
{
    match t.parent(n) {
        Some(p) => {
            if t.is(p, "call_expression") {
                if let Some(f) = t.field(p, "function") {
                    return f == n;
                }
            }
            false
        },
        None => false,
    }
}

/// The token that names a type.
fn type_name_node(t: &Syntax, n: usize) -> (r: Option<usize>)
    requires
        t@.wf(),
        n < t@.nodes.len(),
    ensures
        r == name_of_type(t@, n),
        r is Some ==> r->0 < t@.nodes.len(),
{
    if t.is(n, "type_identifier") {
        Some(n)
    } else if t.is(n, "qualified_type") {
        t.field(n, "name")
    } else {
        None
    }
}

/// Records the calls, then the reads and writes, inside a scope.
#[verifier::loop_isolation(false)]
fn collect_uses(t: &Syntax, scope: usize, enclosing_id: &str, out: &mut Vec<OccurrenceRef>)
    requires
        t@.wf(),
        scope < t@.nodes.len(),
    ensures
        views(final(out)@) == views(old(out)@) + uses_in(t@, scope, enclosing_id@),
{
    let list = descendants(t, scope);
    let ghost start = views(out@);
    let ghost id = enclosing_id@;
    let mut i: usize = 0;
    assert(start + Seq::<OccurrenceView>::empty() =~= start);
    while i < list.len()
        invariant
            i <= list@.len(),
            views(out@) == start + calls_in(t@, list@, id, i as int),
        decreases list@.len() - i,
    {
        let n = list[i];
        if t.is(n, "call_expression") {
            if let Some(f) = t.field(n, "function") {
                if let Some(name) = called_name(t, f) {
                    add_item(out, OccurrenceRef::at("call", enclosing_id, t.span(name)));
                    assert(views(out@) =~= start + calls_in(t@, list@, id, i + 1));
                }
            }
        }
        i += 1;
    }
    let ghost mid = views(out@);
    let mut k: usize = 0;
    assert(mid + Seq::<OccurrenceView>::empty() =~= mid);
    while k < list.len()
        invariant
            k <= list@.len(),
            views(out@) == mid + references_in(t@, list@, id, k as int),
        decreases list@.len() - k,
    {
        let n = list[k];
        if t.is(n, "selector_expression") && !is_called(t, n) {
            if let Some(name) = t.field(n, "field") {
                let role = if is_assignment_target(t, n) {
                    "write"
                } else {
                    "read"
                };
                add_item(out, OccurrenceRef::at(role, enclosing_id, t.span(name)));
                assert(views(out@) =~= mid + references_in(t@, list@, id, k + 1));
            }
        }
        k += 1;
    }
    assert(views(out@) =~= start + uses_in(t@, scope, id));
}

/// Records the types that a struct or an interface embeds.
#[verifier::loop_isolation(false)]
fn collect_bases(t: &Syntax, type_node: usize, enclosing_id: &str, out: &mut Vec<OccurrenceRef>)
    requires
        t@.wf(),
        type_node < t@.nodes.len(),
    ensures
        views(final(out)@) == views(old(out)@) + bases_of(t@, type_node, enclosing_id@),
{
    let kids = t.kids(type_node);
    let ghost start = views(out@);
    let ghost id = enclosing_id@;
    assert(start + Seq::<OccurrenceView>::empty() =~= start);
    if t.is(type_node, "struct_type") {
        let mut i: usize = 0;
        while i < kids.len()
            invariant
                i <= kids@.len(),
                views(out@) == start + struct_bases(t@, kids@, id, i as int),
            decreases kids@.len() - i,
        {
            let n = kids[i];
            assert(t@.below(type_node, n));
            if t.is(n, "field_declaration_list") {
                let fields = t.kids(n);
                let ghost mid = views(out@);
                let mut k: usize = 0;
                assert(mid + Seq::<OccurrenceView>::empty() =~= mid);
                while k < fields.len()
                    invariant
                        k <= fields@.len(),
                        views(out@) == mid + embedded_in(t@, fields@, id, k as int),
                    decreases fields@.len() - k,
                {
                    let f = fields[k];
                    assert(t@.below(n, f));
                    if t.is(f, "field_declaration") && t.field(f, "name").is_none() {
                        if let Some(ty) = t.field(f, "type") {
                            if let Some(name) = type_name_node(t, ty) {
                                add_item(out, OccurrenceRef::at("base", enclosing_id, t.span(name)));
                                assert(views(out@) =~= mid + embedded_in(t@, fields@, id, k + 1));
                            }
                        }
                    }
                    k += 1;
                }
                assert(views(out@) =~= start + struct_bases(t@, kids@, id, i + 1));
            }
            i += 1;
        }
    } else {
        let mut i: usize = 0;
        while i < kids.len()
            invariant
                i <= kids@.len(),
                views(out@) == start + interface_bases(t@, kids@, id, i as int),
            decreases kids@.len() - i,
        {
            let n = kids[i];
            assert(t@.below(type_node, n));
            if t.is(n, "type_elem") {
                let terms = t.named_kids(n);
                if terms.len() == 1 {
                    assert(t@.below(n, terms@[0]));
                    if let Some(name) = type_name_node(t, terms[0]) {
                        add_item(out, OccurrenceRef::at("base", enclosing_id, t.span(name)));
                        assert(views(out@) =~= start + interface_bases(t@, kids@, id, i + 1));
                    }
                }
            }
            i += 1;
        }
    }
}

/// Declares a name; returns the id of its node.
fn declare_name(
    c: &GoFile,
    t: &Syntax,
    graph: &mut Graph,
    qname: &str,
    name: &str,
    kind: NodeKind,
    full: usize,
    name_node: usize,
) -> (id: String)
    requires
        old(graph).wf(),
        t@.wf(),
        full < t@.nodes.len(),
        name_node < t@.nodes.len(),
    ensures
        final(graph).wf(),
        final(graph)@ == declare(c@, t@, old(graph)@, qname@, name@, kind, full, name_node),
        id@ == kind_id(c.project@, qname@, kind),
{
    let id = node_kind_id(c.project, qname, kind);
    if graph.has_node(id.as_str()) {
        return id;
    }
    let node = Node {
        id: copy(id.as_str()),
        kind,
        qualified_name: copy(qname),
        name: copy(name),
        file_path: Some(copy(c.file_rel)),
        span: Some(t.span(full)),
        metadata: Metadata::new().with("name_span", MetaValue::Place(t.span(name_node))),
    };
    graph.insert_node(node);
    graph.push_relation(Relation::plain(c.file_id, id.as_str(), RelationKind::Declares));
    id
}

/// Reads a function declaration.
fn on_function(c: &GoFile, t: &Syntax, graph: &mut Graph, found: &mut GoFound, n: usize)
    requires
        old(graph).wf(),
        t@.wf(),
        n < t@.nodes.len(),
    ensures
        final(graph).wf(),
        go_state(*final(graph), *final(found)) == with_function(c@, t@, go_state(*old(graph), *old(found)), n),
{
    if let Some(name_node) = t.field(n, "name") {
        let name = t.text(name_node);
        let qname = concat3(c.package, ".", name.as_str());
        let id = declare_name(c, t, graph, qname.as_str(), name.as_str(), NodeKind::Function, n, name_node);
        collect_uses(t, n, id.as_str(), &mut found.occurrences);
    }
}

/// The name of a method's receiver type; empty where it has none.
fn receiver_type(t: &Syntax, n: usize) -> (r: String)
    requires
        t@.wf(),
        n < t@.nodes.len(),
    ensures
        r@ == receiver_of(t@, n),
{
    if let Some(receiver) = t.field(n, "receiver") {
        let found = walk_type(t, receiver, "type_identifier");
        if found.len() > 0 {
            return t.text(found[0]);
        }
    }
    let s = String::new();
    assert(s@ =~= Seq::<char>::empty());
    s
}

/// Reads a method declaration.
fn on_method(c: &GoFile, t: &Syntax, graph: &mut Graph, found: &mut GoFound, n: usize)
    requires
        old(graph).wf(),
        t@.wf(),
        n < t@.nodes.len(),
    ensures
        final(graph).wf(),
        go_state(*final(graph), *final(found)) == with_method(c@, t@, go_state(*old(graph), *old(found)), n),
{
    if let Some(name_node) = t.field(n, "name") {
        let name = t.text(name_node);
        let receiver = receiver_type(t, n);
        let qname = if receiver.as_str().is_empty() {
            concat3(c.package, ".", name.as_str())
        } else {
            concat5(c.package, ".", receiver.as_str(), ".", name.as_str())
        };
        let id = declare_name(c, t, graph, qname.as_str(), name.as_str(), NodeKind::Method, n, name_node);
        collect_uses(t, n, id.as_str(), &mut found.occurrences);
    }
}

/// Reads one type of a type declaration.
fn on_type(c: &GoFile, t: &Syntax, graph: &mut Graph, found: &mut GoFound, n: usize)
    requires
        old(graph).wf(),
        t@.wf(),
        n < t@.nodes.len(),
    ensures
        final(graph).wf(),
        go_state(*final(graph), *final(found)) == with_type(c@, t@, go_state(*old(graph), *old(found)), n),
{
    if !t.is(n, "type_spec") && !t.is(n, "type_alias") {
        return;
    }
    if let Some(name_node) = t.field(n, "name") {
        let type_node = t.field(n, "type");
        let is_struct = match type_node {
            Some(ty) => t.is(n, "type_spec") && (t.is(ty, "struct_type") || t.is(ty, "interface_type")),
            None => false,
        };
        let kind = if is_struct {
            NodeKind::Class
        } else {
            NodeKind::TypeAlias
        };
        let name = t.text(name_node);
        let qname = concat3(c.package, ".", name.as_str());
        let id = declare_name(c, t, graph, qname.as_str(), name.as_str(), kind, n, name_node);
        if is_struct {
            if let Some(ty) = type_node {
                collect_bases(t, ty, id.as_str(), &mut found.occurrences);
            }
        }
    }
}

/// Reads a type declaration.
#[verifier::loop_isolation(false)]
fn on_type_declaration(c: &GoFile, t: &Syntax, graph: &mut Graph, found: &mut GoFound, n: usize)
    requires
        old(graph).wf(),
        t@.wf(),
        n < t@.nodes.len(),
    ensures
        final(graph).wf(),
        go_state(*final(graph), *final(found)) == with_types(
            c@,
            t@,
            go_state(*old(graph), *old(found)),
            t@.kids(n),
            t@.kids(n).len() as int,
        ),
{
    let kids = t.kids(n);
    let ghost start = go_state(*graph, *found);
    let mut i: usize = 0;
    while i < kids.len()
        invariant
            i <= kids@.len(),
            graph.wf(),
            go_state(*graph, *found) == with_types(c@, t@, start, kids@, i as int),
        decreases kids@.len() - i,
    {
        assert(t@.below(n, kids@[i as int]));
        on_type(c, t, graph, found, kids[i]);
        i += 1;
    }
}

/// Reads the variables or constants of a declaration.
#[verifier::loop_isolation(false)]
fn on_value_specs(c: &GoFile, t: &Syntax, graph: &mut Graph, n: usize, spec_kind: &str)
    requires
        old(graph).wf(),
        t@.wf(),
        n < t@.nodes.len(),
    ensures
        final(graph).wf(),
        final(graph)@ == with_values(
            c@,
            t@,
            old(graph)@,
            typed_below(t@, n, spec_kind@),
            typed_below(t@, n, spec_kind@).len() as int,
        ),
{
    let list = walk_type(t, n, spec_kind);
    let ghost start = graph@;
    let mut i: usize = 0;
    while i < list.len()
        invariant
            i <= list@.len(),
            graph.wf(),
            graph@ == with_values(c@, t@, start, list@, i as int),
        decreases list@.len() - i,
    {
        let s = list[i];
        let names = t.fields(s, "name");
        let ghost mid = graph@;
        let mut k: usize = 0;
        while k < names.len()
            invariant
                k <= names@.len(),
                graph.wf(),
                graph@ == with_names(c@, t@, mid, s, names@, k as int),
            decreases names@.len() - k,
        {
            assert(t@.below(s, names@[k as int]));
            let name = t.text(names[k]);
            let qname = concat3(c.package, ".", name.as_str());
            declare_name(c, t, graph, qname.as_str(), name.as_str(), NodeKind::Variable, s, names[k]);
            k += 1;
        }
        i += 1;
    }
}

/// Reads one import.
fn declare_import(c: &GoFile, t: &Syntax, graph: &mut Graph, found: &mut GoFound, n: usize)
    requires
        old(graph).wf(),
        t@.wf(),
        n < t@.nodes.len(),
    ensures
        final(graph).wf(),
        go_state(*final(graph), *final(found)) == with_import(c@, t@, go_state(*old(graph), *old(found)), n),
{
    let path = match t.field(n, "path") {
        Some(p) => {
            let text = t.text(p);
            strip_around(text.as_str(), '"')
        },
        None => {
            let s = String::new();
            assert(s@ =~= Seq::<char>::empty());
            s
        },
    };
    if path.as_str().is_empty() {
        return;
    }
    let origin = classify_import(path.as_str(), Some(c.own_module), c.required);
    let qname = concat3(c.file_rel, "::", path.as_str());
    let import_id = node_kind_id(c.project, qname.as_str(), NodeKind::Import);
    if graph.has_node(import_id.as_str()) {
        return;
    }
    let node = Node {
        id: copy(import_id.as_str()),
        kind: NodeKind::Import,
        qualified_name: qname,
        name: copy(path.as_str()),
        file_path: Some(copy(c.file_rel)),
        span: Some(t.span(n)),
        metadata: Metadata::new().with_text("origin", origin).with_text("import_path", path.as_str()),
    };
    graph.insert_node(node);
    graph.push_relation(Relation::plain(c.file_id, import_id.as_str(), RelationKind::Declares));
    if same(origin, "internal") {
        add_item(
            &mut found.internal_imports,
            GoImport { import_id, path, file_id: copy(c.file_id) },
        );
        return;
    }
    let sym_id = node_kind_id(c.project, path.as_str(), NodeKind::ExternalSymbol);
    let sym = Node {
        id: copy(sym_id.as_str()),
        kind: NodeKind::ExternalSymbol,
        qualified_name: copy(path.as_str()),
        name: tail_after(path.as_str(), "/"),
        file_path: None,
        span: None,
        metadata: Metadata::new().with_text("origin", origin),
    };
    graph.insert_node(sym);
    graph.push_relation(Relation::plain(import_id.as_str(), sym_id.as_str(), RelationKind::ResolvesTo));
}

/// Reads an import declaration.
#[verifier::loop_isolation(false)]
fn on_import_declaration(c: &GoFile, t: &Syntax, graph: &mut Graph, found: &mut GoFound, n: usize)
    requires
        old(graph).wf(),
        t@.wf(),
        n < t@.nodes.len(),
    ensures
        final(graph).wf(),
        go_state(*final(graph), *final(found)) == with_imports(
            c@,
            t@,
            go_state(*old(graph), *old(found)),
            typed_below(t@, n, "import_spec"@),
            typed_below(t@, n, "import_spec"@).len() as int,
        ),
{
    let list = walk_type(t, n, "import_spec");
    let ghost start = go_state(*graph, *found);
    let mut i: usize = 0;
    while i < list.len()
        invariant
            i <= list@.len(),
            graph.wf(),
            go_state(*graph, *found) == with_imports(c@, t@, start, list@, i as int),
        decreases list@.len() - i,
    {
        declare_import(c, t, graph, found, list[i]);
        i += 1;
    }
}

/// Reads the top-level declarations of a file into a graph.
#[verifier::loop_isolation(false)]
pub fn extract(c: &GoFile, t: &Syntax, graph: &mut Graph, found: &mut GoFound, root: usize)
    requires
        old(graph).wf(),
        t@.wf(),
        root < t@.nodes.len(),
    ensures
        final(graph).wf(),
        go_state(*final(graph), *final(found)) == with_file(c@, t@, go_state(*old(graph), *old(found)), root),
{
    let kids = t.kids(root);
    let ghost start = go_state(*graph, *found);
    let mut i: usize = 0;
    while i < kids.len()
        invariant
            i <= kids@.len(),
            graph.wf(),
            go_state(*graph, *found) == with_declarations(c@, t@, start, kids@, i as int),
        decreases kids@.len() - i,
    {
        let n = kids[i];
        assert(t@.below(root, n));
        if t.is(n, "function_declaration") {
            on_function(c, t, graph, found, n);
        } else if t.is(n, "method_declaration") {
            on_method(c, t, graph, found, n);
        } else if t.is(n, "type_declaration") {
            on_type_declaration(c, t, graph, found, n);
        } else if t.is(n, "var_declaration") {
            on_value_specs(c, t, graph, n, "var_spec");
        } else if t.is(n, "const_declaration") {
            on_value_specs(c, t, graph, n, "const_spec");
        } else if t.is(n, "import_declaration") {
            on_import_declaration(c, t, graph, found, n);
        }
        i += 1;
    }
}

}
