//! Structural extraction from PHP: namespaces, classes, functions, imports.
//!
//! PHP admits a class or a function wherever it admits a statement, so one walk
//! reads declarations and expressions alike. Names are separated by a backslash
//! at every level. A use of a name becomes an occurrence, which is bound later.

use vstd::prelude::*;

use crate::adapter::{ensure_external_symbol, external_node};
use crate::graph::{Graph, GraphView};
use crate::ids::{kind_id, node_kind_id};
use crate::index::{table_get, Table};
use crate::meta::{MetaValue, MetaView, Metadata, Noted, ValueView};
use crate::node::{Node, NodeKind, NodeView};
use crate::occurrence::{occurrence_at, OccurrenceRef, OccurrenceView};
use crate::php::deps::{classify_import, php_origin};
use crate::php::names::{
    class_names, class_refs, declared_variable, field_variable, final_name, last_name, namespace_name, namespace_of,
    plain_are_below, plain_kids, qualified, qualify, read_uses, significant, uses_of, variable_identifier,
    variable_name, visibility, visibility_from, Use, UseView, BASE_KINDS, MARKUP_KINDS, NAME_KINDS,
};
use crate::relation::{plain_edge, Relation, RelationKind};
use crate::strings::{after_last, decimal, decimal_text, join, joined, pieces, split, tail_after};
use crate::text::{
    add_item, ascii_lowercase, concat3, concat4, copy, opt_view, same, to_ascii_lower, views,
};
use crate::tree::{group_tree, Syntax, TreeView};

verus! {

broadcast use group_tree;

/// What is known of a file before it is read.
pub struct PhpFile<'a> {
    pub project: &'a str,
    pub file_rel: &'a str,
    pub file_id: &'a str,
    /// The first segments of the project's own namespaces, and the vendors it
    /// requires.
    pub internal: &'a Vec<String>,
    pub vendors: &'a Vec<String>,
    /// The modules of the namespaces that are known.
    pub modules: &'a Table,
}

/// The mathematical reading of what is known of a file.
pub struct PhpFileView {
    pub project: Seq<char>,
    pub file_rel: Seq<char>,
    pub file_id: Seq<char>,
    pub internal: Seq<Seq<char>>,
    pub vendors: Seq<Seq<char>>,
    pub modules: Seq<(Seq<char>, Seq<char>)>,
}

impl<'a> View for PhpFile<'a> {
    type V = PhpFileView;

    open spec fn view(&self) -> PhpFileView {
        PhpFileView {
            project: self.project@,
            file_rel: self.file_rel@,
            file_id: self.file_id@,
            internal: views(self.internal@),
            vendors: views(self.vendors@),
            modules: self.modules@,
        }
    }
}

/// What encloses the code that is read.
pub struct FrameView {
    pub container: Seq<char>,
    pub kind: NodeKind,
}

/// How far reading has come.
pub struct VisitState {
    pub graph: GraphView,
    pub uses: Seq<OccurrenceView>,
    /// The prefix of qualified names.
    pub scope: Seq<char>,
}

/// Which declaration made a class.
#[derive(Clone, Copy, PartialEq, Eq, Structural)]
pub enum ClassFlavour {
    Class,
    Interface,
    Trait,
    Enumeration,
    Anonymous,
}

// ---------------------------------------------------------------------------
// Nodes and occurrences
// ---------------------------------------------------------------------------

/// The state with a use of a name.
pub open spec fn used(st: VisitState, t: TreeView, role: Seq<char>, n: usize, id: Seq<char>) -> VisitState {
    VisitState { uses: st.uses.push(occurrence_at(role, id, t.span(n))), ..st }
}

/// The state with a use of a name that may be there.
pub open spec fn used_if(st: VisitState, t: TreeView, role: Seq<char>, n: Option<usize>, id: Seq<char>) -> VisitState {
    match n {
        Some(n) => used(st, t, role, n, id),
        None => st,
    }
}

/// The state with uses of the final names of the first `k` references.
pub open spec fn used_refs(st: VisitState, t: TreeView, role: Seq<char>, list: Seq<usize>, id: Seq<char>, k: int) -> VisitState
    decreases k,
{
    if k <= 0 || k > list.len() {
        st
    } else {
        used_if(used_refs(st, t, role, list, id, k - 1), t, role, final_name(t, list[k - 1]), id)
    }
}

/// The state with a use of every class that a type names.
pub open spec fn typed(st: VisitState, t: TreeView, n: Option<usize>, id: Seq<char>) -> VisitState {
    match n {
        Some(n) => used_refs(st, t, "annotation"@, class_names(t, n), id, class_names(t, n).len() as int),
        None => st,
    }
}

/// No metadata.
pub open spec fn no_metadata() -> MetaView {
    Seq::<(Seq<char>, ValueView)>::empty()
}

/// The node of a declaration.
pub open spec fn made(
    c: PhpFileView,
    t: TreeView,
    kind: NodeKind,
    qname: Seq<char>,
    name: Seq<char>,
    at: Option<usize>,
    metadata: MetaView,
    name_node: Option<usize>,
) -> NodeView {
    NodeView {
        id: kind_id(c.project, qname, kind),
        kind,
        qualified_name: qname,
        name,
        file_path: Some(c.file_rel),
        span: match at {
            Some(n) => Some(t.span(n)),
            None => None,
        },
        metadata: match name_node {
            Some(n) => metadata.put("name_span"@, ValueView::Place(t.span(n))),
            None => metadata,
        },
    }
}

/// The state with a node that a container declares.
pub open spec fn declared(st: VisitState, container: Seq<char>, node: NodeView) -> VisitState {
    VisitState {
        graph: st.graph.insert(node).relate(plain_edge(container, node.id, RelationKind::Declares)),
        ..st
    }
}

/// The flags of a class.
pub open spec fn class_metadata(t: TreeView, n: usize, flavour: ClassFlavour) -> MetaView {
    no_metadata()
        .put("is_interface"@, ValueView::Flag(flavour == ClassFlavour::Interface))
        .put("is_trait"@, ValueView::Flag(flavour == ClassFlavour::Trait))
        .put("is_enum"@, ValueView::Flag(flavour == ClassFlavour::Enumeration))
        .put("is_anonymous"@, ValueView::Flag(flavour == ClassFlavour::Anonymous))
        .put("is_abstract"@, ValueView::Flag(t.kid_of(n, "abstract_modifier"@) is Some))
}

/// The flags of a function.
pub open spec fn function_metadata(t: TreeView, n: usize) -> MetaView {
    no_metadata()
        .put("is_static"@, ValueView::Flag(t.kid_of(n, "static_modifier"@) is Some))
        .put("is_abstract"@, ValueView::Flag(t.kid_of(n, "abstract_modifier"@) is Some))
        .put("visibility"@, ValueView::Text(visibility_from(t, t.kids(n), 0)))
}

/// The flags of a property.
pub open spec fn property_metadata(t: TreeView, n: usize, is_static: bool, is_promoted: bool) -> MetaView {
    no_metadata()
        .put("visibility"@, ValueView::Text(visibility_from(t, t.kids(n), 0)))
        .put("is_static"@, ValueView::Flag(is_static))
        .put("is_readonly"@, ValueView::Flag(t.kid_of(n, "readonly_modifier"@) is Some))
        .put("is_promoted"@, ValueView::Flag(is_promoted))
}

/// The flags of a constant. Only a constant of a class has a visibility.
pub open spec fn constant_metadata(t: TreeView, n: usize, in_class: bool) -> MetaView {
    let m = no_metadata().put("is_constant"@, ValueView::Flag(true));
    if in_class {
        m.put("visibility"@, ValueView::Text(visibility_from(t, t.kids(n), 0)))
    } else {
        m
    }
}

/// The name of a class without one: its place.
pub open spec fn place_name(t: TreeView, n: usize) -> Seq<char> {
    "class@"@ + decimal(t.span(n).start_line as nat) + ":"@ + decimal(t.span(n).start_col as nat)
}

/// The state with uses of the classes that the first `k` clauses name as bases.
pub open spec fn with_bases(st: VisitState, t: TreeView, list: Seq<usize>, id: Seq<char>, k: int) -> VisitState
    decreases k,
{
    if k <= 0 || k > list.len() {
        st
    } else {
        let earlier = with_bases(st, t, list, id, k - 1);
        if t.kind_among(list[k - 1], BASE_KINDS@) {
            let refs = class_names(t, list[k - 1]);
            used_refs(earlier, t, "base"@, refs, id, refs.len() as int)
        } else {
            earlier
        }
    }
}

/// The state, and whether a part is still ahead of the operator, after the
/// first `k` parts of a clause that settles a conflict of traits. What stands
/// before the operator is a method; behind `insteadof` stand further traits.
pub open spec fn with_parts(st: VisitState, t: TreeView, parts: Seq<usize>, instead: bool, id: Seq<char>, k: int) -> (
    VisitState,
    bool,
)
    decreases k,
{
    if k <= 0 || k > parts.len() {
        (st, true)
    } else {
        let earlier = with_parts(st, t, parts, instead, id, k - 1);
        let part = parts[k - 1];
        if t.kind(part) == "class_constant_access_expression"@ {
            let inner = plain_kids(t, part);
            if inner.len() == 0 {
                (earlier.0, false)
            } else {
                let owner = used_if(earlier.0, t, "base"@, final_name(t, inner[0]), id);
                (
                    if t.kind(inner.last()) == "name"@ {
                        used(owner, t, "read"@, inner.last(), id)
                    } else {
                        owner
                    },
                    false,
                )
            }
        } else if t.kind(part) == "name"@ && earlier.1 {
            (used(earlier.0, t, "read"@, part, id), false)
        } else if t.kind(part) == "name"@ && instead {
            (used(earlier.0, t, "base"@, part, id), false)
        } else {
            earlier
        }
    }
}

/// The state after the first `k` clauses that settle conflicts of traits.
pub open spec fn with_conflicts(st: VisitState, t: TreeView, list: Seq<usize>, id: Seq<char>, k: int) -> VisitState
    decreases k,
{
    if k <= 0 || k > list.len() {
        st
    } else {
        let earlier = with_conflicts(st, t, list, id, k - 1);
        let clause = list[k - 1];
        if t.kind(clause) == "use_instead_of_clause"@ || t.kind(clause) == "use_as_clause"@ {
            let parts = plain_kids(t, clause);
            with_parts(earlier, t, parts, t.kind(clause) == "use_instead_of_clause"@, id, parts.len() as int).0
        } else {
            earlier
        }
    }
}

/// The state after the first `k` parts of a use of traits in a class.
pub open spec fn with_traits(st: VisitState, t: TreeView, list: Seq<usize>, id: Seq<char>, k: int) -> VisitState
    decreases k,
{
    if k <= 0 || k > list.len() {
        st
    } else {
        let earlier = with_traits(st, t, list, id, k - 1);
        let n = list[k - 1];
        if t.kind_among(n, NAME_KINDS@) {
            used_if(earlier, t, "base"@, final_name(t, n), id)
        } else if t.kind(n) == "use_list"@ {
            with_conflicts(earlier, t, t.kids(n), id, t.kids(n).len() as int)
        } else {
            earlier
        }
    }
}

// ---------------------------------------------------------------------------
// Imports
// ---------------------------------------------------------------------------

/// The module of the longest of the first `k` prefixes of a name.
pub open spec fn module_of_prefix(modules: Seq<(Seq<char>, Seq<char>)>, parts: Seq<Seq<char>>, k: int) -> Option<Seq<char>>
    decreases k,
{
    if k <= 0 || k > parts.len() {
        None
    } else {
        match table_get(modules, joined(parts.take(k), "\\"@)) {
            Some(id) => Some(id),
            None => module_of_prefix(modules, parts, k - 1),
        }
    }
}

/// The module of a namespace or of its longest prefix that has one.
pub open spec fn module_for(modules: Seq<(Seq<char>, Seq<char>)>, qname: Seq<char>) -> Option<Seq<char>> {
    module_of_prefix(modules, pieces(qname, '\\'), pieces(qname, '\\').len() as int)
}

/// The node of an import.
pub open spec fn import_node(c: PhpFileView, t: TreeView, scope: Seq<char>, u: UseView, origin: Seq<char>) -> NodeView {
    made(
        c,
        t,
        NodeKind::Import,
        qualified(scope, u.local),
        u.local,
        None,
        no_metadata()
            .put("alias"@, if u.local != after_last(u.target, "\\"@) {
                ValueView::Text(u.local)
            } else {
                ValueView::Nothing
            })
            .put("original_name"@, ValueView::Text(u.target))
            .put("use_kind"@, ValueView::Text(u.kind.name()))
            .put("origin"@, ValueView::Text(origin)),
        None,
    )
}

/// The state after one import. An import of the project itself is bound to the
/// module of its longest prefix; any other one to an external symbol.
pub open spec fn with_use(c: PhpFileView, t: TreeView, f: FrameView, st: VisitState, u: UseView) -> VisitState {
    let origin = php_origin(u.target, c.internal, c.vendors);
    let node = import_node(c, t, st.scope, u, origin);
    let st1 = declared(st, f.container, node);
    let module = if origin == "internal"@ {
        module_for(c.modules, u.target)
    } else {
        None
    };
    let graph = match module {
        Some(id) => st1.graph,
        None => st1.graph.insert(external_node(c.project, u.target, origin, "\\"@)),
    };
    let target = match module {
        Some(id) => id,
        None => kind_id(c.project, u.target, NodeKind::ExternalSymbol),
    };
    VisitState {
        graph: graph.relate(plain_edge(c.file_id, target, RelationKind::Imports)).relate(
            plain_edge(node.id, target, RelationKind::ResolvesTo),
        ),
        ..st1
    }
}

/// The state after the first `k` imports.
pub open spec fn with_uses(c: PhpFileView, t: TreeView, f: FrameView, st: VisitState, list: Seq<UseView>, k: int) -> VisitState
    decreases k,
{
    if k <= 0 || k > list.len() {
        st
    } else {
        with_use(c, t, f, with_uses(c, t, f, st, list, k - 1), list[k - 1])
    }
}

// ---------------------------------------------------------------------------
// The walk
// ---------------------------------------------------------------------------

/// The state after the first `k` children of a node.
pub open spec fn visit_kids(t: TreeView, c: PhpFileView, f: FrameView, st: VisitState, n: usize, k: int) -> VisitState
    decreases t.nodes.len() - n, 10int, k,
{
    if k <= 0 || k > t.kids(n).len() {
        st
    } else {
        visit(t, c, f, visit_kids(t, c, f, st, n, k - 1), t.kids(n)[k - 1])
    }
}

/// The state after all children of a node.
pub open spec fn visit_all(t: TreeView, c: PhpFileView, f: FrameView, st: VisitState, n: usize) -> VisitState
    decreases t.nodes.len() - n, 15int, 0int,
{
    visit_kids(t, c, f, st, n, t.kids(n).len() as int)
}

/// The state after a node that may be there.
pub open spec fn visit_if(t: TreeView, c: PhpFileView, f: FrameView, st: VisitState, n: Option<usize>, parent: usize) -> VisitState
    decreases t.nodes.len() - parent, 5int, 0int,
{
    match n {
        Some(n) => if t.below(parent, n) {
            visit(t, c, f, st, n)
        } else {
            st
        },
        None => st,
    }
}

/// The state after the attributes of a declaration.
pub open spec fn visit_attributes(t: TreeView, c: PhpFileView, f: FrameView, st: VisitState, n: usize) -> VisitState
    decreases t.nodes.len() - n, 20int, 0int,
{
    match t.field(n, "attributes"@) {
        Some(list) => visit_all(t, c, f, st, list),
        None => st,
    }
}

/// The state after the hooks of a property.
pub open spec fn visit_hooks(t: TreeView, c: PhpFileView, f: FrameView, st: VisitState, n: usize) -> VisitState
    decreases t.nodes.len() - n, 20int, 0int,
{
    match t.kid_of(n, "property_hook_list"@) {
        Some(hooks) => visit_all(t, c, f, st, hooks),
        None => st,
    }
}

/// The state after a namespace definition. Braces bound a namespace; without
/// them it lasts until the next one.
pub open spec fn visit_namespace(t: TreeView, c: PhpFileView, f: FrameView, st: VisitState, n: usize) -> VisitState
    decreases t.nodes.len() - n, 40int, 0int,
{
    let name = namespace_name(t, n);
    match t.field(n, "body"@) {
        Some(body) => VisitState { scope: st.scope, ..visit_all(t, c, f, VisitState { scope: name, ..st }, body) },
        None => VisitState { scope: name, ..st },
    }
}

/// The state after a class with a name of its own.
pub open spec fn visit_class(
    t: TreeView,
    c: PhpFileView,
    f: FrameView,
    st: VisitState,
    n: usize,
    flavour: ClassFlavour,
) -> VisitState
    decreases t.nodes.len() - n, 40int, 0int,
{
    match t.field(n, "name"@) {
        Some(name_node) => declare_class(
            t,
            c,
            f,
            st,
            n,
            qualified(st.scope, t.text(name_node)),
            t.text(name_node),
            Some(name_node),
            flavour,
        ),
        None => st,
    }
}

/// The state after the declaration of a class: its attributes, its bases, its
/// body.
pub open spec fn declare_class(
    t: TreeView,
    c: PhpFileView,
    f: FrameView,
    st: VisitState,
    n: usize,
    qname: Seq<char>,
    name: Seq<char>,
    name_node: Option<usize>,
    flavour: ClassFlavour,
) -> VisitState
    decreases t.nodes.len() - n, 30int, 0int,
{
    let node = made(c, t, NodeKind::Class, qname, name, Some(n), class_metadata(t, n, flavour), name_node);
    let inner = FrameView { container: node.id, kind: NodeKind::Class };
    let opened = VisitState { scope: qname, ..declared(st, f.container, node) };
    let st1 = visit_attributes(t, c, inner, opened, n);
    let st2 = with_bases(st1, t, plain_kids(t, n), node.id, plain_kids(t, n).len() as int);
    let st3 = match t.field(n, "body"@) {
        Some(body) => visit_all(t, c, inner, st2, body),
        None => st2,
    };
    VisitState { scope: st.scope, ..st3 }
}

/// The state after a class without a name. The arguments belong to the code
/// that creates it.
pub open spec fn visit_anonymous(t: TreeView, c: PhpFileView, f: FrameView, st: VisitState, n: usize) -> VisitState
    decreases t.nodes.len() - n, 40int, 0int,
{
    let name = place_name(t, n);
    let st1 = declare_class(t, c, f, st, n, qualified(st.scope, name), name, None, ClassFlavour::Anonymous);
    match t.kid_of(n, "arguments"@) {
        Some(arguments) => visit_arguments(t, c, f, st1, arguments, t.kids(arguments).len() as int),
        None => st1,
    }
}

/// The state after the first `k` arguments of a call.
pub open spec fn visit_arguments(t: TreeView, c: PhpFileView, f: FrameView, st: VisitState, n: usize, k: int) -> VisitState
    decreases t.nodes.len() - n, 10int, k,
{
    if k <= 0 || k > t.kids(n).len() {
        st
    } else {
        let argument = t.kids(n)[k - 1];
        visit_argument(
            t,
            c,
            f,
            visit_arguments(t, c, f, st, n, k - 1),
            argument,
            t.kids(argument).len() as int,
        )
    }
}

/// The state after the first `k` parts of an argument. Its label names nothing.
pub open spec fn visit_argument(t: TreeView, c: PhpFileView, f: FrameView, st: VisitState, n: usize, k: int) -> VisitState
    decreases t.nodes.len() - n, 10int, k,
{
    if k <= 0 || k > t.kids(n).len() {
        st
    } else {
        let earlier = visit_argument(t, c, f, st, n, k - 1);
        if Some(t.kids(n)[k - 1]) == t.field(n, "name"@) {
            earlier
        } else {
            visit(t, c, f, earlier, t.kids(n)[k - 1])
        }
    }
}

/// The state after the arguments under a field.
pub open spec fn visit_call_arguments(
    t: TreeView,
    c: PhpFileView,
    f: FrameView,
    st: VisitState,
    n: usize,
    field: Seq<char>,
) -> VisitState
    decreases t.nodes.len() - n, 20int, 0int,
{
    match t.field(n, field) {
        Some(arguments) => visit_arguments(t, c, f, st, arguments, t.kids(arguments).len() as int),
        None => st,
    }
}

/// The state after a function or a method.
pub open spec fn visit_function(t: TreeView, c: PhpFileView, f: FrameView, st: VisitState, n: usize) -> VisitState
    decreases t.nodes.len() - n, 40int, 0int,
{
    match t.field(n, "name"@) {
        Some(name_node) => {
            let name = t.text(name_node);
            let qname = qualified(st.scope, name);
            let kind = if f.kind == NodeKind::Class {
                NodeKind::Method
            } else {
                NodeKind::Function
            };
            let node = made(c, t, kind, qname, name, Some(n), function_metadata(t, n), Some(name_node));
            // A promoted parameter is a property of the class around.
            let owner = if f.kind == NodeKind::Class {
                Some((st.scope, f.container))
            } else {
                None
            };
            let inner = FrameView { container: node.id, kind };
            let opened = VisitState { scope: qname, ..declared(st, f.container, node) };
            let st1 = visit_attributes(t, c, inner, opened, n);
            let st2 = typed(st1, t, t.field(n, "return_type"@), node.id);
            let st3 = match t.field(n, "parameters"@) {
                Some(params) => visit_parameters(t, c, inner, st2, qname, owner, params, t.kids(params).len() as int),
                None => st2,
            };
            let st4 = match t.field(n, "body"@) {
                Some(body) => visit_all(t, c, inner, st3, body),
                None => st3,
            };
            VisitState { scope: st.scope, ..st4 }
        },
        None => st,
    }
}

/// The state after the first `k` parameters of a function.
pub open spec fn visit_parameters(
    t: TreeView,
    c: PhpFileView,
    f: FrameView,
    st: VisitState,
    qname: Seq<char>,
    owner: Option<(Seq<char>, Seq<char>)>,
    n: usize,
    k: int,
) -> VisitState
    decreases t.nodes.len() - n, 10int, k,
{
    if k <= 0 || k > t.kids(n).len() {
        st
    } else {
        visit_parameter(
            t,
            c,
            f,
            visit_parameters(t, c, f, st, qname, owner, n, k - 1),
            qname,
            owner,
            t.kids(n)[k - 1],
        )
    }
}

/// Whether a node is a parameter.
pub open spec fn is_parameter(t: TreeView, n: usize) -> bool {
    t.kind(n) == "property_promotion_parameter"@ || t.kind(n) == "simple_parameter"@ || t.kind(n)
        == "variadic_parameter"@
}

/// The state after one parameter of a function. The name of a promoted
/// parameter stands for the property, which the rest of the class refers to.
pub open spec fn visit_parameter(
    t: TreeView,
    c: PhpFileView,
    f: FrameView,
    st: VisitState,
    qname: Seq<char>,
    owner: Option<(Seq<char>, Seq<char>)>,
    n: usize,
) -> VisitState
    decreases t.nodes.len() - n, 40int, 0int,
{
    if !is_parameter(t, n) {
        st
    } else {
        match field_variable(t, n) {
            Some(ident) => {
                let promoted = t.kind(n) == "property_promotion_parameter"@;
                let name = t.text(ident);
                let node = made(
                    c,
                    t,
                    NodeKind::Parameter,
                    qname + "\\"@ + name,
                    name,
                    Some(n),
                    no_metadata()
                        .put("is_variadic"@, ValueView::Flag(t.kind(n) == "variadic_parameter"@))
                        .put("is_promoted"@, ValueView::Flag(promoted))
                        .put("has_default"@, ValueView::Flag(t.field(n, "default_value"@) is Some)),
                    if promoted {
                        None
                    } else {
                        Some(ident)
                    },
                );
                let st1 = visit_attributes(t, c, f, declared(st, f.container, node), n);
                let st2 = visit_hooks(t, c, f, st1, n);
                let st3 = typed(st2, t, t.field(n, "type"@), node.id);
                let st4 = visit_if(t, c, f, st3, t.field(n, "default_value"@), n);
                if promoted && owner is Some {
                    promoted_property(t, c, st4, n, ident, owner->0)
                } else {
                    st4
                }
            },
            None => st,
        }
    }
}

/// The state with the property that a promoted parameter declares.
pub open spec fn promoted_property(
    t: TreeView,
    c: PhpFileView,
    st: VisitState,
    n: usize,
    ident: usize,
    owner: (Seq<char>, Seq<char>),
) -> VisitState {
    let name = t.text(ident);
    let node = made(
        c,
        t,
        NodeKind::Attribute,
        owner.0 + "\\"@ + name,
        name,
        Some(n),
        property_metadata(t, n, false, true),
        Some(ident),
    );
    typed(declared(st, owner.1, node), t, t.field(n, "type"@), node.id)
}

/// The state after a callable without a name. Its types belong to what is
/// around it.
pub open spec fn visit_callable(t: TreeView, c: PhpFileView, f: FrameView, st: VisitState, n: usize) -> VisitState
    decreases t.nodes.len() - n, 40int, 0int,
{
    let st1 = match t.field(n, "parameters"@) {
        Some(params) => visit_callable_parameters(t, c, f, st, params, t.kids(params).len() as int),
        None => st,
    };
    let st2 = typed(st1, t, t.field(n, "return_type"@), f.container);
    visit_if(t, c, f, st2, t.field(n, "body"@), n)
}

/// The state after the first `k` parameters of a callable without a name.
pub open spec fn visit_callable_parameters(
    t: TreeView,
    c: PhpFileView,
    f: FrameView,
    st: VisitState,
    n: usize,
    k: int,
) -> VisitState
    decreases t.nodes.len() - n, 10int, k,
{
    if k <= 0 || k > t.kids(n).len() {
        st
    } else {
        let param = t.kids(n)[k - 1];
        let st1 = typed(
            visit_callable_parameters(t, c, f, st, n, k - 1),
            t,
            t.field(param, "type"@),
            f.container,
        );
        visit_if(t, c, f, st1, t.field(param, "default_value"@), param)
    }
}

/// The state after a declaration of properties.
pub open spec fn visit_properties(t: TreeView, c: PhpFileView, f: FrameView, st: VisitState, n: usize) -> VisitState
    decreases t.nodes.len() - n, 40int, 0int,
{
    let st1 = visit_property_elements(t, c, f, st, n, t.kids(n).len() as int);
    visit_hooks(t, c, f, visit_attributes(t, c, f, st1, n), n)
}

/// The state after the first `k` parts of a declaration of properties.
pub open spec fn visit_property_elements(t: TreeView, c: PhpFileView, f: FrameView, st: VisitState, n: usize, k: int) -> VisitState
    decreases t.nodes.len() - n, 10int, k,
{
    if k <= 0 || k > t.kids(n).len() {
        st
    } else {
        let earlier = visit_property_elements(t, c, f, st, n, k - 1);
        let element = t.kids(n)[k - 1];
        if t.kind(element) == "property_element"@ && field_variable(t, element) is Some {
            let ident = field_variable(t, element)->0;
            let name = t.text(ident);
            let node = made(
                c,
                t,
                NodeKind::Attribute,
                qualified(earlier.scope, name),
                name,
                Some(element),
                property_metadata(t, n, t.kid_of(n, "static_modifier"@) is Some, false),
                Some(ident),
            );
            let st1 = typed(declared(earlier, f.container, node), t, t.field(n, "type"@), node.id);
            visit_if(t, c, f, st1, t.field(element, "default_value"@), element)
        } else {
            earlier
        }
    }
}

/// The state after a declaration of constants. One in a class is a member.
pub open spec fn visit_constants(t: TreeView, c: PhpFileView, f: FrameView, st: VisitState, n: usize) -> VisitState
    decreases t.nodes.len() - n, 40int, 0int,
{
    visit_attributes(t, c, f, visit_constant_elements(t, c, f, st, n, t.kids(n).len() as int), n)
}

/// The state after the first `k` parts of a declaration of constants.
pub open spec fn visit_constant_elements(t: TreeView, c: PhpFileView, f: FrameView, st: VisitState, n: usize, k: int) -> VisitState
    decreases t.nodes.len() - n, 10int, k,
{
    if k <= 0 || k > t.kids(n).len() {
        st
    } else {
        let earlier = visit_constant_elements(t, c, f, st, n, k - 1);
        let element = t.kids(n)[k - 1];
        match t.kid_of(element, "name"@) {
            Some(name_node) => if t.kind(element) == "const_element"@ {
                let name = t.text(name_node);
                let in_class = f.kind == NodeKind::Class;
                let node = made(
                    c,
                    t,
                    if in_class {
                        NodeKind::Attribute
                    } else {
                        NodeKind::Variable
                    },
                    qualified(earlier.scope, name),
                    name,
                    Some(element),
                    constant_metadata(t, n, in_class),
                    Some(name_node),
                );
                let st1 = typed(declared(earlier, f.container, node), t, t.field(n, "type"@), node.id);
                visit_value(t, c, f, st1, element, name_node, t.kids(element).len() as int)
            } else {
                earlier
            },
            None => earlier,
        }
    }
}

/// The state after those of the first `k` parts of a constant that stand behind
/// its name.
pub open spec fn visit_value(
    t: TreeView,
    c: PhpFileView,
    f: FrameView,
    st: VisitState,
    n: usize,
    name_node: usize,
    k: int,
) -> VisitState
    decreases t.nodes.len() - n, 10int, k,
{
    if k <= 0 || k > t.kids(n).len() {
        st
    } else {
        let earlier = visit_value(t, c, f, st, n, name_node, k - 1);
        if t.kids(n)[k - 1] != name_node && t.kids(n).take(k - 1).contains(name_node) {
            visit(t, c, f, earlier, t.kids(n)[k - 1])
        } else {
            earlier
        }
    }
}

/// The state after a case of an enumeration.
pub open spec fn visit_case(t: TreeView, c: PhpFileView, f: FrameView, st: VisitState, n: usize) -> VisitState
    decreases t.nodes.len() - n, 40int, 0int,
{
    match t.field(n, "name"@) {
        Some(name_node) => {
            let name = t.text(name_node);
            let node = made(
                c,
                t,
                NodeKind::Attribute,
                qualified(st.scope, name),
                name,
                Some(n),
                no_metadata().put("is_enum_case"@, ValueView::Flag(true)),
                Some(name_node),
            );
            let st1 = visit_attributes(t, c, f, declared(st, f.container, node), n);
            visit_if(t, c, f, st1, t.field(n, "value"@), n)
        },
        None => st,
    }
}

/// The state after the first `k` parts of a declaration of static variables.
pub open spec fn visit_statics(t: TreeView, c: PhpFileView, f: FrameView, st: VisitState, n: usize, k: int) -> VisitState
    decreases t.nodes.len() - n, 10int, k,
{
    if k <= 0 || k > t.kids(n).len() {
        st
    } else {
        let earlier = visit_statics(t, c, f, st, n, k - 1);
        let part = t.kids(n)[k - 1];
        if t.kind(part) == "static_variable_declaration"@ && field_variable(t, part) is Some {
            let ident = field_variable(t, part)->0;
            let name = t.text(ident);
            let node = made(
                c,
                t,
                NodeKind::Variable,
                qualified(earlier.scope, name),
                name,
                Some(part),
                no_metadata().put("is_static"@, ValueView::Flag(true)),
                Some(ident),
            );
            visit_if(t, c, f, declared(earlier, f.container, node), t.field(part, "value"@), part)
        } else {
            earlier
        }
    }
}

/// The state after a call of a function.
pub open spec fn visit_call(t: TreeView, c: PhpFileView, f: FrameView, st: VisitState, n: usize) -> VisitState
    decreases t.nodes.len() - n, 40int, 0int,
{
    let st1 = match t.field(n, "function"@) {
        Some(function) => if t.kind_among(function, NAME_KINDS@) {
            used_if(st, t, "call"@, final_name(t, function), f.container)
        } else {
            visit(t, c, f, st, function)
        },
        None => st,
    };
    visit_call_arguments(t, c, f, st1, n, "arguments"@)
}

/// The state after the first `k` parts of the creation of an object.
pub open spec fn visit_creation(t: TreeView, c: PhpFileView, f: FrameView, st: VisitState, n: usize, k: int) -> VisitState
    decreases t.nodes.len() - n, 10int, k,
{
    let list = plain_kids(t, n);
    if k <= 0 || k > list.len() {
        st
    } else {
        proof {
            plain_are_below(t, n, t.kids(n).len() as int);
        }
        let earlier = visit_creation(t, c, f, st, n, k - 1);
        let part = list[k - 1];
        if t.kind(part) == "new"@ {
            earlier
        } else if t.kind(part) == "anonymous_class"@ {
            visit_anonymous(t, c, f, earlier, part)
        } else if t.kind(part) == "arguments"@ {
            visit_arguments(t, c, f, earlier, part, t.kids(part).len() as int)
        } else if t.kind_among(part, NAME_KINDS@) {
            used_if(earlier, t, "call"@, final_name(t, part), f.container)
        } else {
            visit(t, c, f, earlier, part)
        }
    }
}

/// The state after an access to a constant of a class. `Foo::class` is a use of
/// the class alone.
pub open spec fn visit_constant_access(t: TreeView, c: PhpFileView, f: FrameView, st: VisitState, n: usize) -> VisitState
    decreases t.nodes.len() - n, 40int, 0int,
{
    let list = plain_kids(t, n);
    if list.len() == 0 {
        st
    } else {
        proof {
            plain_are_below(t, n, t.kids(n).len() as int);
        }
        let st1 = visit(t, c, f, st, list[0]);
        if list.len() > 1 && t.kind(list.last()) == "name"@ {
            used(st1, t, "read"@, list.last(), f.container)
        } else {
            st1
        }
    }
}

/// The state after an attribute, which creates an object of its class.
pub open spec fn visit_attribute(t: TreeView, c: PhpFileView, f: FrameView, st: VisitState, n: usize) -> VisitState
    decreases t.nodes.len() - n, 40int, 0int,
{
    let st1 = match t.kid_among(n, NAME_KINDS@) {
        Some(name) => used_if(st, t, "call"@, final_name(t, name), f.container),
        None => st,
    };
    visit_call_arguments(t, c, f, st1, n, "parameters"@)
}

/// The class that a test of a type names.
pub open spec fn tested_class(t: TreeView, n: usize) -> Option<usize> {
    match (t.field(n, "operator"@), t.field(n, "right"@)) {
        (Some(operator), Some(right)) => if ascii_lowercase(t.kind(operator)) == "instanceof"@ && t.kind_among(
            right,
            NAME_KINDS@,
        ) {
            Some(right)
        } else {
            None
        },
        _ => None,
    }
}

/// The state after a binary expression.
pub open spec fn visit_binary(t: TreeView, c: PhpFileView, f: FrameView, st: VisitState, n: usize) -> VisitState
    decreases t.nodes.len() - n, 40int, 0int,
{
    let name = match tested_class(t, n) {
        Some(right) => final_name(t, right),
        None => None,
    };
    match name {
        Some(name) => visit_if(t, c, f, used(st, t, "annotation"@, name, f.container), t.field(n, "left"@), n),
        None => visit_all(t, c, f, st, n),
    }
}

/// The state after a member access or a call of a member, in a role.
pub open spec fn visit_member(t: TreeView, c: PhpFileView, f: FrameView, st: VisitState, n: usize, role: Seq<char>) -> VisitState
    decreases t.nodes.len() - n, 40int, 0int,
{
    let st1 = match t.field(n, "name"@) {
        Some(name) => if t.kind(name) == "name"@ {
            used(st, t, role, name, f.container)
        } else if t.kind(name) == "variable_name"@ && t.kind(n) == "scoped_property_access_expression"@ {
            used_if(st, t, role, variable_name(t, name), f.container)
        } else {
            visit(t, c, f, st, name)
        },
        None => st,
    };
    let receiver = match t.field(n, "object"@) {
        Some(o) => Some(o),
        None => t.field(n, "scope"@),
    };
    visit_if(t, c, f, st1, receiver, n)
}

/// The state after the target of an assignment.
pub open spec fn visit_target(t: TreeView, c: PhpFileView, f: FrameView, st: VisitState, n: usize) -> VisitState
    decreases t.nodes.len() - n, 60int, 0int,
{
    if is_access(t, n) {
        visit_member(t, c, f, st, n, "write"@)
    } else if t.kind(n) == "list_literal"@ || t.kind(n) == "pair"@ || t.kind(n) == "by_ref"@ {
        visit_targets(t, c, f, st, n, t.kids(n).len() as int)
    } else {
        visit(t, c, f, st, n)
    }
}

/// The state after the first `k` targets of an assignment.
pub open spec fn visit_targets(t: TreeView, c: PhpFileView, f: FrameView, st: VisitState, n: usize, k: int) -> VisitState
    decreases t.nodes.len() - n, 10int, k,
{
    if k <= 0 || k > t.kids(n).len() {
        st
    } else {
        visit_target(t, c, f, visit_targets(t, c, f, st, n, k - 1), t.kids(n)[k - 1])
    }
}

/// The state after the target of an assignment that may be there.
pub open spec fn visit_target_if(t: TreeView, c: PhpFileView, f: FrameView, st: VisitState, n: usize, field: Seq<char>) -> VisitState
    decreases t.nodes.len() - n, 20int, 0int,
{
    match t.field(n, field) {
        Some(target) => visit_target(t, c, f, st, target),
        None => st,
    }
}

/// Whether a node is an access to a member.
pub open spec fn is_access(t: TreeView, n: usize) -> bool {
    t.kind(n) == "member_access_expression"@ || t.kind(n) == "nullsafe_member_access_expression"@ || t.kind(n)
        == "scoped_property_access_expression"@
}

/// Whether a node is a call of a member.
pub open spec fn is_member_call(t: TreeView, n: usize) -> bool {
    t.kind(n) == "member_call_expression"@ || t.kind(n) == "nullsafe_member_call_expression"@ || t.kind(n)
        == "scoped_call_expression"@
}

/// Whether a node is an assignment.
pub open spec fn is_assignment(t: TreeView, n: usize) -> bool {
    t.kind(n) == "assignment_expression"@ || t.kind(n) == "augmented_assignment_expression"@ || t.kind(n)
        == "reference_assignment_expression"@
}

/// Whether a node is a callable without a name.
pub open spec fn is_unnamed(t: TreeView, n: usize) -> bool {
    t.kind(n) == "anonymous_function"@ || t.kind(n) == "arrow_function"@ || t.kind(n) == "property_hook"@
}

/// The state after one node.
pub open spec fn visit(t: TreeView, c: PhpFileView, f: FrameView, st: VisitState, n: usize) -> VisitState
    decreases t.nodes.len() - n, 50int, 0int,
{
    if t.kind_among(n, MARKUP_KINDS@) || t.kind(n) == "variable_name"@ {
        st
    } else if t.kind(n) == "namespace_definition"@ {
        visit_namespace(t, c, f, st, n)
    } else if t.kind(n) == "class_declaration"@ {
        visit_class(t, c, f, st, n, ClassFlavour::Class)
    } else if t.kind(n) == "interface_declaration"@ {
        visit_class(t, c, f, st, n, ClassFlavour::Interface)
    } else if t.kind(n) == "trait_declaration"@ {
        visit_class(t, c, f, st, n, ClassFlavour::Trait)
    } else if t.kind(n) == "enum_declaration"@ {
        visit_class(t, c, f, st, n, ClassFlavour::Enumeration)
    } else if t.kind(n) == "function_definition"@ || t.kind(n) == "method_declaration"@ {
        visit_function(t, c, f, st, n)
    } else if t.kind(n) == "property_declaration"@ {
        visit_properties(t, c, f, st, n)
    } else if t.kind(n) == "const_declaration"@ {
        visit_constants(t, c, f, st, n)
    } else if t.kind(n) == "enum_case"@ {
        visit_case(t, c, f, st, n)
    } else if t.kind(n) == "use_declaration"@ {
        with_traits(st, t, t.kids(n), f.container, t.kids(n).len() as int)
    } else if t.kind(n) == "namespace_use_declaration"@ {
        with_uses(c, t, f, st, uses_of(t, n), uses_of(t, n).len() as int)
    } else if t.kind(n) == "function_static_declaration"@ {
        visit_statics(t, c, f, st, n, t.kids(n).len() as int)
    } else if is_unnamed(t, n) {
        visit_callable(t, c, f, st, n)
    } else if t.kind(n) == "function_call_expression"@ {
        visit_call(t, c, f, st, n)
    } else if is_member_call(t, n) {
        visit_call_arguments(t, c, f, visit_member(t, c, f, st, n, "call"@), n, "arguments"@)
    } else if t.kind(n) == "object_creation_expression"@ {
        visit_creation(t, c, f, st, n, plain_kids(t, n).len() as int)
    } else if t.kind(n) == "attribute"@ {
        visit_attribute(t, c, f, st, n)
    } else if is_access(t, n) {
        visit_member(t, c, f, st, n, "read"@)
    } else if t.kind(n) == "class_constant_access_expression"@ {
        visit_constant_access(t, c, f, st, n)
    } else if is_assignment(t, n) {
        visit_if(t, c, f, visit_target_if(t, c, f, st, n, "left"@), t.field(n, "right"@), n)
    } else if t.kind(n) == "update_expression"@ {
        visit_target_if(t, c, f, st, n, "argument"@)
    } else if t.kind(n) == "binary_expression"@ {
        visit_binary(t, c, f, st, n)
    } else if t.kind(n) == "catch_clause"@ {
        visit_if(t, c, f, typed(st, t, t.field(n, "type"@), f.container), t.field(n, "body"@), n)
    } else if t.kind_among(n, NAME_KINDS@) {
        used_if(st, t, "read"@, final_name(t, n), f.container)
    } else {
        visit_all(t, c, f, st, n)
    }
}

/// The state before a file is read.
pub open spec fn file_start(g: GraphView, namespace: Seq<char>) -> VisitState {
    VisitState { graph: g, uses: Seq::empty(), scope: namespace }
}

/// The state after a file.
pub open spec fn with_file(t: TreeView, c: PhpFileView, g: GraphView, namespace: Seq<char>, root: usize) -> VisitState {
    visit(t, c, FrameView { container: c.file_id, kind: NodeKind::File }, file_start(g, namespace), root)
}

// ---------------------------------------------------------------------------
// Extraction
// ---------------------------------------------------------------------------

/// What encloses the code that is read.
struct Frame {
    container: String,
    kind: NodeKind,
}

impl View for Frame {
    type V = FrameView;

    closed spec fn view(&self) -> FrameView {
        FrameView { container: self.container@, kind: self.kind }
    }
}

/// Reads a file into a graph.
pub struct PhpVisitor {
    pub graph: Graph,
    pub occurrences: Vec<OccurrenceRef>,
    /// The prefix of qualified names.
    pub scope: String,
}

impl View for PhpVisitor {
    type V = VisitState;

    open spec fn view(&self) -> VisitState {
        VisitState { graph: self.graph@, uses: views(self.occurrences@), scope: self.scope@ }
    }
}

impl PhpVisitor {
    /// A visitor of a file in a namespace.
    pub fn new(graph: Graph, namespace: &str) -> (r: PhpVisitor)
        ensures
            r.graph == graph,
            r@ == file_start(graph@, namespace@),
    {
        let occurrences: Vec<OccurrenceRef> = Vec::new();
        assert(views(occurrences@) =~= Seq::<OccurrenceView>::empty());
        PhpVisitor { graph, occurrences, scope: copy(namespace) }
    }

    /// Records a use of a name.
    fn record(&mut self, t: &Syntax, role: &str, n: usize, id: &str)
        requires
            n < t@.nodes.len(),
        ensures
            final(self).graph == old(self).graph,
            final(self)@ == used(old(self)@, t@, role@, n, id@),
    {
        add_item(&mut self.occurrences, OccurrenceRef::at(role, id, t.span(n)));
    }

    /// Records a use of the final name of a reference.
    fn record_name(&mut self, t: &Syntax, role: &str, n: usize, id: &str)
        requires
            t@.wf(),
            n < t@.nodes.len(),
        ensures
            final(self).graph == old(self).graph,
            final(self)@ == used_if(old(self)@, t@, role@, final_name(t@, n), id@),
    {
        if let Some(name) = last_name(t, n) {
            self.record(t, role, name, id);
        }
    }

    /// Records uses of the classes that a type or a clause of bases names.
    #[verifier::loop_isolation(false)]
    fn record_refs(&mut self, t: &Syntax, role: &str, n: usize, id: &str)
        requires
            t@.wf(),
            n < t@.nodes.len(),
        ensures
            final(self).graph == old(self).graph,
            final(self)@ == used_refs(
                old(self)@,
                t@,
                role@,
                class_names(t@, n),
                id@,
                class_names(t@, n).len() as int,
            ),
    {
        let refs = class_refs(t, n);
        let ghost start = self@;
        let mut k: usize = 0;
        while k < refs.len()
            invariant
                k <= refs@.len(),
                self.graph == old(self).graph,
                self@ == used_refs(start, t@, role@, refs@, id@, k as int),
            decreases refs@.len() - k,
        {
            self.record_name(t, role, refs[k], id);
            k += 1;
        }
    }

    /// Records a use of every class that a type names, if there is a type.
    fn record_type(&mut self, t: &Syntax, n: Option<usize>, id: &str)
        requires
            t@.wf(),
            n is Some ==> n->0 < t@.nodes.len(),
        ensures
            final(self).graph == old(self).graph,
            final(self)@ == typed(old(self)@, t@, n, id@),
    {
        if let Some(n) = n {
            self.record_refs(t, "annotation", n, id);
        }
    }

    /// Adds a node that a container declares; returns its id.
    fn declare(&mut self, container: &str, node: Node) -> (id: String)
        requires
            old(self).graph.wf(),
        ensures
            final(self).graph.wf(),
            final(self)@ == declared(old(self)@, container@, node@),
            id@ == node@.id,
    {
        let id = copy(node.id.as_str());
        self.graph.insert_node(node);
        self.graph.push_relation(Relation::plain(container, id.as_str(), RelationKind::Declares));
        id
    }
}

/// The node of a declaration.
fn make_node(
    c: &PhpFile,
    t: &Syntax,
    kind: NodeKind,
    qname: &str,
    name: &str,
    at: Option<usize>,
    metadata: Metadata,
    name_node: Option<usize>,
) -> (r: Node)
    requires
        at is Some ==> at->0 < t@.nodes.len(),
        name_node is Some ==> name_node->0 < t@.nodes.len(),
    ensures
        r@ == made(c@, t@, kind, qname@, name@, at, metadata@, name_node),
{
    Node {
        id: node_kind_id(c.project, qname, kind),
        kind,
        qualified_name: copy(qname),
        name: copy(name),
        file_path: Some(copy(c.file_rel)),
        span: match at {
            Some(n) => Some(t.span(n)),
            None => None,
        },
        metadata: match name_node {
            Some(n) => metadata.with("name_span", MetaValue::Place(t.span(n))),
            None => metadata,
        },
    }
}

/// Tells whether a node has a child of a kind.
fn has_kid(t: &Syntax, n: usize, kind: &str) -> (r: bool)
    requires
        t@.wf(),
        n < t@.nodes.len(),
    ensures
        r == (t@.kid_of(n, kind@) is Some),
{
    t.kid_of(n, kind).is_some()
}

/// Records the classes that a class extends or implements.
#[verifier::loop_isolation(false)]
fn record_bases(t: &Syntax, st: &mut PhpVisitor, n: usize, id: &str)
    requires
        t@.wf(),
        n < t@.nodes.len(),
    ensures
        final(st).graph == old(st).graph,
        final(st)@ == with_bases(old(st)@, t@, plain_kids(t@, n), id@, plain_kids(t@, n).len() as int),
{
    let list = significant(t, n);
    let ghost start = st@;
    let mut k: usize = 0;
    while k < list.len()
        invariant
            k <= list@.len(),
            st.graph == old(st).graph,
            st@ == with_bases(start, t@, list@, id@, k as int),
        decreases list@.len() - k,
    {
        assert(t@.below(n, list@[k as int]));
        if t.is_among(list[k], &BASE_KINDS) {
            st.record_refs(t, "base", list[k], id);
        }
        k += 1;
    }
}

/// Reads a clause that settles a conflict of traits.
#[verifier::loop_isolation(false)]
fn read_conflict(t: &Syntax, st: &mut PhpVisitor, clause: usize, instead: bool, id: &str)
    requires
        t@.wf(),
        clause < t@.nodes.len(),
    ensures
        final(st).graph == old(st).graph,
        final(st)@ == with_parts(
            old(st)@,
            t@,
            plain_kids(t@, clause),
            instead,
            id@,
            plain_kids(t@, clause).len() as int,
        ).0,
{
    let parts = significant(t, clause);
    let ghost start = st@;
    let mut ahead = true;
    let mut k: usize = 0;
    while k < parts.len()
        invariant
            k <= parts@.len(),
            st.graph == old(st).graph,
            (st@, ahead) == with_parts(start, t@, parts@, instead, id@, k as int),
        decreases parts@.len() - k,
    {
        let part = parts[k];
        assert(t@.below(clause, parts@[k as int]));
        if t.is(part, "class_constant_access_expression") {
            let inner = significant(t, part);
            if inner.len() > 0 {
                assert(t@.below(part, inner@[0]));
                st.record_name(t, "base", inner[0], id);
                let last = inner[inner.len() - 1];
                assert(t@.below(part, inner@[inner@.len() - 1]));
                if t.is(last, "name") {
                    st.record(t, "read", last, id);
                }
            }
            ahead = false;
        } else if t.is(part, "name") && ahead {
            st.record(t, "read", part, id);
            ahead = false;
        } else if t.is(part, "name") && instead {
            st.record(t, "base", part, id);
            ahead = false;
        }
        k += 1;
    }
}

/// Reads the clauses that settle conflicts of traits.
#[verifier::loop_isolation(false)]
fn read_conflicts(t: &Syntax, st: &mut PhpVisitor, n: usize, id: &str)
    requires
        t@.wf(),
        n < t@.nodes.len(),
    ensures
        final(st).graph == old(st).graph,
        final(st)@ == with_conflicts(old(st)@, t@, t@.kids(n), id@, t@.kids(n).len() as int),
{
    let kids = t.kids(n);
    let ghost start = st@;
    let mut k: usize = 0;
    while k < kids.len()
        invariant
            k <= kids@.len(),
            st.graph == old(st).graph,
            st@ == with_conflicts(start, t@, kids@, id@, k as int),
        decreases kids@.len() - k,
    {
        assert(t@.below(n, kids@[k as int]));
        let instead = t.is(kids[k], "use_instead_of_clause");
        if instead || t.is(kids[k], "use_as_clause") {
            read_conflict(t, st, kids[k], instead, id);
        }
        k += 1;
    }
}

/// Reads a use of traits in a class.
#[verifier::loop_isolation(false)]
fn read_traits(t: &Syntax, st: &mut PhpVisitor, n: usize, id: &str)
    requires
        t@.wf(),
        n < t@.nodes.len(),
    ensures
        final(st).graph == old(st).graph,
        final(st)@ == with_traits(old(st)@, t@, t@.kids(n), id@, t@.kids(n).len() as int),
{
    let kids = t.kids(n);
    let ghost start = st@;
    let mut k: usize = 0;
    while k < kids.len()
        invariant
            k <= kids@.len(),
            st.graph == old(st).graph,
            st@ == with_traits(start, t@, kids@, id@, k as int),
        decreases kids@.len() - k,
    {
        assert(t@.below(n, kids@[k as int]));
        if t.is_among(kids[k], &NAME_KINDS) {
            st.record_name(t, "base", kids[k], id);
        } else if t.is(kids[k], "use_list") {
            read_conflicts(t, st, kids[k], id);
        }
        k += 1;
    }
}

/// The first parts of a list.
#[verifier::loop_isolation(false)]
pub fn first_parts(parts: &Vec<String>, n: usize) -> (r: Vec<String>)
    requires
        n <= parts@.len(),
    ensures
        views(r@) == views(parts@).take(n as int),
{
    let ghost all = views(parts@);
    let mut out: Vec<String> = Vec::new();
    let mut i: usize = 0;
    assert(views(out@) =~= all.take(0));
    while i < n
        invariant
            i <= n,
            views(out@) == all.take(i as int),
        decreases n - i,
    {
        add_item(&mut out, copy(parts[i].as_str()));
        assert(all.take(i + 1) =~= all.take(i as int).push(all[i as int]));
        i += 1;
    }
    out
}

/// The module of a namespace or of its longest prefix that has one.
#[verifier::loop_isolation(false)]
pub fn lookup_module(modules: &Table, qname: &str) -> (r: Option<String>)
    requires
        modules.wf(),
    ensures
        opt_view(r) == module_for(modules@, qname@),
{
    let parts = split(qname, '\\');
    let ghost all = views(parts@);
    let mut k: usize = parts.len();
    while k > 0
        invariant
            k <= parts@.len(),
            module_of_prefix(modules@, all, all.len() as int) == module_of_prefix(modules@, all, k as int),
        decreases k,
    {
        let head = first_parts(&parts, k);
        let candidate = join(&head, "\\");
        if let Some(id) = modules.get(candidate.as_str()) {
            return Some(id);
        }
        k -= 1;
    }
    None
}

/// Reads one import.
fn emit_import(t: &Syntax, c: &PhpFile, f: &Frame, st: &mut PhpVisitor, u: &Use)
    requires
        c.modules.wf(),
        old(st).graph.wf(),
    ensures
        final(st).graph.wf(),
        final(st)@ == with_use(c@, t@, f@, old(st)@, u@),
{
    let origin = classify_import(u.target.as_str(), c.internal, c.vendors);
    let last = tail_after(u.target.as_str(), "\\");
    let alias = if same(u.local.as_str(), last.as_str()) {
        MetaValue::Nothing
    } else {
        MetaValue::text(u.local.as_str())
    };
    let metadata = Metadata::new().with("alias", alias).with_text("original_name", u.target.as_str()).with_text(
        "use_kind",
        u.kind.as_str(),
    ).with_text("origin", origin);
    let qname = qualify(st.scope.as_str(), u.local.as_str());
    let node = make_node(c, t, NodeKind::Import, qname.as_str(), u.local.as_str(), None, metadata, None);
    let import_id = st.declare(f.container.as_str(), node);
    let module = if same(origin, "internal") {
        lookup_module(c.modules, u.target.as_str())
    } else {
        None
    };
    let target = match module {
        Some(id) => id,
        None => ensure_external_symbol(&mut st.graph, c.project, u.target.as_str(), origin, "\\"),
    };
    st.graph.push_relation(Relation::plain(c.file_id, target.as_str(), RelationKind::Imports));
    st.graph.push_relation(Relation::plain(import_id.as_str(), target.as_str(), RelationKind::ResolvesTo));
}

/// Reads the imports of a statement.
#[verifier::loop_isolation(false)]
fn read_imports(t: &Syntax, c: &PhpFile, f: &Frame, st: &mut PhpVisitor, n: usize)
    requires
        t@.wf(),
        c.modules.wf(),
        old(st).graph.wf(),
        n < t@.nodes.len(),
    ensures
        final(st).graph.wf(),
        final(st)@ == with_uses(c@, t@, f@, old(st)@, uses_of(t@, n), uses_of(t@, n).len() as int),
{
    let list = read_uses(t, n);
    let ghost all = views(list@);
    let ghost start = st@;
    let mut k: usize = 0;
    while k < list.len()
        invariant
            k <= list@.len(),
            st.graph.wf(),
            st@ == with_uses(c@, t@, f@, start, all, k as int),
        decreases list@.len() - k,
    {
        assert(all[k as int] == list@[k as int]@);
        emit_import(t, c, f, st, &list[k]);
        k += 1;
    }
}

/// Reads all children of a node.
#[verifier::loop_isolation(false)]
fn on_all(t: &Syntax, c: &PhpFile, f: &Frame, st: &mut PhpVisitor, n: usize)
    requires
        t@.wf(),
        c.modules.wf(),
        old(st).graph.wf(),
        n < t@.nodes.len(),
    ensures
        final(st).graph.wf(),
        final(st)@ == visit_all(t@, c@, f@, old(st)@, n),
    decreases t@.nodes.len() - n, 15int,
{
    let kids = t.kids(n);
    let ghost start = st@;
    let mut k: usize = 0;
    while k < kids.len()
        invariant
            k <= kids@.len(),
            st.graph.wf(),
            st@ == visit_kids(t@, c@, f@, start, n, k as int),
        decreases kids@.len() - k,
    {
        assert(t@.below(n, kids@[k as int]));
        on_node(t, c, f, st, kids[k]);
        k += 1;
    }
}

/// Reads a node that may be there.
fn on_some(t: &Syntax, c: &PhpFile, f: &Frame, st: &mut PhpVisitor, n: Option<usize>, parent: usize)
    requires
        t@.wf(),
        c.modules.wf(),
        old(st).graph.wf(),
        parent < t@.nodes.len(),
        n is Some ==> t@.below(parent, n->0),
    ensures
        final(st).graph.wf(),
        final(st)@ == visit_if(t@, c@, f@, old(st)@, n, parent),
    decreases t@.nodes.len() - parent, 5int,
{
    if let Some(n) = n {
        on_node(t, c, f, st, n);
    }
}

/// Reads the attributes of a declaration.
fn on_attributes(t: &Syntax, c: &PhpFile, f: &Frame, st: &mut PhpVisitor, n: usize)
    requires
        t@.wf(),
        c.modules.wf(),
        old(st).graph.wf(),
        n < t@.nodes.len(),
    ensures
        final(st).graph.wf(),
        final(st)@ == visit_attributes(t@, c@, f@, old(st)@, n),
    decreases t@.nodes.len() - n, 20int,
{
    if let Some(list) = t.field(n, "attributes") {
        on_all(t, c, f, st, list);
    }
}

/// Reads the hooks of a property.
fn on_hooks(t: &Syntax, c: &PhpFile, f: &Frame, st: &mut PhpVisitor, n: usize)
    requires
        t@.wf(),
        c.modules.wf(),
        old(st).graph.wf(),
        n < t@.nodes.len(),
    ensures
        final(st).graph.wf(),
        final(st)@ == visit_hooks(t@, c@, f@, old(st)@, n),
    decreases t@.nodes.len() - n, 20int,
{
    if let Some(hooks) = t.kid_of(n, "property_hook_list") {
        on_all(t, c, f, st, hooks);
    }
}

/// Reads a namespace definition.
fn on_namespace(t: &Syntax, c: &PhpFile, f: &Frame, st: &mut PhpVisitor, n: usize)
    requires
        t@.wf(),
        c.modules.wf(),
        old(st).graph.wf(),
        n < t@.nodes.len(),
    ensures
        final(st).graph.wf(),
        final(st)@ == visit_namespace(t@, c@, f@, old(st)@, n),
    decreases t@.nodes.len() - n, 40int,
{
    let mut scope = namespace_of(t, n);
    match t.field(n, "body") {
        Some(body) => {
            std::mem::swap(&mut scope, &mut st.scope);
            on_all(t, c, f, st, body);
            st.scope = scope;
        },
        None => {
            st.scope = scope;
        },
    }
}

/// Reads a class with a name of its own.
fn on_class(t: &Syntax, c: &PhpFile, f: &Frame, st: &mut PhpVisitor, n: usize, flavour: ClassFlavour)
    requires
        t@.wf(),
        c.modules.wf(),
        old(st).graph.wf(),
        n < t@.nodes.len(),
    ensures
        final(st).graph.wf(),
        final(st)@ == visit_class(t@, c@, f@, old(st)@, n, flavour),
    decreases t@.nodes.len() - n, 40int,
{
    if let Some(name_node) = t.field(n, "name") {
        let name = t.text(name_node);
        let qname = qualify(st.scope.as_str(), name.as_str());
        on_class_body(t, c, f, st, n, qname, name.as_str(), Some(name_node), flavour);
    }
}

/// Reads the declaration of a class.
fn on_class_body(t: &Syntax, c: &PhpFile, f: &Frame, st: &mut PhpVisitor, n: usize, qname: String, name: &str, name_node: Option<usize>, flavour: ClassFlavour)
    requires
        t@.wf(),
        c.modules.wf(),
        old(st).graph.wf(),
        n < t@.nodes.len(),
        name_node is Some ==> name_node->0 < t@.nodes.len(),
    ensures
        final(st).graph.wf(),
        final(st)@ == declare_class(t@, c@, f@, old(st)@, n, qname@, name@, name_node, flavour),
    decreases t@.nodes.len() - n, 30int,
{
    let metadata = Metadata::new().with("is_interface", MetaValue::Flag(flavour == ClassFlavour::Interface)).with(
        "is_trait",
        MetaValue::Flag(flavour == ClassFlavour::Trait),
    ).with("is_enum", MetaValue::Flag(flavour == ClassFlavour::Enumeration)).with(
        "is_anonymous",
        MetaValue::Flag(flavour == ClassFlavour::Anonymous),
    ).with("is_abstract", MetaValue::Flag(has_kid(t, n, "abstract_modifier")));
    let node = make_node(c, t, NodeKind::Class, qname.as_str(), name, Some(n), metadata, name_node);
    let id = st.declare(f.container.as_str(), node);
    let inner = Frame { container: id, kind: NodeKind::Class };
    let mut scope = qname;
    std::mem::swap(&mut scope, &mut st.scope);
    on_attributes(t, c, &inner, st, n);
    record_bases(t, st, n, inner.container.as_str());
    if let Some(body) = t.field(n, "body") {
        on_all(t, c, &inner, st, body);
    }
    st.scope = scope;
}

/// Reads a class without a name.
fn on_anonymous(t: &Syntax, c: &PhpFile, f: &Frame, st: &mut PhpVisitor, n: usize)
    requires
        t@.wf(),
        c.modules.wf(),
        old(st).graph.wf(),
        n < t@.nodes.len(),
    ensures
        final(st).graph.wf(),
        final(st)@ == visit_anonymous(t@, c@, f@, old(st)@, n),
    decreases t@.nodes.len() - n, 40int,
{
    let span = t.span(n);
    let line = decimal_text(span.start_line as u64);
    let col = decimal_text(span.start_col as u64);
    let name = concat4("class@", line.as_str(), ":", col.as_str());
    let qname = qualify(st.scope.as_str(), name.as_str());
    on_class_body(t, c, f, st, n, qname, name.as_str(), None, ClassFlavour::Anonymous);
    if let Some(arguments) = t.kid_of(n, "arguments") {
        on_arguments(t, c, f, st, arguments);
    }
}

/// Reads the arguments of a call.
#[verifier::loop_isolation(false)]
fn on_arguments(t: &Syntax, c: &PhpFile, f: &Frame, st: &mut PhpVisitor, n: usize)
    requires
        t@.wf(),
        c.modules.wf(),
        old(st).graph.wf(),
        n < t@.nodes.len(),
    ensures
        final(st).graph.wf(),
        final(st)@ == visit_arguments(t@, c@, f@, old(st)@, n, t@.kids(n).len() as int),
    decreases t@.nodes.len() - n, 12int,
{
    let kids = t.kids(n);
    let ghost start = st@;
    let mut k: usize = 0;
    while k < kids.len()
        invariant
            k <= kids@.len(),
            st.graph.wf(),
            st@ == visit_arguments(t@, c@, f@, start, n, k as int),
        decreases kids@.len() - k,
    {
        assert(t@.below(n, kids@[k as int]));
        on_argument(t, c, f, st, kids[k]);
        k += 1;
    }
}

/// Reads an argument of a call.
#[verifier::loop_isolation(false)]
fn on_argument(t: &Syntax, c: &PhpFile, f: &Frame, st: &mut PhpVisitor, n: usize)
    requires
        t@.wf(),
        c.modules.wf(),
        old(st).graph.wf(),
        n < t@.nodes.len(),
    ensures
        final(st).graph.wf(),
        final(st)@ == visit_argument(t@, c@, f@, old(st)@, n, t@.kids(n).len() as int),
    decreases t@.nodes.len() - n, 12int,
{
    let kids = t.kids(n);
    let ghost start = st@;
    let label = t.field(n, "name");
    let mut k: usize = 0;
    while k < kids.len()
        invariant
            k <= kids@.len(),
            st.graph.wf(),
            st@ == visit_argument(t@, c@, f@, start, n, k as int),
        decreases kids@.len() - k,
    {
        assert(t@.below(n, kids@[k as int]));
        if label != Some(kids[k]) {
            on_node(t, c, f, st, kids[k]);
        }
        k += 1;
    }
}

/// Reads the arguments under a field.
fn on_call_arguments(t: &Syntax, c: &PhpFile, f: &Frame, st: &mut PhpVisitor, n: usize, field: &str)
    requires
        t@.wf(),
        c.modules.wf(),
        old(st).graph.wf(),
        n < t@.nodes.len(),
    ensures
        final(st).graph.wf(),
        final(st)@ == visit_call_arguments(t@, c@, f@, old(st)@, n, field@),
    decreases t@.nodes.len() - n, 20int,
{
    if let Some(arguments) = t.field(n, field) {
        on_arguments(t, c, f, st, arguments);
    }
}

/// Reads a function or a method.
fn on_function(t: &Syntax, c: &PhpFile, f: &Frame, st: &mut PhpVisitor, n: usize)
    requires
        t@.wf(),
        c.modules.wf(),
        old(st).graph.wf(),
        n < t@.nodes.len(),
    ensures
        final(st).graph.wf(),
        final(st)@ == visit_function(t@, c@, f@, old(st)@, n),
    decreases t@.nodes.len() - n, 40int,
{
    if let Some(name_node) = t.field(n, "name") {
        let name = t.text(name_node);
        let qname = qualify(st.scope.as_str(), name.as_str());
        let in_class = f.kind == NodeKind::Class;
        let kind = if in_class {
            NodeKind::Method
        } else {
            NodeKind::Function
        };
        let shown = visibility(t, n);
        let metadata = Metadata::new().with("is_static", MetaValue::Flag(has_kid(t, n, "static_modifier"))).with(
            "is_abstract",
            MetaValue::Flag(has_kid(t, n, "abstract_modifier")),
        ).with_text("visibility", shown.as_str());
        let node = make_node(c, t, kind, qname.as_str(), name.as_str(), Some(n), metadata, Some(name_node));
        let id = st.declare(f.container.as_str(), node);
        let owner = if in_class {
            Some((copy(st.scope.as_str()), copy(f.container.as_str())))
        } else {
            None
        };
        let inner = Frame { container: id, kind };
        let mut scope = copy(qname.as_str());
        std::mem::swap(&mut scope, &mut st.scope);
        on_attributes(t, c, &inner, st, n);
        st.record_type(t, t.field(n, "return_type"), inner.container.as_str());
        if let Some(params) = t.field(n, "parameters") {
            on_parameters(t, c, &inner, st, params, qname.as_str(), &owner);
        }
        if let Some(body) = t.field(n, "body") {
            on_all(t, c, &inner, st, body);
        }
        st.scope = scope;
    }
}

/// Reads the parameters of a function.
#[verifier::loop_isolation(false)]
fn on_parameters(t: &Syntax, c: &PhpFile, f: &Frame, st: &mut PhpVisitor, n: usize, qname: &str, owner: &Option<(String, String)>)
    requires
        t@.wf(),
        c.modules.wf(),
        old(st).graph.wf(),
        n < t@.nodes.len(),
    ensures
        final(st).graph.wf(),
        final(st)@ == visit_parameters(t@, c@, f@, old(st)@, qname@, opt_view(*owner), n, t@.kids(n).len() as int),
    decreases t@.nodes.len() - n, 12int,
{
    let kids = t.kids(n);
    let ghost start = st@;
    let mut k: usize = 0;
    while k < kids.len()
        invariant
            k <= kids@.len(),
            st.graph.wf(),
            st@ == visit_parameters(t@, c@, f@, start, qname@, opt_view(*owner), n, k as int),
        decreases kids@.len() - k,
    {
        assert(t@.below(n, kids@[k as int]));
        on_parameter(t, c, f, st, kids[k], qname, owner);
        k += 1;
    }
}

/// Reads a parameter of a function.
fn on_parameter(t: &Syntax, c: &PhpFile, f: &Frame, st: &mut PhpVisitor, n: usize, qname: &str, owner: &Option<(String, String)>)
    requires
        t@.wf(),
        c.modules.wf(),
        old(st).graph.wf(),
        n < t@.nodes.len(),
    ensures
        final(st).graph.wf(),
        final(st)@ == visit_parameter(t@, c@, f@, old(st)@, qname@, opt_view(*owner), n),
    decreases t@.nodes.len() - n, 40int,
{
    let promoted = t.is(n, "property_promotion_parameter");
    let variadic = t.is(n, "variadic_parameter");
    if !promoted && !variadic && !t.is(n, "simple_parameter") {
        return;
    }
    if let Some(ident) = declared_variable(t, n) {
        let name = t.text(ident);
        let default = t.field(n, "default_value");
        let metadata = Metadata::new().with("is_variadic", MetaValue::Flag(variadic)).with(
            "is_promoted",
            MetaValue::Flag(promoted),
        ).with("has_default", MetaValue::Flag(default.is_some()));
        let full = concat3(qname, "\\", name.as_str());
        let name_node = if promoted {
            None
        } else {
            Some(ident)
        };
        let node = make_node(c, t, NodeKind::Parameter, full.as_str(), name.as_str(), Some(n), metadata, name_node);
        let id = st.declare(f.container.as_str(), node);
        on_attributes(t, c, f, st, n);
        on_hooks(t, c, f, st, n);
        st.record_type(t, t.field(n, "type"), id.as_str());
        on_some(t, c, f, st, default, n);
        if promoted {
            if let Some(class) = owner {
                declare_promoted(t, c, st, n, ident, class.0.as_str(), class.1.as_str());
            }
        }
    }
}

/// Adds the property that a promoted parameter declares.
fn declare_promoted(t: &Syntax, c: &PhpFile, st: &mut PhpVisitor, n: usize, ident: usize, class: &str, class_id: &str)
    requires
        t@.wf(),
        old(st).graph.wf(),
        n < t@.nodes.len(),
        ident < t@.nodes.len(),
    ensures
        final(st).graph.wf(),
        final(st)@ == promoted_property(t@, c@, old(st)@, n, ident, (class@, class_id@)),
{
    let name = t.text(ident);
    let shown = visibility(t, n);
    let metadata = Metadata::new().with_text("visibility", shown.as_str()).with("is_static", MetaValue::Flag(false)).with(
        "is_readonly",
        MetaValue::Flag(has_kid(t, n, "readonly_modifier")),
    ).with("is_promoted", MetaValue::Flag(true));
    let full = concat3(class, "\\", name.as_str());
    let node = make_node(c, t, NodeKind::Attribute, full.as_str(), name.as_str(), Some(n), metadata, Some(ident));
    let id = st.declare(class_id, node);
    st.record_type(t, t.field(n, "type"), id.as_str());
}

/// Reads a callable without a name.
fn on_callable(t: &Syntax, c: &PhpFile, f: &Frame, st: &mut PhpVisitor, n: usize)
    requires
        t@.wf(),
        c.modules.wf(),
        old(st).graph.wf(),
        n < t@.nodes.len(),
    ensures
        final(st).graph.wf(),
        final(st)@ == visit_callable(t@, c@, f@, old(st)@, n),
    decreases t@.nodes.len() - n, 40int,
{
    if let Some(params) = t.field(n, "parameters") {
        on_callable_parameters(t, c, f, st, params);
    }
    st.record_type(t, t.field(n, "return_type"), f.container.as_str());
    on_some(t, c, f, st, t.field(n, "body"), n);
}

/// Reads the parameters of a callable without a name.
#[verifier::loop_isolation(false)]
fn on_callable_parameters(t: &Syntax, c: &PhpFile, f: &Frame, st: &mut PhpVisitor, n: usize)
    requires
        t@.wf(),
        c.modules.wf(),
        old(st).graph.wf(),
        n < t@.nodes.len(),
    ensures
        final(st).graph.wf(),
        final(st)@ == visit_callable_parameters(t@, c@, f@, old(st)@, n, t@.kids(n).len() as int),
    decreases t@.nodes.len() - n, 12int,
{
    let kids = t.kids(n);
    let ghost start = st@;
    let mut k: usize = 0;
    while k < kids.len()
        invariant
            k <= kids@.len(),
            st.graph.wf(),
            st@ == visit_callable_parameters(t@, c@, f@, start, n, k as int),
        decreases kids@.len() - k,
    {
        assert(t@.below(n, kids@[k as int]));
        st.record_type(t, t.field(kids[k], "type"), f.container.as_str());
        on_some(t, c, f, st, t.field(kids[k], "default_value"), kids[k]);
        k += 1;
    }
}

/// Reads a declaration of properties.
#[verifier::loop_isolation(false)]
fn on_properties(t: &Syntax, c: &PhpFile, f: &Frame, st: &mut PhpVisitor, n: usize)
    requires
        t@.wf(),
        c.modules.wf(),
        old(st).graph.wf(),
        n < t@.nodes.len(),
    ensures
        final(st).graph.wf(),
        final(st)@ == visit_properties(t@, c@, f@, old(st)@, n),
    decreases t@.nodes.len() - n, 40int,
{
    let shown = visibility(t, n);
    let is_static = has_kid(t, n, "static_modifier");
    let is_readonly = has_kid(t, n, "readonly_modifier");
    let kids = t.kids(n);
    let ghost start = st@;
    let mut k: usize = 0;
    while k < kids.len()
        invariant
            k <= kids@.len(),
            st.graph.wf(),
            st@ == visit_property_elements(t@, c@, f@, start, n, k as int),
        decreases kids@.len() - k,
    {
        assert(t@.below(n, kids@[k as int]));
        let element = kids[k];
        if t.is(element, "property_element") {
            if let Some(ident) = declared_variable(t, element) {
                let name = t.text(ident);
                let qname = qualify(st.scope.as_str(), name.as_str());
                let metadata = Metadata::new().with_text("visibility", shown.as_str()).with(
                    "is_static",
                    MetaValue::Flag(is_static),
                ).with("is_readonly", MetaValue::Flag(is_readonly)).with("is_promoted", MetaValue::Flag(false));
                let node = make_node(
                    c,
                    t,
                    NodeKind::Attribute,
                    qname.as_str(),
                    name.as_str(),
                    Some(element),
                    metadata,
                    Some(ident),
                );
                let id = st.declare(f.container.as_str(), node);
                st.record_type(t, t.field(n, "type"), id.as_str());
                on_some(t, c, f, st, t.field(element, "default_value"), element);
            }
        }
        k += 1;
    }
    on_attributes(t, c, f, st, n);
    on_hooks(t, c, f, st, n);
}

/// Reads a declaration of constants.
#[verifier::loop_isolation(false)]
fn on_constants(t: &Syntax, c: &PhpFile, f: &Frame, st: &mut PhpVisitor, n: usize)
    requires
        t@.wf(),
        c.modules.wf(),
        old(st).graph.wf(),
        n < t@.nodes.len(),
    ensures
        final(st).graph.wf(),
        final(st)@ == visit_constants(t@, c@, f@, old(st)@, n),
    decreases t@.nodes.len() - n, 40int,
{
    let in_class = f.kind == NodeKind::Class;
    let kind = if in_class {
        NodeKind::Attribute
    } else {
        NodeKind::Variable
    };
    let shown = visibility(t, n);
    let kids = t.kids(n);
    let ghost start = st@;
    let mut k: usize = 0;
    while k < kids.len()
        invariant
            k <= kids@.len(),
            st.graph.wf(),
            st@ == visit_constant_elements(t@, c@, f@, start, n, k as int),
        decreases kids@.len() - k,
    {
        assert(t@.below(n, kids@[k as int]));
        let element = kids[k];
        if t.is(element, "const_element") {
            if let Some(name_node) = t.kid_of(element, "name") {
                let name = t.text(name_node);
                let qname = qualify(st.scope.as_str(), name.as_str());
                let flags = Metadata::new().with("is_constant", MetaValue::Flag(true));
                let metadata = if in_class {
                    flags.with_text("visibility", shown.as_str())
                } else {
                    flags
                };
                let node = make_node(
                    c,
                    t,
                    kind,
                    qname.as_str(),
                    name.as_str(),
                    Some(element),
                    metadata,
                    Some(name_node),
                );
                let id = st.declare(f.container.as_str(), node);
                st.record_type(t, t.field(n, "type"), id.as_str());
                on_value(t, c, f, st, element, name_node);
            }
        }
        k += 1;
    }
    on_attributes(t, c, f, st, n);
}

/// Reads what stands behind the name of a constant.
#[verifier::loop_isolation(false)]
fn on_value(t: &Syntax, c: &PhpFile, f: &Frame, st: &mut PhpVisitor, n: usize, name_node: usize)
    requires
        t@.wf(),
        c.modules.wf(),
        old(st).graph.wf(),
        n < t@.nodes.len(),
    ensures
        final(st).graph.wf(),
        final(st)@ == visit_value(t@, c@, f@, old(st)@, n, name_node, t@.kids(n).len() as int),
    decreases t@.nodes.len() - n, 12int,
{
    let kids = t.kids(n);
    let ghost start = st@;
    let mut past = false;
    let mut k: usize = 0;
    while k < kids.len()
        invariant
            k <= kids@.len(),
            st.graph.wf(),
            past == kids@.take(k as int).contains(name_node),
            st@ == visit_value(t@, c@, f@, start, n, name_node, k as int),
        decreases kids@.len() - k,
    {
        assert(t@.below(n, kids@[k as int]));
        if kids[k] == name_node {
            past = true;
        } else if past {
            on_node(t, c, f, st, kids[k]);
        }
        assert(kids@.take(k + 1) =~= kids@.take(k as int).push(kids@[k as int]));
        assert(kids@.take(k as int).contains(name_node) ==> kids@.take(k + 1).contains(name_node)) by {
            if kids@.take(k as int).contains(name_node) {
                let j = choose|j: int| 0 <= j < k && kids@.take(k as int)[j] == name_node;
                assert(kids@.take(k + 1)[j] == name_node);
            }
        }
        assert(kids@[k as int] == name_node ==> kids@.take(k + 1).contains(name_node)) by {
            assert(kids@.take(k + 1)[k as int] == kids@[k as int]);
        }
        k += 1;
    }
}

/// Reads a case of an enumeration.
fn on_case(t: &Syntax, c: &PhpFile, f: &Frame, st: &mut PhpVisitor, n: usize)
    requires
        t@.wf(),
        c.modules.wf(),
        old(st).graph.wf(),
        n < t@.nodes.len(),
    ensures
        final(st).graph.wf(),
        final(st)@ == visit_case(t@, c@, f@, old(st)@, n),
    decreases t@.nodes.len() - n, 40int,
{
    if let Some(name_node) = t.field(n, "name") {
        let name = t.text(name_node);
        let qname = qualify(st.scope.as_str(), name.as_str());
        let metadata = Metadata::new().with("is_enum_case", MetaValue::Flag(true));
        let node = make_node(
            c,
            t,
            NodeKind::Attribute,
            qname.as_str(),
            name.as_str(),
            Some(n),
            metadata,
            Some(name_node),
        );
        st.declare(f.container.as_str(), node);
        on_attributes(t, c, f, st, n);
        on_some(t, c, f, st, t.field(n, "value"), n);
    }
}

/// Reads a declaration of static variables.
#[verifier::loop_isolation(false)]
fn on_statics(t: &Syntax, c: &PhpFile, f: &Frame, st: &mut PhpVisitor, n: usize)
    requires
        t@.wf(),
        c.modules.wf(),
        old(st).graph.wf(),
        n < t@.nodes.len(),
    ensures
        final(st).graph.wf(),
        final(st)@ == visit_statics(t@, c@, f@, old(st)@, n, t@.kids(n).len() as int),
    decreases t@.nodes.len() - n, 12int,
{
    let kids = t.kids(n);
    let ghost start = st@;
    let mut k: usize = 0;
    while k < kids.len()
        invariant
            k <= kids@.len(),
            st.graph.wf(),
            st@ == visit_statics(t@, c@, f@, start, n, k as int),
        decreases kids@.len() - k,
    {
        assert(t@.below(n, kids@[k as int]));
        let part = kids[k];
        if t.is(part, "static_variable_declaration") {
            if let Some(ident) = declared_variable(t, part) {
                let name = t.text(ident);
                let qname = qualify(st.scope.as_str(), name.as_str());
                let metadata = Metadata::new().with("is_static", MetaValue::Flag(true));
                let node = make_node(
                    c,
                    t,
                    NodeKind::Variable,
                    qname.as_str(),
                    name.as_str(),
                    Some(part),
                    metadata,
                    Some(ident),
                );
                st.declare(f.container.as_str(), node);
                on_some(t, c, f, st, t.field(part, "value"), part);
            }
        }
        k += 1;
    }
}

/// Reads a call of a function.
fn on_call(t: &Syntax, c: &PhpFile, f: &Frame, st: &mut PhpVisitor, n: usize)
    requires
        t@.wf(),
        c.modules.wf(),
        old(st).graph.wf(),
        n < t@.nodes.len(),
    ensures
        final(st).graph.wf(),
        final(st)@ == visit_call(t@, c@, f@, old(st)@, n),
    decreases t@.nodes.len() - n, 40int,
{
    if let Some(function) = t.field(n, "function") {
        if t.is_among(function, &NAME_KINDS) {
            st.record_name(t, "call", function, f.container.as_str());
        } else {
            on_node(t, c, f, st, function);
        }
    }
    on_call_arguments(t, c, f, st, n, "arguments");
}

/// Reads the creation of an object.
#[verifier::loop_isolation(false)]
fn on_creation(t: &Syntax, c: &PhpFile, f: &Frame, st: &mut PhpVisitor, n: usize)
    requires
        t@.wf(),
        c.modules.wf(),
        old(st).graph.wf(),
        n < t@.nodes.len(),
    ensures
        final(st).graph.wf(),
        final(st)@ == visit_creation(t@, c@, f@, old(st)@, n, plain_kids(t@, n).len() as int),
    decreases t@.nodes.len() - n, 12int,
{
    let parts = significant(t, n);
    let ghost start = st@;
    let mut k: usize = 0;
    while k < parts.len()
        invariant
            k <= parts@.len(),
            st.graph.wf(),
            st@ == visit_creation(t@, c@, f@, start, n, k as int),
        decreases parts@.len() - k,
    {
        assert(t@.below(n, parts@[k as int]));
        let part = parts[k];
        if t.is(part, "new") {
        } else if t.is(part, "anonymous_class") {
            on_anonymous(t, c, f, st, part);
        } else if t.is(part, "arguments") {
            on_arguments(t, c, f, st, part);
        } else if t.is_among(part, &NAME_KINDS) {
            st.record_name(t, "call", part, f.container.as_str());
        } else {
            on_node(t, c, f, st, part);
        }
        k += 1;
    }
}

/// Reads an access to a constant of a class.
fn on_constant_access(t: &Syntax, c: &PhpFile, f: &Frame, st: &mut PhpVisitor, n: usize)
    requires
        t@.wf(),
        c.modules.wf(),
        old(st).graph.wf(),
        n < t@.nodes.len(),
    ensures
        final(st).graph.wf(),
        final(st)@ == visit_constant_access(t@, c@, f@, old(st)@, n),
    decreases t@.nodes.len() - n, 40int,
{
    let list = significant(t, n);
    if list.len() > 0 {
        assert(t@.below(n, list@[0]));
        on_node(t, c, f, st, list[0]);
        let last = list[list.len() - 1];
        assert(t@.below(n, list@[list@.len() - 1]));
        if list.len() > 1 && t.is(last, "name") {
            st.record(t, "read", last, f.container.as_str());
        }
    }
}

/// Reads an attribute.
fn on_attribute(t: &Syntax, c: &PhpFile, f: &Frame, st: &mut PhpVisitor, n: usize)
    requires
        t@.wf(),
        c.modules.wf(),
        old(st).graph.wf(),
        n < t@.nodes.len(),
    ensures
        final(st).graph.wf(),
        final(st)@ == visit_attribute(t@, c@, f@, old(st)@, n),
    decreases t@.nodes.len() - n, 40int,
{
    if let Some(name) = t.kid_among(n, &NAME_KINDS) {
        st.record_name(t, "call", name, f.container.as_str());
    }
    on_call_arguments(t, c, f, st, n, "parameters");
}

/// The class that a test of a type names.
pub fn instanceof_operand(t: &Syntax, n: usize) -> (r: Option<usize>)
    requires
        t@.wf(),
        n < t@.nodes.len(),
    ensures
        r == tested_class(t@, n),
        r is Some ==> t@.below(n, r->0),
{
    match (t.field(n, "operator"), t.field(n, "right")) {
        (Some(operator), Some(right)) => {
            let word = to_ascii_lower(t.kind(operator));
            if same(word.as_str(), "instanceof") && t.is_among(right, &NAME_KINDS) {
                Some(right)
            } else {
                None
            }
        },
        _ => None,
    }
}

/// Reads a binary expression.
fn on_binary(t: &Syntax, c: &PhpFile, f: &Frame, st: &mut PhpVisitor, n: usize)
    requires
        t@.wf(),
        c.modules.wf(),
        old(st).graph.wf(),
        n < t@.nodes.len(),
    ensures
        final(st).graph.wf(),
        final(st)@ == visit_binary(t@, c@, f@, old(st)@, n),
    decreases t@.nodes.len() - n, 40int,
{
    let name = match instanceof_operand(t, n) {
        Some(right) => last_name(t, right),
        None => None,
    };
    match name {
        Some(name) => {
            st.record(t, "annotation", name, f.container.as_str());
            on_some(t, c, f, st, t.field(n, "left"), n);
        },
        None => {
            on_all(t, c, f, st, n);
        },
    }
}

/// Reads a member access or a call of a member.
fn on_member(t: &Syntax, c: &PhpFile, f: &Frame, st: &mut PhpVisitor, n: usize, role: &str)
    requires
        t@.wf(),
        c.modules.wf(),
        old(st).graph.wf(),
        n < t@.nodes.len(),
    ensures
        final(st).graph.wf(),
        final(st)@ == visit_member(t@, c@, f@, old(st)@, n, role@),
    decreases t@.nodes.len() - n, 40int,
{
    if let Some(name) = t.field(n, "name") {
        if t.is(name, "name") {
            st.record(t, role, name, f.container.as_str());
        } else if t.is(name, "variable_name") && t.is(n, "scoped_property_access_expression") {
            if let Some(ident) = variable_identifier(t, name) {
                st.record(t, role, ident, f.container.as_str());
            }
        } else {
            on_node(t, c, f, st, name);
        }
    }
    let receiver = match t.field(n, "object") {
        Some(o) => Some(o),
        None => t.field(n, "scope"),
    };
    on_some(t, c, f, st, receiver, n);
}

/// Reads the target of an assignment.
fn on_target(t: &Syntax, c: &PhpFile, f: &Frame, st: &mut PhpVisitor, n: usize)
    requires
        t@.wf(),
        c.modules.wf(),
        old(st).graph.wf(),
        n < t@.nodes.len(),
    ensures
        final(st).graph.wf(),
        final(st)@ == visit_target(t@, c@, f@, old(st)@, n),
    decreases t@.nodes.len() - n, 60int,
{
    if t.is(n, "member_access_expression") || t.is(n, "nullsafe_member_access_expression") || t.is(
        n,
        "scoped_property_access_expression",
    ) {
        on_member(t, c, f, st, n, "write");
    } else if t.is(n, "list_literal") || t.is(n, "pair") || t.is(n, "by_ref") {
        on_targets(t, c, f, st, n);
    } else {
        on_node(t, c, f, st, n);
    }
}

/// Reads the targets of an assignment.
#[verifier::loop_isolation(false)]
fn on_targets(t: &Syntax, c: &PhpFile, f: &Frame, st: &mut PhpVisitor, n: usize)
    requires
        t@.wf(),
        c.modules.wf(),
        old(st).graph.wf(),
        n < t@.nodes.len(),
    ensures
        final(st).graph.wf(),
        final(st)@ == visit_targets(t@, c@, f@, old(st)@, n, t@.kids(n).len() as int),
    decreases t@.nodes.len() - n, 12int,
{
    let kids = t.kids(n);
    let ghost start = st@;
    let mut k: usize = 0;
    while k < kids.len()
        invariant
            k <= kids@.len(),
            st.graph.wf(),
            st@ == visit_targets(t@, c@, f@, start, n, k as int),
        decreases kids@.len() - k,
    {
        assert(t@.below(n, kids@[k as int]));
        on_target(t, c, f, st, kids[k]);
        k += 1;
    }
}

/// Reads the target of an assignment that may be there.
fn on_target_field(t: &Syntax, c: &PhpFile, f: &Frame, st: &mut PhpVisitor, n: usize, field: &str)
    requires
        t@.wf(),
        c.modules.wf(),
        old(st).graph.wf(),
        n < t@.nodes.len(),
    ensures
        final(st).graph.wf(),
        final(st)@ == visit_target_if(t@, c@, f@, old(st)@, n, field@),
    decreases t@.nodes.len() - n, 20int,
{
    if let Some(target) = t.field(n, field) {
        on_target(t, c, f, st, target);
    }
}

/// Reads one node.
fn on_node(t: &Syntax, c: &PhpFile, f: &Frame, st: &mut PhpVisitor, n: usize)
    requires
        t@.wf(),
        c.modules.wf(),
        old(st).graph.wf(),
        n < t@.nodes.len(),
    ensures
        final(st).graph.wf(),
        final(st)@ == visit(t@, c@, f@, old(st)@, n),
    decreases t@.nodes.len() - n, 50int,
{
    if t.is_among(n, &MARKUP_KINDS) || t.is(n, "variable_name") {
    } else if t.is(n, "namespace_definition") {
        on_namespace(t, c, f, st, n);
    } else if t.is(n, "class_declaration") {
        on_class(t, c, f, st, n, ClassFlavour::Class);
    } else if t.is(n, "interface_declaration") {
        on_class(t, c, f, st, n, ClassFlavour::Interface);
    } else if t.is(n, "trait_declaration") {
        on_class(t, c, f, st, n, ClassFlavour::Trait);
    } else if t.is(n, "enum_declaration") {
        on_class(t, c, f, st, n, ClassFlavour::Enumeration);
    } else if t.is(n, "function_definition") || t.is(n, "method_declaration") {
        on_function(t, c, f, st, n);
    } else if t.is(n, "property_declaration") {
        on_properties(t, c, f, st, n);
    } else if t.is(n, "const_declaration") {
        on_constants(t, c, f, st, n);
    } else if t.is(n, "enum_case") {
        on_case(t, c, f, st, n);
    } else if t.is(n, "use_declaration") {
        read_traits(t, st, n, f.container.as_str());
    } else if t.is(n, "namespace_use_declaration") {
        read_imports(t, c, f, st, n);
    } else if t.is(n, "function_static_declaration") {
        on_statics(t, c, f, st, n);
    } else if t.is(n, "anonymous_function") || t.is(n, "arrow_function") || t.is(n, "property_hook") {
        on_callable(t, c, f, st, n);
    } else if t.is(n, "function_call_expression") {
        on_call(t, c, f, st, n);
    } else if t.is(n, "member_call_expression") || t.is(n, "nullsafe_member_call_expression") || t.is(
        n,
        "scoped_call_expression",
    ) {
        on_member(t, c, f, st, n, "call");
        on_call_arguments(t, c, f, st, n, "arguments");
    } else if t.is(n, "object_creation_expression") {
        on_creation(t, c, f, st, n);
    } else if t.is(n, "attribute") {
        on_attribute(t, c, f, st, n);
    } else if t.is(n, "member_access_expression") || t.is(n, "nullsafe_member_access_expression") || t.is(
        n,
        "scoped_property_access_expression",
    ) {
        on_member(t, c, f, st, n, "read");
    } else if t.is(n, "class_constant_access_expression") {
        on_constant_access(t, c, f, st, n);
    } else if t.is(n, "assignment_expression") || t.is(n, "augmented_assignment_expression") || t.is(
        n,
        "reference_assignment_expression",
    ) {
        on_target_field(t, c, f, st, n, "left");
        on_some(t, c, f, st, t.field(n, "right"), n);
    } else if t.is(n, "update_expression") {
        on_target_field(t, c, f, st, n, "argument");
    } else if t.is(n, "binary_expression") {
        on_binary(t, c, f, st, n);
    } else if t.is(n, "catch_clause") {
        st.record_type(t, t.field(n, "type"), f.container.as_str());
        on_some(t, c, f, st, t.field(n, "body"), n);
    } else if t.is_among(n, &NAME_KINDS) {
        st.record_name(t, "read", n, f.container.as_str());
    } else {
        on_all(t, c, f, st, n);
    }
}

/// Reads a file.
pub fn visit_file(t: &Syntax, c: &PhpFile, st: &mut PhpVisitor, root: usize)
    requires
        t@.wf(),
        c.modules.wf(),
        old(st).graph.wf(),
        root < t@.nodes.len(),
    ensures
        final(st).graph.wf(),
        final(st)@ == visit(
            t@,
            c@,
            (FrameView { container: c.file_id@, kind: NodeKind::File }),
            old(st)@,
            root,
        ),
{
    let frame = Frame { container: copy(c.file_id), kind: NodeKind::File };
    on_node(t, c, &frame, st, root);
}

}
