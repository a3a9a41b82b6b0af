//! Reading one C or C++ file into plain facts.

use vstd::prelude::*;

use crate::cfamily::declarators::{
    bare, bare_name, called, declarations, declarations_of, declared_are_below, is_callee, is_write_target, leaf_name,
    modifiers, modifiers_of, namespace_components, namespace_parts, normal_type, normalize_type, spelled_scope,
    split_qualified, terminal, terminal_declarator, type_leaf, type_name_node, written, Declared, Modifiers,
};
use crate::cfamily::headers::{qualified, qualify, Linkage};
use crate::cfamily::visitor::{
    extended, FactsView, FileFacts, FoundDecl, FoundInclude, FoundOccurrence, FoundView, IncludeView, Owner, OwnerView,
    UseView, RECORD_KINDS,
};
use crate::cfamily::Dialect;
use crate::dependencies::{sort_names, sorted_names};
use crate::node::NodeKind;
use crate::span::Span;
use crate::strings::{
    join, joined, strip_leading, strip_trailing, trim, trim_end, trimmed, trimmed_end, without_leading, without_trailing,
};
use crate::text::{add_item, concat2, concat3, copy, copy_all, decode_lossy, holds, opt_view, same, utf8_lossy, views};
use crate::tree::{group_tree, Syntax, TreeView};
use crate::walk::{descend, descendants};

verus! {

broadcast use group_tree;

/// What is known of a file before it is read.
pub struct ReadContext {
    pub dialect: Dialect,
    pub file_rel: Seq<char>,
    /// The records of all files of the root.
    pub records: Seq<Seq<char>>,
}

/// The scope that declarations stand in.
pub struct FrameView {
    /// The parts of its name.
    pub parts: Seq<Seq<char>>,
    /// What declarations here hang on, beside the file.
    pub owner: OwnerView,
    pub linkage: Linkage,
    /// Whether declarations here are members of a class.
    pub member: bool,
}

/// How far reading has come. The access level changes within a class.
pub struct ReadState {
    pub access: Seq<char>,
    pub declarations: Seq<FoundView>,
    pub occurrences: Seq<UseView>,
    pub includes: Seq<IncludeView>,
}

// ---------------------------------------------------------------------------
// Specifications
// ---------------------------------------------------------------------------

/// The state with one more declaration.
pub open spec fn declared(st: ReadState, d: FoundView) -> ReadState {
    ReadState { declarations: st.declarations.push(d), ..st }
}

/// The state with one more place of use.
pub open spec fn used(st: ReadState, t: TreeView, role: Seq<char>, n: usize, owner: OwnerView) -> ReadState {
    ReadState { occurrences: st.occurrences.push(UseView { role, span: t.span(n), owner, name: t.text(n) }), ..st }
}

/// The state with the use of the name that a type reduces to.
pub open spec fn annotated(st: ReadState, t: TreeView, type_node: Option<usize>, owner: OwnerView) -> ReadState {
    match type_node {
        Some(n) => match type_leaf(t, n) {
            Some(name) => used(st, t, "annotation"@, name, owner),
            None => st,
        },
        None => st,
    }
}

/// A declaration without specifiers, type and parameters.
pub open spec fn simple_decl(
    kind: NodeKind,
    qualified_name: Seq<char>,
    name: Seq<char>,
    span: Span,
    name_span: Span,
    defines: bool,
    linkage: Linkage,
    owner: OwnerView,
    record_kind: Seq<char>,
    access: Seq<char>,
) -> FoundView {
    FoundView {
        kind,
        qualified_name,
        name,
        span,
        name_span,
        defines,
        linkage,
        owner,
        record_kind,
        access,
        is_static: false,
        is_extern: false,
        is_virtual: false,
        is_template: false,
        type_text: Seq::empty(),
        signature: Seq::empty(),
    }
}

/// The text of a node, where there is one.
pub open spec fn text_of(t: TreeView, n: Option<usize>) -> Seq<char> {
    match n {
        Some(c) => t.text(c),
        None => Seq::empty(),
    }
}

/// A name in a scope, behind the scope that a declarator spells.
pub open spec fn named_in(
    c: ReadContext,
    f: FrameView,
    extra: Seq<Seq<char>>,
    name: Seq<char>,
    linkage: Linkage,
) -> Seq<char> {
    qualified(c.file_rel, f.parts + extra, name, linkage)
}

/// The linkage of a function or of data. `static` hides a name in its file, but
/// not a member of a class; a constant of C++ outside classes is hidden too.
pub open spec fn linkage_of(c: ReadContext, f: FrameView, m: Modifiers, is_data: bool, member: bool) -> Linkage {
    if f.linkage == Linkage::Internal {
        Linkage::Internal
    } else if m.is_extern {
        Linkage::External
    } else if m.is_static && !member {
        Linkage::Internal
    } else if is_data && !member && c.dialect == Dialect::Cpp && m.is_const {
        Linkage::Internal
    } else {
        Linkage::External
    }
}

/// The directive that a node is. The delimiters are dropped, so that both
/// spellings name the same header; a macro is kept as it is written.
pub open spec fn directive(t: TreeView, n: usize) -> Option<IncludeView> {
    match t.field(n, "path"@) {
        Some(p) => {
            let system = t.kind(p) == "system_lib_string"@;
            let quoted = t.kind(p) == "string_literal"@;
            let path = if system {
                without_trailing(without_leading(t.text(p), '<'), '>')
            } else if quoted {
                text_of(t, t.kid_of(p, "string_content"@))
            } else {
                t.text(p)
            };
            if path.len() == 0 {
                None
            } else {
                Some(
                    IncludeView {
                        path,
                        style: if system {
                            "system"@
                        } else if quoted {
                            "quoted"@
                        } else {
                            "computed"@
                        },
                        span: t.span(n),
                    },
                )
            }
        },
        None => None,
    }
}

/// The access level that a specifier sets.
pub open spec fn access_set(t: TreeView, n: usize) -> Seq<char> {
    let text = trimmed(t.text(n));
    if text == "public"@ || text == "protected"@ {
        text
    } else {
        "private"@
    }
}

/// What kind of record a node is.
pub open spec fn record_kind(t: TreeView, n: usize) -> Seq<char> {
    if t.kind(n) == "union_specifier"@ {
        "union"@
    } else if t.kind(n) == "class_specifier"@ {
        "class"@
    } else {
        "struct"@
    }
}

/// The name that a base class is used by.
pub open spec fn base_name(t: TreeView, n: usize) -> Option<usize> {
    if t.kind(n) == "access_specifier"@ {
        None
    } else if t.kind(n) == "qualified_identifier"@ {
        Some(bare(t, leaf_name(t, n)))
    } else {
        type_leaf(t, n)
    }
}

/// The state with the first `k` bases of a record.
pub open spec fn with_bases(st: ReadState, t: TreeView, bases: Seq<usize>, owner: OwnerView, k: int) -> ReadState
    decreases k,
{
    if k <= 0 || k > bases.len() {
        st
    } else {
        let earlier = with_bases(st, t, bases, owner, k - 1);
        match base_name(t, bases[k - 1]) {
            Some(name) => used(earlier, t, "base"@, name, owner),
            None => earlier,
        }
    }
}

/// The bases of a record.
pub open spec fn bases_of(t: TreeView, n: usize) -> Seq<usize> {
    match t.kid_of(n, "base_class_clause"@) {
        Some(b) => t.named_kids(b),
        None => Seq::empty(),
    }
}

/// The name that one child of a using declaration uses.
pub open spec fn using_name(t: TreeView, n: usize) -> Option<usize> {
    if t.kind(n) == "qualified_identifier"@ {
        Some(bare(t, leaf_name(t, n)))
    } else if t.kind(n) == "identifier"@ || t.kind(n) == "type_identifier"@ || t.kind(n) == "namespace_identifier"@ {
        Some(n)
    } else {
        None
    }
}

/// The state with the first `k` names of a using declaration.
pub open spec fn with_using(st: ReadState, t: TreeView, list: Seq<usize>, owner: OwnerView, k: int) -> ReadState
    decreases k,
{
    if k <= 0 || k > list.len() {
        st
    } else {
        let earlier = with_using(st, t, list, owner, k - 1);
        match using_name(t, list[k - 1]) {
            Some(name) => used(earlier, t, "read"@, name, owner),
            None => earlier,
        }
    }
}

/// The kinds of node that are parameters.
pub const PARAMETER_KINDS: [&'static str; 3] = [
    "parameter_declaration",
    "optional_parameter_declaration",
    "variadic_parameter_declaration",
];

/// The name of a parameter.
pub open spec fn param_name(t: TreeView, p: usize) -> Option<usize> {
    match t.field(p, "declarator"@) {
        Some(d) => match terminal(t, d) {
            Some(found) => Some(bare(t, found.name)),
            None => None,
        },
        None => None,
    }
}

/// The bytes of a parameter without its name and its default value.
pub open spec fn param_bytes(t: TreeView, p: usize) -> Seq<u8> {
    let start = t.nodes[p as int].start;
    let end = match t.field(p, "default_value"@) {
        Some(v) => t.nodes[v as int].start,
        None => t.nodes[p as int].end,
    };
    if end <= start {
        Seq::empty()
    } else {
        match param_name(t, p) {
            Some(name) => {
                let a = t.nodes[name as int].start;
                let b = t.nodes[name as int].end;
                if a >= start && b <= end {
                    t.source.subrange(start as int, a as int) + t.source.subrange(b as int, end as int)
                } else {
                    t.source.subrange(start as int, end as int)
                }
            },
            None => t.source.subrange(start as int, end as int),
        }
    }
}

/// The type of a parameter, reduced to one spelling.
pub open spec fn param_type(t: TreeView, p: usize) -> Seq<char> {
    if param_bytes(t, p).len() == 0 {
        Seq::empty()
    } else {
        normal_type(trimmed_end(without_trailing(trimmed_end(utf8_lossy(param_bytes(t, p))), '=')))
    }
}

/// The types of the first `k` parameters. A list of `void` is empty.
pub open spec fn param_types(t: TreeView, list: Seq<usize>, k: int) -> Seq<Seq<char>>
    decreases k,
{
    if k <= 0 || k > list.len() {
        Seq::empty()
    } else {
        let earlier = param_types(t, list, k - 1);
        let text = param_type(t, list[k - 1]);
        if !t.kind_among(list[k - 1], PARAMETER_KINDS@) || text.len() == 0 || text == "void"@ {
            earlier
        } else {
            earlier.push(text)
        }
    }
}

/// The qualifiers among the first `k` of some nodes.
pub open spec fn qualifiers_of(t: TreeView, list: Seq<usize>, k: int) -> Seq<Seq<char>>
    decreases k,
{
    if k <= 0 || k > list.len() {
        Seq::empty()
    } else {
        let earlier = qualifiers_of(t, list, k - 1);
        let text = trimmed(t.text(list[k - 1]));
        if t.kind(list[k - 1]) == "type_qualifier"@ && text.len() > 0 {
            earlier.push(text)
        } else {
            earlier
        }
    }
}

/// A text with the first `k` qualifiers behind it.
pub open spec fn with_qualifiers(s: Seq<char>, qualifiers: Seq<Seq<char>>, k: int) -> Seq<char>
    decreases k,
{
    if k <= 0 || k > qualifiers.len() {
        s
    } else {
        with_qualifiers(s, qualifiers, k - 1) + " "@ + qualifiers[k - 1]
    }
}

/// The parameters of a declarator.
pub open spec fn params_of(t: TreeView, carrier: usize) -> Seq<usize> {
    match t.field(carrier, "parameters"@) {
        Some(list) => t.named_kids(list),
        None => Seq::empty(),
    }
}

/// The types of the parameters of a callable, and its qualifiers in ascending
/// order: names and default values are no part of it.
pub open spec fn signature_text(t: TreeView, carrier: usize) -> Seq<char> {
    let params = params_of(t, carrier);
    let kids = t.kids(carrier);
    let qualifiers = sorted_names(qualifiers_of(t, kids, kids.len() as int));
    with_qualifiers(
        "("@ + joined(param_types(t, params, params.len() as int), ","@) + ")"@,
        qualifiers,
        qualifiers.len() as int,
    )
}

/// The identity of a callable.
pub struct CallableView {
    pub kind: NodeKind,
    pub qualified_name: Seq<char>,
    pub name: Seq<char>,
    pub name_span: Span,
    pub linkage: Linkage,
    pub signature: Seq<char>,
    pub modifiers: Modifiers,
}

/// The short name of a callable. A conversion operator has no identifier: its
/// name is the text up to its parameters.
pub open spec fn callable_text(t: TreeView, found: Declared, leaf: usize) -> Seq<char> {
    if t.kind(found.name) != "operator_cast"@ {
        t.text(leaf)
    } else {
        let start = t.nodes[found.name as int].start;
        let end = match t.field(found.name, "declarator"@) {
            Some(d) => t.nodes[d as int].start,
            None => t.nodes[found.name as int].end,
        };
        if end <= start {
            t.text(found.name)
        } else {
            normal_type(utf8_lossy(t.source.subrange(start as int, end as int)))
        }
    }
}

/// Whether a name with a scope of its own is a member: the last part of the
/// scope names a record of some file. Without one, the scope around it decides.
pub open spec fn names_member(c: ReadContext, f: FrameView, extra: Seq<Seq<char>>) -> bool {
    if extra.len() > 0 {
        c.records.contains(extra.last())
    } else {
        f.member
    }
}

/// The identity of a callable. The parameters are part of an overload's name in
/// C++; C has no overloads.
pub open spec fn identity_of(t: TreeView, c: ReadContext, f: FrameView, n: usize, found: Declared) -> CallableView {
    let extra = spelled_scope(t, found.name);
    let leaf = bare(t, leaf_name(t, found.name));
    let name = callable_text(t, found, leaf);
    let member = names_member(c, f, extra);
    let m = modifiers_of(t, n);
    let linkage = linkage_of(c, f, m, false, member);
    let signature = if c.dialect == Dialect::Cpp && found.carrier(t) is Some {
        signature_text(t, found.carrier(t)->0)
    } else {
        Seq::empty()
    };
    CallableView {
        kind: if member {
            NodeKind::Method
        } else {
            NodeKind::Function
        },
        qualified_name: named_in(c, f, extra, name + signature, linkage),
        name,
        name_span: if t.kind(found.name) == "operator_cast"@ {
            t.span(found.name)
        } else {
            t.span(leaf)
        },
        linkage,
        signature,
        modifiers: m,
    }
}

/// The state with one parameter of a callable. One without a name is only used
/// for its type.
pub open spec fn with_param(
    st: ReadState,
    t: TreeView,
    p: usize,
    callable: Seq<char>,
    owner: OwnerView,
    defines: bool,
) -> ReadState {
    let type_node = t.field(p, "type"@);
    if !t.kind_among(p, PARAMETER_KINDS@) {
        st
    } else {
        match param_name(t, p) {
            None => annotated(st, t, type_node, owner),
            Some(name_node) => {
                let name = t.text(name_node);
                let qname = callable + "."@ + name;
                if name.len() == 0 {
                    st
                } else {
                    annotated(
                        declared(
                            st,
                            FoundView {
                                type_text: text_of(t, type_node),
                                ..simple_decl(
                                    NodeKind::Parameter,
                                    qname,
                                    name,
                                    t.span(p),
                                    t.span(name_node),
                                    defines,
                                    Linkage::Internal,
                                    owner,
                                    Seq::empty(),
                                    Seq::empty(),
                                )
                            },
                        ),
                        t,
                        type_node,
                        OwnerView::Decl { qualified_name: qname, kind: NodeKind::Parameter },
                    )
                }
            },
        }
    }
}

/// The state with the first `k` parameters of a callable.
pub open spec fn with_params(
    st: ReadState,
    t: TreeView,
    params: Seq<usize>,
    callable: Seq<char>,
    owner: OwnerView,
    defines: bool,
    k: int,
) -> ReadState
    decreases k,
{
    if k <= 0 || k > params.len() {
        st
    } else {
        with_param(
            with_params(st, t, params, callable, owner, defines, k - 1),
            t,
            params[k - 1],
            callable,
            owner,
            defines,
        )
    }
}

/// The state with a callable and its parameters.
pub open spec fn with_callable(
    st: ReadState,
    t: TreeView,
    f: FrameView,
    n: usize,
    found: Declared,
    defines: bool,
    id: CallableView,
) -> ReadState {
    let type_node = t.field(n, "type"@);
    let owner = OwnerView::Decl { qualified_name: id.qualified_name, kind: id.kind };
    let own = declared(
        st,
        FoundView {
            is_static: id.modifiers.is_static,
            is_extern: id.modifiers.is_extern,
            is_virtual: id.modifiers.is_virtual,
            is_template: id.modifiers.is_template,
            type_text: text_of(t, type_node),
            signature: id.signature,
            ..simple_decl(
                id.kind,
                id.qualified_name,
                id.name,
                t.span(n),
                id.name_span,
                defines,
                id.linkage,
                f.owner,
                Seq::empty(),
                st.access,
            )
        },
    );
    let typed = annotated(own, t, type_node, owner);
    match found.carrier(t) {
        Some(carrier) => {
            let params = params_of(t, carrier);
            with_params(typed, t, params, id.qualified_name, owner, defines, params.len() as int)
        },
        None => typed,
    }
}

/// The state with one datum: a member, or a variable of its scope. Only a datum
/// that is announced and not initialized does not define.
pub open spec fn with_datum(
    st: ReadState,
    t: TreeView,
    c: ReadContext,
    f: FrameView,
    n: usize,
    name_node: usize,
    extra: Seq<Seq<char>>,
    declarator: usize,
) -> ReadState {
    let name = t.text(name_node);
    let type_node = t.field(n, "type"@);
    let member = names_member(c, f, extra);
    let kind = if member {
        NodeKind::Attribute
    } else {
        NodeKind::Variable
    };
    let m = modifiers_of(t, n);
    let linkage = linkage_of(c, f, m, true, member);
    let initialized = t.kind(declarator) == "init_declarator"@ || t.field(n, "default_value"@) is Some;
    let qname = named_in(c, f, extra, name, linkage);
    if name.len() == 0 {
        st
    } else {
        annotated(
            declared(
                st,
                FoundView {
                    is_static: m.is_static,
                    is_extern: m.is_extern,
                    is_template: m.is_template,
                    type_text: text_of(t, type_node),
                    ..simple_decl(
                        kind,
                        qname,
                        name,
                        t.span(n),
                        t.span(name_node),
                        initialized || !m.is_extern,
                        linkage,
                        f.owner,
                        Seq::empty(),
                        st.access,
                    )
                },
            ),
            t,
            type_node,
            OwnerView::Decl { qualified_name: qname, kind },
        )
    }
}

/// The state with the first `k` names that one declarator binds.
pub open spec fn with_bound(
    st: ReadState,
    t: TreeView,
    c: ReadContext,
    f: FrameView,
    n: usize,
    names: Seq<usize>,
    declarator: usize,
    k: int,
) -> ReadState
    decreases k,
{
    if k <= 0 || k > names.len() {
        st
    } else {
        with_datum(with_bound(st, t, c, f, n, names, declarator, k - 1), t, c, f, n, names[k - 1], Seq::empty(), declarator)
    }
}

/// The state with what one declarator of a declaration declares.
pub open spec fn with_declarator(
    st: ReadState,
    t: TreeView,
    c: ReadContext,
    f: FrameView,
    n: usize,
    declarator: usize,
) -> ReadState {
    match terminal(t, declarator) {
        Some(found) => if found.callable(t) {
            let id = identity_of(t, c, f, n, found);
            if id.name.len() == 0 {
                st
            } else {
                with_callable(st, t, f, n, found, false, id)
            }
        } else if t.kind(found.name) == "structured_binding_declarator"@ {
            let names = t.named_kids(found.name);
            with_bound(st, t, c, f, n, names, declarator, names.len() as int)
        } else {
            with_datum(
                st,
                t,
                c,
                f,
                n,
                bare(t, leaf_name(t, found.name)),
                spelled_scope(t, found.name),
                declarator,
            )
        },
        None => st,
    }
}

/// The state with what the first `k` declarators of a declaration declare.
pub open spec fn with_declarators(
    st: ReadState,
    t: TreeView,
    c: ReadContext,
    f: FrameView,
    n: usize,
    list: Seq<usize>,
    k: int,
) -> ReadState
    decreases k,
{
    if k <= 0 || k > list.len() {
        st
    } else {
        with_declarator(with_declarators(st, t, c, f, n, list, k - 1), t, c, f, n, list[k - 1])
    }
}

/// The state with what the first `k` declarators of a typedef name.
pub open spec fn with_typedefs(
    st: ReadState,
    t: TreeView,
    c: ReadContext,
    f: FrameView,
    n: usize,
    list: Seq<usize>,
    k: int,
) -> ReadState
    decreases k,
{
    if k <= 0 || k > list.len() {
        st
    } else {
        let earlier = with_typedefs(st, t, c, f, n, list, k - 1);
        match terminal(t, list[k - 1]) {
            Some(found) => {
                let leaf = bare(t, found.name);
                let name = t.text(leaf);
                if name.len() == 0 {
                    earlier
                } else {
                    declared(
                        earlier,
                        FoundView {
                            type_text: text_of(t, t.field(n, "type"@)),
                            ..simple_decl(
                                NodeKind::TypeAlias,
                                named_in(c, f, Seq::empty(), name, f.linkage),
                                name,
                                t.span(n),
                                t.span(leaf),
                                true,
                                f.linkage,
                                f.owner,
                                Seq::empty(),
                                earlier.access,
                            )
                        },
                    )
                }
            },
            None => earlier,
        }
    }
}

/// The state with an alias.
pub open spec fn with_alias(st: ReadState, t: TreeView, c: ReadContext, f: FrameView, n: usize) -> ReadState {
    match t.field(n, "name"@) {
        Some(name_node) => {
            let type_node = t.field(n, "type"@);
            let qname = named_in(c, f, Seq::empty(), t.text(name_node), f.linkage);
            annotated(
                declared(
                    st,
                    FoundView {
                        is_template: modifiers_of(t, n).is_template,
                        type_text: text_of(t, type_node),
                        ..simple_decl(
                            NodeKind::TypeAlias,
                            qname,
                            t.text(name_node),
                            t.span(n),
                            t.span(name_node),
                            true,
                            f.linkage,
                            f.owner,
                            Seq::empty(),
                            st.access,
                        )
                    },
                ),
                t,
                type_node,
                OwnerView::Decl { qualified_name: qname, kind: NodeKind::TypeAlias },
            )
        },
        None => st,
    }
}

/// The state with a concept: a named predicate over types.
pub open spec fn with_concept(st: ReadState, t: TreeView, c: ReadContext, f: FrameView, n: usize) -> ReadState {
    match t.field(n, "name"@) {
        Some(name_node) => declared(
            st,
            FoundView {
                is_template: true,
                ..simple_decl(
                    NodeKind::TypeAlias,
                    named_in(c, f, Seq::empty(), t.text(name_node), f.linkage),
                    t.text(name_node),
                    t.span(n),
                    t.span(name_node),
                    true,
                    f.linkage,
                    f.owner,
                    "concept"@,
                    st.access,
                )
            },
        ),
        None => st,
    }
}

/// The state with an enumerator.
pub open spec fn with_enumerator(st: ReadState, t: TreeView, c: ReadContext, f: FrameView, n: usize) -> ReadState {
    match t.field(n, "name"@) {
        Some(name_node) => declared(
            st,
            simple_decl(
                NodeKind::Attribute,
                named_in(c, f, Seq::empty(), t.text(name_node), f.linkage),
                t.text(name_node),
                t.span(n),
                t.span(name_node),
                true,
                f.linkage,
                f.owner,
                "enumerator"@,
                st.access,
            ),
        ),
        None => st,
    }
}

/// The name token of a callee: none where the result of an expression is called.
pub open spec fn callee_name(t: TreeView, n: usize) -> Option<usize> {
    if t.kind(n) == "identifier"@ {
        Some(n)
    } else if t.kind(n) == "field_expression"@ {
        match t.field(n, "field"@) {
            Some(field) => Some(bare(t, field)),
            None => None,
        }
    } else if t.kind(n) == "qualified_identifier"@ {
        Some(bare(t, leaf_name(t, n)))
    } else if t.kind(n) == "template_function"@ || t.kind(n) == "template_method"@ {
        Some(bare(t, n))
    } else {
        None
    }
}

/// The use that a node is: a call, a construction, or the access of a member.
/// What a call names is a call and nothing else. Plain names are not recorded:
/// most of them are local.
pub open spec fn use_at(t: TreeView, n: usize) -> Option<(Seq<char>, usize)> {
    if t.kind(n) == "call_expression"@ {
        match t.field(n, "function"@) {
            Some(function) => match callee_name(t, function) {
                Some(name) => Some(("call"@, name)),
                None => None,
            },
            None => None,
        }
    } else if t.kind(n) == "new_expression"@ {
        match t.field(n, "type"@) {
            Some(type_node) => match type_leaf(t, type_node) {
                Some(name) => Some(("call"@, name)),
                None => None,
            },
            None => None,
        }
    } else if t.kind(n) == "field_expression"@ && !called(t, n) {
        match t.field(n, "field"@) {
            Some(field) => Some(
                (
                    if written(t, n) {
                        "write"@
                    } else {
                        "read"@
                    },
                    bare(t, field),
                ),
            ),
            None => None,
        }
    } else {
        None
    }
}

/// The state with the uses that the first `k` of some nodes are.
pub open spec fn with_uses(st: ReadState, t: TreeView, list: Seq<usize>, owner: OwnerView, k: int) -> ReadState
    decreases k,
{
    if k <= 0 || k > list.len() {
        st
    } else {
        let earlier = with_uses(st, t, list, owner, k - 1);
        match use_at(t, list[k - 1]) {
            Some((role, name)) => used(earlier, t, role, name, owner),
            None => earlier,
        }
    }
}

/// The state with the uses in a scope.
pub open spec fn with_body(st: ReadState, t: TreeView, scope: usize, owner: OwnerView) -> ReadState {
    with_uses(st, t, descend(t, scope), owner, descend(t, scope).len() as int)
}

/// The state with the members that the first `k` initializers write.
pub open spec fn with_initializers(st: ReadState, t: TreeView, list: Seq<usize>, owner: OwnerView, k: int) -> ReadState
    decreases k,
{
    if k <= 0 || k > list.len() {
        st
    } else {
        let earlier = with_initializers(st, t, list, owner, k - 1);
        let kids = t.named_kids(list[k - 1]);
        if t.kind(list[k - 1]) == "field_initializer"@ && kids.len() > 0 && (t.kind(kids[0]) == "field_identifier"@
            || t.kind(kids[0]) == "identifier"@) {
            used(earlier, t, "write"@, kids[0], owner)
        } else {
            earlier
        }
    }
}

/// The state with a function that is defined, and what its body uses.
pub open spec fn with_function(st: ReadState, t: TreeView, c: ReadContext, f: FrameView, n: usize) -> ReadState {
    match t.field(n, "declarator"@) {
        Some(declarator) => match terminal(t, declarator) {
            Some(found) => {
                let id = identity_of(t, c, f, n, found);
                let owner = OwnerView::Decl { qualified_name: id.qualified_name, kind: id.kind };
                if id.name.len() == 0 {
                    st
                } else {
                    let own = with_callable(st, t, f, n, found, true, id);
                    let started = match t.kid_of(n, "field_initializer_list"@) {
                        Some(list) => with_body(
                            with_initializers(own, t, t.named_kids(list), owner, t.named_kids(list).len() as int),
                            t,
                            list,
                            owner,
                        ),
                        None => own,
                    };
                    match t.field(n, "body"@) {
                        Some(body) => with_body(started, t, body, owner),
                        None => started,
                    }
                }
            },
            None => st,
        },
        None => st,
    }
}

/// The state after the first `k` declarations of a container.
pub open spec fn read_in(t: TreeView, c: ReadContext, f: FrameView, st: ReadState, container: usize, k: int) -> ReadState
    decreases t.nodes.len() - container, k,
{
    let list = declarations_of(t, container);
    if k <= 0 || k > list.len() {
        st
    } else {
        proof {
            declared_are_below(t, container, t.kids(container).len() as int);
        }
        read_at(t, c, f, read_in(t, c, f, st, container, k - 1), list[k - 1])
    }
}

/// The state after everything in a container, back in the scope around it.
pub open spec fn read_inside(t: TreeView, c: ReadContext, f: FrameView, st: ReadState, access: Seq<char>, body: usize) -> ReadState
    decreases t.nodes.len() - body, declarations_of(t, body).len() + 1,
{
    let inner = read_in(t, c, f, ReadState { access, ..st }, body, declarations_of(t, body).len() as int);
    ReadState { access: st.access, ..inner }
}

/// The state after one declaration.
pub open spec fn read_at(t: TreeView, c: ReadContext, f: FrameView, st: ReadState, n: usize) -> ReadState
    decreases t.nodes.len() - n, 4int,
{
    if t.kind(n) == "preproc_include"@ {
        match directive(t, n) {
            Some(i) => ReadState { includes: st.includes.push(i), ..st },
            None => st,
        }
    } else if t.kind(n) == "namespace_definition"@ {
        let parts = namespace_parts(t, n);
        match t.field(n, "body"@) {
            Some(body) => read_inside(
                t,
                c,
                FrameView {
                    parts: f.parts + parts,
                    owner: f.owner,
                    // What an anonymous namespace holds is hidden in its file.
                    linkage: if parts.len() == 0 {
                        Linkage::Internal
                    } else {
                        f.linkage
                    },
                    member: false,
                },
                st,
                Seq::empty(),
                body,
            ),
            None => st,
        }
    } else if t.kind(n) == "function_definition"@ {
        with_function(st, t, c, f, n)
    } else if t.kind(n) == "declaration"@ || t.kind(n) == "field_declaration"@ {
        let list = t.fields(n, "declarator"@);
        with_declarators(read_inline(t, c, f, st, n), t, c, f, n, list, list.len() as int)
    } else if t.kind(n) == "type_definition"@ {
        let list = t.fields(n, "declarator"@);
        with_typedefs(read_inline(t, c, f, st, n), t, c, f, n, list, list.len() as int)
    } else if t.kind_among(n, RECORD_KINDS@) {
        read_record(t, c, f, st, n)
    } else if t.kind(n) == "enum_specifier"@ {
        read_enum(t, c, f, st, n)
    } else if t.kind(n) == "alias_declaration"@ {
        with_alias(st, t, c, f, n)
    } else if t.kind(n) == "concept_definition"@ {
        with_concept(st, t, c, f, n)
    } else if t.kind(n) == "using_declaration"@ {
        with_using(st, t, t.named_kids(n), f.owner, t.named_kids(n).len() as int)
    } else if t.kind(n) == "access_specifier"@ {
        ReadState { access: access_set(t, n), ..st }
    } else if t.kind(n) == "enumerator"@ {
        with_enumerator(st, t, c, f, n)
    } else {
        st
    }
}

/// The state after a record or an enumeration that is defined in the type of a
/// declaration. Without a body it is only a use of the type.
pub open spec fn read_inline(t: TreeView, c: ReadContext, f: FrameView, st: ReadState, n: usize) -> ReadState
    decreases t.nodes.len() - n, 3int,
{
    match t.field(n, "type"@) {
        Some(type_node) => if t.field(type_node, "body"@) is None {
            st
        } else if t.kind_among(type_node, RECORD_KINDS@) {
            read_record(t, c, f, st, type_node)
        } else if t.kind(type_node) == "enum_specifier"@ {
            read_enum(t, c, f, st, type_node)
        } else {
            st
        },
        None => st,
    }
}

/// The state after a record. The members of an anonymous one inside another
/// record are members of that; an anonymous one elsewhere names nothing.
pub open spec fn read_record(t: TreeView, c: ReadContext, f: FrameView, st: ReadState, n: usize) -> ReadState
    decreases t.nodes.len() - n, 2int,
{
    let body = t.field(n, "body"@);
    match t.field(n, "name"@) {
        None => match body {
            Some(b) => if f.member {
                read_in(t, c, f, st, b, declarations_of(t, b).len() as int)
            } else {
                st
            },
            None => st,
        },
        Some(name_node) => {
            let simple = t.text(name_node);
            let qname = named_in(c, f, Seq::empty(), simple, f.linkage);
            let owner = OwnerView::Decl { qualified_name: qname, kind: NodeKind::Class };
            let own = declared(
                st,
                FoundView {
                    is_template: modifiers_of(t, n).is_template,
                    ..simple_decl(
                        NodeKind::Class,
                        qname,
                        simple,
                        t.span(n),
                        t.span(name_node),
                        body is Some,
                        f.linkage,
                        f.owner,
                        record_kind(t, n),
                        st.access,
                    )
                },
            );
            let based = with_bases(own, t, bases_of(t, n), owner, bases_of(t, n).len() as int);
            match body {
                Some(b) => read_inside(
                    t,
                    c,
                    FrameView { parts: f.parts.push(simple), owner, linkage: f.linkage, member: true },
                    based,
                    if record_kind(t, n) == "class"@ {
                        "private"@
                    } else {
                        "public"@
                    },
                    b,
                ),
                None => based,
            }
        },
    }
}

/// The kinds of child that make an enumeration a scope.
pub const SCOPED_MARKS: [&'static str; 2] = ["class", "struct"];

/// The state after an enumeration. One that is no class does not scope its
/// enumerators: they are names of the scope around it.
pub open spec fn read_enum(t: TreeView, c: ReadContext, f: FrameView, st: ReadState, n: usize) -> ReadState
    decreases t.nodes.len() - n, 2int,
{
    let body = t.field(n, "body"@);
    let scoped = t.kid_among(n, SCOPED_MARKS@) is Some;
    match t.field(n, "name"@) {
        Some(name_node) => {
            let simple = t.text(name_node);
            let qname = named_in(c, f, Seq::empty(), simple, f.linkage);
            let own = declared(
                st,
                simple_decl(
                    NodeKind::Class,
                    qname,
                    simple,
                    t.span(n),
                    t.span(name_node),
                    body is Some,
                    f.linkage,
                    f.owner,
                    "enum"@,
                    st.access,
                ),
            );
            match body {
                Some(b) => read_inside(
                    t,
                    c,
                    FrameView {
                        parts: if scoped && simple.len() > 0 {
                            f.parts.push(simple)
                        } else {
                            f.parts
                        },
                        owner: OwnerView::Decl { qualified_name: qname, kind: NodeKind::Class },
                        linkage: f.linkage,
                        member: false,
                    },
                    own,
                    st.access,
                    b,
                ),
                None => own,
            }
        },
        None => match body {
            Some(b) => read_inside(t, c, FrameView { member: false, ..f }, st, st.access, b),
            None => st,
        },
    }
}

/// The facts of a file.
pub open spec fn facts_of(t: TreeView, root: usize, c: ReadContext) -> FactsView {
    let f = FrameView { parts: Seq::empty(), owner: OwnerView::File, linkage: Linkage::External, member: false };
    let st = read_in(
        t,
        c,
        f,
        ReadState {
            access: Seq::empty(),
            declarations: Seq::empty(),
            occurrences: Seq::empty(),
            includes: Seq::empty(),
        },
        root,
        declarations_of(t, root).len() as int,
    );
    FactsView {
        file_rel: c.file_rel,
        declarations: st.declarations,
        occurrences: st.occurrences,
        includes: st.includes,
    }
}

// ---------------------------------------------------------------------------
// Reading
// ---------------------------------------------------------------------------

/// What is known of a file before it is read.
struct Context<'a> {
    dialect: Dialect,
    file_rel: &'a str,
    records: &'a Vec<String>,
}

impl<'a> View for Context<'a> {
    type V = ReadContext;

    closed spec fn view(&self) -> ReadContext {
        ReadContext { dialect: self.dialect, file_rel: self.file_rel@, records: views(self.records@) }
    }
}

/// The scope that declarations stand in.
struct Frame {
    parts: Vec<String>,
    owner: Owner,
    linkage: Linkage,
    member: bool,
}

impl View for Frame {
    type V = FrameView;

    closed spec fn view(&self) -> FrameView {
        FrameView { parts: views(self.parts@), owner: self.owner@, linkage: self.linkage, member: self.member }
    }
}

/// How far reading has come.
struct Reader {
    access: String,
    declarations: Vec<FoundDecl>,
    occurrences: Vec<FoundOccurrence>,
    includes: Vec<FoundInclude>,
}

impl View for Reader {
    type V = ReadState;

    closed spec fn view(&self) -> ReadState {
        ReadState {
            access: self.access@,
            declarations: views(self.declarations@),
            occurrences: views(self.occurrences@),
            includes: views(self.includes@),
        }
    }
}

/// A declaration without specifiers, type and parameters.
fn found_decl(
    kind: NodeKind,
    qualified_name: &str,
    name: &str,
    span: Span,
    name_span: Span,
    defines: bool,
    linkage: Linkage,
    owner: &Owner,
    record_kind: &str,
    access: &str,
) -> (r: FoundDecl)
    ensures
        r@ == simple_decl(
            kind,
            qualified_name@,
            name@,
            span,
            name_span,
            defines,
            linkage,
            owner@,
            record_kind@,
            access@,
        ),
{
    let type_text = String::new();
    let signature = String::new();
    assert(type_text@ =~= Seq::<char>::empty());
    assert(signature@ =~= Seq::<char>::empty());
    FoundDecl {
        kind,
        qualified_name: copy(qualified_name),
        name: copy(name),
        span,
        name_span,
        defines,
        linkage,
        owner: owner.copy(),
        record_kind: copy(record_kind),
        access: copy(access),
        is_static: false,
        is_extern: false,
        is_virtual: false,
        is_template: false,
        type_text,
        signature,
    }
}

/// The text of a node, where there is one.
fn text_at(t: &Syntax, n: Option<usize>) -> (r: String)
    requires
        t@.wf(),
        n is Some ==> n->0 < t@.nodes.len(),
    ensures
        r@ == text_of(t@, n),
{
    match n {
        Some(c) => t.text(c),
        None => {
            let s = String::new();
            assert(s@ =~= Seq::<char>::empty());
            s
        },
    }
}

/// An empty text.
fn nothing() -> (r: String)
    ensures
        r@ == Seq::<char>::empty(),
{
    let s = String::new();
    assert(s@ =~= Seq::<char>::empty());
    s
}

impl Reader {
    /// Adds a declaration.
    fn push_decl(&mut self, d: FoundDecl)
        ensures
            final(self)@ == declared(old(self)@, d@),
    {
        add_item(&mut self.declarations, d);
    }

    /// Adds a place of use.
    fn push_occurrence(&mut self, t: &Syntax, role: &str, n: usize, owner: &Owner)
        requires
            t@.wf(),
            n < t@.nodes.len(),
        ensures
            final(self)@ == used(old(self)@, t@, role@, n, owner@),
    {
        let found = FoundOccurrence { role: copy(role), span: t.span(n), owner: owner.copy(), name: t.text(n) };
        add_item(&mut self.occurrences, found);
    }

    /// Adds the use of the name that a type reduces to.
    fn record_annotation(&mut self, t: &Syntax, type_node: Option<usize>, owner: &Owner)
        requires
            t@.wf(),
            type_node is Some ==> type_node->0 < t@.nodes.len(),
        ensures
            final(self)@ == annotated(old(self)@, t@, type_node, owner@),
    {
        if let Some(n) = type_node {
            if let Some(name) = type_name_node(t, n) {
                self.push_occurrence(t, "annotation", name, owner);
            }
        }
    }
}

/// A name in a scope, behind the scope that a declarator spells.
fn qualify_in(c: &Context, f: &Frame, extra: &Vec<String>, name: &str, linkage: Linkage) -> (r: String)
    ensures
        r@ == named_in(c@, f@, views(extra@), name@, linkage),
{
    let scope = extended(&f.parts, extra);
    qualify(c.file_rel, &scope, name, linkage)
}

/// A name in a scope.
fn qualify_here(c: &Context, f: &Frame, name: &str, linkage: Linkage) -> (r: String)
    ensures
        r@ == named_in(c@, f@, Seq::empty(), name@, linkage),
{
    let none: Vec<String> = Vec::new();
    assert(views(none@) =~= Seq::<Seq<char>>::empty());
    qualify_in(c, f, &none, name, linkage)
}

/// The linkage of a function or of data.
fn data_linkage(c: &Context, f: &Frame, m: Modifiers, is_data: bool, member: bool) -> (r: Linkage)
    ensures
        r == linkage_of(c@, f@, m, is_data, member),
{
    if f.linkage == Linkage::Internal {
        return Linkage::Internal;
    }
    if m.is_extern {
        return Linkage::External;
    }
    if m.is_static && !member {
        return Linkage::Internal;
    }
    if is_data && !member && c.dialect == Dialect::Cpp && m.is_const {
        return Linkage::Internal;
    }
    Linkage::External
}

/// The directive that a node is.
fn read_directive(t: &Syntax, n: usize) -> (r: Option<FoundInclude>)
    requires
        t@.wf(),
        n < t@.nodes.len(),
    ensures
        opt_view(r) == directive(t@, n),
{
    match t.field(n, "path") {
        Some(p) => {
            let mut style = "computed";
            let path = if t.is(p, "system_lib_string") {
                style = "system";
                let text = t.text(p);
                let open = strip_leading(text.as_str(), '<');
                strip_trailing(open.as_str(), '>')
            } else if t.is(p, "string_literal") {
                style = "quoted";
                text_at(t, t.kid_of(p, "string_content"))
            } else {
                t.text(p)
            };
            if path.as_str().is_empty() {
                return None;
            }
            Some(FoundInclude { path, style: copy(style), span: t.span(n) })
        },
        None => None,
    }
}

/// The access level that a specifier sets.
fn read_access(t: &Syntax, n: usize) -> (r: String)
    requires
        t@.wf(),
        n < t@.nodes.len(),
    ensures
        r@ == access_set(t@, n),
{
    let text = t.text(n);
    let bare = trim(text.as_str());
    if same(bare.as_str(), "public") || same(bare.as_str(), "protected") {
        bare
    } else {
        copy("private")
    }
}

/// What kind of record a node is.
fn kind_of_record(t: &Syntax, n: usize) -> (r: &'static str)
    requires
        n < t@.nodes.len(),
    ensures
        r@ == record_kind(t@, n),
{
    if t.is(n, "union_specifier") {
        "union"
    } else if t.is(n, "class_specifier") {
        "class"
    } else {
        "struct"
    }
}

/// Adds the bases of a record.
#[verifier::loop_isolation(false)]
fn read_bases(t: &Syntax, st: &mut Reader, n: usize, owner: &Owner)
    requires
        t@.wf(),
        n < t@.nodes.len(),
    ensures
        final(st)@ == with_bases(old(st)@, t@, bases_of(t@, n), owner@, bases_of(t@, n).len() as int),
{
    if let Some(clause) = t.kid_of(n, "base_class_clause") {
        let bases = t.named_kids(clause);
        let ghost start = st@;
        let mut k: usize = 0;
        while k < bases.len()
            invariant
                k <= bases@.len(),
                st@ == with_bases(start, t@, bases@, owner@, k as int),
            decreases bases@.len() - k,
        {
            let b = bases[k];
            assert(t@.below(clause, b));
            if t.is(b, "access_specifier") {
            } else if t.is(b, "qualified_identifier") {
                let (_, leaf) = split_qualified(t, b);
                st.push_occurrence(t, "base", bare_name(t, leaf), owner);
            } else if let Some(name) = type_name_node(t, b) {
                st.push_occurrence(t, "base", name, owner);
            }
            k += 1;
        }
    }
}

/// Adds the names of a using declaration.
#[verifier::loop_isolation(false)]
fn read_using(t: &Syntax, st: &mut Reader, n: usize, owner: &Owner)
    requires
        t@.wf(),
        n < t@.nodes.len(),
    ensures
        final(st)@ == with_using(old(st)@, t@, t@.named_kids(n), owner@, t@.named_kids(n).len() as int),
{
    let list = t.named_kids(n);
    let ghost start = st@;
    let mut k: usize = 0;
    while k < list.len()
        invariant
            k <= list@.len(),
            st@ == with_using(start, t@, list@, owner@, k as int),
        decreases list@.len() - k,
    {
        let x = list[k];
        assert(t@.below(n, x));
        if t.is(x, "qualified_identifier") {
            let (_, leaf) = split_qualified(t, x);
            st.push_occurrence(t, "read", bare_name(t, leaf), owner);
        } else if t.is(x, "identifier") || t.is(x, "type_identifier") || t.is(x, "namespace_identifier") {
            st.push_occurrence(t, "read", x, owner);
        }
        k += 1;
    }
}

/// The name of a parameter.
fn name_of_param(t: &Syntax, p: usize) -> (r: Option<usize>)
    requires
        t@.wf(),
        p < t@.nodes.len(),
    ensures
        r == param_name(t@, p),
        r is Some ==> r->0 < t@.nodes.len(),
{
    match t.field(p, "declarator") {
        Some(d) => match terminal_declarator(t, d) {
            Some(found) => Some(bare_name(t, found.name)),
            None => None,
        },
        None => None,
    }
}

/// Joins two runs of bytes.
fn join_bytes(a: Vec<u8>, b: &Vec<u8>) -> (r: Vec<u8>)
    ensures
        r@ == a@ + b@,
{
    let mut out = a;
    let mut i: usize = 0;
    assert(a@ + b@.take(0) =~= a@);
    while i < b.len()
        invariant
            i <= b@.len(),
            out@ == a@ + b@.take(i as int),
        decreases b@.len() - i,
    {
        out.push(b[i]);
        assert(b@.take(i + 1) =~= b@.take(i as int).push(b@[i as int]));
        assert(out@ =~= a@ + b@.take(i + 1));
        i += 1;
    }
    assert(b@.take(b@.len() as int) =~= b@);
    out
}

/// The type of a parameter, reduced to one spelling.
fn parameter_type(t: &Syntax, p: usize) -> (r: String)
    requires
        t@.wf(),
        p < t@.nodes.len(),
    ensures
        r@ == param_type(t@, p),
{
    let start = t.start(p);
    let end = match t.field(p, "default_value") {
        Some(v) => t.start(v),
        None => t.end(p),
    };
    if end <= start {
        assert(param_bytes(t@, p).len() == 0);
        return nothing();
    }
    assert(end <= t@.source.len());
    let mut bytes = t.bytes(start, end);
    if let Some(name) = name_of_param(t, p) {
        let a = t.start(name);
        let b = t.end(name);
        assert(t@.nodes[name as int].start <= t@.nodes[name as int].end);
        if a >= start && b <= end {
            let head = t.bytes(start, a);
            let tail = t.bytes(b, end);
            bytes = join_bytes(head, &tail);
        }
    }
    assert(bytes@ == param_bytes(t@, p));
    if bytes.len() == 0 {
        return nothing();
    }
    let raw = decode_lossy(bytes.as_slice());
    let cut = trim_end(raw.as_str());
    let valueless = strip_trailing(cut.as_str(), '=');
    let bare = trim_end(valueless.as_str());
    normalize_type(bare.as_str())
}

/// The parameters of a declarator.
fn parameters(t: &Syntax, carrier: usize) -> (r: Vec<usize>)
    requires
        t@.wf(),
        carrier < t@.nodes.len(),
    ensures
        r@ == params_of(t@, carrier),
        forall|i: int| 0 <= i < r@.len() ==> (#[trigger] r@[i]) < t@.nodes.len(),
{
    match t.field(carrier, "parameters") {
        Some(list) => {
            let kids = t.named_kids(list);
            assert forall|i: int| 0 <= i < kids@.len() implies (#[trigger] kids@[i]) < t@.nodes.len() by {
                assert(t@.below(list, kids@[i]));
            }
            kids
        },
        None => Vec::new(),
    }
}

/// The types of the parameters of a callable, and its qualifiers.
#[verifier::loop_isolation(false)]
fn signature_of(t: &Syntax, carrier: usize) -> (r: String)
    requires
        t@.wf(),
        carrier < t@.nodes.len(),
    ensures
        r@ == signature_text(t@, carrier),
{
    let params = parameters(t, carrier);
    let mut types: Vec<String> = Vec::new();
    let mut i: usize = 0;
    assert(views(types@) =~= Seq::<Seq<char>>::empty());
    while i < params.len()
        invariant
            i <= params@.len(),
            views(types@) == param_types(t@, params@, i as int),
        decreases params@.len() - i,
    {
        let text = parameter_type(t, params[i]);
        if t.is_among(params[i], &PARAMETER_KINDS) && !text.as_str().is_empty() && !same(text.as_str(), "void") {
            add_item(&mut types, text);
        }
        i += 1;
    }
    let kids = t.kids(carrier);
    let mut found: Vec<String> = Vec::new();
    let mut k: usize = 0;
    assert(views(found@) =~= Seq::<Seq<char>>::empty());
    while k < kids.len()
        invariant
            k <= kids@.len(),
            views(found@) == qualifiers_of(t@, kids@, k as int),
        decreases kids@.len() - k,
    {
        assert(t@.below(carrier, kids@[k as int]));
        if t.is(kids[k], "type_qualifier") {
            let text = t.text(kids[k]);
            let bare = trim(text.as_str());
            if !bare.as_str().is_empty() {
                add_item(&mut found, bare);
            }
        }
        k += 1;
    }
    let qualifiers = sort_names(&found);
    let list = join(&types, ",");
    let mut out = concat3("(", list.as_str(), ")");
    let ghost head = out@;
    let mut j: usize = 0;
    while j < qualifiers.len()
        invariant
            j <= qualifiers@.len(),
            out@ == with_qualifiers(head, views(qualifiers@), j as int),
        decreases qualifiers@.len() - j,
    {
        assert(views(qualifiers@)[j as int] == qualifiers@[j as int]@);
        out.append(" ");
        out.append(qualifiers[j].as_str());
        j += 1;
    }
    assert(views(qualifiers@).len() == qualifiers@.len());
    out
}

/// The identity of a callable.
struct CallableId {
    kind: NodeKind,
    qualified_name: String,
    name: String,
    name_span: Span,
    linkage: Linkage,
    signature: String,
    modifiers: Modifiers,
}

impl View for CallableId {
    type V = CallableView;

    closed spec fn view(&self) -> CallableView {
        CallableView {
            kind: self.kind,
            qualified_name: self.qualified_name@,
            name: self.name@,
            name_span: self.name_span,
            linkage: self.linkage,
            signature: self.signature@,
            modifiers: self.modifiers,
        }
    }
}

/// The short name of a callable.
fn callable_name(t: &Syntax, found: &Declared, leaf: usize) -> (r: String)
    requires
        t@.wf(),
        found.ok(t@),
        leaf < t@.nodes.len(),
    ensures
        r@ == callable_text(t@, *found, leaf),
{
    if !t.is(found.name, "operator_cast") {
        return t.text(leaf);
    }
    let start = t.start(found.name);
    let end = match t.field(found.name, "declarator") {
        Some(d) => t.start(d),
        None => t.end(found.name),
    };
    if end <= start {
        return t.text(found.name);
    }
    assert(end <= t@.source.len());
    let bytes = t.bytes(start, end);
    let raw = decode_lossy(bytes.as_slice());
    normalize_type(raw.as_str())
}

/// Tells whether a name with a scope of its own is a member.
fn is_member(c: &Context, f: &Frame, extra: &Vec<String>) -> (r: bool)
    ensures
        r == names_member(c@, f@, views(extra@)),
{
    if extra.len() > 0 {
        let last = extra[extra.len() - 1].as_str();
        assert(views(extra@).last() == last@);
        holds(c.records, last)
    } else {
        f.member
    }
}

/// The identity of a callable.
fn callable_identity(t: &Syntax, c: &Context, f: &Frame, n: usize, found: &Declared) -> (r: CallableId)
    requires
        t@.wf(),
        n < t@.nodes.len(),
        found.ok(t@),
    ensures
        r@ == identity_of(t@, c@, f@, n, *found),
{
    let (extra, end) = split_qualified(t, found.name);
    let leaf = bare_name(t, end);
    let name = callable_name(t, found, leaf);
    let member = is_member(c, f, &extra);
    let m = modifiers(t, n);
    let linkage = data_linkage(c, f, m, false, member);
    let mut signature = nothing();
    if c.dialect == Dialect::Cpp {
        if let Some(carrier) = found.signature_owner(t) {
            signature = signature_of(t, carrier);
        }
    }
    let whole = concat2(name.as_str(), signature.as_str());
    CallableId {
        kind: if member {
            NodeKind::Method
        } else {
            NodeKind::Function
        },
        qualified_name: qualify_in(c, f, &extra, whole.as_str(), linkage),
        name,
        name_span: if t.is(found.name, "operator_cast") {
            t.span(found.name)
        } else {
            t.span(leaf)
        },
        linkage,
        signature,
        modifiers: m,
    }
}

/// Adds one parameter of a callable.
fn read_param(t: &Syntax, st: &mut Reader, p: usize, callable: &str, owner: &Owner, defines: bool)
    requires
        t@.wf(),
        p < t@.nodes.len(),
    ensures
        final(st)@ == with_param(old(st)@, t@, p, callable@, owner@, defines),
{
    if !t.is_among(p, &PARAMETER_KINDS) {
        return;
    }
    let type_node = t.field(p, "type");
    match name_of_param(t, p) {
        None => {
            st.record_annotation(t, type_node, owner);
        },
        Some(name_node) => {
            let name = t.text(name_node);
            if name.as_str().is_empty() {
                return;
            }
            let qname = concat3(callable, ".", name.as_str());
            let empty = nothing();
            let mut d = found_decl(
                NodeKind::Parameter,
                qname.as_str(),
                name.as_str(),
                t.span(p),
                t.span(name_node),
                defines,
                Linkage::Internal,
                owner,
                empty.as_str(),
                empty.as_str(),
            );
            d.type_text = text_at(t, type_node);
            st.push_decl(d);
            let own = Owner::decl(qname.as_str(), NodeKind::Parameter);
            st.record_annotation(t, type_node, &own);
        },
    }
}

/// Adds a callable and its parameters.
#[verifier::loop_isolation(false)]
fn declare_callable(t: &Syntax, f: &Frame, st: &mut Reader, n: usize, found: &Declared, defines: bool, id: &CallableId)
    requires
        t@.wf(),
        n < t@.nodes.len(),
        found.ok(t@),
    ensures
        final(st)@ == with_callable(old(st)@, t@, f@, n, *found, defines, id@),
{
    let type_node = t.field(n, "type");
    let empty = nothing();
    let mut d = found_decl(
        id.kind,
        id.qualified_name.as_str(),
        id.name.as_str(),
        t.span(n),
        id.name_span,
        defines,
        id.linkage,
        &f.owner,
        empty.as_str(),
        st.access.as_str(),
    );
    d.is_static = id.modifiers.is_static;
    d.is_extern = id.modifiers.is_extern;
    d.is_virtual = id.modifiers.is_virtual;
    d.is_template = id.modifiers.is_template;
    d.type_text = text_at(t, type_node);
    d.signature = copy(id.signature.as_str());
    st.push_decl(d);
    let owner = Owner::decl(id.qualified_name.as_str(), id.kind);
    st.record_annotation(t, type_node, &owner);
    if let Some(carrier) = found.signature_owner(t) {
        let params = parameters(t, carrier);
        let ghost typed = st@;
        let mut k: usize = 0;
        while k < params.len()
            invariant
                k <= params@.len(),
                st@ == with_params(typed, t@, params@, id@.qualified_name, owner@, defines, k as int),
            decreases params@.len() - k,
        {
            read_param(t, st, params[k], id.qualified_name.as_str(), &owner, defines);
            k += 1;
        }
    }
}

/// Adds one datum.
fn declare_datum(
    t: &Syntax,
    c: &Context,
    f: &Frame,
    st: &mut Reader,
    n: usize,
    name_node: usize,
    extra: &Vec<String>,
    declarator: usize,
)
    requires
        t@.wf(),
        n < t@.nodes.len(),
        name_node < t@.nodes.len(),
        declarator < t@.nodes.len(),
    ensures
        final(st)@ == with_datum(old(st)@, t@, c@, f@, n, name_node, views(extra@), declarator),
{
    let name = t.text(name_node);
    if name.as_str().is_empty() {
        return;
    }
    let type_node = t.field(n, "type");
    let member = is_member(c, f, extra);
    let kind = if member {
        NodeKind::Attribute
    } else {
        NodeKind::Variable
    };
    let m = modifiers(t, n);
    let linkage = data_linkage(c, f, m, true, member);
    let initialized = t.is(declarator, "init_declarator") || t.field(n, "default_value").is_some();
    let qname = qualify_in(c, f, extra, name.as_str(), linkage);
    let empty = nothing();
    let mut d = found_decl(
        kind,
        qname.as_str(),
        name.as_str(),
        t.span(n),
        t.span(name_node),
        initialized || !m.is_extern,
        linkage,
        &f.owner,
        empty.as_str(),
        st.access.as_str(),
    );
    d.is_static = m.is_static;
    d.is_extern = m.is_extern;
    d.is_template = m.is_template;
    d.type_text = text_at(t, type_node);
    st.push_decl(d);
    let own = Owner::decl(qname.as_str(), kind);
    st.record_annotation(t, type_node, &own);
}

/// Adds what one declarator of a declaration declares.
#[verifier::loop_isolation(false)]
fn read_declarator(t: &Syntax, c: &Context, f: &Frame, st: &mut Reader, n: usize, declarator: usize)
    requires
        t@.wf(),
        n < t@.nodes.len(),
        declarator < t@.nodes.len(),
    ensures
        final(st)@ == with_declarator(old(st)@, t@, c@, f@, n, declarator),
{
    if let Some(found) = terminal_declarator(t, declarator) {
        if found.is_callable(t) {
            let id = callable_identity(t, c, f, n, &found);
            if !id.name.as_str().is_empty() {
                declare_callable(t, f, st, n, &found, false, &id);
            }
        } else if t.is(found.name, "structured_binding_declarator") {
            let names = t.named_kids(found.name);
            let none: Vec<String> = Vec::new();
            assert(views(none@) =~= Seq::<Seq<char>>::empty());
            let ghost start = st@;
            let mut k: usize = 0;
            while k < names.len()
                invariant
                    k <= names@.len(),
                    st@ == with_bound(start, t@, c@, f@, n, names@, declarator, k as int),
                decreases names@.len() - k,
            {
                assert(t@.below(found.name, names@[k as int]));
                declare_datum(t, c, f, st, n, names[k], &none, declarator);
                k += 1;
            }
        } else {
            let (extra, end) = split_qualified(t, found.name);
            let leaf = bare_name(t, end);
            declare_datum(t, c, f, st, n, leaf, &extra, declarator);
        }
    }
}

/// Adds what a declaration declares.
#[verifier::loop_isolation(false)]
fn read_declarators(t: &Syntax, c: &Context, f: &Frame, st: &mut Reader, n: usize)
    requires
        t@.wf(),
        n < t@.nodes.len(),
    ensures
        final(st)@ == with_declarators(
            old(st)@,
            t@,
            c@,
            f@,
            n,
            t@.fields(n, "declarator"@),
            t@.fields(n, "declarator"@).len() as int,
        ),
{
    let list = t.fields(n, "declarator");
    let ghost start = st@;
    let mut k: usize = 0;
    while k < list.len()
        invariant
            k <= list@.len(),
            st@ == with_declarators(start, t@, c@, f@, n, list@, k as int),
        decreases list@.len() - k,
    {
        assert(t@.below(n, list@[k as int]));
        read_declarator(t, c, f, st, n, list[k]);
        k += 1;
    }
}

/// Adds what a typedef names.
#[verifier::loop_isolation(false)]
fn read_typedefs(t: &Syntax, c: &Context, f: &Frame, st: &mut Reader, n: usize)
    requires
        t@.wf(),
        n < t@.nodes.len(),
    ensures
        final(st)@ == with_typedefs(
            old(st)@,
            t@,
            c@,
            f@,
            n,
            t@.fields(n, "declarator"@),
            t@.fields(n, "declarator"@).len() as int,
        ),
{
    let list = t.fields(n, "declarator");
    let type_node = t.field(n, "type");
    let empty = nothing();
    let ghost start = st@;
    let mut k: usize = 0;
    while k < list.len()
        invariant
            k <= list@.len(),
            st@ == with_typedefs(start, t@, c@, f@, n, list@, k as int),
        decreases list@.len() - k,
    {
        assert(t@.below(n, list@[k as int]));
        if let Some(found) = terminal_declarator(t, list[k]) {
            let leaf = bare_name(t, found.name);
            let name = t.text(leaf);
            if !name.as_str().is_empty() {
                let qname = qualify_here(c, f, name.as_str(), f.linkage);
                let mut d = found_decl(
                    NodeKind::TypeAlias,
                    qname.as_str(),
                    name.as_str(),
                    t.span(n),
                    t.span(leaf),
                    true,
                    f.linkage,
                    &f.owner,
                    empty.as_str(),
                    st.access.as_str(),
                );
                d.type_text = text_at(t, type_node);
                st.push_decl(d);
            }
        }
        k += 1;
    }
}

/// Adds an alias.
fn read_alias(t: &Syntax, c: &Context, f: &Frame, st: &mut Reader, n: usize)
    requires
        t@.wf(),
        n < t@.nodes.len(),
    ensures
        final(st)@ == with_alias(old(st)@, t@, c@, f@, n),
{
    if let Some(name_node) = t.field(n, "name") {
        let type_node = t.field(n, "type");
        let name = t.text(name_node);
        let qname = qualify_here(c, f, name.as_str(), f.linkage);
        let empty = nothing();
        let mut d = found_decl(
            NodeKind::TypeAlias,
            qname.as_str(),
            name.as_str(),
            t.span(n),
            t.span(name_node),
            true,
            f.linkage,
            &f.owner,
            empty.as_str(),
            st.access.as_str(),
        );
        d.is_template = modifiers(t, n).is_template;
        d.type_text = text_at(t, type_node);
        st.push_decl(d);
        let own = Owner::decl(qname.as_str(), NodeKind::TypeAlias);
        st.record_annotation(t, type_node, &own);
    }
}

/// Adds a concept.
fn read_concept(t: &Syntax, c: &Context, f: &Frame, st: &mut Reader, n: usize)
    requires
        t@.wf(),
        n < t@.nodes.len(),
    ensures
        final(st)@ == with_concept(old(st)@, t@, c@, f@, n),
{
    if let Some(name_node) = t.field(n, "name") {
        let name = t.text(name_node);
        let qname = qualify_here(c, f, name.as_str(), f.linkage);
        let mut d = found_decl(
            NodeKind::TypeAlias,
            qname.as_str(),
            name.as_str(),
            t.span(n),
            t.span(name_node),
            true,
            f.linkage,
            &f.owner,
            "concept",
            st.access.as_str(),
        );
        d.is_template = true;
        st.push_decl(d);
    }
}

/// Adds an enumerator.
fn read_enumerator(t: &Syntax, c: &Context, f: &Frame, st: &mut Reader, n: usize)
    requires
        t@.wf(),
        n < t@.nodes.len(),
    ensures
        final(st)@ == with_enumerator(old(st)@, t@, c@, f@, n),
{
    if let Some(name_node) = t.field(n, "name") {
        let name = t.text(name_node);
        let qname = qualify_here(c, f, name.as_str(), f.linkage);
        let d = found_decl(
            NodeKind::Attribute,
            qname.as_str(),
            name.as_str(),
            t.span(n),
            t.span(name_node),
            true,
            f.linkage,
            &f.owner,
            "enumerator",
            st.access.as_str(),
        );
        st.push_decl(d);
    }
}

/// The name token of a callee.
fn called_name(t: &Syntax, n: usize) -> (r: Option<usize>)
    requires
        t@.wf(),
        n < t@.nodes.len(),
    ensures
        r == callee_name(t@, n),
        r is Some ==> r->0 < t@.nodes.len(),
{
    if t.is(n, "identifier") {
        return Some(n);
    }
    if t.is(n, "field_expression") {
        return match t.field(n, "field") {
            Some(field) => Some(bare_name(t, field)),
            None => None,
        };
    }
    if t.is(n, "qualified_identifier") {
        let (_, leaf) = split_qualified(t, n);
        return Some(bare_name(t, leaf));
    }
    if t.is(n, "template_function") || t.is(n, "template_method") {
        return Some(bare_name(t, n));
    }
    None
}

/// Adds the use that a node is.
fn read_use(t: &Syntax, st: &mut Reader, n: usize, owner: &Owner)
    requires
        t@.wf(),
        n < t@.nodes.len(),
    ensures
        final(st)@ == (match use_at(t@, n) {
            Some((role, name)) => used(old(st)@, t@, role, name, owner@),
            None => old(st)@,
        }),
{
    if t.is(n, "call_expression") {
        if let Some(function) = t.field(n, "function") {
            if let Some(name) = called_name(t, function) {
                st.push_occurrence(t, "call", name, owner);
            }
        }
    } else if t.is(n, "new_expression") {
        if let Some(type_node) = t.field(n, "type") {
            if let Some(name) = type_name_node(t, type_node) {
                st.push_occurrence(t, "call", name, owner);
            }
        }
    } else if t.is(n, "field_expression") && !is_callee(t, n) {
        if let Some(field) = t.field(n, "field") {
            let name = bare_name(t, field);
            if is_write_target(t, n) {
                st.push_occurrence(t, "write", name, owner);
            } else {
                st.push_occurrence(t, "read", name, owner);
            }
        }
    }
}

/// Adds the uses in a scope.
#[verifier::loop_isolation(false)]
fn collect_body(t: &Syntax, st: &mut Reader, scope: usize, owner: &Owner)
    requires
        t@.wf(),
        scope < t@.nodes.len(),
    ensures
        final(st)@ == with_body(old(st)@, t@, scope, owner@),
{
    let list = descendants(t, scope);
    let ghost start = st@;
    let mut k: usize = 0;
    while k < list.len()
        invariant
            k <= list@.len(),
            st@ == with_uses(start, t@, list@, owner@, k as int),
        decreases list@.len() - k,
    {
        read_use(t, st, list[k], owner);
        k += 1;
    }
}

/// Adds the members that initializers write, and what their values use.
#[verifier::loop_isolation(false)]
fn collect_initializers(t: &Syntax, st: &mut Reader, list_node: usize, owner: &Owner)
    requires
        t@.wf(),
        list_node < t@.nodes.len(),
    ensures
        final(st)@ == with_body(
            with_initializers(
                old(st)@,
                t@,
                t@.named_kids(list_node),
                owner@,
                t@.named_kids(list_node).len() as int,
            ),
            t@,
            list_node,
            owner@,
        ),
{
    let list = t.named_kids(list_node);
    let ghost start = st@;
    let mut k: usize = 0;
    while k < list.len()
        invariant
            k <= list@.len(),
            st@ == with_initializers(start, t@, list@, owner@, k as int),
        decreases list@.len() - k,
    {
        let x = list[k];
        assert(t@.below(list_node, x));
        if t.is(x, "field_initializer") {
            let kids = t.named_kids(x);
            if kids.len() > 0 {
                let first = kids[0];
                assert(t@.below(x, first));
                if t.is(first, "field_identifier") || t.is(first, "identifier") {
                    st.push_occurrence(t, "write", first, owner);
                }
            }
        }
        k += 1;
    }
    collect_body(t, st, list_node, owner);
}

/// Adds a function that is defined, and what its body uses.
fn read_function(t: &Syntax, c: &Context, f: &Frame, st: &mut Reader, n: usize)
    requires
        t@.wf(),
        n < t@.nodes.len(),
    ensures
        final(st)@ == with_function(old(st)@, t@, c@, f@, n),
{
    if let Some(declarator) = t.field(n, "declarator") {
        if let Some(found) = terminal_declarator(t, declarator) {
            let id = callable_identity(t, c, f, n, &found);
            if id.name.as_str().is_empty() {
                return;
            }
            let owner = Owner::decl(id.qualified_name.as_str(), id.kind);
            declare_callable(t, f, st, n, &found, true, &id);
            if let Some(list) = t.kid_of(n, "field_initializer_list") {
                collect_initializers(t, st, list, &owner);
            }
            if let Some(body) = t.field(n, "body") {
                collect_body(t, st, body, &owner);
            }
        }
    }
}

/// Reads the declarations of a container.
#[verifier::loop_isolation(false)]
fn walk(t: &Syntax, c: &Context, f: &Frame, st: &mut Reader, container: usize)
    requires
        t@.wf(),
        container < t@.nodes.len(),
    ensures
        final(st)@ == read_in(t@, c@, f@, old(st)@, container, declarations_of(t@, container).len() as int),
    decreases t@.nodes.len() - container, 5int,
{
    let list = declarations(t, container);
    let ghost start = st@;
    let mut k: usize = 0;
    while k < list.len()
        invariant
            k <= list@.len(),
            st@ == read_in(t@, c@, f@, start, container, k as int),
        decreases list@.len() - k,
    {
        assert(t@.below(container, list@[k as int]));
        dispatch(t, c, f, st, list[k]);
        k += 1;
    }
}

/// Reads everything in a container, and goes back to the scope around it.
fn walk_inside(t: &Syntax, c: &Context, f: &Frame, st: &mut Reader, access: &str, body: usize)
    requires
        t@.wf(),
        body < t@.nodes.len(),
    ensures
        final(st)@ == read_inside(t@, c@, f@, old(st)@, access@, body),
    decreases t@.nodes.len() - body, 6int,
{
    let mut outer = copy(access);
    std::mem::swap(&mut outer, &mut st.access);
    walk(t, c, f, st, body);
    st.access = outer;
}

/// Reads one declaration.
fn dispatch(t: &Syntax, c: &Context, f: &Frame, st: &mut Reader, n: usize)
    requires
        t@.wf(),
        n < t@.nodes.len(),
    ensures
        final(st)@ == read_at(t@, c@, f@, old(st)@, n),
    decreases t@.nodes.len() - n, 4int,
{
    if t.is(n, "preproc_include") {
        if let Some(i) = read_directive(t, n) {
            add_item(&mut st.includes, i);
        }
    } else if t.is(n, "namespace_definition") {
        let parts = namespace_components(t, n);
        assert(views(parts@).len() == parts@.len());
        if let Some(body) = t.field(n, "body") {
            let inner = Frame {
                parts: extended(&f.parts, &parts),
                owner: f.owner.copy(),
                linkage: if parts.len() == 0 {
                    Linkage::Internal
                } else {
                    f.linkage
                },
                member: false,
            };
            let empty = nothing();
            walk_inside(t, c, &inner, st, empty.as_str(), body);
        }
    } else if t.is(n, "function_definition") {
        read_function(t, c, f, st, n);
    } else if t.is(n, "declaration") || t.is(n, "field_declaration") {
        declare_inline_type(t, c, f, st, n);
        read_declarators(t, c, f, st, n);
    } else if t.is(n, "type_definition") {
        declare_inline_type(t, c, f, st, n);
        read_typedefs(t, c, f, st, n);
    } else if t.is_among(n, &RECORD_KINDS) {
        on_record(t, c, f, st, n);
    } else if t.is(n, "enum_specifier") {
        on_enum(t, c, f, st, n);
    } else if t.is(n, "alias_declaration") {
        read_alias(t, c, f, st, n);
    } else if t.is(n, "concept_definition") {
        read_concept(t, c, f, st, n);
    } else if t.is(n, "using_declaration") {
        read_using(t, st, n, &f.owner);
    } else if t.is(n, "access_specifier") {
        st.access = read_access(t, n);
    } else if t.is(n, "enumerator") {
        read_enumerator(t, c, f, st, n);
    }
}

/// Reads a record or an enumeration that is defined in the type of a
/// declaration.
fn declare_inline_type(t: &Syntax, c: &Context, f: &Frame, st: &mut Reader, n: usize)
    requires
        t@.wf(),
        n < t@.nodes.len(),
    ensures
        final(st)@ == read_inline(t@, c@, f@, old(st)@, n),
    decreases t@.nodes.len() - n, 3int,
{
    if let Some(type_node) = t.field(n, "type") {
        if t.field(type_node, "body").is_none() {
            return;
        }
        if t.is_among(type_node, &RECORD_KINDS) {
            on_record(t, c, f, st, type_node);
        } else if t.is(type_node, "enum_specifier") {
            on_enum(t, c, f, st, type_node);
        }
    }
}

/// Reads a record.
fn on_record(t: &Syntax, c: &Context, f: &Frame, st: &mut Reader, n: usize)
    requires
        t@.wf(),
        n < t@.nodes.len(),
    ensures
        final(st)@ == read_record(t@, c@, f@, old(st)@, n),
    decreases t@.nodes.len() - n, 2int,
{
    let body = t.field(n, "body");
    match t.field(n, "name") {
        None => {
            if f.member {
                if let Some(b) = body {
                    walk(t, c, f, st, b);
                }
            }
        },
        Some(name_node) => {
            let simple = t.text(name_node);
            let qname = qualify_here(c, f, simple.as_str(), f.linkage);
            let kind = kind_of_record(t, n);
            let mut d = found_decl(
                NodeKind::Class,
                qname.as_str(),
                simple.as_str(),
                t.span(n),
                t.span(name_node),
                body.is_some(),
                f.linkage,
                &f.owner,
                kind,
                st.access.as_str(),
            );
            d.is_template = modifiers(t, n).is_template;
            st.push_decl(d);
            let owner = Owner::decl(qname.as_str(), NodeKind::Class);
            read_bases(t, st, n, &owner);
            if let Some(b) = body {
                let mut parts = copy_all(&f.parts);
                add_item(&mut parts, simple);
                let inner = Frame { parts, owner, linkage: f.linkage, member: true };
                let access = if same(kind, "class") {
                    "private"
                } else {
                    "public"
                };
                walk_inside(t, c, &inner, st, access, b);
            }
        },
    }
}

/// Reads an enumeration.
fn on_enum(t: &Syntax, c: &Context, f: &Frame, st: &mut Reader, n: usize)
    requires
        t@.wf(),
        n < t@.nodes.len(),
    ensures
        final(st)@ == read_enum(t@, c@, f@, old(st)@, n),
    decreases t@.nodes.len() - n, 2int,
{
    let body = t.field(n, "body");
    let scoped = t.kid_among(n, &SCOPED_MARKS).is_some();
    let access = copy(st.access.as_str());
    let mut parts = copy_all(&f.parts);
    match t.field(n, "name") {
        Some(name_node) => {
            let simple = t.text(name_node);
            let qname = qualify_here(c, f, simple.as_str(), f.linkage);
            let d = found_decl(
                NodeKind::Class,
                qname.as_str(),
                simple.as_str(),
                t.span(n),
                t.span(name_node),
                body.is_some(),
                f.linkage,
                &f.owner,
                "enum",
                access.as_str(),
            );
            st.push_decl(d);
            if let Some(b) = body {
                if scoped && !simple.as_str().is_empty() {
                    add_item(&mut parts, simple);
                }
                let owner = Owner::decl(qname.as_str(), NodeKind::Class);
                let inner = Frame { parts, owner, linkage: f.linkage, member: false };
                walk_inside(t, c, &inner, st, access.as_str(), b);
            }
        },
        None => {
            if let Some(b) = body {
                let inner = Frame { parts, owner: f.owner.copy(), linkage: f.linkage, member: false };
                walk_inside(t, c, &inner, st, access.as_str(), b);
            }
        },
    }
}

/// Reads a file into its facts. The records are those of all files of the root.
pub fn read_file(t: &Syntax, root: usize, dialect: Dialect, file_rel: &str, records: &Vec<String>) -> (r: FileFacts)
    requires
        t@.wf(),
        root < t@.nodes.len(),
    ensures
        r@ == facts_of(t@, root, (ReadContext { dialect, file_rel: file_rel@, records: views(records@) })),
{
    let c = Context { dialect, file_rel, records };
    let f = Frame { parts: Vec::new(), owner: Owner::File, linkage: Linkage::External, member: false };
    let mut st = Reader {
        access: nothing(),
        declarations: Vec::new(),
        occurrences: Vec::new(),
        includes: Vec::new(),
    };
    assert(f@.parts =~= Seq::<Seq<char>>::empty());
    assert(st@.declarations =~= Seq::<FoundView>::empty());
    assert(st@.occurrences =~= Seq::<UseView>::empty());
    assert(st@.includes =~= Seq::<IncludeView>::empty());
    walk(t, &c, &f, &mut st, root);
    FileFacts {
        file_rel: copy(file_rel),
        declarations: st.declarations,
        occurrences: st.occurrences,
        includes: st.includes,
    }
}

}
