//! What the reading of C and C++ sources promises.

use vstd::prelude::*;

use crate::adapter::edge_of_role;
use crate::cfamily::adapter::{family_step, FamilyPass};
use crate::cfamily::declarators::{
    bare, declarations_of, declared_are_below, leaf_name, modifiers_of, namespace_parts, spelled_scope, terminal,
    type_leaf, Modifiers,
};
use crate::cfamily::emitter::owner_id;
use crate::cfamily::headers::{qualified, Linkage};
use crate::cfamily::reader::{
    annotated, base_name, bases_of, declared, identity_of, linkage_of, named_in, param_name, read_at, read_enum,
    read_in, read_inline, read_inside, read_record, record_kind, use_at, with_bases, with_body, with_bound,
    with_callable, with_datum, with_declarator, with_declarators, with_function, with_initializers, with_param,
    with_params, with_typedefs, with_uses, with_using, CallableView, FrameView, ReadContext, ReadState,
    PARAMETER_KINDS,
};
use crate::cfamily::visitor::{FoundView, OwnerView, UseView, RECORD_KINDS};
use crate::cfamily::Dialect;
use crate::ids::kind_id;
use crate::node::NodeKind;
use crate::relation::RelationKind;
use crate::selection::goes_on;
use crate::strings::{trimmed, without_leading, without_trailing};
use crate::tree::{group_tree, TreeView};
use crate::walk::descend;

verus! {

broadcast use group_tree;

// ---------------------------------------------------------------------------
// Kinds of node
// ---------------------------------------------------------------------------

/// The kinds of node that are read differ.
proof fn kinds_differ()
    ensures
        "access_specifier"@.len() == 16,
        "alias_declaration"@.len() == 17,
        "call_expression"@.len() == 15,
        "class_specifier"@.len() == 15,
        "concept_definition"@.len() == 18,
        "declaration"@.len() == 11,
        "enum_specifier"@.len() == 14,
        "enumerator"@.len() == 10,
        "field_declaration"@.len() == 17,
        "field_expression"@.len() == 16,
        "function_definition"@.len() == 19,
        "identifier"@.len() == 10,
        "namespace_definition"@.len() == 20,
        "namespace_identifier"@.len() == 20,
        "new_expression"@.len() == 14,
        "preproc_include"@.len() == 15,
        "qualified_identifier"@.len() == 20,
        "struct_specifier"@.len() == 16,
        "type_definition"@.len() == 15,
        "type_identifier"@.len() == 15,
        "union_specifier"@.len() == 15,
        "using_declaration"@.len() == 17,
        "access_specifier"@ != "field_expression"@,
        "access_specifier"@ != "struct_specifier"@,
        "alias_declaration"@ != "field_declaration"@,
        "alias_declaration"@ != "using_declaration"@,
        "call_expression"@ != "class_specifier"@,
        "call_expression"@ != "preproc_include"@,
        "call_expression"@ != "type_definition"@,
        "call_expression"@ != "type_identifier"@,
        "call_expression"@ != "union_specifier"@,
        "class_specifier"@ != "preproc_include"@,
        "class_specifier"@ != "type_definition"@,
        "class_specifier"@ != "type_identifier"@,
        "class_specifier"@ != "union_specifier"@,
        "enum_specifier"@ != "new_expression"@,
        "enumerator"@ != "identifier"@,
        "field_declaration"@ != "using_declaration"@,
        "field_expression"@ != "struct_specifier"@,
        "namespace_definition"@ != "namespace_identifier"@,
        "namespace_definition"@ != "qualified_identifier"@,
        "namespace_identifier"@ != "qualified_identifier"@,
        "preproc_include"@ != "type_definition"@,
        "preproc_include"@ != "type_identifier"@,
        "preproc_include"@ != "union_specifier"@,
        "type_definition"@ != "type_identifier"@,
        "type_definition"@ != "union_specifier"@,
        "type_identifier"@ != "union_specifier"@,
{
    reveal_strlit("access_specifier");
    reveal_strlit("alias_declaration");
    reveal_strlit("call_expression");
    reveal_strlit("class_specifier");
    reveal_strlit("concept_definition");
    reveal_strlit("declaration");
    reveal_strlit("enum_specifier");
    reveal_strlit("enumerator");
    reveal_strlit("field_declaration");
    reveal_strlit("field_expression");
    reveal_strlit("function_definition");
    reveal_strlit("identifier");
    reveal_strlit("namespace_definition");
    reveal_strlit("namespace_identifier");
    reveal_strlit("new_expression");
    reveal_strlit("preproc_include");
    reveal_strlit("qualified_identifier");
    reveal_strlit("struct_specifier");
    reveal_strlit("type_definition");
    reveal_strlit("type_identifier");
    reveal_strlit("union_specifier");
    reveal_strlit("using_declaration");
    assert("access_specifier"@[0] != "field_expression"@[0]);
    assert("access_specifier"@[0] != "struct_specifier"@[0]);
    assert("alias_declaration"@[0] != "field_declaration"@[0]);
    assert("alias_declaration"@[0] != "using_declaration"@[0]);
    assert("call_expression"@[1] != "class_specifier"@[1]);
    assert("call_expression"@[0] != "preproc_include"@[0]);
    assert("call_expression"@[0] != "type_definition"@[0]);
    assert("call_expression"@[0] != "type_identifier"@[0]);
    assert("call_expression"@[0] != "union_specifier"@[0]);
    assert("class_specifier"@[0] != "preproc_include"@[0]);
    assert("class_specifier"@[0] != "type_definition"@[0]);
    assert("class_specifier"@[0] != "type_identifier"@[0]);
    assert("class_specifier"@[0] != "union_specifier"@[0]);
    assert("enum_specifier"@[0] != "new_expression"@[0]);
    assert("enumerator"@[0] != "identifier"@[0]);
    assert("field_declaration"@[0] != "using_declaration"@[0]);
    assert("field_expression"@[0] != "struct_specifier"@[0]);
    assert("namespace_definition"@[10] != "namespace_identifier"@[10]);
    assert("namespace_definition"@[0] != "qualified_identifier"@[0]);
    assert("namespace_identifier"@[0] != "qualified_identifier"@[0]);
    assert("preproc_include"@[0] != "type_definition"@[0]);
    assert("preproc_include"@[0] != "type_identifier"@[0]);
    assert("preproc_include"@[0] != "union_specifier"@[0]);
    assert("type_definition"@[5] != "type_identifier"@[5]);
    assert("type_definition"@[0] != "union_specifier"@[0]);
    assert("type_identifier"@[0] != "union_specifier"@[0]);
}

/// A record is nothing else.
proof fn records_are_nothing_else(t: TreeView, n: usize)
    requires
        t.kind_among(n, RECORD_KINDS@),
    ensures
        t.kind(n) == "struct_specifier"@ || t.kind(n) == "union_specifier"@ || t.kind(n) == "class_specifier"@,
{
    assert(RECORD_KINDS@[0]@ == "struct_specifier"@ && RECORD_KINDS@[1]@ == "union_specifier"@ && RECORD_KINDS@[2]@
        == "class_specifier"@);
}

/// What is of none of their kinds is no record.
proof fn records_are_three(t: TreeView, n: usize)
    ensures
        t.kind_among(n, RECORD_KINDS@) <==> t.kind(n) == "struct_specifier"@ || t.kind(n) == "union_specifier"@ || t.kind(n)
            == "class_specifier"@,
{
    let all = RECORD_KINDS@;
    assert(all[0]@ == "struct_specifier"@ && all[1]@ == "union_specifier"@ && all[2]@ == "class_specifier"@);
}

// ---------------------------------------------------------------------------
// Reading only adds
// ---------------------------------------------------------------------------

/// Whether a state holds all that another one holds, in its place.
pub open spec fn grows(a: ReadState, b: ReadState) -> bool {
    goes_on(a.declarations, b.declarations) && goes_on(a.occurrences, b.occurrences) && goes_on(a.includes, b.includes)
}

proof fn annotated_grows(st: ReadState, t: TreeView, type_node: Option<usize>, owner: OwnerView)
    ensures
        grows(st, annotated(st, t, type_node, owner)),
{
}

proof fn bases_grow(st: ReadState, t: TreeView, bases: Seq<usize>, owner: OwnerView, k: int)
    ensures
        grows(st, with_bases(st, t, bases, owner, k)),
    decreases k,
{
    if 0 < k <= bases.len() {
        bases_grow(st, t, bases, owner, k - 1);
    }
}

proof fn using_grows(st: ReadState, t: TreeView, list: Seq<usize>, owner: OwnerView, k: int)
    ensures
        grows(st, with_using(st, t, list, owner, k)),
    decreases k,
{
    if 0 < k <= list.len() {
        using_grows(st, t, list, owner, k - 1);
    }
}

proof fn params_grow(st: ReadState, t: TreeView, params: Seq<usize>, callable: Seq<char>, owner: OwnerView, defines: bool, k: int)
    ensures
        grows(st, with_params(st, t, params, callable, owner, defines, k)),
    decreases k,
{
    if 0 < k <= params.len() {
        params_grow(st, t, params, callable, owner, defines, k - 1);
        let earlier = with_params(st, t, params, callable, owner, defines, k - 1);
        assert(grows(earlier, with_param(earlier, t, params[k - 1], callable, owner, defines)));
    }
}

proof fn callable_grows(
    st: ReadState,
    t: TreeView,
    f: FrameView,
    n: usize,
    found: crate::cfamily::declarators::Declared,
    defines: bool,
    id: CallableView,
)
    ensures
        grows(st, with_callable(st, t, f, n, found, defines, id)),
        with_callable(st, t, f, n, found, defines, id).declarations.len() > st.declarations.len(),
        ({
            let d = with_callable(st, t, f, n, found, defines, id).declarations[st.declarations.len() as int];
            &&& d.kind == id.kind
            &&& d.qualified_name == id.qualified_name
            &&& d.name == id.name
            &&& d.defines == defines
            &&& d.linkage == id.linkage
            &&& d.owner == f.owner
            &&& d.span == t.span(n)
            &&& d.name_span == id.name_span
            &&& d.signature == id.signature
        }),
{
    let whole = with_callable(st, t, f, n, found, defines, id);
    let owner = OwnerView::Decl { qualified_name: id.qualified_name, kind: id.kind };
    if found.carrier(t) is Some {
        let params = crate::cfamily::reader::params_of(t, found.carrier(t)->0);
        let bare_state = with_callable(
            st,
            t,
            f,
            n,
            crate::cfamily::declarators::Declared { name: found.name, function: None, indirect: false },
            defines,
            id,
        );
        let own = declared(
            st,
            FoundView {
                is_static: id.modifiers.is_static,
                is_extern: id.modifiers.is_extern,
                is_virtual: id.modifiers.is_virtual,
                is_template: id.modifiers.is_template,
                type_text: crate::cfamily::reader::text_of(t, t.field(n, "type"@)),
                signature: id.signature,
                ..crate::cfamily::reader::simple_decl(
                    id.kind,
                    id.qualified_name,
                    id.name,
                    t.span(n),
                    id.name_span,
                    defines,
                    id.linkage,
                    f.owner,
                    Seq::empty(),
                    st.access,
                )
            },
        );
        let typed = annotated(own, t, t.field(n, "type"@), owner);
        params_grow(typed, t, params, id.qualified_name, owner, defines, params.len() as int);
        assert(grows(own, typed));
        assert(own.declarations[st.declarations.len() as int] == typed.declarations[st.declarations.len() as int]);
        assert(whole == with_params(typed, t, params, id.qualified_name, owner, defines, params.len() as int));
    }
}

proof fn bound_grow(
    st: ReadState,
    t: TreeView,
    c: ReadContext,
    f: FrameView,
    n: usize,
    names: Seq<usize>,
    declarator: usize,
    k: int,
)
    ensures
        grows(st, with_bound(st, t, c, f, n, names, declarator, k)),
    decreases k,
{
    if 0 < k <= names.len() {
        bound_grow(st, t, c, f, n, names, declarator, k - 1);
    }
}

proof fn declarator_grows(st: ReadState, t: TreeView, c: ReadContext, f: FrameView, n: usize, declarator: usize)
    ensures
        grows(st, with_declarator(st, t, c, f, n, declarator)),
{
    if terminal(t, declarator) is Some {
        let found = terminal(t, declarator)->0;
        callable_grows(st, t, f, n, found, false, identity_of(t, c, f, n, found));
        let names = t.named_kids(found.name);
        bound_grow(st, t, c, f, n, names, declarator, names.len() as int);
    }
}

proof fn declarators_grow(st: ReadState, t: TreeView, c: ReadContext, f: FrameView, n: usize, list: Seq<usize>, k: int)
    ensures
        grows(st, with_declarators(st, t, c, f, n, list, k)),
    decreases k,
{
    if 0 < k <= list.len() {
        declarators_grow(st, t, c, f, n, list, k - 1);
        declarator_grows(with_declarators(st, t, c, f, n, list, k - 1), t, c, f, n, list[k - 1]);
    }
}

proof fn typedefs_grow(st: ReadState, t: TreeView, c: ReadContext, f: FrameView, n: usize, list: Seq<usize>, k: int)
    ensures
        grows(st, with_typedefs(st, t, c, f, n, list, k)),
    decreases k,
{
    if 0 < k <= list.len() {
        typedefs_grow(st, t, c, f, n, list, k - 1);
    }
}

proof fn uses_grow(st: ReadState, t: TreeView, list: Seq<usize>, owner: OwnerView, k: int)
    ensures
        grows(st, with_uses(st, t, list, owner, k)),
        with_uses(st, t, list, owner, k).declarations == st.declarations,
    decreases k,
{
    if 0 < k <= list.len() {
        uses_grow(st, t, list, owner, k - 1);
    }
}

proof fn initializers_grow(st: ReadState, t: TreeView, list: Seq<usize>, owner: OwnerView, k: int)
    ensures
        grows(st, with_initializers(st, t, list, owner, k)),
    decreases k,
{
    if 0 < k <= list.len() {
        initializers_grow(st, t, list, owner, k - 1);
    }
}

proof fn function_grows(st: ReadState, t: TreeView, c: ReadContext, f: FrameView, n: usize)
    ensures
        grows(st, with_function(st, t, c, f, n)),
{
    if t.field(n, "declarator"@) is Some {
        let declarator = t.field(n, "declarator"@)->0;
        if terminal(t, declarator) is Some {
            let found = terminal(t, declarator)->0;
            let id = identity_of(t, c, f, n, found);
            function_parts_grow(st, t, c, f, n, found, id);
        }
    }
}

/// What a function that is defined adds: itself, and then what it uses.
proof fn function_parts_grow(
    st: ReadState,
    t: TreeView,
    c: ReadContext,
    f: FrameView,
    n: usize,
    found: crate::cfamily::declarators::Declared,
    id: CallableView,
)
    requires
        t.field(n, "declarator"@) is Some,
        terminal(t, t.field(n, "declarator"@)->0) == Some(found),
        id == identity_of(t, c, f, n, found),
    ensures
        id.name.len() > 0 ==> grows(with_callable(st, t, f, n, found, true, id), with_function(st, t, c, f, n)),
        grows(st, with_function(st, t, c, f, n)),
{
    callable_grows(st, t, f, n, found, true, id);
    let owner = OwnerView::Decl { qualified_name: id.qualified_name, kind: id.kind };
    let own = with_callable(st, t, f, n, found, true, id);
    let started = match t.kid_of(n, "field_initializer_list"@) {
        Some(list) => {
            let set = with_initializers(own, t, t.named_kids(list), owner, t.named_kids(list).len() as int);
            initializers_grow(own, t, t.named_kids(list), owner, t.named_kids(list).len() as int);
            uses_grow(set, t, descend(t, list), owner, descend(t, list).len() as int);
            with_body(set, t, list, owner)
        },
        None => own,
    };
    if t.field(n, "body"@) is Some {
        let body = t.field(n, "body"@)->0;
        uses_grow(started, t, descend(t, body), owner, descend(t, body).len() as int);
    }
}

proof fn in_grows(t: TreeView, c: ReadContext, f: FrameView, st: ReadState, container: usize, k: int)
    ensures
        grows(st, read_in(t, c, f, st, container, k)),
    decreases t.nodes.len() - container, k,
{
    let list = declarations_of(t, container);
    if 0 < k <= list.len() {
        declared_are_below(t, container, t.kids(container).len() as int);
        in_grows(t, c, f, st, container, k - 1);
        at_grows(t, c, f, read_in(t, c, f, st, container, k - 1), list[k - 1]);
    }
}

proof fn inside_grows(t: TreeView, c: ReadContext, f: FrameView, st: ReadState, access: Seq<char>, body: usize)
    ensures
        grows(st, read_inside(t, c, f, st, access, body)),
    decreases t.nodes.len() - body, declarations_of(t, body).len() + 1,
{
    in_grows(t, c, f, ReadState { access, ..st }, body, declarations_of(t, body).len() as int);
}

/// Reading a declaration keeps all that was read before it.
pub proof fn at_grows(t: TreeView, c: ReadContext, f: FrameView, st: ReadState, n: usize)
    ensures
        grows(st, read_at(t, c, f, st, n)),
    decreases t.nodes.len() - n, 4int,
{
    kinds_differ();
    if t.kind(n) == "namespace_definition"@ {
        if t.field(n, "body"@) is Some {
            let parts = namespace_parts(t, n);
            let inner = FrameView {
                parts: f.parts + parts,
                owner: f.owner,
                linkage: if parts.len() == 0 {
                    Linkage::Internal
                } else {
                    f.linkage
                },
                member: false,
            };
            inside_grows(t, c, inner, st, Seq::empty(), t.field(n, "body"@)->0);
        }
    } else if t.kind(n) == "function_definition"@ {
        function_grows(st, t, c, f, n);
    } else if t.kind(n) == "declaration"@ || t.kind(n) == "field_declaration"@ {
        let list = t.fields(n, "declarator"@);
        inline_grows(t, c, f, st, n);
        declarators_grow(read_inline(t, c, f, st, n), t, c, f, n, list, list.len() as int);
    } else if t.kind(n) == "type_definition"@ {
        let list = t.fields(n, "declarator"@);
        inline_grows(t, c, f, st, n);
        typedefs_grow(read_inline(t, c, f, st, n), t, c, f, n, list, list.len() as int);
    } else if t.kind_among(n, RECORD_KINDS@) {
        record_grows(t, c, f, st, n);
    } else if t.kind(n) == "enum_specifier"@ {
        enum_grows(t, c, f, st, n);
    } else if t.kind(n) == "using_declaration"@ {
        using_grows(st, t, t.named_kids(n), f.owner, t.named_kids(n).len() as int);
    }
}

proof fn inline_grows(t: TreeView, c: ReadContext, f: FrameView, st: ReadState, n: usize)
    ensures
        grows(st, read_inline(t, c, f, st, n)),
    decreases t.nodes.len() - n, 3int,
{
    if t.field(n, "type"@) is Some {
        record_grows(t, c, f, st, t.field(n, "type"@)->0);
        enum_grows(t, c, f, st, t.field(n, "type"@)->0);
    }
}

/// The declaration of a record.
pub open spec fn record_declared(t: TreeView, c: ReadContext, f: FrameView, n: usize, name_node: usize, d: FoundView) -> bool {
    &&& d.kind == NodeKind::Class
    &&& d.qualified_name == qualified(c.file_rel, f.parts, t.text(name_node), f.linkage)
    &&& d.name == t.text(name_node)
    &&& d.defines == (t.field(n, "body"@) is Some)
    &&& d.owner == f.owner
    &&& d.linkage == f.linkage
    &&& d.span == t.span(n)
    &&& d.name_span == t.span(name_node)
    &&& d.record_kind == (if t.kind(n) == "union_specifier"@ {
        "union"@
    } else if t.kind(n) == "class_specifier"@ {
        "class"@
    } else {
        "struct"@
    })
}

proof fn record_grows(t: TreeView, c: ReadContext, f: FrameView, st: ReadState, n: usize)
    ensures
        grows(st, read_record(t, c, f, st, n)),
        t.field(n, "name"@) matches Some(name_node) ==> {
            let d = st.declarations.len() as int;
            &&& read_record(t, c, f, st, n).declarations.len() > d
            &&& record_declared(t, c, f, n, name_node, read_record(t, c, f, st, n).declarations[d])
            &&& grows(based(t, c, f, st, n, name_node), read_record(t, c, f, st, n))
        },
    decreases t.nodes.len() - n, 2int,
{
    let body = t.field(n, "body"@);
    match t.field(n, "name"@) {
        None => {
            if body is Some {
                in_grows(t, c, f, st, body->0, declarations_of(t, body->0).len() as int);
            }
        },
        Some(name_node) => {
            let simple = t.text(name_node);
            let qname = named_in(c, f, Seq::empty(), simple, f.linkage);
            assert(f.parts + Seq::<Seq<char>>::empty() =~= f.parts);
            let owner = OwnerView::Decl { qualified_name: qname, kind: NodeKind::Class };
            let b = based(t, c, f, st, n, name_node);
            let own = own_record(t, c, f, st, n, name_node);
            bases_grow(own, t, bases_of(t, n), owner, bases_of(t, n).len() as int);
            assert(record_declared(t, c, f, n, name_node, own.declarations[st.declarations.len() as int]));
            assert(b.declarations[st.declarations.len() as int] == own.declarations[st.declarations.len() as int]);
            if body is Some {
                inside_grows(
                    t,
                    c,
                    FrameView { parts: f.parts.push(simple), owner, linkage: f.linkage, member: true },
                    b,
                    if record_kind(t, n) == "class"@ {
                        "private"@
                    } else {
                        "public"@
                    },
                    body->0,
                );
            }
        },
    }
}

/// The state with a record alone.
spec fn own_record(t: TreeView, c: ReadContext, f: FrameView, st: ReadState, n: usize, name_node: usize) -> ReadState {
    declared(
        st,
        FoundView {
            is_template: modifiers_of(t, n).is_template,
            ..crate::cfamily::reader::simple_decl(
                NodeKind::Class,
                named_in(c, f, Seq::empty(), t.text(name_node), f.linkage),
                t.text(name_node),
                t.span(n),
                t.span(name_node),
                t.field(n, "body"@) is Some,
                f.linkage,
                f.owner,
                record_kind(t, n),
                st.access,
            )
        },
    )
}

/// The state with a record and its bases.
pub closed spec fn based(t: TreeView, c: ReadContext, f: FrameView, st: ReadState, n: usize, name_node: usize) -> ReadState {
    with_bases(
        own_record(t, c, f, st, n, name_node),
        t,
        bases_of(t, n),
        OwnerView::Decl {
            qualified_name: named_in(c, f, Seq::empty(), t.text(name_node), f.linkage),
            kind: NodeKind::Class,
        },
        bases_of(t, n).len() as int,
    )
}

proof fn enum_grows(t: TreeView, c: ReadContext, f: FrameView, st: ReadState, n: usize)
    ensures
        grows(st, read_enum(t, c, f, st, n)),
    decreases t.nodes.len() - n, 2int,
{
    let body = t.field(n, "body"@);
    let scoped = t.kid_among(n, crate::cfamily::reader::SCOPED_MARKS@) is Some;
    match t.field(n, "name"@) {
        Some(name_node) => {
            let simple = t.text(name_node);
            let qname = named_in(c, f, Seq::empty(), simple, f.linkage);
            let own = declared(
                st,
                crate::cfamily::reader::simple_decl(
                    NodeKind::Class,
                    qname,
                    simple,
                    t.span(n),
                    t.span(name_node),
                    body is Some,
                    f.linkage,
                    f.owner,
                    "enum"@,
                    st.access,
                ),
            );
            if body is Some {
                inside_grows(
                    t,
                    c,
                    FrameView {
                        parts: if scoped && simple.len() > 0 {
                            f.parts.push(simple)
                        } else {
                            f.parts
                        },
                        owner: OwnerView::Decl { qualified_name: qname, kind: NodeKind::Class },
                        linkage: f.linkage,
                        member: false,
                    },
                    own,
                    st.access,
                    body->0,
                );
            }
        },
        None => {
            if body is Some {
                inside_grows(t, c, FrameView { member: false, ..f }, st, st.access, body->0);
            }
        },
    }
}

// ---------------------------------------------------------------------------
// Records and their bases
// ---------------------------------------------------------------------------

/// Each base of a record that names a type adds one place of use, at the name and
/// owned by the record, that becomes an edge of inheritance; and nothing else is
/// added. `places` are those of the bases that name a type.
pub proof fn bases_are_inherited(st: ReadState, t: TreeView, bases: Seq<usize>, owner: OwnerView, k: int) -> (places: Seq<int>)
    requires
        0 <= k <= bases.len(),
    ensures
        ({
            let after = with_bases(st, t, bases, owner, k);
            let old_len = st.occurrences.len();
            &&& grows(st, after)
            &&& after.declarations == st.declarations
            &&& after.includes == st.includes
            &&& after.occurrences.len() == old_len + places.len()
            &&& forall|i: int| #![trigger places[i]]
                0 <= i < places.len() ==> 0 <= places[i] < k && base_name(t, bases[places[i]]) is Some && ({
                    let name = base_name(t, bases[places[i]])->0;
                    let u = after.occurrences[old_len + i];
                    edge_of_role(u.role) == Some(RelationKind::InheritsFrom) && u.span == t.span(name) && u.name == t.text(
                        name,
                    ) && u.owner == owner
                })
            &&& forall|i: int, j: int| 0 <= i < j < places.len() ==> #[trigger] places[i] < #[trigger] places[j]
            &&& forall|j: int| #[trigger] places.contains(j) <==> 0 <= j < k && base_name(t, bases[j]) is Some
        }),
    decreases k,
{
    reveal_strlit("call");
    reveal_strlit("base");
    assert("call"@[0] != "base"@[0]);
    if k == 0 {
        Seq::empty()
    } else {
        let p = bases_are_inherited(st, t, bases, owner, k - 1);
        if base_name(t, bases[k - 1]) is Some {
            let q = p.push(k - 1);
            assert forall|i: int| 0 <= i < p.len() implies #[trigger] p[i] < k - 1 by {}
            assert forall|j: int| #[trigger] q.contains(j) <==> 0 <= j < k && base_name(t, bases[j]) is Some by {
                if p.contains(j) {
                    let i = choose|i: int| 0 <= i < p.len() && p[i] == j;
                    assert(q[i] == j);
                }
                if j == k - 1 {
                    assert(q[p.len() as int] == j);
                }
                if q.contains(j) && j != k - 1 {
                    let i = choose|i: int| 0 <= i < q.len() && q[i] == j;
                    assert(p[i] == j);
                }
            }
            q
        } else {
            p
        }
    }
}

/// The name of a base: an access level names none, a type by itself is its own name,
/// and a qualified name is named by its end.
pub proof fn bases_have_names(t: TreeView, b: usize)
    ensures
        t.kind(b) == "access_specifier"@ ==> base_name(t, b) is None,
        t.kind(b) == "type_identifier"@ ==> base_name(t, b) == Some(b),
        t.kind(b) == "qualified_identifier"@ ==> base_name(t, b) == Some(bare(t, leaf_name(t, b))),
        t.kind(b) != "access_specifier"@ && t.kind(b) != "qualified_identifier"@ ==> base_name(t, b) == type_leaf(t, b),
{
    kinds_differ();
}

/// A record that is read is declared in its scope, and for every base that it names by
/// a type there is a place of use, owned by the record, that becomes an edge of
/// inheritance.
pub proof fn records_inherit_from_their_bases(
    t: TreeView,
    c: ReadContext,
    f: FrameView,
    st: ReadState,
    n: usize,
    name_node: usize,
    clause: usize,
    j: int,
) -> (i: int)
    requires
        t.kind(n) == "class_specifier"@ || t.kind(n) == "struct_specifier"@ || t.kind(n) == "union_specifier"@,
        t.field(n, "name"@) == Some(name_node),
        t.kid_of(n, "base_class_clause"@) == Some(clause),
        0 <= j < t.named_kids(clause).len(),
        t.kind(t.named_kids(clause)[j]) == "type_identifier"@,
    ensures
        ({
            let after = read_at(t, c, f, st, n);
            let base = t.named_kids(clause)[j];
            let d = after.declarations[st.declarations.len() as int];
            let u = after.occurrences[i];
            &&& after.declarations.len() > st.declarations.len()
            &&& record_declared(t, c, f, n, name_node, d)
            &&& st.occurrences.len() <= i < after.occurrences.len()
            &&& edge_of_role(u.role) == Some(RelationKind::InheritsFrom)
            &&& u.owner == (OwnerView::Decl { qualified_name: d.qualified_name, kind: NodeKind::Class })
            &&& u.name == t.text(base)
            &&& u.span == t.span(base)
        }),
{
    kinds_differ();
    records_are_three(t, n);
    record_grows(t, c, f, st, n);
    let base = t.named_kids(clause)[j];
    bases_have_names(t, base);
    let own = own_record(t, c, f, st, n, name_node);
    let qname = named_in(c, f, Seq::empty(), t.text(name_node), f.linkage);
    assert(f.parts + Seq::<Seq<char>>::empty() =~= f.parts);
    let owner = OwnerView::Decl { qualified_name: qname, kind: NodeKind::Class };
    let p = bases_are_inherited(own, t, bases_of(t, n), owner, bases_of(t, n).len() as int);
    assert(p.contains(j));
    let k = choose|k: int| 0 <= k < p.len() && p[k] == j;
    let i = st.occurrences.len() + k;
    let b = based(t, c, f, st, n, name_node);
    assert(b.occurrences[i] == read_record(t, c, f, st, n).occurrences[i]);
    assert(read_at(t, c, f, st, n) == read_record(t, c, f, st, n));
    i
}

// ---------------------------------------------------------------------------
// Functions
// ---------------------------------------------------------------------------

/// A function that is defined is declared under its identity, and a prototype of it
/// under the same one: the two differ in nothing but whether they define.
pub proof fn prototypes_and_definitions_share_their_identity(
    t: TreeView,
    c: ReadContext,
    f: FrameView,
    st: ReadState,
    n: usize,
    declarator: usize,
    found: crate::cfamily::declarators::Declared,
)
    requires
        t.field(n, "declarator"@) == Some(declarator),
        terminal(t, declarator) == Some(found),
        found.callable(t),
        identity_of(t, c, f, n, found).name.len() > 0,
    ensures
        ({
            let at = st.declarations.len() as int;
            let defined = with_function(st, t, c, f, n);
            let announced = with_declarator(st, t, c, f, n, declarator);
            &&& defined.declarations.len() > at
            &&& announced.declarations.len() > at
            &&& defined.declarations[at].defines
            &&& !announced.declarations[at].defines
            &&& defined.declarations[at].qualified_name == announced.declarations[at].qualified_name
            &&& defined.declarations[at].kind == announced.declarations[at].kind
            &&& defined.declarations[at].name == announced.declarations[at].name
            &&& defined.declarations[at].owner == f.owner
            &&& announced.declarations[at].owner == f.owner
        }),
{
    let id = identity_of(t, c, f, n, found);
    callable_grows(st, t, f, n, found, true, id);
    callable_grows(st, t, f, n, found, false, id);
    function_parts_grow(st, t, c, f, n, found, id);
    let at = st.declarations.len() as int;
    assert(with_callable(st, t, f, n, found, true, id).declarations[at] == with_function(st, t, c, f, n).declarations[at]);
}

/// What is callable in a record, or behind the name of one, is a method; anything else
/// callable is a function. The name is qualified by the scope around it and the scope
/// that is spelled, and in C++ the parameters are part of it.
pub proof fn callables_are_named_by_scope(
    t: TreeView,
    c: ReadContext,
    f: FrameView,
    n: usize,
    found: crate::cfamily::declarators::Declared,
)
    ensures
        ({
            let id = identity_of(t, c, f, n, found);
            let spelled = spelled_scope(t, found.name);
            let member = if spelled.len() > 0 {
                c.records.contains(spelled.last())
            } else {
                f.member
            };
            &&& member <==> id.kind == NodeKind::Method
            &&& !member <==> id.kind == NodeKind::Function
            &&& id.qualified_name == qualified(c.file_rel, f.parts + spelled, id.name + id.signature, id.linkage)
            &&& c.dialect == Dialect::C ==> id.signature.len() == 0
            &&& t.kind(found.name) != "operator_cast"@ ==> id.name == t.text(bare(t, leaf_name(t, found.name)))
        }),
{
}

/// `static` hides a function in its file, unless it is a member; `extern` never does;
/// and whatever stands in a hidden scope is hidden.
pub proof fn linkage_follows_the_specifiers(c: ReadContext, f: FrameView, m: Modifiers, is_data: bool, member: bool)
    ensures
        f.linkage == Linkage::Internal ==> linkage_of(c, f, m, is_data, member) == Linkage::Internal,
        f.linkage != Linkage::Internal && m.is_extern ==> linkage_of(c, f, m, is_data, member) == Linkage::External,
        !m.is_extern && m.is_static && !member ==> linkage_of(c, f, m, is_data, member) == Linkage::Internal,
        f.linkage != Linkage::Internal && member ==> linkage_of(c, f, m, is_data, member) == Linkage::External,
        f.linkage != Linkage::Internal && !m.is_static && c.dialect == Dialect::C ==> linkage_of(c, f, m, is_data, member)
            == Linkage::External,
        !m.is_extern && m.is_const && is_data && !member && c.dialect == Dialect::Cpp ==> linkage_of(
            c,
            f,
            m,
            is_data,
            member,
        ) == Linkage::Internal,
        f.linkage != Linkage::Internal && !m.is_static && !is_data ==> linkage_of(c, f, m, is_data, member)
            == Linkage::External,
{
}

/// What a node uses: what a call calls and what `new` creates is called, a member that
/// is assigned or counted is written, and any other member is read.
pub proof fn uses_have_roles(t: TreeView, n: usize, function: usize, type_node: usize, name: usize, field: usize)
    ensures
        t.kind(n) == "call_expression"@ && t.field(n, "function"@) == Some(function) && t.kind(function) == "identifier"@
            ==> use_at(t, n) == Some(("call"@, function)),
        t.kind(n) == "call_expression"@ && t.field(n, "function"@) == Some(function) && t.kind(function)
            == "field_expression"@ && t.field(function, "field"@) == Some(field) ==> use_at(t, n) == Some(
            ("call"@, bare(t, field)),
        ),
        t.kind(n) == "call_expression"@ && t.field(n, "function"@) == Some(function) && t.kind(function)
            == "qualified_identifier"@ ==> use_at(t, n) == Some(("call"@, bare(t, leaf_name(t, function)))),
        t.kind(n) == "new_expression"@ && t.field(n, "type"@) == Some(type_node) && type_leaf(t, type_node) == Some(name)
            ==> use_at(t, n) == Some(("call"@, name)),
        t.kind(n) == "field_expression"@ && !crate::cfamily::declarators::called(t, n) && t.field(n, "field"@) == Some(field)
            ==> use_at(t, n) == Some(
            (
                if crate::cfamily::declarators::written(t, n) {
                    "write"@
                } else {
                    "read"@
                },
                bare(t, field),
            ),
        ),
        t.kind(n) == "field_expression"@ && crate::cfamily::declarators::called(t, n) ==> use_at(t, n) is None,
        t.kind(n) == "identifier"@ ==> use_at(t, n) is None,
{
    kinds_differ();
}

/// Every node below a scope that uses something adds one place of use with its role, at
/// its name and owned by the scope.
pub proof fn bodies_add_their_uses(st: ReadState, t: TreeView, list: Seq<usize>, owner: OwnerView, k: int, j: int) -> (i: int)
    requires
        0 <= j < k <= list.len(),
        use_at(t, list[j]) is Some,
    ensures
        ({
            let after = with_uses(st, t, list, owner, k);
            let (role, name) = use_at(t, list[j])->0;
            &&& st.occurrences.len() <= i < after.occurrences.len()
            &&& after.occurrences[i].role == role
            &&& after.occurrences[i].span == t.span(name)
            &&& after.occurrences[i].name == t.text(name)
            &&& after.occurrences[i].owner == owner
        }),
    decreases k,
{
    uses_grow(st, t, list, owner, k - 1);
    if j == k - 1 {
        with_uses(st, t, list, owner, k - 1).occurrences.len() as int
    } else {
        bodies_add_their_uses(st, t, list, owner, k - 1, j)
    }
}

/// A call in the body of a function becomes a place of use, owned by the function, that
/// becomes an edge of a call.
pub proof fn functions_call_what_their_bodies_call(
    t: TreeView,
    c: ReadContext,
    f: FrameView,
    st: ReadState,
    n: usize,
    declarator: usize,
    found: crate::cfamily::declarators::Declared,
    body: usize,
    j: int,
    callee: usize,
) -> (i: int)
    requires
        t.kind(n) == "function_definition"@,
        t.field(n, "declarator"@) == Some(declarator),
        terminal(t, declarator) == Some(found),
        identity_of(t, c, f, n, found).name.len() > 0,
        t.field(n, "body"@) == Some(body),
        0 <= j < descend(t, body).len(),
        t.kind(descend(t, body)[j]) == "call_expression"@,
        t.field(descend(t, body)[j], "function"@) == Some(callee),
        t.kind(callee) == "identifier"@,
    ensures
        ({
            let after = read_at(t, c, f, st, n);
            let id = identity_of(t, c, f, n, found);
            let d = after.declarations[st.declarations.len() as int];
            let u = after.occurrences[i];
            &&& after.declarations.len() > st.declarations.len()
            &&& d.kind == id.kind && d.qualified_name == id.qualified_name && d.defines
            &&& st.occurrences.len() <= i < after.occurrences.len()
            &&& edge_of_role(u.role) == Some(RelationKind::Calls)
            &&& u.name == t.text(callee)
            &&& u.span == t.span(callee)
            &&& u.owner == (OwnerView::Decl { qualified_name: d.qualified_name, kind: d.kind })
        }),
{
    kinds_differ();
    records_are_three(t, n);
    let id = identity_of(t, c, f, n, found);
    uses_have_roles(t, descend(t, body)[j], callee, 0, 0, 0);
    callable_grows(st, t, f, n, found, true, id);
    function_parts_grow(st, t, c, f, n, found, id);
    let owner = OwnerView::Decl { qualified_name: id.qualified_name, kind: id.kind };
    let own = with_callable(st, t, f, n, found, true, id);
    let started = match t.kid_of(n, "field_initializer_list"@) {
        Some(list) => {
            let set = with_initializers(own, t, t.named_kids(list), owner, t.named_kids(list).len() as int);
            initializers_grow(own, t, t.named_kids(list), owner, t.named_kids(list).len() as int);
            uses_grow(set, t, descend(t, list), owner, descend(t, list).len() as int);
            with_body(set, t, list, owner)
        },
        None => own,
    };
    assert(grows(own, started));
    let at = st.declarations.len() as int;
    assert(own.declarations[at] == with_function(st, t, c, f, n).declarations[at]);
    bodies_add_their_uses(started, t, descend(t, body), owner, descend(t, body).len() as int, j)
}

// ---------------------------------------------------------------------------
// Edges
// ---------------------------------------------------------------------------

/// A place of use whose owner and whose target are in the graph becomes one edge from
/// the one to the other, of the kind that its role means.
pub proof fn bound_uses_become_edges(
    project: Seq<char>,
    p: FamilyPass,
    file_rel: Seq<char>,
    file_id: Seq<char>,
    u: UseView,
    kind: RelationKind,
    target: (Seq<char>, NodeKind),
)
    requires
        edge_of_role(u.role) == Some(kind),
        p.graph.has(owner_id(project, u.owner, file_id)),
        p.graph.has(kind_id(project, target.0, target.1)),
    ensures
        ({
            let after = family_step(project, p, file_rel, file_id, u, Some(target));
            let source = match u.owner {
                OwnerView::File => file_id,
                OwnerView::Decl { qualified_name, kind } => kind_id(project, qualified_name, kind),
            };
            &&& after.graph.nodes == p.graph.nodes
            &&& after.graph.relations.len() == p.graph.relations.len() + 1
            &&& after.graph.relations.last().source_id == source
            &&& after.graph.relations.last().target_id == kind_id(project, target.0, target.1)
            &&& after.graph.relations.last().kind == kind
            &&& after.resolved == p.resolved + 1
            &&& after.internal == p.internal + 1
        }),
{
}

/// The roles mean edges: calls, inheritance, types, and references.
pub proof fn roles_mean_edges()
    ensures
        edge_of_role("call"@) == Some(RelationKind::Calls),
        edge_of_role("base"@) == Some(RelationKind::InheritsFrom),
        edge_of_role("annotation"@) == Some(RelationKind::HasType),
        edge_of_role("read"@) == Some(RelationKind::References),
        edge_of_role("write"@) == Some(RelationKind::References),
{
    reveal_strlit("call");
    reveal_strlit("base");
    reveal_strlit("annotation");
    reveal_strlit("read");
    reveal_strlit("write");
    assert("call"@[0] == 'c' && "base"@[0] == 'b' && "annotation"@[0] == 'a' && "read"@[0] == 'r' && "write"@[0] == 'w');
}

// ---------------------------------------------------------------------------
// Data, parameters and names of types
// ---------------------------------------------------------------------------

/// A datum is declared under its scope: as an attribute in a record and as a variable
/// elsewhere, with the access that holds there and the owner around it. It is defined where
/// it has a value or is not `extern`.
pub proof fn data_are_declared(
    st: ReadState,
    t: TreeView,
    c: ReadContext,
    f: FrameView,
    n: usize,
    name_node: usize,
    extra: Seq<Seq<char>>,
    declarator: usize,
)
    requires
        t.text(name_node).len() > 0,
    ensures
        ({
            let after = with_datum(st, t, c, f, n, name_node, extra, declarator);
            let d = after.declarations.last();
            let member = if extra.len() > 0 {
                c.records.contains(extra.last())
            } else {
                f.member
            };
            let m = modifiers_of(t, n);
            &&& after.declarations.len() == st.declarations.len() + 1
            &&& goes_on(st.declarations, after.declarations)
            &&& member ==> d.kind is Attribute
            &&& !member ==> d.kind is Variable
            &&& d.name == t.text(name_node)
            &&& d.qualified_name == qualified(c.file_rel, f.parts + extra, t.text(name_node), d.linkage)
            &&& d.linkage == linkage_of(c, f, m, true, member)
            &&& d.owner == f.owner
            &&& d.access == st.access
            &&& d.span == t.span(n)
            &&& d.name_span == t.span(name_node)
            &&& d.is_static == m.is_static
            &&& d.is_extern == m.is_extern
            &&& d.defines <==> !m.is_extern || t.kind(declarator) == "init_declarator"@ || t.field(n, "default_value"@) is Some
            &&& t.field(n, "type"@) is Some ==> d.type_text == t.text(t.field(n, "type"@)->0)
            &&& t.field(n, "type"@) is Some && type_leaf(t, t.field(n, "type"@)->0) is Some ==> after.occurrences
                == st.occurrences.push(
                UseView {
                    role: "annotation"@,
                    span: t.span(type_leaf(t, t.field(n, "type"@)->0)->0),
                    owner: OwnerView::Decl { qualified_name: d.qualified_name, kind: d.kind },
                    name: t.text(type_leaf(t, t.field(n, "type"@)->0)->0),
                },
            )
        }),
{
}

/// A parameter with a name is declared below its function, and its type is a type of it; a
/// parameter without a name lends its type to the function.
pub proof fn parameters_are_declared(
    st: ReadState,
    t: TreeView,
    p: usize,
    callable: Seq<char>,
    owner: OwnerView,
    defines: bool,
    name: usize,
    type_node: usize,
    leaf: usize,
)
    requires
        t.kind(p) == "parameter_declaration"@ || t.kind(p) == "optional_parameter_declaration"@ || t.kind(p)
            == "variadic_parameter_declaration"@,
        t.field(p, "type"@) == Some(type_node),
        type_leaf(t, type_node) == Some(leaf),
    ensures
        param_name(t, p) == Some(name) && t.text(name).len() > 0 ==> ({
            let after = with_param(st, t, p, callable, owner, defines);
            let d = after.declarations.last();
            let u = after.occurrences.last();
            &&& after.declarations.len() == st.declarations.len() + 1
            &&& d.kind is Parameter
            &&& d.name == t.text(name)
            &&& d.qualified_name == callable + "."@ + t.text(name)
            &&& d.owner == owner
            &&& d.defines == defines
            &&& d.type_text == t.text(type_node)
            &&& d.span == t.span(p)
            &&& d.name_span == t.span(name)
            &&& u.role == "annotation"@
            &&& u.span == t.span(leaf)
            &&& u.owner == (OwnerView::Decl { qualified_name: callable + "."@ + t.text(name), kind: NodeKind::Parameter })
        }),
        param_name(t, p) is None ==> ({
            let after = with_param(st, t, p, callable, owner, defines);
            let u = after.occurrences.last();
            &&& after.declarations == st.declarations
            &&& u.role == "annotation"@
            &&& u.span == t.span(leaf)
            &&& u.owner == owner
        }),
{
    let table = PARAMETER_KINDS@;
    assert(table[0]@ == "parameter_declaration"@ && table[1]@ == "optional_parameter_declaration"@ && table[2]@
        == "variadic_parameter_declaration"@);
    assert(t.kind_among(p, PARAMETER_KINDS@));
}

/// The name of a type, a concept and an enumerator are declared in the scope around them.
pub proof fn names_of_types_are_declared(t: TreeView, c: ReadContext, f: FrameView, st: ReadState, n: usize, name: usize)
    requires
        t.field(n, "name"@) == Some(name),
        t.kind(n) == "alias_declaration"@ || t.kind(n) == "concept_definition"@ || t.kind(n) == "enumerator"@,
    ensures
        ({
            let after = read_at(t, c, f, st, n);
            let d = after.declarations.last();
            &&& after.declarations.len() == st.declarations.len() + 1
            &&& goes_on(st.declarations, after.declarations)
            &&& d.name == t.text(name)
            &&& d.qualified_name == qualified(c.file_rel, f.parts, t.text(name), f.linkage)
            &&& d.owner == f.owner
            &&& d.access == st.access
            &&& d.linkage == f.linkage
            &&& d.defines
            &&& d.span == t.span(n)
            &&& d.name_span == t.span(name)
            &&& t.kind(n) == "enumerator"@ ==> d.kind is Attribute && d.record_kind == "enumerator"@
            &&& t.kind(n) != "enumerator"@ ==> d.kind is TypeAlias
            &&& t.kind(n) == "concept_definition"@ ==> d.record_kind == "concept"@ && d.is_template
            &&& t.kind(n) == "alias_declaration"@ ==> d.record_kind.len() == 0
        }),
{
    kinds_differ();
    records_are_three(t, n);
    assert(f.parts + Seq::<Seq<char>>::empty() =~= f.parts);
}

/// A directive names what it reads in: a path of the system between angle brackets, a path
/// of the project between quotes, and else what the preprocessor makes of it.
pub proof fn directives_name_what_they_read(t: TreeView, c: ReadContext, f: FrameView, st: ReadState, n: usize, path: usize, content: usize)
    requires
        t.kind(n) == "preproc_include"@,
        t.field(n, "path"@) == Some(path),
    ensures
        ({
            let after = read_at(t, c, f, st, n);
            let i = after.includes.last();
            &&& after.declarations == st.declarations && after.occurrences == st.occurrences
            &&& t.kind(path) == "string_literal"@ && t.kid_of(path, "string_content"@) == Some(content) && t.text(
                content,
            ).len() > 0 ==> after.includes.len() == st.includes.len() + 1 && i.path == t.text(content) && i.style
                == "quoted"@ && i.span == t.span(n)
            &&& t.kind(path) == "system_lib_string"@ && without_trailing(
                without_leading(t.text(path), '<'),
                '>',
            ).len() > 0 ==> after.includes.len() == st.includes.len() + 1 && i.path == without_trailing(
                without_leading(t.text(path), '<'),
                '>',
            ) && i.style == "system"@ && i.span == t.span(n)
            &&& t.kind(path) == "identifier"@ && t.text(path).len() > 0 ==> after.includes.len() == st.includes.len() + 1
                && i.path == t.text(path) && i.style == "computed"@ && i.span == t.span(n)
        }),
{
    kinds_differ();
    reveal_strlit("string_literal");
    reveal_strlit("system_lib_string");
    assert("string_literal"@.len() == 14 && "system_lib_string"@.len() == 17);
}

/// A specifier sets the access of what follows it.
pub proof fn specifiers_set_the_access(t: TreeView, c: ReadContext, f: FrameView, st: ReadState, n: usize)
    requires
        t.kind(n) == "access_specifier"@,
    ensures
        trimmed(t.text(n)) == "public"@ ==> read_at(t, c, f, st, n).access == "public"@,
        trimmed(t.text(n)) == "protected"@ ==> read_at(t, c, f, st, n).access == "protected"@,
        trimmed(t.text(n)) == "private"@ ==> read_at(t, c, f, st, n).access == "private"@,
        read_at(t, c, f, st, n).declarations == st.declarations,
{
    kinds_differ();
    records_are_three(t, n);
}

proof fn in_keeps(t: TreeView, c: ReadContext, f: FrameView, st: ReadState, container: usize, j: int, k: int)
    requires
        0 <= j <= k <= declarations_of(t, container).len(),
    ensures
        grows(read_in(t, c, f, st, container, j), read_in(t, c, f, st, container, k)),
    decreases k,
{
    if j < k {
        in_keeps(t, c, f, st, container, j, k - 1);
        at_grows(t, c, f, read_in(t, c, f, st, container, k - 1), declarations_of(t, container)[k - 1]);
    }
}

/// The first field of a record is an attribute of it, named below it, and hidden in a class
/// and open elsewhere.
pub proof fn first_fields_belong_to_their_record(
    t: TreeView,
    c: ReadContext,
    f: FrameView,
    st: ReadState,
    n: usize,
    name: usize,
    body: usize,
    field: usize,
    declarator: usize,
)
    requires
        t.kind(n) == "class_specifier"@ || t.kind(n) == "struct_specifier"@ || t.kind(n) == "union_specifier"@,
        t.field(n, "name"@) == Some(name),
        t.field(n, "body"@) == Some(body),
        declarations_of(t, body).len() > 0,
        declarations_of(t, body)[0] == field,
        t.kind(field) == "field_declaration"@,
        t.field(field, "type"@) is None || t.field(t.field(field, "type"@)->0, "body"@) is None,
        t.fields(field, "declarator"@) == seq![declarator],
        t.kind(declarator) == "field_identifier"@,
        t.text(declarator).len() > 0,
    ensures
        exists|i: int|
            0 <= i < read_at(t, c, f, st, n).declarations.len() && ({
                let d = #[trigger] read_at(t, c, f, st, n).declarations[i];
                &&& d.kind is Attribute
                &&& d.name == t.text(declarator)
                &&& d.owner == (OwnerView::Decl {
                    qualified_name: qualified(c.file_rel, f.parts, t.text(name), f.linkage),
                    kind: NodeKind::Class,
                })
                &&& d.qualified_name == qualified(c.file_rel, f.parts.push(t.text(name)), t.text(declarator), d.linkage)
                &&& t.kind(n) == "class_specifier"@ ==> d.access == "private"@
                &&& t.kind(n) != "class_specifier"@ ==> d.access == "public"@
            }),
{
    kinds_differ();
    records_are_three(t, n);
    reveal_strlit("class");
    reveal_strlit("struct");
    reveal_strlit("union");
    reveal_strlit("field_identifier");
    assert("class"@.len() == 5 && "struct"@.len() == 6 && "union"@.len() == 5 && "field_identifier"@.len() == 16);
    assert("class"@[0] != "union"@[0]);
    assert(f.parts + Seq::<Seq<char>>::empty() =~= f.parts);
    declared_are_below(t, body, t.kids(body).len() as int);
    records_are_three(t, field);
    record_grows(t, c, f, st, n);
    let simple = t.text(name);
    let qname = named_in(c, f, Seq::empty(), simple, f.linkage);
    let owner = OwnerView::Decl { qualified_name: qname, kind: NodeKind::Class };
    let b = based(t, c, f, st, n, name);
    let inner = FrameView { parts: f.parts.push(simple), owner, linkage: f.linkage, member: true };
    let access = if record_kind(t, n) == "class"@ {
        "private"@
    } else {
        "public"@
    };
    let start = ReadState { access, ..b };
    let k = declarations_of(t, body).len() as int;
    in_keeps(t, c, inner, start, body, 1, k);
    let table = crate::cfamily::declarators::TERMINAL_DECLARATORS@;
    assert(table[1]@ == "field_identifier"@);
    assert(t.kind_among(declarator, table));
    reveal_strlit("operator_cast");
    reveal_strlit("structured_binding_declarator");
    reveal_strlit("template_function");
    reveal_strlit("template_method");
    reveal_strlit("template_type");
    assert("operator_cast"@.len() == 13 && "structured_binding_declarator"@.len() == 29 && "template_function"@.len() == 17
        && "template_method"@.len() == 15 && "template_type"@.len() == 13);
    let list = t.fields(field, "declarator"@);
    assert(list[0] == declarator && list.len() == 1);
    assert(read_in(t, c, inner, start, body, 0) == start);
    assert(read_inline(t, c, inner, start, field) == start);
    assert(with_declarators(start, t, c, inner, field, list, 0) == start);
    let none = Seq::<Seq<char>>::empty();
    assert(spelled_scope(t, declarator) =~= none);
    data_are_declared(start, t, c, inner, field, declarator, none, declarator);
    let first = with_datum(start, t, c, inner, field, declarator, none, declarator);
    assert(with_declarators(start, t, c, inner, field, list, 1) == first);
    assert(read_at(t, c, inner, start, field) == first);
    assert(read_in(t, c, inner, start, body, 1) == first);
    assert(inner.parts + none =~= inner.parts);
    let i = first.declarations.len() - 1;
    assert(read_at(t, c, f, st, n).declarations[i] == first.declarations[i]);
}

/// What a named namespace holds is named below it, and what a nameless one holds is hidden
/// in the file. Its first alias shows it.
pub proof fn namespaces_name_what_they_hold(
    t: TreeView,
    c: ReadContext,
    f: FrameView,
    st: ReadState,
    n: usize,
    body: usize,
    alias: usize,
    name: usize,
)
    requires
        t.kind(n) == "namespace_definition"@,
        t.field(n, "body"@) == Some(body),
        declarations_of(t, body).len() > 0,
        declarations_of(t, body)[0] == alias,
        t.kind(alias) == "alias_declaration"@,
        t.field(alias, "name"@) == Some(name),
    ensures
        exists|i: int|
            0 <= i < read_at(t, c, f, st, n).declarations.len() && ({
                let d = #[trigger] read_at(t, c, f, st, n).declarations[i];
                &&& d.kind is TypeAlias
                &&& d.name == t.text(name)
                &&& d.owner == f.owner
                &&& namespace_parts(t, n).len() == 0 ==> d.linkage is Internal && d.qualified_name == qualified(
                    c.file_rel,
                    f.parts,
                    t.text(name),
                    Linkage::Internal,
                )
                &&& namespace_parts(t, n).len() > 0 ==> d.linkage == f.linkage && d.qualified_name == qualified(
                    c.file_rel,
                    f.parts + namespace_parts(t, n),
                    t.text(name),
                    f.linkage,
                )
            }),
{
    kinds_differ();
    let parts = namespace_parts(t, n);
    let inner = FrameView {
        parts: f.parts + parts,
        owner: f.owner,
        linkage: if parts.len() == 0 {
            Linkage::Internal
        } else {
            f.linkage
        },
        member: false,
    };
    let start = ReadState { access: Seq::empty(), ..st };
    let k = declarations_of(t, body).len() as int;
    declared_are_below(t, body, t.kids(body).len() as int);
    in_keeps(t, c, inner, start, body, 1, k);
    names_of_types_are_declared(t, c, inner, start, alias, name);
    assert(read_in(t, c, inner, start, body, 0) == start);
    let first = read_at(t, c, inner, start, alias);
    assert(read_in(t, c, inner, start, body, 1) == first);
    if parts.len() == 0 {
        assert(f.parts + parts =~= f.parts);
    }
    let i = first.declarations.len() - 1;
    assert(read_at(t, c, f, st, n).declarations[i] == first.declarations[i]);
}

}
