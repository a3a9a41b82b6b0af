//! What the structure of PHP sources promises.

use vstd::prelude::*;

use crate::adapter::external_node;
use crate::graph::{added_nodes_are_found, ids_find_nodes, node_at};
use crate::ids::kind_id;
use crate::index::table_get;
use crate::meta::{lookup, stored, stored_then_found, Noted, ValueView};
use crate::node::{NodeKind, NodeView};
use crate::occurrence::{occurrence_at, OccurrenceView};
use crate::php::deps::php_origin;
use crate::php::names::{
    class_names, field_variable, final_name, namespace_name, plain_are_below, plain_kids, qualified, uses_of,
    variable_name, UseView, BASE_KINDS, MARKUP_KINDS, NAME_KINDS,
};
use crate::php::visitor::{
    class_metadata, constant_metadata, declare_class, declared, function_metadata, import_node, is_access, is_assignment,
    is_member_call, is_parameter, is_unnamed, made, module_for, module_of_prefix, no_metadata, place_name,
    promoted_property, property_metadata, tested_class, typed, used, used_if, used_refs, visit, visit_all,
    visit_anonymous, visit_argument, visit_arguments, visit_attributes, visit_call, visit_call_arguments, visit_callable,
    visit_callable_parameters, visit_case, visit_constant_access, visit_constant_elements, visit_creation, visit_function,
    visit_hooks, visit_if, visit_kids, visit_member, visit_parameter, visit_parameters, visit_property_elements,
    visit_statics, visit_target, visit_target_if, visit_targets, visit_value, with_bases, with_conflicts, with_parts,
    with_traits, with_uses, ClassFlavour, FrameView, PhpFileView, VisitState,
};
use crate::relation::{plain_edge, RelationKind, RelationView};
use crate::selection::{goes_on, going_on_keeps};
use crate::strings::joined;
use crate::tree::{group_tree, TreeView};

verus! {

broadcast use group_tree;

/// The kinds of node that are told apart differ.
proof fn kinds_differ()
    ensures
        "anonymous_class"@.len() == 15,
        "anonymous_function"@.len() == 18,
        "arguments"@.len() == 9,
        "arrow_function"@.len() == 14,
        "assignment_expression"@.len() == 21,
        "attribute"@.len() == 9,
        "augmented_assignment_expression"@.len() == 31,
        "binary_expression"@.len() == 17,
        "catch_clause"@.len() == 12,
        "class_constant_access_expression"@.len() == 32,
        "class_declaration"@.len() == 17,
        "comment"@.len() == 7,
        "const_declaration"@.len() == 17,
        "enum_case"@.len() == 9,
        "enum_declaration"@.len() == 16,
        "function_call_expression"@.len() == 24,
        "function_definition"@.len() == 19,
        "function_static_declaration"@.len() == 27,
        "interface_declaration"@.len() == 21,
        "member_access_expression"@.len() == 24,
        "member_call_expression"@.len() == 22,
        "method_declaration"@.len() == 18,
        "name"@.len() == 4,
        "namespace_definition"@.len() == 20,
        "namespace_use_declaration"@.len() == 25,
        "new"@.len() == 3,
        "nullsafe_member_access_expression"@.len() == 33,
        "nullsafe_member_call_expression"@.len() == 31,
        "object_creation_expression"@.len() == 26,
        "php_end_tag"@.len() == 11,
        "php_tag"@.len() == 7,
        "property_declaration"@.len() == 20,
        "property_hook"@.len() == 13,
        "qualified_name"@.len() == 14,
        "reference_assignment_expression"@.len() == 31,
        "relative_name"@.len() == 13,
        "scoped_call_expression"@.len() == 22,
        "scoped_property_access_expression"@.len() == 33,
        "text"@.len() == 4,
        "text_interpolation"@.len() == 18,
        "trait_declaration"@.len() == 17,
        "update_expression"@.len() == 17,
        "use_declaration"@.len() == 15,
        "variable_name"@.len() == 13,
        "anonymous_class"@ != "use_declaration"@,
        "anonymous_function"@ != "method_declaration"@,
        "anonymous_function"@ != "text_interpolation"@,
        "arguments"@ != "attribute"@,
        "arguments"@ != "enum_case"@,
        "arrow_function"@ != "qualified_name"@,
        "assignment_expression"@ != "interface_declaration"@,
        "attribute"@ != "enum_case"@,
        "augmented_assignment_expression"@ != "nullsafe_member_call_expression"@,
        "augmented_assignment_expression"@ != "reference_assignment_expression"@,
        "binary_expression"@ != "class_declaration"@,
        "binary_expression"@ != "const_declaration"@,
        "binary_expression"@ != "trait_declaration"@,
        "binary_expression"@ != "update_expression"@,
        "class_declaration"@ != "const_declaration"@,
        "class_declaration"@ != "trait_declaration"@,
        "class_declaration"@ != "update_expression"@,
        "comment"@ != "php_tag"@,
        "const_declaration"@ != "trait_declaration"@,
        "const_declaration"@ != "update_expression"@,
        "function_call_expression"@ != "member_access_expression"@,
        "member_call_expression"@ != "scoped_call_expression"@,
        "method_declaration"@ != "text_interpolation"@,
        "name"@ != "text"@,
        "namespace_definition"@ != "property_declaration"@,
        "nullsafe_member_access_expression"@ != "scoped_property_access_expression"@,
        "nullsafe_member_call_expression"@ != "reference_assignment_expression"@,
        "property_hook"@ != "relative_name"@,
        "property_hook"@ != "variable_name"@,
        "relative_name"@ != "variable_name"@,
        "trait_declaration"@ != "update_expression"@,
{
    reveal_strlit("anonymous_class");
    reveal_strlit("anonymous_function");
    reveal_strlit("arguments");
    reveal_strlit("arrow_function");
    reveal_strlit("assignment_expression");
    reveal_strlit("attribute");
    reveal_strlit("augmented_assignment_expression");
    reveal_strlit("binary_expression");
    reveal_strlit("catch_clause");
    reveal_strlit("class_constant_access_expression");
    reveal_strlit("class_declaration");
    reveal_strlit("comment");
    reveal_strlit("const_declaration");
    reveal_strlit("enum_case");
    reveal_strlit("enum_declaration");
    reveal_strlit("function_call_expression");
    reveal_strlit("function_definition");
    reveal_strlit("function_static_declaration");
    reveal_strlit("interface_declaration");
    reveal_strlit("member_access_expression");
    reveal_strlit("member_call_expression");
    reveal_strlit("method_declaration");
    reveal_strlit("name");
    reveal_strlit("namespace_definition");
    reveal_strlit("namespace_use_declaration");
    reveal_strlit("new");
    reveal_strlit("nullsafe_member_access_expression");
    reveal_strlit("nullsafe_member_call_expression");
    reveal_strlit("object_creation_expression");
    reveal_strlit("php_end_tag");
    reveal_strlit("php_tag");
    reveal_strlit("property_declaration");
    reveal_strlit("property_hook");
    reveal_strlit("qualified_name");
    reveal_strlit("reference_assignment_expression");
    reveal_strlit("relative_name");
    reveal_strlit("scoped_call_expression");
    reveal_strlit("scoped_property_access_expression");
    reveal_strlit("text");
    reveal_strlit("text_interpolation");
    reveal_strlit("trait_declaration");
    reveal_strlit("update_expression");
    reveal_strlit("use_declaration");
    reveal_strlit("variable_name");
    assert("anonymous_class"@[0] != "use_declaration"@[0]);
    assert("anonymous_function"@[0] != "method_declaration"@[0]);
    assert("anonymous_function"@[0] != "text_interpolation"@[0]);
    assert("arguments"@[1] != "attribute"@[1]);
    assert("arguments"@[0] != "enum_case"@[0]);
    assert("arrow_function"@[0] != "qualified_name"@[0]);
    assert("assignment_expression"@[0] != "interface_declaration"@[0]);
    assert("attribute"@[0] != "enum_case"@[0]);
    assert("augmented_assignment_expression"@[0] != "nullsafe_member_call_expression"@[0]);
    assert("augmented_assignment_expression"@[0] != "reference_assignment_expression"@[0]);
    assert("binary_expression"@[0] != "class_declaration"@[0]);
    assert("binary_expression"@[0] != "const_declaration"@[0]);
    assert("binary_expression"@[0] != "trait_declaration"@[0]);
    assert("binary_expression"@[0] != "update_expression"@[0]);
    assert("class_declaration"@[1] != "const_declaration"@[1]);
    assert("class_declaration"@[0] != "trait_declaration"@[0]);
    assert("class_declaration"@[0] != "update_expression"@[0]);
    assert("comment"@[0] != "php_tag"@[0]);
    assert("const_declaration"@[0] != "trait_declaration"@[0]);
    assert("const_declaration"@[0] != "update_expression"@[0]);
    assert("function_call_expression"@[0] != "member_access_expression"@[0]);
    assert("member_call_expression"@[0] != "scoped_call_expression"@[0]);
    assert("method_declaration"@[0] != "text_interpolation"@[0]);
    assert("name"@[0] != "text"@[0]);
    assert("namespace_definition"@[0] != "property_declaration"@[0]);
    assert("nullsafe_member_access_expression"@[0] != "scoped_property_access_expression"@[0]);
    assert("nullsafe_member_call_expression"@[0] != "reference_assignment_expression"@[0]);
    assert("property_hook"@[0] != "relative_name"@[0]);
    assert("property_hook"@[0] != "variable_name"@[0]);
    assert("relative_name"@[0] != "variable_name"@[0]);
    assert("trait_declaration"@[0] != "update_expression"@[0]);
}

/// The keys of metadata that are told apart differ.
proof fn keys_differ()
    ensures
        "is_abstract"@.len() == 11,
        "is_anonymous"@.len() == 12,
        "is_enum"@.len() == 7,
        "is_interface"@.len() == 12,
        "is_static"@.len() == 9,
        "is_trait"@.len() == 8,
        "name_span"@.len() == 9,
        "visibility"@.len() == 10,
        "is_anonymous"@ != "is_interface"@,
        "is_static"@ != "name_span"@,
{
    reveal_strlit("is_abstract");
    reveal_strlit("is_anonymous");
    reveal_strlit("is_enum");
    reveal_strlit("is_interface");
    reveal_strlit("is_static");
    reveal_strlit("is_trait");
    reveal_strlit("name_span");
    reveal_strlit("visibility");
    assert("is_anonymous"@[3] != "is_interface"@[3]);
    assert("is_static"@[0] != "name_span"@[0]);
}

// ---------------------------------------------------------------------------
// Reading only adds
// ---------------------------------------------------------------------------

/// Whether a state holds all that another one holds, in its place.
pub open spec fn grown(a: VisitState, b: VisitState) -> bool {
    &&& goes_on(a.graph.nodes, b.graph.nodes)
    &&& goes_on(a.graph.relations, b.graph.relations)
    &&& a.graph.metadata == b.graph.metadata
    &&& goes_on(a.uses, b.uses)
}

proof fn refs_add(st: VisitState, t: TreeView, role: Seq<char>, list: Seq<usize>, id: Seq<char>, k: int)
    ensures
        grown(st, used_refs(st, t, role, list, id, k)),
        used_refs(st, t, role, list, id, k).graph == st.graph,
        used_refs(st, t, role, list, id, k).scope == st.scope,
    decreases k,
{
    if 0 < k <= list.len() {
        refs_add(st, t, role, list, id, k - 1);
    }
}

proof fn types_add(st: VisitState, t: TreeView, n: Option<usize>, id: Seq<char>)
    ensures
        grown(st, typed(st, t, n, id)),
        typed(st, t, n, id).scope == st.scope,
{
    if n is Some {
        refs_add(st, t, "annotation"@, class_names(t, n->0), id, class_names(t, n->0).len() as int);
    }
}

proof fn bases_add(st: VisitState, t: TreeView, list: Seq<usize>, id: Seq<char>, k: int)
    ensures
        grown(st, with_bases(st, t, list, id, k)),
    decreases k,
{
    if 0 < k <= list.len() {
        bases_add(st, t, list, id, k - 1);
        let refs = class_names(t, list[k - 1]);
        refs_add(with_bases(st, t, list, id, k - 1), t, "base"@, refs, id, refs.len() as int);
    }
}

proof fn parts_add(st: VisitState, t: TreeView, parts: Seq<usize>, instead: bool, id: Seq<char>, k: int)
    ensures
        grown(st, with_parts(st, t, parts, instead, id, k).0),
    decreases k,
{
    if 0 < k <= parts.len() {
        parts_add(st, t, parts, instead, id, k - 1);
    }
}

proof fn conflicts_add(st: VisitState, t: TreeView, list: Seq<usize>, id: Seq<char>, k: int)
    ensures
        grown(st, with_conflicts(st, t, list, id, k)),
    decreases k,
{
    if 0 < k <= list.len() {
        conflicts_add(st, t, list, id, k - 1);
        let parts = plain_kids(t, list[k - 1]);
        parts_add(
            with_conflicts(st, t, list, id, k - 1),
            t,
            parts,
            t.kind(list[k - 1]) == "use_instead_of_clause"@,
            id,
            parts.len() as int,
        );
    }
}

proof fn traits_add(st: VisitState, t: TreeView, list: Seq<usize>, id: Seq<char>, j: int, k: int)
    requires
        0 <= j <= k <= list.len(),
    ensures
        grown(with_traits(st, t, list, id, j), with_traits(st, t, list, id, k)),
    decreases k,
{
    if j < k {
        traits_add(st, t, list, id, j, k - 1);
        let n = list[k - 1];
        conflicts_add(with_traits(st, t, list, id, k - 1), t, t.kids(n), id, t.kids(n).len() as int);
    }
}

proof fn uses_add(c: PhpFileView, t: TreeView, f: FrameView, st: VisitState, list: Seq<UseView>, j: int, k: int)
    requires
        0 <= j <= k <= list.len(),
    ensures
        grown(with_uses(c, t, f, st, list, j), with_uses(c, t, f, st, list, k)),
    decreases k,
{
    if j < k {
        uses_add(c, t, f, st, list, j, k - 1);
    }
}

proof fn kids_add(t: TreeView, c: PhpFileView, f: FrameView, st: VisitState, n: usize, k: int)
    ensures
        grown(st, visit_kids(t, c, f, st, n, k)),
    decreases t.nodes.len() - n, 10int, k,
{
    if 0 < k <= t.kids(n).len() {
        kids_add(t, c, f, st, n, k - 1);
        visiting_adds(t, c, f, visit_kids(t, c, f, st, n, k - 1), t.kids(n)[k - 1]);
    }
}

proof fn all_add(t: TreeView, c: PhpFileView, f: FrameView, st: VisitState, n: usize)
    ensures
        grown(st, visit_all(t, c, f, st, n)),
    decreases t.nodes.len() - n, 15int, 0int,
{
    kids_add(t, c, f, st, n, t.kids(n).len() as int);
}

proof fn some_add(t: TreeView, c: PhpFileView, f: FrameView, st: VisitState, n: Option<usize>, parent: usize)
    ensures
        grown(st, visit_if(t, c, f, st, n, parent)),
    decreases t.nodes.len() - parent, 5int, 0int,
{
    if n is Some && t.below(parent, n->0) {
        visiting_adds(t, c, f, st, n->0);
    }
}

proof fn attributes_add(t: TreeView, c: PhpFileView, f: FrameView, st: VisitState, n: usize)
    ensures
        grown(st, visit_attributes(t, c, f, st, n)),
    decreases t.nodes.len() - n, 20int, 0int,
{
    if t.field(n, "attributes"@) is Some {
        all_add(t, c, f, st, t.field(n, "attributes"@)->0);
    }
}

proof fn hooks_add(t: TreeView, c: PhpFileView, f: FrameView, st: VisitState, n: usize)
    ensures
        grown(st, visit_hooks(t, c, f, st, n)),
    decreases t.nodes.len() - n, 20int, 0int,
{
    if t.kid_of(n, "property_hook_list"@) is Some {
        all_add(t, c, f, st, t.kid_of(n, "property_hook_list"@)->0);
    }
}

proof fn class_adds(
    t: TreeView, c: PhpFileView, f: FrameView, st: VisitState, n: usize,
    qname: Seq<char>,
    name: Seq<char>,
    name_node: Option<usize>,
    flavour: ClassFlavour,
)
    ensures
        grown(st, declare_class(t, c, f, st, n, qname, name, name_node, flavour)),
        grown(
            declared(
                st,
                f.container,
                made(c, t, NodeKind::Class, qname, name, Some(n), class_metadata(t, n, flavour), name_node),
            ),
            declare_class(t, c, f, st, n, qname, name, name_node, flavour),
        ),
    decreases t.nodes.len() - n, 30int, 0int,
{
    let node = made(c, t, NodeKind::Class, qname, name, Some(n), class_metadata(t, n, flavour), name_node);
    let inner = FrameView { container: node.id, kind: NodeKind::Class };
    let opened = VisitState { scope: qname, ..declared(st, f.container, node) };
    let st1 = visit_attributes(t, c, inner, opened, n);
    let st2 = with_bases(st1, t, plain_kids(t, n), node.id, plain_kids(t, n).len() as int);
    attributes_add(t, c, inner, opened, n);
    bases_add(st1, t, plain_kids(t, n), node.id, plain_kids(t, n).len() as int);
    if t.field(n, "body"@) is Some {
        all_add(t, c, inner, st2, t.field(n, "body"@)->0);
    }
}

proof fn class_bases_add(
    t: TreeView, c: PhpFileView, f: FrameView, st: VisitState, n: usize,
    qname: Seq<char>,
    name: Seq<char>,
    name_node: Option<usize>,
    flavour: ClassFlavour,
)
    ensures
        ({
            let node = made(c, t, NodeKind::Class, qname, name, Some(n), class_metadata(t, n, flavour), name_node);
            let inner = FrameView { container: node.id, kind: NodeKind::Class };
            let opened = VisitState { scope: qname, ..declared(st, f.container, node) };
            let st1 = visit_attributes(t, c, inner, opened, n);
            grown(
                with_bases(st1, t, plain_kids(t, n), node.id, plain_kids(t, n).len() as int),
                declare_class(t, c, f, st, n, qname, name, name_node, flavour),
            )
        }),
{
    let node = made(c, t, NodeKind::Class, qname, name, Some(n), class_metadata(t, n, flavour), name_node);
    let inner = FrameView { container: node.id, kind: NodeKind::Class };
    let opened = VisitState { scope: qname, ..declared(st, f.container, node) };
    let st1 = visit_attributes(t, c, inner, opened, n);
    let st2 = with_bases(st1, t, plain_kids(t, n), node.id, plain_kids(t, n).len() as int);
    if t.field(n, "body"@) is Some {
        all_add(t, c, inner, st2, t.field(n, "body"@)->0);
    }
}

proof fn anonymous_adds(t: TreeView, c: PhpFileView, f: FrameView, st: VisitState, n: usize)
    ensures
        grown(st, visit_anonymous(t, c, f, st, n)),
    decreases t.nodes.len() - n, 40int, 0int,
{
    let name = place_name(t, n);
    let st1 = declare_class(t, c, f, st, n, qualified(st.scope, name), name, None, ClassFlavour::Anonymous);
    class_adds(t, c, f, st, n, qualified(st.scope, name), name, None, ClassFlavour::Anonymous);
    if t.kid_of(n, "arguments"@) is Some {
        let arguments = t.kid_of(n, "arguments"@)->0;
        arguments_add(t, c, f, st1, arguments, t.kids(arguments).len() as int);
    }
}

proof fn arguments_add(t: TreeView, c: PhpFileView, f: FrameView, st: VisitState, n: usize, k: int)
    ensures
        grown(st, visit_arguments(t, c, f, st, n, k)),
    decreases t.nodes.len() - n, 10int, k,
{
    if 0 < k <= t.kids(n).len() {
        arguments_add(t, c, f, st, n, k - 1);
        let argument = t.kids(n)[k - 1];
        argument_adds(t, c, f, visit_arguments(t, c, f, st, n, k - 1), argument, t.kids(argument).len() as int);
    }
}

proof fn argument_adds(t: TreeView, c: PhpFileView, f: FrameView, st: VisitState, n: usize, k: int)
    ensures
        grown(st, visit_argument(t, c, f, st, n, k)),
    decreases t.nodes.len() - n, 10int, k,
{
    if 0 < k <= t.kids(n).len() {
        argument_adds(t, c, f, st, n, k - 1);
        visiting_adds(t, c, f, visit_argument(t, c, f, st, n, k - 1), t.kids(n)[k - 1]);
    }
}

proof fn call_arguments_add(t: TreeView, c: PhpFileView, f: FrameView, st: VisitState, n: usize, field: Seq<char>)
    ensures
        grown(st, visit_call_arguments(t, c, f, st, n, field)),
    decreases t.nodes.len() - n, 20int, 0int,
{
    if t.field(n, field) is Some {
        let arguments = t.field(n, field)->0;
        arguments_add(t, c, f, st, arguments, t.kids(arguments).len() as int);
    }
}

/// The node of a function or method.
pub open spec fn function_node(t: TreeView, c: PhpFileView, f: FrameView, st: VisitState, n: usize, name_node: usize) -> NodeView {
    made(
        c,
        t,
        if f.kind == NodeKind::Class {
            NodeKind::Method
        } else {
            NodeKind::Function
        },
        qualified(st.scope, t.text(name_node)),
        t.text(name_node),
        Some(n),
        function_metadata(t, n),
        Some(name_node),
    )
}

proof fn function_adds(t: TreeView, c: PhpFileView, f: FrameView, st: VisitState, n: usize)
    ensures
        grown(st, visit_function(t, c, f, st, n)),
        t.field(n, "name"@) is Some ==> grown(
            declared(st, f.container, function_node(t, c, f, st, n, t.field(n, "name"@)->0)),
            visit_function(t, c, f, st, n),
        ),
        t.field(n, "name"@) is Some ==> ({
            let node = function_node(t, c, f, st, n, t.field(n, "name"@)->0);
            let inner = FrameView { container: node.id, kind: node.kind };
            let opened = VisitState { scope: node.qualified_name, ..declared(st, f.container, node) };
            grown(
                typed(visit_attributes(t, c, inner, opened, n), t, t.field(n, "return_type"@), node.id),
                visit_function(t, c, f, st, n),
            )
        }),
    decreases t.nodes.len() - n, 40int, 0int,
{
    if t.field(n, "name"@) is Some {
        let name_node = t.field(n, "name"@)->0;
        let node = function_node(t, c, f, st, n, name_node);
        let owner = if f.kind == NodeKind::Class {
            Some((st.scope, f.container))
        } else {
            None
        };
        let inner = FrameView { container: node.id, kind: node.kind };
        let opened = VisitState { scope: node.qualified_name, ..declared(st, f.container, node) };
        let st1 = visit_attributes(t, c, inner, opened, n);
        attributes_add(t, c, inner, opened, n);
        let st2 = typed(st1, t, t.field(n, "return_type"@), node.id);
        types_add(st1, t, t.field(n, "return_type"@), node.id);
        let st3 = match t.field(n, "parameters"@) {
            Some(params) => visit_parameters(
                t,
                c,
                inner,
                st2,
                node.qualified_name,
                owner,
                params,
                t.kids(params).len() as int,
            ),
            None => st2,
        };
        if t.field(n, "parameters"@) is Some {
            let params = t.field(n, "parameters"@)->0;
            parameters_add(t, c, inner, st2, node.qualified_name, owner, params, 0, t.kids(params).len() as int);
        }
        if t.field(n, "body"@) is Some {
            all_add(t, c, inner, st3, t.field(n, "body"@)->0);
        }
    }
}

proof fn parameters_add(
    t: TreeView,
    c: PhpFileView,
    f: FrameView,
    st: VisitState,
    qname: Seq<char>,
    owner: Option<(Seq<char>, Seq<char>)>,
    n: usize,
    j: int,
    k: int,
)
    requires
        0 <= j <= k <= t.kids(n).len(),
    ensures
        grown(visit_parameters(t, c, f, st, qname, owner, n, j), visit_parameters(t, c, f, st, qname, owner, n, k)),
        visit_parameters(t, c, f, st, qname, owner, n, 0) == st,
    decreases t.nodes.len() - n, 10int, k,
{
    if j < k {
        parameters_add(t, c, f, st, qname, owner, n, j, k - 1);
        parameter_adds(t, c, f, visit_parameters(t, c, f, st, qname, owner, n, k - 1), qname, owner, t.kids(n)[k - 1]);
    }
}

/// The node of a parameter.
pub open spec fn parameter_node(t: TreeView, c: PhpFileView, qname: Seq<char>, n: usize, ident: usize) -> NodeView {
    let promoted = t.kind(n) == "property_promotion_parameter"@;
    made(
        c,
        t,
        NodeKind::Parameter,
        qname + "\\"@ + t.text(ident),
        t.text(ident),
        Some(n),
        no_metadata()
            .put("is_variadic"@, ValueView::Flag(t.kind(n) == "variadic_parameter"@))
            .put("is_promoted"@, ValueView::Flag(promoted))
            .put("has_default"@, ValueView::Flag(t.field(n, "default_value"@) is Some)),
        if promoted {
            None
        } else {
            Some(ident)
        },
    )
}

proof fn parameter_adds(
    t: TreeView,
    c: PhpFileView,
    f: FrameView,
    st: VisitState,
    qname: Seq<char>,
    owner: Option<(Seq<char>, Seq<char>)>,
    n: usize,
)
    ensures
        grown(st, visit_parameter(t, c, f, st, qname, owner, n)),
        is_parameter(t, n) && field_variable(t, n) is Some ==> grown(
            declared(st, f.container, parameter_node(t, c, qname, n, field_variable(t, n)->0)),
            visit_parameter(t, c, f, st, qname, owner, n),
        ),
    decreases t.nodes.len() - n, 40int, 0int,
{
    if is_parameter(t, n) && field_variable(t, n) is Some {
        let ident = field_variable(t, n)->0;
        let node = parameter_node(t, c, qname, n, ident);
        let st0 = declared(st, f.container, node);
        let st1 = visit_attributes(t, c, f, st0, n);
        let st2 = visit_hooks(t, c, f, st1, n);
        let st3 = typed(st2, t, t.field(n, "type"@), node.id);
        let st4 = visit_if(t, c, f, st3, t.field(n, "default_value"@), n);
        attributes_add(t, c, f, st0, n);
        hooks_add(t, c, f, st1, n);
        types_add(st2, t, t.field(n, "type"@), node.id);
        some_add(t, c, f, st3, t.field(n, "default_value"@), n);
        if owner is Some {
            promoted_adds(t, c, st4, n, ident, owner->0);
        }
    }
}

proof fn promoted_adds(t: TreeView, c: PhpFileView, st: VisitState, n: usize, ident: usize, owner: (Seq<char>, Seq<char>))
    ensures
        grown(st, promoted_property(t, c, st, n, ident, owner)),
{
    let name = t.text(ident);
    let node = made(
        c,
        t,
        NodeKind::Attribute,
        owner.0 + "\\"@ + name,
        name,
        Some(n),
        property_metadata(t, n, false, true),
        Some(ident),
    );
    types_add(declared(st, owner.1, node), t, t.field(n, "type"@), node.id);
}

proof fn callable_adds(t: TreeView, c: PhpFileView, f: FrameView, st: VisitState, n: usize)
    ensures
        grown(st, visit_callable(t, c, f, st, n)),
    decreases t.nodes.len() - n, 40int, 0int,
{
    let st1 = match t.field(n, "parameters"@) {
        Some(params) => visit_callable_parameters(t, c, f, st, params, t.kids(params).len() as int),
        None => st,
    };
    if t.field(n, "parameters"@) is Some {
        let params = t.field(n, "parameters"@)->0;
        callable_parameters_add(t, c, f, st, params, t.kids(params).len() as int);
    }
    types_add(st1, t, t.field(n, "return_type"@), f.container);
    some_add(t, c, f, typed(st1, t, t.field(n, "return_type"@), f.container), t.field(n, "body"@), n);
}

proof fn callable_parameters_add(t: TreeView, c: PhpFileView, f: FrameView, st: VisitState, n: usize, k: int)
    ensures
        grown(st, visit_callable_parameters(t, c, f, st, n, k)),
    decreases t.nodes.len() - n, 10int, k,
{
    if 0 < k <= t.kids(n).len() {
        callable_parameters_add(t, c, f, st, n, k - 1);
        let earlier = visit_callable_parameters(t, c, f, st, n, k - 1);
        let param = t.kids(n)[k - 1];
        types_add(earlier, t, t.field(param, "type"@), f.container);
        some_add(t, c, f, typed(earlier, t, t.field(param, "type"@), f.container), t.field(param, "default_value"@), param);
    }
}

/// The node of a property.
pub open spec fn property_node(t: TreeView, c: PhpFileView, scope: Seq<char>, n: usize, element: usize, ident: usize) -> NodeView {
    made(
        c,
        t,
        NodeKind::Attribute,
        qualified(scope, t.text(ident)),
        t.text(ident),
        Some(element),
        property_metadata(t, n, t.kid_of(n, "static_modifier"@) is Some, false),
        Some(ident),
    )
}

proof fn elements_add(t: TreeView, c: PhpFileView, f: FrameView, st: VisitState, n: usize, j: int, k: int)
    requires
        0 <= j <= k <= t.kids(n).len(),
    ensures
        grown(visit_property_elements(t, c, f, st, n, j), visit_property_elements(t, c, f, st, n, k)),
        visit_property_elements(t, c, f, st, n, 0) == st,
    decreases t.nodes.len() - n, 10int, k,
{
    if j < k {
        elements_add(t, c, f, st, n, j, k - 1);
        element_adds(t, c, f, st, n, k);
    }
}

proof fn element_adds(t: TreeView, c: PhpFileView, f: FrameView, st: VisitState, n: usize, k: int)
    requires
        0 < k <= t.kids(n).len(),
    ensures
        grown(visit_property_elements(t, c, f, st, n, k - 1), visit_property_elements(t, c, f, st, n, k)),
        t.kind(t.kids(n)[k - 1]) == "property_element"@ && field_variable(t, t.kids(n)[k - 1]) is Some ==> ({
            let earlier = visit_property_elements(t, c, f, st, n, k - 1);
            let node = property_node(t, c, earlier.scope, n, t.kids(n)[k - 1], field_variable(t, t.kids(n)[k - 1])->0);
            &&& grown(declared(earlier, f.container, node), visit_property_elements(t, c, f, st, n, k))
            &&& grown(
                typed(declared(earlier, f.container, node), t, t.field(n, "type"@), node.id),
                visit_property_elements(t, c, f, st, n, k),
            )
        }),
    decreases t.nodes.len() - n, 9int, 0int,
{
    let earlier = visit_property_elements(t, c, f, st, n, k - 1);
    let element = t.kids(n)[k - 1];
    if t.kind(element) == "property_element"@ && field_variable(t, element) is Some {
        let node = property_node(t, c, earlier.scope, n, element, field_variable(t, element)->0);
        let st0 = declared(earlier, f.container, node);
        types_add(st0, t, t.field(n, "type"@), node.id);
        let st1 = typed(st0, t, t.field(n, "type"@), node.id);
        some_add(t, c, f, st1, t.field(element, "default_value"@), element);
    }
}

/// The node of a constant.
pub open spec fn constant_node(t: TreeView, c: PhpFileView, f: FrameView, scope: Seq<char>, n: usize, element: usize, name_node: usize) -> NodeView {
    made(
        c,
        t,
        if f.kind == NodeKind::Class {
            NodeKind::Attribute
        } else {
            NodeKind::Variable
        },
        qualified(scope, t.text(name_node)),
        t.text(name_node),
        Some(element),
        constant_metadata(t, n, f.kind == NodeKind::Class),
        Some(name_node),
    )
}

proof fn constants_add(t: TreeView, c: PhpFileView, f: FrameView, st: VisitState, n: usize, j: int, k: int)
    requires
        0 <= j <= k <= t.kids(n).len(),
    ensures
        grown(visit_constant_elements(t, c, f, st, n, j), visit_constant_elements(t, c, f, st, n, k)),
        visit_constant_elements(t, c, f, st, n, 0) == st,
    decreases t.nodes.len() - n, 10int, k,
{
    if j < k {
        constants_add(t, c, f, st, n, j, k - 1);
        constant_adds(t, c, f, st, n, k);
    }
}

proof fn constant_adds(t: TreeView, c: PhpFileView, f: FrameView, st: VisitState, n: usize, k: int)
    requires
        0 < k <= t.kids(n).len(),
    ensures
        grown(visit_constant_elements(t, c, f, st, n, k - 1), visit_constant_elements(t, c, f, st, n, k)),
        t.kind(t.kids(n)[k - 1]) == "const_element"@ && t.kid_of(t.kids(n)[k - 1], "name"@) is Some ==> ({
            let earlier = visit_constant_elements(t, c, f, st, n, k - 1);
            let node = constant_node(t, c, f, earlier.scope, n, t.kids(n)[k - 1], t.kid_of(t.kids(n)[k - 1], "name"@)->0);
            grown(declared(earlier, f.container, node), visit_constant_elements(t, c, f, st, n, k))
        }),
    decreases t.nodes.len() - n, 9int, 0int,
{
    let earlier = visit_constant_elements(t, c, f, st, n, k - 1);
    let element = t.kids(n)[k - 1];
    if t.kind(element) == "const_element"@ && t.kid_of(element, "name"@) is Some {
        let name_node = t.kid_of(element, "name"@)->0;
        let node = constant_node(t, c, f, earlier.scope, n, element, name_node);
        let st0 = declared(earlier, f.container, node);
        types_add(st0, t, t.field(n, "type"@), node.id);
        let st1 = typed(st0, t, t.field(n, "type"@), node.id);
        value_adds(t, c, f, st1, element, name_node, t.kids(element).len() as int);
    }
}

proof fn value_adds(t: TreeView, c: PhpFileView, f: FrameView, st: VisitState, n: usize, name_node: usize, k: int)
    ensures
        grown(st, visit_value(t, c, f, st, n, name_node, k)),
    decreases t.nodes.len() - n, 10int, k,
{
    if 0 < k <= t.kids(n).len() {
        value_adds(t, c, f, st, n, name_node, k - 1);
        visiting_adds(t, c, f, visit_value(t, c, f, st, n, name_node, k - 1), t.kids(n)[k - 1]);
    }
}

proof fn case_adds(t: TreeView, c: PhpFileView, f: FrameView, st: VisitState, n: usize)
    ensures
        grown(st, visit_case(t, c, f, st, n)),
    decreases t.nodes.len() - n, 40int, 0int,
{
    if t.field(n, "name"@) is Some {
        let name_node = t.field(n, "name"@)->0;
        let name = t.text(name_node);
        let node = made(
            c,
            t,
            NodeKind::Attribute,
            qualified(st.scope, name),
            name,
            Some(n),
            no_metadata().put("is_enum_case"@, ValueView::Flag(true)),
            Some(name_node),
        );
        let st0 = declared(st, f.container, node);
        attributes_add(t, c, f, st0, n);
        some_add(t, c, f, visit_attributes(t, c, f, st0, n), t.field(n, "value"@), n);
    }
}

proof fn statics_add(t: TreeView, c: PhpFileView, f: FrameView, st: VisitState, n: usize, k: int)
    ensures
        grown(st, visit_statics(t, c, f, st, n, k)),
    decreases t.nodes.len() - n, 10int, k,
{
    if 0 < k <= t.kids(n).len() {
        statics_add(t, c, f, st, n, k - 1);
        let earlier = visit_statics(t, c, f, st, n, k - 1);
        let part = t.kids(n)[k - 1];
        if t.kind(part) == "static_variable_declaration"@ && field_variable(t, part) is Some {
            let ident = field_variable(t, part)->0;
            let name = t.text(ident);
            let node = made(
                c,
                t,
                NodeKind::Variable,
                qualified(earlier.scope, name),
                name,
                Some(part),
                no_metadata().put("is_static"@, ValueView::Flag(true)),
                Some(ident),
            );
            some_add(t, c, f, declared(earlier, f.container, node), t.field(part, "value"@), part);
        }
    }
}

proof fn call_adds(t: TreeView, c: PhpFileView, f: FrameView, st: VisitState, n: usize)
    ensures
        grown(st, visit_call(t, c, f, st, n)),
    decreases t.nodes.len() - n, 40int, 0int,
{
    let st1 = match t.field(n, "function"@) {
        Some(function) => if t.kind_among(function, NAME_KINDS@) {
            used_if(st, t, "call"@, final_name(t, function), f.container)
        } else {
            visit(t, c, f, st, function)
        },
        None => st,
    };
    if t.field(n, "function"@) is Some && !t.kind_among(t.field(n, "function"@)->0, NAME_KINDS@) {
        visiting_adds(t, c, f, st, t.field(n, "function"@)->0);
    }
    call_arguments_add(t, c, f, st1, n, "arguments"@);
}

proof fn creation_adds(t: TreeView, c: PhpFileView, f: FrameView, st: VisitState, n: usize, j: int, k: int)
    requires
        0 <= j <= k <= plain_kids(t, n).len(),
    ensures
        grown(visit_creation(t, c, f, st, n, j), visit_creation(t, c, f, st, n, k)),
        visit_creation(t, c, f, st, n, 0) == st,
    decreases t.nodes.len() - n, 10int, k,
{
    if j < k {
        creation_adds(t, c, f, st, n, j, k - 1);
        plain_are_below(t, n, t.kids(n).len() as int);
        let earlier = visit_creation(t, c, f, st, n, k - 1);
        let part = plain_kids(t, n)[k - 1];
        assert(t.below(n, part));
        if t.kind(part) == "new"@ {
        } else if t.kind(part) == "anonymous_class"@ {
            anonymous_adds(t, c, f, earlier, part);
        } else if t.kind(part) == "arguments"@ {
            arguments_add(t, c, f, earlier, part, t.kids(part).len() as int);
        } else if t.kind_among(part, NAME_KINDS@) {
        } else {
            visiting_adds(t, c, f, earlier, part);
        }
    }
}

proof fn constant_access_adds(t: TreeView, c: PhpFileView, f: FrameView, st: VisitState, n: usize)
    ensures
        grown(st, visit_constant_access(t, c, f, st, n)),
    decreases t.nodes.len() - n, 40int, 0int,
{
    let list = plain_kids(t, n);
    if list.len() > 0 {
        plain_are_below(t, n, t.kids(n).len() as int);
        assert(t.below(n, list[0]));
        visiting_adds(t, c, f, st, list[0]);
    }
}

proof fn member_adds(t: TreeView, c: PhpFileView, f: FrameView, st: VisitState, n: usize, role: Seq<char>)
    ensures
        grown(st, visit_member(t, c, f, st, n, role)),
        t.field(n, "name"@) is Some && t.kind(t.field(n, "name"@)->0) == "name"@ ==> grown(
            used(st, t, role, t.field(n, "name"@)->0, f.container),
            visit_member(t, c, f, st, n, role),
        ),
    decreases t.nodes.len() - n, 40int, 0int,
{
    let st1 = match t.field(n, "name"@) {
        Some(name) => if t.kind(name) == "name"@ {
            used(st, t, role, name, f.container)
        } else if t.kind(name) == "variable_name"@ && t.kind(n) == "scoped_property_access_expression"@ {
            used_if(st, t, role, variable_name(t, name), f.container)
        } else {
            visit(t, c, f, st, name)
        },
        None => st,
    };
    if t.field(n, "name"@) is Some {
        visiting_adds(t, c, f, st, t.field(n, "name"@)->0);
    }
    let receiver = match t.field(n, "object"@) {
        Some(o) => Some(o),
        None => t.field(n, "scope"@),
    };
    some_add(t, c, f, st1, receiver, n);
}

proof fn target_adds(t: TreeView, c: PhpFileView, f: FrameView, st: VisitState, n: usize)
    ensures
        grown(st, visit_target(t, c, f, st, n)),
    decreases t.nodes.len() - n, 60int, 0int,
{
    if is_access(t, n) {
        member_adds(t, c, f, st, n, "write"@);
    } else if t.kind(n) == "list_literal"@ || t.kind(n) == "pair"@ || t.kind(n) == "by_ref"@ {
        targets_add(t, c, f, st, n, t.kids(n).len() as int);
    } else {
        visiting_adds(t, c, f, st, n);
    }
}

proof fn targets_add(t: TreeView, c: PhpFileView, f: FrameView, st: VisitState, n: usize, k: int)
    ensures
        grown(st, visit_targets(t, c, f, st, n, k)),
    decreases t.nodes.len() - n, 10int, k,
{
    if 0 < k <= t.kids(n).len() {
        targets_add(t, c, f, st, n, k - 1);
        target_adds(t, c, f, visit_targets(t, c, f, st, n, k - 1), t.kids(n)[k - 1]);
    }
}

/// Reading a node keeps every node, edge and use that was read before it.
#[verifier::rlimit(60)]
pub proof fn visiting_adds(t: TreeView, c: PhpFileView, f: FrameView, st: VisitState, n: usize)
    ensures
        grown(st, visit(t, c, f, st, n)),
    decreases t.nodes.len() - n, 50int, 0int,
{
    if t.kind_among(n, MARKUP_KINDS@) || t.kind(n) == "variable_name"@ {
    } else if t.kind(n) == "namespace_definition"@ {
        if t.field(n, "body"@) is Some {
            all_add(t, c, f, VisitState { scope: namespace_name(t, n), ..st }, t.field(n, "body"@)->0);
        }
    } else if t.kind(n) == "class_declaration"@ || t.kind(n) == "interface_declaration"@ || t.kind(n)
        == "trait_declaration"@ || t.kind(n) == "enum_declaration"@ {
        if t.field(n, "name"@) is Some {
            let name_node = t.field(n, "name"@)->0;
            let name = t.text(name_node);
            let qname = qualified(st.scope, name);
            class_adds(t, c, f, st, n, qname, name, Some(name_node), ClassFlavour::Class);
            class_adds(t, c, f, st, n, qname, name, Some(name_node), ClassFlavour::Interface);
            class_adds(t, c, f, st, n, qname, name, Some(name_node), ClassFlavour::Trait);
            class_adds(t, c, f, st, n, qname, name, Some(name_node), ClassFlavour::Enumeration);
        }
    } else if t.kind(n) == "function_definition"@ || t.kind(n) == "method_declaration"@ {
        function_adds(t, c, f, st, n);
    } else if t.kind(n) == "property_declaration"@ {
        let st1 = visit_property_elements(t, c, f, st, n, t.kids(n).len() as int);
        elements_add(t, c, f, st, n, 0, t.kids(n).len() as int);
        attributes_add(t, c, f, st1, n);
        hooks_add(t, c, f, visit_attributes(t, c, f, st1, n), n);
    } else if t.kind(n) == "const_declaration"@ {
        constants_add(t, c, f, st, n, 0, t.kids(n).len() as int);
        attributes_add(t, c, f, visit_constant_elements(t, c, f, st, n, t.kids(n).len() as int), n);
    } else if t.kind(n) == "enum_case"@ {
        case_adds(t, c, f, st, n);
    } else if t.kind(n) == "use_declaration"@ {
        traits_add(st, t, t.kids(n), f.container, 0, t.kids(n).len() as int);
    } else if t.kind(n) == "namespace_use_declaration"@ {
        uses_add(c, t, f, st, uses_of(t, n), 0, uses_of(t, n).len() as int);
    } else if t.kind(n) == "function_static_declaration"@ {
        statics_add(t, c, f, st, n, t.kids(n).len() as int);
    } else if is_unnamed(t, n) {
        callable_adds(t, c, f, st, n);
    } else if t.kind(n) == "function_call_expression"@ {
        call_adds(t, c, f, st, n);
    } else if is_member_call(t, n) {
        member_adds(t, c, f, st, n, "call"@);
        call_arguments_add(t, c, f, visit_member(t, c, f, st, n, "call"@), n, "arguments"@);
    } else if t.kind(n) == "object_creation_expression"@ {
        creation_adds(t, c, f, st, n, 0, plain_kids(t, n).len() as int);
    } else if t.kind(n) == "attribute"@ {
        let st1 = match t.kid_among(n, NAME_KINDS@) {
            Some(name) => used_if(st, t, "call"@, final_name(t, name), f.container),
            None => st,
        };
        call_arguments_add(t, c, f, st1, n, "parameters"@);
    } else if is_access(t, n) {
        member_adds(t, c, f, st, n, "read"@);
    } else if t.kind(n) == "class_constant_access_expression"@ {
        constant_access_adds(t, c, f, st, n);
    } else if is_assignment(t, n) {
        if t.field(n, "left"@) is Some {
            target_adds(t, c, f, st, t.field(n, "left"@)->0);
        }
        some_add(t, c, f, visit_target_if(t, c, f, st, n, "left"@), t.field(n, "right"@), n);
    } else if t.kind(n) == "update_expression"@ {
        if t.field(n, "argument"@) is Some {
            target_adds(t, c, f, st, t.field(n, "argument"@)->0);
        }
    } else if t.kind(n) == "binary_expression"@ {
        let name = match tested_class(t, n) {
            Some(right) => final_name(t, right),
            None => None,
        };
        match name {
            Some(name) => some_add(t, c, f, used(st, t, "annotation"@, name, f.container), t.field(n, "left"@), n),
            None => all_add(t, c, f, st, n),
        }
    } else if t.kind(n) == "catch_clause"@ {
        types_add(st, t, t.field(n, "type"@), f.container);
        some_add(t, c, f, typed(st, t, t.field(n, "type"@), f.container), t.field(n, "body"@), n);
    } else if t.kind_among(n, NAME_KINDS@) {
    } else {
        all_add(t, c, f, st, n);
    }
}

// ---------------------------------------------------------------------------
// Uses
// ---------------------------------------------------------------------------

/// Whether a node of the tree was noted as a use in a role, inside of a node of the graph.
pub open spec fn notes_use(st: VisitState, t: TreeView, role: Seq<char>, n: usize, id: Seq<char>) -> bool {
    st.uses.contains(
        OccurrenceView {
            role,
            line: t.span(n).start_line,
            col: t.span(n).start_col,
            enclosing_id: id,
            span: t.span(n),
        },
    )
}

proof fn noted(st: VisitState, t: TreeView, role: Seq<char>, n: usize, id: Seq<char>, after: VisitState)
    requires
        grown(used(st, t, role, n, id), after),
    ensures
        notes_use(after, t, role, n, id),
{
    let list = used(st, t, role, n, id).uses;
    assert(list[st.uses.len() as int] == occurrence_at(role, id, t.span(n)));
    assert(list.contains(occurrence_at(role, id, t.span(n))));
    going_on_keeps(list, after.uses, occurrence_at(role, id, t.span(n)));
}

proof fn still_noted(a: VisitState, b: VisitState, t: TreeView, role: Seq<char>, n: usize, id: Seq<char>)
    requires
        grown(a, b),
        notes_use(a, t, role, n, id),
    ensures
        notes_use(b, t, role, n, id),
{
    going_on_keeps(a.uses, b.uses, occurrence_at(role, id, t.span(n)));
}

proof fn refs_noted(st: VisitState, t: TreeView, role: Seq<char>, list: Seq<usize>, id: Seq<char>, k: int, j: int, position: usize)
    requires
        0 <= j < k <= list.len(),
        final_name(t, list[j]) == Some(position),
    ensures
        notes_use(used_refs(st, t, role, list, id, k), t, role, position, id),
    decreases k,
{
    let earlier = used_refs(st, t, role, list, id, k - 1);
    let after = used_refs(st, t, role, list, id, k);
    if j == k - 1 {
        noted(earlier, t, role, position, id, after);
    } else {
        refs_noted(st, t, role, list, id, k - 1, j, position);
        still_noted(earlier, after, t, role, position, id);
    }
}

proof fn no_markup(t: TreeView, n: usize)
    requires
        t.kind(n).len() > 11,
        t.kind(n) != "text_interpolation"@,
    ensures
        !t.kind_among(n, MARKUP_KINDS@),
{
    kinds_differ();
    let table = MARKUP_KINDS@;
    assert(table[0]@ == "text"@ && table[1]@ == "php_tag"@ && table[2]@ == "php_end_tag"@ && table[3]@ == "comment"@
        && table[4]@ == "text_interpolation"@);
}

/// A name that is called and the class of an object that is created are called; the right
/// side of a test of a type is a type.
pub proof fn called_names_are_calls(t: TreeView, c: PhpFileView, f: FrameView, st: VisitState, n: usize, name: usize, position: usize)
    requires
        t.kind_among(name, NAME_KINDS@),
        final_name(t, name) == Some(position),
    ensures
        t.kind(n) == "function_call_expression"@ && t.field(n, "function"@) == Some(name) ==> notes_use(
            visit(t, c, f, st, n),
            t,
            "call"@,
            position,
            f.container,
        ),
        t.kind(n) == "binary_expression"@ && tested_class(t, n) == Some(name) ==> notes_use(
            visit(t, c, f, st, n),
            t,
            "annotation"@,
            position,
            f.container,
        ),
        t.kind(n) == "object_creation_expression"@ && plain_kids(t, n).contains(name) ==> notes_use(
            visit(t, c, f, st, n),
            t,
            "call"@,
            position,
            f.container,
        ),
{
    kinds_differ();
    let table = NAME_KINDS@;
    assert(table[0]@ == "name"@ && table[1]@ == "qualified_name"@ && table[2]@ == "relative_name"@);
    if t.kind(n) == "function_call_expression"@ && t.field(n, "function"@) == Some(name) {
        no_markup(t, n);
        call_arguments_add(t, c, f, used(st, t, "call"@, position, f.container), n, "arguments"@);
        noted(st, t, "call"@, position, f.container, visit(t, c, f, st, n));
    }
    if t.kind(n) == "binary_expression"@ && tested_class(t, n) == Some(name) {
        no_markup(t, n);
        some_add(t, c, f, used(st, t, "annotation"@, position, f.container), t.field(n, "left"@), n);
        noted(st, t, "annotation"@, position, f.container, visit(t, c, f, st, n));
    }
    if t.kind(n) == "object_creation_expression"@ && plain_kids(t, n).contains(name) {
        no_markup(t, n);
        let list = plain_kids(t, n);
        let j = choose|j: int| 0 <= j < list.len() && list[j] == name;
        creation_adds(t, c, f, st, n, j + 1, list.len() as int);
        let earlier = visit_creation(t, c, f, st, n, j);
        noted(earlier, t, "call"@, position, f.container, visit_creation(t, c, f, st, n, j + 1));
        still_noted(
            visit_creation(t, c, f, st, n, j + 1),
            visit(t, c, f, st, n),
            t,
            "call"@,
            position,
            f.container,
        );
    }
}

/// A member that is called is called, one that is accessed is read, and one that is
/// assigned to is written.
pub proof fn members_are_used_by_their_place(t: TreeView, c: PhpFileView, f: FrameView, st: VisitState, n: usize, name: usize)
    requires
        t.field(n, "name"@) == Some(name),
        t.kind(name) == "name"@,
    ensures
        t.kind(n) == "member_call_expression"@ || t.kind(n) == "nullsafe_member_call_expression"@ || t.kind(n)
            == "scoped_call_expression"@ ==> notes_use(visit(t, c, f, st, n), t, "call"@, name, f.container),
        t.kind(n) == "member_access_expression"@ || t.kind(n) == "nullsafe_member_access_expression"@ ==> notes_use(
            visit(t, c, f, st, n),
            t,
            "read"@,
            name,
            f.container,
        ),
        t.kind(n) == "member_access_expression"@ || t.kind(n) == "nullsafe_member_access_expression"@ ==> notes_use(
            visit_target(t, c, f, st, n),
            t,
            "write"@,
            name,
            f.container,
        ),
{
    kinds_differ();
    if is_member_call(t, n) {
        no_markup(t, n);
        member_adds(t, c, f, st, n, "call"@);
        let st1 = visit_member(t, c, f, st, n, "call"@);
        noted(st, t, "call"@, name, f.container, st1);
        call_arguments_add(t, c, f, st1, n, "arguments"@);
        still_noted(st1, visit(t, c, f, st, n), t, "call"@, name, f.container);
    }
    if t.kind(n) == "member_access_expression"@ || t.kind(n) == "nullsafe_member_access_expression"@ {
        no_markup(t, n);
        member_adds(t, c, f, st, n, "read"@);
        noted(st, t, "read"@, name, f.container, visit(t, c, f, st, n));
        member_adds(t, c, f, st, n, "write"@);
        noted(st, t, "write"@, name, f.container, visit_target(t, c, f, st, n));
    }
}

/// The left side of an assignment is written, not read.
pub proof fn assignments_write(t: TreeView, c: PhpFileView, f: FrameView, st: VisitState, n: usize, left: usize, name: usize)
    requires
        t.kind(n) == "assignment_expression"@ || t.kind(n) == "augmented_assignment_expression"@ || t.kind(n)
            == "reference_assignment_expression"@,
        t.field(n, "left"@) == Some(left),
        t.kind(left) == "member_access_expression"@,
        t.field(left, "name"@) == Some(name),
        t.kind(name) == "name"@,
    ensures
        notes_use(visit(t, c, f, st, n), t, "write"@, name, f.container),
{
    kinds_differ();
    no_markup(t, n);
    members_are_used_by_their_place(t, c, f, st, left, name);
    let st1 = visit_target(t, c, f, st, left);
    some_add(t, c, f, st1, t.field(n, "right"@), n);
    still_noted(st1, visit(t, c, f, st, n), t, "write"@, name, f.container);
}

/// A name that stands for a value is read, and so is a constant of a class.
pub proof fn other_names_are_read(t: TreeView, c: PhpFileView, f: FrameView, st: VisitState, n: usize, position: usize)
    ensures
        t.kind_among(n, NAME_KINDS@) && final_name(t, n) == Some(position) ==> notes_use(
            visit(t, c, f, st, n),
            t,
            "read"@,
            position,
            f.container,
        ),
        t.kind(n) == "class_constant_access_expression"@ && plain_kids(t, n).len() > 1 && plain_kids(t, n).last() == position
            && t.kind(position) == "name"@ ==> notes_use(visit(t, c, f, st, n), t, "read"@, position, f.container),
{
    kinds_differ();
    let table = NAME_KINDS@;
    assert(table[0]@ == "name"@ && table[1]@ == "qualified_name"@ && table[2]@ == "relative_name"@);
    if t.kind_among(n, NAME_KINDS@) && final_name(t, n) == Some(position) {
        let marks = MARKUP_KINDS@;
        assert(marks[0]@ == "text"@ && marks[1]@ == "php_tag"@ && marks[2]@ == "php_end_tag"@ && marks[3]@ == "comment"@
            && marks[4]@ == "text_interpolation"@);
        assert(!t.kind_among(n, MARKUP_KINDS@));
        noted(st, t, "read"@, position, f.container, visit(t, c, f, st, n));
    }
    if t.kind(n) == "class_constant_access_expression"@ && plain_kids(t, n).len() > 1 && plain_kids(t, n).last() == position
        && t.kind(position) == "name"@ {
        no_markup(t, n);
        plain_are_below(t, n, t.kids(n).len() as int);
        noted(visit(t, c, f, st, plain_kids(t, n)[0]), t, "read"@, position, f.container, visit(t, c, f, st, n));
    }
}

/// The traits that a class uses are bases of it.
pub proof fn traits_are_bases(t: TreeView, c: PhpFileView, f: FrameView, st: VisitState, n: usize, j: int, position: usize)
    requires
        t.kind(n) == "use_declaration"@,
        0 <= j < t.kids(n).len(),
        t.kind_among(t.kids(n)[j], NAME_KINDS@),
        final_name(t, t.kids(n)[j]) == Some(position),
    ensures
        notes_use(visit(t, c, f, st, n), t, "base"@, position, f.container),
{
    kinds_differ();
    no_markup(t, n);
    let list = t.kids(n);
    traits_add(st, t, list, f.container, j + 1, list.len() as int);
    let st1 = with_traits(st, t, list, f.container, j + 1);
    noted(with_traits(st, t, list, f.container, j), t, "base"@, position, f.container, st1);
    still_noted(st1, visit(t, c, f, st, n), t, "base"@, position, f.container);
}

/// The classes that the type of a caught exception names are types.
pub proof fn caught_classes_are_types(t: TreeView, c: PhpFileView, f: FrameView, st: VisitState, n: usize, type_node: usize, j: int, position: usize)
    requires
        t.kind(n) == "catch_clause"@,
        t.field(n, "type"@) == Some(type_node),
        0 <= j < class_names(t, type_node).len(),
        final_name(t, class_names(t, type_node)[j]) == Some(position),
    ensures
        notes_use(visit(t, c, f, st, n), t, "annotation"@, position, f.container),
{
    kinds_differ();
    no_markup(t, n);
    let refs = class_names(t, type_node);
    let st1 = typed(st, t, Some(type_node), f.container);
    refs_noted(st, t, "annotation"@, refs, f.container, refs.len() as int, j, position);
    some_add(t, c, f, st1, t.field(n, "body"@), n);
    still_noted(st1, visit(t, c, f, st, n), t, "annotation"@, position, f.container);
}

// ---------------------------------------------------------------------------
// Declarations
// ---------------------------------------------------------------------------

/// Whether a node of the graph is declared by a container.
pub open spec fn declares(st: VisitState, container: Seq<char>, id: Seq<char>) -> bool {
    st.graph.relations.contains(
        RelationView { source_id: container, target_id: id, kind: RelationKind::Declares, metadata: Seq::empty() },
    )
}

proof fn declared_stays(st: VisitState, container: Seq<char>, node: NodeView, after: VisitState)
    requires
        grown(declared(st, container, node), after),
    ensures
        declares(after, container, node.id),
        node_at(st.graph.nodes, node.id) is None ==> after.graph.nodes.contains(node),
{
    let st1 = declared(st, container, node);
    let edge = plain_edge(container, node.id, RelationKind::Declares);
    let edges = st1.graph.relations;
    assert(edges[edges.len() - 1] == edge);
    assert(edges.contains(edge));
    going_on_keeps(edges, after.graph.relations, edge);
    added_nodes_are_found(st.graph, node, node.id);
    if node_at(st.graph.nodes, node.id) is None {
        ids_find_nodes(st1.graph.nodes, node.id);
        assert(st1.graph.nodes.contains(node));
        going_on_keeps(st1.graph.nodes, after.graph.nodes, node);
    }
}

/// The flavour that a kind of declaration has.
pub open spec fn flavour_of(kind: Seq<char>) -> ClassFlavour {
    if kind == "interface_declaration"@ {
        ClassFlavour::Interface
    } else if kind == "trait_declaration"@ {
        ClassFlavour::Trait
    } else if kind == "enum_declaration"@ {
        ClassFlavour::Enumeration
    } else {
        ClassFlavour::Class
    }
}

proof fn flags_are_kept(t: TreeView, n: usize, flavour: ClassFlavour, name_node: usize)
    ensures
        ({
            let m = class_metadata(t, n, flavour).put("name_span"@, ValueView::Place(t.span(name_node)));
            &&& lookup(m, "is_interface"@) == Some(ValueView::Flag(flavour is Interface))
            &&& lookup(m, "is_trait"@) == Some(ValueView::Flag(flavour is Trait))
            &&& lookup(m, "is_enum"@) == Some(ValueView::Flag(flavour is Enumeration))
            &&& lookup(m, "is_anonymous"@) == Some(ValueView::Flag(flavour is Anonymous))
            &&& lookup(m, "is_abstract"@) == Some(ValueView::Flag(t.kid_of(n, "abstract_modifier"@) is Some))
            &&& lookup(m, "name_span"@) == Some(ValueView::Place(t.span(name_node)))
        }),
{
    keys_differ();
    let m0 = no_metadata();
    let v1 = ValueView::Flag(flavour == ClassFlavour::Interface);
    let v2 = ValueView::Flag(flavour == ClassFlavour::Trait);
    let v3 = ValueView::Flag(flavour == ClassFlavour::Enumeration);
    let v4 = ValueView::Flag(flavour == ClassFlavour::Anonymous);
    let v5 = ValueView::Flag(t.kid_of(n, "abstract_modifier"@) is Some);
    let v6 = ValueView::Place(t.span(name_node));
    let m1 = stored(m0, "is_interface"@, v1);
    let m2 = stored(m1, "is_trait"@, v2);
    let m3 = stored(m2, "is_enum"@, v3);
    let m4 = stored(m3, "is_anonymous"@, v4);
    let m5 = stored(m4, "is_abstract"@, v5);
    let m6 = stored(m5, "name_span"@, v6);
    assert forall|key: Seq<char>| #[trigger] lookup(m6, key) == lookup(m6, key) implies lookup(m6, key) == (if key
        == "name_span"@ {
        Some(v6)
    } else if key == "is_abstract"@ {
        Some(v5)
    } else if key == "is_anonymous"@ {
        Some(v4)
    } else if key == "is_enum"@ {
        Some(v3)
    } else if key == "is_trait"@ {
        Some(v2)
    } else if key == "is_interface"@ {
        Some(v1)
    } else {
        lookup(m0, key)
    }) by {
        stored_then_found(m0, "is_interface"@, v1, key);
        stored_then_found(m1, "is_trait"@, v2, key);
        stored_then_found(m2, "is_enum"@, v3, key);
        stored_then_found(m3, "is_anonymous"@, v4, key);
        stored_then_found(m4, "is_abstract"@, v5, key);
        stored_then_found(m5, "name_span"@, v6, key);
    }
}

/// A class, an interface, a trait and an enumeration are declared by what is around them,
/// as classes that say which of the four they are, under their name in the scope.
pub proof fn classes_are_declared(t: TreeView, c: PhpFileView, f: FrameView, st: VisitState, n: usize, name: usize)
    requires
        t.kind(n) == "class_declaration"@ || t.kind(n) == "interface_declaration"@ || t.kind(n) == "trait_declaration"@
            || t.kind(n) == "enum_declaration"@,
        t.field(n, "name"@) == Some(name),
    ensures
        ({
            let qname = qualified(st.scope, t.text(name));
            let id = kind_id(c.project, qname, NodeKind::Class);
            let after = visit(t, c, f, st, n);
            &&& declares(after, f.container, id)
            &&& after.scope == st.scope
            &&& node_at(st.graph.nodes, id) is None ==> exists|x: NodeView| #[trigger] after.graph.nodes.contains(x) && {
                &&& x.id == id
                &&& x.kind is Class
                &&& x.qualified_name == qname
                &&& x.name == t.text(name)
                &&& x.file_path == Some(c.file_rel)
                &&& x.span == Some(t.span(n))
                &&& lookup(x.metadata, "is_interface"@) == Some(ValueView::Flag(t.kind(n) == "interface_declaration"@))
                &&& lookup(x.metadata, "is_trait"@) == Some(ValueView::Flag(t.kind(n) == "trait_declaration"@))
                &&& lookup(x.metadata, "is_enum"@) == Some(ValueView::Flag(t.kind(n) == "enum_declaration"@))
                &&& lookup(x.metadata, "is_anonymous"@) == Some(ValueView::Flag(false))
                &&& lookup(x.metadata, "is_abstract"@) == Some(ValueView::Flag(t.kid_of(n, "abstract_modifier"@) is Some))
                &&& lookup(x.metadata, "name_span"@) == Some(ValueView::Place(t.span(name)))
            }
        }),
{
    kinds_differ();
    no_markup(t, n);
    let flavour = flavour_of(t.kind(n));
    let qname = qualified(st.scope, t.text(name));
    let node = made(c, t, NodeKind::Class, qname, t.text(name), Some(n), class_metadata(t, n, flavour), Some(name));
    class_adds(t, c, f, st, n, qname, t.text(name), Some(name), flavour);
    declared_stays(st, f.container, node, visit(t, c, f, st, n));
    flags_are_kept(t, n, flavour, name);
}

proof fn bases_noted(st: VisitState, t: TreeView, list: Seq<usize>, id: Seq<char>, k: int, i: int, j: int, position: usize)
    requires
        0 <= i < k <= list.len(),
        t.kind_among(list[i], BASE_KINDS@),
        0 <= j < class_names(t, list[i]).len(),
        final_name(t, class_names(t, list[i])[j]) == Some(position),
    ensures
        notes_use(with_bases(st, t, list, id, k), t, "base"@, position, id),
    decreases k,
{
    let earlier = with_bases(st, t, list, id, k - 1);
    let refs = class_names(t, list[k - 1]);
    if i == k - 1 {
        refs_noted(earlier, t, "base"@, refs, id, refs.len() as int, j, position);
    } else {
        bases_noted(st, t, list, id, k - 1, i, j, position);
        refs_add(earlier, t, "base"@, refs, id, refs.len() as int);
        still_noted(earlier, with_bases(st, t, list, id, k), t, "base"@, position, id);
    }
}

/// What the clauses of a class name are its bases, and the class is what inherits from
/// them.
pub proof fn clauses_name_bases(t: TreeView, c: PhpFileView, f: FrameView, st: VisitState, n: usize, name: usize, i: int, j: int, position: usize)
    requires
        t.kind(n) == "class_declaration"@ || t.kind(n) == "interface_declaration"@ || t.kind(n) == "enum_declaration"@,
        t.field(n, "name"@) == Some(name),
        0 <= i < plain_kids(t, n).len(),
        t.kind(plain_kids(t, n)[i]) == "base_clause"@ || t.kind(plain_kids(t, n)[i]) == "class_interface_clause"@,
        0 <= j < class_names(t, plain_kids(t, n)[i]).len(),
        final_name(t, class_names(t, plain_kids(t, n)[i])[j]) == Some(position),
    ensures
        notes_use(
            visit(t, c, f, st, n),
            t,
            "base"@,
            position,
            kind_id(c.project, qualified(st.scope, t.text(name)), NodeKind::Class),
        ),
{
    kinds_differ();
    no_markup(t, n);
    let table = BASE_KINDS@;
    assert(table[0]@ == "base_clause"@ && table[1]@ == "class_interface_clause"@);
    let list = plain_kids(t, n);
    assert(t.kind_among(list[i], BASE_KINDS@));
    let flavour = flavour_of(t.kind(n));
    let qname = qualified(st.scope, t.text(name));
    let node = made(c, t, NodeKind::Class, qname, t.text(name), Some(n), class_metadata(t, n, flavour), Some(name));
    let inner = FrameView { container: node.id, kind: NodeKind::Class };
    let opened = VisitState { scope: qname, ..declared(st, f.container, node) };
    let st1 = visit_attributes(t, c, inner, opened, n);
    bases_noted(st1, t, list, node.id, list.len() as int, i, j, position);
    class_bases_add(t, c, f, st, n, qname, t.text(name), Some(name), flavour);
    still_noted(
        with_bases(st1, t, list, node.id, list.len() as int),
        visit(t, c, f, st, n),
        t,
        "base"@,
        position,
        node.id,
    );
}

/// A function is declared by what is around it under its name in the scope: as a method in
/// a class, and as a function anywhere else. The classes of its result are types of it.
pub proof fn functions_are_declared(t: TreeView, c: PhpFileView, f: FrameView, st: VisitState, n: usize, name: usize, type_node: usize, j: int, position: usize)
    requires
        t.kind(n) == "function_definition"@ || t.kind(n) == "method_declaration"@,
        t.field(n, "name"@) == Some(name),
    ensures
        ({
            let qname = qualified(st.scope, t.text(name));
            let after = visit(t, c, f, st, n);
            let method = kind_id(c.project, qname, NodeKind::Method);
            let function = kind_id(c.project, qname, NodeKind::Function);
            let typed_by = t.field(n, "return_type"@) == Some(type_node) && 0 <= j < class_names(t, type_node).len()
                && final_name(t, class_names(t, type_node)[j]) == Some(position);
            &&& f.kind is Class ==> declares(after, f.container, method)
            &&& f.kind !is Class ==> declares(after, f.container, function)
            &&& after.scope == st.scope
            &&& f.kind is Class && node_at(st.graph.nodes, method) is None ==> exists|x: NodeView| #[trigger] after.graph.nodes.contains(x) && {
                &&& x.id == method
                &&& x.kind is Method
                &&& x.qualified_name == qname
                &&& x.name == t.text(name)
                &&& x.file_path == Some(c.file_rel)
                &&& x.span == Some(t.span(n))
            }
            &&& f.kind !is Class && node_at(st.graph.nodes, function) is None ==> exists|x: NodeView| #[trigger] after.graph.nodes.contains(x) && {
                &&& x.id == function
                &&& x.kind is Function
                &&& x.qualified_name == qname
                &&& x.name == t.text(name)
                &&& x.file_path == Some(c.file_rel)
                &&& x.span == Some(t.span(n))
            }
            &&& f.kind is Class && typed_by ==> notes_use(after, t, "annotation"@, position, method)
            &&& f.kind !is Class && typed_by ==> notes_use(after, t, "annotation"@, position, function)
        }),
{
    kinds_differ();
    no_markup(t, n);
    let node = function_node(t, c, f, st, n, name);
    function_adds(t, c, f, st, n);
    declared_stays(st, f.container, node, visit(t, c, f, st, n));
    let inner = FrameView { container: node.id, kind: node.kind };
    let opened = VisitState { scope: node.qualified_name, ..declared(st, f.container, node) };
    let st1 = visit_attributes(t, c, inner, opened, n);
    if t.field(n, "return_type"@) == Some(type_node) && 0 <= j < class_names(t, type_node).len() && final_name(
        t,
        class_names(t, type_node)[j],
    ) == Some(position) {
        let refs = class_names(t, type_node);
        refs_noted(st1, t, "annotation"@, refs, node.id, refs.len() as int, j, position);
        still_noted(
            typed(st1, t, Some(type_node), node.id),
            visit(t, c, f, st, n),
            t,
            "annotation"@,
            position,
            node.id,
        );
    }
}

/// A parameter is declared by its function, below the name of the function.
pub proof fn parameters_are_declared(
    t: TreeView,
    c: PhpFileView,
    f: FrameView,
    st: VisitState,
    qname: Seq<char>,
    owner: Option<(Seq<char>, Seq<char>)>,
    n: usize,
    j: int,
    k: int,
    ident: usize,
)
    requires
        0 <= j < k <= t.kids(n).len(),
        t.kind(t.kids(n)[j]) == "simple_parameter"@ || t.kind(t.kids(n)[j]) == "variadic_parameter"@ || t.kind(
            t.kids(n)[j],
        ) == "property_promotion_parameter"@,
        field_variable(t, t.kids(n)[j]) == Some(ident),
    ensures
        declares(
            visit_parameters(t, c, f, st, qname, owner, n, k),
            f.container,
            kind_id(c.project, qname + "\\"@ + t.text(ident), NodeKind::Parameter),
        ),
{
    parameters_add(t, c, f, st, qname, owner, n, j + 1, k);
    let earlier = visit_parameters(t, c, f, st, qname, owner, n, j);
    let p = t.kids(n)[j];
    parameter_adds(t, c, f, earlier, qname, owner, p);
    declared_stays(
        earlier,
        f.container,
        parameter_node(t, c, qname, p, ident),
        visit_parameters(t, c, f, st, qname, owner, n, k),
    );
}

/// A promoted parameter is a property of its class besides.
pub proof fn promoted_parameters_are_properties(
    t: TreeView,
    c: PhpFileView,
    f: FrameView,
    st: VisitState,
    qname: Seq<char>,
    owner: (Seq<char>, Seq<char>),
    n: usize,
    ident: usize,
)
    requires
        field_variable(t, n) == Some(ident),
    ensures
        t.kind(n) == "property_promotion_parameter"@ ==> declares(
            visit_parameter(t, c, f, st, qname, Some(owner), n),
            owner.1,
            kind_id(c.project, owner.0 + "\\"@ + t.text(ident), NodeKind::Attribute),
        ),
        t.kind(n) != "property_promotion_parameter"@ ==> visit_parameter(t, c, f, st, qname, Some(owner), n)
            == visit_parameter(t, c, f, st, qname, None, n),
{
    if t.kind(n) == "property_promotion_parameter"@ {
        let st0 = declared(st, f.container, parameter_node(t, c, qname, n, ident));
        let st2 = visit_hooks(t, c, f, visit_attributes(t, c, f, st0, n), n);
        let st3 = typed(st2, t, t.field(n, "type"@), parameter_node(t, c, qname, n, ident).id);
        let st4 = visit_if(t, c, f, st3, t.field(n, "default_value"@), n);
        let name = t.text(ident);
        let node = made(
            c,
            t,
            NodeKind::Attribute,
            owner.0 + "\\"@ + name,
            name,
            Some(n),
            property_metadata(t, n, false, true),
            Some(ident),
        );
        types_add(declared(st4, owner.1, node), t, t.field(n, "type"@), node.id);
        declared_stays(st4, owner.1, node, visit_parameter(t, c, f, st, qname, Some(owner), n));
    }
}

/// The first property of a declaration is an attribute of the class, and the classes of its
/// type are types of it.
pub proof fn properties_are_declared(t: TreeView, c: PhpFileView, f: FrameView, st: VisitState, n: usize, ident: usize, type_node: usize, i: int, position: usize)
    requires
        t.kind(n) == "property_declaration"@,
        t.kids(n).len() > 0,
        t.kind(t.kids(n)[0]) == "property_element"@,
        field_variable(t, t.kids(n)[0]) == Some(ident),
    ensures
        ({
            let id = kind_id(c.project, qualified(st.scope, t.text(ident)), NodeKind::Attribute);
            let after = visit(t, c, f, st, n);
            &&& declares(after, f.container, id)
            &&& t.field(n, "type"@) == Some(type_node) && 0 <= i < class_names(t, type_node).len() && final_name(
                t,
                class_names(t, type_node)[i],
            ) == Some(position) ==> notes_use(after, t, "annotation"@, position, id)
        }),
{
    kinds_differ();
    no_markup(t, n);
    let k = t.kids(n).len() as int;
    elements_add(t, c, f, st, n, 1, k);
    elements_add(t, c, f, st, n, 0, 0);
    element_adds(t, c, f, st, n, 1);
    let node = property_node(t, c, st.scope, n, t.kids(n)[0], ident);
    let st1 = visit_property_elements(t, c, f, st, n, k);
    attributes_add(t, c, f, st1, n);
    hooks_add(t, c, f, visit_attributes(t, c, f, st1, n), n);
    declared_stays(st, f.container, node, visit(t, c, f, st, n));
    if t.field(n, "type"@) == Some(type_node) && 0 <= i < class_names(t, type_node).len() && final_name(
        t,
        class_names(t, type_node)[i],
    ) == Some(position) {
        let refs = class_names(t, type_node);
        let st0 = declared(st, f.container, node);
        refs_noted(st0, t, "annotation"@, refs, node.id, refs.len() as int, i, position);
        still_noted(
            typed(st0, t, Some(type_node), node.id),
            visit(t, c, f, st, n),
            t,
            "annotation"@,
            position,
            node.id,
        );
    }
}

/// The first constant of a declaration is an attribute in a class and a variable outside of
/// one.
pub proof fn constants_are_declared(t: TreeView, c: PhpFileView, f: FrameView, st: VisitState, n: usize, name: usize)
    requires
        t.kind(n) == "const_declaration"@,
        t.kids(n).len() > 0,
        t.kind(t.kids(n)[0]) == "const_element"@,
        t.kid_of(t.kids(n)[0], "name"@) == Some(name),
    ensures
        f.kind is Class ==> declares(
            visit(t, c, f, st, n),
            f.container,
            kind_id(c.project, qualified(st.scope, t.text(name)), NodeKind::Attribute),
        ),
        f.kind !is Class ==> declares(
            visit(t, c, f, st, n),
            f.container,
            kind_id(c.project, qualified(st.scope, t.text(name)), NodeKind::Variable),
        ),
{
    kinds_differ();
    no_markup(t, n);
    let k = t.kids(n).len() as int;
    constants_add(t, c, f, st, n, 1, k);
    constants_add(t, c, f, st, n, 0, 0);
    constant_adds(t, c, f, st, n, 1);
    let node = constant_node(t, c, f, st.scope, n, t.kids(n)[0], name);
    attributes_add(t, c, f, visit_constant_elements(t, c, f, st, n, k), n);
    declared_stays(st, f.container, node, visit(t, c, f, st, n));
}

// ---------------------------------------------------------------------------
// Imports
// ---------------------------------------------------------------------------

/// An import is declared by what is around it, and the file imports what it names: the
/// module of the longest known part of its name where the project's own namespaces hold it,
/// and a symbol outside the project where they do not.
pub proof fn imports_lead_to_what_they_name(c: PhpFileView, t: TreeView, f: FrameView, st: VisitState, list: Seq<UseView>, k: int, j: int)
    requires
        0 <= j < k <= list.len(),
    ensures
        ({
            let u = list[j];
            let scope = with_uses(c, t, f, st, list, j).scope;
            let after = with_uses(c, t, f, st, list, k);
            let module = module_for(c.modules, u.target);
            let node = kind_id(c.project, qualified(scope, u.local), NodeKind::Import);
            let outside = kind_id(c.project, u.target, NodeKind::ExternalSymbol);
            let internal = php_origin(u.target, c.internal, c.vendors) == "internal"@;
            &&& declares(after, f.container, node)
            &&& internal && module is Some ==> after.graph.relations.contains(
                RelationView { source_id: c.file_id, target_id: module->0, kind: RelationKind::Imports, metadata: Seq::empty() },
            ) && after.graph.relations.contains(
                RelationView { source_id: node, target_id: module->0, kind: RelationKind::ResolvesTo, metadata: Seq::empty() },
            )
            &&& !internal || module is None ==> after.graph.relations.contains(
                RelationView { source_id: c.file_id, target_id: outside, kind: RelationKind::Imports, metadata: Seq::empty() },
            ) && after.graph.relations.contains(
                RelationView { source_id: node, target_id: outside, kind: RelationKind::ResolvesTo, metadata: Seq::empty() },
            ) && node_at(after.graph.nodes, outside) is Some
        }),
{
    let u = list[j];
    let st0 = with_uses(c, t, f, st, list, j);
    let st1 = with_uses(c, t, f, st, list, j + 1);
    let after = with_uses(c, t, f, st, list, k);
    uses_add(c, t, f, st, list, j + 1, k);
    let origin = php_origin(u.target, c.internal, c.vendors);
    let node = import_node(c, t, st0.scope, u, origin);
    assert(grown(declared(st0, f.container, node), st1));
    declared_stays(st0, f.container, node, after);
    let edges = st1.graph.relations;
    let a = edges[edges.len() - 2];
    let b = edges[edges.len() - 1];
    assert(edges.contains(a) && edges.contains(b));
    going_on_keeps(edges, after.graph.relations, a);
    going_on_keeps(edges, after.graph.relations, b);
    let module = module_for(c.modules, u.target);
    if origin != "internal"@ || module is None {
        let ext = external_node(c.project, u.target, origin, "\\"@);
        let g = declared(st0, f.container, node).graph;
        added_nodes_are_found(g, ext, ext.id);
        assert(node_at(st1.graph.nodes, ext.id) is Some);
        ids_find_nodes(st1.graph.nodes, ext.id);
        ids_find_nodes(after.graph.nodes, ext.id);
        let i = choose|i: int| 0 <= i < st1.graph.nodes.len() && (#[trigger] st1.graph.nodes[i]).id == ext.id;
        assert(after.graph.nodes[i].id == ext.id);
    }
}

/// A name leads to the module of its longest part that has one.
pub proof fn longest_parts_lead(modules: Seq<(Seq<char>, Seq<char>)>, parts: Seq<Seq<char>>, k: int, j: int)
    requires
        0 < j <= k <= parts.len(),
        forall|i: int| j < i <= k ==> table_get(modules, joined(#[trigger] parts.take(i), "\\"@)) is None,
    ensures
        table_get(modules, joined(parts.take(j), "\\"@)) is Some ==> module_of_prefix(modules, parts, k) == table_get(
            modules,
            joined(parts.take(j), "\\"@),
        ),
    decreases k,
{
    if j < k {
        let first = parts.take(k);
        assert(table_get(modules, joined(first, "\\"@)) is None);
        longest_parts_lead(modules, parts, k - 1, j);
    }
}

/// A namespace without a body is the scope of what follows it, and one with a body of its
/// body alone.
pub proof fn namespaces_are_scopes(t: TreeView, c: PhpFileView, f: FrameView, st: VisitState, n: usize)
    requires
        t.kind(n) == "namespace_definition"@,
    ensures
        t.field(n, "body"@) is None ==> visit(t, c, f, st, n).scope == namespace_name(t, n),
        t.field(n, "body"@) is Some ==> visit(t, c, f, st, n).scope == st.scope,
{
    kinds_differ();
    no_markup(t, n);
}

} // verus!
