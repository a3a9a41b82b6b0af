//! What the second pass over PHP sources promises.

use vstd::prelude::*;

use crate::php::declarations::is_class;
use crate::php::log::RowView;
use crate::php::names::{
    class_names, field_variable, final_name, namespace_name, plain_are_below, plain_kids, MARKUP_KINDS, NAME_KINDS,
};
use crate::php::symbols::{
    class_of, member_answer_of, name_answer_of, AnswerView, ClassRefView, NameKind, Slot, SymbolsView,
};
use crate::php::uses::{
    answered, answered_bases, answered_member, answered_name, answered_refs, answered_traits, answered_type,
    bound_by_assignment, bound_by_type, declared_here, extended_from, inferred, inferred_in, is_binding,
    is_member_declaration, is_object_access, no_class, scoped_name, use_all, use_argument, use_at, use_attributes,
    use_call, use_callable, use_catch, use_class, use_class_constant, use_creation, use_elements, use_field, use_kids,
    use_member, use_member_declaration, use_parameters, use_scoped, use_value, var_of, PlacedView, UseFrameView, UseState,
};
use crate::php::visitor::{is_member_call, is_parameter, is_unnamed, tested_class};
use crate::selection::{goes_on, going_on_keeps};
use crate::text::ascii_lowercase;
use crate::tree::{group_tree, TreeView};

verus! {

broadcast use group_tree;

/// The kinds of node that are told apart differ.
proof fn kinds_differ()
    ensures
        "anonymous_function"@.len() == 18,
        "argument"@.len() == 8,
        "arrow_function"@.len() == 14,
        "assignment_expression"@.len() == 21,
        "attribute"@.len() == 9,
        "binary_expression"@.len() == 17,
        "catch_clause"@.len() == 12,
        "class"@.len() == 5,
        "class_constant_access_expression"@.len() == 32,
        "class_declaration"@.len() == 17,
        "comment"@.len() == 7,
        "const_declaration"@.len() == 17,
        "enum_case"@.len() == 9,
        "enum_declaration"@.len() == 16,
        "function_call_expression"@.len() == 24,
        "function_definition"@.len() == 19,
        "interface_declaration"@.len() == 21,
        "member_access_expression"@.len() == 24,
        "member_call_expression"@.len() == 22,
        "method_declaration"@.len() == 18,
        "name"@.len() == 4,
        "namespace_definition"@.len() == 20,
        "namespace_use_declaration"@.len() == 25,
        "nullsafe_member_access_expression"@.len() == 33,
        "nullsafe_member_call_expression"@.len() == 31,
        "object_creation_expression"@.len() == 26,
        "php_end_tag"@.len() == 11,
        "php_tag"@.len() == 7,
        "property_declaration"@.len() == 20,
        "property_hook"@.len() == 13,
        "qualified_name"@.len() == 14,
        "reference_assignment_expression"@.len() == 31,
        "relative_name"@.len() == 13,
        "scoped_call_expression"@.len() == 22,
        "scoped_property_access_expression"@.len() == 33,
        "text"@.len() == 4,
        "text_interpolation"@.len() == 18,
        "trait_declaration"@.len() == 17,
        "use_declaration"@.len() == 15,
        "variable_name"@.len() == 13,
        "anonymous_function"@ != "method_declaration"@,
        "anonymous_function"@ != "text_interpolation"@,
        "arrow_function"@ != "qualified_name"@,
        "assignment_expression"@ != "interface_declaration"@,
        "attribute"@ != "enum_case"@,
        "binary_expression"@ != "class_declaration"@,
        "binary_expression"@ != "const_declaration"@,
        "binary_expression"@ != "trait_declaration"@,
        "class_declaration"@ != "const_declaration"@,
        "class_declaration"@ != "trait_declaration"@,
        "comment"@ != "php_tag"@,
        "const_declaration"@ != "trait_declaration"@,
        "function_call_expression"@ != "member_access_expression"@,
        "member_call_expression"@ != "scoped_call_expression"@,
        "method_declaration"@ != "text_interpolation"@,
        "name"@ != "text"@,
        "namespace_definition"@ != "property_declaration"@,
        "nullsafe_member_access_expression"@ != "scoped_property_access_expression"@,
        "nullsafe_member_call_expression"@ != "reference_assignment_expression"@,
        "property_hook"@ != "relative_name"@,
        "property_hook"@ != "variable_name"@,
        "relative_name"@ != "variable_name"@,
{
    reveal_strlit("anonymous_function");
    reveal_strlit("argument");
    reveal_strlit("arrow_function");
    reveal_strlit("assignment_expression");
    reveal_strlit("attribute");
    reveal_strlit("binary_expression");
    reveal_strlit("catch_clause");
    reveal_strlit("class");
    reveal_strlit("class_constant_access_expression");
    reveal_strlit("class_declaration");
    reveal_strlit("comment");
    reveal_strlit("const_declaration");
    reveal_strlit("enum_case");
    reveal_strlit("enum_declaration");
    reveal_strlit("function_call_expression");
    reveal_strlit("function_definition");
    reveal_strlit("interface_declaration");
    reveal_strlit("member_access_expression");
    reveal_strlit("member_call_expression");
    reveal_strlit("method_declaration");
    reveal_strlit("name");
    reveal_strlit("namespace_definition");
    reveal_strlit("namespace_use_declaration");
    reveal_strlit("nullsafe_member_access_expression");
    reveal_strlit("nullsafe_member_call_expression");
    reveal_strlit("object_creation_expression");
    reveal_strlit("php_end_tag");
    reveal_strlit("php_tag");
    reveal_strlit("property_declaration");
    reveal_strlit("property_hook");
    reveal_strlit("qualified_name");
    reveal_strlit("reference_assignment_expression");
    reveal_strlit("relative_name");
    reveal_strlit("scoped_call_expression");
    reveal_strlit("scoped_property_access_expression");
    reveal_strlit("text");
    reveal_strlit("text_interpolation");
    reveal_strlit("trait_declaration");
    reveal_strlit("use_declaration");
    reveal_strlit("variable_name");
    assert("anonymous_function"@[0] != "method_declaration"@[0]);
    assert("anonymous_function"@[0] != "text_interpolation"@[0]);
    assert("arrow_function"@[0] != "qualified_name"@[0]);
    assert("assignment_expression"@[0] != "interface_declaration"@[0]);
    assert("attribute"@[0] != "enum_case"@[0]);
    assert("binary_expression"@[0] != "class_declaration"@[0]);
    assert("binary_expression"@[0] != "const_declaration"@[0]);
    assert("binary_expression"@[0] != "trait_declaration"@[0]);
    assert("class_declaration"@[1] != "const_declaration"@[1]);
    assert("class_declaration"@[0] != "trait_declaration"@[0]);
    assert("comment"@[0] != "php_tag"@[0]);
    assert("const_declaration"@[0] != "trait_declaration"@[0]);
    assert("function_call_expression"@[0] != "member_access_expression"@[0]);
    assert("member_call_expression"@[0] != "scoped_call_expression"@[0]);
    assert("method_declaration"@[0] != "text_interpolation"@[0]);
    assert("name"@[0] != "text"@[0]);
    assert("namespace_definition"@[0] != "property_declaration"@[0]);
    assert("nullsafe_member_access_expression"@[0] != "scoped_property_access_expression"@[0]);
    assert("nullsafe_member_call_expression"@[0] != "reference_assignment_expression"@[0]);
    assert("property_hook"@[0] != "relative_name"@[0]);
    assert("property_hook"@[0] != "variable_name"@[0]);
    assert("relative_name"@[0] != "variable_name"@[0]);
}

// ---------------------------------------------------------------------------
// Reading only adds
// ---------------------------------------------------------------------------

proof fn refs_add(t: TreeView, s: SymbolsView, path: Seq<char>, st: UseState, refs: Seq<usize>, namespace: Seq<char>, k: int)
    ensures
        goes_on(st.answers, answered_refs(t, s, path, st, refs, namespace, k).answers),
        answered_refs(t, s, path, st, refs, namespace, k).vars == st.vars,
        answered_refs(t, s, path, st, refs, namespace, k).namespace == st.namespace,
    decreases k,
{
    if 0 < k <= refs.len() {
        refs_add(t, s, path, st, refs, namespace, k - 1);
    }
}

proof fn types_add(t: TreeView, s: SymbolsView, path: Seq<char>, st: UseState, n: Option<usize>, namespace: Seq<char>)
    ensures
        goes_on(st.answers, answered_type(t, s, path, st, n, namespace).answers),
        answered_type(t, s, path, st, n, namespace).vars == st.vars,
        answered_type(t, s, path, st, n, namespace).namespace == st.namespace,
{
    if n is Some {
        refs_add(t, s, path, st, class_names(t, n->0), namespace, class_names(t, n->0).len() as int);
    }
}

proof fn traits_add(t: TreeView, s: SymbolsView, path: Seq<char>, st: UseState, list: Seq<usize>, k: int)
    ensures
        goes_on(st.answers, answered_traits(t, s, path, st, list, k).answers),
    decreases k,
{
    if 0 < k <= list.len() {
        traits_add(t, s, path, st, list, k - 1);
    }
}

proof fn bases_add(t: TreeView, s: SymbolsView, path: Seq<char>, st: UseState, list: Seq<usize>, k: int)
    ensures
        goes_on(st.answers, answered_bases(t, s, path, st, list, k).answers),
    decreases k,
{
    if 0 < k <= list.len() {
        bases_add(t, s, path, st, list, k - 1);
        types_add(t, s, path, answered_bases(t, s, path, st, list, k - 1), Some(list[k - 1]), st.namespace);
    }
}

proof fn kids_add(t: TreeView, s: SymbolsView, path: Seq<char>, f: UseFrameView, st: UseState, n: usize, k: int)
    ensures
        goes_on(st.answers, use_kids(t, s, path, f, st, n, k).answers),
    decreases t.nodes.len() - n, 10int, k,
{
    if 0 < k <= t.kids(n).len() {
        kids_add(t, s, path, f, st, n, k - 1);
        reading_adds(t, s, path, f, use_kids(t, s, path, f, st, n, k - 1), t.kids(n)[k - 1]);
    }
}

proof fn all_add(t: TreeView, s: SymbolsView, path: Seq<char>, f: UseFrameView, st: UseState, n: usize)
    ensures
        goes_on(st.answers, use_all(t, s, path, f, st, n).answers),
    decreases t.nodes.len() - n, 15int, 0int,
{
    kids_add(t, s, path, f, st, n, t.kids(n).len() as int);
}

proof fn fields_add(t: TreeView, s: SymbolsView, path: Seq<char>, f: UseFrameView, st: UseState, n: usize, field: Seq<char>)
    ensures
        goes_on(st.answers, use_field(t, s, path, f, st, n, field).answers),
    decreases t.nodes.len() - n, 5int, 0int,
{
    if t.field(n, field) is Some {
        reading_adds(t, s, path, f, st, t.field(n, field)->0);
    }
}

proof fn attributes_add(t: TreeView, s: SymbolsView, path: Seq<char>, f: UseFrameView, st: UseState, n: usize)
    ensures
        goes_on(st.answers, use_attributes(t, s, path, f, st, n).answers),
    decreases t.nodes.len() - n, 5int, 0int,
{
    if t.field(n, "attributes"@) is Some {
        all_add(t, s, path, f, st, t.field(n, "attributes"@)->0);
    }
}

proof fn parameters_add(t: TreeView, s: SymbolsView, path: Seq<char>, f: UseFrameView, st: UseState, n: usize, namespace: Seq<char>, k: int)
    ensures
        goes_on(st.answers, use_parameters(t, s, path, f, st, n, namespace, k).answers),
    decreases t.nodes.len() - n, 10int, k,
{
    if 0 < k <= t.kids(n).len() {
        parameters_add(t, s, path, f, st, n, namespace, k - 1);
        let earlier = use_parameters(t, s, path, f, st, n, namespace, k - 1);
        let p = t.kids(n)[k - 1];
        if is_parameter(t, p) {
            types_add(t, s, path, earlier, t.field(p, "type"@), namespace);
            let st1 = answered_type(t, s, path, earlier, t.field(p, "type"@), namespace);
            let st2 = bound_by_type(t, s, path, st1, t.field(p, "type"@), field_variable(t, p), namespace);
            attributes_add(t, s, path, f, st2, p);
            fields_add(t, s, path, f, use_attributes(t, s, path, f, st2, p), p, "default_value"@);
        }
    }
}

proof fn callables_add(t: TreeView, s: SymbolsView, path: Seq<char>, f: UseFrameView, st: UseState, n: usize, inherits: bool)
    ensures
        goes_on(st.answers, use_callable(t, s, path, f, st, n, inherits).answers),
    decreases t.nodes.len() - n, 40int, 0int,
{
    let inner = if inherits {
        f
    } else {
        no_class()
    };
    let opened = if inherits {
        st
    } else {
        UseState { vars: Seq::empty(), ..st }
    };
    let st1 = use_attributes(t, s, path, inner, opened, n);
    attributes_add(t, s, path, inner, opened, n);
    let st2 = match t.field(n, "parameters"@) {
        Some(params) => use_parameters(t, s, path, inner, st1, params, st1.namespace, t.kids(params).len() as int),
        None => st1,
    };
    if t.field(n, "parameters"@) is Some {
        let params = t.field(n, "parameters"@)->0;
        parameters_add(t, s, path, inner, st1, params, st1.namespace, t.kids(params).len() as int);
    }
    types_add(t, s, path, st2, t.field(n, "return_type"@), st.namespace);
    let st3 = answered_type(t, s, path, st2, t.field(n, "return_type"@), st.namespace);
    fields_add(t, s, path, inner, st3, n, "body"@);
}

proof fn classes_add(t: TreeView, s: SymbolsView, path: Seq<char>, st: UseState, n: usize)
    ensures
        goes_on(st.answers, use_class(t, s, path, st, n).answers),
        goes_on(
            answered_bases(t, s, path, st, t.kids(n), t.kids(n).len() as int).answers,
            use_class(t, s, path, st, n).answers,
        ),
    decreases t.nodes.len() - n, 40int, 0int,
{
    let inner = UseFrameView {
        class: declared_here(t, s, st.namespace, n),
        parent: extended_from(t, s, path, st.namespace, t.kids(n), 0),
    };
    bases_add(t, s, path, st, t.kids(n), t.kids(n).len() as int);
    let st1 = answered_bases(t, s, path, st, t.kids(n), t.kids(n).len() as int);
    let cleared = UseState { vars: Seq::empty(), ..st1 };
    attributes_add(t, s, path, inner, cleared, n);
    let st2 = use_attributes(t, s, path, inner, cleared, n);
    if t.field(n, "body"@) is Some {
        all_add(t, s, path, inner, st2, t.field(n, "body"@)->0);
    }
}

proof fn values_add(t: TreeView, s: SymbolsView, path: Seq<char>, f: UseFrameView, st: UseState, n: usize, k: int)
    ensures
        goes_on(st.answers, use_value(t, s, path, f, st, n, k).answers),
    decreases t.nodes.len() - n, 10int, k,
{
    if 0 < k <= t.kids(n).len() {
        values_add(t, s, path, f, st, n, k - 1);
        reading_adds(t, s, path, f, use_value(t, s, path, f, st, n, k - 1), t.kids(n)[k - 1]);
    }
}

proof fn elements_add(t: TreeView, s: SymbolsView, path: Seq<char>, f: UseFrameView, st: UseState, n: usize, k: int)
    ensures
        goes_on(st.answers, use_elements(t, s, path, f, st, n, k).answers),
    decreases t.nodes.len() - n, 10int, k,
{
    if 0 < k <= t.kids(n).len() {
        elements_add(t, s, path, f, st, n, k - 1);
        let earlier = use_elements(t, s, path, f, st, n, k - 1);
        let element = t.kids(n)[k - 1];
        fields_add(t, s, path, f, earlier, element, "default_value"@);
        values_add(t, s, path, f, earlier, element, t.kids(element).len() as int);
    }
}

proof fn member_declarations_add(t: TreeView, s: SymbolsView, path: Seq<char>, f: UseFrameView, st: UseState, n: usize)
    ensures
        goes_on(st.answers, use_member_declaration(t, s, path, f, st, n).answers),
    decreases t.nodes.len() - n, 40int, 0int,
{
    let st1 = answered_type(t, s, path, st, t.field(n, "type"@), st.namespace);
    let st2 = use_attributes(t, s, path, f, st1, n);
    let st3 = use_elements(t, s, path, f, st2, n, t.kids(n).len() as int);
    let st4 = use_field(t, s, path, f, st3, n, "value"@);
    types_add(t, s, path, st, t.field(n, "type"@), st.namespace);
    attributes_add(t, s, path, f, st1, n);
    elements_add(t, s, path, f, st2, n, t.kids(n).len() as int);
    fields_add(t, s, path, f, st3, n, "value"@);
    if t.kid_of(n, "property_hook_list"@) is Some {
        all_add(t, s, path, f, st4, t.kid_of(n, "property_hook_list"@)->0);
    }
}

proof fn members_add(t: TreeView, s: SymbolsView, path: Seq<char>, f: UseFrameView, st: UseState, n: usize, slot: Slot)
    ensures
        goes_on(st.answers, use_member(t, s, path, f, st, n, slot).answers),
    decreases t.nodes.len() - n, 30int, 0int,
{
    match t.field(n, "name"@) {
        Some(name) => {
            if t.kind(name) == "name"@ {
                let st1 = answered_member(
                    t,
                    s,
                    path,
                    st,
                    Some(name),
                    inferred_in(t, s, path, f, st, t.field(n, "object"@)),
                    slot,
                );
                fields_add(t, s, path, f, st1, n, "object"@);
            } else {
                reading_adds(t, s, path, f, st, name);
                fields_add(t, s, path, f, use_at(t, s, path, f, st, name), n, "object"@);
            }
        },
        None => fields_add(t, s, path, f, st, n, "object"@),
    }
}

proof fn scoped_add(t: TreeView, s: SymbolsView, path: Seq<char>, f: UseFrameView, st: UseState, n: usize, slot: Slot)
    ensures
        goes_on(st.answers, use_scoped(t, s, path, f, st, n, slot).answers),
    decreases t.nodes.len() - n, 30int, 0int,
{
    let receiver = inferred_in(t, s, path, f, st, t.field(n, "scope"@));
    fields_add(t, s, path, f, answered_member(t, s, path, st, scoped_name(t, n), receiver, slot), n, "scope"@);
}

proof fn class_constants_add(t: TreeView, s: SymbolsView, path: Seq<char>, f: UseFrameView, st: UseState, n: usize)
    ensures
        goes_on(st.answers, use_class_constant(t, s, path, f, st, n).answers),
    decreases t.nodes.len() - n, 30int, 0int,
{
    let list = plain_kids(t, n);
    if list.len() > 0 {
        plain_are_below(t, n, t.kids(n).len() as int);
        let member = list.last();
        let st1 = if list.len() > 1 && t.kind(member) == "name"@ && ascii_lowercase(t.text(member)) != "class"@ {
            answered_member(t, s, path, st, Some(member), inferred_in(t, s, path, f, st, Some(list[0])), Slot::Constant)
        } else {
            st
        };
        reading_adds(t, s, path, f, st1, list[0]);
    }
}

proof fn creations_add(t: TreeView, s: SymbolsView, path: Seq<char>, f: UseFrameView, st: UseState, n: usize, namespace: Seq<char>, k: int)
    ensures
        goes_on(st.answers, use_creation(t, s, path, f, st, n, namespace, k).answers),
    decreases t.nodes.len() - n, 10int, k,
{
    if 0 < k <= t.kids(n).len() {
        creations_add(t, s, path, f, st, n, namespace, k - 1);
        let earlier = use_creation(t, s, path, f, st, n, namespace, k - 1);
        if !t.kind_among(t.kids(n)[k - 1], NAME_KINDS@) {
            reading_adds(t, s, path, f, earlier, t.kids(n)[k - 1]);
        }
    }
}

proof fn arguments_add(t: TreeView, s: SymbolsView, path: Seq<char>, f: UseFrameView, st: UseState, n: usize, k: int)
    ensures
        goes_on(st.answers, use_argument(t, s, path, f, st, n, k).answers),
    decreases t.nodes.len() - n, 10int, k,
{
    if 0 < k <= t.kids(n).len() {
        arguments_add(t, s, path, f, st, n, k - 1);
        reading_adds(t, s, path, f, use_argument(t, s, path, f, st, n, k - 1), t.kids(n)[k - 1]);
    }
}

proof fn calls_add(t: TreeView, s: SymbolsView, path: Seq<char>, f: UseFrameView, st: UseState, n: usize)
    ensures
        goes_on(st.answers, use_call(t, s, path, f, st, n).answers),
    decreases t.nodes.len() - n, 30int, 0int,
{
    let st1 = match t.field(n, "function"@) {
        Some(function) => if t.kind_among(function, NAME_KINDS@) {
            answered_name(t, s, path, st, function, st.namespace, NameKind::Function)
        } else {
            use_at(t, s, path, f, st, function)
        },
        None => st,
    };
    if t.field(n, "function"@) is Some && !t.kind_among(t.field(n, "function"@)->0, NAME_KINDS@) {
        reading_adds(t, s, path, f, st, t.field(n, "function"@)->0);
    }
    fields_add(t, s, path, f, st1, n, "arguments"@);
}

proof fn catches_add(t: TreeView, s: SymbolsView, path: Seq<char>, f: UseFrameView, st: UseState, n: usize)
    ensures
        goes_on(st.answers, use_catch(t, s, path, f, st, n).answers),
    decreases t.nodes.len() - n, 30int, 0int,
{
    let st1 = answered_type(t, s, path, st, t.field(n, "type"@), st.namespace);
    let st2 = bound_by_type(t, s, path, st1, t.field(n, "type"@), field_variable(t, n), st.namespace);
    types_add(t, s, path, st, t.field(n, "type"@), st.namespace);
    fields_add(t, s, path, f, st2, n, "body"@);
}

/// Reading a node keeps every answer that was given before it.
#[verifier::rlimit(40)]
pub proof fn reading_adds(t: TreeView, s: SymbolsView, path: Seq<char>, f: UseFrameView, st: UseState, n: usize)
    ensures
        goes_on(st.answers, use_at(t, s, path, f, st, n).answers),
    decreases t.nodes.len() - n, 50int, 0int,
{
    if t.kind_among(n, MARKUP_KINDS@) || t.kind(n) == "variable_name"@ || t.kind(n) == "namespace_use_declaration"@ {
    } else if t.kind(n) == "namespace_definition"@ {
        if t.field(n, "body"@) is Some {
            let inner = UseState { answers: st.answers, namespace: namespace_name(t, n), vars: Seq::empty() };
            all_add(t, s, path, no_class(), inner, t.field(n, "body"@)->0);
        }
    } else if is_class(t, n) {
        classes_add(t, s, path, st, n);
    } else if t.kind(n) == "function_definition"@ {
        callables_add(t, s, path, f, st, n, false);
    } else if t.kind(n) == "method_declaration"@ || is_unnamed(t, n) {
        callables_add(t, s, path, f, st, n, true);
    } else if is_member_declaration(t, n) {
        member_declarations_add(t, s, path, f, st, n);
    } else if t.kind(n) == "use_declaration"@ {
        traits_add(t, s, path, st, t.kids(n), t.kids(n).len() as int);
    } else if t.kind(n) == "function_call_expression"@ {
        calls_add(t, s, path, f, st, n);
    } else if t.kind(n) == "object_creation_expression"@ {
        creations_add(t, s, path, f, st, n, st.namespace, t.kids(n).len() as int);
    } else if t.kind(n) == "scoped_call_expression"@ {
        scoped_add(t, s, path, f, st, n, Slot::Method);
        fields_add(t, s, path, f, use_scoped(t, s, path, f, st, n, Slot::Method), n, "arguments"@);
    } else if is_member_call(t, n) {
        members_add(t, s, path, f, st, n, Slot::Method);
        fields_add(t, s, path, f, use_member(t, s, path, f, st, n, Slot::Method), n, "arguments"@);
    } else if is_object_access(t, n) {
        members_add(t, s, path, f, st, n, Slot::Property);
    } else if t.kind(n) == "scoped_property_access_expression"@ {
        scoped_add(t, s, path, f, st, n, Slot::Property);
    } else if t.kind(n) == "class_constant_access_expression"@ {
        class_constants_add(t, s, path, f, st, n);
    } else if t.kind(n) == "attribute"@ {
        let st1 = match t.kid_among(n, NAME_KINDS@) {
            Some(name) => answered_name(t, s, path, st, name, st.namespace, NameKind::Class),
            None => st,
        };
        fields_add(t, s, path, f, st1, n, "parameters"@);
    } else if t.kind(n) == "binary_expression"@ {
        match tested_class(t, n) {
            Some(right) => fields_add(
                t,
                s,
                path,
                f,
                answered_name(t, s, path, st, right, st.namespace, NameKind::Class),
                n,
                "left"@,
            ),
            None => all_add(t, s, path, f, st, n),
        }
    } else if t.kind(n) == "catch_clause"@ {
        catches_add(t, s, path, f, st, n);
    } else if is_binding(t, n) {
        all_add(t, s, path, f, bound_by_assignment(t, s, path, f, st, n), n);
    } else if t.kind(n) == "argument"@ {
        arguments_add(t, s, path, f, st, n, t.kids(n).len() as int);
    } else if t.kind_among(n, NAME_KINDS@) {
    } else {
        all_add(t, s, path, f, st, n);
    }
}

// ---------------------------------------------------------------------------
// What is answered
// ---------------------------------------------------------------------------

/// Whether an answer was given for a node of a file.
pub open spec fn has_answer(st: UseState, t: TreeView, path: Seq<char>, n: usize, answer: AnswerView) -> bool {
    st.answers.contains(
        RowView {
            group: path,
            name: path,
            value: PlacedView { line: t.span(n).start_line, col: t.span(n).start_col, answer },
        },
    )
}

proof fn given(t: TreeView, path: Seq<char>, st: UseState, n: usize, answer: AnswerView, after: UseState)
    requires
        goes_on(answered(t, path, st, n, answer).answers, after.answers),
    ensures
        has_answer(after, t, path, n, answer),
{
    let rows = answered(t, path, st, n, answer).answers;
    assert(rows.last() == rows[rows.len() - 1]);
    assert(rows.contains(rows.last()));
    going_on_keeps(rows, after.answers, rows.last());
}

proof fn no_markup(t: TreeView, n: usize)
    requires
        t.kind(n).len() > 11,
        t.kind(n) != "text_interpolation"@,
    ensures
        !t.kind_among(n, MARKUP_KINDS@),
{
    kinds_differ();
    let table = MARKUP_KINDS@;
    assert(table[0]@ == "text"@ && table[1]@ == "php_tag"@ && table[2]@ == "php_end_tag"@ && table[3]@ == "comment"@
        && table[4]@ == "text_interpolation"@);
}

/// A call of a member and an access to a property answer the name of the member out of the
/// class that the object before it has: a call among the methods, an access among the
/// properties.
pub proof fn members_are_answered(t: TreeView, s: SymbolsView, path: Seq<char>, f: UseFrameView, st: UseState, n: usize, name: usize, object: usize, class: ClassRefView)
    requires
        t.field(n, "name"@) == Some(name),
        t.kind(name) == "name"@,
        t.field(n, "object"@) == Some(object),
        inferred(t, s, path, f, st.namespace, st.vars, object) == Some(class),
    ensures
        t.kind(n) == "member_call_expression"@ || t.kind(n) == "nullsafe_member_call_expression"@ ==> has_answer(
            use_at(t, s, path, f, st, n),
            t,
            path,
            name,
            member_answer_of(s, class, t.text(name), Slot::Method),
        ),
        t.kind(n) == "member_access_expression"@ || t.kind(n) == "nullsafe_member_access_expression"@ ==> has_answer(
            use_at(t, s, path, f, st, n),
            t,
            path,
            name,
            member_answer_of(s, class, t.text(name), Slot::Property),
        ),
{
    kinds_differ();
    if t.kind(n) == "member_call_expression"@ || t.kind(n) == "nullsafe_member_call_expression"@ {
        no_markup(t, n);
        let answer = member_answer_of(s, class, t.text(name), Slot::Method);
        let st1 = answered(t, path, st, name, answer);
        fields_add(t, s, path, f, st1, n, "object"@);
        let st2 = use_member(t, s, path, f, st, n, Slot::Method);
        fields_add(t, s, path, f, st2, n, "arguments"@);
        given(t, path, st, name, answer, use_at(t, s, path, f, st, n));
    }
    if t.kind(n) == "member_access_expression"@ || t.kind(n) == "nullsafe_member_access_expression"@ {
        no_markup(t, n);
        let answer = member_answer_of(s, class, t.text(name), Slot::Property);
        fields_add(t, s, path, f, answered(t, path, st, name, answer), n, "object"@);
        given(t, path, st, name, answer, use_at(t, s, path, f, st, n));
    }
}

/// A call and a property that are reached through a class are answered out of that class.
pub proof fn scoped_members_are_answered(t: TreeView, s: SymbolsView, path: Seq<char>, f: UseFrameView, st: UseState, n: usize, name: usize, scope: usize, class: ClassRefView)
    requires
        t.field(n, "name"@) == Some(name),
        t.field(n, "scope"@) == Some(scope),
        inferred(t, s, path, f, st.namespace, st.vars, scope) == Some(class),
    ensures
        t.kind(n) == "scoped_call_expression"@ && t.kind(name) == "name"@ ==> has_answer(
            use_at(t, s, path, f, st, n),
            t,
            path,
            name,
            member_answer_of(s, class, t.text(name), Slot::Method),
        ),
        t.kind(n) == "scoped_property_access_expression"@ && t.kind(name) == "variable_name"@ && t.kid_of(name, "name"@)
            is Some ==> has_answer(
            use_at(t, s, path, f, st, n),
            t,
            path,
            t.kid_of(name, "name"@)->0,
            member_answer_of(s, class, t.text(t.kid_of(name, "name"@)->0), Slot::Property),
        ),
{
    kinds_differ();
    reveal_strlit("by_ref");
    assert("by_ref"@.len() == 6);
    if t.kind(n) == "scoped_call_expression"@ && t.kind(name) == "name"@ {
        no_markup(t, n);
        let answer = member_answer_of(s, class, t.text(name), Slot::Method);
        fields_add(t, s, path, f, answered(t, path, st, name, answer), n, "scope"@);
        fields_add(t, s, path, f, use_scoped(t, s, path, f, st, n, Slot::Method), n, "arguments"@);
        given(t, path, st, name, answer, use_at(t, s, path, f, st, n));
    }
    if t.kind(n) == "scoped_property_access_expression"@ && t.kind(name) == "variable_name"@ && t.kid_of(name, "name"@)
        is Some {
        no_markup(t, n);
        let ident = t.kid_of(name, "name"@)->0;
        let answer = member_answer_of(s, class, t.text(ident), Slot::Property);
        fields_add(t, s, path, f, answered(t, path, st, ident, answer), n, "scope"@);
        given(t, path, st, ident, answer, use_at(t, s, path, f, st, n));
    }
}

/// A constant of a class is answered out of its class. `class` itself is no constant.
pub proof fn class_constants_are_answered(t: TreeView, s: SymbolsView, path: Seq<char>, f: UseFrameView, st: UseState, n: usize, scope: usize, name: usize, class: ClassRefView)
    requires
        t.kind(n) == "class_constant_access_expression"@,
        plain_kids(t, n) == seq![scope, name],
        t.kind(name) == "name"@,
        inferred(t, s, path, f, st.namespace, st.vars, scope) == Some(class),
    ensures
        ascii_lowercase(t.text(name)) != "class"@ ==> has_answer(
            use_at(t, s, path, f, st, n),
            t,
            path,
            name,
            member_answer_of(s, class, t.text(name), Slot::Constant),
        ),
        ascii_lowercase(t.text(name)) == "class"@ ==> use_at(t, s, path, f, st, n) == use_at(t, s, path, f, st, scope),
{
    kinds_differ();
    no_markup(t, n);
    plain_are_below(t, n, t.kids(n).len() as int);
    let list = plain_kids(t, n);
    assert(list.last() == name && list[0] == scope);
    if ascii_lowercase(t.text(name)) != "class"@ {
        let answer = member_answer_of(s, class, t.text(name), Slot::Constant);
        reading_adds(t, s, path, f, answered(t, path, st, name, answer), scope);
        given(t, path, st, name, answer, use_at(t, s, path, f, st, n));
    }
}

/// A name that is called is answered as a function, the right side of a test of a type as a
/// class, and a name that stands for a value as a value.
pub proof fn names_are_answered_by_their_place(t: TreeView, s: SymbolsView, path: Seq<char>, f: UseFrameView, st: UseState, n: usize, name: usize, position: usize)
    requires
        t.kind_among(name, NAME_KINDS@),
        final_name(t, name) == Some(position),
    ensures
        t.kind(n) == "function_call_expression"@ && t.field(n, "function"@) == Some(name) ==> has_answer(
            use_at(t, s, path, f, st, n),
            t,
            path,
            position,
            name_answer_of(s, t.text(name), path, st.namespace, NameKind::Function),
        ),
        t.kind(n) == "binary_expression"@ && tested_class(t, n) == Some(name) ==> has_answer(
            use_at(t, s, path, f, st, n),
            t,
            path,
            position,
            name_answer_of(s, t.text(name), path, st.namespace, NameKind::Class),
        ),
        n == name ==> has_answer(
            use_at(t, s, path, f, st, n),
            t,
            path,
            position,
            name_answer_of(s, t.text(name), path, st.namespace, NameKind::Value),
        ),
{
    kinds_differ();
    let table = NAME_KINDS@;
    assert(table[0]@ == "name"@ && table[1]@ == "qualified_name"@ && table[2]@ == "relative_name"@);
    if t.kind(n) == "function_call_expression"@ && t.field(n, "function"@) == Some(name) {
        no_markup(t, n);
        let answer = name_answer_of(s, t.text(name), path, st.namespace, NameKind::Function);
        fields_add(t, s, path, f, answered(t, path, st, position, answer), n, "arguments"@);
        given(t, path, st, position, answer, use_at(t, s, path, f, st, n));
    }
    if t.kind(n) == "binary_expression"@ && tested_class(t, n) == Some(name) {
        no_markup(t, n);
        let answer = name_answer_of(s, t.text(name), path, st.namespace, NameKind::Class);
        fields_add(t, s, path, f, answered(t, path, st, position, answer), n, "left"@);
        given(t, path, st, position, answer, use_at(t, s, path, f, st, n));
    }
    if n == name {
        let answer = name_answer_of(s, t.text(name), path, st.namespace, NameKind::Value);
        let marks = MARKUP_KINDS@;
        assert(marks[0]@ == "text"@ && marks[1]@ == "php_tag"@ && marks[2]@ == "php_end_tag"@ && marks[3]@ == "comment"@
            && marks[4]@ == "text_interpolation"@);
        reveal_strlit("name");
        reveal_strlit("text");
        assert("name"@[0] != "text"@[0]);
        assert(!t.kind_among(n, MARKUP_KINDS@));
        given(t, path, st, position, answer, use_at(t, s, path, f, st, n));
    }
}

proof fn created_names(t: TreeView, s: SymbolsView, path: Seq<char>, f: UseFrameView, st: UseState, n: usize, namespace: Seq<char>, k: int, j: int, position: usize)
    requires
        0 <= j < k <= t.kids(n).len(),
        t.kind_among(t.kids(n)[j], NAME_KINDS@),
        final_name(t, t.kids(n)[j]) == Some(position),
    ensures
        has_answer(
            use_creation(t, s, path, f, st, n, namespace, k),
            t,
            path,
            position,
            name_answer_of(s, t.text(t.kids(n)[j]), path, namespace, NameKind::Class),
        ),
    decreases k,
{
    let earlier = use_creation(t, s, path, f, st, n, namespace, k - 1);
    let after = use_creation(t, s, path, f, st, n, namespace, k);
    let answer = name_answer_of(s, t.text(t.kids(n)[j]), path, namespace, NameKind::Class);
    if j == k - 1 {
        given(t, path, earlier, position, answer, after);
    } else {
        created_names(t, s, path, f, st, n, namespace, k - 1, j, position);
        if !t.kind_among(t.kids(n)[k - 1], NAME_KINDS@) {
            reading_adds(t, s, path, f, earlier, t.kids(n)[k - 1]);
        }
        let row = RowView {
            group: path,
            name: path,
            value: PlacedView { line: t.span(position).start_line, col: t.span(position).start_col, answer },
        };
        going_on_keeps(earlier.answers, after.answers, row);
    }
}

/// The class of an object that is created is answered as a class.
pub proof fn created_classes_are_answered(t: TreeView, s: SymbolsView, path: Seq<char>, f: UseFrameView, st: UseState, n: usize, j: int, position: usize)
    requires
        t.kind(n) == "object_creation_expression"@,
        0 <= j < t.kids(n).len(),
        t.kind_among(t.kids(n)[j], NAME_KINDS@),
        final_name(t, t.kids(n)[j]) == Some(position),
    ensures
        has_answer(
            use_at(t, s, path, f, st, n),
            t,
            path,
            position,
            name_answer_of(s, t.text(t.kids(n)[j]), path, st.namespace, NameKind::Class),
        ),
{
    kinds_differ();
    no_markup(t, n);
    created_names(t, s, path, f, st, n, st.namespace, t.kids(n).len() as int, j, position);
}

proof fn typed_names(t: TreeView, s: SymbolsView, path: Seq<char>, st: UseState, refs: Seq<usize>, namespace: Seq<char>, k: int, j: int, position: usize)
    requires
        0 <= j < k <= refs.len(),
        final_name(t, refs[j]) == Some(position),
    ensures
        has_answer(
            answered_refs(t, s, path, st, refs, namespace, k),
            t,
            path,
            position,
            name_answer_of(s, t.text(refs[j]), path, namespace, NameKind::Class),
        ),
    decreases k,
{
    let earlier = answered_refs(t, s, path, st, refs, namespace, k - 1);
    let after = answered_refs(t, s, path, st, refs, namespace, k);
    let answer = name_answer_of(s, t.text(refs[j]), path, namespace, NameKind::Class);
    if j == k - 1 {
        given(t, path, earlier, position, answer, after);
    } else {
        typed_names(t, s, path, st, refs, namespace, k - 1, j, position);
        let row = RowView {
            group: path,
            name: path,
            value: PlacedView { line: t.span(position).start_line, col: t.span(position).start_col, answer },
        };
        going_on_keeps(earlier.answers, after.answers, row);
    }
}

/// Each class that the type of a caught exception names is answered as a class, and where
/// it names one the variable holds it.
pub proof fn caught_types_are_answered(t: TreeView, s: SymbolsView, path: Seq<char>, f: UseFrameView, st: UseState, n: usize, type_node: usize, j: int, position: usize)
    requires
        t.kind(n) == "catch_clause"@,
        t.field(n, "type"@) == Some(type_node),
        0 <= j < class_names(t, type_node).len(),
        final_name(t, class_names(t, type_node)[j]) == Some(position),
    ensures
        has_answer(
            use_at(t, s, path, f, st, n),
            t,
            path,
            position,
            name_answer_of(s, t.text(class_names(t, type_node)[j]), path, st.namespace, NameKind::Class),
        ),
        t.field(n, "body"@) is None && class_names(t, type_node).len() == 1 && field_variable(t, n) is Some ==> var_of(
            use_at(t, s, path, f, st, n).vars,
            t.text(field_variable(t, n)->0),
            use_at(t, s, path, f, st, n).vars.len() as int,
        ) == Some(class_of(s, t.text(class_names(t, type_node)[0]), path, st.namespace)),
{
    kinds_differ();
    no_markup(t, n);
    let refs = class_names(t, type_node);
    typed_names(t, s, path, st, refs, st.namespace, refs.len() as int, j, position);
    refs_add(t, s, path, st, refs, st.namespace, refs.len() as int);
    let st1 = answered_type(t, s, path, st, t.field(n, "type"@), st.namespace);
    let st2 = bound_by_type(t, s, path, st1, t.field(n, "type"@), field_variable(t, n), st.namespace);
    fields_add(t, s, path, f, st2, n, "body"@);
    let answer = name_answer_of(s, t.text(refs[j]), path, st.namespace, NameKind::Class);
    let row = RowView {
        group: path,
        name: path,
        value: PlacedView { line: t.span(position).start_line, col: t.span(position).start_col, answer },
    };
    going_on_keeps(st1.answers, use_at(t, s, path, f, st, n).answers, row);
}

/// A parameter whose type names one class holds that class; one whose type names several
/// changes nothing of what variables hold.
pub proof fn types_bind_parameters(t: TreeView, s: SymbolsView, path: Seq<char>, f: UseFrameView, st: UseState, n: usize, namespace: Seq<char>, k: int, ident: usize, type_node: usize)
    requires
        0 < k <= t.kids(n).len(),
        is_parameter(t, t.kids(n)[k - 1]),
        t.field(t.kids(n)[k - 1], "type"@) == Some(type_node),
        field_variable(t, t.kids(n)[k - 1]) == Some(ident),
        t.field(t.kids(n)[k - 1], "attributes"@) is None,
        t.field(t.kids(n)[k - 1], "default_value"@) is None,
    ensures
        ({
            let before = use_parameters(t, s, path, f, st, n, namespace, k - 1).vars;
            let after = use_parameters(t, s, path, f, st, n, namespace, k).vars;
            &&& class_names(t, type_node).len() == 1 ==> var_of(after, t.text(ident), after.len() as int) == Some(
                class_of(s, t.text(class_names(t, type_node)[0]), path, namespace),
            )
            &&& class_names(t, type_node).len() != 1 ==> after == before
        }),
{
    let earlier = use_parameters(t, s, path, f, st, n, namespace, k - 1);
    types_add(t, s, path, earlier, Some(type_node), namespace);
    let p = t.kids(n)[k - 1];
    let st1 = answered_type(t, s, path, earlier, Some(type_node), namespace);
    let st2 = bound_by_type(t, s, path, st1, Some(type_node), Some(ident), namespace);
    assert(use_attributes(t, s, path, f, st2, p) == st2);
    assert(use_field(t, s, path, f, st2, p, "default_value"@) == st2);
    assert(use_parameters(t, s, path, f, st, n, namespace, k) == st2);
}

/// A function sees neither the class nor the variables around it, and a class sees no
/// variable around it and is its own class. Neither leaves a variable behind.
pub proof fn declarations_see_nothing_around(t: TreeView, s: SymbolsView, path: Seq<char>, f: UseFrameView, g: UseFrameView, a: UseState, b: UseState, n: usize)
    requires
        t.kind(n) == "function_definition"@ || is_class(t, n),
        a.answers == b.answers,
        a.namespace == b.namespace,
    ensures
        use_at(t, s, path, f, a, n).answers == use_at(t, s, path, g, b, n).answers,
        use_at(t, s, path, f, a, n).vars == a.vars,
        use_at(t, s, path, f, a, n).namespace == a.namespace,
{
    kinds_differ();
    no_markup(t, n);
    if is_class(t, n) {
        bases_ignore_variables(t, s, path, a, b, t.kids(n), t.kids(n).len() as int);
        let st1 = answered_bases(t, s, path, a, t.kids(n), t.kids(n).len() as int);
        let st2 = answered_bases(t, s, path, b, t.kids(n), t.kids(n).len() as int);
        assert((UseState { vars: Seq::empty(), ..st1 }) == (UseState { vars: Seq::empty(), ..st2 }));
    } else {
        assert((UseState { vars: Seq::empty(), ..a }) == (UseState { vars: Seq::empty(), ..b }));
    }
}

proof fn bases_ignore_variables(t: TreeView, s: SymbolsView, path: Seq<char>, a: UseState, b: UseState, list: Seq<usize>, k: int)
    requires
        a.answers == b.answers,
        a.namespace == b.namespace,
    ensures
        answered_bases(t, s, path, a, list, k).answers == answered_bases(t, s, path, b, list, k).answers,
        answered_bases(t, s, path, a, list, k).namespace == answered_bases(t, s, path, b, list, k).namespace,
    decreases k,
{
    if 0 < k <= list.len() {
        bases_ignore_variables(t, s, path, a, b, list, k - 1);
        let a1 = answered_bases(t, s, path, a, list, k - 1);
        let b1 = answered_bases(t, s, path, b, list, k - 1);
        let refs = class_names(t, list[k - 1]);
        refs_ignore_variables(t, s, path, a1, b1, refs, a.namespace, refs.len() as int);
    }
}

proof fn refs_ignore_variables(t: TreeView, s: SymbolsView, path: Seq<char>, a: UseState, b: UseState, refs: Seq<usize>, namespace: Seq<char>, k: int)
    requires
        a.answers == b.answers,
        a.namespace == b.namespace,
    ensures
        answered_refs(t, s, path, a, refs, namespace, k).answers == answered_refs(t, s, path, b, refs, namespace, k).answers,
        answered_refs(t, s, path, a, refs, namespace, k).namespace == answered_refs(
            t,
            s,
            path,
            b,
            refs,
            namespace,
            k,
        ).namespace,
    decreases k,
{
    if 0 < k <= refs.len() {
        refs_ignore_variables(t, s, path, a, b, refs, namespace, k - 1);
    }
}

/// Closures and methods leave no variable behind either, and see those around them.
pub proof fn callables_leave_no_variable(t: TreeView, s: SymbolsView, path: Seq<char>, f: UseFrameView, st: UseState, n: usize)
    requires
        t.kind(n) == "method_declaration"@ || t.kind(n) == "anonymous_function"@ || t.kind(n) == "arrow_function"@,
    ensures
        use_at(t, s, path, f, st, n).vars == st.vars,
        use_at(t, s, path, f, st, n).namespace == st.namespace,
{
    kinds_differ();
    let marks = MARKUP_KINDS@;
    assert(marks[0]@ == "text"@ && marks[1]@ == "php_tag"@ && marks[2]@ == "php_end_tag"@ && marks[3]@ == "comment"@
        && marks[4]@ == "text_interpolation"@);
    assert(!t.kind_among(n, MARKUP_KINDS@));
}

/// A namespace without a body holds for what follows it, and one with a body for its body
/// alone.
pub proof fn namespaces_hold_for_what_follows(t: TreeView, s: SymbolsView, path: Seq<char>, f: UseFrameView, st: UseState, n: usize)
    requires
        t.kind(n) == "namespace_definition"@,
    ensures
        t.field(n, "body"@) is None ==> use_at(t, s, path, f, st, n).namespace == namespace_name(t, n),
        t.field(n, "body"@) is Some ==> use_at(t, s, path, f, st, n).namespace == st.namespace,
        use_at(t, s, path, f, st, n).vars == st.vars,
{
    kinds_differ();
    no_markup(t, n);
}

} // verus!
