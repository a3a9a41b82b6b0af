//! The second pass over PHP sources: what the names they use refer to.
//!
//! The class of a receiver is told from `$this`, from `new`, from the declared
//! types of parameters and properties and from a caught exception. A receiver
//! whose class is not known leaves its member without an answer.

use vstd::prelude::*;

use crate::php::declarations::{is_class, keyed_row};
use crate::php::log::{values_of, Log, RowView};
use crate::php::names::{
    class_names, class_refs, declared_variable, field_variable, final_name, last_name, last_of, namespace_name,
    namespace_of, plain_are_below, plain_kids, qualified, qualify, significant, variable_identifier, variable_name,
    BASE_KINDS, MARKUP_KINDS, NAME_KINDS,
};
use crate::php::symbols::{
    class_of, copy_class, in_class, member_answer_of, name_answer_of, named, Answer, AnswerView, ClassRef, ClassRefView,
    NameKind, Slot, Symbols, SymbolsView,
};
use crate::php::visitor::{instanceof_operand, is_member_call, is_parameter, is_unnamed, tested_class};
use crate::text::{add_item, ascii_lowercase, copy, lowercase, opt_view, same, to_ascii_lower, to_lower, views};
use crate::tree::{group_tree, Syntax, TreeView};

verus! {

broadcast use group_tree;

/// An answer and the place in a file that it is for.
#[derive(Debug)]
pub struct Placed {
    pub line: u32,
    pub col: u32,
    pub answer: Answer,
}

/// The mathematical reading of a placed answer.
pub struct PlacedView {
    pub line: u32,
    pub col: u32,
    pub answer: AnswerView,
}

impl View for Placed {
    type V = PlacedView;

    open spec fn view(&self) -> PlacedView {
        PlacedView { line: self.line, col: self.col, answer: self.answer@ }
    }
}

/// How far the second pass has come.
pub struct UseState {
    pub answers: Seq<RowView<PlacedView>>,
    pub namespace: Seq<char>,
    /// The classes that local variables hold. The newest entry counts.
    pub vars: Seq<(Seq<char>, ClassRefView)>,
}

/// The class around the code that is read, and what it extends.
pub struct UseFrameView {
    pub class: Option<ClassRefView>,
    pub parent: Option<ClassRefView>,
}

/// Code outside of any class.
pub open spec fn no_class() -> UseFrameView {
    UseFrameView { class: None, parent: None }
}

// ---------------------------------------------------------------------------
// Variables and expressions
// ---------------------------------------------------------------------------

/// The class that a variable holds after the first `n` entries.
pub open spec fn var_of(vars: Seq<(Seq<char>, ClassRefView)>, name: Seq<char>, n: int) -> Option<ClassRefView>
    decreases n,
{
    if n <= 0 || n > vars.len() {
        None
    } else if vars[n - 1].0 == name {
        Some(vars[n - 1].1)
    } else {
        var_of(vars, name, n - 1)
    }
}

/// The state with a variable that holds a class.
pub open spec fn with_var(st: UseState, name: Seq<char>, class: ClassRefView) -> UseState {
    UseState { vars: st.vars.push((name, class)), ..st }
}

/// The class that a property of a class holds.
pub open spec fn property_class(s: SymbolsView, owner: Option<ClassRefView>, property: Seq<char>) -> Option<ClassRefView> {
    match owner {
        Some(ClassRefView::Declared(key)) => in_class(s.parents, s.property_types, key, property, true),
        _ => None,
    }
}

/// Whether a node is an access to a property of an object.
pub open spec fn is_object_access(t: TreeView, n: usize) -> bool {
    t.kind(n) == "member_access_expression"@ || t.kind(n) == "nullsafe_member_access_expression"@
}

/// The class that an expression gives, as far as the tables can tell.
pub open spec fn inferred(
    t: TreeView,
    s: SymbolsView,
    path: Seq<char>,
    f: UseFrameView,
    namespace: Seq<char>,
    vars: Seq<(Seq<char>, ClassRefView)>,
    n: usize,
) -> Option<ClassRefView>
    decreases t.nodes.len() - n,
{
    if t.kind(n) == "variable_name"@ {
        match variable_name(t, n) {
            Some(ident) => if t.text(ident) == "this"@ {
                f.class
            } else {
                var_of(vars, t.text(ident), vars.len() as int)
            },
            None => None,
        }
    } else if t.kind(n) == "relative_scope"@ {
        if lowercase(t.text(n)) == "parent"@ {
            f.parent
        } else {
            f.class
        }
    } else if t.kind_among(n, NAME_KINDS@) {
        Some(class_of(s, t.text(n), path, namespace))
    } else if t.kind(n) == "object_creation_expression"@ {
        match t.kid_among(n, NAME_KINDS@) {
            Some(class) => Some(class_of(s, t.text(class), path, namespace)),
            None => None,
        }
    } else if is_object_access(t, n) {
        match (t.field(n, "object"@), t.field(n, "name"@)) {
            (Some(object), Some(name)) => if t.kind(name) == "name"@ {
                property_class(s, inferred(t, s, path, f, namespace, vars, object), t.text(name))
            } else {
                None
            },
            _ => None,
        }
    } else if t.kind(n) == "scoped_property_access_expression"@ {
        match (t.field(n, "scope"@), field_variable(t, n)) {
            (Some(owner), Some(ident)) => property_class(
                s,
                inferred(t, s, path, f, namespace, vars, owner),
                t.text(ident),
            ),
            _ => None,
        }
    } else if t.kind(n) == "parenthesized_expression"@ {
        if t.named_kids(n).len() > 0 {
            inferred(t, s, path, f, namespace, vars, t.named_kids(n)[0])
        } else {
            None
        }
    } else {
        None
    }
}

/// The class that an expression gives in a state.
pub open spec fn inferred_in(t: TreeView, s: SymbolsView, path: Seq<char>, f: UseFrameView, st: UseState, n: Option<usize>) -> Option<
    ClassRefView,
> {
    match n {
        Some(n) => inferred(t, s, path, f, st.namespace, st.vars, n),
        None => None,
    }
}

// ---------------------------------------------------------------------------
// Answers
// ---------------------------------------------------------------------------

/// The state with an answer for a name.
pub open spec fn answered(t: TreeView, path: Seq<char>, st: UseState, n: usize, answer: AnswerView) -> UseState {
    UseState {
        answers: st.answers.push(
            keyed_row(path, PlacedView { line: t.span(n).start_line, col: t.span(n).start_col, answer }),
        ),
        ..st
    }
}

/// The state with an answer for a reference, at its final name.
pub open spec fn answered_name(
    t: TreeView,
    s: SymbolsView,
    path: Seq<char>,
    st: UseState,
    n: usize,
    namespace: Seq<char>,
    kind: NameKind,
) -> UseState {
    match final_name(t, n) {
        Some(position) => answered(t, path, st, position, name_answer_of(s, t.text(n), path, namespace, kind)),
        None => st,
    }
}

/// The state with answers for the first `k` references to classes.
pub open spec fn answered_refs(
    t: TreeView,
    s: SymbolsView,
    path: Seq<char>,
    st: UseState,
    refs: Seq<usize>,
    namespace: Seq<char>,
    k: int,
) -> UseState
    decreases k,
{
    if k <= 0 || k > refs.len() {
        st
    } else {
        answered_name(
            t,
            s,
            path,
            answered_refs(t, s, path, st, refs, namespace, k - 1),
            refs[k - 1],
            namespace,
            NameKind::Class,
        )
    }
}

/// The state with answers for the classes that a type names.
pub open spec fn answered_type(
    t: TreeView,
    s: SymbolsView,
    path: Seq<char>,
    st: UseState,
    n: Option<usize>,
    namespace: Seq<char>,
) -> UseState {
    match n {
        Some(n) => answered_refs(t, s, path, st, class_names(t, n), namespace, class_names(t, n).len() as int),
        None => st,
    }
}

/// The state with an answer for a member of a class that may be known.
pub open spec fn answered_member(
    t: TreeView,
    s: SymbolsView,
    path: Seq<char>,
    st: UseState,
    n: Option<usize>,
    class: Option<ClassRefView>,
    slot: Slot,
) -> UseState {
    match (n, class) {
        (Some(n), Some(class)) => answered(t, path, st, n, member_answer_of(s, class, t.text(n), slot)),
        _ => st,
    }
}

/// The state where a variable holds the one class that a type names.
pub open spec fn bound_by_type(
    t: TreeView,
    s: SymbolsView,
    path: Seq<char>,
    st: UseState,
    type_node: Option<usize>,
    ident: Option<usize>,
    namespace: Seq<char>,
) -> UseState {
    match (type_node, ident) {
        (Some(n), Some(ident)) => if class_names(t, n).len() == 1 {
            with_var(st, t.text(ident), class_of(s, t.text(class_names(t, n)[0]), path, namespace))
        } else {
            st
        },
        _ => st,
    }
}

/// The state with answers for the traits among the first `k` parts of a use of
/// traits.
pub open spec fn answered_traits(
    t: TreeView,
    s: SymbolsView,
    path: Seq<char>,
    st: UseState,
    list: Seq<usize>,
    k: int,
) -> UseState
    decreases k,
{
    if k <= 0 || k > list.len() {
        st
    } else {
        let earlier = answered_traits(t, s, path, st, list, k - 1);
        if t.kind_among(list[k - 1], NAME_KINDS@) {
            answered_name(t, s, path, earlier, list[k - 1], st.namespace, NameKind::Class)
        } else {
            earlier
        }
    }
}

/// The state with answers for what the first `k` clauses of a class name.
pub open spec fn answered_bases(
    t: TreeView,
    s: SymbolsView,
    path: Seq<char>,
    st: UseState,
    list: Seq<usize>,
    k: int,
) -> UseState
    decreases k,
{
    if k <= 0 || k > list.len() {
        st
    } else {
        let earlier = answered_bases(t, s, path, st, list, k - 1);
        if t.kind_among(list[k - 1], BASE_KINDS@) {
            answered_type(t, s, path, earlier, Some(list[k - 1]), st.namespace)
        } else {
            earlier
        }
    }
}

/// The first class that the clauses from `i` on extend. An interface is no
/// parent, and neither is a trait.
pub open spec fn extended_from(
    t: TreeView,
    s: SymbolsView,
    path: Seq<char>,
    namespace: Seq<char>,
    list: Seq<usize>,
    i: int,
) -> Option<ClassRefView>
    decreases list.len() - i,
{
    if i < 0 || i >= list.len() {
        None
    } else if t.kind(list[i]) == "base_clause"@ && class_names(t, list[i]).len() > 0 {
        Some(class_of(s, t.text(class_names(t, list[i])[0]), path, namespace))
    } else {
        extended_from(t, s, path, namespace, list, i + 1)
    }
}

/// The class that a declaration declares.
pub open spec fn declared_here(t: TreeView, s: SymbolsView, namespace: Seq<char>, n: usize) -> Option<ClassRefView> {
    match t.field(n, "name"@) {
        Some(name) => {
            let fqn = qualified(namespace, t.text(name));
            if named(s.classes, lowercase(fqn)) is Some {
                Some(ClassRefView::Declared(lowercase(fqn)))
            } else {
                Some(ClassRefView::Foreign(fqn))
            }
        },
        None => None,
    }
}

// ---------------------------------------------------------------------------
// The walk
// ---------------------------------------------------------------------------

/// The state after the first `k` children of a node.
pub open spec fn use_kids(t: TreeView, s: SymbolsView, path: Seq<char>, f: UseFrameView, st: UseState, n: usize, k: int) -> UseState
    decreases t.nodes.len() - n, 10int, k,
{
    if k <= 0 || k > t.kids(n).len() {
        st
    } else {
        use_at(t, s, path, f, use_kids(t, s, path, f, st, n, k - 1), t.kids(n)[k - 1])
    }
}

/// The state after all children of a node.
pub open spec fn use_all(t: TreeView, s: SymbolsView, path: Seq<char>, f: UseFrameView, st: UseState, n: usize) -> UseState
    decreases t.nodes.len() - n, 15int, 0int,
{
    use_kids(t, s, path, f, st, n, t.kids(n).len() as int)
}

/// The state after the node under a field.
pub open spec fn use_field(t: TreeView, s: SymbolsView, path: Seq<char>, f: UseFrameView, st: UseState, n: usize, field: Seq<char>) -> UseState
    decreases t.nodes.len() - n, 5int, 0int,
{
    match t.field(n, field) {
        Some(x) => use_at(t, s, path, f, st, x),
        None => st,
    }
}

/// The state after the attributes of a declaration.
pub open spec fn use_attributes(t: TreeView, s: SymbolsView, path: Seq<char>, f: UseFrameView, st: UseState, n: usize) -> UseState
    decreases t.nodes.len() - n, 5int, 0int,
{
    match t.field(n, "attributes"@) {
        Some(list) => use_all(t, s, path, f, st, list),
        None => st,
    }
}

/// The state after the first `k` parameters of a callable.
pub open spec fn use_parameters(
    t: TreeView,
    s: SymbolsView,
    path: Seq<char>,
    f: UseFrameView,
    st: UseState,
    n: usize,
    namespace: Seq<char>,
    k: int,
) -> UseState
    decreases t.nodes.len() - n, 10int, k,
{
    if k <= 0 || k > t.kids(n).len() {
        st
    } else {
        let earlier = use_parameters(t, s, path, f, st, n, namespace, k - 1);
        let p = t.kids(n)[k - 1];
        if is_parameter(t, p) {
            let st1 = answered_type(t, s, path, earlier, t.field(p, "type"@), namespace);
            let st2 = bound_by_type(t, s, path, st1, t.field(p, "type"@), field_variable(t, p), namespace);
            use_field(t, s, path, f, use_attributes(t, s, path, f, st2, p), p, "default_value"@)
        } else {
            earlier
        }
    }
}

/// The state after a callable. A method and a closure see `$this`, and a
/// closure sees the variables around it; a function sees neither.
pub open spec fn use_callable(
    t: TreeView,
    s: SymbolsView,
    path: Seq<char>,
    f: UseFrameView,
    st: UseState,
    n: usize,
    inherits: bool,
) -> UseState
    decreases t.nodes.len() - n, 40int, 0int,
{
    let inner = if inherits {
        f
    } else {
        no_class()
    };
    let opened = if inherits {
        st
    } else {
        UseState { vars: Seq::empty(), ..st }
    };
    let st1 = use_attributes(t, s, path, inner, opened, n);
    let st2 = match t.field(n, "parameters"@) {
        Some(params) => use_parameters(
            t,
            s,
            path,
            inner,
            st1,
            params,
            st1.namespace,
            t.kids(params).len() as int,
        ),
        None => st1,
    };
    let st3 = answered_type(t, s, path, st2, t.field(n, "return_type"@), st.namespace);
    let st4 = use_field(t, s, path, inner, st3, n, "body"@);
    UseState { answers: st4.answers, ..st }
}

/// The state after a class: its bases, its attributes, its body.
pub open spec fn use_class(t: TreeView, s: SymbolsView, path: Seq<char>, st: UseState, n: usize) -> UseState
    decreases t.nodes.len() - n, 40int, 0int,
{
    let inner = UseFrameView {
        class: declared_here(t, s, st.namespace, n),
        parent: extended_from(t, s, path, st.namespace, t.kids(n), 0),
    };
    let st1 = answered_bases(t, s, path, st, t.kids(n), t.kids(n).len() as int);
    let st2 = use_attributes(t, s, path, inner, UseState { vars: Seq::empty(), ..st1 }, n);
    let st3 = match t.field(n, "body"@) {
        Some(body) => use_all(t, s, path, inner, st2, body),
        None => st2,
    };
    UseState { answers: st3.answers, ..st }
}

/// The state after those of the first `k` parts of a constant that stand behind
/// its name.
pub open spec fn use_value(t: TreeView, s: SymbolsView, path: Seq<char>, f: UseFrameView, st: UseState, n: usize, k: int) -> UseState
    decreases t.nodes.len() - n, 10int, k,
{
    if k <= 0 || k > t.kids(n).len() {
        st
    } else {
        let earlier = use_value(t, s, path, f, st, n, k - 1);
        if last_of(t, t.kids(n), "name"@, k - 1) is Some {
            use_at(t, s, path, f, earlier, t.kids(n)[k - 1])
        } else {
            earlier
        }
    }
}

/// The state after the first `k` parts of the declaration of a member.
pub open spec fn use_elements(t: TreeView, s: SymbolsView, path: Seq<char>, f: UseFrameView, st: UseState, n: usize, k: int) -> UseState
    decreases t.nodes.len() - n, 10int, k,
{
    if k <= 0 || k > t.kids(n).len() {
        st
    } else {
        let earlier = use_elements(t, s, path, f, st, n, k - 1);
        let element = t.kids(n)[k - 1];
        if t.kind(element) == "property_element"@ {
            use_field(t, s, path, f, earlier, element, "default_value"@)
        } else if t.kind(element) == "const_element"@ {
            use_value(t, s, path, f, earlier, element, t.kids(element).len() as int)
        } else {
            earlier
        }
    }
}

/// The state after the declaration of a property, a constant or a case.
pub open spec fn use_member_declaration(t: TreeView, s: SymbolsView, path: Seq<char>, f: UseFrameView, st: UseState, n: usize) -> UseState
    decreases t.nodes.len() - n, 40int, 0int,
{
    let st1 = answered_type(t, s, path, st, t.field(n, "type"@), st.namespace);
    let st2 = use_attributes(t, s, path, f, st1, n);
    let st3 = use_elements(t, s, path, f, st2, n, t.kids(n).len() as int);
    let st4 = use_field(t, s, path, f, st3, n, "value"@);
    match t.kid_of(n, "property_hook_list"@) {
        Some(hooks) => use_all(t, s, path, f, st4, hooks),
        None => st4,
    }
}

/// The state after a member of an object, and its receiver.
pub open spec fn use_member(t: TreeView, s: SymbolsView, path: Seq<char>, f: UseFrameView, st: UseState, n: usize, slot: Slot) -> UseState
    decreases t.nodes.len() - n, 30int, 0int,
{
    let st1 = match t.field(n, "name"@) {
        Some(name) => if t.kind(name) == "name"@ {
            answered_member(
                t,
                s,
                path,
                st,
                Some(name),
                inferred_in(t, s, path, f, st, t.field(n, "object"@)),
                slot,
            )
        } else {
            use_at(t, s, path, f, st, name)
        },
        None => st,
    };
    use_field(t, s, path, f, st1, n, "object"@)
}

/// The name of a member that is reached through a class.
pub open spec fn scoped_name(t: TreeView, n: usize) -> Option<usize> {
    match t.field(n, "name"@) {
        Some(name) => if t.kind(name) == "name"@ {
            Some(name)
        } else if t.kind(name) == "variable_name"@ {
            variable_name(t, name)
        } else {
            None
        },
        None => None,
    }
}

/// The state after a member of a class, and the class it is reached through.
pub open spec fn use_scoped(t: TreeView, s: SymbolsView, path: Seq<char>, f: UseFrameView, st: UseState, n: usize, slot: Slot) -> UseState
    decreases t.nodes.len() - n, 30int, 0int,
{
    let receiver = inferred_in(t, s, path, f, st, t.field(n, "scope"@));
    use_field(t, s, path, f, answered_member(t, s, path, st, scoped_name(t, n), receiver, slot), n, "scope"@)
}

/// The state after an access to a constant of a class. `Foo::class` names no
/// constant.
pub open spec fn use_class_constant(t: TreeView, s: SymbolsView, path: Seq<char>, f: UseFrameView, st: UseState, n: usize) -> UseState
    decreases t.nodes.len() - n, 30int, 0int,
{
    let list = plain_kids(t, n);
    if list.len() == 0 {
        st
    } else {
        proof {
            plain_are_below(t, n, t.kids(n).len() as int);
        }
        let member = list.last();
        let st1 = if list.len() > 1 && t.kind(member) == "name"@ && ascii_lowercase(t.text(member)) != "class"@ {
            answered_member(
                t,
                s,
                path,
                st,
                Some(member),
                inferred_in(t, s, path, f, st, Some(list[0])),
                Slot::Constant,
            )
        } else {
            st
        };
        use_at(t, s, path, f, st1, list[0])
    }
}

/// The state after a clause that catches exceptions.
pub open spec fn use_catch(t: TreeView, s: SymbolsView, path: Seq<char>, f: UseFrameView, st: UseState, n: usize) -> UseState
    decreases t.nodes.len() - n, 30int, 0int,
{
    let st1 = answered_type(t, s, path, st, t.field(n, "type"@), st.namespace);
    let st2 = bound_by_type(t, s, path, st1, t.field(n, "type"@), field_variable(t, n), st.namespace);
    use_field(t, s, path, f, st2, n, "body"@)
}

/// The state after the first `k` parts of the creation of an object.
pub open spec fn use_creation(
    t: TreeView,
    s: SymbolsView,
    path: Seq<char>,
    f: UseFrameView,
    st: UseState,
    n: usize,
    namespace: Seq<char>,
    k: int,
) -> UseState
    decreases t.nodes.len() - n, 10int, k,
{
    if k <= 0 || k > t.kids(n).len() {
        st
    } else {
        let earlier = use_creation(t, s, path, f, st, n, namespace, k - 1);
        let part = t.kids(n)[k - 1];
        if t.kind_among(part, NAME_KINDS@) {
            answered_name(t, s, path, earlier, part, namespace, NameKind::Class)
        } else {
            use_at(t, s, path, f, earlier, part)
        }
    }
}

/// The state after the first `k` parts of an argument. Its label names nothing.
pub open spec fn use_argument(t: TreeView, s: SymbolsView, path: Seq<char>, f: UseFrameView, st: UseState, n: usize, k: int) -> UseState
    decreases t.nodes.len() - n, 10int, k,
{
    if k <= 0 || k > t.kids(n).len() {
        st
    } else {
        let earlier = use_argument(t, s, path, f, st, n, k - 1);
        if Some(t.kids(n)[k - 1]) == t.field(n, "name"@) {
            earlier
        } else {
            use_at(t, s, path, f, earlier, t.kids(n)[k - 1])
        }
    }
}

/// The state where a variable holds what is assigned to it, if that is known.
pub open spec fn bound_by_assignment(t: TreeView, s: SymbolsView, path: Seq<char>, f: UseFrameView, st: UseState, n: usize) -> UseState {
    match t.field(n, "left"@) {
        Some(left) => if t.kind(left) == "variable_name"@ {
            match (variable_name(t, left), inferred_in(t, s, path, f, st, t.field(n, "right"@))) {
                (Some(ident), Some(class)) => with_var(st, t.text(ident), class),
                _ => st,
            }
        } else {
            st
        },
        None => st,
    }
}

/// The state after a call of a function.
pub open spec fn use_call(t: TreeView, s: SymbolsView, path: Seq<char>, f: UseFrameView, st: UseState, n: usize) -> UseState
    decreases t.nodes.len() - n, 30int, 0int,
{
    let st1 = match t.field(n, "function"@) {
        Some(function) => if t.kind_among(function, NAME_KINDS@) {
            answered_name(t, s, path, st, function, st.namespace, NameKind::Function)
        } else {
            use_at(t, s, path, f, st, function)
        },
        None => st,
    };
    use_field(t, s, path, f, st1, n, "arguments"@)
}

/// Whether a node declares a member of a class that is no method.
pub open spec fn is_member_declaration(t: TreeView, n: usize) -> bool {
    t.kind(n) == "property_declaration"@ || t.kind(n) == "const_declaration"@ || t.kind(n) == "enum_case"@
}

/// Whether a node is a plain assignment.
pub open spec fn is_binding(t: TreeView, n: usize) -> bool {
    t.kind(n) == "assignment_expression"@ || t.kind(n) == "reference_assignment_expression"@
}

/// The state after a namespace definition.
pub open spec fn use_namespace(t: TreeView, s: SymbolsView, path: Seq<char>, st: UseState, n: usize) -> UseState
    decreases t.nodes.len() - n, 30int, 0int,
{
    let name = namespace_name(t, n);
    match t.field(n, "body"@) {
        Some(body) => UseState {
            answers: use_all(
                t,
                s,
                path,
                no_class(),
                UseState { answers: st.answers, namespace: name, vars: Seq::empty() },
                body,
            ).answers,
            ..st
        },
        None => UseState { namespace: name, ..st },
    }
}

/// The state after an attribute.
pub open spec fn use_attribute(t: TreeView, s: SymbolsView, path: Seq<char>, f: UseFrameView, st: UseState, n: usize) -> UseState
    decreases t.nodes.len() - n, 30int, 0int,
{
    let st1 = match t.kid_among(n, NAME_KINDS@) {
        Some(name) => answered_name(t, s, path, st, name, st.namespace, NameKind::Class),
        None => st,
    };
    use_field(t, s, path, f, st1, n, "parameters"@)
}

/// The state after a binary expression.
pub open spec fn use_binary(t: TreeView, s: SymbolsView, path: Seq<char>, f: UseFrameView, st: UseState, n: usize) -> UseState
    decreases t.nodes.len() - n, 30int, 0int,
{
    match tested_class(t, n) {
        Some(right) => use_field(
            t,
            s,
            path,
            f,
            answered_name(t, s, path, st, right, st.namespace, NameKind::Class),
            n,
            "left"@,
        ),
        None => use_all(t, s, path, f, st, n),
    }
}

/// The state after one node.
pub open spec fn use_at(t: TreeView, s: SymbolsView, path: Seq<char>, f: UseFrameView, st: UseState, n: usize) -> UseState
    decreases t.nodes.len() - n, 50int, 0int,
{
    if t.kind_among(n, MARKUP_KINDS@) || t.kind(n) == "variable_name"@ || t.kind(n) == "namespace_use_declaration"@ {
        st
    } else if t.kind(n) == "namespace_definition"@ {
        use_namespace(t, s, path, st, n)
    } else if is_class(t, n) {
        use_class(t, s, path, st, n)
    } else if t.kind(n) == "function_definition"@ {
        use_callable(t, s, path, f, st, n, false)
    } else if t.kind(n) == "method_declaration"@ || is_unnamed(t, n) {
        use_callable(t, s, path, f, st, n, true)
    } else if is_member_declaration(t, n) {
        use_member_declaration(t, s, path, f, st, n)
    } else if t.kind(n) == "use_declaration"@ {
        answered_traits(t, s, path, st, t.kids(n), t.kids(n).len() as int)
    } else if t.kind(n) == "function_call_expression"@ {
        use_call(t, s, path, f, st, n)
    } else if t.kind(n) == "object_creation_expression"@ {
        use_creation(t, s, path, f, st, n, st.namespace, t.kids(n).len() as int)
    } else if t.kind(n) == "scoped_call_expression"@ {
        use_field(t, s, path, f, use_scoped(t, s, path, f, st, n, Slot::Method), n, "arguments"@)
    } else if is_member_call(t, n) {
        use_field(t, s, path, f, use_member(t, s, path, f, st, n, Slot::Method), n, "arguments"@)
    } else if is_object_access(t, n) {
        use_member(t, s, path, f, st, n, Slot::Property)
    } else if t.kind(n) == "scoped_property_access_expression"@ {
        use_scoped(t, s, path, f, st, n, Slot::Property)
    } else if t.kind(n) == "class_constant_access_expression"@ {
        use_class_constant(t, s, path, f, st, n)
    } else if t.kind(n) == "attribute"@ {
        use_attribute(t, s, path, f, st, n)
    } else if t.kind(n) == "binary_expression"@ {
        use_binary(t, s, path, f, st, n)
    } else if t.kind(n) == "catch_clause"@ {
        use_catch(t, s, path, f, st, n)
    } else if is_binding(t, n) {
        use_all(t, s, path, f, bound_by_assignment(t, s, path, f, st, n), n)
    } else if t.kind(n) == "argument"@ {
        use_argument(t, s, path, f, st, n, t.kids(n).len() as int)
    } else if t.kind_among(n, NAME_KINDS@) {
        answered_name(t, s, path, st, n, st.namespace, NameKind::Value)
    } else {
        use_all(t, s, path, f, st, n)
    }
}

/// The answers after a file.
pub open spec fn answers_after(t: TreeView, s: SymbolsView, path: Seq<char>, answers: Seq<RowView<PlacedView>>, root: usize) -> Seq<
    RowView<PlacedView>,
> {
    use_all(
        t,
        s,
        path,
        no_class(),
        UseState { answers, namespace: Seq::empty(), vars: Seq::empty() },
        root,
    ).answers
}

/// The answer among the first `n` for a place. The newest counts.
pub open spec fn placed_at(list: Seq<PlacedView>, line: u32, col: u32, n: int) -> Option<AnswerView>
    decreases n,
{
    if n <= 0 || n > list.len() {
        None
    } else if list[n - 1].line == line && list[n - 1].col == col {
        Some(list[n - 1].answer)
    } else {
        placed_at(list, line, col, n - 1)
    }
}

/// The answer for a place in a file.
pub open spec fn answer_at(answers: Seq<RowView<PlacedView>>, path: Seq<char>, line: u32, col: u32) -> Option<AnswerView> {
    placed_at(values_of(answers, path), line, col, values_of(answers, path).len() as int)
}

// ---------------------------------------------------------------------------
// Reading
// ---------------------------------------------------------------------------

/// The class around the code that is read, and what it extends.
struct UseFrame {
    class: Option<ClassRef>,
    parent: Option<ClassRef>,
}

impl View for UseFrame {
    type V = UseFrameView;

    closed spec fn view(&self) -> UseFrameView {
        UseFrameView { class: opt_view(self.class), parent: opt_view(self.parent) }
    }
}

/// Code outside of any class.
fn outside_classes() -> (r: UseFrame)
    ensures
        r@ == no_class(),
{
    UseFrame { class: None, parent: None }
}

/// Collects what the names in files refer to.
pub struct Walker {
    pub answers: Log<Placed>,
    pub namespace: String,
    pub vars: Vec<(String, ClassRef)>,
}

impl View for Walker {
    type V = UseState;

    open spec fn view(&self) -> UseState {
        UseState { answers: self.answers@, namespace: self.namespace@, vars: views(self.vars@) }
    }
}

/// The class that a variable holds.
#[verifier::loop_isolation(false)]
fn held_class(vars: &Vec<(String, ClassRef)>, name: &str) -> (r: Option<ClassRef>)
    ensures
        opt_view(r) == var_of(views(vars@), name@, vars@.len() as int),
{
    let ghost all = views(vars@);
    let mut k: usize = vars.len();
    while k > 0
        invariant
            k <= vars@.len(),
            var_of(all, name@, vars@.len() as int) == var_of(all, name@, k as int),
        decreases k,
    {
        k -= 1;
        assert(all[k as int] == vars@[k as int]@);
        if same(vars[k].0.as_str(), name) {
            return Some(vars[k].1.copy());
        }
    }
    None
}

/// A copy of the classes that variables hold.
#[verifier::loop_isolation(false)]
fn copy_vars(vars: &Vec<(String, ClassRef)>) -> (r: Vec<(String, ClassRef)>)
    ensures
        views(r@) == views(vars@),
{
    let ghost all = views(vars@);
    let mut out: Vec<(String, ClassRef)> = Vec::new();
    let mut k: usize = 0;
    assert(views(out@) =~= all.take(0));
    while k < vars.len()
        invariant
            k <= vars@.len(),
            views(out@) == all.take(k as int),
        decreases vars@.len() - k,
    {
        assert(all[k as int] == vars@[k as int]@);
        add_item(&mut out, (copy(vars[k].0.as_str()), vars[k].1.copy()));
        assert(all.take(k + 1) =~= all.take(k as int).push(all[k as int]));
        k += 1;
    }
    assert(all.take(vars@.len() as int) =~= all);
    out
}

/// The class that a property of a class holds.
fn held_by_property(s: &Symbols, owner: &Option<ClassRef>, property: &str) -> (r: Option<ClassRef>)
    requires
        s.wf(),
    ensures
        opt_view(r) == property_class(s@, opt_view(*owner), property@),
{
    match owner {
        Some(ClassRef::Declared(key)) => s.property_type(key.as_str(), property),
        _ => None,
    }
}

/// The class that an expression gives, as far as the tables can tell.
fn infer(t: &Syntax, s: &Symbols, path: &str, f: &UseFrame, st: &Walker, n: usize) -> (r: Option<ClassRef>)
    requires
        t@.wf(),
        s.wf(),
        n < t@.nodes.len(),
    ensures
        opt_view(r) == inferred(t@, s@, path@, f@, st@.namespace, st@.vars, n),
    decreases t@.nodes.len() - n,
{
    if t.is(n, "variable_name") {
        match variable_identifier(t, n) {
            Some(ident) => {
                let name = t.text(ident);
                if same(name.as_str(), "this") {
                    copy_class(&f.class)
                } else {
                    assert(st@.vars.len() == st.vars@.len());
                    held_class(&st.vars, name.as_str())
                }
            },
            None => None,
        }
    } else if t.is(n, "relative_scope") {
        let text = t.text(n);
        let word = to_lower(text.as_str());
        if same(word.as_str(), "parent") {
            copy_class(&f.parent)
        } else {
            copy_class(&f.class)
        }
    } else if t.is_among(n, &NAME_KINDS) {
        let name = t.text(n);
        Some(s.class_ref(name.as_str(), path, st.namespace.as_str()))
    } else if t.is(n, "object_creation_expression") {
        match t.kid_among(n, &NAME_KINDS) {
            Some(class) => {
                let name = t.text(class);
                Some(s.class_ref(name.as_str(), path, st.namespace.as_str()))
            },
            None => None,
        }
    } else if t.is(n, "member_access_expression") || t.is(n, "nullsafe_member_access_expression") {
        match (t.field(n, "object"), t.field(n, "name")) {
            (Some(object), Some(name)) => {
                if t.is(name, "name") {
                    let owner = infer(t, s, path, f, st, object);
                    let property = t.text(name);
                    held_by_property(s, &owner, property.as_str())
                } else {
                    None
                }
            },
            _ => None,
        }
    } else if t.is(n, "scoped_property_access_expression") {
        match (t.field(n, "scope"), declared_variable(t, n)) {
            (Some(scope), Some(ident)) => {
                let owner = infer(t, s, path, f, st, scope);
                let property = t.text(ident);
                held_by_property(s, &owner, property.as_str())
            },
            _ => None,
        }
    } else if t.is(n, "parenthesized_expression") {
        let list = t.named_kids(n);
        if list.len() > 0 {
            assert(t@.below(n, list@[0]));
            infer(t, s, path, f, st, list[0])
        } else {
            None
        }
    } else {
        None
    }
}

/// The class that an expression gives that may be there.
fn infer_some(t: &Syntax, s: &Symbols, path: &str, f: &UseFrame, st: &Walker, n: Option<usize>) -> (r: Option<ClassRef>)
    requires
        t@.wf(),
        s.wf(),
        n is Some ==> n->0 < t@.nodes.len(),
    ensures
        opt_view(r) == inferred_in(t@, s@, path@, f@, st@, n),
{
    match n {
        Some(n) => infer(t, s, path, f, st, n),
        None => None,
    }
}

impl Walker {
    /// Records an answer for a name.
    fn record(&mut self, t: &Syntax, path: &str, n: usize, answer: Answer)
        requires
            n < t@.nodes.len(),
            old(self).answers.wf(),
        ensures
            final(self).answers.wf(),
            final(self)@ == answered(t@, path@, old(self)@, n, answer@),
    {
        let span = t.span(n);
        self.answers.push(path, path, Placed { line: span.start_line, col: span.start_col, answer });
    }

    /// Records an answer for a reference, at its final name.
    fn record_name(&mut self, t: &Syntax, s: &Symbols, path: &str, n: usize, namespace: &str, kind: NameKind)
        requires
            t@.wf(),
            s.wf(),
            n < t@.nodes.len(),
            old(self).answers.wf(),
        ensures
            final(self).answers.wf(),
            final(self)@ == answered_name(t@, s@, path@, old(self)@, n, namespace@, kind),
    {
        if let Some(position) = last_name(t, n) {
            let name = t.text(n);
            let answer = s.name_answer(name.as_str(), path, namespace, kind);
            self.record(t, path, position, answer);
        }
    }

    /// Records answers for the classes that a type names.
    #[verifier::loop_isolation(false)]
    fn record_type(&mut self, t: &Syntax, s: &Symbols, path: &str, n: Option<usize>, namespace: &str)
        requires
            t@.wf(),
            s.wf(),
            n is Some ==> n->0 < t@.nodes.len(),
            old(self).answers.wf(),
        ensures
            final(self).answers.wf(),
            final(self)@ == answered_type(t@, s@, path@, old(self)@, n, namespace@),
    {
        if let Some(n) = n {
            let refs = class_refs(t, n);
            let ghost start = self@;
            let mut k: usize = 0;
            while k < refs.len()
                invariant
                    k <= refs@.len(),
                    self.answers.wf(),
                    self@ == answered_refs(t@, s@, path@, start, refs@, namespace@, k as int),
                decreases refs@.len() - k,
            {
                self.record_name(t, s, path, refs[k], namespace, NameKind::Class);
                k += 1;
            }
        }
    }

    /// Records an answer for a member of a class that may be known.
    fn record_member(&mut self, t: &Syntax, s: &Symbols, path: &str, n: Option<usize>, class: &Option<ClassRef>, slot: Slot)
        requires
            t@.wf(),
            s.wf(),
            n is Some ==> n->0 < t@.nodes.len(),
            old(self).answers.wf(),
        ensures
            final(self).answers.wf(),
            final(self)@ == answered_member(t@, s@, path@, old(self)@, n, opt_view(*class), slot),
    {
        if let (Some(n), Some(class)) = (n, class) {
            let member = t.text(n);
            let answer = s.member_answer(class, member.as_str(), slot);
            self.record(t, path, n, answer);
        }
    }

    /// Lets a variable hold a class.
    fn bind(&mut self, name: String, class: ClassRef)
        ensures
            final(self).answers == old(self).answers,
            final(self)@ == with_var(old(self)@, name@, class@),
    {
        let ghost entry = (name@, class@);
        let ghost before = views(self.vars@);
        add_item(&mut self.vars, (name, class));
        assert(views(self.vars@) =~= before.push(entry));
    }

    /// Lets a variable hold the one class that a type names.
    fn bind_by_type(
        &mut self,
        t: &Syntax,
        s: &Symbols,
        path: &str,
        type_node: Option<usize>,
        ident: Option<usize>,
        namespace: &str,
    )
        requires
            t@.wf(),
            s.wf(),
            type_node is Some ==> type_node->0 < t@.nodes.len(),
            ident is Some ==> ident->0 < t@.nodes.len(),
        ensures
            final(self).answers == old(self).answers,
            final(self)@ == bound_by_type(t@, s@, path@, old(self)@, type_node, ident, namespace@),
    {
        if let (Some(n), Some(ident)) = (type_node, ident) {
            let refs = class_refs(t, n);
            if refs.len() == 1 {
                let name = t.text(refs[0]);
                let class = s.class_ref(name.as_str(), path, namespace);
                self.bind(t.text(ident), class);
            }
        }
    }
}

/// Records answers for the traits that a class uses.
#[verifier::loop_isolation(false)]
fn record_traits(t: &Syntax, s: &Symbols, path: &str, st: &mut Walker, n: usize)
    requires
        t@.wf(),
        s.wf(),
        old(st).answers.wf(),
        n < t@.nodes.len(),
    ensures
        final(st).answers.wf(),
        final(st)@ == answered_traits(t@, s@, path@, old(st)@, t@.kids(n), t@.kids(n).len() as int),
{
    let namespace = copy(st.namespace.as_str());
    let kids = t.kids(n);
    let ghost start = st@;
    let mut k: usize = 0;
    while k < kids.len()
        invariant
            k <= kids@.len(),
            st.answers.wf(),
            st@ == answered_traits(t@, s@, path@, start, kids@, k as int),
        decreases kids@.len() - k,
    {
        assert(t@.below(n, kids@[k as int]));
        if t.is_among(kids[k], &NAME_KINDS) {
            st.record_name(t, s, path, kids[k], namespace.as_str(), NameKind::Class);
        }
        k += 1;
    }
}

/// Records answers for what a class extends and implements.
#[verifier::loop_isolation(false)]
fn record_bases(t: &Syntax, s: &Symbols, path: &str, st: &mut Walker, n: usize)
    requires
        t@.wf(),
        s.wf(),
        old(st).answers.wf(),
        n < t@.nodes.len(),
    ensures
        final(st).answers.wf(),
        final(st)@ == answered_bases(t@, s@, path@, old(st)@, t@.kids(n), t@.kids(n).len() as int),
{
    let namespace = copy(st.namespace.as_str());
    let kids = t.kids(n);
    let ghost start = st@;
    let mut k: usize = 0;
    while k < kids.len()
        invariant
            k <= kids@.len(),
            st.answers.wf(),
            st@ == answered_bases(t@, s@, path@, start, kids@, k as int),
        decreases kids@.len() - k,
    {
        assert(t@.below(n, kids@[k as int]));
        if t.is_among(kids[k], &BASE_KINDS) {
            st.record_type(t, s, path, Some(kids[k]), namespace.as_str());
        }
        k += 1;
    }
}

/// The first class that a class extends.
#[verifier::loop_isolation(false)]
fn extended_class(t: &Syntax, s: &Symbols, path: &str, namespace: &str, n: usize) -> (r: Option<ClassRef>)
    requires
        t@.wf(),
        s.wf(),
        n < t@.nodes.len(),
    ensures
        opt_view(r) == extended_from(t@, s@, path@, namespace@, t@.kids(n), 0),
{
    let kids = t.kids(n);
    let mut i: usize = 0;
    while i < kids.len()
        invariant
            i <= kids@.len(),
            extended_from(t@, s@, path@, namespace@, kids@, 0) == extended_from(
                t@,
                s@,
                path@,
                namespace@,
                kids@,
                i as int,
            ),
        decreases kids@.len() - i,
    {
        assert(t@.below(n, kids@[i as int]));
        if t.is(kids[i], "base_clause") {
            let refs = class_refs(t, kids[i]);
            if refs.len() > 0 {
                let name = t.text(refs[0]);
                return Some(s.class_ref(name.as_str(), path, namespace));
            }
        }
        i += 1;
    }
    None
}

/// The class that a declaration declares.
fn class_here(t: &Syntax, s: &Symbols, namespace: &str, n: usize) -> (r: Option<ClassRef>)
    requires
        t@.wf(),
        s.wf(),
        n < t@.nodes.len(),
    ensures
        opt_view(r) == declared_here(t@, s@, namespace@, n),
{
    match t.field(n, "name") {
        Some(name_node) => {
            let name = t.text(name_node);
            let fqn = qualify(namespace, name.as_str());
            let key = to_lower(fqn.as_str());
            if s.classes.first(key.as_str(), key.as_str()).is_some() {
                Some(ClassRef::Declared(key))
            } else {
                Some(ClassRef::Foreign(fqn))
            }
        },
        None => None,
    }
}

/// The name of a member that is reached through a class.
fn name_behind_scope(t: &Syntax, n: usize) -> (r: Option<usize>)
    requires
        t@.wf(),
        n < t@.nodes.len(),
    ensures
        r == scoped_name(t@, n),
        r is Some ==> r->0 < t@.nodes.len(),
{
    match t.field(n, "name") {
        Some(name) => {
            if t.is(name, "name") {
                Some(name)
            } else if t.is(name, "variable_name") {
                variable_identifier(t, name)
            } else {
                None
            }
        },
        None => None,
    }
}

/// Lets a variable hold what is assigned to it, if that is known.
fn bind_assignment(t: &Syntax, s: &Symbols, path: &str, f: &UseFrame, st: &mut Walker, n: usize)
    requires
        t@.wf(),
        s.wf(),
        n < t@.nodes.len(),
    ensures
        final(st).answers == old(st).answers,
        final(st)@ == bound_by_assignment(t@, s@, path@, f@, old(st)@, n),
{
    if let Some(left) = t.field(n, "left") {
        if t.is(left, "variable_name") {
            if let Some(ident) = variable_identifier(t, left) {
                if let Some(class) = infer_some(t, s, path, f, st, t.field(n, "right")) {
                    st.bind(t.text(ident), class);
                }
            }
        }
    }
}

/// Answers for references leave the scope as it is.
proof fn refs_keep_the_scope(
    t: TreeView,
    s: SymbolsView,
    path: Seq<char>,
    st: UseState,
    refs: Seq<usize>,
    namespace: Seq<char>,
    k: int,
)
    ensures
        answered_refs(t, s, path, st, refs, namespace, k).vars == st.vars,
        answered_refs(t, s, path, st, refs, namespace, k).namespace == st.namespace,
    decreases k,
{
    if !(k <= 0 || k > refs.len()) {
        refs_keep_the_scope(t, s, path, st, refs, namespace, k - 1);
    }
}

/// Answers for the bases of a class leave the scope as it is.
proof fn bases_keep_the_scope(t: TreeView, s: SymbolsView, path: Seq<char>, st: UseState, list: Seq<usize>, k: int)
    ensures
        answered_bases(t, s, path, st, list, k).vars == st.vars,
        answered_bases(t, s, path, st, list, k).namespace == st.namespace,
    decreases k,
{
    if !(k <= 0 || k > list.len()) {
        bases_keep_the_scope(t, s, path, st, list, k - 1);
        let earlier = answered_bases(t, s, path, st, list, k - 1);
        let refs = class_names(t, list[k - 1]);
        refs_keep_the_scope(t, s, path, earlier, refs, st.namespace, refs.len() as int);
    }
}

/// Reads all children of a node.
#[verifier::loop_isolation(false)]
fn walk_all(t: &Syntax, s: &Symbols, path: &str, f: &UseFrame, st: &mut Walker, n: usize)
    requires
        t@.wf(),
        s.wf(),
        old(st).answers.wf(),
        n < t@.nodes.len(),
    ensures
        final(st).answers.wf(),
        final(st)@ == use_all(t@, s@, path@, f@, old(st)@, n),
    decreases t@.nodes.len() - n, 15int,
{
    let kids = t.kids(n);
    let ghost start = st@;
    let mut k: usize = 0;
    while k < kids.len()
        invariant
            k <= kids@.len(),
            st.answers.wf(),
            st@ == use_kids(t@, s@, path@, f@, start, n, k as int),
        decreases kids@.len() - k,
    {
        assert(t@.below(n, kids@[k as int]));
        walk_uses(t, s, path, f, st, kids[k]);
        k += 1;
    }
}

/// Reads the node under a field.
fn walk_field(t: &Syntax, s: &Symbols, path: &str, f: &UseFrame, st: &mut Walker, n: usize, field: &str)
    requires
        t@.wf(),
        s.wf(),
        old(st).answers.wf(),
        n < t@.nodes.len(),
    ensures
        final(st).answers.wf(),
        final(st)@ == use_field(t@, s@, path@, f@, old(st)@, n, field@),
    decreases t@.nodes.len() - n, 5int,
{
    if let Some(x) = t.field(n, field) {
        walk_uses(t, s, path, f, st, x);
    }
}

/// Reads the attributes of a declaration.
fn walk_attributes(t: &Syntax, s: &Symbols, path: &str, f: &UseFrame, st: &mut Walker, n: usize)
    requires
        t@.wf(),
        s.wf(),
        old(st).answers.wf(),
        n < t@.nodes.len(),
    ensures
        final(st).answers.wf(),
        final(st)@ == use_attributes(t@, s@, path@, f@, old(st)@, n),
    decreases t@.nodes.len() - n, 5int,
{
    if let Some(list) = t.field(n, "attributes") {
        walk_all(t, s, path, f, st, list);
    }
}

/// Reads the parameters of a callable, and lets them hold their classes.
#[verifier::loop_isolation(false)]
fn bind_parameters(t: &Syntax, s: &Symbols, path: &str, f: &UseFrame, st: &mut Walker, n: usize, namespace: &str)
    requires
        t@.wf(),
        s.wf(),
        old(st).answers.wf(),
        n < t@.nodes.len(),
    ensures
        final(st).answers.wf(),
        final(st)@ == use_parameters(t@, s@, path@, f@, old(st)@, n, namespace@, t@.kids(n).len() as int),
    decreases t@.nodes.len() - n, 12int,
{
    let kids = t.kids(n);
    let ghost start = st@;
    let mut k: usize = 0;
    while k < kids.len()
        invariant
            k <= kids@.len(),
            st.answers.wf(),
            st@ == use_parameters(t@, s@, path@, f@, start, n, namespace@, k as int),
        decreases kids@.len() - k,
    {
        assert(t@.below(n, kids@[k as int]));
        let p = kids[k];
        if t.is(p, "property_promotion_parameter") || t.is(p, "simple_parameter") || t.is(p, "variadic_parameter") {
            st.record_type(t, s, path, t.field(p, "type"), namespace);
            st.bind_by_type(t, s, path, t.field(p, "type"), declared_variable(t, p), namespace);
            walk_attributes(t, s, path, f, st, p);
            walk_field(t, s, path, f, st, p, "default_value");
        }
        k += 1;
    }
}

/// Reads a callable.
fn walk_callable(t: &Syntax, s: &Symbols, path: &str, f: &UseFrame, st: &mut Walker, n: usize, inherits: bool)
    requires
        t@.wf(),
        s.wf(),
        old(st).answers.wf(),
        n < t@.nodes.len(),
    ensures
        final(st).answers.wf(),
        final(st)@ == use_callable(t@, s@, path@, f@, old(st)@, n, inherits),
    decreases t@.nodes.len() - n, 40int,
{
    let namespace = copy(st.namespace.as_str());
    let mut vars = if inherits {
        copy_vars(&st.vars)
    } else {
        Vec::new()
    };
    assert(!inherits ==> views(vars@) =~= Seq::<(Seq<char>, ClassRefView)>::empty());
    std::mem::swap(&mut vars, &mut st.vars);
    let inner = if inherits {
        UseFrame { class: copy_class(&f.class), parent: copy_class(&f.parent) }
    } else {
        outside_classes()
    };
    walk_attributes(t, s, path, &inner, st, n);
    if let Some(params) = t.field(n, "parameters") {
        let here = copy(st.namespace.as_str());
        bind_parameters(t, s, path, &inner, st, params, here.as_str());
    }
    st.record_type(t, s, path, t.field(n, "return_type"), namespace.as_str());
    walk_field(t, s, path, &inner, st, n, "body");
    st.vars = vars;
    st.namespace = namespace;
}

/// Reads a class.
fn walk_class(t: &Syntax, s: &Symbols, path: &str, st: &mut Walker, n: usize)
    requires
        t@.wf(),
        s.wf(),
        old(st).answers.wf(),
        n < t@.nodes.len(),
    ensures
        final(st).answers.wf(),
        final(st)@ == use_class(t@, s@, path@, old(st)@, n),
    decreases t@.nodes.len() - n, 40int,
{
    let namespace = copy(st.namespace.as_str());
    let inner = UseFrame {
        class: class_here(t, s, namespace.as_str(), n),
        parent: extended_class(t, s, path, namespace.as_str(), n),
    };
    record_bases(t, s, path, st, n);
    let mut vars: Vec<(String, ClassRef)> = Vec::new();
    assert(views(vars@) =~= Seq::<(Seq<char>, ClassRefView)>::empty());
    std::mem::swap(&mut vars, &mut st.vars);
    proof {
        bases_keep_the_scope(t@, s@, path@, old(st)@, t@.kids(n), t@.kids(n).len() as int);
    }
    walk_attributes(t, s, path, &inner, st, n);
    if let Some(body) = t.field(n, "body") {
        walk_all(t, s, path, &inner, st, body);
    }
    st.vars = vars;
    st.namespace = namespace;
}

/// Reads what stands behind the name of a constant.
#[verifier::loop_isolation(false)]
fn walk_value(t: &Syntax, s: &Symbols, path: &str, f: &UseFrame, st: &mut Walker, n: usize)
    requires
        t@.wf(),
        s.wf(),
        old(st).answers.wf(),
        n < t@.nodes.len(),
    ensures
        final(st).answers.wf(),
        final(st)@ == use_value(t@, s@, path@, f@, old(st)@, n, t@.kids(n).len() as int),
    decreases t@.nodes.len() - n, 12int,
{
    let kids = t.kids(n);
    let ghost start = st@;
    let mut past = false;
    let mut k: usize = 0;
    while k < kids.len()
        invariant
            k <= kids@.len(),
            st.answers.wf(),
            past == (last_of(t@, kids@, "name"@, k as int) is Some),
            st@ == use_value(t@, s@, path@, f@, start, n, k as int),
        decreases kids@.len() - k,
    {
        assert(t@.below(n, kids@[k as int]));
        if past {
            walk_uses(t, s, path, f, st, kids[k]);
        } else {
            past = t.is(kids[k], "name");
        }
        k += 1;
    }
}

/// Reads the declaration of a property, a constant or a case.
#[verifier::loop_isolation(false)]
fn walk_member_declaration(t: &Syntax, s: &Symbols, path: &str, f: &UseFrame, st: &mut Walker, n: usize)
    requires
        t@.wf(),
        s.wf(),
        old(st).answers.wf(),
        n < t@.nodes.len(),
    ensures
        final(st).answers.wf(),
        final(st)@ == use_member_declaration(t@, s@, path@, f@, old(st)@, n),
    decreases t@.nodes.len() - n, 40int,
{
    let namespace = copy(st.namespace.as_str());
    st.record_type(t, s, path, t.field(n, "type"), namespace.as_str());
    walk_attributes(t, s, path, f, st, n);
    let kids = t.kids(n);
    let ghost start = st@;
    let mut k: usize = 0;
    while k < kids.len()
        invariant
            k <= kids@.len(),
            st.answers.wf(),
            st@ == use_elements(t@, s@, path@, f@, start, n, k as int),
        decreases kids@.len() - k,
    {
        assert(t@.below(n, kids@[k as int]));
        if t.is(kids[k], "property_element") {
            walk_field(t, s, path, f, st, kids[k], "default_value");
        } else if t.is(kids[k], "const_element") {
            walk_value(t, s, path, f, st, kids[k]);
        }
        k += 1;
    }
    walk_field(t, s, path, f, st, n, "value");
    if let Some(hooks) = t.kid_of(n, "property_hook_list") {
        walk_all(t, s, path, f, st, hooks);
    }
}

/// Reads a member of an object, and its receiver.
fn walk_member(t: &Syntax, s: &Symbols, path: &str, f: &UseFrame, st: &mut Walker, n: usize, slot: Slot)
    requires
        t@.wf(),
        s.wf(),
        old(st).answers.wf(),
        n < t@.nodes.len(),
    ensures
        final(st).answers.wf(),
        final(st)@ == use_member(t@, s@, path@, f@, old(st)@, n, slot),
    decreases t@.nodes.len() - n, 30int,
{
    if let Some(name) = t.field(n, "name") {
        if t.is(name, "name") {
            let receiver = infer_some(t, s, path, f, st, t.field(n, "object"));
            st.record_member(t, s, path, Some(name), &receiver, slot);
        } else {
            walk_uses(t, s, path, f, st, name);
        }
    }
    walk_field(t, s, path, f, st, n, "object");
}

/// Reads a member of a class, and the class it is reached through.
fn walk_scoped(t: &Syntax, s: &Symbols, path: &str, f: &UseFrame, st: &mut Walker, n: usize, slot: Slot)
    requires
        t@.wf(),
        s.wf(),
        old(st).answers.wf(),
        n < t@.nodes.len(),
    ensures
        final(st).answers.wf(),
        final(st)@ == use_scoped(t@, s@, path@, f@, old(st)@, n, slot),
    decreases t@.nodes.len() - n, 30int,
{
    let receiver = infer_some(t, s, path, f, st, t.field(n, "scope"));
    st.record_member(t, s, path, name_behind_scope(t, n), &receiver, slot);
    walk_field(t, s, path, f, st, n, "scope");
}

/// Reads an access to a constant of a class.
fn walk_class_constant(t: &Syntax, s: &Symbols, path: &str, f: &UseFrame, st: &mut Walker, n: usize)
    requires
        t@.wf(),
        s.wf(),
        old(st).answers.wf(),
        n < t@.nodes.len(),
    ensures
        final(st).answers.wf(),
        final(st)@ == use_class_constant(t@, s@, path@, f@, old(st)@, n),
    decreases t@.nodes.len() - n, 30int,
{
    let list = significant(t, n);
    if list.len() == 0 {
        return;
    }
    let first = list[0];
    let member = list[list.len() - 1];
    assert(t@.below(n, list@[0]));
    assert(t@.below(n, list@[list@.len() - 1]));
    if list.len() > 1 && t.is(member, "name") {
        let text = t.text(member);
        let word = to_ascii_lower(text.as_str());
        if !same(word.as_str(), "class") {
            let receiver = infer_some(t, s, path, f, st, Some(first));
            st.record_member(t, s, path, Some(member), &receiver, Slot::Constant);
        }
    }
    walk_uses(t, s, path, f, st, first);
}

/// Reads a clause that catches exceptions.
fn walk_catch(t: &Syntax, s: &Symbols, path: &str, f: &UseFrame, st: &mut Walker, n: usize)
    requires
        t@.wf(),
        s.wf(),
        old(st).answers.wf(),
        n < t@.nodes.len(),
    ensures
        final(st).answers.wf(),
        final(st)@ == use_catch(t@, s@, path@, f@, old(st)@, n),
    decreases t@.nodes.len() - n, 30int,
{
    let namespace = copy(st.namespace.as_str());
    st.record_type(t, s, path, t.field(n, "type"), namespace.as_str());
    st.bind_by_type(t, s, path, t.field(n, "type"), declared_variable(t, n), namespace.as_str());
    walk_field(t, s, path, f, st, n, "body");
}

/// Reads the creation of an object.
#[verifier::loop_isolation(false)]
fn walk_creation(t: &Syntax, s: &Symbols, path: &str, f: &UseFrame, st: &mut Walker, n: usize)
    requires
        t@.wf(),
        s.wf(),
        old(st).answers.wf(),
        n < t@.nodes.len(),
    ensures
        final(st).answers.wf(),
        final(st)@ == use_creation(t@, s@, path@, f@, old(st)@, n, old(st)@.namespace, t@.kids(n).len() as int),
    decreases t@.nodes.len() - n, 12int,
{
    let namespace = copy(st.namespace.as_str());
    let kids = t.kids(n);
    let ghost start = st@;
    let mut k: usize = 0;
    while k < kids.len()
        invariant
            k <= kids@.len(),
            st.answers.wf(),
            st@ == use_creation(t@, s@, path@, f@, start, n, namespace@, k as int),
        decreases kids@.len() - k,
    {
        assert(t@.below(n, kids@[k as int]));
        if t.is_among(kids[k], &NAME_KINDS) {
            st.record_name(t, s, path, kids[k], namespace.as_str(), NameKind::Class);
        } else {
            walk_uses(t, s, path, f, st, kids[k]);
        }
        k += 1;
    }
}

/// Reads an argument of a call.
#[verifier::loop_isolation(false)]
fn walk_argument(t: &Syntax, s: &Symbols, path: &str, f: &UseFrame, st: &mut Walker, n: usize)
    requires
        t@.wf(),
        s.wf(),
        old(st).answers.wf(),
        n < t@.nodes.len(),
    ensures
        final(st).answers.wf(),
        final(st)@ == use_argument(t@, s@, path@, f@, old(st)@, n, t@.kids(n).len() as int),
    decreases t@.nodes.len() - n, 12int,
{
    let kids = t.kids(n);
    let ghost start = st@;
    let label = t.field(n, "name");
    let mut k: usize = 0;
    while k < kids.len()
        invariant
            k <= kids@.len(),
            st.answers.wf(),
            st@ == use_argument(t@, s@, path@, f@, start, n, k as int),
        decreases kids@.len() - k,
    {
        assert(t@.below(n, kids@[k as int]));
        if label != Some(kids[k]) {
            walk_uses(t, s, path, f, st, kids[k]);
        }
        k += 1;
    }
}

/// Reads a call of a function.
fn walk_call(t: &Syntax, s: &Symbols, path: &str, f: &UseFrame, st: &mut Walker, n: usize)
    requires
        t@.wf(),
        s.wf(),
        old(st).answers.wf(),
        n < t@.nodes.len(),
    ensures
        final(st).answers.wf(),
        final(st)@ == use_call(t@, s@, path@, f@, old(st)@, n),
    decreases t@.nodes.len() - n, 30int,
{
    if let Some(function) = t.field(n, "function") {
        if t.is_among(function, &NAME_KINDS) {
            let namespace = copy(st.namespace.as_str());
            st.record_name(t, s, path, function, namespace.as_str(), NameKind::Function);
        } else {
            walk_uses(t, s, path, f, st, function);
        }
    }
    walk_field(t, s, path, f, st, n, "arguments");
}

/// Reads a namespace definition.
fn walk_namespace(t: &Syntax, s: &Symbols, path: &str, st: &mut Walker, n: usize)
    requires
        t@.wf(),
        s.wf(),
        old(st).answers.wf(),
        n < t@.nodes.len(),
    ensures
        final(st).answers.wf(),
        final(st)@ == use_namespace(t@, s@, path@, old(st)@, n),
    decreases t@.nodes.len() - n, 30int,
{
    let mut namespace = namespace_of(t, n);
    match t.field(n, "body") {
        Some(body) => {
            let mut vars: Vec<(String, ClassRef)> = Vec::new();
            assert(views(vars@) =~= Seq::<(Seq<char>, ClassRefView)>::empty());
            std::mem::swap(&mut vars, &mut st.vars);
            std::mem::swap(&mut namespace, &mut st.namespace);
            let f = outside_classes();
            walk_all(t, s, path, &f, st, body);
            st.vars = vars;
            st.namespace = namespace;
        },
        None => {
            st.namespace = namespace;
        },
    }
}

/// Reads an attribute.
fn walk_attribute(t: &Syntax, s: &Symbols, path: &str, f: &UseFrame, st: &mut Walker, n: usize)
    requires
        t@.wf(),
        s.wf(),
        old(st).answers.wf(),
        n < t@.nodes.len(),
    ensures
        final(st).answers.wf(),
        final(st)@ == use_attribute(t@, s@, path@, f@, old(st)@, n),
    decreases t@.nodes.len() - n, 30int,
{
    if let Some(name) = t.kid_among(n, &NAME_KINDS) {
        let namespace = copy(st.namespace.as_str());
        st.record_name(t, s, path, name, namespace.as_str(), NameKind::Class);
    }
    walk_field(t, s, path, f, st, n, "parameters");
}

/// Reads a binary expression.
fn walk_binary(t: &Syntax, s: &Symbols, path: &str, f: &UseFrame, st: &mut Walker, n: usize)
    requires
        t@.wf(),
        s.wf(),
        old(st).answers.wf(),
        n < t@.nodes.len(),
    ensures
        final(st).answers.wf(),
        final(st)@ == use_binary(t@, s@, path@, f@, old(st)@, n),
    decreases t@.nodes.len() - n, 30int,
{
    match instanceof_operand(t, n) {
        Some(right) => {
            let namespace = copy(st.namespace.as_str());
            st.record_name(t, s, path, right, namespace.as_str(), NameKind::Class);
            walk_field(t, s, path, f, st, n, "left");
        },
        None => {
            walk_all(t, s, path, f, st, n);
        },
    }
}

/// Reads one node.
fn walk_uses(t: &Syntax, s: &Symbols, path: &str, f: &UseFrame, st: &mut Walker, n: usize)
    requires
        t@.wf(),
        s.wf(),
        old(st).answers.wf(),
        n < t@.nodes.len(),
    ensures
        final(st).answers.wf(),
        final(st)@ == use_at(t@, s@, path@, f@, old(st)@, n),
    decreases t@.nodes.len() - n, 50int,
{
    if t.is_among(n, &MARKUP_KINDS) || t.is(n, "variable_name") || t.is(n, "namespace_use_declaration") {
    } else if t.is(n, "namespace_definition") {
        walk_namespace(t, s, path, st, n);
    } else if t.is(n, "class_declaration") || t.is(n, "interface_declaration") || t.is(n, "trait_declaration") || t.is(
        n,
        "enum_declaration",
    ) {
        walk_class(t, s, path, st, n);
    } else if t.is(n, "function_definition") {
        walk_callable(t, s, path, f, st, n, false);
    } else if t.is(n, "method_declaration") || t.is(n, "anonymous_function") || t.is(n, "arrow_function") || t.is(
        n,
        "property_hook",
    ) {
        walk_callable(t, s, path, f, st, n, true);
    } else if t.is(n, "property_declaration") || t.is(n, "const_declaration") || t.is(n, "enum_case") {
        walk_member_declaration(t, s, path, f, st, n);
    } else if t.is(n, "use_declaration") {
        record_traits(t, s, path, st, n);
    } else if t.is(n, "function_call_expression") {
        walk_call(t, s, path, f, st, n);
    } else if t.is(n, "object_creation_expression") {
        walk_creation(t, s, path, f, st, n);
    } else if t.is(n, "scoped_call_expression") {
        walk_scoped(t, s, path, f, st, n, Slot::Method);
        walk_field(t, s, path, f, st, n, "arguments");
    } else if t.is(n, "member_call_expression") || t.is(n, "nullsafe_member_call_expression") {
        walk_member(t, s, path, f, st, n, Slot::Method);
        walk_field(t, s, path, f, st, n, "arguments");
    } else if t.is(n, "member_access_expression") || t.is(n, "nullsafe_member_access_expression") {
        walk_member(t, s, path, f, st, n, Slot::Property);
    } else if t.is(n, "scoped_property_access_expression") {
        walk_scoped(t, s, path, f, st, n, Slot::Property);
    } else if t.is(n, "class_constant_access_expression") {
        walk_class_constant(t, s, path, f, st, n);
    } else if t.is(n, "attribute") {
        walk_attribute(t, s, path, f, st, n);
    } else if t.is(n, "binary_expression") {
        walk_binary(t, s, path, f, st, n);
    } else if t.is(n, "catch_clause") {
        walk_catch(t, s, path, f, st, n);
    } else if t.is(n, "assignment_expression") || t.is(n, "reference_assignment_expression") {
        bind_assignment(t, s, path, f, st, n);
        walk_all(t, s, path, f, st, n);
    } else if t.is(n, "argument") {
        walk_argument(t, s, path, f, st, n);
    } else if t.is_among(n, &NAME_KINDS) {
        let namespace = copy(st.namespace.as_str());
        st.record_name(t, s, path, n, namespace.as_str(), NameKind::Value);
    } else {
        walk_all(t, s, path, f, st, n);
    }
}

/// Reads what the names in a file refer to.
pub fn answer_file(t: &Syntax, s: &Symbols, path: &str, st: &mut Walker, root: usize)
    requires
        t@.wf(),
        s.wf(),
        old(st).answers.wf(),
        root < t@.nodes.len(),
    ensures
        final(st).answers.wf(),
        final(st)@.answers == answers_after(t@, s@, path@, old(st)@.answers, root),
{
    let nothing = String::new();
    assert(nothing@ =~= Seq::<char>::empty());
    st.namespace = nothing;
    st.vars = Vec::new();
    assert(st@.vars =~= Seq::<(Seq<char>, ClassRefView)>::empty());
    let f = outside_classes();
    walk_all(t, s, path, &f, st, root);
}

/// The newest answer for a place in a file.
#[verifier::loop_isolation(false)]
pub fn find_answer<'a>(answers: &'a Log<Placed>, path: &str, line: u32, col: u32) -> (r: Option<&'a Answer>)
    requires
        answers.wf(),
    ensures
        match r {
            Some(a) => answer_at(answers@, path@, line, col) == Some(a@),
            None => answer_at(answers@, path@, line, col) is None,
        },
{
    let ghost list = values_of(answers@, path@);
    let count: usize = answers.group_len(path);
    let mut k: usize = count;
    while k > 0
        invariant
            k <= count,
            count == list.len(),
            placed_at(list, line, col, list.len() as int) == placed_at(list, line, col, k as int),
        decreases k,
    {
        k -= 1;
        let p = answers.group_at(path, k);
        if p.line == line && p.col == col {
            return Some(&p.answer);
        }
    }
    None
}

}
