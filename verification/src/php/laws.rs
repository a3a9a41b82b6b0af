//! What the resolution of PHP names promises.

use vstd::prelude::*;

use crate::php::declarations::keyed_row;
use crate::php::log::{first_row, first_under, last_row, last_under, values_of, RowView};
use crate::php::names::{variable_name, NAME_KINDS};
use crate::php::symbols::{
    candidates_of, class_of, in_class, inherited, member_answer_of, name_answer_of, named, own_members_win, site_from,
    AnswerView, ClassRefView, NameKind, SiteView, Slot, SymbolsView,
};
use crate::php::uses::{
    answer_at, answered, answered_member, bound_by_assignment, inferred, placed_at, use_at, use_member, var_of,
    PlacedView, UseFrameView, UseState,
};
use crate::strings::{cut, strip_front};
use crate::text::{ascii_lowercase, lowercase};
use crate::tree::{group_tree, TreeView};

verus! {

broadcast use group_tree;

// ---------------------------------------------------------------------------
// Logs
// ---------------------------------------------------------------------------

/// What is first under a group and a name is the value of a row under both before
/// which there is none; and nothing is under them only where no row is.
pub proof fn first_rows_are_first<B>(log: Seq<RowView<B>>, group: Seq<char>, name: Seq<char>, n: int)
    requires
        0 <= n <= log.len(),
    ensures
        match first_row(log, group, name, n) {
            Some(v) => exists|k: int|
                #![trigger log[k]]
                0 <= k < n && log[k].group == group && log[k].name == name && log[k].value == v && forall|j: int|
                    0 <= j < k ==> (#[trigger] log[j]).group != group || log[j].name != name,
            None => forall|k: int| 0 <= k < n ==> (#[trigger] log[k]).group != group || log[k].name != name,
        },
    decreases n,
{
    if n > 0 {
        first_rows_are_first(log, group, name, n - 1);
    }
}

/// What is last under a group and a name is the value of a row under both behind
/// which there is none; and nothing is under them only where no row is.
pub proof fn last_rows_are_last<B>(log: Seq<RowView<B>>, group: Seq<char>, name: Seq<char>, n: int)
    requires
        0 <= n <= log.len(),
    ensures
        match last_row(log, group, name, n) {
            Some(v) => exists|k: int|
                #![trigger log[k]]
                0 <= k < n && log[k].group == group && log[k].name == name && log[k].value == v && forall|j: int|
                    k < j < n ==> (#[trigger] log[j]).group != group || log[j].name != name,
            None => forall|k: int| 0 <= k < n ==> (#[trigger] log[k]).group != group || log[k].name != name,
        },
    decreases n,
{
    if n > 0 {
        last_rows_are_last(log, group, name, n - 1);
    }
}

// ---------------------------------------------------------------------------
// The class of an expression
// ---------------------------------------------------------------------------

/// The kinds of expression whose class can be told differ.
proof fn expressions_differ()
    ensures
        "variable_name"@ != "relative_scope"@,
        "object_creation_expression"@ != "variable_name"@,
        "object_creation_expression"@ != "relative_scope"@,
        "member_access_expression"@ != "variable_name"@,
        "member_access_expression"@ != "relative_scope"@,
        "member_access_expression"@ != "object_creation_expression"@,
        "nullsafe_member_access_expression"@ != "variable_name"@,
        "nullsafe_member_access_expression"@ != "relative_scope"@,
        "nullsafe_member_access_expression"@ != "object_creation_expression"@,
        "scoped_property_access_expression"@ != "variable_name"@,
        "scoped_property_access_expression"@ != "relative_scope"@,
        "scoped_property_access_expression"@ != "object_creation_expression"@,
        "scoped_property_access_expression"@ != "member_access_expression"@,
        "scoped_property_access_expression"@ != "nullsafe_member_access_expression"@,
        "parenthesized_expression"@ != "variable_name"@,
        "parenthesized_expression"@ != "relative_scope"@,
        "parenthesized_expression"@ != "object_creation_expression"@,
        "parenthesized_expression"@ != "member_access_expression"@,
        "parenthesized_expression"@ != "nullsafe_member_access_expression"@,
        "parenthesized_expression"@ != "scoped_property_access_expression"@,
        forall|i: int|
            #![trigger NAME_KINDS@[i]]
            0 <= i < 3 ==> NAME_KINDS@[i]@ != "variable_name"@ && NAME_KINDS@[i]@ != "relative_scope"@ && NAME_KINDS@[i]@
                != "object_creation_expression"@ && NAME_KINDS@[i]@ != "member_access_expression"@ && NAME_KINDS@[i]@
                != "nullsafe_member_access_expression"@ && NAME_KINDS@[i]@ != "scoped_property_access_expression"@
                && NAME_KINDS@[i]@ != "parenthesized_expression"@,
{
    reveal_strlit("variable_name");
    reveal_strlit("relative_scope");
    reveal_strlit("object_creation_expression");
    reveal_strlit("member_access_expression");
    reveal_strlit("nullsafe_member_access_expression");
    reveal_strlit("scoped_property_access_expression");
    reveal_strlit("parenthesized_expression");
    reveal_strlit("name");
    reveal_strlit("qualified_name");
    reveal_strlit("relative_name");
    assert("variable_name"@.len() == 13);
    assert("relative_scope"@.len() == 14);
    assert("object_creation_expression"@.len() == 26);
    assert("member_access_expression"@.len() == 24);
    assert("nullsafe_member_access_expression"@.len() == 33);
    assert("scoped_property_access_expression"@.len() == 33);
    assert("parenthesized_expression"@.len() == 24);
    assert("name"@.len() == 4);
    assert("qualified_name"@.len() == 14);
    assert("relative_name"@.len() == 13);
    assert("scoped_property_access_expression"@[0] != "nullsafe_member_access_expression"@[0]);
    assert("parenthesized_expression"@[0] != "member_access_expression"@[0]);
    assert("qualified_name"@[0] != "relative_scope"@[0]);
    assert("relative_name"@[0] != "variable_name"@[0]);
    assert(NAME_KINDS@[0]@ == "name"@ && NAME_KINDS@[1]@ == "qualified_name"@ && NAME_KINDS@[2]@ == "relative_name"@);
}

/// `new C()` gives the class that `C` means where it stands, whatever class the code
/// is in and whatever the variables hold.
pub proof fn creations_give_their_class(
    t: TreeView,
    s: SymbolsView,
    path: Seq<char>,
    f: UseFrameView,
    g: UseFrameView,
    namespace: Seq<char>,
    vars: Seq<(Seq<char>, ClassRefView)>,
    others: Seq<(Seq<char>, ClassRefView)>,
    n: usize,
    class: usize,
)
    requires
        t.kind(n) == "object_creation_expression"@,
        t.kid_among(n, NAME_KINDS@) == Some(class),
    ensures
        inferred(t, s, path, f, namespace, vars, n) == Some(class_of(s, t.text(class), path, namespace)),
        inferred(t, s, path, f, namespace, vars, n) == inferred(t, s, path, g, namespace, others, n),
{
    expressions_differ();
}

/// `$this` is the class around the code, and any other variable what it was given
/// last.
pub proof fn variables_give_what_they_hold(
    t: TreeView,
    s: SymbolsView,
    path: Seq<char>,
    f: UseFrameView,
    namespace: Seq<char>,
    vars: Seq<(Seq<char>, ClassRefView)>,
    n: usize,
    ident: usize,
    class: ClassRefView,
)
    requires
        t.kind(n) == "variable_name"@,
        t.kid_of(n, "name"@) == Some(ident),
    ensures
        t.text(ident) == "this"@ ==> inferred(t, s, path, f, namespace, vars, n) == f.class,
        t.text(ident) != "this"@ ==> inferred(t, s, path, f, namespace, vars.push((t.text(ident), class)), n) == Some(class),
{
    reveal_strlit("variable_name");
    reveal_strlit("by_ref");
    assert("variable_name"@.len() != "by_ref"@.len());
}

/// Giving a variable a class leaves what the others hold.
pub proof fn other_variables_keep_what_they_hold(
    vars: Seq<(Seq<char>, ClassRefView)>,
    name: Seq<char>,
    class: ClassRefView,
    other: Seq<char>,
    n: int,
)
    requires
        0 <= n <= vars.len(),
        other != name,
    ensures
        var_of(vars.push((name, class)), other, n) == var_of(vars, other, n),
        var_of(vars.push((name, class)), other, vars.len() as int + 1) == var_of(vars.push((name, class)), other, vars.len() as int),
        var_of(vars.push((name, class)), name, vars.len() as int + 1) == Some(class),
    decreases n,
{
    if n > 0 {
        other_variables_keep_what_they_hold(vars, name, class, other, n - 1);
        assert(vars.push((name, class))[n - 1] == vars[n - 1]);
    }
}

/// `parent` is what the class around the code extends; `self` and `static` are that
/// class.
pub proof fn scopes_give_the_class_around(
    t: TreeView,
    s: SymbolsView,
    path: Seq<char>,
    f: UseFrameView,
    namespace: Seq<char>,
    vars: Seq<(Seq<char>, ClassRefView)>,
    n: usize,
)
    requires
        t.kind(n) == "relative_scope"@,
    ensures
        lowercase(t.text(n)) == "parent"@ ==> inferred(t, s, path, f, namespace, vars, n) == f.parent,
        lowercase(t.text(n)) == "self"@ || lowercase(t.text(n)) == "static"@ ==> inferred(t, s, path, f, namespace, vars, n)
            == f.class,
{
    expressions_differ();
    reveal_strlit("parent");
    reveal_strlit("self");
    reveal_strlit("static");
    assert("parent"@[0] != "self"@[0]);
    assert("parent"@[0] != "static"@[0]);
}

/// A name gives the class that it means.
pub proof fn names_give_their_class(
    t: TreeView,
    s: SymbolsView,
    path: Seq<char>,
    f: UseFrameView,
    namespace: Seq<char>,
    vars: Seq<(Seq<char>, ClassRefView)>,
    n: usize,
)
    requires
        t.kind_among(n, NAME_KINDS@),
    ensures
        inferred(t, s, path, f, namespace, vars, n) == Some(class_of(s, t.text(n), path, namespace)),
{
    expressions_differ();
}

/// A property of an object of a declared class gives the class that the property was
/// declared with last, where the class itself declares it.
pub proof fn properties_give_their_type(
    t: TreeView,
    s: SymbolsView,
    path: Seq<char>,
    f: UseFrameView,
    namespace: Seq<char>,
    vars: Seq<(Seq<char>, ClassRefView)>,
    n: usize,
    object: usize,
    name: usize,
    key: Seq<char>,
    held: ClassRefView,
)
    requires
        t.kind(n) == "member_access_expression"@ || t.kind(n) == "nullsafe_member_access_expression"@,
        t.field(n, "object"@) == Some(object),
        t.field(n, "name"@) == Some(name),
        t.kind(name) == "name"@,
        inferred(t, s, path, f, namespace, vars, object) == Some(ClassRefView::Declared(key)),
        last_under(s.property_types, key, t.text(name)) == Some(held),
    ensures
        inferred(t, s, path, f, namespace, vars, n) == Some(held),
{
    expressions_differ();
    own_members_win(s.parents, s.property_types, key, t.text(name), true);
}

/// Brackets around an expression give what the expression gives.
pub proof fn brackets_give_what_is_inside(
    t: TreeView,
    s: SymbolsView,
    path: Seq<char>,
    f: UseFrameView,
    namespace: Seq<char>,
    vars: Seq<(Seq<char>, ClassRefView)>,
    n: usize,
)
    requires
        t.kind(n) == "parenthesized_expression"@,
        t.named_kids(n).len() > 0,
    ensures
        inferred(t, s, path, f, namespace, vars, n) == inferred(t, s, path, f, namespace, vars, t.named_kids(n)[0]),
{
    expressions_differ();
}

/// After an assignment the variable holds the class of what was assigned, and every
/// other variable holds what it held.
pub proof fn assignments_bind_their_variable(
    t: TreeView,
    s: SymbolsView,
    path: Seq<char>,
    f: UseFrameView,
    st: UseState,
    n: usize,
    left: usize,
    ident: usize,
    right: usize,
    class: ClassRefView,
    other: Seq<char>,
)
    requires
        t.field(n, "left"@) == Some(left),
        t.kind(left) == "variable_name"@,
        t.kid_of(left, "name"@) == Some(ident),
        t.field(n, "right"@) == Some(right),
        inferred(t, s, path, f, st.namespace, st.vars, right) == Some(class),
    ensures
        ({
            let after = bound_by_assignment(t, s, path, f, st, n);
            &&& var_of(after.vars, t.text(ident), after.vars.len() as int) == Some(class)
            &&& other != t.text(ident) ==> var_of(after.vars, other, after.vars.len() as int) == var_of(
                st.vars,
                other,
                st.vars.len() as int,
            )
            &&& after.answers == st.answers
            &&& after.namespace == st.namespace
        }),
{
    reveal_strlit("variable_name");
    reveal_strlit("by_ref");
    assert("variable_name"@.len() != "by_ref"@.len());
    if other != t.text(ident) {
        other_variables_keep_what_they_hold(st.vars, t.text(ident), class, other, st.vars.len() as int);
    }
}

// ---------------------------------------------------------------------------
// Members
// ---------------------------------------------------------------------------

/// A member that a declared class has itself is answered by that class: methods by
/// their name in any letter case, properties and constants as they are written.
pub proof fn own_members_answer(s: SymbolsView, key: Seq<char>, member: Seq<char>, site: SiteView)
    ensures
        first_under(s.methods, key, lowercase(member)) == Some(site) ==> member_answer_of(
            s,
            ClassRefView::Declared(key),
            member,
            Slot::Method,
        ) == AnswerView::Internal(site),
        first_under(s.properties, key, member) == Some(site) ==> member_answer_of(
            s,
            ClassRefView::Declared(key),
            member,
            Slot::Property,
        ) == AnswerView::Internal(site),
        first_under(s.class_constants, key, member) == Some(site) ==> member_answer_of(
            s,
            ClassRefView::Declared(key),
            member,
            Slot::Constant,
        ) == AnswerView::Internal(site),
{
    if first_under(s.methods, key, lowercase(member)) is Some {
        own_members_win(s.parents, s.methods, key, lowercase(member), false);
    }
    if first_under(s.properties, key, member) is Some {
        own_members_win(s.parents, s.properties, key, member, false);
    }
    if first_under(s.class_constants, key, member) is Some {
        own_members_win(s.parents, s.class_constants, key, member, false);
    }
}

/// A member of a class that is not declared comes from outside, under the name of the
/// class and its own.
pub proof fn foreign_members_stay_outside(s: SymbolsView, class: Seq<char>, member: Seq<char>, slot: Slot)
    ensures
        member_answer_of(s, ClassRefView::Foreign(class), member, slot) matches AnswerView::External(name, origin) && name
            == class + "\\"@ + member,
{
}

/// A method called on a variable that was given `new C()` last is the one that `C`
/// declares, whatever class the call stands in and whatever else bears that name.
pub proof fn calls_on_new_objects_reach_their_class(
    t: TreeView,
    s: SymbolsView,
    path: Seq<char>,
    f: UseFrameView,
    g: UseFrameView,
    st: UseState,
    assignment: usize,
    left: usize,
    left_name: usize,
    creation: usize,
    class: usize,
    key: Seq<char>,
    call: usize,
    object: usize,
    object_name: usize,
    method: usize,
    site: SiteView,
)
    requires
        t.field(assignment, "left"@) == Some(left),
        t.kind(left) == "variable_name"@,
        t.kid_of(left, "name"@) == Some(left_name),
        t.field(assignment, "right"@) == Some(creation),
        t.kind(creation) == "object_creation_expression"@,
        t.kid_among(creation, NAME_KINDS@) == Some(class),
        class_of(s, t.text(class), path, st.namespace) == ClassRefView::Declared(key),
        t.field(call, "object"@) == Some(object),
        t.kind(object) == "variable_name"@,
        t.kid_of(object, "name"@) == Some(object_name),
        t.text(object_name) == t.text(left_name),
        t.text(object_name) != "this"@,
        t.field(call, "name"@) == Some(method),
        t.kind(method) == "name"@,
        first_under(s.methods, key, lowercase(t.text(method))) == Some(site),
    ensures
        ({
            let bound = bound_by_assignment(t, s, path, f, st, assignment);
            let after = use_member(t, s, path, g, bound, call, Slot::Method);
            after.answers == st.answers.push(
                keyed_row(
                    path,
                    PlacedView {
                        line: t.span(method).start_line,
                        col: t.span(method).start_col,
                        answer: AnswerView::Internal(site),
                    },
                ),
            )
        }),
{
    expressions_differ();
    let c = ClassRefView::Declared(key);
    creations_give_their_class(t, s, path, f, g, st.namespace, st.vars, st.vars, creation, class);
    assignments_bind_their_variable(t, s, path, f, st, assignment, left, left_name, creation, c, Seq::empty());
    let bound = bound_by_assignment(t, s, path, f, st, assignment);
    reveal_strlit("variable_name");
    reveal_strlit("by_ref");
    assert("variable_name"@.len() != "by_ref"@.len());
    assert(inferred(t, s, path, g, bound.namespace, bound.vars, object) == Some(c));
    own_members_answer(s, key, t.text(method), site);
    let answered_here = answered_member(t, s, path, bound, Some(method), Some(c), Slot::Method);
    variables_stay_unread(t, s, path, g, answered_here, object);
}

/// A variable by itself refers to nothing.
proof fn variables_stay_unread(t: TreeView, s: SymbolsView, path: Seq<char>, f: UseFrameView, st: UseState, n: usize)
    requires
        t.kind(n) == "variable_name"@,
    ensures
        use_at(t, s, path, f, st, n) == st,
{
}

// ---------------------------------------------------------------------------
// What a written class means
// ---------------------------------------------------------------------------

/// Whether a class is declared under a full name, in any letter case.
pub open spec fn declares_class(s: SymbolsView, fqn: Seq<char>) -> bool {
    exists|k: int|
        0 <= k < s.classes.len() && (#[trigger] s.classes[k]).group == lowercase(fqn) && s.classes[k].name == lowercase(fqn)
}

/// Whether a file imports something under a local name.
pub open spec fn imports_class(s: SymbolsView, local: Seq<char>, path: Seq<char>) -> bool {
    exists|k: int|
        0 <= k < s.class_uses.len() && (#[trigger] s.class_uses[k]).group == lowercase(local) && s.class_uses[k].name
            == path
}

/// Whether a name is one word, and not the keyword for the namespace around it.
pub open spec fn is_word(name: Seq<char>) -> bool {
    cut(name, "\\"@) is None && strip_front(name, "\\"@) is None && ascii_lowercase(name) != "namespace"@
}

proof fn declared_classes_are_named(s: SymbolsView, fqn: Seq<char>)
    ensures
        declares_class(s, fqn) <==> named(s.classes, lowercase(fqn)) is Some,
{
    first_rows_are_first(s.classes, lowercase(fqn), lowercase(fqn), s.classes.len() as int);
}

proof fn imports_are_found(s: SymbolsView, local: Seq<char>, path: Seq<char>)
    ensures
        imports_class(s, local, path) <==> last_under(s.class_uses, lowercase(local), path) is Some,
{
    last_rows_are_last(s.class_uses, lowercase(local), path, s.class_uses.len() as int);
}

/// A name that begins with a separator means the class of that full name.
pub proof fn absolute_names_mean_themselves(
    s: SymbolsView,
    name: Seq<char>,
    path: Seq<char>,
    namespace: Seq<char>,
    absolute: Seq<char>,
)
    requires
        strip_front(name, "\\"@) == Some(absolute),
        declares_class(s, absolute),
    ensures
        class_of(s, name, path, namespace) == ClassRefView::Declared(lowercase(absolute)),
{
    declared_classes_are_named(s, absolute);
    assert(seq![absolute][0] == absolute);
}

/// A word that its file imports means what the last import of it says, whatever
/// namespace it stands in.
pub proof fn imported_names_mean_what_is_imported(
    s: SymbolsView,
    name: Seq<char>,
    path: Seq<char>,
    namespace: Seq<char>,
    target: Seq<char>,
)
    requires
        is_word(name),
        last_under(s.class_uses, lowercase(name), path) == Some(target),
        declares_class(s, target),
    ensures
        class_of(s, name, path, namespace) == ClassRefView::Declared(lowercase(target)),
{
    declared_classes_are_named(s, target);
    assert(seq![target][0] == target);
}

/// A word that its file does not import means the class of its namespace, and only
/// where there is none the global one.
pub proof fn plain_names_mean_their_namespace_first(s: SymbolsView, name: Seq<char>, path: Seq<char>, namespace: Seq<char>)
    requires
        is_word(name),
        !imports_class(s, name, path),
        namespace.len() > 0,
    ensures
        declares_class(s, namespace + "\\"@ + name) ==> class_of(s, name, path, namespace) == ClassRefView::Declared(
            lowercase(namespace + "\\"@ + name),
        ),
        !declares_class(s, namespace + "\\"@ + name) && declares_class(s, name) ==> class_of(s, name, path, namespace)
            == ClassRefView::Declared(lowercase(name)),
{
    imports_are_found(s, name, path);
    let full = namespace + "\\"@ + name;
    declared_classes_are_named(s, full);
    declared_classes_are_named(s, name);
    let names = seq![full, name];
    assert(names[0] == full && names[1] == name);
    reveal_with_fuel(crate::php::symbols::declared_from, 3);
}

/// Outside of namespaces a word that its file does not import means the global class.
pub proof fn global_names_mean_the_global_class(s: SymbolsView, name: Seq<char>, path: Seq<char>)
    requires
        is_word(name),
        !imports_class(s, name, path),
        declares_class(s, name),
    ensures
        class_of(s, name, path, Seq::empty()) == ClassRefView::Declared(lowercase(name)),
{
    imports_are_found(s, name, path);
    declared_classes_are_named(s, name);
    assert(seq![name][0] == name);
}

/// A name whose first part its file imports means the rest below what is imported.
pub proof fn names_below_an_import_mean_what_lies_below_it(
    s: SymbolsView,
    head: Seq<char>,
    rest: Seq<char>,
    name: Seq<char>,
    path: Seq<char>,
    namespace: Seq<char>,
    target: Seq<char>,
)
    requires
        strip_front(name, "\\"@) is None,
        cut(name, "\\"@) == Some((head, rest)),
        ascii_lowercase(head) != "namespace"@,
        last_under(s.class_uses, lowercase(head), path) == Some(target),
        declares_class(s, target + "\\"@ + rest),
    ensures
        class_of(s, name, path, namespace) == ClassRefView::Declared(lowercase(target + "\\"@ + rest)),
{
    declared_classes_are_named(s, target + "\\"@ + rest);
    assert(seq![target + "\\"@ + rest][0] == target + "\\"@ + rest);
}

/// What a file imports matters to no other file.
pub proof fn imports_stay_in_their_file(
    s: SymbolsView,
    row: RowView<Seq<char>>,
    name: Seq<char>,
    path: Seq<char>,
    namespace: Seq<char>,
)
    requires
        row.name != path,
    ensures
        class_of(SymbolsView { class_uses: s.class_uses.push(row), ..s }, name, path, namespace) == class_of(
            s,
            name,
            path,
            namespace,
        ),
{
    let more = SymbolsView { class_uses: s.class_uses.push(row), ..s };
    assert forall|head: Seq<char>| #[trigger]
        last_under(more.class_uses, head, path) == last_under(s.class_uses, head, path) by {
        last_row_of_prefix(s.class_uses, row, head, path, s.class_uses.len() as int);
    }
    assert(candidates_of(more, name, path, namespace, NameKind::Class) == candidates_of(
        s,
        name,
        path,
        namespace,
        NameKind::Class,
    ));
    let names = candidates_of(s, name, path, namespace, NameKind::Class).names;
    declared_ignores_imports(s, more, names, 0);
    psr4_ignores_imports(s, more, names, 0);
}

proof fn last_row_of_prefix(log: Seq<RowView<Seq<char>>>, row: RowView<Seq<char>>, group: Seq<char>, name: Seq<char>, n: int)
    requires
        0 <= n <= log.len(),
    ensures
        last_row(log.push(row), group, name, n) == last_row(log, group, name, n),
    decreases n,
{
    if n > 0 {
        last_row_of_prefix(log, row, group, name, n - 1);
        assert(log.push(row)[n - 1] == log[n - 1]);
    }
}

proof fn declared_ignores_imports(s: SymbolsView, more: SymbolsView, names: Seq<Seq<char>>, i: int)
    requires
        s.classes == more.classes,
        0 <= i,
    ensures
        crate::php::symbols::declared_from(s, names, i) == crate::php::symbols::declared_from(more, names, i),
    decreases names.len() - i,
{
    if i < names.len() {
        declared_ignores_imports(s, more, names, i + 1);
    }
}

proof fn mapped_ignores_imports(s: SymbolsView, more: SymbolsView, fqn: Seq<char>, i: int)
    requires
        s.short_names == more.short_names,
        s.psr4 == more.psr4,
        0 <= i,
    ensures
        crate::php::symbols::mapped_from(s, fqn, i) == crate::php::symbols::mapped_from(more, fqn, i),
    decreases s.psr4.len() - i,
{
    if i < s.psr4.len() {
        mapped_ignores_imports(s, more, fqn, i + 1);
    }
}

proof fn psr4_ignores_imports(s: SymbolsView, more: SymbolsView, names: Seq<Seq<char>>, i: int)
    requires
        s.short_names == more.short_names,
        s.psr4 == more.psr4,
        0 <= i,
    ensures
        crate::php::symbols::psr4_from(s, names, i) == crate::php::symbols::psr4_from(more, names, i),
    decreases names.len() - i,
{
    if i < names.len() {
        mapped_ignores_imports(s, more, crate::strings::without_leading(names[i], '\\'), 0);
        psr4_ignores_imports(s, more, names, i + 1);
    }
}

// ---------------------------------------------------------------------------
// What a written name refers to
// ---------------------------------------------------------------------------

/// A called word that its file does not import is the function of its namespace, and
/// only where that declares neither a function nor a class of the name the global one.
pub proof fn called_names_mean_functions(
    s: SymbolsView,
    name: Seq<char>,
    path: Seq<char>,
    namespace: Seq<char>,
    site: SiteView,
)
    requires
        is_word(name),
        !imports_class(s, name, path),
        last_under(s.function_uses, lowercase(name), path) is None,
        namespace.len() > 0,
    ensures
        named(s.functions, lowercase(namespace + "\\"@ + name)) == Some(site) ==> name_answer_of(
            s,
            name,
            path,
            namespace,
            NameKind::Function,
        ) == AnswerView::Internal(site),
        named(s.functions, lowercase(namespace + "\\"@ + name)) is None && !declares_class(s, namespace + "\\"@ + name)
            && named(s.functions, lowercase(name)) == Some(site) ==> name_answer_of(
            s,
            name,
            path,
            namespace,
            NameKind::Function,
        ) == AnswerView::Internal(site),
        named(s.functions, lowercase(namespace + "\\"@ + name)) is None && !declares_class(s, namespace + "\\"@ + name)
            && named(s.functions, lowercase(name)) is None && !declares_class(s, name) ==> (name_answer_of(
            s,
            name,
            path,
            namespace,
            NameKind::Function,
        ) matches AnswerView::External(reported, origin) && reported == name),
{
    imports_are_found(s, name, path);
    let full = namespace + "\\"@ + name;
    declared_classes_are_named(s, full);
    declared_classes_are_named(s, name);
    let names = seq![full, name];
    assert(names[0] == full && names[1] == name);
    assert(names.last() == name);
    reveal_with_fuel(site_from, 3);
}

/// A class that its file imports and the project declares is reached where it is
/// declared; one that nothing declares is outside, under its full name.
pub proof fn imported_classes_are_reached(
    s: SymbolsView,
    name: Seq<char>,
    path: Seq<char>,
    namespace: Seq<char>,
    target: Seq<char>,
)
    requires
        is_word(name),
        last_under(s.class_uses, lowercase(name), path) == Some(target),
    ensures
        named(s.classes, lowercase(target)) matches Some(entry) ==> name_answer_of(s, name, path, namespace, NameKind::Class)
            == AnswerView::Internal(entry.site),
        !declares_class(s, target) && s.psr4.len() == 0 ==> (name_answer_of(s, name, path, namespace, NameKind::Class) matches
            AnswerView::External(reported, origin) && reported == target),
{
    declared_classes_are_named(s, target);
    let names = seq![target];
    assert(names[0] == target);
    reveal_with_fuel(site_from, 2);
    reveal_with_fuel(crate::php::symbols::declared_from, 2);
    reveal_with_fuel(crate::php::symbols::psr4_from, 2);
}

// ---------------------------------------------------------------------------
// Inheritance
// ---------------------------------------------------------------------------

/// Whether a class is another one, or inherits from it in some steps.
pub open spec fn inherits(parents: Seq<RowView<Seq<char>>>, class: Seq<char>, above: Seq<char>, steps: nat) -> bool
    decreases steps,
{
    if steps == 0 {
        class == above
    } else {
        exists|p: Seq<char>| #[trigger]
            values_of(parents, class).contains(p) && inherits(parents, p, above, (steps - 1) as nat)
    }
}

/// Whether a list of classes holds every parent of its classes, here or among others.
spec fn closed_above(parents: Seq<RowView<Seq<char>>>, seen: Seq<Seq<char>>, others: Seq<Seq<char>>) -> bool {
    forall|x: Seq<char>, p: Seq<char>|
        seen.contains(x) && #[trigger] values_of(parents, x).contains(p) ==> seen.contains(p) || others.contains(p)
}

/// Whether no class of a list has a value of its own.
spec fn all_lack<B>(table: Seq<RowView<B>>, seen: Seq<Seq<char>>, key: Seq<char>, newest: bool) -> bool {
    forall|x: Seq<char>| #[trigger]
        seen.contains(x) ==> crate::php::symbols::value_under(table, x, key, newest) is None
}

/// A search that finds nothing has seen every class above, and none had it.
proof fn fruitless_search_sees_all<B>(
    parents: Seq<RowView<Seq<char>>>,
    table: Seq<RowView<B>>,
    key: Seq<char>,
    newest: bool,
    stack: Seq<Seq<char>>,
    seen: Seq<Seq<char>>,
) -> (all: Seq<Seq<char>>)
    requires
        inherited(parents, table, key, newest, stack, seen) is None,
        closed_above(parents, seen, stack),
        all_lack(table, seen, key, newest),
    ensures
        closed_above(parents, all, Seq::empty()),
        all_lack(table, all, key, newest),
        forall|x: Seq<char>| seen.contains(x) || stack.contains(x) ==> #[trigger] all.contains(x),
    decreases crate::php::symbols::unseen(parents, seen, parents.len() as int), stack.len(),
{
    if stack.len() == 0 {
        seen
    } else {
        let current = stack.last();
        let rest = stack.drop_last();
        assert forall|x: Seq<char>| #[trigger] stack.contains(x) <==> rest.contains(x) || x == current by {
            if rest.contains(x) {
                let i = choose|i: int| 0 <= i < rest.len() && rest[i] == x;
                assert(stack[i] == x);
            }
            if x == current {
                assert(stack[stack.len() - 1] == x);
            }
            if stack.contains(x) {
                let i = choose|i: int| 0 <= i < stack.len() && stack[i] == x;
                if i < rest.len() {
                    assert(rest[i] == x);
                }
            }
        }
        if seen.contains(current) {
            fruitless_search_sees_all(parents, table, key, newest, rest, seen)
        } else {
            crate::php::symbols::seeing_takes_links(parents, seen, current, parents.len() as int);
            let above = values_of(parents, current);
            let more = seen.push(current);
            let next = rest + above;
            assert forall|x: Seq<char>| #[trigger] more.contains(x) <==> seen.contains(x) || x == current by {
                if seen.contains(x) {
                    let i = choose|i: int| 0 <= i < seen.len() && seen[i] == x;
                    assert(more[i] == x);
                }
                if x == current {
                    assert(more[seen.len() as int] == x);
                }
                if more.contains(x) {
                    let i = choose|i: int| 0 <= i < more.len() && more[i] == x;
                    if i < seen.len() {
                        assert(seen[i] == x);
                    }
                }
            }
            assert forall|x: Seq<char>| #[trigger] next.contains(x) <==> rest.contains(x) || above.contains(x) by {
                crate::selection::sum_contains(rest, above, x);
            }
            fruitless_search_sees_all(parents, table, key, newest, next, more)
        }
    }
}

/// What a closed list holds, it holds with everything above.
proof fn closed_lists_hold_what_is_above(
    parents: Seq<RowView<Seq<char>>>,
    all: Seq<Seq<char>>,
    class: Seq<char>,
    above: Seq<char>,
    steps: nat,
)
    requires
        closed_above(parents, all, Seq::empty()),
        all.contains(class),
        inherits(parents, class, above, steps),
    ensures
        all.contains(above),
    decreases steps,
{
    if steps > 0 {
        let p = choose|p: Seq<char>| #[trigger]
            values_of(parents, class).contains(p) && inherits(parents, p, above, (steps - 1) as nat);
        assert(all.contains(p));
        closed_lists_hold_what_is_above(parents, all, p, above, (steps - 1) as nat);
    }
}

/// Whatever a class inherits is found: where some class above it, however far, declares
/// a member, the search finds one.
pub proof fn inherited_members_are_found<B>(
    parents: Seq<RowView<Seq<char>>>,
    table: Seq<RowView<B>>,
    class: Seq<char>,
    above: Seq<char>,
    steps: nat,
    key: Seq<char>,
    newest: bool,
)
    requires
        inherits(parents, class, above, steps),
        crate::php::symbols::value_under(table, above, key, newest) is Some,
    ensures
        in_class(parents, table, class, key, newest) is Some,
{
    if in_class(parents, table, class, key, newest) is None {
        let none = Seq::<Seq<char>>::empty();
        let all = fruitless_search_sees_all(parents, table, key, newest, seq![class], none);
        assert(seq![class].contains(class)) by {
            assert(seq![class][0] == class);
        }
        assert(all.contains(class));
        closed_lists_hold_what_is_above(parents, all, class, above, steps);
        assert(all.contains(above));
    }
}

/// Whether one of some classes inherits from a class that has a value.
spec fn from_above<B>(
    parents: Seq<RowView<Seq<char>>>,
    table: Seq<RowView<B>>,
    key: Seq<char>,
    newest: bool,
    stack: Seq<Seq<char>>,
    v: B,
) -> bool {
    exists|c: Seq<char>, above: Seq<char>, steps: nat|
        stack.contains(c) && #[trigger] inherits(parents, c, above, steps) && crate::php::symbols::value_under(
            table,
            above,
            key,
            newest,
        ) == Some(v)
}

proof fn finds_come_from_above<B>(
    parents: Seq<RowView<Seq<char>>>,
    table: Seq<RowView<B>>,
    key: Seq<char>,
    newest: bool,
    stack: Seq<Seq<char>>,
    seen: Seq<Seq<char>>,
)
    requires
        inherited(parents, table, key, newest, stack, seen) is Some,
    ensures
        from_above(parents, table, key, newest, stack, inherited(parents, table, key, newest, stack, seen)->0),
    decreases crate::php::symbols::unseen(parents, seen, parents.len() as int), stack.len(),
{
    let v = inherited(parents, table, key, newest, stack, seen)->0;
    if stack.len() > 0 {
        let current = stack.last();
        let rest = stack.drop_last();
        assert(stack.contains(current)) by {
            assert(stack[stack.len() - 1] == current);
        }
        if seen.contains(current) {
            finds_come_from_above(parents, table, key, newest, rest, seen);
            let (c, above, steps) = choose|c: Seq<char>, above: Seq<char>, steps: nat|
                rest.contains(c) && #[trigger] inherits(parents, c, above, steps) && crate::php::symbols::value_under(
                    table,
                    above,
                    key,
                    newest,
                ) == Some(v);
            let i = choose|i: int| 0 <= i < rest.len() && rest[i] == c;
            assert(stack[i] == c);
        } else if crate::php::symbols::value_under(table, current, key, newest) is Some {
            assert(inherits(parents, current, current, 0));
        } else {
            crate::php::symbols::seeing_takes_links(parents, seen, current, parents.len() as int);
            let up = values_of(parents, current);
            finds_come_from_above(parents, table, key, newest, rest + up, seen.push(current));
            let (c, above, steps) = choose|c: Seq<char>, above: Seq<char>, steps: nat|
                (rest + up).contains(c) && #[trigger] inherits(parents, c, above, steps)
                    && crate::php::symbols::value_under(table, above, key, newest) == Some(v);
            crate::selection::sum_contains(rest, up, c);
            if rest.contains(c) {
                let i = choose|i: int| 0 <= i < rest.len() && rest[i] == c;
                assert(stack[i] == c);
            } else {
                assert(inherits(parents, current, above, steps + 1));
            }
        }
    }
}

/// Nothing is found that is not inherited: what the search finds, the class or one
/// above it declares.
pub proof fn found_members_are_inherited<B>(
    parents: Seq<RowView<Seq<char>>>,
    table: Seq<RowView<B>>,
    class: Seq<char>,
    key: Seq<char>,
    newest: bool,
)
    requires
        in_class(parents, table, class, key, newest) is Some,
    ensures
        exists|above: Seq<char>, steps: nat| #[trigger]
            inherits(parents, class, above, steps) && crate::php::symbols::value_under(table, above, key, newest)
                == in_class(parents, table, class, key, newest),
{
    finds_come_from_above(parents, table, key, newest, seq![class], Seq::empty());
    let v = in_class(parents, table, class, key, newest)->0;
    let (c, above, steps) = choose|c: Seq<char>, above: Seq<char>, steps: nat|
        seq![class].contains(c) && #[trigger] inherits(parents, c, above, steps) && crate::php::symbols::value_under(
            table,
            above,
            key,
            newest,
        ) == Some(v);
    assert(c == class);
}

// ---------------------------------------------------------------------------
// Answers
// ---------------------------------------------------------------------------

/// The newest answer for a place counts, and an answer for another place or another
/// file changes nothing.
pub proof fn newest_answers_count(
    answers: Seq<RowView<PlacedView>>,
    path: Seq<char>,
    p: PlacedView,
    file: Seq<char>,
    line: u32,
    col: u32,
)
    ensures
        answer_at(answers.push(keyed_row(path, p)), path, p.line, p.col) == Some(p.answer),
        file != path || line != p.line || col != p.col ==> answer_at(answers.push(keyed_row(path, p)), file, line, col)
            == answer_at(answers, file, line, col),
{
    let more = answers.push(keyed_row(path, p));
    group_of_prefix(answers, keyed_row(path, p), path, answers.len() as int);
    group_of_prefix(answers, keyed_row(path, p), file, answers.len() as int);
    assert(values_of(more, path) == values_of(answers, path).push(p));
    if file != path {
        assert(values_of(more, file) == values_of(answers, file));
    } else {
        placed_in_prefix(values_of(answers, file), p, line, col, values_of(answers, file).len() as int);
    }
}

proof fn group_of_prefix(log: Seq<RowView<PlacedView>>, row: RowView<PlacedView>, group: Seq<char>, n: int)
    requires
        0 <= n <= log.len(),
    ensures
        crate::php::log::group_values(log.push(row), group, n) == crate::php::log::group_values(log, group, n),
    decreases n,
{
    if n > 0 {
        group_of_prefix(log, row, group, n - 1);
        assert(log.push(row)[n - 1] == log[n - 1]);
    }
}

proof fn placed_in_prefix(list: Seq<PlacedView>, p: PlacedView, line: u32, col: u32, n: int)
    requires
        0 <= n <= list.len(),
    ensures
        placed_at(list.push(p), line, col, n) == placed_at(list, line, col, n),
    decreases n,
{
    if n > 0 {
        placed_in_prefix(list, p, line, col, n - 1);
        assert(list.push(p)[n - 1] == list[n - 1]);
    }
}

}
