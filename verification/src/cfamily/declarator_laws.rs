//! What the declarators of C and C++ promise.

use vstd::prelude::*;

use crate::cfamily::clang_resolver::{after_blanks, origin_of_symbol, standard};
use crate::cfamily::declarators::{
    bare, called, chain_end, declarations_of, declared_are_below, declared_in, leaf_name, marked, modifiers_of, namespace_parts,
    scope_behind, spelled_scope, terminal, written, Declared, FUNCTION_DECLARATORS, INDIRECT_DECLARATORS,
    TERMINAL_DECLARATORS, TRANSPARENT,
};
use crate::cfamily::reader::{
    param_type, param_types, params_of, qualifiers_of, signature_text, with_qualifiers, PARAMETER_KINDS,
};
use crate::cfamily::visitor::{record_scopes, scopes_at, scopes_in, ScopesView, RECORD_KINDS};
use crate::dependencies::sorted_names;
use crate::dependency_laws::sorted_names_are_the_names;
use crate::selection::sum_contains;
use crate::strings::{cut, joined, trimmed};
use crate::text::with_new;
use crate::tree::{group_tree, TreeView};

verus! {

broadcast use group_tree;

/// The declarations below a node are its children and, in the place of a child that only
/// groups others, the declarations below that child.
pub proof fn groups_stand_for_what_they_hold(t: TreeView, n: usize, k: int, x: usize)
    requires
        0 <= k <= t.kids(n).len(),
    ensures
        declared_in(t, n, k).contains(x) <==> exists|j: int|
            0 <= j < k && ({
                let c = #[trigger] t.kids(n)[j];
                if t.kind_among(c, TRANSPARENT@) {
                    declarations_of(t, c).contains(x)
                } else {
                    x == c
                }
            }),
    decreases k,
{
    if k > 0 {
        groups_stand_for_what_they_hold(t, n, k - 1, x);
        let c = t.kids(n)[k - 1];
        let own = if t.kind_among(c, TRANSPARENT@) {
            declared_in(t, c, t.kids(c).len() as int)
        } else {
            seq![c]
        };
        sum_contains(declared_in(t, n, k - 1), own, x);
        assert(seq![c][0] == c);
        assert(seq![c].contains(x) <==> x == c);
    }
}

/// A name by itself declares itself, and no function.
pub proof fn plain_names_declare_themselves(t: TreeView, n: usize)
    requires
        t.kind_among(n, TERMINAL_DECLARATORS@),
    ensures
        terminal(t, n) == Some(Declared { name: n, function: None, indirect: false }),
{
}

/// A name with parameters declares a function of that name; a pointer in front of it is of
/// its result.
pub proof fn names_with_parameters_declare_functions(t: TreeView, n: usize, pointer: usize, name: usize)
    requires
        t.kind_among(n, FUNCTION_DECLARATORS@),
        !t.kind_among(n, TERMINAL_DECLARATORS@),
        t.field(n, "declarator"@) == Some(name),
        t.kind_among(name, TERMINAL_DECLARATORS@),
    ensures
        terminal(t, n) == Some(Declared { name, function: Some(n), indirect: false }),
        terminal(t, n)->0.callable(t),
        !t.kind_among(pointer, TERMINAL_DECLARATORS@) && !t.kind_among(pointer, FUNCTION_DECLARATORS@) && t.field(
            pointer,
            "declarator"@,
        ) == Some(n) ==> terminal(t, pointer) == Some(Declared { name, function: Some(n), indirect: false }),
{
    reveal_with_fuel(chain_end, 4);
}

/// A pointer to a function is no function.
pub proof fn pointers_to_functions_are_no_functions(t: TreeView, n: usize, pointer: usize, name: usize)
    requires
        t.kind_among(n, FUNCTION_DECLARATORS@),
        !t.kind_among(n, TERMINAL_DECLARATORS@),
        t.field(n, "declarator"@) == Some(pointer),
        t.kind_among(pointer, INDIRECT_DECLARATORS@),
        !t.kind_among(pointer, TERMINAL_DECLARATORS@),
        !t.kind_among(pointer, FUNCTION_DECLARATORS@),
        t.field(pointer, "declarator"@) == Some(name),
        t.kind_among(name, TERMINAL_DECLARATORS@),
    ensures
        terminal(t, n) == Some(Declared { name, function: Some(n), indirect: true }),
        t.kind(name) != "operator_cast"@ ==> !terminal(t, n)->0.callable(t),
{
    reveal_with_fuel(chain_end, 4);
}

/// A qualified name spells its scope from the outside in, and ends in its last part.
pub proof fn qualified_names_spell_their_scope(t: TreeView, n: usize, outer: usize, inner: usize, middle: usize, leaf: usize)
    requires
        t.kind(n) == "qualified_identifier"@,
        t.field(n, "scope"@) == Some(outer),
        t.kind(outer) != "template_type"@,
        t.text(outer).len() > 0,
        t.field(n, "name"@) == Some(inner),
    ensures
        t.kind(inner) != "qualified_identifier"@ ==> spelled_scope(t, n) == seq![t.text(outer)] && leaf_name(t, n) == inner,
        t.kind(inner) == "qualified_identifier"@ && t.field(inner, "scope"@) == Some(middle) && t.kind(middle)
            != "template_type"@ && t.text(middle).len() > 0 && t.field(inner, "name"@) == Some(leaf) && t.kind(leaf)
            != "qualified_identifier"@ ==> spelled_scope(t, n) == seq![t.text(outer), t.text(middle)] && leaf_name(t, n)
            == leaf,
{
    reveal_with_fuel(scope_behind, 4);
    reveal_with_fuel(leaf_name, 4);
    let none = Seq::<Seq<char>>::empty();
    assert(none.push(t.text(outer)) =~= seq![t.text(outer)]);
    assert(none.push(t.text(outer)).push(t.text(middle)) =~= seq![t.text(outer), t.text(middle)]);
}

/// What is not qualified has no scope and is its own last part.
pub proof fn plain_names_have_no_scope(t: TreeView, n: usize)
    requires
        t.kind(n) != "qualified_identifier"@,
    ensures
        spelled_scope(t, n).len() == 0,
        leaf_name(t, n) == n,
{
}

/// A template is called what stands before its arguments.
pub proof fn templates_are_called_by_their_name(t: TreeView, n: usize, name: usize)
    ensures
        (t.kind(n) == "template_function"@ || t.kind(n) == "template_method"@ || t.kind(n) == "template_type"@) && t.field(
            n,
            "name"@,
        ) == Some(name) ==> bare(t, n) == name,
        t.kind(n) != "template_function"@ && t.kind(n) != "template_method"@ && t.kind(n) != "template_type"@ ==> bare(t, n)
            == n,
{
}

/// The left side of an assignment and what is counted up or down are written; the function
/// of a call is called; and nothing else is.
pub proof fn places_tell_writes_and_calls(t: TreeView, n: usize, parent: usize)
    requires
        t.parent(n) == Some(parent),
    ensures
        t.kind(parent) == "assignment_expression"@ && t.field(parent, "left"@) == Some(n) ==> written(t, n),
        t.kind(parent) == "update_expression"@ && t.field(parent, "argument"@) == Some(n) ==> written(t, n),
        t.kind(parent) == "call_expression"@ && t.field(parent, "function"@) == Some(n) ==> called(t, n),
        written(t, n) ==> t.field(parent, "left"@) == Some(n) || t.field(parent, "argument"@) == Some(n),
        called(t, n) ==> t.kind(parent) == "call_expression"@ && t.field(parent, "function"@) == Some(n),
{
}

/// A declaration is marked with a word where one of its children is that word.
pub proof fn marks_are_children(t: TreeView, n: usize, kind: Seq<char>, word: Seq<char>, k: int)
    requires
        0 <= k <= t.kids(n).len(),
    ensures
        marked(t, n, kind, word, k) <==> exists|j: int|
            0 <= j < k && t.kind(#[trigger] t.kids(n)[j]) == kind && trimmed(t.text(t.kids(n)[j])) == word,
    decreases k,
{
    if k > 0 {
        marks_are_children(t, n, kind, word, k - 1);
    }
}

/// The modifiers of a declaration are the marks that it carries.
pub proof fn modifiers_are_marks(t: TreeView, n: usize, j: int)
    requires
        0 <= j < t.kids(n).len(),
    ensures
        t.kind(t.kids(n)[j]) == "storage_class_specifier"@ && trimmed(t.text(t.kids(n)[j])) == "static"@ ==> modifiers_of(
            t,
            n,
        ).is_static,
        t.kind(t.kids(n)[j]) == "storage_class_specifier"@ && trimmed(t.text(t.kids(n)[j])) == "extern"@ ==> modifiers_of(
            t,
            n,
        ).is_extern,
        t.kind(t.kids(n)[j]) == "type_qualifier"@ && (trimmed(t.text(t.kids(n)[j])) == "const"@ || trimmed(
            t.text(t.kids(n)[j]),
        ) == "constexpr"@) ==> modifiers_of(t, n).is_const,
        modifiers_of(t, n).is_static ==> exists|i: int|
            0 <= i < t.kids(n).len() && trimmed(t.text(#[trigger] t.kids(n)[i])) == "static"@,
        modifiers_of(t, n).is_extern ==> exists|i: int|
            0 <= i < t.kids(n).len() && trimmed(t.text(#[trigger] t.kids(n)[i])) == "extern"@,
        t.parent(n) is Some ==> (modifiers_of(t, n).is_template <==> t.kind(t.parent(n)->0) == "template_declaration"@),
{
    let k = t.kids(n).len() as int;
    marks_are_children(t, n, "storage_class_specifier"@, "static"@, k);
    marks_are_children(t, n, "storage_class_specifier"@, "extern"@, k);
    marks_are_children(t, n, "type_qualifier"@, "const"@, k);
    marks_are_children(t, n, "type_qualifier"@, "constexpr"@, k);
}

/// A namespace with a plain name has that one part, and one without a name has none.
pub proof fn namespaces_have_their_parts(t: TreeView, n: usize, name: usize)
    ensures
        t.field(n, "name"@) == Some(name) && t.kind(name) != "nested_namespace_specifier"@ && t.text(name).len() > 0
            ==> namespace_parts(t, n) == seq![t.text(name)],
        t.field(n, "name"@) is None ==> namespace_parts(t, n).len() == 0,
{
}

/// A symbol outside the index is of the standard library where its descriptor, which stands
/// behind four blanks, begins like one; with fewer blanks its origin is not known.
pub proof fn descriptors_tell_origins(symbol: Seq<char>, a: Seq<char>, b: Seq<char>, descriptor: Seq<char>)
    requires
        cut(symbol, " "@) == Some((a, b)),
    ensures
        after_blanks(symbol, 4) == Some(descriptor) && standard(descriptor) ==> origin_of_symbol(symbol) == "stdlib"@,
        after_blanks(symbol, 4) == Some(descriptor) && !standard(descriptor) ==> origin_of_symbol(symbol) == "third_party"@,
        after_blanks(symbol, 4) == after_blanks(b, 3),
        cut(b, " "@) is None ==> origin_of_symbol(symbol) == "unknown"@,
{
    reveal_with_fuel(after_blanks, 5);
}

/// Whether the scopes of one list are among those of another.
pub open spec fn scopes_kept(a: ScopesView, b: ScopesView) -> bool {
    (forall|x: Seq<char>| #[trigger] a.records.contains(x) ==> b.records.contains(x)) && (forall|x: Seq<char>| #[trigger]
        a.namespaces.contains(x) ==> b.namespaces.contains(x))
}

proof fn keeping_goes_on(a: ScopesView, b: ScopesView, c: ScopesView)
    requires
        scopes_kept(a, b),
        scopes_kept(b, c),
    ensures
        scopes_kept(a, c),
{
    assert forall|x: Seq<char>| #[trigger] a.records.contains(x) implies c.records.contains(x) by {
        assert(b.records.contains(x));
    }
    assert forall|x: Seq<char>| #[trigger] a.namespaces.contains(x) implies c.namespaces.contains(x) by {
        assert(b.namespaces.contains(x));
    }
}

proof fn new_is_kept<A>(s: Seq<A>, x: A)
    ensures
        with_new(s, x).contains(x),
        forall|y: A| #[trigger] s.contains(y) ==> with_new(s, x).contains(y),
{
    let r = with_new(s, x);
    if !s.contains(x) {
        assert(r[s.len() as int] == x);
        assert forall|y: A| #[trigger] s.contains(y) implies r.contains(y) by {
            let i = choose|i: int| 0 <= i < s.len() && s[i] == y;
            assert(r[i] == y);
        }
    }
}

proof fn scopes_in_keep(t: TreeView, container: usize, namespace: Seq<Seq<char>>, st: ScopesView, k: int)
    ensures
        scopes_kept(st, scopes_in(t, container, namespace, st, k)),
    decreases t.nodes.len() - container, k,
{
    let list = declarations_of(t, container);
    if 0 < k <= list.len() {
        declared_are_below(t, container, t.kids(container).len() as int);
        scopes_in_keep(t, container, namespace, st, k - 1);
        let before = scopes_in(t, container, namespace, st, k - 1);
        scopes_at_keep(t, list[k - 1], namespace, before);
        let after = scopes_at(t, list[k - 1], namespace, before);
        keeping_goes_on(st, before, after);
        assert(scopes_in(t, container, namespace, st, k) == after);
    }
}

proof fn record_scopes_keep(t: TreeView, n: usize, namespace: Seq<Seq<char>>, st: ScopesView)
    ensures
        scopes_kept(st, record_scopes(t, n, namespace, st)),
        t.field(n, "name"@) is Some && t.text(t.field(n, "name"@)->0).len() > 0 ==> record_scopes(
            t,
            n,
            namespace,
            st,
        ).records.contains(t.text(t.field(n, "name"@)->0)),
    decreases t.nodes.len() - n, 1int,
{
    let named = match t.field(n, "name"@) {
        Some(name) => if t.text(name).len() > 0 {
            ScopesView { records: with_new(st.records, t.text(name)), ..st }
        } else {
            st
        },
        None => st,
    };
    if t.field(n, "name"@) is Some {
        new_is_kept(st.records, t.text(t.field(n, "name"@)->0));
    }
    assert(scopes_kept(st, named));
    let after = record_scopes(t, n, namespace, st);
    if t.field(n, "body"@) is Some {
        let body = t.field(n, "body"@)->0;
        scopes_in_keep(t, body, namespace, named, declarations_of(t, body).len() as int);
        assert(after == scopes_in(t, body, namespace, named, declarations_of(t, body).len() as int));
    } else {
        assert(after == named);
    }
    assert(scopes_kept(named, after));
    keeping_goes_on(st, named, after);
    if t.field(n, "name"@) is Some && t.text(t.field(n, "name"@)->0).len() > 0 {
        assert(named.records.contains(t.text(t.field(n, "name"@)->0)));
    }
}

proof fn scopes_at_keep(t: TreeView, n: usize, namespace: Seq<Seq<char>>, st: ScopesView)
    ensures
        scopes_kept(st, scopes_at(t, n, namespace, st)),
        t.kind(n) == "namespace_definition"@ && (namespace + namespace_parts(t, n)).len() > 0 ==> scopes_at(
            t,
            n,
            namespace,
            st,
        ).namespaces.contains(joined(namespace + namespace_parts(t, n), "::"@)),
    decreases t.nodes.len() - n, 2int,
{
    reveal_with_fuel(scopes_at, 2);
    reveal_with_fuel(scopes_in, 2);
    let after = scopes_at(t, n, namespace, st);
    if t.kind(n) == "namespace_definition"@ {
        let inner = namespace + namespace_parts(t, n);
        let named = if inner.len() > 0 {
            ScopesView { namespaces: with_new(st.namespaces, joined(inner, "::"@)), ..st }
        } else {
            st
        };
        new_is_kept(st.namespaces, joined(inner, "::"@));
        assert(scopes_kept(st, named));
        if t.field(n, "body"@) is Some {
            let body = t.field(n, "body"@)->0;
            scopes_in_keep(t, body, inner, named, declarations_of(t, body).len() as int);
            assert(after == scopes_in(t, body, inner, named, declarations_of(t, body).len() as int));
        } else {
            assert(after == named);
        }
        assert(scopes_kept(named, after));
        keeping_goes_on(st, named, after);
        assert(inner.len() > 0 ==> named.namespaces.contains(joined(inner, "::"@)));
    } else if t.kind_among(n, RECORD_KINDS@) {
        record_scopes_keep(t, n, namespace, st);
        assert(after == record_scopes(t, n, namespace, st));
    } else if t.field(n, "type"@) is Some {
        let inner = t.field(n, "type"@)->0;
        record_scopes_keep(t, inner, namespace, st);
        assert(after == record_scopes(t, inner, namespace, st) || after == st);
    } else {
        assert(after == st);
    }
}

/// The records and namespaces of a file are known by their names: a namespace by its parts
/// from the outside in.
pub proof fn scopes_are_known_by_name(t: TreeView, n: usize, namespace: Seq<Seq<char>>, st: ScopesView, name: usize)
    ensures
        t.kind(n) == "namespace_definition"@ && (namespace + namespace_parts(t, n)).len() > 0 ==> scopes_at(
            t,
            n,
            namespace,
            st,
        ).namespaces.contains(joined(namespace + namespace_parts(t, n), "::"@)),
        (t.kind(n) == "class_specifier"@ || t.kind(n) == "struct_specifier"@ || t.kind(n) == "union_specifier"@) && t.field(
            n,
            "name"@,
        ) == Some(name) && t.text(name).len() > 0 ==> scopes_at(t, n, namespace, st).records.contains(t.text(name)),
        scopes_kept(st, scopes_at(t, n, namespace, st)),
{
    scopes_at_keep(t, n, namespace, st);
    let table = RECORD_KINDS@;
    assert(table[0]@ == "struct_specifier"@ && table[1]@ == "union_specifier"@ && table[2]@ == "class_specifier"@);
    reveal_strlit("namespace_definition");
    reveal_strlit("class_specifier");
    reveal_strlit("struct_specifier");
    reveal_strlit("union_specifier");
    assert("namespace_definition"@.len() == 20 && "class_specifier"@.len() == 15 && "struct_specifier"@.len() == 16
        && "union_specifier"@.len() == 15);
    if t.kind(n) == "class_specifier"@ || t.kind(n) == "struct_specifier"@ || t.kind(n) == "union_specifier"@ {
        assert(t.kind_among(n, RECORD_KINDS@));
        record_scopes_keep(t, n, namespace, st);
        reveal_with_fuel(scopes_at, 2);
        assert(scopes_at(t, n, namespace, st) == record_scopes(t, n, namespace, st));
    }
}

// ---------------------------------------------------------------------------
// Signatures
// ---------------------------------------------------------------------------

/// Whether a word stands behind a blank somewhere in a text.
pub open spec fn holds_word(s: Seq<char>, word: Seq<char>) -> bool {
    exists|a: Seq<char>, b: Seq<char>| s == #[trigger] (a + " "@ + word + b)
}

proof fn types_are_listed(t: TreeView, list: Seq<usize>, k: int, i: int)
    requires
        0 <= i < k <= list.len(),
        t.kind_among(list[i], PARAMETER_KINDS@),
        param_type(t, list[i]).len() > 0,
        param_type(t, list[i]) != "void"@,
    ensures
        param_types(t, list, k).contains(param_type(t, list[i])),
    decreases k,
{
    let earlier = param_types(t, list, k - 1);
    let whole = param_types(t, list, k);
    if i < k - 1 {
        types_are_listed(t, list, k - 1, i);
        let j = choose|j: int| 0 <= j < earlier.len() && earlier[j] == param_type(t, list[i]);
        assert(whole[j] == param_type(t, list[i]));
    } else {
        assert(whole[earlier.len() as int] == param_type(t, list[i]));
    }
}

proof fn qualifiers_are_listed(t: TreeView, list: Seq<usize>, k: int, i: int)
    requires
        0 <= i < k <= list.len(),
        t.kind(list[i]) == "type_qualifier"@,
        trimmed(t.text(list[i])).len() > 0,
    ensures
        qualifiers_of(t, list, k).contains(trimmed(t.text(list[i]))),
    decreases k,
{
    let earlier = qualifiers_of(t, list, k - 1);
    let whole = qualifiers_of(t, list, k);
    if i < k - 1 {
        qualifiers_are_listed(t, list, k - 1, i);
        let j = choose|j: int| 0 <= j < earlier.len() && earlier[j] == trimmed(t.text(list[i]));
        assert(whole[j] == trimmed(t.text(list[i])));
    } else {
        assert(whole[earlier.len() as int] == trimmed(t.text(list[i])));
    }
}

proof fn qualifiers_are_written(s: Seq<char>, qualifiers: Seq<Seq<char>>, k: int, j: int)
    requires
        0 <= j < k <= qualifiers.len(),
    ensures
        holds_word(with_qualifiers(s, qualifiers, k), qualifiers[j]),
    decreases k,
{
    let earlier = with_qualifiers(s, qualifiers, k - 1);
    let whole = with_qualifiers(s, qualifiers, k);
    let none = Seq::<char>::empty();
    if j < k - 1 {
        qualifiers_are_written(s, qualifiers, k - 1, j);
        let (a, b) = choose|a: Seq<char>, b: Seq<char>| earlier == #[trigger] (a + " "@ + qualifiers[j] + b);
        assert(whole =~= a + " "@ + qualifiers[j] + (b + " "@ + qualifiers[k - 1]));
    } else {
        assert(whole =~= earlier + " "@ + qualifiers[j] + none);
    }
}

proof fn qualifiers_come_last(s: Seq<char>, qualifiers: Seq<Seq<char>>, k: int)
    ensures
        s.is_prefix_of(with_qualifiers(s, qualifiers, k)),
        k <= 0 ==> with_qualifiers(s, qualifiers, k) == s,
    decreases k,
{
    if 0 < k <= qualifiers.len() {
        qualifiers_come_last(s, qualifiers, k - 1);
    }
}

/// A signature lists the types of the parameters in brackets, and behind them every
/// qualifier of the function: a method that is constant differs from one that is not.
pub proof fn signatures_name_types_and_qualifiers(t: TreeView, carrier: usize, i: int, j: int)
    ensures
        ({
            let params = params_of(t, carrier);
            let types = param_types(t, params, params.len() as int);
            let kids = t.kids(carrier);
            &&& ("("@ + joined(types, ","@) + ")"@).is_prefix_of(signature_text(t, carrier))
            &&& 0 <= i < params.len() && t.kind(params[i]) == "parameter_declaration"@ && param_type(t, params[i]).len() > 0
                && param_type(t, params[i]) != "void"@ ==> types.contains(param_type(t, params[i]))
            &&& 0 <= j < kids.len() && t.kind(kids[j]) == "type_qualifier"@ && trimmed(t.text(kids[j])).len() > 0
                ==> holds_word(signature_text(t, carrier), trimmed(t.text(kids[j])))
        }),
{
    let params = params_of(t, carrier);
    let types = param_types(t, params, params.len() as int);
    let kids = t.kids(carrier);
    let found = qualifiers_of(t, kids, kids.len() as int);
    let qualifiers = sorted_names(found);
    let s = "("@ + joined(types, ","@) + ")"@;
    qualifiers_come_last(s, qualifiers, qualifiers.len() as int);
    if 0 <= i < params.len() && t.kind(params[i]) == "parameter_declaration"@ && param_type(t, params[i]).len() > 0
        && param_type(t, params[i]) != "void"@ {
        let table = PARAMETER_KINDS@;
        assert(table[0]@ == "parameter_declaration"@);
        assert(t.kind_among(params[i], PARAMETER_KINDS@));
        types_are_listed(t, params, params.len() as int, i);
    }
    if 0 <= j < kids.len() && t.kind(kids[j]) == "type_qualifier"@ && trimmed(t.text(kids[j])).len() > 0 {
        let q = trimmed(t.text(kids[j]));
        qualifiers_are_listed(t, kids, kids.len() as int, j);
        sorted_names_are_the_names(found, q, 0, 0);
        let at = choose|at: int| 0 <= at < qualifiers.len() && qualifiers[at] == q;
        qualifiers_are_written(s, qualifiers, qualifiers.len() as int, at);
    }
}

}
