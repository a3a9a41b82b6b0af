//! What the first pass over PHP sources promises.

use vstd::prelude::*;

use crate::php::declarations::{
    declare_all, declare_at, declare_class, declare_kids, grouped_row, held_bases, held_parents, held_traits, is_class,
    keyed_row, site_at, with_class, with_constants, with_function, with_import, with_imports, with_link, with_method,
    with_promoted, with_properties, DeclState, PendingView,
};
use crate::php::log::{last_under, RowView};
use crate::php::names::{
    class_names, clause_use, clause_uses, field_variable, namespace_name, qualified, said_kind, uses_of, UseKind, UseView,
    BASE_KINDS, NAME_KINDS, PATH_KINDS,
};
use crate::php::symbols::{class_of, ClassRefView, SiteView, SymbolsView};
use crate::selection::{goes_on, going_on_keeps};
use crate::strings::{after_last, without_around};
use crate::text::lowercase;
use crate::tree::{group_tree, TreeView};

verus! {

broadcast use group_tree;

/// The kinds of node that are told apart differ.
proof fn kinds_differ()
    ensures
        "class_declaration"@.len() == 17,
        "const_declaration"@.len() == 17,
        "const_element"@.len() == 13,
        "enum_case"@.len() == 9,
        "enum_declaration"@.len() == 16,
        "function_definition"@.len() == 19,
        "interface_declaration"@.len() == 21,
        "method_declaration"@.len() == 18,
        "namespace_definition"@.len() == 20,
        "namespace_use_declaration"@.len() == 25,
        "property_declaration"@.len() == 20,
        "property_element"@.len() == 16,
        "property_promotion_parameter"@.len() == 28,
        "trait_declaration"@.len() == 17,
        "use_declaration"@.len() == 15,
        "class_declaration"@ != "const_declaration"@,
        "class_declaration"@ != "trait_declaration"@,
        "const_declaration"@ != "trait_declaration"@,
        "enum_declaration"@ != "property_element"@,
        "namespace_definition"@ != "property_declaration"@,
{
    reveal_strlit("class_declaration");
    reveal_strlit("const_declaration");
    reveal_strlit("const_element");
    reveal_strlit("enum_case");
    reveal_strlit("enum_declaration");
    reveal_strlit("function_definition");
    reveal_strlit("interface_declaration");
    reveal_strlit("method_declaration");
    reveal_strlit("namespace_definition");
    reveal_strlit("namespace_use_declaration");
    reveal_strlit("property_declaration");
    reveal_strlit("property_element");
    reveal_strlit("property_promotion_parameter");
    reveal_strlit("trait_declaration");
    reveal_strlit("use_declaration");
    assert("class_declaration"@[1] != "const_declaration"@[1]);
    assert("class_declaration"@[0] != "trait_declaration"@[0]);
    assert("const_declaration"@[0] != "trait_declaration"@[0]);
    assert("enum_declaration"@[0] != "property_element"@[0]);
    assert("namespace_definition"@[0] != "property_declaration"@[0]);
}

// ---------------------------------------------------------------------------
// Reading only adds
// ---------------------------------------------------------------------------

/// Whether a state holds all that another one holds, in its place.
pub open spec fn holds_more(a: DeclState, b: DeclState) -> bool {
    &&& goes_on(a.symbols.classes, b.symbols.classes)
    &&& goes_on(a.symbols.functions, b.symbols.functions)
    &&& goes_on(a.symbols.constants, b.symbols.constants)
    &&& goes_on(a.symbols.methods, b.symbols.methods)
    &&& goes_on(a.symbols.properties, b.symbols.properties)
    &&& goes_on(a.symbols.class_constants, b.symbols.class_constants)
    &&& goes_on(a.symbols.short_names, b.symbols.short_names)
    &&& goes_on(a.symbols.class_uses, b.symbols.class_uses)
    &&& goes_on(a.symbols.function_uses, b.symbols.function_uses)
    &&& goes_on(a.symbols.constant_uses, b.symbols.constant_uses)
    &&& a.symbols.parents == b.symbols.parents
    &&& a.symbols.property_types == b.symbols.property_types
    &&& a.symbols.psr4 == b.symbols.psr4
    &&& a.symbols.internal == b.symbols.internal
    &&& a.symbols.vendors == b.symbols.vendors
    &&& goes_on(a.pending, b.pending)
}

proof fn parents_add(t: TreeView, path: Seq<char>, st: DeclState, class: Seq<char>, refs: Seq<usize>, k: int)
    ensures
        holds_more(st, held_parents(t, path, st, class, refs, k)),
        held_parents(t, path, st, class, refs, k).namespace == st.namespace,
    decreases k,
{
    if 0 < k <= refs.len() {
        parents_add(t, path, st, class, refs, k - 1);
    }
}

proof fn bases_add(t: TreeView, path: Seq<char>, st: DeclState, class: Seq<char>, list: Seq<usize>, k: int)
    ensures
        holds_more(st, held_bases(t, path, st, class, list, k)),
        held_bases(t, path, st, class, list, k).namespace == st.namespace,
    decreases k,
{
    if 0 < k <= list.len() {
        bases_add(t, path, st, class, list, k - 1);
        let refs = class_names(t, list[k - 1]);
        parents_add(t, path, held_bases(t, path, st, class, list, k - 1), class, refs, refs.len() as int);
    }
}

proof fn traits_add(t: TreeView, path: Seq<char>, st: DeclState, class: Seq<char>, list: Seq<usize>, k: int)
    ensures
        holds_more(st, held_traits(t, path, st, class, list, k)),
        held_traits(t, path, st, class, list, k).namespace == st.namespace,
    decreases k,
{
    if 0 < k <= list.len() {
        traits_add(t, path, st, class, list, k - 1);
    }
}

proof fn promoted_add(t: TreeView, path: Seq<char>, st: DeclState, class: Seq<char>, list: Seq<usize>, k: int)
    ensures
        holds_more(st, with_promoted(t, path, st, class, list, k)),
        with_promoted(t, path, st, class, list, k).namespace == st.namespace,
    decreases k,
{
    if 0 < k <= list.len() {
        promoted_add(t, path, st, class, list, k - 1);
    }
}

proof fn properties_add(t: TreeView, path: Seq<char>, st: DeclState, class: Seq<char>, n: usize, k: int)
    ensures
        holds_more(st, with_properties(t, path, st, class, n, k)),
        with_properties(t, path, st, class, n, k).namespace == st.namespace,
    decreases k,
{
    if 0 < k <= t.kids(n).len() {
        properties_add(t, path, st, class, n, k - 1);
    }
}

proof fn constants_add(t: TreeView, path: Seq<char>, st: DeclState, class: Option<Seq<char>>, list: Seq<usize>, k: int)
    ensures
        holds_more(st, with_constants(t, path, st, class, list, k)),
        with_constants(t, path, st, class, list, k).namespace == st.namespace,
    decreases k,
{
    if 0 < k <= list.len() {
        constants_add(t, path, st, class, list, k - 1);
    }
}

proof fn imports_add(st: DeclState, path: Seq<char>, uses: Seq<UseView>, k: int)
    ensures
        holds_more(st, (DeclState { symbols: with_imports(st.symbols, path, uses, k), ..st })),
    decreases k,
{
    if 0 < k <= uses.len() {
        imports_add(st, path, uses, k - 1);
    }
}

proof fn kids_add(t: TreeView, path: Seq<char>, class: Option<Seq<char>>, st: DeclState, n: usize, k: int)
    ensures
        holds_more(st, declare_kids(t, path, class, st, n, k)),
    decreases t.nodes.len() - n, 10int, k,
{
    if 0 < k <= t.kids(n).len() {
        kids_add(t, path, class, st, n, k - 1);
        declaring_adds(t, path, class, declare_kids(t, path, class, st, n, k - 1), t.kids(n)[k - 1]);
    }
}

proof fn all_add(t: TreeView, path: Seq<char>, class: Option<Seq<char>>, st: DeclState, n: usize)
    ensures
        holds_more(st, declare_all(t, path, class, st, n)),
    decreases t.nodes.len() - n, 15int, 0int,
{
    kids_add(t, path, class, st, n, t.kids(n).len() as int);
}

proof fn classes_add(t: TreeView, path: Seq<char>, st: DeclState, n: usize)
    ensures
        holds_more(st, declare_class(t, path, st, n)),
        t.field(n, "name"@) is Some ==> holds_more(
            with_class(t, path, st, t.field(n, "name"@)->0),
            declare_class(t, path, st, n),
        ),
        t.field(n, "name"@) is Some ==> holds_more(
            held_bases(
                t,
                path,
                with_class(t, path, st, t.field(n, "name"@)->0),
                qualified(st.namespace, t.text(t.field(n, "name"@)->0)),
                t.kids(n),
                t.kids(n).len() as int,
            ),
            declare_class(t, path, st, n),
        ),
        declare_class(t, path, st, n).namespace == st.namespace,
    decreases t.nodes.len() - n, 20int, 0int,
{
    if t.field(n, "name"@) is Some {
        let name_node = t.field(n, "name"@)->0;
        let fqn = qualified(st.namespace, t.text(name_node));
        let st1 = with_class(t, path, st, name_node);
        let st2 = held_bases(t, path, st1, fqn, t.kids(n), t.kids(n).len() as int);
        bases_add(t, path, st1, fqn, t.kids(n), t.kids(n).len() as int);
        if t.field(n, "body"@) is Some {
            all_add(t, path, Some(fqn), st2, t.field(n, "body"@)->0);
        }
    }
}

proof fn methods_add(t: TreeView, path: Seq<char>, st: DeclState, class: Seq<char>, n: usize)
    ensures
        holds_more(st, with_method(t, path, st, class, n)),
{
    if t.field(n, "name"@) is Some && t.field(n, "parameters"@) is Some {
        let name_node = t.field(n, "name"@)->0;
        let params = t.field(n, "parameters"@)->0;
        let st1 = DeclState {
            symbols: SymbolsView {
                methods: st.symbols.methods.push(
                    grouped_row(lowercase(class), lowercase(t.text(name_node)), site_at(t, path, name_node)),
                ),
                ..st.symbols
            },
            ..st
        };
        promoted_add(t, path, st1, class, t.kids(params), t.kids(params).len() as int);
    }
}

/// Reading a node keeps all that was declared before it.
pub proof fn declaring_adds(t: TreeView, path: Seq<char>, class: Option<Seq<char>>, st: DeclState, n: usize)
    ensures
        holds_more(st, declare_at(t, path, class, st, n)),
    decreases t.nodes.len() - n, 50int, 0int,
{
    kinds_differ();
    if t.kind(n) == "namespace_definition"@ {
        if t.field(n, "body"@) is Some {
            let inner = DeclState { namespace: namespace_name(t, n), ..st };
            all_add(t, path, class, inner, t.field(n, "body"@)->0);
        }
    } else if t.kind(n) == "namespace_use_declaration"@ {
        imports_add(st, path, uses_of(t, n), uses_of(t, n).len() as int);
    } else if is_class(t, n) {
        classes_add(t, path, st, n);
    } else if t.kind(n) == "method_declaration"@ {
        let st1 = match class {
            Some(c) => with_method(t, path, st, c, n),
            None => st,
        };
        if class is Some {
            methods_add(t, path, st, class->0, n);
        }
        all_add(t, path, class, st1, n);
    } else if t.kind(n) == "function_definition"@ {
        all_add(t, path, class, with_function(t, path, st, n), n);
    } else if t.kind(n) == "property_declaration"@ {
        if class is Some {
            properties_add(t, path, st, class->0, n, t.kids(n).len() as int);
        }
    } else if t.kind(n) == "const_declaration"@ {
        constants_add(t, path, st, class, t.kids(n), t.kids(n).len() as int);
    } else if t.kind(n) == "enum_case"@ {
    } else if t.kind(n) == "use_declaration"@ {
        if class is Some {
            traits_add(t, path, st, class->0, t.kids(n), t.kids(n).len() as int);
        }
    } else {
        all_add(t, path, class, st, n);
    }
}

// ---------------------------------------------------------------------------
// What is declared
// ---------------------------------------------------------------------------

proof fn pushed<A>(a: Seq<A>, x: A, b: Seq<A>)
    requires
        goes_on(a.push(x), b),
    ensures
        b.contains(x),
{
    assert(a.push(x)[a.len() as int] == x);
    assert(a.push(x).contains(x));
    going_on_keeps(a.push(x), b, x);
}

/// The site of a node of a file.
pub open spec fn stands_at(site: SiteView, t: TreeView, path: Seq<char>, n: usize) -> bool {
    site.path == path && site.line == t.span(n).start_line && site.col == t.span(n).start_col
}

/// A class stands in the table under its name and its namespace in lower case, with the
/// spelling that it was declared with and the place of its name; and under its short name
/// and its file.
pub proof fn classes_are_declared(t: TreeView, path: Seq<char>, class: Option<Seq<char>>, st: DeclState, n: usize, name: usize)
    requires
        t.kind(n) == "class_declaration"@ || t.kind(n) == "interface_declaration"@ || t.kind(n) == "trait_declaration"@
            || t.kind(n) == "enum_declaration"@,
        t.field(n, "name"@) == Some(name),
    ensures
        exists|i: int|
            0 <= i < declare_at(t, path, class, st, n).symbols.classes.len() && ({
                let row = #[trigger] declare_at(t, path, class, st, n).symbols.classes[i];
                &&& row.group == lowercase(qualified(st.namespace, t.text(name)))
                &&& row.name == row.group
                &&& row.value.fqn == qualified(st.namespace, t.text(name))
                &&& stands_at(row.value.site, t, path, name)
            }),
        exists|i: int|
            0 <= i < declare_at(t, path, class, st, n).symbols.short_names.len() && ({
                let row = #[trigger] declare_at(t, path, class, st, n).symbols.short_names[i];
                &&& row.group == lowercase(t.text(name))
                &&& row.name == path
                &&& row.value == lowercase(qualified(st.namespace, t.text(name)))
            }),
{
    kinds_differ();
    classes_add(t, path, st, n);
    let after = declare_at(t, path, class, st, n).symbols;
    let i = st.symbols.classes.len() as int;
    let st1 = with_class(t, path, st, name).symbols;
    assert(after.classes[i] == st1.classes[i]);
    let j = st.symbols.short_names.len() as int;
    assert(after.short_names[j] == st1.short_names[j]);
}

/// A method stands in the table under its class and its name in lower case, at its name. A
/// method outside of a class stands in no table.
pub proof fn methods_are_declared(t: TreeView, path: Seq<char>, class: Option<Seq<char>>, st: DeclState, n: usize, name: usize)
    requires
        t.kind(n) == "method_declaration"@,
        t.field(n, "name"@) == Some(name),
    ensures
        class is Some ==> exists|i: int|
            0 <= i < declare_at(t, path, class, st, n).symbols.methods.len() && ({
                let row = #[trigger] declare_at(t, path, class, st, n).symbols.methods[i];
                &&& row.group == lowercase(class->0)
                &&& row.name == lowercase(t.text(name))
                &&& stands_at(row.value, t, path, name)
            }),
        class is None ==> declare_at(t, path, class, st, n) == declare_all(t, path, class, st, n),
{
    kinds_differ();
    if class is Some {
        let c = class->0;
        let st1 = DeclState {
            symbols: SymbolsView {
                methods: st.symbols.methods.push(
                    grouped_row(lowercase(c), lowercase(t.text(name)), site_at(t, path, name)),
                ),
                ..st.symbols
            },
            ..st
        };
        if t.field(n, "parameters"@) is Some {
            let params = t.field(n, "parameters"@)->0;
            promoted_add(t, path, st1, c, t.kids(params), t.kids(params).len() as int);
        }
        let st2 = with_method(t, path, st, c, n);
        all_add(t, path, class, st2, n);
        let i = st.symbols.methods.len() as int;
        assert(st2.symbols.methods[i] == st1.symbols.methods[i]);
        assert(declare_at(t, path, class, st, n).symbols.methods[i] == st1.symbols.methods[i]);
    }
}

/// A function stands in the table under its name and its namespace in lower case.
pub proof fn functions_are_declared(t: TreeView, path: Seq<char>, class: Option<Seq<char>>, st: DeclState, n: usize, name: usize)
    requires
        t.kind(n) == "function_definition"@,
        t.field(n, "name"@) == Some(name),
    ensures
        exists|i: int|
            0 <= i < declare_at(t, path, class, st, n).symbols.functions.len() && ({
                let row = #[trigger] declare_at(t, path, class, st, n).symbols.functions[i];
                &&& row.group == lowercase(qualified(st.namespace, t.text(name)))
                &&& row.name == row.group
                &&& stands_at(row.value, t, path, name)
            }),
{
    kinds_differ();
    let st1 = with_function(t, path, st, n);
    all_add(t, path, class, st1, n);
    let i = st.symbols.functions.len() as int;
    assert(declare_at(t, path, class, st, n).symbols.functions[i] == st1.symbols.functions[i]);
}

proof fn listed_properties(t: TreeView, path: Seq<char>, st: DeclState, class: Seq<char>, n: usize, k: int, j: int, ident: usize)
    requires
        0 <= j < k <= t.kids(n).len(),
        t.kind(t.kids(n)[j]) == "property_element"@,
        field_variable(t, t.kids(n)[j]) == Some(ident),
    ensures
        with_properties(t, path, st, class, n, k).symbols.properties.contains(
            grouped_row(lowercase(class), t.text(ident), site_at(t, path, ident)),
        ),
        t.field(n, "type"@) is Some && class_names(t, t.field(n, "type"@)->0).len() == 1 ==> with_properties(
            t,
            path,
            st,
            class,
            n,
            k,
        ).pending.contains(
            PendingView {
                class: lowercase(class),
                property: Some(t.text(ident)),
                name: t.text(class_names(t, t.field(n, "type"@)->0)[0]),
                path,
                namespace: st.namespace,
            },
        ),
    decreases k,
{
    let row = grouped_row(lowercase(class), t.text(ident), site_at(t, path, ident));
    let earlier = with_properties(t, path, st, class, n, k - 1);
    let after = with_properties(t, path, st, class, n, k);
    properties_add(t, path, st, class, n, k - 1);
    if j == k - 1 {
        pushed(earlier.symbols.properties, row, after.symbols.properties);
        if t.field(n, "type"@) is Some && class_names(t, t.field(n, "type"@)->0).len() == 1 {
            let p = PendingView {
                class: lowercase(class),
                property: Some(t.text(ident)),
                name: t.text(class_names(t, t.field(n, "type"@)->0)[0]),
                path,
                namespace: st.namespace,
            };
            pushed(earlier.pending, p, after.pending);
        }
    } else {
        listed_properties(t, path, st, class, n, k - 1, j, ident);
        assert(goes_on(earlier.symbols.properties, after.symbols.properties));
        assert(goes_on(earlier.pending, after.pending));
        going_on_keeps(earlier.symbols.properties, after.symbols.properties, row);
        if t.field(n, "type"@) is Some && class_names(t, t.field(n, "type"@)->0).len() == 1 {
            let p = PendingView {
                class: lowercase(class),
                property: Some(t.text(ident)),
                name: t.text(class_names(t, t.field(n, "type"@)->0)[0]),
                path,
                namespace: st.namespace,
            };
            going_on_keeps(earlier.pending, after.pending, p);
        }
    }
}

/// Each property of a declaration stands in the table under its class and its name as it
/// is written; a type that names one class is looked up for it.
pub proof fn properties_are_declared(t: TreeView, path: Seq<char>, class: Seq<char>, st: DeclState, n: usize, j: int, ident: usize)
    requires
        t.kind(n) == "property_declaration"@,
        0 <= j < t.kids(n).len(),
        t.kind(t.kids(n)[j]) == "property_element"@,
        field_variable(t, t.kids(n)[j]) == Some(ident),
    ensures
        declare_at(t, path, Some(class), st, n).symbols.properties.contains(
            RowView {
                group: lowercase(class),
                name: t.text(ident),
                value: SiteView { path, line: t.span(ident).start_line, col: t.span(ident).start_col },
            },
        ),
        t.field(n, "type"@) is Some && class_names(t, t.field(n, "type"@)->0).len() == 1 ==> declare_at(
            t,
            path,
            Some(class),
            st,
            n,
        ).pending.contains(
            PendingView {
                class: lowercase(class),
                property: Some(t.text(ident)),
                name: t.text(class_names(t, t.field(n, "type"@)->0)[0]),
                path,
                namespace: st.namespace,
            },
        ),
{
    kinds_differ();
    listed_properties(t, path, st, class, n, t.kids(n).len() as int, j, ident);
}

proof fn listed_constants(t: TreeView, path: Seq<char>, st: DeclState, class: Option<Seq<char>>, list: Seq<usize>, k: int, j: int, name: usize)
    requires
        0 <= j < k <= list.len(),
        t.kind(list[j]) == "const_element"@,
        t.kid_of(list[j], "name"@) == Some(name),
    ensures
        class is Some ==> with_constants(t, path, st, class, list, k).symbols.class_constants.contains(
            grouped_row(lowercase(class->0), t.text(name), site_at(t, path, name)),
        ),
        class is None ==> with_constants(t, path, st, class, list, k).symbols.constants.contains(
            keyed_row(qualified(st.namespace, t.text(name)), site_at(t, path, name)),
        ),
    decreases k,
{
    let earlier = with_constants(t, path, st, class, list, k - 1);
    let after = with_constants(t, path, st, class, list, k);
    constants_add(t, path, st, class, list, k - 1);
    assert(goes_on(earlier.symbols.constants, after.symbols.constants));
    assert(goes_on(earlier.symbols.class_constants, after.symbols.class_constants));
    if class is Some {
        let row = grouped_row(lowercase(class->0), t.text(name), site_at(t, path, name));
        if j == k - 1 {
            pushed(earlier.symbols.class_constants, row, after.symbols.class_constants);
        } else {
            listed_constants(t, path, st, class, list, k - 1, j, name);
            going_on_keeps(earlier.symbols.class_constants, after.symbols.class_constants, row);
        }
    } else {
        let row = keyed_row(qualified(st.namespace, t.text(name)), site_at(t, path, name));
        if j == k - 1 {
            pushed(earlier.symbols.constants, row, after.symbols.constants);
        } else {
            listed_constants(t, path, st, class, list, k - 1, j, name);
            going_on_keeps(earlier.symbols.constants, after.symbols.constants, row);
        }
    }
}

/// A constant stands under its class, or outside of one under its namespace. Its name is
/// kept as it is written.
pub proof fn constants_are_declared(t: TreeView, path: Seq<char>, class: Option<Seq<char>>, st: DeclState, n: usize, j: int, name: usize)
    requires
        t.kind(n) == "const_declaration"@,
        0 <= j < t.kids(n).len(),
        t.kind(t.kids(n)[j]) == "const_element"@,
        t.kid_of(t.kids(n)[j], "name"@) == Some(name),
    ensures
        ({
            let site = SiteView { path, line: t.span(name).start_line, col: t.span(name).start_col };
            let after = declare_at(t, path, class, st, n).symbols;
            let key = qualified(st.namespace, t.text(name));
            &&& class is Some ==> after.class_constants.contains(
                RowView { group: lowercase(class->0), name: t.text(name), value: site },
            )
            &&& class is None ==> after.constants.contains(RowView { group: key, name: key, value: site })
        }),
{
    kinds_differ();
    listed_constants(t, path, st, class, t.kids(n), t.kids(n).len() as int, j, name);
}

/// A case of an enumeration is a constant of it.
pub proof fn cases_are_constants(t: TreeView, path: Seq<char>, class: Seq<char>, st: DeclState, n: usize, name: usize)
    requires
        t.kind(n) == "enum_case"@,
        t.field(n, "name"@) == Some(name),
    ensures
        declare_at(t, path, Some(class), st, n).symbols.class_constants.contains(
            RowView {
                group: lowercase(class),
                name: t.text(name),
                value: SiteView { path, line: t.span(name).start_line, col: t.span(name).start_col },
            },
        ),
{
    kinds_differ();
    let row = grouped_row(lowercase(class), t.text(name), site_at(t, path, name));
    pushed(
        st.symbols.class_constants,
        row,
        declare_at(t, path, Some(class), st, n).symbols.class_constants,
    );
}

proof fn listed_traits(t: TreeView, path: Seq<char>, st: DeclState, class: Seq<char>, list: Seq<usize>, k: int, j: int)
    requires
        0 <= j < k <= list.len(),
        t.kind_among(list[j], NAME_KINDS@),
    ensures
        held_traits(t, path, st, class, list, k).pending.contains(
            PendingView { class: lowercase(class), property: None, name: t.text(list[j]), path, namespace: st.namespace },
        ),
    decreases k,
{
    let p = PendingView { class: lowercase(class), property: None, name: t.text(list[j]), path, namespace: st.namespace };
    let earlier = held_traits(t, path, st, class, list, k - 1);
    let after = held_traits(t, path, st, class, list, k);
    traits_add(t, path, st, class, list, k - 1);
    if j == k - 1 {
        pushed(earlier.pending, p, after.pending);
    } else {
        listed_traits(t, path, st, class, list, k - 1, j);
        going_on_keeps(earlier.pending, after.pending, p);
    }
}

/// A trait that a class uses is looked up as a parent of it.
pub proof fn traits_are_parents(t: TreeView, path: Seq<char>, class: Seq<char>, st: DeclState, n: usize, j: int)
    requires
        t.kind(n) == "use_declaration"@,
        0 <= j < t.kids(n).len(),
        t.kind_among(t.kids(n)[j], NAME_KINDS@),
    ensures
        declare_at(t, path, Some(class), st, n).pending.contains(
            PendingView {
                class: lowercase(class),
                property: None,
                name: t.text(t.kids(n)[j]),
                path,
                namespace: st.namespace,
            },
        ),
{
    kinds_differ();
    listed_traits(t, path, st, class, t.kids(n), t.kids(n).len() as int, j);
}

proof fn listed_parents(t: TreeView, path: Seq<char>, st: DeclState, class: Seq<char>, refs: Seq<usize>, k: int, j: int)
    requires
        0 <= j < k <= refs.len(),
    ensures
        held_parents(t, path, st, class, refs, k).pending.contains(
            PendingView { class: lowercase(class), property: None, name: t.text(refs[j]), path, namespace: st.namespace },
        ),
    decreases k,
{
    let p = PendingView { class: lowercase(class), property: None, name: t.text(refs[j]), path, namespace: st.namespace };
    let earlier = held_parents(t, path, st, class, refs, k - 1);
    let after = held_parents(t, path, st, class, refs, k);
    parents_add(t, path, st, class, refs, k - 1);
    if j == k - 1 {
        pushed(earlier.pending, p, after.pending);
    } else {
        listed_parents(t, path, st, class, refs, k - 1, j);
        going_on_keeps(earlier.pending, after.pending, p);
    }
}

proof fn listed_bases(t: TreeView, path: Seq<char>, st: DeclState, class: Seq<char>, list: Seq<usize>, k: int, i: int, j: int)
    requires
        0 <= i < k <= list.len(),
        t.kind(list[i]) == "base_clause"@ || t.kind(list[i]) == "class_interface_clause"@,
        0 <= j < class_names(t, list[i]).len(),
    ensures
        held_bases(t, path, st, class, list, k).pending.contains(
            PendingView {
                class: lowercase(class),
                property: None,
                name: t.text(class_names(t, list[i])[j]),
                path,
                namespace: st.namespace,
            },
        ),
    decreases k,
{
    let earlier = held_bases(t, path, st, class, list, k - 1);
    let refs = class_names(t, list[k - 1]);
    bases_add(t, path, st, class, list, k - 1);
    let table = BASE_KINDS@;
    assert(table[0]@ == "base_clause"@ && table[1]@ == "class_interface_clause"@);
    if i == k - 1 {
        assert(t.kind_among(list[i], BASE_KINDS@));
        listed_parents(t, path, earlier, class, refs, refs.len() as int, j);
    } else {
        listed_bases(t, path, st, class, list, k - 1, i, j);
        parents_add(t, path, earlier, class, refs, refs.len() as int);
        going_on_keeps(
            earlier.pending,
            held_bases(t, path, st, class, list, k).pending,
            PendingView {
                class: lowercase(class),
                property: None,
                name: t.text(class_names(t, list[i])[j]),
                path,
                namespace: st.namespace,
            },
        );
    }
}

/// Each class and interface that the clauses of a class name is looked up as a parent of
/// it.
pub proof fn bases_are_parents(t: TreeView, path: Seq<char>, class: Option<Seq<char>>, st: DeclState, n: usize, name: usize, i: int, j: int)
    requires
        t.kind(n) == "class_declaration"@ || t.kind(n) == "interface_declaration"@ || t.kind(n) == "enum_declaration"@,
        t.field(n, "name"@) == Some(name),
        0 <= i < t.kids(n).len(),
        t.kind(t.kids(n)[i]) == "base_clause"@ || t.kind(t.kids(n)[i]) == "class_interface_clause"@,
        0 <= j < class_names(t, t.kids(n)[i]).len(),
    ensures
        declare_at(t, path, class, st, n).pending.contains(
            PendingView {
                class: lowercase(qualified(st.namespace, t.text(name))),
                property: None,
                name: t.text(class_names(t, t.kids(n)[i])[j]),
                path,
                namespace: st.namespace,
            },
        ),
{
    kinds_differ();
    let fqn = qualified(st.namespace, t.text(name));
    let st1 = with_class(t, path, st, name);
    listed_bases(t, path, st1, fqn, t.kids(n), t.kids(n).len() as int, i, j);
    classes_add(t, path, st, n);
    going_on_keeps(
        held_bases(t, path, st1, fqn, t.kids(n), t.kids(n).len() as int).pending,
        declare_at(t, path, class, st, n).pending,
        PendingView {
            class: lowercase(fqn),
            property: None,
            name: t.text(class_names(t, t.kids(n)[i])[j]),
            path,
            namespace: st.namespace,
        },
    );
}

/// A parameter that is promoted declares a property of the class, with the type that it
/// has.
pub proof fn promoted_parameters_are_properties(t: TreeView, path: Seq<char>, st: DeclState, class: Seq<char>, list: Seq<usize>, k: int, ident: usize)
    requires
        0 < k <= list.len(),
        field_variable(t, list[k - 1]) == Some(ident),
    ensures
        ({
            let before = with_promoted(t, path, st, class, list, k - 1);
            let after = with_promoted(t, path, st, class, list, k);
            &&& t.kind(list[k - 1]) == "property_promotion_parameter"@ ==> after.symbols.properties
                == before.symbols.properties.push(
                RowView {
                    group: lowercase(class),
                    name: t.text(ident),
                    value: SiteView { path, line: t.span(ident).start_line, col: t.span(ident).start_col },
                },
            )
            &&& t.kind(list[k - 1]) != "property_promotion_parameter"@ ==> after == before
        }),
{
}

/// A name that waited is looked up when every file was read: one that types a property
/// becomes its class, and one that names a parent becomes a parent where the project
/// declares it.
pub proof fn waiting_names_are_looked_up(s: SymbolsView, p: PendingView, property: Seq<char>, parent: Seq<char>)
    ensures
        p.property == Some(property) ==> last_under(with_link(s, p).property_types, p.class, property) == Some(
            class_of(s, p.name, p.path, p.namespace),
        ) && with_link(s, p).parents == s.parents,
        p.property is None && class_of(s, p.name, p.path, p.namespace) == ClassRefView::Declared(parent) ==> with_link(
            s,
            p,
        ).parents == s.parents.push(RowView { group: p.class, name: p.class, value: parent }) && with_link(
            s,
            p,
        ).property_types == s.property_types,
        p.property is None && class_of(s, p.name, p.path, p.namespace) is Foreign ==> with_link(s, p) == s,
{
}

// ---------------------------------------------------------------------------
// Imports
// ---------------------------------------------------------------------------

/// An import is found under its local name in lower case and its file, in the table of its
/// kind alone.
pub proof fn imports_are_found_by_kind(s: SymbolsView, path: Seq<char>, u: UseView)
    ensures
        ({
            let after = with_import(s, path, u);
            let class = last_under(after.class_uses, lowercase(u.local), path);
            let function = last_under(after.function_uses, lowercase(u.local), path);
            let constant = last_under(after.constant_uses, lowercase(u.local), path);
            &&& u.kind is Class ==> class == Some(u.target) && after.function_uses == s.function_uses && after.constant_uses
                == s.constant_uses
            &&& u.kind is Function ==> function == Some(u.target) && after.class_uses == s.class_uses && after.constant_uses
                == s.constant_uses
            &&& u.kind is Constant ==> constant == Some(u.target) && after.class_uses == s.class_uses && after.function_uses
                == s.function_uses
        }),
{
}

/// A clause imports the path that it names, below the prefix of its group. It is known by
/// its alias, and without one by the last part of its path.
pub proof fn clauses_import_their_path(t: TreeView, clause: usize, path_node: usize, prefix: Seq<char>, declared: UseKind)
    requires
        t.kid_among(clause, PATH_KINDS@) == Some(path_node),
        without_around(t.text(path_node), '\\').len() > 0,
    ensures
        ({
            let path = without_around(t.text(path_node), '\\');
            let u = clause_use(t, clause, prefix, declared);
            &&& u is Some
            &&& prefix.len() == 0 ==> u->0.target == path
            &&& prefix.len() > 0 ==> u->0.target == without_around(prefix, '\\') + "\\"@ + path
            &&& t.field(clause, "alias"@) is Some ==> u->0.local == t.text(t.field(clause, "alias"@)->0)
            &&& t.field(clause, "alias"@) is None ==> u->0.local == after_last(u->0.target, "\\"@)
            &&& said_kind(t, clause) is Class ==> u->0.kind == declared
            &&& said_kind(t, clause) is Function ==> u->0.kind is Function
            &&& said_kind(t, clause) is Constant ==> u->0.kind is Constant
        }),
{
}

/// Every clause of a statement is one of its imports.
pub proof fn clauses_are_imports(t: TreeView, list: Seq<usize>, prefix: Seq<char>, declared: UseKind, k: int, j: int)
    requires
        0 <= j < k <= list.len(),
        t.kind(list[j]) == "namespace_use_clause"@,
        clause_use(t, list[j], prefix, declared) is Some,
    ensures
        clause_uses(t, list, prefix, declared, k).contains(clause_use(t, list[j], prefix, declared)->0),
    decreases k,
{
    let u = clause_use(t, list[j], prefix, declared)->0;
    let earlier = clause_uses(t, list, prefix, declared, k - 1);
    let after = clause_uses(t, list, prefix, declared, k);
    if j == k - 1 {
        pushed(earlier, u, after);
    } else {
        clauses_are_imports(t, list, prefix, declared, k - 1, j);
        going_on_keeps(earlier, after, u);
    }
}

/// A namespace without a body holds for what follows it, and one with a body for its body
/// alone.
pub proof fn namespaces_hold_for_what_follows(t: TreeView, path: Seq<char>, class: Option<Seq<char>>, st: DeclState, n: usize)
    requires
        t.kind(n) == "namespace_definition"@,
    ensures
        t.field(n, "body"@) is None ==> declare_at(t, path, class, st, n).namespace == namespace_name(t, n),
        t.field(n, "body"@) is Some ==> declare_at(t, path, class, st, n).namespace == st.namespace,
{
}

} // verus!
