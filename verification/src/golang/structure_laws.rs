//! What the structure of Go sources promises.

use vstd::prelude::*;

use crate::golang::deps::import_origin;
use crate::golang::visitor::{
    bases_of, call_at, calls_in, declare, declared_node, embedded_element, embedded_in, embedded_type, import_node,
    interface_bases, path_of_import, receiver_of, reference_at, reference_role, references_in, struct_bases, symbol_node,
    uses_in, with_declaration, with_declarations, with_file, with_import, with_imports, with_names, with_type, with_types,
    with_values, GoFileView, GoImportView, GoState,
};
use crate::graph::{added_nodes_are_found, ids_find_nodes, node_at, GraphView};
use crate::ids::kind_id;
use crate::node::NodeKind;
use crate::occurrence::{occurrence_at, OccurrenceView};
use crate::relation::{plain_edge, RelationKind, RelationView};
use crate::selection::{goes_on, sum_contains};
use crate::tree::{group_tree, TreeView};
use crate::walk::{descend, typed_below};

verus! {

broadcast use group_tree;

/// The kinds of node that are told apart differ.
proof fn kinds_differ()
    ensures
        "call_expression"@.len() == 15,
        "const_declaration"@.len() == 17,
        "function_declaration"@.len() == 20,
        "identifier"@.len() == 10,
        "import_declaration"@.len() == 18,
        "interface_type"@.len() == 14,
        "method_declaration"@.len() == 18,
        "selector_expression"@.len() == 19,
        "struct_type"@.len() == 11,
        "type_alias"@.len() == 10,
        "type_declaration"@.len() == 16,
        "type_spec"@.len() == 9,
        "var_declaration"@.len() == 15,
        "call_expression"@ != "var_declaration"@,
        "identifier"@ != "type_alias"@,
        "import_declaration"@ != "method_declaration"@,
{
    reveal_strlit("call_expression");
    reveal_strlit("const_declaration");
    reveal_strlit("function_declaration");
    reveal_strlit("identifier");
    reveal_strlit("import_declaration");
    reveal_strlit("interface_type");
    reveal_strlit("method_declaration");
    reveal_strlit("selector_expression");
    reveal_strlit("struct_type");
    reveal_strlit("type_alias");
    reveal_strlit("type_declaration");
    reveal_strlit("type_spec");
    reveal_strlit("var_declaration");
    assert("call_expression"@[0] != "var_declaration"@[0]);
    assert("identifier"@[0] != "type_alias"@[0]);
    assert("import_declaration"@[0] != "method_declaration"@[0]);
}

// ---------------------------------------------------------------------------
// Reading only adds
// ---------------------------------------------------------------------------

/// Whether a graph holds all that another one holds, in its place.
pub open spec fn graph_grown(a: GraphView, b: GraphView) -> bool {
    goes_on(a.nodes, b.nodes) && goes_on(a.relations, b.relations) && a.metadata == b.metadata
}

/// Whether a state holds all that another one holds, in its place.
pub open spec fn grown(a: GoState, b: GoState) -> bool {
    graph_grown(a.graph, b.graph) && goes_on(a.occurrences, b.occurrences) && goes_on(a.imports, b.imports)
}

proof fn names_add(c: GoFileView, t: TreeView, g: GraphView, n: usize, names: Seq<usize>, j: int, k: int)
    requires
        0 <= j <= k <= names.len(),
    ensures
        graph_grown(with_names(c, t, g, n, names, j), with_names(c, t, g, n, names, k)),
        with_names(c, t, g, n, names, 0) == g,
    decreases k,
{
    if j < k {
        names_add(c, t, g, n, names, j, k - 1);
    }
}

proof fn values_add(c: GoFileView, t: TreeView, g: GraphView, list: Seq<usize>, j: int, k: int)
    requires
        0 <= j <= k <= list.len(),
    ensures
        graph_grown(with_values(c, t, g, list, j), with_values(c, t, g, list, k)),
        with_values(c, t, g, list, 0) == g,
    decreases k,
{
    if j < k {
        values_add(c, t, g, list, j, k - 1);
        let names = t.fields(list[k - 1], "name"@);
        names_add(c, t, with_values(c, t, g, list, k - 1), list[k - 1], names, 0, names.len() as int);
    }
}

proof fn types_add(c: GoFileView, t: TreeView, st: GoState, list: Seq<usize>, j: int, k: int)
    requires
        0 <= j <= k <= list.len(),
    ensures
        grown(with_types(c, t, st, list, j), with_types(c, t, st, list, k)),
        with_types(c, t, st, list, 0) == st,
    decreases k,
{
    if j < k {
        types_add(c, t, st, list, j, k - 1);
    }
}

proof fn imports_add(c: GoFileView, t: TreeView, st: GoState, list: Seq<usize>, j: int, k: int)
    requires
        0 <= j <= k <= list.len(),
    ensures
        grown(with_imports(c, t, st, list, j), with_imports(c, t, st, list, k)),
        with_imports(c, t, st, list, 0) == st,
    decreases k,
{
    if j < k {
        imports_add(c, t, st, list, j, k - 1);
    }
}

/// Reading a declaration keeps all that was read before it.
pub proof fn declarations_add(c: GoFileView, t: TreeView, st: GoState, n: usize)
    ensures
        grown(st, with_declaration(c, t, st, n)),
{
    kinds_differ();
    if t.kind(n) == "type_declaration"@ {
        types_add(c, t, st, t.kids(n), 0, t.kids(n).len() as int);
    }
    let vars = typed_below(t, n, "var_spec"@);
    values_add(c, t, st.graph, vars, 0, vars.len() as int);
    let consts = typed_below(t, n, "const_spec"@);
    values_add(c, t, st.graph, consts, 0, consts.len() as int);
    let imports = typed_below(t, n, "import_spec"@);
    imports_add(c, t, st, imports, 0, imports.len() as int);
}

/// A file holds all that each of its declarations gives.
pub proof fn files_keep_their_declarations(c: GoFileView, t: TreeView, st: GoState, root: usize, j: int, k: int)
    requires
        0 <= j < k <= t.kids(root).len(),
    ensures
        grown(
            with_declaration(c, t, with_declarations(c, t, st, t.kids(root), j), t.kids(root)[j]),
            with_declarations(c, t, st, t.kids(root), k),
        ),
        k == t.kids(root).len() ==> with_declarations(c, t, st, t.kids(root), k) == with_file(c, t, st, root),
    decreases k,
{
    if j < k - 1 {
        files_keep_their_declarations(c, t, st, root, j, k - 1);
        declarations_add(c, t, with_declarations(c, t, st, t.kids(root), k - 1), t.kids(root)[k - 1]);
    }
}

// ---------------------------------------------------------------------------
// Declarations
// ---------------------------------------------------------------------------

/// Whether a graph holds a declaration of the file under a name: a node of a kind, and, if
/// the name was not taken before, its place and an edge from the file.
pub open spec fn holds_declaration(
    before: GraphView,
    after: GraphView,
    c: GoFileView,
    t: TreeView,
    qname: Seq<char>,
    name: Seq<char>,
    kind: NodeKind,
    full: usize,
) -> bool {
    let id = kind_id(c.project, qname, kind);
    &&& node_at(after.nodes, id) is Some
    &&& node_at(before.nodes, id) is None ==> {
        &&& node_at(after.nodes, id)->0.kind == kind
        &&& node_at(after.nodes, id)->0.qualified_name == qname
        &&& node_at(after.nodes, id)->0.name == name
        &&& node_at(after.nodes, id)->0.file_path == Some(c.file_rel)
        &&& node_at(after.nodes, id)->0.span == Some(t.span(full))
        &&& after.relations.contains(
            RelationView { source_id: c.file_id, target_id: id, kind: RelationKind::Declares, metadata: Seq::empty() },
        )
    }
    &&& node_at(before.nodes, id) is Some ==> after == before
}

proof fn declaring_holds(c: GoFileView, t: TreeView, g: GraphView, qname: Seq<char>, name: Seq<char>, kind: NodeKind, full: usize, name_node: usize)
    ensures
        holds_declaration(g, declare(c, t, g, qname, name, kind, full, name_node), c, t, qname, name, kind, full),
{
    let node = declared_node(c, t, qname, name, kind, full, name_node);
    let after = declare(c, t, g, qname, name, kind, full, name_node);
    added_nodes_are_found(g, node, node.id);
    ids_find_nodes(g.nodes, node.id);
    if !g.has(node.id) {
        let edges = after.relations;
        assert(edges[edges.len() - 1] == plain_edge(c.file_id, node.id, RelationKind::Declares));
        assert(edges.contains(plain_edge(c.file_id, node.id, RelationKind::Declares)));
    }
}

/// A function is declared below its package.
pub proof fn functions_are_declared(c: GoFileView, t: TreeView, st: GoState, n: usize, name: usize)
    requires
        t.kind(n) == "function_declaration"@,
        t.field(n, "name"@) == Some(name),
    ensures
        holds_declaration(
            st.graph,
            with_declaration(c, t, st, n).graph,
            c,
            t,
            c.package + "."@ + t.text(name),
            t.text(name),
            NodeKind::Function,
            n,
        ),
{
    declaring_holds(c, t, st.graph, c.package + "."@ + t.text(name), t.text(name), NodeKind::Function, n, name);
}

/// A method is declared below the type that receives it.
pub proof fn methods_are_declared(c: GoFileView, t: TreeView, st: GoState, n: usize, name: usize, receiver: usize)
    requires
        t.kind(n) == "method_declaration"@,
        t.field(n, "name"@) == Some(name),
        t.field(n, "receiver"@) == Some(receiver),
        typed_below(t, receiver, "type_identifier"@).len() > 0,
        t.text(typed_below(t, receiver, "type_identifier"@)[0]).len() > 0,
    ensures
        holds_declaration(
            st.graph,
            with_declaration(c, t, st, n).graph,
            c,
            t,
            c.package + "."@ + t.text(typed_below(t, receiver, "type_identifier"@)[0]) + "."@ + t.text(name),
            t.text(name),
            NodeKind::Method,
            n,
        ),
{
    kinds_differ();
    let qname = c.package + "."@ + t.text(typed_below(t, receiver, "type_identifier"@)[0]) + "."@ + t.text(name);
    declaring_holds(c, t, st.graph, qname, t.text(name), NodeKind::Method, n, name);
}

/// A type that is a struct or an interface is a class, and any other is an alias.
pub proof fn types_are_declared(c: GoFileView, t: TreeView, st: GoState, n: usize, name: usize, ty: usize)
    requires
        t.field(n, "name"@) == Some(name),
        t.field(n, "type"@) == Some(ty),
    ensures
        t.kind(n) == "type_spec"@ && (t.kind(ty) == "struct_type"@ || t.kind(ty) == "interface_type"@) ==> holds_declaration(
            st.graph,
            with_type(c, t, st, n).graph,
            c,
            t,
            c.package + "."@ + t.text(name),
            t.text(name),
            NodeKind::Class,
            n,
        ),
        t.kind(n) == "type_spec"@ && t.kind(ty) != "struct_type"@ && t.kind(ty) != "interface_type"@ || t.kind(n)
            == "type_alias"@ ==> holds_declaration(
            st.graph,
            with_type(c, t, st, n).graph,
            c,
            t,
            c.package + "."@ + t.text(name),
            t.text(name),
            NodeKind::TypeAlias,
            n,
        ) && with_type(c, t, st, n).occurrences == st.occurrences,
{
    kinds_differ();
    let qname = c.package + "."@ + t.text(name);
    declaring_holds(c, t, st.graph, qname, t.text(name), NodeKind::Class, n, name);
    declaring_holds(c, t, st.graph, qname, t.text(name), NodeKind::TypeAlias, n, name);
}

/// Every type of a declaration is read.
pub proof fn declared_types_are_read(c: GoFileView, t: TreeView, st: GoState, n: usize, j: int)
    requires
        t.kind(n) == "type_declaration"@,
        0 <= j < t.kids(n).len(),
    ensures
        grown(
            with_type(c, t, with_types(c, t, st, t.kids(n), j), t.kids(n)[j]),
            with_declaration(c, t, st, n),
        ),
{
    kinds_differ();
    types_add(c, t, st, t.kids(n), j + 1, t.kids(n).len() as int);
}

/// Every name of a declaration of variables or constants is a variable of its package.
pub proof fn values_are_variables(c: GoFileView, t: TreeView, st: GoState, n: usize, kind: Seq<char>, i: int, j: int)
    requires
        t.kind(n) == "var_declaration"@ && kind == "var_spec"@ || t.kind(n) == "const_declaration"@ && kind
            == "const_spec"@,
        0 <= i < typed_below(t, n, kind).len(),
        0 <= j < t.fields(typed_below(t, n, kind)[i], "name"@).len(),
    ensures
        node_at(
            with_declaration(c, t, st, n).graph.nodes,
            kind_id(
                c.project,
                c.package + "."@ + t.text(t.fields(typed_below(t, n, kind)[i], "name"@)[j]),
                NodeKind::Variable,
            ),
        ) is Some,
        with_declaration(c, t, st, n).occurrences == st.occurrences,
{
    kinds_differ();
    let list = typed_below(t, n, kind);
    let names = t.fields(list[i], "name"@);
    let g0 = with_values(c, t, st.graph, list, i);
    let g1 = with_names(c, t, g0, list[i], names, j);
    let g2 = with_names(c, t, g0, list[i], names, j + 1);
    let name = t.text(names[j]);
    let qname = c.package + "."@ + name;
    let id = kind_id(c.project, qname, NodeKind::Variable);
    declaring_holds(c, t, g1, qname, name, NodeKind::Variable, list[i], names[j]);
    names_add(c, t, g0, list[i], names, j + 1, names.len() as int);
    values_add(c, t, st.graph, list, i + 1, list.len() as int);
    let after = with_declaration(c, t, st, n).graph;
    ids_find_nodes(g2.nodes, id);
    ids_find_nodes(after.nodes, id);
    let x = choose|x: int| 0 <= x < g2.nodes.len() && (#[trigger] g2.nodes[x]).id == id;
    let g3 = with_values(c, t, st.graph, list, i + 1);
    assert(g3.nodes[x] == g2.nodes[x]);
    assert(after.nodes[x].id == id);
}

// ---------------------------------------------------------------------------
// Uses
// ---------------------------------------------------------------------------

/// Whether a node of the tree was noted as a use in a role, inside of a node of the graph.
pub open spec fn notes_use(list: Seq<OccurrenceView>, t: TreeView, role: Seq<char>, n: usize, id: Seq<char>) -> bool {
    list.contains(
        OccurrenceView {
            role,
            line: t.span(n).start_line,
            col: t.span(n).start_col,
            enclosing_id: id,
            span: t.span(n),
        },
    )
}

proof fn pushed<A>(a: Seq<A>, x: A)
    ensures
        a.push(x).contains(x),
        forall|y: A| #[trigger] a.contains(y) ==> a.push(x).contains(y),
{
    assert(a.push(x)[a.len() as int] == x);
    assert forall|y: A| #[trigger] a.contains(y) implies a.push(x).contains(y) by {
        let i = choose|i: int| 0 <= i < a.len() && a[i] == y;
        assert(a.push(x)[i] == y);
    }
}

proof fn calls_noted(t: TreeView, list: Seq<usize>, id: Seq<char>, k: int, j: int, name: usize)
    requires
        0 <= j < k <= list.len(),
        call_at(t, list[j]) == Some(name),
    ensures
        notes_use(calls_in(t, list, id, k), t, "call"@, name, id),
    decreases k,
{
    let earlier = calls_in(t, list, id, k - 1);
    if call_at(t, list[k - 1]) is Some {
        pushed(earlier, occurrence_at("call"@, id, t.span(call_at(t, list[k - 1])->0)));
    }
    if j < k - 1 {
        calls_noted(t, list, id, k - 1, j, name);
    }
}

proof fn references_noted(t: TreeView, list: Seq<usize>, id: Seq<char>, k: int, j: int, name: usize)
    requires
        0 <= j < k <= list.len(),
        reference_at(t, list[j]) == Some(name),
    ensures
        notes_use(references_in(t, list, id, k), t, reference_role(t, list[j]), name, id),
    decreases k,
{
    let earlier = references_in(t, list, id, k - 1);
    if reference_at(t, list[k - 1]) is Some {
        pushed(earlier, occurrence_at(reference_role(t, list[k - 1]), id, t.span(reference_at(t, list[k - 1])->0)));
    }
    if j < k - 1 {
        references_noted(t, list, id, k - 1, j, name);
    }
}

/// What is called below a function or method is called by it: a name by itself, and a
/// member by the field that selects it.
pub proof fn functions_call_what_is_below(t: TreeView, scope: usize, id: Seq<char>, x: usize, function: usize, field: usize)
    requires
        descend(t, scope).contains(x),
        t.kind(x) == "call_expression"@,
        t.field(x, "function"@) == Some(function),
    ensures
        t.kind(function) == "identifier"@ ==> notes_use(uses_in(t, scope, id), t, "call"@, function, id),
        t.kind(function) == "selector_expression"@ && t.field(function, "field"@) == Some(field) ==> notes_use(
            uses_in(t, scope, id),
            t,
            "call"@,
            field,
            id,
        ),
{
    kinds_differ();
    let list = descend(t, scope);
    let j = choose|j: int| 0 <= j < list.len() && list[j] == x;
    let k = list.len() as int;
    if let Some(name) = call_at(t, x) {
        calls_noted(t, list, id, k, j, name);
        sum_contains(calls_in(t, list, id, k), references_in(t, list, id, k), occurrence_at("call"@, id, t.span(name)));
    }
}

/// A member that is selected and not called is read, and written where it is assigned to,
/// counted up or counted down.
pub proof fn selected_members_are_read_or_written(t: TreeView, scope: usize, id: Seq<char>, x: usize, parent: usize, field: usize)
    requires
        descend(t, scope).contains(x),
        t.kind(x) == "selector_expression"@,
        t.field(x, "field"@) == Some(field),
        t.parent(x) == Some(parent),
        t.kind(parent) != "call_expression"@ || t.field(parent, "function"@) != Some(x),
    ensures
        t.kind(parent) == "inc_statement"@ || t.kind(parent) == "dec_statement"@ ==> notes_use(
            uses_in(t, scope, id),
            t,
            "write"@,
            field,
            id,
        ),
        t.kind(parent) == "expression_list"@ && t.parent(parent) is Some && t.kind(t.parent(parent)->0)
            == "assignment_statement"@ && t.field(t.parent(parent)->0, "left"@) == Some(parent) ==> notes_use(
            uses_in(t, scope, id),
            t,
            "write"@,
            field,
            id,
        ),
        t.kind(parent) != "inc_statement"@ && t.kind(parent) != "dec_statement"@ && t.kind(parent) != "expression_list"@
            ==> notes_use(uses_in(t, scope, id), t, "read"@, field, id),
        t.kind(parent) == "expression_list"@ && t.parent(parent) is Some && t.kind(t.parent(parent)->0)
            == "assignment_statement"@ && t.field(t.parent(parent)->0, "left"@) != Some(parent) ==> notes_use(
            uses_in(t, scope, id),
            t,
            "read"@,
            field,
            id,
        ),
{
    reveal_strlit("inc_statement");
    reveal_strlit("dec_statement");
    reveal_strlit("expression_list");
    assert("inc_statement"@.len() != "expression_list"@.len());
    assert("dec_statement"@.len() != "expression_list"@.len());
    let list = descend(t, scope);
    let j = choose|j: int| 0 <= j < list.len() && list[j] == x;
    let k = list.len() as int;
    references_noted(t, list, id, k, j, field);
    sum_contains(
        calls_in(t, list, id, k),
        references_in(t, list, id, k),
        occurrence_at(reference_role(t, x), id, t.span(field)),
    );
}

/// A function or method holds the uses that stand in it.
pub proof fn functions_hold_their_uses(c: GoFileView, t: TreeView, st: GoState, n: usize, name: usize, role: Seq<char>, x: usize)
    requires
        t.field(n, "name"@) == Some(name),
    ensures
        ({
            let function = kind_id(c.project, c.package + "."@ + t.text(name), NodeKind::Function);
            let after = with_declaration(c, t, st, n).occurrences;
            &&& t.kind(n) == "function_declaration"@ && notes_use(uses_in(t, n, function), t, role, x, function)
                ==> notes_use(after, t, role, x, function)
            &&& t.kind(n) == "method_declaration"@ && receiver_of(t, n).len() > 0 ==> {
                let method = kind_id(
                    c.project,
                    c.package + "."@ + receiver_of(t, n) + "."@ + t.text(name),
                    NodeKind::Method,
                );
                notes_use(uses_in(t, n, method), t, role, x, method) ==> notes_use(after, t, role, x, method)
            }
        }),
{
    kinds_differ();
    let function = kind_id(c.project, c.package + "."@ + t.text(name), NodeKind::Function);
    let method = kind_id(c.project, c.package + "."@ + receiver_of(t, n) + "."@ + t.text(name), NodeKind::Method);
    sum_contains(st.occurrences, uses_in(t, n, function), occurrence_at(role, function, t.span(x)));
    sum_contains(st.occurrences, uses_in(t, n, method), occurrence_at(role, method, t.span(x)));
}

/// A field without a name embeds its type, which is a base of the struct. A field with a
/// name has no base.
pub proof fn nameless_fields_are_bases(t: TreeView, list: Seq<usize>, id: Seq<char>, k: int, j: int, ty: usize)
    requires
        0 <= j < k <= list.len(),
        t.kind(list[j]) == "field_declaration"@,
        t.field(list[j], "name"@) is None,
        t.field(list[j], "type"@) == Some(ty),
    ensures
        t.kind(ty) == "type_identifier"@ ==> notes_use(embedded_in(t, list, id, k), t, "base"@, ty, id),
        t.kind(ty) == "qualified_type"@ && t.field(ty, "name"@) is Some ==> notes_use(
            embedded_in(t, list, id, k),
            t,
            "base"@,
            t.field(ty, "name"@)->0,
            id,
        ),
    decreases k,
{
    reveal_strlit("type_identifier");
    reveal_strlit("qualified_type");
    assert("type_identifier"@.len() != "qualified_type"@.len());
    let earlier = embedded_in(t, list, id, k - 1);
    if embedded_type(t, list[k - 1]) is Some {
        pushed(earlier, occurrence_at("base"@, id, t.span(embedded_type(t, list[k - 1])->0)));
    }
    if j < k - 1 {
        nameless_fields_are_bases(t, list, id, k - 1, j, ty);
    }
}

/// A field with a name gives no base.
pub proof fn named_fields_are_no_bases(t: TreeView, list: Seq<usize>, id: Seq<char>, k: int)
    requires
        forall|j: int| 0 <= j < list.len() ==> t.field(#[trigger] list[j], "name"@) is Some,
    ensures
        embedded_in(t, list, id, k).len() == 0,
    decreases k,
{
    if 0 < k <= list.len() {
        named_fields_are_no_bases(t, list, id, k - 1);
        assert(t.field(list[k - 1], "name"@) is Some);
    }
}

/// A type that stands alone in an interface is a base of it.
pub proof fn lone_elements_are_bases(t: TreeView, list: Seq<usize>, id: Seq<char>, k: int, j: int, ty: usize)
    requires
        0 <= j < k <= list.len(),
        t.kind(list[j]) == "type_elem"@,
        t.named_kids(list[j]) == seq![ty],
        t.kind(ty) == "type_identifier"@,
    ensures
        notes_use(interface_bases(t, list, id, k), t, "base"@, ty, id),
    decreases k,
{
    assert(t.named_kids(list[j])[0] == ty);
    let earlier = interface_bases(t, list, id, k - 1);
    if embedded_element(t, list[k - 1]) is Some {
        pushed(earlier, occurrence_at("base"@, id, t.span(embedded_element(t, list[k - 1])->0)));
    }
    if j < k - 1 {
        lone_elements_are_bases(t, list, id, k - 1, j, ty);
    }
}

proof fn lists_noted(t: TreeView, list: Seq<usize>, id: Seq<char>, k: int, j: int, o: OccurrenceView)
    requires
        0 <= j < k <= list.len(),
        t.kind(list[j]) == "field_declaration_list"@,
        embedded_in(t, t.kids(list[j]), id, t.kids(list[j]).len() as int).contains(o),
    ensures
        struct_bases(t, list, id, k).contains(o),
    decreases k,
{
    let n = list[k - 1];
    sum_contains(struct_bases(t, list, id, k - 1), embedded_in(t, t.kids(n), id, t.kids(n).len() as int), o);
    if j < k - 1 {
        lists_noted(t, list, id, k - 1, j, o);
    }
}

/// A struct holds the bases of its fields, and an interface those of its elements.
pub proof fn types_hold_their_bases(c: GoFileView, t: TreeView, st: GoState, n: usize, name: usize, ty: usize, fields: usize, j: int, x: usize)
    requires
        t.kind(n) == "type_spec"@,
        t.field(n, "name"@) == Some(name),
        t.field(n, "type"@) == Some(ty),
    ensures
        ({
            let id = kind_id(c.project, c.package + "."@ + t.text(name), NodeKind::Class);
            let after = with_type(c, t, st, n).occurrences;
            &&& t.kind(ty) == "struct_type"@ && 0 <= j < t.kids(ty).len() && t.kids(ty)[j] == fields && t.kind(fields)
                == "field_declaration_list"@ && notes_use(
                embedded_in(t, t.kids(fields), id, t.kids(fields).len() as int),
                t,
                "base"@,
                x,
                id,
            ) ==> notes_use(after, t, "base"@, x, id)
            &&& t.kind(ty) == "interface_type"@ && notes_use(
                interface_bases(t, t.kids(ty), id, t.kids(ty).len() as int),
                t,
                "base"@,
                x,
                id,
            ) ==> notes_use(after, t, "base"@, x, id)
        }),
{
    kinds_differ();
    let id = kind_id(c.project, c.package + "."@ + t.text(name), NodeKind::Class);
    let o = occurrence_at("base"@, id, t.span(x));
    sum_contains(st.occurrences, bases_of(t, ty, id), o);
    if t.kind(ty) == "struct_type"@ && 0 <= j < t.kids(ty).len() && t.kids(ty)[j] == fields && t.kind(fields)
        == "field_declaration_list"@ && notes_use(
        embedded_in(t, t.kids(fields), id, t.kids(fields).len() as int),
        t,
        "base"@,
        x,
        id,
    ) {
        lists_noted(t, t.kids(ty), id, t.kids(ty).len() as int, j, o);
    }
}

// ---------------------------------------------------------------------------
// Imports
// ---------------------------------------------------------------------------

/// A new import is declared by its file under its path. One of the project's own packages
/// waits to be bound; any other leads to a symbol outside the project that tells where it
/// comes from.
pub proof fn imports_lead_to_what_they_name(c: GoFileView, t: TreeView, st: GoState, n: usize, path: Seq<char>)
    requires
        path_of_import(t, n) == path,
        path.len() > 0,
        node_at(st.graph.nodes, kind_id(c.project, c.file_rel + "::"@ + path, NodeKind::Import)) is None,
    ensures
        ({
            let origin = import_origin(path, Some(c.own_module), c.required);
            let id = kind_id(c.project, c.file_rel + "::"@ + path, NodeKind::Import);
            let outside = kind_id(c.project, path, NodeKind::ExternalSymbol);
            let after = with_import(c, t, st, n);
            &&& after.graph.relations.contains(
                RelationView { source_id: c.file_id, target_id: id, kind: RelationKind::Declares, metadata: Seq::empty() },
            )
            &&& node_at(after.graph.nodes, id) is Some
            &&& origin == "internal"@ ==> after.imports == st.imports.push(
                GoImportView { import_id: id, path, file_id: c.file_id },
            )
            &&& origin != "internal"@ ==> {
                &&& after.imports == st.imports
                &&& after.graph.relations.contains(
                    RelationView { source_id: id, target_id: outside, kind: RelationKind::ResolvesTo, metadata: Seq::empty() },
                )
                &&& node_at(after.graph.nodes, outside) is Some
            }
        }),
{
    let origin = import_origin(path, Some(c.own_module), c.required);
    let node = import_node(c, t, n, path, origin);
    let sym = symbol_node(c.project, path, origin);
    let after = with_import(c, t, st, n).graph;
    ids_find_nodes(st.graph.nodes, node.id);
    added_nodes_are_found(st.graph, node, node.id);
    let g = st.graph.insert(node).relate(plain_edge(c.file_id, node.id, RelationKind::Declares));
    added_nodes_are_found(g, sym, sym.id);
    added_nodes_are_found(g, sym, node.id);
    let first = plain_edge(c.file_id, node.id, RelationKind::Declares);
    assert(after.relations[st.graph.relations.len() as int] == first);
    assert(after.relations.contains(first));
    if origin != "internal"@ {
        let second = plain_edge(node.id, sym.id, RelationKind::ResolvesTo);
        assert(after.relations[st.graph.relations.len() as int + 1] == second);
        assert(after.relations.contains(second));
    }
}

/// Every import of a declaration is read.
pub proof fn declared_imports_are_read(c: GoFileView, t: TreeView, st: GoState, n: usize, j: int)
    requires
        t.kind(n) == "import_declaration"@,
        0 <= j < typed_below(t, n, "import_spec"@).len(),
    ensures
        grown(
            with_import(
                c,
                t,
                with_imports(c, t, st, typed_below(t, n, "import_spec"@), j),
                typed_below(t, n, "import_spec"@)[j],
            ),
            with_declaration(c, t, st, n),
        ),
{
    kinds_differ();
    let list = typed_below(t, n, "import_spec"@);
    imports_add(c, t, st, list, j + 1, list.len() as int);
}

} // verus!
