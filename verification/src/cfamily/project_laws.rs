//! What reading a project of C or C++ promises.

use vstd::prelude::*;

use crate::adapter::edge_of_role;
use crate::adapter_laws::graph_grown;
use crate::cfamily::adapter::{
    family_completed, family_counters, family_file, family_file_pass, family_pass, family_passes, family_step,
    module_node, module_of, no_pass, owned_sources, reads, root_answers, unknown_key, with_family_file,
    with_family_ports, AnalysedView, FamilyBuiltView, FamilyPass, FamilyResolution, FamilySourceView, OwnedView,
    Placed,
};
use crate::cfamily::detector::{built_below, named_by, named_from, outside_builds};
use crate::cfamily::emitter::{
    decl_metadata, decl_node, owner_id, owning, read_path, with_decl, with_decls, with_directive, with_directives,
    with_facts, EmitContext,
};
use crate::cfamily::headers::{
    better_dialect, claimed, decl_at, faults, faults_of_kids, found_below, included_path, names_known, others, DeclView,
};
use crate::cfamily::visitor::{FactsView, FoundView, IncludeView, OwnerView, UseView};
use crate::cfamily::Dialect;
use crate::graph::{added_nodes_are_found, ids_find_nodes, node_at, GraphView};
use crate::ids::kind_id;
use crate::index::table_get;
use crate::meta::{lookup, stored, stored_then_found, MetaView, ValueView};
use crate::metrics::ResolverMetrics;
use crate::node::NodeKind;
use crate::paths::{directory, joined_path, leaves, relative_path};
use crate::relation::{RelationKind, RelationView};
use crate::selection::going_on_keeps;
use crate::status::ResolverStatus;
use crate::tree::{group_tree, TreeView};

verus! {

broadcast use group_tree;

/// The keys of metadata that are told apart differ.
proof fn keys_differ()
    ensures
        "access"@.len() == 6,
        "annotation"@.len() == 10,
        "declared_in"@.len() == 11,
        "is_definition"@.len() == 13,
        "is_enumerator"@.len() == 13,
        "is_extern"@.len() == 9,
        "is_static"@.len() == 9,
        "is_template"@.len() == 11,
        "is_virtual"@.len() == 10,
        "linkage"@.len() == 7,
        "name_span"@.len() == 9,
        "record_kind"@.len() == 11,
        "return_type"@.len() == 11,
        "signature"@.len() == 9,
        "annotation"@ != "is_virtual"@,
        "declared_in"@ != "is_template"@,
        "declared_in"@ != "record_kind"@,
        "declared_in"@ != "return_type"@,
        "is_definition"@ != "is_enumerator"@,
        "is_extern"@ != "is_static"@,
        "is_extern"@ != "name_span"@,
        "is_extern"@ != "signature"@,
        "is_static"@ != "name_span"@,
        "is_static"@ != "signature"@,
        "is_template"@ != "record_kind"@,
        "is_template"@ != "return_type"@,
        "name_span"@ != "signature"@,
        "record_kind"@ != "return_type"@,
{
    reveal_strlit("access");
    reveal_strlit("annotation");
    reveal_strlit("declared_in");
    reveal_strlit("is_definition");
    reveal_strlit("is_enumerator");
    reveal_strlit("is_extern");
    reveal_strlit("is_static");
    reveal_strlit("is_template");
    reveal_strlit("is_virtual");
    reveal_strlit("linkage");
    reveal_strlit("name_span");
    reveal_strlit("record_kind");
    reveal_strlit("return_type");
    reveal_strlit("signature");
    assert("annotation"@[0] != "is_virtual"@[0]);
    assert("declared_in"@[0] != "is_template"@[0]);
    assert("declared_in"@[0] != "record_kind"@[0]);
    assert("declared_in"@[0] != "return_type"@[0]);
    assert("is_definition"@[3] != "is_enumerator"@[3]);
    assert("is_extern"@[3] != "is_static"@[3]);
    assert("is_extern"@[0] != "name_span"@[0]);
    assert("is_extern"@[0] != "signature"@[0]);
    assert("is_static"@[0] != "name_span"@[0]);
    assert("is_static"@[0] != "signature"@[0]);
    assert("is_template"@[0] != "record_kind"@[0]);
    assert("is_template"@[0] != "return_type"@[0]);
    assert("name_span"@[0] != "signature"@[0]);
    assert("record_kind"@[2] != "return_type"@[2]);
}

// ---------------------------------------------------------------------------
// Declarations
// ---------------------------------------------------------------------------

/// A function or method says what is known of it.
pub proof fn callables_say_what_they_are(d: FoundView, files: Seq<Seq<char>>)
    requires
        d.kind is Function || d.kind is Method,
    ensures
        ({
            let m = decl_metadata(d, files);
            &&& lookup(m, "name_span"@) == Some(ValueView::Place(d.name_span))
            &&& lookup(m, "linkage"@) == Some(ValueView::Text(d.linkage.name()))
            &&& lookup(m, "is_definition"@) == Some(ValueView::Flag(d.defines))
            &&& lookup(m, "is_static"@) == Some(ValueView::Flag(d.is_static))
            &&& lookup(m, "is_virtual"@) == Some(ValueView::Flag(d.is_virtual))
            &&& lookup(m, "is_template"@) == Some(ValueView::Flag(d.is_template))
            &&& lookup(m, "signature"@) == Some(ValueView::Text(d.signature))
            &&& lookup(m, "return_type"@) == Some(ValueView::Text(d.type_text))
            &&& lookup(m, "access"@) == Some(ValueView::Text(d.access))
            &&& lookup(m, "declared_in"@) == Some(ValueView::Texts(files))
        }),
{
    keys_differ();
    let m0: MetaView = Seq::empty();
    let v1 = ValueView::Place(d.name_span);
    let m1 = stored(m0, "name_span"@, v1);
    let v2 = ValueView::Text(d.linkage.name());
    let m2 = stored(m1, "linkage"@, v2);
    let v3 = ValueView::Flag(d.defines);
    let m3 = stored(m2, "is_definition"@, v3);
    let v4 = ValueView::Flag(d.is_static);
    let m4 = stored(m3, "is_static"@, v4);
    let v5 = ValueView::Flag(d.is_virtual);
    let m5 = stored(m4, "is_virtual"@, v5);
    let v6 = ValueView::Flag(d.is_template);
    let m6 = stored(m5, "is_template"@, v6);
    let v7 = ValueView::Text(d.signature);
    let m7 = stored(m6, "signature"@, v7);
    let v8 = ValueView::Text(d.type_text);
    let m8 = stored(m7, "return_type"@, v8);
    let v9 = ValueView::Text(d.access);
    let m9 = stored(m8, "access"@, v9);
    let v10 = ValueView::Texts(files);
    let m10 = stored(m9, "declared_in"@, v10);
    assert forall|key: Seq<char>| #[trigger] lookup(m10, key) == lookup(m10, key) implies lookup(m10, key) == (if key == "declared_in"@ {
        Some(v10)
    } else if key == "access"@ {
        Some(v9)
    } else if key == "return_type"@ {
        Some(v8)
    } else if key == "signature"@ {
        Some(v7)
    } else if key == "is_template"@ {
        Some(v6)
    } else if key == "is_virtual"@ {
        Some(v5)
    } else if key == "is_static"@ {
        Some(v4)
    } else if key == "is_definition"@ {
        Some(v3)
    } else if key == "linkage"@ {
        Some(v2)
    } else if key == "name_span"@ {
        Some(v1)
    } else {
        lookup(m0, key)
    }) by {
        stored_then_found(m0, "name_span"@, v1, key);
        stored_then_found(m1, "linkage"@, v2, key);
        stored_then_found(m2, "is_definition"@, v3, key);
        stored_then_found(m3, "is_static"@, v4, key);
        stored_then_found(m4, "is_virtual"@, v5, key);
        stored_then_found(m5, "is_template"@, v6, key);
        stored_then_found(m6, "signature"@, v7, key);
        stored_then_found(m7, "return_type"@, v8, key);
        stored_then_found(m8, "access"@, v9, key);
        stored_then_found(m9, "declared_in"@, v10, key);
    }
    assert(decl_metadata(d, files) == m10);
}

/// A variable says what is known of it.
pub proof fn variables_say_what_they_are(d: FoundView, files: Seq<Seq<char>>)
    requires
        d.kind is Variable,
    ensures
        ({
            let m = decl_metadata(d, files);
            &&& lookup(m, "name_span"@) == Some(ValueView::Place(d.name_span))
            &&& lookup(m, "linkage"@) == Some(ValueView::Text(d.linkage.name()))
            &&& lookup(m, "is_definition"@) == Some(ValueView::Flag(d.defines))
            &&& lookup(m, "is_static"@) == Some(ValueView::Flag(d.is_static))
            &&& lookup(m, "is_extern"@) == Some(ValueView::Flag(d.is_extern))
            &&& lookup(m, "annotation"@) == Some(ValueView::Text(d.type_text))
            &&& lookup(m, "declared_in"@) == Some(ValueView::Texts(files))
        }),
{
    keys_differ();
    let m0: MetaView = Seq::empty();
    let v1 = ValueView::Place(d.name_span);
    let m1 = stored(m0, "name_span"@, v1);
    let v2 = ValueView::Text(d.linkage.name());
    let m2 = stored(m1, "linkage"@, v2);
    let v3 = ValueView::Flag(d.defines);
    let m3 = stored(m2, "is_definition"@, v3);
    let v4 = ValueView::Flag(d.is_static);
    let m4 = stored(m3, "is_static"@, v4);
    let v5 = ValueView::Flag(d.is_extern);
    let m5 = stored(m4, "is_extern"@, v5);
    let v6 = ValueView::Text(d.type_text);
    let m6 = stored(m5, "annotation"@, v6);
    let v7 = ValueView::Texts(files);
    let m7 = stored(m6, "declared_in"@, v7);
    assert forall|key: Seq<char>| #[trigger] lookup(m7, key) == lookup(m7, key) implies lookup(m7, key) == (if key == "declared_in"@ {
        Some(v7)
    } else if key == "annotation"@ {
        Some(v6)
    } else if key == "is_extern"@ {
        Some(v5)
    } else if key == "is_static"@ {
        Some(v4)
    } else if key == "is_definition"@ {
        Some(v3)
    } else if key == "linkage"@ {
        Some(v2)
    } else if key == "name_span"@ {
        Some(v1)
    } else {
        lookup(m0, key)
    }) by {
        stored_then_found(m0, "name_span"@, v1, key);
        stored_then_found(m1, "linkage"@, v2, key);
        stored_then_found(m2, "is_definition"@, v3, key);
        stored_then_found(m3, "is_static"@, v4, key);
        stored_then_found(m4, "is_extern"@, v5, key);
        stored_then_found(m5, "annotation"@, v6, key);
        stored_then_found(m6, "declared_in"@, v7, key);
    }
    assert(decl_metadata(d, files) == m7);
}

/// An attribute says what is known of it.
pub proof fn attributes_say_what_they_are(d: FoundView, files: Seq<Seq<char>>)
    requires
        d.kind is Attribute,
    ensures
        ({
            let m = decl_metadata(d, files);
            &&& lookup(m, "name_span"@) == Some(ValueView::Place(d.name_span))
            &&& lookup(m, "access"@) == Some(ValueView::Text(d.access))
            &&& lookup(m, "is_static"@) == Some(ValueView::Flag(d.is_static))
            &&& lookup(m, "annotation"@) == Some(ValueView::Text(d.type_text))
            &&& lookup(m, "is_enumerator"@) == Some(ValueView::Flag(d.record_kind == "enumerator"@))
            &&& lookup(m, "declared_in"@) == Some(ValueView::Texts(files))
        }),
{
    keys_differ();
    let m0: MetaView = Seq::empty();
    let v1 = ValueView::Place(d.name_span);
    let m1 = stored(m0, "name_span"@, v1);
    let v2 = ValueView::Text(d.access);
    let m2 = stored(m1, "access"@, v2);
    let v3 = ValueView::Flag(d.is_static);
    let m3 = stored(m2, "is_static"@, v3);
    let v4 = ValueView::Text(d.type_text);
    let m4 = stored(m3, "annotation"@, v4);
    let v5 = ValueView::Flag(d.record_kind == "enumerator"@);
    let m5 = stored(m4, "is_enumerator"@, v5);
    let v6 = ValueView::Texts(files);
    let m6 = stored(m5, "declared_in"@, v6);
    assert forall|key: Seq<char>| #[trigger] lookup(m6, key) == lookup(m6, key) implies lookup(m6, key) == (if key == "declared_in"@ {
        Some(v6)
    } else if key == "is_enumerator"@ {
        Some(v5)
    } else if key == "annotation"@ {
        Some(v4)
    } else if key == "is_static"@ {
        Some(v3)
    } else if key == "access"@ {
        Some(v2)
    } else if key == "name_span"@ {
        Some(v1)
    } else {
        lookup(m0, key)
    }) by {
        stored_then_found(m0, "name_span"@, v1, key);
        stored_then_found(m1, "access"@, v2, key);
        stored_then_found(m2, "is_static"@, v3, key);
        stored_then_found(m3, "annotation"@, v4, key);
        stored_then_found(m4, "is_enumerator"@, v5, key);
        stored_then_found(m5, "declared_in"@, v6, key);
    }
    assert(decl_metadata(d, files) == m6);
}

/// A class says what is known of it.
pub proof fn classes_say_what_they_are(d: FoundView, files: Seq<Seq<char>>)
    requires
        d.kind is Class,
    ensures
        ({
            let m = decl_metadata(d, files);
            &&& lookup(m, "name_span"@) == Some(ValueView::Place(d.name_span))
            &&& lookup(m, "record_kind"@) == Some(ValueView::Text(d.record_kind))
            &&& lookup(m, "linkage"@) == Some(ValueView::Text(d.linkage.name()))
            &&& lookup(m, "is_definition"@) == Some(ValueView::Flag(d.defines))
            &&& lookup(m, "is_template"@) == Some(ValueView::Flag(d.is_template))
            &&& lookup(m, "access"@) == Some(ValueView::Text(d.access))
            &&& lookup(m, "declared_in"@) == Some(ValueView::Texts(files))
        }),
{
    keys_differ();
    let m0: MetaView = Seq::empty();
    let v1 = ValueView::Place(d.name_span);
    let m1 = stored(m0, "name_span"@, v1);
    let v2 = ValueView::Text(d.record_kind);
    let m2 = stored(m1, "record_kind"@, v2);
    let v3 = ValueView::Text(d.linkage.name());
    let m3 = stored(m2, "linkage"@, v3);
    let v4 = ValueView::Flag(d.defines);
    let m4 = stored(m3, "is_definition"@, v4);
    let v5 = ValueView::Flag(d.is_template);
    let m5 = stored(m4, "is_template"@, v5);
    let v6 = ValueView::Text(d.access);
    let m6 = stored(m5, "access"@, v6);
    let v7 = ValueView::Texts(files);
    let m7 = stored(m6, "declared_in"@, v7);
    assert forall|key: Seq<char>| #[trigger] lookup(m7, key) == lookup(m7, key) implies lookup(m7, key) == (if key == "declared_in"@ {
        Some(v7)
    } else if key == "access"@ {
        Some(v6)
    } else if key == "is_template"@ {
        Some(v5)
    } else if key == "is_definition"@ {
        Some(v4)
    } else if key == "linkage"@ {
        Some(v3)
    } else if key == "record_kind"@ {
        Some(v2)
    } else if key == "name_span"@ {
        Some(v1)
    } else {
        lookup(m0, key)
    }) by {
        stored_then_found(m0, "name_span"@, v1, key);
        stored_then_found(m1, "record_kind"@, v2, key);
        stored_then_found(m2, "linkage"@, v3, key);
        stored_then_found(m3, "is_definition"@, v4, key);
        stored_then_found(m4, "is_template"@, v5, key);
        stored_then_found(m5, "access"@, v6, key);
        stored_then_found(m6, "declared_in"@, v7, key);
    }
    assert(decl_metadata(d, files) == m7);
}

/// A declaration is declared by its owner, and by its file where it has another owner and is
/// no parameter. Its node is written where it is the site that owns the name.
pub proof fn declarations_have_owners(g: GraphView, c: EmitContext, file_rel: Seq<char>, file_id: Seq<char>, d: FoundView)
    ensures
        ({
            let id = kind_id(c.project, d.qualified_name, d.kind);
            let owner = match d.owner {
                OwnerView::File => file_id,
                OwnerView::Decl { qualified_name, kind } => kind_id(c.project, qualified_name, kind),
            };
            let after = with_decl(g, c, file_rel, file_id, d);
            &&& graph_grown(g, after)
            &&& after.relations.last() == (RelationView {
                source_id: owner,
                target_id: id,
                kind: RelationKind::Declares,
                metadata: Seq::empty(),
            })
            &&& !(d.kind is Parameter) && owner != file_id ==> after.relations.len() == g.relations.len() + 2
                && after.relations[g.relations.len() as int] == (RelationView {
                source_id: file_id,
                target_id: id,
                kind: RelationKind::Declares,
                metadata: Seq::empty(),
            })
            &&& d.kind is Parameter || owner == file_id ==> after.relations.len() == g.relations.len() + 1
            &&& !owning(c.entries, file_rel, d) ==> after.nodes == g.nodes
            &&& owning(c.entries, file_rel, d) && node_at(g.nodes, id) is None ==> ({
                let x = node_at(after.nodes, id);
                &&& x is Some
                &&& x->0.kind == d.kind
                &&& x->0.qualified_name == d.qualified_name
                &&& x->0.name == d.name
                &&& x->0.file_path == Some(file_rel)
                &&& x->0.span == Some(d.span)
            })
        }),
{
    let node = decl_node(c, file_rel, d);
    added_nodes_are_found(g, node, node.id);
}

/// A name belongs to one site of one file.
pub proof fn sites_own_names(entries: Seq<DeclView>, file_rel: Seq<char>, d: FoundView, e: DeclView)
    requires
        decl_at(entries, d.kind, d.qualified_name) == Some(e),
    ensures
        owning(entries, file_rel, d) <==> e.owner.file_rel == file_rel && e.owner.span == d.span,
{
}

/// The other files of a name are those that declare it, without the file that owns it.
pub proof fn other_files_are_the_rest(files: Seq<Seq<char>>, file: Seq<char>, n: int, x: Seq<char>)
    requires
        0 <= n <= files.len(),
    ensures
        others(files, file, n).contains(x) <==> x != file && exists|j: int| 0 <= j < n && #[trigger] files[j] == x,
    decreases n,
{
    if n > 0 {
        other_files_are_the_rest(files, file, n - 1, x);
        let earlier = others(files, file, n - 1);
        let r = others(files, file, n);
        if files[n - 1] != file {
            assert(r[earlier.len() as int] == files[n - 1]);
            if earlier.contains(x) {
                let i = choose|i: int| 0 <= i < earlier.len() && earlier[i] == x;
                assert(r[i] == x);
            }
        }
        assert(files[n - 1] == files[n - 1]);
    }
}

proof fn decls_add(g: GraphView, c: EmitContext, file_rel: Seq<char>, file_id: Seq<char>, decls: Seq<FoundView>, j: int, k: int)
    requires
        0 <= j <= k <= decls.len(),
    ensures
        graph_grown(with_decls(g, c, file_rel, file_id, decls, j), with_decls(g, c, file_rel, file_id, decls, k)),
        with_decls(g, c, file_rel, file_id, decls, 0) == g,
    decreases k,
{
    if j < k {
        decls_add(g, c, file_rel, file_id, decls, j, k - 1);
        declarations_have_owners(with_decls(g, c, file_rel, file_id, decls, k - 1), c, file_rel, file_id, decls[k - 1]);
    }
}

proof fn directives_add(g: GraphView, c: EmitContext, file_rel: Seq<char>, file_id: Seq<char>, list: Seq<IncludeView>, j: int, k: int)
    requires
        0 <= j <= k <= list.len(),
    ensures
        graph_grown(with_directives(g, c, file_rel, file_id, list, j), with_directives(g, c, file_rel, file_id, list, k)),
        with_directives(g, c, file_rel, file_id, list, 0) == g,
    decreases k,
{
    if j < k {
        directives_add(g, c, file_rel, file_id, list, j, k - 1);
    }
}

/// Every declaration of a file is declared by its owner.
pub proof fn files_declare_what_they_hold(g: GraphView, c: EmitContext, facts: FactsView, file_id: Seq<char>, j: int)
    requires
        0 <= j < facts.declarations.len(),
    ensures
        with_facts(g, c, facts, file_id).relations.contains(
            RelationView {
                source_id: match facts.declarations[j].owner {
                    OwnerView::File => file_id,
                    OwnerView::Decl { qualified_name, kind } => kind_id(c.project, qualified_name, kind),
                },
                target_id: kind_id(c.project, facts.declarations[j].qualified_name, facts.declarations[j].kind),
                kind: RelationKind::Declares,
                metadata: Seq::empty(),
            },
        ),
        graph_grown(g, with_facts(g, c, facts, file_id)),
{
    let k = facts.declarations.len() as int;
    let d = facts.declarations[j];
    let before = with_decls(g, c, facts.file_rel, file_id, facts.declarations, j);
    let here = with_decls(g, c, facts.file_rel, file_id, facts.declarations, j + 1);
    let all = with_decls(g, c, facts.file_rel, file_id, facts.declarations, k);
    declarations_have_owners(before, c, facts.file_rel, file_id, d);
    decls_add(g, c, facts.file_rel, file_id, facts.declarations, j + 1, k);
    decls_add(g, c, facts.file_rel, file_id, facts.declarations, 0, k);
    directives_add(all, c, facts.file_rel, file_id, facts.includes, 0, facts.includes.len() as int);
    let edge = here.relations.last();
    assert(here.relations[here.relations.len() - 1] == edge);
    assert(here.relations.contains(edge));
    going_on_keeps(here.relations, with_facts(g, c, facts, file_id).relations, edge);
}

// ---------------------------------------------------------------------------
// Files that are read in
// ---------------------------------------------------------------------------

/// A directive is declared by its file. Where it names a file of the project the file
/// imports that file, and where it does not it imports a symbol outside.
pub proof fn directives_lead_to_files(g: GraphView, c: EmitContext, file_rel: Seq<char>, file_id: Seq<char>, i: IncludeView)
    ensures
        ({
            let id = kind_id(c.project, file_rel + "::"@ + i.path, NodeKind::Import);
            let target = match read_path(c, file_rel, i) {
                Some(path) => kind_id(c.project, path, NodeKind::File),
                None => kind_id(c.project, i.path, NodeKind::ExternalSymbol),
            };
            let after = with_directive(g, c, file_rel, file_id, i);
            let k = g.relations.len() as int;
            &&& graph_grown(g, after)
            &&& after.relations.len() == k + 3
            &&& after.relations[k] == (RelationView {
                source_id: file_id,
                target_id: id,
                kind: RelationKind::Declares,
                metadata: Seq::empty(),
            })
            &&& after.relations[k + 1] == (RelationView {
                source_id: file_id,
                target_id: target,
                kind: RelationKind::Imports,
                metadata: Seq::empty(),
            })
            &&& after.relations[k + 2] == (RelationView {
                source_id: id,
                target_id: target,
                kind: RelationKind::ResolvesTo,
                metadata: Seq::empty(),
            })
            &&& i.style == "computed"@ ==> read_path(c, file_rel, i) is None
            &&& i.style == "quoted"@ ==> read_path(c, file_rel, i) == included_path(
                i.path,
                true,
                file_rel,
                c.search_dirs,
                c.known_files,
            )
            &&& i.style != "quoted"@ && i.style != "computed"@ ==> read_path(c, file_rel, i) == included_path(
                i.path,
                false,
                file_rel,
                c.search_dirs,
                c.known_files,
            )
        }),
{
    reveal_strlit("computed");
    reveal_strlit("quoted");
    assert("computed"@.len() != "quoted"@.len());
}

/// A quoted path is looked for beside the file first; any path is found in the first
/// directory that has it, and is a file that is known.
pub proof fn paths_are_found_in_order(raw: Seq<char>, includer: Seq<char>, dirs: Seq<Seq<char>>, known: Seq<Seq<char>>, j: int)
    ensures
        ({
            let beside = joined_path(directory(includer), raw);
            let found = included_path(raw, true, includer, dirs, known);
            let searched = included_path(raw, false, includer, dirs, known);
            &&& !leaves(directory(includer), raw) && known.contains(beside) ==> found == Some(beside)
            &&& leaves(directory(includer), raw) || !known.contains(beside) ==> found == searched
            &&& searched is Some ==> known.contains(searched->0)
            &&& found is Some ==> known.contains(found->0)
            &&& 0 <= j < dirs.len() && !leaves(dirs[j], raw) && known.contains(joined_path(dirs[j], raw)) && (forall|i: int|
                0 <= i < j ==> leaves(#[trigger] dirs[i], raw) || !known.contains(joined_path(dirs[i], raw))) ==> searched
                == Some(joined_path(dirs[j], raw))
        }),
{
    found_is_known(raw, dirs, known, 0);
    if 0 <= j < dirs.len() && !leaves(dirs[j], raw) && known.contains(joined_path(dirs[j], raw)) && (forall|i: int|
        0 <= i < j ==> leaves(#[trigger] dirs[i], raw) || !known.contains(joined_path(dirs[i], raw))) {
        found_is_first(raw, dirs, known, 0, j);
    }
}

proof fn found_is_known(raw: Seq<char>, dirs: Seq<Seq<char>>, known: Seq<Seq<char>>, i: int)
    requires
        0 <= i,
    ensures
        found_below(dirs, raw, known, i) is Some ==> known.contains(found_below(dirs, raw, known, i)->0),
    decreases dirs.len() - i,
{
    if i < dirs.len() {
        found_is_known(raw, dirs, known, i + 1);
    }
}

proof fn found_is_first(raw: Seq<char>, dirs: Seq<Seq<char>>, known: Seq<Seq<char>>, i: int, j: int)
    requires
        0 <= i <= j < dirs.len(),
        names_known(dirs[j], raw, known),
        forall|k: int| i <= k < j ==> leaves(#[trigger] dirs[k], raw) || !known.contains(joined_path(dirs[k], raw)),
    ensures
        found_below(dirs, raw, known, i) == Some(joined_path(dirs[j], raw)),
    decreases j - i,
{
    if i < j {
        assert(leaves(dirs[i], raw) || !known.contains(joined_path(dirs[i], raw)));
        found_is_first(raw, dirs, known, i + 1, j);
    }
}

// ---------------------------------------------------------------------------
// Files of a project
// ---------------------------------------------------------------------------

/// The sources of a dialect are those that the dialect claims, under their path in the
/// project.
pub proof fn claimed_sources_are_read(dialect: Dialect, project_root: Seq<char>, dir: Seq<char>, files: Seq<FamilySourceView>, n: int, j: int)
    requires
        0 <= j < n <= files.len(),
    ensures
        files[j].source is Some && claimed(dialect, files[j].path, files[j].source->0) == Some(true) ==> owned_sources(
            dialect,
            project_root,
            dir,
            files,
            n,
        ).contains(
            OwnedView {
                file_rel: relative_path(files[j].path, project_root, dir),
                source: files[j].source->0,
                extra: files[j].extra,
            },
        ),
        owned_sources(dialect, project_root, dir, files, n).len() <= n,
    decreases n,
{
    let earlier = owned_sources(dialect, project_root, dir, files, n - 1);
    let all = owned_sources(dialect, project_root, dir, files, n);
    let x = OwnedView {
        file_rel: relative_path(files[j].path, project_root, dir),
        source: files[j].source->0,
        extra: files[j].extra,
    };
    if n > 1 {
        claimed_sources_are_read(dialect, project_root, dir, files, n - 1, if j < n - 1 {
            j
        } else {
            0
        });
    } else {
        assert(owned_sources(dialect, project_root, dir, files, 0).len() == 0);
    }
    if reads(dialect, files[j]) {
        if j == n - 1 {
            assert(all[earlier.len() as int] == x);
        } else {
            let i = choose|i: int| 0 <= i < earlier.len() && earlier[i] == x;
            assert(all[i] == x);
        }
    }
}

/// A file that is new stands in the module of its directory, which the project contains; a
/// file at the root stands in the module of the project.
pub proof fn files_stand_in_directories(p: Placed, project: Seq<char>, project_id: Seq<char>, file_rel: Seq<char>)
    requires
        node_at(p.graph.nodes, kind_id(project, file_rel, NodeKind::File)) is None,
    ensures
        ({
            let id = kind_id(project, file_rel, NodeKind::File);
            let qname = if directory(file_rel).len() == 0 {
                project
            } else {
                directory(file_rel)
            };
            let module = match table_get(p.modules, qname) {
                Some(m) => m,
                None => kind_id(project, qname, NodeKind::Module),
            };
            let after = with_family_file(p, project, project_id, file_rel);
            let k = p.graph.relations.len() as int;
            &&& graph_grown(p.graph, after.graph)
            &&& after.graph.relations.last() == (RelationView {
                source_id: module,
                target_id: id,
                kind: RelationKind::Contains,
                metadata: Seq::empty(),
            })
            &&& table_get(p.modules, qname) is None ==> after.graph.relations[k] == (RelationView {
                source_id: project_id,
                target_id: module,
                kind: RelationKind::Contains,
                metadata: Seq::empty(),
            }) && node_at(after.graph.nodes, module) is Some
            &&& node_at(after.graph.nodes, id) is Some
        }),
{
    let node = family_file(project, file_rel);
    ids_find_nodes(p.graph.nodes, node.id);
    added_nodes_are_found(p.graph, node, node.id);
    let g = p.graph.insert(node);
    let qname = module_of(file_rel, project);
    let m = module_node(project, qname);
    added_nodes_are_found(g, m, m.id);
    added_nodes_are_found(g, m, node.id);
}

/// A use that the index does not know leads to a symbol outside that is named by the use and
/// its place; one whose owner or target is not in the graph is counted and leads nowhere.
pub proof fn unknown_uses_lead_outside(project: Seq<char>, p: FamilyPass, file_rel: Seq<char>, file_id: Seq<char>, u: UseView, kind: RelationKind, target: (Seq<char>, NodeKind))
    requires
        edge_of_role(u.role) == Some(kind),
    ensures
        ({
            let owner = owner_id(project, u.owner, file_id);
            let unknown = family_step(project, p, file_rel, file_id, u, None);
            let known = family_step(project, p, file_rel, file_id, u, Some(target));
            &&& p.graph.has(owner) ==> unknown.graph.relations.len() == p.graph.relations.len() + 1
                && unknown.graph.relations.last().source_id == owner && unknown.graph.relations.last().kind == kind
                && unknown.graph.relations.last().target_id == kind_id(
                project,
                unknown_key(file_rel, u),
                NodeKind::ExternalSymbol,
            ) && unknown.external == p.external + 1 && unknown.resolved == p.resolved + 1 && unknown.internal == p.internal
            &&& !p.graph.has(owner) ==> unknown.graph == p.graph && unknown.unresolved == p.unresolved + 1
            &&& !p.graph.has(kind_id(project, target.0, target.1)) ==> known.graph == p.graph && known.unresolved
                == p.unresolved + 1 && known.resolved == p.resolved
            &&& unknown.queries == p.queries + 1 && known.queries == p.queries + 1
        }),
{
}

// ---------------------------------------------------------------------------
// Dialects and projects
// ---------------------------------------------------------------------------

/// A header that both dialects can read is C unless C finds faults in it and C++ finds
/// fewer.
pub proof fn ambiguous_headers_are_c_unless_cpp_fits_better(as_c: TreeView, as_cpp: TreeView)
    ensures
        !as_c.nodes[0].has_error ==> better_dialect(as_c, as_cpp) is C,
        as_c.nodes[0].has_error && faults(as_cpp, 0).len() < faults(as_c, 0).len() ==> better_dialect(as_c, as_cpp) is Cpp,
        faults(as_cpp, 0).len() >= faults(as_c, 0).len() ==> better_dialect(as_c, as_cpp) is C,
{
}

/// The faults of a tree are its errors and its missing nodes.
pub proof fn faults_are_errors(t: TreeView, n: usize)
    ensures
        forall|i: int|
            0 <= i < faults(t, n).len() ==> t.nodes[(#[trigger] faults(t, n)[i]) as int].error || t.nodes[faults(
                t,
                n,
            )[i] as int].missing,
        t.nodes[n as int].error || t.nodes[n as int].missing ==> faults(t, n).len() > 0,
    decreases t.nodes.len() - n, t.kids(n).len() + 1,
{
    let own: Seq<usize> = if t.nodes[n as int].error || t.nodes[n as int].missing {
        seq![n]
    } else {
        Seq::empty()
    };
    if t.nodes[n as int].has_error {
        faults_of_kids_are_errors(t, n, t.kids(n).len() as int);
        let rest = faults_of_kids(t, n, t.kids(n).len() as int);
        let all = faults(t, n);
        assert(all == own + rest);
        assert forall|i: int| 0 <= i < all.len() implies t.nodes[(#[trigger] all[i]) as int].error || t.nodes[all[i] as int].missing by {
            if i < own.len() {
                assert(all[i] == own[i]);
            } else {
                assert(all[i] == rest[i - own.len()]);
            }
        }
    }
}

proof fn faults_of_kids_are_errors(t: TreeView, n: usize, k: int)
    ensures
        forall|i: int|
            0 <= i < faults_of_kids(t, n, k).len() ==> t.nodes[(#[trigger] faults_of_kids(t, n, k)[i]) as int].error
                || t.nodes[faults_of_kids(t, n, k)[i] as int].missing,
    decreases t.nodes.len() - n, k,
{
    if 0 < k <= t.kids(n).len() {
        faults_of_kids_are_errors(t, n, k - 1);
        faults_are_errors(t, t.kids(n)[k - 1]);
        let a = faults_of_kids(t, n, k - 1);
        let b = faults(t, t.kids(n)[k - 1]);
        let all = faults_of_kids(t, n, k);
        assert(all == a + b);
        assert forall|i: int| 0 <= i < all.len() implies t.nodes[(#[trigger] all[i]) as int].error || t.nodes[all[i] as int].missing by {
            if i < a.len() {
                assert(all[i] == a[i]);
            } else {
                assert(all[i] == b[i - a.len()]);
            }
        }
    }
}

/// The files outside of build directories are kept, in order, and no other.
pub proof fn files_of_builds_are_left_out(files: Seq<Seq<char>>, root: Seq<char>, n: int, x: Seq<char>)
    requires
        0 <= n <= files.len(),
    ensures
        outside_builds(files, root, n).contains(x) <==> !built_below(x, root) && exists|j: int| 0 <= j < n && #[trigger] files[j] == x,
    decreases n,
{
    if n > 0 {
        files_of_builds_are_left_out(files, root, n - 1, x);
        let earlier = outside_builds(files, root, n - 1);
        let all = outside_builds(files, root, n);
        if !built_below(files[n - 1], root) {
            assert(all[earlier.len() as int] == files[n - 1]);
            if earlier.contains(x) {
                let i = choose|i: int| 0 <= i < earlier.len() && earlier[i] == x;
                assert(all[i] == x);
            }
        }
        assert(files[n - 1] == files[n - 1]);
    }
}

/// A project is called what the first line that names it says, and without one what its
/// directory is called.
pub proof fn listfiles_name_projects(all: Seq<Seq<char>>, i: int, j: int)
    requires
        0 <= i <= j <= all.len(),
        forall|k: int| i <= k < j ==> named_by(#[trigger] all[k]) is None,
    ensures
        j < all.len() && named_by(all[j]) is Some ==> named_from(all, i) == named_by(all[j]),
        j == all.len() ==> named_from(all, i) is None,
    decreases j - i,
{
    if i < j {
        assert(named_by(all[i]) is None);
        listfiles_name_projects(all, i + 1, j);
    }
}

// ---------------------------------------------------------------------------
// Outcomes
// ---------------------------------------------------------------------------

/// Whether the counts of a pass add up: what was asked is resolved or not, and what is
/// resolved leads inside or outside.
pub open spec fn adds_up(p: FamilyPass) -> bool {
    p.resolved + p.unresolved == p.queries && p.internal + p.external == p.resolved
}

proof fn file_passes_add_up(project: Seq<char>, p: FamilyPass, file: AnalysedView, answers: Seq<Option<(Seq<char>, NodeKind)>>, k: int)
    requires
        adds_up(p),
    ensures
        adds_up(family_file_pass(project, p, file, answers, k)),
        graph_grown(p.graph, family_file_pass(project, p, file, answers, k).graph),
    decreases k,
{
    if 0 < k <= file.facts.occurrences.len() {
        file_passes_add_up(project, p, file, answers, k - 1);
    }
}

proof fn root_passes_add_up(
    project: Seq<char>,
    p: FamilyPass,
    files: Seq<AnalysedView>,
    answers: Seq<Seq<Option<(Seq<char>, NodeKind)>>>,
    n: int,
)
    requires
        adds_up(p),
    ensures
        adds_up(family_pass(project, p, files, answers, n)),
        graph_grown(p.graph, family_pass(project, p, files, answers, n).graph),
    decreases n,
{
    if 0 < n <= files.len() {
        root_passes_add_up(project, p, files, answers, n - 1);
        let earlier = family_pass(project, p, files, answers, n - 1);
        file_passes_add_up(project, earlier, files[n - 1], answers[n - 1], files[n - 1].facts.occurrences.len() as int);
    }
}

/// Every use that is asked in any root is either resolved or not, and every resolved one
/// leads either inside or outside; a pass keeps what the graph held.
pub proof fn uses_are_counted_once(
    g: GraphView,
    roots: Seq<FamilyBuiltView>,
    answers: Seq<Seq<Seq<Option<(Seq<char>, NodeKind)>>>>,
    n: int,
)
    ensures
        adds_up(family_passes(g, roots, answers, n)),
        graph_grown(g, family_passes(g, roots, answers, n).graph),
    decreases n,
{
    if 0 < n <= roots.len() {
        uses_are_counted_once(g, roots, answers, n - 1);
        let before = family_passes(g, roots, answers, n - 1);
        let b = roots[n - 1];
        root_passes_add_up(b.project, no_pass(before.graph), b.files, answers[n - 1], b.files.len() as int);
    }
}

/// A finished graph says how its resolution went: the status of the resolver, or that there
/// was none, with the time that it took.
pub proof fn outcomes_are_noted(
    g: GraphView,
    roots: Seq<FamilyBuiltView>,
    resolution: Option<FamilyResolution>,
    m: ResolverMetrics,
)
    requires
        lookup(family_completed(g, roots, resolution).metadata, "resolver_metrics"@) == Some(ValueView::Counters(m)),
    ensures
        ({
            let status = lookup(family_completed(g, roots, resolution).metadata, "resolver_status"@);
            &&& resolution is None ==> status == Some(ValueView::Text("unavailable"@)) && m.queries == 0 && m.resolved == 0
                && m.unresolved == 0 && m.internal == 0 && m.external == 0 && m.micros == 0
            &&& resolution matches Some(r) ==> status == Some(ValueView::Text(r.status.name())) && m.micros == r.micros && ({
                let p = family_passes(g, roots, root_answers(r.answers@), roots.len() as int);
                p.queries <= u64::MAX ==> m.queries == p.queries && m.resolved + m.unresolved == m.queries && m.internal
                    + m.external == m.resolved
            })
        }),
{
    let n = roots.len() as int;
    reveal_strlit("resolver_status");
    reveal_strlit("resolver_metrics");
    assert("resolver_status"@.len() == 15 && "resolver_metrics"@.len() == 16);
    let (full, status, counters) = match resolution {
        Some(r) => {
            let p = family_passes(g, roots, root_answers(r.answers@), n);
            (with_family_ports(p.graph, roots, n), r.status, family_counters(p, r.micros))
        },
        None => (with_family_ports(g, roots, n), ResolverStatus::Unavailable, ResolverMetrics::zero()),
    };
    let first = full.note("resolver_status"@, ValueView::Text(status.name()));
    stored_then_found(full.metadata, "resolver_status"@, ValueView::Text(status.name()), "resolver_metrics"@);
    stored_then_found(first.metadata, "resolver_metrics"@, ValueView::Counters(counters), "resolver_status"@);
    if resolution is Some {
        uses_are_counted_once(g, roots, root_answers((resolution->0).answers@), n);
    }
}

} // verus!
