//! What the dependencies of a project promise.

use vstd::prelude::*;

use crate::dependencies::{declared, dependency_node, distinct, sorted_names, text_keys};
use crate::golang::deps::{
    first_segment, import_origin, module_from, module_line, required_line, required_lines, starts_blank, unindented,
    within_module,
};
use crate::graph::{added_nodes_are_found, ids_find_nodes, node_at, GraphView};
use crate::ids::kind_id;
use crate::json::{member_from, JsonView};
use crate::node::NodeKind;
use crate::order::{key_before, picked, sort_order, sorting_is_ascending, sorting_is_permutation};
use crate::php::deps::{
    builtin, php_origin, platform, required_vendors, vendor_of, vendors_of, with_lock_section, with_locked,
    with_required, with_requirements,
};
use crate::php::detector::{has_prefix, mapped_dir, php_name, with_members, with_prefix};
use crate::relation::{plain_edge, RelationKind, RelationView};
use crate::selection::{goes_on, going_on_keeps};
use crate::strings::{begins, cut, has_char, strip_front, trimmed, trimmed_start, without_leading, words};
use crate::text::{lowercase, with_new};

verus! {

// ---------------------------------------------------------------------------
// Names
// ---------------------------------------------------------------------------

proof fn new_is_held<A>(s: Seq<A>, x: A, y: A)
    ensures
        with_new(s, x).contains(y) <==> s.contains(y) || y == x,
{
    let r = with_new(s, x);
    if !s.contains(x) {
        assert(r[s.len() as int] == x);
        if s.contains(y) {
            let i = choose|i: int| 0 <= i < s.len() && s[i] == y;
            assert(r[i] == y);
        }
    }
}

/// A list of distinct names holds each name of the list once, and no other.
pub proof fn distinct_names_are_the_names(names: Seq<Seq<char>>, n: int, x: Seq<char>)
    requires
        0 <= n <= names.len(),
    ensures
        distinct(names, n).contains(x) <==> exists|j: int| 0 <= j < n && #[trigger] names[j] == x,
        distinct(names, n).no_duplicates(),
    decreases n,
{
    if n > 0 {
        distinct_names_are_the_names(names, n - 1, x);
        distinct_names_are_the_names(names, n - 1, names[n - 1]);
        new_is_held(distinct(names, n - 1), names[n - 1], x);
        assert(names[n - 1] == names[n - 1]);
    }
}

/// Sorted names are the names that were given, each once, and none before one that orders
/// before it.
pub proof fn sorted_names_are_the_names(names: Seq<Seq<char>>, x: Seq<char>, i: int, j: int)
    ensures
        sorted_names(names).contains(x) <==> names.contains(x),
        0 <= i < j < sorted_names(names).len() ==> !key_before(seq![sorted_names(names)[j]], seq![sorted_names(names)[i]]),
{
    let d = distinct(names, names.len() as int);
    let keys = text_keys(d);
    let order = sort_order(keys);
    let r = sorted_names(names);
    distinct_names_are_the_names(names, names.len() as int, x);
    sorting_is_permutation(keys, keys.len() as int);
    sorting_is_ascending(keys, keys.len() as int);
    if d.contains(x) {
        let p = choose|p: int| 0 <= p < d.len() && d[p] == x;
        assert(order.contains(p));
        let k = choose|k: int| 0 <= k < order.len() && order[k] == p;
        assert(r[k] == x);
    }
    if r.contains(x) {
        let k = choose|k: int| 0 <= k < r.len() && r[k] == x;
        assert(d[order[k]] == x);
    }
    if names.contains(x) {
        let p = choose|p: int| 0 <= p < names.len() && names[p] == x;
        assert(names[p] == x);
    }
    if 0 <= i < j < r.len() {
        let sorted = picked(keys, order);
        assert(sorted[i] == seq![r[i]]);
        assert(sorted[j] == seq![r[j]]);
        assert(!key_before(sorted[j], sorted[i]));
    }
}

proof fn declaring_adds(g: GraphView, project: Seq<char>, project_id: Seq<char>, names: Seq<Seq<char>>, j: int, n: int)
    requires
        0 <= j <= n <= names.len(),
    ensures
        goes_on(declared(g, project, project_id, names, j).nodes, declared(g, project, project_id, names, n).nodes),
        goes_on(
            declared(g, project, project_id, names, j).relations,
            declared(g, project, project_id, names, n).relations,
        ),
    decreases n,
{
    if j < n {
        declaring_adds(g, project, project_id, names, j, n - 1);
    }
}

/// The project depends on every dependency that has a name.
pub proof fn projects_depend_on_their_dependencies(
    g: GraphView,
    project: Seq<char>,
    project_id: Seq<char>,
    names: Seq<Seq<char>>,
    n: int,
    j: int,
)
    requires
        0 <= j < n <= names.len(),
        names[j].len() > 0,
    ensures
        ({
            let after = declared(g, project, project_id, names, n);
            let id = kind_id(project, names[j], NodeKind::Dependency);
            &&& after.relations.contains(
                RelationView { source_id: project_id, target_id: id, kind: RelationKind::DependsOn, metadata: Seq::empty() },
            )
            &&& node_at(after.nodes, id) is Some
        }),
{
    declaring_adds(g, project, project_id, names, j + 1, n);
    let before = declared(g, project, project_id, names, j);
    let here = declared(g, project, project_id, names, j + 1);
    let after = declared(g, project, project_id, names, n);
    let node = dependency_node(project, names[j]);
    let edge = plain_edge(project_id, node.id, RelationKind::DependsOn);
    assert(here.relations[here.relations.len() - 1] == edge);
    assert(here.relations.contains(edge));
    going_on_keeps(here.relations, after.relations, edge);
    added_nodes_are_found(before, node, node.id);
    ids_find_nodes(here.nodes, node.id);
    ids_find_nodes(after.nodes, node.id);
    let i = choose|i: int| 0 <= i < here.nodes.len() && (#[trigger] here.nodes[i]).id == node.id;
    assert(after.nodes[i].id == node.id);
}

// ---------------------------------------------------------------------------
// PHP
// ---------------------------------------------------------------------------

/// A package is written as its vendor, a slash and its name; a name without a slash has no
/// vendor.
pub proof fn packages_begin_with_their_vendor(package: Seq<char>, vendor: Seq<char>, rest: Seq<char>)
    ensures
        cut(package, "/"@) == Some((vendor, rest)) && lowercase(trimmed(vendor)).len() > 0 ==> vendor_of(package) == Some(
            lowercase(trimmed(vendor)),
        ),
        cut(package, "/"@) is None ==> vendor_of(package) is None,
{
}

/// The vendors of a section are those that were known and those of its packages that are
/// not of the platform.
pub proof fn sections_name_vendors(vendors: Seq<Seq<char>>, members: Seq<(Seq<char>, JsonView)>, n: int, v: Seq<char>)
    requires
        0 <= n <= members.len(),
    ensures
        with_required(vendors, members, n).contains(v) <==> vendors.contains(v) || exists|j: int|
            0 <= j < n && vendor_of((#[trigger] members[j]).0) == Some(v) && members[j].0 != "php"@ && !begins(
                members[j].0,
                "ext-"@,
            ) && !begins(members[j].0, "lib-"@) && !begins(members[j].0, "php-"@),
    decreases n,
{
    if n > 0 {
        sections_name_vendors(vendors, members, n - 1, v);
        let name = members[n - 1].0;
        if vendor_of(name) is Some {
            new_is_held(with_required(vendors, members, n - 1), vendor_of(name)->0, v);
        }
    }
}

/// The vendors of a list of locked packages are those that were known and those of its
/// packages.
pub proof fn locked_packages_name_vendors(vendors: Seq<Seq<char>>, packages: Seq<JsonView>, n: int, v: Seq<char>)
    requires
        0 <= n <= packages.len(),
    ensures
        with_locked(vendors, packages, n).contains(v) <==> vendors.contains(v) || exists|j: int|
            0 <= j < n && (#[trigger] packages[j]).get("name"@) is Some && packages[j].get("name"@)->0 is Text && vendor_of(
                packages[j].get("name"@)->0->Text_0,
            ) == Some(v),
    decreases n,
{
    if n > 0 {
        locked_packages_name_vendors(vendors, packages, n - 1, v);
        match packages[n - 1].get("name"@) {
            Some(JsonView::Text(name)) => {
                if vendor_of(name) is Some {
                    new_is_held(with_locked(vendors, packages, n - 1), vendor_of(name)->0, v);
                }
            },
            _ => {},
        }
    }
}

/// A package that the manifest requires, for use or for development, has its vendor among
/// those of the project.
pub proof fn required_packages_have_vendors(manifest: JsonView, lock: JsonView, key: Seq<char>, members: Seq<(Seq<char>, JsonView)>, j: int, v: Seq<char>)
    requires
        key == "require"@ || key == "require-dev"@,
        manifest.get(key) == Some(JsonView::Object(members)),
        0 <= j < members.len(),
        !platform(members[j].0),
        vendor_of(members[j].0) == Some(v),
    ensures
        vendors_of(manifest, lock).contains(v),
{
    let none = Seq::<Seq<char>>::empty();
    let first = with_requirements(none, manifest.get("require"@));
    assert(vendor_of(members[j].0) == Some(v));
    if key == "require"@ {
        sections_name_vendors(none, members, members.len() as int, v);
    } else {
        sections_name_vendors(first, members, members.len() as int, v);
    }
    let second = required_vendors(manifest);
    if let Some(JsonView::Object(o)) = manifest.get("require-dev"@) {
        sections_name_vendors(first, o, o.len() as int, v);
    }
    assert(second.contains(v));
    let third = with_lock_section(second, lock.get("packages"@));
    if let Some(JsonView::List(l)) = lock.get("packages"@) {
        locked_packages_name_vendors(second, l, l.len() as int, v);
    }
    if let Some(JsonView::List(l)) = lock.get("packages-dev"@) {
        locked_packages_name_vendors(third, l, l.len() as int, v);
    }
}

/// An imported name is of the language where it has one part and the language has it; else
/// the project's own where its first part is; else a third party's where a vendor is
/// called like it, in any case; else unknown.
pub proof fn imported_names_belong_to_their_first_part(path: Seq<char>, internal: Seq<Seq<char>>, vendors: Seq<Seq<char>>, top: Seq<char>)
    requires
        crate::php::deps::first_segment(path) == top,
        top.len() > 0,
    ensures
        ({
            let alone = !has_char(without_leading(path, '\\'), '\\');
            let r = php_origin(path, internal, vendors);
            &&& alone && builtin(top) ==> r == "stdlib"@
            &&& !(alone && builtin(top)) && internal.contains(top) ==> r == "internal"@
            &&& !(alone && builtin(top)) && !internal.contains(top) && vendors.contains(lowercase(top)) ==> r
                == "third_party"@
            &&& !(alone && builtin(top)) && !internal.contains(top) && !vendors.contains(lowercase(top)) ==> r
                == "unknown"@
        }),
{
}

proof fn prefixes_stay(list: Seq<(Seq<char>, Seq<char>)>, prefix: Seq<char>, dir: Seq<char>, x: (Seq<char>, Seq<char>))
    ensures
        has_prefix(with_prefix(list, prefix, dir), prefix),
        list.contains(x) ==> with_prefix(list, prefix, dir).contains(x),
        !has_prefix(list, prefix) ==> with_prefix(list, prefix, dir).contains((prefix, dir)),
{
    let k = crate::php::detector::prefix_slot(list, prefix, 0);
    slot_is_inside(list, prefix, 0);
    if !has_prefix(list, prefix) {
        let r = list.insert(k, (prefix, dir));
        assert(r[k] == (prefix, dir));
        if list.contains(x) {
            let i = choose|i: int| 0 <= i < list.len() && list[i] == x;
            if i < k {
                assert(r[i] == x);
            } else {
                assert(r[i + 1] == x);
            }
        }
    }
}

proof fn slot_is_inside(list: Seq<(Seq<char>, Seq<char>)>, prefix: Seq<char>, i: int)
    requires
        0 <= i <= list.len(),
    ensures
        i <= crate::php::detector::prefix_slot(list, prefix, i) <= list.len(),
    decreases list.len() - i,
{
    if i < list.len() && !crate::php::detector::prefix_before(prefix, list[i].0) {
        slot_is_inside(list, prefix, i + 1);
    }
}

/// Every prefix that a section maps to a directory is in the map, and the first directory
/// that is given for it is the one that counts.
pub proof fn prefixes_are_mapped(list: Seq<(Seq<char>, Seq<char>)>, members: Seq<(Seq<char>, JsonView)>, n: int, j: int, dir: Seq<char>)
    requires
        0 <= j < n <= members.len(),
        mapped_dir(members[j].1) == Some(dir),
    ensures
        has_prefix(with_members(list, members, n), members[j].0),
        !has_prefix(with_members(list, members, j), members[j].0) ==> with_members(list, members, n).contains(
            (members[j].0, dir),
        ),
    decreases n,
{
    let x = (members[j].0, dir);
    if j == n - 1 {
        prefixes_stay(with_members(list, members, n - 1), members[j].0, dir, x);
    } else {
        prefixes_are_mapped(list, members, n - 1, j, dir);
        let earlier = with_members(list, members, n - 1);
        if mapped_dir(members[n - 1].1) is Some {
            let d = mapped_dir(members[n - 1].1)->0;
            let i = choose|i: int| 0 <= i < earlier.len() && (#[trigger] earlier[i]).0 == members[j].0;
            prefixes_stay(earlier, members[n - 1].0, d, earlier[i]);
            prefixes_stay(earlier, members[n - 1].0, d, x);
            let r = with_members(list, members, n);
            assert(earlier.contains(earlier[i]));
            let k = choose|k: int| 0 <= k < r.len() && r[k] == earlier[i];
            assert(r[k].0 == members[j].0);
        }
    }
}

/// A project is called what its manifest says, and without a name what its directory is
/// called.
pub proof fn manifests_name_projects(manifest: JsonView, directory: Seq<char>, name: Seq<char>)
    ensures
        manifest.get("name"@) == Some(JsonView::Text(name)) && name.len() > 0 ==> php_name(manifest, directory) == name,
        manifest.get("name"@) is None ==> php_name(manifest, directory) == directory,
{
}

/// A key of an object leads to the first value under it.
pub proof fn keys_lead_to_values(o: Seq<(Seq<char>, JsonView)>, key: Seq<char>, i: int, j: int)
    requires
        0 <= i <= j <= o.len(),
        forall|k: int| i <= k < j ==> (#[trigger] o[k]).0 != key,
    ensures
        j < o.len() && o[j].0 == key ==> member_from(o, key, i) == Some(o[j].1),
        j == o.len() ==> member_from(o, key, i) is None,
    decreases j - i,
{
    if i < j {
        assert(o[i].0 != key);
        keys_lead_to_values(o, key, i + 1, j);
    }
}

// ---------------------------------------------------------------------------
// Go
// ---------------------------------------------------------------------------

/// An import is the project's own below its module; else of the standard library where its
/// first part has no dot; else a third party's below a required module; else unknown.
pub proof fn imports_belong_to_modules(path: Seq<char>, module: Seq<char>, required: Seq<Seq<char>>, i: int)
    ensures
        ({
            let r = import_origin(path, Some(module), required);
            let own = path == module || begins(path, module + "/"@);
            let dotted = has_char(first_segment(path), '.');
            &&& own ==> r == "internal"@
            &&& !own && !dotted ==> r == "stdlib"@
            &&& !own && dotted && 0 <= i < required.len() && (path == required[i] || begins(path, required[i] + "/"@)) ==> r
                == "third_party"@
            &&& !own && dotted && (forall|k: int| 0 <= k < required.len() ==> !within_module(path, #[trigger] required[k])) ==> r
                == "unknown"@
        }),
        import_origin(path, None, required) != "internal"@,
{
    reveal_strlit("internal");
    reveal_strlit("stdlib");
    reveal_strlit("third_party");
    reveal_strlit("unknown");
    assert("internal"@.len() == 8 && "stdlib"@.len() == 6 && "third_party"@.len() == 11 && "unknown"@.len() == 7);
    if 0 <= i < required.len() {
        assert(within_module(path, required[i]) <==> path == required[i] || begins(path, required[i] + "/"@));
    }
}

/// The module of a manifest stands on its first line that names one, behind the word.
pub proof fn first_lines_name_the_module(all: Seq<Seq<char>>, i: int, j: int, rest: Seq<char>)
    requires
        0 <= i <= j < all.len(),
        forall|k: int| i <= k < j ==> module_line(#[trigger] all[k]) is None,
        strip_front(trimmed_start(all[j]), "module"@) == Some(rest),
        starts_blank(rest),
        words(rest).len() > 0,
    ensures
        module_from(all, i) == Some(words(rest)[0]),
    decreases j - i,
{
    if i < j {
        assert(module_line(all[i]) is None);
        first_lines_name_the_module(all, i + 1, j, rest);
    }
}

/// A line that begins with the word and names a module and a version requires the module,
/// and no other line does.
pub proof fn lines_require_modules(all: Seq<Seq<char>>, n: int, m: Seq<char>)
    requires
        0 <= n <= all.len(),
    ensures
        required_lines(all, n).contains(m) <==> exists|j: int| 0 <= j < n && requires_module(#[trigger] all[j], m),
    decreases n,
{
    if n > 0 {
        lines_require_modules(all, n - 1, m);
        let earlier = required_lines(all, n - 1);
        let r = required_lines(all, n);
        if required_line(all[n - 1]) is Some {
            assert(r[earlier.len() as int] == required_line(all[n - 1])->0);
            if earlier.contains(m) {
                let i = choose|i: int| 0 <= i < earlier.len() && earlier[i] == m;
                assert(r[i] == m);
            }
        }
        assert(requires_module(all[n - 1], m) <==> required_line(all[n - 1]) == Some(m));
    }
}

/// Whether a line requires a module.
pub open spec fn requires_module(line: Seq<char>, m: Seq<char>) -> bool {
    let rest = unindented(line);
    begins(rest, "require"@) && starts_blank(rest.skip("require"@.len() as int)) && words(
        rest.skip("require"@.len() as int),
    ).len() >= 2 && words(rest.skip("require"@.len() as int))[0] == m && m != "("@
}

}
