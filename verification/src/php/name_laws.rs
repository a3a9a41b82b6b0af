//! What the names of PHP sources promise.

use vstd::prelude::*;

use crate::php::names::{
    class_names, class_names_in, final_name, last_of, namespace_from, namespace_name, plain_in, qualified,
    said_kind, variable_name, visibility_from, EXTRA_KINDS, NAME_KINDS,
};
use crate::selection::{pick_next, pick_nothing, picks, sum_contains};
use crate::strings::without_around;
use crate::text::lowercase;
use crate::tree::{group_tree, TreeView};

verus! {

broadcast use group_tree;

/// A name names itself, a built-in type names nothing, and any other type names what its
/// parts name.
pub proof fn types_name_what_their_parts_name(t: TreeView, n: usize, x: usize)
    ensures
        t.kind_among(n, NAME_KINDS@) ==> class_names(t, n) == seq![n],
        !t.kind_among(n, NAME_KINDS@) && (t.kind(n) == "primitive_type"@ || t.kind(n) == "bottom_type"@) ==> class_names(
            t,
            n,
        ).len() == 0,
        !t.kind_among(n, NAME_KINDS@) && t.kind(n) != "primitive_type"@ && t.kind(n) != "bottom_type"@ ==> (class_names(
            t,
            n,
        ).contains(x) <==> exists|j: int| 0 <= j < t.kids(n).len() && (#[trigger] class_names(t, t.kids(n)[j])).contains(x)),
{
    parts_name(t, n, t.kids(n).len() as int, x);
}

proof fn parts_name(t: TreeView, n: usize, k: int, x: usize)
    requires
        0 <= k <= t.kids(n).len(),
    ensures
        class_names_in(t, n, k).contains(x) <==> exists|j: int| 0 <= j < k && (#[trigger] class_names(t, t.kids(n)[j])).contains(x),
    decreases k,
{
    if k > 0 {
        parts_name(t, n, k - 1, x);
        sum_contains(class_names_in(t, n, k - 1), class_names(t, t.kids(n)[k - 1]), x);
        if class_names(t, t.kids(n)[k - 1]).contains(x) {
            assert(0 <= k - 1 < k && class_names(t, t.kids(n)[k - 1]).contains(x));
        }
    }
}

/// A qualified name ends in its last name, and a plain one in itself.
pub proof fn names_end_in_their_last_part(t: TreeView, n: usize, j: int)
    ensures
        t.kind(n) == "name"@ ==> final_name(t, n) == Some(n),
        t.kind(n) != "name"@ && 0 <= j < t.kids(n).len() && t.kind(t.kids(n)[j]) == "name"@ && (forall|i: int|
            j < i < t.kids(n).len() ==> t.kind(#[trigger] t.kids(n)[i]) != "name"@) ==> final_name(t, n) == Some(t.kids(n)[j]),
{
    if 0 <= j < t.kids(n).len() && t.kind(t.kids(n)[j]) == "name"@ && (forall|i: int|
        j < i < t.kids(n).len() ==> t.kind(#[trigger] t.kids(n)[i]) != "name"@) {
        last_is_last(t, t.kids(n), "name"@, t.kids(n).len() as int, j);
    }
}

proof fn last_is_last(t: TreeView, list: Seq<usize>, kind: Seq<char>, k: int, j: int)
    requires
        0 <= j < k <= list.len(),
        t.kind(list[j]) == kind,
        forall|i: int| j < i < k ==> t.kind(#[trigger] list[i]) != kind,
    ensures
        last_of(t, list, kind, k) == Some(list[j]),
    decreases k,
{
    if j < k - 1 {
        assert(t.kind(list[k - 1]) != kind);
        last_is_last(t, list, kind, k - 1, j);
    }
}

/// A name in a scope is joined to it by a backslash; outside of a scope it stands alone.
pub proof fn scopes_stand_before_names(scope: Seq<char>, name: Seq<char>)
    ensures
        scope.len() > 0 ==> qualified(scope, name) == scope + "\\"@ + name,
        scope.len() == 0 ==> qualified(scope, name) == name,
{
}

/// The first modifier that is not of writes alone tells who may read; without one everybody
/// may.
pub proof fn first_modifiers_tell_who_may_read(t: TreeView, list: Seq<usize>, i: int, j: int)
    requires
        0 <= i <= j <= list.len(),
        forall|k: int|
            i <= k < j ==> t.kind(#[trigger] list[k]) != "visibility_modifier"@ || t.kid_of(list[k], "operation"@) is Some,
    ensures
        j < list.len() && t.kind(list[j]) == "visibility_modifier"@ && t.kid_of(list[j], "operation"@) is None
            ==> visibility_from(t, list, i) == lowercase(t.text(list[j])),
        j == list.len() ==> visibility_from(t, list, i) == "public"@,
    decreases j - i,
{
    if i < j {
        assert(t.kind(list[i]) != "visibility_modifier"@ || t.kid_of(list[i], "operation"@) is Some);
        first_modifiers_tell_who_may_read(t, list, i + 1, j);
    }
}

/// The children that count are those that are no comments, in order.
pub proof fn comments_do_not_count(t: TreeView, list: Seq<usize>, n: int) -> (places: Seq<int>)
    requires
        0 <= n <= list.len(),
    ensures
        picks(list, plain_in(t, list, n), places),
        forall|k: int| #[trigger] places.contains(k) <==> 0 <= k < n && !t.kind_among(list[k], EXTRA_KINDS@),
    decreases n,
{
    if n == 0 {
        pick_nothing(list);
        Seq::empty()
    } else {
        let earlier = comments_do_not_count(t, list, n - 1);
        if t.kind_among(list[n - 1], EXTRA_KINDS@) {
            earlier
        } else {
            pick_next(list, plain_in(t, list, n - 1), earlier, n - 1);
            earlier.push(n - 1)
        }
    }
}

/// An import says by a word what it imports, and without one it imports a class.
pub proof fn words_say_what_is_imported(t: TreeView, n: usize, token: usize)
    ensures
        t.field(n, "type"@) == Some(token) && t.kind(token) == "function"@ ==> said_kind(t, n) is Function,
        t.field(n, "type"@) == Some(token) && t.kind(token) == "const"@ ==> said_kind(t, n) is Constant,
        t.field(n, "type"@) is None ==> said_kind(t, n) is Class,
{
    reveal_strlit("function");
    reveal_strlit("const");
    assert("function"@.len() != "const"@.len());
}

/// A namespace is called by its name without backslashes around it; a nameless one is the
/// global one.
pub proof fn namespaces_are_called_by_their_name(t: TreeView, n: usize, name: usize)
    ensures
        t.field(n, "name"@) == Some(name) ==> namespace_name(t, n) == without_around(t.text(name), '\\'),
        t.field(n, "name"@) is None ==> namespace_name(t, n).len() == 0,
{
}

/// The name of a variable stands below it, and below the variable of a reference.
pub proof fn variables_have_names(t: TreeView, n: usize, inner: usize)
    ensures
        t.kind(n) != "by_ref"@ ==> variable_name(t, n) == t.kid_of(n, "name"@),
        t.kind(n) == "by_ref"@ && t.kid_of(n, "variable_name"@) == Some(inner) ==> variable_name(t, n) == t.kid_of(
            inner,
            "name"@,
        ),
{
}

/// A file belongs to the first namespace that it names.
pub proof fn files_belong_to_their_first_namespace(t: TreeView, list: Seq<usize>, i: int, j: int)
    requires
        0 <= i <= j <= list.len(),
        forall|k: int|
            i <= k < j ==> t.kind(#[trigger] list[k]) != "namespace_definition"@ || t.field(list[k], "name"@) is None,
    ensures
        j < list.len() && t.kind(list[j]) == "namespace_definition"@ && t.field(list[j], "name"@) is Some ==> namespace_from(
            t,
            list,
            i,
        ) == namespace_name(t, list[j]),
        j == list.len() ==> namespace_from(t, list, i).len() == 0,
    decreases j - i,
{
    if i < j {
        assert(t.kind(list[i]) != "namespace_definition"@ || t.field(list[i], "name"@) is None);
        files_belong_to_their_first_namespace(t, list, i + 1, j);
    }
}

}
