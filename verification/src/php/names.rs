//! Names, types and imports as PHP writes them.

use vstd::prelude::*;

use crate::strings::{after_last, strip_around, tail_after, without_around};
use crate::text::{add_item, concat3, copy, lowercase, opt_view, to_lower, views};
use crate::tree::{group_tree, Syntax, TreeView};

verus! {

broadcast use group_tree;

/// The kinds of node that name a class, a function or a constant.
pub const NAME_KINDS: [&'static str; 3] = ["name", "qualified_name", "relative_name"];

/// The kinds of node that may stand between any two children.
pub const EXTRA_KINDS: [&'static str; 2] = ["comment", "text_interpolation"];

/// The kinds of node in a file that are not PHP.
pub const MARKUP_KINDS: [&'static str; 5] = ["text", "php_tag", "php_end_tag", "comment", "text_interpolation"];

/// The kinds of node that name the path of an import.
pub const PATH_KINDS: [&'static str; 2] = ["qualified_name", "name"];

/// The clauses that name what a class extends or implements.
pub const BASE_KINDS: [&'static str; 2] = ["base_clause", "class_interface_clause"];

// ---------------------------------------------------------------------------
// Children
// ---------------------------------------------------------------------------

/// The nodes among the first `k` that are no comments.
pub open spec fn plain_in(t: TreeView, list: Seq<usize>, k: int) -> Seq<usize>
    decreases k,
{
    if k <= 0 || k > list.len() {
        Seq::empty()
    } else if t.kind_among(list[k - 1], EXTRA_KINDS@) {
        plain_in(t, list, k - 1)
    } else {
        plain_in(t, list, k - 1).push(list[k - 1])
    }
}

/// The children of a node that are no comments. Whatever depends on the place
/// of a child is read off these.
pub open spec fn plain_kids(t: TreeView, n: usize) -> Seq<usize> {
    plain_in(t, t.kids(n), t.kids(n).len() as int)
}

/// The children that are no comments stand below their parent.
pub proof fn plain_are_below(t: TreeView, n: usize, k: int)
    requires
        0 <= k <= t.kids(n).len(),
    ensures
        forall|i: int| 0 <= i < plain_in(t, t.kids(n), k).len() ==> t.below(n, #[trigger] plain_in(t, t.kids(n), k)[i]),
    decreases k,
{
    if k > 0 {
        plain_are_below(t, n, k - 1);
        let shorter = plain_in(t, t.kids(n), k - 1);
        assert(t.below(n, t.kids(n)[k - 1]));
        assert forall|i: int| 0 <= i < plain_in(t, t.kids(n), k).len() implies t.below(
            n,
            #[trigger] plain_in(t, t.kids(n), k)[i],
        ) by {
            if i < shorter.len() {
                assert(plain_in(t, t.kids(n), k)[i] == shorter[i]);
            }
        }
    }
}

/// The children of a node that are no comments.
#[verifier::loop_isolation(false)]
pub fn significant(t: &Syntax, n: usize) -> (r: Vec<usize>)
    requires
        t@.wf(),
        n < t@.nodes.len(),
    ensures
        r@ == plain_kids(t@, n),
        forall|i: int| 0 <= i < r@.len() ==> t@.below(n, #[trigger] r@[i]),
{
    let kids = t.kids(n);
    let mut out: Vec<usize> = Vec::new();
    let mut k: usize = 0;
    assert(out@ =~= Seq::<usize>::empty());
    while k < kids.len()
        invariant
            k <= kids@.len(),
            out@ == plain_in(t@, kids@, k as int),
        decreases kids@.len() - k,
    {
        assert(t@.below(n, kids@[k as int]));
        if !t.is_among(kids[k], &EXTRA_KINDS) {
            out.push(kids[k]);
        }
        k += 1;
    }
    proof {
        plain_are_below(t@, n, t@.kids(n).len() as int);
    }
    out
}

/// The last node of a kind among the first `k`.
pub open spec fn last_of(t: TreeView, list: Seq<usize>, kind: Seq<char>, k: int) -> Option<usize>
    decreases k,
{
    if k <= 0 || k > list.len() {
        None
    } else if t.kind(list[k - 1]) == kind {
        Some(list[k - 1])
    } else {
        last_of(t, list, kind, k - 1)
    }
}

/// The final name of a reference that may be qualified.
pub open spec fn final_name(t: TreeView, n: usize) -> Option<usize> {
    if t.kind(n) == "name"@ {
        Some(n)
    } else {
        last_of(t, t.kids(n), "name"@, t.kids(n).len() as int)
    }
}

/// The final name of a reference that may be qualified: `App\Model\User` ends
/// in `User`.
#[verifier::loop_isolation(false)]
pub fn last_name(t: &Syntax, n: usize) -> (r: Option<usize>)
    requires
        t@.wf(),
        n < t@.nodes.len(),
    ensures
        r == final_name(t@, n),
        r is Some ==> r->0 < t@.nodes.len(),
{
    if t.is(n, "name") {
        return Some(n);
    }
    let kids = t.kids(n);
    let mut k: usize = kids.len();
    while k > 0
        invariant
            k <= kids@.len(),
            last_of(t@, kids@, "name"@, kids@.len() as int) == last_of(t@, kids@, "name"@, k as int),
        decreases k,
    {
        k -= 1;
        assert(t@.below(n, kids@[k as int]));
        if t.is(kids[k], "name") {
            return Some(kids[k]);
        }
    }
    None
}

/// The identifier behind a variable.
pub open spec fn variable_name(t: TreeView, n: usize) -> Option<usize> {
    if t.kind(n) == "by_ref"@ {
        match t.kid_of(n, "variable_name"@) {
            Some(v) => t.kid_of(v, "name"@),
            None => None,
        }
    } else {
        t.kid_of(n, "name"@)
    }
}

/// The identifier behind a variable: `$user` and `&$user` give `user`.
pub fn variable_identifier(t: &Syntax, n: usize) -> (r: Option<usize>)
    requires
        t@.wf(),
        n < t@.nodes.len(),
    ensures
        r == variable_name(t@, n),
        r is Some ==> r->0 < t@.nodes.len(),
{
    if t.is(n, "by_ref") {
        match t.kid_of(n, "variable_name") {
            Some(v) => t.kid_of(v, "name"),
            None => None,
        }
    } else {
        t.kid_of(n, "name")
    }
}

/// The identifier of the variable under a field.
pub open spec fn field_variable(t: TreeView, n: usize) -> Option<usize> {
    match t.field(n, "name"@) {
        Some(v) => variable_name(t, v),
        None => None,
    }
}

/// The identifier of the variable that a declaration names.
pub fn declared_variable(t: &Syntax, n: usize) -> (r: Option<usize>)
    requires
        t@.wf(),
        n < t@.nodes.len(),
    ensures
        r == field_variable(t@, n),
        r is Some ==> r->0 < t@.nodes.len(),
{
    match t.field(n, "name") {
        Some(v) => variable_identifier(t, v),
        None => None,
    }
}

// ---------------------------------------------------------------------------
// Types
// ---------------------------------------------------------------------------

/// The class names in a type or in a clause of bases. A composite type names
/// all of its members, and a built-in type names nothing.
pub open spec fn class_names(t: TreeView, n: usize) -> Seq<usize>
    decreases t.nodes.len() - n, t.kids(n).len() + 1,
{
    if t.kind_among(n, NAME_KINDS@) {
        seq![n]
    } else if t.kind(n) == "primitive_type"@ || t.kind(n) == "bottom_type"@ {
        Seq::empty()
    } else {
        class_names_in(t, n, t.kids(n).len() as int)
    }
}

/// The class names below the first `k` children.
pub open spec fn class_names_in(t: TreeView, n: usize, k: int) -> Seq<usize>
    decreases t.nodes.len() - n, k,
{
    if k <= 0 || k > t.kids(n).len() {
        Seq::empty()
    } else {
        class_names_in(t, n, k - 1) + class_names(t, t.kids(n)[k - 1])
    }
}

/// Appends the class names in a type or in a clause of bases.
#[verifier::loop_isolation(false)]
fn collect_class_refs(t: &Syntax, n: usize, out: &mut Vec<usize>)
    requires
        t@.wf(),
        n < t@.nodes.len(),
        forall|i: int| 0 <= i < old(out)@.len() ==> (#[trigger] old(out)@[i]) < t@.nodes.len(),
    ensures
        final(out)@ == old(out)@ + class_names(t@, n),
        forall|i: int| 0 <= i < final(out)@.len() ==> (#[trigger] final(out)@[i]) < t@.nodes.len(),
    decreases t@.nodes.len() - n,
{
    let ghost start = out@;
    if t.is_among(n, &NAME_KINDS) {
        out.push(n);
        assert(out@ =~= start + seq![n]);
    } else if t.is(n, "primitive_type") || t.is(n, "bottom_type") {
        assert(out@ =~= start + Seq::<usize>::empty());
    } else {
        let kids = t.kids(n);
        let mut k: usize = 0;
        assert(out@ =~= start + Seq::<usize>::empty());
        while k < kids.len()
            invariant
                k <= kids@.len(),
                out@ == start + class_names_in(t@, n, k as int),
                forall|i: int| 0 <= i < out@.len() ==> (#[trigger] out@[i]) < t@.nodes.len(),
            decreases kids@.len() - k,
        {
            assert(t@.below(n, kids@[k as int]));
            collect_class_refs(t, kids[k], out);
            assert(out@ =~= start + class_names_in(t@, n, k + 1));
            k += 1;
        }
    }
}

/// The class names in a type or in a clause of bases.
pub fn class_refs(t: &Syntax, n: usize) -> (r: Vec<usize>)
    requires
        t@.wf(),
        n < t@.nodes.len(),
    ensures
        r@ == class_names(t@, n),
        forall|i: int| 0 <= i < r@.len() ==> (#[trigger] r@[i]) < t@.nodes.len(),
{
    let mut out: Vec<usize> = Vec::new();
    collect_class_refs(t, n, &mut out);
    assert(out@ =~= class_names(t@, n));
    out
}

// ---------------------------------------------------------------------------
// Modifiers and namespaces
// ---------------------------------------------------------------------------

/// Whether a node is a modifier that says who may read.
pub open spec fn read_modifier(t: TreeView, n: usize) -> bool {
    t.kind(n) == "visibility_modifier"@ && t.kid_of(n, "operation"@) is None
}

/// Who may read, by the first modifier from `i` on that says so.
pub open spec fn visibility_from(t: TreeView, list: Seq<usize>, i: int) -> Seq<char>
    decreases list.len() - i,
{
    if i < 0 || i >= list.len() {
        "public"@
    } else if read_modifier(t, list[i]) {
        lowercase(t.text(list[i]))
    } else {
        visibility_from(t, list, i + 1)
    }
}

/// Who may read a member: everybody, unless a modifier says otherwise. A
/// modifier with an operation constrains writes only.
#[verifier::loop_isolation(false)]
pub fn visibility(t: &Syntax, n: usize) -> (r: String)
    requires
        t@.wf(),
        n < t@.nodes.len(),
    ensures
        r@ == visibility_from(t@, t@.kids(n), 0),
{
    let kids = t.kids(n);
    let mut i: usize = 0;
    while i < kids.len()
        invariant
            i <= kids@.len(),
            visibility_from(t@, kids@, 0) == visibility_from(t@, kids@, i as int),
        decreases kids@.len() - i,
    {
        assert(t@.below(n, kids@[i as int]));
        if t.is(kids[i], "visibility_modifier") && t.kid_of(kids[i], "operation").is_none() {
            let text = t.text(kids[i]);
            return to_lower(text.as_str());
        }
        i += 1;
    }
    copy("public")
}

/// The namespace that a namespace definition names.
pub open spec fn namespace_name(t: TreeView, n: usize) -> Seq<char> {
    match t.field(n, "name"@) {
        Some(name) => without_around(t.text(name), '\\'),
        None => Seq::empty(),
    }
}

/// The namespace that a namespace definition names; the global one has no name.
pub fn namespace_of(t: &Syntax, n: usize) -> (r: String)
    requires
        t@.wf(),
        n < t@.nodes.len(),
    ensures
        r@ == namespace_name(t@, n),
{
    match t.field(n, "name") {
        Some(name) => {
            let text = t.text(name);
            strip_around(text.as_str(), '\\')
        },
        None => {
            let s = String::new();
            assert(s@ =~= Seq::<char>::empty());
            s
        },
    }
}

/// The namespace of the first definition from `i` on that names one.
pub open spec fn namespace_from(t: TreeView, list: Seq<usize>, i: int) -> Seq<char>
    decreases list.len() - i,
{
    if i < 0 || i >= list.len() {
        Seq::empty()
    } else if t.kind(list[i]) == "namespace_definition"@ && t.field(list[i], "name"@) is Some {
        namespace_name(t, list[i])
    } else {
        namespace_from(t, list, i + 1)
    }
}

/// The namespace of a file.
pub open spec fn file_namespace(t: TreeView, root: usize) -> Seq<char> {
    namespace_from(t, t.kids(root), 0)
}

/// The namespace of a file: the first that it defines.
#[verifier::loop_isolation(false)]
pub fn php_namespace(t: &Syntax, root: usize) -> (r: String)
    requires
        t@.wf(),
        root < t@.nodes.len(),
    ensures
        r@ == file_namespace(t@, root),
{
    let kids = t.kids(root);
    let mut i: usize = 0;
    while i < kids.len()
        invariant
            i <= kids@.len(),
            namespace_from(t@, kids@, 0) == namespace_from(t@, kids@, i as int),
        decreases kids@.len() - i,
    {
        assert(t@.below(root, kids@[i as int]));
        if t.is(kids[i], "namespace_definition") && t.field(kids[i], "name").is_some() {
            return namespace_of(t, kids[i]);
        }
        i += 1;
    }
    let s = String::new();
    assert(s@ =~= Seq::<char>::empty());
    s
}

/// Whether a file holds any PHP.
pub open spec fn holds_php(t: TreeView, root: usize) -> bool {
    exists|i: int| 0 <= i < t.kids(root).len() && !t.kind_among(#[trigger] t.kids(root)[i], MARKUP_KINDS@)
}

/// Tells whether a file holds any PHP. A template of markup alone does not.
#[verifier::loop_isolation(false)]
pub fn has_php_statements(t: &Syntax, root: usize) -> (r: bool)
    requires
        t@.wf(),
        root < t@.nodes.len(),
    ensures
        r == holds_php(t@, root),
{
    let kids = t.kids(root);
    let mut i: usize = 0;
    while i < kids.len()
        invariant
            i <= kids@.len(),
            forall|j: int| 0 <= j < i ==> t@.kind_among(#[trigger] t@.kids(root)[j], MARKUP_KINDS@),
        decreases kids@.len() - i,
    {
        assert(t@.below(root, kids@[i as int]));
        assert(t@.kids(root)[i as int] == kids@[i as int]);
        if !t.is_among(kids[i], &MARKUP_KINDS) {
            return true;
        }
        i += 1;
    }
    false
}

/// The name in a scope.
pub open spec fn qualified(scope: Seq<char>, name: Seq<char>) -> Seq<char> {
    if scope.len() == 0 {
        name
    } else {
        scope + "\\"@ + name
    }
}

/// The name in a scope.
pub fn qualify(scope: &str, name: &str) -> (r: String)
    ensures
        r@ == qualified(scope@, name@),
{
    if scope.is_empty() {
        copy(name)
    } else {
        concat3(scope, "\\", name)
    }
}

// ---------------------------------------------------------------------------
// Imports
// ---------------------------------------------------------------------------

/// What an import imports.
#[derive(Clone, Copy, Debug, PartialEq, Eq, Structural)]
pub enum UseKind {
    Class,
    Function,
    Constant,
}

impl UseKind {
    /// The name of the kind.
    pub open spec fn name(self) -> Seq<char> {
        match self {
            UseKind::Class => "class"@,
            UseKind::Function => "function"@,
            UseKind::Constant => "const"@,
        }
    }

    /// The name of the kind.
    pub fn as_str(self) -> (r: &'static str)
        ensures
            r@ == self.name(),
    {
        match self {
            UseKind::Class => "class",
            UseKind::Function => "function",
            UseKind::Constant => "const",
        }
    }
}

/// One import.
#[derive(Debug)]
pub struct Use {
    /// The name that is imported.
    pub target: String,
    /// The name it has in the file.
    pub local: String,
    pub kind: UseKind,
}

/// The mathematical reading of an import.
pub struct UseView {
    pub target: Seq<char>,
    pub local: Seq<char>,
    pub kind: UseKind,
}

impl View for Use {
    type V = UseView;

    open spec fn view(&self) -> UseView {
        UseView { target: self.target@, local: self.local@, kind: self.kind }
    }
}

/// What a statement or a clause says that it imports.
pub open spec fn said_kind(t: TreeView, n: usize) -> UseKind {
    match t.field(n, "type"@) {
        Some(token) => if t.kind(token) == "function"@ {
            UseKind::Function
        } else if t.kind(token) == "const"@ {
            UseKind::Constant
        } else {
            UseKind::Class
        },
        None => UseKind::Class,
    }
}

/// What a statement or a clause says that it imports.
pub fn use_kind(t: &Syntax, n: usize) -> (r: UseKind)
    requires
        t@.wf(),
        n < t@.nodes.len(),
    ensures
        r == said_kind(t@, n),
{
    match t.field(n, "type") {
        Some(token) => {
            if t.is(token, "function") {
                UseKind::Function
            } else if t.is(token, "const") {
                UseKind::Constant
            } else {
                UseKind::Class
            }
        },
        None => UseKind::Class,
    }
}

/// The import that a clause is. A clause of a group may say itself what it
/// imports.
pub open spec fn clause_use(t: TreeView, clause: usize, prefix: Seq<char>, declared: UseKind) -> Option<UseView> {
    match t.kid_among(clause, PATH_KINDS@) {
        Some(path_node) => {
            let path = without_around(t.text(path_node), '\\');
            let target = if prefix.len() == 0 {
                path
            } else {
                without_around(prefix, '\\') + "\\"@ + path
            };
            if target.len() == 0 {
                None
            } else {
                Some(
                    UseView {
                        target,
                        local: match t.field(clause, "alias"@) {
                            Some(alias) => t.text(alias),
                            None => after_last(target, "\\"@),
                        },
                        kind: if said_kind(t, clause) == UseKind::Class {
                            declared
                        } else {
                            said_kind(t, clause)
                        },
                    },
                )
            }
        },
        None => None,
    }
}

/// The imports among the first `k` nodes.
pub open spec fn clause_uses(t: TreeView, list: Seq<usize>, prefix: Seq<char>, declared: UseKind, k: int) -> Seq<UseView>
    decreases k,
{
    if k <= 0 || k > list.len() {
        Seq::empty()
    } else {
        let earlier = clause_uses(t, list, prefix, declared, k - 1);
        if t.kind(list[k - 1]) == "namespace_use_clause"@ {
            match clause_use(t, list[k - 1], prefix, declared) {
                Some(u) => earlier.push(u),
                None => earlier,
            }
        } else {
            earlier
        }
    }
}

/// The imports of a statement. A group names its prefix once.
pub open spec fn uses_of(t: TreeView, n: usize) -> Seq<UseView> {
    match t.field(n, "body"@) {
        Some(group) => {
            let prefix = match t.kid_of(n, "namespace_name"@) {
                Some(p) => t.text(p),
                None => Seq::empty(),
            };
            clause_uses(t, t.kids(group), prefix, said_kind(t, n), t.kids(group).len() as int)
        },
        None => clause_uses(t, t.kids(n), Seq::empty(), said_kind(t, n), t.kids(n).len() as int),
    }
}

/// The import that a clause is.
fn read_clause(t: &Syntax, clause: usize, prefix: &str, declared: UseKind) -> (r: Option<Use>)
    requires
        t@.wf(),
        clause < t@.nodes.len(),
    ensures
        opt_view(r) == clause_use(t@, clause, prefix@, declared),
{
    match t.kid_among(clause, &PATH_KINDS) {
        Some(path_node) => {
            let text = t.text(path_node);
            let path = strip_around(text.as_str(), '\\');
            let target = if prefix.is_empty() {
                path
            } else {
                let head = strip_around(prefix, '\\');
                concat3(head.as_str(), "\\", path.as_str())
            };
            if target.as_str().is_empty() {
                return None;
            }
            let local = match t.field(clause, "alias") {
                Some(alias) => t.text(alias),
                None => tail_after(target.as_str(), "\\"),
            };
            let own = use_kind(t, clause);
            let kind = match own {
                UseKind::Class => declared,
                _ => own,
            };
            Some(Use { target, local, kind })
        },
        None => None,
    }
}

/// Reads the imports among the children of a node.
#[verifier::loop_isolation(false)]
fn read_clauses(t: &Syntax, n: usize, prefix: &str, declared: UseKind) -> (r: Vec<Use>)
    requires
        t@.wf(),
        n < t@.nodes.len(),
    ensures
        views(r@) == clause_uses(t@, t@.kids(n), prefix@, declared, t@.kids(n).len() as int),
{
    let kids = t.kids(n);
    let mut out: Vec<Use> = Vec::new();
    let mut k: usize = 0;
    assert(views(out@) =~= Seq::<UseView>::empty());
    while k < kids.len()
        invariant
            k <= kids@.len(),
            views(out@) == clause_uses(t@, kids@, prefix@, declared, k as int),
        decreases kids@.len() - k,
    {
        assert(t@.below(n, kids@[k as int]));
        if t.is(kids[k], "namespace_use_clause") {
            if let Some(u) = read_clause(t, kids[k], prefix, declared) {
                add_item(&mut out, u);
            }
        }
        k += 1;
    }
    out
}

/// The imports of a statement.
pub fn read_uses(t: &Syntax, n: usize) -> (r: Vec<Use>)
    requires
        t@.wf(),
        n < t@.nodes.len(),
    ensures
        views(r@) == uses_of(t@, n),
{
    let declared = use_kind(t, n);
    match t.field(n, "body") {
        Some(group) => {
            let prefix = match t.kid_of(n, "namespace_name") {
                Some(p) => t.text(p),
                None => {
                    let s = String::new();
                    assert(s@ =~= Seq::<char>::empty());
                    s
                },
            };
            read_clauses(t, group, prefix.as_str(), declared)
        },
        None => {
            let s = String::new();
            assert(s@ =~= Seq::<char>::empty());
            read_clauses(t, n, s.as_str(), declared)
        },
    }
}

}
