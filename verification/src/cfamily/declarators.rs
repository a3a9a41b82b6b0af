//! Reading declarations of C and C++ off a syntax tree.

use vstd::prelude::*;

use crate::strings::{trim, trimmed};
use crate::text::{add_item, alphanumeric, chars_of, is_alphanumeric, is_space, same, space, string_of_all, views};
use crate::tree::{group_tree, Syntax, TreeView};
use crate::walk::{find_first, first_of};

verus! {

broadcast use group_tree;

/// Kinds of node that hold their declarations one level down. A header is
/// wrapped in a guard, so that without descending through it no declaration of
/// a header would be found; the arms of a conditional are all read.
pub const TRANSPARENT: [&'static str; 8] = [
    "preproc_ifdef",
    "preproc_if",
    "preproc_elif",
    "preproc_elifdef",
    "preproc_else",
    "linkage_specification",
    "template_declaration",
    "declaration_list",
];

/// The declarations among the first `k` children of a container, in source
/// order.
pub open spec fn declared_in(t: TreeView, n: usize, k: int) -> Seq<usize>
    decreases t.nodes.len() - n, k,
{
    if k <= 0 || k > t.kids(n).len() {
        Seq::empty()
    } else {
        let c = t.kids(n)[k - 1];
        declared_in(t, n, k - 1) + (if t.kind_among(c, TRANSPARENT@) {
            declared_in(t, c, t.kids(c).len() as int)
        } else {
            seq![c]
        })
    }
}

/// The declarations of a container, in source order.
pub open spec fn declarations_of(t: TreeView, n: usize) -> Seq<usize> {
    declared_in(t, n, t.kids(n).len() as int)
}

/// The declarations of a container stand below it.
pub proof fn declared_are_below(t: TreeView, n: usize, k: int)
    ensures
        forall|i: int| 0 <= i < declared_in(t, n, k).len() ==> t.below(n, #[trigger] declared_in(t, n, k)[i]),
    decreases t.nodes.len() - n, k,
{
    if 0 < k <= t.kids(n).len() {
        let c = t.kids(n)[k - 1];
        assert(t.below(n, c));
        declared_are_below(t, n, k - 1);
        declared_are_below(t, c, t.kids(c).len() as int);
        let a = declared_in(t, n, k - 1);
        let all = declared_in(t, n, k);
        assert forall|i: int| 0 <= i < all.len() implies t.below(n, #[trigger] all[i]) by {
            if i < a.len() {
                assert(all[i] == a[i]);
            } else if t.kind_among(c, TRANSPARENT@) {
                assert(all[i] == declared_in(t, c, t.kids(c).len() as int)[i - a.len()]);
            } else {
                assert(all[i] == c);
            }
        }
    }
}

#[verifier::loop_isolation(false)]
fn add_declarations(t: &Syntax, n: usize, out: &mut Vec<usize>)
    requires
        t@.wf(),
        n < t@.nodes.len(),
    ensures
        final(out)@ == old(out)@ + declarations_of(t@, n),
    decreases t@.nodes.len() - n,
{
    let ghost start = out@;
    let kids = t.kids(n);
    let mut k: usize = 0;
    assert(start + Seq::<usize>::empty() =~= start);
    while k < kids.len()
        invariant
            k <= kids@.len(),
            out@ == start + declared_in(t@, n, k as int),
        decreases kids@.len() - k,
    {
        let c = kids[k];
        assert(t@.below(n, c));
        if t.is_among(c, &TRANSPARENT) {
            add_declarations(t, c, out);
        } else {
            out.push(c);
        }
        assert(out@ =~= start + declared_in(t@, n, k + 1));
        k += 1;
    }
}

/// The declarations of a container, in source order.
pub fn declarations(t: &Syntax, n: usize) -> (r: Vec<usize>)
    requires
        t@.wf(),
        n < t@.nodes.len(),
    ensures
        r@ == declarations_of(t@, n),
        forall|i: int| 0 <= i < r@.len() ==> t@.below(n, #[trigger] r@[i]),
{
    let mut out: Vec<usize> = Vec::new();
    add_declarations(t, n, &mut out);
    assert(out@ =~= declarations_of(t@, n));
    proof {
        declared_are_below(t@, n, t@.kids(n).len() as int);
    }
    out
}

// ---------------------------------------------------------------------------
// Declarators
// ---------------------------------------------------------------------------

/// Kinds of declarator that a chain ends at.
pub const TERMINAL_DECLARATORS: [&'static str; 10] = [
    "identifier",
    "field_identifier",
    "type_identifier",
    "qualified_identifier",
    "destructor_name",
    "operator_name",
    "operator_cast",
    "structured_binding_declarator",
    "template_function",
    "template_method",
];

/// Kinds of node that share the children of a declarator with its payload.
pub const BESIDE_DECLARATORS: [&'static str; 5] = [
    "attribute_declaration",
    "attribute_specifier",
    "type_qualifier",
    "ms_call_modifier",
    "ms_pointer_modifier",
];

/// Declarators of functions.
pub const FUNCTION_DECLARATORS: [&'static str; 2] = ["function_declarator", "abstract_function_declarator"];

/// Declarators that put a pointer or a reference between a name and the rest.
pub const INDIRECT_DECLARATORS: [&'static str; 4] = [
    "pointer_declarator",
    "reference_declarator",
    "abstract_pointer_declarator",
    "abstract_reference_declarator",
];

/// How far a chain of declarators is followed.
pub const MAX_DECLARATORS: usize = 64;

/// The end of a chain of declarators.
#[derive(Clone, Copy, PartialEq, Eq, Structural)]
pub struct Declared {
    pub name: usize,
    /// The nearest function declarator: the one whose parameters belong to the
    /// name. An outer one describes the type of what is returned.
    pub function: Option<usize>,
    /// Whether a pointer or a reference stands between the name and that
    /// function declarator: a variable that holds the address of a function.
    pub indirect: bool,
}

impl Declared {
    /// Whether the chain declares something callable. A conversion operator is
    /// callable by its kind.
    pub open spec fn callable(self, t: TreeView) -> bool {
        t.kind(self.name) == "operator_cast"@ || (self.function is Some && !self.indirect)
    }

    /// The declarator that carries the parameters and the qualifiers.
    pub open spec fn carrier(self, t: TreeView) -> Option<usize> {
        if t.kind(self.name) == "operator_cast"@ {
            t.field(self.name, "declarator"@)
        } else {
            self.function
        }
    }

    /// Whether the nodes are nodes of the tree.
    pub open spec fn ok(self, t: TreeView) -> bool {
        self.name < t.nodes.len() && (self.function is Some ==> self.function->0 < t.nodes.len())
    }

    /// Tells whether the chain declares something callable.
    pub fn is_callable(&self, t: &Syntax) -> (r: bool)
        requires
            self.ok(t@),
        ensures
            r == self.callable(t@),
    {
        t.is(self.name, "operator_cast") || (self.function.is_some() && !self.indirect)
    }

    /// The declarator that carries the parameters and the qualifiers.
    pub fn signature_owner(&self, t: &Syntax) -> (r: Option<usize>)
        requires
            t@.wf(),
            self.ok(t@),
        ensures
            r == self.carrier(t@),
            r is Some ==> r->0 < t@.nodes.len(),
    {
        if t.is(self.name, "operator_cast") {
            t.field(self.name, "declarator")
        } else {
            self.function
        }
    }
}

/// The first of some nodes from `i` on that is no attribute or qualifier.
pub open spec fn payload_from(t: TreeView, list: Seq<usize>, i: int) -> Option<usize>
    decreases list.len() - i,
{
    if i < 0 || i >= list.len() {
        None
    } else if t.kind_among(list[i], BESIDE_DECLARATORS@) {
        payload_from(t, list, i + 1)
    } else {
        Some(list[i])
    }
}

/// One step down a chain of declarators.
pub open spec fn step_down(t: TreeView, n: usize) -> Option<usize> {
    match t.field(n, "declarator"@) {
        Some(c) => Some(c),
        None => payload_from(t, t.named_kids(n), 0),
    }
}

/// One step down a chain of declarators.
#[verifier::loop_isolation(false)]
fn inner_declarator(t: &Syntax, n: usize) -> (r: Option<usize>)
    requires
        t@.wf(),
        n < t@.nodes.len(),
    ensures
        r == step_down(t@, n),
        r is Some ==> r->0 < t@.nodes.len(),
{
    if let Some(c) = t.field(n, "declarator") {
        return Some(c);
    }
    let kids = t.named_kids(n);
    let mut i: usize = 0;
    while i < kids.len()
        invariant
            i <= kids@.len(),
            payload_from(t@, kids@, 0) == payload_from(t@, kids@, i as int),
        decreases kids@.len() - i,
    {
        assert(t@.below(n, kids@[i as int]));
        if !t.is_among(kids[i], &BESIDE_DECLARATORS) {
            return Some(kids[i]);
        }
        i += 1;
    }
    None
}

/// What a chain declares, given what was passed on the way and how many steps
/// are left. A nested function declarator starts over: its parameters are those
/// of the name inside it, and a pointer passed before belongs to what it
/// returns.
pub open spec fn chain_end(t: TreeView, n: usize, function: Option<usize>, indirect: bool, fuel: nat) -> Option<Declared>
    decreases fuel,
{
    if fuel == 0 {
        None
    } else if t.kind_among(n, TERMINAL_DECLARATORS@) {
        Some(Declared { name: n, function, indirect })
    } else {
        let enters = t.kind_among(n, FUNCTION_DECLARATORS@);
        let points = t.kind_among(n, INDIRECT_DECLARATORS@);
        let f = if enters {
            Some(n)
        } else {
            function
        };
        let ind = if enters {
            false
        } else {
            indirect || (points && function is Some)
        };
        match step_down(t, n) {
            Some(c) => chain_end(t, c, f, ind, (fuel - 1) as nat),
            None => None,
        }
    }
}

/// What a declarator declares.
pub open spec fn terminal(t: TreeView, n: usize) -> Option<Declared> {
    chain_end(t, n, None, false, MAX_DECLARATORS as nat)
}

/// What a declarator declares: the chain followed to its leaf.
#[verifier::loop_isolation(false)]
pub fn terminal_declarator(t: &Syntax, n: usize) -> (r: Option<Declared>)
    requires
        t@.wf(),
        n < t@.nodes.len(),
    ensures
        r == terminal(t@, n),
        r is Some ==> r->0.ok(t@),
{
    let mut current: usize = n;
    let mut function: Option<usize> = None;
    let mut indirect = false;
    let mut fuel: usize = MAX_DECLARATORS;
    while fuel > 0
        invariant
            current < t@.nodes.len(),
            function is Some ==> function->0 < t@.nodes.len(),
            terminal(t@, n) == chain_end(t@, current, function, indirect, fuel as nat),
        decreases fuel,
    {
        if t.is_among(current, &TERMINAL_DECLARATORS) {
            return Some(Declared { name: current, function, indirect });
        }
        let enters = t.is_among(current, &FUNCTION_DECLARATORS);
        let points = t.is_among(current, &INDIRECT_DECLARATORS);
        indirect = if enters {
            false
        } else {
            indirect || (points && function.is_some())
        };
        if enters {
            function = Some(current);
        }
        match inner_declarator(t, current) {
            Some(c) => {
                current = c;
            },
            None => {
                return None;
            },
        }
        fuel -= 1;
    }
    None
}

/// The part that one level of a qualified name adds to its scope. The arguments
/// of a template are dropped, so that a definition out of line meets its
/// declaration.
pub open spec fn scope_part(t: TreeView, n: usize) -> Option<Seq<char>> {
    match t.field(n, "scope"@) {
        Some(part) => {
            let named = if t.kind(part) == "template_type"@ {
                t.field(part, "name"@)
            } else {
                Some(part)
            };
            match named {
                Some(c) => if t.text(c).len() > 0 {
                    Some(t.text(c))
                } else {
                    None
                },
                None => None,
            }
        },
        None => None,
    }
}

/// The scope that a name spells, behind the parts found so far.
pub open spec fn scope_behind(t: TreeView, n: usize, scope: Seq<Seq<char>>) -> Seq<Seq<char>>
    decreases t.nodes.len() - n,
{
    if t.kind(n) != "qualified_identifier"@ {
        scope
    } else {
        let more = match scope_part(t, n) {
            Some(p) => scope.push(p),
            None => scope,
        };
        match t.field(n, "name"@) {
            Some(c) => scope_behind(t, c, more),
            None => more,
        }
    }
}

/// The scope that a name spells, outermost part first.
pub open spec fn spelled_scope(t: TreeView, n: usize) -> Seq<Seq<char>> {
    scope_behind(t, n, Seq::empty())
}

/// The name at the end of a qualified name.
pub open spec fn leaf_name(t: TreeView, n: usize) -> usize
    decreases t.nodes.len() - n,
{
    if t.kind(n) != "qualified_identifier"@ {
        n
    } else {
        match t.field(n, "name"@) {
            Some(c) => leaf_name(t, c),
            None => n,
        }
    }
}

/// The scope that a declarator spells, and the name at the end of it.
#[verifier::loop_isolation(false)]
pub fn split_qualified(t: &Syntax, n: usize) -> (r: (Vec<String>, usize))
    requires
        t@.wf(),
        n < t@.nodes.len(),
    ensures
        views(r.0@) == spelled_scope(t@, n),
        r.1 == leaf_name(t@, n),
        r.1 < t@.nodes.len(),
{
    let mut scope: Vec<String> = Vec::new();
    let mut current: usize = n;
    assert(views(scope@) =~= Seq::<Seq<char>>::empty());
    while t.is(current, "qualified_identifier")
        invariant
            current < t@.nodes.len(),
            spelled_scope(t@, n) == scope_behind(t@, current, views(scope@)),
            leaf_name(t@, n) == leaf_name(t@, current),
        decreases t@.nodes.len() - current,
    {
        if let Some(part) = t.field(current, "scope") {
            let named = if t.is(part, "template_type") {
                t.field(part, "name")
            } else {
                Some(part)
            };
            if let Some(c) = named {
                let text = t.text(c);
                if !text.as_str().is_empty() {
                    add_item(&mut scope, text);
                }
            }
        }
        match t.field(current, "name") {
            Some(c) => {
                current = c;
            },
            None => {
                return (scope, current);
            },
        }
    }
    (scope, current)
}

/// A name without its template arguments.
pub open spec fn bare(t: TreeView, n: usize) -> usize {
    if t.kind(n) == "template_function"@ || t.kind(n) == "template_method"@ || t.kind(n) == "template_type"@ {
        match t.field(n, "name"@) {
            Some(c) => c,
            None => n,
        }
    } else {
        n
    }
}

/// A name without its template arguments.
pub fn bare_name(t: &Syntax, n: usize) -> (r: usize)
    requires
        t@.wf(),
        n < t@.nodes.len(),
    ensures
        r == bare(t@, n),
        r < t@.nodes.len(),
{
    if t.is(n, "template_function") || t.is(n, "template_method") || t.is(n, "template_type") {
        if let Some(c) = t.field(n, "name") {
            return c;
        }
    }
    n
}

/// The name that a type reduces to; none for a built-in.
pub open spec fn type_leaf(t: TreeView, n: usize) -> Option<usize> {
    first_of(t, n, "type_identifier"@)
}

/// The name that a type reduces to.
pub fn type_name_node(t: &Syntax, n: usize) -> (r: Option<usize>)
    requires
        t@.wf(),
        n < t@.nodes.len(),
    ensures
        r == type_leaf(t@, n),
        r is Some ==> r->0 < t@.nodes.len(),
{
    find_first(t, n, "type_identifier")
}

/// Whether an assignment or an increment writes through a node.
pub open spec fn written(t: TreeView, n: usize) -> bool {
    match t.parent(n) {
        Some(p) => (t.kind(p) == "assignment_expression"@ && t.field(p, "left"@) == Some(n)) || (t.kind(p)
            == "update_expression"@ && t.field(p, "argument"@) == Some(n)),
        None => false,
    }
}

/// Tells whether an assignment or an increment writes through a node.
pub fn is_write_target(t: &Syntax, n: usize) -> (r: bool)
    requires
        t@.wf(),
        n < t@.nodes.len(),
    ensures
        r == written(t@, n),
{
    match t.parent(n) {
        Some(p) => {
            if t.is(p, "assignment_expression") {
                if let Some(left) = t.field(p, "left") {
                    if left == n {
                        return true;
                    }
                }
            }
            if t.is(p, "update_expression") {
                if let Some(argument) = t.field(p, "argument") {
                    return argument == n;
                }
            }
            false
        },
        None => false,
    }
}

/// Whether a node is what a call calls.
pub open spec fn called(t: TreeView, n: usize) -> bool {
    match t.parent(n) {
        Some(p) => t.kind(p) == "call_expression"@ && t.field(p, "function"@) == Some(n),
        None => false,
    }
}

/// Tells whether a node is what a call calls.
pub fn is_callee(t: &Syntax, n: usize) -> (r: bool)
    requires
        t@.wf(),
        n < t@.nodes.len(),
    ensures
        r == called(t@, n),
{
    match t.parent(n) {
        Some(p) => {
            if t.is(p, "call_expression") {
                if let Some(function) = t.field(p, "function") {
                    return function == n;
                }
            }
            false
        },
        None => false,
    }
}

// ---------------------------------------------------------------------------
// Types
// ---------------------------------------------------------------------------

/// Whether a character belongs to a word.
pub open spec fn word_char(c: char) -> bool {
    is_alphanumeric(c) || c == '_'
}

/// Tells whether a character belongs to a word.
fn is_word(c: char) -> (r: bool)
    ensures
        r == word_char(c),
{
    alphanumeric(c) || c == '_'
}

/// A type read so far, and whether a blank is waiting.
pub struct TypeText {
    pub text: Seq<char>,
    pub pending: bool,
}

/// A type with one more character. A blank is kept only between two words.
pub open spec fn with_type_char(s: TypeText, c: char) -> TypeText {
    if is_space(c) {
        TypeText { text: s.text, pending: s.text.len() > 0 }
    } else if s.pending && s.text.len() > 0 && word_char(s.text.last()) && word_char(c) {
        TypeText { text: s.text.push(' ').push(c), pending: false }
    } else {
        TypeText { text: s.text.push(c), pending: false }
    }
}

/// A type read up to its first `n` characters.
pub open spec fn type_text(raw: Seq<char>, n: int) -> TypeText
    decreases n,
{
    if n <= 0 || n > raw.len() {
        TypeText { text: Seq::empty(), pending: false }
    } else {
        with_type_char(type_text(raw, n - 1), raw[n - 1])
    }
}

/// A type reduced to one spelling.
pub open spec fn normal_type(raw: Seq<char>) -> Seq<char> {
    type_text(raw, raw.len() as int).text
}

/// A type reduced to one spelling: the parameters of an overload are part of
/// its name, and two spellings would be two nodes.
#[verifier::loop_isolation(false)]
pub fn normalize_type(raw: &str) -> (r: String)
    ensures
        r@ == normal_type(raw@),
{
    let s = chars_of(raw);
    let mut out: Vec<char> = Vec::new();
    let mut pending = false;
    let mut i: usize = 0;
    assert(out@ =~= Seq::<char>::empty());
    while i < s.len()
        invariant
            i <= s@.len(),
            out@ == type_text(s@, i as int).text,
            pending == type_text(s@, i as int).pending,
        decreases s@.len() - i,
    {
        let c = s[i];
        if space(c) {
            pending = out.len() > 0;
        } else {
            if pending && out.len() > 0 && is_word(out[out.len() - 1]) && is_word(c) {
                out.push(' ');
            }
            pending = false;
            out.push(c);
        }
        i += 1;
    }
    string_of_all(out.as_slice())
}

/// Whether a blank at a position of a type is needed: it is a plain one, and
/// stands between two words.
pub open spec fn needed_blank(s: Seq<char>, i: int) -> bool {
    &&& s[i] == ' '
    &&& 0 < i < s.len() - 1
    &&& word_char(s[i - 1])
    &&& word_char(s[i + 1])
    &&& !is_space(s[i - 1])
    &&& !is_space(s[i + 1])
}

/// Whether every blank of a type is needed.
pub open spec fn tidy_type(s: Seq<char>) -> bool {
    forall|i: int| 0 <= i < s.len() && is_space(#[trigger] s[i]) ==> needed_blank(s, i)
}

proof fn type_text_is_tidy(raw: Seq<char>, n: int)
    requires
        0 <= n <= raw.len(),
    ensures
        tidy_type(type_text(raw, n).text),
        type_text(raw, n).text.len() > 0 ==> !is_space(type_text(raw, n).text.last()),
    decreases n,
{
    if n > 0 {
        type_text_is_tidy(raw, n - 1);
        let before = type_text(raw, n - 1);
        let c = raw[n - 1];
        let after = with_type_char(before, c).text;
        if !is_space(c) {
            assert forall|i: int| 0 <= i < after.len() && is_space(#[trigger] after[i]) implies needed_blank(after, i) by {
                if i < before.text.len() {
                    assert(after[i] == before.text[i]);
                    assert(needed_blank(before.text, i));
                    assert(after[i - 1] == before.text[i - 1]);
                    assert(after[i + 1] == before.text[i + 1]);
                } else if i == before.text.len() && after.len() == before.text.len() + 2 {
                    assert(after[i - 1] == before.text.last());
                    assert(after[i + 1] == c);
                } else {
                    assert(after[i] == c);
                }
            }
        }
    }
}

proof fn tidy_type_is_kept(s: Seq<char>, n: int)
    requires
        tidy_type(s),
        0 <= n <= s.len(),
    ensures
        n > 0 && is_space(s[n - 1]) ==> type_text(s, n).text == s.take(n - 1) && type_text(s, n).pending,
        !(n > 0 && is_space(s[n - 1])) ==> type_text(s, n).text == s.take(n) && !type_text(s, n).pending,
    decreases n,
{
    if n > 0 {
        tidy_type_is_kept(s, n - 1);
        let before = type_text(s, n - 1);
        if is_space(s[n - 1]) {
            assert(needed_blank(s, n - 1));
            assert(!is_space(s[n - 2]));
            assert(before.text == s.take(n - 1));
        } else if n > 1 && is_space(s[n - 2]) {
            assert(needed_blank(s, n - 2));
            assert(before.text == s.take(n - 2));
            assert(s.take(n - 2).last() == s[n - 3]);
            assert(s.take(n) =~= s.take(n - 2).push(' ').push(s[n - 1]));
        } else {
            assert(s.take(n) =~= s.take(n - 1).push(s[n - 1]));
        }
    } else {
        assert(s.take(0) =~= Seq::<char>::empty());
    }
}

/// A type whose blanks are all needed is its own reduction.
pub proof fn tidy_types_are_fixed_points(s: Seq<char>)
    requires
        tidy_type(s),
    ensures
        normal_type(s) == s,
{
    let n = s.len() as int;
    tidy_type_is_kept(s, n);
    if n > 0 && is_space(s[n - 1]) {
        assert(needed_blank(s, n - 1));
    }
    assert(s.take(n) =~= s);
}

/// Reducing a type a second time changes nothing.
pub proof fn reduced_types_are_fixed_points(raw: Seq<char>)
    ensures
        normal_type(normal_type(raw)) == normal_type(raw),
{
    type_text_is_tidy(raw, raw.len() as int);
    tidy_types_are_fixed_points(normal_type(raw));
}

// ---------------------------------------------------------------------------
// Specifiers
// ---------------------------------------------------------------------------

/// Whether one of the first `k` children is of a kind and reads as a word.
pub open spec fn marked(t: TreeView, n: usize, kind: Seq<char>, word: Seq<char>, k: int) -> bool
    decreases k,
{
    if k <= 0 || k > t.kids(n).len() {
        false
    } else {
        (t.kind(t.kids(n)[k - 1]) == kind && trimmed(t.text(t.kids(n)[k - 1])) == word) || marked(t, n, kind, word, k - 1)
    }
}

/// Whether a child is of a kind and reads as a word.
pub open spec fn is_marked(t: TreeView, n: usize, kind: Seq<char>, word: Seq<char>) -> bool {
    marked(t, n, kind, word, t.kids(n).len() as int)
}

/// Tells whether a child is of a kind and reads as a word.
#[verifier::loop_isolation(false)]
fn has_mark(t: &Syntax, n: usize, kind: &str, word: &str) -> (r: bool)
    requires
        t@.wf(),
        n < t@.nodes.len(),
    ensures
        r == is_marked(t@, n, kind@, word@),
{
    let kids = t.kids(n);
    let mut found = false;
    let mut k: usize = 0;
    while k < kids.len()
        invariant
            k <= kids@.len(),
            found == marked(t@, n, kind@, word@, k as int),
        decreases kids@.len() - k,
    {
        assert(t@.below(n, kids@[k as int]));
        if t.is(kids[k], kind) {
            let text = t.text(kids[k]);
            let bare = trim(text.as_str());
            if same(bare.as_str(), word) {
                found = true;
            }
        }
        k += 1;
    }
    found
}

/// The kinds of child that mark a virtual function.
pub const VIRTUAL_MARKS: [&'static str; 2] = ["virtual", "virtual_function_specifier"];

/// The specifiers of a declaration.
#[derive(Clone, Copy, PartialEq, Eq, Structural)]
pub struct Modifiers {
    pub is_static: bool,
    pub is_extern: bool,
    pub is_const: bool,
    pub is_virtual: bool,
    pub is_template: bool,
}

/// The specifiers of a declaration: they are children of it, and only their
/// texts tell them apart.
pub open spec fn modifiers_of(t: TreeView, n: usize) -> Modifiers {
    Modifiers {
        is_static: is_marked(t, n, "storage_class_specifier"@, "static"@),
        is_extern: is_marked(t, n, "storage_class_specifier"@, "extern"@),
        is_const: is_marked(t, n, "type_qualifier"@, "const"@) || is_marked(t, n, "type_qualifier"@, "constexpr"@),
        is_virtual: t.kid_among(n, VIRTUAL_MARKS@) is Some,
        is_template: match t.parent(n) {
            Some(p) => t.kind(p) == "template_declaration"@,
            None => false,
        },
    }
}

/// The specifiers of a declaration.
pub fn modifiers(t: &Syntax, n: usize) -> (r: Modifiers)
    requires
        t@.wf(),
        n < t@.nodes.len(),
    ensures
        r == modifiers_of(t@, n),
{
    Modifiers {
        is_static: has_mark(t, n, "storage_class_specifier", "static"),
        is_extern: has_mark(t, n, "storage_class_specifier", "extern"),
        is_const: has_mark(t, n, "type_qualifier", "const") || has_mark(t, n, "type_qualifier", "constexpr"),
        is_virtual: t.kid_among(n, &VIRTUAL_MARKS).is_some(),
        is_template: match t.parent(n) {
            Some(p) => t.is(p, "template_declaration"),
            None => false,
        },
    }
}

/// The texts of the first `k` of some nodes, without empty ones.
pub open spec fn texts_of(t: TreeView, list: Seq<usize>, k: int) -> Seq<Seq<char>>
    decreases k,
{
    if k <= 0 || k > list.len() {
        Seq::empty()
    } else if t.text(list[k - 1]).len() > 0 {
        texts_of(t, list, k - 1).push(t.text(list[k - 1]))
    } else {
        texts_of(t, list, k - 1)
    }
}

/// The components that a namespace clause names; none for an anonymous one.
pub open spec fn namespace_parts(t: TreeView, n: usize) -> Seq<Seq<char>> {
    match t.field(n, "name"@) {
        Some(name) => if t.kind(name) == "nested_namespace_specifier"@ {
            texts_of(t, t.named_kids(name), t.named_kids(name).len() as int)
        } else if t.text(name).len() > 0 {
            seq![t.text(name)]
        } else {
            Seq::empty()
        },
        None => Seq::empty(),
    }
}

/// The components that a namespace clause names.
#[verifier::loop_isolation(false)]
pub fn namespace_components(t: &Syntax, n: usize) -> (r: Vec<String>)
    requires
        t@.wf(),
        n < t@.nodes.len(),
    ensures
        views(r@) == namespace_parts(t@, n),
{
    let mut out: Vec<String> = Vec::new();
    assert(views(out@) =~= Seq::<Seq<char>>::empty());
    if let Some(name) = t.field(n, "name") {
        if t.is(name, "nested_namespace_specifier") {
            let kids = t.named_kids(name);
            let mut k: usize = 0;
            while k < kids.len()
                invariant
                    k <= kids@.len(),
                    views(out@) == texts_of(t@, kids@, k as int),
                decreases kids@.len() - k,
            {
                assert(t@.below(name, kids@[k as int]));
                let text = t.text(kids[k]);
                if !text.as_str().is_empty() {
                    add_item(&mut out, text);
                }
                k += 1;
            }
        } else {
            let text = t.text(name);
            if !text.as_str().is_empty() {
                out.push(text);
                assert(views(out@) =~= seq![t@.text(name)]);
            }
        }
    }
    out
}

}
