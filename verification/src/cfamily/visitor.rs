//! Structure of C and C++ sources: records, functions, data, header directives.
//!
//! Reading is split in three, because the site that a node is built from has to
//! be chosen before any node is written, and that takes every file of a root.
//! First the names of records are collected over all files: they tell a method
//! from a function in a namespace. Then each file is read into plain facts.
//! Then the facts are written into a graph, given which site owns each node.

use vstd::prelude::*;

use crate::cfamily::declarators::{
    declarations, declarations_of, declared_are_below, namespace_components, namespace_parts,
};
use crate::cfamily::headers::Linkage;
use crate::node::NodeKind;
use crate::span::Span;
use crate::strings::{join, joined};
use crate::text::{add_item, add_new, copy, copy_all, views, with_new};
use crate::tree::{group_tree, Syntax, TreeView};

verus! {

broadcast use group_tree;

/// What declares a declaration, and what encloses a place of use.
#[derive(Debug)]
pub enum Owner {
    /// The file itself.
    File,
    Decl { qualified_name: String, kind: NodeKind },
}

/// The mathematical reading of an owner.
pub enum OwnerView {
    File,
    Decl { qualified_name: Seq<char>, kind: NodeKind },
}

impl View for Owner {
    type V = OwnerView;

    open spec fn view(&self) -> OwnerView {
        match self {
            Owner::File => OwnerView::File,
            Owner::Decl { qualified_name, kind } => OwnerView::Decl { qualified_name: qualified_name@, kind: *kind },
        }
    }
}

impl Owner {
    /// The same owner.
    pub fn copy(&self) -> (r: Owner)
        ensures
            r@ == self@,
    {
        match self {
            Owner::File => Owner::File,
            Owner::Decl { qualified_name, kind } => Owner::Decl {
                qualified_name: copy(qualified_name.as_str()),
                kind: *kind,
            },
        }
    }

    /// A declaration as an owner.
    pub fn decl(qualified_name: &str, kind: NodeKind) -> (r: Owner)
        ensures
            r@ == (OwnerView::Decl { qualified_name: qualified_name@, kind }),
    {
        Owner::Decl { qualified_name: copy(qualified_name), kind }
    }
}

/// One declaration, as read from one site. A prototype and its definition give
/// two of these with the same name and kind.
#[derive(Debug)]
pub struct FoundDecl {
    pub kind: NodeKind,
    pub qualified_name: String,
    /// The short name, without parameters.
    pub name: String,
    pub span: Span,
    pub name_span: Span,
    /// Whether this site defines what it declares.
    pub defines: bool,
    pub linkage: Linkage,
    pub owner: Owner,
    /// `struct`, `union`, `class` or `enum` on a record; `enumerator` and
    /// `concept` on those.
    pub record_kind: String,
    /// `public`, `protected` or `private` inside a class.
    pub access: String,
    pub is_static: bool,
    pub is_extern: bool,
    pub is_virtual: bool,
    pub is_template: bool,
    /// The declared type as it is written; what a typedef stands for.
    pub type_text: String,
    /// The parameters that are part of the qualified name; empty in C.
    pub signature: String,
}

/// The mathematical reading of a declaration.
pub struct FoundView {
    pub kind: NodeKind,
    pub qualified_name: Seq<char>,
    pub name: Seq<char>,
    pub span: Span,
    pub name_span: Span,
    pub defines: bool,
    pub linkage: Linkage,
    pub owner: OwnerView,
    pub record_kind: Seq<char>,
    pub access: Seq<char>,
    pub is_static: bool,
    pub is_extern: bool,
    pub is_virtual: bool,
    pub is_template: bool,
    pub type_text: Seq<char>,
    pub signature: Seq<char>,
}

impl View for FoundDecl {
    type V = FoundView;

    open spec fn view(&self) -> FoundView {
        FoundView {
            kind: self.kind,
            qualified_name: self.qualified_name@,
            name: self.name@,
            span: self.span,
            name_span: self.name_span,
            defines: self.defines,
            linkage: self.linkage,
            owner: self.owner@,
            record_kind: self.record_kind@,
            access: self.access@,
            is_static: self.is_static,
            is_extern: self.is_extern,
            is_virtual: self.is_virtual,
            is_template: self.is_template,
            type_text: self.type_text@,
            signature: self.signature@,
        }
    }
}

/// A place of use, before there is a node to hang it on. The name is kept: names
/// are bound by what is visible, not by position.
#[derive(Debug)]
pub struct FoundOccurrence {
    pub role: String,
    pub span: Span,
    pub owner: Owner,
    pub name: String,
}

/// The mathematical reading of a place of use.
pub struct UseView {
    pub role: Seq<char>,
    pub span: Span,
    pub owner: OwnerView,
    pub name: Seq<char>,
}

impl View for FoundOccurrence {
    type V = UseView;

    open spec fn view(&self) -> UseView {
        UseView { role: self.role@, span: self.span, owner: self.owner@, name: self.name@ }
    }
}

/// One directive that reads a header.
#[derive(Debug)]
pub struct FoundInclude {
    /// The path between the delimiters, or the text of a macro.
    pub path: String,
    /// `system`, `quoted` or `computed`.
    pub style: String,
    pub span: Span,
}

/// The mathematical reading of a directive.
pub struct IncludeView {
    pub path: Seq<char>,
    pub style: Seq<char>,
    pub span: Span,
}

impl View for FoundInclude {
    type V = IncludeView;

    open spec fn view(&self) -> IncludeView {
        IncludeView { path: self.path@, style: self.style@, span: self.span }
    }
}

/// Everything one file contributes.
#[derive(Debug)]
pub struct FileFacts {
    /// Relative to the project.
    pub file_rel: String,
    pub declarations: Vec<FoundDecl>,
    pub occurrences: Vec<FoundOccurrence>,
    pub includes: Vec<FoundInclude>,
}

/// The mathematical reading of a file's facts.
pub struct FactsView {
    pub file_rel: Seq<char>,
    pub declarations: Seq<FoundView>,
    pub occurrences: Seq<UseView>,
    pub includes: Seq<IncludeView>,
}

impl View for FileFacts {
    type V = FactsView;

    open spec fn view(&self) -> FactsView {
        FactsView {
            file_rel: self.file_rel@,
            declarations: views(self.declarations@),
            occurrences: views(self.occurrences@),
            includes: views(self.includes@),
        }
    }
}

// ---------------------------------------------------------------------------
// Scopes
// ---------------------------------------------------------------------------

/// The names of scopes that a file declares.
#[derive(Debug)]
pub struct DeclaredScopes {
    /// Every class, structure and union, each once.
    pub records: Vec<String>,
    /// Every namespace by its path, each once, the outer one first.
    pub namespaces: Vec<String>,
}

/// The mathematical reading of the names of scopes.
pub struct ScopesView {
    pub records: Seq<Seq<char>>,
    pub namespaces: Seq<Seq<char>>,
}

impl View for DeclaredScopes {
    type V = ScopesView;

    open spec fn view(&self) -> ScopesView {
        ScopesView { records: views(self.records@), namespaces: views(self.namespaces@) }
    }
}

/// The kinds of node that are records.
pub const RECORD_KINDS: [&'static str; 3] = ["struct_specifier", "union_specifier", "class_specifier"];

/// The scopes with those of the first `k` declarations of a container.
pub open spec fn scopes_in(t: TreeView, container: usize, namespace: Seq<Seq<char>>, st: ScopesView, k: int) -> ScopesView
    decreases t.nodes.len() - container, k,
{
    let list = declarations_of(t, container);
    if k <= 0 || k > list.len() {
        st
    } else {
        proof {
            declared_are_below(t, container, t.kids(container).len() as int);
        }
        scopes_at(t, list[k - 1], namespace, scopes_in(t, container, namespace, st, k - 1))
    }
}

/// The scopes with those of one declaration. A record nested in another one
/// stands in the type of a member.
pub open spec fn scopes_at(t: TreeView, n: usize, namespace: Seq<Seq<char>>, st: ScopesView) -> ScopesView
    decreases t.nodes.len() - n, 2int,
{
    if t.kind(n) == "namespace_definition"@ {
        let inner = namespace + namespace_parts(t, n);
        let named = if inner.len() > 0 {
            ScopesView { namespaces: with_new(st.namespaces, joined(inner, "::"@)), ..st }
        } else {
            st
        };
        match t.field(n, "body"@) {
            Some(body) => scopes_in(t, body, inner, named, declarations_of(t, body).len() as int),
            None => named,
        }
    } else if t.kind_among(n, RECORD_KINDS@) {
        record_scopes(t, n, namespace, st)
    } else if t.kind(n) == "declaration"@ || t.kind(n) == "field_declaration"@ || t.kind(n) == "type_definition"@ {
        match t.field(n, "type"@) {
            Some(inner) => if t.kind_among(inner, RECORD_KINDS@) {
                record_scopes(t, inner, namespace, st)
            } else {
                st
            },
            None => st,
        }
    } else {
        st
    }
}

/// The scopes with those of a record.
pub open spec fn record_scopes(t: TreeView, n: usize, namespace: Seq<Seq<char>>, st: ScopesView) -> ScopesView
    decreases t.nodes.len() - n, 1int,
{
    let named = match t.field(n, "name"@) {
        Some(name) => if t.text(name).len() > 0 {
            ScopesView { records: with_new(st.records, t.text(name)), ..st }
        } else {
            st
        },
        None => st,
    };
    match t.field(n, "body"@) {
        Some(body) => scopes_in(t, body, namespace, named, declarations_of(t, body).len() as int),
        None => named,
    }
}

/// The scopes that a file declares.
pub open spec fn file_scopes(t: TreeView, root: usize) -> ScopesView {
    scopes_in(
        t,
        root,
        Seq::empty(),
        ScopesView { records: Seq::empty(), namespaces: Seq::empty() },
        declarations_of(t, root).len() as int,
    )
}

/// Appends copies of strings.
pub fn extended(list: &Vec<String>, more: &Vec<String>) -> (r: Vec<String>)
    ensures
        views(r@) == views(list@) + views(more@),
{
    let mut out = copy_all(list);
    let mut i: usize = 0;
    assert(views(list@) + views(more@).take(0) =~= views(list@));
    while i < more.len()
        invariant
            i <= more@.len(),
            views(out@) == views(list@) + views(more@).take(i as int),
        decreases more@.len() - i,
    {
        add_item(&mut out, copy(more[i].as_str()));
        assert(views(more@).take(i + 1) =~= views(more@).take(i as int).push(more@[i as int]@));
        assert(views(out@) =~= views(list@) + views(more@).take(i + 1));
        i += 1;
    }
    assert(views(more@).take(more@.len() as int) =~= views(more@));
    out
}

#[verifier::loop_isolation(false)]
fn collect_scopes(t: &Syntax, container: usize, namespace: &Vec<String>, found: &mut DeclaredScopes)
    requires
        t@.wf(),
        container < t@.nodes.len(),
    ensures
        final(found)@ == scopes_in(
            t@,
            container,
            views(namespace@),
            old(found)@,
            declarations_of(t@, container).len() as int,
        ),
    decreases t@.nodes.len() - container, 3int,
{
    let list = declarations(t, container);
    let ghost start = found@;
    let mut k: usize = 0;
    while k < list.len()
        invariant
            k <= list@.len(),
            found@ == scopes_in(t@, container, views(namespace@), start, k as int),
        decreases list@.len() - k,
    {
        assert(t@.below(container, list@[k as int]));
        collect_scope(t, list[k], namespace, found);
        k += 1;
    }
}

fn collect_scope(t: &Syntax, n: usize, namespace: &Vec<String>, found: &mut DeclaredScopes)
    requires
        t@.wf(),
        n < t@.nodes.len(),
    ensures
        final(found)@ == scopes_at(t@, n, views(namespace@), old(found)@),
    decreases t@.nodes.len() - n, 2int,
{
    if t.is(n, "namespace_definition") {
        let parts = namespace_components(t, n);
        let inner = extended(namespace, &parts);
        assert(views(inner@).len() == inner@.len());
        if inner.len() > 0 {
            add_new(&mut found.namespaces, join(&inner, "::"));
        }
        if let Some(body) = t.field(n, "body") {
            collect_scopes(t, body, &inner, found);
        }
    } else if t.is_among(n, &RECORD_KINDS) {
        collect_record_scope(t, n, namespace, found);
    } else if t.is(n, "declaration") || t.is(n, "field_declaration") || t.is(n, "type_definition") {
        if let Some(inner) = t.field(n, "type") {
            if t.is_among(inner, &RECORD_KINDS) {
                collect_record_scope(t, inner, namespace, found);
            }
        }
    }
}

fn collect_record_scope(t: &Syntax, n: usize, namespace: &Vec<String>, found: &mut DeclaredScopes)
    requires
        t@.wf(),
        n < t@.nodes.len(),
    ensures
        final(found)@ == record_scopes(t@, n, views(namespace@), old(found)@),
    decreases t@.nodes.len() - n, 1int,
{
    if let Some(name) = t.field(n, "name") {
        let text = t.text(name);
        if !text.as_str().is_empty() {
            add_new(&mut found.records, text);
        }
    }
    if let Some(body) = t.field(n, "body") {
        collect_scopes(t, body, namespace, found);
    }
}

/// The names of records and namespaces that a file declares. No function body is
/// entered.
pub fn declared_scopes(t: &Syntax, root: usize) -> (r: DeclaredScopes)
    requires
        t@.wf(),
        root < t@.nodes.len(),
    ensures
        r@ == file_scopes(t@, root),
{
    let mut found = DeclaredScopes { records: Vec::new(), namespaces: Vec::new() };
    let none: Vec<String> = Vec::new();
    assert(views(none@) =~= Seq::<Seq<char>>::empty());
    assert(found@.records =~= Seq::<Seq<char>>::empty());
    assert(found@.namespaces =~= Seq::<Seq<char>>::empty());
    collect_scopes(t, root, &none, &mut found);
    found
}

}
