//! The first pass over PHP sources: what they declare and import.
//!
//! The classes that a class extends and the types of its properties are written
//! down by name and looked up when every file was read: they are often declared
//! in a file that is read later.

use vstd::prelude::*;

use crate::php::log::RowView;
use crate::php::names::{
    class_names, class_refs, declared_variable, field_variable, namespace_name, namespace_of, qualified, qualify,
    read_uses, uses_of, Use, UseKind, UseView, BASE_KINDS, NAME_KINDS,
};
use crate::php::symbols::{
    class_of, ClassEntry, ClassEntryView, ClassRef, ClassRefView, Site, SiteView, Symbols, SymbolsView,
};
use crate::text::{add_item, copy, lowercase, opt_view, to_lower, views};
use crate::tree::{group_tree, Syntax, TreeView};

verus! {

broadcast use group_tree;

/// A name that can be looked up only when every file was read.
#[derive(Debug)]
pub struct Pending {
    /// The key of the class that it belongs to.
    pub class: String,
    /// The property that it types; none where it names a parent.
    pub property: Option<String>,
    pub name: String,
    pub path: String,
    pub namespace: String,
}

/// The mathematical reading of a pending name.
pub struct PendingView {
    pub class: Seq<char>,
    pub property: Option<Seq<char>>,
    pub name: Seq<char>,
    pub path: Seq<char>,
    pub namespace: Seq<char>,
}

impl View for Pending {
    type V = PendingView;

    open spec fn view(&self) -> PendingView {
        PendingView {
            class: self.class@,
            property: opt_view(self.property),
            name: self.name@,
            path: self.path@,
            namespace: self.namespace@,
        }
    }
}

/// How far the first pass has come.
pub struct DeclState {
    pub symbols: SymbolsView,
    pub pending: Seq<PendingView>,
    pub namespace: Seq<char>,
}

// ---------------------------------------------------------------------------
// Specifications
// ---------------------------------------------------------------------------

/// A value under a key alone.
pub open spec fn keyed_row<B>(key: Seq<char>, value: B) -> RowView<B> {
    RowView { group: key, name: key, value }
}

/// A value under a group and a name.
pub open spec fn grouped_row<B>(group: Seq<char>, name: Seq<char>, value: B) -> RowView<B> {
    RowView { group, name, value }
}

/// Where a name stands.
pub open spec fn site_at(t: TreeView, path: Seq<char>, n: usize) -> SiteView {
    SiteView { path, line: t.span(n).start_line, col: t.span(n).start_col }
}

/// The tables with an import of a file.
pub open spec fn with_import(s: SymbolsView, path: Seq<char>, u: UseView) -> SymbolsView {
    let row = grouped_row(lowercase(u.local), path, u.target);
    match u.kind {
        UseKind::Class => SymbolsView { class_uses: s.class_uses.push(row), ..s },
        UseKind::Function => SymbolsView { function_uses: s.function_uses.push(row), ..s },
        UseKind::Constant => SymbolsView { constant_uses: s.constant_uses.push(row), ..s },
    }
}

/// The tables with the first `k` imports of a statement.
pub open spec fn with_imports(s: SymbolsView, path: Seq<char>, uses: Seq<UseView>, k: int) -> SymbolsView
    decreases k,
{
    if k <= 0 || k > uses.len() {
        s
    } else {
        with_import(with_imports(s, path, uses, k - 1), path, uses[k - 1])
    }
}

/// The state with a pending name.
pub open spec fn held(
    t: TreeView,
    path: Seq<char>,
    st: DeclState,
    class: Seq<char>,
    property: Option<Seq<char>>,
    n: usize,
) -> DeclState {
    DeclState {
        pending: st.pending.push(
            PendingView {
                class: lowercase(class),
                property,
                name: t.text(n),
                path,
                namespace: st.namespace,
            },
        ),
        ..st
    }
}

/// The state with the first `k` references as parents of a class.
pub open spec fn held_parents(t: TreeView, path: Seq<char>, st: DeclState, class: Seq<char>, refs: Seq<usize>, k: int) -> DeclState
    decreases k,
{
    if k <= 0 || k > refs.len() {
        st
    } else {
        held(t, path, held_parents(t, path, st, class, refs, k - 1), class, None, refs[k - 1])
    }
}

/// The state with what the first `k` clauses of a class name as its parents.
pub open spec fn held_bases(t: TreeView, path: Seq<char>, st: DeclState, class: Seq<char>, list: Seq<usize>, k: int) -> DeclState
    decreases k,
{
    if k <= 0 || k > list.len() {
        st
    } else {
        let earlier = held_bases(t, path, st, class, list, k - 1);
        if t.kind_among(list[k - 1], BASE_KINDS@) {
            let refs = class_names(t, list[k - 1]);
            held_parents(t, path, earlier, class, refs, refs.len() as int)
        } else {
            earlier
        }
    }
}

/// The state with the traits that a class uses, among the first `k` parts of
/// the statement.
pub open spec fn held_traits(t: TreeView, path: Seq<char>, st: DeclState, class: Seq<char>, list: Seq<usize>, k: int) -> DeclState
    decreases k,
{
    if k <= 0 || k > list.len() {
        st
    } else {
        let earlier = held_traits(t, path, st, class, list, k - 1);
        if t.kind_among(list[k - 1], NAME_KINDS@) {
            held(t, path, earlier, class, None, list[k - 1])
        } else {
            earlier
        }
    }
}

/// The state with a property. A type that names one class is what it holds; a
/// type that names several is not.
pub open spec fn with_property(
    t: TreeView,
    path: Seq<char>,
    st: DeclState,
    class: Seq<char>,
    ident: usize,
    type_node: Option<usize>,
) -> DeclState {
    let name = t.text(ident);
    let st1 = DeclState {
        symbols: SymbolsView {
            properties: st.symbols.properties.push(grouped_row(lowercase(class), name, site_at(t, path, ident))),
            ..st.symbols
        },
        ..st
    };
    match type_node {
        Some(n) => if class_names(t, n).len() == 1 {
            held(t, path, st1, class, Some(name), class_names(t, n)[0])
        } else {
            st1
        },
        None => st1,
    }
}

/// The state with the properties that the first `k` parameters declare.
pub open spec fn with_promoted(t: TreeView, path: Seq<char>, st: DeclState, class: Seq<char>, list: Seq<usize>, k: int) -> DeclState
    decreases k,
{
    if k <= 0 || k > list.len() {
        st
    } else {
        let earlier = with_promoted(t, path, st, class, list, k - 1);
        let n = list[k - 1];
        if t.kind(n) == "property_promotion_parameter"@ && field_variable(t, n) is Some {
            with_property(t, path, earlier, class, field_variable(t, n)->0, t.field(n, "type"@))
        } else {
            earlier
        }
    }
}

/// The state with a method, and with the properties that its parameters
/// declare.
pub open spec fn with_method(t: TreeView, path: Seq<char>, st: DeclState, class: Seq<char>, n: usize) -> DeclState {
    match t.field(n, "name"@) {
        Some(name_node) => {
            let st1 = DeclState {
                symbols: SymbolsView {
                    methods: st.symbols.methods.push(
                        grouped_row(lowercase(class), lowercase(t.text(name_node)), site_at(t, path, name_node)),
                    ),
                    ..st.symbols
                },
                ..st
            };
            match t.field(n, "parameters"@) {
                Some(params) => with_promoted(t, path, st1, class, t.kids(params), t.kids(params).len() as int),
                None => st1,
            }
        },
        None => st,
    }
}

/// The state with the first `k` properties of a declaration.
pub open spec fn with_properties(t: TreeView, path: Seq<char>, st: DeclState, class: Seq<char>, n: usize, k: int) -> DeclState
    decreases k,
{
    let list = t.kids(n);
    if k <= 0 || k > list.len() {
        st
    } else {
        let earlier = with_properties(t, path, st, class, n, k - 1);
        let element = list[k - 1];
        if t.kind(element) == "property_element"@ && field_variable(t, element) is Some {
            with_property(t, path, earlier, class, field_variable(t, element)->0, t.field(n, "type"@))
        } else {
            earlier
        }
    }
}

/// The tables with a constant: of a class, or of a namespace.
pub open spec fn with_constant(
    t: TreeView,
    path: Seq<char>,
    s: SymbolsView,
    namespace: Seq<char>,
    class: Option<Seq<char>>,
    name_node: usize,
) -> SymbolsView {
    let name = t.text(name_node);
    let site = site_at(t, path, name_node);
    match class {
        Some(c) => SymbolsView { class_constants: s.class_constants.push(grouped_row(lowercase(c), name, site)), ..s },
        None => SymbolsView { constants: s.constants.push(keyed_row(qualified(namespace, name), site)), ..s },
    }
}

/// The state with the first `k` constants of a declaration.
pub open spec fn with_constants(
    t: TreeView,
    path: Seq<char>,
    st: DeclState,
    class: Option<Seq<char>>,
    list: Seq<usize>,
    k: int,
) -> DeclState
    decreases k,
{
    if k <= 0 || k > list.len() {
        st
    } else {
        let earlier = with_constants(t, path, st, class, list, k - 1);
        match t.kid_of(list[k - 1], "name"@) {
            Some(name_node) => if t.kind(list[k - 1]) == "const_element"@ {
                DeclState {
                    symbols: with_constant(t, path, earlier.symbols, earlier.namespace, class, name_node),
                    ..earlier
                }
            } else {
                earlier
            },
            None => earlier,
        }
    }
}

/// The state with a class, without what is in it.
pub open spec fn with_class(t: TreeView, path: Seq<char>, st: DeclState, name_node: usize) -> DeclState {
    let name = t.text(name_node);
    let fqn = qualified(st.namespace, name);
    let key = lowercase(fqn);
    DeclState {
        symbols: SymbolsView {
            classes: st.symbols.classes.push(
                keyed_row(key, ClassEntryView { fqn, site: site_at(t, path, name_node) }),
            ),
            short_names: st.symbols.short_names.push(grouped_row(lowercase(name), path, key)),
            ..st.symbols
        },
        ..st
    }
}

/// The state with a function.
pub open spec fn with_function(t: TreeView, path: Seq<char>, st: DeclState, n: usize) -> DeclState {
    match t.field(n, "name"@) {
        Some(name_node) => DeclState {
            symbols: SymbolsView {
                functions: st.symbols.functions.push(
                    keyed_row(
                        lowercase(qualified(st.namespace, t.text(name_node))),
                        site_at(t, path, name_node),
                    ),
                ),
                ..st.symbols
            },
            ..st
        },
        None => st,
    }
}

/// Whether a node declares a class.
pub open spec fn is_class(t: TreeView, n: usize) -> bool {
    t.kind(n) == "class_declaration"@ || t.kind(n) == "interface_declaration"@ || t.kind(n) == "trait_declaration"@
        || t.kind(n) == "enum_declaration"@
}

/// The state after the first `k` children of a node.
pub open spec fn declare_kids(
    t: TreeView,
    path: Seq<char>,
    class: Option<Seq<char>>,
    st: DeclState,
    n: usize,
    k: int,
) -> DeclState
    decreases t.nodes.len() - n, 10int, k,
{
    if k <= 0 || k > t.kids(n).len() {
        st
    } else {
        declare_at(t, path, class, declare_kids(t, path, class, st, n, k - 1), t.kids(n)[k - 1])
    }
}

/// The state after all children of a node.
pub open spec fn declare_all(t: TreeView, path: Seq<char>, class: Option<Seq<char>>, st: DeclState, n: usize) -> DeclState
    decreases t.nodes.len() - n, 15int, 0int,
{
    declare_kids(t, path, class, st, n, t.kids(n).len() as int)
}

/// The state after a class. One without a name is left alone: nothing outside
/// the expression that creates it can name it.
pub open spec fn declare_class(t: TreeView, path: Seq<char>, st: DeclState, n: usize) -> DeclState
    decreases t.nodes.len() - n, 20int, 0int,
{
    match t.field(n, "name"@) {
        Some(name_node) => {
            let fqn = qualified(st.namespace, t.text(name_node));
            let st1 = with_class(t, path, st, name_node);
            let st2 = held_bases(t, path, st1, fqn, t.kids(n), t.kids(n).len() as int);
            match t.field(n, "body"@) {
                Some(body) => DeclState {
                    namespace: st.namespace,
                    ..declare_all(t, path, Some(fqn), st2, body)
                },
                None => st2,
            }
        },
        None => st,
    }
}

/// The state after one node.
pub open spec fn declare_at(t: TreeView, path: Seq<char>, class: Option<Seq<char>>, st: DeclState, n: usize) -> DeclState
    decreases t.nodes.len() - n, 50int, 0int,
{
    if t.kind(n) == "namespace_definition"@ {
        let name = namespace_name(t, n);
        match t.field(n, "body"@) {
            Some(body) => DeclState {
                namespace: st.namespace,
                ..declare_all(t, path, class, DeclState { namespace: name, ..st }, body)
            },
            None => DeclState { namespace: name, ..st },
        }
    } else if t.kind(n) == "namespace_use_declaration"@ {
        DeclState {
            symbols: with_imports(st.symbols, path, uses_of(t, n), uses_of(t, n).len() as int),
            ..st
        }
    } else if is_class(t, n) {
        declare_class(t, path, st, n)
    } else if t.kind(n) == "method_declaration"@ {
        let st1 = match class {
            Some(c) => with_method(t, path, st, c, n),
            None => st,
        };
        declare_all(t, path, class, st1, n)
    } else if t.kind(n) == "function_definition"@ {
        declare_all(t, path, class, with_function(t, path, st, n), n)
    } else if t.kind(n) == "property_declaration"@ {
        match class {
            Some(c) => with_properties(t, path, st, c, n, t.kids(n).len() as int),
            None => st,
        }
    } else if t.kind(n) == "const_declaration"@ {
        with_constants(t, path, st, class, t.kids(n), t.kids(n).len() as int)
    } else if t.kind(n) == "enum_case"@ {
        match (class, t.field(n, "name"@)) {
            (Some(c), Some(name_node)) => DeclState {
                symbols: with_constant(t, path, st.symbols, st.namespace, Some(c), name_node),
                ..st
            },
            _ => st,
        }
    } else if t.kind(n) == "use_declaration"@ {
        match class {
            Some(c) => held_traits(t, path, st, c, t.kids(n), t.kids(n).len() as int),
            None => st,
        }
    } else {
        declare_all(t, path, class, st, n)
    }
}

/// The state after a file.
pub open spec fn declare_file(t: TreeView, path: Seq<char>, s: SymbolsView, pending: Seq<PendingView>, root: usize) -> DeclState {
    declare_all(t, path, None, DeclState { symbols: s, pending, namespace: Seq::empty() }, root)
}

/// The tables with a pending name looked up. A parent outside the project has
/// no members that could be found.
pub open spec fn with_link(s: SymbolsView, p: PendingView) -> SymbolsView {
    let class = class_of(s, p.name, p.path, p.namespace);
    match p.property {
        Some(property) => SymbolsView {
            property_types: s.property_types.push(grouped_row(p.class, property, class)),
            ..s
        },
        None => match class {
            ClassRefView::Declared(parent) => SymbolsView {
                parents: s.parents.push(keyed_row(p.class, parent)),
                ..s
            },
            ClassRefView::Foreign(_) => s,
        },
    }
}

/// The tables with the first `k` pending names looked up.
pub open spec fn with_links(s: SymbolsView, pending: Seq<PendingView>, k: int) -> SymbolsView
    decreases k,
{
    if k <= 0 || k > pending.len() {
        s
    } else {
        with_link(with_links(s, pending, k - 1), pending[k - 1])
    }
}

// ---------------------------------------------------------------------------
// Reading
// ---------------------------------------------------------------------------

/// Collects what files declare.
pub struct Collector {
    pub symbols: Symbols,
    pub pending: Vec<Pending>,
    pub namespace: String,
}

impl View for Collector {
    type V = DeclState;

    open spec fn view(&self) -> DeclState {
        DeclState { symbols: self.symbols@, pending: views(self.pending@), namespace: self.namespace@ }
    }
}

/// Where a name stands.
fn site(t: &Syntax, path: &str, n: usize) -> (r: Site)
    requires
        n < t@.nodes.len(),
    ensures
        r@ == site_at(t@, path@, n),
{
    let span = t.span(n);
    Site { path: copy(path), line: span.start_line, col: span.start_col }
}

impl Collector {
    /// Adds an import of a file.
    fn add_use(&mut self, path: &str, u: &Use)
        requires
            old(self).symbols.wf(),
        ensures
            final(self).symbols.wf(),
            final(self)@ == (DeclState { symbols: with_import(old(self)@.symbols, path@, u@), ..old(self)@ }),
    {
        let local = to_lower(u.local.as_str());
        let target = copy(u.target.as_str());
        match u.kind {
            UseKind::Class => self.symbols.class_uses.push(local.as_str(), path, target),
            UseKind::Function => self.symbols.function_uses.push(local.as_str(), path, target),
            UseKind::Constant => self.symbols.constant_uses.push(local.as_str(), path, target),
        }
    }

    /// Adds the imports of a statement.
    #[verifier::loop_isolation(false)]
    fn index_use_declaration(&mut self, t: &Syntax, path: &str, n: usize)
        requires
            t@.wf(),
            n < t@.nodes.len(),
            old(self).symbols.wf(),
        ensures
            final(self).symbols.wf(),
            final(self)@ == (DeclState {
                symbols: with_imports(old(self)@.symbols, path@, uses_of(t@, n), uses_of(t@, n).len() as int),
                ..old(self)@
            }),
    {
        let list = read_uses(t, n);
        let ghost all = views(list@);
        let ghost start = self@;
        let mut k: usize = 0;
        while k < list.len()
            invariant
                k <= list@.len(),
                self.symbols.wf(),
                self@ == (DeclState { symbols: with_imports(start.symbols, path@, all, k as int), ..start }),
            decreases list@.len() - k,
        {
            assert(all[k as int] == list@[k as int]@);
            self.add_use(path, &list[k]);
            k += 1;
        }
    }

    /// Writes down a name to look up later.
    fn push_pending(&mut self, t: &Syntax, path: &str, class: &str, property: Option<String>, n: usize)
        requires
            t@.wf(),
            n < t@.nodes.len(),
        ensures
            final(self).symbols == old(self).symbols,
            final(self)@ == held(t@, path@, old(self)@, class@, opt_view(property), n),
    {
        add_item(
            &mut self.pending,
            Pending {
                class: to_lower(class),
                property,
                name: t.text(n),
                path: copy(path),
                namespace: copy(self.namespace.as_str()),
            },
        );
    }

    /// Writes down the parents that the clauses of a class name.
    #[verifier::loop_isolation(false)]
    fn push_bases(&mut self, t: &Syntax, path: &str, class: &str, n: usize)
        requires
            t@.wf(),
            n < t@.nodes.len(),
        ensures
            final(self).symbols == old(self).symbols,
            final(self)@ == held_bases(t@, path@, old(self)@, class@, t@.kids(n), t@.kids(n).len() as int),
    {
        let kids = t.kids(n);
        let ghost start = self@;
        let mut k: usize = 0;
        while k < kids.len()
            invariant
                k <= kids@.len(),
                self.symbols == old(self).symbols,
                self@ == held_bases(t@, path@, start, class@, kids@, k as int),
            decreases kids@.len() - k,
        {
            assert(t@.below(n, kids@[k as int]));
            if t.is_among(kids[k], &BASE_KINDS) {
                let refs = class_refs(t, kids[k]);
                let ghost mid = self@;
                let mut i: usize = 0;
                while i < refs.len()
                    invariant
                        i <= refs@.len(),
                        self.symbols == old(self).symbols,
                        self@ == held_parents(t@, path@, mid, class@, refs@, i as int),
                    decreases refs@.len() - i,
                {
                    self.push_pending(t, path, class, None, refs[i]);
                    i += 1;
                }
            }
            k += 1;
        }
    }

    /// Writes down the traits that a class uses.
    #[verifier::loop_isolation(false)]
    fn push_traits(&mut self, t: &Syntax, path: &str, class: &str, n: usize)
        requires
            t@.wf(),
            n < t@.nodes.len(),
        ensures
            final(self).symbols == old(self).symbols,
            final(self)@ == held_traits(t@, path@, old(self)@, class@, t@.kids(n), t@.kids(n).len() as int),
    {
        let kids = t.kids(n);
        let ghost start = self@;
        let mut k: usize = 0;
        while k < kids.len()
            invariant
                k <= kids@.len(),
                self.symbols == old(self).symbols,
                self@ == held_traits(t@, path@, start, class@, kids@, k as int),
            decreases kids@.len() - k,
        {
            assert(t@.below(n, kids@[k as int]));
            if t.is_among(kids[k], &NAME_KINDS) {
                self.push_pending(t, path, class, None, kids[k]);
            }
            k += 1;
        }
    }

    /// Adds a property.
    fn declare_property(&mut self, t: &Syntax, path: &str, class: &str, ident: usize, type_node: Option<usize>)
        requires
            t@.wf(),
            ident < t@.nodes.len(),
            type_node is Some ==> type_node->0 < t@.nodes.len(),
            old(self).symbols.wf(),
        ensures
            final(self).symbols.wf(),
            final(self)@ == with_property(t@, path@, old(self)@, class@, ident, type_node),
    {
        let name = t.text(ident);
        let key = to_lower(class);
        self.symbols.properties.push(key.as_str(), name.as_str(), site(t, path, ident));
        if let Some(n) = type_node {
            let refs = class_refs(t, n);
            if refs.len() == 1 {
                self.push_pending(t, path, class, Some(name), refs[0]);
            }
        }
    }

    /// Adds a method, and the properties that its parameters declare.
    #[verifier::loop_isolation(false)]
    fn declare_method(&mut self, t: &Syntax, path: &str, class: &str, n: usize)
        requires
            t@.wf(),
            n < t@.nodes.len(),
            old(self).symbols.wf(),
        ensures
            final(self).symbols.wf(),
            final(self)@ == with_method(t@, path@, old(self)@, class@, n),
    {
        if let Some(name_node) = t.field(n, "name") {
            let text = t.text(name_node);
            let name = to_lower(text.as_str());
            let key = to_lower(class);
            self.symbols.methods.push(key.as_str(), name.as_str(), site(t, path, name_node));
            if let Some(params) = t.field(n, "parameters") {
                let kids = t.kids(params);
                let ghost start = self@;
                let mut k: usize = 0;
                while k < kids.len()
                    invariant
                        k <= kids@.len(),
                        self.symbols.wf(),
                        self@ == with_promoted(t@, path@, start, class@, kids@, k as int),
                    decreases kids@.len() - k,
                {
                    assert(t@.below(params, kids@[k as int]));
                    if t.is(kids[k], "property_promotion_parameter") {
                        if let Some(ident) = declared_variable(t, kids[k]) {
                            self.declare_property(t, path, class, ident, t.field(kids[k], "type"));
                        }
                    }
                    k += 1;
                }
            }
        }
    }

    /// Adds the properties of a declaration.
    #[verifier::loop_isolation(false)]
    fn declare_properties(&mut self, t: &Syntax, path: &str, class: &str, n: usize)
        requires
            t@.wf(),
            n < t@.nodes.len(),
            old(self).symbols.wf(),
        ensures
            final(self).symbols.wf(),
            final(self)@ == with_properties(t@, path@, old(self)@, class@, n, t@.kids(n).len() as int),
    {
        let kids = t.kids(n);
        let ghost start = self@;
        let mut k: usize = 0;
        while k < kids.len()
            invariant
                k <= kids@.len(),
                self.symbols.wf(),
                self@ == with_properties(t@, path@, start, class@, n, k as int),
            decreases kids@.len() - k,
        {
            assert(t@.below(n, kids@[k as int]));
            if t.is(kids[k], "property_element") {
                if let Some(ident) = declared_variable(t, kids[k]) {
                    self.declare_property(t, path, class, ident, t.field(n, "type"));
                }
            }
            k += 1;
        }
    }

    /// Adds a constant.
    fn declare_constant(&mut self, t: &Syntax, path: &str, class: &Option<String>, name_node: usize)
        requires
            t@.wf(),
            name_node < t@.nodes.len(),
            old(self).symbols.wf(),
        ensures
            final(self).symbols.wf(),
            final(self)@ == (DeclState {
                symbols: with_constant(
                    t@,
                    path@,
                    old(self)@.symbols,
                    old(self)@.namespace,
                    opt_view(*class),
                    name_node,
                ),
                ..old(self)@
            }),
    {
        let name = t.text(name_node);
        let place = site(t, path, name_node);
        match class {
            Some(c) => {
                let key = to_lower(c.as_str());
                self.symbols.class_constants.push(key.as_str(), name.as_str(), place);
            },
            None => {
                let key = qualify(self.namespace.as_str(), name.as_str());
                self.symbols.constants.push(key.as_str(), key.as_str(), place);
            },
        }
    }

    /// Adds the constants of a declaration.
    #[verifier::loop_isolation(false)]
    fn declare_constants(&mut self, t: &Syntax, path: &str, class: &Option<String>, n: usize)
        requires
            t@.wf(),
            n < t@.nodes.len(),
            old(self).symbols.wf(),
        ensures
            final(self).symbols.wf(),
            final(self)@ == with_constants(
                t@,
                path@,
                old(self)@,
                opt_view(*class),
                t@.kids(n),
                t@.kids(n).len() as int,
            ),
    {
        let kids = t.kids(n);
        let ghost start = self@;
        let mut k: usize = 0;
        while k < kids.len()
            invariant
                k <= kids@.len(),
                self.symbols.wf(),
                self@ == with_constants(t@, path@, start, opt_view(*class), kids@, k as int),
            decreases kids@.len() - k,
        {
            assert(t@.below(n, kids@[k as int]));
            if t.is(kids[k], "const_element") {
                if let Some(name_node) = t.kid_of(kids[k], "name") {
                    self.declare_constant(t, path, class, name_node);
                }
            }
            k += 1;
        }
    }

    /// Adds a class, without what is in it; returns its full name.
    fn add_class(&mut self, t: &Syntax, path: &str, name_node: usize) -> (fqn: String)
        requires
            t@.wf(),
            name_node < t@.nodes.len(),
            old(self).symbols.wf(),
        ensures
            final(self).symbols.wf(),
            final(self)@ == with_class(t@, path@, old(self)@, name_node),
            fqn@ == qualified(old(self)@.namespace, t@.text(name_node)),
    {
        let name = t.text(name_node);
        let fqn = qualify(self.namespace.as_str(), name.as_str());
        let key = to_lower(fqn.as_str());
        let entry = ClassEntry { fqn: copy(fqn.as_str()), site: site(t, path, name_node) };
        self.symbols.classes.push(key.as_str(), key.as_str(), entry);
        let short = to_lower(name.as_str());
        self.symbols.short_names.push(short.as_str(), path, key);
        fqn
    }

    /// Adds a function.
    fn add_function(&mut self, t: &Syntax, path: &str, n: usize)
        requires
            t@.wf(),
            n < t@.nodes.len(),
            old(self).symbols.wf(),
        ensures
            final(self).symbols.wf(),
            final(self)@ == with_function(t@, path@, old(self)@, n),
    {
        if let Some(name_node) = t.field(n, "name") {
            let name = t.text(name_node);
            let full = qualify(self.namespace.as_str(), name.as_str());
            let key = to_lower(full.as_str());
            self.symbols.functions.push(key.as_str(), key.as_str(), site(t, path, name_node));
        }
    }
}

/// Reads all children of a node.
#[verifier::loop_isolation(false)]
fn walk_decl_children(t: &Syntax, path: &str, class: &Option<String>, st: &mut Collector, n: usize)
    requires
        t@.wf(),
        n < t@.nodes.len(),
        old(st).symbols.wf(),
    ensures
        final(st).symbols.wf(),
        final(st)@ == declare_all(t@, path@, opt_view(*class), old(st)@, n),
    decreases t@.nodes.len() - n, 15int,
{
    let kids = t.kids(n);
    let ghost start = st@;
    let mut k: usize = 0;
    while k < kids.len()
        invariant
            k <= kids@.len(),
            st.symbols.wf(),
            st@ == declare_kids(t@, path@, opt_view(*class), start, n, k as int),
        decreases kids@.len() - k,
    {
        assert(t@.below(n, kids@[k as int]));
        walk_decls(t, path, class, st, kids[k]);
        k += 1;
    }
}

/// Reads a class.
fn read_class(t: &Syntax, path: &str, st: &mut Collector, n: usize)
    requires
        t@.wf(),
        n < t@.nodes.len(),
        old(st).symbols.wf(),
    ensures
        final(st).symbols.wf(),
        final(st)@ == declare_class(t@, path@, old(st)@, n),
    decreases t@.nodes.len() - n, 20int,
{
    if let Some(name_node) = t.field(n, "name") {
        let outer = copy(st.namespace.as_str());
        let fqn = st.add_class(t, path, name_node);
        st.push_bases(t, path, fqn.as_str(), n);
        if let Some(body) = t.field(n, "body") {
            let class = Some(fqn);
            walk_decl_children(t, path, &class, st, body);
            st.namespace = outer;
        }
    }
}

/// Reads one node.
fn walk_decls(t: &Syntax, path: &str, class: &Option<String>, st: &mut Collector, n: usize)
    requires
        t@.wf(),
        n < t@.nodes.len(),
        old(st).symbols.wf(),
    ensures
        final(st).symbols.wf(),
        final(st)@ == declare_at(t@, path@, opt_view(*class), old(st)@, n),
    decreases t@.nodes.len() - n, 50int,
{
    if t.is(n, "namespace_definition") {
        let mut namespace = namespace_of(t, n);
        match t.field(n, "body") {
            Some(body) => {
                std::mem::swap(&mut namespace, &mut st.namespace);
                walk_decl_children(t, path, class, st, body);
                st.namespace = namespace;
            },
            None => {
                st.namespace = namespace;
            },
        }
    } else if t.is(n, "namespace_use_declaration") {
        st.index_use_declaration(t, path, n);
    } else if t.is(n, "class_declaration") || t.is(n, "interface_declaration") || t.is(n, "trait_declaration") || t.is(
        n,
        "enum_declaration",
    ) {
        read_class(t, path, st, n);
    } else if t.is(n, "method_declaration") {
        if let Some(c) = class {
            st.declare_method(t, path, c.as_str(), n);
        }
        walk_decl_children(t, path, class, st, n);
    } else if t.is(n, "function_definition") {
        st.add_function(t, path, n);
        walk_decl_children(t, path, class, st, n);
    } else if t.is(n, "property_declaration") {
        if let Some(c) = class {
            st.declare_properties(t, path, c.as_str(), n);
        }
    } else if t.is(n, "const_declaration") {
        st.declare_constants(t, path, class, n);
    } else if t.is(n, "enum_case") {
        if class.is_some() {
            if let Some(name_node) = t.field(n, "name") {
                st.declare_constant(t, path, class, name_node);
            }
        }
    } else if t.is(n, "use_declaration") {
        if let Some(c) = class {
            st.push_traits(t, path, c.as_str(), n);
        }
    } else {
        walk_decl_children(t, path, class, st, n);
    }
}

/// Reads what a file declares and imports.
pub fn collect_file(t: &Syntax, path: &str, st: &mut Collector, root: usize)
    requires
        t@.wf(),
        root < t@.nodes.len(),
        old(st).symbols.wf(),
    ensures
        final(st).symbols.wf(),
        final(st)@ == declare_file(t@, path@, old(st)@.symbols, old(st)@.pending, root),
{
    let nothing = String::new();
    assert(nothing@ =~= Seq::<char>::empty());
    st.namespace = nothing;
    walk_decl_children(t, path, &None, st, root);
}

/// Looks up a pending name.
fn link_one(s: &mut Symbols, p: &Pending)
    requires
        old(s).wf(),
    ensures
        final(s).wf(),
        final(s)@ == with_link(old(s)@, p@),
{
    let class = s.class_ref(p.name.as_str(), p.path.as_str(), p.namespace.as_str());
    match &p.property {
        Some(property) => {
            s.property_types.push(p.class.as_str(), property.as_str(), class);
        },
        None => {
            if let ClassRef::Declared(parent) = class {
                s.parents.push(p.class.as_str(), p.class.as_str(), parent);
            }
        },
    }
}

/// Looks up the pending names, when every file was read.
#[verifier::loop_isolation(false)]
pub fn link(s: &mut Symbols, pending: &Vec<Pending>)
    requires
        old(s).wf(),
    ensures
        final(s).wf(),
        final(s)@ == with_links(old(s)@, views(pending@), pending@.len() as int),
{
    let ghost all = views(pending@);
    let ghost start = s@;
    let mut k: usize = 0;
    while k < pending.len()
        invariant
            k <= pending@.len(),
            s.wf(),
            s@ == with_links(start, all, k as int),
        decreases pending@.len() - k,
    {
        assert(all[k as int] == pending@[k as int]@);
        link_one(s, &pending[k]);
        k += 1;
    }
}

}
