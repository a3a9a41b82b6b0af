//! The symbols that PHP sources declare, and what a name means among them.
//!
//! A table of symbols is no type checker. What it cannot tell it names, as a
//! symbol outside the project, or leaves alone.

use vstd::prelude::*;

use crate::php::deps::{builtin, classify_import, is_builtin, php_origin};
use crate::php::log::{
    first_under, group_values, last_under, values_of, Log, RowView,
};
use crate::php::names::{qualified, qualify};
use crate::strings::{
    after_last, contains_char, cut, has_char, replace, replaced, split_once, strip_front, strip_leading, strip_prefix,
    tail_after, without_leading,
};
use crate::text::{
    add_item, ascii_lowercase, concat2, concat3, concat4, copy, holds, lowercase, opt_view, same, to_ascii_lower,
    to_lower, views,
};

verus! {

/// Where a name is declared: the file, and the start of the name.
#[derive(Debug)]
pub struct Site {
    pub path: String,
    pub line: u32,
    pub col: u32,
}

/// The mathematical reading of a site.
pub struct SiteView {
    pub path: Seq<char>,
    pub line: u32,
    pub col: u32,
}

impl View for Site {
    type V = SiteView;

    open spec fn view(&self) -> SiteView {
        SiteView { path: self.path@, line: self.line, col: self.col }
    }
}

impl Site {
    /// The same site.
    pub fn copy(&self) -> (r: Site)
        ensures
            r@ == self@,
    {
        Site { path: copy(self.path.as_str()), line: self.line, col: self.col }
    }
}

/// Which table a use of a member means. One class may have a method and a
/// property of the same name.
#[derive(Clone, Copy, PartialEq, Eq, Structural)]
pub enum Slot {
    Method,
    Property,
    Constant,
}

/// What a name may mean where it stands.
#[derive(Clone, Copy, PartialEq, Eq, Structural)]
pub enum NameKind {
    Class,
    Function,
    Value,
}

/// A class: one that the sources declare, under its key, or another, by name.
#[derive(Debug)]
pub enum ClassRef {
    Declared(String),
    Foreign(String),
}

/// The mathematical reading of a class.
pub enum ClassRefView {
    Declared(Seq<char>),
    Foreign(Seq<char>),
}

impl View for ClassRef {
    type V = ClassRefView;

    open spec fn view(&self) -> ClassRefView {
        match self {
            ClassRef::Declared(key) => ClassRefView::Declared(key@),
            ClassRef::Foreign(fqn) => ClassRefView::Foreign(fqn@),
        }
    }
}

impl ClassRef {
    /// The same class.
    pub fn copy(&self) -> (r: ClassRef)
        ensures
            r@ == self@,
    {
        match self {
            ClassRef::Declared(key) => ClassRef::Declared(copy(key.as_str())),
            ClassRef::Foreign(fqn) => ClassRef::Foreign(copy(fqn.as_str())),
        }
    }
}

/// A copy of a class that may be there.
pub fn copy_class(class: &Option<ClassRef>) -> (r: Option<ClassRef>)
    ensures
        opt_view(r) == opt_view(*class),
{
    match class {
        Some(c) => Some(c.copy()),
        None => None,
    }
}

/// What a use of a name refers to.
#[derive(Debug)]
pub enum Answer {
    /// A declaration of the project.
    Internal(Site),
    /// A name outside of it, and where that comes from.
    External(String, &'static str),
}

/// The mathematical reading of an answer.
pub enum AnswerView {
    Internal(SiteView),
    External(Seq<char>, Seq<char>),
}

impl View for Answer {
    type V = AnswerView;

    open spec fn view(&self) -> AnswerView {
        match self {
            Answer::Internal(site) => AnswerView::Internal(site@),
            Answer::External(name, origin) => AnswerView::External(name@, origin@),
        }
    }
}

/// A class that the sources declare. Keys are in lower case; this is how it is
/// written.
#[derive(Debug)]
pub struct ClassEntry {
    pub fqn: String,
    pub site: Site,
}

/// The mathematical reading of a declared class.
pub struct ClassEntryView {
    pub fqn: Seq<char>,
    pub site: SiteView,
}

impl View for ClassEntry {
    type V = ClassEntryView;

    open spec fn view(&self) -> ClassEntryView {
        ClassEntryView { fqn: self.fqn@, site: self.site@ }
    }
}

/// The tables. Names of classes, functions and methods are compared in lower
/// case; those of properties and constants as they are written.
pub struct Symbols {
    pub classes: Log<ClassEntry>,
    pub functions: Log<Site>,
    pub constants: Log<Site>,
    /// The members of classes, under the key of the class.
    pub methods: Log<Site>,
    pub properties: Log<Site>,
    pub class_constants: Log<Site>,
    /// The base classes, interfaces and traits of classes.
    pub parents: Log<String>,
    pub property_types: Log<ClassRef>,
    /// The keys of classes, under their short name and their file.
    pub short_names: Log<String>,
    /// What is imported, under the local name and the file.
    pub class_uses: Log<String>,
    pub function_uses: Log<String>,
    pub constant_uses: Log<String>,
    /// Prefixes of namespaces and their directories, the longest prefix first.
    pub psr4: Vec<(String, String)>,
    pub internal: Vec<String>,
    pub vendors: Vec<String>,
}

/// The mathematical reading of the tables.
pub struct SymbolsView {
    pub classes: Seq<RowView<ClassEntryView>>,
    pub functions: Seq<RowView<SiteView>>,
    pub constants: Seq<RowView<SiteView>>,
    pub methods: Seq<RowView<SiteView>>,
    pub properties: Seq<RowView<SiteView>>,
    pub class_constants: Seq<RowView<SiteView>>,
    pub parents: Seq<RowView<Seq<char>>>,
    pub property_types: Seq<RowView<ClassRefView>>,
    pub short_names: Seq<RowView<Seq<char>>>,
    pub class_uses: Seq<RowView<Seq<char>>>,
    pub function_uses: Seq<RowView<Seq<char>>>,
    pub constant_uses: Seq<RowView<Seq<char>>>,
    pub psr4: Seq<(Seq<char>, Seq<char>)>,
    pub internal: Seq<Seq<char>>,
    pub vendors: Seq<Seq<char>>,
}

impl View for Symbols {
    type V = SymbolsView;

    open spec fn view(&self) -> SymbolsView {
        SymbolsView {
            classes: self.classes@,
            functions: self.functions@,
            constants: self.constants@,
            methods: self.methods@,
            properties: self.properties@,
            class_constants: self.class_constants@,
            parents: self.parents@,
            property_types: self.property_types@,
            short_names: self.short_names@,
            class_uses: self.class_uses@,
            function_uses: self.function_uses@,
            constant_uses: self.constant_uses@,
            psr4: views(self.psr4@),
            internal: views(self.internal@),
            vendors: views(self.vendors@),
        }
    }
}

/// Tables without a symbol.
pub open spec fn no_symbols(
    psr4: Seq<(Seq<char>, Seq<char>)>,
    internal: Seq<Seq<char>>,
    vendors: Seq<Seq<char>>,
) -> SymbolsView {
    SymbolsView {
        classes: Seq::empty(),
        functions: Seq::empty(),
        constants: Seq::empty(),
        methods: Seq::empty(),
        properties: Seq::empty(),
        class_constants: Seq::empty(),
        parents: Seq::empty(),
        property_types: Seq::empty(),
        short_names: Seq::empty(),
        class_uses: Seq::empty(),
        function_uses: Seq::empty(),
        constant_uses: Seq::empty(),
        psr4,
        internal,
        vendors,
    }
}

// ---------------------------------------------------------------------------
// What a written name may mean
// ---------------------------------------------------------------------------

/// The value under a key alone.
pub open spec fn named<B>(log: Seq<RowView<B>>, key: Seq<char>) -> Option<B> {
    first_under(log, key, key)
}

/// The full names that a written name may mean, the most precise first.
pub struct CandidatesView {
    pub names: Seq<Seq<char>>,
    /// Whether the first is what it means, and no other.
    pub bound: bool,
}

/// What a local name stands for in a file. Only where it stands alone can it be
/// an imported function or constant.
pub open spec fn alias_of(s: SymbolsView, head: Seq<char>, alone: bool, path: Seq<char>, kind: NameKind) -> Option<Seq<char>> {
    let own = if !alone {
        None
    } else {
        match kind {
            NameKind::Function => last_under(s.function_uses, head, path),
            NameKind::Value => last_under(s.constant_uses, head, path),
            NameKind::Class => None,
        }
    };
    match own {
        Some(target) => Some(target),
        None => last_under(s.class_uses, head, path),
    }
}

/// The full names that a written name may mean: as it stands when it begins
/// with a separator, then by the imports of its file, then in its namespace,
/// then globally.
pub open spec fn candidates_of(s: SymbolsView, name: Seq<char>, path: Seq<char>, namespace: Seq<char>, kind: NameKind) -> CandidatesView {
    match strip_front(name, "\\"@) {
        Some(absolute) => CandidatesView { names: seq![absolute], bound: true },
        None => {
            let head = match cut(name, "\\"@) {
                Some(parts) => parts.0,
                None => name,
            };
            let rest = match cut(name, "\\"@) {
                Some(parts) => Some(parts.1),
                None => None,
            };
            if ascii_lowercase(head) == "namespace"@ {
                CandidatesView {
                    names: match rest {
                        Some(r) => seq![qualified(namespace, r)],
                        None => seq![namespace],
                    },
                    bound: true,
                }
            } else {
                match alias_of(s, lowercase(head), rest is None, path, kind) {
                    Some(target) => CandidatesView {
                        names: match rest {
                            Some(r) => seq![target + "\\"@ + r],
                            None => seq![target],
                        },
                        bound: true,
                    },
                    None => CandidatesView {
                        names: if namespace.len() == 0 {
                            seq![name]
                        } else {
                            seq![qualified(namespace, name), name]
                        },
                        bound: false,
                    },
                }
            }
        },
    }
}

/// The name to report where nothing is declared. A class is never looked for
/// globally; a function or a constant is, in the end.
pub open spec fn reportable_of(c: CandidatesView, kind: NameKind) -> Seq<char> {
    if c.names.len() == 0 {
        Seq::empty()
    } else if c.bound || kind == NameKind::Class {
        c.names[0]
    } else {
        c.names.last()
    }
}

/// A name outside the project.
pub open spec fn outside(s: SymbolsView, name: Seq<char>) -> AnswerView {
    AnswerView::External(name, php_origin(name, s.internal, s.vendors))
}

/// The key of the first candidate from `i` on that is a declared class.
pub open spec fn declared_from(s: SymbolsView, names: Seq<Seq<char>>, i: int) -> Option<Seq<char>>
    decreases names.len() - i,
{
    if i < 0 || i >= names.len() {
        None
    } else if named(s.classes, lowercase(names[i])) is Some {
        Some(lowercase(names[i]))
    } else {
        declared_from(s, names, i + 1)
    }
}

/// The file that an entry of the map gives for what follows the prefix.
pub open spec fn mapped_file(dir: Seq<char>, tail: Seq<char>) -> Seq<char> {
    let path = replaced(tail, "\\"@, "/"@);
    if dir.len() == 0 {
        path + ".php"@
    } else {
        dir + "/"@ + path + ".php"@
    }
}

/// The class that one entry of the map leads to.
pub open spec fn mapped_class(s: SymbolsView, fqn: Seq<char>, prefix: Seq<char>, dir: Seq<char>) -> Option<Seq<char>> {
    match strip_front(fqn, prefix) {
        Some(rest) => {
            let tail = without_leading(rest, '\\');
            if tail.len() == 0 {
                None
            } else {
                first_under(s.short_names, lowercase(after_last(tail, "\\"@)), mapped_file(dir, tail))
            }
        },
        None => None,
    }
}

/// The class that the entries of the map from `i` on lead to first.
pub open spec fn mapped_from(s: SymbolsView, fqn: Seq<char>, i: int) -> Option<Seq<char>>
    decreases s.psr4.len() - i,
{
    if i < 0 || i >= s.psr4.len() {
        None
    } else {
        match mapped_class(s, fqn, s.psr4[i].0, s.psr4[i].1) {
            Some(key) => Some(key),
            None => mapped_from(s, fqn, i + 1),
        }
    }
}

/// The class in the file that a full name belongs in.
pub open spec fn psr4_class(s: SymbolsView, fqn: Seq<char>) -> Option<Seq<char>> {
    mapped_from(s, without_leading(fqn, '\\'), 0)
}

/// The class in the file that the first candidate from `i` on belongs in.
pub open spec fn psr4_from(s: SymbolsView, names: Seq<Seq<char>>, i: int) -> Option<Seq<char>>
    decreases names.len() - i,
{
    if i < 0 || i >= names.len() {
        None
    } else {
        match psr4_class(s, names[i]) {
            Some(key) => Some(key),
            None => psr4_from(s, names, i + 1),
        }
    }
}

/// The class that a written name means. A class of PHP itself is one wherever
/// it is written.
pub open spec fn class_of(s: SymbolsView, name: Seq<char>, path: Seq<char>, namespace: Seq<char>) -> ClassRefView {
    let c = candidates_of(s, name, path, namespace, NameKind::Class);
    match declared_from(s, c.names, 0) {
        Some(key) => ClassRefView::Declared(key),
        None => match psr4_from(s, c.names, 0) {
            Some(key) => ClassRefView::Declared(key),
            None => {
                let bare = without_leading(name, '\\');
                if !has_char(bare, '\\') && builtin(bare) {
                    ClassRefView::Foreign(bare)
                } else {
                    ClassRefView::Foreign(reportable_of(c, NameKind::Class))
                }
            },
        },
    }
}

/// A class as it is written where it is declared.
pub open spec fn written_class(s: SymbolsView, class: ClassRefView) -> Seq<char> {
    match class {
        ClassRefView::Declared(key) => match named(s.classes, key) {
            Some(entry) => entry.fqn,
            None => key,
        },
        ClassRefView::Foreign(fqn) => fqn,
    }
}

// ---------------------------------------------------------------------------
// Members
// ---------------------------------------------------------------------------

/// The table of a slot.
pub open spec fn slot_table(s: SymbolsView, slot: Slot) -> Seq<RowView<SiteView>> {
    match slot {
        Slot::Method => s.methods,
        Slot::Property => s.properties,
        Slot::Constant => s.class_constants,
    }
}

/// The key of a member.
pub open spec fn slot_key(slot: Slot, member: Seq<char>) -> Seq<char> {
    match slot {
        Slot::Method => lowercase(member),
        _ => member,
    }
}

/// How many of the first `n` links start at a class that was not seen.
pub open spec fn unseen(parents: Seq<RowView<Seq<char>>>, seen: Seq<Seq<char>>, n: int) -> nat
    decreases n,
{
    if n <= 0 || n > parents.len() {
        0
    } else if seen.contains(parents[n - 1].group) {
        unseen(parents, seen, n - 1)
    } else {
        unseen(parents, seen, n - 1) + 1
    }
}

/// Seeing a class takes its links off those that start at unseen classes.
pub proof fn seeing_takes_links(parents: Seq<RowView<Seq<char>>>, seen: Seq<Seq<char>>, class: Seq<char>, n: int)
    requires
        0 <= n <= parents.len(),
        !seen.contains(class),
    ensures
        unseen(parents, seen.push(class), n) + group_values(parents, class, n).len() == unseen(parents, seen, n),
    decreases n,
{
    if n > 0 {
        seeing_takes_links(parents, seen, class, n - 1);
        let group = parents[n - 1].group;
        assert(seen.push(class).contains(group) <==> seen.contains(group) || group == class) by {
            if seen.contains(group) {
                let j = choose|j: int| 0 <= j < seen.len() && seen[j] == group;
                assert(seen.push(class)[j] == group);
            }
            if group == class {
                assert(seen.push(class)[seen.len() as int] == group);
            }
            if seen.push(class).contains(group) {
                let j = choose|j: int| 0 <= j < seen.push(class).len() && seen.push(class)[j] == group;
                if j < seen.len() {
                    assert(seen[j] == group);
                }
            }
        }
    }
}

/// The value of a group that counts: the newest one, or the first.
pub open spec fn value_under<B>(table: Seq<RowView<B>>, group: Seq<char>, key: Seq<char>, newest: bool) -> Option<B> {
    if newest {
        last_under(table, group, key)
    } else {
        first_under(table, group, key)
    }
}

/// The value under a key that the classes of a stack have or inherit: that of
/// the class on top, else of what it extends, implements and uses, the last of
/// these first. A class is looked at once, so that a cycle ends the search.
pub open spec fn inherited<B>(
    parents: Seq<RowView<Seq<char>>>,
    table: Seq<RowView<B>>,
    key: Seq<char>,
    newest: bool,
    stack: Seq<Seq<char>>,
    seen: Seq<Seq<char>>,
) -> Option<B>
    decreases unseen(parents, seen, parents.len() as int), stack.len(),
{
    if stack.len() == 0 {
        None
    } else {
        let current = stack.last();
        let rest = stack.drop_last();
        if seen.contains(current) {
            inherited(parents, table, key, newest, rest, seen)
        } else {
            match value_under(table, current, key, newest) {
                Some(v) => Some(v),
                None => {
                    proof {
                        seeing_takes_links(parents, seen, current, parents.len() as int);
                    }
                    inherited(parents, table, key, newest, rest + values_of(parents, current), seen.push(current))
                },
            }
        }
    }
}

/// The value under a key that a class has or inherits.
pub open spec fn in_class<B>(
    parents: Seq<RowView<Seq<char>>>,
    table: Seq<RowView<B>>,
    class: Seq<char>,
    key: Seq<char>,
    newest: bool,
) -> Option<B> {
    inherited(parents, table, key, newest, seq![class], Seq::empty())
}

/// What a class declares itself is never hidden by what it inherits.
pub proof fn own_members_win<B>(
    parents: Seq<RowView<Seq<char>>>,
    table: Seq<RowView<B>>,
    class: Seq<char>,
    key: Seq<char>,
    newest: bool,
)
    requires
        value_under(table, class, key, newest) is Some,
    ensures
        in_class(parents, table, class, key, newest) == value_under(table, class, key, newest),
{
    assert(seq![class].last() == class);
}

/// The search goes up: what the last parent of a class declares is found where
/// the class itself does not declare it.
pub proof fn parents_are_searched<B>(
    parents: Seq<RowView<Seq<char>>>,
    table: Seq<RowView<B>>,
    class: Seq<char>,
    key: Seq<char>,
    newest: bool,
)
    requires
        value_under(table, class, key, newest) is None,
        values_of(parents, class).len() > 0,
        values_of(parents, class).last() != class,
        value_under(table, values_of(parents, class).last(), key, newest) is Some,
    ensures
        in_class(parents, table, class, key, newest) == value_under(
            table,
            values_of(parents, class).last(),
            key,
            newest,
        ),
{
    let above = values_of(parents, class);
    let stack = seq![class];
    let next = stack.drop_last() + above;
    let seen = Seq::<Seq<char>>::empty().push(class);
    assert(stack.last() == class);
    assert(next.last() == above.last());
    assert(!seen.contains(above.last()));
    assert(inherited(parents, table, key, newest, stack, Seq::empty()) == inherited(
        parents,
        table,
        key,
        newest,
        next,
        seen,
    ));
}

/// What a use of a member of a class refers to. What the class is not known to
/// have comes from outside, and keeps its name.
pub open spec fn member_answer_of(s: SymbolsView, class: ClassRefView, member: Seq<char>, slot: Slot) -> AnswerView {
    let found = match class {
        ClassRefView::Declared(key) => in_class(s.parents, slot_table(s, slot), key, slot_key(slot, member), false),
        ClassRefView::Foreign(_) => None,
    };
    match found {
        Some(site) => AnswerView::Internal(site),
        None => outside(s, written_class(s, class) + "\\"@ + member),
    }
}

// ---------------------------------------------------------------------------
// Names
// ---------------------------------------------------------------------------

/// Where a class with a full name is declared.
pub open spec fn class_site(s: SymbolsView, fqn: Seq<char>) -> Option<SiteView> {
    match named(s.classes, lowercase(fqn)) {
        Some(entry) => Some(entry.site),
        None => None,
    }
}

/// The first of two sites that is there.
pub open spec fn either(a: Option<SiteView>, b: Option<SiteView>) -> Option<SiteView> {
    match a {
        Some(site) => Some(site),
        None => b,
    }
}

/// Where a full name is declared, as its place reads it: a call names a function
/// first, a type a class, a bare name anything.
pub open spec fn site_of(s: SymbolsView, fqn: Seq<char>, kind: NameKind) -> Option<SiteView> {
    match kind {
        NameKind::Class => class_site(s, fqn),
        NameKind::Function => either(named(s.functions, lowercase(fqn)), class_site(s, fqn)),
        NameKind::Value => either(
            class_site(s, fqn),
            either(named(s.constants, fqn), named(s.functions, lowercase(fqn))),
        ),
    }
}

/// Where the first candidate from `i` on is declared that is.
pub open spec fn site_from(s: SymbolsView, names: Seq<Seq<char>>, kind: NameKind, i: int) -> Option<SiteView>
    decreases names.len() - i,
{
    if i < 0 || i >= names.len() {
        None
    } else {
        match site_of(s, names[i], kind) {
            Some(site) => Some(site),
            None => site_from(s, names, kind, i + 1),
        }
    }
}

/// Where the class that a name means is declared, if it is.
pub open spec fn reached_class(s: SymbolsView, name: Seq<char>, path: Seq<char>, namespace: Seq<char>) -> Option<SiteView> {
    match class_of(s, name, path, namespace) {
        ClassRefView::Declared(key) => match named(s.classes, key) {
            Some(entry) => Some(entry.site),
            None => None,
        },
        ClassRefView::Foreign(_) => None,
    }
}

/// What a name refers to that is written in an expression or a type. A name
/// that nothing declares is one outside the project.
pub open spec fn name_answer_of(s: SymbolsView, name: Seq<char>, path: Seq<char>, namespace: Seq<char>, kind: NameKind) -> AnswerView {
    let c = candidates_of(s, name, path, namespace, kind);
    match site_from(s, c.names, kind, 0) {
        Some(site) => AnswerView::Internal(site),
        None => {
            let reached = if kind == NameKind::Function {
                None
            } else {
                reached_class(s, name, path, namespace)
            };
            match reached {
                Some(site) => AnswerView::Internal(site),
                None => outside(s, reportable_of(c, kind)),
            }
        },
    }
}

/// A name that begins with a separator means itself, whatever its file imports
/// and wherever it stands.
pub proof fn absolute_names_are_bound(
    s: SymbolsView,
    name: Seq<char>,
    path: Seq<char>,
    other: Seq<char>,
    namespace: Seq<char>,
    elsewhere: Seq<char>,
    kind: NameKind,
)
    requires
        strip_front(name, "\\"@) is Some,
    ensures
        candidates_of(s, name, path, namespace, kind) == candidates_of(s, name, other, elsewhere, kind),
        name_answer_of(s, name, path, namespace, kind) == name_answer_of(s, name, other, elsewhere, kind),
{
    assert(candidates_of(s, name, path, namespace, NameKind::Class) == candidates_of(
        s,
        name,
        other,
        elsewhere,
        NameKind::Class,
    ));
}

// ---------------------------------------------------------------------------
// Looking up
// ---------------------------------------------------------------------------

/// The full names that a written name may mean.
struct Candidates {
    names: Vec<String>,
    bound: bool,
}

impl View for Candidates {
    type V = CandidatesView;

    closed spec fn view(&self) -> CandidatesView {
        CandidatesView { names: views(self.names@), bound: self.bound }
    }
}

/// One full name, which is what is meant.
fn only(name: String) -> (r: Candidates)
    ensures
        r@ == (CandidatesView { names: seq![name@], bound: true }),
{
    let ghost v = name@;
    let mut names: Vec<String> = Vec::new();
    add_item(&mut names, name);
    let r = Candidates { names, bound: true };
    assert(r@.names =~= seq![v]);
    r
}

/// A copy of a text that may be there.
fn copied(s: Option<&String>) -> (r: Option<String>)
    ensures
        match s {
            Some(t) => opt_view(r) == Some(t@),
            None => r is None,
        },
{
    match s {
        Some(t) => Some(copy(t.as_str())),
        None => None,
    }
}

/// A copy of a site that may be there.
fn copied_site(s: Option<&Site>) -> (r: Option<Site>)
    ensures
        match s {
            Some(t) => opt_view(r) == Some(t@),
            None => r is None,
        },
{
    match s {
        Some(t) => Some(t.copy()),
        None => None,
    }
}

impl Symbols {
    /// Whether the tables are sound.
    pub open spec fn wf(&self) -> bool {
        &&& self.classes.wf()
        &&& self.functions.wf()
        &&& self.constants.wf()
        &&& self.methods.wf()
        &&& self.properties.wf()
        &&& self.class_constants.wf()
        &&& self.parents.wf()
        &&& self.property_types.wf()
        &&& self.short_names.wf()
        &&& self.class_uses.wf()
        &&& self.function_uses.wf()
        &&& self.constant_uses.wf()
    }

    /// Tables without a symbol.
    pub fn new(psr4: Vec<(String, String)>, internal: Vec<String>, vendors: Vec<String>) -> (r: Symbols)
        ensures
            r.wf(),
            r@ == no_symbols(views(psr4@), views(internal@), views(vendors@)),
    {
        let r = Symbols {
            classes: Log::new(),
            functions: Log::new(),
            constants: Log::new(),
            methods: Log::new(),
            properties: Log::new(),
            class_constants: Log::new(),
            parents: Log::new(),
            property_types: Log::new(),
            short_names: Log::new(),
            class_uses: Log::new(),
            function_uses: Log::new(),
            constant_uses: Log::new(),
            psr4,
            internal,
            vendors,
        };
        assert(r@.classes =~= Seq::empty());
        assert(r@.functions =~= Seq::empty());
        assert(r@.constants =~= Seq::empty());
        assert(r@.methods =~= Seq::empty());
        assert(r@.properties =~= Seq::empty());
        assert(r@.class_constants =~= Seq::empty());
        assert(r@.parents =~= Seq::empty());
        assert(r@.property_types =~= Seq::empty());
        assert(r@.short_names =~= Seq::empty());
        assert(r@.class_uses =~= Seq::empty());
        assert(r@.function_uses =~= Seq::empty());
        assert(r@.constant_uses =~= Seq::empty());
        r
    }

    /// What a local name stands for in a file.
    fn alias(&self, head: &str, alone: bool, path: &str, kind: NameKind) -> (r: Option<String>)
        requires
            self.wf(),
        ensures
            opt_view(r) == alias_of(self@, head@, alone, path@, kind),
    {
        if alone {
            let own = match kind {
                NameKind::Function => copied(self.function_uses.last(head, path)),
                NameKind::Value => copied(self.constant_uses.last(head, path)),
                NameKind::Class => None,
            };
            if own.is_some() {
                return own;
            }
        }
        copied(self.class_uses.last(head, path))
    }

    /// The full names that a written name may mean.
    fn candidates(&self, name: &str, path: &str, namespace: &str, kind: NameKind) -> (r: Candidates)
        requires
            self.wf(),
        ensures
            r@ == candidates_of(self@, name@, path@, namespace@, kind),
    {
        if let Some(absolute) = strip_prefix(name, "\\") {
            return only(absolute);
        }
        let (head, rest) = match split_once(name, "\\") {
            Some(parts) => (parts.0, Some(parts.1)),
            None => (copy(name), None),
        };
        let word = to_ascii_lower(head.as_str());
        if same(word.as_str(), "namespace") {
            return match rest {
                Some(r) => only(qualify(namespace, r.as_str())),
                None => only(copy(namespace)),
            };
        }
        let lower = to_lower(head.as_str());
        match self.alias(lower.as_str(), rest.is_none(), path, kind) {
            Some(target) => match rest {
                Some(r) => only(concat3(target.as_str(), "\\", r.as_str())),
                None => only(target),
            },
            None => {
                let mut names: Vec<String> = Vec::new();
                if !namespace.is_empty() {
                    add_item(&mut names, qualify(namespace, name));
                }
                add_item(&mut names, copy(name));
                let r = Candidates { names, bound: false };
                assert(r@.names =~= candidates_of(self@, name@, path@, namespace@, kind).names);
                r
            },
        }
    }

    /// A name outside the project.
    fn external(&self, name: String) -> (r: Answer)
        ensures
            r@ == outside(self@, name@),
    {
        let origin = classify_import(name.as_str(), &self.internal, &self.vendors);
        Answer::External(name, origin)
    }

    /// The key of the first candidate that is a declared class.
    #[verifier::loop_isolation(false)]
    fn declared_among(&self, names: &Vec<String>) -> (r: Option<String>)
        requires
            self.wf(),
        ensures
            opt_view(r) == declared_from(self@, views(names@), 0),
    {
        let ghost all = views(names@);
        let mut i: usize = 0;
        while i < names.len()
            invariant
                i <= names@.len(),
                declared_from(self@, all, 0) == declared_from(self@, all, i as int),
            decreases names@.len() - i,
        {
            assert(all[i as int] == names@[i as int]@);
            let key = to_lower(names[i].as_str());
            if self.classes.first(key.as_str(), key.as_str()).is_some() {
                return Some(key);
            }
            i += 1;
        }
        None
    }

    /// The class in the file that a full name belongs in.
    ///
    /// The map has the longest prefix first, so the first entry that fits is the
    /// most precise one.
    #[verifier::loop_isolation(false)]
    pub fn psr4_lookup(&self, fqn: &str) -> (r: Option<String>)
        requires
            self.wf(),
        ensures
            opt_view(r) == psr4_class(self@, fqn@),
    {
        let full = strip_leading(fqn, '\\');
        let ghost map = views(self.psr4@);
        proof {
            reveal_strlit("\\");
        }
        let mut i: usize = 0;
        while i < self.psr4.len()
            invariant
                i <= self.psr4@.len(),
                mapped_from(self@, full@, 0) == mapped_from(self@, full@, i as int),
            decreases self.psr4@.len() - i,
        {
            assert(map[i as int] == self.psr4@[i as int]@);
            let dir = &self.psr4[i].1;
            if let Some(rest) = strip_prefix(full.as_str(), self.psr4[i].0.as_str()) {
                let tail = strip_leading(rest.as_str(), '\\');
                if !tail.as_str().is_empty() {
                    let path = replace(tail.as_str(), "\\", "/");
                    let file = if dir.as_str().is_empty() {
                        concat2(path.as_str(), ".php")
                    } else {
                        concat4(dir.as_str(), "/", path.as_str(), ".php")
                    };
                    let last = tail_after(tail.as_str(), "\\");
                    let short = to_lower(last.as_str());
                    if let Some(key) = self.short_names.first(short.as_str(), file.as_str()) {
                        return Some(copy(key.as_str()));
                    }
                }
            }
            i += 1;
        }
        None
    }

    /// The class in the file that the first candidate belongs in.
    #[verifier::loop_isolation(false)]
    fn psr4_among(&self, names: &Vec<String>) -> (r: Option<String>)
        requires
            self.wf(),
        ensures
            opt_view(r) == psr4_from(self@, views(names@), 0),
    {
        let ghost all = views(names@);
        let mut i: usize = 0;
        while i < names.len()
            invariant
                i <= names@.len(),
                psr4_from(self@, all, 0) == psr4_from(self@, all, i as int),
            decreases names@.len() - i,
        {
            assert(all[i as int] == names@[i as int]@);
            let found = self.psr4_lookup(names[i].as_str());
            if found.is_some() {
                return found;
            }
            i += 1;
        }
        None
    }

    /// The class that a written name means.
    pub fn class_ref(&self, name: &str, path: &str, namespace: &str) -> (r: ClassRef)
        requires
            self.wf(),
        ensures
            r@ == class_of(self@, name@, path@, namespace@),
    {
        let c = self.candidates(name, path, namespace, NameKind::Class);
        if let Some(key) = self.declared_among(&c.names) {
            return ClassRef::Declared(key);
        }
        if let Some(key) = self.psr4_among(&c.names) {
            return ClassRef::Declared(key);
        }
        let bare = strip_leading(name, '\\');
        if !contains_char(bare.as_str(), '\\') && is_builtin(bare.as_str()) {
            return ClassRef::Foreign(bare);
        }
        ClassRef::Foreign(reportable(&c, NameKind::Class))
    }

    /// A class as it is written where it is declared.
    fn class_fqn(&self, class: &ClassRef) -> (r: String)
        requires
            self.wf(),
        ensures
            r@ == written_class(self@, class@),
    {
        match class {
            ClassRef::Declared(key) => match self.classes.first(key.as_str(), key.as_str()) {
                Some(entry) => copy(entry.fqn.as_str()),
                None => copy(key.as_str()),
            },
            ClassRef::Foreign(fqn) => copy(fqn.as_str()),
        }
    }

    /// Where a member is declared that a class has or inherits.
    pub fn find_member(&self, class: &str, member: &str, slot: Slot) -> (r: Option<Site>)
        requires
            self.wf(),
        ensures
            opt_view(r) == in_class(
                self@.parents,
                slot_table(self@, slot),
                class@,
                slot_key(slot, member@),
                false,
            ),
    {
        match slot {
            Slot::Method => {
                let key = to_lower(member);
                copied_site(in_hierarchy(&self.parents, &self.methods, class, key.as_str(), false))
            },
            Slot::Property => copied_site(in_hierarchy(&self.parents, &self.properties, class, member, false)),
            Slot::Constant => copied_site(in_hierarchy(&self.parents, &self.class_constants, class, member, false)),
        }
    }

    /// The class that a property is declared to hold.
    pub fn property_type(&self, class: &str, property: &str) -> (r: Option<ClassRef>)
        requires
            self.wf(),
        ensures
            opt_view(r) == in_class(self@.parents, self@.property_types, class@, property@, true),
    {
        match in_hierarchy(&self.parents, &self.property_types, class, property, true) {
            Some(c) => Some(c.copy()),
            None => None,
        }
    }

    /// What a use of a member of a class refers to.
    pub fn member_answer(&self, class: &ClassRef, member: &str, slot: Slot) -> (r: Answer)
        requires
            self.wf(),
        ensures
            r@ == member_answer_of(self@, class@, member@, slot),
    {
        if let ClassRef::Declared(key) = class {
            if let Some(site) = self.find_member(key.as_str(), member, slot) {
                return Answer::Internal(site);
            }
        }
        let owner = self.class_fqn(class);
        self.external(concat3(owner.as_str(), "\\", member))
    }

    /// Where a class with a full name is declared.
    fn declared_class(&self, fqn: &str) -> (r: Option<Site>)
        requires
            self.wf(),
        ensures
            opt_view(r) == class_site(self@, fqn@),
    {
        let key = to_lower(fqn);
        match self.classes.first(key.as_str(), key.as_str()) {
            Some(entry) => Some(entry.site.copy()),
            None => None,
        }
    }

    /// Where a function with a full name is declared.
    fn declared_function(&self, fqn: &str) -> (r: Option<Site>)
        requires
            self.wf(),
        ensures
            opt_view(r) == named(self@.functions, lowercase(fqn@)),
    {
        let key = to_lower(fqn);
        copied_site(self.functions.first(key.as_str(), key.as_str()))
    }

    /// Where a full name is declared, as its place reads it.
    fn declared(&self, fqn: &str, kind: NameKind) -> (r: Option<Site>)
        requires
            self.wf(),
        ensures
            opt_view(r) == site_of(self@, fqn@, kind),
    {
        match kind {
            NameKind::Class => self.declared_class(fqn),
            NameKind::Function => match self.declared_function(fqn) {
                Some(site) => Some(site),
                None => self.declared_class(fqn),
            },
            NameKind::Value => match self.declared_class(fqn) {
                Some(site) => Some(site),
                None => match copied_site(self.constants.first(fqn, fqn)) {
                    Some(site) => Some(site),
                    None => self.declared_function(fqn),
                },
            },
        }
    }

    /// What a name refers to that is written in an expression or a type.
    #[verifier::loop_isolation(false)]
    pub fn name_answer(&self, name: &str, path: &str, namespace: &str, kind: NameKind) -> (r: Answer)
        requires
            self.wf(),
        ensures
            r@ == name_answer_of(self@, name@, path@, namespace@, kind),
    {
        let c = self.candidates(name, path, namespace, kind);
        let ghost all = views(c.names@);
        let mut i: usize = 0;
        while i < c.names.len()
            invariant
                i <= c.names@.len(),
                site_from(self@, all, kind, 0) == site_from(self@, all, kind, i as int),
            decreases c.names@.len() - i,
        {
            assert(all[i as int] == c.names@[i as int]@);
            if let Some(site) = self.declared(c.names[i].as_str(), kind) {
                return Answer::Internal(site);
            }
            i += 1;
        }
        if kind != NameKind::Function {
            if let ClassRef::Declared(key) = self.class_ref(name, path, namespace) {
                if let Some(entry) = self.classes.first(key.as_str(), key.as_str()) {
                    return Answer::Internal(entry.site.copy());
                }
            }
        }
        self.external(reportable(&c, kind))
    }
}

/// The value under a key that a class has or inherits.
#[verifier::loop_isolation(false)]
fn in_hierarchy<'a, A: View>(parents: &Log<String>, table: &'a Log<A>, class: &str, key: &str, newest: bool) -> (r: Option<
    &'a A,
>)
    requires
        parents.wf(),
        table.wf(),
    ensures
        match r {
            Some(v) => in_class(parents@, table@, class@, key@, newest) == Some(v@),
            None => in_class(parents@, table@, class@, key@, newest) is None,
        },
{
    let mut seen: Vec<String> = Vec::new();
    let mut stack: Vec<String> = Vec::new();
    assert(views(seen@) =~= Seq::<Seq<char>>::empty());
    add_item(&mut stack, copy(class));
    assert(views(stack@) =~= seq![class@]);
    let ghost whole = in_class(parents@, table@, class@, key@, newest);
    while stack.len() > 0
        invariant
            whole == inherited(parents@, table@, key@, newest, views(stack@), views(seen@)),
        decreases unseen(parents@, views(seen@), parents@.len() as int), stack@.len(),
    {
        let ghost names = views(stack@);
        let ghost known = views(seen@);
        let last: usize = stack.len() - 1;
        assert(names.last() == stack@[last as int]@);
        let current = copy(stack[last].as_str());
        stack.pop();
        assert(views(stack@) =~= names.drop_last());
        if !holds(&seen, current.as_str()) {
            let found = if newest {
                table.last(current.as_str(), key)
            } else {
                table.first(current.as_str(), key)
            };
            if found.is_some() {
                return found;
            }
            proof {
                seeing_takes_links(parents@, known, current@, parents@.len() as int);
            }
            let count: usize = parents.group_len(current.as_str());
            let ghost above = values_of(parents@, current@);
            let mut i: usize = 0;
            assert(names.drop_last() + above.take(0) =~= names.drop_last());
            while i < count
                invariant
                    i <= count,
                    count == above.len(),
                    views(stack@) == names.drop_last() + above.take(i as int),
                decreases count - i,
            {
                let parent = parents.group_at(current.as_str(), i);
                add_item(&mut stack, copy(parent.as_str()));
                assert(above.take(i + 1) =~= above.take(i as int).push(above[i as int]));
                assert(views(stack@) =~= names.drop_last() + above.take(i + 1));
                i += 1;
            }
            assert(above.take(count as int) =~= above);
            add_item(&mut seen, current);
        }
    }
    None
}

/// The name to report where nothing is declared.
fn reportable(c: &Candidates, kind: NameKind) -> (r: String)
    ensures
        r@ == reportable_of(c@, kind),
{
    assert(c@.names.len() == c.names@.len());
    if c.names.len() == 0 {
        let s = String::new();
        assert(s@ =~= Seq::<char>::empty());
        s
    } else if c.bound || kind == NameKind::Class {
        assert(c@.names[0] == c.names@[0]@);
        copy(c.names[0].as_str())
    } else {
        assert(c@.names.last() == c.names@[c.names@.len() - 1]@);
        copy(c.names[c.names.len() - 1].as_str())
    }
}

}
