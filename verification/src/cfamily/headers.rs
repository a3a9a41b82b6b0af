//! The header model: one file node per header, one node per entity.
//!
//! A header is read once, on its own. A name with external linkage carries no
//! file component, so that a prototype and its definition collapse into one
//! node; a name with internal linkage is prefixed with its file. Because one
//! node then has several declaring sites, the site that it is built from is
//! chosen before any node is written: that is what [`DeclLedger`] is for.

use vstd::prelude::*;

use crate::cfamily::Dialect;
use crate::index::{place_after_push, Places};
use crate::node::NodeKind;
use crate::paths::{directory, extension_among, has_extension, join_relative, joined_path, leaves, leaves_root, parent_dir};
use crate::span::Span;
use crate::strings::{join, joined, joined_front};
use crate::tree::{group_tree, parse, parsed_tree, Grammar, Syntax, TreeView};
use crate::text::{
    add_item, add_new, concat3, copy, copy_all, holds, opt_view, position, position_is_first, same, views, with_new,
};

verus! {

broadcast use group_tree;

/// What joins a name to the scope around it.
pub const SCOPE_SEPARATOR: &'static str = "::";

/// What joins a member to its owner: a field is reached through a value, not
/// through a scope.
pub const MEMBER_SEPARATOR: &'static str = ".";

/// Whether a name is visible outside the file that declares it.
#[derive(Clone, Copy, Debug, PartialEq, Eq, Structural)]
pub enum Linkage {
    Internal,
    External,
}

impl Linkage {
    /// The text that metadata carries.
    pub open spec fn name(self) -> Seq<char> {
        match self {
            Linkage::Internal => "internal"@,
            Linkage::External => "external"@,
        }
    }

    /// The text that metadata carries.
    pub fn as_str(self) -> (r: &'static str)
        ensures
            r@ == self.name(),
    {
        match self {
            Linkage::Internal => "internal",
            Linkage::External => "external",
        }
    }
}

/// The parts of a scope's qualified name: the file appears only for internal
/// linkage.
pub open spec fn scope_parts(file_rel: Seq<char>, scope: Seq<Seq<char>>, linkage: Linkage) -> Seq<Seq<char>> {
    if linkage == Linkage::Internal {
        seq![file_rel] + scope
    } else {
        scope
    }
}

/// The qualified name of a scope.
pub open spec fn qualified_scope(file_rel: Seq<char>, scope: Seq<Seq<char>>, linkage: Linkage) -> Seq<char> {
    joined(scope_parts(file_rel, scope, linkage), "::"@)
}

/// The qualified name of a name declared in a scope.
pub open spec fn qualified(file_rel: Seq<char>, scope: Seq<Seq<char>>, name: Seq<char>, linkage: Linkage) -> Seq<char> {
    let prefix = qualified_scope(file_rel, scope, linkage);
    if prefix.len() == 0 {
        name
    } else {
        prefix + "::"@ + name
    }
}

/// The qualified name of a scope: a namespace, or a class holding members.
pub fn qualify_scope(file_rel: &str, scope: &Vec<String>, linkage: Linkage) -> (r: String)
    ensures
        r@ == qualified_scope(file_rel@, views(scope@), linkage),
{
    let mut parts: Vec<String> = Vec::new();
    if linkage == Linkage::Internal {
        add_item(&mut parts, copy(file_rel));
    }
    let ghost head = views(parts@);
    let mut i: usize = 0;
    assert(head + views(scope@).take(0) =~= head);
    while i < scope.len()
        invariant
            i <= scope@.len(),
            views(parts@) == head + views(scope@).take(i as int),
        decreases scope@.len() - i,
    {
        add_item(&mut parts, copy(scope[i].as_str()));
        assert(head + views(scope@).take(i + 1) =~= (head + views(scope@).take(i as int)).push(scope@[i as int]@));
        i += 1;
    }
    proof {
        assert(views(scope@).take(scope@.len() as int) =~= views(scope@));
        assert(views(parts@) =~= scope_parts(file_rel@, views(scope@), linkage));
    }
    join(&parts, SCOPE_SEPARATOR)
}

/// The qualified name of a name declared in a scope.
pub fn qualify(file_rel: &str, scope: &Vec<String>, name: &str, linkage: Linkage) -> (r: String)
    ensures
        r@ == qualified(file_rel@, views(scope@), name@, linkage),
{
    let prefix = qualify_scope(file_rel, scope, linkage);
    if prefix.as_str().is_empty() {
        return copy(name);
    }
    concat3(prefix.as_str(), SCOPE_SEPARATOR, name)
}

/// A name with external linkage is the same in every file.
pub proof fn external_names_ignore_the_file(a: Seq<char>, b: Seq<char>, scope: Seq<Seq<char>>, name: Seq<char>)
    ensures
        qualified(a, scope, name, Linkage::External) == qualified(b, scope, name, Linkage::External),
{
}

/// A name with internal linkage differs between files that differ.
pub proof fn internal_names_keep_files_apart(a: Seq<char>, b: Seq<char>, scope: Seq<Seq<char>>, name: Seq<char>)
    requires
        a != b,
    ensures
        qualified(a, scope, name, Linkage::Internal) != qualified(b, scope, name, Linkage::Internal),
{
    reveal_strlit("::");
    let p = scope_parts(a, scope, Linkage::Internal);
    let q = scope_parts(b, scope, Linkage::Internal);
    let inner = if scope.len() == 0 {
        Seq::<char>::empty()
    } else {
        "::"@ + joined(scope, "::"@)
    };
    assert(joined(p, "::"@) =~= a + inner && joined(q, "::"@) =~= b + inner) by {
        if scope.len() > 0 {
            joined_front(p, "::"@);
            joined_front(q, "::"@);
            assert(p.skip(1) =~= scope);
            assert(q.skip(1) =~= scope);
        }
    }
    let x = qualified(a, scope, name, Linkage::Internal);
    let y = qualified(b, scope, name, Linkage::Internal);
    if x == y {
        assert(x.len() == y.len());
        assert(a.len() == b.len());
        assert forall|i: int| 0 <= i < a.len() implies a[i] == b[i] by {
            assert(x[i] == a[i]);
            assert(y[i] == b[i]);
        }
        assert(a =~= b);
    }
}

// ---------------------------------------------------------------------------
// The ledger
// ---------------------------------------------------------------------------

/// Where one declaring site of a shared name sits.
#[derive(Debug)]
pub struct DeclSite {
    pub file_rel: String,
    pub span: Span,
    pub name_span: Span,
    /// Whether this site is the definition: a function with a body, a record
    /// with a member list, a variable that is more than a reference to one.
    pub defines: bool,
}

/// The mathematical reading of a declaring site.
pub struct SiteView {
    pub file_rel: Seq<char>,
    pub span: Span,
    pub name_span: Span,
    pub defines: bool,
}

impl View for DeclSite {
    type V = SiteView;

    open spec fn view(&self) -> SiteView {
        SiteView {
            file_rel: self.file_rel@,
            span: self.span,
            name_span: self.name_span,
            defines: self.defines,
        }
    }
}

impl DeclSite {
    /// A copy of the site.
    pub fn copy(&self) -> (r: DeclSite)
        ensures
            r@ == self@,
    {
        DeclSite {
            file_rel: copy(self.file_rel.as_str()),
            span: self.span,
            name_span: self.name_span,
            defines: self.defines,
        }
    }
}

/// One letter per kind.
pub open spec fn kind_letter(kind: NodeKind) -> char {
    match kind {
        NodeKind::Project => 'a',
        NodeKind::Module => 'b',
        NodeKind::File => 'c',
        NodeKind::Class => 'd',
        NodeKind::Function => 'e',
        NodeKind::Method => 'f',
        NodeKind::Parameter => 'g',
        NodeKind::Import => 'h',
        NodeKind::Dependency => 'i',
        NodeKind::ExternalSymbol => 'j',
        NodeKind::Variable => 'k',
        NodeKind::Attribute => 'l',
        NodeKind::TypeAlias => 'm',
        NodeKind::Boundary => 'n',
    }
}

/// A node's identity while the ledger fills. The kind is part of it because C
/// keeps tags in a namespace of their own: `struct stat` and `stat()` coexist.
pub open spec fn decl_key(kind: NodeKind, name: Seq<char>) -> Seq<char> {
    seq![kind_letter(kind)] + name
}

/// Different kinds or names have different keys.
pub proof fn decl_keys_differ(a: NodeKind, x: Seq<char>, b: NodeKind, y: Seq<char>)
    requires
        decl_key(a, x) == decl_key(b, y),
    ensures
        a == b,
        x == y,
{
    let p = decl_key(a, x);
    let q = decl_key(b, y);
    assert(p[0] == kind_letter(a));
    assert(q[0] == kind_letter(b));
    assert(p.skip(1) =~= x);
    assert(q.skip(1) =~= y);
}

/// Writes the key of a kind and a name.
fn key_text(kind: NodeKind, name: &str) -> (r: String)
    ensures
        r@ == decl_key(kind, name@),
{
    let mut s = String::new();
    s.push(
        match kind {
            NodeKind::Project => 'a',
            NodeKind::Module => 'b',
            NodeKind::File => 'c',
            NodeKind::Class => 'd',
            NodeKind::Function => 'e',
            NodeKind::Method => 'f',
            NodeKind::Parameter => 'g',
            NodeKind::Import => 'h',
            NodeKind::Dependency => 'i',
            NodeKind::ExternalSymbol => 'j',
            NodeKind::Variable => 'k',
            NodeKind::Attribute => 'l',
            NodeKind::TypeAlias => 'm',
            NodeKind::Boundary => 'n',
        },
    );
    s.append(name);
    assert(s@ =~= decl_key(kind, name@));
    s
}

/// The mathematical reading of what the ledger knows of one name: the site
/// that its node is built from, and every file that declared it.
pub struct DeclView {
    pub kind: NodeKind,
    pub name: Seq<char>,
    pub owner: SiteView,
    pub declared_in: Seq<Seq<char>>,
}

/// What the ledger knows of one name.
struct DeclEntry {
    kind: NodeKind,
    name: String,
    owner: DeclSite,
    declared_in: Vec<String>,
}

impl View for DeclEntry {
    type V = DeclView;

    closed spec fn view(&self) -> DeclView {
        DeclView {
            kind: self.kind,
            name: self.name@,
            owner: self.owner@,
            declared_in: views(self.declared_in@),
        }
    }
}

/// The keys of the ledger's entries.
pub open spec fn decl_keys(entries: Seq<DeclView>) -> Seq<Seq<char>> {
    entries.map_values(|e: DeclView| decl_key(e.kind, e.name))
}

/// What the ledger knows of a name.
pub open spec fn decl_at(entries: Seq<DeclView>, kind: NodeKind, name: Seq<char>) -> Option<DeclView> {
    match position(decl_keys(entries), decl_key(kind, name)) {
        Some(i) => Some(entries[i]),
        None => None,
    }
}

/// An entry after one more site was recorded: the first definition wins, and
/// without a definition the first site.
pub open spec fn with_site(e: DeclView, site: SiteView) -> DeclView {
    DeclView {
        owner: if site.defines && !e.owner.defines {
            site
        } else {
            e.owner
        },
        declared_in: with_new(e.declared_in, site.file_rel),
        ..e
    }
}

/// The ledger after one site was recorded.
pub open spec fn recorded(entries: Seq<DeclView>, kind: NodeKind, name: Seq<char>, site: SiteView) -> Seq<DeclView> {
    match position(decl_keys(entries), decl_key(kind, name)) {
        Some(i) => entries.update(i, with_site(entries[i], site)),
        None => entries.push(DeclView { kind, name, owner: site, declared_in: seq![site.file_rel] }),
    }
}

/// Of the first `n` files those other than the given one.
pub open spec fn others(files: Seq<Seq<char>>, file: Seq<char>, n: int) -> Seq<Seq<char>>
    decreases n,
{
    if n <= 0 || n > files.len() {
        Seq::empty()
    } else if files[n - 1] != file {
        others(files, file, n - 1).push(files[n - 1])
    } else {
        others(files, file, n - 1)
    }
}

/// Which of a name's declaring sites its node is built from.
///
/// Filled by a survey of every file, read when nodes are written. The two are
/// separate so that the order in which files are read does not decide a node's
/// place.
pub struct DeclLedger {
    places: Places,
    entries: Vec<DeclEntry>,
}

impl View for DeclLedger {
    type V = Seq<DeclView>;

    closed spec fn view(&self) -> Seq<DeclView> {
        views(self.entries@)
    }
}

impl DeclLedger {
    /// Every name has one entry, found under its key.
    pub closed spec fn wf(&self) -> bool {
        self.places.wf() && self.places@ == decl_keys(views(self.entries@))
    }

    /// An empty ledger.
    pub fn new() -> (r: DeclLedger)
        ensures
            r.wf(),
            r@ == Seq::<DeclView>::empty(),
    {
        let r = DeclLedger { places: Places::new(), entries: Vec::new() };
        assert(views(r.entries@) =~= Seq::<DeclView>::empty());
        assert(decl_keys(views(r.entries@)) =~= Seq::<Seq<char>>::empty());
        r
    }

    /// Records one declaring site.
    pub fn record(&mut self, kind: NodeKind, name: &str, site: DeclSite)
        requires
            old(self).wf(),
        ensures
            final(self).wf(),
            final(self)@ == recorded(old(self)@, kind, name@, site@),
    {
        let key = key_text(kind, name);
        let ghost sv = site@;
        match self.places.get(key.as_str()) {
            Some(i) => {
                let ghost e = views(self.entries@)[i as int];
                let mut declared_in = copy_all(&self.entries[i].declared_in);
                add_new(&mut declared_in, copy(site.file_rel.as_str()));
                let owner = if site.defines && !self.entries[i].owner.defines {
                    site
                } else {
                    self.entries[i].owner.copy()
                };
                let entry = DeclEntry {
                    kind: self.entries[i].kind,
                    name: copy(self.entries[i].name.as_str()),
                    owner,
                    declared_in,
                };
                let ghost ev = entry@;
                assert(ev == with_site(e, sv));
                self.entries.set(i, entry);
                proof {
                    let before_set = views(old(self).entries@);
                    assert(views(self.entries@) =~= before_set.update(i as int, ev));
                    assert(decl_keys(views(self.entries@)) =~= decl_keys(before_set));
                }
            },
            None => {
                let mut declared_in: Vec<String> = Vec::new();
                declared_in.push(copy(site.file_rel.as_str()));
                assert(views(declared_in@) =~= seq![sv.file_rel]);
                let entry = DeclEntry { kind, name: copy(name), owner: site, declared_in };
                let ghost ev = entry@;
                self.places.add(key.as_str(), self.entries.len());
                add_item(&mut self.entries, entry);
                proof {
                    let before_add = views(old(self).entries@);
                    assert(decl_keys(views(self.entries@)) =~= decl_keys(before_add).push(decl_key(kind, name@)));
                }
            },
        }
    }

    /// Tells whether this very site is the one the node is built from.
    ///
    /// The range is part of the test because a prototype and its definition
    /// commonly sit in the same file.
    pub fn owns(&self, kind: NodeKind, name: &str, site: &DeclSite) -> (r: bool)
        requires
            self.wf(),
        ensures
            r == (match decl_at(self@, kind, name@) {
                Some(e) => e.owner.file_rel == site@.file_rel && e.owner.span == site@.span,
                None => false,
            }),
    {
        let key = key_text(kind, name);
        match self.places.get(key.as_str()) {
            Some(i) => {
                let e = &self.entries[i];
                same(e.owner.file_rel.as_str(), site.file_rel.as_str()) && e.owner.span == site.span
            },
            None => false,
        }
    }

    /// Every declaring file other than the one that the node is built from.
    pub fn declared_elsewhere(&self, kind: NodeKind, name: &str) -> (r: Vec<String>)
        requires
            self.wf(),
        ensures
            views(r@) == (match decl_at(self@, kind, name@) {
                Some(e) => others(e.declared_in, e.owner.file_rel, e.declared_in.len() as int),
                None => Seq::empty(),
            }),
    {
        let key = key_text(kind, name);
        let mut out: Vec<String> = Vec::new();
        assert(views(out@) =~= Seq::<Seq<char>>::empty());
        if let Some(i) = self.places.get(key.as_str()) {
            let e = &self.entries[i];
            assert(views(self.entries@)[i as int] == e@);
            let mut k: usize = 0;
            while k < e.declared_in.len()
                invariant
                    k <= e.declared_in@.len(),
                    views(out@) == others(views(e.declared_in@), e.owner.file_rel@, k as int),
                decreases e.declared_in@.len() - k,
            {
                assert(views(e.declared_in@)[k as int] == e.declared_in@[k as int]@);
                if !same(e.declared_in[k].as_str(), e.owner.file_rel.as_str()) {
                    add_item(&mut out, copy(e.declared_in[k].as_str()));
                }
                k += 1;
            }
        }
        out
    }
}

/// The sites recorded for one name, in order.
pub struct Record {
    pub kind: NodeKind,
    pub name: Seq<char>,
    pub site: SiteView,
}

/// The ledger after the first `n` records.
pub open spec fn ledger_of(records: Seq<Record>, n: int) -> Seq<DeclView>
    decreases n,
{
    if n <= 0 || n > records.len() {
        Seq::empty()
    } else {
        let r = records[n - 1];
        recorded(ledger_of(records, n - 1), r.kind, r.name, r.site)
    }
}

/// The sites of one name among the first `n` records, in order.
pub open spec fn sites_of(records: Seq<Record>, kind: NodeKind, name: Seq<char>, n: int) -> Seq<SiteView>
    decreases n,
{
    if n <= 0 || n > records.len() {
        Seq::empty()
    } else if records[n - 1].kind == kind && records[n - 1].name == name {
        sites_of(records, kind, name, n - 1).push(records[n - 1].site)
    } else {
        sites_of(records, kind, name, n - 1)
    }
}

/// The site that stands for a list of sites: the first definition, or the first
/// site where none defines.
pub open spec fn chosen_site(sites: Seq<SiteView>, n: int) -> SiteView
    decreases n,
{
    if n <= 1 {
        sites[0]
    } else {
        let earlier = chosen_site(sites, n - 1);
        if sites[n - 1].defines && !earlier.defines {
            sites[n - 1]
        } else {
            earlier
        }
    }
}

/// The chosen site is the first definition, or the first site where none
/// defines.
pub proof fn chosen_is_first_definition(sites: Seq<SiteView>, n: int)
    requires
        0 < n <= sites.len(),
    ensures
        chosen_site(sites, n).defines ==> exists|k: int|
            0 <= k < n && #[trigger] sites[k] == chosen_site(sites, n) && forall|j: int|
                0 <= j < k ==> !(#[trigger] sites[j]).defines,
        !chosen_site(sites, n).defines ==> chosen_site(sites, n) == sites[0] && forall|j: int|
            0 <= j < n ==> !(#[trigger] sites[j]).defines,
    decreases n,
{
    if n > 1 {
        chosen_is_first_definition(sites, n - 1);
        let earlier = chosen_site(sites, n - 1);
        if earlier.defines {
            let k = choose|k: int|
                0 <= k < n - 1 && #[trigger] sites[k] == earlier && forall|j: int|
                    0 <= j < k ==> !(#[trigger] sites[j]).defines;
            assert(sites[k] == chosen_site(sites, n));
        } else if sites[n - 1].defines {
            assert(sites[n - 1] == chosen_site(sites, n));
        }
    } else {
        assert(sites[0] == chosen_site(sites, n));
    }
}

proof fn chosen_of_prefix(sites: Seq<SiteView>, x: SiteView, n: int)
    requires
        0 < n <= sites.len(),
    ensures
        chosen_site(sites.push(x), n) == chosen_site(sites, n),
    decreases n,
{
    assert(sites.push(x)[0] == sites[0]);
    if n > 1 {
        chosen_of_prefix(sites, x, n - 1);
        assert(sites.push(x)[n - 1] == sites[n - 1]);
    }
}

/// Whatever was recorded, the ledger builds a name's node from the first
/// definition among its sites, or from the first site where none defines.
pub proof fn ledger_owner_is_first_definition(records: Seq<Record>, kind: NodeKind, name: Seq<char>, n: int)
    requires
        0 <= n <= records.len(),
    ensures
        ({
            let sites = sites_of(records, kind, name, n);
            match decl_at(ledger_of(records, n), kind, name) {
                Some(e) => sites.len() > 0 && e.kind == kind && e.name == name && e.owner == chosen_site(
                    sites,
                    sites.len() as int,
                ),
                None => sites.len() == 0,
            }
        }),
    decreases n,
{
    if n > 0 {
        let r = records[n - 1];
        let before_last = ledger_of(records, n - 1);
        let after = ledger_of(records, n);
        let key = decl_key(kind, name);
        let rkey = decl_key(r.kind, r.name);
        ledger_owner_is_first_definition(records, kind, name, n - 1);
        ledger_owner_is_first_definition(records, r.kind, r.name, n - 1);
        position_is_first(decl_keys(before_last), key, 0);
        position_is_first(decl_keys(before_last), rkey, 0);
        let sites = sites_of(records, kind, name, n - 1);
        match position(decl_keys(before_last), rkey) {
            Some(i) => {
                assert(decl_keys(after) =~= decl_keys(before_last));
                if key == rkey {
                    decl_keys_differ(kind, name, r.kind, r.name);
                    chosen_of_prefix(sites, r.site, sites.len() as int);
                }
            },
            None => {
                assert(decl_keys(after) =~= decl_keys(before_last).push(rkey));
                place_after_push(decl_keys(before_last), key, rkey);
                if key == rkey {
                    decl_keys_differ(kind, name, r.kind, r.name);
                }
            },
        }
        if key != rkey {
            assert(!(r.kind == kind && r.name == name));
        }
    } else {
        assert(decl_keys(ledger_of(records, 0)) =~= Seq::<Seq<char>>::empty());
    }
}

// ---------------------------------------------------------------------------
// Finding headers
// ---------------------------------------------------------------------------

/// Where a header in angle brackets is looked for inside the project. The empty
/// entry is the root itself and comes last.
pub const CONVENTIONAL_INCLUDE_DIRS: [&'static str; 4] = ["include", "inc", "src", ""];

/// Of the first `n` conventional directories those that exist; the root always
/// does.
pub open spec fn existing_dirs(existing: Seq<Seq<char>>, n: int) -> Seq<Seq<char>>
    decreases n,
{
    if n <= 0 || n > 4 {
        Seq::empty()
    } else {
        let d = CONVENTIONAL_INCLUDE_DIRS[n - 1]@;
        let earlier = existing_dirs(existing, n - 1);
        if d.len() == 0 || existing.contains(d) {
            earlier.push(d)
        } else {
            earlier
        }
    }
}

/// The conventional directories that a root has, given the names of the
/// directories in it.
pub fn include_search_dirs(existing: &Vec<String>) -> (r: Vec<String>)
    ensures
        views(r@) == existing_dirs(views(existing@), 4),
{
    let dirs = CONVENTIONAL_INCLUDE_DIRS;
    let mut out: Vec<String> = Vec::new();
    let mut i: usize = 0;
    assert(views(out@) =~= Seq::<Seq<char>>::empty());
    while i < 4
        invariant
            i <= 4,
            dirs == CONVENTIONAL_INCLUDE_DIRS,
            views(out@) == existing_dirs(views(existing@), i as int),
        decreases 4 - i,
    {
        let d = dirs[i];
        if d.is_empty() || holds(existing, d) {
            add_item(&mut out, copy(d));
        }
        i += 1;
    }
    out
}

/// Whether a path below a directory is that of a known file inside the project.
pub open spec fn names_known(dir: Seq<char>, raw: Seq<char>, known: Seq<Seq<char>>) -> bool {
    !leaves(dir, raw) && known.contains(joined_path(dir, raw))
}

/// The known file that a path below a directory names.
fn known_below(dir: &str, raw: &str, known: &Vec<String>) -> (r: Option<String>)
    ensures
        opt_view(r) == (if names_known(dir@, raw@, views(known@)) {
            Some(joined_path(dir@, raw@))
        } else {
            None
        }),
{
    if leaves_root(dir, raw) {
        return None;
    }
    let candidate = join_relative(dir, raw);
    if holds(known, candidate.as_str()) {
        Some(candidate)
    } else {
        None
    }
}

/// The first of the directories from `i` on below which a known file has the
/// given path. A path that leaves the project from there names none.
pub open spec fn found_below(
    dirs: Seq<Seq<char>>,
    raw: Seq<char>,
    known: Seq<Seq<char>>,
    i: int,
) -> Option<Seq<char>>
    decreases dirs.len() - i,
{
    if i < 0 || i >= dirs.len() {
        None
    } else if names_known(dirs[i], raw, known) {
        Some(joined_path(dirs[i], raw))
    } else {
        found_below(dirs, raw, known, i + 1)
    }
}

/// The project-relative path that a header directive names: next to the reading
/// file first where the path is quoted, then below the search directories.
pub open spec fn included_path(
    raw: Seq<char>,
    quoted: bool,
    includer_rel: Seq<char>,
    search_dirs: Seq<Seq<char>>,
    known: Seq<Seq<char>>,
) -> Option<Seq<char>> {
    if quoted && names_known(directory(includer_rel), raw, known) {
        Some(joined_path(directory(includer_rel), raw))
    } else {
        found_below(search_dirs, raw, known, 0)
    }
}

/// The project-relative path that a header directive names, or `None` when it
/// leaves the project. Only known files are accepted.
pub fn resolve_include(
    raw: &str,
    quoted: bool,
    includer_rel: &str,
    search_dirs: &Vec<String>,
    known: &Vec<String>,
) -> (r: Option<String>)
    ensures
        opt_view(r) == included_path(raw@, quoted, includer_rel@, views(search_dirs@), views(known@)),
        r is Some ==> views(known@).contains(r->0@),
{
    if quoted {
        let dir = parent_dir(includer_rel);
        let sibling = known_below(dir.as_str(), raw, known);
        if sibling.is_some() {
            return sibling;
        }
    }
    let mut i: usize = 0;
    while i < search_dirs.len()
        invariant
            i <= search_dirs@.len(),
            found_below(views(search_dirs@), raw@, views(known@), 0) == found_below(
                views(search_dirs@),
                raw@,
                views(known@),
                i as int,
            ),
            !(quoted && names_known(directory(includer_rel@), raw@, views(known@))),
        decreases search_dirs@.len() - i,
    {
        assert(views(search_dirs@)[i as int] == search_dirs@[i as int]@);
        let candidate = known_below(search_dirs[i].as_str(), raw, known);
        if candidate.is_some() {
            return candidate;
        }
        i += 1;
    }
    None
}

proof fn none_below(dirs: Seq<Seq<char>>, raw: Seq<char>, known: Seq<Seq<char>>, i: int)
    requires
        0 <= i <= dirs.len(),
        forall|k: int| 0 <= k < dirs.len() ==> leaves(#[trigger] dirs[k], raw),
    ensures
        found_below(dirs, raw, known, i) is None,
    decreases dirs.len() - i,
{
    if i < dirs.len() {
        assert(leaves(dirs[i], raw));
        none_below(dirs, raw, known, i + 1);
    }
}

/// A directive whose path leaves the project from wherever it is looked for
/// names no file of it.
pub proof fn paths_that_leave_name_nothing(
    raw: Seq<char>,
    quoted: bool,
    includer_rel: Seq<char>,
    search_dirs: Seq<Seq<char>>,
    known: Seq<Seq<char>>,
)
    requires
        quoted ==> leaves(directory(includer_rel), raw),
        forall|k: int| 0 <= k < search_dirs.len() ==> leaves(#[trigger] search_dirs[k], raw),
    ensures
        included_path(raw, quoted, includer_rel, search_dirs, known) is None,
{
    none_below(search_dirs, raw, known, 0);
}

pub const C_SOURCE_EXTENSIONS: [&'static str; 1] = [".c"];

pub const CPP_SOURCE_EXTENSIONS: [&'static str; 4] = [".cpp", ".cc", ".cxx", ".c++"];

/// `.h` names no dialect: each such file is probed.
pub const AMBIGUOUS_HEADER_EXTENSIONS: [&'static str; 1] = [".h"];

pub const CPP_HEADER_EXTENSIONS: [&'static str; 4] = [".hpp", ".hh", ".hxx", ".h++"];

/// The dialect that an extension settles on its own.
pub open spec fn extension_dialect(path: Seq<char>) -> Option<Dialect> {
    if extension_among(path, C_SOURCE_EXTENSIONS@) {
        Some(Dialect::C)
    } else if extension_among(path, CPP_SOURCE_EXTENSIONS@) || extension_among(path, CPP_HEADER_EXTENSIONS@) {
        Some(Dialect::Cpp)
    } else {
        None
    }
}

/// The dialect that an extension settles on its own; `None` for `.h`.
pub fn dialect_from_extension(path: &str) -> (r: Option<Dialect>)
    ensures
        r == extension_dialect(path@),
{
    if has_extension(path, &C_SOURCE_EXTENSIONS) {
        return Some(Dialect::C);
    }
    if has_extension(path, &CPP_SOURCE_EXTENSIONS) || has_extension(path, &CPP_HEADER_EXTENSIONS) {
        return Some(Dialect::Cpp);
    }
    None
}

/// Tells whether the extension is the one that names no dialect.
pub fn is_ambiguous_header(path: &str) -> (r: bool)
    ensures
        r == extension_among(path@, AMBIGUOUS_HEADER_EXTENSIONS@),
{
    has_extension(path, &AMBIGUOUS_HEADER_EXTENSIONS)
}

/// The ERROR and MISSING nodes of a subtree. What holds no error is not
/// searched.
pub open spec fn faults(t: TreeView, n: usize) -> Seq<usize>
    decreases t.nodes.len() - n, t.kids(n).len() + 1,
{
    let own = if t.nodes[n as int].error || t.nodes[n as int].missing {
        seq![n]
    } else {
        Seq::empty()
    };
    if t.nodes[n as int].has_error {
        own + faults_of_kids(t, n, t.kids(n).len() as int)
    } else {
        own
    }
}

/// The ERROR and MISSING nodes below the first `k` children.
pub open spec fn faults_of_kids(t: TreeView, n: usize, k: int) -> Seq<usize>
    decreases t.nodes.len() - n, k,
{
    if k <= 0 || k > t.kids(n).len() {
        Seq::empty()
    } else {
        faults_of_kids(t, n, k - 1) + faults(t, t.kids(n)[k - 1])
    }
}

/// Lists the ERROR and MISSING nodes of a subtree.
#[verifier::loop_isolation(false)]
fn add_faults(t: &Syntax, n: usize, out: &mut Vec<usize>)
    requires
        t@.wf(),
        n < t@.nodes.len(),
    ensures
        final(out)@ == old(out)@ + faults(t@, n),
    decreases t@.nodes.len() - n,
{
    let ghost start = out@;
    if t.is_fault(n) {
        out.push(n);
        assert(out@ =~= start + seq![n]);
    } else {
        assert(out@ =~= start + Seq::<usize>::empty());
    }
    if t.has_error(n) {
        let ghost own = out@;
        let kids = t.kids(n);
        let mut k: usize = 0;
        assert(out@ =~= own + faults_of_kids(t@, n, 0));
        while k < kids.len()
            invariant
                k <= kids@.len(),
                kids@ == t@.kids(n),
                out@ == own + faults_of_kids(t@, n, k as int),
            decreases kids@.len() - k,
        {
            assert(t@.below(n, kids@[k as int]));
            add_faults(t, kids[k], out);
            assert(out@ =~= own + faults_of_kids(t@, n, k + 1));
            k += 1;
        }
        assert(out@ =~= start + faults(t@, n));
    }
}

/// How many ERROR and MISSING nodes a tree holds.
pub fn error_score(t: &Syntax, root: usize) -> (r: usize)
    requires
        t@.wf(),
        root < t@.nodes.len(),
    ensures
        r == faults(t@, root).len(),
{
    let mut out: Vec<usize> = Vec::new();
    add_faults(t, root, &mut out);
    assert(Seq::<usize>::empty() + faults(t@, root) =~= faults(t@, root));
    out.len()
}

/// The dialect that reads a header best, given its tree in either: C where that
/// parses cleanly, else the one with fewer faults, and C on a tie.
pub open spec fn better_dialect(as_c: TreeView, as_cpp: TreeView) -> Dialect {
    if as_c.nodes[0].has_error && faults(as_cpp, 0).len() < faults(as_c, 0).len() {
        Dialect::Cpp
    } else {
        Dialect::C
    }
}

/// The dialect that reads an ambiguous header best; `None` where a parser that
/// is asked gives no tree. C is asked first: the grammar of C++ takes nearly
/// every C header too, and would settle nothing.
pub open spec fn probed(source: Seq<u8>) -> Option<Dialect> {
    match parsed_tree(Grammar::C, source) {
        Some(c) => if !c.nodes[0].has_error {
            Some(Dialect::C)
        } else {
            match parsed_tree(Grammar::Cpp, source) {
                Some(cpp) => Some(better_dialect(c, cpp)),
                None => None,
            }
        },
        None => None,
    }
}

/// The dialect that reads a header best, given its tree in either.
pub fn choose_dialect(as_c: &Syntax, as_cpp: &Syntax) -> (r: Dialect)
    requires
        as_c@.wf(),
        as_cpp@.wf(),
        as_c@.nodes.len() > 0,
        as_cpp@.nodes.len() > 0,
    ensures
        r == better_dialect(as_c@, as_cpp@),
{
    if as_c.has_error(0) && error_score(as_cpp, 0) < error_score(as_c, 0) {
        Dialect::Cpp
    } else {
        Dialect::C
    }
}

/// The dialect that reads an ambiguous header best.
pub fn probe_dialect(source: &[u8]) -> (r: Option<Dialect>)
    ensures
        r == probed(source@),
{
    match parse(Grammar::C, source) {
        Some(c) => {
            if !c.syntax().has_error(0) {
                return Some(Dialect::C);
            }
            match parse(Grammar::Cpp, source) {
                Some(cpp) => Some(choose_dialect(c.syntax(), cpp.syntax())),
                None => None,
            }
        },
        None => None,
    }
}

/// Whether a dialect claims a file; `None` where an ambiguous header cannot be
/// probed.
pub open spec fn claimed(dialect: Dialect, path: Seq<char>, source: Seq<u8>) -> Option<bool> {
    match extension_dialect(path) {
        Some(owner) => Some(owner == dialect),
        None => if !extension_among(path, AMBIGUOUS_HEADER_EXTENSIONS@) {
            Some(false)
        } else {
            match probed(source) {
                Some(d) => Some(d == dialect),
                None => None,
            }
        },
    }
}

/// Tells whether a dialect claims a file.
pub fn claims(dialect: Dialect, path: &str, source: &[u8]) -> (r: Option<bool>)
    ensures
        r == claimed(dialect, path@, source@),
{
    match dialect_from_extension(path) {
        Some(owner) => Some(owner == dialect),
        None => {
            if !is_ambiguous_header(path) {
                return Some(false);
            }
            match probe_dialect(source) {
                Some(d) => Some(d == dialect),
                None => None,
            }
        },
    }
}

/// No file is claimed by both dialects, and a source or header of the family
/// that can be probed is claimed by one of them.
pub proof fn one_dialect_claims(path: Seq<char>, source: Seq<u8>)
    ensures
        !(claimed(Dialect::C, path, source) == Some(true) && claimed(Dialect::Cpp, path, source) == Some(true)),
        extension_dialect(path) is Some ==> (claimed(Dialect::C, path, source) == Some(true) || claimed(
            Dialect::Cpp,
            path,
            source,
        ) == Some(true)),
        extension_among(path, AMBIGUOUS_HEADER_EXTENSIONS@) && probed(source) is Some ==> (claimed(
            Dialect::C,
            path,
            source,
        ) == Some(true) || claimed(Dialect::Cpp, path, source) == Some(true)),
{
}

}
