//! Resolution of PHP names by a table of symbols.
//!
//! There is no type checker behind it, so what it resolves is always degraded.

use vstd::prelude::*;

use crate::adapter::{relative_to_project, shown_path, ResolvedRef, ResolvedView};
use crate::boundaries::{BoundaryRef, BoundaryView};
use crate::paths::{below, below_dir, place_below, placed_below};
use crate::php::declarations::{collect_file, declare_file, link, with_links, Collector, PendingView};
use crate::php::deps::{dependencies, internal_prefixes, ComposerFiles, ComposerView};
use crate::php::detector::{add_prefix, prefixes_ordered, psr4_roots, with_prefix, with_prefix_is_ordered};
use crate::php::log::{Log, RowView};
use crate::php::names::{has_php_statements, holds_php};
use crate::php::symbols::{no_symbols, Answer, AnswerView, Symbols, SymbolsView};
use crate::php::uses::{answer_at, answer_file, answers_after, find_answer, Placed, PlacedView, Walker};
use crate::status::ResolverStatus;
use crate::text::{add_all_new, add_new, concat3, copy, opt_view, views, with_all_new, with_new};
use crate::tree::{parse, parsed_tree, Grammar, TreeView};

verus! {

/// A source: where it lies, its bytes if it could be read, and the ports that
/// others found in it.
#[derive(Debug)]
pub struct PhpSource {
    pub path: String,
    pub source: Option<Vec<u8>>,
    pub extra: Vec<BoundaryRef>,
}

/// The mathematical reading of a source.
pub struct PhpSourceView {
    pub path: Seq<char>,
    pub source: Option<Seq<u8>>,
    pub extra: Seq<BoundaryView>,
}

impl View for PhpSource {
    type V = PhpSourceView;

    open spec fn view(&self) -> PhpSourceView {
        PhpSourceView { path: self.path@, source: opt_view(self.source), extra: views(self.extra@) }
    }
}

impl PhpSourceView {
    /// Whether the source can be read and gives no tree.
    pub open spec fn gives_no_tree(self) -> bool {
        self.source is Some && parsed_tree(Grammar::Php, self.source->0) is None
    }

    /// The tree of a source that holds PHP.
    pub open spec fn tree(self) -> Option<TreeView> {
        match self.source {
            Some(bytes) => match parsed_tree(Grammar::Php, bytes) {
                Some(t) => if holds_php(t, 0) {
                    Some(t)
                } else {
                    None
                },
                None => None,
            },
            None => None,
        }
    }
}

/// Whether one of the sources gives no tree.
pub open spec fn some_unparsed(sources: Seq<PhpSourceView>) -> bool {
    exists|i: int| 0 <= i < sources.len() && (#[trigger] sources[i]).gives_no_tree()
}

/// The manifests of one root.
#[derive(Debug)]
pub struct PhpManifest {
    pub dir: String,
    pub files: ComposerFiles,
}

/// The mathematical reading of the manifests of a root.
pub struct PhpManifestView {
    pub dir: Seq<char>,
    pub files: ComposerView,
}

impl View for PhpManifest {
    type V = PhpManifestView;

    open spec fn view(&self) -> PhpManifestView {
        PhpManifestView { dir: self.dir@, files: self.files@ }
    }
}

// ---------------------------------------------------------------------------
// Manifests
// ---------------------------------------------------------------------------

/// What the manifests of a project declare.
pub struct DeclaredView {
    pub psr4: Seq<(Seq<char>, Seq<char>)>,
    pub internal: Seq<Seq<char>>,
    pub vendors: Seq<Seq<char>>,
}

/// Where a root lies in the project.
pub open spec fn root_base(dir: Seq<char>, project_root: Seq<char>) -> Seq<char> {
    match below_dir(dir, project_root) {
        Some(base) => base,
        None => Seq::empty(),
    }
}

/// A directory of a root, relative to the project.
pub open spec fn rebased(base: Seq<char>, dir: Seq<char>) -> Seq<char> {
    if base.len() == 0 {
        dir
    } else if dir.len() == 0 {
        base
    } else {
        base + "/"@ + dir
    }
}

/// The map with the first `n` entries of a root.
pub open spec fn with_rebased(
    list: Seq<(Seq<char>, Seq<char>)>,
    base: Seq<char>,
    map: Seq<(Seq<char>, Seq<char>)>,
    n: int,
) -> Seq<(Seq<char>, Seq<char>)>
    decreases n,
{
    if n <= 0 || n > map.len() {
        list
    } else {
        with_prefix(with_rebased(list, base, map, n - 1), map[n - 1].0, rebased(base, map[n - 1].1))
    }
}

/// What is declared, with the manifests of one more root.
pub open spec fn with_manifest(d: DeclaredView, project_root: Seq<char>, m: PhpManifestView) -> DeclaredView {
    DeclaredView {
        psr4: with_rebased(d.psr4, root_base(m.dir, project_root), m.files.map(), m.files.map().len() as int),
        internal: with_all_new(d.internal, m.files.own_prefixes(), m.files.own_prefixes().len() as int),
        vendors: with_all_new(d.vendors, m.files.vendors(), m.files.vendors().len() as int),
    }
}

/// What the manifests of the first `n` roots declare.
pub open spec fn declared_by(project_root: Seq<char>, manifests: Seq<PhpManifestView>, n: int) -> DeclaredView
    decreases n,
{
    if n <= 0 || n > manifests.len() {
        DeclaredView { psr4: Seq::empty(), internal: Seq::empty(), vendors: Seq::empty() }
    } else {
        with_manifest(declared_by(project_root, manifests, n - 1), project_root, manifests[n - 1])
    }
}

/// Entries of a root keep the order of the map.
proof fn rebased_is_ordered(
    list: Seq<(Seq<char>, Seq<char>)>,
    base: Seq<char>,
    map: Seq<(Seq<char>, Seq<char>)>,
    n: int,
)
    requires
        prefixes_ordered(list),
    ensures
        prefixes_ordered(with_rebased(list, base, map, n)),
    decreases n,
{
    if !(n <= 0 || n > map.len()) {
        rebased_is_ordered(list, base, map, n - 1);
        with_prefix_is_ordered(
            with_rebased(list, base, map, n - 1),
            map[n - 1].0,
            rebased(base, map[n - 1].1),
        );
    }
}

/// However many roots a project has, its map tries a longer prefix before a
/// shorter one, and each prefix once.
pub proof fn merged_prefixes_are_ordered(project_root: Seq<char>, manifests: Seq<PhpManifestView>, n: int)
    ensures
        prefixes_ordered(declared_by(project_root, manifests, n).psr4),
    decreases n,
{
    if !(n <= 0 || n > manifests.len()) {
        merged_prefixes_are_ordered(project_root, manifests, n - 1);
        let m = manifests[n - 1];
        rebased_is_ordered(
            declared_by(project_root, manifests, n - 1).psr4,
            root_base(m.dir, project_root),
            m.files.map(),
            m.files.map().len() as int,
        );
    }
}

// ---------------------------------------------------------------------------
// Indexing
// ---------------------------------------------------------------------------

/// What the first pass gave: the symbols, and the files that hold PHP.
pub struct Collected {
    pub symbols: SymbolsView,
    pub pending: Seq<PendingView>,
    pub docs: Seq<Seq<char>>,
}

/// What the first pass gives with one more source.
pub open spec fn with_collected(c: Collected, project_root: Seq<char>, f: PhpSourceView) -> Collected {
    match f.tree() {
        Some(t) => {
            let path = shown_path(f.path, project_root);
            let st = declare_file(t, path, c.symbols, c.pending, 0);
            Collected { symbols: st.symbols, pending: st.pending, docs: with_new(c.docs, path) }
        },
        None => c,
    }
}

/// What the first pass gives after `n` sources.
pub open spec fn collected(start: Collected, project_root: Seq<char>, sources: Seq<PhpSourceView>, n: int) -> Collected
    decreases n,
{
    if n <= 0 || n > sources.len() {
        start
    } else {
        with_collected(collected(start, project_root, sources, n - 1), project_root, sources[n - 1])
    }
}

/// What the second pass gives after `n` sources.
pub open spec fn answers_of(s: SymbolsView, project_root: Seq<char>, sources: Seq<PhpSourceView>, n: int) -> Seq<
    RowView<PlacedView>,
>
    decreases n,
{
    if n <= 0 || n > sources.len() {
        Seq::empty()
    } else {
        let earlier = answers_of(s, project_root, sources, n - 1);
        match sources[n - 1].tree() {
            Some(t) => answers_after(t, s, shown_path(sources[n - 1].path, project_root), earlier, 0),
            None => earlier,
        }
    }
}

/// What is known of a project: the files that hold PHP, and the answers.
pub struct IndexedView {
    pub root: Option<Seq<char>>,
    pub docs: Seq<Seq<char>>,
    pub answers: Seq<RowView<PlacedView>>,
}

/// What is known of a project whose sources were read. Declarations come first:
/// the class of a receiver is often declared in another file.
pub open spec fn indexed(
    project_root: Seq<char>,
    manifests: Seq<PhpManifestView>,
    sources: Seq<PhpSourceView>,
) -> IndexedView {
    let d = declared_by(project_root, manifests, manifests.len() as int);
    let start = Collected {
        symbols: no_symbols(d.psr4, d.internal, d.vendors),
        pending: Seq::empty(),
        docs: Seq::empty(),
    };
    let c = collected(start, project_root, sources, sources.len() as int);
    let s = with_links(c.symbols, c.pending, c.pending.len() as int);
    IndexedView {
        root: Some(project_root),
        docs: c.docs,
        answers: answers_of(s, project_root, sources, sources.len() as int),
    }
}

/// The status of what is known: degraded at best, and nothing without a file.
pub open spec fn status_of(docs: Seq<Seq<char>>) -> ResolverStatus {
    if docs.len() == 0 {
        ResolverStatus::Unavailable
    } else {
        ResolverStatus::Degraded
    }
}

/// The reference that an answer stands for.
pub open spec fn reference_of(root: Seq<char>, answer: AnswerView) -> ResolvedView {
    match answer {
        AnswerView::Internal(site) => ResolvedView {
            full_name: Seq::empty(),
            file_path: Some(placed_below(root, site.path)),
            line: site.line,
            col: site.col,
            kind: Seq::empty(),
            origin: "internal"@,
        },
        AnswerView::External(name, origin) => ResolvedView {
            full_name: name,
            file_path: None,
            line: 0,
            col: 0,
            kind: Seq::empty(),
            origin,
        },
    }
}

impl IndexedView {
    /// What a place in a file refers to.
    pub open spec fn resolved(self, file: Seq<char>, line: u32, col: u32) -> Option<ResolvedView> {
        match self.root {
            Some(root) => match answer_at(self.answers, shown_path(file, root), line, col) {
                Some(answer) => Some(reference_of(root, answer)),
                None => None,
            },
            None => None,
        }
    }
}

/// A resolver of PHP names.
pub struct PhpResolver {
    root: Option<String>,
    docs: Vec<String>,
    answers: Log<Placed>,
}

impl View for PhpResolver {
    type V = IndexedView;

    closed spec fn view(&self) -> IndexedView {
        IndexedView { root: opt_view(self.root), docs: views(self.docs@), answers: self.answers@ }
    }
}

/// Adds the entries of a root to the map of a project.
#[verifier::loop_isolation(false)]
fn add_rebased(list: &mut Vec<(String, String)>, base: &str, map: &Vec<(String, String)>)
    ensures
        views(final(list)@) == with_rebased(views(old(list)@), base@, views(map@), map@.len() as int),
{
    let ghost start = views(list@);
    let ghost all = views(map@);
    let mut i: usize = 0;
    while i < map.len()
        invariant
            i <= map@.len(),
            views(list@) == with_rebased(start, base@, all, i as int),
        decreases map@.len() - i,
    {
        assert(all[i as int] == map@[i as int]@);
        let dir = if base.is_empty() {
            copy(map[i].1.as_str())
        } else if map[i].1.as_str().is_empty() {
            copy(base)
        } else {
            concat3(base, "/", map[i].1.as_str())
        };
        add_prefix(list, map[i].0.as_str(), dir);
        i += 1;
    }
}

/// What the manifests of a project declare.
struct Declared {
    psr4: Vec<(String, String)>,
    internal: Vec<String>,
    vendors: Vec<String>,
}

impl View for Declared {
    type V = DeclaredView;

    closed spec fn view(&self) -> DeclaredView {
        DeclaredView { psr4: views(self.psr4@), internal: views(self.internal@), vendors: views(self.vendors@) }
    }
}

/// Adds the manifests of a root.
fn add_manifest(d: &mut Declared, project_root: &str, m: &PhpManifest)
    ensures
        final(d)@ == with_manifest(old(d)@, project_root@, m@),
{
    let base = match below(m.dir.as_str(), project_root) {
        Some(b) => b,
        None => {
            let s = String::new();
            assert(s@ =~= Seq::<char>::empty());
            s
        },
    };
    let own = internal_prefixes(&m.files);
    assert(views(own@).len() == own@.len());
    add_all_new(&mut d.internal, &own);
    let packages = dependencies(&m.files);
    assert(views(packages@).len() == packages@.len());
    add_all_new(&mut d.vendors, &packages);
    let map = psr4_roots(&m.files.manifest);
    assert(views(map@).len() == map@.len());
    add_rebased(&mut d.psr4, base.as_str(), &map);
}

/// What the manifests of a project declare.
#[verifier::loop_isolation(false)]
fn load_manifests(project_root: &str, manifests: &Vec<PhpManifest>) -> (r: Declared)
    ensures
        r@ == declared_by(project_root@, views(manifests@), manifests@.len() as int),
{
    let ghost all = views(manifests@);
    let mut d = Declared { psr4: Vec::new(), internal: Vec::new(), vendors: Vec::new() };
    assert(d@.psr4 =~= Seq::<(Seq<char>, Seq<char>)>::empty());
    assert(d@.internal =~= Seq::<Seq<char>>::empty());
    assert(d@.vendors =~= Seq::<Seq<char>>::empty());
    let mut i: usize = 0;
    while i < manifests.len()
        invariant
            i <= manifests@.len(),
            d@ == declared_by(project_root@, all, i as int),
        decreases manifests@.len() - i,
    {
        assert(all[i as int] == manifests@[i as int]@);
        add_manifest(&mut d, project_root, &manifests[i]);
        i += 1;
    }
    d
}

/// Reads the declarations of one source; `false` where it gives no tree.
fn collect_source(st: &mut Collector, docs: &mut Vec<String>, project_root: &str, f: &PhpSource) -> (r: bool)
    requires
        old(st).symbols.wf(),
    ensures
        final(st).symbols.wf(),
        r == !f@.gives_no_tree(),
        r ==> (Collected {
            symbols: final(st)@.symbols,
            pending: final(st)@.pending,
            docs: views(final(docs)@),
        }) == with_collected(
            (Collected { symbols: old(st)@.symbols, pending: old(st)@.pending, docs: views(old(docs)@) }),
            project_root@,
            f@,
        ),
{
    match &f.source {
        None => true,
        Some(bytes) => match parse(Grammar::Php, bytes.as_slice()) {
            None => false,
            Some(p) => {
                if has_php_statements(p.syntax(), 0) {
                    let path = relative_to_project(f.path.as_str(), project_root);
                    collect_file(p.syntax(), path.as_str(), st, 0);
                    add_new(docs, path);
                }
                true
            },
        },
    }
}

/// Reads the uses of one source.
fn answer_source(st: &mut Walker, s: &Symbols, project_root: &str, f: &PhpSource)
    requires
        s.wf(),
        old(st).answers.wf(),
        !f@.gives_no_tree(),
    ensures
        final(st).answers.wf(),
        final(st)@.answers == (match f@.tree() {
            Some(t) => answers_after(t, s@, shown_path(f.path@, project_root@), old(st)@.answers, 0),
            None => old(st)@.answers,
        }),
{
    if let Some(bytes) = &f.source {
        if let Some(p) = parse(Grammar::Php, bytes.as_slice()) {
            if has_php_statements(p.syntax(), 0) {
                let path = relative_to_project(f.path.as_str(), project_root);
                answer_file(p.syntax(), s, path.as_str(), st, 0);
            }
        }
    }
}

/// Reads the uses of the sources of a project.
#[verifier::loop_isolation(false)]
fn answer_sources(s: &Symbols, project_root: &str, sources: &Vec<PhpSource>) -> (r: Log<Placed>)
    requires
        s.wf(),
        !some_unparsed(views(sources@)),
    ensures
        r.wf(),
        r@ == answers_of(s@, project_root@, views(sources@), sources@.len() as int),
{
    let ghost all = views(sources@);
    let mut st = Walker { answers: Log::new(), namespace: String::new(), vars: Vec::new() };
    assert(st@.answers =~= Seq::<RowView<PlacedView>>::empty());
    let mut i: usize = 0;
    while i < sources.len()
        invariant
            i <= sources@.len(),
            st.answers.wf(),
            st@.answers == answers_of(s@, project_root@, all, i as int),
        decreases sources@.len() - i,
    {
        assert(all[i as int] == sources@[i as int]@);
        answer_source(&mut st, s, project_root, &sources[i]);
        i += 1;
    }
    st.answers
}

/// The reference that an answer stands for.
fn reference(root: &str, answer: &Answer) -> (r: ResolvedRef)
    ensures
        r@ == reference_of(root@, answer@),
{
    let empty = String::new();
    assert(empty@ =~= Seq::<char>::empty());
    match answer {
        Answer::Internal(site) => ResolvedRef {
            full_name: copy(empty.as_str()),
            file_path: Some(place_below(root, site.path.as_str())),
            line: site.line,
            col: site.col,
            kind: empty,
            origin: copy("internal"),
        },
        Answer::External(name, origin) => ResolvedRef {
            full_name: copy(name.as_str()),
            file_path: None,
            line: 0,
            col: 0,
            kind: empty,
            origin: copy(origin),
        },
    }
}

impl PhpResolver {
    /// Whether the answers are sound.
    pub closed spec fn wf(&self) -> bool {
        self.answers.wf()
    }

    /// A resolver that knows nothing.
    pub fn empty() -> (r: PhpResolver)
        ensures
            r.wf(),
            r@ == (IndexedView { root: None, docs: Seq::empty(), answers: Seq::empty() }),
    {
        let r = PhpResolver { root: None, docs: Vec::new(), answers: Log::new() };
        assert(r@.docs =~= Seq::<Seq<char>>::empty());
        assert(r@.answers =~= Seq::<RowView<PlacedView>>::empty());
        r
    }

    /// Reads the sources of a project, declarations first and uses second;
    /// `None` where one of them gives no tree.
    #[verifier::loop_isolation(false)]
    pub fn prepare(project_root: &str, manifests: &Vec<PhpManifest>, sources: &Vec<PhpSource>) -> (r: Option<PhpResolver>)
        ensures
            r is None <==> some_unparsed(views(sources@)),
            r is Some ==> r->0.wf() && r->0@ == indexed(project_root@, views(manifests@), views(sources@)),
    {
        let d = load_manifests(project_root, manifests);
        let ghost all = views(sources@);
        let mut st = Collector {
            symbols: Symbols::new(d.psr4, d.internal, d.vendors),
            pending: Vec::new(),
            namespace: String::new(),
        };
        let mut docs: Vec<String> = Vec::new();
        let ghost start = Collected { symbols: st@.symbols, pending: st@.pending, docs: views(docs@) };
        assert(start.pending =~= Seq::<PendingView>::empty());
        assert(start.docs =~= Seq::<Seq<char>>::empty());
        let mut i: usize = 0;
        while i < sources.len()
            invariant
                i <= sources@.len(),
                st.symbols.wf(),
                (Collected { symbols: st@.symbols, pending: st@.pending, docs: views(docs@) }) == collected(
                    start,
                    project_root@,
                    all,
                    i as int,
                ),
                forall|k: int| 0 <= k < i ==> !(#[trigger] all[k]).gives_no_tree(),
            decreases sources@.len() - i,
        {
            assert(all[i as int] == sources@[i as int]@);
            if !collect_source(&mut st, &mut docs, project_root, &sources[i]) {
                assert(all[i as int].gives_no_tree());
                return None;
            }
            i += 1;
        }
        let mut symbols = st.symbols;
        assert(views(st.pending@).len() == st.pending@.len());
        link(&mut symbols, &st.pending);
        let answers = answer_sources(&symbols, project_root, sources);
        Some(PhpResolver { root: Some(copy(project_root)), docs, answers })
    }

    /// How far the resolver gets.
    pub fn status(&self) -> (r: ResolverStatus)
        ensures
            r == status_of(self@.docs),
    {
        assert(self@.docs.len() == self.docs@.len());
        if self.docs.len() == 0 {
            ResolverStatus::Unavailable
        } else {
            ResolverStatus::Degraded
        }
    }

    /// What a place in a file refers to.
    pub fn resolve_one(&self, file: &str, line: u32, col: u32) -> (r: Option<ResolvedRef>)
        requires
            self.wf(),
        ensures
            opt_view(r) == self@.resolved(file@, line, col),
    {
        match &self.root {
            None => None,
            Some(root) => {
                let path = relative_to_project(file, root.as_str());
                match find_answer(&self.answers, path.as_str(), line, col) {
                    Some(answer) => Some(reference(root.as_str(), answer)),
                    None => None,
                }
            },
        }
    }
}

/// A resolver that was never prepared, or that found no PHP, is unavailable; one
/// that did is degraded. It is never complete.
pub proof fn symbol_tables_are_never_complete(docs: Seq<Seq<char>>)
    ensures
        status_of(docs) != ResolverStatus::Complete,
{
}

}
