//! Syntax trees.
//!
//! A parser's tree is read into a list of nodes in document order, each with
//! its parent and its children. A node is named by its place in that list; a
//! child always stands behind its parent.

use tree_sitter::StreamingIterator;
use vstd::prelude::*;

use crate::span::Span;
use crate::text::{decode_lossy, opt_view, same, utf8_lossy, views};

verus! {

/// The grammars that sources are read with.
#[derive(Clone, Copy, Debug, PartialEq, Eq, Structural)]
pub enum Grammar {
    C,
    Cpp,
    Go,
    Php,
}

/// One node as the parser reports it: the nodes come in document order, and the
/// depth says where each belongs. Rows and columns count from zero.
pub struct Row {
    pub kind: String,
    pub symbol: u16,
    pub field: Option<String>,
    pub depth: u32,
    pub named: bool,
    pub error: bool,
    pub missing: bool,
    pub has_error: bool,
    pub start: usize,
    pub end: usize,
    pub from: (usize, usize),
    pub to: (usize, usize),
}

/// The mathematical reading of a reported node.
pub struct RowView {
    pub kind: Seq<char>,
    pub symbol: u16,
    pub field: Option<Seq<char>>,
    pub depth: u32,
    pub named: bool,
    pub error: bool,
    pub missing: bool,
    pub has_error: bool,
    pub start: usize,
    pub end: usize,
    pub from: (usize, usize),
    pub to: (usize, usize),
}

impl View for Row {
    type V = RowView;

    open spec fn view(&self) -> RowView {
        RowView {
            kind: self.kind@,
            symbol: self.symbol,
            field: opt_view(self.field),
            depth: self.depth,
            named: self.named,
            error: self.error,
            missing: self.missing,
            has_error: self.has_error,
            start: self.start,
            end: self.end,
            from: self.from,
            to: self.to,
        }
    }
}

/// One captured node of a query match: the number of the capture in the query,
/// the number of the node's kind in the grammar, and the bytes that the node
/// spans.
#[derive(Clone, Copy, Debug, PartialEq, Eq, Structural)]
pub struct Capture {
    pub index: u32,
    pub symbol: u16,
    pub start: usize,
    pub end: usize,
}

/// Declares `tree_sitter::Tree`, the parser's own tree.
#[verifier::external_type_specification]
#[verifier::external_body]
pub struct ExTree(tree_sitter::Tree);

/// The nodes of a parser's tree, in document order.
pub uninterp spec fn tree_rows(t: tree_sitter::Tree) -> Seq<RowView>;

/// The matches of a query in a parser's tree over a source.
pub uninterp spec fn tree_hits(t: tree_sitter::Tree, query: Seq<char>, source: Seq<u8>) -> Seq<Seq<Capture>>;

/// The nodes that a grammar's parser makes of a source, in document order.
pub uninterp spec fn parsed_rows(grammar: Grammar, source: Seq<u8>) -> Option<Seq<RowView>>;

/// The matches of a query in what a grammar's parser makes of a source.
pub uninterp spec fn parsed_hits(grammar: Grammar, source: Seq<u8>, query: Seq<char>) -> Seq<Seq<Capture>>;

/// Calls `tree_sitter::Parser::parse` with the grammar of one of the
/// `tree_sitter_*` crates. The tree, and with it what its nodes and the matches
/// of a query are, depends on the grammar and on the source alone.
#[verifier::external_body]
fn parse_source(grammar: Grammar, source: &[u8]) -> (r: Option<tree_sitter::Tree>)
    ensures
        match r {
            Some(t) => parsed_rows(grammar, source@) == Some(tree_rows(t)),
            None => parsed_rows(grammar, source@) is None,
        },
        forall|q: Seq<char>|
            r is Some ==> (#[trigger] tree_hits(r->0, q, source@)) == parsed_hits(grammar, source@, q),
{
    let language = match grammar {
        Grammar::C => tree_sitter_c::LANGUAGE,
        Grammar::Cpp => tree_sitter_cpp::LANGUAGE,
        Grammar::Go => tree_sitter_go::LANGUAGE,
        Grammar::Php => tree_sitter_php::LANGUAGE_PHP,
    };
    let mut parser = tree_sitter::Parser::new();
    parser.set_language(&language.into()).ok()?;
    parser.parse(source, None)
}

/// Walks a tree with `tree_sitter::TreeCursor` and reports each node it meets,
/// in document order.
#[verifier::external_body]
fn rows_of(t: &tree_sitter::Tree) -> (r: Vec<Row>)
    ensures
        views(r@) == tree_rows(*t),
{
    let mut c = t.walk();
    let rows = (0..t.root_node().descendant_count()).map(|i| {
        c.goto_descendant(i);
        let n = c.node();
        let (a, b) = (n.start_position(), n.end_position());
        Row {
            kind: n.kind().to_string(), symbol: n.kind_id(), field: c.field_name().map(str::to_string), depth: c.depth(),
            named: n.is_named(), error: n.is_error(), missing: n.is_missing(), has_error: n.has_error(),
            start: n.start_byte(), end: n.end_byte(), from: (a.row, a.column), to: (b.row, b.column),
        }
    });
    rows.collect()
}

/// Whether every node of a parser's tree spans bytes of a source.
pub open spec fn rows_fit(rows: Seq<RowView>, source_len: int) -> bool {
    forall|i: int| 0 <= i < rows.len() ==> (#[trigger] rows[i]).start <= rows[i].end <= source_len
}

/// Runs a query with `tree_sitter::QueryCursor::matches`, which reads the source
/// for what a query says of the text of a node. The matches depend on the tree,
/// the query and the source alone. A query that the grammar does not know gives
/// no matches.
#[verifier::external_body]
fn hits_of(t: &tree_sitter::Tree, query: &str, source: &[u8]) -> (r: Vec<Vec<Capture>>)
    requires
        rows_fit(tree_rows(*t), source@.len() as int),
    ensures
        r@.map_values(|v: Vec<Capture>| v@) == tree_hits(*t, query@, source@),
{
    let mut out = Vec::new();
    if let Ok(q) = tree_sitter::Query::new(&t.language(), query) {
        let mut cursor = tree_sitter::QueryCursor::new();
        let mut hits = cursor.matches(&q, t.root_node(), source);
        while let Some(hit) = hits.next() {
            let one = |c: &tree_sitter::QueryCapture<'_>| Capture {
                index: c.index, symbol: c.node.kind_id(), start: c.node.start_byte(), end: c.node.end_byte(),
            };
            out.push(hit.captures().iter().map(one).collect());
        }
    }
    out
}

// ---------------------------------------------------------------------------
// The tree
// ---------------------------------------------------------------------------

/// What is known of one node.
pub struct NodeInfo {
    pub kind: Seq<char>,
    pub symbol: u16,
    pub field: Option<Seq<char>>,
    pub named: bool,
    pub error: bool,
    pub missing: bool,
    pub has_error: bool,
    pub start: usize,
    pub end: usize,
    pub span: Span,
    pub parent: Option<usize>,
    pub children: Seq<usize>,
}

/// The mathematical reading of a syntax tree.
pub struct TreeView {
    pub nodes: Seq<NodeInfo>,
    pub source: Seq<u8>,
}

/// A zero-based coordinate as a one-based one.
pub open spec fn one_based(n: usize) -> u32 {
    if n < u32::MAX {
        (n + 1) as u32
    } else {
        u32::MAX
    }
}

/// The range of a reported node, in 1-based coordinates.
pub open spec fn row_span(r: RowView) -> Span {
    Span {
        start_line: one_based(r.from.0),
        start_col: one_based(r.from.1),
        end_line: one_based(r.to.0),
        end_col: one_based(r.to.1),
    }
}

/// The last of the first `n` nodes that has a depth.
pub open spec fn last_at(rows: Seq<RowView>, depth: int, n: int) -> Option<usize>
    decreases n,
{
    if n <= 0 || n > rows.len() {
        None
    } else if rows[n - 1].depth == depth {
        Some((n - 1) as usize)
    } else {
        last_at(rows, depth, n - 1)
    }
}

/// The parent of a node: the last node before it that is one step less deep.
pub open spec fn row_parent(rows: Seq<RowView>, i: int) -> Option<usize> {
    last_at(rows, rows[i].depth - 1, i)
}

/// Of the first `n` nodes those whose parent is `p`.
pub open spec fn row_children(rows: Seq<RowView>, p: int, n: int) -> Seq<usize>
    decreases n,
{
    if n <= 0 || n > rows.len() {
        Seq::empty()
    } else {
        let earlier = row_children(rows, p, n - 1);
        if row_parent(rows, n - 1) == Some(p as usize) && p < n - 1 {
            earlier.push((n - 1) as usize)
        } else {
            earlier
        }
    }
}

/// Whether a node below the root goes at most one step deeper than the one
/// before it.
pub open spec fn steps_down(rows: Seq<RowView>, i: int) -> bool {
    0 < rows[i].depth <= rows[i - 1].depth + 1
}

/// Whether reported nodes form a tree: the first one is the root, each other
/// one goes at most one step deeper than the one before it, and each spans
/// bytes of the source.
pub open spec fn rows_ok(rows: Seq<RowView>, source_len: int) -> bool {
    &&& rows.len() > 0
    &&& rows[0].depth == 0
    &&& forall|i: int| 0 < i < rows.len() ==> #[trigger] steps_down(rows, i)
    &&& forall|i: int| 0 <= i < rows.len() ==> (#[trigger] rows[i]).start <= rows[i].end <= source_len
}

/// The tree that reported nodes form.
pub open spec fn tree_of(rows: Seq<RowView>, source: Seq<u8>) -> TreeView {
    TreeView {
        nodes: Seq::new(
            rows.len(),
            |i: int|
                NodeInfo {
                    kind: rows[i].kind,
                    symbol: rows[i].symbol,
                    field: rows[i].field,
                    named: rows[i].named,
                    error: rows[i].error,
                    missing: rows[i].missing,
                    has_error: rows[i].has_error,
                    start: rows[i].start,
                    end: rows[i].end,
                    span: row_span(rows[i]),
                    parent: row_parent(rows, i),
                    children: row_children(rows, i, rows.len() as int),
                },
        ),
        source,
    }
}

impl TreeView {
    /// Whether a node stands behind another one in the tree.
    pub open spec fn below(self, n: usize, c: usize) -> bool {
        n < c < self.nodes.len()
    }

    /// Whether a node is in the tree and its children stand behind it.
    pub open spec fn ok(self, n: usize) -> bool {
        &&& n < self.nodes.len()
        &&& forall|k: int|
            0 <= k < self.nodes[n as int].children.len() ==> self.below(n, #[trigger] self.nodes[n as int].children[k])
    }

    /// Children stand behind their parents, parents before their children, and
    /// every node spans bytes of the source.
    pub open spec fn wf(self) -> bool {
        &&& forall|n: usize| n < self.nodes.len() ==> #[trigger] self.ok(n)
        &&& forall|n: int|
            0 <= n < self.nodes.len() ==> match (#[trigger] self.nodes[n]).parent {
                Some(p) => p < n,
                None => true,
            }
        &&& forall|n: int|
            0 <= n < self.nodes.len() ==> (#[trigger] self.nodes[n]).start <= self.nodes[n].end <= self.source.len()
    }

    /// The children of a node, in order.
    pub open spec fn kids(self, n: usize) -> Seq<usize> {
        if self.ok(n) {
            self.nodes[n as int].children
        } else {
            Seq::empty()
        }
    }

    /// The kind of a node.
    pub open spec fn kind(self, n: usize) -> Seq<char> {
        self.nodes[n as int].kind
    }

    /// The text of a node.
    pub open spec fn text(self, n: usize) -> Seq<char> {
        utf8_lossy(self.source.subrange(self.nodes[n as int].start as int, self.nodes[n as int].end as int))
    }

    /// The range of a node.
    pub open spec fn span(self, n: usize) -> Span {
        self.nodes[n as int].span
    }

    /// The parent of a node.
    pub open spec fn parent(self, n: usize) -> Option<usize> {
        self.nodes[n as int].parent
    }

    /// The first of the given nodes from `k` on that has a field.
    pub open spec fn field_from(self, list: Seq<usize>, field: Seq<char>, k: int) -> Option<usize>
        decreases list.len() - k,
    {
        if k < 0 || k >= list.len() {
            None
        } else if self.nodes[list[k] as int].field == Some(field) {
            Some(list[k])
        } else {
            self.field_from(list, field, k + 1)
        }
    }

    /// The first child under a field.
    pub open spec fn field(self, n: usize, field: Seq<char>) -> Option<usize> {
        self.field_from(self.kids(n), field, 0)
    }

    /// Of the first `k` nodes those under a field.
    pub open spec fn all_under(self, list: Seq<usize>, field: Seq<char>, k: int) -> Seq<usize>
        decreases k,
    {
        if k <= 0 || k > list.len() {
            Seq::empty()
        } else if self.nodes[list[k - 1] as int].field == Some(field) {
            self.all_under(list, field, k - 1).push(list[k - 1])
        } else {
            self.all_under(list, field, k - 1)
        }
    }

    /// Every child under a field, in order.
    pub open spec fn fields(self, n: usize, field: Seq<char>) -> Seq<usize> {
        self.all_under(self.kids(n), field, self.kids(n).len() as int)
    }

    /// Of the first `k` nodes the named ones.
    pub open spec fn named_of(self, list: Seq<usize>, k: int) -> Seq<usize>
        decreases k,
    {
        if k <= 0 || k > list.len() {
            Seq::empty()
        } else if self.nodes[list[k - 1] as int].named {
            self.named_of(list, k - 1).push(list[k - 1])
        } else {
            self.named_of(list, k - 1)
        }
    }

    /// The named children of a node, in order.
    pub open spec fn named_kids(self, n: usize) -> Seq<usize> {
        self.named_of(self.kids(n), self.kids(n).len() as int)
    }

    /// The first of the given nodes from `k` on that is of a kind.
    pub open spec fn kind_from(self, list: Seq<usize>, kind: Seq<char>, k: int) -> Option<usize>
        decreases list.len() - k,
    {
        if k < 0 || k >= list.len() {
            None
        } else if self.kind(list[k]) == kind {
            Some(list[k])
        } else {
            self.kind_from(list, kind, k + 1)
        }
    }

    /// The first child of a kind.
    pub open spec fn kid_of(self, n: usize, kind: Seq<char>) -> Option<usize> {
        self.kind_from(self.kids(n), kind, 0)
    }

    /// Whether a node's kind is one of the given ones.
    pub open spec fn kind_among(self, n: usize, kinds: Seq<&'static str>) -> bool {
        exists|i: int| 0 <= i < kinds.len() && (#[trigger] kinds[i])@ == self.kind(n)
    }

    /// The first of the given nodes from `k` on whose kind is one of the given
    /// ones.
    pub open spec fn kinds_from(self, list: Seq<usize>, kinds: Seq<&'static str>, k: int) -> Option<usize>
        decreases list.len() - k,
    {
        if k < 0 || k >= list.len() {
            None
        } else if self.kind_among(list[k], kinds) {
            Some(list[k])
        } else {
            self.kinds_from(list, kinds, k + 1)
        }
    }

    /// The first child whose kind is one of the given ones.
    pub open spec fn kid_among(self, n: usize, kinds: Seq<&'static str>) -> Option<usize> {
        self.kinds_from(self.kids(n), kinds, 0)
    }
}

/// Every child of a well-formed tree's node stands behind it.
pub broadcast proof fn kid_is_below(t: TreeView, n: usize, k: int)
    requires
        0 <= k < t.kids(n).len(),
    ensures
        t.below(n, #[trigger] t.kids(n)[k]),
{
}

proof fn field_from_is_kid(t: TreeView, list: Seq<usize>, field: Seq<char>, k: int)
    requires
        0 <= k,
    ensures
        t.field_from(list, field, k) is Some ==> list.contains(t.field_from(list, field, k)->0),
    decreases list.len() - k,
{
    if k < list.len() && t.nodes[list[k] as int].field != Some(field) {
        field_from_is_kid(t, list, field, k + 1);
    }
}

/// A child found under a field stands behind its parent.
pub broadcast proof fn field_is_below(t: TreeView, n: usize, field: Seq<char>)
    ensures
        (#[trigger] t.field(n, field)) is Some ==> t.below(n, t.field(n, field)->0),
{
    field_from_is_kid(t, t.kids(n), field, 0);
    if let Some(c) = t.field(n, field) {
        let k = choose|k: int| 0 <= k < t.kids(n).len() && t.kids(n)[k] == c;
        kid_is_below(t, n, k);
    }
}

proof fn kind_from_is_kid(t: TreeView, list: Seq<usize>, kind: Seq<char>, k: int)
    requires
        0 <= k,
    ensures
        t.kind_from(list, kind, k) is Some ==> list.contains(t.kind_from(list, kind, k)->0),
    decreases list.len() - k,
{
    if k < list.len() && t.kind(list[k]) != kind {
        kind_from_is_kid(t, list, kind, k + 1);
    }
}

/// A child found by its kind stands behind its parent.
pub broadcast proof fn kid_of_is_below(t: TreeView, n: usize, kind: Seq<char>)
    ensures
        (#[trigger] t.kid_of(n, kind)) is Some ==> t.below(n, t.kid_of(n, kind)->0),
{
    kind_from_is_kid(t, t.kids(n), kind, 0);
    if let Some(c) = t.kid_of(n, kind) {
        let k = choose|k: int| 0 <= k < t.kids(n).len() && t.kids(n)[k] == c;
        kid_is_below(t, n, k);
    }
}

proof fn kinds_from_is_kid(t: TreeView, list: Seq<usize>, kinds: Seq<&'static str>, k: int)
    requires
        0 <= k,
    ensures
        t.kinds_from(list, kinds, k) is Some ==> list.contains(t.kinds_from(list, kinds, k)->0),
    decreases list.len() - k,
{
    if k < list.len() && !t.kind_among(list[k], kinds) {
        kinds_from_is_kid(t, list, kinds, k + 1);
    }
}

/// A child found by one of several kinds stands behind its parent.
pub broadcast proof fn kid_among_is_below(t: TreeView, n: usize, kinds: Seq<&'static str>)
    ensures
        (#[trigger] t.kid_among(n, kinds)) is Some ==> t.below(n, t.kid_among(n, kinds)->0),
{
    kinds_from_is_kid(t, t.kids(n), kinds, 0);
    if let Some(c) = t.kid_among(n, kinds) {
        let k = choose|k: int| 0 <= k < t.kids(n).len() && t.kids(n)[k] == c;
        kid_is_below(t, n, k);
    }
}

proof fn named_of_are_kids(t: TreeView, list: Seq<usize>, k: int)
    requires
        0 <= k <= list.len(),
    ensures
        forall|i: int| 0 <= i < t.named_of(list, k).len() ==> list.contains(#[trigger] t.named_of(list, k)[i]),
    decreases k,
{
    if k > 0 {
        named_of_are_kids(t, list, k - 1);
        let a = t.named_of(list, k - 1);
        let b = t.named_of(list, k);
        assert(list.contains(list[k - 1]));
        assert forall|i: int| 0 <= i < b.len() implies list.contains(#[trigger] b[i]) by {
            if i < a.len() {
                assert(b[i] == a[i]);
            }
        }
    }
}

/// A named child stands behind its parent.
pub broadcast proof fn named_kid_is_below(t: TreeView, n: usize, i: int)
    requires
        0 <= i < t.named_kids(n).len(),
    ensures
        t.below(n, #[trigger] t.named_kids(n)[i]),
{
    named_of_are_kids(t, t.kids(n), t.kids(n).len() as int);
    let c = t.named_kids(n)[i];
    let k = choose|k: int| 0 <= k < t.kids(n).len() && t.kids(n)[k] == c;
    kid_is_below(t, n, k);
}

proof fn all_under_are_kids(t: TreeView, list: Seq<usize>, field: Seq<char>, k: int)
    requires
        0 <= k <= list.len(),
    ensures
        forall|i: int|
            0 <= i < t.all_under(list, field, k).len() ==> list.contains(#[trigger] t.all_under(list, field, k)[i]),
    decreases k,
{
    if k > 0 {
        all_under_are_kids(t, list, field, k - 1);
        let a = t.all_under(list, field, k - 1);
        let b = t.all_under(list, field, k);
        assert(list.contains(list[k - 1]));
        assert forall|i: int| 0 <= i < b.len() implies list.contains(#[trigger] b[i]) by {
            if i < a.len() {
                assert(b[i] == a[i]);
            }
        }
    }
}

/// A child under a field stands behind its parent.
pub broadcast proof fn fields_are_below(t: TreeView, n: usize, field: Seq<char>, i: int)
    requires
        0 <= i < t.fields(n, field).len(),
    ensures
        t.below(n, #[trigger] t.fields(n, field)[i]),
{
    all_under_are_kids(t, t.kids(n), field, t.kids(n).len() as int);
    let c = t.fields(n, field)[i];
    let k = choose|k: int| 0 <= k < t.kids(n).len() && t.kids(n)[k] == c;
    kid_is_below(t, n, k);
}

pub broadcast group group_tree {
    kid_is_below,
    field_is_below,
    kid_of_is_below,
    kid_among_is_below,
    named_kid_is_below,
    fields_are_below,
}

/// One node of a syntax tree.
struct SyntaxNode {
    row: Row,
    span: Span,
    parent: Option<usize>,
    children: Vec<usize>,
}

impl View for SyntaxNode {
    type V = NodeInfo;

    closed spec fn view(&self) -> NodeInfo {
        NodeInfo {
            kind: self.row.kind@,
            symbol: self.row.symbol,
            field: opt_view(self.row.field),
            named: self.row.named,
            error: self.row.error,
            missing: self.row.missing,
            has_error: self.row.has_error,
            start: self.row.start,
            end: self.row.end,
            span: self.span,
            parent: self.parent,
            children: self.children@,
        }
    }
}

/// A syntax tree over its source.
pub struct Syntax {
    nodes: Vec<SyntaxNode>,
    source: Vec<u8>,
}

impl View for Syntax {
    type V = TreeView;

    closed spec fn view(&self) -> TreeView {
        TreeView { nodes: views(self.nodes@), source: self.source@ }
    }
}

/// A zero-based coordinate as a one-based one.
fn to_one_based(n: usize) -> (r: u32)
    ensures
        r == one_based(n),
{
    if n < u32::MAX as usize {
        (n + 1) as u32
    } else {
        u32::MAX
    }
}

/// Whether a path holds, for each depth up to its length, the last node so far
/// of that depth.
spec fn path_ok(rows: Seq<RowView>, path: Seq<usize>, n: int) -> bool {
    forall|d: int| 0 <= d < path.len() ==> last_at(rows, d, n) == Some(#[trigger] path[d])
}

proof fn last_at_is_before(rows: Seq<RowView>, depth: int, n: int)
    requires
        0 <= n <= rows.len() <= usize::MAX,
    ensures
        match last_at(rows, depth, n) {
            Some(p) => p < n && rows[p as int].depth == depth,
            None => true,
        },
    decreases n,
{
    if n > 0 && rows[n - 1].depth != depth {
        last_at_is_before(rows, depth, n - 1);
    }
}

proof fn row_children_are_behind(rows: Seq<RowView>, p: int, n: int)
    requires
        0 <= n <= rows.len() <= usize::MAX,
        0 <= p,
    ensures
        forall|k: int| 0 <= k < row_children(rows, p, n).len() ==> p < (#[trigger] row_children(rows, p, n)[k]) < n,
    decreases n,
{
    if n > 0 {
        row_children_are_behind(rows, p, n - 1);
        let a = row_children(rows, p, n - 1);
        let b = row_children(rows, p, n);
        assert forall|k: int| 0 <= k < b.len() implies p < (#[trigger] b[k]) < n by {
            if k < a.len() {
                assert(b[k] == a[k]);
            }
        }
    }
}

/// The tree of well-formed rows is well-formed.
pub proof fn tree_of_is_wf(rows: Seq<RowView>, source: Seq<u8>)
    requires
        rows_ok(rows, source.len() as int),
        rows.len() <= usize::MAX,
    ensures
        tree_of(rows, source).wf(),
{
    let t = tree_of(rows, source);
    assert forall|n: usize| n < t.nodes.len() implies #[trigger] t.ok(n) by {
        row_children_are_behind(rows, n as int, rows.len() as int);
    }
    assert forall|n: int| 0 <= n < t.nodes.len() implies match (#[trigger] t.nodes[n]).parent {
        Some(p) => p < n,
        None => true,
    } by {
        last_at_is_before(rows, rows[n].depth - 1, n);
    }
}

/// Tells whether reported nodes form a tree.
fn check_rows(rows: &Vec<Row>, source_len: usize) -> (r: bool)
    ensures
        r == rows_ok(views(rows@), source_len as int),
{
    let ghost rs = views(rows@);
    if rows.len() == 0 || rows[0].depth != 0 {
        assert(rs.len() > 0 ==> rs[0] == rows@[0]@);
        return false;
    }
    assert(rs[0] == rows@[0]@);
    let mut i: usize = 0;
    while i < rows.len()
        invariant
            i <= rows@.len(),
            rs == views(rows@),
            rs.len() > 0,
            rs[0].depth == 0,
            forall|k: int| 0 < k < i ==> #[trigger] steps_down(rs, k),
            forall|k: int| 0 <= k < i ==> (#[trigger] rs[k]).start <= rs[k].end <= source_len,
        decreases rows@.len() - i,
    {
        assert(rs[i as int] == rows@[i as int]@);
        if rows[i].start > rows[i].end || rows[i].end > source_len {
            return false;
        }
        if i > 0 {
            assert(rs[i - 1] == rows@[i - 1]@);
            if rows[i].depth == 0 || rows[i].depth - 1 > rows[i - 1].depth {
                assert(!steps_down(rs, i as int));
                return false;
            }
        }
        i += 1;
    }
    true
}

/// The parent and the children of each reported node.
fn link_rows(rows: &Vec<Row>, source_len: usize) -> (r: (Vec<Option<usize>>, Vec<Vec<usize>>))
    requires
        rows_ok(views(rows@), source_len as int),
    ensures
        r.0@.len() == rows@.len(),
        r.1@.len() == rows@.len(),
        forall|k: int| 0 <= k < rows@.len() ==> #[trigger] r.0@[k] == row_parent(views(rows@), k),
        forall|k: int|
            0 <= k < rows@.len() ==> (#[trigger] r.1@[k])@ == row_children(views(rows@), k, rows@.len() as int),
{
    let ghost rs = views(rows@);
    let total: usize = rows.len();
    let mut parents: Vec<Option<usize>> = Vec::new();
    let mut kids: Vec<Vec<usize>> = Vec::new();
    let mut path: Vec<usize> = Vec::new();
    let mut i: usize = 0;
    while i < rows.len()
        invariant
            i <= rows@.len(),
            rs == views(rows@),
            rs.len() == total,
            rows_ok(rs, source_len as int),
            parents@.len() == i,
            kids@.len() == i,
            forall|k: int| 0 <= k < i ==> #[trigger] parents@[k] == row_parent(rs, k),
            forall|k: int| 0 <= k < i ==> (#[trigger] kids@[k])@ == row_children(rs, k, i as int),
            path_ok(rs, path@, i as int),
            i > 0 ==> path@.len() == rs[i - 1].depth + 1,
            i == 0 ==> path@.len() == 0,
        decreases rows@.len() - i,
    {
        assert(rs[i as int] == rows@[i as int]@);
        let depth: usize = rows[i].depth as usize;
        assert(i > 0 ==> steps_down(rs, i as int));
        let ghost old_path = path@;
        path.truncate(depth);
        let p: Option<usize> = if depth > 0 {
            Some(path[depth - 1])
        } else {
            None
        };
        proof {
            if depth > 0 {
                assert(path@[depth - 1] == old_path[depth - 1]);
            } else {
                no_negative_depth(rs, i as int);
            }
            assert(p == row_parent(rs, i as int));
            last_at_is_before(rs, depth - 1, i as int);
        }
        parents.push(p);
        path.push(i);
        add_kid(&mut kids, p, i);
        proof {
            path_grows(rs, old_path, path@, i as int);
            assert forall|k: int| 0 <= k < i + 1 implies (#[trigger] kids@[k])@ == row_children(rs, k, i + 1) by {
                if k == i {
                    no_children_before(rs, k, i + 1);
                    assert(kids@[k]@ =~= row_children(rs, k, i + 1));
                }
            }
        }
        i += 1;
    }
    (parents, kids)
}

/// Appends a node to the children of its parent, and an empty list for the node
/// itself.
fn add_kid(kids: &mut Vec<Vec<usize>>, p: Option<usize>, i: usize)
    requires
        i == old(kids)@.len(),
        p is Some ==> p->0 < i,
    ensures
        final(kids)@.len() == old(kids)@.len() + 1,
        forall|k: int|
            0 <= k < i ==> (#[trigger] final(kids)@[k])@ == (if p == Some(k as usize) {
                old(kids)@[k]@.push(i)
            } else {
                old(kids)@[k]@
            }),
        final(kids)@[i as int]@.len() == 0,
{
    if let Some(p) = p {
        let mut list: Vec<usize> = Vec::new();
        std::mem::swap(&mut list, &mut kids[p]);
        list.push(i);
        kids.set(p, list);
    }
    kids.push(Vec::new());
}

/// A path that was cut to a node's depth and then got the node is right again.
proof fn path_grows(rows: Seq<RowView>, before_cut: Seq<usize>, path: Seq<usize>, i: int)
    requires
        0 <= i < rows.len() <= usize::MAX,
        path_ok(rows, before_cut, i),
        rows[i].depth <= before_cut.len(),
        path == before_cut.take(rows[i].depth as int).push(i as usize),
    ensures
        path_ok(rows, path, i + 1),
{
    assert forall|d: int| 0 <= d < path.len() implies last_at(rows, d, i + 1) == Some(#[trigger] path[d]) by {
        if d < rows[i].depth {
            assert(path[d] == before_cut[d]);
        }
    }
}

/// Builds the tree of reported nodes; `None` where they form none.
pub fn build_tree(rows: Vec<Row>, source: Vec<u8>) -> (r: Option<Syntax>)
    ensures
        match r {
            Some(t) => rows_ok(views(rows@), source@.len() as int) && t@ == tree_of(views(rows@), source@) && t@.wf(),
            None => !rows_ok(views(rows@), source@.len() as int),
        },
{
    if !check_rows(&rows, source.len()) {
        return None;
    }
    let ghost rs = views(rows@);
    let total: usize = rows.len();
    let (parents, mut kids) = link_rows(&rows, source.len());
    let mut nodes: Vec<SyntaxNode> = Vec::new();
    let mut rest = rows;
    let ghost all = tree_of(rs, source@).nodes;
    assert(views(nodes@) =~= Seq::<NodeInfo>::empty());
    // nodes are taken from the end of the lists, so they are collected backwards
    let mut left: usize = total;
    while left > 0
        invariant
            left <= total,
            total == rs.len(),
            rest@.len() == left,
            kids@.len() == left,
            parents@.len() == total,
            all == tree_of(rs, source@).nodes,
            forall|k: int| 0 <= k < left ==> (#[trigger] rest@[k])@ == rs[k],
            forall|k: int| 0 <= k < left ==> (#[trigger] kids@[k])@ == row_children(rs, k, total as int),
            forall|k: int| 0 <= k < total ==> #[trigger] parents@[k] == row_parent(rs, k),
            nodes@.len() == total - left,
            forall|k: int| 0 <= k < total - left ==> (#[trigger] nodes@[k])@ == all[total - 1 - k],
        decreases left,
    {
        left -= 1;
        assert(rest@[left as int]@ == rs[left as int]);
        assert(kids@[left as int]@ == row_children(rs, left as int, total as int));
        let row = rest.pop();
        let list = kids.pop();
        if let (Some(row), Some(children)) = (row, list) {
            let span = Span {
                start_line: to_one_based(row.from.0),
                start_col: to_one_based(row.from.1),
                end_line: to_one_based(row.to.0),
                end_col: to_one_based(row.to.1),
            };
            let node = SyntaxNode { row, span, parent: parents[left], children };
            assert(node@ == all[left as int]);
            nodes.push(node);
        }
    }
    let mut ordered: Vec<SyntaxNode> = Vec::new();
    let mut m: usize = 0;
    while m < total
        invariant
            m <= total,
            total == all.len(),
            nodes@.len() == total - m,
            forall|k: int| 0 <= k < total - m ==> (#[trigger] nodes@[k])@ == all[total - 1 - k],
            ordered@.len() == m,
            forall|k: int| 0 <= k < m ==> (#[trigger] ordered@[k])@ == all[k],
        decreases total - m,
    {
        assert(nodes@[total - m - 1]@ == all[m as int]);
        if let Some(node) = nodes.pop() {
            ordered.push(node);
        }
        m += 1;
    }
    let t = Syntax { nodes: ordered, source };
    proof {
        assert(views(t.nodes@) =~= all);
        tree_of_is_wf(rs, source@);
    }
    Some(t)
}

proof fn no_negative_depth(rows: Seq<RowView>, n: int)
    requires
        0 <= n <= rows.len(),
    ensures
        last_at(rows, -1, n) is None,
    decreases n,
{
    if n > 0 {
        no_negative_depth(rows, n - 1);
    }
}

proof fn no_children_before(rows: Seq<RowView>, p: int, n: int)
    requires
        0 <= n <= p + 1,
        n <= rows.len() <= usize::MAX,
    ensures
        row_children(rows, p, n).len() == 0,
    decreases n,
{
    if n > 0 {
        no_children_before(rows, p, n - 1);
    }
}

// ---------------------------------------------------------------------------
// Reading the tree
// ---------------------------------------------------------------------------

impl Syntax {
    /// The number of nodes.
    pub fn len(&self) -> (r: usize)
        ensures
            r == self@.nodes.len(),
    {
        self.nodes.len()
    }

    /// The kind of a node.
    pub fn kind(&self, n: usize) -> (r: &str)
        requires
            n < self@.nodes.len(),
        ensures
            r@ == self@.kind(n),
    {
        self.nodes[n].row.kind.as_str()
    }

    /// Tells whether a node is of a kind.
    pub fn is(&self, n: usize, kind: &str) -> (r: bool)
        requires
            n < self@.nodes.len(),
        ensures
            r == (self@.kind(n) == kind@),
    {
        same(self.nodes[n].row.kind.as_str(), kind)
    }

    /// Tells whether a node's kind is one of the given ones.
    pub fn is_among(&self, n: usize, kinds: &[&'static str]) -> (r: bool)
        requires
            n < self@.nodes.len(),
        ensures
            r == self@.kind_among(n, kinds@),
    {
        crate::strings::one_of(self.nodes[n].row.kind.as_str(), kinds)
    }

    /// The text of a node.
    pub fn text(&self, n: usize) -> (r: String)
        requires
            self@.wf(),
            n < self@.nodes.len(),
        ensures
            r@ == self@.text(n),
    {
        let node = &self.nodes[n];
        assert(self@.nodes[n as int] == node@);
        let part = vstd::slice::slice_subrange(self.source.as_slice(), node.row.start, node.row.end);
        decode_lossy(part)
    }

    /// The bytes of a range of the source.
    pub fn bytes(&self, from: usize, to: usize) -> (r: Vec<u8>)
        requires
            from <= to <= self@.source.len(),
        ensures
            r@ == self@.source.subrange(from as int, to as int),
    {
        let part = vstd::slice::slice_subrange(self.source.as_slice(), from, to);
        vstd::slice::slice_to_vec(part)
    }

    /// The range of a node.
    pub fn span(&self, n: usize) -> (r: Span)
        requires
            n < self@.nodes.len(),
        ensures
            r == self@.span(n),
    {
        self.nodes[n].span
    }

    /// The first byte of a node.
    pub fn start(&self, n: usize) -> (r: usize)
        requires
            n < self@.nodes.len(),
        ensures
            r == self@.nodes[n as int].start,
    {
        self.nodes[n].row.start
    }

    /// The byte behind a node.
    pub fn end(&self, n: usize) -> (r: usize)
        requires
            n < self@.nodes.len(),
        ensures
            r == self@.nodes[n as int].end,
    {
        self.nodes[n].row.end
    }

    /// Tells whether a node is named.
    pub fn is_named(&self, n: usize) -> (r: bool)
        requires
            n < self@.nodes.len(),
        ensures
            r == self@.nodes[n as int].named,
    {
        self.nodes[n].row.named
    }

    /// Tells whether a node is an error or a missing token.
    pub fn is_fault(&self, n: usize) -> (r: bool)
        requires
            n < self@.nodes.len(),
        ensures
            r == (self@.nodes[n as int].error || self@.nodes[n as int].missing),
    {
        self.nodes[n].row.error || self.nodes[n].row.missing
    }

    /// Tells whether there is an error in a node or below it.
    pub fn has_error(&self, n: usize) -> (r: bool)
        requires
            n < self@.nodes.len(),
        ensures
            r == self@.nodes[n as int].has_error,
    {
        self.nodes[n].row.has_error
    }

    /// The parent of a node.
    pub fn parent(&self, n: usize) -> (r: Option<usize>)
        requires
            self@.wf(),
            n < self@.nodes.len(),
        ensures
            r == self@.parent(n),
            r is Some ==> r->0 < n,
    {
        assert(self@.nodes[n as int] == self.nodes@[n as int]@);
        self.nodes[n].parent
    }

    /// The children of a node.
    pub fn kids(&self, n: usize) -> (r: &Vec<usize>)
        requires
            self@.wf(),
            n < self@.nodes.len(),
        ensures
            r@ == self@.kids(n),
            forall|k: int| 0 <= k < r@.len() ==> self@.below(n, #[trigger] r@[k]),
    {
        assert(self@.ok(n));
        assert(self@.nodes[n as int] == self.nodes@[n as int]@);
        &self.nodes[n].children
    }

    /// The first child under a field.
    pub fn field(&self, n: usize, field: &str) -> (r: Option<usize>)
        requires
            self@.wf(),
            n < self@.nodes.len(),
        ensures
            r == self@.field(n, field@),
            r is Some ==> self@.below(n, r->0),
    {
        let kids = self.kids(n);
        let mut k: usize = 0;
        while k < kids.len()
            invariant
                k <= kids@.len(),
                self@.wf(),
                n < self@.nodes.len(),
                kids@ == self@.kids(n),
                forall|j: int| 0 <= j < kids@.len() ==> self@.below(n, #[trigger] kids@[j]),
                self@.field(n, field@) == self@.field_from(kids@, field@, k as int),
            decreases kids@.len() - k,
        {
            let c = kids[k];
            assert(self@.below(n, c));
            assert(self@.nodes[c as int] == self.nodes@[c as int]@);
            if let Some(f) = &self.nodes[c].row.field {
                if same(f.as_str(), field) {
                    return Some(c);
                }
            }
            k += 1;
        }
        None
    }

    /// Every child under a field, in order.
    pub fn fields(&self, n: usize, field: &str) -> (r: Vec<usize>)
        requires
            self@.wf(),
            n < self@.nodes.len(),
        ensures
            r@ == self@.fields(n, field@),
            forall|k: int| 0 <= k < r@.len() ==> self@.below(n, #[trigger] r@[k]),
    {
        let kids = self.kids(n);
        let mut out: Vec<usize> = Vec::new();
        let mut k: usize = 0;
        while k < kids.len()
            invariant
                k <= kids@.len(),
                self@.wf(),
                n < self@.nodes.len(),
                kids@ == self@.kids(n),
                forall|j: int| 0 <= j < kids@.len() ==> self@.below(n, #[trigger] kids@[j]),
                forall|j: int| 0 <= j < out@.len() ==> self@.below(n, #[trigger] out@[j]),
                out@ == self@.all_under(kids@, field@, k as int),
            decreases kids@.len() - k,
        {
            let c = kids[k];
            assert(self@.below(n, c));
            assert(self@.nodes[c as int] == self.nodes@[c as int]@);
            if let Some(f) = &self.nodes[c].row.field {
                if same(f.as_str(), field) {
                    out.push(c);
                }
            }
            k += 1;
        }
        out
    }

    /// The named children of a node, in order.
    pub fn named_kids(&self, n: usize) -> (r: Vec<usize>)
        requires
            self@.wf(),
            n < self@.nodes.len(),
        ensures
            r@ == self@.named_kids(n),
            forall|k: int| 0 <= k < r@.len() ==> self@.below(n, #[trigger] r@[k]),
    {
        let kids = self.kids(n);
        let mut out: Vec<usize> = Vec::new();
        let mut k: usize = 0;
        while k < kids.len()
            invariant
                k <= kids@.len(),
                self@.wf(),
                n < self@.nodes.len(),
                kids@ == self@.kids(n),
                forall|j: int| 0 <= j < kids@.len() ==> self@.below(n, #[trigger] kids@[j]),
                forall|j: int| 0 <= j < out@.len() ==> self@.below(n, #[trigger] out@[j]),
                out@ == self@.named_of(kids@, k as int),
            decreases kids@.len() - k,
        {
            let c = kids[k];
            assert(self@.below(n, c));
            assert(self@.nodes[c as int] == self.nodes@[c as int]@);
            if self.nodes[c].row.named {
                out.push(c);
            }
            k += 1;
        }
        out
    }

    /// The first child of a kind.
    pub fn kid_of(&self, n: usize, kind: &str) -> (r: Option<usize>)
        requires
            self@.wf(),
            n < self@.nodes.len(),
        ensures
            r == self@.kid_of(n, kind@),
            r is Some ==> self@.below(n, r->0),
    {
        let kids = self.kids(n);
        let mut k: usize = 0;
        while k < kids.len()
            invariant
                k <= kids@.len(),
                self@.wf(),
                n < self@.nodes.len(),
                kids@ == self@.kids(n),
                forall|j: int| 0 <= j < kids@.len() ==> self@.below(n, #[trigger] kids@[j]),
                self@.kid_of(n, kind@) == self@.kind_from(kids@, kind@, k as int),
            decreases kids@.len() - k,
        {
            let c = kids[k];
            assert(self@.below(n, c));
            if self.is(c, kind) {
                return Some(c);
            }
            k += 1;
        }
        None
    }

    /// The first child whose kind is one of the given ones.
    pub fn kid_among(&self, n: usize, kinds: &[&'static str]) -> (r: Option<usize>)
        requires
            self@.wf(),
            n < self@.nodes.len(),
        ensures
            r == self@.kid_among(n, kinds@),
            r is Some ==> self@.below(n, r->0),
    {
        let kids = self.kids(n);
        let mut k: usize = 0;
        while k < kids.len()
            invariant
                k <= kids@.len(),
                self@.wf(),
                n < self@.nodes.len(),
                kids@ == self@.kids(n),
                forall|j: int| 0 <= j < kids@.len() ==> self@.below(n, #[trigger] kids@[j]),
                self@.kid_among(n, kinds@) == self@.kinds_from(kids@, kinds@, k as int),
            decreases kids@.len() - k,
        {
            let c = kids[k];
            assert(self@.below(n, c));
            if self.is_among(c, kinds) {
                return Some(c);
            }
            k += 1;
        }
        None
    }
}

// ---------------------------------------------------------------------------
// Parsing
// ---------------------------------------------------------------------------

/// The tree that a grammar makes of a source.
pub open spec fn parsed_tree(grammar: Grammar, source: Seq<u8>) -> Option<TreeView> {
    match parsed_rows(grammar, source) {
        Some(rows) => if rows_ok(rows, source.len() as int) {
            Some(tree_of(rows, source))
        } else {
            None
        },
        None => None,
    }
}

/// A parsed source: its tree, and what queries find in it.
pub struct Parsed {
    tree: Syntax,
    raw: tree_sitter::Tree,
}

impl Parsed {
    /// The tree.
    pub closed spec fn tree(&self) -> TreeView {
        self.tree@
    }

    /// The matches of a query.
    pub closed spec fn hits(&self, query: Seq<char>) -> Seq<Seq<Capture>> {
        tree_hits(self.raw, query, self.tree@.source)
    }

    /// The tree is the parser's own, over the source that was parsed.
    #[verifier::type_invariant]
    spec fn fits(self) -> bool {
        rows_fit(tree_rows(self.raw), self.tree@.source.len() as int)
    }

    /// The tree.
    pub fn syntax(&self) -> (r: &Syntax)
        ensures
            r@ == self.tree(),
    {
        &self.tree
    }

    /// Runs a query.
    pub fn query(&self, query: &str) -> (r: Vec<Vec<Capture>>)
        ensures
            capture_lists(r@) == self.hits(query@),
    {
        proof {
            use_type_invariant(self);
        }
        hits_of(&self.raw, query, self.tree.source.as_slice())
    }
}

/// The captures of each match.
pub open spec fn capture_lists(hits: Seq<Vec<Capture>>) -> Seq<Seq<Capture>> {
    hits.map_values(|v: Vec<Capture>| v@)
}

/// Parses a source.
pub fn parse(grammar: Grammar, source: &[u8]) -> (r: Option<Parsed>)
    ensures
        match r {
            Some(p) => {
                &&& parsed_tree(grammar, source@) == Some(p.tree())
                &&& p.tree().wf()
                &&& p.tree().nodes.len() > 0
                &&& forall|q: Seq<char>| (#[trigger] p.hits(q)) == parsed_hits(grammar, source@, q)
            },
            None => parsed_tree(grammar, source@) is None,
        },
{
    match parse_source(grammar, source) {
        Some(raw) => {
            let rows = rows_of(&raw);
            let bytes = vstd::slice::slice_to_vec(source);
            match build_tree(rows, bytes) {
                Some(tree) => Some(Parsed { tree, raw }),
                None => None,
            }
        },
        None => None,
    }
}

/// The first node from `n` on that is of a captured kind and spans the captured
/// bytes.
pub open spec fn captured_from(t: TreeView, c: Capture, n: int) -> Option<usize>
    decreases t.nodes.len() - n,
{
    if n < 0 || n >= t.nodes.len() {
        None
    } else if t.nodes[n].symbol == c.symbol && t.nodes[n].start == c.start && t.nodes[n].end == c.end {
        Some(n as usize)
    } else {
        captured_from(t, c, n + 1)
    }
}

/// The first node that a match captured under a number.
pub open spec fn capture_from(t: TreeView, hit: Seq<Capture>, index: u32, k: int) -> Option<usize>
    decreases hit.len() - k,
{
    if k < 0 || k >= hit.len() {
        None
    } else if hit[k].index == index {
        captured_from(t, hit[k], 0)
    } else {
        capture_from(t, hit, index, k + 1)
    }
}

/// The node that a match captured under a number.
pub open spec fn captured(t: TreeView, hit: Seq<Capture>, index: u32) -> Option<usize> {
    capture_from(t, hit, index, 0)
}

/// A captured node is in the tree.
pub broadcast proof fn captured_is_in_tree(t: TreeView, hit: Seq<Capture>, index: u32)
    ensures
        (#[trigger] captured(t, hit, index)) is Some ==> captured(t, hit, index)->0 < t.nodes.len(),
{
    capture_from_is_in_tree(t, hit, index, 0);
}

proof fn capture_from_is_in_tree(t: TreeView, hit: Seq<Capture>, index: u32, k: int)
    ensures
        capture_from(t, hit, index, k) is Some ==> capture_from(t, hit, index, k)->0 < t.nodes.len(),
    decreases hit.len() - k,
{
    if 0 <= k < hit.len() {
        if hit[k].index == index {
            captured_from_is_in_tree(t, hit[k], 0);
        } else {
            capture_from_is_in_tree(t, hit, index, k + 1);
        }
    }
}

proof fn captured_from_is_in_tree(t: TreeView, c: Capture, n: int)
    requires
        0 <= n,
    ensures
        captured_from(t, c, n) is Some ==> captured_from(t, c, n)->0 < t.nodes.len(),
    decreases t.nodes.len() - n,
{
    if n < t.nodes.len() {
        captured_from_is_in_tree(t, c, n + 1);
    }
}

impl Syntax {
    /// The node that a match captured under a number.
    pub fn captured(&self, hit: &Vec<Capture>, index: u32) -> (r: Option<usize>)
        ensures
            r == captured(self@, hit@, index),
            r is Some ==> r->0 < self@.nodes.len(),
    {
        let mut k: usize = 0;
        while k < hit.len()
            invariant
                k <= hit@.len(),
                captured(self@, hit@, index) == capture_from(self@, hit@, index, k as int),
            decreases hit@.len() - k,
        {
            let c = hit[k];
            if c.index == index {
                let mut n: usize = 0;
                while n < self.nodes.len()
                    invariant
                        n <= self.nodes@.len(),
                        captured(self@, hit@, index) == captured_from(self@, c, n as int),
                    decreases self.nodes@.len() - n,
                {
                    let node = &self.nodes[n];
                    assert(self@.nodes[n as int] == node@);
                    if node.row.symbol == c.symbol && node.row.start == c.start && node.row.end == c.end {
                        return Some(n);
                    }
                    n += 1;
                }
                return None;
            }
            k += 1;
        }
        None
    }
}

}
