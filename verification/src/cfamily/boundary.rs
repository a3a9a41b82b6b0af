//! Boundaries between services in C and C++ sources.
//!
//! A client is libcurl, whose URL is the third argument of a setter with an
//! option as its second. The URL is rarely a literal at the call: C prints it
//! into a buffer, C++ concatenates it. Both are put together again into a
//! pattern whose unknown parts are `{}`, which is what a route's parameters
//! become too. Where nothing usable can be recovered no port is made, because a
//! key of nothing but placeholders would join services that have nothing to do
//! with each other.

use vstd::prelude::*;

use crate::boundaries::{
    http_verb, is_http_verb, is_path, no_detail, normalize_http_path, normalized, path_like, BoundaryRef, BoundaryView,
    Detail,
};
use crate::cfamily::Dialect;
use crate::strings::{
    after_last, contains, contains_char, cut, drop_spaces, has, has_char, listed, one_of, parts_by, pieces, split,
    split_by, split_once, tail_after, trim, trimmed, without_spaces,
};
use crate::text::{
    add_item, ascii_alnum, chars_of, concat2, concat3, copy, is_ascii_alnum, lowercase, opt_view, same, string_of,
    string_of_all, to_lower, to_upper, uppercase, views,
};
use crate::tree::{
    capture_lists, captured, captured_is_in_tree, group_tree, parse, parsed_hits, parsed_tree, Capture, Grammar, Parsed,
    Syntax, TreeView,
};
use crate::walk::{descend, descendants, find_first, first_of};

verus! {

broadcast use {group_tree, captured_is_in_tree};

/// What a part of a URL becomes that cannot be recovered.
pub const PLACEHOLDER: &'static str = "{}";

/// How far a URL is followed through variables and concatenations.
pub const MAX_URL_DEPTH: usize = 6;

/// How far the search for the verbs of a Crow route climbs.
pub const MAX_CHAIN_CLIMB: usize = 6;

/// The option of libcurl whose value is the URL, and the place of the value.
pub const CURL_URL_OPTION: &'static str = "CURLOPT_URL";

/// The option of libcurl that spells the verb out.
pub const CURL_CUSTOM_REQUEST: &'static str = "CURLOPT_CUSTOMREQUEST";

/// Functions that append to their first argument.
pub const APPEND_FUNCTIONS: [&'static str; 4] = ["strcat", "strncat", "strlcat", "stpcat"];

/// Methods that hand back the buffer of a string object.
pub const STRING_ACCESSORS: [&'static str; 4] = ["c_str", "data", "str", "string"];

/// How civetweb registers a handler: context, path, handler, data.
pub const CIVETWEB_HANDLER: &'static str = "mg_set_request_handler";

/// How libmicrohttpd starts a daemon with one handler for every path.
pub const MICROHTTPD_DAEMON: &'static str = "MHD_start_daemon";

/// The route macro of Crow.
pub const CROW_ROUTE: &'static str = "CROW_ROUTE";

/// The route macros of Drogon.
pub const DROGON_ADD_METHOD: [&'static str; 2] = ["ADD_METHOD_TO", "ADD_METHOD_VIA_REGEX"];

/// The generated base classes of the server side of a service.
pub const GRPC_SERVICE_BASES: [&'static str; 3] = ["Service", "AsyncService", "CallbackService"];

/// The generated factory of the client side.
pub const GRPC_NEW_STUB: &'static str = "NewStub";

/// The parameter that every handler of a service takes.
pub const GRPC_SERVER_CONTEXT: &'static str = "ServerContext";

/// The path of a server that registers no route at all. No client has it, so it
/// records the surface without making up a contract.
pub const WHOLE_SPACE: &'static str = "/*";

/// Every call, with the callee and the arguments.
pub const Q_CALL: &'static str = "(call_expression function: (_) @fn arguments: (argument_list) @args) @call";

/// Where a name gets its value.
pub const Q_BINDING: &'static str = "(init_declarator declarator: (_) @name value: (_) @value) (assignment_expression left: (_) @name right: (_) @value)";

/// A class or structure with bases.
pub const Q_RECORD_BASE: &'static str = "(class_specifier name: (type_identifier) @name (base_class_clause) @bases body: (field_declaration_list) @body) (struct_specifier name: (type_identifier) @name (base_class_clause) @bases body: (field_declaration_list) @body)";

/// A declarator with parameters.
pub const Q_DECLARATOR: &'static str = "(function_declarator declarator: (_) @name parameters: (parameter_list) @params)";

/// The numbers of the captures in the queries.
pub const FN: u32 = 0;

pub const ARGS: u32 = 1;

pub const CALL: u32 = 2;

pub const NAME: u32 = 0;

pub const VALUE: u32 = 1;

pub const BASES: u32 = 1;

pub const BODY: u32 = 2;

pub const PARAMS: u32 = 1;

// ---------------------------------------------------------------------------
// Texts
// ---------------------------------------------------------------------------

/// What may stand between a percent sign and its conversion.
pub const FORMAT_MODIFIERS: &'static str = "-+ #0123456789.*'hlLqjzt";

/// The characters that end a format specifier.
pub const FORMAT_CONVERSIONS: &'static str = "diouxXeEfFgGaAcspn";

/// The position behind a format specifier.
pub open spec fn specifier_end(s: Seq<char>, i: int) -> int
    decreases s.len() - i,
{
    if i < 0 || i >= s.len() {
        i
    } else if has_char(FORMAT_CONVERSIONS@, s[i]) || !has_char(FORMAT_MODIFIERS@, s[i]) {
        i + 1
    } else {
        specifier_end(s, i + 1)
    }
}

/// The end of a format specifier lies behind its start.
pub proof fn specifier_end_bounds(s: Seq<char>, i: int)
    requires
        0 <= i <= s.len(),
    ensures
        i <= specifier_end(s, i) <= s.len(),
    decreases s.len() - i,
{
    if i < s.len() && !(has_char(FORMAT_CONVERSIONS@, s[i]) || !has_char(FORMAT_MODIFIERS@, s[i])) {
        specifier_end_bounds(s, i + 1);
    }
}

/// A format string from position `i` on, with a placeholder for each specifier.
pub open spec fn pattern_from(s: Seq<char>, i: int) -> Seq<char>
    decreases s.len() - i,
{
    if i < 0 || i >= s.len() {
        Seq::empty()
    } else if s[i] != '%' {
        seq![s[i]] + pattern_from(s, i + 1)
    } else if i + 1 < s.len() && s[i + 1] == '%' {
        seq!['%'] + pattern_from(s, i + 2)
    } else {
        proof {
            specifier_end_bounds(s, i + 1);
        }
        PLACEHOLDER@ + pattern_from(s, specifier_end(s, i + 1))
    }
}

/// A format string as a path pattern.
pub open spec fn format_pattern(format: Seq<char>) -> Seq<char> {
    pattern_from(format, 0)
}

/// The position behind a format specifier.
#[verifier::loop_isolation(false)]
fn end_of_specifier(s: &[char], i: usize) -> (r: usize)
    requires
        i <= s@.len(),
    ensures
        r == specifier_end(s@, i as int),
        i <= r <= s@.len(),
{
    let n: usize = s.len();
    let mut k: usize = i;
    while k < n
        invariant
            i <= k <= n == s@.len(),
            specifier_end(s@, i as int) == specifier_end(s@, k as int),
        decreases n - k,
    {
        if contains_char(FORMAT_CONVERSIONS, s[k]) || !contains_char(FORMAT_MODIFIERS, s[k]) {
            return k + 1;
        }
        k += 1;
    }
    k
}

/// A format string as a path pattern: the whole specifier is taken, not only
/// its conversion character.
#[verifier::loop_isolation(false)]
pub fn format_to_pattern(format: &str) -> (r: String)
    ensures
        r@ == format_pattern(format@),
{
    let s = chars_of(format);
    let n: usize = s.len();
    let mut out = String::new();
    let mut i: usize = 0;
    let ghost all = format_pattern(format@);
    assert(out@ + all =~= all);
    while i < n
        invariant
            i <= n == s@.len(),
            all == out@ + pattern_from(s@, i as int),
        decreases n - i,
    {
        let ghost here = out@;
        if s[i] != '%' {
            let ghost rest = pattern_from(s@, i + 1);
            out.push(s[i]);
            assert(out@ + rest =~= here + (seq![s@[i as int]] + rest));
            i += 1;
        } else if i + 1 < n && s[i + 1] == '%' {
            let ghost rest = pattern_from(s@, i + 2);
            out.push('%');
            assert(out@ + rest =~= here + (seq!['%'] + rest));
            i += 2;
        } else {
            let e = end_of_specifier(s.as_slice(), i + 1);
            let ghost rest = pattern_from(s@, e as int);
            out.append(PLACEHOLDER);
            assert(out@ + rest =~= here + (PLACEHOLDER@ + rest));
            i = e;
        }
    }
    assert(out@ + Seq::<char>::empty() =~= out@);
    out
}

/// Whether a segment says something: it is neither empty nor a placeholder.
pub open spec fn telling(segment: Seq<char>) -> bool {
    segment.len() > 0 && segment != PLACEHOLDER@
}

/// Whether a pattern that was put together is worth a key: a path with a segment
/// that says something. A literal need only be a path.
pub open spec fn usable(raw: Seq<char>) -> bool {
    let segments = pieces(normalized(raw), '/');
    path_like(raw) && exists|i: int| 0 <= i < segments.len() && #[trigger] telling(segments[i])
}

/// Tells whether a pattern is worth a key.
#[verifier::loop_isolation(false)]
pub fn usable_path(raw: &str) -> (r: bool)
    ensures
        r == usable(raw@),
{
    if !is_path(raw) {
        return false;
    }
    let norm = normalize_http_path(raw);
    let segments = split(norm.as_str(), '/');
    let ghost all = pieces(normalized(raw@), '/');
    let mut i: usize = 0;
    while i < segments.len()
        invariant
            i <= segments@.len(),
            forall|j: int| 0 <= j < i ==> !#[trigger] telling(all[j]),
        decreases segments@.len() - i,
    {
        let s = segments[i].as_str();
        assert(all[i as int] == s@);
        if !s.is_empty() && !same(s, PLACEHOLDER) {
            assert(telling(all[i as int]));
            return true;
        }
        i += 1;
    }
    false
}

/// The last component of a qualified name.
pub fn last_component(name: &str) -> (r: String)
    ensures
        r@ == after_last(name@, "::"@),
{
    tail_after(name, "::")
}

/// Whether a character parts a member from its receiver.
pub open spec fn member_mark(c: char) -> bool {
    c == '.' || c == '>' || c == ':'
}

/// Where the part behind the last mark among the first `n` characters begins.
pub open spec fn behind_marks(s: Seq<char>, n: int) -> int
    decreases n,
{
    if n <= 0 || n > s.len() {
        0
    } else if member_mark(s[n - 1]) {
        n
    } else {
        behind_marks(s, n - 1)
    }
}

/// The own name of a receiver that is reached through other objects.
pub open spec fn receiver_name(text: Seq<char>) -> Seq<char> {
    trimmed(text.skip(behind_marks(text, text.len() as int)))
}

/// The own name of a receiver that is reached through other objects.
#[verifier::loop_isolation(false)]
pub fn receiver_key(text: &str) -> (r: String)
    ensures
        r@ == receiver_name(text@),
{
    let s = chars_of(text);
    let n: usize = s.len();
    let mut k: usize = n;
    while k > 0 && !(s[k - 1] == '.' || s[k - 1] == '>' || s[k - 1] == ':')
        invariant
            k <= n == s@.len(),
            behind_marks(s@, n as int) == behind_marks(s@, k as int),
        decreases k,
    {
        k -= 1;
    }
    let own = string_of(s.as_slice(), k, n);
    assert(own@ =~= text@.skip(k as int));
    trim(own.as_str())
}

/// The first quoted run of a text, and what follows it.
pub open spec fn first_quoted(text: Seq<char>) -> Option<(Seq<char>, Seq<char>)> {
    match cut(text, "\""@) {
        Some(a) => cut(a.1, "\""@),
        None => None,
    }
}

/// The first quoted run of a text, and what follows it.
pub fn split_first_quoted(text: &str) -> (r: Option<(String, String)>)
    ensures
        match r {
            Some(x) => first_quoted(text@) == Some((x.0@, x.1@)),
            None => first_quoted(text@) is None,
        },
{
    match split_once(text, "\"") {
        Some((_, rest)) => split_once(rest.as_str(), "\""),
        None => None,
    }
}

// ---------------------------------------------------------------------------
// Literals and names
// ---------------------------------------------------------------------------

/// Whether a node holds a piece of the content of a string literal.
pub open spec fn content_piece(t: TreeView, n: usize) -> bool {
    t.kind(n) == "string_content"@ || t.kind(n) == "raw_string_content"@ || t.kind(n) == "escape_sequence"@
}

/// The content of the first `k` of some nodes.
pub open spec fn content_of(t: TreeView, list: Seq<usize>, k: int) -> Seq<char>
    decreases k,
{
    if k <= 0 || k > list.len() {
        Seq::empty()
    } else if content_piece(t, list[k - 1]) {
        content_of(t, list, k - 1) + t.text(list[k - 1])
    } else {
        content_of(t, list, k - 1)
    }
}

/// The content of a string literal, escapes and raw strings included.
pub open spec fn literal_content(t: TreeView, n: usize) -> Seq<char> {
    content_of(t, t.kids(n), t.kids(n).len() as int)
}

/// Whether a node is a string literal.
pub open spec fn literal_node(t: TreeView, n: usize) -> bool {
    t.kind(n) == "string_literal"@ || t.kind(n) == "raw_string_literal"@
}

/// Whether the first `k` of some nodes are string literals.
pub open spec fn all_literals(t: TreeView, list: Seq<usize>, k: int) -> bool {
    forall|i: int| 0 <= i < k && i < list.len() ==> literal_node(t, #[trigger] list[i])
}

/// The contents of the first `k` of some string literals.
pub open spec fn contents_of(t: TreeView, list: Seq<usize>, k: int) -> Seq<char>
    decreases k,
{
    if k <= 0 || k > list.len() {
        Seq::empty()
    } else {
        contents_of(t, list, k - 1) + literal_content(t, list[k - 1])
    }
}

/// The value of a string literal; adjacent literals are one. `None` for any
/// other node.
pub open spec fn string_value(t: TreeView, n: usize) -> Option<Seq<char>> {
    if literal_node(t, n) {
        Some(literal_content(t, n))
    } else if t.kind(n) == "concatenated_string"@ {
        let kids = t.named_kids(n);
        if all_literals(t, kids, kids.len() as int) {
            Some(contents_of(t, kids, kids.len() as int))
        } else {
            None
        }
    } else {
        None
    }
}

/// The content of a string literal.
#[verifier::loop_isolation(false)]
fn string_content(t: &Syntax, n: usize) -> (r: String)
    requires
        t@.wf(),
        n < t@.nodes.len(),
    ensures
        r@ == literal_content(t@, n),
{
    let kids = t.kids(n);
    let mut out = String::new();
    let mut k: usize = 0;
    assert(out@ =~= Seq::<char>::empty());
    while k < kids.len()
        invariant
            k <= kids@.len(),
            out@ == content_of(t@, kids@, k as int),
        decreases kids@.len() - k,
    {
        let c = kids[k];
        assert(t@.below(n, c));
        if t.is(c, "string_content") || t.is(c, "raw_string_content") || t.is(c, "escape_sequence") {
            let text = t.text(c);
            out.append(text.as_str());
        }
        k += 1;
    }
    out
}

/// Tells whether a node is a string literal.
fn is_literal(t: &Syntax, n: usize) -> (r: bool)
    requires
        n < t@.nodes.len(),
    ensures
        r == literal_node(t@, n),
{
    t.is(n, "string_literal") || t.is(n, "raw_string_literal")
}

/// The value of a string literal.
#[verifier::loop_isolation(false)]
fn as_string(t: &Syntax, n: usize) -> (r: Option<String>)
    requires
        t@.wf(),
        n < t@.nodes.len(),
    ensures
        opt_view(r) == string_value(t@, n),
{
    if is_literal(t, n) {
        return Some(string_content(t, n));
    }
    if !t.is(n, "concatenated_string") {
        return None;
    }
    let kids = t.named_kids(n);
    let mut out = String::new();
    let mut k: usize = 0;
    assert(out@ =~= Seq::<char>::empty());
    while k < kids.len()
        invariant
            k <= kids@.len(),
            all_literals(t@, kids@, k as int),
            out@ == contents_of(t@, kids@, k as int),
        decreases kids@.len() - k,
    {
        let c = kids[k];
        assert(t@.below(n, c));
        if !is_literal(t, c) {
            assert(!literal_node(t@, kids@[k as int]));
            return None;
        }
        let text = string_content(t, c);
        out.append(text.as_str());
        k += 1;
    }
    Some(out)
}

/// The name that a write targets: the field of `this->url_`, else the
/// declarator's own identifier, so that a write through an object and a read of
/// the member name the same buffer.
pub open spec fn target_name(t: TreeView, n: usize) -> Seq<char> {
    if t.kind(n) == "field_expression"@ && t.field(n, "field"@) is Some {
        t.text(t.field(n, "field"@)->0)
    } else {
        match first_of(t, n, "identifier"@) {
            Some(c) => t.text(c),
            None => t.text(n),
        }
    }
}

/// The name that a write targets.
fn bound_name(t: &Syntax, n: usize) -> (r: String)
    requires
        t@.wf(),
        n < t@.nodes.len(),
    ensures
        r@ == target_name(t@, n),
{
    if t.is(n, "field_expression") {
        if let Some(field) = t.field(n, "field") {
            return t.text(field);
        }
    }
    match find_first(t, n, "identifier") {
        Some(c) => t.text(c),
        None => t.text(n),
    }
}

/// The function or lambda that a node sits in.
pub open spec fn enclosing_fn(t: TreeView, n: usize) -> Option<usize>
    decreases n,
{
    match t.parent(n) {
        Some(p) => if p >= n {
            None
        } else if t.kind(p) == "function_definition"@ || t.kind(p) == "lambda_expression"@ {
            Some(p)
        } else {
            enclosing_fn(t, p)
        },
        None => None,
    }
}

/// A range of bytes.
pub type Scope = Option<(usize, usize)>;

/// The range of the function or lambda that a node sits in.
pub open spec fn scope_of(t: TreeView, n: usize) -> Scope {
    match enclosing_fn(t, n) {
        Some(f) => Some((t.nodes[f as int].start, t.nodes[f as int].end)),
        None => None,
    }
}

/// The range of the function or lambda that a node sits in.
#[verifier::loop_isolation(false)]
fn scope_at(t: &Syntax, n: usize) -> (r: Scope)
    requires
        t@.wf(),
        n < t@.nodes.len(),
    ensures
        r == scope_of(t@, n),
{
    let mut current: usize = n;
    loop
        invariant
            current < t@.nodes.len(),
            enclosing_fn(t@, n) == enclosing_fn(t@, current),
        decreases current,
    {
        match t.parent(current) {
            Some(p) => {
                if t.is(p, "function_definition") || t.is(p, "lambda_expression") {
                    return Some((t.start(p), t.end(p)));
                }
                current = p;
            },
            None => {
                return None;
            },
        }
    }
}

/// Whether a node lies in a range.
pub open spec fn within(t: TreeView, n: usize, scope: Scope) -> bool {
    match scope {
        Some((start, end)) => t.nodes[n as int].start >= start && t.nodes[n as int].end <= end,
        None => true,
    }
}

/// Tells whether a node lies in a range.
fn in_range(t: &Syntax, n: usize, scope: Scope) -> (r: bool)
    requires
        n < t@.nodes.len(),
    ensures
        r == within(t@, n, scope),
{
    match scope {
        Some((start, end)) => t.start(n) >= start && t.end(n) <= end,
        None => true,
    }
}

// ---------------------------------------------------------------------------
// Writes
// ---------------------------------------------------------------------------

/// What one write does to a name's value.
pub enum Written {
    /// An initializer or an assignment replaces what was there.
    Expression(usize),
    /// A literal that a call writes into the name.
    Pattern(String),
    /// A literal that a call appends.
    Appended(String),
}

/// The mathematical reading of what a write does.
pub enum WrittenView {
    Expression(usize),
    Pattern(Seq<char>),
    Appended(Seq<char>),
}

impl View for Written {
    type V = WrittenView;

    open spec fn view(&self) -> WrittenView {
        match self {
            Written::Expression(n) => WrittenView::Expression(*n),
            Written::Pattern(s) => WrittenView::Pattern(s@),
            Written::Appended(s) => WrittenView::Appended(s@),
        }
    }
}

/// One place that gives a name its value.
pub struct Write {
    pub name: String,
    /// The byte that the write sits at.
    pub at: usize,
    pub value: Written,
}

/// The mathematical reading of a write.
pub struct WriteView {
    pub name: Seq<char>,
    pub at: usize,
    pub value: WrittenView,
}

impl View for Write {
    type V = WriteView;

    open spec fn view(&self) -> WriteView {
        WriteView { name: self.name@, at: self.at, value: self.value@ }
    }
}

/// Whether every expression of some writes is a node of the tree.
pub open spec fn writes_ok(t: TreeView, writes: Seq<WriteView>) -> bool {
    forall|i: int|
        0 <= i < writes.len() ==> match (#[trigger] writes[i]).value {
            WrittenView::Expression(n) => n < t.nodes.len(),
            _ => true,
        }
}

/// The writes with one more, behind those that do not sit later.
pub open spec fn with_write(writes: Seq<WriteView>, w: WriteView) -> Seq<WriteView>
    decreases writes.len(),
{
    if writes.len() == 0 || writes.last().at <= w.at {
        writes.push(w)
    } else {
        with_write(writes.drop_last(), w).push(writes.last())
    }
}

/// Adds a write behind those that do not sit later.
#[verifier::loop_isolation(false)]
fn add_write(t: &Syntax, writes: &mut Vec<Write>, w: Write)
    requires
        writes_ok(t@, views(old(writes)@)),
        w.value matches Written::Expression(n) ==> n < t@.nodes.len(),
    ensures
        views(final(writes)@) == with_write(views(old(writes)@), w@),
        writes_ok(t@, views(final(writes)@)),
{
    let ghost all = views(writes@);
    let n: usize = writes.len();
    let mut k: usize = n;
    assert(all.take(n as int) =~= all);
    assert(with_write(all, w@) =~= with_write(all.take(k as int), w@) + all.skip(k as int));
    while k > 0 && writes[k - 1].at > w.at
        invariant
            k <= n == writes@.len(),
            views(writes@) == all,
            with_write(all, w@) == with_write(all.take(k as int), w@) + all.skip(k as int),
        decreases k,
    {
        proof {
            let head = all.take(k as int);
            assert(head.last() == all[k - 1]);
            assert(all[k - 1] == writes@[k - 1]@);
            assert(head.drop_last() =~= all.take(k - 1));
            assert(all.skip(k - 1) =~= seq![all[k - 1]] + all.skip(k as int));
            assert(with_write(head, w@) + all.skip(k as int) =~= with_write(all.take(k - 1), w@) + all.skip(k - 1));
        }
        k -= 1;
    }
    proof {
        let head = all.take(k as int);
        if k > 0 {
            assert(head.last() == all[k - 1]);
            assert(all[k - 1] == writes@[k - 1]@);
        }
        assert(with_write(head, w@) == head.push(w@));
    }
    writes.insert(k, w);
    assert(views(writes@) =~= all.insert(k as int, w@));
    assert(all.insert(k as int, w@) =~= all.take(k as int).push(w@) + all.skip(k as int));
    assert forall|i: int| 0 <= i < views(writes@).len() implies (match (#[trigger] views(writes@)[i]).value {
        WrittenView::Expression(n) => n < t@.nodes.len(),
        _ => true,
    }) by {
        if i < k {
            assert(views(writes@)[i] == all[i]);
        } else if i > k {
            assert(views(writes@)[i] == all[i - 1]);
        }
    }
}

/// The write that a binding performs.
pub open spec fn binding_write(t: TreeView, hit: Seq<Capture>) -> Option<WriteView> {
    match (captured(t, hit, NAME), captured(t, hit, VALUE)) {
        (Some(name), Some(value)) => Some(
            WriteView {
                name: target_name(t, name),
                at: t.nodes[name as int].start,
                value: WrittenView::Expression(value),
            },
        ),
        _ => None,
    }
}

/// The first string literal from `i` on among some arguments.
pub open spec fn literal_from(t: TreeView, args: Seq<usize>, i: int) -> Option<Seq<char>>
    decreases args.len() - i,
{
    if i < 0 || i >= args.len() {
        None
    } else {
        match string_value(t, args[i]) {
            Some(s) => Some(s),
            None => literal_from(t, args, i + 1),
        }
    }
}

/// Whether a callee is a plain name.
pub open spec fn plain_callee(t: TreeView, n: usize) -> bool {
    t.kind(n) == "identifier"@ || t.kind(n) == "qualified_identifier"@
}

/// The name of a buffer that a call writes.
pub open spec fn buffer_name(t: TreeView, n: usize) -> Seq<char> {
    if t.kind(n) == "field_expression"@ && t.field(n, "field"@) is Some {
        t.text(t.field(n, "field"@)->0)
    } else {
        t.text(n)
    }
}

/// The write that a call performs on its first argument: a call whose first
/// argument is a name and which carries a string literal writes the literal
/// into the name. The place of the format differs between functions, so that
/// the first literal behind the buffer is taken.
pub open spec fn call_write(t: TreeView, hit: Seq<Capture>) -> Option<WriteView> {
    match (captured(t, hit, FN), captured(t, hit, ARGS)) {
        (Some(function), Some(args_node)) => {
            let args = t.named_kids(args_node);
            if !plain_callee(t, function) || args.len() == 0 {
                None
            } else if t.kind(args[0]) != "identifier"@ && t.kind(args[0]) != "field_expression"@ {
                None
            } else {
                match literal_from(t, args, 1) {
                    Some(text) => Some(
                        WriteView {
                            name: buffer_name(t, args[0]),
                            at: t.nodes[args[0] as int].start,
                            value: if listed(APPEND_FUNCTIONS@, after_last(t.text(function), "::"@)) {
                                WrittenView::Appended(format_pattern(text))
                            } else {
                                WrittenView::Pattern(format_pattern(text))
                            },
                        },
                    ),
                    None => None,
                }
            }
        },
        _ => None,
    }
}

/// The writes that the first `k` bindings perform.
pub open spec fn binding_writes(t: TreeView, hits: Seq<Seq<Capture>>, k: int) -> Seq<WriteView>
    decreases k,
{
    if k <= 0 || k > hits.len() {
        Seq::empty()
    } else {
        match binding_write(t, hits[k - 1]) {
            Some(w) => with_write(binding_writes(t, hits, k - 1), w),
            None => binding_writes(t, hits, k - 1),
        }
    }
}

/// The writes with those that the first `k` calls perform.
pub open spec fn with_call_writes(t: TreeView, writes: Seq<WriteView>, hits: Seq<Seq<Capture>>, k: int) -> Seq<WriteView>
    decreases k,
{
    if k <= 0 || k > hits.len() {
        writes
    } else {
        match call_write(t, hits[k - 1]) {
            Some(w) => with_write(with_call_writes(t, writes, hits, k - 1), w),
            None => with_call_writes(t, writes, hits, k - 1),
        }
    }
}

/// Every write of a file, in source order; of two at one place, bindings come
/// first.
pub open spec fn writes_in(t: TreeView, bindings: Seq<Seq<Capture>>, calls: Seq<Seq<Capture>>) -> Seq<WriteView> {
    with_call_writes(t, binding_writes(t, bindings, bindings.len() as int), calls, calls.len() as int)
}

/// Writes are kept in source order.
pub open spec fn in_order(writes: Seq<WriteView>) -> bool {
    forall|i: int, j: int| 0 <= i <= j < writes.len() ==> (#[trigger] writes[i]).at <= (#[trigger] writes[j]).at
}

proof fn with_write_keeps_order(writes: Seq<WriteView>, w: WriteView)
    requires
        in_order(writes),
    ensures
        in_order(with_write(writes, w)),
        with_write(writes, w).len() == writes.len() + 1,
        forall|i: int|
            0 <= i < with_write(writes, w).len() ==> (#[trigger] with_write(writes, w)[i]).at <= (if writes.len() > 0
                && writes.last().at > w.at {
                writes.last().at
            } else {
                w.at
            }),
    decreases writes.len(),
{
    if writes.len() > 0 && writes.last().at > w.at {
        let rest = writes.drop_last();
        assert(in_order(rest)) by {
            assert forall|i: int, j: int| 0 <= i <= j < rest.len() implies (#[trigger] rest[i]).at <= (
            #[trigger] rest[j]).at by {
                assert(rest[i] == writes[i] && rest[j] == writes[j]);
            }
        }
        with_write_keeps_order(rest, w);
        let inner = with_write(rest, w);
        let all = inner.push(writes.last());
        assert(rest.len() > 0 ==> rest.last().at <= writes.last().at) by {
            if rest.len() > 0 {
                assert(rest.last() == writes[writes.len() - 2]);
                assert(writes.last() == writes[writes.len() - 1]);
            }
        }
        assert forall|i: int, j: int| 0 <= i <= j < all.len() implies (#[trigger] all[i]).at <= (#[trigger] all[j]).at by {
            if j < inner.len() {
                assert(all[i] == inner[i] && all[j] == inner[j]);
            } else if i < inner.len() {
                assert(all[i] == inner[i]);
            }
        }
    } else {
        let all = writes.push(w);
        assert forall|i: int, j: int| 0 <= i <= j < all.len() implies (#[trigger] all[i]).at <= (#[trigger] all[j]).at by {
            if j < writes.len() {
                assert(all[i] == writes[i] && all[j] == writes[j]);
            } else if i < writes.len() {
                assert(all[i] == writes[i]);
                assert(writes[i].at <= writes[writes.len() - 1].at);
            }
        }
    }
}

proof fn call_writes_keep_order(t: TreeView, writes: Seq<WriteView>, hits: Seq<Seq<Capture>>, k: int)
    requires
        in_order(writes),
    ensures
        in_order(with_call_writes(t, writes, hits, k)),
    decreases k,
{
    if 0 < k <= hits.len() {
        call_writes_keep_order(t, writes, hits, k - 1);
        if let Some(w) = call_write(t, hits[k - 1]) {
            with_write_keeps_order(with_call_writes(t, writes, hits, k - 1), w);
        }
    }
}

proof fn binding_writes_keep_order(t: TreeView, hits: Seq<Seq<Capture>>, k: int)
    ensures
        in_order(binding_writes(t, hits, k)),
    decreases k,
{
    if 0 < k <= hits.len() {
        binding_writes_keep_order(t, hits, k - 1);
        if let Some(w) = binding_write(t, hits[k - 1]) {
            with_write_keeps_order(binding_writes(t, hits, k - 1), w);
        }
    }
}

/// The writes of a file are replayed in source order.
pub proof fn writes_are_in_order(t: TreeView, bindings: Seq<Seq<Capture>>, calls: Seq<Seq<Capture>>)
    ensures
        in_order(writes_in(t, bindings, calls)),
{
    binding_writes_keep_order(t, bindings, bindings.len() as int);
    call_writes_keep_order(t, binding_writes(t, bindings, bindings.len() as int), calls, calls.len() as int);
}

/// The first string literal from `i` on among some arguments.
#[verifier::loop_isolation(false)]
fn first_string(t: &Syntax, args: &Vec<usize>, from: usize) -> (r: Option<String>)
    requires
        t@.wf(),
        forall|i: int| 0 <= i < args@.len() ==> (#[trigger] args@[i]) < t@.nodes.len(),
    ensures
        opt_view(r) == literal_from(t@, args@, from as int),
{
    let n: usize = args.len();
    let mut i: usize = from;
    while i < n
        invariant
            from <= i,
            n == args@.len(),
            literal_from(t@, args@, from as int) == literal_from(t@, args@, i as int),
        decreases n - i,
    {
        let found = as_string(t, args[i]);
        if found.is_some() {
            return found;
        }
        i += 1;
    }
    None
}

/// Every write of a file, in source order.
#[verifier::loop_isolation(false)]
fn record_writes(t: &Syntax, bindings: &Vec<Vec<Capture>>, calls: &Vec<Vec<Capture>>) -> (r: Vec<Write>)
    requires
        t@.wf(),
    ensures
        views(r@) == writes_in(t@, capture_lists(bindings@), capture_lists(calls@)),
        writes_ok(t@, views(r@)),
{
    let ghost bs = capture_lists(bindings@);
    let ghost cs = capture_lists(calls@);
    let mut out: Vec<Write> = Vec::new();
    let mut i: usize = 0;
    assert(views(out@) =~= Seq::<WriteView>::empty());
    while i < bindings.len()
        invariant
            i <= bindings@.len(),
            views(out@) == binding_writes(t@, bs, i as int),
            writes_ok(t@, views(out@)),
        decreases bindings@.len() - i,
    {
        let hit = &bindings[i];
        assert(bs[i as int] == hit@);
        if let (Some(name), Some(value)) = (t.captured(hit, NAME), t.captured(hit, VALUE)) {
            let w = Write { name: bound_name(t, name), at: t.start(name), value: Written::Expression(value) };
            add_write(t, &mut out, w);
        }
        i += 1;
    }
    let ghost bound = views(out@);
    let mut k: usize = 0;
    while k < calls.len()
        invariant
            k <= calls@.len(),
            views(out@) == with_call_writes(t@, bound, cs, k as int),
            writes_ok(t@, views(out@)),
        decreases calls@.len() - k,
    {
        let hit = &calls[k];
        assert(cs[k as int] == hit@);
        if let Some(w) = write_of_call(t, hit) {
            add_write(t, &mut out, w);
        }
        k += 1;
    }
    out
}

/// The write that a call performs on its first argument.
fn write_of_call(t: &Syntax, hit: &Vec<Capture>) -> (r: Option<Write>)
    requires
        t@.wf(),
    ensures
        opt_view(r) == call_write(t@, hit@),
        r is Some ==> !(r->0.value is Expression),
{
    match (t.captured(hit, FN), t.captured(hit, ARGS)) {
        (Some(function), Some(args_node)) => {
            if !t.is(function, "identifier") && !t.is(function, "qualified_identifier") {
                return None;
            }
            let args = t.named_kids(args_node);
            if args.len() == 0 {
                return None;
            }
            let target = args[0];
            assert(t@.below(args_node, target));
            assert forall|i: int| 0 <= i < args@.len() implies (#[trigger] args@[i]) < t@.nodes.len() by {
                assert(t@.below(args_node, args@[i]));
            }
            if !t.is(target, "identifier") && !t.is(target, "field_expression") {
                return None;
            }
            match first_string(t, &args, 1) {
                Some(text) => {
                    let pattern = format_to_pattern(text.as_str());
                    let callee = t.text(function);
                    let last = last_component(callee.as_str());
                    let value = if one_of(last.as_str(), &APPEND_FUNCTIONS) {
                        Written::Appended(pattern)
                    } else {
                        Written::Pattern(pattern)
                    };
                    let mut name = t.text(target);
                    if t.is(target, "field_expression") {
                        if let Some(field) = t.field(target, "field") {
                            name = t.text(field);
                        }
                    }
                    Some(Write { name, at: t.start(target), value })
                },
                None => None,
            }
        },
        _ => None,
    }
}

// ---------------------------------------------------------------------------
// URLs
// ---------------------------------------------------------------------------

/// The text, or a placeholder where there is none.
pub open spec fn or_placeholder(s: Option<Seq<char>>) -> Seq<char> {
    match s {
        Some(x) => x,
        None => PLACEHOLDER@,
    }
}

/// The contents of the first `k` of some nodes, with a placeholder for what is
/// no literal.
pub open spec fn pieced(t: TreeView, list: Seq<usize>, k: int) -> Seq<char>
    decreases k,
{
    if k <= 0 || k > list.len() {
        Seq::empty()
    } else if literal_node(t, list[k - 1]) {
        pieced(t, list, k - 1) + literal_content(t, list[k - 1])
    } else {
        pieced(t, list, k - 1) + PLACEHOLDER@
    }
}

/// Whether one of the first `k` of some nodes is a literal.
pub open spec fn some_literal(t: TreeView, list: Seq<usize>, k: int) -> bool
    decreases k,
{
    if k <= 0 || k > list.len() {
        false
    } else {
        literal_node(t, list[k - 1]) || some_literal(t, list, k - 1)
    }
}

/// The receiver of a call that hands back the buffer of a string object.
pub open spec fn accessed(t: TreeView, function: usize) -> Option<usize> {
    if t.kind(function) == "field_expression"@ && t.field(function, "field"@) is Some && listed(
        STRING_ACCESSORS@,
        t.text(t.field(function, "field"@)->0),
    ) {
        t.field(function, "argument"@)
    } else {
        None
    }
}

/// Whether a write counts for a use: it sits before it, and in its function.
pub open spec fn counts(w: WriteView, name: Seq<char>, before: usize, scope: Scope) -> bool {
    &&& w.name == name
    &&& w.at < before
    &&& match scope {
        Some((start, end)) => start <= w.at && w.at < end,
        None => true,
    }
}

/// The pattern that a name holds at a point of the file after the first `k`
/// writes. An assignment replaces, an append adds; writes in another function
/// do not count, because functions of one file build different URLs in buffers
/// of the same name.
pub open spec fn held(
    t: TreeView,
    writes: Seq<WriteView>,
    name: Seq<char>,
    before: usize,
    scope: Scope,
    depth: nat,
    k: nat,
) -> Option<Seq<char>>
    decreases MAX_URL_DEPTH + 4 - depth, k,
{
    if k == 0 || k > writes.len() || depth > MAX_URL_DEPTH + 1 {
        None
    } else {
        let w = writes[k - 1];
        let earlier = held(t, writes, name, before, scope, depth, (k - 1) as nat);
        if !counts(w, name, before, scope) {
            earlier
        } else {
            match w.value {
                WrittenView::Expression(n) => url_of(t, writes, n, w.at, scope, depth + 1),
                WrittenView::Pattern(p) => Some(p),
                WrittenView::Appended(p) => match earlier {
                    Some(e) => Some(e + p),
                    None => Some(p),
                },
            }
        }
    }
}

/// An expression as a pattern; `None` where not even one literal is recovered.
pub open spec fn url_of(
    t: TreeView,
    writes: Seq<WriteView>,
    n: usize,
    before: usize,
    scope: Scope,
    depth: nat,
) -> Option<Seq<char>>
    decreases MAX_URL_DEPTH + 4 - depth, 0nat,
{
    let count = writes.len();
    if depth > MAX_URL_DEPTH {
        None
    } else if literal_node(t, n) {
        Some(literal_content(t, n))
    } else if t.kind(n) == "concatenated_string"@ {
        let kids = t.named_kids(n);
        if some_literal(t, kids, kids.len() as int) {
            Some(pieced(t, kids, kids.len() as int))
        } else {
            None
        }
    } else if t.kind(n) == "binary_expression"@ {
        match (t.field(n, "operator"@), t.field(n, "left"@), t.field(n, "right"@)) {
            (Some(operator), Some(left), Some(right)) => {
                let head = url_of(t, writes, left, before, scope, depth + 1);
                let tail = url_of(t, writes, right, before, scope, depth + 1);
                if trimmed(t.text(operator)) != "+"@ || (head is None && tail is None) {
                    None
                } else {
                    Some(or_placeholder(head) + or_placeholder(tail))
                }
            },
            _ => None,
        }
    } else if t.kind(n) == "parenthesized_expression"@ {
        if t.named_kids(n).len() > 0 {
            url_of(t, writes, t.named_kids(n)[0], before, scope, depth + 1)
        } else {
            None
        }
    } else if t.kind(n) == "identifier"@ {
        held(t, writes, t.text(n), before, scope, depth + 1, count)
    } else if t.kind(n) == "field_expression"@ {
        match t.field(n, "field"@) {
            Some(field) => held(t, writes, t.text(field), before, scope, depth + 1, count),
            None => None,
        }
    } else if t.kind(n) == "call_expression"@ {
        match t.field(n, "function"@) {
            Some(function) => match accessed(t, function) {
                Some(receiver) => url_of(t, writes, receiver, before, scope, depth + 1),
                // A call with one argument hands it through.
                None => match t.field(n, "arguments"@) {
                    Some(args) => if t.named_kids(args).len() == 1 {
                        url_of(t, writes, t.named_kids(args)[0], before, scope, depth + 1)
                    } else {
                        None
                    },
                    None => None,
                },
            },
            None => None,
        }
    } else {
        None
    }
}

/// The pattern that a name holds at a point of the file.
fn value_of(t: &Syntax, writes: &Vec<Write>, name: &str, before: usize, scope: Scope, depth: usize) -> (r: Option<String>)
    requires
        t@.wf(),
        writes_ok(t@, views(writes@)),
        depth <= MAX_URL_DEPTH + 1,
    ensures
        opt_view(r) == held(t@, views(writes@), name@, before, scope, depth as nat, writes@.len()),
    decreases MAX_URL_DEPTH + 4 - depth, 1nat,
{
    let mut current: Option<String> = None;
    let mut k: usize = 0;
    while k < writes.len()
        invariant
            k <= writes@.len(),
            t@.wf(),
            writes_ok(t@, views(writes@)),
            depth <= MAX_URL_DEPTH + 1,
            opt_view(current) == held(t@, views(writes@), name@, before, scope, depth as nat, k as nat),
        decreases writes@.len() - k,
    {
        let w = &writes[k];
        assert(views(writes@)[k as int] == w@);
        let in_scope = match scope {
            Some((start, end)) => start <= w.at && w.at < end,
            None => true,
        };
        if w.at < before && in_scope && same(w.name.as_str(), name) {
            match &w.value {
                Written::Expression(n) => {
                    current = url_expression(t, writes, *n, w.at, scope, depth + 1);
                },
                Written::Pattern(p) => {
                    current = Some(copy(p.as_str()));
                },
                Written::Appended(p) => {
                    current = match current {
                        Some(e) => Some(concat2(e.as_str(), p.as_str())),
                        None => Some(copy(p.as_str())),
                    };
                },
            }
        }
        k += 1;
    }
    current
}

/// The pieces of adjacent literals, with a placeholder for what is none.
#[verifier::loop_isolation(false)]
fn piece_together(t: &Syntax, n: usize) -> (r: Option<String>)
    requires
        t@.wf(),
        n < t@.nodes.len(),
    ensures
        opt_view(r) == (if some_literal(t@, t@.named_kids(n), t@.named_kids(n).len() as int) {
            Some(pieced(t@, t@.named_kids(n), t@.named_kids(n).len() as int))
        } else {
            None
        }),
{
    let kids = t.named_kids(n);
    let mut out = String::new();
    let mut found = false;
    let mut k: usize = 0;
    assert(out@ =~= Seq::<char>::empty());
    while k < kids.len()
        invariant
            k <= kids@.len(),
            found == some_literal(t@, kids@, k as int),
            out@ == pieced(t@, kids@, k as int),
        decreases kids@.len() - k,
    {
        let c = kids[k];
        assert(t@.below(n, c));
        if is_literal(t, c) {
            let text = string_content(t, c);
            out.append(text.as_str());
            found = true;
        } else {
            out.append(PLACEHOLDER);
        }
        k += 1;
    }
    if found {
        Some(out)
    } else {
        None
    }
}

/// An expression as a pattern.
fn url_expression(t: &Syntax, writes: &Vec<Write>, n: usize, before: usize, scope: Scope, depth: usize) -> (r: Option<
    String,
>)
    requires
        t@.wf(),
        writes_ok(t@, views(writes@)),
        n < t@.nodes.len(),
        depth <= MAX_URL_DEPTH + 2,
    ensures
        opt_view(r) == url_of(t@, views(writes@), n, before, scope, depth as nat),
    decreases MAX_URL_DEPTH + 4 - depth, 0nat,
{
    assert(views(writes@).len() == writes@.len());
    if depth > MAX_URL_DEPTH {
        return None;
    }
    if is_literal(t, n) {
        return Some(string_content(t, n));
    }
    if t.is(n, "concatenated_string") {
        return piece_together(t, n);
    }
    if t.is(n, "binary_expression") {
        return match (t.field(n, "operator"), t.field(n, "left"), t.field(n, "right")) {
            (Some(operator), Some(left), Some(right)) => {
                let sign = t.text(operator);
                let bare = trim(sign.as_str());
                if !same(bare.as_str(), "+") {
                    return None;
                }
                let head = url_expression(t, writes, left, before, scope, depth + 1);
                let tail = url_expression(t, writes, right, before, scope, depth + 1);
                if head.is_none() && tail.is_none() {
                    return None;
                }
                let a = match head {
                    Some(x) => x,
                    None => copy(PLACEHOLDER),
                };
                let b = match tail {
                    Some(x) => x,
                    None => copy(PLACEHOLDER),
                };
                Some(concat2(a.as_str(), b.as_str()))
            },
            _ => None,
        };
    }
    if t.is(n, "parenthesized_expression") {
        let kids = t.named_kids(n);
        if kids.len() == 0 {
            return None;
        }
        assert(t@.below(n, kids@[0]));
        return url_expression(t, writes, kids[0], before, scope, depth + 1);
    }
    if t.is(n, "identifier") {
        let name = t.text(n);
        return value_of(t, writes, name.as_str(), before, scope, depth + 1);
    }
    if t.is(n, "field_expression") {
        return match t.field(n, "field") {
            Some(field) => {
                let name = t.text(field);
                value_of(t, writes, name.as_str(), before, scope, depth + 1)
            },
            None => None,
        };
    }
    if !t.is(n, "call_expression") {
        return None;
    }
    match t.field(n, "function") {
        Some(function) => {
            if let Some(receiver) = accessed_receiver(t, function) {
                return url_expression(t, writes, receiver, before, scope, depth + 1);
            }
            match t.field(n, "arguments") {
                Some(args_node) => {
                    let args = t.named_kids(args_node);
                    if args.len() == 1 {
                        assert(t@.below(args_node, args@[0]));
                        url_expression(t, writes, args[0], before, scope, depth + 1)
                    } else {
                        None
                    }
                },
                None => None,
            }
        },
        None => None,
    }
}

/// The receiver of a call that hands back the buffer of a string object.
fn accessed_receiver(t: &Syntax, function: usize) -> (r: Option<usize>)
    requires
        t@.wf(),
        function < t@.nodes.len(),
    ensures
        r == accessed(t@, function),
        r is Some ==> r->0 < t@.nodes.len(),
{
    if !t.is(function, "field_expression") {
        return None;
    }
    match t.field(function, "field") {
        Some(field) => {
            let name = t.text(field);
            if one_of(name.as_str(), &STRING_ACCESSORS) {
                t.field(function, "argument")
            } else {
                None
            }
        },
        None => None,
    }
}

/// A port of an HTTP contract.
pub open spec fn http_port(
    t: TreeView,
    role: Seq<char>,
    verb: Seq<char>,
    path: Seq<char>,
    confidence: u32,
    framework: Seq<char>,
    n: usize,
) -> BoundaryView {
    let norm = normalized(path);
    BoundaryView {
        mechanism: "http"@,
        role,
        key: verb + " "@ + norm,
        line: t.span(n).start_line,
        col: t.span(n).start_col,
        confidence,
        detail: no_detail().push(("method"@, verb)).push(("path"@, norm)).push(("framework"@, framework)),
    }
}

/// A port of an HTTP contract.
fn http_ref(
    t: &Syntax,
    role: &str,
    verb: &str,
    path: &str,
    confidence: u32,
    framework: &str,
    n: usize,
) -> (r: BoundaryRef)
    requires
        n < t@.nodes.len(),
    ensures
        r@ == http_port(t@, role@, verb@, path@, confidence, framework@, n),
{
    let norm = normalize_http_path(path);
    let span = t.span(n);
    BoundaryRef {
        mechanism: copy("http"),
        role: copy(role),
        key: concat3(verb, " ", norm.as_str()),
        line: span.start_line,
        col: span.start_col,
        confidence,
        detail: Detail::new().with("method", verb).with("path", norm.as_str()).with("framework", framework),
    }
}

/// A port of a remote procedure.
pub open spec fn rpc_port(
    t: TreeView,
    role: Seq<char>,
    service: Seq<char>,
    method: Seq<char>,
    confidence: u32,
    n: usize,
) -> BoundaryView {
    BoundaryView {
        mechanism: "grpc"@,
        role,
        key: service + "/"@ + method,
        line: t.span(n).start_line,
        col: t.span(n).start_col,
        confidence,
        detail: no_detail().push(("service"@, service)).push(("method"@, method)),
    }
}

/// A port of a remote procedure.
fn rpc_ref(t: &Syntax, role: &str, service: &str, method: &str, confidence: u32, n: usize) -> (r: BoundaryRef)
    requires
        n < t@.nodes.len(),
    ensures
        r@ == rpc_port(t@, role@, service@, method@, confidence, n),
{
    let span = t.span(n);
    BoundaryRef {
        mechanism: copy("grpc"),
        role: copy(role),
        key: concat3(service, "/", method),
        line: span.start_line,
        col: span.start_col,
        confidence,
        detail: Detail::new().with("service", service).with("method", method),
    }
}

// ---------------------------------------------------------------------------
// libcurl
// ---------------------------------------------------------------------------

/// The verb that an option of libcurl implies. GET is the default, and an
/// option that says so changes nothing.
pub open spec fn implied_verb(option: Seq<char>) -> Option<Seq<char>> {
    if option == "CURLOPT_POST"@ || option == "CURLOPT_POSTFIELDS"@ || option == "CURLOPT_HTTPPOST"@ {
        Some("POST"@)
    } else if option == "CURLOPT_UPLOAD"@ || option == "CURLOPT_PUT"@ {
        Some("PUT"@)
    } else if option == "CURLOPT_NOBODY"@ {
        Some("HEAD"@)
    } else {
        None
    }
}

/// The verb that an option of libcurl implies.
fn verb_of_option(option: &str) -> (r: Option<&'static str>)
    ensures
        match r {
            Some(v) => implied_verb(option@) == Some(v@),
            None => implied_verb(option@) is None,
        },
{
    if same(option, "CURLOPT_POST") || same(option, "CURLOPT_POSTFIELDS") || same(option, "CURLOPT_HTTPPOST") {
        Some("POST")
    } else if same(option, "CURLOPT_UPLOAD") || same(option, "CURLOPT_PUT") {
        Some("PUT")
    } else if same(option, "CURLOPT_NOBODY") {
        Some("HEAD")
    } else {
        None
    }
}

/// A number without the letters that mark it as long.
pub open spec fn without_suffix(s: Seq<char>) -> Seq<char>
    decreases s.len(),
{
    if s.len() > 0 && (s.last() == 'L' || s.last() == 'l') {
        without_suffix(s.drop_last())
    } else {
        s
    }
}

/// Whether a value switches an option off.
fn is_zero(value: &str) -> (r: bool)
    ensures
        r == (without_suffix(value@) == "0"@),
{
    let s = chars_of(value);
    let mut k: usize = s.len();
    assert(s@.take(k as int) =~= s@);
    while k > 0 && (s[k - 1] == 'L' || s[k - 1] == 'l')
        invariant
            k <= s@.len(),
            without_suffix(s@) == without_suffix(s@.take(k as int)),
        decreases k,
    {
        assert(s@.take(k as int).drop_last() =~= s@.take(k - 1));
        k -= 1;
    }
    let bare = string_of(s.as_slice(), 0, k);
    assert(bare@ =~= s@.take(k as int));
    same(bare.as_str(), "0")
}

/// The text of an argument.
pub open spec fn arg_text(t: TreeView, args: Seq<usize>, i: int) -> Option<Seq<char>> {
    if i < args.len() {
        Some(t.text(args[i]))
    } else {
        None
    }
}

/// What the option that one call sets says of the verb.
pub enum VerbHint {
    /// Nothing.
    Silent,
    /// The verb is spelled out.
    Spelled(Seq<char>),
    /// The verb is implied.
    Implied(Seq<char>),
}

/// What one call says of the verb of the requests of a function.
pub open spec fn verb_hint(t: TreeView, hit: Seq<Capture>, scope: Scope) -> VerbHint {
    match captured(t, hit, ARGS) {
        Some(args_node) => {
            let args = t.named_kids(args_node);
            match arg_text(t, args, 1) {
                Some(option) => if !within(t, args_node, scope) {
                    VerbHint::Silent
                } else if option == CURL_CUSTOM_REQUEST@ {
                    if args.len() > 2 && string_value(t, args[2]) is Some && trimmed(
                        string_value(t, args[2])->0,
                    ).len() > 0 {
                        VerbHint::Spelled(uppercase(trimmed(string_value(t, args[2])->0)))
                    } else {
                        VerbHint::Silent
                    }
                } else if implied_verb(option) is Some && !(args.len() > 2 && without_suffix(t.text(args[2])) == "0"@) {
                    VerbHint::Implied(implied_verb(option)->0)
                } else {
                    VerbHint::Silent
                },
                None => VerbHint::Silent,
            }
        },
        None => VerbHint::Silent,
    }
}

/// The verb of a request, given the calls from `i` on and the verb so far. A
/// verb that is spelled out wins; else the last option counts that implies one.
pub open spec fn verb_from(t: TreeView, hits: Seq<Seq<Capture>>, scope: Scope, i: int, verb: Seq<char>) -> Seq<char>
    decreases hits.len() - i,
{
    if i < 0 || i >= hits.len() {
        verb
    } else {
        match verb_hint(t, hits[i], scope) {
            VerbHint::Silent => verb_from(t, hits, scope, i + 1, verb),
            VerbHint::Spelled(v) => v,
            VerbHint::Implied(v) => verb_from(t, hits, scope, i + 1, v),
        }
    }
}

/// The verb of a request that is made in a range.
#[verifier::loop_isolation(false)]
fn curl_verb(t: &Syntax, calls: &Vec<Vec<Capture>>, scope: Scope) -> (r: String)
    requires
        t@.wf(),
    ensures
        r@ == verb_from(t@, capture_lists(calls@), scope, 0, "GET"@),
{
    let ghost cs = capture_lists(calls@);
    let mut verb = copy("GET");
    let mut i: usize = 0;
    while i < calls.len()
        invariant
            i <= calls@.len(),
            verb_from(t@, cs, scope, 0, "GET"@) == verb_from(t@, cs, scope, i as int, verb@),
        decreases calls@.len() - i,
    {
        let hit = &calls[i];
        assert(cs[i as int] == hit@);
        if let Some(args_node) = t.captured(hit, ARGS) {
            let args = t.named_kids(args_node);
            if args.len() > 1 && in_range(t, args_node, scope) {
                assert(t@.below(args_node, args@[1]));
                let option = t.text(args[1]);
                if same(option.as_str(), CURL_CUSTOM_REQUEST) {
                    if args.len() > 2 {
                        assert(t@.below(args_node, args@[2]));
                        if let Some(spelled) = as_string(t, args[2]) {
                            let bare = trim(spelled.as_str());
                            if !bare.as_str().is_empty() {
                                return to_upper(bare.as_str());
                            }
                        }
                    }
                } else if let Some(implied) = verb_of_option(option.as_str()) {
                    let mut disabled = false;
                    if args.len() > 2 {
                        assert(t@.below(args_node, args@[2]));
                        let value = t.text(args[2]);
                        disabled = is_zero(value.as_str());
                    }
                    if !disabled {
                        verb = copy(implied);
                    }
                }
            }
        }
        i += 1;
    }
    verb
}

/// Whether the URL that an argument stands for is worth a key: a literal need
/// only be a path, and what was put together has to say something.
pub open spec fn requestable(t: TreeView, n: usize, url: Seq<char>) -> bool {
    if string_value(t, n) is Some {
        path_like(url)
    } else {
        usable(url)
    }
}

/// The request that one call makes ready.
pub open spec fn curl_request(
    t: TreeView,
    writes: Seq<WriteView>,
    calls: Seq<Seq<Capture>>,
    hit: Seq<Capture>,
) -> Option<BoundaryView> {
    match (captured(t, hit, CALL), captured(t, hit, ARGS)) {
        (Some(call), Some(args_node)) => {
            let args = t.named_kids(args_node);
            if args.len() < 3 || t.text(args[1]) != CURL_URL_OPTION@ {
                None
            } else {
                let scope = scope_of(t, call);
                match url_of(t, writes, args[2], t.nodes[call as int].start, scope, 0) {
                    Some(pattern) => if requestable(t, args[2], pattern) {
                        // A URL that was put together is worth less than a
                        // literal at the call.
                        Some(
                            http_port(
                                t,
                                "client"@,
                                verb_from(t, calls, scope, 0, "GET"@),
                                pattern,
                                if string_value(t, args[2]) is Some {
                                    85
                                } else {
                                    70
                                },
                                "libcurl"@,
                                call,
                            ),
                        )
                    } else {
                        None
                    },
                    None => None,
                }
            }
        },
        _ => None,
    }
}

/// The request that one call makes ready.
fn curl_client(t: &Syntax, writes: &Vec<Write>, calls: &Vec<Vec<Capture>>, hit: &Vec<Capture>) -> (r: Option<BoundaryRef>)
    requires
        t@.wf(),
        writes_ok(t@, views(writes@)),
    ensures
        opt_view(r) == curl_request(t@, views(writes@), capture_lists(calls@), hit@),
{
    match (t.captured(hit, CALL), t.captured(hit, ARGS)) {
        (Some(call), Some(args_node)) => {
            let args = t.named_kids(args_node);
            if args.len() < 3 {
                return None;
            }
            assert(t@.below(args_node, args@[1]));
            assert(t@.below(args_node, args@[2]));
            let option = t.text(args[1]);
            if !same(option.as_str(), CURL_URL_OPTION) {
                return None;
            }
            let scope = scope_at(t, call);
            match url_expression(t, writes, args[2], t.start(call), scope, 0) {
                Some(pattern) => {
                    let literal = as_string(t, args[2]).is_some();
                    let worthy = if literal {
                        is_path(pattern.as_str())
                    } else {
                        usable_path(pattern.as_str())
                    };
                    if !worthy {
                        return None;
                    }
                    let confidence: u32 = if literal {
                        85
                    } else {
                        70
                    };
                    let verb = curl_verb(t, calls, scope);
                    Some(http_ref(t, "client", verb.as_str(), pattern.as_str(), confidence, "libcurl", call))
                },
                None => None,
            }
        },
        _ => None,
    }
}

// ---------------------------------------------------------------------------
// Servers written in C
// ---------------------------------------------------------------------------

/// The kinds of node that read as something callable.
pub const HANDLER_KINDS: [&'static str; 8] = [
    "identifier",
    "qualified_identifier",
    "field_expression",
    "pointer_expression",
    "lambda_expression",
    "call_expression",
    "template_function",
    "template_method",
];

/// The kinds of node that are callable for certain.
pub const CALLABLE_KINDS: [&'static str; 5] = [
    "lambda_expression",
    "pointer_expression",
    "call_expression",
    "template_function",
    "template_method",
];

/// The kinds of node that are data of a request.
pub const DATA_KINDS: [&'static str; 10] = [
    "string_literal",
    "raw_string_literal",
    "concatenated_string",
    "number_literal",
    "char_literal",
    "initializer_list",
    "null",
    "true",
    "false",
    "nullptr",
];

/// The port of a daemon that serves every path. The surface is known and the
/// contract is not.
pub open spec fn daemon_port(t: TreeView, port: Seq<char>, n: usize) -> BoundaryView {
    BoundaryView {
        mechanism: "http"@,
        role: "server"@,
        key: "ANY "@ + WHOLE_SPACE@,
        line: t.span(n).start_line,
        col: t.span(n).start_col,
        confidence: 40,
        detail: no_detail().push(("method"@, "ANY"@)).push(("path"@, WHOLE_SPACE@)).push(
            ("framework"@, "microhttpd"@),
        ).push(("port"@, port)),
    }
}

/// The port number that a daemon is started with, where it is a literal.
pub open spec fn daemon_number(t: TreeView, args: Seq<usize>) -> Seq<char> {
    if args.len() > 1 && t.kind(args[1]) == "number_literal"@ {
        t.text(args[1])
    } else {
        Seq::empty()
    }
}

/// The route or daemon that one call registers through a C library. The name of
/// the function is matched, and then the arguments have to fit.
pub open spec fn c_server(t: TreeView, hit: Seq<Capture>) -> Option<BoundaryView> {
    match (captured(t, hit, FN), captured(t, hit, ARGS)) {
        (Some(function), Some(args_node)) => {
            let args = t.named_kids(args_node);
            let callee = after_last(t.text(function), "::"@);
            if !plain_callee(t, function) {
                None
            } else if callee == CIVETWEB_HANDLER@ {
                if args.len() > 2 && string_value(t, args[1]) is Some && t.kind_among(args[2], HANDLER_KINDS@)
                    && path_like(string_value(t, args[1])->0) {
                    Some(
                        http_port(
                            t,
                            "server"@,
                            "ANY"@,
                            string_value(t, args[1])->0,
                            90,
                            "civetweb"@,
                            function,
                        ),
                    )
                } else {
                    None
                }
            } else if callee == MICROHTTPD_DAEMON@ {
                Some(daemon_port(t, daemon_number(t, args), function))
            } else {
                None
            }
        },
        _ => None,
    }
}

/// The route or daemon that one call registers through a C library.
fn server_in_c(t: &Syntax, hit: &Vec<Capture>) -> (r: Option<BoundaryRef>)
    requires
        t@.wf(),
    ensures
        opt_view(r) == c_server(t@, hit@),
{
    match (t.captured(hit, FN), t.captured(hit, ARGS)) {
        (Some(function), Some(args_node)) => {
            if !t.is(function, "identifier") && !t.is(function, "qualified_identifier") {
                return None;
            }
            let text = t.text(function);
            let callee = last_component(text.as_str());
            let args = t.named_kids(args_node);
            if same(callee.as_str(), CIVETWEB_HANDLER) {
                if args.len() < 3 {
                    return None;
                }
                assert(t@.below(args_node, args@[1]));
                assert(t@.below(args_node, args@[2]));
                return match as_string(t, args[1]) {
                    Some(path) => {
                        if !t.is_among(args[2], &HANDLER_KINDS) || !is_path(path.as_str()) {
                            return None;
                        }
                        Some(http_ref(t, "server", "ANY", path.as_str(), 90, "civetweb", function))
                    },
                    None => None,
                };
            }
            if same(callee.as_str(), MICROHTTPD_DAEMON) {
                let mut port = String::new();
                assert(port@ =~= Seq::<char>::empty());
                if args.len() > 1 {
                    assert(t@.below(args_node, args@[1]));
                    if t.is(args[1], "number_literal") {
                        port = t.text(args[1]);
                    }
                }
                let span = t.span(function);
                return Some(
                    BoundaryRef {
                        mechanism: copy("http"),
                        role: copy("server"),
                        key: concat2("ANY ", WHOLE_SPACE),
                        line: span.start_line,
                        col: span.start_col,
                        confidence: 40,
                        detail: Detail::new().with("method", "ANY").with("path", WHOLE_SPACE).with(
                            "framework",
                            "microhttpd",
                        ).with("port", port.as_str()),
                    },
                );
            }
            None
        },
        _ => None,
    }
}

// ---------------------------------------------------------------------------
// Frameworks of C++
// ---------------------------------------------------------------------------

/// The route or request that a verb called on an object is. A registration
/// takes the path and the handler and nothing else; which side a call is on is
/// read off its arguments and never off the receiver.
pub open spec fn verb_method(t: TreeView, hit: Seq<Capture>) -> Option<BoundaryView> {
    match (captured(t, hit, FN), captured(t, hit, ARGS)) {
        (Some(function), Some(args_node)) => match t.field(function, "field"@) {
            Some(field) => {
                let verb = lowercase(t.text(field));
                let args = t.named_kids(args_node);
                if t.kind(function) != "field_expression"@ || !http_verb(verb) || args.len() == 0 {
                    None
                } else {
                    match string_value(t, args[0]) {
                        Some(path) => if !path_like(path) {
                            None
                        } else if args.len() == 2 && t.kind_among(args[1], CALLABLE_KINDS@) {
                            Some(http_port(t, "server"@, uppercase(verb), path, 100, "cpp-httplib"@, field))
                        } else if args.len() == 2 && !t.kind_among(args[1], DATA_KINDS@) {
                            Some(http_port(t, "server"@, uppercase(verb), path, 75, "cpp-httplib"@, field))
                        } else {
                            Some(http_port(t, "client"@, uppercase(verb), path, 85, "cpp-httplib"@, field))
                        },
                        None => None,
                    }
                }
            },
            None => None,
        },
        _ => None,
    }
}

/// The route or request that a verb called on an object is.
fn method_port(t: &Syntax, hit: &Vec<Capture>) -> (r: Option<BoundaryRef>)
    requires
        t@.wf(),
    ensures
        opt_view(r) == verb_method(t@, hit@),
{
    match (t.captured(hit, FN), t.captured(hit, ARGS)) {
        (Some(function), Some(args_node)) => {
            if !t.is(function, "field_expression") {
                return None;
            }
            match t.field(function, "field") {
                Some(field) => {
                    let text = t.text(field);
                    let verb = to_lower(text.as_str());
                    if !is_http_verb(verb.as_str()) {
                        return None;
                    }
                    let args = t.named_kids(args_node);
                    if args.len() == 0 {
                        return None;
                    }
                    assert(t@.below(args_node, args@[0]));
                    match as_string(t, args[0]) {
                        Some(path) => {
                            if !is_path(path.as_str()) {
                                return None;
                            }
                            let upper = to_upper(verb.as_str());
                            let mut role = "client";
                            let mut confidence: u32 = 85;
                            if args.len() == 2 {
                                assert(t@.below(args_node, args@[1]));
                                if t.is_among(args[1], &CALLABLE_KINDS) {
                                    role = "server";
                                    confidence = 100;
                                } else if !t.is_among(args[1], &DATA_KINDS) {
                                    role = "server";
                                    confidence = 75;
                                }
                            }
                            Some(http_ref(t, role, upper.as_str(), path.as_str(), confidence, "cpp-httplib", field))
                        },
                        None => None,
                    }
                },
                None => None,
            }
        },
        _ => None,
    }
}

/// The text of one verb in a list of methods: a literal with a suffix, a
/// literal, or the name of a constant.
pub open spec fn method_text(t: TreeView, n: usize) -> Option<Seq<char>> {
    if t.kind(n) == "user_defined_literal"@ {
        match t.kid_of(n, "string_literal"@) {
            Some(c) => Some(literal_content(t, c)),
            None => None,
        }
    } else if t.kind(n) == "string_literal"@ {
        Some(literal_content(t, n))
    } else if plain_callee(t, n) {
        Some(after_last(t.text(n), "::"@))
    } else {
        None
    }
}

/// One verb in a list of methods.
pub open spec fn crow_verb(t: TreeView, n: usize) -> Option<Seq<char>> {
    match method_text(t, n) {
        Some(text) => {
            let verb = lowercase(trimmed(text));
            if http_verb(verb) {
                Some(uppercase(verb))
            } else {
                None
            }
        },
        None => None,
    }
}

/// The verbs of the first `k` of some arguments.
pub open spec fn crow_list(t: TreeView, args: Seq<usize>, k: int) -> Seq<Seq<char>>
    decreases k,
{
    if k <= 0 || k > args.len() {
        Seq::empty()
    } else {
        match crow_verb(t, args[k - 1]) {
            Some(v) => crow_list(t, args, k - 1).push(v),
            None => crow_list(t, args, k - 1),
        }
    }
}

/// The verbs that a list of methods on a node names.
pub open spec fn chained_verbs(t: TreeView, parent: usize) -> Seq<Seq<char>> {
    if t.kind(parent) == "field_expression"@ && t.field(parent, "field"@) is Some && t.text(
        t.field(parent, "field"@)->0,
    ) == "methods"@ && t.parent(parent) is Some {
        match t.field(t.parent(parent)->0, "arguments"@) {
            Some(args) => crow_list(t, t.named_kids(args), t.named_kids(args).len() as int),
            None => Seq::empty(),
        }
    } else {
        Seq::empty()
    }
}

/// The verbs that a route is chained with, found by climbing `n` steps out of
/// the macro. A route without a list answers GET.
pub open spec fn climbed_verbs(t: TreeView, current: usize, n: nat) -> Seq<Seq<char>>
    decreases n,
{
    match t.parent(current) {
        Some(parent) => if n == 0 {
            seq!["GET"@]
        } else if chained_verbs(t, parent).len() > 0 {
            chained_verbs(t, parent)
        } else {
            climbed_verbs(t, parent, (n - 1) as nat)
        },
        None => seq!["GET"@],
    }
}

/// One verb in a list of methods.
fn verb_of_crow(t: &Syntax, n: usize) -> (r: Option<String>)
    requires
        t@.wf(),
        n < t@.nodes.len(),
    ensures
        opt_view(r) == crow_verb(t@, n),
{
    let text = if t.is(n, "user_defined_literal") {
        match t.kid_of(n, "string_literal") {
            Some(c) => string_content(t, c),
            None => {
                return None;
            },
        }
    } else if t.is(n, "string_literal") {
        string_content(t, n)
    } else if t.is(n, "identifier") || t.is(n, "qualified_identifier") {
        let name = t.text(n);
        last_component(name.as_str())
    } else {
        return None;
    };
    let bare = trim(text.as_str());
    let verb = to_lower(bare.as_str());
    if is_http_verb(verb.as_str()) {
        Some(to_upper(verb.as_str()))
    } else {
        None
    }
}

/// The verbs that a list of methods on a node names.
#[verifier::loop_isolation(false)]
fn verbs_on(t: &Syntax, parent: usize) -> (r: Vec<String>)
    requires
        t@.wf(),
        parent < t@.nodes.len(),
    ensures
        views(r@) == chained_verbs(t@, parent),
{
    let mut out: Vec<String> = Vec::new();
    assert(views(out@) =~= Seq::<Seq<char>>::empty());
    if !t.is(parent, "field_expression") {
        return out;
    }
    if let Some(field) = t.field(parent, "field") {
        let name = t.text(field);
        if same(name.as_str(), "methods") {
            if let Some(chained) = t.parent(parent) {
                if let Some(args_node) = t.field(chained, "arguments") {
                    let args = t.named_kids(args_node);
                    let mut k: usize = 0;
                    while k < args.len()
                        invariant
                            k <= args@.len(),
                            views(out@) == crow_list(t@, args@, k as int),
                        decreases args@.len() - k,
                    {
                        assert(t@.below(args_node, args@[k as int]));
                        if let Some(v) = verb_of_crow(t, args[k]) {
                            add_item(&mut out, v);
                        }
                        k += 1;
                    }
                }
            }
        }
    }
    out
}

/// The verbs that a route is chained with.
fn crow_verbs(t: &Syntax, call: usize, n: usize) -> (r: Vec<String>)
    requires
        t@.wf(),
        call < t@.nodes.len(),
    ensures
        views(r@) == climbed_verbs(t@, call, n as nat),
    decreases n,
{
    let mut plain: Vec<String> = Vec::new();
    plain.push(copy("GET"));
    assert(views(plain@) =~= seq!["GET"@]);
    match t.parent(call) {
        Some(parent) => {
            if n == 0 {
                return plain;
            }
            let verbs = verbs_on(t, parent);
            assert(views(verbs@).len() == verbs@.len());
            if verbs.len() > 0 {
                return verbs;
            }
            crow_verbs(t, parent, n - 1)
        },
        None => plain,
    }
}

/// The ports of a route, one for each of its first `k` verbs.
pub open spec fn verb_ports(
    t: TreeView,
    verbs: Seq<Seq<char>>,
    path: Seq<char>,
    confidence: u32,
    framework: Seq<char>,
    n: usize,
    k: int,
) -> Seq<BoundaryView>
    decreases k,
{
    if k <= 0 || k > verbs.len() {
        Seq::empty()
    } else {
        verb_ports(t, verbs, path, confidence, framework, n, k - 1).push(
            http_port(t, "server"@, verbs[k - 1], path, confidence, framework, n),
        )
    }
}

/// Adds the ports of a route, one for each verb.
#[verifier::loop_isolation(false)]
fn add_verb_ports(
    t: &Syntax,
    verbs: &Vec<String>,
    path: &str,
    confidence: u32,
    framework: &str,
    n: usize,
    out: &mut Vec<BoundaryRef>,
)
    requires
        n < t@.nodes.len(),
    ensures
        views(final(out)@) == views(old(out)@) + verb_ports(
            t@,
            views(verbs@),
            path@,
            confidence,
            framework@,
            n,
            verbs@.len() as int,
        ),
{
    let ghost start = views(out@);
    let ghost vs = views(verbs@);
    let mut k: usize = 0;
    assert(start + Seq::<BoundaryView>::empty() =~= start);
    while k < verbs.len()
        invariant
            k <= verbs@.len(),
            views(out@) == start + verb_ports(t@, vs, path@, confidence, framework@, n, k as int),
        decreases verbs@.len() - k,
    {
        assert(vs[k as int] == verbs@[k as int]@);
        add_item(out, http_ref(t, "server", verbs[k].as_str(), path, confidence, framework, n));
        assert(views(out@) =~= start + verb_ports(t@, vs, path@, confidence, framework@, n, k + 1));
        k += 1;
    }
}

/// The routes that one call of Crow's macro registers.
pub open spec fn crow_route(t: TreeView, hit: Seq<Capture>) -> Seq<BoundaryView> {
    match (captured(t, hit, CALL), captured(t, hit, FN), captured(t, hit, ARGS)) {
        (Some(call), Some(function), Some(args_node)) => {
            let args = t.named_kids(args_node);
            let verbs = climbed_verbs(t, call, MAX_CHAIN_CLIMB as nat);
            if t.kind(function) != "identifier"@ || t.text(function) != CROW_ROUTE@ || args.len() < 2 {
                Seq::empty()
            } else {
                match string_value(t, args[1]) {
                    Some(path) => if path_like(path) {
                        verb_ports(t, verbs, path, 100, "crow"@, function, verbs.len() as int)
                    } else {
                        Seq::empty()
                    },
                    None => Seq::empty(),
                }
            }
        },
        _ => Seq::empty(),
    }
}

/// Adds the routes that one call of Crow's macro registers.
fn add_crow_route(t: &Syntax, hit: &Vec<Capture>, out: &mut Vec<BoundaryRef>)
    requires
        t@.wf(),
    ensures
        views(final(out)@) == views(old(out)@) + crow_route(t@, hit@),
{
    let ghost start = views(out@);
    assert(start + Seq::<BoundaryView>::empty() =~= start);
    if let (Some(call), Some(function), Some(args_node)) = (
        t.captured(hit, CALL),
        t.captured(hit, FN),
        t.captured(hit, ARGS),
    ) {
        if !t.is(function, "identifier") {
            return;
        }
        let name = t.text(function);
        if !same(name.as_str(), CROW_ROUTE) {
            return;
        }
        let args = t.named_kids(args_node);
        if args.len() < 2 {
            return;
        }
        assert(t@.below(args_node, args@[1]));
        if let Some(path) = as_string(t, args[1]) {
            if is_path(path.as_str()) {
                let verbs = crow_verbs(t, call, MAX_CHAIN_CLIMB);
                assert(views(verbs@).len() == verbs@.len());
                add_verb_ports(t, &verbs, path.as_str(), 100, "crow", function, out);
            }
        }
    }
}

/// The list with a word in upper case behind it, where it is a verb.
pub open spec fn with_verb(verbs: Seq<Seq<char>>, word: Seq<char>) -> Seq<Seq<char>> {
    if http_verb(lowercase(word)) {
        verbs.push(uppercase(word))
    } else {
        verbs
    }
}

/// The verbs among the words of a text from position `i` on, given those so far
/// and the word that is being read.
pub open spec fn verbs_from(s: Seq<char>, i: int, verbs: Seq<Seq<char>>, word: Seq<char>) -> Seq<Seq<char>>
    decreases s.len() - i,
{
    if i < 0 || i >= s.len() {
        with_verb(verbs, word)
    } else if is_ascii_alnum(s[i]) {
        verbs_from(s, i + 1, verbs, word.push(s[i]))
    } else {
        verbs_from(s, i + 1, with_verb(verbs, word), Seq::empty())
    }
}

/// The verbs that a route macro names; every verb where it names none.
pub open spec fn named_verbs(rest: Seq<char>) -> Seq<Seq<char>> {
    let verbs = verbs_from(rest, 0, Seq::empty(), Seq::empty());
    if verbs.len() == 0 {
        seq!["ANY"@]
    } else {
        verbs
    }
}

/// Adds a word in upper case, where it is a verb, and empties it.
fn take_verb(verbs: &mut Vec<String>, word: &mut Vec<char>)
    ensures
        views(final(verbs)@) == with_verb(views(old(verbs)@), old(word)@),
        final(word)@ == Seq::<char>::empty(),
{
    let text = string_of_all(word.as_slice());
    let lower = to_lower(text.as_str());
    if is_http_verb(lower.as_str()) {
        add_item(verbs, to_upper(text.as_str()));
    }
    word.clear();
}

/// The verbs that a route macro names.
#[verifier::loop_isolation(false)]
fn verbs_named(rest: &str) -> (r: Vec<String>)
    ensures
        views(r@) == named_verbs(rest@),
{
    let s = chars_of(rest);
    let n: usize = s.len();
    let mut verbs: Vec<String> = Vec::new();
    let mut word: Vec<char> = Vec::new();
    let mut i: usize = 0;
    assert(views(verbs@) =~= Seq::<Seq<char>>::empty());
    assert(word@ =~= Seq::<char>::empty());
    while i < n
        invariant
            i <= n == s@.len(),
            verbs_from(s@, 0, Seq::empty(), Seq::empty()) == verbs_from(s@, i as int, views(verbs@), word@),
        decreases n - i,
    {
        if ascii_alnum(s[i]) {
            word.push(s[i]);
        } else {
            take_verb(&mut verbs, &mut word);
        }
        i += 1;
    }
    take_verb(&mut verbs, &mut word);
    assert(views(verbs@).len() == verbs@.len());
    if verbs.len() == 0 {
        verbs.push(copy("ANY"));
        assert(views(verbs@) =~= seq!["ANY"@]);
    }
    verbs
}

/// The routes that one of Drogon's macros registers. The macro stands where no
/// grammar of C++ takes it, so its arguments are read from the text: the first
/// quoted run is the path, and the words behind it are the verbs.
pub open spec fn drogon_route(t: TreeView, hit: Seq<Capture>) -> Seq<BoundaryView> {
    match (captured(t, hit, NAME), captured(t, hit, PARAMS)) {
        (Some(name), Some(params)) => if listed(DROGON_ADD_METHOD@, t.text(name)) {
            match first_quoted(t.text(params)) {
                Some(x) => if path_like(x.0) {
                    verb_ports(t, named_verbs(x.1), x.0, 90, "drogon"@, name, named_verbs(x.1).len() as int)
                } else {
                    Seq::empty()
                },
                None => Seq::empty(),
            }
        } else {
            Seq::empty()
        },
        _ => Seq::empty(),
    }
}

/// Adds the routes that one of Drogon's macros registers.
fn add_drogon_route(t: &Syntax, hit: &Vec<Capture>, out: &mut Vec<BoundaryRef>)
    requires
        t@.wf(),
    ensures
        views(final(out)@) == views(old(out)@) + drogon_route(t@, hit@),
{
    let ghost start = views(out@);
    assert(start + Seq::<BoundaryView>::empty() =~= start);
    if let (Some(name), Some(params)) = (t.captured(hit, NAME), t.captured(hit, PARAMS)) {
        let macro_name = t.text(name);
        if !one_of(macro_name.as_str(), &DROGON_ADD_METHOD) {
            return;
        }
        let text = t.text(params);
        if let Some((path, rest)) = split_first_quoted(text.as_str()) {
            if is_path(path.as_str()) {
                let verbs = verbs_named(rest.as_str());
                assert(views(verbs@).len() == verbs@.len());
                add_verb_ports(t, &verbs, path.as_str(), 90, "drogon", name, out);
            }
        }
    }
}

// ---------------------------------------------------------------------------
// gRPC
// ---------------------------------------------------------------------------

/// A qualified name without blanks, in its components.
pub open spec fn name_parts(text: Seq<char>) -> Seq<Seq<char>> {
    parts_by(without_spaces(text, text.len() as int), "::"@)
}

/// A qualified name without blanks, in its components.
fn split_name(text: &str) -> (r: Vec<String>)
    ensures
        views(r@) == name_parts(text@),
{
    let bare = drop_spaces(text);
    proof {
        reveal_strlit("::");
    }
    split_by(bare.as_str(), "::")
}

/// The service that a generated base class belongs to: the component before the
/// generated suffix.
pub open spec fn base_service(t: TreeView, n: usize) -> Option<Seq<char>> {
    let parts = name_parts(t.text(n));
    let k = parts.len();
    if k >= 2 && listed(GRPC_SERVICE_BASES@, parts[k - 1]) && parts[k - 2].len() > 0 {
        Some(parts[k - 2])
    } else {
        None
    }
}

/// The service that a generated base class belongs to.
fn service_of_base(t: &Syntax, n: usize) -> (r: Option<String>)
    requires
        t@.wf(),
        n < t@.nodes.len(),
    ensures
        opt_view(r) == base_service(t@, n),
{
    let text = t.text(n);
    let parts = split_name(text.as_str());
    let ghost ps = name_parts(text@);
    let k: usize = parts.len();
    assert(ps.len() == k);
    if k < 2 {
        return None;
    }
    assert(ps[k - 1] == parts@[k - 1]@ && ps[k - 2] == parts@[k - 2]@);
    if one_of(parts[k - 1].as_str(), &GRPC_SERVICE_BASES) && !parts[k - 2].as_str().is_empty() {
        Some(copy(parts[k - 2].as_str()))
    } else {
        None
    }
}

/// The service of the first base from `i` on that is generated for one.
pub open spec fn service_from(t: TreeView, bases: Seq<usize>, i: int) -> Option<Seq<char>>
    decreases bases.len() - i,
{
    if i < 0 || i >= bases.len() {
        None
    } else {
        match base_service(t, bases[i]) {
            Some(s) => Some(s),
            None => service_from(t, bases, i + 1),
        }
    }
}

/// The service of the first base that is generated for one.
#[verifier::loop_isolation(false)]
fn service_of_bases(t: &Syntax, bases: &Vec<usize>) -> (r: Option<String>)
    requires
        t@.wf(),
        forall|i: int| 0 <= i < bases@.len() ==> (#[trigger] bases@[i]) < t@.nodes.len(),
    ensures
        opt_view(r) == service_from(t@, bases@, 0),
{
    let mut i: usize = 0;
    while i < bases.len()
        invariant
            i <= bases@.len(),
            service_from(t@, bases@, 0) == service_from(t@, bases@, i as int),
        decreases bases@.len() - i,
    {
        let found = service_of_base(t, bases[i]);
        if found.is_some() {
            return found;
        }
        i += 1;
    }
    None
}

/// The name and the parameters of a member that is a function, found down the
/// chain of its declarators within `n` steps.
pub open spec fn signature_from(t: TreeView, current: usize, n: nat) -> Option<(usize, usize)>
    decreases n,
{
    if n == 0 {
        None
    } else if t.kind(current) == "function_declarator"@ {
        match (t.field(current, "declarator"@), t.field(current, "parameters"@)) {
            (Some(name), Some(params)) => Some((name, params)),
            _ => None,
        }
    } else {
        match t.field(current, "declarator"@) {
            Some(inner) => signature_from(t, inner, (n - 1) as nat),
            None => None,
        }
    }
}

/// The name and the parameters of a member that is a function.
pub open spec fn signature(t: TreeView, member: usize) -> Option<(usize, usize)> {
    match t.field(member, "declarator"@) {
        Some(d) => signature_from(t, d, 8),
        None => None,
    }
}

/// The name and the parameters of a member that is a function.
fn signature_in(t: &Syntax, current: usize, n: usize) -> (r: Option<(usize, usize)>)
    requires
        t@.wf(),
        current < t@.nodes.len(),
    ensures
        r == signature_from(t@, current, n as nat),
        r is Some ==> (r->0).0 < t@.nodes.len() && (r->0).1 < t@.nodes.len(),
    decreases n,
{
    if n == 0 {
        return None;
    }
    if t.is(current, "function_declarator") {
        return match (t.field(current, "declarator"), t.field(current, "parameters")) {
            (Some(name), Some(params)) => Some((name, params)),
            _ => None,
        };
    }
    match t.field(current, "declarator") {
        Some(inner) => signature_in(t, inner, n - 1),
        None => None,
    }
}

/// Whether a function declarator marks an override.
pub open spec fn overrides(t: TreeView, name: usize) -> bool {
    let holder = match t.parent(name) {
        Some(p) => p,
        None => name,
    };
    t.kid_of(holder, "virtual_specifier"@) is Some
}

/// The remote procedure that a member of a service handles: it takes the
/// context of the server, or overrides something.
pub open spec fn handled_rpc(t: TreeView, service: Seq<char>, member: usize) -> Option<BoundaryView> {
    if t.kind(member) != "field_declaration"@ && t.kind(member) != "function_definition"@ {
        None
    } else {
        match signature(t, member) {
            Some(s) => if overrides(t, s.0) || has(t.text(s.1), GRPC_SERVER_CONTEXT@) {
                Some(rpc_port(t, "server"@, service, t.text(s.0), 80, s.0))
            } else {
                None
            },
            None => None,
        }
    }
}

/// The remote procedures that the first `k` members of a service handle.
pub open spec fn handled_rpcs(t: TreeView, service: Seq<char>, members: Seq<usize>, k: int) -> Seq<BoundaryView>
    decreases k,
{
    if k <= 0 || k > members.len() {
        Seq::empty()
    } else {
        match handled_rpc(t, service, members[k - 1]) {
            Some(p) => handled_rpcs(t, service, members, k - 1).push(p),
            None => handled_rpcs(t, service, members, k - 1),
        }
    }
}

/// The remote procedures that a class handles.
pub open spec fn service_class(t: TreeView, hit: Seq<Capture>) -> Seq<BoundaryView> {
    match (captured(t, hit, BASES), captured(t, hit, BODY)) {
        (Some(bases), Some(body)) => match service_from(t, t.named_kids(bases), 0) {
            Some(service) => handled_rpcs(t, service, t.named_kids(body), t.named_kids(body).len() as int),
            None => Seq::empty(),
        },
        _ => Seq::empty(),
    }
}

/// The remote procedure that a member of a service handles.
fn rpc_of_member(t: &Syntax, service: &str, member: usize) -> (r: Option<BoundaryRef>)
    requires
        t@.wf(),
        member < t@.nodes.len(),
    ensures
        opt_view(r) == handled_rpc(t@, service@, member),
{
    if !t.is(member, "field_declaration") && !t.is(member, "function_definition") {
        return None;
    }
    match t.field(member, "declarator") {
        Some(d) => match signature_in(t, d, 8) {
            Some((name, params)) => {
                let holder = match t.parent(name) {
                    Some(p) => p,
                    None => name,
                };
                let marked = t.kid_of(holder, "virtual_specifier").is_some();
                let taken = t.text(params);
                if !marked && !contains(taken.as_str(), GRPC_SERVER_CONTEXT) {
                    return None;
                }
                let method = t.text(name);
                Some(rpc_ref(t, "server", service, method.as_str(), 80, name))
            },
            None => None,
        },
        None => None,
    }
}

/// Adds the remote procedures that a class handles.
#[verifier::loop_isolation(false)]
fn add_service_class(t: &Syntax, hit: &Vec<Capture>, out: &mut Vec<BoundaryRef>)
    requires
        t@.wf(),
    ensures
        views(final(out)@) == views(old(out)@) + service_class(t@, hit@),
{
    let ghost start = views(out@);
    assert(start + Seq::<BoundaryView>::empty() =~= start);
    if let (Some(bases), Some(body)) = (t.captured(hit, BASES), t.captured(hit, BODY)) {
        let list = t.named_kids(bases);
        assert forall|i: int| 0 <= i < list@.len() implies (#[trigger] list@[i]) < t@.nodes.len() by {
            assert(t@.below(bases, list@[i]));
        }
        if let Some(service) = service_of_bases(t, &list) {
            let members = t.named_kids(body);
            let mut k: usize = 0;
            while k < members.len()
                invariant
                    k <= members@.len(),
                    views(out@) == start + handled_rpcs(t@, service@, members@, k as int),
                decreases members@.len() - k,
            {
                assert(t@.below(body, members@[k as int]));
                if let Some(p) = rpc_of_member(t, service.as_str(), members[k]) {
                    add_item(out, p);
                    assert(views(out@) =~= start + handled_rpcs(t@, service@, members@, k + 1));
                }
                k += 1;
            }
        }
    }
}

/// The service of a call that makes a stub.
pub open spec fn stub_call(t: TreeView, n: usize) -> Option<Seq<char>> {
    match t.field(n, "function"@) {
        Some(function) => {
            let parts = name_parts(t.text(function));
            let k = parts.len();
            if t.kind(n) == "call_expression"@ && t.kind(function) == "qualified_identifier"@ && k >= 2 && parts[k - 1]
                == GRPC_NEW_STUB@ && parts[k - 2].len() > 0 {
                Some(parts[k - 2])
            } else {
                None
            }
        },
        None => None,
    }
}

/// The service of the first of some nodes from `i` on that makes a stub.
pub open spec fn stub_from(t: TreeView, list: Seq<usize>, i: int) -> Option<Seq<char>>
    decreases list.len() - i,
{
    if i < 0 || i >= list.len() {
        None
    } else {
        match stub_call(t, list[i]) {
            Some(s) => Some(s),
            None => stub_from(t, list, i + 1),
        }
    }
}

/// The service of a call that makes a stub.
fn service_of_stub_call(t: &Syntax, n: usize) -> (r: Option<String>)
    requires
        t@.wf(),
        n < t@.nodes.len(),
    ensures
        opt_view(r) == stub_call(t@, n),
{
    match t.field(n, "function") {
        Some(function) => {
            if !t.is(n, "call_expression") || !t.is(function, "qualified_identifier") {
                return None;
            }
            let text = t.text(function);
            let parts = split_name(text.as_str());
            let ghost ps = name_parts(text@);
            let k: usize = parts.len();
            assert(ps.len() == k);
            if k < 2 {
                return None;
            }
            assert(ps[k - 1] == parts@[k - 1]@ && ps[k - 2] == parts@[k - 2]@);
            if same(parts[k - 1].as_str(), GRPC_NEW_STUB) && !parts[k - 2].as_str().is_empty() {
                Some(copy(parts[k - 2].as_str()))
            } else {
                None
            }
        },
        None => None,
    }
}

/// The service of the first call in a value that makes a stub.
#[verifier::loop_isolation(false)]
fn service_of_stub(t: &Syntax, value: usize) -> (r: Option<String>)
    requires
        t@.wf(),
        value < t@.nodes.len(),
    ensures
        opt_view(r) == stub_from(t@, descend(t@, value), 0),
{
    let list = descendants(t, value);
    let mut i: usize = 0;
    while i < list.len()
        invariant
            i <= list@.len(),
            stub_from(t@, list@, 0) == stub_from(t@, list@, i as int),
        decreases list@.len() - i,
    {
        let found = service_of_stub_call(t, list[i]);
        if found.is_some() {
            return found;
        }
        i += 1;
    }
    None
}

/// The stub that a binding makes: the variable and the service.
pub open spec fn stub_of(t: TreeView, hit: Seq<Capture>) -> Option<(Seq<char>, Seq<char>)> {
    match (captured(t, hit, NAME), captured(t, hit, VALUE)) {
        (Some(name), Some(value)) => match stub_from(t, descend(t, value), 0) {
            Some(service) => Some((target_name(t, name), service)),
            None => None,
        },
        _ => None,
    }
}

/// The stubs that the first `k` bindings make, in source order.
pub open spec fn stubs_of(t: TreeView, hits: Seq<Seq<Capture>>, k: int) -> Seq<(Seq<char>, Seq<char>)>
    decreases k,
{
    if k <= 0 || k > hits.len() {
        Seq::empty()
    } else {
        match stub_of(t, hits[k - 1]) {
            Some(s) => stubs_of(t, hits, k - 1).push(s),
            None => stubs_of(t, hits, k - 1),
        }
    }
}

/// The service of a variable among the first `k` stubs: the last one wins.
pub open spec fn stub_service(stubs: Seq<(Seq<char>, Seq<char>)>, name: Seq<char>, k: int) -> Option<Seq<char>>
    decreases k,
{
    if k <= 0 || k > stubs.len() {
        None
    } else if stubs[k - 1].0 == name {
        Some(stubs[k - 1].1)
    } else {
        stub_service(stubs, name, k - 1)
    }
}

/// A stub: the variable and the service.
struct Stub {
    name: String,
    service: String,
}

impl View for Stub {
    type V = (Seq<char>, Seq<char>);

    closed spec fn view(&self) -> (Seq<char>, Seq<char>) {
        (self.name@, self.service@)
    }
}

/// The service of a receiver, by its whole text or by its own name.
pub open spec fn receiver_service(stubs: Seq<(Seq<char>, Seq<char>)>, receiver: Seq<char>) -> Option<Seq<char>> {
    match stub_service(stubs, receiver, stubs.len() as int) {
        Some(s) => Some(s),
        None => stub_service(stubs, receiver_name(receiver), stubs.len() as int),
    }
}

/// The remote procedure that is called on a stub.
pub open spec fn called_rpc(t: TreeView, stubs: Seq<(Seq<char>, Seq<char>)>, hit: Seq<Capture>) -> Option<BoundaryView> {
    match captured(t, hit, FN) {
        Some(function) => match (t.field(function, "argument"@), t.field(function, "field"@)) {
            (Some(receiver), Some(field)) => match receiver_service(stubs, t.text(receiver)) {
                Some(service) => if t.kind(function) == "field_expression"@ {
                    Some(rpc_port(t, "client"@, service, t.text(field), 85, field))
                } else {
                    None
                },
                None => None,
            },
            _ => None,
        },
        None => None,
    }
}

/// The stubs that bindings make.
#[verifier::loop_isolation(false)]
fn find_stubs(t: &Syntax, bindings: &Vec<Vec<Capture>>) -> (r: Vec<Stub>)
    requires
        t@.wf(),
    ensures
        views(r@) == stubs_of(t@, capture_lists(bindings@), bindings@.len() as int),
{
    let ghost bs = capture_lists(bindings@);
    let mut out: Vec<Stub> = Vec::new();
    let mut i: usize = 0;
    assert(views(out@) =~= Seq::<(Seq<char>, Seq<char>)>::empty());
    while i < bindings.len()
        invariant
            i <= bindings@.len(),
            views(out@) == stubs_of(t@, bs, i as int),
        decreases bindings@.len() - i,
    {
        let hit = &bindings[i];
        assert(bs[i as int] == hit@);
        if let (Some(name), Some(value)) = (t.captured(hit, NAME), t.captured(hit, VALUE)) {
            if let Some(service) = service_of_stub(t, value) {
                add_item(&mut out, Stub { name: bound_name(t, name), service });
            }
        }
        i += 1;
    }
    out
}

/// The service of a variable.
#[verifier::loop_isolation(false)]
fn find_stub(stubs: &Vec<Stub>, name: &str) -> (r: Option<String>)
    ensures
        opt_view(r) == stub_service(views(stubs@), name@, stubs@.len() as int),
{
    let ghost ss = views(stubs@);
    let mut k: usize = stubs.len();
    while k > 0
        invariant
            k <= stubs@.len(),
            stub_service(ss, name@, stubs@.len() as int) == stub_service(ss, name@, k as int),
        decreases k,
    {
        assert(ss[k - 1] == stubs@[k - 1]@);
        if same(stubs[k - 1].name.as_str(), name) {
            return Some(copy(stubs[k - 1].service.as_str()));
        }
        k -= 1;
    }
    None
}

/// The remote procedure that is called on a stub.
fn rpc_of_call(t: &Syntax, stubs: &Vec<Stub>, hit: &Vec<Capture>) -> (r: Option<BoundaryRef>)
    requires
        t@.wf(),
    ensures
        opt_view(r) == called_rpc(t@, views(stubs@), hit@),
{
    assert(views(stubs@).len() == stubs@.len());
    match t.captured(hit, FN) {
        Some(function) => match (t.field(function, "argument"), t.field(function, "field")) {
            (Some(receiver), Some(field)) => {
                if !t.is(function, "field_expression") {
                    return None;
                }
                let text = t.text(receiver);
                let found = match find_stub(stubs, text.as_str()) {
                    Some(s) => Some(s),
                    None => {
                        let own = receiver_key(text.as_str());
                        find_stub(stubs, own.as_str())
                    },
                };
                match found {
                    Some(service) => {
                        let method = t.text(field);
                        Some(rpc_ref(t, "client", service.as_str(), method.as_str(), 85, field))
                    },
                    None => None,
                }
            },
            _ => None,
        },
        None => None,
    }
}

// ---------------------------------------------------------------------------
// All ports of a file
// ---------------------------------------------------------------------------

/// What an extractor looks for.
#[derive(Clone, Copy, PartialEq, Eq, Structural)]
pub enum Port {
    Curl,
    CServer,
    VerbMethod,
    Crow,
    Drogon,
    ServiceClass,
    StubCall,
}

/// The list of what may be one port.
pub open spec fn at_most(p: Option<BoundaryView>) -> Seq<BoundaryView> {
    match p {
        Some(b) => seq![b],
        None => Seq::empty(),
    }
}

/// What the extractors know of a file beside the match at hand.
pub struct Known {
    pub writes: Seq<WriteView>,
    pub calls: Seq<Seq<Capture>>,
    pub stubs: Seq<(Seq<char>, Seq<char>)>,
}

/// The ports that one match gives.
pub open spec fn ports_of_hit(port: Port, t: TreeView, known: Known, hit: Seq<Capture>) -> Seq<BoundaryView> {
    match port {
        Port::Curl => at_most(curl_request(t, known.writes, known.calls, hit)),
        Port::CServer => at_most(c_server(t, hit)),
        Port::VerbMethod => at_most(verb_method(t, hit)),
        Port::Crow => crow_route(t, hit),
        Port::Drogon => drogon_route(t, hit),
        Port::ServiceClass => service_class(t, hit),
        Port::StubCall => at_most(called_rpc(t, known.stubs, hit)),
    }
}

/// The ports that the first `k` matches give.
pub open spec fn ports_of(port: Port, t: TreeView, known: Known, hits: Seq<Seq<Capture>>, k: int) -> Seq<BoundaryView>
    decreases k,
{
    if k <= 0 || k > hits.len() {
        Seq::empty()
    } else {
        ports_of(port, t, known, hits, k - 1) + ports_of_hit(port, t, known, hits[k - 1])
    }
}

/// The matches of the queries on a file.
pub struct Matches {
    pub calls: Seq<Seq<Capture>>,
    pub bindings: Seq<Seq<Capture>>,
    pub declarators: Seq<Seq<Capture>>,
    pub records: Seq<Seq<Capture>>,
}

/// Every port of a file. libcurl and the server libraries of C are read in both
/// dialects: they are C, and C++ calls them unchanged.
pub open spec fn ports_in(t: TreeView, dialect: Dialect, m: Matches) -> Seq<BoundaryView> {
    let known = Known {
        writes: writes_in(t, m.bindings, m.calls),
        calls: m.calls,
        stubs: stubs_of(t, m.bindings, m.bindings.len() as int),
    };
    let n = m.calls.len() as int;
    let shared = ports_of(Port::Curl, t, known, m.calls, n) + ports_of(Port::CServer, t, known, m.calls, n);
    match dialect {
        Dialect::C => shared,
        Dialect::Cpp => shared + ports_of(Port::VerbMethod, t, known, m.calls, n) + ports_of(
            Port::Crow,
            t,
            known,
            m.calls,
            n,
        ) + ports_of(Port::Drogon, t, known, m.declarators, m.declarators.len() as int) + ports_of(
            Port::ServiceClass,
            t,
            known,
            m.records,
            m.records.len() as int,
        ) + ports_of(Port::StubCall, t, known, m.calls, n),
    }
}

/// Adds a port, where there is one.
fn add_port(out: &mut Vec<BoundaryRef>, p: Option<BoundaryRef>)
    ensures
        views(final(out)@) == views(old(out)@) + at_most(opt_view(p)),
{
    let ghost start = views(out@);
    match p {
        Some(b) => {
            add_item(out, b);
            assert(views(out@) =~= start + seq![b@]);
        },
        None => {
            assert(start + Seq::<BoundaryView>::empty() =~= start);
        },
    }
}

/// Adds the ports that matches give.
#[verifier::loop_isolation(false)]
fn add_ports(
    port: Port,
    t: &Syntax,
    writes: &Vec<Write>,
    calls: &Vec<Vec<Capture>>,
    stubs: &Vec<Stub>,
    hits: &Vec<Vec<Capture>>,
    out: &mut Vec<BoundaryRef>,
)
    requires
        t@.wf(),
        writes_ok(t@, views(writes@)),
    ensures
        views(final(out)@) == views(old(out)@) + ports_of(
            port,
            t@,
            (Known { writes: views(writes@), calls: capture_lists(calls@), stubs: views(stubs@) }),
            capture_lists(hits@),
            hits@.len() as int,
        ),
{
    let ghost known = Known { writes: views(writes@), calls: capture_lists(calls@), stubs: views(stubs@) };
    let ghost hs = capture_lists(hits@);
    let ghost start = views(out@);
    let mut k: usize = 0;
    assert(start + Seq::<BoundaryView>::empty() =~= start);
    while k < hits.len()
        invariant
            k <= hits@.len(),
            views(out@) == start + ports_of(port, t@, known, hs, k as int),
        decreases hits@.len() - k,
    {
        let hit = &hits[k];
        assert(hs[k as int] == hit@);
        let ghost here = views(out@);
        match port {
            Port::Curl => {
                add_port(out, curl_client(t, writes, calls, hit));
            },
            Port::CServer => {
                add_port(out, server_in_c(t, hit));
            },
            Port::VerbMethod => {
                add_port(out, method_port(t, hit));
            },
            Port::Crow => {
                add_crow_route(t, hit, out);
            },
            Port::Drogon => {
                add_drogon_route(t, hit, out);
            },
            Port::ServiceClass => {
                add_service_class(t, hit, out);
            },
            Port::StubCall => {
                add_port(out, rpc_of_call(t, stubs, hit));
            },
        }
        assert(views(out@) == here + ports_of_hit(port, t@, known, hit@));
        assert(views(out@) =~= start + ports_of(port, t@, known, hs, k + 1));
        k += 1;
    }
}

/// Every port of a file, given the matches of the queries.
pub fn extract_boundaries(
    t: &Syntax,
    dialect: Dialect,
    calls: &Vec<Vec<Capture>>,
    bindings: &Vec<Vec<Capture>>,
    declarators: &Vec<Vec<Capture>>,
    records: &Vec<Vec<Capture>>,
) -> (r: Vec<BoundaryRef>)
    requires
        t@.wf(),
    ensures
        views(r@) == ports_in(
            t@,
            dialect,
            (Matches {
                calls: capture_lists(calls@),
                bindings: capture_lists(bindings@),
                declarators: capture_lists(declarators@),
                records: capture_lists(records@),
            }),
        ),
{
    let writes = record_writes(t, bindings, calls);
    let stubs = find_stubs(t, bindings);
    let mut out: Vec<BoundaryRef> = Vec::new();
    assert(views(out@) =~= Seq::<BoundaryView>::empty());
    add_ports(Port::Curl, t, &writes, calls, &stubs, calls, &mut out);
    add_ports(Port::CServer, t, &writes, calls, &stubs, calls, &mut out);
    if dialect == Dialect::Cpp {
        add_ports(Port::VerbMethod, t, &writes, calls, &stubs, calls, &mut out);
        add_ports(Port::Crow, t, &writes, calls, &stubs, calls, &mut out);
        add_ports(Port::Drogon, t, &writes, calls, &stubs, declarators, &mut out);
        add_ports(Port::ServiceClass, t, &writes, calls, &stubs, records, &mut out);
        add_ports(Port::StubCall, t, &writes, calls, &stubs, calls, &mut out);
    }
    proof {
        let m = Matches {
            calls: capture_lists(calls@),
            bindings: capture_lists(bindings@),
            declarators: capture_lists(declarators@),
            records: capture_lists(records@),
        };
        assert(views(out@) =~= ports_in(t@, dialect, m));
    }
    out
}

/// The grammar of a dialect.
pub open spec fn grammar(dialect: Dialect) -> Grammar {
    match dialect {
        Dialect::C => Grammar::C,
        Dialect::Cpp => Grammar::Cpp,
    }
}

/// The grammar of a dialect.
pub fn grammar_of(dialect: Dialect) -> (r: Grammar)
    ensures
        r == grammar(dialect),
{
    match dialect {
        Dialect::C => Grammar::C,
        Dialect::Cpp => Grammar::Cpp,
    }
}

/// The matches of the queries on a source. C has no classes and no macros that
/// register routes, so two of the queries are for C++ alone.
pub open spec fn matches_in(dialect: Dialect, source: Seq<u8>) -> Matches {
    let g = grammar(dialect);
    Matches {
        calls: parsed_hits(g, source, Q_CALL@),
        bindings: parsed_hits(g, source, Q_BINDING@),
        declarators: if dialect == Dialect::Cpp {
            parsed_hits(g, source, Q_DECLARATOR@)
        } else {
            Seq::empty()
        },
        records: if dialect == Dialect::Cpp {
            parsed_hits(g, source, Q_RECORD_BASE@)
        } else {
            Seq::empty()
        },
    }
}

/// Every port of a parsed file.
pub fn parsed_boundaries(p: &Parsed, dialect: Dialect) -> (r: Vec<BoundaryRef>)
    requires
        p.tree().wf(),
    ensures
        views(r@) == ports_in(
            p.tree(),
            dialect,
            (Matches {
                calls: p.hits(Q_CALL@),
                bindings: p.hits(Q_BINDING@),
                declarators: if dialect == Dialect::Cpp {
                    p.hits(Q_DECLARATOR@)
                } else {
                    Seq::empty()
                },
                records: if dialect == Dialect::Cpp {
                    p.hits(Q_RECORD_BASE@)
                } else {
                    Seq::empty()
                },
            }),
        ),
{
    let calls = p.query(Q_CALL);
    let bindings = p.query(Q_BINDING);
    let mut declarators: Vec<Vec<Capture>> = Vec::new();
    let mut records: Vec<Vec<Capture>> = Vec::new();
    assert(capture_lists(declarators@) =~= Seq::<Seq<Capture>>::empty());
    assert(capture_lists(records@) =~= Seq::<Seq<Capture>>::empty());
    if dialect == Dialect::Cpp {
        declarators = p.query(Q_DECLARATOR);
        records = p.query(Q_RECORD_BASE);
    }
    extract_boundaries(p.syntax(), dialect, &calls, &bindings, &declarators, &records)
}

/// Every port of a source; `None` where the parser gives no tree.
fn boundaries_in(source: &[u8], dialect: Dialect) -> (r: Option<Vec<BoundaryRef>>)
    ensures
        match (r, parsed_tree(grammar(dialect), source@)) {
            (Some(v), Some(t)) => views(v@) == ports_in(t, dialect, matches_in(dialect, source@)),
            (None, None) => true,
            _ => false,
        },
{
    match parse(grammar_of(dialect), source) {
        Some(p) => Some(parsed_boundaries(&p, dialect)),
        None => None,
    }
}

/// Every port of a C source; `None` where the parser gives no tree.
pub fn extract_c_boundaries(source: &[u8]) -> (r: Option<Vec<BoundaryRef>>)
    ensures
        match (r, parsed_tree(Grammar::C, source@)) {
            (Some(v), Some(t)) => views(v@) == ports_in(t, Dialect::C, matches_in(Dialect::C, source@)),
            (None, None) => true,
            _ => false,
        },
{
    boundaries_in(source, Dialect::C)
}

/// Every port of a C++ source; `None` where the parser gives no tree.
pub fn extract_cpp_boundaries(source: &[u8]) -> (r: Option<Vec<BoundaryRef>>)
    ensures
        match (r, parsed_tree(Grammar::Cpp, source@)) {
            (Some(v), Some(t)) => views(v@) == ports_in(t, Dialect::Cpp, matches_in(Dialect::Cpp, source@)),
            (None, None) => true,
            _ => false,
        },
{
    boundaries_in(source, Dialect::Cpp)
}

}
