//! What the boundaries of C and C++ sources promise.

use vstd::prelude::*;

use crate::boundaries::{normalized, path_like, BoundaryView};
use crate::cfamily::boundary::{
    at_most, base_service, binding_write, c_server, call_write, called_rpc, chained_verbs, climbed_verbs, content_of,
    counts, crow_route, crow_verb, curl_request, drogon_route, enclosing_fn, first_quoted, format_pattern,
    handled_rpc, held, implied_verb, literal_content, literal_from, name_parts, named_verbs, overrides, pattern_from,
    plain_callee, ports_in, ports_of, ports_of_hit, receiver_name, scope_of, service_class, signature, specifier_end,
    string_value, stub_call, stub_service, stubs_of, url_of, usable, verb_from, verb_hint, verb_method, verb_ports,
    within, writes_in, Known, Matches, Port, Scope, VerbHint, WriteView, WrittenView, ARGS, CALL, CALLABLE_KINDS,
    DATA_KINDS, FN, HANDLER_KINDS, MAX_CHAIN_CLIMB, MAX_URL_DEPTH, NAME, PARAMS, VALUE,
};
use crate::cfamily::Dialect;
use crate::routes::{capital_verb, capital_verbs_hold};
use crate::selection::sum_contains;
use crate::strings::{after_last, has, listed, trimmed};
use crate::text::{lowercase, uppercase};
use crate::tree::{captured, group_tree, Capture, TreeView};

verus! {

broadcast use group_tree;

/// The kinds of node that are told apart differ.
proof fn kinds_differ()
    ensures
        "binary_expression"@.len() == 17,
        "call_expression"@.len() == 15,
        "concatenated_string"@.len() == 19,
        "escape_sequence"@.len() == 15,
        "field_declaration"@.len() == 17,
        "field_expression"@.len() == 16,
        "function_definition"@.len() == 19,
        "identifier"@.len() == 10,
        "parenthesized_expression"@.len() == 24,
        "qualified_identifier"@.len() == 20,
        "raw_string_content"@.len() == 18,
        "raw_string_literal"@.len() == 18,
        "string_content"@.len() == 14,
        "string_literal"@.len() == 14,
        "binary_expression"@ != "field_declaration"@,
        "call_expression"@ != "escape_sequence"@,
        "concatenated_string"@ != "function_definition"@,
        "raw_string_content"@ != "raw_string_literal"@,
        "string_content"@ != "string_literal"@,
{
    reveal_strlit("binary_expression");
    reveal_strlit("call_expression");
    reveal_strlit("concatenated_string");
    reveal_strlit("escape_sequence");
    reveal_strlit("field_declaration");
    reveal_strlit("field_expression");
    reveal_strlit("function_definition");
    reveal_strlit("identifier");
    reveal_strlit("parenthesized_expression");
    reveal_strlit("qualified_identifier");
    reveal_strlit("raw_string_content");
    reveal_strlit("raw_string_literal");
    reveal_strlit("string_content");
    reveal_strlit("string_literal");
    assert("binary_expression"@[0] != "field_declaration"@[0]);
    assert("call_expression"@[0] != "escape_sequence"@[0]);
    assert("concatenated_string"@[0] != "function_definition"@[0]);
    assert("raw_string_content"@[11] != "raw_string_literal"@[11]);
    assert("string_content"@[7] != "string_literal"@[7]);
}

/// The words that are told apart differ.
proof fn words_differ()
    ensures
        "CURLOPT_CUSTOMREQUEST"@.len() == 21,
        "CURLOPT_HTTPPOST"@.len() == 16,
        "CURLOPT_NOBODY"@.len() == 14,
        "CURLOPT_POST"@.len() == 12,
        "CURLOPT_POSTFIELDS"@.len() == 18,
        "CURLOPT_PUT"@.len() == 11,
        "CURLOPT_UPLOAD"@.len() == 14,
        "CURLOPT_URL"@.len() == 11,
        "MHD_start_daemon"@.len() == 16,
        "mg_set_request_handler"@.len() == 22,
        "CURLOPT_HTTPPOST"@ != "MHD_start_daemon"@,
        "CURLOPT_NOBODY"@ != "CURLOPT_UPLOAD"@,
        "CURLOPT_PUT"@ != "CURLOPT_URL"@,
{
    reveal_strlit("CURLOPT_CUSTOMREQUEST");
    reveal_strlit("CURLOPT_HTTPPOST");
    reveal_strlit("CURLOPT_NOBODY");
    reveal_strlit("CURLOPT_POST");
    reveal_strlit("CURLOPT_POSTFIELDS");
    reveal_strlit("CURLOPT_PUT");
    reveal_strlit("CURLOPT_UPLOAD");
    reveal_strlit("CURLOPT_URL");
    reveal_strlit("MHD_start_daemon");
    reveal_strlit("mg_set_request_handler");
    assert("CURLOPT_HTTPPOST"@[0] != "MHD_start_daemon"@[0]);
    assert("CURLOPT_NOBODY"@[8] != "CURLOPT_UPLOAD"@[8]);
    assert("CURLOPT_PUT"@[8] != "CURLOPT_URL"@[8]);
}

/// A port that speaks HTTP: a verb, a path and the framework that it was read from, found
/// at a node.
pub open spec fn speaks_http(p: BoundaryView, t: TreeView, verb: Seq<char>, path: Seq<char>, framework: Seq<char>, n: usize) -> bool {
    &&& p.mechanism == "http"@
    &&& p.key == verb + " "@ + normalized(path)
    &&& p.line == t.span(n).start_line
    &&& p.col == t.span(n).start_col
    &&& p.detail == seq![("method"@, verb), ("path"@, normalized(path)), ("framework"@, framework)]
}

// ---------------------------------------------------------------------------
// Literals and URLs
// ---------------------------------------------------------------------------

/// A string literal reads as its contents and escapes in order, without its quotes.
pub proof fn literals_read_in_order(t: TreeView, list: Seq<usize>, k: int)
    requires
        0 < k <= list.len(),
    ensures
        t.kind(list[k - 1]) == "string_content"@ || t.kind(list[k - 1]) == "raw_string_content"@ || t.kind(list[k - 1])
            == "escape_sequence"@ ==> content_of(t, list, k) == content_of(t, list, k - 1) + t.text(list[k - 1]),
        t.kind(list[k - 1]) != "string_content"@ && t.kind(list[k - 1]) != "raw_string_content"@ && t.kind(list[k - 1])
            != "escape_sequence"@ ==> content_of(t, list, k) == content_of(t, list, k - 1),
        content_of(t, list, 0).len() == 0,
{
}

/// A literal with one content is that content, as a value and as a URL.
pub proof fn plain_literals_read_as_written(
    t: TreeView,
    writes: Seq<WriteView>,
    n: usize,
    content: usize,
    before: usize,
    scope: Scope,
)
    requires
        t.kind(n) == "string_literal"@ || t.kind(n) == "raw_string_literal"@,
        t.kids(n) == seq![content],
        t.kind(content) == "string_content"@ || t.kind(content) == "raw_string_content"@,
    ensures
        string_value(t, n) == Some(t.text(content)),
        url_of(t, writes, n, before, scope, 0) == Some(t.text(content)),
{
    assert(t.kids(n)[0] == content);
    literals_read_in_order(t, t.kids(n), 1);
    assert(Seq::<char>::empty() + t.text(content) =~= t.text(content));
    assert(content_of(t, t.kids(n), 0) =~= Seq::<char>::empty());
    assert(literal_content(t, n) =~= t.text(content));
}

/// Brackets change nothing, and a name stands for what it holds.
pub proof fn names_stand_for_what_they_hold(t: TreeView, writes: Seq<WriteView>, n: usize, before: usize, scope: Scope, depth: nat)
    requires
        depth <= MAX_URL_DEPTH,
    ensures
        t.kind(n) == "parenthesized_expression"@ && t.named_kids(n).len() > 0 ==> url_of(t, writes, n, before, scope, depth)
            == url_of(t, writes, t.named_kids(n)[0], before, scope, depth + 1),
        t.kind(n) == "identifier"@ ==> url_of(t, writes, n, before, scope, depth) == held(
            t,
            writes,
            t.text(n),
            before,
            scope,
            depth + 1,
            writes.len(),
        ),
{
    kinds_differ();
}

/// A sum of two texts reads as the one after the other; a side that is unknown is a
/// placeholder, and where both are nothing is known.
pub proof fn sums_read_in_order(
    t: TreeView,
    writes: Seq<WriteView>,
    n: usize,
    operator: usize,
    left: usize,
    right: usize,
    before: usize,
    scope: Scope,
    depth: nat,
)
    requires
        depth <= MAX_URL_DEPTH,
        t.kind(n) == "binary_expression"@,
        t.field(n, "operator"@) == Some(operator),
        t.field(n, "left"@) == Some(left),
        t.field(n, "right"@) == Some(right),
    ensures
        ({
            let a = url_of(t, writes, left, before, scope, depth + 1);
            let b = url_of(t, writes, right, before, scope, depth + 1);
            let sum = url_of(t, writes, n, before, scope, depth);
            &&& trimmed(t.text(operator)) != "+"@ ==> sum is None
            &&& trimmed(t.text(operator)) == "+"@ && a is Some && b is Some ==> sum == Some(a->0 + b->0)
            &&& trimmed(t.text(operator)) == "+"@ && a is Some && b is None ==> sum == Some(a->0 + "{}"@)
            &&& trimmed(t.text(operator)) == "+"@ && a is None && b is Some ==> sum == Some("{}"@ + b->0)
            &&& a is None && b is None ==> sum is None
        }),
{
    kinds_differ();
}

/// The last write that counts tells what a name holds: a pattern replaces, an append adds.
/// A write to another name, behind the use or in another function tells nothing.
pub proof fn last_writes_count(
    t: TreeView,
    writes: Seq<WriteView>,
    name: Seq<char>,
    before: usize,
    start: usize,
    end: usize,
    depth: nat,
    k: nat,
)
    requires
        0 < k <= writes.len(),
        depth <= MAX_URL_DEPTH + 1,
    ensures
        ({
            let w = writes[k - 1];
            let scope: Scope = Some((start, end));
            let now = held(t, writes, name, before, scope, depth, k);
            let earlier = held(t, writes, name, before, scope, depth, (k - 1) as nat);
            let inside = w.name == name && w.at < before && start <= w.at && w.at < end;
            &&& !inside ==> now == earlier
            &&& inside && w.value is Pattern ==> now == Some(w.value->Pattern_0)
            &&& inside && w.value is Appended && earlier is Some ==> now == Some(earlier->0 + w.value->Appended_0)
            &&& inside && w.value is Appended && earlier is None ==> now == Some(w.value->Appended_0)
        }),
        held(t, writes, name, before, Some((start, end)), depth, 0) is None,
{
}

/// A format reads as itself, with a placeholder for each specifier and one percent sign for
/// two.
pub proof fn formats_read_as_patterns(s: Seq<char>, i: int)
    requires
        0 <= i < s.len(),
    ensures
        s[i] != '%' ==> pattern_from(s, i) == seq![s[i]] + pattern_from(s, i + 1),
        s[i] == '%' && i + 1 < s.len() && s[i + 1] == '%' ==> pattern_from(s, i) == seq!['%'] + pattern_from(s, i + 2),
        s[i] == '%' && !(i + 1 < s.len() && s[i + 1] == '%') ==> pattern_from(s, i) == "{}"@ + pattern_from(
            s,
            specifier_end(s, i + 1),
        ),
        pattern_from(s, s.len() as int).len() == 0,
{
}

/// A binding writes the expression to the name that it binds, where the name stands.
pub proof fn bindings_write_their_value(t: TreeView, hit: Seq<Capture>, name: usize, value: usize)
    requires
        captured(t, hit, NAME) == Some(name),
        captured(t, hit, VALUE) == Some(value),
    ensures
        ({
            let w = binding_write(t, hit);
            &&& w is Some
            &&& w->0.value == WrittenView::Expression(value)
            &&& w->0.at == t.nodes[name as int].start
            &&& t.kind(name) == "identifier"@ ==> w->0.name == t.text(name)
            &&& t.kind(name) == "field_expression"@ && t.field(name, "field"@) is Some ==> w->0.name == t.text(
                t.field(name, "field"@)->0,
            )
        }),
{
    kinds_differ();
}

/// A call with a buffer and a literal behind it writes the pattern of the literal to the
/// buffer. A function that appends adds it, and any other replaces what was there.
pub proof fn calls_write_to_their_buffer(t: TreeView, hit: Seq<Capture>, function: usize, args_node: usize, text: Seq<char>)
    requires
        captured(t, hit, FN) == Some(function),
        captured(t, hit, ARGS) == Some(args_node),
        plain_callee(t, function),
        t.named_kids(args_node).len() > 0,
        t.kind(t.named_kids(args_node)[0]) == "identifier"@,
        literal_from(t, t.named_kids(args_node), 1) == Some(text),
    ensures
        ({
            let w = call_write(t, hit);
            let callee = after_last(t.text(function), "::"@);
            let appends = callee == "strcat"@ || callee == "strncat"@ || callee == "strlcat"@ || callee == "stpcat"@;
            &&& w is Some
            &&& w->0.name == t.text(t.named_kids(args_node)[0])
            &&& w->0.at == t.nodes[t.named_kids(args_node)[0] as int].start
            &&& appends ==> w->0.value == WrittenView::Appended(format_pattern(text))
            &&& !appends ==> w->0.value == WrittenView::Pattern(format_pattern(text))
        }),
{
    kinds_differ();
    let table = crate::cfamily::boundary::APPEND_FUNCTIONS@;
    assert(table[0]@ == "strcat"@ && table[1]@ == "strncat"@ && table[2]@ == "strlcat"@ && table[3]@ == "stpcat"@);
    let callee = after_last(t.text(function), "::"@);
    if callee == "strcat"@ || callee == "strncat"@ || callee == "strlcat"@ || callee == "stpcat"@ {
        assert(listed(table, callee));
    }
}

/// The first literal of some arguments is the one that is written.
pub proof fn first_literals_are_written(t: TreeView, args: Seq<usize>, i: int, j: int)
    requires
        0 <= i <= j <= args.len(),
        forall|k: int| i <= k < j ==> string_value(t, #[trigger] args[k]) is None,
    ensures
        j < args.len() && string_value(t, args[j]) is Some ==> literal_from(t, args, i) == string_value(t, args[j]),
        j == args.len() ==> literal_from(t, args, i) is None,
    decreases j - i,
{
    if i < j {
        assert(string_value(t, args[i]) is None);
        first_literals_are_written(t, args, i + 1, j);
    }
}

/// A place belongs to the nearest function or lambda around it.
pub proof fn places_belong_to_the_nearest_function(t: TreeView, n: usize, parent: usize)
    requires
        t.parent(n) == Some(parent),
        parent < n,
    ensures
        t.kind(parent) == "function_definition"@ || t.kind(parent) == "lambda_expression"@ ==> scope_of(t, n) == Some(
            (t.nodes[parent as int].start, t.nodes[parent as int].end),
        ),
        t.kind(parent) != "function_definition"@ && t.kind(parent) != "lambda_expression"@ ==> scope_of(t, n) == scope_of(
            t,
            parent,
        ),
{
    reveal_with_fuel(enclosing_fn, 2);
}

// ---------------------------------------------------------------------------
// HTTP
// ---------------------------------------------------------------------------

/// The verb that an option of libcurl stands for.
pub proof fn options_imply_verbs(option: Seq<char>)
    ensures
        option == "CURLOPT_POST"@ ==> implied_verb(option) == Some("POST"@),
        option == "CURLOPT_POSTFIELDS"@ ==> implied_verb(option) == Some("POST"@),
        option == "CURLOPT_HTTPPOST"@ ==> implied_verb(option) == Some("POST"@),
        option == "CURLOPT_UPLOAD"@ ==> implied_verb(option) == Some("PUT"@),
        option == "CURLOPT_PUT"@ ==> implied_verb(option) == Some("PUT"@),
        option == "CURLOPT_NOBODY"@ ==> implied_verb(option) == Some("HEAD"@),
        option == "CURLOPT_URL"@ || option == "CURLOPT_CUSTOMREQUEST"@ ==> implied_verb(option) is None,
{
    words_differ();
}

/// A call that sets an option says what verb its function sends: the custom request
/// spells it, and another option implies it unless it is switched off. A call in another
/// function says nothing.
pub proof fn options_tell_verbs(t: TreeView, hit: Seq<Capture>, args_node: usize, scope: Scope, text: Seq<char>)
    requires
        captured(t, hit, ARGS) == Some(args_node),
        t.named_kids(args_node).len() > 2,
    ensures
        !within(t, args_node, scope) ==> verb_hint(t, hit, scope) is Silent,
        within(t, args_node, scope) && t.text(t.named_kids(args_node)[1]) == "CURLOPT_CUSTOMREQUEST"@ && string_value(
            t,
            t.named_kids(args_node)[2],
        ) == Some(text) && trimmed(text).len() > 0 ==> verb_hint(t, hit, scope) == VerbHint::Spelled(
            uppercase(trimmed(text)),
        ),
        within(t, args_node, scope) && t.text(t.named_kids(args_node)[1]) == "CURLOPT_POST"@ && t.text(
            t.named_kids(args_node)[2],
        ) == "1"@ ==> verb_hint(t, hit, scope) == VerbHint::Implied("POST"@),
        within(t, args_node, scope) && t.text(t.named_kids(args_node)[1]) == "CURLOPT_POST"@ && t.text(
            t.named_kids(args_node)[2],
        ) == "0"@ ==> verb_hint(t, hit, scope) is Silent,
{
    words_differ();
    reveal_strlit("0");
    reveal_strlit("1");
    options_imply_verbs(t.text(t.named_kids(args_node)[1]));
    let value = t.text(t.named_kids(args_node)[2]);
    reveal_with_fuel(crate::cfamily::boundary::without_suffix, 3);
    if value == "0"@ {
        assert(crate::cfamily::boundary::without_suffix(value) == "0"@);
    }
    if value == "1"@ {
        assert(crate::cfamily::boundary::without_suffix(value) =~= "1"@);
        assert("1"@[0] != "0"@[0]);
    }
}

/// A verb that is spelled out is the verb of the request, whatever follows it; where only
/// verbs are implied the last one is; where nothing tells, the request is sent with the
/// verb that was assumed.
pub proof fn verbs_are_told_by_calls(t: TreeView, hits: Seq<Seq<Capture>>, scope: Scope, i: int, assumed: Seq<char>, j: int)
    requires
        0 <= i <= j <= hits.len(),
        forall|k: int| i <= k < j ==> #[trigger] verb_hint(t, hits[k], scope) is Silent,
    ensures
        j == hits.len() ==> verb_from(t, hits, scope, i, assumed) == assumed,
        j < hits.len() ==> match verb_hint(t, hits[j], scope) {
            VerbHint::Spelled(v) => verb_from(t, hits, scope, i, assumed) == v,
            VerbHint::Implied(v) => (forall|k: int| j < k < hits.len() ==> #[trigger] verb_hint(t, hits[k], scope) is Silent)
                ==> verb_from(t, hits, scope, i, assumed) == v,
            VerbHint::Silent => true,
        },
    decreases hits.len() - i,
{
    if i < j {
        assert(verb_hint(t, hits[i], scope) is Silent);
        verbs_are_told_by_calls(t, hits, scope, i + 1, assumed, j);
    } else if j < hits.len() {
        if let VerbHint::Implied(v) = verb_hint(t, hits[j], scope) {
            if forall|k: int| j < k < hits.len() ==> #[trigger] verb_hint(t, hits[k], scope) is Silent {
                verbs_are_told_by_calls(t, hits, scope, j + 1, v, hits.len() as int);
            }
        }
    }
}

/// A call that sets the URL makes a request: to the pattern that its third argument
/// stands for, with the verb that its function sends, GET where nothing tells. A literal
/// is worth more than what was put together. Another option makes none.
pub proof fn urls_make_requests(
    t: TreeView,
    writes: Seq<WriteView>,
    calls: Seq<Seq<Capture>>,
    hit: Seq<Capture>,
    call: usize,
    args_node: usize,
    pattern: Seq<char>,
)
    requires
        captured(t, hit, CALL) == Some(call),
        captured(t, hit, ARGS) == Some(args_node),
        t.named_kids(args_node).len() > 2,
    ensures
        ({
            let args = t.named_kids(args_node);
            let scope = scope_of(t, call);
            let url = url_of(t, writes, args[2], t.nodes[call as int].start, scope, 0);
            let r = curl_request(t, writes, calls, hit);
            &&& t.text(args[1]) != "CURLOPT_URL"@ ==> r is None
            &&& url is None ==> r is None
            &&& t.text(args[1]) == "CURLOPT_URL"@ && url == Some(pattern) && string_value(t, args[2]) is Some && path_like(
                pattern,
            ) ==> {
                &&& r is Some
                &&& r->0.role == "client"@
                &&& r->0.confidence == 85
                &&& speaks_http(r->0, t, verb_from(t, calls, scope, 0, "GET"@), pattern, "libcurl"@, call)
            }
            &&& t.text(args[1]) == "CURLOPT_URL"@ && url == Some(pattern) && string_value(t, args[2]) is None && usable(
                pattern,
            ) ==> {
                &&& r is Some
                &&& r->0.role == "client"@
                &&& r->0.confidence == 70
                &&& speaks_http(r->0, t, verb_from(t, calls, scope, 0, "GET"@), pattern, "libcurl"@, call)
            }
        }),
{
    let r = curl_request(t, writes, calls, hit);
    if r is Some {
        assert(r->0.detail =~= seq![r->0.detail[0], r->0.detail[1], r->0.detail[2]]);
    }
}

/// A handler of civetweb serves its path for every verb; a daemon of microhttpd serves
/// everything, at the port that it is started with. Other functions serve nothing.
pub proof fn c_libraries_serve(t: TreeView, hit: Seq<Capture>, function: usize, args_node: usize, path: Seq<char>)
    requires
        captured(t, hit, FN) == Some(function),
        captured(t, hit, ARGS) == Some(args_node),
        plain_callee(t, function),
    ensures
        ({
            let callee = after_last(t.text(function), "::"@);
            let args = t.named_kids(args_node);
            let r = c_server(t, hit);
            &&& callee == "mg_set_request_handler"@ && args.len() > 2 && string_value(t, args[1]) == Some(path)
                && path_like(path) && t.kind_among(args[2], HANDLER_KINDS@) ==> {
                &&& r is Some
                &&& r->0.role == "server"@
                &&& r->0.confidence == 90
                &&& speaks_http(r->0, t, "ANY"@, path, "civetweb"@, function)
            }
            &&& callee == "MHD_start_daemon"@ ==> {
                &&& r is Some
                &&& r->0.mechanism == "http"@
                &&& r->0.role == "server"@
                &&& r->0.key == "ANY "@ + "/*"@
                &&& r->0.confidence == 40
                &&& r->0.line == t.span(function).start_line
                &&& r->0.detail.contains(("framework"@, "microhttpd"@))
                &&& args.len() > 1 && t.kind(args[1]) == "number_literal"@ ==> r->0.detail.contains(
                    ("port"@, t.text(args[1])),
                )
            }
            &&& callee != "mg_set_request_handler"@ && callee != "MHD_start_daemon"@ ==> r is None
        }),
{
    words_differ();
    let r = c_server(t, hit);
    if r is Some {
        if r->0.detail.len() == 3 {
            assert(r->0.detail =~= seq![r->0.detail[0], r->0.detail[1], r->0.detail[2]]);
        }
        let d = r->0.detail;
        assert(d[2] == d[2]);
        if d.len() == 4 {
            assert(d.contains(d[2]));
            assert(d.contains(d[3]));
        }
    }
}

/// A verb that is called with a path and a handler is a route, for that verb in capitals
/// and at that path; with anything else it is a request.
pub proof fn verbs_with_handlers_are_routes(
    t: TreeView,
    hit: Seq<Capture>,
    function: usize,
    args_node: usize,
    field: usize,
    path: Seq<char>,
)
    requires
        captured(t, hit, FN) == Some(function),
        captured(t, hit, ARGS) == Some(args_node),
        t.kind(function) == "field_expression"@,
        t.field(function, "field"@) == Some(field),
    ensures
        ({
            let args = t.named_kids(args_node);
            let verb = capital_verb(lowercase(t.text(field)));
            let r = verb_method(t, hit);
            let told = verb is Some && args.len() > 0 && string_value(t, args[0]) == Some(path) && path_like(path);
            let callable = args.len() == 2 && t.kind_among(args[1], CALLABLE_KINDS@);
            let data = args.len() == 2 && t.kind_among(args[1], DATA_KINDS@);
            &&& verb is None ==> r is None
            &&& args.len() == 0 ==> r is None
            &&& args.len() > 0 && string_value(t, args[0]) is None ==> r is None
            &&& args.len() > 0 && string_value(t, args[0]) == Some(path) && !path_like(path) ==> r is None
            &&& told ==> r is Some && speaks_http(r->0, t, verb->0, path, "cpp-httplib"@, field)
            &&& told && callable ==> r->0.role == "server"@ && r->0.confidence == 100
            &&& told && args.len() == 2 && !callable && !data ==> r->0.role == "server"@ && r->0.confidence == 75
            &&& told && args.len() == 2 && !callable && data ==> r->0.role == "client"@ && r->0.confidence == 85
            &&& told && args.len() != 2 ==> r->0.role == "client"@ && r->0.confidence == 85
        }),
{
    capital_verbs_hold(lowercase(t.text(field)));
    let r = verb_method(t, hit);
    if r is Some {
        assert(r->0.detail =~= seq![r->0.detail[0], r->0.detail[1], r->0.detail[2]]);
    }
}

/// A route for several verbs is one port for each of them, in order.
pub proof fn routes_have_a_port_for_each_verb(
    t: TreeView,
    verbs: Seq<Seq<char>>,
    path: Seq<char>,
    confidence: u32,
    framework: Seq<char>,
    n: usize,
    k: int,
    j: int,
)
    requires
        0 <= j < k <= verbs.len(),
    ensures
        ({
            let ports = verb_ports(t, verbs, path, confidence, framework, n, k);
            &&& ports.len() == k
            &&& speaks_http(ports[j], t, verbs[j], path, framework, n)
            &&& ports[j].role == "server"@
            &&& ports[j].confidence == confidence
        }),
    decreases k,
{
    if k > 1 {
        if j < k - 1 {
            routes_have_a_port_for_each_verb(t, verbs, path, confidence, framework, n, k - 1, j);
        } else {
            routes_have_a_port_for_each_verb(t, verbs, path, confidence, framework, n, k - 1, 0);
        }
    } else {
        assert(verb_ports(t, verbs, path, confidence, framework, n, 0).len() == 0);
    }
    if j == k - 1 {
        let p = verb_ports(t, verbs, path, confidence, framework, n, k)[j];
        assert(p.detail =~= seq![("method"@, verbs[j]), ("path"@, normalized(path)), ("framework"@, framework)]);
    }
}

/// A verb of Crow is written as a literal, as a literal with a suffix or as a name, in any
/// case; other words are no verbs.
pub proof fn crow_verbs_are_capital(t: TreeView, n: usize, text: Seq<char>)
    requires
        t.kind(n) == "string_literal"@,
        literal_content(t, n) == text,
    ensures
        crow_verb(t, n) == capital_verb(lowercase(trimmed(text))),
{
    reveal_strlit("user_defined_literal");
    reveal_strlit("string_literal");
    assert("user_defined_literal"@.len() != "string_literal"@.len());
    capital_verbs_hold(lowercase(trimmed(text)));
}

/// A route of Crow stands at the path of its macro, for the verbs that it is chained with.
/// Without a chain it answers GET.
pub proof fn crow_routes_answer(
    t: TreeView,
    hit: Seq<Capture>,
    call: usize,
    function: usize,
    args_node: usize,
    path: Seq<char>,
    j: int,
)
    requires
        captured(t, hit, CALL) == Some(call),
        captured(t, hit, FN) == Some(function),
        captured(t, hit, ARGS) == Some(args_node),
        t.kind(function) == "identifier"@,
        t.text(function) == "CROW_ROUTE"@,
        t.named_kids(args_node).len() > 1,
        string_value(t, t.named_kids(args_node)[1]) == Some(path),
        path_like(path),
    ensures
        ({
            let ports = crow_route(t, hit);
            &&& t.parent(call) is None ==> ports.len() == 1 && speaks_http(ports[0], t, "GET"@, path, "crow"@, function)
                && ports[0].role == "server"@ && ports[0].confidence == 100
            &&& t.parent(call) is Some && 0 <= j < chained_verbs(t, t.parent(call)->0).len() ==> {
                let verbs = chained_verbs(t, t.parent(call)->0);
                &&& ports.len() == verbs.len()
                &&& speaks_http(ports[j], t, verbs[j], path, "crow"@, function)
                &&& ports[j].role == "server"@
                &&& ports[j].confidence == 100
            }
        }),
{
    let verbs = climbed_verbs(t, call, MAX_CHAIN_CLIMB as nat);
    if t.parent(call) is None {
        assert(verbs[0] == "GET"@);
        routes_have_a_port_for_each_verb(t, verbs, path, 100, "crow"@, function, 1, 0);
    } else if 0 <= j < chained_verbs(t, t.parent(call)->0).len() {
        routes_have_a_port_for_each_verb(t, verbs, path, 100, "crow"@, function, verbs.len() as int, j);
    }
}

/// A macro of Drogon makes a route at the text that it quotes first, for each verb that
/// stands behind it, and for every verb where none does.
pub proof fn drogon_macros_are_routes(t: TreeView, hit: Seq<Capture>, name: usize, params: usize, path: Seq<char>, rest: Seq<char>, j: int)
    requires
        captured(t, hit, NAME) == Some(name),
        captured(t, hit, PARAMS) == Some(params),
        t.text(name) == "ADD_METHOD_TO"@ || t.text(name) == "ADD_METHOD_VIA_REGEX"@,
        first_quoted(t.text(params)) == Some((path, rest)),
        path_like(path),
        0 <= j < named_verbs(rest).len(),
    ensures
        drogon_route(t, hit).len() == named_verbs(rest).len(),
        speaks_http(drogon_route(t, hit)[j], t, named_verbs(rest)[j], path, "drogon"@, name),
        drogon_route(t, hit)[j].role == "server"@,
        drogon_route(t, hit)[j].confidence == 90,
{
    let table = crate::cfamily::boundary::DROGON_ADD_METHOD@;
    assert(table[0]@ == "ADD_METHOD_TO"@ && table[1]@ == "ADD_METHOD_VIA_REGEX"@);
    assert(listed(table, t.text(name)));
    routes_have_a_port_for_each_verb(
        t,
        named_verbs(rest),
        path,
        90,
        "drogon"@,
        name,
        named_verbs(rest).len() as int,
        j,
    );
}

// ---------------------------------------------------------------------------
// Remote procedures
// ---------------------------------------------------------------------------

/// A member of a service that takes the context of the server or overrides something
/// handles the procedure of its name; a member that does neither handles none.
pub proof fn members_handle_procedures(t: TreeView, service: Seq<char>, member: usize, name: usize, params: usize)
    requires
        t.kind(member) == "field_declaration"@ || t.kind(member) == "function_definition"@,
        signature(t, member) == Some((name, params)),
    ensures
        ({
            let r = handled_rpc(t, service, member);
            &&& r is Some <==> has(t.text(params), "ServerContext"@) || overrides(t, name)
            &&& r is Some ==> {
                &&& r->0.mechanism == "grpc"@
                &&& r->0.role == "server"@
                &&& r->0.key == service + "/"@ + t.text(name)
                &&& r->0.line == t.span(name).start_line
                &&& r->0.col == t.span(name).start_col
                &&& r->0.confidence == 80
            }
        }),
{
}

/// The variable that was made a stub last speaks for its service; one that never was
/// speaks for none.
pub proof fn last_stubs_count(stubs: Seq<(Seq<char>, Seq<char>)>, name: Seq<char>, k: int, j: int)
    requires
        0 <= j < k <= stubs.len(),
        forall|i: int| j < i < k ==> (#[trigger] stubs[i]).0 != name,
    ensures
        stubs[j].0 == name ==> stub_service(stubs, name, k) == Some(stubs[j].1),
        stubs[j].0 != name && j == 0 ==> stub_service(stubs, name, k) is None,
    decreases k,
{
    if j < k - 1 {
        assert(stubs[k - 1].0 != name);
        last_stubs_count(stubs, name, k - 1, j);
    } else {
        assert(stub_service(stubs, name, 0) is None);
    }
}

/// A call on a stub asks for the procedure of its service by its name; a call on anything
/// else asks for none.
pub proof fn calls_on_stubs_ask_for_procedures(
    t: TreeView,
    stubs: Seq<(Seq<char>, Seq<char>)>,
    hit: Seq<Capture>,
    function: usize,
    receiver: usize,
    field: usize,
)
    requires
        captured(t, hit, FN) == Some(function),
        t.kind(function) == "field_expression"@,
        t.field(function, "argument"@) == Some(receiver),
        t.field(function, "field"@) == Some(field),
    ensures
        ({
            let whole = stub_service(stubs, t.text(receiver), stubs.len() as int);
            let own = stub_service(stubs, receiver_name(t.text(receiver)), stubs.len() as int);
            let r = called_rpc(t, stubs, hit);
            &&& r is Some <==> whole is Some || own is Some
            &&& whole is Some ==> r->0.key == whole->0 + "/"@ + t.text(field)
            &&& whole is None && own is Some ==> r->0.key == own->0 + "/"@ + t.text(field)
            &&& r is Some ==> r->0.mechanism == "grpc"@ && r->0.role == "client"@ && r->0.confidence == 85 && r->0.line
                == t.span(field).start_line && r->0.col == t.span(field).start_col
        }),
{
}

/// The service of a class is the one before the generated suffix of its base, and that of
/// a stub the one before the call that makes it.
pub proof fn services_are_named_before_the_suffix(t: TreeView, n: usize, function: usize, service: Seq<char>)
    requires
        service.len() > 0,
    ensures
        name_parts(t.text(n)).len() > 1 && name_parts(t.text(n))[name_parts(t.text(n)).len() - 2] == service && (
        name_parts(t.text(n)).last() == "Service"@ || name_parts(t.text(n)).last() == "AsyncService"@ || name_parts(
            t.text(n),
        ).last() == "CallbackService"@) ==> base_service(t, n) == Some(service),
        t.kind(n) == "call_expression"@ && t.field(n, "function"@) == Some(function) && t.kind(function)
            == "qualified_identifier"@ && name_parts(t.text(function)).len() > 1 && name_parts(t.text(function)).last()
            == "NewStub"@ && name_parts(t.text(function))[name_parts(t.text(function)).len() - 2] == service ==> stub_call(
            t,
            n,
        ) == Some(service),
{
    let table = crate::cfamily::boundary::GRPC_SERVICE_BASES@;
    assert(table[0]@ == "Service"@ && table[1]@ == "AsyncService"@ && table[2]@ == "CallbackService"@);
    assert(listed(table, "Service"@) && listed(table, "AsyncService"@) && listed(table, "CallbackService"@));
}

// ---------------------------------------------------------------------------
// Files
// ---------------------------------------------------------------------------

/// The ports of some matches are the ports of each of them.
pub proof fn ports_are_those_of_each_match(
    port: Port,
    t: TreeView,
    known: Known,
    hits: Seq<Seq<Capture>>,
    k: int,
    p: BoundaryView,
)
    requires
        0 <= k <= hits.len(),
    ensures
        ports_of(port, t, known, hits, k).contains(p) <==> exists|i: int|
            0 <= i < k && (#[trigger] ports_of_hit(port, t, known, hits[i])).contains(p),
    decreases k,
{
    if k > 0 {
        ports_are_those_of_each_match(port, t, known, hits, k - 1, p);
        sum_contains(ports_of(port, t, known, hits, k - 1), ports_of_hit(port, t, known, hits[k - 1]), p);
        if ports_of_hit(port, t, known, hits[k - 1]).contains(p) {
            assert(ports_of_hit(port, t, known, hits[k - 1]).contains(p));
        }
    }
}

/// What the extractors know of a file.
pub open spec fn known_of(t: TreeView, m: Matches) -> Known {
    Known {
        writes: writes_in(t, m.bindings, m.calls),
        calls: m.calls,
        stubs: stubs_of(t, m.bindings, m.bindings.len() as int),
    }
}

/// A file of either dialect has the requests of libcurl and the servers of C that its
/// calls make.
pub proof fn files_have_the_ports_of_c(t: TreeView, dialect: Dialect, m: Matches, i: int)
    requires
        0 <= i < m.calls.len(),
    ensures
        curl_request(t, known_of(t, m).writes, m.calls, m.calls[i]) is Some ==> ports_in(t, dialect, m).contains(
            curl_request(t, known_of(t, m).writes, m.calls, m.calls[i])->0,
        ),
        c_server(t, m.calls[i]) is Some ==> ports_in(t, dialect, m).contains(c_server(t, m.calls[i])->0),
{
    let known = known_of(t, m);
    let n = m.calls.len() as int;
    let a = curl_request(t, known.writes, m.calls, m.calls[i]);
    let b = c_server(t, m.calls[i]);
    if a is Some {
        assert(at_most(a)[0] == a->0);
        assert(ports_of_hit(Port::Curl, t, known, m.calls[i]).contains(a->0));
        ports_are_those_of_each_match(Port::Curl, t, known, m.calls, n, a->0);
        in_parts(t, dialect, m, a->0);
    }
    if b is Some {
        assert(at_most(b)[0] == b->0);
        assert(ports_of_hit(Port::CServer, t, known, m.calls[i]).contains(b->0));
        ports_are_those_of_each_match(Port::CServer, t, known, m.calls, n, b->0);
        in_parts(t, dialect, m, b->0);
    }
}

/// A file of C++ also has the routes and requests of its frameworks, and the remote
/// procedures that its classes handle and its stubs call.
pub proof fn files_have_the_ports_of_cpp(t: TreeView, m: Matches, i: int, p: BoundaryView)
    ensures
        0 <= i < m.calls.len() && verb_method(t, m.calls[i]) == Some(p) ==> ports_in(t, Dialect::Cpp, m).contains(p),
        0 <= i < m.calls.len() && crow_route(t, m.calls[i]).contains(p) ==> ports_in(t, Dialect::Cpp, m).contains(p),
        0 <= i < m.declarators.len() && drogon_route(t, m.declarators[i]).contains(p) ==> ports_in(
            t,
            Dialect::Cpp,
            m,
        ).contains(p),
        0 <= i < m.records.len() && service_class(t, m.records[i]).contains(p) ==> ports_in(t, Dialect::Cpp, m).contains(
            p,
        ),
        0 <= i < m.calls.len() && called_rpc(t, known_of(t, m).stubs, m.calls[i]) == Some(p) ==> ports_in(
            t,
            Dialect::Cpp,
            m,
        ).contains(p),
{
    let known = known_of(t, m);
    let n = m.calls.len() as int;
    assert(at_most(Some(p))[0] == p);
    assert(at_most(Some(p)).contains(p));
    in_parts(t, Dialect::Cpp, m, p);
    ports_are_those_of_each_match(Port::VerbMethod, t, known, m.calls, n, p);
    ports_are_those_of_each_match(Port::Crow, t, known, m.calls, n, p);
    ports_are_those_of_each_match(Port::StubCall, t, known, m.calls, n, p);
    ports_are_those_of_each_match(Port::Drogon, t, known, m.declarators, m.declarators.len() as int, p);
    ports_are_those_of_each_match(Port::ServiceClass, t, known, m.records, m.records.len() as int, p);
    if 0 <= i < m.calls.len() {
        assert(verb_method(t, m.calls[i]) == Some(p) ==> ports_of_hit(Port::VerbMethod, t, known, m.calls[i]).contains(p));
        assert(crow_route(t, m.calls[i]).contains(p) ==> ports_of_hit(Port::Crow, t, known, m.calls[i]).contains(p));
        assert(called_rpc(t, known.stubs, m.calls[i]) == Some(p) ==> ports_of_hit(
            Port::StubCall,
            t,
            known,
            m.calls[i],
        ).contains(p));
    }
    if 0 <= i < m.declarators.len() {
        assert(drogon_route(t, m.declarators[i]).contains(p) ==> ports_of_hit(
            Port::Drogon,
            t,
            known,
            m.declarators[i],
        ).contains(p));
    }
    if 0 <= i < m.records.len() {
        assert(service_class(t, m.records[i]).contains(p) ==> ports_of_hit(
            Port::ServiceClass,
            t,
            known,
            m.records[i],
        ).contains(p));
    }
}

/// The ports of a file are those that its extractors give.
proof fn in_parts(t: TreeView, dialect: Dialect, m: Matches, p: BoundaryView)
    ensures
        ({
            let known = known_of(t, m);
            let n = m.calls.len() as int;
            let shared = ports_of(Port::Curl, t, known, m.calls, n).contains(p) || ports_of(
                Port::CServer,
                t,
                known,
                m.calls,
                n,
            ).contains(p);
            ports_in(t, dialect, m).contains(p) <==> shared || (dialect is Cpp && (ports_of(
                Port::VerbMethod,
                t,
                known,
                m.calls,
                n,
            ).contains(p) || ports_of(Port::Crow, t, known, m.calls, n).contains(p) || ports_of(
                Port::Drogon,
                t,
                known,
                m.declarators,
                m.declarators.len() as int,
            ).contains(p) || ports_of(Port::ServiceClass, t, known, m.records, m.records.len() as int).contains(p)
                || ports_of(Port::StubCall, t, known, m.calls, n).contains(p)))
        }),
{
    let known = known_of(t, m);
    let n = m.calls.len() as int;
    let a = ports_of(Port::Curl, t, known, m.calls, n);
    let b = ports_of(Port::CServer, t, known, m.calls, n);
    let c = ports_of(Port::VerbMethod, t, known, m.calls, n);
    let d = ports_of(Port::Crow, t, known, m.calls, n);
    let e = ports_of(Port::Drogon, t, known, m.declarators, m.declarators.len() as int);
    let f = ports_of(Port::ServiceClass, t, known, m.records, m.records.len() as int);
    let g = ports_of(Port::StubCall, t, known, m.calls, n);
    sum_contains(a, b, p);
    sum_contains(a + b, c, p);
    sum_contains(a + b + c, d, p);
    sum_contains(a + b + c + d, e, p);
    sum_contains(a + b + c + d + e, f, p);
    sum_contains(a + b + c + d + e + f, g, p);
}

} // verus!
