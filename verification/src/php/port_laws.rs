//! What the boundaries of PHP sources promise.

use vstd::prelude::*;

use crate::boundaries::{normalized, path_like, BoundaryView};
use crate::php::boundary::{
    arguments_of, attribute_ports, call_ports, function_port, labelled_from, ports_at, ports_in, ports_of, positional,
    positional_from, queue_call, queue_function, shape_of, string_part, string_parts, strings_of, template,
    template_of, verb_routes, ArgView, Port, Shape, ARGS, CALLEE, CONSUMERS, DISPATCHERS, PRODUCERS,
};
use crate::php::names::NAME_KINDS;
use crate::routes::{capital_verb, capital_verbs_hold};
use crate::selection::sum_contains;
use crate::strings::{after_last, begins, has};
use crate::text::{all_ascii, ascii_lowercase, letter_case_does_not_matter, lowercase, uppercase};
use crate::tree::{captured, group_tree, Capture, TreeView};

verus! {

broadcast use group_tree;

/// The kinds of node that are told apart differ.
proof fn kinds_differ()
    ensures
        "anonymous_function"@.len() == 18,
        "argument"@.len() == 8,
        "array_creation_expression"@.len() == 25,
        "arrow_function"@.len() == 14,
        "class_constant_access_expression"@.len() == 32,
        "encapsed_string"@.len() == 15,
        "escape_sequence"@.len() == 15,
        "heredoc"@.len() == 7,
        "heredoc_body"@.len() == 12,
        "name"@.len() == 4,
        "nowdoc"@.len() == 6,
        "nowdoc_body"@.len() == 11,
        "object_creation_expression"@.len() == 26,
        "qualified_name"@.len() == 14,
        "relative_name"@.len() == 13,
        "string"@.len() == 6,
        "string_content"@.len() == 14,
        "arrow_function"@ != "qualified_name"@,
        "arrow_function"@ != "string_content"@,
        "encapsed_string"@ != "escape_sequence"@,
        "nowdoc"@ != "string"@,
        "qualified_name"@ != "string_content"@,
{
    reveal_strlit("anonymous_function");
    reveal_strlit("argument");
    reveal_strlit("array_creation_expression");
    reveal_strlit("arrow_function");
    reveal_strlit("class_constant_access_expression");
    reveal_strlit("encapsed_string");
    reveal_strlit("escape_sequence");
    reveal_strlit("heredoc");
    reveal_strlit("heredoc_body");
    reveal_strlit("name");
    reveal_strlit("nowdoc");
    reveal_strlit("nowdoc_body");
    reveal_strlit("object_creation_expression");
    reveal_strlit("qualified_name");
    reveal_strlit("relative_name");
    reveal_strlit("string");
    reveal_strlit("string_content");
    assert("arrow_function"@[0] != "qualified_name"@[0]);
    assert("arrow_function"@[0] != "string_content"@[0]);
    assert("encapsed_string"@[1] != "escape_sequence"@[1]);
    assert("nowdoc"@[0] != "string"@[0]);
    assert("qualified_name"@[0] != "string_content"@[0]);
}

/// The words that are told apart differ.
proof fn words_differ()
    ensures
        "any"@.len() == 3,
        "client"@.len() == 6,
        "curl_setopt"@.len() == 11,
        "delete"@.len() == 6,
        "file_get_contents"@.len() == 17,
        "get"@.len() == 3,
        "head"@.len() == 4,
        "match"@.len() == 5,
        "options"@.len() == 7,
        "patch"@.len() == 5,
        "post"@.len() == 4,
        "put"@.len() == 3,
        "request"@.len() == 7,
        "route"@.len() == 5,
        "server"@.len() == 6,
        "any"@ != "get"@,
        "any"@ != "put"@,
        "client"@ != "delete"@,
        "client"@ != "server"@,
        "delete"@ != "server"@,
        "get"@ != "put"@,
        "head"@ != "post"@,
        "match"@ != "patch"@,
        "match"@ != "route"@,
        "options"@ != "request"@,
        "patch"@ != "route"@,
{
    reveal_strlit("any");
    reveal_strlit("client");
    reveal_strlit("curl_setopt");
    reveal_strlit("delete");
    reveal_strlit("file_get_contents");
    reveal_strlit("get");
    reveal_strlit("head");
    reveal_strlit("match");
    reveal_strlit("options");
    reveal_strlit("patch");
    reveal_strlit("post");
    reveal_strlit("put");
    reveal_strlit("request");
    reveal_strlit("route");
    reveal_strlit("server");
    assert("any"@[0] != "get"@[0]);
    assert("any"@[0] != "put"@[0]);
    assert("client"@[0] != "delete"@[0]);
    assert("client"@[0] != "server"@[0]);
    assert("delete"@[0] != "server"@[0]);
    assert("get"@[0] != "put"@[0]);
    assert("head"@[0] != "post"@[0]);
    assert("match"@[0] != "patch"@[0]);
    assert("match"@[0] != "route"@[0]);
    assert("options"@[0] != "request"@[0]);
    assert("patch"@[0] != "route"@[0]);
}

// ---------------------------------------------------------------------------
// Strings and arguments
// ---------------------------------------------------------------------------

/// A string contributes its contents as they are written, and a placeholder for every
/// expression in it.
pub proof fn strings_read_as_templates(t: TreeView, n: usize)
    ensures
        t.kind(n) == "string_content"@ || t.kind(n) == "escape_sequence"@ ==> string_part(t, n) == t.text(n),
        t.kind(n) != "string_content"@ && t.kind(n) != "escape_sequence"@ && t.nodes[n as int].named ==> string_part(t, n)
            == "{}"@,
        !t.nodes[n as int].named && t.kind(n) != "string_content"@ && t.kind(n) != "escape_sequence"@ ==> string_part(
            t,
            n,
        ).len() == 0,
{
}

/// A string literal with one content reads as that content, and one without any as
/// nothing.
pub proof fn plain_strings_read_as_written(t: TreeView, n: usize, content: usize)
    requires
        t.kind(n) == "string"@ || t.kind(n) == "encapsed_string"@ || t.kind(n) == "heredoc_body"@ || t.kind(n)
            == "nowdoc_body"@,
        t.kids(n) == seq![content],
        t.kind(content) == "string_content"@,
    ensures
        template(t, n) == Some(t.text(content)),
{
    reveal_with_fuel(string_parts, 2);
    assert(t.kids(n)[0] == content);
    assert(Seq::<char>::empty() + t.text(content) =~= t.text(content));
}

/// Without labels, the argument at a place is the one that is asked for by that place.
pub proof fn places_tell_arguments(args: Seq<ArgView>, index: int, i: int)
    requires
        0 <= i,
        0 <= index,
        forall|k: int| i <= k < args.len() ==> (#[trigger] args[k]).label is None,
    ensures
        positional_from(args, index, i) == (if i + index < args.len() {
            Some(args[i + index].value)
        } else {
            None
        }),
    decreases args.len() - i,
{
    if i < args.len() && index > 0 {
        places_tell_arguments(args, index - 1, i + 1);
    }
}

/// A label leads to the first argument that bears it.
pub proof fn labels_tell_arguments(args: Seq<ArgView>, label: Seq<char>, i: int)
    requires
        0 <= i,
    ensures
        match labelled_from(args, label, i) {
            Some(v) => exists|k: int|
                #![trigger args[k]]
                i <= k < args.len() && args[k].label == Some(label) && args[k].value == v && forall|j: int|
                    i <= j < k ==> (#[trigger] args[j]).label != Some(label),
            None => forall|k: int| i <= k < args.len() ==> (#[trigger] args[k]).label != Some(label),
        },
    decreases args.len() - i,
{
    if i < args.len() && args[i].label != Some(label) {
        labels_tell_arguments(args, label, i + 1);
    }
}

// ---------------------------------------------------------------------------
// Routes and requests
// ---------------------------------------------------------------------------

/// Whether a port is an HTTP port of a verb and a path, at a node.
pub open spec fn is_http(p: BoundaryView, t: TreeView, verb: Seq<char>, path: Seq<char>, n: usize) -> bool {
    &&& p.mechanism == "http"@
    &&& p.key == verb + " "@ + normalized(path)
    &&& p.line == t.span(n).start_line
    &&& p.col == t.span(n).start_col
    &&& p.detail == seq![("method"@, verb), ("path"@, normalized(path))]
}

/// A call of a verb with a path is one port of that verb and that path: a route where
/// a handler is bound, and a request where nothing or only options are given.
pub proof fn verb_calls_are_ports(
    t: TreeView,
    method: usize,
    args_node: usize,
    is_static: bool,
    path_node: usize,
    path: Seq<char>,
    second: usize,
)
    requires
        capital_verb(lowercase(t.text(method))) is Some,
        positional(arguments_of(t, args_node), 0) == Some(path_node),
        template(t, path_node) == Some(path),
        path_like(path),
    ensures
        ({
            let ports = call_ports(t, method, args_node, is_static);
            let given = positional(arguments_of(t, args_node), 1);
            let p = ports[0];
            &&& ports.len() == 1
            &&& is_http(p, t, capital_verb(lowercase(t.text(method)))->0, path, method)
            &&& given == Some(second) && (t.kind(second) == "anonymous_function"@ || t.kind(second) == "arrow_function"@
                || t.kind(second) == "class_constant_access_expression"@) ==> p.role == "server"@ && p.confidence == 100
            &&& given is None ==> p.role == "client"@ && p.confidence == (if begins(path, "/"@) {
                90u32
            } else {
                80u32
            })
            &&& given == Some(second) && shape_of(t, second) == Shape::Ambiguous && is_static ==> p.role == "server"@
                && p.confidence == 75
            &&& given == Some(second) && shape_of(t, second) == Shape::Ambiguous && !is_static ==> p.role == "client"@
            &&& given == Some(second) && shape_of(t, second) == Shape::Options ==> p.role == "client"@
            &&& p.role == "client"@ ==> p.confidence == (if begins(path, "/"@) {
                90u32
            } else {
                80u32
            })
        }),
{
    words_differ();
    let name = lowercase(t.text(method));
    capital_verbs_hold(name);
    let p = call_ports(t, method, args_node, is_static)[0];
    assert(p.detail =~= seq![("method"@, capital_verb(name)->0), ("path"@, normalized(path))]);
}

/// A verb that is called with what is neither a path nor a URL is no port.
pub proof fn other_verb_calls_are_no_ports(t: TreeView, method: usize, args_node: usize, is_static: bool)
    requires
        capital_verb(lowercase(t.text(method))) is Some,
        match template_of(t, positional(arguments_of(t, args_node), 0)) {
            Some(path) => !path_like(path),
            None => true,
        },
    ensures
        call_ports(t, method, args_node, is_static).len() == 0,
{
    capital_verbs_hold(lowercase(t.text(method)));
}

/// The shape of an argument: what can be bound is a handler, a list with keys or a
/// plain string is options, and a variable decides nothing.
pub proof fn shapes_tell_handlers(t: TreeView, n: usize)
    ensures
        t.kind(n) == "anonymous_function"@ || t.kind(n) == "arrow_function"@ || t.kind(n)
            == "class_constant_access_expression"@ ==> shape_of(t, n) == Shape::Handler,
        t.kind(n) == "array_creation_expression"@ && (exists|i: int|
            0 <= i < t.named_kids(n).len() && t.named_kids(#[trigger] t.named_kids(n)[i]).len() > 1) ==> shape_of(t, n)
            == Shape::Options,
        t.kind(n) == "array_creation_expression"@ && (forall|i: int|
            0 <= i < t.named_kids(n).len() ==> t.named_kids(#[trigger] t.named_kids(n)[i]).len() <= 1) ==> shape_of(t, n)
            == Shape::Handler,
        t.kind(n) == "string"@ && has(t.text(n), "::"@) ==> shape_of(t, n) == Shape::Handler,
        t.kind(n) == "string"@ && !crate::strings::has(t.text(n), "::"@) && !crate::strings::has_char(t.text(n), '@') ==> shape_of(t, n)
            == Shape::Options,
{
    kinds_differ();
    assert(NAME_KINDS@[0]@ == "name"@ && NAME_KINDS@[1]@ == "qualified_name"@ && NAME_KINDS@[2]@ == "relative_name"@);
}

/// A route that answers every method is one for `ANY`, and a request by verb has the
/// verb that is given.
pub proof fn named_calls_are_ports(
    t: TreeView,
    method: usize,
    args_node: usize,
    is_static: bool,
    first: usize,
    second: usize,
    text: Seq<char>,
    other: Seq<char>,
)
    requires
        positional(arguments_of(t, args_node), 0) == Some(first),
        positional(arguments_of(t, args_node), 1) == Some(second),
        template(t, first) == Some(text),
    ensures
        lowercase(t.text(method)) == "any"@ && shape_of(t, second) == Shape::Handler ==> {
            let ports = call_ports(t, method, args_node, is_static);
            ports.len() == 1 && is_http(ports[0], t, "ANY"@, text, method) && ports[0].role == "server"@
                && ports[0].confidence == 100
        },
        lowercase(t.text(method)) == "any"@ && shape_of(t, second) == Shape::Options ==> call_ports(
            t,
            method,
            args_node,
            is_static,
        ).len() == 0,
        lowercase(t.text(method)) == "request"@ && all_ascii(text) && capital_verb(lowercase(text)) is Some && template(
            t,
            second,
        ) == Some(other) ==> {
            let ports = call_ports(t, method, args_node, is_static);
            ports.len() == 1 && is_http(ports[0], t, capital_verb(lowercase(text))->0, other, method) && ports[0].role
                == "client"@ && ports[0].confidence == 90
        },
        lowercase(t.text(method)) == "request"@ && capital_verb(lowercase(text)) is None ==> call_ports(
            t,
            method,
            args_node,
            is_static,
        ).len() == 0,
{
    words_differ();
    capital_verbs_hold(lowercase(t.text(method)));
    capital_verbs_hold(lowercase(text));
    if all_ascii(text) && capital_verb(lowercase(text)) is Some {
        let low = lowercase(text);
        assert forall|i: int| 0 <= i < low.len() implies #[trigger] low[i] <= '\x7f' by {
            assert(text[i] <= '\x7f');
        }
        assert(ascii_lowercase(low) =~= ascii_lowercase(text)) by {
            assert forall|i: int| 0 <= i < low.len() implies ascii_lowercase(low)[i] == ascii_lowercase(text)[i] by {
                assert(text[i] <= '\x7f');
            }
        }
        letter_case_does_not_matter(text, low);
    }
    let ports = call_ports(t, method, args_node, is_static);
    if ports.len() == 1 {
        assert(ports[0].detail =~= seq![("method"@, ports[0].detail[0].1), ("path"@, ports[0].detail[1].1)]);
    }
}

/// A route for several verbs is one route for each of them, in order.
pub proof fn routes_for_several_verbs(t: TreeView, verbs: Seq<Seq<char>>, path: Seq<char>, n: usize, k: int, j: int)
    requires
        0 <= j < k <= verbs.len(),
    ensures
        verb_routes(t, verbs, path, n, k).len() == k,
        is_http(verb_routes(t, verbs, path, n, k)[j], t, uppercase(verbs[j]), path, n),
        verb_routes(t, verbs, path, n, k)[j].role == "server"@,
        verb_routes(t, verbs, path, n, k)[j].confidence == 100,
    decreases k,
{
    if k > 1 {
        if j < k - 1 {
            routes_for_several_verbs(t, verbs, path, n, k - 1, j);
        } else {
            routes_for_several_verbs(t, verbs, path, n, k - 1, 0);
        }
    } else {
        assert(verb_routes(t, verbs, path, n, 0).len() == 0);
    }
    let p = verb_routes(t, verbs, path, n, k)[j];
    if j == k - 1 {
        assert(p.detail =~= seq![("method"@, uppercase(verbs[j])), ("path"@, normalized(path))]);
    }
}

/// `match` with a list of verbs and a path is one route for each verb.
pub proof fn matched_verbs_are_routes(
    t: TreeView,
    method: usize,
    args_node: usize,
    is_static: bool,
    verbs: usize,
    path_node: usize,
    path: Seq<char>,
    j: int,
)
    requires
        lowercase(t.text(method)) == "match"@,
        positional(arguments_of(t, args_node), 0) == Some(verbs),
        positional(arguments_of(t, args_node), 1) == Some(path_node),
        template(t, path_node) == Some(path),
        0 <= j < strings_of(t, verbs).len(),
    ensures
        ({
            let ports = call_ports(t, method, args_node, is_static);
            &&& ports.len() == strings_of(t, verbs).len()
            &&& is_http(ports[j], t, uppercase(strings_of(t, verbs)[j]), path, method)
            &&& ports[j].role == "server"@
            &&& ports[j].confidence == 100
        }),
{
    words_differ();
    capital_verbs_hold(lowercase(t.text(method)));
    routes_for_several_verbs(t, strings_of(t, verbs), path, method, strings_of(t, verbs).len() as int, j);
}

/// An attribute `Route` is a route for each verb that it names, and for every method
/// where it names none; an attribute that is a verb is a route for that verb. What a
/// label calls the path is the path.
pub proof fn attributes_are_routes(t: TreeView, attr: usize, args_node: usize, path_node: usize, path: Seq<char>)
    requires
        labelled_from(arguments_of(t, args_node), "path"@, 0) == Some(path_node) || (labelled_from(
            arguments_of(t, args_node),
            "path"@,
            0,
        ) is None && positional(arguments_of(t, args_node), 0) == Some(path_node)),
        template(t, path_node) == Some(path),
    ensures
        ({
            let name = lowercase(after_last(t.text(attr), "\\"@));
            let ports = attribute_ports(t, attr, args_node);
            let methods = labelled_from(arguments_of(t, args_node), "methods"@, 0);
            &&& capital_verb(name) is Some ==> ports.len() == 1 && is_http(ports[0], t, capital_verb(name)->0, path, attr)
                && ports[0].role == "server"@ && ports[0].confidence == 100
            &&& name == "route"@ && methods is None ==> ports.len() == 1 && is_http(ports[0], t, uppercase("ANY"@), path, attr)
                && ports[0].role == "server"@ && ports[0].confidence == 100
            &&& name == "route"@ && methods is Some && strings_of(t, methods->0).len() > 0 ==> ports.len() == strings_of(
                t,
                methods->0,
            ).len() && forall|j: int|
                0 <= j < ports.len() ==> is_http(#[trigger] ports[j], t, uppercase(strings_of(t, methods->0)[j]), path, attr)
                    && ports[j].role == "server"@ && ports[j].confidence == 100
            &&& name != "route"@ && capital_verb(name) is None ==> ports.len() == 0
        }),
{
    words_differ();
    let name = lowercase(after_last(t.text(attr), "\\"@));
    capital_verbs_hold(name);
    let ports = attribute_ports(t, attr, args_node);
    let methods = labelled_from(arguments_of(t, args_node), "methods"@, 0);
    if name == "route"@ {
        let named = match methods {
            Some(n) => strings_of(t, n),
            None => Seq::empty(),
        };
        if named.len() > 0 {
            routes_for_several_verbs(t, named, path, attr, named.len() as int, 0);
            assert forall|j: int| 0 <= j < ports.len() implies is_http(
                #[trigger] ports[j],
                t,
                uppercase(named[j]),
                path,
                attr,
            ) && ports[j].role == "server"@ && ports[j].confidence == 100 by {
                routes_for_several_verbs(t, named, path, attr, named.len() as int, j);
            }
        } else {
            let any = seq!["ANY"@];
            routes_for_several_verbs(t, any, path, attr, 1, 0);
            assert(any[0] == "ANY"@);
        }
    } else if capital_verb(name) is Some {
        assert(ports[0].detail =~= seq![("method"@, capital_verb(name)->0), ("path"@, normalized(path))]);
    }
}

/// Reading a URL is a request for it, and so is setting the URL of a transfer; reading
/// a plain path is reading a file.
pub proof fn functions_are_requests(
    t: TreeView,
    callee: usize,
    args_node: usize,
    first: usize,
    second: usize,
    third: usize,
    url: Seq<char>,
)
    ensures
        ({
            let name = lowercase(after_last(t.text(callee), "\\"@));
            let args = arguments_of(t, args_node);
            let p = function_port(t, callee, args_node);
            &&& name == "file_get_contents"@ && positional(args, 0) == Some(first) && template(t, first) == Some(url) && has(
                url,
                "://"@,
            ) ==> p is Some && is_http(p->0, t, "GET"@, url, callee) && p->0.role == "client"@ && p->0.confidence == 80
            &&& name == "file_get_contents"@ && positional(args, 0) == Some(first) && template(t, first) == Some(url) && !crate::strings::has(
                url,
                "://"@,
            ) ==> p is None
            &&& name == "curl_setopt"@ && positional(args, 1) == Some(second) && crate::strings::ends(
                uppercase(t.text(second)),
                "CURLOPT_URL"@,
            ) && positional(args, 2) == Some(third) && template(t, third) == Some(url) ==> p is Some && is_http(
                p->0,
                t,
                "GET"@,
                url,
                callee,
            ) && p->0.role == "client"@ && p->0.confidence == 70
            &&& name == "curl_setopt"@ && positional(args, 1) == Some(second) && !crate::strings::ends(
                uppercase(t.text(second)),
                "CURLOPT_URL"@,
            ) ==> p is None
            &&& name != "file_get_contents"@ && name != "curl_setopt"@ ==> p is None
        }),
{
    words_differ();
    let p = function_port(t, callee, args_node);
    if p is Some {
        assert(p->0.detail =~= seq![("method"@, p->0.detail[0].1), ("path"@, p->0.detail[1].1)]);
    }
}

// ---------------------------------------------------------------------------
// Queues
// ---------------------------------------------------------------------------

/// A method that produces asks for the topic that it names, and one that consumes
/// serves it; the topic is the key, so that the two meet.
pub proof fn topics_have_two_sides(t: TreeView, method: usize, args_node: usize, first: usize, topic: Seq<char>, i: int)
    requires
        positional(arguments_of(t, args_node), 0) == Some(first),
        template(t, first) == Some(topic),
    ensures
        ({
            let name = lowercase(t.text(method));
            let p = queue_call(t, method, args_node);
            &&& name == "publish"@ || name == "produce"@ || name == "sendmessage"@ || name == "enqueue"@ || name == "emit"@
                ==> p is Some && p->0.role == "client"@ && p->0.confidence == 70 && p->0.mechanism == "queue"@ && p->0.key
                == topic && p->0.line == t.span(method).start_line && p->0.col == t.span(method).start_col
            &&& name == "subscribe"@ || name == "consume"@ ==> p is Some && p->0.role == "server"@ && p->0.confidence == 75
                && p->0.mechanism == "queue"@ && p->0.key == topic && p->0.line == t.span(method).start_line && p->0.col
                == t.span(method).start_col
        }),
{
    let (a, b) = (PRODUCERS@, CONSUMERS@);
    assert(a[0]@ == "publish"@ && a[1]@ == "produce"@ && a[2]@ == "sendmessage"@ && a[3]@ == "basic_publish"@ && a[4]@
        == "xadd"@ && a[5]@ == "enqueue"@ && a[6]@ == "delay"@ && a[7]@ == "emit"@);
    assert(b[0]@ == "subscribe"@ && b[1]@ == "consume"@ && b[2]@ == "basic_consume"@ && b[3]@ == "xreadgroup"@);
    reveal_strlit("publish");
    reveal_strlit("produce");
    reveal_strlit("sendmessage");
    reveal_strlit("basic_publish");
    reveal_strlit("xadd");
    reveal_strlit("enqueue");
    reveal_strlit("delay");
    reveal_strlit("emit");
    reveal_strlit("subscribe");
    reveal_strlit("consume");
    reveal_strlit("client");
    reveal_strlit("server");
    assert("client"@[0] != "server"@[0]);
    assert("consume"@[0] == 'c' && "publish"@[0] == 'p' && "produce"@[0] == 'p' && "enqueue"@[0] == 'e');
    assert("subscribe"@.len() == 9 && "consume"@.len() == 7 && "publish"@.len() == 7 && "produce"@.len() == 7
        && "sendmessage"@.len() == 11 && "basic_publish"@.len() == 13 && "xadd"@.len() == 4 && "enqueue"@.len() == 7
        && "delay"@.len() == 5 && "emit"@.len() == 4);
    let name = lowercase(t.text(method));
    if name == "subscribe"@ || name == "consume"@ {
        assert(forall|k: int| 0 <= k < 8 ==> (#[trigger] a[k])@ != name);
    }
}

/// A job that is handed over is asked for under the short name of its class.
pub proof fn jobs_are_asked_for_by_class(t: TreeView, callee: usize, args_node: usize, value: usize, class: usize)
    requires
        lowercase(after_last(t.text(callee), "\\"@)) == "dispatch"@,
        arguments_of(t, args_node).len() > 0,
        arguments_of(t, args_node)[0].value == value,
        t.kind(value) == "object_creation_expression"@,
        t.kid_among(value, NAME_KINDS@) == Some(class),
    ensures
        queue_function(t, callee, args_node) is Some,
        ({
            let p = queue_function(t, callee, args_node)->0;
            &&& p.mechanism == "queue"@
            &&& p.role == "client"@
            &&& p.key == after_last(t.text(class), "\\"@)
            &&& p.confidence == 70
            &&& p.line == t.span(callee).start_line
            &&& p.col == t.span(callee).start_col
        }),
{
    let d = DISPATCHERS@;
    assert(d[3]@ == "dispatch"@);
}

// ---------------------------------------------------------------------------
// Files
// ---------------------------------------------------------------------------

proof fn ports_come_from_matches(port: Port, t: TreeView, hits: Seq<Seq<Capture>>, n: int, p: BoundaryView)
    requires
        0 <= n <= hits.len(),
    ensures
        ports_of(port, t, hits, n).contains(p) <==> exists|k: int|
            0 <= k < n && ports_at(port, t, #[trigger] hits[k]).contains(p),
    decreases n,
{
    if n > 0 {
        ports_come_from_matches(port, t, hits, n - 1, p);
        sum_contains(ports_of(port, t, hits, n - 1), ports_at(port, t, hits[n - 1]), p);
    }
}

/// Whether one of some matches is a port.
pub open spec fn among(port: Port, t: TreeView, hits: Seq<Seq<Capture>>, p: BoundaryView) -> bool {
    exists|k: int| 0 <= k < hits.len() && ports_at(port, t, #[trigger] hits[k]).contains(p)
}

/// The ports of a file are exactly those that its attributes and its calls are: routes
/// by attribute, calls on classes and on objects, calls of functions, and both sides of
/// queues.
pub proof fn ports_are_those_of_the_matches(
    t: TreeView,
    members: Seq<Seq<Capture>>,
    statics: Seq<Seq<Capture>>,
    functions: Seq<Seq<Capture>>,
    attributes: Seq<Seq<Capture>>,
    p: BoundaryView,
)
    ensures
        ports_in(t, members, statics, functions, attributes).contains(p) <==> among(Port::Attribute, t, attributes, p)
            || among(Port::StaticCall, t, statics, p) || among(Port::MemberCall, t, members, p) || among(
            Port::Function,
            t,
            functions,
            p,
        ) || among(Port::QueueCall, t, members, p) || among(Port::QueueCall, t, statics, p) || among(
            Port::QueueFunction,
            t,
            functions,
            p,
        ),
{
    let (m, s, f, a) = (members.len() as int, statics.len() as int, functions.len() as int, attributes.len() as int);
    ports_come_from_matches(Port::Attribute, t, attributes, a, p);
    ports_come_from_matches(Port::StaticCall, t, statics, s, p);
    ports_come_from_matches(Port::MemberCall, t, members, m, p);
    ports_come_from_matches(Port::Function, t, functions, f, p);
    ports_come_from_matches(Port::QueueCall, t, members, m, p);
    ports_come_from_matches(Port::QueueCall, t, statics, s, p);
    ports_come_from_matches(Port::QueueFunction, t, functions, f, p);
    let x1 = ports_of(Port::Attribute, t, attributes, a);
    let x2 = ports_of(Port::StaticCall, t, statics, s);
    let x3 = ports_of(Port::MemberCall, t, members, m);
    let x4 = ports_of(Port::Function, t, functions, f);
    let x5 = ports_of(Port::QueueCall, t, members, m);
    let x6 = ports_of(Port::QueueCall, t, statics, s);
    let x7 = ports_of(Port::QueueFunction, t, functions, f);
    sum_contains(x1, x2, p);
    sum_contains(x1 + x2, x3, p);
    sum_contains(x1 + x2 + x3, x4, p);
    sum_contains(x1 + x2 + x3 + x4, x5, p);
    sum_contains(x1 + x2 + x3 + x4 + x5, x6, p);
    sum_contains(x1 + x2 + x3 + x4 + x5 + x6, x7, p);
}

/// What one match is: by the kind of match, a route by attribute, a call on a class or
/// on an object, a call of a function, or a side of a queue.
pub proof fn matches_are_ports(t: TreeView, hit: Seq<Capture>, callee: usize, args: usize)
    requires
        captured(t, hit, CALLEE) == Some(callee),
        captured(t, hit, ARGS) == Some(args),
    ensures
        ports_at(Port::Attribute, t, hit) == attribute_ports(t, callee, args),
        ports_at(Port::StaticCall, t, hit) == call_ports(t, callee, args, true),
        ports_at(Port::MemberCall, t, hit) == call_ports(t, callee, args, false),
        function_port(t, callee, args) matches Some(p) ==> ports_at(Port::Function, t, hit) == seq![p],
        queue_call(t, callee, args) matches Some(p) ==> ports_at(Port::QueueCall, t, hit) == seq![p],
        queue_function(t, callee, args) matches Some(p) ==> ports_at(Port::QueueFunction, t, hit) == seq![p],
{
}

}
