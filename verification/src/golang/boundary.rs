//! Boundaries between services in Go sources.

use vstd::prelude::*;

use crate::boundaries::{
    http_verb, is_http_verb, is_path, no_detail, normalize_http_path, normalized, path_like, BoundaryRef, BoundaryView,
    Detail,
};
use crate::strings::{after_last, strip_back, strip_front, strip_prefix, strip_suffix, tail_after};
use crate::text::{add_item, concat3, copy, lowercase, opt_view, same, to_lower, to_upper, uppercase, views};
use crate::tree::{
    capture_lists, captured, captured_is_in_tree, group_tree, parse, parsed_hits, parsed_tree, Capture, Grammar, Parsed,
    Syntax, TreeView,
};

verus! {

broadcast use {group_tree, captured_is_in_tree};

/// A method call on a receiver, such as `r.GET("/x", h)` or `http.Get("/x")`.
pub const Q_SELECTOR_CALL: &'static str = "(call_expression function: (selector_expression operand: (identifier) @obj field: (field_identifier) @method) arguments: (argument_list) @args)";

/// A variable that holds what a constructor made, such as `c := pb.NewXClient(..)`.
pub const Q_GRPC_CLIENT_ASSIGN: &'static str = "(short_var_declaration left: (expression_list (identifier) @var) right: (expression_list (call_expression function: (selector_expression field: (field_identifier) @callee))))";

/// The numbers of the captures in the two queries.
pub const OBJ: u32 = 0;

pub const METHOD: u32 = 1;

pub const ARGS: u32 = 2;

pub const VAR: u32 = 0;

pub const CALLEE: u32 = 1;

// ---------------------------------------------------------------------------
// Specifications
// ---------------------------------------------------------------------------

/// The content of a string literal; `None` for any other node.
pub open spec fn literal(t: TreeView, n: usize) -> Option<Seq<char>> {
    if t.kind(n) == "interpreted_string_literal"@ || t.kind(n) == "raw_string_literal"@ {
        match t.kid_among(n, CONTENT_KINDS@) {
            Some(c) => Some(t.text(c)),
            None => Some(Seq::empty()),
        }
    } else {
        None
    }
}

/// The kinds of node that hold the content of a string literal.
pub const CONTENT_KINDS: [&'static str; 2] = ["interpreted_string_literal_content", "raw_string_literal_content"];

/// The first argument, if it is a string literal.
pub open spec fn first_literal(t: TreeView, args: usize) -> Option<Seq<char>> {
    if t.named_kids(args).len() > 0 {
        literal(t, t.named_kids(args)[0])
    } else {
        None
    }
}

/// An HTTP port.
pub open spec fn http_port(t: TreeView, role: Seq<char>, verb: Seq<char>, path: Seq<char>, n: usize) -> BoundaryView {
    let norm = normalized(path);
    BoundaryView {
        mechanism: "http"@,
        role,
        key: verb + " "@ + norm,
        line: t.span(n).start_line,
        col: t.span(n).start_col,
        confidence: if role == "server"@ {
            100
        } else {
            85
        },
        detail: no_detail().push(("method"@, verb)).push(("path"@, norm)),
    }
}

/// What kind of port an extractor looks for.
#[derive(Clone, Copy, PartialEq, Eq, Structural)]
pub enum Port {
    HttpServer,
    HttpClient,
    Queue,
    Temporal,
}

/// A route: a verb called on anything but the package `http`.
pub open spec fn server_route(t: TreeView, obj: usize, method: usize, args: usize) -> Option<BoundaryView> {
    let verb = lowercase(t.text(method));
    if t.text(obj) == "http"@ || !http_verb(verb) {
        None
    } else {
        match first_literal(t, args) {
            Some(path) => Some(http_port(t, "server"@, uppercase(verb), path, method)),
            None => None,
        }
    }
}

/// A request: a verb called on the package `http` with a path or a URL.
pub open spec fn client_request(t: TreeView, obj: usize, method: usize, args: usize) -> Option<BoundaryView> {
    let verb = lowercase(t.text(method));
    if t.text(obj) != "http"@ || !http_verb(verb) {
        None
    } else {
        match first_literal(t, args) {
            Some(url) => if path_like(url) {
                Some(http_port(t, "client"@, uppercase(verb), url, method))
            } else {
                None
            },
            None => None,
        }
    }
}

/// The side of a queue that a method is on: who produces asks for the topic,
/// who subscribes serves it.
pub open spec fn queue_side(method: Seq<char>) -> Option<Seq<char>> {
    if method == "publish"@ || method == "produce"@ {
        Some("client"@)
    } else if method == "subscribe"@ {
        Some("server"@)
    } else {
        None
    }
}

/// A producer or a consumer of a topic.
pub open spec fn queue_port(t: TreeView, method: usize, args: usize) -> Option<BoundaryView> {
    match (queue_side(lowercase(t.text(method))), first_literal(t, args)) {
        (Some(role), Some(topic)) => Some(
            BoundaryView {
                mechanism: "queue"@,
                role,
                key: topic,
                line: t.span(method).start_line,
                col: t.span(method).start_col,
                confidence: if role == "server"@ {
                    75
                } else {
                    70
                },
                detail: no_detail().push(("topic"@, topic)),
            },
        ),
        _ => None,
    }
}

/// The name of the activity that an argument names.
pub open spec fn activity(t: TreeView, args: usize, index: int) -> Option<Seq<char>> {
    if index < t.named_kids(args).len() {
        let n = t.named_kids(args)[index];
        if t.kind(n) == "interpreted_string_literal"@ || t.kind(n) == "raw_string_literal"@ {
            literal(t, n)
        } else if t.kind(n) == "identifier"@ {
            Some(t.text(n))
        } else if t.kind(n) == "selector_expression"@ {
            Some(after_last(t.text(n), "."@))
        } else {
            None
        }
    } else {
        None
    }
}

/// A port of a Temporal activity.
pub open spec fn activity_port(t: TreeView, role: Seq<char>, name: Seq<char>, n: usize) -> BoundaryView {
    BoundaryView {
        mechanism: "temporal"@,
        role,
        key: name,
        line: t.span(n).start_line,
        col: t.span(n).start_col,
        confidence: 90,
        detail: no_detail().push(("activity"@, name)),
    }
}

/// A call that executes an activity, or one that registers it. The first
/// argument of an execution is the context.
pub open spec fn temporal_port(t: TreeView, method: usize, args: usize) -> Option<BoundaryView> {
    let name = lowercase(t.text(method));
    if name == "executeactivity"@ || name == "executelocalactivity"@ {
        match activity(t, args, 1) {
            Some(a) => Some(activity_port(t, "client"@, a, method)),
            None => None,
        }
    } else if name == "registeractivity"@ {
        match activity(t, args, 0) {
            Some(a) => Some(activity_port(t, "server"@, a, method)),
            None => None,
        }
    } else {
        None
    }
}

/// The port that one matched call is.
pub open spec fn port_of(port: Port, t: TreeView, hit: Seq<Capture>) -> Option<BoundaryView> {
    match (captured(t, hit, OBJ), captured(t, hit, METHOD), captured(t, hit, ARGS)) {
        (Some(obj), Some(method), Some(args)) => match port {
            Port::HttpServer => server_route(t, obj, method, args),
            Port::HttpClient => client_request(t, obj, method, args),
            Port::Queue => queue_port(t, method, args),
            Port::Temporal => temporal_port(t, method, args),
        },
        _ => None,
    }
}

/// The ports that the first `k` matched calls are.
pub open spec fn ports_of(port: Port, t: TreeView, hits: Seq<Seq<Capture>>, k: int) -> Seq<BoundaryView>
    decreases k,
{
    if k <= 0 || k > hits.len() {
        Seq::empty()
    } else {
        match port_of(port, t, hits[k - 1]) {
            Some(p) => ports_of(port, t, hits, k - 1).push(p),
            None => ports_of(port, t, hits, k - 1),
        }
    }
}

/// The service that a generated client constructor belongs to.
pub open spec fn service_of(callee: Seq<char>) -> Option<Seq<char>> {
    match strip_front(callee, "New"@) {
        Some(rest) => match strip_back(rest, "Client"@) {
            Some(stem) => if stem.len() > 0 {
                Some(stem)
            } else {
                None
            },
            None => None,
        },
        None => None,
    }
}

/// The client that one matched assignment makes: the variable and the service.
pub open spec fn client_of(t: TreeView, hit: Seq<Capture>) -> Option<(Seq<char>, Seq<char>)> {
    match (captured(t, hit, VAR), captured(t, hit, CALLEE)) {
        (Some(var), Some(callee)) => match service_of(t.text(callee)) {
            Some(service) => Some((t.text(var), service)),
            None => None,
        },
        _ => None,
    }
}

/// The service of a variable after the first `k` assignments: the last
/// assignment wins.
pub open spec fn client_service(t: TreeView, hits: Seq<Seq<Capture>>, var: Seq<char>, k: int) -> Option<Seq<char>>
    decreases k,
{
    if k <= 0 || k > hits.len() {
        None
    } else {
        match client_of(t, hits[k - 1]) {
            Some(c) => if c.0 == var {
                Some(c.1)
            } else {
                client_service(t, hits, var, k - 1)
            },
            None => client_service(t, hits, var, k - 1),
        }
    }
}

/// The call on a client that one matched call is.
pub open spec fn rpc_of(t: TreeView, assigns: Seq<Seq<Capture>>, hit: Seq<Capture>) -> Option<BoundaryView> {
    match (captured(t, hit, OBJ), captured(t, hit, METHOD)) {
        (Some(obj), Some(method)) => match client_service(t, assigns, t.text(obj), assigns.len() as int) {
            Some(service) => Some(
                BoundaryView {
                    mechanism: "grpc"@,
                    role: "client"@,
                    key: service + "/"@ + t.text(method),
                    line: t.span(method).start_line,
                    col: t.span(method).start_col,
                    confidence: 85,
                    detail: no_detail().push(("service"@, service)).push(("method"@, t.text(method))),
                },
            ),
            None => None,
        },
        _ => None,
    }
}

/// The calls on clients among the first `k` matched calls.
pub open spec fn rpcs_of(t: TreeView, assigns: Seq<Seq<Capture>>, hits: Seq<Seq<Capture>>, k: int) -> Seq<BoundaryView>
    decreases k,
{
    if k <= 0 || k > hits.len() {
        Seq::empty()
    } else {
        match rpc_of(t, assigns, hits[k - 1]) {
            Some(p) => rpcs_of(t, assigns, hits, k - 1).push(p),
            None => rpcs_of(t, assigns, hits, k - 1),
        }
    }
}

/// Every port of a file: routes, requests, queues, activities, remote calls.
pub open spec fn ports_in(t: TreeView, calls: Seq<Seq<Capture>>, assigns: Seq<Seq<Capture>>) -> Seq<BoundaryView> {
    let n = calls.len() as int;
    ports_of(Port::HttpServer, t, calls, n) + ports_of(Port::HttpClient, t, calls, n) + ports_of(
        Port::Queue,
        t,
        calls,
        n,
    ) + ports_of(Port::Temporal, t, calls, n) + rpcs_of(t, assigns, calls, n)
}

// ---------------------------------------------------------------------------
// Extraction
// ---------------------------------------------------------------------------

/// The content of a string literal.
fn string_content(t: &Syntax, n: usize) -> (r: Option<String>)
    requires
        t@.wf(),
        n < t@.nodes.len(),
    ensures
        opt_view(r) == literal(t@, n),
{
    if !t.is(n, "interpreted_string_literal") && !t.is(n, "raw_string_literal") {
        return None;
    }
    match t.kid_among(n, &CONTENT_KINDS) {
        Some(c) => Some(t.text(c)),
        None => {
            let s = String::new();
            assert(s@ =~= Seq::<char>::empty());
            Some(s)
        },
    }
}

/// The first argument, if it is a string literal.
fn first_string(t: &Syntax, args: usize) -> (r: Option<String>)
    requires
        t@.wf(),
        args < t@.nodes.len(),
    ensures
        opt_view(r) == first_literal(t@, args),
{
    let kids = t.named_kids(args);
    if kids.len() > 0 {
        assert(t@.below(args, kids@[0]));
        string_content(t, kids[0])
    } else {
        None
    }
}

/// An HTTP port.
fn http_ref(t: &Syntax, role: &str, verb: &str, path: &str, n: usize) -> (r: BoundaryRef)
    requires
        n < t@.nodes.len(),
    ensures
        r@ == http_port(t@, role@, verb@, path@, n),
{
    let norm = normalize_http_path(path);
    let span = t.span(n);
    BoundaryRef {
        mechanism: copy("http"),
        role: copy(role),
        key: concat3(verb, " ", norm.as_str()),
        line: span.start_line,
        col: span.start_col,
        confidence: if same(role, "server") {
            100
        } else {
            85
        },
        detail: Detail::new().with("method", verb).with("path", norm.as_str()),
    }
}

/// A route.
fn http_server(t: &Syntax, obj: usize, method: usize, args: usize) -> (r: Option<BoundaryRef>)
    requires
        t@.wf(),
        obj < t@.nodes.len(),
        method < t@.nodes.len(),
        args < t@.nodes.len(),
    ensures
        opt_view(r) == server_route(t@, obj, method, args),
{
    let object = t.text(obj);
    if same(object.as_str(), "http") {
        return None;
    }
    let text = t.text(method);
    let verb = to_lower(text.as_str());
    if !is_http_verb(verb.as_str()) {
        return None;
    }
    match first_string(t, args) {
        Some(path) => {
            let upper = to_upper(verb.as_str());
            Some(http_ref(t, "server", upper.as_str(), path.as_str(), method))
        },
        None => None,
    }
}

/// A request.
fn http_client(t: &Syntax, obj: usize, method: usize, args: usize) -> (r: Option<BoundaryRef>)
    requires
        t@.wf(),
        obj < t@.nodes.len(),
        method < t@.nodes.len(),
        args < t@.nodes.len(),
    ensures
        opt_view(r) == client_request(t@, obj, method, args),
{
    let object = t.text(obj);
    if !same(object.as_str(), "http") {
        return None;
    }
    let text = t.text(method);
    let verb = to_lower(text.as_str());
    if !is_http_verb(verb.as_str()) {
        return None;
    }
    match first_string(t, args) {
        Some(url) => {
            if !is_path(url.as_str()) {
                return None;
            }
            let upper = to_upper(verb.as_str());
            Some(http_ref(t, "client", upper.as_str(), url.as_str(), method))
        },
        None => None,
    }
}

/// The side of a queue that a method is on.
fn queue_role(method: &str) -> (r: Option<&'static str>)
    ensures
        match r {
            Some(role) => queue_side(method@) == Some(role@),
            None => queue_side(method@) is None,
        },
{
    if same(method, "publish") || same(method, "produce") {
        Some("client")
    } else if same(method, "subscribe") {
        Some("server")
    } else {
        None
    }
}

/// A producer or a consumer of a topic.
fn queue(t: &Syntax, method: usize, args: usize) -> (r: Option<BoundaryRef>)
    requires
        t@.wf(),
        method < t@.nodes.len(),
        args < t@.nodes.len(),
    ensures
        opt_view(r) == queue_port(t@, method, args),
{
    let text = t.text(method);
    let name = to_lower(text.as_str());
    match (queue_role(name.as_str()), first_string(t, args)) {
        (Some(role), Some(topic)) => {
            let span = t.span(method);
            let detail = Detail::new().with("topic", topic.as_str());
            Some(
                BoundaryRef {
                    mechanism: copy("queue"),
                    role: copy(role),
                    key: topic,
                    line: span.start_line,
                    col: span.start_col,
                    confidence: if same(role, "server") {
                        75
                    } else {
                        70
                    },
                    detail,
                },
            )
        },
        _ => None,
    }
}

/// The name of the activity that an argument names.
fn activity_name(t: &Syntax, args: usize, index: usize) -> (r: Option<String>)
    requires
        t@.wf(),
        args < t@.nodes.len(),
    ensures
        opt_view(r) == activity(t@, args, index as int),
{
    let kids = t.named_kids(args);
    if index < kids.len() {
        let n = kids[index];
        assert(t@.below(args, kids@[index as int]));
        if t.is(n, "interpreted_string_literal") || t.is(n, "raw_string_literal") {
            string_content(t, n)
        } else if t.is(n, "identifier") {
            Some(t.text(n))
        } else if t.is(n, "selector_expression") {
            let text = t.text(n);
            Some(tail_after(text.as_str(), "."))
        } else {
            None
        }
    } else {
        None
    }
}

/// A port of a Temporal activity.
fn temporal_ref(t: &Syntax, role: &str, name: &str, n: usize) -> (r: BoundaryRef)
    requires
        n < t@.nodes.len(),
    ensures
        r@ == activity_port(t@, role@, name@, n),
{
    let span = t.span(n);
    BoundaryRef {
        mechanism: copy("temporal"),
        role: copy(role),
        key: copy(name),
        line: span.start_line,
        col: span.start_col,
        confidence: 90,
        detail: Detail::new().with("activity", name),
    }
}

/// A call that executes an activity, or one that registers it.
fn temporal(t: &Syntax, method: usize, args: usize) -> (r: Option<BoundaryRef>)
    requires
        t@.wf(),
        method < t@.nodes.len(),
        args < t@.nodes.len(),
    ensures
        opt_view(r) == temporal_port(t@, method, args),
{
    let text = t.text(method);
    let name = to_lower(text.as_str());
    if same(name.as_str(), "executeactivity") || same(name.as_str(), "executelocalactivity") {
        match activity_name(t, args, 1) {
            Some(a) => Some(temporal_ref(t, "client", a.as_str(), method)),
            None => None,
        }
    } else if same(name.as_str(), "registeractivity") {
        match activity_name(t, args, 0) {
            Some(a) => Some(temporal_ref(t, "server", a.as_str(), method)),
            None => None,
        }
    } else {
        None
    }
}

/// The port that one matched call is.
fn port_at(port: Port, t: &Syntax, hit: &Vec<Capture>) -> (r: Option<BoundaryRef>)
    requires
        t@.wf(),
    ensures
        opt_view(r) == port_of(port, t@, hit@),
{
    match (t.captured(hit, OBJ), t.captured(hit, METHOD), t.captured(hit, ARGS)) {
        (Some(obj), Some(method), Some(args)) => match port {
            Port::HttpServer => http_server(t, obj, method, args),
            Port::HttpClient => http_client(t, obj, method, args),
            Port::Queue => queue(t, method, args),
            Port::Temporal => temporal(t, method, args),
        },
        _ => None,
    }
}

/// Appends the ports that the matched calls are.
#[verifier::loop_isolation(false)]
fn add_ports(port: Port, t: &Syntax, hits: &Vec<Vec<Capture>>, out: &mut Vec<BoundaryRef>)
    requires
        t@.wf(),
    ensures
        views(final(out)@) == views(old(out)@) + ports_of(port, t@, capture_lists(hits@), hits@.len() as int),
{
    let ghost start = views(out@);
    let ghost all = capture_lists(hits@);
    let mut k: usize = 0;
    assert(start + Seq::<BoundaryView>::empty() =~= start);
    while k < hits.len()
        invariant
            k <= hits@.len(),
            views(out@) == start + ports_of(port, t@, all, k as int),
        decreases hits@.len() - k,
    {
        assert(all[k as int] == hits@[k as int]@);
        if let Some(p) = port_at(port, t, &hits[k]) {
            add_item(out, p);
            assert(views(out@) =~= start + ports_of(port, t@, all, k + 1));
        }
        k += 1;
    }
}

/// The service that a generated client constructor belongs to.
fn grpc_service(callee: &str) -> (r: Option<String>)
    ensures
        opt_view(r) == service_of(callee@),
{
    match strip_prefix(callee, "New") {
        Some(rest) => match strip_suffix(rest.as_str(), "Client") {
            Some(stem) => {
                if stem.as_str().is_empty() {
                    None
                } else {
                    Some(stem)
                }
            },
            None => None,
        },
        None => None,
    }
}

/// The service of a variable.
#[verifier::loop_isolation(false)]
fn service_of_var(t: &Syntax, hits: &Vec<Vec<Capture>>, var: &str) -> (r: Option<String>)
    requires
        t@.wf(),
    ensures
        opt_view(r) == client_service(t@, capture_lists(hits@), var@, hits@.len() as int),
{
    let ghost all = capture_lists(hits@);
    let mut k: usize = hits.len();
    while k > 0
        invariant
            k <= hits@.len(),
            client_service(t@, all, var@, hits@.len() as int) == client_service(t@, all, var@, k as int),
        decreases k,
    {
        k -= 1;
        assert(all[k as int] == hits@[k as int]@);
        if let (Some(v), Some(callee)) = (t.captured(&hits[k], VAR), t.captured(&hits[k], CALLEE)) {
            let text = t.text(callee);
            if let Some(service) = grpc_service(text.as_str()) {
                let name = t.text(v);
                if same(name.as_str(), var) {
                    return Some(service);
                }
            }
        }
    }
    None
}

/// Appends the calls on clients.
#[verifier::loop_isolation(false)]
fn add_rpcs(t: &Syntax, assigns: &Vec<Vec<Capture>>, hits: &Vec<Vec<Capture>>, out: &mut Vec<BoundaryRef>)
    requires
        t@.wf(),
    ensures
        views(final(out)@) == views(old(out)@) + rpcs_of(
            t@,
            capture_lists(assigns@),
            capture_lists(hits@),
            hits@.len() as int,
        ),
{
    let ghost start = views(out@);
    let ghost all = capture_lists(hits@);
    let ghost made = capture_lists(assigns@);
    let mut k: usize = 0;
    assert(start + Seq::<BoundaryView>::empty() =~= start);
    while k < hits.len()
        invariant
            k <= hits@.len(),
            views(out@) == start + rpcs_of(t@, made, all, k as int),
        decreases hits@.len() - k,
    {
        assert(all[k as int] == hits@[k as int]@);
        if let (Some(obj), Some(method)) = (t.captured(&hits[k], OBJ), t.captured(&hits[k], METHOD)) {
            let var = t.text(obj);
            if let Some(service) = service_of_var(t, assigns, var.as_str()) {
                let name = t.text(method);
                let span = t.span(method);
                add_item(
                    out,
                    BoundaryRef {
                        mechanism: copy("grpc"),
                        role: copy("client"),
                        key: concat3(service.as_str(), "/", name.as_str()),
                        line: span.start_line,
                        col: span.start_col,
                        confidence: 85,
                        detail: Detail::new().with("service", service.as_str()).with("method", name.as_str()),
                    },
                );
                assert(views(out@) =~= start + rpcs_of(t@, made, all, k + 1));
            }
        }
        k += 1;
    }
}

/// Every port of a file, given the matches of the two queries.
pub fn extract_boundaries(t: &Syntax, calls: &Vec<Vec<Capture>>, assigns: &Vec<Vec<Capture>>) -> (r: Vec<BoundaryRef>)
    requires
        t@.wf(),
    ensures
        views(r@) == ports_in(t@, capture_lists(calls@), capture_lists(assigns@)),
{
    let mut out: Vec<BoundaryRef> = Vec::new();
    assert(views(out@) =~= Seq::<BoundaryView>::empty());
    add_ports(Port::HttpServer, t, calls, &mut out);
    add_ports(Port::HttpClient, t, calls, &mut out);
    add_ports(Port::Queue, t, calls, &mut out);
    add_ports(Port::Temporal, t, calls, &mut out);
    add_rpcs(t, assigns, calls, &mut out);
    assert(views(out@) =~= ports_in(t@, capture_lists(calls@), capture_lists(assigns@)));
    out
}

/// Every port of a parsed file.
pub fn parsed_boundaries(p: &Parsed) -> (r: Vec<BoundaryRef>)
    requires
        p.tree().wf(),
    ensures
        views(r@) == ports_in(p.tree(), p.hits(Q_SELECTOR_CALL@), p.hits(Q_GRPC_CLIENT_ASSIGN@)),
{
    let calls = p.query(Q_SELECTOR_CALL);
    let assigns = p.query(Q_GRPC_CLIENT_ASSIGN);
    extract_boundaries(p.syntax(), &calls, &assigns)
}

/// Every port of a Go source; `None` where the parser gives no tree.
pub fn extract_go_boundaries(source: &[u8]) -> (r: Option<Vec<BoundaryRef>>)
    ensures
        match (r, parsed_tree(Grammar::Go, source@)) {
            (Some(v), Some(t)) => views(v@) == ports_in(
                t,
                parsed_hits(Grammar::Go, source@, Q_SELECTOR_CALL@),
                parsed_hits(Grammar::Go, source@, Q_GRPC_CLIENT_ASSIGN@),
            ),
            (None, None) => true,
            _ => false,
        },
{
    match parse(Grammar::Go, source) {
        Some(p) => Some(parsed_boundaries(&p)),
        None => None,
    }
}

}
