//! What the reading of Go sources promises.

use vstd::prelude::*;

use crate::boundaries::{normalized, path_like, BoundaryView};
use crate::golang::boundary::{
    activity, client_of, client_request, client_service, first_literal, port_of, ports_in, ports_of, queue_port, rpc_of,
    rpcs_of, server_route, service_of, temporal_port, Port, ARGS, CALLEE, CONTENT_KINDS, METHOD, OBJ, VAR,
};
use crate::routes::{capital_verb, capital_verbs_hold, verbs_part_keys};
use crate::text::lowercase;
use crate::tree::{captured, Capture, TreeView};

verus! {

// ---------------------------------------------------------------------------
// Boundaries
// ---------------------------------------------------------------------------

/// The first argument of a call is a string with a content.
pub open spec fn first_is_text(t: TreeView, args: usize, content: usize) -> bool {
    &&& t.named_kids(args).len() > 0
    &&& t.kind(t.named_kids(args)[0]) == "interpreted_string_literal"@ || t.kind(t.named_kids(args)[0])
        == "raw_string_literal"@
    &&& t.kid_among(t.named_kids(args)[0], CONTENT_KINDS@) == Some(content)
}

/// A verb that is called with a path on anything but the package `http` is a route
/// for that verb: the key is the verb in capitals and the path.
pub proof fn routes_keep_their_verb(t: TreeView, obj: usize, method: usize, args: usize, content: usize)
    requires
        t.text(obj) != "http"@,
        first_is_text(t, args, content),
        capital_verb(lowercase(t.text(method))) is Some,
    ensures
        server_route(t, obj, method, args) is Some,
        ({
            let p = server_route(t, obj, method, args)->0;
            let verb = capital_verb(lowercase(t.text(method)))->0;
            &&& p.mechanism == "http"@
            &&& p.role == "server"@
            &&& p.key == verb + " "@ + normalized(t.text(content))
            &&& p.line == t.span(method).start_line
            &&& p.col == t.span(method).start_col
            &&& p.confidence == 100
            &&& p.detail == seq![("method"@, verb), ("path"@, normalized(t.text(content)))]
        }),
{
    capital_verbs_hold(lowercase(t.text(method)));
    let p = server_route(t, obj, method, args)->0;
    assert(p.detail =~= seq![
        ("method"@, capital_verb(lowercase(t.text(method)))->0),
        ("path"@, normalized(t.text(content))),
    ]);
}

/// A verb that is called on the package `http` with a path or a URL is a request for
/// that verb.
pub proof fn requests_keep_their_verb(t: TreeView, obj: usize, method: usize, args: usize, content: usize)
    requires
        t.text(obj) == "http"@,
        first_is_text(t, args, content),
        path_like(t.text(content)),
        capital_verb(lowercase(t.text(method))) is Some,
    ensures
        client_request(t, obj, method, args) is Some,
        ({
            let p = client_request(t, obj, method, args)->0;
            let verb = capital_verb(lowercase(t.text(method)))->0;
            &&& p.mechanism == "http"@
            &&& p.role == "client"@
            &&& p.key == verb + " "@ + normalized(t.text(content))
            &&& p.line == t.span(method).start_line
            &&& p.col == t.span(method).start_col
            &&& p.confidence == 85
            &&& p.detail == seq![("method"@, verb), ("path"@, normalized(t.text(content)))]
        }),
{
    reveal_strlit("client");
    reveal_strlit("server");
    assert("client"@[0] != "server"@[0]);
    capital_verbs_hold(lowercase(t.text(method)));
    let p = client_request(t, obj, method, args)->0;
    assert(p.detail =~= seq![
        ("method"@, capital_verb(lowercase(t.text(method)))->0),
        ("path"@, normalized(t.text(content))),
    ]);
}

/// What is no verb, and what has no text for its first argument, is neither a route
/// nor a request; a call on `http` is no route, and a call on anything else no
/// request.
pub proof fn other_calls_are_no_ports(t: TreeView, obj: usize, method: usize, args: usize)
    ensures
        capital_verb(lowercase(t.text(method))) is None ==> server_route(t, obj, method, args) is None
            && client_request(t, obj, method, args) is None,
        first_literal(t, args) is None ==> server_route(t, obj, method, args) is None && client_request(
            t,
            obj,
            method,
            args,
        ) is None,
        t.text(obj) == "http"@ ==> server_route(t, obj, method, args) is None,
        t.text(obj) != "http"@ ==> client_request(t, obj, method, args) is None,
{
    capital_verbs_hold(lowercase(t.text(method)));
}

/// A route and a request for the same path meet on one key exactly where their verbs
/// are the same.
pub proof fn routes_and_requests_meet(
    t: TreeView,
    obj: usize,
    method: usize,
    args: usize,
    content: usize,
    u: TreeView,
    http: usize,
    called: usize,
    given: usize,
    url: usize,
)
    requires
        t.text(obj) != "http"@,
        first_is_text(t, args, content),
        capital_verb(lowercase(t.text(method))) is Some,
        u.text(http) == "http"@,
        first_is_text(u, given, url),
        path_like(u.text(url)),
        capital_verb(lowercase(u.text(called))) is Some,
        normalized(t.text(content)) == normalized(u.text(url)),
    ensures
        (server_route(t, obj, method, args)->0.key == client_request(u, http, called, given)->0.key) <==> lowercase(
            t.text(method),
        ) == lowercase(u.text(called)),
{
    routes_keep_their_verb(t, obj, method, args, content);
    requests_keep_their_verb(u, http, called, given, url);
    verbs_part_keys(
        lowercase(t.text(method)),
        lowercase(u.text(called)),
        normalized(t.text(content)),
        normalized(u.text(url)),
    );
}

/// Routes of different verbs never have the same key.
pub proof fn routes_of_different_verbs_differ(
    t: TreeView,
    obj: usize,
    method: usize,
    args: usize,
    content: usize,
    other_obj: usize,
    other: usize,
    other_args: usize,
    other_content: usize,
)
    requires
        t.text(obj) != "http"@,
        t.text(other_obj) != "http"@,
        first_is_text(t, args, content),
        first_is_text(t, other_args, other_content),
        capital_verb(lowercase(t.text(method))) is Some,
        capital_verb(lowercase(t.text(other))) is Some,
        lowercase(t.text(method)) != lowercase(t.text(other)),
    ensures
        server_route(t, obj, method, args)->0.key != server_route(t, other_obj, other, other_args)->0.key,
{
    routes_keep_their_verb(t, obj, method, args, content);
    routes_keep_their_verb(t, other_obj, other, other_args, other_content);
    verbs_part_keys(
        lowercase(t.text(method)),
        lowercase(t.text(other)),
        normalized(t.text(content)),
        normalized(t.text(other_content)),
    );
}

/// Who publishes or produces asks for a topic; who subscribes serves it. The topic is
/// the key, so that the two meet.
pub proof fn topics_have_two_sides(t: TreeView, method: usize, args: usize, content: usize)
    requires
        first_is_text(t, args, content),
    ensures
        ({
            let name = lowercase(t.text(method));
            let p = queue_port(t, method, args);
            &&& name == "publish"@ || name == "produce"@ ==> p is Some && p->0.role == "client"@ && p->0.confidence == 70
            &&& name == "subscribe"@ ==> p is Some && p->0.role == "server"@ && p->0.confidence == 75
            &&& name != "publish"@ && name != "produce"@ && name != "subscribe"@ ==> p is None
            &&& p is Some ==> p->0.mechanism == "queue"@ && p->0.key == t.text(content) && p->0.line == t.span(
                method,
            ).start_line && p->0.col == t.span(method).start_col && p->0.detail == seq![("topic"@, t.text(content))]
        }),
{
    reveal_strlit("client");
    reveal_strlit("server");
    reveal_strlit("publish");
    reveal_strlit("produce");
    reveal_strlit("subscribe");
    assert("client"@[0] != "server"@[0]);
    assert("publish"@[0] != "subscribe"@[0]);
    assert("produce"@[0] != "subscribe"@[0]);
    let p = queue_port(t, method, args);
    if p is Some {
        assert(p->0.detail =~= seq![("topic"@, t.text(content))]);
    }
}

/// Who executes an activity asks for the one that the second argument names, who
/// registers it serves the one that the first argument names.
pub proof fn activities_have_two_sides(t: TreeView, method: usize, args: usize, name: usize)
    requires
        t.kind(name) == "identifier"@,
    ensures
        ({
            let call = lowercase(t.text(method));
            let p = temporal_port(t, method, args);
            let kids = t.named_kids(args);
            &&& (call == "executeactivity"@ || call == "executelocalactivity"@) && kids.len() > 1 && kids[1] == name ==> p
                is Some && p->0.role == "client"@ && p->0.key == t.text(name)
            &&& call == "registeractivity"@ && kids.len() > 0 && kids[0] == name ==> p is Some && p->0.role
                == "server"@ && p->0.key == t.text(name)
            &&& call != "executeactivity"@ && call != "executelocalactivity"@ && call != "registeractivity"@ ==> p is None
            &&& p is Some ==> p->0.mechanism == "temporal"@ && p->0.confidence == 90 && p->0.line == t.span(
                method,
            ).start_line && p->0.col == t.span(method).start_col && p->0.detail == seq![("activity"@, p->0.key)]
        }),
{
    reveal_strlit("identifier");
    reveal_strlit("interpreted_string_literal");
    reveal_strlit("raw_string_literal");
    reveal_strlit("executeactivity");
    reveal_strlit("executelocalactivity");
    reveal_strlit("registeractivity");
    assert("identifier"@.len() == 10);
    assert("interpreted_string_literal"@.len() == 26);
    assert("raw_string_literal"@.len() == 18);
    assert("executeactivity"@[0] != "registeractivity"@[0]);
    assert("executelocalactivity"@[0] != "registeractivity"@[0]);
    let p = temporal_port(t, method, args);
    if p is Some {
        assert(p->0.detail =~= seq![("activity"@, p->0.key)]);
    }
}

/// A constructor of a generated client tells its service, and nothing else does.
pub proof fn constructors_tell_their_service(service: Seq<char>, callee: Seq<char>)
    ensures
        service.len() > 0 ==> service_of("New"@ + service + "Client"@) == Some(service),
        service_of(callee) matches Some(s) ==> s.len() > 0 && callee == "New"@ + s + "Client"@,
{
    let (a, z) = ("New"@, "Client"@);
    let whole = a + service + z;
    assert(whole.subrange(0, a.len() as int) =~= a);
    let rest = whole.skip(a.len() as int);
    assert(rest =~= service + z);
    assert(rest.subrange(rest.len() - z.len(), rest.len() - z.len() + z.len()) =~= z);
    assert(rest.take(rest.len() - z.len()) =~= service);
    if service_of(callee) is Some {
        let s = service_of(callee)->0;
        let behind = callee.skip(a.len() as int);
        assert(callee =~= a + behind) by {
            assert(callee.subrange(0, a.len() as int) == a);
        }
        assert(behind =~= s + z) by {
            assert(behind.subrange(behind.len() - z.len(), behind.len() - z.len() + z.len()) == z);
        }
        assert(callee =~= a + s + z);
    }
}

/// A call on a variable that was last assigned a client of a service is a remote call
/// of that service.
pub proof fn remote_calls_reach_the_last_client(
    t: TreeView,
    assigns: Seq<Seq<Capture>>,
    hit: Seq<Capture>,
    j: int,
    obj: usize,
    method: usize,
    var: usize,
    callee: usize,
    service: Seq<char>,
)
    requires
        captured(t, hit, OBJ) == Some(obj),
        captured(t, hit, METHOD) == Some(method),
        0 <= j < assigns.len(),
        captured(t, assigns[j], VAR) == Some(var),
        captured(t, assigns[j], CALLEE) == Some(callee),
        service.len() > 0,
        t.text(callee) == "New"@ + service + "Client"@,
        t.text(var) == t.text(obj),
        forall|i: int|
            j < i < assigns.len() && client_of(t, #[trigger] assigns[i]) is Some ==> (client_of(t, assigns[i])->0).0
                != t.text(obj),
    ensures
        rpc_of(t, assigns, hit) is Some,
        ({
            let p = rpc_of(t, assigns, hit)->0;
            &&& p.mechanism == "grpc"@
            &&& p.role == "client"@
            &&& p.key == service + "/"@ + t.text(method)
            &&& p.line == t.span(method).start_line
            &&& p.col == t.span(method).start_col
            &&& p.confidence == 85
            &&& p.detail == seq![("service"@, service), ("method"@, t.text(method))]
        }),
{
    constructors_tell_their_service(service, t.text(callee));
    last_client_counts(t, assigns, t.text(obj), j, assigns.len() as int);
    let p = rpc_of(t, assigns, hit)->0;
    assert(p.detail =~= seq![("service"@, service), ("method"@, t.text(method))]);
}

proof fn last_client_counts(t: TreeView, assigns: Seq<Seq<Capture>>, var: Seq<char>, j: int, n: int)
    requires
        0 <= j < n <= assigns.len(),
        client_of(t, assigns[j]) is Some,
        (client_of(t, assigns[j])->0).0 == var,
        forall|i: int|
            j < i < n && client_of(t, #[trigger] assigns[i]) is Some ==> (client_of(t, assigns[i])->0).0 != var,
    ensures
        client_service(t, assigns, var, n) == Some((client_of(t, assigns[j])->0).1),
    decreases n,
{
    if n - 1 > j {
        last_client_counts(t, assigns, var, j, n - 1);
        assert(client_of(t, assigns[n - 1]) is Some ==> (client_of(t, assigns[n - 1])->0).0 != var);
    }
}

/// A variable that was never assigned a client makes no remote call.
pub proof fn other_variables_make_no_remote_calls(t: TreeView, assigns: Seq<Seq<Capture>>, hit: Seq<Capture>, obj: usize, n: int)
    requires
        captured(t, hit, OBJ) == Some(obj),
        0 <= n <= assigns.len(),
        forall|i: int|
            0 <= i < assigns.len() && client_of(t, #[trigger] assigns[i]) is Some ==> (client_of(t, assigns[i])->0).0
                != t.text(obj),
    ensures
        client_service(t, assigns, t.text(obj), n) is None,
        n == assigns.len() ==> rpc_of(t, assigns, hit) is None,
    decreases n,
{
    if n > 0 {
        other_variables_make_no_remote_calls(t, assigns, hit, obj, n - 1);
        assert(client_of(t, assigns[n - 1]) is Some ==> (client_of(t, assigns[n - 1])->0).0 != t.text(obj));
    }
}

/// The ports of one kind are those of the calls, in their order.
proof fn ports_come_from_calls(port: Port, t: TreeView, hits: Seq<Seq<Capture>>, n: int, p: BoundaryView)
    requires
        0 <= n <= hits.len(),
    ensures
        ports_of(port, t, hits, n).contains(p) <==> exists|k: int|
            0 <= k < n && port_of(port, t, #[trigger] hits[k]) == Some(p),
    decreases n,
{
    if n > 0 {
        ports_come_from_calls(port, t, hits, n - 1, p);
        let a = ports_of(port, t, hits, n - 1);
        let b = ports_of(port, t, hits, n);
        if a.contains(p) {
            let k = choose|k: int| 0 <= k < a.len() && a[k] == p;
            assert(b[k] == p);
        }
        if port_of(port, t, hits[n - 1]) == Some(p) {
            assert(b[b.len() - 1] == p);
        }
        if b.contains(p) {
            let k = choose|k: int| 0 <= k < b.len() && b[k] == p;
            if k < a.len() {
                assert(a[k] == p);
            } else {
                assert(port_of(port, t, hits[n - 1]) == Some(p));
            }
        }
    }
}

proof fn rpcs_come_from_calls(t: TreeView, assigns: Seq<Seq<Capture>>, hits: Seq<Seq<Capture>>, n: int, p: BoundaryView)
    requires
        0 <= n <= hits.len(),
    ensures
        rpcs_of(t, assigns, hits, n).contains(p) <==> exists|k: int|
            0 <= k < n && rpc_of(t, assigns, #[trigger] hits[k]) == Some(p),
    decreases n,
{
    if n > 0 {
        rpcs_come_from_calls(t, assigns, hits, n - 1, p);
        let a = rpcs_of(t, assigns, hits, n - 1);
        let b = rpcs_of(t, assigns, hits, n);
        if a.contains(p) {
            let k = choose|k: int| 0 <= k < a.len() && a[k] == p;
            assert(b[k] == p);
        }
        if rpc_of(t, assigns, hits[n - 1]) == Some(p) {
            assert(b[b.len() - 1] == p);
        }
        if b.contains(p) {
            let k = choose|k: int| 0 <= k < b.len() && b[k] == p;
            if k < a.len() {
                assert(a[k] == p);
            } else {
                assert(rpc_of(t, assigns, hits[n - 1]) == Some(p));
            }
        }
    }
}

/// The ports of a file are exactly those that one of its calls is: a route, a request,
/// a side of a topic or of an activity, or a remote call.
pub proof fn ports_are_those_of_the_calls(t: TreeView, calls: Seq<Seq<Capture>>, assigns: Seq<Seq<Capture>>, p: BoundaryView)
    ensures
        ports_in(t, calls, assigns).contains(p) <==> exists|k: int|
            #![trigger calls[k]]
            0 <= k < calls.len() && (rpc_of(t, assigns, calls[k]) == Some(p) || (captured(t, calls[k], OBJ) is Some
                && captured(t, calls[k], METHOD) is Some && captured(t, calls[k], ARGS) is Some && ({
                let obj = captured(t, calls[k], OBJ)->0;
                let method = captured(t, calls[k], METHOD)->0;
                let args = captured(t, calls[k], ARGS)->0;
                server_route(t, obj, method, args) == Some(p) || client_request(t, obj, method, args) == Some(p)
                    || queue_port(t, method, args) == Some(p) || temporal_port(t, method, args) == Some(p)
            }))),
{
    let n = calls.len() as int;
    ports_come_from_calls(Port::HttpServer, t, calls, n, p);
    ports_come_from_calls(Port::HttpClient, t, calls, n, p);
    ports_come_from_calls(Port::Queue, t, calls, n, p);
    ports_come_from_calls(Port::Temporal, t, calls, n, p);
    rpcs_come_from_calls(t, assigns, calls, n, p);
    let (a, b, c, d, e) = (
        ports_of(Port::HttpServer, t, calls, n),
        ports_of(Port::HttpClient, t, calls, n),
        ports_of(Port::Queue, t, calls, n),
        ports_of(Port::Temporal, t, calls, n),
        rpcs_of(t, assigns, calls, n),
    );
    crate::selection::sum_contains(a, b, p);
    crate::selection::sum_contains(a + b, c, p);
    crate::selection::sum_contains(a + b + c, d, p);
    crate::selection::sum_contains(a + b + c + d, e, p);
}

}
