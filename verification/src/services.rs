//! What two services promise together: a server and a client that were read
//! apart, each with its own way to write a route, are linked once their graphs
//! are merged.

use vstd::prelude::*;

use crate::adapter::{boundary_edge, boundary_node, ports_of_one_contract_meet, with_boundary};
use crate::boundaries::{normalized, BoundaryView};
use crate::graph::{ids, GraphView};
use crate::ids::id_of_boundary;
use crate::links::{confidence_of, consumers_reach_providers, linked, with_links};
use crate::merge::{joining_keeps_nodes, merged};
use crate::meta::{stored_then_found, ValueView};
use crate::node::NodeKind;
use crate::routes::{route, spelled_well, spellings_meet, Segment};
use crate::text::{all_ascii, ascii_lowercase, letter_case_does_not_matter, position_is_first, uppercase};

verus! {

/// Whether the id of a contract is free in a graph, or that of a contract.
pub open spec fn open_to(g: GraphView, id: Seq<char>) -> bool {
    forall|i: int| 0 <= i < g.nodes.len() && (#[trigger] g.nodes[i]).id == id ==> g.nodes[i].kind == NodeKind::Boundary
}

/// The confidence of a port is that of its edge.
proof fn edge_is_as_sure(enclosing_id: Seq<char>, b: BoundaryView)
    ensures
        confidence_of(boundary_edge(enclosing_id, b).metadata) == b.confidence * 1_000_000,
{
    let none = Seq::<(Seq<char>, ValueView)>::empty();
    stored_then_found(none, "confidence"@, ValueView::Percent(b.confidence), "confidence"@);
}

/// After a port was added there is a contract with its id.
proof fn contract_is_there(g: GraphView, enclosing_id: Seq<char>, b: BoundaryView) -> (k: int)
    requires
        open_to(g, id_of_boundary(b.mechanism, b.key)),
    ensures
        0 <= k < with_boundary(g, enclosing_id, b).nodes.len(),
        with_boundary(g, enclosing_id, b).nodes[k].id == id_of_boundary(b.mechanism, b.key),
        with_boundary(g, enclosing_id, b).nodes[k].kind == NodeKind::Boundary,
{
    let id = id_of_boundary(b.mechanism, b.key);
    let all = ids(g.nodes);
    position_is_first(all, id, 0);
    if g.has(id) {
        let k = choose|k: int| 0 <= k < all.len() && #[trigger] all[k] == id;
        assert(all[k] == g.nodes[k].id);
        k
    } else {
        assert(with_boundary(g, enclosing_id, b).nodes[g.nodes.len() as int] == boundary_node(b));
        g.nodes.len() as int
    }
}

/// A client is linked to a server of the same contract once the graph of the
/// one is merged into that of the other, whichever way round.
pub proof fn merged_services_are_linked(
    a: GraphView,
    b: GraphView,
    server_id: Seq<char>,
    client_id: Seq<char>,
    server: BoundaryView,
    client: BoundaryView,
    min: u64,
)
    requires
        server.role == "server"@,
        client.role != "server"@,
        server.mechanism == client.mechanism,
        server.key == client.key,
        server_id != client_id,
        server.confidence as int * client.confidence as int * 10_000 >= min,
        open_to(a, id_of_boundary(server.mechanism, server.key)),
        open_to(b, id_of_boundary(client.mechanism, client.key)),
    ensures
        ({
            let left = with_boundary(a, server_id, server);
            let right = with_boundary(b, client_id, client);
            let id = id_of_boundary(server.mechanism, server.key);
            &&& linked(with_links(merged(left, right), min).relations, client_id, server_id, id)
            &&& linked(with_links(merged(right, left), min).relations, client_id, server_id, id)
        }),
{
    ports_of_one_contract_meet(server, client);
    let left = with_boundary(a, server_id, server);
    let right = with_boundary(b, client_id, client);
    edge_is_as_sure(server_id, server);
    edge_is_as_sure(client_id, client);
    let (x, y) = (server.confidence as int, client.confidence as int);
    assert(y * 1_000_000 * (x * 1_000_000) == x * y * 1_000_000_000_000) by (nonlinear_arith);
    let m = left.relations.len() as int;
    let n = right.relations.len() as int;
    assert(left.relations[m - 1] == boundary_edge(server_id, server));
    assert(right.relations[n - 1] == boundary_edge(client_id, client));
    let k = contract_is_there(a, server_id, server);
    let one = merged(left, right);
    joining_keeps_nodes(left, right.nodes, right.nodes.len() as int);
    assert(one.nodes[k] == left.nodes[k]);
    assert(one.relations[m - 1] == left.relations[m - 1]);
    assert(one.relations[m + n - 1] == right.relations[n - 1]);
    consumers_reach_providers(one, min, k, m + n - 1, m - 1);
    let l = contract_is_there(b, client_id, client);
    let other = merged(right, left);
    joining_keeps_nodes(right, left.nodes, left.nodes.len() as int);
    assert(other.nodes[l] == right.nodes[l]);
    assert(other.relations[n - 1] == right.relations[n - 1]);
    assert(other.relations[n + m - 1] == left.relations[m - 1]);
    consumers_reach_providers(other, min, l, n - 1, n + m - 1);
}

/// The key of a route for a verb, whose letters are written as capitals.
pub open spec fn http_key(verb: Seq<char>, path: Seq<char>) -> Seq<char> {
    uppercase(verb) + " "@ + normalized(path)
}

/// Two sides that write the verb of a route in different letter cases meet on
/// one key.
pub proof fn verbs_meet(declared: Seq<char>, called: Seq<char>, path: Seq<char>)
    requires
        all_ascii(declared),
        all_ascii(called),
        ascii_lowercase(declared) == ascii_lowercase(called),
    ensures
        http_key(declared, path) == http_key(called, path),
{
    letter_case_does_not_matter(declared, called);
}

/// A server that declares a route and a client that calls it are linked by
/// merging their graphs, however each of the two writes the parameters and the
/// letters of the verb.
pub proof fn routes_link_services(
    a: GraphView,
    b: GraphView,
    server_id: Seq<char>,
    client_id: Seq<char>,
    server: BoundaryView,
    client: BoundaryView,
    declared_verb: Seq<char>,
    called_verb: Seq<char>,
    declared: Seq<Segment>,
    called: Seq<Segment>,
    min: u64,
)
    requires
        server.role == "server"@,
        client.role != "server"@,
        server.mechanism == client.mechanism,
        server.key == http_key(declared_verb, route(declared)),
        client.key == http_key(called_verb, route(called)),
        all_ascii(declared_verb),
        all_ascii(called_verb),
        ascii_lowercase(declared_verb) == ascii_lowercase(called_verb),
        declared.len() > 0,
        declared.len() == called.len(),
        forall|i: int| 0 <= i < declared.len() ==> spelled_well(#[trigger] declared[i]),
        forall|i: int| 0 <= i < called.len() ==> spelled_well(#[trigger] called[i]),
        forall|i: int|
            0 <= i < declared.len() ==> ((#[trigger] declared[i]).0 is Literal) == (called[i].0 is Literal) && (
            declared[i].0 is Literal ==> declared[i].1 == called[i].1),
        server_id != client_id,
        server.confidence as int * client.confidence as int * 10_000 >= min,
        open_to(a, id_of_boundary(server.mechanism, server.key)),
        open_to(b, id_of_boundary(client.mechanism, client.key)),
    ensures
        linked(
            with_links(
                merged(with_boundary(a, server_id, server), with_boundary(b, client_id, client)),
                min,
            ).relations,
            client_id,
            server_id,
            id_of_boundary(server.mechanism, server.key),
        ),
{
    spellings_meet(declared, called);
    verbs_meet(declared_verb, called_verb, route(declared));
    merged_services_are_linked(a, b, server_id, client_id, server, client, min);
}

}
