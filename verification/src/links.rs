//! Linking consumers to providers across service boundaries.
//!
//! Adapters emit one shared node per contract, with an edge from each server
//! that exposes it and from each client that consumes it. Linking adds, for
//! every contract, a directed edge from each consumer to each provider. The
//! confidence of a link is the product of the confidences of its two sides.

use vstd::arithmetic::div_mod::lemma_hoist_over_denominator;
use vstd::prelude::*;

use crate::graph::{Graph, GraphView};
use crate::meta::{lookup, lookup_text, number, stored, stored_then_found, MetaValue, MetaView, Metadata, Noted, ValueView};
use crate::node::{NodeKind, NodeView};
use crate::relation::{Relation, RelationKind, RelationView};
use crate::text::{add_item, copy, same, views};
use crate::values::ONE;

verus! {

/// The confidence an edge carries, in hundred-millionths: whatever number it
/// carries, and one where it carries none.
pub open spec fn confidence_of(m: MetaView) -> int {
    match lookup(m, "confidence"@) {
        Some(v) => match number(v) {
            Some(n) => n,
            None => ONE as int,
        },
        None => ONE as int,
    }
}

/// One side of a contract: who, and how surely, in hundred-millionths.
pub struct Side {
    pub id: String,
    pub confidence: u128,
}

/// The mathematical reading of a side.
pub struct SideView {
    pub id: Seq<char>,
    pub confidence: int,
}

impl View for Side {
    type V = SideView;

    open spec fn view(&self) -> SideView {
        SideView { id: self.id@, confidence: self.confidence as int }
    }
}

/// A contract.
pub struct Contract {
    pub id: String,
    pub mechanism: String,
    pub key: String,
}

/// The mathematical reading of a contract.
pub struct ContractView {
    pub id: Seq<char>,
    pub mechanism: Seq<char>,
    pub key: Seq<char>,
}

impl View for Contract {
    type V = ContractView;

    open spec fn view(&self) -> ContractView {
        ContractView { id: self.id@, mechanism: self.mechanism@, key: self.key@ }
    }
}

/// The sources of the edges of a kind among the first `n` that enter a node.
pub open spec fn sides(relations: Seq<RelationView>, id: Seq<char>, kind: RelationKind, n: int) -> Seq<SideView>
    decreases n,
{
    if n <= 0 || n > relations.len() {
        Seq::empty()
    } else {
        let earlier = sides(relations, id, kind, n - 1);
        let r = relations[n - 1];
        if r.kind == kind && r.target_id == id {
            earlier.push(SideView { id: r.source_id, confidence: confidence_of(r.metadata) })
        } else {
            earlier
        }
    }
}

/// The contracts among the first `n` nodes, in order.
pub open spec fn contracts(nodes: Seq<NodeView>, n: int) -> Seq<ContractView>
    decreases n,
{
    if n <= 0 || n > nodes.len() {
        Seq::empty()
    } else {
        let earlier = contracts(nodes, n - 1);
        let node = nodes[n - 1];
        if node.kind == NodeKind::Boundary {
            earlier.push(
                ContractView {
                    id: node.id,
                    mechanism: lookup_text(node.metadata, "mechanism"@),
                    key: lookup_text(node.metadata, "key"@),
                },
            )
        } else {
            earlier
        }
    }
}

/// Whether an edge links a consumer to a provider through a contract.
pub open spec fn is_link(r: RelationView, consumer: Seq<char>, provider: Seq<char>, contract: Seq<char>) -> bool {
    &&& r.kind == RelationKind::CommunicatesWith
    &&& r.source_id == consumer
    &&& r.target_id == provider
    &&& lookup_text(r.metadata, "boundary_id"@) == contract
}

/// Whether some edge links a consumer to a provider through a contract.
pub open spec fn linked(
    relations: Seq<RelationView>,
    consumer: Seq<char>,
    provider: Seq<char>,
    contract: Seq<char>,
) -> bool {
    exists|i: int| 0 <= i < relations.len() && is_link(#[trigger] relations[i], consumer, provider, contract)
}

/// The product of the confidences of two sides, in hundred-millionths, cut to
/// whole ones.
pub open spec fn product(consumer: SideView, provider: SideView) -> int {
    consumer.confidence * provider.confidence / ONE as int
}

/// A number of hundred-millionths, or the greatest that can be held.
pub open spec fn held(n: int) -> u128 {
    if n <= u128::MAX {
        n as u128
    } else {
        u128::MAX
    }
}

/// The edge that links a consumer to a provider.
pub open spec fn link_edge(contract: ContractView, consumer: SideView, provider: SideView) -> RelationView {
    RelationView {
        source_id: consumer.id,
        target_id: provider.id,
        kind: RelationKind::CommunicatesWith,
        metadata: Seq::<(Seq<char>, ValueView)>::empty().put("mechanism"@, ValueView::Text(contract.mechanism)).put(
            "boundary_id"@,
            ValueView::Text(contract.id),
        ).put("boundary_key"@, ValueView::Text(contract.key)).put(
            "confidence"@,
            ValueView::Product(held(product(consumer, provider))),
        ),
    }
}

/// Whether a pair needs no new link: a service does not communicate with
/// itself, an unsure pair is dropped, and a linked pair stays linked once.
pub open spec fn settled(
    relations: Seq<RelationView>,
    contract: ContractView,
    consumer: SideView,
    provider: SideView,
    min: u64,
) -> bool {
    ||| consumer.id == provider.id
    ||| product(consumer, provider) < min
    ||| linked(relations, consumer.id, provider.id, contract.id)
}

/// The edges after linking one pair.
pub open spec fn link_pair(
    relations: Seq<RelationView>,
    contract: ContractView,
    consumer: SideView,
    provider: SideView,
    min: u64,
) -> Seq<RelationView> {
    if settled(relations, contract, consumer, provider, min) {
        relations
    } else {
        relations.push(link_edge(contract, consumer, provider))
    }
}

/// The edges after linking a consumer to the first `n` providers.
pub open spec fn link_row(
    relations: Seq<RelationView>,
    contract: ContractView,
    consumer: SideView,
    providers: Seq<SideView>,
    min: u64,
    n: int,
) -> Seq<RelationView>
    decreases n,
{
    if n <= 0 || n > providers.len() {
        relations
    } else {
        link_pair(
            link_row(relations, contract, consumer, providers, min, n - 1),
            contract,
            consumer,
            providers[n - 1],
            min,
        )
    }
}

/// The edges after linking the first `n` consumers to every provider.
pub open spec fn link_grid(
    relations: Seq<RelationView>,
    contract: ContractView,
    consumers: Seq<SideView>,
    providers: Seq<SideView>,
    min: u64,
    n: int,
) -> Seq<RelationView>
    decreases n,
{
    if n <= 0 || n > consumers.len() {
        relations
    } else {
        link_row(
            link_grid(relations, contract, consumers, providers, min, n - 1),
            contract,
            consumers[n - 1],
            providers,
            min,
            providers.len() as int,
        )
    }
}

/// The edges after linking the two sides of one contract.
pub open spec fn link_contract(relations: Seq<RelationView>, contract: ContractView, min: u64) -> Seq<RelationView> {
    let consumers = sides(relations, contract.id, RelationKind::Consumes, relations.len() as int);
    let providers = sides(relations, contract.id, RelationKind::Exposes, relations.len() as int);
    link_grid(relations, contract, consumers, providers, min, consumers.len() as int)
}

/// The edges after linking the first `n` contracts.
pub open spec fn link_contracts(relations: Seq<RelationView>, cs: Seq<ContractView>, min: u64, n: int) -> Seq<
    RelationView,
>
    decreases n,
{
    if n <= 0 || n > cs.len() {
        relations
    } else {
        link_contract(link_contracts(relations, cs, min, n - 1), cs[n - 1], min)
    }
}

/// The graph after linking every contract.
pub open spec fn with_links(g: GraphView, min: u64) -> GraphView {
    let cs = contracts(g.nodes, g.nodes.len() as int);
    GraphView { relations: link_contracts(g.relations, cs, min, cs.len() as int), ..g }
}

// ---------------------------------------------------------------------------
// Laws
// ---------------------------------------------------------------------------

/// Whether `b` is `a` followed by links.
pub open spec fn extends(a: Seq<RelationView>, b: Seq<RelationView>) -> bool {
    &&& a.len() <= b.len()
    &&& forall|i: int| 0 <= i < a.len() ==> #[trigger] b[i] == a[i]
    &&& forall|i: int| a.len() <= i < b.len() ==> (#[trigger] b[i]).kind == RelationKind::CommunicatesWith
}

proof fn linked_stays(
    a: Seq<RelationView>,
    b: Seq<RelationView>,
    consumer: Seq<char>,
    provider: Seq<char>,
    contract: Seq<char>,
)
    requires
        extends(a, b),
        linked(a, consumer, provider, contract),
    ensures
        linked(b, consumer, provider, contract),
{
    let i = choose|i: int| 0 <= i < a.len() && is_link(#[trigger] a[i], consumer, provider, contract);
    assert(b[i] == a[i]);
}

proof fn settled_stays(
    a: Seq<RelationView>,
    b: Seq<RelationView>,
    contract: ContractView,
    consumer: SideView,
    provider: SideView,
    min: u64,
)
    requires
        extends(a, b),
        settled(a, contract, consumer, provider, min),
    ensures
        settled(b, contract, consumer, provider, min),
{
    if linked(a, consumer.id, provider.id, contract.id) {
        linked_stays(a, b, consumer.id, provider.id, contract.id);
    }
}

proof fn new_link_is_found(contract: ContractView, consumer: SideView, provider: SideView)
    ensures
        is_link(link_edge(contract, consumer, provider), consumer.id, provider.id, contract.id),
{
    reveal_strlit("boundary_id");
    reveal_strlit("boundary_key");
    reveal_strlit("confidence");
    assert("boundary_id"@.len() == 11);
    assert("boundary_key"@.len() == 12);
    assert("confidence"@.len() == 10);
    let named = Seq::<(Seq<char>, ValueView)>::empty().put("mechanism"@, ValueView::Text(contract.mechanism));
    let through = named.put("boundary_id"@, ValueView::Text(contract.id));
    let keyed = through.put("boundary_key"@, ValueView::Text(contract.key));
    let sure = ValueView::Product(held(product(consumer, provider)));
    stored_then_found(named, "boundary_id"@, ValueView::Text(contract.id), "boundary_id"@);
    stored_then_found(through, "boundary_key"@, ValueView::Text(contract.key), "boundary_id"@);
    stored_then_found(keyed, "confidence"@, sure, "boundary_id"@);
}

proof fn pair_extends(
    relations: Seq<RelationView>,
    contract: ContractView,
    consumer: SideView,
    provider: SideView,
    min: u64,
)
    ensures
        extends(relations, link_pair(relations, contract, consumer, provider, min)),
        settled(link_pair(relations, contract, consumer, provider, min), contract, consumer, provider, min),
{
    let after = link_pair(relations, contract, consumer, provider, min);
    if !settled(relations, contract, consumer, provider, min) {
        new_link_is_found(contract, consumer, provider);
        assert(after[relations.len() as int] == link_edge(contract, consumer, provider));
    }
}

proof fn row_extends(
    relations: Seq<RelationView>,
    contract: ContractView,
    consumer: SideView,
    providers: Seq<SideView>,
    min: u64,
    n: int,
)
    requires
        0 <= n <= providers.len(),
    ensures
        extends(relations, link_row(relations, contract, consumer, providers, min, n)),
        forall|j: int|
            0 <= j < n ==> settled(
                link_row(relations, contract, consumer, providers, min, n),
                contract,
                consumer,
                #[trigger] providers[j],
                min,
            ),
    decreases n,
{
    if n > 0 {
        row_extends(relations, contract, consumer, providers, min, n - 1);
        let before_pair = link_row(relations, contract, consumer, providers, min, n - 1);
        let after = link_row(relations, contract, consumer, providers, min, n);
        pair_extends(before_pair, contract, consumer, providers[n - 1], min);
        assert forall|j: int| 0 <= j < n implies settled(after, contract, consumer, #[trigger] providers[j], min) by {
            if j < n - 1 {
                settled_stays(before_pair, after, contract, consumer, providers[j], min);
            }
        }
    }
}

/// Whether every pair of the two sides of a contract is settled.
pub open spec fn grid_settled(
    relations: Seq<RelationView>,
    contract: ContractView,
    consumers: Seq<SideView>,
    providers: Seq<SideView>,
    min: u64,
    n: int,
) -> bool {
    forall|i: int, j: int|
        0 <= i < n && 0 <= j < providers.len() ==> settled(
            relations,
            contract,
            #[trigger] consumers[i],
            #[trigger] providers[j],
            min,
        )
}

proof fn grid_extends(
    relations: Seq<RelationView>,
    contract: ContractView,
    consumers: Seq<SideView>,
    providers: Seq<SideView>,
    min: u64,
    n: int,
)
    requires
        0 <= n <= consumers.len(),
    ensures
        extends(relations, link_grid(relations, contract, consumers, providers, min, n)),
        grid_settled(
            link_grid(relations, contract, consumers, providers, min, n),
            contract,
            consumers,
            providers,
            min,
            n,
        ),
    decreases n,
{
    if n > 0 {
        grid_extends(relations, contract, consumers, providers, min, n - 1);
        let before_row = link_grid(relations, contract, consumers, providers, min, n - 1);
        let after = link_grid(relations, contract, consumers, providers, min, n);
        row_extends(before_row, contract, consumers[n - 1], providers, min, providers.len() as int);
        assert forall|i: int, j: int| 0 <= i < n && 0 <= j < providers.len() implies settled(
            after,
            contract,
            #[trigger] consumers[i],
            #[trigger] providers[j],
            min,
        ) by {
            if i < n - 1 {
                settled_stays(before_row, after, contract, consumers[i], providers[j], min);
            }
        }
    }
}

proof fn sides_of_prefix(
    a: Seq<RelationView>,
    b: Seq<RelationView>,
    id: Seq<char>,
    kind: RelationKind,
    n: int,
)
    requires
        extends(a, b),
        kind != RelationKind::CommunicatesWith,
        0 <= n <= b.len(),
    ensures
        sides(b, id, kind, n) == sides(a, id, kind, if n <= a.len() { n } else { a.len() as int }),
    decreases n,
{
    if n > 0 {
        sides_of_prefix(a, b, id, kind, n - 1);
        if n <= a.len() {
            assert(b[n - 1] == a[n - 1]);
        }
    }
}

/// The two sides of a contract, before and after links were added.
proof fn sides_stay(a: Seq<RelationView>, b: Seq<RelationView>, id: Seq<char>, kind: RelationKind)
    requires
        extends(a, b),
        kind != RelationKind::CommunicatesWith,
    ensures
        sides(b, id, kind, b.len() as int) == sides(a, id, kind, a.len() as int),
{
    sides_of_prefix(a, b, id, kind, b.len() as int);
}

/// Whether every pair of a contract is settled.
pub open spec fn contract_settled(relations: Seq<RelationView>, contract: ContractView, min: u64) -> bool {
    let consumers = sides(relations, contract.id, RelationKind::Consumes, relations.len() as int);
    let providers = sides(relations, contract.id, RelationKind::Exposes, relations.len() as int);
    grid_settled(relations, contract, consumers, providers, min, consumers.len() as int)
}

proof fn contract_settled_stays(a: Seq<RelationView>, b: Seq<RelationView>, contract: ContractView, min: u64)
    requires
        extends(a, b),
        contract_settled(a, contract, min),
    ensures
        contract_settled(b, contract, min),
{
    sides_stay(a, b, contract.id, RelationKind::Consumes);
    sides_stay(a, b, contract.id, RelationKind::Exposes);
    let consumers = sides(a, contract.id, RelationKind::Consumes, a.len() as int);
    let providers = sides(a, contract.id, RelationKind::Exposes, a.len() as int);
    assert forall|i: int, j: int| 0 <= i < consumers.len() && 0 <= j < providers.len() implies settled(
        b,
        contract,
        #[trigger] consumers[i],
        #[trigger] providers[j],
        min,
    ) by {
        settled_stays(a, b, contract, consumers[i], providers[j], min);
    }
}

proof fn contract_extends(relations: Seq<RelationView>, contract: ContractView, min: u64)
    ensures
        extends(relations, link_contract(relations, contract, min)),
        contract_settled(link_contract(relations, contract, min), contract, min),
{
    let consumers = sides(relations, contract.id, RelationKind::Consumes, relations.len() as int);
    let providers = sides(relations, contract.id, RelationKind::Exposes, relations.len() as int);
    grid_extends(relations, contract, consumers, providers, min, consumers.len() as int);
    let after = link_contract(relations, contract, min);
    sides_stay(relations, after, contract.id, RelationKind::Consumes);
    sides_stay(relations, after, contract.id, RelationKind::Exposes);
}

/// Linking only appends links, and settles every contract.
pub proof fn linking_settles(relations: Seq<RelationView>, cs: Seq<ContractView>, min: u64, n: int)
    requires
        0 <= n <= cs.len(),
    ensures
        extends(relations, link_contracts(relations, cs, min, n)),
        forall|k: int|
            0 <= k < n ==> contract_settled(link_contracts(relations, cs, min, n), #[trigger] cs[k], min),
    decreases n,
{
    if n > 0 {
        linking_settles(relations, cs, min, n - 1);
        let before_last = link_contracts(relations, cs, min, n - 1);
        let after = link_contracts(relations, cs, min, n);
        contract_extends(before_last, cs[n - 1], min);
        assert forall|k: int| 0 <= k < n implies contract_settled(after, #[trigger] cs[k], min) by {
            if k < n - 1 {
                contract_settled_stays(before_last, after, cs[k], min);
            }
        }
    }
}

proof fn settled_row_stays(
    relations: Seq<RelationView>,
    contract: ContractView,
    consumer: SideView,
    providers: Seq<SideView>,
    min: u64,
    n: int,
)
    requires
        0 <= n <= providers.len(),
        forall|j: int| 0 <= j < providers.len() ==> settled(relations, contract, consumer, #[trigger] providers[j], min),
    ensures
        link_row(relations, contract, consumer, providers, min, n) == relations,
    decreases n,
{
    if n > 0 {
        settled_row_stays(relations, contract, consumer, providers, min, n - 1);
        assert(settled(relations, contract, consumer, providers[n - 1], min));
    }
}

proof fn settled_grid_stays(
    relations: Seq<RelationView>,
    contract: ContractView,
    consumers: Seq<SideView>,
    providers: Seq<SideView>,
    min: u64,
    n: int,
)
    requires
        0 <= n <= consumers.len(),
        grid_settled(relations, contract, consumers, providers, min, consumers.len() as int),
    ensures
        link_grid(relations, contract, consumers, providers, min, n) == relations,
    decreases n,
{
    if n > 0 {
        settled_grid_stays(relations, contract, consumers, providers, min, n - 1);
        assert(forall|j: int|
            0 <= j < providers.len() ==> settled(relations, contract, consumers[n - 1], #[trigger] providers[j], min));
        settled_row_stays(relations, contract, consumers[n - 1], providers, min, providers.len() as int);
    }
}

proof fn settled_contracts_stay(relations: Seq<RelationView>, cs: Seq<ContractView>, min: u64, n: int)
    requires
        0 <= n <= cs.len(),
        forall|k: int| 0 <= k < cs.len() ==> contract_settled(relations, #[trigger] cs[k], min),
    ensures
        link_contracts(relations, cs, min, n) == relations,
    decreases n,
{
    if n > 0 {
        settled_contracts_stay(relations, cs, min, n - 1);
        let c = cs[n - 1];
        assert(contract_settled(relations, c, min));
        let consumers = sides(relations, c.id, RelationKind::Consumes, relations.len() as int);
        let providers = sides(relations, c.id, RelationKind::Exposes, relations.len() as int);
        settled_grid_stays(relations, c, consumers, providers, min, consumers.len() as int);
    }
}

/// Linking is idempotent: linking a graph that was just linked, with the same
/// threshold, adds nothing.
pub proof fn linking_is_idempotent(g: GraphView, min: u64)
    ensures
        with_links(with_links(g, min), min) == with_links(g, min),
{
    let cs = contracts(g.nodes, g.nodes.len() as int);
    linking_settles(g.relations, cs, min, cs.len() as int);
    settled_contracts_stay(with_links(g, min).relations, cs, min, cs.len() as int);
}

/// Linking keeps every node, every edge that was there and the metadata, and
/// adds nothing but links.
pub proof fn linking_only_adds_links(g: GraphView, min: u64)
    ensures
        with_links(g, min).nodes == g.nodes,
        with_links(g, min).metadata == g.metadata,
        extends(g.relations, with_links(g, min).relations),
{
    let cs = contracts(g.nodes, g.nodes.len() as int);
    linking_settles(g.relations, cs, min, cs.len() as int);
}

/// After linking, every consumer is linked to every provider of the same
/// contract, save to itself and save where the pair is too unsure.
pub proof fn linking_reaches_every_pair(g: GraphView, min: u64, k: int, i: int, j: int)
    requires
        0 <= k < contracts(g.nodes, g.nodes.len() as int).len(),
        ({
            let c = contracts(g.nodes, g.nodes.len() as int)[k];
            &&& 0 <= i < sides(g.relations, c.id, RelationKind::Consumes, g.relations.len() as int).len()
            &&& 0 <= j < sides(g.relations, c.id, RelationKind::Exposes, g.relations.len() as int).len()
        }),
    ensures
        ({
            let c = contracts(g.nodes, g.nodes.len() as int)[k];
            let consumer = sides(g.relations, c.id, RelationKind::Consumes, g.relations.len() as int)[i];
            let provider = sides(g.relations, c.id, RelationKind::Exposes, g.relations.len() as int)[j];
            consumer.id != provider.id && product(consumer, provider) >= min ==> linked(
                with_links(g, min).relations,
                consumer.id,
                provider.id,
                c.id,
            )
        }),
{
    let cs = contracts(g.nodes, g.nodes.len() as int);
    let c = cs[k];
    let after = with_links(g, min).relations;
    linking_settles(g.relations, cs, min, cs.len() as int);
    assert(contract_settled(after, c, min));
    sides_stay(g.relations, after, c.id, RelationKind::Consumes);
    sides_stay(g.relations, after, c.id, RelationKind::Exposes);
    let consumers = sides(g.relations, c.id, RelationKind::Consumes, g.relations.len() as int);
    let providers = sides(g.relations, c.id, RelationKind::Exposes, g.relations.len() as int);
    assert(settled(after, c, consumers[i], providers[j], min));
}

/// The place of a contract among the contracts of some nodes.
proof fn contract_is_listed(nodes: Seq<NodeView>, k: int, n: int) -> (at: int)
    requires
        0 <= k < n <= nodes.len(),
        nodes[k].kind == NodeKind::Boundary,
    ensures
        0 <= at < contracts(nodes, n).len(),
        contracts(nodes, n)[at].id == nodes[k].id,
    decreases n,
{
    if k == n - 1 {
        contracts(nodes, n - 1).len() as int
    } else {
        contract_is_listed(nodes, k, n - 1)
    }
}

/// The place of an edge among the sides of a contract.
proof fn side_is_listed(relations: Seq<RelationView>, id: Seq<char>, kind: RelationKind, i: int, n: int) -> (at: int)
    requires
        0 <= i < n <= relations.len(),
        relations[i].kind == kind,
        relations[i].target_id == id,
    ensures
        0 <= at < sides(relations, id, kind, n).len(),
        sides(relations, id, kind, n)[at] == (SideView {
            id: relations[i].source_id,
            confidence: confidence_of(relations[i].metadata),
        }),
    decreases n,
{
    if i == n - 1 {
        sides(relations, id, kind, n - 1).len() as int
    } else {
        side_is_listed(relations, id, kind, i, n - 1)
    }
}

/// After linking, whoever consumes a contract is linked to whoever exposes it,
/// save to itself and save where the two edges together are too unsure.
pub proof fn consumers_reach_providers(g: GraphView, min: u64, k: int, i: int, j: int)
    requires
        0 <= k < g.nodes.len(),
        g.nodes[k].kind == NodeKind::Boundary,
        0 <= i < g.relations.len(),
        g.relations[i].kind == RelationKind::Consumes,
        g.relations[i].target_id == g.nodes[k].id,
        0 <= j < g.relations.len(),
        g.relations[j].kind == RelationKind::Exposes,
        g.relations[j].target_id == g.nodes[k].id,
        g.relations[i].source_id != g.relations[j].source_id,
        confidence_of(g.relations[i].metadata) * confidence_of(g.relations[j].metadata) >= min * ONE,
    ensures
        linked(with_links(g, min).relations, g.relations[i].source_id, g.relations[j].source_id, g.nodes[k].id),
{
    let id = g.nodes[k].id;
    let c = contract_is_listed(g.nodes, k, g.nodes.len() as int);
    let a = side_is_listed(g.relations, id, RelationKind::Consumes, i, g.relations.len() as int);
    let b = side_is_listed(g.relations, id, RelationKind::Exposes, j, g.relations.len() as int);
    assert(confidence_of(g.relations[i].metadata) * confidence_of(g.relations[j].metadata) / ONE as int >= min);
    linking_reaches_every_pair(g, min, c, a, b);
}

// ---------------------------------------------------------------------------
// Linking
// ---------------------------------------------------------------------------

/// The confidence an edge carries, in hundred-millionths.
fn confidence(m: &Metadata) -> (r: u128)
    ensures
        r == confidence_of(m@),
{
    match m.get("confidence") {
        Some(v) => match v.as_number() {
            Some(n) => n,
            None => ONE,
        },
        None => ONE,
    }
}

/// The product of two numbers of hundred-millionths, taken apart into whole
/// ones and the rest.
proof fn product_in_parts(ah: int, al: int, bh: int, bl: int)
    ensures
        (ah * ONE + al) * (bh * ONE + bl) / ONE as int == ah * (bh * ONE + bl) + al * bh + al * bl / ONE as int,
{
    let e = ONE as int;
    let b = bh * e + bl;
    assert((ah * e + al) * b == al * bl + (ah * b + al * bh) * e) by (nonlinear_arith)
        requires
            b == bh * e + bl,
    ;
    lemma_hoist_over_denominator(al * bl, ah * b + al * bh, e as nat);
}

/// The product of two numbers of hundred-millionths.
fn times(a: u128, b: u128) -> (r: u128)
    ensures
        r == held(a * b / ONE as int),
{
    let ah: u128 = a / ONE;
    let al: u128 = a % ONE;
    let bh: u128 = b / ONE;
    let bl: u128 = b % ONE;
    proof {
        product_in_parts(ah as int, al as int, bh as int, bl as int);
        assert(0 <= al * bl < ONE * ONE) by (nonlinear_arith)
            requires
                0 <= al < ONE,
                0 <= bl < ONE,
        ;
        assert(0 <= al * bh <= b) by (nonlinear_arith)
            requires
                0 <= al < ONE,
                0 <= bh,
                bh * ONE <= b,
        ;
        assert(0 <= ah * b) by (nonlinear_arith)
            requires
                0 <= ah,
                0 <= b,
        ;
    }
    let low: u128 = al * bl / ONE;
    let middle: u128 = al * bh;
    match ah.checked_mul(b) {
        Some(high) => match high.checked_add(middle) {
            Some(upper) => match upper.checked_add(low) {
                Some(all) => all,
                None => u128::MAX,
            },
            None => u128::MAX,
        },
        None => u128::MAX,
    }
}

/// Tells whether a consumer is linked to a provider through a contract.
fn is_linked(relations: &Vec<Relation>, consumer: &str, provider: &str, contract: &str) -> (r: bool)
    ensures
        r == linked(views(relations@), consumer@, provider@, contract@),
{
    let mut i: usize = 0;
    while i < relations.len()
        invariant
            i <= relations@.len(),
            forall|j: int|
                0 <= j < i ==> !is_link(#[trigger] views(relations@)[j], consumer@, provider@, contract@),
        decreases relations@.len() - i,
    {
        let x = &relations[i];
        assert(views(relations@)[i as int] == x@);
        if x.kind == RelationKind::CommunicatesWith && same(x.source_id.as_str(), consumer) && same(
            x.target_id.as_str(),
            provider,
        ) {
            let through = x.metadata.get_text("boundary_id");
            if same(through.as_str(), contract) {
                return true;
            }
        }
        i += 1;
    }
    false
}

impl Graph {
    /// The sources of the edges of a kind that enter a node, with their
    /// confidences.
    pub fn side(&self, node_id: &str, kind: RelationKind) -> (r: Vec<Side>)
        ensures
            views(r@) == sides(self@.relations, node_id@, kind, self@.relations.len() as int),
    {
        let relations = self.relations();
        let mut out: Vec<Side> = Vec::new();
        let mut i: usize = 0;
        assert(views(out@) =~= Seq::<SideView>::empty());
        while i < relations.len()
            invariant
                i <= relations@.len(),
                views(relations@) == self@.relations,
                views(out@) == sides(self@.relations, node_id@, kind, i as int),
            decreases relations@.len() - i,
        {
            let x = &relations[i];
            assert(self@.relations[i as int] == x@);
            if x.kind == kind && same(x.target_id.as_str(), node_id) {
                add_item(&mut out, Side { id: copy(x.source_id.as_str()), confidence: confidence(&x.metadata) });
            }
            i += 1;
        }
        out
    }

    /// The contracts of the graph, in order.
    pub fn contracts(&self) -> (r: Vec<Contract>)
        ensures
            views(r@) == contracts(self@.nodes, self@.nodes.len() as int),
    {
        let nodes = self.nodes();
        let mut out: Vec<Contract> = Vec::new();
        let mut i: usize = 0;
        assert(views(out@) =~= Seq::<ContractView>::empty());
        while i < nodes.len()
            invariant
                i <= nodes@.len(),
                views(nodes@) == self@.nodes,
                views(out@) == contracts(self@.nodes, i as int),
            decreases nodes@.len() - i,
        {
            let n = &nodes[i];
            assert(self@.nodes[i as int] == n@);
            if n.kind == NodeKind::Boundary {
                add_item(
                    &mut out,
                    Contract {
                        id: copy(n.id.as_str()),
                        mechanism: n.metadata.get_text("mechanism"),
                        key: n.metadata.get_text("key"),
                    },
                );
            }
            i += 1;
        }
        out
    }

    /// Links one pair; tells whether an edge was added.
    fn link_one(&mut self, contract: &Contract, consumer: &Side, provider: &Side, min: u64)
        requires
            old(self).wf(),
        ensures
            final(self).wf(),
            final(self)@ == (GraphView {
                relations: link_pair(old(self)@.relations, contract@, consumer@, provider@, min),
                ..old(self)@
            }),
    {
        if same(consumer.id.as_str(), provider.id.as_str()) {
            return;
        }
        let confidence: u128 = times(consumer.confidence, provider.confidence);
        if confidence < min as u128 {
            return;
        }
        if is_linked(self.relations(), consumer.id.as_str(), provider.id.as_str(), contract.id.as_str()) {
            return;
        }
        let metadata = Metadata::new().with_text("mechanism", contract.mechanism.as_str()).with_text(
            "boundary_id",
            contract.id.as_str(),
        ).with_text("boundary_key", contract.key.as_str()).with("confidence", MetaValue::Product(confidence));
        self.push_relation(
            Relation {
                source_id: copy(consumer.id.as_str()),
                target_id: copy(provider.id.as_str()),
                kind: RelationKind::CommunicatesWith,
                metadata,
            },
        );
    }

    /// Links one consumer to every provider.
    fn link_consumer(&mut self, contract: &Contract, consumer: &Side, providers: &Vec<Side>, min: u64)
        requires
            old(self).wf(),
        ensures
            final(self).wf(),
            final(self)@ == (GraphView {
                relations: link_row(
                    old(self)@.relations,
                    contract@,
                    consumer@,
                    views(providers@),
                    min,
                    providers@.len() as int,
                ),
                ..old(self)@
            }),
    {
        let ghost start = self@;
        let mut j: usize = 0;
        while j < providers.len()
            invariant
                j <= providers@.len(),
                self.wf(),
                self@ == (GraphView {
                    relations: link_row(start.relations, contract@, consumer@, views(providers@), min, j as int),
                    ..start
                }),
            decreases providers@.len() - j,
        {
            assert(views(providers@)[j as int] == providers@[j as int]@);
            self.link_one(contract, consumer, &providers[j], min);
            j += 1;
        }
    }

    /// Links the two sides of one contract.
    fn link_contract(&mut self, contract: &Contract, min: u64)
        requires
            old(self).wf(),
        ensures
            final(self).wf(),
            final(self)@ == (GraphView {
                relations: link_contract(old(self)@.relations, contract@, min),
                ..old(self)@
            }),
    {
        let consumers = self.side(contract.id.as_str(), RelationKind::Consumes);
        let providers = self.side(contract.id.as_str(), RelationKind::Exposes);
        let ghost start = self@;
        let mut i: usize = 0;
        while i < consumers.len()
            invariant
                i <= consumers@.len(),
                self.wf(),
                self@ == (GraphView {
                    relations: link_grid(
                        start.relations,
                        contract@,
                        views(consumers@),
                        views(providers@),
                        min,
                        i as int,
                    ),
                    ..start
                }),
            decreases consumers@.len() - i,
        {
            assert(views(consumers@)[i as int] == consumers@[i as int]@);
            self.link_consumer(contract, &consumers[i], &providers, min);
            i += 1;
        }
    }

    /// Adds an edge from every consumer of a contract to every provider of it.
    ///
    /// `min_confidence`, in hundred-millionths, drops pairs below a threshold.
    /// A pair already linked through the same contract is never linked twice.
    /// Returns the number of edges added.
    pub fn link_boundaries(&mut self, min_confidence: u64) -> (added: usize)
        requires
            old(self).wf(),
        ensures
            final(self).wf(),
            final(self)@ == with_links(old(self)@, min_confidence),
            added == final(self)@.relations.len() - old(self)@.relations.len(),
    {
        let ghost start = self@;
        let before_count: usize = self.relations().len();
        let all = self.contracts();
        let mut k: usize = 0;
        while k < all.len()
            invariant
                k <= all@.len(),
                self.wf(),
                self@ == (GraphView {
                    relations: link_contracts(start.relations, views(all@), min_confidence, k as int),
                    ..start
                }),
            decreases all@.len() - k,
        {
            assert(views(all@)[k as int] == all@[k as int]@);
            self.link_contract(&all[k], min_confidence);
            k += 1;
        }
        proof {
            linking_settles(start.relations, views(all@), min_confidence, all@.len() as int);
        }
        self.relations().len() - before_count
    }
}

/// A link leads from the consumer to the provider and names the contract, its mechanism and
/// its key.
pub proof fn links_name_their_contract(contract: ContractView, consumer: SideView, provider: SideView)
    ensures
        ({
            let r = link_edge(contract, consumer, provider);
            &&& r.kind is CommunicatesWith
            &&& r.source_id == consumer.id
            &&& r.target_id == provider.id
            &&& lookup(r.metadata, "mechanism"@) == Some(ValueView::Text(contract.mechanism))
            &&& lookup(r.metadata, "boundary_id"@) == Some(ValueView::Text(contract.id))
            &&& lookup(r.metadata, "boundary_key"@) == Some(ValueView::Text(contract.key))
            &&& lookup(r.metadata, "confidence"@) == Some(ValueView::Product(held(product(consumer, provider))))
        }),
{
    reveal_strlit("mechanism");
    reveal_strlit("boundary_id");
    reveal_strlit("boundary_key");
    reveal_strlit("confidence");
    assert("mechanism"@.len() == 9 && "boundary_id"@.len() == 11 && "boundary_key"@.len() == 12 && "confidence"@.len() == 10);
    let m0: MetaView = Seq::empty();
    let v1 = ValueView::Text(contract.mechanism);
    let v2 = ValueView::Text(contract.id);
    let v3 = ValueView::Text(contract.key);
    let v4 = ValueView::Product(held(product(consumer, provider)));
    let m1 = stored(m0, "mechanism"@, v1);
    let m2 = stored(m1, "boundary_id"@, v2);
    let m3 = stored(m2, "boundary_key"@, v3);
    let m4 = stored(m3, "confidence"@, v4);
    assert forall|key: Seq<char>| #[trigger] lookup(m4, key) == lookup(m4, key) implies lookup(m4, key) == (if key
        == "confidence"@ {
        Some(v4)
    } else if key == "boundary_key"@ {
        Some(v3)
    } else if key == "boundary_id"@ {
        Some(v2)
    } else if key == "mechanism"@ {
        Some(v1)
    } else {
        lookup(m0, key)
    }) by {
        stored_then_found(m0, "mechanism"@, v1, key);
        stored_then_found(m1, "boundary_id"@, v2, key);
        stored_then_found(m2, "boundary_key"@, v3, key);
        stored_then_found(m3, "confidence"@, v4, key);
    }
}

/// Nothing is linked to itself, below the least confidence or twice; any other pair gets one
/// link more.
pub proof fn pairs_are_linked_once(relations: Seq<RelationView>, contract: ContractView, consumer: SideView, provider: SideView, min: u64)
    ensures
        consumer.id == provider.id ==> link_pair(relations, contract, consumer, provider, min) == relations,
        (consumer.confidence * provider.confidence / (ONE as int)) < min ==> link_pair(
            relations,
            contract,
            consumer,
            provider,
            min,
        ) == relations,
        linked(relations, consumer.id, provider.id, contract.id) ==> link_pair(relations, contract, consumer, provider, min)
            == relations,
        consumer.id != provider.id && (consumer.confidence * provider.confidence / (ONE as int)) >= min && !linked(
            relations,
            consumer.id,
            provider.id,
            contract.id,
        ) ==> link_pair(relations, contract, consumer, provider, min) == relations.push(
            link_edge(contract, consumer, provider),
        ),
{
}

/// The sides of a contract are the sources of the edges of a kind that enter it, each with
/// the confidence of its edge.
pub proof fn sides_are_the_sources(relations: Seq<RelationView>, id: Seq<char>, kind: RelationKind, n: int, s: SideView)
    requires
        0 <= n <= relations.len(),
    ensures
        sides(relations, id, kind, n).contains(s) <==> exists|j: int|
            0 <= j < n && (#[trigger] relations[j]).kind == kind && relations[j].target_id == id && relations[j].source_id
                == s.id && confidence_of(relations[j].metadata) == s.confidence,
    decreases n,
{
    if n > 0 {
        sides_are_the_sources(relations, id, kind, n - 1, s);
        let earlier = sides(relations, id, kind, n - 1);
        let all = sides(relations, id, kind, n);
        let r = relations[n - 1];
        if r.kind == kind && r.target_id == id {
            assert(all[earlier.len() as int] == SideView { id: r.source_id, confidence: confidence_of(r.metadata) });
            if earlier.contains(s) {
                let i = choose|i: int| 0 <= i < earlier.len() && earlier[i] == s;
                assert(all[i] == s);
            }
        }
    }
}

/// The contracts of a graph are its boundaries, by their mechanism and key.
pub proof fn contracts_are_the_boundaries(nodes: Seq<NodeView>, n: int, c: ContractView)
    requires
        0 <= n <= nodes.len(),
    ensures
        contracts(nodes, n).contains(c) <==> exists|j: int|
            0 <= j < n && (#[trigger] nodes[j]).kind is Boundary && nodes[j].id == c.id && lookup_text(
                nodes[j].metadata,
                "mechanism"@,
            ) == c.mechanism && lookup_text(nodes[j].metadata, "key"@) == c.key,
    decreases n,
{
    if n > 0 {
        contracts_are_the_boundaries(nodes, n - 1, c);
        let earlier = contracts(nodes, n - 1);
        let all = contracts(nodes, n);
        let node = nodes[n - 1];
        if node.kind == NodeKind::Boundary {
            assert(all[earlier.len() as int].id == node.id);
            assert(all[earlier.len() as int].mechanism == lookup_text(node.metadata, "mechanism"@));
            if earlier.contains(c) {
                let i = choose|i: int| 0 <= i < earlier.len() && earlier[i] == c;
                assert(all[i] == c);
            }
            if node.id == c.id && lookup_text(node.metadata, "mechanism"@) == c.mechanism && lookup_text(
                node.metadata,
                "key"@,
            ) == c.key {
                assert(all[earlier.len() as int] == c);
            }
        }
    }
}

}
