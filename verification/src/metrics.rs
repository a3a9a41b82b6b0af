//! Counters of a resolve pass.
//!
//! Without them a fast run that built almost no edge looks like a fast run that
//! resolved everything.

use vstd::prelude::*;

use crate::meta::{lookup, stored, stored_then_found, MetaValue, MetaView, Metadata, Noted, ValueView};
use crate::strings::{decimal, decimal_text};
use crate::text::copy;

verus! {

/// The key under which a graph's metadata keeps the counters.
pub const RESOLVER_METRICS_KEY: &'static str = "resolver_metrics";

/// Counters of a resolve pass.
#[derive(Clone, Copy, Debug, PartialEq, Eq, Structural)]
pub struct ResolverMetrics {
    /// Positions handed to the resolver, one per place of use.
    pub queries: u64,
    /// Queries that returned a definition.
    pub resolved: u64,
    /// Definitions bound to a node of the graph.
    pub internal: u64,
    /// Definitions that became an external symbol.
    pub external: u64,
    /// Queries that gave nothing.
    pub unresolved: u64,
    /// Microseconds spent resolving.
    pub micros: u64,
}

impl ResolverMetrics {
    /// All counters zero.
    pub open spec fn zero() -> ResolverMetrics {
        ResolverMetrics { queries: 0, resolved: 0, internal: 0, external: 0, unresolved: 0, micros: 0 }
    }

    /// All counters zero.
    pub fn new() -> (r: ResolverMetrics)
        ensures
            r == ResolverMetrics::zero(),
    {
        ResolverMetrics { queries: 0, resolved: 0, internal: 0, external: 0, unresolved: 0, micros: 0 }
    }

    /// Whether the sums of two passes fit their counters.
    pub open spec fn fits(self, other: ResolverMetrics) -> bool {
        &&& self.queries + other.queries <= u64::MAX
        &&& self.resolved + other.resolved <= u64::MAX
        &&& self.internal + other.internal <= u64::MAX
        &&& self.external + other.external <= u64::MAX
        &&& self.unresolved + other.unresolved <= u64::MAX
        &&& self.micros + other.micros <= u64::MAX
    }

    /// The sum of two passes.
    pub open spec fn plus(self, other: ResolverMetrics) -> ResolverMetrics {
        ResolverMetrics {
            queries: (self.queries + other.queries) as u64,
            resolved: (self.resolved + other.resolved) as u64,
            internal: (self.internal + other.internal) as u64,
            external: (self.external + other.external) as u64,
            unresolved: (self.unresolved + other.unresolved) as u64,
            micros: (self.micros + other.micros) as u64,
        }
    }

    /// Adds the counters of another pass to these.
    pub fn merge(&mut self, other: &ResolverMetrics)
        requires
            old(self).fits(*other),
        ensures
            *final(self) == old(self).plus(*other),
    {
        self.queries = self.queries + other.queries;
        self.resolved = self.resolved + other.resolved;
        self.internal = self.internal + other.internal;
        self.external = self.external + other.external;
        self.unresolved = self.unresolved + other.unresolved;
        self.micros = self.micros + other.micros;
    }

    /// The counters in words.
    pub fn repr(&self) -> (r: String)
        ensures
            r@ == "ResolverMetrics(queries="@ + decimal(self.queries as nat) + ", resolved="@ + decimal(
                self.resolved as nat,
            ) + ", internal="@ + decimal(self.internal as nat) + ", external="@ + decimal(self.external as nat)
                + ", unresolved="@ + decimal(self.unresolved as nat) + ")"@,
    {
        let mut s = copy("ResolverMetrics(queries=");
        s.append(decimal_text(self.queries).as_str());
        s.append(", resolved=");
        s.append(decimal_text(self.resolved).as_str());
        s.append(", internal=");
        s.append(decimal_text(self.internal).as_str());
        s.append(", external=");
        s.append(decimal_text(self.external).as_str());
        s.append(", unresolved=");
        s.append(decimal_text(self.unresolved).as_str());
        s.append(")");
        s
    }

    /// The counters under their names.
    pub open spec fn entries(self) -> MetaView {
        Seq::<(Seq<char>, ValueView)>::empty()
            .put("queries"@, ValueView::Number(self.queries))
            .put("resolved"@, ValueView::Number(self.resolved))
            .put("internal"@, ValueView::Number(self.internal))
            .put("external"@, ValueView::Number(self.external))
            .put("unresolved"@, ValueView::Number(self.unresolved))
    }

    /// The counters under their names, in a fixed order.
    pub fn as_dict(&self) -> (r: Metadata)
        ensures
            r@ == self.entries(),
    {
        Metadata::new()
            .with("queries", MetaValue::Number(self.queries))
            .with("resolved", MetaValue::Number(self.resolved))
            .with("internal", MetaValue::Number(self.internal))
            .with("external", MetaValue::Number(self.external))
            .with("unresolved", MetaValue::Number(self.unresolved))
    }
}

/// Merging passes is commutative.
pub proof fn merge_order_is_free(a: ResolverMetrics, b: ResolverMetrics)
    ensures
        a.plus(b) == b.plus(a),
        a.plus(ResolverMetrics::zero()) == a,
{
}

/// Merged counters are the sums of both, each for itself; nothing changes by merging none.
pub proof fn merged_counters_are_sums(a: ResolverMetrics, b: ResolverMetrics)
    requires
        a.fits(b),
    ensures
        a.plus(b).queries == a.queries + b.queries,
        a.plus(b).resolved == a.resolved + b.resolved,
        a.plus(b).internal == a.internal + b.internal,
        a.plus(b).external == a.external + b.external,
        a.plus(b).unresolved == a.unresolved + b.unresolved,
        a.plus(b).micros == a.micros + b.micros,
        a.plus(ResolverMetrics::zero()) == a,
{
}

/// Each counter is found under its name.
pub proof fn counters_are_found_by_name(m: ResolverMetrics)
    ensures
        lookup(m.entries(), "queries"@) == Some(ValueView::Number(m.queries)),
        lookup(m.entries(), "resolved"@) == Some(ValueView::Number(m.resolved)),
        lookup(m.entries(), "internal"@) == Some(ValueView::Number(m.internal)),
        lookup(m.entries(), "external"@) == Some(ValueView::Number(m.external)),
        lookup(m.entries(), "unresolved"@) == Some(ValueView::Number(m.unresolved)),
{
    reveal_strlit("queries");
    reveal_strlit("resolved");
    reveal_strlit("internal");
    reveal_strlit("external");
    reveal_strlit("unresolved");
    assert("queries"@.len() == 7 && "resolved"@.len() == 8 && "internal"@.len() == 8 && "external"@.len() == 8
        && "unresolved"@.len() == 10);
    assert("resolved"@[0] != "internal"@[0] && "resolved"@[0] != "external"@[0] && "internal"@[0] != "external"@[0]);
    let m0: MetaView = Seq::empty();
    let v1 = ValueView::Number(m.queries);
    let v2 = ValueView::Number(m.resolved);
    let v3 = ValueView::Number(m.internal);
    let v4 = ValueView::Number(m.external);
    let v5 = ValueView::Number(m.unresolved);
    let m1 = stored(m0, "queries"@, v1);
    let m2 = stored(m1, "resolved"@, v2);
    let m3 = stored(m2, "internal"@, v3);
    let m4 = stored(m3, "external"@, v4);
    let m5 = stored(m4, "unresolved"@, v5);
    assert forall|key: Seq<char>| #[trigger] lookup(m5, key) == lookup(m5, key) implies lookup(m5, key) == (if key
        == "unresolved"@ {
        Some(v5)
    } else if key == "external"@ {
        Some(v4)
    } else if key == "internal"@ {
        Some(v3)
    } else if key == "resolved"@ {
        Some(v2)
    } else if key == "queries"@ {
        Some(v1)
    } else {
        lookup(m0, key)
    }) by {
        stored_then_found(m0, "queries"@, v1, key);
        stored_then_found(m1, "resolved"@, v2, key);
        stored_then_found(m2, "internal"@, v3, key);
        stored_then_found(m3, "external"@, v4, key);
        stored_then_found(m4, "unresolved"@, v5, key);
    }
}

}
