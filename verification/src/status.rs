//! How far a resolver got.

use vstd::prelude::*;

use crate::text::same;

verus! {

/// The key under which a graph's metadata keeps its resolver status.
pub const RESOLVER_STATUS_KEY: &'static str = "resolver_status";

/// How far a resolver got, from best to worst.
#[derive(Clone, Copy, Debug, PartialEq, Eq, Structural, Hash)]
pub enum ResolverStatus {
    Complete,
    Degraded,
    Unavailable,
}

impl ResolverStatus {
    /// The text stored in metadata.
    pub open spec fn name(self) -> Seq<char> {
        match self {
            ResolverStatus::Complete => "ok"@,
            ResolverStatus::Degraded => "degraded"@,
            ResolverStatus::Unavailable => "unavailable"@,
        }
    }

    /// The text stored in metadata.
    pub fn as_str(self) -> (r: &'static str)
        ensures
            r@ == self.name(),
    {
        match self {
            ResolverStatus::Complete => "ok",
            ResolverStatus::Degraded => "degraded",
            ResolverStatus::Unavailable => "unavailable",
        }
    }

    /// The status a text names; `Unavailable` for any other text.
    pub open spec fn named(s: Seq<char>) -> ResolverStatus {
        if s == "ok"@ {
            ResolverStatus::Complete
        } else if s == "degraded"@ {
            ResolverStatus::Degraded
        } else {
            ResolverStatus::Unavailable
        }
    }

    /// Reads a status from its text; anything unknown reads as `Unavailable`.
    pub fn coerce(s: &str) -> (r: ResolverStatus)
        ensures
            r == ResolverStatus::named(s@),
    {
        if same(s, "ok") {
            ResolverStatus::Complete
        } else if same(s, "degraded") {
            ResolverStatus::Degraded
        } else {
            ResolverStatus::Unavailable
        }
    }

    /// The worse of two statuses.
    pub open spec fn worse(a: ResolverStatus, b: ResolverStatus) -> ResolverStatus {
        if a == ResolverStatus::Unavailable || b == ResolverStatus::Unavailable {
            ResolverStatus::Unavailable
        } else if a == ResolverStatus::Degraded || b == ResolverStatus::Degraded {
            ResolverStatus::Degraded
        } else {
            ResolverStatus::Complete
        }
    }

    /// Computes the worse of two statuses.
    pub fn combine(a: ResolverStatus, b: ResolverStatus) -> (r: ResolverStatus)
        ensures
            r == ResolverStatus::worse(a, b),
    {
        if a == ResolverStatus::Unavailable || b == ResolverStatus::Unavailable {
            ResolverStatus::Unavailable
        } else if a == ResolverStatus::Degraded || b == ResolverStatus::Degraded {
            ResolverStatus::Degraded
        } else {
            ResolverStatus::Complete
        }
    }
}

/// Combining is commutative, and a status combined with itself stays.
pub proof fn combine_is_symmetric(a: ResolverStatus, b: ResolverStatus)
    ensures
        ResolverStatus::worse(a, b) == ResolverStatus::worse(b, a),
        ResolverStatus::worse(a, a) == a,
{
}

/// A status is read back from its own text.
pub proof fn status_text_round_trip(a: ResolverStatus)
    ensures
        ResolverStatus::named(a.name()) == a,
{
    reveal_strlit("ok");
    assert("ok"@.len() == 2 && "ok"@[0] == 'o' && "ok"@[1] == 'k');
    reveal_strlit("degraded");
    assert("degraded"@.len() == 8 && "degraded"@[0] == 'd' && "degraded"@[1] == 'e' && "degraded"@[3] == 'r');
    reveal_strlit("unavailable");
    assert("unavailable"@.len() == 11 && "unavailable"@[0] == 'u' && "unavailable"@[1] == 'n' && "unavailable"@[3] == 'v');
}

/// The worse of two statuses is one of them, and none of them is worse: unavailable is worse
/// than degraded, and degraded worse than complete.
pub proof fn the_worse_status_counts(a: ResolverStatus, b: ResolverStatus)
    ensures
        ResolverStatus::worse(a, b) == a || ResolverStatus::worse(a, b) == b,
        a is Unavailable || b is Unavailable <==> ResolverStatus::worse(a, b) is Unavailable,
        a is Complete && b is Complete <==> ResolverStatus::worse(a, b) is Complete,
        ResolverStatus::worse(a, a) == a,
{
}

}
