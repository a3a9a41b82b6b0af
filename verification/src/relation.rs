//! Graph edges.

use vstd::prelude::*;

use crate::meta::{MetaView, Metadata};
use crate::text::{copy, same};

verus! {

/// What an edge says.
#[derive(Clone, Copy, Debug, PartialEq, Eq, Structural, Hash)]
pub enum RelationKind {
    Contains,
    Declares,
    Imports,
    ResolvesTo,
    Calls,
    InheritsFrom,
    HasType,
    References,
    DependsOn,
    Exposes,
    Consumes,
    CommunicatesWith,
}

impl RelationKind {
    /// The text of the kind.
    pub open spec fn name(self) -> Seq<char> {
        match self {
            RelationKind::Contains => "contains"@,
            RelationKind::Declares => "declares"@,
            RelationKind::Imports => "imports"@,
            RelationKind::ResolvesTo => "resolves_to"@,
            RelationKind::Calls => "calls"@,
            RelationKind::InheritsFrom => "inherits_from"@,
            RelationKind::HasType => "has_type"@,
            RelationKind::References => "references"@,
            RelationKind::DependsOn => "depends_on"@,
            RelationKind::Exposes => "exposes"@,
            RelationKind::Consumes => "consumes"@,
            RelationKind::CommunicatesWith => "communicates_with"@,
        }
    }

    /// The text of the kind.
    pub fn as_str(self) -> (r: &'static str)
        ensures
            r@ == self.name(),
    {
        match self {
            RelationKind::Contains => "contains",
            RelationKind::Declares => "declares",
            RelationKind::Imports => "imports",
            RelationKind::ResolvesTo => "resolves_to",
            RelationKind::Calls => "calls",
            RelationKind::InheritsFrom => "inherits_from",
            RelationKind::HasType => "has_type",
            RelationKind::References => "references",
            RelationKind::DependsOn => "depends_on",
            RelationKind::Exposes => "exposes",
            RelationKind::Consumes => "consumes",
            RelationKind::CommunicatesWith => "communicates_with",
        }
    }

    /// The kind a text names.
    pub open spec fn named(s: Seq<char>) -> Option<RelationKind> {
        if s == "contains"@ {
            Some(RelationKind::Contains)
        } else if s == "declares"@ {
            Some(RelationKind::Declares)
        } else if s == "imports"@ {
            Some(RelationKind::Imports)
        } else if s == "resolves_to"@ {
            Some(RelationKind::ResolvesTo)
        } else if s == "calls"@ {
            Some(RelationKind::Calls)
        } else if s == "inherits_from"@ {
            Some(RelationKind::InheritsFrom)
        } else if s == "has_type"@ {
            Some(RelationKind::HasType)
        } else if s == "references"@ {
            Some(RelationKind::References)
        } else if s == "depends_on"@ {
            Some(RelationKind::DependsOn)
        } else if s == "exposes"@ {
            Some(RelationKind::Exposes)
        } else if s == "consumes"@ {
            Some(RelationKind::Consumes)
        } else if s == "communicates_with"@ {
            Some(RelationKind::CommunicatesWith)
        } else {
            None
        }
    }

    /// Reads a kind from its text.
    pub fn parse(value: &str) -> (r: Option<RelationKind>)
        ensures
            r == RelationKind::named(value@),
    {
        if same(value, "contains") {
            Some(RelationKind::Contains)
        } else if same(value, "declares") {
            Some(RelationKind::Declares)
        } else if same(value, "imports") {
            Some(RelationKind::Imports)
        } else if same(value, "resolves_to") {
            Some(RelationKind::ResolvesTo)
        } else if same(value, "calls") {
            Some(RelationKind::Calls)
        } else if same(value, "inherits_from") {
            Some(RelationKind::InheritsFrom)
        } else if same(value, "has_type") {
            Some(RelationKind::HasType)
        } else if same(value, "references") {
            Some(RelationKind::References)
        } else if same(value, "depends_on") {
            Some(RelationKind::DependsOn)
        } else if same(value, "exposes") {
            Some(RelationKind::Exposes)
        } else if same(value, "consumes") {
            Some(RelationKind::Consumes)
        } else if same(value, "communicates_with") {
            Some(RelationKind::CommunicatesWith)
        } else {
            None
        }
    }

}

/// Every kind is read back from its own text.
pub proof fn relation_kind_round_trip(kind: RelationKind)
    ensures
        RelationKind::named(kind.name()) == Some(kind),
{
    reveal_strlit("contains");
    assert("contains"@.len() == 8 && "contains"@[0] == 'c' && "contains"@[1] == 'o' && "contains"@[3] == 't');
    reveal_strlit("declares");
    assert("declares"@.len() == 8 && "declares"@[0] == 'd' && "declares"@[1] == 'e' && "declares"@[3] == 'l');
    reveal_strlit("imports");
    assert("imports"@.len() == 7 && "imports"@[0] == 'i' && "imports"@[1] == 'm' && "imports"@[3] == 'o');
    reveal_strlit("resolves_to");
    assert("resolves_to"@.len() == 11 && "resolves_to"@[0] == 'r' && "resolves_to"@[1] == 'e' && "resolves_to"@[3] == 'o');
    reveal_strlit("calls");
    assert("calls"@.len() == 5 && "calls"@[0] == 'c' && "calls"@[1] == 'a' && "calls"@[3] == 'l');
    reveal_strlit("inherits_from");
    assert("inherits_from"@.len() == 13 && "inherits_from"@[0] == 'i' && "inherits_from"@[1] == 'n' && "inherits_from"@[3] == 'e');
    reveal_strlit("has_type");
    assert("has_type"@.len() == 8 && "has_type"@[0] == 'h' && "has_type"@[1] == 'a' && "has_type"@[3] == '_');
    reveal_strlit("references");
    assert("references"@.len() == 10 && "references"@[0] == 'r' && "references"@[1] == 'e' && "references"@[3] == 'e');
    reveal_strlit("depends_on");
    assert("depends_on"@.len() == 10 && "depends_on"@[0] == 'd' && "depends_on"@[1] == 'e' && "depends_on"@[3] == 'e');
    reveal_strlit("exposes");
    assert("exposes"@.len() == 7 && "exposes"@[0] == 'e' && "exposes"@[1] == 'x' && "exposes"@[3] == 'o');
    reveal_strlit("consumes");
    assert("consumes"@.len() == 8 && "consumes"@[0] == 'c' && "consumes"@[1] == 'o' && "consumes"@[3] == 's');
    reveal_strlit("communicates_with");
    assert("communicates_with"@.len() == 17 && "communicates_with"@[0] == 'c' && "communicates_with"@[1] == 'o' && "communicates_with"@[3] == 'm');
}

/// Different kinds have different texts.
pub proof fn relation_kind_names_differ(a: RelationKind, b: RelationKind)
    requires
        a != b,
    ensures
        a.name() != b.name(),
{
    relation_kind_round_trip(a);
    relation_kind_round_trip(b);
}

/// A text that names a kind is that kind's text.
pub proof fn relation_kind_named_is_exact(s: Seq<char>)
    ensures
        match RelationKind::named(s) {
            Some(kind) => kind.name() == s,
            None => forall|kind: RelationKind| (#[trigger] kind.name()) != s,
        },
{
    if RelationKind::named(s) is None {
        assert forall|kind: RelationKind| (#[trigger] kind.name()) != s by {
            relation_kind_round_trip(kind);
        }
    }
}
/// An edge of the graph.
#[derive(Debug)]
pub struct Relation {
    pub source_id: String,
    pub target_id: String,
    pub kind: RelationKind,
    pub metadata: Metadata,
}

/// The mathematical reading of an edge.
pub struct RelationView {
    pub source_id: Seq<char>,
    pub target_id: Seq<char>,
    pub kind: RelationKind,
    pub metadata: MetaView,
}

impl View for Relation {
    type V = RelationView;

    open spec fn view(&self) -> RelationView {
        RelationView {
            source_id: self.source_id@,
            target_id: self.target_id@,
            kind: self.kind,
            metadata: self.metadata@,
        }
    }
}

/// An edge without metadata.
pub open spec fn plain_edge(source_id: Seq<char>, target_id: Seq<char>, kind: RelationKind) -> RelationView {
    RelationView { source_id, target_id, kind, metadata: Seq::empty() }
}

impl Relation {
    /// A copy of the edge.
    pub fn copy(&self) -> (r: Relation)
        ensures
            r@ == self@,
    {
        Relation {
            source_id: copy(self.source_id.as_str()),
            target_id: copy(self.target_id.as_str()),
            kind: self.kind,
            metadata: self.metadata.copy(),
        }
    }

    /// An edge without metadata.
    pub fn plain(source_id: &str, target_id: &str, kind: RelationKind) -> (r: Relation)
        ensures
            r@ == plain_edge(source_id@, target_id@, kind),
    {
        Relation { source_id: copy(source_id), target_id: copy(target_id), kind, metadata: Metadata::new() }
    }
}

}
