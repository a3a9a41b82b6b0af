//! Places of use, and where an import comes from.

use vstd::prelude::*;

use crate::span::Span;
use crate::strings::{decimal, decimal_text};
use crate::text::{concat3, concat5, copy, debug, debug_text, holds, views};

verus! {

/// A place of use that the resolve pass binds to a definition later.
///
/// Coordinates are 1-based. Roles: `call`, `read`, `write`, `annotation` for a
/// type, `base` for a base class.
#[derive(Debug)]
pub struct OccurrenceRef {
    pub role: String,
    pub line: u32,
    pub col: u32,
    pub enclosing_id: String,
    pub span: Span,
}

/// The mathematical reading of a place of use.
pub struct OccurrenceView {
    pub role: Seq<char>,
    pub line: u32,
    pub col: u32,
    pub enclosing_id: Seq<char>,
    pub span: Span,
}

impl View for OccurrenceRef {
    type V = OccurrenceView;

    open spec fn view(&self) -> OccurrenceView {
        OccurrenceView {
            role: self.role@,
            line: self.line,
            col: self.col,
            enclosing_id: self.enclosing_id@,
            span: self.span,
        }
    }
}

/// The place of use at a range.
pub open spec fn occurrence_at(role: Seq<char>, enclosing_id: Seq<char>, span: Span) -> OccurrenceView {
    OccurrenceView { role, line: span.start_line, col: span.start_col, enclosing_id, span }
}

impl OccurrenceRef {
    /// The place of use in words.
    pub fn repr(&self) -> (r: String)
        ensures
            r@ == "OccurrenceRef("@ + self.role@ + " at "@ + decimal(self.line as nat) + ":"@ + decimal(self.col as nat)
                + " in "@ + debug_text(self.enclosing_id@) + ")"@,
    {
        let place = concat5(
            "OccurrenceRef(",
            self.role.as_str(),
            " at ",
            decimal_text(self.line as u64).as_str(),
            ":",
        );
        concat5(
            place.as_str(),
            decimal_text(self.col as u64).as_str(),
            " in ",
            debug(self.enclosing_id.as_str()).as_str(),
            ")",
        )
    }

    /// The same place of use.
    pub fn copy(&self) -> (r: OccurrenceRef)
        ensures
            r@ == self@,
    {
        OccurrenceRef {
            role: copy(self.role.as_str()),
            line: self.line,
            col: self.col,
            enclosing_id: copy(self.enclosing_id.as_str()),
            span: self.span,
        }
    }

    /// The place of use at a range.
    pub fn at(role: &str, enclosing_id: &str, span: Span) -> (r: OccurrenceRef)
        ensures
            r@ == occurrence_at(role@, enclosing_id@, span),
    {
        OccurrenceRef {
            role: copy(role),
            line: span.start_line,
            col: span.start_col,
            enclosing_id: copy(enclosing_id),
            span,
        }
    }
}

/// Tells an import's origin from sets of top-level names.
#[derive(Debug)]
pub struct ImportClassifier {
    pub stdlib: Vec<String>,
    pub third_party: Vec<String>,
    pub internal: Vec<String>,
}

/// The origin of a top-level name: the standard library first, then the project
/// itself, then its dependencies.
pub open spec fn origin_of(
    stdlib: Seq<Seq<char>>,
    third_party: Seq<Seq<char>>,
    internal: Seq<Seq<char>>,
    top_level: Seq<char>,
) -> Seq<char> {
    if stdlib.contains(top_level) {
        "stdlib"@
    } else if internal.contains(top_level) {
        "internal"@
    } else if third_party.contains(top_level) {
        "third_party"@
    } else {
        "unknown"@
    }
}

impl ImportClassifier {
    /// A classifier over three sets of names.
    pub fn from_sets(stdlib: Vec<String>, third_party: Vec<String>, internal: Vec<String>) -> (r: ImportClassifier)
        ensures
            r.stdlib@ == stdlib@,
            r.third_party@ == third_party@,
            r.internal@ == internal@,
    {
        ImportClassifier { stdlib, third_party, internal }
    }

    /// The origin of a top-level name.
    pub fn classify(&self, top_level: &str) -> (r: &'static str)
        ensures
            r@ == origin_of(views(self.stdlib@), views(self.third_party@), views(self.internal@), top_level@),
    {
        if holds(&self.stdlib, top_level) {
            return "stdlib";
        }
        if holds(&self.internal, top_level) {
            return "internal";
        }
        if holds(&self.third_party, top_level) {
            return "third_party";
        }
        "unknown"
    }

    /// The sizes of the three sets in words.
    pub fn repr(&self) -> (r: String)
        ensures
            r@ == "ImportClassifier(stdlib="@ + decimal(self.stdlib@.len()) + ", third_party="@ + decimal(
                self.third_party@.len(),
            ) + ", internal="@ + decimal(self.internal@.len()) + ")"@,
    {
        let known = concat5(
            "ImportClassifier(stdlib=",
            decimal_text(self.stdlib.len() as u64).as_str(),
            ", third_party=",
            decimal_text(self.third_party.len() as u64).as_str(),
            ", internal=",
        );
        concat3(known.as_str(), decimal_text(self.internal.len() as u64).as_str(), ")")
    }
}

/// A name of the standard library is its own whatever else holds it; else a name of the
/// project is the project's; else a dependency's; and a name of none is unknown.
pub proof fn names_belong_to_the_first_set(
    stdlib: Seq<Seq<char>>,
    third_party: Seq<Seq<char>>,
    internal: Seq<Seq<char>>,
    name: Seq<char>,
)
    ensures
        stdlib.contains(name) ==> origin_of(stdlib, third_party, internal, name) == "stdlib"@,
        !stdlib.contains(name) && internal.contains(name) ==> origin_of(stdlib, third_party, internal, name) == "internal"@,
        !stdlib.contains(name) && !internal.contains(name) && third_party.contains(name) ==> origin_of(
            stdlib,
            third_party,
            internal,
            name,
        ) == "third_party"@,
        !stdlib.contains(name) && !internal.contains(name) && !third_party.contains(name) ==> origin_of(
            stdlib,
            third_party,
            internal,
            name,
        ) == "unknown"@,
{
}

/// A use stands where its range begins, in what encloses it.
pub proof fn uses_stand_where_they_begin(role: Seq<char>, id: Seq<char>, span: Span)
    ensures
        occurrence_at(role, id, span).role == role,
        occurrence_at(role, id, span).enclosing_id == id,
        occurrence_at(role, id, span).line == span.start_line,
        occurrence_at(role, id, span).col == span.start_col,
        occurrence_at(role, id, span).span == span,
{
}

}
