//! Reading the index that a compiler front end writes.

use vstd::prelude::*;

use crate::paths::{place_below, placed_below};
use crate::adapter::{ResolvedRef, ResolvedView};
use crate::status::ResolverStatus;
use crate::strings::{begins, cut, split_once, starts_with};
use crate::text::{copy, opt_view};

verus! {

/// Leading namespaces that belong to a standard library.
pub const STDLIB_PREFIXES: [&'static str; 4] = ["std/", "__gnu_cxx/", "__cxxabiv1/", "__cxx11/"];

/// What follows the first `n` blanks.
pub open spec fn after_blanks(s: Seq<char>, n: nat) -> Option<Seq<char>>
    decreases n,
{
    if n == 0 {
        Some(s)
    } else {
        match cut(s, " "@) {
            Some(parts) => after_blanks(parts.1, (n - 1) as nat),
            None => None,
        }
    }
}

/// Whether a symbol begins with a namespace of a standard library.
pub open spec fn standard(descriptor: Seq<char>) -> bool {
    exists|i: int| 0 <= i < STDLIB_PREFIXES@.len() && begins(descriptor, (#[trigger] STDLIB_PREFIXES@[i])@)
}

/// Where a symbol comes from. Its descriptor is what follows the four parts of
/// the scheme; without one nothing is known.
pub open spec fn origin_of_symbol(symbol: Seq<char>) -> Seq<char> {
    match after_blanks(symbol, 4) {
        Some(descriptor) => if standard(descriptor) {
            "stdlib"@
        } else {
            "third_party"@
        },
        None => "unknown"@,
    }
}

/// What follows the first `n` blanks.
fn behind_blanks(s: &str, n: usize) -> (r: Option<String>)
    ensures
        opt_view(r) == after_blanks(s@, n as nat),
    decreases n,
{
    if n == 0 {
        return Some(copy(s));
    }
    match split_once(s, " ") {
        Some(parts) => behind_blanks(parts.1.as_str(), n - 1),
        None => None,
    }
}

/// Where a symbol comes from.
#[verifier::loop_isolation(false)]
pub fn symbol_origin(symbol: &str) -> (r: &'static str)
    ensures
        r@ == origin_of_symbol(symbol@),
{
    match behind_blanks(symbol, 4) {
        Some(descriptor) => {
            let mut i: usize = 0;
            while i < 4
                invariant
                    i <= 4,
                    forall|j: int| 0 <= j < i ==> !begins(descriptor@, (#[trigger] STDLIB_PREFIXES@[j])@),
                decreases 4 - i,
            {
                if starts_with(descriptor.as_str(), STDLIB_PREFIXES[i]) {
                    assert(begins(descriptor@, STDLIB_PREFIXES@[i as int]@));
                    return "stdlib";
                }
                i += 1;
            }
            assert(!standard(descriptor@));
            "third_party"
        },
        None => "unknown",
    }
}

/// What an index says of a position. Lines and columns are 0-based.
#[derive(Debug)]
pub enum ScipAnswer {
    Definition { path: String, line: u32, col: u32 },
    External { symbol: String },
}

/// A resolver over the index of a compiler front end.
#[derive(Debug)]
pub struct ClangScipResolver {
    /// The compilation database, below the root unless its path is absolute.
    pub compdb_path: String,
    pub root: Option<String>,
    pub status: ResolverStatus,
}

impl ClangScipResolver {
    /// A resolver that knows nothing yet.
    pub fn new(compdb_path: Option<&str>) -> (r: ClangScipResolver)
        ensures
            r.compdb_path@ == (match compdb_path {
                Some(p) => p@,
                None => "compile_commands.json"@,
            }),
            r.root is None,
            r.status == ResolverStatus::Unavailable,
    {
        let compdb_path = match compdb_path {
            Some(p) => copy(p),
            None => copy("compile_commands.json"),
        };
        ClangScipResolver { compdb_path, root: None, status: ResolverStatus::Unavailable }
    }

    /// Where the compilation database of a root lies.
    pub open spec fn database(self, root: Seq<char>) -> Seq<char> {
        placed_below(root, self.compdb_path@)
    }

    /// Starts over for a root; returns where its compilation database lies.
    /// Until an index was read, nothing can be answered.
    pub fn prepare(&mut self, root: &str) -> (r: String)
        ensures
            final(self).compdb_path == old(self).compdb_path,
            opt_view(final(self).root) == Some(root@),
            final(self).status == ResolverStatus::Unavailable,
            r@ == old(self).database(root@),
    {
        self.root = Some(copy(root));
        self.status = ResolverStatus::Unavailable;
        place_below(root, self.compdb_path.as_str())
    }

    /// Takes note of an index that was read. One that is empty, or that comes
    /// from a run which failed on some sources, is incomplete.
    pub fn indexed(&mut self, index_is_empty: bool, exit_code: Option<i32>)
        ensures
            final(self).compdb_path == old(self).compdb_path,
            final(self).root == old(self).root,
            final(self).status == (if index_is_empty || exit_code != Some(0i32) {
                ResolverStatus::Degraded
            } else {
                ResolverStatus::Complete
            }),
    {
        let clean = match exit_code {
            Some(code) => code == 0,
            None => false,
        };
        self.status = if index_is_empty || !clean {
            ResolverStatus::Degraded
        } else {
            ResolverStatus::Complete
        };
    }

    /// The 0-based position to look up; `None` before a root is known, and for
    /// a position that is not 1-based.
    pub fn query_position(&self, line: u32, col: u32) -> (r: Option<(u32, u32)>)
        ensures
            r == (if self.root is Some && line > 0 && col > 0 {
                Some(((line - 1) as u32, (col - 1) as u32))
            } else {
                None
            }),
    {
        if self.root.is_some() && line > 0 && col > 0 {
            Some((line - 1, col - 1))
        } else {
            None
        }
    }

    /// The definition that an index's answer stands for.
    pub open spec fn resolved(self, line: u32, col: u32, answer: Option<ScipAnswer>) -> Option<ResolvedView> {
        if self.root is None || line == 0 || col == 0 {
            None
        } else {
            match answer {
                Some(ScipAnswer::Definition { path, line, col }) => Some(
                    ResolvedView {
                        full_name: Seq::empty(),
                        file_path: Some(placed_below(self.root->0@, path@)),
                        line: (line + 1) as u32,
                        col: (col + 1) as u32,
                        kind: Seq::empty(),
                        origin: "internal"@,
                    },
                ),
                Some(ScipAnswer::External { symbol }) => Some(
                    ResolvedView {
                        full_name: symbol@,
                        file_path: None,
                        line: 0,
                        col: 0,
                        kind: Seq::empty(),
                        origin: origin_of_symbol(symbol@),
                    },
                ),
                None => None,
            }
        }
    }

    /// The definition that an index's answer for a position stands for.
    pub fn resolve_one(&self, line: u32, col: u32, answer: &Option<ScipAnswer>) -> (r: Option<ResolvedRef>)
        requires
            *answer matches Some(ScipAnswer::Definition { path, line, col }) ==> line < u32::MAX && col < u32::MAX,
        ensures
            opt_view(r) == self.resolved(line, col, *answer),
    {
        if line == 0 || col == 0 {
            return None;
        }
        match &self.root {
            None => None,
            Some(root) => {
                let empty = String::new();
                assert(empty@ =~= Seq::<char>::empty());
                match answer {
                    Some(ScipAnswer::Definition { path, line, col }) => Some(
                        ResolvedRef {
                            full_name: copy(empty.as_str()),
                            file_path: Some(place_below(root.as_str(), path.as_str())),
                            line: *line + 1,
                            col: *col + 1,
                            kind: empty,
                            origin: copy("internal"),
                        },
                    ),
                    Some(ScipAnswer::External { symbol }) => Some(
                        ResolvedRef {
                            full_name: copy(symbol.as_str()),
                            file_path: None,
                            line: 0,
                            col: 0,
                            kind: empty,
                            origin: copy(symbol_origin(symbol.as_str())),
                        },
                    ),
                    None => None,
                }
            },
        }
    }
}

}
