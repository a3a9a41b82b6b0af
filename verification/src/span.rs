//! Source ranges.

use vstd::prelude::*;

verus! {

/// A range of source text. Lines and columns are 1-based; the end column is
/// the one after the last character.
#[derive(Clone, Copy, Debug, PartialEq, Eq, Structural, Hash)]
pub struct Span {
    pub start_line: u32,
    pub start_col: u32,
    pub end_line: u32,
    pub end_col: u32,
}

impl Span {
    /// Whether a position lies inside the range.
    pub open spec fn holds(self, line: u32, col: u32) -> bool {
        &&& self.start_line < line || (self.start_line == line && self.start_col <= col)
        &&& line < self.end_line || (line == self.end_line && col <= self.end_col)
    }

    /// Tells whether a position lies inside the range.
    pub fn contains(self, line: u32, col: u32) -> (r: bool)
        ensures
            r == self.holds(line, col),
    {
        (self.start_line < line || (self.start_line == line && self.start_col <= col)) && (line < self.end_line || (
        line == self.end_line && col <= self.end_col))
    }
}

}
