//! The errors the core reports.

use vstd::prelude::*;

use crate::strings::{decimal, decimal_text};
use crate::text::{concat3, concat4, copy};

verus! {

/// What can go wrong in the core.
#[derive(Debug)]
pub enum CoreError {
    /// A source could not be parsed.
    Parse { path: String, reason: String },
    /// The resolver took longer than the given number of milliseconds.
    Timeout(u64),
    /// Reading or writing failed; the text is the operating system's.
    Io(String),
}

impl CoreError {
    /// The text of the error.
    pub open spec fn text(self) -> Seq<char> {
        match self {
            CoreError::Parse { path, reason } => "failed to parse "@ + path@ + ": "@ + reason@,
            CoreError::Timeout(ms) => "resolver timed out after "@ + decimal(ms as nat) + "ms"@,
            CoreError::Io(text) => text@,
        }
    }

    /// The text of the error.
    pub fn message(&self) -> (r: String)
        ensures
            r@ == self.text(),
    {
        match self {
            CoreError::Parse { path, reason } => concat4("failed to parse ", path.as_str(), ": ", reason.as_str()),
            CoreError::Timeout(ms) => concat3("resolver timed out after ", decimal_text(*ms).as_str(), "ms"),
            CoreError::Io(text) => copy(text.as_str()),
        }
    }
}

}
