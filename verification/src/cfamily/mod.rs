//! The C and C++ adapters: two grammars, one implementation.
//!
//! C's constructs are a subset of C++'s for everything that matters here, so
//! both dialects share one body of code, which branches on [`Dialect`].
//!
//! A module means something different in the two. C has no module concept, so
//! its module is the directory that holds a file. The module of C++ is the
//! namespace.

use vstd::prelude::*;

pub mod adapter;
pub mod boundary;
pub mod clang_resolver;
pub mod declarator_laws;
pub mod declarators;
pub mod deps;
pub mod detector;
pub mod emitter;
pub mod formats;
pub mod headers;
pub mod laws;
pub mod package_laws;
pub mod port_laws;
pub mod project_laws;
pub mod reader;
pub mod visitor;

verus! {

/// Which of the two grammars reads a file.
#[derive(Clone, Copy, Debug, PartialEq, Eq, Structural, Hash)]
pub enum Dialect {
    C,
    Cpp,
}

impl Dialect {
    /// The text that metadata carries.
    pub open spec fn name(self) -> Seq<char> {
        match self {
            Dialect::C => "c"@,
            Dialect::Cpp => "cpp"@,
        }
    }

    /// The text that metadata carries.
    pub fn as_str(self) -> (r: &'static str)
        ensures
            r@ == self.name(),
    {
        match self {
            Dialect::C => "c",
            Dialect::Cpp => "cpp",
        }
    }
}

}
