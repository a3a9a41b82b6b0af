//! The Go adapter.
//!
//! A module is a Go package: a directory, whose qualified name is the path that
//! imports it, so that internal imports are bound by direct lookup.

pub mod adapter;
pub mod boundary;
pub mod deps;
pub mod laws;
pub mod project_laws;
pub mod resolver;
pub mod structure_laws;
pub mod visitor;
