//! The PHP adapter.
//!
//! No type checker stands behind it: uses are bound by a table of the symbols
//! that the sources themselves declare.

pub mod adapter;
pub mod boundary;
pub mod declaration_laws;
pub mod declarations;
pub mod deps;
pub mod detector;
pub mod laws;
pub mod log;
pub mod name_laws;
pub mod names;
pub mod port_laws;
pub mod project_laws;
pub mod resolver;
pub mod structure_laws;
pub mod symbols;
pub mod use_laws;
pub mod uses;
pub mod visitor;
