//! The core of a code graph: nodes, edges, ids, queries, and the adapters that
//! read C, C++, Go and PHP sources into one graph.

pub mod adapter;
pub mod adapter_laws;
pub mod boundaries;
pub mod cfamily;
pub mod dependencies;
pub mod dependency_laws;
pub mod diffing;
pub mod error;
pub mod golang;
pub mod graph;
pub mod ids;
pub mod index;
pub mod json;
pub mod links;
pub mod merge;
pub mod meta;
pub mod metrics;
pub mod node;
pub mod occurrence;
pub mod order;
pub mod path_laws;
pub mod paths;
pub mod php;
pub mod queries;
pub mod relation;
pub mod routes;
pub mod selection;
pub mod services;
pub mod span;
pub mod status;
pub mod string_laws;
pub mod strings;
pub mod text;
pub mod tree;
pub mod tree_laws;
pub mod values;
pub mod walk;
