//! Lowering of SQL schemas and queries into a graph of relational
//! operators (MIR), with versioned reuse of nodes across queries.
//!
//! A [`SqlToMirConverter`] holds the graph and a registry of its nodes by
//! name and schema version. Base tables go in by `named_base_to_mir`,
//! queries by `named_query_to_mir`; what comes out is a [`MirQuery`] that
//! names the roots and the leaf of the query in the graph.
//!
//! Every function says in its contract what it returns and how it changes
//! the converter, over plain values: a graph is a sequence of nodes, a
//! node handle a position in it, a string a sequence of characters. What
//! holds of every state and of every query is proved in [`laws`].
pub mod ast;
pub mod base;
pub mod conditions;
pub mod converter;
pub mod factory;
pub mod graph;
pub mod grouping;
pub mod join;
pub mod laws;
pub mod node;
pub mod output;
pub mod predicates;
pub mod project;
pub mod query;
pub mod query_copy;
pub mod query_graph;
pub mod security;
pub mod selection;
pub mod text;
pub mod universe;
pub mod value;
pub mod views;

pub use crate::query::MirQuery;
pub use crate::converter::SqlToMirConverter;
pub use crate::node::{FlowNode, MirNodeRef};
pub use crate::value::MirError;
