//! Inference of a GraphQL schema stub from client documents, with the
//! supporting data types of the money-management command line.

pub mod categories;
pub mod cli;
pub mod client;
pub mod completeness;
pub mod dates;
pub mod depth;
pub mod display;
pub mod document;
pub mod generate;
pub mod growth;
pub mod infer;
pub mod laws;
pub mod names;
pub mod order;
pub mod recurrings;
pub mod render;
pub mod responses;
pub mod schema_gen;
pub mod text;
pub mod transactions;
pub mod types;
pub mod walker;
