//! A query shorthand engine: a recursive-descent parser for a terse
//! hierarchical query language, and a name-resolution engine that maps each
//! raw identifier in the parsed hierarchy to a schema entity by keyword
//! matching, ranked by a usage-recency score and constrained by foreign-key
//! adjacency.

pub mod alg;
pub mod arena;
pub mod config;
pub mod db;
pub mod define;
pub mod query;
pub mod resolve;
pub mod roundtrip;
pub mod schema;
pub mod sql;
