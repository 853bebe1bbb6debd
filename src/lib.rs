//! A code graph: language-agnostic entities extracted from source, linked by the
//! names they call, with impact analysis, token-bounded context slicing and a
//! centrality ranking on top.
pub mod node;
pub mod text;
pub mod graph;
pub mod symbol_table;
pub mod builder;
pub mod reach;
pub mod query;
pub mod impact;
pub mod confidence;
pub mod slice;
pub mod ranking;
pub mod heuristics;
pub mod syntax;
pub mod lang_rust;
pub mod lang_more;
pub mod parser;
pub mod indexer;
pub mod service;
pub mod store_plan;
