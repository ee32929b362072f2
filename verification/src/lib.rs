//! The search index of an event store.

pub mod analysis;
pub mod analysis_laws;
pub mod config;
pub mod document;
pub mod error;
pub mod events;
pub mod grammar;
pub mod grammar_laws;
pub mod index;
pub mod index_laws;
pub mod paging;
pub mod parser;
pub mod query;
pub mod schema;
pub mod script_tokenizer;
pub mod search;
pub mod search_cache;
pub mod search_laws;
pub mod search_syntax;
pub mod text;
pub mod writer;
