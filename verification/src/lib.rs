//! A small full-text search engine: it indexes a collection of documents,
//! tokenizes their text through a pluggable tokenizer, and ranks them
//! against a free-text query through a pluggable scoring strategy.
//! A two-level entry point localizes the best-matching sub-unit inside
//! each matching transcript.

pub mod orchestrate;
pub mod rank;
pub mod searcher;
pub mod text;
