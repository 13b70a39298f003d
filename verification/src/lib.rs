//! A verified engine for reading and searching visual-novel style story
//! scripts: a markup parser that turns raw script lines into typed
//! narrative segments, and a hybrid full-text search stack on top of it —
//! normalizer, tokenizer, index-row builder, query compiler, search
//! orchestrator and context-snippet extractor. Every executable function
//! here carries a contract that pins its result down; the enclosing
//! application supplies file contents and runs the full-text engine, and
//! this crate decides everything else.

pub mod index;
pub mod models;
pub mod normalize;
pub mod numeric;
pub mod parser;
pub mod query;
pub mod search;
pub mod snippet;
pub mod strutil;
pub mod tokenize;
pub mod version;
