//! Local code search: scanning, chunking, symbol extraction and result shaping.
pub mod digest;
pub mod lsp;
pub mod grammar;
pub mod parser;
pub mod paths;
pub mod scanner;
pub mod text;
pub mod workspace;
pub mod text_index;
pub mod query;
pub mod ingest;
pub mod crawler;
pub mod models;
pub mod search;
pub mod watcher;
pub mod cli;
