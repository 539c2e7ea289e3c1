//! Semantic indexing and search over a vault of notes.
pub mod batch_laws;
pub mod chunk;
pub mod chunk_laws;
pub mod command_laws;
pub mod commands;
pub mod config;
pub mod coverage_laws;
pub mod embed;
pub mod embed_laws;
pub mod fs;
pub mod index;
pub mod index_laws;
pub mod isolation_laws;
pub mod link_laws;
pub mod markup_laws;
pub mod models;
pub mod outside;
pub mod parse;
pub mod parse_laws;
pub mod paths;
pub mod paths_laws;
pub mod pipeline;
pub mod progress;
pub mod query;
pub mod query_laws;
pub mod rerun_laws;
pub mod run_laws;
pub mod score_laws;
pub mod search;
pub mod search_laws;
pub mod sqlite;
pub mod sqlite_laws;
pub mod store;
pub mod tables;
pub mod tag_laws;
pub mod text;
pub mod text_laws;
pub mod tie_laws;
pub mod trace_laws;
pub mod walk;
pub mod workspace;
pub mod write_laws;
