//! Verified core of a local-first knowledge search tool: text chunking,
//! file classification, search result fusion, wiki batching and the
//! decisions that drive indexing, AI queries and project management.
pub mod common;
pub mod text;
pub mod chunking;
pub mod ids;
pub mod filetypes;
pub mod xmltext;
pub mod digest;
pub mod indexer;
pub mod storage;
pub mod search;
pub mod ai_agent;
pub mod wiki;
pub mod viewer;
pub mod project;
pub mod watcher;
