//! Code indexer: scanning, chunking, symbol extraction and index storage
//! for a semantic code search tool.

pub mod api;
pub mod commands;
pub mod config;
pub mod constants;
pub mod indexer;
pub mod indexing;
pub mod models;
pub mod ordering;
pub mod paths;
pub mod text;
