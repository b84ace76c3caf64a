//! Indexing: finding the files to index, cutting them into chunks, finding
//! their symbols, and storing embeddings.

pub mod chunker;
pub mod scanner;
pub mod storage;
pub mod symbols;
