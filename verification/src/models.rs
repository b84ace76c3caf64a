//! The records the indexer produces and reads: directory entries, code
//! chunks, the embedding service settings and an index's metadata.

use vstd::prelude::*;
use vstd::string::StringExecFns;

verus! {

/// An entry of a directory listing.
#[derive(Debug, Clone)]
pub struct FileEntry {
    pub name: String,
    pub path: String,
    pub is_folder: bool,
}

/// A run of consecutive lines of a file: the unit that is embedded and searched.
#[derive(Debug, Clone)]
pub struct CodeChunk {
    pub chunk_id: String,
    pub file_path: String,
    pub relative_path: String,
    /// First line of the chunk, counted from 1.
    pub start_line: usize,
    /// Last line of the chunk, counted from 1 (the end of the range, exclusive, counted from 0).
    pub end_line: usize,
    pub content: String,
    pub extension: String,
    pub symbols: Vec<String>,
}

/// The fields of a `CodeChunk` as plain values.
pub struct ChunkView {
    pub chunk_id: Seq<char>,
    pub file_path: Seq<char>,
    pub relative_path: Seq<char>,
    pub start_line: usize,
    pub end_line: usize,
    pub content: Seq<char>,
    pub extension: Seq<char>,
    pub symbols: Seq<Seq<char>>,
}

impl View for CodeChunk {
    type V = ChunkView;

    open spec fn view(&self) -> ChunkView {
        ChunkView {
            chunk_id: self.chunk_id@,
            file_path: self.file_path@,
            relative_path: self.relative_path@,
            start_line: self.start_line,
            end_line: self.end_line,
            content: self.content@,
            extension: self.extension@,
            symbols: self.symbols@.map_values(|s: String| s@),
        }
    }
}

/// Settings of the embedding service.
#[derive(Debug, Clone)]
pub struct Config {
    pub api_key: String,
    pub model: String,
    pub base_url: String,
}

/// The placeholder key that a fresh configuration holds until the user sets one.
pub open spec fn placeholder_api_key() -> Seq<char> {
    "YOUR_API_KEY"@
}

pub open spec fn default_model() -> Seq<char> {
    "text-embedding-v4"@
}

pub open spec fn default_base_url() -> Seq<char> {
    "https://dashscope.aliyuncs.com/api/v1/services/embeddings/text-embedding"@
}

impl Default for Config {
    fn default() -> (c: Self)
        ensures
            c.api_key@ == placeholder_api_key(),
            c.model@ == default_model(),
            c.base_url@ == default_base_url(),
    {
        Config {
            api_key: String::from_str("YOUR_API_KEY"),
            model: String::from_str("text-embedding-v4"),
            base_url: String::from_str(
                "https://dashscope.aliyuncs.com/api/v1/services/embeddings/text-embedding",
            ),
        }
    }
}

/// What is recorded about one index.
#[derive(Debug, Clone)]
pub struct IndexMetadata {
    pub project_name: String,
    pub project_path: String,
    pub total_files: usize,
    pub total_chunks: usize,
    pub embedding_model: String,
    pub embedding_dim: usize,
    pub created_at: String,
}

} // verus!
