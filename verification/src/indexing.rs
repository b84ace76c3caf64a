//! The order of the steps of indexing a folder. The caller performs each
//! action (checking the folder, loading the configuration, scanning, chunking
//! a file, embedding a chunk, saving) and hands back what came of it as an
//! event; `index_step` decides what comes next.

use vstd::prelude::*;
use crate::commands::{
    batch_end, batch_range, check_api_key, check_chunks_made, check_files_found, check_folder, embedding_failure_message,
    reports_batch_progress, reports_chunking_progress,
};
use crate::constants::BATCH_SIZE;
use crate::models::{placeholder_api_key, Config};

verus! {

/// Where a run of indexing stands.
#[derive(Clone, Copy, Debug, PartialEq, Eq, Structural)]
pub enum IndexPhase {
    Start,
    CheckingFolder,
    LoadingConfig,
    Scanning,
    Chunking,
    Embedding,
    Saving,
    Done,
}

/// A run of indexing: its phase, the number of files found and the next one
/// to chunk, the number of chunks made so far and the next one to embed.
#[derive(Clone, Copy, Debug, PartialEq, Eq, Structural)]
pub struct IndexState {
    pub phase: IndexPhase,
    pub total_files: usize,
    pub next_file: usize,
    pub total_chunks: usize,
    pub next_chunk: usize,
}

/// What came of the last action.
#[derive(Debug)]
pub enum IndexEvent {
    /// The run begins.
    Begin,
    /// Whether the folder exists and is a directory.
    FolderChecked { exists: bool, is_dir: bool },
    /// The configuration, or why it could not be loaded.
    ConfigLoaded(Result<Config, String>),
    /// The number of code files found, or why the scan failed.
    FilesFound(Result<usize, String>),
    /// The number of chunks made of the file, or why it could not be chunked.
    FileChunked(Result<usize, String>),
    /// The chunk was embedded.
    Embedded,
    /// Embedding the chunk of the file `relative_path` failed with `error`.
    EmbeddingFailed { relative_path: String, error: String },
    /// The index was saved, or why it could not be.
    Saved(Result<(), String>),
}

/// What the caller is to do next.
#[derive(Debug)]
pub enum IndexAction {
    CheckFolder,
    LoadConfig,
    /// Announce the scan, then collect the code files.
    ScanFiles,
    /// Chunk the file at `index` of those found; first announce the chunking
    /// when `announce`, and report progress on it when `report`.
    ChunkFile { index: usize, announce: bool, report: bool },
    /// Embed the chunk at `index`; first announce the embedding when
    /// `announce`, and report progress on the batch `batch` (its first chunk
    /// and the end of its range) when there is one.
    EmbedChunk { index: usize, announce: bool, batch: Option<(usize, usize)> },
    /// Save the index.
    SaveIndex,
    /// The index is saved: report completion and the summary.
    Finish,
    /// Stop with this error.
    Fail(String),
}

/// `IndexAction` with its message as characters.
pub enum IndexActionView {
    CheckFolder,
    LoadConfig,
    ScanFiles,
    ChunkFile { index: usize, announce: bool, report: bool },
    EmbedChunk { index: usize, announce: bool, batch: Option<(usize, usize)> },
    SaveIndex,
    Finish,
    Fail(Seq<char>),
}

impl View for IndexAction {
    type V = IndexActionView;

    open spec fn view(&self) -> IndexActionView {
        match self {
            IndexAction::CheckFolder => IndexActionView::CheckFolder,
            IndexAction::LoadConfig => IndexActionView::LoadConfig,
            IndexAction::ScanFiles => IndexActionView::ScanFiles,
            IndexAction::ChunkFile { index, announce, report } => IndexActionView::ChunkFile {
                index: *index,
                announce: *announce,
                report: *report,
            },
            IndexAction::EmbedChunk { index, announce, batch } => IndexActionView::EmbedChunk {
                index: *index,
                announce: *announce,
                batch: *batch,
            },
            IndexAction::SaveIndex => IndexActionView::SaveIndex,
            IndexAction::Finish => IndexActionView::Finish,
            IndexAction::Fail(m) => IndexActionView::Fail(m@),
        }
    }
}

impl IndexState {
    /// While chunking there is a next file, and while embedding a next chunk.
    pub open spec fn wf(self) -> bool {
        &&& self.phase == IndexPhase::Chunking ==> self.next_file < self.total_files
        &&& self.phase == IndexPhase::Embedding ==> self.next_chunk < self.total_chunks
    }

    /// A run that has not begun.
    pub fn new() -> (r: IndexState)
        ensures
            r.wf(),
            r == (IndexState {
                phase: IndexPhase::Start,
                total_files: 0,
                next_file: 0,
                total_chunks: 0,
                next_chunk: 0,
            }),
    {
        IndexState { phase: IndexPhase::Start, total_files: 0, next_file: 0, total_chunks: 0, next_chunk: 0 }
    }
}

/// The event answers the action that the phase `s` asked for (and the
/// chunk count stays within `usize`).
pub open spec fn expects(s: IndexState, e: IndexEvent) -> bool {
    match e {
        IndexEvent::Begin => s.phase == IndexPhase::Start,
        IndexEvent::FolderChecked { .. } => s.phase == IndexPhase::CheckingFolder,
        IndexEvent::ConfigLoaded(_) => s.phase == IndexPhase::LoadingConfig,
        IndexEvent::FilesFound(_) => s.phase == IndexPhase::Scanning,
        IndexEvent::FileChunked(made) => s.phase == IndexPhase::Chunking && match made {
            Ok(n) => s.total_chunks + n <= usize::MAX,
            Err(_) => true,
        },
        IndexEvent::Embedded => s.phase == IndexPhase::Embedding,
        IndexEvent::EmbeddingFailed { .. } => s.phase == IndexPhase::Embedding,
        IndexEvent::Saved(_) => s.phase == IndexPhase::Saving,
    }
}

/// The batch progress to report before embedding the chunk at `index` of
/// `total`: at the start of a batch, whose start is a multiple of 50 or whose
/// range reaches the last chunk.
pub open spec fn batch_report(index: usize, total: usize) -> Option<(usize, usize)> {
    if index % BATCH_SIZE == 0 {
        let end = batch_range(total as nat, (index / BATCH_SIZE) as int).1;
        if index % 50 == 0 || end == total {
            Some((index, end as usize))
        } else {
            None
        }
    } else {
        None
    }
}

/// The action that chunks the file at `index` of `total`.
pub open spec fn chunk_action(index: usize, total: usize) -> IndexActionView {
    IndexActionView::ChunkFile {
        index,
        announce: index == 0,
        report: (index + 1) % 50 == 0 || index + 1 == total,
    }
}

/// The action that embeds the chunk at `index` of `total`.
pub open spec fn embed_action(index: usize, total: usize) -> IndexActionView {
    IndexActionView::EmbedChunk { index, announce: index == 0, batch: batch_report(index, total) }
}

/// The state `s` in the phase `phase`.
pub open spec fn in_phase(s: IndexState, phase: IndexPhase) -> IndexState {
    IndexState { phase, ..s }
}

/// The next state and action after the event `e` in the state `s`. A run
/// stops at the first error: an invalid folder, a configuration that cannot
/// be loaded or still holds the placeholder key, a failed scan or one that
/// finds no file, no chunk made of any file, the first failed embedding, or a
/// failed save. A file that cannot be chunked is skipped.
pub open spec fn index_next(s: IndexState, e: IndexEvent) -> (IndexState, IndexActionView) {
    let done = in_phase(s, IndexPhase::Done);
    match e {
        IndexEvent::Begin => (in_phase(s, IndexPhase::CheckingFolder), IndexActionView::CheckFolder),
        IndexEvent::FolderChecked { exists, is_dir } => if exists && is_dir {
            (in_phase(s, IndexPhase::LoadingConfig), IndexActionView::LoadConfig)
        } else {
            (done, IndexActionView::Fail("无效的文件夹路径"@))
        },
        IndexEvent::ConfigLoaded(loaded) => match loaded {
            Err(m) => (done, IndexActionView::Fail(m@)),
            Ok(c) => if c.api_key@ == placeholder_api_key() {
                (done, IndexActionView::Fail("请先在配置文件中设置 API Key"@))
            } else {
                (in_phase(s, IndexPhase::Scanning), IndexActionView::ScanFiles)
            },
        },
        IndexEvent::FilesFound(found) => match found {
            Err(m) => (done, IndexActionView::Fail(m@)),
            Ok(n) => if n == 0 {
                (done, IndexActionView::Fail("未找到任何代码文件"@))
            } else {
                (
                    IndexState {
                        phase: IndexPhase::Chunking,
                        total_files: n,
                        next_file: 0,
                        total_chunks: 0,
                        next_chunk: 0,
                    },
                    chunk_action(0, n),
                )
            },
        },
        IndexEvent::FileChunked(made) => {
            let chunks = (s.total_chunks + match made {
                Ok(n) => n,
                Err(_) => 0,
            }) as usize;
            let next = (s.next_file + 1) as usize;
            if next < s.total_files {
                (
                    IndexState { next_file: next, total_chunks: chunks, ..s },
                    chunk_action(next, s.total_files),
                )
            } else if chunks == 0 {
                (
                    IndexState { phase: IndexPhase::Done, next_file: next, ..s },
                    IndexActionView::Fail("无法生成代码块"@),
                )
            } else {
                (
                    IndexState {
                        phase: IndexPhase::Embedding,
                        next_file: next,
                        total_chunks: chunks,
                        next_chunk: 0,
                        ..s
                    },
                    embed_action(0, chunks),
                )
            }
        },
        IndexEvent::Embedded => {
            let next = (s.next_chunk + 1) as usize;
            if next < s.total_chunks {
                (IndexState { next_chunk: next, ..s }, embed_action(next, s.total_chunks))
            } else {
                (IndexState { phase: IndexPhase::Saving, next_chunk: next, ..s }, IndexActionView::SaveIndex)
            }
        },
        IndexEvent::EmbeddingFailed { relative_path, error } => (
            done,
            IndexActionView::Fail(
                "Embedding API 调用失败 (文件: "@ + relative_path@ + "):\n\n"@ + error@
                    + "\n\n请检查 API Key 是否正确，或网络连接是否正常。"@,
            ),
        ),
        IndexEvent::Saved(saved) => match saved {
            Err(m) => (done, IndexActionView::Fail(m@)),
            Ok(_) => (done, IndexActionView::Finish),
        },
    }
}

/// Whether `index_step` can take the event `e` in the state `s`.
pub fn accepts(s: &IndexState, e: &IndexEvent) -> (r: bool)
    ensures
        r == (s.wf() && expects(*s, *e)),
{
    let wf = (s.phase != IndexPhase::Chunking || s.next_file < s.total_files) && (s.phase
        != IndexPhase::Embedding || s.next_chunk < s.total_chunks);
    let fits = match e {
        IndexEvent::Begin => s.phase == IndexPhase::Start,
        IndexEvent::FolderChecked { .. } => s.phase == IndexPhase::CheckingFolder,
        IndexEvent::ConfigLoaded(_) => s.phase == IndexPhase::LoadingConfig,
        IndexEvent::FilesFound(_) => s.phase == IndexPhase::Scanning,
        IndexEvent::FileChunked(made) => s.phase == IndexPhase::Chunking && match made {
            Ok(n) => *n <= usize::MAX - s.total_chunks,
            Err(_) => true,
        },
        IndexEvent::Embedded => s.phase == IndexPhase::Embedding,
        IndexEvent::EmbeddingFailed { .. } => s.phase == IndexPhase::Embedding,
        IndexEvent::Saved(_) => s.phase == IndexPhase::Saving,
    };
    wf && fits
}

fn chunk_step(index: usize, total: usize) -> (r: IndexAction)
    requires
        index < total,
    ensures
        r@ == chunk_action(index, total),
{
    IndexAction::ChunkFile {
        index,
        announce: index == 0,
        report: reports_chunking_progress(index + 1, total),
    }
}

fn embed_step(index: usize, total: usize) -> (r: IndexAction)
    requires
        index < total,
    ensures
        r@ == embed_action(index, total),
{
    let batch = if index % BATCH_SIZE == 0 {
        let end = batch_end(index, total);
        if reports_batch_progress(index, end, total) {
            Some((index, end))
        } else {
            None
        }
    } else {
        None
    };
    IndexAction::EmbedChunk { index, announce: index == 0, batch }
}

/// The next state and action after the event `e` in the state `s`, as
/// `index_next` says.
pub fn index_step(s: &IndexState, e: IndexEvent) -> (r: (IndexState, IndexAction))
    requires
        s.wf(),
        expects(*s, e),
    ensures
        r.0 == index_next(*s, e).0,
        r.1@ == index_next(*s, e).1,
        r.0.wf(),
{
    let done = IndexState { phase: IndexPhase::Done, ..*s };
    match e {
        IndexEvent::Begin => (IndexState { phase: IndexPhase::CheckingFolder, ..*s }, IndexAction::CheckFolder),
        IndexEvent::FolderChecked { exists, is_dir } => match check_folder(exists, is_dir) {
            Ok(()) => (IndexState { phase: IndexPhase::LoadingConfig, ..*s }, IndexAction::LoadConfig),
            Err(m) => (done, IndexAction::Fail(m)),
        },
        IndexEvent::ConfigLoaded(loaded) => match loaded {
            Err(m) => (done, IndexAction::Fail(m)),
            Ok(c) => match check_api_key(&c) {
                Ok(()) => (IndexState { phase: IndexPhase::Scanning, ..*s }, IndexAction::ScanFiles),
                Err(m) => (done, IndexAction::Fail(m)),
            },
        },
        IndexEvent::FilesFound(found) => match found {
            Err(m) => (done, IndexAction::Fail(m)),
            Ok(n) => match check_files_found(n) {
                Ok(()) => (
                    IndexState {
                        phase: IndexPhase::Chunking,
                        total_files: n,
                        next_file: 0,
                        total_chunks: 0,
                        next_chunk: 0,
                    },
                    chunk_step(0, n),
                ),
                Err(m) => (done, IndexAction::Fail(m)),
            },
        },
        IndexEvent::FileChunked(made) => {
            let chunks = s.total_chunks + match made {
                Ok(n) => n,
                Err(_) => 0,
            };
            let next = s.next_file + 1;
            if next < s.total_files {
                (IndexState { next_file: next, total_chunks: chunks, ..*s }, chunk_step(next, s.total_files))
            } else {
                match check_chunks_made(chunks) {
                    Ok(()) => (
                        IndexState {
                            phase: IndexPhase::Embedding,
                            next_file: next,
                            total_chunks: chunks,
                            next_chunk: 0,
                            ..*s
                        },
                        embed_step(0, chunks),
                    ),
                    Err(m) => (IndexState { phase: IndexPhase::Done, next_file: next, ..*s }, IndexAction::Fail(m)),
                }
            }
        },
        IndexEvent::Embedded => {
            let next = s.next_chunk + 1;
            if next < s.total_chunks {
                (IndexState { next_chunk: next, ..*s }, embed_step(next, s.total_chunks))
            } else {
                (IndexState { phase: IndexPhase::Saving, next_chunk: next, ..*s }, IndexAction::SaveIndex)
            }
        },
        IndexEvent::EmbeddingFailed { relative_path, error } => (
            done,
            IndexAction::Fail(embedding_failure_message(relative_path.as_str(), error.as_str())),
        ),
        IndexEvent::Saved(saved) => match saved {
            Err(m) => (done, IndexAction::Fail(m)),
            Ok(()) => (done, IndexAction::Finish),
        },
    }
}

} // verus!

verus! {

/// While chunking, each file is answered for in turn: the next state is
/// still chunking the next file unless this was the last one, the chunks
/// made of this file (none when it could not be chunked) are added to the
/// count, and a file that cannot be chunked is skipped, whatever came before.
/// After the last file the run embeds from the first chunk, or, when no file
/// gave any chunk, fails with "无法生成代码块" (and only then).
pub proof fn lemma_chunking_goes_through_every_file(s: IndexState, made: Result<usize, String>)
    requires
        s.wf(),
        s.phase == IndexPhase::Chunking,
        expects(s, IndexEvent::FileChunked(made)),
    ensures
        ({
            let (t, a) = index_next(s, IndexEvent::FileChunked(made));
            let added: int = match made {
                Ok(n) => n as int,
                Err(_) => 0,
            };
            &&& t.next_file == s.next_file + 1
            &&& t.total_files == s.total_files
            &&& s.next_file + 1 < s.total_files ==> {
                &&& t.phase == IndexPhase::Chunking
                &&& t.total_chunks == s.total_chunks + added
                &&& a == IndexActionView::ChunkFile {
                    index: (s.next_file + 1) as usize,
                    announce: false,
                    report: (s.next_file + 2) % 50 == 0 || s.next_file + 2 == s.total_files,
                }
            }
            &&& s.next_file + 1 == s.total_files && s.total_chunks + added > 0 ==> {
                &&& t.phase == IndexPhase::Embedding
                &&& t.total_chunks == s.total_chunks + added
                &&& t.next_chunk == 0
                &&& a == IndexActionView::EmbedChunk {
                    index: 0,
                    announce: true,
                    batch: batch_report(0, t.total_chunks),
                }
            }
            &&& (a is Fail) <==> (s.next_file + 1 == s.total_files && s.total_chunks + added == 0)
            &&& a is Fail ==> a == IndexActionView::Fail("无法生成代码块"@) && t.phase
                == IndexPhase::Done
        }),
{
}

/// A file that cannot be chunked, other than the last, leaves the count of
/// chunks as it was and moves on to the next file.
pub proof fn lemma_unreadable_file_is_skipped(s: IndexState, error: String)
    requires
        s.wf(),
        s.phase == IndexPhase::Chunking,
        s.next_file + 1 < s.total_files,
    ensures
        index_next(s, IndexEvent::FileChunked(Err(error))).0 == (IndexState {
            next_file: (s.next_file + 1) as usize,
            ..s
        }),
        index_next(s, IndexEvent::FileChunked(Err(error))).1 matches IndexActionView::ChunkFile {
            index,
            ..
        } && index == s.next_file + 1,
{
}

/// A run stops exactly at an error: an invalid folder, a configuration that
/// cannot be loaded or still holds the placeholder key, a failed scan or one
/// that finds nothing, no chunk after the last file, a failed embedding, or a
/// failed save; a stopped run is done. Otherwise it goes on, and it is done
/// only when the index is saved.
pub proof fn lemma_run_stops_exactly_at_errors(s: IndexState, e: IndexEvent)
    requires
        s.wf(),
        expects(s, e),
    ensures
        (index_next(s, e).1 is Fail) <==> match e {
            IndexEvent::Begin => false,
            IndexEvent::FolderChecked { exists, is_dir } => !(exists && is_dir),
            IndexEvent::ConfigLoaded(loaded) => match loaded {
                Ok(c) => c.api_key@ == "YOUR_API_KEY"@,
                Err(_) => true,
            },
            IndexEvent::FilesFound(found) => match found {
                Ok(n) => n == 0,
                Err(_) => true,
            },
            IndexEvent::FileChunked(made) => s.next_file + 1 == s.total_files && s.total_chunks
                + match made {
                Ok(n) => n as int,
                Err(_) => 0,
            } == 0,
            IndexEvent::Embedded => false,
            IndexEvent::EmbeddingFailed { .. } => true,
            IndexEvent::Saved(saved) => saved is Err,
        },
        (index_next(s, e).0.phase == IndexPhase::Done) <==> (index_next(s, e).1 is Fail
            || index_next(s, e).1 is Finish),
        (index_next(s, e).1 is Finish) <==> (e matches IndexEvent::Saved(saved) && saved is Ok),
        e matches IndexEvent::ConfigLoaded(Err(m)) ==> index_next(s, e).1 == IndexActionView::Fail(
            m@,
        ),
        e matches IndexEvent::FilesFound(Err(m)) ==> index_next(s, e).1 == IndexActionView::Fail(m@),
        e matches IndexEvent::Saved(Err(m)) ==> index_next(s, e).1 == IndexActionView::Fail(m@),
{
    reveal_strlit("YOUR_API_KEY");
}

/// While embedding, each chunk is embedded in turn, from the first to the
/// last; after the last the index is saved.
pub proof fn lemma_embedding_goes_through_every_chunk(s: IndexState)
    requires
        s.wf(),
        s.phase == IndexPhase::Embedding,
    ensures
        ({
            let (t, a) = index_next(s, IndexEvent::Embedded);
            &&& t.next_chunk == s.next_chunk + 1
            &&& t.total_chunks == s.total_chunks
            &&& t.total_files == s.total_files
            &&& s.next_chunk + 1 < s.total_chunks ==> t.phase == IndexPhase::Embedding && a
                == IndexActionView::EmbedChunk {
                index: (s.next_chunk + 1) as usize,
                announce: false,
                batch: batch_report((s.next_chunk + 1) as usize, s.total_chunks),
            }
            &&& s.next_chunk + 1 == s.total_chunks ==> t.phase == IndexPhase::Saving && a
                == IndexActionView::SaveIndex
        }),
{
}

/// Progress on a batch is reported before its first chunk (chunks are taken
/// ten at a time), giving the batch's first chunk and the end of its range,
/// when that first chunk is a multiple of 50 or the batch reaches the last
/// chunk; at no other chunk.
pub proof fn lemma_batch_reports(index: usize, total: usize)
    requires
        index < total,
    ensures
        batch_report(index, total) is Some <==> (index % 10 == 0 && (index % 50 == 0 || index
            + 10 >= total)),
        batch_report(index, total) is Some ==> batch_report(index, total) == Some(
            (index, if index + 10 < total { (index + 10) as usize } else { total }),
        ),
{
}

/// A run begins by checking the folder, then loads the configuration, then
/// scans; a scan that finds `n` files starts chunking from the first file
/// with no chunk counted, announcing the chunking, and reporting progress on
/// the first file only when it is the only one.
pub proof fn lemma_run_begins(s: IndexState, e: IndexEvent)
    requires
        s.wf(),
        expects(s, e),
    ensures
        e is Begin ==> index_next(s, e).0.phase == IndexPhase::CheckingFolder && index_next(s, e).1
            == IndexActionView::CheckFolder,
        e == (IndexEvent::FolderChecked { exists: true, is_dir: true }) ==> index_next(s, e).0.phase
            == IndexPhase::LoadingConfig && index_next(s, e).1 == IndexActionView::LoadConfig,
        (e matches IndexEvent::ConfigLoaded(Ok(c)) && c.api_key@ != "YOUR_API_KEY"@) ==> index_next(
            s,
            e,
        ).0.phase == IndexPhase::Scanning && index_next(s, e).1 == IndexActionView::ScanFiles,
        (e matches IndexEvent::FilesFound(Ok(n)) && n > 0) ==> ({
            let n = match e {
                IndexEvent::FilesFound(Ok(n)) => n,
                _ => 0,
            };
            &&& index_next(s, e).0 == (IndexState {
                phase: IndexPhase::Chunking,
                total_files: n,
                next_file: 0,
                total_chunks: 0,
                next_chunk: 0,
            })
            &&& index_next(s, e).1 == IndexActionView::ChunkFile {
                index: 0,
                announce: true,
                report: n == 1,
            }
        }),
{
}

} // verus!
