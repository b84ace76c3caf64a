# code_indexer

A semantic code search tool: it walks a code repository, cuts each source
file into overlapping chunks of lines, records the symbol definitions of each
chunk, stores one embedding vector per chunk, and ranks chunks against a
query by cosine similarity.

The library in `src/` is verified with Verus; `app/` is the command-line
program around it (file and network I/O, JSON, floating-point ranking).

## Library modules

- `text` — character-level string operations (trimming by Unicode
  `White_Space`, `str::lines`, prefixes and substrings, UTF-8 length,
  decimal and zero-padded numbers, joining, lexicographic order), each
  specified over `Seq<char>`.
- `constants` — ignored directories, indexed extensions, chunk and batch sizes.
- `indexer::symbols` — which lines define symbols, per language.
- `indexer::chunker` — the sliding window of lines and the chunks built on it.
- `indexer::scanner` — which files are indexed, and a step-by-step
  depth-first walk of a project that the program drives.
- `indexer::storage` — the binary format of stored embeddings.
- `ordering` — a stable insertion sort for listings.
- `commands` — listing order, time stamps, the validations and progress
  reports of indexing, and the bounds of a search.
- `indexing` — the order of the steps of indexing a folder, as a step
  function from state and event to next state and action that the program
  drives.
- `config` — where configuration and indices live.
- `api` — the request to the embedding service and its errors.
- `paths` — the calls into `std::path` (file names, extensions, prefixes,
  joining) and `str::to_lowercase`.

## Proved properties

- Chunk windows start at line 0, end at the last line, hold at most 100
  lines, overlap by 10 lines, and cover every line; chunk identifiers are
  distinct within a file.
- Stored embeddings read back as written (for vectors whose length fits in
  a `u32`, the width of the stored length), and written-out readings give the
  bytes back.
- Extracted symbols are trimmed, non-empty lines of at most 100 bytes; for a
  known source extension they are exactly the lines that `is_symbol_line`
  accepts. Extracting the symbols of the symbols joined by newlines gives
  them back.
- The index directory of a project whose name is one ordinary path component
  has that name as its file name, so different projects get different
  directories.
- Listings are the unique stable sort of their entries; creation time texts
  sort as the times do and have the form `YYYY-MM-DD hh:mm:ss`.
- The step-by-step walk collects the same files, in the same order, as a
  recursive walk of the same tree.
