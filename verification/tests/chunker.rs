use code_indexer::constants::{CHUNK_MAX_LINES, CHUNK_OVERLAP};
use code_indexer::indexer::chunker::{chunk_file, chunk_lines};

fn numbered(n: usize) -> Vec<String> {
    (0..n).map(|i| format!("line {}", i)).collect()
}

#[test]
fn empty_file_has_no_chunks() {
    assert!(chunk_lines("/p/a.rs", "a.rs", "rs", &Vec::new()).is_empty());
}

#[test]
fn small_file_is_one_chunk() {
    let lines = vec!["fn main() {".to_string(), "}".to_string()];
    let chunks = chunk_lines("/p/src/main.rs", "src/main.rs", "rs", &lines);
    assert_eq!(chunks.len(), 1);
    let c = &chunks[0];
    assert_eq!(c.chunk_id, "src_main.rs:0:2");
    assert_eq!(c.file_path, "/p/src/main.rs");
    assert_eq!(c.relative_path, "src/main.rs");
    assert_eq!(c.start_line, 1);
    assert_eq!(c.end_line, 2);
    assert_eq!(c.content, "fn main() {\n}");
    assert_eq!(c.extension, "rs");
    assert_eq!(c.symbols, vec!["fn main() {".to_string()]);
}

#[test]
fn windows_overlap_and_cover_the_file() {
    let lines = numbered(250);
    let chunks = chunk_lines("f", "f", "txt", &lines);
    let ranges: Vec<(usize, usize)> = chunks.iter().map(|c| (c.start_line - 1, c.end_line)).collect();
    assert_eq!(ranges, vec![(0, 100), (90, 190), (180, 250)]);
    for w in ranges.windows(2) {
        assert_eq!(w[1].0, w[0].1 - CHUNK_OVERLAP);
        assert_eq!(w[0].1 - w[0].0, CHUNK_MAX_LINES);
    }
    assert_eq!(chunks[1].chunk_id, "f:90:190");
    assert_eq!(chunks[2].content.lines().count(), 70);
    assert!(chunks[2].content.starts_with("line 180\n"));
}

#[test]
fn exactly_one_window_long() {
    assert_eq!(chunk_lines("f", "f", "txt", &numbered(100)).len(), 1);
    let c = chunk_lines("f", "f", "txt", &numbered(101));
    assert_eq!(c.len(), 2);
    assert_eq!((c[1].start_line, c[1].end_line), (91, 101));
}

#[test]
fn chunk_ids_replace_both_separators() {
    let chunks = chunk_lines("x", "a/b\\c.py", "py", &vec!["def f():".to_string()]);
    assert_eq!(chunks[0].chunk_id, "a_b_c.py:0:1");
}

#[test]
fn chunk_file_relative_path_and_extension() {
    let lines = vec!["def f():".to_string(), "  pass".to_string()];
    let chunks = chunk_file("/home/u/proj/pkg/Mod.PY", "/home/u/proj", &lines);
    assert_eq!(chunks[0].relative_path, "pkg/Mod.PY");
    assert_eq!(chunks[0].extension, "py");
    assert_eq!(chunks[0].chunk_id, "pkg_Mod.PY:0:2");
    assert_eq!(chunks[0].symbols, vec!["def f():".to_string()]);
}

#[test]
fn chunk_file_outside_root_uses_file_name() {
    let chunks = chunk_file("/other/place/Makefile", "/home/u/proj", &vec!["all:".to_string()]);
    assert_eq!(chunks[0].relative_path, "Makefile");
    assert_eq!(chunks[0].extension, "");
}

#[test]
fn chunk_ids_are_distinct() {
    let chunks = chunk_lines("f", "dir/f.rs", "rs", &numbered(1000));
    let mut ids: Vec<&str> = chunks.iter().map(|c| c.chunk_id.as_str()).collect();
    let n = ids.len();
    ids.sort();
    ids.dedup();
    assert_eq!(ids.len(), n);
    assert_eq!(n, 11);
}

#[test]
fn every_line_is_in_a_chunk() {
    for n in [1usize, 99, 100, 101, 190, 191, 455] {
        let chunks = chunk_lines("f", "f", "txt", &numbered(n));
        for line in 1..=n {
            assert!(chunks.iter().any(|c| c.start_line <= line && line <= c.end_line));
        }
        assert_eq!(chunks.last().unwrap().end_line, n);
        assert_eq!(chunks[0].start_line, 1);
    }
}
