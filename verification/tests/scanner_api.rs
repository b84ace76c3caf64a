use code_indexer::api::{
    api_error_message, authorization_value, embedding_input, first_embedding,
    request_failure_message, response_parse_failure_message,
};
use code_indexer::indexer::scanner::{classify_entry, is_code_file, is_skipped_entry, EntryStep};

#[test]
fn code_files_by_extension() {
    assert!(is_code_file("/p/src/main.rs"));
    assert!(is_code_file("/p/README.MD"));
    assert!(is_code_file("x/Dockerfile.dockerfile"));
    assert!(!is_code_file("/p/image.png"));
    assert!(!is_code_file("/p/Makefile"));
    assert!(!is_code_file("/p/.bashrc"));
}

#[test]
fn skipped_entries() {
    assert!(is_skipped_entry(".git"));
    assert!(is_skipped_entry(".hidden"));
    assert!(is_skipped_entry("node_modules"));
    assert!(is_skipped_entry("target"));
    assert!(!is_skipped_entry("src"));
    assert!(!is_skipped_entry(""));
}

#[test]
fn entry_steps() {
    assert_eq!(classify_entry("build", "/p/build", true), EntryStep::Skip);
    assert_eq!(classify_entry("src", "/p/src", true), EntryStep::Descend);
    assert_eq!(classify_entry("a.go", "/p/a.go", false), EntryStep::Collect);
    assert_eq!(classify_entry("a.bin", "/p/a.bin", false), EntryStep::Pass);
}

#[test]
fn embedding_requests() {
    assert_eq!(embedding_input("  \t\n"), Err("文本内容为空".to_string()));
    assert_eq!(embedding_input("\u{3000} code \n"), Ok("code".to_string()));
    assert_eq!(authorization_value("k"), "Bearer k");
    assert_eq!(request_failure_message("timeout"), "API 请求失败: timeout");
    assert_eq!(api_error_message("401 Unauthorized", "{}"), "API 错误 401 Unauthorized: {}");
    assert_eq!(response_parse_failure_message("eof"), "解析响应失败: eof");
    assert_eq!(first_embedding(Vec::new()), Err("响应中没有 embedding".to_string()));
    assert_eq!(first_embedding(vec![vec![1, 2], vec![3]]), Ok(vec![1, 2]));
}

use code_indexer::indexer::scanner::{CodeFileWalk, WalkStep};
use code_indexer::models::FileEntry;

fn fe(dir: &str, name: &str, is_folder: bool) -> FileEntry {
    FileEntry { name: name.to_string(), path: format!("{}/{}", dir, name), is_folder }
}

fn listing(path: &str) -> Vec<FileEntry> {
    match path {
        "/p" => vec![
            fe("/p", "a.rs", false),
            fe("/p", "src", true),
            fe("/p", ".git", true),
            fe("/p", "notes.txt", false),
            fe("/p", "z.py", false),
            fe("/p", "node_modules", true),
        ],
        "/p/src" => vec![fe("/p/src", "lib.rs", false), fe("/p/src", "deep", true), fe("/p/src", "x.go", false)],
        "/p/src/deep" => vec![fe("/p/src/deep", "README.md", false)],
        _ => panic!("unexpected read of {}", path),
    }
}

fn recursive(path: &str, out: &mut Vec<String>) {
    for e in listing(path) {
        if e.name.starts_with('.') || e.name == "node_modules" {
            continue;
        }
        if e.is_folder {
            recursive(&e.path, out);
        } else if is_code_file(&e.path) {
            out.push(e.path.clone());
        }
    }
}

#[test]
fn walk_collects_like_the_recursive_walk() {
    let mut walk = CodeFileWalk::new("/p", true);
    let files = loop {
        match walk.next_step() {
            WalkStep::ReadDir(d) => walk.entries_read(listing(&d)),
            WalkStep::Finished(files) => break files,
        }
    };
    let mut expected = Vec::new();
    recursive("/p", &mut expected);
    assert_eq!(files, expected);
    assert_eq!(
        files,
        vec!["/p/a.rs", "/p/src/lib.rs", "/p/src/deep/README.md", "/p/src/x.go", "/p/z.py"]
    );
}

#[test]
fn walk_of_a_file_root_is_empty() {
    let mut walk = CodeFileWalk::new("/p/a.rs", false);
    match walk.next_step() {
        WalkStep::Finished(files) => assert!(files.is_empty()),
        WalkStep::ReadDir(d) => panic!("read {}", d),
    }
}

#[test]
fn upper_case_extensions_are_lowered() {
    assert!(is_code_file("src/Main.RS"));
    assert!(is_code_file("web/App.TSX"));
    assert!(!is_code_file("img/Logo.PNG"));
}
