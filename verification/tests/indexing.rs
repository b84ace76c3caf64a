use code_indexer::indexing::{accepts, index_step, IndexAction, IndexEvent, IndexPhase, IndexState};
use code_indexer::models::Config;

fn config(key: &str) -> Config {
    Config { api_key: key.to_string(), model: "m".to_string(), base_url: "u".to_string() }
}

fn step(s: &IndexState, e: IndexEvent) -> (IndexState, IndexAction) {
    assert!(accepts(s, &e));
    index_step(s, e)
}

fn fail_text(a: IndexAction) -> String {
    match a {
        IndexAction::Fail(m) => m,
        other => panic!("expected a failure, got {:?}", other),
    }
}

fn up_to_scan() -> IndexState {
    let s = IndexState::new();
    let (s, a) = step(&s, IndexEvent::Begin);
    assert!(matches!(a, IndexAction::CheckFolder));
    let (s, a) = step(&s, IndexEvent::FolderChecked { exists: true, is_dir: true });
    assert!(matches!(a, IndexAction::LoadConfig));
    let (s, a) = step(&s, IndexEvent::ConfigLoaded(Ok(config("sk-1"))));
    assert!(matches!(a, IndexAction::ScanFiles));
    s
}

#[test]
fn invalid_folder_stops_the_run() {
    let (s, _) = step(&IndexState::new(), IndexEvent::Begin);
    let (s, a) = step(&s, IndexEvent::FolderChecked { exists: true, is_dir: false });
    assert_eq!(fail_text(a), "无效的文件夹路径");
    assert_eq!(s.phase, IndexPhase::Done);
    assert!(!accepts(&s, &IndexEvent::Begin));
}

#[test]
fn placeholder_key_and_config_errors_stop_the_run() {
    let (s, _) = step(&IndexState::new(), IndexEvent::Begin);
    let (s, _) = step(&s, IndexEvent::FolderChecked { exists: true, is_dir: true });
    let (_, a) = step(&s, IndexEvent::ConfigLoaded(Ok(config("YOUR_API_KEY"))));
    assert_eq!(fail_text(a), "请先在配置文件中设置 API Key");
    let (_, a) = step(&s, IndexEvent::ConfigLoaded(Err("读取配置文件失败: x".to_string())));
    assert_eq!(fail_text(a), "读取配置文件失败: x");
}

#[test]
fn no_files_or_no_chunks_stop_the_run() {
    let s = up_to_scan();
    let (_, a) = step(&s, IndexEvent::FilesFound(Ok(0)));
    assert_eq!(fail_text(a), "未找到任何代码文件");
    let (s, a) = step(&s, IndexEvent::FilesFound(Ok(1)));
    assert!(matches!(a, IndexAction::ChunkFile { index: 0, announce: true, report: true }));
    let (_, a) = step(&s, IndexEvent::FileChunked(Err("无法打开文件".to_string())));
    assert_eq!(fail_text(a), "无法生成代码块");
}

#[test]
fn a_whole_run() {
    let s = up_to_scan();
    let (mut s, a) = step(&s, IndexEvent::FilesFound(Ok(3)));
    assert!(matches!(a, IndexAction::ChunkFile { index: 0, announce: true, report: false }));
    let (s2, a) = step(&s, IndexEvent::FileChunked(Ok(7)));
    assert!(matches!(a, IndexAction::ChunkFile { index: 1, announce: false, report: false }));
    s = s2;
    let (s2, a) = step(&s, IndexEvent::FileChunked(Err("skip".to_string())));
    assert!(matches!(a, IndexAction::ChunkFile { index: 2, announce: false, report: true }));
    s = s2;
    let (s2, a) = step(&s, IndexEvent::FileChunked(Ok(5)));
    assert!(matches!(a, IndexAction::EmbedChunk { index: 0, announce: true, batch: Some((0, 10)) }));
    s = s2;
    assert_eq!((s.total_files, s.total_chunks), (3, 12));
    for i in 1..12 {
        let (s2, a) = step(&s, IndexEvent::Embedded);
        match a {
            IndexAction::EmbedChunk { index, announce, batch } => {
                assert_eq!(index, i);
                assert!(!announce);
                assert_eq!(batch, if i == 10 { Some((10, 12)) } else { None });
            }
            other => panic!("{:?}", other),
        }
        s = s2;
    }
    let (s2, a) = step(&s, IndexEvent::Embedded);
    assert!(matches!(a, IndexAction::SaveIndex));
    let (s3, a) = step(&s2, IndexEvent::Saved(Ok(())));
    assert!(matches!(a, IndexAction::Finish));
    assert_eq!(s3.phase, IndexPhase::Done);
    let (_, a) = step(&s2, IndexEvent::Saved(Err("写入元数据失败".to_string())));
    assert_eq!(fail_text(a), "写入元数据失败");
}

#[test]
fn first_embedding_failure_stops_the_run() {
    let s = up_to_scan();
    let (s, _) = step(&s, IndexEvent::FilesFound(Ok(1)));
    let (s, _) = step(&s, IndexEvent::FileChunked(Ok(2)));
    let (s, _) = step(&s, IndexEvent::Embedded);
    let (s, a) = step(
        &s,
        IndexEvent::EmbeddingFailed { relative_path: "src/a.rs".to_string(), error: "401".to_string() },
    );
    assert_eq!(
        fail_text(a),
        "Embedding API 调用失败 (文件: src/a.rs):\n\n401\n\n请检查 API Key 是否正确，或网络连接是否正常。"
    );
    assert_eq!(s.phase, IndexPhase::Done);
}

#[test]
fn events_out_of_turn_are_not_accepted() {
    let s = IndexState::new();
    assert!(!accepts(&s, &IndexEvent::Embedded));
    let s = up_to_scan();
    assert!(!accepts(&s, &IndexEvent::FileChunked(Ok(1))));
    let (s, _) = step(&s, IndexEvent::FilesFound(Ok(2)));
    let (s, _) = step(&s, IndexEvent::FileChunked(Ok(1)));
    assert!(accepts(&s, &IndexEvent::FileChunked(Ok(3))));
    assert!(!accepts(&s, &IndexEvent::FileChunked(Ok(usize::MAX))));
    assert!(!accepts(&s, &IndexEvent::Embedded));
}
