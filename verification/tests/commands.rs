use code_indexer::commands::{
    arrange_directory_entries, batch_end, batch_label, check_api_key, check_chunks_made,
    check_directory, check_files_found, check_folder, check_query, chunking_message,
    completion_message, drive_candidates, embedding_dim, embedding_failure_message,
    embedding_progress_message, embedding_start_message, format_timestamp, get_timestamp,
    index_summary, missing_index_message, newest_first, project_name, reports_batch_progress,
    reports_chunking_progress, result_count, unix_root,
};
use code_indexer::models::{Config, FileEntry, IndexMetadata};

fn entry(name: &str, is_folder: bool) -> FileEntry {
    FileEntry { name: name.to_string(), path: format!("/d/{}", name), is_folder }
}

fn names(v: &[FileEntry]) -> Vec<String> {
    v.iter().map(|e| e.name.clone()).collect()
}

#[test]
fn listing_puts_folders_first_then_names() {
    let entries = vec![
        entry("b.rs", false),
        entry("src", true),
        entry("a.rs", false),
        entry("docs", true),
        entry("Z.txt", false),
    ];
    let out = arrange_directory_entries(entries);
    assert_eq!(names(&out), vec!["docs", "src", "Z.txt", "a.rs", "b.rs"]);
}

#[test]
fn listing_drops_dots_and_ignored_folders_only() {
    let entries = vec![
        entry(".", true),
        entry("..", true),
        entry("node_modules", true),
        entry("target", false),
        entry(".git", true),
        entry("lib", true),
    ];
    let out = arrange_directory_entries(entries);
    assert_eq!(names(&out), vec!["lib", "target"]);
}

#[test]
fn listing_is_stable_for_equal_entries() {
    let mut first = entry("x", false);
    first.path = "/first".to_string();
    let mut second = entry("x", false);
    second.path = "/second".to_string();
    let out = arrange_directory_entries(vec![first, entry("a", false), second]);
    assert_eq!(names(&out), vec!["a", "x", "x"]);
    assert_eq!(out[1].path, "/first");
    assert_eq!(out[2].path, "/second");
}

#[test]
fn directory_checks() {
    assert_eq!(check_directory(false, false), Err("目录不存在".to_string()));
    assert_eq!(check_directory(true, false), Err("路径不是目录".to_string()));
    assert_eq!(check_directory(true, true), Ok(()));
}

#[test]
fn drives() {
    let d = drive_candidates();
    assert_eq!(d.len(), 26);
    assert_eq!(d[0].name, "A:");
    assert_eq!(d[2].path, "C:\\");
    assert_eq!(d[25].name, "Z:");
    assert!(d.iter().all(|e| e.is_folder));
    let r = unix_root();
    assert_eq!((r[0].name.as_str(), r[0].path.as_str(), r[0].is_folder), ("/", "/", true));
}

fn meta(name: &str, created_at: &str) -> IndexMetadata {
    IndexMetadata {
        project_name: name.to_string(),
        project_path: format!("/p/{}", name),
        total_files: 1,
        total_chunks: 1,
        embedding_model: "m".to_string(),
        embedding_dim: 3,
        created_at: created_at.to_string(),
    }
}

#[test]
fn indices_newest_first() {
    let out = newest_first(vec![
        meta("old", "2020-01-01 00:00:00"),
        meta("new", "2024-05-06 07:08:09"),
        meta("mid", "2022-03-04 05:06:07"),
        meta("mid2", "2022-03-04 05:06:07"),
    ]);
    let order: Vec<&str> = out.iter().map(|m| m.project_name.as_str()).collect();
    assert_eq!(order, vec!["new", "mid", "mid2", "old"]);
}

#[test]
fn timestamps() {
    assert_eq!(format_timestamp(0), "1970-01-01 00:00:00");
    assert_eq!(format_timestamp(86399), "1970-01-01 23:59:59");
    assert_eq!(format_timestamp(86400 * 364), "1970-13-05 00:00:00");
    assert_eq!(format_timestamp(1_700_000_000), "2023-12-01 22:13:20");
    assert_eq!(format_timestamp(u64::MAX), "584942419325-01-27 07:00:15");
    let now = get_timestamp();
    assert_eq!(now.len(), 19);
    assert!(now.as_str() > "2023");
}

#[test]
fn api_key_check() {
    assert_eq!(
        check_api_key(&Config::default()),
        Err("请先在配置文件中设置 API Key".to_string())
    );
    let mut c = Config::default();
    c.api_key = "sk-123".to_string();
    assert_eq!(check_api_key(&c), Ok(()));
}

#[test]
fn default_config() {
    let c = Config::default();
    assert_eq!(c.api_key, "YOUR_API_KEY");
    assert_eq!(c.model, "text-embedding-v4");
    assert_eq!(
        c.base_url,
        "https://dashscope.aliyuncs.com/api/v1/services/embeddings/text-embedding"
    );
}

#[test]
fn folder_and_count_checks() {
    assert_eq!(check_folder(false, false), Err("无效的文件夹路径".to_string()));
    assert_eq!(check_folder(true, false), Err("无效的文件夹路径".to_string()));
    assert_eq!(check_folder(true, true), Ok(()));
    assert_eq!(check_files_found(0), Err("未找到任何代码文件".to_string()));
    assert_eq!(check_files_found(3), Ok(()));
    assert_eq!(check_chunks_made(0), Err("无法生成代码块".to_string()));
    assert_eq!(check_chunks_made(1), Ok(()));
}

#[test]
fn project_names() {
    assert_eq!(project_name("/home/u/my-proj"), "my-proj");
    assert_eq!(project_name("/home/u/my-proj/"), "my-proj");
    assert_eq!(project_name("/"), "unknown");
    assert_eq!(project_name("/home/.."), "unknown");
}

#[test]
fn batches() {
    assert_eq!(batch_end(0, 10), 10);
    assert_eq!(batch_end(0, 23), 10);
    assert_eq!(batch_end(10, 23), 20);
    assert_eq!(batch_end(20, 23), 23);
    assert_eq!(batch_end(0, 3), 3);
    assert_eq!(batch_label(0), "第 1 批");
    assert_eq!(batch_label(20), "第 3 批");
    assert!(reports_batch_progress(50, 60, 100));
    assert!(reports_batch_progress(20, 23, 23));
    assert!(!reports_batch_progress(20, 30, 100));
}

#[test]
fn progress_messages() {
    assert!(reports_chunking_progress(50, 120));
    assert!(reports_chunking_progress(7, 7));
    assert!(!reports_chunking_progress(7, 8));
    assert_eq!(chunking_message(3, 12), "切分代码 (3/12)");
    assert_eq!(embedding_progress_message(20, 45), "生成嵌入向量 (20/45)");
    assert_eq!(embedding_start_message(45), "准备生成 45 个嵌入向量...");
    assert_eq!(completion_message(2, 5), "索引完成! 2 个文件, 5 个代码块");
    assert_eq!(
        index_summary("/x/idx", 2, 5, 1024),
        "索引已保存到: /x/idx\n\n统计:\n- 文件数: 2\n- 代码块: 5\n- 向量维度: 1024"
    );
    assert_eq!(
        embedding_failure_message("a/b.rs", "boom"),
        "Embedding API 调用失败 (文件: a/b.rs):\n\nboom\n\n请检查 API Key 是否正确，或网络连接是否正常。"
    );
}

#[test]
fn dimension_of_index() {
    assert_eq!(embedding_dim(&vec![vec![1, 2, 3], vec![4]]), 3);
    assert_eq!(embedding_dim(&Vec::new()), 1536);
}

#[test]
fn search_bounds() {
    assert_eq!(check_query("  \n"), Err("查询不能为空".to_string()));
    assert_eq!(check_query(" find me "), Ok(()));
    assert_eq!(result_count(None, 50), 10);
    assert_eq!(result_count(None, 4), 4);
    assert_eq!(result_count(Some(3), 50), 3);
    assert_eq!(result_count(Some(30), 5), 5);
    assert_eq!(missing_index_message("p"), "项目 'p' 的索引不存在");
}

#[test]
fn timestamp_text_order_follows_time() {
    let times = [0u64, 59, 60, 3599, 3600, 86399, 86400, 86400 * 29, 86400 * 30, 86400 * 364, 86400 * 365, 1_700_000_000, 253_234_079_999];
    for w in times.windows(2) {
        assert!(format_timestamp(w[0]) < format_timestamp(w[1]), "{} {}", w[0], w[1]);
    }
}

#[test]
fn newest_first_by_created_time() {
    let a = meta("a", &format_timestamp(1_000));
    let b = meta("b", &format_timestamp(2_000_000));
    let c = meta("c", &format_timestamp(3_000_000_000));
    let out = newest_first(vec![a, c, b]);
    let order: Vec<&str> = out.iter().map(|m| m.project_name.as_str()).collect();
    assert_eq!(order, vec!["c", "b", "a"]);
}

#[test]
fn timestamp_text_form() {
    for secs in [0u64, 59, 3599, 86_399, 86_400 * 364 + 86_399, 1_234_567_890, 253_234_079_999] {
        let t = format_timestamp(secs);
        let b = t.as_bytes();
        assert_eq!(b.len(), 19, "{}", t);
        for (i, c) in b.iter().enumerate() {
            match i {
                4 | 7 => assert_eq!(*c, b'-'),
                10 => assert_eq!(*c, b' '),
                13 | 16 => assert_eq!(*c, b':'),
                _ => assert!(c.is_ascii_digit(), "{}", t),
            }
        }
        let field = |a: usize, z: usize| t[a..z].parse::<u32>().unwrap();
        assert!((1..=13).contains(&field(5, 7)));
        assert!((1..=30).contains(&field(8, 10)));
        assert!(field(11, 13) <= 23 && field(14, 16) <= 59 && field(17, 19) <= 59);
    }
}
