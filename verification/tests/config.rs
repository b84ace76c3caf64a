use std::path::Path;

use code_indexer::config::{
    config_dir_under, get_config_dir, get_config_path, get_index_dir, get_index_path,
};

fn joined(base: &str, part: &str) -> String {
    Path::new(base).join(part).to_string_lossy().into_owned()
}

#[test]
fn config_dir_under_a_base() {
    let base = "/home/u/.config";
    assert_eq!(config_dir_under(Some(base.to_string())), joined(base, "code-indexer"));
    assert_ne!(config_dir_under(Some(base.to_string())), base);
    assert_eq!(config_dir_under(None), joined(".", "code-indexer"));
}

#[test]
fn config_locations() {
    let dir = get_config_dir();
    assert!(dir.ends_with("code-indexer"));
    assert_eq!(get_config_path(), joined(&dir, "config.json"));
    assert_eq!(get_index_dir(), joined(&dir, "indices"));
    assert_eq!(get_index_path("proj"), joined(&joined(&dir, "indices"), "proj"));
}

#[test]
fn index_paths_are_named_after_their_projects() {
    let dir = get_index_dir();
    let a = get_index_path("alpha");
    let b = get_index_path("beta");
    assert_ne!(a, b);
    assert_eq!(Path::new(&a).file_name().unwrap(), "alpha");
    assert_eq!(Path::new(&b).file_name().unwrap(), "beta");
    assert_eq!(Path::new(&a).parent().unwrap(), Path::new(&dir));
}
