use replace_music::{classify_entry, AssetEntry, StreamFiles, Visit, STREAM_DIR};

fn single_path(files: &StreamFiles, hash: u64) -> Option<String> {
    match files.get(hash) {
        Some(AssetEntry::SingleFile(p)) => Some(p.clone()),
        _ => None,
    }
}

#[test]
fn empty_index_misses() {
    let files = StreamFiles::new();
    assert!(files.get(0).is_none());
    assert!(files.get(u64::MAX).is_none());
}

#[test]
fn inserted_entry_is_found() {
    let mut files = StreamFiles::new();
    files.insert(17, AssetEntry::SingleFile("rom:/stream/a.webm".to_string()));
    assert_eq!(single_path(&files, 17), Some("rom:/stream/a.webm".to_string()));
    assert!(files.get(18).is_none());
}

#[test]
fn later_insert_replaces_earlier() {
    let mut files = StreamFiles::new();
    files.insert(5, AssetEntry::SingleFile("first".to_string()));
    files.insert(5, AssetEntry::Pool("second".to_string()));
    assert!(matches!(files.get(5), Some(AssetEntry::Pool(d)) if d == "second"));
}

#[test]
fn visit_indexes_file() {
    let mut files = StreamFiles::new();
    let v = classify_entry(STREAM_DIR, "rom:/stream", "foo.webm", false);
    assert!(files.visit(v, 42).is_none());
    assert_eq!(single_path(&files, 42), Some("rom:/stream/foo.webm".to_string()));
}

#[test]
fn visit_returns_subdirectory() {
    let mut files = StreamFiles::new();
    let v = classify_entry(STREAM_DIR, "rom:/stream", "bgm", true);
    assert_eq!(files.visit(v, 42), Some("rom:/stream/bgm".to_string()));
    assert!(files.get(42).is_none());
}

#[test]
fn visit_leaves_hidden_file_out() {
    let mut files = StreamFiles::new();
    let v = classify_entry(STREAM_DIR, "rom:/stream", "._foo.webm", false);
    assert!(files.visit(v, 42).is_none());
    assert!(files.get(42).is_none());
}

#[test]
fn visit_skip_changes_nothing() {
    let mut files = StreamFiles::new();
    files.insert(1, AssetEntry::SingleFile("kept".to_string()));
    assert!(files.visit(Visit::Skip, 1).is_none());
    assert_eq!(single_path(&files, 1), Some("kept".to_string()));
}
