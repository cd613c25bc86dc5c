use replace_music::{
    classify_entry, has_dot, is_hidden_name, join_path, logical_path, rewrite_extension, AssetEntry,
    Visit, STREAM_DIR,
};

#[test]
fn joins_with_separator() {
    assert_eq!(join_path("rom:/stream", "foo.webm"), "rom:/stream/foo.webm");
}

#[test]
fn logical_path_replaces_root() {
    assert_eq!(logical_path(STREAM_DIR, "rom:/stream/foo.webm"), Some("stream:/foo.webm".to_string()));
    assert_eq!(logical_path(STREAM_DIR, "rom:/stream/a/b.webm"), Some("stream:/a/b.webm".to_string()));
}

#[test]
fn logical_path_outside_root_is_none() {
    assert_eq!(logical_path(STREAM_DIR, "rom:/other/foo.webm"), None);
    assert_eq!(logical_path(STREAM_DIR, "rom:/str"), None);
}

#[test]
fn legacy_extension_is_rewritten() {
    assert_eq!(rewrite_extension("stream:/x.mp4"), "stream:/x.webm");
}

#[test]
fn rewrite_is_idempotent() {
    let once = rewrite_extension("stream:/x.mp4");
    assert_eq!(rewrite_extension(&once), once);
    assert_eq!(rewrite_extension("stream:/y.webm"), "stream:/y.webm");
    assert_eq!(rewrite_extension("mp"), "mp");
    assert_eq!(rewrite_extension("mp4"), "webm");
}

#[test]
fn hidden_marker_detected() {
    assert!(is_hidden_name("._foo.webm"));
    assert!(is_hidden_name("a._b"));
    assert!(!is_hidden_name("foo.webm"));
    assert!(!is_hidden_name("_."));
    assert!(!is_hidden_name(""));
}

#[test]
fn dot_detected() {
    assert!(has_dot("pool.ext"));
    assert!(!has_dot("bgm"));
}

#[test]
fn file_is_indexed_under_logical_path() {
    match classify_entry(STREAM_DIR, "rom:/stream", "foo.webm", false) {
        Visit::Index(logical, AssetEntry::SingleFile(p)) => {
            assert_eq!(logical, "stream:/foo.webm");
            assert_eq!(p, "rom:/stream/foo.webm");
        }
        _ => panic!("expected a single-file entry"),
    }
}

#[test]
fn legacy_file_is_indexed_under_rewritten_path() {
    match classify_entry(STREAM_DIR, "rom:/stream/bgm", "x.mp4", false) {
        Visit::Index(logical, AssetEntry::SingleFile(p)) => {
            assert_eq!(logical, "stream:/bgm/x.webm");
            assert_eq!(p, "rom:/stream/bgm/x.mp4");
        }
        _ => panic!("expected a single-file entry"),
    }
}

#[test]
fn hidden_file_is_skipped() {
    assert!(matches!(classify_entry(STREAM_DIR, "rom:/stream", "._foo.webm", false), Visit::Skip));
}

#[test]
fn plain_directory_is_descended() {
    match classify_entry(STREAM_DIR, "rom:/stream", "bgm", true) {
        Visit::Descend(d) => assert_eq!(d, "rom:/stream/bgm"),
        _ => panic!("expected a descent"),
    }
}

#[test]
fn dotted_directory_is_a_pool() {
    match classify_entry(STREAM_DIR, "rom:/stream", "pool.ext", true) {
        Visit::Index(logical, AssetEntry::Pool(d)) => {
            assert_eq!(logical, "stream:/pool.ext");
            assert_eq!(d, "rom:/stream/pool.ext");
        }
        _ => panic!("expected a pool entry"),
    }
}

#[test]
fn entry_outside_root_is_skipped() {
    assert!(matches!(classify_entry(STREAM_DIR, "rom:/other", "foo.webm", false), Visit::Skip));
}
