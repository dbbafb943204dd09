use manga_tui_core::anypath::AnyPath;
use manga_tui_core::error::LocalError;
use manga_tui_core::path::LocalPath;
use manga_tui_core::places::{
    archive_entry_cache_path, hash_of_text, id_from_hash, local_cache_path, local_id, local_page_url,
    safe_archive_path,
};
use std::collections::hash_map::DefaultHasher;
use std::hash::{Hash, Hasher};

fn text(path: &str) -> AnyPath {
    AnyPath::Text(path.to_string())
}

#[test]
fn safe_archive_path_ignores_parent_components() {
    let path = safe_archive_path(&text("/tmp/cache"), "../chapter/1.jpg").unwrap();

    assert_eq!(text("/tmp/cache/chapter/1.jpg"), path);
}

#[test]
fn safe_archive_path_needs_a_name() {
    assert_eq!(None, safe_archive_path(&text("/tmp/cache"), "../.."));
    assert_eq!(None, safe_archive_path(&text("/tmp/cache"), "/"));
    assert_eq!(Some(text("/tmp/cache/etc/passwd")), safe_archive_path(&text("/tmp/cache"), "/etc/./passwd"));
}

#[test]
fn identifiers_are_hashes_of_paths() {
    for text in ["/l/One Shot", "", "/l/Ünïcode"] {
        let mut hasher = DefaultHasher::new();
        text.hash(&mut hasher);
        assert_eq!(hasher.finish(), hash_of_text(text));
        assert_eq!(format!("local-{:x}", hasher.finish()), local_id(&LocalPath::new(text)));
    }
    assert_eq!("local-0", id_from_hash(0));
    assert_eq!("local-ff00", id_from_hash(0xff00));
}

#[test]
fn page_urls_hold_chapter_and_index() {
    assert_eq!("local://page/local-1f/12", local_page_url("local-1f", 12).unwrap());
    assert_eq!("local://page/a%20b/0", local_page_url("a b", 0).unwrap());
}

#[test]
fn extracted_entries_lie_below_the_data_directory() {
    let archive = LocalPath::new("/l/a.cbr");
    let id = local_id(&archive);
    let here = Ok(text("/home/me"));

    assert_eq!(
        text(&format!("/data/localCache/{id}")),
        local_cache_path(&Some(text("/data")), &here, &archive).unwrap()
    );
    assert_eq!(
        text(&format!("/home/me/data/localCache/{id}")),
        local_cache_path(&Some(text("data")), &here, &archive).unwrap()
    );
    assert_eq!(
        text(&format!("/data/localCache/{id}/p/1.jpg")),
        archive_entry_cache_path(&Some(text("/data")), &here, &archive, "../p/1.jpg").unwrap()
    );
}

#[test]
fn cache_errors_are_told() {
    let archive = LocalPath::new("/l/a.cbr");
    let nowhere = Err("gone".to_string());

    let error = local_cache_path(&None, &nowhere, &archive).unwrap_err();
    assert_eq!("manga-tui data directory is not available", error.message());
    let error = local_cache_path(&Some(text("data")), &nowhere, &archive).unwrap_err();
    assert!(matches!(error, LocalError::Io(message) if message == "gone"));
    let error = archive_entry_cache_path(&Some(text("/d")), &nowhere, &archive, "..").unwrap_err();
    assert_eq!("Could not build safe cache path for archive entry ..", error.message());
}

#[test]
fn data_directories_need_not_be_text() {
    let archive = LocalPath::new("/l/a.cbr");
    let id = local_id(&archive);
    let raw = |path: &[u8]| AnyPath::Bytes(path.to_vec());
    let bytes = |start: &[u8], end: String| AnyPath::Bytes([start, end.as_bytes()].concat());

    assert_eq!(
        bytes(b"/\xff", format!("/localCache/{id}/ä/1.jpg")),
        archive_entry_cache_path(&Some(raw(b"/\xff")), &Err("gone".to_string()), &archive, "/ä/../1.jpg").unwrap()
    );
    assert_eq!(
        bytes(b"/h\xff/d", format!("/localCache/{id}")),
        local_cache_path(&Some(text("d")), &Ok(raw(b"/h\xff/")), &archive).unwrap()
    );
    assert_eq!("/ü/x".as_bytes(), text("/ü").join(&text("x")).bytes());
    assert_eq!(raw(b"/\xff"), text("/ü").join(&raw(b"/\xff")));
}
