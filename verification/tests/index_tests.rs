use wots::index::{IndexEntry, SyncIndex};

fn entry(mtime_ns: u64, size: u64, win_mtime_ns: Option<u64>, win_size: Option<u64>) -> IndexEntry {
    IndexEntry { mtime_ns, size, win_mtime_ns, win_size, blake3_wsl: None, blake3_win: None, synced: false }
}

#[test]
fn index_sync_index_default() {
    let idx = SyncIndex::default();
    assert_eq!(idx.version, 1);
    assert!(idx.entries.is_empty());
}

#[test]
fn index_sync_index_set_get() {
    let mut idx = SyncIndex::default();
    idx.set(
        "test.file".into(),
        IndexEntry {
            mtime_ns: 100,
            size: 50,
            win_mtime_ns: Some(101),
            win_size: Some(50),
            blake3_wsl: None,
            blake3_win: None,
            synced: false,
        },
    );
    assert!(idx.get("test.file").is_some());
    assert_eq!(idx.get("test.file").unwrap().size, 50);
    assert!(idx.get("nonexistent").is_none());
}

#[test]
fn index_sync_index_keys_cloned() {
    let mut idx = SyncIndex::default();
    idx.set("a".into(), IndexEntry { mtime_ns: 0, size: 0, win_mtime_ns: None, win_size: None, blake3_wsl: None, blake3_win: None, synced: false });
    idx.set("b".into(), IndexEntry { mtime_ns: 0, size: 0, win_mtime_ns: None, win_size: None, blake3_wsl: None, blake3_win: None, synced: false });
    let keys = idx.keys_cloned();
    assert_eq!(keys.len(), 2);
    assert!(keys.contains(&"a".to_string()));
    assert!(keys.contains(&"b".to_string()));
}

#[test]
fn set_replaces_an_existing_entry() {
    let mut idx = SyncIndex::default();
    idx.set("k".into(), entry(1, 10, None, None));
    idx.set("k".into(), entry(2, 20, Some(3), Some(20)));
    assert_eq!(idx.keys_cloned().len(), 1);
    let e = idx.get("k").unwrap();
    assert_eq!((e.mtime_ns, e.size, e.win_mtime_ns, e.win_size), (2, 20, Some(3), Some(20)));
}

#[test]
fn remove_forgets_only_that_key() {
    let mut idx = SyncIndex::default();
    idx.set("a".into(), entry(1, 1, None, None));
    idx.set("b".into(), entry(2, 2, None, None));
    idx.remove("a");
    assert!(idx.get("a").is_none());
    assert_eq!(idx.get("b").unwrap().size, 2);
    idx.remove("missing");
    assert_eq!(idx.keys_cloned(), vec!["b".to_string()]);
}

#[test]
fn from_entries_keeps_the_last_entry_of_a_key() {
    let idx = SyncIndex::from_entries(
        2,
        vec![("x".to_string(), entry(1, 1, None, None)), ("x".to_string(), entry(9, 9, None, None))],
    );
    assert_eq!(idx.version, 2);
    assert_eq!(idx.keys_cloned().len(), 1);
    assert_eq!(idx.get("x").unwrap().size, 9);
}

#[test]
fn index_file_paths() {
    assert_eq!(wots::index::index_file("/home/me/dotfiles"), "/home/me/dotfiles/.wots_index.json");
    assert_eq!(wots::index::index_tmp_file("/home/me/dotfiles/"), "/home/me/dotfiles/.wots_index.tmp");
}
