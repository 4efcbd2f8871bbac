use wots::status::{
    apply_reverse, check_stow_status, file_sync_status, forward_check, index_key, key_rel, nanos_of,
    needs_content_check, pkg_key_prefix, stale_keys, status_text, sum_counts, stow_dest, stow_target, symlink_probe_paths,
    CopyStatusCounts, FileMeta, FileObservation, FileReport, FileStatusEntry, FileSyncStatus, FileTime,
    IndexEntry, SyncIndex,
};
use wots::config::{Config, EnvVars};
use wots::types::PkgType;

fn meta(secs: u64, size: u64) -> FileMeta {
    FileMeta { modified: Some(FileTime { secs, nanos: 0 }), size }
}

fn seen(wsl: Option<FileMeta>, win_exists: bool, win: Option<FileMeta>) -> FileObservation {
    FileObservation { wsl, win_exists, win }
}

fn cfg() -> Config {
    Config::from_env(&EnvVars {
        home: Some("/home/me".to_string()),
        dotfiles_dir: None,
        wsl_distro: None,
        win_user: Some("zion".to_string()),
        wsl_mnt: None,
        wots_concurrent: None,
        wots_max_size_mb: None,
    })
}

#[test]
fn copy_status_counts_default_zero() {
    let c = CopyStatusCounts::default();
    assert_eq!(c.synced, 0);
    assert_eq!(c.outdated_local, 0);
    assert_eq!(c.outdated_remote, 0);
    assert_eq!(c.missing_remote, 0);
    assert_eq!(c.missing_wsl, 0);
    assert_eq!(c.skipped, 0);
    assert_eq!(c.error, 0);
}

#[test]
fn copy_status_counts_inc_synced() {
    let mut c = CopyStatusCounts::default();
    c.inc(&FileSyncStatus::Synced);
    assert_eq!(c.synced, 1);
}

#[test]
fn copy_status_counts_inc_needs_sync() {
    let mut c = CopyStatusCounts::default();
    c.inc(&FileSyncStatus::NeedsSync);
    assert_eq!(c.outdated_local, 1);
}

#[test]
fn copy_status_counts_inc_newer_on_win() {
    let mut c = CopyStatusCounts::default();
    c.inc(&FileSyncStatus::NewerOnWin);
    assert_eq!(c.outdated_remote, 1);
}

#[test]
fn copy_status_counts_inc_missing_win() {
    let mut c = CopyStatusCounts::default();
    c.inc(&FileSyncStatus::MissingWin);
    assert_eq!(c.missing_remote, 1);
}

#[test]
fn copy_status_counts_inc_missing_wsl() {
    let mut c = CopyStatusCounts::default();
    c.inc(&FileSyncStatus::MissingWsl);
    assert_eq!(c.missing_wsl, 1);
}

#[test]
fn status_text_empty() {
    let c = CopyStatusCounts::default();
    assert_eq!(status_text(&c), "empty");
}

#[test]
fn status_text_synced_only() {
    let c = CopyStatusCounts { synced: 3, ..Default::default() };
    assert!(status_text(&c).contains("3 synced"));
}

#[test]
fn status_text_mixed() {
    let c = CopyStatusCounts { synced: 2, outdated_local: 1, missing_remote: 1, ..Default::default() };
    let s = status_text(&c);
    assert!(s.contains("2 synced"));
    assert!(s.contains("1 needs-sync"));
    assert!(s.contains("1 missing-win"));
}

#[test]
fn status_text_exact_order_and_errors_left_out() {
    let c = CopyStatusCounts { synced: 2, skipped: 5, error: 9, content_mat_mismatch: 1, missing_wsl: 12, ..Default::default() };
    assert_eq!(status_text(&c), "2 synced, 12 missing-wsl, 5 skipped, 1 content-mismatch");
    let only_errors = CopyStatusCounts { error: 4, ..Default::default() };
    assert_eq!(status_text(&only_errors), "empty");
}

#[test]
fn status_sync_index_default() {
    let idx = SyncIndex::default();
    assert_eq!(idx.version, 1);
    assert!(idx.entries.is_empty());
}

#[test]
fn status_sync_index_set_get() {
    let mut idx = SyncIndex::default();
    idx.set(
        "test.file".into(),
        IndexEntry { mtime_ns: 100, size: 50, win_mtime_ns: Some(101), win_size: Some(50), blake3_wsl: None, blake3_win: None, synced: false },
    );
    assert!(idx.get("test.file").is_some());
    assert_eq!(idx.get("test.file").unwrap().size, 50);
    assert!(idx.get("nonexistent").is_none());
}

#[test]
fn status_sync_index_keys_cloned() {
    let mut idx = SyncIndex::default();
    idx.set("a".into(), IndexEntry { mtime_ns: 0, size: 0, win_mtime_ns: None, win_size: None, blake3_wsl: None, blake3_win: None, synced: false });
    idx.set("b".into(), IndexEntry { mtime_ns: 0, size: 0, win_mtime_ns: None, win_size: None, blake3_wsl: None, blake3_win: None, synced: false });
    let keys = idx.keys_cloned();
    assert_eq!(keys.len(), 2);
    assert!(keys.contains(&"a".to_string()));
    assert!(keys.contains(&"b".to_string()));
}

#[test]
fn file_sync_status_label() {
    assert_eq!(FileSyncStatus::Synced.label(), "synced");
    assert_eq!(FileSyncStatus::NeedsSync.label(), "needs-sync");
    assert_eq!(FileSyncStatus::NewerOnWin.label(), "newer-on-win");
    assert_eq!(FileSyncStatus::MissingWin.label(), "missing-win");
    assert_eq!(FileSyncStatus::MissingWsl.label(), "missing-wsl");
    assert_eq!(FileSyncStatus::Skipped.label(), "skipped");
    assert_eq!(FileSyncStatus::Error.label(), "error");
    assert_eq!(FileSyncStatus::ContentChanged.label(), "content-mismatch");
}

#[test]
fn copy_status_counts_all_fields() {
    let mut c = CopyStatusCounts::default();
    c.inc(&FileSyncStatus::Synced);
    c.inc(&FileSyncStatus::NeedsSync);
    c.inc(&FileSyncStatus::NewerOnWin);
    c.inc(&FileSyncStatus::MissingWin);
    c.inc(&FileSyncStatus::MissingWsl);
    c.inc(&FileSyncStatus::Skipped);
    c.inc(&FileSyncStatus::Error);
    assert_eq!(c.synced, 1);
    assert_eq!(c.outdated_local, 1);
    assert_eq!(c.outdated_remote, 1);
    assert_eq!(c.missing_remote, 1);
    assert_eq!(c.missing_wsl, 1);
    assert_eq!(c.skipped, 1);
    assert_eq!(c.error, 1);
}

#[test]
fn counts_add_sums_fieldwise() {
    let mut a = CopyStatusCounts { synced: 1, error: 2, ..Default::default() };
    let b = CopyStatusCounts { synced: 3, missing_wsl: 4, ..Default::default() };
    a.add(&b);
    assert_eq!((a.synced, a.error, a.missing_wsl), (4, 2, 4));
}

#[test]
fn index_key_format() {
    assert_eq!(index_key("/tmp/mypkg.winuser", "subdir/file.txt"), "mypkg.winuser/subdir/file.txt");
}

#[test]
fn index_key_root_file() {
    assert_eq!(index_key("/tmp/mypkg.winuser", "file.txt"), "mypkg.winuser/file.txt");
    assert_eq!(pkg_key_prefix("/tmp/mypkg.winuser/"), "mypkg.winuser/");
    assert_eq!(key_rel("/tmp/mypkg.winuser", "mypkg.winuser/a/b.txt"), "a/b.txt");
}

#[test]
fn nanos_wrap_to_64_bits() {
    assert_eq!(nanos_of(&FileTime { secs: 2, nanos: 5 }), 2_000_000_005);
    let big = FileTime { secs: u64::MAX, nanos: 7 };
    let expected = ((u64::MAX as u128 * 1_000_000_000 + 7) % (1u128 << 64)) as u64;
    assert_eq!(nanos_of(&big), expected);
}

#[test]
fn file_sync_status_missing_win() {
    let idx = SyncIndex::default();
    let r = file_sync_status("p/test.txt".to_string(), &seen(Some(meta(10, 7)), false, None), 0, &idx, &None);
    assert_eq!(r.status, FileSyncStatus::MissingWin);
    assert_eq!(r.record.mtime_ns, 10_000_000_000);
    assert_eq!(r.record.win_size, None);
    assert!(!r.index_ok);
}

#[test]
fn file_sync_status_error_and_skip() {
    let idx = SyncIndex::default();
    let r = file_sync_status("k".to_string(), &seen(None, true, Some(meta(1, 1))), 0, &idx, &None);
    assert_eq!(r.status, FileSyncStatus::Error);
    let r = file_sync_status("k".to_string(), &seen(Some(meta(1, 100)), true, Some(meta(1, 100))), 99, &idx, &None);
    assert_eq!(r.status, FileSyncStatus::Skipped);
    let r = file_sync_status("k".to_string(), &seen(Some(meta(1, 100)), true, None), 0, &idx, &None);
    assert_eq!(r.status, FileSyncStatus::Error);
}

#[test]
fn file_sync_status_compares_timestamps() {
    let idx = SyncIndex::default();
    let st = |w: FileMeta, n: FileMeta| file_sync_status("k".to_string(), &seen(Some(w), true, Some(n)), 0, &idx, &None).status;
    assert_eq!(st(meta(20, 5), meta(10, 5)), FileSyncStatus::NeedsSync);
    assert_eq!(st(meta(10, 5), meta(20, 5)), FileSyncStatus::NewerOnWin);
    assert_eq!(st(meta(10, 5), meta(10, 6)), FileSyncStatus::ContentChanged);
    // same metadata but no hashes taken: cannot tell
    assert_eq!(st(meta(10, 5), meta(10, 5)), FileSyncStatus::Error);
    assert_eq!(st(FileMeta { modified: None, size: 5 }, meta(10, 5)), FileSyncStatus::Error);
}

#[test]
fn timestamps_within_two_milliseconds_count_as_equal() {
    let idx = SyncIndex::default();
    let at = |secs: u64, nanos: u32, size: u64| FileMeta { modified: Some(FileTime { secs, nanos }), size };
    let st = |w: FileMeta, n: FileMeta| file_sync_status("k".to_string(), &seen(Some(w), true, Some(n)), 0, &idx, &None).status;
    assert_eq!(st(at(10, 2_000_000, 5), at(10, 0, 6)), FileSyncStatus::ContentChanged);
    assert_eq!(st(at(10, 2_000_001, 5), at(10, 0, 6)), FileSyncStatus::NeedsSync);
    assert_eq!(st(at(9, 999_000_000, 5), at(10, 1_000_000, 6)), FileSyncStatus::ContentChanged);
    assert_eq!(st(at(9, 990_000_000, 5), at(10, 0, 5)), FileSyncStatus::NewerOnWin);
    let o = seen(Some(at(10, 1_000_000, 5)), true, Some(at(10, 0, 5)));
    assert!(needs_content_check(&o, 0, &idx, "k"));
}

#[test]
fn file_sync_status_uses_content_hashes() {
    let idx = SyncIndex::default();
    let o = seen(Some(meta(10, 5)), true, Some(meta(10, 5)));
    assert!(needs_content_check(&o, 0, &idx, "k"));
    let same = Some(("h1".to_string(), "h1".to_string()));
    let r = file_sync_status("k".to_string(), &o, 0, &idx, &same);
    assert_eq!(r.status, FileSyncStatus::Synced);
    assert!(r.record.synced);
    assert_eq!(r.record.blake3_wsl, Some("h1".to_string()));
    let diff = Some(("h1".to_string(), "h2".to_string()));
    assert_eq!(file_sync_status("k".to_string(), &o, 0, &idx, &diff).status, FileSyncStatus::ContentChanged);
}

#[test]
fn fast_path_needs_a_synced_entry() {
    let o = seen(Some(meta(10, 5)), true, Some(meta(10, 5)));
    let mut idx = SyncIndex::default();
    idx.set("k".into(), IndexEntry { mtime_ns: 10_000_000_000, size: 5, win_mtime_ns: Some(10_000_000_000), win_size: Some(5), blake3_wsl: None, blake3_win: None, synced: true });
    assert!(!needs_content_check(&o, 0, &idx, "k"));
    let r = file_sync_status("k".to_string(), &o, 0, &idx, &None);
    assert_eq!(r.status, FileSyncStatus::Synced);
    assert!(r.index_ok);
    // an entry that was not synced gives no shortcut
    idx.set("k".into(), IndexEntry { mtime_ns: 10_000_000_000, size: 5, win_mtime_ns: Some(10_000_000_000), win_size: Some(5), blake3_wsl: None, blake3_win: None, synced: false });
    assert!(needs_content_check(&o, 0, &idx, "k"));
    assert_eq!(file_sync_status("k".to_string(), &o, 0, &idx, &None).status, FileSyncStatus::Error);
}

#[test]
fn windows_edit_persists_across_checks() {
    let pkg = "/repo/app.winuser";
    let files = vec![FileReport { rel: "f.txt".to_string(), obs: seen(Some(meta(10, 1)), true, Some(meta(20, 6))), hashes: None }];
    let mut idx = SyncIndex::default();
    let (c1, _, _) = forward_check(pkg, &files, 0, &mut idx);
    assert_eq!(c1.outdated_remote, 1);
    let (c2, _, _) = forward_check(pkg, &files, 0, &mut idx);
    assert_eq!(c2.outdated_remote, 1);
    assert!(!idx.get("app.winuser/f.txt").unwrap().synced);
}

#[test]
fn forward_check_reports_each_file() {
    let pkg = "/repo/app.winuser";
    let files = vec![
        FileReport { rel: "a.txt".to_string(), obs: seen(Some(meta(1, 1)), false, None), hashes: None },
        FileReport { rel: "b/c.txt".to_string(), obs: seen(Some(meta(5, 2)), true, Some(meta(1, 2))), hashes: None },
    ];
    let mut idx = SyncIndex::default();
    let (c, entries, keys) = forward_check(pkg, &files, 0, &mut idx);
    assert_eq!(c.missing_remote, 1);
    assert_eq!(c.outdated_local, 1);
    assert_eq!(entries.len(), 2);
    assert_eq!(entries[1].relative_path, "b/c.txt");
    assert_eq!(entries[1].status, FileSyncStatus::NeedsSync);
    assert_eq!(keys, vec!["app.winuser/a.txt".to_string(), "app.winuser/b/c.txt".to_string()]);
    assert_eq!(idx.keys_cloned().len(), 2);
}

#[test]
fn reverse_check_reports_and_forgets() {
    let pkg = "/repo/app.winuser";
    let mut idx = SyncIndex::default();
    for k in ["app.winuser/gone.txt", "app.winuser/orphan.txt", "app.winuser/kept.txt", "other.winuser/x"] {
        idx.set(k.to_string(), IndexEntry { mtime_ns: 1, size: 1, win_mtime_ns: None, win_size: None, blake3_wsl: None, blake3_win: None, synced: false });
    }
    let seen_keys = vec!["app.winuser/kept.txt".to_string()];
    let stale = stale_keys(pkg, &idx, &seen_keys);
    assert_eq!(stale, vec!["app.winuser/gone.txt".to_string(), "app.winuser/orphan.txt".to_string()]);
    let mut counts = CopyStatusCounts::default();
    let mut entries: Vec<FileStatusEntry> = Vec::new();
    apply_reverse(pkg, &stale, &vec![false, true], &mut counts, &mut entries, &mut idx);
    assert_eq!(counts.missing_wsl, 1);
    assert_eq!(entries.len(), 1);
    assert_eq!(entries[0].relative_path, "orphan.txt");
    assert_eq!(entries[0].status, FileSyncStatus::MissingWsl);
    assert!(idx.get("app.winuser/gone.txt").is_none());
    assert!(idx.get("app.winuser/orphan.txt").is_some());
    assert!(idx.get("other.winuser/x").is_some());
}

#[test]
fn symlink_probes_stop_at_the_root() {
    assert_eq!(symlink_probe_paths("/no", "/tmp"), vec!["/no".to_string(), "/".to_string()]);
    assert_eq!(symlink_probe_paths("/tmp/a", "/tmp"), vec!["/tmp/a".to_string()]);
    assert_eq!(
        symlink_probe_paths("/home/me/.config/nvim/init.lua", "/home/me"),
        vec!["/home/me/.config/nvim/init.lua", "/home/me/.config/nvim", "/home/me/.config"]
    );
    assert_eq!(symlink_probe_paths("a/b", "/x"), vec!["a/b", "a", ""]);
}

#[test]
fn stow_paths_and_tally() {
    let c = cfg();
    assert_eq!(stow_target(PkgType::Config, &c, true), Some("/home/me/.config".to_string()));
    assert_eq!(stow_target(PkgType::WinUser, &c, true), None);
    assert_eq!(stow_target(PkgType::User, &c, false), None);
    assert_eq!(
        stow_dest("/repo/nvim.config/nvim/init.lua", "/repo/nvim.config", "/home/me/.config"),
        Some("/home/me/.config/nvim/init.lua".to_string())
    );
    assert_eq!(stow_dest("/elsewhere/x", "/repo/nvim.config", "/home/me/.config"), None);
    assert_eq!(check_stow_status(&vec![true, false, true]), (2, 3));
    assert_eq!(check_stow_status(&vec![]), (0, 0));
}

#[test]
fn content_hash_is_blake3_hex() {
    let empty = wots::status::content_hash(&vec![]);
    assert_eq!(empty, "af1349b9f5f9a1a6a0404dea36dcc9499bcb25c9adc112b7cc9a93cae41f3262");
    let a = wots::status::content_hash(&b"AAAA".to_vec());
    let b = wots::status::content_hash(&b"BBBB".to_vec());
    assert_eq!(a.len(), 64);
    assert_ne!(a, b);
    assert_eq!(a, wots::status::content_hash(&b"AAAA".to_vec()));
}

#[test]
fn package_check_counts_each_line_once() {
    let pkg = "/repo/app.winuser";
    let mut idx = SyncIndex::default();
    for k in ["app.winuser/gone.txt", "app.winuser/orphan.txt"] {
        idx.set(k.to_string(), IndexEntry { mtime_ns: 1, size: 1, win_mtime_ns: None, win_size: None, blake3_wsl: None, blake3_win: None, synced: false });
    }
    let files = vec![
        FileReport { rel: "a.txt".to_string(), obs: seen(Some(meta(10, 3)), false, None), hashes: None },
        FileReport { rel: "b.txt".to_string(), obs: seen(Some(meta(10, 3)), true, Some(meta(20, 3))), hashes: None },
    ];
    let (mut counts, mut entries, keys) = forward_check(pkg, &files, 0, &mut idx);
    let stale = stale_keys(pkg, &idx, &keys);
    assert_eq!(stale.len(), 2);
    apply_reverse(pkg, &stale, &vec![true, true], &mut counts, &mut entries, &mut idx);
    let total = counts.synced + counts.outdated_local + counts.outdated_remote + counts.missing_remote
        + counts.missing_wsl + counts.skipped + counts.error + counts.content_mat_mismatch;
    assert_eq!(entries.len(), 4);
    assert_eq!(total, 4);
    assert_eq!(counts.missing_wsl, 2);
}

#[test]
fn batch_tally_is_the_sum_of_the_packages() {
    let a = CopyStatusCounts { synced: 1, missing_remote: 1, ..Default::default() };
    let b = CopyStatusCounts { synced: 2, error: 1, content_mat_mismatch: 1, ..Default::default() };
    let t = sum_counts(&vec![a, b]).unwrap();
    assert_eq!(t, CopyStatusCounts { synced: 3, missing_remote: 1, error: 1, content_mat_mismatch: 1, ..Default::default() });
    assert_eq!(sum_counts(&vec![]), Some(CopyStatusCounts::default()));
    let big = CopyStatusCounts { skipped: usize::MAX, ..Default::default() };
    let one = CopyStatusCounts { skipped: 1, ..Default::default() };
    assert_eq!(sum_counts(&vec![big, one]), None);
}

#[test]
fn windows_edit_after_a_synced_check_is_reported() {
    let pkg = "/repo/app.winuser";
    let h = Some(("abc".to_string(), "abc".to_string()));
    let synced = vec![FileReport { rel: "f.txt".to_string(), obs: seen(Some(meta(10, 3)), true, Some(meta(10, 3))), hashes: h }];
    let mut idx = SyncIndex::default();
    let (c0, _, _) = forward_check(pkg, &synced, 0, &mut idx);
    assert_eq!(c0.synced, 1);
    assert!(idx.get("app.winuser/f.txt").unwrap().synced);
    let edited = vec![FileReport { rel: "f.txt".to_string(), obs: seen(Some(meta(10, 3)), true, Some(meta(30, 3))), hashes: None }];
    let (c1, e1, _) = forward_check(pkg, &edited, 0, &mut idx);
    assert_eq!(c1.outdated_remote, 1);
    assert_eq!(e1[0].status, FileSyncStatus::NewerOnWin);
    let (c2, _, _) = forward_check(pkg, &edited, 0, &mut idx);
    assert_eq!(c2.outdated_remote, 1);
    assert!(!idx.get("app.winuser/f.txt").unwrap().synced);
}
