use wots::status::{self, CopyStatusCounts, FileSyncStatus};
use wots::types::PkgType;

#[test]
fn integration_counts_inc_all_variants() {
    let mut c = CopyStatusCounts::default();
    for v in &[
        FileSyncStatus::Synced,
        FileSyncStatus::NeedsSync,
        FileSyncStatus::NewerOnWin,
        FileSyncStatus::MissingWin,
        FileSyncStatus::MissingWsl,
        FileSyncStatus::Skipped,
        FileSyncStatus::Error,
        FileSyncStatus::ContentChanged,
    ] {
        c.inc(v);
    }
    assert_eq!(c.synced, 1);
    assert_eq!(c.outdated_local, 1);
    assert_eq!(c.outdated_remote, 1);
    assert_eq!(c.missing_remote, 1);
    assert_eq!(c.missing_wsl, 1);
    assert_eq!(c.skipped, 1);
    assert_eq!(c.error, 1);
    assert_eq!(c.content_mat_mismatch, 1);
}

#[test]
fn integration_counts_synced_accumulates() {
    let mut c = CopyStatusCounts::default();
    for _ in 0..3 {
        c.inc(&FileSyncStatus::Synced);
    }
    assert_eq!(c.synced, 3);
}

#[test]
fn integration_status_text_reports_all_fields() {
    let c = CopyStatusCounts {
        synced: 1,
        outdated_local: 2,
        outdated_remote: 3,
        missing_remote: 4,
        missing_wsl: 5,
        skipped: 6,
        error: 0,
        content_mat_mismatch: 7,
    };
    let s = status::status_text(&c);
    assert!(s.contains("1 synced"));
    assert!(s.contains("2 needs-sync"));
    assert!(s.contains("3 newer-on-win"));
    assert!(s.contains("4 missing-win"));
    assert!(s.contains("5 missing-wsl"));
    assert!(s.contains("6 skipped"));
    assert!(s.contains("7 content-mismatch"));
}

#[test]
fn integration_file_sync_status_labels_unique() {
    let l: Vec<&str> = [
        FileSyncStatus::Synced,
        FileSyncStatus::NeedsSync,
        FileSyncStatus::NewerOnWin,
        FileSyncStatus::MissingWin,
        FileSyncStatus::MissingWsl,
        FileSyncStatus::Skipped,
        FileSyncStatus::Error,
        FileSyncStatus::ContentChanged,
    ]
    .iter()
    .map(|s| s.label())
    .collect();
    let mut d = l.clone();
    d.sort();
    d.dedup();
    assert_eq!(l.len(), d.len());
}

#[test]
fn all_types_roundtrip() {
    for pt in &wots::types::ALL_TYPES {
        assert_eq!(pt.value().parse::<PkgType>().unwrap(), *pt);
    }
}

#[test]
fn all_types_roundtrip_name_to_type() {
    for pt in &wots::types::ALL_TYPES {
        let name = pt.value();
        let round: PkgType = name.parse().unwrap();
        assert_eq!(round, *pt, "failed roundtrip for {name}");
    }
}

#[test]
fn fmt_size_boundary() {
    assert!(wots::util::fmt_size(1024).contains("KB"));
    assert!(wots::util::fmt_size(1024 * 1024).contains("MB"));
}

#[test]
fn fmt_size_boundary_values() {
    assert!(wots::util::fmt_size(1024).contains("KB"));
    assert!(wots::util::fmt_size(1024 * 1024).contains("MB"));
}

#[test]
fn integration_is_symlink_or_parent_nonexistent() {
    // "/no" and its parent "/" are probed ("/tmp" is never reached); no
    // link is found among them.
    let probes = status::symlink_probe_paths("/no", "/tmp");
    assert_eq!(probes, vec!["/no".to_string(), "/".to_string()]);
    assert!(!probes.iter().any(|p| std::path::Path::new(p).is_symlink()));
}
