use wots::commands::{
    diff_file_line, diff_files, diff_has_work, diff_heading, list_status_text, stats_status_text, stow_diff_status,
    total_sizes, types_to_show, unstowed_files, copy_diff_entry, stow_diff_entry, DiffFile, PkgStatus,
};
use wots::display::{answer_or_default, confirm_answer, confirm_hint, stats_rows, trim, TypeStats};
use wots::order::sort_names;
use wots::status::{CopyStatusCounts, FileStatusEntry, FileSyncStatus};
use wots::types::PkgType;

#[test]
fn shown_types() {
    assert_eq!(types_to_show(Some(PkgType::Meta)), vec![PkgType::Meta]);
    assert_eq!(types_to_show(None), vec![PkgType::User, PkgType::Config, PkgType::Root, PkgType::WinUser, PkgType::WinRoot]);
}

#[test]
fn status_texts() {
    assert_eq!(stats_status_text(&PkgStatus::Stow(2, 3)), "2/3 stowed");
    assert_eq!(stats_status_text(&PkgStatus::Stow(3, 3)), "3/3 stowed");
    assert_eq!(stats_status_text(&PkgStatus::Stow(0, 0)), "empty");
    assert_eq!(list_status_text(&PkgStatus::Stow(3, 3)), "stowed");
    assert_eq!(list_status_text(&PkgStatus::Stow(1, 3)), "1/3 stowed");
    assert_eq!(list_status_text(&PkgStatus::Stow(0, 0)), "empty");
    assert_eq!(list_status_text(&PkgStatus::Manual), "manual");
    let c = CopyStatusCounts { synced: 1, ..Default::default() };
    assert_eq!(stats_status_text(&PkgStatus::Copy(c)), "1 synced");
}

#[test]
fn totals() {
    assert_eq!(total_sizes(&vec![(1, 10), (2, 20)]), Some((3, 30)));
    assert_eq!(total_sizes(&vec![]), Some((0, 0)));
    assert_eq!(total_sizes(&vec![(1, u64::MAX), (0, 1)]), None);
}

#[test]
fn diff_output() {
    let c = CopyStatusCounts { synced: 4, skipped: 1, ..Default::default() };
    assert!(!diff_has_work(&c));
    assert!(diff_has_work(&CopyStatusCounts { content_mat_mismatch: 1, ..Default::default() }));
    let entries = vec![
        FileStatusEntry { relative_path: "a".to_string(), status: FileSyncStatus::Synced },
        FileStatusEntry { relative_path: "b".to_string(), status: FileSyncStatus::MissingWin },
        FileStatusEntry { relative_path: "c".to_string(), status: FileSyncStatus::Skipped },
        FileStatusEntry { relative_path: "d".to_string(), status: FileSyncStatus::Error },
    ];
    let files = diff_files(&entries);
    assert_eq!(files.len(), 2);
    assert_eq!((files[0].status.as_str(), files[0].path.as_str()), ("missing-win", "b"));
    assert_eq!((files[1].status.as_str(), files[1].path.as_str()), ("error", "d"));
    assert_eq!(diff_file_line(&files[0]), "    missing-win: b");
    assert_eq!(diff_heading("git", "1/2 stowed"), "  git — 1/2 stowed");
    let stow = unstowed_files(&vec![Some("/h/a".to_string()), None, Some("/h/c".to_string())], &vec![false, false, true]);
    assert_eq!(stow.len(), 1);
    assert_eq!(stow[0].path, "/h/a");
    assert_eq!(stow[0].status, "not-stowed");
    assert_eq!(stow_diff_status(1, 2), "1/2 stowed");
}

#[test]
fn prompt_answers() {
    assert_eq!(trim("  yes \n"), "yes");
    assert_eq!(trim("\u{3000}x\u{a0}"), "x");
    assert!(confirm_answer("Y", false));
    assert!(confirm_answer(" yEs\n", false));
    assert!(!confirm_answer("yep", true));
    assert!(confirm_answer("  \n", true));
    assert!(!confirm_answer("", false));
    assert_eq!(confirm_hint(true), "([Y]/n)");
    assert_eq!(confirm_hint(false), "(y/[N])");
    assert_eq!(answer_or_default("  \t", "nvim"), "nvim");
    assert_eq!(answer_or_default(" zsh ", "nvim"), "zsh");
}

#[test]
fn names_sort_like_bytes() {
    let v: Vec<Vec<char>> = ["b", "a", "B", "ab", "", "é"].iter().map(|s| s.chars().collect()).collect();
    let sorted: Vec<String> = sort_names(v).into_iter().map(|c| c.into_iter().collect()).collect();
    let mut expected: Vec<String> = ["b", "a", "B", "ab", "", "é"].iter().map(|s| s.to_string()).collect();
    expected.sort();
    assert_eq!(sorted, expected);
}

#[test]
fn stats_table_rows() {
    let ts = |packages: usize, files: usize| TypeStats {
        packages,
        files,
        size_bytes: 0,
        size_human: "0 B".to_string(),
        status_text: "empty".to_string(),
        names: vec![],
    };
    let stats = vec![(PkgType::WinUser, ts(2, 5)), (PkgType::User, ts(1, 3)), (PkgType::Root, ts(0, 0))];
    let rows = stats_rows(&stats, 3, 8, 2048);
    assert_eq!(rows.len(), 3);
    assert_eq!(rows[0], vec!["user", "1", "3", "0 B", "empty"]);
    assert_eq!(rows[1], vec!["winuser", "2", "5", "0 B", "empty"]);
    assert_eq!(rows[2], vec!["TOTAL", "3", "8", "2.0 KB", "(synced + pending shown above)"]);
}

#[test]
fn copy_diff_entry_reports_only_work() {
    let entries = vec![
        FileStatusEntry { relative_path: "a.txt".to_string(), status: FileSyncStatus::Synced },
        FileStatusEntry { relative_path: "b.txt".to_string(), status: FileSyncStatus::NewerOnWin },
    ];
    let c = CopyStatusCounts { synced: 1, outdated_remote: 1, ..Default::default() };
    let e = copy_diff_entry("/r/app.winuser", PkgType::WinUser, &c, &entries).unwrap();
    assert_eq!(e.package, "app");
    assert_eq!(e.pkg_type, "winuser");
    assert_eq!(e.status, "1 synced, 1 newer-on-win");
    assert_eq!(e.files.len(), 1);
    assert_eq!((e.files[0].status.as_str(), e.files[0].path.as_str()), ("newer-on-win", "b.txt"));
    let quiet = CopyStatusCounts { synced: 2, skipped: 1, ..Default::default() };
    assert!(copy_diff_entry("/r/app.winuser", PkgType::WinUser, &quiet, &entries).is_none());
}

#[test]
fn stow_diff_entry_reports_unlinked_packages() {
    let files = vec![DiffFile { status: "not-stowed".to_string(), path: "/home/me/.zshrc".to_string() }];
    let e = stow_diff_entry("/r/zsh.user", PkgType::User, 1, 2, files).unwrap();
    assert_eq!((e.package.as_str(), e.pkg_type.as_str()), ("zsh", "user"));
    assert_eq!(e.status, stow_diff_status(1, 2));
    assert_eq!(e.files.len(), 1);
    assert!(stow_diff_entry("/r/zsh.user", PkgType::User, 2, 2, Vec::new()).is_none());
}
