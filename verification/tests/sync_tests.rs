use wots::cli::SyncArgs;
use wots::config::{Config, EnvVars};
use wots::sync::{
    copy_gate, copy_threads, item_outcome, plan_sync, prepare_sync_items, pwsh_command, robocopy_args, robocopy_succeeded,
    select_packages, stow_args, stow_outcome, sync_mode, sync_summary, tally_outcomes, types_to_sync, win_drive_path,
    wsl_unc, leading_bytes, CopyGate, ItemOutcome, StowOutcome, StowStep, SyncCounts, SyncMode, stow_step,
};
use wots::discover::{find_packages, DirEntry, PackageSet};
use wots::types::PkgType;

fn repo(dirs: &[&str]) -> PackageSet {
    let entries: Vec<DirEntry> = dirs.iter().map(|n| DirEntry { name: n.to_string(), is_dir: true }).collect();
    find_packages("/r", &entries)
}

fn args(app: Option<&str>) -> SyncArgs {
    SyncArgs { pkg_type: None, app: app.map(|a| a.to_string()), dry_run: false, bypass: false, quiet: false, yes: false }
}

#[test]
fn types_to_sync_order() {
    assert_eq!(types_to_sync(Some(PkgType::Meta), Some(PkgType::User)), vec![PkgType::Meta]);
    assert_eq!(types_to_sync(None, Some(PkgType::User)), vec![PkgType::User]);
    assert_eq!(types_to_sync(None, None).len(), 5);
}

#[test]
fn plan_sync_reads_the_app_argument() {
    let pk = repo(&["git.config", "nvim.config", "git.user", "hosts.root"]);
    let p = plan_sync(&args(Some("./git.config/")), &pk);
    assert_eq!(p.types, vec![PkgType::Config]);
    assert_eq!(p.app, Some("git".to_string()));
    assert_eq!(p.selected, vec![vec!["/r/git.config".to_string()]]);
    assert!(p.confirm);
    assert!(!p.root_warning);
}

#[test]
fn plan_sync_asks_before_every_sync() {
    let pk = repo(&["git.config", "zsh.user"]);
    let p = plan_sync(&args(None), &pk);
    assert_eq!(p.types.len(), 5);
    assert_eq!(p.selected[0], vec!["/r/zsh.user".to_string()]);
    assert_eq!(p.selected[1], vec!["/r/git.config".to_string()]);
    assert!(p.confirm);
    assert!(!p.root_warning);
    let mut a = args(None);
    a.yes = true;
    assert!(!plan_sync(&a, &pk).confirm);
    let mut a = args(None);
    a.dry_run = true;
    assert!(!plan_sync(&a, &pk).confirm);
    assert!(!plan_sync(&args(Some("absent")), &pk).confirm);
    assert!(!plan_sync(&args(None), &repo(&[])).confirm);
}

#[test]
fn plan_sync_warns_about_root_packages() {
    let pk = repo(&["hosts.root", "zsh.user"]);
    let p = plan_sync(&args(None), &pk);
    assert!(p.confirm);
    assert!(p.root_warning);
    let mut a = args(None);
    a.bypass = true;
    let p = plan_sync(&a, &pk);
    assert!(p.confirm);
    assert!(!p.root_warning);
    assert!(!plan_sync(&args(Some("zsh")), &pk).root_warning);
}

#[test]
fn select_packages_by_name() {
    let pkgs = vec!["/r/git.config".to_string(), "/r/nvim.config".to_string(), "/r/git.user".to_string()];
    assert_eq!(select_packages(&pkgs, &Some("git".to_string())), vec!["/r/git.config".to_string(), "/r/git.user".to_string()]);
    assert_eq!(select_packages(&pkgs, &None), pkgs);
}

#[test]
fn modes_and_gates() {
    assert_eq!(sync_mode(PkgType::Root), SyncMode::Stow);
    assert_eq!(sync_mode(PkgType::WinRoot), SyncMode::Copy);
    assert_eq!(sync_mode(PkgType::Meta), SyncMode::Manual);
    assert_eq!(copy_gate(false, true, true, true), CopyGate::NotWsl);
    assert_eq!(copy_gate(true, false, false, true), CopyGate::NoCopier);
    assert_eq!(copy_gate(true, true, false, false), CopyGate::NoUser);
    assert_eq!(copy_gate(true, false, true, true), CopyGate::Go);
    assert_eq!(copy_threads(0), 1);
    assert_eq!(copy_threads(8), 4);
    assert_eq!(copy_threads(3), 3);
}

#[test]
fn prepare_items_pairs_files_with_windows_paths() {
    let c = Config::from_env(&EnvVars {
        home: Some("/home/me".to_string()),
        dotfiles_dir: None,
        wsl_distro: None,
        win_user: Some("zion".to_string()),
        wsl_mnt: None,
        wots_concurrent: None,
        wots_max_size_mb: None,
    });
    let files = vec!["/r/t.winuser/data.txt".to_string(), "/r/t.winuser/sub/cfg.json".to_string()];
    let items = prepare_sync_items(&files, "/r/t.winuser", PkgType::WinUser, &c, false);
    assert_eq!(items.len(), 2);
    assert_eq!(items[1], ("/r/t.winuser/sub/cfg.json".to_string(), "/mnt/c/Users/zion/sub/cfg.json".to_string()));
    assert!(prepare_sync_items(&vec![], "/r/e.winuser", PkgType::WinUser, &c, false).is_empty());
}

#[test]
fn outcomes_and_summary() {
    assert_eq!(item_outcome(true, false, false), ItemOutcome::Skipped);
    assert_eq!(item_outcome(false, false, true), ItemOutcome::MissingSource);
    assert_eq!(item_outcome(false, true, true), ItemOutcome::Copied);
    assert_eq!(item_outcome(false, true, false), ItemOutcome::Failed);
    let c = tally_outcomes(&vec![ItemOutcome::Copied, ItemOutcome::Copied, ItemOutcome::Failed, ItemOutcome::Skipped]);
    assert_eq!(c, SyncCounts { copied_to_win: 2, missing_source: 0, skipped: 1, error: 1 });
    assert_eq!(sync_summary(&c), Some("    Result: 2 copied, 1 skipped, 1 errors".to_string()));
    let all = SyncCounts { copied_to_win: 3, missing_source: 2, skipped: 1, error: 1 };
    assert_eq!(sync_summary(&all), Some("    Result: 3 copied, 1 skipped, 2 missing, 1 errors".to_string()));
    assert_eq!(sync_summary(&SyncCounts { copied_to_win: 0, missing_source: 0, skipped: 0, error: 0 }), None);
}

#[test]
fn windows_paths_for_copiers() {
    assert_eq!(wsl_unc("archlinux", "/home/me/f.txt"), "\\\\wsl$\\archlinux\\\\home\\me\\f.txt");
    assert_eq!(win_drive_path("/mnt/c/Users/zion/f.txt", "/mnt/c"), "C:\\Users\\zion\\f.txt");
    assert_eq!(win_drive_path("/elsewhere/f", "/mnt/c"), "C:\\\\elsewhere\\f");
    let file_args = robocopy_args("arch", "/r/a.winuser/f.txt", "/mnt/c/Users/z/f.txt", "/mnt/c", false);
    assert_eq!(file_args[0], "\\\\wsl$\\arch\\\\r\\a.winuser");
    assert_eq!(file_args[1], "C:\\Users\\z");
    assert_eq!(file_args[2], "f.txt");
    let root_file = robocopy_args("arch", "/r/t.winroot/boot.ini", "/mnt/c/boot.ini", "/mnt/c", false);
    assert_eq!(root_file[1], "C:\\");
    assert_eq!(file_args.len(), 8);
    let dir_args = robocopy_args("arch", "/r/a.winuser/d", "/mnt/c/d", "/mnt/c", true);
    assert_eq!(dir_args[2], "/MIR");
    assert_eq!(dir_args.len(), 11);
    assert!(robocopy_succeeded(Some(7)));
    assert!(!robocopy_succeeded(Some(8)));
    assert!(!robocopy_succeeded(None));
    assert_eq!(
        pwsh_command("U", "W", true),
        "$ErrorActionPreference='Stop'; Copy-Item -LiteralPath 'U' -Destination 'W' -Recurse -Force"
    );
    assert!(pwsh_command("U", "W", false).starts_with("$ErrorActionPreference='Stop'; New-Item"));
}

#[test]
fn stow_runs() {
    assert_eq!(stow_args("/home/me", "zsh.user"), vec!["-v", "--adopt", "-t", "/home/me", "zsh.user"]);
    assert_eq!(stow_outcome(true, "whatever"), StowOutcome::Stowed);
    assert_eq!(stow_outcome(false, "WARNING: existing target is not owned by stow: x"), StowOutcome::RetryFileByFile);
    assert_eq!(stow_outcome(false, "Permission denied"), StowOutcome::PermissionWarning);
    assert_eq!(stow_outcome(false, "boom"), StowOutcome::Failed);
    assert_eq!(leading_bytes("abcdef", 3), "abc");
    assert_eq!(leading_bytes("ab", 3), "ab");
    assert_eq!(leading_bytes("héllo", 3), "hé");
    assert_eq!(leading_bytes("日本語", 6), "日本");
    assert_eq!(leading_bytes("日本語", 0), "");
}

#[test]
fn stow_step_respects_dry_run() {
    assert_eq!(stow_step(PkgType::Root, false), StowStep::FileByFile);
    assert_eq!(stow_step(PkgType::Root, true), StowStep::FileByFile);
    assert_eq!(stow_step(PkgType::User, true), StowStep::Preview);
    assert_eq!(stow_step(PkgType::Config, false), StowStep::Stow);
}
