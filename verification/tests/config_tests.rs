use wots::config::{Config, EnvVars, EXCLUDE_PATTERNS};

fn env(home: Option<&str>) -> EnvVars {
    EnvVars {
        home: home.map(|h| h.to_string()),
        dotfiles_dir: None,
        wsl_distro: None,
        win_user: None,
        wsl_mnt: None,
        wots_concurrent: None,
        wots_max_size_mb: None,
    }
}

fn cfg() -> Config {
    Config::from_env(&env(Some("/home/me")))
}

#[test]
fn home_is_set() {
    let c = cfg();
    assert!(!c.home.is_empty());
    assert!(c.home != "/", "HOME should be a real path, not /");
}

#[test]
fn home_defaults_to_root() {
    assert_eq!(Config::from_env(&env(None)).home, "/");
}

#[test]
fn dotfiles_dir_defaults_to_home_dotfiles() {
    assert_eq!(cfg().dotfiles_dir, "/home/me/dotfiles");
    assert_eq!(Config::from_env(&env(None)).dotfiles_dir, "/dotfiles");
}

#[test]
fn wsl_distro_has_default() {
    let val = cfg().wsl_distro_name;
    assert!(!val.is_empty());
    assert_eq!(val, "archlinux");
}

#[test]
fn mnt_c_default_is_mnt_c() {
    assert_eq!(cfg().mnt_c, "/mnt/c");
}

#[test]
fn win_username_reads_env_or_none() {
    let _val = cfg().win_username.clone();
    assert!(cfg().win_username.is_none());
    let mut e = env(Some("/home/me"));
    e.win_user = Some("zion".to_string());
    assert_eq!(Config::from_env(&e).win_username, Some("zion".to_string()));
}

#[test]
fn sync_max_concurrent_default() {
    assert_eq!(cfg().sync_max_concurrent, 8);
}

#[test]
fn sync_max_concurrent_reads_env() {
    let mut e = env(Some("/home/me"));
    e.wots_concurrent = Some("3".to_string());
    assert_eq!(Config::from_env(&e).sync_max_concurrent, 3);
    e.wots_concurrent = Some("three".to_string());
    assert_eq!(Config::from_env(&e).sync_max_concurrent, 8);
    e.wots_concurrent = Some("+4".to_string());
    assert_eq!(Config::from_env(&e).sync_max_concurrent, 4);
}

#[test]
fn max_sync_size_default() {
    assert_eq!(cfg().max_sync_size_bytes, 50 * 1024 * 1024);
}

#[test]
fn max_sync_size_bytes_correct_formula() {
    let mut e = env(Some("/home/me"));
    e.wots_max_size_mb = Some("2".to_string());
    assert_eq!(Config::from_env(&e).max_sync_size_bytes, 2 * 1024 * 1024);
    e.wots_max_size_mb = Some("-1".to_string());
    assert_eq!(Config::from_env(&e).max_sync_size_bytes, 50 * 1024 * 1024);
}

#[test]
fn exclude_patterns_has_expected_entries() {
    assert_eq!(EXCLUDE_PATTERNS.len(), 10);
    let patterns: Vec<&str> = EXCLUDE_PATTERNS.to_vec();
    assert!(patterns.contains(&".git"));
    assert!(patterns.contains(&"node_modules"));
    assert!(patterns.contains(&"__pycache__"));
    assert!(patterns.contains(&"*.pyc"));
    assert!(patterns.contains(&".DS_Store"));
    assert!(patterns.contains(&"Thumbs.db"));
    assert!(patterns.contains(&".wots_index.json"));
    assert!(patterns.contains(&".pixi"));
    assert!(patterns.contains(&".mypy_cache"));
    assert!(patterns.contains(&".ruff_cache"));
}

#[test]
fn target_paths_are_absolute() {
    let c = cfg();
    assert!(c.user_target().starts_with("/"));
    assert!(c.config_target().starts_with("/"));
    assert!(c.local_target().starts_with("/"));
    assert_eq!(c.root_target(), "/");
}

#[test]
fn win_targets_contain_expected_windows_paths() {
    let c = cfg();
    assert!(c.winuser_target().starts_with("C:/Users/"));
    assert!(c.winconfig_target().contains(".config"));
    assert!(c.winlocal_target().contains("AppData/Local"));
    assert!(c.winroaming_target().contains("AppData/Roaming"));
}
