use wots::config::{Config, EnvVars};
use wots::discover::{
    build_win_path, detect_type, find_packages, pkg_basename, propose_name, win_user_dir, winuser_rel_path, DirEntry,
};
use wots::types::PkgType;

fn cfg(win_user: Option<&str>) -> Config {
    Config::from_env(&EnvVars {
        home: Some("/home/me".to_string()),
        dotfiles_dir: None,
        wsl_distro: None,
        win_user: win_user.map(|u| u.to_string()),
        wsl_mnt: None,
        wots_concurrent: None,
        wots_max_size_mb: None,
    })
}

#[test]
fn build_win_path_winuser() {
    let c = cfg(None);
    let pkg = "/tmp/myapp.winuser";
    let file = "/tmp/myapp.winuser/data.txt";
    let path = build_win_path(file, pkg, PkgType::WinUser, &c, false);
    assert!(path.starts_with("/mnt/c/Users/"));
    assert!(path.ends_with("data.txt"));
    assert_eq!(path, "/mnt/c/Users/user/data.txt");
}

#[test]
fn build_win_path_winroot_and_user_dir() {
    let c = cfg(Some("zion"));
    assert_eq!(build_win_path("/r/tools.winroot/bin/x.exe", "/r/tools.winroot", PkgType::WinRoot, &c, false), "/mnt/c/bin/x.exe");
    assert_eq!(win_user_dir("/r/app.winuser", &c), "/r/app.winuser/zion");
    assert_eq!(
        build_win_path("/r/app.winuser/zion/AppData/a.json", "/r/app.winuser", PkgType::WinUser, &c, true),
        "/mnt/c/Users/zion/AppData/a.json"
    );
    assert_eq!(
        build_win_path("/r/app.winuser/zion/AppData/a.json", "/r/app.winuser", PkgType::WinUser, &c, false),
        "/mnt/c/Users/zion/zion/AppData/a.json"
    );
}

#[test]
fn winuser_rel_path_fallbacks() {
    let c = cfg(Some("zion"));
    assert_eq!(winuser_rel_path("/r/myapp.winuser", "/r/myapp.winuser/Documents/notes.txt", &c, false), "Documents/notes.txt");
    assert_eq!(winuser_rel_path("/r/myapp.winuser", "/r/myapp.winuser/config.ini", &c, true), "config.ini");
    assert_eq!(winuser_rel_path("/r/myapp.winuser", "/other/file", &c, false), "/other/file");
}

#[test]
fn basename_strips_suffix() {
    assert_eq!(pkg_basename("/tmp/git.config"), "git");
    assert_eq!(pkg_basename("/tmp/foo.user"), "foo");
    assert_eq!(pkg_basename("/tmp/bar.winuser"), "bar");
    assert_eq!(pkg_basename("/tmp/abc.root"), "abc");
    assert_eq!(pkg_basename("/tmp/xyz.meta"), "xyz");
    assert_eq!(pkg_basename("/tmp/tools.winroot/"), "tools");
}

#[test]
fn basename_no_suffix_returns_full() {
    assert_eq!(pkg_basename("/tmp/plain_dir"), "plain_dir");
    assert_eq!(pkg_basename("/tmp/old.winconfig"), "old.winconfig");
}

#[test]
fn propose_name_cases() {
    assert_eq!(propose_name(&vec![]), "unnamed");
    assert_eq!(propose_name(&vec!["/home/user/.zshrc".to_string()]), ".zshrc");
    assert_eq!(propose_name(&vec!["/home/user/nvim/init.lua".to_string()]), "nvim");
    assert_eq!(propose_name(&vec!["/home/user/.config/wezterm".to_string()]), "wezterm");
    assert_eq!(propose_name(&vec!["/home/user/notes.tar.gz".to_string()]), "notes.tar");
    assert_eq!(propose_name(&vec!["~/config".to_string()]), "config");
    assert_eq!(propose_name(&vec!["/".to_string()]), "unnamed");
}

#[test]
fn detect_type_by_prefix() {
    let c = cfg(None);
    assert_eq!(detect_type("/home/me/.config/alacritty", &c), PkgType::Config);
    assert_eq!(detect_type("/home/me/.bashrc", &c), PkgType::User);
    assert_eq!(detect_type("/home/me/.local/share/app", &c), PkgType::User);
    assert_eq!(detect_type("/home/me", &c), PkgType::User);
    assert_eq!(detect_type("/etc/hosts", &c), PkgType::Root);
    assert_eq!(detect_type("/proc/cpuinfo", &c), PkgType::Meta);
    assert_eq!(detect_type("/tmp/x", &c), PkgType::Meta);
    assert_eq!(detect_type("/mnt/c/Users/john/Documents/notes.txt", &c), PkgType::WinUser);
    assert_eq!(detect_type("/mnt/c/Users/john", &c), PkgType::WinRoot);
    assert_eq!(detect_type("/mnt/c/tools/x.exe", &c), PkgType::WinRoot);
    assert_eq!(detect_type("relative/path", &c), PkgType::Meta);
}

#[test]
fn find_packages_sorts_and_filters() {
    let e = |n: &str, d: bool| DirEntry { name: n.to_string(), is_dir: d };
    let entries = vec![
        e("zsh.user", true),
        e("git.config", true),
        e("not_a_pkg", true),
        e(".hid.config", true),
        e("alacritty.config", true),
        e("file.config", false),
        e("my.winuser", true),
        e("Zed.config", true),
    ];
    let pk = find_packages("/r", &entries);
    assert_eq!(pk.get(PkgType::Config), &vec!["/r/Zed.config".to_string(), "/r/alacritty.config".to_string(), "/r/git.config".to_string()]);
    assert_eq!(pk.get(PkgType::User), &vec!["/r/zsh.user".to_string()]);
    assert_eq!(pk.get(PkgType::WinUser), &vec!["/r/my.winuser".to_string()]);
    assert!(pk.get(PkgType::Root).is_empty());
    let names: Vec<String> = pk.get(PkgType::Config).iter().map(|p| pkg_basename(p)).collect();
    assert_eq!(names, vec!["Zed", "alacritty", "git"]);
}
