use wots::config::{Config, EnvVars};
use wots::create::{
    after_create, common_type, compute_dest, copy_check, copy_check_message, mixed_types_message, moves_sources,
    package_dir, temp_path, type_answer, validate_sources, AfterCreate, CopyCheck, SourceVerdict, TypeAnswer,
};
use wots::types::PkgType;

fn cfg() -> Config {
    Config::from_env(&EnvVars {
        home: Some("/home/me".to_string()),
        dotfiles_dir: None,
        wsl_distro: None,
        win_user: Some("zion".to_string()),
        wsl_mnt: None,
        wots_concurrent: None,
        wots_max_size_mb: None,
    })
}

#[test]
fn common_type_single_and_mixed() {
    assert_eq!(common_type(&vec![PkgType::Config, PkgType::Config]), Ok(PkgType::Config));
    assert_eq!(
        common_type(&vec![PkgType::WinUser, PkgType::User, PkgType::Config, PkgType::User]),
        Err(vec![PkgType::Config, PkgType::User, PkgType::WinUser])
    );
    let msg = mixed_types_message(&vec![PkgType::Config, PkgType::User]);
    assert_eq!(msg, "Sources have mixed types — specify --type explicitly. Detected: config, user");
}

#[test]
fn type_answers() {
    assert_eq!(type_answer("n", PkgType::User), TypeAnswer::Cancel);
    assert_eq!(type_answer("y", PkgType::User), TypeAnswer::Keep);
    assert_eq!(type_answer("", PkgType::User), TypeAnswer::Keep);
    assert_eq!(type_answer("user", PkgType::User), TypeAnswer::Keep);
    assert_eq!(type_answer("config", PkgType::User), TypeAnswer::Use(PkgType::Config));
    assert_eq!(type_answer("local", PkgType::User), TypeAnswer::Unknown);
}

#[test]
fn package_dir_joins_name_and_suffix() {
    assert_eq!(package_dir("/home/me/dotfiles", "nvim", PkgType::Config), "/home/me/dotfiles/nvim.config");
    assert_eq!(package_dir("/home/me/dotfiles/", "x", PkgType::WinRoot), "/home/me/dotfiles/x.winroot");
}

#[test]
fn validate_sources_stops_at_first_refusal() {
    let c = cfg();
    let srcs = vec!["/etc/x".to_string(), "/home/me/.zshrc".to_string(), "/opt/y".to_string()];
    assert_eq!(validate_sources(&srcs, PkgType::User, &c), vec![(0, SourceVerdict::OutsideHome), (2, SourceVerdict::OutsideHome)]);
    let win = vec!["/mnt/c/a".to_string(), "/home/me/b".to_string(), "/mnt/c/c".to_string()];
    assert_eq!(validate_sources(&win, PkgType::WinRoot, &c), vec![(1, SourceVerdict::NotUnderMount)]);
    assert_eq!(validate_sources(&vec!["rel/x".to_string()], PkgType::Root, &c), vec![(0, SourceVerdict::Mismatch)]);
    assert!(validate_sources(&vec!["/etc/hosts".to_string()], PkgType::Root, &c).is_empty());
    assert!(validate_sources(&vec!["anything".to_string()], PkgType::Meta, &c).is_empty());
}

#[test]
fn compute_dest_keeps_layout() {
    let c = cfg();
    assert_eq!(compute_dest("/home/me/.config/nvim", PkgType::Config, "/r/nvim.config", &c), "/r/nvim.config/nvim");
    assert_eq!(
        compute_dest("/home/me/.config/nvim/init.lua", PkgType::Config, "/r/nvim.config", &c),
        "/r/nvim.config/nvim/init.lua"
    );
    assert_eq!(compute_dest("/home/me/.zshrc", PkgType::Config, "/r/zsh.config", &c), "/r/zsh.config/.zshrc");
    assert_eq!(compute_dest("/home/me/.zshrc", PkgType::User, "/r/zsh.user", &c), "/r/zsh.user/.zshrc");
    assert_eq!(compute_dest("/home/me/.config/git/config", PkgType::User, "/r/git.user", &c), "/r/git.user/.config/git/config");
    assert_eq!(compute_dest("/opt/x/file", PkgType::User, "/r/x.user", &c), "/r/x.user/file");
    assert_eq!(compute_dest("/etc/hosts", PkgType::Root, "/r/h.root", &c), "/r/h.root/etc/hosts");
    assert_eq!(compute_dest("/mnt/c/Users/zion/.wezterm.lua", PkgType::WinUser, "/r/w.winuser", &c), "/r/w.winuser/.wezterm.lua");
    assert_eq!(compute_dest("/mnt/c/tools/a.exe", PkgType::WinUser, "/r/w.winuser", &c), "/r/w.winuser/tools/a.exe");
    assert_eq!(compute_dest("/mnt/c/tools/a.exe", PkgType::WinRoot, "/r/t.winroot", &c), "/r/t.winroot/tools/a.exe");
    assert_eq!(compute_dest("/srv/notes.md", PkgType::Meta, "/r/n.meta", &c), "/r/n.meta/notes.md");
}

#[test]
fn temp_path_like_with_extension() {
    assert_eq!(temp_path("/r/p.config/.zshrc", 42), "/r/p.config/.zshrc..wots_tmp_42");
    assert_eq!(temp_path("/r/p.config/init.lua", 7), "/r/p.config/init..wots_tmp_7");
    assert_eq!(temp_path("/", 7), "/");
}

#[test]
fn copy_checks() {
    assert_eq!(copy_check(true, false, 1, 1), CopyCheck::KindMismatch);
    assert_eq!(copy_check(true, true, 3, 3), CopyCheck::Matches);
    assert_eq!(copy_check(true, true, 3, 2), CopyCheck::CountMismatch(3, 2));
    assert_eq!(copy_check(false, false, 10, 9), CopyCheck::SizeMismatch(10, 9));
    assert_eq!(copy_check_message(CopyCheck::Matches), None);
    assert_eq!(copy_check_message(CopyCheck::CountMismatch(3, 2)), Some("copy validation: file count mismatch (3 vs 2)".to_string()));
    assert_eq!(copy_check_message(CopyCheck::SizeMismatch(10, 9)), Some("copy validation: size mismatch (10 vs 9)".to_string()));
    assert_eq!(copy_check_message(CopyCheck::KindMismatch), Some("copy validation: type mismatch (dir vs file)".to_string()));
}

#[test]
fn after_create_steps() {
    assert!(moves_sources(PkgType::Config));
    assert!(!moves_sources(PkgType::Root));
    assert_eq!(after_create(PkgType::Root, false, false), AfterCreate::Stow);
    assert_eq!(after_create(PkgType::Root, true, false), AfterCreate::Nothing);
    assert_eq!(after_create(PkgType::WinUser, true, false), AfterCreate::CopyToWindows);
    assert_eq!(after_create(PkgType::WinUser, false, true), AfterCreate::Nothing);
    assert_eq!(after_create(PkgType::Meta, false, false), AfterCreate::Nothing);
}
