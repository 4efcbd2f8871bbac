use wots::config::{Config, EnvVars};
use wots::types::{parse_app_arg, type_from_dir_name, type_label, PkgType, ALL_TYPES, SYNCABLE_TYPES};

fn cfg() -> Config {
    Config::from_env(&EnvVars {
        home: Some("/home/me".to_string()),
        dotfiles_dir: None,
        wsl_distro: None,
        win_user: Some("zion".to_string()),
        wsl_mnt: None,
        wots_concurrent: None,
        wots_max_size_mb: None,
    })
}

#[test]
fn from_str_valid() {
    assert_eq!("user".parse::<PkgType>().unwrap(), PkgType::User);
    assert_eq!("config".parse::<PkgType>().unwrap(), PkgType::Config);
    assert_eq!("root".parse::<PkgType>().unwrap(), PkgType::Root);
    assert_eq!("meta".parse::<PkgType>().unwrap(), PkgType::Meta);
    assert_eq!("winuser".parse::<PkgType>().unwrap(), PkgType::WinUser);
    assert_eq!("winroot".parse::<PkgType>().unwrap(), PkgType::WinRoot);
}

#[test]
fn from_str_removed_types_are_invalid() {
    assert!("local".parse::<PkgType>().is_err());
    assert!("winlocal".parse::<PkgType>().is_err());
    assert!("winroaming".parse::<PkgType>().is_err());
}

#[test]
fn from_str_invalid() {
    assert!("bogus".parse::<PkgType>().is_err());
    assert!("".parse::<PkgType>().is_err());
}

#[test]
fn from_str_error_names_the_input() {
    assert_eq!("bogus".parse::<PkgType>().unwrap_err(), "unknown package type: bogus");
}

#[test]
fn suffix() {
    for pt in ALL_TYPES {
        assert_eq!(pt.suffix(), format!(".{}", pt.value()));
    }
}

#[test]
fn needs_sudo_only_root() {
    assert!(!PkgType::User.needs_sudo());
    assert!(!PkgType::Config.needs_sudo());
    assert!(PkgType::Root.needs_sudo());
    assert!(!PkgType::Meta.needs_sudo());
    assert!(!PkgType::WinUser.needs_sudo());
    assert!(!PkgType::WinRoot.needs_sudo());
}

#[test]
fn uses_stow_linux_types() {
    assert!(PkgType::User.uses_stow());
    assert!(PkgType::Config.uses_stow());
    assert!(PkgType::Root.uses_stow());
    assert!(!PkgType::Meta.uses_stow());
    assert!(!PkgType::WinUser.uses_stow());
    assert!(!PkgType::WinRoot.uses_stow());
}

#[test]
fn uses_copy_sync_windows_types() {
    assert!(!PkgType::User.uses_copy_sync());
    assert!(!PkgType::Config.uses_copy_sync());
    assert!(!PkgType::Root.uses_copy_sync());
    assert!(!PkgType::Meta.uses_copy_sync());
    assert!(PkgType::WinUser.uses_copy_sync());
    assert!(PkgType::WinRoot.uses_copy_sync());
}

#[test]
fn is_windows() {
    assert!(PkgType::WinUser.is_windows());
    assert!(PkgType::WinRoot.is_windows());
    assert!(!PkgType::User.is_windows());
    assert!(!PkgType::Config.is_windows());
    assert!(!PkgType::Root.is_windows());
    assert!(!PkgType::Meta.is_windows());
}

#[test]
fn is_linux_config() {
    assert!(PkgType::User.is_linux_config());
    assert!(PkgType::Config.is_linux_config());
    assert!(!PkgType::Root.is_linux_config());
    assert!(!PkgType::Meta.is_linux_config());
    assert!(!PkgType::WinUser.is_linux_config());
    assert!(!PkgType::WinRoot.is_linux_config());
}

#[test]
fn sync_target_meta_is_none() {
    let c = cfg();
    assert!(PkgType::Meta.sync_target(&c).is_none());
    assert!(ALL_TYPES.iter().filter(|t| t.sync_target(&c).is_none()).count() == 1);
}

#[test]
fn sync_target_winroot_is_c_drive() {
    let t = PkgType::WinRoot.sync_target(&cfg()).unwrap();
    assert_eq!(t, "C:/");
}

#[test]
fn sync_targets_follow_settings() {
    let c = cfg();
    assert_eq!(PkgType::User.sync_target(&c).unwrap(), "/home/me");
    assert_eq!(PkgType::Config.sync_target(&c).unwrap(), "/home/me/.config");
    assert_eq!(PkgType::Root.sync_target(&c).unwrap(), "/");
    assert_eq!(PkgType::WinUser.sync_target(&c).unwrap(), "C:/Users/zion");
}

#[test]
fn type_from_dir_name_recognizes_suffixes() {
    assert_eq!(type_from_dir_name("git.config"), Some(PkgType::Config));
    assert_eq!(type_from_dir_name("foo.user"), Some(PkgType::User));
    assert_eq!(type_from_dir_name("baz.root"), Some(PkgType::Root));
    assert_eq!(type_from_dir_name("qux.meta"), Some(PkgType::Meta));
    assert_eq!(type_from_dir_name("myapp.winuser"), Some(PkgType::WinUser));
    assert_eq!(type_from_dir_name("myapp.winroot"), Some(PkgType::WinRoot));
}

#[test]
fn type_from_dir_name_removed_suffixes_are_unknown() {
    assert_eq!(type_from_dir_name("bar.local"), None);
    assert_eq!(type_from_dir_name("myapp.winlocal"), None);
    assert_eq!(type_from_dir_name("myapp.winroaming"), None);
}

#[test]
fn type_from_dir_name_no_suffix() {
    assert_eq!(type_from_dir_name("justaname"), None);
    assert_eq!(type_from_dir_name(".hidden"), None);
}

#[test]
fn type_from_dir_name_needs_a_name_before_the_suffix() {
    assert_eq!(type_from_dir_name(".config"), None);
    assert_eq!(type_from_dir_name("x.config"), Some(PkgType::Config));
}

#[test]
fn type_label_contains_user_home() {
    assert_eq!(type_label(PkgType::User, None), "~");
    assert_eq!(type_label(PkgType::Config, None), "~/.config");
    assert_eq!(type_label(PkgType::Root, None), "/");
}

#[test]
fn type_label_windows_contains_users() {
    assert!(type_label(PkgType::WinUser, None).contains("Users"));
    assert_eq!(type_label(PkgType::WinRoot, None), "C:\\");
}

#[test]
fn type_label_names_the_windows_user() {
    assert_eq!(type_label(PkgType::WinUser, Some("zion")), "C:\\Users\\zion");
    assert_eq!(type_label(PkgType::WinUser, None), "C:\\Users\\user");
    assert_eq!(type_label(PkgType::Meta, None), "manual");
}

#[test]
fn all_types_has_six() {
    assert_eq!(ALL_TYPES.len(), 6);
}

#[test]
fn syncable_types_excludes_meta() {
    assert_eq!(SYNCABLE_TYPES.len(), 5);
    assert!(!SYNCABLE_TYPES.contains(&PkgType::Meta));
}

#[test]
fn value_roundtrip() {
    for pt in ALL_TYPES {
        assert_eq!(pt.value().parse::<PkgType>().unwrap(), pt);
    }
}

#[test]
fn dir_name_roundtrip() {
    for pt in ALL_TYPES {
        let name = format!("pkg{}", pt.suffix());
        assert_eq!(type_from_dir_name(&name), Some(pt));
        assert_eq!(parse_app_arg(&name), (Some(pt), "pkg".to_string()));
    }
}

#[test]
fn parse_app_arg_with_suffix() {
    assert_eq!(parse_app_arg("git.config"), (Some(PkgType::Config), "git".into()));
    assert_eq!(parse_app_arg("zsh.user"), (Some(PkgType::User), "zsh".into()));
    assert_eq!(parse_app_arg("wsl.root"), (Some(PkgType::Root), "wsl".into()));
    assert_eq!(parse_app_arg("pkg.meta"), (Some(PkgType::Meta), "pkg".into()));
    assert_eq!(parse_app_arg("pwsh.winuser"), (Some(PkgType::WinUser), "pwsh".into()));
    assert_eq!(parse_app_arg("boot.winroot"), (Some(PkgType::WinRoot), "boot".into()));
}

#[test]
fn parse_app_arg_removed_suffix_falls_back_to_name() {
    assert_eq!(parse_app_arg("nvim.local"), (None, "nvim.local".into()));
    assert_eq!(parse_app_arg("app.winlocal"), (None, "app.winlocal".into()));
}

#[test]
fn parse_app_arg_without_suffix() {
    assert_eq!(parse_app_arg("zsh"), (None, "zsh".into()));
    assert_eq!(parse_app_arg(""), (None, "".into()));
}

#[test]
fn parse_app_arg_trailing_slash() {
    assert_eq!(parse_app_arg("git.config/"), (Some(PkgType::Config), "git".into()));
    assert_eq!(parse_app_arg("pwsh.winuser/"), (Some(PkgType::WinUser), "pwsh".into()));
    assert_eq!(parse_app_arg("zsh/"), (None, "zsh".into()));
}

#[test]
fn parse_app_arg_dot_slash_prefix() {
    assert_eq!(parse_app_arg("./im-select.winuser/"), (Some(PkgType::WinUser), "im-select".into()));
    assert_eq!(parse_app_arg("./git.config/"), (Some(PkgType::Config), "git".into()));
    assert_eq!(parse_app_arg("./git.config"), (Some(PkgType::Config), "git".into()));
}

#[test]
fn parse_app_arg_parent_dir_prefix() {
    assert_eq!(parse_app_arg("../dotfiles/git.config"), (Some(PkgType::Config), "git".into()));
    assert_eq!(parse_app_arg("../../foo/pwsh.winuser/"), (Some(PkgType::WinUser), "pwsh".into()));
}

#[test]
fn parse_app_arg_multiple_trailing_slashes() {
    assert_eq!(parse_app_arg("git.config//"), (Some(PkgType::Config), "git".into()));
    assert_eq!(parse_app_arg("zsh//"), (None, "zsh".into()));
}

#[test]
fn parse_app_arg_only_path_separators() {
    assert_eq!(parse_app_arg("/"), (None, "/".into()));
    assert_eq!(parse_app_arg("///"), (None, "///".into()));
    assert_eq!(parse_app_arg("./"), (None, "./".into()));
}

#[test]
fn parse_app_arg_through_directories_and_slashes() {
    for pt in ALL_TYPES {
        for dir in ["", "./", "../", "/home/me/dotfiles/", "a/b/"] {
            for tail in ["", "/", "//"] {
                let raw = format!("{}{}{}{}", dir, "nvim", pt.suffix(), tail);
                assert_eq!(parse_app_arg(&raw), (Some(pt), "nvim".to_string()));
            }
        }
    }
}
