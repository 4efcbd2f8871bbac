use wots::util::{compile_glob, fmt_size, glob_match, is_excluded, is_quick_exclude_dir};

fn float_fmt(bytes: u64) -> String {
    if bytes < 1024 {
        format!("{} B", bytes)
    } else if bytes < 1024 * 1024 {
        format!("{:.1} KB", bytes as f64 / 1024.0)
    } else if bytes < 1024 * 1024 * 1024 {
        format!("{:.1} MB", bytes as f64 / (1024.0 * 1024.0))
    } else {
        format!("{:.2} GB", bytes as f64 / (1024.0 * 1024.0 * 1024.0))
    }
}

#[test]
fn fmt_size_exact_values() {
    assert_eq!(fmt_size(0), "0 B");
    assert_eq!(fmt_size(1023), "1023 B");
    assert_eq!(fmt_size(1024), "1.0 KB");
    assert_eq!(fmt_size(1536), "1.5 KB");
    assert_eq!(fmt_size(1280), "1.2 KB");
    assert_eq!(fmt_size(1048575), "1024.0 KB");
    assert_eq!(fmt_size(1048576), "1.0 MB");
    assert_eq!(fmt_size(50 * 1024 * 1024), "50.0 MB");
    assert_eq!(fmt_size(1 << 30), "1.00 GB");
    assert_eq!(fmt_size(3 * (1 << 30) / 2), "1.50 GB");
    assert_eq!(fmt_size(u64::MAX), "17179869184.00 GB");
}

#[test]
fn fmt_size_matches_float_formatting() {
    let mut samples: Vec<u64> = Vec::new();
    for b in 0..5000u64 {
        samples.push(b);
    }
    for k in 0..4000u64 {
        samples.push(1024 * 1024 - 2000 + k);
        samples.push(1024 * 1024 * 1024 - 2000 + k);
        samples.push(k * 262_144 + 1024 * 1024);
        samples.push(k * 5_368_709 + (1 << 30));
    }
    for shift in 30..64u32 {
        let base = 1u64 << shift;
        for d in 0..64u64 {
            samples.push(base.wrapping_add(d));
            samples.push(base.wrapping_sub(d));
            samples.push(base | (base >> 1) | d);
        }
    }
    for b in [9_007_199_254_740_993u64, 9_007_199_254_740_995, 18_014_398_509_481_987, u64::MAX - 1, u64::MAX] {
        samples.push(b);
    }
    for b in samples {
        assert_eq!(fmt_size(b), float_fmt(b), "bytes = {b}");
    }
}

#[test]
fn glob_match_rules() {
    assert!(glob_match(".git", ".git").unwrap());
    assert!(!glob_match(".git", ".github").unwrap());
    assert!(glob_match("*.pyc", "mod.pyc").unwrap());
    assert!(!glob_match("*.pyc", "mod.py").unwrap());
    assert!(glob_match("a?c", "abc").unwrap());
    assert!(glob_match("[", "[").unwrap());
    assert!(glob_match("[*", "x").is_err());
    assert!(compile_glob("***").is_err());
    assert!(compile_glob("*.txt").is_ok());
}

#[test]
fn is_excluded_checks_every_component() {
    assert!(is_excluded("/repo/app.winuser/node_modules/x.json"));
    assert!(is_excluded("/repo/app.winuser/.git/config"));
    assert!(is_excluded("/repo/app.winuser/src/mod.pyc"));
    assert!(is_excluded(".wots_index.json"));
    assert!(!is_excluded("/repo/app.winuser/keep.txt"));
    assert!(!is_excluded("/repo/app.winuser/.gitignore"));
}

#[test]
fn quick_exclude_dirs() {
    assert!(!is_quick_exclude_dir(".git"));
    assert!(!is_quick_exclude_dir("node_modules"));
    assert!(!is_quick_exclude_dir(".wots_index"));
    assert!(is_quick_exclude_dir("src"));
    assert!(is_quick_exclude_dir(".wots_index.json"));
}
