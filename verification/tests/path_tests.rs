use std::path::Path;

use wots::discover::{pkg_basename, propose_name};
use wots::path::{join_paths, parent_or_self_exec, relative_to};
use wots::status::symlink_probe_paths;

const PATHS: [&str; 16] = [
    "/", "", ".", "./a", "a", "a/b", "/a", "/a/b/", "/a//b", "/a/./b", "../x", "a/..", "/home/me", "/home/me/.zshrc",
    "/home/me/.config/nvim/init.lua", "/mnt/c/Users/zion",
];

#[test]
fn join_agrees_with_std() {
    for a in PATHS {
        for b in PATHS {
            let expected = Path::new(a).join(b).to_string_lossy().to_string();
            assert_eq!(join_paths(a, b), expected, "join({a:?}, {b:?})");
        }
    }
}

#[test]
fn relative_to_agrees_with_std_on_tidy_paths() {
    let tidy = ["/", "/a", "/a/b", "/a/b/c.txt", "a", "a/b", "./a/b", "/home/me", "/home/me/.config/nvim/init.lua", "/mnt/c/Users/zion"];
    for p in tidy {
        for base in tidy {
            let expected = Path::new(p).strip_prefix(base).ok().map(|r| r.to_string_lossy().to_string());
            assert_eq!(relative_to(p, base), expected, "strip_prefix({p:?}, {base:?})");
        }
    }
}

#[test]
fn file_names_agree_with_std() {
    for p in PATHS {
        let expected = Path::new(p).file_name().map(|n| n.to_string_lossy().to_string()).unwrap_or_default();
        assert_eq!(pkg_basename(p), expected, "file_name({p:?})");
    }
}

#[test]
fn stems_agree_with_std() {
    for name in ["a", "a.b", ".a", ".a.b", "a.", "a..b", "init.vim.bak", "x.tar.gz", "..."] {
        let p = format!("/d/{name}");
        let expected = Path::new(&p).file_stem().unwrap().to_string_lossy().to_string();
        assert_eq!(propose_name(&vec![p.clone()]), expected, "file_stem({p:?})");
    }
}

fn probes_by_std(path: &str, root: &str) -> Vec<String> {
    let mut out = vec![path.to_string()];
    let mut current = Path::new(path).to_path_buf();
    while let Some(p) = current.parent() {
        let parent = p.to_path_buf();
        if parent == current || parent == Path::new(root) {
            break;
        }
        out.push(parent.to_string_lossy().to_string());
        current = parent;
    }
    out
}

#[test]
fn symlink_probes_agree_with_std_parents() {
    let tidy = ["/", "/a", "/a/b", "/a/b/c", "a/b/c", "/home/me/.config/nvim/init.lua", "/tmp/x"];
    for p in tidy {
        for root in ["/", "/a", "/home/me", "/tmp", "a"] {
            assert_eq!(symlink_probe_paths(p, root), probes_by_std(p, root), "probes({p:?}, {root:?})");
        }
    }
}

#[test]
fn parents_agree_with_std() {
    for p in PATHS {
        let expected = Path::new(p).parent().map(|q| q.to_string_lossy().to_string()).unwrap_or_else(|| p.to_string());
        let tidy = !p.contains("//") && !p.contains("/./") && !(p.len() > 1 && p.ends_with('/'));
        if tidy {
            assert_eq!(parent_or_self_exec(p), expected, "parent({p:?})");
        }
    }
}
