//! Package discovery: names, types and target paths of package files.
use vstd::prelude::*;
use crate::config::{opt_view, win_user_or_default, Config};
use crate::path::{
    components, components_of, file_name, file_name_of, is_normal_component, join, join_exec,
    path_starts_with, path_starts_with_exec, strip_components, strip_components_exec,
    strip_prefix_exec, strip_prefix_path, seqs_of,
};
use crate::text::{after_last_index, chars_eq, chars_of, last_index_of, slice_chars, string_of};
use crate::order::{char_views, lex_le_rel, sort_names};
use crate::types::{type_from_dir_name, type_of_dir_name, type_suffix, PkgType};

verus! {

/// The final ordinary component of `p`, or nothing.
pub open spec fn name_or_empty(p: Seq<char>) -> Seq<char> {
    match file_name(p) {
        Some(n) => n,
        None => Seq::<char>::empty(),
    }
}

/// The name of a package: its directory name without the type suffix.
pub open spec fn basename_spec(p: Seq<char>) -> Seq<char> {
    let name = name_or_empty(p);
    match type_of_dir_name(name) {
        Some(t) => name.subrange(0, name.len() - type_suffix(t).len()),
        None => name,
    }
}

/// The name of the package at `pkg_path`: its directory name without the
/// type suffix (the whole name when it carries none).
pub fn pkg_basename(pkg_path: &str) -> (r: String)
    ensures
        r@ == basename_spec(pkg_path@),
{
    let name = match file_name_of(&chars_of(pkg_path)) {
        Some(n) => n,
        None => Vec::new(),
    };
    let name_str = string_of(&name);
    match type_from_dir_name(name_str.as_str()) {
        Some(t) => {
            let suffix_len = chars_of(t.suffix().as_str()).len();
            string_of(&slice_chars(&name, 0, name.len() - suffix_len))
        },
        None => name_str,
    }
}

/// The Windows user name the settings give, or `user`.
pub open spec fn user_name(cfg: Config) -> Seq<char> {
    win_user_or_default(opt_view(cfg.win_username))
}

/// The directory inside a `winuser` package that may mirror the Windows
/// home directory: the package path joined with the user name.
pub open spec fn win_user_dir_spec(pkg: Seq<char>, cfg: Config) -> Seq<char> {
    join(pkg, user_name(cfg))
}

/// The directory inside the package at `pkg` named after the Windows user.
pub fn win_user_dir(pkg: &str, cfg: &Config) -> (r: String)
    ensures
        r@ == win_user_dir_spec(pkg@, *cfg),
{
    let user = cfg.win_user();
    string_of(&join_exec(&chars_of(pkg), &chars_of(user.as_str())))
}

/// Where a package file lies relative to the Windows side: below the
/// user-name directory when that directory exists (`user_dir_is_dir`) and
/// holds the file, else below the package, else the file path itself.
pub open spec fn winuser_rel_spec(pkg: Seq<char>, file: Seq<char>, cfg: Config, user_dir_is_dir: bool) -> Seq<char> {
    let ud = win_user_dir_spec(pkg, cfg);
    if user_dir_is_dir && strip_prefix_path(file, ud) is Some {
        strip_prefix_path(file, ud)->0
    } else {
        match strip_prefix_path(file, pkg) {
            Some(rel) => rel,
            None => file,
        }
    }
}

/// The path of a package file relative to the Windows side (see
/// `winuser_rel_spec`); `user_dir_is_dir` tells whether the package holds a
/// directory named after the Windows user.
pub fn winuser_rel_path(pkg: &str, file_path: &str, cfg: &Config, user_dir_is_dir: bool) -> (r: String)
    ensures
        r@ == winuser_rel_spec(pkg@, file_path@, *cfg, user_dir_is_dir),
{
    let file = chars_of(file_path);
    if user_dir_is_dir {
        let ud = win_user_dir(pkg, cfg);
        match strip_prefix_exec(&file, &chars_of(ud.as_str())) {
            Some(rel) => {
                return string_of(&rel);
            },
            None => {},
        }
    }
    match strip_prefix_exec(&file, &chars_of(pkg)) {
        Some(rel) => string_of(&rel),
        None => string_of(&file),
    }
}

/// Where a file of a Windows package is copied to: below
/// `<mnt_c>/Users/<user>` for `winuser` packages, below `<mnt_c>` otherwise.
pub open spec fn win_path_spec(file: Seq<char>, pkg: Seq<char>, t: PkgType, cfg: Config, user_dir_is_dir: bool) -> Seq<char> {
    let rel = winuser_rel_spec(pkg, file, cfg, user_dir_is_dir);
    if t == PkgType::WinUser {
        join(join(join(cfg.mnt_c@, "Users"@), user_name(cfg)), rel)
    } else {
        join(cfg.mnt_c@, rel)
    }
}

/// The Windows-side path (under the `C:` mount) of a package file (see
/// `win_path_spec`).
pub fn build_win_path(file_path: &str, pkg: &str, pt: PkgType, cfg: &Config, user_dir_is_dir: bool) -> (r: String)
    ensures
        r@ == win_path_spec(file_path@, pkg@, pt, *cfg, user_dir_is_dir),
{
    let rel = chars_of(winuser_rel_path(pkg, file_path, cfg, user_dir_is_dir).as_str());
    let mnt = chars_of(cfg.mnt_c.as_str());
    match pt {
        PkgType::WinUser => {
            let user = cfg.win_user();
            let users = join_exec(&mnt, &chars_of("Users"));
            let home = join_exec(&users, &chars_of(user.as_str()));
            string_of(&join_exec(&home, &rel))
        },
        _ => string_of(&join_exec(&mnt, &rel)),
    }
}

/// The directories whose contents belong to no package type.
pub open spec fn is_meta_dir(p: Seq<char>) -> bool {
    ||| path_starts_with(p, "/proc"@)
    ||| path_starts_with(p, "/sys"@)
    ||| path_starts_with(p, "/dev"@)
    ||| path_starts_with(p, "/run"@)
    ||| path_starts_with(p, "/tmp"@)
}

/// The package type a source path suggests: under the `C:` mount, a user's
/// home (`Users/<name>/…`) is `winuser` and the rest `winroot`; under the
/// home directory, `.config` is `config` and the rest `user`; the virtual
/// and scratch trees of `/` are `meta`, the rest of `/` is `root`.
pub open spec fn detect_type_spec(p: Seq<char>, cfg: Config) -> PkgType {
    match strip_components(p, cfg.mnt_c@) {
        Some(rest) => {
            if rest.len() >= 3 && rest[0] == "Users"@ {
                PkgType::WinUser
            } else {
                PkgType::WinRoot
            }
        },
        None => {
            match strip_components(p, cfg.home@) {
                Some(rest) => {
                    if rest.len() > 0 && rest[0] == ".config"@ {
                        PkgType::Config
                    } else {
                        PkgType::User
                    }
                },
                None => {
                    if path_starts_with(p, "/"@) {
                        if is_meta_dir(p) {
                            PkgType::Meta
                        } else {
                            PkgType::Root
                        }
                    } else {
                        PkgType::Meta
                    }
                },
            }
        },
    }
}

/// A path whose components are those of the `C:` mount followed by
/// `Users`, a user name and at least one more component (a file or
/// directory in that user's home) is a `winuser` source; any other path
/// under the mount is a `winroot` source.
pub proof fn lemma_windows_home_is_winuser(p: Seq<char>, cfg: Config, user: Seq<char>, more: Seq<Seq<char>>)
    ensures
        components(p) == components(cfg.mnt_c@) + seq!["Users"@, user] + more && more.len() >= 1
            ==> detect_type_spec(p, cfg) == PkgType::WinUser,
        path_starts_with(p, cfg.mnt_c@) && !(exists|u: Seq<char>, m: Seq<Seq<char>>|
            components(p) == components(cfg.mnt_c@) + seq!["Users"@, u] + m && m.len() >= 1)
            ==> detect_type_spec(p, cfg) == PkgType::WinRoot,
{
    let cp = components(p);
    let cb = components(cfg.mnt_c@);
    if cp == cb + seq!["Users"@, user] + more && more.len() >= 1 {
        assert(cp.take(cb.len() as int) =~= cb);
        let rest = cp.skip(cb.len() as int);
        assert(rest =~= seq!["Users"@, user] + more);
        assert(rest[0] == "Users"@);
    }
    if path_starts_with(p, cfg.mnt_c@) {
        let rest = cp.skip(cb.len() as int);
        if rest.len() >= 3 && rest[0] == "Users"@ {
            let u = rest[1];
            let m = rest.skip(2);
            assert(cp =~= cb + seq!["Users"@, u] + m);
        }
    }
}

/// The package type a (resolved) source path suggests (see
/// `detect_type_spec`).
pub fn detect_type(path: &str, cfg: &Config) -> (r: PkgType)
    ensures
        r == detect_type_spec(path@, *cfg),
        forall|user: Seq<char>, more: Seq<Seq<char>>|
            components(path@) == components(cfg.mnt_c@) + seq!["Users"@, user] + more && more.len() >= 1
            ==> r == PkgType::WinUser,
{
    proof {
        assert forall|user: Seq<char>, more: Seq<Seq<char>>|
            components(path@) == components(cfg.mnt_c@) + seq!["Users"@, user] + more && more.len() >= 1
            implies detect_type_spec(path@, *cfg) == PkgType::WinUser by {
            lemma_windows_home_is_winuser(path@, *cfg, user, more);
        }
    }
    let p = chars_of(path);
    match strip_components_exec(&p, &chars_of(cfg.mnt_c.as_str())) {
        Some(rest) => {
            if rest.len() >= 3 && chars_eq(&rest[0], &chars_of("Users")) {
                proof {
                    assert(seqs_of(rest@)[0] == rest@[0]@);
                }
                return PkgType::WinUser;
            }
            proof {
                if rest.len() >= 3 {
                    assert(seqs_of(rest@)[0] == rest@[0]@);
                }
            }
            return PkgType::WinRoot;
        },
        None => {},
    }
    match strip_components_exec(&p, &chars_of(cfg.home.as_str())) {
        Some(rest) => {
            if rest.len() > 0 && chars_eq(&rest[0], &chars_of(".config")) {
                proof {
                    assert(seqs_of(rest@)[0] == rest@[0]@);
                }
                return PkgType::Config;
            }
            proof {
                if rest.len() > 0 {
                    assert(seqs_of(rest@)[0] == rest@[0]@);
                }
            }
            return PkgType::User;
        },
        None => {},
    }
    if path_starts_with_exec(&p, &chars_of("/")) {
        if path_starts_with_exec(&p, &chars_of("/proc")) || path_starts_with_exec(&p, &chars_of("/sys"))
            || path_starts_with_exec(&p, &chars_of("/dev")) || path_starts_with_exec(&p, &chars_of("/run"))
            || path_starts_with_exec(&p, &chars_of("/tmp")) {
            return PkgType::Meta;
        }
        return PkgType::Root;
    }
    PkgType::Meta
}

/// The stem of a file name (`Path::file_stem`): the name before its last
/// `.`, or the whole name when the only `.` leads it or there is none.
pub open spec fn stem_of(name: Seq<char>) -> Seq<char> {
    if last_index_of(name, '.') <= 0 {
        name
    } else {
        name.subrange(0, last_index_of(name, '.'))
    }
}

/// The stem of a file name (see `stem_of`).
pub fn file_stem(name: &Vec<char>) -> (r: Vec<char>)
    ensures
        r@ == stem_of(name@),
{
    let i = after_last_index(name, '.');
    if i <= 1 {
        name.clone()
    } else {
        slice_chars(name, 0, i - 1)
    }
}

/// The names of files whose directory names the program they configure.
pub const INIT_NAMES: [&'static str; 5] = ["init.lua", "init.vim", "config", "config.yaml", "settings.json"];

/// The file name is one of `INIT_NAMES`.
pub open spec fn is_init_name(n: Seq<char>) -> bool {
    exists|j: int| 0 <= j < 5 && #[trigger] INIT_NAMES@[j]@ == n
}

/// The name of the directory holding the file at `p`, when that is an
/// ordinary name.
pub open spec fn parent_name(p: Seq<char>) -> Option<Seq<char>> {
    let cs = components(p);
    if cs.len() >= 2 && cs[cs.len() - 2].len() > 0 && is_normal_component(cs[cs.len() - 2]) {
        Some(cs[cs.len() - 2])
    } else {
        None
    }
}

/// The package name proposed for a list of sources, from the first one: the
/// name of its directory for a well-known configuration file name (unless
/// that is `~`), else the stem of its file name, else `unnamed`.
pub open spec fn propose_name_spec(sources: Seq<Seq<char>>) -> Seq<char> {
    if sources.len() == 0 {
        "unnamed"@
    } else {
        let first = sources[0];
        match file_name(first) {
            Some(n) => {
                if is_init_name(n) && parent_name(first) is Some && parent_name(first)->0 != "~"@ {
                    parent_name(first)->0
                } else {
                    stem_of(n)
                }
            },
            None => "unnamed"@,
        }
    }
}

fn is_init_name_exec(n: &Vec<char>) -> (r: bool)
    ensures
        r == is_init_name(n@),
{
    let mut j: usize = 0;
    while j < INIT_NAMES.len()
        invariant
            j <= 5,
            forall|b: int| 0 <= b < j ==> #[trigger] INIT_NAMES@[b]@ != n@,
        decreases 5 - j,
    {
        let name: &str = INIT_NAMES[j];
        if chars_eq(&chars_of(name), n) {
            return true;
        }
        j = j + 1;
    }
    false
}

fn parent_name_exec(p: &Vec<char>) -> (r: Option<Vec<char>>)
    ensures
        match r {
            Some(n) => parent_name(p@) == Some(n@),
            None => parent_name(p@) is None,
        },
{
    let cs = components_of(p);
    if cs.len() < 2 {
        return None;
    }
    let c = cs[cs.len() - 2].clone();
    proof {
        assert(seqs_of(cs@)[cs.len() - 2] == c@);
    }
    let slash = chars_of("/");
    let dot = chars_of(".");
    let dots = chars_of("..");
    proof {
        reveal_strlit("/");
        reveal_strlit(".");
        reveal_strlit("..");
        assert(slash@ =~= seq!['/']);
        assert(dot@ =~= seq!['.']);
        assert(dots@ =~= seq!['.', '.']);
    }
    if c.len() == 0 || chars_eq(&c, &slash) || chars_eq(&c, &dot) || chars_eq(&c, &dots) {
        None
    } else {
        Some(c)
    }
}

/// The package name proposed for a list of sources (see
/// `propose_name_spec`).
pub fn propose_name(sources: &Vec<String>) -> (r: String)
    ensures
        r@ == propose_name_spec(Seq::new(sources@.len(), |i: int| sources@[i]@)),
{
    let ghost views = Seq::new(sources@.len(), |i: int| sources@[i]@);
    if sources.len() == 0 {
        return "unnamed".to_owned();
    }
    let first = chars_of(sources[0].as_str());
    proof {
        assert(views[0] == first@);
    }
    match file_name_of(&first) {
        Some(n) => {
            if is_init_name_exec(&n) {
                match parent_name_exec(&first) {
                    Some(pn) => {
                        let tilde = chars_of("~");
                        if pn.len() > 0 && !chars_eq(&pn, &tilde) {
                            return string_of(&pn);
                        }
                        proof {
                            reveal_strlit("~");
                        }
                    },
                    None => {},
                }
            }
            string_of(&file_stem(&n))
        },
        None => "unnamed".to_owned(),
    }
}

/// An entry of the repository directory: its name and whether it is a
/// directory.
pub struct DirEntry {
    pub name: String,
    pub is_dir: bool,
}

/// The entry is a visible directory whose suffix declares type `t`.
pub open spec fn is_package_dir(e: DirEntry, t: PkgType) -> bool {
    &&& e.is_dir
    &&& !(e.name@.len() > 0 && e.name@[0] == '.')
    &&& type_of_dir_name(e.name@) == Some(t)
}

/// The names of the package directories of type `t`, in entry order.
pub open spec fn package_names(entries: Seq<DirEntry>, t: PkgType) -> Seq<Seq<char>>
    decreases entries.len(),
{
    if entries.len() == 0 {
        Seq::<Seq<char>>::empty()
    } else {
        let prev = package_names(entries.drop_last(), t);
        if is_package_dir(entries.last(), t) {
            prev.push(entries.last().name@)
        } else {
            prev
        }
    }
}

/// The paths of the packages of type `t` under `base`, in name order.
pub open spec fn packages_of(base: Seq<char>, entries: Seq<DirEntry>, t: PkgType) -> Seq<Seq<char>> {
    let sorted = package_names(entries, t).sort_by(lex_le_rel());
    Seq::new(sorted.len(), |i: int| join(base, sorted[i]))
}

/// The packages of a repository, by type.
pub struct PackageSet {
    user: Vec<String>,
    config: Vec<String>,
    root: Vec<String>,
    meta: Vec<String>,
    winuser: Vec<String>,
    winroot: Vec<String>,
}

impl PackageSet {
    /// The package paths of type `t`.
    pub closed spec fn of_type(&self, t: PkgType) -> Seq<String> {
        match t {
            PkgType::User => self.user@,
            PkgType::Config => self.config@,
            PkgType::Root => self.root@,
            PkgType::Meta => self.meta@,
            PkgType::WinUser => self.winuser@,
            PkgType::WinRoot => self.winroot@,
        }
    }

    /// The package paths of type `pt`, in name order.
    pub fn get(&self, pt: PkgType) -> (r: &Vec<String>)
        ensures
            r@ == self.of_type(pt),
    {
        match pt {
            PkgType::User => &self.user,
            PkgType::Config => &self.config,
            PkgType::Root => &self.root,
            PkgType::Meta => &self.meta,
            PkgType::WinUser => &self.winuser,
            PkgType::WinRoot => &self.winroot,
        }
    }
}

/// The paths of the packages of type `pt` among the entries of `base`.
fn packages_of_type(base: &str, entries: &Vec<DirEntry>, pt: PkgType) -> (r: Vec<String>)
    ensures
        Seq::new(r@.len(), |i: int| r@[i]@) == packages_of(base@, entries@, pt),
{
    let mut names: Vec<Vec<char>> = Vec::new();
    let mut i: usize = 0;
    proof {
        assert(entries@.take(0) =~= Seq::<DirEntry>::empty());
        assert(char_views(names@) =~= Seq::<Seq<char>>::empty());
    }
    while i < entries.len()
        invariant
            i <= entries@.len(),
            char_views(names@) == package_names(entries@.take(i as int), pt),
        decreases entries.len() - i,
    {
        proof {
            assert(entries@.take(i + 1).drop_last() =~= entries@.take(i as int));
            assert(entries@.take(i + 1).last() == entries@[i as int]);
        }
        let e = &entries[i];
        let n = chars_of(e.name.as_str());
        let hidden = n.len() > 0 && n[0] == '.';
        if e.is_dir && !hidden {
            match type_from_dir_name(e.name.as_str()) {
                Some(t) => {
                    if t == pt {
                        let ghost before = char_views(names@);
                        names.push(n);
                        proof {
                            assert(char_views(names@) =~= before.push(e.name@));
                        }
                    }
                },
                None => {},
            }
        }
        i = i + 1;
    }
    proof {
        assert(entries@.take(entries@.len() as int) =~= entries@);
    }
    let sorted = sort_names(names);
    let ghost sv = char_views(sorted@);
    let b = chars_of(base);
    let mut r: Vec<String> = Vec::new();
    let mut j: usize = 0;
    while j < sorted.len()
        invariant
            j <= sorted@.len(),
            sv == char_views(sorted@),
            b@ == base@,
            r@.len() == j,
            forall|k: int| 0 <= k < j ==> #[trigger] r@[k]@ == join(base@, sv[k]),
        decreases sorted.len() - j,
    {
        r.push(string_of(&join_exec(&b, &sorted[j])));
        j = j + 1;
    }
    proof {
        assert(Seq::new(r@.len(), |i: int| r@[i]@) =~= packages_of(base@, entries@, pt));
    }
    r
}

/// The packages among the entries of the repository directory `base`: for
/// each type, the visible directories whose suffix declares it, as paths
/// under `base`, in name order.
pub fn find_packages(base: &str, entries: &Vec<DirEntry>) -> (r: PackageSet)
    ensures
        forall|t: PkgType| Seq::new((#[trigger] r.of_type(t)).len(), |i: int| r.of_type(t)[i]@) == packages_of(base@, entries@, t),
{
    let r = PackageSet {
        user: packages_of_type(base, entries, PkgType::User),
        config: packages_of_type(base, entries, PkgType::Config),
        root: packages_of_type(base, entries, PkgType::Root),
        meta: packages_of_type(base, entries, PkgType::Meta),
        winuser: packages_of_type(base, entries, PkgType::WinUser),
        winroot: packages_of_type(base, entries, PkgType::WinRoot),
    };
    r
}

} // verus!
