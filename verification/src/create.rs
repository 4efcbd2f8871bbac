//! The decisions of `create`: the package type, name and place, which
//! sources fit the type, and where each source lands in the package.
use vstd::prelude::*;
use crate::config::Config;
use crate::discover::{name_or_empty, stem_of};
use crate::path::{
    components, components_of, file_name, file_name_of, join, join_exec, path_starts_with,
    path_starts_with_exec, render, render_exec, seqs_of, strip_prefix_exec, strip_prefix_path,
    take_comps,
};
use crate::text::{chars_eq, chars_of, concat_chars, decimal, decimal_chars, extend_chars, join_sep, join_sep_exec, seq_starts_with, slice_chars, starts_with_chars, string_of, views_of};
use crate::types::{parse_pkg_type, pkg_type_name, type_named, type_suffix, PkgType};
use crate::discover::file_stem;

verus! {

/// The package types in the order of their names.
pub open spec fn types_by_name() -> Seq<PkgType> {
    seq![PkgType::Config, PkgType::Meta, PkgType::Root, PkgType::User, PkgType::WinRoot, PkgType::WinUser]
}

/// The types that occur among `detected`, each once, in the order of their
/// names.
pub open spec fn distinct_types(detected: Seq<PkgType>) -> Seq<PkgType> {
    types_by_name().filter(|t: PkgType| detected.contains(t))
}

/// The one type all sources suggest, or, when they suggest several, those
/// types, each once, in the order of their names.
pub fn common_type(detected: &Vec<PkgType>) -> (r: Result<PkgType, Vec<PkgType>>)
    requires
        detected@.len() > 0,
    ensures
        match r {
            Ok(t) => distinct_types(detected@) == seq![t],
            Err(ts) => ts@ == distinct_types(detected@) && ts@.len() > 1,
        },
{
    let order: [PkgType; 6] = [PkgType::Config, PkgType::Meta, PkgType::Root, PkgType::User, PkgType::WinRoot, PkgType::WinUser];
    let mut found: Vec<PkgType> = Vec::new();
    let mut k: usize = 0;
    proof {
        assert(order@ == types_by_name());
        assert(types_by_name().take(0).filter(|t: PkgType| detected@.contains(t)) =~= Seq::<PkgType>::empty());
    }
    while k < 6
        invariant
            k <= 6,
            order@ == types_by_name(),
            found@ == types_by_name().take(k as int).filter(|t: PkgType| detected@.contains(t)),
        decreases 6 - k,
    {
        let t = order[k];
        let mut present = false;
        let mut j: usize = 0;
        while j < detected.len()
            invariant
                j <= detected@.len(),
                present == (exists|i: int| 0 <= i < j && detected@[i] == t),
            decreases detected.len() - j,
        {
            if detected[j] == t {
                present = true;
            }
            j = j + 1;
        }
        proof {
            let pre = types_by_name().take(k as int);
            let nxt = types_by_name().take(k + 1);
            assert(nxt =~= pre.push(t));
            pre.lemma_filter_push(t, |t: PkgType| detected@.contains(t));
            if present {
                let i = choose|i: int| 0 <= i < detected@.len() && detected@[i] == t;
                assert(detected@.contains(t));
            }
        }
        if present {
            found.push(t);
        }
        k = k + 1;
    }
    proof {
        assert(types_by_name().take(6) =~= types_by_name());
        let t0 = detected@[0];
        assert(detected@.contains(t0));
        assert(types_by_name().contains(t0)) by {
            match t0 {
                PkgType::Config => assert(types_by_name()[0] == t0),
                PkgType::Meta => assert(types_by_name()[1] == t0),
                PkgType::Root => assert(types_by_name()[2] == t0),
                PkgType::User => assert(types_by_name()[3] == t0),
                PkgType::WinRoot => assert(types_by_name()[4] == t0),
                PkgType::WinUser => assert(types_by_name()[5] == t0),
            }
        }
        broadcast use vstd::seq_lib::group_filter_ensures;
        let i0 = choose|i: int| 0 <= i < types_by_name().len() && types_by_name()[i] == t0;
        assert(types_by_name().filter(|t: PkgType| detected@.contains(t)).contains(types_by_name()[i0]));
    }
    if found.len() == 1 {
        let t = found[0];
        proof {
            assert(found@ =~= seq![t]);
        }
        Ok(t)
    } else {
        proof {
            assert(found@.len() != 0) by {
                let t0 = detected@[0];
                assert(found@.contains(t0));
            }
        }
        Err(found)
    }
}

/// The message for sources of several types.
pub fn mixed_types_message(types: &Vec<PkgType>) -> (r: String)
    ensures
        r@ == "Sources have mixed types — specify --type explicitly. Detected: "@
            + join_sep(Seq::new(types@.len(), |i: int| pkg_type_name(types@[i])), ", "@),
{
    let mut names: Vec<Vec<char>> = Vec::new();
    let mut i: usize = 0;
    while i < types.len()
        invariant
            i <= types@.len(),
            names@.len() == i,
            views_of(names@) == Seq::new(i as nat, |j: int| pkg_type_name(types@[j])),
        decreases types.len() - i,
    {
        let ghost old_names = names@;
        let piece = chars_of(types[i].value());
        names.push(piece);
        proof {
            assert forall|j: int| 0 <= j < i + 1 implies #[trigger] views_of(names@)[j] == pkg_type_name(types@[j]) by {
                if j < i {
                    assert(names@[j] == old_names[j]);
                    assert(views_of(old_names)[j] == old_names[j]@);
                }
            }
            assert(views_of(names@) =~= Seq::new((i + 1) as nat, |j: int| pkg_type_name(types@[j])));
        }
        i = i + 1;
    }
    let mut msg = chars_of("Sources have mixed types — specify --type explicitly. Detected: ");
    extend_chars(&mut msg, &join_sep_exec(&names, &chars_of(", ")));
    string_of(&msg)
}

/// What an answer to "Create as <type>?" asks for.
#[derive(Debug, Clone, Copy, PartialEq, Eq, Structural)]
pub enum TypeAnswer {
    /// `n`: stop.
    Cancel,
    /// `y`, nothing, or the offered type: go on with it.
    Keep,
    /// Another type's name: go on with that type.
    Use(PkgType),
    /// Anything else: an error.
    Unknown,
}

/// The meaning of the answer `resp` when type `pt` was offered.
pub open spec fn type_answer_spec(resp: Seq<char>, pt: PkgType) -> TypeAnswer {
    if resp == "n"@ {
        TypeAnswer::Cancel
    } else if resp == "y"@ || resp.len() == 0 || resp == pkg_type_name(pt) {
        TypeAnswer::Keep
    } else {
        match type_named(resp) {
            Some(t) => TypeAnswer::Use(t),
            None => TypeAnswer::Unknown,
        }
    }
}

/// The meaning of the answer `resp` when type `pt` was offered.
pub fn type_answer(resp: &str, pt: PkgType) -> (r: TypeAnswer)
    ensures
        r == type_answer_spec(resp@, pt),
{
    let v = chars_of(resp);
    if chars_eq(&v, &chars_of("n")) {
        return TypeAnswer::Cancel;
    }
    if chars_eq(&v, &chars_of("y")) || v.len() == 0 || chars_eq(&v, &chars_of(pt.value())) {
        return TypeAnswer::Keep;
    }
    match parse_pkg_type(resp) {
        Some(t) => TypeAnswer::Use(t),
        None => TypeAnswer::Unknown,
    }
}

/// The directory of a new package: the repository joined with the app name
/// and the type suffix.
pub open spec fn package_dir_spec(dotfiles: Seq<char>, app_name: Seq<char>, t: PkgType) -> Seq<char> {
    join(dotfiles, app_name + type_suffix(t))
}

/// The directory of a new package named `app_name` of type `pt`.
pub fn package_dir(dotfiles: &str, app_name: &str, pt: PkgType) -> (r: String)
    ensures
        r@ == package_dir_spec(dotfiles@, app_name@, pt),
{
    let name = concat_chars(&chars_of(app_name), &chars_of(pt.suffix().as_str()));
    string_of(&join_exec(&chars_of(dotfiles), &name))
}

/// How a source fits the type of the package it goes into.
#[derive(Debug, Clone, Copy, PartialEq, Eq, Structural)]
pub enum SourceVerdict {
    /// It fits.
    Fine,
    /// A `user`/`config` source outside the home directory: it fits, but
    /// only its file name is kept (a warning).
    OutsideHome,
    /// A Windows source outside the `C:` mount: refused.
    NotUnderMount,
    /// A source that does not fit the type: refused.
    Mismatch,
}

/// How the source at `src` fits type `t`.
pub open spec fn source_verdict(src: Seq<char>, t: PkgType, cfg: Config) -> SourceVerdict {
    if t == PkgType::User || t == PkgType::Config {
        if path_starts_with(src, cfg.home@) { SourceVerdict::Fine } else { SourceVerdict::OutsideHome }
    } else if t == PkgType::Root && path_starts_with(src, seq!['/']) {
        SourceVerdict::Fine
    } else if t == PkgType::Meta {
        SourceVerdict::Fine
    } else if t == PkgType::WinUser || t == PkgType::WinRoot {
        if path_starts_with(src, cfg.mnt_c@) { SourceVerdict::Fine } else { SourceVerdict::NotUnderMount }
    } else {
        SourceVerdict::Mismatch
    }
}

/// The findings on the sources from position `i` on: each source that does
/// not simply fit, with its position, up to and including the first refused.
pub open spec fn findings_from(srcs: Seq<Seq<char>>, t: PkgType, cfg: Config, i: int) -> Seq<(int, SourceVerdict)>
    decreases srcs.len() - i,
{
    if i < 0 || i >= srcs.len() {
        Seq::<(int, SourceVerdict)>::empty()
    } else {
        let v = source_verdict(srcs[i], t, cfg);
        if v == SourceVerdict::Fine {
            findings_from(srcs, t, cfg, i + 1)
        } else if v == SourceVerdict::OutsideHome {
            seq![(i, v)] + findings_from(srcs, t, cfg, i + 1)
        } else {
            seq![(i, v)]
        }
    }
}

/// How the source at `src` fits type `pt`.
pub fn check_source(src: &str, pt: PkgType, cfg: &Config) -> (r: SourceVerdict)
    ensures
        r == source_verdict(src@, pt, *cfg),
{
    let s = chars_of(src);
    if pt.is_linux_config() {
        if path_starts_with_exec(&s, &chars_of(cfg.home.as_str())) {
            return SourceVerdict::Fine;
        }
        return SourceVerdict::OutsideHome;
    }
    let mut root: Vec<char> = Vec::new();
    root.push('/');
    if pt == PkgType::Root && path_starts_with_exec(&s, &root) {
        return SourceVerdict::Fine;
    }
    if pt == PkgType::Meta {
        return SourceVerdict::Fine;
    }
    if pt.is_windows() {
        if path_starts_with_exec(&s, &chars_of(cfg.mnt_c.as_str())) {
            return SourceVerdict::Fine;
        }
        return SourceVerdict::NotUnderMount;
    }
    SourceVerdict::Mismatch
}

/// Checks the sources against the package type, in order: each source that
/// does not simply fit is reported with its position, and the check stops
/// at the first refused one (see `findings_from`).
pub fn validate_sources(sources: &Vec<String>, pt: PkgType, cfg: &Config) -> (r: Vec<(usize, SourceVerdict)>)
    ensures
        Seq::new(r@.len(), |i: int| (r@[i].0 as int, r@[i].1))
            == findings_from(Seq::new(sources@.len(), |i: int| sources@[i]@), pt, *cfg, 0),
{
    let ghost srcs = Seq::new(sources@.len(), |i: int| sources@[i]@);
    let mut r: Vec<(usize, SourceVerdict)> = Vec::new();
    let mut i: usize = 0;
    while i < sources.len()
        invariant
            i <= sources@.len(),
            srcs == Seq::new(sources@.len(), |k: int| sources@[k]@),
            Seq::new(r@.len(), |k: int| (r@[k].0 as int, r@[k].1)) + findings_from(srcs, pt, *cfg, i as int)
                == findings_from(srcs, pt, *cfg, 0),
        decreases sources.len() - i,
    {
        let v = check_source(sources[i].as_str(), pt, cfg);
        let ghost before = Seq::new(r@.len(), |k: int| (r@[k].0 as int, r@[k].1));
        proof {
            assert(srcs[i as int] == sources@[i as int]@);
        }
        match v {
            SourceVerdict::Fine => {},
            SourceVerdict::OutsideHome => {
                r.push((i, v));
                proof {
                    assert(Seq::new(r@.len(), |k: int| (r@[k].0 as int, r@[k].1)) =~= before.push((i as int, v)));
                    assert(before + findings_from(srcs, pt, *cfg, i as int)
                        =~= before.push((i as int, v)) + findings_from(srcs, pt, *cfg, i + 1));
                }
            },
            _ => {
                r.push((i, v));
                proof {
                    assert(Seq::new(r@.len(), |k: int| (r@[k].0 as int, r@[k].1)) =~= before.push((i as int, v)));
                    assert(findings_from(srcs, pt, *cfg, i as int) == seq![(i as int, v)]);
                    assert(before.push((i as int, v)) =~= before + seq![(i as int, v)]);
                }
                return r;
            },
        }
        i = i + 1;
    }
    proof {
        assert(findings_from(srcs, pt, *cfg, i as int) == Seq::<(int, SourceVerdict)>::empty());
        assert(Seq::new(r@.len(), |k: int| (r@[k].0 as int, r@[k].1))
            =~= Seq::new(r@.len(), |k: int| (r@[k].0 as int, r@[k].1)) + Seq::<(int, SourceVerdict)>::empty());
    }
    r
}

/// `s` without its leading `c` characters.
pub open spec fn trim_leading(s: Seq<char>, c: char) -> Seq<char>
    decreases s.len(),
{
    if s.len() > 0 && s[0] == c {
        trim_leading(s.drop_first(), c)
    } else {
        s
    }
}

fn trim_leading_exec(s: &Vec<char>, c: char) -> (r: Vec<char>)
    ensures
        r@ == trim_leading(s@, c),
{
    let mut i: usize = 0;
    proof {
        assert(s@.skip(0) =~= s@);
    }
    while i < s.len() && s[i] == c
        invariant
            i <= s.len(),
            trim_leading(s@, c) == trim_leading(s@.skip(i as int), c),
        decreases s.len() - i,
    {
        proof {
            assert(s@.skip(i as int).drop_first() =~= s@.skip(i + 1));
        }
        i = i + 1;
    }
    proof {
        assert(s@.skip(i as int) =~= s@.subrange(i as int, s.len() as int));
    }
    slice_chars(s, i, s.len())
}

/// A Windows target (such as `C:/Users/me`) as a path under the `C:` mount.
pub open spec fn win_target_mount(target: Seq<char>, cfg: Config) -> Seq<char> {
    let no_drive = if seq_starts_with(target, "C:"@) { target.skip(2) } else { target };
    join(cfg.mnt_c@, trim_leading(trim_leading(no_drive, '/'), '\\'))
}

/// `base` joined with the part of `src` after `prefix`, when `src` lies
/// under `prefix`.
pub open spec fn rebase(src: Seq<char>, prefix: Seq<char>, base: Seq<char>) -> Option<Seq<char>> {
    match strip_prefix_path(src, prefix) {
        Some(rel) => Some(join(base, rel)),
        None => None,
    }
}

/// Where a source lands in a package of type `t` rooted at `pkg_root`: its
/// path below the type's target, which is the home directory (`user`),
/// `~/.config` (`config`) or `/` (`root`); below the type's Windows target
/// or else the `C:` mount (Windows types); or else just its file name. So
/// the package, stowed into its target, puts the file back where it was.
pub open spec fn dest_spec(src: Seq<char>, t: PkgType, pkg_root: Seq<char>, cfg: Config) -> Seq<char> {
    let by_name = join(pkg_root, name_or_empty(src));
    if t == PkgType::User {
        match rebase(src, cfg.home@, pkg_root) {
            Some(d) => d,
            None => by_name,
        }
    } else if t == PkgType::Config {
        match rebase(src, join(cfg.home@, seq!['.', 'c', 'o', 'n', 'f', 'i', 'g']), pkg_root) {
            Some(d) => d,
            None => by_name,
        }
    } else if t == PkgType::Root {
        match rebase(src, seq!['/'], pkg_root) {
            Some(d) => d,
            None => by_name,
        }
    } else if t == PkgType::WinUser || t == PkgType::WinRoot {
        let under_target = match cfg.target_of(t) {
            Some(target) => rebase(src, win_target_mount(target, cfg), pkg_root),
            None => None,
        };
        match under_target {
            Some(d) => d,
            None => match rebase(src, cfg.mnt_c@, pkg_root) {
                Some(d) => d,
                None => by_name,
            },
        }
    } else {
        by_name
    }
}

fn rebase_exec(src: &Vec<char>, prefix: &Vec<char>, base: &Vec<char>) -> (r: Option<Vec<char>>)
    ensures
        match r {
            Some(d) => rebase(src@, prefix@, base@) == Some(d@),
            None => rebase(src@, prefix@, base@) is None,
        },
{
    match strip_prefix_exec(src, prefix) {
        Some(rel) => Some(join_exec(base, &rel)),
        None => None,
    }
}

/// Where the source at `src` lands in the package of type `pt` rooted at
/// `pkg_root` (see `dest_spec`).
pub fn compute_dest(src: &str, pt: PkgType, pkg_root: &str, cfg: &Config) -> (r: String)
    ensures
        r@ == dest_spec(src@, pt, pkg_root@, *cfg),
{
    let s = chars_of(src);
    let root = chars_of(pkg_root);
    let name = match file_name_of(&s) {
        Some(n) => n,
        None => Vec::new(),
    };
    let by_name = join_exec(&root, &name);
    if pt == PkgType::User {
        return match rebase_exec(&s, &chars_of(cfg.home.as_str()), &root) {
            Some(d) => string_of(&d),
            None => string_of(&by_name),
        };
    }
    if pt == PkgType::Config {
        return match rebase_exec(&s, &chars_of(cfg.config_target().as_str()), &root) {
            Some(d) => string_of(&d),
            None => string_of(&by_name),
        };
    }
    if pt == PkgType::Root {
        let mut slash: Vec<char> = Vec::new();
        slash.push('/');
        return match rebase_exec(&s, &slash, &root) {
            Some(d) => string_of(&d),
            None => string_of(&by_name),
        };
    }
    if pt.is_windows() {
        let under_target = match pt.sync_target(cfg) {
            Some(target) => {
                let t = chars_of(target.as_str());
                let no_drive = if starts_with_chars(&t, &chars_of("C:")) {
                    proof {
                        reveal_strlit("C:");
                    }
                    slice_chars(&t, 2, t.len())
                } else {
                    t
                };
                proof {
                    assert(seq_starts_with(target@, "C:"@) ==> no_drive@ =~= target@.skip(2)) by {
                        reveal_strlit("C:");
                    }
                }
                let trimmed = trim_leading_exec(&trim_leading_exec(&no_drive, '/'), '\\');
                let mount = join_exec(&chars_of(cfg.mnt_c.as_str()), &trimmed);
                rebase_exec(&s, &mount, &root)
            },
            None => None,
        };
        return match under_target {
            Some(d) => string_of(&d),
            None => match rebase_exec(&s, &chars_of(cfg.mnt_c.as_str()), &root) {
                Some(d) => string_of(&d),
                None => string_of(&by_name),
            },
        };
    }
    string_of(&by_name)
}

/// Where a moved source is first copied to: next to `dest`, named by its
/// stem, a `.` and `.wots_tmp_<pid>` (`Path::with_extension`); `dest` itself
/// when it has no file name.
pub open spec fn temp_path_spec(dest: Seq<char>, pid: u32) -> Seq<char> {
    match file_name(dest) {
        Some(n) => join(
            render(components(dest).drop_last()),
            stem_of(n) + seq!['.'] + ".wots_tmp_"@ + decimal(pid as nat),
        ),
        None => dest,
    }
}

/// The temporary path a moved source is first copied to (see
/// `temp_path_spec`).
pub fn temp_path(dest: &str, pid: u32) -> (r: String)
    ensures
        r@ == temp_path_spec(dest@, pid),
{
    let d = chars_of(dest);
    match file_name_of(&d) {
        Some(n) => {
            let cs = components_of(&d);
            let parent = if cs.len() > 0 {
                render_exec(&take_comps(&cs, cs.len() - 1))
            } else {
                render_exec(&cs)
            };
            proof {
                if cs.len() > 0 {
                    assert(seqs_of(cs@).take(cs.len() - 1) =~= seqs_of(cs@).drop_last());
                } else {
                    assert(seqs_of(cs@) =~= seqs_of(cs@).drop_last());
                }
            }
            let mut name = file_stem(&n);
            name.push('.');
            extend_chars(&mut name, &chars_of(".wots_tmp_"));
            extend_chars(&mut name, &decimal_chars(pid as u64));
            proof {
                assert(name@ =~= stem_of(n@) + seq!['.'] + ".wots_tmp_"@ + decimal(pid as nat));
            }
            string_of(&join_exec(&parent, &name))
        },
        None => string_of(&d),
    }
}

/// What the check after copying a source finds.
#[derive(Debug, Clone, Copy, PartialEq, Eq, Structural)]
pub enum CopyCheck {
    /// The copy has the source's kind and measure.
    Matches,
    /// One is a directory and the other not.
    KindMismatch,
    /// Directories holding different numbers of files (source, copy).
    CountMismatch(u64, u64),
    /// Files of different sizes (source, copy).
    SizeMismatch(u64, u64),
}

/// Checks a copy against its source: both directories or both files, and
/// then the same number of files (directories) or the same size (files).
pub fn copy_check(src_is_dir: bool, dest_is_dir: bool, src_measure: u64, dest_measure: u64) -> (r: CopyCheck)
    ensures
        src_is_dir != dest_is_dir ==> r == CopyCheck::KindMismatch,
        src_is_dir == dest_is_dir && src_measure == dest_measure ==> r == CopyCheck::Matches,
        src_is_dir == dest_is_dir && src_measure != dest_measure && src_is_dir
            ==> r == CopyCheck::CountMismatch(src_measure, dest_measure),
        src_is_dir == dest_is_dir && src_measure != dest_measure && !src_is_dir
            ==> r == CopyCheck::SizeMismatch(src_measure, dest_measure),
{
    if src_is_dir != dest_is_dir {
        CopyCheck::KindMismatch
    } else if src_measure == dest_measure {
        CopyCheck::Matches
    } else if src_is_dir {
        CopyCheck::CountMismatch(src_measure, dest_measure)
    } else {
        CopyCheck::SizeMismatch(src_measure, dest_measure)
    }
}

/// The text `a vs b` of two measures.
pub open spec fn versus(a: u64, b: u64) -> Seq<char> {
    decimal(a as nat) + " vs "@ + decimal(b as nat)
}

/// The error message of a failed copy check; `None` for a copy that matches.
pub fn copy_check_message(c: CopyCheck) -> (r: Option<String>)
    ensures
        match c {
            CopyCheck::Matches => r is None,
            CopyCheck::KindMismatch => r is Some && r->0@ == "copy validation: type mismatch (dir vs file)"@,
            CopyCheck::CountMismatch(a, b) => r is Some
                && r->0@ == "copy validation: file count mismatch ("@ + versus(a, b) + ")"@,
            CopyCheck::SizeMismatch(a, b) => r is Some
                && r->0@ == "copy validation: size mismatch ("@ + versus(a, b) + ")"@,
        },
{
    match c {
        CopyCheck::Matches => None,
        CopyCheck::KindMismatch => Some(string_of(&chars_of("copy validation: type mismatch (dir vs file)"))),
        CopyCheck::CountMismatch(a, b) => {
            let mut m = chars_of("copy validation: file count mismatch (");
            extend_chars(&mut m, &decimal_chars(a));
            extend_chars(&mut m, &chars_of(" vs "));
            extend_chars(&mut m, &decimal_chars(b));
            extend_chars(&mut m, &chars_of(")"));
            proof {
                assert(m@ =~= "copy validation: file count mismatch ("@ + versus(a, b) + ")"@);
            }
            Some(string_of(&m))
        },
        CopyCheck::SizeMismatch(a, b) => {
            let mut m = chars_of("copy validation: size mismatch (");
            extend_chars(&mut m, &decimal_chars(a));
            extend_chars(&mut m, &chars_of(" vs "));
            extend_chars(&mut m, &decimal_chars(b));
            extend_chars(&mut m, &chars_of(")"));
            proof {
                assert(m@ =~= "copy validation: size mismatch ("@ + versus(a, b) + ")"@);
            }
            Some(string_of(&m))
        },
    }
}

/// How sources become a package of type `pt`: `user` and `config` sources
/// are moved in (and linked back), the others copied.
pub fn moves_sources(pt: PkgType) -> (r: bool)
    ensures
        r == (pt == PkgType::User || pt == PkgType::Config),
{
    pt.is_linux_config()
}

/// What follows the creation of a package.
#[derive(Debug, Clone, Copy, PartialEq, Eq, Structural)]
pub enum AfterCreate {
    /// Link it with stow.
    Stow,
    /// Copy it to Windows.
    CopyToWindows,
    /// Nothing.
    Nothing,
}

/// What follows the creation of a package of type `pt`: stowed types are
/// stowed unless `no_stow`, copied types synced unless `no_sync`.
pub fn after_create(pt: PkgType, no_stow: bool, no_sync: bool) -> (r: AfterCreate)
    ensures
        r == (if (pt == PkgType::User || pt == PkgType::Config || pt == PkgType::Root) && !no_stow {
            AfterCreate::Stow
        } else if (pt == PkgType::WinUser || pt == PkgType::WinRoot) && !no_sync {
            AfterCreate::CopyToWindows
        } else {
            AfterCreate::Nothing
        }),
{
    if pt.uses_stow() && !no_stow {
        AfterCreate::Stow
    } else if pt.uses_copy_sync() && !no_sync {
        AfterCreate::CopyToWindows
    } else {
        AfterCreate::Nothing
    }
}

/// A Windows package cannot be created without a Windows user name: its
/// target would fall back to the placeholder `user`.
pub fn win_user_missing(pt: PkgType, win_user: &Option<String>) -> (r: bool)
    ensures
        r == ((pt == PkgType::WinUser || pt == PkgType::WinRoot) && win_user is None),
{
    pt.is_windows() && win_user.is_none()
}

} // verus!
