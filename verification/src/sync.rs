//! The decisions of `sync`: which packages go where, how each file copy is
//! counted and reported, and the commands that do the copying and linking.
use vstd::prelude::*;
use crate::cli::SyncArgs;
use crate::config::Config;
use crate::discover::{basename_spec, PackageSet, build_win_path, name_or_empty, pkg_basename, win_path_spec};
use crate::path::{file_name_of, parent_or_self, parent_or_self_exec, strip_prefix_exec, strip_prefix_path};
use crate::text::{seq_ends_with, seq_starts_with, after_last_index, last_index_of, chars_eq, chars_of, contains_chars, decimal, decimal_chars, extend_chars, join_sep, join_sep_exec, seq_contains, slice_chars, string_of, views_of};
use crate::status::string_views;
use crate::types::PkgType;

verus! {

/// The types a sync covers: the one asked for, else the one the `--app`
/// argument's suffix declares, else every syncable type.
pub open spec fn types_to_sync_spec(asked: Option<PkgType>, detected: Option<PkgType>) -> Seq<PkgType> {
    match asked {
        Some(t) => seq![t],
        None => match detected {
            Some(t) => seq![t],
            None => seq![PkgType::User, PkgType::Config, PkgType::Root, PkgType::WinUser, PkgType::WinRoot],
        },
    }
}

/// A sync that names no type, and whose `--app` argument declares none,
/// covers every syncable type once: all types but `meta`.
pub proof fn lemma_plain_sync_covers_all_but_meta()
    ensures
        types_to_sync_spec(None, None).len() == 5,
        forall|t: PkgType| types_to_sync_spec(None, None).contains(t) <==> t != PkgType::Meta,
{
    let s = types_to_sync_spec(None, None);
    assert forall|t: PkgType| s.contains(t) <==> t != PkgType::Meta by {
        if t != PkgType::Meta {
            match t {
                PkgType::User => assert(s[0] == t),
                PkgType::Config => assert(s[1] == t),
                PkgType::Root => assert(s[2] == t),
                PkgType::WinUser => assert(s[3] == t),
                PkgType::WinRoot => assert(s[4] == t),
                PkgType::Meta => {},
            }
        } else {
            if s.contains(t) {
                let i = choose|i: int| 0 <= i < s.len() && s[i] == t;
                assert(false);
            }
        }
    }
}

/// The types a sync covers (see `types_to_sync_spec`).
pub fn types_to_sync(asked: Option<PkgType>, detected: Option<PkgType>) -> (r: Vec<PkgType>)
    ensures
        r@ == types_to_sync_spec(asked, detected),
        asked is None && detected is None ==> r@.len() == 5
            && forall|t: PkgType| r@.contains(t) <==> t != PkgType::Meta,
{
    proof {
        lemma_plain_sync_covers_all_but_meta();
    }
    match asked {
        Some(t) => vec![t],
        None => match detected {
            Some(t) => vec![t],
            None => vec![PkgType::User, PkgType::Config, PkgType::Root, PkgType::WinUser, PkgType::WinRoot],
        },
    }
}

/// What a sync run will do before touching any package.
pub struct SyncPlan {
    /// The types to sync, in order.
    pub types: Vec<PkgType>,
    /// Only the packages of this name, when `--app` was given.
    pub app: Option<String>,
    /// For each of `types`, the packages to sync, in order.
    pub selected: Vec<Vec<String>>,
    /// Whether to list the selected packages with their targets and ask
    /// before syncing.
    pub confirm: bool,
    /// Whether that question also warns that root packages need sudo.
    pub root_warning: bool,
}

/// An optional string, as an optional character sequence.
pub open spec fn opt_chars(o: Option<String>) -> Option<Seq<char>> {
    match o {
        Some(s) => Some(s@),
        None => None,
    }
}

/// For each of `types`, the packages of that type whose name is `app`.
pub open spec fn sync_selection(pkgs: PackageSet, types: Seq<PkgType>, app: Option<Seq<char>>) -> Seq<Seq<Seq<char>>> {
    Seq::new(types.len(), |i: int| select_packages_spec(string_views(pkgs.of_type(types[i])), app))
}

/// The selection holds at least one package.
pub open spec fn selection_nonempty(sel: Seq<Seq<Seq<char>>>) -> bool {
    exists|i: int| 0 <= i < sel.len() && #[trigger] sel[i].len() > 0
}

/// The selection holds at least one `root` package.
pub open spec fn selection_has_root(types: Seq<PkgType>, sel: Seq<Seq<Seq<char>>>) -> bool {
    exists|i: int| 0 <= i < sel.len() && types[i] == PkgType::Root && #[trigger] sel[i].len() > 0
}

/// Plans a sync run: the types to cover, the package name to keep, the
/// packages selected for each type, and whether to ask first. Every sync
/// lists what it will deploy and asks, unless nothing is selected or
/// `--yes` or `--dry-run` was given; the question warns about sudo when
/// root packages are selected and `--bypass` was not given.
pub fn plan_sync(args: &SyncArgs, packages: &PackageSet) -> (r: SyncPlan)
    ensures
        ({
            let parsed = match args.app {
                Some(raw) => Some(crate::types::app_arg(raw@)),
                None => None,
            };
            let detected = match parsed {
                Some(p) => p.0,
                None => None,
            };
            let sel = sync_selection(*packages, r.types@, opt_chars(r.app));
            &&& r.types@ == types_to_sync_spec(args.pkg_type, detected)
            &&& match parsed {
                Some(p) => r.app is Some && r.app->0@ == p.1,
                None => r.app is None,
            }
            &&& r.selected@.len() == r.types@.len()
            &&& forall|i: int| 0 <= i < r.types@.len() ==> string_views(#[trigger] r.selected@[i]@) == sel[i]
            &&& r.confirm == (selection_nonempty(sel) && !args.yes && !args.dry_run)
            &&& r.root_warning == (r.confirm && selection_has_root(r.types@, sel) && !args.bypass)
        }),
{
    let (detected, app) = match &args.app {
        Some(raw) => {
            let (dt, name) = crate::types::parse_app_arg(raw.as_str());
            (dt, Some(name))
        },
        None => (None, None),
    };
    let types = types_to_sync(args.pkg_type, detected);
    let ghost sel = sync_selection(*packages, types@, opt_chars(app));
    let mut selected: Vec<Vec<String>> = Vec::new();
    let mut any = false;
    let mut root_any = false;
    let mut i: usize = 0;
    while i < types.len()
        invariant
            i <= types@.len(),
            sel == sync_selection(*packages, types@, opt_chars(app)),
            selected@.len() == i,
            forall|k: int| 0 <= k < i ==> string_views(#[trigger] selected@[k]@) == sel[k],
            any == (exists|k: int| 0 <= k < i && #[trigger] sel[k].len() > 0),
            root_any == (exists|k: int| 0 <= k < i && types@[k] == PkgType::Root && #[trigger] sel[k].len() > 0),
        decreases types.len() - i,
    {
        let s = select_packages(packages.get(types[i]), &app);
        proof {
            assert(string_views(s@) == sel[i as int]);
            assert(s@.len() == sel[i as int].len());
        }
        if s.len() > 0 {
            any = true;
            if types[i] == PkgType::Root {
                root_any = true;
            }
        }
        selected.push(s);
        i = i + 1;
    }
    let confirm = any && !args.yes && !args.dry_run;
    let root_warning = confirm && root_any && !args.bypass;
    SyncPlan { types, app, selected, confirm, root_warning }
}

/// The packages whose name (see `basename_spec`) is `app`; all of them when
/// no name is given. Order is kept.
pub open spec fn select_packages_spec(pkgs: Seq<Seq<char>>, app: Option<Seq<char>>) -> Seq<Seq<char>> {
    match app {
        Some(a) => pkgs.filter(|p: Seq<char>| basename_spec(p) == a),
        None => pkgs,
    }
}

/// The packages whose name is `app` (all of them when `app` is `None`).
pub fn select_packages(pkgs: &Vec<String>, app: &Option<String>) -> (r: Vec<String>)
    ensures
        Seq::new(r@.len(), |i: int| r@[i]@) == select_packages_spec(
            Seq::new(pkgs@.len(), |i: int| pkgs@[i]@),
            match app { Some(a) => Some(a@), None => None },
        ),
{
    let ghost all = Seq::new(pkgs@.len(), |i: int| pkgs@[i]@);
    let mut r: Vec<String> = Vec::new();
    let mut i: usize = 0;
    proof {
        assert(all.take(0) =~= Seq::<Seq<char>>::empty());
    }
    while i < pkgs.len()
        invariant
            i <= pkgs@.len(),
            all == Seq::new(pkgs@.len(), |k: int| pkgs@[k]@),
            Seq::new(r@.len(), |k: int| r@[k]@) == select_packages_spec(all.take(i as int),
                match app { Some(a) => Some(a@), None => None }),
        decreases pkgs.len() - i,
    {
        let ghost before = Seq::new(r@.len(), |k: int| r@[k]@);
        proof {
            assert(all.take(i + 1) =~= all.take(i as int).push(pkgs@[i as int]@));
        }
        let keep = match app {
            Some(a) => chars_eq(&chars_of(pkg_basename(pkgs[i].as_str()).as_str()), &chars_of(a.as_str())),
            None => true,
        };
        if keep {
            r.push(pkgs[i].clone());
        }
        proof {
            match app {
                Some(a) => {
                    all.take(i as int).lemma_filter_push(pkgs@[i as int]@, |p: Seq<char>| basename_spec(p) == a@);
                },
                None => {},
            }
            if keep {
                assert(Seq::new(r@.len(), |k: int| r@[k]@) =~= before.push(pkgs@[i as int]@));
            } else {
                assert(Seq::new(r@.len(), |k: int| r@[k]@) =~= before);
            }
        }
        i = i + 1;
    }
    proof {
        assert(all.take(pkgs@.len() as int) =~= all);
    }
    r
}

/// How packages of a type are deployed.
#[derive(Debug, Clone, Copy, PartialEq, Eq, Structural)]
pub enum SyncMode {
    /// Linked with GNU Stow.
    Stow,
    /// Copied to Windows.
    Copy,
    /// Managed by hand.
    Manual,
}

/// How packages of type `pt` are deployed.
pub fn sync_mode(pt: PkgType) -> (r: SyncMode)
    ensures
        r == (if pt == PkgType::User || pt == PkgType::Config || pt == PkgType::Root {
            SyncMode::Stow
        } else if pt == PkgType::WinUser || pt == PkgType::WinRoot {
            SyncMode::Copy
        } else {
            SyncMode::Manual
        }),
{
    if pt.uses_stow() {
        SyncMode::Stow
    } else if pt.uses_copy_sync() {
        SyncMode::Copy
    } else {
        SyncMode::Manual
    }
}

/// Whether the copying of Windows packages can go ahead.
#[derive(Debug, Clone, Copy, PartialEq, Eq, Structural)]
pub enum CopyGate {
    /// Not inside WSL: skip with a warning.
    NotWsl,
    /// Neither `pwsh.exe` nor `robocopy.exe` is there: skip with an error.
    NoCopier,
    /// No Windows user name is set: fail.
    NoUser,
    /// Go ahead.
    Go,
}

/// Whether the copying of Windows packages can go ahead, checked in this
/// order: inside WSL, a copier at hand, a Windows user name set.
pub fn copy_gate(is_wsl: bool, has_pwsh: bool, has_robocopy: bool, win_user_set: bool) -> (r: CopyGate)
    ensures
        r == (if !is_wsl {
            CopyGate::NotWsl
        } else if !has_pwsh && !has_robocopy {
            CopyGate::NoCopier
        } else if !win_user_set {
            CopyGate::NoUser
        } else {
            CopyGate::Go
        }),
{
    if !is_wsl {
        CopyGate::NotWsl
    } else if !has_pwsh && !has_robocopy {
        CopyGate::NoCopier
    } else if !win_user_set {
        CopyGate::NoUser
    } else {
        CopyGate::Go
    }
}

/// The copies to make for a Windows package: each file with its Windows
/// path.
pub fn prepare_sync_items(files: &Vec<String>, pkg: &str, pt: PkgType, cfg: &Config, user_dir_is_dir: bool)
    -> (r: Vec<(String, String)>)
    ensures
        r@.len() == files@.len(),
        forall|i: int| 0 <= i < files@.len() ==> {
            &&& (#[trigger] r@[i]).0 == files@[i]
            &&& r@[i].1@ == win_path_spec(files@[i]@, pkg@, pt, *cfg, user_dir_is_dir)
        },
{
    let mut r: Vec<(String, String)> = Vec::new();
    let mut i: usize = 0;
    while i < files.len()
        invariant
            i <= files@.len(),
            r@.len() == i,
            forall|k: int| 0 <= k < i ==> {
                &&& (#[trigger] r@[k]).0 == files@[k]
                &&& r@[k].1@ == win_path_spec(files@[k]@, pkg@, pt, *cfg, user_dir_is_dir)
            },
        decreases files.len() - i,
    {
        let wp = build_win_path(files[i].as_str(), pkg, pt, cfg, user_dir_is_dir);
        r.push((files[i].clone(), wp));
        i = i + 1;
    }
    r
}

/// How many copies a batch runs at once: the configured number, kept
/// between 1 and 4.
pub fn copy_threads(max_concurrent: usize) -> (r: usize)
    ensures
        r == (if max_concurrent < 1 { 1 } else if max_concurrent > 4 { 4 } else { max_concurrent }),
{
    if max_concurrent < 1 {
        1
    } else if max_concurrent > 4 {
        4
    } else {
        max_concurrent
    }
}

/// What became of one copy of a batch.
#[derive(Debug, Clone, Copy, PartialEq, Eq, Structural)]
pub enum ItemOutcome {
    Copied,
    Skipped,
    MissingSource,
    Failed,
}

/// What becomes of one copy: an excluded file is skipped, a vanished one is
/// missing, and otherwise the copier's success decides.
pub fn item_outcome(excluded: bool, source_exists: bool, copied: bool) -> (r: ItemOutcome)
    ensures
        r == (if excluded {
            ItemOutcome::Skipped
        } else if !source_exists {
            ItemOutcome::MissingSource
        } else if copied {
            ItemOutcome::Copied
        } else {
            ItemOutcome::Failed
        }),
{
    if excluded {
        ItemOutcome::Skipped
    } else if !source_exists {
        ItemOutcome::MissingSource
    } else if copied {
        ItemOutcome::Copied
    } else {
        ItemOutcome::Failed
    }
}

/// The tallies of a copy batch.
#[derive(Debug, Clone, Copy, PartialEq, Eq, Structural)]
pub struct SyncCounts {
    pub copied_to_win: usize,
    pub missing_source: usize,
    pub skipped: usize,
    pub error: usize,
}

/// How many of the outcomes are `o`.
pub open spec fn outcome_count(outs: Seq<ItemOutcome>, o: ItemOutcome) -> nat
    decreases outs.len(),
{
    if outs.len() == 0 {
        0
    } else {
        outcome_count(outs.drop_last(), o) + (if outs.last() == o { 1nat } else { 0nat })
    }
}

proof fn lemma_outcome_count_le(outs: Seq<ItemOutcome>, o: ItemOutcome)
    ensures
        outcome_count(outs, o) <= outs.len(),
    decreases outs.len(),
{
    if outs.len() > 0 {
        lemma_outcome_count_le(outs.drop_last(), o);
    }
}

/// Tallies the outcomes of a copy batch.
pub fn tally_outcomes(outs: &Vec<ItemOutcome>) -> (r: SyncCounts)
    ensures
        r.copied_to_win == outcome_count(outs@, ItemOutcome::Copied),
        r.skipped == outcome_count(outs@, ItemOutcome::Skipped),
        r.missing_source == outcome_count(outs@, ItemOutcome::MissingSource),
        r.error == outcome_count(outs@, ItemOutcome::Failed),
{
    let mut r = SyncCounts { copied_to_win: 0, missing_source: 0, skipped: 0, error: 0 };
    let mut i: usize = 0;
    while i < outs.len()
        invariant
            i <= outs@.len(),
            r.copied_to_win == outcome_count(outs@.take(i as int), ItemOutcome::Copied),
            r.skipped == outcome_count(outs@.take(i as int), ItemOutcome::Skipped),
            r.missing_source == outcome_count(outs@.take(i as int), ItemOutcome::MissingSource),
            r.error == outcome_count(outs@.take(i as int), ItemOutcome::Failed),
        decreases outs.len() - i,
    {
        proof {
            assert(outs@.take(i + 1).drop_last() =~= outs@.take(i as int));
            lemma_outcome_count_le(outs@.take(i as int), outs@[i as int]);
        }
        match outs[i] {
            ItemOutcome::Copied => r.copied_to_win = r.copied_to_win + 1,
            ItemOutcome::Skipped => r.skipped = r.skipped + 1,
            ItemOutcome::MissingSource => r.missing_source = r.missing_source + 1,
            ItemOutcome::Failed => r.error = r.error + 1,
        }
        i = i + 1;
    }
    proof {
        assert(outs@.take(outs@.len() as int) =~= outs@);
    }
    r
}

/// The report piece for `n` copies under `word`: none when `n` is zero.
pub open spec fn sync_part(n: nat, word: Seq<char>) -> Seq<Seq<char>> {
    if n > 0 {
        seq![decimal(n) + seq![' '] + word]
    } else {
        Seq::<Seq<char>>::empty()
    }
}

/// The result line of a copy batch: its nonzero tallies (copied, skipped,
/// missing, errors) after `    Result: `; no line when all are zero.
pub open spec fn sync_summary_spec(c: SyncCounts) -> Option<Seq<char>> {
    let parts = sync_part(c.copied_to_win as nat, "copied"@) + sync_part(c.skipped as nat, "skipped"@)
        + sync_part(c.missing_source as nat, "missing"@) + sync_part(c.error as nat, "errors"@);
    if parts.len() == 0 {
        None
    } else {
        Some("    Result: "@ + join_sep(parts, ", "@))
    }
}

fn push_sync_part(parts: &mut Vec<Vec<char>>, n: usize, word: &str)
    ensures
        views_of(final(parts)@) == views_of(old(parts)@) + sync_part(n as nat, word@),
{
    if n > 0 {
        let mut piece = decimal_chars(n as u64);
        piece.push(' ');
        extend_chars(&mut piece, &chars_of(word));
        assert(piece@ =~= decimal(n as nat) + seq![' '] + word@);
        let ghost before = views_of(parts@);
        parts.push(piece);
        proof {
            assert(views_of(parts@) =~= before + sync_part(n as nat, word@));
        }
    } else {
        assert(views_of(parts@) =~= views_of(old(parts)@) + sync_part(n as nat, word@));
    }
}

/// The result line of a copy batch (see `sync_summary_spec`).
pub fn sync_summary(c: &SyncCounts) -> (r: Option<String>)
    ensures
        match r {
            Some(s) => sync_summary_spec(*c) == Some(s@),
            None => sync_summary_spec(*c) is None,
        },
{
    let mut parts: Vec<Vec<char>> = Vec::new();
    assert(views_of(parts@) =~= Seq::<Seq<char>>::empty());
    push_sync_part(&mut parts, c.copied_to_win, "copied");
    push_sync_part(&mut parts, c.skipped, "skipped");
    push_sync_part(&mut parts, c.missing_source, "missing");
    push_sync_part(&mut parts, c.error, "errors");
    if parts.len() == 0 {
        None
    } else {
        let mut line = chars_of("    Result: ");
        extend_chars(&mut line, &join_sep_exec(&parts, &chars_of(", ")));
        Some(string_of(&line))
    }
}

/// `s` with every `from` replaced by `to`.
pub open spec fn replace_char(s: Seq<char>, from: char, to: char) -> Seq<char> {
    Seq::new(s.len(), |i: int| if s[i] == from { to } else { s[i] })
}

fn replace_char_exec(s: &Vec<char>, from: char, to: char) -> (r: Vec<char>)
    ensures
        r@ == replace_char(s@, from, to),
{
    let mut r: Vec<char> = Vec::new();
    let mut i: usize = 0;
    while i < s.len()
        invariant
            i <= s.len(),
            r@ == replace_char(s@, from, to).take(i as int),
        decreases s.len() - i,
    {
        if s[i] == from {
            r.push(to);
        } else {
            r.push(s[i]);
        }
        proof {
            assert(r@ =~= replace_char(s@, from, to).take(i + 1));
        }
        i = i + 1;
    }
    proof {
        assert(replace_char(s@, from, to).take(s.len() as int) =~= replace_char(s@, from, to));
    }
    r
}

/// The UNC path under which Windows sees a WSL file:
/// `\\wsl$\<distro>\` followed by the path with `\` for `/`.
pub open spec fn wsl_unc_spec(distro: Seq<char>, wsl_src: Seq<char>) -> Seq<char> {
    "\\\\wsl$\\"@ + distro + seq!['\\'] + replace_char(wsl_src, '/', '\\')
}

/// The UNC path under which Windows sees a WSL file.
pub fn wsl_unc(distro: &str, wsl_src: &str) -> (r: String)
    ensures
        r@ == wsl_unc_spec(distro@, wsl_src@),
{
    let mut v = chars_of("\\\\wsl$\\");
    extend_chars(&mut v, &chars_of(distro));
    v.push('\\');
    extend_chars(&mut v, &replace_char_exec(&chars_of(wsl_src), '/', '\\'));
    proof {
        assert(v@ =~= wsl_unc_spec(distro@, wsl_src@));
    }
    string_of(&v)
}

/// The Windows form of a path under the `C:` mount: `C:\` followed by the
/// part after the mount (the whole path when it is not under it), with `\`
/// for `/`.
pub open spec fn win_drive_path_spec(win_dst: Seq<char>, mnt_c: Seq<char>) -> Seq<char> {
    let rel = match strip_prefix_path(win_dst, mnt_c) {
        Some(r) => r,
        None => win_dst,
    };
    "C:\\"@ + replace_char(rel, '/', '\\')
}

/// The Windows form of a path under the `C:` mount.
pub fn win_drive_path(win_dst: &str, mnt_c: &str) -> (r: String)
    ensures
        r@ == win_drive_path_spec(win_dst@, mnt_c@),
{
    let d = chars_of(win_dst);
    let rel = match strip_prefix_exec(&d, &chars_of(mnt_c)) {
        Some(r) => r,
        None => d,
    };
    let mut v = chars_of("C:\\");
    extend_chars(&mut v, &replace_char_exec(&rel, '/', '\\'));
    string_of(&v)
}

/// `s` up to its last `\`, or all of `s` when it has none.
pub open spec fn before_last_backslash(s: Seq<char>) -> Seq<char> {
    if last_index_of(s, '\\') < 0 {
        s
    } else {
        s.subrange(0, last_index_of(s, '\\'))
    }
}

fn before_last_backslash_exec(s: &Vec<char>) -> (r: Vec<char>)
    ensures
        r@ == before_last_backslash(s@),
{
    let i = after_last_index(s, '\\');
    if i == 0 {
        s.clone()
    } else {
        slice_chars(s, 0, i - 1)
    }
}

/// The arguments of the `robocopy.exe` run that copies one file or
/// directory: a directory is mirrored (`/MIR /MT:8`, `.git` left out) onto
/// `win`; a file is copied by name from the directory above its UNC path
/// into `win_parent`, the directory above its Windows path (robocopy's
/// target is a directory).
pub open spec fn robocopy_args_spec(unc: Seq<char>, win: Seq<char>, win_parent: Seq<char>, is_dir: bool, file_name: Seq<char>) -> Seq<Seq<char>> {
    if is_dir {
        seq![unc, win, "/MIR"@, "/MT:8"@, "/R:1"@, "/W:1"@, "/NJH"@, "/NJS"@, "/NP"@, "/XF"@, ".git"@]
    } else {
        seq![before_last_backslash(unc), win_parent, file_name, "/R:1"@, "/W:1"@, "/NJH"@, "/NJS"@, "/NP"@]
    }
}

/// The arguments of the `robocopy.exe` run for the WSL path `wsl_src`
/// (a directory when `is_dir`) and the Windows path `win_dst`.
pub fn robocopy_args(distro: &str, wsl_src: &str, win_dst: &str, mnt_c: &str, is_dir: bool) -> (r: Vec<String>)
    ensures
        Seq::new(r@.len(), |i: int| r@[i]@) == robocopy_args_spec(
            wsl_unc_spec(distro@, wsl_src@),
            win_drive_path_spec(win_dst@, mnt_c@),
            win_drive_path_spec(parent_or_self(win_dst@), mnt_c@),
            is_dir,
            name_or_empty(wsl_src@),
        ),
{
    let unc = wsl_unc(distro, wsl_src);
    let win = win_drive_path(win_dst, mnt_c);
    let mut r: Vec<String> = Vec::new();
    if is_dir {
        r.push(unc);
        r.push(win);
        r.push("/MIR".to_string());
        r.push("/MT:8".to_string());
        r.push("/R:1".to_string());
        r.push("/W:1".to_string());
        r.push("/NJH".to_string());
        r.push("/NJS".to_string());
        r.push("/NP".to_string());
        r.push("/XF".to_string());
        r.push(".git".to_string());
    } else {
        let parent = before_last_backslash_exec(&chars_of(unc.as_str()));
        let file = match file_name_of(&chars_of(wsl_src)) {
            Some(n) => n,
            None => Vec::new(),
        };
        let win_parent = win_drive_path(parent_or_self_exec(win_dst).as_str(), mnt_c);
        r.push(string_of(&parent));
        r.push(win_parent);
        r.push(string_of(&file));
        r.push("/R:1".to_string());
        r.push("/W:1".to_string());
        r.push("/NJH".to_string());
        r.push("/NJS".to_string());
        r.push("/NP".to_string());
    }
    proof {
        assert(Seq::new(r@.len(), |i: int| r@[i]@) =~= robocopy_args_spec(
            wsl_unc_spec(distro@, wsl_src@),
            win_drive_path_spec(win_dst@, mnt_c@),
            win_drive_path_spec(parent_or_self(win_dst@), mnt_c@),
            is_dir,
            name_or_empty(wsl_src@),
        ));
    }
    r
}

/// A robocopy run succeeded: its exit code is below 8 (codes 0 to 7 report
/// what was copied); a run without an exit code counts as 8.
pub fn robocopy_succeeded(code: Option<i32>) -> (r: bool)
    ensures
        r == (match code { Some(c) => c < 8, None => false }),
{
    match code {
        Some(c) => c < 8,
        None => false,
    }
}

/// The PowerShell command that copies one file or directory from its UNC
/// path to its Windows path (creating the parent directory of a file).
pub open spec fn pwsh_command_spec(unc: Seq<char>, win: Seq<char>, is_dir: bool) -> Seq<char> {
    if is_dir {
        "$ErrorActionPreference='Stop'; Copy-Item -LiteralPath '"@ + unc + "' -Destination '"@ + win + "' -Recurse -Force"@
    } else {
        "$ErrorActionPreference='Stop'; New-Item -ItemType Directory -Force -Path (Split-Path '"@ + win
            + "' -Parent) | Out-Null; Copy-Item -LiteralPath '"@ + unc + "' -Destination '"@ + win + "' -Force"@
    }
}

/// The PowerShell command stops at the first error and ends by copying
/// from the WSL file's UNC path (`-LiteralPath`, the source) to its Windows
/// path (`-Destination`), recursively for a directory.
pub proof fn lemma_pwsh_copies_unc_to_windows(unc: Seq<char>, win: Seq<char>, is_dir: bool)
    ensures
        seq_starts_with(pwsh_command_spec(unc, win, is_dir), "$ErrorActionPreference='Stop'; "@),
        seq_ends_with(pwsh_command_spec(unc, win, is_dir),
            "Copy-Item -LiteralPath '"@ + unc + "' -Destination '"@ + win
                + (if is_dir { "' -Recurse -Force"@ } else { "' -Force"@ })),
{
    reveal_strlit("$ErrorActionPreference='Stop'; ");
    reveal_strlit("Copy-Item -LiteralPath '");
    reveal_strlit("$ErrorActionPreference='Stop'; Copy-Item -LiteralPath '");
    reveal_strlit("$ErrorActionPreference='Stop'; New-Item -ItemType Directory -Force -Path (Split-Path '");
    reveal_strlit("' -Parent) | Out-Null; Copy-Item -LiteralPath '");
    reveal_strlit("' -Parent) | Out-Null; ");
    reveal_strlit("New-Item -ItemType Directory -Force -Path (Split-Path '");
    let stop = "$ErrorActionPreference='Stop'; "@;
    let copy = "Copy-Item -LiteralPath '"@;
    let clause = copy + unc + "' -Destination '"@ + win
        + (if is_dir { "' -Recurse -Force"@ } else { "' -Force"@ });
    let s = pwsh_command_spec(unc, win, is_dir);
    if is_dir {
        assert("$ErrorActionPreference='Stop'; Copy-Item -LiteralPath '"@ =~= stop + copy);
        assert(s =~= stop + clause);
    } else {
        let mid = "New-Item -ItemType Directory -Force -Path (Split-Path '"@ + win + "' -Parent) | Out-Null; "@;
        assert("$ErrorActionPreference='Stop'; New-Item -ItemType Directory -Force -Path (Split-Path '"@
            =~= stop + "New-Item -ItemType Directory -Force -Path (Split-Path '"@);
        assert("' -Parent) | Out-Null; Copy-Item -LiteralPath '"@ =~= "' -Parent) | Out-Null; "@ + copy);
        assert(s =~= stop + mid + clause);
        assert(s =~= stop + (mid + clause));
    }
    assert(s.subrange(0, stop.len() as int) =~= stop);
    assert(s.subrange(s.len() - clause.len(), s.len() as int) =~= clause);
}

/// The PowerShell command that copies one file or directory (see
/// `pwsh_command_spec`).
pub fn pwsh_command(unc: &str, win: &str, is_dir: bool) -> (r: String)
    ensures
        r@ == pwsh_command_spec(unc@, win@, is_dir),
        seq_starts_with(r@, "$ErrorActionPreference='Stop'; "@),
        seq_ends_with(r@, "Copy-Item -LiteralPath '"@ + unc@ + "' -Destination '"@ + win@
            + (if is_dir { "' -Recurse -Force"@ } else { "' -Force"@ })),
{
    proof {
        lemma_pwsh_copies_unc_to_windows(unc@, win@, is_dir);
    }
    let mut v: Vec<char>;
    if is_dir {
        v = chars_of("$ErrorActionPreference='Stop'; Copy-Item -LiteralPath '");
        extend_chars(&mut v, &chars_of(unc));
        extend_chars(&mut v, &chars_of("' -Destination '"));
        extend_chars(&mut v, &chars_of(win));
        extend_chars(&mut v, &chars_of("' -Recurse -Force"));
    } else {
        v = chars_of("$ErrorActionPreference='Stop'; New-Item -ItemType Directory -Force -Path (Split-Path '");
        extend_chars(&mut v, &chars_of(win));
        extend_chars(&mut v, &chars_of("' -Parent) | Out-Null; Copy-Item -LiteralPath '"));
        extend_chars(&mut v, &chars_of(unc));
        extend_chars(&mut v, &chars_of("' -Destination '"));
        extend_chars(&mut v, &chars_of(win));
        extend_chars(&mut v, &chars_of("' -Force"));
    }
    proof {
        assert(v@ =~= pwsh_command_spec(unc@, win@, is_dir));
    }
    string_of(&v)
}

/// The arguments of the `stow` run that links a package: verbose, adopting
/// existing files, into `target`.
pub fn stow_args(target: &str, pkg_name: &str) -> (r: Vec<String>)
    ensures
        Seq::new(r@.len(), |i: int| r@[i]@) == seq!["-v"@, "--adopt"@, "-t"@, target@, pkg_name@],
{
    let mut r: Vec<String> = Vec::new();
    r.push("-v".to_string());
    r.push("--adopt".to_string());
    r.push("-t".to_string());
    r.push(string_of(&chars_of(target)));
    r.push(string_of(&chars_of(pkg_name)));
    proof {
        assert(Seq::new(r@.len(), |i: int| r@[i]@) =~= seq!["-v"@, "--adopt"@, "-t"@, target@, pkg_name@]);
    }
    r
}

/// How a Linux package is linked.
#[derive(Debug, Clone, Copy, PartialEq, Eq, Structural)]
pub enum StowStep {
    /// File by file with `ln -sf` through sudo (a dry run only shows the
    /// links).
    FileByFile,
    /// A dry run: only show the stow command.
    Preview,
    /// Run stow.
    Stow,
}

/// How a package of type `pt` is linked: `root` packages file by file
/// through sudo; otherwise a dry run only shows the stow command, and a
/// real run runs stow.
pub fn stow_step(pt: PkgType, dry_run: bool) -> (r: StowStep)
    ensures
        r == (if pt == PkgType::Root {
            StowStep::FileByFile
        } else if dry_run {
            StowStep::Preview
        } else {
            StowStep::Stow
        }),
{
    if pt.needs_sudo() {
        StowStep::FileByFile
    } else if dry_run {
        StowStep::Preview
    } else {
        StowStep::Stow
    }
}

/// What a stow run's result calls for.
#[derive(Debug, Clone, Copy, PartialEq, Eq, Structural)]
pub enum StowOutcome {
    /// It linked the package.
    Stowed,
    /// Files stow does not own are in the way: link file by file instead.
    RetryFileByFile,
    /// A permission problem: warn with the start of the error output.
    PermissionWarning,
    /// Any other failure: an error with the start of the error output.
    Failed,
}

/// What a stow run's result calls for, from its success and error output.
pub open spec fn stow_outcome_spec(success: bool, stderr: Seq<char>) -> StowOutcome {
    if success {
        StowOutcome::Stowed
    } else if seq_contains(stderr, "existing target is not owned by stow"@) {
        StowOutcome::RetryFileByFile
    } else if seq_contains(stderr, "Permission denied"@) || seq_contains(stderr, "cannot stow"@) {
        StowOutcome::PermissionWarning
    } else {
        StowOutcome::Failed
    }
}

/// What a stow run's result calls for (see `stow_outcome_spec`).
pub fn stow_outcome(success: bool, stderr: &str) -> (r: StowOutcome)
    ensures
        r == stow_outcome_spec(success, stderr@),
{
    if success {
        return StowOutcome::Stowed;
    }
    let e = chars_of(stderr);
    if contains_chars(&e, &chars_of("existing target is not owned by stow")) {
        StowOutcome::RetryFileByFile
    } else if contains_chars(&e, &chars_of("Permission denied")) || contains_chars(&e, &chars_of("cannot stow")) {
        StowOutcome::PermissionWarning
    } else {
        StowOutcome::Failed
    }
}

/// How many bytes UTF-8 takes for `c`.
pub open spec fn char_utf8_len(c: char) -> nat {
    if (c as u32) < 0x80 {
        1
    } else if (c as u32) < 0x800 {
        2
    } else if (c as u32) < 0x10000 {
        3
    } else {
        4
    }
}

/// How many bytes UTF-8 takes for `s`.
pub open spec fn utf8_len(s: Seq<char>) -> nat
    decreases s.len(),
{
    if s.len() == 0 {
        0
    } else {
        utf8_len(s.drop_last()) + char_utf8_len(s.last())
    }
}

/// A longer prefix takes more bytes.
proof fn lemma_utf8_len_prefix(s: Seq<char>, j: int, k: int)
    requires
        0 <= j <= k <= s.len(),
    ensures
        utf8_len(s.take(j)) + (k - j) <= utf8_len(s.take(k)),
    decreases k - j,
{
    if j < k {
        lemma_utf8_len_prefix(s, j, k - 1);
        assert(s.take(k).drop_last() =~= s.take(k - 1));
    }
}

fn char_utf8_len_exec(c: char) -> (r: usize)
    ensures
        r == char_utf8_len(c),
{
    let u = c as u32;
    if u < 0x80 {
        1
    } else if u < 0x800 {
        2
    } else if u < 0x10000 {
        3
    } else {
        4
    }
}

/// The first `n` bytes of `s` (all of it when it is shorter). The cut must
/// fall between two characters.
pub fn leading_bytes(s: &str, n: usize) -> (r: String)
    requires
        utf8_len(s@) <= n || exists|k: int| 0 <= k <= s@.len() && utf8_len(#[trigger] s@.take(k)) == n,
    ensures
        r@.len() <= s@.len(),
        r@ == s@.take(r@.len() as int),
        utf8_len(r@) == (if utf8_len(s@) < n { utf8_len(s@) } else { n as nat }),
{
    let v = chars_of(s);
    let mut acc: usize = 0;
    let mut i: usize = 0;
    proof {
        assert(v@.take(0) =~= Seq::<char>::empty());
    }
    while i < v.len()
        invariant_except_break
            i <= v@.len(),
            v@ == s@,
            acc as nat == utf8_len(v@.take(i as int)),
            acc <= n,
        ensures
            i <= v@.len(),
            v@ == s@,
            acc as nat == utf8_len(v@.take(i as int)),
            acc <= n,
            i == v@.len() || acc + char_utf8_len(v@[i as int]) > n,
        decreases v.len() - i,
    {
        let cl = char_utf8_len_exec(v[i]);
        if cl > n - acc {
            break;
        }
        proof {
            assert(v@.take(i + 1).drop_last() =~= v@.take(i as int));
        }
        acc = acc + cl;
        i = i + 1;
    }
    proof {
        assert(v@.take(v@.len() as int) =~= v@);
        if i < v@.len() {
            assert(v@.take(i + 1).drop_last() =~= v@.take(i as int));
            lemma_utf8_len_prefix(v@, i + 1, v@.len() as int);
            if utf8_len(s@) > n {
                let k = choose|k: int| 0 <= k <= s@.len() && utf8_len(#[trigger] s@.take(k)) == n;
                if k <= i {
                    lemma_utf8_len_prefix(v@, k, i as int);
                } else {
                    lemma_utf8_len_prefix(v@, i + 1, k);
                }
            }
        }
        assert(v@.subrange(0, i as int) =~= s@.take(i as int));
    }
    string_of(&slice_chars(&v, 0, i))
}

} // verus!
