//! The decisions of `stats`, `list` and `diff`: which types are shown, the
//! status text of each package, the totals, and what `diff` reports.
use vstd::prelude::*;
use crate::status::{count_of, status_label, status_text, status_text_spec, CopyStatusCounts, FileStatusEntry, FileSyncStatus};
use crate::text::{chars_of, decimal, decimal_chars, extend_chars, string_of};
use crate::discover::{basename_spec, pkg_basename};
use crate::types::{pkg_type_name, PkgType};

verus! {

/// The types a listing covers: the one asked for, else every syncable type.
pub fn types_to_show(asked: Option<PkgType>) -> (r: Vec<PkgType>)
    ensures
        r@ == (match asked {
            Some(t) => seq![t],
            None => seq![PkgType::User, PkgType::Config, PkgType::Root, PkgType::WinUser, PkgType::WinRoot],
        }),
{
    match asked {
        Some(t) => vec![t],
        None => vec![PkgType::User, PkgType::Config, PkgType::Root, PkgType::WinUser, PkgType::WinRoot],
    }
}

/// The status of a package (or of all packages of a type).
pub enum PkgStatus {
    /// A stowed type: how many files are linked, of how many.
    Stow(usize, usize),
    /// A copied type: the tally of file statuses.
    Copy(CopyStatusCounts),
    /// A type managed by hand.
    Manual,
}

/// `<stowed>/<total> stowed`.
pub open spec fn stowed_of(stowed: usize, total: usize) -> Seq<char> {
    decimal(stowed as nat) + seq!['/'] + decimal(total as nat) + " stowed"@
}

fn stowed_of_exec(stowed: usize, total: usize) -> (r: String)
    ensures
        r@ == stowed_of(stowed, total),
{
    let mut v = decimal_chars(stowed as u64);
    v.push('/');
    extend_chars(&mut v, &decimal_chars(total as u64));
    extend_chars(&mut v, &chars_of(" stowed"));
    proof {
        assert(v@ =~= stowed_of(stowed, total));
    }
    string_of(&v)
}

/// The status text `stats` shows for a type.
pub open spec fn stats_text_spec(s: PkgStatus) -> Seq<char> {
    match s {
        PkgStatus::Stow(stowed, total) => if total > 0 { stowed_of(stowed, total) } else { "empty"@ },
        PkgStatus::Copy(c) => status_text_spec(c),
        PkgStatus::Manual => "manual"@,
    }
}

/// The status text `stats` shows for a type.
pub fn stats_status_text(s: &PkgStatus) -> (r: String)
    ensures
        r@ == stats_text_spec(*s),
{
    match s {
        PkgStatus::Stow(stowed, total) => {
            if *total > 0 {
                stowed_of_exec(*stowed, *total)
            } else {
                "empty".to_string()
            }
        },
        PkgStatus::Copy(c) => status_text(c),
        PkgStatus::Manual => "manual".to_string(),
    }
}

/// The status text `list` shows for a package: a fully linked package is
/// `stowed`.
pub open spec fn list_text_spec(s: PkgStatus) -> Seq<char> {
    match s {
        PkgStatus::Stow(stowed, total) => {
            if stowed == total && total > 0 {
                "stowed"@
            } else if total > 0 {
                stowed_of(stowed, total)
            } else {
                "empty"@
            }
        },
        PkgStatus::Copy(c) => status_text_spec(c),
        PkgStatus::Manual => "manual"@,
    }
}

/// The status text `list` shows for a package.
pub fn list_status_text(s: &PkgStatus) -> (r: String)
    ensures
        r@ == list_text_spec(*s),
{
    match s {
        PkgStatus::Stow(stowed, total) => {
            if *stowed == *total && *total > 0 {
                "stowed".to_string()
            } else if *total > 0 {
                stowed_of_exec(*stowed, *total)
            } else {
                "empty".to_string()
            }
        },
        PkgStatus::Copy(c) => status_text(c),
        PkgStatus::Manual => "manual".to_string(),
    }
}

/// The sum of the file counts of the packages.
pub open spec fn files_total(counts: Seq<(usize, u64)>) -> nat
    decreases counts.len(),
{
    if counts.len() == 0 {
        0
    } else {
        files_total(counts.drop_last()) + counts.last().0 as nat
    }
}

/// The sum of the sizes of the packages.
pub open spec fn bytes_total(counts: Seq<(usize, u64)>) -> nat
    decreases counts.len(),
{
    if counts.len() == 0 {
        0
    } else {
        bytes_total(counts.drop_last()) + counts.last().1 as nat
    }
}

proof fn lemma_totals_grow(counts: Seq<(usize, u64)>, i: int)
    requires
        0 <= i <= counts.len(),
    ensures
        files_total(counts.take(i)) <= files_total(counts),
        bytes_total(counts.take(i)) <= bytes_total(counts),
    decreases counts.len() - i,
{
    if i < counts.len() {
        lemma_totals_grow(counts, i + 1);
        assert(counts.take(i + 1).drop_last() =~= counts.take(i));
    } else {
        assert(counts.take(i) =~= counts);
    }
}

/// The file count and size of several packages together; `None` when either
/// sum does not fit its type.
pub fn total_sizes(counts: &Vec<(usize, u64)>) -> (r: Option<(usize, u64)>)
    ensures
        match r {
            Some((f, b)) => f == files_total(counts@) && b == bytes_total(counts@),
            None => files_total(counts@) > usize::MAX || bytes_total(counts@) > u64::MAX,
        },
{
    let mut files: usize = 0;
    let mut bytes: u64 = 0;
    let mut i: usize = 0;
    while i < counts.len()
        invariant
            i <= counts@.len(),
            files == files_total(counts@.take(i as int)),
            bytes == bytes_total(counts@.take(i as int)),
        decreases counts.len() - i,
    {
        proof {
            assert(counts@.take(i + 1).drop_last() =~= counts@.take(i as int));
        }
        let (f, b) = counts[i];
        match (files.checked_add(f), bytes.checked_add(b)) {
            (Some(nf), Some(nb)) => {
                files = nf;
                bytes = nb;
            },
            _ => {
                proof {
                    lemma_totals_grow(counts@, i + 1);
                }
                return None;
            },
        }
        i = i + 1;
    }
    proof {
        assert(counts@.take(counts@.len() as int) =~= counts@);
    }
    Some((files, bytes))
}

/// A copied package has something to report in `diff`: a file that needs a
/// copy either way, is missing on either side, or differs in content.
pub fn diff_has_work(c: &CopyStatusCounts) -> (r: bool)
    ensures
        r == (count_of(*c, FileSyncStatus::NeedsSync) > 0 || count_of(*c, FileSyncStatus::MissingWin) > 0
            || count_of(*c, FileSyncStatus::NewerOnWin) > 0 || count_of(*c, FileSyncStatus::MissingWsl) > 0
            || count_of(*c, FileSyncStatus::ContentChanged) > 0),
{
    c.outdated_local > 0 || c.missing_remote > 0 || c.outdated_remote > 0 || c.missing_wsl > 0
        || c.content_mat_mismatch > 0
}

/// `diff` lists a file unless it is synced or skipped.
pub open spec fn diff_lists(s: FileSyncStatus) -> bool {
    s != FileSyncStatus::Synced && s != FileSyncStatus::Skipped
}

/// The lines `diff` lists for a package's status lines, in order: each
/// listed file's status label and path.
pub open spec fn diff_lines(entries: Seq<FileStatusEntry>) -> Seq<(Seq<char>, Seq<char>)>
    decreases entries.len(),
{
    if entries.len() == 0 {
        Seq::<(Seq<char>, Seq<char>)>::empty()
    } else {
        let prev = diff_lines(entries.drop_last());
        let e = entries.last();
        if diff_lists(e.status) {
            prev.push((status_label(e.status), e.relative_path@))
        } else {
            prev
        }
    }
}

/// `diff` lists exactly the status lines whose status is neither `synced`
/// nor `skipped`, in their order, each as its status label and its path:
/// every line that needs a copy, is missing on a side or differs in content
/// is listed, and no other.
pub proof fn lemma_diff_lists_unsynced(entries: Seq<FileStatusEntry>)
    ensures
        diff_lines(entries) == entries.filter(
            |e: FileStatusEntry| e.status != FileSyncStatus::Synced && e.status != FileSyncStatus::Skipped,
        ).map_values(|e: FileStatusEntry| (status_label(e.status), e.relative_path@)),
    decreases entries.len(),
{
    let pred = |e: FileStatusEntry| e.status != FileSyncStatus::Synced && e.status != FileSyncStatus::Skipped;
    let f = |e: FileStatusEntry| (status_label(e.status), e.relative_path@);
    if entries.len() == 0 {
        assert(entries.filter(pred).map_values(f) =~= Seq::<(Seq<char>, Seq<char>)>::empty());
    } else {
        lemma_diff_lists_unsynced(entries.drop_last());
        let prev = entries.drop_last().filter(pred);
        reveal(Seq::filter);
        assert(entries.filter(pred) == (if pred(entries.last()) { prev.push(entries.last()) } else { prev }));
        if pred(entries.last()) {
            assert(prev.push(entries.last()).map_values(f) =~= prev.map_values(f).push(f(entries.last())));
            assert(diff_lines(entries) == diff_lines(entries.drop_last()).push(f(entries.last())));
        } else {
            assert(diff_lines(entries) == diff_lines(entries.drop_last()));
        }
        assert(diff_lines(entries) == entries.filter(pred).map_values(f));
    }
}

/// One file line of `diff`: a status word and a path.
pub struct DiffFile {
    pub status: String,
    pub path: String,
}

/// The file lines `diff` lists for a package's status lines (see
/// `diff_lines`).
pub fn diff_files(entries: &Vec<FileStatusEntry>) -> (r: Vec<DiffFile>)
    ensures
        Seq::new(r@.len(), |i: int| (r@[i].status@, r@[i].path@)) == diff_lines(entries@),
        Seq::new(r@.len(), |i: int| (r@[i].status@, r@[i].path@)) == entries@.filter(
            |e: FileStatusEntry| e.status != FileSyncStatus::Synced && e.status != FileSyncStatus::Skipped,
        ).map_values(|e: FileStatusEntry| (status_label(e.status), e.relative_path@)),
{
    proof {
        lemma_diff_lists_unsynced(entries@);
    }
    let mut r: Vec<DiffFile> = Vec::new();
    let mut i: usize = 0;
    proof {
        assert(entries@.take(0) =~= Seq::<FileStatusEntry>::empty());
    }
    while i < entries.len()
        invariant
            i <= entries@.len(),
            Seq::new(r@.len(), |k: int| (r@[k].status@, r@[k].path@)) == diff_lines(entries@.take(i as int)),
        decreases entries.len() - i,
    {
        proof {
            assert(entries@.take(i + 1).drop_last() =~= entries@.take(i as int));
            assert(entries@.take(i + 1).last() == entries@[i as int]);
        }
        let ghost before = Seq::new(r@.len(), |k: int| (r@[k].status@, r@[k].path@));
        let e = &entries[i];
        let shown = match e.status {
            FileSyncStatus::Synced => false,
            FileSyncStatus::Skipped => false,
            _ => true,
        };
        if shown {
            r.push(DiffFile { status: string_of(&chars_of(e.status.label())), path: e.relative_path.clone() });
            proof {
                assert(Seq::new(r@.len(), |k: int| (r@[k].status@, r@[k].path@))
                    =~= before.push((status_label(e.status), e.relative_path@)));
            }
        } else {
            proof {
                assert(Seq::new(r@.len(), |k: int| (r@[k].status@, r@[k].path@)) =~= before);
            }
        }
        i = i + 1;
    }
    proof {
        assert(entries@.take(entries@.len() as int) =~= entries@);
    }
    r
}

/// The file lines `diff` lists for a stowed package: each link target that
/// is not linked, as `not-stowed`. `dests` holds the link target of each
/// file (`None` for a file outside the package) and `linked` whether it is
/// linked.
pub open spec fn unstowed_lines(dests: Seq<Option<String>>, linked: Seq<bool>) -> Seq<Seq<char>>
    decreases dests.len(),
{
    if dests.len() == 0 || linked.len() != dests.len() {
        Seq::<Seq<char>>::empty()
    } else {
        let prev = unstowed_lines(dests.drop_last(), linked.drop_last());
        match dests.last() {
            Some(d) => if !linked.last() { prev.push(d@) } else { prev },
            None => prev,
        }
    }
}

/// The `not-stowed` lines of a stowed package (see `unstowed_lines`).
pub fn unstowed_files(dests: &Vec<Option<String>>, linked: &Vec<bool>) -> (r: Vec<DiffFile>)
    requires
        dests@.len() == linked@.len(),
    ensures
        Seq::new(r@.len(), |i: int| r@[i].path@) == unstowed_lines(dests@, linked@),
        forall|i: int| 0 <= i < r@.len() ==> (#[trigger] r@[i]).status@ == "not-stowed"@,
{
    let mut r: Vec<DiffFile> = Vec::new();
    let mut i: usize = 0;
    proof {
        assert(dests@.take(0) =~= Seq::<Option<String>>::empty());
        assert(linked@.take(0) =~= Seq::<bool>::empty());
    }
    while i < dests.len()
        invariant
            i <= dests@.len(),
            dests@.len() == linked@.len(),
            Seq::new(r@.len(), |k: int| r@[k].path@) == unstowed_lines(dests@.take(i as int), linked@.take(i as int)),
            forall|k: int| 0 <= k < r@.len() ==> (#[trigger] r@[k]).status@ == "not-stowed"@,
        decreases dests.len() - i,
    {
        proof {
            assert(dests@.take(i + 1).drop_last() =~= dests@.take(i as int));
            assert(linked@.take(i + 1).drop_last() =~= linked@.take(i as int));
            assert(dests@.take(i + 1).last() == dests@[i as int]);
            assert(linked@.take(i + 1).last() == linked@[i as int]);
        }
        let ghost before = Seq::new(r@.len(), |k: int| r@[k].path@);
        match &dests[i] {
            Some(d) => {
                if !linked[i] {
                    r.push(DiffFile { status: "not-stowed".to_string(), path: d.clone() });
                    proof {
                        assert(Seq::new(r@.len(), |k: int| r@[k].path@) =~= before.push(d@));
                    }
                } else {
                    proof {
                        assert(Seq::new(r@.len(), |k: int| r@[k].path@) =~= before);
                    }
                }
            },
            None => {
                proof {
                    assert(Seq::new(r@.len(), |k: int| r@[k].path@) =~= before);
                }
            },
        }
        i = i + 1;
    }
    proof {
        assert(dests@.take(dests@.len() as int) =~= dests@);
        assert(linked@.take(linked@.len() as int) =~= linked@);
    }
    r
}

/// A package that `diff` reports: its name, its type, its status and the
/// files it lists.
pub struct DiffEntry {
    pub package: String,
    pub pkg_type: String,
    pub status: String,
    pub files: Vec<DiffFile>,
}

/// A copied package has something to report in `diff` (see `diff_has_work`).
pub open spec fn has_diff_work(c: CopyStatusCounts) -> bool {
    count_of(c, FileSyncStatus::NeedsSync) > 0 || count_of(c, FileSyncStatus::MissingWin) > 0
        || count_of(c, FileSyncStatus::NewerOnWin) > 0 || count_of(c, FileSyncStatus::MissingWsl) > 0
        || count_of(c, FileSyncStatus::ContentChanged) > 0
}

/// What `diff` reports of the copied package at `pkg` of type `pt`, from its
/// check (`counts` and one status line per file): nothing when it has no
/// work; else its name, type, status text and listed files.
pub fn copy_diff_entry(pkg: &str, pt: PkgType, counts: &CopyStatusCounts, entries: &Vec<FileStatusEntry>) -> (r: Option<DiffEntry>)
    ensures
        (r is Some) == has_diff_work(*counts),
        match r {
            Some(e) => {
                &&& e.package@ == basename_spec(pkg@)
                &&& e.pkg_type@ == pkg_type_name(pt)
                &&& e.status@ == status_text_spec(*counts)
                &&& Seq::new(e.files@.len(), |i: int| (e.files@[i].status@, e.files@[i].path@)) == diff_lines(entries@)
            },
            None => true,
        },
{
    if !diff_has_work(counts) {
        return None;
    }
    Some(DiffEntry {
        package: pkg_basename(pkg),
        pkg_type: string_of(&chars_of(pt.value())),
        status: status_text(counts),
        files: diff_files(entries),
    })
}

/// What `diff` reports of the stowed package at `pkg` of type `pt`, with
/// `stowed` of its `total` files linked and `files` its `not-stowed` lines:
/// nothing when every file is linked; else its name, type, status and files.
pub fn stow_diff_entry(pkg: &str, pt: PkgType, stowed: usize, total: usize, files: Vec<DiffFile>) -> (r: Option<DiffEntry>)
    ensures
        (r is Some) == (stowed < total),
        match r {
            Some(e) => {
                &&& e.package@ == basename_spec(pkg@)
                &&& e.pkg_type@ == pkg_type_name(pt)
                &&& e.status@ == stowed_of(stowed, total)
                &&& e.files == files
            },
            None => true,
        },
{
    if stowed >= total {
        return None;
    }
    Some(DiffEntry {
        package: pkg_basename(pkg),
        pkg_type: string_of(&chars_of(pt.value())),
        status: stow_diff_status(stowed, total),
        files,
    })
}

/// The status `diff` shows for a stowed package that is not fully linked.
pub fn stow_diff_status(stowed: usize, total: usize) -> (r: String)
    ensures
        r@ == stowed_of(stowed, total),
{
    stowed_of_exec(stowed, total)
}

/// The heading line of a package in `diff`: `  <package> — <status>`.
pub fn diff_heading(package: &str, status: &str) -> (r: String)
    ensures
        r@ == "  "@ + package@ + " — "@ + status@,
{
    let mut v = chars_of("  ");
    extend_chars(&mut v, &chars_of(package));
    extend_chars(&mut v, &chars_of(" — "));
    extend_chars(&mut v, &chars_of(status));
    string_of(&v)
}

/// A file line of `diff`: `    <status>: <path>`.
pub fn diff_file_line(f: &DiffFile) -> (r: String)
    ensures
        r@ == "    "@ + f.status@ + ": "@ + f.path@,
{
    let mut v = chars_of("    ");
    extend_chars(&mut v, &chars_of(f.status.as_str()));
    extend_chars(&mut v, &chars_of(": "));
    extend_chars(&mut v, &chars_of(f.path.as_str()));
    string_of(&v)
}

} // verus!
