//! Sync status of packages: per-file statuses, their tallies and the text
//! that reports them.
use vstd::prelude::*;
pub use crate::index::{IndexEntry, SyncIndex};
use crate::config::Config;
use crate::types::PkgType;
use crate::path::{join, join_exec, strip_prefix_exec, strip_prefix_path, ancestors_until, comps_eq, components, components_of, file_name, file_name_of, render_exec, renders, seqs_of, take_comps};
use crate::text::{lemma_decimal_first_digit, lemma_join_sep_contains, lemma_join_sep_starts, seq_contains, chars_eq, chars_of, concat_chars, decimal, seq_starts_with, slice_chars, starts_with_chars, decimal_chars, extend_chars, join_sep, join_sep_exec, string_of, views_of};

verus! {

/// The sync status of one file of a Windows package.
#[derive(Debug, Clone, Copy, PartialEq, Eq, Structural)]
pub enum FileSyncStatus {
    Synced,
    NeedsSync,
    NewerOnWin,
    MissingWin,
    MissingWsl,
    Skipped,
    Error,
    ContentChanged,
}

/// The label under which a status is reported.
pub open spec fn status_label(s: FileSyncStatus) -> Seq<char> {
    match s {
        FileSyncStatus::Synced => "synced"@,
        FileSyncStatus::NeedsSync => "needs-sync"@,
        FileSyncStatus::NewerOnWin => "newer-on-win"@,
        FileSyncStatus::MissingWin => "missing-win"@,
        FileSyncStatus::MissingWsl => "missing-wsl"@,
        FileSyncStatus::Skipped => "skipped"@,
        FileSyncStatus::Error => "error"@,
        FileSyncStatus::ContentChanged => "content-mismatch"@,
    }
}

impl FileSyncStatus {
    /// The label under which this status is reported.
    pub fn label(&self) -> (r: &'static str)
        ensures
            r@ == status_label(*self),
    {
        match self {
            FileSyncStatus::Synced => "synced",
            FileSyncStatus::NeedsSync => "needs-sync",
            FileSyncStatus::NewerOnWin => "newer-on-win",
            FileSyncStatus::MissingWin => "missing-win",
            FileSyncStatus::MissingWsl => "missing-wsl",
            FileSyncStatus::Skipped => "skipped",
            FileSyncStatus::Error => "error",
            FileSyncStatus::ContentChanged => "content-mismatch",
        }
    }
}

/// Two different statuses are reported under different labels.
pub proof fn lemma_labels_distinct(a: FileSyncStatus, b: FileSyncStatus)
    ensures
        a != b ==> status_label(a) != status_label(b),
{
    reveal_strlit("synced");
    reveal_strlit("needs-sync");
    reveal_strlit("newer-on-win");
    reveal_strlit("missing-win");
    reveal_strlit("missing-wsl");
    reveal_strlit("skipped");
    reveal_strlit("error");
    reveal_strlit("content-mismatch");
    if a != b {
        let la = status_label(a);
        let lb = status_label(b);
        if la.len() == lb.len() {
            assert(la[0] != lb[0] || la[1] != lb[1] || la[la.len() - 1] != lb[lb.len() - 1]
                || la[2] != lb[2] || la[8] != lb[8]);
        }
    }
}

/// How many files of a package, or of several, have each status.
#[derive(Debug, Clone, Copy, PartialEq, Eq, Structural)]
pub struct CopyStatusCounts {
    pub synced: usize,
    pub outdated_local: usize,
    pub outdated_remote: usize,
    pub missing_remote: usize,
    pub missing_wsl: usize,
    pub skipped: usize,
    pub error: usize,
    pub content_mat_mismatch: usize,
}

/// The tally that `c` keeps for status `s`.
pub open spec fn count_of(c: CopyStatusCounts, s: FileSyncStatus) -> nat {
    match s {
        FileSyncStatus::Synced => c.synced as nat,
        FileSyncStatus::NeedsSync => c.outdated_local as nat,
        FileSyncStatus::NewerOnWin => c.outdated_remote as nat,
        FileSyncStatus::MissingWin => c.missing_remote as nat,
        FileSyncStatus::MissingWsl => c.missing_wsl as nat,
        FileSyncStatus::Skipped => c.skipped as nat,
        FileSyncStatus::Error => c.error as nat,
        FileSyncStatus::ContentChanged => c.content_mat_mismatch as nat,
    }
}

/// All tallies are zero.
pub open spec fn counts_zero(c: CopyStatusCounts) -> bool {
    forall|s: FileSyncStatus| #[trigger] count_of(c, s) == 0
}

impl Default for CopyStatusCounts {
    fn default() -> (r: CopyStatusCounts)
        ensures
            counts_zero(r),
    {
        CopyStatusCounts {
            synced: 0,
            outdated_local: 0,
            outdated_remote: 0,
            missing_remote: 0,
            missing_wsl: 0,
            skipped: 0,
            error: 0,
            content_mat_mismatch: 0,
        }
    }
}

impl CopyStatusCounts {
    /// Counts one more file with status `st`.
    pub fn inc(&mut self, st: &FileSyncStatus)
        requires
            count_of(*old(self), *st) < usize::MAX,
        ensures
            forall|s: FileSyncStatus| #[trigger] count_of(*final(self), s)
                == count_of(*old(self), s) + (if s == *st { 1nat } else { 0nat }),
    {
        match st {
            FileSyncStatus::Synced => self.synced = self.synced + 1,
            FileSyncStatus::NeedsSync => self.outdated_local = self.outdated_local + 1,
            FileSyncStatus::NewerOnWin => self.outdated_remote = self.outdated_remote + 1,
            FileSyncStatus::MissingWin => self.missing_remote = self.missing_remote + 1,
            FileSyncStatus::MissingWsl => self.missing_wsl = self.missing_wsl + 1,
            FileSyncStatus::Skipped => self.skipped = self.skipped + 1,
            FileSyncStatus::Error => self.error = self.error + 1,
            FileSyncStatus::ContentChanged => self.content_mat_mismatch = self.content_mat_mismatch + 1,
        }
    }

    /// Adds the tallies of `other` to these.
    pub fn add(&mut self, other: &CopyStatusCounts)
        requires
            forall|s: FileSyncStatus| #[trigger] count_of(*old(self), s) + count_of(*other, s) <= usize::MAX,
        ensures
            forall|s: FileSyncStatus| #[trigger] count_of(*final(self), s)
                == count_of(*old(self), s) + count_of(*other, s),
    {
        assert(count_of(*self, FileSyncStatus::Synced) + count_of(*other, FileSyncStatus::Synced) <= usize::MAX);
        assert(count_of(*self, FileSyncStatus::NeedsSync) + count_of(*other, FileSyncStatus::NeedsSync) <= usize::MAX);
        assert(count_of(*self, FileSyncStatus::NewerOnWin) + count_of(*other, FileSyncStatus::NewerOnWin) <= usize::MAX);
        assert(count_of(*self, FileSyncStatus::MissingWin) + count_of(*other, FileSyncStatus::MissingWin) <= usize::MAX);
        assert(count_of(*self, FileSyncStatus::MissingWsl) + count_of(*other, FileSyncStatus::MissingWsl) <= usize::MAX);
        assert(count_of(*self, FileSyncStatus::Skipped) + count_of(*other, FileSyncStatus::Skipped) <= usize::MAX);
        assert(count_of(*self, FileSyncStatus::Error) + count_of(*other, FileSyncStatus::Error) <= usize::MAX);
        assert(count_of(*self, FileSyncStatus::ContentChanged) + count_of(*other, FileSyncStatus::ContentChanged) <= usize::MAX);
        self.synced = self.synced + other.synced;
        self.outdated_local = self.outdated_local + other.outdated_local;
        self.outdated_remote = self.outdated_remote + other.outdated_remote;
        self.missing_remote = self.missing_remote + other.missing_remote;
        self.missing_wsl = self.missing_wsl + other.missing_wsl;
        self.skipped = self.skipped + other.skipped;
        self.error = self.error + other.error;
        self.content_mat_mismatch = self.content_mat_mismatch + other.content_mat_mismatch;
    }
}

/// The report piece for `n` files under `word`: none when `n` is zero.
pub open spec fn count_part(n: nat, word: Seq<char>) -> Seq<Seq<char>> {
    if n > 0 {
        seq![decimal(n) + seq![' '] + word]
    } else {
        Seq::<Seq<char>>::empty()
    }
}

/// The report pieces of a tally, in reporting order; errors are not reported.
pub open spec fn status_parts(c: CopyStatusCounts) -> Seq<Seq<char>> {
    count_part(c.synced as nat, "synced"@)
        + count_part(c.outdated_local as nat, "needs-sync"@)
        + count_part(c.outdated_remote as nat, "newer-on-win"@)
        + count_part(c.missing_remote as nat, "missing-win"@)
        + count_part(c.missing_wsl as nat, "missing-wsl"@)
        + count_part(c.skipped as nat, "skipped"@)
        + count_part(c.content_mat_mismatch as nat, "content-mismatch"@)
}

/// The one-line report of a tally: its pieces joined by `, `, or `empty`.
pub open spec fn status_text_spec(c: CopyStatusCounts) -> Seq<char> {
    let parts = status_parts(c);
    if parts.len() == 0 {
        "empty"@
    } else {
        join_sep(parts, ", "@)
    }
}

fn push_count_part(parts: &mut Vec<Vec<char>>, n: usize, word: &str)
    ensures
        views_of(final(parts)@) == views_of(old(parts)@) + count_part(n as nat, word@),
{
    if n > 0 {
        let mut piece = decimal_chars(n as u64);
        piece.push(' ');
        extend_chars(&mut piece, &chars_of(word));
        assert(piece@ =~= decimal(n as nat) + seq![' '] + word@);
        let ghost before = views_of(parts@);
        parts.push(piece);
        proof {
            assert(views_of(parts@) =~= before + count_part(n as nat, word@));
        }
    } else {
        assert(views_of(parts@) =~= views_of(old(parts)@) + count_part(n as nat, word@));
    }
}

/// The one-line report of a tally, as `list` and `stats` show it.
pub fn status_text(counts: &CopyStatusCounts) -> (r: String)
    ensures
        r@ == status_text_spec(*counts),
{
    let mut parts: Vec<Vec<char>> = Vec::new();
    assert(views_of(parts@) =~= Seq::<Seq<char>>::empty());
    push_count_part(&mut parts, counts.synced, "synced");
    push_count_part(&mut parts, counts.outdated_local, "needs-sync");
    push_count_part(&mut parts, counts.outdated_remote, "newer-on-win");
    push_count_part(&mut parts, counts.missing_remote, "missing-win");
    push_count_part(&mut parts, counts.missing_wsl, "missing-wsl");
    push_count_part(&mut parts, counts.skipped, "skipped");
    push_count_part(&mut parts, counts.content_mat_mismatch, "content-mismatch");
    assert(views_of(parts@) =~= status_parts(*counts));
    if parts.len() == 0 {
        "empty".to_string()
    } else {
        string_of(&join_sep_exec(&parts, &chars_of(", ")))
    }
}

/// A point in time, as a duration since the Unix epoch.
#[derive(Debug, Clone, Copy, PartialEq, Eq, Structural)]
pub struct FileTime {
    pub secs: u64,
    pub nanos: u32,
}

/// What the file system reports of one file: when it was last modified
/// (when the platform tells) and its length.
#[derive(Debug, Clone, Copy, PartialEq, Eq, Structural)]
pub struct FileMeta {
    pub modified: Option<FileTime>,
    pub size: u64,
}

/// What was seen of one repository file and of its Windows copy.
#[derive(Debug, Clone, Copy, PartialEq, Eq, Structural)]
pub struct FileObservation {
    /// Metadata of the repository copy; `None` when it could not be read.
    pub wsl: Option<FileMeta>,
    /// Whether anything exists at the Windows path (a link counts).
    pub win_exists: bool,
    /// Metadata of the Windows copy; `None` when it could not be read.
    pub win: Option<FileMeta>,
}

/// A time as nanoseconds since the epoch, kept to 64 bits.
pub open spec fn nanos_since_epoch(t: FileTime) -> u64 {
    ((t.secs as int * 1_000_000_000 + t.nanos as int) % 0x1_0000_0000_0000_0000int) as u64
}

/// A time as nanoseconds since the epoch, kept to 64 bits.
pub fn nanos_of(t: &FileTime) -> (r: u64)
    ensures
        r == nanos_since_epoch(*t),
{
    let x: u128 = (t.secs as u128) * 1_000_000_000u128 + (t.nanos as u128);
    (x % 0x1_0000_0000_0000_0000u128) as u64
}

/// The recorded modification time of a repository copy (0 when unknown).
pub open spec fn mtime_ns_of(m: FileMeta) -> u64 {
    match m.modified {
        Some(t) => nanos_since_epoch(t),
        None => 0,
    }
}

/// The recorded modification time of a Windows copy, when known.
pub open spec fn win_ns_of(m: FileMeta) -> Option<u64> {
    match m.modified {
        Some(t) => Some(nanos_since_epoch(t)),
        None => None,
    }
}

/// The modification time in nanoseconds since the epoch, when known.
pub open spec fn time_of(m: FileMeta) -> Option<int> {
    match m.modified {
        Some(t) => Some(t.secs as int * 1_000_000_000 + t.nanos as int),
        None => None,
    }
}

/// How far two modification times may lie apart and still count as the
/// same: 2 ms, for the rounding of timestamps between file systems.
pub open spec fn mtime_tolerance() -> int {
    2_000_000
}

/// Two modification times count as the same.
pub open spec fn same_time(a: int, b: int) -> bool {
    a - b <= mtime_tolerance() && b - a <= mtime_tolerance()
}

/// A file of `size` bytes is over a limit of `limit` bytes (0: no limit).
pub open spec fn over_size_limit(size: u64, limit: u64) -> bool {
    limit > 0 && size > limit
}

/// The entry records this very pair as synced, so no comparison is needed.
pub open spec fn on_fast_path(e: IndexEntry, wsl: FileMeta, win: FileMeta) -> bool {
    &&& e.synced
    &&& e.mtime_ns == mtime_ns_of(wsl)
    &&& e.size == wsl.size
    &&& e.win_mtime_ns is Some
    &&& e.win_size is Some
    &&& e.win_mtime_ns == win_ns_of(win)
    &&& e.win_size == Some(win.size)
}

/// Both copies carry the same modification time (within the tolerance) and
/// the same length, so only their contents can tell them apart.
pub open spec fn metadata_agrees(wsl: FileMeta, win: FileMeta) -> bool {
    &&& time_of(wsl) is Some
    &&& time_of(win) is Some
    &&& same_time(time_of(wsl)->0, time_of(win)->0)
    &&& wsl.size == win.size
}

/// The status that the timestamps (and, where they agree, the content hashes)
/// give two copies: the newer side wins; copies of the same time differ in
/// content when their lengths or hashes differ.
pub open spec fn compared_status(wsl: FileMeta, win: FileMeta, hashes: Option<(String, String)>) -> FileSyncStatus {
    match (time_of(wsl), time_of(win)) {
        (Some(a), Some(b)) => {
            if !same_time(a, b) && a > b {
                FileSyncStatus::NeedsSync
            } else if !same_time(a, b) {
                FileSyncStatus::NewerOnWin
            } else if wsl.size != win.size {
                FileSyncStatus::ContentChanged
            } else {
                match hashes {
                    Some((a, b)) => if a@ == b@ { FileSyncStatus::Synced } else { FileSyncStatus::ContentChanged },
                    None => FileSyncStatus::Error,
                }
            }
        },
        _ => FileSyncStatus::Error,
    }
}

/// The hash of the repository copy, when the hashes were taken.
pub open spec fn first_hash(hashes: Option<(String, String)>) -> Option<String> {
    match hashes {
        Some((a, _)) => Some(a),
        None => None,
    }
}

/// The hash of the Windows copy, when the hashes were taken.
pub open spec fn second_hash(hashes: Option<(String, String)>) -> Option<String> {
    match hashes {
        Some((_, b)) => Some(b),
        None => None,
    }
}

/// The record kept for a file whose metadata could not be used.
pub open spec fn blank_record() -> IndexEntry {
    IndexEntry {
        mtime_ns: 0,
        size: 0,
        win_mtime_ns: None,
        win_size: None,
        blake3_wsl: None,
        blake3_win: None,
        synced: false,
    }
}

/// The entry that the index holds for `key`, if any.
pub open spec fn entry_for(m: Map<Seq<char>, IndexEntry>, key: Seq<char>) -> Option<IndexEntry> {
    if m.contains_key(key) {
        Some(m[key])
    } else {
        None
    }
}

/// The content hashes are taken only where the metadata of both copies agree.
pub open spec fn needs_content_check_spec(obs: FileObservation, limit: u64, entry: Option<IndexEntry>) -> bool {
    match (obs.wsl, obs.win) {
        (Some(w), Some(n)) => {
            &&& !over_size_limit(w.size, limit)
            &&& obs.win_exists
            &&& !(entry is Some && on_fast_path(entry->0, w, n))
            &&& metadata_agrees(w, n)
        },
        _ => false,
    }
}

/// The judgement of one file: its status, the record to keep for it, and
/// whether the index already holds that record.
pub open spec fn outcome(
    obs: FileObservation,
    limit: u64,
    entry: Option<IndexEntry>,
    hashes: Option<(String, String)>,
) -> (FileSyncStatus, IndexEntry, bool) {
    match obs.wsl {
        None => (FileSyncStatus::Error, blank_record(), false),
        Some(w) => {
            if over_size_limit(w.size, limit) {
                (FileSyncStatus::Skipped, blank_record(), false)
            } else if !obs.win_exists {
                (FileSyncStatus::MissingWin, IndexEntry {
                    mtime_ns: mtime_ns_of(w),
                    size: w.size,
                    win_mtime_ns: None,
                    win_size: None,
                    blake3_wsl: None,
                    blake3_win: None,
                    synced: false,
                }, false)
            } else {
                match obs.win {
                    None => (FileSyncStatus::Error, blank_record(), false),
                    Some(n) => {
                        if entry is Some && on_fast_path(entry->0, w, n) {
                            (FileSyncStatus::Synced, entry->0, true)
                        } else {
                            let st = compared_status(w, n, hashes);
                            let checked = metadata_agrees(w, n) && hashes is Some;
                            (st, IndexEntry {
                                mtime_ns: mtime_ns_of(w),
                                size: w.size,
                                win_mtime_ns: win_ns_of(n),
                                win_size: Some(n.size),
                                blake3_wsl: if checked { first_hash(hashes) } else { None },
                                blake3_win: if checked { second_hash(hashes) } else { None },
                                synced: st == FileSyncStatus::Synced,
                            }, false)
                        }
                    },
                }
            }
        },
    }
}

/// The judgement of one file, with its index key.
pub struct FileSyncResult {
    pub key: String,
    pub status: FileSyncStatus,
    /// What the index should hold for the file after this check.
    pub record: IndexEntry,
    /// The index already holds `record`; rewriting it is skipped.
    pub index_ok: bool,
}

impl FileSyncResult {
    /// A result that carries no metadata.
    pub fn new(key: String, status: FileSyncStatus) -> (r: FileSyncResult)
        ensures
            r.key == key,
            r.status == status,
            r.record == blank_record(),
            !r.index_ok,
    {
        FileSyncResult {
            key,
            status,
            record: IndexEntry {
                mtime_ns: 0,
                size: 0,
                win_mtime_ns: None,
                win_size: None,
                blake3_wsl: None,
                blake3_win: None,
                synced: false,
            },
            index_ok: false,
        }
    }
}

fn meta_mtime_ns(m: &FileMeta) -> (r: u64)
    ensures
        r == mtime_ns_of(*m),
{
    match &m.modified {
        Some(t) => nanos_of(t),
        None => 0,
    }
}

fn meta_win_ns(m: &FileMeta) -> (r: Option<u64>)
    ensures
        r == win_ns_of(*m),
{
    match &m.modified {
        Some(t) => Some(nanos_of(t)),
        None => None,
    }
}

fn fast_path_holds(e: &IndexEntry, w: &FileMeta, n: &FileMeta) -> (r: bool)
    ensures
        r == on_fast_path(*e, *w, *n),
{
    e.synced && e.mtime_ns == meta_mtime_ns(w) && e.size == w.size
        && e.win_mtime_ns.is_some() && e.win_size.is_some()
        && e.win_mtime_ns == meta_win_ns(n) && e.win_size == Some(n.size)
}

fn exact_nanos(t: &FileTime) -> (r: u128)
    ensures
        r as int == t.secs as int * 1_000_000_000 + t.nanos as int,
{
    (t.secs as u128) * 1_000_000_000u128 + (t.nanos as u128)
}

fn same_time_exec(a: u128, b: u128) -> (r: bool)
    ensures
        r == same_time(a as int, b as int),
{
    if a >= b { a - b <= 2_000_000 } else { b - a <= 2_000_000 }
}

fn agrees(w: &FileMeta, n: &FileMeta) -> (r: bool)
    ensures
        r == metadata_agrees(*w, *n),
{
    match (&w.modified, &n.modified) {
        (Some(a), Some(b)) => same_time_exec(exact_nanos(a), exact_nanos(b)) && w.size == n.size,
        _ => false,
    }
}

/// A file of `size` bytes is over a limit of `limit` bytes (0: no limit).
pub fn skip_size_limit(size: u64, limit: u64) -> (r: bool)
    ensures
        r == over_size_limit(size, limit),
{
    limit > 0 && size > limit
}

/// Whether the content hashes of a file must be taken before it can be
/// judged: only when the metadata of both copies agree and the index does
/// not already vouch for the pair.
pub fn needs_content_check(obs: &FileObservation, limit: u64, index: &SyncIndex, key: &str) -> (r: bool)
    requires
        index.wf(),
    ensures
        r == needs_content_check_spec(*obs, limit, entry_for(index@, key@)),
{
    match (&obs.wsl, &obs.win) {
        (Some(w), Some(n)) => {
            if skip_size_limit(w.size, limit) || !obs.win_exists {
                return false;
            }
            let fast = match index.get(key) {
                Some(e) => fast_path_holds(e, w, n),
                None => false,
            };
            !fast && agrees(w, n)
        },
        _ => false,
    }
}

/// A file whose repository copy is readable and within the size limit, but
/// of which nothing exists at the Windows path, is `missing-win`, whatever
/// the index holds for it, and its new record is not marked synced; no other
/// file is `missing-win`.
pub proof fn lemma_missing_windows_copy(
    obs: FileObservation,
    limit: u64,
    entry: Option<IndexEntry>,
    hashes: Option<(String, String)>,
)
    ensures
        (outcome(obs, limit, entry, hashes).0 == FileSyncStatus::MissingWin) <==> (obs.wsl is Some
            && !over_size_limit(obs.wsl->0.size, limit) && !obs.win_exists),
        outcome(obs, limit, entry, hashes).0 == FileSyncStatus::MissingWin ==> !outcome(obs, limit, entry, hashes).1.synced
            && !outcome(obs, limit, entry, hashes).2,
{
}

/// Judges one repository file against its Windows copy and the index entry
/// kept for it. `hashes` holds the content hashes of both copies when they
/// were taken (see `needs_content_check`).
pub fn file_sync_status(
    key: String,
    obs: &FileObservation,
    limit: u64,
    index: &SyncIndex,
    hashes: &Option<(String, String)>,
) -> (r: FileSyncResult)
    requires
        index.wf(),
    ensures
        r.key == key,
        (r.status, r.record, r.index_ok) == outcome(*obs, limit, entry_for(index@, key@), *hashes),
        (r.status == FileSyncStatus::MissingWin) <==> (obs.wsl is Some && !over_size_limit(obs.wsl->0.size, limit)
            && !obs.win_exists),
        r.status == FileSyncStatus::MissingWin ==> !r.record.synced && !r.index_ok,
{
    proof {
        lemma_missing_windows_copy(*obs, limit, entry_for(index@, key@), *hashes);
    }
    let w = match &obs.wsl {
        Some(w) => w,
        None => return FileSyncResult::new(key, FileSyncStatus::Error),
    };
    if skip_size_limit(w.size, limit) {
        return FileSyncResult::new(key, FileSyncStatus::Skipped);
    }
    let mtime_ns = meta_mtime_ns(w);
    if !obs.win_exists {
        return FileSyncResult {
            key,
            status: FileSyncStatus::MissingWin,
            record: IndexEntry {
                mtime_ns,
                size: w.size,
                win_mtime_ns: None,
                win_size: None,
                blake3_wsl: None,
                blake3_win: None,
                synced: false,
            },
            index_ok: false,
        };
    }
    let n = match &obs.win {
        Some(n) => n,
        None => return FileSyncResult::new(key, FileSyncStatus::Error),
    };
    match index.get(key.as_str()) {
        Some(e) => {
            if fast_path_holds(e, w, n) {
                return FileSyncResult { key, status: FileSyncStatus::Synced, record: e.clone(), index_ok: true };
            }
        },
        None => {},
    }
    let status = match (&w.modified, &n.modified) {
        (Some(a), Some(b)) => {
            let (ta, tb) = (exact_nanos(a), exact_nanos(b));
            let same = same_time_exec(ta, tb);
            if !same && ta > tb {
                FileSyncStatus::NeedsSync
            } else if !same {
                FileSyncStatus::NewerOnWin
            } else if w.size != n.size {
                FileSyncStatus::ContentChanged
            } else {
                match hashes {
                    Some((a, b)) => {
                        if a.eq(b) { FileSyncStatus::Synced } else { FileSyncStatus::ContentChanged }
                    },
                    None => FileSyncStatus::Error,
                }
            }
        },
        _ => FileSyncStatus::Error,
    };
    let checked = agrees(w, n) && hashes.is_some();
    let (blake3_wsl, blake3_win) = match hashes {
        Some((a, b)) => {
            if checked { (Some(a.clone()), Some(b.clone())) } else { (None, None) }
        },
        None => (None, None),
    };
    let synced = match status {
        FileSyncStatus::Synced => true,
        _ => false,
    };
    FileSyncResult {
        key,
        status,
        record: IndexEntry {
            mtime_ns,
            size: w.size,
            win_mtime_ns: meta_win_ns(n),
            win_size: Some(n.size),
            blake3_wsl,
            blake3_win,
            synced,
        },
        index_ok: false,
    }
}

/// The prefix that scopes index keys to one package: the package directory's
/// name followed by `/`.
pub open spec fn key_prefix(pkg: Seq<char>) -> Seq<char> {
    let name = match file_name(pkg) {
        Some(n) => n,
        None => Seq::<char>::empty(),
    };
    name + seq!['/']
}

/// The prefix that scopes index keys to the package at `pkg`.
pub fn pkg_key_prefix(pkg: &str) -> (r: String)
    ensures
        r@ == key_prefix(pkg@),
{
    let mut v = match file_name_of(&chars_of(pkg)) {
        Some(n) => n,
        None => Vec::new(),
    };
    v.push('/');
    string_of(&v)
}

/// The index key of the file at `rel` inside the package at `pkg`.
pub fn index_key(pkg: &str, rel: &str) -> (r: String)
    ensures
        r@ == key_prefix(pkg@) + rel@,
{
    string_of(&concat_chars(&chars_of(pkg_key_prefix(pkg).as_str()), &chars_of(rel)))
}

/// One status line of a package check: a file, relative to the package, and
/// its status.
pub struct FileStatusEntry {
    pub relative_path: String,
    pub status: FileSyncStatus,
}

/// What was gathered of one repository file before it is judged: its path
/// relative to the package, what was seen of both copies, and the content
/// hashes of both copies when they were taken.
pub struct FileReport {
    pub rel: String,
    pub obs: FileObservation,
    pub hashes: Option<(String, String)>,
}

/// The index key of a gathered file.
pub open spec fn report_key(pkg: Seq<char>, f: FileReport) -> Seq<char> {
    key_prefix(pkg) + f.rel@
}

/// The judgement of a gathered file against the index `m`.
pub open spec fn judged(pkg: Seq<char>, f: FileReport, limit: u64, m: Map<Seq<char>, IndexEntry>) -> (FileSyncStatus, IndexEntry, bool) {
    outcome(f.obs, limit, entry_for(m, report_key(pkg, f)), f.hashes)
}

/// The index after the files have been judged one after the other, each
/// record written unless the index already held it.
pub open spec fn index_after(pkg: Seq<char>, files: Seq<FileReport>, limit: u64, m: Map<Seq<char>, IndexEntry>) -> Map<Seq<char>, IndexEntry>
    decreases files.len(),
{
    if files.len() == 0 {
        m
    } else {
        let before = index_after(pkg, files.drop_last(), limit, m);
        let o = judged(pkg, files.last(), limit, before);
        if o.2 {
            before
        } else {
            before.insert(report_key(pkg, files.last()), o.1)
        }
    }
}

/// The statuses of the files, each judged against the index as the earlier
/// files left it.
pub open spec fn statuses_of(pkg: Seq<char>, files: Seq<FileReport>, limit: u64, m: Map<Seq<char>, IndexEntry>) -> Seq<FileSyncStatus>
    decreases files.len(),
{
    if files.len() == 0 {
        Seq::<FileSyncStatus>::empty()
    } else {
        let prev = files.drop_last();
        statuses_of(pkg, prev, limit, m).push(judged(pkg, files.last(), limit, index_after(pkg, prev, limit, m)).0)
    }
}

/// How many of the statuses are `s`.
pub open spec fn tally(sts: Seq<FileSyncStatus>, s: FileSyncStatus) -> nat
    decreases sts.len(),
{
    if sts.len() == 0 {
        0
    } else {
        tally(sts.drop_last(), s) + (if sts.last() == s { 1nat } else { 0nat })
    }
}

proof fn lemma_tally_le(sts: Seq<FileSyncStatus>, s: FileSyncStatus)
    ensures
        tally(sts, s) <= sts.len(),
    decreases sts.len(),
{
    if sts.len() > 0 {
        lemma_tally_le(sts.drop_last(), s);
    }
}

proof fn lemma_statuses_len(pkg: Seq<char>, files: Seq<FileReport>, limit: u64, m: Map<Seq<char>, IndexEntry>)
    ensures
        statuses_of(pkg, files, limit, m).len() == files.len(),
    decreases files.len(),
{
    if files.len() > 0 {
        lemma_statuses_len(pkg, files.drop_last(), limit, m);
    }
}

proof fn lemma_index_after_keeps_other_keys(
    pkg: Seq<char>,
    files: Seq<FileReport>,
    limit: u64,
    m: Map<Seq<char>, IndexEntry>,
    k: Seq<char>,
)
    requires
        forall|j: int| 0 <= j < files.len() ==> report_key(pkg, #[trigger] files[j]) != k,
    ensures
        entry_for(index_after(pkg, files, limit, m), k) == entry_for(m, k),
    decreases files.len(),
{
    if files.len() > 0 {
        let prev = files.drop_last();
        assert forall|j: int| 0 <= j < prev.len() implies report_key(pkg, #[trigger] prev[j]) != k by {
            assert(prev[j] == files[j]);
        }
        lemma_index_after_keeps_other_keys(pkg, prev, limit, m, k);
        assert(report_key(pkg, files[files.len() - 1]) != k);
    }
}

proof fn lemma_statuses_prefix(pkg: Seq<char>, files: Seq<FileReport>, limit: u64, m: Map<Seq<char>, IndexEntry>, i: int)
    requires
        0 <= i < files.len(),
    ensures
        statuses_of(pkg, files, limit, m)[i] == judged(pkg, files[i], limit, index_after(pkg, files.take(i), limit, m)).0,
    decreases files.len(),
{
    lemma_statuses_len(pkg, files.drop_last(), limit, m);
    if i == files.len() - 1 {
        assert(files.take(i) =~= files.drop_last());
    } else {
        lemma_statuses_prefix(pkg, files.drop_last(), limit, m, i);
        assert(files.drop_last().take(i) =~= files.take(i));
        assert(files.drop_last()[i] == files[i]);
    }
}

/// When the files of a check have distinct keys (as the files of one package
/// do), each file is judged against the entry the index held before the
/// check: the order in which files are judged does not matter.
pub proof fn lemma_judged_against_index_before(
    pkg: Seq<char>,
    files: Seq<FileReport>,
    limit: u64,
    m: Map<Seq<char>, IndexEntry>,
    i: int,
)
    requires
        0 <= i < files.len(),
        forall|a: int, b: int| 0 <= a < files.len() && 0 <= b < files.len() && a != b
            ==> report_key(pkg, #[trigger] files[a]) != report_key(pkg, #[trigger] files[b]),
    ensures
        statuses_of(pkg, files, limit, m)[i] == judged(pkg, files[i], limit, m).0,
{
    lemma_statuses_prefix(pkg, files, limit, m, i);
    let pre = files.take(i);
    assert forall|j: int| 0 <= j < pre.len() implies report_key(pkg, #[trigger] pre[j]) != report_key(pkg, files[i]) by {
        assert(pre[j] == files[j]);
    }
    lemma_index_after_keeps_other_keys(pkg, pre, limit, m, report_key(pkg, files[i]));
}

/// After the files have been judged, the index holds an entry for each of
/// them (this is what lets a later check notice a file that disappeared), and
/// it still holds every key it held before.
pub proof fn lemma_index_after_holds_keys(
    pkg: Seq<char>,
    files: Seq<FileReport>,
    limit: u64,
    m: Map<Seq<char>, IndexEntry>,
)
    ensures
        forall|j: int| 0 <= j < files.len() ==> index_after(pkg, files, limit, m).contains_key(report_key(pkg, #[trigger] files[j])),
        forall|k: Seq<char>| m.contains_key(k) ==> #[trigger] index_after(pkg, files, limit, m).contains_key(k),
    decreases files.len(),
{
    if files.len() > 0 {
        let prev = files.drop_last();
        lemma_index_after_holds_keys(pkg, prev, limit, m);
        let before = index_after(pkg, prev, limit, m);
        let last = files.last();
        let o = judged(pkg, last, limit, before);
        assert(o.2 ==> before.contains_key(report_key(pkg, last)));
        assert forall|j: int| 0 <= j < files.len() implies index_after(pkg, files, limit, m).contains_key(report_key(pkg, #[trigger] files[j])) by {
            if j < files.len() - 1 {
                assert(files[j] == prev[j]);
            }
        }
    }
}

/// The sum of all tallies.
pub open spec fn counts_total(c: CopyStatusCounts) -> nat {
    count_of(c, FileSyncStatus::Synced) + count_of(c, FileSyncStatus::NeedsSync)
        + count_of(c, FileSyncStatus::NewerOnWin) + count_of(c, FileSyncStatus::MissingWin)
        + count_of(c, FileSyncStatus::MissingWsl) + count_of(c, FileSyncStatus::Skipped)
        + count_of(c, FileSyncStatus::Error) + count_of(c, FileSyncStatus::ContentChanged)
}

proof fn lemma_tallies_cover(sts: Seq<FileSyncStatus>)
    ensures
        tally(sts, FileSyncStatus::Synced) + tally(sts, FileSyncStatus::NeedsSync)
            + tally(sts, FileSyncStatus::NewerOnWin) + tally(sts, FileSyncStatus::MissingWin)
            + tally(sts, FileSyncStatus::MissingWsl) + tally(sts, FileSyncStatus::Skipped)
            + tally(sts, FileSyncStatus::Error) + tally(sts, FileSyncStatus::ContentChanged) == sts.len(),
    decreases sts.len(),
{
    if sts.len() > 0 {
        lemma_tallies_cover(sts.drop_last());
    }
}

/// The views of a sequence of strings.
pub open spec fn string_views(v: Seq<String>) -> Seq<Seq<char>> {
    Seq::new(v.len(), |i: int| v[i]@)
}

/// Judges the files of one package in order: each against the index as the
/// earlier ones left it, writing each new record to the index. Returns the
/// tally of statuses, one status line per file, and the keys of the files.
pub fn forward_check(pkg: &str, files: &Vec<FileReport>, limit: u64, index: &mut SyncIndex)
    -> (r: (CopyStatusCounts, Vec<FileStatusEntry>, Vec<String>))
    requires
        old(index).wf(),
    ensures
        final(index).wf(),
        final(index).version == old(index).version,
        final(index)@ == index_after(pkg@, files@, limit, old(index)@),
        forall|s: FileSyncStatus| #[trigger] count_of(r.0, s) == tally(statuses_of(pkg@, files@, limit, old(index)@), s),
        counts_total(r.0) == files@.len(),
        r.1@.len() == files@.len(),
        forall|i: int| 0 <= i < files@.len() ==> (#[trigger] r.1@[i]).relative_path@ == files@[i].rel@
            && r.1@[i].status == statuses_of(pkg@, files@, limit, old(index)@)[i],
        string_views(r.2@) == Seq::new(files@.len(), |i: int| report_key(pkg@, files@[i])),
{
    let ghost m0 = index@;
    let mut counts = CopyStatusCounts::default();
    let mut entries: Vec<FileStatusEntry> = Vec::new();
    let mut seen: Vec<String> = Vec::new();
    let mut i: usize = 0;
    proof {
        assert(files@.take(0) =~= Seq::<FileReport>::empty());
    }
    while i < files.len()
        invariant
            i <= files@.len(),
            index.wf(),
            index.version == old(index).version,
            m0 == old(index)@,
            index@ == index_after(pkg@, files@.take(i as int), limit, m0),
            forall|s: FileSyncStatus| #[trigger] count_of(counts, s) == tally(statuses_of(pkg@, files@.take(i as int), limit, m0), s),
            statuses_of(pkg@, files@.take(i as int), limit, m0).len() == i,
            entries@.len() == i,
            forall|j: int| 0 <= j < i ==> (#[trigger] entries@[j]).relative_path@ == files@[j].rel@
                && entries@[j].status == statuses_of(pkg@, files@.take(i as int), limit, m0)[j],
            seen@.len() == i,
            string_views(seen@) == Seq::new(i as nat, |j: int| report_key(pkg@, files@[j])),
        decreases files.len() - i,
    {
        let ghost pre = files@.take(i as int);
        let ghost nxt = files@.take(i + 1);
        let ghost sts = statuses_of(pkg@, pre, limit, m0);
        proof {
            assert(nxt.drop_last() =~= pre);
            assert(nxt.last() == files@[i as int]);
            lemma_tally_le(sts, FileSyncStatus::Synced);
            lemma_tally_le(sts, FileSyncStatus::NeedsSync);
            lemma_tally_le(sts, FileSyncStatus::NewerOnWin);
            lemma_tally_le(sts, FileSyncStatus::MissingWin);
            lemma_tally_le(sts, FileSyncStatus::MissingWsl);
            lemma_tally_le(sts, FileSyncStatus::Skipped);
            lemma_tally_le(sts, FileSyncStatus::Error);
            lemma_tally_le(sts, FileSyncStatus::ContentChanged);
        }
        let f = &files[i];
        let key = index_key(pkg, f.rel.as_str());
        let res = file_sync_status(key.clone(), &f.obs, limit, index, &f.hashes);
        proof {
            let st = res.status;
            assert(count_of(counts, st) == tally(sts, st));
            assert(tally(sts, st) <= i);
        }
        counts.inc(&res.status);
        entries.push(FileStatusEntry { relative_path: f.rel.clone(), status: res.status });
        let ghost seen_old = seen@;
        seen.push(key);
        proof {
            let nsts = statuses_of(pkg@, nxt, limit, m0);
            assert(nsts == sts.push(res.status));
            assert(nsts.drop_last() =~= sts);
            assert forall|s: FileSyncStatus| #[trigger] count_of(counts, s) == tally(nsts, s) by {
                assert(tally(nsts, s) == tally(sts, s) + (if res.status == s { 1nat } else { 0nat }));
            }
            assert forall|j: int| 0 <= j < i + 1 implies #[trigger] seen@[j]@ == report_key(pkg@, files@[j]) by {
                if j < i {
                    assert(seen@[j] == seen_old[j]);
                    assert(string_views(seen_old)[j] == seen_old[j]@);
                }
            }
            assert(string_views(seen@) =~= Seq::new((i + 1) as nat, |j: int| report_key(pkg@, files@[j])));
        }
        if !res.index_ok {
            index.set(res.key, res.record);
        }
        i = i + 1;
    }
    proof {
        assert(files@.take(files@.len() as int) =~= files@);
        lemma_tallies_cover(statuses_of(pkg@, files@, limit, m0));
        lemma_statuses_len(pkg@, files@, limit, m0);
        assert(count_of(counts, FileSyncStatus::Synced) == tally(statuses_of(pkg@, files@, limit, m0), FileSyncStatus::Synced));
        assert(count_of(counts, FileSyncStatus::NeedsSync) == tally(statuses_of(pkg@, files@, limit, m0), FileSyncStatus::NeedsSync));
        assert(count_of(counts, FileSyncStatus::NewerOnWin) == tally(statuses_of(pkg@, files@, limit, m0), FileSyncStatus::NewerOnWin));
        assert(count_of(counts, FileSyncStatus::MissingWin) == tally(statuses_of(pkg@, files@, limit, m0), FileSyncStatus::MissingWin));
        assert(count_of(counts, FileSyncStatus::MissingWsl) == tally(statuses_of(pkg@, files@, limit, m0), FileSyncStatus::MissingWsl));
        assert(count_of(counts, FileSyncStatus::Skipped) == tally(statuses_of(pkg@, files@, limit, m0), FileSyncStatus::Skipped));
        assert(count_of(counts, FileSyncStatus::Error) == tally(statuses_of(pkg@, files@, limit, m0), FileSyncStatus::Error));
        assert(count_of(counts, FileSyncStatus::ContentChanged) == tally(statuses_of(pkg@, files@, limit, m0), FileSyncStatus::ContentChanged));
    }
    (counts, entries, seen)
}

/// Whether `s` is one of `v`.
pub fn contains_string(v: &Vec<String>, s: &str) -> (r: bool)
    ensures
        r == string_views(v@).contains(s@),
{
    let target = chars_of(s);
    let mut i: usize = 0;
    while i < v.len()
        invariant
            i <= v@.len(),
            target@ == s@,
            forall|j: int| 0 <= j < i ==> v@[j]@ != s@,
        decreases v.len() - i,
    {
        if chars_eq(&chars_of(v[i].as_str()), &target) {
            proof {
                assert(string_views(v@)[i as int] == s@);
            }
            return true;
        }
        i = i + 1;
    }
    proof {
        if string_views(v@).contains(s@) {
            let j = choose|j: int| 0 <= j < string_views(v@).len() && string_views(v@)[j] == s@;
            assert(v@[j]@ == s@);
        }
    }
    false
}

/// An index key of the package at `pkg` that no file of the package answered
/// to in the forward check.
pub open spec fn is_stale(pkg: Seq<char>, k: Seq<char>, seen: Seq<Seq<char>>) -> bool {
    !seen.contains(k) && seq_starts_with(k, key_prefix(pkg))
}

/// The stale keys among the entries, in entry order.
pub open spec fn stale_in(pkg: Seq<char>, entries: Seq<(String, IndexEntry)>, seen: Seq<Seq<char>>) -> Seq<Seq<char>>
    decreases entries.len(),
{
    if entries.len() == 0 {
        Seq::<Seq<char>>::empty()
    } else {
        let prev = stale_in(pkg, entries.drop_last(), seen);
        if is_stale(pkg, entries.last().0@, seen) {
            prev.push(entries.last().0@)
        } else {
            prev
        }
    }
}

/// The keys of the package at `pkg` that the index holds but no file of the
/// package answered to (`seen` holds the keys of the files that were judged).
pub fn stale_keys(pkg: &str, index: &SyncIndex, seen: &Vec<String>) -> (r: Vec<String>)
    ensures
        string_views(r@) == stale_in(pkg@, index.entries@, string_views(seen@)),
        forall|i: int| 0 <= i < r@.len() ==> seq_starts_with((#[trigger] r@[i])@, key_prefix(pkg@)),
{
    let prefix = chars_of(pkg_key_prefix(pkg).as_str());
    let mut r: Vec<String> = Vec::new();
    let mut i: usize = 0;
    proof {
        assert(index.entries@.take(0) =~= Seq::<(String, IndexEntry)>::empty());
        assert(string_views(r@) =~= Seq::<Seq<char>>::empty());
    }
    while i < index.entries.len()
        invariant
            i <= index.entries@.len(),
            prefix@ == key_prefix(pkg@),
            string_views(r@) == stale_in(pkg@, index.entries@.take(i as int), string_views(seen@)),
            forall|j: int| 0 <= j < r@.len() ==> seq_starts_with((#[trigger] r@[j])@, key_prefix(pkg@)),
        decreases index.entries.len() - i,
    {
        let ghost pre = index.entries@.take(i as int);
        let ghost nxt = index.entries@.take(i + 1);
        proof {
            assert(nxt.drop_last() =~= pre);
            assert(nxt.last() == index.entries@[i as int]);
        }
        let k = &index.entries[i].0;
        if !contains_string(seen, k.as_str()) && starts_with_chars(&chars_of(k.as_str()), &prefix) {
            let ghost before = r@;
            r.push(k.clone());
            proof {
                assert(string_views(r@) =~= string_views(before).push(k@));
            }
        }
        i = i + 1;
    }
    proof {
        assert(index.entries@.take(index.entries@.len() as int) =~= index.entries@);
    }
    r
}

/// The path, relative to the package, that an index key of the package names.
pub fn key_rel(pkg: &str, key: &str) -> (r: String)
    requires
        seq_starts_with(key@, key_prefix(pkg@)),
    ensures
        r@ == key@.subrange(key_prefix(pkg@).len() as int, key@.len() as int),
{
    let k = chars_of(key);
    let n = chars_of(pkg_key_prefix(pkg).as_str()).len();
    string_of(&slice_chars(&k, n, k.len()))
}

/// The status lines of the reverse check: a `missing-wsl` line for each
/// stale key whose Windows copy is still there.
pub open spec fn reverse_lines(pkg: Seq<char>, stale: Seq<Seq<char>>, win_exists: Seq<bool>) -> Seq<Seq<char>>
    decreases stale.len(),
{
    if stale.len() == 0 || win_exists.len() != stale.len() {
        Seq::<Seq<char>>::empty()
    } else {
        let prev = reverse_lines(pkg, stale.drop_last(), win_exists.drop_last());
        if win_exists.last() {
            prev.push(stale.last().subrange(key_prefix(pkg).len() as int, stale.last().len() as int))
        } else {
            prev
        }
    }
}

/// How many of the flags are set.
pub open spec fn count_true(v: Seq<bool>) -> nat
    decreases v.len(),
{
    if v.len() == 0 {
        0
    } else {
        count_true(v.drop_last()) + (if v.last() { 1nat } else { 0nat })
    }
}

proof fn lemma_count_true_le(v: Seq<bool>)
    ensures
        count_true(v) <= v.len(),
    decreases v.len(),
{
    if v.len() > 0 {
        lemma_count_true_le(v.drop_last());
    }
}

/// The stale keys whose Windows copy is gone as well: the index forgets them.
pub open spec fn gone_keys(stale: Seq<Seq<char>>, win_exists: Seq<bool>) -> Set<Seq<char>> {
    Set::new(|k: Seq<char>| exists|i: int| 0 <= i < stale.len() && i < win_exists.len() && stale[i] == k && !win_exists[i])
}

/// Completes a package check with its stale keys (see `stale_keys`): a key
/// whose Windows copy is still there (`win_exists`) is reported `missing-wsl`;
/// a key whose copies are both gone is forgotten by the index.
pub fn apply_reverse(
    pkg: &str,
    stale: &Vec<String>,
    win_exists: &Vec<bool>,
    counts: &mut CopyStatusCounts,
    entries: &mut Vec<FileStatusEntry>,
    index: &mut SyncIndex,
)
    requires
        stale@.len() == win_exists@.len(),
        forall|i: int| 0 <= i < stale@.len() ==> seq_starts_with((#[trigger] stale@[i])@, key_prefix(pkg@)),
        count_of(*old(counts), FileSyncStatus::MissingWsl) + stale@.len() <= usize::MAX,
        old(index).wf(),
    ensures
        forall|s: FileSyncStatus| #[trigger] count_of(*final(counts), s) == count_of(*old(counts), s)
            + (if s == FileSyncStatus::MissingWsl { count_true(win_exists@) } else { 0nat }),
        final(entries)@.len() == old(entries)@.len() + reverse_lines(pkg@, string_views(stale@), win_exists@).len(),
        forall|i: int| 0 <= i < old(entries)@.len() ==> #[trigger] final(entries)@[i] == old(entries)@[i],
        forall|i: int| 0 <= i < reverse_lines(pkg@, string_views(stale@), win_exists@).len() ==> {
            &&& (#[trigger] final(entries)@[old(entries)@.len() + i]).relative_path@ == reverse_lines(pkg@, string_views(stale@), win_exists@)[i]
            &&& final(entries)@[old(entries)@.len() + i].status == FileSyncStatus::MissingWsl
        },
        final(index).wf(),
        final(index).version == old(index).version,
        final(index)@ == old(index)@.remove_keys(gone_keys(string_views(stale@), win_exists@)),
{
    let ghost c0 = *counts;
    let ghost e0 = entries@;
    let ghost m0 = index@;
    let ghost sv = string_views(stale@);
    let mut i: usize = 0;
    proof {
        assert(sv.take(0) =~= Seq::<Seq<char>>::empty());
        assert(win_exists@.take(0) =~= Seq::<bool>::empty());
        assert(m0.remove_keys(gone_keys(sv.take(0), win_exists@.take(0))) =~= m0);
    }
    while i < stale.len()
        invariant
            i <= stale@.len(),
            stale@.len() == win_exists@.len(),
            sv == string_views(stale@),
            forall|j: int| 0 <= j < stale@.len() ==> seq_starts_with((#[trigger] stale@[j])@, key_prefix(pkg@)),
            count_of(c0, FileSyncStatus::MissingWsl) + stale@.len() <= usize::MAX,
            forall|s: FileSyncStatus| #[trigger] count_of(*counts, s) == count_of(c0, s)
                + (if s == FileSyncStatus::MissingWsl { count_true(win_exists@.take(i as int)) } else { 0nat }),
            entries@.len() == e0.len() + reverse_lines(pkg@, sv.take(i as int), win_exists@.take(i as int)).len(),
            forall|j: int| 0 <= j < e0.len() ==> #[trigger] entries@[j] == e0[j],
            forall|j: int| 0 <= j < reverse_lines(pkg@, sv.take(i as int), win_exists@.take(i as int)).len() ==> {
                &&& (#[trigger] entries@[e0.len() + j]).relative_path@ == reverse_lines(pkg@, sv.take(i as int), win_exists@.take(i as int))[j]
                &&& entries@[e0.len() + j].status == FileSyncStatus::MissingWsl
            },
            index.wf(),
            index.version == old(index).version,
            index@ == m0.remove_keys(gone_keys(sv.take(i as int), win_exists@.take(i as int))),
        decreases stale.len() - i,
    {
        let ghost spre = sv.take(i as int);
        let ghost snxt = sv.take(i + 1);
        let ghost wpre = win_exists@.take(i as int);
        let ghost wnxt = win_exists@.take(i + 1);
        let ghost lines_pre = reverse_lines(pkg@, spre, wpre);
        proof {
            assert(snxt.drop_last() =~= spre);
            assert(wnxt.drop_last() =~= wpre);
            assert(snxt.last() == stale@[i as int]@);
            assert(wnxt.last() == win_exists@[i as int]);
            lemma_count_true_le(wpre);
        }
        let key = &stale[i];
        if win_exists[i] {
            counts.inc(&FileSyncStatus::MissingWsl);
            let rel = key_rel(pkg, key.as_str());
            let ghost before = entries@;
            entries.push(FileStatusEntry { relative_path: rel, status: FileSyncStatus::MissingWsl });
            proof {
                assert(reverse_lines(pkg@, snxt, wnxt) == lines_pre.push(rel@));
                assert forall|j: int| 0 <= j < e0.len() implies #[trigger] entries@[j] == e0[j] by {
                    assert(entries@[j] == before[j]);
                }
                assert forall|j: int| 0 <= j < lines_pre.len() + 1 implies {
                    &&& (#[trigger] entries@[e0.len() + j]).relative_path@ == reverse_lines(pkg@, snxt, wnxt)[j]
                    &&& entries@[e0.len() + j].status == FileSyncStatus::MissingWsl
                } by {
                    if j < lines_pre.len() {
                        assert(entries@[e0.len() + j] == before[e0.len() + j]);
                    }
                }
                assert(gone_keys(snxt, wnxt) =~= gone_keys(spre, wpre));
            }
        } else {
            let ghost before_map = index@;
            index.remove(key.as_str());
            proof {
                assert(reverse_lines(pkg@, snxt, wnxt) == lines_pre);
                assert(gone_keys(snxt, wnxt) =~= gone_keys(spre, wpre).insert(key@));
                assert(index@ =~= m0.remove_keys(gone_keys(snxt, wnxt)));
            }
        }
        i = i + 1;
    }
    proof {
        assert(sv.take(stale@.len() as int) =~= sv);
        assert(win_exists@.take(stale@.len() as int) =~= win_exists@);
    }
}

/// The reverse check gives one `missing-wsl` line per stale key whose
/// Windows copy is still there.
pub proof fn lemma_reverse_lines_len(pkg: Seq<char>, stale: Seq<Seq<char>>, win_exists: Seq<bool>)
    requires
        stale.len() == win_exists.len(),
    ensures
        reverse_lines(pkg, stale, win_exists).len() == count_true(win_exists),
    decreases stale.len(),
{
    if stale.len() > 0 {
        lemma_reverse_lines_len(pkg, stale.drop_last(), win_exists.drop_last());
    }
}

/// A package check counts each of its status lines exactly once: the
/// forward check gives one line and one count per file, and the reverse
/// check then adds one `missing-wsl` line and one count per stale key whose
/// Windows copy is left, so the tally's total is the number of lines.
pub proof fn lemma_check_counts_each_line(
    pkg: Seq<char>,
    stale: Seq<Seq<char>>,
    win_exists: Seq<bool>,
    forward: CopyStatusCounts,
    forward_lines: nat,
    total: CopyStatusCounts,
    total_lines: nat,
)
    requires
        stale.len() == win_exists.len(),
        counts_total(forward) == forward_lines,
        forall|s: FileSyncStatus| #[trigger] count_of(total, s) == count_of(forward, s)
            + (if s == FileSyncStatus::MissingWsl { count_true(win_exists) } else { 0nat }),
        total_lines == forward_lines + reverse_lines(pkg, stale, win_exists).len(),
    ensures
        counts_total(total) == total_lines,
{
    lemma_reverse_lines_len(pkg, stale, win_exists);
    assert(count_of(total, FileSyncStatus::Synced) == count_of(forward, FileSyncStatus::Synced));
    assert(count_of(total, FileSyncStatus::NeedsSync) == count_of(forward, FileSyncStatus::NeedsSync));
    assert(count_of(total, FileSyncStatus::NewerOnWin) == count_of(forward, FileSyncStatus::NewerOnWin));
    assert(count_of(total, FileSyncStatus::MissingWin) == count_of(forward, FileSyncStatus::MissingWin));
    assert(count_of(total, FileSyncStatus::MissingWsl) == count_of(forward, FileSyncStatus::MissingWsl) + count_true(win_exists));
    assert(count_of(total, FileSyncStatus::Skipped) == count_of(forward, FileSyncStatus::Skipped));
    assert(count_of(total, FileSyncStatus::Error) == count_of(forward, FileSyncStatus::Error));
    assert(count_of(total, FileSyncStatus::ContentChanged) == count_of(forward, FileSyncStatus::ContentChanged));
}

/// The tally for status `s` summed over several counts.
pub open spec fn count_sum(cs: Seq<CopyStatusCounts>, s: FileSyncStatus) -> nat
    decreases cs.len(),
{
    if cs.len() == 0 {
        0
    } else {
        count_sum(cs.drop_last(), s) + count_of(cs.last(), s)
    }
}

proof fn lemma_count_sum_grows(cs: Seq<CopyStatusCounts>, i: int, s: FileSyncStatus)
    requires
        0 <= i <= cs.len(),
    ensures
        count_sum(cs.take(i), s) <= count_sum(cs, s),
    decreases cs.len() - i,
{
    if i < cs.len() {
        lemma_count_sum_grows(cs, i + 1, s);
        assert(cs.take(i + 1).drop_last() =~= cs.take(i));
    } else {
        assert(cs.take(i) =~= cs);
    }
}

fn sums_fit(a: &CopyStatusCounts, b: &CopyStatusCounts) -> (r: bool)
    ensures
        r == forall|s: FileSyncStatus| #[trigger] count_of(*a, s) + count_of(*b, s) <= usize::MAX,
{
    let r = a.synced <= usize::MAX - b.synced
        && a.outdated_local <= usize::MAX - b.outdated_local
        && a.outdated_remote <= usize::MAX - b.outdated_remote
        && a.missing_remote <= usize::MAX - b.missing_remote
        && a.missing_wsl <= usize::MAX - b.missing_wsl
        && a.skipped <= usize::MAX - b.skipped
        && a.error <= usize::MAX - b.error
        && a.content_mat_mismatch <= usize::MAX - b.content_mat_mismatch;
    proof {
        if !r {
            if a.synced > usize::MAX - b.synced {
                assert(count_of(*a, FileSyncStatus::Synced) + count_of(*b, FileSyncStatus::Synced) > usize::MAX);
            } else if a.outdated_local > usize::MAX - b.outdated_local {
                assert(count_of(*a, FileSyncStatus::NeedsSync) + count_of(*b, FileSyncStatus::NeedsSync) > usize::MAX);
            } else if a.outdated_remote > usize::MAX - b.outdated_remote {
                assert(count_of(*a, FileSyncStatus::NewerOnWin) + count_of(*b, FileSyncStatus::NewerOnWin) > usize::MAX);
            } else if a.missing_remote > usize::MAX - b.missing_remote {
                assert(count_of(*a, FileSyncStatus::MissingWin) + count_of(*b, FileSyncStatus::MissingWin) > usize::MAX);
            } else if a.missing_wsl > usize::MAX - b.missing_wsl {
                assert(count_of(*a, FileSyncStatus::MissingWsl) + count_of(*b, FileSyncStatus::MissingWsl) > usize::MAX);
            } else if a.skipped > usize::MAX - b.skipped {
                assert(count_of(*a, FileSyncStatus::Skipped) + count_of(*b, FileSyncStatus::Skipped) > usize::MAX);
            } else if a.error > usize::MAX - b.error {
                assert(count_of(*a, FileSyncStatus::Error) + count_of(*b, FileSyncStatus::Error) > usize::MAX);
            } else {
                assert(count_of(*a, FileSyncStatus::ContentChanged) + count_of(*b, FileSyncStatus::ContentChanged) > usize::MAX);
            }
        }
    }
    r
}

/// The tallies of several packages together, checked one after the other:
/// each tally is the sum of the packages' tallies (all zero for no
/// package); `None` when a sum does not fit.
pub fn sum_counts(cs: &Vec<CopyStatusCounts>) -> (r: Option<CopyStatusCounts>)
    ensures
        match r {
            Some(t) => forall|s: FileSyncStatus| #[trigger] count_of(t, s) == count_sum(cs@, s),
            None => exists|s: FileSyncStatus| #[trigger] count_sum(cs@, s) > usize::MAX,
        },
{
    let mut total = CopyStatusCounts::default();
    let mut i: usize = 0;
    proof {
        assert(cs@.take(0) =~= Seq::<CopyStatusCounts>::empty());
    }
    while i < cs.len()
        invariant
            i <= cs@.len(),
            forall|s: FileSyncStatus| #[trigger] count_of(total, s) == count_sum(cs@.take(i as int), s),
        decreases cs.len() - i,
    {
        proof {
            assert(cs@.take(i + 1).drop_last() =~= cs@.take(i as int));
            assert(cs@.take(i + 1).last() == cs@[i as int]);
        }
        if !sums_fit(&total, &cs[i]) {
            proof {
                let s = choose|s: FileSyncStatus| #[trigger] count_of(total, s) + count_of(cs@[i as int], s) > usize::MAX;
                assert(count_sum(cs@.take(i + 1), s) > usize::MAX);
                lemma_count_sum_grows(cs@, i + 1, s);
            }
            return None;
        }
        total.add(&cs[i]);
        i = i + 1;
    }
    proof {
        assert(cs@.take(cs@.len() as int) =~= cs@);
    }
    Some(total)
}

/// The index entry a check leaves for a file: the record it judged, or the
/// entry it found when that was already right.
pub open spec fn entry_left(entry: Option<IndexEntry>, o: (FileSyncStatus, IndexEntry, bool)) -> Option<IndexEntry> {
    if o.2 {
        entry
    } else {
        Some(o.1)
    }
}

/// Checking a file whose copies have not changed since the last check gives
/// the status that the last check gave, and leaves the same index entry: the
/// index never turns a pending file into a synced one.
pub proof fn lemma_recheck_is_stable(
    obs: FileObservation,
    limit: u64,
    entry: Option<IndexEntry>,
    hashes: Option<(String, String)>,
)
    ensures
        outcome(obs, limit, entry_left(entry, outcome(obs, limit, entry, hashes)), hashes).0
            == outcome(obs, limit, entry, hashes).0,
        entry_left(entry_left(entry, outcome(obs, limit, entry, hashes)),
            outcome(obs, limit, entry_left(entry, outcome(obs, limit, entry, hashes)), hashes))
            == entry_left(entry, outcome(obs, limit, entry, hashes)),
{
}

/// A Windows-side edit is reported and stays reported: after a check of a
/// pair has left its record in the index, the Windows copy is rewritten
/// (its modification time changes) so that it is newer than the unchanged
/// repository copy by more than the tolerance. The next check reports the
/// file `newer-on-win`, whatever the record said, and a check right after
/// it, with the record that check left, reports it again. Times are taken
/// below 2^64 ns since the epoch, where the index keeps them exactly.
pub proof fn lemma_windows_edit_is_reported(
    before: FileObservation,
    after: FileObservation,
    limit: u64,
    entry: Option<IndexEntry>,
    hashes_before: Option<(String, String)>,
    hashes_after: Option<(String, String)>,
    hashes_again: Option<(String, String)>,
)
    requires
        after.wsl == before.wsl,
        after.wsl is Some,
        !over_size_limit(after.wsl->0.size, limit),
        after.win_exists,
        after.win is Some,
        before.win is Some,
        time_of(after.wsl->0) is Some,
        time_of(after.win->0) is Some,
        time_of(before.win->0) is Some,
        time_of(after.win->0)->0 > time_of(after.wsl->0)->0 + mtime_tolerance(),
        time_of(after.win->0)->0 != time_of(before.win->0)->0,
        time_of(after.win->0)->0 < 0x1_0000_0000_0000_0000int,
        time_of(before.win->0)->0 < 0x1_0000_0000_0000_0000int,
    ensures
        ({
            let recorded = entry_left(entry, outcome(before, limit, entry, hashes_before));
            let first = outcome(after, limit, recorded, hashes_after);
            &&& first.0 == FileSyncStatus::NewerOnWin
            &&& outcome(after, limit, entry_left(recorded, first), hashes_again).0 == FileSyncStatus::NewerOnWin
        }),
{
    let w = after.wsl->0;
    let n = after.win->0;
    let n0 = before.win->0;
    let t1 = time_of(n)->0;
    let t0 = time_of(n0)->0;
    assert(win_ns_of(n) == Some(t1 as u64)) by {
        assert(t1 % 0x1_0000_0000_0000_0000int == t1);
    }
    assert(win_ns_of(n0) == Some(t0 as u64)) by {
        assert(t0 % 0x1_0000_0000_0000_0000int == t0);
    }
    assert(win_ns_of(n) != win_ns_of(n0));
    let recorded = entry_left(entry, outcome(before, limit, entry, hashes_before));
    assert(recorded is Some && recorded->0.synced ==> recorded->0.win_mtime_ns == win_ns_of(n0));
    assert(!(recorded is Some && on_fast_path(recorded->0, w, n)));
    assert(!same_time(time_of(w)->0, t1));
    let first = outcome(after, limit, recorded, hashes_after);
    assert(first.0 == FileSyncStatus::NewerOnWin);
    assert(!first.1.synced);
    assert(!first.2);
}

/// The report piece for a status and its tally.
pub open spec fn report_piece(c: CopyStatusCounts, s: FileSyncStatus) -> Seq<char> {
    decimal(count_of(c, s)) + seq![' '] + status_label(s)
}

/// The tally report names every status that some file has, other than
/// `error`, with its count; it reads `empty` exactly when it names none.
pub proof fn lemma_status_text_reports(c: CopyStatusCounts, s: FileSyncStatus)
    ensures
        s != FileSyncStatus::Error && count_of(c, s) > 0 ==> seq_contains(status_text_spec(c), report_piece(c, s)),
        status_text_spec(c) == "empty"@ <==> (forall|t: FileSyncStatus| t != FileSyncStatus::Error ==> #[trigger] count_of(c, t) == 0),
{
    let parts = status_parts(c);
    let p0 = count_part(c.synced as nat, "synced"@);
    let p1 = count_part(c.outdated_local as nat, "needs-sync"@);
    let p2 = count_part(c.outdated_remote as nat, "newer-on-win"@);
    let p3 = count_part(c.missing_remote as nat, "missing-win"@);
    let p4 = count_part(c.missing_wsl as nat, "missing-wsl"@);
    let p5 = count_part(c.skipped as nat, "skipped"@);
    let p6 = count_part(c.content_mat_mismatch as nat, "content-mismatch"@);
    assert(parts == p0 + p1 + p2 + p3 + p4 + p5 + p6);
    if s != FileSyncStatus::Error && count_of(c, s) > 0 {
        let piece = report_piece(c, s);
        let idx: int = match s {
            FileSyncStatus::Synced => 0,
            FileSyncStatus::NeedsSync => p0.len() as int,
            FileSyncStatus::NewerOnWin => (p0.len() + p1.len()) as int,
            FileSyncStatus::MissingWin => (p0.len() + p1.len() + p2.len()) as int,
            FileSyncStatus::MissingWsl => (p0.len() + p1.len() + p2.len() + p3.len()) as int,
            FileSyncStatus::Skipped => (p0.len() + p1.len() + p2.len() + p3.len() + p4.len()) as int,
            _ => (p0.len() + p1.len() + p2.len() + p3.len() + p4.len() + p5.len()) as int,
        };
        assert(parts[idx] == piece);
        lemma_join_sep_contains(parts, ", "@, idx);
    }
    reveal_strlit("empty");
    if parts.len() == 0 {
        assert forall|t: FileSyncStatus| t != FileSyncStatus::Error implies #[trigger] count_of(c, t) == 0 by {
            if count_of(c, t) > 0 {
                match t {
                    FileSyncStatus::Synced => assert(p0.len() > 0),
                    FileSyncStatus::NeedsSync => assert(p1.len() > 0),
                    FileSyncStatus::NewerOnWin => assert(p2.len() > 0),
                    FileSyncStatus::MissingWin => assert(p3.len() > 0),
                    FileSyncStatus::MissingWsl => assert(p4.len() > 0),
                    FileSyncStatus::Skipped => assert(p5.len() > 0),
                    _ => assert(p6.len() > 0),
                }
            }
        }
    } else {
        lemma_join_sep_starts(parts, ", "@);
        let first = parts[0];
        let n: nat = if c.synced > 0 { c.synced as nat }
            else if c.outdated_local > 0 { c.outdated_local as nat }
            else if c.outdated_remote > 0 { c.outdated_remote as nat }
            else if c.missing_remote > 0 { c.missing_remote as nat }
            else if c.missing_wsl > 0 { c.missing_wsl as nat }
            else if c.skipped > 0 { c.skipped as nat }
            else { c.content_mat_mismatch as nat };
        lemma_decimal_first_digit(n);
        assert(first[0] == decimal(n)[0]);
        assert(status_text_spec(c)[0] == first[0]);
        assert(status_text_spec(c) != "empty"@);
        if c.synced > 0 {
            assert(count_of(c, FileSyncStatus::Synced) > 0);
        } else if c.outdated_local > 0 {
            assert(count_of(c, FileSyncStatus::NeedsSync) > 0);
        } else if c.outdated_remote > 0 {
            assert(count_of(c, FileSyncStatus::NewerOnWin) > 0);
        } else if c.missing_remote > 0 {
            assert(count_of(c, FileSyncStatus::MissingWin) > 0);
        } else if c.missing_wsl > 0 {
            assert(count_of(c, FileSyncStatus::MissingWsl) > 0);
        } else if c.skipped > 0 {
            assert(count_of(c, FileSyncStatus::Skipped) > 0);
        } else {
            assert(count_of(c, FileSyncStatus::ContentChanged) > 0);
        }
    }
}

/// The paths to probe, in order, to tell whether `path` or one of its parents
/// below `root` is a symbolic link: `path` itself, then each parent up to,
/// but not including, `root` (or as far as parents go).
pub open spec fn probe_paths(path: Seq<char>, root: Seq<char>) -> Seq<Seq<char>> {
    seq![path] + renders(ancestors_until(components(path), components(root)))
}

/// The paths to probe to tell whether `path`, or a parent of it below
/// `root`, is a symbolic link (see `probe_paths`).
pub fn symlink_probe_paths(path: &str, root: &str) -> (r: Vec<String>)
    ensures
        string_views(r@) == probe_paths(path@, root@),
{
    let cs = components_of(&chars_of(path));
    let rs = components_of(&chars_of(root));
    let ghost full = seqs_of(cs@);
    let ghost stop = seqs_of(rs@);
    let mut probes: Vec<String> = Vec::new();
    probes.push(string_of(&chars_of(path)));
    let mut k: usize = cs.len();
    proof {
        assert(full.take(k as int) =~= full);
        assert(string_views(probes@) =~= seq![path@]);
    }
    loop
        invariant
            k <= cs@.len(),
            full == seqs_of(cs@),
            full == components(path@),
            stop == seqs_of(rs@),
            stop == components(root@),
            string_views(probes@) + renders(ancestors_until(full.take(k as int), stop)) == probe_paths(path@, root@),
        ensures
            string_views(probes@) + renders(ancestors_until(full.take(k as int), stop)) == probe_paths(path@, root@),
            ancestors_until(full.take(k as int), stop).len() == 0,
        decreases k,
    {
        let ghost cur = full.take(k as int);
        if k == 0 {
            proof {
                assert(cur.len() == 0);
            }
            break;
        }
        let mut slash: Vec<char> = Vec::new();
        slash.push('/');
        if chars_eq(&cs[k - 1], &slash) {
            proof {
                assert(cur.last() == seq!['/']);
                assert(ancestors_until(cur, stop) == Seq::<Seq<Seq<char>>>::empty());
            }
            break;
        }
        let parent = take_comps(&cs, k - 1);
        proof {
            assert(cur.drop_last() =~= full.take(k - 1));
        }
        if comps_eq(&parent, &rs) {
            proof {
                assert(cur.drop_last() == stop);
                assert(ancestors_until(cur, stop) == Seq::<Seq<Seq<char>>>::empty());
            }
            break;
        }
        let ghost before = probes@;
        probes.push(string_of(&render_exec(&parent)));
        proof {
            let p = full.take(k - 1);
            assert(ancestors_until(cur, stop) == seq![p] + ancestors_until(p, stop));
            assert(string_views(probes@) =~= string_views(before).push(crate::path::render(p)));
            assert(renders(seq![p] + ancestors_until(p, stop)) =~= seq![crate::path::render(p)] + renders(ancestors_until(p, stop)));
            assert(string_views(probes@) + renders(ancestors_until(p, stop))
                =~= string_views(before) + renders(ancestors_until(cur, stop)));
        }
        k = k - 1;
    }
    proof {
        assert(renders(ancestors_until(full.take(k as int), stop)) =~= Seq::<Seq<char>>::empty());
        assert(string_views(probes@) =~= probe_paths(path@, root@));
    }
    probes
}

/// Where the files of a package of type `t` are linked: the type's target,
/// for a stowed type whose package is a directory.
pub open spec fn stow_target_spec(t: PkgType, cfg: Config, pkg_is_dir: bool) -> Option<Seq<char>> {
    if (t == PkgType::User || t == PkgType::Config || t == PkgType::Root) && pkg_is_dir {
        cfg.target_of(t)
    } else {
        None
    }
}

/// Where the files of a package of type `pt` are linked, if it is stowed.
pub fn stow_target(pt: PkgType, cfg: &Config, pkg_is_dir: bool) -> (r: Option<String>)
    ensures
        match r {
            Some(t) => stow_target_spec(pt, *cfg, pkg_is_dir) == Some(t@),
            None => stow_target_spec(pt, *cfg, pkg_is_dir) is None,
        },
{
    if !pt.uses_stow() || !pkg_is_dir {
        return None;
    }
    pt.sync_target(cfg)
}

/// Where the file at `file` of the package at `pkg` is linked under `target`.
pub open spec fn stow_dest_spec(file: Seq<char>, pkg: Seq<char>, target: Seq<char>) -> Option<Seq<char>> {
    match strip_prefix_path(file, pkg) {
        Some(rel) => Some(join(target, rel)),
        None => None,
    }
}

/// Where the file at `file` of the package at `pkg` is linked under
/// `target`; `None` when the file does not lie in the package.
pub fn stow_dest(file: &str, pkg: &str, target: &str) -> (r: Option<String>)
    ensures
        match r {
            Some(d) => stow_dest_spec(file@, pkg@, target@) == Some(d@),
            None => stow_dest_spec(file@, pkg@, target@) is None,
        },
{
    match strip_prefix_exec(&chars_of(file), &chars_of(pkg)) {
        Some(rel) => Some(string_of(&join_exec(&chars_of(target), &rel))),
        None => None,
    }
}

/// Tallies a stowed package: how many of its files are linked (a flag per
/// file, set when the file or a parent below the target is a link), and how
/// many files it has.
pub fn check_stow_status(linked: &Vec<bool>) -> (r: (usize, usize))
    ensures
        r.0 == count_true(linked@),
        r.1 == linked@.len(),
{
    let mut stowed: usize = 0;
    let mut i: usize = 0;
    while i < linked.len()
        invariant
            i <= linked@.len(),
            stowed == count_true(linked@.take(i as int)),
        decreases linked.len() - i,
    {
        proof {
            assert(linked@.take(i + 1).drop_last() =~= linked@.take(i as int));
            lemma_count_true_le(linked@.take(i as int));
        }
        if linked[i] {
            stowed = stowed + 1;
        }
        i = i + 1;
    }
    proof {
        assert(linked@.take(linked@.len() as int) =~= linked@);
    }
    (stowed, linked.len())
}

/// The BLAKE3 hash of the bytes, as `blake3::hash(..).to_hex()` writes it.
pub uninterp spec fn blake3_hex(bytes: Seq<u8>) -> Seq<char>;

/// Calls `blake3::hash` and writes the hash with `Hash::to_hex`. The
/// contract claims that the text is `blake3_hex` of the bytes and, as
/// `to_hex` writes two digits per byte of the 32-byte hash, 64 characters
/// long.
#[verifier::external_body]
fn blake3_hash_hex(bytes: &[u8]) -> (r: String)
    ensures
        r@ == blake3_hex(bytes@),
        r@.len() == 64,
{
    blake3::hash(bytes).to_hex().to_string()
}

/// The content hash of a file's bytes (BLAKE3, in hex).
pub fn content_hash(bytes: &Vec<u8>) -> (r: String)
    ensures
        r@ == blake3_hex(bytes@),
        r@.len() == 64,
{
    blake3_hash_hex(bytes.as_slice())
}

/// Two copies that agree in metadata and hold the same bytes are judged
/// synced, unless the repository copy is over the size limit.
pub proof fn lemma_same_content_is_synced(
    obs: FileObservation,
    limit: u64,
    entry: Option<IndexEntry>,
    wsl_bytes: Seq<u8>,
    win_bytes: Seq<u8>,
    h_wsl: String,
    h_win: String,
)
    requires
        obs.wsl is Some,
        obs.win is Some,
        obs.win_exists,
        !over_size_limit(obs.wsl->0.size, limit),
        metadata_agrees(obs.wsl->0, obs.win->0),
        wsl_bytes == win_bytes,
        h_wsl@ == blake3_hex(wsl_bytes),
        h_win@ == blake3_hex(win_bytes),
    ensures
        outcome(obs, limit, entry, Some((h_wsl, h_win))).0 == FileSyncStatus::Synced,
{
}

/// Copies that agree in metadata but whose content hashes differ are
/// reported as diverged in content, unless the index vouches for the pair.
pub proof fn lemma_different_content_is_reported(
    obs: FileObservation,
    limit: u64,
    entry: Option<IndexEntry>,
    h_wsl: String,
    h_win: String,
)
    requires
        obs.wsl is Some,
        obs.win is Some,
        obs.win_exists,
        !over_size_limit(obs.wsl->0.size, limit),
        metadata_agrees(obs.wsl->0, obs.win->0),
        !(entry is Some && on_fast_path(entry->0, obs.wsl->0, obs.win->0)),
        h_wsl@ != h_win@,
    ensures
        outcome(obs, limit, entry, Some((h_wsl, h_win))).0 == FileSyncStatus::ContentChanged,
{
}

} // verus!
