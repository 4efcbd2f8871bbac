//! The sync index: what was last seen of each file of the Windows packages.
use vstd::prelude::*;
use crate::path::{join, join_exec};
use crate::text::chars_eq;
use crate::text::{chars_of, string_of};

verus! {

/// What the index remembers of one file.
#[derive(Debug)]
pub struct IndexEntry {
    /// Modification time of the repository copy, in nanoseconds.
    pub mtime_ns: u64,
    /// Size of the repository copy.
    pub size: u64,
    /// Modification time of the Windows copy, when it was read.
    pub win_mtime_ns: Option<u64>,
    /// Size of the Windows copy, when it was read.
    pub win_size: Option<u64>,
    /// Content hash of the repository copy, when one was taken.
    pub blake3_wsl: Option<String>,
    /// Content hash of the Windows copy, when one was taken.
    pub blake3_win: Option<String>,
    /// Whether this entry records a file found in sync. Only such entries
    /// allow the fast path; the others are kept to detect deletions.
    pub synced: bool,
}

impl Clone for IndexEntry {
    fn clone(&self) -> (r: IndexEntry)
        ensures
            r == *self,
    {
        IndexEntry {
            mtime_ns: self.mtime_ns,
            size: self.size,
            win_mtime_ns: self.win_mtime_ns,
            win_size: self.win_size,
            blake3_wsl: match &self.blake3_wsl {
                Some(h) => Some(h.clone()),
                None => None,
            },
            blake3_win: match &self.blake3_win {
                Some(h) => Some(h.clone()),
                None => None,
            },
            synced: self.synced,
        }
    }
}

/// The keys of a list of entries are pairwise distinct.
pub open spec fn keys_distinct(s: Seq<(String, IndexEntry)>) -> bool {
    forall|i: int, j: int| 0 <= i < s.len() && 0 <= j < s.len() && i != j ==> s[i].0@ != s[j].0@
}

/// The key-to-entry map that a list of entries with distinct keys denotes.
pub open spec fn entries_map(s: Seq<(String, IndexEntry)>) -> Map<Seq<char>, IndexEntry> {
    Map::new(
        |k: Seq<char>| exists|i: int| 0 <= i < s.len() && s[i].0@ == k,
        |k: Seq<char>| s[choose|i: int| 0 <= i < s.len() && s[i].0@ == k].1,
    )
}

/// The key-to-entry map that a list of entries builds when each entry is
/// recorded in turn, a later entry for a key replacing an earlier one.
pub open spec fn map_of_list(list: Seq<(String, IndexEntry)>) -> Map<Seq<char>, IndexEntry>
    decreases list.len(),
{
    if list.len() == 0 {
        Map::<Seq<char>, IndexEntry>::empty()
    } else {
        map_of_list(list.drop_last()).insert(list.last().0@, list.last().1)
    }
}

/// Recording an entry and reading its key gives the entry back; the other
/// keys read as before. Forgetting a key after recording it forgets it.
pub proof fn lemma_set_then_get(m: Map<Seq<char>, IndexEntry>, k: Seq<char>, e: IndexEntry, other: Seq<char>)
    ensures
        m.insert(k, e).contains_key(k),
        m.insert(k, e)[k] == e,
        other != k ==> (m.insert(k, e).contains_key(other) == m.contains_key(other)),
        other != k && m.contains_key(other) ==> m.insert(k, e)[other] == m[other],
        m.insert(k, e).remove(k) == m.remove(k),
        !m.remove(k).contains_key(k),
{
    assert(m.insert(k, e).remove(k) =~= m.remove(k));
}

/// The sync index: a format version and one entry per file key.
pub struct SyncIndex {
    pub version: u32,
    pub entries: Vec<(String, IndexEntry)>,
}

impl View for SyncIndex {
    type V = Map<Seq<char>, IndexEntry>;

    open spec fn view(&self) -> Map<Seq<char>, IndexEntry> {
        entries_map(self.entries@)
    }
}

impl Default for SyncIndex {
    /// An empty index of format version 1.
    fn default() -> (r: SyncIndex)
        ensures
            r.wf(),
            r.version == 1,
            r@ == Map::<Seq<char>, IndexEntry>::empty(),
    {
        let r = SyncIndex { version: 1, entries: Vec::new() };
        assert(r@ =~= Map::<Seq<char>, IndexEntry>::empty());
        r
    }
}

proof fn lemma_map_at(s: Seq<(String, IndexEntry)>, i: int)
    requires
        keys_distinct(s),
        0 <= i < s.len(),
    ensures
        entries_map(s).contains_key(s[i].0@),
        entries_map(s)[s[i].0@] == s[i].1,
{
    let k = s[i].0@;
    assert(exists|j: int| 0 <= j < s.len() && s[j].0@ == k);
    let j = choose|j: int| 0 <= j < s.len() && s[j].0@ == k;
    assert(j == i);
}

impl SyncIndex {
    /// The entries are kept with distinct keys.
    pub open spec fn wf(&self) -> bool {
        keys_distinct(self.entries@)
    }

    /// An index built from a version and a list of entries; a later entry
    /// for a key replaces an earlier one.
    pub fn from_entries(version: u32, list: Vec<(String, IndexEntry)>) -> (r: SyncIndex)
        ensures
            r.wf(),
            r.version == version,
            r@ == map_of_list(list@),
    {
        let mut r = SyncIndex::default();
        r.version = version;
        let mut i: usize = 0;
        proof {
            assert(list@.take(0) =~= Seq::<(String, IndexEntry)>::empty());
        }
        while i < list.len()
            invariant
                i <= list.len(),
                r.wf(),
                r.version == version,
                r@ == map_of_list(list@.take(i as int)),
            decreases list.len() - i,
        {
            proof {
                assert(list@.take(i + 1).drop_last() =~= list@.take(i as int));
                assert(list@.take(i + 1).last() == list@[i as int]);
            }
            let (k, e) = (list[i].0.clone(), list[i].1.clone());
            r.set(k, e);
            i = i + 1;
        }
        proof {
            assert(list@.take(list@.len() as int) =~= list@);
        }
        r
    }

    /// The position of `key` in the entry list, if present.
    fn find(&self, key: &Vec<char>) -> (r: Option<usize>)
        requires
            self.wf(),
        ensures
            match r {
                Some(i) => i < self.entries@.len() && self.entries@[i as int].0@ == key@,
                None => !self@.contains_key(key@),
            },
    {
        let mut i: usize = 0;
        while i < self.entries.len()
            invariant
                i <= self.entries@.len(),
                forall|j: int| 0 <= j < i ==> self.entries@[j].0@ != key@,
            decreases self.entries.len() - i,
        {
            if chars_eq(&chars_of(self.entries[i].0.as_str()), key) {
                return Some(i);
            }
            i = i + 1;
        }
        None
    }

    /// The entry for `key`, if any.
    pub fn get(&self, key: &str) -> (r: Option<&IndexEntry>)
        requires
            self.wf(),
        ensures
            match r {
                Some(e) => self@.contains_key(key@) && *e == self@[key@],
                None => !self@.contains_key(key@),
            },
    {
        match self.find(&chars_of(key)) {
            Some(i) => {
                proof { lemma_map_at(self.entries@, i as int); }
                Some(&self.entries[i].1)
            },
            None => None,
        }
    }

    /// Records `entry` under `key`, replacing any earlier entry for it.
    pub fn set(&mut self, key: String, entry: IndexEntry)
        requires
            old(self).wf(),
        ensures
            final(self).wf(),
            final(self).version == old(self).version,
            final(self)@ == old(self)@.insert(key@, entry),
    {
        let ghost k = key@;
        let ghost e = entry;
        match self.find(&chars_of(key.as_str())) {
            Some(i) => {
                self.entries.set(i, (key, entry));
                proof {
                    assert(self.wf());
                    assert forall|x: Seq<char>| #![auto] self@.contains_key(x) == old(self)@.insert(k, e).contains_key(x) by {
                        if x == k {
                            assert(self.entries@[i as int].0@ == x);
                        }
                        if x != k && old(self)@.contains_key(x) {
                            let j = choose|j: int| 0 <= j < old(self).entries@.len() && old(self).entries@[j].0@ == x;
                            assert(self.entries@[j].0@ == x);
                        }
                        if self@.contains_key(x) {
                            let j = choose|j: int| 0 <= j < self.entries@.len() && self.entries@[j].0@ == x;
                            if j != i {
                                assert(old(self).entries@[j].0@ == x);
                            }
                        }
                    }
                    assert forall|x: Seq<char>| #![auto] self@.contains_key(x) implies self@[x] == old(self)@.insert(k, e)[x] by {
                        let j = choose|j: int| 0 <= j < self.entries@.len() && self.entries@[j].0@ == x;
                        lemma_map_at(self.entries@, j);
                        if j != i {
                            lemma_map_at(old(self).entries@, j);
                        }
                    }
                    assert(self@ =~= old(self)@.insert(k, e));
                }
            },
            None => {
                self.entries.push((key, entry));
                proof {
                    let n = old(self).entries@.len();
                    assert(self.wf()) by {
                        assert forall|a: int, b: int| 0 <= a < self.entries@.len() && 0 <= b < self.entries@.len() && a != b
                            implies self.entries@[a].0@ != self.entries@[b].0@ by {
                            if a == n {
                                assert(old(self).entries@[b].0@ != k);
                            } else if b == n {
                                assert(old(self).entries@[a].0@ != k);
                            }
                        }
                    }
                    assert forall|x: Seq<char>| #![auto] self@.contains_key(x) == old(self)@.insert(k, e).contains_key(x) by {
                        if x != k && old(self)@.contains_key(x) {
                            let j = choose|j: int| 0 <= j < old(self).entries@.len() && old(self).entries@[j].0@ == x;
                            assert(self.entries@[j].0@ == x);
                        }
                        if x == k {
                            assert(self.entries@[n as int].0@ == x);
                        }
                        if self@.contains_key(x) && x != k {
                            let j = choose|j: int| 0 <= j < self.entries@.len() && self.entries@[j].0@ == x;
                            assert(old(self).entries@[j].0@ == x);
                        }
                    }
                    assert forall|x: Seq<char>| #![auto] self@.contains_key(x) implies self@[x] == old(self)@.insert(k, e)[x] by {
                        let j = choose|j: int| 0 <= j < self.entries@.len() && self.entries@[j].0@ == x;
                        lemma_map_at(self.entries@, j);
                        if j != n {
                            lemma_map_at(old(self).entries@, j);
                        }
                    }
                    assert(self@ =~= old(self)@.insert(k, e));
                }
            },
        }
    }

    /// Forgets the entry for `key`, if any.
    pub fn remove(&mut self, key: &str)
        requires
            old(self).wf(),
        ensures
            final(self).wf(),
            final(self).version == old(self).version,
            final(self)@ == old(self)@.remove(key@),
    {
        match self.find(&chars_of(key)) {
            Some(i) => {
                let ghost old_entries = self.entries@;
                self.entries.remove(i);
                proof {
                    assert(self.entries@ =~= old_entries.remove(i as int));
                    assert(self.wf()) by {
                        assert forall|a: int, b: int| 0 <= a < self.entries@.len() && 0 <= b < self.entries@.len() && a != b
                            implies self.entries@[a].0@ != self.entries@[b].0@ by {
                            let a2 = if a < i { a } else { a + 1 };
                            let b2 = if b < i { b } else { b + 1 };
                            assert(self.entries@[a] == old_entries[a2]);
                            assert(self.entries@[b] == old_entries[b2]);
                        }
                    }
                    assert forall|x: Seq<char>| #![auto] self@.contains_key(x) == old(self)@.remove(key@).contains_key(x) by {
                        if x != key@ && old(self)@.contains_key(x) {
                            let j = choose|j: int| 0 <= j < old_entries.len() && old_entries[j].0@ == x;
                            let j2 = if j < i { j } else { j - 1 };
                            assert(j != i);
                            assert(self.entries@[j2].0@ == x);
                        }
                        if self@.contains_key(x) {
                            let j = choose|j: int| 0 <= j < self.entries@.len() && self.entries@[j].0@ == x;
                            let j2 = if j < i { j } else { j + 1 };
                            assert(old_entries[j2].0@ == x);
                            assert(j2 != i);
                        }
                    }
                    assert forall|x: Seq<char>| #![auto] self@.contains_key(x) implies self@[x] == old(self)@.remove(key@)[x] by {
                        let j = choose|j: int| 0 <= j < self.entries@.len() && self.entries@[j].0@ == x;
                        let j2 = if j < i { j } else { j + 1 };
                        lemma_map_at(self.entries@, j);
                        lemma_map_at(old_entries, j2);
                    }
                    assert(self@ =~= old(self)@.remove(key@));
                }
            },
            None => {
                assert(self@ =~= old(self)@.remove(key@));
            },
        }
    }

    /// The keys of all entries, each once.
    pub fn keys_cloned(&self) -> (r: Vec<String>)
        requires
            self.wf(),
        ensures
            r@.len() == self.entries@.len(),
            forall|i: int| 0 <= i < r@.len() ==> r@[i]@ == self.entries@[i].0@,
            forall|k: Seq<char>| self@.contains_key(k) <==> exists|i: int| 0 <= i < r@.len() && r@[i]@ == k,
    {
        let mut r: Vec<String> = Vec::new();
        let mut i: usize = 0;
        while i < self.entries.len()
            invariant
                i <= self.entries@.len(),
                r@.len() == i,
                forall|j: int| 0 <= j < i ==> r@[j]@ == self.entries@[j].0@,
            decreases self.entries.len() - i,
        {
            r.push(self.entries[i].0.clone());
            i = i + 1;
        }
        proof {
            assert forall|k: Seq<char>| self@.contains_key(k) <==> exists|j: int| 0 <= j < r@.len() && r@[j]@ == k by {
                if self@.contains_key(k) {
                    let j = choose|j: int| 0 <= j < self.entries@.len() && self.entries@[j].0@ == k;
                    assert(r@[j]@ == k);
                }
                if exists|j: int| 0 <= j < r@.len() && r@[j]@ == k {
                    let j = choose|j: int| 0 <= j < r@.len() && r@[j]@ == k;
                    assert(self.entries@[j].0@ == k);
                }
            }
        }
        r
    }

    /// The entries, in the order in which they are kept.
    pub fn entries(&self) -> (r: &Vec<(String, IndexEntry)>)
        ensures
            r@ == self.entries@,
    {
        &self.entries
    }
}

/// Where the index of the repository at `base` is kept.
pub fn index_file(base: &str) -> (r: String)
    ensures
        r@ == join(base@, ".wots_index.json"@),
{
    string_of(&join_exec(&chars_of(base), &chars_of(".wots_index.json")))
}

/// Where a new index is written before it replaces the old one.
pub fn index_tmp_file(base: &str) -> (r: String)
    ensures
        r@ == join(base@, ".wots_index.tmp"@),
{
    string_of(&join_exec(&chars_of(base), &chars_of(".wots_index.tmp")))
}

} // verus!
