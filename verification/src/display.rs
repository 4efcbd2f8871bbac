//! The rows shown by `stats` and `list`, and the reading of answers to
//! prompts.
use vstd::prelude::*;
use crate::text::{chars_of, decimal, decimal_chars, slice_chars, string_of};
use crate::types::{pkg_type_name, PkgType};
use crate::util::{fmt_size, fmt_size_spec};

verus! {

/// The statistics of one package type, as `stats` shows them.
pub struct TypeStats {
    pub packages: usize,
    pub files: usize,
    pub size_bytes: u64,
    pub size_human: String,
    pub status_text: String,
    pub names: Vec<String>,
}

/// One package, as `list` shows it.
pub struct ListRow {
    pub name: String,
    pub pkg_type: String,
    pub files: usize,
    pub size_bytes: u64,
    pub size_human: String,
    pub status: String,
    pub path: String,
}

/// A white-space character (Unicode `White_Space`, as `char::is_whitespace`).
pub open spec fn is_space(c: char) -> bool {
    ||| ('\u{9}' <= c && c <= '\u{d}')
    ||| c == ' '
    ||| c == '\u{85}'
    ||| c == '\u{a0}'
    ||| c == '\u{1680}'
    ||| ('\u{2000}' <= c && c <= '\u{200a}')
    ||| c == '\u{2028}'
    ||| c == '\u{2029}'
    ||| c == '\u{202f}'
    ||| c == '\u{205f}'
    ||| c == '\u{3000}'
}

fn is_space_exec(c: char) -> (r: bool)
    ensures
        r == is_space(c),
{
    ('\u{9}' <= c && c <= '\u{d}') || c == ' ' || c == '\u{85}' || c == '\u{a0}' || c == '\u{1680}'
        || ('\u{2000}' <= c && c <= '\u{200a}') || c == '\u{2028}' || c == '\u{2029}' || c == '\u{202f}'
        || c == '\u{205f}' || c == '\u{3000}'
}

/// The number of white-space characters `s` starts with.
pub open spec fn leading_space(s: Seq<char>) -> nat
    decreases s.len(),
{
    if s.len() > 0 && is_space(s[0]) {
        1 + leading_space(s.drop_first())
    } else {
        0
    }
}

/// The number of white-space characters `s` ends with.
pub open spec fn trailing_space(s: Seq<char>) -> nat
    decreases s.len(),
{
    if s.len() > 0 && is_space(s.last()) {
        1 + trailing_space(s.drop_last())
    } else {
        0
    }
}

/// `s` without leading and trailing white space (`str::trim`).
pub open spec fn trim_spec(s: Seq<char>) -> Seq<char> {
    let front = s.skip(leading_space(s) as int);
    front.take(front.len() - trailing_space(front))
}

proof fn lemma_leading_space(s: Seq<char>, i: int)
    requires
        0 <= i <= s.len(),
        forall|k: int| 0 <= k < i ==> is_space(#[trigger] s[k]),
        i < s.len() ==> !is_space(s[i]),
    ensures
        leading_space(s) == i,
    decreases i,
{
    if i > 0 {
        lemma_leading_space(s.drop_first(), i - 1);
    }
}

proof fn lemma_trailing_space(s: Seq<char>, j: int)
    requires
        0 <= j <= s.len(),
        forall|k: int| j <= k < s.len() ==> is_space(#[trigger] s[k]),
        j > 0 ==> !is_space(s[j - 1]),
    ensures
        trailing_space(s) == s.len() - j,
    decreases s.len() - j,
{
    if j < s.len() {
        lemma_trailing_space(s.drop_last(), j);
    }
}

/// `s` without leading and trailing white space.
pub fn trim(s: &str) -> (r: String)
    ensures
        r@ == trim_spec(s@),
{
    let v = chars_of(s);
    let mut i: usize = 0;
    while i < v.len() && is_space_exec(v[i])
        invariant
            i <= v.len(),
            forall|k: int| 0 <= k < i ==> is_space(#[trigger] v@[k]),
        decreases v.len() - i,
    {
        i = i + 1;
    }
    proof {
        lemma_leading_space(v@, i as int);
    }
    let mut j: usize = v.len();
    while j > i && is_space_exec(v[j - 1])
        invariant
            i <= j <= v.len(),
            forall|k: int| j <= k < v.len() ==> is_space(#[trigger] v@[k]),
        decreases j,
    {
        j = j - 1;
    }
    proof {
        let front = v@.skip(i as int);
        assert forall|k: int| j - i <= k < front.len() implies is_space(#[trigger] front[k]) by {
            assert(front[k] == v@[i + k]);
        }
        if j > i {
            assert(front[j - i - 1] == v@[j - 1]);
        }
        lemma_trailing_space(front, j - i);
        assert(v@.subrange(i as int, j as int) =~= front.take(front.len() - trailing_space(front)));
    }
    string_of(&slice_chars(&v, i, j))
}

/// The code of `c` with an ASCII capital turned small.
pub open spec fn ascii_lower(c: char) -> int {
    if 'A' <= c && c <= 'Z' { (c as int) + 32 } else { c as int }
}

/// `a` and `b` are equal up to ASCII case.
pub open spec fn eq_ignoring_ascii_case(a: Seq<char>, b: Seq<char>) -> bool {
    a.len() == b.len() && forall|i: int| 0 <= i < a.len() ==> #[trigger] ascii_lower(a[i]) == ascii_lower(b[i])
}

fn ascii_lower_exec(c: char) -> (r: u32)
    ensures
        r == ascii_lower(c),
{
    if 'A' <= c && c <= 'Z' {
        (c as u32) + 32
    } else {
        c as u32
    }
}

fn eq_ignoring_case_exec(a: &Vec<char>, b: &Vec<char>) -> (r: bool)
    ensures
        r == eq_ignoring_ascii_case(a@, b@),
{
    if a.len() != b.len() {
        return false;
    }
    let mut i: usize = 0;
    while i < a.len()
        invariant
            a.len() == b.len(),
            i <= a.len(),
            forall|k: int| 0 <= k < i ==> #[trigger] ascii_lower(a@[k]) == ascii_lower(b@[k]),
        decreases a.len() - i,
    {
        if ascii_lower_exec(a[i]) != ascii_lower_exec(b[i]) {
            return false;
        }
        i = i + 1;
    }
    true
}

/// What an answer to a yes/no question means: nothing (after trimming)
/// takes the default, and only `y` or `yes` in any case mean yes.
pub open spec fn confirm_spec(input: Seq<char>, default_yes: bool) -> bool {
    let t = trim_spec(input);
    if t.len() == 0 {
        default_yes
    } else {
        eq_ignoring_ascii_case(t, "y"@) || eq_ignoring_ascii_case(t, "yes"@)
    }
}

/// What an answer to a yes/no question means (see `confirm_spec`).
pub fn confirm_answer(input: &str, default_yes: bool) -> (r: bool)
    ensures
        r == confirm_spec(input@, default_yes),
{
    let t = chars_of(trim(input).as_str());
    if t.len() == 0 {
        return default_yes;
    }
    eq_ignoring_case_exec(&t, &chars_of("y")) || eq_ignoring_case_exec(&t, &chars_of("yes"))
}

/// The hint shown after a yes/no question: the default in brackets.
pub fn confirm_hint(default_yes: bool) -> (r: &'static str)
    ensures
        r@ == (if default_yes { "([Y]/n)"@ } else { "(y/[N])"@ }),
{
    if default_yes { "([Y]/n)" } else { "(y/[N])" }
}

/// An answer to a question with a default: the trimmed answer, or the
/// default when nothing was given.
pub fn answer_or_default(input: &str, default: &str) -> (r: String)
    ensures
        r@ == (if trim_spec(input@).len() == 0 { default@ } else { trim_spec(input@) }),
{
    let t = trim(input);
    if chars_of(t.as_str()).len() == 0 {
        string_of(&chars_of(default))
    } else {
        t
    }
}

/// The position of the first statistics of type `t`, if any.
pub open spec fn stats_index(stats: Seq<(PkgType, TypeStats)>, t: PkgType) -> Option<int>
    decreases stats.len(),
{
    if stats.len() == 0 {
        None
    } else {
        match stats_index(stats.drop_last(), t) {
            Some(i) => Some(i),
            None => if stats.last().0 == t { Some(stats.len() - 1) } else { None },
        }
    }
}

/// The cells of one row of the statistics table.
pub open spec fn stats_row(t: PkgType, d: TypeStats) -> Seq<Seq<char>> {
    seq![pkg_type_name(t), decimal(d.packages as nat), decimal(d.files as nat), d.size_human@, d.status_text@]
}

/// The rows of the statistics table for the types `ts`, in order: one for
/// each type that has statistics with at least one package.
pub open spec fn stats_rows_for(stats: Seq<(PkgType, TypeStats)>, ts: Seq<PkgType>) -> Seq<Seq<Seq<char>>>
    decreases ts.len(),
{
    if ts.len() == 0 {
        Seq::<Seq<Seq<char>>>::empty()
    } else {
        let prev = stats_rows_for(stats, ts.drop_last());
        match stats_index(stats, ts.last()) {
            Some(i) => if stats[i].1.packages > 0 { prev.push(stats_row(ts.last(), stats[i].1)) } else { prev },
            None => prev,
        }
    }
}

/// The syncable types, in table order.
pub open spec fn table_types() -> Seq<PkgType> {
    seq![PkgType::User, PkgType::Config, PkgType::Root, PkgType::WinUser, PkgType::WinRoot]
}

/// The last row of the statistics table: the totals.
pub open spec fn totals_row(pkgs: usize, files: usize, bytes: u64) -> Seq<Seq<char>> {
    seq!["TOTAL"@, decimal(pkgs as nat), decimal(files as nat), fmt_size_spec(bytes), "(synced + pending shown above)"@]
}

fn find_stats(stats: &Vec<(PkgType, TypeStats)>, t: PkgType) -> (r: Option<usize>)
    ensures
        match r {
            Some(i) => stats_index(stats@, t) == Some(i as int) && i < stats@.len(),
            None => stats_index(stats@, t) is None,
        },
{
    let mut i: usize = 0;
    proof {
        assert(stats@.take(0) =~= Seq::<(PkgType, TypeStats)>::empty());
    }
    while i < stats.len()
        invariant
            i <= stats@.len(),
            stats_index(stats@.take(i as int), t) is None,
        decreases stats.len() - i,
    {
        proof {
            assert(stats@.take(i + 1).drop_last() =~= stats@.take(i as int));
            assert(stats@.take(i + 1).last() == stats@[i as int]);
        }
        if stats[i].0 == t {
            proof {
                lemma_stats_index_prefix(stats@, t, i + 1);
            }
            return Some(i);
        }
        i = i + 1;
    }
    proof {
        assert(stats@.take(stats@.len() as int) =~= stats@);
    }
    None
}

proof fn lemma_stats_index_prefix(stats: Seq<(PkgType, TypeStats)>, t: PkgType, n: int)
    requires
        0 < n <= stats.len(),
        stats_index(stats.take(n), t) is Some,
    ensures
        stats_index(stats, t) == stats_index(stats.take(n), t),
    decreases stats.len() - n,
{
    if n < stats.len() {
        assert(stats.take(n + 1).drop_last() =~= stats.take(n));
        lemma_stats_index_prefix(stats, t, n + 1);
    } else {
        assert(stats.take(n) =~= stats);
    }
}

/// The rows of the statistics table: one per syncable type that has
/// packages, in table order, then the totals.
pub fn stats_rows(stats: &Vec<(PkgType, TypeStats)>, total_pkgs: usize, total_files: usize, total_bytes: u64)
    -> (r: Vec<Vec<String>>)
    ensures
        Seq::new(r@.len(), |i: int| Seq::new(r@[i]@.len(), |j: int| r@[i]@[j]@))
            == stats_rows_for(stats@, table_types()).push(totals_row(total_pkgs, total_files, total_bytes)),
{
    let order: [PkgType; 5] = [PkgType::User, PkgType::Config, PkgType::Root, PkgType::WinUser, PkgType::WinRoot];
    let mut rows: Vec<Vec<String>> = Vec::new();
    let mut k: usize = 0;
    proof {
        assert(order@ == table_types());
        assert(table_types().take(0) =~= Seq::<PkgType>::empty());
    }
    while k < 5
        invariant
            k <= 5,
            order@ == table_types(),
            Seq::new(rows@.len(), |i: int| Seq::new(rows@[i]@.len(), |j: int| rows@[i]@[j]@))
                == stats_rows_for(stats@, table_types().take(k as int)),
        decreases 5 - k,
    {
        let t = order[k];
        let ghost before = Seq::new(rows@.len(), |i: int| Seq::new(rows@[i]@.len(), |j: int| rows@[i]@[j]@));
        proof {
            assert(table_types().take(k + 1).drop_last() =~= table_types().take(k as int));
            assert(table_types().take(k + 1).last() == t);
        }
        match find_stats(stats, t) {
            Some(i) => {
                let d = &stats[i].1;
                if d.packages > 0 {
                    let mut row: Vec<String> = Vec::new();
                    row.push(string_of(&chars_of(t.value())));
                    row.push(string_of(&decimal_chars(d.packages as u64)));
                    row.push(string_of(&decimal_chars(d.files as u64)));
                    row.push(string_of(&chars_of(d.size_human.as_str())));
                    row.push(string_of(&chars_of(d.status_text.as_str())));
                    proof {
                        assert(Seq::new(row@.len(), |j: int| row@[j]@) =~= stats_row(t, stats@[i as int].1));
                    }
                    rows.push(row);
                    proof {
                        assert(Seq::new(rows@.len(), |a: int| Seq::new(rows@[a]@.len(), |j: int| rows@[a]@[j]@))
                            =~= before.push(stats_row(t, stats@[i as int].1)));
                    }
                }
            },
            None => {},
        }
        k = k + 1;
    }
    let ghost before = Seq::new(rows@.len(), |i: int| Seq::new(rows@[i]@.len(), |j: int| rows@[i]@[j]@));
    let mut total: Vec<String> = Vec::new();
    total.push("TOTAL".to_string());
    total.push(string_of(&decimal_chars(total_pkgs as u64)));
    total.push(string_of(&decimal_chars(total_files as u64)));
    total.push(fmt_size(total_bytes));
    total.push("(synced + pending shown above)".to_string());
    proof {
        assert(Seq::new(total@.len(), |j: int| total@[j]@) =~= totals_row(total_pkgs, total_files, total_bytes));
    }
    rows.push(total);
    proof {
        assert(table_types().take(5) =~= table_types());
        assert(Seq::new(rows@.len(), |a: int| Seq::new(rows@[a]@.len(), |j: int| rows@[a]@[j]@))
            =~= before.push(totals_row(total_pkgs, total_files, total_bytes)));
    }
    rows
}

} // verus!
