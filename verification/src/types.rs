//! Package types: what a directory suffix means and where a package goes.
use vstd::prelude::*;
use crate::config::{Config, win_user_or_default};
use crate::path::{file_name, is_named_piece, lemma_last_named_part, lemma_trailing_slashes};
use crate::path::file_name_of;
use crate::text::{chars_eq, chars_of, concat_chars, ends_with_chars, seq_ends_with, slice_chars, string_of};

verus! {

/// The kind of a package, named by the suffix of its directory.
#[derive(Debug, Clone, Copy, PartialEq, Eq, Hash, Structural)]
pub enum PkgType {
    User,
    Config,
    Root,
    Meta,
    WinUser,
    WinRoot,
}

/// Every package type, in the order in which suffixes are tried.
pub const ALL_TYPES: [PkgType; 6] = [
    PkgType::User,
    PkgType::Config,
    PkgType::Root,
    PkgType::Meta,
    PkgType::WinUser,
    PkgType::WinRoot,
];

/// The package types that `sync` deploys (all but `meta`).
pub const SYNCABLE_TYPES: [PkgType; 5] = [
    PkgType::User,
    PkgType::Config,
    PkgType::Root,
    PkgType::WinUser,
    PkgType::WinRoot,
];

/// The name of a package type, as written after the dot of a package directory.
pub open spec fn pkg_type_name(t: PkgType) -> Seq<char> {
    match t {
        PkgType::User => seq!['u', 's', 'e', 'r'],
        PkgType::Config => seq!['c', 'o', 'n', 'f', 'i', 'g'],
        PkgType::Root => seq!['r', 'o', 'o', 't'],
        PkgType::Meta => seq!['m', 'e', 't', 'a'],
        PkgType::WinUser => seq!['w', 'i', 'n', 'u', 's', 'e', 'r'],
        PkgType::WinRoot => seq!['w', 'i', 'n', 'r', 'o', 'o', 't'],
    }
}

/// The directory suffix of a package type: a dot and its name.
pub open spec fn type_suffix(t: PkgType) -> Seq<char> {
    seq!['.'] + pkg_type_name(t)
}

/// The package type whose name is `s`, if any.
pub open spec fn type_named(s: Seq<char>) -> Option<PkgType> {
    if s == pkg_type_name(PkgType::User) { Some(PkgType::User) }
    else if s == pkg_type_name(PkgType::Config) { Some(PkgType::Config) }
    else if s == pkg_type_name(PkgType::Root) { Some(PkgType::Root) }
    else if s == pkg_type_name(PkgType::Meta) { Some(PkgType::Meta) }
    else if s == pkg_type_name(PkgType::WinUser) { Some(PkgType::WinUser) }
    else if s == pkg_type_name(PkgType::WinRoot) { Some(PkgType::WinRoot) }
    else { None }
}

/// A directory name carries the suffix of `t` after at least one character.
pub open spec fn has_type_suffix(name: Seq<char>, t: PkgType) -> bool {
    seq_ends_with(name, type_suffix(t)) && name.len() > type_suffix(t).len()
}

/// The type a directory name declares: the first type, in `ALL_TYPES` order,
/// whose suffix it carries.
pub open spec fn type_of_dir_name(name: Seq<char>) -> Option<PkgType> {
    if has_type_suffix(name, PkgType::User) { Some(PkgType::User) }
    else if has_type_suffix(name, PkgType::Config) { Some(PkgType::Config) }
    else if has_type_suffix(name, PkgType::Root) { Some(PkgType::Root) }
    else if has_type_suffix(name, PkgType::Meta) { Some(PkgType::Meta) }
    else if has_type_suffix(name, PkgType::WinUser) { Some(PkgType::WinUser) }
    else if has_type_suffix(name, PkgType::WinRoot) { Some(PkgType::WinRoot) }
    else { None }
}

/// What `parse_app_arg` makes of an argument: the final path component (or
/// the whole argument when there is none), split into a type and a name when
/// it carries a type suffix.
pub open spec fn app_arg(raw: Seq<char>) -> (Option<PkgType>, Seq<char>) {
    let name = match file_name(raw) {
        Some(n) => n,
        None => raw,
    };
    if name.len() == 0 {
        (None, raw)
    } else {
        match type_of_dir_name(name) {
            Some(t) => (Some(t), name.subrange(0, name.len() - type_suffix(t).len())),
            None => (None, name),
        }
    }
}

/// The label under which a package type's target is shown.
pub open spec fn type_label_text(t: PkgType, win_user: Option<Seq<char>>) -> Seq<char> {
    match t {
        PkgType::User => seq!['~'],
        PkgType::Config => seq!['~', '/', '.', 'c', 'o', 'n', 'f', 'i', 'g'],
        PkgType::Root => seq!['/'],
        PkgType::Meta => seq!['m', 'a', 'n', 'u', 'a', 'l'],
        PkgType::WinUser => seq!['C', ':', '\\', 'U', 's', 'e', 'r', 's', '\\'] + win_user_or_default(win_user),
        PkgType::WinRoot => seq!['C', ':', '\\'],
    }
}

impl PkgType {
    /// The name of this type.
    pub fn value(&self) -> (r: &'static str)
        ensures
            r@ == pkg_type_name(*self),
    {
        match self {
            PkgType::User => {
                proof { reveal_strlit("user"); }
                "user"
            },
            PkgType::Config => {
                proof { reveal_strlit("config"); }
                "config"
            },
            PkgType::Root => {
                proof { reveal_strlit("root"); }
                "root"
            },
            PkgType::Meta => {
                proof { reveal_strlit("meta"); }
                "meta"
            },
            PkgType::WinUser => {
                proof { reveal_strlit("winuser"); }
                "winuser"
            },
            PkgType::WinRoot => {
                proof { reveal_strlit("winroot"); }
                "winroot"
            },
        }
    }

    /// The directory suffix of this type, such as `.config`.
    pub fn suffix(&self) -> (r: String)
        ensures
            r@ == type_suffix(*self),
    {
        let mut dot: Vec<char> = Vec::new();
        dot.push('.');
        let s = concat_chars(&dot, &chars_of(self.value()));
        proof {
            assert(dot@ =~= seq!['.']);
        }
        string_of(&s)
    }

    /// Only `root` packages need sudo to be deployed.
    pub fn needs_sudo(&self) -> (r: bool)
        ensures
            r == (*self == PkgType::Root),
    {
        matches!(self, PkgType::Root)
    }

    /// The Linux types, deployed with GNU Stow.
    pub fn uses_stow(&self) -> (r: bool)
        ensures
            r == (*self == PkgType::User || *self == PkgType::Config || *self == PkgType::Root),
    {
        matches!(self, PkgType::User | PkgType::Config | PkgType::Root)
    }

    /// The Windows types, deployed by copying.
    pub fn uses_copy_sync(&self) -> (r: bool)
        ensures
            r == (*self == PkgType::WinUser || *self == PkgType::WinRoot),
    {
        matches!(self, PkgType::WinUser | PkgType::WinRoot)
    }

    /// The types whose target lies on the Windows side.
    pub fn is_windows(&self) -> (r: bool)
        ensures
            r == (*self == PkgType::WinUser || *self == PkgType::WinRoot),
    {
        matches!(self, PkgType::WinUser | PkgType::WinRoot)
    }

    /// The types whose sources live in the Linux home directory.
    pub fn is_linux_config(&self) -> (r: bool)
        ensures
            r == (*self == PkgType::User || *self == PkgType::Config),
    {
        matches!(self, PkgType::User | PkgType::Config)
    }

    /// Where packages of this type are deployed; `meta` packages go nowhere.
    pub fn sync_target(&self, cfg: &Config) -> (r: Option<String>)
        ensures
            match r {
                Some(t) => cfg.target_of(*self) == Some(t@),
                None => cfg.target_of(*self) is None,
            },
    {
        match self {
            PkgType::User => Some(cfg.user_target()),
            PkgType::Config => Some(cfg.config_target()),
            PkgType::Root => Some(cfg.root_target()),
            PkgType::WinUser => Some(cfg.winuser_target()),
            PkgType::WinRoot => Some(cfg.winroot_target()),
            PkgType::Meta => None,
        }
    }
}

/// The package type named `s`, if any.
pub fn parse_pkg_type(s: &str) -> (r: Option<PkgType>)
    ensures
        r == type_named(s@),
{
    let v = chars_of(s);
    let candidates = ALL_TYPES;
    let mut i: usize = 0;
    while i < 6
        invariant
            i <= 6,
            candidates == ALL_TYPES,
            v@ == s@,
            forall|k: int| 0 <= k < i ==> v@ != pkg_type_name(#[trigger] candidates[k]),
        decreases 6 - i,
    {
        let t = candidates[i];
        if chars_eq(&v, &chars_of(t.value())) {
            proof { lemma_type_named(t); }
            return Some(t);
        }
        i = i + 1;
    }
    proof {
        assert(v@ != pkg_type_name(candidates[0]));
        assert(v@ != pkg_type_name(candidates[1]));
        assert(v@ != pkg_type_name(candidates[2]));
        assert(v@ != pkg_type_name(candidates[3]));
        assert(v@ != pkg_type_name(candidates[4]));
        assert(v@ != pkg_type_name(candidates[5]));
    }
    None
}

/// Every type's name reads back as that type.
pub proof fn lemma_type_named(t: PkgType)
    ensures
        type_named(pkg_type_name(t)) == Some(t),
{
    let u = pkg_type_name(PkgType::User);
    let c = pkg_type_name(PkgType::Config);
    let r = pkg_type_name(PkgType::Root);
    let m = pkg_type_name(PkgType::Meta);
    let wu = pkg_type_name(PkgType::WinUser);
    let wr = pkg_type_name(PkgType::WinRoot);
    assert(u != c && u != r && u != m && u != wu && u != wr) by {
        assert(u.len() != c.len() && u[0] != r[0] && u[0] != m[0] && u.len() != wu.len() && u.len() != wr.len());
    }
    assert(c != r && c != m && c != wu && c != wr) by {
        assert(c.len() != r.len() && c.len() != m.len() && c.len() != wu.len() && c.len() != wr.len());
    }
    assert(r != m && r != wu && r != wr) by {
        assert(r[0] != m[0] && r.len() != wu.len() && r.len() != wr.len());
    }
    assert(m != wu && m != wr) by {
        assert(m.len() != wu.len() && m.len() != wr.len());
    }
    assert(wu != wr) by {
        assert(wu[3] != wr[3]);
    }
}

/// Whether a directory name carries the suffix of `t`.
fn has_type_suffix_exec(name: &Vec<char>, t: PkgType) -> (r: bool)
    ensures
        r == has_type_suffix(name@, t),
{
    let suffix = chars_of(t.suffix().as_str());
    ends_with_chars(name, &suffix) && name.len() > suffix.len()
}

/// The type a package directory name declares by its suffix, if any.
pub fn type_from_dir_name(name: &str) -> (r: Option<PkgType>)
    ensures
        r == type_of_dir_name(name@),
{
    let v = chars_of(name);
    if has_type_suffix_exec(&v, PkgType::User) { Some(PkgType::User) }
    else if has_type_suffix_exec(&v, PkgType::Config) { Some(PkgType::Config) }
    else if has_type_suffix_exec(&v, PkgType::Root) { Some(PkgType::Root) }
    else if has_type_suffix_exec(&v, PkgType::Meta) { Some(PkgType::Meta) }
    else if has_type_suffix_exec(&v, PkgType::WinUser) { Some(PkgType::WinUser) }
    else if has_type_suffix_exec(&v, PkgType::WinRoot) { Some(PkgType::WinRoot) }
    else { None }
}

/// Splits a package argument (a name or a path such as `./git.config/`) into
/// the type its suffix declares, if any, and the package name.
pub fn parse_app_arg(raw: &str) -> (r: (Option<PkgType>, String))
    ensures
        r.0 == app_arg(raw@).0,
        r.1@ == app_arg(raw@).1,
{
    let raw_chars = chars_of(raw);
    let name = match file_name_of(&raw_chars) {
        Some(n) => n,
        None => raw_chars.clone(),
    };
    if name.len() == 0 {
        return (None, raw.to_owned());
    }
    let name_str = string_of(&name);
    match type_from_dir_name(name_str.as_str()) {
        Some(t) => {
            let suffix_len = chars_of(t.suffix().as_str()).len();
            (Some(t), string_of(&slice_chars(&name, 0, name.len() - suffix_len)))
        },
        None => (None, name_str),
    }
}


/// The label under which a package type's target is shown, such as
/// `~/.config` or `C:\Users\<name>`.
pub fn type_label(pt: PkgType, win_user: Option<&str>) -> (r: String)
    ensures
        r@ == type_label_text(pt, match win_user { Some(u) => Some(u@), None => None }),
{
    match pt {
        PkgType::User => {
            proof { reveal_strlit("~"); }
            "~".to_owned()
        },
        PkgType::Config => {
            proof { reveal_strlit("~/.config"); }
            "~/.config".to_owned()
        },
        PkgType::Root => {
            proof { reveal_strlit("/"); }
            "/".to_owned()
        },
        PkgType::Meta => {
            proof { reveal_strlit("manual"); }
            "manual".to_owned()
        },
        PkgType::WinUser => {
            proof {
                reveal_strlit("C:\\Users\\");
                reveal_strlit("user");
            }
            let user = match win_user {
                Some(u) => chars_of(u),
                None => chars_of("user"),
            };
            string_of(&concat_chars(&chars_of("C:\\Users\\"), &user))
        },
        PkgType::WinRoot => {
            proof { reveal_strlit("C:\\"); }
            "C:\\".to_owned()
        },
    }
}

impl core::str::FromStr for PkgType {
    type Err = String;

    fn from_str(s: &str) -> (r: Result<PkgType, String>)
        ensures
            match r {
                Ok(t) => type_named(s@) == Some(t),
                Err(e) => type_named(s@) is None && e@ == "unknown package type: "@ + s@,
            },
    {
        proof { reveal_strlit("unknown package type: "); }
        match parse_pkg_type(s) {
            Some(t) => Ok(t),
            None => {
                let msg = concat_chars(&chars_of("unknown package type: "), &chars_of(s));
                Err(string_of(&msg))
            },
        }
    }
}

/// A package argument names its package through any directory prefix and
/// any trailing slashes: `<dir>/<name>.<type>/` gives the type and the name.
pub proof fn lemma_app_arg_path(dir: Seq<char>, name: Seq<char>, t: PkgType, tail: Seq<char>)
    requires
        name.len() > 0,
        !name.contains('/'),
        dir.len() == 0 || dir.last() == '/',
        forall|i: int| 0 <= i < tail.len() ==> tail[i] == '/',
    ensures
        app_arg(dir + name + type_suffix(t) + tail) == (Some(t), name),
{
    let d = name + type_suffix(t);
    let su = type_suffix(t);
    assert(!su.contains('/')) by {
        assert forall|i: int| 0 <= i < su.len() implies su[i] != '/' by {
            match t {
                PkgType::User => {},
                PkgType::Config => {},
                PkgType::Root => {},
                PkgType::Meta => {},
                PkgType::WinUser => {},
                PkgType::WinRoot => {},
            }
        }
    }
    assert(!d.contains('/')) by {
        assert forall|i: int| 0 <= i < d.len() implies d[i] != '/' by {
            if i < name.len() {
                assert(d[i] == name[i]);
            } else {
                assert(d[i] == su[i - name.len()]);
            }
        }
    }
    assert(is_named_piece(d)) by {
        assert(d.len() > 1);
        assert(d.len() != seq!['.'].len());
    }
    lemma_last_named_part(dir, d);
    assert(dir + name + type_suffix(t) + tail =~= (dir + d) + tail);
    lemma_trailing_slashes(dir + d, tail);
    assert(d != seq!['.', '.']) by {
        assert(d.len() > 2);
    }
    assert(file_name(dir + name + type_suffix(t) + tail) == Some(d));
    lemma_dir_name_roundtrip(name, t);
}

/// A name followed by a type's suffix is a directory of that type, and
/// stripping the suffix gives the name back.
pub proof fn lemma_dir_name_roundtrip(name: Seq<char>, t: PkgType)
    requires
        name.len() > 0,
    ensures
        type_of_dir_name(name + type_suffix(t)) == Some(t),
        ({
            let d = name + type_suffix(t);
            d.subrange(0, d.len() - type_suffix(t).len()) == name
        }),
{
    let d = name + type_suffix(t);
    let n = d.len();
    assert(d.subrange(n - type_suffix(t).len(), n as int) =~= type_suffix(t));
    assert(d.subrange(0, n - type_suffix(t).len()) =~= name);
    assert(forall|k: int| 0 <= k < type_suffix(t).len() ==> d[n - type_suffix(t).len() + k] == #[trigger] type_suffix(t)[k]);
    assert forall|u: PkgType| u != t implies !has_type_suffix(d, u) by {
        let su = type_suffix(u);
        let st = type_suffix(t);
        if has_type_suffix(d, u) {
            assert(d.subrange(n - su.len(), n as int) == su);
            assert(forall|k: int| 0 <= k < su.len() ==> d[n - su.len() + k] == #[trigger] su[k]);
            if su.len() <= st.len() {
                assert(forall|k: int| 0 <= k < su.len() ==> st[st.len() - su.len() + k] == #[trigger] su[k]);
                assert(st[st.len() - su.len()] == su[0]);
                assert(st[st.len() - 1] == su[su.len() - 1]);
                assert(st[st.len() - 2] == su[su.len() - 2]);
            } else {
                assert(forall|k: int| 0 <= k < st.len() ==> su[su.len() - st.len() + k] == #[trigger] st[k]);
                assert(su[su.len() - st.len()] == st[0]);
                assert(su[su.len() - 1] == st[st.len() - 1]);
                assert(su[su.len() - 2] == st[st.len() - 2]);
            }
        }
    }
}

} // verus!
