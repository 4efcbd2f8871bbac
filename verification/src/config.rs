//! Settings, as derived from the environment variables the tool reads.
use vstd::prelude::*;
use crate::path::join;
use crate::path::join_exec;
use crate::text::{chars_of, concat_chars, string_of};
use crate::types::PkgType;

verus! {

/// The file-name patterns that are never synced or counted.
pub const EXCLUDE_PATTERNS: [&'static str; 10] = [
    ".git",
    ".pixi",
    "__pycache__",
    "node_modules",
    ".mypy_cache",
    ".ruff_cache",
    "*.pyc",
    ".DS_Store",
    "Thumbs.db",
    ".wots_index.json",
];

/// The raw values of the environment variables the tool reads; `None` when a
/// variable is unset.
pub struct EnvVars {
    pub home: Option<String>,
    pub dotfiles_dir: Option<String>,
    pub wsl_distro: Option<String>,
    pub win_user: Option<String>,
    pub wsl_mnt: Option<String>,
    pub wots_concurrent: Option<String>,
    pub wots_max_size_mb: Option<String>,
}

/// The settings the rest of the tool works with.
pub struct Config {
    /// The Linux home directory (`HOME`, else `/`).
    pub home: String,
    /// The repository root (`DOTFILES_DIR`, else `HOME/dotfiles`).
    pub dotfiles_dir: String,
    /// The WSL distribution name (`WSL_DISTRO`, else `archlinux`).
    pub wsl_distro_name: String,
    /// The Windows user name (`WIN_USER`), if set.
    pub win_username: Option<String>,
    /// Where the Windows `C:` drive is mounted (`WSL_MNT`, else `/mnt/c`).
    pub mnt_c: String,
    /// The most copies run at once (`WOTS_CONCURRENT`, else 8).
    pub sync_max_concurrent: usize,
    /// Files larger than this many bytes are skipped (`WOTS_MAX_SIZE_MB` MiB, else 50 MiB).
    pub max_sync_size_bytes: u64,
}

/// The view of an optional string.
pub open spec fn opt_view(o: Option<String>) -> Option<Seq<char>> {
    match o {
        Some(s) => Some(s@),
        None => None,
    }
}

/// A value, or a default when it is absent.
pub open spec fn or_default(o: Option<Seq<char>>, d: Seq<char>) -> Seq<char> {
    match o {
        Some(s) => s,
        None => d,
    }
}

/// The Windows user name, or `user` when none is set.
pub open spec fn win_user_or_default(o: Option<Seq<char>>) -> Seq<char> {
    or_default(o, seq!['u', 's', 'e', 'r'])
}

/// `c` is a decimal digit.
pub open spec fn is_digit(c: char) -> bool {
    '0' <= c && c <= '9'
}

/// The number written by a sequence of decimal digits.
pub open spec fn digits_value(s: Seq<char>) -> nat
    decreases s.len(),
{
    if s.len() == 0 {
        0
    } else {
        digits_value(s.drop_last()) * 10 + (s.last() as nat - '0' as nat) as nat
    }
}

/// The digits of an unsigned integer literal: all but a leading `+`.
pub open spec fn unsigned_body(s: Seq<char>) -> Seq<char> {
    if s.len() > 0 && s[0] == '+' { s.skip(1) } else { s }
}

/// Every character of `s` is a decimal digit.
pub open spec fn all_digits(s: Seq<char>) -> bool {
    forall|i: int| 0 <= i < s.len() ==> #[trigger] is_digit(s[i])
}

/// The number an unsigned integer literal denotes, as Rust's `from_str` for
/// unsigned types reads it: an optional `+`, then one or more decimal digits.
pub open spec fn parse_unsigned(s: Seq<char>) -> Option<nat> {
    let body = unsigned_body(s);
    if body.len() > 0 && all_digits(body) {
        Some(digits_value(body))
    } else {
        None
    }
}

/// `s` read as an unsigned integer no larger than `max`.
pub open spec fn parse_bounded(s: Seq<char>, max: nat) -> Option<nat> {
    match parse_unsigned(s) {
        Some(v) => if v <= max { Some(v) } else { None },
        None => None,
    }
}

/// The concurrency limit for an optional `WOTS_CONCURRENT` value.
pub open spec fn concurrency_of(v: Option<Seq<char>>) -> nat {
    match v {
        Some(s) => match parse_bounded(s, usize::MAX as nat) {
            Some(n) => n,
            None => 8,
        },
        None => 8,
    }
}

/// The size limit in MiB for an optional `WOTS_MAX_SIZE_MB` value.
pub open spec fn size_limit_mb_of(v: Option<Seq<char>>) -> nat {
    match v {
        Some(s) => match parse_bounded(s, u64::MAX as nat) {
            Some(n) => n,
            None => 50,
        },
        None => 50,
    }
}

/// The size limit in bytes: MiB times 1024 * 1024, wrapping at 2^64 as the
/// release build's `u64` multiplication does.
pub open spec fn size_limit_bytes_of(v: Option<Seq<char>>) -> nat {
    (size_limit_mb_of(v) * 1048576) % 0x1_0000_0000_0000_0000
}

proof fn lemma_digits_prefix_le(s: Seq<char>, i: int)
    requires
        0 <= i <= s.len(),
        all_digits(s),
    ensures
        digits_value(s.take(i)) <= digits_value(s),
    decreases s.len() - i,
{
    if i < s.len() {
        lemma_digits_prefix_le(s, i + 1);
        assert(s.take(i + 1).drop_last() =~= s.take(i));
        let a = digits_value(s.take(i));
        assert(a * 10 >= a) by (nonlinear_arith);
    } else {
        assert(s.take(i) =~= s);
    }
}

/// `s` read as an unsigned integer no larger than `max` (`u64::from_str`
/// and `usize::from_str` when `max` is their largest value).
pub fn parse_bounded_exec(s: &str, max: u64) -> (r: Option<u64>)
    ensures
        match r {
            Some(v) => parse_bounded(s@, max as nat) == Some(v as nat),
            None => parse_bounded(s@, max as nat) is None,
        },
{
    let chars = chars_of(s);
    let start: usize = if chars.len() > 0 && chars[0] == '+' { 1 } else { 0 };
    let ghost body = unsigned_body(s@);
    proof {
        assert(body =~= chars@.skip(start as int));
    }
    if start >= chars.len() {
        return None;
    }
    let mut value: u64 = 0;
    let mut i = start;
    while i < chars.len()
        invariant
            start <= i <= chars.len(),
            chars@ == s@,
            body == unsigned_body(s@),
            body == chars@.skip(start as int),
            forall|k: int| start <= k < i ==> #[trigger] is_digit(chars@[k]),
            value as nat == digits_value(chars@.subrange(start as int, i as int)),
            value <= max,
        decreases chars.len() - i,
    {
        let c = chars[i];
        if !('0' <= c && c <= '9') {
            proof {
                assert(body[i - start] == c);
                assert(!is_digit(body[i - start]));
            }
            return None;
        }
        let d: u64 = (c as u64) - ('0' as u64);
        let ghost pre = chars@.subrange(start as int, i + 1);
        proof {
            assert(pre.drop_last() =~= chars@.subrange(start as int, i as int));
            assert(pre.last() == c);
            assert(digits_value(pre) == value * 10 + d);
        }
        let mut ok = false;
        let mut n: u64 = 0;
        match value.checked_mul(10) {
            Some(m) => match m.checked_add(d) {
                Some(x) => {
                    if x <= max {
                        ok = true;
                        n = x;
                    }
                },
                None => {},
            },
            None => {},
        }
        if !ok {
            proof {
                assert(value * 10 + d > max);
                if all_digits(body) {
                    assert(body.take(i + 1 - start) =~= pre);
                    lemma_digits_prefix_le(body, i + 1 - start);
                }
            }
            return None;
        }
        value = n;
        i = i + 1;
    }
    proof {
        assert(chars@.subrange(start as int, chars.len() as int) =~= body);
    }
    Some(value)
}

impl Config {
    /// The settings for the given environment values.
    pub fn from_env(env: &EnvVars) -> (c: Config)
        ensures
            c.home@ == or_default(opt_view(env.home), seq!['/']),
            c.dotfiles_dir@ == match env.dotfiles_dir {
                Some(d) => d@,
                None => join(c.home@, seq!['d', 'o', 't', 'f', 'i', 'l', 'e', 's']),
            },
            c.wsl_distro_name@ == or_default(
                opt_view(env.wsl_distro),
                seq!['a', 'r', 'c', 'h', 'l', 'i', 'n', 'u', 'x'],
            ),
            opt_view(c.win_username) == opt_view(env.win_user),
            c.mnt_c@ == or_default(opt_view(env.wsl_mnt), seq!['/', 'm', 'n', 't', '/', 'c']),
            c.sync_max_concurrent as nat == concurrency_of(opt_view(env.wots_concurrent)),
            c.max_sync_size_bytes as nat == size_limit_bytes_of(opt_view(env.wots_max_size_mb)),
    {
        let home = match &env.home {
            Some(h) => h.clone(),
            None => {
                proof { reveal_strlit("/"); }
                "/".to_owned()
            },
        };
        let dotfiles_dir = match &env.dotfiles_dir {
            Some(d) => d.clone(),
            None => {
                proof { reveal_strlit("dotfiles"); }
                string_of(&join_exec(&chars_of(home.as_str()), &chars_of("dotfiles")))
            },
        };
        let wsl_distro_name = match &env.wsl_distro {
            Some(d) => d.clone(),
            None => {
                proof { reveal_strlit("archlinux"); }
                "archlinux".to_owned()
            },
        };
        let win_username = match &env.win_user {
            Some(u) => Some(u.clone()),
            None => None,
        };
        let mnt_c = match &env.wsl_mnt {
            Some(m) => m.clone(),
            None => {
                proof { reveal_strlit("/mnt/c"); }
                "/mnt/c".to_owned()
            },
        };
        let sync_max_concurrent: usize = match &env.wots_concurrent {
            Some(v) => match parse_bounded_exec(v.as_str(), usize::MAX as u64) {
                Some(n) => n as usize,
                None => 8,
            },
            None => 8,
        };
        let mb: u64 = match &env.wots_max_size_mb {
            Some(v) => match parse_bounded_exec(v.as_str(), u64::MAX) {
                Some(n) => n,
                None => 50,
            },
            None => 50,
        };
        let max_sync_size_bytes = mb.wrapping_mul(1048576);
        Config {
            home,
            dotfiles_dir,
            wsl_distro_name,
            win_username,
            mnt_c,
            sync_max_concurrent,
            max_sync_size_bytes,
        }
    }

    /// Where a package type is deployed under these settings.
    pub open spec fn target_of(&self, t: PkgType) -> Option<Seq<char>> {
        match t {
            PkgType::User => Some(self.home@),
            PkgType::Config => Some(join(self.home@, seq!['.', 'c', 'o', 'n', 'f', 'i', 'g'])),
            PkgType::Root => Some(seq!['/']),
            PkgType::Meta => None,
            PkgType::WinUser => Some(self.winuser_target_spec()),
            PkgType::WinRoot => Some(seq!['C', ':', '/']),
        }
    }

    /// The Windows home directory, as a `C:/Users/<name>` path.
    pub open spec fn winuser_target_spec(&self) -> Seq<char> {
        seq!['C', ':', '/', 'U', 's', 'e', 'r', 's', '/'] + win_user_or_default(opt_view(self.win_username))
    }

    /// The Windows user name, or `user`.
    pub fn win_user(&self) -> (r: String)
        ensures
            r@ == win_user_or_default(opt_view(self.win_username)),
    {
        match &self.win_username {
            Some(u) => u.clone(),
            None => {
                proof { reveal_strlit("user"); }
                "user".to_owned()
            },
        }
    }

    /// The target of `user` packages: the home directory.
    pub fn user_target(&self) -> (r: String)
        ensures
            r@ == self.home@,
    {
        self.home.clone()
    }

    /// The target of `config` packages: `~/.config`.
    pub fn config_target(&self) -> (r: String)
        ensures
            r@ == join(self.home@, seq!['.', 'c', 'o', 'n', 'f', 'i', 'g']),
    {
        proof { reveal_strlit(".config"); }
        string_of(&join_exec(&chars_of(self.home.as_str()), &chars_of(".config")))
    }

    /// `~/.local`.
    pub fn local_target(&self) -> (r: String)
        ensures
            r@ == join(self.home@, seq!['.', 'l', 'o', 'c', 'a', 'l']),
    {
        proof { reveal_strlit(".local"); }
        string_of(&join_exec(&chars_of(self.home.as_str()), &chars_of(".local")))
    }

    /// The target of `root` packages: `/`.
    pub fn root_target(&self) -> (r: String)
        ensures
            r@ == seq!['/'],
    {
        proof { reveal_strlit("/"); }
        "/".to_owned()
    }

    /// The target of `winuser` packages: `C:/Users/<name>`.
    pub fn winuser_target(&self) -> (r: String)
        ensures
            r@ == self.winuser_target_spec(),
    {
        proof { reveal_strlit("C:/Users/"); }
        let user = self.win_user();
        string_of(&concat_chars(&chars_of("C:/Users/"), &chars_of(user.as_str())))
    }

    /// `C:/Users/<name>/.config`.
    pub fn winconfig_target(&self) -> (r: String)
        ensures
            r@ == join(self.winuser_target_spec(), seq!['.', 'c', 'o', 'n', 'f', 'i', 'g']),
    {
        proof { reveal_strlit(".config"); }
        let base = self.winuser_target();
        string_of(&join_exec(&chars_of(base.as_str()), &chars_of(".config")))
    }

    /// `C:/Users/<name>/AppData/Local`.
    pub fn winlocal_target(&self) -> (r: String)
        ensures
            r@ == join(
                join(self.winuser_target_spec(), seq!['A', 'p', 'p', 'D', 'a', 't', 'a']),
                seq!['L', 'o', 'c', 'a', 'l'],
            ),
    {
        proof {
            reveal_strlit("AppData");
            reveal_strlit("Local");
        }
        let base = self.winuser_target();
        let app = join_exec(&chars_of(base.as_str()), &chars_of("AppData"));
        string_of(&join_exec(&app, &chars_of("Local")))
    }

    /// `C:/Users/<name>/AppData/Roaming`.
    pub fn winroaming_target(&self) -> (r: String)
        ensures
            r@ == join(
                join(self.winuser_target_spec(), seq!['A', 'p', 'p', 'D', 'a', 't', 'a']),
                seq!['R', 'o', 'a', 'm', 'i', 'n', 'g'],
            ),
    {
        proof {
            reveal_strlit("AppData");
            reveal_strlit("Roaming");
        }
        let base = self.winuser_target();
        let app = join_exec(&chars_of(base.as_str()), &chars_of("AppData"));
        string_of(&join_exec(&app, &chars_of("Roaming")))
    }

    /// The target of `winroot` packages: `C:/`.
    pub fn winroot_target(&self) -> (r: String)
        ensures
            r@ == seq!['C', ':', '/'],
    {
        proof { reveal_strlit("C:/"); }
        "C:/".to_owned()
    }
}

} // verus!
