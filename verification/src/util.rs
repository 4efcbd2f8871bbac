//! Exclusion rules and size formatting.
use vstd::prelude::*;
use crate::config::EXCLUDE_PATTERNS;
use crate::path::{components, components_of};
use crate::text::{chars_eq, chars_of, decimal, decimal_chars, digit_char, has_char, has_char_exec, string_of};

verus! {

/// Declares `glob::Pattern`, a compiled shell pattern.
#[verifier::external_type_specification]
#[verifier::external_body]
pub struct ExGlobPattern(glob::Pattern);

/// Whether `glob::Pattern::new` accepts the pattern text.
pub uninterp spec fn glob_compiles(pattern: Seq<char>) -> bool;

/// Whether the pattern compiled from the first text matches the second, by
/// `glob::Pattern::matches` (default match options).
pub uninterp spec fn glob_matches(pattern: Seq<char>, name: Seq<char>) -> bool;

/// A shell pattern compiled by the glob crate, together with its source text.
pub struct GlobPattern {
    inner: glob::Pattern,
    source: String,
}

impl GlobPattern {
    /// The text the pattern was compiled from.
    pub closed spec fn source(&self) -> Seq<char> {
        self.source@
    }
}

/// An invalid shell pattern: where the problem was found and what it is.
#[derive(Debug)]
pub struct GlobError {
    pub pos: usize,
    pub msg: String,
}

/// Calls `glob::Pattern::new`, which compiles a shell pattern. The contract
/// claims only that it succeeds exactly on the texts named `glob_compiles`;
/// the error is passed on field by field.
#[verifier::external_body]
fn glob_pattern_new(pattern: &str) -> (r: Result<glob::Pattern, GlobError>)
    ensures
        r is Ok <==> glob_compiles(pattern@),
{
    match glob::Pattern::new(pattern) {
        Ok(p) => Ok(p),
        Err(e) => Err(GlobError { pos: e.pos, msg: e.msg.to_string() }),
    }
}

/// Calls `glob::Pattern::matches` on the compiled pattern. The contract
/// claims that the answer is `glob_matches` of the text the pattern was
/// compiled from (`compile_glob` is the only maker of a `GlobPattern`).
#[verifier::external_body]
fn glob_pattern_matches(g: &GlobPattern, name: &str) -> (r: bool)
    ensures
        r == glob_matches(g.source(), name@),
{
    g.inner.matches(name)
}

/// Compiles a shell pattern.
pub fn compile_glob(pattern: &str) -> (r: Result<GlobPattern, GlobError>)
    ensures
        r is Ok <==> glob_compiles(pattern@),
        r matches Ok(g) ==> g.source() == pattern@,
{
    match glob_pattern_new(pattern) {
        Ok(p) => Ok(GlobPattern { inner: p, source: string_of(&chars_of(pattern)) }),
        Err(e) => Err(e),
    }
}

/// The pattern holds a wildcard (`*` or `?`).
pub open spec fn has_wildcard(p: Seq<char>) -> bool {
    has_char(p, '*') || has_char(p, '?')
}

/// Whether `name` matches `pattern`: an exact match always does; a pattern
/// without wildcards matches nothing else; one with wildcards is handed to
/// the glob crate, whose refusal is an error (`None`).
pub open spec fn glob_match_spec(pattern: Seq<char>, name: Seq<char>) -> Option<bool> {
    if pattern == name {
        Some(true)
    } else if !has_wildcard(pattern) {
        Some(false)
    } else if !glob_compiles(pattern) {
        None
    } else {
        Some(glob_matches(pattern, name))
    }
}

/// Whether `name` matches the shell pattern `pattern` (see `glob_match_spec`).
pub fn glob_match(pattern: &str, name: &str) -> (r: Result<bool, GlobError>)
    ensures
        match r {
            Ok(b) => glob_match_spec(pattern@, name@) == Some(b),
            Err(_) => glob_match_spec(pattern@, name@) is None,
        },
{
    let p = chars_of(pattern);
    if chars_eq(&p, &chars_of(name)) {
        return Ok(true);
    }
    if !has_char_exec(&p, '*') && !has_char_exec(&p, '?') {
        return Ok(false);
    }
    let g = compile_glob(pattern)?;
    Ok(glob_pattern_matches(&g, name))
}

/// The `j`-th pattern of the exclusion list.
pub open spec fn exclude_pattern(j: int) -> Seq<char> {
    EXCLUDE_PATTERNS@[j]@
}

/// Some component of `path` matches some exclusion pattern.
pub open spec fn is_excluded_spec(path: Seq<char>) -> bool {
    exists|i: int, j: int|
        0 <= i < components(path).len() && 0 <= j < 10
            && #[trigger] glob_match_spec(exclude_pattern(j), components(path)[i]) == Some(true)
}

/// Whether some component of `path` matches one of the exclusion patterns;
/// a pattern the glob crate refuses excludes nothing.
pub fn is_excluded(path: &str) -> (r: bool)
    ensures
        r == is_excluded_spec(path@),
{
    let cs = components_of(&chars_of(path));
    let ghost comps = components(path@);
    let mut i: usize = 0;
    while i < cs.len()
        invariant
            i <= cs@.len(),
            cs@.len() == comps.len(),
            forall|k: int| 0 <= k < cs@.len() ==> #[trigger] cs@[k]@ == comps[k],
            comps == components(path@),
            forall|a: int, b: int| 0 <= a < i && 0 <= b < 10
                ==> #[trigger] glob_match_spec(exclude_pattern(b), comps[a]) != Some(true),
        decreases cs.len() - i,
    {
        let part = string_of(&cs[i]);
        let mut j: usize = 0;
        while j < EXCLUDE_PATTERNS.len()
            invariant
                i < cs@.len(),
                cs@.len() == comps.len(),
                comps == components(path@),
                part@ == comps[i as int],
                j <= 10,
                forall|b: int| 0 <= b < j ==> #[trigger] glob_match_spec(exclude_pattern(b), comps[i as int]) != Some(true),
            decreases 10 - j,
        {
            let pat: &str = EXCLUDE_PATTERNS[j];
            match glob_match(pat, part.as_str()) {
                Ok(true) => {
                    proof {
                        assert(glob_match_spec(exclude_pattern(j as int), components(path@)[i as int]) == Some(true));
                    }
                    return true;
                },
                _ => {},
            }
            j = j + 1;
        }
        i = i + 1;
    }
    false
}

/// The directory names that a walk of a package never enters.
pub const QUICK_EXCLUDE_DIRS: [&'static str; 7] = [
    ".git",
    "__pycache__",
    "node_modules",
    ".mypy_cache",
    ".ruff_cache",
    ".pixi",
    ".wots_index",
];

/// Whether a walk may enter an entry of this name: true unless the name is
/// one of `QUICK_EXCLUDE_DIRS`.
pub fn is_quick_exclude_dir(name: &str) -> (r: bool)
    ensures
        r == !(exists|j: int| 0 <= j < 7 && #[trigger] QUICK_EXCLUDE_DIRS@[j]@ == name@),
{
    let n = chars_of(name);
    let mut j: usize = 0;
    while j < QUICK_EXCLUDE_DIRS.len()
        invariant
            j <= 7,
            n@ == name@,
            forall|b: int| 0 <= b < j ==> #[trigger] QUICK_EXCLUDE_DIRS@[b]@ != name@,
        decreases 7 - j,
    {
        let d: &str = QUICK_EXCLUDE_DIRS[j];
        if chars_eq(&chars_of(d), &n) {
            return false;
        }
        j = j + 1;
    }
    true
}

/// `n / d` rounded to the nearest whole number, ties to the even one.
pub open spec fn round_half_even(n: nat, d: nat) -> nat
    recommends
        d > 0,
{
    let q = n / d;
    let r = n % d;
    if 2 * r > d || (2 * r == d && q % 2 == 1) {
        q + 1
    } else {
        q
    }
}

/// The spacing of 64-bit floating-point numbers around `b`: 1 below 2^53,
/// doubling with each further bit.
pub open spec fn f64_ulp(b: nat) -> nat
    decreases b,
{
    if b < 0x20_0000_0000_0000 {
        1
    } else {
        2 * f64_ulp(b / 2)
    }
}

/// The value of `b as f64`: `b` rounded to the nearest multiple of its
/// spacing, ties to even.
pub open spec fn as_f64_value(b: nat) -> nat {
    round_half_even(b, f64_ulp(b)) * f64_ulp(b)
}

/// `q` tenths, written with one decimal.
pub open spec fn one_decimal(q: nat) -> Seq<char> {
    decimal(q / 10) + seq!['.', digit_char(q % 10)]
}

/// `q` hundredths, written with two decimals.
pub open spec fn two_decimals(q: nat) -> Seq<char> {
    decimal(q / 100) + seq!['.', digit_char((q / 10) % 10), digit_char(q % 10)]
}

/// A byte count for people: bytes below 1 KiB, else KiB or MiB with one
/// decimal, else GiB with two, each rounded as `{:.1}` / `{:.2}` round the
/// floating-point quotient.
pub open spec fn fmt_size_spec(b: u64) -> Seq<char> {
    if b < 1024 {
        decimal(b as nat) + seq![' ', 'B']
    } else if b < 0x10_0000 {
        one_decimal(round_half_even(b as nat * 10, 1024)) + seq![' ', 'K', 'B']
    } else if b < 0x4000_0000 {
        one_decimal(round_half_even(b as nat * 10, 0x10_0000)) + seq![' ', 'M', 'B']
    } else {
        two_decimals(round_half_even(as_f64_value(b as nat) * 100, 0x4000_0000)) + seq![' ', 'G', 'B']
    }
}

fn round_half_even_u128(n: u128, d: u128) -> (r: u128)
    requires
        d > 0,
        n / d < u128::MAX,
    ensures
        r == round_half_even(n as nat, d as nat),
{
    let q = n / d;
    let r = n % d;
    if r > d - r || (r == d - r && q % 2 == 1) {
        q + 1
    } else {
        q
    }
}

fn ulp_of(b: u64) -> (r: u64)
    ensures
        r == f64_ulp(b as nat),
        b < 0x20_0000_0000_0000 ==> r == 1,
        b >= 0x20_0000_0000_0000 ==> r * 0x10_0000_0000_0000 <= b,
        r >= 1,
    decreases b,
{
    if b < 0x20_0000_0000_0000 {
        1
    } else {
        let h = ulp_of(b / 2);
        2 * h
    }
}

/// `b as f64`, as a whole number.
fn f64_value(b: u64) -> (r: u128)
    ensures
        r == as_f64_value(b as nat),
        r <= b as nat + 0x1000,
{
    let u = ulp_of(b);
    let q = (b / u) as u128;
    let rem = (b % u) as u128;
    let uu = u as u128;
    proof {
        vstd::arithmetic::div_mod::lemma_fundamental_div_mod(b as int, u as int);
        assert(u <= 0x1000) by {
            if b >= 0x20_0000_0000_0000 {
                assert(u * 0x10_0000_0000_0000 <= b);
            }
        }
    }
    let up = rem > uu - rem || (rem == uu - rem && q % 2 == 1);
    let base = (b as u128) - rem;
    proof {
        assert(base == q * uu) by (nonlinear_arith)
            requires
                b as int == u as int * (b as int / u as int) + b as int % u as int,
                base == b - rem,
                q == b / u,
                rem == b % u,
                uu == u;
    }
    if up {
        proof {
            assert((q + 1) * uu == q * uu + uu) by (nonlinear_arith);
        }
        base + uu
    } else {
        base
    }
}

fn push_digit(v: &mut Vec<char>, d: u64)
    requires
        d < 10,
    ensures
        final(v)@ == old(v)@.push(digit_char(d as nat)),
{
    let mut t = decimal_chars(d);
    proof {
        assert(decimal(d as nat) == seq![digit_char(d as nat)]);
    }
    v.push(t[0]);
}

/// A byte count for people (see `fmt_size_spec`).
pub fn fmt_size(bytes: u64) -> (r: String)
    ensures
        r@ == fmt_size_spec(bytes),
{
    let mut out: Vec<char>;
    if bytes < 1024 {
        out = decimal_chars(bytes);
        out.push(' ');
        out.push('B');
        proof {
            assert(out@ =~= fmt_size_spec(bytes));
        }
    } else if bytes < 0x10_0000 || bytes < 0x4000_0000 {
        let d: u128 = if bytes < 0x10_0000 { 1024 } else { 0x10_0000 };
        let q = round_half_even_u128((bytes as u128) * 10, d);
        proof {
            assert(q <= bytes as nat * 10);
        }
        out = decimal_chars((q / 10) as u64);
        out.push('.');
        push_digit(&mut out, (q % 10) as u64);
        out.push(' ');
        if bytes < 0x10_0000 {
            out.push('K');
        } else {
            out.push('M');
        }
        out.push('B');
        proof {
            assert(out@ =~= fmt_size_spec(bytes));
        }
    } else {
        let v = f64_value(bytes);
        let q = round_half_even_u128(v * 100, 0x4000_0000);
        proof {
            assert(q <= v * 100);
        }
        out = decimal_chars((q / 100) as u64);
        out.push('.');
        push_digit(&mut out, ((q / 10) % 10) as u64);
        push_digit(&mut out, (q % 10) as u64);
        out.push(' ');
        out.push('G');
        out.push('B');
        proof {
            assert(out@ =~= fmt_size_spec(bytes));
        }
    }
    string_of(&out)
}

} // verus!
