//! Unix path arithmetic on character sequences.
//!
//! A path is read as its components, the way `std::path::Path` reads a Unix
//! path: a leading `/` is the root, a leading `.` (alone or followed by `/`)
//! is the current directory, and every other non-empty piece between `/`
//! characters, except `.`, is one component.
use vstd::prelude::*;
use crate::text::{chars_eq, chars_of, extend_chars, seq_starts_with, string_of};

verus! {

/// The pieces of `p` between `/` characters; empty pieces are kept.
pub open spec fn split_slash(p: Seq<char>) -> Seq<Seq<char>>
    decreases p.len(),
{
    if p.len() == 0 {
        seq![Seq::<char>::empty()]
    } else {
        let prev = split_slash(p.drop_last());
        if p.last() == '/' {
            prev.push(Seq::<char>::empty())
        } else {
            prev.update(prev.len() - 1, prev.last().push(p.last()))
        }
    }
}

/// A piece that names a component: not empty and not `.`.
pub open spec fn is_named_piece(s: Seq<char>) -> bool {
    s.len() > 0 && s != seq!['.']
}

/// The pieces of `segs` that name components, in order.
pub open spec fn keep_named(segs: Seq<Seq<char>>) -> Seq<Seq<char>>
    decreases segs.len(),
{
    if segs.len() == 0 {
        Seq::<Seq<char>>::empty()
    } else {
        let r = keep_named(segs.drop_last());
        if is_named_piece(segs.last()) {
            r.push(segs.last())
        } else {
            r
        }
    }
}

/// The named components of `p` (everything but the root and a leading `.`).
pub open spec fn named_parts(p: Seq<char>) -> Seq<Seq<char>> {
    keep_named(split_slash(p))
}

/// `p` starts at the root.
pub open spec fn is_absolute(p: Seq<char>) -> bool {
    p.len() > 0 && p[0] == '/'
}

/// `p` is relative and begins with the current directory `.`.
pub open spec fn has_cur_dir(p: Seq<char>) -> bool {
    !is_absolute(p) && (p == seq!['.'] || seq_starts_with(p, seq!['.', '/']))
}

/// All components of `p`, as `Path::components` yields them.
pub open spec fn components(p: Seq<char>) -> Seq<Seq<char>> {
    (if is_absolute(p) { seq![seq!['/']] } else { Seq::<Seq<char>>::empty() })
        + (if has_cur_dir(p) { seq![seq!['.']] } else { Seq::<Seq<char>>::empty() })
        + named_parts(p)
}

/// A component that is an ordinary name (not root, `.` or `..`).
pub open spec fn is_normal_component(c: Seq<char>) -> bool {
    c != seq!['/'] && c != seq!['.'] && c != seq!['.', '.']
}

/// The final component of `p` when it is an ordinary name (`Path::file_name`).
pub open spec fn file_name(p: Seq<char>) -> Option<Seq<char>> {
    let n = named_parts(p);
    if n.len() > 0 && n.last() != seq!['.', '.'] {
        Some(n.last())
    } else {
        None
    }
}

/// The views of a vector of character vectors.
pub open spec fn seqs_of(v: Seq<Vec<char>>) -> Seq<Seq<char>> {
    Seq::new(v.len(), |i: int| v[i]@)
}

/// Joins pieces with `/` between them.
pub open spec fn join_slash(parts: Seq<Seq<char>>) -> Seq<char>
    decreases parts.len(),
{
    if parts.len() == 0 {
        Seq::<char>::empty()
    } else if parts.len() == 1 {
        parts[0]
    } else {
        join_slash(parts.drop_last()) + seq!['/'] + parts.last()
    }
}

/// The path text for a list of components.
pub open spec fn render(cs: Seq<Seq<char>>) -> Seq<char> {
    if cs.len() > 0 && cs[0] == seq!['/'] {
        seq!['/'] + join_slash(cs.skip(1))
    } else {
        join_slash(cs)
    }
}

/// The components of `p` that follow those of `base`, when `p` starts with
/// `base` component by component (`Path::strip_prefix`).
pub open spec fn strip_components(p: Seq<char>, base: Seq<char>) -> Option<Seq<Seq<char>>> {
    let cp = components(p);
    let cb = components(base);
    if cb.len() <= cp.len() && cp.take(cb.len() as int) == cb {
        Some(cp.skip(cb.len() as int))
    } else {
        None
    }
}

/// `p` starts with `base`, component by component (`Path::starts_with`).
pub open spec fn path_starts_with(p: Seq<char>, base: Seq<char>) -> bool {
    strip_components(p, base) is Some
}

/// `a` joined with `b` (`Path::join`): an absolute `b` replaces `a`, and a
/// `/` is put between them unless `a` is empty or already ends with one.
pub open spec fn join(a: Seq<char>, b: Seq<char>) -> Seq<char> {
    if is_absolute(b) {
        b
    } else if a.len() == 0 || a.last() == '/' {
        a + b
    } else {
        a + seq!['/'] + b
    }
}

proof fn lemma_split_nonempty(p: Seq<char>)
    ensures
        split_slash(p).len() >= 1,
    decreases p.len(),
{
    if p.len() > 0 {
        lemma_split_nonempty(p.drop_last());
    }
}

/// Slashes at the end of a path add no component.
pub proof fn lemma_trailing_slashes(p: Seq<char>, tail: Seq<char>)
    requires
        forall|i: int| 0 <= i < tail.len() ==> tail[i] == '/',
    ensures
        named_parts(p + tail) == named_parts(p),
    decreases tail.len(),
{
    if tail.len() > 0 {
        let shorter = tail.drop_last();
        lemma_trailing_slashes(p, shorter);
        let q = p + tail;
        assert(q.drop_last() =~= p + shorter);
        assert(q.last() == '/');
        let prev = split_slash(q.drop_last());
        assert(split_slash(q) == prev.push(Seq::<char>::empty()));
        assert(prev.push(Seq::<char>::empty()).drop_last() =~= prev);
    }
}

/// Characters without a `/` extend the last piece of a path.
proof fn lemma_split_extends_last(p: Seq<char>, d: Seq<char>)
    requires
        !d.contains('/'),
    ensures
        split_slash(p + d) == split_slash(p).update(split_slash(p).len() - 1, split_slash(p).last() + d),
    decreases d.len(),
{
    lemma_split_nonempty(p);
    let s = split_slash(p);
    if d.len() == 0 {
        assert(p + d =~= p);
        assert(s.last() + d =~= s.last());
        assert(s.update(s.len() - 1, s.last()) =~= s);
    } else {
        let d0 = d.drop_last();
        assert forall|i: int| 0 <= i < d0.len() implies d0[i] != '/' by {
            assert(d0[i] == d[i]);
        }
        lemma_split_extends_last(p, d0);
        let q = p + d;
        assert(q.drop_last() =~= p + d0);
        assert(q.last() == d.last());
        assert(d.last() != '/') by {
            assert(d[d.len() - 1] == d.last());
        }
        let prev = split_slash(p + d0);
        assert(prev.last() =~= s.last() + d0);
        assert(prev.last().push(d.last()) =~= s.last() + d);
        assert(prev.update(prev.len() - 1, prev.last().push(d.last())) =~= s.update(s.len() - 1, s.last() + d));
    }
}

/// After a directory prefix (empty, or ending in `/`), a name without `/`
/// that is a component is the last component.
pub proof fn lemma_last_named_part(dir: Seq<char>, d: Seq<char>)
    requires
        dir.len() == 0 || dir.last() == '/',
        !d.contains('/'),
        is_named_piece(d),
    ensures
        named_parts(dir + d).len() > 0,
        named_parts(dir + d).last() == d,
{
    lemma_split_nonempty(dir);
    lemma_split_extends_last(dir, d);
    let s = split_slash(dir);
    if dir.len() == 0 {
        assert(s.last() =~= Seq::<char>::empty());
    } else {
        assert(s == split_slash(dir.drop_last()).push(Seq::<char>::empty()));
    }
    assert(s.last() + d =~= d);
    let parts = s.update(s.len() - 1, d);
    assert(parts.drop_last() =~= s.drop_last());
    assert(parts.last() == d);
}

fn is_named_piece_exec(s: &Vec<char>) -> (r: bool)
    ensures
        r == is_named_piece(s@),
{
    if s.len() == 0 {
        return false;
    }
    if s.len() == 1 && s[0] == '.' {
        assert(s@ == seq!['.']);
        return false;
    }
    if s.len() == 1 {
        assert(s@[0] != seq!['.'][0]);
    }
    true
}

/// The named components of `p`.
pub fn named_parts_of(p: &Vec<char>) -> (r: Vec<Vec<char>>)
    ensures
        seqs_of(r@) == named_parts(p@),
{
    let mut named: Vec<Vec<char>> = Vec::new();
    let mut cur: Vec<char> = Vec::new();
    let mut i: usize = 0;
    proof {
        assert(p@.take(0) =~= Seq::<char>::empty());
        assert(seqs_of(named@) =~= keep_named(split_slash(p@.take(0)).drop_last()));
    }
    while i < p.len()
        invariant
            i <= p.len(),
            split_slash(p@.take(i as int)).len() >= 1,
            seqs_of(named@) == keep_named(split_slash(p@.take(i as int)).drop_last()),
            cur@ == split_slash(p@.take(i as int)).last(),
        decreases p.len() - i,
    {
        let ghost s_old = split_slash(p@.take(i as int));
        let c = p[i];
        proof {
            assert(p@.take(i + 1).drop_last() =~= p@.take(i as int));
            assert(p@.take(i + 1).last() == c);
            lemma_split_nonempty(p@.take(i + 1));
        }
        if c == '/' {
            let named_piece = is_named_piece_exec(&cur);
            let ghost before = named@;
            if named_piece {
                named.push(cur);
            }
            proof {
                let s_new = split_slash(p@.take(i + 1));
                assert(s_new == s_old.push(Seq::<char>::empty()));
                assert(s_new.drop_last() =~= s_old);
                if named_piece {
                    assert(seqs_of(named@) =~= seqs_of(before).push(s_old.last()));
                }
            }
            cur = Vec::new();
            proof {
                assert(cur@ =~= split_slash(p@.take(i + 1)).last());
            }
        } else {
            cur.push(c);
            proof {
                let s_new = split_slash(p@.take(i + 1));
                assert(s_new == s_old.update(s_old.len() - 1, s_old.last().push(c)));
                assert(s_new.drop_last() =~= s_old.drop_last());
            }
        }
        i = i + 1;
    }
    proof {
        assert(p@.take(p.len() as int) =~= p@);
    }
    let ghost before = named@;
    if is_named_piece_exec(&cur) {
        named.push(cur);
        proof {
            assert(seqs_of(named@) =~= seqs_of(before).push(split_slash(p@).last()));
        }
    }
    named
}

/// Whether `p` is absolute.
pub fn is_absolute_exec(p: &Vec<char>) -> (r: bool)
    ensures
        r == is_absolute(p@),
{
    p.len() > 0 && p[0] == '/'
}

/// Whether `p` begins with the current directory.
pub fn has_cur_dir_exec(p: &Vec<char>) -> (r: bool)
    ensures
        r == has_cur_dir(p@),
{
    if is_absolute_exec(p) || p.len() == 0 || p[0] != '.' {
        proof {
            if p.len() > 0 && p[0] != '.' {
                assert(p@ != seq!['.']);
                assert(p@.subrange(0, 2) != seq!['.', '/'] || p.len() < 2) by {
                    if p.len() >= 2 {
                        assert(p@.subrange(0, 2)[0] == p@[0]);
                    }
                }
            }
        }
        return false;
    }
    if p.len() == 1 {
        assert(p@ =~= seq!['.']);
        return true;
    }
    let r = p[1] == '/';
    proof {
        assert(p@ != seq!['.']);
        if r {
            assert(p@.subrange(0, 2) =~= seq!['.', '/']);
        } else {
            assert(p@.subrange(0, 2)[1] == p@[1]);
        }
    }
    r
}

/// All components of `p`.
pub fn components_of(p: &Vec<char>) -> (r: Vec<Vec<char>>)
    ensures
        seqs_of(r@) == components(p@),
{
    let mut r: Vec<Vec<char>> = Vec::new();
    if is_absolute_exec(p) {
        let mut root: Vec<char> = Vec::new();
        root.push('/');
        r.push(root);
    }
    if has_cur_dir_exec(p) {
        let mut cd: Vec<char> = Vec::new();
        cd.push('.');
        r.push(cd);
    }
    let ghost head = r@;
    proof {
        assert(seqs_of(head) =~= (if is_absolute(p@) { seq![seq!['/']] } else { Seq::<Seq<char>>::empty() })
            + (if has_cur_dir(p@) { seq![seq!['.']] } else { Seq::<Seq<char>>::empty() }));
    }
    let named = named_parts_of(p);
    let mut i: usize = 0;
    while i < named.len()
        invariant
            i <= named.len(),
            seqs_of(r@) == seqs_of(head) + seqs_of(named@).subrange(0, i as int),
        decreases named.len() - i,
    {
        let piece = named[i].clone();
        let ghost before = r@;
        r.push(piece);
        proof {
            assert(seqs_of(r@) =~= seqs_of(before).push(named@[i as int]@));
            assert(seqs_of(named@).subrange(0, i + 1) =~= seqs_of(named@).subrange(0, i as int).push(named@[i as int]@));
        }
        i = i + 1;
    }
    proof {
        assert(seqs_of(named@).subrange(0, named.len() as int) =~= seqs_of(named@));
        assert(seqs_of(r@) =~= components(p@));
    }
    r
}

/// The final ordinary component of `p`, if any.
pub fn file_name_of(p: &Vec<char>) -> (r: Option<Vec<char>>)
    ensures
        match r {
            Some(n) => file_name(p@) == Some(n@),
            None => file_name(p@) is None,
        },
{
    let named = named_parts_of(p);
    if named.len() == 0 {
        return None;
    }
    let last = named[named.len() - 1].clone();
    let mut dd: Vec<char> = Vec::new();
    dd.push('.');
    dd.push('.');
    proof {
        assert(dd@ =~= seq!['.', '.']);
        assert(seqs_of(named@).last() == last@);
    }
    if chars_eq(&last, &dd) {
        None
    } else {
        Some(last)
    }
}

/// Joins pieces with `/` between them.
pub fn join_slash_exec(parts: &Vec<Vec<char>>) -> (r: Vec<char>)
    ensures
        r@ == join_slash(seqs_of(parts@)),
{
    let mut r: Vec<char> = Vec::new();
    let mut i: usize = 0;
    while i < parts.len()
        invariant
            i <= parts.len(),
            r@ == join_slash(seqs_of(parts@).take(i as int)),
        decreases parts.len() - i,
    {
        let ghost pre = seqs_of(parts@).take(i as int);
        let ghost nxt = seqs_of(parts@).take(i + 1);
        proof {
            assert(nxt.drop_last() =~= pre);
            assert(nxt.last() == parts@[i as int]@);
        }
        if i > 0 {
            r.push('/');
        }
        extend_chars(&mut r, &parts[i]);
        proof {
            if i == 0 {
                assert(pre =~= Seq::<Seq<char>>::empty());
                assert(nxt.len() == 1);
                assert(r@ =~= nxt[0]);
            } else {
                assert(r@ =~= join_slash(pre) + seq!['/'] + nxt.last());
            }
        }
        i = i + 1;
    }
    proof {
        assert(seqs_of(parts@).take(parts.len() as int) =~= seqs_of(parts@));
    }
    r
}

/// The path text for a list of components.
pub fn render_exec(cs: &Vec<Vec<char>>) -> (r: Vec<char>)
    ensures
        r@ == render(seqs_of(cs@)),
{
    let mut root: Vec<char> = Vec::new();
    root.push('/');
    if cs.len() > 0 && chars_eq(&cs[0], &root) {
        let mut rest: Vec<Vec<char>> = Vec::new();
        let mut i: usize = 1;
        while i < cs.len()
            invariant
                1 <= i <= cs.len(),
                seqs_of(rest@) == seqs_of(cs@).subrange(1, i as int),
            decreases cs.len() - i,
        {
            let piece = cs[i].clone();
            let ghost before = rest@;
            rest.push(piece);
            proof {
                assert(seqs_of(rest@) =~= seqs_of(before).push(cs@[i as int]@));
                assert(seqs_of(cs@).subrange(1, i + 1) =~= seqs_of(cs@).subrange(1, i as int).push(cs@[i as int]@));
            }
            i = i + 1;
        }
        let tail = join_slash_exec(&rest);
        proof {
            assert(root@ =~= seq!['/']);
            assert(seqs_of(cs@)[0] == cs@[0]@);
            assert(seqs_of(cs@).skip(1) =~= seqs_of(cs@).subrange(1, cs.len() as int));
        }
        let mut r = root;
        extend_chars(&mut r, &tail);
        r
    } else {
        proof {
            assert(root@ =~= seq!['/']);
            if cs.len() > 0 {
                assert(seqs_of(cs@)[0] == cs@[0]@);
            }
        }
        join_slash_exec(cs)
    }
}

/// The components of `p` after those of `base`, if `p` starts with `base`.
pub fn strip_components_exec(p: &Vec<char>, base: &Vec<char>) -> (r: Option<Vec<Vec<char>>>)
    ensures
        match r {
            Some(rest) => strip_components(p@, base@) == Some(seqs_of(rest@)),
            None => strip_components(p@, base@) is None,
        },
{
    let cp = components_of(p);
    let cb = components_of(base);
    if cb.len() > cp.len() {
        return None;
    }
    let mut i: usize = 0;
    while i < cb.len()
        invariant
            cb.len() <= cp.len(),
            i <= cb.len(),
            seqs_of(cp@) == components(p@),
            seqs_of(cb@) == components(base@),
            seqs_of(cp@).take(i as int) == seqs_of(cb@).take(i as int),
        decreases cb.len() - i,
    {
        if !chars_eq(&cp[i], &cb[i]) {
            proof {
                assert(seqs_of(cp@).take(cb.len() as int)[i as int] == cp@[i as int]@);
                assert(seqs_of(cb@)[i as int] == cb@[i as int]@);
                assert(seqs_of(cp@).take(cb.len() as int) != seqs_of(cb@));
                assert(components(p@) == seqs_of(cp@));
                assert(components(base@) == seqs_of(cb@));
                assert(strip_components(p@, base@) is None);
            }
            return None;
        }
        proof {
            assert(seqs_of(cp@).take(i + 1) =~= seqs_of(cp@).take(i as int).push(cp@[i as int]@));
            assert(seqs_of(cb@).take(i + 1) =~= seqs_of(cb@).take(i as int).push(cb@[i as int]@));
        }
        i = i + 1;
    }
    proof {
        assert(seqs_of(cb@).take(cb.len() as int) =~= seqs_of(cb@));
    }
    let mut rest: Vec<Vec<char>> = Vec::new();
    let mut j: usize = cb.len();
    while j < cp.len()
        invariant
            cb.len() <= j <= cp.len(),
            seqs_of(cp@) == components(p@),
            seqs_of(cb@) == components(base@),
            seqs_of(cp@).take(cb.len() as int) == seqs_of(cb@),
            seqs_of(rest@) == seqs_of(cp@).subrange(cb.len() as int, j as int),
        decreases cp.len() - j,
    {
        let piece = cp[j].clone();
        let ghost before = rest@;
        rest.push(piece);
        proof {
            assert(seqs_of(rest@) =~= seqs_of(before).push(cp@[j as int]@));
            assert(seqs_of(cp@).subrange(cb.len() as int, j + 1)
                =~= seqs_of(cp@).subrange(cb.len() as int, j as int).push(cp@[j as int]@));
        }
        j = j + 1;
    }
    proof {
        assert(seqs_of(cb@).take(cb.len() as int) =~= seqs_of(cb@));
        assert(seqs_of(cp@).skip(cb.len() as int) =~= seqs_of(cp@).subrange(cb.len() as int, cp.len() as int));
    }
    Some(rest)
}

/// Whether `p` starts with `base`, component by component.
pub fn path_starts_with_exec(p: &Vec<char>, base: &Vec<char>) -> (r: bool)
    ensures
        r == path_starts_with(p@, base@),
{
    strip_components_exec(p, base).is_some()
}

/// `a` joined with `b`.
pub fn join_exec(a: &Vec<char>, b: &Vec<char>) -> (r: Vec<char>)
    ensures
        r@ == join(a@, b@),
{
    if is_absolute_exec(b) {
        return b.clone();
    }
    let mut r = a.clone();
    if !(a.len() == 0 || a[a.len() - 1] == '/') {
        r.push('/');
    }
    extend_chars(&mut r, b);
    proof {
        if !(a.len() == 0 || a@.last() == '/') {
            assert(r@ =~= a@ + seq!['/'] + b@);
        }
    }
    r
}

/// The component lists of the parents of a path, nearest first, as far as
/// `Path::parent` goes and stopping before the first that equals `stop`.
pub open spec fn ancestors_until(cs: Seq<Seq<char>>, stop: Seq<Seq<char>>) -> Seq<Seq<Seq<char>>>
    decreases cs.len(),
{
    if cs.len() == 0 || cs.last() == seq!['/'] {
        Seq::<Seq<Seq<char>>>::empty()
    } else {
        let parent = cs.drop_last();
        if parent == stop {
            Seq::<Seq<Seq<char>>>::empty()
        } else {
            seq![parent] + ancestors_until(parent, stop)
        }
    }
}

/// The path texts of a list of component lists.
pub open spec fn renders(a: Seq<Seq<Seq<char>>>) -> Seq<Seq<char>> {
    Seq::new(a.len(), |i: int| render(a[i]))
}

/// The part of `p` after `base`, when `p` starts with `base` component by
/// component (`Path::strip_prefix`).
pub open spec fn strip_prefix_path(p: Seq<char>, base: Seq<char>) -> Option<Seq<char>> {
    match strip_components(p, base) {
        Some(rest) => Some(render(rest)),
        None => None,
    }
}

/// Whether two component lists are equal.
pub fn comps_eq(a: &Vec<Vec<char>>, b: &Vec<Vec<char>>) -> (r: bool)
    ensures
        r == (seqs_of(a@) == seqs_of(b@)),
{
    if a.len() != b.len() {
        proof {
            assert(seqs_of(a@).len() != seqs_of(b@).len());
        }
        return false;
    }
    let mut i: usize = 0;
    while i < a.len()
        invariant
            a.len() == b.len(),
            i <= a.len(),
            forall|j: int| 0 <= j < i ==> a@[j]@ == b@[j]@,
        decreases a.len() - i,
    {
        if !chars_eq(&a[i], &b[i]) {
            proof {
                assert(seqs_of(a@)[i as int] != seqs_of(b@)[i as int]);
            }
            return false;
        }
        i = i + 1;
    }
    proof {
        assert(seqs_of(a@) =~= seqs_of(b@));
    }
    true
}

/// The first `k` components.
pub fn take_comps(cs: &Vec<Vec<char>>, k: usize) -> (r: Vec<Vec<char>>)
    requires
        k <= cs.len(),
    ensures
        seqs_of(r@) == seqs_of(cs@).take(k as int),
{
    let mut r: Vec<Vec<char>> = Vec::new();
    let mut i: usize = 0;
    while i < k
        invariant
            k <= cs.len(),
            i <= k,
            seqs_of(r@) == seqs_of(cs@).take(i as int),
        decreases k - i,
    {
        let ghost before = r@;
        r.push(cs[i].clone());
        proof {
            assert(seqs_of(r@) =~= seqs_of(before).push(cs@[i as int]@));
            assert(seqs_of(cs@).take(i + 1) =~= seqs_of(cs@).take(i as int).push(cs@[i as int]@));
        }
        i = i + 1;
    }
    r
}

/// The part of `p` after `base`, when `p` starts with `base`.
pub fn strip_prefix_exec(p: &Vec<char>, base: &Vec<char>) -> (r: Option<Vec<char>>)
    ensures
        match r {
            Some(rel) => strip_prefix_path(p@, base@) == Some(rel@),
            None => strip_prefix_path(p@, base@) is None,
        },
{
    match strip_components_exec(p, base) {
        Some(rest) => Some(render_exec(&rest)),
        None => None,
    }
}

/// The part of `p` after `base`, when `p` starts with `base`
/// (`Path::strip_prefix`).
pub fn relative_to(p: &str, base: &str) -> (r: Option<String>)
    ensures
        match r {
            Some(rel) => strip_prefix_path(p@, base@) == Some(rel@),
            None => strip_prefix_path(p@, base@) is None,
        },
{
    match strip_prefix_exec(&chars_of(p), &chars_of(base)) {
        Some(rel) => Some(string_of(&rel)),
        None => None,
    }
}

/// `a` joined with `b` (`Path::join`).
pub fn join_paths(a: &str, b: &str) -> (r: String)
    ensures
        r@ == join(a@, b@),
{
    string_of(&join_exec(&chars_of(a), &chars_of(b)))
}

/// The parent of `p` (`Path::parent`), or `p` itself when it has none.
pub open spec fn parent_or_self(p: Seq<char>) -> Seq<char> {
    let cs = components(p);
    if cs.len() > 0 && cs.last() != seq!['/'] {
        render(cs.drop_last())
    } else {
        p
    }
}

/// The parent of `p`, or `p` itself when it has none.
pub fn parent_or_self_exec(p: &str) -> (r: String)
    ensures
        r@ == parent_or_self(p@),
{
    let cs = components_of(&chars_of(p));
    let mut slash: Vec<char> = Vec::new();
    slash.push('/');
    proof {
        assert(slash@ =~= seq!['/']);
        if cs.len() > 0 {
            assert(seqs_of(cs@).last() == cs@[cs.len() - 1]@);
        }
    }
    if cs.len() > 0 && !chars_eq(&cs[cs.len() - 1], &slash) {
        proof {
            assert(seqs_of(cs@).take(cs.len() - 1) =~= seqs_of(cs@).drop_last());
        }
        string_of(&render_exec(&take_comps(&cs, cs.len() - 1)))
    } else {
        string_of(&chars_of(p))
    }
}

} // verus!
