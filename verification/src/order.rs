//! The order of names: character sequences compared character by character
//! (for UTF-8 text, the order of its bytes), and sorting by it.
use vstd::prelude::*;
use vstd::relations::{sorted_by, total_ordering};

verus! {

/// `a` comes no later than `b`: at the first character where they differ,
/// `a` has the smaller one, or `a` is a prefix of `b`.
pub open spec fn lex_le(a: Seq<char>, b: Seq<char>) -> bool
    decreases a.len(),
{
    if a.len() == 0 {
        true
    } else if b.len() == 0 {
        false
    } else if a[0] != b[0] {
        (a[0] as int) < (b[0] as int)
    } else {
        lex_le(a.drop_first(), b.drop_first())
    }
}

/// `lex_le` as a relation.
pub open spec fn lex_le_rel() -> spec_fn(Seq<char>, Seq<char>) -> bool {
    |a: Seq<char>, b: Seq<char>| lex_le(a, b)
}

proof fn lemma_lex_reflexive(a: Seq<char>)
    ensures
        lex_le(a, a),
    decreases a.len(),
{
    if a.len() > 0 {
        lemma_lex_reflexive(a.drop_first());
    }
}

proof fn lemma_lex_antisymmetric(a: Seq<char>, b: Seq<char>)
    requires
        lex_le(a, b),
        lex_le(b, a),
    ensures
        a == b,
    decreases a.len(),
{
    if a.len() > 0 && b.len() > 0 {
        lemma_lex_antisymmetric(a.drop_first(), b.drop_first());
        assert(a =~= seq![a[0]] + a.drop_first());
        assert(b =~= seq![b[0]] + b.drop_first());
    }
}

proof fn lemma_lex_transitive(a: Seq<char>, b: Seq<char>, c: Seq<char>)
    requires
        lex_le(a, b),
        lex_le(b, c),
    ensures
        lex_le(a, c),
    decreases a.len(),
{
    if a.len() > 0 && b.len() > 0 && c.len() > 0 && a[0] == b[0] && b[0] == c[0] {
        lemma_lex_transitive(a.drop_first(), b.drop_first(), c.drop_first());
    }
}

proof fn lemma_lex_total(a: Seq<char>, b: Seq<char>)
    ensures
        lex_le(a, b) || lex_le(b, a),
    decreases a.len(),
{
    if a.len() > 0 && b.len() > 0 && a[0] == b[0] {
        lemma_lex_total(a.drop_first(), b.drop_first());
    }
}

/// The order of names is a total order.
pub proof fn lemma_lex_total_ordering()
    ensures
        total_ordering(lex_le_rel()),
{
    assert forall|a: Seq<char>| #[trigger] lex_le_rel()(a, a) by {
        lemma_lex_reflexive(a);
    }
    assert forall|a: Seq<char>, b: Seq<char>| #[trigger] lex_le_rel()(a, b) && #[trigger] lex_le_rel()(b, a) implies a == b by {
        lemma_lex_antisymmetric(a, b);
    }
    assert forall|a: Seq<char>, b: Seq<char>, c: Seq<char>|
        #[trigger] lex_le_rel()(a, b) && #[trigger] lex_le_rel()(b, c) implies #[trigger] lex_le_rel()(a, c) by {
        lemma_lex_transitive(a, b, c);
    }
    assert forall|a: Seq<char>, b: Seq<char>| #[trigger] lex_le_rel()(a, b) || #[trigger] lex_le_rel()(b, a) by {
        lemma_lex_total(a, b);
    }
}

proof fn lemma_lex_skip(a: Seq<char>, b: Seq<char>, i: int)
    requires
        0 <= i <= a.len(),
        i <= b.len(),
        a.take(i) == b.take(i),
    ensures
        lex_le(a, b) == lex_le(a.skip(i), b.skip(i)),
    decreases i,
{
    if i > 0 {
        assert(a[0] == a.take(i)[0]);
        assert(b[0] == b.take(i)[0]);
        assert(a.drop_first().take(i - 1) =~= a.take(i).drop_first());
        assert(b.drop_first().take(i - 1) =~= b.take(i).drop_first());
        lemma_lex_skip(a.drop_first(), b.drop_first(), i - 1);
        assert(a.drop_first().skip(i - 1) =~= a.skip(i));
        assert(b.drop_first().skip(i - 1) =~= b.skip(i));
    } else {
        assert(a.skip(0) =~= a);
        assert(b.skip(0) =~= b);
    }
}

/// Whether `a` comes no later than `b`.
pub fn lex_le_exec(a: &Vec<char>, b: &Vec<char>) -> (r: bool)
    ensures
        r == lex_le(a@, b@),
{
    let mut i: usize = 0;
    while i < a.len() && i < b.len() && a[i] == b[i]
        invariant
            i <= a.len(),
            i <= b.len(),
            a@.take(i as int) == b@.take(i as int),
        decreases a.len() - i,
    {
        proof {
            assert(a@.take(i + 1) =~= a@.take(i as int).push(a@[i as int]));
            assert(b@.take(i + 1) =~= b@.take(i as int).push(b@[i as int]));
        }
        i = i + 1;
    }
    proof {
        lemma_lex_skip(a@, b@, i as int);
    }
    if i == a.len() {
        true
    } else if i == b.len() {
        false
    } else {
        proof {
            assert(a@.skip(i as int)[0] == a@[i as int]);
            assert(b@.skip(i as int)[0] == b@[i as int]);
        }
        a[i] < b[i]
    }
}

/// The views of a vector of character vectors.
pub open spec fn char_views(v: Seq<Vec<char>>) -> Seq<Seq<char>> {
    Seq::new(v.len(), |i: int| v[i]@)
}

/// The names in order (see `lex_le`).
pub fn sort_names(v: Vec<Vec<char>>) -> (r: Vec<Vec<char>>)
    ensures
        char_views(r@) == char_views(v@).sort_by(lex_le_rel()),
{
    let ghost input = char_views(v@);
    let mut r: Vec<Vec<char>> = Vec::new();
    let mut i: usize = 0;
    proof {
        lemma_lex_total_ordering();
        assert(char_views(r@) =~= Seq::<Seq<char>>::empty());
        assert(input.take(0) =~= Seq::<Seq<char>>::empty());
    }
    while i < v.len()
        invariant
            i <= v@.len(),
            input == char_views(v@),
            total_ordering(lex_le_rel()),
            sorted_by(char_views(r@), lex_le_rel()),
            char_views(r@).to_multiset() == input.take(i as int).to_multiset(),
        decreases v.len() - i,
    {
        let x = v[i].clone();
        let mut j: usize = 0;
        while j < r.len() && lex_le_exec(&r[j], &x)
            invariant
                j <= r@.len(),
                forall|k: int| 0 <= k < j ==> lex_le(#[trigger] r@[k]@, x@),
            decreases r.len() - j,
        {
            j = j + 1;
        }
        let ghost before = char_views(r@);
        r.insert(j, x);
        proof {
            assert(char_views(r@) =~= before.insert(j as int, x@));
            assert forall|a: int, b: int| 0 <= a < b < char_views(r@).len()
                implies #[trigger] lex_le_rel()(char_views(r@)[a], char_views(r@)[b]) by {
                let s = char_views(r@);
                if b < j {
                    assert(lex_le_rel()(before[a], before[b]));
                } else if b == j {
                    assert(lex_le(before[a], x@));
                } else if a == j {
                    if j < before.len() {
                        assert(!lex_le(before[j as int], x@));
                        lemma_lex_total(before[j as int], x@);
                        if b - 1 > j {
                            assert(lex_le_rel()(before[j as int], before[b - 1]));
                            lemma_lex_transitive(x@, before[j as int], before[b - 1]);
                        }
                    }
                } else if a < j {
                    assert(lex_le_rel()(before[a], before[b - 1]));
                } else {
                    assert(lex_le_rel()(before[a - 1], before[b - 1]));
                }
            }
            vstd::seq_lib::to_multiset_insert(before, j as int, x@);
            assert(input.take(i + 1) =~= input.take(i as int).push(input[i as int]));
            vstd::seq_lib::to_multiset_build(input.take(i as int), input[i as int]);
        }
        i = i + 1;
    }
    proof {
        assert(input.take(v@.len() as int) =~= input);
        input.lemma_sort_by_ensures(lex_le_rel());
        vstd::seq_lib::lemma_sorted_unique(char_views(r@), input.sort_by(lex_le_rel()), lex_le_rel());
    }
    r
}

} // verus!
