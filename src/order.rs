//! Lexicographic order on strings, by the code points of their characters,
//! and insertion into a vector of strings kept in that order.
use vstd::prelude::*;
use crate::catalog::{holds, distinct};

verus! {

/// `a` comes strictly before `b`: at the first difference `a` has the smaller
/// character, or `a` is a proper prefix of `b`.
pub open spec fn lex_lt(a: Seq<char>, b: Seq<char>) -> bool
    decreases a.len(),
{
    if a.len() == 0 {
        b.len() > 0
    } else if b.len() == 0 {
        false
    } else if a[0] != b[0] {
        a[0] < b[0]
    } else {
        lex_lt(a.drop_first(), b.drop_first())
    }
}

/// Each string comes strictly before the next.
pub open spec fn sorted(v: Seq<String>) -> bool {
    forall|i: int, j: int| 0 <= i < j < v.len() ==> lex_lt(v[i]@, v[j]@)
}

pub proof fn lemma_lex_irreflexive(a: Seq<char>)
    ensures
        !lex_lt(a, a),
    decreases a.len(),
{
    if a.len() > 0 {
        lemma_lex_irreflexive(a.drop_first());
    }
}

pub proof fn lemma_lex_total(a: Seq<char>, b: Seq<char>)
    ensures
        a != b ==> lex_lt(a, b) || lex_lt(b, a),
    decreases a.len(),
{
    if a.len() > 0 && b.len() > 0 && a[0] == b[0] {
        lemma_lex_total(a.drop_first(), b.drop_first());
        if a.drop_first() == b.drop_first() {
            assert(a =~= seq![a[0]] + a.drop_first());
            assert(b =~= seq![b[0]] + b.drop_first());
        }
    } else if a.len() > 0 && b.len() > 0 {
        assert(a[0] < b[0] || b[0] < a[0]);
    } else if a.len() == 0 && b.len() == 0 {
        assert(a =~= b);
    }
}

pub proof fn lemma_lex_transitive(a: Seq<char>, b: Seq<char>, c: Seq<char>)
    requires
        lex_lt(a, b),
        lex_lt(b, c),
    ensures
        lex_lt(a, c),
    decreases a.len(),
{
    if a.len() > 0 && b.len() > 0 && c.len() > 0 && a[0] == b[0] && b[0] == c[0] {
        lemma_lex_transitive(a.drop_first(), b.drop_first(), c.drop_first());
    }
}

/// Whether `a` comes strictly before `b`.
pub fn str_lt(a: &str, b: &str) -> (r: bool)
    ensures
        r == lex_lt(a@, b@),
{
    let n = a.unicode_len();
    let m = b.unicode_len();
    let mut i: usize = 0;
    assert(a@.skip(0) =~= a@ && b@.skip(0) =~= b@);
    while i < n && i < m
        invariant
            n == a@.len(),
            m == b@.len(),
            i <= n,
            i <= m,
            lex_lt(a@, b@) == lex_lt(a@.skip(i as int), b@.skip(i as int)),
        decreases n - i,
    {
        let x = a.get_char(i);
        let y = b.get_char(i);
        assert(a@.skip(i as int)[0] == x && b@.skip(i as int)[0] == y);
        if x != y {
            return x < y;
        }
        assert(a@.skip(i as int).drop_first() =~= a@.skip(i + 1));
        assert(b@.skip(i as int).drop_first() =~= b@.skip(i + 1));
        i = i + 1;
    }
    i < m
}

/// Inserts `x`, which `v` does not hold, at its place in the order.
pub fn sorted_insert(v: &mut Vec<String>, x: String)
    requires
        sorted(old(v)@),
        !holds(old(v)@, x@),
    ensures
        sorted(final(v)@),
        forall|t: Seq<char>| #[trigger] holds(final(v)@, t) <==> holds(old(v)@, t) || t == x@,
{
    let mut p: usize = 0;
    while p < v.len() && str_lt(v[p].as_str(), x.as_str())
        invariant
            p <= v@.len(),
            forall|j: int| 0 <= j < p ==> lex_lt(#[trigger] v@[j]@, x@),
        decreases v@.len() - p,
    {
        p = p + 1;
    }
    let ghost before = v@;
    proof {
        if p < before.len() {
            assert(!lex_lt(before[p as int]@, x@));
            assert(before[p as int]@ != x@);
            lemma_lex_total(before[p as int]@, x@);
        }
    }
    v.insert(p, x);
    proof {
        assert forall|i: int, j: int| 0 <= i < j < v@.len() implies lex_lt(v@[i]@, v@[j]@) by {
            if j < p {
                assert(v@[i] == before[i] && v@[j] == before[j]);
            } else if j == p {
                assert(v@[i] == before[i]);
            } else if i < p {
                assert(v@[i] == before[i] && v@[j] == before[j - 1]);
                if i < j - 1 {
                } else {
                }
            } else if i == p {
                assert(v@[j] == before[j - 1]);
                if j - 1 > p {
                    lemma_lex_transitive(v@[p as int]@, before[p as int]@, before[j - 1]@);
                }
            } else {
                assert(v@[i] == before[i - 1] && v@[j] == before[j - 1]);
            }
        }
        assert forall|t: Seq<char>| #[trigger] holds(v@, t) <==> holds(before, t) || t == v@[p as int]@ by {
            if holds(v@, t) {
                let k = choose|k: int| 0 <= k < v@.len() && v@[k]@ == t;
                if k < p {
                    assert(before[k]@ == t);
                } else if k > p {
                    assert(before[k - 1]@ == t);
                }
            }
            if holds(before, t) {
                let k = choose|k: int| 0 <= k < before.len() && before[k]@ == t;
                if k < p {
                    assert(v@[k]@ == t);
                } else {
                    assert(v@[k + 1]@ == t);
                }
            }
            if t == v@[p as int]@ {
                assert(v@[p as int]@ == t);
            }
        }
    }
}

/// A sorted vector holds each string once.
pub proof fn lemma_sorted_distinct(v: Seq<String>)
    requires
        sorted(v),
    ensures
        distinct(v),
{
    assert forall|a: int, b: int| 0 <= a < b < v.len() implies v[a]@ != v[b]@ by {
        lemma_lex_irreflexive(v[a]@);
    }
}

} // verus!
