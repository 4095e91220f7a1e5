//! Wildcard patterns and comparison as the index applies them: `%` stands for any text, `_` for any
//! one character, and ASCII letters match in either case.

use vstd::prelude::*;

use crate::sorted::{
    at_most, before, before_is_irreflexive, before_is_total, before_is_transitive, place_of, Place,
};
use crate::text::{char_lower, chars_of, lower, lower_char, same_folded, to_lower};

verus! {

/// Whether the text matches the pattern.
pub open spec fn like(p: Seq<char>, t: Seq<char>) -> bool
    decreases p.len() + t.len(),
{
    if p.len() == 0 {
        t.len() == 0
    } else if p[0] == '%' {
        like(p.drop_first(), t) || (t.len() > 0 && like(p, t.drop_first()))
    } else {
        t.len() > 0 && (p[0] == '_' || lower_char(p[0]) == lower_char(t[0])) && like(
            p.drop_first(),
            t.drop_first(),
        )
    }
}

fn like_from(p: &Vec<char>, i: usize, t: &Vec<char>, j: usize) -> (r: bool)
    requires
        i <= p@.len(),
        j <= t@.len(),
    ensures
        r == like(p@.skip(i as int), t@.skip(j as int)),
    decreases p@.len() - i + t@.len() - j,
{
    proof {
        if i < p@.len() {
            assert(p@.skip(i as int).drop_first() =~= p@.skip(i + 1));
        }
        if j < t@.len() {
            assert(t@.skip(j as int).drop_first() =~= t@.skip(j + 1));
        }
    }
    if i == p.len() {
        return j == t.len();
    }
    if p[i] == '%' {
        if like_from(p, i + 1, t, j) {
            return true;
        }
        if j < t.len() {
            return like_from(p, i, t, j + 1);
        }
        return false;
    }
    if j == t.len() {
        return false;
    }
    if p[i] == '_' || char_lower(p[i]) == char_lower(t[j]) {
        like_from(p, i + 1, t, j + 1)
    } else {
        false
    }
}

pub fn is_like(p: &str, t: &str) -> (r: bool)
    ensures
        r == like(p@, t@),
{
    let pv = chars_of(p);
    let tv = chars_of(t);
    assert(pv@.skip(0) =~= pv@);
    assert(tv@.skip(0) =~= tv@);
    like_from(&pv, 0, &tv, 0)
}

pub(crate) proof fn lemma_percent_end(t: Seq<char>)
    ensures
        like(seq!['%'], t),
    decreases t.len(),
{
    let p = seq!['%'];
    assert(p.drop_first() =~= Seq::<char>::empty());
    if t.len() > 0 {
        lemma_percent_end(t.drop_first());
    } else {
        assert(like(p.drop_first(), t));
    }
}

/// No wildcard in the text.
pub open spec fn plain(s: Seq<char>) -> bool {
    forall|i: int| 0 <= i < s.len() ==> #[trigger] s[i] != '%' && s[i] != '_'
}

pub(crate) proof fn lemma_plain_prefix(p: Seq<char>, rest: Seq<char>, t: Seq<char>)
    requires
        plain(p),
    ensures
        like(p + rest, t) <==> (p.len() <= t.len() && same_folded(p, t.take(p.len() as int)) && like(
            rest,
            t.skip(p.len() as int),
        )),
    decreases p.len(),
{
    let n = p.len() as int;
    if n == 0 {
        assert(p + rest =~= rest);
        assert(t.skip(0) =~= t);
        assert(lower(p) =~= lower(t.take(0)));
    } else {
        let q = p + rest;
        assert(q[0] == p[0]);
        assert(p[0] != '%' && p[0] != '_');
        assert(q.drop_first() =~= p.drop_first() + rest);
        assert(plain(p.drop_first())) by {
            assert forall|i: int| 0 <= i < p.drop_first().len() implies #[trigger] p.drop_first()[i] != '%'
                && p.drop_first()[i] != '_' by {
                assert(p.drop_first()[i] == p[i + 1]);
            }
        }
        if t.len() > 0 {
            let u = t.drop_first();
            lemma_plain_prefix(p.drop_first(), rest, u);
            if n <= t.len() {
                assert(u.skip(n - 1) =~= t.skip(n));
                let a = lower(p);
                let b = lower(t.take(n));
                let c = lower(p.drop_first());
                let d = lower(u.take(n - 1));
                if lower_char(p[0]) == lower_char(t[0]) {
                    if c == d {
                        assert forall|i: int| 0 <= i < n implies a[i] == b[i] by {
                            if i > 0 {
                                assert(a[i] == c[i - 1]);
                                assert(b[i] == d[i - 1]);
                            }
                        }
                        assert(a =~= b);
                    }
                    if a == b {
                        assert forall|i: int| 0 <= i < n - 1 implies c[i] == d[i] by {
                            assert(a[i + 1] == b[i + 1]);
                            assert(c[i] == a[i + 1]);
                            assert(d[i] == b[i + 1]);
                        }
                        assert(c =~= d);
                    }
                } else {
                    if a == b {
                        assert(a[0] == b[0]);
                    }
                }
            }
        }
    }
}

/// Whether `p` stands somewhere in `t`, ASCII letters in either case.
pub open spec fn occurs_folded(t: Seq<char>, p: Seq<char>) -> bool {
    exists|i: int|
        0 <= i && i + p.len() <= t.len() && same_folded(p, #[trigger] t.subrange(i, i + p.len()))
}

/// A text without wildcards between two `%` asks whether it stands somewhere.
pub proof fn like_finds_substrings(p: Seq<char>, t: Seq<char>)
    requires
        plain(p),
    ensures
        like(seq!['%'] + p + seq!['%'], t) <==> occurs_folded(t, p),
    decreases t.len(),
{
    let q = seq!['%'] + p + seq!['%'];
    let tail = p + seq!['%'];
    assert(q[0] == '%');
    assert(q.drop_first() =~= tail);
    lemma_plain_prefix(p, seq!['%'], t);
    let n = p.len() as int;
    if n <= t.len() {
        lemma_percent_end(t.skip(n));
        let zero: int = 0;
        assert(t.take(n) =~= t.subrange(zero, zero + p.len()));
        if like(tail, t) {
            assert(same_folded(p, t.subrange(zero, zero + p.len())));
            assert(occurs_folded(t, p));
        }
    }
    assert(like(q, t) <==> (like(tail, t) || (t.len() > 0 && like(q, t.drop_first()))));
    if t.len() > 0 {
        let u = t.drop_first();
        like_finds_substrings(p, u);
        if occurs_folded(u, p) {
            let i = choose|i: int|
                0 <= i && i + p.len() <= u.len() && same_folded(p, #[trigger] u.subrange(i, i + p.len()));
            assert(u.subrange(i, i + n) =~= t.subrange(i + 1, i + 1 + n));
            assert(occurs_folded(t, p));
        }
        if occurs_folded(t, p) {
            let i = choose|i: int|
                0 <= i && i + p.len() <= t.len() && same_folded(p, #[trigger] t.subrange(i, i + p.len()));
            if i > 0 {
                assert(t.subrange(i, i + n) =~= u.subrange(i - 1, i - 1 + n));
                assert(occurs_folded(u, p));
            } else {
                assert(t.subrange(i, i + p.len()) =~= t.take(n));
            }
        }
    } else if occurs_folded(t, p) {
        let i = choose|i: int|
            0 <= i && i + p.len() <= t.len() && same_folded(p, #[trigger] t.subrange(i, i + p.len()));
        assert(t.subrange(i, i + p.len()) =~= t.take(n));
    }
}

// ----- orders --------------------------------------------------------------------------------

/// The order of texts up to ASCII case.
pub open spec fn folded_at_most(a: Seq<char>, b: Seq<char>) -> bool {
    at_most(lower(a), lower(b))
}

pub proof fn at_most_is_total(a: Seq<char>, b: Seq<char>)
    ensures
        at_most(a, b) || at_most(b, a),
{
    before_is_total(a, b);
}

pub proof fn at_most_is_transitive(a: Seq<char>, b: Seq<char>, c: Seq<char>)
    requires
        at_most(a, b),
        at_most(b, c),
    ensures
        at_most(a, c),
{
    if before(a, b) && before(b, c) {
        before_is_transitive(a, b, c);
    }
}

/// Texts that are at most each other are the same.
pub proof fn at_most_is_antisymmetric(a: Seq<char>, b: Seq<char>)
    requires
        at_most(a, b),
        at_most(b, a),
    ensures
        a == b,
{
    if before(a, b) && before(b, a) {
        before_is_transitive(a, b, a);
        before_is_irreflexive(a);
    }
}

pub fn text_at_most(a: &str, b: &str) -> (r: bool)
    ensures
        r == at_most(a@, b@),
{
    match place_of(a, b) {
        Place::Before => true,
        Place::Same => true,
        Place::After => false,
    }
}

pub fn text_folded_at_most(a: &str, b: &str) -> (r: bool)
    ensures
        r == folded_at_most(a@, b@),
{
    let x = to_lower(a);
    let y = to_lower(b);
    text_at_most(x.as_str(), y.as_str())
}

} // verus!
