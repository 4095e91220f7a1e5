//! Searching, filtering and paging sequences.

use vstd::prelude::*;

verus! {

/// The position of the first element with the property; the length where there is none.
pub open spec fn first_index<T>(s: Seq<T>, p: spec_fn(T) -> bool) -> int
    decreases s.len(),
{
    if s.len() == 0 {
        0
    } else if p(s[0]) {
        0
    } else {
        1 + first_index(s.drop_first(), p)
    }
}

/// The first element with the property.
pub open spec fn find<T>(s: Seq<T>, p: spec_fn(T) -> bool) -> Option<T> {
    let i = first_index(s, p);
    if i < s.len() {
        Some(s[i])
    } else {
        None
    }
}

/// The first index is the one before which nothing has the property.
pub proof fn lemma_first_index<T>(s: Seq<T>, p: spec_fn(T) -> bool, i: int)
    requires
        0 <= i <= s.len(),
        forall|j: int| 0 <= j < i ==> !p(#[trigger] s[j]),
        i < s.len() ==> p(s[i]),
    ensures
        first_index(s, p) == i,
    decreases s.len(),
{
    if s.len() > 0 && i > 0 {
        assert(!p(s[0]));
        let t = s.drop_first();
        assert forall|j: int| 0 <= j < i - 1 implies !p(#[trigger] t[j]) by {
            assert(!p(s[j + 1]));
        }
        lemma_first_index(t, p, i - 1);
    }
}

pub proof fn lemma_first_index_bounds<T>(s: Seq<T>, p: spec_fn(T) -> bool)
    ensures
        0 <= first_index(s, p) <= s.len(),
        first_index(s, p) < s.len() ==> p(s[first_index(s, p)]),
        forall|j: int| 0 <= j < first_index(s, p) ==> !p(#[trigger] s[j]),
    decreases s.len(),
{
    if s.len() > 0 && !p(s[0]) {
        let t = s.drop_first();
        lemma_first_index_bounds(t, p);
        assert forall|j: int| 0 <= j < first_index(s, p) implies !p(#[trigger] s[j]) by {
            if j > 0 {
                assert(s[j] == t[j - 1]);
            }
        }
    }
}

/// An element with the property is found.
pub proof fn lemma_find_some<T>(s: Seq<T>, p: spec_fn(T) -> bool, i: int)
    requires
        0 <= i < s.len(),
        p(s[i]),
    ensures
        find(s, p) is Some,
        p(find(s, p)->0),
        s.contains(find(s, p)->0),
{
    lemma_first_index_bounds(s, p);
}

/// Filtering one more element.
pub proof fn lemma_filter_step<T>(s: Seq<T>, p: spec_fn(T) -> bool, i: int)
    requires
        0 <= i < s.len(),
    ensures
        s.take(i + 1).filter(p) == (if p(s[i]) {
            s.take(i).filter(p).push(s[i])
        } else {
            s.take(i).filter(p)
        }),
{
    reveal(Seq::filter);
    assert(s.take(i + 1).drop_last() =~= s.take(i));
    assert(s.take(i + 1).last() == s[i]);
}

pub proof fn lemma_filter_none<T>(s: Seq<T>, p: spec_fn(T) -> bool)
    ensures
        s.take(0).filter(p) == Seq::<T>::empty(),
{
    reveal(Seq::filter);
    assert(s.take(0) =~= Seq::<T>::empty());
    assert(s.take(0).filter(p) =~= Seq::<T>::empty());
}

/// What a filter keeps has the property and was there.
pub proof fn lemma_filter_has<T>(s: Seq<T>, p: spec_fn(T) -> bool, x: T)
    ensures
        s.filter(p).contains(x) <==> s.contains(x) && p(x),
    decreases s.len(),
{
    reveal(Seq::filter);
    let f = s.filter(p);
    if s.len() == 0 {
        assert(f =~= Seq::<T>::empty());
    } else {
        let t = s.drop_last();
        lemma_filter_has(t, p, x);
        let g = t.filter(p);
        if g.contains(x) {
            let k = choose|k: int| 0 <= k < g.len() && g[k] == x;
            assert(f[k] == x);
        }
        if t.contains(x) {
            let k = choose|k: int| 0 <= k < t.len() && t[k] == x;
            assert(s[k] == x);
        }
        if s.contains(x) {
            let k = choose|k: int| 0 <= k < s.len() && s[k] == x;
            if k < t.len() {
                assert(t[k] == x);
            }
        }
        if p(s.last()) {
            assert(f[f.len() - 1] == s.last());
        }
        if f.contains(x) {
            let k = choose|k: int| 0 <= k < f.len() && f[k] == x;
            if k < g.len() {
                assert(g[k] == x);
            }
        }
        assert(s[s.len() - 1] == s.last());
    }
}

/// A page of a list: `limit` elements behind the first `offset`.
pub open spec fn page<T>(s: Seq<T>, limit: nat, offset: nat) -> Seq<T> {
    let from = if offset < s.len() {
        offset as int
    } else {
        s.len() as int
    };
    let rest = s.skip(from);
    if limit < rest.len() {
        rest.take(limit as int)
    } else {
        rest
    }
}

/// The first elements of a list, all of them where no limit is given.
pub open spec fn limited<T>(s: Seq<T>, limit: Option<usize>) -> Seq<T> {
    match limit {
        Some(n) => page(s, n as nat, 0),
        None => s,
    }
}

pub fn take_page<T: DeepView>(v: Vec<T>, limit: usize, offset: usize) -> (r: Vec<T>)
    ensures
        r.deep_view() == page(v.deep_view(), limit as nat, offset as nat),
{
    let ghost s = v.deep_view();
    let mut v = v;
    let n: usize = v.len();
    let from: usize = if offset < n {
        offset
    } else {
        n
    };
    let mut rest = v.split_off(from);
    assert(rest.deep_view() =~= s.skip(from as int));
    if limit < rest.len() {
        rest.truncate(limit);
        assert(rest.deep_view() =~= s.skip(from as int).take(limit as int));
    }
    rest
}

pub fn take_limited<T: DeepView>(v: Vec<T>, limit: Option<usize>) -> (r: Vec<T>)
    ensures
        r.deep_view() == limited(v.deep_view(), limit),
{
    match limit {
        Some(n) => take_page(v, n, 0),
        None => v,
    }
}

/// What becomes of every element, in order; `g` says what `f` does with what an element holds.
pub(crate) fn map_all<T: DeepView, U: DeepView, F: Fn(&T) -> U>(
    v: &Vec<T>,
    f: F,
    Ghost(g): Ghost<spec_fn(<T as DeepView>::V) -> <U as DeepView>::V>,
) -> (r: Vec<U>)
    requires
        forall|x: T| call_requires(f, (&x,)),
        forall|x: T, y: U| call_ensures(f, (&x,), y) ==> y.deep_view() == g(x.deep_view()),
    ensures
        r.deep_view() == v.deep_view().map_values(g),
{
    let mut out: Vec<U> = Vec::new();
    let mut i: usize = 0;
    while i < v.len()
        invariant
            i <= v@.len(),
            out@.len() == i,
            forall|x: T| call_requires(f, (&x,)),
            forall|x: T, y: U| call_ensures(f, (&x,), y) ==> y.deep_view() == g(x.deep_view()),
            forall|k: int| 0 <= k < i ==> (#[trigger] out@[k]).deep_view() == g(v@[k].deep_view()),
        decreases v@.len() - i,
    {
        let y = f(&v[i]);
        out.push(y);
        i += 1;
    }
    assert(out.deep_view() =~= v.deep_view().map_values(g));
    out
}

} // verus!
