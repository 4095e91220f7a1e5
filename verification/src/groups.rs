//! Grouping by number.

use vstd::prelude::*;

use crate::model::{Asset, AssetView};
use crate::seqs::{lemma_filter_none, lemma_filter_step};

verus! {

/// Strictly increasing.
pub open spec fn increasing(s: Seq<i64>) -> bool {
    forall|i: int, j: int| 0 <= i < j < s.len() ==> (#[trigger] s[i]) < (#[trigger] s[j])
}

/// The members of a set of numbers in increasing order.
pub open spec fn increasing_of(s: Set<i64>) -> Seq<i64> {
    choose|r: Seq<i64>| increasing(r) && r.to_set() == s
}

/// There is one increasing list of a set's members.
pub proof fn increasing_is_unique(a: Seq<i64>, b: Seq<i64>)
    requires
        increasing(a),
        increasing(b),
        a.to_set() == b.to_set(),
    ensures
        a == b,
    decreases a.len(),
{
    if a.len() == 0 {
        if b.len() > 0 {
            assert(b.to_set().contains(b[0]));
            assert(a.to_set().contains(b[0]));
        }
        assert(a =~= b);
    } else {
        assert(a.to_set().contains(a.last()));
        assert(b.to_set().contains(a.last()));
        let i = choose|i: int| 0 <= i < b.len() && b[i] == a.last();
        assert(b.to_set().contains(b.last()));
        assert(a.to_set().contains(b.last()));
        let j = choose|j: int| 0 <= j < a.len() && a[j] == b.last();
        if i < b.len() - 1 {
            assert(b[i] < b[b.len() - 1]);
            if j < a.len() - 1 {
                assert(a[j] < a[a.len() - 1]);
            }
        }
        assert(a.last() == b.last());
        let c = a.drop_last();
        let d = b.drop_last();
        assert forall|x: i64| c.to_set().contains(x) <==> d.to_set().contains(x) by {
            if c.contains(x) {
                let k = choose|k: int| 0 <= k < c.len() && c[k] == x;
                assert(a[k] < a[a.len() - 1]);
                assert(a.to_set().contains(x));
                assert(b.to_set().contains(x));
                let m = choose|m: int| 0 <= m < b.len() && b[m] == x;
                assert(d[m] == x);
            }
            if d.contains(x) {
                let k = choose|k: int| 0 <= k < d.len() && d[k] == x;
                assert(b[k] < b[b.len() - 1]);
                assert(b.to_set().contains(x));
                assert(a.to_set().contains(x));
                let m = choose|m: int| 0 <= m < a.len() && a[m] == x;
                assert(c[m] == x);
            }
        }
        assert(c.to_set() =~= d.to_set());
        increasing_is_unique(c, d);
        assert(a =~= c.push(a.last()));
        assert(b =~= d.push(b.last()));
    }
}

/// The numbers of a list, each once, in increasing order.
pub open spec fn distinct(s: Seq<i64>) -> Seq<i64> {
    increasing_of(s.to_set())
}

fn insert_id(v: &mut Vec<i64>, x: i64)
    requires
        increasing(old(v)@),
    ensures
        increasing(final(v)@),
        final(v)@.to_set() == old(v)@.to_set().insert(x),
{
    let ghost s = v@;
    let mut i: usize = 0;
    while i < v.len() && v[i] < x
        invariant
            i <= v@.len(),
            v@ == s,
            increasing(s),
            forall|j: int| 0 <= j < i ==> s[j] < x,
        decreases v@.len() - i,
    {
        i += 1;
    }
    if i < v.len() && v[i] == x {
        assert(s.to_set().contains(s[i as int]));
        assert(s.to_set().insert(x) =~= s.to_set());
        return;
    }
    proof {
        assert forall|j: int| i <= j < s.len() implies #[trigger] s[j] > x by {
            if j > i {
                assert(s[i as int] < s[j]);
            }
        }
    }
    v.insert(i, x);
    proof {
        let t = v@;
        assert(t == s.insert(i as int, x));
        assert forall|a: int, b: int| 0 <= a < b < t.len() implies (#[trigger] t[a]) < (#[trigger] t[b]) by {
            let a1 = if a < i { a } else { a - 1 };
            let b1 = if b < i { b } else { b - 1 };
            if a != i && b != i {
                assert(s[a1] < s[b1]);
            }
        }
        assert forall|y: i64| t.to_set().contains(y) <==> s.to_set().insert(x).contains(y) by {
            if s.contains(y) {
                let k = choose|k: int| 0 <= k < s.len() && s[k] == y;
                if k < i {
                    assert(t[k] == y);
                } else {
                    assert(t[k + 1] == y);
                }
            }
            assert(t[i as int] == x);
            if t.contains(y) {
                let k = choose|k: int| 0 <= k < t.len() && t[k] == y;
                if k < i {
                    assert(s[k] == y);
                } else if k > i {
                    assert(s[k - 1] == y);
                }
            }
        }
        assert(t.to_set() =~= s.to_set().insert(x));
    }
}

/// The numbers of a list, each once, in increasing order.
pub fn distinct_ids(v: &Vec<i64>) -> (r: Vec<i64>)
    ensures
        r@ == distinct(v@),
        increasing(r@),
        r@.to_set() == v@.to_set(),
{
    let mut out: Vec<i64> = Vec::new();
    let mut i: usize = 0;
    assert(out@.to_set() =~= v@.take(0).to_set());
    while i < v.len()
        invariant
            i <= v@.len(),
            increasing(out@),
            out@.to_set() == v@.take(i as int).to_set(),
        decreases v@.len() - i,
    {
        let ghost t = v@.take(i as int);
        let ghost u = v@.take(i + 1);
        insert_id(&mut out, v[i]);
        proof {
            assert(u =~= t.push(v@[i as int]));
            assert forall|y: i64| u.to_set().contains(y) <==> t.to_set().insert(v@[i as int]).contains(y) by {
                if t.contains(y) {
                    let k = choose|k: int| 0 <= k < t.len() && t[k] == y;
                    assert(u[k] == y);
                }
                assert(u[i as int] == v@[i as int]);
                if u.contains(y) {
                    let k = choose|k: int| 0 <= k < u.len() && u[k] == y;
                    if k < i {
                        assert(t[k] == y);
                    }
                }
            }
            assert(u.to_set() =~= t.to_set().insert(v@[i as int]));
        }
        i += 1;
    }
    proof {
        assert(v@.take(v@.len() as int) =~= v@);
        let c = distinct(v@);
        assert(increasing(c) && c.to_set() == v@.to_set());
        increasing_is_unique(c, out@);
    }
    out
}

/// Whether an element has a number.
pub open spec fn keyed_by<T>(key: spec_fn(T) -> i64, id: i64) -> spec_fn(T) -> bool {
    |x: T| key(x) == id
}

/// The elements with a number.
pub open spec fn group<T>(s: Seq<T>, key: spec_fn(T) -> i64, id: i64) -> Seq<T> {
    s.filter(keyed_by(key, id))
}

/// The elements grouped by a number, the groups in increasing order, the elements in their order.
pub open spec fn grouped<T>(s: Seq<T>, key: spec_fn(T) -> i64) -> Seq<(i64, Seq<T>)> {
    distinct(s.map_values(key)).map_values(|id: i64| (id, group(s, key, id)))
}

/// Assets by package.
pub open spec fn packaged(s: Seq<AssetView>) -> Seq<(i64, Seq<AssetView>)> {
    grouped(s, |a: AssetView| a.package_id)
}

fn package_keys(v: &Vec<Asset>) -> (r: Vec<i64>)
    ensures
        r@ == v.deep_view().map_values(|a: AssetView| a.package_id),
{
    let ghost key = |a: AssetView| a.package_id;
    let mut out: Vec<i64> = Vec::new();
    let mut i: usize = 0;
    while i < v.len()
        invariant
            i <= v@.len(),
            out@.len() == i,
            forall|k: int| 0 <= k < i ==> out@[k] == (#[trigger] v.deep_view()[k]).package_id,
        decreases v@.len() - i,
    {
        assert(v.deep_view()[i as int] == v@[i as int]@);
        out.push(v[i].package_id);
        i += 1;
    }
    assert(out@ =~= v.deep_view().map_values(key));
    out
}

/// The assets of one package.
pub fn of_package(v: &Vec<Asset>, pid: i64) -> (r: Vec<Asset>)
    ensures
        r.deep_view() == v.deep_view().filter(|a: AssetView| a.package_id == pid),
{
    let ghost s = v.deep_view();
    let ghost p = |a: AssetView| a.package_id == pid;
    let mut out: Vec<Asset> = Vec::new();
    let mut i: usize = 0;
    proof {
        lemma_filter_none(s, p);
        assert(out.deep_view() =~= s.take(0).filter(p));
    }
    while i < v.len()
        invariant
            i <= v@.len(),
            s == v.deep_view(),
            p == (|a: AssetView| a.package_id == pid),
            out.deep_view() == s.take(i as int).filter(p),
        decreases v@.len() - i,
    {
        proof {
            lemma_filter_step(s, p, i as int);
            assert(s[i as int] == v@[i as int]@);
        }
        if v[i].package_id == pid {
            let ghost o0 = out.deep_view();
            out.push(v[i].clone());
            assert(out.deep_view() =~= o0.push(s[i as int]));
        }
        i += 1;
    }
    assert(s.take(s.len() as int) =~= s);
    out
}

/// Groups assets by package.
pub fn by_package(v: &Vec<Asset>) -> (r: Vec<(i64, Vec<Asset>)>)
    ensures
        r.deep_view() == packaged(v.deep_view()),
{
    let ghost s = v.deep_view();
    let ghost key = |a: AssetView| a.package_id;
    let keys = package_keys(v);
    let ids = distinct_ids(&keys);
    let ghost f = |id: i64| (id, group(s, key, id));
    let mut out: Vec<(i64, Vec<Asset>)> = Vec::new();
    let mut i: usize = 0;
    assert(out.deep_view() =~= ids@.take(0).map_values(f));
    while i < ids.len()
        invariant
            i <= ids@.len(),
            s == v.deep_view(),
            key == (|a: AssetView| a.package_id),
            f == (|id: i64| (id, group(s, key, id))),
            out.deep_view() == ids@.take(i as int).map_values(f),
        decreases ids@.len() - i,
    {
        let id: i64 = ids[i];
        let members = of_package(v, id);
        let ghost o0 = out.deep_view();
        let ghost gv = members.deep_view();
        out.push((id, members));
        proof {
            let p = |a: AssetView| a.package_id == id;
            assert(keyed_by(key, id) =~= p);
            assert(out.deep_view() =~= o0.push((id, gv)));
            assert(out.deep_view() =~= ids@.take(i + 1).map_values(f));
        }
        i += 1;
    }
    assert(ids@.take(ids@.len() as int) =~= ids@);
    out
}

/// Every element is in the group of its number, and in no other: a group holds just the elements
/// with its number.
pub proof fn groups_hold_their_own<T>(s: Seq<T>, key: spec_fn(T) -> i64, g: int, x: T)
    requires
        0 <= g < grouped(s, key).len(),
    ensures
        grouped(s, key)[g].1.contains(x) <==> s.contains(x) && key(x) == grouped(s, key)[g].0,
{
    let id = grouped(s, key)[g].0;
    assert(grouped(s, key)[g].1 == group(s, key, id));
    crate::seqs::lemma_filter_has(s, keyed_by(key, id), x);
}

proof fn lemma_insert_increasing(s: Seq<i64>, x: i64, n: int) -> (r: Seq<i64>)
    requires
        increasing(s),
        0 <= n <= s.len(),
        forall|j: int| 0 <= j < n ==> (#[trigger] s[j]) < x,
    ensures
        increasing(r),
        r.to_set() == s.to_set().insert(x),
    decreases s.len() - n,
{
    if n < s.len() && s[n] < x {
        lemma_insert_increasing(s, x, n + 1)
    } else if n < s.len() && s[n] == x {
        assert(s.to_set().contains(s[n]));
        assert(s.to_set().insert(x) =~= s.to_set());
        s
    } else {
        let t = s.insert(n, x);
        assert forall|a: int, b: int| 0 <= a < b < t.len() implies (#[trigger] t[a]) < (#[trigger] t[b]) by {
            let a1 = if a < n { a } else { a - 1 };
            let b1 = if b < n { b } else { b - 1 };
            if a != n && b != n {
                assert(s[a1] < s[b1]);
            } else if a == n && b1 > n {
                assert(s[n] < s[b1]);
            }
        }
        assert forall|y: i64| t.to_set().contains(y) <==> s.to_set().insert(x).contains(y) by {
            if s.contains(y) {
                let k = choose|k: int| 0 <= k < s.len() && s[k] == y;
                if k < n {
                    assert(t[k] == y);
                } else {
                    assert(t[k + 1] == y);
                }
            }
            assert(t[n] == x);
            if t.contains(y) {
                let k = choose|k: int| 0 <= k < t.len() && t[k] == y;
                if k < n {
                    assert(s[k] == y);
                } else if k > n {
                    assert(s[k - 1] == y);
                }
            }
        }
        assert(t.to_set() =~= s.to_set().insert(x));
        t
    }
}

proof fn lemma_distinct_there(s: Seq<i64>)
    ensures
        exists|r: Seq<i64>| increasing(r) && #[trigger] r.to_set() == s.to_set(),
    decreases s.len(),
{
    if s.len() == 0 {
        assert(increasing(s) && s.to_set() == s.to_set());
    } else {
        lemma_distinct_there(s.drop_last());
        let q = choose|r: Seq<i64>| increasing(r) && #[trigger] r.to_set() == s.drop_last().to_set();
        let r = lemma_insert_increasing(q, s.last(), 0);
        assert forall|y: i64| s.to_set().contains(y) <==> r.to_set().contains(y) by {
            let t = s.drop_last();
            if s.contains(y) {
                let k = choose|k: int| 0 <= k < s.len() && s[k] == y;
                if k < t.len() {
                    assert(t[k] == y);
                    assert(t.to_set().contains(y));
                }
            }
            if t.to_set().contains(y) {
                let k = choose|k: int| 0 <= k < t.len() && t[k] == y;
                assert(s[k] == y);
            }
            assert(s[s.len() - 1] == s.last());
        }
        assert(r.to_set() =~= s.to_set());
    }
}

/// Each number of a list is listed once, in increasing order.
pub proof fn distinct_numbers_are_all_there(s: Seq<i64>)
    ensures
        increasing(distinct(s)),
        distinct(s).to_set() == s.to_set(),
{
    lemma_distinct_there(s);
}

/// Every item is in a group: that of its key.
pub proof fn every_item_has_a_group<T>(s: Seq<T>, key: spec_fn(T) -> i64, x: T) -> (g: int)
    requires
        s.contains(x),
    ensures
        0 <= g < grouped(s, key).len(),
        grouped(s, key)[g].0 == key(x),
        grouped(s, key)[g].1.contains(x),
{
    let keys = s.map_values(key);
    distinct_numbers_are_all_there(keys);
    let k = choose|k: int| 0 <= k < s.len() && s[k] == x;
    assert(keys[k] == key(x));
    assert(keys.to_set().contains(key(x)));
    assert(distinct(keys).to_set().contains(key(x)));
    let g = choose|g: int| 0 <= g < distinct(keys).len() && distinct(keys)[g] == key(x);
    groups_hold_their_own(s, key, g, x);
    g
}

} // verus!
