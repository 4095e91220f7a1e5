//! Ordered collections keyed by text, and a sort.

use vstd::prelude::*;
use vstd::seq_lib::*;

use crate::text::{chars_of, same_text};

verus! {

/// Lexicographic order by code point, strict.
pub open spec fn before(a: Seq<char>, b: Seq<char>) -> bool
    decreases a.len(),
{
    if b.len() == 0 {
        false
    } else if a.len() == 0 {
        true
    } else if a[0] != b[0] {
        a[0] < b[0]
    } else {
        before(a.drop_first(), b.drop_first())
    }
}

pub open spec fn at_most(a: Seq<char>, b: Seq<char>) -> bool {
    a == b || before(a, b)
}

pub proof fn before_is_irreflexive(a: Seq<char>)
    ensures
        !before(a, a),
    decreases a.len(),
{
    if a.len() > 0 {
        before_is_irreflexive(a.drop_first());
    }
}

pub proof fn before_is_transitive(a: Seq<char>, b: Seq<char>, c: Seq<char>)
    requires
        before(a, b),
        before(b, c),
    ensures
        before(a, c),
    decreases a.len(),
{
    if a.len() > 0 && b.len() > 0 && c.len() > 0 && a[0] == b[0] && b[0] == c[0] {
        before_is_transitive(a.drop_first(), b.drop_first(), c.drop_first());
    }
}

pub proof fn before_is_total(a: Seq<char>, b: Seq<char>)
    ensures
        a == b || before(a, b) || before(b, a),
    decreases a.len(),
{
    if a.len() == 0 {
        if b.len() == 0 {
            assert(a =~= b);
        }
    } else if b.len() > 0 && a[0] == b[0] {
        before_is_total(a.drop_first(), b.drop_first());
        if a.drop_first() == b.drop_first() {
            assert(a =~= seq![a[0]] + a.drop_first());
            assert(b =~= seq![b[0]] + b.drop_first());
        }
    }
}

/// How one text stands to another.
pub enum Place {
    Before,
    Same,
    After,
}

pub open spec fn place(a: Seq<char>, b: Seq<char>) -> Place {
    if a == b {
        Place::Same
    } else if before(a, b) {
        Place::Before
    } else {
        Place::After
    }
}

pub fn place_of(a: &str, b: &str) -> (r: Place)
    ensures
        r == place(a@, b@),
        r is After ==> before(b@, a@),
{
    let x = chars_of(a);
    let y = chars_of(b);
    let mut i: usize = 0;
    proof {
        before_is_total(a@, b@);
        before_is_irreflexive(a@);
        assert(x@.skip(0) == x@);
        assert(y@.skip(0) == y@);
    }
    while i < x.len() && i < y.len()
        invariant
            i <= x@.len(),
            i <= y@.len(),
            x@ == a@,
            y@ == b@,
            forall|j: int| 0 <= j < i ==> x@[j] == y@[j],
            before(x@, y@) == before(x@.skip(i as int), y@.skip(i as int)),
            before(y@, x@) == before(y@.skip(i as int), x@.skip(i as int)),
        decreases x@.len() - i,
    {
        if x[i] < y[i] {
            assert(x@[i as int] != y@[i as int]);
            return Place::Before;
        }
        if x[i] > y[i] {
            assert(x@[i as int] != y@[i as int]);
            return Place::After;
        }
        proof {
            assert(x@.skip(i as int).drop_first() == x@.skip(i + 1));
            assert(y@.skip(i as int).drop_first() == y@.skip(i + 1));
        }
        i += 1;
    }
    if x.len() == y.len() {
        assert(x@ =~= y@);
        Place::Same
    } else if i == x.len() {
        Place::Before
    } else {
        Place::After
    }
}

// ----- sets ----------------------------------------------------------------------------------

/// Strictly ascending.
pub open spec fn ascending(s: Seq<Seq<char>>) -> bool {
    forall|i: int, j: int| 0 <= i < j < s.len() ==> before(#[trigger] s[i], #[trigger] s[j])
}

pub proof fn ascending_has_no_duplicates(s: Seq<Seq<char>>)
    requires
        ascending(s),
    ensures
        s.no_duplicates(),
{
    assert forall|i: int, j: int| 0 <= i < s.len() && 0 <= j < s.len() && i != j implies s[i]
        != s[j] by {
        before_is_irreflexive(s[i]);
        if i < j {
            assert(before(s[i], s[j]));
        } else {
            assert(before(s[j], s[i]));
        }
    }
}

/// The members of a set in ascending order.
pub open spec fn ascending_of(s: Set<Seq<char>>) -> Seq<Seq<char>> {
    choose|r: Seq<Seq<char>>| ascending(r) && r.to_set() == s
}

/// There is one ascending list of a set's members.
pub proof fn ascending_is_unique(a: Seq<Seq<char>>, b: Seq<Seq<char>>)
    requires
        ascending(a),
        ascending(b),
        a.to_set() == b.to_set(),
    ensures
        a == b,
    decreases a.len(),
{
    if a.len() == 0 {
        if b.len() > 0 {
            assert(b.to_set().contains(b[0]));
            assert(a.to_set().contains(b[0]));
        }
        assert(a =~= b);
    } else {
        assert(a.to_set().contains(a.last()));
        assert(b.to_set().contains(a.last()));
        let i = choose|i: int| 0 <= i < b.len() && b[i] == a.last();
        assert(b.to_set().contains(b.last()));
        assert(a.to_set().contains(b.last()));
        let j = choose|j: int| 0 <= j < a.len() && a[j] == b.last();
        if i < b.len() - 1 {
            assert(before(b[i], b[b.len() - 1]));
            if j < a.len() - 1 {
                assert(before(a[j], a[a.len() - 1]));
                before_is_transitive(a.last(), b.last(), a.last());
            }
            before_is_irreflexive(a.last());
        }
        assert(a.last() == b.last());
        ascending_has_no_duplicates(a);
        ascending_has_no_duplicates(b);
        let c = a.drop_last();
        let d = b.drop_last();
        assert forall|x: Seq<char>| c.to_set().contains(x) <==> d.to_set().contains(x) by {
            if c.contains(x) {
                let k = choose|k: int| 0 <= k < c.len() && c[k] == x;
                assert(a[k] == x && a[k] != a[a.len() - 1]);
                assert(a.to_set().contains(x));
                assert(b.to_set().contains(x));
                let m = choose|m: int| 0 <= m < b.len() && b[m] == x;
                assert(d[m] == x);
            }
            if d.contains(x) {
                let k = choose|k: int| 0 <= k < d.len() && d[k] == x;
                assert(b[k] == x && b[k] != b[b.len() - 1]);
                assert(b.to_set().contains(x));
                assert(a.to_set().contains(x));
                let m = choose|m: int| 0 <= m < a.len() && a[m] == x;
                assert(c[m] == x);
            }
        }
        assert(c.to_set() =~= d.to_set());
        ascending_is_unique(c, d);
        assert(a =~= c.push(a.last()));
        assert(b =~= d.push(b.last()));
    }
}

/// An ascending list is the one of its members.
pub proof fn lemma_ascending_of(r: Seq<Seq<char>>)
    requires
        ascending(r),
    ensures
        ascending_of(r.to_set()) == r,
{
    let c = ascending_of(r.to_set());
    assert(ascending(c) && c.to_set() == r.to_set());
    ascending_is_unique(c, r);
}

/// A finite set has an ascending list of its members.
pub proof fn finite_sets_are_listed(s: Set<Seq<char>>)
    requires
        s.finite(),
    ensures
        ascending(ascending_of(s)),
        ascending_of(s).to_set() == s,
    decreases s.len(),
{
    if s.len() == 0 {
        let r = Seq::<Seq<char>>::empty();
        assert(s =~= Set::<Seq<char>>::empty());
        assert(r.to_set() =~= s);
        assert(ascending(r));
    } else {
        let k = s.choose();
        let t = s.remove(k);
        finite_sets_are_listed(t);
        let r = lemma_insert_ascending(ascending_of(t), k);
        assert(t.insert(k) =~= s);
        assert(ascending(r) && r.to_set() == s);
    }
}

/// Where `k` stands, or would stand, in an ascending list.
pub open spec fn slot(s: Seq<Seq<char>>, k: Seq<char>, i: int) -> bool {
    &&& 0 <= i <= s.len()
    &&& forall|j: int| 0 <= j < i ==> before(#[trigger] s[j], k)
    &&& forall|j: int| i <= j < s.len() ==> at_most(k, #[trigger] s[j])
}

pub proof fn slot_finds(s: Seq<Seq<char>>, k: Seq<char>, i: int)
    requires
        ascending(s),
        slot(s, k, i),
    ensures
        s.contains(k) <==> (i < s.len() && s[i] == k),
{
    if s.contains(k) {
        let m = choose|m: int| 0 <= m < s.len() && s[m] == k;
        before_is_irreflexive(k);
        if m < i {
            assert(before(s[m], k));
        } else if m > i {
            assert(at_most(k, s[i]));
            assert(before(s[i], s[m]));
            if before(k, s[i]) {
                before_is_transitive(k, s[i], k);
            }
        }
    }
}

pub proof fn slot_inserts(s: Seq<Seq<char>>, k: Seq<char>, i: int)
    requires
        ascending(s),
        slot(s, k, i),
        !s.contains(k),
    ensures
        ascending(s.insert(i, k)),
        s.insert(i, k).to_set() == s.to_set().insert(k),
{
    let t = s.insert(i, k);
    assert forall|a: int, b: int| 0 <= a < b < t.len() implies before(
        #[trigger] t[a],
        #[trigger] t[b],
    ) by {
        if a < i && b == i {
            assert(before(s[a], k));
        } else if a == i && b > i {
            assert(at_most(k, s[b - 1]));
            assert(s.contains(s[b - 1]));
        } else if a < i && b > i {
            assert(before(s[a], s[b - 1]));
        } else if a > i {
            assert(before(s[a - 1], s[b - 1]));
        } else {
            assert(before(s[a], s[b]));
        }
    }
    assert forall|x: Seq<char>| t.to_set().contains(x) <==> s.to_set().insert(k).contains(x) by {
        if s.contains(x) {
            let m = choose|m: int| 0 <= m < s.len() && s[m] == x;
            if m < i {
                assert(t[m] == x);
            } else {
                assert(t[m + 1] == x);
            }
        }
        if t.contains(x) {
            let m = choose|m: int| 0 <= m < t.len() && t[m] == x;
            if m < i {
                assert(s[m] == x);
            } else if m > i {
                assert(s[m - 1] == x);
            }
        }
        assert(t[i] == k);
    }
    assert(t.to_set() =~= s.to_set().insert(k));
}

proof fn lemma_slot_there(s: Seq<Seq<char>>, k: Seq<char>, n: int) -> (i: int)
    requires
        ascending(s),
        0 <= n <= s.len(),
        forall|j: int| 0 <= j < n ==> before(#[trigger] s[j], k),
    ensures
        slot(s, k, i),
    decreases s.len() - n,
{
    if n == s.len() {
        n
    } else if before(s[n], k) {
        lemma_slot_there(s, k, n + 1)
    } else {
        before_is_total(s[n], k);
        assert forall|j: int| n <= j < s.len() implies at_most(k, #[trigger] s[j]) by {
            if j > n {
                assert(before(s[n], s[j]));
                if k != s[n] {
                    before_is_transitive(k, s[n], s[j]);
                }
            }
        }
        n
    }
}

/// One more text finds its place in an ascending list.
pub proof fn lemma_insert_ascending(s: Seq<Seq<char>>, k: Seq<char>) -> (r: Seq<Seq<char>>)
    requires
        ascending(s),
    ensures
        ascending(r),
        r.to_set() == s.to_set().insert(k),
{
    let i = lemma_slot_there(s, k, 0);
    if s.contains(k) {
        assert(s.to_set().insert(k) =~= s.to_set());
        s
    } else {
        slot_inserts(s, k, i);
        s.insert(i, k)
    }
}

/// Binary search in an ascending list.
pub fn search(keys: &Vec<String>, k: &str) -> (r: (usize, bool))
    requires
        ascending(keys.deep_view()),
    ensures
        slot(keys.deep_view(), k@, r.0 as int),
        r.1 == keys.deep_view().contains(k@),
        r.1 ==> r.0 < keys@.len() && keys@[r.0 as int]@ == k@,
{
    let ghost s = keys.deep_view();
    let mut lo: usize = 0;
    let mut hi: usize = keys.len();
    while lo < hi
        invariant
            lo <= hi <= keys@.len(),
            s == keys.deep_view(),
            ascending(s),
            forall|j: int| 0 <= j < lo ==> before(#[trigger] s[j], k@),
            forall|j: int| hi <= j < s.len() ==> at_most(k@, #[trigger] s[j]),
        decreases hi - lo,
    {
        let mid: usize = lo + (hi - lo) / 2;
        assert(s[mid as int] == keys@[mid as int]@);
        match place_of(keys[mid].as_str(), k) {
            Place::Before => {
                proof {
                    assert forall|j: int| 0 <= j < mid + 1 implies before(#[trigger] s[j], k@) by {
                        if j < mid {
                            assert(before(s[j], s[mid as int]));
                            before_is_transitive(s[j], s[mid as int], k@);
                        }
                    }
                }
                lo = mid + 1;
            },
            _ => {
                proof {
                    assert forall|j: int| mid <= j < s.len() implies at_most(
                        k@,
                        #[trigger] s[j],
                    ) by {
                        if j > mid {
                            assert(before(s[mid as int], s[j]));
                            if k@ != s[mid as int] {
                                before_is_transitive(k@, s[mid as int], s[j]);
                            }
                        }
                    }
                }
                hi = mid;
            },
        }
    }
    proof {
        slot_finds(s, k@, lo as int);
    }
    if lo < keys.len() && same_text(keys[lo].as_str(), k) {
        assert(s[lo as int] == k@);
        (lo, true)
    } else {
        (lo, false)
    }
}

/// An ordered set of texts.
#[derive(Debug)]
pub struct TextSet {
    keys: Vec<String>,
}

impl View for TextSet {
    type V = Set<Seq<char>>;

    closed spec fn view(&self) -> Set<Seq<char>> {
        self.keys.deep_view().to_set()
    }
}

impl DeepView for TextSet {
    type V = Set<Seq<char>>;

    open spec fn deep_view(&self) -> Set<Seq<char>> {
        self.view()
    }
}

impl TextSet {
    /// The members in order.
    pub closed spec fn order(&self) -> Seq<Seq<char>> {
        self.keys.deep_view()
    }

    #[verifier::type_invariant]
    closed spec fn wf(&self) -> bool {
        ascending(self.keys.deep_view())
    }

    pub fn new() -> (r: TextSet)
        ensures
            r@ == Set::<Seq<char>>::empty(),
            r.order() == Seq::<Seq<char>>::empty(),
    {
        let keys: Vec<String> = Vec::new();
        assert(keys.deep_view() =~= Seq::<Seq<char>>::empty());
        let r = TextSet { keys };
        assert(r@ =~= Set::<Seq<char>>::empty());
        r
    }

    pub fn len(&self) -> (n: usize)
        ensures
            n == self.order().len(),
            n == self@.len(),
            self@.finite(),
    {
        proof {
            use_type_invariant(self);
            ascending_has_no_duplicates(self.keys.deep_view());
            self.keys.deep_view().unique_seq_to_set();
        }
        self.keys.len()
    }

    pub fn is_empty(&self) -> (r: bool)
        ensures
            r == (self.order().len() == 0),
            r == (self@ == Set::<Seq<char>>::empty()),
    {
        let n: usize = self.keys.len();
        proof {
            if n == 0 {
                assert(self@ =~= Set::<Seq<char>>::empty());
            } else {
                assert(self@.contains(self.keys.deep_view()[0]));
            }
        }
        n == 0
    }

    pub fn get(&self, i: usize) -> (r: &String)
        requires
            i < self.order().len(),
        ensures
            r@ == self.order()[i as int],
    {
        &self.keys[i]
    }

    pub fn contains(&self, k: &str) -> (r: bool)
        ensures
            r == self@.contains(k@),
    {
        proof {
            use_type_invariant(self);
        }
        search(&self.keys, k).1
    }

    /// Puts a text into the set; says whether it is new.
    pub fn insert(&mut self, k: String) -> (r: bool)
        ensures
            final(self)@ == old(self)@.insert(k@),
            r == !old(self)@.contains(k@),
    {
        proof {
            use_type_invariant(&*self);
        }
        let mut keys: Vec<String> = Vec::new();
        assert(keys.deep_view() =~= Seq::<Seq<char>>::empty());
        std::mem::swap(&mut keys, &mut self.keys);
        let ghost s = keys.deep_view();
        let (i, found) = search(&keys, k.as_str());
        if found {
            assert(s.to_set().insert(k@) =~= s.to_set());
            *self = TextSet { keys };
            false
        } else {
            proof {
                slot_inserts(s, k@, i as int);
            }
            let ghost kv = k@;
            keys.insert(i, k);
            assert(keys.deep_view() =~= s.insert(i as int, kv));
            *self = TextSet { keys };
            true
        }
    }

    /// Takes a text out of the set; says whether it was there.
    pub fn remove(&mut self, k: &str) -> (r: bool)
        ensures
            final(self)@ == old(self)@.remove(k@),
            r == old(self)@.contains(k@),
    {
        proof {
            use_type_invariant(&*self);
        }
        let mut keys: Vec<String> = Vec::new();
        assert(keys.deep_view() =~= Seq::<Seq<char>>::empty());
        std::mem::swap(&mut keys, &mut self.keys);
        let ghost s = keys.deep_view();
        let (i, found) = search(&keys, k);
        if found {
            keys.remove(i);
            proof {
                let t = s.remove(i as int);
                ascending_has_no_duplicates(s);
                assert(keys.deep_view() =~= t);
                assert(s[i as int] == k@);
                assert forall|a: int, b: int| 0 <= a < b < t.len() implies before(
                    #[trigger] t[a],
                    #[trigger] t[b],
                ) by {
                    let a1 = if a < i { a } else { a + 1 };
                    let b1 = if b < i { b } else { b + 1 };
                    assert(before(s[a1], s[b1]));
                }
                assert forall|x: Seq<char>| t.to_set().contains(x) <==> s.to_set().remove(
                    k@,
                ).contains(x) by {
                    if s.contains(x) && x != k@ {
                        let m = choose|m: int| 0 <= m < s.len() && s[m] == x;
                        if m < i {
                            assert(t[m] == x);
                        } else {
                            assert(t[m - 1] == x);
                        }
                    }
                    if t.contains(x) {
                        let m = choose|m: int| 0 <= m < t.len() && t[m] == x;
                        let n = if m < i { m } else { m + 1 };
                        assert(s[n] == x);
                    }
                }
                assert(t.to_set() =~= s.to_set().remove(k@));
            }
            *self = TextSet { keys };
            true
        } else {
            assert(s.to_set().remove(k@) =~= s.to_set());
            *self = TextSet { keys };
            false
        }
    }

    /// The members in order, as a list.
    pub fn to_vec(&self) -> (r: Vec<String>)
        ensures
            r.deep_view() == ascending_of(self@),
            r.deep_view() == self.order(),
            ascending(r.deep_view()),
            r.deep_view().to_set() == self@,
    {
        proof {
            use_type_invariant(self);
            lemma_ascending_of(self.keys.deep_view());
        }
        let r = self.keys.clone();
        assert(r.deep_view() =~= self.keys.deep_view());
        r
    }
}

impl Clone for TextSet {
    fn clone(&self) -> (r: Self)
        ensures
            r.order() == self.order(),
            r@ == self@,
    {
        let keys = self.to_vec();
        TextSet { keys }
    }
}

// ----- maps ----------------------------------------------------------------------------------

/// An ordered map keyed by text.
#[derive(Debug)]
pub struct TextMap<V> {
    keys: Vec<String>,
    vals: Vec<V>,
}

impl<V> View for TextMap<V> {
    type V = Map<Seq<char>, V>;

    closed spec fn view(&self) -> Map<Seq<char>, V> {
        Map::new(
            |k: Seq<char>| self.keys.deep_view().contains(k),
            |k: Seq<char>| self.vals@[self.keys.deep_view().index_of(k)],
        )
    }
}

impl<V: DeepView> DeepView for TextMap<V> {
    type V = Map<Seq<char>, <V as DeepView>::V>;

    open spec fn deep_view(&self) -> Map<Seq<char>, <V as DeepView>::V> {
        self.view().map_values(|v: V| v.deep_view())
    }
}

proof fn lemma_found<V>(keys: Seq<Seq<char>>, vals: Seq<V>, i: int)
    requires
        ascending(keys),
        0 <= i < keys.len(),
    ensures
        keys.contains(keys[i]),
        keys.index_of(keys[i]) == i,
{
    ascending_has_no_duplicates(keys);
    assert(keys.contains(keys[i]));
    let m = keys.index_of(keys[i]);
    assert(0 <= m < keys.len() && keys[m] == keys[i]);
}

impl<V> TextMap<V> {
    /// The keys in order.
    pub closed spec fn order(&self) -> Seq<Seq<char>> {
        self.keys.deep_view()
    }

    #[verifier::type_invariant]
    closed spec fn wf(&self) -> bool {
        &&& ascending(self.keys.deep_view())
        &&& self.vals@.len() == self.keys@.len()
    }

    pub fn new() -> (r: TextMap<V>)
        ensures
            r@ == Map::<Seq<char>, V>::empty(),
            r.order() == Seq::<Seq<char>>::empty(),
    {
        let keys: Vec<String> = Vec::new();
        assert(keys.deep_view() =~= Seq::<Seq<char>>::empty());
        let r = TextMap { keys, vals: Vec::new() };
        assert(r@ =~= Map::<Seq<char>, V>::empty());
        r
    }

    pub fn len(&self) -> (n: usize)
        ensures
            n == self.order().len(),
            n == self@.dom().len(),
            self@.dom().finite(),
    {
        proof {
            use_type_invariant(self);
            let s = self.keys.deep_view();
            ascending_has_no_duplicates(s);
            s.unique_seq_to_set();
            assert(self@.dom() =~= s.to_set());
        }
        self.keys.len()
    }

    pub fn is_empty(&self) -> (r: bool)
        ensures
            r == (self.order().len() == 0),
            r == (self@.dom() == Set::<Seq<char>>::empty()),
    {
        let n: usize = self.keys.len();
        proof {
            if n == 0 {
                assert(self@.dom() =~= Set::<Seq<char>>::empty());
            } else {
                assert(self.keys.deep_view().contains(self.keys.deep_view()[0]));
                assert(self@.dom().contains(self.keys.deep_view()[0]));
            }
        }
        n == 0
    }

    pub fn contains_key(&self, k: &str) -> (r: bool)
        ensures
            r == self@.contains_key(k@),
    {
        proof {
            use_type_invariant(self);
        }
        search(&self.keys, k).1
    }

    pub fn get(&self, k: &str) -> (r: Option<&V>)
        ensures
            match r {
                Some(v) => self@.contains_key(k@) && *v == self@[k@],
                None => !self@.contains_key(k@),
            },
    {
        proof {
            use_type_invariant(self);
        }
        let (i, found) = search(&self.keys, k);
        if found {
            proof {
                lemma_found(self.keys.deep_view(), self.vals@, i as int);
            }
            Some(&self.vals[i])
        } else {
            None
        }
    }

    /// The keys in order, as a list.
    pub fn keys(&self) -> (r: Vec<String>)
        ensures
            r.deep_view() == ascending_of(self@.dom()),
            r.deep_view() == self.order(),
            ascending(r.deep_view()),
            r.deep_view().to_set() == self@.dom(),
    {
        proof {
            use_type_invariant(self);
            lemma_ascending_of(self.keys.deep_view());
            assert(self@.dom() =~= self.keys.deep_view().to_set());
        }
        let r = self.keys.clone();
        assert(r.deep_view() =~= self.keys.deep_view());
        r
    }

    pub fn key_at(&self, i: usize) -> (r: &String)
        requires
            i < self.order().len(),
        ensures
            r@ == self.order()[i as int],
    {
        &self.keys[i]
    }

    pub fn value_at(&self, i: usize) -> (r: &V)
        requires
            i < self.order().len(),
        ensures
            self@.contains_key(self.order()[i as int]),
            *r == self@[self.order()[i as int]],
    {
        proof {
            use_type_invariant(self);
            lemma_found(self.keys.deep_view(), self.vals@, i as int);
        }
        &self.vals[i]
    }

    /// Sets the value of a key.
    pub fn insert(&mut self, k: String, v: V)
        ensures
            final(self)@ == old(self)@.insert(k@, v),
    {
        proof {
            use_type_invariant(&*self);
        }
        let mut all = TextMap::<V>::new();
        std::mem::swap(&mut all, self);
        proof {
            use_type_invariant(&all);
        }
        let ghost m0 = all@;
        let ghost s = all.keys.deep_view();
        let ghost kv = k@;
        let TextMap { mut keys, mut vals } = all;
        let ghost vs = vals@;
        let (i, found) = search(&keys, k.as_str());
        proof {
            ascending_has_no_duplicates(s);
        }
        if found {
            vals.set(i, v);
            let r = TextMap { keys, vals };
            proof {
                assert(r.keys.deep_view() =~= s);
                assert(s[i as int] == kv);
                assert forall|x: Seq<char>| s.contains(x) implies r@[x] == (if x == kv {
                    v
                } else {
                    m0[x]
                }) by {
                    let m = s.index_of(x);
                    assert(0 <= m < s.len() && s[m] == x);
                }
                assert(r@ =~= m0.insert(kv, v));
            }
            *self = r;
        } else {
            proof {
                slot_inserts(s, kv, i as int);
                ascending_has_no_duplicates(s.insert(i as int, kv));
            }
            keys.insert(i, k);
            vals.insert(i, v);
            let ghost t = s.insert(i as int, kv);
            assert(keys.deep_view() =~= t);
            let r = TextMap { keys, vals };
            proof {
                assert forall|x: Seq<char>| t.contains(x) <==> (s.contains(x) || x == kv) by {
                    assert(t.to_set().contains(x) <==> s.to_set().insert(kv).contains(x));
                }
                assert forall|x: Seq<char>| t.contains(x) implies r@[x] == (if x == kv {
                    v
                } else {
                    m0[x]
                }) by {
                    let m = t.index_of(x);
                    assert(0 <= m < t.len() && t[m] == x);
                    if x == kv {
                        assert(t[i as int] == kv);
                    } else {
                        let n = s.index_of(x);
                        assert(0 <= n < s.len() && s[n] == x);
                        if n < i {
                            assert(t[n] == x);
                        } else {
                            assert(t[n + 1] == x);
                        }
                    }
                }
                assert(r@ =~= m0.insert(kv, v));
            }
            *self = r;
        }
    }
}

impl<V: DeepView + Clone> Clone for TextMap<V> {
    fn clone(&self) -> (r: Self)
        ensures
            r.order() == self.order(),
            r@.dom() == self@.dom(),
            forall|k: Seq<char>| #[trigger] self@.contains_key(k) ==> cloned::<V>(self@[k], r@[k]),
    {
        proof {
            use_type_invariant(self);
        }
        let keys = self.keys.clone();
        let vals = self.vals.clone();
        assert(keys.deep_view() =~= self.keys.deep_view());
        let r = TextMap { keys, vals };
        proof {
            assert(r@.dom() =~= self@.dom());
            assert forall|k: Seq<char>| #[trigger] self@.contains_key(k) implies cloned::<V>(
                self@[k],
                r@[k],
            ) by {
                let m = self.keys.deep_view().index_of(k);
                assert(self.keys.deep_view().contains(k));
                assert(0 <= m < self.keys.deep_view().len());
            }
        }
        r
    }
}

// ----- sorting -------------------------------------------------------------------------------

/// A total preorder: any two are comparable, and the order carries over.
pub open spec fn orders<T>(leq: spec_fn(T, T) -> bool) -> bool {
    &&& forall|a: T, b: T| #[trigger] leq(a, b) || leq(b, a)
    &&& forall|a: T, b: T, c: T| #[trigger] leq(a, b) && #[trigger] leq(b, c) ==> leq(a, c)
}

pub open spec fn in_order<T>(s: Seq<T>, leq: spec_fn(T, T) -> bool) -> bool {
    forall|i: int, j: int| 0 <= i < j < s.len() ==> leq(#[trigger] s[i], #[trigger] s[j])
}

/// `x` put into `s` behind everything that it does not precede.
pub open spec fn placed<T>(s: Seq<T>, x: T, leq: spec_fn(T, T) -> bool) -> Seq<T>
    decreases s.len(),
{
    if s.len() == 0 || leq(s.last(), x) {
        s.push(x)
    } else {
        placed(s.drop_last(), x, leq).push(s.last())
    }
}

/// The elements of `s` in the given order, equal ones in the order they stand in.
pub open spec fn arranged<T>(s: Seq<T>, leq: spec_fn(T, T) -> bool) -> Seq<T>
    decreases s.len(),
{
    if s.len() == 0 {
        s
    } else {
        placed(arranged(s.drop_last(), leq), s.last(), leq)
    }
}

spec fn none_after<T>(s: Seq<T>, y: T, leq: spec_fn(T, T) -> bool) -> bool {
    forall|i: int| 0 <= i < s.len() ==> leq(#[trigger] s[i], y)
}

proof fn lemma_placed<T>(s: Seq<T>, x: T, leq: spec_fn(T, T) -> bool)
    requires
        orders(leq),
        in_order(s, leq),
    ensures
        in_order(placed(s, x, leq), leq),
        placed(s, x, leq).to_multiset() == s.to_multiset().insert(x),
        placed(s, x, leq).len() == s.len() + 1,
        forall|y: T|
            leq(x, y) && #[trigger] none_after(s, y, leq) ==> none_after(placed(s, x, leq), y, leq),
    decreases s.len(),
{
    let r = placed(s, x, leq);
    if s.len() == 0 || leq(s.last(), x) {
        to_multiset_build(s, x);
        assert forall|i: int, j: int| 0 <= i < j < r.len() implies leq(
            #[trigger] r[i],
            #[trigger] r[j],
        ) by {
            if j == s.len() {
                if i < s.len() - 1 {
                    assert(leq(s[i], s[s.len() - 1]));
                }
            }
        }
    } else {
        let t = s.drop_last();
        lemma_placed(t, x, leq);
        let q = placed(t, x, leq);
        assert(leq(x, s.last()));
        assert forall|i: int| 0 <= i < t.len() implies leq(#[trigger] t[i], s.last()) by {
            assert(leq(s[i], s[s.len() - 1]));
        }
        assert(none_after(t, s.last(), leq));
        assert(none_after(q, s.last(), leq));
        to_multiset_build(q, s.last());
        to_multiset_build(t, s.last());
        assert(s =~= t.push(s.last()));
        assert(r.to_multiset() =~= s.to_multiset().insert(x));
        assert forall|y: T| leq(x, y) && #[trigger] none_after(s, y, leq) implies none_after(
            r,
            y,
            leq,
        ) by {
            assert(leq(s[s.len() - 1], y));
            assert forall|i: int| 0 <= i < t.len() implies leq(#[trigger] t[i], y) by {
                assert(t[i] == s[i]);
            }
            assert(none_after(t, y, leq));
        }
    }
}

/// Arranging keeps the elements and puts them in order.
pub proof fn arranging_sorts<T>(s: Seq<T>, leq: spec_fn(T, T) -> bool)
    requires
        orders(leq),
    ensures
        in_order(arranged(s, leq), leq),
        arranged(s, leq).to_multiset() == s.to_multiset(),
        arranged(s, leq).len() == s.len(),
    decreases s.len(),
{
    if s.len() > 0 {
        let t = s.drop_last();
        arranging_sorts(t, leq);
        lemma_placed(arranged(t, leq), s.last(), leq);
        to_multiset_build(t, s.last());
        assert(s =~= t.push(s.last()));
    }
}

/// Arranging keeps which elements there are.
pub proof fn arranging_keeps<T>(s: Seq<T>, leq: spec_fn(T, T) -> bool, x: T)
    requires
        orders(leq),
    ensures
        arranged(s, leq).contains(x) <==> s.contains(x),
{
    arranging_sorts(s, leq);
    s.to_multiset_ensures();
    arranged(s, leq).to_multiset_ensures();
    assert(s.contains(x) <==> s.to_multiset().count(x) > 0);
    assert(arranged(s, leq).contains(x) <==> arranged(s, leq).to_multiset().count(x) > 0);
}

proof fn lemma_placed_map<T, U>(s: Seq<T>, x: T, f: spec_fn(T) -> U, leq: spec_fn(U, U) -> bool)
    ensures
        placed(s.map_values(f), f(x), leq) == placed(s, x, |a: T, b: T| leq(f(a), f(b))).map_values(f),
    decreases s.len(),
{
    let g = |a: T, b: T| leq(f(a), f(b));
    let m = s.map_values(f);
    if s.len() == 0 || leq(f(s.last()), f(x)) {
        assert(placed(s, x, g) == s.push(x));
        assert(m.push(f(x)) =~= s.push(x).map_values(f));
    } else {
        lemma_placed_map(s.drop_last(), x, f, leq);
        assert(m.drop_last() =~= s.drop_last().map_values(f));
        assert(placed(s, x, g).map_values(f) =~= placed(s.drop_last(), x, g).map_values(f).push(
            f(s.last()),
        ));
    }
}

/// Arranging by a property of the elements commutes with reading that property off.
pub proof fn lemma_arranged_map<T, U>(s: Seq<T>, f: spec_fn(T) -> U, leq: spec_fn(U, U) -> bool)
    ensures
        arranged(s.map_values(f), leq) == arranged(s, |a: T, b: T| leq(f(a), f(b))).map_values(f),
    decreases s.len(),
{
    let g = |a: T, b: T| leq(f(a), f(b));
    if s.len() == 0 {
        assert(s.map_values(f) =~= Seq::<U>::empty());
        assert(arranged(s, g).map_values(f) =~= Seq::<U>::empty());
    } else {
        lemma_arranged_map(s.drop_last(), f, leq);
        assert(s.map_values(f).drop_last() =~= s.drop_last().map_values(f));
        lemma_placed_map(arranged(s.drop_last(), g), s.last(), f, leq);
    }
}

/// Two ordered lists as one, the first list's elements before equal ones of the second.
spec fn merged<T>(a: Seq<T>, b: Seq<T>, leq: spec_fn(T, T) -> bool) -> Seq<T>
    decreases a.len() + b.len(),
{
    if b.len() == 0 {
        a
    } else if a.len() == 0 {
        b
    } else if leq(a.last(), b.last()) {
        merged(a, b.drop_last(), leq).push(b.last())
    } else {
        merged(a.drop_last(), b, leq).push(a.last())
    }
}

proof fn lemma_merged_placed<T>(a: Seq<T>, t: Seq<T>, x: T, leq: spec_fn(T, T) -> bool)
    requires
        orders(leq),
    ensures
        merged(a, placed(t, x, leq), leq) == placed(merged(a, t, leq), x, leq),
    decreases a.len() + t.len(),
{
    let p = placed(t, x, leq);
    if a.len() == 0 {
        if t.len() == 0 {
            assert(p =~= seq![x]);
            assert(a =~= t);
        }
    } else if t.len() == 0 || leq(t.last(), x) {
        assert(p.drop_last() =~= t);
        if leq(a.last(), x) {
            assert(merged(a, p, leq) == merged(a, t, leq).push(x));
        } else {
            lemma_merged_placed(a.drop_last(), t, x, leq);
            if t.len() == 0 {
                assert(a =~= a.drop_last().push(a.last()));
                assert(merged(a, t, leq).drop_last() =~= a.drop_last());
            } else {
                assert(!leq(a.last(), t.last()));
                assert(merged(a, t, leq) == merged(a.drop_last(), t, leq).push(a.last()));
                assert(merged(a, t, leq).drop_last() =~= merged(a.drop_last(), t, leq));
            }
        }
    } else {
        let q = placed(t.drop_last(), x, leq);
        assert(p == q.push(t.last()));
        assert(p.drop_last() =~= q);
        assert(p.last() == t.last());
        if leq(a.last(), t.last()) {
            lemma_merged_placed(a, t.drop_last(), x, leq);
            let m = merged(a, t, leq);
            assert(m.drop_last() =~= merged(a, t.drop_last(), leq));
        } else {
            lemma_merged_placed(a.drop_last(), t, x, leq);
            let m = merged(a, t, leq);
            assert(m.drop_last() =~= merged(a.drop_last(), t, leq));
            assert(leq(t.last(), a.last()));
        }
    }
}

proof fn lemma_merged_arranged<T>(a: Seq<T>, b: Seq<T>, leq: spec_fn(T, T) -> bool)
    requires
        orders(leq),
    ensures
        arranged(a + b, leq) == merged(arranged(a, leq), arranged(b, leq), leq),
    decreases b.len(),
{
    if b.len() == 0 {
        assert(a + b =~= a);
    } else {
        let s = a + b;
        assert(s.drop_last() =~= a + b.drop_last());
        assert(s.last() == b.last());
        lemma_merged_arranged(a, b.drop_last(), leq);
        lemma_merged_placed(arranged(a, leq), arranged(b.drop_last(), leq), b.last(), leq);
    }
}

pub(crate) fn reverse<T>(v: Vec<T>) -> (r: Vec<T>)
    ensures
        r@ == v@.reverse(),
{
    let mut v = v;
    let ghost s = v@;
    let mut r: Vec<T> = Vec::new();
    while v.len() > 0
        invariant
            v@ == s.take(v@.len() as int),
            v@.len() + r@.len() == s.len(),
            forall|i: int| 0 <= i < r@.len() ==> r@[i] == #[trigger] s.reverse()[i],
        decreases v@.len(),
    {
        let ghost n = v@.len();
        match v.pop() {
            Some(x) => {
                assert(x == s[n - 1]);
                r.push(x);
            },
            None => {},
        }
    }
    assert(r@ =~= s.reverse());
    r
}

fn merge<T, F: Fn(&T, &T) -> bool>(
    a: Vec<T>,
    b: Vec<T>,
    le: &F,
    Ghost(leq): Ghost<spec_fn(T, T) -> bool>,
) -> (r: Vec<T>)
    requires
        forall|x: T, y: T| call_requires(le, (&x, &y)),
        forall|x: T, y: T, c: bool| call_ensures(le, (&x, &y), c) ==> c == leq(x, y),
    ensures
        r@ == merged(a@, b@, leq),
{
    let mut a = a;
    let mut b = b;
    let ghost whole = merged(a@, b@, leq);
    let mut out: Vec<T> = Vec::new();
    assert(whole =~= merged(a@, b@, leq) + out@.reverse());
    while a.len() > 0 || b.len() > 0
        invariant
            forall|x: T, y: T| call_requires(le, (&x, &y)),
            forall|x: T, y: T, c: bool| call_ensures(le, (&x, &y), c) ==> c == leq(x, y),
            whole == merged(a@, b@, leq) + out@.reverse(),
        decreases a@.len() + b@.len(),
    {
        let from_b: bool = if b.len() == 0 {
            false
        } else if a.len() == 0 {
            true
        } else {
            le(&a[a.len() - 1], &b[b.len() - 1])
        };
        let ghost a0 = a@;
        let ghost b0 = b@;
        let ghost o0 = out@;
        let ghost m0 = merged(a0, b0, leq);
        if from_b {
            match b.pop() {
                Some(x) => {
                    out.push(x);
                    proof {
                        assert(b@ =~= b0.drop_last());
                        if a0.len() == 0 {
                            assert(m0 =~= merged(a@, b@, leq).push(x));
                        }
                        assert(m0 == merged(a@, b@, leq).push(x));
                        assert(whole =~= merged(a@, b@, leq) + out@.reverse());
                    }
                },
                None => {},
            }
        } else {
            match a.pop() {
                Some(x) => {
                    out.push(x);
                    proof {
                        assert(a@ =~= a0.drop_last());
                        if b0.len() == 0 {
                            assert(m0 =~= merged(a@, b@, leq).push(x));
                        }
                        assert(m0 == merged(a@, b@, leq).push(x));
                        assert(whole =~= merged(a@, b@, leq) + out@.reverse());
                    }
                },
                None => {},
            }
        }
    }
    assert(out@.reverse() =~= whole);
    reverse(out)
}

fn sort_values<T, F: Fn(&T, &T) -> bool>(
    v: Vec<T>,
    le: &F,
    Ghost(leq): Ghost<spec_fn(T, T) -> bool>,
) -> (r: Vec<T>)
    requires
        orders(leq),
        forall|x: T, y: T| call_requires(le, (&x, &y)),
        forall|x: T, y: T, c: bool| call_ensures(le, (&x, &y), c) ==> c == leq(x, y),
    ensures
        r@ == arranged(v@, leq),
    decreases v@.len(),
{
    if v.len() < 2 {
        proof {
            if v@.len() == 1 {
                assert(v@.drop_last() =~= Seq::<T>::empty());
                assert(arranged(v@.drop_last(), leq) == v@.drop_last());
                assert(v@ =~= Seq::<T>::empty().push(v@.last()));
            }
        }
        return v;
    }
    let mut front = v;
    let ghost s = front@;
    let mid: usize = front.len() / 2;
    let back = front.split_off(mid);
    proof {
        assert(s =~= front@ + back@);
        lemma_merged_arranged(front@, back@, leq);
    }
    let a = sort_values(front, le, Ghost(leq));
    let b = sort_values(back, le, Ghost(leq));
    merge(a, b, le, Ghost(leq))
}

/// Sorts by the order that `le` decides on what the elements hold, keeping equal elements in
/// their order.
pub(crate) fn sort_by<T: DeepView, F: Fn(&T, &T) -> bool>(
    v: Vec<T>,
    le: &F,
    Ghost(leq): Ghost<spec_fn(<T as DeepView>::V, <T as DeepView>::V) -> bool>,
) -> (r: Vec<T>)
    requires
        orders(leq),
        forall|x: T, y: T| call_requires(le, (&x, &y)),
        forall|x: T, y: T, c: bool|
            call_ensures(le, (&x, &y), c) ==> c == leq(x.deep_view(), y.deep_view()),
    ensures
        r.deep_view() == arranged(v.deep_view(), leq),
{
    let ghost f = |x: T| x.deep_view();
    let ghost g = |a: T, b: T| leq(f(a), f(b));
    proof {
        lemma_arranged_map(v@, f, leq);
        assert(v.deep_view() =~= v@.map_values(f));
    }
    let r = sort_values(v, le, Ghost(g));
    assert(r.deep_view() =~= r@.map_values(f));
    r
}

} // verus!
