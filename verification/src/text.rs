//! Text on character sequences: the handful of operations on names, paths and search words that
//! the rest of the library is stated in.

use vstd::prelude::*;
use vstd::string::*;
use vstd::utf8::*;

verus! {

/// `String::push` appends the character.
pub assume_specification[ String::push ](s: &mut String, c: char)
    ensures
        final(s)@ == old(s)@.push(c),
;

// ----- characters ----------------------------------------------------------------------------

/// The ASCII lower case of a character; other characters stay.
pub open spec fn lower_char(c: char) -> char {
    if 'A' <= c && c <= 'Z' {
        (c as u32 + 32) as char
    } else {
        c
    }
}

/// ASCII lower case, character by character.
pub open spec fn lower(s: Seq<char>) -> Seq<char> {
    Seq::new(s.len(), |i: int| lower_char(s[i]))
}

pub open spec fn is_digit(c: char) -> bool {
    '0' <= c && c <= '9'
}

pub open spec fn is_upper(c: char) -> bool {
    'A' <= c && c <= 'Z'
}

pub open spec fn is_lower(c: char) -> bool {
    'a' <= c && c <= 'z'
}

pub open spec fn is_alpha(c: char) -> bool {
    is_upper(c) || is_lower(c)
}

pub open spec fn is_hex(c: char) -> bool {
    is_digit(c) || ('a' <= c && c <= 'f') || ('A' <= c && c <= 'F')
}

/// The Unicode `White_Space` property.
pub open spec fn is_space(c: char) -> bool {
    let u = c as u32;
    ||| 0x9 <= u <= 0xd
    ||| u == 0x20
    ||| u == 0x85
    ||| u == 0xa0
    ||| u == 0x1680
    ||| 0x2000 <= u <= 0x200a
    ||| u == 0x2028
    ||| u == 0x2029
    ||| u == 0x202f
    ||| u == 0x205f
    ||| u == 0x3000
}

pub fn char_lower(c: char) -> (r: char)
    ensures
        r == lower_char(c),
{
    if 'A' <= c && c <= 'Z' {
        (c as u8 + 32) as char
    } else {
        c
    }
}

pub fn char_is_digit(c: char) -> (r: bool)
    ensures
        r == is_digit(c),
{
    '0' <= c && c <= '9'
}

pub fn char_is_upper(c: char) -> (r: bool)
    ensures
        r == is_upper(c),
{
    'A' <= c && c <= 'Z'
}

pub fn char_is_lower(c: char) -> (r: bool)
    ensures
        r == is_lower(c),
{
    'a' <= c && c <= 'z'
}

pub fn char_is_hex(c: char) -> (r: bool)
    ensures
        r == is_hex(c),
{
    ('0' <= c && c <= '9') || ('a' <= c && c <= 'f') || ('A' <= c && c <= 'F')
}

pub fn char_is_space(c: char) -> (r: bool)
    ensures
        r == is_space(c),
{
    let u: u32 = c as u32;
    (0x9 <= u && u <= 0xd) || u == 0x20 || u == 0x85 || u == 0xa0 || u == 0x1680 || (0x2000 <= u && u
        <= 0x200a) || u == 0x2028 || u == 0x2029 || u == 0x202f || u == 0x205f || u == 0x3000
}

// ----- between strings and characters --------------------------------------------------------

pub fn chars_of(s: &str) -> (v: Vec<char>)
    ensures
        v@ == s@,
{
    let mut v: Vec<char> = Vec::new();
    for c in it: s.chars()
        invariant
            it.seq() == s@,
            v@ == s@.take(it.index()),
    {
        v.push(c);
    }
    assert(s@.take(s@.len() as int) == s@);
    v
}

/// The characters `from..to` as a string.
pub fn text_between(v: &Vec<char>, from: usize, to: usize) -> (r: String)
    requires
        from <= to <= v@.len(),
    ensures
        r@ == v@.subrange(from as int, to as int),
{
    let mut r = String::new();
    let mut i: usize = from;
    while i < to
        invariant
            from <= i <= to <= v@.len(),
            r@ == v@.subrange(from as int, i as int),
        decreases to - i,
    {
        r.push(v[i]);
        i += 1;
    }
    r
}

/// Whether two strings hold the same characters.
pub fn same_text(a: &str, b: &str) -> (r: bool)
    ensures
        r == (a@ == b@),
{
    proof {
        encode_utf8_decode_utf8(a@);
        encode_utf8_decode_utf8(b@);
    }
    let x = a.as_bytes();
    let y = b.as_bytes();
    if x.len() != y.len() {
        return false;
    }
    let mut i: usize = 0;
    while i < x.len()
        invariant
            i <= x@.len(),
            x@.len() == y@.len(),
            x@ == encode_utf8(a@),
            y@ == encode_utf8(b@),
            forall|j: int| 0 <= j < i ==> x@[j] == y@[j],
        decreases x@.len() - i,
    {
        if x[i] != y[i] {
            return false;
        }
        i += 1;
    }
    assert(x@ == y@);
    true
}

/// Two texts one after the other.
pub fn cat(a: &str, b: &str) -> (r: String)
    ensures
        r@ == a@ + b@,
{
    let mut r = a.to_string();
    r.append(b);
    r
}

pub fn cat3(a: &str, b: &str, c: &str) -> (r: String)
    ensures
        r@ == a@ + b@ + c@,
{
    let mut r = a.to_string();
    r.append(b);
    r.append(c);
    r
}

/// Whether the text is among the listed ones.
pub open spec fn listed(s: Seq<char>, list: Seq<&str>) -> bool {
    exists|i: int| 0 <= i < list.len() && #[trigger] list[i]@ == s
}

pub fn is_listed(s: &str, list: &[&str]) -> (r: bool)
    ensures
        r == listed(s@, list@),
{
    let mut i: usize = 0;
    while i < list.len()
        invariant
            i <= list@.len(),
            forall|j: int| 0 <= j < i ==> #[trigger] list@[j]@ != s@,
        decreases list@.len() - i,
    {
        if same_text(list[i], s) {
            return true;
        }
        i += 1;
    }
    false
}

/// ASCII lower case of a string.
pub fn to_lower(s: &str) -> (r: String)
    ensures
        r@ == lower(s@),
{
    let mut r = String::new();
    for c in it: s.chars()
        invariant
            it.seq() == s@,
            r@ == lower(s@.take(it.index())),
    {
        proof {
            let i = it.index();
            assert(lower(s@.take(i + 1)) =~= lower(s@.take(i)).push(lower_char(s@[i])));
        }
        r.push(char_lower(c));
    }
    assert(s@.take(s@.len() as int) == s@);
    r
}

/// Equal up to ASCII case.
pub open spec fn same_folded(a: Seq<char>, b: Seq<char>) -> bool {
    lower(a) == lower(b)
}

pub fn eq_ignore_case(a: &str, b: &str) -> (r: bool)
    ensures
        r == same_folded(a@, b@),
{
    let x = to_lower(a);
    let y = to_lower(b);
    same_text(x.as_str(), y.as_str())
}

// ----- pieces --------------------------------------------------------------------------------

/// What a text is cut at.
#[derive(Clone, Copy)]
pub enum Sep {
    /// One character.
    Is(char),
    /// White space.
    Space,
    /// The characters that part the words of a file name: `_ - . / \`.
    Punct,
    /// `/` and `\`.
    Slash,
}

pub open spec fn name_break(c: char) -> bool {
    c == '_' || c == '-' || c == '.' || c == '/' || c == '\\'
}

pub open spec fn cuts(k: Sep, c: char) -> bool {
    match k {
        Sep::Is(x) => c == x,
        Sep::Space => is_space(c),
        Sep::Punct => name_break(c),
        Sep::Slash => c == '/' || c == '\\',
    }
}

pub fn char_cuts(k: Sep, c: char) -> (r: bool)
    ensures
        r == cuts(k, c),
{
    match k {
        Sep::Is(x) => c == x,
        Sep::Space => char_is_space(c),
        Sep::Punct => c == '_' || c == '-' || c == '.' || c == '/' || c == '\\',
        Sep::Slash => c == '/' || c == '\\',
    }
}

/// The pieces of `s` between the characters that cut it, empty ones included.
pub open spec fn pieces(s: Seq<char>, k: Sep) -> Seq<Seq<char>>
    decreases s.len(),
{
    if s.len() == 0 {
        seq![Seq::<char>::empty()]
    } else {
        let front = pieces(s.drop_last(), k);
        if cuts(k, s.last()) {
            front.push(Seq::<char>::empty())
        } else {
            front.drop_last().push(front.last().push(s.last()))
        }
    }
}

pub proof fn lemma_pieces_nonempty(s: Seq<char>, k: Sep)
    ensures
        pieces(s, k).len() >= 1,
    decreases s.len(),
{
    if s.len() > 0 {
        lemma_pieces_nonempty(s.drop_last(), k);
    }
}

/// The pieces that are not empty.
pub open spec fn filled(parts: Seq<Seq<char>>) -> Seq<Seq<char>> {
    parts.filter(|p: Seq<char>| p.len() > 0)
}

/// The words of a text: its pieces between white space.
pub open spec fn words(s: Seq<char>) -> Seq<Seq<char>> {
    filled(pieces(s, Sep::Space))
}

/// The parts one after the other, with `sep` between.
pub open spec fn glue(parts: Seq<Seq<char>>, sep: Seq<char>) -> Seq<char>
    decreases parts.len(),
{
    if parts.len() == 0 {
        Seq::empty()
    } else if parts.len() == 1 {
        parts[0]
    } else {
        glue(parts.drop_last(), sep) + sep + parts.last()
    }
}

pub fn split(s: &str, k: Sep) -> (r: Vec<String>)
    ensures
        r.deep_view() == pieces(s@, k),
{
    let mut done: Vec<String> = Vec::new();
    let mut cur = String::new();
    assert(s@.take(0) == Seq::<char>::empty());
    for c in it: s.chars()
        invariant
            it.seq() == s@,
            pieces(s@.take(it.index()), k) == done.deep_view().push(cur@),
    {
        proof {
            let i = it.index();
            assert(s@.take(i + 1).drop_last() == s@.take(i));
            assert(s@.take(i + 1).last() == s@[i]);
        }
        let ghost before = done.deep_view().push(cur@);
        if char_cuts(k, c) {
            let ghost d0 = done.deep_view();
            let ghost c0 = cur@;
            done.push(cur);
            cur = String::new();
            assert(done.deep_view() =~= d0.push(c0));
        } else {
            assert(before.drop_last() =~= done.deep_view());
            cur.push(c);
        }
    }
    assert(s@.take(s@.len() as int) == s@);
    let ghost d0 = done.deep_view();
    let ghost c0 = cur@;
    done.push(cur);
    assert(done.deep_view() =~= d0.push(c0));
    done
}

/// The filled pieces of a text.
pub fn split_filled(s: &str, k: Sep) -> (r: Vec<String>)
    ensures
        r.deep_view() == filled(pieces(s@, k)),
{
    let all = split(s, k);
    let mut r: Vec<String> = Vec::new();
    let mut i: usize = 0;
    let ghost keep = |p: Seq<char>| p.len() > 0;
    while i < all.len()
        invariant
            i <= all@.len(),
            keep == (|p: Seq<char>| p.len() > 0),
            r.deep_view() == all.deep_view().take(i as int).filter(keep),
        decreases all@.len() - i,
    {
        proof {
            let a = all.deep_view();
            assert(a.take(i + 1).drop_last() == a.take(i as int));
            assert(a.take(i + 1).last() == all@[i as int]@);
            reveal(Seq::filter);
        }
        if !all[i].as_str().is_empty() {
            let ghost r0 = r.deep_view();
            r.push(all[i].clone());
            assert(r.deep_view() =~= r0.push(all@[i as int]@));
        }
        i += 1;
    }
    assert(all.deep_view().take(all@.len() as int) == all.deep_view());
    r
}

/// The words of a text.
pub fn split_words(s: &str) -> (r: Vec<String>)
    ensures
        r.deep_view() == words(s@),
{
    split_filled(s, Sep::Space)
}

pub fn join(parts: &Vec<String>, sep: &str) -> (r: String)
    ensures
        r@ == glue(parts.deep_view(), sep@),
{
    let mut r = String::new();
    let mut i: usize = 0;
    assert(parts.deep_view().take(0) == Seq::<Seq<char>>::empty());
    while i < parts.len()
        invariant
            i <= parts@.len(),
            r@ == glue(parts.deep_view().take(i as int), sep@),
        decreases parts@.len() - i,
    {
        proof {
            let a = parts.deep_view();
            assert(a.take(i + 1).drop_last() == a.take(i as int));
            assert(a.take(i + 1).last() == parts@[i as int]@);
        }
        if i > 0 {
            r.append(sep);
        }
        r.append(parts[i].as_str());
        i += 1;
    }
    assert(parts.deep_view().take(parts@.len() as int) == parts.deep_view());
    r
}

/// Cutting at a character and gluing with the same character gives the text back.
pub proof fn glue_undoes_pieces(s: Seq<char>, c: char)
    ensures
        glue(pieces(s, Sep::Is(c)), seq![c]) == s,
    decreases s.len(),
{
    let k = Sep::Is(c);
    let p = pieces(s, k);
    if s.len() == 0 {
        assert(p.len() == 1 && p[0] == s);
    } else {
        let f = pieces(s.drop_last(), k);
        lemma_pieces_nonempty(s.drop_last(), k);
        glue_undoes_pieces(s.drop_last(), c);
        if cuts(k, s.last()) {
            assert(p.drop_last() =~= f);
            assert(s =~= s.drop_last() + seq![c] + Seq::<char>::empty());
        } else {
            if f.len() == 1 {
                assert(p =~= seq![f[0].push(s.last())]);
                assert(s =~= s.drop_last().push(s.last()));
            } else {
                assert(p.drop_last() =~= f.drop_last());
                assert(s =~= s.drop_last().push(s.last()));
                assert(glue(p, seq![c]) =~= glue(f, seq![c]).push(s.last()));
            }
        }
    }
}

// ----- ends ----------------------------------------------------------------------------------

/// The text without the leading characters that `k` cuts.
pub open spec fn trim_front(s: Seq<char>, k: Sep) -> Seq<char>
    decreases s.len(),
{
    if s.len() > 0 && cuts(k, s.first()) {
        trim_front(s.drop_first(), k)
    } else {
        s
    }
}

/// The text without the trailing characters that `k` cuts.
pub open spec fn trim_back(s: Seq<char>, k: Sep) -> Seq<char>
    decreases s.len(),
{
    if s.len() > 0 && cuts(k, s.last()) {
        trim_back(s.drop_last(), k)
    } else {
        s
    }
}

pub open spec fn trim_both(s: Seq<char>, k: Sep) -> Seq<char> {
    trim_back(trim_front(s, k), k)
}

/// The text without white space at its ends.
pub open spec fn trim(s: Seq<char>) -> Seq<char> {
    trim_both(s, Sep::Space)
}

pub fn cut_front(s: &str, k: Sep) -> (r: String)
    ensures
        r@ == trim_front(s@, k),
{
    let v = chars_of(s);
    let mut i: usize = 0;
    assert(v@.skip(0) == v@);
    while i < v.len() && char_cuts(k, v[i])
        invariant
            i <= v@.len(),
            trim_front(v@, k) == trim_front(v@.skip(i as int), k),
        decreases v@.len() - i,
    {
        assert(v@.skip(i as int).drop_first() == v@.skip(i + 1));
        i += 1;
    }
    assert(v@.skip(i as int) == v@.subrange(i as int, v@.len() as int));
    text_between(&v, i, v.len())
}

pub fn cut_back(s: &str, k: Sep) -> (r: String)
    ensures
        r@ == trim_back(s@, k),
{
    let v = chars_of(s);
    let mut n: usize = v.len();
    assert(v@.take(n as int) == v@);
    while n > 0 && char_cuts(k, v[n - 1])
        invariant
            n <= v@.len(),
            trim_back(v@, k) == trim_back(v@.take(n as int), k),
        decreases n,
    {
        assert(v@.take(n as int).drop_last() == v@.take(n - 1));
        n -= 1;
    }
    assert(v@.take(n as int) == v@.subrange(0, n as int));
    text_between(&v, 0, n)
}

pub fn cut_both(s: &str, k: Sep) -> (r: String)
    ensures
        r@ == trim_both(s@, k),
{
    let t = cut_front(s, k);
    cut_back(t.as_str(), k)
}

pub fn trimmed(s: &str) -> (r: String)
    ensures
        r@ == trim(s@),
{
    cut_both(s, Sep::Space)
}

/// What stands behind the last `c`; the whole text where there is none.
pub open spec fn after_last(s: Seq<char>, c: char) -> Seq<char>
    decreases s.len(),
{
    if s.len() == 0 || s.last() == c {
        Seq::empty()
    } else {
        after_last(s.drop_last(), c).push(s.last())
    }
}

pub proof fn lemma_after_last_is_last_piece(s: Seq<char>, c: char)
    ensures
        after_last(s, c) == pieces(s, Sep::Is(c)).last(),
    decreases s.len(),
{
    if s.len() > 0 {
        lemma_pieces_nonempty(s.drop_last(), Sep::Is(c));
        lemma_after_last_is_last_piece(s.drop_last(), c);
    }
}

/// `after_last` is the text from behind the position of the last `c` on.
pub proof fn lemma_after_last_at(s: Seq<char>, c: char, at: int)
    requires
        -1 <= at < s.len(),
        at >= 0 ==> s[at] == c,
        forall|j: int| at < j < s.len() ==> s[j] != c,
    ensures
        after_last(s, c) == s.subrange(at + 1, s.len() as int),
    decreases s.len(),
{
    if s.len() == 0 {
        assert(s.subrange(at + 1, s.len() as int) =~= Seq::<char>::empty());
    } else if at == s.len() - 1 {
        assert(s.subrange(at + 1, s.len() as int) =~= Seq::<char>::empty());
        assert(s.last() == s[at]);
    } else {
        assert(s.last() == s[s.len() - 1]);
        lemma_after_last_at(s.drop_last(), c, at);
        assert(s.drop_last().subrange(at + 1, s.len() - 1).push(s.last()) =~= s.subrange(
            at + 1,
            s.len() as int,
        ));
    }
}

/// The position of the last `c` in a text.
pub fn find_last(v: &Vec<char>, c: char) -> (r: Option<usize>)
    ensures
        match r {
            Some(i) => i < v@.len() && v@[i as int] == c && forall|j: int|
                i < j < v@.len() ==> v@[j] != c,
            None => !v@.contains(c),
        },
{
    let mut n: usize = v.len();
    while n > 0
        invariant
            n <= v@.len(),
            forall|j: int| n <= j < v@.len() ==> v@[j] != c,
        decreases n,
    {
        if v[n - 1] == c {
            return Some(n - 1);
        }
        n -= 1;
    }
    None
}

pub fn text_after_last(s: &str, c: char) -> (r: String)
    ensures
        r@ == after_last(s@, c),
{
    let v = chars_of(s);
    let n: usize = v.len();
    match find_last(&v, c) {
        Some(i) => {
            proof {
                lemma_after_last_at(v@, c, i as int);
            }
            text_between(&v, i + 1, n)
        },
        None => {
            proof {
                assert forall|j: int| 0 <= j < v@.len() implies v@[j] != c by {
                    assert(v@.contains(v@[j]));
                }
                lemma_after_last_at(v@, c, -1);
            }
            text_between(&v, 0, n)
        },
    }
}

/// Whether `p` stands in `s` at position `i`.
pub open spec fn occurs_at(s: Seq<char>, p: Seq<char>, i: int) -> bool {
    0 <= i && i + p.len() <= s.len() && s.subrange(i, i + p.len()) == p
}

/// Whether `p` stands somewhere in `s`.
pub open spec fn occurs(s: Seq<char>, p: Seq<char>) -> bool {
    exists|i: int| occurs_at(s, p, i)
}

pub open spec fn starts(s: Seq<char>, p: Seq<char>) -> bool {
    occurs_at(s, p, 0)
}

pub open spec fn ends(s: Seq<char>, p: Seq<char>) -> bool {
    occurs_at(s, p, s.len() - p.len())
}

pub fn at(v: &Vec<char>, p: &Vec<char>, i: usize) -> (r: bool)
    ensures
        r == occurs_at(v@, p@, i as int),
{
    let n: usize = v.len();
    if p.len() > n || i > n - p.len() {
        return false;
    }
    let mut j: usize = 0;
    while j < p.len()
        invariant
            j <= p@.len(),
            n == v@.len(),
            i + p@.len() <= v@.len(),
            forall|k: int| 0 <= k < j ==> v@[i + k] == p@[k],
        decreases p@.len() - j,
    {
        if v[i + j] != p[j] {
            assert(v@.subrange(i as int, i + p@.len())[j as int] == v@[i + j]);
            return false;
        }
        j += 1;
    }
    assert(v@.subrange(i as int, i + p@.len()) =~= p@);
    true
}

/// The first position of `p` in `v`.
pub fn find(v: &Vec<char>, p: &Vec<char>) -> (r: Option<usize>)
    ensures
        match r {
            Some(i) => occurs_at(v@, p@, i as int) && forall|j: int|
                0 <= j < i ==> !occurs_at(v@, p@, j),
            None => !occurs(v@, p@),
        },
{
    let mut i: usize = 0;
    while i < v.len()
        invariant
            i <= v@.len(),
            forall|j: int| 0 <= j < i ==> !occurs_at(v@, p@, j),
        decreases v@.len() - i,
    {
        if at(v, p, i) {
            return Some(i);
        }
        i += 1;
    }
    if at(v, p, i) {
        return Some(i);
    }
    assert forall|j: int| !occurs_at(v@, p@, j) by {
        if j > v@.len() {
        }
    }
    None
}

pub fn contains_text(s: &str, p: &str) -> (r: bool)
    ensures
        r == occurs(s@, p@),
{
    let v = chars_of(s);
    let q = chars_of(p);
    match find(&v, &q) {
        Some(i) => {
            assert(occurs_at(s@, p@, i as int));
            true
        },
        None => false,
    }
}

pub fn starts_with(s: &str, p: &str) -> (r: bool)
    ensures
        r == starts(s@, p@),
{
    let v = chars_of(s);
    let q = chars_of(p);
    at(&v, &q, 0)
}

pub fn ends_with(s: &str, p: &str) -> (r: bool)
    ensures
        r == ends(s@, p@),
{
    let v = chars_of(s);
    let q = chars_of(p);
    if q.len() > v.len() {
        return false;
    }
    at(&v, &q, v.len() - q.len())
}

/// The rest behind a prefix.
pub fn strip_prefix(s: &str, p: &str) -> (r: Option<String>)
    ensures
        match r {
            Some(t) => starts(s@, p@) && t@ == s@.skip(p@.len() as int),
            None => !starts(s@, p@),
        },
{
    let v = chars_of(s);
    let q = chars_of(p);
    if at(&v, &q, 0) {
        Some(text_between(&v, q.len(), v.len()))
    } else {
        None
    }
}

/// The text with every `from` replaced by `to`.
pub open spec fn replaced(s: Seq<char>, from: char, to: char) -> Seq<char> {
    Seq::new(s.len(), |i: int| if s[i] == from { to } else { s[i] })
}

pub fn replace_char(s: &str, from: char, to: char) -> (r: String)
    ensures
        r@ == replaced(s@, from, to),
{
    let mut r = String::new();
    for c in it: s.chars()
        invariant
            it.seq() == s@,
            r@ == replaced(s@.take(it.index()), from, to),
    {
        proof {
            let i = it.index();
            let d = if s@[i] == from { to } else { s@[i] };
            assert(replaced(s@.take(i + 1), from, to) =~= replaced(s@.take(i), from, to).push(d));
        }
        if c == from {
            r.push(to);
        } else {
            r.push(c);
        }
    }
    assert(s@.take(s@.len() as int) == s@);
    r
}

} // verus!
