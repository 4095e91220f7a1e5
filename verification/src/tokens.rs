//! The words by which assets are indexed and searched.

use vstd::prelude::*;
use vstd::string::*;

use crate::seqs::{lemma_filter_none, lemma_filter_step};
use crate::text::{
    cat, char_cuts, char_is_digit, char_is_lower, char_is_upper, chars_of, filled, glue, is_alpha, is_digit,
    is_lower, is_space, is_upper, join, name_break, pieces, split_words, words, Sep,
};

verus! {

/// Whether a new word begins between two characters: at an upper-case letter behind a lower-case
/// one or a digit, and between letters and digits.
pub open spec fn word_break(p: char, c: char) -> bool {
    ||| (is_lower(p) || is_digit(p)) && is_upper(c)
    ||| is_alpha(p) && is_digit(c)
    ||| is_digit(p) && is_alpha(c)
}

/// The text with spaces where a word ends, and for the characters that part words.
pub open spec fn spaced(s: Seq<char>) -> Seq<char>
    decreases s.len(),
{
    if s.len() == 0 {
        Seq::empty()
    } else {
        let front = spaced(s.drop_last());
        let c = s.last();
        if name_break(c) {
            front.push(' ')
        } else if s.len() > 1 && word_break(s[s.len() - 2], c) {
            front.push(' ').push(c)
        } else {
            front.push(c)
        }
    }
}

/// The words of a name, with one space between.
pub open spec fn camel_words(s: Seq<char>) -> Seq<char> {
    glue(words(spaced(s)), " "@)
}

fn breaks_word(p: char, c: char) -> (r: bool)
    ensures
        r == word_break(p, c),
{
    let p_alpha = char_is_lower(p) || char_is_upper(p);
    let c_alpha = char_is_lower(c) || char_is_upper(c);
    ((char_is_lower(p) || char_is_digit(p)) && char_is_upper(c)) || (p_alpha && char_is_digit(c)) || (
    char_is_digit(p) && c_alpha)
}

fn space_out(s: &str) -> (r: String)
    ensures
        r@ == spaced(s@),
{
    let chars = chars_of(s);
    let mut out = String::new();
    let mut i: usize = 0;
    assert(chars@.take(0) =~= Seq::<char>::empty());
    while i < chars.len()
        invariant
            i <= chars@.len(),
            out@ == spaced(chars@.take(i as int)),
        decreases chars@.len() - i,
    {
        let c = chars[i];
        proof {
            let t = chars@.take(i + 1);
            assert(t.drop_last() =~= chars@.take(i as int));
            assert(t.last() == c);
            if i > 0 {
                assert(t[t.len() - 2] == chars@[i - 1]);
            }
        }
        if char_cuts(Sep::Punct, c) {
            out.push(' ');
        } else {
            if i > 0 && breaks_word(chars[i - 1], c) {
                out.push(' ');
            }
            out.push(c);
        }
        i += 1;
    }
    assert(chars@.take(chars@.len() as int) =~= chars@);
    out
}

/// Splits CamelCase / digits / separators into words, the same way for indexing and querying.
pub fn camel_tokens(s: &str) -> (r: String)
    ensures
        r@ == camel_words(s@),
{
    let parts = split_words(space_out(s).as_str());
    join(&parts, " ")
}

/// The parts of an asset's index text.
pub open spec fn token_parts(path: Seq<char>, kind: Seq<char>, ext: Seq<char>, main_class: Option<Seq<char>>) -> Seq<
    Seq<char>,
> {
    let class = match main_class {
        Some(c) => c,
        None => Seq::empty(),
    };
    seq![camel_words(path)] + filled(seq![kind, ext, class])
}

/// The words of an asset's path, its kind, its extension and its main class.
pub open spec fn token_text(path: Seq<char>, kind: Seq<char>, ext: Seq<char>, main_class: Option<Seq<char>>) -> Seq<
    char,
> {
    glue(token_parts(path, kind, ext, main_class), " "@)
}

pub(crate) proof fn lemma_filled_three(a: Seq<char>, b: Seq<char>, c: Seq<char>)
    ensures
        filled(seq![a, b, c]) == (if a.len() > 0 {
            seq![a]
        } else {
            Seq::empty()
        }) + (if b.len() > 0 {
            seq![b]
        } else {
            Seq::empty()
        }) + (if c.len() > 0 {
            seq![c]
        } else {
            Seq::empty()
        }),
{
    reveal(Seq::filter);
    let keep = |p: Seq<char>| p.len() > 0;
    let s3 = seq![a, b, c];
    let s2 = seq![a, b];
    let s1 = seq![a];
    let s0 = Seq::<Seq<char>>::empty();
    assert(s3.drop_last() =~= s2);
    assert(s2.drop_last() =~= s1);
    assert(s1.drop_last() =~= s0);
    assert(s0.filter(keep) =~= s0);
    assert(s1.filter(keep) =~= (if a.len() > 0 {
        seq![a]
    } else {
        s0
    }));
    assert(s2.filter(keep) =~= s1.filter(keep) + (if b.len() > 0 {
        seq![b]
    } else {
        s0
    }));
    assert(s3.filter(keep) =~= s2.filter(keep) + (if c.len() > 0 {
        seq![c]
    } else {
        s0
    }));
}

pub fn tokens_for(path: &str, kind: &str, ext: &str, main_class: Option<&str>) -> (r: String)
    ensures
        r@ == token_text(
            path@,
            kind@,
            ext@,
            match main_class {
                Some(c) => Some(c@),
                None => None,
            },
        ),
{
    let class: &str = match main_class {
        Some(c) => c,
        None => "",
    };
    proof {
        reveal_strlit("");
        assert(""@ =~= Seq::<char>::empty());
        lemma_filled_three(kind@, ext@, class@);
    }
    let mut parts: Vec<String> = Vec::new();
    parts.push(camel_tokens(path));
    if !kind.is_empty() {
        parts.push(kind.to_string());
    }
    if !ext.is_empty() {
        parts.push(ext.to_string());
    }
    if !class.is_empty() {
        parts.push(class.to_string());
    }
    let ghost cv = match main_class {
        Some(c) => Some(c@),
        None => None,
    };
    proof {
        let third: Seq<char> = match cv {
            Some(c) => c,
            None => Seq::empty(),
        };
        assert(third =~= class@);
        assert(token_parts(path@, kind@, ext@, cv) == seq![camel_words(path@)] + filled(
            seq![kind@, ext@, third],
        ));
        assert(parts.deep_view() =~= seq![camel_words(path@)] + filled(seq![kind@, ext@, class@]));
    }
    join(&parts, " ")
}

// ----- full-text queries ---------------------------------------------------------------------

/// The text with every double quote doubled.
pub open spec fn doubled(s: Seq<char>) -> Seq<char>
    decreases s.len(),
{
    if s.len() == 0 {
        Seq::empty()
    } else if s.last() == '"' {
        doubled(s.drop_last()).push('"').push('"')
    } else {
        doubled(s.drop_last()).push(s.last())
    }
}

fn double_quotes(s: &str) -> (r: String)
    ensures
        r@ == doubled(s@),
{
    let mut out = String::new();
    assert(s@.take(0) =~= Seq::<char>::empty());
    for c in it: s.chars()
        invariant
            it.seq() == s@,
            out@ == doubled(s@.take(it.index())),
    {
        proof {
            let i = it.index();
            assert(s@.take(i + 1).drop_last() =~= s@.take(i));
            assert(s@.take(i + 1).last() == s@[i]);
        }
        if c == '"' {
            out.push('"');
        }
        out.push(c);
    }
    assert(s@.take(s@.len() as int) =~= s@);
    out
}

/// A term that matches every word beginning with the text.
pub open spec fn prefix_term(s: Seq<char>) -> Seq<char> {
    "\""@ + s + "\"*"@
}

/// The terms of one word: its CamelCase pieces, and those between the characters that part words,
/// as the index has them.
pub open spec fn word_terms(w: Seq<char>) -> Seq<Seq<char>> {
    words(spaced(w)).map_values(|p: Seq<char>| prefix_term(doubled(p)))
}

/// The terms of several words.
pub open spec fn all_terms(ws: Seq<Seq<char>>) -> Seq<Seq<char>>
    decreases ws.len(),
{
    if ws.len() == 0 {
        Seq::empty()
    } else {
        all_terms(ws.drop_last()) + word_terms(ws.last())
    }
}

/// A full-text query for free text: every word, and every piece of it, prefix-matched.
pub open spec fn fts_text(q: Seq<char>) -> Seq<char> {
    glue(all_terms(words(q)), " "@)
}

pub fn fts_terms(q: &str) -> (r: String)
    ensures
        r@ == fts_text(q@),
{
    let ws = split_words(q);
    let mut terms: Vec<String> = Vec::new();
    let mut i: usize = 0;
    assert(ws.deep_view().take(0) =~= Seq::<Seq<char>>::empty());
    assert(terms.deep_view() =~= Seq::<Seq<char>>::empty());
    while i < ws.len()
        invariant
            i <= ws@.len(),
            terms.deep_view() == all_terms(ws.deep_view().take(i as int)),
        decreases ws@.len() - i,
    {
        let ghost w = ws.deep_view();
        proof {
            assert(w.take(i + 1).drop_last() =~= w.take(i as int));
            assert(w.take(i + 1).last() == ws@[i as int]@);
        }
        let subs = split_words(space_out(ws[i].as_str()).as_str());
        let ghost t0 = terms.deep_view();
        let ghost f = |p: Seq<char>| prefix_term(doubled(p));
        let mut k: usize = 0;
        assert(subs.deep_view().take(0).map_values(f) =~= Seq::<Seq<char>>::empty());
        assert(terms.deep_view() =~= t0 + subs.deep_view().take(0).map_values(f));
        while k < subs.len()
            invariant
                k <= subs@.len(),
                f == (|p: Seq<char>| prefix_term(doubled(p))),
                terms.deep_view() == t0 + subs.deep_view().take(k as int).map_values(f),
            decreases subs@.len() - k,
        {
            let mut term = cat("\"", double_quotes(subs[k].as_str()).as_str());
            term.append("\"*");
            let ghost tv = term@;
            let ghost t1 = terms.deep_view();
            terms.push(term);
            proof {
                let s = subs.deep_view();
                assert(terms.deep_view() =~= t1.push(tv));
                assert(s.take(k + 1) =~= s.take(k as int).push(s[k as int]));
                assert(tv == f(s[k as int]));
                assert(s.take(k + 1).map_values(f) =~= s.take(k as int).map_values(f).push(tv));
                assert(terms.deep_view() =~= t0 + s.take(k + 1).map_values(f));
            }
            k += 1;
        }
        assert(subs.deep_view().take(subs@.len() as int) =~= subs.deep_view());
        i += 1;
    }
    assert(ws.deep_view().take(ws@.len() as int) =~= ws.deep_view());
    join(&terms, " ")
}

// ----- laws ----------------------------------------------------------------------------------

/// A query asks for the words that the index makes of the same text: one term for each of them.
pub proof fn queries_ask_for_indexed_words(w: Seq<char>, i: int)
    requires
        0 <= i < words(spaced(w)).len(),
    ensures
        word_terms(w).len() == words(spaced(w)).len(),
        word_terms(w)[i] == prefix_term(doubled(words(spaced(w))[i])),
        camel_words(w) == glue(words(spaced(w)), " "@),
{
}

/// The words of a text, with one space between.
pub open spec fn normal(s: Seq<char>) -> Seq<char> {
    glue(words(s), " "@)
}

/// Whether the last character of a text is in a word.
pub open spec fn in_word(s: Seq<char>) -> bool {
    s.len() > 0 && !is_space(s.last())
}

proof fn lemma_filled_push(parts: Seq<Seq<char>>, x: Seq<char>)
    ensures
        filled(parts.push(x)) == (if x.len() > 0 {
            filled(parts).push(x)
        } else {
            filled(parts)
        }),
{
    let p = |y: Seq<char>| y.len() > 0;
    let s = parts.push(x);
    lemma_filter_step(s, p, parts.len() as int);
    assert(s.take(parts.len() as int + 1) =~= s);
    assert(s.take(parts.len() as int) =~= parts);
}

proof fn lemma_last_piece(s: Seq<char>)
    ensures
        pieces(s, Sep::Space).len() > 0,
        pieces(s, Sep::Space).last().len() > 0 <==> in_word(s),
    decreases s.len(),
{
    if s.len() > 0 {
        lemma_last_piece(s.drop_last());
    }
}

/// The words of a text with one more character.
proof fn lemma_words_step(s: Seq<char>, c: char)
    ensures
        words(s.push(c)) == (if is_space(c) {
            words(s)
        } else if in_word(s) {
            words(s).drop_last().push(words(s).last().push(c))
        } else {
            words(s).push(seq![c])
        }),
        in_word(s) ==> words(s).len() > 0,
{
    let t = s.push(c);
    assert(t.drop_last() =~= s);
    let front = pieces(s, Sep::Space);
    lemma_last_piece(s);
    let rest = front.drop_last();
    assert(rest.push(front.last()) =~= front);
    lemma_filled_push(rest, front.last());
    if is_space(c) {
        lemma_filled_push(front, Seq::<char>::empty());
    } else {
        lemma_filled_push(rest, front.last().push(c));
        if in_word(s) {
            assert(words(s) == filled(rest).push(front.last()));
            assert(words(s).drop_last() =~= filled(rest));
        } else {
            assert(front.last().push(c) =~= seq![c]);
        }
    }
}

proof fn lemma_glue_push(parts: Seq<Seq<char>>, x: Seq<char>)
    ensures
        glue(parts.push(x), " "@) == (if parts.len() == 0 {
            x
        } else {
            glue(parts, " "@) + " "@ + x
        }),
{
    assert(parts.push(x).drop_last() =~= parts);
}

proof fn lemma_glue_grow(parts: Seq<Seq<char>>, c: char)
    requires
        parts.len() > 0,
    ensures
        glue(parts.drop_last().push(parts.last().push(c)), " "@) == glue(parts, " "@).push(c),
{
    let rest = parts.drop_last();
    assert(rest.push(parts.last()) =~= parts);
    lemma_glue_push(rest, parts.last());
    lemma_glue_push(rest, parts.last().push(c));
    assert(glue(rest.push(parts.last().push(c)), " "@) =~= glue(parts, " "@).push(c));
}

proof fn lemma_normal_step(s: Seq<char>, c: char)
    ensures
        normal(s.push(c)) == (if is_space(c) {
            normal(s)
        } else if in_word(s) {
            normal(s).push(c)
        } else if words(s).len() == 0 {
            seq![c]
        } else {
            normal(s).push(' ').push(c)
        }),
{
    reveal_strlit(" ");
    lemma_words_step(s, c);
    if !is_space(c) {
        if in_word(s) {
            lemma_glue_grow(words(s), c);
        } else {
            lemma_glue_push(words(s), seq![c]);
            assert(normal(s) + " "@ + seq![c] =~= normal(s).push(' ').push(c));
        }
    }
}

proof fn lemma_no_words()
    ensures
        words(Seq::<char>::empty()) == Seq::<Seq<char>>::empty(),
{
    let e = Seq::<Seq<char>>::empty();
    let p = |y: Seq<char>| y.len() > 0;
    lemma_filled_push(e, Seq::<char>::empty());
    assert(e.push(Seq::<char>::empty()) =~= seq![Seq::<char>::empty()]);
    lemma_filter_none(e, p);
    assert(e.take(0) =~= e);
}

/// No character parts words in the text, and none is at a place where a word ends.
pub open spec fn calm(s: Seq<char>) -> bool {
    &&& forall|i: int| 0 <= i < s.len() ==> !name_break(#[trigger] s[i])
    &&& forall|i: int, j: int| 0 <= i && j == i + 1 && j < s.len() ==> !word_break(#[trigger] s[i], #[trigger] s[j])
}

proof fn lemma_calm_push(s: Seq<char>, c: char)
    requires
        calm(s),
        !name_break(c),
        s.len() > 0 ==> !word_break(s.last(), c),
    ensures
        calm(s.push(c)),
{
}

/// White space stands only between words, one space each.
pub open spec fn tidy(s: Seq<char>) -> bool {
    &&& forall|i: int| 0 <= i < s.len() && is_space(#[trigger] s[i]) ==> s[i] == ' '
    &&& forall|i: int, j: int|
        0 <= i && j == i + 1 && j < s.len() ==> !is_space(#[trigger] s[i]) || !is_space(#[trigger] s[j])
    &&& s.len() > 0 ==> !is_space(s[0]) && !is_space(s.last())
}

proof fn lemma_tidy_push(s: Seq<char>, c: char)
    requires
        tidy(s),
        !is_space(c),
    ensures
        tidy(s.push(c)),
        s.len() > 0 ==> tidy(s.push(' ').push(c)),
{
    let t = s.push(' ').push(c);
    if s.len() > 0 {
        assert forall|i: int, j: int| 0 <= i && j == i + 1 && j < t.len() implies !is_space(#[trigger] t[i])
            || !is_space(#[trigger] t[j]) by {
            if j < s.len() {
                assert(t[i] == s[i] && t[j] == s[j]);
            } else if j == s.len() {
                assert(t[i] == s.last());
            }
        }
    }
}

pub(crate) proof fn lemma_spaced_calm(s: Seq<char>)
    ensures
        calm(spaced(s)),
        s.len() > 0 ==> spaced(s).len() > 0 && spaced(s).last() == (if name_break(s.last()) {
            ' '
        } else {
            s.last()
        }),
    decreases s.len(),
{
    if s.len() > 0 {
        let t = s.drop_last();
        let c = s.last();
        lemma_spaced_calm(t);
        let front = spaced(t);
        if name_break(c) {
            lemma_calm_push(front, ' ');
        } else if s.len() > 1 && word_break(s[s.len() - 2], c) {
            lemma_calm_push(front, ' ');
            lemma_calm_push(front.push(' '), c);
        } else {
            if s.len() > 1 {
                assert(t.last() == s[s.len() - 2]);
            }
            lemma_calm_push(front, c);
        }
    }
}

pub(crate) proof fn lemma_calm_stays(s: Seq<char>)
    requires
        calm(s),
    ensures
        spaced(s) == s,
    decreases s.len(),
{
    if s.len() > 0 {
        let t = s.drop_last();
        assert(calm(t));
        lemma_calm_stays(t);
        assert(!name_break(s[s.len() - 1]));
        if s.len() > 1 {
            assert(!word_break(s[s.len() - 2], s[s.len() - 1]));
        }
        assert(t.push(s.last()) =~= s);
    } else {
        assert(spaced(s) =~= s);
    }
}

pub(crate) proof fn lemma_normal(s: Seq<char>)
    ensures
        tidy(normal(s)),
        calm(s) ==> calm(normal(s)),
        words(normal(s)) == words(s),
        words(s).len() == 0 <==> normal(s).len() == 0,
        in_word(s) ==> in_word(normal(s)) && normal(s).last() == s.last(),
        normal(s).filter(|c: char| !is_space(c)) == s.filter(|c: char| !is_space(c)),
    decreases s.len(),
{
    let p = |c: char| !is_space(c);
    if s.len() == 0 {
        assert(s =~= Seq::<char>::empty());
        lemma_no_words();
        assert(normal(s) =~= s);
    } else {
        let t = s.drop_last();
        let c = s.last();
        assert(t.push(c) =~= s);
        lemma_normal(t);
        lemma_normal_step(t, c);
        lemma_words_step(t, c);
        lemma_filter_push(t, p, c);
        let n = normal(t);
        if calm(s) {
            assert(calm(t));
            assert(!name_break(s[s.len() - 1]));
            if s.len() > 1 {
                assert(!word_break(s[s.len() - 2], s[s.len() - 1]));
                assert(t.last() == s[s.len() - 2]);
            }
        }
        if !is_space(c) {
            lemma_tidy_push(n, c);
            lemma_filter_push(n, p, c);
            if in_word(t) {
                lemma_words_step(n, c);
                if calm(s) {
                    lemma_calm_push(n, c);
                }
            } else if words(t).len() == 0 {
                assert(n =~= Seq::<char>::empty());
                assert(seq![c] =~= n.push(c));
                lemma_no_words();
                lemma_words_step(n, c);
                if calm(s) {
                    lemma_calm_push(n, c);
                }
            } else {
                lemma_words_step(n, ' ');
                lemma_words_step(n.push(' '), c);
                lemma_filter_push(n, p, ' ');
                lemma_filter_push(n.push(' '), p, c);
                if calm(s) {
                    lemma_calm_push(n, ' ');
                    lemma_calm_push(n.push(' '), c);
                }
            }
        }
    }
}

proof fn lemma_filter_push(s: Seq<char>, p: spec_fn(char) -> bool, c: char)
    ensures
        s.push(c).filter(p) == (if p(c) {
            s.filter(p).push(c)
        } else {
            s.filter(p)
        }),
{
    let t = s.push(c);
    lemma_filter_step(t, p, s.len() as int);
    assert(t.take(s.len() as int + 1) =~= t);
    assert(t.take(s.len() as int) =~= s);
}

proof fn lemma_spaced_keeps(s: Seq<char>)
    ensures
        spaced(s).filter(|c: char| !is_space(c)) == s.filter(|c: char| !is_space(c) && !name_break(c)),
    decreases s.len(),
{
    let p = |c: char| !is_space(c);
    let q = |c: char| !is_space(c) && !name_break(c);
    if s.len() == 0 {
        lemma_filter_none(s, p);
        lemma_filter_none(s, q);
        assert(s.take(0) =~= s);
        assert(spaced(s) =~= s);
    } else {
        let t = s.drop_last();
        let c = s.last();
        assert(t.push(c) =~= s);
        lemma_spaced_keeps(t);
        lemma_filter_push(t, q, c);
        let front = spaced(t);
        lemma_filter_push(front, p, ' ');
        lemma_filter_push(front, p, c);
        lemma_filter_push(front.push(' '), p, c);
    }
}

/// Splitting what is split changes nothing: the words of a name are its words.
pub proof fn splitting_again_changes_nothing(s: Seq<char>)
    ensures
        camel_words(camel_words(s)) == camel_words(s),
{
    let u = spaced(s);
    lemma_spaced_calm(s);
    lemma_normal(u);
    lemma_calm_stays(normal(u));
}

/// Splitting loses nothing but white space and the characters that part words: what is left is there,
/// in order and as it was. There is one space between words and none at the ends.
pub proof fn splitting_keeps_every_character(s: Seq<char>)
    ensures
        camel_words(s).filter(|c: char| !is_space(c)) == s.filter(|c: char| !is_space(c) && !name_break(c)),
        tidy(camel_words(s)),
        forall|i: int| 0 <= i < camel_words(s).len() ==> !name_break(#[trigger] camel_words(s)[i]),
{
    lemma_spaced_calm(s);
    lemma_normal(spaced(s));
    lemma_spaced_keeps(s);
}

} // verus!
