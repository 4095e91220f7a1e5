//! What looking things up in the index promises: searches, listings, packages, users and statistics.

use vstd::prelude::*;

use crate::db::{
    asset_of, assets_at, assets_below, assets_in, assets_in_order, assets_named, assets_with_guid, by_length,
    by_length_path, by_package, by_package_name, by_package_path, by_path, comma_list, holding, kind_listed,
    orders_are_orders, package_like, package_views, package_wanted, package_with_id, packages_in_order, packages_meant,
    packages_where, passes, path_hits, path_holds, publisher_wanted, ranked_hits, referrers_of, search_hits,
    search_limit, select_where, under, AssetRowView, DbView, PackageRowView,
};
use crate::laws::lemma_selected;
use crate::model::{AssetView, PackageView, SearchQueryView};
use crate::number::{all_digits, number_of};
use crate::pattern::{
    lemma_percent_end, lemma_plain_prefix, like, like_finds_substrings, occurs_folded, plain,
};
use crate::seqs::{lemma_filter_has, lemma_first_index, page};
use crate::sorted::{arranged, arranging_keeps, arranging_sorts, at_most};
use crate::text::{lower, pieces, trim, trim_back, trim_front, words, Sep};
use crate::tokens::fts_text;

verus! {

// ----- patterns ------------------------------------------------------------------------------

/// Whether a text stands somewhere in another, ASCII letters in either case.
pub open spec fn mentions(t: Seq<char>, s: Seq<char>) -> bool {
    exists|i: int| 0 <= i && i + s.len() <= t.len() && lower(#[trigger] t.subrange(i, i + s.len())) == lower(s)
}

/// Whether a text stands at the beginning of another, ASCII letters in either case.
pub open spec fn begins(t: Seq<char>, s: Seq<char>) -> bool {
    s.len() <= t.len() && lower(t.take(s.len() as int)) == lower(s)
}

/// Whether a text stands at the end of another, ASCII letters in either case.
pub open spec fn finishes(t: Seq<char>, s: Seq<char>) -> bool {
    s.len() <= t.len() && lower(t.skip(t.len() - s.len())) == lower(s)
}

proof fn lemma_holding(s: Seq<char>, t: Seq<char>)
    requires
        plain(s),
    ensures
        like(holding(s), t) <==> mentions(t, s),
{
    reveal_strlit("%");
    assert("%"@ =~= seq!['%']);
    like_finds_substrings(s, t);
    if occurs_folded(t, s) {
        let i = choose|i: int|
            0 <= i && i + s.len() <= t.len() && crate::text::same_folded(s, #[trigger] t.subrange(i, i + s.len()));
        assert(lower(t.subrange(i, i + s.len())) == lower(s));
    }
    if mentions(t, s) {
        let i = choose|i: int|
            0 <= i && i + s.len() <= t.len() && lower(#[trigger] t.subrange(i, i + s.len())) == lower(s);
        assert(crate::text::same_folded(s, t.subrange(i, i + s.len())));
    }
}

proof fn lemma_like_front(s: Seq<char>, t: Seq<char>)
    requires
        plain(s),
    ensures
        like(s + "%"@, t) <==> begins(t, s),
{
    reveal_strlit("%");
    assert("%"@ =~= seq!['%']);
    lemma_plain_prefix(s, seq!['%'], t);
    if s.len() <= t.len() {
        lemma_percent_end(t.skip(s.len() as int));
    }
}

proof fn lemma_like_same(s: Seq<char>, t: Seq<char>)
    requires
        plain(s),
    ensures
        like(s, t) <==> lower(s) == lower(t),
{
    let none = Seq::<char>::empty();
    assert(s + none =~= s);
    lemma_plain_prefix(s, none, t);
    assert(lower(s).len() == s.len() && lower(t).len() == t.len());
    if s.len() == t.len() {
        assert(t.take(s.len() as int) =~= t);
    }
}

pub(crate) proof fn lemma_like_back(s: Seq<char>, t: Seq<char>)
    requires
        plain(s),
    ensures
        like(seq!['%'] + s, t) <==> finishes(t, s),
    decreases t.len(),
{
    let q = seq!['%'] + s;
    assert(q.drop_first() =~= s);
    lemma_like_same(s, t);
    assert(lower(s).len() == s.len() && lower(t).len() == t.len());
    if s.len() == t.len() {
        assert(t.skip(0) =~= t);
    }
    if t.len() > 0 {
        let u = t.drop_first();
        lemma_like_back(s, u);
        if s.len() <= u.len() {
            assert(u.skip(u.len() - s.len()) =~= t.skip(t.len() - s.len()));
        }
    }
}

// ----- rows ----------------------------------------------------------------------------------

/// An asset of the index is its row, with the name, the publisher and the path of its package.
pub proof fn assets_are_their_rows(db: DbView, a: AssetRowView, h: int)
    requires
        packages_in_order(db.packages),
        0 <= h < db.packages.len(),
        db.packages[h].package.id == a.package_id,
    ensures
        ({
            let x = asset_of(db, a);
            let p = db.packages[h].package;
            &&& x.id == a.id && x.package_id == a.package_id && x.guid == a.guid && x.path == a.path
            &&& x.name == a.name && x.ext == a.ext && x.kind == a.kind && x.importer == a.importer
            &&& x.main_class == a.main_class && x.size == a.size && x.is_folder == a.is_folder
            &&& x.has_preview == a.has_preview && x.is_text == a.is_text && x.scan_truncated == a.scan_truncated
            &&& x.labels == a.labels
            &&& x.package == p.name && x.publisher == p.publisher && x.package_rel_path == p.rel_path
        }),
{
    lemma_package_at(db, h);
}

proof fn lemma_package_at(db: DbView, h: int)
    requires
        packages_in_order(db.packages),
        0 <= h < db.packages.len(),
    ensures
        package_with_id(db, db.packages[h].package.id) == Some(db.packages[h].package),
{
    let pid = db.packages[h].package.id;
    assert forall|j: int| 0 <= j < h implies (#[trigger] db.packages[j]).package.id != pid by {
        assert(db.packages[j].package.id < db.packages[h].package.id);
    }
    lemma_first_index(db.packages, |r: PackageRowView| r.package.id == pid, h);
}

// ----- filters -------------------------------------------------------------------------------

/// Whether a filter asks for something: it is given, and not just white space.
pub open spec fn asks(filter: Option<Seq<char>>) -> bool {
    filter matches Some(s) && trim(s).len() > 0
}

/// Whether a filter has no wildcards.
pub open spec fn simple(filter: Option<Seq<char>>) -> bool {
    filter matches Some(s) ==> plain(trim(s))
}

/// A package passes the filter for packages where its name, its path or its title mentions the text;
/// a number asks for the package with that id; an empty filter lets all pass.
pub proof fn packages_are_asked_for_by_what_they_mention(p: PackageView, filter: Option<Seq<char>>)
    requires
        simple(filter),
    ensures
        !asks(filter) ==> package_wanted(p, filter),
        asks(filter) && !all_digits(filter->0) ==> (package_wanted(p, filter) <==> mentions(p.name, trim(filter->0))
            || mentions(p.rel_path, trim(filter->0)) || (p.title is Some && mentions(p.title->0, trim(filter->0)))),
        asks(filter) && all_digits(filter->0) ==> (package_wanted(p, filter) <==> p.id == number_of(filter->0)),
{
    if asks(filter) {
        let t = trim(filter->0);
        lemma_holding(t, p.name);
        lemma_holding(t, p.rel_path);
        if p.title is Some {
            lemma_holding(t, p.title->0);
        }
    }
}

/// A package passes the filter for publishers where its publisher mentions the text.
pub proof fn publishers_are_asked_for_by_what_they_mention(p: PackageView, filter: Option<Seq<char>>)
    requires
        simple(filter),
    ensures
        publisher_wanted(p, filter) <==> !asks(filter) || mentions(p.publisher, trim(filter->0)),
{
    if asks(filter) {
        lemma_holding(trim(filter->0), p.publisher);
    }
}

/// Whether a text is one of those between commas, white space around them left out.
pub open spec fn between_commas(list: Seq<char>, s: Seq<char>) -> bool {
    s.len() > 0 && exists|i: int|
        0 <= i < pieces(list, Sep::Is(',')).len() && trim(#[trigger] pieces(list, Sep::Is(','))[i]) == s
}

proof fn lemma_comma_list(list: Seq<char>, s: Seq<char>)
    ensures
        comma_list(list).contains(s) <==> between_commas(list, s),
{
    let ps = pieces(list, Sep::Is(','));
    let f = |p: Seq<char>| trim(p);
    let ts = ps.map_values(f);
    lemma_filter_has(ts, |p: Seq<char>| p.len() > 0, s);
    if ts.contains(s) {
        let i = choose|i: int| 0 <= i < ts.len() && ts[i] == s;
        assert(trim(ps[i]) == s);
    }
    if between_commas(list, s) {
        let i = choose|i: int| 0 <= i < ps.len() && trim(#[trigger] ps[i]) == s;
        assert(ts[i] == s);
    }
}

/// Whether an asset of a package is asked for: every filter that asks for something is met.
pub open spec fn asked(q: SearchQueryView, a: AssetRowView, p: PackageView) -> bool {
    &&& asks(q.kind) ==> between_commas(q.kind->0, a.kind)
    &&& asks(q.ext) ==> lower(a.ext) == lower(trim_front(trim(q.ext->0), Sep::Is('.')))
    &&& asks(q.package) ==> (if all_digits(q.package->0) {
        p.id == number_of(q.package->0)
    } else {
        mentions(p.name, trim(q.package->0)) || mentions(p.rel_path, trim(q.package->0)) || (p.title is Some
            && mentions(p.title->0, trim(q.package->0)))
    })
    &&& asks(q.publisher) ==> mentions(p.publisher, trim(q.publisher->0))
    &&& q.include_folders || !a.is_folder
}

proof fn lemma_passes(db: DbView, q: SearchQueryView, a: AssetRowView, h: int)
    requires
        simple(q.package),
        simple(q.publisher),
        packages_in_order(db.packages),
        0 <= h < db.packages.len(),
        db.packages[h].package.id == a.package_id,
    ensures
        passes(db, q, a) <==> asked(q, a, db.packages[h].package),
{
    let p = db.packages[h].package;
    lemma_package_at(db, h);
    packages_are_asked_for_by_what_they_mention(p, q.package);
    publishers_are_asked_for_by_what_they_mention(p, q.publisher);
    if asks(q.kind) {
        lemma_comma_list(q.kind->0, a.kind);
    }
}

// ----- searches ------------------------------------------------------------------------------

proof fn lemma_whole_page<T>(s: Seq<T>, limit: nat)
    requires
        s.len() <= limit,
    ensures
        page(s, limit, 0) == s,
{
    assert(s.skip(0) =~= s);
}

proof fn lemma_selected_len(db: DbView, p: spec_fn(AssetRowView) -> bool)
    ensures
        select_where(db, p).len() <= db.assets.len(),
{
    let at = crate::laws::lemma_filter_places(db.assets, p);
    db.assets.lemma_filter_len(p);
}

/// Without words a search gives every asset that is asked for, and no other: by the name of its package,
/// and then by path.
pub proof fn searches_without_words_give_all(db: DbView, q: SearchQueryView, ranked: Seq<i64>, k: int, h: int)
    requires
        trim(q.query).len() == 0,
        q.offset == 0,
        q.limit >= db.assets.len(),
        q.limit > 0,
        simple(q.package),
        simple(q.publisher),
        packages_in_order(db.packages),
        0 <= k < db.assets.len(),
        0 <= h < db.packages.len(),
        db.packages[h].package.id == db.assets[k].package_id,
    ensures
        asked(q, db.assets[k], db.packages[h].package) ==> search_hits(db, q, ranked).contains(
            asset_of(db, db.assets[k]),
        ),
        forall|i: int, j: int|
            0 <= i < j < search_hits(db, q, ranked).len() ==> {
                let (a, b) = (#[trigger] search_hits(db, q, ranked)[i], #[trigger] search_hits(db, q, ranked)[j]);
                if a.package == b.package {
                    at_most(a.path, b.path)
                } else {
                    at_most(a.package, b.package)
                }
            },
{
    let p = |a: AssetRowView| passes(db, q, a);
    let sel = select_where(db, p);
    orders_are_orders();
    arranging_sorts(sel, by_package_name());
    lemma_selected_len(db, p);
    lemma_whole_page(arranged(sel, by_package_name()), search_limit(q));
    lemma_passes(db, q, db.assets[k], h);
    if asked(q, db.assets[k], db.packages[h].package) {
        assert(p(db.assets[k]));
        lemma_selected(db, p, asset_of(db, db.assets[k]));
        arranging_keeps(sel, by_package_name(), asset_of(db, db.assets[k]));
    }
    assert forall|i: int, j: int| 0 <= i < j < search_hits(db, q, ranked).len() implies {
        let (a, b) = (#[trigger] search_hits(db, q, ranked)[i], #[trigger] search_hits(db, q, ranked)[j]);
        if a.package == b.package {
            at_most(a.path, b.path)
        } else {
            at_most(a.package, b.package)
        }
    } by {
        let s = arranged(sel, by_package_name());
        assert(by_package_name()(s[i], s[j]));
    }
}

/// Whether a path mentions every word.
pub open spec fn mentions_all(path: Seq<char>, ws: Seq<Seq<char>>) -> bool {
    forall|i: int| 0 <= i < ws.len() ==> mentions(path, #[trigger] ws[i])
}

/// Where full-text search finds nothing, a search gives every asset that is asked for and whose path
/// mentions every word, the shortest paths first.
pub proof fn searches_fall_back_on_paths(db: DbView, q: SearchQueryView, k: int, h: int)
    requires
        trim(q.query).len() > 0,
        forall|i: int| 0 <= i < words(trim(q.query)).len() ==> plain(#[trigger] words(trim(q.query))[i]),
        q.offset == 0,
        q.limit >= db.assets.len(),
        q.limit > 0,
        simple(q.package),
        simple(q.publisher),
        packages_in_order(db.packages),
        0 <= k < db.assets.len(),
        0 <= h < db.packages.len(),
        db.packages[h].package.id == db.assets[k].package_id,
    ensures
        asked(q, db.assets[k], db.packages[h].package) && mentions_all(db.assets[k].path, words(trim(q.query)))
            ==> search_hits(db, q, Seq::empty()).contains(asset_of(db, db.assets[k])),
        forall|i: int, j: int|
            0 <= i < j < search_hits(db, q, Seq::empty()).len() ==> (#[trigger] search_hits(
                db,
                q,
                Seq::empty(),
            )[i]).path.len() <= (#[trigger] search_hits(db, q, Seq::empty())[j]).path.len(),
{
    let ws = words(trim(q.query));
    let p = |a: AssetRowView| path_holds(a.path, ws) && passes(db, q, a);
    let sel = select_where(db, p);
    let none = Seq::<i64>::empty();
    orders_are_orders();
    arranging_sorts(sel, by_length_path());
    lemma_selected_len(db, p);
    lemma_whole_page(arranged(sel, by_length_path()), search_limit(q));
    assert(page(ranked_hits(db, q, none), search_limit(q), 0).len() == 0);
    lemma_passes(db, q, db.assets[k], h);
    if asked(q, db.assets[k], db.packages[h].package) && mentions_all(db.assets[k].path, ws) {
        assert forall|i: int| 0 <= i < ws.len() implies like(holding(#[trigger] ws[i]), db.assets[k].path) by {
            lemma_holding(ws[i], db.assets[k].path);
        }
        assert(p(db.assets[k]));
        lemma_selected(db, p, asset_of(db, db.assets[k]));
        arranging_keeps(sel, by_length_path(), asset_of(db, db.assets[k]));
    }
    assert forall|i: int, j: int| 0 <= i < j < search_hits(db, q, none).len() implies (#[trigger] search_hits(
        db,
        q,
        none,
    )[i]).path.len() <= (#[trigger] search_hits(db, q, none)[j]).path.len() by {
        let s = arranged(sel, by_length_path());
        assert(by_length_path()(s[i], s[j]));
    }
}

/// What the fallback on paths gives mentions every word.
pub proof fn path_hits_mention_every_word(db: DbView, q: SearchQueryView, i: int)
    requires
        forall|j: int| 0 <= j < words(trim(q.query)).len() ==> plain(#[trigger] words(trim(q.query))[j]),
        0 <= i < path_hits(db, q).len(),
    ensures
        mentions_all(path_hits(db, q)[i].path, words(trim(q.query))),
{
    let ws = words(trim(q.query));
    let p = |a: AssetRowView| path_holds(a.path, ws) && passes(db, q, a);
    let sel = select_where(db, p);
    let s = arranged(sel, by_length_path());
    let x = path_hits(db, q)[i];
    let from = if (q.offset as nat) < s.len() {
        q.offset as int
    } else {
        s.len() as int
    };
    assert(s[from + i] == x);
    assert(s.contains(x));
    orders_are_orders();
    arranging_keeps(sel, by_length_path(), x);
    lemma_selected(db, p, x);
    let k = choose|k: int| 0 <= k < db.assets.len() && p(#[trigger] db.assets[k]) && asset_of(db, db.assets[k]) == x;
    assert forall|j: int| 0 <= j < ws.len() implies mentions(x.path, #[trigger] ws[j]) by {
        assert(like(holding(ws[j]), db.assets[k].path));
        lemma_holding(ws[j], db.assets[k].path);
    }
}

proof fn lemma_ranked_has(db: DbView, q: SearchQueryView, ranked: Seq<i64>, r: int, k: int)
    requires
        assets_in_order(db.assets),
        0 <= r < ranked.len(),
        0 <= k < db.assets.len(),
        ranked[r] == db.assets[k].id,
        passes(db, q, db.assets[k]),
    ensures
        ranked_hits(db, q, ranked).contains(asset_of(db, db.assets[k])),
    decreases ranked.len(),
{
    let rest = ranked.drop_last();
    let all = ranked_hits(db, q, ranked);
    let front = ranked_hits(db, q, rest);
    let x = asset_of(db, db.assets[k]);
    if r < rest.len() {
        assert(rest[r] == ranked[r]);
        lemma_ranked_has(db, q, rest, r, k);
        let i = choose|i: int| 0 <= i < front.len() && front[i] == x;
        assert(all[i] == x);
    } else {
        let id = db.assets[k].id;
        lemma_first_index(db.assets, |a: AssetRowView| a.id == id, k);
        assert(all[all.len() - 1] == x);
    }
}

proof fn lemma_ranked_len(db: DbView, q: SearchQueryView, ranked: Seq<i64>)
    ensures
        ranked_hits(db, q, ranked).len() <= ranked.len(),
    decreases ranked.len(),
{
    if ranked.len() > 0 {
        lemma_ranked_len(db, q, ranked.drop_last());
    }
}

/// What full-text search found and is asked for is given, whatever its rank.
pub proof fn searches_give_what_was_found(db: DbView, q: SearchQueryView, ranked: Seq<i64>, r: int, k: int, h: int)
    requires
        db.has_fts,
        trim(q.query).len() > 0,
        fts_text(trim(q.query)).len() > 0,
        q.offset == 0,
        q.limit >= ranked.len(),
        simple(q.package),
        simple(q.publisher),
        packages_in_order(db.packages),
        assets_in_order(db.assets),
        0 <= r < ranked.len(),
        0 <= k < db.assets.len(),
        ranked[r] == db.assets[k].id,
        0 <= h < db.packages.len(),
        db.packages[h].package.id == db.assets[k].package_id,
        asked(q, db.assets[k], db.packages[h].package),
    ensures
        search_hits(db, q, ranked).contains(asset_of(db, db.assets[k])),
{
    lemma_passes(db, q, db.assets[k], h);
    lemma_ranked_has(db, q, ranked, r, k);
    lemma_ranked_len(db, q, ranked);
    lemma_whole_page(ranked_hits(db, q, ranked), search_limit(q));
}

/// What a search gives is asked for, whatever its words and however it was found.
pub proof fn searches_give_nothing_else(db: DbView, q: SearchQueryView, ranked: Seq<i64>, i: int) -> (r: (int, int))
    requires
        crate::db::valid(db),
        simple(q.package),
        simple(q.publisher),
        0 <= i < search_hits(db, q, ranked).len(),
    ensures
        0 <= r.0 < db.assets.len(),
        0 <= r.1 < db.packages.len(),
        db.packages[r.1].package.id == db.assets[r.0].package_id,
        asset_of(db, db.assets[r.0]) == search_hits(db, q, ranked)[i],
        asked(q, db.assets[r.0], db.packages[r.1].package),
        search_hits(db, q, ranked).len() <= (if q.limit > 0 {
            q.limit as int
        } else {
            1
        }),
{
    crate::laws::hits_pass_the_filters(db, q, ranked, i);
    let x = search_hits(db, q, ranked)[i];
    let k = choose|k: int| 0 <= k < db.assets.len() && passes(db, q, #[trigger] db.assets[k]) && asset_of(db, db.assets[k]) == x;
    assert(crate::db::has_package(db.packages, db.assets[k].package_id));
    let h = choose|h: int| 0 <= h < db.packages.len() && (#[trigger] db.packages[h]).package.id == db.assets[k].package_id;
    lemma_passes(db, q, db.assets[k], h);
    (k, h)
}

/// Pages of a search without words follow one another: a page is what stands at its place in the whole.
pub proof fn pages_are_parts_of_the_whole(db: DbView, q: SearchQueryView, ranked: Seq<i64>, i: int)
    requires
        trim(q.query).len() == 0,
        q.limit > 0,
        db.assets.len() <= usize::MAX,
    ensures
        ({
            let all = search_hits(
                db,
                SearchQueryView {
                    offset: 0,
                    limit: if db.assets.len() > 0 {
                        db.assets.len() as usize
                    } else {
                        1
                    },
                    ..q
                },
                ranked,
            );
            let some = search_hits(db, q, ranked);
            &&& 0 <= i < q.limit && q.offset + i < all.len() ==> i < some.len() && some[i] == all[q.offset + i]
            &&& some.len() <= q.limit && some.len() <= all.len()
            &&& 0 <= i < some.len() ==> q.offset + i < all.len()
        }),
{
    let big = SearchQueryView {
        offset: 0,
        limit: if db.assets.len() > 0 {
            db.assets.len() as usize
        } else {
            1
        },
        ..q
    };
    let p = |a: AssetRowView| passes(db, q, a);
    let p2 = |a: AssetRowView| passes(db, big, a);
    assert(p =~= p2);
    lemma_selected_len(db, p);
    orders_are_orders();
    arranging_sorts(select_where(db, p), by_package_name());
    lemma_whole_page(arranged(select_where(db, p), by_package_name()), search_limit(big));
}

// ----- listings ------------------------------------------------------------------------------

/// The listing of a package holds its assets whose path begins with the prefix and whose kind is asked
/// for, and no other, by path.
pub proof fn listings_hold_what_is_under_the_prefix(
    db: DbView,
    pid: i64,
    prefix: Option<Seq<char>>,
    kind: Option<Seq<char>>,
    x: AssetView,
)
    requires
        prefix matches Some(s) ==> plain(trim_back(s, Sep::Is('/'))),
    ensures
        assets_in(db, pid, prefix, kind, None).contains(x) <==> exists|k: int|
            0 <= k < db.assets.len() && (#[trigger] db.assets[k]).package_id == pid && (prefix matches Some(s) ==> s.len()
                == 0 || begins(db.assets[k].path, trim_back(s, Sep::Is('/')))) && (kind matches Some(l) ==> l.len() == 0
                || between_commas(l, db.assets[k].kind)) && asset_of(db, db.assets[k]) == x,
        forall|i: int, j: int|
            0 <= i < j < assets_in(db, pid, prefix, kind, None).len() ==> at_most(
                (#[trigger] assets_in(db, pid, prefix, kind, None)[i]).path,
                (#[trigger] assets_in(db, pid, prefix, kind, None)[j]).path,
            ),
{
    let p = |a: AssetRowView| a.package_id == pid && under(a.path, prefix) && kind_listed(a.kind, kind);
    let sel = select_where(db, p);
    orders_are_orders();
    arranging_sorts(sel, by_path());
    arranging_keeps(sel, by_path(), x);
    lemma_selected(db, p, x);
    assert forall|k: int| 0 <= k < db.assets.len() implies (p(#[trigger] db.assets[k]) <==> db.assets[k].package_id == pid
        && (prefix matches Some(s) ==> s.len() == 0 || begins(db.assets[k].path, trim_back(s, Sep::Is('/')))) && (
    kind matches Some(l) ==> l.len() == 0 || between_commas(l, db.assets[k].kind))) by {
        if let Some(s) = prefix {
            lemma_like_front(trim_back(s, Sep::Is('/')), db.assets[k].path);
        }
        if let Some(l) = kind {
            lemma_comma_list(l, db.assets[k].kind);
        }
    }
    let s = arranged(sel, by_path());
    assert forall|i: int, j: int| 0 <= i < j < s.len() implies at_most((#[trigger] s[i]).path, (#[trigger] s[j]).path) by {
        assert(by_path()(s[i], s[j]));
    }
}

/// A limit takes from the end only: what is given is the beginning of the whole.
pub proof fn limits_take_from_the_end<T>(s: Seq<T>, n: usize)
    ensures
        crate::seqs::limited(s, Some(n)) == (if s.len() <= n {
            s
        } else {
            s.take(n as int)
        }),
        crate::seqs::limited(s, None) == s,
{
    assert(s.skip(0) =~= s);
}

/// The users of an asset are the assets whose references hold its guid, the first ones where there is a
/// limit: by the name of their package, and then by path.
pub proof fn users_come_by_package(db: DbView, guid: Seq<char>, n: usize)
    ensures
        ({
            let all = referrers_of(db, guid, None);
            referrers_of(db, guid, Some(n)) == (if all.len() <= n {
                all
            } else {
                all.take(n as int)
            })
        }),
        forall|i: int, j: int|
            0 <= i < j < referrers_of(db, guid, None).len() ==> {
                let (a, b) = (#[trigger] referrers_of(db, guid, None)[i], #[trigger] referrers_of(db, guid, None)[j]);
                if a.package == b.package {
                    at_most(a.path, b.path)
                } else {
                    at_most(a.package, b.package)
                }
            },
{
    let p = |a: AssetRowView| a.refs.contains(lower(guid));
    let s = arranged(select_where(db, p), by_package_name());
    limits_take_from_the_end(s, n);
    orders_are_orders();
    arranging_sorts(select_where(db, p), by_package_name());
    assert forall|i: int, j: int| 0 <= i < j < s.len() implies {
        let (a, b) = (#[trigger] s[i], #[trigger] s[j]);
        if a.package == b.package {
            at_most(a.path, b.path)
        } else {
            at_most(a.package, b.package)
        }
    } by {
        assert(by_package_name()(s[i], s[j]));
    }
}

// ----- assets by guid, path and name ---------------------------------------------------------

/// An asset is found by its guid, in either case, wherever it is; the packages come by increasing id.
pub proof fn guids_find_every_copy(db: DbView, guid: Seq<char>, x: AssetView)
    ensures
        assets_with_guid(db, guid).contains(x) <==> exists|k: int|
            0 <= k < db.assets.len() && (#[trigger] db.assets[k]).guid == lower(guid) && asset_of(db, db.assets[k]) == x,
        forall|i: int, j: int|
            0 <= i < j < assets_with_guid(db, guid).len() ==> (#[trigger] assets_with_guid(db, guid)[i]).package_id <= (
            #[trigger] assets_with_guid(db, guid)[j]).package_id,
{
    let p = |a: AssetRowView| a.guid == lower(guid);
    let sel = select_where(db, p);
    orders_are_orders();
    arranging_sorts(sel, by_package());
    arranging_keeps(sel, by_package(), x);
    lemma_selected(db, p, x);
    assert forall|k: int| 0 <= k < db.assets.len() implies (p(#[trigger] db.assets[k]) <==> db.assets[k].guid == lower(
        guid,
    )) by {}
    let s = arranged(sel, by_package());
    assert forall|i: int, j: int| 0 <= i < j < s.len() implies (#[trigger] s[i]).package_id <= (
    #[trigger] s[j]).package_id by {
        assert(by_package()(s[i], s[j]));
    }
}

/// An asset is found by its path, in either case, in the package that is given or in all.
pub proof fn paths_find_every_copy(db: DbView, path: Seq<char>, pid: Option<i64>, x: AssetView)
    ensures
        assets_at(db, path, pid).contains(x) <==> exists|k: int|
            0 <= k < db.assets.len() && lower((#[trigger] db.assets[k]).path) == lower(path) && (pid matches Some(n)
                ==> db.assets[k].package_id == n) && asset_of(db, db.assets[k]) == x,
{
    let p = |a: AssetRowView| crate::text::same_folded(a.path, path) && crate::db::in_package(a, pid);
    orders_are_orders();
    arranging_keeps(select_where(db, p), by_package(), x);
    lemma_selected(db, p, x);
    assert forall|k: int| 0 <= k < db.assets.len() implies (p(#[trigger] db.assets[k]) <==> lower(db.assets[k].path)
        == lower(path) && (pid matches Some(n) ==> db.assets[k].package_id == n)) by {}
}

/// An asset is found by the end of its path behind a slash, in either case: the shortest paths first.
pub proof fn path_ends_find_every_copy(db: DbView, suffix: Seq<char>, pid: Option<i64>, limit: usize, x: AssetView)
    requires
        plain(trim_front(suffix, Sep::Is('/'))),
        limit >= db.assets.len(),
    ensures
        assets_below(db, suffix, pid, limit).contains(x) <==> exists|k: int|
            0 <= k < db.assets.len() && finishes(
                (#[trigger] db.assets[k]).path,
                seq!['/'] + trim_front(suffix, Sep::Is('/')),
            ) && (pid matches Some(n) ==> db.assets[k].package_id == n) && asset_of(db, db.assets[k]) == x,
        forall|i: int, j: int|
            0 <= i < j < assets_below(db, suffix, pid, limit).len() ==> (#[trigger] assets_below(
                db,
                suffix,
                pid,
                limit,
            )[i]).path.len() <= (#[trigger] assets_below(db, suffix, pid, limit)[j]).path.len(),
{
    let t = trim_front(suffix, Sep::Is('/'));
    let pattern = "%/"@ + t;
    let p = |a: AssetRowView| like(pattern, a.path) && crate::db::in_package(a, pid);
    let sel = select_where(db, p);
    orders_are_orders();
    arranging_sorts(sel, by_length());
    arranging_keeps(sel, by_length(), x);
    lemma_selected(db, p, x);
    lemma_selected_len(db, p);
    lemma_whole_page(arranged(sel, by_length()), limit as nat);
    reveal_strlit("%/");
    let whole = seq!['/'] + t;
    assert(plain(whole));
    assert(pattern =~= seq!['%'] + whole);
    assert forall|k: int| 0 <= k < db.assets.len() implies (p(#[trigger] db.assets[k]) <==> finishes(
        db.assets[k].path,
        whole,
    ) && (pid matches Some(n) ==> db.assets[k].package_id == n)) by {
        lemma_like_back(whole, db.assets[k].path);
    }
    let s = arranged(sel, by_length());
    assert forall|i: int, j: int| 0 <= i < j < s.len() implies (#[trigger] s[i]).path.len() <= (
    #[trigger] s[j]).path.len() by {
        assert(by_length()(s[i], s[j]));
    }
}

/// An asset is found by its file name, in either case.
pub proof fn names_find_every_copy(db: DbView, name: Seq<char>, pid: Option<i64>, limit: usize, x: AssetView)
    requires
        limit >= db.assets.len(),
    ensures
        assets_named(db, name, pid, limit).contains(x) <==> exists|k: int|
            0 <= k < db.assets.len() && lower((#[trigger] db.assets[k]).name) == lower(name) && (pid matches Some(n)
                ==> db.assets[k].package_id == n) && asset_of(db, db.assets[k]) == x,
{
    let p = |a: AssetRowView| crate::text::same_folded(a.name, name) && crate::db::in_package(a, pid);
    let sel = select_where(db, p);
    orders_are_orders();
    arranging_sorts(sel, by_package_path());
    arranging_keeps(sel, by_package_path(), x);
    lemma_selected(db, p, x);
    lemma_selected_len(db, p);
    lemma_whole_page(arranged(sel, by_package_path()), limit as nat);
    assert forall|k: int| 0 <= k < db.assets.len() implies (p(#[trigger] db.assets[k]) <==> lower(db.assets[k].name)
        == lower(name) && (pid matches Some(n) ==> db.assets[k].package_id == n)) by {}
}

// ----- packages ------------------------------------------------------------------------------

proof fn lemma_packages_where(db: DbView, p: spec_fn(PackageView) -> bool, x: PackageView)
    ensures
        packages_where(db, p).contains(x) <==> p(x) && exists|h: int|
            0 <= h < db.packages.len() && (#[trigger] db.packages[h]).package == x,
{
    let all = package_views(db.packages);
    lemma_filter_has(all, p, x);
    if all.contains(x) {
        let h = choose|h: int| 0 <= h < all.len() && all[h] == x;
        assert(db.packages[h].package == x);
    }
    if exists|h: int| 0 <= h < db.packages.len() && (#[trigger] db.packages[h]).package == x {
        let h = choose|h: int| 0 <= h < db.packages.len() && (#[trigger] db.packages[h]).package == x;
        assert(all[h] == x);
    }
}

/// A text means the package with that id, where it is a number; else the packages with that name, in
/// either case; else those whose name, path or title mentions it.
pub proof fn packages_are_found_by_what_they_mention(db: DbView, needle: Seq<char>, x: PackageView)
    requires
        plain(trim(needle)),
        packages_in_order(db.packages),
    ensures
        ({
            let n = trim(needle);
            let here = exists|h: int| 0 <= h < db.packages.len() && (#[trigger] db.packages[h]).package == x;
            let exact = exists|h: int|
                0 <= h < db.packages.len() && lower((#[trigger] db.packages[h]).package.name) == lower(n);
            &&& all_digits(n) && number_of(n) <= i64::MAX ==> (packages_meant(db, needle).contains(x) <==> here && x.id
                == number_of(n))
            &&& !all_digits(n) && exact ==> (packages_meant(db, needle).contains(x) <==> here && lower(x.name) == lower(n))
            &&& !all_digits(n) && !exact ==> (packages_meant(db, needle).contains(x) <==> here && (mentions(x.name, n)
                || mentions(x.rel_path, n) || (x.title is Some && mentions(x.title->0, n))))
        }),
{
    let n = trim(needle);
    let same = |p: PackageView| crate::text::same_folded(p.name, n);
    let some = |p: PackageView| package_like(p, holding(n));
    lemma_packages_where(db, same, x);
    lemma_packages_where(db, some, x);
    lemma_holding(n, x.name);
    lemma_holding(n, x.rel_path);
    if x.title is Some {
        lemma_holding(n, x.title->0);
    }
    orders_are_orders();
    arranging_keeps(packages_where(db, some), crate::db::by_name(), x);
    let found = packages_where(db, same);
    if exists|h: int| 0 <= h < db.packages.len() && lower((#[trigger] db.packages[h]).package.name) == lower(n) {
        let h = choose|h: int| 0 <= h < db.packages.len() && lower((#[trigger] db.packages[h]).package.name) == lower(n);
        lemma_packages_where(db, same, db.packages[h].package);
        assert(found.contains(db.packages[h].package));
    } else if found.len() > 0 {
        lemma_packages_where(db, same, found[0]);
        assert(found.contains(found[0]));
        let h = choose|h: int| 0 <= h < db.packages.len() && (#[trigger] db.packages[h]).package == found[0];
        assert(lower(db.packages[h].package.name) == lower(n));
    }
    if all_digits(n) && number_of(n) <= i64::MAX {
        let id = number_of(n) as i64;
        let p = |r: PackageRowView| r.package.id == id;
        crate::seqs::lemma_first_index_bounds(db.packages, p);
        if exists|h: int| 0 <= h < db.packages.len() && (#[trigger] db.packages[h]).package == x {
            let h = choose|h: int| 0 <= h < db.packages.len() && (#[trigger] db.packages[h]).package == x;
            lemma_package_at(db, h);
            if x.id == id {
                assert(packages_meant(db, needle)[0] == x);
            }
        }
        if packages_meant(db, needle).contains(x) {
            let f = crate::seqs::first_index(db.packages, p);
            assert(db.packages[f].package == x);
        }
    }
}

/// The list of packages holds every package of the index once, by publisher and name in either case.
pub proof fn all_packages_are_listed(db: DbView)
    ensures
        ({
            let s = arranged(package_views(db.packages), crate::db::by_publisher());
            &&& s.len() == db.packages.len()
            &&& forall|h: int| 0 <= h < db.packages.len() ==> s.contains((#[trigger] db.packages[h]).package)
            &&& s.to_multiset() == package_views(db.packages).to_multiset()
            &&& forall|i: int, j: int|
                0 <= i < j < s.len() ==> {
                    let (a, b) = (#[trigger] s[i], #[trigger] s[j]);
                    if lower(a.publisher) == lower(b.publisher) {
                        at_most(lower(a.name), lower(b.name))
                    } else {
                        at_most(lower(a.publisher), lower(b.publisher))
                    }
                }
        }),
{
    let all = package_views(db.packages);
    let s = arranged(all, crate::db::by_publisher());
    orders_are_orders();
    arranging_sorts(all, crate::db::by_publisher());
    assert forall|h: int| 0 <= h < db.packages.len() implies s.contains((#[trigger] db.packages[h]).package) by {
        assert(all[h] == db.packages[h].package);
        arranging_keeps(all, crate::db::by_publisher(), all[h]);
    }
    assert forall|i: int, j: int| 0 <= i < j < s.len() implies {
        let (a, b) = (#[trigger] s[i], #[trigger] s[j]);
        if lower(a.publisher) == lower(b.publisher) {
            at_most(lower(a.name), lower(b.name))
        } else {
            at_most(lower(a.publisher), lower(b.publisher))
        }
    } by {
        assert(crate::db::by_publisher()(s[i], s[j]));
    }
}

} // verus!
