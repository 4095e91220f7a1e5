//! What naming an asset or a package promises, and what is told of an asset.

use vstd::prelude::*;

use crate::db::{
    asset_of, assets_in_order, assets_with_guid, by_length, by_package, by_package_path, in_package, packages_in_order,
    packages_meant, package_views, refs_from, referrers_of, select_where, AssetRowView, DbView, PackageRowView,
};
use crate::deps::guid_label;
use crate::error::{ErrorView, UaiErrorView};
use crate::model::{AssetView, PackageView};
use crate::number::{all_digits, integer_of, number_of};
use crate::pattern::{like, plain};
use crate::resolve::{
    all_one, asset_named, id_in, only_in, package_and_rest, package_named, roots_named, same_there, the_one,
    MATCH_LIMIT,
};
use crate::search_laws::finishes;
use crate::seqs::{lemma_filter_has, lemma_first_index, lemma_first_index_bounds, page};
use crate::service::{info_of, reference_info};
use crate::sorted::arranged;
use crate::text::{is_hex, lower, occurs, occurs_at, replaced, same_folded, trim, trim_both, trim_front, Sep};
use crate::unitypackage::guid_shaped;

verus! {

// ----- one of many ---------------------------------------------------------------------------

proof fn lemma_filter_one<T>(s: Seq<T>, p: spec_fn(T) -> bool, k: int)
    requires
        0 <= k < s.len(),
        p(s[k]),
        forall|j: int| 0 <= j < s.len() && j != k ==> !p(#[trigger] s[j]),
    ensures
        s.filter(p) == seq![s[k]],
{
    let a = s.take(k);
    let b = seq![s[k]];
    let c = s.skip(k + 1);
    assert(s =~= a + (b + c));
    crate::laws::lemma_filter_sum(a, b + c, p);
    crate::laws::lemma_filter_sum(b, c, p);
    crate::laws::lemma_filter_nothing(a, p);
    crate::laws::lemma_filter_nothing(c, p);
    crate::laws::lemma_filter_all(b, p);
    assert(s.filter(p) =~= b);
}

proof fn lemma_select_one(db: DbView, p: spec_fn(AssetRowView) -> bool, k: int)
    requires
        0 <= k < db.assets.len(),
        p(db.assets[k]),
        forall|j: int| 0 <= j < db.assets.len() && j != k ==> !p(#[trigger] db.assets[j]),
    ensures
        select_where(db, p) == seq![asset_of(db, db.assets[k])],
{
    lemma_filter_one(db.assets, p, k);
    assert(select_where(db, p) =~= seq![asset_of(db, db.assets[k])]);
}

proof fn lemma_select_none(db: DbView, p: spec_fn(AssetRowView) -> bool)
    requires
        forall|j: int| 0 <= j < db.assets.len() ==> !p(#[trigger] db.assets[j]),
    ensures
        select_where(db, p) == Seq::<AssetView>::empty(),
{
    crate::laws::lemma_filter_nothing(db.assets, p);
    assert(select_where(db, p) =~= Seq::<AssetView>::empty());
}

proof fn lemma_arranged_one<T>(x: T, leq: spec_fn(T, T) -> bool)
    ensures
        arranged(seq![x], leq) == seq![x],
        arranged(Seq::<T>::empty(), leq) == Seq::<T>::empty(),
{
    assert(seq![x].drop_last() =~= Seq::<T>::empty());
    assert(Seq::<T>::empty().push(x) =~= seq![x]);
    reveal_with_fuel(arranged, 2);
}

proof fn lemma_page_one<T>(x: T, limit: nat)
    requires
        limit > 0,
    ensures
        page(seq![x], limit, 0) == seq![x],
        page(Seq::<T>::empty(), limit, 0) == Seq::<T>::empty(),
{
    assert(seq![x].skip(0) =~= seq![x]);
    assert(Seq::<T>::empty().skip(0) =~= Seq::<T>::empty());
}

proof fn lemma_the_one(ident: Seq<char>, x: AssetView)
    ensures
        the_one(ident, seq![x]) == Ok::<AssetView, ErrorView>(x),
{
    assert(all_one(seq![x]));
}

proof fn lemma_only_one(x: AssetView, pid: Option<i64>)
    ensures
        (pid matches Some(n) ==> x.package_id == n) ==> only_in(seq![x], pid) == seq![x],
{
    let p = |a: AssetView|
        match pid {
            Some(n) => a.package_id == n,
            None => true,
        };
    if pid matches Some(n) ==> x.package_id == n {
        lemma_filter_one(seq![x], p, 0);
    }
}

proof fn lemma_only_has(rows: Seq<AssetView>, pid: Option<i64>, x: AssetView)
    ensures
        only_in(rows, pid).contains(x) <==> rows.contains(x) && (pid matches Some(n) ==> x.package_id == n),
        pid is None ==> only_in(rows, pid) == rows,
{
    let p = |a: AssetView|
        match pid {
            Some(n) => a.package_id == n,
            None => true,
        };
    lemma_filter_has(rows, p, x);
    if pid is None {
        crate::laws::lemma_filter_all(rows, p);
    }
}

// ----- identifiers ---------------------------------------------------------------------------

/// Whether an identifier is plain text: it names no package and is neither an id nor a guid.
pub open spec fn is_text_ident(t: Seq<char>) -> bool {
    &&& !occurs(t, "::"@)
    &&& t.len() > 0 && t[0] != '#'
    &&& !guid_shaped(t)
}

/// Whether a path is written as the index has it: with forward slashes, and none at its ends.
pub open spec fn tidy_path(t: Seq<char>) -> bool {
    &&& forall|i: int| 0 <= i < t.len() ==> #[trigger] t[i] != '\\'
    &&& t.len() > 0 && t[0] != '/' && t.last() != '/'
}

proof fn lemma_no_package(db: DbView, t: Seq<char>)
    requires
        !occurs(t, "::"@),
    ensures
        package_and_rest(db, t, None) == Ok::<(Option<i64>, Seq<char>), ErrorView>((None, t)),
{
}

proof fn lemma_tidy(t: Seq<char>)
    requires
        tidy_path(t),
    ensures
        trim_both(replaced(t, '\\', '/'), Sep::Is('/')) == t,
        trim_front(t, Sep::Is('/')) == t,
{
    assert(replaced(t, '\\', '/') =~= t);
}

proof fn lemma_guid_is_no_text(t: Seq<char>)
    requires
        guid_shaped(t),
    ensures
        !occurs(t, "::"@),
        id_in(t) is None,
{
    reveal_strlit("::");
    assert(is_hex(t[0]));
    if occurs(t, "::"@) {
        let i = choose|i: int| occurs_at(t, "::"@, i);
        assert(t.subrange(i, i + 2)[0] == ':');
        assert(t[i] == ':');
        assert(is_hex(t[i]));
    }
}

/// A guid, in either case, names the one asset that has it.
pub proof fn guids_name_their_asset(db: DbView, ident: Seq<char>, k: int)
    requires
        trim(ident).len() == 32,
        forall|i: int| 0 <= i < 32 ==> is_hex(#[trigger] trim(ident)[i]),
        0 <= k < db.assets.len(),
        db.assets[k].guid == lower(trim(ident)),
        forall|j: int| 0 <= j < db.assets.len() && j != k ==> (#[trigger] db.assets[j]).guid != lower(trim(ident)),
    ensures
        asset_named(db, ident, None) == Ok::<AssetView, ErrorView>(asset_of(db, db.assets[k])),
{
    let t = trim(ident);
    let x = asset_of(db, db.assets[k]);
    lemma_guid_is_no_text(t);
    lemma_no_package(db, t);
    lemma_select_one(db, |a: AssetRowView| a.guid == lower(t), k);
    lemma_arranged_one(x, by_package());
    lemma_only_one(x, None);
    lemma_the_one(t, x);
}

/// Where two packages hold a guid, naming it alone is ambiguous, and every copy is told.
pub proof fn guids_of_several_packages_are_ambiguous(db: DbView, ident: Seq<char>, k: int, m: int)
    requires
        trim(ident).len() == 32,
        forall|i: int| 0 <= i < 32 ==> is_hex(#[trigger] trim(ident)[i]),
        0 <= k < db.assets.len(),
        0 <= m < db.assets.len(),
        db.assets[k].guid == lower(trim(ident)),
        db.assets[m].guid == lower(trim(ident)),
        db.assets[k].package_id != db.assets[m].package_id,
    ensures
        asset_named(db, ident, None) matches Err(ErrorView::User(UaiErrorView::Ambiguous { candidates, .. }))
            && candidates.contains(asset_of(db, db.assets[k])) && candidates.contains(asset_of(db, db.assets[m])),
{
    let t = trim(ident);
    lemma_guid_is_no_text(t);
    lemma_no_package(db, t);
    let rows = assets_with_guid(db, t);
    let (x, y) = (asset_of(db, db.assets[k]), asset_of(db, db.assets[m]));
    lemma_only_has(rows, None, x);
    crate::search_laws::guids_find_every_copy(db, t, x);
    crate::search_laws::guids_find_every_copy(db, t, y);
    let i = choose|i: int| 0 <= i < rows.len() && rows[i] == x;
    let j = choose|j: int| 0 <= j < rows.len() && rows[j] == y;
    if all_one(rows) {
        assert(rows[i].package_id == rows[0].package_id);
        assert(rows[j].package_id == rows[0].package_id);
    }
}

/// `#` and a number name the asset with that id.
pub proof fn ids_name_their_asset(db: DbView, ident: Seq<char>, n: i64, k: int)
    requires
        assets_in_order(db.assets),
        trim(ident).len() > 0,
        trim(ident)[0] == '#',
        integer_of(trim(ident).skip(1)) == Some(n as int),
        !occurs(trim(ident), "::"@),
        0 <= k < db.assets.len(),
        db.assets[k].id == n,
    ensures
        asset_named(db, ident, None) == Ok::<AssetView, ErrorView>(asset_of(db, db.assets[k])),
{
    let t = trim(ident);
    let x = asset_of(db, db.assets[k]);
    lemma_no_package(db, t);
    lemma_first_index(db.assets, |a: AssetRowView| a.id == n, k);
    lemma_only_one(x, None);
    lemma_the_one(t, x);
}

/// A whole path, in either case, names the one asset at it, whatever else ends in it or has that name.
pub proof fn paths_name_their_asset(db: DbView, ident: Seq<char>, k: int)
    requires
        is_text_ident(trim(ident)),
        tidy_path(trim(ident)),
        0 <= k < db.assets.len(),
        lower(db.assets[k].path) == lower(trim(ident)),
        forall|j: int|
            0 <= j < db.assets.len() && j != k ==> lower((#[trigger] db.assets[j]).path) != lower(trim(ident)),
    ensures
        asset_named(db, ident, None) == Ok::<AssetView, ErrorView>(asset_of(db, db.assets[k])),
{
    let t = trim(ident);
    let x = asset_of(db, db.assets[k]);
    lemma_no_package(db, t);
    lemma_tidy(t);
    lemma_select_one(db, |a: AssetRowView| same_folded(a.path, t) && in_package(a, None), k);
    lemma_arranged_one(x, by_package());
    lemma_the_one(t, x);
}

/// The end of a path behind a slash, in either case, names the one asset that has it, where nothing is
/// at that path itself.
pub proof fn path_ends_name_their_asset(db: DbView, ident: Seq<char>, k: int)
    requires
        is_text_ident(trim(ident)),
        tidy_path(trim(ident)),
        plain(trim(ident)),
        forall|j: int| 0 <= j < db.assets.len() ==> lower((#[trigger] db.assets[j]).path) != lower(trim(ident)),
        0 <= k < db.assets.len(),
        finishes(db.assets[k].path, seq!['/'] + trim(ident)),
        forall|j: int|
            0 <= j < db.assets.len() && j != k ==> !finishes((#[trigger] db.assets[j]).path, seq!['/'] + trim(ident)),
    ensures
        asset_named(db, ident, None) == Ok::<AssetView, ErrorView>(asset_of(db, db.assets[k])),
{
    let t = trim(ident);
    let x = asset_of(db, db.assets[k]);
    let pattern = "%/"@ + t;
    let p = |a: AssetRowView| like(pattern, a.path) && in_package(a, None);
    lemma_no_package(db, t);
    lemma_tidy(t);
    lemma_select_none(db, |a: AssetRowView| same_folded(a.path, t) && in_package(a, None));
    lemma_arranged_one(x, by_package());
    reveal_strlit("%/");
    assert(pattern =~= seq!['%'] + (seq!['/'] + t));
    assert forall|j: int| 0 <= j < db.assets.len() implies (p(#[trigger] db.assets[j]) <==> finishes(
        db.assets[j].path,
        seq!['/'] + t,
    )) by {
        crate::search_laws::lemma_like_back(seq!['/'] + t, db.assets[j].path);
    }
    lemma_select_one(db, p, k);
    lemma_arranged_one(x, by_length());
    lemma_page_one(x, MATCH_LIMIT as nat);
    lemma_the_one(t, x);
}

/// A file name, in either case, names the one asset that has it, where no path is or ends in it.
pub proof fn names_name_their_asset(db: DbView, ident: Seq<char>, k: int)
    requires
        is_text_ident(trim(ident)),
        tidy_path(trim(ident)),
        plain(trim(ident)),
        forall|j: int|
            0 <= j < db.assets.len() ==> lower((#[trigger] db.assets[j]).path) != lower(trim(ident)) && !finishes(
                db.assets[j].path,
                seq!['/'] + trim(ident),
            ),
        0 <= k < db.assets.len(),
        lower(db.assets[k].name) == lower(trim(ident)),
        forall|j: int|
            0 <= j < db.assets.len() && j != k ==> lower((#[trigger] db.assets[j]).name) != lower(trim(ident)),
    ensures
        asset_named(db, ident, None) == Ok::<AssetView, ErrorView>(asset_of(db, db.assets[k])),
{
    let t = trim(ident);
    let x = asset_of(db, db.assets[k]);
    let pattern = "%/"@ + t;
    let p = |a: AssetRowView| like(pattern, a.path) && in_package(a, None);
    lemma_no_package(db, t);
    lemma_tidy(t);
    lemma_select_none(db, |a: AssetRowView| same_folded(a.path, t) && in_package(a, None));
    lemma_arranged_one(x, by_package());
    reveal_strlit("%/");
    assert(pattern =~= seq!['%'] + (seq!['/'] + t));
    assert forall|j: int| 0 <= j < db.assets.len() implies !p(#[trigger] db.assets[j]) by {
        crate::search_laws::lemma_like_back(seq!['/'] + t, db.assets[j].path);
    }
    lemma_select_none(db, p);
    lemma_arranged_one(x, by_length());
    lemma_page_one(x, MATCH_LIMIT as nat);
    lemma_select_one(db, |a: AssetRowView| same_folded(a.name, t) && in_package(a, None), k);
    lemma_arranged_one(x, by_package_path());
    lemma_the_one(t, x);
}

/// What nothing in the index has as its path, the end of its path or its name is not found.
pub proof fn what_nothing_has_is_not_found(db: DbView, ident: Seq<char>)
    requires
        is_text_ident(trim(ident)),
        tidy_path(trim(ident)),
        plain(trim(ident)),
        forall|j: int|
            0 <= j < db.assets.len() ==> lower((#[trigger] db.assets[j]).path) != lower(trim(ident)) && !finishes(
                db.assets[j].path,
                seq!['/'] + trim(ident),
            ) && lower(db.assets[j].name) != lower(trim(ident)),
    ensures
        asset_named(db, ident, None) matches Err(ErrorView::User(UaiErrorView::NotFound(_))),
{
    let t = trim(ident);
    let pattern = "%/"@ + t;
    let p = |a: AssetRowView| like(pattern, a.path) && in_package(a, None);
    lemma_no_package(db, t);
    lemma_tidy(t);
    lemma_select_none(db, |a: AssetRowView| same_folded(a.path, t) && in_package(a, None));
    reveal_strlit("%/");
    assert(pattern =~= seq!['%'] + (seq!['/'] + t));
    assert forall|j: int| 0 <= j < db.assets.len() implies !p(#[trigger] db.assets[j]) by {
        crate::search_laws::lemma_like_back(seq!['/'] + t, db.assets[j].path);
    }
    lemma_select_none(db, p);
    lemma_select_none(db, |a: AssetRowView| same_folded(a.name, t) && in_package(a, None));
    assert(arranged(Seq::<AssetView>::empty(), by_package()) == Seq::<AssetView>::empty());
    assert(arranged(Seq::<AssetView>::empty(), by_length()) == Seq::<AssetView>::empty());
    assert(arranged(Seq::<AssetView>::empty(), by_package_path()) == Seq::<AssetView>::empty());
    assert(Seq::<AssetView>::empty().skip(0) =~= Seq::<AssetView>::empty());
}

/// A package may stand in front of `::` or be given beside the identifier: it comes to the same.
pub proof fn packages_stand_before_or_beside(db: DbView, name: Seq<char>, rest: Seq<char>)
    requires
        trim(name).len() > 0,
        forall|i: int| 0 <= i < name.len() ==> #[trigger] name[i] != ':',
        !occurs(rest, "::"@),
        trim(name + "::"@ + rest) == name + "::"@ + rest,
        trim(rest) == rest,
    ensures
        asset_named(db, name + "::"@ + rest, None) == asset_named(db, rest, Some(name)),
{
    reveal_strlit("::");
    let t = name + "::"@ + rest;
    let n = name.len() as int;
    assert(t.subrange(n, n + 2) =~= "::"@);
    assert(occurs_at(t, "::"@, n));
    assert forall|j: int| 0 <= j < n implies !occurs_at(t, "::"@, j) by {
        if occurs_at(t, "::"@, j) {
            assert(t.subrange(j, j + 2)[0] == ':');
            assert(t[j] == name[j]);
        }
    }
    let i = crate::resolve::first_at(t, "::"@);
    assert(occurs_at(t, "::"@, i) && forall|j: int| 0 <= j < i ==> !occurs_at(t, "::"@, j));
    assert(i == n) by {
        if i < n {
            assert(!occurs_at(t, "::"@, i));
        }
        if i > n {
            assert(!occurs_at(t, "::"@, n));
        }
    }
    assert(t.take(n) =~= name);
    assert(t.skip(n + 2) =~= rest);
}

/// With a package only its own assets are meant: a guid names the copy in that package.
pub proof fn packages_narrow_the_search(db: DbView, ident: Seq<char>, package: Seq<char>, p: PackageView, k: int)
    requires
        trim(ident).len() == 32,
        forall|i: int| 0 <= i < 32 ==> is_hex(#[trigger] trim(ident)[i]),
        trim(package).len() > 0,
        package_named(db, package) == Ok::<PackageView, ErrorView>(p),
        0 <= k < db.assets.len(),
        db.assets[k].guid == lower(trim(ident)),
        db.assets[k].package_id == p.id,
        forall|j: int|
            0 <= j < db.assets.len() && j != k ==> (#[trigger] db.assets[j]).guid != lower(trim(ident))
                || db.assets[j].package_id != p.id,
    ensures
        asset_named(db, ident, Some(package)) == Ok::<AssetView, ErrorView>(asset_of(db, db.assets[k])),
{
    let t = trim(ident);
    let x = asset_of(db, db.assets[k]);
    lemma_guid_is_no_text(t);
    let rows = assets_with_guid(db, t);
    let kept = only_in(rows, Some(p.id));
    crate::search_laws::guids_find_every_copy(db, t, x);
    lemma_only_has(rows, Some(p.id), x);
    assert forall|i: int| 0 <= i < kept.len() implies (#[trigger] kept[i]) == x by {
        let y = kept[i];
        assert(kept.contains(y));
        lemma_only_has(rows, Some(p.id), y);
        crate::search_laws::guids_find_every_copy(db, t, y);
        let j = choose|j: int|
            0 <= j < db.assets.len() && (#[trigger] db.assets[j]).guid == lower(t) && asset_of(db, db.assets[j]) == y;
        assert(db.assets[j].package_id == p.id);
    }
    assert(kept.contains(x));
}

/// Several identifiers name what each of them names: every one has to name something, and what each
/// names is among the assets, which hold nothing else.
pub proof fn every_identifier_counts(db: DbView, idents: Seq<Seq<char>>, package: Option<Seq<char>>, i: int)
    requires
        roots_named(db, idents, package) is Ok,
        0 <= i < idents.len(),
    ensures
        asset_named(db, idents[i], package) is Ok,
        same_there(roots_named(db, idents, package)->Ok_0, asset_named(db, idents[i], package)->Ok_0),
        roots_named(db, idents, package)->Ok_0.len() <= idents.len(),
        forall|r: int|
            0 <= r < roots_named(db, idents, package)->Ok_0.len() ==> exists|j: int|
                0 <= j < idents.len() && asset_named(db, #[trigger] idents[j], package) == Ok::<AssetView, ErrorView>(
                    #[trigger] roots_named(db, idents, package)->Ok_0[r],
                ),
    decreases idents.len(),
{
    let rest = idents.drop_last();
    let rows = roots_named(db, rest, package)->Ok_0;
    let all = roots_named(db, idents, package)->Ok_0;
    let last = asset_named(db, idents.last(), package)->Ok_0;
    assert(idents[idents.len() - 1] == idents.last());
    if rest.len() > 0 {
        let h = if i < rest.len() {
            i
        } else {
            0
        };
        every_identifier_counts(db, rest, package, h);
        assert(rest[h] == idents[h]);
        assert forall|r: int| 0 <= r < all.len() implies exists|j: int|
            0 <= j < idents.len() && asset_named(db, #[trigger] idents[j], package) == Ok::<AssetView, ErrorView>(
                #[trigger] all[r],
            ) by {
            if r < rows.len() {
                assert(all[r] == rows[r]);
                let j = choose|j: int|
                    0 <= j < rest.len() && asset_named(db, #[trigger] rest[j], package) == Ok::<AssetView, ErrorView>(
                        rows[r],
                    );
                assert(idents[j] == rest[j]);
            } else {
                assert(asset_named(db, idents[idents.len() - 1], package) == Ok::<AssetView, ErrorView>(all[r]));
            }
        }
        if i < rest.len() {
            let a = asset_named(db, rest[i], package)->Ok_0;
            let r = choose|r: int|
                0 <= r < rows.len() && (#[trigger] rows[r]).package_id == a.package_id && rows[r].guid == a.guid;
            assert(all[r] == rows[r]);
        } else if !same_there(rows, last) {
            assert(all[rows.len() as int] == last);
        }
    } else {
        assert(rows.len() == 0);
        assert(!same_there(rows, last));
        assert(all[0] == last);
        assert forall|r: int| 0 <= r < all.len() implies exists|j: int|
            0 <= j < idents.len() && asset_named(db, #[trigger] idents[j], package) == Ok::<AssetView, ErrorView>(
                #[trigger] all[r],
            ) by {
            assert(asset_named(db, idents[0], package) == Ok::<AssetView, ErrorView>(all[r]));
        }
    }
}

// ----- packages ------------------------------------------------------------------------------

/// A package is named by its id, or by its name in either case where it is the only one of that name.
pub proof fn packages_are_named_by_id_or_name(db: DbView, needle: Seq<char>, h: int)
    requires
        packages_in_order(db.packages),
        0 <= h < db.packages.len(),
    ensures
        all_digits(trim(needle)) && number_of(trim(needle)) == db.packages[h].package.id ==> package_named(db, needle)
            == Ok::<PackageView, ErrorView>(db.packages[h].package),
        !all_digits(trim(needle)) && lower(db.packages[h].package.name) == lower(trim(needle)) && (forall|j: int|
            0 <= j < db.packages.len() && j != h ==> lower((#[trigger] db.packages[j]).package.name) != lower(
                trim(needle),
            )) ==> package_named(db, needle) == Ok::<PackageView, ErrorView>(db.packages[h].package),
{
    let n = trim(needle);
    if all_digits(n) && number_of(n) == db.packages[h].package.id {
        let id = db.packages[h].package.id;
        assert forall|j: int| 0 <= j < h implies (#[trigger] db.packages[j]).package.id != id by {
            assert(db.packages[j].package.id < db.packages[h].package.id);
        }
        lemma_first_index(db.packages, |r: PackageRowView| r.package.id == id, h);
    }
    if !all_digits(n) && lower(db.packages[h].package.name) == lower(n) && (forall|j: int|
        0 <= j < db.packages.len() && j != h ==> lower((#[trigger] db.packages[j]).package.name) != lower(n)) {
        let all = package_views(db.packages);
        let p = |q: PackageView| same_folded(q.name, n);
        assert forall|j: int| 0 <= j < all.len() && j != h implies !p(#[trigger] all[j]) by {
            assert(all[j] == db.packages[j].package);
        }
        assert(all[h] == db.packages[h].package);
        lemma_filter_one(all, p, h);
    }
}

/// Where nothing matches, no package is named; where several do, all of them are told.
pub proof fn packages_are_not_guessed(db: DbView, needle: Seq<char>)
    requires
        !crate::db::id_too_large(needle),
    ensures
        packages_meant(db, needle).len() == 0 ==> (package_named(db, needle) matches Err(
            ErrorView::User(UaiErrorView::NotFound(_)),
        )),
        packages_meant(db, needle).len() > 1 ==> (package_named(db, needle) matches Err(
            ErrorView::User(UaiErrorView::Ambiguous { package_candidates, .. }),
        ) && package_candidates == packages_meant(db, needle)),
        package_named(db, needle) is Ok ==> packages_meant(db, needle) == seq![package_named(db, needle)->Ok_0],
{
    if packages_meant(db, needle).len() == 1 {
        assert(packages_meant(db, needle) =~= seq![packages_meant(db, needle)[0]]);
    }
}

// ----- what is told of an asset --------------------------------------------------------------

/// What is told of an asset: each of its references, with the copy in its own package where there is
/// one, else that of the package with the lowest id, else a label; the assets that refer to it, 200 at
/// most; and the other copies of it.
pub proof fn assets_are_told_in_full(db: DbView, known: Map<Seq<char>, Seq<char>>, a: AssetView, i: int, x: AssetView)
    ensures
        ({
            let info = info_of(db, known, a);
            let refs = refs_from(db, a.id);
            &&& info.asset == a
            &&& info.refs.len() == refs.len()
            &&& 0 <= i < refs.len() ==> info.refs[i].guid == refs[i]
            &&& 0 <= i < refs.len() && info.refs[i].asset is None ==> info.refs[i].label == guid_label(known, refs[i])
                && forall|k: int| 0 <= k < db.assets.len() ==> (#[trigger] db.assets[k]).guid != lower(refs[i])
            &&& 0 <= i < refs.len() && info.refs[i].asset is Some ==> info.refs[i].label is None && {
                let got = info.refs[i].asset->0;
                &&& got.guid == lower(refs[i])
                &&& forall|k: int|
                    0 <= k < db.assets.len() && (#[trigger] db.assets[k]).guid == lower(refs[i]) ==> (
                    db.assets[k].package_id == a.package_id ==> got.package_id == a.package_id) && (got.package_id
                        == a.package_id || got.package_id <= db.assets[k].package_id)
            }
            &&& info.same_guid_in.contains(x) <==> x.id != a.id && exists|k: int|
                0 <= k < db.assets.len() && (#[trigger] db.assets[k]).guid == lower(a.guid) && asset_of(
                    db,
                    db.assets[k],
                ) == x
            &&& info.referrers.len() <= 200
            &&& info.referrers == (if referrers_of(db, a.guid, None).len() <= 200 {
                referrers_of(db, a.guid, None)
            } else {
                referrers_of(db, a.guid, None).take(200)
            })
        }),
{
    let info = info_of(db, known, a);
    let refs = refs_from(db, a.id);
    crate::search_laws::users_come_by_package(db, a.guid, 200);
    let copies = assets_with_guid(db, a.guid);
    lemma_filter_has(copies, |y: AssetView| y.id != a.id, x);
    crate::search_laws::guids_find_every_copy(db, a.guid, x);
    if 0 <= i < refs.len() {
        let g = refs[i];
        let cands = assets_with_guid(db, g);
        let p = |c: AssetView| c.package_id == a.package_id;
        assert(info.refs[i] == reference_info(db, known, a.package_id, g));
        lemma_first_index_bounds(cands, p);
        crate::search_laws::guids_find_every_copy(db, g, x);
        assert forall|k: int| 0 <= k < db.assets.len() && (#[trigger] db.assets[k]).guid == lower(g) implies exists|j: int|
            0 <= j < cands.len() && (#[trigger] cands[j]).package_id == db.assets[k].package_id by {
            let y = asset_of(db, db.assets[k]);
            crate::search_laws::guids_find_every_copy(db, g, y);
            let j = choose|j: int| 0 <= j < cands.len() && cands[j] == y;
            assert(cands[j].package_id == db.assets[k].package_id);
        }
        if info.refs[i].asset is Some {
            let got = info.refs[i].asset->0;
            let f = crate::seqs::first_index(cands, p);
            let at = if f < cands.len() {
                f
            } else {
                0
            };
            assert(got == cands[at]);
            assert(cands.contains(got));
            crate::search_laws::guids_find_every_copy(db, g, got);
            assert forall|k: int| 0 <= k < db.assets.len() && (#[trigger] db.assets[k]).guid == lower(g) implies (
            db.assets[k].package_id == a.package_id ==> got.package_id == a.package_id) && (got.package_id
                == a.package_id || got.package_id <= db.assets[k].package_id) by {
                let j = choose|j: int|
                    0 <= j < cands.len() && (#[trigger] cands[j]).package_id == db.assets[k].package_id;
                if f >= cands.len() {
                    assert(!p(cands[j]));
                    if j > 0 {
                        assert(cands[0].package_id <= cands[j].package_id);
                    }
                }
            }
        } else {
            assert(cands.len() == 0);
        }
    }
}

} // verus!
