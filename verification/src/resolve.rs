//! Identifier resolution shared by the command line, the HTTP API and the MCP server.
//!
//! An asset identifier is a 32-hex guid, `Package::Assets/full/path`, an `Assets/...` path, a path
//! suffix, a bare file name, or `#<asset id>`. A package identifier is an id or a (partial) name.

use vstd::prelude::*;
use vstd::string::*;

use crate::db::{
    asset_of, asset_row, assets_at, assets_below, assets_named, assets_with_guid, id_too_large,
    packages_meant, text_view, Database, DbView,
};
use crate::error::{not_found, outcome, several_assets, several_packages, Error, ErrorView, UaiError};
use crate::model::{Asset, AssetView, Package, PackageView};
use crate::number::{decimal_usize, integer_of, numeral, parse_i64};
use crate::outside::{quoted, quoted_of};
use crate::seqs::{lemma_filter_none, lemma_filter_step};
use crate::text::{
    after_last, cat, chars_of, cut_both, find, occurs, occurs_at, replace_char, replaced, same_text,
    strip_prefix, text_after_last, text_between, trim, trim_both, trimmed, Sep,
};
use crate::unitypackage::{guid_shaped, is_guid};

verus! {

/// The message of a number that is no id.
pub open spec fn too_large() -> Seq<char> {
    "number too large to fit in target type"@
}

/// The one package that a text means.
pub open spec fn package_named(db: DbView, needle: Seq<char>) -> Result<PackageView, ErrorView> {
    let rows = packages_meant(db, needle);
    if id_too_large(needle) {
        Err(ErrorView::Other(too_large()))
    } else if rows.len() == 0 {
        Err(not_found("no package matches "@ + quoted_of(needle)))
    } else if rows.len() == 1 {
        Ok(rows[0])
    } else {
        Err(
            ErrorView::User(
                several_packages(
                    quoted_of(needle) + " matches several packages; use the id or a longer name:"@,
                    rows,
                ),
            ),
        )
    }
}

pub fn resolve_package(db: &Database, needle: &str) -> (r: Result<Package, Error>)
    ensures
        outcome(r) == package_named(db@, needle@),
{
    let rows = match db.find_packages(needle) {
        Ok(rows) => rows,
        Err(_) => {
            return Err(Error::Other("number too large to fit in target type".to_string()));
        },
    };
    let mut rows = rows;
    let n: usize = rows.len();
    let ghost rv = rows.deep_view();
    if n == 0 {
        let q = quoted(needle);
        return Err(Error::User(UaiError::NotFound(cat("no package matches ", q.as_str()))));
    }
    if n == 1 {
        assert(rv[0] == rows@[0]@);
        let p = rows.remove(0);
        return Ok(p);
    }
    let q = quoted(needle);
    Err(
        Error::User(
            UaiError::ambiguous_packages(
                cat(q.as_str(), " matches several packages; use the id or a longer name:"),
                rows,
            ),
        ),
    )
}

/// Where `p` stands first in `s`.
pub open spec fn first_at(s: Seq<char>, p: Seq<char>) -> int {
    choose|i: int| occurs_at(s, p, i) && forall|j: int| 0 <= j < i ==> !occurs_at(s, p, j)
}

/// An identifier parted at its first `::` into package and rest.
pub open spec fn ident_parts(ident: Seq<char>) -> Option<(Seq<char>, Seq<char>)> {
    if occurs(ident, "::"@) {
        let i = first_at(ident, "::"@);
        Some((ident.take(i), ident.skip(i + "::"@.len())))
    } else {
        None
    }
}

fn split_ident(ident: &str) -> (r: Option<(String, String)>)
    ensures
        r.deep_view() == ident_parts(ident@),
{
    let v = chars_of(ident);
    let sep = chars_of("::");
    match find(&v, &sep) {
        Some(i) => {
            proof {
                let k = first_at(v@, sep@);
                assert(occurs_at(v@, sep@, i as int));
                assert(occurs_at(v@, sep@, k) && forall|j: int| 0 <= j < k ==> !occurs_at(v@, sep@, j));
                assert(k == i);
                assert(v@.take(i as int) =~= v@.subrange(0, i as int));
                assert(v@.skip(i + sep@.len()) =~= v@.subrange(i + sep@.len(), v@.len() as int));
            }
            let m: usize = sep.len();
            let n: usize = v.len();
            assert(i + m <= n);
            Some((text_between(&v, 0, i), text_between(&v, i + m, n)))
        },
        None => None,
    }
}

/// The asset id in `#<id>`.
pub open spec fn id_in(ident: Seq<char>) -> Option<i64> {
    if ident.len() > 0 && ident[0] == '#' {
        match integer_of(ident.skip(1)) {
            Some(n) => if i64::MIN <= n <= i64::MAX {
                Some(n as i64)
            } else {
                None
            },
            None => None,
        }
    } else {
        None
    }
}

fn parse_id(ident: &str) -> (r: Option<i64>)
    ensures
        r == id_in(ident@),
{
    proof {
        reveal_strlit("#");
        assert("#"@ =~= seq!['#']);
        if ident@.len() > 0 {
            assert(ident@.subrange(0, 1) =~= seq![ident@[0]]);
        }
    }
    match strip_prefix(ident, "#") {
        Some(rest) => {
            assert(ident@[0] == '#') by {
                assert(ident@.subrange(0, 1)[0] == "#"@[0]);
            }
            parse_i64(rest.as_str())
        },
        None => None,
    }
}

/// The assets of the package asked for.
pub open spec fn only_in(rows: Seq<AssetView>, pid: Option<i64>) -> Seq<AssetView> {
    rows.filter(
        |a: AssetView|
            match pid {
                Some(p) => a.package_id == p,
                None => true,
            },
    )
}

fn keep_in(rows: &Vec<Asset>, pid: Option<i64>) -> (r: Vec<Asset>)
    ensures
        r.deep_view() == only_in(rows.deep_view(), pid),
{
    let ghost s = rows.deep_view();
    let ghost keep = |a: AssetView|
        match pid {
            Some(p) => a.package_id == p,
            None => true,
        };
    let mut out: Vec<Asset> = Vec::new();
    let mut i: usize = 0;
    proof {
        lemma_filter_none(s, keep);
        assert(out.deep_view() =~= s.take(0).filter(keep));
    }
    while i < rows.len()
        invariant
            i <= rows@.len(),
            s == rows.deep_view(),
            keep == (|a: AssetView|
                match pid {
                    Some(p) => a.package_id == p,
                    None => true,
                }),
            out.deep_view() == s.take(i as int).filter(keep),
        decreases rows@.len() - i,
    {
        proof {
            lemma_filter_step(s, keep, i as int);
            assert(s[i as int] == rows@[i as int]@);
        }
        let wanted = match pid {
            Some(p) => rows[i].package_id == p,
            None => true,
        };
        if wanted {
            let ghost o0 = out.deep_view();
            out.push(rows[i].clone());
            assert(out.deep_view() =~= o0.push(s[i as int]));
        }
        i += 1;
    }
    assert(s.take(s.len() as int) =~= s);
    out
}

/// How many matches are looked at.
pub const MATCH_LIMIT: usize = 50;

/// The assets at a path, else below it, else with that name.
pub open spec fn assets_by_text(db: DbView, text: Seq<char>, pid: Option<i64>) -> Seq<AssetView> {
    let norm = trim_both(replaced(text, '\\', '/'), Sep::Is('/'));
    let at = assets_at(db, norm, pid);
    let below = assets_below(db, norm, pid, MATCH_LIMIT);
    if at.len() > 0 {
        at
    } else if below.len() > 0 {
        below
    } else {
        assets_named(db, norm, pid, MATCH_LIMIT)
    }
}

/// The assets that an identifier may mean, of a package where one is given.
pub open spec fn assets_meant(db: DbView, ident: Seq<char>, pid: Option<i64>) -> Seq<AssetView> {
    match id_in(ident) {
        Some(id) => match asset_row(db, id) {
            Some(a) => only_in(seq![asset_of(db, a)], pid),
            None => Seq::empty(),
        },
        None => if guid_shaped(ident) {
            only_in(assets_with_guid(db, ident), pid)
        } else {
            assets_by_text(db, ident, pid)
        },
    }
}

/// All of the same package and guid.
pub open spec fn all_one(rows: Seq<AssetView>) -> bool {
    forall|i: int|
        0 <= i < rows.len() ==> (#[trigger] rows[i]).package_id == rows[0].package_id && rows[i].guid == rows[0].guid
}

/// The one asset among those that an identifier may mean.
pub open spec fn the_one(ident: Seq<char>, rows: Seq<AssetView>) -> Result<AssetView, ErrorView> {
    if rows.len() == 0 {
        Err(
            not_found(
                "no asset matches "@ + quoted_of(ident) + ". Try `uai search "@ + quoted_of(
                    after_last(ident, '/'),
                ) + "`."@,
            ),
        )
    } else if !all_one(rows) {
        Err(
            ErrorView::User(
                several_assets(
                    quoted_of(ident) + " is ambiguous ("@ + numeral(rows.len())
                        + " matches). Use the guid or `Package::Assets/path`:"@,
                    rows,
                ),
            ),
        )
    } else {
        Ok(rows[0])
    }
}

/// The package that an identifier or the caller names, and the rest of the identifier.
pub open spec fn package_and_rest(db: DbView, ident: Seq<char>, package: Option<Seq<char>>) -> Result<
    (Option<i64>, Seq<char>),
    ErrorView,
> {
    match ident_parts(ident) {
        Some((name, rest)) => match package_named(db, name) {
            Ok(p) => Ok((Some(p.id), rest)),
            Err(e) => Err(e),
        },
        None => match package {
            Some(p) => if trim(p).len() > 0 {
                match package_named(db, p) {
                    Ok(q) => Ok((Some(q.id), ident)),
                    Err(e) => Err(e),
                }
            } else {
                Ok((None, ident))
            },
            None => Ok((None, ident)),
        },
    }
}

/// The asset that an identifier means.
pub open spec fn asset_named(db: DbView, ident: Seq<char>, package: Option<Seq<char>>) -> Result<AssetView, ErrorView> {
    match package_and_rest(db, trim(ident), package) {
        Ok((pid, rest)) => the_one(rest, assets_meant(db, rest, pid)),
        Err(e) => Err(e),
    }
}

fn find_assets(db: &Database, ident: &str, pid: Option<i64>) -> (r: Vec<Asset>)
    ensures
        r.deep_view() == assets_meant(db@, ident@, pid),
{
    match parse_id(ident) {
        Some(id) => {
            let mut rows: Vec<Asset> = Vec::new();
            match db.asset_by_id(id) {
                Some(a) => {
                    let ghost av = a@;
                    rows.push(a);
                    assert(rows.deep_view() =~= seq![av]);
                    keep_in(&rows, pid)
                },
                None => {
                    assert(rows.deep_view() =~= Seq::<AssetView>::empty());
                    rows
                },
            }
        },
        None => {
            if is_guid(ident) {
                let rows = db.assets_by_guid(ident);
                keep_in(&rows, pid)
            } else {
                let slashed = replace_char(ident, '\\', '/');
                let norm = cut_both(slashed.as_str(), Sep::Is('/'));
                let rows = db.assets_by_path(norm.as_str(), pid);
                if rows.len() > 0 {
                    return rows;
                }
                let rows = db.assets_by_path_suffix(norm.as_str(), pid, MATCH_LIMIT);
                if rows.len() > 0 {
                    return rows;
                }
                db.assets_by_name(norm.as_str(), pid, MATCH_LIMIT)
            }
        },
    }
}

/// The one asset among those that an identifier may mean: none is "not found", several are
/// "ambiguous".
pub fn choose_one(ident: &str, rows: Vec<Asset>) -> (r: Result<Asset, Error>)
    ensures
        outcome(r) == the_one(ident@, rows.deep_view()),
{
    let ghost rv = rows.deep_view();
    let n: usize = rows.len();
    if n == 0 {
        let hint = text_after_last(ident, '/');
        let mut m = cat("no asset matches ", quoted(ident).as_str());
        m.append(". Try `uai search ");
        m.append(quoted(hint.as_str()).as_str());
        m.append("`.");
        return Err(Error::User(UaiError::NotFound(m)));
    }
    let mut i: usize = 1;
    let mut same = true;
    assert(rv[0] == rows@[0]@);
    while i < n
        invariant
            1 <= i <= n,
            n == rows@.len(),
            rv == rows.deep_view(),
            same == (forall|k: int|
                0 <= k < i ==> (#[trigger] rv[k]).package_id == rv[0].package_id && rv[k].guid == rv[0].guid),
        decreases n - i,
    {
        assert(rv[i as int] == rows@[i as int]@);
        assert(rv[0] == rows@[0]@);
        if rows[i].package_id != rows[0].package_id || !same_text(
            rows[i].guid.as_str(),
            rows[0].guid.as_str(),
        ) {
            same = false;
        }
        i += 1;
    }
    assert(same == all_one(rv));
    if !same {
        let mut m = quoted(ident);
        m.append(" is ambiguous (");
        m.append(decimal_usize(n).as_str());
        m.append(" matches). Use the guid or `Package::Assets/path`:");
        return Err(Error::User(UaiError::ambiguous_assets(m, rows)));
    }
    let mut rows = rows;
    let a = rows.remove(0);
    Ok(a)
}

pub fn resolve_asset(db: &Database, ident: &str, package: Option<&str>) -> (r: Result<Asset, Error>)
    ensures
        outcome(r) == asset_named(db@, ident@, text_view(package)),
{
    let ident = trimmed(ident);
    let mut pid: Option<i64> = None;
    let mut rest = ident.clone();
    match split_ident(ident.as_str()) {
        Some((name, tail)) => {
            match resolve_package(db, name.as_str()) {
                Ok(p) => {
                    pid = Some(p.id);
                    rest = tail;
                },
                Err(e) => {
                    return Err(e);
                },
            }
        },
        None => match package {
            Some(p) => {
                let t = trimmed(p);
                if !t.as_str().is_empty() {
                    match resolve_package(db, p) {
                        Ok(q) => {
                            pid = Some(q.id);
                        },
                        Err(e) => {
                            return Err(e);
                        },
                    }
                }
            },
            None => {},
        },
    }
    let rows = find_assets(db, rest.as_str(), pid);
    choose_one(rest.as_str(), rows)
}

/// Whether an asset of this package and guid is there.
pub open spec fn same_there(rows: Seq<AssetView>, a: AssetView) -> bool {
    exists|i: int| 0 <= i < rows.len() && (#[trigger] rows[i]).package_id == a.package_id && rows[i].guid == a.guid
}

/// The assets that several identifiers mean, each once; the first error where there is one.
pub open spec fn roots_named(db: DbView, idents: Seq<Seq<char>>, package: Option<Seq<char>>) -> Result<
    Seq<AssetView>,
    ErrorView,
>
    decreases idents.len(),
{
    if idents.len() == 0 {
        Ok(Seq::empty())
    } else {
        match roots_named(db, idents.drop_last(), package) {
            Ok(rows) => match asset_named(db, idents.last(), package) {
                Ok(a) => if same_there(rows, a) {
                    Ok(rows)
                } else {
                    Ok(rows.push(a))
                },
                Err(e) => Err(e),
            },
            Err(e) => Err(e),
        }
    }
}

fn is_there(rows: &Vec<Asset>, a: &Asset) -> (r: bool)
    ensures
        r == same_there(rows.deep_view(), a@),
{
    let mut i: usize = 0;
    while i < rows.len()
        invariant
            i <= rows@.len(),
            forall|k: int|
                0 <= k < i ==> (#[trigger] rows.deep_view()[k]).package_id != a@.package_id || rows.deep_view()[k].guid
                    != a@.guid,
        decreases rows@.len() - i,
    {
        assert(rows.deep_view()[i as int] == rows@[i as int]@);
        if rows[i].package_id == a.package_id && same_text(rows[i].guid.as_str(), a.guid.as_str()) {
            return true;
        }
        i += 1;
    }
    false
}

proof fn lemma_error_stays(db: DbView, idents: Seq<Seq<char>>, package: Option<Seq<char>>, n: int)
    requires
        0 <= n <= idents.len(),
        roots_named(db, idents.take(n), package) is Err,
    ensures
        roots_named(db, idents, package) == roots_named(db, idents.take(n), package),
    decreases idents.len() - n,
{
    if n == idents.len() {
        assert(idents.take(n) =~= idents);
    } else {
        assert(idents.take(n + 1).drop_last() =~= idents.take(n));
        lemma_error_stays(db, idents, package, n + 1);
    }
}

/// Resolves several identifiers, dropping duplicates (same package + guid).
pub fn resolve_roots(db: &Database, idents: &Vec<String>, package: Option<&str>) -> (r: Result<Vec<Asset>, Error>)
    ensures
        outcome(r) == roots_named(db@, idents.deep_view(), text_view(package)),
{
    let ghost ids = idents.deep_view();
    let mut roots: Vec<Asset> = Vec::new();
    let mut i: usize = 0;
    assert(ids.take(0) =~= Seq::<Seq<char>>::empty());
    assert(roots.deep_view() =~= Seq::<AssetView>::empty());
    while i < idents.len()
        invariant
            i <= idents@.len(),
            ids == idents.deep_view(),
            roots_named(db@, ids.take(i as int), text_view(package)) == Ok::<Seq<AssetView>, ErrorView>(
                roots.deep_view(),
            ),
        decreases idents@.len() - i,
    {
        proof {
            assert(ids.take(i + 1).drop_last() =~= ids.take(i as int));
            assert(ids.take(i + 1).last() == idents@[i as int]@);
        }
        match resolve_asset(db, idents[i].as_str(), package) {
            Ok(a) => {
                if !is_there(&roots, &a) {
                    let ghost r0 = roots.deep_view();
                    let ghost av = a@;
                    roots.push(a);
                    assert(roots.deep_view() =~= r0.push(av));
                }
            },
            Err(e) => {
                proof {
                    lemma_error_stays(db@, ids, text_view(package), i + 1);
                }
                return Err(e);
            },
        }
        i += 1;
    }
    assert(ids.take(ids.len() as int) =~= ids);
    Ok(roots)
}

/// No two of the assets that identifiers mean are of the same package and guid.
pub proof fn roots_are_distinct(db: DbView, idents: Seq<Seq<char>>, package: Option<Seq<char>>)
    requires
        roots_named(db, idents, package) is Ok,
    ensures
        ({
            let rows = roots_named(db, idents, package)->Ok_0;
            forall|i: int, j: int|
                0 <= i < j < rows.len() ==> (#[trigger] rows[i]).package_id != (#[trigger] rows[j]).package_id
                    || rows[i].guid != rows[j].guid
        }),
    decreases idents.len(),
{
    if idents.len() > 0 {
        let front = roots_named(db, idents.drop_last(), package);
        assert(front is Ok);
        roots_are_distinct(db, idents.drop_last(), package);
        let a = asset_named(db, idents.last(), package)->Ok_0;
        let old_rows = front->Ok_0;
        let rows = roots_named(db, idents, package)->Ok_0;
        assert forall|i: int, j: int| 0 <= i < j < rows.len() implies (#[trigger] rows[i]).package_id != (
        #[trigger] rows[j]).package_id || rows[i].guid != rows[j].guid by {
            if j < old_rows.len() {
                assert(old_rows[i].package_id != old_rows[j].package_id || old_rows[i].guid != old_rows[j].guid);
            } else {
                assert(!same_there(old_rows, a));
                assert(old_rows[i] == rows[i]);
            }
        }
    }
}

/// Where an identifier means one asset, it is one of those it may mean, and these are all of the same
/// package and guid.
pub proof fn the_one_is_meant(ident: Seq<char>, rows: Seq<AssetView>)
    requires
        the_one(ident, rows) is Ok,
    ensures
        rows.contains(the_one(ident, rows)->Ok_0),
        all_one(rows),
{
    assert(rows[0] == the_one(ident, rows)->Ok_0);
}

} // verus!
