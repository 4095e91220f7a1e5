//! What holds of the index as a whole: what updates keep, what they leave alone, and what queries
//! give back of what was stored.

use vstd::prelude::*;

use crate::db::{
    asset_of, by_length_path, by_package_name, entry_sizes, forgotten, keyed, marked, next_asset_id, orders_are_orders,
    passes, path_hits, path_holds, path_index, ranked_hits, referrers_of, refreshed, refs_from, rescanned, rows_of,
    search_hits, search_limit, select_where, size_sum, upserted, with_previews, with_row, without_package,
    AssetRowView, DbView, FoundView, PackageRowView,
};
use crate::deps::refs_in_lower_case;
use crate::indexer::{scan_taken, sound_run, RunView, ScanView};
use crate::model::{AssetView, PackageView, SearchQueryView};
use crate::seqs::{
    first_index, lemma_filter_has, lemma_filter_none, lemma_filter_step, lemma_first_index_bounds, page,
};
use crate::sorted::{arranged, arranging_keeps, ascending_of, finite_sets_are_listed};
use crate::text::{lower, trim, words};
use crate::unitypackage::{clean_refs, entries_of, scanned_refs_are_guids, EntryView, ScanOptions, TarMemberView};

verus! {

// ----- updates -------------------------------------------------------------------------------

/// A package that was found is in the index afterwards, with what its file says; if it was there
/// before it keeps its id, and no other package changes.
pub proof fn found_packages_are_known(s: Seq<PackageRowView>, f: FoundView, k: int)
    ensures
        ({
            let i = path_index(s, f.root, f.rel_path);
            let t = upserted(s, f);
            &&& 0 <= i < t.len()
            &&& t[i].package.root == f.root && t[i].package.rel_path == f.rel_path
            &&& t[i].package.name == f.name && t[i].package.size == f.size && t[i].package.mtime == f.mtime
            &&& i < s.len() ==> t[i].package.id == s[i].package.id && t.len() == s.len()
            &&& 0 <= k < s.len() && k != i ==> t[k] == s[k]
        }),
{
    let p = |r: PackageRowView| r.package.root == f.root && r.package.rel_path == f.rel_path;
    lemma_first_index_bounds(s, p);
}

/// Looking at a file twice is looking at it once, as far as the index goes, where its header says
/// the same.
pub proof fn finding_again_changes_nothing(s: Seq<PackageRowView>, f: FoundView)
    ensures
        upserted(upserted(s, f), f) == upserted(s, f),
{
    let p = |r: PackageRowView| r.package.root == f.root && r.package.rel_path == f.rel_path;
    let i = path_index(s, f.root, f.rel_path);
    let t = upserted(s, f);
    lemma_first_index_bounds(s, p);
    assert(p(t[i]));
    assert forall|j: int| 0 <= j < i implies !p(#[trigger] t[j]) by {
        assert(!p(s[j]));
    }
    crate::seqs::lemma_first_index(t, p, i);
    assert(refreshed(t[i], f) == t[i]);
    assert(upserted(t, f) =~= t);
}

/// No update lets two packages share root and path, or two assets share package and guid.
pub proof fn updates_keep_keys(
    db: DbView,
    f: FoundView,
    pid: i64,
    es: Seq<EntryView>,
    previews: bool,
    now: u64,
    status: Seq<char>,
    error: Option<Seq<char>>,
)
    requires
        keyed(db),
        crate::db::guids_differ(es),
    ensures
        keyed(DbView { packages: upserted(db.packages, f), ..db }),
        keyed(marked(db, pid, status, error)),
        keyed(forgotten(db, pid)),
        keyed(rescanned(db, pid, es, previews, now)),
{
    lemma_upsert_keeps_keys(db, f);
    let marking = |r: PackageRowView|
        PackageRowView { package: PackageView { status, error, ..r.package }, header: r.header };
    lemma_rows_keep_keys(db, pid, marking);
    lemma_forgetting_keeps_keys(db, pid);
    lemma_rescan_keeps_keys(db, pid, es, previews, now);
}

proof fn lemma_upsert_keeps_keys(db: DbView, f: FoundView)
    requires
        keyed(db),
    ensures
        keyed(DbView { packages: upserted(db.packages, f), ..db }),
{
    let s = db.packages;
    let t = upserted(s, f);
    let p = |r: PackageRowView| r.package.root == f.root && r.package.rel_path == f.rel_path;
    let at = path_index(s, f.root, f.rel_path);
    lemma_first_index_bounds(s, p);
    assert forall|i: int, j: int| 0 <= i < j < t.len() implies (#[trigger] t[i]).package.root != (
    #[trigger] t[j]).package.root || t[i].package.rel_path != t[j].package.rel_path by {
        if j < s.len() {
            assert(t[i].package.root == s[i].package.root && t[i].package.rel_path == s[i].package.rel_path);
            assert(t[j].package.root == s[j].package.root && t[j].package.rel_path == s[j].package.rel_path);
        } else {
            assert(at == s.len());
            assert(!p(s[i]));
        }
    }
}

proof fn lemma_rows_keep_keys(db: DbView, pid: i64, g: spec_fn(PackageRowView) -> PackageRowView)
    requires
        keyed(db),
        forall|r: PackageRowView|
            (#[trigger] g(r)).package.root == r.package.root && g(r).package.rel_path == r.package.rel_path,
    ensures
        keyed(DbView { packages: with_row(db.packages, pid, g), ..db }),
{
    let s = db.packages;
    let t = with_row(s, pid, g);
    assert forall|i: int| 0 <= i < s.len() implies (#[trigger] t[i]).package.root == s[i].package.root
        && t[i].package.rel_path == s[i].package.rel_path by {
        assert(g(s[i]).package.root == s[i].package.root);
    }
    assert forall|i: int, j: int| 0 <= i < j < t.len() implies (#[trigger] t[i]).package.root != (
    #[trigger] t[j]).package.root || t[i].package.rel_path != t[j].package.rel_path by {
        assert(s[i].package.root != s[j].package.root || s[i].package.rel_path != s[j].package.rel_path);
    }
}

/// The rows of a filtered list stand in the list, in the same order.
pub(crate) proof fn lemma_filter_places<T>(s: Seq<T>, p: spec_fn(T) -> bool) -> (at: Seq<int>)
    ensures
        at.len() == s.filter(p).len(),
        forall|i: int| 0 <= i < at.len() ==> 0 <= #[trigger] at[i] < s.len() && s[at[i]] == s.filter(p)[i] && p(s[at[i]]),
        forall|i: int, j: int| 0 <= i < j < at.len() ==> (#[trigger] at[i]) < (#[trigger] at[j]),
    decreases s.len(),
{
    if s.len() == 0 {
        lemma_filter_none(s, p);
        assert(s.take(0) =~= s);
        Seq::empty()
    } else {
        let t = s.drop_last();
        let front = lemma_filter_places(t, p);
        lemma_filter_step(s, p, s.len() - 1);
        assert(s.take(s.len() as int) =~= s);
        assert(s.take(s.len() - 1) =~= t);
        if p(s.last()) {
            let at = front.push(s.len() - 1);
            assert forall|i: int| 0 <= i < at.len() implies 0 <= #[trigger] at[i] < s.len() && s[at[i]] == s.filter(p)[i]
                && p(s[at[i]]) by {
                if i < front.len() {
                    assert(at[i] == front[i]);
                    assert(t[front[i]] == t.filter(p)[i]);
                }
            }
            assert forall|i: int, j: int| 0 <= i < j < at.len() implies (#[trigger] at[i]) < (#[trigger] at[j]) by {
                assert(at[i] == front[i]);
                if j < front.len() {
                    assert(at[j] == front[j]);
                }
            }
            at
        } else {
            assert forall|i: int| 0 <= i < front.len() implies 0 <= #[trigger] front[i] < s.len() && s[front[i]]
                == s.filter(p)[i] && p(s[front[i]]) by {
                assert(t[front[i]] == t.filter(p)[i]);
            }
            front
        }
    }
}

proof fn lemma_forgetting_keeps_keys(db: DbView, pid: i64)
    requires
        keyed(db),
    ensures
        keyed(forgotten(db, pid)),
{
    let d = forgotten(db, pid);
    let p = |r: PackageRowView| r.package.id != pid;
    let q = |a: AssetRowView| a.package_id != pid;
    let ps = lemma_filter_places(db.packages, p);
    let qs = lemma_filter_places(db.assets, q);
    assert forall|i: int, j: int| 0 <= i < j < d.packages.len() implies (#[trigger] d.packages[i]).package.root != (
    #[trigger] d.packages[j]).package.root || d.packages[i].package.rel_path != d.packages[j].package.rel_path by {
        assert(ps[i] < ps[j]);
        assert(db.packages[ps[i]] == d.packages[i] && db.packages[ps[j]] == d.packages[j]);
    }
    assert forall|i: int, j: int| 0 <= i < j < d.assets.len() implies (#[trigger] d.assets[i]).package_id != (
    #[trigger] d.assets[j]).package_id || d.assets[i].guid != d.assets[j].guid by {
        assert(qs[i] < qs[j]);
        assert(db.assets[qs[i]] == d.assets[i] && db.assets[qs[j]] == d.assets[j]);
    }
}

proof fn lemma_rescan_keeps_keys(db: DbView, pid: i64, es: Seq<EntryView>, previews: bool, now: u64)
    requires
        keyed(db),
        crate::db::guids_differ(es),
    ensures
        keyed(rescanned(db, pid, es, previews, now)),
{
    let d = rescanned(db, pid, es, previews, now);
    let q = |a: AssetRowView| a.package_id != pid;
    let kept = without_package(db.assets, pid);
    let at = lemma_filter_places(db.assets, q);
    let rows = rows_of(es, pid, next_asset_id(kept));
    let s = db.packages;
    assert(d.packages.len() == s.len());
    assert forall|i: int| 0 <= i < s.len() implies (#[trigger] d.packages[i]).package.root == s[i].package.root
        && d.packages[i].package.rel_path == s[i].package.rel_path by {}
    assert forall|i: int, j: int| 0 <= i < j < d.packages.len() implies (#[trigger] d.packages[i]).package.root != (
    #[trigger] d.packages[j]).package.root || d.packages[i].package.rel_path != d.packages[j].package.rel_path by {
        assert(s[i].package.root != s[j].package.root || s[i].package.rel_path != s[j].package.rel_path);
    }
    assert forall|i: int, j: int| 0 <= i < j < d.assets.len() implies (#[trigger] d.assets[i]).package_id != (
    #[trigger] d.assets[j]).package_id || d.assets[i].guid != d.assets[j].guid by {
        if j < kept.len() {
            assert(at[i] < at[j]);
            assert(db.assets[at[i]] == d.assets[i] && db.assets[at[j]] == d.assets[j]);
        } else if i < kept.len() {
            assert(db.assets[at[i]] == d.assets[i]);
            assert(d.assets[j] == rows[j - kept.len()]);
        } else {
            assert(d.assets[i] == rows[i - kept.len()]);
            assert(d.assets[j] == rows[j - kept.len()]);
            assert(es[i - kept.len()].guid != es[j - kept.len()].guid);
        }
    }
}

pub(crate) proof fn lemma_filter_all<T>(s: Seq<T>, p: spec_fn(T) -> bool)
    requires
        forall|i: int| 0 <= i < s.len() ==> p(#[trigger] s[i]),
    ensures
        s.filter(p) == s,
    decreases s.len(),
{
    if s.len() == 0 {
        lemma_filter_none(s, p);
        assert(s.take(0) =~= s);
    } else {
        let t = s.drop_last();
        assert forall|i: int| 0 <= i < t.len() implies p(#[trigger] t[i]) by {
            assert(t[i] == s[i]);
        }
        lemma_filter_all(t, p);
        lemma_filter_step(s, p, s.len() - 1);
        assert(s.take(s.len() as int) =~= s);
        assert(s.take(s.len() - 1) =~= t);
        assert(t.push(s.last()) =~= s);
    }
}

pub(crate) proof fn lemma_filter_nothing<T>(s: Seq<T>, p: spec_fn(T) -> bool)
    requires
        forall|i: int| 0 <= i < s.len() ==> !p(#[trigger] s[i]),
    ensures
        s.filter(p) == Seq::<T>::empty(),
    decreases s.len(),
{
    if s.len() == 0 {
        lemma_filter_none(s, p);
        assert(s.take(0) =~= s);
        assert(s.filter(p) =~= Seq::<T>::empty());
    } else {
        let t = s.drop_last();
        assert forall|i: int| 0 <= i < t.len() implies !p(#[trigger] t[i]) by {
            assert(t[i] == s[i]);
        }
        lemma_filter_nothing(t, p);
        lemma_filter_step(s, p, s.len() - 1);
        assert(s.take(s.len() as int) =~= s);
        assert(s.take(s.len() - 1) =~= t);
    }
}

/// A scan replaces exactly the assets of its package: afterwards the package has what the scan
/// found, and the assets of all other packages, and the thumbnails, are what they were.
pub proof fn scans_replace_their_package(db: DbView, pid: i64, es: Seq<EntryView>, previews: bool, now: u64)
    ensures
        ({
            let d = rescanned(db, pid, es, previews, now);
            let kept = without_package(db.assets, pid);
            &&& without_package(d.assets, pid) == kept
            &&& d.assets.filter(|a: AssetRowView| a.package_id == pid) == rows_of(es, pid, next_asset_id(kept))
            &&& d.previews == db.previews
            &&& d.packages.len() == db.packages.len()
            &&& forall|i: int|
                0 <= i < db.packages.len() && (#[trigger] db.packages[i]).package.id != pid ==> d.packages[i]
                    == db.packages[i]
        }),
{
    let d = rescanned(db, pid, es, previews, now);
    let q = |a: AssetRowView| a.package_id != pid;
    let p = |a: AssetRowView| a.package_id == pid;
    let kept = without_package(db.assets, pid);
    let rows = rows_of(es, pid, next_asset_id(kept));
    let at = lemma_filter_places(db.assets, q);
    assert forall|i: int| 0 <= i < kept.len() implies q(#[trigger] kept[i]) by {
        assert(q(db.assets[at[i]]));
    }
    lemma_filter_all(kept, q);
    lemma_filter_nothing(kept, p);
    lemma_filter_all(rows, p);
    lemma_filter_nothing(rows, q);
    lemma_filter_sum(kept, rows, q);
    lemma_filter_sum(kept, rows, p);
    assert(kept + Seq::<AssetRowView>::empty() =~= kept);
    assert(Seq::<AssetRowView>::empty() + rows =~= rows);
    assert forall|i: int| 0 <= i < db.packages.len() && (#[trigger] db.packages[i]).package.id != pid implies d.packages[i]
        == db.packages[i] by {}
}

pub(crate) proof fn lemma_filter_sum<T>(a: Seq<T>, b: Seq<T>, p: spec_fn(T) -> bool)
    ensures
        (a + b).filter(p) == a.filter(p) + b.filter(p),
    decreases b.len(),
{
    let s = a + b;
    if b.len() == 0 {
        lemma_filter_none(b, p);
        assert(b.take(0) =~= b);
        assert(s =~= a);
        assert(a.filter(p) + b.filter(p) =~= a.filter(p));
    } else {
        let c = b.drop_last();
        lemma_filter_sum(a, c, p);
        lemma_filter_step(s, p, s.len() - 1);
        lemma_filter_step(b, p, b.len() - 1);
        assert(s.take(s.len() as int) =~= s);
        assert(s.take(s.len() - 1) =~= a + c);
        assert(b.take(b.len() as int) =~= b);
        assert(b.take(b.len() - 1) =~= c);
        assert(s.filter(p) =~= a.filter(p) + b.filter(p));
    }
}

/// A package that is removed takes its assets along, and nothing else.
pub proof fn removal_takes_one_package(db: DbView, pid: i64, r: PackageRowView, a: AssetRowView)
    ensures
        forgotten(db, pid).packages.contains(r) <==> db.packages.contains(r) && r.package.id != pid,
        forgotten(db, pid).assets.contains(a) <==> db.assets.contains(a) && a.package_id != pid,
        forgotten(db, pid).previews == db.previews,
{
    lemma_filter_has(db.packages, |x: PackageRowView| x.package.id != pid, r);
    lemma_filter_has(db.assets, |x: AssetRowView| x.package_id != pid, a);
}

/// A thumbnail that was stored is what is read back, unless a later one of the same guid replaced
/// it; the thumbnails of other guids stay.
pub proof fn previews_read_back(m: Map<Seq<char>, Seq<u8>>, items: Seq<(Seq<char>, Seq<u8>)>, i: int, other: Seq<char>)
    requires
        0 <= i < items.len(),
        forall|j: int| i < j < items.len() ==> (#[trigger] items[j]).0 != items[i].0,
        forall|j: int| 0 <= j < items.len() ==> (#[trigger] items[j]).0 != other,
    ensures
        with_previews(m, items).contains_key(items[i].0),
        with_previews(m, items)[items[i].0] == items[i].1,
        with_previews(m, items).contains_key(other) == m.contains_key(other),
        m.contains_key(other) ==> with_previews(m, items)[other] == m[other],
    decreases items.len(),
{
    let rest = items.drop_last();
    lemma_previews_of_others(m, items, other);
    if i < rest.len() {
        assert forall|j: int| i < j < rest.len() implies (#[trigger] rest[j]).0 != rest[i].0 by {
            assert(items[j].0 != items[i].0);
        }
        assert forall|j: int| 0 <= j < rest.len() implies (#[trigger] rest[j]).0 != other by {
            assert(items[j].0 != other);
        }
        previews_read_back(m, rest, i, other);
        assert(items[items.len() - 1].0 != items[i].0);
    }
}

proof fn lemma_previews_of_others(m: Map<Seq<char>, Seq<u8>>, items: Seq<(Seq<char>, Seq<u8>)>, other: Seq<char>)
    requires
        forall|j: int| 0 <= j < items.len() ==> (#[trigger] items[j]).0 != other,
    ensures
        with_previews(m, items).contains_key(other) == m.contains_key(other),
        m.contains_key(other) ==> with_previews(m, items)[other] == m[other],
    decreases items.len(),
{
    if items.len() > 0 {
        let rest = items.drop_last();
        assert forall|j: int| 0 <= j < rest.len() implies (#[trigger] rest[j]).0 != other by {
            assert(items[j].0 != other);
        }
        lemma_previews_of_others(m, rest, other);
        assert(items[items.len() - 1].0 != other);
    }
}

// ----- runs ----------------------------------------------------------------------------------

/// The index and the run after the first `n` scans, in the order in which they came in.
pub open spec fn scans_taken(db: DbView, run: RunView, scans: Seq<ScanView>, previews: bool, n: nat) -> (
    DbView,
    RunView,
)
    decreases n,
{
    if n == 0 {
        (db, run)
    } else {
        let (d, r) = scans_taken(db, run, scans, previews, (n - 1) as nat);
        let (after, now, _) = scan_taken(d, r, scans[n - 1], previews);
        (after, now)
    }
}

/// The assets of a package.
pub open spec fn assets_in(db: DbView, pid: i64) -> Seq<AssetRowView> {
    db.assets.filter(|a: AssetRowView| a.package_id == pid)
}

proof fn lemma_filter_within<T>(s: Seq<T>, q: spec_fn(T) -> bool, p: spec_fn(T) -> bool)
    requires
        forall|x: T| #[trigger] p(x) ==> q(x),
    ensures
        s.filter(q).filter(p) == s.filter(p),
    decreases s.len(),
{
    if s.len() == 0 {
        lemma_filter_none(s, q);
        lemma_filter_none(s, p);
        assert(s.take(0) =~= s);
        assert(s.filter(q) =~= s);
    } else {
        let t = s.drop_last();
        lemma_filter_within(t, q, p);
        lemma_filter_step(s, q, s.len() - 1);
        lemma_filter_step(s, p, s.len() - 1);
        assert(s.take(s.len() as int) =~= s);
        assert(s.take(s.len() - 1) =~= t);
        let f = s.filter(q);
        if q(s.last()) {
            lemma_filter_step(f, p, f.len() - 1);
            assert(f.take(f.len() as int) =~= f);
            assert(f.take(f.len() - 1) =~= t.filter(q));
        }
    }
}

proof fn lemma_scan_leaves_others(db: DbView, run: RunView, s: ScanView, previews: bool, pid: i64)
    requires
        s.job.pid != pid,
    ensures
        ({
            let d = scan_taken(db, run, s, previews).0;
            &&& assets_in(d, pid) == assets_in(db, pid)
            &&& d.packages.len() == db.packages.len()
            &&& forall|k: int|
                0 <= k < db.packages.len() && (#[trigger] db.packages[k]).package.id == pid ==> d.packages[k]
                    == db.packages[k]
        }),
{
    let other = s.job.pid;
    let p = |a: AssetRowView| a.package_id == pid;
    let q = |a: AssetRowView| a.package_id != other;
    let kept = without_package(db.assets, other);
    let rows = rows_of(s.entries, other, next_asset_id(kept));
    lemma_filter_within(db.assets, q, p);
    lemma_filter_nothing(rows, p);
    lemma_filter_sum(kept, rows, p);
    assert(kept.filter(p) + Seq::<AssetRowView>::empty() =~= kept.filter(p));
}

/// Scans leave the packages alone that they are not of.
pub proof fn scans_leave_others_alone(
    db: DbView,
    run: RunView,
    scans: Seq<ScanView>,
    previews: bool,
    n: nat,
    pid: i64,
)
    requires
        n <= scans.len(),
        forall|j: int| 0 <= j < n ==> (#[trigger] scans[j]).job.pid != pid,
    ensures
        ({
            let d = scans_taken(db, run, scans, previews, n).0;
            &&& assets_in(d, pid) == assets_in(db, pid)
            &&& d.packages.len() == db.packages.len()
            &&& forall|k: int|
                0 <= k < db.packages.len() && (#[trigger] db.packages[k]).package.id == pid ==> d.packages[k]
                    == db.packages[k]
        }),
    decreases n,
{
    if n > 0 {
        scans_leave_others_alone(db, run, scans, previews, (n - 1) as nat, pid);
        let (d, r) = scans_taken(db, run, scans, previews, (n - 1) as nat);
        lemma_scan_leaves_others(d, r, scans[n - 1], previews, pid);
    }
}

proof fn lemma_scans_go_on(db: DbView, run: RunView, scans: Seq<ScanView>, previews: bool, m: nat, n: nat, pid: i64)
    requires
        m <= n <= scans.len(),
        forall|j: int| m <= j < n ==> (#[trigger] scans[j]).job.pid != pid,
    ensures
        ({
            let d = scans_taken(db, run, scans, previews, m).0;
            let e = scans_taken(db, run, scans, previews, n).0;
            &&& assets_in(e, pid) == assets_in(d, pid)
            &&& e.packages.len() == d.packages.len()
            &&& forall|k: int|
                0 <= k < d.packages.len() && (#[trigger] d.packages[k]).package.id == pid ==> e.packages[k]
                    == d.packages[k]
        }),
    decreases n,
{
    if m < n {
        lemma_scans_go_on(db, run, scans, previews, m, (n - 1) as nat, pid);
        let (d, r) = scans_taken(db, run, scans, previews, (n - 1) as nat);
        lemma_scan_leaves_others(d, r, scans[n - 1], previews, pid);
    }
}

/// A package after its scan.
pub open spec fn after_scan(p: PackageView, s: ScanView, previews: bool) -> PackageView {
    match s.error {
        Some(e) => PackageView { status: "error"@, error: Some(e), ..p },
        None => PackageView {
            indexed_at: Some(s.at),
            entry_count: s.entries.len() as i64,
            total_bytes: size_sum(entry_sizes(s.entries)),
            status: "ok"@,
            error: None,
            previews_indexed: previews,
            ..p
        },
    }
}

/// Whether the assets of a package are what its scan found; those it had, where the scan failed.
pub open spec fn holds_scan(had: Seq<AssetRowView>, has: Seq<AssetRowView>, s: ScanView) -> bool {
    match s.error {
        Some(_) => has == had,
        None => exists|id: int| has == #[trigger] rows_of(s.entries, s.job.pid, id),
    }
}

proof fn lemma_mark_is_kept(db: DbView, s: ScanView, previews: bool, e: Seq<char>, k: int)
    requires
        0 <= k < db.packages.len(),
        db.packages[k].package.id == s.job.pid,
        s.error == Some(e),
    ensures
        ({
            let d = marked(db, s.job.pid, "error"@, Some(e));
            &&& d.packages.len() == db.packages.len()
            &&& d.packages[k].package == after_scan(db.packages[k].package, s, previews)
            &&& d.assets == db.assets
        }),
{
}

proof fn lemma_rescan_is_kept(db: DbView, s: ScanView, previews: bool, k: int)
    requires
        0 <= k < db.packages.len(),
        db.packages[k].package.id == s.job.pid,
        s.error is None,
    ensures
        ({
            let d = rescanned(db, s.job.pid, s.entries, previews, s.at);
            &&& d.packages.len() == db.packages.len()
            &&& d.packages[k].package == after_scan(db.packages[k].package, s, previews)
        }),
{
}

proof fn lemma_scan_is_kept(db: DbView, run: RunView, s: ScanView, previews: bool, k: int)
    requires
        0 <= k < db.packages.len(),
        db.packages[k].package.id == s.job.pid,
        scan_taken(db, run, s, previews).2 is Ok,
    ensures
        ({
            let d = scan_taken(db, run, s, previews).0;
            &&& d.packages.len() == db.packages.len()
            &&& d.packages[k].package == after_scan(db.packages[k].package, s, previews)
            &&& holds_scan(assets_in(db, s.job.pid), assets_in(d, s.job.pid), s)
        }),
{
    let d = scan_taken(db, run, s, previews).0;
    let pid = s.job.pid;
    match s.error {
        Some(e) => {
            lemma_mark_is_kept(db, s, previews, e, k);
            assert(d == marked(db, pid, "error"@, Some(e)));
        },
        None => {
            lemma_rescan_is_kept(db, s, previews, k);
            assert(d == rescanned(db, pid, s.entries, previews, s.at));
            scans_replace_their_package(db, pid, s.entries, previews, s.at);
            let id = next_asset_id(without_package(db.assets, pid));
            assert(assets_in(d, pid) == rows_of(s.entries, pid, id));
        },
    }
}

/// A run keeps what every scan found, in whatever order the scans come in: a package that was
/// scanned once has exactly the assets that its scan found, and the next run takes it for scanned;
/// one whose scan failed keeps the assets it had, and says why.
pub proof fn runs_keep_every_scan(
    db: DbView,
    run: RunView,
    scans: Seq<ScanView>,
    previews: bool,
    i: int,
    k: int,
)
    requires
        0 <= i < scans.len(),
        forall|j: int| 0 <= j < scans.len() && j != i ==> (#[trigger] scans[j]).job.pid != scans[i].job.pid,
        0 <= k < db.packages.len(),
        db.packages[k].package.id == scans[i].job.pid,
        ({
            let (before, at) = scans_taken(db, run, scans, previews, i as nat);
            scan_taken(before, at, scans[i], previews).2 is Ok
        }),
    ensures
        ({
            let d = scans_taken(db, run, scans, previews, scans.len()).0;
            let pid = scans[i].job.pid;
            &&& d.packages.len() == db.packages.len()
            &&& d.packages[k].package == after_scan(db.packages[k].package, scans[i], previews)
            &&& holds_scan(assets_in(db, pid), assets_in(d, pid), scans[i])
        }),
{
    let pid = scans[i].job.pid;
    scans_leave_others_alone(db, run, scans, previews, i as nat, pid);
    let (before, at) = scans_taken(db, run, scans, previews, i as nat);
    assert(before.packages[k] == db.packages[k]);
    lemma_scan_is_kept(before, at, scans[i], previews, k);
    let after = scans_taken(db, run, scans, previews, (i + 1) as nat).0;
    assert(after == scan_taken(before, at, scans[i], previews).0);
    assert(after.packages[k].package.id == pid);
    lemma_scans_go_on(db, run, scans, previews, (i + 1) as nat, scans.len(), pid);
}

/// A run counts every scan: at its end as many packages are finished as scans came in, and as many
/// have failed as scans did.
pub proof fn runs_count_every_scan(db: DbView, run: RunView, scans: Seq<ScanView>, previews: bool, n: nat)
    requires
        n <= scans.len(),
        run.done + scans.len() <= run.jobs,
        run.report.errors <= run.done,
    ensures
        ({
            let r = scans_taken(db, run, scans, previews, n).1;
            &&& sound_run(r)
            &&& r.jobs == run.jobs
            &&& r.done == run.done + n
            &&& r.report.errors == run.report.errors + scans.take(n as int).filter(|s: ScanView| s.error is Some).len()
        }),
    decreases n,
{
    let f = |s: ScanView| s.error is Some;
    if n == 0 {
        lemma_filter_none(scans, f);
    } else {
        runs_count_every_scan(db, run, scans, previews, (n - 1) as nat);
        lemma_filter_step(scans, f, n - 1);
    }
}

// ----- references ----------------------------------------------------------------------------

/// Every asset of the index has references as scanning puts them down.
pub open spec fn clean_index(db: DbView) -> bool {
    forall|i: int| 0 <= i < db.assets.len() ==> clean_refs((#[trigger] db.assets[i]).refs)
}

proof fn lemma_filter_keeps_clean(s: Seq<AssetRowView>, p: spec_fn(AssetRowView) -> bool)
    requires
        forall|i: int| 0 <= i < s.len() ==> clean_refs((#[trigger] s[i]).refs),
    ensures
        forall|i: int| 0 <= i < s.filter(p).len() ==> clean_refs((#[trigger] s.filter(p)[i]).refs),
{
    let at = lemma_filter_places(s, p);
    assert forall|i: int| 0 <= i < s.filter(p).len() implies clean_refs((#[trigger] s.filter(p)[i]).refs) by {
        assert(clean_refs(s[at[i]].refs));
    }
}

/// An index that is filled by scans has its references in lower case: the empty index does, taking
/// in what a package holds keeps it so, and so does every other update.
pub proof fn scans_keep_references_in_lower_case(
    db: DbView,
    pid: i64,
    ms: Seq<TarMemberView>,
    opts: ScanOptions,
    previews: bool,
    now: u64,
    f: FoundView,
    status: Seq<char>,
    error: Option<Seq<char>>,
)
    ensures
        db.assets.len() == 0 ==> clean_index(db),
        clean_index(db) ==> refs_in_lower_case(db),
        clean_index(db) ==> clean_index(rescanned(db, pid, entries_of(ms, opts), previews, now)),
        clean_index(db) ==> clean_index(DbView { packages: upserted(db.packages, f), ..db }),
        clean_index(db) ==> clean_index(marked(db, pid, status, error)),
        clean_index(db) ==> clean_index(forgotten(db, pid)),
{
    if clean_index(db) {
        assert forall|id: i64, g: Seq<char>| #[trigger] refs_from(db, id).contains(g) implies lower(g) == g by {
            let p = |a: AssetRowView| a.id == id;
            lemma_first_index_bounds(db.assets, p);
            let k = first_index(db.assets, p);
            let refs = db.assets[k].refs;
            assert(clean_refs(refs));
            finite_sets_are_listed(refs);
            assert(ascending_of(refs).to_set().contains(g));
        }
        let es = entries_of(ms, opts);
        let d = rescanned(db, pid, es, previews, now);
        let kept = without_package(db.assets, pid);
        lemma_filter_keeps_clean(db.assets, |a: AssetRowView| a.package_id != pid);
        assert forall|i: int| 0 <= i < d.assets.len() implies clean_refs((#[trigger] d.assets[i]).refs) by {
            if i < kept.len() {
                assert(d.assets[i] == kept[i]);
            } else {
                scanned_refs_are_guids(ms, opts, i - kept.len());
            }
        }
    }
}

// ----- queries -------------------------------------------------------------------------------

pub(crate) proof fn lemma_selected(db: DbView, p: spec_fn(AssetRowView) -> bool, x: AssetView)
    ensures
        select_where(db, p).contains(x) <==> exists|k: int|
            0 <= k < db.assets.len() && p(#[trigger] db.assets[k]) && asset_of(db, db.assets[k]) == x,
{
    let rows = db.assets.filter(p);
    let f = |a: AssetRowView| asset_of(db, a);
    let all = select_where(db, p);
    let at = lemma_filter_places(db.assets, p);
    if all.contains(x) {
        let i = choose|i: int| 0 <= i < all.len() && all[i] == x;
        assert(all[i] == f(rows[i]));
        assert(p(db.assets[at[i]]) && asset_of(db, db.assets[at[i]]) == x);
    }
    if exists|k: int| 0 <= k < db.assets.len() && p(#[trigger] db.assets[k]) && asset_of(db, db.assets[k]) == x {
        let k = choose|k: int| 0 <= k < db.assets.len() && p(#[trigger] db.assets[k]) && asset_of(db, db.assets[k]) == x;
        lemma_filter_has(db.assets, p, db.assets[k]);
        assert(db.assets.contains(db.assets[k]));
        let i = choose|i: int| 0 <= i < rows.len() && rows[i] == db.assets[k];
        assert(all[i] == f(rows[i]));
    }
}

/// Users are the inverse of references: an asset is among the users of a guid exactly where it is in
/// the index and refers to it.
pub proof fn users_are_those_who_refer(db: DbView, guid: Seq<char>, x: AssetView)
    ensures
        referrers_of(db, guid, None).contains(x) <==> exists|k: int|
            0 <= k < db.assets.len() && (#[trigger] db.assets[k]).refs.contains(lower(guid)) && asset_of(
                db,
                db.assets[k],
            ) == x,
{
    let p = |a: AssetRowView| a.refs.contains(lower(guid));
    orders_are_orders();
    arranging_keeps(select_where(db, p), by_package_name(), x);
    lemma_selected(db, p, x);
    if referrers_of(db, guid, None).contains(x) {
        let k = choose|k: int| 0 <= k < db.assets.len() && p(#[trigger] db.assets[k]) && asset_of(db, db.assets[k]) == x;
        assert(db.assets[k].refs.contains(lower(guid)));
    }
    if exists|k: int|
        0 <= k < db.assets.len() && (#[trigger] db.assets[k]).refs.contains(lower(guid)) && asset_of(db, db.assets[k])
            == x {
        let k = choose|k: int|
            0 <= k < db.assets.len() && (#[trigger] db.assets[k]).refs.contains(lower(guid)) && asset_of(
                db,
                db.assets[k],
            ) == x;
        assert(p(db.assets[k]));
    }
}

/// Whether an asset is in the index and passes the filters of a query.
pub open spec fn is_hit(db: DbView, q: SearchQueryView, x: AssetView) -> bool {
    exists|k: int| 0 <= k < db.assets.len() && passes(db, q, #[trigger] db.assets[k]) && asset_of(db, db.assets[k]) == x
}

proof fn lemma_page<T>(s: Seq<T>, limit: nat, offset: nat, i: int)
    requires
        0 <= i < page(s, limit, offset).len(),
    ensures
        s.contains(page(s, limit, offset)[i]),
        page(s, limit, offset).len() <= limit,
{
    let from = if offset < s.len() {
        offset as int
    } else {
        s.len() as int
    };
    assert(s[from + i] == page(s, limit, offset)[i]);
}

proof fn lemma_ranked(db: DbView, q: SearchQueryView, ranked: Seq<i64>, x: AssetView)
    requires
        ranked_hits(db, q, ranked).contains(x),
    ensures
        is_hit(db, q, x),
    decreases ranked.len(),
{
    let all = ranked_hits(db, q, ranked);
    let i = choose|i: int| 0 <= i < all.len() && all[i] == x;
    if ranked.len() > 0 {
        let front = ranked_hits(db, q, ranked.drop_last());
        if i < front.len() {
            assert(front[i] == x);
            lemma_ranked(db, q, ranked.drop_last(), x);
        } else {
            let id = ranked.last();
            let p = |a: AssetRowView| a.id == id;
            lemma_first_index_bounds(db.assets, p);
            assert(passes(db, q, db.assets[first_index(db.assets, p)]));
        }
    }
}

/// Every hit of a search is in the index and passes its filters, and there are no more than asked
/// for.
pub proof fn hits_pass_the_filters(db: DbView, q: SearchQueryView, ranked: Seq<i64>, i: int)
    requires
        0 <= i < search_hits(db, q, ranked).len(),
    ensures
        is_hit(db, q, search_hits(db, q, ranked)[i]),
        search_hits(db, q, ranked).len() <= search_limit(q),
{
    let x = search_hits(db, q, ranked)[i];
    orders_are_orders();
    let p = |a: AssetRowView| passes(db, q, a);
    let ws = words(trim(q.query));
    let w = |a: AssetRowView| path_holds(a.path, ws) && passes(db, q, a);
    if trim(q.query).len() == 0 {
        let s = arranged(select_where(db, p), by_package_name());
        lemma_page(s, search_limit(q), q.offset as nat, i);
        arranging_keeps(select_where(db, p), by_package_name(), x);
        lemma_selected(db, p, x);
        let k = choose|k: int| 0 <= k < db.assets.len() && p(#[trigger] db.assets[k]) && asset_of(db, db.assets[k]) == x;
        assert(passes(db, q, db.assets[k]));
    } else {
        let hits = page(ranked_hits(db, q, ranked), search_limit(q), q.offset as nat);
        if search_hits(db, q, ranked) == hits && hits.len() > 0 {
            lemma_page(ranked_hits(db, q, ranked), search_limit(q), q.offset as nat, i);
            lemma_ranked(db, q, ranked, x);
        } else {
            let s = arranged(select_where(db, w), by_length_path());
            assert(path_hits(db, q) == page(s, search_limit(q), q.offset as nat));
            lemma_page(s, search_limit(q), q.offset as nat, i);
            arranging_keeps(select_where(db, w), by_length_path(), x);
            lemma_selected(db, w, x);
            let k = choose|k: int| 0 <= k < db.assets.len() && w(#[trigger] db.assets[k]) && asset_of(db, db.assets[k]) == x;
            assert(passes(db, q, db.assets[k]));
        }
    }
}

} // verus!
