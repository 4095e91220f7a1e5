//! The asset index: packages, their assets, the references between them and the preview
//! thumbnails, with the queries and updates on them.

use vstd::prelude::*;

use crate::kinds::{ext_and_kind, name_of};
use crate::model::{
    clone_text, clone_texts, Asset, AssetView, KindCount, KindCountView, Package, PackageView, SearchQuery,
    SearchQueryView, Stats, StatsView,
};
use crate::number::{all_digits, is_all_digits, number_of, parse_u64};
use crate::outside::{json_list, json_list_of, json_list_text, json_list_text_of};
use crate::pattern::{
    at_most_is_total, at_most_is_transitive, folded_at_most, is_like, like, text_at_most,
    text_folded_at_most,
};
use crate::seqs::{
    find, first_index, lemma_filter_none, lemma_filter_step, lemma_first_index, lemma_first_index_bounds,
    limited, page, take_limited, take_page,
};
use crate::sorted::{arranged, at_most, orders, sort_by, TextMap, TextSet};
use crate::text::{
    cat, cat3, cut_front, eq_ignore_case, filled, glue, join, lower, pieces, same_folded, same_text, split,
    split_words, to_lower, trim, trim_back, trim_front, trimmed, words, Sep,
};
use crate::tokens::{fts_terms, fts_text, token_text, tokens_for};
use crate::unitypackage::{main_class_of, Entry, EntryView, PackageHeader, PackageHeaderView};

verus! {

/// The version of the stored schema.
pub const SCHEMA_VERSION: i64 = 3;

/// Why the index refuses an update or a query.
#[derive(Debug, Clone, Copy, PartialEq, Eq, Structural)]
pub enum StoreError {
    /// Two packages of one root would have the same path.
    DuplicatePath,
    /// Two assets of one package would have the same guid.
    DuplicateGuid,
    /// An asset would belong to no package.
    NoPackage,
    /// Rows are not in the order of their ids.
    OutOfOrder,
    /// A sum is too large.
    Overflow,
}

/// A package as the index stores it.
#[derive(Debug)]
pub struct PackageRow {
    pub package: Package,
    /// The store header of the package, as JSON.
    pub header: Option<String>,
}

/// What a [`PackageRow`] holds.
#[verifier::ext_equal]
pub struct PackageRowView {
    pub package: PackageView,
    pub header: Option<Seq<char>>,
}

impl View for PackageRow {
    type V = PackageRowView;

    open spec fn view(&self) -> PackageRowView {
        PackageRowView {
            package: self.package.deep_view(),
            header: self.header.deep_view(),
        }
    }
}

impl DeepView for PackageRow {
    type V = PackageRowView;

    open spec fn deep_view(&self) -> PackageRowView {
        self.view()
    }
}

impl Clone for PackageRow {
    fn clone(&self) -> (r: Self)
        ensures
            r@ == self@,
    {
        let r = PackageRow {
            package: self.package.clone(),
            header: self.header.clone(),
        };
        assert(r.header.deep_view() == self.header.deep_view());
        r
    }
}

/// An asset as the index stores it.
#[derive(Debug)]
pub struct AssetRow {
    pub id: i64,
    pub package_id: i64,
    pub guid: String,
    pub path: String,
    pub name: String,
    pub ext: String,
    pub kind: String,
    pub importer: Option<String>,
    pub main_class: Option<String>,
    pub size: i64,
    pub is_folder: bool,
    pub has_preview: bool,
    pub is_text: bool,
    pub scan_truncated: bool,
    pub labels: Vec<String>,
    /// The guids it refers to.
    pub refs: TextSet,
}

/// What a [`AssetRow`] holds.
#[verifier::ext_equal]
pub struct AssetRowView {
    pub id: i64,
    pub package_id: i64,
    pub guid: Seq<char>,
    pub path: Seq<char>,
    pub name: Seq<char>,
    pub ext: Seq<char>,
    pub kind: Seq<char>,
    pub importer: Option<Seq<char>>,
    pub main_class: Option<Seq<char>>,
    pub size: i64,
    pub is_folder: bool,
    pub has_preview: bool,
    pub is_text: bool,
    pub scan_truncated: bool,
    pub labels: Seq<Seq<char>>,
    pub refs: Set<Seq<char>>,
}

impl View for AssetRow {
    type V = AssetRowView;

    open spec fn view(&self) -> AssetRowView {
        AssetRowView {
            id: self.id,
            package_id: self.package_id,
            guid: self.guid@,
            path: self.path@,
            name: self.name@,
            ext: self.ext@,
            kind: self.kind@,
            importer: self.importer.deep_view(),
            main_class: self.main_class.deep_view(),
            size: self.size,
            is_folder: self.is_folder,
            has_preview: self.has_preview,
            is_text: self.is_text,
            scan_truncated: self.scan_truncated,
            labels: self.labels.deep_view(),
            refs: self.refs.deep_view(),
        }
    }
}

impl DeepView for AssetRow {
    type V = AssetRowView;

    open spec fn deep_view(&self) -> AssetRowView {
        self.view()
    }
}

impl Clone for AssetRow {
    fn clone(&self) -> (r: Self)
        ensures
            r@ == self@,
    {
        let r = AssetRow {
            id: self.id,
            package_id: self.package_id,
            guid: self.guid.clone(),
            path: self.path.clone(),
            name: self.name.clone(),
            ext: self.ext.clone(),
            kind: self.kind.clone(),
            importer: self.importer.clone(),
            main_class: self.main_class.clone(),
            size: self.size,
            is_folder: self.is_folder,
            has_preview: self.has_preview,
            is_text: self.is_text,
            scan_truncated: self.scan_truncated,
            labels: self.labels.clone(),
            refs: self.refs.clone(),
        };
        assert(r.importer.deep_view() == self.importer.deep_view());
        assert(r.main_class.deep_view() == self.main_class.deep_view());
        assert(r.labels.deep_view() =~= self.labels.deep_view());
        r
    }
}


/// What a [`Database`] holds.
#[verifier::ext_equal]
pub struct DbView {
    pub packages: Seq<PackageRowView>,
    pub assets: Seq<AssetRowView>,
    pub previews: Map<Seq<char>, Seq<u8>>,
    pub has_fts: bool,
    pub path: Seq<char>,
}

/// The package ids are in order, each once.
pub open spec fn packages_in_order(s: Seq<PackageRowView>) -> bool {
    forall|i: int, j: int| 0 <= i < j < s.len() ==> (#[trigger] s[i]).package.id < (#[trigger] s[j]).package.id
}

/// The asset ids are in order, each once.
pub open spec fn assets_in_order(s: Seq<AssetRowView>) -> bool {
    forall|i: int, j: int| 0 <= i < j < s.len() ==> (#[trigger] s[i]).id < (#[trigger] s[j]).id
}

pub open spec fn has_package(s: Seq<PackageRowView>, pid: i64) -> bool {
    exists|i: int| 0 <= i < s.len() && (#[trigger] s[i]).package.id == pid
}

/// Rows are in the order of their ids, and every asset belongs to a package.
pub open spec fn valid(db: DbView) -> bool {
    &&& packages_in_order(db.packages)
    &&& assets_in_order(db.assets)
    &&& forall|i: int| 0 <= i < db.assets.len() ==> has_package(db.packages, (#[trigger] db.assets[i]).package_id)
}

/// No two packages share root and path; no two assets share package and guid.
pub open spec fn keyed(db: DbView) -> bool {
    &&& forall|i: int, j: int|
        0 <= i < j < db.packages.len() ==> (#[trigger] db.packages[i]).package.root != (
        #[trigger] db.packages[j]).package.root || db.packages[i].package.rel_path
            != db.packages[j].package.rel_path
    &&& forall|i: int, j: int|
        0 <= i < j < db.assets.len() ==> (#[trigger] db.assets[i]).package_id != (
        #[trigger] db.assets[j]).package_id || db.assets[i].guid != db.assets[j].guid
}

/// The asset index.
#[derive(Debug)]
pub struct Database {
    packages: Vec<PackageRow>,
    assets: Vec<AssetRow>,
    previews: TextMap<Vec<u8>>,
    has_fts: bool,
    path: String,
}

impl View for Database {
    type V = DbView;

    closed spec fn view(&self) -> DbView {
        DbView {
            packages: self.packages.deep_view(),
            assets: self.assets.deep_view(),
            previews: self.previews.deep_view(),
            has_fts: self.has_fts,
            path: self.path@,
        }
    }
}

/// The row of a package.
pub open spec fn package_row(s: Seq<PackageRowView>, pid: i64) -> Option<PackageRowView> {
    find(s, |r: PackageRowView| r.package.id == pid)
}

/// The package with an id.
pub open spec fn package_with_id(db: DbView, pid: i64) -> Option<PackageView> {
    match package_row(db.packages, pid) {
        Some(r) => Some(r.package),
        None => None,
    }
}

/// An asset row with what it takes over from its package.
pub open spec fn joined(a: AssetRowView, p: PackageView) -> AssetView {
    AssetView {
        id: a.id,
        package_id: a.package_id,
        guid: a.guid,
        path: a.path,
        name: a.name,
        ext: a.ext,
        kind: a.kind,
        importer: a.importer,
        main_class: a.main_class,
        size: a.size,
        is_folder: a.is_folder,
        has_preview: a.has_preview,
        is_text: a.is_text,
        scan_truncated: a.scan_truncated,
        labels: a.labels,
        package: p.name,
        publisher: p.publisher,
        package_rel_path: p.rel_path,
    }
}

/// An asset of the index.
pub open spec fn asset_of(db: DbView, a: AssetRowView) -> AssetView {
    joined(a, package_with_id(db, a.package_id)->0)
}

/// The assets whose rows have a property, in the order of their ids.
pub open spec fn select_where(db: DbView, p: spec_fn(AssetRowView) -> bool) -> Seq<AssetView> {
    db.assets.filter(p).map_values(|a: AssetRowView| asset_of(db, a))
}

/// The id that the next package gets.
pub open spec fn next_package_id(s: Seq<PackageRowView>) -> int {
    if s.len() == 0 {
        1
    } else {
        s.last().package.id + 1
    }
}

/// The id that the next asset gets.
pub open spec fn next_asset_id(s: Seq<AssetRowView>) -> int {
    if s.len() == 0 {
        1
    } else {
        s.last().id + 1
    }
}

/// Where the package with a root and a path stands; the number of packages where there is none.
pub open spec fn path_index(s: Seq<PackageRowView>, root: Seq<char>, rel_path: Seq<char>) -> int {
    first_index(s, |r: PackageRowView| r.package.root == root && r.package.rel_path == rel_path)
}

/// The first where it is there, else the second.
pub open spec fn coalesce<T>(a: Option<T>, b: Option<T>) -> Option<T> {
    match a {
        Some(x) => Some(x),
        None => b,
    }
}

/// What a file of the library says of its package.
#[verifier::ext_equal]
pub struct FoundView {
    pub root: Seq<char>,
    pub rel_path: Seq<char>,
    pub name: Seq<char>,
    pub publisher: Seq<char>,
    pub category: Seq<char>,
    pub size: i64,
    pub mtime: u64,
    pub header: Option<PackageHeaderView>,
}

/// The publisher: the store's label where there is one.
pub open spec fn publisher_label(f: FoundView) -> Seq<char> {
    match f.header {
        Some(h) => match h.publisher {
            Some(s) => if s.len() > 0 {
                s
            } else {
                f.publisher
            },
            None => f.publisher,
        },
        None => f.publisher,
    }
}

/// The row of a package that is new to the index.
pub open spec fn new_row(f: FoundView, id: i64) -> PackageRowView {
    refreshed(
        PackageRowView {
            package: PackageView {
                id,
                root: f.root,
                rel_path: f.rel_path,
                name: Seq::empty(),
                publisher: Seq::empty(),
                category: Seq::empty(),
                size: 0,
                mtime: 0,
                indexed_at: None,
                entry_count: 0,
                total_bytes: 0,
                status: "ok"@,
                error: None,
                title: None,
                version: None,
                unity_version: None,
                pubdate: None,
                store_id: None,
                category_label: None,
                description: None,
                previews_indexed: false,
                cached: false,
            },
            header: None,
        },
        f,
    )
}

/// A row with what the file says now; what the store header does not say stays.
pub open spec fn refreshed(r: PackageRowView, f: FoundView) -> PackageRowView {
    let p = PackageView {
        name: f.name,
        publisher: publisher_label(f),
        category: f.category,
        size: f.size,
        mtime: f.mtime,
        ..r.package
    };
    match f.header {
        Some(h) => PackageRowView {
            package: PackageView {
                title: coalesce(h.title, p.title),
                version: coalesce(h.version, p.version),
                unity_version: coalesce(h.unity_version, p.unity_version),
                pubdate: coalesce(h.pubdate, p.pubdate),
                store_id: coalesce(h.store_id, p.store_id),
                category_label: coalesce(h.category, p.category_label),
                description: coalesce(h.description, p.description),
                ..p
            },
            header: Some(h.json),
        },
        None => PackageRowView { package: p, header: r.header },
    }
}

/// The packages after one was found.
pub open spec fn upserted(s: Seq<PackageRowView>, f: FoundView) -> Seq<PackageRowView> {
    let i = path_index(s, f.root, f.rel_path);
    if i < s.len() {
        s.update(i, refreshed(s[i], f))
    } else {
        s.push(new_row(f, next_package_id(s) as i64))
    }
}

/// A change to the row of one package.
pub open spec fn with_row(s: Seq<PackageRowView>, pid: i64, f: spec_fn(PackageRowView) -> PackageRowView) -> Seq<
    PackageRowView,
> {
    s.map_values(
        |r: PackageRowView|
            if r.package.id == pid {
                f(r)
            } else {
                r
            },
    )
}

/// The assets without those of a package.
pub open spec fn without_package(s: Seq<AssetRowView>, pid: i64) -> Seq<AssetRowView> {
    s.filter(|a: AssetRowView| a.package_id != pid)
}

/// The row of a scanned entry.
pub open spec fn row_of(e: EntryView, pid: i64, id: i64) -> AssetRowView {
    AssetRowView {
        id,
        package_id: pid,
        guid: e.guid,
        path: e.path,
        name: name_of(e.path),
        ext: ext_and_kind(e.path, e.is_folder).0,
        kind: ext_and_kind(e.path, e.is_folder).1,
        importer: e.importer,
        main_class: main_class_of(e),
        size: e.asset_size as i64,
        is_folder: e.is_folder,
        has_preview: e.has_preview,
        is_text: e.is_text,
        scan_truncated: e.scan_truncated,
        labels: e.labels,
        refs: e.refs,
    }
}

/// The rows of scanned entries, numbered from `id` on.
pub open spec fn rows_of(es: Seq<EntryView>, pid: i64, id: int) -> Seq<AssetRowView> {
    Seq::new(es.len(), |i: int| row_of(es[i], pid, (id + i) as i64))
}

/// No guid occurs twice.
pub open spec fn guids_differ(es: Seq<EntryView>) -> bool {
    forall|i: int, j: int| 0 <= i < j < es.len() ==> (#[trigger] es[i]).guid != (#[trigger] es[j]).guid
}

/// The sizes added up, wrapping around where they are too large together.
pub open spec fn size_sum(s: Seq<i64>) -> i64
    decreases s.len(),
{
    if s.len() == 0 {
        0
    } else {
        size_sum(s.drop_last()).wrapping_add(s.last())
    }
}

pub open spec fn entry_sizes(es: Seq<EntryView>) -> Seq<i64> {
    Seq::new(es.len(), |i: int| es[i].asset_size as i64)
}

/// The index with another status of a package.
pub open spec fn marked(db: DbView, pid: i64, status: Seq<char>, error: Option<Seq<char>>) -> DbView {
    DbView {
        packages: with_row(
            db.packages,
            pid,
            |r: PackageRowView|
                PackageRowView { package: PackageView { status, error, ..r.package }, header: r.header },
        ),
        ..db
    }
}

/// The index without a package and its assets.
pub open spec fn forgotten(db: DbView, pid: i64) -> DbView {
    DbView {
        packages: db.packages.filter(|r: PackageRowView| r.package.id != pid),
        assets: without_package(db.assets, pid),
        ..db
    }
}

/// The index after a package was scanned.
pub open spec fn rescanned(db: DbView, pid: i64, es: Seq<EntryView>, previews: bool, now: u64) -> DbView {
    let kept = without_package(db.assets, pid);
    DbView {
        packages: with_row(
            db.packages,
            pid,
            |r: PackageRowView|
                PackageRowView {
                    package: PackageView {
                        indexed_at: Some(now),
                        entry_count: es.len() as i64,
                        total_bytes: size_sum(entry_sizes(es)),
                        status: "ok"@,
                        error: None,
                        previews_indexed: previews,
                        ..r.package
                    },
                    header: r.header,
                },
        ),
        assets: kept + rows_of(es, pid, next_asset_id(kept)),
        ..db
    }
}

// ----- facts about rows ----------------------------------------------------------------------

proof fn lemma_package_there(s: Seq<PackageRowView>, pid: i64)
    ensures
        has_package(s, pid) <==> package_row(s, pid) is Some,
        package_row(s, pid) matches Some(r) ==> r.package.id == pid,
{
    let p = |r: PackageRowView| r.package.id == pid;
    lemma_first_index_bounds(s, p);
    if has_package(s, pid) {
        let i = choose|i: int| 0 <= i < s.len() && (#[trigger] s[i]).package.id == pid;
        if first_index(s, p) == s.len() {
            assert(!p(s[i]));
        }
    }
}

proof fn lemma_with_row_ids(s: Seq<PackageRowView>, pid: i64, f: spec_fn(PackageRowView) -> PackageRowView)
    requires
        packages_in_order(s),
        forall|r: PackageRowView| (#[trigger] f(r)).package.id == r.package.id,
    ensures
        packages_in_order(with_row(s, pid, f)),
        forall|x: i64| #[trigger] has_package(with_row(s, pid, f), x) <==> has_package(s, x),
{
    let t = with_row(s, pid, f);
    assert forall|i: int| 0 <= i < s.len() implies (#[trigger] t[i]).package.id == s[i].package.id by {
        assert(f(s[i]).package.id == s[i].package.id);
    }
    assert forall|i: int, j: int| 0 <= i < j < t.len() implies (#[trigger] t[i]).package.id < (
    #[trigger] t[j]).package.id by {
        assert(s[i].package.id < s[j].package.id);
    }
    assert forall|x: i64| #[trigger] has_package(t, x) <==> has_package(s, x) by {
        if has_package(t, x) {
            let i = choose|i: int| 0 <= i < t.len() && (#[trigger] t[i]).package.id == x;
            assert(s[i].package.id == x);
        }
        if has_package(s, x) {
            let i = choose|i: int| 0 <= i < s.len() && (#[trigger] s[i]).package.id == x;
            assert(t[i].package.id == x);
        }
    }
}

proof fn lemma_filter_in_order(s: Seq<AssetRowView>, p: spec_fn(AssetRowView) -> bool)
    requires
        assets_in_order(s),
    ensures
        assets_in_order(s.filter(p)),
        forall|i: int|
            0 <= i < s.filter(p).len() ==> s.contains(#[trigger] s.filter(p)[i]) && p(s.filter(p)[i]),
        s.len() > 0 && s.filter(p).len() > 0 ==> s.filter(p).last().id <= s.last().id,
    decreases s.len(),
{
    reveal(Seq::filter);
    let f = s.filter(p);
    if s.len() == 0 {
        assert(f =~= Seq::<AssetRowView>::empty());
    } else {
        let t = s.drop_last();
        assert(assets_in_order(t)) by {
            assert forall|i: int, j: int| 0 <= i < j < t.len() implies (#[trigger] t[i]).id < (
            #[trigger] t[j]).id by {
                assert(s[i].id < s[j].id);
            }
        }
        lemma_filter_in_order(t, p);
        let g = t.filter(p);
        assert forall|i: int| 0 <= i < f.len() implies s.contains(#[trigger] f[i]) && p(f[i]) by {
            if i < g.len() {
                assert(t.contains(g[i]));
                let k = choose|k: int| 0 <= k < t.len() && t[k] == g[i];
                assert(s[k] == f[i]);
            } else {
                assert(s[s.len() - 1] == f[i]);
            }
        }
        assert forall|i: int, j: int| 0 <= i < j < f.len() implies (#[trigger] f[i]).id < (
        #[trigger] f[j]).id by {
            if j < g.len() {
                assert(g[i].id < g[j].id);
            } else {
                assert(t.contains(g[i]));
                let k = choose|k: int| 0 <= k < t.len() && t[k] == g[i];
                assert(s[k].id < s[s.len() - 1].id);
            }
        }
        if f.len() > 0 {
            let k = choose|k: int| 0 <= k < s.len() && s[k] == f.last();
            assert(s.contains(f[f.len() - 1]));
            if k < s.len() - 1 {
                assert(s[k].id < s[s.len() - 1].id);
            }
        }
    }
}

/// Some asset belongs to no package.
pub open spec fn orphaned(packages: Seq<PackageRowView>, assets: Seq<AssetRowView>) -> bool {
    exists|i: int| 0 <= i < assets.len() && !has_package(packages, (#[trigger] assets[i]).package_id)
}

// ----- the index -----------------------------------------------------------------------------

impl Database {
    #[verifier::type_invariant]
    closed spec fn wf(&self) -> bool {
        valid(self@)
    }

    /// An index without packages.
    pub fn new(path: String, has_fts: bool) -> (r: Database)
        ensures
            valid(r@),
            r@ == (DbView {
                packages: Seq::empty(),
                assets: Seq::empty(),
                previews: Map::empty(),
                has_fts,
                path: path@,
            }),
    {
        let packages: Vec<PackageRow> = Vec::new();
        let assets: Vec<AssetRow> = Vec::new();
        let previews: TextMap<Vec<u8>> = TextMap::new();
        assert(packages.deep_view() =~= Seq::<PackageRowView>::empty());
        assert(assets.deep_view() =~= Seq::<AssetRowView>::empty());
        assert(previews.deep_view() =~= Map::<Seq<char>, Seq<u8>>::empty());
        let r = Database { packages, assets, previews, has_fts, path };
        r
    }

    /// The index with the stored rows, given in the order of their ids.
    pub fn load(
        packages: Vec<PackageRow>,
        assets: Vec<AssetRow>,
        previews: TextMap<Vec<u8>>,
        has_fts: bool,
        path: String,
    ) -> (r: Result<Database, StoreError>)
        ensures
            match r {
                Ok(d) => valid(d@) && d@ == (DbView {
                    packages: packages.deep_view(),
                    assets: assets.deep_view(),
                    previews: previews.deep_view(),
                    has_fts,
                    path: path@,
                }),
                Err(StoreError::OutOfOrder) => !packages_in_order(packages.deep_view())
                    || !assets_in_order(assets.deep_view()),
                Err(StoreError::NoPackage) => orphaned(packages.deep_view(), assets.deep_view()),
                Err(_) => false,
            },
    {
        let ghost ps = packages.deep_view();
        let ghost az = assets.deep_view();
        let mut i: usize = 1;
        while i < packages.len()
            invariant
                1 <= i,
                ps == packages.deep_view(),
                i <= packages@.len() || i == 1,
                forall|a: int, b: int|
                    0 <= a < b < i && b < ps.len() ==> (#[trigger] ps[a]).package.id < (
                    #[trigger] ps[b]).package.id,
            decreases packages@.len() - i,
        {
            assert(ps[i as int].package.id == packages@[i as int].package.id);
            assert(ps[i - 1].package.id == packages@[i - 1].package.id);
            if packages[i - 1].package.id >= packages[i].package.id {
                assert(!packages_in_order(ps));
                return Err(StoreError::OutOfOrder);
            }
            i += 1;
        }
        assert(packages_in_order(ps));
        let mut i: usize = 1;
        while i < assets.len()
            invariant
                1 <= i,
                az == assets.deep_view(),
                i <= assets@.len() || i == 1,
                forall|a: int, b: int|
                    0 <= a < b < i && b < az.len() ==> (#[trigger] az[a]).id < (#[trigger] az[b]).id,
            decreases assets@.len() - i,
        {
            assert(az[i as int].id == assets@[i as int].id);
            assert(az[i - 1].id == assets@[i - 1].id);
            if assets[i - 1].id >= assets[i].id {
                assert(!assets_in_order(az));
                return Err(StoreError::OutOfOrder);
            }
            i += 1;
        }
        assert(assets_in_order(az));
        let mut i: usize = 0;
        while i < assets.len()
            invariant
                i <= assets@.len(),
                ps == packages.deep_view(),
                az == assets.deep_view(),
                forall|k: int| 0 <= k < i ==> has_package(ps, (#[trigger] az[k]).package_id),
            decreases assets@.len() - i,
        {
            assert(az[i as int].package_id == assets@[i as int].package_id);
            proof {
                lemma_package_there(ps, assets@[i as int].package_id);
            }
            if find_row(&packages, assets[i].package_id).is_none() {
                assert(!has_package(ps, az[i as int].package_id));
                assert(orphaned(ps, az));
                return Err(StoreError::NoPackage);
            }
            i += 1;
        }
        Ok(Database { packages, assets, previews, has_fts, path })
    }

    /// The rows of the packages.
    pub fn package_rows(&self) -> (r: &Vec<PackageRow>)
        ensures
            r.deep_view() == self@.packages,
    {
        &self.packages
    }

    /// The rows of the assets.
    pub fn asset_rows(&self) -> (r: &Vec<AssetRow>)
        ensures
            r.deep_view() == self@.assets,
    {
        &self.assets
    }

    /// Packages indexed before roots were recorded (root = '') are assigned to `primary`.
    pub fn assign_default_root(&mut self, primary: &str) -> (r: Result<usize, StoreError>)
        ensures
            valid(final(self)@),
            final(self)@ == (if r is Ok {
                DbView { packages: rooted(old(self)@.packages, primary@), ..old(self)@ }
            } else {
                old(self)@
            }),
            match r {
                Ok(n) => !roots_clash(old(self)@.packages, primary@) && n == (if primary@.len() == 0 {
                    0
                } else {
                    old(self)@.packages.filter(|p: PackageRowView| p.package.root.len() == 0).len()
                }),
                Err(e) => e == StoreError::DuplicatePath && roots_clash(old(self)@.packages, primary@),
            },
    {
        if primary.is_empty() {
            proof {
                let t = rooted(self@.packages, primary@);
                assert forall|k: int| 0 <= k < t.len() implies t[k] == self@.packages[k] by {
                    let r = self@.packages[k];
                    if r.package.root.len() == 0 {
                        assert(r.package.root =~= primary@);
                    }
                }
                assert(t =~= self@.packages);
                use_type_invariant(&*self);
            }
            return Ok(0);
        }
        let ghost ps = self.packages.deep_view();
        let ghost bare = |p: PackageRowView| p.package.root.len() == 0;
        proof {
            use_type_invariant(&*self);
            lemma_filter_none(ps, bare);
        }
        let mut n: usize = 0;
        let mut i: usize = 0;
        while i < self.packages.len()
            invariant
                i <= self.packages@.len(),
                ps == self.packages.deep_view(),
                bare == (|p: PackageRowView| p.package.root.len() == 0),
                n == ps.take(i as int).filter(bare).len(),
                n <= i,
                primary@.len() > 0,
                forall|a: int, b: int|
                    0 <= a < i && 0 <= b < ps.len() ==> !clashes(#[trigger] ps[a], #[trigger] ps[b], primary@),
                self@ == old(self)@,
            decreases self.packages@.len() - i,
        {
            proof {
                lemma_filter_step(ps, bare, i as int);
                assert(ps[i as int] == self.packages@[i as int]@);
            }
            if self.packages[i].package.root.as_str().is_empty() {
                let mut k: usize = 0;
                while k < self.packages.len()
                    invariant
                        k <= self.packages@.len(),
                        i < self.packages@.len(),
                        ps == self.packages.deep_view(),
                        primary@.len() > 0,
                        forall|b: int| 0 <= b < k ==> !clashes(ps[i as int], #[trigger] ps[b], primary@),
                        self@ == old(self)@,
                    decreases self.packages@.len() - k,
                {
                    assert(ps[k as int] == self.packages@[k as int]@);
                    assert(ps[i as int] == self.packages@[i as int]@);
                    if same_text(self.packages[k].package.root.as_str(), primary) && same_text(
                        self.packages[k].package.rel_path.as_str(),
                        self.packages[i].package.rel_path.as_str(),
                    ) && self.packages[i].package.root.as_str().is_empty() {
                        assert(clashes(ps[i as int], ps[k as int], primary@));
                        proof {
                            use_type_invariant(&*self);
                        }
                        return Err(StoreError::DuplicatePath);
                    }
                    k += 1;
                }
                n += 1;
            }
            i += 1;
        }
        assert(ps.take(ps.len() as int) =~= ps);
        let mut all = Database::new(String::new(), false);
        std::mem::swap(&mut all, self);
        proof {
            use_type_invariant(&all);
        }
        let Database { packages, assets, previews, has_fts, path } = all;
        let mut packages = packages;
        let mut i: usize = 0;
        while i < packages.len()
            invariant
                i <= packages@.len(),
                packages@.len() == ps.len(),
                packages.deep_view().len() == ps.len(),
                forall|k: int|
                    0 <= k < i ==> #[trigger] packages.deep_view()[k] == rooted(ps, primary@)[k],
                forall|k: int| i <= k < ps.len() ==> #[trigger] packages.deep_view()[k] == ps[k],
                primary@.len() > 0,
            decreases packages@.len() - i,
        {
            let ghost p0 = packages.deep_view();
            assert(p0[i as int] == packages@[i as int]@);
            if packages[i].package.root.as_str().is_empty() {
                let mut row = packages[i].clone();
                row.package.root = primary.to_string();
                let ghost rv = row@;
                packages.set(i, row);
                assert(rv == rooted_row(ps[i as int], primary@));
                assert(packages.deep_view() =~= p0.update(i as int, rv));
            }
            i += 1;
        }
        proof {
            assert(packages.deep_view() =~= rooted(ps, primary@));
            lemma_rooted_ids(ps, primary@);
        }
        *self = Database { packages, assets, previews, has_fts, path };
        Ok(n)
    }
}

/// A package row with the default root, where it has none.
pub open spec fn rooted_row(r: PackageRowView, primary: Seq<char>) -> PackageRowView {
    if r.package.root.len() == 0 {
        PackageRowView { package: PackageView { root: primary, ..r.package }, header: r.header }
    } else {
        r
    }
}

/// The packages with the default root where they have none.
pub open spec fn rooted(s: Seq<PackageRowView>, primary: Seq<char>) -> Seq<PackageRowView> {
    s.map_values(|r: PackageRowView| rooted_row(r, primary))
}

/// Whether giving `a` the default root would give it the place of `b`.
pub open spec fn clashes(a: PackageRowView, b: PackageRowView, primary: Seq<char>) -> bool {
    a.package.root.len() == 0 && b.package.root == primary && a.package.rel_path == b.package.rel_path
}

/// Whether the default root would give two packages one place.
pub open spec fn roots_clash(s: Seq<PackageRowView>, primary: Seq<char>) -> bool {
    primary.len() > 0 && exists|i: int, j: int|
        0 <= i < s.len() && 0 <= j < s.len() && clashes(#[trigger] s[i], #[trigger] s[j], primary)
}

proof fn lemma_rooted_ids(s: Seq<PackageRowView>, primary: Seq<char>)
    requires
        packages_in_order(s),
    ensures
        packages_in_order(rooted(s, primary)),
        forall|x: i64| #[trigger] has_package(rooted(s, primary), x) <==> has_package(s, x),
{
    let t = rooted(s, primary);
    assert forall|i: int| 0 <= i < s.len() implies (#[trigger] t[i]).package.id == s[i].package.id by {}
    assert forall|i: int, j: int| 0 <= i < j < t.len() implies (#[trigger] t[i]).package.id < (
    #[trigger] t[j]).package.id by {
        assert(s[i].package.id < s[j].package.id);
    }
    assert forall|x: i64| #[trigger] has_package(t, x) <==> has_package(s, x) by {
        if has_package(t, x) {
            let i = choose|i: int| 0 <= i < t.len() && (#[trigger] t[i]).package.id == x;
            assert(s[i].package.id == x);
        }
        if has_package(s, x) {
            let i = choose|i: int| 0 <= i < s.len() && (#[trigger] s[i]).package.id == x;
            assert(t[i].package.id == x);
        }
    }
}

/// The position of the row of a package.
fn find_row(packages: &Vec<PackageRow>, pid: i64) -> (r: Option<usize>)
    ensures
        match r {
            Some(i) => i < packages@.len() && package_row(packages.deep_view(), pid) == Some(
                packages@[i as int]@,
            ) && first_index(packages.deep_view(), |r: PackageRowView| r.package.id == pid) == i,
            None => package_row(packages.deep_view(), pid) is None,
        },
{
    let ghost s = packages.deep_view();
    let ghost p = |r: PackageRowView| r.package.id == pid;
    let mut i: usize = 0;
    while i < packages.len()
        invariant
            i <= packages@.len(),
            s == packages.deep_view(),
            p == (|r: PackageRowView| r.package.id == pid),
            forall|j: int| 0 <= j < i ==> !p(#[trigger] s[j]),
        decreases packages@.len() - i,
    {
        assert(s[i as int] == packages@[i as int]@);
        if packages[i].package.id == pid {
            proof {
                lemma_first_index(s, p, i as int);
            }
            return Some(i);
        }
        i += 1;
    }
    proof {
        lemma_first_index(s, p, s.len() as int);
    }
    None
}

// ----- updates -------------------------------------------------------------------------------

/// What a file says of its package.
pub open spec fn found(
    root: Seq<char>,
    rel_path: Seq<char>,
    name: Seq<char>,
    publisher: Seq<char>,
    category: Seq<char>,
    size: i64,
    mtime: u64,
    header: Option<PackageHeaderView>,
) -> FoundView {
    FoundView { root, rel_path, name, publisher, category, size, mtime, header }
}

pub open spec fn header_view(h: Option<&PackageHeader>) -> Option<PackageHeaderView> {
    match h {
        Some(x) => Some(x@),
        None => None,
    }
}

fn or_else_text(a: &Option<String>, b: Option<String>) -> (r: Option<String>)
    ensures
        r.deep_view() == coalesce(a.deep_view(), b.deep_view()),
{
    match a {
        Some(s) => Some(s.clone()),
        None => b,
    }
}

fn refresh(
    row: PackageRow,
    name: &str,
    publisher: &str,
    category: &str,
    size: i64,
    mtime: u64,
    header: Option<&PackageHeader>,
    Ghost(f): Ghost<FoundView>,
) -> (r: PackageRow)
    requires
        f.name == name@,
        f.publisher == publisher@,
        f.category == category@,
        f.size == size,
        f.mtime == mtime,
        f.header == header_view(header),
    ensures
        r@ == refreshed(row@, f),
{
    let PackageRow { package, header: old_header } = row;
    let mut p = package;
    p.name = name.to_string();
    p.category = category.to_string();
    p.size = size;
    p.mtime = mtime;
    match header {
        Some(h) => {
            p.publisher = match &h.publisher {
                Some(s) => if s.as_str().is_empty() {
                    publisher.to_string()
                } else {
                    s.clone()
                },
                None => publisher.to_string(),
            };
            p.title = or_else_text(&h.title, p.title);
            p.version = or_else_text(&h.version, p.version);
            p.unity_version = or_else_text(&h.unity_version, p.unity_version);
            p.pubdate = or_else_text(&h.pubdate, p.pubdate);
            p.store_id = or_else_text(&h.store_id, p.store_id);
            p.category_label = or_else_text(&h.category, p.category_label);
            p.description = or_else_text(&h.description, p.description);
            PackageRow { package: p, header: Some(h.json.clone()) }
        },
        None => {
            p.publisher = publisher.to_string();
            PackageRow { package: p, header: old_header }
        },
    }
}

fn find_path(packages: &Vec<PackageRow>, root: &str, rel_path: &str) -> (i: usize)
    ensures
        i == path_index(packages.deep_view(), root@, rel_path@),
        i <= packages@.len(),
{
    let ghost s = packages.deep_view();
    let ghost p = |r: PackageRowView| r.package.root == root@ && r.package.rel_path == rel_path@;
    let mut i: usize = 0;
    while i < packages.len()
        invariant
            i <= packages@.len(),
            s == packages.deep_view(),
            p == (|r: PackageRowView| r.package.root == root@ && r.package.rel_path == rel_path@),
            forall|j: int| 0 <= j < i ==> !p(#[trigger] s[j]),
        decreases packages@.len() - i,
    {
        assert(s[i as int] == packages@[i as int]@);
        if same_text(packages[i].package.root.as_str(), root) && same_text(
            packages[i].package.rel_path.as_str(),
            rel_path,
        ) {
            proof {
                lemma_first_index(s, p, i as int);
            }
            return i;
        }
        i += 1;
    }
    proof {
        lemma_first_index(s, p, s.len() as int);
    }
    i
}

/// Whether the next package still gets an id.
pub open spec fn package_ids_left(db: DbView) -> bool {
    next_package_id(db.packages) <= i64::MAX
}

/// Why the entries of a scan cannot be taken into the index, where they cannot: the package is not
/// there, a guid occurs twice, or there are not enough ids left.
pub open spec fn refusal(db: DbView, pid: i64, es: Seq<EntryView>) -> Option<StoreError> {
    if es.len() == 0 {
        None
    } else if !has_package(db.packages, pid) {
        Some(StoreError::NoPackage)
    } else if !guids_differ(es) {
        Some(StoreError::DuplicateGuid)
    } else if !asset_ids_left(db, pid, es.len()) {
        Some(StoreError::Overflow)
    } else {
        None
    }
}

/// Whether the assets of a package can be replaced by `n` others without running out of ids.
pub open spec fn asset_ids_left(db: DbView, pid: i64, n: nat) -> bool {
    next_asset_id(without_package(db.assets, pid)) + n - 1 <= i64::MAX
}

proof fn lemma_rows_keep_packages(ps: Seq<PackageRowView>, qs: Seq<PackageRowView>, az: Seq<AssetRowView>)
    requires
        forall|x: i64| #[trigger] has_package(ps, x) ==> has_package(qs, x),
        forall|i: int| 0 <= i < az.len() ==> has_package(ps, (#[trigger] az[i]).package_id),
    ensures
        forall|i: int| 0 <= i < az.len() ==> has_package(qs, (#[trigger] az[i]).package_id),
{
}

proof fn lemma_upserted(s: Seq<PackageRowView>, f: FoundView)
    requires
        packages_in_order(s),
        path_index(s, f.root, f.rel_path) >= s.len() ==> next_package_id(s) <= i64::MAX,
    ensures
        packages_in_order(upserted(s, f)),
        forall|x: i64| #[trigger] has_package(s, x) ==> has_package(upserted(s, f), x),
{
    let t = upserted(s, f);
    let i = path_index(s, f.root, f.rel_path);
    lemma_first_index_bounds(s, |r: PackageRowView| r.package.root == f.root && r.package.rel_path == f.rel_path);
    assert forall|k: int| 0 <= k < s.len() implies (#[trigger] t[k]).package.id == s[k].package.id by {}
    assert forall|a: int, b: int| 0 <= a < b < t.len() implies (#[trigger] t[a]).package.id < (
    #[trigger] t[b]).package.id by {
        if b < s.len() {
            assert(s[a].package.id < s[b].package.id);
        } else {
            if a < s.len() - 1 {
                assert(s[a].package.id < s[s.len() - 1].package.id);
            }
        }
    }
    assert forall|x: i64| #[trigger] has_package(s, x) implies has_package(t, x) by {
        let k = choose|k: int| 0 <= k < s.len() && (#[trigger] s[k]).package.id == x;
        assert(t[k].package.id == x);
    }
}

fn keep_others(rows: Vec<AssetRow>, pid: i64) -> (r: Vec<AssetRow>)
    ensures
        r.deep_view() == without_package(rows.deep_view(), pid),
{
    let ghost keep = |a: AssetRowView| a.package_id != pid;
    let ghost all = rows.deep_view().filter(keep);
    let mut rows = rows;
    let mut back: Vec<AssetRow> = Vec::new();
    assert(all =~= rows.deep_view().filter(keep) + back.deep_view().reverse());
    while rows.len() > 0
        invariant
            keep == (|a: AssetRowView| a.package_id != pid),
            all == rows.deep_view().filter(keep) + back.deep_view().reverse(),
        decreases rows@.len(),
    {
        let ghost r0 = rows.deep_view();
        let ghost b0 = back.deep_view();
        match rows.pop() {
            Some(row) => {
                let ghost rv = row@;
                proof {
                    assert(rows.deep_view() =~= r0.drop_last());
                    assert(r0.last() == rv);
                    reveal(Seq::filter);
                }
                if row.package_id != pid {
                    back.push(row);
                    assert(back.deep_view() =~= b0.push(rv));
                    assert(back.deep_view().reverse() =~= seq![rv] + b0.reverse());
                    assert(r0.filter(keep) =~= rows.deep_view().filter(keep).push(rv));
                    assert(all =~= rows.deep_view().filter(keep) + back.deep_view().reverse());
                }
            },
            None => {},
        }
    }
    proof {
        reveal(Seq::filter);
        assert(rows.deep_view() =~= Seq::<AssetRowView>::empty());
        assert(rows.deep_view().filter(keep) =~= Seq::<AssetRowView>::empty());
    }
    let ghost b1 = back.deep_view();
    let r = crate::sorted::reverse(back);
    assert(r.deep_view() =~= b1.reverse());
    assert(all =~= r.deep_view());
    r
}

fn guids_are_distinct(entries: &Vec<Entry>) -> (r: bool)
    ensures
        r == guids_differ(entries.deep_view()),
{
    let mut seen = TextSet::new();
    let ghost es = entries.deep_view();
    let mut i: usize = 0;
    while i < entries.len()
        invariant
            i <= entries@.len(),
            es == entries.deep_view(),
            forall|g: Seq<char>|
                seen@.contains(g) <==> exists|k: int| 0 <= k < i && (#[trigger] es[k]).guid == g,
            forall|a: int, b: int| 0 <= a < b < i ==> (#[trigger] es[a]).guid != (#[trigger] es[b]).guid,
        decreases entries@.len() - i,
    {
        assert(es[i as int] == entries@[i as int]@);
        let ghost s0 = seen@;
        if !seen.insert(entries[i].guid.clone()) {
            return false;
        }
        proof {
            assert forall|g: Seq<char>| seen@.contains(g) <==> exists|k: int|
                0 <= k < i + 1 && (#[trigger] es[k]).guid == g by {
                if s0.contains(g) {
                    let k = choose|k: int| 0 <= k < i && (#[trigger] es[k]).guid == g;
                    assert(es[k].guid == g);
                }
                if g == es[i as int].guid {
                    assert(es[i as int].guid == g);
                }
            }
        }
        i += 1;
    }
    true
}

fn make_row(e: &Entry, pid: i64, id: i64) -> (r: AssetRow)
    ensures
        r@ == row_of(e@, pid, id),
{
    let (ext, kind) = e.ext_kind();
    AssetRow {
        id,
        package_id: pid,
        guid: e.guid.clone(),
        path: e.path.clone(),
        name: e.name(),
        ext,
        kind: kind.to_string(),
        importer: clone_text(&e.importer),
        main_class: e.main_class(),
        size: e.asset_size as i64,
        is_folder: e.is_folder,
        has_preview: e.has_preview,
        is_text: e.is_text,
        scan_truncated: e.scan_truncated,
        labels: clone_texts(&e.labels),
        refs: e.refs.clone(),
    }
}

impl Database {
    /// Puts a package down, or what has changed of it; gives its id. What the store header said
    /// before stays where it says nothing now.
    pub fn upsert_package(
        &mut self,
        root: &str,
        rel_path: &str,
        name: &str,
        publisher: &str,
        category: &str,
        size: i64,
        mtime: u64,
        header: Option<&PackageHeader>,
    ) -> (r: Result<i64, StoreError>)
        ensures
            valid(final(self)@),
            ({
                let f = found(
                    root@,
                    rel_path@,
                    name@,
                    publisher@,
                    category@,
                    size,
                    mtime,
                    header_view(header),
                );
                let i = path_index(old(self)@.packages, root@, rel_path@);
                match r {
                    Ok(id) => {
                        &&& i < old(self)@.packages.len() || package_ids_left(old(self)@)
                        &&& final(self)@ == (DbView {
                            packages: upserted(old(self)@.packages, f),
                            ..old(self)@
                        })
                        &&& id == final(self)@.packages[i].package.id
                        &&& i < final(self)@.packages.len()
                    },
                    Err(e) => {
                        &&& e == StoreError::Overflow
                        &&& i >= old(self)@.packages.len() && !package_ids_left(old(self)@)
                        &&& final(self)@ == old(self)@
                    },
                }
            }),
    {
        let ghost f = found(
            root@,
            rel_path@,
            name@,
            publisher@,
            category@,
            size,
            mtime,
            header_view(header),
        );
        let ghost db = self@;
        let ghost ps = self.packages.deep_view();
        proof {
            use_type_invariant(&*self);
        }
        let i = find_path(&self.packages, root, rel_path);
        let n: usize = self.packages.len();
        let id: i64 = if i < n {
            assert(ps[i as int] == self.packages@[i as int]@);
            self.packages[i].package.id
        } else if n == 0 {
            1
        } else {
            let last = self.packages[n - 1].package.id;
            assert(ps.last() == self.packages@[n - 1]@);
            if last == i64::MAX {
                return Err(StoreError::Overflow);
            }
            last + 1
        };
        proof {
            lemma_upserted(ps, f);
            lemma_rows_keep_packages(ps, upserted(ps, f), self.assets.deep_view());
        }
        let mut all = Database::new(String::new(), false);
        std::mem::swap(&mut all, self);
        let Database { packages, assets, previews, has_fts, path } = all;
        let mut packages = packages;
        if i < n {
            let old_row = packages[i].clone();
            let row = refresh(old_row, name, publisher, category, size, mtime, header, Ghost(f));
            let ghost rv = row@;
            packages.set(i, row);
            assert(packages.deep_view() =~= ps.update(i as int, rv));
            assert(packages.deep_view() =~= upserted(ps, f));
        } else {
            let mut blank = Package::default();
            blank.id = id;
            blank.root = root.to_string();
            blank.rel_path = rel_path.to_string();
            blank.status = "ok".to_string();
            let row = refresh(
                PackageRow { package: blank, header: None },
                name,
                publisher,
                category,
                size,
                mtime,
                header,
                Ghost(f),
            );
            let ghost rv = row@;
            packages.push(row);
            proof {
                assert(rv == new_row(f, id));
                assert(packages.deep_view() =~= ps.push(rv));
                assert(packages.deep_view() =~= upserted(ps, f));
            }
        }
        *self = Database { packages, assets, previews, has_fts, path };
        Ok(id)
    }

    /// Sets the status of a package and what went wrong.
    pub fn mark_package(&mut self, pid: i64, status: &str, error: Option<&str>)
        ensures
            valid(final(self)@),
            final(self)@ == marked(old(self)@, pid, status@, text_view(error)),
    {
        let ghost ps = self.packages.deep_view();
        let ghost f = |r: PackageRowView|
            PackageRowView {
                package: PackageView {
                    status: status@,
                    error: match error {
                        Some(e) => Some(e@),
                        None => None,
                    },
                    ..r.package
                },
                header: r.header,
            };
        proof {
            use_type_invariant(&*self);
            lemma_with_row_ids(ps, pid, f);
            lemma_rows_keep_packages(ps, with_row(ps, pid, f), self.assets.deep_view());
            lemma_with_row_once(ps, pid, f);
        }
        match find_row(&self.packages, pid) {
            Some(i) => {
                let mut all = Database::new(String::new(), false);
                std::mem::swap(&mut all, self);
                let Database { packages, assets, previews, has_fts, path } = all;
                let mut packages = packages;
                let mut row = packages[i].clone();
                row.package.status = status.to_string();
                row.package.error = match error {
                    Some(e) => Some(e.to_string()),
                    None => None,
                };
                let ghost rv = row@;
                packages.set(i, row);
                proof {
                    assert(rv == f(ps[i as int]));
                    assert(packages.deep_view() =~= ps.update(i as int, rv));
                }
                *self = Database { packages, assets, previews, has_fts, path };
            },
            None => {},
        }
    }

    /// Removes a package with its assets and their references.
    pub fn delete_package(&mut self, pid: i64)
        ensures
            valid(final(self)@),
            final(self)@ == forgotten(old(self)@, pid),
    {
        let ghost ps = self.packages.deep_view();
        let ghost az = self.assets.deep_view();
        proof {
            use_type_invariant(&*self);
            lemma_filter_in_order(az, |a: AssetRowView| a.package_id != pid);
            lemma_remove_package(ps, pid);
        }
        let at = find_row(&self.packages, pid);
        let mut all = Database::new(String::new(), false);
        std::mem::swap(&mut all, self);
        let Database { packages, assets, previews, has_fts, path } = all;
        let mut packages = packages;
        let assets = keep_others(assets, pid);
        match at {
            Some(i) => {
                packages.remove(i);
                assert(packages.deep_view() =~= ps.remove(i as int));
            },
            None => {},
        }
        proof {
            let qs = packages.deep_view();
            let bz = assets.deep_view();
            assert forall|i: int| 0 <= i < bz.len() implies has_package(qs, (#[trigger] bz[i]).package_id) by {
                assert(az.contains(bz[i]) && bz[i].package_id != pid);
                let k = choose|k: int| 0 <= k < az.len() && az[k] == bz[i];
                assert(has_package(ps, az[k].package_id));
            }
        }
        *self = Database { packages, assets, previews, has_fts, path };
    }

    /// Removes the assets of a package with their references.
    pub fn clear_package_assets(&mut self, pid: i64)
        ensures
            valid(final(self)@),
            final(self)@ == (DbView { assets: without_package(old(self)@.assets, pid), ..old(self)@ }),
    {
        let ghost ps = self.packages.deep_view();
        let ghost az = self.assets.deep_view();
        proof {
            use_type_invariant(&*self);
            lemma_filter_in_order(az, |a: AssetRowView| a.package_id != pid);
        }
        let mut all = Database::new(String::new(), false);
        std::mem::swap(&mut all, self);
        let Database { packages, assets, previews, has_fts, path } = all;
        let assets = keep_others(assets, pid);
        proof {
            let bz = assets.deep_view();
            assert forall|i: int| 0 <= i < bz.len() implies has_package(ps, (#[trigger] bz[i]).package_id) by {
                assert(az.contains(bz[i]));
                let k = choose|k: int| 0 <= k < az.len() && az[k] == bz[i];
                assert(has_package(ps, az[k].package_id));
            }
        }
        *self = Database { packages, assets, previews, has_fts, path };
    }

    /// Replaces all assets of a package by freshly scanned entries. Gives their number and their
    /// bytes; on an error nothing has changed. `now` is the time in seconds: the bits of an `f64`.
    pub fn replace_package_assets(
        &mut self,
        pid: i64,
        entries: &Vec<Entry>,
        previews_indexed: bool,
        now: u64,
    ) -> (r: Result<(usize, i64), StoreError>)
        ensures
            valid(final(self)@),
            ({
                let es = entries.deep_view();
                let db = old(self)@;
                match refusal(db, pid, es) {
                    None => {
                        &&& r matches Ok((n, total)) && n == es.len() && total == size_sum(entry_sizes(es))
                        &&& final(self)@ == rescanned(db, pid, es, previews_indexed, now)
                    },
                    Some(e) => r == Err::<(usize, i64), StoreError>(e) && final(self)@ == db,
                }
            }),
    {
        let ghost es = entries.deep_view();
        let ghost db = self@;
        let ghost ps = self.packages.deep_view();
        let ghost az = self.assets.deep_view();
        proof {
            use_type_invariant(&*self);
            lemma_package_there(ps, pid);
            lemma_filter_in_order(az, |a: AssetRowView| a.package_id != pid);
        }
        let count: usize = entries.len();
        let at = find_row(&self.packages, pid);
        if count > 0 && at.is_none() {
            return Err(StoreError::NoPackage);
        }
        if !guids_are_distinct(entries) {
            assert(count > 0);
            return Err(StoreError::DuplicateGuid);
        }
        let mut all = Database::new(String::new(), false);
        std::mem::swap(&mut all, self);
        let Database { packages, assets, previews, has_fts, path } = all;
        let last = last_kept(&assets, pid);
        let first: i64 = match last {
            Some(id) => {
                if count > 0 && id as i128 + count as i128 > i64::MAX as i128 {
                    *self = Database { packages, assets, previews, has_fts, path };
                    return Err(StoreError::Overflow);
                }
                if count > 0 {
                    id + 1
                } else {
                    1
                }
            },
            None => {
                if count as i128 > i64::MAX as i128 {
                    *self = Database { packages, assets, previews, has_fts, path };
                    return Err(StoreError::Overflow);
                }
                1
            },
        };
        let kept_rows = keep_others(assets, pid);
        let ghost kept = kept_rows.deep_view();
        let ghost id0 = next_asset_id(kept);
        let (rows, total) = append_rows(kept_rows, entries, pid, first);
        assert(count == 0 ==> rows_of(es, pid, first as int) =~= rows_of(es, pid, id0));
        let ghost f = |r: PackageRowView|
            PackageRowView {
                package: PackageView {
                    indexed_at: Some(now),
                    entry_count: es.len() as i64,
                    total_bytes: size_sum(entry_sizes(es)),
                    status: "ok"@,
                    error: None,
                    previews_indexed,
                    ..r.package
                },
                header: r.header,
            };
        let mut packages = packages;
        proof {
            lemma_with_row_ids(ps, pid, f);
            lemma_with_row_once(ps, pid, f);
            lemma_new_rows(ps, with_row(ps, pid, f), az, kept, es, pid);
        }
        match at {
            Some(k) => {
                let mut row = packages[k].clone();
                row.package.indexed_at = Some(now);
                row.package.entry_count = count as i64;
                row.package.total_bytes = total;
                row.package.status = "ok".to_string();
                row.package.error = None;
                row.package.previews_indexed = previews_indexed;
                let ghost rv = row@;
                packages.set(k, row);
                proof {
                    assert(rv == f(ps[k as int]));
                    assert(packages.deep_view() =~= ps.update(k as int, rv));
                }
            },
            None => {},
        }
        *self = Database { packages, assets: rows, previews, has_fts, path };
        Ok((count, total))
    }

    /// Stores previews, replacing earlier ones of the same guid; gives their number.
    pub fn put_previews(&mut self, items: &Vec<(String, Vec<u8>)>) -> (n: usize)
        ensures
            valid(final(self)@),
            final(self)@ == (DbView {
                previews: with_previews(old(self)@.previews, items.deep_view()),
                ..old(self)@
            }),
            n == items@.len(),
    {
        proof {
            use_type_invariant(&*self);
        }
        let ghost db = self@;
        let mut all = Database::new(String::new(), false);
        std::mem::swap(&mut all, self);
        let Database { packages, assets, previews, has_fts, path } = all;
        let mut previews = previews;
        let mut i: usize = 0;
        assert(items.deep_view().take(0) =~= Seq::<(Seq<char>, Seq<u8>)>::empty());
        while i < items.len()
            invariant
                i <= items@.len(),
                previews.deep_view() == with_previews(db.previews, items.deep_view().take(i as int)),
            decreases items@.len() - i,
        {
            let ghost t = items.deep_view();
            let ghost m0 = previews@;
            let ghost d0 = previews.deep_view();
            let png = items[i].1.clone();
            let ghost pv = png;
            proof {
                assert(png.deep_view() =~= items@[i as int].1.deep_view());
                assert(t.take(i + 1).drop_last() =~= t.take(i as int));
                assert(t.take(i + 1).last() == t[i as int]);
            }
            previews.insert(items[i].0.clone(), png);
            proof {
                assert(previews.deep_view() =~= d0.insert(t[i as int].0, t[i as int].1));
            }
            i += 1;
        }
        assert(items.deep_view().take(items@.len() as int) =~= items.deep_view());
        *self = Database { packages, assets, previews, has_fts, path };
        i
    }

    /// The stored preview of a guid.
    pub fn get_preview(&self, guid: &str) -> (r: Option<Vec<u8>>)
        ensures
            r.deep_view() == (if self@.previews.contains_key(lower(guid@)) {
                Some(self@.previews[lower(guid@)])
            } else {
                None
            }),
    {
        let g = to_lower(guid);
        match self.previews.get(g.as_str()) {
            Some(png) => {
                let c = png.clone();
                assert(c.deep_view() =~= png.deep_view());
                Some(c)
            },
            None => None,
        }
    }

    pub fn preview_count(&self) -> (n: i64)
        ensures
            n == self@.previews.dom().len() as i64,
            self@.previews.dom().finite(),
    {
        let n: usize = self.previews.len();
        assert(self.previews.deep_view().dom() =~= self.previews@.dom());
        n as i64
    }
}

/// The previews with some more, later ones in place of earlier ones.
pub open spec fn with_previews(m: Map<Seq<char>, Seq<u8>>, items: Seq<(Seq<char>, Seq<u8>)>) -> Map<
    Seq<char>,
    Seq<u8>,
>
    decreases items.len(),
{
    if items.len() == 0 {
        m
    } else {
        with_previews(m, items.drop_last()).insert(items.last().0, items.last().1)
    }
}

fn append_rows(rows: Vec<AssetRow>, entries: &Vec<Entry>, pid: i64, first: i64) -> (r: (Vec<AssetRow>, i64))
    requires
        entries@.len() > 0 ==> first + entries@.len() - 1 <= i64::MAX,
    ensures
        r.0.deep_view() == rows.deep_view() + rows_of(entries.deep_view(), pid, first as int),
        r.1 == size_sum(entry_sizes(entries.deep_view())),
{
    let ghost es = entries.deep_view();
    let ghost kept = rows.deep_view();
    let ghost w = rows_of(es, pid, first as int);
    let mut rows = rows;
    let count: usize = entries.len();
    let mut total: i64 = 0;
    let mut id: i64 = first;
    let mut i: usize = 0;
    proof {
        assert(entry_sizes(es).take(0) =~= Seq::<i64>::empty());
        assert(kept + w.take(0) =~= kept);
    }
    while i < count
        invariant
            i <= count,
            count == entries@.len(),
            es == entries.deep_view(),
            w == rows_of(es, pid, first as int),
            i < count ==> id == first + i,
            count > 0 ==> first + count - 1 <= i64::MAX,
            rows.deep_view() == kept + w.take(i as int),
            total == size_sum(entry_sizes(es).take(i as int)),
        decreases count - i,
    {
        let ghost r0 = rows.deep_view();
        let row = make_row(&entries[i], pid, id);
        let ghost rv = row@;
        rows.push(row);
        proof {
            assert(es[i as int] == entries@[i as int]@);
            assert(rv == w[i as int]);
            assert(rows.deep_view() =~= r0.push(rv));
            assert(w.take(i + 1) =~= w.take(i as int).push(rv));
            assert(rows.deep_view() =~= kept + w.take(i + 1));
            let z = entry_sizes(es);
            assert(z.take(i + 1).drop_last() =~= z.take(i as int));
            assert(z.take(i + 1).last() == z[i as int]);
        }
        total = total.wrapping_add(entries[i].asset_size as i64);
        i += 1;
        if i < count {
            id += 1;
        }
    }
    proof {
        assert(w.take(w.len() as int) =~= w);
        assert(entry_sizes(es).take(es.len() as int) =~= entry_sizes(es));
    }
    (rows, total)
}

fn last_kept(rows: &Vec<AssetRow>, pid: i64) -> (r: Option<i64>)
    ensures
        ({
            let kept = without_package(rows.deep_view(), pid);
            match r {
                Some(id) => kept.len() > 0 && kept.last().id == id,
                None => kept.len() == 0,
            }
        }),
{
    let ghost keep = |a: AssetRowView| a.package_id != pid;
    let ghost s = rows.deep_view();
    let mut r: Option<i64> = None;
    let mut i: usize = 0;
    proof {
        lemma_filter_none(s, keep);
    }
    while i < rows.len()
        invariant
            i <= rows@.len(),
            s == rows.deep_view(),
            keep == (|a: AssetRowView| a.package_id != pid),
            ({
                let kept = s.take(i as int).filter(keep);
                match r {
                    Some(id) => kept.len() > 0 && kept.last().id == id,
                    None => kept.len() == 0,
                }
            }),
        decreases rows@.len() - i,
    {
        proof {
            lemma_filter_step(s, keep, i as int);
            assert(s[i as int] == rows@[i as int]@);
        }
        if rows[i].package_id != pid {
            r = Some(rows[i].id);
        }
        i += 1;
    }
    assert(s.take(s.len() as int) =~= s);
    r
}

proof fn lemma_with_row_once(s: Seq<PackageRowView>, pid: i64, f: spec_fn(PackageRowView) -> PackageRowView)
    requires
        packages_in_order(s),
    ensures
        ({
            let i = first_index(s, |r: PackageRowView| r.package.id == pid);
            with_row(s, pid, f) == (if i < s.len() {
                s.update(i, f(s[i]))
            } else {
                s
            })
        }),
{
    let p = |r: PackageRowView| r.package.id == pid;
    let i = first_index(s, p);
    lemma_first_index_bounds(s, p);
    let t = with_row(s, pid, f);
    let u = if i < s.len() {
        s.update(i, f(s[i]))
    } else {
        s
    };
    assert forall|k: int| 0 <= k < s.len() implies t[k] == u[k] by {
        if k < i {
            assert(!p(s[k]));
        } else if k > i {
            assert(s[i].package.id < s[k].package.id);
        }
    }
    assert(t =~= u);
}

proof fn lemma_remove_package(s: Seq<PackageRowView>, pid: i64)
    requires
        packages_in_order(s),
    ensures
        ({
            let i = first_index(s, |r: PackageRowView| r.package.id == pid);
            let t = if i < s.len() {
                s.remove(i)
            } else {
                s
            };
            &&& s.filter(|r: PackageRowView| r.package.id != pid) == t
            &&& packages_in_order(t)
            &&& forall|x: i64| x != pid && #[trigger] has_package(s, x) ==> has_package(t, x)
        }),
{
    let p = |r: PackageRowView| r.package.id == pid;
    let q = |r: PackageRowView| r.package.id != pid;
    let i = first_index(s, p);
    lemma_first_index_bounds(s, p);
    let t = if i < s.len() {
        s.remove(i)
    } else {
        s
    };
    lemma_filter_but_one(s, pid, i, s.len() as int);
    assert(s.take(s.len() as int) =~= s);
    assert(t.take(t.len() as int) =~= t);
    assert forall|a: int, b: int| 0 <= a < b < t.len() implies (#[trigger] t[a]).package.id < (
    #[trigger] t[b]).package.id by {
        let a1 = if a < i { a } else { a + 1 };
        let b1 = if b < i { b } else { b + 1 };
        if i < s.len() {
            assert(s[a1].package.id < s[b1].package.id);
        } else {
            assert(s[a].package.id < s[b].package.id);
        }
    }
    assert forall|x: i64| x != pid && #[trigger] has_package(s, x) implies has_package(t, x) by {
        let k = choose|k: int| 0 <= k < s.len() && (#[trigger] s[k]).package.id == x;
        if k < i {
            assert(t[k].package.id == x);
        } else {
            assert(k != i);
            assert(t[k - 1].package.id == x);
        }
    }
}

proof fn lemma_filter_but_one(s: Seq<PackageRowView>, pid: i64, i: int, n: int)
    requires
        packages_in_order(s),
        i == first_index(s, |r: PackageRowView| r.package.id == pid),
        0 <= n <= s.len(),
    ensures
        s.take(n).filter(|r: PackageRowView| r.package.id != pid) == (if i < n {
            s.remove(i).take(n - 1)
        } else {
            s.take(n)
        }),
    decreases n,
{
    let p = |r: PackageRowView| r.package.id == pid;
    let q = |r: PackageRowView| r.package.id != pid;
    lemma_first_index_bounds(s, p);
    if n == 0 {
        lemma_filter_none(s, q);
        assert(s.take(0) =~= Seq::<PackageRowView>::empty());
    } else {
        lemma_filter_but_one(s, pid, i, n - 1);
        lemma_filter_step(s, q, n - 1);
        if n - 1 < i {
            assert(!p(s[n - 1]));
            assert(s.take(n) =~= s.take(n - 1).push(s[n - 1]));
        } else if n - 1 == i {
            assert(s.remove(i).take(n - 1) =~= s.take(n - 1));
        } else {
            assert(s[i].package.id < s[n - 1].package.id);
            assert(s.remove(i).take(n - 1) =~= s.remove(i).take(n - 2).push(s[n - 1]));
        }
    }
}

proof fn lemma_new_rows(
    ps: Seq<PackageRowView>,
    qs: Seq<PackageRowView>,
    az: Seq<AssetRowView>,
    kept: Seq<AssetRowView>,
    es: Seq<EntryView>,
    pid: i64,
)
    requires
        kept == without_package(az, pid),
        assets_in_order(az),
        forall|i: int| 0 <= i < az.len() ==> has_package(ps, (#[trigger] az[i]).package_id),
        forall|x: i64| #[trigger] has_package(qs, x) <==> has_package(ps, x),
        es.len() == 0 || has_package(ps, pid),
        es.len() == 0 || next_asset_id(kept) + es.len() - 1 <= i64::MAX,
    ensures
        assets_in_order(kept + rows_of(es, pid, next_asset_id(kept))),
        forall|i: int|
            0 <= i < kept.len() + es.len() ==> has_package(
                qs,
                (#[trigger] (kept + rows_of(es, pid, next_asset_id(kept)))[i]).package_id,
            ),
{
    let keep = |a: AssetRowView| a.package_id != pid;
    let id0 = next_asset_id(kept);
    let t = kept + rows_of(es, pid, id0);
    lemma_filter_in_order(az, keep);
    assert forall|i: int, j: int| 0 <= i < j < t.len() implies (#[trigger] t[i]).id < (#[trigger] t[j]).id by {
        if j < kept.len() {
            assert(kept[i].id < kept[j].id);
        } else if i < kept.len() {
            if i < kept.len() - 1 {
                assert(kept[i].id < kept[kept.len() - 1].id);
            }
            assert(id0 >= i64::MIN);
        }
    }
    assert forall|i: int| 0 <= i < t.len() implies has_package(qs, (#[trigger] t[i]).package_id) by {
        if i < kept.len() {
            assert(az.contains(kept[i]));
            let k = choose|k: int| 0 <= k < az.len() && az[k] == kept[i];
            assert(has_package(ps, az[k].package_id));
        }
    }
}

// ----- queries -------------------------------------------------------------------------------

/// The order by package.
pub open spec fn by_package() -> spec_fn(AssetView, AssetView) -> bool {
    |a: AssetView, b: AssetView| a.package_id <= b.package_id
}

/// The order by path.
pub open spec fn by_path() -> spec_fn(AssetView, AssetView) -> bool {
    |a: AssetView, b: AssetView| at_most(a.path, b.path)
}

/// The order by package name, and then by path.
pub open spec fn by_package_name() -> spec_fn(AssetView, AssetView) -> bool {
    |a: AssetView, b: AssetView|
        if a.package != b.package {
            at_most(a.package, b.package)
        } else {
            at_most(a.path, b.path)
        }
}

/// The order by package, and then by path.
pub open spec fn by_package_path() -> spec_fn(AssetView, AssetView) -> bool {
    |a: AssetView, b: AssetView|
        if a.package_id != b.package_id {
            a.package_id <= b.package_id
        } else {
            at_most(a.path, b.path)
        }
}

/// The order by the length of the path, and then by package.
pub open spec fn by_length() -> spec_fn(AssetView, AssetView) -> bool {
    |a: AssetView, b: AssetView|
        if a.path.len() != b.path.len() {
            a.path.len() <= b.path.len()
        } else {
            a.package_id <= b.package_id
        }
}

/// The order by the length of the path, and then by path.
pub open spec fn by_length_path() -> spec_fn(AssetView, AssetView) -> bool {
    |a: AssetView, b: AssetView|
        if a.path.len() != b.path.len() {
            a.path.len() <= b.path.len()
        } else {
            at_most(a.path, b.path)
        }
}

/// The order by publisher and name, up to ASCII case.
pub open spec fn by_publisher() -> spec_fn(PackageView, PackageView) -> bool {
    |a: PackageView, b: PackageView|
        if lower(a.publisher) != lower(b.publisher) {
            folded_at_most(a.publisher, b.publisher)
        } else {
            folded_at_most(a.name, b.name)
        }
}

/// The order by name.
pub open spec fn by_name() -> spec_fn(PackageView, PackageView) -> bool {
    |a: PackageView, b: PackageView| at_most(a.name, b.name)
}

/// The orders of the index are orders.
pub proof fn orders_are_orders()
    ensures
        orders(by_package()),
        orders(by_path()),
        orders(by_package_name()),
        orders(by_package_path()),
        orders(by_length()),
        orders(by_length_path()),
        orders(by_publisher()),
        orders(by_name()),
{
    assert forall|a: Seq<char>, b: Seq<char>| #[trigger] at_most(a, b) || at_most(b, a) by {
        at_most_is_total(a, b);
    }
    assert forall|a: Seq<char>, b: Seq<char>, c: Seq<char>| #[trigger]
        at_most(a, b) && #[trigger] at_most(b, c) implies at_most(a, c) by {
        at_most_is_transitive(a, b, c);
    }
    assert forall|a: Seq<char>, b: Seq<char>| #[trigger] at_most(a, b) && at_most(b, a) implies a == b by {
        crate::pattern::at_most_is_antisymmetric(a, b);
    }
}

pub open spec fn package_views(s: Seq<PackageRowView>) -> Seq<PackageView> {
    s.map_values(|r: PackageRowView| r.package)
}

/// The packages whose rows have a property, in the order of their ids.
pub open spec fn packages_where(db: DbView, p: spec_fn(PackageView) -> bool) -> Seq<PackageView> {
    package_views(db.packages).filter(p)
}

/// Whether the name, the path or the title of a package matches a pattern.
pub open spec fn package_like(p: PackageView, pattern: Seq<char>) -> bool {
    like(pattern, p.name) || like(pattern, p.rel_path) || (p.title matches Some(t) && like(pattern, t))
}

/// A pattern for texts that hold the given one.
pub open spec fn holding(s: Seq<char>) -> Seq<char> {
    "%"@ + s + "%"@
}

/// The packages that a text may mean: the one with that id, those with that name, or those whose
/// name, path or title holds it.
pub open spec fn packages_meant(db: DbView, needle: Seq<char>) -> Seq<PackageView> {
    let n = trim(needle);
    if all_digits(n) {
        match package_with_id(db, number_of(n) as i64) {
            Some(p) => seq![p],
            None => Seq::empty(),
        }
    } else {
        let exact = packages_where(db, |p: PackageView| same_folded(p.name, n));
        if exact.len() > 0 {
            exact
        } else {
            arranged(packages_where(db, |p: PackageView| package_like(p, holding(n))), by_name())
        }
    }
}

/// Whether a text is a number that is too large for an id.
pub open spec fn id_too_large(needle: Seq<char>) -> bool {
    all_digits(trim(needle)) && number_of(trim(needle)) > i64::MAX
}

impl Database {
    fn asset_at(&self, i: usize) -> (r: Asset)
        requires
            i < self@.assets.len(),
        ensures
            r@ == asset_of(self@, self@.assets[i as int]),
    {
        proof {
            use_type_invariant(self);
            let a = self@.assets[i as int];
            assert(has_package(self@.packages, a.package_id));
            lemma_package_there(self@.packages, a.package_id);
        }
        let row = &self.assets[i];
        assert(self@.assets[i as int] == row@);
        let k = match find_row(&self.packages, row.package_id) {
            Some(k) => k,
            None => 0,
        };
        let p = &self.packages[k].package;
        Asset {
            id: row.id,
            package_id: row.package_id,
            guid: row.guid.clone(),
            path: row.path.clone(),
            name: row.name.clone(),
            ext: row.ext.clone(),
            kind: row.kind.clone(),
            importer: clone_text(&row.importer),
            main_class: clone_text(&row.main_class),
            size: row.size,
            is_folder: row.is_folder,
            has_preview: row.has_preview,
            is_text: row.is_text,
            scan_truncated: row.scan_truncated,
            labels: clone_texts(&row.labels),
            package: p.name.clone(),
            publisher: p.publisher.clone(),
            package_rel_path: p.rel_path.clone(),
        }
    }

    fn select<F: Fn(&AssetRow) -> bool>(&self, keep: F, Ghost(p): Ghost<spec_fn(AssetRowView) -> bool>) -> (r: Vec<
        Asset,
    >)
        requires
            forall|x: AssetRow| call_requires(keep, (&x,)),
            forall|x: AssetRow, b: bool| call_ensures(keep, (&x,), b) ==> b == p(x@),
        ensures
            r.deep_view() == select_where(self@, p),
    {
        let ghost s = self@.assets;
        let ghost f = |a: AssetRowView| asset_of(self@, a);
        let mut out: Vec<Asset> = Vec::new();
        let mut i: usize = 0;
        proof {
            lemma_filter_none(s, p);
            assert(out.deep_view() =~= s.take(0).filter(p).map_values(f));
        }
        while i < self.assets.len()
            invariant
                i <= self.assets@.len(),
                s == self@.assets,
                s == self.assets.deep_view(),
                f == (|a: AssetRowView| asset_of(self@, a)),
                forall|x: AssetRow| call_requires(keep, (&x,)),
                forall|x: AssetRow, b: bool| call_ensures(keep, (&x,), b) ==> b == p(x@),
                out.deep_view() == s.take(i as int).filter(p).map_values(f),
            decreases self.assets@.len() - i,
        {
            proof {
                lemma_filter_step(s, p, i as int);
                assert(s[i as int] == self.assets@[i as int]@);
            }
            if keep(&self.assets[i]) {
                let ghost o0 = out.deep_view();
                let a = self.asset_at(i);
                let ghost av = a@;
                out.push(a);
                assert(out.deep_view() =~= o0.push(av));
                assert(out.deep_view() =~= s.take(i + 1).filter(p).map_values(f));
            }
            i += 1;
        }
        assert(s.take(s.len() as int) =~= s);
        out
    }

    fn select_packages<F: Fn(&Package) -> bool>(
        &self,
        keep: F,
        Ghost(p): Ghost<spec_fn(PackageView) -> bool>,
    ) -> (r: Vec<Package>)
        requires
            forall|x: Package| call_requires(keep, (&x,)),
            forall|x: Package, b: bool| call_ensures(keep, (&x,), b) ==> b == p(x@),
        ensures
            r.deep_view() == packages_where(self@, p),
    {
        let ghost s = package_views(self@.packages);
        let mut out: Vec<Package> = Vec::new();
        let mut i: usize = 0;
        proof {
            lemma_filter_none(s, p);
            assert(out.deep_view() =~= s.take(0).filter(p));
        }
        while i < self.packages.len()
            invariant
                i <= self.packages@.len(),
                s == package_views(self.packages.deep_view()),
                s.len() == self.packages@.len(),
                forall|x: Package| call_requires(keep, (&x,)),
                forall|x: Package, b: bool| call_ensures(keep, (&x,), b) ==> b == p(x@),
                out.deep_view() == s.take(i as int).filter(p),
            decreases self.packages@.len() - i,
        {
            proof {
                lemma_filter_step(s, p, i as int);
                assert(s[i as int] == self.packages@[i as int].package@);
            }
            if keep(&self.packages[i].package) {
                let ghost o0 = out.deep_view();
                let a = self.packages[i].package.clone();
                let ghost av = a@;
                out.push(a);
                assert(out.deep_view() =~= o0.push(av));
            }
            i += 1;
        }
        assert(s.take(s.len() as int) =~= s);
        out
    }

    pub fn package_by_root_rel(&self, root: &str, rel_path: &str) -> (r: Option<Package>)
        ensures
            r.deep_view() == (match find(
                self@.packages,
                |p: PackageRowView| p.package.root == root@ && p.package.rel_path == rel_path@,
            ) {
                Some(row) => Some(row.package),
                None => None,
            }),
    {
        let i = find_path(&self.packages, root, rel_path);
        if i < self.packages.len() {
            assert(self@.packages[i as int] == self.packages@[i as int]@);
            Some(self.packages[i].package.clone())
        } else {
            None
        }
    }

    /// The package at a path, whatever its root.
    pub fn package_by_rel_path(&self, rel_path: &str) -> (r: Option<Package>)
        ensures
            r.deep_view() == (match find(self@.packages, |p: PackageRowView| p.package.rel_path == rel_path@) {
                Some(row) => Some(row.package),
                None => None,
            }),
    {
        let ghost s = self@.packages;
        let ghost p = |p: PackageRowView| p.package.rel_path == rel_path@;
        let mut i: usize = 0;
        while i < self.packages.len()
            invariant
                i <= self.packages@.len(),
                s == self.packages.deep_view(),
                s == self@.packages,
                p == (|p: PackageRowView| p.package.rel_path == rel_path@),
                forall|j: int| 0 <= j < i ==> !p(#[trigger] s[j]),
            decreases self.packages@.len() - i,
        {
            assert(s[i as int] == self.packages@[i as int]@);
            if same_text(self.packages[i].package.rel_path.as_str(), rel_path) {
                proof {
                    lemma_first_index(s, p, i as int);
                }
                return Some(self.packages[i].package.clone());
            }
            i += 1;
        }
        proof {
            lemma_first_index(s, p, s.len() as int);
        }
        None
    }

    /// How many assets a package has.
    pub fn asset_count(&self, pid: i64) -> (n: i64)
        ensures
            n == self@.assets.filter(|a: AssetRowView| a.package_id == pid).len() as i64,
    {
        let ghost s = self@.assets;
        let ghost p = |a: AssetRowView| a.package_id == pid;
        let mut n: usize = 0;
        let mut i: usize = 0;
        proof {
            lemma_filter_none(s, p);
        }
        while i < self.assets.len()
            invariant
                i <= self.assets@.len(),
                s == self.assets.deep_view(),
                p == (|a: AssetRowView| a.package_id == pid),
                n == s.take(i as int).filter(p).len(),
                n <= i,
            decreases self.assets@.len() - i,
        {
            proof {
                lemma_filter_step(s, p, i as int);
                assert(s[i as int] == self.assets@[i as int]@);
            }
            if self.assets[i].package_id == pid {
                n += 1;
            }
            i += 1;
        }
        assert(s.take(s.len() as int) =~= s);
        n as i64
    }

    pub fn package_by_id(&self, pid: i64) -> (r: Option<Package>)
        ensures
            r.deep_view() == package_with_id(self@, pid),
    {
        match find_row(&self.packages, pid) {
            Some(i) => Some(self.packages[i].package.clone()),
            None => None,
        }
    }

    /// All packages, by publisher and name.
    pub fn packages(&self) -> (r: Vec<Package>)
        ensures
            r.deep_view() == arranged(package_views(self@.packages), by_publisher()),
    {
        let ghost p = |p: PackageView| true;
        let all = self.select_packages(
            (|x: &Package| -> (b: bool)
                ensures
                    b,
                { true }),
            Ghost(p),
        );
        proof {
            orders_are_orders();
            lemma_filter_all(package_views(self@.packages));
        }
        sort_by(
            all,
            &(|a: &Package, b: &Package| -> (c: bool)
                ensures
                    c == by_publisher()(a@, b@),
                {
                    if eq_ignore_case(a.publisher.as_str(), b.publisher.as_str()) {
                        text_folded_at_most(a.name.as_str(), b.name.as_str())
                    } else {
                        text_folded_at_most(a.publisher.as_str(), b.publisher.as_str())
                    }
                }),
            Ghost(by_publisher()),
        )
    }

    /// Matches by exact id, exact name, or case-insensitive substring of name/rel_path/title.
    pub fn find_packages(&self, needle: &str) -> (r: Result<Vec<Package>, StoreError>)
        ensures
            match r {
                Ok(v) => !id_too_large(needle@) && v.deep_view() == packages_meant(self@, needle@),
                Err(e) => e == StoreError::Overflow && id_too_large(needle@),
            },
    {
        let n = trimmed(needle);
        if is_all_digits(n.as_str()) {
            let id: i64 = match parse_u64(n.as_str()) {
                Some(x) => {
                    if x > i64::MAX as u64 {
                        return Err(StoreError::Overflow);
                    }
                    x as i64
                },
                None => {
                    return Err(StoreError::Overflow);
                },
            };
            let mut out: Vec<Package> = Vec::new();
            assert(out.deep_view() =~= Seq::<PackageView>::empty());
            match self.package_by_id(id) {
                Some(p) => {
                    let ghost pv = p@;
                    out.push(p);
                    assert(out.deep_view() =~= seq![pv]);
                },
                None => {},
            }
            return Ok(out);
        }
        let exact = self.select_packages(
            (|x: &Package| -> (b: bool)
                ensures
                    b == same_folded(x@.name, n@),
                { eq_ignore_case(x.name.as_str(), n.as_str()) }),
            Ghost(|p: PackageView| same_folded(p.name, n@)),
        );
        if exact.len() > 0 {
            return Ok(exact);
        }
        let pattern = cat3("%", n.as_str(), "%");
        let rows = self.select_packages(
            (|x: &Package| -> (b: bool)
                ensures
                    b == package_like(x@, holding(n@)),
                { matches_package(x, pattern.as_str()) }),
            Ghost(|p: PackageView| package_like(p, holding(n@))),
        );
        proof {
            orders_are_orders();
        }
        let sorted = sort_by(
            rows,
            &(|a: &Package, b: &Package| -> (c: bool)
                ensures
                    c == by_name()(a@, b@),
                { text_at_most(a.name.as_str(), b.name.as_str()) }),
            Ghost(by_name()),
        );
        Ok(sorted)
    }
}

proof fn lemma_filter_all(s: Seq<PackageView>)
    ensures
        s.filter(|p: PackageView| true) == s,
    decreases s.len(),
{
    reveal(Seq::filter);
    let p = |p: PackageView| true;
    if s.len() == 0 {
        assert(s.filter(p) =~= s);
    } else {
        lemma_filter_all(s.drop_last());
        assert(s.filter(p) =~= s);
    }
}

fn matches_package(p: &Package, pattern: &str) -> (r: bool)
    ensures
        r == package_like(p@, pattern@),
{
    if is_like(pattern, p.name.as_str()) || is_like(pattern, p.rel_path.as_str()) {
        return true;
    }
    match &p.title {
        Some(t) => is_like(pattern, t.as_str()),
        None => false,
    }
}

/// Whether an asset is one of the package asked for.
pub open spec fn in_package(a: AssetRowView, pid: Option<i64>) -> bool {
    match pid {
        Some(p) => a.package_id == p,
        None => true,
    }
}

fn is_in_package(a: &AssetRow, pid: Option<i64>) -> (r: bool)
    ensures
        r == in_package(a@, pid),
{
    match pid {
        Some(p) => a.package_id == p,
        None => true,
    }
}

/// The assets with a guid, by package.
pub open spec fn assets_with_guid(db: DbView, guid: Seq<char>) -> Seq<AssetView> {
    arranged(select_where(db, |a: AssetRowView| a.guid == lower(guid)), by_package())
}

/// The assets at a path, up to ASCII case; by package where no package is given.
pub open spec fn assets_at(db: DbView, path: Seq<char>, pid: Option<i64>) -> Seq<AssetView> {
    let hits = select_where(db, |a: AssetRowView| same_folded(a.path, path) && in_package(a, pid));
    match pid {
        Some(_) => hits,
        None => arranged(hits, by_package()),
    }
}

/// The assets whose path ends in `/` and the suffix: the shortest paths first.
pub open spec fn assets_below(db: DbView, suffix: Seq<char>, pid: Option<i64>, limit: usize) -> Seq<AssetView> {
    let pattern = "%/"@ + trim_front(suffix, Sep::Is('/'));
    page(
        arranged(select_where(db, |a: AssetRowView| like(pattern, a.path) && in_package(a, pid)), by_length()),
        limit as nat,
        0,
    )
}

/// The assets with a file name, up to ASCII case.
pub open spec fn assets_named(db: DbView, name: Seq<char>, pid: Option<i64>, limit: usize) -> Seq<AssetView> {
    page(
        arranged(
            select_where(db, |a: AssetRowView| same_folded(a.name, name) && in_package(a, pid)),
            by_package_path(),
        ),
        limit as nat,
        0,
    )
}

/// The folders of a package at some paths.
pub open spec fn folders_at(db: DbView, pid: i64, dirs: Seq<Seq<char>>) -> Seq<AssetView> {
    select_where(db, |a: AssetRowView| a.package_id == pid && a.is_folder && dirs.contains(a.path))
}

/// The texts between commas, without white space at their ends, empty ones left out.
pub open spec fn comma_list(s: Seq<char>) -> Seq<Seq<char>> {
    filled(pieces(s, Sep::Is(',')).map_values(|p: Seq<char>| trim(p)))
}

/// Whether a path begins with a prefix, `/` at its end left out, and wildcards in it standing for
/// what they stand for.
pub open spec fn under(path: Seq<char>, prefix: Option<Seq<char>>) -> bool {
    match prefix {
        Some(p) => p.len() == 0 || like(trim_back(p, Sep::Is('/')) + "%"@, path),
        None => true,
    }
}

/// Whether a kind is among those asked for.
pub open spec fn kind_listed(kind: Seq<char>, list: Option<Seq<char>>) -> bool {
    match list {
        Some(k) => k.len() == 0 || comma_list(k).contains(kind),
        None => true,
    }
}

/// The assets of a package, by path.
pub open spec fn assets_in(
    db: DbView,
    pid: i64,
    prefix: Option<Seq<char>>,
    kind: Option<Seq<char>>,
    limit: Option<usize>,
) -> Seq<AssetView> {
    limited(
        arranged(
            select_where(
                db,
                |a: AssetRowView|
                    a.package_id == pid && under(a.path, prefix) && kind_listed(a.kind, kind),
            ),
            by_path(),
        ),
        limit,
    )
}

/// The row of an asset.
pub open spec fn asset_row(db: DbView, id: i64) -> Option<AssetRowView> {
    find(db.assets, |a: AssetRowView| a.id == id)
}

/// The guids that an asset refers to, in ascending order.
pub open spec fn refs_from(db: DbView, id: i64) -> Seq<Seq<char>> {
    match asset_row(db, id) {
        Some(a) => crate::sorted::ascending_of(a.refs),
        None => Seq::empty(),
    }
}

/// The assets that refer to a guid.
pub open spec fn referrers_of(db: DbView, guid: Seq<char>, limit: Option<usize>) -> Seq<AssetView> {
    limited(
        arranged(select_where(db, |a: AssetRowView| a.refs.contains(lower(guid))), by_package_name()),
        limit,
    )
}

pub open spec fn text_view(o: Option<&str>) -> Option<Seq<char>> {
    match o {
        Some(s) => Some(s@),
        None => None,
    }
}

proof fn lemma_map_filled(parts: Seq<Seq<char>>, n: int)
    requires
        0 <= n < parts.len(),
    ensures
        filled(parts.take(n + 1)) == (if parts[n].len() > 0 {
            filled(parts.take(n)).push(parts[n])
        } else {
            filled(parts.take(n))
        }),
{
    lemma_filter_step(parts, |p: Seq<char>| p.len() > 0, n);
}

fn split_commas(s: &str) -> (r: Vec<String>)
    ensures
        r.deep_view() == comma_list(s@),
{
    let raw = split(s, Sep::Is(','));
    let ghost f = |p: Seq<char>| trim(p);
    let ghost parts = raw.deep_view().map_values(f);
    let mut out: Vec<String> = Vec::new();
    let mut i: usize = 0;
    proof {
        lemma_filter_none(parts, |p: Seq<char>| p.len() > 0);
        assert(out.deep_view() =~= filled(parts.take(0)));
    }
    while i < raw.len()
        invariant
            i <= raw@.len(),
            f == (|p: Seq<char>| trim(p)),
            parts == raw.deep_view().map_values(f),
            parts.len() == raw@.len(),
            out.deep_view() == filled(parts.take(i as int)),
        decreases raw@.len() - i,
    {
        let t = trimmed(raw[i].as_str());
        proof {
            lemma_map_filled(parts, i as int);
            assert(parts[i as int] == t@);
        }
        if !t.as_str().is_empty() {
            let ghost o0 = out.deep_view();
            let ghost tv = t@;
            out.push(t);
            assert(out.deep_view() =~= o0.push(tv));
        }
        i += 1;
    }
    assert(parts.take(parts.len() as int) =~= parts);
    out
}

/// Whether a text is in a list.
pub fn list_has(list: &Vec<String>, s: &str) -> (r: bool)
    ensures
        r == list.deep_view().contains(s@),
{
    let mut i: usize = 0;
    while i < list.len()
        invariant
            i <= list@.len(),
            forall|k: int| 0 <= k < i ==> #[trigger] list.deep_view()[k] != s@,
        decreases list@.len() - i,
    {
        assert(list.deep_view()[i as int] == list@[i as int]@);
        if same_text(list[i].as_str(), s) {
            return true;
        }
        i += 1;
    }
    false
}

impl Database {
    pub fn asset_by_id(&self, aid: i64) -> (r: Option<Asset>)
        ensures
            r.deep_view() == (match asset_row(self@, aid) {
                Some(a) => Some(asset_of(self@, a)),
                None => None,
            }),
    {
        match self.find_asset(aid) {
            Some(i) => Some(self.asset_at(i)),
            None => None,
        }
    }

    fn find_asset(&self, aid: i64) -> (r: Option<usize>)
        ensures
            match r {
                Some(i) => i < self@.assets.len() && asset_row(self@, aid) == Some(self@.assets[i as int]),
                None => asset_row(self@, aid) is None,
            },
    {
        let ghost s = self@.assets;
        let ghost p = |a: AssetRowView| a.id == aid;
        proof {
            use_type_invariant(self);
        }
        let mut lo: usize = 0;
        let mut hi: usize = self.assets.len();
        while lo < hi
            invariant
                lo <= hi <= self.assets@.len(),
                s == self@.assets,
                s == self.assets.deep_view(),
                assets_in_order(s),
                forall|j: int| 0 <= j < lo ==> (#[trigger] s[j]).id < aid,
                forall|j: int| hi <= j < s.len() ==> (#[trigger] s[j]).id >= aid,
            decreases hi - lo,
        {
            let mid: usize = lo + (hi - lo) / 2;
            assert(s[mid as int] == self.assets@[mid as int]@);
            if self.assets[mid].id < aid {
                proof {
                    assert forall|j: int| 0 <= j < mid + 1 implies (#[trigger] s[j]).id < aid by {
                        if j < mid {
                            assert(s[j].id < s[mid as int].id);
                        }
                    }
                }
                lo = mid + 1;
            } else {
                proof {
                    assert forall|j: int| mid <= j < s.len() implies (#[trigger] s[j]).id >= aid by {
                        if j > mid {
                            assert(s[mid as int].id < s[j].id);
                        }
                    }
                }
                hi = mid;
            }
        }
        if lo < self.assets.len() && self.assets[lo].id == aid {
            proof {
                assert(s[lo as int] == self.assets@[lo as int]@);
                lemma_first_index(s, p, lo as int);
            }
            Some(lo)
        } else {
            proof {
                assert forall|j: int| 0 <= j < s.len() implies !p(#[trigger] s[j]) by {
                    if j == lo {
                        assert(s[j] == self.assets@[j]@);
                    } else if j > lo {
                        assert(s[lo as int].id < s[j].id);
                        assert(s[lo as int] == self.assets@[lo as int]@);
                    }
                }
                lemma_first_index(s, p, s.len() as int);
            }
            None
        }
    }

    pub fn assets_by_guid(&self, guid: &str) -> (r: Vec<Asset>)
        ensures
            r.deep_view() == assets_with_guid(self@, guid@),
    {
        let g = to_lower(guid);
        let hits = self.select(
            (|a: &AssetRow| -> (b: bool)
                ensures
                    b == (a@.guid == g@),
                { same_text(a.guid.as_str(), g.as_str()) }),
            Ghost(|a: AssetRowView| a.guid == g@),
        );
        proof {
            assert(g@ == lower(guid@));
        }
        self.order_by_package(hits)
    }

    fn order_by_package(&self, v: Vec<Asset>) -> (r: Vec<Asset>)
        ensures
            r.deep_view() == arranged(v.deep_view(), by_package()),
    {
        proof {
            orders_are_orders();
        }
        sort_by(
            v,
            &(|a: &Asset, b: &Asset| -> (c: bool)
                ensures
                    c == by_package()(a@, b@),
                { a.package_id <= b.package_id }),
            Ghost(by_package()),
        )
    }

    pub fn assets_by_path(&self, path: &str, package_id: Option<i64>) -> (r: Vec<Asset>)
        ensures
            r.deep_view() == assets_at(self@, path@, package_id),
    {
        let hits = self.select(
            (|a: &AssetRow| -> (b: bool)
                ensures
                    b == (same_folded(a@.path, path@) && in_package(a@, package_id)),
                { is_in_package(a, package_id) && eq_ignore_case(a.path.as_str(), path) }),
            Ghost(|a: AssetRowView| same_folded(a.path, path@) && in_package(a, package_id)),
        );
        match package_id {
            Some(_) => hits,
            None => self.order_by_package(hits),
        }
    }

    pub fn assets_by_path_suffix(&self, suffix: &str, package_id: Option<i64>, limit: usize) -> (r: Vec<Asset>)
        ensures
            r.deep_view() == assets_below(self@, suffix@, package_id, limit),
    {
        let rest = cut_front(suffix, Sep::Is('/'));
        let pattern = cat("%/", rest.as_str());
        let hits = self.select(
            (|a: &AssetRow| -> (b: bool)
                ensures
                    b == (like(pattern@, a@.path) && in_package(a@, package_id)),
                { is_in_package(a, package_id) && is_like(pattern.as_str(), a.path.as_str()) }),
            Ghost(|a: AssetRowView| like(pattern@, a.path) && in_package(a, package_id)),
        );
        proof {
            orders_are_orders();
        }
        let sorted = sort_by(
            hits,
            &(|a: &Asset, b: &Asset| -> (c: bool)
                ensures
                    c == by_length()(a@, b@),
                {
                    let x: usize = text_len(a.path.as_str());
                    let y: usize = text_len(b.path.as_str());
                    if x != y {
                        x <= y
                    } else {
                        a.package_id <= b.package_id
                    }
                }),
            Ghost(by_length()),
        );
        take_page(sorted, limit, 0)
    }

    pub fn assets_by_name(&self, name: &str, package_id: Option<i64>, limit: usize) -> (r: Vec<Asset>)
        ensures
            r.deep_view() == assets_named(self@, name@, package_id, limit),
    {
        let hits = self.select(
            (|a: &AssetRow| -> (b: bool)
                ensures
                    b == (same_folded(a@.name, name@) && in_package(a@, package_id)),
                { is_in_package(a, package_id) && eq_ignore_case(a.name.as_str(), name) }),
            Ghost(|a: AssetRowView| same_folded(a.name, name@) && in_package(a, package_id)),
        );
        proof {
            orders_are_orders();
        }
        let sorted = sort_by(
            hits,
            &(|a: &Asset, b: &Asset| -> (c: bool)
                ensures
                    c == by_package_path()(a@, b@),
                {
                    if a.package_id != b.package_id {
                        a.package_id <= b.package_id
                    } else {
                        text_at_most(a.path.as_str(), b.path.as_str())
                    }
                }),
            Ghost(by_package_path()),
        );
        take_page(sorted, limit, 0)
    }

    /// The folders of a package at some paths.
    pub fn folder_assets_for_paths(&self, package_id: i64, dir_paths: &Vec<String>) -> (r: Vec<Asset>)
        ensures
            r.deep_view() == folders_at(self@, package_id, dir_paths.deep_view()),
    {
        self.select(
            (|a: &AssetRow| -> (b: bool)
                ensures
                    b == (a@.package_id == package_id && a@.is_folder && dir_paths.deep_view().contains(
                        a@.path,
                    )),
                { a.package_id == package_id && a.is_folder && list_has(dir_paths, a.path.as_str()) }),
            Ghost(
                |a: AssetRowView|
                    a.package_id == package_id && a.is_folder && dir_paths.deep_view().contains(a.path),
            ),
        )
    }

    pub fn list_package_assets(
        &self,
        package_id: i64,
        prefix: Option<&str>,
        kind: Option<&str>,
        limit: Option<usize>,
    ) -> (r: Vec<Asset>)
        ensures
            r.deep_view() == assets_in(self@, package_id, text_view(prefix), text_view(kind), limit),
    {
        let any_path = match prefix {
            Some(p) => p.is_empty(),
            None => true,
        };
        let pattern = match prefix {
            Some(p) => {
                let t = crate::text::cut_back(p, Sep::Is('/'));
                cat(t.as_str(), "%")
            },
            None => String::new(),
        };
        let any_kind = match kind {
            Some(k) => k.is_empty(),
            None => true,
        };
        let kinds = match kind {
            Some(k) => split_commas(k),
            None => Vec::new(),
        };
        let ghost p = |a: AssetRowView|
            a.package_id == package_id && under(a.path, text_view(prefix)) && kind_listed(
                a.kind,
                text_view(kind),
            );
        let hits = self.select(
            (|a: &AssetRow| -> (b: bool)
                ensures
                    b == (a@.package_id == package_id && under(a@.path, text_view(prefix)) && kind_listed(
                        a@.kind,
                        text_view(kind),
                    )),
                {
                    a.package_id == package_id && (any_path || is_like(pattern.as_str(), a.path.as_str())) && (
                    any_kind || list_has(&kinds, a.kind.as_str()))
                }),
            Ghost(p),
        );
        proof {
            orders_are_orders();
        }
        let sorted = sort_by(
            hits,
            &(|a: &Asset, b: &Asset| -> (c: bool)
                ensures
                    c == by_path()(a@, b@),
                { text_at_most(a.path.as_str(), b.path.as_str()) }),
            Ghost(by_path()),
        );
        take_limited(sorted, limit)
    }

    /// The guids that an asset refers to, in ascending order.
    pub fn refs_of(&self, asset_id: i64) -> (r: Vec<String>)
        ensures
            r.deep_view() == refs_from(self@, asset_id),
    {
        match self.find_asset(asset_id) {
            Some(i) => {
                assert(self@.assets[i as int] == self.assets@[i as int]@);
                self.assets[i].refs.to_vec()
            },
            None => {
                let r: Vec<String> = Vec::new();
                assert(r.deep_view() =~= Seq::<Seq<char>>::empty());
                r
            },
        }
    }

    /// The assets that refer to a guid, by package name and path.
    pub fn referrers(&self, guid: &str, limit: Option<usize>) -> (r: Vec<Asset>)
        ensures
            r.deep_view() == referrers_of(self@, guid@, limit),
    {
        let g = to_lower(guid);
        let hits = self.select(
            (|a: &AssetRow| -> (b: bool)
                ensures
                    b == a@.refs.contains(g@),
                { a.refs.contains(g.as_str()) }),
            Ghost(|a: AssetRowView| a.refs.contains(g@)),
        );
        let sorted = self.order_by_package_name(hits);
        take_limited(sorted, limit)
    }

    fn order_by_package_name(&self, v: Vec<Asset>) -> (r: Vec<Asset>)
        ensures
            r.deep_view() == arranged(v.deep_view(), by_package_name()),
    {
        proof {
            orders_are_orders();
        }
        sort_by(
            v,
            &(|a: &Asset, b: &Asset| -> (c: bool)
                ensures
                    c == by_package_name()(a@, b@),
                {
                    if !same_text(a.package.as_str(), b.package.as_str()) {
                        text_at_most(a.package.as_str(), b.package.as_str())
                    } else {
                        text_at_most(a.path.as_str(), b.path.as_str())
                    }
                }),
            Ghost(by_package_name()),
        )
    }
}

/// The number of characters of a text.
pub fn text_len(s: &str) -> (n: usize)
    ensures
        n == s@.len(),
{
    crate::text::chars_of(s).len()
}

// ----- counts --------------------------------------------------------------------------------

/// The sum, where it and every sum on the way to it fits.
pub open spec fn exact_sum(s: Seq<i64>) -> Option<i64>
    decreases s.len(),
{
    if s.len() == 0 {
        Some(0)
    } else {
        match exact_sum(s.drop_last()) {
            Some(x) => if i64::MIN <= x + s.last() <= i64::MAX {
                Some((x + s.last()) as i64)
            } else {
                None
            },
            None => None,
        }
    }
}

pub open spec fn row_sizes(s: Seq<AssetRowView>) -> Seq<i64> {
    s.map_values(|a: AssetRowView| a.size)
}

/// The assets of one kind, of a package where one is given.
pub open spec fn of_kind(db: DbView, pid: Option<i64>, kind: Seq<char>) -> Seq<AssetRowView> {
    db.assets.filter(|a: AssetRowView| in_package(a, pid) && a.kind == kind)
}

/// The kinds that occur.
pub open spec fn kinds_in(db: DbView, pid: Option<i64>) -> Set<Seq<char>> {
    Set::new(
        |k: Seq<char>|
            exists|i: int|
                0 <= i < db.assets.len() && in_package(#[trigger] db.assets[i], pid) && db.assets[i].kind == k,
    )
}

/// How many assets of a kind there are, and their bytes.
pub open spec fn count_of(db: DbView, pid: Option<i64>, kind: Seq<char>) -> KindCountView {
    KindCountView {
        kind,
        n: of_kind(db, pid, kind).len() as i64,
        bytes: exact_sum(row_sizes(of_kind(db, pid, kind)))->0,
    }
}

/// The order by number, the largest first.
pub open spec fn by_count() -> spec_fn(KindCountView, KindCountView) -> bool {
    |a: KindCountView, b: KindCountView| b.n <= a.n
}

/// The kinds that occur, with their numbers: the most frequent first.
pub open spec fn counts(db: DbView, pid: Option<i64>) -> Seq<KindCountView> {
    arranged(
        crate::sorted::ascending_of(kinds_in(db, pid)).map_values(|k: Seq<char>| count_of(db, pid, k)),
        by_count(),
    )
}

/// Whether the bytes of some kind are too many to add up.
pub open spec fn counts_overflow(db: DbView, pid: Option<i64>) -> bool {
    exists|k: Seq<char>|
        kinds_in(db, pid).contains(k) && exact_sum(row_sizes(#[trigger] of_kind(db, pid, k))) is None
}

pub open spec fn publisher_set(db: DbView) -> Set<Seq<char>> {
    Set::new(
        |p: Seq<char>|
            p.len() > 0 && exists|i: int|
                0 <= i < db.packages.len() && (#[trigger] db.packages[i]).package.publisher == p,
    )
}

/// The publishers, by name up to ASCII case.
pub open spec fn publishers_of(db: DbView) -> Seq<Seq<char>> {
    arranged(
        crate::sorted::ascending_of(publisher_set(db)),
        |a: Seq<char>, b: Seq<char>| folded_at_most(a, b),
    )
}

/// How many references there are.
pub open spec fn ref_count(s: Seq<AssetRowView>) -> nat
    decreases s.len(),
{
    if s.len() == 0 {
        0
    } else {
        ref_count(s.drop_last()) + s.last().refs.len()
    }
}

/// The size of the index.
pub open spec fn stats_of(db: DbView) -> StatsView {
    StatsView {
        packages: db.packages.len() as i64,
        assets: db.assets.len() as i64,
        refs: ref_count(db.assets) as i64,
        bytes: exact_sum(row_sizes(db.assets))->0,
        previews: db.previews.dom().len() as i64,
        fts: db.has_fts,
        db: db.path,
    }
}

pub(crate) proof fn lemma_by_count()
    ensures
        orders(by_count()),
{
}

pub(crate) proof fn lemma_by_folded()
    ensures
        orders(|a: Seq<char>, b: Seq<char>| folded_at_most(a, b)),
{
    let leq = |a: Seq<char>, b: Seq<char>| folded_at_most(a, b);
    assert forall|a: Seq<char>, b: Seq<char>| #[trigger] leq(a, b) || leq(b, a) by {
        at_most_is_total(lower(a), lower(b));
    }
    assert forall|a: Seq<char>, b: Seq<char>, c: Seq<char>| #[trigger]
        leq(a, b) && #[trigger] leq(b, c) implies leq(a, c) by {
        at_most_is_transitive(lower(a), lower(b), lower(c));
    }
}

impl Database {
    fn count_kind(&self, pid: Option<i64>, kind: &str) -> (r: Option<KindCount>)
        ensures
            match r {
                Some(c) => c@ == count_of(self@, pid, kind@) && exact_sum(
                    row_sizes(of_kind(self@, pid, kind@)),
                ) is Some,
                None => exact_sum(row_sizes(of_kind(self@, pid, kind@))) is None,
            },
    {
        let ghost s = self@.assets;
        let ghost p = |a: AssetRowView| in_package(a, pid) && a.kind == kind@;
        let mut n: usize = 0;
        let mut bytes: Option<i64> = Some(0);
        let mut i: usize = 0;
        proof {
            lemma_filter_none(s, p);
            assert(row_sizes(s.take(0).filter(p)) =~= Seq::<i64>::empty());
        }
        while i < self.assets.len()
            invariant
                i <= self.assets@.len(),
                s == self.assets.deep_view(),
                p == (|a: AssetRowView| in_package(a, pid) && a.kind == kind@),
                n == s.take(i as int).filter(p).len(),
                n <= i,
                bytes == exact_sum(row_sizes(s.take(i as int).filter(p))),
            decreases self.assets@.len() - i,
        {
            proof {
                lemma_filter_step(s, p, i as int);
                assert(s[i as int] == self.assets@[i as int]@);
                let f = s.take(i as int).filter(p);
                let g = f.push(s[i as int]);
                assert(row_sizes(g).drop_last() =~= row_sizes(f));
                assert(row_sizes(g).last() == s[i as int].size);
            }
            if is_in_package(&self.assets[i], pid) && same_text(self.assets[i].kind.as_str(), kind) {
                n += 1;
                bytes = match bytes {
                    Some(x) => x.checked_add(self.assets[i].size),
                    None => None,
                };
            }
            i += 1;
        }
        assert(s.take(s.len() as int) =~= s);
        match bytes {
            Some(b) => Some(KindCount { kind: kind.to_string(), n: n as i64, bytes: b }),
            None => None,
        }
    }

    fn kind_set(&self, pid: Option<i64>) -> (r: TextSet)
        ensures
            r@ == kinds_in(self@, pid),
    {
        let ghost s = self@.assets;
        let mut out = TextSet::new();
        let mut i: usize = 0;
        while i < self.assets.len()
            invariant
                i <= self.assets@.len(),
                s == self.assets.deep_view(),
                forall|k: Seq<char>|
                    out@.contains(k) <==> exists|j: int|
                        0 <= j < i && in_package(#[trigger] s[j], pid) && s[j].kind == k,
            decreases self.assets@.len() - i,
        {
            let ghost o0 = out@;
            assert(s[i as int] == self.assets@[i as int]@);
            if is_in_package(&self.assets[i], pid) && !out.contains(self.assets[i].kind.as_str()) {
                out.insert(self.assets[i].kind.clone());
            }
            proof {
                assert forall|k: Seq<char>| out@.contains(k) <==> exists|j: int|
                    0 <= j < i + 1 && in_package(#[trigger] s[j], pid) && s[j].kind == k by {
                    if o0.contains(k) {
                        let j = choose|j: int| 0 <= j < i && in_package(#[trigger] s[j], pid) && s[j].kind == k;
                        assert(in_package(s[j], pid) && s[j].kind == k);
                    }
                    if in_package(s[i as int], pid) && s[i as int].kind == k {
                        assert(out@.contains(k));
                    }
                }
            }
            i += 1;
        }
        assert(out@ =~= kinds_in(self@, pid));
        out
    }

    /// The kinds of assets with their numbers and bytes, the most frequent first.
    pub fn kind_counts(&self, package_id: Option<i64>) -> (r: Result<Vec<KindCount>, StoreError>)
        ensures
            match r {
                Ok(v) => v.deep_view() == counts(self@, package_id) && !counts_overflow(self@, package_id),
                Err(e) => e == StoreError::Overflow && counts_overflow(self@, package_id),
            },
    {
        let set = self.kind_set(package_id);
        let kinds = set.to_vec();
        let ghost ks = kinds.deep_view();
        let ghost f = |k: Seq<char>| count_of(self@, package_id, k);
        let mut out: Vec<KindCount> = Vec::new();
        let mut i: usize = 0;
        assert(out.deep_view() =~= ks.take(0).map_values(f));
        while i < kinds.len()
            invariant
                i <= kinds@.len(),
                ks == kinds.deep_view(),
                f == (|k: Seq<char>| count_of(self@, package_id, k)),
                ks.to_set() == kinds_in(self@, package_id),
                out.deep_view() == ks.take(i as int).map_values(f),
                forall|j: int|
                    0 <= j < i ==> exact_sum(row_sizes(of_kind(self@, package_id, #[trigger] ks[j]))) is Some,
            decreases kinds@.len() - i,
        {
            assert(ks[i as int] == kinds@[i as int]@);
            match self.count_kind(package_id, kinds[i].as_str()) {
                Some(c) => {
                    let ghost o0 = out.deep_view();
                    let ghost cv = c@;
                    out.push(c);
                    assert(out.deep_view() =~= o0.push(cv));
                    assert(out.deep_view() =~= ks.take(i + 1).map_values(f));
                },
                None => {
                    assert(ks.to_set().contains(ks[i as int]));
                    assert(exact_sum(row_sizes(of_kind(self@, package_id, ks[i as int]))) is None);
                    return Err(StoreError::Overflow);
                },
            }
            i += 1;
        }
        proof {
            assert(ks.take(ks.len() as int) =~= ks);
            lemma_by_count();
            if counts_overflow(self@, package_id) {
                let k = choose|k: Seq<char>|
                    kinds_in(self@, package_id).contains(k) && exact_sum(
                        row_sizes(#[trigger] of_kind(self@, package_id, k)),
                    ) is None;
                assert(ks.to_set().contains(k));
                let j = choose|j: int| 0 <= j < ks.len() && ks[j] == k;
                assert(exact_sum(row_sizes(of_kind(self@, package_id, ks[j]))) is Some);
            }
        }
        let sorted = sort_by(
            out,
            &(|a: &KindCount, b: &KindCount| -> (c: bool)
                ensures
                    c == by_count()(a@, b@),
                { b.n <= a.n }),
            Ghost(by_count()),
        );
        Ok(sorted)
    }

    /// The publishers, each once, by name.
    pub fn publishers(&self) -> (r: Vec<String>)
        ensures
            r.deep_view() == publishers_of(self@),
    {
        let ghost s = self@.packages;
        let mut set = TextSet::new();
        let mut i: usize = 0;
        while i < self.packages.len()
            invariant
                i <= self.packages@.len(),
                s == self.packages.deep_view(),
                forall|p: Seq<char>|
                    set@.contains(p) <==> p.len() > 0 && exists|j: int|
                        0 <= j < i && (#[trigger] s[j]).package.publisher == p,
            decreases self.packages@.len() - i,
        {
            let ghost s0 = set@;
            assert(s[i as int] == self.packages@[i as int]@);
            if !self.packages[i].package.publisher.as_str().is_empty() {
                set.insert(self.packages[i].package.publisher.clone());
            }
            proof {
                assert forall|p: Seq<char>| set@.contains(p) <==> p.len() > 0 && exists|j: int|
                    0 <= j < i + 1 && (#[trigger] s[j]).package.publisher == p by {
                    if s0.contains(p) {
                        let j = choose|j: int| 0 <= j < i && (#[trigger] s[j]).package.publisher == p;
                        assert(s[j].package.publisher == p);
                    }
                    if s[i as int].package.publisher == p {
                        assert(p.len() > 0 ==> set@.contains(p));
                    }
                }
            }
            i += 1;
        }
        assert(set@ =~= publisher_set(self@));
        let names = set.to_vec();
        proof {
            lemma_by_folded();
        }
        sort_by(
            names,
            &(|a: &String, b: &String| -> (c: bool)
                ensures
                    c == folded_at_most(a@, b@),
                { text_folded_at_most(a.as_str(), b.as_str()) }),
            Ghost(|a: Seq<char>, b: Seq<char>| folded_at_most(a, b)),
        )
    }

    /// How large the index is; an error where the bytes are too many to add up.
    pub fn stats(&self) -> (r: Result<Stats, StoreError>)
        ensures
            match r {
                Ok(s) => s@ == stats_of(self@) && exact_sum(row_sizes(self@.assets)) is Some,
                Err(e) => e == StoreError::Overflow && exact_sum(row_sizes(self@.assets)) is None,
            },
    {
        let ghost s = self@.assets;
        let mut bytes: i64 = 0;
        let mut refs: u128 = 0;
        let mut i: usize = 0;
        proof {
            assert(row_sizes(s.take(0)) =~= Seq::<i64>::empty());
            assert(s.take(0) =~= Seq::<AssetRowView>::empty());
        }
        while i < self.assets.len()
            invariant
                i <= self.assets@.len(),
                s == self.assets.deep_view(),
                s == self@.assets,
                Some(bytes) == exact_sum(row_sizes(s.take(i as int))),
                refs == ref_count(s.take(i as int)),
                refs <= i * 0x1_0000_0000_0000_0000,
            decreases self.assets@.len() - i,
        {
            proof {
                assert(s[i as int] == self.assets@[i as int]@);
                assert(s.take(i + 1).drop_last() =~= s.take(i as int));
                assert(s.take(i + 1).last() == s[i as int]);
                assert(row_sizes(s.take(i + 1)).drop_last() =~= row_sizes(s.take(i as int)));
                assert(row_sizes(s.take(i + 1)).last() == s[i as int].size);
                assert(i < 0x1_0000_0000_0000_0000);
                assert(i * 0x1_0000_0000_0000_0000 + 0x1_0000_0000_0000_0000 <= 0x1_0000_0000_0000_0000 * 0x1_0000_0000_0000_0000)
                    by (nonlinear_arith)
                    requires
                        i + 1 <= 0x1_0000_0000_0000_0000,
                ;
            }
            match bytes.checked_add(self.assets[i].size) {
                Some(b) => {
                    bytes = b;
                },
                None => {
                    proof {
                        assert(row_sizes(s).take(i + 1) =~= row_sizes(s.take(i + 1)));
                        lemma_sum_stays_none(row_sizes(s), i + 1);
                    }
                    return Err(StoreError::Overflow);
                },
            }
            let k: usize = self.assets[i].refs.len();
            refs = refs + k as u128;
            i += 1;
        }
        proof {
            assert(s.take(s.len() as int) =~= s);
        }
        Ok(
            Stats {
                packages: self.packages.len() as i64,
                assets: self.assets.len() as i64,
                refs: refs as i64,
                bytes,
                previews: self.preview_count(),
                fts: self.has_fts,
                db: self.path.clone(),
            },
        )
    }
}

proof fn lemma_sum_stays_none(s: Seq<i64>, n: int)
    requires
        0 <= n <= s.len(),
        exact_sum(s.take(n)) is None,
    ensures
        exact_sum(s) is None,
    decreases s.len() - n,
{
    if n < s.len() {
        assert(s.take(n + 1).drop_last() =~= s.take(n));
        lemma_sum_stays_none(s, n + 1);
    } else {
        assert(s.take(n) =~= s);
    }
}

// ----- stored labels -------------------------------------------------------------------------

/// How labels are stored: as a JSON list, or not at all.
pub open spec fn stored_labels(labels: Seq<Seq<char>>) -> Option<Seq<char>> {
    if labels.len() == 0 {
        None
    } else {
        Some(json_list_text_of(labels))
    }
}

/// The labels that a stored text stands for.
pub open spec fn labels_from(stored: Option<Seq<char>>) -> Seq<Seq<char>> {
    match stored {
        Some(t) => match json_list_of(t) {
            Some(l) => l,
            None => Seq::empty(),
        },
        None => Seq::empty(),
    }
}

/// The stored form of labels, which reads back as those labels.
pub fn labels_to_store(labels: &Vec<String>) -> (r: Option<String>)
    ensures
        r.deep_view() == stored_labels(labels.deep_view()),
        labels_from(r.deep_view()) == labels.deep_view(),
{
    if labels.len() == 0 {
        assert(labels.deep_view() =~= Seq::<Seq<char>>::empty());
        None
    } else {
        Some(json_list_text(labels))
    }
}

/// The labels that a stored text stands for.
pub fn labels_from_store(stored: Option<&str>) -> (r: Vec<String>)
    ensures
        r.deep_view() == labels_from(text_view(stored)),
{
    let empty: Vec<String> = Vec::new();
    assert(empty.deep_view() =~= Seq::<Seq<char>>::empty());
    match stored {
        Some(t) => match json_list(t) {
            Some(l) => l,
            None => empty,
        },
        None => empty,
    }
}

// ----- search --------------------------------------------------------------------------------

/// A filter that says something.
pub open spec fn said(o: Option<Seq<char>>) -> Option<Seq<char>> {
    match o {
        Some(s) => if trim(s).len() > 0 {
            Some(s)
        } else {
            None
        },
        None => None,
    }
}

/// Whether a package is one of those asked for: by id where the filter is a number, else by what
/// its name, path or title holds.
pub open spec fn package_wanted(p: PackageView, filter: Option<Seq<char>>) -> bool {
    match said(filter) {
        Some(s) => if all_digits(s) {
            number_of(s) == p.id
        } else {
            package_like(p, holding(trim(s)))
        },
        None => true,
    }
}

/// Whether the publisher of a package is asked for.
pub open spec fn publisher_wanted(p: PackageView, filter: Option<Seq<char>>) -> bool {
    match said(filter) {
        Some(s) => like(holding(trim(s)), p.publisher),
        None => true,
    }
}

/// Whether the kind of an asset is asked for.
pub open spec fn kind_wanted(a: AssetRowView, filter: Option<Seq<char>>) -> bool {
    match said(filter) {
        Some(s) => comma_list(s).contains(a.kind),
        None => true,
    }
}

/// Whether the extension of an asset is asked for.
pub open spec fn ext_wanted(a: AssetRowView, filter: Option<Seq<char>>) -> bool {
    match said(filter) {
        Some(s) => same_folded(a.ext, trim_front(trim(s), Sep::Is('.'))),
        None => true,
    }
}

/// Whether an asset passes the filters of a query.
pub open spec fn passes(db: DbView, q: SearchQueryView, a: AssetRowView) -> bool {
    &&& kind_wanted(a, q.kind)
    &&& ext_wanted(a, q.ext)
    &&& package_wanted(package_with_id(db, a.package_id)->0, q.package)
    &&& publisher_wanted(package_with_id(db, a.package_id)->0, q.publisher)
    &&& q.include_folders || !a.is_folder
}

/// Whether every word stands somewhere in the path.
pub open spec fn path_holds(path: Seq<char>, ws: Seq<Seq<char>>) -> bool {
    forall|i: int| 0 <= i < ws.len() ==> like(holding(#[trigger] ws[i]), path)
}

/// The assets that full-text search found, in its order, as far as they pass the filters.
pub open spec fn ranked_hits(db: DbView, q: SearchQueryView, ranked: Seq<i64>) -> Seq<AssetView>
    decreases ranked.len(),
{
    if ranked.len() == 0 {
        Seq::empty()
    } else {
        let front = ranked_hits(db, q, ranked.drop_last());
        match asset_row(db, ranked.last()) {
            Some(a) => if passes(db, q, a) {
                front.push(asset_of(db, a))
            } else {
                front
            },
            None => front,
        }
    }
}

/// How many hits are given at most.
pub open spec fn search_limit(q: SearchQueryView) -> nat {
    if q.limit > 0 {
        q.limit as nat
    } else {
        1
    }
}

/// The assets without a query: all that pass the filters, by package name and path.
pub open spec fn browse_hits(db: DbView, q: SearchQueryView) -> Seq<AssetView> {
    page(
        arranged(select_where(db, |a: AssetRowView| passes(db, q, a)), by_package_name()),
        search_limit(q),
        q.offset as nat,
    )
}

/// The assets whose path holds every word, the shortest paths first.
pub open spec fn path_hits(db: DbView, q: SearchQueryView) -> Seq<AssetView> {
    let ws = words(trim(q.query));
    page(
        arranged(
            select_where(db, |a: AssetRowView| path_holds(a.path, ws) && passes(db, q, a)),
            by_length_path(),
        ),
        search_limit(q),
        q.offset as nat,
    )
}

/// What a search gives, `ranked` being what full-text search found, best first: without a query all
/// assets; with one what full-text search found; where that is nothing, what the paths hold.
pub open spec fn search_hits(db: DbView, q: SearchQueryView, ranked: Seq<i64>) -> Seq<AssetView> {
    if trim(q.query).len() == 0 {
        browse_hits(db, q)
    } else {
        let hits = page(ranked_hits(db, q, ranked), search_limit(q), q.offset as nat);
        if db.has_fts && fts_text(trim(q.query)).len() > 0 && hits.len() > 0 {
            hits
        } else {
            path_hits(db, q)
        }
    }
}

/// The full-text query of a search, where there is one.
pub open spec fn fts_wanted(db: DbView, q: SearchQueryView) -> Option<Seq<char>> {
    if db.has_fts && trim(q.query).len() > 0 && fts_text(trim(q.query)).len() > 0 {
        Some(fts_text(trim(q.query)))
    } else {
        None
    }
}

/// The texts by which full-text search finds an asset.
#[derive(Debug)]
pub struct SearchText {
    pub name: String,
    pub path: String,
    pub tokens: String,
    pub package: String,
    pub publisher: String,
    pub labels: String,
}

/// What a [`SearchText`] holds.
#[verifier::ext_equal]
pub struct SearchTextView {
    pub name: Seq<char>,
    pub path: Seq<char>,
    pub tokens: Seq<char>,
    pub package: Seq<char>,
    pub publisher: Seq<char>,
    pub labels: Seq<char>,
}

impl View for SearchText {
    type V = SearchTextView;

    open spec fn view(&self) -> SearchTextView {
        SearchTextView {
            name: self.name@,
            path: self.path@,
            tokens: self.tokens@,
            package: self.package@,
            publisher: self.publisher@,
            labels: self.labels@,
        }
    }
}

/// The texts of an asset of a package: the package goes by its name and its title.
pub open spec fn search_text_of(a: AssetRowView, p: PackageView) -> SearchTextView {
    SearchTextView {
        name: a.name,
        path: a.path,
        tokens: token_text(a.path, a.kind, a.ext, a.main_class),
        package: p.name + " "@ + (match p.title {
            Some(t) => t,
            None => Seq::empty(),
        }),
        publisher: p.publisher,
        labels: glue(a.labels, " "@),
    }
}

pub fn search_text(a: &AssetRow, p: &Package) -> (r: SearchText)
    ensures
        r@ == search_text_of(a@, p@),
{
    let title: &str = match &p.title {
        Some(t) => t.as_str(),
        None => "",
    };
    let main_class: Option<&str> = match &a.main_class {
        Some(c) => Some(c.as_str()),
        None => None,
    };
    proof {
        reveal_strlit("");
        assert(""@ =~= Seq::<char>::empty());
    }
    SearchText {
        name: a.name.clone(),
        path: a.path.clone(),
        tokens: tokens_for(a.path.as_str(), a.kind.as_str(), a.ext.as_str(), main_class),
        package: cat3(p.name.as_str(), " ", title),
        publisher: p.publisher.clone(),
        labels: join(&a.labels, " "),
    }
}

fn filter_said(o: &Option<String>) -> (r: Option<String>)
    ensures
        r.deep_view() == said(o.deep_view()),
{
    match o {
        Some(s) => {
            let t = trimmed(s.as_str());
            if t.as_str().is_empty() {
                None
            } else {
                Some(s.clone())
            }
        },
        None => None,
    }
}

fn wants_package(p: &Package, filter: &Option<String>) -> (r: bool)
    ensures
        r == package_wanted(p@, filter.deep_view()),
{
    match filter_said(filter) {
        Some(s) => {
            if is_all_digits(s.as_str()) {
                match parse_u64(s.as_str()) {
                    Some(n) => p.id >= 0 && p.id as u64 == n,
                    None => false,
                }
            } else {
                let t = trimmed(s.as_str());
                let pattern = cat3("%", t.as_str(), "%");
                matches_package(p, pattern.as_str())
            }
        },
        None => true,
    }
}

fn wants_publisher(p: &Package, filter: &Option<String>) -> (r: bool)
    ensures
        r == publisher_wanted(p@, filter.deep_view()),
{
    match filter_said(filter) {
        Some(s) => {
            let t = trimmed(s.as_str());
            let pattern = cat3("%", t.as_str(), "%");
            is_like(pattern.as_str(), p.publisher.as_str())
        },
        None => true,
    }
}

fn wants_kind(a: &AssetRow, filter: &Option<String>) -> (r: bool)
    ensures
        r == kind_wanted(a@, filter.deep_view()),
{
    match filter_said(filter) {
        Some(s) => {
            let kinds = split_commas(s.as_str());
            list_has(&kinds, a.kind.as_str())
        },
        None => true,
    }
}

fn wants_ext(a: &AssetRow, filter: &Option<String>) -> (r: bool)
    ensures
        r == ext_wanted(a@, filter.deep_view()),
{
    match filter_said(filter) {
        Some(s) => {
            let t = trimmed(s.as_str());
            let e = cut_front(t.as_str(), Sep::Is('.'));
            eq_ignore_case(a.ext.as_str(), e.as_str())
        },
        None => true,
    }
}

fn holds_words(path: &str, ws: &Vec<String>) -> (r: bool)
    ensures
        r == path_holds(path@, ws.deep_view()),
{
    let mut i: usize = 0;
    while i < ws.len()
        invariant
            i <= ws@.len(),
            forall|k: int| 0 <= k < i ==> like(holding(#[trigger] ws.deep_view()[k]), path@),
        decreases ws@.len() - i,
    {
        assert(ws.deep_view()[i as int] == ws@[i as int]@);
        let pattern = cat3("%", ws[i].as_str(), "%");
        if !is_like(pattern.as_str(), path) {
            return false;
        }
        i += 1;
    }
    true
}

impl Database {
    fn passes_filters(&self, q: &SearchQuery, a: &AssetRow) -> (r: bool)
        requires
            has_package(self@.packages, a@.package_id),
        ensures
            r == passes(self@, q@, a@),
    {
        proof {
            lemma_package_there(self@.packages, a@.package_id);
        }
        if !q.include_folders && a.is_folder {
            return false;
        }
        let k = match find_row(&self.packages, a.package_id) {
            Some(k) => k,
            None => 0,
        };
        let p = &self.packages[k].package;
        wants_package(p, &q.package) && wants_publisher(p, &q.publisher) && wants_kind(a, &q.kind) && wants_ext(
            a,
            &q.ext,
        )
    }

    /// Turns free text into a full-text query: every word (and every camelCase/underscore piece)
    /// prefix-matched.
    pub fn fts_query(q: &str) -> (r: String)
        ensures
            r@ == fts_text(q@),
    {
        fts_terms(q)
    }

    /// The full-text query that a search needs the answer to.
    pub fn search_terms(&self, q: &SearchQuery) -> (r: Option<String>)
        ensures
            r.deep_view() == fts_wanted(self@, q@),
    {
        let query = trimmed(q.query.as_str());
        if !self.has_fts || query.as_str().is_empty() {
            return None;
        }
        let terms = Self::fts_query(query.as_str());
        if terms.as_str().is_empty() {
            None
        } else {
            Some(terms)
        }
    }

    fn select_hits(&self, q: &SearchQuery, ws: &Vec<String>) -> (r: Vec<Asset>)
        ensures
            r.deep_view() == select_where(
                self@,
                |a: AssetRowView| path_holds(a.path, ws.deep_view()) && passes(self@, q@, a),
            ),
    {
        let ghost s = self@.assets;
        let ghost p = |a: AssetRowView| path_holds(a.path, ws.deep_view()) && passes(self@, q@, a);
        let ghost f = |a: AssetRowView| asset_of(self@, a);
        proof {
            use_type_invariant(self);
            lemma_filter_none(s, p);
        }
        let mut out: Vec<Asset> = Vec::new();
        let mut i: usize = 0;
        assert(out.deep_view() =~= s.take(0).filter(p).map_values(f));
        while i < self.assets.len()
            invariant
                i <= self.assets@.len(),
                valid(self@),
                s == self@.assets,
                s == self.assets.deep_view(),
                p == (|a: AssetRowView| path_holds(a.path, ws.deep_view()) && passes(self@, q@, a)),
                f == (|a: AssetRowView| asset_of(self@, a)),
                out.deep_view() == s.take(i as int).filter(p).map_values(f),
            decreases self.assets@.len() - i,
        {
            proof {
                lemma_filter_step(s, p, i as int);
                assert(s[i as int] == self.assets@[i as int]@);
                assert(has_package(self@.packages, s[i as int].package_id));
            }
            let row = &self.assets[i];
            if holds_words(row.path.as_str(), ws) && self.passes_filters(q, row) {
                let ghost o0 = out.deep_view();
                let a = self.asset_at(i);
                let ghost av = a@;
                out.push(a);
                assert(out.deep_view() =~= o0.push(av));
                assert(out.deep_view() =~= s.take(i + 1).filter(p).map_values(f));
            }
            i += 1;
        }
        assert(s.take(s.len() as int) =~= s);
        out
    }

    fn select_ranked(&self, q: &SearchQuery, ranked: &Vec<i64>) -> (r: Vec<Asset>)
        ensures
            r.deep_view() == ranked_hits(self@, q@, ranked@),
    {
        proof {
            use_type_invariant(self);
        }
        let mut out: Vec<Asset> = Vec::new();
        let mut i: usize = 0;
        assert(ranked@.take(0) =~= Seq::<i64>::empty());
        assert(out.deep_view() =~= Seq::<AssetView>::empty());
        while i < ranked.len()
            invariant
                i <= ranked@.len(),
                valid(self@),
                out.deep_view() == ranked_hits(self@, q@, ranked@.take(i as int)),
            decreases ranked@.len() - i,
        {
            proof {
                assert(ranked@.take(i + 1).drop_last() =~= ranked@.take(i as int));
                assert(ranked@.take(i + 1).last() == ranked@[i as int]);
            }
            match self.find_asset(ranked[i]) {
                Some(k) => {
                    proof {
                        assert(self@.assets[k as int] == self.assets@[k as int]@);
                        assert(has_package(self@.packages, self@.assets[k as int].package_id));
                    }
                    if self.passes_filters(q, &self.assets[k]) {
                        let ghost o0 = out.deep_view();
                        let a = self.asset_at(k);
                        let ghost av = a@;
                        out.push(a);
                        assert(out.deep_view() =~= o0.push(av));
                    }
                },
                None => {},
            }
            i += 1;
        }
        assert(ranked@.take(ranked@.len() as int) =~= ranked@);
        out
    }

    /// Searches the index. `ranked` is what full-text search answers to
    /// [`search_terms`](Self::search_terms), best first.
    pub fn search(&self, q: &SearchQuery, ranked: &Vec<i64>) -> (r: Vec<Asset>)
        ensures
            r.deep_view() == search_hits(self@, q@, ranked@),
    {
        let query = trimmed(q.query.as_str());
        let limit: usize = if q.limit > 0 {
            q.limit
        } else {
            1
        };
        if query.as_str().is_empty() {
            let none: Vec<String> = Vec::new();
            let hits = self.select_hits(q, &none);
            proof {
                let p1 = |a: AssetRowView| path_holds(a.path, none.deep_view()) && passes(self@, q@, a);
                let p2 = |a: AssetRowView| passes(self@, q@, a);
                assert(p1 =~= p2);
            }
            let sorted = self.order_by_package_name(hits);
            return take_page(sorted, limit, q.offset);
        }
        if self.has_fts {
            let terms = Self::fts_query(query.as_str());
            if !terms.as_str().is_empty() {
                let hits = take_page(self.select_ranked(q, ranked), limit, q.offset);
                if hits.len() > 0 {
                    return hits;
                }
            }
        }
        let ws = split_words(query.as_str());
        let hits = self.select_hits(q, &ws);
        proof {
            orders_are_orders();
        }
        let sorted = sort_by(
            hits,
            &(|a: &Asset, b: &Asset| -> (c: bool)
                ensures
                    c == by_length_path()(a@, b@),
                {
                    let x: usize = text_len(a.path.as_str());
                    let y: usize = text_len(b.path.as_str());
                    if x != y {
                        x <= y
                    } else {
                        text_at_most(a.path.as_str(), b.path.as_str())
                    }
                }),
            Ghost(by_length_path()),
        );
        take_page(sorted, limit, q.offset)
    }
}

} // verus!
