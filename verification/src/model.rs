//! Plain data types shared by the index, the command line, the HTTP API and the remote client.

use vstd::prelude::*;

use crate::sorted::TextMap;

verus! {

/// A package of the library, as the index knows it.
#[derive(Debug)]
pub struct Package {
    pub id: i64,
    /// Library root this package was found under.
    pub root: String,
    pub rel_path: String,
    pub name: String,
    pub publisher: String,
    pub category: String,
    pub size: i64,
    /// Modification time in seconds: the bits of an `f64`.
    pub mtime: u64,
    /// Time of the last scan in seconds: the bits of an `f64`.
    pub indexed_at: Option<u64>,
    pub entry_count: i64,
    pub total_bytes: i64,
    pub status: String,
    pub error: Option<String>,
    pub title: Option<String>,
    pub version: Option<String>,
    pub unity_version: Option<String>,
    pub pubdate: Option<String>,
    pub store_id: Option<String>,
    pub category_label: Option<String>,
    pub description: Option<String>,
    pub previews_indexed: bool,
    pub cached: bool,
}

/// What a [`Package`] holds.
#[verifier::ext_equal]
pub struct PackageView {
    pub id: i64,
    pub root: Seq<char>,
    pub rel_path: Seq<char>,
    pub name: Seq<char>,
    pub publisher: Seq<char>,
    pub category: Seq<char>,
    pub size: i64,
    pub mtime: u64,
    pub indexed_at: Option<u64>,
    pub entry_count: i64,
    pub total_bytes: i64,
    pub status: Seq<char>,
    pub error: Option<Seq<char>>,
    pub title: Option<Seq<char>>,
    pub version: Option<Seq<char>>,
    pub unity_version: Option<Seq<char>>,
    pub pubdate: Option<Seq<char>>,
    pub store_id: Option<Seq<char>>,
    pub category_label: Option<Seq<char>>,
    pub description: Option<Seq<char>>,
    pub previews_indexed: bool,
    pub cached: bool,
}

impl View for Package {
    type V = PackageView;

    open spec fn view(&self) -> PackageView {
        PackageView {
            id: self.id,
            root: self.root@,
            rel_path: self.rel_path@,
            name: self.name@,
            publisher: self.publisher@,
            category: self.category@,
            size: self.size,
            mtime: self.mtime,
            indexed_at: self.indexed_at,
            entry_count: self.entry_count,
            total_bytes: self.total_bytes,
            status: self.status@,
            error: self.error.deep_view(),
            title: self.title.deep_view(),
            version: self.version.deep_view(),
            unity_version: self.unity_version.deep_view(),
            pubdate: self.pubdate.deep_view(),
            store_id: self.store_id.deep_view(),
            category_label: self.category_label.deep_view(),
            description: self.description.deep_view(),
            previews_indexed: self.previews_indexed,
            cached: self.cached,
        }
    }
}

impl DeepView for Package {
    type V = PackageView;

    open spec fn deep_view(&self) -> PackageView {
        self.view()
    }
}

impl Clone for Package {
    fn clone(&self) -> (r: Self)
        ensures
            r@ == self@,
    {
        let r = Package {
            id: self.id,
            root: self.root.clone(),
            rel_path: self.rel_path.clone(),
            name: self.name.clone(),
            publisher: self.publisher.clone(),
            category: self.category.clone(),
            size: self.size,
            mtime: self.mtime,
            indexed_at: self.indexed_at,
            entry_count: self.entry_count,
            total_bytes: self.total_bytes,
            status: self.status.clone(),
            error: self.error.clone(),
            title: self.title.clone(),
            version: self.version.clone(),
            unity_version: self.unity_version.clone(),
            pubdate: self.pubdate.clone(),
            store_id: self.store_id.clone(),
            category_label: self.category_label.clone(),
            description: self.description.clone(),
            previews_indexed: self.previews_indexed,
            cached: self.cached,
        };
        assert(r.error.deep_view() == self.error.deep_view());
        assert(r.title.deep_view() == self.title.deep_view());
        assert(r.version.deep_view() == self.version.deep_view());
        assert(r.unity_version.deep_view() == self.unity_version.deep_view());
        assert(r.pubdate.deep_view() == self.pubdate.deep_view());
        assert(r.store_id.deep_view() == self.store_id.deep_view());
        assert(r.category_label.deep_view() == self.category_label.deep_view());
        assert(r.description.deep_view() == self.description.deep_view());
        r
    }
}

impl Default for Package {
    fn default() -> (r: Self)
        ensures
            r@ == (PackageView {
                id: 0,
                root: Seq::empty(),
                rel_path: Seq::empty(),
                name: Seq::empty(),
                publisher: Seq::empty(),
                category: Seq::empty(),
                size: 0,
                mtime: 0,
                indexed_at: None,
                entry_count: 0,
                total_bytes: 0,
                status: Seq::empty(),
                error: None,
                title: None,
                version: None,
                unity_version: None,
                pubdate: None,
                store_id: None,
                category_label: None,
                description: None,
                previews_indexed: false,
                cached: false,
            }),
    {
        let r = Package {
            id: 0,
            root: String::new(),
            rel_path: String::new(),
            name: String::new(),
            publisher: String::new(),
            category: String::new(),
            size: 0,
            mtime: 0,
            indexed_at: None,
            entry_count: 0,
            total_bytes: 0,
            status: String::new(),
            error: None,
            title: None,
            version: None,
            unity_version: None,
            pubdate: None,
            store_id: None,
            category_label: None,
            description: None,
            previews_indexed: false,
            cached: false,
        };
        r
    }
}

/// An asset of a package, with what it takes over from the package.
#[derive(Debug, PartialEq)]
pub struct Asset {
    pub id: i64,
    pub package_id: i64,
    pub guid: String,
    pub path: String,
    pub name: String,
    pub ext: String,
    pub kind: String,
    pub importer: Option<String>,
    pub main_class: Option<String>,
    pub size: i64,
    pub is_folder: bool,
    pub has_preview: bool,
    pub is_text: bool,
    pub scan_truncated: bool,
    pub labels: Vec<String>,
    pub package: String,
    pub publisher: String,
    pub package_rel_path: String,
}

/// What a [`Asset`] holds.
#[verifier::ext_equal]
pub struct AssetView {
    pub id: i64,
    pub package_id: i64,
    pub guid: Seq<char>,
    pub path: Seq<char>,
    pub name: Seq<char>,
    pub ext: Seq<char>,
    pub kind: Seq<char>,
    pub importer: Option<Seq<char>>,
    pub main_class: Option<Seq<char>>,
    pub size: i64,
    pub is_folder: bool,
    pub has_preview: bool,
    pub is_text: bool,
    pub scan_truncated: bool,
    pub labels: Seq<Seq<char>>,
    pub package: Seq<char>,
    pub publisher: Seq<char>,
    pub package_rel_path: Seq<char>,
}

impl View for Asset {
    type V = AssetView;

    open spec fn view(&self) -> AssetView {
        AssetView {
            id: self.id,
            package_id: self.package_id,
            guid: self.guid@,
            path: self.path@,
            name: self.name@,
            ext: self.ext@,
            kind: self.kind@,
            importer: self.importer.deep_view(),
            main_class: self.main_class.deep_view(),
            size: self.size,
            is_folder: self.is_folder,
            has_preview: self.has_preview,
            is_text: self.is_text,
            scan_truncated: self.scan_truncated,
            labels: self.labels.deep_view(),
            package: self.package@,
            publisher: self.publisher@,
            package_rel_path: self.package_rel_path@,
        }
    }
}

impl DeepView for Asset {
    type V = AssetView;

    open spec fn deep_view(&self) -> AssetView {
        self.view()
    }
}

impl Clone for Asset {
    fn clone(&self) -> (r: Self)
        ensures
            r@ == self@,
    {
        let r = Asset {
            id: self.id,
            package_id: self.package_id,
            guid: self.guid.clone(),
            path: self.path.clone(),
            name: self.name.clone(),
            ext: self.ext.clone(),
            kind: self.kind.clone(),
            importer: self.importer.clone(),
            main_class: self.main_class.clone(),
            size: self.size,
            is_folder: self.is_folder,
            has_preview: self.has_preview,
            is_text: self.is_text,
            scan_truncated: self.scan_truncated,
            labels: self.labels.clone(),
            package: self.package.clone(),
            publisher: self.publisher.clone(),
            package_rel_path: self.package_rel_path.clone(),
        };
        assert(r.importer.deep_view() == self.importer.deep_view());
        assert(r.main_class.deep_view() == self.main_class.deep_view());
        assert(r.labels.deep_view() =~= self.labels.deep_view());
        r
    }
}

impl Default for Asset {
    fn default() -> (r: Self)
        ensures
            r@ == (AssetView {
                id: 0,
                package_id: 0,
                guid: Seq::empty(),
                path: Seq::empty(),
                name: Seq::empty(),
                ext: Seq::empty(),
                kind: Seq::empty(),
                importer: None,
                main_class: None,
                size: 0,
                is_folder: false,
                has_preview: false,
                is_text: false,
                scan_truncated: false,
                labels: Seq::empty(),
                package: Seq::empty(),
                publisher: Seq::empty(),
                package_rel_path: Seq::empty(),
            }),
    {
        let r = Asset {
            id: 0,
            package_id: 0,
            guid: String::new(),
            path: String::new(),
            name: String::new(),
            ext: String::new(),
            kind: String::new(),
            importer: None,
            main_class: None,
            size: 0,
            is_folder: false,
            has_preview: false,
            is_text: false,
            scan_truncated: false,
            labels: Vec::new(),
            package: String::new(),
            publisher: String::new(),
            package_rel_path: String::new(),
        };
        assert(r.labels.deep_view() =~= Seq::empty());
        r
    }
}

/// How many assets of a kind there are, and how large they are together.
#[derive(Debug)]
pub struct KindCount {
    pub kind: String,
    pub n: i64,
    pub bytes: i64,
}

/// What a [`KindCount`] holds.
#[verifier::ext_equal]
pub struct KindCountView {
    pub kind: Seq<char>,
    pub n: i64,
    pub bytes: i64,
}

impl View for KindCount {
    type V = KindCountView;

    open spec fn view(&self) -> KindCountView {
        KindCountView {
            kind: self.kind@,
            n: self.n,
            bytes: self.bytes,
        }
    }
}

impl DeepView for KindCount {
    type V = KindCountView;

    open spec fn deep_view(&self) -> KindCountView {
        self.view()
    }
}

impl Clone for KindCount {
    fn clone(&self) -> (r: Self)
        ensures
            r@ == self@,
    {
        let r = KindCount {
            kind: self.kind.clone(),
            n: self.n,
            bytes: self.bytes,
        };
        r
    }
}

impl Default for KindCount {
    fn default() -> (r: Self)
        ensures
            r@ == (KindCountView {
                kind: Seq::empty(),
                n: 0,
                bytes: 0,
            }),
    {
        let r = KindCount {
            kind: String::new(),
            n: 0,
            bytes: 0,
        };
        r
    }
}

/// The size of an index.
#[derive(Debug)]
pub struct Stats {
    pub packages: i64,
    pub assets: i64,
    pub refs: i64,
    pub bytes: i64,
    pub previews: i64,
    pub fts: bool,
    pub db: String,
}

/// What a [`Stats`] holds.
#[verifier::ext_equal]
pub struct StatsView {
    pub packages: i64,
    pub assets: i64,
    pub refs: i64,
    pub bytes: i64,
    pub previews: i64,
    pub fts: bool,
    pub db: Seq<char>,
}

impl View for Stats {
    type V = StatsView;

    open spec fn view(&self) -> StatsView {
        StatsView {
            packages: self.packages,
            assets: self.assets,
            refs: self.refs,
            bytes: self.bytes,
            previews: self.previews,
            fts: self.fts,
            db: self.db@,
        }
    }
}

impl DeepView for Stats {
    type V = StatsView;

    open spec fn deep_view(&self) -> StatsView {
        self.view()
    }
}

impl Clone for Stats {
    fn clone(&self) -> (r: Self)
        ensures
            r@ == self@,
    {
        let r = Stats {
            packages: self.packages,
            assets: self.assets,
            refs: self.refs,
            bytes: self.bytes,
            previews: self.previews,
            fts: self.fts,
            db: self.db.clone(),
        };
        r
    }
}

impl Default for Stats {
    fn default() -> (r: Self)
        ensures
            r@ == (StatsView {
                packages: 0,
                assets: 0,
                refs: 0,
                bytes: 0,
                previews: 0,
                fts: false,
                db: Seq::empty(),
            }),
    {
        let r = Stats {
            packages: 0,
            assets: 0,
            refs: 0,
            bytes: 0,
            previews: 0,
            fts: false,
            db: String::new(),
        };
        r
    }
}

/// What to search for.
#[derive(Debug)]
pub struct SearchQuery {
    pub query: String,
    pub kind: Option<String>,
    pub package: Option<String>,
    pub publisher: Option<String>,
    pub ext: Option<String>,
    pub include_folders: bool,
    pub limit: usize,
    pub offset: usize,
}

/// What a [`SearchQuery`] holds.
#[verifier::ext_equal]
pub struct SearchQueryView {
    pub query: Seq<char>,
    pub kind: Option<Seq<char>>,
    pub package: Option<Seq<char>>,
    pub publisher: Option<Seq<char>>,
    pub ext: Option<Seq<char>>,
    pub include_folders: bool,
    pub limit: usize,
    pub offset: usize,
}

impl View for SearchQuery {
    type V = SearchQueryView;

    open spec fn view(&self) -> SearchQueryView {
        SearchQueryView {
            query: self.query@,
            kind: self.kind.deep_view(),
            package: self.package.deep_view(),
            publisher: self.publisher.deep_view(),
            ext: self.ext.deep_view(),
            include_folders: self.include_folders,
            limit: self.limit,
            offset: self.offset,
        }
    }
}

impl DeepView for SearchQuery {
    type V = SearchQueryView;

    open spec fn deep_view(&self) -> SearchQueryView {
        self.view()
    }
}

impl Clone for SearchQuery {
    fn clone(&self) -> (r: Self)
        ensures
            r@ == self@,
    {
        let r = SearchQuery {
            query: self.query.clone(),
            kind: self.kind.clone(),
            package: self.package.clone(),
            publisher: self.publisher.clone(),
            ext: self.ext.clone(),
            include_folders: self.include_folders,
            limit: self.limit,
            offset: self.offset,
        };
        assert(r.kind.deep_view() == self.kind.deep_view());
        assert(r.package.deep_view() == self.package.deep_view());
        assert(r.publisher.deep_view() == self.publisher.deep_view());
        assert(r.ext.deep_view() == self.ext.deep_view());
        r
    }
}

impl Default for SearchQuery {
    fn default() -> (r: Self)
        ensures
            r@ == (SearchQueryView {
                query: Seq::empty(),
                kind: None,
                package: None,
                publisher: None,
                ext: None,
                include_folders: false,
                limit: 0,
                offset: 0,
            }),
    {
        let r = SearchQuery {
            query: String::new(),
            kind: None,
            package: None,
            publisher: None,
            ext: None,
            include_folders: false,
            limit: 0,
            offset: 0,
        };
        r
    }
}

/// One resolved or unresolved direct reference of an asset.
#[derive(Debug)]
pub struct RefInfo {
    pub guid: String,
    pub asset: Option<Asset>,
    pub label: Option<String>,
}

/// What a [`RefInfo`] holds.
#[verifier::ext_equal]
pub struct RefInfoView {
    pub guid: Seq<char>,
    pub asset: Option<AssetView>,
    pub label: Option<Seq<char>>,
}

impl View for RefInfo {
    type V = RefInfoView;

    open spec fn view(&self) -> RefInfoView {
        RefInfoView {
            guid: self.guid@,
            asset: self.asset.deep_view(),
            label: self.label.deep_view(),
        }
    }
}

impl DeepView for RefInfo {
    type V = RefInfoView;

    open spec fn deep_view(&self) -> RefInfoView {
        self.view()
    }
}

impl Clone for RefInfo {
    fn clone(&self) -> (r: Self)
        ensures
            r@ == self@,
    {
        let r = RefInfo {
            guid: self.guid.clone(),
            asset: self.asset.clone(),
            label: self.label.clone(),
        };
        assert(r.asset.deep_view() == self.asset.deep_view());
        assert(r.label.deep_view() == self.label.deep_view());
        r
    }
}

/// An asset with its direct references, its users and its namesakes.
#[derive(Debug)]
pub struct AssetInfo {
    pub asset: Asset,
    pub refs: Vec<RefInfo>,
    pub referrers: Vec<Asset>,
    pub same_guid_in: Vec<Asset>,
}

/// What a [`AssetInfo`] holds.
#[verifier::ext_equal]
pub struct AssetInfoView {
    pub asset: AssetView,
    pub refs: Seq<RefInfoView>,
    pub referrers: Seq<AssetView>,
    pub same_guid_in: Seq<AssetView>,
}

impl View for AssetInfo {
    type V = AssetInfoView;

    open spec fn view(&self) -> AssetInfoView {
        AssetInfoView {
            asset: self.asset.deep_view(),
            refs: self.refs.deep_view(),
            referrers: self.referrers.deep_view(),
            same_guid_in: self.same_guid_in.deep_view(),
        }
    }
}

impl DeepView for AssetInfo {
    type V = AssetInfoView;

    open spec fn deep_view(&self) -> AssetInfoView {
        self.view()
    }
}

impl Clone for AssetInfo {
    fn clone(&self) -> (r: Self)
        ensures
            r@ == self@,
    {
        let r = AssetInfo {
            asset: self.asset.clone(),
            refs: self.refs.clone(),
            referrers: self.referrers.clone(),
            same_guid_in: self.same_guid_in.clone(),
        };
        assert(r.refs.deep_view() =~= self.refs.deep_view());
        assert(r.referrers.deep_view() =~= self.referrers.deep_view());
        assert(r.same_guid_in.deep_view() =~= self.same_guid_in.deep_view());
        r
    }
}

/// A package with its assets and their kinds.
#[derive(Debug)]
pub struct PackageListing {
    pub package: Package,
    pub assets: Vec<Asset>,
    pub kinds: Vec<KindCount>,
}

/// What a [`PackageListing`] holds.
#[verifier::ext_equal]
pub struct PackageListingView {
    pub package: PackageView,
    pub assets: Seq<AssetView>,
    pub kinds: Seq<KindCountView>,
}

impl View for PackageListing {
    type V = PackageListingView;

    open spec fn view(&self) -> PackageListingView {
        PackageListingView {
            package: self.package.deep_view(),
            assets: self.assets.deep_view(),
            kinds: self.kinds.deep_view(),
        }
    }
}

impl DeepView for PackageListing {
    type V = PackageListingView;

    open spec fn deep_view(&self) -> PackageListingView {
        self.view()
    }
}

impl Clone for PackageListing {
    fn clone(&self) -> (r: Self)
        ensures
            r@ == self@,
    {
        let r = PackageListing {
            package: self.package.clone(),
            assets: self.assets.clone(),
            kinds: self.kinds.clone(),
        };
        assert(r.assets.deep_view() =~= self.assets.deep_view());
        assert(r.kinds.deep_view() =~= self.kinds.deep_view());
        r
    }
}

/// A node in a dependency closure (an asset plus how it was reached).
#[derive(Debug)]
pub struct ClosureAsset {
    pub asset: Asset,
    pub depth: u32,
    pub via: Option<String>,
    pub also_in_packages: Vec<i64>,
}

/// What a [`ClosureAsset`] holds.
#[verifier::ext_equal]
pub struct ClosureAssetView {
    pub asset: AssetView,
    pub depth: u32,
    pub via: Option<Seq<char>>,
    pub also_in_packages: Seq<i64>,
}

impl View for ClosureAsset {
    type V = ClosureAssetView;

    open spec fn view(&self) -> ClosureAssetView {
        ClosureAssetView {
            asset: self.asset.deep_view(),
            depth: self.depth,
            via: self.via.deep_view(),
            also_in_packages: self.also_in_packages.deep_view(),
        }
    }
}

impl DeepView for ClosureAsset {
    type V = ClosureAssetView;

    open spec fn deep_view(&self) -> ClosureAssetView {
        self.view()
    }
}

impl Clone for ClosureAsset {
    fn clone(&self) -> (r: Self)
        ensures
            r@ == self@,
    {
        let r = ClosureAsset {
            asset: self.asset.clone(),
            depth: self.depth,
            via: self.via.clone(),
            also_in_packages: self.also_in_packages.clone(),
        };
        assert(r.via.deep_view() == self.via.deep_view());
        assert(r.also_in_packages.deep_view() =~= self.also_in_packages.deep_view());
        r
    }
}

/// A referenced guid that no package holds, and who refers to it.
#[derive(Debug)]
pub struct Unresolved {
    pub guid: String,
    pub label: Option<String>,
    pub referrers: Vec<String>,
}

/// What a [`Unresolved`] holds.
#[verifier::ext_equal]
pub struct UnresolvedView {
    pub guid: Seq<char>,
    pub label: Option<Seq<char>>,
    pub referrers: Seq<Seq<char>>,
}

impl View for Unresolved {
    type V = UnresolvedView;

    open spec fn view(&self) -> UnresolvedView {
        UnresolvedView {
            guid: self.guid@,
            label: self.label.deep_view(),
            referrers: self.referrers.deep_view(),
        }
    }
}

impl DeepView for Unresolved {
    type V = UnresolvedView;

    open spec fn deep_view(&self) -> UnresolvedView {
        self.view()
    }
}

impl Clone for Unresolved {
    fn clone(&self) -> (r: Self)
        ensures
            r@ == self@,
    {
        let r = Unresolved {
            guid: self.guid.clone(),
            label: self.label.clone(),
            referrers: self.referrers.clone(),
        };
        assert(r.label.deep_view() == self.label.deep_view());
        assert(r.referrers.deep_view() =~= self.referrers.deep_view());
        r
    }
}

/// A package by id and name.
#[derive(Debug)]
pub struct PackageRef {
    pub id: i64,
    pub name: String,
}

/// What a [`PackageRef`] holds.
#[verifier::ext_equal]
pub struct PackageRefView {
    pub id: i64,
    pub name: Seq<char>,
}

impl View for PackageRef {
    type V = PackageRefView;

    open spec fn view(&self) -> PackageRefView {
        PackageRefView {
            id: self.id,
            name: self.name@,
        }
    }
}

impl DeepView for PackageRef {
    type V = PackageRefView;

    open spec fn deep_view(&self) -> PackageRefView {
        self.view()
    }
}

impl Clone for PackageRef {
    fn clone(&self) -> (r: Self)
        ensures
            r@ == self@,
    {
        let r = PackageRef {
            id: self.id,
            name: self.name.clone(),
        };
        r
    }
}

/// A dependency closure, for output.
#[derive(Debug)]
pub struct ClosureOut {
    pub roots: Vec<String>,
    pub assets: Vec<ClosureAsset>,
    pub unresolved: Vec<Unresolved>,
    pub skipped_scripts: Vec<Asset>,
    pub total_bytes: i64,
    pub package_ids: Vec<i64>,
    pub packages: Vec<PackageRef>,
    /// guid -> child guids (resolved or not), for tree rendering.
    pub edges: TextMap<Vec<String>>,
}

/// What a [`ClosureOut`] holds.
#[verifier::ext_equal]
pub struct ClosureOutView {
    pub roots: Seq<Seq<char>>,
    pub assets: Seq<ClosureAssetView>,
    pub unresolved: Seq<UnresolvedView>,
    pub skipped_scripts: Seq<AssetView>,
    pub total_bytes: i64,
    pub package_ids: Seq<i64>,
    pub packages: Seq<PackageRefView>,
    pub edges: Map<Seq<char>, Seq<Seq<char>>>,
}

impl View for ClosureOut {
    type V = ClosureOutView;

    open spec fn view(&self) -> ClosureOutView {
        ClosureOutView {
            roots: self.roots.deep_view(),
            assets: self.assets.deep_view(),
            unresolved: self.unresolved.deep_view(),
            skipped_scripts: self.skipped_scripts.deep_view(),
            total_bytes: self.total_bytes,
            package_ids: self.package_ids.deep_view(),
            packages: self.packages.deep_view(),
            edges: self.edges.deep_view(),
        }
    }
}

impl DeepView for ClosureOut {
    type V = ClosureOutView;

    open spec fn deep_view(&self) -> ClosureOutView {
        self.view()
    }
}

impl Clone for ClosureOut {
    fn clone(&self) -> (r: Self)
        ensures
            r@ == self@,
    {
        let r = ClosureOut {
            roots: self.roots.clone(),
            assets: self.assets.clone(),
            unresolved: self.unresolved.clone(),
            skipped_scripts: self.skipped_scripts.clone(),
            total_bytes: self.total_bytes,
            package_ids: self.package_ids.clone(),
            packages: self.packages.clone(),
            edges: self.edges.clone(),
        };
        assert(r.roots.deep_view() =~= self.roots.deep_view());
        assert(r.assets.deep_view() =~= self.assets.deep_view());
        assert(r.unresolved.deep_view() =~= self.unresolved.deep_view());
        assert(r.skipped_scripts.deep_view() =~= self.skipped_scripts.deep_view());
        assert(r.package_ids.deep_view() =~= self.package_ids.deep_view());
        assert(r.packages.deep_view() =~= self.packages.deep_view());
        assert(r.edges.deep_view() =~= self.edges.deep_view());
        r
    }
}

impl Default for ClosureOut {
    fn default() -> (r: Self)
        ensures
            r@ == (ClosureOutView {
                roots: Seq::empty(),
                assets: Seq::empty(),
                unresolved: Seq::empty(),
                skipped_scripts: Seq::empty(),
                total_bytes: 0,
                package_ids: Seq::empty(),
                packages: Seq::empty(),
                edges: Map::empty(),
            }),
    {
        let r = ClosureOut {
            roots: Vec::new(),
            assets: Vec::new(),
            unresolved: Vec::new(),
            skipped_scripts: Vec::new(),
            total_bytes: 0,
            package_ids: Vec::new(),
            packages: Vec::new(),
            edges: TextMap::new(),
        };
        assert(r.roots.deep_view() =~= Seq::empty());
        assert(r.assets.deep_view() =~= Seq::empty());
        assert(r.unresolved.deep_view() =~= Seq::empty());
        assert(r.skipped_scripts.deep_view() =~= Seq::empty());
        assert(r.package_ids.deep_view() =~= Seq::empty());
        assert(r.packages.deep_view() =~= Seq::empty());
        assert(r.edges.deep_view() =~= Map::empty());
        r
    }
}

/// Which assets to export, and what to take along.
#[derive(Debug)]
pub struct ExportRequest {
    pub identifiers: Vec<String>,
    pub package: Option<String>,
    pub include_deps: bool,
    pub include_scripts: bool,
    pub include_folders: bool,
}

/// What a [`ExportRequest`] holds.
#[verifier::ext_equal]
pub struct ExportRequestView {
    pub identifiers: Seq<Seq<char>>,
    pub package: Option<Seq<char>>,
    pub include_deps: bool,
    pub include_scripts: bool,
    pub include_folders: bool,
}

impl View for ExportRequest {
    type V = ExportRequestView;

    open spec fn view(&self) -> ExportRequestView {
        ExportRequestView {
            identifiers: self.identifiers.deep_view(),
            package: self.package.deep_view(),
            include_deps: self.include_deps,
            include_scripts: self.include_scripts,
            include_folders: self.include_folders,
        }
    }
}

impl DeepView for ExportRequest {
    type V = ExportRequestView;

    open spec fn deep_view(&self) -> ExportRequestView {
        self.view()
    }
}

impl Clone for ExportRequest {
    fn clone(&self) -> (r: Self)
        ensures
            r@ == self@,
    {
        let r = ExportRequest {
            identifiers: self.identifiers.clone(),
            package: self.package.clone(),
            include_deps: self.include_deps,
            include_scripts: self.include_scripts,
            include_folders: self.include_folders,
        };
        assert(r.identifiers.deep_view() =~= self.identifiers.deep_view());
        assert(r.package.deep_view() == self.package.deep_view());
        r
    }
}

impl Default for ExportRequest {
    fn default() -> (r: Self)
        ensures
            r@ == (ExportRequestView {
                identifiers: Seq::empty(),
                package: None,
                include_deps: false,
                include_scripts: false,
                include_folders: false,
            }),
    {
        let r = ExportRequest {
            identifiers: Vec::new(),
            package: None,
            include_deps: false,
            include_scripts: false,
            include_folders: false,
        };
        assert(r.identifiers.deep_view() =~= Seq::empty());
        r
    }
}

/// An asset that was asked for.
#[derive(Debug)]
pub struct RootRef {
    pub guid: String,
    pub path: String,
    pub package: String,
}

/// What a [`RootRef`] holds.
#[verifier::ext_equal]
pub struct RootRefView {
    pub guid: Seq<char>,
    pub path: Seq<char>,
    pub package: Seq<char>,
}

impl View for RootRef {
    type V = RootRefView;

    open spec fn view(&self) -> RootRefView {
        RootRefView {
            guid: self.guid@,
            path: self.path@,
            package: self.package@,
        }
    }
}

impl DeepView for RootRef {
    type V = RootRefView;

    open spec fn deep_view(&self) -> RootRefView {
        self.view()
    }
}

impl Clone for RootRef {
    fn clone(&self) -> (r: Self)
        ensures
            r@ == self@,
    {
        let r = RootRef {
            guid: self.guid.clone(),
            path: self.path.clone(),
            package: self.package.clone(),
        };
        r
    }
}

/// What an export would do (the plan), independent of the destination.
#[derive(Debug)]
pub struct PlanOut {
    pub roots: Vec<RootRef>,
    pub planned: usize,
    pub planned_bytes: i64,
    pub packages: Vec<String>,
    pub warnings: Vec<String>,
    pub unresolved: Vec<Unresolved>,
    pub scripts: Vec<String>,
    pub skipped_scripts: Vec<String>,
    pub assets: Vec<Asset>,
}

/// What a [`PlanOut`] holds.
#[verifier::ext_equal]
pub struct PlanOutView {
    pub roots: Seq<RootRefView>,
    pub planned: usize,
    pub planned_bytes: i64,
    pub packages: Seq<Seq<char>>,
    pub warnings: Seq<Seq<char>>,
    pub unresolved: Seq<UnresolvedView>,
    pub scripts: Seq<Seq<char>>,
    pub skipped_scripts: Seq<Seq<char>>,
    pub assets: Seq<AssetView>,
}

impl View for PlanOut {
    type V = PlanOutView;

    open spec fn view(&self) -> PlanOutView {
        PlanOutView {
            roots: self.roots.deep_view(),
            planned: self.planned,
            planned_bytes: self.planned_bytes,
            packages: self.packages.deep_view(),
            warnings: self.warnings.deep_view(),
            unresolved: self.unresolved.deep_view(),
            scripts: self.scripts.deep_view(),
            skipped_scripts: self.skipped_scripts.deep_view(),
            assets: self.assets.deep_view(),
        }
    }
}

impl DeepView for PlanOut {
    type V = PlanOutView;

    open spec fn deep_view(&self) -> PlanOutView {
        self.view()
    }
}

impl Clone for PlanOut {
    fn clone(&self) -> (r: Self)
        ensures
            r@ == self@,
    {
        let r = PlanOut {
            roots: self.roots.clone(),
            planned: self.planned,
            planned_bytes: self.planned_bytes,
            packages: self.packages.clone(),
            warnings: self.warnings.clone(),
            unresolved: self.unresolved.clone(),
            scripts: self.scripts.clone(),
            skipped_scripts: self.skipped_scripts.clone(),
            assets: self.assets.clone(),
        };
        assert(r.roots.deep_view() =~= self.roots.deep_view());
        assert(r.packages.deep_view() =~= self.packages.deep_view());
        assert(r.warnings.deep_view() =~= self.warnings.deep_view());
        assert(r.unresolved.deep_view() =~= self.unresolved.deep_view());
        assert(r.scripts.deep_view() =~= self.scripts.deep_view());
        assert(r.skipped_scripts.deep_view() =~= self.skipped_scripts.deep_view());
        assert(r.assets.deep_view() =~= self.assets.deep_view());
        r
    }
}

impl Default for PlanOut {
    fn default() -> (r: Self)
        ensures
            r@ == (PlanOutView {
                roots: Seq::empty(),
                planned: 0,
                planned_bytes: 0,
                packages: Seq::empty(),
                warnings: Seq::empty(),
                unresolved: Seq::empty(),
                scripts: Seq::empty(),
                skipped_scripts: Seq::empty(),
                assets: Seq::empty(),
            }),
    {
        let r = PlanOut {
            roots: Vec::new(),
            planned: 0,
            planned_bytes: 0,
            packages: Vec::new(),
            warnings: Vec::new(),
            unresolved: Vec::new(),
            scripts: Vec::new(),
            skipped_scripts: Vec::new(),
            assets: Vec::new(),
        };
        assert(r.roots.deep_view() =~= Seq::empty());
        assert(r.packages.deep_view() =~= Seq::empty());
        assert(r.warnings.deep_view() =~= Seq::empty());
        assert(r.unresolved.deep_view() =~= Seq::empty());
        assert(r.scripts.deep_view() =~= Seq::empty());
        assert(r.skipped_scripts.deep_view() =~= Seq::empty());
        assert(r.assets.deep_view() =~= Seq::empty());
        r
    }
}

/// A file that was written, or is there already.
#[derive(Debug)]
pub struct WrittenFile {
    pub guid: String,
    pub path: String,
    pub bytes: i64,
}

/// What a [`WrittenFile`] holds.
#[verifier::ext_equal]
pub struct WrittenFileView {
    pub guid: Seq<char>,
    pub path: Seq<char>,
    pub bytes: i64,
}

impl View for WrittenFile {
    type V = WrittenFileView;

    open spec fn view(&self) -> WrittenFileView {
        WrittenFileView {
            guid: self.guid@,
            path: self.path@,
            bytes: self.bytes,
        }
    }
}

impl DeepView for WrittenFile {
    type V = WrittenFileView;

    open spec fn deep_view(&self) -> WrittenFileView {
        self.view()
    }
}

impl Clone for WrittenFile {
    fn clone(&self) -> (r: Self)
        ensures
            r@ == self@,
    {
        let r = WrittenFile {
            guid: self.guid.clone(),
            path: self.path.clone(),
            bytes: self.bytes,
        };
        r
    }
}

/// A planned asset whose guid the project has at another path.
#[derive(Debug)]
pub struct Conflict {
    pub guid: String,
    pub path: String,
    pub existing_path: String,
}

/// What a [`Conflict`] holds.
#[verifier::ext_equal]
pub struct ConflictView {
    pub guid: Seq<char>,
    pub path: Seq<char>,
    pub existing_path: Seq<char>,
}

impl View for Conflict {
    type V = ConflictView;

    open spec fn view(&self) -> ConflictView {
        ConflictView {
            guid: self.guid@,
            path: self.path@,
            existing_path: self.existing_path@,
        }
    }
}

impl DeepView for Conflict {
    type V = ConflictView;

    open spec fn deep_view(&self) -> ConflictView {
        self.view()
    }
}

impl Clone for Conflict {
    fn clone(&self) -> (r: Self)
        ensures
            r@ == self@,
    {
        let r = Conflict {
            guid: self.guid.clone(),
            path: self.path.clone(),
            existing_path: self.existing_path.clone(),
        };
        r
    }
}

/// A planned asset that the package does not hold in full.
#[derive(Debug)]
pub struct MissingMember {
    pub guid: String,
    pub path: String,
    pub got: Vec<String>,
}

/// What a [`MissingMember`] holds.
#[verifier::ext_equal]
pub struct MissingMemberView {
    pub guid: Seq<char>,
    pub path: Seq<char>,
    pub got: Seq<Seq<char>>,
}

impl View for MissingMember {
    type V = MissingMemberView;

    open spec fn view(&self) -> MissingMemberView {
        MissingMemberView {
            guid: self.guid@,
            path: self.path@,
            got: self.got.deep_view(),
        }
    }
}

impl DeepView for MissingMember {
    type V = MissingMemberView;

    open spec fn deep_view(&self) -> MissingMemberView {
        self.view()
    }
}

impl Clone for MissingMember {
    fn clone(&self) -> (r: Self)
        ensures
            r@ == self@,
    {
        let r = MissingMember {
            guid: self.guid.clone(),
            path: self.path.clone(),
            got: self.got.clone(),
        };
        assert(r.got.deep_view() =~= self.got.deep_view());
        r
    }
}

/// What an export did.
#[derive(Debug)]
pub struct ExportResult {
    pub output: String,
    pub dry_run: bool,
    pub bytes_written: i64,
    pub written: Vec<WrittenFile>,
    pub skipped_existing: Vec<WrittenFile>,
    pub conflicts: Vec<Conflict>,
    pub missing_in_package: Vec<MissingMember>,
}

/// What a [`ExportResult`] holds.
#[verifier::ext_equal]
pub struct ExportResultView {
    pub output: Seq<char>,
    pub dry_run: bool,
    pub bytes_written: i64,
    pub written: Seq<WrittenFileView>,
    pub skipped_existing: Seq<WrittenFileView>,
    pub conflicts: Seq<ConflictView>,
    pub missing_in_package: Seq<MissingMemberView>,
}

impl View for ExportResult {
    type V = ExportResultView;

    open spec fn view(&self) -> ExportResultView {
        ExportResultView {
            output: self.output@,
            dry_run: self.dry_run,
            bytes_written: self.bytes_written,
            written: self.written.deep_view(),
            skipped_existing: self.skipped_existing.deep_view(),
            conflicts: self.conflicts.deep_view(),
            missing_in_package: self.missing_in_package.deep_view(),
        }
    }
}

impl DeepView for ExportResult {
    type V = ExportResultView;

    open spec fn deep_view(&self) -> ExportResultView {
        self.view()
    }
}

impl Clone for ExportResult {
    fn clone(&self) -> (r: Self)
        ensures
            r@ == self@,
    {
        let r = ExportResult {
            output: self.output.clone(),
            dry_run: self.dry_run,
            bytes_written: self.bytes_written,
            written: self.written.clone(),
            skipped_existing: self.skipped_existing.clone(),
            conflicts: self.conflicts.clone(),
            missing_in_package: self.missing_in_package.clone(),
        };
        assert(r.written.deep_view() =~= self.written.deep_view());
        assert(r.skipped_existing.deep_view() =~= self.skipped_existing.deep_view());
        assert(r.conflicts.deep_view() =~= self.conflicts.deep_view());
        assert(r.missing_in_package.deep_view() =~= self.missing_in_package.deep_view());
        r
    }
}

impl Default for ExportResult {
    fn default() -> (r: Self)
        ensures
            r@ == (ExportResultView {
                output: Seq::empty(),
                dry_run: false,
                bytes_written: 0,
                written: Seq::empty(),
                skipped_existing: Seq::empty(),
                conflicts: Seq::empty(),
                missing_in_package: Seq::empty(),
            }),
    {
        let r = ExportResult {
            output: String::new(),
            dry_run: false,
            bytes_written: 0,
            written: Vec::new(),
            skipped_existing: Vec::new(),
            conflicts: Vec::new(),
            missing_in_package: Vec::new(),
        };
        assert(r.written.deep_view() =~= Seq::empty());
        assert(r.skipped_existing.deep_view() =~= Seq::empty());
        assert(r.conflicts.deep_view() =~= Seq::empty());
        assert(r.missing_in_package.deep_view() =~= Seq::empty());
        r
    }
}

/// A plan and what came of it.
#[derive(Debug)]
pub struct ExportOut {
    pub plan: PlanOut,
    pub result: ExportResult,
}

/// What a [`ExportOut`] holds.
#[verifier::ext_equal]
pub struct ExportOutView {
    pub plan: PlanOutView,
    pub result: ExportResultView,
}

impl View for ExportOut {
    type V = ExportOutView;

    open spec fn view(&self) -> ExportOutView {
        ExportOutView {
            plan: self.plan.deep_view(),
            result: self.result.deep_view(),
        }
    }
}

impl DeepView for ExportOut {
    type V = ExportOutView;

    open spec fn deep_view(&self) -> ExportOutView {
        self.view()
    }
}

impl Clone for ExportOut {
    fn clone(&self) -> (r: Self)
        ensures
            r@ == self@,
    {
        let r = ExportOut {
            plan: self.plan.clone(),
            result: self.result.clone(),
        };
        r
    }
}

/// A package kept extracted.
#[derive(Debug)]
pub struct CacheEntry {
    pub package_id: i64,
    pub package: String,
    pub bytes: i64,
    pub complete: bool,
    pub path: String,
}

/// What a [`CacheEntry`] holds.
#[verifier::ext_equal]
pub struct CacheEntryView {
    pub package_id: i64,
    pub package: Seq<char>,
    pub bytes: i64,
    pub complete: bool,
    pub path: Seq<char>,
}

impl View for CacheEntry {
    type V = CacheEntryView;

    open spec fn view(&self) -> CacheEntryView {
        CacheEntryView {
            package_id: self.package_id,
            package: self.package@,
            bytes: self.bytes,
            complete: self.complete,
            path: self.path@,
        }
    }
}

impl DeepView for CacheEntry {
    type V = CacheEntryView;

    open spec fn deep_view(&self) -> CacheEntryView {
        self.view()
    }
}

impl Clone for CacheEntry {
    fn clone(&self) -> (r: Self)
        ensures
            r@ == self@,
    {
        let r = CacheEntry {
            package_id: self.package_id,
            package: self.package.clone(),
            bytes: self.bytes,
            complete: self.complete,
            path: self.path.clone(),
        };
        r
    }
}

/// What an indexing run did.
#[derive(Debug)]
pub struct IndexReport {
    pub found: usize,
    pub indexed: usize,
    pub skipped: usize,
    pub removed: usize,
    pub errors: usize,
    pub entries: usize,
    pub previews: usize,
}

/// What a [`IndexReport`] holds.
#[verifier::ext_equal]
pub struct IndexReportView {
    pub found: usize,
    pub indexed: usize,
    pub skipped: usize,
    pub removed: usize,
    pub errors: usize,
    pub entries: usize,
    pub previews: usize,
}

impl View for IndexReport {
    type V = IndexReportView;

    open spec fn view(&self) -> IndexReportView {
        IndexReportView {
            found: self.found,
            indexed: self.indexed,
            skipped: self.skipped,
            removed: self.removed,
            errors: self.errors,
            entries: self.entries,
            previews: self.previews,
        }
    }
}

impl DeepView for IndexReport {
    type V = IndexReportView;

    open spec fn deep_view(&self) -> IndexReportView {
        self.view()
    }
}

impl Clone for IndexReport {
    fn clone(&self) -> (r: Self)
        ensures
            r@ == self@,
    {
        let r = IndexReport {
            found: self.found,
            indexed: self.indexed,
            skipped: self.skipped,
            removed: self.removed,
            errors: self.errors,
            entries: self.entries,
            previews: self.previews,
        };
        r
    }
}

impl Default for IndexReport {
    fn default() -> (r: Self)
        ensures
            r@ == (IndexReportView {
                found: 0,
                indexed: 0,
                skipped: 0,
                removed: 0,
                errors: 0,
                entries: 0,
                previews: 0,
            }),
    {
        let r = IndexReport {
            found: 0,
            indexed: 0,
            skipped: 0,
            removed: 0,
            errors: 0,
            entries: 0,
            previews: 0,
        };
        r
    }
}

/// The text of an asset.
#[derive(Debug)]
pub struct TextOut {
    pub guid: String,
    pub path: String,
    pub text: String,
    pub truncated: bool,
}

/// What a [`TextOut`] holds.
#[verifier::ext_equal]
pub struct TextOutView {
    pub guid: Seq<char>,
    pub path: Seq<char>,
    pub text: Seq<char>,
    pub truncated: bool,
}

impl View for TextOut {
    type V = TextOutView;

    open spec fn view(&self) -> TextOutView {
        TextOutView {
            guid: self.guid@,
            path: self.path@,
            text: self.text@,
            truncated: self.truncated,
        }
    }
}

impl DeepView for TextOut {
    type V = TextOutView;

    open spec fn deep_view(&self) -> TextOutView {
        self.view()
    }
}

impl Clone for TextOut {
    fn clone(&self) -> (r: Self)
        ensures
            r@ == self@,
    {
        let r = TextOut {
            guid: self.guid.clone(),
            path: self.path.clone(),
            text: self.text.clone(),
            truncated: self.truncated,
        };
        r
    }
}

/// Error payload used by the HTTP API and mirrored by the remote client.
#[derive(Debug)]
pub struct ApiError {
    pub error: String,
    pub candidates: Vec<Asset>,
    pub package_candidates: Vec<Package>,
}

/// What a [`ApiError`] holds.
#[verifier::ext_equal]
pub struct ApiErrorView {
    pub error: Seq<char>,
    pub candidates: Seq<AssetView>,
    pub package_candidates: Seq<PackageView>,
}

impl View for ApiError {
    type V = ApiErrorView;

    open spec fn view(&self) -> ApiErrorView {
        ApiErrorView {
            error: self.error@,
            candidates: self.candidates.deep_view(),
            package_candidates: self.package_candidates.deep_view(),
        }
    }
}

impl DeepView for ApiError {
    type V = ApiErrorView;

    open spec fn deep_view(&self) -> ApiErrorView {
        self.view()
    }
}

impl Clone for ApiError {
    fn clone(&self) -> (r: Self)
        ensures
            r@ == self@,
    {
        let r = ApiError {
            error: self.error.clone(),
            candidates: self.candidates.clone(),
            package_candidates: self.package_candidates.clone(),
        };
        assert(r.candidates.deep_view() =~= self.candidates.deep_view());
        assert(r.package_candidates.deep_view() =~= self.package_candidates.deep_view());
        r
    }
}

/// The category that is shown: the store's label where there is one.
pub open spec fn shown_category(p: PackageView) -> Seq<char> {
    match p.category_label {
        Some(s) if s.len() > 0 => s,
        _ => p.category,
    }
}

impl Package {
    pub fn display_category(&self) -> (r: &str)
        ensures
            r@ == shown_category(self@),
    {
        match &self.category_label {
            Some(s) => {
                if s.as_str().is_empty() {
                    self.category.as_str()
                } else {
                    s.as_str()
                }
            },
            None => self.category.as_str(),
        }
    }
}

/// Copies an optional text.
pub fn clone_text(o: &Option<String>) -> (r: Option<String>)
    ensures
        r.deep_view() == o.deep_view(),
{
    match o {
        Some(s) => Some(s.clone()),
        None => None,
    }
}

/// Copies a list.
pub fn clone_texts(v: &Vec<String>) -> (r: Vec<String>)
    ensures
        r.deep_view() == v.deep_view(),
{
    let r = v.clone();
    assert(r.deep_view() =~= v.deep_view());
    r
}

pub fn clone_assets(v: &Vec<Asset>) -> (r: Vec<Asset>)
    ensures
        r.deep_view() == v.deep_view(),
{
    let r = v.clone();
    assert(r.deep_view() =~= v.deep_view());
    r
}

} // verus!
