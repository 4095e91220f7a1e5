//! The operations that `uai` offers, run against a local index.

use vstd::prelude::*;
use vstd::string::*;

use crate::config::{join_path, joined_path, Config};
use crate::db::{
    assets_in, assets_with_guid, counts, counts_overflow, exact_sum, package_views, refs_from, referrers_of,
    row_sizes, search_hits, stats_of, text_view, by_publisher, Database, DbView, StoreError,
};
use crate::deps::{closure_of, closure_out, guid_label, known_guid_label, resolve_closure, KnownGuids, Rules};
use crate::error::{invalid, not_found, outcome, Error, ErrorView, UaiError};
use crate::indexer::{store_error, store_words};
use crate::model::{
    Asset, AssetInfo, AssetInfoView, AssetView, ClosureOut, ClosureOutView, ExportRequest, ExportRequestView,
    Package, PackageListing, PackageListingView, PackageView, PlanOut, PlanOutView, RefInfo, RefInfoView,
    SearchQuery, Stats, StatsView, TextOut, TextOutView,
};
use crate::number::{decimal_i64, signed_numeral};
use crate::plan::{build_plan, plan_for, plan_out, plan_output, Plan, PlanView};
use crate::resolve::{asset_named, package_named, resolve_asset, resolve_package, resolve_roots, roots_named};
use crate::seqs::{lemma_filter_none, lemma_filter_step, map_all};
use crate::sorted::arranged;
use crate::text::{cat, cat3, lower};

verus! {

/// Where an export goes.
#[derive(Debug)]
pub enum ExportDest {
    /// A Unity project (needs `Assets/` and `ProjectSettings/`); guid conflicts are checked.
    Project(String),
    /// A plain directory.
    Dir(String),
    /// A slim `.unitypackage` file.
    UnityPackage(String),
}

/// What an [`ExportDest`] holds.
#[verifier::ext_equal]
pub enum ExportDestView {
    Project(Seq<char>),
    Dir(Seq<char>),
    UnityPackage(Seq<char>),
}

impl View for ExportDest {
    type V = ExportDestView;

    open spec fn view(&self) -> ExportDestView {
        match self {
            ExportDest::Project(p) => ExportDestView::Project(p@),
            ExportDest::Dir(p) => ExportDestView::Dir(p@),
            ExportDest::UnityPackage(p) => ExportDestView::UnityPackage(p@),
        }
    }
}

impl DeepView for ExportDest {
    type V = ExportDestView;

    open spec fn deep_view(&self) -> ExportDestView {
        self.view()
    }
}

/// How to export.
#[derive(Debug, Clone, Copy)]
pub struct ExportOptions {
    pub force: bool,
    pub dry_run: bool,
    pub conflict_check: bool,
}

impl Default for ExportOptions {
    fn default() -> (r: Self)
        ensures
            !r.force,
            !r.dry_run,
            !r.conflict_check,
    {
        ExportOptions { force: false, dry_run: false, conflict_check: false }
    }
}

/// The one destination out of three.
pub open spec fn one_dest(
    project: Option<Seq<char>>,
    dir: Option<Seq<char>>,
    package: Option<Seq<char>>,
) -> Option<ExportDestView> {
    match (project, dir, package) {
        (Some(p), None, None) => Some(ExportDestView::Project(p)),
        (None, Some(p), None) => Some(ExportDestView::Dir(p)),
        (None, None, Some(p)) => Some(ExportDestView::UnityPackage(p)),
        _ => None,
    }
}

/// The destination of an export; there has to be exactly one.
pub fn choose_dest(project: Option<String>, dir: Option<String>, package: Option<String>) -> (r: Option<ExportDest>)
    ensures
        r.deep_view() == one_dest(project.deep_view(), dir.deep_view(), package.deep_view()),
{
    match (project, dir, package) {
        (Some(p), None, None) => Some(ExportDest::Project(p)),
        (None, Some(p), None) => Some(ExportDest::Dir(p)),
        (None, None, Some(p)) => Some(ExportDest::UnityPackage(p)),
        _ => None,
    }
}

/// What is said where an export has no destination, or more than one.
pub const ONE_DESTINATION: &'static str =
    "choose exactly one destination: --project <UnityProject> | --out <dir> | --unitypackage <file>";

/// The destination of an export, or what is said where there is not exactly one.
pub fn require_dest(project: Option<String>, dir: Option<String>, package: Option<String>) -> (r: Result<
    ExportDest,
    Error,
>)
    ensures
        outcome(r) == (match one_dest(project.deep_view(), dir.deep_view(), package.deep_view()) {
            Some(d) => Ok::<ExportDestView, ErrorView>(d),
            None => Err(ErrorView::Other(ONE_DESTINATION@)),
        }),
{
    match choose_dest(project, dir, package) {
        Some(d) => Ok(d),
        None => Err(Error::Other(ONE_DESTINATION.to_string())),
    }
}

/// The directory of a Unity project, made absolute. `has_assets` and `has_settings` say whether
/// `Assets/` and `ProjectSettings/` are in it.
pub fn validate_project(dir: &str, current_dir: &str, has_assets: bool, has_settings: bool) -> (r: Result<String, Error>)
    ensures
        has_assets && has_settings ==> (r matches Ok(p) && p@ == joined_path(current_dir@, dir@)),
        !(has_assets && has_settings) ==> (r matches Err(e) && e@ == invalid(
            joined_path(current_dir@, dir@)
                + " does not look like a Unity project (needs Assets/ and ProjectSettings/)"@,
        )),
{
    let proj = join_path(current_dir, dir);
    if has_assets && has_settings {
        Ok(proj)
    } else {
        Err(
            Error::User(
                UaiError::Invalid(
                    cat(
                        proj.as_str(),
                        " does not look like a Unity project (needs Assets/ and ProjectSettings/)",
                    ),
                ),
            ),
        )
    }
}

// ----- local ---------------------------------------------------------------------------------

/// The operations on a local index.
#[derive(Debug)]
pub struct LocalService {
    pub cfg: Config,
    pub db: Database,
    pub known: KnownGuids,
}

/// The roots and the plan of a request.
pub open spec fn request_plan(db: DbView, known: Map<Seq<char>, Seq<char>>, req: ExportRequestView) -> Result<
    (Seq<AssetView>, PlanView),
    ErrorView,
> {
    if req.identifiers.len() == 0 {
        Err(invalid("no assets given"@))
    } else {
        match roots_named(db, req.identifiers, req.package) {
            Err(e) => Err(e),
            Ok(roots) => Ok(
                (roots, plan_for(db, known, roots, req.include_deps, req.include_scripts, req.include_folders)),
            ),
        }
    }
}

/// The asset that a reference of `a` means: of those with the guid the one in the package of `a`,
/// else the first.
pub open spec fn reference_target(cands: Seq<AssetView>, pid: i64) -> Option<AssetView> {
    match crate::seqs::find(cands, |c: AssetView| c.package_id == pid) {
        Some(c) => Some(c),
        None => if cands.len() > 0 {
            Some(cands[0])
        } else {
            None
        },
    }
}

pub open spec fn reference_info(db: DbView, known: Map<Seq<char>, Seq<char>>, pid: i64, guid: Seq<char>) -> RefInfoView {
    let asset = reference_target(assets_with_guid(db, guid), pid);
    RefInfoView {
        guid,
        asset,
        label: if asset is None {
            guid_label(known, guid)
        } else {
            None
        },
    }
}

/// An asset with its direct references, its users (200 at most) and its namesakes.
pub open spec fn info_of(db: DbView, known: Map<Seq<char>, Seq<char>>, a: AssetView) -> AssetInfoView {
    AssetInfoView {
        asset: a,
        refs: refs_from(db, a.id).map_values(|g: Seq<char>| reference_info(db, known, a.package_id, g)),
        referrers: referrers_of(db, a.guid, Some(200)),
        same_guid_in: assets_with_guid(db, a.guid).filter(|x: AssetView| x.id != a.id),
    }
}

/// A package with its mark of being cached.
pub open spec fn with_mark(p: PackageView, cached: Seq<i64>) -> PackageView {
    PackageView { cached: cached.contains(p.id), ..p }
}

fn holds_id(ids: &Vec<i64>, id: i64) -> (r: bool)
    ensures
        r == ids@.contains(id),
{
    let mut i: usize = 0;
    while i < ids.len()
        invariant
            i <= ids@.len(),
            forall|k: int| 0 <= k < i ==> ids@[k] != id,
        decreases ids@.len() - i,
    {
        if ids[i] == id {
            return true;
        }
        i += 1;
    }
    false
}

/// Where a preview comes from.
pub enum PreviewStep {
    /// From the thumbnail store.
    Stored(Vec<u8>),
    /// From the package, which has to be read.
    Extract,
    /// From nowhere.
    Nothing,
}

impl LocalService {
    /// The roots of a request and the plan for them.
    pub fn build_plan(&self, req: &ExportRequest) -> (r: Result<(Vec<Asset>, Plan), Error>)
        ensures
            match request_plan(self.db@, self.known@, req@) {
                Ok((roots, plan)) => r matches Ok(x) && x.0.deep_view() == roots && x.1@ == plan,
                Err(e) => r matches Err(x) && x@ == e,
            },
    {
        if req.identifiers.len() == 0 {
            return Err(Error::User(UaiError::Invalid("no assets given".to_string())));
        }
        let package: Option<&str> = match &req.package {
            Some(p) => Some(p.as_str()),
            None => None,
        };
        match resolve_roots(&self.db, &req.identifiers, package) {
            Err(e) => Err(e),
            Ok(roots) => {
                let plan = build_plan(
                    &self.db,
                    &self.known,
                    &roots,
                    req.include_deps,
                    req.include_scripts,
                    req.include_folders,
                );
                Ok((roots, plan))
            },
        }
    }

    /// What an export would do.
    pub fn plan(&self, req: &ExportRequest) -> (r: Result<PlanOut, Error>)
        ensures
            outcome(r) == (match request_plan(self.db@, self.known@, req@) {
                Ok((roots, plan)) => Ok::<PlanOutView, ErrorView>(plan_output(self.db@, plan, roots)),
                Err(e) => Err(e),
            }),
    {
        match self.build_plan(req) {
            Ok((roots, plan)) => Ok(plan_out(&self.db, &plan, &roots)),
            Err(e) => Err(e),
        }
    }

    fn reference(&self, pid: i64, guid: &str) -> (r: RefInfo)
        ensures
            r@ == reference_info(self.db@, self.known@, pid, guid@),
    {
        let cands = self.db.assets_by_guid(guid);
        let ghost cs = cands.deep_view();
        let ghost p = |c: AssetView| c.package_id == pid;
        let mut i: usize = 0;
        while i < cands.len()
            invariant
                i <= cands@.len(),
                cs == cands.deep_view(),
                cs == assets_with_guid(self.db@, guid@),
                p == (|c: AssetView| c.package_id == pid),
                forall|k: int| 0 <= k < i ==> !p(#[trigger] cs[k]),
            decreases cands@.len() - i,
        {
            assert(cs[i as int] == cands@[i as int]@);
            if cands[i].package_id == pid {
                proof {
                    crate::seqs::lemma_first_index(cs, p, i as int);
                }
                return RefInfo { guid: guid.to_string(), asset: Some(cands[i].clone()), label: None };
            }
            i += 1;
        }
        proof {
            crate::seqs::lemma_first_index(cs, p, cs.len() as int);
        }
        if cands.len() > 0 {
            assert(cs[0] == cands@[0]@);
            RefInfo { guid: guid.to_string(), asset: Some(cands[0].clone()), label: None }
        } else {
            RefInfo { guid: guid.to_string(), asset: None, label: known_guid_label(&self.known, guid) }
        }
    }

    /// An asset with its direct references, its users and its namesakes.
    pub fn asset_info(&self, asset: Asset) -> (r: AssetInfo)
        ensures
            r@ == info_of(self.db@, self.known@, asset@),
    {
        let ghost av = asset@;
        let guids = self.db.refs_of(asset.id);
        let look = |g: &String| -> (x: RefInfo)
            ensures
                x@ == reference_info(self.db@, self.known@, asset@.package_id, g@),
            { self.reference(asset.package_id, g.as_str()) };
        let refs = map_all(
            &guids,
            look,
            Ghost(|g: Seq<char>| reference_info(self.db@, self.known@, av.package_id, g)),
        );
        let referrers = self.db.referrers(asset.guid.as_str(), Some(200));
        let all = self.db.assets_by_guid(asset.guid.as_str());
        let ghost s = all.deep_view();
        let ghost other = |x: AssetView| x.id != av.id;
        let mut rest: Vec<Asset> = Vec::new();
        let mut k: usize = 0;
        proof {
            lemma_filter_none(s, other);
            assert(rest.deep_view() =~= s.take(0).filter(other));
        }
        while k < all.len()
            invariant
                k <= all@.len(),
                s == all.deep_view(),
                av == asset@,
                other == (|x: AssetView| x.id != av.id),
                rest.deep_view() == s.take(k as int).filter(other),
            decreases all@.len() - k,
        {
            proof {
                lemma_filter_step(s, other, k as int);
                assert(s[k as int] == all@[k as int]@);
            }
            if all[k].id != asset.id {
                let ghost r0 = rest.deep_view();
                rest.push(all[k].clone());
                assert(rest.deep_view() =~= r0.push(all@[k as int]@));
            }
            k += 1;
        }
        assert(s.take(s.len() as int) =~= s);
        AssetInfo { asset, refs, referrers, same_guid_in: rest }
    }

    pub fn stats(&self) -> (r: Result<Stats, Error>)
        ensures
            outcome(r) == (if exact_sum(row_sizes(self.db@.assets)) is Some {
                Ok::<StatsView, ErrorView>(stats_of(self.db@))
            } else {
                Err(ErrorView::Other(store_words(StoreError::Overflow)))
            }),
    {
        match self.db.stats() {
            Ok(s) => Ok(s),
            Err(e) => Err(store_error(e)),
        }
    }

    /// The packages of the index; `cached` holds the ids of those with a complete local copy.
    pub fn packages(&self, cached: &Vec<i64>) -> (r: Vec<Package>)
        ensures
            r.deep_view() == arranged(package_views(self.db@.packages), by_publisher()).map_values(
                |p: PackageView| with_mark(p, cached@),
            ),
    {
        let all = self.db.packages();
        let mark = |p: &Package| -> (q: Package)
            ensures
                q@ == with_mark(p@, cached@),
            {
                let mut q = p.clone();
                q.cached = holds_id(cached, q.id);
                q
            };
        map_all(&all, mark, Ghost(|p: PackageView| with_mark(p, cached@)))
    }

    /// The one package that a text means.
    pub fn find_package(&self, needle: &str, cached: &Vec<i64>) -> (r: Result<Package, Error>)
        ensures
            outcome(r) == (match package_named(self.db@, needle@) {
                Ok(p) => Ok::<PackageView, ErrorView>(with_mark(p, cached@)),
                Err(e) => Err(e),
            }),
    {
        match resolve_package(&self.db, needle) {
            Ok(p) => {
                let mut p = p;
                p.cached = holds_id(cached, p.id);
                Ok(p)
            },
            Err(e) => Err(e),
        }
    }

    /// Searches the index; `ranked` holds the ids of the assets that the full-text index found for
    /// [`Database::search_terms`], best first.
    pub fn search(&self, q: &SearchQuery, ranked: &Vec<i64>) -> (r: Vec<Asset>)
        ensures
            r.deep_view() == search_hits(self.db@, q@, ranked@),
    {
        self.db.search(q, ranked)
    }

    /// Lists a package.
    pub fn ls(
        &self,
        package: &str,
        prefix: Option<&str>,
        kind: Option<&str>,
        limit: Option<usize>,
        cached: &Vec<i64>,
    ) -> (r: Result<PackageListing, Error>)
        ensures
            outcome(r) == (match package_named(self.db@, package@) {
                Ok(p) => if counts_overflow(self.db@, Some(p.id)) {
                    Err(ErrorView::Other(store_words(StoreError::Overflow)))
                } else {
                    Ok::<PackageListingView, ErrorView>(
                        PackageListingView {
                            package: with_mark(p, cached@),
                            assets: assets_in(self.db@, p.id, text_view(prefix), text_view(kind), limit),
                            kinds: counts(self.db@, Some(p.id)),
                        },
                    )
                },
                Err(e) => Err(e),
            }),
    {
        match self.find_package(package, cached) {
            Err(e) => Err(e),
            Ok(p) => {
                let assets = self.db.list_package_assets(p.id, prefix, kind, limit);
                match self.db.kind_counts(Some(p.id)) {
                    Ok(kinds) => Ok(PackageListing { package: p, assets, kinds }),
                    Err(e) => Err(store_error(e)),
                }
            },
        }
    }

    pub fn resolve(&self, ident: &str, package: Option<&str>) -> (r: Result<Asset, Error>)
        ensures
            outcome(r) == asset_named(self.db@, ident@, text_view(package)),
    {
        resolve_asset(&self.db, ident, package)
    }

    pub fn info(&self, ident: &str, package: Option<&str>) -> (r: Result<AssetInfo, Error>)
        ensures
            outcome(r) == (match asset_named(self.db@, ident@, text_view(package)) {
                Ok(a) => Ok::<AssetInfoView, ErrorView>(info_of(self.db@, self.known@, a)),
                Err(e) => Err(e),
            }),
    {
        match resolve_asset(&self.db, ident, package) {
            Ok(a) => Ok(self.asset_info(a)),
            Err(e) => Err(e),
        }
    }

    /// The dependency closure of some assets.
    pub fn deps(
        &self,
        idents: &Vec<String>,
        package: Option<&str>,
        include_scripts: bool,
        max_depth: Option<u32>,
    ) -> (r: Result<ClosureOut, Error>)
        ensures
            outcome(r) == (match roots_named(self.db@, idents.deep_view(), text_view(package)) {
                Ok(roots) => Ok::<ClosureOutView, ErrorView>(
                    closure_out(
                        self.db@,
                        closure_of(
                            Rules { db: self.db@, known: self.known@, scripts: include_scripts, max_depth },
                            roots,
                        ),
                    ),
                ),
                Err(e) => Err(e),
            }),
    {
        match resolve_roots(&self.db, idents, package) {
            Ok(roots) => {
                let cl = resolve_closure(&self.db, &self.known, &roots, include_scripts, max_depth);
                Ok(cl.to_out(&self.db))
            },
            Err(e) => Err(e),
        }
    }

    /// The assets that refer to an asset.
    pub fn rdeps(&self, ident: &str, package: Option<&str>, limit: Option<usize>) -> (r: Result<Vec<Asset>, Error>)
        ensures
            match asset_named(self.db@, ident@, text_view(package)) {
                Ok(a) => r matches Ok(v) && v.deep_view() == referrers_of(self.db@, a.guid, limit),
                Err(e) => r matches Err(x) && x@ == e,
            },
    {
        match resolve_asset(&self.db, ident, package) {
            Ok(a) => Ok(self.db.referrers(a.guid.as_str(), limit)),
            Err(e) => Err(e),
        }
    }

    /// Where the preview of an asset comes from: from the thumbnail store, or, when `extract` is
    /// set or the package is cached locally (which makes it cheap), from the package.
    pub fn preview_for(&self, asset: &Asset, extract: bool, cached: bool) -> (r: PreviewStep)
        ensures
            self.db@.previews.contains_key(lower(asset@.guid)) ==> (r matches PreviewStep::Stored(png)
                && png.deep_view() == self.db@.previews[lower(asset@.guid)]),
            !self.db@.previews.contains_key(lower(asset@.guid)) ==> (if asset@.has_preview && (extract || cached) {
                r is Extract
            } else {
                r is Nothing
            }),
    {
        match self.db.get_preview(asset.guid.as_str()) {
            Some(png) => PreviewStep::Stored(png),
            None => {
                if asset.has_preview && (extract || cached) {
                    PreviewStep::Extract
                } else {
                    PreviewStep::Nothing
                }
            },
        }
    }

    /// Where the preview of an asset comes from that has to have one.
    pub fn preview(&self, asset: &Asset) -> (r: Result<PreviewStep, Error>)
        ensures
            self.db@.previews.contains_key(lower(asset@.guid)) ==> (r matches Ok(PreviewStep::Stored(png))
                && png.deep_view() == self.db@.previews[lower(asset@.guid)]),
            !self.db@.previews.contains_key(lower(asset@.guid)) && asset@.has_preview ==> (r matches Ok(
                PreviewStep::Extract,
            )),
            !self.db@.previews.contains_key(lower(asset@.guid)) && !asset@.has_preview ==> (r matches Err(e) && e@
                == not_found(asset@.path + " has no preview.png in its package"@)),
    {
        match self.preview_for(asset, true, false) {
            PreviewStep::Nothing => Err(
                Error::User(
                    UaiError::NotFound(cat(asset.path.as_str(), " has no preview.png in its package")),
                ),
            ),
            step => Ok(step),
        }
    }
}

/// The preview that was read from a package.
pub fn preview_read(png: Option<Vec<u8>>) -> (r: Result<Vec<u8>, Error>)
    ensures
        match png {
            Some(p) => r == Ok::<Vec<u8>, Error>(p),
            None => r matches Err(e) && e@ == not_found("preview not found in package"@),
        },
{
    match png {
        Some(p) => Ok(p),
        None => Err(Error::User(UaiError::NotFound("preview not found in package".to_string()))),
    }
}

/// That an asset is text.
pub fn check_text(asset: &Asset) -> (r: Result<(), Error>)
    ensures
        asset@.is_text ==> r is Ok,
        !asset@.is_text ==> (r matches Err(e) && e@ == invalid(
            asset@.path + " is binary ("@ + signed_numeral(asset@.size as int) + " bytes); use `uai export`"@,
        )),
{
    if asset.is_text {
        Ok(())
    } else {
        let mut m = cat3(asset.path.as_str(), " is binary (", decimal_i64(asset.size).as_str());
        m.append(" bytes); use `uai export`");
        Err(Error::User(UaiError::Invalid(m)))
    }
}

/// The text of an asset, from what was read of its package.
pub fn text_for(asset: &Asset, read: Option<(String, bool)>) -> (r: Result<TextOut, Error>)
    ensures
        match read.deep_view() {
            Some((text, truncated)) => outcome(r) == Ok::<TextOutView, ErrorView>(
                TextOutView { guid: asset@.guid, path: asset@.path, text, truncated },
            ),
            None => outcome(r) == Err::<TextOutView, ErrorView>(
                not_found("asset not found in package (index stale? run `uai index`)"@),
            ),
        },
{
    match read {
        Some((text, truncated)) => Ok(
            TextOut { guid: asset.guid.clone(), path: asset.path.clone(), text, truncated },
        ),
        None => Err(
            Error::User(
                UaiError::NotFound("asset not found in package (index stale? run `uai index`)".to_string()),
            ),
        ),
    }
}

} // verus!
