//! Export assets (plus dependencies) into a Unity project, a plain folder, or a slim
//! `.unitypackage`.

use vstd::prelude::*;
use vstd::slice::{slice_subrange, slice_to_vec};
use vstd::string::*;

use crate::config::{join_path, joined_path, Config, ConfigView};
use crate::db::{package_with_id, Database, DbView};
use crate::deps::{copy_assets, values_in_order};
use crate::error::{outcome, Error, ErrorView};
use crate::model::{
    Asset, AssetView, CacheEntry, CacheEntryView, Conflict, ConflictView, ExportResult, ExportResultView,
    MissingMember, MissingMemberView, Package, PackageView, WrittenFile, WrittenFileView,
};
use crate::number::{decimal_i64, decimal_usize, integer_of, numeral, parse_i64, signed_numeral};
use crate::outside::{
    all_packable, archive_bytes_of, lossy, lossy_of, pack_archive, packable, plain_char,
    plain_parts,
};
use crate::pattern::{at_most_is_total, at_most_is_transitive, text_at_most};
use crate::plan::Plan;
use crate::seqs::{find, lemma_first_index, lemma_filter_none, lemma_filter_step, lemma_first_index_bounds};
use crate::sorted::{arranged, arranging_keeps, ascending_of, at_most, finite_sets_are_listed, orders, sort_by, TextMap, TextSet};
use crate::text::{
    cat, cat3, chars_of, ends, ends_with, eq_ignore_case, filled, is_hex, lower, pieces, replace_char, replaced,
    same_folded, same_text, split, starts, strip_prefix, text_between, to_lower, trim, trimmed, Sep,
};
use crate::unitypackage::{
    archive_of, entries_of, entries_read, every_directory_has_an_entry, guid_shaped, is_guid, lower_set, member_parts, member_view,
    members_read, picked, read_members, whole, EntryView, Member, MemberView, ScanOptions, TarMember,
    TarMemberView, UnpackedView,
};

verus! {

// ----- reading members from a package (cache or stream) --------------------------------------

pub open spec fn package_file(cfg: ConfigView, pkg: PackageView) -> Seq<char> {
    joined_path(cfg.library, pkg.rel_path)
}

pub open spec fn cache_place(cfg: ConfigView, pkg_id: i64) -> Seq<char> {
    joined_path(joined_path(cfg.home, "cache"@), signed_numeral(pkg_id as int))
}

/// Where a package file is.
pub fn package_abs_path(cfg: &Config, pkg: &Package) -> (r: String)
    ensures
        r@ == package_file(cfg@, pkg@),
{
    join_path(cfg.library.as_str(), pkg.rel_path.as_str())
}

/// The directory that a package is cached in.
pub fn cache_path_for(cfg: &Config, pkg_id: i64) -> (r: String)
    ensures
        r@ == cache_place(cfg@, pkg_id),
{
    join_path(cfg.cache_dir().as_str(), decimal_i64(pkg_id).as_str())
}

/// The file that marks a cached package as complete.
pub fn cache_mark_for(cfg: &Config, pkg_id: i64) -> (r: String)
    ensures
        r@ == joined_path(cache_place(cfg@, pkg_id), ".complete"@),
{
    join_path(cache_path_for(cfg, pkg_id).as_str(), ".complete")
}

/// Whether the local copy of a package is complete; `files` holds the files that are there.
pub fn cache_complete(cfg: &Config, pkg_id: i64, files: &TextSet) -> (r: bool)
    ensures
        r == files@.contains(joined_path(cache_place(cfg@, pkg_id), ".complete"@)),
{
    files.contains(cache_mark_for(cfg, pkg_id).as_str())
}

/// The directory in which a package is gathered before it takes its place in the cache.
pub fn cache_partial_for(cfg: &Config, pkg_id: i64) -> (r: String)
    ensures
        r@ == joined_path(joined_path(cfg@.home, "cache"@), signed_numeral(pkg_id as int) + ".partial"@),
{
    join_path(cfg.cache_dir().as_str(), cat(decimal_i64(pkg_id).as_str(), ".partial").as_str())
}

/// Where the members of a package are read from.
pub enum Source {
    /// The directory of the local cache.
    Cache(String),
    /// The package file.
    File(String),
}

/// Where to read the members of a package: from the local cache when it is complete, else from the
/// package file, which has to be there.
pub fn member_source(cfg: &Config, pkg: &Package, complete: bool, is_file: bool) -> (r: Result<Source, Error>)
    ensures
        complete ==> (r matches Ok(Source::Cache(d)) && d@ == cache_place(cfg@, pkg@.id)),
        !complete && is_file ==> (r matches Ok(Source::File(p)) && p@ == package_file(cfg@, pkg@)),
        !complete && !is_file ==> (r matches Err(e) && e@ == ErrorView::Other(
            "package file not found: "@ + package_file(cfg@, pkg@)
                + " (library not mounted? try `uai config` / `uai cache add`)"@,
        )),
{
    if complete {
        return Ok(Source::Cache(cache_path_for(cfg, pkg.id)));
    }
    let path = package_abs_path(cfg, pkg);
    if is_file {
        Ok(Source::File(path))
    } else {
        Err(
            Error::Other(
                cat3(
                    "package file not found: ",
                    path.as_str(),
                    " (library not mounted? try `uai config` / `uai cache add`)",
                ),
            ),
        )
    }
}

/// A member of a cached package: where to read it.
#[derive(Debug)]
pub struct CachedMember {
    pub guid: String,
    pub leaf: String,
    pub path: String,
}

/// What a [`CachedMember`] holds.
#[verifier::ext_equal]
pub struct CachedMemberView {
    pub guid: Seq<char>,
    pub leaf: Seq<char>,
    pub path: Seq<char>,
}

impl View for CachedMember {
    type V = CachedMemberView;

    open spec fn view(&self) -> CachedMemberView {
        CachedMemberView {
            guid: self.guid@,
            leaf: self.leaf@,
            path: self.path@,
        }
    }
}

impl DeepView for CachedMember {
    type V = CachedMemberView;

    open spec fn deep_view(&self) -> CachedMemberView {
        self.view()
    }
}

impl Clone for CachedMember {
    fn clone(&self) -> (r: Self)
        ensures
            r@ == self@,
    {
        let r = CachedMember {
            guid: self.guid.clone(),
            leaf: self.leaf.clone(),
            path: self.path.clone(),
        };
        r
    }
}

/// The leaves of a guid directory.
pub open spec fn leaves() -> Seq<Seq<char>> {
    seq!["asset"@, "asset.meta"@, "pathname"@, "preview.png"@]
}

pub open spec fn cached_member(dir: Seq<char>, guid: Seq<char>, leaf: Seq<char>) -> CachedMemberView {
    CachedMemberView { guid: lower(guid), leaf, path: joined_path(joined_path(dir, lower(guid)), leaf) }
}

/// The members to look for in a cached package: every leaf of every guid, in order.
pub open spec fn cached_of(dir: Seq<char>, guids: Seq<Seq<char>>) -> Seq<CachedMemberView>
    decreases guids.len(),
{
    if guids.len() == 0 {
        Seq::empty()
    } else {
        cached_of(dir, guids.drop_last()) + leaves().map_values(
            |leaf: Seq<char>| cached_member(dir, guids.last(), leaf),
        )
    }
}

fn push_cached(dir: &str, guid: &str, leaf: &str, out: &mut Vec<CachedMember>)
    ensures
        final(out).deep_view() == old(out).deep_view().push(cached_member(dir@, guid@, leaf@)),
{
    let ghost o0 = out.deep_view();
    let g = to_lower(guid);
    let path = join_path(join_path(dir, g.as_str()).as_str(), leaf);
    let m = CachedMember { guid: g, leaf: leaf.to_string(), path };
    let ghost mv = m@;
    out.push(m);
    assert(out.deep_view() =~= o0.push(mv));
}

/// The members to look for in a cached package, for the guids that are wanted.
pub fn cached_members(dir: &str, guids: &TextSet) -> (r: Vec<CachedMember>)
    ensures
        r.deep_view() == cached_of(dir@, ascending_of(guids@)),
{
    let keys = guids.to_vec();
    let ghost ks = keys.deep_view();
    let mut out: Vec<CachedMember> = Vec::new();
    let mut i: usize = 0;
    assert(ks.take(0) =~= Seq::<Seq<char>>::empty());
    assert(out.deep_view() =~= Seq::<CachedMemberView>::empty());
    while i < keys.len()
        invariant
            i <= keys@.len(),
            ks == keys.deep_view(),
            out.deep_view() == cached_of(dir@, ks.take(i as int)),
        decreases keys@.len() - i,
    {
        let ghost o0 = out.deep_view();
        let g = keys[i].as_str();
        push_cached(dir, g, "asset", &mut out);
        push_cached(dir, g, "asset.meta", &mut out);
        push_cached(dir, g, "pathname", &mut out);
        push_cached(dir, g, "preview.png", &mut out);
        proof {
            let t = ks.take(i + 1);
            assert(t.drop_last() =~= ks.take(i as int));
            assert(t.last() == g@);
            assert(out.deep_view() =~= o0 + leaves().map_values(|leaf: Seq<char>| cached_member(dir@, t.last(), leaf)));
        }
        i += 1;
    }
    assert(ks.take(ks.len() as int) =~= ks);
    out
}

// ----- cache ---------------------------------------------------------------------------------

/// A directory entry of the cache.
#[derive(Debug)]
pub struct CacheDir {
    pub name: String,
    pub is_dir: bool,
    /// How large its files are together.
    pub bytes: u64,
    /// Whether the mark of a complete package is in it.
    pub complete: bool,
    pub path: String,
}

/// What a [`CacheDir`] holds.
#[verifier::ext_equal]
pub struct CacheDirView {
    pub name: Seq<char>,
    pub is_dir: bool,
    pub bytes: u64,
    pub complete: bool,
    pub path: Seq<char>,
}

impl View for CacheDir {
    type V = CacheDirView;

    open spec fn view(&self) -> CacheDirView {
        CacheDirView {
            name: self.name@,
            is_dir: self.is_dir,
            bytes: self.bytes,
            complete: self.complete,
            path: self.path@,
        }
    }
}

impl DeepView for CacheDir {
    type V = CacheDirView;

    open spec fn deep_view(&self) -> CacheDirView {
        self.view()
    }
}

impl Clone for CacheDir {
    fn clone(&self) -> (r: Self)
        ensures
            r@ == self@,
    {
        let r = CacheDir {
            name: self.name.clone(),
            is_dir: self.is_dir,
            bytes: self.bytes,
            complete: self.complete,
            path: self.path.clone(),
        };
        r
    }
}
pub open spec fn by_dir_name() -> spec_fn(CacheDirView, CacheDirView) -> bool {
    |a: CacheDirView, b: CacheDirView| at_most(a.name, b.name)
}

proof fn lemma_by_dir_name()
    ensures
        orders(by_dir_name()),
{
    lemma_at_most_orders();
}

proof fn lemma_at_most_orders()
    ensures
        forall|a: Seq<char>, b: Seq<char>| #[trigger] at_most(a, b) || at_most(b, a),
        forall|a: Seq<char>, b: Seq<char>, c: Seq<char>| #[trigger]
            at_most(a, b) && #[trigger] at_most(b, c) ==> at_most(a, c),
{
    assert forall|a: Seq<char>, b: Seq<char>| #[trigger] at_most(a, b) || at_most(b, a) by {
        at_most_is_total(a, b);
    }
    assert forall|a: Seq<char>, b: Seq<char>, c: Seq<char>| #[trigger]
        at_most(a, b) && #[trigger] at_most(b, c) implies at_most(a, c) by {
        at_most_is_transitive(a, b, c);
    }
}

/// The cached package that a directory holds: its name is the id of a package.
pub open spec fn cache_entry_of(db: DbView, d: CacheDirView) -> Option<CacheEntryView> {
    match integer_of(d.name) {
        Some(n) => if d.is_dir && i64::MIN <= n <= i64::MAX {
            Some(
                CacheEntryView {
                    package_id: n as i64,
                    package: match package_with_id(db, n as i64) {
                        Some(p) => p.name,
                        None => "?"@,
                    },
                    bytes: d.bytes as i64,
                    complete: d.complete,
                    path: d.path,
                },
            )
        } else {
            None
        },
        None => None,
    }
}

pub open spec fn cache_entries(db: DbView, dirs: Seq<CacheDirView>) -> Seq<CacheEntryView>
    decreases dirs.len(),
{
    if dirs.len() == 0 {
        Seq::empty()
    } else {
        let front = cache_entries(db, dirs.drop_last());
        match cache_entry_of(db, dirs.last()) {
            Some(e) => front.push(e),
            None => front,
        }
    }
}

/// The cached packages among the entries of the cache directory, by name of their directory.
pub fn cache_list(db: &Database, dirs: Vec<CacheDir>) -> (r: Vec<CacheEntry>)
    ensures
        r.deep_view() == cache_entries(db@, arranged(dirs.deep_view(), by_dir_name())),
{
    proof {
        lemma_by_dir_name();
    }
    let sorted = sort_by(
        dirs,
        &(|a: &CacheDir, b: &CacheDir| -> (c: bool)
            ensures
                c == at_most(a@.name, b@.name),
            { text_at_most(a.name.as_str(), b.name.as_str()) }),
        Ghost(by_dir_name()),
    );
    let ghost s = sorted.deep_view();
    let mut out: Vec<CacheEntry> = Vec::new();
    let mut i: usize = 0;
    assert(s.take(0) =~= Seq::<CacheDirView>::empty());
    assert(out.deep_view() =~= Seq::<CacheEntryView>::empty());
    while i < sorted.len()
        invariant
            i <= sorted@.len(),
            s == sorted.deep_view(),
            out.deep_view() == cache_entries(db@, s.take(i as int)),
        decreases sorted@.len() - i,
    {
        let d = &sorted[i];
        proof {
            assert(s.take(i + 1).drop_last() =~= s.take(i as int));
            assert(s.take(i + 1).last() == d@);
        }
        if d.is_dir {
            match parse_i64(d.name.as_str()) {
                Some(pid) => {
                    let package = match db.package_by_id(pid) {
                        Some(p) => p.name,
                        None => "?".to_string(),
                    };
                    let e = CacheEntry {
                        package_id: pid,
                        package,
                        bytes: d.bytes as i64,
                        complete: d.complete,
                        path: d.path.clone(),
                    };
                    let ghost o0 = out.deep_view();
                    let ghost ev = e@;
                    out.push(e);
                    assert(out.deep_view() =~= o0.push(ev));
                },
                None => {},
            }
        }
        i += 1;
    }
    assert(s.take(s.len() as int) =~= s);
    out
}

// ----- project conflict scan -----------------------------------------------------------------

/// The guid that a line of a `.meta` file states.
pub open spec fn guid_in_line(line: Seq<char>) -> Option<Seq<char>> {
    if starts(line, "guid:"@) && guid_shaped(trim(line.skip("guid:"@.len() as int))) {
        Some(lower(trim(line.skip("guid:"@.len() as int))))
    } else {
        None
    }
}

pub open spec fn first_guid(lines: Seq<Seq<char>>) -> Option<Seq<char>>
    decreases lines.len(),
{
    if lines.len() == 0 {
        None
    } else {
        match first_guid(lines.drop_last()) {
            Some(g) => Some(g),
            None => guid_in_line(lines.last()),
        }
    }
}

/// The guid that a `.meta` file states: that of the first line that states one.
pub open spec fn meta_guid_of(text: Seq<char>) -> Option<Seq<char>> {
    first_guid(pieces(text, Sep::Is('\n')))
}

pub fn meta_guid(text: &str) -> (r: Option<String>)
    ensures
        r.deep_view() == meta_guid_of(text@),
{
    let lines = split(text, Sep::Is('\n'));
    let ghost s = lines.deep_view();
    let mut found: Option<String> = None;
    let mut i: usize = 0;
    assert(s.take(0) =~= Seq::<Seq<char>>::empty());
    while i < lines.len()
        invariant
            i <= lines@.len(),
            s == lines.deep_view(),
            found.deep_view() == first_guid(s.take(i as int)),
        decreases lines@.len() - i,
    {
        proof {
            assert(s.take(i + 1).drop_last() =~= s.take(i as int));
            assert(s.take(i + 1).last() == lines@[i as int]@);
        }
        if found.is_none() {
            match strip_prefix(lines[i].as_str(), "guid:") {
                Some(rest) => {
                    let g = trimmed(rest.as_str());
                    if is_guid(g.as_str()) {
                        found = Some(to_lower(g.as_str()));
                    }
                },
                None => {},
            }
        }
        i += 1;
    }
    assert(s.take(s.len() as int) =~= s);
    found
}

/// The beginning of a file of a project.
#[derive(Debug)]
pub struct MetaFile {
    /// Path relative to the project.
    pub rel: String,
    /// The first bytes, 512 at most.
    pub head: Vec<u8>,
}

/// What a [`MetaFile`] holds.
#[verifier::ext_equal]
pub struct MetaFileView {
    pub rel: Seq<char>,
    pub head: Seq<u8>,
}

impl View for MetaFile {
    type V = MetaFileView;

    open spec fn view(&self) -> MetaFileView {
        MetaFileView {
            rel: self.rel@,
            head: self.head.deep_view(),
        }
    }
}

impl DeepView for MetaFile {
    type V = MetaFileView;

    open spec fn deep_view(&self) -> MetaFileView {
        self.view()
    }
}

impl Clone for MetaFile {
    fn clone(&self) -> (r: Self)
        ensures
            r@ == self@,
    {
        let r = MetaFile {
            rel: self.rel.clone(),
            head: self.head.clone(),
        };
        assert(r.head.deep_view() =~= self.head.deep_view());
        r
    }
}
/// A path without the `.meta` at its end.
pub open spec fn without_meta(rel: Seq<char>) -> Seq<char> {
    rel.take(rel.len() - ".meta"@.len())
}

/// guid -> relative path (without `.meta`) for every `.meta` file; a later file wins.
pub open spec fn project_guids(files: Seq<MetaFileView>) -> Map<Seq<char>, Seq<char>>
    decreases files.len(),
{
    if files.len() == 0 {
        Map::empty()
    } else {
        let front = project_guids(files.drop_last());
        let f = files.last();
        if ends(f.rel, ".meta"@) {
            match meta_guid_of(lossy_of(f.head)) {
                Some(g) => front.insert(g, without_meta(replaced(f.rel, '\\', '/'))),
                None => front,
            }
        } else {
            front
        }
    }
}

fn strip_meta(rel: &str) -> (r: String)
    requires
        ends(rel@, ".meta"@),
    ensures
        r@ == without_meta(rel@),
{
    let v = chars_of(rel);
    let m = chars_of(".meta");
    let n: usize = v.len();
    let k: usize = m.len();
    assert(v@.subrange(0, n - k) =~= without_meta(rel@));
    text_between(&v, 0, n - k)
}

/// guid -> relative path (without `.meta`) for every `.meta` file under a project's `Assets/`.
pub fn scan_project_guids(files: &Vec<MetaFile>) -> (r: TextMap<String>)
    ensures
        r.deep_view() == project_guids(files.deep_view()),
{
    let ghost s = files.deep_view();
    let mut out: TextMap<String> = TextMap::new();
    let mut i: usize = 0;
    assert(s.take(0) =~= Seq::<MetaFileView>::empty());
    assert(out.deep_view() =~= Map::<Seq<char>, Seq<char>>::empty());
    while i < files.len()
        invariant
            i <= files@.len(),
            s == files.deep_view(),
            out.deep_view() == project_guids(s.take(i as int)),
        decreases files@.len() - i,
    {
        let f = &files[i];
        proof {
            assert(s.take(i + 1).drop_last() =~= s.take(i as int));
            assert(s.take(i + 1).last() == f@);
            assert(f.head.deep_view() =~= f.head@);
        }
        if ends_with(f.rel.as_str(), ".meta") {
            match meta_guid(lossy(f.head.as_slice()).as_str()) {
                Some(g) => {
                    let rel = replace_char(f.rel.as_str(), '\\', '/');
                    proof {
                        reveal_strlit(".meta");
                        lemma_replaced_end(f.rel@, '\\', '/', ".meta"@);
                    }
                    let path = strip_meta(rel.as_str());
                    let ghost o0 = out.deep_view();
                    let ghost gv = g@;
                    let ghost pv = path@;
                    out.insert(g, path);
                    assert(out.deep_view() =~= o0.insert(gv, pv));
                },
                None => {},
            }
        }
        i += 1;
    }
    assert(s.take(s.len() as int) =~= s);
    out
}

proof fn lemma_replaced_end(s: Seq<char>, from: char, to: char, p: Seq<char>)
    requires
        ends(s, p),
        forall|i: int| 0 <= i < p.len() ==> #[trigger] p[i] != from,
    ensures
        ends(replaced(s, from, to), p),
{
    let r = replaced(s, from, to);
    assert(r.len() == s.len());
    let at = s.len() - p.len();
    assert(r.subrange(at, at + p.len()) =~= p) by {
        assert forall|i: int| 0 <= i < p.len() implies r[at + i] == p[i] by {
            assert(s.subrange(at, at + p.len())[i] == p[i]);
        }
    }
}

// ----- what to write -------------------------------------------------------------------------

pub open spec fn meta_place(target: Seq<char>) -> Seq<char> {
    target + ".meta"@
}

/// The file beside `target` that holds its import settings.
pub fn meta_path(target: &str) -> (r: String)
    ensures
        r@ == meta_place(target@),
{
    cat(target, ".meta")
}

/// What must be there for an asset to count as exported already: the file, or the meta file of a
/// folder.
pub open spec fn probe(dest: Seq<char>, a: AssetView) -> Seq<char> {
    if a.is_folder {
        meta_place(joined_path(dest, a.path))
    } else {
        joined_path(dest, a.path)
    }
}

pub fn probe_path(dest_root: &str, a: &Asset) -> (r: String)
    ensures
        r@ == probe(dest_root@, a@),
{
    let target = join_path(dest_root, a.path.as_str());
    if a.is_folder {
        meta_path(target.as_str())
    } else {
        target
    }
}

/// The files that an asset becomes: its own and that of its import settings.
pub open spec fn places(dest: Seq<char>, a: AssetView) -> Seq<Seq<char>> {
    seq![joined_path(dest, a.path), meta_place(joined_path(dest, a.path))]
}

/// The paths that have to be looked up before an asset is exported.
pub fn asset_places(dest_root: &str, a: &Asset) -> (r: Vec<String>)
    ensures
        r.deep_view() == places(dest_root@, a@),
{
    let target = join_path(dest_root, a.path.as_str());
    let meta = meta_path(target.as_str());
    let mut r: Vec<String> = Vec::new();
    r.push(target);
    r.push(meta);
    assert(r.deep_view() =~= places(dest_root@, a@));
    r
}

/// The place an export goes to, as it is found.
pub struct Site {
    pub dest: Seq<char>,
    pub force: bool,
    /// guid -> path of what the project has.
    pub guids: Map<Seq<char>, Seq<char>>,
    /// What is there of the paths in question.
    pub exists: Set<Seq<char>>,
}

/// Whether the project has the guid of an asset at another path.
pub open spec fn in_conflict(site: Site, a: AssetView) -> bool {
    site.guids.contains_key(a.guid) && !same_folded(site.guids[a.guid], a.path)
}

/// Whether an asset is left as it is.
pub open spec fn kept(site: Site, a: AssetView) -> bool {
    !in_conflict(site, a) && site.exists.contains(probe(site.dest, a)) && !site.force
}

/// Whether an asset is to be written.
pub open spec fn due(site: Site, a: AssetView) -> bool {
    !in_conflict(site, a) && (!site.exists.contains(probe(site.dest, a)) || site.force)
}

pub open spec fn conflict_of(site: Site, a: AssetView) -> ConflictView {
    ConflictView { guid: a.guid, path: a.path, existing_path: site.guids[a.guid] }
}

pub open spec fn file_of(a: AssetView) -> WrittenFileView {
    WrittenFileView { guid: a.guid, path: a.path, bytes: a.size }
}

/// The conflicts among some assets.
pub open spec fn conflicts_among(site: Site, assets: Seq<AssetView>) -> Seq<ConflictView>
    decreases assets.len(),
{
    if assets.len() == 0 {
        Seq::empty()
    } else {
        let front = conflicts_among(site, assets.drop_last());
        if in_conflict(site, assets.last()) {
            front.push(conflict_of(site, assets.last()))
        } else {
            front
        }
    }
}

/// What is there already of some assets.
pub open spec fn kept_among(site: Site, assets: Seq<AssetView>) -> Seq<WrittenFileView>
    decreases assets.len(),
{
    if assets.len() == 0 {
        Seq::empty()
    } else {
        let front = kept_among(site, assets.drop_last());
        if kept(site, assets.last()) {
            front.push(file_of(assets.last()))
        } else {
            front
        }
    }
}

/// What is to be written of some assets, by guid.
pub open spec fn due_among(site: Site, assets: Seq<AssetView>) -> Map<Seq<char>, AssetView>
    decreases assets.len(),
{
    if assets.len() == 0 {
        Map::empty()
    } else {
        let front = due_among(site, assets.drop_last());
        if due(site, assets.last()) {
            front.insert(assets.last().guid, assets.last())
        } else {
            front
        }
    }
}

/// A result with the conflicts and the existing files among some assets added.
pub open spec fn sifted(site: Site, assets: Seq<AssetView>, res: ExportResultView) -> ExportResultView {
    ExportResultView {
        conflicts: res.conflicts + conflicts_among(site, assets),
        skipped_existing: res.skipped_existing + kept_among(site, assets),
        ..res
    }
}

fn push_conflict(v: &mut Vec<Conflict>, a: &Asset, existing: &str)
    ensures
        final(v).deep_view() == old(v).deep_view().push(
            (ConflictView { guid: a@.guid, path: a@.path, existing_path: existing@ }),
        ),
{
    let ghost v0 = v.deep_view();
    let c = Conflict { guid: a.guid.clone(), path: a.path.clone(), existing_path: existing.to_string() };
    let ghost cv = c@;
    v.push(c);
    assert(v.deep_view() =~= v0.push(cv));
}

fn push_file(v: &mut Vec<WrittenFile>, guid: &str, a: &Asset)
    ensures
        final(v).deep_view() == old(v).deep_view().push(
            (WrittenFileView { guid: guid@, path: a@.path, bytes: a@.size }),
        ),
{
    let ghost v0 = v.deep_view();
    let w = WrittenFile { guid: guid.to_string(), path: a.path.clone(), bytes: a.size };
    let ghost wv = w@;
    v.push(w);
    assert(v.deep_view() =~= v0.push(wv));
}

/// Decides which assets need writing: existing files are left unless `force`, and an asset whose
/// guid the project has at another path is recorded as a conflict. `exists` holds what is there of
/// the paths that [`asset_places`] gives.
pub fn select_todo(
    assets: &Vec<Asset>,
    dest_root: &str,
    force: bool,
    project_guids: &TextMap<String>,
    exists: &TextSet,
    res: &mut ExportResult,
) -> (todo: TextMap<Asset>)
    ensures
        ({
            let site = Site { dest: dest_root@, force, guids: project_guids.deep_view(), exists: exists@ };
            &&& todo.deep_view() == due_among(site, assets.deep_view())
            &&& final(res)@ == sifted(site, assets.deep_view(), old(res)@)
        }),
{
    let ghost site = Site { dest: dest_root@, force, guids: project_guids.deep_view(), exists: exists@ };
    let ghost s = assets.deep_view();
    let ghost r0 = res@;
    let mut todo: TextMap<Asset> = TextMap::new();
    let mut i: usize = 0;
    proof {
        assert(s.take(0) =~= Seq::<AssetView>::empty());
        assert(todo.deep_view() =~= Map::<Seq<char>, AssetView>::empty());
        assert(res@ =~= sifted(site, s.take(0), r0));
    }
    while i < assets.len()
        invariant
            i <= assets@.len(),
            s == assets.deep_view(),
            site == (Site { dest: dest_root@, force, guids: project_guids.deep_view(), exists: exists@ }),
            todo.deep_view() == due_among(site, s.take(i as int)),
            res@ == sifted(site, s.take(i as int), r0),
        decreases assets@.len() - i,
    {
        let a = &assets[i];
        let ghost t0 = todo.deep_view();
        let ghost r1 = res@;
        proof {
            assert(s.take(i + 1).drop_last() =~= s.take(i as int));
            assert(s.take(i + 1).last() == a@);
        }
        let mut clash = false;
        match project_guids.get(a.guid.as_str()) {
            Some(existing) => {
                assert(site.guids[a@.guid] == existing@);
                if !eq_ignore_case(existing.as_str(), a.path.as_str()) {
                    push_conflict(&mut res.conflicts, a, existing.as_str());
                    clash = true;
                }
            },
            None => {},
        }
        assert(clash == in_conflict(site, a@));
        if !clash {
            if exists.contains(probe_path(dest_root, a).as_str()) && !force {
                push_file(&mut res.skipped_existing, a.guid.as_str(), a);
            } else {
                let c = a.clone();
                let ghost cv = c@;
                todo.insert(a.guid.clone(), c);
                assert(todo.deep_view() =~= t0.insert(a@.guid, cv));
            }
        }
        proof {
            let n = s.take(i + 1);
            assert(res@ =~= sifted(site, n, r0));
        }
        i += 1;
    }
    assert(s.take(s.len() as int) =~= s);
    todo
}

// ----- writing -------------------------------------------------------------------------------

/// What the members of a package are for.
#[derive(Clone, Copy)]
pub enum Goal {
    /// Files and their meta files.
    Extract,
    /// The guid directories of another package.
    Repack,
}

/// What a member is noted as.
pub open spec fn noted_as(goal: Goal, leaf: Seq<char>) -> Option<Seq<char>> {
    match goal {
        Goal::Extract => if leaf == "asset"@ {
            Some("asset"@)
        } else if leaf == "asset.meta"@ {
            Some("meta"@)
        } else {
            None
        },
        Goal::Repack => Some(leaf),
    }
}

/// Whether everything that an asset needs has come.
pub open spec fn is_whole(goal: Goal, a: AssetView, got: Set<Seq<char>>) -> bool {
    match goal {
        Goal::Extract => got.contains("meta"@) && (got.contains("asset"@) || a.is_folder),
        Goal::Repack => got.contains("asset.meta"@),
    }
}

/// What a [`Tally`] has counted.
#[verifier::ext_equal]
pub struct Count {
    /// What has come of each guid.
    pub seen: Map<Seq<char>, Set<Seq<char>>>,
    /// The sizes of the assets that have come.
    pub bytes: i64,
}

pub open spec fn got_of(st: Count, guid: Seq<char>) -> Set<Seq<char>> {
    if st.seen.contains_key(guid) {
        st.seen[guid]
    } else {
        Set::empty()
    }
}

/// A tally after one more member.
pub open spec fn noted(
    goal: Goal,
    todo: Map<Seq<char>, AssetView>,
    st: Count,
    guid: Seq<char>,
    leaf: Seq<char>,
    size: u64,
) -> Count {
    if !todo.contains_key(guid) {
        st
    } else {
        match noted_as(goal, leaf) {
            Some(l) => Count {
                seen: st.seen.insert(guid, got_of(st, guid).insert(l)),
                bytes: if leaf == "asset"@ {
                    st.bytes.wrapping_add(size as i64)
                } else {
                    st.bytes
                },
            },
            None => st,
        }
    }
}

/// The tally of some members.
pub open spec fn tally_of(goal: Goal, todo: Map<Seq<char>, AssetView>, ms: Seq<MemberView>) -> Count
    decreases ms.len(),
{
    if ms.len() == 0 {
        Count { seen: Map::empty(), bytes: 0 }
    } else {
        let m = ms.last();
        noted(goal, todo, tally_of(goal, todo, ms.drop_last()), m.guid, m.leaf, m.size)
    }
}

/// The assets of which everything has come.
pub open spec fn whole_files(
    goal: Goal,
    todo: Map<Seq<char>, AssetView>,
    st: Count,
    guids: Seq<Seq<char>>,
) -> Seq<WrittenFileView>
    decreases guids.len(),
{
    if guids.len() == 0 {
        Seq::empty()
    } else {
        let front = whole_files(goal, todo, st, guids.drop_last());
        let g = guids.last();
        if is_whole(goal, todo[g], got_of(st, g)) {
            front.push(WrittenFileView { guid: g, path: todo[g].path, bytes: todo[g].size })
        } else {
            front
        }
    }
}

/// The assets of which something is missing, with what has come.
pub open spec fn missing_files(
    goal: Goal,
    todo: Map<Seq<char>, AssetView>,
    st: Count,
    guids: Seq<Seq<char>>,
) -> Seq<MissingMemberView>
    decreases guids.len(),
{
    if guids.len() == 0 {
        Seq::empty()
    } else {
        let front = missing_files(goal, todo, st, guids.drop_last());
        let g = guids.last();
        if is_whole(goal, todo[g], got_of(st, g)) {
            front
        } else {
            front.push(MissingMemberView { guid: g, path: todo[g].path, got: ascending_of(got_of(st, g)) })
        }
    }
}

/// A result with what a tally says added, by guid.
pub open spec fn tallied(
    goal: Goal,
    todo: Map<Seq<char>, AssetView>,
    st: Count,
    res: ExportResultView,
) -> ExportResultView {
    let guids = ascending_of(todo.dom());
    ExportResultView {
        bytes_written: res.bytes_written.wrapping_add(st.bytes),
        written: res.written + whole_files(goal, todo, st, guids),
        missing_in_package: res.missing_in_package + missing_files(goal, todo, st, guids),
        ..res
    }
}

/// Keeps track of the members of the assets that are to be written.
pub struct Tally {
    pub goal: Goal,
    pub todo: TextMap<Asset>,
    pub seen: TextMap<TextSet>,
    pub bytes: i64,
}

impl Tally {
    /// What has been counted.
    pub open spec fn count(&self) -> Count {
        Count { seen: self.seen.deep_view(), bytes: self.bytes }
    }

    pub fn new(goal: Goal, todo: TextMap<Asset>) -> (r: Self)
        ensures
            r.goal == goal,
            r.todo == todo,
            r.count() == (Count { seen: Map::empty(), bytes: 0 }),
    {
        let r = Tally { goal, todo, seen: TextMap::new(), bytes: 0 };
        assert(r.seen.deep_view() =~= Map::<Seq<char>, Set<Seq<char>>>::empty());
        r
    }

    fn got(&self, guid: &str) -> (r: TextSet)
        ensures
            r@ == got_of(self.count(), guid@),
    {
        assert(self.seen.deep_view().dom() =~= self.seen@.dom());
        match self.seen.get(guid) {
            Some(s) => s.clone(),
            None => TextSet::new(),
        }
    }

    /// Notes a member.
    pub fn note(&mut self, guid: &str, leaf: &str, size: u64)
        ensures
            final(self).goal == old(self).goal,
            final(self).todo == old(self).todo,
            final(self).count() == noted(old(self).goal, old(self).todo.deep_view(), old(self).count(), guid@, leaf@, size),
    {
        let ghost st = self.count();
        assert(self.todo.deep_view().dom() =~= self.todo@.dom());
        if !self.todo.contains_key(guid) {
            return;
        }
        let is_asset = same_text(leaf, "asset");
        let label: Option<&str> = match self.goal {
            Goal::Extract => if is_asset {
                Some("asset")
            } else if same_text(leaf, "asset.meta") {
                Some("meta")
            } else {
                None
            },
            Goal::Repack => Some(leaf),
        };
        match label {
            Some(l) => {
                let mut got = self.got(guid);
                got.insert(l.to_string());
                let ghost gv = got@;
                self.seen.insert(guid.to_string(), got);
                assert(self.seen.deep_view() =~= st.seen.insert(guid@, gv));
                if is_asset {
                    self.bytes = self.bytes.wrapping_add(size as i64);
                }
            },
            None => {},
        }
    }

    /// Adds to a result what has come and what is missing.
    pub fn finish(&self, res: &mut ExportResult)
        ensures
            final(res)@ == tallied(self.goal, self.todo.deep_view(), self.count(), old(res)@),
    {
        let ghost r0 = res@;
        let ghost todo = self.todo.deep_view();
        let keys = self.todo.keys();
        let ghost ks = keys.deep_view();
        let n: usize = self.todo.len();
        let mut i: usize = 0;
        res.bytes_written = res.bytes_written.wrapping_add(self.bytes);
        proof {
            assert(todo.dom() =~= self.todo@.dom());
            assert(ks.take(0) =~= Seq::<Seq<char>>::empty());
            assert(res.written.deep_view() =~= r0.written + whole_files(self.goal, todo, self.count(), ks.take(0)));
            assert(res.missing_in_package.deep_view() =~= r0.missing_in_package + missing_files(
                self.goal,
                todo,
                self.count(),
                ks.take(0),
            ));
        }
        while i < n
            invariant
                i <= n,
                n == ks.len(),
                ks == keys.deep_view(),
                ks == self.todo.order(),
                todo == self.todo.deep_view(),
                res@ == (ExportResultView {
                    bytes_written: r0.bytes_written.wrapping_add(self.bytes),
                    written: r0.written + whole_files(self.goal, todo, self.count(), ks.take(i as int)),
                    missing_in_package: r0.missing_in_package + missing_files(
                        self.goal,
                        todo,
                        self.count(),
                        ks.take(i as int),
                    ),
                    ..r0
                }),
            decreases n - i,
        {
            let g = keys[i].as_str();
            let a = self.todo.value_at(i);
            let got = self.got(g);
            proof {
                assert(ks.take(i + 1).drop_last() =~= ks.take(i as int));
                assert(ks.take(i + 1).last() == g@);
                assert(todo[g@] == a@);
            }
            let whole = match self.goal {
                Goal::Extract => got.contains("meta") && (got.contains("asset") || a.is_folder),
                Goal::Repack => got.contains("asset.meta"),
            };
            let ghost w0 = res.written.deep_view();
            let ghost m0 = res.missing_in_package.deep_view();
            if whole {
                push_file(&mut res.written, g, a);
            } else {
                let m = MissingMember { guid: g.to_string(), path: a.path.clone(), got: got.to_vec() };
                let ghost mv = m@;
                res.missing_in_package.push(m);
                assert(res.missing_in_package.deep_view() =~= m0.push(mv));
            }
            proof {
                let t = ks.take(i + 1);
                assert(res.written.deep_view() =~= r0.written + whole_files(self.goal, todo, self.count(), t));
                assert(res.missing_in_package.deep_view() =~= r0.missing_in_package + missing_files(
                    self.goal,
                    todo,
                    self.count(),
                    t,
                ));
            }
            i += 1;
        }
        assert(ks.take(ks.len() as int) =~= ks);
    }
}

/// Where a member of a package is written to.
#[derive(Debug)]
pub struct Placement {
    pub path: String,
    /// Whether the file takes over the time of the member.
    pub timed: bool,
    /// A directory to make, for the meta file of a folder.
    pub folder: Option<String>,
}

/// What a [`Placement`] holds.
#[verifier::ext_equal]
pub struct PlacementView {
    pub path: Seq<char>,
    pub timed: bool,
    pub folder: Option<Seq<char>>,
}

impl View for Placement {
    type V = PlacementView;

    open spec fn view(&self) -> PlacementView {
        PlacementView {
            path: self.path@,
            timed: self.timed,
            folder: self.folder.deep_view(),
        }
    }
}

impl DeepView for Placement {
    type V = PlacementView;

    open spec fn deep_view(&self) -> PlacementView {
        self.view()
    }
}

impl Clone for Placement {
    fn clone(&self) -> (r: Self)
        ensures
            r@ == self@,
    {
        let r = Placement {
            path: self.path.clone(),
            timed: self.timed,
            folder: self.folder.clone(),
        };
        assert(r.folder.deep_view() == self.folder.deep_view());
        r
    }
}
/// Where a member belongs: an asset at its path, its import settings beside it.
pub open spec fn spot_of(
    todo: Map<Seq<char>, AssetView>,
    dest: Seq<char>,
    guid: Seq<char>,
    leaf: Seq<char>,
) -> Option<PlacementView> {
    if !todo.contains_key(guid) {
        None
    } else {
        let target = joined_path(dest, todo[guid].path);
        if leaf == "asset"@ {
            Some(PlacementView { path: target, timed: true, folder: None })
        } else if leaf == "asset.meta"@ {
            let folder = if todo[guid].is_folder {
                Some(target)
            } else {
                None
            };
            Some(PlacementView { path: meta_place(target), timed: false, folder })
        } else {
            None
        }
    }
}

/// The paths that an export leaves alone: without `force`, those that are there.
pub open spec fn spared(force: bool, exists: Set<Seq<char>>) -> Set<Seq<char>> {
    if force {
        Set::empty()
    } else {
        exists
    }
}

/// Where a member is written to: where it belongs, unless that path is left alone.
pub open spec fn placement_of(
    todo: Map<Seq<char>, AssetView>,
    dest: Seq<char>,
    spared: Set<Seq<char>>,
    guid: Seq<char>,
    leaf: Seq<char>,
) -> Option<PlacementView> {
    match spot_of(todo, dest, guid, leaf) {
        Some(p) => if spared.contains(p.path) {
            None
        } else {
            Some(p)
        },
        None => None,
    }
}

fn spot(todo: &TextMap<Asset>, dest_root: &str, guid: &str, leaf: &str) -> (r: Option<Placement>)
    ensures
        r.deep_view() == spot_of(todo.deep_view(), dest_root@, guid@, leaf@),
{
    assert(todo.deep_view().dom() =~= todo@.dom());
    match todo.get(guid) {
        None => None,
        Some(a) => {
            let target = join_path(dest_root, a.path.as_str());
            if same_text(leaf, "asset") {
                Some(Placement { path: target, timed: true, folder: None })
            } else if same_text(leaf, "asset.meta") {
                let path = meta_path(target.as_str());
                let folder: Option<String> = if a.is_folder {
                    Some(target)
                } else {
                    None
                };
                Some(Placement { path, timed: false, folder })
            } else {
                None
            }
        },
    }
}

/// Where a member is written to, if it is: nothing is written over what is there, unless `force`.
/// `exists` holds what is there of the paths that [`asset_places`] gives.
pub fn placement(
    todo: &TextMap<Asset>,
    dest_root: &str,
    force: bool,
    exists: &TextSet,
    guid: &str,
    leaf: &str,
) -> (r: Option<Placement>)
    ensures
        r.deep_view() == placement_of(todo.deep_view(), dest_root@, spared(force, exists@), guid@, leaf@),
        !force ==> (r matches Some(p) ==> !exists@.contains(p.path@)),
{
    match spot(todo, dest_root, guid, leaf) {
        Some(p) => if !force && exists.contains(p.path.as_str()) {
            None
        } else {
            Some(p)
        },
        None => None,
    }
}

/// A file that an export writes.
#[derive(Debug)]
pub struct PlacedFile {
    pub path: String,
    pub data: Vec<u8>,
    /// The time to give it; 0 leaves it.
    pub mtime: u64,
    /// A directory to make, for the meta file of a folder.
    pub folder: Option<String>,
}

/// What a [`PlacedFile`] holds.
#[verifier::ext_equal]
pub struct PlacedFileView {
    pub path: Seq<char>,
    pub data: Seq<u8>,
    pub mtime: u64,
    pub folder: Option<Seq<char>>,
}

impl View for PlacedFile {
    type V = PlacedFileView;

    open spec fn view(&self) -> PlacedFileView {
        PlacedFileView {
            path: self.path@,
            data: self.data.deep_view(),
            mtime: self.mtime,
            folder: self.folder.deep_view(),
        }
    }
}

impl DeepView for PlacedFile {
    type V = PlacedFileView;

    open spec fn deep_view(&self) -> PlacedFileView {
        self.view()
    }
}

impl Clone for PlacedFile {
    fn clone(&self) -> (r: Self)
        ensures
            r@ == self@,
    {
        let r = PlacedFile {
            path: self.path.clone(),
            data: self.data.clone(),
            mtime: self.mtime,
            folder: self.folder.clone(),
        };
        assert(r.data.deep_view() =~= self.data.deep_view());
        assert(r.folder.deep_view() == self.folder.deep_view());
        r
    }
}
/// The files that the members of a package become.
pub open spec fn placed_files(
    todo: Map<Seq<char>, AssetView>,
    dest: Seq<char>,
    spared: Set<Seq<char>>,
    ms: Seq<MemberView>,
) -> Seq<PlacedFileView>
    decreases ms.len(),
{
    if ms.len() == 0 {
        Seq::empty()
    } else {
        let front = placed_files(todo, dest, spared, ms.drop_last());
        let m = ms.last();
        match placement_of(todo, dest, spared, m.guid, m.leaf) {
            Some(p) => front.push(
                PlacedFileView {
                    path: p.path,
                    data: m.data,
                    mtime: if p.timed {
                        m.mtime
                    } else {
                        0
                    },
                    folder: p.folder,
                },
            ),
            None => front,
        }
    }
}

/// Places the members of the assets in `todo` under `dest_root`, and adds to the result what has
/// been written and what was missing. Without `force` nothing is placed at a path in `exists`.
pub fn write_members(
    todo: TextMap<Asset>,
    dest_root: &str,
    force: bool,
    exists: &TextSet,
    members: &Vec<Member>,
    res: &mut ExportResult,
) -> (r: Vec<PlacedFile>)
    ensures
        r.deep_view() == placed_files(todo.deep_view(), dest_root@, spared(force, exists@), members.deep_view()),
        !force ==> forall|i: int| 0 <= i < r@.len() ==> !exists@.contains((#[trigger] r@[i])@.path),
        final(res)@ == tallied(
            Goal::Extract,
            todo.deep_view(),
            tally_of(Goal::Extract, todo.deep_view(), members.deep_view()),
            old(res)@,
        ),
{
    let ghost tv = todo.deep_view();
    let ghost ms = members.deep_view();
    let mut tally = Tally::new(Goal::Extract, todo);
    let mut out: Vec<PlacedFile> = Vec::new();
    let mut i: usize = 0;
    proof {
        assert(ms.take(0) =~= Seq::<MemberView>::empty());
        assert(out.deep_view() =~= Seq::<PlacedFileView>::empty());
    }
    while i < members.len()
        invariant
            i <= members@.len(),
            ms == members.deep_view(),
            tally.goal == Goal::Extract,
            tally.todo.deep_view() == tv,
            tally.count() == tally_of(Goal::Extract, tv, ms.take(i as int)),
            out.deep_view() == placed_files(tv, dest_root@, spared(force, exists@), ms.take(i as int)),
        decreases members@.len() - i,
    {
        let m = &members[i];
        proof {
            assert(ms.take(i + 1).drop_last() =~= ms.take(i as int));
            assert(ms.take(i + 1).last() == m@);
        }
        match placement(&tally.todo, dest_root, force, exists, m.guid.as_str(), m.leaf.as_str()) {
            Some(p) => {
                let mtime: u64 = if p.timed {
                    m.mtime
                } else {
                    0
                };
                let f = PlacedFile { path: p.path, data: m.data.clone(), mtime, folder: p.folder };
                assert(f.data.deep_view() =~= m.data.deep_view());
                let ghost o0 = out.deep_view();
                let ghost fv = f@;
                out.push(f);
                assert(out.deep_view() =~= o0.push(fv));
            },
            None => {},
        }
        tally.note(m.guid.as_str(), m.leaf.as_str(), m.size);
        i += 1;
    }
    assert(ms.take(ms.len() as int) =~= ms);
    proof {
        assert forall|i: int| !force && 0 <= i < out@.len() implies !exists@.contains((#[trigger] out@[i])@.path) by {
            assert(out.deep_view()[i] == out@[i]@);
            lemma_spared(tv, dest_root@, exists@, ms, i);
        }
    }
    tally.finish(res);
    out
}

/// A result with every one of some assets counted as written.
pub open spec fn all_written(assets: Seq<AssetView>, res: ExportResultView) -> ExportResultView
    decreases assets.len(),
{
    if assets.len() == 0 {
        res
    } else {
        let r = all_written(assets.drop_last(), res);
        ExportResultView {
            written: r.written.push(file_of(assets.last())),
            bytes_written: r.bytes_written.wrapping_add(assets.last().size),
            ..r
        }
    }
}

/// Counts every one of some assets as written.
pub fn count_all(assets: &Vec<Asset>, res: &mut ExportResult)
    ensures
        final(res)@ == all_written(assets.deep_view(), old(res)@),
{
    let ghost r0 = res@;
    let ghost s = assets.deep_view();
    let mut i: usize = 0;
    assert(s.take(0) =~= Seq::<AssetView>::empty());
    while i < assets.len()
        invariant
            i <= assets@.len(),
            s == assets.deep_view(),
            res@ == all_written(s.take(i as int), r0),
        decreases assets@.len() - i,
    {
        let a = &assets[i];
        proof {
            assert(s.take(i + 1).drop_last() =~= s.take(i as int));
            assert(s.take(i + 1).last() == a@);
        }
        push_file(&mut res.written, a.guid.as_str(), a);
        res.bytes_written = res.bytes_written.wrapping_add(a.size);
        i += 1;
    }
    assert(s.take(s.len() as int) =~= s);
}

pub open spec fn by_asset_path() -> spec_fn(AssetView, AssetView) -> bool {
    |a: AssetView, b: AssetView| at_most(a.path, b.path)
}

/// A result with everything that is to be written counted as written, by path.
pub open spec fn rehearsed(todo: Map<Seq<char>, AssetView>, res: ExportResultView) -> ExportResultView {
    all_written(arranged(values_in_order(todo), by_asset_path()), res)
}

/// Counts everything that is to be written as written, by path.
pub fn rehearse(todo: &TextMap<Asset>, res: &mut ExportResult)
    ensures
        final(res)@ == rehearsed(todo.deep_view(), old(res)@),
{
    proof {
        lemma_at_most_orders();
        assert(orders(by_asset_path()));
    }
    let items = sort_by(
        copy_assets(todo),
        &(|a: &Asset, b: &Asset| -> (c: bool)
            ensures
                c == at_most(a@.path, b@.path),
            { text_at_most(a.path.as_str(), b.path.as_str()) }),
        Ghost(by_asset_path()),
    );
    count_all(&items, res);
}

/// The package that an export reads from, which the index must still have.
pub open spec fn package_of(db: DbView, pid: i64) -> Result<PackageView, ErrorView> {
    match package_with_id(db, pid) {
        Some(p) => Ok(p),
        None => Err(ErrorView::Other("package "@ + signed_numeral(pid as int) + " vanished from the index"@)),
    }
}

pub fn find_source(db: &Database, pid: i64) -> (r: Result<Package, Error>)
    ensures
        outcome(r) == package_of(db@, pid),
{
    match db.package_by_id(pid) {
        Some(p) => Ok(p),
        None => Err(Error::Other(cat3("package ", decimal_i64(pid).as_str(), " vanished from the index"))),
    }
}

pub open spec fn extract_line_of(dry_run: bool, n: nat, name: Seq<char>) -> Seq<char> {
    (if dry_run {
        "would extract"@
    } else {
        "extracting"@
    }) + " "@ + numeral(n) + " from "@ + name
}

/// What is logged before assets are extracted.
pub fn extract_line(dry_run: bool, n: usize, name: &str) -> (r: String)
    ensures
        r@ == extract_line_of(dry_run, n as nat, name@),
{
    let verb: &str = if dry_run {
        "would extract"
    } else {
        "extracting"
    };
    let mut s = cat3(verb, " ", decimal_usize(n).as_str());
    s.append(" from ");
    s.append(name);
    s
}

pub open spec fn pack_line_of(n: nat, name: Seq<char>) -> Seq<char> {
    "packing "@ + numeral(n) + " from "@ + name
}

/// What is logged before assets are packed.
pub fn pack_line(n: usize, name: &str) -> (r: String)
    ensures
        r@ == pack_line_of(n as nat, name@),
{
    let mut s = cat3("packing ", decimal_usize(n).as_str(), " from ");
    s.append(name);
    s
}

/// What is found when the turn of a package comes.
#[derive(Debug)]
pub struct Turn {
    /// What is there of the paths that [`asset_places`] gives.
    pub exists: TextSet,
    /// The members of the assets that are to be written.
    pub members: Vec<Member>,
}

/// What a [`Turn`] holds.
#[verifier::ext_equal]
pub struct TurnView {
    pub exists: Set<Seq<char>>,
    pub members: Seq<MemberView>,
}

impl View for Turn {
    type V = TurnView;

    open spec fn view(&self) -> TurnView {
        TurnView {
            exists: self.exists.deep_view(),
            members: self.members.deep_view(),
        }
    }
}

impl DeepView for Turn {
    type V = TurnView;

    open spec fn deep_view(&self) -> TurnView {
        self.view()
    }
}

impl Clone for Turn {
    fn clone(&self) -> (r: Self)
        ensures
            r@ == self@,
    {
        let r = Turn {
            exists: self.exists.clone(),
            members: self.members.clone(),
        };
        assert(r.members.deep_view() =~= self.members.deep_view());
        r
    }
}
/// What an export into a directory comes to.
#[derive(Debug)]
pub struct DirExport {
    pub result: ExportResult,
    /// The files to write, in order.
    pub files: Vec<PlacedFile>,
    pub log: Vec<String>,
}

/// What a [`DirExport`] holds.
#[verifier::ext_equal]
pub struct DirExportView {
    pub result: ExportResultView,
    pub files: Seq<PlacedFileView>,
    pub log: Seq<Seq<char>>,
}

impl View for DirExport {
    type V = DirExportView;

    open spec fn view(&self) -> DirExportView {
        DirExportView {
            result: self.result.deep_view(),
            files: self.files.deep_view(),
            log: self.log.deep_view(),
        }
    }
}

impl DeepView for DirExport {
    type V = DirExportView;

    open spec fn deep_view(&self) -> DirExportView {
        self.view()
    }
}

impl Clone for DirExport {
    fn clone(&self) -> (r: Self)
        ensures
            r@ == self@,
    {
        let r = DirExport {
            result: self.result.clone(),
            files: self.files.clone(),
            log: self.log.clone(),
        };
        assert(r.files.deep_view() =~= self.files.deep_view());
        assert(r.log.deep_view() =~= self.log.deep_view());
        r
    }
}
/// An export into a directory after one more package.
pub open spec fn package_exported(
    dest: Seq<char>,
    force: bool,
    dry_run: bool,
    guids: Map<Seq<char>, Seq<char>>,
    st: DirExportView,
    name: Seq<char>,
    assets: Seq<AssetView>,
    turn: TurnView,
) -> DirExportView {
    let site = Site { dest, force, guids, exists: turn.exists };
    let todo = due_among(site, assets);
    let res = sifted(site, assets, st.result);
    if todo.dom() == Set::<Seq<char>>::empty() {
        DirExportView { result: res, ..st }
    } else {
        let log = st.log.push(extract_line_of(dry_run, todo.dom().len(), name));
        if dry_run {
            DirExportView { result: rehearsed(todo, res), log, ..st }
        } else {
            DirExportView {
                result: tallied(Goal::Extract, todo, tally_of(Goal::Extract, todo, turn.members), res),
                files: st.files + placed_files(todo, dest, spared(force, turn.exists), turn.members),
                log,
            }
        }
    }
}

/// An export into a directory, package after package.
pub open spec fn dir_export(
    db: DbView,
    groups: Seq<(i64, Seq<AssetView>)>,
    dest: Seq<char>,
    force: bool,
    dry_run: bool,
    guids: Map<Seq<char>, Seq<char>>,
    turns: Seq<TurnView>,
    n: nat,
) -> Result<DirExportView, ErrorView>
    decreases n,
{
    if n == 0 {
        Ok(
            DirExportView {
                result: ExportResultView { output: dest, dry_run, ..no_export() },
                files: Seq::empty(),
                log: Seq::empty(),
            },
        )
    } else {
        match dir_export(db, groups, dest, force, dry_run, guids, turns, (n - 1) as nat) {
            Err(e) => Err(e),
            Ok(st) => match package_of(db, groups[n - 1].0) {
                Err(e) => Err(e),
                Ok(p) => Ok(
                    package_exported(dest, force, dry_run, guids, st, p.name, groups[n - 1].1, turns[n - 1]),
                ),
            },
        }
    }
}

/// The result of an export that has not begun.
pub open spec fn no_export() -> ExportResultView {
    ExportResultView {
        output: Seq::empty(),
        dry_run: false,
        bytes_written: 0,
        written: Seq::empty(),
        skipped_existing: Seq::empty(),
        conflicts: Seq::empty(),
        missing_in_package: Seq::empty(),
    }
}

proof fn lemma_dir_export_stops(
    db: DbView,
    groups: Seq<(i64, Seq<AssetView>)>,
    dest: Seq<char>,
    force: bool,
    dry_run: bool,
    guids: Map<Seq<char>, Seq<char>>,
    turns: Seq<TurnView>,
    k: nat,
    n: nat,
)
    requires
        k <= n,
        dir_export(db, groups, dest, force, dry_run, guids, turns, k) is Err,
    ensures
        dir_export(db, groups, dest, force, dry_run, guids, turns, n) == dir_export(
            db,
            groups,
            dest,
            force,
            dry_run,
            guids,
            turns,
            k,
        ),
    decreases n,
{
    if k < n {
        lemma_dir_export_stops(db, groups, dest, force, dry_run, guids, turns, k, (n - 1) as nat);
    }
}

/// Adds one package to an export into a directory.
pub fn export_package(
    st: &mut DirExport,
    name: &str,
    assets: &Vec<Asset>,
    dest_root: &str,
    force: bool,
    dry_run: bool,
    project_guids: &TextMap<String>,
    turn: &Turn,
)
    ensures
        final(st)@ == package_exported(
            dest_root@,
            force,
            dry_run,
            project_guids.deep_view(),
            old(st)@,
            name@,
            assets.deep_view(),
            turn@,
        ),
{
    let ghost st0 = st@;
    let todo = select_todo(assets, dest_root, force, project_guids, &turn.exists, &mut st.result);
    assert(todo.deep_view().dom() =~= todo@.dom());
    if todo.is_empty() {
        return;
    }
    let line = extract_line(dry_run, todo.len(), name);
    let ghost lv = line@;
    st.log.push(line);
    assert(st.log.deep_view() =~= st0.log.push(lv));
    if dry_run {
        rehearse(&todo, &mut st.result);
    } else {
        let ghost tv = todo.deep_view();
        let mut placed = write_members(todo, dest_root, force, &turn.exists, &turn.members, &mut st.result);
        let ghost pv = placed.deep_view();
        st.files.append(&mut placed);
        assert(st.files.deep_view() =~= st0.files + pv);
    }
}

/// Exports into a directory: for every package in order, the files to write under
/// `<dest_root>/<Assets/...>`, and what came of it. One turn belongs to each package.
pub fn export_to_dir(
    db: &Database,
    groups: &Vec<(i64, Vec<Asset>)>,
    dest_root: &str,
    force: bool,
    dry_run: bool,
    project_guids: &TextMap<String>,
    turns: &Vec<Turn>,
) -> (r: Result<DirExport, Error>)
    requires
        turns@.len() == groups@.len(),
    ensures
        outcome(r) == dir_export(
            db@,
            groups.deep_view(),
            dest_root@,
            force,
            dry_run,
            project_guids.deep_view(),
            turns.deep_view(),
            groups@.len(),
        ),
{
    let mut result = ExportResult::default();
    result.output = dest_root.to_string();
    result.dry_run = dry_run;
    let mut st = DirExport { result, files: Vec::new(), log: Vec::new() };
    let ghost gs = groups.deep_view();
    let ghost ts = turns.deep_view();
    let ghost pg = project_guids.deep_view();
    let n: usize = groups.len();
    let mut i: usize = 0;
    proof {
        assert(st.files.deep_view() =~= Seq::<PlacedFileView>::empty());
        assert(st.log.deep_view() =~= Seq::<Seq<char>>::empty());
        assert(st@ =~= dir_export(db@, gs, dest_root@, force, dry_run, pg, ts, 0)->Ok_0);
    }
    while i < n
        invariant
            i <= n,
            n == groups@.len(),
            n == turns@.len(),
            gs == groups.deep_view(),
            ts == turns.deep_view(),
            pg == project_guids.deep_view(),
            dir_export(db@, gs, dest_root@, force, dry_run, pg, ts, i as nat) == Ok::<DirExportView, ErrorView>(st@),
        decreases n - i,
    {
        proof {
            assert(gs[i as int] == (groups@[i as int].0, groups@[i as int].1.deep_view()));
            assert(ts[i as int] == turns@[i as int]@);
        }
        match find_source(db, groups[i].0) {
            Err(e) => {
                proof {
                    lemma_dir_export_stops(db@, gs, dest_root@, force, dry_run, pg, ts, (i + 1) as nat, n as nat);
                }
                return Err(e);
            },
            Ok(p) => {
                export_package(
                    &mut st,
                    p.name.as_str(),
                    &groups[i].1,
                    dest_root,
                    force,
                    dry_run,
                    project_guids,
                    &turns[i],
                );
            },
        }
        i += 1;
    }
    Ok(st)
}

/// What unpacking some members of a package comes to: the result, and the files to write.
pub open spec fn unpacked(
    site: Site,
    assets: Seq<AssetView>,
    archive: UnpackedView,
) -> Result<(ExportResultView, Seq<PlacedFileView>), ErrorView> {
    let todo = due_among(site, assets);
    let res = sifted(site, assets, ExportResultView { output: site.dest, ..no_export() });
    if todo.dom() == Set::<Seq<char>>::empty() {
        Ok((res, Seq::empty()))
    } else {
        match members_read(archive, lower_set(ascending_of(todo.dom()))) {
            Err(e) => Err(e),
            Ok(ms) => Ok(
                (
                    tallied(Goal::Extract, todo, tally_of(Goal::Extract, todo, ms), res),
                    placed_files(todo, site.dest, spared(site.force, site.exists), ms),
                ),
            ),
        }
    }
}

/// Unpacks a (slim) package: the files that the planned assets become under `dest_root`, and what
/// came of it. Where nothing is to be written, the archive is not read.
pub fn unpack_package_to_dir(
    package: &[u8],
    assets: &Vec<Asset>,
    dest_root: &str,
    force: bool,
    project_guids: &TextMap<String>,
    exists: &TextSet,
) -> (r: Result<(ExportResult, Vec<PlacedFile>), Error>)
    ensures
        ({
            let site = Site { dest: dest_root@, force, guids: project_guids.deep_view(), exists: exists@ };
            outcome(r) == unpacked(site, assets.deep_view(), archive_of(package@))
        }),
        !force ==> (r matches Ok(x) ==> forall|i: int|
            0 <= i < x.1@.len() ==> !exists@.contains((#[trigger] x.1@[i])@.path)),
{
    let mut res = ExportResult::default();
    res.output = dest_root.to_string();
    let todo = select_todo(assets, dest_root, force, project_guids, exists, &mut res);
    assert(todo.deep_view().dom() =~= todo@.dom());
    if todo.is_empty() {
        let none: Vec<PlacedFile> = Vec::new();
        assert(none.deep_view() =~= Seq::<PlacedFileView>::empty());
        return Ok((res, none));
    }
    let wanted = todo.keys();
    match read_members(package, &wanted) {
        Err(e) => Err(e),
        Ok(found) => {
            let files = write_members(todo, dest_root, force, exists, &found, &mut res);
            Ok((res, files))
        },
    }
}

// ----- slim packages -------------------------------------------------------------------------

/// What an export into a slim package comes to.
#[derive(Debug)]
pub struct PackExport {
    pub result: ExportResult,
    /// The members of the package, in order.
    pub members: Vec<TarMember>,
    pub log: Vec<String>,
}

/// What a [`PackExport`] holds.
#[verifier::ext_equal]
pub struct PackExportView {
    pub result: ExportResultView,
    pub members: Seq<TarMemberView>,
    pub log: Seq<Seq<char>>,
}

impl View for PackExport {
    type V = PackExportView;

    open spec fn view(&self) -> PackExportView {
        PackExportView {
            result: self.result.deep_view(),
            members: self.members.deep_view(),
            log: self.log.deep_view(),
        }
    }
}

impl DeepView for PackExport {
    type V = PackExportView;

    open spec fn deep_view(&self) -> PackExportView {
        self.view()
    }
}

impl Clone for PackExport {
    fn clone(&self) -> (r: Self)
        ensures
            r@ == self@,
    {
        let r = PackExport {
            result: self.result.clone(),
            members: self.members.clone(),
            log: self.log.clone(),
        };
        assert(r.members.deep_view() =~= self.members.deep_view());
        assert(r.log.deep_view() =~= self.log.deep_view());
        r
    }
}
/// Some assets by guid; a later one wins.
pub open spec fn guid_map(assets: Seq<AssetView>) -> Map<Seq<char>, AssetView>
    decreases assets.len(),
{
    if assets.len() == 0 {
        Map::empty()
    } else {
        guid_map(assets.drop_last()).insert(assets.last().guid, assets.last())
    }
}

pub fn by_guid(assets: &Vec<Asset>) -> (r: TextMap<Asset>)
    ensures
        r.deep_view() == guid_map(assets.deep_view()),
{
    let ghost s = assets.deep_view();
    let mut out: TextMap<Asset> = TextMap::new();
    let mut i: usize = 0;
    assert(s.take(0) =~= Seq::<AssetView>::empty());
    assert(out.deep_view() =~= Map::<Seq<char>, AssetView>::empty());
    while i < assets.len()
        invariant
            i <= assets@.len(),
            s == assets.deep_view(),
            out.deep_view() == guid_map(s.take(i as int)),
        decreases assets@.len() - i,
    {
        let ghost o0 = out.deep_view();
        let a = assets[i].clone();
        let ghost av = a@;
        out.insert(assets[i].guid.clone(), a);
        proof {
            assert(out.deep_view() =~= o0.insert(av.guid, av));
            assert(s.take(i + 1).drop_last() =~= s.take(i as int));
            assert(s.take(i + 1).last() == av);
        }
        i += 1;
    }
    assert(s.take(s.len() as int) =~= s);
    out
}

pub open spec fn packed_name_of(guid: Seq<char>, leaf: Seq<char>) -> Seq<char> {
    guid + "/"@ + leaf
}

/// The name of a member in a package.
pub fn packed_name(guid: &str, leaf: &str) -> (r: String)
    ensures
        r@ == packed_name_of(guid@, leaf@),
{
    cat3(guid, "/", leaf)
}

pub open spec fn packed_member(m: MemberView) -> TarMemberView {
    TarMemberView {
        name: packed_name_of(m.guid, m.leaf),
        is_file: true,
        size: m.size,
        mtime: m.mtime,
        data: m.data,
    }
}

/// The members that go into a slim package.
pub open spec fn packed_members(todo: Map<Seq<char>, AssetView>, ms: Seq<MemberView>) -> Seq<TarMemberView>
    decreases ms.len(),
{
    if ms.len() == 0 {
        Seq::empty()
    } else {
        let front = packed_members(todo, ms.drop_last());
        if todo.contains_key(ms.last().guid) {
            front.push(packed_member(ms.last()))
        } else {
            front
        }
    }
}

/// A slim package after the assets of one more package.
pub open spec fn package_packed(
    st: PackExportView,
    name: Seq<char>,
    assets: Seq<AssetView>,
    ms: Seq<MemberView>,
) -> PackExportView {
    let todo = guid_map(assets);
    PackExportView {
        result: tallied(Goal::Repack, todo, tally_of(Goal::Repack, todo, ms), st.result),
        members: st.members + packed_members(todo, ms),
        log: st.log.push(pack_line_of(todo.dom().len(), name)),
    }
}

/// A slim package, package after package.
pub open spec fn pack_export(
    db: DbView,
    groups: Seq<(i64, Seq<AssetView>)>,
    sources: Seq<Seq<MemberView>>,
    n: nat,
) -> Result<PackExportView, ErrorView>
    decreases n,
{
    if n == 0 {
        Ok(PackExportView { result: no_export(), members: Seq::empty(), log: Seq::empty() })
    } else {
        match pack_export(db, groups, sources, (n - 1) as nat) {
            Err(e) => Err(e),
            Ok(st) => match package_of(db, groups[n - 1].0) {
                Err(e) => Err(e),
                Ok(p) => Ok(package_packed(st, p.name, groups[n - 1].1, sources[n - 1])),
            },
        }
    }
}

proof fn lemma_pack_export_stops(
    db: DbView,
    groups: Seq<(i64, Seq<AssetView>)>,
    sources: Seq<Seq<MemberView>>,
    k: nat,
    n: nat,
)
    requires
        k <= n,
        pack_export(db, groups, sources, k) is Err,
    ensures
        pack_export(db, groups, sources, n) == pack_export(db, groups, sources, k),
    decreases n,
{
    if k < n {
        lemma_pack_export_stops(db, groups, sources, k, (n - 1) as nat);
    }
}

/// Adds the assets of one package to a slim package.
pub fn pack_package(st: &mut PackExport, name: &str, assets: &Vec<Asset>, members: &Vec<Member>)
    ensures
        final(st)@ == package_packed(old(st)@, name@, assets.deep_view(), members.deep_view()),
{
    let ghost st0 = st@;
    let ghost ms = members.deep_view();
    let todo = by_guid(assets);
    let ghost tv = todo.deep_view();
    assert(todo.deep_view().dom() =~= todo@.dom());
    let line = pack_line(todo.len(), name);
    let ghost lv = line@;
    st.log.push(line);
    assert(st.log.deep_view() =~= st0.log.push(lv));
    let mut tally = Tally::new(Goal::Repack, todo);
    let mut i: usize = 0;
    proof {
        assert(ms.take(0) =~= Seq::<MemberView>::empty());
        assert(st.members.deep_view() =~= st0.members + packed_members(tv, ms.take(0)));
    }
    while i < members.len()
        invariant
            i <= members@.len(),
            ms == members.deep_view(),
            tally.goal == Goal::Repack,
            tally.todo.deep_view() == tv,
            tally.count() == tally_of(Goal::Repack, tv, ms.take(i as int)),
            st.result@ == st0.result,
            st.log.deep_view() == st0.log.push(lv),
            st.members.deep_view() == st0.members + packed_members(tv, ms.take(i as int)),
        decreases members@.len() - i,
    {
        let m = &members[i];
        proof {
            assert(ms.take(i + 1).drop_last() =~= ms.take(i as int));
            assert(ms.take(i + 1).last() == m@);
            assert(tally.todo.deep_view().dom() =~= tally.todo@.dom());
        }
        if tally.todo.contains_key(m.guid.as_str()) {
            let t = TarMember {
                name: packed_name(m.guid.as_str(), m.leaf.as_str()),
                is_file: true,
                size: m.size,
                mtime: m.mtime,
                data: m.data.clone(),
            };
            assert(t.data.deep_view() =~= m.data.deep_view());
            let ghost o0 = st.members.deep_view();
            let ghost v = t@;
            st.members.push(t);
            proof {
                assert(st.members.deep_view() =~= o0.push(v));
                assert(st.members.deep_view() =~= st0.members + packed_members(tv, ms.take(i + 1)));
            }
        }
        tally.note(m.guid.as_str(), m.leaf.as_str(), m.size);
        i += 1;
    }
    assert(ms.take(ms.len() as int) =~= ms);
    tally.finish(&mut st.result);
}

/// Repacks the selected guid directories into a new (much smaller) package; `sources` holds the
/// members of the wanted assets of each package.
pub fn write_unitypackage(db: &Database, groups: &Vec<(i64, Vec<Asset>)>, sources: &Vec<Vec<Member>>) -> (r: Result<
    PackExport,
    Error,
>)
    requires
        sources@.len() == groups@.len(),
    ensures
        outcome(r) == pack_export(db@, groups.deep_view(), sources.deep_view(), groups@.len()),
{
    let mut st = PackExport { result: ExportResult::default(), members: Vec::new(), log: Vec::new() };
    let ghost gs = groups.deep_view();
    let ghost ss = sources.deep_view();
    let n: usize = groups.len();
    let mut i: usize = 0;
    proof {
        assert(st.members.deep_view() =~= Seq::<TarMemberView>::empty());
        assert(st.log.deep_view() =~= Seq::<Seq<char>>::empty());
        assert(st@ =~= pack_export(db@, gs, ss, 0)->Ok_0);
    }
    while i < n
        invariant
            i <= n,
            n == groups@.len(),
            n == sources@.len(),
            gs == groups.deep_view(),
            ss == sources.deep_view(),
            pack_export(db@, gs, ss, i as nat) == Ok::<PackExportView, ErrorView>(st@),
        decreases n - i,
    {
        proof {
            assert(gs[i as int] == (groups@[i as int].0, groups@[i as int].1.deep_view()));
            assert(ss[i as int] == sources@[i as int].deep_view());
        }
        match find_source(db, groups[i].0) {
            Err(e) => {
                proof {
                    lemma_pack_export_stops(db@, gs, ss, (i + 1) as nat, n as nat);
                }
                return Err(e);
            },
            Ok(p) => {
                pack_package(&mut st, p.name.as_str(), &groups[i].1, &sources[i]);
            },
        }
        i += 1;
    }
    Ok(st)
}

/// How hard slim packages are compressed.
pub const PACK_LEVEL: u32 = 6;

/// The permissions of the members of a slim package.
pub const PACK_MODE: u32 = 0o644;

/// What a slim package comes to: the file, where one is written.
#[derive(Debug)]
pub struct SlimExport {
    pub result: ExportResult,
    pub file: Option<Vec<u8>>,
    pub log: Vec<String>,
}

/// What a [`SlimExport`] holds.
#[verifier::ext_equal]
pub struct SlimExportView {
    pub result: ExportResultView,
    pub file: Option<Seq<u8>>,
    pub log: Seq<Seq<char>>,
}

impl View for SlimExport {
    type V = SlimExportView;

    open spec fn view(&self) -> SlimExportView {
        SlimExportView {
            result: self.result.deep_view(),
            file: self.file.deep_view(),
            log: self.log.deep_view(),
        }
    }
}

impl DeepView for SlimExport {
    type V = SlimExportView;

    open spec fn deep_view(&self) -> SlimExportView {
        self.view()
    }
}

/// A slim package, from the members that go into it.
pub open spec fn slim_export(st: PackExportView, out_file: Seq<char>) -> Result<SlimExportView, ErrorView> {
    match archive_bytes_of(st.members, PACK_LEVEL, PACK_MODE) {
        Err(t) => Err(ErrorView::Other(t)),
        Ok(b) => Ok(
            SlimExportView {
                result: ExportResultView { output: out_file, ..st.result },
                file: Some(b),
                log: st.log,
            },
        ),
    }
}

/// A slim package of the assets of some packages.
pub open spec fn slim_of(
    db: DbView,
    groups: Seq<(i64, Seq<AssetView>)>,
    sources: Seq<Seq<MemberView>>,
    out_file: Seq<char>,
) -> Result<SlimExportView, ErrorView> {
    match pack_export(db, groups, sources, groups.len()) {
        Err(e) => Err(e),
        Ok(st) => slim_export(st, out_file),
    }
}

/// Makes the package file of some members. What can be read back is packed, and reads back.
pub fn finish_unitypackage(st: PackExport, out_file: &str) -> (r: Result<SlimExport, Error>)
    ensures
        outcome(r) == slim_export(st@, out_file@),
        all_packable(st@.members) ==> (r matches Ok(x) && x@.file matches Some(b) && archive_of(b) == whole(
            st@.members,
        )),
{
    match pack_archive(&st.members, PACK_LEVEL, PACK_MODE) {
        Err(t) => Err(Error::Other(t)),
        Ok(b) => {
            let mut result = st.result;
            result.output = out_file.to_string();
            let r = SlimExport { result, file: Some(b), log: st.log };
            assert(r.file.deep_view() == Some(b.deep_view()));
            assert(b.deep_view() =~= b@);
            Ok(r)
        },
    }
}

/// Writes the planned assets into a slim package, or, on a dry run, counts them; `sources` holds the
/// members of the wanted assets of each package.
pub fn export_to_unitypackage(
    db: &Database,
    plan: &Plan,
    out_file: &str,
    dry_run: bool,
    sources: &Vec<Vec<Member>>,
) -> (r: Result<SlimExport, Error>)
    requires
        !dry_run ==> sources@.len() == plan.by_package@.len(),
    ensures
        dry_run ==> outcome(r) == Ok::<SlimExportView, ErrorView>(
            SlimExportView {
                result: all_written(
                    plan@.assets,
                    (ExportResultView { output: out_file@, dry_run: true, ..no_export() }),
                ),
                file: None,
                log: Seq::empty(),
            },
        ),
        !dry_run ==> outcome(r) == slim_of(db@, plan@.by_package, sources.deep_view(), out_file@),
        !dry_run ==> (pack_export(db@, plan@.by_package, sources.deep_view(), plan@.by_package.len()) matches Ok(st)
            ==> all_packable(st.members) ==> (r matches Ok(x) && x@.file matches Some(b) && archive_of(b) == whole(
            st.members,
        ))),
{
    if dry_run {
        let log: Vec<String> = Vec::new();
        assert(log.deep_view() =~= Seq::<Seq<char>>::empty());
        Ok(SlimExport { result: rehearse_unitypackage(&plan.assets, out_file), file: None, log })
    } else {
        match write_unitypackage(db, &plan.by_package, sources) {
            Err(e) => Err(e),
            Ok(st) => finish_unitypackage(st, out_file),
        }
    }
}

/// What writing a slim package would come to: everything is written.
pub fn rehearse_unitypackage(assets: &Vec<Asset>, out_file: &str) -> (r: ExportResult)
    ensures
        r@ == all_written(
            assets.deep_view(),
            (ExportResultView { output: out_file@, dry_run: true, ..no_export() }),
        ),
{
    let mut res = ExportResult::default();
    res.dry_run = true;
    res.output = out_file.to_string();
    count_all(assets, &mut res);
    res
}

/// Where a slim package is written before it takes its place.
pub fn partial_path(out_file: &str) -> (r: String)
    ensures
        r@ == out_file@ + ".partial"@,
{
    cat(out_file, ".partial")
}

// ----- single members ------------------------------------------------------------------------

/// The package of an asset, which the index must still have.
pub fn asset_package(db: &Database, asset: &Asset) -> (r: Result<Package, Error>)
    ensures
        outcome(r) == (match package_with_id(db@, asset@.package_id) {
            Some(p) => Ok::<PackageView, ErrorView>(p),
            None => Err(ErrorView::Other("package vanished from the index"@)),
        }),
{
    match db.package_by_id(asset.package_id) {
        Some(p) => Ok(p),
        None => Err(Error::Other("package vanished from the index".to_string())),
    }
}

/// The first bytes of a member, and whether there are more.
pub open spec fn beginning(m: MemberView, max_bytes: nat) -> (Seq<u8>, bool) {
    let n = if max_bytes < m.data.len() {
        max_bytes as int
    } else {
        m.data.len() as int
    };
    (m.data.take(n), n < m.size)
}

/// The beginning of the first member with a leaf.
pub open spec fn member_read(ms: Seq<MemberView>, leaf: Seq<char>, max_bytes: nat) -> Option<(Seq<u8>, bool)> {
    match find(ms, |m: MemberView| m.leaf == leaf) {
        Some(m) => Some(beginning(m, max_bytes)),
        None => None,
    }
}

/// One member (`asset`, `preview.png`, ...) of an asset, up to `max_bytes`: its bytes, and whether
/// there are more.
pub fn read_member(members: &Vec<Member>, leaf: &str, max_bytes: usize) -> (r: Option<(Vec<u8>, bool)>)
    ensures
        r.deep_view() == member_read(members.deep_view(), leaf@, max_bytes as nat),
{
    let ghost ms = members.deep_view();
    let ghost p = |m: MemberView| m.leaf == leaf@;
    let mut i: usize = 0;
    while i < members.len()
        invariant
            i <= members@.len(),
            ms == members.deep_view(),
            p == (|m: MemberView| m.leaf == leaf@),
            forall|k: int| 0 <= k < i ==> !p(#[trigger] ms[k]),
        decreases members@.len() - i,
    {
        let m = &members[i];
        assert(ms[i as int] == m@);
        if same_text(m.leaf.as_str(), leaf) {
            let len: usize = m.data.len();
            let n: usize = if max_bytes < len {
                max_bytes
            } else {
                len
            };
            let bytes = slice_to_vec(slice_subrange(m.data.as_slice(), 0, n));
            proof {
                lemma_first_index(ms, p, i as int);
                assert(m.data.deep_view() =~= m.data@);
                assert(bytes.deep_view() =~= m@.data.take(n as int));
            }
            return Some((bytes, (n as u64) < m.size));
        }
        i += 1;
    }
    proof {
        lemma_first_index_bounds(ms, p);
    }
    None
}

/// How much of a preview is read.
pub const PREVIEW_MAX: usize = 67_108_864;

/// The preview of an asset.
pub fn extract_preview(members: &Vec<Member>) -> (r: Option<Vec<u8>>)
    ensures
        r.deep_view() == (match member_read(members.deep_view(), "preview.png"@, PREVIEW_MAX as nat) {
            Some((b, _)) => Some(b),
            None => None,
        }),
{
    match read_member(members, "preview.png", PREVIEW_MAX) {
        Some((b, _)) => Some(b),
        None => None,
    }
}

/// The (text) content of an asset, e.g. to read a prefab's YAML or a script.
pub fn extract_text(members: &Vec<Member>, max_bytes: usize) -> (r: Option<(String, bool)>)
    ensures
        r.deep_view() == (match member_read(members.deep_view(), "asset"@, max_bytes as nat) {
            Some((b, t)) => Some((lossy_of(b), t)),
            None => None,
        }),
{
    match read_member(members, "asset", max_bytes) {
        Some((b, t)) => {
            assert(b.deep_view() =~= b@);
            Some((lossy(b.as_slice()), t))
        },
        None => None,
    }
}

// ----- laws ----------------------------------------------------------------------------------

proof fn lemma_due(site: Site, assets: Seq<AssetView>)
    ensures
        forall|g: Seq<char>| #[trigger]
            due_among(site, assets).contains_key(g) ==> {
                let a = due_among(site, assets)[g];
                a.guid == g && due(site, a) && assets.contains(a)
            },
        forall|a: AssetView|
            #![trigger assets.contains(a)]
            assets.contains(a) && due(site, a) ==> due_among(site, assets).contains_key(a.guid),
    decreases assets.len(),
{
    if assets.len() > 0 {
        let rest = assets.drop_last();
        lemma_due(site, rest);
        let t = due_among(site, assets);
        let f = due_among(site, rest);
        assert forall|g: Seq<char>| #[trigger] t.contains_key(g) implies {
            let a = t[g];
            a.guid == g && due(site, a) && assets.contains(a)
        } by {
            if due(site, assets.last()) && g == assets.last().guid {
                assert(assets[assets.len() - 1] == t[g]);
            } else {
                assert(f.contains_key(g));
                let k = choose|k: int| 0 <= k < rest.len() && rest[k] == f[g];
                assert(assets[k] == f[g]);
            }
        }
        assert forall|a: AssetView| #[trigger] assets.contains(a) && due(site, a) implies t.contains_key(a.guid) by {
            let k = choose|k: int| 0 <= k < assets.len() && assets[k] == a;
            if k < rest.len() {
                assert(rest[k] == a);
                assert(rest.contains(a));
            }
        }
    }
}

/// Only assets that were asked for are written, none whose guid the project has at another path,
/// and without `force` none that is there already.
pub proof fn only_what_is_due_is_written(site: Site, assets: Seq<AssetView>, g: Seq<char>)
    requires
        due_among(site, assets).contains_key(g),
    ensures
        assets.contains(due_among(site, assets)[g]),
        due_among(site, assets)[g].guid == g,
        !in_conflict(site, due_among(site, assets)[g]),
        !site.force ==> !site.exists.contains(probe(site.dest, due_among(site, assets)[g])),
{
    lemma_due(site, assets);
}

proof fn lemma_spared(
    todo: Map<Seq<char>, AssetView>,
    dest: Seq<char>,
    spared: Set<Seq<char>>,
    ms: Seq<MemberView>,
    i: int,
)
    requires
        0 <= i < placed_files(todo, dest, spared, ms).len(),
    ensures
        !spared.contains(placed_files(todo, dest, spared, ms)[i].path),
    decreases ms.len(),
{
    if i < placed_files(todo, dest, spared, ms.drop_last()).len() {
        lemma_spared(todo, dest, spared, ms.drop_last(), i);
    }
}

/// Whether the turn of every package tells what is there of the files of its assets.
pub open spec fn looked_up(
    there: Set<Seq<char>>,
    dest: Seq<char>,
    groups: Seq<(i64, Seq<AssetView>)>,
    turns: Seq<TurnView>,
    n: nat,
) -> bool {
    forall|k: int, a: AssetView, p: Seq<char>|
        #![trigger groups[k].1.contains(a), places(dest, a).contains(p)]
        0 <= k < n && groups[k].1.contains(a) && places(dest, a).contains(p) && there.contains(p)
            ==> turns[k].exists.contains(p)
}

/// Existing files are never overwritten without `force`: whatever is there before an export, assets
/// and import settings alike, no file is written at its path.
pub proof fn nothing_is_overwritten(
    there: Set<Seq<char>>,
    db: DbView,
    groups: Seq<(i64, Seq<AssetView>)>,
    dest: Seq<char>,
    dry_run: bool,
    guids: Map<Seq<char>, Seq<char>>,
    turns: Seq<TurnView>,
    n: nat,
    i: int,
)
    requires
        n <= groups.len(),
        n <= turns.len(),
        looked_up(there, dest, groups, turns, n),
        dir_export(db, groups, dest, false, dry_run, guids, turns, n) is Ok,
        0 <= i < dir_export(db, groups, dest, false, dry_run, guids, turns, n)->Ok_0.files.len(),
    ensures
        !there.contains(dir_export(db, groups, dest, false, dry_run, guids, turns, n)->Ok_0.files[i].path),
    decreases n,
{
    let m = (n - 1) as nat;
    let before = dir_export(db, groups, dest, false, dry_run, guids, turns, m)->Ok_0;
    let after = dir_export(db, groups, dest, false, dry_run, guids, turns, n)->Ok_0;
    if i < before.files.len() {
        nothing_is_overwritten(there, db, groups, dest, dry_run, guids, turns, m, i);
        assert(after.files[i] == before.files[i]);
    } else {
        let (assets, turn) = (groups[n - 1].1, turns[n - 1]);
        let site = Site { dest, force: false, guids, exists: turn.exists };
        let todo = due_among(site, assets);
        let files = placed_files(todo, dest, turn.exists, turn.members);
        let j = i - before.files.len();
        assert(after.files[i] == files[j]);
        lemma_spared(todo, dest, turn.exists, turn.members, j);
        let k = files_are_placed_where_due(todo, dest, turn.exists, turn.members, j);
        lemma_due(site, assets);
        let a = todo[turn.members[k].guid];
        assert(assets.contains(a));
        assert(places(dest, a)[0] == joined_path(dest, a.path));
        assert(places(dest, a)[1] == meta_place(joined_path(dest, a.path)));
        assert(places(dest, a).contains(files[j].path));
        assert(groups[n - 1].1.contains(a));
    }
}

/// Exporting again writes nothing: where everything is in conflict or there already, nothing is
/// left to write.
pub proof fn exporting_again_writes_nothing(site: Site, assets: Seq<AssetView>)
    requires
        !site.force,
        forall|i: int|
            0 <= i < assets.len() ==> in_conflict(site, #[trigger] assets[i]) || site.exists.contains(
                probe(site.dest, assets[i]),
            ),
    ensures
        due_among(site, assets) == Map::<Seq<char>, AssetView>::empty(),
{
    lemma_due(site, assets);
    assert forall|g: Seq<char>| !due_among(site, assets).contains_key(g) by {
        if due_among(site, assets).contains_key(g) {
            let a = due_among(site, assets)[g];
            let k = choose|k: int| 0 <= k < assets.len() && assets[k] == a;
            assert(due(site, assets[k]));
        }
    }
    assert(due_among(site, assets) =~= Map::<Seq<char>, AssetView>::empty());
}

/// Every asset is accounted for: it is in conflict, there already, or to be written, and never two
/// of these.
pub proof fn every_asset_is_accounted_for(site: Site, assets: Seq<AssetView>, i: int)
    requires
        0 <= i < assets.len(),
    ensures
        in_conflict(site, assets[i]) ==> conflicts_among(site, assets).contains(conflict_of(site, assets[i])),
        kept(site, assets[i]) ==> kept_among(site, assets).contains(file_of(assets[i])),
        due(site, assets[i]) ==> due_among(site, assets).contains_key(assets[i].guid),
        in_conflict(site, assets[i]) || kept(site, assets[i]) || due(site, assets[i]),
        !(in_conflict(site, assets[i]) && kept(site, assets[i])),
        !(in_conflict(site, assets[i]) && due(site, assets[i])),
        !(kept(site, assets[i]) && due(site, assets[i])),
    decreases assets.len(),
{
    let a = assets[i];
    let rest = assets.drop_last();
    lemma_due(site, assets);
    assert(assets.contains(a));
    if i < rest.len() {
        every_asset_is_accounted_for(site, rest, i);
        assert(rest[i] == a);
        let c = conflicts_among(site, rest);
        let k = kept_among(site, rest);
        if in_conflict(site, a) {
            let j = choose|j: int| 0 <= j < c.len() && c[j] == conflict_of(site, a);
            assert(conflicts_among(site, assets)[j] == conflict_of(site, a));
        }
        if kept(site, a) {
            let j = choose|j: int| 0 <= j < k.len() && k[j] == file_of(a);
            assert(kept_among(site, assets)[j] == file_of(a));
        }
    } else {
        let c = conflicts_among(site, assets);
        let k = kept_among(site, assets);
        if in_conflict(site, a) {
            assert(c[c.len() - 1] == conflict_of(site, a));
        }
        if kept(site, a) {
            assert(k[k.len() - 1] == file_of(a));
        }
    }
}

/// Whether a member of an asset is among some members.
pub open spec fn came(ms: Seq<MemberView>, guid: Seq<char>, leaf: Seq<char>) -> bool {
    exists|i: int| 0 <= i < ms.len() && (#[trigger] ms[i]).guid == guid && ms[i].leaf == leaf
}

proof fn lemma_came(ms: Seq<MemberView>, guid: Seq<char>, leaf: Seq<char>)
    requires
        ms.len() > 0,
    ensures
        came(ms, guid, leaf) <==> came(ms.drop_last(), guid, leaf) || (ms.last().guid == guid && ms.last().leaf
            == leaf),
{
    let rest = ms.drop_last();
    if came(rest, guid, leaf) {
        let k = choose|k: int| 0 <= k < rest.len() && (#[trigger] rest[k]).guid == guid && rest[k].leaf == leaf;
        assert(ms[k] == rest[k]);
    }
    if came(ms, guid, leaf) {
        let k = choose|k: int| 0 <= k < ms.len() && (#[trigger] ms[k]).guid == guid && ms[k].leaf == leaf;
        if k < rest.len() {
            assert(rest[k] == ms[k]);
        }
    }
    assert(ms[ms.len() - 1] == ms.last());
}

/// A tally holds of an asset exactly what came of it: an extraction notes the asset and its import
/// settings, a repacking every leaf.
pub proof fn tally_is_what_came(goal: Goal, todo: Map<Seq<char>, AssetView>, ms: Seq<MemberView>, g: Seq<char>)
    requires
        todo.contains_key(g),
    ensures
        goal == Goal::Extract ==> (got_of(tally_of(goal, todo, ms), g).contains("asset"@) <==> came(ms, g, "asset"@)),
        goal == Goal::Extract ==> (got_of(tally_of(goal, todo, ms), g).contains("meta"@) <==> came(
            ms,
            g,
            "asset.meta"@,
        )),
        goal == Goal::Repack ==> forall|leaf: Seq<char>| #[trigger]
            got_of(tally_of(goal, todo, ms), g).contains(leaf) <==> came(ms, g, leaf),
    decreases ms.len(),
{
    reveal_strlit("asset");
    reveal_strlit("meta");
    reveal_strlit("asset.meta");
    if ms.len() > 0 {
        let rest = ms.drop_last();
        tally_is_what_came(goal, todo, rest, g);
        assert forall|leaf: Seq<char>| came(ms, g, leaf) <==> came(rest, g, leaf) || (ms.last().guid == g
            && ms.last().leaf == leaf) by {
            lemma_came(ms, g, leaf);
        }
        lemma_came(ms, g, "asset"@);
        lemma_came(ms, g, "asset.meta"@);
        let st = tally_of(goal, todo, rest);
        let m = ms.last();
        assert("asset"@.len() == 5 && "meta"@.len() == 4 && "asset.meta"@.len() == 10);
        if m.guid != g || !todo.contains_key(m.guid) {
            assert(got_of(tally_of(goal, todo, ms), g) == got_of(st, g));
        }
        if goal == Goal::Repack {
            assert forall|leaf: Seq<char>| #[trigger]
                got_of(tally_of(goal, todo, ms), g).contains(leaf) <==> came(ms, g, leaf) by {
                assert(got_of(st, g).contains(leaf) <==> came(rest, g, leaf));
            }
        }
    }
}

proof fn lemma_reported(goal: Goal, todo: Map<Seq<char>, AssetView>, st: Count, guids: Seq<Seq<char>>, i: int)
    requires
        0 <= i < guids.len(),
    ensures
        is_whole(goal, todo[guids[i]], got_of(st, guids[i])) ==> whole_files(goal, todo, st, guids).contains(
            (WrittenFileView { guid: guids[i], path: todo[guids[i]].path, bytes: todo[guids[i]].size }),
        ),
        !is_whole(goal, todo[guids[i]], got_of(st, guids[i])) ==> missing_files(goal, todo, st, guids).contains(
            (MissingMemberView {
                guid: guids[i],
                path: todo[guids[i]].path,
                got: ascending_of(got_of(st, guids[i])),
            }),
        ),
        whole_files(goal, todo, st, guids).len() + missing_files(goal, todo, st, guids).len() == guids.len(),
    decreases guids.len(),
{
    let rest = guids.drop_last();
    let w = whole_files(goal, todo, st, rest);
    let m = missing_files(goal, todo, st, rest);
    let w1 = whole_files(goal, todo, st, guids);
    let m1 = missing_files(goal, todo, st, guids);
    let g = guids[i];
    let wf = WrittenFileView { guid: g, path: todo[g].path, bytes: todo[g].size };
    let mf = MissingMemberView { guid: g, path: todo[g].path, got: ascending_of(got_of(st, g)) };
    if rest.len() > 0 {
        lemma_reported(goal, todo, st, rest, if i < rest.len() { i } else { 0 });
    }
    if i < rest.len() {
        assert(rest[i] == g);
        if is_whole(goal, todo[g], got_of(st, g)) {
            let j = choose|j: int| 0 <= j < w.len() && w[j] == wf;
            assert(w1[j] == wf);
        } else {
            let j = choose|j: int| 0 <= j < m.len() && m[j] == mf;
            assert(m1[j] == mf);
        }
    } else {
        if is_whole(goal, todo[g], got_of(st, g)) {
            assert(w1[w1.len() - 1] == wf);
        } else {
            assert(m1[m1.len() - 1] == mf);
        }
    }
}

/// Of what is to be written every asset is reported once: as written where all of it came, as
/// missing otherwise.
pub proof fn every_file_is_reported(goal: Goal, todo: Map<Seq<char>, AssetView>, st: Count, i: int)
    requires
        0 <= i < ascending_of(todo.dom()).len(),
    ensures
        ({
            let guids = ascending_of(todo.dom());
            let g = guids[i];
            let whole = whole_files(goal, todo, st, guids);
            let missing = missing_files(goal, todo, st, guids);
            &&& is_whole(goal, todo[g], got_of(st, g)) ==> whole.contains(
                WrittenFileView { guid: g, path: todo[g].path, bytes: todo[g].size },
            )
            &&& !is_whole(goal, todo[g], got_of(st, g)) ==> missing.contains(
                MissingMemberView { guid: g, path: todo[g].path, got: ascending_of(got_of(st, g)) },
            )
            &&& whole.len() + missing.len() == guids.len()
        }),
{
    lemma_reported(goal, todo, st, ascending_of(todo.dom()), i);
}

/// Every file that is placed holds the bytes of a member of an asset that is to be written: the asset
/// itself stands at its path, its import settings beside it.
pub proof fn files_are_placed_where_due(
    todo: Map<Seq<char>, AssetView>,
    dest: Seq<char>,
    spared: Set<Seq<char>>,
    ms: Seq<MemberView>,
    i: int,
) -> (k: int)
    requires
        0 <= i < placed_files(todo, dest, spared, ms).len(),
    ensures
        0 <= k < ms.len(),
        todo.contains_key(ms[k].guid),
        placed_files(todo, dest, spared, ms)[i].data == ms[k].data,
        ({
            let target = joined_path(dest, todo[ms[k].guid].path);
            let path = placed_files(todo, dest, spared, ms)[i].path;
            ||| ms[k].leaf == "asset"@ && path == target
            ||| ms[k].leaf == "asset.meta"@ && path == meta_place(target)
        }),
    decreases ms.len(),
{
    let front = placed_files(todo, dest, spared, ms.drop_last());
    if i < front.len() {
        files_are_placed_where_due(todo, dest, spared, ms.drop_last(), i)
    } else {
        ms.len() - 1
    }
}

proof fn lemma_placed(
    todo: Map<Seq<char>, AssetView>,
    dest: Seq<char>,
    spared: Set<Seq<char>>,
    ms: Seq<MemberView>,
    k: int,
) -> (i: int)
    requires
        0 <= k < ms.len(),
        placement_of(todo, dest, spared, ms[k].guid, ms[k].leaf) is Some,
    ensures
        0 <= i < placed_files(todo, dest, spared, ms).len(),
        placed_files(todo, dest, spared, ms)[i].path == placement_of(todo, dest, spared, ms[k].guid, ms[k].leaf)->0.path,
        placed_files(todo, dest, spared, ms)[i].data == ms[k].data,
    decreases ms.len(),
{
    if k < ms.len() - 1 {
        lemma_placed(todo, dest, spared, ms.drop_last(), k)
    } else {
        placed_files(todo, dest, spared, ms).len() - 1
    }
}

/// What is reported as written is there: the file that tells an asset as exported already is among
/// those placed, so that exporting again leaves it as it is, and so are its import settings, unless
/// they were there before.
pub proof fn written_files_are_there(
    todo: Map<Seq<char>, AssetView>,
    dest: Seq<char>,
    spared: Set<Seq<char>>,
    ms: Seq<MemberView>,
    g: Seq<char>,
) -> (i: int)
    requires
        todo.contains_key(g),
        !spared.contains(probe(dest, todo[g])),
        is_whole(Goal::Extract, todo[g], got_of(tally_of(Goal::Extract, todo, ms), g)),
    ensures
        0 <= i < placed_files(todo, dest, spared, ms).len(),
        placed_files(todo, dest, spared, ms)[i].path == probe(dest, todo[g]),
        spared.contains(meta_place(joined_path(dest, todo[g].path))) || exists|j: int|
            0 <= j < placed_files(todo, dest, spared, ms).len() && (#[trigger] placed_files(
                todo,
                dest,
                spared,
                ms,
            )[j]).path == meta_place(joined_path(dest, todo[g].path)),
{
    tally_is_what_came(Goal::Extract, todo, ms, g);
    let leaf = if todo[g].is_folder {
        "asset.meta"@
    } else {
        "asset"@
    };
    reveal_strlit("asset");
    reveal_strlit("asset.meta");
    assert("asset"@.len() != "asset.meta"@.len());
    let k = choose|k: int| 0 <= k < ms.len() && (#[trigger] ms[k]).guid == g && ms[k].leaf == leaf;
    let m = choose|m: int| 0 <= m < ms.len() && (#[trigger] ms[m]).guid == g && ms[m].leaf == "asset.meta"@;
    if !spared.contains(meta_place(joined_path(dest, todo[g].path))) {
        let j = lemma_placed(todo, dest, spared, ms, m);
    }
    lemma_placed(todo, dest, spared, ms, k)
}

proof fn lemma_all_written(assets: Seq<AssetView>, res: ExportResultView, i: int)
    requires
        0 <= i < assets.len(),
    ensures
        all_written(assets, res).written.contains(file_of(assets[i])),
    decreases assets.len(),
{
    let rest = assets.drop_last();
    let w = all_written(rest, res).written;
    let w1 = all_written(assets, res).written;
    if i < rest.len() {
        lemma_all_written(rest, res, i);
        let j = choose|j: int| 0 <= j < w.len() && w[j] == file_of(rest[i]);
        assert(w1[j] == file_of(assets[i]));
    } else {
        assert(w1[w1.len() - 1] == file_of(assets[i]));
    }
}

/// A dry run foretells what is written: everything that is to be written is counted in it.
pub proof fn dry_run_counts_what_is_due(todo: Map<Seq<char>, AssetView>, res: ExportResultView, i: int)
    requires
        0 <= i < ascending_of(todo.dom()).len(),
    ensures
        rehearsed(todo, res).written.contains(file_of(todo[ascending_of(todo.dom())[i]])),
        rehearsed(todo, res).conflicts == res.conflicts,
        rehearsed(todo, res).missing_in_package == res.missing_in_package,
{
    let vs = values_in_order(todo);
    let a = todo[ascending_of(todo.dom())[i]];
    let sorted = arranged(vs, by_asset_path());
    assert(vs[i] == a);
    assert(vs.contains(a));
    lemma_at_most_orders();
    assert(orders(by_asset_path()));
    arranging_keeps(vs, by_asset_path(), a);
    assert(sorted.contains(a));
    let k = choose|k: int| 0 <= k < sorted.len() && sorted[k] == a;
    lemma_all_written(sorted, res, k);
    lemma_only_written(sorted, res);
}

proof fn lemma_only_written(assets: Seq<AssetView>, res: ExportResultView)
    ensures
        all_written(assets, res).conflicts == res.conflicts,
        all_written(assets, res).missing_in_package == res.missing_in_package,
        all_written(assets, res).skipped_existing == res.skipped_existing,
    decreases assets.len(),
{
    if assets.len() > 0 {
        lemma_only_written(assets.drop_last(), res);
    }
}

/// Whether a member can be told by its name again: a guid in lower case, and a leaf without `/`.
pub open spec fn well_named(m: MemberView) -> bool {
    &&& guid_shaped(m.guid)
    &&& lower(m.guid) == m.guid
    &&& m.leaf.len() > 0
    &&& !m.leaf.contains('/')
}

proof fn lemma_pieces_plain(s: Seq<char>)
    requires
        !s.contains('/'),
    ensures
        pieces(s, Sep::Is('/')) == seq![s],
    decreases s.len(),
{
    if s.len() > 0 {
        let t = s.drop_last();
        assert(s.contains(s.last()));
        assert(!t.contains('/')) by {
            if t.contains('/') {
                let k = choose|k: int| 0 <= k < t.len() && t[k] == '/';
                assert(s[k] == '/');
            }
        }
        lemma_pieces_plain(t);
        assert(t.push(s.last()) =~= s);
        assert(seq![t].last() == t);
        assert(pieces(s, Sep::Is('/')) =~= seq![s]);
    } else {
        assert(s =~= Seq::<char>::empty());
    }
}

proof fn lemma_pieces_two(a: Seq<char>, b: Seq<char>)
    requires
        !a.contains('/'),
        !b.contains('/'),
    ensures
        pieces(a + "/"@ + b, Sep::Is('/')) == seq![a, b],
    decreases b.len(),
{
    reveal_strlit("/");
    let s = a + "/"@ + b;
    if b.len() == 0 {
        lemma_pieces_plain(a);
        assert(s.drop_last() =~= a);
        assert(s.last() == '/');
        assert(b =~= Seq::<char>::empty());
        assert(pieces(s, Sep::Is('/')) =~= seq![a, b]);
    } else {
        let c = b.drop_last();
        assert(b.contains(b.last()));
        assert(!c.contains('/')) by {
            if c.contains('/') {
                let k = choose|k: int| 0 <= k < c.len() && c[k] == '/';
                assert(b[k] == '/');
            }
        }
        lemma_pieces_two(a, c);
        assert(s.drop_last() =~= a + "/"@ + c);
        assert(s.last() == b.last());
        assert(c.push(b.last()) =~= b);
        assert(seq![a, c].last() == c);
        assert(pieces(s, Sep::Is('/')) =~= seq![a, b]);
    }
}

/// The name of a packed member tells its guid and its leaf again.
pub proof fn packed_names_read_back(m: MemberView)
    requires
        well_named(m),
    ensures
        member_parts(packed_name_of(m.guid, m.leaf)) == Some((m.guid, Some(m.leaf))),
{
    let name = packed_name_of(m.guid, m.leaf);
    reveal_strlit("./");
    assert(name[0] == m.guid[0]);
    assert(is_hex(m.guid[0]));
    assert(!starts(name, "./"@)) by {
        if starts(name, "./"@) {
            assert(name.subrange(0, 2)[0] == '.');
        }
    }
    assert(!m.guid.contains('/')) by {
        if m.guid.contains('/') {
            let k = choose|k: int| 0 <= k < m.guid.len() && m.guid[k] == '/';
            assert(is_hex(m.guid[k]));
        }
    }
    lemma_pieces_two(m.guid, m.leaf);
    let p = |x: Seq<char>| x.len() > 0;
    let parts = seq![m.guid, m.leaf];
    assert(parts.take(2) =~= parts);
    lemma_filter_none(parts, p);
    lemma_filter_step(parts, p, 0);
    lemma_filter_step(parts, p, 1);
    assert(filled(parts) =~= parts);
}

/// A slim package holds what was packed: read again for the same assets, it gives back every member
/// that went in, in order.
pub proof fn slim_packages_read_back(todo: Map<Seq<char>, AssetView>, ms: Seq<MemberView>, wanted: Set<Seq<char>>)
    requires
        forall|i: int| 0 <= i < ms.len() ==> well_named(#[trigger] ms[i]),
        forall|i: int| 0 <= i < ms.len() ==> todo.contains_key((#[trigger] ms[i]).guid),
        forall|i: int| 0 <= i < ms.len() ==> wanted.contains((#[trigger] ms[i]).guid),
    ensures
        picked(packed_members(todo, ms), wanted, wanted) == ms,
{
    lemma_packed_map(todo, ms);
    lemma_picked_back(ms, wanted, wanted);
}

/// What was packed is indexed: a package that holds a packed member has an entry for its guid.
pub proof fn packed_assets_have_entries(ts: Seq<TarMemberView>, m: MemberView, opts: ScanOptions) -> (k: int)
    requires
        ts.contains(packed_member(m)),
        well_named(m),
    ensures
        0 <= k < entries_of(ts, opts).len(),
        entries_of(ts, opts)[k].guid == m.guid,
{
    packed_names_read_back(m);
    let i = choose|i: int| 0 <= i < ts.len() && ts[i] == packed_member(m);
    every_directory_has_an_entry(ts, opts, i)
}

/// Whether all members of all packages can be told by their names again.
pub open spec fn all_well_named(sources: Seq<Seq<MemberView>>) -> bool {
    forall|k: int, j: int|
        0 <= k < sources.len() && 0 <= j < sources[k].len() ==> well_named(#[trigger] sources[k][j])
}

/// Every asset that an export into a slim package says it has written has an entry in the package,
/// and in the file that the package is read from.
pub proof fn written_assets_have_entries(
    db: DbView,
    groups: Seq<(i64, Seq<AssetView>)>,
    sources: Seq<Seq<MemberView>>,
    st: PackExportView,
    i: int,
    opts: ScanOptions,
) -> (k: int)
    requires
        sources.len() == groups.len(),
        all_well_named(sources),
        pack_export(db, groups, sources, groups.len()) == Ok::<PackExportView, ErrorView>(st),
        0 <= i < st.result.written.len(),
    ensures
        0 <= k < entries_of(st.members, opts).len(),
        entries_of(st.members, opts)[k].guid == st.result.written[i].guid,
        forall|file: Seq<u8>| #[trigger]
            archive_of(file) == whole(st.members) ==> entries_read(archive_of(file), opts) == Ok::<
                Seq<EntryView>,
                ErrorView,
            >(entries_of(st.members, opts)),
{
    let m = lemma_written_are_packed(db, groups, sources, groups.len(), st, i);
    packed_assets_have_entries(st.members, m, opts)
}

proof fn lemma_written_are_packed(
    db: DbView,
    groups: Seq<(i64, Seq<AssetView>)>,
    sources: Seq<Seq<MemberView>>,
    n: nat,
    st: PackExportView,
    i: int,
) -> (m: MemberView)
    requires
        n <= groups.len() == sources.len(),
        all_well_named(sources),
        pack_export(db, groups, sources, n) == Ok::<PackExportView, ErrorView>(st),
        0 <= i < st.result.written.len(),
    ensures
        st.members.contains(packed_member(m)),
        well_named(m),
        m.guid == st.result.written[i].guid,
    decreases n,
{
    let st0 = pack_export(db, groups, sources, (n - 1) as nat)->Ok_0;
    let todo = guid_map(groups[n - 1].1);
    let ms = sources[n - 1];
    let count = tally_of(Goal::Repack, todo, ms);
    let guids = ascending_of(todo.dom());
    let more = packed_members(todo, ms);
    if i < st0.result.written.len() {
        let m = lemma_written_are_packed(db, groups, sources, (n - 1) as nat, st0, i);
        let j = choose|j: int| 0 <= j < st0.members.len() && st0.members[j] == packed_member(m);
        assert(st.members[j] == packed_member(m));
        m
    } else {
        lemma_guid_map_finite(groups[n - 1].1);
        finite_sets_are_listed(todo.dom());
        let g = lemma_whole_file(Goal::Repack, todo, count, guids, i - st0.result.written.len());
        assert(guids.to_set().contains(g));
        tally_is_what_came(Goal::Repack, todo, ms, g);
        assert(came(ms, g, "asset.meta"@));
        let j = choose|j: int| 0 <= j < ms.len() && (#[trigger] ms[j]).guid == g && ms[j].leaf == "asset.meta"@;
        assert(well_named(sources[n - 1][j]));
        let k = lemma_member_is_packed(todo, ms, j);
        assert(st.members[st0.members.len() + k] == packed_member(ms[j]));
        ms[j]
    }
}

pub(crate) proof fn lemma_guid_map_finite(assets: Seq<AssetView>)
    ensures
        guid_map(assets).dom().finite(),
        forall|g: Seq<char>| #[trigger]
            guid_map(assets).contains_key(g) ==> exists|i: int| 0 <= i < assets.len() && (#[trigger] assets[i]).guid == g,
    decreases assets.len(),
{
    if assets.len() > 0 {
        let rest = assets.drop_last();
        lemma_guid_map_finite(rest);
        assert forall|g: Seq<char>| #[trigger] guid_map(assets).contains_key(g) implies exists|i: int|
            0 <= i < assets.len() && (#[trigger] assets[i]).guid == g by {
            if g == assets.last().guid {
                assert(assets[assets.len() - 1].guid == g);
            } else {
                assert(guid_map(rest).contains_key(g));
                let i = choose|i: int| 0 <= i < rest.len() && (#[trigger] rest[i]).guid == g;
                assert(assets[i] == rest[i]);
            }
        }
    }
}

proof fn lemma_whole_file(
    goal: Goal,
    todo: Map<Seq<char>, AssetView>,
    count: Count,
    guids: Seq<Seq<char>>,
    i: int,
) -> (g: Seq<char>)
    requires
        0 <= i < whole_files(goal, todo, count, guids).len(),
    ensures
        guids.contains(g),
        g == whole_files(goal, todo, count, guids)[i].guid,
        is_whole(goal, todo[g], got_of(count, g)),
    decreases guids.len(),
{
    let rest = guids.drop_last();
    if i < whole_files(goal, todo, count, rest).len() {
        let g = lemma_whole_file(goal, todo, count, rest, i);
        let k = choose|k: int| 0 <= k < rest.len() && rest[k] == g;
        assert(guids[k] == g);
        g
    } else {
        assert(guids[guids.len() - 1] == guids.last());
        guids.last()
    }
}

proof fn lemma_member_is_packed(todo: Map<Seq<char>, AssetView>, ms: Seq<MemberView>, j: int) -> (k: int)
    requires
        0 <= j < ms.len(),
        todo.contains_key(ms[j].guid),
    ensures
        0 <= k < packed_members(todo, ms).len(),
        packed_members(todo, ms)[k] == packed_member(ms[j]),
    decreases ms.len(),
{
    if j < ms.len() - 1 {
        lemma_member_is_packed(todo, ms.drop_last(), j)
    } else {
        packed_members(todo, ms).len() - 1
    }
}

/// Whether a member can be packed: its leaf is plain and does not begin with a dot, and it has its
/// real size.
pub open spec fn well_packed(m: MemberView) -> bool {
    &&& well_named(m)
    &&& m.size == m.data.len()
    &&& m.leaf.len() < 60 && m.leaf[0] != '.'
    &&& forall|i: int| 0 <= i < m.leaf.len() ==> plain_char(#[trigger] m.leaf[i])
}

/// The file of a slim package gives back every member that went in: a file that reads as what was
/// packed, read again for the same assets, has them all, in order. Members that are well packed make
/// such a file.
pub proof fn slim_files_read_back(
    todo: Map<Seq<char>, AssetView>,
    ms: Seq<MemberView>,
    wanted: Set<Seq<char>>,
    file: Seq<u8>,
)
    requires
        forall|i: int| 0 <= i < ms.len() ==> well_packed(#[trigger] ms[i]),
        forall|i: int| 0 <= i < ms.len() ==> todo.contains_key((#[trigger] ms[i]).guid),
        forall|i: int| 0 <= i < ms.len() ==> wanted.contains((#[trigger] ms[i]).guid),
    ensures
        all_packable(packed_members(todo, ms)),
        archive_of(file) == whole(packed_members(todo, ms)) ==> members_read(archive_of(file), wanted)
            == Ok::<Seq<MemberView>, ErrorView>(ms),
{
    slim_packages_read_back(todo, ms, wanted);
    lemma_packed_map(todo, ms);
    let ts = packed_members(todo, ms);
    assert forall|i: int| 0 <= i < ms.len() implies packable(#[trigger] ts[i]) by {
        let m = ms[i];
        let name = packed_name_of(m.guid, m.leaf);
        reveal_strlit("/");
        assert(well_packed(m));
        assert(ts[i] == packed_member(m));
        assert(m.guid.len() == 32);
        assert(is_hex(m.guid[0]));
        assert forall|j: int| 0 <= j < name.len() && j != 32 implies plain_char(#[trigger] name[j]) by {
            if j < 32 {
                assert(name[j] == m.guid[j]);
                assert(is_hex(m.guid[j]));
            } else {
                assert(name[j] == m.leaf[j - 33]);
            }
        }
        assert(name[33] == m.leaf[0]);
        assert(plain_parts(name, 32));
    }
}

proof fn lemma_packed_map(todo: Map<Seq<char>, AssetView>, ms: Seq<MemberView>)
    requires
        forall|i: int| 0 <= i < ms.len() ==> todo.contains_key((#[trigger] ms[i]).guid),
    ensures
        packed_members(todo, ms) == ms.map_values(|m: MemberView| packed_member(m)),
    decreases ms.len(),
{
    let f = |m: MemberView| packed_member(m);
    if ms.len() > 0 {
        let rest = ms.drop_last();
        assert forall|i: int| 0 <= i < rest.len() implies todo.contains_key((#[trigger] rest[i]).guid) by {
            assert(rest[i] == ms[i]);
        }
        lemma_packed_map(todo, rest);
        assert(todo.contains_key(ms[ms.len() - 1].guid));
    }
    assert(packed_members(todo, ms) =~= ms.map_values(f));
}

proof fn lemma_picked_back(ms: Seq<MemberView>, wanted: Set<Seq<char>>, remaining: Set<Seq<char>>)
    requires
        forall|i: int| 0 <= i < ms.len() ==> well_named(#[trigger] ms[i]),
        forall|i: int| 0 <= i < ms.len() ==> wanted.contains((#[trigger] ms[i]).guid),
    ensures
        picked(ms.map_values(|m: MemberView| packed_member(m)), wanted, remaining) == ms,
    decreases ms.len(),
{
    let f = |m: MemberView| packed_member(m);
    let ts = ms.map_values(f);
    if ms.len() > 0 {
        let rest = ms.drop_first();
        assert forall|i: int| 0 <= i < rest.len() implies well_named(#[trigger] rest[i]) && wanted.contains(
            rest[i].guid,
        ) by {
            assert(rest[i] == ms[i + 1]);
        }
        lemma_picked_back(rest, wanted, remaining.remove(ms[0].guid));
        packed_names_read_back(ms[0]);
        assert(ts.first() == packed_member(ms[0]));
        assert(ts.drop_first() =~= rest.map_values(f));
        let whole = seq![ms[0]] + rest;
        assert(whole =~= ms);
        assert(member_view(ts.first(), ms[0].guid, ms[0].leaf) =~= ms[0]);
    }
    assert(picked(ts, wanted, remaining) =~= ms);
}

} // verus!
