//! What an export takes along: the closure of the roots and the folders above its assets.

use vstd::prelude::*;
use vstd::string::*;

use crate::db::{asset_of, folders_at, package_with_id, size_sum, Database, DbView};
use crate::deps::{
    add_sizes, closure_of, node_assets, resolve_closure, script_nodes, sizes, values_in_order, Closure,
    ClosureView, KnownGuids, NodeView, Rules,
};
use crate::groups::{by_package, distinct, distinct_ids, packaged};
use crate::model::{clone_assets, clone_texts, Asset, AssetView, PlanOut, PlanOutView, RootRef, RootRefView};
use crate::number::{decimal_usize, numeral};
use crate::resolve::same_there;
use crate::seqs::{lemma_filter_none, lemma_filter_step, map_all};
use crate::sorted::{ascending, ascending_of, lemma_insert_ascending, TextSet};
use crate::text::{cat, filled, glue, join, pieces, same_text, split_filled, Sep};

verus! {

/// What an export writes.
#[derive(Debug)]
pub struct Plan {
    pub closure: Closure,
    /// everything to write (roots + deps + folder metas)
    pub assets: Vec<Asset>,
    /// subset: folder assets (meta only)
    pub folders: Vec<Asset>,
    /// the assets of each package, by package id
    pub by_package: Vec<(i64, Vec<Asset>)>,
    pub warnings: Vec<String>,
}

/// What a [`Plan`] holds.
#[verifier::ext_equal]
pub struct PlanView {
    pub closure: ClosureView,
    pub assets: Seq<AssetView>,
    pub folders: Seq<AssetView>,
    pub by_package: Seq<(i64, Seq<AssetView>)>,
    pub warnings: Seq<Seq<char>>,
}

impl View for Plan {
    type V = PlanView;

    open spec fn view(&self) -> PlanView {
        PlanView {
            closure: self.closure@,
            assets: self.assets.deep_view(),
            folders: self.folders.deep_view(),
            by_package: self.by_package.deep_view(),
            warnings: self.warnings.deep_view(),
        }
    }
}

impl DeepView for Plan {
    type V = PlanView;

    open spec fn deep_view(&self) -> PlanView {
        self.view()
    }
}

// ----- folders -------------------------------------------------------------------------------

/// The directory that the first `i` parts of a path name.
pub open spec fn dir_at(path: Seq<char>, i: int) -> Seq<char> {
    glue(filled(pieces(path, Sep::Is('/'))).take(i), "/"@)
}

/// Whether a directory is named by some of the first parts of a path, fewer than `n`.
pub open spec fn is_among(dir: Seq<char>, path: Seq<char>, n: int) -> bool {
    exists|i: int| 1 <= i < n && dir == #[trigger] dir_at(path, i)
}

/// Whether a directory is above a path.
pub open spec fn is_above(dir: Seq<char>, path: Seq<char>) -> bool {
    is_among(dir, path, filled(pieces(path, Sep::Is('/'))).len() as int)
}

/// The directories above the assets of a package.
pub open spec fn dirs_above(assets: Seq<AssetView>, pid: i64) -> Set<Seq<char>> {
    Set::new(
        |d: Seq<char>|
            exists|k: int|
                0 <= k < assets.len() && (#[trigger] assets[k]).package_id == pid && is_above(d, assets[k].path),
    )
}

/// The folders with one more, where it is new.
pub open spec fn with_folder(assets: Seq<AssetView>, folders: Seq<AssetView>, f: AssetView) -> Seq<AssetView> {
    if same_there(assets, f) || same_there(folders, f) {
        folders
    } else {
        folders.push(f)
    }
}

pub open spec fn with_folders(assets: Seq<AssetView>, folders: Seq<AssetView>, more: Seq<AssetView>) -> Seq<AssetView>
    decreases more.len(),
{
    if more.len() == 0 {
        folders
    } else {
        with_folder(assets, with_folders(assets, folders, more.drop_last()), more.last())
    }
}

/// The folders above some assets, package after package.
pub open spec fn folders_above(db: DbView, assets: Seq<AssetView>, ids: Seq<i64>) -> Seq<AssetView>
    decreases ids.len(),
{
    if ids.len() == 0 {
        Seq::empty()
    } else {
        with_folders(
            assets,
            folders_above(db, assets, ids.drop_last()),
            folders_at(db, ids.last(), ascending_of(dirs_above(assets, ids.last()))),
        )
    }
}

/// The packages of some assets, in increasing order.
pub open spec fn asset_packages(assets: Seq<AssetView>) -> Seq<i64> {
    distinct(assets.map_values(|a: AssetView| a.package_id))
}

// ----- warnings ------------------------------------------------------------------------------

/// How many nodes have a guid that other packages hold too.
pub open spec fn ambiguous_nodes(nodes: Seq<NodeView>) -> Seq<NodeView> {
    nodes.filter(|n: NodeView| n.ambiguous_in.len() > 0)
}

pub open spec fn script_warning(n: nat) -> Seq<Seq<char>> {
    if n > 0 {
        seq![
            numeral(n)
                + " script/plugin file(s) are in the dependency set. Partial script imports may not compile if they depend on other scripts in the package (`--no-scripts` to leave them out)."@,
        ]
    } else {
        Seq::empty()
    }
}

pub open spec fn unresolved_warning(n: nat) -> Seq<Seq<char>> {
    if n > 0 {
        seq![numeral(n) + " referenced guid(s) are not in the library (see unresolved)."@]
    } else {
        Seq::empty()
    }
}

pub open spec fn ambiguous_warning(n: nat) -> Seq<Seq<char>> {
    if n > 0 {
        seq![numeral(n) + " guid(s) exist in more than one package; the referrer's package was preferred."@]
    } else {
        Seq::empty()
    }
}

/// What the user is warned of: scripts, unresolved references, and guids in several packages.
pub open spec fn plan_warnings(cl: ClosureView) -> Seq<Seq<char>> {
    script_warning(script_nodes(cl.nodes).len()) + unresolved_warning(cl.unresolved.dom().len())
        + ambiguous_warning(ambiguous_nodes(cl.nodes).len())
}

/// The plan for some roots.
pub open spec fn plan_for(
    db: DbView,
    known: Map<Seq<char>, Seq<char>>,
    roots: Seq<AssetView>,
    deps: bool,
    scripts: bool,
    folders: bool,
) -> PlanView {
    let rules = Rules {
        db,
        known,
        scripts,
        max_depth: if deps {
            None
        } else {
            Some(0)
        },
    };
    let cl = closure_of(rules, roots);
    let assets = node_assets(cl.nodes);
    let above = if folders {
        folders_above(db, assets, asset_packages(assets))
    } else {
        Seq::empty()
    };
    PlanView {
        closure: cl,
        assets: assets + above,
        folders: above,
        by_package: packaged(assets + above),
        warnings: plan_warnings(cl),
    }
}

fn has_same(rows: &Vec<Asset>, a: &Asset) -> (r: bool)
    ensures
        r == same_there(rows.deep_view(), a@),
{
    let mut i: usize = 0;
    while i < rows.len()
        invariant
            i <= rows@.len(),
            forall|k: int|
                0 <= k < i ==> (#[trigger] rows.deep_view()[k]).package_id != a@.package_id || rows.deep_view()[k].guid
                    != a@.guid,
        decreases rows@.len() - i,
    {
        assert(rows.deep_view()[i as int] == rows@[i as int]@);
        if rows[i].package_id == a.package_id && same_text(rows[i].guid.as_str(), a.guid.as_str()) {
            return true;
        }
        i += 1;
    }
    false
}

fn first_parts(parts: &Vec<String>, n: usize) -> (r: String)
    requires
        n <= parts@.len(),
    ensures
        r@ == glue(parts.deep_view().take(n as int), "/"@),
{
    let mut front: Vec<String> = Vec::new();
    let mut i: usize = 0;
    assert(front.deep_view() =~= parts.deep_view().take(0));
    while i < n
        invariant
            i <= n <= parts@.len(),
            front.deep_view() == parts.deep_view().take(i as int),
        decreases n - i,
    {
        let ghost f0 = front.deep_view();
        front.push(parts[i].clone());
        proof {
            assert(front.deep_view() =~= f0.push(parts@[i as int]@));
            assert(front.deep_view() =~= parts.deep_view().take(i + 1));
        }
        i += 1;
    }
    join(&front, "/")
}

/// Puts the directories above a path into the set.
fn add_dirs(path: &str, out: &mut TextSet)
    ensures
        forall|d: Seq<char>| #[trigger] final(out)@.contains(d) <==> (old(out)@.contains(d) || is_above(d, path@)),
{
    let parts = split_filled(path, Sep::Is('/'));
    let ghost o0 = out@;
    let n: usize = parts.len();
    if n == 0 {
        return;
    }
    let mut i: usize = 1;
    while i < n
        invariant
            1 <= i <= n,
            n == parts@.len(),
            parts.deep_view() == filled(pieces(path@, Sep::Is('/'))),
            forall|d: Seq<char>| #[trigger] out@.contains(d) <==> (o0.contains(d) || is_among(d, path@, i as int)),
        decreases n - i,
    {
        let ghost o1 = out@;
        let d = first_parts(&parts, i);
        let ghost dv = d@;
        out.insert(d);
        proof {
            assert(dv == dir_at(path@, i as int));
            assert forall|x: Seq<char>| #[trigger] out@.contains(x) <==> (o0.contains(x) || is_among(
                x,
                path@,
                i + 1,
            )) by {
                assert(out@.contains(x) <==> o1.contains(x) || x == dv);
                if is_among(x, path@, i as int) {
                    let k = choose|k: int| 1 <= k < i && x == #[trigger] dir_at(path@, k);
                    assert(x == dir_at(path@, k));
                }
                if is_among(x, path@, i + 1) {
                    let k = choose|k: int| 1 <= k < i + 1 && x == #[trigger] dir_at(path@, k);
                    if k < i {
                        assert(is_among(x, path@, i as int));
                    }
                }
            }
        }
        i += 1;
    }
}

fn collect_dirs(assets: &Vec<Asset>, pid: i64) -> (r: TextSet)
    ensures
        r@ == dirs_above(assets.deep_view(), pid),
{
    let ghost s = assets.deep_view();
    let mut out = TextSet::new();
    let mut i: usize = 0;
    while i < assets.len()
        invariant
            i <= assets@.len(),
            s == assets.deep_view(),
            forall|d: Seq<char>|
                out@.contains(d) <==> exists|k: int|
                    0 <= k < i && (#[trigger] s[k]).package_id == pid && is_above(d, s[k].path),
        decreases assets@.len() - i,
    {
        let ghost o0 = out@;
        assert(s[i as int] == assets@[i as int]@);
        if assets[i].package_id == pid {
            add_dirs(assets[i].path.as_str(), &mut out);
        }
        proof {
            assert forall|d: Seq<char>| out@.contains(d) <==> exists|k: int|
                0 <= k < i + 1 && (#[trigger] s[k]).package_id == pid && is_above(d, s[k].path) by {
                if o0.contains(d) {
                    let k = choose|k: int| 0 <= k < i && (#[trigger] s[k]).package_id == pid && is_above(d, s[k].path);
                    assert(s[k].package_id == pid && is_above(d, s[k].path));
                }
                if s[i as int].package_id == pid && is_above(d, s[i as int].path) {
                    assert(out@.contains(d));
                }
            }
        }
        i += 1;
    }
    assert(out@ =~= dirs_above(s, pid));
    out
}

fn find_folders(db: &Database, assets: &Vec<Asset>) -> (r: Vec<Asset>)
    ensures
        r.deep_view() == folders_above(db@, assets.deep_view(), asset_packages(assets.deep_view())),
{
    let ghost s = assets.deep_view();
    let ghost key = |a: AssetView| a.package_id;
    let mut keys: Vec<i64> = Vec::new();
    let mut i: usize = 0;
    while i < assets.len()
        invariant
            i <= assets@.len(),
            s == assets.deep_view(),
            keys@.len() == i,
            forall|k: int| 0 <= k < i ==> keys@[k] == (#[trigger] s[k]).package_id,
        decreases assets@.len() - i,
    {
        assert(s[i as int] == assets@[i as int]@);
        keys.push(assets[i].package_id);
        i += 1;
    }
    assert(keys@ =~= s.map_values(key));
    let ids = distinct_ids(&keys);
    let mut folders: Vec<Asset> = Vec::new();
    let mut k: usize = 0;
    assert(ids@.take(0) =~= Seq::<i64>::empty());
    assert(folders.deep_view() =~= Seq::<AssetView>::empty());
    while k < ids.len()
        invariant
            k <= ids@.len(),
            s == assets.deep_view(),
            folders.deep_view() == folders_above(db@, s, ids@.take(k as int)),
        decreases ids@.len() - k,
    {
        proof {
            assert(ids@.take(k + 1).drop_last() =~= ids@.take(k as int));
            assert(ids@.take(k + 1).last() == ids@[k as int]);
        }
        let dirs = collect_dirs(assets, ids[k]).to_vec();
        let found = db.folder_assets_for_paths(ids[k], &dirs);
        let ghost f0 = folders.deep_view();
        let ghost fv = found.deep_view();
        let mut j: usize = 0;
        assert(fv.take(0) =~= Seq::<AssetView>::empty());
        while j < found.len()
            invariant
                j <= found@.len(),
                s == assets.deep_view(),
                fv == found.deep_view(),
                folders.deep_view() == with_folders(s, f0, fv.take(j as int)),
            decreases found@.len() - j,
        {
            proof {
                assert(fv.take(j + 1).drop_last() =~= fv.take(j as int));
                assert(fv.take(j + 1).last() == found@[j as int]@);
            }
            if !has_same(assets, &found[j]) && !has_same(&folders, &found[j]) {
                let ghost g0 = folders.deep_view();
                folders.push(found[j].clone());
                assert(folders.deep_view() =~= g0.push(found@[j as int]@));
            }
            j += 1;
        }
        assert(fv.take(fv.len() as int) =~= fv);
        k += 1;
    }
    assert(ids@.take(ids@.len() as int) =~= ids@);
    folders
}

fn count_ambiguous(cl: &Closure) -> (n: usize)
    ensures
        n == ambiguous_nodes(cl@.nodes).len(),
{
    let ghost s = cl@.nodes;
    let ghost p = |n: NodeView| n.ambiguous_in.len() > 0;
    let mut n: usize = 0;
    let mut i: usize = 0;
    proof {
        lemma_filter_none(s, p);
    }
    while i < cl.nodes.len()
        invariant
            i <= cl.nodes@.len(),
            s == cl.nodes.deep_view(),
            p == (|n: NodeView| n.ambiguous_in.len() > 0),
            n == s.take(i as int).filter(p).len(),
            n <= i,
        decreases cl.nodes@.len() - i,
    {
        proof {
            lemma_filter_step(s, p, i as int);
            assert(s[i as int] == cl.nodes@[i as int]@);
        }
        if cl.nodes[i].ambiguous_in.len() > 0 {
            n += 1;
        }
        i += 1;
    }
    assert(s.take(s.len() as int) =~= s);
    n
}

fn make_warnings(cl: &Closure) -> (r: Vec<String>)
    ensures
        r.deep_view() == plan_warnings(cl@),
{
    let mut out: Vec<String> = Vec::new();
    let scripts: usize = cl.scripts().len();
    if scripts > 0 {
        out.push(
            cat(
                decimal_usize(scripts).as_str(),
                " script/plugin file(s) are in the dependency set. Partial script imports may not compile if they depend on other scripts in the package (`--no-scripts` to leave them out).",
            ),
        );
    }
    assert(out.deep_view() =~= script_warning(scripts as nat));
    let ghost o1 = out.deep_view();
    let missing: usize = cl.unresolved.len();
    assert(cl.unresolved.deep_view().dom() =~= cl.unresolved@.dom());
    if missing > 0 {
        out.push(
            cat(
                decimal_usize(missing).as_str(),
                " referenced guid(s) are not in the library (see unresolved).",
            ),
        );
    }
    assert(out.deep_view() =~= o1 + unresolved_warning(missing as nat));
    let ghost o2 = out.deep_view();
    let amb = count_ambiguous(cl);
    if amb > 0 {
        out.push(
            cat(
                decimal_usize(amb).as_str(),
                " guid(s) exist in more than one package; the referrer's package was preferred.",
            ),
        );
    }
    assert(out.deep_view() =~= o2 + ambiguous_warning(amb as nat));
    out
}

/// Plans an export: the closure of the roots, the folders above its assets, and what to warn of.
pub fn build_plan(
    db: &Database,
    known: &KnownGuids,
    roots: &Vec<Asset>,
    include_deps: bool,
    include_scripts: bool,
    include_folders: bool,
) -> (r: Plan)
    ensures
        r@ == plan_for(db@, known@, roots.deep_view(), include_deps, include_scripts, include_folders),
{
    let depth: Option<u32> = if include_deps {
        None
    } else {
        Some(0)
    };
    let closure = resolve_closure(db, known, roots, include_scripts, depth);
    let assets = closure.assets();
    let folders: Vec<Asset> = if include_folders {
        find_folders(db, &assets)
    } else {
        Vec::new()
    };
    assert(!include_folders ==> folders.deep_view() =~= Seq::<AssetView>::empty());
    let mut all = clone_assets(&assets);
    let mut more = clone_assets(&folders);
    let ghost a0 = all.deep_view();
    let ghost m0 = more.deep_view();
    all.append(&mut more);
    assert(all.deep_view() =~= a0 + m0);
    let groups = by_package(&all);
    let warnings = make_warnings(&closure);
    Plan { closure, assets: all, folders, by_package: groups, warnings }
}

impl Plan {
    pub fn total_bytes(&self) -> (r: i64)
        ensures
            r == size_sum(sizes(self@.assets)),
    {
        add_sizes(&self.assets)
    }

    /// The guids of everything that is written.
    pub fn all_guids(&self) -> (r: TextSet)
        ensures
            r@ == guids_of(self@.assets),
    {
        let ghost s = self@.assets;
        let mut out = TextSet::new();
        let mut i: usize = 0;
        while i < self.assets.len()
            invariant
                i <= self.assets@.len(),
                s == self.assets.deep_view(),
                forall|g: Seq<char>|
                    out@.contains(g) <==> exists|k: int| 0 <= k < i && (#[trigger] s[k]).guid == g,
            decreases self.assets@.len() - i,
        {
            let ghost o0 = out@;
            assert(s[i as int] == self.assets@[i as int]@);
            out.insert(self.assets[i].guid.clone());
            proof {
                assert forall|g: Seq<char>| out@.contains(g) <==> exists|k: int|
                    0 <= k < i + 1 && (#[trigger] s[k]).guid == g by {
                    if o0.contains(g) {
                        let k = choose|k: int| 0 <= k < i && (#[trigger] s[k]).guid == g;
                        assert(s[k].guid == g);
                    }
                    if s[i as int].guid == g {
                        assert(out@.contains(g));
                    }
                }
            }
            i += 1;
        }
        assert(out@ =~= guids_of(s));
        out
    }
}

/// The guids of some assets.
pub open spec fn guids_of(s: Seq<AssetView>) -> Set<Seq<char>> {
    Set::new(|g: Seq<char>| exists|k: int| 0 <= k < s.len() && (#[trigger] s[k]).guid == g)
}

// ----- output --------------------------------------------------------------------------------

/// The names of the packages that the index has.
pub open spec fn package_names(db: DbView, groups: Seq<(i64, Seq<AssetView>)>) -> Seq<Seq<char>>
    decreases groups.len(),
{
    if groups.len() == 0 {
        Seq::empty()
    } else {
        let front = package_names(db, groups.drop_last());
        match package_with_id(db, groups.last().0) {
            Some(p) => front.push(p.name),
            None => front,
        }
    }
}

pub open spec fn root_ref(a: AssetView) -> RootRefView {
    RootRefView { guid: a.guid, path: a.path, package: a.package }
}

pub open spec fn paths_of(s: Seq<AssetView>) -> Seq<Seq<char>> {
    s.map_values(|a: AssetView| a.path)
}

/// A plan for output.
pub open spec fn plan_output(db: DbView, plan: PlanView, roots: Seq<AssetView>) -> PlanOutView {
    PlanOutView {
        roots: roots.map_values(|a: AssetView| root_ref(a)),
        planned: plan.assets.len() as usize,
        planned_bytes: size_sum(sizes(plan.assets)),
        packages: package_names(db, plan.by_package),
        warnings: plan.warnings,
        unresolved: values_in_order(plan.closure.unresolved),
        scripts: paths_of(node_assets(script_nodes(plan.closure.nodes))),
        skipped_scripts: paths_of(values_in_order(plan.closure.skipped_scripts)),
        assets: plan.assets,
    }
}

fn copy_paths(v: &Vec<Asset>) -> (r: Vec<String>)
    ensures
        r.deep_view() == paths_of(v.deep_view()),
{
    let path = |a: &Asset| -> (t: String)
        ensures
            t@ == a@.path,
        { a.path.clone() };
    map_all(v, path, Ghost(|a: AssetView| a.path))
}

pub fn plan_out(db: &Database, plan: &Plan, roots: &Vec<Asset>) -> (r: PlanOut)
    ensures
        r@ == plan_output(db@, plan@, roots.deep_view()),
{
    let ghost gs = plan.by_package.deep_view();
    let mut packages: Vec<String> = Vec::new();
    let mut i: usize = 0;
    assert(gs.take(0) =~= Seq::<(i64, Seq<AssetView>)>::empty());
    assert(packages.deep_view() =~= Seq::<Seq<char>>::empty());
    while i < plan.by_package.len()
        invariant
            i <= plan.by_package@.len(),
            gs == plan.by_package.deep_view(),
            packages.deep_view() == package_names(db@, gs.take(i as int)),
        decreases plan.by_package@.len() - i,
    {
        proof {
            assert(gs.take(i + 1).drop_last() =~= gs.take(i as int));
            assert(gs.take(i + 1).last() == gs[i as int]);
            assert(gs[i as int].0 == plan.by_package@[i as int].0);
        }
        match db.package_by_id(plan.by_package[i].0) {
            Some(p) => {
                let ghost o0 = packages.deep_view();
                let ghost nv = p@.name;
                packages.push(p.name);
                assert(packages.deep_view() =~= o0.push(nv));
            },
            None => {},
        }
        i += 1;
    }
    assert(gs.take(gs.len() as int) =~= gs);
    let name = |a: &Asset| -> (x: RootRef)
        ensures
            x@ == root_ref(a@),
        { RootRef { guid: a.guid.clone(), path: a.path.clone(), package: a.package.clone() } };
    let refs = map_all(roots, name, Ghost(|a: AssetView| root_ref(a)));
    let out = plan.closure.to_out(db);
    let script_nodes_found = plan.closure.scripts();
    let scripts = node_paths(&script_nodes_found);
    PlanOut {
        roots: refs,
        planned: plan.assets.len(),
        planned_bytes: plan.total_bytes(),
        packages,
        warnings: clone_texts(&plan.warnings),
        unresolved: out.unresolved,
        scripts,
        skipped_scripts: copy_paths(&out.skipped_scripts),
        assets: clone_assets(&plan.assets),
    }
}

fn node_paths(v: &Vec<crate::deps::Node>) -> (r: Vec<String>)
    ensures
        r.deep_view() == paths_of(node_assets(v.deep_view())),
{
    let path = |n: &crate::deps::Node| -> (t: String)
        ensures
            t@ == n@.asset.path,
        { n.asset.path.clone() };
    let r = map_all(v, path, Ghost(|n: NodeView| n.asset.path));
    assert(r.deep_view() =~= paths_of(node_assets(v.deep_view())));
    r
}

// ----- laws ----------------------------------------------------------------------------------

proof fn lemma_with_folders(assets: Seq<AssetView>, folders: Seq<AssetView>, more: Seq<AssetView>)
    ensures
        with_folders(assets, folders, more).len() >= folders.len(),
        forall|i: int|
            0 <= i < with_folders(assets, folders, more).len() ==> folders.contains(
                #[trigger] with_folders(assets, folders, more)[i],
            ) || more.contains(with_folders(assets, folders, more)[i]),
    decreases more.len(),
{
    let r = with_folders(assets, folders, more);
    if more.len() == 0 {
        assert forall|i: int| 0 <= i < r.len() implies folders.contains(#[trigger] r[i]) || more.contains(r[i]) by {
            assert(folders[i] == r[i]);
        }
    } else {
        let rest = more.drop_last();
        lemma_with_folders(assets, folders, rest);
        let q = with_folders(assets, folders, rest);
        assert forall|i: int| 0 <= i < r.len() implies folders.contains(#[trigger] r[i]) || more.contains(r[i]) by {
            if i < q.len() {
                assert(r[i] == q[i]);
                if rest.contains(q[i]) {
                    let k = choose|k: int| 0 <= k < rest.len() && rest[k] == q[i];
                    assert(more[k] == r[i]);
                }
            } else {
                assert(more[more.len() - 1] == r[i]);
            }
        }
    }
}

/// Whether an asset is a folder of a package above one of the assets of that package.
pub open spec fn folder_above(assets: Seq<AssetView>, f: AssetView) -> bool {
    f.is_folder && dirs_above(assets, f.package_id).contains(f.path)
}

proof fn lemma_folders_above(db: DbView, assets: Seq<AssetView>, ids: Seq<i64>, i: int)
    requires
        0 <= i < folders_above(db, assets, ids).len(),
    ensures
        folder_above(assets, folders_above(db, assets, ids)[i]),
    decreases ids.len(),
{
    if ids.len() > 0 {
        let front = folders_above(db, assets, ids.drop_last());
        let pid = ids.last();
        let dirs = ascending_of(dirs_above(assets, pid));
        let more = folders_at(db, pid, dirs);
        lemma_with_folders(assets, front, more);
        let f = folders_above(db, assets, ids)[i];
        if front.contains(f) {
            let k = choose|k: int| 0 <= k < front.len() && front[k] == f;
            lemma_folders_above(db, assets, ids.drop_last(), k);
        } else {
            assert(more.contains(f));
            let k = choose|k: int| 0 <= k < more.len() && more[k] == f;
            let p = |a: crate::db::AssetRowView| a.package_id == pid && a.is_folder && dirs.contains(a.path);
            let row = db.assets.filter(p)[k];
            assert(db.assets.filter(p).contains(row));
            crate::seqs::lemma_filter_has(db.assets, p, row);
            lemma_dirs_listed(assets, pid);
            assert(dirs.to_set().contains(f.path));
        }
    }
}

proof fn lemma_dirs_listed(assets: Seq<AssetView>, pid: i64)
    ensures
        ascending_of(dirs_above(assets, pid)).to_set() == dirs_above(assets, pid),
{
    lemma_dirs_finite(assets, pid, assets.len() as int);
    assert(assets.take(assets.len() as int) =~= assets);
}

proof fn lemma_dirs_finite(assets: Seq<AssetView>, pid: i64, n: int)
    requires
        0 <= n <= assets.len(),
    ensures
        exists|r: Seq<Seq<char>>|
            ascending(r) && #[trigger] r.to_set() == dirs_above(assets.take(n), pid),
    decreases n,
{
    if n == 0 {
        let r = Seq::<Seq<char>>::empty();
        assert(r.to_set() =~= dirs_above(assets.take(0), pid));
        assert(ascending(r));
    } else {
        lemma_dirs_finite(assets, pid, n - 1);
        let r = choose|r: Seq<Seq<char>>|
            ascending(r) && #[trigger] r.to_set() == dirs_above(assets.take(n - 1), pid);
        let a = assets[n - 1];
        let m = filled(pieces(a.path, Sep::Is('/'))).len() as int;
        let t = assets.take(n);
        let u = assets.take(n - 1);
        if a.package_id == pid {
            lemma_add_dirs(r, a.path, m);
            let q = choose|q: Seq<Seq<char>>|
                ascending(q) && forall|d: Seq<char>|
                    #[trigger] q.to_set().contains(d) <==> (r.to_set().contains(d) || is_among(d, a.path, m));
            assert forall|d: Seq<char>| q.to_set().contains(d) <==> dirs_above(t, pid).contains(d) by {
                lemma_dirs_step(assets, pid, n, d);
            }
            assert(q.to_set() =~= dirs_above(t, pid));
        } else {
            assert forall|d: Seq<char>| r.to_set().contains(d) <==> dirs_above(t, pid).contains(d) by {
                lemma_dirs_step(assets, pid, n, d);
            }
            assert(r.to_set() =~= dirs_above(t, pid));
        }
    }
}

proof fn lemma_dirs_step(assets: Seq<AssetView>, pid: i64, n: int, d: Seq<char>)
    requires
        0 < n <= assets.len(),
    ensures
        dirs_above(assets.take(n), pid).contains(d) <==> (dirs_above(assets.take(n - 1), pid).contains(d) || (
        assets[n - 1].package_id == pid && is_above(d, assets[n - 1].path))),
{
    let t = assets.take(n);
    let u = assets.take(n - 1);
    if dirs_above(u, pid).contains(d) {
        let k = choose|k: int| 0 <= k < u.len() && (#[trigger] u[k]).package_id == pid && is_above(d, u[k].path);
        assert(t[k] == u[k]);
    }
    if dirs_above(t, pid).contains(d) {
        let k = choose|k: int| 0 <= k < t.len() && (#[trigger] t[k]).package_id == pid && is_above(d, t[k].path);
        if k < n - 1 {
            assert(u[k] == t[k]);
        }
    }
    assert(t[n - 1] == assets[n - 1]);
}

proof fn lemma_add_dirs(r: Seq<Seq<char>>, path: Seq<char>, m: int)
    requires
        ascending(r),
    ensures
        exists|q: Seq<Seq<char>>|
            ascending(q) && forall|d: Seq<char>|
                #[trigger] q.to_set().contains(d) <==> (r.to_set().contains(d) || is_among(d, path, m)),
    decreases m,
{
    if m <= 1 {
        assert(forall|d: Seq<char>|
            #[trigger] r.to_set().contains(d) <==> (r.to_set().contains(d) || is_among(d, path, m)));
    } else {
        lemma_add_dirs(r, path, m - 1);
        let q = choose|q: Seq<Seq<char>>|
            ascending(q) && forall|d: Seq<char>|
                #[trigger] q.to_set().contains(d) <==> (r.to_set().contains(d) || is_among(d, path, m - 1));
        let x = dir_at(path, m - 1);
        let s = lemma_insert_ascending(q, x);
        assert forall|d: Seq<char>| #[trigger] s.to_set().contains(d) <==> (r.to_set().contains(d) || is_among(
            d,
            path,
            m,
        )) by {
            assert(s.to_set().contains(d) <==> q.to_set().contains(d) || d == x);
            if is_among(d, path, m - 1) {
                let k = choose|k: int| 1 <= k < m - 1 && d == #[trigger] dir_at(path, k);
                assert(d == dir_at(path, k));
            }
            if is_among(d, path, m) {
                let k = choose|k: int| 1 <= k < m && d == #[trigger] dir_at(path, k);
                if k < m - 1 {
                    assert(is_among(d, path, m - 1));
                }
            }
        }
    }
}

/// What a plan writes is the closure of the roots and folders above its assets, each in the
/// package of the assets it is above; without folders it is the closure alone.
pub proof fn plan_is_closure_and_folders(
    db: DbView,
    known: Map<Seq<char>, Seq<char>>,
    roots: Seq<AssetView>,
    deps: bool,
    scripts: bool,
    folders: bool,
    i: int,
)
    requires
        0 <= i < plan_for(db, known, roots, deps, scripts, folders).folders.len(),
    ensures
        folders,
        ({
            let plan = plan_for(db, known, roots, deps, scripts, folders);
            &&& plan.assets == node_assets(plan.closure.nodes) + plan.folders
            &&& folder_above(node_assets(plan.closure.nodes), plan.folders[i])
        }),
{
    let plan = plan_for(db, known, roots, deps, scripts, folders);
    let assets = node_assets(plan.closure.nodes);
    lemma_folders_above(db, assets, asset_packages(assets), i);
}

/// Without dependencies a plan holds the roots alone, and the folders above them.
pub proof fn plan_without_dependencies(
    db: DbView,
    known: Map<Seq<char>, Seq<char>>,
    roots: Seq<AssetView>,
    scripts: bool,
    folders: bool,
    i: int,
)
    requires
        0 <= i < plan_for(db, known, roots, false, scripts, folders).closure.nodes.len(),
    ensures
        roots.contains(plan_for(db, known, roots, false, scripts, folders).closure.nodes[i].asset),
{
    let rules = Rules { db, known, scripts, max_depth: Some(0) };
    crate::deps::depth_is_limited(rules, roots, 0, i);
    crate::deps::closure_begins_with_roots(rules, roots);
}

proof fn lemma_new_folders_differ(assets: Seq<AssetView>, folders: Seq<AssetView>, more: Seq<AssetView>)
    requires
        told_apart(assets + folders),
    ensures
        told_apart(assets + with_folders(assets, folders, more)),
    decreases more.len(),
{
    if more.len() > 0 {
        let rest = more.drop_last();
        lemma_new_folders_differ(assets, folders, rest);
        let q = with_folders(assets, folders, rest);
        let f = more.last();
        let s = assets + q;
        let t = assets + with_folders(assets, folders, more);
        if with_folder(assets, q, f) != q {
            assert(t =~= s.push(f));
            assert forall|i: int, j: int| 0 <= i < j < t.len() implies (#[trigger] t[i]).package_id != (
            #[trigger] t[j]).package_id || t[i].guid != t[j].guid by {
                assert(t[i] == s[i]);
                if j < s.len() {
                    assert(t[j] == s[j]);
                } else if i < assets.len() {
                    assert(s[i] == assets[i]);
                } else {
                    assert(s[i] == q[i - assets.len()]);
                }
            }
        }
    }
}

proof fn lemma_folders_differ(db: DbView, assets: Seq<AssetView>, ids: Seq<i64>)
    requires
        told_apart(assets),
    ensures
        told_apart(assets + folders_above(db, assets, ids)),
    decreases ids.len(),
{
    if ids.len() == 0 {
        assert(assets + folders_above(db, assets, ids) =~= assets);
    } else {
        lemma_folders_differ(db, assets, ids.drop_last());
        lemma_new_folders_differ(
            assets,
            folders_above(db, assets, ids.drop_last()),
            folders_at(db, ids.last(), ascending_of(dirs_above(assets, ids.last()))),
        );
    }
}

/// Whether no two assets share package and guid.
pub open spec fn told_apart(s: Seq<AssetView>) -> bool {
    forall|i: int, j: int|
        0 <= i < j < s.len() ==> (#[trigger] s[i]).package_id != (#[trigger] s[j]).package_id || s[i].guid != s[j].guid
}

/// Nothing is planned twice: no two assets of a plan share package and guid.
pub proof fn plan_has_each_asset_once(
    db: DbView,
    known: Map<Seq<char>, Seq<char>>,
    roots: Seq<AssetView>,
    deps: bool,
    scripts: bool,
    folders: bool,
)
    ensures
        told_apart(plan_for(db, known, roots, deps, scripts, folders).assets),
{
    let rules = Rules {
        db,
        known,
        scripts,
        max_depth: if deps {
            None
        } else {
            Some(0)
        },
    };
    let cl = closure_of(rules, roots);
    let assets = node_assets(cl.nodes);
    assert forall|i: int, j: int| 0 <= i < j < assets.len() implies (#[trigger] assets[i]).package_id != (
    #[trigger] assets[j]).package_id || assets[i].guid != assets[j].guid by {
        crate::deps::closure_has_each_guid_once(rules, roots, i, j);
        assert(assets[i] == cl.nodes[i].asset && assets[j] == cl.nodes[j].asset);
    }
    assert(assets + Seq::<AssetView>::empty() =~= assets);
    lemma_folders_differ(db, assets, asset_packages(assets));
}

/// Every asset of a plan is in the group of its package and in no other.
pub proof fn plan_groups_are_packages(s: Seq<AssetView>, g: int, a: AssetView)
    requires
        0 <= g < packaged(s).len(),
    ensures
        packaged(s)[g].1.contains(a) <==> s.contains(a) && a.package_id == packaged(s)[g].0,
{
    crate::groups::groups_hold_their_own(s, |x: AssetView| x.package_id, g, a);
}

/// Every asset of a plan is in some group.
pub proof fn plan_groups_hold_everything(s: Seq<AssetView>, a: AssetView) -> (g: int)
    requires
        s.contains(a),
    ensures
        0 <= g < packaged(s).len(),
        packaged(s)[g].1.contains(a),
{
    crate::groups::every_item_has_a_group(s, |x: AssetView| x.package_id, a)
}

proof fn lemma_folders_stay(assets: Seq<AssetView>, folders: Seq<AssetView>, more: Seq<AssetView>, f: AssetView)
    requires
        same_there(assets, f) || same_there(folders, f) || more.contains(f),
    ensures
        same_there(assets, f) || same_there(with_folders(assets, folders, more), f),
    decreases more.len(),
{
    if more.len() > 0 {
        let rest = more.drop_last();
        let q = with_folders(assets, folders, rest);
        let r = with_folders(assets, folders, more);
        if same_there(assets, f) || same_there(folders, f) || rest.contains(f) {
            lemma_folders_stay(assets, folders, rest, f);
            if same_there(q, f) {
                let k = choose|k: int|
                    0 <= k < q.len() && (#[trigger] q[k]).package_id == f.package_id && q[k].guid == f.guid;
                assert(r[k] == q[k]);
            }
        } else {
            let k = choose|k: int| 0 <= k < more.len() && more[k] == f;
            if k < rest.len() {
                assert(rest[k] == f);
            }
            assert(more.last() == f);
            if !same_there(q, f) && !same_there(assets, f) {
                assert(r[r.len() - 1] == f);
            }
        }
    }
}

proof fn lemma_folders_reached(db: DbView, assets: Seq<AssetView>, ids: Seq<i64>, row: crate::db::AssetRowView)
    requires
        db.assets.contains(row),
        row.is_folder,
        dirs_above(assets, row.package_id).contains(row.path),
        ids.contains(row.package_id),
    ensures
        same_there(assets, asset_of(db, row)) || same_there(folders_above(db, assets, ids), asset_of(db, row)),
    decreases ids.len(),
{
    let f = asset_of(db, row);
    let front = folders_above(db, assets, ids.drop_last());
    let pid = ids.last();
    let dirs = ascending_of(dirs_above(assets, pid));
    let more = folders_at(db, pid, dirs);
    if pid == row.package_id {
        let p = |a: crate::db::AssetRowView| a.package_id == pid && a.is_folder && dirs.contains(a.path);
        lemma_dirs_listed(assets, pid);
        assert(dirs.to_set().contains(row.path));
        crate::seqs::lemma_filter_has(db.assets, p, row);
        let k = choose|k: int| 0 <= k < db.assets.filter(p).len() && db.assets.filter(p)[k] == row;
        assert(more[k] == f);
    } else {
        let k = choose|k: int| 0 <= k < ids.len() && ids[k] == row.package_id;
        assert(ids.drop_last()[k] == row.package_id);
        lemma_folders_reached(db, assets, ids.drop_last(), row);
    }
    lemma_folders_stay(assets, front, more, f);
}

/// No folder is missing from a plan with folders: one that the index has above a planned asset, in
/// the package of that asset, is planned.
pub proof fn folders_above_are_planned(
    db: DbView,
    known: Map<Seq<char>, Seq<char>>,
    roots: Seq<AssetView>,
    deps: bool,
    scripts: bool,
    row: crate::db::AssetRowView,
)
    requires
        db.assets.contains(row),
        row.is_folder,
        dirs_above(
            node_assets(plan_for(db, known, roots, deps, scripts, true).closure.nodes),
            row.package_id,
        ).contains(row.path),
    ensures
        same_there(plan_for(db, known, roots, deps, scripts, true).assets, asset_of(db, row)),
{
    let plan = plan_for(db, known, roots, deps, scripts, true);
    let assets = node_assets(plan.closure.nodes);
    let f = asset_of(db, row);
    let pids = assets.map_values(|a: AssetView| a.package_id);
    let k = choose|k: int|
        0 <= k < assets.len() && (#[trigger] assets[k]).package_id == row.package_id && is_above(
            row.path,
            assets[k].path,
        );
    assert(pids[k] == row.package_id);
    assert(pids.to_set().contains(row.package_id));
    crate::groups::distinct_numbers_are_all_there(pids);
    assert(distinct(pids).to_set().contains(row.package_id));
    lemma_folders_reached(db, assets, asset_packages(assets), row);
    if same_there(assets, f) {
        let j = choose|j: int|
            0 <= j < assets.len() && (#[trigger] assets[j]).package_id == f.package_id && assets[j].guid == f.guid;
        assert(plan.assets[j] == assets[j]);
    } else {
        let j = choose|j: int|
            0 <= j < plan.folders.len() && (#[trigger] plan.folders[j]).package_id == f.package_id
                && plan.folders[j].guid == f.guid;
        assert(plan.assets[assets.len() + j] == plan.folders[j]);
    }
}

} // verus!
