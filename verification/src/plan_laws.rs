//! What a plan and the counts of the index promise.

use vstd::prelude::*;

use crate::db::{
    by_count, count_of, counts, exact_sum, in_package, kinds_in, of_kind, package_with_id, publisher_set,
    publishers_of, ref_count, row_sizes, stats_of, AssetRowView, DbView, PackageRowView,
};
use crate::deps::{closure_of, node_assets, script_nodes, sizes, NodeView, Rules};
use crate::groups::packaged;
use crate::model::AssetView;
use crate::number::numeral;
use crate::pattern::folded_at_most;
use crate::plan::{
    ambiguous_nodes, package_names, paths_of, plan_for, plan_groups_are_packages, plan_groups_hold_everything,
    plan_output, plan_warnings, PlanView,
};
use crate::seqs::lemma_filter_has;
use crate::sorted::{arranging_keeps, arranging_sorts, ascending_of, at_most, finite_sets_are_listed};
use crate::text::{lower, starts};

verus! {

// ----- plans ---------------------------------------------------------------------------------

/// A plan with dependencies holds everything that the closure of its roots reaches, at whatever depth.
pub proof fn plans_hold_the_whole_closure(
    db: DbView,
    known: Map<Seq<char>, Seq<char>>,
    roots: Seq<AssetView>,
    scripts: bool,
    folders: bool,
    i: int,
)
    requires
        0 <= i < closure_of(Rules { db, known, scripts, max_depth: None }, roots).nodes.len(),
    ensures
        plan_for(db, known, roots, true, scripts, folders).assets.contains(
            closure_of(Rules { db, known, scripts, max_depth: None }, roots).nodes[i].asset,
        ),
{
    let plan = plan_for(db, known, roots, true, scripts, folders);
    let n = closure_of(Rules { db, known, scripts, max_depth: None }, roots).nodes[i];
    assert(plan.assets[i] == n.asset);
}

/// The output of a plan tells every root and every planned asset, in their order, and how many there are.
pub proof fn plan_outputs_tell_everything(db: DbView, plan: PlanView, roots: Seq<AssetView>, i: int)
    requires
        plan.assets.len() <= usize::MAX,
    ensures
        plan_output(db, plan, roots).planned == plan.assets.len(),
        plan_output(db, plan, roots).assets.len() == plan.assets.len(),
        0 <= i < plan.assets.len() ==> plan_output(db, plan, roots).assets[i] == plan.assets[i],
        plan_output(db, plan, roots).roots.len() == roots.len(),
        0 <= i < roots.len() ==> {
            let r = plan_output(db, plan, roots).roots[i];
            r.guid == roots[i].guid && r.path == roots[i].path && r.package == roots[i].package
        },
{
}

/// Every planned asset adds its bytes to those of the plan.
pub proof fn plan_outputs_count_every_byte(db: DbView, plan: PlanView, roots: Seq<AssetView>, a: AssetView)
    ensures
        plan.assets.len() == 0 ==> plan_output(db, plan, roots).planned_bytes == 0,
        plan_output(db, PlanView { assets: plan.assets.push(a), ..plan }, roots).planned_bytes == plan_output(
            db,
            plan,
            roots,
        ).planned_bytes.wrapping_add(a.size),
{
    let t = plan.assets.push(a);
    assert(sizes(t).drop_last() =~= sizes(plan.assets));
    assert(sizes(t).last() == a.size);
}

proof fn lemma_names(db: DbView, groups: Seq<(i64, Seq<AssetView>)>, name: Seq<char>)
    ensures
        package_names(db, groups).contains(name) <==> exists|g: int|
            0 <= g < groups.len() && (package_with_id(db, (#[trigger] groups[g]).0) matches Some(p) && p.name == name),
    decreases groups.len(),
{
    if groups.len() > 0 {
        let rest = groups.drop_last();
        let front = package_names(db, rest);
        let all = package_names(db, groups);
        lemma_names(db, rest, name);
        assert(groups[groups.len() - 1] == groups.last());
        if front.contains(name) {
            let k = choose|k: int| 0 <= k < front.len() && front[k] == name;
            assert(all[k] == name);
            let g = choose|g: int|
                0 <= g < rest.len() && (package_with_id(db, (#[trigger] rest[g]).0) matches Some(p) && p.name == name);
            assert(groups[g] == rest[g]);
        }
        if all.contains(name) && !front.contains(name) {
            let k = choose|k: int| 0 <= k < all.len() && all[k] == name;
            if k < front.len() {
                assert(front[k] == name);
            }
        }
        if exists|g: int|
            0 <= g < groups.len() && (package_with_id(db, (#[trigger] groups[g]).0) matches Some(p) && p.name == name) {
            let g = choose|g: int|
                0 <= g < groups.len() && (package_with_id(db, (#[trigger] groups[g]).0) matches Some(p) && p.name
                    == name);
            if g < rest.len() {
                assert(rest[g] == groups[g]);
            } else {
                assert(all[all.len() - 1] == name);
            }
        }
    }
}

/// The output of a plan names the package of every planned asset, and no other.
pub proof fn plan_outputs_name_every_package(
    db: DbView,
    known: Map<Seq<char>, Seq<char>>,
    roots: Seq<AssetView>,
    deps: bool,
    scripts: bool,
    folders: bool,
    name: Seq<char>,
)
    ensures
        ({
            let plan = plan_for(db, known, roots, deps, scripts, folders);
            plan_output(db, plan, roots).packages.contains(name) <==> exists|i: int|
                0 <= i < plan.assets.len() && (package_with_id(db, (#[trigger] plan.assets[i]).package_id) matches Some(p)
                    && p.name == name)
        }),
{
    let plan = plan_for(db, known, roots, deps, scripts, folders);
    let s = plan.assets;
    let groups = packaged(s);
    assert(plan.by_package == groups);
    lemma_names(db, groups, name);
    if exists|g: int|
        0 <= g < groups.len() && (package_with_id(db, (#[trigger] groups[g]).0) matches Some(p) && p.name == name) {
        let g = choose|g: int|
            0 <= g < groups.len() && (package_with_id(db, (#[trigger] groups[g]).0) matches Some(p) && p.name == name);
        crate::groups::distinct_numbers_are_all_there(s.map_values(|a: AssetView| a.package_id));
        let keys = s.map_values(|a: AssetView| a.package_id);
        let ids = crate::groups::distinct(keys);
        assert(groups[g].0 == ids[g]);
        assert(ids.to_set().contains(ids[g]));
        assert(keys.to_set().contains(ids[g]));
        let i = choose|i: int| 0 <= i < keys.len() && keys[i] == ids[g];
        assert(s[i].package_id == groups[g].0);
    }
    if exists|i: int|
        0 <= i < s.len() && (package_with_id(db, (#[trigger] s[i]).package_id) matches Some(p) && p.name == name) {
        let i = choose|i: int|
            0 <= i < s.len() && (package_with_id(db, (#[trigger] s[i]).package_id) matches Some(p) && p.name == name);
        assert(s.contains(s[i]));
        let g = plan_groups_hold_everything(s, s[i]);
        plan_groups_are_packages(s, g, s[i]);
        assert(groups[g].0 == s[i].package_id);
    }
}

/// The output of a plan tells every planned script, and nothing else as one.
pub proof fn plan_outputs_tell_scripts(db: DbView, plan: PlanView, roots: Seq<AssetView>, path: Seq<char>)
    ensures
        plan_output(db, plan, roots).scripts.contains(path) <==> exists|i: int|
            0 <= i < plan.closure.nodes.len() && (#[trigger] plan.closure.nodes[i]).asset.kind == "script"@
                && plan.closure.nodes[i].asset.path == path,
{
    let nodes = plan.closure.nodes;
    let p = |n: NodeView| crate::deps::script_kind(n.asset.kind);
    let kept = script_nodes(nodes);
    let out = plan_output(db, plan, roots).scripts;
    if out.contains(path) {
        let k = choose|k: int| 0 <= k < out.len() && out[k] == path;
        assert(kept.contains(kept[k]));
        lemma_filter_has(nodes, p, kept[k]);
        let i = choose|i: int| 0 <= i < nodes.len() && nodes[i] == kept[k];
        assert(nodes[i].asset.path == path);
    }
    if exists|i: int|
        0 <= i < nodes.len() && (#[trigger] nodes[i]).asset.kind == "script"@ && nodes[i].asset.path == path {
        let i = choose|i: int|
            0 <= i < nodes.len() && (#[trigger] nodes[i]).asset.kind == "script"@ && nodes[i].asset.path == path;
        assert(nodes.contains(nodes[i]));
        lemma_filter_has(nodes, p, nodes[i]);
        let k = choose|k: int| 0 <= k < kept.len() && kept[k] == nodes[i];
        assert(out[k] == path);
    }
}

/// A plan warns of scripts exactly where it holds some, saying how many; of unresolved references exactly
/// where there are some, saying how many; and of guids in several packages exactly where one of its assets
/// has such a guid.
pub proof fn plans_warn_of_what_is_wrong(
    db: DbView,
    known: Map<Seq<char>, Seq<char>>,
    roots: Seq<AssetView>,
    deps: bool,
    scripts: bool,
    folders: bool,
)
    ensures
        ({
            let plan = plan_for(db, known, roots, deps, scripts, folders);
            let out = plan_output(db, plan, roots);
            let a = out.scripts.len() > 0;
            let b = plan.closure.unresolved.dom().len() > 0;
            let c = exists|i: int|
                0 <= i < plan.closure.nodes.len() && (#[trigger] plan.closure.nodes[i]).ambiguous_in.len() > 0;
            &&& out.warnings.len() == (if a {
                1int
            } else {
                0
            }) + (if b {
                1int
            } else {
                0
            }) + (if c {
                1int
            } else {
                0
            })
            &&& a ==> starts(out.warnings[0], numeral(out.scripts.len()))
            &&& b ==> starts(
                out.warnings[if a {
                    1
                } else {
                    0
                }],
                numeral(plan.closure.unresolved.dom().len()),
            )
        }),
{
    let plan = plan_for(db, known, roots, deps, scripts, folders);
    let nodes = plan.closure.nodes;
    let p = |n: NodeView| n.ambiguous_in.len() > 0;
    let kept = ambiguous_nodes(nodes);
    if kept.len() > 0 {
        assert(kept.contains(kept[0]));
        lemma_filter_has(nodes, p, kept[0]);
        let i = choose|i: int| 0 <= i < nodes.len() && nodes[i] == kept[0];
        assert(nodes[i].ambiguous_in.len() > 0);
    }
    if exists|i: int| 0 <= i < nodes.len() && (#[trigger] nodes[i]).ambiguous_in.len() > 0 {
        let i = choose|i: int| 0 <= i < nodes.len() && (#[trigger] nodes[i]).ambiguous_in.len() > 0;
        assert(nodes.contains(nodes[i]));
        lemma_filter_has(nodes, p, nodes[i]);
        assert(kept.len() > 0);
    }
    let n = script_nodes(nodes).len();
    assert(paths_of(node_assets(script_nodes(nodes))).len() == n);
    let w = plan_warnings(plan.closure);
    if n > 0 {
        assert(w[0].subrange(0, numeral(n).len() as int) =~= numeral(n));
    }
    let u = plan.closure.unresolved.dom().len();
    if u > 0 {
        let at: int = if n > 0 {
            1
        } else {
            0
        };
        assert(w[at].subrange(0, numeral(u).len() as int) =~= numeral(u));
    }
}

// ----- counts --------------------------------------------------------------------------------

proof fn lemma_same_filter<T>(s: Seq<T>, p: spec_fn(T) -> bool, q: spec_fn(T) -> bool)
    requires
        forall|x: T| #[trigger] p(x) == q(x),
    ensures
        s.filter(p) == s.filter(q),
{
    assert(p =~= q);
}

proof fn lemma_kinds_finite(db: DbView, pid: Option<i64>)
    ensures
        kinds_in(db, pid).finite(),
{
    let all = db.assets.map_values(|a: AssetRowView| a.kind);
    vstd::seq_lib::seq_to_set_is_finite(all);
    assert forall|k: Seq<char>| kinds_in(db, pid).contains(k) implies all.to_set().contains(k) by {
        let i = choose|i: int|
            0 <= i < db.assets.len() && in_package(#[trigger] db.assets[i], pid) && db.assets[i].kind == k;
        assert(all[i] == k);
    }
    vstd::set_lib::lemma_set_subset_finite(all.to_set(), kinds_in(db, pid));
}

/// The counts have every kind that occurs, in the package where one is given, with the number of its
/// assets, and no other: one line each, the most frequent first.
pub proof fn counts_tell_every_kind(db: DbView, pid: Option<i64>, kind: Seq<char>)
    requires
        db.assets.len() <= i64::MAX,
    ensures
        ({
            let of = db.assets.filter(|a: AssetRowView| (pid matches Some(p) ==> a.package_id == p) && a.kind == kind);
            let all = counts(db, pid);
            &&& of.len() > 0 <==> exists|j: int| 0 <= j < all.len() && (#[trigger] all[j]).kind == kind
            &&& forall|j: int| 0 <= j < all.len() && (#[trigger] all[j]).kind == kind ==> all[j].n == of.len()
            &&& forall|i: int, j: int| 0 <= i < j < all.len() ==> (#[trigger] all[j]).n <= (#[trigger] all[i]).n
            &&& all.len() == kinds_in(db, pid).len()
        }),
{
    let p = |a: AssetRowView| (pid matches Some(p) ==> a.package_id == p) && a.kind == kind;
    let q = |a: AssetRowView| in_package(a, pid) && a.kind == kind;
    let of = db.assets.filter(p);
    lemma_same_filter(db.assets, p, q);
    assert(of == of_kind(db, pid, kind));
    crate::laws::lemma_filter_places(db.assets, q);
    lemma_kinds_finite(db, pid);
    let ks = ascending_of(kinds_in(db, pid));
    finite_sets_are_listed(kinds_in(db, pid));
    crate::sorted::ascending_has_no_duplicates(ks);
    ks.unique_seq_to_set();
    let f = |k: Seq<char>| count_of(db, pid, k);
    let lines = ks.map_values(f);
    let all = counts(db, pid);
    crate::db::lemma_by_count();
    arranging_sorts(lines, by_count());
    arranging_keeps(lines, by_count(), count_of(db, pid, kind));
    assert forall|j: int| 0 <= j < all.len() && (#[trigger] all[j]).kind == kind implies all[j].n == of.len()
        && kinds_in(db, pid).contains(kind) by {
        let x = all[j];
        assert(all.contains(x));
        arranging_keeps(lines, by_count(), x);
        let t = choose|t: int| 0 <= t < lines.len() && lines[t] == x;
        assert(x == count_of(db, pid, ks[t]));
        assert(ks.to_set().contains(ks[t]));
        assert(of.len() <= db.assets.len());
    }
    if of.len() > 0 {
        let a = of[0];
        assert(of.contains(a));
        lemma_filter_has(db.assets, q, a);
        let i = choose|i: int| 0 <= i < db.assets.len() && db.assets[i] == a;
        assert(in_package(db.assets[i], pid));
        assert(kinds_in(db, pid).contains(kind));
        assert(ks.to_set().contains(kind));
        let t = choose|t: int| 0 <= t < ks.len() && ks[t] == kind;
        assert(lines[t] == count_of(db, pid, kind));
        assert(lines.contains(count_of(db, pid, kind)));
        let j = choose|j: int| 0 <= j < all.len() && all[j] == count_of(db, pid, kind);
        assert(all[j].kind == kind);
    }
    if exists|j: int| 0 <= j < all.len() && (#[trigger] all[j]).kind == kind {
        let i = choose|i: int|
            0 <= i < db.assets.len() && in_package(#[trigger] db.assets[i], pid) && db.assets[i].kind == kind;
        assert(db.assets.contains(db.assets[i]));
        lemma_filter_has(db.assets, q, db.assets[i]);
        assert(of.len() > 0);
    }
    assert forall|i: int, j: int| 0 <= i < j < all.len() implies (#[trigger] all[j]).n <= (#[trigger] all[i]).n by {
        assert(by_count()(all[i], all[j]));
    }
}

/// Every asset adds its bytes to those of its kind.
pub proof fn counts_add_every_byte(s: Seq<AssetRowView>, a: AssetRowView, n: i64)
    requires
        exact_sum(row_sizes(s)) == Some(n),
        i64::MIN <= n + a.size <= i64::MAX,
    ensures
        exact_sum(row_sizes(s.push(a))) == Some((n + a.size) as i64),
{
    assert(row_sizes(s.push(a)).drop_last() =~= row_sizes(s));
}

/// The statistics count every package, every asset, every reference and every thumbnail, and add up the
/// bytes: each asset more counts as one, with its references and its bytes.
pub proof fn statistics_count_everything(db: DbView, a: AssetRowView)
    requires
        db.assets.len() < i64::MAX,
        db.packages.len() <= i64::MAX,
        db.previews.dom().len() <= i64::MAX,
        ref_count(db.assets) + a.refs.len() <= i64::MAX,
        exact_sum(row_sizes(db.assets)) is Some,
        i64::MIN <= exact_sum(row_sizes(db.assets))->0 + a.size <= i64::MAX,
    ensures
        ({
            let before = stats_of(db);
            let after = stats_of(DbView { assets: db.assets.push(a), ..db });
            &&& before.packages == db.packages.len() == after.packages
            &&& before.assets == db.assets.len() && after.assets == before.assets + 1
            &&& after.refs == before.refs + a.refs.len()
            &&& after.bytes == before.bytes + a.size
            &&& before.previews == db.previews.dom().len() == after.previews
            &&& db.assets.len() == 0 ==> before.refs == 0 && before.bytes == 0
        }),
{
    counts_add_every_byte(db.assets, a, exact_sum(row_sizes(db.assets))->0);
    assert(db.assets.push(a).drop_last() =~= db.assets);
}

/// The publishers are those of the packages, without the nameless one, each once, by name whatever the
/// case.
pub proof fn publishers_are_all_listed(db: DbView, name: Seq<char>)
    ensures
        publishers_of(db).contains(name) <==> name.len() > 0 && exists|i: int|
            0 <= i < db.packages.len() && (#[trigger] db.packages[i]).package.publisher == name,
        publishers_of(db).len() == publisher_set(db).len(),
        forall|i: int, j: int|
            0 <= i < j < publishers_of(db).len() ==> at_most(
                lower(#[trigger] publishers_of(db)[i]),
                lower(#[trigger] publishers_of(db)[j]),
            ),
{
    let all = db.packages.map_values(|r: PackageRowView| r.package.publisher);
    let set = publisher_set(db);
    vstd::seq_lib::seq_to_set_is_finite(all);
    assert forall|k: Seq<char>| set.contains(k) implies all.to_set().contains(k) by {
        let i = choose|i: int| 0 <= i < db.packages.len() && (#[trigger] db.packages[i]).package.publisher == k;
        assert(all[i] == k);
    }
    vstd::set_lib::lemma_set_subset_finite(all.to_set(), set);
    let ks = ascending_of(set);
    finite_sets_are_listed(set);
    crate::sorted::ascending_has_no_duplicates(ks);
    ks.unique_seq_to_set();
    let leq = |a: Seq<char>, b: Seq<char>| folded_at_most(a, b);
    crate::db::lemma_by_folded();
    arranging_sorts(ks, leq);
    arranging_keeps(ks, leq, name);
    assert(ks.contains(name) <==> ks.to_set().contains(name));
    let out = publishers_of(db);
    assert forall|i: int, j: int| 0 <= i < j < out.len() implies at_most(
        lower(#[trigger] out[i]),
        lower(#[trigger] out[j]),
    ) by {
        assert(leq(out[i], out[j]));
    }
}

} // verus!
