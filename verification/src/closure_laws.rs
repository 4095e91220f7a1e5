//! What a dependency closure and its output promise.

use vstd::prelude::*;

use crate::db::{
    asset_of, asset_row, assets_in_order, assets_with_guid, package_with_id, refs_from, AssetRowView, DbView,
};
use crate::deps::{
    by_depth, closure_asset, closure_begins_with_roots, closure_is_complete, closure_is_needed, closure_of,
    closure_out, expanded, followed, is_node, node_assets, node_bound, package_ids, package_refs, planted, refers,
    refs_in_lower_case, scripts_are_left_out, settled, sizes, spread, unresolved_guids_are_nowhere, values_in_order,
    visited, visited_all, well_chosen, ClosureView, NodeView, Rules,
};
use crate::groups::distinct_numbers_are_all_there;
use crate::model::{AssetView, ClosureAssetView, PackageRefView, UnresolvedView};
use crate::sorted::{arranging_keeps, arranging_sorts, ascending_of, at_most, finite_sets_are_listed};
use crate::text::lower;

verus! {

// ----- the output ----------------------------------------------------------------------------

/// The output of a closure lists every node once, whatever its depth, with its asset, its depth, what
/// pulled it in and the other packages that hold it, and nothing else: by depth, and then by path.
pub proof fn output_lists_every_node(db: DbView, cl: ClosureView)
    ensures
        closure_out(db, cl).assets.len() == cl.nodes.len(),
        forall|i: int|
            0 <= i < cl.nodes.len() ==> closure_out(db, cl).assets.contains(
                (ClosureAssetView {
                    asset: (#[trigger] cl.nodes[i]).asset,
                    depth: cl.nodes[i].depth,
                    via: cl.nodes[i].via,
                    also_in_packages: cl.nodes[i].ambiguous_in,
                }),
            ),
        forall|j: int|
            0 <= j < closure_out(db, cl).assets.len() ==> exists|i: int|
                0 <= i < cl.nodes.len() && (#[trigger] cl.nodes[i]).asset == (#[trigger] closure_out(
                    db,
                    cl,
                ).assets[j]).asset && cl.nodes[i].depth == closure_out(db, cl).assets[j].depth && cl.nodes[i].via
                    == closure_out(db, cl).assets[j].via,
        forall|j: int, k: int|
            0 <= j < k < closure_out(db, cl).assets.len() ==> {
                let (a, b) = (#[trigger] closure_out(db, cl).assets[j], #[trigger] closure_out(db, cl).assets[k]);
                a.depth < b.depth || (a.depth == b.depth && at_most(a.asset.path, b.asset.path))
            },
        closure_out(db, cl).roots == cl.roots,
        closure_out(db, cl).edges == cl.edges,
{
    let f = |n: NodeView| closure_asset(n);
    let all = cl.nodes.map_values(f);
    let out = closure_out(db, cl).assets;
    crate::deps::lemma_by_depth();
    arranging_sorts(all, by_depth());
    assert forall|i: int| 0 <= i < cl.nodes.len() implies out.contains(
        (ClosureAssetView {
            asset: (#[trigger] cl.nodes[i]).asset,
            depth: cl.nodes[i].depth,
            via: cl.nodes[i].via,
            also_in_packages: cl.nodes[i].ambiguous_in,
        }),
    ) by {
        assert(all[i] == closure_asset(cl.nodes[i]));
        assert(all.contains(all[i]));
        arranging_keeps(all, by_depth(), all[i]);
    }
    assert forall|j: int| 0 <= j < out.len() implies exists|i: int|
        0 <= i < cl.nodes.len() && (#[trigger] cl.nodes[i]).asset == (#[trigger] out[j]).asset && cl.nodes[i].depth
            == out[j].depth && cl.nodes[i].via == out[j].via by {
        assert(out.contains(out[j]));
        arranging_keeps(all, by_depth(), out[j]);
        let i = choose|i: int| 0 <= i < all.len() && all[i] == out[j];
        assert(all[i] == closure_asset(cl.nodes[i]));
    }
}

/// The bytes of the output are those of all nodes: none adds nothing, and every node adds its size.
pub proof fn output_counts_every_byte(db: DbView, cl: ClosureView, n: NodeView)
    ensures
        cl.nodes.len() == 0 ==> closure_out(db, cl).total_bytes == 0,
        closure_out(db, ClosureView { nodes: cl.nodes.push(n), ..cl }).total_bytes == closure_out(
            db,
            cl,
        ).total_bytes.wrapping_add(n.asset.size),
{
    let t = cl.nodes.push(n);
    assert(sizes(node_assets(t)).drop_last() =~= sizes(node_assets(cl.nodes)));
    assert(sizes(node_assets(t)).last() == n.asset.size);
}

proof fn lemma_package_refs(db: DbView, ids: Seq<i64>, x: PackageRefView)
    ensures
        package_refs(db, ids).contains(x) <==> exists|k: int|
            0 <= k < ids.len() && (package_with_id(db, #[trigger] ids[k]) matches Some(p) && x.id == p.id && x.name
                == p.name),
    decreases ids.len(),
{
    if ids.len() > 0 {
        let rest = ids.drop_last();
        lemma_package_refs(db, rest, x);
        let front = package_refs(db, rest);
        let all = package_refs(db, ids);
        assert(ids[ids.len() - 1] == ids.last());
        if front.contains(x) {
            let k = choose|k: int| 0 <= k < front.len() && front[k] == x;
            assert(all[k] == x);
            let h = choose|h: int|
                0 <= h < rest.len() && (package_with_id(db, #[trigger] rest[h]) matches Some(p) && x.id == p.id
                    && x.name == p.name);
            assert(ids[h] == rest[h]);
        }
        if all.contains(x) && !front.contains(x) {
            let k = choose|k: int| 0 <= k < all.len() && all[k] == x;
            if k < front.len() {
                assert(front[k] == x);
            }
        }
        if exists|k: int|
            0 <= k < ids.len() && (package_with_id(db, #[trigger] ids[k]) matches Some(p) && x.id == p.id && x.name
                == p.name) {
            let k = choose|k: int|
                0 <= k < ids.len() && (package_with_id(db, #[trigger] ids[k]) matches Some(p) && x.id == p.id && x.name
                    == p.name);
            if k < rest.len() {
                assert(rest[k] == ids[k]);
            } else {
                assert(all[all.len() - 1] == x);
            }
        }
    }
}

/// The output names the packages that the nodes come from, each once by increasing id, and the name of
/// every one that the index has.
pub proof fn output_names_every_package(db: DbView, cl: ClosureView, pid: i64)
    ensures
        closure_out(db, cl).package_ids.contains(pid) <==> exists|i: int|
            0 <= i < cl.nodes.len() && (#[trigger] cl.nodes[i]).asset.package_id == pid,
        forall|i: int, j: int|
            0 <= i < j < closure_out(db, cl).package_ids.len() ==> (#[trigger] closure_out(db, cl).package_ids[i]) < (
            #[trigger] closure_out(db, cl).package_ids[j]),
        forall|k: int|
            0 <= k < db.packages.len() && (#[trigger] db.packages[k]).package.id == pid && (forall|h: int|
                0 <= h < k ==> (#[trigger] db.packages[h]).package.id != pid) && closure_out(
                db,
                cl,
            ).package_ids.contains(pid) ==> closure_out(db, cl).packages.contains(
                PackageRefView { id: pid, name: db.packages[k].package.name },
            ),
{
    let keys = cl.nodes.map_values(|n: NodeView| n.asset.package_id);
    distinct_numbers_are_all_there(keys);
    let ids = package_ids(cl.nodes);
    assert(ids.to_set().contains(pid) <==> keys.to_set().contains(pid));
    assert(ids.contains(pid) <==> ids.to_set().contains(pid));
    if keys.contains(pid) {
        let i = choose|i: int| 0 <= i < keys.len() && keys[i] == pid;
        assert(cl.nodes[i].asset.package_id == pid);
    }
    if exists|i: int| 0 <= i < cl.nodes.len() && (#[trigger] cl.nodes[i]).asset.package_id == pid {
        let i = choose|i: int| 0 <= i < cl.nodes.len() && (#[trigger] cl.nodes[i]).asset.package_id == pid;
        assert(keys[i] == pid);
        assert(keys.to_set().contains(pid));
    }
    assert forall|k: int|
        0 <= k < db.packages.len() && (#[trigger] db.packages[k]).package.id == pid && (forall|h: int|
            0 <= h < k ==> (#[trigger] db.packages[h]).package.id != pid) && ids.contains(pid) implies package_refs(
        db,
        ids,
    ).contains(PackageRefView { id: pid, name: db.packages[k].package.name }) by {
        let x = PackageRefView { id: pid, name: db.packages[k].package.name };
        crate::seqs::lemma_first_index(db.packages, |r: crate::db::PackageRowView| r.package.id == pid, k);
        lemma_package_refs(db, ids, x);
        let j = choose|j: int| 0 <= j < ids.len() && ids[j] == pid;
        assert(package_with_id(db, ids[j]) == Some(db.packages[k].package));
    }
}

proof fn lemma_visits_finite(rules: Rules, cl: ClosureView, from: NodeView, gs: Seq<Seq<char>>)
    requires
        cl.unresolved.dom().finite(),
        cl.skipped_scripts.dom().finite(),
    ensures
        visited_all(rules, cl, from, gs).unresolved.dom().finite(),
        visited_all(rules, cl, from, gs).skipped_scripts.dom().finite(),
    decreases gs.len(),
{
    if gs.len() > 0 {
        lemma_visits_finite(rules, cl, from, gs.drop_last());
    }
}

proof fn lemma_spread_finite(rules: Rules, cl: ClosureView, i: int, steps: nat)
    requires
        cl.unresolved.dom().finite(),
        cl.skipped_scripts.dom().finite(),
        0 <= i,
    ensures
        spread(rules, cl, i, steps).unresolved.dom().finite(),
        spread(rules, cl, i, steps).skipped_scripts.dom().finite(),
    decreases steps,
{
    if steps > 0 && i < cl.nodes.len() {
        let n = cl.nodes[i];
        if followed(rules, n) {
            let children = refs_from(rules.db, n.asset.id);
            lemma_visits_finite(
                rules,
                ClosureView { edges: cl.edges.insert(n.asset.guid, children), ..cl },
                n,
                children,
            );
        }
        lemma_spread_finite(rules, expanded(rules, cl, i), i + 1, (steps - 1) as nat);
    }
}

proof fn lemma_values<V>(m: Map<Seq<char>, V>, v: V)
    requires
        m.dom().finite(),
    ensures
        values_in_order(m).len() == m.dom().len(),
        values_in_order(m).contains(v) <==> exists|g: Seq<char>| #[trigger] m.contains_key(g) && m[g] == v,
{
    let ks = ascending_of(m.dom());
    finite_sets_are_listed(m.dom());
    crate::sorted::ascending_has_no_duplicates(ks);
    ks.unique_seq_to_set();
    if values_in_order(m).contains(v) {
        let i = choose|i: int| 0 <= i < values_in_order(m).len() && values_in_order(m)[i] == v;
        assert(ks.to_set().contains(ks[i]));
        assert(m.contains_key(ks[i]));
    }
    if exists|g: Seq<char>| #[trigger] m.contains_key(g) && m[g] == v {
        let g = choose|g: Seq<char>| #[trigger] m.contains_key(g) && m[g] == v;
        assert(ks.to_set().contains(g));
        let i = choose|i: int| 0 <= i < ks.len() && ks[i] == g;
        assert(values_in_order(m)[i] == v);
    }
}

/// The output tells every guid that is unresolved and every script that was left out, and no other.
pub proof fn output_tells_what_is_not_there(rules: Rules, roots: Seq<AssetView>, u: UnresolvedView, a: AssetView)
    ensures
        ({
            let cl = closure_of(rules, roots);
            let out = closure_out(rules.db, cl);
            &&& out.unresolved.len() == cl.unresolved.dom().len()
            &&& out.unresolved.contains(u) <==> exists|g: Seq<char>| #[trigger]
                cl.unresolved.contains_key(g) && cl.unresolved[g] == u
            &&& out.skipped_scripts.len() == cl.skipped_scripts.dom().len()
            &&& out.skipped_scripts.contains(a) <==> exists|g: Seq<char>| #[trigger]
                cl.skipped_scripts.contains_key(g) && cl.skipped_scripts[g] == a
        }),
{
    crate::deps::lemma_planted_bare(roots);
    lemma_spread_finite(rules, planted(roots), 0, node_bound(rules, roots));
    let cl = closure_of(rules, roots);
    lemma_values(cl.unresolved, u);
    lemma_values(cl.skipped_scripts, a);
}

// ----- the closure ---------------------------------------------------------------------------

/// Whether the output lists an asset with a guid.
pub open spec fn lists(assets: Seq<ClosureAssetView>, guid: Seq<char>) -> bool {
    exists|t: int| 0 <= t < assets.len() && (#[trigger] assets[t]).asset.guid == guid
}

proof fn lemma_node_is_listed(db: DbView, cl: ClosureView, guid: Seq<char>)
    ensures
        lists(closure_out(db, cl).assets, guid) <==> is_node(cl.nodes, guid),
{
    output_lists_every_node(db, cl);
    let out = closure_out(db, cl).assets;
    if is_node(cl.nodes, guid) {
        let i = choose|i: int| 0 <= i < cl.nodes.len() && (#[trigger] cl.nodes[i]).asset.guid == guid;
        let x = ClosureAssetView {
            asset: cl.nodes[i].asset,
            depth: cl.nodes[i].depth,
            via: cl.nodes[i].via,
            also_in_packages: cl.nodes[i].ambiguous_in,
        };
        assert(out.contains(x));
        let t = choose|t: int| 0 <= t < out.len() && out[t] == x;
        assert(out[t].asset.guid == guid);
    }
    if lists(out, guid) {
        let t = choose|t: int| 0 <= t < out.len() && (#[trigger] out[t]).asset.guid == guid;
        let i = choose|i: int|
            0 <= i < cl.nodes.len() && (#[trigger] cl.nodes[i]).asset == out[t].asset && cl.nodes[i].depth
                == out[t].depth && cl.nodes[i].via == out[t].via;
        assert(cl.nodes[i].asset.guid == guid);
    }
}

proof fn lemma_row_refs(db: DbView, k: int, g: Seq<char>)
    requires
        assets_in_order(db.assets),
        0 <= k < db.assets.len(),
        db.assets[k].refs.finite(),
    ensures
        refs_from(db, db.assets[k].id).contains(g) <==> db.assets[k].refs.contains(g),
{
    let row = db.assets[k];
    crate::seqs::lemma_first_index(db.assets, |a: AssetRowView| a.id == row.id, k);
    assert(asset_row(db, row.id) == Some(row));
    finite_sets_are_listed(row.refs);
    assert(ascending_of(row.refs).to_set().contains(g) <==> row.refs.contains(g));
    assert(ascending_of(row.refs).to_set().contains(g) <==> ascending_of(row.refs).contains(g));
}

proof fn lemma_held(db: DbView, guid: Seq<char>, m: int)
    requires
        0 <= m < db.assets.len(),
        db.assets[m].guid == lower(guid),
    ensures
        assets_with_guid(db, guid).contains(asset_of(db, db.assets[m])),
        assets_with_guid(db, guid).len() > 0,
{
    let p = |a: AssetRowView| a.guid == lower(guid);
    let f = |a: AssetRowView| asset_of(db, a);
    let row = db.assets[m];
    crate::seqs::lemma_filter_has(db.assets, p, row);
    assert(db.assets.contains(row));
    let kept = db.assets.filter(p);
    let i = choose|i: int| 0 <= i < kept.len() && kept[i] == row;
    let hits = crate::db::select_where(db, p);
    assert(hits[i] == f(row));
    crate::db::orders_are_orders();
    arranging_keeps(hits, crate::db::by_package(), asset_of(db, row));
}

/// The roots are listed.
pub proof fn roots_are_listed(rules: Rules, roots: Seq<AssetView>, i: int)
    requires
        0 <= i < roots.len(),
    ensures
        lists(closure_out(rules.db, closure_of(rules, roots)).assets, roots[i].guid),
{
    let cl = closure_of(rules, roots);
    closure_begins_with_roots(rules, roots);
    let h = choose|h: int| 0 <= h < cl.roots.len() && cl.roots[h] == roots[i].guid;
    assert(cl.nodes[h].asset.guid == roots[i].guid);
    lemma_node_is_listed(rules.db, cl, roots[i].guid);
}

proof fn lemma_node_of(db: DbView, cl: ClosureView, j: int) -> (p: int)
    requires
        0 <= j < closure_out(db, cl).assets.len(),
    ensures
        0 <= p < cl.nodes.len(),
        cl.nodes[p].asset == closure_out(db, cl).assets[j].asset,
{
    output_lists_every_node(db, cl);
    let out = closure_out(db, cl).assets;
    choose|p: int|
        0 <= p < cl.nodes.len() && (#[trigger] cl.nodes[p]).asset == out[j].asset && cl.nodes[p].depth == out[j].depth
            && cl.nodes[p].via == out[j].via
}

proof fn lemma_reference_is_node(rules: Rules, roots: Seq<AssetView>, p: int, g: Seq<char>)
    requires
        rules.scripts,
        lower(g) == g,
        0 <= p < closure_of(rules, roots).nodes.len(),
        refers(rules, closure_of(rules, roots).nodes[p], g),
        assets_with_guid(rules.db, g).len() > 0,
    ensures
        is_node(closure_of(rules, roots).nodes, g),
{
    closure_is_complete(rules, roots, p, g);
    scripts_are_left_out(rules, roots);
    if closure_of(rules, roots).unresolved.contains_key(g) {
        unresolved_guids_are_nowhere(rules, roots, g);
    }
}

/// Whatever a listed asset refers to is listed too, if some package holds it: with the roots, the list
/// is closed under references, over any number of steps and across packages.
pub proof fn dependencies_of_dependencies_are_listed(
    rules: Rules,
    roots: Seq<AssetView>,
    j: int,
    k: int,
    m: int,
)
    requires
        rules.max_depth is None,
        rules.scripts,
        assets_in_order(rules.db.assets),
        0 <= j < closure_out(rules.db, closure_of(rules, roots)).assets.len(),
        0 <= k < rules.db.assets.len(),
        rules.db.assets[k].id == closure_out(rules.db, closure_of(rules, roots)).assets[j].asset.id,
        rules.db.assets[k].refs.finite(),
        0 <= m < rules.db.assets.len(),
        rules.db.assets[k].refs.contains(rules.db.assets[m].guid),
        lower(rules.db.assets[m].guid) == rules.db.assets[m].guid,
    ensures
        lists(closure_out(rules.db, closure_of(rules, roots)).assets, rules.db.assets[m].guid),
{
    let cl = closure_of(rules, roots);
    let g = rules.db.assets[m].guid;
    let p = lemma_node_of(rules.db, cl, j);
    lemma_row_refs(rules.db, k, g);
    lemma_held(rules.db, g, m);
    lemma_reference_is_node(rules, roots, p, g);
    lemma_node_is_listed(rules.db, cl, g);
}

/// Where several packages hold a guid, a closure takes the copy in the package of the asset that refers
/// to it; else one from a package that it takes from already; else that of the package with the lowest
/// id. It notes the packages of the others.
pub proof fn copies_are_well_chosen(rules: Rules, roots: Seq<AssetView>, a: int) -> (r: (int, Seq<char>))
    requires
        closure_of(rules, roots).roots.len() <= a < closure_of(rules, roots).nodes.len(),
    ensures
        0 <= r.0 < a,
        closure_of(rules, roots).nodes[a].via == Some(closure_of(rules, roots).nodes[r.0].asset.guid),
        refers(rules, closure_of(rules, roots).nodes[r.0], r.1),
        forall|m: int|
            0 <= m < rules.db.assets.len() && (#[trigger] rules.db.assets[m]).guid == lower(r.1) ==> {
                let pid = rules.db.assets[m].package_id;
                let nodes = closure_of(rules, roots).nodes;
                let got = nodes[a].asset.package_id;
                &&& pid == nodes[r.0].asset.package_id ==> got == pid
                &&& pid < got ==> exists|b: int| 0 <= b < a && (#[trigger] nodes[b]).asset.package_id == got
                &&& (exists|b: int| 0 <= b < a && (#[trigger] nodes[b]).asset.package_id == pid) ==> exists|b: int|
                    0 <= b < a && (#[trigger] nodes[b]).asset.package_id == got
                &&& pid != got ==> nodes[a].ambiguous_in.contains(pid)
            },
{
    let nodes = closure_of(rules, roots).nodes;
    let r = closure_is_needed(rules, roots, a);
    let cands = assets_with_guid(rules.db, r.1);
    assert(well_chosen(cands, nodes, r.0, a));
    let got = nodes[a].asset.package_id;
    assert forall|m: int|
        0 <= m < rules.db.assets.len() && (#[trigger] rules.db.assets[m]).guid == lower(r.1) implies {
        let pid = rules.db.assets[m].package_id;
        &&& pid == nodes[r.0].asset.package_id ==> got == pid
        &&& pid < got ==> exists|b: int| 0 <= b < a && (#[trigger] nodes[b]).asset.package_id == got
        &&& (exists|b: int| 0 <= b < a && (#[trigger] nodes[b]).asset.package_id == pid) ==> exists|b: int|
            0 <= b < a && (#[trigger] nodes[b]).asset.package_id == got
        &&& pid != got ==> nodes[a].ambiguous_in.contains(pid)
    } by {
        let pid = rules.db.assets[m].package_id;
        lemma_held(rules.db, r.1, m);
        let i = choose|i: int| 0 <= i < cands.len() && cands[i] == asset_of(rules.db, rules.db.assets[m]);
        assert(cands[i].package_id == pid);
        assert(crate::deps::in_that_package(cands, pid));
        if exists|b: int| 0 <= b < a && (#[trigger] nodes[b]).asset.package_id == pid {
            let b = choose|b: int| 0 <= b < a && (#[trigger] nodes[b]).asset.package_id == pid;
            assert(crate::deps::in_that_package(cands, nodes[b].asset.package_id));
            assert(crate::deps::at_home(cands, nodes, a));
        }
    }
    r
}

// ----- who misses what -----------------------------------------------------------------------

/// Whether a reference of the asset with guid `r` was dealt with, and told where it is unresolved.
spec fn heard(cl: ClosureView, r: Seq<char>, g: Seq<char>) -> bool {
    &&& settled(cl, g)
    &&& cl.unresolved.contains_key(g) ==> cl.unresolved[g].referrers.contains(r)
}

proof fn lemma_still_heard(rules: Rules, cl: ClosureView, from: NodeView, h: Seq<char>, r: Seq<char>, g: Seq<char>)
    requires
        heard(cl, r, g),
        lower(g) == g,
    ensures
        heard(visited(rules, cl, from, h), r, g),
{
    let after = visited(rules, cl, from, h);
    if is_node(cl.nodes, g) {
        let i = choose|i: int| 0 <= i < cl.nodes.len() && (#[trigger] cl.nodes[i]).asset.guid == g;
        assert(after.nodes[i].asset.guid == g);
    }
    if cl.unresolved.contains_key(g) {
        let old_ones = cl.unresolved[g].referrers;
        let k = choose|k: int| 0 <= k < old_ones.len() && old_ones[k] == r;
        assert(after.unresolved[g].referrers[k] == r);
    }
}

proof fn lemma_now_heard(rules: Rules, cl: ClosureView, from: NodeView, g: Seq<char>)
    requires
        lower(g) == g,
    ensures
        heard(visited(rules, cl, from, g), from.asset.guid, g) || (is_node(cl.nodes, g) && cl.unresolved.contains_key(g))
            || (cl.skipped_scripts.contains_key(g) && cl.unresolved.contains_key(g)),
{
    let after = visited(rules, cl, from, g);
    crate::deps::lemma_visited_settles(rules, cl, from, g);
    if after.unresolved.contains_key(g) && !is_node(cl.nodes, g) && !cl.skipped_scripts.contains_key(g) {
        let rs = after.unresolved[g].referrers;
        assert(rs[rs.len() - 1] == from.asset.guid);
    }
}

proof fn lemma_all_heard(rules: Rules, cl: ClosureView, from: NodeView, gs: Seq<Seq<char>>, r: Seq<char>, g: Seq<char>)
    requires
        crate::deps::apart(rules, cl),
        forall|h: Seq<char>| #[trigger] gs.contains(h) ==> lower(h) == h,
        lower(g) == g,
        heard(cl, r, g) || (r == from.asset.guid && gs.contains(g)),
    ensures
        heard(visited_all(rules, cl, from, gs), r, g),
    decreases gs.len(),
{
    if gs.len() > 0 {
        let rest = gs.drop_last();
        let mid = visited_all(rules, cl, from, rest);
        assert forall|h: Seq<char>| #[trigger] rest.contains(h) implies lower(h) == h by {
            let k = choose|k: int| 0 <= k < rest.len() && rest[k] == h;
            assert(gs[k] == h);
            assert(gs.contains(h));
        }
        crate::deps::lemma_all_apart(rules, cl, from, rest);
        assert(gs[gs.len() - 1] == gs.last());
        assert(gs.contains(gs.last()));
        if heard(cl, r, g) || rest.contains(g) {
            lemma_all_heard(rules, cl, from, rest, r, g);
            lemma_still_heard(rules, mid, from, gs.last(), r, g);
        } else {
            let k = choose|k: int| 0 <= k < gs.len() && gs[k] == g;
            if k < rest.len() {
                assert(rest[k] == g);
            }
            lemma_now_heard(rules, mid, from, g);
        }
    }
}

proof fn lemma_visits_extend(rules: Rules, cl: ClosureView, from: NodeView, gs: Seq<Seq<char>>)
    ensures
        visited_all(rules, cl, from, gs).nodes.len() >= cl.nodes.len(),
        forall|k: int| 0 <= k < cl.nodes.len() ==> #[trigger] visited_all(rules, cl, from, gs).nodes[k] == cl.nodes[k],
    decreases gs.len(),
{
    if gs.len() > 0 {
        lemma_visits_extend(rules, cl, from, gs.drop_last());
    }
}

proof fn lemma_spread_heard(rules: Rules, cl: ClosureView, i: int, steps: nat)
    requires
        refs_in_lower_case(rules.db),
        crate::deps::apart(rules, cl),
        0 <= i,
        forall|p: int, g: Seq<char>|
            0 <= p < i && p < cl.nodes.len() && #[trigger] refers(rules, cl.nodes[p], g) ==> heard(
                cl,
                cl.nodes[p].asset.guid,
                g,
            ),
    ensures
        ({
            let end = spread(rules, cl, i, steps);
            &&& end.nodes.len() >= cl.nodes.len()
            &&& forall|p: int, g: Seq<char>|
                0 <= p < i + steps && p < end.nodes.len() && #[trigger] refers(rules, end.nodes[p], g) ==> heard(
                    end,
                    end.nodes[p].asset.guid,
                    g,
                )
        }),
    decreases steps,
{
    if steps > 0 && i < cl.nodes.len() {
        let n = cl.nodes[i];
        let next = expanded(rules, cl, i);
        let children = refs_from(rules.db, n.asset.id);
        let start = ClosureView { edges: cl.edges.insert(n.asset.guid, children), ..cl };
        assert(crate::deps::apart(rules, start));
        if followed(rules, n) {
            crate::deps::lemma_all_apart(rules, start, n, children);
            lemma_visits_extend(rules, start, n, children);
        }
        assert forall|p: int, g: Seq<char>|
            0 <= p < i + 1 && p < next.nodes.len() && #[trigger] refers(rules, next.nodes[p], g) implies heard(
            next,
            next.nodes[p].asset.guid,
            g,
        ) by {
            assert(next.nodes[p] == cl.nodes[p]);
            assert(refers(rules, cl.nodes[p], g));
            assert(lower(g) == g);
            if followed(rules, n) {
                if p < i {
                    assert(heard(cl, cl.nodes[p].asset.guid, g));
                    assert(heard(start, cl.nodes[p].asset.guid, g));
                }
                lemma_all_heard(rules, start, n, children, cl.nodes[p].asset.guid, g);
            }
        }
        lemma_spread_heard(rules, next, i + 1, (steps - 1) as nat);
    }
}

/// Every asset of a closure that refers to an unresolved guid is among those that are told to miss it.
pub proof fn every_referrer_is_told(rules: Rules, roots: Seq<AssetView>, p: int, g: Seq<char>)
    requires
        refs_in_lower_case(rules.db),
        0 <= p < closure_of(rules, roots).nodes.len(),
        refers(rules, closure_of(rules, roots).nodes[p], g),
        closure_of(rules, roots).unresolved.contains_key(g),
    ensures
        closure_of(rules, roots).unresolved[g].referrers.contains(closure_of(rules, roots).nodes[p].asset.guid),
{
    crate::deps::lemma_planted_bare(roots);
    lemma_spread_heard(rules, planted(roots), 0, node_bound(rules, roots));
    crate::deps::lemma_closure_bound(rules, roots);
    let cl = closure_of(rules, roots);
    assert(heard(cl, cl.nodes[p].asset.guid, g));
}

/// A guid that no package holds is labelled where it is known: what is built into Unity, all zeros but for
/// the digit in the middle, as such, and any other by the table, whatever its case.
pub proof fn unknown_guids_are_labelled(known: Map<Seq<char>, Seq<char>>, g: Seq<char>)
    ensures
        ({
            let builtin = g.len() == 32 && crate::text::is_hex(g[16]) && forall|i: int|
                0 <= i < 32 && i != 16 ==> #[trigger] g[i] == '0';
            &&& builtin ==> crate::deps::guid_label(known, g) == Some("Unity built-in resource"@)
            &&& !builtin && known.contains_key(lower(g)) ==> crate::deps::guid_label(known, g) == Some(known[lower(g)])
            &&& !builtin && !known.contains_key(lower(g)) ==> crate::deps::guid_label(known, g) is None
        }),
{
}

} // verus!
