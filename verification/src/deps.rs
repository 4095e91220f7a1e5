//! Transitive dependency resolution across the whole library (guid graph).

use vstd::prelude::*;

use crate::db::{
    assets_with_guid, package_with_id, refs_from, size_sum, Database, DbView,
};
use crate::groups::{distinct, distinct_ids, group, grouped, keyed_by};
use crate::model::{
    clone_texts, Asset, AssetView, ClosureAsset, ClosureAssetView, ClosureOut, ClosureOutView, PackageRef,
    PackageRefView, Unresolved, UnresolvedView,
};
use crate::pattern::{at_most_is_total, at_most_is_transitive, text_at_most};
use crate::seqs::{find, first_index, lemma_filter_none, lemma_filter_step, lemma_first_index, map_all};
use crate::sorted::{arranged, ascending_of, at_most, orders, sort_by, TextMap, TextSet};
use crate::text::{is_listed, listed, lower, lower_char, same_text, to_lower};
use crate::unitypackage::{builtin_guid, is_builtin_guid};

verus! {

/// The kinds of assets that can be left out of a closure.
pub const SCRIPT_KINDS: [&'static str; 1] = ["script"];

/// Whether a kind is one of scripts.
pub open spec fn script_kind(kind: Seq<char>) -> bool {
    listed(kind, SCRIPT_KINDS@)
}

// ----- labels --------------------------------------------------------------------------------

/// The Lit shader of Unity's universal render pipeline.
pub const URP_LIT: &'static str = "933532a4fcc9baf4fa0491de14d08ed7";

pub const URP_LIT_LABEL: &'static str = "URP Lit shader (com.unity.render-pipelines.universal)";

/// Labels for well-known guids that live outside asset-store packages, by guid in lower case.
#[derive(Debug)]
pub struct KnownGuids {
    labels: TextMap<String>,
}

impl View for KnownGuids {
    type V = Map<Seq<char>, Seq<char>>;

    closed spec fn view(&self) -> Map<Seq<char>, Seq<char>> {
        self.labels.deep_view()
    }
}

/// A table of labels, its guids in lower case.
pub open spec fn label_table(pairs: Seq<(Seq<char>, Seq<char>)>) -> Map<Seq<char>, Seq<char>>
    decreases pairs.len(),
{
    if pairs.len() == 0 {
        Map::empty()
    } else {
        label_table(pairs.drop_last()).insert(lower(pairs.last().0), pairs.last().1)
    }
}

/// The label of a guid that no package holds.
pub open spec fn guid_label(known: Map<Seq<char>, Seq<char>>, guid: Seq<char>) -> Option<Seq<char>> {
    if builtin_guid(guid) {
        Some("Unity built-in resource"@)
    } else if known.contains_key(lower(guid)) {
        Some(known[lower(guid)])
    } else {
        None
    }
}

impl KnownGuids {
    pub fn new(pairs: &Vec<(String, String)>) -> (r: Self)
        ensures
            r@ == label_table(pairs.deep_view()),
    {
        let mut labels: TextMap<String> = TextMap::new();
        let mut i: usize = 0;
        let ghost ps = pairs.deep_view();
        assert(ps.take(0) =~= Seq::<(Seq<char>, Seq<char>)>::empty());
        assert(labels.deep_view() =~= Map::<Seq<char>, Seq<char>>::empty());
        while i < pairs.len()
            invariant
                i <= pairs@.len(),
                ps == pairs.deep_view(),
                labels.deep_view() == label_table(ps.take(i as int)),
            decreases pairs@.len() - i,
        {
            let ghost d0 = labels.deep_view();
            labels.insert(to_lower(pairs[i].0.as_str()), pairs[i].1.clone());
            proof {
                assert(ps.take(i + 1).drop_last() =~= ps.take(i as int));
                assert(ps.take(i + 1).last() == ps[i as int]);
                assert(labels.deep_view() =~= d0.insert(lower(ps[i as int].0), ps[i as int].1));
            }
            i += 1;
        }
        assert(ps.take(ps.len() as int) =~= ps);
        KnownGuids { labels }
    }

    /// The labels of guids that are met often.
    pub fn common() -> (r: Self)
        ensures
            r@ == label_table(seq![(URP_LIT@, URP_LIT_LABEL@)]),
    {
        let mut pairs: Vec<(String, String)> = Vec::new();
        pairs.push((URP_LIT.to_string(), URP_LIT_LABEL.to_string()));
        assert(pairs.deep_view() =~= seq![(URP_LIT@, URP_LIT_LABEL@)]);
        KnownGuids::new(&pairs)
    }
}

/// Labels do not depend on the case of letters, and every built-in resource has the same one.
pub proof fn labels_ignore_case(known: Map<Seq<char>, Seq<char>>, a: Seq<char>, b: Seq<char>)
    requires
        lower(a) == lower(b),
    ensures
        guid_label(known, a) == guid_label(known, b),
        builtin_guid(a) ==> guid_label(known, a) == Some("Unity built-in resource"@),
{
    if builtin_guid(a) {
        lemma_builtin_ignores_case(a, b);
    }
    if builtin_guid(b) {
        lemma_builtin_ignores_case(b, a);
    }
}

proof fn lemma_builtin_ignores_case(a: Seq<char>, b: Seq<char>)
    requires
        lower(a) == lower(b),
        builtin_guid(a),
    ensures
        builtin_guid(b),
{
    assert(lower(a).len() == a.len() && lower(b).len() == b.len());
    assert forall|i: int| 0 <= i < 32 implies lower_char(a[i]) == lower_char(#[trigger] b[i]) by {
        assert(lower(a)[i] == lower_char(a[i]));
        assert(lower(b)[i] == lower_char(b[i]));
    }
    assert forall|i: int| 0 <= i < 32 && i != 16 implies #[trigger] b[i] == '0' by {
        assert(a[i] == '0');
    }
    assert(lower_char(a[16]) == lower_char(b[16]));
}

/// Labels for well-known guids that live outside asset-store packages (Unity built-ins, UPM
/// packages).
pub fn known_guid_label(known: &KnownGuids, guid: &str) -> (r: Option<String>)
    ensures
        r.deep_view() == guid_label(known@, guid@),
{
    if is_builtin_guid(guid) {
        return Some("Unity built-in resource".to_string());
    }
    let g = to_lower(guid);
    match known.labels.get(g.as_str()) {
        Some(l) => Some(l.clone()),
        None => None,
    }
}

// ----- the closure ---------------------------------------------------------------------------

/// An asset of a closure, and how it was reached.
#[derive(Debug)]
pub struct Node {
    pub asset: Asset,
    /// How many references away from a root it is.
    pub depth: u32,
    /// The guid of the referrer that first pulled this in.
    pub via: Option<String>,
    /// Other packages that also contain this guid.
    pub ambiguous_in: Vec<i64>,
}

/// What a [`Node`] holds.
#[verifier::ext_equal]
pub struct NodeView {
    pub asset: AssetView,
    pub depth: u32,
    pub via: Option<Seq<char>>,
    pub ambiguous_in: Seq<i64>,
}

impl View for Node {
    type V = NodeView;

    open spec fn view(&self) -> NodeView {
        NodeView {
            asset: self.asset.deep_view(),
            depth: self.depth,
            via: self.via.deep_view(),
            ambiguous_in: self.ambiguous_in.deep_view(),
        }
    }
}

impl DeepView for Node {
    type V = NodeView;

    open spec fn deep_view(&self) -> NodeView {
        self.view()
    }
}

impl Clone for Node {
    fn clone(&self) -> (r: Self)
        ensures
            r@ == self@,
    {
        let r = Node {
            asset: self.asset.clone(),
            depth: self.depth,
            via: self.via.clone(),
            ambiguous_in: self.ambiguous_in.clone(),
        };
        assert(r.via.deep_view() == self.via.deep_view());
        assert(r.ambiguous_in.deep_view() =~= self.ambiguous_in.deep_view());
        r
    }
}

/// The assets that some roots need, however indirectly.
#[derive(Debug)]
pub struct Closure {
    pub roots: Vec<String>,
    /// In discovery order (roots first).
    pub nodes: Vec<Node>,
    pub unresolved: TextMap<Unresolved>,
    pub skipped_scripts: TextMap<Asset>,
    /// guid -> child guids (resolved or not)
    pub edges: TextMap<Vec<String>>,
}

/// What a [`Closure`] holds.
#[verifier::ext_equal]
pub struct ClosureView {
    pub roots: Seq<Seq<char>>,
    pub nodes: Seq<NodeView>,
    pub unresolved: Map<Seq<char>, UnresolvedView>,
    pub skipped_scripts: Map<Seq<char>, AssetView>,
    pub edges: Map<Seq<char>, Seq<Seq<char>>>,
}

impl View for Closure {
    type V = ClosureView;

    open spec fn view(&self) -> ClosureView {
        ClosureView {
            roots: self.roots.deep_view(),
            nodes: self.nodes.deep_view(),
            unresolved: self.unresolved.deep_view(),
            skipped_scripts: self.skipped_scripts.deep_view(),
            edges: self.edges.deep_view(),
        }
    }
}

impl DeepView for Closure {
    type V = ClosureView;

    open spec fn deep_view(&self) -> ClosureView {
        self.view()
    }
}

impl Clone for Closure {
    fn clone(&self) -> (r: Self)
        ensures
            r@ == self@,
    {
        let r = Closure {
            roots: self.roots.clone(),
            nodes: self.nodes.clone(),
            unresolved: self.unresolved.clone(),
            skipped_scripts: self.skipped_scripts.clone(),
            edges: self.edges.clone(),
        };
        assert(r.roots.deep_view() =~= self.roots.deep_view());
        assert(r.nodes.deep_view() =~= self.nodes.deep_view());
        assert(r.unresolved.deep_view() =~= self.unresolved.deep_view());
        assert(r.skipped_scripts.deep_view() =~= self.skipped_scripts.deep_view());
        assert(r.edges.deep_view() =~= self.edges.deep_view());
        r
    }
}

impl Default for Closure {
    fn default() -> (r: Self)
        ensures
            r@ == (ClosureView {
                roots: Seq::empty(),
                nodes: Seq::empty(),
                unresolved: Map::empty(),
                skipped_scripts: Map::empty(),
                edges: Map::empty(),
            }),
    {
        let r = Closure {
            roots: Vec::new(),
            nodes: Vec::new(),
            unresolved: TextMap::new(),
            skipped_scripts: TextMap::new(),
            edges: TextMap::new(),
        };
        assert(r.roots.deep_view() =~= Seq::empty());
        assert(r.nodes.deep_view() =~= Seq::empty());
        assert(r.unresolved.deep_view() =~= Map::empty());
        assert(r.skipped_scripts.deep_view() =~= Map::empty());
        assert(r.edges.deep_view() =~= Map::empty());
        r
    }
}


/// Whether a guid is among the nodes.
pub open spec fn is_node(nodes: Seq<NodeView>, guid: Seq<char>) -> bool {
    exists|i: int| 0 <= i < nodes.len() && (#[trigger] nodes[i]).asset.guid == guid
}

/// The packages of the nodes, each once, in the order in which they came in.
pub open spec fn packages_of(nodes: Seq<NodeView>) -> Seq<i64>
    decreases nodes.len(),
{
    if nodes.len() == 0 {
        Seq::empty()
    } else {
        let front = packages_of(nodes.drop_last());
        if front.contains(nodes.last().asset.package_id) {
            front
        } else {
            front.push(nodes.last().asset.package_id)
        }
    }
}

/// Of several assets with one guid, the one in the first package that has one; else the first.
pub open spec fn preferred(cands: Seq<AssetView>, packages: Seq<i64>) -> AssetView
    decreases packages.len(),
{
    if packages.len() == 0 {
        cands[0]
    } else {
        match find(cands, |c: AssetView| c.package_id == packages[0]) {
            Some(c) => c,
            None => preferred(cands, packages.drop_first()),
        }
    }
}

/// What decides how a closure is resolved.
pub struct Rules {
    pub db: DbView,
    pub known: Map<Seq<char>, Seq<char>>,
    pub scripts: bool,
    pub max_depth: Option<u32>,
}

/// Which asset a reference of `from` means.
pub open spec fn meant(rules: Rules, nodes: Seq<NodeView>, from: AssetView, guid: Seq<char>) -> AssetView {
    preferred(assets_with_guid(rules.db, guid), seq![from.package_id] + packages_of(nodes))
}

/// The other packages that hold an asset of this guid.
pub open spec fn others(cands: Seq<AssetView>, chosen: AssetView) -> Seq<i64> {
    cands.filter(|c: AssetView| c.package_id != chosen.package_id).map_values(|c: AssetView| c.package_id)
}

/// The closure after one reference of a node was followed. A reference that differs from the guid of a
/// node in nothing but case is one to that node, so that every guid has one node.
pub open spec fn visited(rules: Rules, cl: ClosureView, from: NodeView, guid: Seq<char>) -> ClosureView {
    let cands = assets_with_guid(rules.db, guid);
    if is_node(cl.nodes, guid) || cl.skipped_scripts.contains_key(guid) {
        cl
    } else if cl.unresolved.contains_key(guid) {
        let u = cl.unresolved[guid];
        ClosureView {
            unresolved: cl.unresolved.insert(
                guid,
                UnresolvedView { referrers: u.referrers.push(from.asset.guid), ..u },
            ),
            ..cl
        }
    } else if cands.len() == 0 {
        ClosureView {
            unresolved: cl.unresolved.insert(
                guid,
                UnresolvedView {
                    guid,
                    label: guid_label(rules.known, guid),
                    referrers: seq![from.asset.guid],
                },
            ),
            ..cl
        }
    } else {
        let chosen = meant(rules, cl.nodes, from.asset, guid);
        if !rules.scripts && script_kind(chosen.kind) {
            ClosureView { skipped_scripts: cl.skipped_scripts.insert(guid, chosen), ..cl }
        } else if is_node(cl.nodes, chosen.guid) {
            cl
        } else {
            ClosureView {
                nodes: cl.nodes.push(
                    NodeView {
                        asset: chosen,
                        depth: from.depth.wrapping_add(1),
                        via: Some(from.asset.guid),
                        ambiguous_in: others(cands, chosen),
                    },
                ),
                ..cl
            }
        }
    }
}

/// The closure after several references of a node were followed.
pub open spec fn visited_all(rules: Rules, cl: ClosureView, from: NodeView, guids: Seq<Seq<char>>) -> ClosureView
    decreases guids.len(),
{
    if guids.len() == 0 {
        cl
    } else {
        visited(rules, visited_all(rules, cl, from, guids.drop_last()), from, guids.last())
    }
}

/// Whether the references of a node are followed.
pub open spec fn followed(rules: Rules, n: NodeView) -> bool {
    match rules.max_depth {
        Some(md) => n.depth < md,
        None => true,
    }
}

/// The closure after the references of one node were followed.
pub open spec fn expanded(rules: Rules, cl: ClosureView, i: int) -> ClosureView {
    let n = cl.nodes[i];
    if followed(rules, n) {
        let children = refs_from(rules.db, n.asset.id);
        visited_all(
            rules,
            ClosureView { edges: cl.edges.insert(n.asset.guid, children), ..cl },
            n,
            children,
        )
    } else {
        cl
    }
}

/// Follows the references of the nodes from `i` on, node after node.
pub open spec fn spread(rules: Rules, cl: ClosureView, i: int, steps: nat) -> ClosureView
    decreases steps,
{
    if steps == 0 || i >= cl.nodes.len() {
        cl
    } else {
        spread(rules, expanded(rules, cl, i), i + 1, (steps - 1) as nat)
    }
}

pub open spec fn root_node(a: AssetView) -> NodeView {
    NodeView { asset: a, depth: 0, via: None, ambiguous_in: Seq::empty() }
}

/// The closure that holds the roots, each guid once.
pub open spec fn planted(roots: Seq<AssetView>) -> ClosureView
    decreases roots.len(),
{
    if roots.len() == 0 {
        ClosureView {
            roots: Seq::empty(),
            nodes: Seq::empty(),
            unresolved: Map::empty(),
            skipped_scripts: Map::empty(),
            edges: Map::empty(),
        }
    } else {
        let cl = planted(roots.drop_last());
        let r = roots.last();
        if is_node(cl.nodes, r.guid) {
            cl
        } else {
            ClosureView { roots: cl.roots.push(r.guid), nodes: cl.nodes.push(root_node(r)), ..cl }
        }
    }
}

/// How many nodes there can be.
pub open spec fn node_bound(rules: Rules, roots: Seq<AssetView>) -> nat {
    roots.len() + rules.db.assets.len()
}

/// The closure of some roots: breadth first, along the references.
pub open spec fn closure_of(rules: Rules, roots: Seq<AssetView>) -> ClosureView {
    spread(rules, planted(roots), 0, node_bound(rules, roots))
}

// ----- how many nodes there can be -----------------------------------------------------------

pub open spec fn node_guids(nodes: Seq<NodeView>) -> Seq<Seq<char>> {
    nodes.map_values(|n: NodeView| n.asset.guid)
}

/// The guids that nodes can have: those of the roots and those of the index.
pub open spec fn guid_pool(rules: Rules, roots: Seq<AssetView>) -> Seq<Seq<char>> {
    roots.map_values(|a: AssetView| a.guid) + rules.db.assets.map_values(|a: crate::db::AssetRowView| a.guid)
}

/// No guid twice, and every guid from the pool.
pub open spec fn drawn(rules: Rules, roots: Seq<AssetView>, nodes: Seq<NodeView>) -> bool {
    &&& forall|i: int, j: int|
        0 <= i < j < nodes.len() ==> (#[trigger] nodes[i]).asset.guid != (#[trigger] nodes[j]).asset.guid
    &&& forall|i: int|
        0 <= i < nodes.len() ==> guid_pool(rules, roots).contains((#[trigger] nodes[i]).asset.guid)
}

proof fn lemma_drawn_bound(rules: Rules, roots: Seq<AssetView>, nodes: Seq<NodeView>)
    requires
        drawn(rules, roots, nodes),
    ensures
        nodes.len() <= node_bound(rules, roots),
{
    let gs = node_guids(nodes);
    let pool = guid_pool(rules, roots);
    assert(gs.no_duplicates()) by {
        assert forall|i: int, j: int| 0 <= i < gs.len() && 0 <= j < gs.len() && i != j implies gs[i] != gs[j] by {
            if i < j {
                assert(nodes[i].asset.guid != nodes[j].asset.guid);
            } else {
                assert(nodes[j].asset.guid != nodes[i].asset.guid);
            }
        }
    }
    gs.unique_seq_to_set();
    pool.lemma_cardinality_of_set();
    assert(gs.to_set().subset_of(pool.to_set())) by {
        assert forall|g: Seq<char>| gs.to_set().contains(g) implies pool.to_set().contains(g) by {
            let i = choose|i: int| 0 <= i < gs.len() && gs[i] == g;
            assert(pool.contains(nodes[i].asset.guid));
        }
    }
    vstd::set_lib::lemma_len_subset(gs.to_set(), pool.to_set());
}

/// Every asset found by guid is one of the index with that guid.
pub proof fn lemma_candidates(db: DbView, guid: Seq<char>, i: int)
    requires
        0 <= i < assets_with_guid(db, guid).len(),
    ensures
        assets_with_guid(db, guid)[i].guid == lower(guid),
        db.assets.map_values(|a: crate::db::AssetRowView| a.guid).contains(lower(guid)),
{
    let p = |a: crate::db::AssetRowView| a.guid == lower(guid);
    let f = |a: crate::db::AssetRowView| crate::db::asset_of(db, a);
    let hits = crate::db::select_where(db, p);
    crate::db::orders_are_orders();
    let c = assets_with_guid(db, guid)[i];
    crate::sorted::arranging_keeps(hits, crate::db::by_package(), c);
    assert(assets_with_guid(db, guid).contains(c));
    let k = choose|k: int| 0 <= k < hits.len() && hits[k] == c;
    let row = db.assets.filter(p)[k];
    assert(db.assets.filter(p).contains(row));
    crate::seqs::lemma_filter_has(db.assets, p, row);
    assert(hits[k] == f(row));
    let m = choose|m: int| 0 <= m < db.assets.len() && db.assets[m] == row;
    let gs = db.assets.map_values(|a: crate::db::AssetRowView| a.guid);
    assert(gs[m] == lower(guid));
}

/// The preferred candidate is a candidate.
pub proof fn lemma_preferred(cands: Seq<AssetView>, packages: Seq<i64>)
    requires
        cands.len() > 0,
    ensures
        cands.contains(preferred(cands, packages)),
    decreases packages.len(),
{
    if packages.len() == 0 {
        assert(cands[0] == preferred(cands, packages));
    } else {
        let p = |c: AssetView| c.package_id == packages[0];
        crate::seqs::lemma_first_index_bounds(cands, p);
        lemma_preferred(cands, packages.drop_first());
    }
}

proof fn lemma_meant(rules: Rules, nodes: Seq<NodeView>, from: AssetView, guid: Seq<char>)
    requires
        assets_with_guid(rules.db, guid).len() > 0,
    ensures
        assets_with_guid(rules.db, guid).contains(meant(rules, nodes, from, guid)),
        meant(rules, nodes, from, guid).guid == lower(guid),
        rules.db.assets.map_values(|a: crate::db::AssetRowView| a.guid).contains(lower(guid)),
{
    let cands = assets_with_guid(rules.db, guid);
    lemma_preferred(cands, seq![from.package_id] + packages_of(nodes));
    let i = choose|i: int| 0 <= i < cands.len() && cands[i] == meant(rules, nodes, from, guid);
    lemma_candidates(rules.db, guid, i);
}

proof fn lemma_has_grows(nodes: Seq<NodeView>, n: NodeView, g: Seq<char>)
    ensures
        is_node(nodes.push(n), g) <==> (is_node(nodes, g) || n.asset.guid == g),
{
    let t = nodes.push(n);
    if is_node(nodes, g) {
        let i = choose|i: int| 0 <= i < nodes.len() && (#[trigger] nodes[i]).asset.guid == g;
        assert(t[i].asset.guid == g);
    }
    if n.asset.guid == g {
        assert(t[nodes.len() as int].asset.guid == g);
    }
    if is_node(t, g) {
        let i = choose|i: int| 0 <= i < t.len() && (#[trigger] t[i]).asset.guid == g;
        if i < nodes.len() {
            assert(nodes[i].asset.guid == g);
        }
    }
}

proof fn lemma_visited_drawn(rules: Rules, roots: Seq<AssetView>, cl: ClosureView, from: NodeView, g: Seq<char>)
    requires
        drawn(rules, roots, cl.nodes),
    ensures
        drawn(rules, roots, visited(rules, cl, from, g).nodes),
        visited(rules, cl, from, g).nodes.len() >= cl.nodes.len(),
        visited(rules, cl, from, g).nodes.take(cl.nodes.len() as int) == cl.nodes,
{
    let after = visited(rules, cl, from, g);
    let cands = assets_with_guid(rules.db, g);
    assert(cl.nodes.take(cl.nodes.len() as int) =~= cl.nodes);
    if after.nodes.len() != cl.nodes.len() {
        lemma_meant(rules, cl.nodes, from.asset, g);
        let t = after.nodes;
        let chosen = meant(rules, cl.nodes, from.asset, g);
        assert(t.take(cl.nodes.len() as int) =~= cl.nodes);
        let a = roots.map_values(|a: AssetView| a.guid);
        let b = rules.db.assets.map_values(|a: crate::db::AssetRowView| a.guid);
        let k = choose|k: int| 0 <= k < b.len() && b[k] == chosen.guid;
        assert((a + b)[a.len() + k] == chosen.guid);
        assert forall|i: int, j: int| 0 <= i < j < t.len() implies (#[trigger] t[i]).asset.guid != (
        #[trigger] t[j]).asset.guid by {
            if j < cl.nodes.len() {
                assert(cl.nodes[i].asset.guid != cl.nodes[j].asset.guid);
            } else {
                assert(!is_node(cl.nodes, chosen.guid));
                assert(cl.nodes[i].asset.guid != chosen.guid);
            }
        }
    } else {
        assert(after.nodes =~= cl.nodes);
    }
}

proof fn lemma_all_drawn(rules: Rules, roots: Seq<AssetView>, cl: ClosureView, from: NodeView, gs: Seq<Seq<char>>)
    requires
        drawn(rules, roots, cl.nodes),
    ensures
        drawn(rules, roots, visited_all(rules, cl, from, gs).nodes),
        visited_all(rules, cl, from, gs).nodes.len() >= cl.nodes.len(),
        visited_all(rules, cl, from, gs).nodes.take(cl.nodes.len() as int) == cl.nodes,
    decreases gs.len(),
{
    if gs.len() == 0 {
        assert(cl.nodes.take(cl.nodes.len() as int) =~= cl.nodes);
    } else {
        lemma_all_drawn(rules, roots, cl, from, gs.drop_last());
        let mid = visited_all(rules, cl, from, gs.drop_last());
        lemma_visited_drawn(rules, roots, mid, from, gs.last());
        let end = visited(rules, mid, from, gs.last());
        assert(end.nodes.take(cl.nodes.len() as int) =~= end.nodes.take(mid.nodes.len() as int).take(
            cl.nodes.len() as int,
        ));
    }
}

proof fn lemma_expanded_drawn(rules: Rules, roots: Seq<AssetView>, cl: ClosureView, i: int)
    requires
        drawn(rules, roots, cl.nodes),
        0 <= i < cl.nodes.len(),
    ensures
        drawn(rules, roots, expanded(rules, cl, i).nodes),
        expanded(rules, cl, i).nodes.len() >= cl.nodes.len(),
        expanded(rules, cl, i).nodes.take(cl.nodes.len() as int) == cl.nodes,
{
    let n = cl.nodes[i];
    assert(cl.nodes.take(cl.nodes.len() as int) =~= cl.nodes);
    if followed(rules, n) {
        let children = refs_from(rules.db, n.asset.id);
        let start = ClosureView { edges: cl.edges.insert(n.asset.guid, children), ..cl };
        lemma_all_drawn(rules, roots, start, n, children);
    }
}

proof fn lemma_planted_drawn(rules: Rules, roots: Seq<AssetView>, n: int)
    requires
        0 <= n <= roots.len(),
    ensures
        drawn(rules, roots, planted(roots.take(n)).nodes),
        planted(roots.take(n)).nodes.len() <= n,
    decreases n,
{
    if n > 0 {
        lemma_planted_drawn(rules, roots, n - 1);
        let t = roots.take(n);
        assert(t.drop_last() =~= roots.take(n - 1));
        let cl = planted(roots.take(n - 1));
        let r = roots[n - 1];
        assert(t.last() == r);
        let after = planted(t).nodes;
        let a = roots.map_values(|a: AssetView| a.guid);
        let b = rules.db.assets.map_values(|a: crate::db::AssetRowView| a.guid);
        assert((a + b)[n - 1] == r.guid);
        if !is_node(cl.nodes, r.guid) {
            assert forall|i: int, j: int| 0 <= i < j < after.len() implies (#[trigger] after[i]).asset.guid != (
            #[trigger] after[j]).asset.guid by {
                if j < cl.nodes.len() {
                    assert(cl.nodes[i].asset.guid != cl.nodes[j].asset.guid);
                } else {
                    assert(cl.nodes[i].asset.guid != r.guid);
                }
            }
        }
    }
}

// ----- resolving -----------------------------------------------------------------------------

/// The guids of the nodes.
pub open spec fn guid_set(nodes: Seq<NodeView>) -> Set<Seq<char>> {
    Set::new(|g: Seq<char>| is_node(nodes, g))
}

fn find_in_package(cands: &Vec<Asset>, pid: i64) -> (r: Option<usize>)
    ensures
        match r {
            Some(i) => i < cands@.len() && find(cands.deep_view(), |c: AssetView| c.package_id == pid) == Some(
                cands@[i as int]@,
            ),
            None => find(cands.deep_view(), |c: AssetView| c.package_id == pid) is None,
        },
{
    let ghost s = cands.deep_view();
    let ghost p = |c: AssetView| c.package_id == pid;
    let mut i: usize = 0;
    while i < cands.len()
        invariant
            i <= cands@.len(),
            s == cands.deep_view(),
            p == (|c: AssetView| c.package_id == pid),
            forall|j: int| 0 <= j < i ==> !p(#[trigger] s[j]),
        decreases cands@.len() - i,
    {
        assert(s[i as int] == cands@[i as int]@);
        if cands[i].package_id == pid {
            proof {
                lemma_first_index(s, p, i as int);
            }
            return Some(i);
        }
        i += 1;
    }
    proof {
        lemma_first_index(s, p, s.len() as int);
    }
    None
}

/// Of several assets with one guid, the one in the first package that has one; else the first.
pub fn pick(cands: &Vec<Asset>, own: i64, packages: &Vec<i64>) -> (r: Asset)
    requires
        cands@.len() > 0,
    ensures
        r@ == preferred(cands.deep_view(), seq![own] + packages@),
{
    let ghost all = seq![own] + packages@;
    let ghost s = cands.deep_view();
    proof {
        assert(all.drop_first() =~= packages@);
        assert(all[0] == own);
        assert(packages@.skip(0) =~= packages@);
    }
    match find_in_package(cands, own) {
        Some(i) => {
            return cands[i].clone();
        },
        None => {},
    }
    let mut k: usize = 0;
    while k < packages.len()
        invariant
            k <= packages@.len(),
            s == cands.deep_view(),
            s.len() > 0,
            preferred(s, all) == preferred(s, packages@.skip(k as int)),
            all == seq![own] + packages@,
        decreases packages@.len() - k,
    {
        let ghost rest = packages@.skip(k as int);
        proof {
            assert(rest[0] == packages@[k as int]);
            assert(rest.drop_first() =~= packages@.skip(k + 1));
        }
        match find_in_package(cands, packages[k]) {
            Some(i) => {
                return cands[i].clone();
            },
            None => {},
        }
        k += 1;
    }
    assert(s[0] == cands@[0]@);
    cands[0].clone()
}

fn other_packages(cands: &Vec<Asset>, chosen: &Asset) -> (r: Vec<i64>)
    ensures
        r@ == others(cands.deep_view(), chosen@),
        r.deep_view() == r@,
{
    let ghost s = cands.deep_view();
    let ghost p = |c: AssetView| c.package_id != chosen@.package_id;
    let ghost f = |c: AssetView| c.package_id;
    let mut out: Vec<i64> = Vec::new();
    let mut i: usize = 0;
    proof {
        lemma_filter_none(s, p);
        assert(out@ =~= s.take(0).filter(p).map_values(f));
    }
    while i < cands.len()
        invariant
            i <= cands@.len(),
            s == cands.deep_view(),
            p == (|c: AssetView| c.package_id != chosen@.package_id),
            f == (|c: AssetView| c.package_id),
            out@ == s.take(i as int).filter(p).map_values(f),
        decreases cands@.len() - i,
    {
        proof {
            lemma_filter_step(s, p, i as int);
            assert(s[i as int] == cands@[i as int]@);
        }
        if cands[i].package_id != chosen.package_id {
            out.push(cands[i].package_id);
            assert(out@ =~= s.take(i + 1).filter(p).map_values(f));
        }
        i += 1;
    }
    assert(s.take(s.len() as int) =~= s);
    assert(out.deep_view() =~= out@);
    out
}

fn has_id(v: &Vec<i64>, x: i64) -> (r: bool)
    ensures
        r == v@.contains(x),
{
    let mut i: usize = 0;
    while i < v.len()
        invariant
            i <= v@.len(),
            forall|k: int| 0 <= k < i ==> v@[k] != x,
        decreases v@.len() - i,
    {
        if v[i] == x {
            return true;
        }
        i += 1;
    }
    false
}

/// Puts a node into the closure.
fn add_node(cl: &mut Closure, seen: &mut TextSet, packages: &mut Vec<i64>, node: Node)
    requires
        old(seen)@ == guid_set(old(cl)@.nodes),
        old(packages)@ == packages_of(old(cl)@.nodes),
    ensures
        final(cl)@ == (ClosureView { nodes: old(cl)@.nodes.push(node@), ..old(cl)@ }),
        final(seen)@ == guid_set(final(cl)@.nodes),
        final(packages)@ == packages_of(final(cl)@.nodes),
{
    let ghost ns = cl@.nodes;
    let ghost nv = node@;
    seen.insert(node.asset.guid.clone());
    let pid = node.asset.package_id;
    if !has_id(packages, pid) {
        packages.push(pid);
    }
    cl.nodes.push(node);
    proof {
        assert(cl.nodes.deep_view() =~= ns.push(nv));
        assert(ns.push(nv).drop_last() =~= ns);
        assert forall|g: Seq<char>| seen@.contains(g) <==> guid_set(ns.push(nv)).contains(g) by {
            lemma_has_grows(ns, nv, g);
        }
        assert(seen@ =~= guid_set(ns.push(nv)));
    }
}

/// Follows one reference of a node.
fn visit(
    db: &Database,
    known: &KnownGuids,
    include_scripts: bool,
    cl: &mut Closure,
    seen: &mut TextSet,
    packages: &mut Vec<i64>,
    from: &Node,
    guid: &String,
    Ghost(rules): Ghost<Rules>,
)
    requires
        rules.db == db@,
        rules.known == known@,
        rules.scripts == include_scripts,
        old(seen)@ == guid_set(old(cl)@.nodes),
        old(packages)@ == packages_of(old(cl)@.nodes),
    ensures
        final(cl)@ == visited(rules, old(cl)@, from@, guid@),
        final(seen)@ == guid_set(final(cl)@.nodes),
        final(packages)@ == packages_of(final(cl)@.nodes),
{
    let ghost cl0 = cl@;
    if seen.contains(guid.as_str()) || cl.skipped_scripts.contains_key(guid.as_str()) {
        return;
    }
    let again: Option<Unresolved> = match cl.unresolved.get(guid.as_str()) {
        Some(u) => Some(u.clone()),
        None => None,
    };
    match again {
        Some(u) => {
            let mut u = u;
            let ghost uv = u@;
            u.referrers.push(from.asset.guid.clone());
            let ghost u2 = u@;
            cl.unresolved.insert(guid.clone(), u);
            proof {
                assert(u2.referrers =~= uv.referrers.push(from@.asset.guid));
                assert(cl@.unresolved =~= cl0.unresolved.insert(guid@, u2));
            }
            return;
        },
        None => {},
    }
    let cands = db.assets_by_guid(guid.as_str());
    if cands.len() == 0 {
        let mut referrers: Vec<String> = Vec::new();
        referrers.push(from.asset.guid.clone());
        let u = Unresolved {
            guid: guid.clone(),
            label: known_guid_label(known, guid.as_str()),
            referrers,
        };
        let ghost uv = u@;
        cl.unresolved.insert(guid.clone(), u);
        proof {
            assert(uv.referrers =~= seq![from@.asset.guid]);
            assert(cl@.unresolved =~= cl0.unresolved.insert(guid@, uv));
        }
        return;
    }
    let chosen = pick(&cands, from.asset.package_id, packages);
    if !include_scripts && is_listed(chosen.kind.as_str(), SCRIPT_KINDS.as_slice()) {
        let ghost cv = chosen@;
        cl.skipped_scripts.insert(guid.clone(), chosen);
        assert(cl@.skipped_scripts =~= cl0.skipped_scripts.insert(guid@, cv));
        return;
    }
    if seen.contains(chosen.guid.as_str()) {
        return;
    }
    let ambiguous_in = other_packages(&cands, &chosen);
    let node = Node {
        asset: chosen,
        depth: from.depth.wrapping_add(1),
        via: Some(from.asset.guid.clone()),
        ambiguous_in,
    };
    add_node(cl, seen, packages, node);
}

/// Follows the references of one node.
fn expand(
    db: &Database,
    known: &KnownGuids,
    include_scripts: bool,
    max_depth: Option<u32>,
    cl: &mut Closure,
    seen: &mut TextSet,
    packages: &mut Vec<i64>,
    i: usize,
    Ghost(rules): Ghost<Rules>,
)
    requires
        rules.db == db@,
        rules.known == known@,
        rules.scripts == include_scripts,
        rules.max_depth == max_depth,
        i < old(cl)@.nodes.len(),
        old(seen)@ == guid_set(old(cl)@.nodes),
        old(packages)@ == packages_of(old(cl)@.nodes),
    ensures
        final(cl)@ == expanded(rules, old(cl)@, i as int),
        final(seen)@ == guid_set(final(cl)@.nodes),
        final(packages)@ == packages_of(final(cl)@.nodes),
{
    let ghost cl0 = cl@;
    let from = cl.nodes[i].clone();
    assert(cl0.nodes[i as int] == from@);
    match max_depth {
        Some(md) => {
            if from.depth >= md {
                return;
            }
        },
        None => {},
    }
    let children = db.refs_of(from.asset.id);
    let ghost ch = children.deep_view();
    cl.edges.insert(from.asset.guid.clone(), clone_texts(&children));
    let ghost start = ClosureView { edges: cl0.edges.insert(from@.asset.guid, ch), ..cl0 };
    proof {
        assert(cl@.edges =~= start.edges);
        assert(ch.take(0) =~= Seq::<Seq<char>>::empty());
    }
    let mut k: usize = 0;
    while k < children.len()
        invariant
            k <= children@.len(),
            ch == children.deep_view(),
            rules.db == db@,
            rules.known == known@,
            rules.scripts == include_scripts,
            cl@ == visited_all(rules, start, from@, ch.take(k as int)),
            seen@ == guid_set(cl@.nodes),
            packages@ == packages_of(cl@.nodes),
        decreases children@.len() - k,
    {
        proof {
            assert(ch.take(k + 1).drop_last() =~= ch.take(k as int));
            assert(ch.take(k + 1).last() == children@[k as int]@);
        }
        visit(db, known, include_scripts, cl, seen, packages, &from, &children[k], Ghost(rules));
        k += 1;
    }
    assert(ch.take(ch.len() as int) =~= ch);
}

/// Breadth-first search over guid references starting from root assets.
pub fn resolve_closure(
    db: &Database,
    known: &KnownGuids,
    roots: &Vec<Asset>,
    include_scripts: bool,
    max_depth: Option<u32>,
) -> (r: Closure)
    ensures
        r@ == closure_of(
            (Rules { db: db@, known: known@, scripts: include_scripts, max_depth }),
            roots.deep_view(),
        ),
{
    let ghost rules = Rules { db: db@, known: known@, scripts: include_scripts, max_depth };
    let ghost rs = roots.deep_view();
    let mut cl = Closure::default();
    let mut seen = TextSet::new();
    let mut packages: Vec<i64> = Vec::new();
    let mut k: usize = 0;
    proof {
        assert(rs.take(0) =~= Seq::<AssetView>::empty());
        assert(seen@ =~= guid_set(cl@.nodes));
    }
    while k < roots.len()
        invariant
            k <= roots@.len(),
            rs == roots.deep_view(),
            cl@ == planted(rs.take(k as int)),
            seen@ == guid_set(cl@.nodes),
            packages@ == packages_of(cl@.nodes),
        decreases roots@.len() - k,
    {
        proof {
            assert(rs.take(k + 1).drop_last() =~= rs.take(k as int));
            assert(rs.take(k + 1).last() == roots@[k as int]@);
        }
        if !seen.contains(roots[k].guid.as_str()) {
            let ghost cl0 = cl@;
            let none: Vec<i64> = Vec::new();
            let node = Node { asset: roots[k].clone(), depth: 0, via: None, ambiguous_in: none };
            assert(node@ =~= root_node(roots@[k as int]@)) by {
                assert(node.ambiguous_in.deep_view() =~= Seq::<i64>::empty());
            }
            add_node(&mut cl, &mut seen, &mut packages, node);
            let ghost cl1 = cl@;
            cl.roots.push(roots[k].guid.clone());
            proof {
                assert(cl.roots.deep_view() =~= cl0.roots.push(roots@[k as int]@.guid));
            }
        }
        k += 1;
    }
    assert(rs.take(rs.len() as int) =~= rs);
    proof {
        lemma_planted_drawn(rules, rs, rs.len() as int);
        lemma_drawn_bound(rules, rs, cl@.nodes);
    }
    let ghost bound = node_bound(rules, rs);
    let mut i: usize = 0;
    while i < cl.nodes.len()
        invariant
            rules == (Rules { db: db@, known: known@, scripts: include_scripts, max_depth }),
            rs == roots.deep_view(),
            bound == node_bound(rules, rs),
            i <= cl@.nodes.len() <= bound,
            cl@.nodes.len() == cl.nodes@.len(),
            drawn(rules, rs, cl@.nodes),
            seen@ == guid_set(cl@.nodes),
            packages@ == packages_of(cl@.nodes),
            spread(rules, cl@, i as int, (bound - i) as nat) == closure_of(rules, rs),
        decreases bound - i,
    {
        proof {
            lemma_expanded_drawn(rules, rs, cl@, i as int);
            lemma_drawn_bound(rules, rs, expanded(rules, cl@, i as int).nodes);
        }
        expand(
            db,
            known,
            include_scripts,
            max_depth,
            &mut cl,
            &mut seen,
            &mut packages,
            i,
            Ghost(rules),
        );
        i += 1;
    }
    cl
}

// ----- what holds of a closure ---------------------------------------------------------------

/// Whether a node refers to a guid, and its references were followed.
pub open spec fn refers(rules: Rules, n: NodeView, guid: Seq<char>) -> bool {
    followed(rules, n) && refs_from(rules.db, n.asset.id).contains(guid)
}

/// Whether some of the assets is in a package.
pub open spec fn in_that_package(cands: Seq<AssetView>, pid: i64) -> bool {
    exists|i: int| 0 <= i < cands.len() && (#[trigger] cands[i]).package_id == pid
}

/// Whether one of the first `n` nodes is in the package of one of the assets.
pub open spec fn at_home(cands: Seq<AssetView>, nodes: Seq<NodeView>, n: int) -> bool {
    exists|b: int| 0 <= b < n && in_that_package(cands, (#[trigger] nodes[b]).asset.package_id)
}

/// Whether the node at `a`, which the node at `p` refers to, is the right one of several copies: the
/// one in the package of the referrer; else one in a package that the closure takes from already;
/// else the one in the package with the lowest id. The packages of the other copies are noted.
pub open spec fn well_chosen(cands: Seq<AssetView>, nodes: Seq<NodeView>, p: int, a: int) -> bool {
    let own = nodes[p].asset.package_id;
    let got = nodes[a].asset.package_id;
    &&& in_that_package(cands, own) ==> got == own
    &&& at_home(cands, nodes, a) ==> exists|b: int| 0 <= b < a && (#[trigger] nodes[b]).asset.package_id == got
    &&& !at_home(cands, nodes, a) ==> forall|i: int| 0 <= i < cands.len() ==> got <= (#[trigger] cands[i]).package_id
    &&& forall|pid: i64| #[trigger]
        nodes[a].ambiguous_in.contains(pid) <==> pid != got && in_that_package(cands, pid)
}

/// Whether the node at `a` was reached over a reference of the node at `p`.
pub open spec fn reached_from(rules: Rules, nodes: Seq<NodeView>, p: int, a: int, guid: Seq<char>) -> bool {
    &&& 0 <= p < a
    &&& refers(rules, nodes[p], guid)
    &&& assets_with_guid(rules.db, guid).contains(nodes[a].asset)
    &&& nodes[a].via == Some(nodes[p].asset.guid)
    &&& nodes[a].depth == nodes[p].depth.wrapping_add(1)
    &&& well_chosen(assets_with_guid(rules.db, guid), nodes, p, a)
}

/// Whether the node at `a` was reached over a reference of an earlier node.
pub open spec fn reached(rules: Rules, nodes: Seq<NodeView>, a: int) -> bool {
    exists|p: int, guid: Seq<char>| #[trigger] reached_from(rules, nodes, p, a, guid)
}

/// Whether some node refers to a guid.
pub open spec fn referred_to(rules: Rules, nodes: Seq<NodeView>, guid: Seq<char>) -> bool {
    exists|p: int| 0 <= p < nodes.len() && refers(rules, #[trigger] nodes[p], guid)
}

/// Whether the node with a guid refers to another.
pub open spec fn referrer(rules: Rules, nodes: Seq<NodeView>, r: Seq<char>, guid: Seq<char>) -> bool {
    exists|p: int|
        0 <= p < nodes.len() && (#[trigger] nodes[p]).asset.guid == r && refers(rules, nodes[p], guid)
}

/// The nodes behind the first `k`, the roots, were reached over references.
pub open spec fn nodes_sound(rules: Rules, nodes: Seq<NodeView>, k: int) -> bool {
    &&& 0 <= k <= nodes.len()
    &&& forall|a: int| k <= a < nodes.len() ==> #[trigger] reached(rules, nodes, a)
    &&& forall|a: int| 0 <= a < k ==> (#[trigger] nodes[a]).via is None && nodes[a].depth == 0
    &&& !rules.scripts ==> forall|a: int|
        k <= a < nodes.len() ==> !script_kind((#[trigger] nodes[a]).asset.kind)
    &&& rules.max_depth matches Some(md) ==> forall|a: int|
        0 <= a < nodes.len() ==> (#[trigger] nodes[a]).depth <= md
}

/// What is known of an unresolved guid is true.
pub open spec fn unresolved_sound(rules: Rules, cl: ClosureView, guid: Seq<char>) -> bool {
    let u = cl.unresolved[guid];
    &&& assets_with_guid(rules.db, guid).len() == 0
    &&& u.guid == guid
    &&& u.label == guid_label(rules.known, guid)
    &&& u.referrers.len() > 0
    &&& forall|i: int| 0 <= i < u.referrers.len() ==> referrer(rules, cl.nodes, #[trigger] u.referrers[i], guid)
}

/// What is known of a skipped script is true.
pub open spec fn skipped_sound(rules: Rules, cl: ClosureView, guid: Seq<char>) -> bool {
    let s = cl.skipped_scripts[guid];
    &&& !rules.scripts
    &&& script_kind(s.kind)
    &&& assets_with_guid(rules.db, guid).contains(s)
    &&& referred_to(rules, cl.nodes, guid)
}

/// Everything in a closure is there for a reason.
pub open spec fn sound(rules: Rules, cl: ClosureView) -> bool {
    &&& nodes_sound(rules, cl.nodes, cl.roots.len() as int)
    &&& forall|g: Seq<char>| #[trigger] cl.unresolved.contains_key(g) ==> unresolved_sound(rules, cl, g)
    &&& forall|g: Seq<char>| #[trigger] cl.skipped_scripts.contains_key(g) ==> skipped_sound(rules, cl, g)
}

/// Whether a reference was dealt with: it is a node, a skipped script or unresolved.
pub open spec fn settled(cl: ClosureView, guid: Seq<char>) -> bool {
    ||| is_node(cl.nodes, guid)
    ||| is_node(cl.nodes, lower(guid))
    ||| cl.skipped_scripts.contains_key(guid)
    ||| cl.unresolved.contains_key(guid)
}

/// The references of the first `i` nodes were dealt with, and are put down.
pub open spec fn closed_up_to(rules: Rules, cl: ClosureView, i: int) -> bool {
    forall|p: int, g: Seq<char>|
        0 <= p < i && p < cl.nodes.len() && #[trigger] refers(rules, cl.nodes[p], g) ==> settled(cl, g)
            && cl.edges.contains_key(cl.nodes[p].asset.guid) && cl.edges[cl.nodes[p].asset.guid] == refs_from(
            rules.db,
            cl.nodes[p].asset.id,
        )
}

/// A closure that has only grown.
pub open spec fn grown(a: ClosureView, b: ClosureView) -> bool {
    &&& a.nodes.len() <= b.nodes.len()
    &&& b.nodes.take(a.nodes.len() as int) == a.nodes
    &&& a.roots == b.roots
    &&& forall|g: Seq<char>| #[trigger] a.unresolved.contains_key(g) ==> b.unresolved.contains_key(g)
    &&& forall|g: Seq<char>| #[trigger] a.skipped_scripts.contains_key(g) ==> b.skipped_scripts.contains_key(g)
}

proof fn lemma_grown_nodes(a: ClosureView, b: ClosureView, i: int)
    requires
        grown(a, b),
        0 <= i < a.nodes.len(),
    ensures
        b.nodes[i] == a.nodes[i],
{
    assert(b.nodes.take(a.nodes.len() as int)[i] == a.nodes[i]);
}

proof fn lemma_grown_is_node(a: ClosureView, b: ClosureView, g: Seq<char>)
    requires
        grown(a, b),
        is_node(a.nodes, g),
    ensures
        is_node(b.nodes, g),
{
    let i = choose|i: int| 0 <= i < a.nodes.len() && (#[trigger] a.nodes[i]).asset.guid == g;
    lemma_grown_nodes(a, b, i);
    assert(b.nodes[i].asset.guid == g);
}

proof fn lemma_grown_settled(a: ClosureView, b: ClosureView, g: Seq<char>)
    requires
        grown(a, b),
        settled(a, g),
    ensures
        settled(b, g),
{
    if is_node(a.nodes, g) {
        lemma_grown_is_node(a, b, g);
    }
    if is_node(a.nodes, lower(g)) {
        lemma_grown_is_node(a, b, lower(g));
    }
}

proof fn lemma_grown_trans(a: ClosureView, b: ClosureView, c: ClosureView)
    requires
        grown(a, b),
        grown(b, c),
    ensures
        grown(a, c),
{
    assert forall|i: int| 0 <= i < a.nodes.len() implies c.nodes.take(a.nodes.len() as int)[i] == a.nodes[i] by {
        lemma_grown_nodes(a, b, i);
        lemma_grown_nodes(b, c, i);
    }
    assert(c.nodes.take(a.nodes.len() as int) =~= a.nodes);
    assert forall|g: Seq<char>| #[trigger] a.unresolved.contains_key(g) implies c.unresolved.contains_key(g) by {
        assert(b.unresolved.contains_key(g));
    }
    assert forall|g: Seq<char>| #[trigger] a.skipped_scripts.contains_key(g) implies c.skipped_scripts.contains_key(
        g,
    ) by {
        assert(b.skipped_scripts.contains_key(g));
    }
}

proof fn lemma_grown_reached(rules: Rules, a: ClosureView, b: ClosureView, i: int)
    requires
        grown(a, b),
        0 <= i < a.nodes.len(),
        reached(rules, a.nodes, i),
    ensures
        reached(rules, b.nodes, i),
{
    let (p, g) = choose|p: int, g: Seq<char>| #[trigger] reached_from(rules, a.nodes, p, i, g);
    lemma_grown_nodes(a, b, p);
    lemma_grown_nodes(a, b, i);
    lemma_same_choice(assets_with_guid(rules.db, g), a, b, p, i);
    assert(reached_from(rules, b.nodes, p, i, g));
}

proof fn lemma_same_choice(cands: Seq<AssetView>, a: ClosureView, b: ClosureView, p: int, i: int)
    requires
        grown(a, b),
        0 <= p < i < a.nodes.len(),
        well_chosen(cands, a.nodes, p, i),
    ensures
        well_chosen(cands, b.nodes, p, i),
{
    assert forall|k: int| 0 <= k <= i implies #[trigger] b.nodes[k] == a.nodes[k] by {
        lemma_grown_nodes(a, b, k);
    }
    let own = a.nodes[p].asset.package_id;
    assert(b.nodes[p] == a.nodes[p] && b.nodes[i] == a.nodes[i]);
    if at_home(cands, b.nodes, i) {
        let k = choose|k: int| 0 <= k < i && in_that_package(cands, (#[trigger] b.nodes[k]).asset.package_id);
        assert(in_that_package(cands, a.nodes[k].asset.package_id));
        assert(at_home(cands, a.nodes, i));
        let h = choose|h: int| 0 <= h < i && (#[trigger] a.nodes[h]).asset.package_id == a.nodes[i].asset.package_id;
        assert(b.nodes[h].asset.package_id == b.nodes[i].asset.package_id);
    } else {
        if at_home(cands, a.nodes, i) {
            let k = choose|k: int| 0 <= k < i && in_that_package(cands, (#[trigger] a.nodes[k]).asset.package_id);
            assert(in_that_package(cands, b.nodes[k].asset.package_id));
        }
    }
}

proof fn lemma_packages_of(nodes: Seq<NodeView>, pid: i64)
    ensures
        packages_of(nodes).contains(pid) <==> exists|b: int|
            0 <= b < nodes.len() && (#[trigger] nodes[b]).asset.package_id == pid,
    decreases nodes.len(),
{
    if nodes.len() > 0 {
        let rest = nodes.drop_last();
        lemma_packages_of(rest, pid);
        let front = packages_of(rest);
        let all = packages_of(nodes);
        let last = nodes.last().asset.package_id;
        assert(nodes[nodes.len() - 1] == nodes.last());
        if front.contains(pid) {
            let k = choose|k: int| 0 <= k < front.len() && front[k] == pid;
            assert(all[k] == pid);
            let b = choose|b: int| 0 <= b < rest.len() && (#[trigger] rest[b]).asset.package_id == pid;
            assert(nodes[b].asset.package_id == pid);
        }
        if last == pid && !front.contains(pid) {
            assert(all[front.len() as int] == pid);
        }
        if exists|b: int| 0 <= b < nodes.len() && (#[trigger] nodes[b]).asset.package_id == pid {
            let b = choose|b: int| 0 <= b < nodes.len() && (#[trigger] nodes[b]).asset.package_id == pid;
            if b < rest.len() {
                assert(rest[b].asset.package_id == pid);
            }
        }
        if all.contains(pid) && !front.contains(pid) {
            let k = choose|k: int| 0 <= k < all.len() && all[k] == pid;
            if k < front.len() {
                assert(front[k] == pid);
            }
        }
    }
}

proof fn lemma_preferred_order(cands: Seq<AssetView>, packages: Seq<i64>)
    requires
        cands.len() > 0,
    ensures
        packages.len() > 0 && in_that_package(cands, packages[0]) ==> preferred(cands, packages).package_id
            == packages[0],
        (exists|j: int| 0 <= j < packages.len() && in_that_package(cands, #[trigger] packages[j]))
            ==> packages.contains(preferred(cands, packages).package_id),
        (forall|j: int| 0 <= j < packages.len() ==> !in_that_package(cands, #[trigger] packages[j])) ==> preferred(
            cands,
            packages,
        ) == cands[0],
    decreases packages.len(),
{
    if packages.len() > 0 {
        let p = |c: AssetView| c.package_id == packages[0];
        crate::seqs::lemma_first_index_bounds(cands, p);
        let rest = packages.drop_first();
        lemma_preferred_order(cands, rest);
        if in_that_package(cands, packages[0]) {
            let i = choose|i: int| 0 <= i < cands.len() && (#[trigger] cands[i]).package_id == packages[0];
            crate::seqs::lemma_find_some(cands, p, i);
        } else {
            let n = crate::seqs::first_index(cands, p);
            if n < cands.len() {
                assert(cands[n].package_id == packages[0]);
            }
            if exists|j: int| 0 <= j < packages.len() && in_that_package(cands, #[trigger] packages[j]) {
                let j = choose|j: int| 0 <= j < packages.len() && in_that_package(cands, #[trigger] packages[j]);
                assert(rest[j - 1] == packages[j]);
                let x = preferred(cands, rest).package_id;
                let h = choose|h: int| 0 <= h < rest.len() && rest[h] == x;
                assert(packages[h + 1] == x);
            } else {
                assert forall|j: int| 0 <= j < rest.len() implies !in_that_package(cands, #[trigger] rest[j]) by {
                    assert(rest[j] == packages[j + 1]);
                }
            }
        }
    }
}

proof fn lemma_others(cands: Seq<AssetView>, chosen: AssetView, pid: i64)
    ensures
        others(cands, chosen).contains(pid) <==> pid != chosen.package_id && in_that_package(cands, pid),
{
    let p = |c: AssetView| c.package_id != chosen.package_id;
    let f = |c: AssetView| c.package_id;
    let kept = cands.filter(p);
    if others(cands, chosen).contains(pid) {
        let k = choose|k: int| 0 <= k < others(cands, chosen).len() && others(cands, chosen)[k] == pid;
        assert(kept.contains(kept[k]));
        crate::seqs::lemma_filter_has(cands, p, kept[k]);
        let i = choose|i: int| 0 <= i < cands.len() && cands[i] == kept[k];
        assert(cands[i].package_id == pid);
    }
    if pid != chosen.package_id && in_that_package(cands, pid) {
        let i = choose|i: int| 0 <= i < cands.len() && (#[trigger] cands[i]).package_id == pid;
        crate::seqs::lemma_filter_has(cands, p, cands[i]);
        let k = choose|k: int| 0 <= k < kept.len() && kept[k] == cands[i];
        assert(others(cands, chosen)[k] == pid);
    }
}

/// The asset that a reference means is the right one of several copies.
proof fn lemma_well_chosen(rules: Rules, nodes: Seq<NodeView>, after: Seq<NodeView>, p: int, guid: Seq<char>)
    requires
        0 <= p < nodes.len(),
        assets_with_guid(rules.db, guid).len() > 0,
        after.len() == nodes.len() + 1,
        after.take(nodes.len() as int) == nodes,
        after.last().asset == meant(rules, nodes, nodes[p].asset, guid),
        after.last().ambiguous_in == others(assets_with_guid(rules.db, guid), after.last().asset),
    ensures
        well_chosen(assets_with_guid(rules.db, guid), after, p, nodes.len() as int),
{
    let cands = assets_with_guid(rules.db, guid);
    let own = nodes[p].asset.package_id;
    let packages = seq![own] + packages_of(nodes);
    let a = nodes.len() as int;
    let got = after[a].asset.package_id;
    lemma_preferred_order(cands, packages);
    assert(packages[0] == own);
    assert forall|k: int| 0 <= k < a implies #[trigger] after[k] == nodes[k] by {
        assert(after.take(a)[k] == after[k]);
    }
    assert forall|pid: i64| #[trigger] after[a].ambiguous_in.contains(pid) <==> pid != got && in_that_package(
        cands,
        pid,
    ) by {
        lemma_others(cands, after[a].asset, pid);
    }
    assert forall|pid: i64| #[trigger] packages.contains(pid) implies exists|b: int|
        0 <= b < a && (#[trigger] after[b]).asset.package_id == pid by {
        let k = choose|k: int| 0 <= k < packages.len() && packages[k] == pid;
        if k == 0 {
            assert(after[p].asset.package_id == pid);
        } else {
            assert(packages_of(nodes)[k - 1] == pid);
            lemma_packages_of(nodes, pid);
            let b = choose|b: int| 0 <= b < nodes.len() && (#[trigger] nodes[b]).asset.package_id == pid;
            assert(after[b].asset.package_id == pid);
        }
    }
    if at_home(cands, after, a) {
        let b = choose|b: int| 0 <= b < a && in_that_package(cands, (#[trigger] after[b]).asset.package_id);
        let pid = after[b].asset.package_id;
        assert(nodes[b].asset.package_id == pid);
        lemma_packages_of(nodes, pid);
        let k = choose|k: int| 0 <= k < packages_of(nodes).len() && packages_of(nodes)[k] == pid;
        assert(packages[k + 1] == pid);
    } else {
        assert forall|j: int| 0 <= j < packages.len() implies !in_that_package(cands, #[trigger] packages[j]) by {
            assert(packages.contains(packages[j]));
            let b = choose|b: int| 0 <= b < a && (#[trigger] after[b]).asset.package_id == packages[j];
            assert(!in_that_package(cands, after[b].asset.package_id));
        }
        crate::db::orders_are_orders();
        let hits = crate::db::select_where(rules.db, |x: crate::db::AssetRowView| x.guid == lower(guid));
        crate::sorted::arranging_sorts(hits, crate::db::by_package());
        assert forall|i: int| 0 <= i < cands.len() implies got <= (#[trigger] cands[i]).package_id by {
            if i > 0 {
                assert(crate::db::by_package()(cands[0], cands[i]));
            }
        }
    }
}

proof fn lemma_grown_referrer(rules: Rules, a: ClosureView, b: ClosureView, r: Seq<char>, g: Seq<char>)
    requires
        grown(a, b),
        referrer(rules, a.nodes, r, g),
    ensures
        referrer(rules, b.nodes, r, g),
{
    let p = choose|p: int|
        0 <= p < a.nodes.len() && (#[trigger] a.nodes[p]).asset.guid == r && refers(rules, a.nodes[p], g);
    lemma_grown_nodes(a, b, p);
    assert(b.nodes[p].asset.guid == r && refers(rules, b.nodes[p], g));
}

proof fn lemma_grown_referred(rules: Rules, a: ClosureView, b: ClosureView, g: Seq<char>)
    requires
        grown(a, b),
        referred_to(rules, a.nodes, g),
    ensures
        referred_to(rules, b.nodes, g),
{
    let p = choose|p: int| 0 <= p < a.nodes.len() && refers(rules, #[trigger] a.nodes[p], g);
    lemma_grown_nodes(a, b, p);
    assert(refers(rules, b.nodes[p], g));
}

proof fn lemma_visited_grows(rules: Rules, cl: ClosureView, from: NodeView, g: Seq<char>)
    ensures
        grown(cl, visited(rules, cl, from, g)),
{
    let after = visited(rules, cl, from, g);
    assert(after.nodes.take(cl.nodes.len() as int) =~= cl.nodes);
}

pub(crate) proof fn lemma_visited_settles(rules: Rules, cl: ClosureView, from: NodeView, g: Seq<char>)
    ensures
        settled(visited(rules, cl, from, g), g),
{
    let after = visited(rules, cl, from, g);
    let cands = assets_with_guid(rules.db, g);
    if !is_node(cl.nodes, g) && !cl.skipped_scripts.contains_key(g) && !cl.unresolved.contains_key(g)
        && cands.len() > 0 {
        lemma_meant(rules, cl.nodes, from.asset, g);
        let chosen = meant(rules, cl.nodes, from.asset, g);
        if !(!rules.scripts && script_kind(chosen.kind)) && !is_node(cl.nodes, chosen.guid) {
            assert(after.nodes[cl.nodes.len() as int].asset.guid == lower(g));
        }
    }
}

proof fn lemma_visited_sound(rules: Rules, cl: ClosureView, p: int, g: Seq<char>)
    requires
        sound(rules, cl),
        0 <= p < cl.nodes.len(),
        refers(rules, cl.nodes[p], g),
    ensures
        sound(rules, visited(rules, cl, cl.nodes[p], g)),
{
    let from = cl.nodes[p];
    let after = visited(rules, cl, from, g);
    let k = cl.roots.len() as int;
    let cands = assets_with_guid(rules.db, g);
    lemma_visited_grows(rules, cl, from, g);
    assert forall|a: int| k <= a < after.nodes.len() implies #[trigger] reached(rules, after.nodes, a) by {
        if a < cl.nodes.len() {
            assert(reached(rules, cl.nodes, a));
            lemma_grown_reached(rules, cl, after, a);
        } else {
            lemma_meant(rules, cl.nodes, from.asset, g);
            lemma_grown_nodes(cl, after, p);
            lemma_well_chosen(rules, cl.nodes, after.nodes, p, g);
            assert(reached_from(rules, after.nodes, p, a, g));
        }
    }
    assert forall|a: int| 0 <= a < k implies (#[trigger] after.nodes[a]).via is None && after.nodes[a].depth == 0 by {
        lemma_grown_nodes(cl, after, a);
        assert(cl.nodes[a].via is None);
    }
    if !rules.scripts {
        assert forall|a: int| k <= a < after.nodes.len() implies !script_kind(
            (#[trigger] after.nodes[a]).asset.kind,
        ) by {
            if a < cl.nodes.len() {
                lemma_grown_nodes(cl, after, a);
                assert(!script_kind(cl.nodes[a].asset.kind));
            }
        }
    }
    if let Some(md) = rules.max_depth {
        assert forall|a: int| 0 <= a < after.nodes.len() implies (#[trigger] after.nodes[a]).depth <= md by {
            if a < cl.nodes.len() {
                lemma_grown_nodes(cl, after, a);
                assert(cl.nodes[a].depth <= md);
            } else {
                assert(from.depth < md);
            }
        }
    }
    assert forall|h: Seq<char>| #[trigger] after.unresolved.contains_key(h) implies unresolved_sound(
        rules,
        after,
        h,
    ) by {
        let u = after.unresolved[h];
        if cl.unresolved.contains_key(h) {
            assert(unresolved_sound(rules, cl, h));
            let v = cl.unresolved[h];
            assert forall|i: int| 0 <= i < u.referrers.len() implies referrer(
                rules,
                after.nodes,
                #[trigger] u.referrers[i],
                h,
            ) by {
                if i < v.referrers.len() {
                    assert(u.referrers[i] == v.referrers[i]);
                    assert(referrer(rules, cl.nodes, v.referrers[i], h));
                    lemma_grown_referrer(rules, cl, after, v.referrers[i], h);
                } else {
                    assert(h == g);
                    assert(after.nodes[p].asset.guid == from.asset.guid && refers(rules, after.nodes[p], g));
                }
            }
        } else {
            assert(h == g);
            lemma_grown_nodes(cl, after, p);
            assert(after.nodes[p].asset.guid == from.asset.guid && refers(rules, after.nodes[p], g));
        }
    }
    assert forall|h: Seq<char>| #[trigger] after.skipped_scripts.contains_key(h) implies skipped_sound(
        rules,
        after,
        h,
    ) by {
        if cl.skipped_scripts.contains_key(h) {
            assert(skipped_sound(rules, cl, h));
            lemma_grown_referred(rules, cl, after, h);
        } else {
            assert(h == g);
            lemma_meant(rules, cl.nodes, from.asset, g);
            lemma_grown_nodes(cl, after, p);
            assert(refers(rules, after.nodes[p], g));
        }
    }
}

proof fn lemma_all_sound(rules: Rules, cl: ClosureView, p: int, gs: Seq<Seq<char>>)
    requires
        sound(rules, cl),
        0 <= p < cl.nodes.len(),
        followed(rules, cl.nodes[p]),
        forall|i: int| 0 <= i < gs.len() ==> refs_from(rules.db, cl.nodes[p].asset.id).contains(#[trigger] gs[i]),
    ensures
        sound(rules, visited_all(rules, cl, cl.nodes[p], gs)),
        grown(cl, visited_all(rules, cl, cl.nodes[p], gs)),
        visited_all(rules, cl, cl.nodes[p], gs).edges == cl.edges,
        forall|i: int| 0 <= i < gs.len() ==> settled(visited_all(rules, cl, cl.nodes[p], gs), #[trigger] gs[i]),
    decreases gs.len(),
{
    let from = cl.nodes[p];
    if gs.len() == 0 {
        assert(cl.nodes.take(cl.nodes.len() as int) =~= cl.nodes);
    } else {
        let rest = gs.drop_last();
        assert forall|i: int| 0 <= i < rest.len() implies refs_from(rules.db, cl.nodes[p].asset.id).contains(
            #[trigger] rest[i],
        ) by {
            assert(rest[i] == gs[i]);
        }
        lemma_all_sound(rules, cl, p, rest);
        let mid = visited_all(rules, cl, from, rest);
        lemma_grown_nodes(cl, mid, p);
        assert(gs[gs.len() - 1] == gs.last());
        lemma_visited_sound(rules, mid, p, gs.last());
        lemma_visited_grows(rules, mid, from, gs.last());
        let end = visited(rules, mid, from, gs.last());
        lemma_grown_trans(cl, mid, end);
        lemma_visited_settles(rules, mid, from, gs.last());
        assert forall|i: int| 0 <= i < gs.len() implies settled(end, #[trigger] gs[i]) by {
            if i < rest.len() {
                assert(settled(mid, rest[i]));
                lemma_grown_settled(mid, end, rest[i]);
            }
        }
    }
}

proof fn lemma_edges_sound(rules: Rules, cl: ClosureView, g: Seq<char>, children: Seq<Seq<char>>)
    requires
        sound(rules, cl),
    ensures
        sound(rules, ClosureView { edges: cl.edges.insert(g, children), ..cl }),
{
    let after = ClosureView { edges: cl.edges.insert(g, children), ..cl };
    assert forall|h: Seq<char>| #[trigger] after.unresolved.contains_key(h) implies unresolved_sound(
        rules,
        after,
        h,
    ) by {
        assert(cl.unresolved.contains_key(h));
        assert(unresolved_sound(rules, cl, h));
    }
    assert forall|h: Seq<char>| #[trigger] after.skipped_scripts.contains_key(h) implies skipped_sound(
        rules,
        after,
        h,
    ) by {
        assert(cl.skipped_scripts.contains_key(h));
        assert(skipped_sound(rules, cl, h));
    }
}

proof fn lemma_expanded_sound(rules: Rules, roots: Seq<AssetView>, cl: ClosureView, i: int)
    requires
        sound(rules, cl),
        drawn(rules, roots, cl.nodes),
        closed_up_to(rules, cl, i),
        0 <= i < cl.nodes.len(),
    ensures
        sound(rules, expanded(rules, cl, i)),
        closed_up_to(rules, expanded(rules, cl, i), i + 1),
        grown(cl, expanded(rules, cl, i)),
{
    let n = cl.nodes[i];
    let after = expanded(rules, cl, i);
    if followed(rules, n) {
        let children = refs_from(rules.db, n.asset.id);
        let start = ClosureView { edges: cl.edges.insert(n.asset.guid, children), ..cl };
        lemma_edges_sound(rules, cl, n.asset.guid, children);
        assert forall|k: int| 0 <= k < children.len() implies refs_from(rules.db, start.nodes[i].asset.id).contains(
            #[trigger] children[k],
        ) by {}
        lemma_all_sound(rules, start, i, children);
        assert(cl.nodes.take(cl.nodes.len() as int) =~= cl.nodes);
        assert(grown(cl, start));
        lemma_grown_trans(cl, start, after);
        assert forall|p: int, g: Seq<char>|
            0 <= p < i + 1 && p < after.nodes.len() && #[trigger] refers(rules, after.nodes[p], g) implies settled(
            after,
            g,
        ) && after.edges.contains_key(after.nodes[p].asset.guid) && after.edges[after.nodes[p].asset.guid]
            == refs_from(rules.db, after.nodes[p].asset.id) by {
            lemma_grown_nodes(cl, after, p);
            if p < i {
                assert(refers(rules, cl.nodes[p], g));
                lemma_grown_settled(cl, after, g);
                assert(cl.nodes[p].asset.guid != cl.nodes[i].asset.guid);
            } else {
                let k = choose|k: int| 0 <= k < children.len() && children[k] == g;
                assert(settled(after, children[k]));
            }
        }
    } else {
        assert(cl.nodes.take(cl.nodes.len() as int) =~= cl.nodes);
        assert forall|p: int, g: Seq<char>|
            0 <= p < i + 1 && p < after.nodes.len() && #[trigger] refers(rules, after.nodes[p], g) implies settled(
            after,
            g,
        ) && after.edges.contains_key(after.nodes[p].asset.guid) && after.edges[after.nodes[p].asset.guid]
            == refs_from(rules.db, after.nodes[p].asset.id) by {
            if p < i {
                assert(refers(rules, cl.nodes[p], g));
            }
        }
    }
}

proof fn lemma_spread_sound(rules: Rules, roots: Seq<AssetView>, cl: ClosureView, i: int, steps: nat)
    requires
        sound(rules, cl),
        drawn(rules, roots, cl.nodes),
        closed_up_to(rules, cl, i),
        0 <= i <= cl.nodes.len(),
        i + steps >= node_bound(rules, roots),
    ensures
        ({
            let end = spread(rules, cl, i, steps);
            &&& sound(rules, end)
            &&& drawn(rules, roots, end.nodes)
            &&& closed_up_to(rules, end, end.nodes.len() as int)
            &&& grown(cl, end)
        }),
    decreases steps,
{
    lemma_drawn_bound(rules, roots, cl.nodes);
    if steps == 0 || i >= cl.nodes.len() {
        assert(cl.nodes.take(cl.nodes.len() as int) =~= cl.nodes);
    } else {
        lemma_expanded_sound(rules, roots, cl, i);
        lemma_expanded_drawn(rules, roots, cl, i);
        let next = expanded(rules, cl, i);
        lemma_spread_sound(rules, roots, next, i + 1, (steps - 1) as nat);
        lemma_grown_trans(cl, next, spread(rules, next, i + 1, (steps - 1) as nat));
    }
}

proof fn lemma_planted_sound(rules: Rules, roots: Seq<AssetView>)
    ensures
        sound(rules, planted(roots)),
        planted(roots).roots == node_guids(planted(roots).nodes),
        planted(roots).unresolved == Map::<Seq<char>, UnresolvedView>::empty(),
        planted(roots).skipped_scripts == Map::<Seq<char>, AssetView>::empty(),
        forall|i: int|
            0 <= i < planted(roots).nodes.len() ==> roots.contains((#[trigger] planted(roots).nodes[i]).asset),
        forall|i: int| 0 <= i < roots.len() ==> is_node(planted(roots).nodes, (#[trigger] roots[i]).guid),
    decreases roots.len(),
{
    let cl = planted(roots);
    if roots.len() == 0 {
        assert(cl.roots =~= node_guids(cl.nodes));
    } else {
        let rest = roots.drop_last();
        let r = roots.last();
        lemma_planted_sound(rules, rest);
        let before = planted(rest);
        assert(cl.roots =~= node_guids(cl.nodes));
        assert forall|i: int| 0 <= i < cl.nodes.len() implies roots.contains((#[trigger] cl.nodes[i]).asset) by {
            if i < before.nodes.len() {
                assert(rest.contains(before.nodes[i].asset));
                let k = choose|k: int| 0 <= k < rest.len() && rest[k] == before.nodes[i].asset;
                assert(roots[k] == cl.nodes[i].asset);
            } else {
                assert(roots[roots.len() - 1] == cl.nodes[i].asset);
            }
        }
        assert forall|i: int| 0 <= i < roots.len() implies is_node(cl.nodes, (#[trigger] roots[i]).guid) by {
            if i < rest.len() {
                assert(is_node(before.nodes, rest[i].guid));
            }
            lemma_has_grows(before.nodes, root_node(r), roots[i].guid);
        }
        assert forall|a: int| 0 <= a < cl.nodes.len() implies (#[trigger] cl.nodes[a]).via is None
            && cl.nodes[a].depth == 0 by {
            if a < before.nodes.len() {
                assert(before.nodes[a].via is None);
            }
        }
    }
}

/// The finished closure is sound and closed, holds no guid twice, and begins with the roots.
proof fn lemma_closure(rules: Rules, roots: Seq<AssetView>)
    ensures
        ({
            let cl = closure_of(rules, roots);
            &&& sound(rules, cl)
            &&& drawn(rules, roots, cl.nodes)
            &&& closed_up_to(rules, cl, cl.nodes.len() as int)
            &&& grown(planted(roots), cl)
        }),
{
    lemma_planted_sound(rules, roots);
    assert(roots.take(roots.len() as int) =~= roots);
    lemma_planted_drawn(rules, roots, roots.len() as int);
    lemma_spread_sound(rules, roots, planted(roots), 0, node_bound(rules, roots));
}

pub(crate) proof fn lemma_closure_bound(rules: Rules, roots: Seq<AssetView>)
    ensures
        closure_of(rules, roots).nodes.len() <= node_bound(rules, roots),
{
    lemma_closure(rules, roots);
    lemma_drawn_bound(rules, roots, closure_of(rules, roots).nodes);
}

/// No asset is in a closure twice: no two nodes have the same guid.
pub proof fn closure_has_each_guid_once(rules: Rules, roots: Seq<AssetView>, i: int, j: int)
    requires
        0 <= i < j < closure_of(rules, roots).nodes.len(),
    ensures
        closure_of(rules, roots).nodes[i].asset.guid != closure_of(rules, roots).nodes[j].asset.guid,
{
    lemma_closure(rules, roots);
}

/// The roots come first: each root's guid is a node, the first nodes are roots, at depth 0 and
/// pulled in by nothing, and every later node was pulled in by something.
pub proof fn closure_begins_with_roots(rules: Rules, roots: Seq<AssetView>)
    ensures
        ({
            let cl = closure_of(rules, roots);
            &&& cl.roots.len() <= cl.nodes.len()
            &&& forall|i: int|
                0 <= i < cl.roots.len() ==> (#[trigger] cl.nodes[i]).depth == 0 && cl.nodes[i].via is None
                    && cl.nodes[i].asset.guid == cl.roots[i] && roots.contains(cl.nodes[i].asset)
            &&& forall|i: int| cl.roots.len() <= i < cl.nodes.len() ==> (#[trigger] cl.nodes[i]).via is Some
            &&& forall|i: int| 0 <= i < roots.len() ==> cl.roots.contains((#[trigger] roots[i]).guid)
        }),
{
    lemma_closure(rules, roots);
    lemma_planted_sound(rules, roots);
    let cl = closure_of(rules, roots);
    let start = planted(roots);
    assert forall|i: int| 0 <= i < cl.roots.len() implies (#[trigger] cl.nodes[i]).depth == 0
        && cl.nodes[i].via is None && cl.nodes[i].asset.guid == cl.roots[i] && roots.contains(
        cl.nodes[i].asset,
    ) by {
        lemma_grown_nodes(start, cl, i);
        assert(node_guids(start.nodes)[i] == start.nodes[i].asset.guid);
    }
    assert forall|i: int| cl.roots.len() <= i < cl.nodes.len() implies (#[trigger] cl.nodes[i]).via is Some by {
        assert(reached(rules, cl.nodes, i));
    }
    assert forall|i: int| 0 <= i < roots.len() implies cl.roots.contains((#[trigger] roots[i]).guid) by {
        assert(is_node(start.nodes, roots[i].guid));
        let k = choose|k: int| 0 <= k < start.nodes.len() && (#[trigger] start.nodes[k]).asset.guid == roots[i].guid;
        assert(node_guids(start.nodes)[k] == roots[i].guid);
        assert(cl.roots[k] == roots[i].guid);
    }
}

/// Nothing is in a closure without need: every node but the roots is an asset that an earlier node
/// refers to, one reference further away, and `via` names that node.
pub proof fn closure_is_needed(rules: Rules, roots: Seq<AssetView>, a: int) -> (r: (int, Seq<char>))
    requires
        closure_of(rules, roots).roots.len() <= a < closure_of(rules, roots).nodes.len(),
    ensures
        reached_from(rules, closure_of(rules, roots).nodes, r.0, a, r.1),
{
    lemma_closure(rules, roots);
    let nodes = closure_of(rules, roots).nodes;
    assert(reached(rules, nodes, a));
    choose|p: int, guid: Seq<char>| #[trigger] reached_from(rules, nodes, p, a, guid)
}

/// Nothing is missing from a closure: every reference of a node is itself a node, a script left
/// out, or reported as unresolved, and it is put down among the edges.
pub proof fn closure_is_complete(rules: Rules, roots: Seq<AssetView>, p: int, guid: Seq<char>)
    requires
        0 <= p < closure_of(rules, roots).nodes.len(),
        refers(rules, closure_of(rules, roots).nodes[p], guid),
    ensures
        settled(closure_of(rules, roots), guid),
        closure_of(rules, roots).edges.contains_key(closure_of(rules, roots).nodes[p].asset.guid),
        closure_of(rules, roots).edges[closure_of(rules, roots).nodes[p].asset.guid].contains(guid),
{
    lemma_closure(rules, roots);
}

/// A guid is reported as unresolved only where no package holds it; its referrers are nodes that
/// refer to it.
pub proof fn unresolved_guids_are_nowhere(rules: Rules, roots: Seq<AssetView>, guid: Seq<char>)
    requires
        closure_of(rules, roots).unresolved.contains_key(guid),
    ensures
        unresolved_sound(rules, closure_of(rules, roots), guid),
{
    lemma_closure(rules, roots);
}

/// A reference that no package holds is reported, with its label.
pub proof fn dangling_references_are_reported(rules: Rules, roots: Seq<AssetView>, p: int, guid: Seq<char>)
    requires
        0 <= p < closure_of(rules, roots).nodes.len(),
        refers(rules, closure_of(rules, roots).nodes[p], guid),
        assets_with_guid(rules.db, guid).len() == 0,
        !is_node(planted(roots).nodes, guid),
        !is_node(planted(roots).nodes, lower(guid)),
    ensures
        closure_of(rules, roots).unresolved.contains_key(guid),
        closure_of(rules, roots).unresolved[guid].label == guid_label(rules.known, guid),
{
    lemma_closure(rules, roots);
    lemma_planted_sound(rules, roots);
    let cl = closure_of(rules, roots);
    assert(settled(cl, guid));
    lemma_foreign(rules, roots, guid);
    if cl.skipped_scripts.contains_key(guid) {
        assert(skipped_sound(rules, cl, guid));
    }
    assert(unresolved_sound(rules, cl, guid));
}

proof fn lemma_lower_twice(g: Seq<char>)
    ensures
        lower(lower(g)) == lower(g),
{
    assert(lower(lower(g)) =~= lower(g));
}

/// A node that is no root is an asset of the index.
proof fn lemma_foreign(rules: Rules, roots: Seq<AssetView>, guid: Seq<char>)
    requires
        assets_with_guid(rules.db, guid).len() == 0,
        !is_node(planted(roots).nodes, guid),
        !is_node(planted(roots).nodes, lower(guid)),
    ensures
        !is_node(closure_of(rules, roots).nodes, guid),
        !is_node(closure_of(rules, roots).nodes, lower(guid)),
{
    lemma_closure(rules, roots);
    lemma_planted_sound(rules, roots);
    let cl = closure_of(rules, roots);
    let start = planted(roots);
    assert forall|i: int| 0 <= i < cl.nodes.len() implies (#[trigger] cl.nodes[i]).asset.guid != guid
        && cl.nodes[i].asset.guid != lower(guid) by {
        if i < start.nodes.len() {
            lemma_grown_nodes(start, cl, i);
            if start.nodes[i].asset.guid == guid {
                assert(is_node(start.nodes, guid));
            }
            if start.nodes[i].asset.guid == lower(guid) {
                assert(is_node(start.nodes, lower(guid)));
            }
        } else {
            assert(start.roots.len() == start.nodes.len());
            assert(reached(rules, cl.nodes, i));
            let (p, h) = choose|p: int, h: Seq<char>| #[trigger] reached_from(rules, cl.nodes, p, i, h);
            let cands = assets_with_guid(rules.db, h);
            let m = choose|m: int| 0 <= m < cands.len() && cands[m] == cl.nodes[i].asset;
            lemma_candidates(rules.db, h, m);
            lemma_lower_twice(h);
            lemma_lower_twice(guid);
            if cl.nodes[i].asset.guid == guid || cl.nodes[i].asset.guid == lower(guid) {
                assert(lower(h) == lower(guid)) by {
                    if cl.nodes[i].asset.guid == guid {
                        assert(lower(guid) == lower(lower(h)));
                    }
                }
                assert(assets_with_guid(rules.db, h) == assets_with_guid(rules.db, guid));
            }
        }
    }
}

/// Without scripts no script is in a closure but a root; those left out are scripts that some node
/// refers to. With scripts none is left out.
pub proof fn scripts_are_left_out(rules: Rules, roots: Seq<AssetView>)
    ensures
        ({
            let cl = closure_of(rules, roots);
            &&& !rules.scripts ==> forall|i: int|
                cl.roots.len() <= i < cl.nodes.len() ==> !script_kind((#[trigger] cl.nodes[i]).asset.kind)
            &&& forall|g: Seq<char>| #[trigger] cl.skipped_scripts.contains_key(g) ==> skipped_sound(rules, cl, g)
            &&& rules.scripts ==> forall|g: Seq<char>| !#[trigger] cl.skipped_scripts.contains_key(g)
        }),
{
    lemma_closure(rules, roots);
    let cl = closure_of(rules, roots);
    if rules.scripts {
        assert forall|g: Seq<char>| !#[trigger] cl.skipped_scripts.contains_key(g) by {
            if cl.skipped_scripts.contains_key(g) {
                assert(skipped_sound(rules, cl, g));
            }
        }
    }
}

/// With a depth limit no node is further away than it; with limit 0 there are the roots alone.
pub proof fn depth_is_limited(rules: Rules, roots: Seq<AssetView>, md: u32, i: int)
    requires
        rules.max_depth == Some(md),
        0 <= i < closure_of(rules, roots).nodes.len(),
    ensures
        closure_of(rules, roots).nodes[i].depth <= md,
        md == 0 ==> closure_of(rules, roots).nodes[i].via is None,
{
    lemma_closure(rules, roots);
    let cl = closure_of(rules, roots);
    if md == 0 && i >= cl.roots.len() {
        assert(reached(rules, cl.nodes, i));
        let (p, h) = choose|p: int, h: Seq<char>| #[trigger] reached_from(rules, cl.nodes, p, i, h);
        assert(cl.nodes[p].depth < md);
    }
}

/// A reference means the asset in the referrer's own package, where that package has one.
pub proof fn own_package_is_preferred(rules: Rules, nodes: Seq<NodeView>, from: AssetView, guid: Seq<char>, i: int)
    requires
        0 <= i < assets_with_guid(rules.db, guid).len(),
        assets_with_guid(rules.db, guid)[i].package_id == from.package_id,
    ensures
        meant(rules, nodes, from, guid).package_id == from.package_id,
{
    let cands = assets_with_guid(rules.db, guid);
    let ps = seq![from.package_id] + packages_of(nodes);
    assert(ps[0] == from.package_id);
    crate::seqs::lemma_find_some(cands, |c: AssetView| c.package_id == ps[0], i);
}

// ----- one fate for each guid ----------------------------------------------------------------

/// Every reference in the index is in lower case, as scanning puts them down.
pub open spec fn refs_in_lower_case(db: DbView) -> bool {
    forall|id: i64, g: Seq<char>| #[trigger] refs_from(db, id).contains(g) ==> lower(g) == g
}

/// The edges are the references of the first `i` nodes, as far as those are followed.
spec fn edges_put_down(rules: Rules, cl: ClosureView, i: int) -> bool {
    &&& forall|g: Seq<char>| #[trigger] cl.edges.contains_key(g) ==> exists|p: int|
        0 <= p < i && p < cl.nodes.len() && (#[trigger] cl.nodes[p]).asset.guid == g && followed(rules, cl.nodes[p])
    &&& forall|p: int|
        0 <= p < i && p < cl.nodes.len() && followed(rules, #[trigger] cl.nodes[p]) ==> cl.edges.contains_key(
            cl.nodes[p].asset.guid,
        ) && cl.edges[cl.nodes[p].asset.guid] == refs_from(rules.db, cl.nodes[p].asset.id)
}

proof fn lemma_visits_keep_edges(rules: Rules, cl: ClosureView, from: NodeView, gs: Seq<Seq<char>>)
    ensures
        visited_all(rules, cl, from, gs).edges == cl.edges,
    decreases gs.len(),
{
    if gs.len() > 0 {
        lemma_visits_keep_edges(rules, cl, from, gs.drop_last());
    }
}

proof fn lemma_edges_put_down(rules: Rules, roots: Seq<AssetView>, cl: ClosureView, i: int)
    requires
        drawn(rules, roots, cl.nodes),
        edges_put_down(rules, cl, i),
        0 <= i < cl.nodes.len(),
    ensures
        edges_put_down(rules, expanded(rules, cl, i), i + 1),
{
    let n = cl.nodes[i];
    let end = expanded(rules, cl, i);
    lemma_expanded_drawn(rules, roots, cl, i);
    assert forall|p: int| 0 <= p < cl.nodes.len() implies #[trigger] end.nodes[p] == cl.nodes[p] by {
        assert(end.nodes.take(cl.nodes.len() as int)[p] == end.nodes[p]);
    }
    if followed(rules, n) {
        let children = refs_from(rules.db, n.asset.id);
        let start = ClosureView { edges: cl.edges.insert(n.asset.guid, children), ..cl };
        lemma_visits_keep_edges(rules, start, n, children);
    }
    assert forall|g: Seq<char>| #[trigger] end.edges.contains_key(g) implies exists|p: int|
        0 <= p < i + 1 && p < end.nodes.len() && (#[trigger] end.nodes[p]).asset.guid == g && followed(
            rules,
            end.nodes[p],
        ) by {
        if cl.edges.contains_key(g) {
            let p = choose|p: int|
                0 <= p < i && p < cl.nodes.len() && (#[trigger] cl.nodes[p]).asset.guid == g && followed(
                    rules,
                    cl.nodes[p],
                );
            assert(end.nodes[p] == cl.nodes[p]);
        } else {
            assert(end.nodes[i] == n);
        }
    }
    assert forall|p: int|
        0 <= p < i + 1 && p < end.nodes.len() && followed(rules, #[trigger] end.nodes[p]) implies end.edges.contains_key(
        end.nodes[p].asset.guid,
    ) && end.edges[end.nodes[p].asset.guid] == refs_from(rules.db, end.nodes[p].asset.id) by {
        if p < i {
            assert(followed(rules, cl.nodes[p]));
            assert(cl.nodes[p].asset.guid != cl.nodes[i].asset.guid);
        }
    }
}

proof fn lemma_spread_edges(rules: Rules, roots: Seq<AssetView>, cl: ClosureView, i: int, steps: nat)
    requires
        drawn(rules, roots, cl.nodes),
        edges_put_down(rules, cl, i),
        0 <= i <= cl.nodes.len(),
        i + steps >= node_bound(rules, roots),
    ensures
        edges_put_down(
            rules,
            spread(rules, cl, i, steps),
            spread(rules, cl, i, steps).nodes.len() as int,
        ),
    decreases steps,
{
    lemma_drawn_bound(rules, roots, cl.nodes);
    if steps > 0 && i < cl.nodes.len() {
        lemma_expanded_drawn(rules, roots, cl, i);
        lemma_edges_put_down(rules, roots, cl, i);
        lemma_spread_edges(rules, roots, expanded(rules, cl, i), i + 1, (steps - 1) as nat);
    }
}

/// The edges of a closure are the references of the nodes that are followed: each such node has an
/// entry that holds its references, and nothing else has one.
pub proof fn followed_nodes_have_edges(rules: Rules, roots: Seq<AssetView>)
    ensures
        ({
            let cl = closure_of(rules, roots);
            &&& forall|p: int|
                0 <= p < cl.nodes.len() && followed(rules, #[trigger] cl.nodes[p]) ==> cl.edges.contains_key(
                    cl.nodes[p].asset.guid,
                ) && cl.edges[cl.nodes[p].asset.guid] == refs_from(rules.db, cl.nodes[p].asset.id)
            &&& forall|g: Seq<char>| #[trigger] cl.edges.contains_key(g) ==> exists|p: int|
                0 <= p < cl.nodes.len() && (#[trigger] cl.nodes[p]).asset.guid == g && followed(rules, cl.nodes[p])
        }),
{
    let start = planted(roots);
    assert(roots.take(roots.len() as int) =~= roots);
    lemma_planted_drawn(rules, roots, roots.len() as int);
    lemma_planted_bare(roots);
    lemma_spread_edges(rules, roots, start, 0, node_bound(rules, roots));
}

/// Whether no guid is in two of the three places: the nodes, what is unresolved and the scripts left
/// out. What is unresolved is in no package; a script left out is in one.
pub open spec fn apart(rules: Rules, cl: ClosureView) -> bool {
    &&& forall|g: Seq<char>| #[trigger]
        cl.unresolved.contains_key(g) ==> !is_node(cl.nodes, g) && !cl.skipped_scripts.contains_key(g)
            && assets_with_guid(rules.db, g).len() == 0
    &&& forall|g: Seq<char>| #[trigger]
        cl.skipped_scripts.contains_key(g) ==> !is_node(cl.nodes, g) && assets_with_guid(rules.db, g).len() > 0
}

proof fn lemma_visited_apart(rules: Rules, cl: ClosureView, from: NodeView, guid: Seq<char>)
    requires
        apart(rules, cl),
        lower(guid) == guid,
    ensures
        apart(rules, visited(rules, cl, from, guid)),
{
    let end = visited(rules, cl, from, guid);
    if assets_with_guid(rules.db, guid).len() > 0 {
        lemma_meant(rules, cl.nodes, from.asset, guid);
    }
    if end.nodes != cl.nodes {
        assert forall|g: Seq<char>| is_node(end.nodes, g) <==> is_node(cl.nodes, g) || g == guid by {
            lemma_has_grows(cl.nodes, end.nodes.last(), g);
        }
    }
    assert forall|g: Seq<char>| #[trigger] end.unresolved.contains_key(g) implies !is_node(end.nodes, g)
        && !end.skipped_scripts.contains_key(g) && assets_with_guid(rules.db, g).len() == 0 by {
        if cl.unresolved.contains_key(g) {
        } else {
            assert(g == guid);
        }
    }
    assert forall|g: Seq<char>| #[trigger] end.skipped_scripts.contains_key(g) implies !is_node(end.nodes, g)
        && assets_with_guid(rules.db, g).len() > 0 by {
        if cl.skipped_scripts.contains_key(g) {
        } else {
            assert(g == guid);
        }
    }
}

pub(crate) proof fn lemma_all_apart(rules: Rules, cl: ClosureView, from: NodeView, gs: Seq<Seq<char>>)
    requires
        apart(rules, cl),
        forall|g: Seq<char>| #[trigger] gs.contains(g) ==> lower(g) == g,
    ensures
        apart(rules, visited_all(rules, cl, from, gs)),
    decreases gs.len(),
{
    if gs.len() > 0 {
        let rest = gs.drop_last();
        assert forall|g: Seq<char>| #[trigger] rest.contains(g) implies lower(g) == g by {
            let k = choose|k: int| 0 <= k < rest.len() && rest[k] == g;
            assert(gs[k] == g);
            assert(gs.contains(g));
        }
        lemma_all_apart(rules, cl, from, rest);
        assert(gs[gs.len() - 1] == gs.last());
        assert(gs.contains(gs.last()));
        lemma_visited_apart(rules, visited_all(rules, cl, from, rest), from, gs.last());
    }
}

proof fn lemma_spread_apart(rules: Rules, cl: ClosureView, i: int, steps: nat)
    requires
        refs_in_lower_case(rules.db),
        apart(rules, cl),
        0 <= i,
    ensures
        apart(rules, spread(rules, cl, i, steps)),
    decreases steps,
{
    if steps > 0 && i < cl.nodes.len() {
        let n = cl.nodes[i];
        if followed(rules, n) {
            let children = refs_from(rules.db, n.asset.id);
            let start = ClosureView { edges: cl.edges.insert(n.asset.guid, children), ..cl };
            assert(apart(rules, start));
            lemma_all_apart(rules, start, n, children);
        }
        lemma_spread_apart(rules, expanded(rules, cl, i), i + 1, (steps - 1) as nat);
    }
}

/// Of a guid a closure says one thing only: it is a node, or unresolved, or a script left out, and
/// never two of them.
pub proof fn guids_have_one_fate(rules: Rules, roots: Seq<AssetView>, guid: Seq<char>)
    requires
        refs_in_lower_case(rules.db),
    ensures
        ({
            let cl = closure_of(rules, roots);
            &&& is_node(cl.nodes, guid) ==> !cl.unresolved.contains_key(guid) && !cl.skipped_scripts.contains_key(guid)
            &&& cl.unresolved.contains_key(guid) ==> !cl.skipped_scripts.contains_key(guid)
        }),
{
    lemma_planted_bare(roots);
    lemma_spread_apart(rules, planted(roots), 0, node_bound(rules, roots));
}

// ----- distances -----------------------------------------------------------------------------

/// The nodes come in the order of their distance, and none is more than one reference further away
/// than the node at `i`, the next to be followed.
pub open spec fn levelled(nodes: Seq<NodeView>, i: int) -> bool {
    &&& forall|a: int, b: int| 0 <= a < b < nodes.len() ==> (#[trigger] nodes[a]).depth <= (#[trigger] nodes[b]).depth
    &&& forall|a: int| 0 <= a < nodes.len() ==> (#[trigger] nodes[a]).depth <= a
    &&& 0 <= i < nodes.len() ==> forall|a: int| 0 <= a < nodes.len() ==> (#[trigger] nodes[a]).depth <= nodes[i].depth + 1
}

/// No node that one of the first `i` nodes refers to is more than one reference further away.
pub open spec fn near(rules: Rules, nodes: Seq<NodeView>, i: int) -> bool {
    forall|p: int, b: int|
        0 <= p < i && p < nodes.len() && 0 <= b < nodes.len() && refers(
            rules,
            #[trigger] nodes[p],
            (#[trigger] nodes[b]).asset.guid,
        ) ==> nodes[b].depth <= nodes[p].depth + 1
}

/// The state while the references of the node at `i` are followed.
pub open spec fn spreading(rules: Rules, roots: Seq<AssetView>, cl: ClosureView, i: int) -> bool {
    &&& sound(rules, cl)
    &&& drawn(rules, roots, cl.nodes)
    &&& levelled(cl.nodes, i)
    &&& near(rules, cl.nodes, i)
    &&& forall|p: int, g: Seq<char>| 0 <= p < i && p < cl.nodes.len() && #[trigger] refers(rules, cl.nodes[p], g) ==> settled(cl, g)
}

proof fn lemma_visited_level(rules: Rules, roots: Seq<AssetView>, cl: ClosureView, i: int, g: Seq<char>)
    requires
        spreading(rules, roots, cl, i),
        refs_in_lower_case(rules.db),
        node_bound(rules, roots) <= u32::MAX,
        0 <= i < cl.nodes.len(),
        refers(rules, cl.nodes[i], g),
    ensures
        spreading(rules, roots, visited(rules, cl, cl.nodes[i], g), i),
{
    let from = cl.nodes[i];
    let after = visited(rules, cl, from, g);
    lemma_visited_sound(rules, cl, i, g);
    lemma_visited_drawn(rules, roots, cl, from, g);
    lemma_visited_grows(rules, cl, from, g);
    lemma_drawn_bound(rules, roots, cl.nodes);
    assert forall|p: int, h: Seq<char>|
        0 <= p < i && p < after.nodes.len() && #[trigger] refers(rules, after.nodes[p], h) implies settled(after, h) by {
        lemma_grown_nodes(cl, after, p);
        assert(refers(rules, cl.nodes[p], h));
        lemma_grown_settled(cl, after, h);
    }
    if after.nodes.len() > cl.nodes.len() {
        let n = cl.nodes.len() as int;
        lemma_meant(rules, cl.nodes, from.asset, g);
        assert(from.depth <= i);
        assert(after.nodes[n].depth == from.depth + 1);
        assert(refs_from(rules.db, from.asset.id).contains(g));
        assert(lower(g) == g);
        assert(after.nodes[n].asset.guid == g);
        assert forall|a: int| 0 <= a < n implies after.nodes[a] == cl.nodes[a] by {
            lemma_grown_nodes(cl, after, a);
        }
        assert forall|p: int, b: int|
            0 <= p < i && p < after.nodes.len() && 0 <= b < after.nodes.len() && refers(
                rules,
                #[trigger] after.nodes[p],
                (#[trigger] after.nodes[b]).asset.guid,
            ) implies after.nodes[b].depth <= after.nodes[p].depth + 1 by {
            assert(after.nodes[p] == cl.nodes[p]);
            if b < n {
                assert(after.nodes[b] == cl.nodes[b]);
            } else {
                assert(refers(rules, cl.nodes[p], g));
                assert(settled(cl, g));
                assert(cl.unresolved.contains_key(g) ==> unresolved_sound(rules, cl, g));
            }
        }
    } else {
        assert(after.nodes =~= cl.nodes);
    }
}

proof fn lemma_all_level(rules: Rules, roots: Seq<AssetView>, cl: ClosureView, i: int, gs: Seq<Seq<char>>)
    requires
        spreading(rules, roots, cl, i),
        refs_in_lower_case(rules.db),
        node_bound(rules, roots) <= u32::MAX,
        0 <= i < cl.nodes.len(),
        followed(rules, cl.nodes[i]),
        forall|k: int| 0 <= k < gs.len() ==> refs_from(rules.db, cl.nodes[i].asset.id).contains(#[trigger] gs[k]),
    ensures
        spreading(rules, roots, visited_all(rules, cl, cl.nodes[i], gs), i),
    decreases gs.len(),
{
    if gs.len() > 0 {
        let rest = gs.drop_last();
        assert forall|k: int| 0 <= k < rest.len() implies refs_from(rules.db, cl.nodes[i].asset.id).contains(
            #[trigger] rest[k],
        ) by {
            assert(rest[k] == gs[k]);
        }
        lemma_all_level(rules, roots, cl, i, rest);
        lemma_all_sound(rules, cl, i, rest);
        let mid = visited_all(rules, cl, cl.nodes[i], rest);
        lemma_grown_nodes(cl, mid, i);
        assert(gs[gs.len() - 1] == gs.last());
        lemma_visited_level(rules, roots, mid, i, gs.last());
    }
}

proof fn lemma_expanded_level(rules: Rules, roots: Seq<AssetView>, cl: ClosureView, i: int)
    requires
        spreading(rules, roots, cl, i),
        closed_up_to(rules, cl, i),
        refs_in_lower_case(rules.db),
        node_bound(rules, roots) <= u32::MAX,
        0 <= i < cl.nodes.len(),
    ensures
        spreading(rules, roots, expanded(rules, cl, i), i + 1),
{
    let n = cl.nodes[i];
    let after = expanded(rules, cl, i);
    lemma_expanded_sound(rules, roots, cl, i);
    lemma_expanded_drawn(rules, roots, cl, i);
    if followed(rules, n) {
        let children = refs_from(rules.db, n.asset.id);
        let start = ClosureView { edges: cl.edges.insert(n.asset.guid, children), ..cl };
        lemma_edges_sound(rules, cl, n.asset.guid, children);
        assert forall|p: int, g: Seq<char>|
            0 <= p < i && p < start.nodes.len() && #[trigger] refers(rules, start.nodes[p], g) implies settled(
            start,
            g,
        ) by {
            assert(refers(rules, cl.nodes[p], g));
            assert(settled(cl, g));
        }
        assert(spreading(rules, roots, start, i));
        assert forall|k: int| 0 <= k < children.len() implies refs_from(rules.db, start.nodes[i].asset.id).contains(
            #[trigger] children[k],
        ) by {}
        lemma_all_level(rules, roots, start, i, children);
    }
    lemma_grown_nodes(cl, after, i);
    assert(levelled(after.nodes, i));
    assert forall|p: int, b: int|
        0 <= p < i + 1 && p < after.nodes.len() && 0 <= b < after.nodes.len() && refers(
            rules,
            #[trigger] after.nodes[p],
            (#[trigger] after.nodes[b]).asset.guid,
        ) implies after.nodes[b].depth <= after.nodes[p].depth + 1 by {
        if p < i {
            assert(near(rules, after.nodes, i));
        }
    }
    if i + 1 < after.nodes.len() {
        assert(after.nodes[i].depth <= after.nodes[i + 1].depth);
        assert forall|a: int| 0 <= a < after.nodes.len() implies (#[trigger] after.nodes[a]).depth
            <= after.nodes[i + 1].depth + 1 by {
            assert(after.nodes[a].depth <= after.nodes[i].depth + 1);
        }
    }
    assert forall|p: int, g: Seq<char>|
        0 <= p < i + 1 && p < after.nodes.len() && #[trigger] refers(rules, after.nodes[p], g) implies settled(
        after,
        g,
    ) by {
        assert(closed_up_to(rules, after, i + 1));
    }
}

proof fn lemma_spread_level(rules: Rules, roots: Seq<AssetView>, cl: ClosureView, i: int, steps: nat)
    requires
        spreading(rules, roots, cl, i),
        closed_up_to(rules, cl, i),
        refs_in_lower_case(rules.db),
        node_bound(rules, roots) <= u32::MAX,
        0 <= i <= cl.nodes.len(),
        i + steps >= node_bound(rules, roots),
    ensures
        ({
            let end = spread(rules, cl, i, steps);
            levelled(end.nodes, end.nodes.len() as int) && near(rules, end.nodes, end.nodes.len() as int)
        }),
    decreases steps,
{
    lemma_drawn_bound(rules, roots, cl.nodes);
    if !(steps == 0 || i >= cl.nodes.len()) {
        lemma_expanded_level(rules, roots, cl, i);
        lemma_expanded_sound(rules, roots, cl, i);
        lemma_spread_level(rules, roots, expanded(rules, cl, i), i + 1, (steps - 1) as nat);
    }
}

/// The nodes of a closure come in the order of their distance from the roots, and a node that
/// another refers to is at most one reference further away.
pub proof fn closure_is_breadth_first(rules: Rules, roots: Seq<AssetView>)
    requires
        refs_in_lower_case(rules.db),
        node_bound(rules, roots) <= u32::MAX,
    ensures
        ({
            let nodes = closure_of(rules, roots).nodes;
            &&& forall|a: int, b: int|
                0 <= a < b < nodes.len() ==> (#[trigger] nodes[a]).depth <= (#[trigger] nodes[b]).depth
            &&& near(rules, nodes, nodes.len() as int)
        }),
{
    let cl = planted(roots);
    lemma_planted_sound(rules, roots);
    assert(roots.take(roots.len() as int) =~= roots);
    lemma_planted_drawn(rules, roots, roots.len() as int);
    assert(cl.roots.len() == cl.nodes.len());
    assert forall|a: int| 0 <= a < cl.nodes.len() implies (#[trigger] cl.nodes[a]).depth == 0 by {
        assert(cl.nodes[a].via is None);
    }
    lemma_spread_level(rules, roots, cl, 0, node_bound(rules, roots));
}

/// A way along references: each node refers to the next.
pub open spec fn leads(rules: Rules, nodes: Seq<NodeView>, way: Seq<int>) -> bool {
    &&& way.len() > 0
    &&& forall|k: int| 0 <= k < way.len() ==> 0 <= #[trigger] way[k] < nodes.len()
    &&& forall|k: int|
        0 < k < way.len() ==> refers(rules, nodes[way[k - 1]], nodes[#[trigger] way[k]].asset.guid)
}

/// The depth of a node is the length of the shortest way to it: no way from a root is shorter. (That
/// there is one of this length follows from what [`closure_is_needed`] says of each node.)
pub proof fn depth_is_the_shortest_way(rules: Rules, roots: Seq<AssetView>, way: Seq<int>)
    requires
        refs_in_lower_case(rules.db),
        node_bound(rules, roots) <= u32::MAX,
        leads(rules, closure_of(rules, roots).nodes, way),
        way[0] < closure_of(rules, roots).roots.len(),
    ensures
        closure_of(rules, roots).nodes[way.last()].depth <= way.len() - 1,
    decreases way.len(),
{
    let nodes = closure_of(rules, roots).nodes;
    closure_is_breadth_first(rules, roots);
    closure_begins_with_roots(rules, roots);
    if way.len() == 1 {
        assert(nodes[way[0]].depth == 0);
    } else {
        let front = way.drop_last();
        assert forall|k: int| 0 <= k < front.len() implies 0 <= #[trigger] front[k] < nodes.len() by {
            assert(front[k] == way[k]);
        }
        assert forall|k: int| 0 < k < front.len() implies refers(
            rules,
            nodes[front[k - 1]],
            nodes[#[trigger] front[k]].asset.guid,
        ) by {
            assert(front[k] == way[k]);
            assert(front[k - 1] == way[k - 1]);
        }
        depth_is_the_shortest_way(rules, roots, front);
        let k = way.len() - 1;
        assert(0 <= way[k] < nodes.len());
        assert(0 <= way[k - 1] < nodes.len());
        assert(refers(rules, nodes[way[k - 1]], nodes[way[k]].asset.guid));
        assert(front.last() == way[k - 1]);
    }
}

// ----- depth limits --------------------------------------------------------------------------

/// The same rules without a limit of the depth.
pub open spec fn unlimited(rules: Rules) -> Rules {
    Rules { max_depth: None, ..rules }
}

proof fn lemma_same_visits(rules: Rules, cl: ClosureView, from: NodeView, gs: Seq<Seq<char>>)
    ensures
        visited_all(rules, cl, from, gs) == visited_all(unlimited(rules), cl, from, gs),
    decreases gs.len(),
{
    if gs.len() > 0 {
        lemma_same_visits(rules, cl, from, gs.drop_last());
        let mid = visited_all(rules, cl, from, gs.drop_last());
        assert(meant(rules, mid.nodes, from.asset, gs.last()) == meant(
            unlimited(rules),
            mid.nodes,
            from.asset,
            gs.last(),
        ));
    }
}

/// What following the references of the node at `i` adds: nodes one reference further away.
spec fn further(a: ClosureView, b: ClosureView, i: int) -> bool {
    &&& a.nodes.len() <= b.nodes.len()
    &&& forall|k: int| 0 <= k < a.nodes.len() ==> #[trigger] b.nodes[k] == a.nodes[k]
    &&& forall|k: int| a.nodes.len() <= k < b.nodes.len() ==> (#[trigger] b.nodes[k]).depth == a.nodes[i].depth + 1
}

proof fn lemma_visited_further(rules: Rules, roots: Seq<AssetView>, cl: ClosureView, i: int, g: Seq<char>)
    requires
        drawn(rules, roots, cl.nodes),
        levelled(cl.nodes, i),
        node_bound(rules, roots) <= u32::MAX,
        0 <= i < cl.nodes.len(),
    ensures
        ({
            let after = visited(rules, cl, cl.nodes[i], g);
            &&& drawn(rules, roots, after.nodes)
            &&& levelled(after.nodes, i)
            &&& further(cl, after, i)
            &&& after.edges == cl.edges
        }),
{
    let from = cl.nodes[i];
    let after = visited(rules, cl, from, g);
    lemma_visited_drawn(rules, roots, cl, from, g);
    lemma_drawn_bound(rules, roots, after.nodes);
    assert forall|k: int| 0 <= k < cl.nodes.len() implies #[trigger] after.nodes[k] == cl.nodes[k] by {
        assert(after.nodes.take(cl.nodes.len() as int)[k] == cl.nodes[k]);
    }
    if after.nodes.len() > cl.nodes.len() {
        assert(from.depth <= i);
        assert(after.nodes[cl.nodes.len() as int].depth == from.depth + 1);
    }
}

proof fn lemma_all_further(rules: Rules, roots: Seq<AssetView>, cl: ClosureView, i: int, gs: Seq<Seq<char>>)
    requires
        drawn(rules, roots, cl.nodes),
        levelled(cl.nodes, i),
        node_bound(rules, roots) <= u32::MAX,
        0 <= i < cl.nodes.len(),
    ensures
        ({
            let after = visited_all(rules, cl, cl.nodes[i], gs);
            &&& drawn(rules, roots, after.nodes)
            &&& levelled(after.nodes, i)
            &&& further(cl, after, i)
            &&& after.edges == cl.edges
        }),
    decreases gs.len(),
{
    if gs.len() > 0 {
        lemma_all_further(rules, roots, cl, i, gs.drop_last());
        let mid = visited_all(rules, cl, cl.nodes[i], gs.drop_last());
        assert(mid.nodes[i] == cl.nodes[i]);
        lemma_visited_further(rules, roots, mid, i, gs.last());
        let after = visited(rules, mid, cl.nodes[i], gs.last());
        assert forall|k: int| 0 <= k < cl.nodes.len() implies #[trigger] after.nodes[k] == cl.nodes[k] by {
            assert(mid.nodes[k] == cl.nodes[k]);
        }
        assert forall|k: int| cl.nodes.len() <= k < after.nodes.len() implies (#[trigger] after.nodes[k]).depth
            == cl.nodes[i].depth + 1 by {
            if k < mid.nodes.len() {
                assert(after.nodes[k] == mid.nodes[k]);
            }
        }
    }
}

proof fn lemma_expanded_further(rules: Rules, roots: Seq<AssetView>, cl: ClosureView, i: int)
    requires
        drawn(rules, roots, cl.nodes),
        levelled(cl.nodes, i),
        node_bound(rules, roots) <= u32::MAX,
        0 <= i < cl.nodes.len(),
    ensures
        ({
            let after = expanded(rules, cl, i);
            let n = cl.nodes[i];
            &&& drawn(rules, roots, after.nodes)
            &&& levelled(after.nodes, i + 1)
            &&& further(cl, after, i)
            &&& after.edges == (if followed(rules, n) {
                cl.edges.insert(n.asset.guid, refs_from(rules.db, n.asset.id))
            } else {
                cl.edges
            })
        }),
{
    let n = cl.nodes[i];
    let after = expanded(rules, cl, i);
    if followed(rules, n) {
        let children = refs_from(rules.db, n.asset.id);
        let start = ClosureView { edges: cl.edges.insert(n.asset.guid, children), ..cl };
        lemma_all_further(rules, roots, start, i, children);
        assert(further(start, after, i));
    }
    assert(after.nodes[i] == n);
    if i + 1 < after.nodes.len() {
        assert(after.nodes[i].depth <= after.nodes[i + 1].depth);
        assert forall|a: int| 0 <= a < after.nodes.len() implies (#[trigger] after.nodes[a]).depth
            <= after.nodes[i + 1].depth + 1 by {
            assert(after.nodes[a].depth <= after.nodes[i].depth + 1);
        }
    }
}

proof fn lemma_spread_beyond(rules: Rules, roots: Seq<AssetView>, cl: ClosureView, i: int, steps: nat, d: u32)
    requires
        drawn(rules, roots, cl.nodes),
        levelled(cl.nodes, i),
        node_bound(rules, roots) <= u32::MAX,
        0 <= i,
        forall|k: int| i <= k < cl.nodes.len() ==> (#[trigger] cl.nodes[k]).depth >= d,
    ensures
        ({
            let end = spread(rules, cl, i, steps);
            &&& cl.nodes.len() <= end.nodes.len()
            &&& forall|k: int| 0 <= k < cl.nodes.len() ==> #[trigger] end.nodes[k] == cl.nodes[k]
            &&& forall|k: int| cl.nodes.len() <= k < end.nodes.len() ==> (#[trigger] end.nodes[k]).depth > d
        }),
    decreases steps,
{
    if !(steps == 0 || i >= cl.nodes.len()) {
        let after = expanded(rules, cl, i);
        lemma_expanded_further(rules, roots, cl, i);
        assert forall|k: int| i + 1 <= k < after.nodes.len() implies (#[trigger] after.nodes[k]).depth >= d by {
            if k < cl.nodes.len() {
                assert(after.nodes[k] == cl.nodes[k]);
            }
        }
        lemma_spread_beyond(rules, roots, after, i + 1, (steps - 1) as nat, d);
        let end = spread(rules, after, i + 1, (steps - 1) as nat);
        assert forall|k: int| 0 <= k < cl.nodes.len() implies #[trigger] end.nodes[k] == cl.nodes[k] by {
            assert(end.nodes[k] == after.nodes[k]);
        }
        assert forall|k: int| cl.nodes.len() <= k < end.nodes.len() implies (#[trigger] end.nodes[k]).depth > d by {
            if k < after.nodes.len() {
                assert(end.nodes[k] == after.nodes[k]);
            }
        }
    }
}

proof fn lemma_spread_rests(rules: Rules, cl: ClosureView, i: int, steps: nat, d: u32)
    requires
        rules.max_depth == Some(d),
        0 <= i,
        forall|k: int| i <= k < cl.nodes.len() ==> (#[trigger] cl.nodes[k]).depth >= d,
    ensures
        spread(rules, cl, i, steps) == cl,
    decreases steps,
{
    if !(steps == 0 || i >= cl.nodes.len()) {
        assert(!followed(rules, cl.nodes[i]));
        lemma_spread_rests(rules, cl, i + 1, (steps - 1) as nat, d);
    }
}

/// Whether a closure is what another holds up to a depth: its nodes are the first ones of the other,
/// those that are not further away, and it has the edges of the nodes that are nearer.
pub open spec fn cut_at(rules: Rules, cut: ClosureView, full: ClosureView, d: u32) -> bool {
    &&& cut.nodes.len() <= full.nodes.len()
    &&& cut.nodes == full.nodes.take(cut.nodes.len() as int)
    &&& forall|k: int| 0 <= k < full.nodes.len() ==> ((#[trigger] full.nodes[k]).depth <= d <==> k < cut.nodes.len())
    &&& forall|g: Seq<char>| #[trigger] cut.edges.contains_key(g) ==> exists|p: int|
        0 <= p < cut.nodes.len() && (#[trigger] cut.nodes[p]).asset.guid == g && cut.nodes[p].depth < d
    &&& forall|p: int|
        0 <= p < cut.nodes.len() && (#[trigger] cut.nodes[p]).depth < d ==> cut.edges.contains_key(
            cut.nodes[p].asset.guid,
        ) && cut.edges[cut.nodes[p].asset.guid] == refs_from(rules.db, cut.nodes[p].asset.id)
}

proof fn lemma_cut(rules: Rules, roots: Seq<AssetView>, cl: ClosureView, i: int, steps: nat, d: u32)
    requires
        rules.max_depth == Some(d),
        drawn(rules, roots, cl.nodes),
        levelled(cl.nodes, i),
        node_bound(rules, roots) <= u32::MAX,
        0 <= i <= cl.nodes.len(),
        i + steps >= node_bound(rules, roots),
        edges_put_down(rules, cl, i),
        forall|k: int| 0 <= k < cl.nodes.len() ==> (#[trigger] cl.nodes[k]).depth <= d,
        forall|k: int| 0 <= k < i ==> (#[trigger] cl.nodes[k]).depth < d,
    ensures
        cut_at(rules, spread(rules, cl, i, steps), spread(unlimited(rules), cl, i, steps), d),
    decreases steps,
{
    let loose = unlimited(rules);
    lemma_drawn_bound(rules, roots, cl.nodes);
    let cut = spread(rules, cl, i, steps);
    let full = spread(loose, cl, i, steps);
    if steps == 0 || i >= cl.nodes.len() {
        assert(cl.nodes =~= cl.nodes.take(cl.nodes.len() as int));
        assert forall|g: Seq<char>| #[trigger] cut.edges.contains_key(g) implies exists|p: int|
            0 <= p < cut.nodes.len() && (#[trigger] cut.nodes[p]).asset.guid == g && cut.nodes[p].depth < d by {
            let p = choose|p: int| 0 <= p < i && p < cl.nodes.len() && (#[trigger] cl.nodes[p]).asset.guid == g;
            assert(cut.nodes[p].asset.guid == g && cut.nodes[p].depth < d);
        }
    } else if cl.nodes[i].depth < d {
        let n = cl.nodes[i];
        let after = expanded(rules, cl, i);
        let children = refs_from(rules.db, n.asset.id);
        let start = ClosureView { edges: cl.edges.insert(n.asset.guid, children), ..cl };
        lemma_same_visits(rules, start, n, children);
        assert(expanded(loose, cl, i) == after);
        lemma_expanded_further(rules, roots, cl, i);
        assert forall|k: int| 0 <= k < after.nodes.len() implies (#[trigger] after.nodes[k]).depth <= d by {
            if k < cl.nodes.len() {
                assert(after.nodes[k] == cl.nodes[k]);
            }
        }
        assert forall|k: int| 0 <= k < i + 1 implies (#[trigger] after.nodes[k]).depth < d by {
            assert(after.nodes[k] == cl.nodes[k]);
        }
        lemma_edges_put_down(rules, roots, cl, i);
        lemma_cut(rules, roots, after, i + 1, (steps - 1) as nat, d);
    } else {
        assert forall|k: int| i <= k < cl.nodes.len() implies (#[trigger] cl.nodes[k]).depth >= d by {
            if k > i {
                assert(cl.nodes[i].depth <= cl.nodes[k].depth);
            }
        }
        lemma_spread_rests(rules, cl, i, steps, d);
        assert(drawn(loose, roots, cl.nodes)) by {
            assert(guid_pool(loose, roots) == guid_pool(rules, roots));
        }
        lemma_spread_beyond(loose, roots, cl, i, steps, d);
        assert(cut.nodes =~= full.nodes.take(cut.nodes.len() as int));
        assert forall|g: Seq<char>| #[trigger] cut.edges.contains_key(g) implies exists|p: int|
            0 <= p < cut.nodes.len() && (#[trigger] cut.nodes[p]).asset.guid == g && cut.nodes[p].depth < d by {
            let p = choose|p: int| 0 <= p < i && p < cl.nodes.len() && (#[trigger] cl.nodes[p]).asset.guid == g;
            assert(cut.nodes[p].asset.guid == g && cut.nodes[p].depth < d);
        }
        assert forall|k: int| 0 <= k < full.nodes.len() implies ((#[trigger] full.nodes[k]).depth <= d <==> k
            < cut.nodes.len()) by {
            if k < cl.nodes.len() {
                assert(full.nodes[k] == cl.nodes[k]);
            }
        }
    }
}

/// A closure with a depth limit is the beginning of the one without: the same nodes in the same
/// order, as far as they are within the limit, with the edges of those nearer than it. With limit 0
/// there are the roots alone, and nothing is followed.
pub proof fn limited_closures_are_beginnings(rules: Rules, roots: Seq<AssetView>, d: u32)
    requires
        rules.max_depth == Some(d),
        node_bound(rules, roots) <= u32::MAX,
    ensures
        cut_at(rules, closure_of(rules, roots), closure_of(unlimited(rules), roots), d),
        d == 0 ==> closure_of(rules, roots) == planted(roots),
        d == 0 ==> ({
            let cl = closure_of(rules, roots);
            &&& cl.edges == Map::<Seq<char>, Seq<Seq<char>>>::empty()
            &&& cl.unresolved == Map::<Seq<char>, UnresolvedView>::empty()
            &&& cl.skipped_scripts == Map::<Seq<char>, AssetView>::empty()
        }),
{
    let cl = planted(roots);
    lemma_planted_sound(rules, roots);
    assert(roots.take(roots.len() as int) =~= roots);
    lemma_planted_drawn(rules, roots, roots.len() as int);
    assert(cl.roots.len() == cl.nodes.len());
    lemma_planted_bare(roots);
    assert forall|a: int| 0 <= a < cl.nodes.len() implies (#[trigger] cl.nodes[a]).depth == 0 by {
        assert(cl.nodes[a].via is None);
    }
    lemma_cut(rules, roots, cl, 0, node_bound(rules, roots), d);
    if d == 0 {
        lemma_spread_rests(rules, cl, 0, node_bound(rules, roots), d);
    }
}

pub(crate) proof fn lemma_planted_bare(roots: Seq<AssetView>)
    ensures
        planted(roots).edges == Map::<Seq<char>, Seq<Seq<char>>>::empty(),
        planted(roots).unresolved == Map::<Seq<char>, UnresolvedView>::empty(),
        planted(roots).skipped_scripts == Map::<Seq<char>, AssetView>::empty(),
    decreases roots.len(),
{
    if roots.len() > 0 {
        lemma_planted_bare(roots.drop_last());
    }
}

// ----- reading a closure ---------------------------------------------------------------------

/// The node with a guid.
pub open spec fn node_with(nodes: Seq<NodeView>, guid: Seq<char>) -> Option<NodeView> {
    find(nodes, |n: NodeView| n.asset.guid == guid)
}

/// The assets of the nodes.
pub open spec fn node_assets(nodes: Seq<NodeView>) -> Seq<AssetView> {
    nodes.map_values(|n: NodeView| n.asset)
}

/// The sizes of some assets.
pub open spec fn sizes(s: Seq<AssetView>) -> Seq<i64> {
    s.map_values(|a: AssetView| a.size)
}

/// The sizes of some assets added up.
pub fn add_sizes(v: &Vec<Asset>) -> (r: i64)
    ensures
        r == size_sum(sizes(v.deep_view())),
{
    let ghost z = sizes(v.deep_view());
    let mut total: i64 = 0;
    let mut i: usize = 0;
    assert(z.take(0) =~= Seq::<i64>::empty());
    while i < v.len()
        invariant
            i <= v@.len(),
            z == sizes(v.deep_view()),
            z.len() == v@.len(),
            total == size_sum(z.take(i as int)),
        decreases v@.len() - i,
    {
        proof {
            assert(z[i as int] == v@[i as int]@.size);
            assert(z.take(i + 1).drop_last() =~= z.take(i as int));
            assert(z.take(i + 1).last() == z[i as int]);
        }
        total = total.wrapping_add(v[i].size);
        i += 1;
    }
    assert(z.take(z.len() as int) =~= z);
    total
}

/// The scripts among the nodes.
pub open spec fn script_nodes(nodes: Seq<NodeView>) -> Seq<NodeView> {
    nodes.filter(|n: NodeView| script_kind(n.asset.kind))
}

/// The packages of the nodes, in increasing order.
pub open spec fn package_ids(nodes: Seq<NodeView>) -> Seq<i64> {
    distinct(nodes.map_values(|n: NodeView| n.asset.package_id))
}

/// The nodes of each package.
pub open spec fn nodes_by_package(nodes: Seq<NodeView>) -> Seq<(i64, Seq<NodeView>)> {
    grouped(nodes, |n: NodeView| n.asset.package_id)
}

/// The packages with the given ids that the index has, by id and name.
pub open spec fn package_refs(db: DbView, ids: Seq<i64>) -> Seq<PackageRefView>
    decreases ids.len(),
{
    if ids.len() == 0 {
        Seq::empty()
    } else {
        let front = package_refs(db, ids.drop_last());
        match package_with_id(db, ids.last()) {
            Some(p) => front.push(PackageRefView { id: p.id, name: p.name }),
            None => front,
        }
    }
}

pub open spec fn closure_asset(n: NodeView) -> ClosureAssetView {
    ClosureAssetView { asset: n.asset, depth: n.depth, via: n.via, also_in_packages: n.ambiguous_in }
}

/// The order by depth, and then by path.
pub open spec fn by_depth() -> spec_fn(ClosureAssetView, ClosureAssetView) -> bool {
    |a: ClosureAssetView, b: ClosureAssetView|
        if a.depth != b.depth {
            a.depth <= b.depth
        } else {
            at_most(a.asset.path, b.asset.path)
        }
}

pub(crate) proof fn lemma_by_depth()
    ensures
        orders(by_depth()),
{
    assert forall|a: Seq<char>, b: Seq<char>| #[trigger] at_most(a, b) || at_most(b, a) by {
        at_most_is_total(a, b);
    }
    assert forall|a: Seq<char>, b: Seq<char>, c: Seq<char>| #[trigger]
        at_most(a, b) && #[trigger] at_most(b, c) implies at_most(a, c) by {
        at_most_is_transitive(a, b, c);
    }
}

/// The values of a map in the order of its keys.
pub open spec fn values_in_order<V>(m: Map<Seq<char>, V>) -> Seq<V> {
    ascending_of(m.dom()).map_values(|k: Seq<char>| m[k])
}

/// A closure for output: its assets by depth and path, what is unresolved and what was skipped by
/// guid.
pub open spec fn closure_out(db: DbView, cl: ClosureView) -> ClosureOutView {
    ClosureOutView {
        roots: cl.roots,
        assets: arranged(cl.nodes.map_values(|n: NodeView| closure_asset(n)), by_depth()),
        unresolved: values_in_order(cl.unresolved),
        skipped_scripts: values_in_order(cl.skipped_scripts),
        total_bytes: size_sum(sizes(node_assets(cl.nodes))),
        package_ids: package_ids(cl.nodes),
        packages: package_refs(db, package_ids(cl.nodes)),
        edges: cl.edges,
    }
}

fn copy_unresolved(m: &TextMap<Unresolved>) -> (r: Vec<Unresolved>)
    ensures
        r.deep_view() == values_in_order(m.deep_view()),
{
    let keys = m.keys();
    let n: usize = m.len();
    let ghost ks = keys.deep_view();
    let ghost f = |k: Seq<char>| m.deep_view()[k];
    let mut out: Vec<Unresolved> = Vec::new();
    let mut i: usize = 0;
    proof {
        assert(m.deep_view().dom() =~= m@.dom());
        assert(out.deep_view() =~= ks.take(0).map_values(f));
    }
    while i < n
        invariant
            i <= n,
            n == m.order().len(),
            ks == m.order(),
            f == (|k: Seq<char>| m.deep_view()[k]),
            out.deep_view() == ks.take(i as int).map_values(f),
        decreases n - i,
    {
        let ghost o0 = out.deep_view();
        let v = m.value_at(i).clone();
        let ghost vv = v@;
        out.push(v);
        proof {
            assert(vv == f(ks[i as int]));
            assert(out.deep_view() =~= o0.push(vv));
            assert(out.deep_view() =~= ks.take(i + 1).map_values(f));
        }
        i += 1;
    }
    assert(ks.take(ks.len() as int) =~= ks);
    out
}

pub fn copy_assets(m: &TextMap<Asset>) -> (r: Vec<Asset>)
    ensures
        r.deep_view() == values_in_order(m.deep_view()),
{
    let keys = m.keys();
    let n: usize = m.len();
    let ghost ks = keys.deep_view();
    let ghost f = |k: Seq<char>| m.deep_view()[k];
    let mut out: Vec<Asset> = Vec::new();
    let mut i: usize = 0;
    proof {
        assert(m.deep_view().dom() =~= m@.dom());
        assert(out.deep_view() =~= ks.take(0).map_values(f));
    }
    while i < n
        invariant
            i <= n,
            n == m.order().len(),
            ks == m.order(),
            f == (|k: Seq<char>| m.deep_view()[k]),
            out.deep_view() == ks.take(i as int).map_values(f),
        decreases n - i,
    {
        let ghost o0 = out.deep_view();
        let v = m.value_at(i).clone();
        let ghost vv = v@;
        out.push(v);
        proof {
            assert(vv == f(ks[i as int]));
            assert(out.deep_view() =~= o0.push(vv));
            assert(out.deep_view() =~= ks.take(i + 1).map_values(f));
        }
        i += 1;
    }
    assert(ks.take(ks.len() as int) =~= ks);
    out
}

impl Closure {
    /// The node with a guid.
    pub fn get(&self, guid: &str) -> (r: Option<&Node>)
        ensures
            match r {
                Some(n) => node_with(self@.nodes, guid@) == Some(n@),
                None => node_with(self@.nodes, guid@) is None,
            },
    {
        let ghost s = self@.nodes;
        let ghost p = |n: NodeView| n.asset.guid == guid@;
        let mut i: usize = 0;
        while i < self.nodes.len()
            invariant
                i <= self.nodes@.len(),
                s == self.nodes.deep_view(),
                p == (|n: NodeView| n.asset.guid == guid@),
                forall|j: int| 0 <= j < i ==> !p(#[trigger] s[j]),
                s == self@.nodes,
            decreases self.nodes@.len() - i,
        {
            assert(s[i as int] == self.nodes@[i as int]@);
            if same_text(self.nodes[i].asset.guid.as_str(), guid) {
                proof {
                    lemma_first_index(s, p, i as int);
                }
                return Some(&self.nodes[i]);
            }
            i += 1;
        }
        proof {
            lemma_first_index(s, p, s.len() as int);
        }
        None
    }

    pub fn contains(&self, guid: &str) -> (r: bool)
        ensures
            r == is_node(self@.nodes, guid@),
    {
        proof {
            let s = self@.nodes;
            let p = |n: NodeView| n.asset.guid == guid@;
            crate::seqs::lemma_first_index_bounds(s, p);
            if is_node(s, guid@) {
                let i = choose|i: int| 0 <= i < s.len() && (#[trigger] s[i]).asset.guid == guid@;
                if first_index(s, p) == s.len() {
                    assert(!p(s[i]));
                }
            }
        }
        self.get(guid).is_some()
    }

    /// The assets, in discovery order.
    pub fn assets(&self) -> (r: Vec<Asset>)
        ensures
            r.deep_view() == node_assets(self@.nodes),
    {
        let asset = |n: &Node| -> (a: Asset)
            ensures
                a@ == n@.asset,
            { n.asset.clone() };
        map_all(&self.nodes, asset, Ghost(|n: NodeView| n.asset))
    }

    pub fn total_bytes(&self) -> (r: i64)
        ensures
            r == size_sum(sizes(node_assets(self@.nodes))),
    {
        add_sizes(&self.assets())
    }

    /// The scripts among the nodes.
    pub fn scripts(&self) -> (r: Vec<Node>)
        ensures
            r.deep_view() == script_nodes(self@.nodes),
    {
        let ghost s = self@.nodes;
        let ghost p = |n: NodeView| script_kind(n.asset.kind);
        let mut out: Vec<Node> = Vec::new();
        let mut i: usize = 0;
        proof {
            lemma_filter_none(s, p);
            assert(out.deep_view() =~= s.take(0).filter(p));
        }
        while i < self.nodes.len()
            invariant
                i <= self.nodes@.len(),
                s == self.nodes.deep_view(),
                p == (|n: NodeView| script_kind(n.asset.kind)),
                out.deep_view() == s.take(i as int).filter(p),
            decreases self.nodes@.len() - i,
        {
            proof {
                lemma_filter_step(s, p, i as int);
                assert(s[i as int] == self.nodes@[i as int]@);
            }
            if is_listed(self.nodes[i].asset.kind.as_str(), SCRIPT_KINDS.as_slice()) {
                let ghost o0 = out.deep_view();
                out.push(self.nodes[i].clone());
                assert(out.deep_view() =~= o0.push(s[i as int]));
            }
            i += 1;
        }
        assert(s.take(s.len() as int) =~= s);
        out
    }

    /// The packages of the nodes, in increasing order.
    pub fn package_ids(&self) -> (r: Vec<i64>)
        ensures
            r@ == package_ids(self@.nodes),
            r.deep_view() == r@,
    {
        let ghost s = self@.nodes;
        let ghost key = |n: NodeView| n.asset.package_id;
        let mut keys: Vec<i64> = Vec::new();
        let mut i: usize = 0;
        while i < self.nodes.len()
            invariant
                i <= self.nodes@.len(),
                s == self.nodes.deep_view(),
                keys@.len() == i,
                forall|k: int| 0 <= k < i ==> keys@[k] == (#[trigger] s[k]).asset.package_id,
            decreases self.nodes@.len() - i,
        {
            assert(s[i as int] == self.nodes@[i as int]@);
            keys.push(self.nodes[i].asset.package_id);
            i += 1;
        }
        assert(keys@ =~= s.map_values(key));
        let r = distinct_ids(&keys);
        assert(r.deep_view() =~= r@);
        r
    }

    fn nodes_of(&self, pid: i64) -> (r: Vec<Node>)
        ensures
            r.deep_view() == group(self@.nodes, |n: NodeView| n.asset.package_id, pid),
    {
        let ghost s = self@.nodes;
        let ghost key = |n: NodeView| n.asset.package_id;
        let ghost p = keyed_by(key, pid);
        let mut out: Vec<Node> = Vec::new();
        let mut i: usize = 0;
        proof {
            lemma_filter_none(s, p);
            assert(out.deep_view() =~= s.take(0).filter(p));
        }
        while i < self.nodes.len()
            invariant
                i <= self.nodes@.len(),
                s == self.nodes.deep_view(),
                key == (|n: NodeView| n.asset.package_id),
                p == keyed_by(key, pid),
                out.deep_view() == s.take(i as int).filter(p),
            decreases self.nodes@.len() - i,
        {
            proof {
                lemma_filter_step(s, p, i as int);
                assert(s[i as int] == self.nodes@[i as int]@);
            }
            if self.nodes[i].asset.package_id == pid {
                let ghost o0 = out.deep_view();
                out.push(self.nodes[i].clone());
                assert(out.deep_view() =~= o0.push(s[i as int]));
            }
            i += 1;
        }
        assert(s.take(s.len() as int) =~= s);
        out
    }

    /// package_id -> nodes (sorted by package id)
    pub fn packages(&self) -> (r: Vec<(i64, Vec<Node>)>)
        ensures
            r.deep_view() == nodes_by_package(self@.nodes),
    {
        let ghost s = self@.nodes;
        let ghost key = |n: NodeView| n.asset.package_id;
        let ghost f = |id: i64| (id, group(s, key, id));
        let ids = self.package_ids();
        let mut out: Vec<(i64, Vec<Node>)> = Vec::new();
        let mut i: usize = 0;
        assert(out.deep_view() =~= ids@.take(0).map_values(f));
        while i < ids.len()
            invariant
                i <= ids@.len(),
                s == self@.nodes,
                key == (|n: NodeView| n.asset.package_id),
                f == (|id: i64| (id, group(s, key, id))),
                out.deep_view() == ids@.take(i as int).map_values(f),
            decreases ids@.len() - i,
        {
            let id: i64 = ids[i];
            let members = self.nodes_of(id);
            let ghost o0 = out.deep_view();
            let ghost mv = members.deep_view();
            out.push((id, members));
            proof {
                assert(out.deep_view() =~= o0.push((id, mv)));
                assert(out.deep_view() =~= ids@.take(i + 1).map_values(f));
            }
            i += 1;
        }
        assert(ids@.take(ids@.len() as int) =~= ids@);
        out
    }

    /// The closure for output.
    pub fn to_out(&self, db: &Database) -> (r: ClosureOut)
        ensures
            r@ == closure_out(db@, self@),
    {
        let shown = |n: &Node| -> (c: ClosureAsset)
            ensures
                c@ == closure_asset(n@),
            {
                let n = n.clone();
                ClosureAsset { asset: n.asset, depth: n.depth, via: n.via, also_in_packages: n.ambiguous_in }
            };
        let assets = map_all(&self.nodes, shown, Ghost(|n: NodeView| closure_asset(n)));
        proof {
            lemma_by_depth();
        }
        let assets = sort_by(
            assets,
            &(|a: &ClosureAsset, b: &ClosureAsset| -> (c: bool)
                ensures
                    c == by_depth()(a@, b@),
                {
                    if a.depth != b.depth {
                        a.depth <= b.depth
                    } else {
                        text_at_most(a.asset.path.as_str(), b.asset.path.as_str())
                    }
                }),
            Ghost(by_depth()),
        );
        let ids = self.package_ids();
        let mut packages: Vec<PackageRef> = Vec::new();
        let mut k: usize = 0;
        assert(ids@.take(0) =~= Seq::<i64>::empty());
        assert(packages.deep_view() =~= Seq::<PackageRefView>::empty());
        while k < ids.len()
            invariant
                k <= ids@.len(),
                packages.deep_view() == package_refs(db@, ids@.take(k as int)),
            decreases ids@.len() - k,
        {
            proof {
                assert(ids@.take(k + 1).drop_last() =~= ids@.take(k as int));
                assert(ids@.take(k + 1).last() == ids@[k as int]);
            }
            match db.package_by_id(ids[k]) {
                Some(p) => {
                    let ghost o0 = packages.deep_view();
                    let q = PackageRef { id: p.id, name: p.name };
                    let ghost qv = q@;
                    packages.push(q);
                    assert(packages.deep_view() =~= o0.push(qv));
                },
                None => {},
            }
            k += 1;
        }
        assert(ids@.take(ids@.len() as int) =~= ids@);
        let edges = self.edges.clone();
        assert(edges.deep_view() =~= self.edges.deep_view());
        ClosureOut {
            roots: clone_texts(&self.roots),
            assets,
            unresolved: copy_unresolved(&self.unresolved),
            skipped_scripts: copy_assets(&self.skipped_scripts),
            total_bytes: self.total_bytes(),
            package_ids: ids,
            packages,
            edges,
        }
    }
}

} // verus!
