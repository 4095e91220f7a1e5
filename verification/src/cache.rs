//! The local copy of a package: what is put into it, and what is read back.

use vstd::prelude::*;

use crate::config::{join_path, joined_path};
use crate::db::DbView;
use crate::error::ErrorView;
use crate::exporter::{
    all_well_named, cached_member, cached_members, cached_of, came, got_of, guid_map, is_whole, leaves,
    lemma_guid_map_finite, pack_export, slim_of, tally_is_what_came, tally_of, well_named, whole_files,
    written_assets_have_entries, CachedMember, CachedMemberView, Goal, PackExportView,
};
use crate::model::AssetView;
use crate::sorted::{ascending_of, finite_sets_are_listed, TextMap, TextSet};
use crate::text::{filled, is_hex, lower, lower_char, pieces, starts, Sep};
use crate::unitypackage::{
    early_stop_loses_nothing, entries_of, grouped, guid_shaped, lower_set, member_parts, member_view, picked,
    split_member_name, wanted_files, EntryView, Member, MemberView, ScanOptions, TarMember, TarMemberView,
};

verus! {

/// A file of a local copy.
#[derive(Debug)]
pub struct CachedFile {
    pub mtime: u64,
    pub data: Vec<u8>,
}

/// What a [`CachedFile`] holds.
#[verifier::ext_equal]
pub struct CachedFileView {
    pub mtime: u64,
    pub data: Seq<u8>,
}

impl View for CachedFile {
    type V = CachedFileView;

    open spec fn view(&self) -> CachedFileView {
        CachedFileView { mtime: self.mtime, data: self.data.deep_view() }
    }
}

impl DeepView for CachedFile {
    type V = CachedFileView;

    open spec fn deep_view(&self) -> CachedFileView {
        self.view()
    }
}

// ----- filling -------------------------------------------------------------------------------

/// Where a member of a package goes in the local copy, if it does: only the files of guid
/// directories do.
pub open spec fn cache_spot(dir: Seq<char>, name: Seq<char>, is_file: bool) -> Option<Seq<char>> {
    match member_parts(name) {
        Some((guid, Some(leaf))) => if is_file {
            Some(joined_path(joined_path(dir, guid), leaf))
        } else {
            None
        },
        _ => None,
    }
}

/// Where a member of a package goes in the local copy at `dir`, if it does.
pub fn cache_file(dir: &str, name: &str, is_file: bool) -> (r: Option<String>)
    ensures
        r.deep_view() == cache_spot(dir@, name@, is_file),
{
    match split_member_name(name) {
        Some((guid, Some(leaf))) => if is_file {
            Some(join_path(join_path(dir, guid.as_str()).as_str(), leaf.as_str()))
        } else {
            None
        },
        _ => None,
    }
}

/// The local copy of a package at `dir`, written at the time `now`.
pub open spec fn cache_of(dir: Seq<char>, ms: Seq<TarMemberView>, now: u64) -> Map<Seq<char>, CachedFileView>
    decreases ms.len(),
{
    if ms.len() == 0 {
        Map::empty()
    } else {
        let front = cache_of(dir, ms.drop_last(), now);
        let m = ms.last();
        match cache_spot(dir, m.name, m.is_file) {
            Some(path) => front.insert(path, CachedFileView { mtime: now, data: m.data }),
            None => front,
        }
    }
}

/// The local copy of a package, by path.
pub fn fill_cache(dir: &str, members: &Vec<TarMember>, now: u64) -> (r: TextMap<CachedFile>)
    ensures
        r.deep_view() == cache_of(dir@, members.deep_view(), now),
{
    let ghost ms = members.deep_view();
    let mut out: TextMap<CachedFile> = TextMap::new();
    let mut i: usize = 0;
    assert(ms.take(0) =~= Seq::<TarMemberView>::empty());
    assert(out.deep_view() =~= Map::<Seq<char>, CachedFileView>::empty());
    while i < members.len()
        invariant
            i <= members@.len(),
            ms == members.deep_view(),
            out.deep_view() == cache_of(dir@, ms.take(i as int), now),
        decreases members@.len() - i,
    {
        let m = &members[i];
        let ghost o0 = out.deep_view();
        proof {
            assert(ms.take(i + 1).drop_last() =~= ms.take(i as int));
            assert(ms.take(i + 1).last() == m@);
        }
        match cache_file(dir, m.name.as_str(), m.is_file) {
            Some(path) => {
                let f = CachedFile { mtime: now, data: m.data.clone() };
                assert(f.data.deep_view() =~= m.data.deep_view());
                let ghost fv = f@;
                let ghost pv = path@;
                out.insert(path, f);
                assert(out.deep_view() =~= o0.insert(pv, fv));
            },
            None => {},
        }
        i += 1;
    }
    assert(ms.take(ms.len() as int) =~= ms);
    out
}

// ----- reading -------------------------------------------------------------------------------

/// What is there of the members that are looked for.
pub open spec fn found_of(list: Seq<CachedMemberView>, files: Map<Seq<char>, CachedFileView>) -> Seq<MemberView>
    decreases list.len(),
{
    if list.len() == 0 {
        Seq::empty()
    } else {
        let front = found_of(list.drop_last(), files);
        let c = list.last();
        if files.contains_key(c.path) {
            let f = files[c.path];
            front.push(
                MemberView { guid: c.guid, leaf: c.leaf, size: f.data.len() as u64, mtime: f.mtime, data: f.data },
            )
        } else {
            front
        }
    }
}

/// Reads the members of the wanted guids out of the local copy of a package at `dir`.
pub fn read_cached(dir: &str, guids: &TextSet, files: &TextMap<CachedFile>) -> (r: Vec<Member>)
    ensures
        r.deep_view() == found_of(cached_of(dir@, ascending_of(guids@)), files.deep_view()),
{
    let list: Vec<CachedMember> = cached_members(dir, guids);
    let ghost ls = list.deep_view();
    let ghost fs = files.deep_view();
    let mut out: Vec<Member> = Vec::new();
    let mut i: usize = 0;
    assert(ls.take(0) =~= Seq::<CachedMemberView>::empty());
    assert(out.deep_view() =~= Seq::<MemberView>::empty());
    assert(fs.dom() =~= files@.dom());
    while i < list.len()
        invariant
            i <= list@.len(),
            ls == list.deep_view(),
            fs == files.deep_view(),
            fs.dom() == files@.dom(),
            out.deep_view() == found_of(ls.take(i as int), fs),
        decreases list@.len() - i,
    {
        let c = &list[i];
        let ghost o0 = out.deep_view();
        proof {
            assert(ls.take(i + 1).drop_last() =~= ls.take(i as int));
            assert(ls.take(i + 1).last() == c@);
        }
        match files.get(c.path.as_str()) {
            Some(f) => {
                let m = Member {
                    guid: c.guid.clone(),
                    leaf: c.leaf.clone(),
                    size: f.data.len() as u64,
                    mtime: f.mtime,
                    data: f.data.clone(),
                };
                proof {
                    assert(fs[c@.path] == f@);
                    assert(m.data.deep_view() =~= f.data.deep_view());
                }
                let ghost mv = m@;
                out.push(m);
                assert(out.deep_view() =~= o0.push(mv));
            },
            None => {},
        }
        i += 1;
    }
    assert(ls.take(ls.len() as int) =~= ls);
    out
}

// ----- laws ----------------------------------------------------------------------------------

/// Whether a package holds a file of a guid directory.
pub open spec fn packed(ms: Seq<TarMemberView>, guid: Seq<char>, leaf: Seq<char>) -> bool {
    exists|i: int|
        0 <= i < ms.len() && (#[trigger] ms[i]).is_file && member_parts(ms[i].name) == Some((guid, Some(leaf)))
}

proof fn lemma_wanted_came(ms: Seq<TarMemberView>, wanted: Set<Seq<char>>, g: Seq<char>, leaf: Seq<char>)
    requires
        wanted.contains(g),
    ensures
        came(wanted_files(ms, wanted), g, leaf) <==> packed(ms, g, leaf),
    decreases ms.len(),
{
    if ms.len() > 0 {
        let rest = ms.drop_first();
        lemma_wanted_came(rest, wanted, g, leaf);
        let tail = wanted_files(rest, wanted);
        let all = wanted_files(ms, wanted);
        if came(tail, g, leaf) {
            let k = choose|k: int| 0 <= k < tail.len() && (#[trigger] tail[k]).guid == g && tail[k].leaf == leaf;
            assert(all[k + (all.len() - tail.len())] == tail[k]);
        }
        if packed(rest, g, leaf) {
            let k = choose|k: int|
                0 <= k < rest.len() && (#[trigger] rest[k]).is_file && member_parts(rest[k].name) == Some(
                    (g, Some(leaf)),
                );
            assert(ms[k + 1] == rest[k]);
        }
        if packed(ms, g, leaf) {
            let k = choose|k: int|
                0 <= k < ms.len() && (#[trigger] ms[k]).is_file && member_parts(ms[k].name) == Some((g, Some(leaf)));
            if k > 0 {
                assert(rest[k - 1] == ms[k]);
                assert(packed(rest, g, leaf));
            } else {
                assert(all[0] == member_view(ms[0], g, leaf));
                assert(all[0].guid == g && all[0].leaf == leaf);
            }
        }
        if came(all, g, leaf) {
            let k = choose|k: int| 0 <= k < all.len() && (#[trigger] all[k]).guid == g && all[k].leaf == leaf;
            if all.len() == tail.len() {
                assert(all =~= tail);
            } else if k > 0 {
                assert(tail[k - 1] == all[k]);
            } else {
                assert(ms[0].is_file);
            }
        }
    }
}

/// A guid and a leaf, as the name of a member gives them.
spec fn proper(guid: Seq<char>, leaf: Seq<char>) -> bool {
    guid_shaped(guid) && leaf.len() > 0 && !leaf.contains('/')
}

proof fn lemma_paths_differ(dir: Seq<char>, g: Seq<char>, l: Seq<char>, h: Seq<char>, m: Seq<char>)
    requires
        proper(g, l),
        proper(h, m),
    ensures
        joined_path(joined_path(dir, g), l) == joined_path(joined_path(dir, h), m) <==> g == h && l == m,
{
    reveal_strlit("/");
    assert(is_hex(g[0]) && is_hex(h[0]) && is_hex(g[31]) && is_hex(h[31]));
    assert(l.contains(l[0]) && m.contains(m[0]));
    let (a, b) = (joined_path(dir, g), joined_path(dir, h));
    assert(a.last() == g[31] && b.last() == h[31]);
    let (x, y) = (joined_path(a, l), joined_path(b, m));
    assert(x == a + "/"@ + l && y == b + "/"@ + m);
    let n = a.len() - 32;
    assert(a.len() == b.len());
    assert(a.skip(n) =~= g);
    assert(b.skip(n) =~= h);
    if x == y {
        assert(x.subrange(n, n + 32) =~= g);
        assert(y.subrange(n, n + 32) =~= h);
        assert(x.skip(n + 33) =~= l);
        assert(y.skip(n + 33) =~= m);
    }
}

pub(crate) proof fn lemma_no_slash_in_pieces(s: Seq<char>, i: int)
    requires
        0 <= i < pieces(s, Sep::Is('/')).len(),
    ensures
        !pieces(s, Sep::Is('/'))[i].contains('/'),
    decreases s.len(),
{
    if s.len() > 0 {
        let front = pieces(s.drop_last(), Sep::Is('/'));
        crate::text::lemma_pieces_nonempty(s.drop_last(), Sep::Is('/'));
        let all = pieces(s, Sep::Is('/'));
        if i < front.len() {
            lemma_no_slash_in_pieces(s.drop_last(), i);
            if i == front.len() - 1 && s.last() != '/' {
                let p = all[i];
                if p.contains('/') {
                    let k = choose|k: int| 0 <= k < p.len() && p[k] == '/';
                    assert(front[i][k] == '/');
                }
            }
        }
    }
}

proof fn lemma_parts_are_proper(name: Seq<char>)
    ensures
        member_parts(name) matches Some((guid, Some(leaf))) ==> proper(guid, leaf) && lower(guid) == guid,
{
    if let Some((guid, Some(leaf))) = member_parts(name) {
        let rest = if starts(name, "./"@) {
            name.skip("./"@.len() as int)
        } else {
            name
        };
        let ps = pieces(rest, Sep::Is('/'));
        let p = |x: Seq<char>| x.len() > 0;
        let parts = filled(ps);
        assert(parts.contains(parts[1]));
        crate::seqs::lemma_filter_has(ps, p, parts[1]);
        let k = choose|k: int| 0 <= k < ps.len() && ps[k] == parts[1];
        lemma_no_slash_in_pieces(rest, k);
        assert forall|i: int| 0 <= i < guid.len() implies is_hex(#[trigger] guid[i]) && lower_char(guid[i]) == guid[i] by {
            assert(is_hex(parts[0][i]));
        }
        assert(lower(guid) =~= guid);
    }
}

proof fn lemma_cache_holds(dir: Seq<char>, ms: Seq<TarMemberView>, now: u64, g: Seq<char>, leaf: Seq<char>)
    requires
        proper(g, leaf),
    ensures
        cache_of(dir, ms, now).contains_key(joined_path(joined_path(dir, g), leaf)) <==> packed(ms, g, leaf),
    decreases ms.len(),
{
    if ms.len() > 0 {
        let rest = ms.drop_last();
        let m = ms.last();
        lemma_cache_holds(dir, rest, now, g, leaf);
        lemma_parts_are_proper(m.name);
        if let Some((h, Some(l))) = member_parts(m.name) {
            lemma_paths_differ(dir, g, leaf, h, l);
        }
        if packed(rest, g, leaf) {
            let k = choose|k: int|
                0 <= k < rest.len() && (#[trigger] rest[k]).is_file && member_parts(rest[k].name) == Some(
                    (g, Some(leaf)),
                );
            assert(ms[k] == rest[k]);
        }
        if packed(ms, g, leaf) {
            let k = choose|k: int|
                0 <= k < ms.len() && (#[trigger] ms[k]).is_file && member_parts(ms[k].name) == Some((g, Some(leaf)));
            if k < rest.len() {
                assert(rest[k] == ms[k]);
            }
        }
        if m.is_file && member_parts(m.name) == Some((g, Some(leaf))) {
            assert(ms[ms.len() - 1] == m);
        }
    }
}

proof fn lemma_found_came(
    list: Seq<CachedMemberView>,
    files: Map<Seq<char>, CachedFileView>,
    g: Seq<char>,
    leaf: Seq<char>,
)
    ensures
        came(found_of(list, files), g, leaf) <==> exists|k: int|
            0 <= k < list.len() && (#[trigger] list[k]).guid == g && list[k].leaf == leaf && files.contains_key(
                list[k].path,
            ),
    decreases list.len(),
{
    if list.len() > 0 {
        let rest = list.drop_last();
        let c = list.last();
        lemma_found_came(rest, files, g, leaf);
        let front = found_of(rest, files);
        let all = found_of(list, files);
        if came(front, g, leaf) {
            let k = choose|k: int| 0 <= k < front.len() && (#[trigger] front[k]).guid == g && front[k].leaf == leaf;
            assert(all[k] == front[k]);
            let j = choose|j: int|
                0 <= j < rest.len() && (#[trigger] rest[j]).guid == g && rest[j].leaf == leaf && files.contains_key(
                    rest[j].path,
                );
            assert(list[j] == rest[j]);
        }
        if came(all, g, leaf) {
            let k = choose|k: int| 0 <= k < all.len() && (#[trigger] all[k]).guid == g && all[k].leaf == leaf;
            if k < front.len() {
                assert(front[k] == all[k]);
            } else {
                assert(list[list.len() - 1] == c);
            }
        }
        if exists|k: int|
            0 <= k < list.len() && (#[trigger] list[k]).guid == g && list[k].leaf == leaf && files.contains_key(
                list[k].path,
            ) {
            let k = choose|k: int|
                0 <= k < list.len() && (#[trigger] list[k]).guid == g && list[k].leaf == leaf && files.contains_key(
                    list[k].path,
                );
            if k < rest.len() {
                assert(rest[k] == list[k]);
            } else {
                assert(all[all.len() - 1].guid == g && all[all.len() - 1].leaf == leaf);
            }
        }
    }
}

proof fn lemma_looked_for(dir: Seq<char>, gs: Seq<Seq<char>>, i: int, n: int) -> (k: int)
    requires
        0 <= i < gs.len(),
        0 <= n < leaves().len(),
    ensures
        0 <= k < cached_of(dir, gs).len(),
        cached_of(dir, gs)[k] == cached_member(dir, gs[i], leaves()[n]),
    decreases gs.len(),
{
    let front = cached_of(dir, gs.drop_last());
    if i < gs.len() - 1 {
        lemma_looked_for(dir, gs.drop_last(), i, n)
    } else {
        front.len() + n
    }
}

proof fn lemma_all_are_cached_members(dir: Seq<char>, gs: Seq<Seq<char>>, k: int)
    requires
        0 <= k < cached_of(dir, gs).len(),
    ensures
        ({
            let c = cached_of(dir, gs)[k];
            c.path == joined_path(joined_path(dir, c.guid), c.leaf)
        }),
    decreases gs.len(),
{
    let front = cached_of(dir, gs.drop_last());
    if k < front.len() {
        lemma_all_are_cached_members(dir, gs.drop_last(), k);
    }
}

/// The local copy of a package and the package itself give the same members: a leaf of a wanted guid
/// comes from one exactly where it comes from the other.
pub proof fn cache_gives_what_the_package_has(
    dir: Seq<char>,
    ms: Seq<TarMemberView>,
    now: u64,
    gs: Seq<Seq<char>>,
    i: int,
    n: int,
)
    requires
        grouped(ms),
        0 <= i < gs.len(),
        guid_shaped(gs[i]),
        0 <= n < leaves().len(),
    ensures
        came(found_of(cached_of(dir, gs), cache_of(dir, ms, now)), lower(gs[i]), leaves()[n]) <==> came(
            picked(ms, lower_set(gs), lower_set(gs)),
            lower(gs[i]),
            leaves()[n],
        ),
{
    reveal_strlit("asset");
    reveal_strlit("asset.meta");
    reveal_strlit("pathname");
    reveal_strlit("preview.png");
    let g = lower(gs[i]);
    let leaf = leaves()[n];
    let files = cache_of(dir, ms, now);
    let list = cached_of(dir, gs);
    assert(proper(g, leaf)) by {
        assert forall|k: int| 0 <= k < g.len() implies is_hex(#[trigger] g[k]) by {
            assert(is_hex(gs[i][k]));
        }
        if leaf.contains('/') {
            let k = choose|k: int| 0 <= k < leaf.len() && leaf[k] == '/';
        }
    }
    early_stop_loses_nothing(ms, lower_set(gs));
    assert(lower_set(gs).contains(g));
    lemma_wanted_came(ms, lower_set(gs), g, leaf);
    lemma_cache_holds(dir, ms, now, g, leaf);
    lemma_found_came(list, files, g, leaf);
    let at = lemma_looked_for(dir, gs, i, n);
    assert(list[at].guid == g && list[at].leaf == leaf);
    if came(found_of(list, files), g, leaf) {
        let k = choose|k: int|
            0 <= k < list.len() && (#[trigger] list[k]).guid == g && list[k].leaf == leaf && files.contains_key(
                list[k].path,
            );
        lemma_all_are_cached_members(dir, gs, k);
    }
}

proof fn lemma_same_whole(
    goal: Goal,
    todo: Map<Seq<char>, AssetView>,
    a: Seq<MemberView>,
    b: Seq<MemberView>,
    guids: Seq<Seq<char>>,
)
    requires
        forall|i: int| 0 <= i < guids.len() ==> (is_whole(
            goal,
            todo[#[trigger] guids[i]],
            got_of(tally_of(goal, todo, a), guids[i]),
        ) <==> is_whole(goal, todo[guids[i]], got_of(tally_of(goal, todo, b), guids[i]))),
    ensures
        whole_files(goal, todo, tally_of(goal, todo, a), guids) == whole_files(goal, todo, tally_of(goal, todo, b), guids),
    decreases guids.len(),
{
    if guids.len() > 0 {
        let rest = guids.drop_last();
        assert forall|i: int| 0 <= i < rest.len() implies (is_whole(
            goal,
            todo[#[trigger] rest[i]],
            got_of(tally_of(goal, todo, a), rest[i]),
        ) <==> is_whole(goal, todo[rest[i]], got_of(tally_of(goal, todo, b), rest[i]))) by {
            assert(rest[i] == guids[i]);
        }
        lemma_same_whole(goal, todo, a, b, rest);
        assert(guids[guids.len() - 1] == guids.last());
    }
}

/// An export from the local copy of a package writes the same assets as one from the package, whether
/// into a directory or into another package.
pub proof fn cached_exports_write_the_same(
    goal: Goal,
    todo: Map<Seq<char>, AssetView>,
    dir: Seq<char>,
    ms: Seq<TarMemberView>,
    now: u64,
)
    requires
        grouped(ms),
        todo.dom().finite(),
        forall|g: Seq<char>| #[trigger] todo.contains_key(g) ==> guid_shaped(g) && lower(g) == g,
    ensures
        ({
            let guids = ascending_of(todo.dom());
            let a = picked(ms, lower_set(guids), lower_set(guids));
            let b = found_of(cached_of(dir, guids), cache_of(dir, ms, now));
            whole_files(goal, todo, tally_of(goal, todo, b), guids) == whole_files(
                goal,
                todo,
                tally_of(goal, todo, a),
                guids,
            )
        }),
{
    let guids = ascending_of(todo.dom());
    let a = picked(ms, lower_set(guids), lower_set(guids));
    let b = found_of(cached_of(dir, guids), cache_of(dir, ms, now));
    finite_sets_are_listed(todo.dom());
    assert forall|i: int| 0 <= i < guids.len() implies (is_whole(
        goal,
        todo[#[trigger] guids[i]],
        got_of(tally_of(goal, todo, b), guids[i]),
    ) <==> is_whole(goal, todo[guids[i]], got_of(tally_of(goal, todo, a), guids[i]))) by {
        let g = guids[i];
        assert(guids.to_set().contains(g));
        assert(todo.contains_key(g));
        cache_gives_what_the_package_has(dir, ms, now, guids, i, 0);
        cache_gives_what_the_package_has(dir, ms, now, guids, i, 1);
        tally_is_what_came(goal, todo, a, g);
        tally_is_what_came(goal, todo, b, g);
        assert(leaves()[0] == "asset"@ && leaves()[1] == "asset.meta"@);
    }
    lemma_same_whole(goal, todo, b, a, guids);
}

/// The guids that are wanted of a package.
pub open spec fn wanted_of(assets: Seq<AssetView>) -> Seq<Seq<char>> {
    ascending_of(guid_map(assets).dom())
}

/// Two exports that wrote the same: the same assets in the same order, or the same failure.
pub open spec fn wrote_the_same(a: Result<PackExportView, ErrorView>, b: Result<PackExportView, ErrorView>) -> bool {
    match (a, b) {
        (Ok(x), Ok(y)) => x.result.written == y.result.written && x.log == y.log,
        (Err(e), Err(f)) => e == f,
        _ => false,
    }
}

/// An export of any number of packages into a slim package writes the same assets whether one of the
/// packages is read from its file or from its local copy. Either way every written asset has an entry
/// in the slim package.
pub proof fn cached_packages_export_the_same(
    db: DbView,
    groups: Seq<(i64, Seq<AssetView>)>,
    sources: Seq<Seq<MemberView>>,
    k: int,
    dir: Seq<char>,
    ms: Seq<TarMemberView>,
    now: u64,
    out_file: Seq<char>,
    opts: ScanOptions,
)
    requires
        sources.len() == groups.len(),
        all_well_named(sources),
        0 <= k < groups.len(),
        grouped(ms),
        forall|i: int|
            0 <= i < groups[k].1.len() ==> guid_shaped((#[trigger] groups[k].1[i]).guid) && lower(groups[k].1[i].guid)
                == groups[k].1[i].guid,
        sources[k] == picked(ms, lower_set(wanted_of(groups[k].1)), lower_set(wanted_of(groups[k].1))),
    ensures
        ({
            let copy = found_of(cached_of(dir, wanted_of(groups[k].1)), cache_of(dir, ms, now));
            let cached = sources.update(k, copy);
            let (a, b) = (slim_of(db, groups, sources, out_file), slim_of(db, groups, cached, out_file));
            &&& wrote_the_same(
                pack_export(db, groups, sources, groups.len()),
                pack_export(db, groups, cached, groups.len()),
            )
            &&& a is Ok && b is Ok ==> a->Ok_0.result.written == b->Ok_0.result.written
            &&& pack_export(db, groups, sources, groups.len()) matches Ok(st) ==> all_entered(st, opts)
            &&& pack_export(db, groups, cached, groups.len()) matches Ok(st) ==> all_entered(st, opts)
        }),
{
    let assets = groups[k].1;
    let copy = found_of(cached_of(dir, wanted_of(assets)), cache_of(dir, ms, now));
    lemma_guid_map_finite(assets);
    assert forall|g: Seq<char>| #[trigger] guid_map(assets).contains_key(g) implies guid_shaped(g) && lower(g) == g by {
        let i = choose|i: int| 0 <= i < assets.len() && (#[trigger] assets[i]).guid == g;
        assert(guid_shaped(groups[k].1[i].guid));
    }
    cached_exports_write_the_same(Goal::Repack, guid_map(assets), dir, ms, now);
    lemma_exports_alike(db, groups, sources, k, copy, groups.len());
    let cached = sources.update(k, copy);
    finite_sets_are_listed(guid_map(assets).dom());
    assert forall|j: int| 0 <= j < wanted_of(assets).len() implies guid_shaped(#[trigger] wanted_of(assets)[j]) by {
        assert(wanted_of(assets).to_set().contains(wanted_of(assets)[j]));
        assert(guid_map(assets).contains_key(wanted_of(assets)[j]));
    }
    assert forall|h: int, j: int| 0 <= h < cached.len() && 0 <= j < cached[h].len() implies well_named(
        #[trigger] cached[h][j],
    ) by {
        if h == k {
            copied_members_are_well_named(dir, wanted_of(assets), cache_of(dir, ms, now), j);
        } else {
            assert(cached[h][j] == sources[h][j]);
        }
    }
    lemma_all_entered(db, groups, sources, opts);
    lemma_all_entered(db, groups, cached, opts);
}

/// Whether every written asset has an entry in the slim package.
pub open spec fn all_entered(st: PackExportView, opts: ScanOptions) -> bool {
    forall|i: int|
        0 <= i < st.result.written.len() ==> has_entry(
            entries_of(st.members, opts),
            (#[trigger] st.result.written[i]).guid,
        )
}

/// Whether some entries hold one with a guid.
pub open spec fn has_entry(entries: Seq<EntryView>, guid: Seq<char>) -> bool {
    exists|k: int| 0 <= k < entries.len() && (#[trigger] entries[k]).guid == guid
}

proof fn lemma_all_entered(
    db: DbView,
    groups: Seq<(i64, Seq<AssetView>)>,
    sources: Seq<Seq<MemberView>>,
    opts: ScanOptions,
)
    requires
        sources.len() == groups.len(),
        all_well_named(sources),
    ensures
        pack_export(db, groups, sources, groups.len()) matches Ok(st) ==> all_entered(st, opts),
{
    if let Ok(st) = pack_export(db, groups, sources, groups.len()) {
        assert forall|i: int| 0 <= i < st.result.written.len() implies has_entry(
            entries_of(st.members, opts),
            (#[trigger] st.result.written[i]).guid,
        ) by {
            let k = written_assets_have_entries(db, groups, sources, st, i, opts);
            assert(entries_of(st.members, opts)[k].guid == st.result.written[i].guid);
        }
    }
}

proof fn lemma_exports_alike(
    db: DbView,
    groups: Seq<(i64, Seq<AssetView>)>,
    sources: Seq<Seq<MemberView>>,
    k: int,
    copy: Seq<MemberView>,
    n: nat,
)
    requires
        n <= groups.len() == sources.len(),
        0 <= k < groups.len(),
        ({
            let todo = guid_map(groups[k].1);
            let guids = wanted_of(groups[k].1);
            whole_files(Goal::Repack, todo, tally_of(Goal::Repack, todo, copy), guids) == whole_files(
                Goal::Repack,
                todo,
                tally_of(Goal::Repack, todo, sources[k]),
                guids,
            )
        }),
    ensures
        wrote_the_same(pack_export(db, groups, sources, n), pack_export(db, groups, sources.update(k, copy), n)),
    decreases n,
{
    if n > 0 {
        lemma_exports_alike(db, groups, sources, k, copy, (n - 1) as nat);
    }
}

/// The members that come out of a package can be told by their names.
pub proof fn picked_members_are_well_named(
    ms: Seq<TarMemberView>,
    wanted: Set<Seq<char>>,
    remaining: Set<Seq<char>>,
    i: int,
)
    requires
        0 <= i < picked(ms, wanted, remaining).len(),
    ensures
        well_named(picked(ms, wanted, remaining)[i]),
    decreases ms.len(),
{
    let rest = ms.drop_first();
    lemma_parts_are_proper(ms.first().name);
    match member_parts(ms.first().name) {
        None => picked_members_are_well_named(rest, wanted, remaining, i),
        Some((guid, leaf)) => {
            if !wanted.contains(guid) {
                picked_members_are_well_named(rest, wanted, remaining, i);
            } else {
                let tail = picked(rest, wanted, remaining.remove(guid));
                let all = picked(ms, wanted, remaining);
                let d = all.len() - tail.len();
                if i >= d {
                    picked_members_are_well_named(rest, wanted, remaining.remove(guid), i - d);
                    assert(all[i] == tail[i - d]);
                }
            }
        },
    }
}

/// The members that come out of a local copy can be told by their names.
pub proof fn copied_members_are_well_named(
    dir: Seq<char>,
    gs: Seq<Seq<char>>,
    files: Map<Seq<char>, CachedFileView>,
    i: int,
)
    requires
        forall|j: int| 0 <= j < gs.len() ==> guid_shaped(#[trigger] gs[j]),
        0 <= i < found_of(cached_of(dir, gs), files).len(),
    ensures
        well_named(found_of(cached_of(dir, gs), files)[i]),
{
    let list = cached_of(dir, gs);
    let m = found_of(list, files)[i];
    lemma_found_came(list, files, m.guid, m.leaf);
    assert(came(found_of(list, files), m.guid, m.leaf));
    let k = choose|k: int|
        0 <= k < list.len() && (#[trigger] list[k]).guid == m.guid && list[k].leaf == m.leaf && files.contains_key(
            list[k].path,
        );
    lemma_looked_for_are_well_named(dir, gs, k);
}

proof fn lemma_looked_for_are_well_named(dir: Seq<char>, gs: Seq<Seq<char>>, k: int)
    requires
        forall|j: int| 0 <= j < gs.len() ==> guid_shaped(#[trigger] gs[j]),
        0 <= k < cached_of(dir, gs).len(),
    ensures
        ({
            let c = cached_of(dir, gs)[k];
            proper(c.guid, c.leaf) && lower(c.guid) == c.guid
        }),
    decreases gs.len(),
{
    let front = cached_of(dir, gs.drop_last());
    if k < front.len() {
        assert forall|j: int| 0 <= j < gs.drop_last().len() implies guid_shaped(#[trigger] gs.drop_last()[j]) by {
            assert(gs.drop_last()[j] == gs[j]);
        }
        lemma_looked_for_are_well_named(dir, gs.drop_last(), k);
    } else {
        reveal_strlit("asset");
        reveal_strlit("asset.meta");
        reveal_strlit("pathname");
        reveal_strlit("preview.png");
        let c = cached_of(dir, gs)[k];
        let g = gs[gs.len() - 1];
        assert(c == cached_member(dir, g, leaves()[k - front.len()]));
        assert(guid_shaped(g));
        assert forall|i: int| 0 <= i < c.guid.len() implies is_hex(#[trigger] c.guid[i]) && lower_char(c.guid[i])
            == c.guid[i] by {
            assert(is_hex(g[i]));
        }
        assert(lower(c.guid) =~= c.guid);
        if c.leaf.contains('/') {
            let j = choose|j: int| 0 <= j < c.leaf.len() && c.leaf[j] == '/';
        }
    }
}

} // verus!
