//! What an export promises: what becomes of every planned asset, and what is written.

use vstd::prelude::*;

use crate::config::joined_path;
use crate::db::DbView;
use crate::exporter::{
    came, conflicts_among, dir_export, dry_run_counts_what_is_due, due_among, every_file_is_reported, file_of,
    files_are_placed_where_due, first_guid, got_of, guid_in_line, guid_map, kept_among, lemma_guid_map_finite,
    member_read, meta_guid_of, missing_files, pack_export, package_exported, package_of, packed_member, packed_members,
    placed_files, placement_of, project_guids, rehearsed, sifted, spared, tallied, tally_is_what_came, tally_of,
    unpacked, whole_files, without_meta, DirExportView, Goal, MetaFileView, PlacedFileView, Site, TurnView,
};
use crate::model::{AssetView, ConflictView, ExportResultView, MissingMemberView, WrittenFileView};
use crate::outside::lossy_of;
use crate::sorted::{ascending_of, finite_sets_are_listed};
use crate::text::{ends, is_hex, lower, pieces, replaced, trim, Sep};
use crate::unitypackage::{lower_set, members_read, MemberView, TarMemberView, UnpackedView};

verus! {

// ----- the fate of an asset ------------------------------------------------------------------

/// Whether the project has the guid of an asset at a path that differs in more than ASCII case: the
/// whole paths count, not the names of the files.
pub open spec fn elsewhere(guids: Map<Seq<char>, Seq<char>>, a: AssetView) -> bool {
    guids.contains_key(a.guid) && lower(guids[a.guid]) != lower(a.path)
}

/// The file by which an asset counts as being there: its own, for a folder that of its import settings.
pub open spec fn own_file(dest: Seq<char>, a: AssetView) -> Seq<char> {
    if a.is_folder {
        joined_path(dest, a.path) + ".meta"@
    } else {
        joined_path(dest, a.path)
    }
}

/// Whether no other asset has the guid of the one at `i`.
pub open spec fn alone(assets: Seq<AssetView>, i: int) -> bool {
    forall|j: int| 0 <= j < assets.len() && j != i ==> (#[trigger] assets[j]).guid != assets[i].guid
}

proof fn lemma_fates(site: Site, assets: Seq<AssetView>, i: int)
    requires
        0 <= i < assets.len(),
        alone(assets, i),
    ensures
        ({
            let a = assets[i];
            let clash = elsewhere(site.guids, a);
            let there = site.exists.contains(own_file(site.dest, a));
            &&& conflicts_among(site, assets).contains(
                ConflictView { guid: a.guid, path: a.path, existing_path: site.guids[a.guid] },
            ) <==> clash
            &&& kept_among(site, assets).contains(WrittenFileView { guid: a.guid, path: a.path, bytes: a.size }) <==> (
            !clash && there && !site.force)
            &&& due_among(site, assets).contains_key(a.guid) <==> !clash && (!there || site.force)
            &&& due_among(site, assets).contains_key(a.guid) ==> due_among(site, assets)[a.guid] == a
        }),
    decreases assets.len(),
{
    let a = assets[i];
    let rest = assets.drop_last();
    let c = ConflictView { guid: a.guid, path: a.path, existing_path: site.guids[a.guid] };
    let f = WrittenFileView { guid: a.guid, path: a.path, bytes: a.size };
    let cs = conflicts_among(site, assets);
    let cr = conflicts_among(site, rest);
    let ks = kept_among(site, assets);
    let kr = kept_among(site, rest);
    if i < rest.len() {
        assert forall|j: int| 0 <= j < rest.len() && j != i implies (#[trigger] rest[j]).guid != rest[i].guid by {
            assert(assets[j].guid != assets[i].guid);
        }
        assert(rest[i] == a);
        lemma_fates(site, rest, i);
        assert(assets[assets.len() - 1].guid != a.guid);
        if cr.contains(c) {
            let k = choose|k: int| 0 <= k < cr.len() && cr[k] == c;
            assert(cs[k] == c);
        }
        if cs.contains(c) {
            let k = choose|k: int| 0 <= k < cs.len() && cs[k] == c;
            assert(k < cr.len());
            assert(cr[k] == c);
        }
        if kr.contains(f) {
            let k = choose|k: int| 0 <= k < kr.len() && kr[k] == f;
            assert(ks[k] == f);
        }
        if ks.contains(f) {
            let k = choose|k: int| 0 <= k < ks.len() && ks[k] == f;
            assert(k < kr.len());
            assert(kr[k] == f);
        }
    } else {
        assert forall|j: int| 0 <= j < rest.len() implies (#[trigger] rest[j]).guid != a.guid by {
            assert(assets[j].guid != assets[i].guid);
        }
        lemma_not_there(site, rest, a.guid);
        if cs.contains(c) {
            let k = choose|k: int| 0 <= k < cs.len() && cs[k] == c;
            if k < cr.len() {
                assert(cr[k].guid != a.guid);
            }
        }
        if elsewhere(site.guids, a) {
            assert(cs[cs.len() - 1] == c);
        }
        if ks.contains(f) {
            let k = choose|k: int| 0 <= k < ks.len() && ks[k] == f;
            if k < kr.len() {
                assert(kr[k].guid != a.guid);
            }
        }
        if !elsewhere(site.guids, a) && site.exists.contains(own_file(site.dest, a)) && !site.force {
            assert(ks[ks.len() - 1] == f);
        }
    }
}

proof fn lemma_not_there(site: Site, assets: Seq<AssetView>, g: Seq<char>)
    requires
        forall|j: int| 0 <= j < assets.len() ==> (#[trigger] assets[j]).guid != g,
    ensures
        !due_among(site, assets).contains_key(g),
        forall|k: int| 0 <= k < conflicts_among(site, assets).len() ==> (#[trigger] conflicts_among(site, assets)[k]).guid != g,
        forall|k: int| 0 <= k < kept_among(site, assets).len() ==> (#[trigger] kept_among(site, assets)[k]).guid != g,
    decreases assets.len(),
{
    if assets.len() > 0 {
        let rest = assets.drop_last();
        assert forall|j: int| 0 <= j < rest.len() implies (#[trigger] rest[j]).guid != g by {
            assert(assets[j].guid != g);
        }
        lemma_not_there(site, rest, g);
        assert(assets[assets.len() - 1].guid != g);
        let (cr, cs) = (conflicts_among(site, rest), conflicts_among(site, assets));
        let (kr, ks) = (kept_among(site, rest), kept_among(site, assets));
        assert forall|k: int| 0 <= k < cs.len() implies (#[trigger] cs[k]).guid != g by {
            if k < cr.len() {
                assert(cs[k] == cr[k]);
            }
        }
        assert forall|k: int| 0 <= k < ks.len() implies (#[trigger] ks[k]).guid != g by {
            if k < kr.len() {
                assert(ks[k] == kr[k]);
            }
        }
    }
}

/// What becomes of an asset: where the project has its guid at another path it is a conflict; else,
/// where its file is there and nothing is forced, it is left as it is; else it is to be written. One of
/// the three, and never two.
pub proof fn every_asset_has_one_fate(site: Site, assets: Seq<AssetView>, i: int)
    requires
        0 <= i < assets.len(),
        alone(assets, i),
    ensures
        ({
            let a = assets[i];
            let clash = site.guids.contains_key(a.guid) && lower(site.guids[a.guid]) != lower(a.path);
            let there = site.exists.contains(own_file(site.dest, a));
            &&& conflicts_among(site, assets).contains(
                ConflictView { guid: a.guid, path: a.path, existing_path: site.guids[a.guid] },
            ) <==> clash
            &&& kept_among(site, assets).contains(WrittenFileView { guid: a.guid, path: a.path, bytes: a.size }) <==> (
            !clash && there && !site.force)
            &&& due_among(site, assets).contains_key(a.guid) <==> !clash && (!there || site.force)
            &&& due_among(site, assets).contains_key(a.guid) ==> due_among(site, assets)[a.guid] == a
        }),
{
    lemma_fates(site, assets, i);
}

/// Nothing else is told or written: every conflict, every file left and every asset to be written is
/// one of the assets.
pub proof fn fates_are_of_assets(site: Site, assets: Seq<AssetView>)
    ensures
        forall|k: int|
            0 <= k < conflicts_among(site, assets).len() ==> exists|i: int|
                0 <= i < assets.len() && (#[trigger] assets[i]).guid == (#[trigger] conflicts_among(
                    site,
                    assets,
                )[k]).guid && assets[i].path == conflicts_among(site, assets)[k].path && elsewhere(
                    site.guids,
                    assets[i],
                ),
        forall|k: int|
            0 <= k < kept_among(site, assets).len() ==> exists|i: int|
                0 <= i < assets.len() && (#[trigger] assets[i]).guid == (#[trigger] kept_among(site, assets)[k]).guid
                    && assets[i].path == kept_among(site, assets)[k].path && site.exists.contains(
                    own_file(site.dest, assets[i]),
                ) && !site.force,
        forall|g: Seq<char>| #[trigger]
            due_among(site, assets).contains_key(g) ==> assets.contains(due_among(site, assets)[g]) && due_among(
                site,
                assets,
            )[g].guid == g,
        due_among(site, assets).dom().finite(),
    decreases assets.len(),
{
    if assets.len() > 0 {
        let rest = assets.drop_last();
        fates_are_of_assets(site, rest);
        let cr = conflicts_among(site, rest);
        let cs = conflicts_among(site, assets);
        let kr = kept_among(site, rest);
        let ks = kept_among(site, assets);
        let last = assets.len() - 1;
        assert(assets[last] == assets.last());
        assert forall|k: int| 0 <= k < cs.len() implies exists|i: int|
            0 <= i < assets.len() && (#[trigger] assets[i]).guid == (#[trigger] cs[k]).guid && assets[i].path
                == cs[k].path && elsewhere(site.guids, assets[i]) by {
            if k < cr.len() {
                assert(cs[k] == cr[k]);
                let i = choose|i: int|
                    0 <= i < rest.len() && (#[trigger] rest[i]).guid == cr[k].guid && rest[i].path == cr[k].path
                        && elsewhere(site.guids, rest[i]);
                assert(assets[i] == rest[i]);
            } else {
                assert(assets[last].guid == cs[k].guid);
            }
        }
        assert forall|k: int| 0 <= k < ks.len() implies exists|i: int|
            0 <= i < assets.len() && (#[trigger] assets[i]).guid == (#[trigger] ks[k]).guid && assets[i].path
                == ks[k].path && site.exists.contains(own_file(site.dest, assets[i])) && !site.force by {
            if k < kr.len() {
                assert(ks[k] == kr[k]);
                let i = choose|i: int|
                    0 <= i < rest.len() && (#[trigger] rest[i]).guid == kr[k].guid && rest[i].path == kr[k].path
                        && site.exists.contains(own_file(site.dest, rest[i])) && !site.force;
                assert(assets[i] == rest[i]);
            } else {
                assert(assets[last].guid == ks[k].guid);
            }
        }
        let dr = due_among(site, rest);
        let ds = due_among(site, assets);
        assert forall|g: Seq<char>| #[trigger] ds.contains_key(g) implies assets.contains(ds[g]) && ds[g].guid == g by {
            if dr.contains_key(g) && ds[g] == dr[g] {
                let i = choose|i: int| 0 <= i < rest.len() && rest[i] == dr[g];
                assert(assets[i] == dr[g]);
            } else {
                assert(assets[last] == ds[g]);
            }
        }
    }
}

// ----- the files -----------------------------------------------------------------------------

proof fn lemma_placed(
    todo: Map<Seq<char>, AssetView>,
    dest: Seq<char>,
    left: Set<Seq<char>>,
    ms: Seq<MemberView>,
    j: int,
)
    requires
        0 <= j < ms.len(),
        placement_of(todo, dest, left, ms[j].guid, ms[j].leaf) is Some,
    ensures
        ({
            let p = placement_of(todo, dest, left, ms[j].guid, ms[j].leaf)->0;
            placed_files(todo, dest, left, ms).contains(
                PlacedFileView {
                    path: p.path,
                    data: ms[j].data,
                    mtime: if p.timed {
                        ms[j].mtime
                    } else {
                        0
                    },
                    folder: p.folder,
                },
            )
        }),
    decreases ms.len(),
{
    let rest = ms.drop_last();
    let front = placed_files(todo, dest, left, rest);
    let all = placed_files(todo, dest, left, ms);
    if j < rest.len() {
        assert(rest[j] == ms[j]);
        lemma_placed(todo, dest, left, rest, j);
        let p = placement_of(todo, dest, left, ms[j].guid, ms[j].leaf)->0;
        let x = PlacedFileView {
            path: p.path,
            data: ms[j].data,
            mtime: if p.timed {
                ms[j].mtime
            } else {
                0
            },
            folder: p.folder,
        };
        let k = choose|k: int| 0 <= k < front.len() && front[k] == x;
        assert(all[k] == x);
    } else {
        assert(all[all.len() - 1].data == ms[j].data);
    }
}

/// The bytes of an asset and of its import settings are written as they came, the one at the path of
/// the asset and with its time, the other beside it with `.meta` at the end of its name; a path that is
/// left alone is not written.
pub proof fn members_become_files(
    todo: Map<Seq<char>, AssetView>,
    dest: Seq<char>,
    force: bool,
    exists: Set<Seq<char>>,
    ms: Seq<MemberView>,
    j: int,
)
    requires
        0 <= j < ms.len(),
        todo.contains_key(ms[j].guid),
    ensures
        ({
            let a = todo[ms[j].guid];
            let target = joined_path(dest, a.path);
            let files = placed_files(todo, dest, spared(force, exists), ms);
            &&& ms[j].leaf == "asset"@ && (force || !exists.contains(target)) ==> files.contains(
                PlacedFileView { path: target, data: ms[j].data, mtime: ms[j].mtime, folder: None },
            )
            &&& ms[j].leaf == "asset.meta"@ && (force || !exists.contains(target + ".meta"@)) ==> files.contains(
                PlacedFileView {
                    path: target + ".meta"@,
                    data: ms[j].data,
                    mtime: 0,
                    folder: if a.is_folder {
                        Some(target)
                    } else {
                        None
                    },
                },
            )
        }),
{
    reveal_strlit("asset");
    reveal_strlit("asset.meta");
    assert("asset"@.len() == 5 && "asset.meta"@.len() == 10);
    if placement_of(todo, dest, spared(force, exists), ms[j].guid, ms[j].leaf) is Some {
        lemma_placed(todo, dest, spared(force, exists), ms, j);
    }
}

/// Only that is written: every file is the asset or the import settings of something that is due, where
/// it belongs, with the bytes that came; and without force nothing that is there.
pub proof fn files_are_members(
    todo: Map<Seq<char>, AssetView>,
    dest: Seq<char>,
    force: bool,
    exists: Set<Seq<char>>,
    ms: Seq<MemberView>,
    i: int,
) -> (k: int)
    requires
        0 <= i < placed_files(todo, dest, spared(force, exists), ms).len(),
    ensures
        0 <= k < ms.len(),
        todo.contains_key(ms[k].guid),
        placed_files(todo, dest, spared(force, exists), ms)[i].data == ms[k].data,
        ({
            let target = joined_path(dest, todo[ms[k].guid].path);
            let path = placed_files(todo, dest, spared(force, exists), ms)[i].path;
            (ms[k].leaf == "asset"@ && path == target) || (ms[k].leaf == "asset.meta"@ && path == target + ".meta"@)
        }),
{
    files_are_placed_where_due(todo, dest, spared(force, exists), ms, i)
}

/// The bytes written are the sizes of the assets that came: an asset that is due adds its size, and
/// nothing else adds anything.
pub proof fn bytes_are_those_of_assets(goal: Goal, todo: Map<Seq<char>, AssetView>, ms: Seq<MemberView>, m: MemberView)
    ensures
        ms.len() == 0 ==> tally_of(goal, todo, ms).bytes == 0,
        m.leaf == "asset"@ && todo.contains_key(m.guid) ==> tally_of(goal, todo, ms.push(m)).bytes == tally_of(
            goal,
            todo,
            ms,
        ).bytes.wrapping_add(m.size as i64),
        m.leaf != "asset"@ || !todo.contains_key(m.guid) ==> tally_of(goal, todo, ms.push(m)).bytes == tally_of(
            goal,
            todo,
            ms,
        ).bytes,
        forall|res: ExportResultView| #[trigger]
            tallied(goal, todo, tally_of(goal, todo, ms), res).bytes_written == res.bytes_written.wrapping_add(
                tally_of(goal, todo, ms).bytes,
            ),
{
    assert(ms.push(m).drop_last() =~= ms);
    assert(ms.push(m).last() == m);
}

/// An asset counts as written where its import settings came and, unless it is a folder, the asset
/// itself did; else it is told as missing. Into a package it counts as written where its import settings
/// came.
pub proof fn whole_assets_are_reported(
    goal: Goal,
    todo: Map<Seq<char>, AssetView>,
    ms: Seq<MemberView>,
    res: ExportResultView,
    g: Seq<char>,
)
    requires
        todo.dom().finite(),
        todo.contains_key(g),
    ensures
        ({
            let r = tallied(goal, todo, tally_of(goal, todo, ms), res);
            let w = WrittenFileView { guid: g, path: todo[g].path, bytes: todo[g].size };
            let whole = came(ms, g, "asset.meta"@) && (goal == Goal::Repack || todo[g].is_folder || came(
                ms,
                g,
                "asset"@,
            ));
            &&& whole ==> r.written.contains(w)
            &&& !whole ==> exists|k: int|
                0 <= k < r.missing_in_package.len() && (#[trigger] r.missing_in_package[k]).guid == g
                    && r.missing_in_package[k].path == todo[g].path
            &&& r.written.len() + r.missing_in_package.len() == res.written.len() + res.missing_in_package.len()
                + todo.dom().len()
            &&& r.conflicts == res.conflicts && r.skipped_existing == res.skipped_existing && r.output == res.output
                && r.dry_run == res.dry_run
        }),
{
    let st = tally_of(goal, todo, ms);
    let guids = ascending_of(todo.dom());
    finite_sets_are_listed(todo.dom());
    crate::sorted::ascending_has_no_duplicates(guids);
    guids.unique_seq_to_set();
    assert(guids.to_set().contains(g));
    let i = choose|i: int| 0 <= i < guids.len() && guids[i] == g;
    every_file_is_reported(goal, todo, st, i);
    tally_is_what_came(goal, todo, ms, g);
    let r = tallied(goal, todo, st, res);
    let w = WrittenFileView { guid: g, path: todo[g].path, bytes: todo[g].size };
    let ws = whole_files(goal, todo, st, guids);
    let mf = missing_files(goal, todo, st, guids);
    if ws.contains(w) {
        let k = choose|k: int| 0 <= k < ws.len() && ws[k] == w;
        assert(r.written[res.written.len() + k] == w);
    }
    let m = MissingMemberView { guid: g, path: todo[g].path, got: ascending_of(got_of(st, g)) };
    if mf.contains(m) {
        let k = choose|k: int| 0 <= k < mf.len() && mf[k] == m;
        assert(r.missing_in_package[res.missing_in_package.len() + k] == m);
    }
}

// ----- an export into a directory ------------------------------------------------------------

/// What the one holds, the other holds too.
spec fn within(a: DirExportView, b: DirExportView) -> bool {
    &&& forall|x: ConflictView| #[trigger] a.result.conflicts.contains(x) ==> b.result.conflicts.contains(x)
    &&& forall|x: WrittenFileView| #[trigger]
        a.result.skipped_existing.contains(x) ==> b.result.skipped_existing.contains(x)
    &&& forall|x: WrittenFileView| #[trigger] a.result.written.contains(x) ==> b.result.written.contains(x)
    &&& forall|x: MissingMemberView| #[trigger]
        a.result.missing_in_package.contains(x) ==> b.result.missing_in_package.contains(x)
    &&& forall|x: PlacedFileView| #[trigger] a.files.contains(x) ==> b.files.contains(x)
}

proof fn lemma_front<T>(a: Seq<T>, b: Seq<T>, x: T)
    ensures
        a.contains(x) ==> (a + b).contains(x),
        b.contains(x) ==> (a + b).contains(x),
{
    if a.contains(x) {
        let k = choose|k: int| 0 <= k < a.len() && a[k] == x;
        assert((a + b)[k] == x);
    }
    if b.contains(x) {
        let k = choose|k: int| 0 <= k < b.len() && b[k] == x;
        assert((a + b)[a.len() + k] == x);
    }
}

proof fn lemma_written_grow(assets: Seq<AssetView>, res: ExportResultView)
    ensures
        crate::exporter::all_written(assets, res).conflicts == res.conflicts,
        crate::exporter::all_written(assets, res).skipped_existing == res.skipped_existing,
        crate::exporter::all_written(assets, res).missing_in_package == res.missing_in_package,
        forall|x: WrittenFileView| #[trigger]
            res.written.contains(x) ==> crate::exporter::all_written(assets, res).written.contains(x),
        forall|i: int|
            0 <= i < assets.len() ==> crate::exporter::all_written(assets, res).written.contains(
                file_of(#[trigger] assets[i]),
            ),
        crate::exporter::all_written(assets, res).written.len() == res.written.len() + assets.len(),
    decreases assets.len(),
{
    if assets.len() > 0 {
        let rest = assets.drop_last();
        lemma_written_grow(rest, res);
        let r = crate::exporter::all_written(rest, res).written;
        let t = crate::exporter::all_written(assets, res).written;
        assert forall|x: WrittenFileView| #[trigger] r.contains(x) implies t.contains(x) by {
            let k = choose|k: int| 0 <= k < r.len() && r[k] == x;
            assert(t[k] == x);
        }
        assert forall|i: int| 0 <= i < assets.len() implies t.contains(file_of(#[trigger] assets[i])) by {
            if i < rest.len() {
                assert(rest[i] == assets[i]);
                assert(r.contains(file_of(rest[i])));
            } else {
                assert(t[t.len() - 1] == file_of(assets[i]));
            }
        }
    }
}

proof fn lemma_package_grows(
    dest: Seq<char>,
    force: bool,
    dry_run: bool,
    guids: Map<Seq<char>, Seq<char>>,
    st: DirExportView,
    name: Seq<char>,
    assets: Seq<AssetView>,
    turn: TurnView,
)
    ensures
        within(st, package_exported(dest, force, dry_run, guids, st, name, assets, turn)),
{
    let site = Site { dest, force, guids, exists: turn.exists };
    let todo = due_among(site, assets);
    let res = sifted(site, assets, st.result);
    let end = package_exported(dest, force, dry_run, guids, st, name, assets, turn);
    let sum = tally_of(Goal::Extract, todo, turn.members);
    lemma_written_grow(
        crate::sorted::arranged(crate::deps::values_in_order(todo), crate::exporter::by_asset_path()),
        res,
    );
    assert forall|x: ConflictView| #[trigger] st.result.conflicts.contains(x) implies end.result.conflicts.contains(x) by {
        lemma_front(st.result.conflicts, conflicts_among(site, assets), x);
    }
    assert forall|x: WrittenFileView| #[trigger]
        st.result.skipped_existing.contains(x) implies end.result.skipped_existing.contains(x) by {
        lemma_front(st.result.skipped_existing, kept_among(site, assets), x);
    }
    assert forall|x: WrittenFileView| #[trigger] st.result.written.contains(x) implies end.result.written.contains(x) by {
        lemma_front(
            st.result.written,
            whole_files(Goal::Extract, todo, sum, ascending_of(todo.dom())),
            x,
        );
    }
    assert forall|x: MissingMemberView| #[trigger]
        st.result.missing_in_package.contains(x) implies end.result.missing_in_package.contains(x) by {
        lemma_front(
            st.result.missing_in_package,
            missing_files(Goal::Extract, todo, sum, ascending_of(todo.dom())),
            x,
        );
    }
    assert forall|x: PlacedFileView| #[trigger] st.files.contains(x) implies end.files.contains(x) by {
        lemma_front(st.files, placed_files(todo, dest, spared(force, turn.exists), turn.members), x);
    }
}

proof fn lemma_dir_grows(
    db: DbView,
    groups: Seq<(i64, Seq<AssetView>)>,
    dest: Seq<char>,
    force: bool,
    dry_run: bool,
    guids: Map<Seq<char>, Seq<char>>,
    turns: Seq<TurnView>,
    k: nat,
    n: nat,
)
    requires
        k <= n,
        dir_export(db, groups, dest, force, dry_run, guids, turns, n) is Ok,
    ensures
        dir_export(db, groups, dest, force, dry_run, guids, turns, k) is Ok,
        within(
            dir_export(db, groups, dest, force, dry_run, guids, turns, k)->Ok_0,
            dir_export(db, groups, dest, force, dry_run, guids, turns, n)->Ok_0,
        ),
    decreases n,
{
    if k < n {
        lemma_dir_grows(db, groups, dest, force, dry_run, guids, turns, k, (n - 1) as nat);
        let st = dir_export(db, groups, dest, force, dry_run, guids, turns, (n - 1) as nat)->Ok_0;
        let p = package_of(db, groups[n - 1].0)->Ok_0;
        lemma_package_grows(dest, force, dry_run, guids, st, p.name, groups[n - 1].1, turns[n - 1]);
    }
}

/// An export into a directory tells of every planned asset of every package what became of it: a
/// conflict where the project has its guid at another path; left where its file is there, unless
/// everything is forced; else written, if everything it needs came, or missing. A dry run counts as
/// written what would be.
pub proof fn exports_account_for_every_asset(
    db: DbView,
    groups: Seq<(i64, Seq<AssetView>)>,
    dest: Seq<char>,
    force: bool,
    dry_run: bool,
    guids: Map<Seq<char>, Seq<char>>,
    turns: Seq<TurnView>,
    k: int,
    i: int,
)
    requires
        dir_export(db, groups, dest, force, dry_run, guids, turns, groups.len()) is Ok,
        0 <= k < groups.len(),
        0 <= i < groups[k].1.len(),
        alone(groups[k].1, i),
    ensures
        ({
            let r = dir_export(db, groups, dest, force, dry_run, guids, turns, groups.len())->Ok_0.result;
            let a = groups[k].1[i];
            let ms = turns[k].members;
            let f = WrittenFileView { guid: a.guid, path: a.path, bytes: a.size };
            let clash = guids.contains_key(a.guid) && lower(guids[a.guid]) != lower(a.path);
            let there = turns[k].exists.contains(own_file(dest, a));
            let whole = came(ms, a.guid, "asset.meta"@) && (a.is_folder || came(ms, a.guid, "asset"@));
            &&& clash ==> r.conflicts.contains(
                ConflictView { guid: a.guid, path: a.path, existing_path: guids[a.guid] },
            )
            &&& !clash && there && !force ==> r.skipped_existing.contains(f)
            &&& !clash && (!there || force) && (dry_run || whole) ==> r.written.contains(f)
            &&& !clash && (!there || force) && !dry_run && !whole ==> exists|m: int|
                0 <= m < r.missing_in_package.len() && (#[trigger] r.missing_in_package[m]).guid == a.guid
        }),
{
    let n = groups.len();
    let assets = groups[k].1;
    let a = assets[i];
    lemma_dir_grows(db, groups, dest, force, dry_run, guids, turns, (k + 1) as nat, n);
    lemma_dir_grows(db, groups, dest, force, dry_run, guids, turns, k as nat, n);
    let st = dir_export(db, groups, dest, force, dry_run, guids, turns, k as nat)->Ok_0;
    let end = dir_export(db, groups, dest, force, dry_run, guids, turns, (k + 1) as nat)->Ok_0;
    let last = dir_export(db, groups, dest, force, dry_run, guids, turns, n)->Ok_0;
    let site = Site { dest, force, guids, exists: turns[k].exists };
    let todo = due_among(site, assets);
    let res = sifted(site, assets, st.result);
    let ms = turns[k].members;
    let f = WrittenFileView { guid: a.guid, path: a.path, bytes: a.size };
    let c = ConflictView { guid: a.guid, path: a.path, existing_path: guids[a.guid] };
    lemma_fates(site, assets, i);
    fates_are_of_assets(site, assets);
    lemma_front(st.result.conflicts, conflicts_among(site, assets), c);
    lemma_front(st.result.skipped_existing, kept_among(site, assets), f);
    let order = crate::sorted::arranged(crate::deps::values_in_order(todo), crate::exporter::by_asset_path());
    lemma_written_grow(order, res);
    let name = package_of(db, groups[k].0)->Ok_0.name;
    assert(end == package_exported(dest, force, dry_run, guids, st, name, assets, turns[k]));
    assert(end.result.conflicts == res.conflicts);
    assert(end.result.skipped_existing == res.skipped_existing);
    assert(within(end, last));
    assert(end.result.conflicts.contains(c) ==> last.result.conflicts.contains(c));
    assert(end.result.skipped_existing.contains(f) ==> last.result.skipped_existing.contains(f));
    if todo.contains_key(a.guid) {
        assert(todo.dom().contains(a.guid));
        finite_sets_are_listed(todo.dom());
        let gs = ascending_of(todo.dom());
        assert(gs.to_set().contains(a.guid));
        let h = choose|h: int| 0 <= h < gs.len() && gs[h] == a.guid;
        dry_run_counts_what_is_due(todo, res, h);
        whole_assets_are_reported(Goal::Extract, todo, ms, res, a.guid);
        assert(todo[a.guid] == a);
        assert(file_of(a) == f);
        if dry_run {
            assert(end.result == rehearsed(todo, res));
        } else {
            assert(end.result == tallied(Goal::Extract, todo, tally_of(Goal::Extract, todo, ms), res));
        }
        assert(end.result.written.contains(f) ==> last.result.written.contains(f));
        if !dry_run && !(came(ms, a.guid, "asset.meta"@) && (a.is_folder || came(ms, a.guid, "asset"@))) {
            let mr = end.result.missing_in_package;
            let m = choose|m: int| 0 <= m < mr.len() && (#[trigger] mr[m]).guid == a.guid && mr[m].path == a.path;
            assert(mr.contains(mr[m]));
            assert(last.result.missing_in_package.contains(mr[m]));
            let lr = last.result.missing_in_package;
            let q = choose|q: int| 0 <= q < lr.len() && lr[q] == mr[m];
            assert(lr[q].guid == a.guid);
        }
    }
}

/// An export into a directory writes the bytes of every asset that is due and of its import settings,
/// where they belong; a dry run writes nothing.
pub proof fn exports_write_what_is_due(
    db: DbView,
    groups: Seq<(i64, Seq<AssetView>)>,
    dest: Seq<char>,
    force: bool,
    dry_run: bool,
    guids: Map<Seq<char>, Seq<char>>,
    turns: Seq<TurnView>,
    k: int,
    i: int,
    j: int,
)
    requires
        dir_export(db, groups, dest, force, dry_run, guids, turns, groups.len()) is Ok,
        0 <= k < groups.len(),
        0 <= i < groups[k].1.len(),
        alone(groups[k].1, i),
        0 <= j < turns[k].members.len(),
        turns[k].members[j].guid == groups[k].1[i].guid,
    ensures
        ({
            let files = dir_export(db, groups, dest, force, dry_run, guids, turns, groups.len())->Ok_0.files;
            let a = groups[k].1[i];
            let m = turns[k].members[j];
            let target = joined_path(dest, a.path);
            let clash = guids.contains_key(a.guid) && lower(guids[a.guid]) != lower(a.path);
            let due = !clash && (force || !turns[k].exists.contains(own_file(dest, a)));
            &&& dry_run ==> files.len() == 0
            &&& !dry_run && due && m.leaf == "asset"@ && (force || !turns[k].exists.contains(target))
                ==> files.contains(PlacedFileView { path: target, data: m.data, mtime: m.mtime, folder: None })
            &&& !dry_run && due && m.leaf == "asset.meta"@ && (force || !turns[k].exists.contains(target + ".meta"@))
                ==> files.contains(
                PlacedFileView {
                    path: target + ".meta"@,
                    data: m.data,
                    mtime: 0,
                    folder: if a.is_folder {
                        Some(target)
                    } else {
                        None
                    },
                },
            )
        }),
{
    let n = groups.len();
    let assets = groups[k].1;
    let a = assets[i];
    lemma_dir_grows(db, groups, dest, force, dry_run, guids, turns, (k + 1) as nat, n);
    lemma_dir_grows(db, groups, dest, force, dry_run, guids, turns, k as nat, n);
    let st = dir_export(db, groups, dest, force, dry_run, guids, turns, k as nat)->Ok_0;
    let end = dir_export(db, groups, dest, force, dry_run, guids, turns, (k + 1) as nat)->Ok_0;
    let site = Site { dest, force, guids, exists: turns[k].exists };
    let todo = due_among(site, assets);
    lemma_fates(site, assets, i);
    if dry_run {
        lemma_dry_runs_write_nothing(db, groups, dest, force, guids, turns, n);
    } else if todo.contains_key(a.guid) {
        assert(todo.dom().contains(a.guid));
        let made = placed_files(todo, dest, spared(force, turns[k].exists), turns[k].members);
        members_become_files(todo, dest, force, turns[k].exists, turns[k].members, j);
        assert forall|x: PlacedFileView| #[trigger] made.contains(x) implies end.files.contains(x) by {
            lemma_front(st.files, made, x);
        }
    }
}

proof fn lemma_dry_runs_write_nothing(
    db: DbView,
    groups: Seq<(i64, Seq<AssetView>)>,
    dest: Seq<char>,
    force: bool,
    guids: Map<Seq<char>, Seq<char>>,
    turns: Seq<TurnView>,
    n: nat,
)
    requires
        dir_export(db, groups, dest, force, true, guids, turns, n) is Ok,
    ensures
        dir_export(db, groups, dest, force, true, guids, turns, n)->Ok_0.files.len() == 0,
    decreases n,
{
    if n > 0 {
        lemma_dry_runs_write_nothing(db, groups, dest, force, guids, turns, (n - 1) as nat);
    }
}

// ----- an export into a package --------------------------------------------------------------

proof fn lemma_guid_map(assets: Seq<AssetView>, i: int)
    requires
        0 <= i < assets.len(),
    ensures
        guid_map(assets).contains_key(assets[i].guid),
        alone(assets, i) ==> guid_map(assets)[assets[i].guid] == assets[i],
    decreases assets.len(),
{
    let rest = assets.drop_last();
    if i < rest.len() {
        assert(rest[i] == assets[i]);
        lemma_guid_map(rest, i);
        if alone(assets, i) {
            assert forall|j: int| 0 <= j < rest.len() && j != i implies (#[trigger] rest[j]).guid != rest[i].guid by {
                assert(assets[j].guid != assets[i].guid);
            }
            assert(assets[assets.len() - 1].guid != assets[i].guid);
        }
    }
}

proof fn lemma_packed(todo: Map<Seq<char>, AssetView>, ms: Seq<MemberView>, t: TarMemberView)
    ensures
        packed_members(todo, ms).contains(t) <==> exists|j: int|
            0 <= j < ms.len() && todo.contains_key((#[trigger] ms[j]).guid) && t == packed_member(ms[j]),
    decreases ms.len(),
{
    if ms.len() > 0 {
        let rest = ms.drop_last();
        lemma_packed(todo, rest, t);
        let front = packed_members(todo, rest);
        let all = packed_members(todo, ms);
        assert(ms[ms.len() - 1] == ms.last());
        if front.contains(t) {
            let k = choose|k: int| 0 <= k < front.len() && front[k] == t;
            assert(all[k] == t);
            let j = choose|j: int|
                0 <= j < rest.len() && todo.contains_key((#[trigger] rest[j]).guid) && t == packed_member(rest[j]);
            assert(ms[j] == rest[j]);
        }
        if all.contains(t) && !front.contains(t) {
            let k = choose|k: int| 0 <= k < all.len() && all[k] == t;
            if k < front.len() {
                assert(front[k] == t);
            }
        }
        if exists|j: int|
            0 <= j < ms.len() && todo.contains_key((#[trigger] ms[j]).guid) && t == packed_member(ms[j]) {
            let j = choose|j: int|
                0 <= j < ms.len() && todo.contains_key((#[trigger] ms[j]).guid) && t == packed_member(ms[j]);
            if j < rest.len() {
                assert(rest[j] == ms[j]);
            } else {
                assert(all[all.len() - 1] == t);
            }
        }
    }
}

proof fn lemma_pack_grows(
    db: DbView,
    groups: Seq<(i64, Seq<AssetView>)>,
    sources: Seq<Seq<MemberView>>,
    k: nat,
    n: nat,
)
    requires
        k <= n,
        pack_export(db, groups, sources, n) is Ok,
    ensures
        pack_export(db, groups, sources, k) is Ok,
        ({
            let a = pack_export(db, groups, sources, k)->Ok_0;
            let b = pack_export(db, groups, sources, n)->Ok_0;
            &&& forall|t: TarMemberView| #[trigger] a.members.contains(t) ==> b.members.contains(t)
            &&& forall|x: WrittenFileView| #[trigger] a.result.written.contains(x) ==> b.result.written.contains(x)
            &&& forall|x: MissingMemberView| #[trigger]
                a.result.missing_in_package.contains(x) ==> b.result.missing_in_package.contains(x)
        }),
    decreases n,
{
    if k < n {
        lemma_pack_grows(db, groups, sources, k, (n - 1) as nat);
        let a = pack_export(db, groups, sources, k)->Ok_0;
        let st = pack_export(db, groups, sources, (n - 1) as nat)->Ok_0;
        let b = pack_export(db, groups, sources, n)->Ok_0;
        let todo = guid_map(groups[n - 1].1);
        let ms = sources[n - 1];
        let sum = tally_of(Goal::Repack, todo, ms);
        let gs = ascending_of(todo.dom());
        assert forall|t: TarMemberView| #[trigger] a.members.contains(t) implies b.members.contains(t) by {
            assert(st.members.contains(t));
            lemma_front(st.members, packed_members(todo, ms), t);
        }
        assert forall|x: WrittenFileView| #[trigger] a.result.written.contains(x) implies b.result.written.contains(x) by {
            assert(st.result.written.contains(x));
            lemma_front(st.result.written, whole_files(Goal::Repack, todo, sum, gs), x);
        }
        assert forall|x: MissingMemberView| #[trigger]
            a.result.missing_in_package.contains(x) implies b.result.missing_in_package.contains(x) by {
            assert(st.result.missing_in_package.contains(x));
            lemma_front(st.result.missing_in_package, missing_files(Goal::Repack, todo, sum, gs), x);
        }
    }
}

/// A slim package holds every member that came of every planned asset of every package, under the guid
/// and the leaf, with its bytes, its size and its time. An asset counts as written where its import
/// settings came, else it is told as missing.
pub proof fn packages_hold_every_member(
    db: DbView,
    groups: Seq<(i64, Seq<AssetView>)>,
    sources: Seq<Seq<MemberView>>,
    k: int,
    i: int,
)
    requires
        pack_export(db, groups, sources, groups.len()) is Ok,
        0 <= k < groups.len(),
        0 <= i < groups[k].1.len(),
        alone(groups[k].1, i),
    ensures
        ({
            let st = pack_export(db, groups, sources, groups.len())->Ok_0;
            let a = groups[k].1[i];
            let ms = sources[k];
            &&& forall|j: int|
                0 <= j < ms.len() && (#[trigger] ms[j]).guid == a.guid ==> st.members.contains(
                    TarMemberView {
                        name: a.guid + "/"@ + ms[j].leaf,
                        is_file: true,
                        size: ms[j].size,
                        mtime: ms[j].mtime,
                        data: ms[j].data,
                    },
                )
            &&& came(ms, a.guid, "asset.meta"@) ==> st.result.written.contains(
                WrittenFileView { guid: a.guid, path: a.path, bytes: a.size },
            )
            &&& !came(ms, a.guid, "asset.meta"@) ==> exists|m: int|
                0 <= m < st.result.missing_in_package.len() && (#[trigger] st.result.missing_in_package[m]).guid
                    == a.guid
        }),
{
    let n = groups.len();
    let assets = groups[k].1;
    let a = assets[i];
    let ms = sources[k];
    lemma_pack_grows(db, groups, sources, (k + 1) as nat, n);
    lemma_pack_grows(db, groups, sources, k as nat, n);
    let st = pack_export(db, groups, sources, k as nat)->Ok_0;
    let end = pack_export(db, groups, sources, (k + 1) as nat)->Ok_0;
    let last = pack_export(db, groups, sources, n)->Ok_0;
    let todo = guid_map(assets);
    lemma_guid_map(assets, i);
    lemma_guid_map_finite(assets);
    assert forall|j: int| 0 <= j < ms.len() && (#[trigger] ms[j]).guid == a.guid implies last.members.contains(
        TarMemberView {
            name: a.guid + "/"@ + ms[j].leaf,
            is_file: true,
            size: ms[j].size,
            mtime: ms[j].mtime,
            data: ms[j].data,
        },
    ) by {
        let t = packed_member(ms[j]);
        lemma_packed(todo, ms, t);
        lemma_front(st.members, packed_members(todo, ms), t);
        assert(end.members.contains(t));
    }
    whole_assets_are_reported(Goal::Repack, todo, ms, st.result, a.guid);
    let f = WrittenFileView { guid: a.guid, path: a.path, bytes: a.size };
    assert(end.result.written.contains(f) ==> last.result.written.contains(f));
    if !came(ms, a.guid, "asset.meta"@) {
        let mr = end.result.missing_in_package;
        let m = choose|m: int| 0 <= m < mr.len() && (#[trigger] mr[m]).guid == a.guid && mr[m].path == a.path;
        assert(mr.contains(mr[m]));
        assert(last.result.missing_in_package.contains(mr[m]));
        let lr = last.result.missing_in_package;
        let q = choose|q: int| 0 <= q < lr.len() && lr[q] == mr[m];
        assert(lr[q].guid == a.guid);
    }
}

/// A slim package holds nothing else: every member of it is one that came of a planned asset.
pub proof fn packages_hold_only_what_is_planned(
    db: DbView,
    groups: Seq<(i64, Seq<AssetView>)>,
    sources: Seq<Seq<MemberView>>,
    n: nat,
    t: int,
) -> (r: (int, int))
    requires
        n <= groups.len(),
        pack_export(db, groups, sources, n) is Ok,
        0 <= t < pack_export(db, groups, sources, n)->Ok_0.members.len(),
    ensures
        0 <= r.0 < n,
        0 <= r.1 < sources[r.0].len(),
        ({
            let x = pack_export(db, groups, sources, n)->Ok_0.members[t];
            let m = sources[r.0][r.1];
            &&& x.name == m.guid + "/"@ + m.leaf
            &&& x.data == m.data && x.size == m.size && x.mtime == m.mtime && x.is_file
            &&& exists|i: int| 0 <= i < groups[r.0].1.len() && (#[trigger] groups[r.0].1[i]).guid == m.guid
        }),
    decreases n,
{
    let st = pack_export(db, groups, sources, (n - 1) as nat)->Ok_0;
    let end = pack_export(db, groups, sources, n)->Ok_0;
    let todo = guid_map(groups[n - 1].1);
    let ms = sources[n - 1];
    if t < st.members.len() {
        assert(end.members[t] == st.members[t]);
        packages_hold_only_what_is_planned(db, groups, sources, (n - 1) as nat, t)
    } else {
        let x = end.members[t];
        let more = packed_members(todo, ms);
        assert(more[t - st.members.len()] == x);
        assert(more.contains(x));
        lemma_packed(todo, ms, x);
        let j = choose|j: int|
            0 <= j < ms.len() && todo.contains_key((#[trigger] ms[j]).guid) && x == packed_member(ms[j]);
        lemma_guid_map_finite(groups[n - 1].1);
        (n - 1, j)
    }
}

// ----- unpacking -----------------------------------------------------------------------------

/// Unpacking a package into a directory does with every asset what an export of it does: conflicts and
/// files that are there are told, and what is due is written from the members of the package.
pub proof fn unpacking_accounts_for_every_asset(site: Site, assets: Seq<AssetView>, archive: UnpackedView, i: int)
    requires
        unpacked(site, assets, archive) is Ok,
        0 <= i < assets.len(),
        alone(assets, i),
    ensures
        ({
            let (r, files) = unpacked(site, assets, archive)->Ok_0;
            let a = assets[i];
            let f = WrittenFileView { guid: a.guid, path: a.path, bytes: a.size };
            let clash = site.guids.contains_key(a.guid) && lower(site.guids[a.guid]) != lower(a.path);
            let there = site.exists.contains(own_file(site.dest, a));
            let wanted = lower_set(ascending_of(due_among(site, assets).dom()));
            &&& clash ==> r.conflicts.contains(
                ConflictView { guid: a.guid, path: a.path, existing_path: site.guids[a.guid] },
            )
            &&& !clash && there && !site.force ==> r.skipped_existing.contains(f)
            &&& !clash && (!there || site.force) ==> (members_read(archive, wanted) matches Ok(ms) && (came(
                ms,
                a.guid,
                "asset.meta"@,
            ) && (a.is_folder || came(ms, a.guid, "asset"@)) ==> r.written.contains(f)) && files == placed_files(
                due_among(site, assets),
                site.dest,
                spared(site.force, site.exists),
                ms,
            ))
        }),
{
    let todo = due_among(site, assets);
    let a = assets[i];
    lemma_fates(site, assets, i);
    fates_are_of_assets(site, assets);
    let none = crate::exporter::no_export();
    assert(none.conflicts + conflicts_among(site, assets) =~= conflicts_among(site, assets));
    assert(none.skipped_existing + kept_among(site, assets) =~= kept_among(site, assets));
    if todo.contains_key(a.guid) {
        assert(todo.dom().contains(a.guid));
        let res = sifted(site, assets, ExportResultView { output: site.dest, ..none });
        let ms = members_read(archive, lower_set(ascending_of(todo.dom())))->Ok_0;
        whole_assets_are_reported(Goal::Extract, todo, ms, res, a.guid);
    }
}

// ----- what a project has --------------------------------------------------------------------

proof fn lemma_first_guid(lines: Seq<Seq<char>>, i: int)
    requires
        0 <= i < lines.len(),
        guid_in_line(lines[i]) is Some,
        forall|j: int| 0 <= j < i ==> guid_in_line(#[trigger] lines[j]) is None,
    ensures
        first_guid(lines) == guid_in_line(lines[i]),
    decreases lines.len(),
{
    let rest = lines.drop_last();
    if i < rest.len() {
        assert(rest[i] == lines[i]);
        assert forall|j: int| 0 <= j < i implies guid_in_line(#[trigger] rest[j]) is None by {
            assert(rest[j] == lines[j]);
        }
        lemma_first_guid(rest, i);
    } else {
        assert forall|j: int| 0 <= j < rest.len() implies guid_in_line(#[trigger] rest[j]) is None by {
            assert(rest[j] == lines[j]);
        }
        lemma_no_guid(rest);
    }
}

proof fn lemma_no_guid(lines: Seq<Seq<char>>)
    requires
        forall|j: int| 0 <= j < lines.len() ==> guid_in_line(#[trigger] lines[j]) is None,
    ensures
        first_guid(lines) is None,
    decreases lines.len(),
{
    if lines.len() > 0 {
        let rest = lines.drop_last();
        assert forall|j: int| 0 <= j < rest.len() implies guid_in_line(#[trigger] rest[j]) is None by {
            assert(rest[j] == lines[j]);
        }
        lemma_no_guid(rest);
        assert(lines[lines.len() - 1] == lines.last());
    }
}

/// The guid of a `.meta` file is what stands behind `guid:` on the first line that begins so, in lower
/// case; a file without such a line has none.
pub proof fn meta_files_state_their_guid(text: Seq<char>, i: int, guid: Seq<char>)
    requires
        0 <= i < pieces(text, Sep::Is('\n')).len(),
        pieces(text, Sep::Is('\n'))[i].len() >= 5,
        pieces(text, Sep::Is('\n'))[i].take(5) == "guid:"@,
        trim(pieces(text, Sep::Is('\n'))[i].skip(5)) == guid,
        guid.len() == 32,
        forall|k: int| 0 <= k < 32 ==> is_hex(#[trigger] guid[k]),
        forall|j: int|
            0 <= j < i ==> (#[trigger] pieces(text, Sep::Is('\n'))[j]).len() < 5 || pieces(
                text,
                Sep::Is('\n'),
            )[j].take(5) != "guid:"@,
    ensures
        meta_guid_of(text) == Some(lower(guid)),
{
    reveal_strlit("guid:");
    let lines = pieces(text, Sep::Is('\n'));
    assert(lines[i].subrange(0, 5) =~= lines[i].take(5));
    assert(guid_in_line(lines[i]) == Some(lower(guid)));
    assert forall|j: int| 0 <= j < i implies guid_in_line(#[trigger] lines[j]) is None by {
        if lines[j].len() >= 5 {
            assert(lines[j].subrange(0, 5) =~= lines[j].take(5));
        }
    }
    lemma_first_guid(lines, i);
}

/// The project has every guid that one of its `.meta` files states, at the path of the file without
/// `.meta` at its end and with forward slashes; where several state one, the last counts. It has no
/// other.
pub proof fn projects_have_what_their_files_state(files: Seq<MetaFileView>, g: Seq<char>, i: int, path: Seq<char>)
    ensures
        0 <= i < files.len() && files[i].rel == path + ".meta"@ && meta_guid_of(lossy_of(files[i].head)) == Some(g)
            && (forall|j: int|
            i < j < files.len() ==> meta_guid_of(lossy_of((#[trigger] files[j]).head)) != Some(g))
            ==> project_guids(files).contains_key(g) && project_guids(files)[g] == replaced(path, '\\', '/'),
        project_guids(files).contains_key(g) ==> exists|j: int|
            0 <= j < files.len() && meta_guid_of(lossy_of((#[trigger] files[j]).head)) == Some(g) && ends(
                files[j].rel,
                ".meta"@,
            ),
    decreases files.len(),
{
    if files.len() > 0 {
        let rest = files.drop_last();
        let last = files.len() - 1;
        assert(files[last] == files.last());
        projects_have_what_their_files_state(rest, g, i, path);
        reveal_strlit(".meta");
        if 0 <= i < files.len() && files[i].rel == path + ".meta"@ && meta_guid_of(lossy_of(files[i].head)) == Some(g)
            && (forall|j: int| i < j < files.len() ==> meta_guid_of(lossy_of((#[trigger] files[j]).head)) != Some(g)) {
            let rel = path + ".meta"@;
            assert(rel.subrange(rel.len() - ".meta"@.len(), rel.len() as int) =~= ".meta"@);
            assert(without_meta(replaced(rel, '\\', '/')) =~= replaced(path, '\\', '/'));
            if i < last {
                assert(rest[i] == files[i]);
                assert forall|j: int| i < j < rest.len() implies meta_guid_of(
                    lossy_of((#[trigger] rest[j]).head),
                ) != Some(g) by {
                    assert(rest[j] == files[j]);
                }
                assert(meta_guid_of(lossy_of(files[last].head)) != Some(g));
            }
        }
        if project_guids(files).contains_key(g) {
            if project_guids(rest).contains_key(g) {
                let j = choose|j: int|
                    0 <= j < rest.len() && meta_guid_of(lossy_of((#[trigger] rest[j]).head)) == Some(g) && ends(
                        rest[j].rel,
                        ".meta"@,
                    );
                assert(files[j] == rest[j]);
            } else {
                assert(meta_guid_of(lossy_of(files[last].head)) == Some(g));
            }
        }
    }
}

// ----- single members ------------------------------------------------------------------------

/// Reading a member gives the beginning of the first one with that leaf, as much as is asked for, and
/// says whether there is more; there is nothing to give only where no member has the leaf.
pub proof fn members_are_read_from_the_front(ms: Seq<MemberView>, leaf: Seq<char>, max_bytes: nat, i: int)
    requires
        0 <= i <= ms.len(),
        forall|j: int| 0 <= j < i ==> (#[trigger] ms[j]).leaf != leaf,
        i < ms.len() ==> ms[i].leaf == leaf,
    ensures
        i == ms.len() ==> member_read(ms, leaf, max_bytes) is None,
        i < ms.len() ==> (member_read(ms, leaf, max_bytes) matches Some((b, more)) && (if ms[i].data.len()
            <= max_bytes {
            b == ms[i].data && more == (ms[i].data.len() < ms[i].size)
        } else {
            b.len() == max_bytes && b == ms[i].data.take(max_bytes as int) && more == (max_bytes < ms[i].size)
        })),
{
    crate::seqs::lemma_first_index(ms, |m: MemberView| m.leaf == leaf, i);
    if i < ms.len() {
        assert(ms[i].data.take(ms[i].data.len() as int) =~= ms[i].data);
    }
}

/// A rehearsal counts every asset as written, in its order, with its guid, its path and its bytes.
pub proof fn rehearsals_count_every_asset(assets: Seq<AssetView>, res: ExportResultView, i: int)
    ensures
        ({
            let r = crate::exporter::all_written(assets, res);
            &&& r.written.len() == res.written.len() + assets.len()
            &&& 0 <= i < assets.len() ==> r.written[res.written.len() + i].guid == assets[i].guid
                && r.written[res.written.len() + i].path == assets[i].path && r.written[res.written.len() + i].bytes
                == assets[i].size
            &&& assets.len() == 0 ==> r.bytes_written == res.bytes_written
            &&& assets.len() > 0 ==> r.bytes_written == crate::exporter::all_written(
                assets.drop_last(),
                res,
            ).bytes_written.wrapping_add(assets.last().size)
            &&& r.output == res.output && r.dry_run == res.dry_run && r.conflicts == res.conflicts
                && r.skipped_existing == res.skipped_existing
        }),
    decreases assets.len(),
{
    if assets.len() > 0 {
        rehearsals_count_every_asset(assets.drop_last(), res, i);
    }
}

} // verus!
