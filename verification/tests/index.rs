//! The index, its queries and updates, and the rules of exports.

use uai::config::Config;
use uai::db::{labels_from_store, labels_to_store, search_text, AssetRow, Database, PackageRow, StoreError};
use uai::deps::{known_guid_label, resolve_closure, KnownGuids};
use uai::error::{describe, Error, UaiError};
use uai::exporter::{
    asset_places, cache_list, cache_partial_for, cache_path_for, find_source, finish_unitypackage, member_source, export_to_dir, meta_guid, meta_path, package_abs_path,
    partial_path, placement, rehearse, rehearse_unitypackage, scan_project_guids, select_todo, unpack_package_to_dir, write_members,
    CacheDir, Goal, MetaFile, PackExport, Source, Tally, Turn,
};
use uai::indexer::{
    check_library, discover_packages, first_line, is_asked_for, is_hidden, rel_path, split_rel_path, IndexOptions,
    Job, JobEnd, PreviewBatch, Run, Scan, Survey, PREVIEW_CHUNK_BYTES,
};
use uai::model::{Asset, ExportResult, Package, SearchQuery};
use uai::plan::build_plan;
use uai::resolve::{resolve_asset, resolve_package, resolve_roots};
use uai::sorted::{TextMap, TextSet};
use uai::unitypackage::{
    collect_entries, collect_members, extra_fields, for_each_member, gather, parse_meta, parse_pathname, read_entries, read_members, scan_asset, scan_package, Entry,
    Fault, Member, ScanOptions, TarMember, Unpacked,
};

fn guid(n: u8) -> String {
    format!("{:032x}", 0x1000 + n as u32)
}

fn entry(n: u8, path: &str, refs: &[u8]) -> Entry {
    let mut e = Entry::new(&guid(n));
    e.path = path.into();
    e.asset_size = 10;
    for r in refs {
        e.refs.insert(guid(*r));
    }
    e
}

/// Two packages; asset 1 refers to 2 and 9, 2 to 3; 3 is in both packages, in the second with a user.
fn sample() -> Database {
    let mut db = Database::new("index.db".into(), false);
    let a = db.upsert_package("", "Pub/Cat/One.unitypackage", "One", "Pub", "Cat", 5, 0, None).unwrap();
    let b = db.upsert_package("", "Pub/Two.unitypackage", "Two", "Pub", "", 6, 0, None).unwrap();
    assert_eq!((a, b), (1, 2));
    let one = vec![
        entry(1, "Assets/A/Root.prefab", &[2, 9]),
        entry(2, "Assets/A/Mat.mat", &[3]),
        entry(3, "Assets/A/Tex.png", &[]),
        entry(4, "Assets/A/Run.cs", &[]),
    ];
    let two = vec![entry(3, "Assets/B/Tex.png", &[]), entry(5, "Assets/B/Root.prefab", &[3, 4])];
    assert_eq!(db.replace_package_assets(a, &one, true, 1).unwrap(), (4, 40));
    assert_eq!(db.replace_package_assets(b, &two, false, 1).unwrap(), (2, 20));
    db
}

#[test]
fn scans_replace_only_their_package() {
    let mut db = sample();
    let before = db.asset_count(2);
    assert_eq!(db.replace_package_assets(1, &vec![entry(7, "Assets/New.mat", &[])], true, 2).unwrap(), (1, 10));
    assert_eq!((db.asset_count(1), db.asset_count(2)), (1, before));
    assert!(db.assets_by_guid(&guid(1)).is_empty());
    let p = db.package_by_id(1).unwrap();
    assert_eq!((p.entry_count, p.total_bytes, p.status.as_str(), p.indexed_at), (1, 10, "ok", Some(2)));
    assert_eq!(db.package_by_id(2).unwrap().indexed_at, Some(1));
    assert_eq!(
        db.replace_package_assets(1, &vec![entry(7, "a", &[]), entry(7, "b", &[])], true, 2).unwrap_err(),
        StoreError::DuplicateGuid
    );
    assert_eq!(db.replace_package_assets(9, &vec![entry(7, "a", &[])], true, 2).unwrap_err(), StoreError::NoPackage);
    db.delete_package(1);
    assert_eq!((db.packages().len(), db.asset_count(1), db.asset_count(2)), (1, 0, 2));
    db.clear_package_assets(2);
    assert_eq!(db.asset_count(2), 0);
}

#[test]
fn runs_keep_scans_in_any_order() {
    let survey = |jobs: Vec<Job>| Survey { seen: vec![], jobs, skipped: 3, removed: 1, log: vec![] };
    let job = |pid: i64| Job { pid, rel: format!("p{pid}"), bytes: 1 };
    let scan = |pid: i64| Scan { job: job(pid), entries: vec![entry(pid as u8, "Assets/New.mat", &[])], error: None, at: 9 };
    for order in [[1, 2], [2, 1]] {
        let mut db = sample();
        let mut run = Run::begin(6, &survey(vec![job(1), job(2)]));
        for pid in order {
            assert!(matches!(run.take_scan(&mut db, &scan(pid), true), Ok(JobEnd::Stored(1, 10))));
        }
        run.count_previews(4);
        for pid in [1, 2] {
            let p = db.package_by_id(pid).unwrap();
            assert_eq!((p.status.as_str(), p.indexed_at, p.entry_count, db.asset_count(pid)), ("ok", Some(9), 1, 1));
        }
        let r = run.end();
        assert_eq!((r.found, r.indexed, r.skipped, r.removed, r.errors, r.entries, r.previews), (6, 2, 3, 1, 0, 2, 4));
    }
    let mut db = sample();
    let mut run = Run::begin(1, &survey(vec![job(1)]));
    let mut twice = scan(1);
    twice.entries.push(entry(1, "Assets/Again.mat", &[]));
    assert!(matches!(run.take_scan(&mut db, &twice, true), Err(Error::Other(_))));
    assert_eq!(db.asset_count(1), 4);
}

#[test]
fn packages_keep_their_ids() {
    let mut db = sample();
    assert_eq!(db.upsert_package("", "Pub/Two.unitypackage", "Two!", "P", "", 7, 0, None).unwrap(), 2);
    assert_eq!(db.package_by_rel_path("Pub/Two.unitypackage").unwrap().name, "Two!");
    assert_eq!(db.package_by_root_rel("", "Pub/Two.unitypackage").unwrap().size, 7);
    assert!(db.package_by_root_rel("/other", "Pub/Two.unitypackage").is_none());
    db.mark_package(2, "error", Some("bad"));
    assert_eq!(db.package_by_id(2).unwrap().error.as_deref(), Some("bad"));
    assert_eq!(db.assign_default_root("/lib").unwrap(), 2);
    assert_eq!(db.package_by_id(1).unwrap().root, "/lib");
    assert_eq!(db.assign_default_root("/lib").unwrap(), 0);
}

#[test]
fn stored_rows_load_again() {
    let db = sample();
    let again = Database::load(db.package_rows().clone(), db.asset_rows().clone(), TextMap::new(), true, "x".into()).unwrap();
    assert_eq!(again.stats().unwrap().assets, 6);
    assert_eq!(again.stats().unwrap().refs, 5);
    let mut rows: Vec<PackageRow> = db.package_rows().clone();
    rows.reverse();
    let e = Database::load(rows, vec![], TextMap::new(), false, "x".into()).unwrap_err();
    assert_eq!(e, StoreError::OutOfOrder);
    let orphan: Vec<AssetRow> = db.asset_rows().clone();
    let e = Database::load(vec![], orphan, TextMap::new(), false, "x".into()).unwrap_err();
    assert_eq!(e, StoreError::NoPackage);
    let labels = vec!["a \"b\"".to_string(), "ü".to_string()];
    let stored = labels_to_store(&labels).unwrap();
    assert_eq!(stored, "[\"a \\\"b\\\"\",\"ü\"]");
    assert_eq!(labels_from_store(Some(&stored)), labels);
    assert_eq!(labels_to_store(&vec![]), None);
    assert!(labels_from_store(Some("{}")).is_empty());
}

#[test]
fn previews_are_read_back() {
    let mut db = sample();
    let g = guid(0xab);
    assert_eq!(db.put_previews(&vec![(g.clone(), vec![1]), (guid(2), vec![2]), (g.clone(), vec![3])]), 3);
    assert_eq!(db.get_preview(&g.to_uppercase()), Some(vec![3]));
    assert_eq!(db.get_preview(&guid(2)), Some(vec![2]));
    assert_eq!(db.get_preview(&guid(3)), None);
    assert_eq!(db.preview_count(), 2);
}

#[test]
fn queries_find_assets() {
    let db = sample();
    assert_eq!(db.assets_by_guid(&guid(3).to_uppercase()).len(), 2);
    assert_eq!(db.assets_by_path("assets/a/tex.PNG", None)[0].package_id, 1);
    assert!(db.assets_by_path("Assets/A/Tex.png", Some(2)).is_empty());
    assert_eq!(db.assets_by_path_suffix("/Tex.png", None, 5).len(), 2);
    assert_eq!(db.assets_by_name("root.prefab", None, 1).len(), 1);
    assert_eq!(db.refs_of(1), vec![guid(2), guid(9)]);
    let users: Vec<String> = db.referrers(&guid(3), None).iter().map(|a| a.path.clone()).collect();
    assert_eq!(users, vec!["Assets/A/Mat.mat", "Assets/B/Root.prefab"]);
    assert_eq!(db.list_package_assets(1, Some("Assets/A/"), Some("material, texture"), None).len(), 2);
    assert_eq!(db.list_package_assets(1, None, None, Some(3)).len(), 3);
    assert_eq!(db.kind_counts(None).unwrap()[0].n, 2);
    assert_eq!(db.publishers(), vec!["Pub"]);
    assert_eq!(db.find_packages("o").unwrap().len(), 2);
    assert_eq!(db.find_packages("2").unwrap()[0].name, "Two");
    assert_eq!(db.find_packages("99999999999999999999").unwrap_err(), StoreError::Overflow);
    assert_eq!(db.asset_by_id(2).unwrap().path, "Assets/A/Mat.mat");
}

#[test]
fn hits_pass_the_filters_of_a_search() {
    let db = sample();
    let q = |query: &str| SearchQuery { query: query.into(), limit: 10, ..Default::default() };
    let paths = |q: &SearchQuery| db.search(q, &vec![]).iter().map(|a| a.path.clone()).collect::<Vec<_>>();
    assert_eq!(paths(&q("tex")), vec!["Assets/A/Tex.png", "Assets/B/Tex.png"]);
    assert_eq!(paths(&SearchQuery { package: Some("2".into()), ..q("tex") }), vec!["Assets/B/Tex.png"]);
    assert_eq!(paths(&SearchQuery { ext: Some(".CS".into()), ..q("") }), vec!["Assets/A/Run.cs"]);
    assert_eq!(paths(&SearchQuery { kind: Some("prefab,scene".into()), ..q("") }).len(), 2);
    assert_eq!(paths(&SearchQuery { limit: 0, ..q("") }).len(), 1);
    assert_eq!(paths(&SearchQuery { offset: 5, ..q("") }).len(), 1);
    assert_eq!(db.search_terms(&q("tex")), None);
    let p = Package { title: Some("First".into()), ..db.package_by_id(1).unwrap() };
    let t = search_text(&db.asset_rows()[0], &p);
    assert_eq!((t.tokens.as_str(), t.package.as_str()), ("Assets A Root prefab prefab prefab", "One First"));
}

#[test]
fn every_guid_has_one_fate() {
    let db = sample();
    for scripts in [true, false] {
        for depth in [None, Some(1)] {
            let roots = resolve_roots(&db, &vec!["Two::Root.prefab".into()], None).unwrap();
            let cl = resolve_closure(&db, &KnownGuids::new(&vec![]), &roots, scripts, depth);
            for g in (1..10).map(guid) {
                let fates = [cl.contains(&g), cl.unresolved.contains_key(&g), cl.skipped_scripts.contains_key(&g)];
                assert!(fates.iter().filter(|f| **f).count() <= 1, "{g}");
            }
            for n in &cl.nodes {
                let edges = cl.edges.get(&n.asset.guid);
                let followed = depth.map_or(true, |d| n.depth < d);
                assert_eq!(edges.cloned(), followed.then_some(db.refs_of(n.asset.id)));
            }
            let plan = build_plan(&db, &KnownGuids::new(&vec![]), &roots, depth.is_none(), scripts, true);
            let ids: std::collections::BTreeSet<(i64, String)> =
                plan.assets.iter().map(|a| (a.package_id, a.guid.clone())).collect();
            assert_eq!(ids.len(), plan.assets.len());
        }
    }
}

#[test]
fn closures_prefer_the_own_package() {
    let db = sample();
    let known = KnownGuids::new(&vec![(guid(9).to_uppercase(), "Nine".into())]);
    let roots = resolve_roots(&db, &vec!["Assets/A/Root.prefab".into()], None).unwrap();
    let cl = resolve_closure(&db, &known, &roots, true, None);
    let got: Vec<(String, i64, u32)> = cl.nodes.iter().map(|n| (n.asset.guid.clone(), n.asset.package_id, n.depth)).collect();
    assert_eq!(got, vec![(guid(1), 1, 0), (guid(2), 1, 1), (guid(3), 1, 2)]);
    assert_eq!(cl.get(&guid(3)).unwrap().ambiguous_in, vec![2]);
    assert_eq!(cl.unresolved.get(&guid(9)).unwrap().label.as_deref(), Some("Nine"));
    assert_eq!(cl.total_bytes(), 30);
    assert_eq!(cl.package_ids(), vec![1]);
    let cut = resolve_closure(&db, &known, &roots, true, Some(1));
    assert_eq!(cut.nodes.iter().map(|n| n.asset.guid.clone()).collect::<Vec<_>>(), vec![guid(1), guid(2)]);
    assert_eq!(cut.edges.keys(), vec![guid(1)]);
    let bare = resolve_closure(&db, &known, &roots, true, Some(0));
    assert_eq!((bare.nodes.len(), bare.edges.len(), bare.unresolved.len()), (1, 0, 0));
    let roots = resolve_roots(&db, &vec!["Two::Root.prefab".into()], None).unwrap();
    let cl = resolve_closure(&db, &known, &roots, false, None);
    assert_eq!(cl.nodes.iter().map(|n| n.asset.package_id).collect::<Vec<_>>(), vec![2, 2]);
    assert!(cl.skipped_scripts.contains_key(&guid(4)));
    assert!(cl.scripts().is_empty());
    assert_eq!(known_guid_label(&known, "0000000000000000f000000000000000").is_some(), true);
    assert_eq!(known_guid_label(&known, &guid(77)), None);
    let common = KnownGuids::common();
    for g in ["933532a4fcc9baf4fa0491de14d08ed7", "933532A4FCC9BAF4FA0491DE14D08ED7"] {
        assert!(known_guid_label(&common, g).unwrap().contains("URP"));
    }
    assert_eq!(known_guid_label(&common, "0000000000000000F000000000000000").as_deref(), Some("Unity built-in resource"));
}

#[test]
fn identifiers_are_resolved() {
    let db = sample();
    assert_eq!(resolve_asset(&db, "#2", None).unwrap().guid, guid(2));
    assert_eq!(resolve_asset(&db, &guid(2), None).unwrap().id, 2);
    assert_eq!(resolve_asset(&db, "B/Tex.png", None).unwrap().package_id, 2);
    assert_eq!(resolve_asset(&db, "Tex.png", Some("One")).unwrap().package_id, 1);
    assert!(matches!(resolve_asset(&db, "Root.prefab", None), Err(Error::User(UaiError::Ambiguous { candidates, .. })) if candidates.len() == 2));
    assert!(matches!(resolve_asset(&db, "#99", None), Err(Error::User(UaiError::NotFound(_)))));
    assert!(matches!(resolve_package(&db, "o"), Err(Error::User(UaiError::Ambiguous { package_candidates, .. })) if package_candidates.len() == 2));
    assert!(matches!(resolve_package(&db, "99999999999999999999"), Err(Error::Other(_))));
    let twice = resolve_roots(&db, &vec!["#1".into(), guid(1), "#2".into()], None).unwrap();
    assert_eq!(twice.len(), 2);
}

#[test]
fn plans_warn_of_what_is_open() {
    let db = sample();
    let known = KnownGuids::new(&vec![]);
    let roots = resolve_roots(&db, &vec!["#1".into()], None).unwrap();
    let plan = build_plan(&db, &known, &roots, true, true, true);
    assert_eq!(plan.warnings.len(), 2);
    assert!(plan.warnings[0].starts_with("1 referenced guid(s)"));
    assert!(plan.warnings[1].starts_with("1 guid(s) exist in more than one package"));
    assert_eq!(plan.total_bytes(), 30);
    assert_eq!(plan.all_guids().to_vec(), vec![guid(1), guid(2), guid(3)]);
    assert_eq!(build_plan(&db, &known, &roots, false, true, true).assets.len(), 1);
}

#[test]
fn plans_take_the_folders_above() {
    let mut db = sample();
    let folder = |n: u8, path: &str| {
        let mut e = entry(n, path, &[]);
        e.is_folder = true;
        e.asset_size = 0;
        e
    };
    let one = vec![
        entry(1, "Assets/A/Deep/Root.prefab", &[5]),
        folder(6, "Assets/A"),
        folder(7, "Assets/A/Deep"),
        folder(8, "Assets/Other"),
    ];
    db.replace_package_assets(1, &one, true, 2).unwrap();
    let known = KnownGuids::new(&vec![]);
    let roots = resolve_roots(&db, &vec![guid(1)], None).unwrap();
    let plan = build_plan(&db, &known, &roots, true, true, true);
    assert_eq!(plan.folders.iter().map(|a| a.guid.clone()).collect::<Vec<_>>(), vec![guid(6), guid(7)]);
    let held: Vec<(i64, Vec<String>)> =
        plan.by_package.iter().map(|(p, v)| (*p, v.iter().map(|a| a.guid.clone()).collect())).collect();
    assert_eq!(held, vec![(1, vec![guid(1), guid(6), guid(7)]), (2, vec![guid(5), guid(3)])]);
    assert_eq!(plan.assets.len(), held.iter().map(|(_, v)| v.len()).sum::<usize>());
    assert!(build_plan(&db, &known, &roots, true, true, false).folders.is_empty());
}

fn asset(n: u8, path: &str) -> Asset {
    Asset { guid: guid(n), path: path.into(), size: 3, ..Default::default() }
}

fn member(n: u8, leaf: &str, data: &[u8]) -> Member {
    Member { guid: guid(n), leaf: leaf.into(), size: data.len() as u64, mtime: 5, data: data.to_vec() }
}

#[test]
fn existing_files_are_kept() {
    let mut guids: TextMap<String> = TextMap::new();
    guids.insert(guid(1), "Assets/Old.png".into());
    guids.insert(guid(2), "ASSETS/B.png".into());
    let mut exists = TextSet::new();
    exists.insert("/p/Assets/C.png".into());
    exists.insert("/p/Assets/Dir.meta".into());
    let mut dir = asset(4, "Assets/Dir");
    dir.is_folder = true;
    let all = vec![asset(1, "Assets/A.png"), asset(2, "Assets/B.png"), asset(3, "Assets/C.png"), dir];
    let mut res = ExportResult::default();
    let todo = select_todo(&all, "/p", false, &guids, &exists, &mut res);
    assert_eq!(todo.keys(), vec![guid(2)]);
    assert_eq!(res.conflicts[0].existing_path, "Assets/Old.png");
    assert_eq!(res.skipped_existing.iter().map(|w| w.path.as_str()).collect::<Vec<_>>(), vec!["Assets/C.png", "Assets/Dir"]);
    let mut res = ExportResult::default();
    let todo = select_todo(&all, "/p", true, &guids, &exists, &mut res);
    assert_eq!(todo.len(), 3);
    assert!(res.skipped_existing.is_empty());
    let mut dry = ExportResult::default();
    rehearse(&todo, &mut dry);
    assert_eq!(dry.written.iter().map(|w| w.path.as_str()).collect::<Vec<_>>(), vec!["Assets/B.png", "Assets/C.png", "Assets/Dir"]);
    assert_eq!(dry.bytes_written, 9);
    assert_eq!(rehearse_unitypackage(&all, "/x").written.len(), 4);
}

#[test]
fn incomplete_assets_are_reported() {
    let mut todo: TextMap<Asset> = TextMap::new();
    let mut dir = asset(3, "Assets/Dir");
    dir.is_folder = true;
    for a in [asset(1, "Assets/A.png"), asset(2, "Assets/B.png"), dir] {
        todo.insert(a.guid.clone(), a);
    }
    let members = vec![
        member(1, "asset", b"data"),
        member(1, "asset.meta", b"m"),
        member(2, "asset", b"xy"),
        member(2, "pathname", b"p"),
        member(3, "asset.meta", b"d"),
        member(9, "asset", b"unwanted"),
    ];
    let mut res = ExportResult::default();
    let files = write_members(todo.clone(), "/p", false, &TextSet::new(), &members, &mut res);
    assert_eq!(
        files.iter().map(|f| f.path.as_str()).collect::<Vec<_>>(),
        vec!["/p/Assets/A.png", "/p/Assets/A.png.meta", "/p/Assets/B.png", "/p/Assets/Dir.meta"]
    );
    assert_eq!((files[0].mtime, files[1].mtime), (5, 0));
    assert_eq!(files[3].folder.as_deref(), Some("/p/Assets/Dir"));
    assert_eq!(res.bytes_written, 6);
    assert_eq!(res.written.iter().map(|w| w.guid.clone()).collect::<Vec<_>>(), vec![guid(1), guid(3)]);
    assert_eq!(res.missing_in_package[0].got, vec!["asset"]);
    let mut tally = Tally::new(Goal::Repack, todo);
    for m in &members {
        tally.note(&m.guid, &m.leaf, m.size);
    }
    let mut res = ExportResult::default();
    tally.finish(&mut res);
    assert_eq!(res.missing_in_package[0].got, vec!["asset", "pathname"]);
    assert_eq!(res.written.len(), 2);
}

#[test]
fn unpacking_reads_only_what_is_wanted() {
    let tar = |name: String, data: &[u8]| TarMember { name, is_file: true, size: data.len() as u64, mtime: 1, data: data.to_vec() };
    let members = vec![
        tar(format!("{}/asset", guid(1)), b"a"),
        tar(format!("./{}/asset.meta", guid(1)), b"m"),
        tar(format!("{}/asset", guid(2)), b"b"),
    ];
    let pack = PackExport { result: ExportResult::default(), members, log: vec![] };
    let file = finish_unitypackage(pack, "p").unwrap().file.unwrap();
    let one = vec![asset(1, "Assets/A.png")];
    let (res, files) = unpack_package_to_dir(&file, &one, "/o", false, &TextMap::new(), &TextSet::new()).unwrap();
    assert_eq!((res.output.as_str(), res.written.len(), files.len()), ("/o", 1, 2));
    let mut there = TextSet::new();
    there.insert("/o/Assets/A.png".into());
    let (res, files) = unpack_package_to_dir(&[], &one, "/o", false, &TextMap::new(), &there).unwrap();
    assert_eq!((res.skipped_existing.len(), files.len()), (1, 0));
    assert!(matches!(unpack_package_to_dir(&[], &one, "/o", true, &TextMap::new(), &there), Err(Error::Other(_))));
    let found = read_members(&file, &vec![guid(2).to_uppercase()]).unwrap();
    assert_eq!((found.len(), found[0].guid.clone(), found[0].leaf.as_str(), found[0].mtime), (1, guid(2), "asset", 1));
    assert_eq!(found[0].data, b"b");
    assert!(matches!(read_members(&[], &vec![]), Err(Error::Other(m)) if m.starts_with("reading tar entry: ")));
}

/// Bytes that do not compress.
fn noise(seed: u32, n: usize) -> Vec<u8> {
    let mut x = seed;
    (0..n)
        .map(|_| {
            x = x.wrapping_mul(1_664_525).wrapping_add(1_013_904_223);
            (x >> 24) as u8
        })
        .collect()
}

#[test]
fn damage_behind_the_wanted_members_is_not_met() {
    let tar = |name: String, data: Vec<u8>| TarMember { name, is_file: true, size: data.len() as u64, mtime: 1, data };
    let members = vec![
        tar(format!("{}/asset", guid(1)), noise(1, 50_000)),
        tar(format!("{}/asset.meta", guid(1)), b"m".to_vec()),
        tar(format!("{}/asset", guid(2)), noise(2, 50_000)),
    ];
    let pack = PackExport { result: ExportResult::default(), members, log: vec![] };
    let file = finish_unitypackage(pack, "p").unwrap().file.unwrap();
    let half = &file[..file.len() * 3 / 4];
    let found = read_members(half, &vec![guid(1)]).unwrap();
    assert_eq!(found.iter().map(|m| m.leaf.as_str()).collect::<Vec<_>>(), vec!["asset", "asset.meta"]);
    assert_eq!(found[0].data, noise(1, 50_000));
    assert!(matches!(read_members(half, &vec![guid(2)]), Err(Error::Other(m)) if !m.starts_with("reading")));
    assert!(read_members(half, &vec![guid(1), guid(2)]).is_err());
    assert!(matches!(read_members(half, &vec![guid(3)]), Err(Error::Other(_))));
    assert!(read_entries(half, ScanOptions::default()).is_err());
    let one = vec![asset(1, "Assets/A.png")];
    let (res, files) = unpack_package_to_dir(half, &one, "/o", false, &TextMap::new(), &TextSet::new()).unwrap();
    assert_eq!((res.written.len(), files.len()), (1, 2));
    let two = vec![asset(2, "Assets/B.png")];
    assert!(unpack_package_to_dir(half, &two, "/o", false, &TextMap::new(), &TextSet::new()).is_err());
}

#[test]
fn faults_are_told_where_they_are_met() {
    let tar = |n: u8| TarMember { name: format!("{}/asset", guid(n)), is_file: true, size: 1, mtime: 1, data: vec![n] };
    let torn = |member: Option<String>| Unpacked {
        members: vec![tar(1), tar(2)],
        fault: Some(Fault { member, words: "torn".into() }),
    };
    let told = |found: &Unpacked, n: u8| match collect_members(found, &vec![guid(n)]) {
        Ok(ms) => format!("{}", ms.len()),
        Err(e) => describe(&e),
    };
    let between = torn(None);
    assert_eq!((told(&between, 1), told(&between, 2)), ("1".into(), "reading tar entry: torn".into()));
    let inside = torn(Some(format!("{}/asset", guid(3))));
    assert_eq!((told(&inside, 1), told(&inside, 2), told(&inside, 3)), ("1".into(), "1".into(), "torn".into()));
    assert_eq!(told(&torn(Some("readme".into())), 2), "torn");
    assert_eq!(told(&Unpacked { members: vec![tar(1)], fault: None }, 2), "0");
    assert_eq!(describe(&collect_entries(&between, ScanOptions::default()).unwrap_err()), "reading tar entry: torn");
    assert_eq!(describe(&collect_entries(&inside, ScanOptions::default()).unwrap_err()), "torn");
    let raw = |n: u8, read: Result<Vec<u8>, String>| Ok((format!("{}/asset", guid(n)).into_bytes(), true, Some(1), None, read));
    let got = gather(vec![raw(1, Ok(vec![7])), raw(2, Err("bad".into())), raw(3, Ok(vec![]))]);
    assert_eq!((got.members.len(), got.members[0].mtime, got.members[0].data.clone()), (1, 0, vec![7]));
    let fault = got.fault.unwrap();
    assert_eq!((fault.member, fault.words.as_str()), (Some(format!("{}/asset", guid(2))), "bad"));
    let got = gather(vec![raw(1, Ok(vec![7])), Err("gone".into())]);
    assert_eq!((got.members.len(), got.fault.unwrap().member), (1, None));
    let named = gather(vec![Ok((vec![b'a', 0xff], false, None, Some(3), Ok(vec![])))]);
    assert_eq!((named.members[0].name.as_str(), named.members[0].size, named.fault.is_none()), ("a\u{fffd}", 0, true));
    let whole = Unpacked { members: vec![tar(1), tar(2)], fault: None };
    assert_eq!(for_each_member(&whole.members, &vec![guid(2)]).len(), 1);
    assert_eq!(collect_entries(&whole, ScanOptions::default()).unwrap().len(), 2);
}

#[test]
fn import_settings_that_are_there_stay() {
    let mut todo: TextMap<Asset> = TextMap::new();
    todo.insert(guid(1), asset(1, "Assets/A.png"));
    let mut there = TextSet::new();
    there.insert("/p/Assets/A.png.meta".into());
    assert_eq!(asset_places("/p", &asset(1, "Assets/A.png")), vec!["/p/Assets/A.png", "/p/Assets/A.png.meta"]);
    let members = vec![member(1, "asset", b"data"), member(1, "asset.meta", b"m")];
    let place = |force: bool, leaf: &str| placement(&todo, "/p", force, &there, &guid(1), leaf).map(|p| p.path);
    assert_eq!(place(false, "asset").as_deref(), Some("/p/Assets/A.png"));
    assert_eq!(place(false, "asset.meta"), None);
    assert_eq!(place(true, "asset.meta").as_deref(), Some("/p/Assets/A.png.meta"));
    let mut res = ExportResult::default();
    let files = write_members(todo.clone(), "/p", false, &there, &members, &mut res);
    assert_eq!(files.iter().map(|f| f.path.as_str()).collect::<Vec<_>>(), vec!["/p/Assets/A.png"]);
    assert_eq!((res.written.len(), res.bytes_written), (1, 4));
    let db = sample();
    let turn = || Turn { exists: there.clone(), members: members.clone() };
    let groups = vec![(1, vec![asset(1, "Assets/A.png")])];
    let kept = export_to_dir(&db, &groups, "/p", false, false, &TextMap::new(), &vec![turn()]).unwrap();
    assert!(kept.files.iter().all(|f| f.path != "/p/Assets/A.png.meta"));
    let forced = export_to_dir(&db, &groups, "/p", true, false, &TextMap::new(), &vec![turn()]).unwrap();
    assert_eq!(forced.files.len(), 2);
}

#[test]
fn packed_files_read_back() {
    let file = |name: String, data: &[u8]| TarMember { name, is_file: true, size: data.len() as u64, mtime: 7, data: data.to_vec() };
    let packed = |members: Vec<TarMember>| PackExport { result: ExportResult::default(), members, log: vec!["l".into()] };
    let members = vec![file(format!("{}/asset", guid(1)), b"abc"), file(format!("{}/pathname", guid(1)), b"Assets/a.txt")];
    let slim = finish_unitypackage(packed(members), "out.unitypackage").unwrap();
    assert_eq!((slim.result.output.as_str(), slim.log.len()), ("out.unitypackage", 1));
    let bytes = slim.file.unwrap();
    assert_eq!(&bytes[..2], b"\x1f\x8b");
    let entries = read_entries(&bytes, ScanOptions::default()).unwrap();
    assert_eq!((entries.len(), entries[0].path.as_str(), entries[0].asset_size), (1, "Assets/a.txt", 3));
    let torn = read_entries(&bytes[1..], ScanOptions::default());
    assert!(matches!(torn, Err(Error::Other(m)) if m == "reading tar entry: invalid gzip header"));
    let up = finish_unitypackage(packed(vec![file(format!("{}/..", guid(1)), b"")]), "x");
    assert!(matches!(up, Err(Error::Other(m)) if m.contains("..")));
}

#[test]
fn caches_and_sources_are_found() {
    let cfg = Config { library: "/lib".into(), home: "/h".into(), server: None };
    let pkg = Package { id: 12, rel_path: "Pub/P.unitypackage".into(), ..Default::default() };
    assert_eq!(package_abs_path(&cfg, &pkg), "/lib/Pub/P.unitypackage");
    assert_eq!(cache_path_for(&cfg, 12), "/h/cache/12");
    assert_eq!(cache_partial_for(&cfg, 12), "/h/cache/12.partial");
    assert!(matches!(member_source(&cfg, &pkg, true, false), Ok(Source::Cache(d)) if d == "/h/cache/12"));
    assert!(matches!(member_source(&cfg, &pkg, false, true), Ok(Source::File(p)) if p == "/lib/Pub/P.unitypackage"));
    assert!(matches!(member_source(&cfg, &pkg, false, false), Err(Error::Other(m)) if m.starts_with("package file not found: /lib/Pub")));
    let db = sample();
    let dir = |name: &str, is_dir: bool| CacheDir {
        name: name.into(),
        is_dir,
        bytes: 9,
        complete: true,
        path: format!("/h/cache/{name}"),
    };
    let list = cache_list(&db, vec![dir("7", true), dir("2", true), dir("1", false), dir("1.partial", true), dir("10", true)]);
    assert_eq!(list.iter().map(|e| e.package_id).collect::<Vec<_>>(), vec![10, 2, 7]);
    assert_eq!(list.iter().map(|e| e.package.as_str()).collect::<Vec<_>>(), vec!["?", "Two", "?"]);
    assert!(matches!(find_source(&db, 8), Err(Error::Other(m)) if m == "package 8 vanished from the index"));
    assert_eq!(meta_path("/a/b"), "/a/b.meta");
    assert_eq!(partial_path("/x.unitypackage"), "/x.unitypackage.partial");
}

#[test]
fn projects_are_scanned_for_guids() {
    let text = format!("fileFormatVersion: 2\r\nguid: nonsense\nguid:  {} \r\n", guid(0xab).to_uppercase());
    assert_eq!(meta_guid(&text), Some(guid(0xab)));
    assert_eq!(meta_guid(" guid: 0"), None);
    let file = |rel: &str, head: &[u8]| MetaFile { rel: rel.into(), head: head.to_vec() };
    let mut broken = text.clone().into_bytes();
    broken.insert(0, 0xff);
    let map = scan_project_guids(&vec![
        file("Assets\\A.png.meta", text.as_bytes()),
        file("Assets/b.txt", text.as_bytes()),
        file("Assets/c.png.meta", b"no guid"),
    ]);
    assert_eq!(map.keys(), vec![guid(0xab)]);
    assert_eq!(map.get(&guid(0xab)).unwrap(), "Assets/A.png");
    assert_eq!(scan_project_guids(&vec![file("d.meta", &broken)]).len(), 1);
}

#[test]
fn library_files_are_told_apart() {
    assert_eq!(
        split_rel_path("Pub/3D/Props/Chest.UnityPackage"),
        ("Chest".to_string(), "Pub".to_string(), "3D/Props".to_string())
    );
    assert_eq!(split_rel_path("Chest.zip"), ("Chest.zip".to_string(), "".to_string(), "".to_string()));
    assert_eq!(split_rel_path("Pub/x.unitypackage"), ("x".to_string(), "Pub".to_string(), "".to_string()));
    assert_eq!(rel_path("/lib/", "/lib/a/b"), "a/b");
    assert_eq!(rel_path("/lib", "/library/b"), "/library/b");
    assert_eq!(rel_path("/lib", "/lib\\x"), "/lib/x");
    assert_eq!(rel_path("/lib/./x", "/lib/x/a"), "a");
    assert_eq!(rel_path("/lib//x/", "/lib/x/./a/./b/."), "a/./b");
    assert_eq!((rel_path("lib", "./lib/a"), rel_path("./lib", "./lib/a")), ("./lib/a".to_string(), "a".to_string()));
    assert_eq!((rel_path("/", "/a"), rel_path("lib", "/lib/a"), rel_path("/l", "/l")), ("a".to_string(), "/lib/a".to_string(), "".to_string()));
    assert_eq!((rel_path("", "a/b/"), rel_path("", "/"), rel_path("", "./")), ("a/b".to_string(), "/".to_string(), ".".to_string()));
    let paths = |v: &[&str]| v.iter().map(|s| s.to_string()).collect::<Vec<_>>();
    assert_eq!(
        discover_packages(&paths(&["/l/b c/x.unitypackage", "/l/b/y.UNITYPACKAGE", "/l/b/.z.unitypackage", "/l/n.txt"])),
        paths(&["/l/b/y.UNITYPACKAGE", "/l/b c/x.unitypackage"])
    );
    assert!(is_hidden(".git") && !is_hidden("git"));
    assert!(is_asked_for("Pub A/x", &Some("pub a".into())) && !is_asked_for("Pub B/x", &Some("pub a".into())));
    let cfg = Config { library: "/l".into(), home: "/h".into(), server: None };
    assert!(check_library(&cfg, true).is_ok());
    assert!(matches!(check_library(&cfg, false), Err(Error::Other(m)) if m.starts_with("Library not found: /l (")));
    assert_eq!(first_line("a\r\nb"), "a");
    assert_eq!(first_line(""), "");
    let opts = IndexOptions::for_processors(64);
    assert_eq!((opts.workers, opts.worker_count(3), opts.worker_count(0)), (6, 3, 1));
    let mut batch = PreviewBatch::new();
    assert!(batch.push("a", vec![0; 10]).is_none());
    let full = batch.push("b", vec![0; PREVIEW_CHUNK_BYTES]).unwrap();
    assert_eq!(full.len(), 2);
    assert_eq!((batch.items.len(), batch.bytes), (0, 0));
}

#[test]
fn assets_are_scanned_for_references() {
    let yaml = format!("%YAML 1.1\n--- !u!21 &2100000\n  a: {{guid: {}}}\n  b: {{guid : \"{}\"}}\n", guid(1), guid(2));
    let mut e = Entry::new(&guid(1));
    scan_asset(&mut e, yaml.as_bytes(), yaml.len() as u64, 1 << 20);
    assert!(e.is_yaml && e.is_text && !e.scan_truncated);
    assert_eq!(e.main_class().as_deref(), Some("Material"));
    // what refers to itself is left out at the end
    assert_eq!(e.finish().refs.to_vec(), vec![guid(2)]);
    let mut big = Entry::new(&guid(1));
    scan_asset(&mut big, yaml.as_bytes(), yaml.len() as u64, 10);
    assert!(big.scan_truncated);
    let mut bin = Entry::new(&guid(1));
    scan_asset(&mut bin, b"\x00\x01guid: 00000000000000000000000000001001", 40, 1 << 20);
    assert!(!bin.is_text && bin.refs.is_empty());
    let mut m = Entry::new(&guid(1));
    parse_meta(&mut m, &format!("guid: {}\nfolderAsset: yes\nlabels:\n- one\n- 'two'\nDefaultImporter:\n  x: {{guid: {}}}\n", guid(1), guid(6)));
    assert!(m.is_folder);
    assert_eq!(m.importer.as_deref(), Some("DefaultImporter"));
    assert_eq!(m.labels.len(), 2);
    assert!(m.refs.contains(&guid(6)));
    assert_eq!(parse_pathname(b"Assets\\A b.png\n00"), "Assets/A b.png");
    assert_eq!(parse_pathname(b"\xff"), "");
}

#[test]
fn packages_are_scanned_directory_by_directory() {
    let file = |n: u8, leaf: &str, data: &[u8]| TarMember {
        name: format!("./{}/{leaf}", guid(n)),
        is_file: true,
        size: data.len() as u64,
        mtime: 0,
        data: data.to_vec(),
    };
    let members = vec![
        file(1, "asset", b"text"),
        file(1, "pathname", b"Assets/a.txt"),
        file(1, "preview.png", b"png"),
        TarMember { name: "junk".into(), is_file: true, size: 1, mtime: 0, data: vec![1] },
        file(2, "pathname", b"Assets/b.txt"),
    ];
    let kept = scan_package(&members, ScanOptions { keep_previews: true, ..Default::default() });
    assert_eq!(kept.iter().map(|e| e.path.as_str()).collect::<Vec<_>>(), vec!["Assets/a.txt", "Assets/b.txt"]);
    assert_eq!(kept[0].preview.as_deref(), Some(&b"png"[..]));
    assert!(scan_package(&members, ScanOptions::default())[0].preview.is_none());
    assert!(scan_package(&members, ScanOptions::default())[0].has_preview);
    let head = [0x1f, 0x8b, 8, 4, 0, 0, 0, 0, 0, 0, 6, 0, b'A', b'$', 2, 0, b'{', b'}'];
    assert_eq!(extra_fields(&head), vec![b"{}".to_vec()]);
    assert!(extra_fields(&head[..9]).is_empty());
}
