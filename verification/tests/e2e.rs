//! End-to-end tests against synthetic packages that are built in memory.

use std::collections::{BTreeSet, HashMap};
use std::io::Write;

use flate2::write::GzEncoder;
use flate2::Compression;

use uai::cache::{cache_file, fill_cache, read_cached};
use uai::config::Config;
use uai::db::{search_text, Database};
use uai::deps::{resolve_closure, KnownGuids};
use uai::error::{describe, Error, UaiError};
use uai::exporter::{
    cache_complete, cache_mark_for, cached_members, export_to_dir, export_to_unitypackage, extract_text, asset_places, read_member,
    scan_project_guids, unpack_package_to_dir, MetaFile, PlacedFile, Turn,
};
use uai::indexer::{
    judge_package, survey_library, FoundFile, IndexOptions, JobEnd, Run, Scan,
};
use uai::mcp::{call_tool, ToolCall};
use uai::model::{Asset, ExportRequest, IndexReport, SearchQuery};
use uai::plan::{build_plan, Plan};
use uai::service::{check_text, text_for, ExportDest, LocalService, PreviewStep};
use uai::sorted::{TextMap, TextSet};
use uai::unitypackage::{parse_gzip_extra_json, read_entries, read_members, Member, ScanOptions, TarMember};

const G_PREFAB: &str = "aaaaaaaaaaaaaaaaaaaaaaaaaaaaaaa1";
const G_MAT: &str = "aaaaaaaaaaaaaaaaaaaaaaaaaaaaaaa2";
const G_TEX: &str = "aaaaaaaaaaaaaaaaaaaaaaaaaaaaaaa3";
const G_FBX: &str = "aaaaaaaaaaaaaaaaaaaaaaaaaaaaaaa4";
const G_SCRIPT: &str = "aaaaaaaaaaaaaaaaaaaaaaaaaaaaaaa5";
const G_FOLDER: &str = "aaaaaaaaaaaaaaaaaaaaaaaaaaaaaaa6";
const G_OTHER_TEX: &str = "bbbbbbbbbbbbbbbbbbbbbbbbbbbbbbb1";
const G_MISSING: &str = "cccccccccccccccccccccccccccccccc";
const URP_LIT: &str = "933532a4fcc9baf4fa0491de14d08ed7";

const CHEST: &str = "Pub A/3D ModelsProps/Chest Pack.unitypackage";
const SHARED: &str = "Pub B/Textures/Shared Textures.unitypackage";
const PNG: &[u8] = b"\x89PNG\r\n\x1a\nfakepng";

fn meta(guid: &str, importer: &str, folder: bool) -> Vec<u8> {
    let mut s = format!("fileFormatVersion: 2\nguid: {guid}\n");
    if folder {
        s.push_str("folderAsset: yes\n");
    }
    s.push_str(&format!("{importer}:\n  externalObjects: {{}}\n  userData: \n"));
    s.into_bytes()
}

struct E {
    guid: &'static str,
    path: &'static str,
    asset: Option<Vec<u8>>,
    meta: Vec<u8>,
    preview: bool,
}

fn add(tar: &mut tar::Builder<Vec<u8>>, guid: &str, leaf: &str, data: &[u8]) {
    let mut h = tar::Header::new_gnu();
    h.set_size(data.len() as u64);
    h.set_mode(0o644);
    h.set_mtime(1_700_000_000);
    tar.append_data(&mut h, format!("{}/{}", guid, leaf), data).unwrap();
}

/// Build a package; with `header`, emulate the Asset Store gzip FEXTRA header.
fn make_package(entries: &[E], header: Option<serde_json::Value>) -> Vec<u8> {
    let mut tar = tar::Builder::new(Vec::new());
    for e in entries {
        let mut h = tar::Header::new_gnu();
        h.set_entry_type(tar::EntryType::Directory);
        h.set_size(0);
        h.set_mode(0o755);
        tar.append_data(&mut h, e.guid, &[][..]).unwrap();
        if let Some(a) = &e.asset {
            add(&mut tar, e.guid, "asset", a);
        }
        add(&mut tar, e.guid, "asset.meta", &e.meta);
        add(&mut tar, e.guid, "pathname", format!("{}\n00", e.path).as_bytes());
        if e.preview {
            add(&mut tar, e.guid, "preview.png", PNG);
        }
    }
    zip(tar.into_inner().unwrap(), header)
}

fn zip(raw: Vec<u8>, header: Option<serde_json::Value>) -> Vec<u8> {
    let mut gz = GzEncoder::new(Vec::new(), Compression::default());
    gz.write_all(&raw).unwrap();
    let gz = gz.finish().unwrap();
    match header {
        None => gz,
        Some(h) => {
            let payload = serde_json::to_vec(&h).unwrap();
            let mut sub = b"A$".to_vec();
            sub.extend_from_slice(&(payload.len() as u16).to_le_bytes());
            sub.extend_from_slice(&payload);
            let mut out = gz[..10].to_vec();
            out[3] |= 4;
            out.extend_from_slice(&(sub.len() as u16).to_le_bytes());
            out.extend_from_slice(&sub);
            out.extend_from_slice(&gz[10..]);
            out
        }
    }
}

fn prefab_yaml() -> String {
    format!(
        "%YAML 1.1\n%TAG !u! tag:unity3d.com,2011:\n--- !u!1 &100\nGameObject:\n  m_Name: Chest\n--- !u!23 &200\nMeshRenderer:\n  m_Materials:\n  - {{fileID: 2100000, guid: {G_MAT}, type: 2}}\n--- !u!33 &300\nMeshFilter:\n  m_Mesh: {{fileID: 4300000, guid: {G_FBX}, type: 3}}\n--- !u!114 &400\nMonoBehaviour:\n  m_Script: {{fileID: 11500000, guid: {G_SCRIPT}, type: 3}}\n  someMissing: {{fileID: 1, guid: {G_MISSING}, type: 2}}\n  builtin: {{fileID: 10754, guid: 0000000000000000f000000000000000, type: 0}}\n"
    )
}

fn mat_yaml() -> String {
    format!(
        "%YAML 1.1\n%TAG !u! tag:unity3d.com,2011:\n--- !u!21 &2100000\nMaterial:\n  m_Name: Chest\n  m_Shader: {{fileID: 4800000, guid: {URP_LIT}, type: 3}}\n  m_SavedProperties:\n    m_TexEnvs:\n    - _BaseMap:\n        m_Texture: {{fileID: 2800000, guid: {G_TEX}, type: 3}}\n    - _Detail:\n        m_Texture: {{fileID: 2800000, guid: {G_OTHER_TEX}, type: 3}}\n"
    )
}

struct Fixture {
    files: HashMap<String, Vec<u8>>,
    svc: LocalService,
    report: IndexReport,
}

fn library() -> HashMap<String, Vec<u8>> {
    let mut files = HashMap::new();
    let header = serde_json::from_str(
        r#"{"title": "Chest Pack", "version": "1.2.3", "unity_version": "2022.3.1f1", "id": "12345",
            "category": {"id": "1", "label": "3D Models/Props"}, "publisher": {"id": "9", "label": "Pub A"}}"#,
    )
    .unwrap();
    files.insert(
        CHEST.to_string(),
        make_package(
            &[
                E {
                    guid: G_FOLDER,
                    path: "Assets/Chest",
                    asset: None,
                    meta: meta(G_FOLDER, "DefaultImporter", true),
                    preview: false,
                },
                E {
                    guid: G_PREFAB,
                    path: "Assets/Chest/Prefabs/Chest.prefab",
                    asset: Some(prefab_yaml().into_bytes()),
                    meta: meta(G_PREFAB, "PrefabImporter", false),
                    preview: true,
                },
                E {
                    guid: G_MAT,
                    path: "Assets/Chest/Materials/Chest.mat",
                    asset: Some(mat_yaml().into_bytes()),
                    meta: meta(G_MAT, "NativeFormatImporter", false),
                    preview: false,
                },
                E {
                    guid: G_TEX,
                    path: "Assets/Chest/Textures/Chest_Albedo.png",
                    asset: Some(b"\x89PNG\x00\x00binary".repeat(100)),
                    meta: meta(G_TEX, "TextureImporter", false),
                    preview: false,
                },
                E {
                    guid: G_FBX,
                    path: "Assets/Chest/Models/SM_Chest.fbx",
                    asset: Some(b"Kaydara FBX Binary\x00\x00".repeat(50)),
                    meta: meta(G_FBX, "ModelImporter", false),
                    preview: false,
                },
                E {
                    guid: G_SCRIPT,
                    path: "Assets/Chest/Scripts/ChestOpener.cs",
                    asset: Some(b"using UnityEngine;\npublic class ChestOpener : MonoBehaviour {}\n".to_vec()),
                    meta: meta(G_SCRIPT, "MonoImporter", false),
                    preview: false,
                },
            ],
            Some(header),
        ),
    );
    files.insert(
        SHARED.to_string(),
        make_package(
            &[E {
                guid: G_OTHER_TEX,
                path: "Assets/Shared/Detail.png",
                asset: Some(b"\x89PNGbinary".to_vec()),
                meta: meta(G_OTHER_TEX, "TextureImporter", false),
                preview: false,
            }],
            None,
        ),
    );
    files
}

fn known() -> KnownGuids {
    KnownGuids::new(&vec![(URP_LIT.to_string(), "URP Lit shader".to_string())])
}

/// One run of the indexer over the files of a library.
fn index(db: &mut Database, files: &HashMap<String, Vec<u8>>, opts: &IndexOptions) -> IndexReport {
    let mut rels: Vec<&String> = files.keys().collect();
    rels.sort();
    let found: Vec<FoundFile> = rels
        .iter()
        .map(|rel| FoundFile {
            rel: rel.to_string(),
            size: files[*rel].len() as u64,
            mtime: 1_700_000_000f64.to_bits(),
            moved: false,
            header: parse_gzip_extra_json(&files[*rel]),
            trouble: None,
        })
        .collect();
    let survey = survey_library(db, &found, opts).unwrap();
    let mut run = Run::begin(found.len(), &survey);
    for job in &survey.jobs {
        let scan = ScanOptions { keep_previews: opts.previews, ..Default::default() };
        let mut entries = read_entries(&files[&job.rel], scan).unwrap();
        let mut previews = Vec::new();
        for e in entries.iter_mut() {
            if let Some(png) = e.preview.take() {
                previews.push((e.guid.clone(), png));
            }
        }
        run.count_previews(db.put_previews(&previews));
        let scan = Scan { job: job.clone(), entries, error: None, at: 1_700_000_001f64.to_bits() };
        assert!(matches!(run.take_scan(db, &scan, opts.previews).unwrap(), JobEnd::Stored(_, _)));
    }
    run.end()
}

fn fixture() -> Fixture {
    let files = library();
    let mut db = Database::new("index.db".into(), true);
    let report = index(&mut db, &files, &IndexOptions::for_processors(1));
    assert_eq!(report.indexed, 2, "{report:?}");
    assert_eq!(report.errors, 0);
    assert_eq!(report.previews, 1);
    let cfg = Config { library: "/lib".into(), home: "/home".into(), server: None };
    Fixture { files, svc: LocalService { cfg, db, known: known() }, report }
}

/// What full-text search finds for a query, best first.
fn ranked(db: &Database, q: &SearchQuery) -> Vec<i64> {
    let Some(terms) = db.search_terms(q) else { return Vec::new() };
    let conn = rusqlite::Connection::open_in_memory().unwrap();
    conn.execute_batch(
        "CREATE VIRTUAL TABLE assets_fts USING fts5(asset_id UNINDEXED, name, path, tokens, package, publisher, labels, tokenize = 'unicode61');",
    )
    .unwrap();
    for a in db.asset_rows() {
        let p = db.package_by_id(a.package_id).unwrap();
        let t = search_text(a, &p);
        conn.execute(
            "INSERT INTO assets_fts VALUES (?1, ?2, ?3, ?4, ?5, ?6, ?7)",
            (a.id, t.name, t.path, t.tokens, t.package, t.publisher, t.labels),
        )
        .unwrap();
    }
    let mut st = conn
        .prepare(
            "SELECT asset_id FROM assets_fts WHERE assets_fts MATCH ?1 ORDER BY bm25(assets_fts, 0, 10.0, 3.0, 5.0, 1.0, 1.0, 2.0), length(path)",
        )
        .unwrap();
    let rows = st.query_map([terms], |r| r.get::<_, i64>(0)).unwrap();
    rows.map(|r| r.unwrap()).collect()
}

/// The members of an archive.
fn members_of(package: &[u8]) -> Vec<TarMember> {
    let mut ar = tar::Archive::new(flate2::read::GzDecoder::new(package));
    ar.entries()
        .unwrap()
        .map(|e| {
            let mut e = e.unwrap();
            let name = e.path().unwrap().to_string_lossy().into_owned();
            let mut data = Vec::new();
            std::io::Read::read_to_end(&mut e, &mut data).unwrap();
            TarMember {
                name,
                is_file: e.header().entry_type().is_file(),
                size: e.header().size().unwrap(),
                mtime: e.header().mtime().unwrap(),
                data,
            }
        })
        .collect()
}

/// The members that a plan takes from each package.
fn sources(f: &Fixture, plan: &Plan) -> Vec<Vec<Member>> {
    plan.by_package
        .iter()
        .map(|(pid, assets)| {
            let pkg = f.svc.db.package_by_id(*pid).unwrap();
            let guids = assets.iter().map(|a| a.guid.clone()).collect();
            read_members(&f.files[&pkg.rel_path], &guids).unwrap()
        })
        .collect()
}

fn existing(paths: &BTreeSet<String>, dest: &str, assets: &[Asset]) -> TextSet {
    let mut s = TextSet::new();
    for a in assets {
        for p in asset_places(dest, a) {
            if paths.contains(&p) {
                s.insert(p);
            }
        }
    }
    s
}

fn turns(f: &Fixture, plan: &Plan, dest: &str, there: &BTreeSet<String>) -> Vec<Turn> {
    sources(f, plan)
        .into_iter()
        .zip(plan.by_package.iter())
        .map(|(members, (_, assets))| Turn { exists: existing(there, dest, assets), members })
        .collect()
}

#[test]
fn reader_handles_fextra_header_and_refs() {
    let f = fixture();
    let p = &f.files[CHEST];
    let entries = read_entries(p, ScanOptions::default()).unwrap();
    let by: HashMap<&str, _> = entries.iter().map(|e| (e.guid.as_str(), e)).collect();
    assert_eq!(entries.len(), 6);
    assert_eq!(by[G_PREFAB].path, "Assets/Chest/Prefabs/Chest.prefab");
    assert!(by[G_FOLDER].is_folder);
    assert!(by[G_PREFAB].has_preview);
    assert_eq!(by[G_PREFAB].main_class().as_deref(), Some("GameObject"));
    assert_eq!(by[G_MAT].main_class().as_deref(), Some("Material"));
    assert_eq!(by[G_PREFAB].refs.to_vec(), vec![G_MAT, G_FBX, G_SCRIPT, G_MISSING]);
    assert!(!by[G_TEX].is_text);
    assert!(by[G_SCRIPT].is_text);
    assert_eq!(parse_gzip_extra_json(p).unwrap().title.as_deref(), Some("Chest Pack"));
}

#[test]
fn index_metadata_incremental_and_search() {
    let mut f = fixture();
    let pkg = f.svc.find_package("Chest Pack", &vec![]).unwrap();
    assert_eq!(pkg.version.as_deref(), Some("1.2.3"));
    assert_eq!(pkg.category_label.as_deref(), Some("3D Models/Props"));
    assert_eq!(pkg.entry_count, 6);
    assert!(pkg.previews_indexed);
    assert!(!pkg.cached);
    assert_eq!(f.report.skipped, 0);
    // incremental: second run skips everything
    let again = index(&mut f.svc.db, &f.files, &IndexOptions::for_processors(1));
    assert_eq!(again.indexed, 0);
    assert_eq!(again.skipped, 2);
    // previews are stored and served
    assert_eq!(f.svc.db.get_preview(G_PREFAB).unwrap(), PNG);
    let asset = f.svc.resolve("Chest.prefab", None).unwrap();
    assert!(matches!(f.svc.preview(&asset).unwrap(), PreviewStep::Stored(png) if png == PNG));

    let q = |s: &str, kind: Option<&str>, publisher: Option<&str>| {
        let q = SearchQuery {
            query: s.into(),
            kind: kind.map(Into::into),
            publisher: publisher.map(Into::into),
            ..Default::default()
        };
        f.svc.search(&q, &ranked(&f.svc.db, &q))
    };
    assert_eq!(q("chest", Some("prefab"), None).iter().map(|a| a.guid.as_str()).collect::<Vec<_>>(), vec![G_PREFAB]);
    assert!(q("sm chest", None, None).iter().any(|a| a.guid == G_FBX)); // camelCase / underscore split
    assert_eq!(q("albedo", None, Some("Pub A"))[0].guid, G_TEX);
    assert!(q("albedo", None, Some("Pub B")).is_empty());
}

#[test]
fn closure_cross_package_and_unresolved() {
    let f = fixture();
    let svc = &f.svc;
    let root = svc.resolve(G_PREFAB, None).unwrap();
    let cl = resolve_closure(&svc.db, &svc.known, &vec![root.clone()], true, None);
    let assets = cl.assets();
    let mut got: Vec<&str> = assets.iter().map(|a| a.guid.as_str()).collect();
    got.sort();
    let mut want = vec![G_PREFAB, G_MAT, G_TEX, G_FBX, G_SCRIPT, G_OTHER_TEX];
    want.sort();
    assert_eq!(got, want);
    assert_eq!(cl.get(G_TEX).unwrap().depth, 2);
    assert_eq!(cl.get(G_TEX).unwrap().via.as_deref(), Some(G_MAT));
    assert_eq!(cl.packages().len(), 2);
    assert!(cl.unresolved.contains_key(G_MISSING));
    assert!(cl.unresolved.get(URP_LIT).unwrap().label.as_deref().unwrap().contains("URP"));
    let cl2 = resolve_closure(&svc.db, &svc.known, &vec![root], false, None);
    assert!(!cl2.contains(G_SCRIPT));
    assert!(cl2.skipped_scripts.contains_key(G_SCRIPT));
    assert_eq!(svc.db.referrers(G_MAT, None).len(), 1);
    // service-level output includes edges for tree rendering
    let out = svc.deps(&vec!["Chest.prefab".into()], None, true, None).unwrap();
    assert_eq!(out.roots, vec![G_PREFAB.to_string()]);
    assert_eq!(out.edges.get(G_PREFAB).unwrap().len(), 4);
    assert_eq!(out.packages.len(), 2);
}

fn find_file<'a>(files: &'a [PlacedFile], path: &str) -> Option<&'a PlacedFile> {
    files.iter().find(|p| p.path == path)
}

#[test]
fn export_to_project_with_folders_and_conflicts() {
    let f = fixture();
    let svc = &f.svc;
    let proj = "/Proj";
    // Pre-existing asset in the project with the *texture's* guid at another path -> conflict.
    let old = MetaFile {
        rel: "Assets/Elsewhere/Old.png.meta".into(),
        head: meta(G_TEX, "TextureImporter", false),
    };
    let root = svc.resolve(G_PREFAB, None).unwrap();
    let plan = build_plan(&svc.db, &svc.known, &vec![root], true, true, true);
    assert!(plan.assets.iter().any(|a| a.is_folder));
    let guids = scan_project_guids(&vec![old.clone()]);
    let mut there: BTreeSet<String> = BTreeSet::new();
    there.insert("/Proj/Assets/Elsewhere/Old.png".into());
    let out = export_to_dir(
        &svc.db,
        &plan.by_package,
        proj,
        false,
        false,
        &guids,
        &turns(&f, &plan, proj, &there),
    )
    .unwrap();
    let res = &out.result;
    let written: Vec<&str> = res.written.iter().map(|w| w.path.as_str()).collect();
    assert!(written.contains(&"Assets/Chest/Prefabs/Chest.prefab"));
    assert!(written.contains(&"Assets/Shared/Detail.png")); // cross-package dep
    assert!(written.contains(&"Assets/Chest")); // folder meta
    let folder = find_file(&out.files, "/Proj/Assets/Chest.meta").unwrap();
    assert_eq!(folder.folder.as_deref(), Some("/Proj/Assets/Chest"));
    let prefab = find_file(&out.files, "/Proj/Assets/Chest/Prefabs/Chest.prefab").unwrap();
    assert_eq!(prefab.data, prefab_yaml().into_bytes());
    assert_eq!(prefab.mtime, 1_700_000_000);
    assert!(find_file(&out.files, "/Proj/Assets/Chest/Prefabs/Chest.prefab.meta").is_some());
    assert_eq!(res.conflicts.iter().map(|c| c.guid.as_str()).collect::<Vec<_>>(), vec![G_TEX]);
    assert_eq!(res.conflicts[0].existing_path, "Assets/Elsewhere/Old.png");
    assert!(find_file(&out.files, "/Proj/Assets/Chest/Textures/Chest_Albedo.png").is_none());
    assert!(res.missing_in_package.is_empty());
    assert_eq!(out.log, vec!["extracting 5 from Chest Pack", "extracting 1 from Shared Textures"]);
    // Re-export: everything already there is skipped, nothing rewritten.
    for p in &out.files {
        there.insert(p.path.clone());
    }
    let mut metas = vec![old];
    for p in out.files.iter().filter(|p| p.path.ends_with(".meta")) {
        metas.push(MetaFile { rel: p.path["/Proj/".len()..].to_string(), head: p.data.clone() });
    }
    let out2 = export_to_dir(
        &svc.db,
        &plan.by_package,
        proj,
        false,
        false,
        &scan_project_guids(&metas),
        &turns(&f, &plan, proj, &there),
    )
    .unwrap();
    assert!(out2.result.written.is_empty());
    assert!(out2.files.is_empty());
    assert!(!out2.result.skipped_existing.is_empty());
}

#[test]
fn export_unitypackage_roundtrip_and_cache() {
    let f = fixture();
    let svc = &f.svc;
    let root = svc.resolve(G_MAT, None).unwrap();
    let plan = build_plan(&svc.db, &svc.known, &vec![root], true, true, true);
    let out = export_to_unitypackage(&svc.db, &plan, "slim.unitypackage", false, &sources(&f, &plan)).unwrap();
    let res = out.result;
    let slim = out.file.unwrap();
    assert_eq!(res.output, "slim.unitypackage");
    assert!(res.missing_in_package.is_empty());
    let names: Vec<String> = members_of(&slim).into_iter().map(|m| m.name).collect();
    for n in [
        format!("{G_MAT}/asset"),
        format!("{G_MAT}/asset.meta"),
        format!("{G_MAT}/pathname"),
        format!("{G_OTHER_TEX}/asset"),
    ] {
        assert!(names.contains(&n), "{n} missing from {names:?}");
    }
    // The slim package is itself readable by the indexer's reader.
    let entries = read_entries(&slim, ScanOptions::default()).unwrap();
    assert!(entries.iter().any(|e| e.guid == G_MAT && e.path == "Assets/Chest/Materials/Chest.mat"));
    // And it can be unpacked again.
    let (unpacked, files) =
        unpack_package_to_dir(&slim, &plan.assets, "/out", false, &TextMap::new(), &TextSet::new()).unwrap();
    assert_eq!(unpacked.written.len(), plan.assets.len());
    assert_eq!(find_file(&files, "/out/Assets/Chest/Materials/Chest.mat").unwrap().data, mat_yaml().into_bytes());
    // Now with a package in the cache.
    let pkg = svc.find_package("Chest Pack", &vec![]).unwrap();
    assert!(!cache_complete(&svc.cfg, pkg.id, &TextSet::new()));
    let mut there = TextSet::new();
    there.insert(cache_mark_for(&svc.cfg, pkg.id));
    assert!(cache_complete(&svc.cfg, pkg.id, &there));
    let mut from_package = sources(&f, &plan);
    let at = plan.by_package.iter().position(|(pid, _)| *pid == pkg.id).unwrap();
    let mut wanted = TextSet::new();
    for a in &plan.by_package[at].1 {
        wanted.insert(a.guid.to_uppercase());
    }
    let cached = cached_members("/home/cache/1", &wanted);
    assert_eq!(cached.len(), 4 * wanted.len());
    let copy = fill_cache("/home/cache/1", &members_of(&f.files[&pkg.rel_path]), 1_700_000_002);
    assert!(copy.contains_key(&format!("/home/cache/1/{G_MAT}/asset.meta")));
    assert_eq!(cache_file("/c", &format!("./{}/asset", G_MAT.to_uppercase()), true), Some(format!("/c/{G_MAT}/asset")));
    assert_eq!((cache_file("/c", G_MAT, true), cache_file("/c", &format!("{G_MAT}/asset"), false)), (None, None));
    let from_cache: Vec<Member> = read_cached("/home/cache/1", &wanted, &copy);
    assert_eq!(from_cache.len(), from_package[at].len());
    from_package[at] = from_cache.clone();
    let out2 = export_to_unitypackage(&svc.db, &plan, "slim2.unitypackage", false, &from_package).unwrap();
    let res2 = out2.result;
    let entries2 = read_entries(&out2.file.unwrap(), ScanOptions::default()).unwrap();
    for w in &res.written {
        assert!(entries.iter().any(|e| e.guid == w.guid) && entries2.iter().any(|e| e.guid == w.guid));
    }
    let a: std::collections::BTreeSet<_> = res.written.iter().map(|w| w.guid.clone()).collect();
    let b: std::collections::BTreeSet<_> = res2.written.iter().map(|w| w.guid.clone()).collect();
    assert_eq!(a, b);
    let dry = export_to_unitypackage(&svc.db, &plan, "dry.unitypackage", true, &vec![]).unwrap();
    assert!(dry.file.is_none() && dry.result.dry_run);
    assert_eq!(dry.result.written.len(), plan.assets.len());
    let mat: Vec<Member> = from_cache.iter().filter(|m| m.guid == G_MAT).cloned().collect();
    assert_eq!(read_member(&mat, "asset", 4).unwrap(), (b"%YAM".to_vec(), true));
    // Text extraction works from the cache too.
    let asset = svc.resolve("Chest.mat", None).unwrap();
    check_text(&asset).unwrap();
    let t = text_for(&asset, extract_text(&mat, 1_000_000)).unwrap();
    assert!(t.text.contains("m_Shader"));
    assert!(!t.truncated);
}

#[test]
fn unchanged_files_need_no_scan() {
    let f = fixture();
    let size = f.files[CHEST].len() as u64;
    let db = &f.svc.db;
    assert!(judge_package(db, CHEST, size, false, false, true).up_to_date);
    assert!(!judge_package(db, CHEST, size, false, false, true).need_header);
    assert!(!judge_package(db, CHEST, size, false, true, true).up_to_date);
    assert!(!judge_package(db, CHEST, size, true, false, true).up_to_date);
    assert!(judge_package(db, CHEST, size + 1, false, false, true).changed);
    assert!(!judge_package(db, "new.unitypackage", size, false, false, true).up_to_date);
}

#[test]
fn packages_that_are_gone_leave_the_index() {
    let mut f = fixture();
    f.files.remove(SHARED);
    let opts = IndexOptions { only: Some("chest".into()), ..IndexOptions::for_processors(2) };
    let r = index(&mut f.svc.db, &f.files, &opts);
    assert_eq!((r.removed, r.skipped), (0, 1));
    let r = index(&mut f.svc.db, &f.files, &IndexOptions::for_processors(2));
    assert_eq!((r.removed, r.skipped), (1, 1));
    assert_eq!(f.svc.packages(&vec![1]).len(), 1);
    assert!(f.svc.packages(&vec![1])[0].cached);
    assert!(f.svc.db.assets_by_guid(G_OTHER_TEX).is_empty());
    assert_eq!(f.svc.db.assets_by_guid(G_TEX).len(), 1);
}

#[test]
fn failed_scans_are_marked() {
    let mut f = fixture();
    let db = &mut f.svc.db;
    let found = FoundFile {
        rel: CHEST.into(),
        size: 1,
        mtime: 0,
        moved: true,
        header: None,
        trouble: None,
    };
    let lost = FoundFile {
        rel: SHARED.into(),
        size: 0,
        mtime: 0,
        moved: false,
        header: None,
        trouble: Some("no such file".into()),
    };
    let survey = survey_library(db, &vec![found, lost], &IndexOptions::for_processors(1)).unwrap();
    assert_eq!(survey.jobs.len(), 1);
    assert_eq!(
        survey.log,
        vec![format!("- cannot stat {SHARED}: no such file"), "2 packages found, 0 up to date, 1 to index, 0 removed".into()]
    );
    let mut run = Run::begin(2, &survey);
    let before = db.asset_count(1);
    let error = Some("corrupt deflate stream\nmore".to_string());
    let scan = Scan { job: survey.jobs[0].clone(), entries: vec![], error, at: 0 };
    match run.take_scan(db, &scan, true).unwrap() {
        JobEnd::Failed(line) => assert_eq!(line, format!("[1/1] ERROR {CHEST}: corrupt deflate stream")),
        JobEnd::Stored(_, _) => panic!("stored"),
    }
    let report = run.end();
    assert_eq!((report.errors, report.indexed), (1, 0));
    assert_eq!(db.asset_count(1), before);
    let p = db.package_by_id(1).unwrap();
    assert_eq!(p.status, "error");
    assert_eq!(p.error.as_deref(), Some("corrupt deflate stream\nmore"));
    // what the store header said stays
    assert_eq!(p.version.as_deref(), Some("1.2.3"));
}

#[test]
fn errors_say_what_is_meant() {
    let f = fixture();
    let e = f.svc.info("nope.prefab", None).unwrap_err();
    assert!(describe(&e).contains("no asset matches"));
    assert!(matches!(e, Error::User(UaiError::NotFound(_))));
    let e = f.svc.plan(&ExportRequest::default()).unwrap_err();
    assert_eq!(describe(&e), "no assets given");
    let tex = f.svc.resolve("Chest_Albedo.png", None).unwrap();
    assert_eq!(
        describe(&check_text(&tex).unwrap_err()),
        "Assets/Chest/Textures/Chest_Albedo.png is binary (1200 bytes); use `uai export`"
    );
    assert_eq!(
        describe(&text_for(&tex, None).unwrap_err()),
        "asset not found in package (index stale? run `uai index`)"
    );
    assert_eq!(
        describe(&f.svc.preview(&tex).err().unwrap()),
        "Assets/Chest/Textures/Chest_Albedo.png has no preview.png in its package"
    );
    assert!(matches!(f.svc.preview_for(&tex, true, true), PreviewStep::Nothing));
}

#[test]
fn info_names_references_and_users() {
    let f = fixture();
    let info = f.svc.info("Chest.prefab", None).unwrap();
    assert_eq!(info.asset.guid, G_PREFAB);
    assert_eq!(info.refs.len(), 4);
    assert!(info.refs[0].asset.is_some());
    assert!(info.refs[3].asset.is_none());
    let info = f.svc.info(G_MAT, None).unwrap();
    assert_eq!(info.refs[0].label.as_deref(), Some("URP Lit shader"));
    assert_eq!(info.referrers.iter().map(|a| a.guid.as_str()).collect::<Vec<_>>(), vec![G_PREFAB]);
    assert!(info.same_guid_in.is_empty());
    assert_eq!(f.svc.rdeps(G_TEX, None, Some(5)).unwrap()[0].guid, G_MAT);
}

#[test]
fn plans_leave_scripts_out_on_request() {
    let f = fixture();
    let req = ExportRequest {
        identifiers: vec!["Chest.prefab".into()],
        package: None,
        include_deps: true,
        include_scripts: false,
        include_folders: true,
    };
    let plan = f.svc.plan(&req).unwrap();
    assert_eq!(plan.skipped_scripts, vec!["Assets/Chest/Scripts/ChestOpener.cs".to_string()]);
    assert_eq!(plan.packages, vec!["Chest Pack".to_string(), "Shared Textures".to_string()]);
    assert_eq!(plan.planned, 6);
    assert_eq!(plan.warnings.len(), 1);
    let alone = f.svc.plan(&ExportRequest { include_deps: false, include_folders: false, ..req }).unwrap();
    assert_eq!(alone.assets.iter().map(|a| a.guid.as_str()).collect::<Vec<_>>(), vec![G_PREFAB]);
}

#[test]
fn tools_are_called_with_their_arguments() {
    let args = br#"{"identifiers": ["Chest.prefab", 7, "b"], "out_dir": "~/x", "include_scripts": false, "dry_run": true}"#;
    match call_tool("export_assets", args, Some("/home/me")).unwrap() {
        ToolCall::Export { req, dest, opts } => {
            assert_eq!(req.identifiers, vec!["Chest.prefab".to_string(), "b".to_string()]);
            assert!(req.include_deps && !req.include_scripts && req.include_folders);
            assert!(matches!(dest, ExportDest::Dir(d) if d == "/home/me/x"));
            assert!(opts.dry_run && !opts.force && opts.conflict_check);
        }
        _ => panic!("another tool"),
    }
    match call_tool("dependencies", br#"{"identifiers": "one", "max_depth": 3}"#, None).unwrap() {
        ToolCall::Deps { idents, scripts, max_depth } => {
            assert_eq!(idents, vec!["one".to_string()]);
            assert!(scripts);
            assert_eq!(max_depth, Some(3));
        }
        _ => panic!("another tool"),
    }
    match call_tool("search_assets", br#"{"query": " chest ", "kind": "  ", "limit": 5}"#, None).unwrap() {
        ToolCall::Search(q) => assert_eq!((q.query.as_str(), q.kind, q.limit), (" chest ", None, 5)),
        _ => panic!("another tool"),
    }
    let fails = |name: &str, args: &[u8]| describe(&call_tool(name, args, None).err().unwrap());
    assert_eq!(fails("asset_info", b"{}"), "identifier is required");
    assert_eq!(fails("list_package_assets", br#"{"package": 3}"#), "package is required");
    assert_eq!(fails("dependencies", br#"{"identifiers": []}"#), "identifiers is required");
    assert_eq!(
        fails("export_assets", br#"{"identifiers": ["a"], "out_dir": "x", "project_dir": "y"}"#),
        "pass exactly one of project_dir, out_dir, unitypackage_path"
    );
    assert_eq!(fails("no \"tool", b"{}"), "unknown tool \"no \\\"tool\"");
}
