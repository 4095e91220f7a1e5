//! Settings, errors, the HTTP API, the MCP server and what the command line prints.

use uai::client::{
    check_answer, check_base, downloaded, ident_query, ls_query, rdeps_query, rehearse_remote, search_query,
    text_query, url,
};
use uai::config::{expand_tilde, join_path, Config, ConfigFile};
use uai::error::{describe, Error, UaiError};
use uai::mcp::{
    assets_text, choose_protocol, failure_text, listing_text, make_message, method_not_found, packages_text, read_line,
    read_message, read_request, read_truth, read_whole, refs_text, tools, users_text, Message, Request, INSTRUCTIONS,
};
use uai::model::{
    ApiError, Asset, AssetInfo, CacheEntry, ClosureAsset, ClosureOut, Conflict, ExportOut, ExportResult, IndexReport,
    KindCount, MissingMember, Package, PackageListing, PackageRef, PlanOut, RefInfo, RootRef, SearchQuery, Stats, TextOut,
    Unresolved, WrittenFile,
};
use uai::render::{
    cache_lines, check_local, config_lines, deps_lines, export_lines, info_lines, listing_lines, package_lines, rdeps_lines,
    report_line, search_lines,
};
use uai::replies::{answer, call_reply, config_text, deps_text, export_text, info_text, text_out_text, Answer};
use uai::server::{
    banner, check_serve, export_disposition, export_name, flag, id_ident, mime_for_ext, no_preview, pkg_opt, raw_bytes,
    raw_disposition, raw_ident, rdeps_limit, text_limit, SearchParams,
};
use uai::service::{choose_dest, preview_read, require_dest, validate_project, ExportDest};
use uai::sorted::TextMap;

fn asset(guid: &str, path: &str) -> Asset {
    Asset {
        guid: guid.into(),
        path: path.into(),
        name: path.rsplit('/').next().unwrap().into(),
        kind: "prefab".into(),
        size: 2048,
        package: "Pack".into(),
        ..Default::default()
    }
}

fn config() -> Config {
    Config { library: "/lib".into(), home: "/h".into(), server: None }
}

#[test]
fn settings_are_looked_up_in_order() {
    let file = ConfigFile { library: Some("/file".into()), server: Some("http://file/".into()) };
    let load = |flag: Option<&str>, env: Option<&str>, server: Option<&str>| {
        Config::load("/h".into(), flag, env, server, None, &file, "/default", Some("/home/me")).0
    };
    assert_eq!(load(Some("~/flag"), Some("/env"), None).library, "/home/me/flag");
    assert_eq!(load(None, Some("/env"), None).library, "/env");
    assert_eq!(load(None, Some(""), None).library, "/file");
    assert_eq!(load(None, None, None).server.as_deref(), Some("http://file"));
    assert_eq!(load(None, None, Some("http://flag//")).server.as_deref(), Some("http://flag"));
    let none = Config::load("/h".into(), None, None, None, None, &ConfigFile::default(), "/default", None);
    assert_eq!(none.0.library, "/default");
    assert_eq!(none.1.library.as_deref(), Some("/default"));
    assert_eq!(Config::home_dir(None, None, Some("/home/me")), "/home/me/.unity-asset-index");
    assert_eq!(Config::home_dir(None, Some("/env"), Some("/home/me")), "/env");
    assert_eq!(Config::home_dir(Some("~"), Some("/env"), Some("/home/me")), "/home/me");
    let mut cfg = config();
    let saved = cfg.save_server(Some(" http://x/ "), file);
    assert_eq!(saved.server.as_deref(), Some("http://x"));
    assert_eq!(saved.library.as_deref(), Some("/file"));
    let saved = cfg.save_library("~/l", saved, Some("/home/me"));
    assert_eq!((cfg.library.as_str(), saved.library.as_deref()), ("/home/me/l", Some("~/l")));
    assert_eq!(cfg.save_server(None, saved).server, None);
    assert_eq!((cfg.db_path().as_str(), cfg.previews_path().as_str()), ("/h/index.db", "/h/previews.db"));
    assert_eq!((cfg.cache_dir().as_str(), cfg.config_file().as_str()), ("/h/cache", "/h/config.json"));
    assert!(cfg.library_mounted(true) && !cfg.library_mounted(false));
    assert_eq!(join_path("/a/", "b"), "/a/b");
    assert_eq!(join_path("/a", "/b"), "/b");
    assert_eq!(expand_tilde("~user/x", Some("/home/me")), "/home/me/user/x");
    assert_eq!(expand_tilde("~/x", None), "~/x");
}

#[test]
fn errors_cross_the_api() {
    let e = UaiError::ambiguous_assets("which?".into(), vec![asset("g1", "Assets/A.prefab"), asset("g2", "Assets/B.prefab")]);
    assert_eq!((e.status(), e.message().as_str()), (409, "which?"));
    let back = UaiError::from_api(e.status(), e.to_api());
    assert!(matches!(&back, UaiError::Ambiguous { candidates, .. } if candidates.len() == 2));
    assert_eq!(describe(&Error::User(back)), "which?\n  g1  [Pack] Assets/A.prefab\n  g2  [Pack] Assets/B.prefab");
    let n = UaiError::NotFound("x".into());
    assert!(matches!(UaiError::from_api(n.status(), n.to_api()), UaiError::NotFound(m) if m == "x"));
    let i = UaiError::Invalid("y".into());
    assert!(matches!(UaiError::from_api(i.status(), i.to_api()), UaiError::Invalid(m) if m == "y"));
    let packages = (0..22).map(|i| Package { id: i, name: "P".into(), ..Default::default() }).collect();
    let text = describe(&Error::User(UaiError::ambiguous_packages("p?".into(), packages)));
    assert_eq!(text.lines().count(), 21);
    assert_eq!(Error::Other("boom".into()).reply().0, 500);
}

#[test]
fn answers_are_judged_by_their_status() {
    assert!(check_answer(200, "", None).is_ok());
    assert!(check_answer(299, "", None).is_ok());
    let e = check_answer(502, " bad gateway\n", None).unwrap_err();
    assert_eq!(describe(&e), "server returned HTTP 502: bad gateway");
    let api = ApiError { error: "no asset".into(), candidates: vec![], package_candidates: vec![] };
    assert!(matches!(check_answer(404, "", Some(api)).unwrap_err(), Error::User(UaiError::NotFound(m)) if m == "no asset"));
}

#[test]
fn requests_leave_out_what_is_empty() {
    assert_eq!(check_base(" https://host:1/ ").unwrap(), "https://host:1");
    assert_eq!(
        describe(&check_base("host").unwrap_err()),
        "server URL must start with http:// or https:// (got \"host\")"
    );
    assert_eq!(url("http://h", "/api/x"), "http://h/api/x");
    let q = SearchQuery { query: "chest".into(), kind: Some("prefab".into()), limit: 30, offset: 5, ..Default::default() };
    let pairs = |v: Vec<(String, String)>| v.iter().map(|(k, x)| format!("{k}={x}")).collect::<Vec<_>>().join("&");
    assert_eq!(pairs(search_query(&q)), "q=chest&kind=prefab&limit=30&offset=5");
    assert_eq!(pairs(ls_query("p", None, Some("mat"), Some(7))), "package=p&kind=mat&limit=7");
    assert_eq!(pairs(ident_query(None, "x", "", "")), "ident=x");
    assert_eq!(pairs(rdeps_query(Some("p"), "x", Some(9))), "package=p&ident=x&limit=9");
    assert_eq!(pairs(text_query(None, "x", 100)), "ident=x&max_bytes=100");
    let r = rehearse_remote(&vec![asset("g", "a")], &ExportDest::Dir("/out".into()));
    assert!(r.dry_run);
    assert_eq!((r.output.as_str(), r.bytes_written, r.written.len()), ("/out", 2048, 1));
    let r = downloaded(&vec![asset("g", "a")], "/x.unitypackage", 77);
    assert_eq!((r.output.as_str(), r.bytes_written, r.written[0].bytes), ("/x.unitypackage", 77, 2048));
}

#[test]
fn requests_are_read() {
    assert_eq!(pkg_opt(&Some("  ".into())), None);
    assert_eq!(pkg_opt(&Some(" p".into())), Some(" p"));
    assert!(flag(&Some("true".into())) && flag(&Some("1".into())) && !flag(&Some("yes".into())) && !flag(&None));
    let p = SearchParams { q: "x".into(), kind: Some("".into()), limit: Some(5000), ..Default::default() };
    let q = p.into_query();
    assert_eq!((q.kind, q.limit, q.offset, q.include_folders), (None, 1000, 0, false));
    assert_eq!(SearchParams::default().into_query().limit, 50);
    assert_eq!((text_limit(None), text_limit(Some(usize::MAX)), text_limit(Some(3))), (2_000_000, 64 << 20, 3));
    assert_eq!((rdeps_limit(None), rdeps_limit(Some(1))), (200, 1));
    assert_eq!(id_ident(-4), "#-4");
    assert_eq!(raw_ident("a.png".into(), &Some("Pack".into())), "Pack::a.png");
    assert_eq!(raw_ident("P::a.png".into(), &Some("Pack".into())), "P::a.png");
    assert_eq!(mime_for_ext("JPEG"), "image/jpeg");
    assert_eq!(mime_for_ext("controller"), "text/plain; charset=utf-8");
    assert_eq!(mime_for_ext("fbx"), "application/octet-stream");
}

#[test]
fn answers_are_labelled() {
    assert_eq!(raw_disposition("a\"b.png"), "inline; filename=\"ab.png\"");
    assert_eq!(export_disposition("a\\b\r\n\".x"), "attachment; filename=\"ab.x\"");
    assert_eq!(export_name(&vec![]), "export.unitypackage");
    assert_eq!(export_name(&vec![asset("g", "A/Chest.v1.prefab")]), "Chest.v1.unitypackage");
    assert_eq!(export_name(&vec![asset("g", "A/Chest"), asset("h", "b")]), "Chest+1.unitypackage");
    let mut a = asset("g", "A.png");
    assert_eq!(describe(&no_preview(&a)), "A.png has no preview");
    a.has_preview = true;
    assert!(describe(&no_preview(&a)).starts_with("preview of A.png is not in the thumbnail store yet"));
    assert_eq!(raw_bytes(&a, Some((vec![1], false))).unwrap(), vec![1]);
    assert!(describe(&raw_bytes(&a, Some((vec![1], true))).unwrap_err()).ends_with("larger than the preview limit"));
    assert!(matches!(raw_bytes(&a, None), Err(Error::User(UaiError::NotFound(_)))));
    assert_eq!(describe(&preview_read(None).unwrap_err()), "preview not found in package");
    assert_eq!(preview_read(Some(vec![9])).unwrap(), vec![9]);
    let mut cfg = config();
    assert!(check_serve(&cfg).is_ok());
    cfg.server = Some("http://x".into());
    assert!(check_serve(&cfg).is_err());
    let s = Stats { packages: 2, assets: 7, previews: 1, ..Default::default() };
    assert_eq!(
        banner("0.1.0", &s, "http://localhost:1", "/lib", true),
        "uai 0.1.0 serving 2 packages / 7 assets / 1 previews at http://localhost:1  (library /lib: mounted)"
    );
}

#[test]
fn projects_are_validated() {
    assert_eq!(validate_project("p", "/cwd", true, true).unwrap(), "/cwd/p");
    assert_eq!(
        describe(&validate_project("/p", "/cwd", true, false).unwrap_err()),
        "/p does not look like a Unity project (needs Assets/ and ProjectSettings/)"
    );
    assert!(matches!(choose_dest(None, None, Some("f".into())), Some(ExportDest::UnityPackage(f)) if f == "f"));
    assert!(choose_dest(Some("a".into()), Some("b".into()), None).is_none());
    assert!(choose_dest(None, None, None).is_none());
    assert!(matches!(require_dest(Some("p".into()), None, None), Ok(ExportDest::Project(p)) if p == "p"));
    let said = "choose exactly one destination: --project <UnityProject> | --out <dir> | --unitypackage <file>";
    assert_eq!(describe(&require_dest(None, None, None).unwrap_err()), said);
    assert_eq!(describe(&require_dest(None, Some("d".into()), Some("f".into())).unwrap_err()), said);
}

#[test]
fn messages_are_told_apart() {
    assert_eq!(choose_protocol("2024-11-05"), "2024-11-05");
    assert_eq!(choose_protocol("1999"), "2025-06-18");
    assert!(read_request(false, "ping") == Request::Nothing);
    assert!(read_request(true, "ping") == Request::Ping);
    assert!(read_request(true, "tools/call") == Request::CallTool);
    assert!(read_request(true, "else") == Request::Unknown);
    assert_eq!(method_not_found("x/y"), "method not found: x/y");
    assert_eq!((read_truth(Some("true".into())), read_truth(Some("\"true\"".into()))), (Some(true), None));
    assert_eq!((read_whole(Some("30".into())), read_whole(Some("30.5".into())), read_whole(None)), (Some(30), None, None));
    assert!(INSTRUCTIONS.contains("search_assets"));
    let list: serde_json::Value = serde_json::from_str(&tools()).unwrap();
    let names: Vec<&str> = list.as_array().unwrap().iter().map(|t| t["name"].as_str().unwrap()).collect();
    assert_eq!(
        names,
        vec![
            "list_packages",
            "search_assets",
            "list_package_assets",
            "asset_info",
            "dependencies",
            "export_assets",
            "read_text_asset"
        ]
    );
    assert_eq!(list[5]["inputSchema"]["required"][0], "identifiers");
}

#[test]
fn messages_are_read_and_answered() {
    let read = |s: &str| read_message(s.as_bytes());
    assert!(matches!(read("{"), Message::Malformed(m) if m.contains("line 1")));
    assert!(matches!(read(r#"{"method": "ping"}"#), Message::Notification));
    assert!(matches!(read(r#"{"id": null, "method": "ping"}"#), Message::Notification));
    assert!(matches!(read(r#"{"id": "a", "method": "ping"}"#), Message::Ping { id } if id == "\"a\""));
    assert!(matches!(read(r#"[1]"#), Message::Notification));
    let call = r#"{"id": 7, "method": "tools/call", "params": {"name": "asset_info", "arguments": {"identifier": "x"}}}"#;
    assert!(matches!(read(call), Message::CallTool { id, name, args } if id == "7" && name == "asset_info" && args == r#"{"identifier":"x"}"#));
    assert!(matches!(read(r#"{"id": 7, "method": "tools/call"}"#), Message::CallTool { name, args, .. } if name.is_empty() && args == "{}"));
    assert!(matches!(make_message(Some("1".into()), Some("x".into()), None, None, None), Message::Unknown { method, .. } if method == "x"));
    assert!(read_line("  \u{3000}\n").is_none());
    let say = |s: &str| match answer(read_line(s).unwrap(), "9.9") {
        Answer::Line(t) => serde_json::from_str::<serde_json::Value>(&t).unwrap(),
        other => panic!("{other:?}"),
    };
    let v = say(" \u{a0}{\"id\": 1, \"method\": \"initialize\", \"params\": {\"protocolVersion\": \"2024-11-05\"}}\n");
    assert_eq!((v["id"].as_i64(), v["jsonrpc"].as_str()), (Some(1), Some("2.0")));
    assert_eq!(v["result"]["protocolVersion"], "2024-11-05");
    assert_eq!(v["result"]["serverInfo"]["version"], "9.9");
    assert_eq!(v["result"]["capabilities"]["tools"]["listChanged"], false);
    assert_eq!(v["result"]["instructions"], INSTRUCTIONS);
    let v = say("nonsense");
    assert!(v["id"].is_null());
    assert_eq!(v["error"]["code"], -32700);
    assert!(v["error"]["message"].as_str().unwrap().starts_with("parse error: "));
    let v = say(r#"{"id": "q", "method": "x/y"}"#);
    assert_eq!((v["error"]["code"].as_i64(), v["error"]["message"].as_str()), (Some(-32601), Some("method not found: x/y")));
    assert_eq!(say(r#"{"id": 2, "method": "ping"}"#)["result"].as_object().unwrap().len(), 0);
    assert_eq!(say(r#"{"id": 2, "method": "tools/list"}"#)["result"]["tools"][0]["name"], "list_packages");
    assert_eq!(say(r#"{"id": 2, "method": "resources/list"}"#)["result"]["resources"].as_array().unwrap().len(), 0);
    assert_eq!(say(r#"{"id": 2, "method": "prompts/list"}"#)["result"]["prompts"].as_array().unwrap().len(), 0);
    assert!(matches!(answer(Message::Notification, "1"), Answer::Silence));
    assert!(matches!(answer(read(call), "1"), Answer::Call { name, .. } if name == "asset_info"));
    let v: serde_json::Value = serde_json::from_str(&call_reply("3", &Ok("{\"b\":[1]}".into()))).unwrap();
    assert_eq!((v["id"].as_i64(), v["result"]["isError"].as_bool()), (Some(3), Some(false)));
    assert_eq!(v["result"]["structuredContent"]["b"][0], 1);
    assert_eq!(v["result"]["content"][0]["text"], "{\n  \"b\": [\n    1\n  ]\n}");
    let v: serde_json::Value = serde_json::from_str(&call_reply("3", &Err(Error::Other("no".into())))).unwrap();
    assert_eq!((v["result"]["isError"].as_bool(), v["result"]["content"][0]["text"].as_str()), (Some(true), Some("error: no")));
}

#[test]
fn tools_reply_with_their_results() {
    let json = |t: String| serde_json::from_str::<serde_json::Value>(&t).unwrap();
    let a = Asset { labels: vec!["l\"".into()], importer: Some("I".into()), id: 4, ..asset("g", "Assets/A.prefab") };
    let u = Unresolved { guid: "u".into(), label: None, referrers: vec!["g".into()] };
    let info = AssetInfo { asset: a.clone(), refs: vec![], referrers: vec![a.clone()], same_guid_in: vec![] };
    let v = json(info_text(&info));
    assert_eq!((v["id"].as_i64(), v["labels"][0].as_str(), v["importer"].as_str()), (Some(4), Some("l\""), Some("I")));
    assert_eq!((v["used_by"][0]["guid"].as_str(), v.as_object().unwrap().len()), (Some("g"), 20));
    let mut edges = TextMap::new();
    edges.insert("g".to_string(), vec!["u".to_string()]);
    let cl = ClosureOut {
        roots: vec!["g".into()],
        assets: vec![ClosureAsset { asset: a.clone(), depth: 2, via: Some("r".into()), also_in_packages: vec![5, 6] }],
        unresolved: vec![u.clone()],
        skipped_scripts: vec![a.clone()],
        total_bytes: 2048,
        package_ids: vec![1],
        packages: vec![PackageRef { id: 1, name: "Pack".into() }],
        edges,
    };
    let v = json(deps_text(&cl));
    assert_eq!((v["assets"][0]["depth"].as_i64(), v["assets"][0]["also_in_packages"][1].as_i64()), (Some(2), Some(6)));
    assert_eq!((v["assets"][0]["via"].as_str(), v["unresolved"][0]["referrers"][0].as_str()), (Some("r"), Some("g")));
    assert_eq!((v["packages"][0]["name"].as_str(), v["package_ids"][0].as_i64()), (Some("Pack"), Some(1)));
    assert_eq!((v["edges"].is_null(), v["total_bytes"].as_i64(), v.as_object().unwrap().len()), (true, Some(2048), 7));
    let plan = PlanOut {
        roots: vec![RootRef { guid: "g".into(), path: "p".into(), package: "Pack".into() }],
        planned: 3,
        planned_bytes: 9,
        packages: vec!["Pack".into()],
        warnings: vec!["w".into()],
        unresolved: vec![u],
        scripts: vec!["s".into()],
        skipped_scripts: vec![],
        assets: vec![a],
    };
    let result = ExportResult {
        output: "/p".into(),
        bytes_written: 8,
        written: vec![WrittenFile { guid: "g".into(), path: "p".into(), bytes: 8 }],
        conflicts: vec![Conflict { guid: "c".into(), path: "q".into(), existing_path: "e".into() }],
        missing_in_package: vec![MissingMember { guid: "m".into(), path: "r".into(), got: vec!["asset".into()] }],
        ..Default::default()
    };
    let v = json(export_text(&ExportOut { plan, result }, "0.5"));
    assert!(v["assets"].is_null());
    assert_eq!((v["planned"].as_i64(), v["roots"][0]["package"].as_str(), v["warnings"][0].as_str()), (Some(3), Some("Pack"), Some("w")));
    let r = &v["result"];
    assert_eq!((r["output"].as_str(), r["bytes_written"].as_i64(), r["seconds"].as_f64()), (Some("/p"), Some(8), Some(0.5)));
    assert_eq!((r["written"][0]["bytes"].as_i64(), r["conflicts"][0]["existing_path"].as_str()), (Some(8), Some("e")));
    assert_eq!((r["missing_in_package"][0]["got"][0].as_str(), r["dry_run"].as_bool()), (Some("asset"), Some(false)));
    assert_eq!((v.as_object().unwrap().len(), r.as_object().unwrap().len()), (9, 8));
    let v = json(text_out_text(&TextOut { guid: "g".into(), path: "p".into(), text: "a\nb".into(), truncated: true }));
    assert_eq!((v["text"].as_str(), v["truncated"].as_bool()), (Some("a\nb"), Some(true)));
}

#[test]
fn tools_give_back_json() {
    let mut a = asset("g", "Assets/\"A\".prefab");
    a.main_class = Some("GameObject".into());
    let v: serde_json::Value = serde_json::from_str(&assets_text(&vec![a.clone()])).unwrap();
    assert_eq!(v[0]["path"], "Assets/\"A\".prefab");
    assert_eq!(v[0]["size"], 2048);
    assert_eq!(v[0]["has_preview"], false);
    assert_eq!(v[0]["main_class"], "GameObject");
    assert_eq!(v[0].as_object().unwrap().len(), 12);
    let p = Package { id: 3, name: "P".into(), category_label: Some("C".into()), ..Default::default() };
    let v: serde_json::Value = serde_json::from_str(&packages_text(&vec![p.clone()])).unwrap();
    assert_eq!((v[0]["id"].as_i64(), v[0]["category_label"].as_str()), (Some(3), Some("C")));
    assert!(v[0]["title"].is_null());
    let mut folder = asset("f", "Assets");
    folder.is_folder = true;
    let l = PackageListing {
        package: p,
        assets: vec![folder, a.clone()],
        kinds: vec![KindCount { kind: "prefab".into(), n: 1, bytes: 2048 }],
    };
    let v: serde_json::Value = serde_json::from_str(&listing_text(&l)).unwrap();
    assert_eq!(v["assets"].as_array().unwrap().len(), 1);
    assert_eq!(v["kinds"][0]["n"], 1);
    let refs = vec![
        RefInfo { guid: "r".into(), asset: Some(a.clone()), label: None },
        RefInfo { guid: "u".into(), asset: None, label: Some("URP".into()) },
    ];
    let v: serde_json::Value = serde_json::from_str(&refs_text(&refs)).unwrap();
    assert_eq!((v[0]["package"].as_str(), v[1]["unresolved"].as_bool(), v[1]["label"].as_str()), (Some("Pack"), Some(true), Some("URP")));
    let users: Vec<Asset> = (0..120).map(|_| a.clone()).collect();
    let v: serde_json::Value = serde_json::from_str(&users_text(&users)).unwrap();
    assert_eq!(v.as_array().unwrap().len(), 100);
    assert_eq!(failure_text(&Error::Other("x".into())), "error: x");
}

#[test]
fn hits_and_packages_are_printed() {
    assert_eq!(search_lines(&vec![], 5), vec!["no matches"]);
    let a = asset("0123", "Assets/A.prefab");
    assert_eq!(
        search_lines(&vec![a.clone()], 5),
        vec![
            format!("{}  {:<9} {:>8}  [{}]  {}", "0123", "prefab", "2.0KB", "Pack", "Assets/A.prefab"),
            "-- 1 result(s)".to_string()
        ]
    );
    assert_eq!(search_lines(&vec![a.clone()], 1)[1], "-- 1 result(s) (limit reached)");
    let p = Package {
        id: 7,
        name: "Pack".into(),
        publisher: "Pub".into(),
        category: "3D".into(),
        status: "error".into(),
        size: 1024,
        cached: true,
        version: Some("1.0".into()),
        root: "/libs/one".into(),
        ..Default::default()
    };
    let q = Package { root: "/libs/two".into(), status: "ok".into(), ..p.clone() };
    let lines = package_lines(&vec![p, q]);
    assert_eq!(
        lines[0],
        format!(
            "{:>3}  {:>7}  {:>9}  {:>9}  {:>9}  {:>11}  publisher / name  [category]",
            "id", "assets", "unpacked", "package", "version", "unity"
        )
    );
    assert_eq!(
        lines[1],
        format!(
            "{:>3}  {:>7}  {:>9}  {:>9}  {:>9}  {:>11}  Pub / Pack  [3D]  [error]  [cached]  @one",
            7, 0, "0B", "1.0KB", "1.0", ""
        )
    );
    assert!(lines[2].ends_with("[3D]  [cached]  @two"));
    assert_eq!(rdeps_lines(&vec![a], "Assets/T.png")[0], "1 asset(s) reference Assets/T.png");
}

#[test]
fn listings_are_printed() {
    let mut folder = asset("f", "Assets/Empty");
    folder.is_folder = true;
    let l = PackageListing {
        package: Package { id: 1, name: "Pack".into(), publisher: "Pub".into(), entry_count: 3, total_bytes: 4096, ..Default::default() },
        assets: vec![asset("a", "Assets/B/x.prefab"), folder, asset("b", "Assets/a.prefab"), asset("c", "top")],
        kinds: vec![KindCount { kind: "prefab".into(), n: 3, bytes: 4096 }],
    };
    let tree = listing_lines(&l, true, false);
    assert_eq!(
        tree,
        vec![
            "[1] Pub / Pack  (3 assets, 4.0KB)".to_string(),
            format!("   {:<10} {:>6}  {}", "prefab", 3, "4.0KB"),
            "Assets/".into(),
            "  B/".into(),
            "    x.prefab  (2.0KB)".into(),
            "  a.prefab  (2.0KB)".into(),
            "top  (2.0KB)".into(),
        ]
    );
    assert_eq!(listing_lines(&l, false, false).len(), 2 + 3);
    assert_eq!(listing_lines(&l, false, true).len(), 2 + 4);
}

#[test]
fn details_are_printed() {
    let mut a = asset("g", "Assets/A.prefab");
    a.labels = vec!["x".into(), "y".into()];
    let refs: Vec<RefInfo> = (0..52).map(|i| RefInfo { guid: format!("{i}"), asset: None, label: None }).collect();
    let info = AssetInfo { asset: a.clone(), refs, referrers: vec![a.clone(); 21], same_guid_in: vec![a] };
    let lines = info_lines(&info);
    assert_eq!(lines[0], format!("{:12} {}", "guid", "g"));
    assert_eq!(lines[8], format!("{:12} {}   preview: no   text: no", "size", "2.0KB"));
    assert_eq!(lines[9], format!("{:12} x, y", "labels"));
    assert_eq!(lines[10], format!("{:12} Pack", "also in"));
    assert_eq!(lines[11], format!("{:12} 52", "direct deps"));
    assert_eq!(lines[12], "   0  (unresolved) ");
    assert_eq!(lines[62], "   ... 2 more");
    assert_eq!(lines[63], format!("{:12} 21 (showing 20)", "used by"));
    assert_eq!(lines.len(), 64 + 20);
}

#[test]
fn dependencies_are_printed() {
    let node = |guid: &str, path: &str, depth: u32| ClosureAsset {
        asset: Asset { package_id: 1, publisher: "Pub".into(), ..asset(guid, path) },
        depth,
        via: None,
        also_in_packages: vec![],
    };
    let mut edges: TextMap<Vec<String>> = TextMap::new();
    edges.insert("r".into(), vec!["m".into(), "s".into(), "u".into()]);
    edges.insert("m".into(), vec!["r".into()]);
    let cl = ClosureOut {
        roots: vec!["r".into()],
        assets: vec![node("r", "A/r.prefab", 0), node("m", "A/m.mat", 1)],
        unresolved: vec![Unresolved { guid: "u".into(), label: Some("URP".into()), referrers: vec!["r".into(), "m".into()] }],
        skipped_scripts: vec![asset("s", "A/s.cs")],
        total_bytes: 4096,
        package_ids: vec![1],
        packages: vec![PackageRef { id: 1, name: "Pack".into() }],
        edges,
    };
    let lines = deps_lines(&cl, true, None);
    let want = vec![
        "2 asset(s) in closure, 4.0KB total, 1 unresolved, 1 scripts skipped".to_string(),
        "prefab    A/r.prefab".into(),
        "  prefab    A/m.mat".into(),
        "    prefab    A/r.prefab (see above)".into(),
        "  script    A/s.cs (skipped)".into(),
        "  ?? u  (URP)".into(),
        "".into(),
        "".into(),
        "[1] Pub / Pack  (2 assets, 4.0KB)".into(),
        format!("  r  {:<4} {:<9} {:>8}  A/r.prefab", "root", "prefab", "2.0KB"),
        format!("  m  {:<4} {:<9} {:>8}  A/m.mat", "d1", "prefab", "2.0KB"),
        "".into(),
        "scripts skipped (--no-scripts):".into(),
        "  s  [Pack] A/s.cs".into(),
        "".into(),
        "unresolved guids (not in library; Unity built-ins / UPM packages / packages you do not have):".into(),
        "  u  URP   (referenced by r.prefab +1)".into(),
    ];
    assert_eq!(lines, want);
    assert_eq!(deps_lines(&cl, false, None).len(), want.len() - 6);
    let shallow = deps_lines(&cl, true, Some(0));
    assert_eq!(shallow[2], "");
}

#[test]
fn exports_are_printed() {
    let written: Vec<WrittenFile> =
        (0..42).map(|i| WrittenFile { guid: format!("{i}"), path: format!("Assets/{i}"), bytes: 1 }).collect();
    let result = ExportResult {
        output: "/out".into(),
        bytes_written: 42,
        written,
        skipped_existing: vec![WrittenFile { guid: "s".into(), path: "Assets/s".into(), bytes: 1 }],
        conflicts: vec![Conflict { guid: "c".into(), path: "Assets/c".into(), existing_path: "Assets/d".into() }],
        missing_in_package: vec![MissingMember { guid: "m".into(), path: "Assets/m".into(), got: vec![] }],
        ..Default::default()
    };
    let unresolved: Vec<Unresolved> =
        (0..21).map(|i| Unresolved { guid: format!("u{i}"), label: None, referrers: vec![] }).collect();
    let plan = PlanOut { warnings: vec!["careful".into()], unresolved, ..Default::default() };
    let out = ExportOut { plan, result };
    let lines = export_lines(&out, false, false, false, "1.5");
    assert_eq!(lines[0], "wrote 42 file(s) (42B) to /out in 1.5s");
    assert_eq!(lines[40], "  + Assets/39");
    assert_eq!(lines[41], "  ... 2 more (use -v)");
    assert_eq!(lines[42], "skipped 1 existing file(s) (use --force to overwrite)");
    assert_eq!(lines[43], "CONFLICT: 1 guid(s) already exist in the project at a different path:");
    assert_eq!(lines[44], "  c  Assets/c  ->  already at Assets/d");
    assert!(lines[45].starts_with("WARNING: 1 planned asset(s) were not found"));
    assert_eq!(lines[46], "note: careful");
    assert_eq!(lines[47], "unresolved references:");
    assert_eq!(lines[48], "  u0  ?");
    assert_eq!(lines[68], "  ... 1 more (see `uai deps`)");
    assert_eq!(lines.len(), 69);
    let quiet = export_lines(&out, true, true, false, "0.0");
    assert!(quiet[0].starts_with("would write 42 file(s)"));
    assert_eq!(quiet.len(), 6);
    assert_eq!(export_lines(&out, false, false, true, "1.5").len(), 1 + 42 + 5 + 22);
}

#[test]
fn settings_and_reports_are_printed() {
    assert_eq!(cache_lines(&vec![]), vec!["cache is empty"]);
    let e = CacheEntry { package_id: 4, package: "Pack".into(), bytes: 1024, complete: false, path: "/c/4".into() };
    assert_eq!(cache_lines(&vec![e]), vec![format!("[4] {:<50} {:>9}  partial", "Pack", "1.0KB")]);
    let mut cfg = config();
    let s = Stats { packages: 2, assets: 7, refs: 9, bytes: 11, previews: 1, fts: true, db: "x".into() };
    let stats = Ok(s);
    assert_eq!(
        config_text(&cfg, false, &stats, "0.1.0"),
        r#"{"assets":7,"bytes":11,"cache_dir":"/h/cache","db":"/h/index.db","fts":true,"home":"/h","library":"/lib","library_mounted":false,"packages":2,"previews":1,"previews_db":"/h/previews.db","refs":9,"server":null,"version":"0.1.0"}"#
    );
    let lines = config_lines(&cfg, false, &stats, "0.1.0");
    assert_eq!(lines.len(), 14);
    assert_eq!(lines[0], format!("{:16} 7", "assets"));
    assert_eq!(lines[6], format!("{:16} /lib  (not mounted)", "library"));
    assert_eq!(lines[12], format!("{:16} -", "server"));
    assert_eq!(
        config_text(&cfg, true, &Err("no \"index\"".into()), "0.1.0"),
        r#"{"cache_dir":"/h/cache","db":"/h/index.db","home":"/h","library":"/lib","library_mounted":true,"previews_db":"/h/previews.db","server":null,"stats_error":"no \"index\"","version":"0.1.0"}"#
    );
    let lines = config_lines(&cfg, true, &Err("no index".into()), "0.1.0");
    assert_eq!(lines.len(), 9);
    assert_eq!(lines[7], format!("{:16} no index", "stats_error"));
    let r = IndexReport { indexed: 1, skipped: 2, errors: 3, entries: 4, previews: 5, ..Default::default() };
    assert_eq!(report_line(&r, "6"), "done: 1 indexed, 2 up to date, 3 errors, 4 assets, 5 previews in 6s");
    assert!(check_local(&cfg, "no").is_ok());
    cfg.server = Some("http://x".into());
    assert_eq!(describe(&check_local(&cfg, "no").unwrap_err()), "no");
}
