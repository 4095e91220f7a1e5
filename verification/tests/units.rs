use uai::db::Database;
use uai::kinds::kind_for_path;
use uai::sorted::TextSet;
use uai::tokens::camel_tokens;
use uai::unitypackage::{collect_guid_refs, is_builtin_guid, split_member_name, NULL_GUID};

#[test]
fn tokens() {
    assert_eq!(camel_tokens("SM_Env_Tree01.fbx"), "SM Env Tree 01 fbx");
    assert_eq!(camel_tokens("Assets/KayKit/chestGold"), "Assets Kay Kit chest Gold");
}

#[test]
fn fts() {
    assert_eq!(Database::fts_query("sm_env tree"), "\"sm\"* \"env\"* \"tree\"*");
}

#[test]
fn kinds() {
    assert_eq!(kind_for_path("Assets/A/B.prefab", false), ("prefab".into(), "prefab"));
    assert_eq!(kind_for_path("Assets/A/B.FBX", false), ("FBX".into(), "model"));
    assert_eq!(kind_for_path("Assets/A/README", false), ("".into(), "other"));
    assert_eq!(kind_for_path("Assets/A", true), ("".into(), "folder"));
}

#[test]
fn builtin() {
    assert!(is_builtin_guid(NULL_GUID));
    assert!(is_builtin_guid("0000000000000000f000000000000000"));
    assert!(is_builtin_guid("0000000000000000e000000000000000"));
    assert!(!is_builtin_guid("933532a4fcc9baf4fa0491de14d08ed7"));
}

#[test]
fn refs() {
    let mut s = TextSet::new();
    collect_guid_refs(br#"m_Shader: {fileID: 4800000, guid: 933532A4fcc9baf4fa0491de14d08ed7, type: 3}"#, &mut s);
    collect_guid_refs(
        br#"{"guid": "aaaaaaaaaaaaaaaaaaaaaaaaaaaaaaa1"} \"guid\":\"aaaaaaaaaaaaaaaaaaaaaaaaaaaaaaa2\""#,
        &mut s,
    );
    assert_eq!(s.len(), 3);
    assert!(s.contains("933532a4fcc9baf4fa0491de14d08ed7"));
}

#[test]
fn member_names() {
    assert_eq!(
        split_member_name("./aaaaaaaaaaaaaaaaaaaaaaaaaaaaaaa1/asset"),
        Some(("aaaaaaaaaaaaaaaaaaaaaaaaaaaaaaa1".into(), Some("asset".into())))
    );
    assert_eq!(
        split_member_name("aaaaaaaaaaaaaaaaaaaaaaaaaaaaaaa1/"),
        Some(("aaaaaaaaaaaaaaaaaaaaaaaaaaaaaaa1".into(), None))
    );
    assert_eq!(split_member_name("junk/asset"), None);
}
