//! Texts, numbers, orders and patterns.

use uai::groups::{by_package, distinct_ids};
use uai::human::fmt_eta;
use uai::human_bytes;
use uai::kinds::{class_name, kind_for_path, KINDS};
use uai::model::{Asset, Package};
use uai::number::{decimal, decimal_i64, decimal_two, is_all_digits, parse_i64, parse_u64};
use uai::pattern::is_like;
use uai::seqs::{take_limited, take_page};
use uai::sorted::{TextMap, TextSet};
use uai::text::{
    contains_text, cut_both, eq_ignore_case, join, replace_char, split, split_words, strip_prefix, text_after_last, to_lower,
    trimmed, Sep,
};
use uai::tokens::{camel_tokens, fts_terms, tokens_for};
use uai::VERSION;

#[test]
fn words_are_cut_at_white_space() {
    assert_eq!(split_words("  sm  env\ttree "), vec!["sm".to_string(), "env".to_string(), "tree".to_string()]);
    assert_eq!(trimmed(" \u{3000}a b\n"), "a b");
    assert_eq!(cut_both("//a/b/", Sep::Is('/')), "a/b");
}

#[test]
fn joining_undoes_splitting() {
    for s in ["", "/", "a/b", "/a//b/"] {
        let parts = split(s, Sep::Is('/'));
        assert_eq!(join(&parts, "/"), s);
    }
    assert_eq!(split("", Sep::Is('/')).len(), 1);
}

#[test]
fn only_ascii_letters_are_folded() {
    assert_eq!(to_lower("ÄSM_Chest"), "Äsm_chest");
    assert!(eq_ignore_case("Assets/A.PNG", "assets/a.png"));
    assert!(!eq_ignore_case("Ä", "ä"));
    assert!(!eq_ignore_case("a", "ab"));
}

#[test]
fn parts_of_texts_are_found() {
    assert_eq!(text_after_last("a/b/c.x", '/'), "c.x");
    assert_eq!(text_after_last("plain", '/'), "plain");
    assert_eq!(strip_prefix("guid: x", "guid:").as_deref(), Some(" x"));
    assert_eq!(strip_prefix("uid: x", "guid:"), None);
    assert!(contains_text("Pub A/3D", "a/3"[..].to_uppercase().as_str()));
    assert_eq!(replace_char("a\\b\\c", '\\', '/'), "a/b/c");
}

#[test]
fn numerals_read_back() {
    for n in [0u64, 7, 10, 4294967296, u64::MAX] {
        assert_eq!(parse_u64(&decimal(n)), Some(n));
        assert_eq!(decimal(n), n.to_string());
    }
    for n in [i64::MIN, -1, 0, 42, i64::MAX] {
        assert_eq!(parse_i64(&decimal_i64(n)), Some(n));
        assert_eq!(decimal_i64(n), n.to_string());
    }
    assert_eq!(parse_i64("+5"), Some(5));
    assert_eq!(parse_i64("-"), None);
    assert_eq!(parse_i64("9223372036854775808"), None);
    assert_eq!(parse_u64("18446744073709551616"), None);
    assert!(is_all_digits("007") && !is_all_digits("") && !is_all_digits("7a"));
    assert_eq!((decimal_two(5), decimal_two(12)), ("05".to_string(), "12".to_string()));
}

#[test]
fn sizes_are_shown_in_units() {
    let cases: [(i64, &str); 12] = [
        (-5, "0B"),
        (0, "0B"),
        (1023, "1023B"),
        (1024, "1.0KB"),
        (1536, "1.5KB"),
        (1048575, "1024.0KB"),
        (1048576, "1.0MB"),
        (1153433, "1.1MB"),
        (5368709120, "5.0GB"),
        (1099511627776, "1.0TB"),
        (i64::MAX, "8388608.0TB"),
        (1331, "1.3KB"),
    ];
    for (n, text) in cases {
        assert_eq!(human_bytes(n), text, "{n}");
    }
}

#[test]
fn sizes_agree_with_formatting() {
    let shown = |n: i64| {
        let mut v = n.max(0) as f64;
        for unit in ["B", "KB", "MB", "GB", "TB"] {
            if v < 1024.0 || unit == "TB" {
                return if unit == "B" { format!("{v:.0}{unit}") } else { format!("{v:.1}{unit}") };
            }
            v /= 1024.0;
        }
        unreachable!()
    };
    let mut n: i64 = 1;
    for i in 0..4000i64 {
        n = (n.wrapping_mul(6364136223846793005).wrapping_add(1442695040888963407 + i)) & i64::MAX;
        let m = n >> (i % 63);
        assert_eq!(human_bytes(m), shown(m), "{m}");
        assert_eq!(human_bytes(1024 + i), shown(1024 + i));
    }
}

#[test]
fn remaining_time_is_shown() {
    assert_eq!(fmt_eta(0), "0m00s");
    assert_eq!(fmt_eta(65), "1m05s");
    assert_eq!(fmt_eta(3599), "59m59s");
    assert_eq!(fmt_eta(3660), "1h01m");
}

#[test]
fn sets_and_maps_are_in_order() {
    let mut s = TextSet::new();
    for k in ["b", "a", "ab", "b", "B"] {
        s.insert(k.to_string());
    }
    assert_eq!(s.to_vec(), vec!["B", "a", "ab", "b"]);
    assert!(!s.insert("a".into()));
    assert!(s.remove("a") && !s.remove("a"));
    assert!(s.contains("ab") && !s.contains("a"));
    assert_eq!(s.len(), 3);
    let mut m: TextMap<i64> = TextMap::new();
    m.insert("x".into(), 1);
    m.insert("a".into(), 2);
    m.insert("x".into(), 3);
    assert_eq!(m.keys(), vec!["a", "x"]);
    assert_eq!(m.get("x"), Some(&3));
    assert_eq!(m.get("y"), None);
    assert_eq!(*m.value_at(0), 2);
}

#[test]
fn patterns_have_wildcards() {
    assert!(is_like("%chest%", "Assets/CHEST.prefab"));
    assert!(is_like("a_c", "abc"));
    assert!(!is_like("a_c", "ac"));
    assert!(is_like("%", ""));
    assert!(!is_like("abc", "abcd"));
    assert!(is_like("%/b.png", "Assets/a/b.png"));
}

#[test]
fn pages_are_cut_out() {
    let v: Vec<i64> = vec![1, 2, 3, 4, 5];
    assert_eq!(take_page(v.clone(), 2, 1), vec![2, 3]);
    assert_eq!(take_page(v.clone(), 9, 4), vec![5]);
    assert_eq!(take_page(v.clone(), 2, 9), Vec::<i64>::new());
    assert_eq!(take_limited(v.clone(), Some(3)), vec![1, 2, 3]);
    assert_eq!(take_limited(v, None).len(), 5);
}

#[test]
fn groups_hold_what_belongs_to_them() {
    assert_eq!(distinct_ids(&vec![3, 1, 3, 2, 1]), vec![1, 2, 3]);
    let asset = |pid: i64, guid: &str| Asset { package_id: pid, guid: guid.into(), ..Default::default() };
    let groups = by_package(&vec![asset(2, "x"), asset(1, "y"), asset(2, "z")]);
    assert_eq!(groups.len(), 2);
    assert_eq!(groups[0].0, 1);
    assert_eq!(groups[1].1.iter().map(|a| a.guid.as_str()).collect::<Vec<_>>(), vec!["x", "z"]);
}

#[test]
fn every_kind_is_a_kind() {
    let paths = [
        "a.prefab", "a.mat", "a.shader", "a.png", "a.fbx", "a.wav", "a.anim", "a.unity", "a.cs", "a.asset", "a.ttf", "a.uxml",
        "a.mp4", "a.pdf", "a.json", "a.vfx", "a.zip", "none", ".hidden",
    ];
    for p in paths {
        assert!(KINDS.contains(&kind_for_path(p, false).1), "{p}");
    }
    assert_eq!(KINDS.len(), 18);
    assert_eq!(kind_for_path("a/b.c/d", false), ("".into(), "other"));
    assert_eq!(kind_for_path("a.tar.PNG", false), ("PNG".into(), "texture"));
    assert_eq!(class_name(1), "GameObject");
    assert_eq!(class_name(21), "Material");
    assert_eq!(class_name(999_999), "Class999999");
    let names: std::collections::BTreeSet<String> = (0..2000).map(class_name).collect();
    assert_eq!(names.len(), 2000);
    for (a, b) in [("A/b.PNG", "a/B.png"), ("x.Y/name", "X.y/NAME")] {
        assert_eq!(kind_for_path(a, false).1, kind_for_path(b, false).1);
    }
    assert_eq!(kind_for_path("dir.d/a.tar.Gz", false).0, "Gz");
    assert_eq!(kind_for_path("dir.d/name", false), ("".to_string(), "other"));
    assert_eq!(kind_for_path("a.png", true), ("".to_string(), "folder"));
}

#[test]
fn search_tokens_are_made() {
    assert_eq!(tokens_for("A/bC1.fbx", "model", "fbx", None), "A b C 1 fbx model fbx");
    assert_eq!(tokens_for("x", "", "", Some("Mesh")), "x Mesh");
    assert_eq!(fts_terms("\"quote"), "\"\"\"quote\"*");
    assert_eq!(fts_terms("   "), "");
    assert_eq!(fts_terms("chestGold"), "\"chest\"* \"Gold\"*");
    assert_eq!(fts_terms("SM_Env-Tree01 a\"B"), "\"SM\"* \"Env\"* \"Tree\"* \"01\"* \"a\"\"B\"*");
}

#[test]
fn splitting_twice_is_splitting_once() {
    for s in ["SM_Env_Tree01.fbx", " a\u{3000}bC/", "", "--", "ÄöX2\\y"] {
        let once = camel_tokens(s);
        assert_eq!(camel_tokens(&once), once);
        let kept = |t: &str| t.chars().filter(|c| !c.is_whitespace() && !"_-./\\".contains(*c)).collect::<String>();
        assert_eq!(kept(&once), kept(s));
        assert_eq!(once.trim(), once);
        assert!(!once.contains("  "));
    }
}

#[test]
fn the_store_label_is_shown() {
    let mut p = Package { category: "3D".into(), ..Default::default() };
    assert_eq!(p.display_category(), "3D");
    p.category_label = Some("".into());
    assert_eq!(p.display_category(), "3D");
    p.category_label = Some("3D/Props".into());
    assert_eq!(p.display_category(), "3D/Props");
    assert_eq!(VERSION, "0.1.0");
}
