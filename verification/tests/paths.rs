use thumper::text::{
    ends_with, normalize_path, same_text, starts_with, starts_with_any, strip_leading,
};

#[test]
fn normalize_path_adds_missing_slash() {
    assert_eq!(normalize_path("site".to_string()), "site/");
    assert_eq!(normalize_path("site/".to_string()), "site/");
    assert_eq!(normalize_path("/".to_string()), "/");
    assert_eq!(normalize_path(String::new()), "/");
    assert_eq!(normalize_path("a/b".to_string()), "a/b/");
}

#[test]
fn normalize_path_is_idempotent() {
    let once = normalize_path("docs/guide".to_string());
    let twice = normalize_path(once.clone());
    assert_eq!(once, twice);
}

#[test]
fn normalize_path_counts_characters_not_bytes() {
    assert_eq!(normalize_path("grüße".to_string()), "grüße/");
    assert_eq!(normalize_path("grüße/".to_string()), "grüße/");
}

#[test]
fn same_text_compares_content() {
    assert!(same_text("abc", "abc"));
    assert!(!same_text("abc", "abd"));
    assert!(!same_text("abc", "ab"));
    assert!(same_text("", ""));
}

#[test]
fn starts_with_finds_prefixes() {
    assert!(starts_with("a/index.html", "a"));
    assert!(starts_with("a/index.html", "a/"));
    assert!(starts_with("a/index.html", ""));
    assert!(starts_with("a/index.html", "a/index.html"));
    assert!(!starts_with("a/index.html", "b"));
    assert!(!starts_with("a", "a/index.html"));
    assert!(starts_with("ünï/x", "ünï"));
    assert!(!starts_with("unï/x", "ünï"));
}

#[test]
fn ends_with_finds_suffixes() {
    assert!(ends_with("index.html", ".html"));
    assert!(ends_with("index.html", ""));
    assert!(ends_with("index.html", "index.html"));
    assert!(!ends_with("index.html", ".htm"));
    assert!(!ends_with("l", ".html"));
    assert!(ends_with("straße", "ße"));
}

#[test]
fn starts_with_any_tries_every_prefix() {
    let prefixes = vec!["img/".to_string(), "a".to_string()];
    assert!(starts_with_any("a/index.html", &prefixes));
    assert!(starts_with_any("img/logo.png", &prefixes));
    assert!(!starts_with_any("b/index.html", &prefixes));
    assert!(!starts_with_any("b/index.html", &Vec::new()));
    assert!(starts_with_any("anything", &vec![String::new()]));
}

#[test]
fn strip_leading_removes_every_copy() {
    assert_eq!(strip_leading("/zone/a/b/", "/zone/"), "a/b/");
    assert_eq!(strip_leading("///a", "/"), "a");
    assert_eq!(strip_leading("a/b", "/"), "a/b");
    assert_eq!(strip_leading("/z//z/x/", "/z/"), "x/");
    assert_eq!(strip_leading("abab", "ab"), "");
    assert_eq!(strip_leading("aba", "ab"), "a");
    assert_eq!(strip_leading("abc", ""), "abc");
    assert_eq!(strip_leading("", "x"), "");
}
