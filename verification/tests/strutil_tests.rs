use meta_overlayfs::config::Config;
use meta_overlayfs::strutil::{
    join_with_last, sort_dedup, str_concat, str_lex_le, str_path_starts_with,
};

#[test]
fn concat_appends() {
    assert_eq!(str_concat("ab", "cd"), "abcd");
    assert_eq!(str_concat("", "x"), "x");
    assert_eq!(str_concat("x", ""), "x");
}

#[test]
fn lexicographic_order() {
    assert!(str_lex_le("a", "b"));
    assert!(!str_lex_le("b", "a"));
    assert!(str_lex_le("abc", "abd"));
    assert!(str_lex_le("abc", "abc"));
    assert!(str_lex_le("ab", "abc"));
    assert!(!str_lex_le("abc", "ab"));
    assert!(str_lex_le("", ""));
    assert!(str_lex_le("", "a"));
}

#[test]
fn join_builds_the_layer_configuration() {
    let parts = vec!["/c/a/system".to_string(), "/c/b/system".to_string()];
    assert_eq!(join_with_last(&parts, "/system", ":"), "/c/a/system:/c/b/system:/system");
    let none: Vec<String> = Vec::new();
    assert_eq!(join_with_last(&none, "/system", ":"), "/system");
}

#[test]
fn component_wise_prefix() {
    assert!(str_path_starts_with("/system/app", "/system"));
    assert!(str_path_starts_with("/system", "/system"));
    // a literal prefix that breaks a component is no path prefix
    assert!(!str_path_starts_with("/systemd", "/system"));
    assert!(!str_path_starts_with("/sys", "/system"));
    // the filesystem root is an ancestor of every absolute path
    assert!(str_path_starts_with("/data", "/"));
    assert!(!str_path_starts_with("relative", "/"));
}

#[test]
fn sort_dedup_orders_and_removes_duplicates() {
    let items = vec![
        "/b".to_string(),
        "/a".to_string(),
        "/b".to_string(),
        "/a/c".to_string(),
    ];
    let sorted = sort_dedup(items);
    assert_eq!(sorted.len(), 3);
    assert_eq!(sorted[0], "/a");
    assert_eq!(sorted[1], "/a/c");
    assert_eq!(sorted[2], "/b");
}

#[test]
fn sort_dedup_of_nothing_is_nothing() {
    let sorted = sort_dedup(Vec::new());
    assert!(sorted.is_empty());
}

#[test]
fn config_keeps_its_fields() {
    let cfg = Config::new("/data/rw".to_string(), "overlay_src".to_string());
    assert_eq!(cfg.rw_root, "/data/rw");
    assert_eq!(cfg.source_label, "overlay_src");
}
