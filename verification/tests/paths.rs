use codex_linux::paths::{join_paths, path_join, sort_descending, split_paths};
use codex_linux::text::trim;

#[test]
fn path_join_follows_path_rules() {
    assert_eq!(path_join("/home/u", ".nvm"), "/home/u/.nvm");
    assert_eq!(path_join("/home/u/", ".nvm"), "/home/u/.nvm");
    assert_eq!(path_join("", "codex"), "codex");
    assert_eq!(path_join("/a", "/etc/b"), "/etc/b");
    assert_eq!(path_join("a", ""), "a/");
}

#[test]
fn split_and_join_path_lists() {
    assert_eq!(split_paths("/a:/b::/c"), vec!["/a", "/b", "", "/c"]);
    assert_eq!(split_paths(""), vec![""]);
    assert_eq!(
        join_paths(&vec!["/a".to_string(), "".to_string(), "/c".to_string()]),
        Some("/a::/c".to_string())
    );
    assert_eq!(join_paths(&vec![]), Some(String::new()));
    assert_eq!(join_paths(&vec!["/a".to_string(), "b:c".to_string()]), None);
}

#[test]
fn sorts_names_newest_first() {
    let names = vec![
        "v18.19.0".to_string(),
        "v20.11.1".to_string(),
        "v20".to_string(),
        "v9.0.0".to_string(),
        "v20".to_string(),
    ];
    assert_eq!(
        sort_descending(&names),
        vec!["v9.0.0", "v20.11.1", "v20", "v20", "v18.19.0"]
    );
    assert_eq!(sort_descending(&vec![]), Vec::<String>::new());
}

#[test]
fn trims_unicode_whitespace() {
    assert_eq!(trim("\u{3000} x y \u{85}"), "x y");
    assert_eq!(trim("   "), "");
}
