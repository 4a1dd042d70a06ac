use std::path::PathBuf;

use pet::path::{expand_absolute, expand_tilde, join, sibling_file};

#[test]
fn expands_tilde_slash_to_home_dir() {
    let home = dirs::home_dir().unwrap();
    let result = expand_absolute("~/snippets/foo.toml").unwrap();
    assert_eq!(PathBuf::from(result), home.join("snippets/foo.toml"));
}

#[test]
fn expands_bare_tilde_to_home_dir() {
    let home = dirs::home_dir().unwrap();
    let result = expand_absolute("~").unwrap();
    assert_eq!(PathBuf::from(result), home);
}

#[test]
fn leaves_absolute_paths_unchanged() {
    let result = expand_absolute("/etc/hosts").unwrap();
    assert_eq!(PathBuf::from(result), PathBuf::from("/etc/hosts"));
}

#[test]
fn resolves_relative_paths_against_cwd() {
    let result = PathBuf::from(expand_absolute("some/relative/path").unwrap());
    assert!(result.is_absolute());
    assert!(result.ends_with("some/relative/path"));
}

#[test]
fn does_not_require_the_path_to_exist() {
    assert!(expand_absolute("/definitely/does/not/exist/anywhere").is_ok());
}

#[test]
fn expand_tilde_uses_the_given_home() {
    assert_eq!(expand_tilde("~/a/b", Some("/home/u".to_string())), "/home/u/a/b");
    assert_eq!(expand_tilde("~", Some("/home/u".to_string())), "/home/u");
    assert_eq!(expand_tilde("~", None), ".");
    assert_eq!(expand_tilde("x/~", Some("/home/u".to_string())), "x/~");
}

#[test]
fn join_and_sibling_file() {
    assert_eq!(join("/a", "b"), "/a/b");
    assert_eq!(join("/a/", "b"), "/a/b");
    assert_eq!(join("/a", "/b"), "/b");
    assert_eq!(sibling_file("/home/u/pet/snippet.toml", "usage.toml"), "/home/u/pet/usage.toml");
}

#[test]
fn plain_absolute_paths_come_back_unchanged() {
    assert_eq!(expand_absolute("/a/b/../c/").unwrap(), "/a/b/../c/");
    assert_eq!(expand_absolute("/").unwrap(), "/");
    assert_eq!(pet::path::expand_absolute_with("~/x", Some("/home/u".to_string())).unwrap(), "/home/u/x");
    assert!(expand_absolute("").is_err());
}
