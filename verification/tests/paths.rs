//! Finding the store from wherever a command is run.

use cyberbrain_light::config::{config_needs_writing, init_config, LightConfig, CONFIG_FILE, STORE_DIR};
use cyberbrain_light::path::{ancestor_dirs, find_store, join_dir, parent_dir, store_candidates};
use std::path::{Path, PathBuf};

/// Look for a store from `from` upwards, in a tree where `stores` are the directories
/// that hold a notes directory.
fn find(explicit: Option<PathBuf>, from: &Path, stores: &[&str]) -> Result<PathBuf, String> {
    let from = from.display().to_string();
    let is_store: Vec<bool> = store_candidates(&from).iter().map(|c| stores.contains(&c.as_str())).collect();
    find_store(explicit.map(|p| p.display().to_string()), &from, &is_store).map(PathBuf::from)
}

#[test]
fn a_command_works_from_a_subdirectory() {
    let dir = Path::new("/tmp/project");
    let root = dir.join(STORE_DIR);
    let stores = ["/tmp/project/.cyberbrain"];
    let deep = dir.join("src/deeply/nested");
    assert_eq!(find(None, &deep, &stores).unwrap(), root);

    let elsewhere = Path::new("/tmp/elsewhere");
    assert!(find(None, elsewhere, &stores).is_err());
    assert_eq!(
        find(Some(PathBuf::from("/explicit")), Path::new("/tmp"), &stores).unwrap(),
        PathBuf::from("/explicit"),
        "--store wins over the search"
    );
}

#[test]
fn the_nearest_store_wins() {
    let r = find_store(None, "/a/b", &vec![false, true, true]).unwrap();
    assert_eq!(r, "/a/.cyberbrain");
    let e = find_store(None, "/a/b", &vec![false, false, false]).unwrap_err();
    assert_eq!(e, "no store found in /a/b or any directory above it; run `cbl init` in your project");
}

#[test]
fn parents_are_what_the_path_library_gives() {
    for p in [
        "/a/b/c", "/a/b/", "/a", "/", "a/b", "a", "", "//x//y//", "a/./b", "a/b/.", "./a", ".", "./.", "/.",
        "/./a", "a/./", "./", "a/..", "x/.y/.",
    ] {
        let expected = Path::new(p).parent().map(|q| q.display().to_string());
        assert_eq!(parent_dir(p), expected, "parent of {p:?}");
    }
}

#[test]
fn ancestors_run_from_the_directory_to_the_root() {
    assert_eq!(ancestor_dirs("/a/b"), vec!["/a/b", "/a", "/"]);
    assert_eq!(ancestor_dirs("a/b"), vec!["a/b", "a", ""]);
    for p in ["/x/y/z", "rel/dir", "/", "a/./b/.", "./q"] {
        let expected: Vec<String> = Path::new(p).ancestors().map(|a| a.display().to_string()).collect();
        assert_eq!(ancestor_dirs(p), expected, "ancestors of {p:?}");
    }
    assert_eq!(store_candidates("/a"), vec!["/a/.cyberbrain", "/.cyberbrain"]);
    assert_eq!(store_candidates("a"), vec!["a/.cyberbrain", ".cyberbrain"]);
}

#[test]
fn joining_puts_one_separator_between() {
    assert_eq!(join_dir("/a", "b"), "/a/b");
    assert_eq!(join_dir("/a/", "b"), "/a/b");
    assert_eq!(join_dir("", "b"), "b");
    assert_eq!(join_dir("/", ".cyberbrain"), "/.cyberbrain");
}

#[test]
fn the_written_config_reads_back_as_the_same_settings() {
    let d = LightConfig::default();
    assert_eq!((d.resident_cap_tokens, d.n, d.k_lex), (8192, 8, 50));
    let c = init_config(1234);
    let t: toml::Table = toml::from_str(&c.text()).unwrap();
    assert_eq!(t.len(), 3);
    assert_eq!(t["resident_cap_tokens"].as_integer(), Some(1234));
    assert_eq!(t["n"].as_integer(), Some(8));
    assert_eq!(t["k_lex"].as_integer(), Some(50));
    assert_eq!(CONFIG_FILE, "light.toml");
    assert!(cyberbrain_light::config::config_needs_writing(false));
    assert!(!cyberbrain_light::config::config_needs_writing(true), "a second init keeps the file");
}

#[test]
fn init_twice_keeps_the_config() {
    let mut file: Option<String> = None;
    for cap in [1234, 9999] {
        if config_needs_writing(file.is_some()) {
            file = Some(init_config(cap).text());
        }
    }
    let t: toml::Table = toml::from_str(file.as_deref().unwrap()).unwrap();
    assert_eq!(
        t["resident_cap_tokens"].as_integer(),
        Some(1234),
        "and does not overwrite a config the user may have edited"
    );
}
