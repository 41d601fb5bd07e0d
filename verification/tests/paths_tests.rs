use hope::paths::path_contains;
use hope::paths::path_has_component;
use hope::paths::path_has_component_with_prefix;
use hope::paths::path_join;
use hope::paths::path_last_component;
use hope::paths::path_parent;

#[test]
fn components_are_matched_exactly() {
    assert!(path_has_component("/ws/target/debug/build/foo-1a/out", "build"));
    assert!(!path_has_component("/ws/target/debug/builds/foo-1a/out", "build"));
    assert!(!path_has_component("/ws/target/debug/deps", "build"));
}

#[test]
fn component_prefixes_spot_the_registry_tree() {
    let p = "/home/u/.cargo/registry/src/index.crates.io-6f17d22bba15001f/anyhow-1.0.0/src/lib.rs";
    assert!(path_has_component_with_prefix(p, "index.crates.io-"));
    assert!(!path_has_component_with_prefix("/ws/src/lib.rs", "index.crates.io-"));
}

#[test]
fn substring_search_spots_build_segments() {
    assert!(path_contains("/t/debug/build/foo/build-script-build", "/build/"));
    assert!(!path_contains("/t/debug/deps/foo", "/build/"));
}

#[test]
fn parent_walks_one_component_up() {
    assert_eq!(path_parent("/a/b/c").as_deref(), Some("/a/b"));
    assert_eq!(path_parent("/a").as_deref(), Some("/"));
    assert_eq!(path_parent("a").as_deref(), Some(""));
    assert_eq!(path_parent("/"), None);
    assert_eq!(path_parent(""), None);
}

#[test]
fn last_component_is_everything_after_the_last_slash() {
    assert_eq!(path_last_component("/a/b/typenum-1a2b"), "typenum-1a2b");
    assert_eq!(path_last_component("plain"), "plain");
    assert_eq!(path_join("/a/b", "c.txt"), "/a/b/c.txt");
}
