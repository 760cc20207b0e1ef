use emscripten_shim::context::Ctx;
use emscripten_shim::memory::GuestMemory;
use emscripten_shim::paths::{get_cstr_path, get_current_directory, path_components, PathMap};

fn ctx_with(entries: &[(&str, &str)]) -> Ctx {
    let mut map = PathMap::new();
    for (k, v) in entries {
        map.insert(k.as_bytes().to_vec(), v.as_bytes().to_vec());
    }
    Ctx::new(GuestMemory::new(0), map)
}

fn resolve(ctx: &Ctx, p: &str) -> Option<String> {
    get_cstr_path(ctx, p.as_bytes()).map(|v| String::from_utf8(v).unwrap())
}

#[test]
fn single_component_resolves_under_current_directory() {
    let ctx = ctx_with(&[("./sandbox", "/host/real"), (".", "/host/real")]);
    assert_eq!(resolve(&ctx, "foo.txt").as_deref(), Some("/host/real/foo.txt"));
}

#[test]
fn mapped_prefix_is_rebased() {
    let ctx = ctx_with(&[("a/b", "/mnt/data")]);
    assert_eq!(resolve(&ctx, "a/b/c/d.txt").as_deref(), Some("/mnt/data/c/d.txt"));
    assert_eq!(resolve(&ctx, "a/x/y"), None);
}

#[test]
fn shortest_mapped_prefix_wins() {
    let ctx = ctx_with(&[("a/b", "/deep"), ("a", "/shallow")]);
    assert_eq!(resolve(&ctx, "a/b/c").as_deref(), Some("/shallow/b/c"));
}

#[test]
fn absolute_paths_and_exact_matches() {
    let ctx = ctx_with(&[("/data", "/srv/d/")]);
    assert_eq!(resolve(&ctx, "/data/x//y").as_deref(), Some("/srv/d/x/y"));
    assert_eq!(resolve(&ctx, "/other/x"), None);
    let ctx = ctx_with(&[("a/b", "/m")]);
    assert_eq!(resolve(&ctx, "a/./b").as_deref(), Some("/m/"));
}

#[test]
fn unmapped_or_invalid_paths_resolve_to_nothing() {
    let ctx = ctx_with(&[("x", "/y")]);
    assert_eq!(resolve(&ctx, "foo.txt"), None);
    assert_eq!(get_cstr_path(&ctx, &[0xff, b'/', b'a']), None);
    let ctx = ctx_with(&[(".", "/bad\0dir")]);
    assert_eq!(resolve(&ctx, "f"), None);
}

#[test]
fn components_follow_separators() {
    let cs = path_components(b"/a//b/./c/");
    assert_eq!(cs, vec![b"/".to_vec(), b"a".to_vec(), b"b".to_vec(), b"c".to_vec()]);
    let cs = path_components(b"./x/..");
    assert_eq!(cs, vec![b".".to_vec(), b"x".to_vec(), b"..".to_vec()]);
    assert!(path_components(b"").is_empty());
}

#[test]
fn current_directory_prefers_dot_mapping() {
    let ctx = ctx_with(&[(".", "/host/cwd"), ("/real", "/mapped")]);
    assert_eq!(get_current_directory(&ctx, Some(b"/real".to_vec())), Some(b"/host/cwd".to_vec()));
    assert_eq!(get_current_directory(&ctx, None), Some(b"/host/cwd".to_vec()));
}

#[test]
fn current_directory_through_table_or_literal() {
    let ctx = ctx_with(&[("/real", "/mapped")]);
    assert_eq!(get_current_directory(&ctx, Some(b"/real".to_vec())), Some(b"/mapped".to_vec()));
    assert_eq!(get_current_directory(&ctx, Some(b"/other".to_vec())), Some(b"/other".to_vec()));
    assert_eq!(get_current_directory(&ctx, None), None);
}

#[test]
fn path_map_insert_replaces_in_place() {
    let mut map = PathMap::new();
    map.insert(b"a".to_vec(), b"/1".to_vec());
    map.insert(b"b".to_vec(), b"/2".to_vec());
    map.insert(b"a".to_vec(), b"/3".to_vec());
    assert_eq!(map.len(), 2);
    assert_eq!(map.get(b"a"), Some(b"/3".to_vec()));
    assert_eq!(map.get(b"b"), Some(b"/2".to_vec()));
    assert_eq!(map.get(b"c"), None);
}
