use bundler_graph::cache::{CachedModule, ModuleCache};
use bundler_graph::error::{CompilationError, ErrorChannel};
use bundler_graph::graph::{EdgeItem, ModuleGraph};
use bundler_graph::module::{
    clone_bytes, content_hash_of, stringify_query, ContentHash, Module, ModuleId, ModuleType,
    ResolveKind,
};

fn id(path: &str) -> ModuleId {
    ModuleId::new(path, "")
}

#[test]
fn module_id_same_id() {
    let a = ModuleId::new("src/a.js", "?v=1");
    let b = ModuleId::new("src/a.js", "?v=1");
    let c = ModuleId::new("src/a.js", "?v=2");
    let d = ModuleId::new("src/b.js", "?v=1");
    assert!(a.same_id(&b));
    assert!(!a.same_id(&c));
    assert!(!a.same_id(&d));
}

#[test]
fn stringify_query_canonical_form() {
    let empty: Vec<(String, String)> = Vec::new();
    assert_eq!(stringify_query(&empty), "");
    let q = vec![
        ("a".to_string(), "b".to_string()),
        ("c".to_string(), "d".to_string()),
    ];
    assert_eq!(stringify_query(&q), "?a=b&c=d");
    let single = vec![("lang".to_string(), "ts".to_string())];
    assert_eq!(stringify_query(&single), "?lang=ts");
}

#[test]
fn content_hash_known_value() {
    assert_eq!(
        content_hash_of(&b"abc".to_vec()),
        ContentHash::Digest(0xe71fa2190541574b)
    );
    assert_eq!(
        content_hash_of(&Vec::new()),
        ContentHash::Digest(0xcbf29ce484222325)
    );
    assert_ne!(
        content_hash_of(&b"abc".to_vec()),
        content_hash_of(&b"abd".to_vec())
    );
}

#[test]
fn clone_bytes_keeps_contents() {
    let v = b"hello".to_vec();
    assert_eq!(clone_bytes(&v), v);
}

#[test]
fn placeholder_module_is_bare() {
    let m = Module::new(id("x.js"));
    assert!(!m.external);
    assert!(!m.immutable);
    assert!(!m.side_effects);
    assert_eq!(m.size, 0);
    assert!(m.content.is_empty());
    assert!(matches!(m.content_hash, ContentHash::Unset));
    assert_eq!(m.last_update_timestamp, 0);
}

#[test]
fn graph_nodes_and_edges() {
    let mut g = ModuleGraph::new();
    assert_eq!(g.module_count(), 0);
    g.add_module(Module::new(id("a.js")));
    g.add_module(Module::new(id("b.js")));
    assert!(g.has_module(&id("a.js")));
    assert!(!g.has_module(&id("c.js")));
    g.add_edge_item(
        &id("a.js"),
        &id("b.js"),
        EdgeItem { source: "./b.js".to_string(), kind: ResolveKind::Import, order: 0 },
    );
    g.add_edge_item(
        &id("a.js"),
        &id("b.js"),
        EdgeItem { source: "./b.js".to_string(), kind: ResolveKind::DynamicImport, order: 3 },
    );
    assert_eq!(g.edge_count(), 1);
    let items = g.edge_items(&id("a.js"), &id("b.js")).unwrap();
    assert_eq!(items.len(), 2);
    assert_eq!(items[0].order, 0);
    assert_eq!(items[1].order, 3);
    assert!(g.edge_items(&id("b.js"), &id("a.js")).is_none());
}

#[test]
fn graph_replace_keeps_single_node() {
    let mut g = ModuleGraph::new();
    g.add_module(Module::new(id("a.js")));
    let mut replacement = Module::new(id("a.js"));
    replacement.size = 99;
    g.replace_module(replacement);
    assert_eq!(g.module_count(), 1);
    assert_eq!(g.get_module(&id("a.js")).unwrap().size, 99);
}

#[test]
fn graph_entry_binding_upserts() {
    let mut g = ModuleGraph::new();
    g.set_entry(&id("a.js"), &"one".to_string());
    g.set_entry(&id("a.js"), &"two".to_string());
    assert_eq!(g.entry_count(), 1);
    assert_eq!(g.entry_name_of(&id("a.js")).unwrap(), "two");
    assert!(g.entry_name_of(&id("b.js")).is_none());
}

#[test]
fn cache_lookup_strategies() {
    let mut cache = ModuleCache::new(true);
    let mut m = Module::new(id("a.js"));
    m.last_update_timestamp = 10;
    m.content_hash = ContentHash::Digest(77);
    cache.store(CachedModule { module: m, dependencies: Vec::new() });
    assert!(cache.has_cache(&id("a.js")));
    assert!(cache.lookup_by_timestamp(&id("a.js"), 10).is_some());
    assert!(cache.lookup_by_timestamp(&id("a.js"), 11).is_none());
    assert!(cache.lookup_by_content_hash(&id("a.js"), ContentHash::Digest(77)).is_some());
    assert!(cache.lookup_by_content_hash(&id("a.js"), ContentHash::Digest(78)).is_none());
    cache.invalidate_cache(&id("a.js"));
    assert!(!cache.has_cache(&id("a.js")));
}

#[test]
fn cache_rejects_external_modules() {
    let mut cache = ModuleCache::new(true);
    let mut m = Module::new(id("ext.js"));
    m.external = true;
    cache.store(CachedModule { module: m, dependencies: Vec::new() });
    assert!(!cache.has_cache(&id("ext.js")));
}

#[test]
fn disabled_cache_never_serves() {
    let mut cache = ModuleCache::new(false);
    let mut m = Module::new(id("a.js"));
    m.last_update_timestamp = 10;
    cache.store(CachedModule { module: m, dependencies: Vec::new() });
    assert!(!cache.has_cache(&id("a.js")));
    assert!(cache.lookup_by_timestamp(&id("a.js"), 10).is_none());
}

#[test]
fn error_channel_bounded_best_effort() {
    let mut ch = ErrorChannel::new(2);
    ch.send(CompilationError::GenericError("one".to_string()));
    ch.send(CompilationError::GenericError("two".to_string()));
    ch.send(CompilationError::GenericError("three".to_string()));
    assert_eq!(ch.len(), 2);
    assert_eq!(ch.dropped_count(), 1);
    let errors = ch.into_errors();
    assert_eq!(errors.len(), 2);
    assert_eq!(
        errors[0],
        CompilationError::GenericError("one".to_string())
    );
}

#[test]
fn module_type_tags_compare() {
    assert_eq!(ModuleType::Js, ModuleType::Js);
    assert_ne!(ModuleType::Js, ModuleType::Css);
}
