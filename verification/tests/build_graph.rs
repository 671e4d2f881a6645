use bundler_graph::cache::CachedModule;
use bundler_graph::compiler::{Compiler, Config};
use bundler_graph::error::CompilationError;
use bundler_graph::module::{
    content_hash_of, DependencyDescriptor, Module, ModuleId, ModuleType, ResolveKind,
};
use bundler_graph::plugins::{
    LoadParam, LoadResult, ParseParam, PluginDriver, ProcessParam, ResolveParam, ResolveResult,
    TransformParam, TransformResult,
};
use bundler_graph::module::ModuleMetaData;

/// Deterministic stub collaborators: resolution strips a leading "./", the
/// loader fabricates content from the path, the transformer passes content
/// through, and the parser serves a fixed dependency table. Every call is
/// recorded so tests can check which pipeline stages ran.
struct StubDriver {
    deps: Vec<(String, Vec<(String, ResolveKind)>)>,
    queries: Vec<(String, Vec<(String, String)>)>,
    external: Vec<String>,
    fail_resolve: Vec<String>,
    fail_load: Vec<String>,
    fail_transform: Vec<String>,
    fail_parse: Vec<String>,
    fail_process: Vec<String>,
    timestamp: u64,
    resolve_calls: Vec<String>,
    load_calls: Vec<String>,
    transform_calls: Vec<String>,
    parse_calls: Vec<String>,
    process_calls: Vec<String>,
}

impl StubDriver {
    fn new() -> StubDriver {
        StubDriver {
            deps: Vec::new(),
            queries: Vec::new(),
            external: Vec::new(),
            fail_resolve: Vec::new(),
            fail_load: Vec::new(),
            fail_transform: Vec::new(),
            fail_parse: Vec::new(),
            fail_process: Vec::new(),
            timestamp: 42,
            resolve_calls: Vec::new(),
            load_calls: Vec::new(),
            transform_calls: Vec::new(),
            parse_calls: Vec::new(),
            process_calls: Vec::new(),
        }
    }

    fn with_deps(mut self, path: &str, deps: Vec<(&str, ResolveKind)>) -> StubDriver {
        self.deps.push((
            path.to_string(),
            deps.into_iter().map(|(s, k)| (s.to_string(), k)).collect(),
        ));
        self
    }

    fn resolved(source: &str) -> String {
        source.strip_prefix("./").unwrap_or(source).to_string()
    }
}

fn stub_content(path: &str) -> Vec<u8> {
    format!("content of {}", path).into_bytes()
}

impl PluginDriver for StubDriver {
    fn resolve(&mut self, param: &ResolveParam) -> Result<ResolveResult, String> {
        self.resolve_calls.push(param.source.clone());
        if self.fail_resolve.contains(&param.source) {
            return Err("resolution refused".to_string());
        }
        let resolved = StubDriver::resolved(&param.source);
        let mut query = Vec::new();
        for (path, q) in &self.queries {
            if path == &resolved {
                query = q.clone();
            }
        }
        Ok(ResolveResult {
            external: self.external.contains(&resolved),
            resolved_path: resolved,
            query,
            side_effects: false,
            meta: String::new(),
        })
    }

    fn load(&mut self, param: &LoadParam) -> Result<LoadResult, String> {
        self.load_calls.push(param.resolved_path.clone());
        if self.fail_load.contains(&param.resolved_path) {
            return Err("loader refused".to_string());
        }
        Ok(LoadResult {
            content: stub_content(&param.resolved_path),
            module_type: ModuleType::Js,
            source_map: None,
        })
    }

    fn transform(&mut self, param: TransformParam) -> Result<TransformResult, String> {
        self.transform_calls.push(param.resolved_path.clone());
        if self.fail_transform.contains(&param.resolved_path) {
            return Err("transformer refused".to_string());
        }
        Ok(TransformResult {
            content: param.content,
            module_type: None,
            source_map_chain: param.source_map_chain,
        })
    }

    fn parse(&mut self, param: &ParseParam) -> Result<ModuleMetaData, String> {
        self.parse_calls.push(param.resolved_path.clone());
        if self.fail_parse.contains(&param.resolved_path) {
            return Err("parser refused".to_string());
        }
        let mut deps = Vec::new();
        for (path, declared) in &self.deps {
            if path == &param.resolved_path {
                for (source, kind) in declared {
                    deps.push(DependencyDescriptor { source: source.clone(), kind: kind.clone() });
                }
            }
        }
        Ok(ModuleMetaData { deps })
    }

    fn process_module(
        &mut self,
        param: &ProcessParam,
        _meta: &mut ModuleMetaData,
    ) -> Result<(), String> {
        self.process_calls.push(param.module_id.relative_path.clone());
        if self.fail_process.contains(&param.module_id.relative_path) {
            return Err("processing refused".to_string());
        }
        Ok(())
    }

    fn module_timestamp(&mut self, _id: &ModuleId, _root: &String) -> u64 {
        self.timestamp
    }
}

fn config(entries: Vec<(&str, &str)>, persistent_cache: bool) -> Config {
    Config {
        input: entries
            .into_iter()
            .map(|(n, s)| (n.to_string(), s.to_string()))
            .collect(),
        root: "/project".to_string(),
        persistent_cache,
    }
}

fn id(path: &str) -> ModuleId {
    ModuleId::new(path, "")
}

fn count(calls: &[String], path: &str) -> usize {
    calls.iter().filter(|c| c.as_str() == path).count()
}

#[test]
fn diamond_dependency_built_once() {
    let stub = StubDriver::new()
        .with_deps("index.js", vec![("./b.js", ResolveKind::Import), ("./c.js", ResolveKind::Import)])
        .with_deps("b.js", vec![("./d.js", ResolveKind::Import)])
        .with_deps("c.js", vec![("./d.js", ResolveKind::Import)]);
    let mut compiler = Compiler::new(config(vec![("main", "./index.js")], false), stub);
    let (errors, dropped) = compiler.build();
    assert_eq!(dropped, 0);
    assert!(errors.is_empty());
    let g = compiler.module_graph();
    assert_eq!(g.module_count(), 4);
    assert!(g.has_module(&id("d.js")));
    // the racing importers share one node, and d's pipeline ran exactly once
    let drv = compiler.plugin_driver();
    assert_eq!(count(&drv.load_calls, "d.js"), 1);
    assert_eq!(count(&drv.parse_calls, "d.js"), 1);
}

#[test]
fn edge_order_matches_declaration() {
    let stub = StubDriver::new().with_deps(
        "index.js",
        vec![
            ("./x.js", ResolveKind::Import),
            ("./y.js", ResolveKind::DynamicImport),
            ("./z.js", ResolveKind::Import),
        ],
    );
    let mut compiler = Compiler::new(config(vec![("main", "./index.js")], false), stub);
    let (errors, dropped) = compiler.build();
    assert_eq!(dropped, 0);
    assert!(errors.is_empty());
    let g = compiler.module_graph();
    let importer = id("index.js");
    for (dep, order) in [("x.js", 0usize), ("y.js", 1), ("z.js", 2)] {
        let items = g.edge_items(&importer, &id(dep)).expect("edge missing");
        assert_eq!(items.len(), 1);
        assert_eq!(items[0].order, order);
    }
    let y_items = g.edge_items(&importer, &id("y.js")).unwrap();
    assert_eq!(y_items[0].source, "./y.js");
    assert!(matches!(y_items[0].kind, ResolveKind::DynamicImport));
}

#[test]
fn external_dependency_short_circuits() {
    let mut stub =
        StubDriver::new().with_deps("main.js", vec![("./host.js", ResolveKind::Import)]);
    stub.external.push("host.js".to_string());
    let mut compiler = Compiler::new(config(vec![("main", "./main.js")], false), stub);
    let (errors, dropped) = compiler.build();
    assert_eq!(dropped, 0);
    assert!(errors.is_empty());
    let g = compiler.module_graph();
    let node = g.get_module(&id("host.js")).expect("external node missing");
    assert!(node.external);
    let items = g.edge_items(&id("main.js"), &id("host.js")).unwrap();
    assert_eq!(items.len(), 1);
    let drv = compiler.plugin_driver();
    assert_eq!(count(&drv.load_calls, "host.js"), 0);
    assert_eq!(count(&drv.transform_calls, "host.js"), 0);
    assert_eq!(count(&drv.parse_calls, "host.js"), 0);
}

#[test]
fn timestamp_cache_hit_skips_pipeline() {
    let stub = StubDriver::new();
    let mut compiler = Compiler::new(config(vec![("main", "./cached.js")], true), stub);
    let mut module = Module::new(id("cached.js"));
    module.last_update_timestamp = 42;
    module.content = b"cached content".to_vec();
    module.module_type = ModuleType::Css;
    compiler.store_cache(CachedModule { module, dependencies: Vec::new() });
    let (errors, dropped) = compiler.build();
    assert_eq!(dropped, 0);
    assert!(errors.is_empty());
    let g = compiler.module_graph();
    let node = g.get_module(&id("cached.js")).expect("node missing");
    assert_eq!(node.content, b"cached content".to_vec());
    assert!(matches!(node.module_type, ModuleType::Css));
    let drv = compiler.plugin_driver();
    assert_eq!(count(&drv.load_calls, "cached.js"), 0);
    assert_eq!(count(&drv.transform_calls, "cached.js"), 0);
    assert_eq!(count(&drv.parse_calls, "cached.js"), 0);
}

#[test]
fn timestamp_mismatch_rebuilds() {
    let stub = StubDriver::new();
    let mut compiler = Compiler::new(config(vec![("main", "./stale.js")], true), stub);
    let mut module = Module::new(id("stale.js"));
    module.last_update_timestamp = 7;
    module.content = b"stale".to_vec();
    compiler.store_cache(CachedModule { module, dependencies: Vec::new() });
    let (errors, dropped) = compiler.build();
    assert_eq!(dropped, 0);
    assert!(errors.is_empty());
    let drv = compiler.plugin_driver();
    assert_eq!(count(&drv.load_calls, "stale.js"), 1);
}

#[test]
fn content_hash_hit_skips_parse() {
    let stub = StubDriver::new();
    let mut compiler = Compiler::new(config(vec![("main", "./hashy.js")], true), stub);
    let mut module = Module::new(id("hashy.js"));
    // the recorded timestamp differs, so only the content-hash strategy can hit
    module.last_update_timestamp = 7;
    module.content = stub_content("hashy.js");
    module.content_hash = content_hash_of(&stub_content("hashy.js"));
    module.module_type = ModuleType::Css;
    compiler.store_cache(CachedModule { module, dependencies: Vec::new() });
    let (errors, dropped) = compiler.build();
    assert_eq!(dropped, 0);
    assert!(errors.is_empty());
    let g = compiler.module_graph();
    let node = g.get_module(&id("hashy.js")).expect("node missing");
    assert!(matches!(node.module_type, ModuleType::Css));
    let drv = compiler.plugin_driver();
    assert_eq!(count(&drv.load_calls, "hashy.js"), 1);
    assert_eq!(count(&drv.transform_calls, "hashy.js"), 1);
    assert_eq!(count(&drv.parse_calls, "hashy.js"), 0);
}

#[test]
fn cache_disabled_always_misses() {
    let stub = StubDriver::new();
    let mut compiler = Compiler::new(config(vec![("main", "./cached.js")], false), stub);
    let mut module = Module::new(id("cached.js"));
    module.last_update_timestamp = 42;
    compiler.store_cache(CachedModule { module, dependencies: Vec::new() });
    let (errors, dropped) = compiler.build();
    assert_eq!(dropped, 0);
    assert!(errors.is_empty());
    let drv = compiler.plugin_driver();
    assert_eq!(count(&drv.load_calls, "cached.js"), 1);
    assert_eq!(count(&drv.parse_calls, "cached.js"), 1);
}

#[test]
fn load_failure_isolated() {
    let mut stub = StubDriver::new().with_deps(
        "main.js",
        vec![("./broken.js", ResolveKind::Import), ("./ok.js", ResolveKind::Import)],
    );
    stub.fail_load.push("broken.js".to_string());
    let mut compiler = Compiler::new(config(vec![("main", "./main.js")], false), stub);
    let (errors, dropped) = compiler.build();
    assert_eq!(dropped, 0);
    assert_eq!(errors.len(), 1);
    match &errors[0] {
        CompilationError::LoadError { resolved_path, .. } => {
            assert_eq!(resolved_path, "broken.js");
        }
        other => panic!("unexpected error: {:?}", other),
    }
    let g = compiler.module_graph();
    let ok = g.get_module(&id("ok.js")).expect("ok.js missing");
    assert_eq!(ok.content, stub_content("ok.js"));
    let drv = compiler.plugin_driver();
    assert_eq!(count(&drv.load_calls, "ok.js"), 1);
}

#[test]
fn transform_failure_reported() {
    let mut stub = StubDriver::new();
    stub.fail_transform.push("t.js".to_string());
    let mut compiler = Compiler::new(config(vec![("main", "./t.js")], false), stub);
    let (errors, dropped) = compiler.build();
    assert_eq!(dropped, 0);
    assert_eq!(errors.len(), 1);
    assert!(matches!(
        &errors[0],
        CompilationError::TransformError { resolved_path, .. } if resolved_path == "t.js"
    ));
}

#[test]
fn parse_failure_reported() {
    let mut stub = StubDriver::new();
    stub.fail_parse.push("p.js".to_string());
    let mut compiler = Compiler::new(config(vec![("main", "./p.js")], false), stub);
    let (errors, dropped) = compiler.build();
    assert_eq!(dropped, 0);
    assert_eq!(errors.len(), 1);
    assert!(matches!(
        &errors[0],
        CompilationError::ParseError { resolved_path, .. } if resolved_path == "p.js"
    ));
}

#[test]
fn process_failure_reported() {
    let mut stub = StubDriver::new();
    stub.fail_process.push("m.js".to_string());
    let mut compiler = Compiler::new(config(vec![("main", "./m.js")], false), stub);
    let (errors, dropped) = compiler.build();
    assert_eq!(dropped, 0);
    assert_eq!(errors.len(), 1);
    assert!(matches!(
        &errors[0],
        CompilationError::ProcessModuleError { resolved_path, .. } if resolved_path == "m.js"
    ));
}

#[test]
fn resolve_failure_reported() {
    let mut stub = StubDriver::new();
    stub.fail_resolve.push("./gone.js".to_string());
    let mut compiler = Compiler::new(config(vec![("main", "./gone.js")], false), stub);
    let (errors, dropped) = compiler.build();
    assert_eq!(dropped, 0);
    assert_eq!(errors.len(), 1);
    assert!(matches!(&errors[0], CompilationError::GenericError(_)));
}

#[test]
fn end_to_end_graph() {
    let stub = StubDriver::new()
        .with_deps(
            "index.js",
            vec![("./a.js", ResolveKind::Import), ("./b.js", ResolveKind::Import)],
        )
        .with_deps("a.js", vec![("./common.js", ResolveKind::Import)])
        .with_deps("b.js", vec![("./common.js", ResolveKind::Import)]);
    let mut compiler = Compiler::new(config(vec![("main", "./index.js")], false), stub);
    let (errors, dropped) = compiler.build();
    assert_eq!(dropped, 0);
    assert!(errors.is_empty());
    let g = compiler.module_graph();
    assert_eq!(g.module_count(), 4);
    let index = id("index.js");
    let a = id("a.js");
    let b = id("b.js");
    let common = id("common.js");
    assert_eq!(g.edge_items(&index, &a).unwrap()[0].order, 0);
    assert_eq!(g.edge_items(&index, &b).unwrap()[0].order, 1);
    assert_eq!(g.edge_items(&a, &common).unwrap()[0].order, 0);
    assert_eq!(g.edge_items(&b, &common).unwrap()[0].order, 0);
    assert_eq!(g.edge_count(), 4);
    assert_eq!(g.entry_name_of(&index).unwrap(), "main");
    let drv = compiler.plugin_driver();
    assert_eq!(count(&drv.parse_calls, "common.js"), 1);
}

#[test]
fn entry_binding_recorded_once() {
    let stub = StubDriver::new();
    let mut compiler = Compiler::new(
        config(vec![("app", "./solo.js")], false),
        stub,
    );
    let (errors, dropped) = compiler.build();
    assert_eq!(dropped, 0);
    assert!(errors.is_empty());
    let g = compiler.module_graph();
    assert_eq!(g.entry_count(), 1);
    assert_eq!(g.entry_name_of(&id("solo.js")).unwrap(), "app");
}

#[test]
fn query_string_is_part_of_identity() {
    let mut stub = StubDriver::new();
    stub.queries.push((
        "styled.js".to_string(),
        vec![("inline".to_string(), "1".to_string())],
    ));
    let mut compiler = Compiler::new(config(vec![("main", "./styled.js")], false), stub);
    let (errors, dropped) = compiler.build();
    assert_eq!(dropped, 0);
    assert!(errors.is_empty());
    let g = compiler.module_graph();
    assert!(g.has_module(&ModuleId::new("styled.js", "?inline=1")));
    assert!(!g.has_module(&ModuleId::new("styled.js", "")));
}
