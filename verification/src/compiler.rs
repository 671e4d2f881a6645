//! The graph builder: claims module identities, runs the build pipeline,
//! registers nodes and edges, and fans out to dependencies until every
//! reachable branch has settled or failed.

use vstd::prelude::*;
use crate::cache::{
    cache_entry_for, cache_has, cached_deps_view, CachedModule, CachedModuleView, ModuleCache,
};
use crate::error::{channel_sent, CompilationError, ErrorChannel};
use crate::graph::{has_mid, EdgeItem, EdgeItemView, ModuleGraph, ModuleGraphEdgeView};
use crate::module::{
    content_hash_of, fnv1a, stringify_query, stringify_query_spec, query_view, ContentHash,
    DependencyDescriptor, DependencyDescriptorView, Module, ModuleId, ModuleIdView, ModuleType,
    ResolveKind, ResolveKindView,
};
use crate::plugins::{
    clone_query, LoadParam, ParseParam, PluginDriver, ProcessParam, ResolveParam, ResolveResult,
    TransformParam, TransformResult,
};
use crate::module::ModuleMetaData;

verus! {

/// Capacity of the error channel of one build; sends beyond it are counted
/// as dropped rather than blocking a branch.
pub const ERROR_CHANNEL_CAPACITY: usize = 1024;

/// One recorded collaborator call of the build pipeline, ghost bookkeeping
/// that the contracts below are stated over.
pub enum HookEvent {
    FetchTimestamp { id: ModuleIdView, ts: u64 },
    Load { id: ModuleIdView, ok: bool, path: Seq<char>, content: Seq<u8> },
    Transform { id: ModuleIdView, ok: bool, content: Seq<u8>, input: Seq<u8> },
    Parse { id: ModuleIdView, ok: bool, content: Seq<u8>, module_type: ModuleType },
    Process { id: ModuleIdView, ok: bool },
}

/// One recorded resolution request and its outcome: what was asked, whether
/// the resolver answered, and, on success, the identity and external flag
/// the answer yielded.
pub struct ResolveEvent {
    pub source: Seq<char>,
    pub kind: ResolveKindView,
    pub importer: Option<ModuleIdView>,
    pub ok: bool,
    pub resolved: Option<ModuleIdView>,
    pub external: bool,
}

/// Whether a recorded resolution request is the one a configured entry owes.
pub open spec fn entry_request(ev: ResolveEvent, name: Seq<char>, source: Seq<char>) -> bool {
    ev.source == source && ev.kind == ResolveKindView::Entry(name) && ev.importer is None
}

/// Whether the log holds the resolution request a configured entry owes.
pub open spec fn entry_requested(lg: Seq<ResolveEvent>, name: Seq<char>, source: Seq<char>) -> bool {
    exists|j: int| 0 <= j < lg.len() && entry_request(#[trigger] lg[j], name, source)
}

/// How the ghost log of collected errors moves with one best-effort send:
/// it mirrors the channel, keeping the error only while there was room.
pub open spec fn reported_after(
    rep: Seq<CompilationError>,
    before: ErrorChannel,
    e: CompilationError,
) -> Seq<CompilationError> {
    if before@.len() < before.capacity_spec() {
        rep.push(e)
    } else {
        rep
    }
}

/// How the cache changes when a recorded dependency is invalidated: its
/// entry is dropped if one could be served, else nothing moves.
pub open spec fn cache_dropped(
    old_cache: Seq<CachedModuleView>,
    new_cache: Seq<CachedModuleView>,
    id: ModuleIdView,
    enabled: bool,
) -> bool {
    if enabled && cache_has(old_cache, id) {
        exists|i: int|
            0 <= i < old_cache.len() && (#[trigger] old_cache[i]).module.id == id && new_cache
                == old_cache.remove(i)
    } else {
        new_cache == old_cache
    }
}

/// The module the event belongs to.
pub open spec fn event_id(e: HookEvent) -> ModuleIdView {
    match e {
        HookEvent::FetchTimestamp { id, .. } => id,
        HookEvent::Load { id, .. } => id,
        HookEvent::Transform { id, .. } => id,
        HookEvent::Parse { id, .. } => id,
        HookEvent::Process { id, .. } => id,
    }
}

/// No identity occurs twice.
pub open spec fn no_dups(ids: Seq<ModuleIdView>) -> bool {
    forall|i: int, j: int|
        #![trigger ids[i], ids[j]]
        0 <= i < j < ids.len() ==> ids[i] != ids[j]
}

/// The whole compilation context of one build: configuration, the module
/// graph, the cache gateway and the plugin driver.
pub struct CompilationContext<P: PluginDriver> {
    pub config: Config,
    pub module_graph: ModuleGraph,
    pub module_cache: ModuleCache,
    pub plugin_driver: P,
}

/// Configuration surface relevant to graph construction: the entry set, the
/// working root and the persistent-cache flag.
pub struct Config {
    pub input: Vec<(String, String)>,
    pub root: String,
    pub persistent_cache: bool,
}

/// The compiler: owns the compilation context and drives graph
/// construction, with ghost logs of which modules went through the pipeline
/// and which collaborator calls were made.
pub struct Compiler<P: PluginDriver> {
    context: CompilationContext<P>,
    built_ids: Ghost<Seq<ModuleIdView>>,
    events: Ghost<Seq<HookEvent>>,
    resolves: Ghost<Seq<ResolveEvent>>,
    reported: Ghost<Seq<CompilationError>>,
}

impl<P: PluginDriver> Compiler<P> {
    /// The graph as built so far.
    pub closed spec fn graph(self) -> crate::graph::ModuleGraphView {
        self.context.module_graph@
    }

    /// The identities whose build pipeline has run, in order.
    pub closed spec fn built(self) -> Seq<ModuleIdView> {
        self.built_ids@
    }

    /// Every collaborator call made so far.
    pub closed spec fn events(self) -> Seq<HookEvent> {
        self.events@
    }

    /// The cache gateway's entries.
    pub closed spec fn cache(self) -> Seq<CachedModuleView> {
        self.context.module_cache@
    }

    /// Every resolution request made so far, with its outcome.
    pub closed spec fn resolve_log(self) -> Seq<ResolveEvent> {
        self.resolves@
    }

    /// The errors this build retained: what the bounded channel kept, in
    /// the order the branches reported them.
    pub closed spec fn reported(self) -> Seq<CompilationError> {
        self.reported@
    }

    /// The configured entry set.
    pub closed spec fn input(self) -> Seq<(String, String)> {
        self.context.config.input@
    }

    /// The compiler's invariant: the graph and the cache are well formed;
    /// no module was built twice; built modules and recorded collaborator
    /// calls belong to claimed identities; and no collaborator call was ever
    /// made for an external module.
    pub closed spec fn inv(self) -> bool {
        &&& self.context.module_graph.wf()
        &&& self.context.module_cache.wf()
        &&& no_dups(self.built_ids@)
        &&& forall|k: int|
            0 <= k < self.built_ids@.len() ==> has_mid(
                self.context.module_graph@.modules,
                #[trigger] self.built_ids@[k],
            )
        &&& forall|k: int|
            0 <= k < self.events@.len() ==> has_mid(
                self.context.module_graph@.modules,
                event_id(#[trigger] self.events@[k]),
            )
        &&& forall|k: int, e: int|
            #![trigger self.context.module_graph@.modules[k], self.events@[e]]
            0 <= k < self.context.module_graph@.modules.len() && 0 <= e < self.events@.len()
                && self.context.module_graph@.modules[k].external ==> event_id(self.events@[e])
                != self.context.module_graph@.modules[k].id
    }

    /// A fresh compiler over the given configuration and collaborators:
    /// empty graph, empty logs, cache enabled as configured.
    pub fn new(config: Config, plugin_driver: P) -> (c: Compiler<P>)
        ensures
            c.inv(),
            c.graph().modules == Seq::<crate::module::ModuleView>::empty(),
            c.graph().edges == Seq::<ModuleGraphEdgeView>::empty(),
            c.graph().entries == Seq::<(ModuleIdView, Seq<char>)>::empty(),
            c.built() == Seq::<ModuleIdView>::empty(),
            c.events() == Seq::<HookEvent>::empty(),
            c.cache() == Seq::<CachedModuleView>::empty(),
            c.resolve_log() == Seq::<ResolveEvent>::empty(),
            c.reported() == Seq::<CompilationError>::empty(),
            c.input() == config.input@,
            c.cache_enabled() == config.persistent_cache,
    {
        let cache_enabled = config.persistent_cache;
        Compiler {
            context: CompilationContext {
                config,
                module_graph: ModuleGraph::new(),
                module_cache: ModuleCache::new(cache_enabled),
                plugin_driver,
            },
            built_ids: Ghost(Seq::empty()),
            events: Ghost(Seq::empty()),
            resolves: Ghost(Seq::empty()),
            reported: Ghost(Seq::empty()),
        }
    }

    /// Whether cache lookups may report hits.
    pub closed spec fn cache_enabled(self) -> bool {
        self.context.module_cache.enabled_spec()
    }

    /// The plugin driver's value.
    pub closed spec fn plugins(self) -> P {
        self.context.plugin_driver
    }

    /// Read access to the collaborators, for inspection once a build has
    /// settled.
    pub fn plugin_driver(&self) -> (p: &P)
        ensures
            *p == self.plugins(),
    {
        &self.context.plugin_driver
    }

    /// Read access to the graph, for inspection once a build has settled.
    pub fn module_graph(&self) -> (g: &ModuleGraph)
        ensures
            g@ == self.graph(),
    {
        &self.context.module_graph
    }

    /// Seeds the cache gateway with a previously built module, as a
    /// persistent cache backend would on startup.
    pub fn store_cache(&mut self, entry: CachedModule)
        requires
            old(self).inv(),
        ensures
            final(self).inv(),
            final(self).graph() == old(self).graph(),
            final(self).built() == old(self).built(),
            final(self).events() == old(self).events(),
            final(self).resolve_log() == old(self).resolve_log(),
            final(self).reported() == old(self).reported(),
            final(self).cache_enabled() == old(self).cache_enabled(),
            if entry.module.external {
                final(self).cache() == old(self).cache()
            } else if cache_has(old(self).cache(), entry.module.id@) {
                exists|i: int|
                    0 <= i < old(self).cache().len() && (#[trigger] old(self).cache()[i]).module.id
                        == entry.module.id@ && final(self).cache() == old(self).cache().update(
                        i,
                        entry@,
                    )
            } else {
                final(self).cache() == old(self).cache().push(entry@)
            },
    {
        self.context.module_cache.store(entry);
    }

    /// The channel that one build's branch failures are forwarded to.
    pub fn create_error_channel() -> (c: ErrorChannel)
        ensures
            c@ == Seq::<CompilationError>::empty(),
            c.capacity_spec() == ERROR_CHANNEL_CAPACITY,
            c.dropped_spec() == 0,
    {
        ErrorChannel::new(ERROR_CHANNEL_CAPACITY)
    }

    /// Records the collaborator call that fetches a module's modification
    /// timestamp, then makes it.
    fn call_timestamp(&mut self, id: &ModuleId) -> (ts: u64)
        requires
            old(self).inv(),
            has_mid(old(self).graph().modules, id@),
            forall|k: int|
                0 <= k < old(self).graph().modules.len() && (#[trigger] old(self).graph().modules[k]).id == id@ ==> !old(self).graph().modules[k].external,
        ensures
            final(self).inv(),
            final(self).graph() == old(self).graph(),
            final(self).cache() == old(self).cache(),
            final(self).built() == old(self).built(),
            final(self).cache_enabled() == old(self).cache_enabled(),
            final(self).context.config == old(self).context.config,
            final(self).resolve_log() == old(self).resolve_log(),
            final(self).reported() == old(self).reported(),
            final(self).events() == old(self).events().push(
                HookEvent::FetchTimestamp { id: id@, ts },
            ),
    {
        let ts = self.context.plugin_driver.module_timestamp(id, &self.context.config.root);
        proof {
            self.events@ = self.events@.push(HookEvent::FetchTimestamp { id: id@, ts });
        }
        ts
    }

    /// Records the load call, then makes it.
    fn call_load(&mut self, param: &LoadParam) -> (r: Result<crate::plugins::LoadResult, String>)
        requires
            old(self).inv(),
            has_mid(old(self).graph().modules, param.module_id@),
            forall|k: int|
                0 <= k < old(self).graph().modules.len() && (#[trigger] old(self).graph().modules[k]).id == param.module_id@ ==> !old(self).graph().modules[k].external,
        ensures
            final(self).inv(),
            final(self).graph() == old(self).graph(),
            final(self).cache() == old(self).cache(),
            final(self).built() == old(self).built(),
            final(self).cache_enabled() == old(self).cache_enabled(),
            final(self).context.config == old(self).context.config,
            final(self).resolve_log() == old(self).resolve_log(),
            final(self).reported() == old(self).reported(),
            final(self).events() == old(self).events().push(
                HookEvent::Load {
                    id: param.module_id@,
                    ok: r is Ok,
                    path: param.resolved_path@,
                    content: if r is Ok {
                        r->Ok_0.content@
                    } else {
                        Seq::empty()
                    },
                },
            ),
    {
        let r = self.context.plugin_driver.load(param);
        proof {
            let content = if r is Ok {
                r->Ok_0.content@
            } else {
                Seq::empty()
            };
            self.events@ = self.events@.push(
                HookEvent::Load {
                    id: param.module_id@,
                    ok: r is Ok,
                    path: param.resolved_path@,
                    content,
                },
            );
        }
        r
    }

    /// Records the transform call and its resulting content, then makes it.
    fn call_transform(&mut self, param: TransformParam) -> (r: Result<TransformResult, String>)
        requires
            old(self).inv(),
            has_mid(old(self).graph().modules, param.module_id@),
            forall|k: int|
                0 <= k < old(self).graph().modules.len() && (#[trigger] old(self).graph().modules[k]).id == param.module_id@ ==> !old(self).graph().modules[k].external,
        ensures
            final(self).inv(),
            final(self).graph() == old(self).graph(),
            final(self).cache() == old(self).cache(),
            final(self).built() == old(self).built(),
            final(self).cache_enabled() == old(self).cache_enabled(),
            final(self).context.config == old(self).context.config,
            final(self).resolve_log() == old(self).resolve_log(),
            final(self).reported() == old(self).reported(),
            final(self).events() == old(self).events().push(
                HookEvent::Transform {
                    id: param.module_id@,
                    ok: r is Ok,
                    content: if r is Ok {
                        r->Ok_0.content@
                    } else {
                        Seq::empty()
                    },
                    input: param.content@,
                },
            ),
    {
        let ghost idv = param.module_id@;
        let ghost input = param.content@;
        let r = self.context.plugin_driver.transform(param);
        proof {
            let content = if r is Ok {
                r->Ok_0.content@
            } else {
                Seq::empty()
            };
            self.events@ = self.events@.push(
                HookEvent::Transform { id: idv, ok: r is Ok, content, input },
            );
        }
        r
    }

    /// Records the parse call, then makes it.
    fn call_parse(&mut self, param: &ParseParam) -> (r: Result<ModuleMetaData, String>)
        requires
            old(self).inv(),
            has_mid(old(self).graph().modules, param.module_id@),
            forall|k: int|
                0 <= k < old(self).graph().modules.len() && (#[trigger] old(self).graph().modules[k]).id == param.module_id@ ==> !old(self).graph().modules[k].external,
        ensures
            final(self).inv(),
            final(self).graph() == old(self).graph(),
            final(self).cache() == old(self).cache(),
            final(self).built() == old(self).built(),
            final(self).cache_enabled() == old(self).cache_enabled(),
            final(self).context.config == old(self).context.config,
            final(self).resolve_log() == old(self).resolve_log(),
            final(self).reported() == old(self).reported(),
            final(self).events() == old(self).events().push(
                HookEvent::Parse {
                    id: param.module_id@,
                    ok: r is Ok,
                    content: param.content@,
                    module_type: param.module_type,
                },
            ),
    {
        let r = self.context.plugin_driver.parse(param);
        proof {
            self.events@ = self.events@.push(
                HookEvent::Parse {
                    id: param.module_id@,
                    ok: r is Ok,
                    content: param.content@,
                    module_type: param.module_type,
                },
            );
        }
        r
    }

    /// Records the post-parse processing call, then makes it.
    fn call_process(&mut self, param: &ProcessParam, meta: &mut ModuleMetaData) -> (r: Result<
        (),
        String,
    >)
        requires
            old(self).inv(),
            has_mid(old(self).graph().modules, param.module_id@),
            forall|k: int|
                0 <= k < old(self).graph().modules.len() && (#[trigger] old(self).graph().modules[k]).id == param.module_id@ ==> !old(self).graph().modules[k].external,
        ensures
            final(self).inv(),
            final(self).graph() == old(self).graph(),
            final(self).cache() == old(self).cache(),
            final(self).built() == old(self).built(),
            final(self).cache_enabled() == old(self).cache_enabled(),
            final(self).context.config == old(self).context.config,
            final(self).resolve_log() == old(self).resolve_log(),
            final(self).reported() == old(self).reported(),
            final(self).events() == old(self).events().push(
                HookEvent::Process { id: param.module_id@, ok: r is Ok },
            ),
    {
        let r = self.context.plugin_driver.process_module(param, meta);
        proof {
            self.events@ = self.events@.push(
                HookEvent::Process { id: param.module_id@, ok: r is Ok },
            );
        }
        r
    }

    /// Makes the resolve call; resolution precedes any claim, so it is not
    /// tied to a module identity in the call log.
    fn call_resolve(&mut self, param: &ResolveParam) -> (r: Result<ResolveResult, String>)
        requires
            old(self).inv(),
        ensures
            final(self).inv(),
            final(self).graph() == old(self).graph(),
            final(self).cache() == old(self).cache(),
            final(self).built() == old(self).built(),
            final(self).cache_enabled() == old(self).cache_enabled(),
            final(self).context.config == old(self).context.config,
            final(self).resolve_log() == old(self).resolve_log(),
            final(self).reported() == old(self).reported(),
            final(self).events() == old(self).events(),
    {
        self.context.plugin_driver.resolve(param)
    }

    /// A module record with the given identity and externally supplied
    /// flags; everything else is placeholder data until the pipeline runs.
    pub fn create_module(module_id: ModuleId, external: bool, immutable: bool) -> (m: Module)
        ensures
            m@.id == module_id@,
            m@.external == external,
            m@.immutable == immutable,
            m@.content_hash == ContentHash::Unset,
            m@.last_update_timestamp == 0,
            m@.content == Seq::<u8>::empty(),
            m@.module_type == ModuleType::Js,
            m@.size == 0,
            !m@.side_effects,
            m@.source_map_chain == Seq::<Seq<char>>::empty(),
            m@.meta.deps == Seq::<DependencyDescriptorView>::empty(),
    {
        let mut module = Module::new(module_id);
        if external {
            module.external = true;
        }
        if immutable {
            module.immutable = true;
        }
        module
    }

    /// Claims an identity by inserting a bare placeholder node, preventing
    /// the module from being handled twice.
    pub fn insert_dummy_module(module_id: &ModuleId, module_graph: &mut ModuleGraph)
        requires
            old(module_graph).wf(),
            !has_mid(old(module_graph)@.modules, module_id@),
        ensures
            final(module_graph).wf(),
            final(module_graph)@.modules == old(module_graph)@.modules.push(
                Self::dummy_module_view(module_id@),
            ),
            final(module_graph)@.edges == old(module_graph)@.edges,
            final(module_graph)@.entries == old(module_graph)@.entries,
    {
        let dummy = Self::create_module(module_id.clone(), false, false);
        proof {
            assert(dummy@ =~= Self::dummy_module_view(module_id@));
        }
        module_graph.add_module(dummy);
    }

    /// The node an external resolution records: a placeholder in every
    /// field but the external flag.
    pub open spec fn external_module_view(id: ModuleIdView) -> crate::module::ModuleView {
        crate::module::ModuleView { external: true, ..Self::dummy_module_view(id) }
    }

    /// The placeholder node that claims an identity.
    pub open spec fn dummy_module_view(id: ModuleIdView) -> crate::module::ModuleView {
        crate::module::ModuleView {
            id,
            content: Seq::empty(),
            content_hash: ContentHash::Unset,
            last_update_timestamp: 0,
            module_type: ModuleType::Js,
            size: 0,
            external: false,
            immutable: false,
            side_effects: false,
            source_map_chain: Seq::empty(),
            meta: crate::module::ModuleMetaDataView { deps: Seq::empty() },
        }
    }
}

/// Resolution outcome tied to the computed module identity.
pub struct ResolveModuleIdResult {
    pub module_id: ModuleId,
    pub resolve_result: ResolveResult,
}

/// A freshly claimed module together with its resolution outcome.
pub struct ResolvedModuleInfo {
    pub module: Module,
    pub resolve_module_id_result: ResolveModuleIdResult,
}

/// How one resolution request relates to the graph: the module is already
/// built (or claimed), a trusted cache entry can be adopted, or the identity
/// was claimed fresh and must be built.
pub enum ResolveModuleResult {
    Built(ModuleId),
    Cached(ModuleId),
    Success(ResolvedModuleInfo),
}

impl<P: PluginDriver> Compiler<P> {
    /// Runs the resolver and derives the stable module identity from the
    /// resolved path and the canonicalized query string.
    fn resolve_module_id(&mut self, resolve_param: &ResolveParam) -> (r: Result<
        ResolveModuleIdResult,
        CompilationError,
    >)
        requires
            old(self).inv(),
        ensures
            final(self).inv(),
            final(self).graph() == old(self).graph(),
            final(self).cache() == old(self).cache(),
            final(self).built() == old(self).built(),
            final(self).events() == old(self).events(),
            final(self).reported() == old(self).reported(),
            final(self).cache_enabled() == old(self).cache_enabled(),
            final(self).context.config == old(self).context.config,
            final(self).resolve_log() == old(self).resolve_log().push(
                ResolveEvent {
                    source: resolve_param.source@,
                    kind: resolve_param.kind@,
                    importer: opt_id_view(resolve_param.importer),
                    ok: r is Ok,
                    resolved: match r {
                        Ok(ref res) => Some(res.module_id@),
                        Err(_) => None,
                    },
                    external: r matches Ok(ref res) && res.resolve_result.external,
                },
            ),
            r matches Ok(res) ==> res.module_id@.relative_path
                == res.resolve_result.resolved_path@ && res.module_id@.query_string
                == stringify_query_spec(query_view(res.resolve_result.query@)),
            r matches Err(e) ==> e matches CompilationError::GenericError(m) && m@
                == "Failed to resolve module id"@,
    {
        let ghost src = resolve_param.source@;
        let ghost kindv = resolve_param.kind@;
        let ghost imp = opt_id_view(resolve_param.importer);
        match self.call_resolve(resolve_param) {
            Ok(resolve_result) => {
                let query_string = stringify_query(&resolve_result.query);
                let module_id = ModuleId::new(
                    resolve_result.resolved_path.as_str(),
                    query_string.as_str(),
                );
                proof {
                    self.resolves@ = self.resolves@.push(
                        ResolveEvent {
                            source: src,
                            kind: kindv,
                            importer: imp,
                            ok: true,
                            resolved: Some(module_id@),
                            external: resolve_result.external,
                        },
                    );
                }
                Ok(ResolveModuleIdResult { module_id, resolve_result })
            },
            Err(_) => {
                proof {
                    self.resolves@ = self.resolves@.push(
                        ResolveEvent {
                            source: src,
                            kind: kindv,
                            importer: imp,
                            ok: false,
                            resolved: None,
                            external: false,
                        },
                    );
                }
                Err(CompilationError::GenericError("Failed to resolve module id".to_owned()))
            },
        }
    }

    /// Registers a module in the graph: records the entry binding when the
    /// request was an entry, then inserts the node or overwrites the
    /// placeholder that claimed its identity.
    pub fn add_module(module: Module, kind: &ResolveKind, module_graph: &mut ModuleGraph)
        requires
            old(module_graph).wf(),
        ensures
            final(module_graph).wf(),
            final(module_graph)@.edges == old(module_graph)@.edges,
            crate::graph::modules_upserted(
                old(module_graph)@.modules,
                final(module_graph)@.modules,
                module@,
            ),
            match kind {
                ResolveKind::Entry(name) => crate::graph::entries_upserted(
                    old(module_graph)@.entries,
                    final(module_graph)@.entries,
                    module.id@,
                    name@,
                ),
                _ => final(module_graph)@.entries == old(module_graph)@.entries,
            },
            has_mid(final(module_graph)@.modules, module.id@),
            forall|x: ModuleIdView|
                has_mid(old(module_graph)@.modules, x) ==> has_mid(
                    final(module_graph)@.modules,
                    x,
                ),
            forall|x: ModuleIdView|
                has_mid(final(module_graph)@.modules, x) ==> has_mid(old(module_graph)@.modules, x)
                    || x == module.id@,
            forall|k: int|
                0 <= k < final(module_graph)@.modules.len() && (#[trigger] final(module_graph)@.modules[k]).id == module.id@ ==> final(module_graph)@.modules[k] == module@,
    {
        if let ResolveKind::Entry(name) = kind {
            module_graph.set_entry(&module.id, name);
        }
        let ghost mid = module@.id;
        if module_graph.has_module(&module.id) {
            module_graph.replace_module(module);
            proof {
                let i = choose|i: int|
                    0 <= i < old(module_graph)@.modules.len() && old(module_graph)@.modules[i].id
                        == mid && final(module_graph)@.modules == old(module_graph)@.modules.update(i, module@);
                assert forall|k: int|
                    0 <= k < final(module_graph)@.modules.len() && (#[trigger] final(module_graph)@.modules[k]).id == mid implies final(module_graph)@.modules[k] == module@ by {
                    if k != i {
                        assert(final(module_graph)@.modules[k] == old(module_graph)@.modules[k]);
                        assert(old(module_graph)@.modules[i].id == mid);
                    }
                }
                assert forall|x: ModuleIdView|
                    has_mid(final(module_graph)@.modules, x) implies has_mid(
                    old(module_graph)@.modules,
                    x,
                ) || x == mid by {
                    let w = choose|k: int|
                        0 <= k < final(module_graph)@.modules.len() && final(module_graph)@.modules[k].id == x;
                    if w != i {
                        assert(old(module_graph)@.modules[w].id == x);
                    }
                }
            }
        } else {
            module_graph.add_module(module);
            proof {
                assert(final(module_graph)@.modules[old(module_graph)@.modules.len() as int]
                    == module@);
                assert forall|x: ModuleIdView|
                    has_mid(old(module_graph)@.modules, x) implies has_mid(
                    final(module_graph)@.modules,
                    x,
                ) by {
                    let w = choose|k: int|
                        0 <= k < old(module_graph)@.modules.len() && old(module_graph)@.modules[k].id == x;
                    assert(final(module_graph)@.modules[w].id == x);
                }
                assert forall|x: ModuleIdView|
                    has_mid(final(module_graph)@.modules, x) implies has_mid(
                    old(module_graph)@.modules,
                    x,
                ) || x == mid by {
                    let w = choose|k: int|
                        0 <= k < final(module_graph)@.modules.len() && final(module_graph)@.modules[k].id == x;
                    if w < old(module_graph)@.modules.len() {
                        assert(old(module_graph)@.modules[w].id == x);
                    }
                }
                assert forall|k: int|
                    0 <= k < final(module_graph)@.modules.len() && (#[trigger] final(module_graph)@.modules[k]).id == mid implies final(module_graph)@.modules[k] == module@ by {
                    if k < old(module_graph)@.modules.len() {
                        assert(has_mid(old(module_graph)@.modules, mid));
                    }
                }
            }
        }
    }

    /// Records the importing edge item for a resolved dependency; an entry
    /// request has no importer and adds no edge.
    pub fn add_edge(
        resolve_param: &ResolveParam,
        module_id: &ModuleId,
        order: usize,
        module_graph: &mut ModuleGraph,
    )
        requires
            old(module_graph).wf(),
            match resolve_param.importer {
                Some(ref imp) => has_mid(old(module_graph)@.modules, imp@) && has_mid(
                    old(module_graph)@.modules,
                    module_id@,
                ),
                None => true,
            },
        ensures
            final(module_graph).wf(),
            final(module_graph)@.modules == old(module_graph)@.modules,
            final(module_graph)@.entries == old(module_graph)@.entries,
            match resolve_param.importer {
                Some(ref imp) => crate::graph::edge_item_added(
                    old(module_graph)@.edges,
                    final(module_graph)@.edges,
                    imp@,
                    module_id@,
                    EdgeItemView { source: resolve_param.source@, kind: resolve_param.kind@, order },
                ),
                None => final(module_graph)@.edges == old(module_graph)@.edges,
            },
    {
        if let Some(importer_id) = &resolve_param.importer {
            let item = EdgeItem {
                source: resolve_param.source.clone(),
                kind: resolve_param.kind.clone(),
                order,
            };
            proof {
                assert(item@ =~= EdgeItemView {
                    source: resolve_param.source@,
                    kind: resolve_param.kind@,
                    order,
                });
            }
            module_graph.add_edge_item(importer_id, module_id, item);
        }
    }

    /// Decides whether a cached dependency can be adopted. The cache-trust
    /// policy is provisional: a cached dependency is currently always
    /// invalidated and rebuilt.
    fn handle_cached_dependency(
        cached_dependency: &ModuleId,
        module_graph: &mut ModuleGraph,
        module_cache: &mut ModuleCache,
    ) -> (r: Result<Option<ResolveModuleResult>, CompilationError>)
        requires
            old(module_graph).wf(),
            old(module_cache).wf(),
        ensures
            final(module_graph).wf(),
            final(module_cache).wf(),
            final(module_graph)@ == old(module_graph)@,
            final(module_cache).enabled_spec() == old(module_cache).enabled_spec(),
            r matches Ok(opt) && opt is None,
            !(final(module_cache).enabled_spec() && cache_has(
                final(module_cache)@,
                cached_dependency@,
            )),
            if old(module_cache).enabled_spec() && cache_has(
                old(module_cache)@,
                cached_dependency@,
            ) {
                exists|i: int|
                    0 <= i < old(module_cache)@.len() && (#[trigger] old(module_cache)@[i]).module.id == cached_dependency@ && final(module_cache)@ == old(module_cache)@.remove(i)
            } else {
                final(module_cache)@ == old(module_cache)@
            },
    {
        if module_cache.has_cache(cached_dependency) {
            let should_invalidate_cached_module = true;
            if should_invalidate_cached_module {
                module_cache.invalidate_cache(cached_dependency);
            } else {
                Compiler::<P>::insert_dummy_module(cached_dependency, module_graph);
                return Ok(Some(ResolveModuleResult::Cached(cached_dependency.clone())));
            }
        }
        Ok(None)
    }

    /// Resolves one request against the graph: the deduplication point. A
    /// single pass checks membership and, for a fresh identity, claims it by
    /// inserting a placeholder before any pipeline work happens.
    fn resolve_module(
        &mut self,
        resolve_param: &ResolveParam,
        cached_dependency: Option<ModuleId>,
    ) -> (r: Result<ResolveModuleResult, CompilationError>)
        requires
            old(self).inv(),
        ensures
            final(self).inv(),
            final(self).built() == old(self).built(),
            final(self).events() == old(self).events(),
            final(self).reported() == old(self).reported(),
            final(self).cache_enabled() == old(self).cache_enabled(),
            final(self).context.config == old(self).context.config,
            final(self).graph().edges == old(self).graph().edges,
            final(self).graph().entries == old(self).graph().entries,
            forall|x: ModuleIdView|
                has_mid(old(self).graph().modules, x) ==> has_mid(final(self).graph().modules, x),
            // a recorded dependency identity that is already claimed is the
            // deduplication fast path: deterministically already-built, and
            // nothing is touched
            known_claimed(cached_dependency, old(self).graph().modules) ==> (match
                cached_dependency {
                Some(ref cid) => r matches Ok(ResolveModuleResult::Built(b)) && b@ == cid@,
                None => true,
            }) && final(self).graph() == old(self).graph() && final(self).cache() == old(self).cache() && final(self).resolve_log() == old(self).resolve_log(),
            // otherwise exactly one resolution request is recorded, and it
            // succeeded exactly when no resolution error comes back
            !known_claimed(cached_dependency, old(self).graph().modules) ==> final(self).resolve_log().len() == old(self).resolve_log().len() + 1 && final(self).resolve_log().drop_last() == old(self).resolve_log() && final(self).resolve_log().last().source == resolve_param.source@ && final(self).resolve_log().last().kind == resolve_param.kind@ && final(self).resolve_log().last().importer == opt_id_view(resolve_param.importer) && final(self).resolve_log().last().ok == !(r is Err),
            r matches Ok(ResolveModuleResult::Built(id)) ==> (!known_claimed(
                cached_dependency,
                old(self).graph().modules,
            ) ==> final(self).resolve_log().last().resolved == Some(id@)),
            !known_claimed(cached_dependency, old(self).graph().modules) ==> ok_event_claimed(
                final(self).resolve_log().last(),
                final(self).graph().modules,
            ),
            // a resolution that lands on an already-claimed identity is
            // already-built: no placeholder is inserted, the graph is
            // untouched
            !known_claimed(cached_dependency, old(self).graph().modules) ==> ({
                let ev = final(self).resolve_log().last();
                ev.ok ==> (match ev.resolved {
                    Some(rid) => has_mid(old(self).graph().modules, rid) ==> (r matches Ok(
                        ResolveModuleResult::Built(b),
                    ) && b@ == rid && final(self).graph() == old(self).graph()),
                    None => true,
                })
            }),
            r matches Ok(ResolveModuleResult::Success(info)) ==> final(self).resolve_log().last().resolved == Some(info.module.id@) && final(self).resolve_log().last().external == info.module@.external,
            // how the cache moved: untouched unless a recorded dependency
            // had to be invalidated
            match cached_dependency {
                Some(ref cid) => has_mid(old(self).graph().modules, cid@) || (cache_dropped(
                    old(self).cache(),
                    final(self).cache(),
                    cid@,
                    old(self).cache_enabled(),
                ) && !(final(self).cache_enabled() && cache_has(final(self).cache(), cid@))),
                None => final(self).cache() == old(self).cache(),
            },
            !(r matches Ok(ResolveModuleResult::Cached(c))),
            r matches Ok(ResolveModuleResult::Built(id)) ==> final(self).graph() == old(self).graph() && has_mid(final(self).graph().modules, id@),
            r matches Ok(ResolveModuleResult::Cached(id)) ==> final(self).cache_enabled()
                && cache_has(final(self).cache(), id@) && has_mid(final(self).graph().modules, id@),
            r matches Ok(ResolveModuleResult::Success(info)) ==> {
                &&& !has_mid(old(self).graph().modules, info.module.id@)
                &&& final(self).graph().modules == old(self).graph().modules.push(
                    Self::dummy_module_view(info.module.id@),
                )
                &&& info.module@.id == info.resolve_module_id_result.module_id@
                &&& info.module@.external
                    == info.resolve_module_id_result.resolve_result.external
                &&& !info.module@.immutable
                &&& info.module@ == (if info.resolve_module_id_result.resolve_result.external {
                    Self::external_module_view(info.module.id@)
                } else {
                    Self::dummy_module_view(info.module.id@)
                })
                &&& info.resolve_module_id_result.module_id@.relative_path
                    == info.resolve_module_id_result.resolve_result.resolved_path@
                &&& info.resolve_module_id_result.module_id@.query_string
                    == stringify_query_spec(
                    query_view(info.resolve_module_id_result.resolve_result.query@),
                )
            },
            r matches Err(e) ==> final(self).graph() == old(self).graph() && e is GenericError,
    {
        let mut resolve_module_id_result: Option<ResolveModuleIdResult> = None;
        let module_id: ModuleId;
        match &cached_dependency {
            Some(cached) => {
                module_id = cached.clone();
            },
            None => {
                match self.resolve_module_id(resolve_param) {
                    Ok(res) => {
                        module_id = res.module_id.clone();
                        resolve_module_id_result = Some(res);
                    },
                    Err(e) => {
                        return Err(e);
                    },
                }
            },
        }
        if self.context.module_graph.has_module(&module_id) {
            return Ok(ResolveModuleResult::Built(module_id));
        }
        if let Some(cached) = &cached_dependency {
            match Self::handle_cached_dependency(
                cached,
                &mut self.context.module_graph,
                &mut self.context.module_cache,
            ) {
                // under the provisional always-invalidate policy these two
                // arms are unreachable, which the asserts establish
                Ok(Some(result)) => {
                    proof {
                        assert(false);
                    }
                    return Ok(result);
                },
                Ok(None) => {},
                Err(e) => {
                    proof {
                        assert(false);
                    }
                    return Err(e);
                },
            }
        }
        let rmid = match resolve_module_id_result {
            Some(result) => result,
            None => match self.resolve_module_id(resolve_param) {
                Ok(result) => result,
                Err(e) => {
                    return Err(e);
                },
            },
        };
        if self.context.module_graph.has_module(&rmid.module_id) {
            return Ok(ResolveModuleResult::Built(rmid.module_id));
        }
        Self::insert_dummy_module(&rmid.module_id, &mut self.context.module_graph);
        let module = Self::create_module(
            rmid.module_id.clone(),
            rmid.resolve_result.external,
            false,
        );
        proof {
            if rmid.resolve_result.external {
                assert(module@ =~= Self::external_module_view(module.id@));
            } else {
                assert(module@ =~= Self::dummy_module_view(module.id@));
            }
        }
        proof {
            let og = old(self).graph().modules;
            let g = self.context.module_graph@.modules;
            assert(g == og.push(Self::dummy_module_view(rmid.module_id@)));
            assert(g[g.len() - 1].id == rmid.module_id@);
            assert(has_mid(g, rmid.module_id@));
            assert(self.resolves@.last().resolved == Some(rmid.module_id@));
            assert(ok_event_claimed(self.resolves@.last(), g));
            assert forall|x: ModuleIdView| has_mid(og, x) implies has_mid(g, x) by {
                let w = choose|k: int| 0 <= k < og.len() && og[k].id == x;
                assert(g[w].id == x);
            }
            assert forall|k: int, e: int|
                #![trigger g[k], self.events@[e]]
                0 <= k < g.len() && 0 <= e < self.events@.len() && g[k].external implies event_id(
                self.events@[e],
            ) != g[k].id by {
                if k < og.len() {
                    assert(g[k] == og[k]);
                } else {
                    assert(g[k] == Self::dummy_module_view(rmid.module_id@));
                }
            }
            assert(self.inv());
        }
        Ok(
            ResolveModuleResult::Success(
                ResolvedModuleInfo { module, resolve_module_id_result: rmid },
            ),
        )
    }
}

/// A successful resolution yields an identity that is a node of the graph.
pub open spec fn ok_event_claimed(ev: ResolveEvent, mods: Seq<crate::module::ModuleView>) -> bool {
    ev.ok ==> (match ev.resolved {
        Some(rid) => has_mid(mods, rid),
        None => false,
    })
}

/// Whether an error is one of the four pipeline-stage errors, carrying the
/// failing module's resolved path.
pub open spec fn stage_error_for(e: CompilationError, path: Seq<char>) -> bool {
    match e {
        CompilationError::GenericError(_) => false,
        CompilationError::LoadError { resolved_path, .. } => resolved_path@ == path,
        CompilationError::TransformError { resolved_path, .. } => resolved_path@ == path,
        CompilationError::ParseError { resolved_path, .. } => resolved_path@ == path,
        CompilationError::ProcessModuleError { resolved_path, .. } => resolved_path@ == path,
    }
}

/// What registering one successfully built module looks like: the node
/// appended with the pipeline's module record, the entry binding for an
/// entry request, the inbound edge item carrying the request's source, kind
/// and order, and one spawned task per declared dependency, ordinals equal
/// to declaration positions.
pub open spec fn success_registration(
    og: crate::graph::ModuleGraphView,
    ng: crate::graph::ModuleGraphView,
    old_tasks: Seq<BuildTask>,
    new_tasks: Seq<BuildTask>,
    kind: ResolveKindView,
    importer: Option<ModuleIdView>,
    source: Seq<char>,
    order: usize,
    rid: ModuleIdView,
    mv: crate::module::ModuleView,
    ds: Seq<(DependencyDescriptorView, Option<ModuleIdView>)>,
) -> bool {
    &&& mv.id == rid
    &&& !mv.external
    &&& ng.modules == og.modules.push(mv)
    &&& match kind {
        ResolveKindView::Entry(name) => crate::graph::entries_upserted(
            og.entries,
            ng.entries,
            rid,
            name,
        ),
        _ => ng.entries == og.entries,
    }
    &&& match importer {
        Some(imp) => crate::graph::edge_item_added(
            og.edges,
            ng.edges,
            imp,
            rid,
            EdgeItemView { source, kind, order },
        ),
        None => ng.edges == og.edges,
    }
    &&& new_tasks.len() == old_tasks.len() + ds.len()
    &&& forall|d: int|
        0 <= d < ds.len() ==> spawned_task(
            #[trigger] new_tasks[old_tasks.len() + d],
            ds[d],
            d,
            rid,
            mv.immutable,
        )
}

/// Whether a task's recorded dependency identity is already claimed in the
/// graph: the deduplication fast path.
pub open spec fn known_claimed(
    cached_dependency: Option<ModuleId>,
    mods: Seq<crate::module::ModuleView>,
) -> bool {
    match cached_dependency {
        Some(cid) => has_mid(mods, cid@),
        None => false,
    }
}

/// The module type handed to the parser: the transformer's override when it
/// gave one, else the loader's hint.
pub open spec fn parse_type_of(overriding: Option<ModuleType>, hint: ModuleType) -> ModuleType {
    match overriding {
        Some(t) => t,
        None => hint,
    }
}

/// The timestamp the run worked with: the fixed value zero for an immutable
/// module, else what the timestamp fetch returned.
pub open spec fn ts_of_run(immutable: bool, suffix: Seq<HookEvent>) -> u64 {
    if immutable {
        0
    } else if suffix.len() >= 1 && suffix[0] is FetchTimestamp {
        suffix[0]->FetchTimestamp_ts
    } else {
        0
    }
}

/// The pipeline-stage events of the run, the timestamp fetch stripped.
pub open spec fn stage_events_of_run(immutable: bool, suffix: Seq<HookEvent>) -> Seq<HookEvent> {
    if immutable {
        suffix
    } else {
        suffix.skip(1)
    }
}

/// Whether the timestamp strategy hits: the cache serves this identity and
/// recorded exactly this modification timestamp.
pub open spec fn ts_cache_hit(
    cache: Seq<CachedModuleView>,
    enabled: bool,
    id: ModuleIdView,
    ts: u64,
) -> bool {
    enabled && cache_has(cache, id) && cache_entry_for(cache, id).module.last_update_timestamp
        == ts
}

/// Whether the content-hash strategy hits: the cache serves this identity
/// and recorded exactly this content hash.
pub open spec fn hash_cache_hit(
    cache: Seq<CachedModuleView>,
    enabled: bool,
    id: ModuleIdView,
    h: ContentHash,
) -> bool {
    enabled && cache_has(cache, id) && cache_entry_for(cache, id).module.content_hash == h
}

/// What one run of the build pipeline guarantees, stated over the cache as
/// it stood, the module record before and after, the result, and the
/// collaborator calls the run made. The strictly ordered stages and both
/// cache short-circuits are pinned down: a timestamp hit runs no stage at
/// all, a content-hash hit stops before parsing, and each failure aborts
/// the run with the error of its stage.
pub open spec fn pipeline_post(
    cache: Seq<CachedModuleView>,
    enabled: bool,
    resolved_path: Seq<char>,
    side_effects: bool,
    old_m: crate::module::ModuleView,
    new_m: crate::module::ModuleView,
    r: Result<Vec<(DependencyDescriptor, Option<ModuleId>)>, CompilationError>,
    suffix: Seq<HookEvent>,
) -> bool {
    let id = old_m.id;
    let immutable = old_m.immutable;
    let ts = ts_of_run(immutable, suffix);
    let stages = stage_events_of_run(immutable, suffix);
    &&& (forall|k: int| 0 <= k < suffix.len() ==> event_id(#[trigger] suffix[k]) == id)
    &&& new_m.id == id
    &&& (!immutable ==> suffix.len() >= 1 && suffix[0] is FetchTimestamp)
    &&& if ts_cache_hit(cache, enabled, id, ts) {
        &&& stages.len() == 0
        &&& r is Ok
        &&& new_m == cache_entry_for(cache, id).module
        &&& cached_deps_view(r->Ok_0@) == cache_entry_for(cache, id).dependencies
    } else {
        &&& stages.len() >= 1
        &&& stages[0] is Load
        &&& if !stages[0]->Load_ok {
            &&& stages.len() == 1
            &&& r is Err
            &&& r->Err_0 matches CompilationError::LoadError { resolved_path: p, .. } && p@
                == resolved_path
        } else {
            &&& stages.len() >= 2
            &&& stages[1] is Transform
            &&& stages[1]->Transform_input == stages[0]->Load_content
            &&& if !stages[1]->Transform_ok {
                &&& stages.len() == 2
                &&& r is Err
                &&& r->Err_0 matches CompilationError::TransformError { resolved_path: p, .. }
                    && p@ == resolved_path
            } else {
                let c = stages[1]->Transform_content;
                let h = if immutable {
                    ContentHash::Immutable
                } else {
                    ContentHash::Digest(fnv1a(c))
                };
                if hash_cache_hit(cache, enabled, id, h) {
                    &&& stages.len() == 2
                    &&& r is Ok
                    &&& new_m == cache_entry_for(cache, id).module
                    &&& cached_deps_view(r->Ok_0@) == cache_entry_for(cache, id).dependencies
                } else {
                    &&& stages.len() >= 3
                    &&& stages[2] is Parse
                    &&& stages[2]->Parse_content == c
                    &&& if !stages[2]->Parse_ok {
                        &&& stages.len() == 3
                        &&& r is Err
                        &&& r->Err_0 matches CompilationError::ParseError {
                            resolved_path: p,
                            ..
                        } && p@ == resolved_path
                    } else {
                        &&& stages.len() == 4
                        &&& stages[3] is Process
                        &&& if !stages[3]->Process_ok {
                            &&& r is Err
                            &&& r->Err_0 matches CompilationError::ProcessModuleError {
                                resolved_path: p,
                                ..
                            } && p@ == resolved_path
                        } else {
                            &&& r is Ok
                            &&& new_m.content == c
                            &&& new_m.content_hash == h
                            &&& new_m.last_update_timestamp == ts
                            &&& new_m.module_type == stages[2]->Parse_module_type
                            &&& !new_m.external
                            &&& new_m.immutable == immutable
                            &&& new_m.size == c.len()
                            &&& new_m.side_effects == side_effects
                            &&& cached_deps_view(r->Ok_0@) == new_m.meta.deps.map_values(
                                |d: DependencyDescriptorView| (d, None::<ModuleIdView>),
                            )
                        }
                    }
                }
            }
        }
    }
}

impl<P: PluginDriver> Compiler<P> {
    /// The tail of the pipeline once content is transformed: parse the
    /// content into metadata, let the processing hook rewrite it, then
    /// populate the module record and declare its imports.
    pub fn build_module_after_transform(
        &mut self,
        resolve_result: ResolveResult,
        load_module_type: ModuleType,
        transform_result: TransformResult,
        module: &mut Module,
    ) -> (r: Result<Vec<DependencyDescriptor>, CompilationError>)
        requires
            old(self).inv(),
            has_mid(old(self).graph().modules, old(module).id@),
            forall|k: int|
                0 <= k < old(self).graph().modules.len() && (#[trigger] old(self).graph().modules[k]).id == old(module).id@ ==> !old(self).graph().modules[k].external,
        ensures
            final(self).inv(),
            final(self).graph() == old(self).graph(),
            final(self).cache() == old(self).cache(),
            final(self).built() == old(self).built(),
            final(self).cache_enabled() == old(self).cache_enabled(),
            final(self).input() == old(self).input(),
            final(self).resolve_log() == old(self).resolve_log(),
            final(self).reported() == old(self).reported(),
            final(module).id@ == old(module).id@,
            final(module).content@ == old(module).content@,
            final(module)@.content_hash == old(module)@.content_hash,
            final(module).last_update_timestamp == old(module).last_update_timestamp,
            final(module).immutable == old(module).immutable,
            r is Err ==> final(module)@ == old(module)@,
            r matches Err(e) ==> (e matches CompilationError::ParseError { resolved_path: p, .. }
                && p@ == resolve_result.resolved_path@) || (e
                matches CompilationError::ProcessModuleError { resolved_path: p, .. } && p@
                == resolve_result.resolved_path@),
            (r is Err && r->Err_0 is ParseError) ==> final(self).events() == old(self).events().push(
                HookEvent::Parse {
                    id: old(module).id@,
                    ok: false,
                    content: transform_result.content@,
                    module_type: parse_type_of(transform_result.module_type, load_module_type),
                },
            ),
            (r is Err && r->Err_0 is ProcessModuleError) ==> final(self).events() == old(self).events().push(
                HookEvent::Parse {
                    id: old(module).id@,
                    ok: true,
                    content: transform_result.content@,
                    module_type: parse_type_of(transform_result.module_type, load_module_type),
                },
            ).push(HookEvent::Process { id: old(module).id@, ok: false }),
            r is Ok ==> final(self).events() == old(self).events().push(
                HookEvent::Parse {
                    id: old(module).id@,
                    ok: true,
                    content: transform_result.content@,
                    module_type: parse_type_of(transform_result.module_type, load_module_type),
                },
            ).push(HookEvent::Process { id: old(module).id@, ok: true }),
            r matches Ok(deps) ==> {
                &&& !final(module).external
                &&& final(module).size == transform_result.content@.len()
                &&& final(module).side_effects == resolve_result.side_effects
                &&& final(module)@.module_type == parse_type_of(
                    transform_result.module_type,
                    load_module_type,
                )
                &&& final(module)@.source_map_chain == transform_result.source_map_chain@.map_values(
                    |x: String| x@,
                )
                &&& deps@.map_values(|d: DependencyDescriptor| d@) == final(module)@.meta.deps
            },
    {
        let parse_module_type = match transform_result.module_type {
            Some(t) => t,
            None => load_module_type,
        };
        let parse_param = ParseParam {
            module_id: module.id.clone(),
            resolved_path: resolve_result.resolved_path.clone(),
            query: clone_query(&resolve_result.query),
            module_type: parse_module_type,
            content: transform_result.content,
        };
        let mut module_meta: ModuleMetaData = match self.call_parse(&parse_param) {
            Ok(meta) => meta,
            Err(message) => {
                return Err(
                    CompilationError::ParseError {
                        resolved_path: resolve_result.resolved_path,
                        message,
                    },
                );
            },
        };
        let size = parse_param.content.len();
        let process_param = ProcessParam {
            module_id: parse_param.module_id,
            module_type: parse_param.module_type,
            content: parse_param.content,
        };
        if let Err(message) = self.call_process(&process_param, &mut module_meta) {
            return Err(
                CompilationError::ProcessModuleError {
                    resolved_path: resolve_result.resolved_path,
                    message,
                },
            );
        }
        let declared = module_meta.clone();
        module.size = size;
        module.module_type = process_param.module_type;
        module.side_effects = resolve_result.side_effects;
        module.external = false;
        module.source_map_chain = transform_result.source_map_chain;
        module.meta = module_meta;
        proof {
            assert(declared.deps@.map_values(|d: DependencyDescriptor| d@) =~= module@.meta.deps);
        }
        Ok(declared.deps)
    }

    /// One full run of the build pipeline for a freshly claimed module:
    /// timestamp short-circuit, load, transform, content-hash short-circuit,
    /// then parse and process. On success the module record is populated and
    /// its dependencies are declared; precisely which stages ran, which
    /// short-circuit was taken and which stage failed is pinned down by
    /// [`pipeline_post`].
    #[verifier::rlimit(60)]
    pub fn build_module(&mut self, resolve_result: ResolveResult, module: &mut Module) -> (r: Result<
        Vec<(DependencyDescriptor, Option<ModuleId>)>,
        CompilationError,
    >)
        requires
            old(self).inv(),
            has_mid(old(self).graph().modules, old(module).id@),
            forall|k: int|
                0 <= k < old(self).graph().modules.len() && (#[trigger] old(self).graph().modules[k]).id == old(module).id@ ==> !old(self).graph().modules[k].external,
        ensures
            final(self).inv(),
            final(self).graph() == old(self).graph(),
            final(self).cache() == old(self).cache(),
            final(self).built() == old(self).built(),
            final(self).cache_enabled() == old(self).cache_enabled(),
            final(self).input() == old(self).input(),
            final(self).resolve_log() == old(self).resolve_log(),
            final(self).reported() == old(self).reported(),
            final(module).id@ == old(module).id@,
            old(self).events().len() <= final(self).events().len(),
            forall|k: int|
                0 <= k < old(self).events().len() ==> final(self).events()[k] == old(self).events()[k],
            r is Ok ==> !final(module).external,
            pipeline_post(
                old(self).cache(),
                old(self).cache_enabled(),
                resolve_result.resolved_path@,
                resolve_result.side_effects,
                old(module)@,
                final(module)@,
                r,
                final(self).events().skip(old(self).events().len() as int),
            ),
    {
        let ghost n0 = self.events@.len() as int;
        module.last_update_timestamp = if module.immutable {
            0
        } else {
            self.call_timestamp(&module.id)
        };
        let ghost suffix_ts = self.events@.skip(n0);
        proof {
            if old(module).immutable {
                assert(suffix_ts =~= Seq::<HookEvent>::empty());
            } else {
                assert(suffix_ts =~= seq![
                    HookEvent::FetchTimestamp {
                        id: old(module).id@,
                        ts: module.last_update_timestamp,
                    },
                ]);
            }
        }
        if let Some(cached_module) = self.context.module_cache.lookup_by_timestamp(
            &module.id,
            module.last_update_timestamp,
        ) {
            let deps = crate::cache::clone_cached_deps(&cached_module.dependencies);
            *module = cached_module.module.clone();
            proof {
                let suffix = self.events@.skip(n0);
                assert(stage_events_of_run(old(module).immutable, suffix) =~= Seq::<
                    HookEvent,
                >::empty());
            }
            return Ok(CachedModule::dep_sources(deps));
        }
        let load_param = LoadParam {
            resolved_path: resolve_result.resolved_path.clone(),
            query: clone_query(&resolve_result.query),
            meta: resolve_result.meta.clone(),
            module_id: module.id.clone(),
        };
        let load_result = match self.call_load(&load_param) {
            Ok(res) => res,
            Err(message) => {
                proof {
                    let suffix = self.events@.skip(n0);
                    assert(stage_events_of_run(old(module).immutable, suffix) =~= seq![
                        HookEvent::Load {
                            id: old(module).id@,
                            ok: false,
                            path: resolve_result.resolved_path@,
                            content: Seq::empty(),
                        },
                    ]);
                }
                return Err(
                    CompilationError::LoadError {
                        resolved_path: resolve_result.resolved_path,
                        message,
                    },
                );
            },
        };
        let ghost loaded = load_result.content@;
        let mut source_map_chain: Vec<String> = Vec::new();
        if let Some(source_map) = load_result.source_map {
            source_map_chain.push(source_map);
        }
        let load_module_type = load_result.module_type;
        let transform_param = TransformParam {
            content: load_result.content,
            resolved_path: resolve_result.resolved_path.clone(),
            module_type: load_module_type,
            query: clone_query(&resolve_result.query),
            meta: resolve_result.meta.clone(),
            module_id: module.id.clone(),
            source_map_chain,
        };
        let transform_result = match self.call_transform(transform_param) {
            Ok(res) => res,
            Err(message) => {
                proof {
                    let suffix = self.events@.skip(n0);
                    assert(stage_events_of_run(old(module).immutable, suffix) =~= seq![
                        HookEvent::Load {
                            id: old(module).id@,
                            ok: true,
                            path: resolve_result.resolved_path@,
                            content: loaded,
                        },
                        HookEvent::Transform {
                            id: old(module).id@,
                            ok: false,
                            content: Seq::empty(),
                            input: loaded,
                        },
                    ]);
                }
                return Err(
                    CompilationError::TransformError {
                        resolved_path: resolve_result.resolved_path,
                        message,
                    },
                );
            },
        };
        module.content = crate::module::clone_bytes(&transform_result.content);
        module.content_hash = if module.immutable {
            ContentHash::Immutable
        } else {
            content_hash_of(&transform_result.content)
        };
        let ghost stages_so_far = seq![
            HookEvent::Load {
                id: old(module).id@,
                ok: true,
                path: resolve_result.resolved_path@,
                content: loaded,
            },
            HookEvent::Transform {
                id: old(module).id@,
                ok: true,
                content: transform_result.content@,
                input: loaded,
            },
        ];
        proof {
            assert(stage_events_of_run(old(module).immutable, self.events@.skip(n0))
                =~= stages_so_far);
        }
        if let Some(cached_module) = self.context.module_cache.lookup_by_content_hash(
            &module.id,
            module.content_hash,
        ) {
            let deps = crate::cache::clone_cached_deps(&cached_module.dependencies);
            *module = cached_module.module.clone();
            return Ok(CachedModule::dep_sources(deps));
        }
        let deps = match self.build_module_after_transform(
            resolve_result,
            load_module_type,
            transform_result,
            module,
        ) {
            Ok(res) => res,
            Err(e) => {
                proof {
                    let suffix = self.events@.skip(n0);
                    let stages = stage_events_of_run(old(module).immutable, suffix);
                    if e is ParseError {
                        assert(stages =~= stages_so_far.push(
                            HookEvent::Parse {
                                id: old(module).id@,
                                ok: false,
                                content: transform_result.content@,
                                module_type: parse_type_of(
                                    transform_result.module_type,
                                    load_module_type,
                                ),
                            },
                        ));
                    } else {
                        assert(stages =~= stages_so_far.push(
                            HookEvent::Parse {
                                id: old(module).id@,
                                ok: true,
                                content: transform_result.content@,
                                module_type: parse_type_of(
                                    transform_result.module_type,
                                    load_module_type,
                                ),
                            },
                        ).push(HookEvent::Process { id: old(module).id@, ok: false }));
                    }
                }
                return Err(e);
            },
        };
        let mut out: Vec<(DependencyDescriptor, Option<ModuleId>)> = Vec::new();
        let mut i: usize = 0;
        while i < deps.len()
            invariant
                i <= deps.len(),
                out@.len() == i,
                forall|j: int|
                    0 <= j < i ==> cached_deps_view(out@)[j] == (deps@[j]@, None::<ModuleIdView>),
            decreases deps.len() - i,
        {
            let ghost prev = out@;
            out.push((deps[i].clone(), None));
            proof {
                assert forall|j: int| 0 <= j <= i as int implies cached_deps_view(out@)[j] == (
                    deps@[j]@,
                    None::<ModuleIdView>,
                ) by {
                    if j < i as int {
                        assert(out@[j] == prev[j]);
                        assert(cached_deps_view(prev)[j] == (deps@[j]@, None::<ModuleIdView>));
                    } else {
                        assert(out@[j].0@ == deps@[j]@);
                    }
                }
            }
            i = i + 1;
        }
        proof {
            let suffix = self.events@.skip(n0);
            let stages = stage_events_of_run(old(module).immutable, suffix);
            assert(stages =~= stages_so_far.push(
                HookEvent::Parse {
                    id: old(module).id@,
                    ok: true,
                    content: transform_result.content@,
                    module_type: parse_type_of(transform_result.module_type, load_module_type),
                },
            ).push(HookEvent::Process { id: old(module).id@, ok: true }));
            assert(cached_deps_view(out@) =~= module@.meta.deps.map_values(
                |d: DependencyDescriptorView| (d, None::<ModuleIdView>),
            ));
        }
        Ok(out)
    }
}

/// Spec-level value of an optional identity.
pub open spec fn opt_id_view(o: Option<ModuleId>) -> Option<ModuleIdView> {
    match o {
        Some(id) => Some(id@),
        None => None,
    }
}

/// One pending resolution task of the worklist: the request, the dependency
/// identity a cache entry recorded (trusted only for immutable importers),
/// and the ordinal position of the import among its siblings.
pub struct BuildTask {
    pub resolve_param: ResolveParam,
    pub cached_dependency: Option<ModuleId>,
    pub order: usize,
}

/// Whether a pending task is the resolution request a configured entry
/// owes: the entry's source, requested as an entry of the entry's name,
/// with no importer and no recorded dependency identity.
pub open spec fn entry_task_matches(t: BuildTask, name: Seq<char>, source: Seq<char>) -> bool {
    &&& t.resolve_param.source@ == source
    &&& t.resolve_param.kind@ == ResolveKindView::Entry(name)
    &&& t.resolve_param.importer is None
    &&& t.cached_dependency is None
}

/// A task may name an importer only if that importer is already a node.
pub open spec fn task_valid(t: BuildTask, mods: Seq<crate::module::ModuleView>) -> bool {
    match t.resolve_param.importer {
        Some(imp) => has_mid(mods, imp@),
        None => true,
    }
}

/// What one spawned dependency task looks like: the declared import, the
/// spawning module as importer, and the ordinal equal to the import's
/// position in the declaration list — never to any completion order.
pub open spec fn spawned_task(
    t: BuildTask,
    dep: (DependencyDescriptorView, Option<ModuleIdView>),
    position: int,
    importer: ModuleIdView,
    immutable: bool,
) -> bool {
    &&& t.order == position
    &&& t.resolve_param.source@ == dep.0.source
    &&& t.resolve_param.kind@ == dep.0.kind
    &&& t.resolve_param.importer matches Some(imp) && imp@ == importer
    &&& opt_id_view(t.cached_dependency) == (if immutable {
        dep.1
    } else {
        None::<ModuleIdView>
    })
}

/// Copies a pending task, keeping the request, the recorded dependency
/// identity and the ordinal.
fn clone_task(t: &BuildTask) -> (res: BuildTask)
    ensures
        res.order == t.order,
        res.resolve_param.source@ == t.resolve_param.source@,
        res.resolve_param.kind@ == t.resolve_param.kind@,
        opt_id_view(res.resolve_param.importer) == opt_id_view(t.resolve_param.importer),
        opt_id_view(res.cached_dependency) == opt_id_view(t.cached_dependency),
{
    BuildTask {
        resolve_param: ResolveParam {
            source: t.resolve_param.source.clone(),
            kind: t.resolve_param.kind.clone(),
            importer: match &t.resolve_param.importer {
                Some(id) => Some(id.clone()),
                None => None,
            },
        },
        cached_dependency: match &t.cached_dependency {
            Some(id) => Some(id.clone()),
            None => None,
        },
        order: t.order,
    }
}

impl<P: PluginDriver> Compiler<P> {
    /// Dependency fanout: registers the built (or cache-adopted) module and
    /// its inbound edge, then spawns one task per declared dependency, each
    /// carrying its declaration position as edge order. Recorded dependency
    /// identities are propagated only for immutable modules; a mutable
    /// module's dependency set may have changed, so its children are fully
    /// re-resolved.
    pub fn handle_dependencies(
        &mut self,
        module: Module,
        resolve_param: &ResolveParam,
        order: usize,
        deps: Vec<(DependencyDescriptor, Option<ModuleId>)>,
        tasks: &mut Vec<BuildTask>,
    )
        requires
            old(self).inv(),
            !module.external,
            match resolve_param.importer {
                Some(ref imp) => has_mid(old(self).graph().modules, imp@),
                None => true,
            },
        ensures
            final(self).inv(),
            final(self).cache() == old(self).cache(),
            final(self).built() == old(self).built(),
            final(self).events() == old(self).events(),
            final(self).resolve_log() == old(self).resolve_log(),
            final(self).reported() == old(self).reported(),
            final(self).cache_enabled() == old(self).cache_enabled(),
            final(self).input() == old(self).input(),
            crate::graph::modules_upserted(
                old(self).graph().modules,
                final(self).graph().modules,
                module@,
            ),
            has_mid(final(self).graph().modules, module.id@),
            forall|x: ModuleIdView|
                has_mid(old(self).graph().modules, x) ==> has_mid(final(self).graph().modules, x),
            match resolve_param.kind {
                ResolveKind::Entry(ref name) => crate::graph::entries_upserted(
                    old(self).graph().entries,
                    final(self).graph().entries,
                    module.id@,
                    name@,
                ),
                _ => final(self).graph().entries == old(self).graph().entries,
            },
            match resolve_param.importer {
                Some(ref imp) => crate::graph::edge_item_added(
                    old(self).graph().edges,
                    final(self).graph().edges,
                    imp@,
                    module.id@,
                    EdgeItemView { source: resolve_param.source@, kind: resolve_param.kind@, order },
                ),
                None => final(self).graph().edges == old(self).graph().edges,
            },
            final(tasks)@.len() == old(tasks)@.len() + deps@.len(),
            forall|k: int| 0 <= k < old(tasks)@.len() ==> final(tasks)@[k] == old(tasks)@[k],
            forall|k: int|
                0 <= k < deps@.len() ==> spawned_task(
                    #[trigger] final(tasks)@[old(tasks)@.len() + k],
                    cached_deps_view(deps@)[k],
                    k,
                    module.id@,
                    module.immutable,
                ),
    {
        let module_id = module.id.clone();
        let immutable = module.immutable;
        let ghost mv = module@;
        Self::add_module(module, &resolve_param.kind, &mut self.context.module_graph);
        proof {
            let og = old(self).graph().modules;
            let g = self.context.module_graph@.modules;
            assert forall|k: int, e: int|
                #![trigger g[k], self.events@[e]]
                0 <= k < g.len() && 0 <= e < self.events@.len() && g[k].external implies event_id(
                self.events@[e],
            ) != g[k].id by {
                if g[k].id == mv.id {
                    assert(g[k] == mv);
                } else {
                    if has_mid(og, mv.id) {
                        let i = choose|i: int|
                            0 <= i < og.len() && og[i].id == mv.id && g == og.update(i, mv);
                        assert(g[k] == og[k]);
                    } else {
                        assert(g == og.push(mv));
                        assert(g[k] == og[k]);
                    }
                }
            }
            assert(self.inv());
        }
        Self::add_edge(
            resolve_param,
            &module_id,
            order,
            &mut self.context.module_graph,
        );
        let mut dep_order: usize = 0;
        let remaining = deps;
        let ghost depsv = cached_deps_view(remaining@);
        let ghost base = tasks@.len() as int;
        #[verifier::loop_isolation(false)]
        while dep_order < remaining.len()
            invariant
                dep_order <= remaining@.len(),
                tasks@.len() == base + dep_order,
                forall|k: int| 0 <= k < base ==> tasks@[k] == old(tasks)@[k],
                forall|k: int|
                    0 <= k < dep_order ==> spawned_task(
                        #[trigger] tasks@[base + k],
                        depsv[k],
                        k,
                        mv.id,
                        immutable,
                    ),
            decreases remaining@.len() - dep_order,
        {
            let dep = remaining[dep_order].0.clone();
            let recorded = match &remaining[dep_order].1 {
                Some(id) => Some(id.clone()),
                None => None,
            };
            let task = BuildTask {
                resolve_param: ResolveParam {
                    source: dep.source,
                    importer: Some(module_id.clone()),
                    kind: dep.kind,
                },
                cached_dependency: if immutable {
                    recorded
                } else {
                    None
                },
                order: dep_order,
            };
            proof {
                assert(spawned_task(task, depsv[dep_order as int], dep_order as int, mv.id, immutable));
            }
            tasks.push(task);
            dep_order = dep_order + 1;
        }
    }

    /// One resolution task, from claiming to fanout: the deduplication
    /// point. An identity already present only gains its inbound edge; an
    /// external resolution adds the node and edge and never enters the
    /// pipeline; a fresh claim runs the pipeline and fans out, and a failure
    /// is sent to the error channel and ends this branch alone.
    pub fn build_module_graph(
        &mut self,
        task: BuildTask,
        err_sender: &mut ErrorChannel,
        tasks: &mut Vec<BuildTask>,
    )
        requires
            old(self).inv(),
            task_valid(task, old(self).graph().modules),
        ensures
            final(self).inv(),
            final(self).cache_enabled() == old(self).cache_enabled(),
            final(self).input() == old(self).input(),
            forall|x: ModuleIdView|
                has_mid(old(self).graph().modules, x) ==> has_mid(final(self).graph().modules, x),
            final(tasks)@.len() >= old(tasks)@.len(),
            forall|k: int| 0 <= k < old(tasks)@.len() ==> final(tasks)@[k] == old(tasks)@[k],
            forall|k: int|
                old(tasks)@.len() <= k < final(tasks)@.len() ==> task_valid(
                    #[trigger] final(tasks)@[k],
                    final(self).graph().modules,
                ),
            // resolution requests only accumulate
            old(self).resolve_log().len() <= final(self).resolve_log().len(),
            forall|k: int|
                0 <= k < old(self).resolve_log().len() ==> final(self).resolve_log()[k] == old(self).resolve_log()[k],
            // a task without a recorded dependency identity records exactly
            // one resolution request: its own
            task.cached_dependency is None ==> final(self).resolve_log().len() == old(self).resolve_log().len() + 1 && final(self).resolve_log().last().source
                == task.resolve_param.source@ && final(self).resolve_log().last().kind
                == task.resolve_param.kind@ && final(self).resolve_log().last().importer
                == opt_id_view(task.resolve_param.importer),
            // the deduplication point: an already-claimed recorded
            // dependency gains its inbound edge item and nothing else; no
            // pipeline, no spawn, no error
            known_claimed(task.cached_dependency, old(self).graph().modules) ==> ({
                &&& final(self).graph().modules == old(self).graph().modules
                &&& final(self).graph().entries == old(self).graph().entries
                &&& final(self).cache() == old(self).cache()
                &&& final(self).events() == old(self).events()
                &&& final(self).built() == old(self).built()
                &&& final(self).resolve_log() == old(self).resolve_log()
                &&& final(tasks)@ == old(tasks)@
                &&& *final(err_sender) == *old(err_sender)
                &&& final(self).reported() == old(self).reported()
                &&& match task.resolve_param.importer {
                    Some(ref imp) => match task.cached_dependency {
                        Some(ref cid) => crate::graph::edge_item_added(
                            old(self).graph().edges,
                            final(self).graph().edges,
                            imp@,
                            cid@,
                            EdgeItemView {
                                source: task.resolve_param.source@,
                                kind: task.resolve_param.kind@,
                                order: task.order,
                            },
                        ),
                        None => true,
                    },
                    None => final(self).graph().edges == old(self).graph().edges,
                }
            }),
            // any recorded inbound edge item carries the task's own source,
            // kind and declaration order
            match task.resolve_param.importer {
                Some(ref imp) => final(self).graph().edges == old(self).graph().edges || exists|
                    did: ModuleIdView,
                |
                    #![auto]
                    crate::graph::edge_item_added(
                        old(self).graph().edges,
                        final(self).graph().edges,
                        imp@,
                        did,
                        EdgeItemView {
                            source: task.resolve_param.source@,
                            kind: task.resolve_param.kind@,
                            order: task.order,
                        },
                    ),
                None => final(self).graph().edges == old(self).graph().edges,
            },
            // failures are forwarded best-effort to the channel and end this
            // branch alone: at most one error is sent, and a branch that
            // reported one recorded no edge, no entry and spawned nothing
            (*final(err_sender) == *old(err_sender) && final(self).reported() == old(self).reported()) || (exists|e: CompilationError|
                #![auto]
                channel_sent(*old(err_sender), *final(err_sender), e) && final(self).reported()
                    == reported_after(old(self).reported(), *old(err_sender), e) && final(self).graph().edges == old(self).graph().edges && final(self).graph().entries == old(self).graph().entries && final(tasks)@ == old(tasks)@),
            // an external resolution adds the node, flagged external, with
            // its single inbound edge item; it never enters the pipeline and
            // spawns nothing
            final(self).resolve_log().len() > old(self).resolve_log().len() ==> ({
                let ev = final(self).resolve_log()[old(self).resolve_log().len() as int];
                ev.resolved matches Some(rid) ==> ((ev.ok && ev.external && !has_mid(
                    old(self).graph().modules,
                    rid,
                )) ==> ({
                    &&& final(self).graph().modules == old(self).graph().modules.push(
                        Self::external_module_view(rid),
                    )
                    &&& final(self).events() == old(self).events()
                    &&& final(self).built() == old(self).built()
                    &&& final(tasks)@ == old(tasks)@
                    &&& match task.resolve_param.importer {
                        Some(ref imp) => crate::graph::edge_item_added(
                            old(self).graph().edges,
                            final(self).graph().edges,
                            imp@,
                            rid,
                            EdgeItemView {
                                source: task.resolve_param.source@,
                                kind: task.resolve_param.kind@,
                                order: task.order,
                            },
                        ),
                        None => final(self).graph().edges == old(self).graph().edges,
                    }
                }))
            }),
            // the deduplication point after a resolve call: a resolution
            // that lands on an already-claimed identity gains exactly its
            // inbound edge item; no pipeline stage runs, nothing is built,
            // nothing is spawned, no error is sent
            final(self).resolve_log().len() > old(self).resolve_log().len() ==> ({
                let ev = final(self).resolve_log()[old(self).resolve_log().len() as int];
                ev.resolved matches Some(rid) ==> ((ev.ok && has_mid(
                    old(self).graph().modules,
                    rid,
                )) ==> ({
                    &&& final(self).graph().modules == old(self).graph().modules
                    &&& final(self).graph().entries == old(self).graph().entries
                    &&& final(self).events() == old(self).events()
                    &&& final(self).built() == old(self).built()
                    &&& final(tasks)@ == old(tasks)@
                    &&& *final(err_sender) == *old(err_sender)
                    &&& final(self).reported() == old(self).reported()
                    &&& match task.resolve_param.importer {
                        Some(ref imp) => crate::graph::edge_item_added(
                            old(self).graph().edges,
                            final(self).graph().edges,
                            imp@,
                            rid,
                            EdgeItemView {
                                source: task.resolve_param.source@,
                                kind: task.resolve_param.kind@,
                                order: task.order,
                            },
                        ),
                        None => final(self).graph().edges == old(self).graph().edges,
                    }
                }))
            }),
            // a failed resolution sends exactly the generic resolution error
            // and changes nothing else
            final(self).resolve_log().len() > old(self).resolve_log().len() ==> ({
                let ev = final(self).resolve_log()[old(self).resolve_log().len() as int];
                !ev.ok ==> exists|e: CompilationError|
                    #![auto]
                    channel_sent(*old(err_sender), *final(err_sender), e) && final(self).reported()
                        == reported_after(old(self).reported(), *old(err_sender), e) && e
                        is GenericError
            }),
            // a fresh, non-external resolution either registers the built
            // module and fans out to its declared dependencies, or its
            // pipeline failed and exactly one typed stage error, carrying
            // the module's resolved path, was sent
            final(self).resolve_log().len() > old(self).resolve_log().len() ==> ({
                let ev = final(self).resolve_log()[old(self).resolve_log().len() as int];
                ev.resolved matches Some(rid) ==> ((ev.ok && !ev.external && !has_mid(
                    old(self).graph().modules,
                    rid,
                )) ==> ({
                    &&& final(self).built() == old(self).built().push(rid)
                    &&& ((exists|
                        mv: crate::module::ModuleView,
                        ds: Seq<(DependencyDescriptorView, Option<ModuleIdView>)>,
                    |
                        #![auto]
                        success_registration(
                            old(self).graph(),
                            final(self).graph(),
                            old(tasks)@,
                            final(tasks)@,
                            task.resolve_param.kind@,
                            opt_id_view(task.resolve_param.importer),
                            task.resolve_param.source@,
                            task.order,
                            rid,
                            mv,
                            ds,
                        )) || (exists|e: CompilationError|
                        #![auto]
                        channel_sent(*old(err_sender), *final(err_sender), e) && final(self).reported() == reported_after(old(self).reported(), *old(err_sender), e)
                            && stage_error_for(e, rid.relative_path) && final(tasks)@ == old(tasks)@ && final(self).graph().edges == old(self).graph().edges && final(self).graph().entries == old(self).graph().entries))
                }))
            }),
            final(self).resolve_log().len() <= old(self).resolve_log().len() + 1,
            // a successful resolution's identity is a node of the graph
            final(self).resolve_log().len() > old(self).resolve_log().len() ==> ok_event_claimed(
                final(self).resolve_log()[old(self).resolve_log().len() as int],
                final(self).graph().modules,
            ),
            crate::graph::edges_monotone(old(self).graph().edges, final(self).graph().edges),
            crate::graph::entries_monotone(old(self).graph().entries, final(self).graph().entries),
    {
        let resolve_module_result = match self.resolve_module(
            &task.resolve_param,
            task.cached_dependency,
        ) {
            Ok(result) => result,
            Err(e) => {
                let ghost pre_ch = *err_sender;
                let ghost ge = e;
                err_sender.send(e);
                proof {
                    self.reported@ = reported_after(self.reported@, pre_ch, ge);
                    crate::graph::lemma_edges_monotone_refl(self.graph().edges);
                    crate::graph::lemma_entries_monotone_refl(self.graph().entries);
                    assert(ge is GenericError);
                    assert(channel_sent(pre_ch, *err_sender, ge));
                }
                return ;
            },
        };
        match resolve_module_result {
            ResolveModuleResult::Success(resolved_module_info) => {
                let ResolvedModuleInfo { module, resolve_module_id_result } = resolved_module_info;
                if resolve_module_id_result.resolve_result.external {
                    let ghost mv = module@;
                    let module_id = module.id.clone();
                    proof {
                        assert forall|e: int|
                            0 <= e < self.events@.len() implies event_id(#[trigger] self.events@[e])
                            != mv.id by {
                            assert(has_mid(old(self).graph().modules, event_id(self.events@[e])));
                        }
                    }
                    let ghost m1 = self.graph().modules;
                    Self::add_module(
                        module,
                        &task.resolve_param.kind,
                        &mut self.context.module_graph,
                    );
                    proof {
                        let og = old(self).graph().modules;
                        let g = self.context.module_graph@.modules;
                        assert forall|k: int, e: int|
                            #![trigger g[k], self.events@[e]]
                            0 <= k < g.len() && 0 <= e < self.events@.len()
                                && g[k].external implies event_id(self.events@[e]) != g[k].id by {
                            if g[k].id == mv.id {
                            } else {
                                assert(g[k] == og.push(Self::dummy_module_view(mv.id))[k]);
                            }
                        }
                        assert(self.inv());
                    }
                    let ghost mid_edges = self.graph().edges;
                    Self::add_edge(
                        &task.resolve_param,
                        &module_id,
                        task.order,
                        &mut self.context.module_graph,
                    );
                    proof {
                        let og = old(self).graph().modules;
                        let g = self.graph().modules;
                        assert(m1 == og.push(Self::dummy_module_view(mv.id)));
                        assert(m1[og.len() as int].id == mv.id);
                        assert(has_mid(m1, mv.id));
                        let j = choose|j: int|
                            0 <= j < m1.len() && (#[trigger] m1[j]).id == mv.id && g == m1.update(
                                j,
                                mv,
                            );
                        assert forall|k: int| 0 <= k < og.len() implies (#[trigger] m1[k]).id
                            != mv.id by {
                            if m1[k].id == mv.id {
                                assert(og[k].id == mv.id);
                                assert(has_mid(og, mv.id));
                            }
                        }
                        assert(j == og.len() as int);
                        assert(g =~= og.push(mv));
                        assert(mv == Self::external_module_view(mv.id));
                        assert(g =~= og.push(Self::external_module_view(mv.id)));
                        match task.resolve_param.kind {
                            ResolveKind::Entry(ref name) => {
                                crate::graph::lemma_entries_upserted_monotone(
                                    old(self).graph().entries,
                                    self.graph().entries,
                                    mv.id,
                                    name@,
                                );
                            },
                            _ => {
                                crate::graph::lemma_entries_monotone_refl(self.graph().entries);
                            },
                        }
                        match task.resolve_param.importer {
                            Some(imp) => {
                                crate::graph::lemma_edge_item_added_monotone(
                                    mid_edges,
                                    self.graph().edges,
                                    imp@,
                                    mv.id,
                                    EdgeItemView {
                                        source: task.resolve_param.source@,
                                        kind: task.resolve_param.kind@,
                                        order: task.order,
                                    },
                                );
                            },
                            None => {
                                crate::graph::lemma_edges_monotone_refl(self.graph().edges);
                            },
                        }
                    }
                    return ;
                }
                let mut module = module;
                let ghost mid = module@.id;
                proof {
                    let og = old(self).graph().modules;
                    let g = self.context.module_graph@.modules;
                    assert(g == og.push(Self::dummy_module_view(mid)));
                    assert(g[g.len() - 1].id == mid);
                    assert(has_mid(g, mid));
                    assert forall|k: int|
                        0 <= k < g.len() && (#[trigger] g[k]).id == mid implies !g[k].external by {
                        if k < og.len() {
                            assert(g[k] == og[k]);
                            assert(has_mid(og, mid));
                        } else {
                            assert(g[k] == Self::dummy_module_view(mid));
                        }
                    }
                    assert forall|k: int|
                        0 <= k < self.built_ids@.len() implies #[trigger] self.built_ids@[k]
                        != mid by {
                        assert(has_mid(og, self.built_ids@[k]));
                    }
                    self.built_ids@ = self.built_ids@.push(mid);
                    assert forall|p: int, q: int|
                        #![trigger self.built_ids@[p], self.built_ids@[q]]
                        0 <= p < q < self.built_ids@.len() implies self.built_ids@[p]
                        != self.built_ids@[q] by {}
                    assert forall|k: int|
                        0 <= k < self.built_ids@.len() implies has_mid(
                        g,
                        #[trigger] self.built_ids@[k],
                    ) by {
                        if k < self.built_ids@.len() - 1 {
                            assert(has_mid(og, self.built_ids@[k]));
                        }
                    }
                    assert(self.inv());
                }
                match self.build_module(resolve_module_id_result.resolve_result, &mut module) {
                    Err(e) => {
                        let ghost pre_ch = *err_sender;
                        let ghost ge = e;
                        err_sender.send(e);
                        proof {
                            self.reported@ = reported_after(self.reported@, pre_ch, ge);
                            crate::graph::lemma_edges_monotone_refl(self.graph().edges);
                            crate::graph::lemma_entries_monotone_refl(self.graph().entries);
                            assert(stage_error_for(ge, mid.relative_path));
                            assert(channel_sent(pre_ch, *err_sender, ge));
                        }
                    },
                    Ok(deps) => {
                        let ghost depsv = cached_deps_view(deps@);
                        let ghost pre_tasks = tasks@;
                        let ghost mv_built = module@;
                        let ghost m1 = self.graph().modules;
                        self.handle_dependencies(
                            module,
                            &task.resolve_param,
                            task.order,
                            deps,
                            tasks,
                        );
                        proof {
                            let og = old(self).graph().modules;
                            let g = self.graph().modules;
                            assert(m1 == og.push(Self::dummy_module_view(mid)));
                            assert(m1[og.len() as int].id == mid);
                            let j = choose|j: int|
                                0 <= j < m1.len() && (#[trigger] m1[j]).id == mv_built.id && g
                                    == m1.update(j, mv_built);
                            assert forall|k: int| 0 <= k < og.len() implies (#[trigger] m1[k]).id
                                != mid by {
                                if m1[k].id == mid {
                                    assert(og[k].id == mid);
                                    assert(has_mid(og, mid));
                                }
                            }
                            assert(j == og.len() as int);
                            assert(g =~= og.push(mv_built));
                            assert(pre_tasks == old(tasks)@);
                            assert(success_registration(
                                old(self).graph(),
                                self.graph(),
                                old(tasks)@,
                                tasks@,
                                task.resolve_param.kind@,
                                opt_id_view(task.resolve_param.importer),
                                task.resolve_param.source@,
                                task.order,
                                mid,
                                mv_built,
                                depsv,
                            ));
                            assert forall|k: int|
                                pre_tasks.len() <= k < tasks@.len() implies task_valid(
                                #[trigger] tasks@[k],
                                self.graph().modules,
                            ) by {
                                let d = k - pre_tasks.len();
                                assert(spawned_task(
                                    tasks@[pre_tasks.len() + d],
                                    depsv[d],
                                    d,
                                    mid,
                                    false,
                                ) || spawned_task(
                                    tasks@[pre_tasks.len() + d],
                                    depsv[d],
                                    d,
                                    mid,
                                    true,
                                ));
                            }
                            match task.resolve_param.importer {
                                Some(imp) => {
                                    crate::graph::lemma_edge_item_added_monotone(
                                        old(self).graph().edges,
                                        self.graph().edges,
                                        imp@,
                                        mid,
                                        EdgeItemView {
                                            source: task.resolve_param.source@,
                                            kind: task.resolve_param.kind@,
                                            order: task.order,
                                        },
                                    );
                                },
                                None => {
                                    crate::graph::lemma_edges_monotone_refl(self.graph().edges);
                                },
                            }
                            match task.resolve_param.kind {
                                ResolveKind::Entry(ref name) => {
                                    crate::graph::lemma_entries_upserted_monotone(
                                        old(self).graph().entries,
                                        self.graph().entries,
                                        mid,
                                        name@,
                                    );
                                },
                                _ => {
                                    crate::graph::lemma_entries_monotone_refl(self.graph().entries);
                                },
                            }
                        }
                    },
                }
            },
            ResolveModuleResult::Built(module_id) => {
                let ghost mid_edges = self.graph().edges;
                Self::add_edge(
                    &task.resolve_param,
                    &module_id,
                    task.order,
                    &mut self.context.module_graph,
                );
                proof {
                    crate::graph::lemma_entries_monotone_refl(self.graph().entries);
                    match task.resolve_param.importer {
                        Some(imp) => {
                            crate::graph::lemma_edge_item_added_monotone(
                                mid_edges,
                                self.graph().edges,
                                imp@,
                                module_id@,
                                EdgeItemView {
                                    source: task.resolve_param.source@,
                                    kind: task.resolve_param.kind@,
                                    order: task.order,
                                },
                            );
                        },
                        None => {
                            crate::graph::lemma_edges_monotone_refl(self.graph().edges);
                        },
                    }
                }
            },
            ResolveModuleResult::Cached(module_id) => {
                proof {
                    // resolve_module never adopts a cache entry under the
                    // provisional always-invalidate policy
                    assert(false);
                }
                let cached_module = self.context.module_cache.get_cache(&module_id);
                proof {
                    let idx = crate::cache::cache_index_of(self.cache(), module_id@);
                    assert(!self.cache()[idx].module.external);
                }
                let CachedModule { module, dependencies } = cached_module;
                let ghost mid = module@.id;
                let deps = CachedModule::dep_sources(dependencies);
                let ghost depsv = cached_deps_view(deps@);
                let ghost pre_tasks = tasks@;
                self.handle_dependencies(module, &task.resolve_param, task.order, deps, tasks);
                proof {
                    assert forall|k: int|
                        pre_tasks.len() <= k < tasks@.len() implies task_valid(
                        #[trigger] tasks@[k],
                        self.graph().modules,
                    ) by {
                        let d = k - pre_tasks.len();
                        assert(spawned_task(tasks@[pre_tasks.len() + d], depsv[d], d, mid, false)
                            || spawned_task(tasks@[pre_tasks.len() + d], depsv[d], d, mid, true));
                    }
                }
            },
        }
    }

    /// Builds the module graph from every configured entry, running each
    /// branch to exhaustion; a branch's failure is collected and does not
    /// stop the others. Returns the complete set of collected errors once
    /// every task has settled.
    pub fn build(&mut self) -> (r: (Vec<CompilationError>, u64))
        requires
            old(self).inv(),
        ensures
            final(self).inv(),
            no_dups(final(self).built()),
            final(self).input() == old(self).input(),
            forall|x: ModuleIdView|
                has_mid(old(self).graph().modules, x) ==> has_mid(final(self).graph().modules, x),
            crate::graph::edges_monotone(old(self).graph().edges, final(self).graph().edges),
            crate::graph::entries_monotone(
                old(self).graph().entries,
                final(self).graph().entries,
            ),
            // every configured entry was issued as a resolution request, as
            // an entry of its name and with no importer
            forall|k: int|
                #![trigger old(self).input()[k]]
                0 <= k < old(self).input().len() ==> entry_requested(
                    final(self).resolve_log(),
                    old(self).input()[k].0@,
                    old(self).input()[k].1@,
                ),
            // every resolution this run answered successfully yielded a
            // module identity that is a node of the final graph
            old(self).resolve_log().len() <= final(self).resolve_log().len(),
            forall|j: int|
                0 <= j < old(self).resolve_log().len() ==> final(self).resolve_log()[j] == old(self).resolve_log()[j],
            forall|j: int|
                old(self).resolve_log().len() <= j < final(self).resolve_log().len()
                    ==> ok_event_claimed(
                    #[trigger] final(self).resolve_log()[j],
                    final(self).graph().modules,
                ),
            // the returned errors are exactly the ones this run's bounded
            // channel retained, in reporting order; the second component
            // counts the errors the channel had to drop
            old(self).reported().is_prefix_of(final(self).reported()),
            r.0@ == final(self).reported().skip(old(self).reported().len() as int),
    {
        let mut err_channel = Self::create_error_channel();
        let ghost rep0 = self.reported@;
        let ghost log0 = self.resolves@;
        let ghost n_entries = old(self).input().len() as int;
        let mut tasks: Vec<BuildTask> = Vec::new();
        let mut order: usize = 0;
        #[verifier::loop_isolation(false)]
        while order < self.context.config.input.len()
            invariant
                self == old(self),
                tasks@.len() == order,
                forall|k: int|
                    0 <= k < tasks@.len() ==> task_valid(
                        #[trigger] tasks@[k],
                        self.graph().modules,
                    ),
                forall|k: int|
                    0 <= k < order ==> entry_task_matches(
                        #[trigger] tasks@[k],
                        old(self).input()[k].0@,
                        old(self).input()[k].1@,
                    ),
            decreases self.context.config.input.len() - order,
        {
            let name = self.context.config.input[order].0.clone();
            let source = self.context.config.input[order].1.clone();
            let task = BuildTask {
                resolve_param: ResolveParam {
                    source,
                    kind: ResolveKind::Entry(name),
                    importer: None,
                },
                cached_dependency: None,
                order,
            };
            proof {
                assert(entry_task_matches(
                    task,
                    old(self).input()[order as int].0@,
                    old(self).input()[order as int].1@,
                ));
            }
            tasks.push(task);
            order = order + 1;
        }
        let mut cursor: usize = 0;
        proof {
            crate::graph::lemma_edges_monotone_refl(self.graph().edges);
            crate::graph::lemma_entries_monotone_refl(self.graph().entries);
        }
        #[verifier::loop_isolation(false)]
        while cursor < tasks.len()
            invariant
                self.inv(),
                self.cache_enabled() == old(self).cache_enabled(),
                self.input() == old(self).input(),
                cursor <= tasks@.len(),
                n_entries <= tasks@.len(),
                forall|x: ModuleIdView|
                    has_mid(old(self).graph().modules, x) ==> has_mid(
                        self.graph().modules,
                        x,
                    ),
                crate::graph::edges_monotone(old(self).graph().edges, self.graph().edges),
                crate::graph::entries_monotone(old(self).graph().entries, self.graph().entries),
                forall|k: int|
                    0 <= k < tasks@.len() ==> task_valid(
                        #[trigger] tasks@[k],
                        self.graph().modules,
                    ),
                forall|k: int|
                    0 <= k < n_entries ==> entry_task_matches(
                        #[trigger] tasks@[k],
                        old(self).input()[k].0@,
                        old(self).input()[k].1@,
                    ),
                forall|k: int|
                    #![trigger old(self).input()[k]]
                    0 <= k < n_entries && k < cursor ==> entry_requested(
                        self.resolve_log(),
                        old(self).input()[k].0@,
                        old(self).input()[k].1@,
                    ),
                rep0 == old(self).reported(),
                rep0.is_prefix_of(self.reported()),
                err_channel@ == self.reported().skip(rep0.len() as int),
                log0 == old(self).resolve_log(),
                log0.len() <= self.resolve_log().len(),
                forall|j: int| 0 <= j < log0.len() ==> self.resolve_log()[j] == log0[j],
                forall|j: int|
                    log0.len() <= j < self.resolve_log().len() ==> ok_event_claimed(
                        #[trigger] self.resolve_log()[j],
                        self.graph().modules,
                    ),
            decreases usize::MAX - cursor,
        {
            let ghost g0 = self.graph().modules;
            let ghost e0 = self.graph().edges;
            let ghost b0 = self.graph().entries;
            let ghost log_pre = self.resolves@;
            let ghost rep_pre = self.reported@;
            let ghost ch_pre = err_channel;
            let mut next: Vec<BuildTask> = Vec::new();
            let task = clone_task(&tasks[cursor]);
            proof {
                let o = tasks@[cursor as int];
                if o.resolve_param.importer is Some {
                    assert(task.resolve_param.importer is Some);
                    assert(task.resolve_param.importer->Some_0@ == o.resolve_param.importer->Some_0@);
                }
                assert(task_valid(task, g0));
            }
            self.build_module_graph(task, &mut err_channel, &mut next);
            proof {
                // existing tasks stay valid as the graph only grows
                assert forall|k: int|
                    0 <= k < tasks@.len() implies task_valid(
                    #[trigger] tasks@[k],
                    self.graph().modules,
                ) by {
                    if tasks@[k].resolve_param.importer is Some {
                        assert(has_mid(g0, tasks@[k].resolve_param.importer->Some_0@));
                    }
                }
                crate::graph::lemma_edges_monotone_trans(
                    old(self).graph().edges,
                    e0,
                    self.graph().edges,
                );
                crate::graph::lemma_entries_monotone_trans(
                    old(self).graph().entries,
                    b0,
                    self.graph().entries,
                );
                // the channel mirrors the ghost log of retained errors
                if !(err_channel == ch_pre && self.reported@ == rep_pre) {
                    let e = choose|e: CompilationError|
                        channel_sent(ch_pre, err_channel, e) && self.reported@ == reported_after(
                            rep_pre,
                            ch_pre,
                            e,
                        );
                    if ch_pre@.len() < ch_pre.capacity_spec() {
                        assert(self.reported@.skip(rep0.len() as int) =~= rep_pre.skip(
                            rep0.len() as int,
                        ).push(e));
                    }
                }
                assert(rep0.is_prefix_of(self.reported@));
                assert(err_channel@ =~= self.reported@.skip(rep0.len() as int));
                // successfully resolved identities stay nodes as the graph
                // grows, and the just-appended event's identity is one
                assert forall|j: int|
                    log0.len() <= j < self.resolve_log().len() implies ok_event_claimed(
                    #[trigger] self.resolve_log()[j],
                    self.graph().modules,
                ) by {
                    if j < log_pre.len() {
                        assert(self.resolve_log()[j] == log_pre[j]);
                        assert(ok_event_claimed(log_pre[j], g0));
                        if log_pre[j].ok {
                            assert(log_pre[j].resolved is Some);
                            let rid = log_pre[j].resolved->Some_0;
                            assert(has_mid(g0, rid));
                            assert(has_mid(self.graph().modules, rid));
                        }
                    } else {
                        assert(j == log_pre.len());
                        assert(ok_event_claimed(
                            self.resolve_log()[log_pre.len() as int],
                            self.graph().modules,
                        ));
                    }
                }
                // each processed entry keeps its recorded request; the one
                // just processed gains it
                assert forall|k: int|
                    #![trigger old(self).input()[k]]
                    0 <= k < n_entries && k < cursor + 1 implies entry_requested(
                    self.resolve_log(),
                    old(self).input()[k].0@,
                    old(self).input()[k].1@,
                ) by {
                    if k < cursor {
                        assert(entry_requested(
                            log_pre,
                            old(self).input()[k].0@,
                            old(self).input()[k].1@,
                        ));
                        let j = choose|j: int|
                            0 <= j < log_pre.len() && entry_request(
                                #[trigger] log_pre[j],
                                old(self).input()[k].0@,
                                old(self).input()[k].1@,
                            );
                        assert(self.resolve_log()[j] == log_pre[j]);
                        assert(entry_request(
                            self.resolve_log()[j],
                            old(self).input()[k].0@,
                            old(self).input()[k].1@,
                        ));
                    } else {
                        assert(entry_task_matches(
                            tasks@[cursor as int],
                            old(self).input()[k].0@,
                            old(self).input()[k].1@,
                        ));
                        assert(self.resolve_log().len() == log_pre.len() + 1);
                        assert(entry_request(
                            self.resolve_log()[log_pre.len() as int],
                            old(self).input()[k].0@,
                            old(self).input()[k].1@,
                        ));
                    }
                }
            }
            let ghost pre = tasks@;
            let ghost g1 = self.graph().modules;
            let mut i: usize = 0;
            #[verifier::loop_isolation(false)]
            while i < next.len()
                invariant
                    i <= next@.len(),
                    g1 == self.graph().modules,
                    tasks@.len() == pre.len() + i,
                    forall|k: int| 0 <= k < pre.len() ==> tasks@[k] == pre[k],
                    forall|k: int| 0 <= k < pre.len() ==> task_valid(#[trigger] pre[k], g1),
                    forall|k: int|
                        pre.len() <= k < tasks@.len() ==> task_valid(#[trigger] tasks@[k], g1),
                    forall|k: int|
                        i <= k < next@.len() ==> task_valid(#[trigger] next@[k], g1),
                decreases next@.len() - i,
            {
                let t = clone_task(&next[i]);
                proof {
                    let o = next@[i as int];
                    if o.resolve_param.importer is Some {
                        assert(t.resolve_param.importer is Some);
                        assert(t.resolve_param.importer->Some_0@ == o.resolve_param.importer->Some_0@);
                    }
                    assert(task_valid(t, g1));
                }
                tasks.push(t);
                i = i + 1;
            }
            proof {
                assert forall|k: int|
                    0 <= k < tasks@.len() implies task_valid(
                    #[trigger] tasks@[k],
                    self.graph().modules,
                ) by {
                    if k < pre.len() {
                        assert(tasks@[k] == pre[k]);
                        assert(task_valid(pre[k], g1));
                    }
                }
                assert forall|k: int|
                    0 <= k < n_entries implies entry_task_matches(
                    #[trigger] tasks@[k],
                    old(self).input()[k].0@,
                    old(self).input()[k].1@,
                ) by {
                    assert(tasks@[k] == pre[k]);
                }
            }
            cursor = cursor + 1;
        }
        proof {
            assert forall|k: int|
                #![trigger old(self).input()[k]]
                0 <= k < old(self).input().len() implies entry_requested(
                self.resolve_log(),
                old(self).input()[k].0@,
                old(self).input()[k].1@,
            ) by {
                assert(0 <= k < n_entries && k < cursor);
            }
        }
        let dropped = err_channel.dropped_count();
        let errors = err_channel.into_errors();
        (errors, dropped)
    }
}

impl<P: PluginDriver> Compiler<P> {
    /// Deduplication: however a build interleaves its branches, a module
    /// identity appears at most once as a node of the graph, and the build
    /// pipeline ran at most once for it.
    pub proof fn lemma_deduplication(self)
        requires
            self.inv(),
        ensures
            no_dups(self.built()),
            forall|i: int, j: int|
                #![trigger self.graph().modules[i].id, self.graph().modules[j].id]
                0 <= i < j < self.graph().modules.len() ==> self.graph().modules[i].id
                    != self.graph().modules[j].id,
    {
    }

    /// External short-circuit: a module resolved as external never entered
    /// the build pipeline — no collaborator call is recorded for its
    /// identity.
    pub proof fn lemma_external_short_circuit(self)
        requires
            self.inv(),
        ensures
            forall|k: int, e: int|
                #![trigger self.graph().modules[k], self.events()[e]]
                0 <= k < self.graph().modules.len() && 0 <= e < self.events().len()
                    && self.graph().modules[k].external ==> event_id(self.events()[e])
                    != self.graph().modules[k].id,
    {
    }
}

} // verus!
