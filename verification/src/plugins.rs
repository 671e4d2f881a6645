//! The collaborator interface: resolution, loading, transformation, parsing
//! and post-parse processing are pluggable, fallible services. The core
//! depends only on this interface; tests substitute deterministic stubs and
//! an application supplies real implementations.

use vstd::prelude::*;
use crate::module::{ModuleId, ModuleMetaData, ModuleType, ResolveKind};

verus! {

/// A resolution request: the literal import source, how it was requested,
/// and the importer, absent for entries.
pub struct ResolveParam {
    pub source: String,
    pub kind: ResolveKind,
    pub importer: Option<ModuleId>,
}

/// What resolution yielded: the resolved absolute path, normalized query
/// parameters, whether the module is external, its side-effect flag, and
/// opaque resolver metadata handed through to the later stages.
pub struct ResolveResult {
    pub resolved_path: String,
    pub query: Vec<(String, String)>,
    pub external: bool,
    pub side_effects: bool,
    pub meta: String,
}

/// What the loader is given.
pub struct LoadParam {
    pub resolved_path: String,
    pub query: Vec<(String, String)>,
    pub meta: String,
    pub module_id: ModuleId,
}

/// What loading yielded: raw content, a module-type hint and an optional
/// source map.
pub struct LoadResult {
    pub content: Vec<u8>,
    pub module_type: ModuleType,
    pub source_map: Option<String>,
}

/// What the transformer is given.
pub struct TransformParam {
    pub content: Vec<u8>,
    pub resolved_path: String,
    pub module_type: ModuleType,
    pub query: Vec<(String, String)>,
    pub meta: String,
    pub module_id: ModuleId,
    pub source_map_chain: Vec<String>,
}

/// What transformation yielded: transformed content, an optional overriding
/// module type, and the updated source-map chain.
pub struct TransformResult {
    pub content: Vec<u8>,
    pub module_type: Option<ModuleType>,
    pub source_map_chain: Vec<String>,
}

/// What the parser is given.
pub struct ParseParam {
    pub module_id: ModuleId,
    pub resolved_path: String,
    pub query: Vec<(String, String)>,
    pub module_type: ModuleType,
    pub content: Vec<u8>,
}

/// What the post-parse processing hook is given, beside the metadata it may
/// rewrite in place.
pub struct ProcessParam {
    pub module_id: ModuleId,
    pub module_type: ModuleType,
    pub content: Vec<u8>,
}

/// The pluggable collaborators of one build. Every method is fallible and
/// nothing is assumed of any implementation: the orchestrator's guarantees
/// hold whatever these calls return.
pub trait PluginDriver {
    /// Maps an import specifier to a resolution result.
    fn resolve(&mut self, param: &ResolveParam) -> Result<ResolveResult, String>;

    /// Obtains a module's raw content.
    fn load(&mut self, param: &LoadParam) -> Result<LoadResult, String>;

    /// Rewrites loaded content.
    fn transform(&mut self, param: TransformParam) -> Result<TransformResult, String>;

    /// Produces module metadata, dependency declarations included, from
    /// transformed content.
    fn parse(&mut self, param: &ParseParam) -> Result<ModuleMetaData, String>;

    /// May rewrite freshly parsed metadata in place.
    fn process_module(&mut self, param: &ProcessParam, meta: &mut ModuleMetaData) -> Result<
        (),
        String,
    >;

    /// The current modification timestamp of a module's backing source,
    /// relative to the working root.
    fn module_timestamp(&mut self, id: &ModuleId, root: &String) -> u64;
}

/// Clones a query parameter list, keeping every pair's characters.
pub fn clone_query(q: &Vec<(String, String)>) -> (res: Vec<(String, String)>)
    ensures
        crate::module::query_view(res@) == crate::module::query_view(q@),
{
    let mut res: Vec<(String, String)> = Vec::new();
    let mut i: usize = 0;
    while i < q.len()
        invariant
            i <= q.len(),
            res@.len() == i,
            forall|j: int|
                0 <= j < i ==> (#[trigger] res@[j]).0@ == q@[j].0@ && res@[j].1@ == q@[j].1@,
        decreases q.len() - i,
    {
        res.push((q[i].0.clone(), q[i].1.clone()));
        i = i + 1;
    }
    proof {
        assert(crate::module::query_view(res@) =~= crate::module::query_view(q@));
    }
    res
}

} // verus!
