//! Dependency-graph construction core of a module bundler.
//!
//! Given named entry sources, the compiler discovers, resolves, loads,
//! transforms and parses every reachable module, producing a directed graph
//! of modules connected by import edges. Resolution, loading, transformation
//! and parsing are pluggable collaborators supplied through the
//! [`plugins::PluginDriver`] trait; everything else — module identity, the
//! module graph, the cache gateway, the build pipeline and the orchestrator —
//! is verified here.

pub mod cache;
pub mod compiler;
pub mod error;
pub mod graph;
pub mod module;
pub mod plugins;
