//! The module cache gateway: lookups by timestamp or by content hash that
//! short-circuit the build pipeline.

use vstd::prelude::*;
use crate::module::{
    ContentHash, DependencyDescriptor, DependencyDescriptorView, Module, ModuleId, ModuleIdView,
    ModuleView,
};

verus! {

/// Spec-level value of a cached dependency list: each import paired with the
/// dependency's identity when the prior build recorded it.
pub open spec fn cached_deps_view(s: Seq<(DependencyDescriptor, Option<ModuleId>)>) -> Seq<
    (DependencyDescriptorView, Option<ModuleIdView>),
> {
    s.map_values(
        |p: (DependencyDescriptor, Option<ModuleId>)|
            (
                p.0@,
                match p.1 {
                    Some(id) => Some(id@),
                    None => None,
                },
            ),
    )
}

/// One cache entry: a fully populated module together with its already
/// resolved dependency descriptors.
pub struct CachedModule {
    pub module: Module,
    pub dependencies: Vec<(DependencyDescriptor, Option<ModuleId>)>,
}

/// Mathematical value of a `CachedModule`.
#[verifier::ext_equal]
pub struct CachedModuleView {
    pub module: ModuleView,
    pub dependencies: Seq<(DependencyDescriptorView, Option<ModuleIdView>)>,
}

impl View for CachedModule {
    type V = CachedModuleView;

    open spec fn view(&self) -> CachedModuleView {
        CachedModuleView { module: self.module@, dependencies: cached_deps_view(self.dependencies@) }
    }
}

/// Clones a cached dependency list, keeping every element's value.
pub fn clone_cached_deps(v: &Vec<(DependencyDescriptor, Option<ModuleId>)>) -> (res: Vec<
    (DependencyDescriptor, Option<ModuleId>),
>)
    ensures
        cached_deps_view(res@) == cached_deps_view(v@),
{
    let mut res: Vec<(DependencyDescriptor, Option<ModuleId>)> = Vec::new();
    let mut i: usize = 0;
    while i < v.len()
        invariant
            i <= v.len(),
            res@.len() == i,
            forall|j: int|
                0 <= j < i ==> cached_deps_view(res@)[j] == cached_deps_view(v@)[j],
        decreases v.len() - i,
    {
        let desc = v[i].0.clone();
        let known = match &v[i].1 {
            Some(id) => Some(id.clone()),
            None => None,
        };
        res.push((desc, known));
        i = i + 1;
    }
    proof {
        assert(cached_deps_view(res@) =~= cached_deps_view(v@));
    }
    res
}

impl Clone for CachedModule {
    fn clone(&self) -> (res: Self)
        ensures
            res@ == self@,
    {
        let res = CachedModule {
            module: self.module.clone(),
            dependencies: clone_cached_deps(&self.dependencies),
        };
        proof {
            assert(res@ =~= self@);
        }
        res
    }
}

impl CachedModule {
    /// The cached dependency descriptors, paired with their recorded
    /// identities, ready to hand to the dependency fanout.
    pub fn dep_sources(dependencies: Vec<(DependencyDescriptor, Option<ModuleId>)>) -> (res: Vec<
        (DependencyDescriptor, Option<ModuleId>),
    >)
        ensures
            cached_deps_view(res@) == cached_deps_view(dependencies@),
    {
        dependencies
    }
}

/// Whether the cache holds an entry for this identity.
pub open spec fn cache_has(cache: Seq<CachedModuleView>, id: ModuleIdView) -> bool {
    exists|i: int| 0 <= i < cache.len() && cache[i].module.id == id
}

/// The index of the entry for this identity.
pub open spec fn cache_index_of(cache: Seq<CachedModuleView>, id: ModuleIdView) -> int {
    choose|i: int| 0 <= i < cache.len() && cache[i].module.id == id
}

/// The entry for this identity.
pub open spec fn cache_entry_for(cache: Seq<CachedModuleView>, id: ModuleIdView) -> CachedModuleView {
    cache[cache_index_of(cache, id)]
}

/// The cache gateway. Entirely disabled by configuration, every lookup
/// reports a miss.
pub struct ModuleCache {
    enabled: bool,
    entries: Vec<CachedModule>,
}

impl View for ModuleCache {
    type V = Seq<CachedModuleView>;

    closed spec fn view(&self) -> Seq<CachedModuleView> {
        self.entries@.map_values(|e: CachedModule| e@)
    }
}

impl ModuleCache {
    /// Whether lookups may report hits at all.
    pub closed spec fn enabled_spec(self) -> bool {
        self.enabled
    }

    /// Internal consistency: at most one entry per identity, and only
    /// modules that were actually built — never external placeholders.
    pub open spec fn wf(self) -> bool {
        &&& forall|i: int, j: int|
            #![trigger self@[i].module.id, self@[j].module.id]
            0 <= i < j < self@.len() ==> self@[i].module.id != self@[j].module.id
        &&& forall|i: int| 0 <= i < self@.len() ==> !(#[trigger] self@[i]).module.external
    }

    /// An empty cache; when `enabled` is false every lookup misses.
    pub fn new(enabled: bool) -> (c: ModuleCache)
        ensures
            c.wf(),
            c@ == Seq::<CachedModuleView>::empty(),
            c.enabled_spec() == enabled,
    {
        let c = ModuleCache { enabled, entries: Vec::new() };
        proof {
            assert(c@ =~= Seq::<CachedModuleView>::empty());
        }
        c
    }

    /// Whether an entry for this identity can be served.
    #[verifier::loop_isolation(false)]
    pub fn has_cache(&self, id: &ModuleId) -> (r: bool)
        ensures
            r == (self.enabled_spec() && cache_has(self@, id@)),
    {
        if !self.enabled {
            return false;
        }
        let mut i: usize = 0;
        while i < self.entries.len()
            invariant
                i <= self.entries.len(),
                forall|j: int| 0 <= j < i ==> (#[trigger] self@[j]).module.id != id@,
            decreases self.entries.len() - i,
        {
            if self.entries[i].module.id.same_id(id) {
                proof {
                    assert(self@[i as int].module.id == id@);
                }
                return true;
            }
            i = i + 1;
        }
        false
    }

    /// A copy of the entry for this identity.
    #[verifier::loop_isolation(false)]
    pub fn get_cache(&self, id: &ModuleId) -> (r: CachedModule)
        requires
            self.wf(),
            self.enabled_spec(),
            cache_has(self@, id@),
        ensures
            r@ == cache_entry_for(self@, id@),
            r@.module.id == id@,
    {
        let mut i: usize = 0;
        while i < self.entries.len()
            invariant
                i <= self.entries.len(),
                forall|j: int| 0 <= j < i ==> (#[trigger] self@[j]).module.id != id@,
            decreases self.entries.len() - i,
        {
            if self.entries[i].module.id.same_id(id) {
                proof {
                    assert(self@[i as int].module.id == id@);
                    let w = cache_index_of(self@, id@);
                    assert(self@[w].module.id == id@);
                    assert(w == i as int);
                }
                return self.entries[i].clone();
            }
            i = i + 1;
        }
        proof {
            assert(false);
        }
        unreached()
    }

    /// Timestamp strategy: the entry for this identity, provided its
    /// recorded modification timestamp equals the given one.
    #[verifier::loop_isolation(false)]
    pub fn lookup_by_timestamp(&self, id: &ModuleId, timestamp: u64) -> (r: Option<&CachedModule>)
        requires
            self.wf(),
        ensures
            match r {
                Some(c) => self.enabled_spec() && cache_has(self@, id@) && c@ == cache_entry_for(
                    self@,
                    id@,
                ) && c@.module.last_update_timestamp == timestamp,
                None => !(self.enabled_spec() && cache_has(self@, id@) && cache_entry_for(
                    self@,
                    id@,
                ).module.last_update_timestamp == timestamp),
            },
    {
        if !self.enabled {
            return None;
        }
        let mut i: usize = 0;
        while i < self.entries.len()
            invariant
                i <= self.entries.len(),
                forall|j: int| 0 <= j < i ==> (#[trigger] self@[j]).module.id != id@,
            decreases self.entries.len() - i,
        {
            if self.entries[i].module.id.same_id(id) {
                proof {
                    assert(self@[i as int].module.id == id@);
                    let w = cache_index_of(self@, id@);
                    assert(self@[w].module.id == id@);
                    assert(w == i as int);
                }
                if self.entries[i].module.last_update_timestamp == timestamp {
                    return Some(&self.entries[i]);
                } else {
                    return None;
                }
            }
            i = i + 1;
        }
        None
    }

    /// Content-hash strategy: the entry for this identity, provided its
    /// recorded content hash equals the given one.
    #[verifier::loop_isolation(false)]
    pub fn lookup_by_content_hash(&self, id: &ModuleId, hash: ContentHash) -> (r: Option<
        &CachedModule,
    >)
        requires
            self.wf(),
        ensures
            match r {
                Some(c) => self.enabled_spec() && cache_has(self@, id@) && c@ == cache_entry_for(
                    self@,
                    id@,
                ) && c@.module.content_hash == hash,
                None => !(self.enabled_spec() && cache_has(self@, id@) && cache_entry_for(
                    self@,
                    id@,
                ).module.content_hash == hash),
            },
    {
        if !self.enabled {
            return None;
        }
        let mut i: usize = 0;
        while i < self.entries.len()
            invariant
                i <= self.entries.len(),
                forall|j: int| 0 <= j < i ==> (#[trigger] self@[j]).module.id != id@,
            decreases self.entries.len() - i,
        {
            if self.entries[i].module.id.same_id(id) {
                proof {
                    assert(self@[i as int].module.id == id@);
                    let w = cache_index_of(self@, id@);
                    assert(self@[w].module.id == id@);
                    assert(w == i as int);
                }
                if self.entries[i].module.content_hash == hash {
                    return Some(&self.entries[i]);
                } else {
                    return None;
                }
            }
            i = i + 1;
        }
        None
    }

    /// Drops the entry for this identity, forcing a full rebuild.
    #[verifier::loop_isolation(false)]
    pub fn invalidate_cache(&mut self, id: &ModuleId)
        requires
            old(self).wf(),
        ensures
            final(self).wf(),
            final(self).enabled_spec() == old(self).enabled_spec(),
            !cache_has(final(self)@, id@),
            if cache_has(old(self)@, id@) {
                exists|i: int|
                    0 <= i < old(self)@.len() && (#[trigger] old(self)@[i]).module.id == id@
                        && final(self)@ == old(self)@.remove(i)
            } else {
                final(self)@ == old(self)@
            },
    {
        let mut i: usize = 0;
        while i < self.entries.len()
            invariant
                i <= self.entries.len(),
                self == old(self),
                forall|j: int| 0 <= j < i ==> (#[trigger] self@[j]).module.id != id@,
            decreases self.entries.len() - i,
        {
            if self.entries[i].module.id.same_id(id) {
                proof {
                    assert(old(self)@[i as int].module.id == id@);
                }
                self.entries.remove(i);
                proof {
                    assert(self@ =~= old(self)@.remove(i as int));
                    assert forall|k: int| 0 <= k < self@.len() implies (
                    #[trigger] self@[k]).module.id != id@ by {
                        if k < i {
                            assert(self@[k] == old(self)@[k]);
                        } else {
                            assert(self@[k] == old(self)@[k + 1]);
                            assert(old(self)@[i as int].module.id == id@);
                        }
                    }
                    assert forall|p: int, q: int|
                        0 <= p < q < self@.len() implies (#[trigger] self@[p].module.id) != (
                    #[trigger] self@[q].module.id) by {
                        if q < i {
                        } else if p < i {
                            assert(self@[q] == old(self)@[q + 1]);
                        } else {
                            assert(self@[p] == old(self)@[p + 1]);
                            assert(self@[q] == old(self)@[q + 1]);
                        }
                    }
                    assert(self.wf());
                }
                return ;
            }
            i = i + 1;
        }
    }

    /// Records a fully built module, overwriting any prior entry for the
    /// same identity. External modules are never built, so they are
    /// rejected.
    #[verifier::loop_isolation(false)]
    pub fn store(&mut self, entry: CachedModule)
        requires
            old(self).wf(),
        ensures
            final(self).wf(),
            final(self).enabled_spec() == old(self).enabled_spec(),
            if entry.module.external {
                final(self)@ == old(self)@
            } else if cache_has(old(self)@, entry.module.id@) {
                exists|i: int|
                    0 <= i < old(self)@.len() && (#[trigger] old(self)@[i]).module.id
                        == entry.module.id@ && final(self)@ == old(self)@.update(i, entry@)
            } else {
                final(self)@ == old(self)@.push(entry@)
            },
    {
        if entry.module.external {
            return ;
        }
        let mut i: usize = 0;
        while i < self.entries.len()
            invariant
                i <= self.entries.len(),
                self == old(self),
                forall|j: int| 0 <= j < i ==> (#[trigger] self@[j]).module.id != entry.module.id@,
            decreases self.entries.len() - i,
        {
            if self.entries[i].module.id.same_id(&entry.module.id) {
                proof {
                    assert(old(self)@[i as int].module.id == entry.module.id@);
                }
                self.entries.set(i, entry);
                proof {
                    assert(self@ =~= old(self)@.update(i as int, entry@));
                    assert(forall|k: int|
                        0 <= k < self@.len() ==> (#[trigger] self@[k]).module.id
                            == old(self)@[k].module.id);
                    assert forall|p: int, q: int|
                        0 <= p < q < self@.len() implies (#[trigger] self@[p].module.id) != (
                    #[trigger] self@[q].module.id) by {
                        assert(self@[p].module.id == old(self)@[p].module.id);
                        assert(self@[q].module.id == old(self)@[q].module.id);
                    }
                    assert(self.wf());
                }
                return ;
            }
            i = i + 1;
        }
        self.entries.push(entry);
        proof {
            assert(self@ =~= old(self)@.push(entry@));
            assert forall|p: int, q: int|
                0 <= p < q < self@.len() implies (#[trigger] self@[p].module.id) != (
            #[trigger] self@[q].module.id) by {
                assert(self@[p] == old(self)@[p]);
                if q < old(self)@.len() {
                    assert(self@[q] == old(self)@[q]);
                }
            }
            assert(self.wf());
        }
    }
}

} // verus!
