//! The shared module graph: nodes, multi-edges and entry bindings.

use vstd::prelude::*;
use crate::module::{Module, ModuleId, ModuleIdView, ModuleView, ResolveKind, ResolveKindView};

verus! {

/// One recorded import relationship between two modules: the literal import
/// source text, the kind of request, and the ordinal position of the import
/// among its siblings in the importer.
pub struct EdgeItem {
    pub source: String,
    pub kind: ResolveKind,
    pub order: usize,
}

/// Mathematical value of an `EdgeItem`.
#[verifier::ext_equal]
pub struct EdgeItemView {
    pub source: Seq<char>,
    pub kind: ResolveKindView,
    pub order: usize,
}

impl View for EdgeItem {
    type V = EdgeItemView;

    open spec fn view(&self) -> EdgeItemView {
        EdgeItemView { source: self.source@, kind: self.kind@, order: self.order }
    }
}

/// The edge between an importer and one of its dependencies. The same pair
/// of modules may be connected through several import statements, so an edge
/// carries a non-empty ordered collection of items.
pub struct ModuleGraphEdge {
    pub importer: ModuleId,
    pub dependency: ModuleId,
    pub items: Vec<EdgeItem>,
}

/// Mathematical value of a `ModuleGraphEdge`.
#[verifier::ext_equal]
pub struct ModuleGraphEdgeView {
    pub importer: ModuleIdView,
    pub dependency: ModuleIdView,
    pub items: Seq<EdgeItemView>,
}

impl View for ModuleGraphEdge {
    type V = ModuleGraphEdgeView;

    open spec fn view(&self) -> ModuleGraphEdgeView {
        ModuleGraphEdgeView {
            importer: self.importer@,
            dependency: self.dependency@,
            items: self.items@.map_values(|it: EdgeItem| it@),
        }
    }
}

/// Whether a module with the given identity occurs in a node list.
pub open spec fn has_mid(mods: Seq<ModuleView>, id: ModuleIdView) -> bool {
    exists|i: int| 0 <= i < mods.len() && mods[i].id == id
}

/// Whether an edge list holds an edge between the given pair.
pub open spec fn has_pair(
    edges: Seq<ModuleGraphEdgeView>,
    importer: ModuleIdView,
    dependency: ModuleIdView,
) -> bool {
    exists|i: int|
        0 <= i < edges.len() && edges[i].importer == importer && edges[i].dependency == dependency
}


/// How an entry binding changes when `(id, name)` is recorded: updated in
/// place when the identity is already bound, appended otherwise.
pub open spec fn entries_upserted(
    old_entries: Seq<(ModuleIdView, Seq<char>)>,
    new_entries: Seq<(ModuleIdView, Seq<char>)>,
    id: ModuleIdView,
    name: Seq<char>,
) -> bool {
    if exists|i: int| 0 <= i < old_entries.len() && (#[trigger] old_entries[i]).0 == id {
        exists|i: int|
            0 <= i < old_entries.len() && (#[trigger] old_entries[i]).0 == id && new_entries
                == old_entries.update(i, (id, name))
    } else {
        new_entries == old_entries.push((id, name))
    }
}

/// How the edge list changes when one item is appended to the edge between
/// the pair: pushed onto the existing edge, or onto a fresh one.
pub open spec fn edge_item_added(
    old_edges: Seq<ModuleGraphEdgeView>,
    new_edges: Seq<ModuleGraphEdgeView>,
    importer: ModuleIdView,
    dependency: ModuleIdView,
    item: EdgeItemView,
) -> bool {
    if has_pair(old_edges, importer, dependency) {
        exists|i: int|
            0 <= i < old_edges.len() && (#[trigger] old_edges[i]).importer == importer
                && old_edges[i].dependency == dependency && new_edges == old_edges.update(
                i,
                ModuleGraphEdgeView { importer, dependency, items: old_edges[i].items.push(item) },
            )
    } else {
        new_edges == old_edges.push(
            ModuleGraphEdgeView { importer, dependency, items: seq![item] },
        )
    }
}

/// How the node list changes when a module is recorded: the node with the
/// same identity overwritten in place, or a new node appended.
pub open spec fn modules_upserted(
    old_modules: Seq<ModuleView>,
    new_modules: Seq<ModuleView>,
    m: ModuleView,
) -> bool {
    if has_mid(old_modules, m.id) {
        exists|i: int|
            0 <= i < old_modules.len() && (#[trigger] old_modules[i]).id == m.id && new_modules
                == old_modules.update(i, m)
    } else {
        new_modules == old_modules.push(m)
    }
}


/// Every importing pair present before is still present, with its item list
/// only extended: a build never removes or reorders recorded imports.
pub open spec fn edge_kept(
    old_edges: Seq<ModuleGraphEdgeView>,
    new_edges: Seq<ModuleGraphEdgeView>,
    i: int,
) -> bool {
    exists|j: int|
        0 <= j < new_edges.len() && (#[trigger] new_edges[j]).importer == old_edges[i].importer
            && new_edges[j].dependency == old_edges[i].dependency
            && old_edges[i].items.is_prefix_of(new_edges[j].items)
}

pub open spec fn edges_monotone(
    old_edges: Seq<ModuleGraphEdgeView>,
    new_edges: Seq<ModuleGraphEdgeView>,
) -> bool {
    forall|i: int| 0 <= i < old_edges.len() ==> #[trigger] edge_kept(old_edges, new_edges, i)
}

/// Every module bound as an entry before is still bound.
pub open spec fn entry_kept(
    old_entries: Seq<(ModuleIdView, Seq<char>)>,
    new_entries: Seq<(ModuleIdView, Seq<char>)>,
    i: int,
) -> bool {
    exists|j: int|
        0 <= j < new_entries.len() && (#[trigger] new_entries[j]).0 == old_entries[i].0
}

pub open spec fn entries_monotone(
    old_entries: Seq<(ModuleIdView, Seq<char>)>,
    new_entries: Seq<(ModuleIdView, Seq<char>)>,
) -> bool {
    forall|i: int| 0 <= i < old_entries.len() ==> #[trigger] entry_kept(old_entries, new_entries, i)
}

/// An unchanged edge list is monotone.
pub proof fn lemma_edges_monotone_refl(edges: Seq<ModuleGraphEdgeView>)
    ensures
        edges_monotone(edges, edges),
{
    assert forall|i: int| 0 <= i < edges.len() implies #[trigger] edge_kept(edges, edges, i) by {
        assert(edges[i].items =~= edges[i].items.subrange(0, edges[i].items.len() as int));
        assert(edges[i].items.is_prefix_of(edges[i].items));
        assert(edges[i].importer == edges[i].importer);
    }
}

/// Edge monotonicity composes.
pub proof fn lemma_edges_monotone_trans(
    a: Seq<ModuleGraphEdgeView>,
    b: Seq<ModuleGraphEdgeView>,
    c: Seq<ModuleGraphEdgeView>,
)
    requires
        edges_monotone(a, b),
        edges_monotone(b, c),
    ensures
        edges_monotone(a, c),
{
    assert forall|i: int| 0 <= i < a.len() implies #[trigger] edge_kept(a, c, i) by {
        assert(edge_kept(a, b, i));
        let jb = choose|jb: int|
            0 <= jb < b.len() && (#[trigger] b[jb]).importer == a[i].importer && b[jb].dependency
                == a[i].dependency && a[i].items.is_prefix_of(b[jb].items);
        assert(0 <= jb < b.len());
        assert(edge_kept(b, c, jb));
        let jc = choose|jc: int|
            0 <= jc < c.len() && (#[trigger] c[jc]).importer == b[jb].importer && c[jc].dependency
                == b[jb].dependency && b[jb].items.is_prefix_of(c[jc].items);
        assert(a[i].items =~= c[jc].items.subrange(0, a[i].items.len() as int));
        assert(a[i].items.is_prefix_of(c[jc].items));
        assert(c[jc].importer == a[i].importer && c[jc].dependency == a[i].dependency);
    }
}

/// Appending one edge item keeps every prior pair and item.
pub proof fn lemma_edge_item_added_monotone(
    old_edges: Seq<ModuleGraphEdgeView>,
    new_edges: Seq<ModuleGraphEdgeView>,
    importer: ModuleIdView,
    dependency: ModuleIdView,
    item: EdgeItemView,
)
    requires
        edge_item_added(old_edges, new_edges, importer, dependency, item),
    ensures
        edges_monotone(old_edges, new_edges),
{
    assert forall|i: int|
        0 <= i < old_edges.len() implies #[trigger] edge_kept(old_edges, new_edges, i) by {
        if has_pair(old_edges, importer, dependency) {
            let w = choose|w: int|
                0 <= w < old_edges.len() && (#[trigger] old_edges[w]).importer == importer
                    && old_edges[w].dependency == dependency && new_edges == old_edges.update(
                    w,
                    ModuleGraphEdgeView {
                        importer,
                        dependency,
                        items: old_edges[w].items.push(item),
                    },
                );
            if i == w {
                assert(old_edges[i].items =~= new_edges[i].items.subrange(
                    0,
                    old_edges[i].items.len() as int,
                ));
                assert(old_edges[i].items.is_prefix_of(new_edges[i].items));
            } else {
                assert(new_edges[i] == old_edges[i]);
                assert(old_edges[i].items =~= new_edges[i].items.subrange(
                    0,
                    old_edges[i].items.len() as int,
                ));
                assert(old_edges[i].items.is_prefix_of(new_edges[i].items));
            }
        } else {
            assert(new_edges[i] == old_edges[i]);
            assert(old_edges[i].items =~= new_edges[i].items.subrange(
                0,
                old_edges[i].items.len() as int,
            ));
            assert(old_edges[i].items.is_prefix_of(new_edges[i].items));
        }
    }
}

/// An unchanged entry list is monotone.
pub proof fn lemma_entries_monotone_refl(entries: Seq<(ModuleIdView, Seq<char>)>)
    ensures
        entries_monotone(entries, entries),
{
    assert forall|i: int|
        0 <= i < entries.len() implies #[trigger] entry_kept(entries, entries, i) by {
        assert(entries[i].0 == entries[i].0);
    }
}

/// Entry monotonicity composes.
pub proof fn lemma_entries_monotone_trans(
    a: Seq<(ModuleIdView, Seq<char>)>,
    b: Seq<(ModuleIdView, Seq<char>)>,
    c: Seq<(ModuleIdView, Seq<char>)>,
)
    requires
        entries_monotone(a, b),
        entries_monotone(b, c),
    ensures
        entries_monotone(a, c),
{
    assert forall|i: int| 0 <= i < a.len() implies #[trigger] entry_kept(a, c, i) by {
        assert(entry_kept(a, b, i));
        let jb = choose|jb: int| 0 <= jb < b.len() && (#[trigger] b[jb]).0 == a[i].0;
        assert(entry_kept(b, c, jb));
        let jc = choose|jc: int| 0 <= jc < c.len() && (#[trigger] c[jc]).0 == b[jb].0;
        assert(c[jc].0 == a[i].0);
    }
}

/// Recording an entry binding keeps every prior binding's module bound.
pub proof fn lemma_entries_upserted_monotone(
    old_entries: Seq<(ModuleIdView, Seq<char>)>,
    new_entries: Seq<(ModuleIdView, Seq<char>)>,
    id: ModuleIdView,
    name: Seq<char>,
)
    requires
        entries_upserted(old_entries, new_entries, id, name),
    ensures
        entries_monotone(old_entries, new_entries),
{
    assert forall|i: int|
        0 <= i < old_entries.len() implies #[trigger] entry_kept(old_entries, new_entries, i) by {
        if exists|w: int| 0 <= w < old_entries.len() && (#[trigger] old_entries[w]).0 == id {
            let w = choose|w: int|
                0 <= w < old_entries.len() && (#[trigger] old_entries[w]).0 == id && new_entries
                    == old_entries.update(w, (id, name));
            if i == w {
                assert(new_entries[i].0 == old_entries[i].0);
            } else {
                assert(new_entries[i] == old_entries[i]);
            }
        } else {
            assert(new_entries[i] == old_entries[i]);
        }
    }
}

/// Mathematical value of the whole graph.
#[verifier::ext_equal]
pub struct ModuleGraphView {
    pub modules: Seq<ModuleView>,
    pub edges: Seq<ModuleGraphEdgeView>,
    pub entries: Seq<(ModuleIdView, Seq<char>)>,
}

/// The module graph: a node for every discovered module, a multi-edge for
/// every importing pair, and a binding from entry module to its user-facing
/// entry name.
pub struct ModuleGraph {
    modules: Vec<Module>,
    edges: Vec<ModuleGraphEdge>,
    entries: Vec<(ModuleId, String)>,
}

impl View for ModuleGraph {
    type V = ModuleGraphView;

    closed spec fn view(&self) -> ModuleGraphView {
        ModuleGraphView {
            modules: self.modules@.map_values(|m: Module| m@),
            edges: self.edges@.map_values(|e: ModuleGraphEdge| e@),
            entries: self.entries@.map_values(|p: (ModuleId, String)| (p.0@, p.1@)),
        }
    }
}

impl ModuleGraph {
    /// Internal consistency: node identities are unique, each importing pair
    /// has at most one edge, every edge references only existing nodes and
    /// carries at least one item, and entry bindings are keyed uniquely.
    pub open spec fn wf(self) -> bool {
        &&& forall|i: int, j: int|
            #![trigger self@.modules[i].id, self@.modules[j].id]
            0 <= i < j < self@.modules.len() ==> self@.modules[i].id != self@.modules[j].id
        &&& forall|i: int, j: int|
            #![trigger self@.edges[i].importer, self@.edges[j].importer]
            0 <= i < j < self@.edges.len() ==> !(self@.edges[i].importer == self@.edges[j].importer
                && self@.edges[i].dependency == self@.edges[j].dependency)
        &&& forall|i: int|
            0 <= i < self@.edges.len() ==> has_mid(self@.modules, #[trigger] self@.edges[i].importer)
                && has_mid(self@.modules, self@.edges[i].dependency) && self@.edges[i].items.len()
                > 0
        &&& forall|i: int, j: int|
            0 <= i < j < self@.entries.len() ==> (#[trigger] self@.entries[i]).0 != (
            #[trigger] self@.entries[j]).0
    }

    /// An empty graph.
    pub fn new() -> (g: ModuleGraph)
        ensures
            g.wf(),
            g@.modules == Seq::<ModuleView>::empty(),
            g@.edges == Seq::<ModuleGraphEdgeView>::empty(),
            g@.entries == Seq::<(ModuleIdView, Seq<char>)>::empty(),
    {
        let g = ModuleGraph { modules: Vec::new(), edges: Vec::new(), entries: Vec::new() };
        proof {
            assert(g@.modules =~= Seq::<ModuleView>::empty());
            assert(g@.edges =~= Seq::<ModuleGraphEdgeView>::empty());
            assert(g@.entries =~= Seq::<(ModuleIdView, Seq<char>)>::empty());
        }
        g
    }

    /// Whether a node with this identity is already present.
    #[verifier::loop_isolation(false)]
    pub fn has_module(&self, id: &ModuleId) -> (r: bool)
        ensures
            r == has_mid(self@.modules, id@),
    {
        let mut i: usize = 0;
        while i < self.modules.len()
            invariant
                i <= self.modules.len(),
                forall|j: int| 0 <= j < i ==> self@.modules[j].id != id@,
            decreases self.modules.len() - i,
        {
            if self.modules[i].id.same_id(id) {
                proof {
                    assert(self@.modules[i as int] == self.modules@[i as int]@);
                    assert(self@.modules[i as int].id == id@);
                }
                return true;
            }
            i = i + 1;
        }
        false
    }

    /// The node with this identity, if present.
    #[verifier::loop_isolation(false)]
    pub fn get_module(&self, id: &ModuleId) -> (r: Option<&Module>)
        ensures
            match r {
                Some(m) => has_mid(self@.modules, id@) && exists|i: int|
                    0 <= i < self@.modules.len() && self@.modules[i].id == id@ && m@
                        == self@.modules[i],
                None => !has_mid(self@.modules, id@),
            },
    {
        let mut i: usize = 0;
        while i < self.modules.len()
            invariant
                i <= self.modules.len(),
                forall|j: int| 0 <= j < i ==> self@.modules[j].id != id@,
            decreases self.modules.len() - i,
        {
            if self.modules[i].id.same_id(id) {
                proof {
                    assert(self@.modules[i as int] == self.modules@[i as int]@);
                    assert(self@.modules[i as int].id == id@);
                }
                return Some(&self.modules[i]);
            }
            i = i + 1;
        }
        None
    }

    /// The node at the given position, for walking the finished graph.
    pub fn module_at(&self, i: usize) -> (m: &Module)
        requires
            i < self@.modules.len(),
        ensures
            m@ == self@.modules[i as int],
    {
        &self.modules[i]
    }

    /// The number of nodes.
    pub fn module_count(&self) -> (n: usize)
        ensures
            n == self@.modules.len(),
    {
        self.modules.len()
    }

    /// Inserts a new node. The identity must not be claimed yet.
    pub fn add_module(&mut self, m: Module)
        requires
            old(self).wf(),
            !has_mid(old(self)@.modules, m.id@),
        ensures
            final(self).wf(),
            final(self)@.modules == old(self)@.modules.push(m@),
            final(self)@.edges == old(self)@.edges,
            final(self)@.entries == old(self)@.entries,
    {
        self.modules.push(m);
        proof {
            assert(self@.modules =~= old(self)@.modules.push(m@));
            assert(self@.edges =~= old(self)@.edges);
            assert(self@.entries =~= old(self)@.entries);
            assert forall|i: int|
                0 <= i < self@.edges.len() implies has_mid(
                self@.modules,
                #[trigger] self@.edges[i].importer,
            ) && has_mid(self@.modules, self@.edges[i].dependency) by {
                let wi = choose|k: int|
                    0 <= k < old(self)@.modules.len() && old(self)@.modules[k].id == old(self)@.edges[i].importer;
                assert(self@.modules[wi].id == self@.edges[i].importer);
                let wd = choose|k: int|
                    0 <= k < old(self)@.modules.len() && old(self)@.modules[k].id == old(self)@.edges[i].dependency;
                assert(self@.modules[wd].id == self@.edges[i].dependency);
            }
        }
    }

    /// Wholesale overwrite of the node that already carries this identity,
    /// used to upgrade a placeholder without touching the edges that point
    /// at it.
    #[verifier::loop_isolation(false)]
    pub fn replace_module(&mut self, m: Module)
        requires
            old(self).wf(),
            has_mid(old(self)@.modules, m.id@),
        ensures
            final(self).wf(),
            exists|i: int|
                0 <= i < old(self)@.modules.len() && old(self)@.modules[i].id == m.id@
                    && final(self)@.modules == old(self)@.modules.update(i, m@),
            final(self)@.edges == old(self)@.edges,
            final(self)@.entries == old(self)@.entries,
            forall|x: ModuleIdView| has_mid(final(self)@.modules, x) == has_mid(old(self)@.modules, x),
    {
        let mut i: usize = 0;
        while i < self.modules.len()
            invariant
                i <= self.modules.len(),
                self == old(self),
                forall|j: int| 0 <= j < i ==> self@.modules[j].id != m.id@,
                has_mid(self@.modules, m.id@),
            decreases self.modules.len() - i,
        {
            if self.modules[i].id.same_id(&m.id) {
                self.modules.set(i, m);
                proof {
                    assert(self.modules@ == old(self).modules@.update(i as int, m));
                    assert(self@.modules =~= old(self)@.modules.update(i as int, m@));
                    assert(self@.edges =~= old(self)@.edges);
                    assert(self@.entries =~= old(self)@.entries);
                    assert(forall|k: int|
                        0 <= k < self@.modules.len() ==> (#[trigger] self@.modules[k]).id
                            == old(self)@.modules[k].id);
                    assert forall|x: ModuleIdView| has_mid(self@.modules, x) == has_mid(
                        old(self)@.modules,
                        x,
                    ) by {
                        if has_mid(old(self)@.modules, x) {
                            let w = choose|k: int|
                                0 <= k < old(self)@.modules.len() && old(self)@.modules[k].id == x;
                            assert(self@.modules[w].id == x);
                        }
                        if has_mid(self@.modules, x) {
                            let w = choose|k: int|
                                0 <= k < self@.modules.len() && self@.modules[k].id == x;
                            assert(old(self)@.modules[w].id == x);
                        }
                    }
                    assert forall|p: int, q: int|
                        0 <= p < q < self@.modules.len() implies (
                    #[trigger] self@.modules[p]).id != (#[trigger] self@.modules[q]).id by {
                        assert(self@.modules[p].id == old(self)@.modules[p].id);
                        assert(self@.modules[q].id == old(self)@.modules[q].id);
                    }
                    assert(self.wf());
                }
                return ;
            }
            i = i + 1;
        }
        proof {
            assert(false);
        }
    }

    /// Records or updates the entry binding for a module.
    #[verifier::loop_isolation(false)]
    pub fn set_entry(&mut self, id: &ModuleId, name: &String)
        requires
            old(self).wf(),
        ensures
            final(self).wf(),
            final(self)@.modules == old(self)@.modules,
            final(self)@.edges == old(self)@.edges,
            entries_upserted(old(self)@.entries, final(self)@.entries, id@, name@),
    {
        let mut i: usize = 0;
        while i < self.entries.len()
            invariant
                i <= self.entries.len(),
                self == old(self),
                forall|j: int| 0 <= j < i ==> (#[trigger] self@.entries[j]).0 != id@,
            decreases self.entries.len() - i,
        {
            if self.entries[i].0.same_id(id) {
                proof {
                    assert(old(self)@.entries[i as int].0 == id@);
                }
                self.entries.set(i, (id.clone(), name.clone()));
                proof {
                    assert(self@.entries =~= old(self)@.entries.update(i as int, (id@, name@)));
                    assert(self@.modules =~= old(self)@.modules);
                    assert(self@.edges =~= old(self)@.edges);
                    assert(forall|k: int|
                        0 <= k < self@.entries.len() ==> (#[trigger] self@.entries[k]).0
                            == old(self)@.entries[k].0);
                    assert forall|p: int, q: int|
                        0 <= p < q < self@.entries.len() implies (
                    #[trigger] self@.entries[p]).0 != (#[trigger] self@.entries[q]).0 by {
                        assert(self@.entries[p].0 == old(self)@.entries[p].0);
                        assert(self@.entries[q].0 == old(self)@.entries[q].0);
                    }
                    assert(self.wf());
                }
                return ;
            }
            i = i + 1;
        }
        self.entries.push((id.clone(), name.clone()));
        proof {
            assert(self@.entries =~= old(self)@.entries.push((id@, name@)));
            assert(self@.modules =~= old(self)@.modules);
            assert(self@.edges =~= old(self)@.edges);
        }
    }

    /// The entry name bound to a module, if any.
    #[verifier::loop_isolation(false)]
    pub fn entry_name_of(&self, id: &ModuleId) -> (r: Option<&String>)
        ensures
            match r {
                Some(name) => exists|i: int|
                    0 <= i < self@.entries.len() && (#[trigger] self@.entries[i]) == (id@, name@),
                None => forall|i: int|
                    0 <= i < self@.entries.len() ==> (#[trigger] self@.entries[i]).0 != id@,
            },
    {
        let mut i: usize = 0;
        while i < self.entries.len()
            invariant
                i <= self.entries.len(),
                forall|j: int| 0 <= j < i ==> (#[trigger] self@.entries[j]).0 != id@,
            decreases self.entries.len() - i,
        {
            if self.entries[i].0.same_id(id) {
                proof {
                    assert(self@.entries[i as int] == (
                        self.entries@[i as int].0@,
                        self.entries@[i as int].1@,
                    ));
                    assert(self@.entries[i as int].0 == id@);
                }
                return Some(&self.entries[i].1);
            }
            i = i + 1;
        }
        None
    }

    /// The number of entry bindings.
    pub fn entry_count(&self) -> (n: usize)
        ensures
            n == self@.entries.len(),
    {
        self.entries.len()
    }

    /// The items of the edge between the pair, if that edge exists.
    #[verifier::loop_isolation(false)]
    pub fn edge_items(&self, importer: &ModuleId, dependency: &ModuleId) -> (r: Option<
        &Vec<EdgeItem>,
    >)
        ensures
            match r {
                Some(items) => exists|i: int|
                    0 <= i < self@.edges.len() && (#[trigger] self@.edges[i]).importer == importer@
                        && self@.edges[i].dependency == dependency@ && items@.map_values(
                        |it: EdgeItem| it@,
                    ) == self@.edges[i].items,
                None => !has_pair(self@.edges, importer@, dependency@),
            },
    {
        let mut i: usize = 0;
        while i < self.edges.len()
            invariant
                i <= self.edges.len(),
                forall|j: int|
                    0 <= j < i ==> !((#[trigger] self@.edges[j]).importer == importer@
                        && self@.edges[j].dependency == dependency@),
            decreases self.edges.len() - i,
        {
            if self.edges[i].importer.same_id(importer) && self.edges[i].dependency.same_id(
                dependency,
            ) {
                proof {
                    assert(self@.edges[i as int] == self.edges@[i as int]@);
                    assert(self@.edges[i as int].importer == importer@);
                    assert(self@.edges[i as int].dependency == dependency@);
                    assert(self.edges@[i as int].items@.map_values(|it: EdgeItem| it@) =~= self@.edges[
                        i as int
                    ].items);
                }
                return Some(&self.edges[i].items);
            }
            i = i + 1;
        }
        None
    }

    /// The number of edges (importing pairs).
    pub fn edge_count(&self) -> (n: usize)
        ensures
            n == self@.edges.len(),
    {
        self.edges.len()
    }

    /// Appends one item to the edge between the pair, creating the edge if
    /// it is absent. Both endpoints must already be nodes of the graph.
    #[verifier::loop_isolation(false)]
    pub fn add_edge_item(&mut self, importer: &ModuleId, dependency: &ModuleId, item: EdgeItem)
        requires
            old(self).wf(),
            has_mid(old(self)@.modules, importer@),
            has_mid(old(self)@.modules, dependency@),
        ensures
            final(self).wf(),
            final(self)@.modules == old(self)@.modules,
            final(self)@.entries == old(self)@.entries,
            edge_item_added(old(self)@.edges, final(self)@.edges, importer@, dependency@, item@),
    {
        let mut i: usize = 0;
        while i < self.edges.len()
            invariant
                i <= self.edges.len(),
                self == old(self),
                forall|j: int|
                    0 <= j < i ==> !((#[trigger] self@.edges[j]).importer == importer@
                        && self@.edges[j].dependency == dependency@),
            decreases self.edges.len() - i,
        {
            if self.edges[i].importer.same_id(importer) && self.edges[i].dependency.same_id(
                dependency,
            ) {
                let ghost olde = self@.edges[i as int];
                proof {
                    assert(old(self)@.edges[i as int] == self.edges@[i as int]@);
                    assert(old(self)@.edges[i as int].importer == importer@);
                    assert(old(self)@.edges[i as int].dependency == dependency@);
                }
                let edge = &mut self.edges[i];
                edge.items.push(item);
                proof {
                    assert(self@.edges[i as int].items =~= olde.items.push(item@));
                    assert(self@.edges[i as int] =~= ModuleGraphEdgeView {
                        importer: importer@,
                        dependency: dependency@,
                        items: olde.items.push(item@),
                    });
                    assert(self@.edges =~= old(self)@.edges.update(
                        i as int,
                        ModuleGraphEdgeView {
                            importer: importer@,
                            dependency: dependency@,
                            items: olde.items.push(item@),
                        },
                    ));
                    assert(self@.modules =~= old(self)@.modules);
                    assert(self@.entries =~= old(self)@.entries);
                    assert(has_pair(old(self)@.edges, importer@, dependency@));
                    assert(forall|k: int|
                        0 <= k < self@.edges.len() ==> (#[trigger] self@.edges[k]).importer
                            == old(self)@.edges[k].importer && self@.edges[k].dependency
                            == old(self)@.edges[k].dependency);
                    assert forall|p: int, q: int|
                        #![trigger self@.edges[p].importer, self@.edges[q].importer]
                        0 <= p < q < self@.edges.len() implies !(self@.edges[p].importer
                        == self@.edges[q].importer && self@.edges[p].dependency
                        == self@.edges[q].dependency) by {
                        assert(self@.edges[p].importer == old(self)@.edges[p].importer);
                        assert(self@.edges[q].importer == old(self)@.edges[q].importer);
                    }
                    assert forall|k: int| 0 <= k < self@.edges.len() implies has_mid(
                        self@.modules,
                        (#[trigger] self@.edges[k]).importer,
                    ) && has_mid(self@.modules, self@.edges[k].dependency)
                        && self@.edges[k].items.len() > 0 by {
                        if k != i {
                            assert(self@.edges[k] == old(self)@.edges[k]);
                        }
                    }
                    assert(self.wf());
                }
                return ;
            }
            i = i + 1;
        }
        self.edges.push(
            ModuleGraphEdge {
                importer: importer.clone(),
                dependency: dependency.clone(),
                items: vec![item],
            },
        );
        proof {
            assert(self@.edges.last().items =~= seq![item@]);
            assert(self@.edges.last() =~= ModuleGraphEdgeView {
                importer: importer@,
                dependency: dependency@,
                items: seq![item@],
            });
            assert(self@.edges =~= old(self)@.edges.push(
                ModuleGraphEdgeView {
                    importer: importer@,
                    dependency: dependency@,
                    items: seq![item@],
                },
            ));
            assert(self@.modules =~= old(self)@.modules);
            assert(self@.entries =~= old(self)@.entries);
            assert(!has_pair(old(self)@.edges, importer@, dependency@));
            assert forall|p: int, q: int|
                #![trigger self@.edges[p].importer, self@.edges[q].importer]
                0 <= p < q < self@.edges.len() implies !(self@.edges[p].importer
                == self@.edges[q].importer && self@.edges[p].dependency
                == self@.edges[q].dependency) by {
                assert(self@.edges[p] == old(self)@.edges[p]);
                if q < old(self)@.edges.len() {
                    assert(self@.edges[q] == old(self)@.edges[q]);
                } else {
                    assert(!(old(self)@.edges[p].importer == importer@
                        && old(self)@.edges[p].dependency == dependency@));
                }
            }
            assert forall|k: int| 0 <= k < self@.edges.len() implies has_mid(
                self@.modules,
                (#[trigger] self@.edges[k]).importer,
            ) && has_mid(self@.modules, self@.edges[k].dependency) && self@.edges[k].items.len()
                > 0 by {
                if k < old(self)@.edges.len() {
                    assert(self@.edges[k] == old(self)@.edges[k]);
                }
            }
            assert(self.wf());
        }
    }
}

} // verus!
