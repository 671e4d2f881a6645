//! Module identity and the module record itself.

use vstd::prelude::*;
use vstd::string::StringExecFns;

verus! {

/// Stable identity of a module: the resolved path plus the canonicalized
/// query string. Two resolutions that agree on both always yield the same
/// identity, whatever importer requested them; this is what makes
/// deduplication possible.
pub struct ModuleId {
    pub relative_path: String,
    pub query_string: String,
}

/// Mathematical value of a `ModuleId`.
#[verifier::ext_equal]
pub struct ModuleIdView {
    pub relative_path: Seq<char>,
    pub query_string: Seq<char>,
}

impl View for ModuleId {
    type V = ModuleIdView;

    open spec fn view(&self) -> ModuleIdView {
        ModuleIdView { relative_path: self.relative_path@, query_string: self.query_string@ }
    }
}

impl ModuleId {
    pub fn new(resolved_path: &str, query_string: &str) -> (id: ModuleId)
        ensures
            id@.relative_path == resolved_path@,
            id@.query_string == query_string@,
    {
        ModuleId { relative_path: resolved_path.to_owned(), query_string: query_string.to_owned() }
    }

    /// Identity comparison; equal exactly when path and query agree.
    pub fn same_id(&self, other: &ModuleId) -> (r: bool)
        ensures
            r == (self@ == other@),
    {
        let r = self.relative_path == other.relative_path
            && self.query_string == other.query_string;
        proof {
            if r {
                assert(self@ =~= other@);
            }
        }
        r
    }
}

impl Clone for ModuleId {
    fn clone(&self) -> (res: Self)
        ensures
            res@ == self@,
    {
        let res = ModuleId {
            relative_path: self.relative_path.clone(),
            query_string: self.query_string.clone(),
        };
        proof {
            assert(res@ =~= self@);
        }
        res
    }
}

/// Canonical textual form of a query parameter list: empty for no
/// parameters, else `?k0=v0&k1=v1&...` in the given order.
pub open spec fn stringify_query_spec(q: Seq<(Seq<char>, Seq<char>)>) -> Seq<char>
    decreases q.len(),
{
    if q.len() == 0 {
        Seq::<char>::empty()
    } else {
        stringify_query_spec(q.drop_last()) + seq![
            (if q.len() == 1 {
                '?'
            } else {
                '&'
            }),
        ] + q.last().0 + seq!['='] + q.last().1
    }
}

/// Spec-level value of a query parameter list.
pub open spec fn query_view(q: Seq<(String, String)>) -> Seq<(Seq<char>, Seq<char>)> {
    q.map_values(|p: (String, String)| (p.0@, p.1@))
}

/// Turns query parameters into their canonical string form.
pub fn stringify_query(query: &Vec<(String, String)>) -> (s: String)
    ensures
        s@ == stringify_query_spec(query_view(query@)),
{
    let ghost qv = query_view(query@);
    let mut s = String::new();
    let mut i: usize = 0;
    proof {
        assert(qv.take(0) =~= Seq::<(Seq<char>, Seq<char>)>::empty());
    }
    while i < query.len()
        invariant
            i <= query.len(),
            qv == query_view(query@),
            qv.len() == query@.len(),
            s@ == stringify_query_spec(qv.take(i as int)),
        decreases query.len() - i,
    {
        if i == 0 {
            s.append("?");
        } else {
            s.append("&");
        }
        s.append(query[i].0.as_str());
        s.append("=");
        s.append(query[i].1.as_str());
        proof {
            reveal_strlit("?");
            reveal_strlit("&");
            reveal_strlit("=");
            assert(qv.take(i + 1).drop_last() =~= qv.take(i as int));
            assert(qv.take(i + 1).last() == (query@[i as int].0@, query@[i as int].1@));
            assert(s@ =~= stringify_query_spec(qv.take(i + 1)));
        }
        i = i + 1;
    }
    proof {
        assert(qv.take(qv.len() as int) =~= qv);
    }
    s
}

/// How an import was requested: as a user-named entry, a static import or a
/// dynamic import.
pub enum ResolveKind {
    Entry(String),
    Import,
    DynamicImport,
}

/// Mathematical value of a `ResolveKind`.
pub enum ResolveKindView {
    Entry(Seq<char>),
    Import,
    DynamicImport,
}

impl View for ResolveKind {
    type V = ResolveKindView;

    open spec fn view(&self) -> ResolveKindView {
        match self {
            ResolveKind::Entry(name) => ResolveKindView::Entry(name@),
            ResolveKind::Import => ResolveKindView::Import,
            ResolveKind::DynamicImport => ResolveKindView::DynamicImport,
        }
    }
}

impl Clone for ResolveKind {
    fn clone(&self) -> (res: Self)
        ensures
            res@ == self@,
    {
        match self {
            ResolveKind::Entry(name) => ResolveKind::Entry(name.clone()),
            ResolveKind::Import => ResolveKind::Import,
            ResolveKind::DynamicImport => ResolveKind::DynamicImport,
        }
    }
}

/// One import declared by a module, as the parse stage reports it:
/// the literal source text and the kind of request.
pub struct DependencyDescriptor {
    pub source: String,
    pub kind: ResolveKind,
}

/// Mathematical value of a `DependencyDescriptor`.
#[verifier::ext_equal]
pub struct DependencyDescriptorView {
    pub source: Seq<char>,
    pub kind: ResolveKindView,
}

impl View for DependencyDescriptor {
    type V = DependencyDescriptorView;

    open spec fn view(&self) -> DependencyDescriptorView {
        DependencyDescriptorView { source: self.source@, kind: self.kind@ }
    }
}

impl Clone for DependencyDescriptor {
    fn clone(&self) -> (res: Self)
        ensures
            res@ == self@,
    {
        let res = DependencyDescriptor { source: self.source.clone(), kind: self.kind.clone() };
        proof {
            assert(res@ =~= self@);
        }
        res
    }
}

/// Syntactic class of a module's content.
#[derive(Clone, Copy, Debug, PartialEq, Eq, Structural)]
pub enum ModuleType {
    Js,
    Css,
    Html,
    Asset,
}

/// Content hash of a module: unset on a placeholder, a fixed sentinel for
/// immutable modules, else a digest of the transformed content.
#[derive(Clone, Copy, Debug, PartialEq, Eq, Structural)]
pub enum ContentHash {
    Unset,
    Immutable,
    Digest(u64),
}

/// Metadata produced by parsing a module, including the imports it declares.
/// The post-parse processing hook may rewrite it in place.
pub struct ModuleMetaData {
    pub deps: Vec<DependencyDescriptor>,
}

/// Mathematical value of `ModuleMetaData`.
#[verifier::ext_equal]
pub struct ModuleMetaDataView {
    pub deps: Seq<DependencyDescriptorView>,
}

impl View for ModuleMetaData {
    type V = ModuleMetaDataView;

    open spec fn view(&self) -> ModuleMetaDataView {
        ModuleMetaDataView { deps: self.deps@.map_values(|d: DependencyDescriptor| d@) }
    }
}

impl Clone for ModuleMetaData {
    fn clone(&self) -> (res: Self)
        ensures
            res@ == self@,
    {
        let res = ModuleMetaData { deps: self.deps.clone() };
        proof {
            assert forall|i: int| 0 <= i < self.deps@.len() implies res.deps@[i]@ == self.deps@[i]@
            by {
                assert(cloned(self.deps@[i], res.deps@[i]));
            }
            assert(res@.deps =~= self@.deps);
            assert(res@ =~= self@);
        }
        res
    }
}

/// One node of the module graph. Created as a placeholder holding only its
/// identity the instant the identity is claimed, then populated in place by
/// the build pipeline, or replaced wholesale when a cache lookup supplies
/// fresher data.
pub struct Module {
    pub id: ModuleId,
    pub content: Vec<u8>,
    pub content_hash: ContentHash,
    pub last_update_timestamp: u64,
    pub module_type: ModuleType,
    pub size: usize,
    pub external: bool,
    pub immutable: bool,
    pub side_effects: bool,
    pub source_map_chain: Vec<String>,
    pub meta: ModuleMetaData,
}

/// Mathematical value of a `Module`.
#[verifier::ext_equal]
pub struct ModuleView {
    pub id: ModuleIdView,
    pub content: Seq<u8>,
    pub content_hash: ContentHash,
    pub last_update_timestamp: u64,
    pub module_type: ModuleType,
    pub size: usize,
    pub external: bool,
    pub immutable: bool,
    pub side_effects: bool,
    pub source_map_chain: Seq<Seq<char>>,
    pub meta: ModuleMetaDataView,
}

impl View for Module {
    type V = ModuleView;

    open spec fn view(&self) -> ModuleView {
        ModuleView {
            id: self.id@,
            content: self.content@,
            content_hash: self.content_hash,
            last_update_timestamp: self.last_update_timestamp,
            module_type: self.module_type,
            size: self.size,
            external: self.external,
            immutable: self.immutable,
            side_effects: self.side_effects,
            source_map_chain: self.source_map_chain@.map_values(|s: String| s@),
            meta: self.meta@,
        }
    }
}

impl Module {
    /// A bare placeholder for the given identity: no content, no metadata,
    /// every flag off.
    pub fn new(id: ModuleId) -> (m: Module)
        ensures
            m@.id == id@,
            m@.content == Seq::<u8>::empty(),
            m@.content_hash == ContentHash::Unset,
            m@.last_update_timestamp == 0,
            m@.module_type == ModuleType::Js,
            m@.size == 0,
            !m@.external,
            !m@.immutable,
            !m@.side_effects,
            m@.source_map_chain == Seq::<Seq<char>>::empty(),
            m@.meta.deps == Seq::<DependencyDescriptorView>::empty(),
    {
        let m = Module {
            id,
            content: Vec::new(),
            content_hash: ContentHash::Unset,
            last_update_timestamp: 0,
            module_type: ModuleType::Js,
            size: 0,
            external: false,
            immutable: false,
            side_effects: false,
            source_map_chain: Vec::new(),
            meta: ModuleMetaData { deps: Vec::new() },
        };
        proof {
            assert(m@.content =~= Seq::<u8>::empty());
            assert(m@.source_map_chain =~= Seq::<Seq<char>>::empty());
            assert(m@.meta.deps =~= Seq::<DependencyDescriptorView>::empty());
        }
        m
    }
}

impl Clone for Module {
    fn clone(&self) -> (res: Self)
        ensures
            res@ == self@,
    {
        let res = Module {
            id: self.id.clone(),
            content: self.content.clone(),
            content_hash: self.content_hash,
            last_update_timestamp: self.last_update_timestamp,
            module_type: self.module_type,
            size: self.size,
            external: self.external,
            immutable: self.immutable,
            side_effects: self.side_effects,
            source_map_chain: clone_strings(&self.source_map_chain),
            meta: self.meta.clone(),
        };
        proof {
            assert forall|i: int| 0 <= i < self.content@.len() implies res.content@[i]
                == self.content@[i] by {
                assert(cloned(self.content@[i], res.content@[i]));
            }
            assert(res.content@ =~= self.content@);
            assert(res@ =~= self@);
        }
        res
    }
}

/// Clones a byte buffer, keeping its contents.
pub fn clone_bytes(v: &Vec<u8>) -> (res: Vec<u8>)
    ensures
        res@ == v@,
{
    let res = v.clone();
    proof {
        assert forall|i: int| 0 <= i < v@.len() implies res@[i] == v@[i] by {
            assert(cloned(v@[i], res@[i]));
        }
        assert(res@ =~= v@);
    }
    res
}

/// Clones a list of strings, keeping every element's characters.
pub fn clone_strings(v: &Vec<String>) -> (res: Vec<String>)
    ensures
        res@.map_values(|s: String| s@) == v@.map_values(|s: String| s@),
{
    let mut res: Vec<String> = Vec::new();
    let mut i: usize = 0;
    while i < v.len()
        invariant
            i <= v.len(),
            res@.len() == i,
            forall|j: int| 0 <= j < i ==> res@[j]@ == v@[j]@,
        decreases v.len() - i,
    {
        res.push(v[i].clone());
        i = i + 1;
    }
    proof {
        assert(res@.map_values(|s: String| s@) =~= v@.map_values(|s: String| s@));
    }
    res
}

/// Offset basis of the 64-bit FNV-1a digest.
pub const FNV_OFFSET_BASIS: u64 = 0xcbf29ce484222325;

/// Multiplier of the 64-bit FNV-1a digest.
pub const FNV_PRIME: u64 = 0x100000001b3;

/// One round of FNV-1a: fold a byte into the running digest.
pub open spec fn fnv1a_step(h: u64, b: u8) -> u64 {
    (((h ^ (b as u64)) as nat * FNV_PRIME as nat) % 0x1_0000_0000_0000_0000nat) as u64
}

/// 64-bit FNV-1a digest of a byte sequence.
pub open spec fn fnv1a(bytes: Seq<u8>) -> u64
    decreases bytes.len(),
{
    if bytes.len() == 0 {
        FNV_OFFSET_BASIS
    } else {
        fnv1a_step(fnv1a(bytes.drop_last()), bytes.last())
    }
}

/// Digest of a module's transformed content, used by the content-hash cache
/// strategy as an equality proxy for the content itself.
pub fn content_hash_of(content: &Vec<u8>) -> (h: ContentHash)
    ensures
        h == ContentHash::Digest(fnv1a(content@)),
{
    let mut h: u64 = FNV_OFFSET_BASIS;
    let mut i: usize = 0;
    proof {
        assert(content@.take(0) =~= Seq::<u8>::empty());
    }
    while i < content.len()
        invariant
            i <= content.len(),
            h == fnv1a(content@.take(i as int)),
        decreases content.len() - i,
    {
        h = (h ^ (content[i] as u64)).wrapping_mul(FNV_PRIME);
        proof {
            assert(content@.take(i + 1).drop_last() =~= content@.take(i as int));
            assert(content@.take(i + 1).last() == content@[i as int]);
        }
        i = i + 1;
    }
    proof {
        assert(content@.take(content@.len() as int) =~= content@);
    }
    ContentHash::Digest(h)
}

/// Module identity is a function of resolved path and query alone: two
/// resolutions that agree on both yield the same identity, whatever
/// importer requested them.
pub proof fn lemma_module_id_deterministic(a: ModuleIdView, b: ModuleIdView)
    requires
        a.relative_path == b.relative_path,
        a.query_string == b.query_string,
    ensures
        a == b,
{
    assert(a =~= b);
}

} // verus!
