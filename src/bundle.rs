use vstd::prelude::*;

use crate::archetype::{
    lemma_signature_identifies, signature, AddBundle, Archetype, ArchetypeId, Archetypes, ComponentStatus,
};
use crate::component::{ComponentId, ComponentInfo, Components, StorageType};
use crate::signature::{
    index_contents, lemma_raw_ids_injective, lemma_sorted_set_unique, raw_ids, signature_index_get, signature_index_insert,
    signature_index_new, sorted_unique, strictly_sorted, to_raw, SignatureIndex,
};
use crate::sparse_set::SparseSetIndex;
use crate::table::{TableId, Tables};

verus! {

/// Handle to one registered bundle: an ordered set of component types requested together.
#[derive(Debug, Clone, Copy, PartialEq, Eq, Structural, Hash)]
pub struct BundleId(pub usize);

impl BundleId {
    pub fn index(self) -> (r: usize)
        ensures
            r == self.0,
    {
        self.0
    }
}

impl SparseSetIndex for BundleId {
    open spec fn spec_index(&self) -> usize {
        self.0
    }

    open spec fn spec_fits(value: usize) -> bool {
        true
    }

    fn sparse_set_index(&self) -> (r: usize) {
        self.0
    }

    fn get_sparse_set_index(value: usize) -> (r: BundleId) {
        BundleId(value)
    }
}

/// A registered bundle: its id and its component types, in order, each once.
pub struct BundleInfo {
    id: BundleId,
    component_ids: Vec<ComponentId>,
}

/// The storage kind that the registry gives to `c`.
pub open spec fn kind_of(infos: Seq<ComponentInfo>, c: ComponentId) -> StorageType {
    infos[c.0 as int].descriptor.storage_type
}

/// The components of `ids` that the registry stores with kind `kind`.
pub open spec fn of_kind(ids: Seq<ComponentId>, infos: Seq<ComponentInfo>, kind: StorageType) -> Set<ComponentId> {
    ids.to_set().filter(|c: ComponentId| kind_of(infos, c) == kind)
}

/// The signature reached by adding the components `ids` to archetype `a`.
pub open spec fn added_signature(a: Archetype, ids: Seq<ComponentId>, infos: Seq<ComponentInfo>) -> (
    Set<ComponentId>,
    Set<ComponentId>,
) {
    (
        a.table_ids().to_set().union(of_kind(ids, infos, StorageType::Table)),
        a.sparse_ids().to_set().union(of_kind(ids, infos, StorageType::SparseSet)),
    )
}

/// For each component of `ids`: overwritten if `a` already has it, else added.
pub open spec fn bundle_statuses(a: Archetype, ids: Seq<ComponentId>) -> Seq<ComponentStatus> {
    ids.map_values(|c: ComponentId| if a.has_component(c) {
        ComponentStatus::Mutated
    } else {
        ComponentStatus::Add
    })
}

/// A component that occurs twice in `ids`, if any: repeating a component in a bundle is a
/// programmer error that registration reports.
pub fn first_duplicate(ids: &[ComponentId]) -> (r: Option<ComponentId>)
    ensures
        r.is_none() <==> ids@.no_duplicates(),
        r matches Some(c) ==> exists|i: int, j: int| 0 <= i < j < ids@.len() && ids@[i] == c && ids@[j] == c,
{
    let n = ids.len();
    let mut j: usize = 0;
    while j < n
        invariant
            j <= n,
            n == ids@.len(),
            forall|a: int, b: int| 0 <= a < b < j ==> ids@[a] != ids@[b],
        decreases n - j,
    {
        let mut i: usize = 0;
        while i < j
            invariant
                i <= j < n,
                n == ids@.len(),
                forall|a: int| 0 <= a < i ==> ids@[a] != ids@[j as int],
            decreases j - i,
        {
            if ids[i] == ids[j] {
                return Some(ids[j]);
            }
            i = i + 1;
        }
        j = j + 1;
    }
    proof {
        assert forall|a: int, b: int| 0 <= a < ids@.len() && 0 <= b < ids@.len() && a != b implies ids@[a] != ids@[b] by {
            if a > b {
                assert(ids@[b] != ids@[a]);
            }
        }
    }
    None
}

impl BundleInfo {
    pub closed spec fn spec_id(&self) -> BundleId {
        self.id
    }

    /// The component types, in order.
    pub closed spec fn ids(&self) -> Seq<ComponentId> {
        self.component_ids@
    }

    /// A bundle of `component_ids`, which must not repeat a component.
    pub fn new(component_ids: Vec<ComponentId>, id: BundleId) -> (r: BundleInfo)
        requires
            component_ids@.no_duplicates(),
        ensures
            r.spec_id() == id,
            r.ids() == component_ids@,
    {
        BundleInfo { id, component_ids }
    }

    pub fn id(&self) -> (r: BundleId)
        ensures
            r == self.spec_id(),
    {
        self.id
    }

    pub fn components(&self) -> (r: &[ComponentId])
        ensures
            r@ == self.ids(),
    {
        self.component_ids.as_slice()
    }
}

/// The registry of bundles, by id.
pub struct Bundles {
    bundle_infos: Vec<BundleInfo>,
    dynamic_bundle_ids: SignatureIndex,
}

impl Bundles {
    /// The bundles, by id.
    pub closed spec fn infos(&self) -> Seq<BundleInfo> {
        self.bundle_infos@
    }

    /// The lookup from component lists to bundles agrees with the bundles.
    pub closed spec fn index_ok(&self) -> bool {
        forall|k: (Seq<usize>, Seq<usize>)| #[trigger] index_contents(&self.dynamic_bundle_ids).contains_key(k) ==> {
            let v = index_contents(&self.dynamic_bundle_ids)[k];
            &&& v < self.bundle_infos@.len()
            &&& k == (raw_ids(self.bundle_infos@[v as int].ids()), Seq::<usize>::empty())
        }
    }

    pub open spec fn wf(&self, components: Seq<ComponentInfo>) -> bool {
        &&& self.index_ok()
        &&& self.infos().len() <= usize::MAX
        &&& forall|b: int| 0 <= b < self.infos().len() ==> {
            &&& (#[trigger] self.infos()[b]).spec_id().0 == b
            &&& self.infos()[b].ids().no_duplicates()
            &&& forall|k: int| 0 <= k < self.infos()[b].ids().len() ==> (#[trigger] self.infos()[b].ids()[k]).0 < components.len()
        }
    }

    pub fn new() -> (r: Bundles)
        ensures
            r.infos().len() == 0,
            r.index_ok(),
    {
        Bundles { bundle_infos: Vec::new(), dynamic_bundle_ids: signature_index_new() }
    }

    pub fn get(&self, bundle_id: BundleId) -> (r: Option<&BundleInfo>)
        ensures
            r == (if bundle_id.0 < self.infos().len() {
                Some(&self.infos()[bundle_id.0 as int])
            } else {
                None
            }),
    {
        if bundle_id.0 < self.bundle_infos.len() {
            Some(&self.bundle_infos[bundle_id.0])
        } else {
            None
        }
    }

    pub fn len(&self) -> (r: usize)
        ensures
            r == self.infos().len(),
    {
        self.bundle_infos.len()
    }

    /// The bundle of `component_ids`, which must all be registered and must not repeat: the
    /// bundle registered earlier with the same list, else a new one.
    pub fn init_dynamic_info(&mut self, components: &Components, component_ids: &[ComponentId]) -> (r: BundleId)
        requires
            old(self).wf(components.infos()),
            forall|k: int| 0 <= k < component_ids@.len() ==> (#[trigger] component_ids@[k]).0 < components.infos().len(),
            component_ids@.no_duplicates(),
        ensures
            final(self).wf(components.infos()),
            r.0 < final(self).infos().len(),
            final(self).infos()[r.0 as int].ids() == component_ids@,
            r.0 < old(self).infos().len() ==> final(self).infos() == old(self).infos(),
            r.0 == old(self).infos().len() ==> final(self).infos() == old(self).infos().push(final(self).infos()[r.0 as int]),
            r.0 <= old(self).infos().len(),
    {
        let key = to_raw(component_ids);
        let none: Vec<usize> = Vec::new();
        match signature_index_get(&self.dynamic_bundle_ids, &key, &none) {
            Some(b) => {
                proof {
                    assert(none@ =~= Seq::<usize>::empty());
                    lemma_raw_ids_injective(self.bundle_infos@[b as int].ids(), component_ids@);
                }
                return BundleId(b as usize);
            },
            None => {},
        }
        let mut ids: Vec<ComponentId> = Vec::new();
        let mut k: usize = 0;
        while k < component_ids.len()
            invariant
                k <= component_ids@.len(),
                ids@ == component_ids@.subrange(0, k as int),
            decreases component_ids@.len() - k,
        {
            ids.push(component_ids[k]);
            k = k + 1;
            proof {
                assert(ids@ =~= component_ids@.subrange(0, k as int));
            }
        }
        proof {
            assert(ids@ =~= component_ids@);
        }
        let n = self.bundle_infos.len();
        if n >= u32::MAX as usize {
            // the index stores handles as `u32`; past that, a bundle is registered without reuse
            let id = BundleId(n);
            self.bundle_infos.push(BundleInfo::new(ids, id));
            let _ = self.bundle_infos.len();
            proof {
                self.lemma_pushed(*old(self), components.infos());
            }
            return id;
        }
        let id = BundleId(n);
        self.bundle_infos.push(BundleInfo::new(ids, id));
        let _ = self.bundle_infos.len();
        signature_index_insert(&mut self.dynamic_bundle_ids, key, none, n as u32);
        proof {
            assert forall|k: (Seq<usize>, Seq<usize>)| #[trigger] index_contents(&self.dynamic_bundle_ids).contains_key(k) implies {
                let v = index_contents(&self.dynamic_bundle_ids)[k];
                &&& v < self.bundle_infos@.len()
                &&& k == (raw_ids(self.bundle_infos@[v as int].ids()), Seq::<usize>::empty())
            } by {
                if k != (key@, none@) {
                    assert(index_contents(&old(self).dynamic_bundle_ids).contains_key(k));
                    let v = index_contents(&old(self).dynamic_bundle_ids)[k];
                    assert(self.bundle_infos@[v as int] == old(self).bundle_infos@[v as int]);
                } else {
                    assert(none@ =~= Seq::<usize>::empty());
                }
            }
            let old_self = *old(self);
            assert forall|b: int| 0 <= b < self.infos().len() implies {
                &&& (#[trigger] self.infos()[b]).spec_id().0 == b
                &&& self.infos()[b].ids().no_duplicates()
                &&& forall|k: int| 0 <= k < self.infos()[b].ids().len() ==> (#[trigger] self.infos()[b].ids()[k]).0 < components.infos().len()
            } by {
                if b < old_self.infos().len() {
                    assert(self.infos()[b] == old_self.infos()[b]);
                }
            }
        }
        id
    }

    proof fn lemma_pushed(&self, old_self: Bundles, infos: Seq<ComponentInfo>)
        requires
            old_self.wf(infos),
            self.dynamic_bundle_ids == old_self.dynamic_bundle_ids,
            self.bundle_infos@.len() == old_self.bundle_infos@.len() + 1,
            self.bundle_infos@.len() <= usize::MAX,
            forall|b: int| 0 <= b < old_self.bundle_infos@.len() ==> #[trigger] self.bundle_infos@[b] == old_self.bundle_infos@[b],
            ({
                let last = self.bundle_infos@[old_self.bundle_infos@.len() as int];
                &&& last.spec_id().0 == old_self.bundle_infos@.len()
                &&& last.ids().no_duplicates()
                &&& forall|k: int| 0 <= k < last.ids().len() ==> (#[trigger] last.ids()[k]).0 < infos.len()
            }),
        ensures
            self.wf(infos),
    {
        assert forall|k: (Seq<usize>, Seq<usize>)| #[trigger] index_contents(&self.dynamic_bundle_ids).contains_key(k) implies {
            let v = index_contents(&self.dynamic_bundle_ids)[k];
            &&& v < self.bundle_infos@.len()
            &&& k == (raw_ids(self.bundle_infos@[v as int].ids()), Seq::<usize>::empty())
        } by {
            assert(index_contents(&old_self.dynamic_bundle_ids).contains_key(k));
        }
        assert forall|b: int| 0 <= b < self.infos().len() implies {
            &&& (#[trigger] self.infos()[b]).spec_id().0 == b
            &&& self.infos()[b].ids().no_duplicates()
            &&& forall|k: int| 0 <= k < self.infos()[b].ids().len() ==> (#[trigger] self.infos()[b].ids()[k]).0 < infos.len()
        } by {
            if b < old_self.infos().len() {
                assert(self.infos()[b] == old_self.infos()[b]);
            }
        }
    }
}

/// The archetype graph agrees with the tables, the component registry and the bundles: each
/// archetype's table has exactly its table-stored components, every component is stored with
/// the kind the registry gives it, and every cached add edge leads to the archetype with the
/// added signature and records the right statuses.
pub open spec fn graph_ok(archetypes: &Archetypes, tables: &Tables, components: &Components, bundles: &Bundles) -> bool {
    let arch = archetypes.archetype_seq();
    let infos = components.infos();
    &&& archetypes.wf()
    &&& tables.wf()
    &&& components.wf()
    &&& bundles.wf(infos)
    &&& forall|a: int| 0 <= a < arch.len() ==> {
        let x = #[trigger] arch[a];
        &&& x.spec_table_id().0 < tables.table_seq().len()
        &&& tables.table_seq()[x.spec_table_id().0 as int].ids() == x.table_ids()
        &&& forall|k: int| 0 <= k < x.table_ids().len() ==> (#[trigger] x.table_ids()[k]).0 < infos.len()
            && kind_of(infos, x.table_ids()[k]) == StorageType::Table
        &&& forall|k: int| 0 <= k < x.sparse_ids().len() ==> (#[trigger] x.sparse_ids()[k]).0 < infos.len()
            && kind_of(infos, x.sparse_ids()[k]) == StorageType::SparseSet
    }
    &&& forall|a: int, b: BundleId| 0 <= a < arch.len() ==> (#[trigger] arch[a].spec_edges().add_edge(b) matches Some(
        ab,
    ) ==> {
        &&& b.0 < bundles.infos().len()
        &&& ab.archetype_id.0 < arch.len()
        &&& signature(arch[ab.archetype_id.0 as int]) == added_signature(arch[a], bundles.infos()[b.0 as int].ids(), infos)
        &&& ab.bundle_status@ == bundle_statuses(arch[a], bundles.infos()[b.0 as int].ids())
    })
}

/// The graph only grew: old archetypes keep their shape and entities, old tables are
/// unchanged, and edges of archetypes other than `a` are unchanged.
pub open spec fn graph_grew(old_archetypes: &Archetypes, new_archetypes: &Archetypes, old_tables: &Tables, new_tables: &Tables, a: int) -> bool {
    &&& new_archetypes.archetype_seq().len() >= old_archetypes.archetype_seq().len()
    &&& forall|i: int| 0 <= i < old_archetypes.archetype_seq().len() ==> (#[trigger] new_archetypes.archetype_seq()[i]).same_shape(
        old_archetypes.archetype_seq()[i],
    ) && new_archetypes.archetype_seq()[i].entity_seq() == old_archetypes.archetype_seq()[i].entity_seq()
    &&& forall|i: int| old_archetypes.archetype_seq().len() <= i < new_archetypes.archetype_seq().len()
        ==> (#[trigger] new_archetypes.archetype_seq()[i]).entity_seq().len() == 0
    &&& forall|i: int| 0 <= i < old_archetypes.archetype_seq().len() && i != a ==> #[trigger] new_archetypes.archetype_seq()[i]
        == old_archetypes.archetype_seq()[i]
    &&& new_tables.table_seq().len() >= old_tables.table_seq().len()
    &&& forall|t: int| 0 <= t < old_tables.table_seq().len() ==> #[trigger] new_tables.table_seq()[t] == old_tables.table_seq()[t]
    &&& forall|t: int| old_tables.table_seq().len() <= t < new_tables.table_seq().len()
        ==> (#[trigger] new_tables.table_seq()[t]).entity_seq().len() == 0
    &&& new_archetypes.component_count() >= old_archetypes.component_count()
}

impl BundleInfo {
    /// The archetype that adding this bundle to archetype `archetype_id` leads to; computed
    /// once per (archetype, bundle) and cached on the archetype's edges.
    #[verifier::rlimit(100)]
    #[verifier::spinoff_prover]
    pub fn add_bundle_to_archetype(
        &self,
        archetypes: &mut Archetypes,
        tables: &mut Tables,
        components: &Components,
        bundles: &Bundles,
        archetype_id: ArchetypeId,
    ) -> (r: ArchetypeId)
        requires
            graph_ok(old(archetypes), old(tables), components, bundles),
            self.spec_id().0 < bundles.infos().len(),
            bundles.infos()[self.spec_id().0 as int] == *self,
            archetype_id.0 < old(archetypes).archetype_seq().len(),
            old(archetypes).archetype_seq().len() < u32::MAX,
            old(tables).table_seq().len() < u32::MAX,
            old(archetypes).component_count() + old(archetypes).archetype_seq()[archetype_id.0 as int].table_ids().len()
                + old(archetypes).archetype_seq()[archetype_id.0 as int].sparse_ids().len() + self.ids().len() <= usize::MAX,
        ensures
            graph_ok(final(archetypes), final(tables), components, bundles),
            graph_grew(old(archetypes), final(archetypes), old(tables), final(tables), archetype_id.0 as int),
            r.0 < final(archetypes).archetype_seq().len(),
            signature(final(archetypes).archetype_seq()[r.0 as int]) == added_signature(
                old(archetypes).archetype_seq()[archetype_id.0 as int],
                self.ids(),
                components.infos(),
            ),
            final(archetypes).archetype_seq()[archetype_id.0 as int].spec_edges().add_edge(self.spec_id()) == Some(
                AddBundle {
                    archetype_id: r,
                    bundle_status: final(archetypes).archetype_seq()[archetype_id.0 as int].spec_edges().add_edge(
                        self.spec_id(),
                    ).unwrap().bundle_status,
                },
            ),
            final(archetypes).archetype_seq()[archetype_id.0 as int].spec_edges().add_edge(self.spec_id()).unwrap().bundle_status@
                == bundle_statuses(old(archetypes).archetype_seq()[archetype_id.0 as int], self.ids()),
            old(archetypes).archetype_seq()[archetype_id.0 as int].spec_edges().add_edge(self.spec_id()).is_some()
                ==> *final(archetypes) == *old(archetypes) && *final(tables) == *old(tables),
            added_signature(old(archetypes).archetype_seq()[archetype_id.0 as int], self.ids(), components.infos()) == signature(
                old(archetypes).archetype_seq()[archetype_id.0 as int],
            ) ==> r == archetype_id,
            r == archetype_id ==> *final(tables) == *old(tables) && final(archetypes).archetype_seq().len()
                == old(archetypes).archetype_seq().len(),
            (exists|i: int| 0 <= i < old(archetypes).archetype_seq().len() && signature(old(archetypes).archetype_seq()[i])
                == added_signature(old(archetypes).archetype_seq()[archetype_id.0 as int], self.ids(), components.infos()))
                ==> final(archetypes).archetype_seq().len() == old(archetypes).archetype_seq().len(),
            final(archetypes).archetype_seq().len() <= old(archetypes).archetype_seq().len() + 1,
            final(tables).table_seq().len() <= old(tables).table_seq().len() + 1,
            added_signature(old(archetypes).archetype_seq()[archetype_id.0 as int], self.ids(), components.infos()).0
                != old(archetypes).archetype_seq()[archetype_id.0 as int].table_ids().to_set()
                ==> final(archetypes).archetype_seq()[r.0 as int].spec_table_id() != old(archetypes).archetype_seq()[archetype_id.0 as int].spec_table_id(),
            r.0 == old(archetypes).archetype_seq().len() && added_signature(old(archetypes).archetype_seq()[archetype_id.0 as int], self.ids(), components.infos()).0
                == old(archetypes).archetype_seq()[archetype_id.0 as int].table_ids().to_set()
                ==> final(archetypes).archetype_seq()[r.0 as int].spec_table_id() == old(archetypes).archetype_seq()[archetype_id.0 as int].spec_table_id(),
    {
        let ghost infos = components.infos();
        let ghost cur = archetypes.archetype_seq()[archetype_id.0 as int];
        let ghost ids = self.ids();
        match archetypes.index(archetype_id).edges().get_add_bundle(self.id) {
            Some(target) => {
                proof {
                    let ab = cur.spec_edges().add_edge(self.spec_id()).unwrap();
                    assert(signature(archetypes.archetype_seq()[target.0 as int]) == added_signature(cur, ids, infos));
                    if added_signature(cur, ids, infos) == signature(cur) {
                        crate::archetype::lemma_signature_identifies(archetypes, target.0 as int, archetype_id.0 as int);
                    }
                }
                proof {
                    if archetypes.archetype_seq()[target.0 as int].spec_table_id() == cur.spec_table_id() {
                        lemma_same_table_same_columns(archetypes, tables, components, bundles, target.0 as int, archetype_id.0 as int);
                    }
                }
                return target;
            },
            None => {},
        }
        let mut new_table: Vec<ComponentId> = Vec::new();
        let mut new_sparse: Vec<ComponentId> = Vec::new();
        let mut statuses: Vec<ComponentStatus> = Vec::new();
        let n = self.component_ids.len();
        let mut k: usize = 0;
        while k < n
            invariant
                k <= n,
                n == ids.len(),
                ids == self.component_ids@,
                cur == archetypes.archetype_seq()[archetype_id.0 as int],
                archetype_id.0 < archetypes.archetype_seq().len(),
                infos == components.infos(),
                components.wf(),
                bundles.wf(infos),
                bundles.infos()[self.spec_id().0 as int] == *self,
                self.spec_id().0 < bundles.infos().len(),
                statuses@ == bundle_statuses(cur, ids.subrange(0, k as int)),
                new_table@.len() + new_sparse@.len() <= k,
                forall|x: ComponentId| new_table@.contains(x) <==> (ids.subrange(0, k as int).contains(x) && !cur.has_component(x)
                    && kind_of(infos, x) == StorageType::Table),
                forall|x: ComponentId| new_sparse@.contains(x) <==> (ids.subrange(0, k as int).contains(x) && !cur.has_component(x)
                    && kind_of(infos, x) == StorageType::SparseSet),
            decreases n - k,
        {
            let c = self.component_ids[k];
            let ghost old_nt = new_table@;
            let ghost old_ns = new_sparse@;
            proof {
                assert(ids[k as int].0 < infos.len());
            }
            if archetypes.index(archetype_id).contains(c) {
                statuses.push(ComponentStatus::Mutated);
            } else {
                statuses.push(ComponentStatus::Add);
                let info = components.get_info(c).unwrap();
                match info.storage_type() {
                    StorageType::Table => new_table.push(c),
                    StorageType::SparseSet => new_sparse.push(c),
                }
            }
            k = k + 1;
            proof {
                let pre = ids.subrange(0, k - 1);
                let post = ids.subrange(0, k as int);
                assert(post =~= pre.push(c));
                assert(statuses@ =~= bundle_statuses(cur, post));
                assert forall|x: ComponentId| post.contains(x) <==> (pre.contains(x) || x == c) by {
                    if post.contains(x) && x != c {
                        let i = choose|i: int| 0 <= i < post.len() && post[i] == x;
                        assert(pre[i] == x);
                    }
                    if pre.contains(x) {
                        let i = choose|i: int| 0 <= i < pre.len() && pre[i] == x;
                        assert(post[i] == x);
                    }
                    if x == c {
                        assert(post[post.len() - 1] == c);
                    }
                }
                assert(kind_of(infos, c) == StorageType::Table || kind_of(infos, c) == StorageType::SparseSet);
                assert forall|x: ComponentId| new_table@.contains(x) <==> (old_nt.contains(x) || (x == c && !cur.has_component(c)
                    && kind_of(infos, c) == StorageType::Table)) by {
                    if new_table@.len() > old_nt.len() {
                        assert(new_table@ == old_nt.push(c));
                        if new_table@.contains(x) && x != c {
                            let i = choose|i: int| 0 <= i < new_table@.len() && new_table@[i] == x;
                            assert(old_nt[i] == x);
                        }
                        if old_nt.contains(x) {
                            let i = choose|i: int| 0 <= i < old_nt.len() && old_nt[i] == x;
                            assert(new_table@[i] == x);
                        }
                        if x == c {
                            assert(new_table@[new_table@.len() - 1] == c);
                        }
                    }
                }
                assert forall|x: ComponentId| new_sparse@.contains(x) <==> (old_ns.contains(x) || (x == c && !cur.has_component(c)
                    && kind_of(infos, c) == StorageType::SparseSet)) by {
                    if new_sparse@.len() > old_ns.len() {
                        assert(new_sparse@ == old_ns.push(c));
                        if new_sparse@.contains(x) && x != c {
                            let i = choose|i: int| 0 <= i < new_sparse@.len() && new_sparse@[i] == x;
                            assert(old_ns[i] == x);
                        }
                        if old_ns.contains(x) {
                            let i = choose|i: int| 0 <= i < old_ns.len() && old_ns[i] == x;
                            assert(new_sparse@[i] == x);
                        }
                        if x == c {
                            assert(new_sparse@[new_sparse@.len() - 1] == c);
                        }
                    }
                }
            }
        }
        proof {
            assert(ids.subrange(0, n as int) =~= ids);
            assert(statuses@ == bundle_statuses(cur, ids));
        }
        if new_table.len() == 0 && new_sparse.len() == 0 {
            proof {
                assert(added_signature(cur, ids, infos).0 =~= cur.table_ids().to_set()) by {
                    assert forall|x: ComponentId| of_kind(ids, infos, StorageType::Table).contains(x) implies cur.table_ids().to_set().contains(x) by {
                        assert(!new_table@.contains(x));
                        assert(cur.has_component(x));
                        if cur.sparse_ids().contains(x) {
                            let i = choose|i: int| 0 <= i < cur.sparse_ids().len() && cur.sparse_ids()[i] == x;
                            assert(kind_of(infos, cur.sparse_ids()[i]) == StorageType::SparseSet);
                        }
                    }
                }
                assert(added_signature(cur, ids, infos).1 =~= cur.sparse_ids().to_set()) by {
                    assert forall|x: ComponentId| of_kind(ids, infos, StorageType::SparseSet).contains(x) implies cur.sparse_ids().to_set().contains(x) by {
                        assert(!new_sparse@.contains(x));
                        assert(cur.has_component(x));
                        if cur.table_ids().contains(x) {
                            let i = choose|i: int| 0 <= i < cur.table_ids().len() && cur.table_ids()[i] == x;
                            assert(kind_of(infos, cur.table_ids()[i]) == StorageType::Table);
                        }
                    }
                }
            }
            archetypes.insert_add_bundle(archetype_id, self.id, archetype_id, statuses);
            proof {
                lemma_edge_added(old(archetypes), archetypes, tables, components, bundles, archetype_id.0 as int, self.spec_id());
            }
            return archetype_id;
        }
        let cur_table_id = archetypes.index(archetype_id).table_id();
        let mut table_components = copy_ids(archetypes.index(archetype_id).table_components());
        let mut sparse_components = copy_ids(archetypes.index(archetype_id).sparse_set_components());
        let table_new_empty = new_table.len() == 0;
        let ghost new_t = new_table@;
        let ghost new_s = new_sparse@;
        proof {
            assert(ids.subrange(0, n as int) == ids);
            assert forall|x: ComponentId| new_t.contains(x) <==> (ids.contains(x) && !cur.has_component(x) && kind_of(infos, x)
                == StorageType::Table) by {
                assert(new_table@.contains(x) == new_t.contains(x));
            }
            assert forall|x: ComponentId| new_s.contains(x) <==> (ids.contains(x) && !cur.has_component(x) && kind_of(infos, x)
                == StorageType::SparseSet) by {
                assert(new_sparse@.contains(x) == new_s.contains(x));
            }
        }
        table_components.append(&mut new_table);
        sparse_components.append(&mut new_sparse);
        let ghost tset = table_components@.to_set();
        let ghost sset = sparse_components@.to_set();
        proof {
            lemma_concat_set(cur.table_ids(), new_t);
            lemma_concat_set(cur.sparse_ids(), new_s);
            assert(tset == added_signature(cur, ids, infos).0) by {
                assert forall|x: ComponentId| #[trigger] added_signature(cur, ids, infos).0.contains(x) implies tset.contains(x) by {
                    if !cur.table_ids().to_set().contains(x) {
                        assert(of_kind(ids, infos, StorageType::Table).contains(x));
                        if cur.sparse_ids().contains(x) {
                            let i = choose|i: int| 0 <= i < cur.sparse_ids().len() && cur.sparse_ids()[i] == x;
                            assert(kind_of(infos, cur.sparse_ids()[i]) == StorageType::SparseSet);
                        }
                        assert(ids.subrange(0, ids.len() as int) == ids);
                        assert(new_t.contains(x));
                    }
                }
                assert forall|x: ComponentId| tset.contains(x) implies #[trigger] added_signature(cur, ids, infos).0.contains(x) by {
                    if !cur.table_ids().to_set().contains(x) {
                        assert(new_t.contains(x));
                        assert(ids.subrange(0, ids.len() as int) == ids);
                        assert(ids.contains(x));
                        assert(ids.to_set().contains(x));
                        assert(of_kind(ids, infos, StorageType::Table).contains(x));
                    }
                }
                assert(tset =~= added_signature(cur, ids, infos).0);
            }
            assert(sset == added_signature(cur, ids, infos).1) by {
                assert forall|x: ComponentId| #[trigger] added_signature(cur, ids, infos).1.contains(x) implies sset.contains(x) by {
                    if !cur.sparse_ids().to_set().contains(x) {
                        assert(of_kind(ids, infos, StorageType::SparseSet).contains(x));
                        if cur.table_ids().contains(x) {
                            let i = choose|i: int| 0 <= i < cur.table_ids().len() && cur.table_ids()[i] == x;
                            assert(kind_of(infos, cur.table_ids()[i]) == StorageType::Table);
                        }
                        assert(ids.subrange(0, ids.len() as int) == ids);
                        assert(new_s.contains(x));
                    }
                }
                assert forall|x: ComponentId| sset.contains(x) implies #[trigger] added_signature(cur, ids, infos).1.contains(x) by {
                    if !cur.sparse_ids().to_set().contains(x) {
                        assert(new_s.contains(x));
                        assert(ids.subrange(0, ids.len() as int) == ids);
                        assert(ids.contains(x));
                        assert(ids.to_set().contains(x));
                        assert(of_kind(ids, infos, StorageType::SparseSet).contains(x));
                    }
                }
                assert(sset =~= added_signature(cur, ids, infos).1);
            }
            assert forall|x: ComponentId| tset.contains(x) implies x.0 < infos.len() && kind_of(infos, x) == StorageType::Table by {
                if cur.table_ids().to_set().contains(x) {
                    let i = choose|i: int| 0 <= i < cur.table_ids().len() && cur.table_ids()[i] == x;
                } else {
                    assert(new_t.contains(x));
                    assert(ids.subrange(0, ids.len() as int) == ids);
                    let i = choose|i: int| 0 <= i < ids.len() && ids[i] == x;
                    assert(ids[i].0 < infos.len());
                }
            }
            assert forall|x: ComponentId| sset.contains(x) implies x.0 < infos.len() && kind_of(infos, x) == StorageType::SparseSet by {
                if cur.sparse_ids().to_set().contains(x) {
                    let i = choose|i: int| 0 <= i < cur.sparse_ids().len() && cur.sparse_ids()[i] == x;
                } else {
                    assert(new_s.contains(x));
                    assert(ids.subrange(0, ids.len() as int) == ids);
                    let i = choose|i: int| 0 <= i < ids.len() && ids[i] == x;
                    assert(ids[i].0 < infos.len());
                }
            }
            assert(tset.disjoint(sset)) by {
                assert forall|x: ComponentId| tset.contains(x) implies !sset.contains(x) by {
                    assert(kind_of(infos, x) == StorageType::Table);
                }
            }
        }
        let ghost tables_before = *tables;
        let table_id = if table_new_empty {
            proof {
                assert(new_t.len() == 0);
                assert(table_components@ =~= cur.table_ids());
            }
            cur_table_id
        } else {
            let sorted = sorted_unique(table_components.as_slice());
            proof {
                assert forall|k: int| 0 <= k < sorted@.len() implies (#[trigger] sorted@[k]).0 < components.infos().len() by {
                    assert(sorted@.to_set().contains(sorted@[k]));
                }
            }
            let t = tables.get_id_or_insert(sorted.as_slice(), components);
            proof {
                lemma_sorted_set_unique(tables.table_seq()[t.0 as int].ids(), sorted@);
            }
            t
        };
        proof {
            assert(tables.table_seq()[table_id.0 as int].ids().to_set() == tset);
            assert(strictly_sorted(tables.table_seq()[table_id.0 as int].ids()));
        }
        let ghost archetypes_before = *archetypes;
        let new_id = archetypes.get_id_or_insert(table_id, table_components.as_slice(), sparse_components.as_slice());
        proof {
            assert(added_signature(cur, ids, infos) != signature(cur)) by {
                if new_t.len() > 0 {
                    assert(new_t.contains(new_t[0]));
                    assert(tset.contains(new_t[0]));
                    assert(!cur.table_ids().to_set().contains(new_t[0]));
                } else {
                    assert(new_s.contains(new_s[0]));
                    assert(sset.contains(new_s[0]));
                    assert(!cur.sparse_ids().to_set().contains(new_s[0]));
                }
            }
            assert(new_id != archetype_id) by {
                if new_id == archetype_id {
                    assert(archetypes.archetype_seq()[archetype_id.0 as int].same_shape(cur));
                    if new_t.len() > 0 {
                        assert(new_t.contains(new_t[0]));
                        assert(tset.contains(new_t[0]));
                        assert(!cur.table_ids().to_set().contains(new_t[0]));
                    } else {
                        assert(new_s.contains(new_s[0]));
                        assert(sset.contains(new_s[0]));
                        assert(!cur.sparse_ids().to_set().contains(new_s[0]));
                    }
                }
            }
            lemma_after_insert(&archetypes_before, archetypes, &tables_before, tables, components, bundles, table_id, tset, sset, new_id);
        }
        let ghost archetypes_mid = *archetypes;
        archetypes.insert_add_bundle(archetype_id, self.id, new_id, statuses);
        proof {
            lemma_edge_added(&archetypes_mid, archetypes, tables, components, bundles, archetype_id.0 as int, self.spec_id());
            if new_t.len() > 0 {
                assert(new_t.contains(new_t[0]));
                assert(tset.contains(new_t[0]));
                assert(!cur.table_ids().to_set().contains(new_t[0]));
            } else {
                assert(tset =~= cur.table_ids().to_set());
            }
            let fa = archetypes.archetype_seq();
            assert(fa[archetype_id.0 as int].same_shape(cur));
            if fa[new_id.0 as int].spec_table_id() == cur.spec_table_id() {
                lemma_same_table_same_columns(archetypes, tables, components, bundles, new_id.0 as int, archetype_id.0 as int);
            }
        }
        new_id
    }
}

/// The ids of a slice, copied into a vector.
fn copy_ids(s: &[ComponentId]) -> (r: Vec<ComponentId>)
    ensures
        r@ == s@,
{
    let mut out: Vec<ComponentId> = Vec::new();
    let mut i: usize = 0;
    while i < s.len()
        invariant
            i <= s@.len(),
            out@ == s@.subrange(0, i as int),
        decreases s@.len() - i,
    {
        out.push(s[i]);
        i = i + 1;
        proof {
            assert(out@ =~= s@.subrange(0, i as int));
        }
    }
    proof {
        assert(s@.subrange(0, s@.len() as int) =~= s@);
    }
    out
}

/// The elements of a concatenation are those of its parts.
proof fn lemma_concat_set(a: Seq<ComponentId>, b: Seq<ComponentId>)
    ensures
        (a + b).to_set() == a.to_set().union(b.to_set()),
{
    let c = a + b;
    assert forall|x: ComponentId| c.to_set().contains(x) implies a.to_set().union(b.to_set()).contains(x) by {
        let i = choose|i: int| 0 <= i < c.len() && c[i] == x;
        if i < a.len() {
            assert(a[i] == x);
        } else {
            assert(b[i - a.len()] == x);
        }
    }
    assert forall|x: ComponentId| a.to_set().union(b.to_set()).contains(x) implies c.to_set().contains(x) by {
        if a.to_set().contains(x) {
            let i = choose|i: int| 0 <= i < a.len() && a[i] == x;
            assert(c[i] == x);
        } else {
            let i = choose|i: int| 0 <= i < b.len() && b[i] == x;
            assert(c[i + a.len()] == x);
        }
    }
    assert(c.to_set() =~= a.to_set().union(b.to_set()));
}

/// After an archetype lookup with a signature whose components have the right kinds and whose
/// table has exactly its table-stored components, the graph is still consistent and only grew.
proof fn lemma_after_insert(
    before: &Archetypes,
    after: &Archetypes,
    tables_before: &Tables,
    tables: &Tables,
    components: &Components,
    bundles: &Bundles,
    table_id: TableId,
    tset: Set<ComponentId>,
    sset: Set<ComponentId>,
    new_id: ArchetypeId,
)
    requires
        graph_ok(before, tables_before, components, bundles),
        before.archetype_seq().len() < u32::MAX,
        tables.wf(),
        tables.table_seq().len() >= tables_before.table_seq().len(),
        forall|t: int| 0 <= t < tables_before.table_seq().len() ==> #[trigger] tables.table_seq()[t] == tables_before.table_seq()[t],
        forall|t: int| tables_before.table_seq().len() <= t < tables.table_seq().len() ==> (#[trigger] tables.table_seq()[t]).entity_seq().len() == 0,
        table_id.0 < tables.table_seq().len(),
        tables.table_seq()[table_id.0 as int].ids().to_set() == tset,
        strictly_sorted(tables.table_seq()[table_id.0 as int].ids()),
        forall|x: ComponentId| tset.contains(x) ==> x.0 < components.infos().len() && kind_of(components.infos(), x) == StorageType::Table,
        forall|x: ComponentId| sset.contains(x) ==> x.0 < components.infos().len() && kind_of(components.infos(), x) == StorageType::SparseSet,
        forall|i: int| 0 <= i < after.archetype_seq().len() ==> (#[trigger] after.archetype_seq()[i]).spec_id().0 == i
            && after.archetype_seq()[i].wf(),
        after.index_ok(),
        new_id.0 <= before.archetype_seq().len(),
        new_id.0 < after.archetype_seq().len(),
        signature(after.archetype_seq()[new_id.0 as int]) == (tset, sset),
        new_id.0 < before.archetype_seq().len() ==> after.archetype_seq() == before.archetype_seq()
            && after.component_count() == before.component_count(),
        new_id.0 == before.archetype_seq().len() ==> {
            &&& after.archetype_seq().len() == before.archetype_seq().len() + 1
            &&& forall|i: int| 0 <= i < before.archetype_seq().len() ==> #[trigger] after.archetype_seq()[i] == before.archetype_seq()[i]
            &&& after.archetype_seq()[new_id.0 as int].spec_table_id() == table_id
            &&& after.archetype_seq()[new_id.0 as int].entity_seq().len() == 0
            &&& forall|b: BundleId| after.archetype_seq()[new_id.0 as int].spec_edges().add_edge(b).is_none()
        },
        after.component_count() >= before.component_count(),
    ensures
        graph_ok(after, tables, components, bundles),
        graph_grew(before, after, tables_before, tables, -1),
{
    let arch = after.archetype_seq();
    let infos = components.infos();
    if new_id.0 == before.archetype_seq().len() {
        let x = arch[new_id.0 as int];
        lemma_sorted_set_unique(tables.table_seq()[table_id.0 as int].ids(), x.table_ids());
        assert forall|k: int| 0 <= k < x.table_ids().len() implies (#[trigger] x.table_ids()[k]).0 < infos.len()
            && kind_of(infos, x.table_ids()[k]) == StorageType::Table by {
            assert(x.table_ids().to_set().contains(x.table_ids()[k]));
        }
        assert forall|k: int| 0 <= k < x.sparse_ids().len() implies (#[trigger] x.sparse_ids()[k]).0 < infos.len()
            && kind_of(infos, x.sparse_ids()[k]) == StorageType::SparseSet by {
            assert(x.sparse_ids().to_set().contains(x.sparse_ids()[k]));
        }
        assert(after.wf()) by {
            assert(arch[0] == before.archetype_seq()[0]);
        }
        assert forall|a: int| 0 <= a < arch.len() implies {
            let y = #[trigger] arch[a];
            &&& y.spec_table_id().0 < tables.table_seq().len()
            &&& tables.table_seq()[y.spec_table_id().0 as int].ids() == y.table_ids()
            &&& forall|k: int| 0 <= k < y.table_ids().len() ==> (#[trigger] y.table_ids()[k]).0 < infos.len()
                && kind_of(infos, y.table_ids()[k]) == StorageType::Table
            &&& forall|k: int| 0 <= k < y.sparse_ids().len() ==> (#[trigger] y.sparse_ids()[k]).0 < infos.len()
                && kind_of(infos, y.sparse_ids()[k]) == StorageType::SparseSet
        } by {
            if a < before.archetype_seq().len() {
                assert(arch[a] == before.archetype_seq()[a]);
            }
        }
        assert forall|a: int, b: BundleId| 0 <= a < arch.len() implies (#[trigger] arch[a].spec_edges().add_edge(b) matches Some(
            ab,
        ) ==> {
            &&& b.0 < bundles.infos().len()
            &&& ab.archetype_id.0 < arch.len()
            &&& signature(arch[ab.archetype_id.0 as int]) == added_signature(arch[a], bundles.infos()[b.0 as int].ids(), infos)
            &&& ab.bundle_status@ == bundle_statuses(arch[a], bundles.infos()[b.0 as int].ids())
        }) by {
            if a < before.archetype_seq().len() {
                assert(arch[a] == before.archetype_seq()[a]);
                if let Some(ab) = arch[a].spec_edges().add_edge(b) {
                    assert(before.archetype_seq()[a].spec_edges().add_edge(b) == Some(ab));
                    assert(arch[ab.archetype_id.0 as int] == before.archetype_seq()[ab.archetype_id.0 as int]);
                }
            }
        }
    } else {
        assert(after.wf());
        assert forall|a: int| 0 <= a < arch.len() implies {
            let y = #[trigger] arch[a];
            &&& y.spec_table_id().0 < tables.table_seq().len()
            &&& tables.table_seq()[y.spec_table_id().0 as int].ids() == y.table_ids()
        } by {
            assert(arch[a] == before.archetype_seq()[a]);
        }
    }
}

/// Caching an add edge that leads to the archetype with the added signature and records the
/// right statuses keeps the graph consistent.
proof fn lemma_edge_added(
    before: &Archetypes,
    after: &Archetypes,
    tables: &Tables,
    components: &Components,
    bundles: &Bundles,
    a: int,
    b: BundleId,
)
    requires
        graph_ok(before, tables, components, bundles),
        0 <= a < before.archetype_seq().len(),
        b.0 < bundles.infos().len(),
        after.wf(),
        after.archetype_seq().len() == before.archetype_seq().len(),
        forall|i: int| 0 <= i < before.archetype_seq().len() && i != a ==> #[trigger] after.archetype_seq()[i] == before.archetype_seq()[i],
        after.archetype_seq()[a].same_shape(before.archetype_seq()[a]),
        after.archetype_seq()[a].entity_seq() == before.archetype_seq()[a].entity_seq(),
        after.archetype_seq()[a].spec_edges().add_edge(b) matches Some(ab) && ab.archetype_id.0 < before.archetype_seq().len()
            && signature(before.archetype_seq()[ab.archetype_id.0 as int]) == added_signature(
            before.archetype_seq()[a],
            bundles.infos()[b.0 as int].ids(),
            components.infos(),
        ) && ab.bundle_status@ == bundle_statuses(before.archetype_seq()[a], bundles.infos()[b.0 as int].ids()),
        forall|c: BundleId| c != b ==> after.archetype_seq()[a].spec_edges().add_edge(c) == before.archetype_seq()[a].spec_edges().add_edge(c),
    ensures
        graph_ok(after, tables, components, bundles),
{
    let arch = after.archetype_seq();
    let old_arch = before.archetype_seq();
    let infos = components.infos();
    assert forall|i: int| 0 <= i < arch.len() implies signature(#[trigger] arch[i]) == signature(old_arch[i]) by {
        if i != a {
            assert(arch[i] == old_arch[i]);
        }
    }
    assert forall|i: int| 0 <= i < arch.len() implies {
        let y = #[trigger] arch[i];
        &&& y.spec_table_id().0 < tables.table_seq().len()
        &&& tables.table_seq()[y.spec_table_id().0 as int].ids() == y.table_ids()
        &&& forall|k: int| 0 <= k < y.table_ids().len() ==> (#[trigger] y.table_ids()[k]).0 < infos.len()
            && kind_of(infos, y.table_ids()[k]) == StorageType::Table
        &&& forall|k: int| 0 <= k < y.sparse_ids().len() ==> (#[trigger] y.sparse_ids()[k]).0 < infos.len()
            && kind_of(infos, y.sparse_ids()[k]) == StorageType::SparseSet
    } by {
        let z = old_arch[i];
        assert(arch[i].same_shape(z));
    }
    assert forall|i: int, c: BundleId| 0 <= i < arch.len() implies (#[trigger] arch[i].spec_edges().add_edge(c) matches Some(
        ab,
    ) ==> {
        &&& c.0 < bundles.infos().len()
        &&& ab.archetype_id.0 < arch.len()
        &&& signature(arch[ab.archetype_id.0 as int]) == added_signature(arch[i], bundles.infos()[c.0 as int].ids(), infos)
        &&& ab.bundle_status@ == bundle_statuses(arch[i], bundles.infos()[c.0 as int].ids())
    }) by {
        assert(arch[i].same_shape(old_arch[i]));
        assert(signature(arch[i]) == signature(old_arch[i]));
        assert(added_signature(arch[i], bundles.infos()[c.0 as int].ids(), infos) == added_signature(
            old_arch[i],
            bundles.infos()[c.0 as int].ids(),
            infos,
        ));
        assert(bundle_statuses(arch[i], bundles.infos()[c.0 as int].ids()) =~= bundle_statuses(old_arch[i], bundles.infos()[c.0 as int].ids()));
        if let Some(ab) = arch[i].spec_edges().add_edge(c) {
            if i != a || c != b {
                assert(old_arch[i].spec_edges().add_edge(c) == Some(ab));
            }
            assert(signature(arch[ab.archetype_id.0 as int]) == signature(old_arch[ab.archetype_id.0 as int]));
        }
    }
}

/// Distinct component ids below `n` are at most `n`.
pub proof fn lemma_ids_bounded(ids: Seq<ComponentId>, n: nat)
    requires
        ids.no_duplicates(),
        forall|k: int| 0 <= k < ids.len() ==> (#[trigger] ids[k]).0 < n,
    ensures
        ids.len() <= n,
{
    let t = ids.map_values(|c: ComponentId| c.0 as int);
    assert(t.no_duplicates()) by {
        assert forall|i: int, j: int| 0 <= i < t.len() && 0 <= j < t.len() && i != j implies t[i] != t[j] by {
            assert(t[i] == ids[i].0 as int && t[j] == ids[j].0 as int);
            assert(ids[i] != ids[j]);
        }
    }
    t.unique_seq_to_set();
    assert(t.to_set().subset_of(vstd::set_lib::set_int_range(0, n as int))) by {
        assert forall|x: int| t.to_set().contains(x) implies vstd::set_lib::set_int_range(0, n as int).contains(x) by {
            let k = choose|k: int| 0 <= k < t.len() && t[k] == x;
            assert(t[k] == ids[k].0 as int);
        }
    }
    vstd::set_lib::lemma_int_range(0, n as int);
    vstd::set_lib::lemma_len_subset(t.to_set(), vstd::set_lib::set_int_range(0, n as int));
}

/// Adding a bundle to the archetype that adding it once led to adds nothing: spawning with a
/// bundle and inserting the same bundle again stays in the same archetype.
pub proof fn lemma_add_bundle_idempotent(
    a: Archetype,
    x: Archetype,
    ids: Seq<ComponentId>,
    infos: Seq<ComponentInfo>,
)
    requires
        signature(x) == added_signature(a, ids, infos),
    ensures
        added_signature(x, ids, infos) == signature(x),
{
    assert(added_signature(x, ids, infos).0 =~= signature(x).0);
    assert(added_signature(x, ids, infos).1 =~= signature(x).1);
}

/// Archetypes stored in the same table have the same table-stored components.
pub proof fn lemma_same_table_same_columns(archetypes: &Archetypes, tables: &Tables, components: &Components, bundles: &Bundles, a: int, b: int)
    requires
        graph_ok(archetypes, tables, components, bundles),
        0 <= a < archetypes.archetype_seq().len(),
        0 <= b < archetypes.archetype_seq().len(),
        archetypes.archetype_seq()[a].spec_table_id() == archetypes.archetype_seq()[b].spec_table_id(),
    ensures
        archetypes.archetype_seq()[a].table_ids() == archetypes.archetype_seq()[b].table_ids(),
{
    let x = archetypes.archetype_seq()[a];
    let y = archetypes.archetype_seq()[b];
    assert(tables.table_seq()[x.spec_table_id().0 as int].ids() == x.table_ids());
    assert(tables.table_seq()[y.spec_table_id().0 as int].ids() == y.table_ids());
}

} // verus!
