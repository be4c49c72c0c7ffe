use vstd::prelude::*;

use crate::bundle::BundleId;
use crate::component::{ComponentId, StorageType};
use crate::entity::{Entity, EntityLocation};
use crate::signature::{
    index_contents, lemma_raw_ids_injective, lemma_sorted_set_unique, raw_ids, signature_index_get,
    signature_index_insert, signature_index_new, sorted_unique, strictly_sorted, to_raw, SignatureIndex,
};
use crate::sparse_set::{slot, SparseArray, SparseSetIndex};
use crate::table::{swap_removed, TableId, TableRow};

verus! {

/// Position of an entity inside its archetype's entity list.
#[derive(Debug, Copy, Clone, PartialEq, Eq, Structural)]
pub struct ArchetypeRow(pub u32);

impl ArchetypeRow {
    /// The row of no entity.
    pub fn invalid() -> (r: ArchetypeRow)
        ensures
            r.0 == u32::MAX,
    {
        ArchetypeRow(u32::MAX)
    }

    pub fn new(index: usize) -> (r: ArchetypeRow)
        requires
            index <= u32::MAX,
        ensures
            r.0 == index,
    {
        ArchetypeRow(index as u32)
    }

    pub fn index(self) -> (r: usize)
        ensures
            r == self.0,
    {
        self.0 as usize
    }
}

/// Handle to one component-signature group.
#[derive(Debug, Copy, Clone, PartialEq, Eq, Structural, Hash)]
pub struct ArchetypeId(pub u32);

impl ArchetypeId {
    /// The archetype of entities without components.
    pub fn empty() -> (r: ArchetypeId)
        ensures
            r.0 == 0,
    {
        ArchetypeId(0)
    }

    /// The archetype of no entity.
    pub fn invalid() -> (r: ArchetypeId)
        ensures
            r.0 == u32::MAX,
    {
        ArchetypeId(u32::MAX)
    }

    pub fn new(index: usize) -> (r: ArchetypeId)
        requires
            index <= u32::MAX,
        ensures
            r.0 == index,
    {
        ArchetypeId(index as u32)
    }

    pub fn index(self) -> (r: usize)
        ensures
            r == self.0,
    {
        self.0 as usize
    }
}

/// Whether a bundle component is new to an entity or overwrites one it already has.
#[derive(Debug, Copy, Clone, PartialEq, Eq, Structural)]
pub enum ComponentStatus {
    Add,
    Mutated,
}

/// The cached result of adding one bundle to one archetype.
pub struct AddBundle {
    pub archetype_id: ArchetypeId,
    pub bundle_status: Vec<ComponentStatus>,
}

/// Says, per bundle component, whether writing it adds or overwrites.
pub trait BundleComponentStatus {
    spec fn status_at(&self, index: int) -> ComponentStatus;

    spec fn has_status(&self, index: int) -> bool;

    fn get_status(&self, index: usize) -> (r: ComponentStatus)
        requires
            self.has_status(index as int),
        ensures
            r == self.status_at(index as int),
    ;
}

impl BundleComponentStatus for AddBundle {
    open spec fn status_at(&self, index: int) -> ComponentStatus {
        self.bundle_status@[index]
    }

    open spec fn has_status(&self, index: int) -> bool {
        0 <= index < self.bundle_status@.len()
    }

    fn get_status(&self, index: usize) -> (r: ComponentStatus) {
        self.bundle_status[index]
    }
}

/// The status of every component of a freshly spawned entity: all are added.
pub struct SpawnBundleStatus;

impl BundleComponentStatus for SpawnBundleStatus {
    open spec fn status_at(&self, index: int) -> ComponentStatus {
        ComponentStatus::Add
    }

    open spec fn has_status(&self, index: int) -> bool {
        true
    }

    fn get_status(&self, index: usize) -> (r: ComponentStatus) {
        ComponentStatus::Add
    }
}

/// The memoized structural transitions out of one archetype, per bundle.
pub struct Edges {
    add_bundle: SparseArray<BundleId, AddBundle>,
    remove_bundle: SparseArray<BundleId, Option<ArchetypeId>>,
    take_bundle: SparseArray<BundleId, Option<ArchetypeId>>,
}

impl Edges {
    /// The cached add transition for each bundle.
    pub closed spec fn add_edge(&self, bundle_id: BundleId) -> Option<AddBundle> {
        self.add_bundle.spec_get(bundle_id)
    }

    /// The cached remove transition for each bundle.
    pub closed spec fn remove_edge(&self, bundle_id: BundleId) -> Option<Option<ArchetypeId>> {
        self.remove_bundle.spec_get(bundle_id)
    }

    /// The cached take transition for each bundle.
    pub closed spec fn take_edge(&self, bundle_id: BundleId) -> Option<Option<ArchetypeId>> {
        self.take_bundle.spec_get(bundle_id)
    }

    /// No cached transitions.
    pub fn new() -> (r: Edges)
        ensures
            forall|b: BundleId| r.add_edge(b).is_none() && r.remove_edge(b).is_none() && r.take_edge(b).is_none(),
    {
        Edges { add_bundle: SparseArray::new(), remove_bundle: SparseArray::new(), take_bundle: SparseArray::new() }
    }

    /// The archetype that adding `bundle_id` leads to, if cached.
    pub fn get_add_bundle(&self, bundle_id: BundleId) -> (r: Option<ArchetypeId>)
        ensures
            r == (match self.add_edge(bundle_id) {
                Some(a) => Some(a.archetype_id),
                None => None,
            }),
    {
        match self.get_add_bundle_internal(bundle_id) {
            Some(a) => Some(a.archetype_id),
            None => None,
        }
    }

    /// The cached add transition for `bundle_id`.
    pub fn get_add_bundle_internal(&self, bundle_id: BundleId) -> (r: Option<&AddBundle>)
        ensures
            r == (match self.add_edge(bundle_id) {
                Some(a) => Some(&a),
                None => None,
            }),
    {
        self.add_bundle.get(bundle_id)
    }

    /// Caches the add transition for `bundle_id`.
    pub fn insert_add_bundle(&mut self, bundle_id: BundleId, archetype_id: ArchetypeId, bundle_status: Vec<ComponentStatus>)
        requires
            bundle_id.0 < usize::MAX,
        ensures
            final(self).add_edge(bundle_id) == Some(AddBundle { archetype_id, bundle_status }),
            forall|b: BundleId| b != bundle_id ==> final(self).add_edge(b) == old(self).add_edge(b),
            forall|b: BundleId| final(self).remove_edge(b) == old(self).remove_edge(b),
            forall|b: BundleId| final(self).take_edge(b) == old(self).take_edge(b),
    {
        self.add_bundle.insert(bundle_id, AddBundle { archetype_id, bundle_status });
        proof {
            assert forall|b: BundleId| b != bundle_id implies self.add_edge(b) == old(self).add_edge(b) by {
                if b.0 < self.add_bundle.slots().len() {
                    assert(self.add_bundle.slots()[b.0 as int] == slot(old(self).add_bundle.slots(), b.0 as int));
                }
            }
        }
    }

    /// The archetype that removing `bundle_id` leads to, if cached.
    pub fn get_remove_bundle(&self, bundle_id: BundleId) -> (r: Option<Option<ArchetypeId>>)
        ensures
            r == self.remove_edge(bundle_id),
    {
        match self.remove_bundle.get(bundle_id) {
            Some(a) => Some(*a),
            None => None,
        }
    }

    /// Caches the remove transition for `bundle_id`.
    pub fn insert_remove_bundle(&mut self, bundle_id: BundleId, archetype_id: Option<ArchetypeId>)
        requires
            bundle_id.0 < usize::MAX,
        ensures
            final(self).remove_edge(bundle_id) == Some(archetype_id),
            forall|b: BundleId| b != bundle_id ==> final(self).remove_edge(b) == old(self).remove_edge(b),
            forall|b: BundleId| final(self).add_edge(b) == old(self).add_edge(b),
            forall|b: BundleId| final(self).take_edge(b) == old(self).take_edge(b),
    {
        self.remove_bundle.insert(bundle_id, archetype_id);
        proof {
            assert forall|b: BundleId| b != bundle_id implies self.remove_edge(b) == old(self).remove_edge(b) by {
                if b.0 < self.remove_bundle.slots().len() {
                    assert(self.remove_bundle.slots()[b.0 as int] == slot(old(self).remove_bundle.slots(), b.0 as int));
                }
            }
        }
    }

    /// The archetype that taking `bundle_id` leads to, if cached.
    pub fn get_take_bundle(&self, bundle_id: BundleId) -> (r: Option<Option<ArchetypeId>>)
        ensures
            r == self.take_edge(bundle_id),
    {
        match self.take_bundle.get(bundle_id) {
            Some(a) => Some(*a),
            None => None,
        }
    }

    /// Caches the take transition for `bundle_id`.
    pub fn insert_take_bundle(&mut self, bundle_id: BundleId, archetype_id: Option<ArchetypeId>)
        requires
            bundle_id.0 < usize::MAX,
        ensures
            final(self).take_edge(bundle_id) == Some(archetype_id),
            forall|b: BundleId| b != bundle_id ==> final(self).take_edge(b) == old(self).take_edge(b),
            forall|b: BundleId| final(self).add_edge(b) == old(self).add_edge(b),
            forall|b: BundleId| final(self).remove_edge(b) == old(self).remove_edge(b),
    {
        self.take_bundle.insert(bundle_id, archetype_id);
        proof {
            assert forall|b: BundleId| b != bundle_id implies self.take_edge(b) == old(self).take_edge(b) by {
                if b.0 < self.take_bundle.slots().len() {
                    assert(self.take_bundle.slots()[b.0 as int] == slot(old(self).take_bundle.slots(), b.0 as int));
                }
            }
        }
    }
}

/// One entity of an archetype and its row in the archetype's table.
#[derive(Debug, Clone, Copy, PartialEq, Eq, Structural)]
pub struct ArchetypeEntity {
    pub entity: Entity,
    pub table_row: TableRow,
}

impl ArchetypeEntity {
    pub fn entity(&self) -> (r: Entity)
        ensures
            r == self.entity,
    {
        self.entity
    }

    pub fn table_row(&self) -> (r: TableRow)
        ensures
            r == self.table_row,
    {
        self.table_row
    }
}

/// What an archetype swap-remove did: the entity moved into the hole, and the table row of the
/// removed entity.
pub struct ArchetypeSwapRemoveResult {
    pub swapped_entity: Option<Entity>,
    pub table_row: TableRow,
}

/// Identity of one (archetype, component) pair, for fine-grained access tracking.
#[derive(Debug, Copy, Clone, PartialEq, Eq, Structural, Hash)]
pub struct ArchetypeComponentId(pub usize);

impl SparseSetIndex for ArchetypeComponentId {
    open spec fn spec_index(&self) -> usize {
        self.0
    }

    open spec fn spec_fits(value: usize) -> bool {
        true
    }

    fn sparse_set_index(&self) -> (r: usize) {
        self.0
    }

    fn get_sparse_set_index(value: usize) -> (r: ArchetypeComponentId) {
        ArchetypeComponentId(value)
    }
}

/// How many archetypes existed at some point; archetypes are never removed.
#[derive(Debug, Copy, Clone, PartialEq, Eq, Structural)]
pub struct ArchetypeGeneration(pub usize);

impl ArchetypeGeneration {
    pub fn initial() -> (r: ArchetypeGeneration)
        ensures
            r.0 == 0,
    {
        ArchetypeGeneration(0)
    }

    pub fn value(self) -> (r: usize)
        ensures
            r == self.0,
    {
        self.0
    }
}

/// A group of entities that share one component signature.
pub struct Archetype {
    id: ArchetypeId,
    table_id: TableId,
    edges: Edges,
    entities: Vec<ArchetypeEntity>,
    table_components: Vec<ComponentId>,
    table_archetype_components: Vec<ArchetypeComponentId>,
    sparse_set_components: Vec<ComponentId>,
    sparse_archetype_components: Vec<ArchetypeComponentId>,
}

/// The position of `c` in `s`.
pub open spec fn index_in(s: Seq<ComponentId>, c: ComponentId) -> int {
    choose|p: int| 0 <= p < s.len() && s[p] == c
}

impl Archetype {
    pub closed spec fn spec_id(&self) -> ArchetypeId {
        self.id
    }

    pub closed spec fn spec_table_id(&self) -> TableId {
        self.table_id
    }

    pub closed spec fn spec_edges(&self) -> Edges {
        self.edges
    }

    /// The entities, by archetype row.
    pub closed spec fn entity_seq(&self) -> Seq<ArchetypeEntity> {
        self.entities@
    }

    /// The table-stored components, in increasing order.
    pub closed spec fn table_ids(&self) -> Seq<ComponentId> {
        self.table_components@
    }

    /// The sparse-stored components, in increasing order.
    pub closed spec fn sparse_ids(&self) -> Seq<ComponentId> {
        self.sparse_set_components@
    }

    /// The archetype-component id of each table-stored component, by position.
    pub closed spec fn table_archetype_ids(&self) -> Seq<ArchetypeComponentId> {
        self.table_archetype_components@
    }

    /// The archetype-component id of each sparse-stored component, by position.
    pub closed spec fn sparse_archetype_ids(&self) -> Seq<ArchetypeComponentId> {
        self.sparse_archetype_components@
    }

    pub open spec fn wf(&self) -> bool {
        &&& strictly_sorted(self.table_ids())
        &&& strictly_sorted(self.sparse_ids())
        &&& self.table_ids().len() == self.table_archetype_ids().len()
        &&& self.sparse_ids().len() == self.sparse_archetype_ids().len()
        &&& self.table_ids().to_set().disjoint(self.sparse_ids().to_set())
    }

    /// The components of this archetype, of both storage kinds.
    pub open spec fn has_component(&self, c: ComponentId) -> bool {
        self.table_ids().contains(c) || self.sparse_ids().contains(c)
    }

    /// An archetype with the given components, each paired with its archetype-component id,
    /// and no entities.
    pub fn new(
        id: ArchetypeId,
        table_id: TableId,
        table_components: Vec<(ComponentId, ArchetypeComponentId)>,
        sparse_set_components: Vec<(ComponentId, ArchetypeComponentId)>,
    ) -> (r: Archetype)
        ensures
            r.spec_id() == id,
            r.spec_table_id() == table_id,
            r.entity_seq().len() == 0,
            r.table_ids() == table_components@.map_values(|p: (ComponentId, ArchetypeComponentId)| p.0),
            r.table_archetype_ids() == table_components@.map_values(|p: (ComponentId, ArchetypeComponentId)| p.1),
            r.sparse_ids() == sparse_set_components@.map_values(|p: (ComponentId, ArchetypeComponentId)| p.0),
            r.sparse_archetype_ids() == sparse_set_components@.map_values(|p: (ComponentId, ArchetypeComponentId)| p.1),
            forall|b: BundleId| r.spec_edges().add_edge(b).is_none(),
    {
        let (tc, ta) = unzip(&table_components);
        let (sc, sa) = unzip(&sparse_set_components);
        Archetype {
            id,
            table_id,
            edges: Edges::new(),
            entities: Vec::new(),
            table_components: tc,
            table_archetype_components: ta,
            sparse_set_components: sc,
            sparse_archetype_components: sa,
        }
    }

    pub fn id(&self) -> (r: ArchetypeId)
        ensures
            r == self.spec_id(),
    {
        self.id
    }

    pub fn table_id(&self) -> (r: TableId)
        ensures
            r == self.spec_table_id(),
    {
        self.table_id
    }

    pub fn entities(&self) -> (r: &[ArchetypeEntity])
        ensures
            r@ == self.entity_seq(),
    {
        self.entities.as_slice()
    }

    pub fn table_components(&self) -> (r: &[ComponentId])
        ensures
            r@ == self.table_ids(),
    {
        self.table_components.as_slice()
    }

    pub fn sparse_set_components(&self) -> (r: &[ComponentId])
        ensures
            r@ == self.sparse_ids(),
    {
        self.sparse_set_components.as_slice()
    }

    /// Every component: the table-stored ones, then the sparse-stored ones.
    pub fn components(&self) -> (r: Vec<ComponentId>)
        ensures
            r@ == self.table_ids() + self.sparse_ids(),
    {
        let mut out = self.table_components.clone();
        let mut more = self.sparse_set_components.clone();
        proof {
            assert(out@ =~= self.table_ids());
            assert(more@ =~= self.sparse_ids());
        }
        out.append(&mut more);
        out
    }

    pub fn edges(&self) -> (r: &Edges)
        ensures
            *r == self.spec_edges(),
    {
        &self.edges
    }

    pub fn entity_table_row(&self, row: ArchetypeRow) -> (r: TableRow)
        requires
            row.0 < self.entity_seq().len(),
        ensures
            r == self.entity_seq()[row.0 as int].table_row,
    {
        self.entities[row.index()].table_row
    }

    pub fn set_entity_table_row(&mut self, row: ArchetypeRow, table_row: TableRow)
        requires
            row.0 < old(self).entity_seq().len(),
        ensures
            final(self).entity_seq() == old(self).entity_seq().update(
                row.0 as int,
                ArchetypeEntity { entity: old(self).entity_seq()[row.0 as int].entity, table_row },
            ),
            final(self).same_shape(*old(self)),
            final(self).spec_edges() == old(self).spec_edges(),
    {
        let i = row.index();
        let e = self.entities[i].entity;
        self.entities.set(i, ArchetypeEntity { entity: e, table_row });
    }

    /// Everything but the entity list and the edges is equal.
    pub open spec fn same_shape(&self, other: Archetype) -> bool {
        &&& self.spec_id() == other.spec_id()
        &&& self.spec_table_id() == other.spec_table_id()
        &&& self.table_ids() == other.table_ids()
        &&& self.sparse_ids() == other.sparse_ids()
        &&& self.table_archetype_ids() == other.table_archetype_ids()
        &&& self.sparse_archetype_ids() == other.sparse_archetype_ids()
    }

    /// Appends `entity`, stored at `table_row`, and returns its location.
    pub fn allocate(&mut self, entity: Entity, table_row: TableRow) -> (r: EntityLocation)
        requires
            old(self).entity_seq().len() < u32::MAX,
        ensures
            final(self).entity_seq() == old(self).entity_seq().push(ArchetypeEntity { entity, table_row }),
            final(self).same_shape(*old(self)),
            final(self).spec_edges() == old(self).spec_edges(),
            r == (EntityLocation {
                archetype_id: old(self).spec_id(),
                archetype_row: ArchetypeRow(old(self).entity_seq().len() as u32),
                table_id: old(self).spec_table_id(),
                table_row,
            }),
    {
        let archetype_row = ArchetypeRow::new(self.entities.len());
        self.entities.push(ArchetypeEntity { entity, table_row });
        EntityLocation { archetype_id: self.id, archetype_row, table_id: self.table_id, table_row }
    }

    /// Makes room for `additional` more entities.
    pub fn reserve(&mut self, additional: usize)
        ensures
            final(self).entity_seq() == old(self).entity_seq(),
            final(self).same_shape(*old(self)),
            final(self).spec_edges() == old(self).spec_edges(),
    {
        self.entities.reserve(additional);
    }

    /// Removes `row` by moving the last entity into it.
    pub fn swap_remove(&mut self, row: ArchetypeRow) -> (r: ArchetypeSwapRemoveResult)
        requires
            row.0 < old(self).entity_seq().len(),
        ensures
            final(self).entity_seq() == swap_removed(old(self).entity_seq(), row.0 as int),
            final(self).same_shape(*old(self)),
            final(self).spec_edges() == old(self).spec_edges(),
            r.table_row == old(self).entity_seq()[row.0 as int].table_row,
            r.swapped_entity == (if row.0 == old(self).entity_seq().len() - 1 {
                None
            } else {
                Some(old(self).entity_seq().last().entity)
            }),
    {
        let i = row.index();
        let is_last = i == self.entities.len() - 1;
        let last = self.entities[self.entities.len() - 1].entity;
        let removed = self.entities.swap_remove(i);
        ArchetypeSwapRemoveResult { swapped_entity: if is_last { None } else { Some(last) }, table_row: removed.table_row }
    }

    pub fn len(&self) -> (r: usize)
        ensures
            r == self.entity_seq().len(),
    {
        self.entities.len()
    }

    pub fn is_empty(&self) -> (r: bool)
        ensures
            r == (self.entity_seq().len() == 0),
    {
        self.entities.len() == 0
    }

    pub fn contains(&self, component_id: ComponentId) -> (r: bool)
        ensures
            r == self.has_component(component_id),
    {
        position(&self.table_components, component_id).is_some() || position(
            &self.sparse_set_components,
            component_id,
        ).is_some()
    }

    /// How `component_id` is stored for this archetype, if it has it.
    pub fn get_storage_type(&self, component_id: ComponentId) -> (r: Option<StorageType>)
        ensures
            r == (if self.table_ids().contains(component_id) {
                Some(StorageType::Table)
            } else if self.sparse_ids().contains(component_id) {
                Some(StorageType::SparseSet)
            } else {
                None
            }),
    {
        if position(&self.table_components, component_id).is_some() {
            Some(StorageType::Table)
        } else if position(&self.sparse_set_components, component_id).is_some() {
            Some(StorageType::SparseSet)
        } else {
            None
        }
    }

    /// The archetype-component id of `component_id` in this archetype, if it has it.
    pub fn get_archetype_component_id(&self, component_id: ComponentId) -> (r: Option<ArchetypeComponentId>)
        requires
            self.wf(),
        ensures
            r == (if self.table_ids().contains(component_id) {
                Some(self.table_archetype_ids()[index_in(self.table_ids(), component_id)])
            } else if self.sparse_ids().contains(component_id) {
                Some(self.sparse_archetype_ids()[index_in(self.sparse_ids(), component_id)])
            } else {
                None
            }),
    {
        match position(&self.table_components, component_id) {
            Some(p) => {
                proof {
                    lemma_index_in_sorted(self.table_ids(), component_id, p as int);
                }
                Some(self.table_archetype_components[p])
            },
            None => match position(&self.sparse_set_components, component_id) {
                Some(p) => {
                    proof {
                        lemma_index_in_sorted(self.sparse_ids(), component_id, p as int);
                    }
                    Some(self.sparse_archetype_components[p])
                },
                None => None,
            },
        }
    }

    /// Removes every entity.
    pub fn clear_entities(&mut self)
        ensures
            final(self).entity_seq().len() == 0,
            final(self).same_shape(*old(self)),
            final(self).spec_edges() == old(self).spec_edges(),
    {
        self.entities.clear();
    }

    /// Caches the add transition for `bundle_id`.
    pub fn insert_add_bundle(&mut self, bundle_id: BundleId, archetype_id: ArchetypeId, bundle_status: Vec<ComponentStatus>)
        requires
            bundle_id.0 < usize::MAX,
        ensures
            final(self).entity_seq() == old(self).entity_seq(),
            final(self).same_shape(*old(self)),
            final(self).spec_edges().add_edge(bundle_id) == Some(AddBundle { archetype_id, bundle_status }),
            forall|b: BundleId| b != bundle_id ==> final(self).spec_edges().add_edge(b) == old(self).spec_edges().add_edge(b),
    {
        self.edges.insert_add_bundle(bundle_id, archetype_id, bundle_status);
    }
}

/// In a strictly sorted sequence, the chosen position of an element is its only position.
proof fn lemma_index_in_sorted(s: Seq<ComponentId>, c: ComponentId, p: int)
    requires
        strictly_sorted(s),
        0 <= p < s.len(),
        s[p] == c,
    ensures
        index_in(s, c) == p,
{
    let q = index_in(s, c);
    assert(0 <= q < s.len() && s[q] == c);
    if q < p {
        assert(s[q].0 < s[p].0);
    } else if q > p {
        assert(s[p].0 < s[q].0);
    }
}

/// The position of `c` in `s`.
fn position(s: &Vec<ComponentId>, c: ComponentId) -> (r: Option<usize>)
    ensures
        r.is_none() == !s@.contains(c),
        r matches Some(p) ==> p < s@.len() && s@[p as int] == c,
{
    let mut p: usize = 0;
    while p < s.len()
        invariant
            p <= s@.len(),
            forall|q: int| 0 <= q < p ==> s@[q] != c,
        decreases s@.len() - p,
    {
        if s[p] == c {
            return Some(p);
        }
        p = p + 1;
    }
    None
}

/// The first and second halves of each pair, in order.
fn unzip(pairs: &Vec<(ComponentId, ArchetypeComponentId)>) -> (r: (Vec<ComponentId>, Vec<ArchetypeComponentId>))
    ensures
        r.0@ == pairs@.map_values(|p: (ComponentId, ArchetypeComponentId)| p.0),
        r.1@ == pairs@.map_values(|p: (ComponentId, ArchetypeComponentId)| p.1),
{
    let mut a: Vec<ComponentId> = Vec::new();
    let mut b: Vec<ArchetypeComponentId> = Vec::new();
    let mut i: usize = 0;
    while i < pairs.len()
        invariant
            i <= pairs@.len(),
            a@ == pairs@.subrange(0, i as int).map_values(|p: (ComponentId, ArchetypeComponentId)| p.0),
            b@ == pairs@.subrange(0, i as int).map_values(|p: (ComponentId, ArchetypeComponentId)| p.1),
        decreases pairs@.len() - i,
    {
        let (x, y) = pairs[i];
        a.push(x);
        b.push(y);
        i = i + 1;
        proof {
            assert(a@ =~= pairs@.subrange(0, i as int).map_values(|p: (ComponentId, ArchetypeComponentId)| p.0));
            assert(b@ =~= pairs@.subrange(0, i as int).map_values(|p: (ComponentId, ArchetypeComponentId)| p.1));
        }
    }
    proof {
        assert(pairs@.subrange(0, pairs@.len() as int) =~= pairs@);
    }
    (a, b)
}

/// The component signature of an archetype: its table-stored and its sparse-stored components.
pub open spec fn signature(a: Archetype) -> (Set<ComponentId>, Set<ComponentId>) {
    (a.table_ids().to_set(), a.sparse_ids().to_set())
}

/// Every archetype ever created, the component-less one first, with a lookup from signatures
/// to archetypes.
pub struct Archetypes {
    archetypes: Vec<Archetype>,
    archetype_component_count: usize,
    archetype_ids: SignatureIndex,
}

impl Archetypes {
    /// The archetypes, by id.
    pub closed spec fn archetype_seq(&self) -> Seq<Archetype> {
        self.archetypes@
    }

    /// How many archetype-component ids were handed out.
    pub closed spec fn component_count(&self) -> nat {
        self.archetype_component_count as nat
    }

    /// The lookup agrees with the archetypes both ways.
    pub closed spec fn index_ok(&self) -> bool {
        &&& forall|k: (Seq<usize>, Seq<usize>)| #[trigger] index_contents(&self.archetype_ids).contains_key(k) ==> {
            let v = index_contents(&self.archetype_ids)[k];
            &&& v < self.archetypes@.len()
            &&& k == (raw_ids(self.archetypes@[v as int].table_ids()), raw_ids(self.archetypes@[v as int].sparse_ids()))
        }
        &&& forall|i: int| 0 <= i < self.archetypes@.len() ==> {
            let k = (raw_ids((#[trigger] self.archetypes@[i]).table_ids()), raw_ids(self.archetypes@[i].sparse_ids()));
            &&& index_contents(&self.archetype_ids).contains_key(k)
            &&& index_contents(&self.archetype_ids)[k] == i
        }
    }

    pub open spec fn wf(&self) -> bool {
        &&& 1 <= self.archetype_seq().len() <= u32::MAX
        &&& forall|i: int| 0 <= i < self.archetype_seq().len() ==> (#[trigger] self.archetype_seq()[i]).spec_id().0 == i
            && self.archetype_seq()[i].wf()
        &&& self.archetype_seq()[0].table_ids().len() == 0
        &&& self.archetype_seq()[0].sparse_ids().len() == 0
        &&& self.archetype_seq()[0].spec_table_id().0 == 0
        &&& self.index_ok()
    }

    /// Only the archetype without components, stored in the column-less table.
    pub fn new() -> (r: Archetypes)
        ensures
            r.wf(),
            r.archetype_seq().len() == 1,
            r.archetype_seq()[0].entity_seq().len() == 0,
            forall|b: BundleId| r.archetype_seq()[0].spec_edges().add_edge(b).is_none(),
    {
        let mut archetypes = Archetypes { archetypes: Vec::new(), archetype_component_count: 0, archetype_ids: signature_index_new() };
        let none: Vec<ComponentId> = Vec::new();
        let _ = archetypes.get_id_or_insert(TableId::empty(), &none, &none);
        proof {
            assert(none@.to_set() =~= Set::<ComponentId>::empty());
            let a = archetypes.archetypes@[0];
            if a.table_ids().len() > 0 {
                assert(a.table_ids().to_set().contains(a.table_ids()[0]));
            }
            if a.sparse_ids().len() > 0 {
                assert(a.sparse_ids().to_set().contains(a.sparse_ids()[0]));
            }
        }
        archetypes
    }

    /// The archetype with this signature, created in `table_id` when none has it. Repeated
    /// ids and their order do not matter: the signature is the pair of component sets.
    pub fn get_id_or_insert(
        &mut self,
        table_id: TableId,
        table_components: &[ComponentId],
        sparse_set_components: &[ComponentId],
    ) -> (r: ArchetypeId)
        requires
            old(self).archetype_seq().len() < u32::MAX,
            forall|i: int| 0 <= i < old(self).archetype_seq().len() ==> (#[trigger] old(self).archetype_seq()[i]).spec_id().0 == i
                && old(self).archetype_seq()[i].wf(),
            old(self).index_ok(),
            old(self).component_count() + table_components@.len() + sparse_set_components@.len() <= usize::MAX,
            table_components@.to_set().disjoint(sparse_set_components@.to_set()),
        ensures
            forall|i: int| 0 <= i < final(self).archetype_seq().len() ==> (#[trigger] final(self).archetype_seq()[i]).spec_id().0 == i
                && final(self).archetype_seq()[i].wf(),
            final(self).index_ok(),
            r.0 <= old(self).archetype_seq().len(),
            r.0 < final(self).archetype_seq().len(),
            final(self).component_count() >= old(self).component_count(),
            signature(final(self).archetype_seq()[r.0 as int]) == (table_components@.to_set(), sparse_set_components@.to_set()),
            r.0 < old(self).archetype_seq().len() ==> final(self).archetype_seq() == old(self).archetype_seq()
                && final(self).component_count() == old(self).component_count(),
            r.0 == old(self).archetype_seq().len() ==> final(self).component_count() == old(self).component_count()
                + table_components@.to_set().len() + sparse_set_components@.to_set().len(),
            r.0 == old(self).archetype_seq().len() ==> {
                &&& final(self).archetype_seq().len() == old(self).archetype_seq().len() + 1
                &&& forall|i: int| 0 <= i < old(self).archetype_seq().len() ==> #[trigger] final(self).archetype_seq()[i]
                    == old(self).archetype_seq()[i]
                &&& forall|i: int| 0 <= i < old(self).archetype_seq().len() ==> signature(#[trigger] old(self).archetype_seq()[i])
                    != (table_components@.to_set(), sparse_set_components@.to_set())
                &&& final(self).archetype_seq()[r.0 as int].spec_table_id() == table_id
                &&& final(self).archetype_seq()[r.0 as int].entity_seq().len() == 0
                &&& forall|b: BundleId| final(self).archetype_seq()[r.0 as int].spec_edges().add_edge(b).is_none()
            },
    {
        let sorted_table = sorted_unique(table_components);
        let sorted_sparse = sorted_unique(sparse_set_components);
        let key_table = to_raw(sorted_table.as_slice());
        let key_sparse = to_raw(sorted_sparse.as_slice());
        let ghost request = (table_components@.to_set(), sparse_set_components@.to_set());
        match signature_index_get(&self.archetype_ids, &key_table, &key_sparse) {
            Some(v) => {
                proof {
                    let a = self.archetypes@[v as int];
                    lemma_raw_ids_injective(a.table_ids(), sorted_table@);
                    lemma_raw_ids_injective(a.sparse_ids(), sorted_sparse@);
                }
                ArchetypeId(v)
            },
            None => {
                proof {
                    assert forall|i: int| 0 <= i < old(self).archetypes@.len() implies signature(
                        #[trigger] old(self).archetypes@[i],
                    ) != request by {
                        let a = old(self).archetypes@[i];
                        if signature(a) == request {
                            lemma_sorted_set_unique(a.table_ids(), sorted_table@);
                            lemma_sorted_set_unique(a.sparse_ids(), sorted_sparse@);
                        }
                    }
                }
                let id = self.archetypes.len();
                let mut count = self.archetype_component_count;
                let mut table_pairs: Vec<(ComponentId, ArchetypeComponentId)> = Vec::new();
                let mut i: usize = 0;
                while i < sorted_table.len()
                    invariant
                        i <= sorted_table@.len(),
                        count == self.archetype_component_count + i,
                        self.archetype_component_count + sorted_table@.len() + sorted_sparse@.len() <= usize::MAX,
                        table_pairs@.map_values(|p: (ComponentId, ArchetypeComponentId)| p.0) == sorted_table@.subrange(0, i as int),
                        table_pairs@.len() == i,
                    decreases sorted_table@.len() - i,
                {
                    table_pairs.push((sorted_table[i], ArchetypeComponentId(count)));
                    count = count + 1;
                    i = i + 1;
                    proof {
                        assert(table_pairs@.map_values(|p: (ComponentId, ArchetypeComponentId)| p.0) =~= sorted_table@.subrange(0, i as int));
                    }
                }
                let mut sparse_pairs: Vec<(ComponentId, ArchetypeComponentId)> = Vec::new();
                let mut j: usize = 0;
                while j < sorted_sparse.len()
                    invariant
                        j <= sorted_sparse@.len(),
                        count == self.archetype_component_count + sorted_table@.len() + j,
                        self.archetype_component_count + sorted_table@.len() + sorted_sparse@.len() <= usize::MAX,
                        sparse_pairs@.map_values(|p: (ComponentId, ArchetypeComponentId)| p.0) == sorted_sparse@.subrange(0, j as int),
                        sparse_pairs@.len() == j,
                    decreases sorted_sparse@.len() - j,
                {
                    sparse_pairs.push((sorted_sparse[j], ArchetypeComponentId(count)));
                    count = count + 1;
                    j = j + 1;
                    proof {
                        assert(sparse_pairs@.map_values(|p: (ComponentId, ArchetypeComponentId)| p.0) =~= sorted_sparse@.subrange(0, j as int));
                    }
                }
                proof {
                    assert(sorted_table@.subrange(0, sorted_table@.len() as int) =~= sorted_table@);
                    assert(sorted_sparse@.subrange(0, sorted_sparse@.len() as int) =~= sorted_sparse@);
                }
                proof {
                    sorted_table@.unique_seq_to_set();
                    sorted_sparse@.unique_seq_to_set();
                }
                let archetype = Archetype::new(ArchetypeId(id as u32), table_id, table_pairs, sparse_pairs);
                self.archetype_component_count = count;
                self.archetypes.push(archetype);
                signature_index_insert(&mut self.archetype_ids, key_table, key_sparse, id as u32);
                proof {
                    let key = (key_table@, key_sparse@);
                    let new_a = self.archetypes@[id as int];
                    assert(new_a.table_ids() == sorted_table@);
                    assert(new_a.sparse_ids() == sorted_sparse@);
                    assert forall|k: (Seq<usize>, Seq<usize>)| #[trigger] index_contents(&self.archetype_ids).contains_key(k) implies ({
                        let v = index_contents(&self.archetype_ids)[k];
                        &&& v < self.archetypes@.len()
                        &&& k == (raw_ids(self.archetypes@[v as int].table_ids()), raw_ids(self.archetypes@[v as int].sparse_ids()))
                    }) by {
                        if k != key {
                            assert(index_contents(&old(self).archetype_ids).contains_key(k));
                            let v = index_contents(&old(self).archetype_ids)[k];
                            assert(self.archetypes@[v as int] == old(self).archetypes@[v as int]);
                        }
                    }
                    assert forall|i: int| 0 <= i < self.archetypes@.len() implies ({
                        let k = (raw_ids((#[trigger] self.archetypes@[i]).table_ids()), raw_ids(self.archetypes@[i].sparse_ids()));
                        &&& index_contents(&self.archetype_ids).contains_key(k)
                        &&& index_contents(&self.archetype_ids)[k] == i
                    }) by {
                        if i < id {
                            let a = old(self).archetypes@[i];
                            assert(self.archetypes@[i] == a);
                            let k = (raw_ids(a.table_ids()), raw_ids(a.sparse_ids()));
                            assert(index_contents(&old(self).archetype_ids).contains_key(k));
                            assert(k != key);
                        }
                    }
                    assert(new_a.wf()) by {
                        assert(new_a.table_ids().to_set() == table_components@.to_set());
                        assert(new_a.sparse_ids().to_set() == sparse_set_components@.to_set());
                    }
                }
                ArchetypeId(id as u32)
            },
        }
    }

    /// The number of archetypes created so far.
    pub fn generation(&self) -> (r: ArchetypeGeneration)
        ensures
            r.0 == self.archetype_seq().len(),
    {
        ArchetypeGeneration(self.archetypes.len())
    }

    pub fn len(&self) -> (r: usize)
        ensures
            r == self.archetype_seq().len(),
    {
        self.archetypes.len()
    }

    /// The archetype without components.
    pub fn empty(&self) -> (r: &Archetype)
        requires
            self.wf(),
        ensures
            *r == self.archetype_seq()[0],
    {
        &self.archetypes[0]
    }

    pub fn get(&self, id: ArchetypeId) -> (r: Option<&Archetype>)
        ensures
            r == (if id.0 < self.archetype_seq().len() {
                Some(&self.archetype_seq()[id.0 as int])
            } else {
                None
            }),
    {
        if (id.0 as usize) < self.archetypes.len() {
            Some(&self.archetypes[id.0 as usize])
        } else {
            None
        }
    }

    /// The archetype `id`, which must exist.
    pub fn index(&self, id: ArchetypeId) -> (r: &Archetype)
        requires
            id.0 < self.archetype_seq().len(),
        ensures
            *r == self.archetype_seq()[id.0 as int],
    {
        &self.archetypes[id.0 as usize]
    }

    /// The archetypes, by id.
    pub fn iter(&self) -> (r: &[Archetype])
        ensures
            r@ == self.archetype_seq(),
    {
        self.archetypes.as_slice()
    }

    /// How many archetype-component ids were handed out.
    pub fn archetype_components_len(&self) -> (r: usize)
        ensures
            r == self.component_count(),
    {
        self.archetype_component_count
    }

    /// Appends `entity`, stored at `table_row`, to archetype `id`.
    pub fn allocate(&mut self, id: ArchetypeId, entity: Entity, table_row: TableRow) -> (r: EntityLocation)
        requires
            old(self).wf(),
            id.0 < old(self).archetype_seq().len(),
            old(self).archetype_seq()[id.0 as int].entity_seq().len() < u32::MAX,
        ensures
            final(self).wf(),
            final(self).component_count() == old(self).component_count(),
            final(self).archetype_seq().len() == old(self).archetype_seq().len(),
            forall|i: int| 0 <= i < old(self).archetype_seq().len() && i != id.0 ==> #[trigger] final(self).archetype_seq()[i]
                == old(self).archetype_seq()[i],
            final(self).archetype_seq()[id.0 as int].same_shape(old(self).archetype_seq()[id.0 as int]),
            final(self).archetype_seq()[id.0 as int].spec_edges() == old(self).archetype_seq()[id.0 as int].spec_edges(),
            final(self).archetype_seq()[id.0 as int].entity_seq() == old(self).archetype_seq()[id.0 as int].entity_seq().push(
                ArchetypeEntity { entity, table_row },
            ),
            r == (EntityLocation {
                archetype_id: id,
                archetype_row: ArchetypeRow(old(self).archetype_seq()[id.0 as int].entity_seq().len() as u32),
                table_id: old(self).archetype_seq()[id.0 as int].spec_table_id(),
                table_row,
            }),
    {
        let r = self.archetypes[id.0 as usize].allocate(entity, table_row);
        proof {
            self.lemma_shape_kept(*old(self), id.0 as int);
        }
        r
    }

    /// Removes row `row` of archetype `id` by moving its last entity into it.
    pub fn swap_remove(&mut self, id: ArchetypeId, row: ArchetypeRow) -> (r: ArchetypeSwapRemoveResult)
        requires
            old(self).wf(),
            id.0 < old(self).archetype_seq().len(),
            row.0 < old(self).archetype_seq()[id.0 as int].entity_seq().len(),
        ensures
            final(self).wf(),
            final(self).component_count() == old(self).component_count(),
            final(self).archetype_seq().len() == old(self).archetype_seq().len(),
            forall|i: int| 0 <= i < old(self).archetype_seq().len() && i != id.0 ==> #[trigger] final(self).archetype_seq()[i]
                == old(self).archetype_seq()[i],
            final(self).archetype_seq()[id.0 as int].same_shape(old(self).archetype_seq()[id.0 as int]),
            final(self).archetype_seq()[id.0 as int].spec_edges() == old(self).archetype_seq()[id.0 as int].spec_edges(),
            final(self).archetype_seq()[id.0 as int].entity_seq() == swap_removed(
                old(self).archetype_seq()[id.0 as int].entity_seq(),
                row.0 as int,
            ),
            r.table_row == old(self).archetype_seq()[id.0 as int].entity_seq()[row.0 as int].table_row,
            r.swapped_entity == (if row.0 == old(self).archetype_seq()[id.0 as int].entity_seq().len() - 1 {
                None
            } else {
                Some(old(self).archetype_seq()[id.0 as int].entity_seq().last().entity)
            }),
    {
        let r = self.archetypes[id.0 as usize].swap_remove(row);
        proof {
            self.lemma_shape_kept(*old(self), id.0 as int);
        }
        r
    }

    /// Records that the entity at `row` of archetype `id` now lives at `table_row`.
    pub fn set_entity_table_row(&mut self, id: ArchetypeId, row: ArchetypeRow, table_row: TableRow)
        requires
            old(self).wf(),
            id.0 < old(self).archetype_seq().len(),
            row.0 < old(self).archetype_seq()[id.0 as int].entity_seq().len(),
        ensures
            final(self).wf(),
            final(self).component_count() == old(self).component_count(),
            final(self).archetype_seq().len() == old(self).archetype_seq().len(),
            forall|i: int| 0 <= i < old(self).archetype_seq().len() && i != id.0 ==> #[trigger] final(self).archetype_seq()[i]
                == old(self).archetype_seq()[i],
            final(self).archetype_seq()[id.0 as int].same_shape(old(self).archetype_seq()[id.0 as int]),
            final(self).archetype_seq()[id.0 as int].spec_edges() == old(self).archetype_seq()[id.0 as int].spec_edges(),
            final(self).archetype_seq()[id.0 as int].entity_seq() == old(self).archetype_seq()[id.0 as int].entity_seq().update(
                row.0 as int,
                ArchetypeEntity { entity: old(self).archetype_seq()[id.0 as int].entity_seq()[row.0 as int].entity, table_row },
            ),
    {
        self.archetypes[id.0 as usize].set_entity_table_row(row, table_row);
        proof {
            self.lemma_shape_kept(*old(self), id.0 as int);
        }
    }

    /// Caches, on archetype `id`, the add transition for `bundle_id`.
    pub fn insert_add_bundle(&mut self, id: ArchetypeId, bundle_id: BundleId, target: ArchetypeId, bundle_status: Vec<ComponentStatus>)
        requires
            old(self).wf(),
            id.0 < old(self).archetype_seq().len(),
            bundle_id.0 < usize::MAX,
        ensures
            final(self).wf(),
            final(self).component_count() == old(self).component_count(),
            final(self).archetype_seq().len() == old(self).archetype_seq().len(),
            forall|i: int| 0 <= i < old(self).archetype_seq().len() && i != id.0 ==> #[trigger] final(self).archetype_seq()[i]
                == old(self).archetype_seq()[i],
            final(self).archetype_seq()[id.0 as int].same_shape(old(self).archetype_seq()[id.0 as int]),
            final(self).archetype_seq()[id.0 as int].entity_seq() == old(self).archetype_seq()[id.0 as int].entity_seq(),
            final(self).archetype_seq()[id.0 as int].spec_edges().add_edge(bundle_id) == Some(
                AddBundle { archetype_id: target, bundle_status },
            ),
            forall|b: BundleId| b != bundle_id ==> final(self).archetype_seq()[id.0 as int].spec_edges().add_edge(b)
                == old(self).archetype_seq()[id.0 as int].spec_edges().add_edge(b),
    {
        self.archetypes[id.0 as usize].insert_add_bundle(bundle_id, target, bundle_status);
        proof {
            self.lemma_shape_kept(*old(self), id.0 as int);
        }
    }

    /// Removes every entity of every archetype.
    pub fn clear_entities(&mut self)
        requires
            old(self).wf(),
        ensures
            final(self).wf(),
            final(self).archetype_seq().len() == old(self).archetype_seq().len(),
            forall|i: int| 0 <= i < final(self).archetype_seq().len() ==> (#[trigger] final(self).archetype_seq()[i]).entity_seq().len() == 0,
    {
        let n = self.archetypes.len();
        let mut i: usize = 0;
        while i < n
            invariant
                i <= n,
                n == self.archetypes@.len(),
                n == old(self).archetypes@.len(),
                self.archetype_ids == old(self).archetype_ids,
                self.archetype_component_count == old(self).archetype_component_count,
                forall|k: int| 0 <= k < n ==> (#[trigger] self.archetypes@[k]).same_shape(old(self).archetypes@[k]),
                forall|k: int| 0 <= k < i ==> (#[trigger] self.archetypes@[k]).entity_seq().len() == 0,
            decreases n - i,
        {
            self.archetypes[i].clear_entities();
            i = i + 1;
        }
        proof {
            assert forall|k: (Seq<usize>, Seq<usize>)| #[trigger] index_contents(&self.archetype_ids).contains_key(k) implies ({
                let v = index_contents(&self.archetype_ids)[k];
                &&& v < self.archetypes@.len()
                &&& k == (raw_ids(self.archetypes@[v as int].table_ids()), raw_ids(self.archetypes@[v as int].sparse_ids()))
            }) by {
                let v = index_contents(&self.archetype_ids)[k];
                assert(self.archetypes@[v as int].same_shape(old(self).archetypes@[v as int]));
            }
            assert forall|i: int| 0 <= i < self.archetypes@.len() implies ({
                let k = (raw_ids((#[trigger] self.archetypes@[i]).table_ids()), raw_ids(self.archetypes@[i].sparse_ids()));
                &&& index_contents(&self.archetype_ids).contains_key(k)
                &&& index_contents(&self.archetype_ids)[k] == i
            }) by {
                assert(self.archetypes@[i].same_shape(old(self).archetypes@[i]));
                assert(old(self).archetypes@[i] == old(self).archetypes@[i]);
            }
        }
    }

    proof fn lemma_shape_kept(&self, old_self: Archetypes, id: int)
        requires
            old_self.wf(),
            0 <= id < old_self.archetypes@.len(),
            self.archetypes@.len() == old_self.archetypes@.len(),
            self.archetype_ids == old_self.archetype_ids,
            self.archetype_component_count == old_self.archetype_component_count,
            forall|i: int| 0 <= i < old_self.archetypes@.len() && i != id ==> #[trigger] self.archetypes@[i] == old_self.archetypes@[i],
            self.archetypes@[id].same_shape(old_self.archetypes@[id]),
        ensures
            self.wf(),
    {
        assert forall|i: int| 0 <= i < self.archetype_seq().len() implies (#[trigger] self.archetype_seq()[i]).spec_id().0 == i
            && self.archetype_seq()[i].wf() by {
            assert(old_self.archetype_seq()[i].spec_id().0 == i);
        }
        assert forall|k: (Seq<usize>, Seq<usize>)| #[trigger] index_contents(&self.archetype_ids).contains_key(k) implies ({
            let v = index_contents(&self.archetype_ids)[k];
            &&& v < self.archetypes@.len()
            &&& k == (raw_ids(self.archetypes@[v as int].table_ids()), raw_ids(self.archetypes@[v as int].sparse_ids()))
        }) by {
            assert(index_contents(&old_self.archetype_ids).contains_key(k));
        }
        assert forall|i: int| 0 <= i < self.archetypes@.len() implies ({
            let k = (raw_ids((#[trigger] self.archetypes@[i]).table_ids()), raw_ids(self.archetypes@[i].sparse_ids()));
            &&& index_contents(&self.archetype_ids).contains_key(k)
            &&& index_contents(&self.archetype_ids)[k] == i
        }) by {
            assert(old_self.archetypes@[i] == old_self.archetypes@[i]);
        }
    }
}

/// Distinct archetypes have distinct signatures: a signature names at most one archetype.
pub proof fn lemma_signature_identifies(archetypes: &Archetypes, i: int, j: int)
    requires
        archetypes.wf(),
        0 <= i < archetypes.archetype_seq().len(),
        0 <= j < archetypes.archetype_seq().len(),
        signature(archetypes.archetype_seq()[i]) == signature(archetypes.archetype_seq()[j]),
    ensures
        i == j,
{
    let a = archetypes.archetypes@[i];
    let b = archetypes.archetypes@[j];
    lemma_sorted_set_unique(a.table_ids(), b.table_ids());
    lemma_sorted_set_unique(a.sparse_ids(), b.sparse_ids());
    assert(archetypes.archetypes@[i] == a);
    assert(archetypes.archetypes@[j] == b);
}

} // verus!
