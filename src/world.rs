use vstd::prelude::*;

use crate::archetype::{
    signature, AddBundle, ArchetypeEntity, ArchetypeId, ArchetypeRow, Archetypes, BundleComponentStatus, ComponentStatus,
    SpawnBundleStatus,
};
use crate::bundle::{added_signature, graph_grew, graph_ok, kind_of, of_kind, BundleId, BundleInfo, Bundles};
use crate::component::{ComponentDescriptor, ComponentId, Components, StorageType, Tick};
use crate::entity::{Entities, Entity, EntityLocation, EntityMeta};
use crate::sparse_set::SparseSets;
use crate::archetype::Archetype;
use crate::table::{Table, TableId, TableRow, Tables};

verus! {

/// Every entity's location record matches where it is stored: each archetype entry and each
/// table row names an entity whose record points back at it, every placed record points at an
/// archetype entry of its entity, and no pending index is placed.
pub open spec fn locations_ok(entities: &Entities, archetypes: &Archetypes, tables: &Tables) -> bool {
    locations_agree(entities.metas(), entities.pending_indices(), archetypes.archetype_seq(), tables.table_seq())
}

/// `locations_ok` over the records, the pending indices, the archetypes and the tables.
pub open spec fn locations_agree(metas: Seq<EntityMeta>, pending: Seq<u32>, arch: Seq<Archetype>, tabs: Seq<Table>) -> bool {
    &&& forall|a: int| 0 <= a < arch.len() ==> (#[trigger] arch[a]).entity_seq().len() <= u32::MAX
    &&& forall|t: int| 0 <= t < tabs.len() ==> (#[trigger] tabs[t]).entity_seq().len() <= u32::MAX
    &&& forall|a: int, r: int| 0 <= a < arch.len() && 0 <= r < arch[a].entity_seq().len() ==> {
        let ae = #[trigger] arch[a].entity_seq()[r];
        let t = arch[a].spec_table_id();
        &&& ae.entity.index < metas.len()
        &&& metas[ae.entity.index as int] == (EntityMeta {
            generation: ae.entity.generation,
            location: EntityLocation {
                archetype_id: ArchetypeId(a as u32),
                archetype_row: ArchetypeRow(r as u32),
                table_id: t,
                table_row: ae.table_row,
            },
        })
        &&& 0 <= t.0 < tabs.len()
        &&& ae.table_row.0 < tabs[t.0 as int].entity_seq().len()
        &&& tabs[t.0 as int].entity_seq()[ae.table_row.0 as int] == ae.entity
    }
    &&& forall|t: int, k: int| 0 <= t < tabs.len() && 0 <= k < tabs[t].entity_seq().len() ==> {
        let e = #[trigger] tabs[t].entity_seq()[k];
        let m = metas[e.index as int];
        &&& e.index < metas.len()
        &&& m.generation == e.generation
        &&& m.location.table_id.0 == t
        &&& m.location.table_row.0 == k
        &&& m.location.archetype_id.0 < arch.len()
        &&& m.location.archetype_row.0 < arch[m.location.archetype_id.0 as int].entity_seq().len()
        &&& arch[m.location.archetype_id.0 as int].entity_seq()[m.location.archetype_row.0 as int] == (ArchetypeEntity {
            entity: e,
            table_row: TableRow(k as u32),
        })
    }
    &&& forall|i: int| 0 <= i < metas.len() && (#[trigger] metas[i]).location.archetype_id.0 != u32::MAX ==> {
        let loc = metas[i].location;
        &&& loc.archetype_id.0 < arch.len()
        &&& loc.archetype_row.0 < arch[loc.archetype_id.0 as int].entity_seq().len()
        &&& arch[loc.archetype_id.0 as int].entity_seq()[loc.archetype_row.0 as int].entity == (Entity {
            generation: metas[i].generation,
            index: i as u32,
        })
    }
    &&& forall|k: int| 0 <= k < pending.len() ==> (#[trigger] metas[pending[k] as int]).location.archetype_id.0 == u32::MAX
}

/// The entities of archetype `a`, none past the end.
pub open spec fn entities_of(arch: Seq<Archetype>, a: int) -> Seq<ArchetypeEntity> {
    if 0 <= a < arch.len() {
        arch[a].entity_seq()
    } else {
        Seq::empty()
    }
}

/// The entities of table `t`, none past the end.
pub open spec fn rows_of(tabs: Seq<Table>, t: int) -> Seq<Entity> {
    if 0 <= t < tabs.len() {
        tabs[t].entity_seq()
    } else {
        Seq::empty()
    }
}

/// The storages, the entity allocator, the archetype graph and the registries of one world.
pub struct World {
    entities: Entities,
    components: Components,
    archetypes: Archetypes,
    tables: Tables,
    sparse_sets: SparseSets,
    bundles: Bundles,
    change_tick: Tick,
}

impl World {
    pub closed spec fn spec_entities(&self) -> Entities {
        self.entities
    }

    pub closed spec fn spec_archetypes(&self) -> Archetypes {
        self.archetypes
    }

    pub closed spec fn spec_tables(&self) -> Tables {
        self.tables
    }

    pub closed spec fn spec_components(&self) -> Components {
        self.components
    }

    pub closed spec fn spec_bundles(&self) -> Bundles {
        self.bundles
    }

    pub closed spec fn spec_sparse_sets(&self) -> SparseSets {
        self.sparse_sets
    }

    pub closed spec fn spec_change_tick(&self) -> Tick {
        self.change_tick
    }

    pub open spec fn wf(&self) -> bool {
        &&& self.spec_entities().wf()
        &&& self.spec_entities().is_flushed()
        &&& graph_ok(&self.spec_archetypes(), &self.spec_tables(), &self.spec_components(), &self.spec_bundles())
        &&& locations_ok(&self.spec_entities(), &self.spec_archetypes(), &self.spec_tables())
        &&& self.spec_sparse_sets().wf()
        &&& forall|c: ComponentId| c.0 < self.spec_components().infos().len() && kind_of(self.spec_components().infos(), c)
            == StorageType::SparseSet ==> self.spec_sparse_sets().ids().contains(c)
    }

    /// The location of `entity` when it is live and placed.
    pub open spec fn location_of(&self, entity: Entity) -> Option<EntityLocation> {
        crate::entity::spec_get(self.spec_entities().metas(), entity)
    }

    /// An empty world: no entities, no components, the component-less archetype and table.
    pub fn new() -> (r: World)
        ensures
            r.wf(),
            r.spec_entities().metas().len() == 0,
            r.spec_archetypes().archetype_seq().len() == 1,
            r.spec_tables().table_seq().len() == 1,
    {
        let w = World {
            entities: Entities::new(),
            components: Components::new(),
            archetypes: Archetypes::new(),
            tables: Tables::new(),
            sparse_sets: SparseSets::new(),
            bundles: Bundles::new(),
            change_tick: Tick::new(0),
        };
        proof {
            assert(w.archetypes.archetype_seq()[0].spec_table_id().0 == 0);
            assert(w.tables.table_seq()[0].ids() =~= w.archetypes.archetype_seq()[0].table_ids());
        }
        w
    }

    /// There is room for one more entity in every archetype and table, for one more record,
    /// one more archetype and table, and for the archetype-component ids of one more archetype.
    pub open spec fn has_room(&self) -> bool {
        &&& self.spec_entities().metas().len() + 1 < u32::MAX
        &&& self.spec_archetypes().archetype_seq().len() + 1 < u32::MAX
        &&& self.spec_tables().table_seq().len() + 1 < u32::MAX
        &&& self.spec_archetypes().component_count() + 2 * self.spec_components().infos().len() <= usize::MAX
        &&& forall|a: int| 0 <= a < self.spec_archetypes().archetype_seq().len() ==> (#[trigger] self.spec_archetypes().archetype_seq()[a]).entity_seq().len()
            + 1 < u32::MAX
        &&& forall|t: int| 0 <= t < self.spec_tables().table_seq().len() ==> (#[trigger] self.spec_tables().table_seq()[t]).entity_seq().len()
            + 1 < u32::MAX
    }

    pub fn entities(&self) -> (r: &Entities)
        ensures
            *r == self.spec_entities(),
    {
        &self.entities
    }

    pub fn archetypes(&self) -> (r: &Archetypes)
        ensures
            *r == self.spec_archetypes(),
    {
        &self.archetypes
    }

    pub fn tables(&self) -> (r: &Tables)
        ensures
            *r == self.spec_tables(),
    {
        &self.tables
    }

    pub fn components(&self) -> (r: &Components)
        ensures
            *r == self.spec_components(),
    {
        &self.components
    }

    pub fn bundles(&self) -> (r: &Bundles)
        ensures
            *r == self.spec_bundles(),
    {
        &self.bundles
    }

    pub fn sparse_sets(&self) -> (r: &SparseSets)
        ensures
            *r == self.spec_sparse_sets(),
    {
        &self.sparse_sets
    }

    /// The tick stamped on writes.
    pub fn change_tick(&self) -> (r: Tick)
        ensures
            r == self.spec_change_tick(),
    {
        self.change_tick
    }

    /// Advances the tick stamped on writes by one, wrapping.
    pub fn increment_change_tick(&mut self) -> (r: Tick)
        ensures
            r == old(self).spec_change_tick(),
            final(self).spec_change_tick().tick == vstd::wrapping::u32_specs::wrapping_add(old(self).spec_change_tick().tick, 1),
            final(self).spec_entities() == old(self).spec_entities(),
            final(self).spec_archetypes() == old(self).spec_archetypes(),
            final(self).spec_tables() == old(self).spec_tables(),
            final(self).spec_components() == old(self).spec_components(),
            final(self).spec_bundles() == old(self).spec_bundles(),
            final(self).spec_sparse_sets() == old(self).spec_sparse_sets(),
    {
        let t = self.change_tick;
        self.change_tick = Tick::new(t.get().wrapping_add(1));
        t
    }

    /// Rebases every stored stamp that has grown older than the largest comparable age relative
    /// to the current tick, so that comparisons stay correct however long the world runs.
    pub fn check_change_ticks(&mut self)
        requires
            old(self).wf(),
        ensures
            final(self).wf(),
            final(self).spec_entities() == old(self).spec_entities(),
            final(self).spec_archetypes() == old(self).spec_archetypes(),
    {
        let tick = self.change_tick;
        let ghost before = self.tables;
        self.tables.check_change_ticks(tick);
        proof {
            lemma_tables_rows_kept(&self.entities, &self.archetypes, &before, &self.tables, &self.components, &self.bundles);
        }
    }

    /// Registers a component type; its id is the next free index. A sparse-stored type gets
    /// its store.
    pub fn register_component(&mut self, descriptor: ComponentDescriptor) -> (r: ComponentId)
        requires
            old(self).wf(),
        ensures
            final(self).wf(),
            r.0 == old(self).spec_components().infos().len(),
            final(self).spec_components().infos() == old(self).spec_components().infos().push(
                crate::component::ComponentInfo { id: r, descriptor },
            ),
            final(self).spec_entities() == old(self).spec_entities(),
            final(self).spec_archetypes() == old(self).spec_archetypes(),
            final(self).spec_tables() == old(self).spec_tables(),
            final(self).spec_bundles() == old(self).spec_bundles(),
    {
        let ghost infos0 = self.components.infos();
        let sparse = match descriptor.storage_type {
            StorageType::SparseSet => true,
            StorageType::Table => false,
        };
        let id = self.components.init_component_with_descriptor(descriptor);
        if sparse {
            let info = &self.components.iter()[id.0];
            self.sparse_sets.get_or_insert(info);
        }
        proof {
            let infos = self.components.infos();
            assert forall|c: ComponentId| c.0 < infos0.len() implies kind_of(infos, c) == kind_of(infos0, c) by {
                assert(infos[c.0 as int] == infos0[c.0 as int]);
            }
            let arch = self.archetypes.archetype_seq();
            assert forall|a: int| 0 <= a < arch.len() implies {
                let x = #[trigger] arch[a];
                &&& forall|k: int| 0 <= k < x.table_ids().len() ==> (#[trigger] x.table_ids()[k]).0 < infos.len()
                    && kind_of(infos, x.table_ids()[k]) == StorageType::Table
                &&& forall|k: int| 0 <= k < x.sparse_ids().len() ==> (#[trigger] x.sparse_ids()[k]).0 < infos.len()
                    && kind_of(infos, x.sparse_ids()[k]) == StorageType::SparseSet
            } by {
                let x = arch[a];
                assert forall|k: int| 0 <= k < x.table_ids().len() implies (#[trigger] x.table_ids()[k]).0 < infos.len()
                    && kind_of(infos, x.table_ids()[k]) == StorageType::Table by {
                    assert(kind_of(infos, x.table_ids()[k]) == kind_of(infos0, x.table_ids()[k]));
                }
                assert forall|k: int| 0 <= k < x.sparse_ids().len() implies (#[trigger] x.sparse_ids()[k]).0 < infos.len()
                    && kind_of(infos, x.sparse_ids()[k]) == StorageType::SparseSet by {
                    assert(kind_of(infos, x.sparse_ids()[k]) == kind_of(infos0, x.sparse_ids()[k]));
                }
            }
            assert forall|a: int, b: BundleId| 0 <= a < arch.len() implies (#[trigger] arch[a].spec_edges().add_edge(b) matches Some(
                ab,
            ) ==> {
                &&& b.0 < self.bundles.infos().len()
                &&& ab.archetype_id.0 < arch.len()
                &&& signature(arch[ab.archetype_id.0 as int]) == added_signature(arch[a], self.bundles.infos()[b.0 as int].ids(), infos)
                &&& ab.bundle_status@ == crate::bundle::bundle_statuses(arch[a], self.bundles.infos()[b.0 as int].ids())
            }) by {
                if let Some(ab) = arch[a].spec_edges().add_edge(b) {
                    let bids = self.bundles.infos()[b.0 as int].ids();
                    assert(of_kind(bids, infos, StorageType::Table) =~= of_kind(bids, infos0, StorageType::Table)) by {
                        assert forall|c: ComponentId| bids.to_set().contains(c) implies kind_of(infos, c) == kind_of(infos0, c) by {
                            let k = choose|k: int| 0 <= k < bids.len() && bids[k] == c;
                            assert(bids[k].0 < infos0.len());
                        }
                    }
                    assert(of_kind(bids, infos, StorageType::SparseSet) =~= of_kind(bids, infos0, StorageType::SparseSet)) by {
                        assert forall|c: ComponentId| bids.to_set().contains(c) implies kind_of(infos, c) == kind_of(infos0, c) by {
                            let k = choose|k: int| 0 <= k < bids.len() && bids[k] == c;
                            assert(bids[k].0 < infos0.len());
                        }
                    }
                }
            }
            assert forall|c: ComponentId| c.0 < infos.len() && kind_of(infos, c) == StorageType::SparseSet implies self.sparse_sets.ids().contains(c) by {
                if c.0 < infos0.len() {
                    assert(kind_of(infos, c) == kind_of(infos0, c));
                    assert(self.sparse_sets.ids().to_set().contains(c));
                } else {
                    assert(c == id);
                    assert(self.sparse_sets.ids().to_set().contains(c));
                }
            }
        }
        id
    }

    /// The bundle of registered components `component_ids`, which must not repeat one:
    /// the one registered earlier with the same list, else a new one.
    pub fn register_bundle(&mut self, component_ids: &[ComponentId]) -> (r: BundleId)
        requires
            old(self).wf(),
            forall|k: int| 0 <= k < component_ids@.len() ==> (#[trigger] component_ids@[k]).0 < old(self).spec_components().infos().len(),
            component_ids@.no_duplicates(),
        ensures
            final(self).wf(),
            r.0 < final(self).spec_bundles().infos().len(),
            final(self).spec_bundles().infos()[r.0 as int].ids() == component_ids@,
            r.0 <= old(self).spec_bundles().infos().len(),
            final(self).spec_entities() == old(self).spec_entities(),
            final(self).spec_archetypes() == old(self).spec_archetypes(),
            final(self).spec_tables() == old(self).spec_tables(),
            final(self).spec_components() == old(self).spec_components(),
    {
        let ghost b0 = self.bundles.infos();
        let r = self.bundles.init_dynamic_info(&self.components, component_ids);
        proof {
            let arch = self.archetypes.archetype_seq();
            let infos = self.components.infos();
            assert forall|a: int, b: BundleId| 0 <= a < arch.len() implies (#[trigger] arch[a].spec_edges().add_edge(b) matches Some(
                ab,
            ) ==> {
                &&& b.0 < self.bundles.infos().len()
                &&& ab.archetype_id.0 < arch.len()
                &&& signature(arch[ab.archetype_id.0 as int]) == added_signature(arch[a], self.bundles.infos()[b.0 as int].ids(), infos)
                &&& ab.bundle_status@ == crate::bundle::bundle_statuses(arch[a], self.bundles.infos()[b.0 as int].ids())
            }) by {
                if let Some(ab) = arch[a].spec_edges().add_edge(b) {
                    assert(self.bundles.infos()[b.0 as int] == b0[b.0 as int]);
                }
            }
        }
        r
    }

    /// Spawns an entity with the components of bundle `bundle_id`, holding `values` in bundle
    /// order. It lands in the archetype reached by adding the bundle to the component-less one.
    #[verifier::spinoff_prover]
    pub fn spawn(&mut self, bundle_id: BundleId, values: Vec<Vec<u8>>) -> (r: Entity)
        requires
            old(self).wf(),
            old(self).has_room(),
            bundle_id.0 < old(self).spec_bundles().infos().len(),
            values@.len() == old(self).spec_bundles().infos()[bundle_id.0 as int].ids().len(),
        ensures
            final(self).wf(),
            final(self).location_of(r) matches Some(loc) && loc.archetype_id.0 < final(self).spec_archetypes().archetype_seq().len()
                && signature(final(self).spec_archetypes().archetype_seq()[loc.archetype_id.0 as int]) == added_signature(
                old(self).spec_archetypes().archetype_seq()[0],
                old(self).spec_bundles().infos()[bundle_id.0 as int].ids(),
                old(self).spec_components().infos(),
            ) && loc.archetype_row.0 == entities_of(old(self).spec_archetypes().archetype_seq(), loc.archetype_id.0 as int).len()
                && loc.table_row.0 == rows_of(old(self).spec_tables().table_seq(), loc.table_id.0 as int).len()
                && loc.table_id.0 < final(self).spec_tables().table_seq().len()
                && final(self).spec_tables().table_seq()[loc.table_id.0 as int].entity_seq()[loc.table_row.0 as int] == r
                && forall|k: int| 0 <= k < values@.len() ==> #[trigger] holds(
                    *final(self),
                    old(self).spec_bundles().infos()[bundle_id.0 as int].ids()[k],
                    r,
                    loc.table_id.0 as int,
                    loc.table_row.0 as int,
                    values@[k]@,
                    ComponentStatus::Add,
                ),
            final(self).spec_entities().live_count() == old(self).spec_entities().live_count() + 1,
            final(self).spec_change_tick() == old(self).spec_change_tick(),
    {
        let ghost vals = values@;
        proof {
            self.entities.lemma_pending();
            crate::bundle::lemma_ids_bounded(
                self.bundles.infos()[bundle_id.0 as int].ids(),
                self.components.infos().len(),
            );
        }
        let ghost e0 = self.entities;
        let entity = self.entities.allocate();
        let ghost a0 = self.archetypes;
        let ghost t0 = self.tables;
        let aid = self.bundles.get(bundle_id).unwrap().add_bundle_to_archetype(
            &mut self.archetypes,
            &mut self.tables,
            &self.components,
            &self.bundles,
            ArchetypeId::empty(),
        );
        let ghost a1 = self.archetypes;
        let ghost t1 = self.tables;
        let table_id = self.archetypes.index(aid).table_id();
        proof {
            assert(a1.archetype_seq()[aid.0 as int] == a1.archetype_seq()[aid.0 as int]);
            if table_id.0 < t0.table_seq().len() {
                assert(t1.table_seq()[table_id.0 as int] == t0.table_seq()[table_id.0 as int]);
            }
            if aid.0 < a0.archetype_seq().len() {
                assert(a1.archetype_seq()[aid.0 as int].entity_seq() == a0.archetype_seq()[aid.0 as int].entity_seq());
            }
            assert(a1.archetype_seq()[aid.0 as int].entity_seq() =~= entities_of(a0.archetype_seq(), aid.0 as int));
            assert(t1.table_seq()[table_id.0 as int].entity_seq() =~= rows_of(t0.table_seq(), table_id.0 as int));
        }
        let table_row = self.tables.allocate(table_id, entity);
        let loc = self.archetypes.allocate(aid, entity, table_row);
        self.entities.set(entity.index, loc);
        proof {
            let a2 = self.archetypes.archetype_seq();
            let t2 = self.tables.table_seq();
            lemma_graph_entities_only(&a1, &self.archetypes, &t1, &self.tables, &self.components, &self.bundles);
            assert forall|a: int| 0 <= a < a0.archetype_seq().len() implies (#[trigger] a2[a]).spec_table_id()
                == a0.archetype_seq()[a].spec_table_id() by {
                assert(a1.archetype_seq()[a].same_shape(a0.archetype_seq()[a]));
            }
            assert forall|a: int| 0 <= a < a2.len() && a != aid.0 implies (#[trigger] a2[a]).entity_seq() == entities_of(
                a0.archetype_seq(),
                a,
            ) by {
                assert(a2[a] == a1.archetype_seq()[a]);
            }
            assert forall|t: int| 0 <= t < t2.len() && t != table_id.0 implies (#[trigger] t2[t]).entity_seq() == rows_of(
                t0.table_seq(),
                t,
            ) by {
                assert(t2[t] == t1.table_seq()[t]);
            }
            lemma_spawn_locations(
                e0.metas(),
                e0.pending_indices(),
                self.entities.metas(),
                self.entities.pending_indices(),
                a0.archetype_seq(),
                a2,
                t0.table_seq(),
                t2,
                entity,
                aid.0 as int,
                table_id.0 as int,
            );
            let x = a1.archetype_seq()[aid.0 as int];
            assert(x.table_ids().to_set() == added_signature(a0.archetype_seq()[0], self.bundles.infos()[bundle_id.0 as int].ids(), self.components.infos()).0);
            assert(a0.archetype_seq()[0].table_ids().to_set() =~= Set::<ComponentId>::empty());
            assert(a0.archetype_seq()[0].sparse_ids().to_set() =~= Set::<ComponentId>::empty());
            assert(a2[aid.0 as int].table_ids() == x.table_ids());
        }
        let ghost pre = *self;
        proof {
            assert(pre.archetypes.archetype_seq()[aid.0 as int].spec_table_id() == table_id);
        }
        self.write_components(bundle_id, aid, table_row, entity, &SpawnBundleStatus, values);
        proof {
            let ids = self.bundles.infos()[bundle_id.0 as int].ids();
            assert forall|k: int| 0 <= k < vals.len() implies #[trigger] written(pre, *self, ids[k], entity, table_id.0 as int,
                table_row.0 as int, vals[k]@, SpawnBundleStatus.status_at(k)) by {
            }
            assert forall|k: int| 0 <= k < vals.len() implies #[trigger] holds(*self, ids[k], entity, table_id.0 as int, table_row.0 as int,
                vals[k]@, ComponentStatus::Add) by {
                assert(written(pre, *self, ids[k], entity, table_id.0 as int, table_row.0 as int, vals[k]@, SpawnBundleStatus.status_at(k)));
                assert(SpawnBundleStatus.status_at(k) == ComponentStatus::Add);
            }
            assert(crate::entity::spec_get(self.entities.metas(), entity) == Some(loc));
        }
        entity
    }

    /// The location of `entity` when it is live and placed.
    pub fn get(&self, entity: Entity) -> (r: Option<EntityLocation>)
        requires
            self.wf(),
        ensures
            r == self.location_of(entity),
    {
        self.entities.get(entity)
    }

    /// Removes a live, placed entity with all its components; the entity whose archetype entry
    /// or table row fills the hole gets its location patched. Returns whether `entity` was live.
    #[verifier::rlimit(100)]
    #[verifier::spinoff_prover]
    pub fn despawn(&mut self, entity: Entity) -> (r: bool)
        requires
            old(self).wf(),
        ensures
            final(self).wf(),
            r == old(self).location_of(entity).is_some(),
            r ==> final(self).location_of(entity).is_none() && final(self).spec_entities().live_count() + 1
                == old(self).spec_entities().live_count(),
            !r ==> *final(self) == *old(self),
    {
        let loc = match self.entities.get(entity) {
            Some(l) => l,
            None => return false,
        };
        let sparse = self.archetypes.index(loc.archetype_id).sparse_set_components();
        let mut k: usize = 0;
        while k < sparse.len()
            invariant
                k <= sparse@.len(),
                self.sparse_sets.wf(),
                self.sparse_sets.ids() == old(self).sparse_sets.ids(),
                self.entities == old(self).entities,
                self.archetypes == old(self).archetypes,
                self.tables == old(self).tables,
                self.components == old(self).components,
                self.bundles == old(self).bundles,
                self.change_tick == old(self).change_tick,
            decreases sparse@.len() - k,
        {
            self.sparse_sets.remove(sparse[k], entity);
            k = k + 1;
        }
        let ghost m0 = self.entities.metas();
        let ghost p0 = self.entities.pending_indices();
        let ghost a0 = self.archetypes.archetype_seq();
        let ghost t0 = self.tables.table_seq();
        let ghost arch_before = self.archetypes;
        let ghost tables_before = self.tables;
        let ghost idx = entity.index as int;
        let ghost aid = loc.archetype_id.0 as int;
        let ghost arow = loc.archetype_row.0 as int;
        let ghost tid = loc.table_id.0 as int;
        let ghost trow = loc.table_row.0 as int;
        proof {
            self.entities.lemma_pending();
            assert(m0[idx].location.archetype_id.0 != u32::MAX);
            assert(a0[aid].entity_seq()[arow].entity == entity);
            assert(a0[aid].entity_seq()[arow] == a0[aid].entity_seq()[arow]);
        }
        let res = self.archetypes.swap_remove(loc.archetype_id, loc.archetype_row);
        let ghost a1 = self.archetypes.archetype_seq();
        match res.swapped_entity {
            Some(d) => {
                proof {
                    let last = a0[aid].entity_seq().len() - 1;
                    assert(a0[aid].entity_seq()[last] == a0[aid].entity_seq()[last]);
                    assert(crate::entity::spec_get(m0, d).is_some());
                }
                match self.entities.get(d) {
                    Some(dl) => {
                        self.entities.set(
                            d.index,
                            EntityLocation {
                                archetype_id: dl.archetype_id,
                                archetype_row: loc.archetype_row,
                                table_id: dl.table_id,
                                table_row: dl.table_row,
                            },
                        );
                    },
                    None => {},
                }
            },
            None => {},
        }
        let ghost m1 = self.entities.metas();
        proof {
            lemma_archetype_removal_step(m0, p0, a0, t0, m1, a1, entity, aid, arow, tid, trow);
        }
        let moved = self.tables.swap_remove(loc.table_id, loc.table_row);
        let ghost t1 = self.tables.table_seq();
        match moved {
            Some(d2) => {
                proof {
                    let last_t = t0[tid].entity_seq().len() - 1;
                    assert(t0[tid].entity_seq()[last_t] == t0[tid].entity_seq()[last_t]);
                    assert(crate::entity::spec_get(m1, d2).is_some());
                    let dl2 = m1[d2.index as int].location;
                    assert(dl2.archetype_id.0 < a1.len());
                    assert(dl2.archetype_row.0 < a1[dl2.archetype_id.0 as int].entity_seq().len());
                }
                match self.entities.get(d2) {
                    Some(dl2) => {
                        self.entities.set(
                            d2.index,
                            EntityLocation {
                                archetype_id: dl2.archetype_id,
                                archetype_row: dl2.archetype_row,
                                table_id: dl2.table_id,
                                table_row: loc.table_row,
                            },
                        );
                        self.archetypes.set_entity_table_row(dl2.archetype_id, dl2.archetype_row, loc.table_row);
                    },
                    None => {},
                }
            },
            None => {},
        }
        let ghost m2 = self.entities.metas();
        let ghost a2 = self.archetypes.archetype_seq();
        proof {
            lemma_despawn_table_step(m0, p0, a0, t0, m1, a1, t1, m2, a2, entity, aid, arow, tid, trow);
        }
        let _ = self.entities.free(entity);
        proof {
            assert forall|a: int| 0 <= a < a0.len() implies (#[trigger] self.archetypes.archetype_seq()[a]).same_shape(a0[a])
                && self.archetypes.archetype_seq()[a].spec_edges() == a0[a].spec_edges() by {
                assert(a1[a].same_shape(a0[a]) && a1[a].spec_edges() == a0[a].spec_edges());
            }
            lemma_graph_entities_only(&arch_before, &self.archetypes, &tables_before, &self.tables, &self.components, &self.bundles);
            lemma_despawn_free_step(m2, p0, a2, t1, self.entities.metas(), self.entities.pending_indices(), entity);
        }
        true
    }

    /// Adds the components of bundle `bundle_id`, holding `values` in bundle order, to a live,
    /// placed entity. Components it already has are overwritten in place; otherwise the entity
    /// moves to the archetype with the added signature, and to that archetype's table when it
    /// differs, and the entities displaced by the moves get their locations patched. Returns the
    /// new location, or `None` (changing nothing) when `entity` is not live and placed.
    #[verifier::rlimit(100)]
    #[verifier::spinoff_prover]
    pub fn insert(&mut self, entity: Entity, bundle_id: BundleId, values: Vec<Vec<u8>>) -> (r: Option<EntityLocation>)
        requires
            old(self).wf(),
            old(self).has_room(),
            bundle_id.0 < old(self).spec_bundles().infos().len(),
            values@.len() == old(self).spec_bundles().infos()[bundle_id.0 as int].ids().len(),
        ensures
            final(self).wf(),
            old(self).location_of(entity).is_none() ==> r.is_none() && *final(self) == *old(self),
            old(self).location_of(entity) matches Some(l) ==> r matches Some(nl) && final(self).location_of(entity) == Some(nl)
                && nl.archetype_id.0 < final(self).spec_archetypes().archetype_seq().len()
                && signature(final(self).spec_archetypes().archetype_seq()[nl.archetype_id.0 as int]) == added_signature(
                old(self).spec_archetypes().archetype_seq()[l.archetype_id.0 as int],
                old(self).spec_bundles().infos()[bundle_id.0 as int].ids(),
                old(self).spec_components().infos(),
            ) && (added_signature(
                old(self).spec_archetypes().archetype_seq()[l.archetype_id.0 as int],
                old(self).spec_bundles().infos()[bundle_id.0 as int].ids(),
                old(self).spec_components().infos(),
            ) == signature(old(self).spec_archetypes().archetype_seq()[l.archetype_id.0 as int]) ==> nl == l),
            final(self).spec_entities().live_count() == old(self).spec_entities().live_count(),
            final(self).spec_change_tick() == old(self).spec_change_tick(),
            old(self).location_of(entity) matches Some(l) ==> ({
                let nl = r.unwrap();
                let arch = old(self).spec_archetypes().archetype_seq();
                let ids = old(self).spec_bundles().infos()[bundle_id.0 as int].ids();
                let added = added_signature(arch[l.archetype_id.0 as int], ids, old(self).spec_components().infos());
                let statuses = crate::bundle::bundle_statuses(arch[l.archetype_id.0 as int], ids);
                &&& forall|i: int| 0 <= i < arch.len() ==> signature(#[trigger] final(self).spec_archetypes().archetype_seq()[i])
                    == signature(arch[i])
                &&& final(self).spec_archetypes().archetype_seq().len() <= arch.len() + 1
                &&& (exists|i: int| 0 <= i < arch.len() && signature(arch[i]) == added)
                    ==> final(self).spec_archetypes().archetype_seq().len() == arch.len()
                &&& forall|k: int| 0 <= k < values@.len() ==> #[trigger] holds(
                    *final(self),
                    ids[k],
                    entity,
                    nl.table_id.0 as int,
                    nl.table_row.0 as int,
                    values@[k]@,
                    statuses[k],
                )
                &&& added == signature(arch[l.archetype_id.0 as int]) ==> {
                    &&& final(self).spec_archetypes().archetype_seq().len() == arch.len()
                    &&& (forall|a: int| 0 <= a < arch.len() ==> (#[trigger] final(self).spec_archetypes().archetype_seq()[a]).entity_seq()
                        == arch[a].entity_seq())
                    &&& final(self).spec_tables().table_seq().len() == old(self).spec_tables().table_seq().len()
                    &&& (forall|t: int| 0 <= t < old(self).spec_tables().table_seq().len()
                        ==> (#[trigger] final(self).spec_tables().table_seq()[t]).entity_seq()
                        == old(self).spec_tables().table_seq()[t].entity_seq())
                    &&& (forall|k: int| 0 <= k < values@.len() ==> #[trigger] written(
                        *old(self),
                        *final(self),
                        ids[k],
                        entity,
                        l.table_id.0 as int,
                        l.table_row.0 as int,
                        values@[k]@,
                        statuses[k],
                    ))
                }
                &&& added != signature(arch[l.archetype_id.0 as int]) ==> {
                    let src = arch[l.archetype_id.0 as int].entity_seq();
                    let rows = old(self).spec_tables().table_seq()[l.table_id.0 as int].entity_seq();
                    &&& l.archetype_row.0 != src.len() - 1 ==> (final(self).location_of(src.last().entity) matches Some(lx)
                        && lx.archetype_row == l.archetype_row)
                    &&& nl.table_id != l.table_id && l.table_row.0 != rows.len() - 1 ==> (final(self).location_of(rows.last()) matches Some(
                        ly,
                    ) && ly.table_row == l.table_row)
                    &&& nl.table_id != l.table_id ==> nl.table_row.0 == rows_of(old(self).spec_tables().table_seq(), nl.table_id.0 as int).len()
                }
            }),
    {
        let ghost vals = values@;
        let loc = match self.entities.get(entity) {
            Some(l) => l,
            None => return None,
        };
        let ghost idx = entity.index as int;
        let ghost aid = loc.archetype_id.0 as int;
        let ghost arow = loc.archetype_row.0 as int;
        let ghost tid = loc.table_id.0 as int;
        let ghost trow = loc.table_row.0 as int;
        let ghost ids = self.bundles.infos()[bundle_id.0 as int].ids();
        let ghost infos = self.components.infos();
        let ghost arch_start = self.archetypes;
        let ghost tables_start = self.tables;
        proof {
            self.entities.lemma_pending();
            let x = self.archetypes.archetype_seq()[aid];
            lemma_signature_size(x, infos);
            crate::bundle::lemma_ids_bounded(ids, infos.len());
        }
        let new_aid = self.bundles.get(bundle_id).unwrap().add_bundle_to_archetype(
            &mut self.archetypes,
            &mut self.tables,
            &self.components,
            &self.bundles,
            loc.archetype_id,
        );
        proof {
            lemma_locations_grow(
                self.entities.metas(),
                self.entities.pending_indices(),
                arch_start.archetype_seq(),
                self.archetypes.archetype_seq(),
                tables_start.table_seq(),
                self.tables.table_seq(),
            );
            assert(self.archetypes.archetype_seq()[aid].same_shape(arch_start.archetype_seq()[aid]));
            if added_signature(arch_start.archetype_seq()[aid], ids, infos) == signature(arch_start.archetype_seq()[aid]) {
                crate::archetype::lemma_signature_identifies(&self.archetypes, new_aid.0 as int, aid);
            }
        }
        let statuses = copy_statuses(
            self.archetypes.index(loc.archetype_id).edges().get_add_bundle_internal(BundleId(bundle_id.0)).unwrap().bundle_status.as_slice(),
        );
        let add = AddBundle { archetype_id: new_aid, bundle_status: statuses };
        if new_aid.0 == loc.archetype_id.0 {
            let ghost pre = *self;
            self.write_components(bundle_id, new_aid, loc.table_row, entity, &add, values);
            proof {
                assert(pre.tables == tables_start);
                assert forall|k: int| 0 <= k < vals.len() implies #[trigger] holds(*self, ids[k], entity, tid, trow, vals[k]@,
                    add.bundle_status@[k]) by {
                    assert(written(pre, *self, ids[k], entity, tid, trow, vals[k]@, add.status_at(k)));
                }
                assert forall|k: int| 0 <= k < vals.len() implies #[trigger] written(*old(self), *self, ids[k], entity, tid, trow, vals[k]@,
                    add.bundle_status@[k]) by {
                    assert(written(pre, *self, ids[k], entity, tid, trow, vals[k]@, add.status_at(k)));
                }
                assert forall|a: int| 0 <= a < arch_start.archetype_seq().len() implies signature(
                    #[trigger] self.archetypes.archetype_seq()[a]) == signature(arch_start.archetype_seq()[a]) by {
                    assert(self.archetypes.archetype_seq()[a].same_shape(arch_start.archetype_seq()[a]));
                }
            }
            return Some(loc);
        }
        proof {
            let x = self.archetypes.archetype_seq()[aid];
            let y = self.archetypes.archetype_seq()[new_aid.0 as int];
            assert(x.table_ids().to_set().subset_of(y.table_ids().to_set()));
            assert(self.archetypes.archetype_seq()[new_aid.0 as int].entity_seq().len() + 1 < u32::MAX) by {
                if new_aid.0 < arch_start.archetype_seq().len() {
                    assert(self.archetypes.archetype_seq()[new_aid.0 as int].entity_seq() == arch_start.archetype_seq()[new_aid.0 as int].entity_seq());
                }
            }
            let nt = y.spec_table_id().0 as int;
            assert(self.tables.table_seq()[nt].entity_seq().len() + 1 < u32::MAX) by {
                if nt < tables_start.table_seq().len() {
                    assert(self.tables.table_seq()[nt] == tables_start.table_seq()[nt]);
                }
            }
        }
        let ghost arch_mid = self.archetypes;
        let ghost tables_mid = self.tables;
        let nl = self.move_entity(entity, loc, new_aid);
        let ghost pre = *self;
        self.write_components(bundle_id, new_aid, nl.table_row, entity, &add, values);
        proof {
            assert forall|k: int| 0 <= k < vals.len() implies #[trigger] holds(*self, ids[k], entity, nl.table_id.0 as int,
                nl.table_row.0 as int, vals[k]@, add.bundle_status@[k]) by {
                assert(written(pre, *self, ids[k], entity, nl.table_id.0 as int, nl.table_row.0 as int, vals[k]@, add.status_at(k)));
            }
            assert forall|a: int| 0 <= a < arch_start.archetype_seq().len() implies signature(
                #[trigger] self.archetypes.archetype_seq()[a]) == signature(arch_start.archetype_seq()[a]) by {
                assert(arch_mid.archetype_seq()[a].same_shape(arch_start.archetype_seq()[a]));
                assert(self.archetypes.archetype_seq()[a].same_shape(arch_mid.archetype_seq()[a]));
            }
            if nl.table_id != loc.table_id {
                let nt = nl.table_id.0 as int;
                if nt < tables_start.table_seq().len() {
                    assert(tables_mid.table_seq()[nt] == tables_start.table_seq()[nt]);
                } else {
                    assert(tables_mid.table_seq()[nt].entity_seq().len() == 0);
                }
            }
            assert(tables_mid.table_seq()[tid] == tables_start.table_seq()[tid]);
            assert(arch_mid.archetype_seq()[aid].entity_seq() == arch_start.archetype_seq()[aid].entity_seq());
        }
        Some(nl)
    }

    /// Moves a live, placed entity from its archetype to archetype `new_aid`, whose table holds
    /// at least the columns of the current one, carrying its row to that table when it differs.
    /// The entities that fill the vacated archetype entry and table row get their locations
    /// patched.
    #[verifier::rlimit(100)]
    #[verifier::spinoff_prover]
    fn move_entity(&mut self, entity: Entity, loc: EntityLocation, new_aid: ArchetypeId) -> (nl: EntityLocation)
        requires
            old(self).wf(),
            old(self).location_of(entity) == Some(loc),
            new_aid.0 < old(self).spec_archetypes().archetype_seq().len(),
            new_aid != loc.archetype_id,
            signature(old(self).spec_archetypes().archetype_seq()[loc.archetype_id.0 as int]).0.subset_of(
                signature(old(self).spec_archetypes().archetype_seq()[new_aid.0 as int]).0),
            old(self).spec_archetypes().archetype_seq()[new_aid.0 as int].entity_seq().len() + 1 < u32::MAX,
            old(self).spec_tables().table_seq()[old(self).spec_archetypes().archetype_seq()[new_aid.0 as int].spec_table_id().0 as int].entity_seq().len()
                + 1 < u32::MAX,
        ensures
            final(self).wf(),
            final(self).location_of(entity) == Some(nl),
            nl.archetype_id == new_aid,
            nl.archetype_row.0 == old(self).spec_archetypes().archetype_seq()[new_aid.0 as int].entity_seq().len(),
            nl.table_id == old(self).spec_archetypes().archetype_seq()[new_aid.0 as int].spec_table_id(),
            nl.table_id == loc.table_id ==> nl.table_row == loc.table_row,
            nl.table_id != loc.table_id ==> nl.table_row.0 == old(self).spec_tables().table_seq()[nl.table_id.0 as int].entity_seq().len(),
            final(self).spec_archetypes().archetype_seq().len() == old(self).spec_archetypes().archetype_seq().len(),
            forall|i: int| 0 <= i < old(self).spec_archetypes().archetype_seq().len() ==> (#[trigger] final(self).spec_archetypes().archetype_seq()[i]).same_shape(
                old(self).spec_archetypes().archetype_seq()[i]) && final(self).spec_archetypes().archetype_seq()[i].spec_edges()
                == old(self).spec_archetypes().archetype_seq()[i].spec_edges(),
            final(self).spec_tables().table_seq().len() == old(self).spec_tables().table_seq().len(),
            forall|t: int| 0 <= t < old(self).spec_tables().table_seq().len() ==> (#[trigger] final(self).spec_tables().table_seq()[t]).ids()
                == old(self).spec_tables().table_seq()[t].ids(),
            final(self).spec_components() == old(self).spec_components(),
            final(self).spec_bundles() == old(self).spec_bundles(),
            final(self).spec_sparse_sets() == old(self).spec_sparse_sets(),
            final(self).spec_change_tick() == old(self).spec_change_tick(),
            final(self).spec_entities().live_count() == old(self).spec_entities().live_count(),
            ({
                let src = old(self).spec_archetypes().archetype_seq()[loc.archetype_id.0 as int].entity_seq();
                loc.archetype_row.0 != src.len() - 1 ==> (final(self).location_of(src.last().entity) matches Some(lx)
                    && lx.archetype_row == loc.archetype_row)
            }),
            ({
                let rows = old(self).spec_tables().table_seq()[loc.table_id.0 as int].entity_seq();
                nl.table_id != loc.table_id && loc.table_row.0 != rows.len() - 1 ==> (final(self).location_of(rows.last()) matches Some(ly)
                    && ly.table_row == loc.table_row)
            }),
    {
        let ghost idx = entity.index as int;
        let ghost aid = loc.archetype_id.0 as int;
        let ghost arow = loc.archetype_row.0 as int;
        let ghost tid = loc.table_id.0 as int;
        let ghost trow = loc.table_row.0 as int;
        proof {
            self.entities.lemma_pending();
        }
        let new_table = self.archetypes.index(new_aid).table_id();
        let ghost m0 = self.entities.metas();
        let ghost p0 = self.entities.pending_indices();
        let ghost a0 = self.archetypes.archetype_seq();
        let ghost t0 = self.tables.table_seq();
        let ghost arch_before = self.archetypes;
        let ghost tables_before = self.tables;
        proof {
            assert(a0[aid].entity_seq()[arow] == a0[aid].entity_seq()[arow]);
        }
        let res = self.archetypes.swap_remove(loc.archetype_id, loc.archetype_row);
        let ghost a1 = self.archetypes.archetype_seq();
        match res.swapped_entity {
            Some(d) => {
                proof {
                    let last = a0[aid].entity_seq().len() - 1;
                    assert(a0[aid].entity_seq()[last] == a0[aid].entity_seq()[last]);
                    assert(crate::entity::spec_get(m0, d).is_some());
                }
                match self.entities.get(d) {
                    Some(dl) => {
                        self.entities.set(
                            d.index,
                            EntityLocation {
                                archetype_id: dl.archetype_id,
                                archetype_row: loc.archetype_row,
                                table_id: dl.table_id,
                                table_row: dl.table_row,
                            },
                        );
                    },
                    None => {},
                }
            },
            None => {},
        }
        let ghost m1 = self.entities.metas();
        proof {
            lemma_archetype_removal_step(m0, p0, a0, t0, m1, a1, entity, aid, arow, tid, trow);
        }
        let nl;
        if new_table.0 == loc.table_id.0 {
            nl = self.archetypes.allocate(new_aid, entity, loc.table_row);
            self.entities.set(entity.index, nl);
            proof {
                lemma_reattach(m1, p0, a1, t0, self.entities.metas(), self.archetypes.archetype_seq(), entity, new_aid.0 as int, tid, trow);
            }
        } else {
            proof {
                let x = a0[aid];
                let y = a0[new_aid.0 as int];
                assert forall|c: ComponentId| t0[tid].ids().contains(c) implies t0[new_table.0 as int].ids().contains(c) by {
                    assert(x.table_ids().to_set().contains(c));
                    assert(y.table_ids().to_set().contains(c));
                }
            }
            let mv = self.tables.move_to_superset(loc.table_id, new_table, loc.table_row);
            let ghost t1 = self.tables.table_seq();
            match mv.swapped_entity {
                Some(d2) => {
                    proof {
                        let last_t = t0[tid].entity_seq().len() - 1;
                        assert(t0[tid].entity_seq()[last_t] == t0[tid].entity_seq()[last_t]);
                        assert(crate::entity::spec_get(m1, d2).is_some());
                        let dl2 = m1[d2.index as int].location;
                        assert(dl2.archetype_id.0 < a1.len());
                        assert(dl2.archetype_row.0 < a1[dl2.archetype_id.0 as int].entity_seq().len());
                    }
                    match self.entities.get(d2) {
                        Some(dl2) => {
                            self.entities.set(
                                d2.index,
                                EntityLocation {
                                    archetype_id: dl2.archetype_id,
                                    archetype_row: dl2.archetype_row,
                                    table_id: dl2.table_id,
                                    table_row: loc.table_row,
                                },
                            );
                            self.archetypes.set_entity_table_row(dl2.archetype_id, dl2.archetype_row, loc.table_row);
                        },
                        None => {},
                    }
                },
                None => {},
            }
            let ghost m2 = self.entities.metas();
            let ghost a2 = self.archetypes.archetype_seq();
            proof {
                lemma_move_table_step(m0, p0, a0, t0, m1, a1, t1, m2, a2, entity, aid, arow, tid, trow, new_table.0 as int);
            }
            nl = self.archetypes.allocate(new_aid, entity, mv.new_row);
            self.entities.set(entity.index, nl);
            proof {
                lemma_reattach(m2, p0, a2, t1, self.entities.metas(), self.archetypes.archetype_seq(), entity, new_aid.0 as int,
                    new_table.0 as int, t0[new_table.0 as int].entity_seq().len() as int);
            }
        }
        proof {
            assert forall|a: int| 0 <= a < a0.len() implies (#[trigger] self.archetypes.archetype_seq()[a]).same_shape(a0[a])
                && self.archetypes.archetype_seq()[a].spec_edges() == a0[a].spec_edges() by {
                assert(a1[a].same_shape(a0[a]) && a1[a].spec_edges() == a0[a].spec_edges());
            }
            lemma_graph_entities_only(&arch_before, &self.archetypes, &tables_before, &self.tables, &self.components, &self.bundles);
        }
        proof {
            let mf = self.entities.metas();
            let af = self.archetypes.archetype_seq();
            let tf = self.tables.table_seq();
            let last = a0[aid].entity_seq().len() - 1;
            if arow != last {
                let x = a0[aid].entity_seq()[last].entity;
                assert(af[aid].entity_seq()[arow].entity == x);
                assert(af[aid].entity_seq()[arow] == af[aid].entity_seq()[arow]);
                assert(crate::entity::spec_get(mf, x).is_some());
            }
            if new_table.0 != loc.table_id.0 {
                let last_t = t0[tid].entity_seq().len() - 1;
                if trow != last_t {
                    let y = t0[tid].entity_seq()[last_t];
                    assert(tf[tid].entity_seq()[trow] == y);
                    assert(tf[tid].entity_seq()[trow] == tf[tid].entity_seq()[trow]);
                    assert(crate::entity::spec_get(mf, y).is_some());
                }
            }
        }
        nl
    }

    /// Writes the values of a bundle for `entity`, stored at `table_row` of the table of
    /// archetype `archetype_id`; each value is written fresh or as an overwrite as `status` says.
    fn write_components<S: BundleComponentStatus>(
        &mut self,
        bundle_id: BundleId,
        archetype_id: ArchetypeId,
        table_row: TableRow,
        entity: Entity,
        status: &S,
        values: Vec<Vec<u8>>,
    )
        requires
            old(self).wf(),
            bundle_id.0 < old(self).spec_bundles().infos().len(),
            values@.len() == old(self).spec_bundles().infos()[bundle_id.0 as int].ids().len(),
            forall|i: int| 0 <= i < values@.len() ==> status.has_status(i),
            archetype_id.0 < old(self).spec_archetypes().archetype_seq().len(),
            table_row.0 < old(self).spec_tables().table_seq()[old(self).spec_archetypes().archetype_seq()[archetype_id.0 as int].spec_table_id().0 as int].entity_seq().len(),
            of_kind(old(self).spec_bundles().infos()[bundle_id.0 as int].ids(), old(self).spec_components().infos(), StorageType::Table).subset_of(
                signature(old(self).spec_archetypes().archetype_seq()[archetype_id.0 as int]).0),
            entity.index < u32::MAX,
        ensures
            final(self).wf(),
            final(self).spec_entities() == old(self).spec_entities(),
            final(self).spec_archetypes() == old(self).spec_archetypes(),
            final(self).spec_components() == old(self).spec_components(),
            final(self).spec_bundles() == old(self).spec_bundles(),
            final(self).spec_change_tick() == old(self).spec_change_tick(),
            final(self).spec_tables().table_seq().len() == old(self).spec_tables().table_seq().len(),
            forall|t: int| 0 <= t < old(self).spec_tables().table_seq().len() ==> (#[trigger] final(self).spec_tables().table_seq()[t]).entity_seq()
                == old(self).spec_tables().table_seq()[t].entity_seq() && final(self).spec_tables().table_seq()[t].ids()
                == old(self).spec_tables().table_seq()[t].ids(),
            forall|k: int| 0 <= k < values@.len() ==> #[trigger] written(
                *old(self),
                *final(self),
                old(self).spec_bundles().infos()[bundle_id.0 as int].ids()[k],
                entity,
                old(self).spec_archetypes().archetype_seq()[archetype_id.0 as int].spec_table_id().0 as int,
                table_row.0 as int,
                values@[k]@,
                status.status_at(k),
            ),
            forall|c: ComponentId, r: int| 0 <= r < old(self).spec_tables().table_seq()[old(self).spec_archetypes().archetype_seq()[archetype_id.0 as int].spec_table_id().0 as int].entity_seq().len()
                && (!old(self).spec_bundles().infos()[bundle_id.0 as int].ids().contains(c) || r != table_row.0)
                ==> #[trigger] final(self).spec_tables().table_seq()[old(self).spec_archetypes().archetype_seq()[archetype_id.0 as int].spec_table_id().0 as int].cell_for(c, r)
                == old(self).spec_tables().table_seq()[old(self).spec_archetypes().archetype_seq()[archetype_id.0 as int].spec_table_id().0 as int].cell_for(c, r),
            forall|t: int| 0 <= t < old(self).spec_tables().table_seq().len()
                && t != old(self).spec_archetypes().archetype_seq()[archetype_id.0 as int].spec_table_id().0 ==> #[trigger] final(self).spec_tables().table_seq()[t]
                == old(self).spec_tables().table_seq()[t],
            forall|c: ComponentId, i: u32| (!old(self).spec_bundles().infos()[bundle_id.0 as int].ids().contains(c) || i != entity.index)
                ==> #[trigger] final(self).spec_sparse_sets().value_in(c, i) == old(self).spec_sparse_sets().value_in(c, i),
    {
        let ghost ids = self.bundles.infos()[bundle_id.0 as int].ids();
        let ghost infos = self.components.infos();
        let ghost vals = values@;
        let table_id = self.archetypes.index(archetype_id).table_id();
        let ghost tid = table_id.0 as int;
        let ghost nrows = self.tables.table_seq()[tid].entity_seq().len();
        let tick = self.change_tick;
        let mut values = values;
        let mut i: usize = values.len();
        proof {
            assert(ids.subrange(i as int, ids.len() as int) =~= Seq::<ComponentId>::empty());
        }
        while i > 0
            invariant
                i <= ids.len(),
                vals.len() == ids.len(),
                values@ == vals.subrange(0, i as int),
                self.wf(),
                ids == self.bundles.infos()[bundle_id.0 as int].ids(),
                ids.no_duplicates(),
                infos == self.components.infos(),
                bundle_id.0 < self.bundles.infos().len(),
                forall|k: int| 0 <= k < ids.len() ==> status.has_status(k),
                table_id == self.archetypes.archetype_seq()[archetype_id.0 as int].spec_table_id(),
                tid == table_id.0,
                archetype_id.0 < self.archetypes.archetype_seq().len(),
                table_row.0 < nrows,
                nrows == self.tables.table_seq()[tid].entity_seq().len(),
                of_kind(ids, infos, StorageType::Table).subset_of(signature(self.archetypes.archetype_seq()[archetype_id.0 as int]).0),
                entity.index < u32::MAX,
                tick == self.change_tick,
                self.entities == old(self).entities,
                self.archetypes == old(self).archetypes,
                self.components == old(self).components,
                self.bundles == old(self).bundles,
                self.change_tick == old(self).change_tick,
                self.tables.table_seq().len() == old(self).tables.table_seq().len(),
                forall|t: int| 0 <= t < old(self).tables.table_seq().len() ==> (#[trigger] self.tables.table_seq()[t]).entity_seq()
                    == old(self).tables.table_seq()[t].entity_seq() && self.tables.table_seq()[t].ids()
                    == old(self).tables.table_seq()[t].ids(),
                forall|t: int| 0 <= t < old(self).tables.table_seq().len() && t != tid ==> #[trigger] self.tables.table_seq()[t]
                    == old(self).tables.table_seq()[t],
                forall|k: int| i <= k < ids.len() ==> #[trigger] written(*old(self), *self, ids[k], entity, tid, table_row.0 as int, vals[k]@, status.status_at(k)),
                forall|c: ComponentId, r: int| 0 <= r < nrows && (!ids.subrange(i as int, ids.len() as int).contains(c) || r != table_row.0)
                    ==> #[trigger] self.tables.table_seq()[tid].cell_for(c, r) == old(self).tables.table_seq()[tid].cell_for(c, r),
                forall|c: ComponentId, n: u32| (!ids.subrange(i as int, ids.len() as int).contains(c) || n != entity.index)
                    ==> #[trigger] self.sparse_sets.value_in(c, n) == old(self).sparse_sets.value_in(c, n),
            decreases i,
        {
            let v = values.pop().unwrap();
            i = i - 1;
            let c = self.bundles.get(bundle_id).unwrap().components()[i];
            let ghost pre = *self;
            proof {
                assert(ids[i as int] == c);
                assert(c.0 < infos.len());
                assert(v@ == vals[i as int]@);
                let rest = ids.subrange(i + 1, ids.len() as int);
                assert(!rest.contains(c)) by {
                    if rest.contains(c) {
                        let k = choose|k: int| 0 <= k < rest.len() && #[trigger] rest[k] == c;
                        assert(ids[i + 1 + k] == ids[i as int]);
                    }
                }
            }
            let info = self.components.get_info(c).unwrap();
            match info.storage_type() {
                StorageType::Table => {
                    let fresh = match status.get_status(i) {
                        ComponentStatus::Add => true,
                        ComponentStatus::Mutated => false,
                    };
                    proof {
                        let x = self.archetypes.archetype_seq()[archetype_id.0 as int];
                        assert(ids.contains(c));
                        assert(of_kind(ids, infos, StorageType::Table).contains(c));
                        assert(x.table_ids().to_set().contains(c));
                        assert(self.tables.table_seq()[table_id.0 as int].ids() == x.table_ids());
                    }
                    let ghost before = self.tables;
                    self.tables.write(table_id, c, table_row, v, tick, fresh);
                    proof {
                        lemma_tables_rows_kept(&self.entities, &self.archetypes, &before, &self.tables, &self.components, &self.bundles);
                    }
                },
                StorageType::SparseSet => {
                    self.sparse_sets.insert(c, entity, v, tick);
                },
            }
            proof {
                let post_sub = ids.subrange(i as int, ids.len() as int);
                let pre_sub = ids.subrange(i + 1, ids.len() as int);
                assert forall|x: ComponentId| #[trigger] post_sub.contains(x) <==> (pre_sub.contains(x) || x == c) by {
                    if post_sub.contains(x) && x != c {
                        let k = choose|k: int| 0 <= k < post_sub.len() && post_sub[k] == x;
                        assert(k != 0);
                        assert(pre_sub[k - 1] == x);
                    }
                    if pre_sub.contains(x) {
                        let k = choose|k: int| 0 <= k < pre_sub.len() && pre_sub[k] == x;
                        assert(post_sub[k + 1] == x);
                    }
                    if x == c {
                        assert(post_sub[0] == c);
                    }
                }
                assert forall|k: int| i <= k < ids.len() implies #[trigger] written(*old(self), *self, ids[k], entity, tid, table_row.0 as int, vals[k]@, status.status_at(k)) by {
                    if k > i {
                        assert(ids[k] != c);
                        assert(pre_sub[k - i - 1] == ids[k]);
                        assert(written(*old(self), pre, ids[k], entity, tid, table_row.0 as int, vals[k]@, status.status_at(k)));
                    } else {
                        assert(!pre_sub.contains(c));
                        assert(pre.tables.table_seq()[tid].cell_for(c, table_row.0 as int) == old(self).tables.table_seq()[tid].cell_for(c, table_row.0 as int));
                        assert(pre.sparse_sets.value_in(c, entity.index) == old(self).sparse_sets.value_in(c, entity.index));
                    }
                }
            }
        }
        proof {
            assert(ids.subrange(0, ids.len() as int) =~= ids);
        }
    }
}

/// Component `c` of `entity`, stored at `row` of table `tid`, holds `v`, stamped changed at
/// the world's tick, and also stamped added at that tick when its status is `Add` and it is
/// table-stored.
pub open spec fn holds(w: World, c: ComponentId, entity: Entity, tid: int, row: int, v: Seq<u8>, status: ComponentStatus) -> bool {
    if kind_of(w.spec_components().infos(), c) == StorageType::Table {
        let cell = w.spec_tables().table_seq()[tid].cell_for(c, row);
        &&& cell.0 == v
        &&& cell.2 == w.spec_change_tick()
        &&& status == ComponentStatus::Add ==> cell.1 == w.spec_change_tick()
    } else {
        w.spec_sparse_sets().value_in(c, entity.index) matches Some(x) && x.0 == v && x.1.changed == w.spec_change_tick()
    }
}

/// What writing value `v` of bundle component `c` for `entity`, stored at `row` of table
/// `tid`, leaves behind, given the world before the write: a table-stored value with its
/// `changed` stamp at the current tick, and its `added` stamp at the current tick when it is
/// added, kept when it is overwritten; a sparse-stored value stamped the same way by its store.
pub open spec fn written(
    before: World,
    after: World,
    c: ComponentId,
    entity: Entity,
    tid: int,
    row: int,
    v: Seq<u8>,
    status: ComponentStatus,
) -> bool {
    let tick = before.spec_change_tick();
    if kind_of(before.spec_components().infos(), c) == StorageType::Table {
        after.spec_tables().table_seq()[tid].cell_for(c, row) == (
            v,
            if status == ComponentStatus::Add { tick } else { before.spec_tables().table_seq()[tid].cell_for(c, row).1 },
            tick,
        )
    } else {
        after.spec_sparse_sets().value_in(c, entity.index) == Some((
            v,
            match before.spec_sparse_sets().value_in(c, entity.index) {
                Some(o) => crate::component::ComponentTicks { added: o.1.added, changed: tick },
                None => crate::component::ComponentTicks { added: tick, changed: tick },
            },
        ))
    }
}

/// Changing table contents without changing any table's rows or columns keeps the graph and
/// the locations consistent.
proof fn lemma_tables_rows_kept(
    entities: &Entities,
    archetypes: &Archetypes,
    before: &Tables,
    after: &Tables,
    components: &Components,
    bundles: &Bundles,
)
    requires
        graph_ok(archetypes, before, components, bundles),
        locations_ok(entities, archetypes, before),
        after.wf(),
        after.table_seq().len() == before.table_seq().len(),
        forall|t: int| 0 <= t < before.table_seq().len() ==> (#[trigger] after.table_seq()[t]).entity_seq()
            == before.table_seq()[t].entity_seq() && after.table_seq()[t].ids() == before.table_seq()[t].ids(),
    ensures
        graph_ok(archetypes, after, components, bundles),
        locations_ok(entities, archetypes, after),
{
    let arch = archetypes.archetype_seq();
    assert forall|a: int| 0 <= a < arch.len() implies (#[trigger] arch[a]).spec_table_id().0 < after.table_seq().len()
        && after.table_seq()[arch[a].spec_table_id().0 as int].ids() == arch[a].table_ids() by {
        assert(after.table_seq()[arch[a].spec_table_id().0 as int].ids() == before.table_seq()[arch[a].spec_table_id().0 as int].ids());
    }
    assert forall|a: int, r: int| 0 <= a < arch.len() && 0 <= r < arch[a].entity_seq().len() implies {
        let ae = #[trigger] arch[a].entity_seq()[r];
        let t = arch[a].spec_table_id();
        &&& ae.table_row.0 < after.table_seq()[t.0 as int].entity_seq().len()
        &&& after.table_seq()[t.0 as int].entity_seq()[ae.table_row.0 as int] == ae.entity
    } by {
        assert(after.table_seq()[arch[a].spec_table_id().0 as int].entity_seq() == before.table_seq()[arch[a].spec_table_id().0 as int].entity_seq());
    }
    assert forall|t: int, k: int| 0 <= t < after.table_seq().len() && 0 <= k < after.table_seq()[t].entity_seq().len() implies
        #[trigger] after.table_seq()[t].entity_seq()[k] == before.table_seq()[t].entity_seq()[k] by {
        assert(after.table_seq()[t].entity_seq() == before.table_seq()[t].entity_seq());
    }
}

/// Spawning keeps the locations consistent: a record that was unplaced (the last pending one,
/// or a new one) is placed at a new last entry of archetype `aid`, stored in a new last row of
/// its table `tid`.
proof fn lemma_spawn_locations(
    m0: Seq<EntityMeta>,
    p0: Seq<u32>,
    m2: Seq<EntityMeta>,
    p2: Seq<u32>,
    a0: Seq<Archetype>,
    a2: Seq<Archetype>,
    t0: Seq<Table>,
    t2: Seq<Table>,
    entity: Entity,
    aid: int,
    tid: int,
)
    requires
        locations_agree(m0, p0, a0, t0),
        p0.no_duplicates(),
        forall|k: int| 0 <= k < p0.len() ==> (#[trigger] p0[k]) < m0.len(),
        a2.len() <= u32::MAX,
        forall|a: int| 0 <= a < a0.len() ==> (#[trigger] a0[a]).spec_table_id().0 < t0.len(),
        (p0.len() > 0 && entity.index == p0.last() && p2 == p0.drop_last() && m2.len() == m0.len())
            || (entity.index == m0.len() && p2 == p0 && m2.len() == m0.len() + 1),
        forall|i: int| 0 <= i < m2.len() && i != entity.index ==> m2[i] == m0[i],
        0 <= aid < a2.len(),
        0 <= tid < t2.len(),
        a2.len() >= a0.len(),
        t2.len() >= t0.len(),
        a2[aid].spec_table_id().0 == tid,
        forall|a: int| 0 <= a < a0.len() ==> (#[trigger] a2[a]).spec_table_id() == a0[a].spec_table_id(),
        forall|a: int| 0 <= a < a2.len() && a != aid ==> (#[trigger] a2[a]).entity_seq() == entities_of(a0, a),
        a2[aid].entity_seq() == entities_of(a0, aid).push(ArchetypeEntity { entity, table_row: TableRow(rows_of(t0, tid).len() as u32) }),
        forall|t: int| 0 <= t < t2.len() && t != tid ==> (#[trigger] t2[t]).entity_seq() == rows_of(t0, t),
        t2[tid].entity_seq() == rows_of(t0, tid).push(entity),
        rows_of(t0, tid).len() < u32::MAX,
        entities_of(a0, aid).len() < u32::MAX,
        m2[entity.index as int] == (EntityMeta {
            generation: entity.generation,
            location: EntityLocation {
                archetype_id: ArchetypeId(aid as u32),
                archetype_row: ArchetypeRow(entities_of(a0, aid).len() as u32),
                table_id: a2[aid].spec_table_id(),
                table_row: TableRow(rows_of(t0, tid).len() as u32),
            },
        }),
    ensures
        locations_agree(m2, p2, a2, t2),
{
    let idx = entity.index as int;
    assert forall|a: int, r: int| 0 <= a < a0.len() && 0 <= r < a0[a].entity_seq().len() implies (#[trigger] a0[a].entity_seq()[r]).entity.index
        != idx by {
        let ae = a0[a].entity_seq()[r];
        if ae.entity.index == idx && idx < m0.len() {
            assert(p0[p0.len() - 1] == entity.index);
            assert(m0[p0[p0.len() - 1] as int].location.archetype_id.0 == u32::MAX);
        }
    }
    assert forall|t: int, k: int| 0 <= t < t0.len() && 0 <= k < t0[t].entity_seq().len() implies (#[trigger] t0[t].entity_seq()[k]).index
        != idx by {
        let e = t0[t].entity_seq()[k];
        if e.index == idx && idx < m0.len() {
            assert(p0[p0.len() - 1] == entity.index);
            assert(m0[p0[p0.len() - 1] as int].location.archetype_id.0 == u32::MAX);
            let aa = m0[idx].location.archetype_id.0;
            assert(aa < a0.len());
        }
    }
    assert forall|a: int, r: int| 0 <= a < a2.len() && 0 <= r < a2[a].entity_seq().len() implies {
        let ae = #[trigger] a2[a].entity_seq()[r];
        let t = a2[a].spec_table_id();
        &&& ae.entity.index < m2.len()
        &&& m2[ae.entity.index as int] == (EntityMeta {
            generation: ae.entity.generation,
            location: EntityLocation {
                archetype_id: ArchetypeId(a as u32),
                archetype_row: ArchetypeRow(r as u32),
                table_id: t,
                table_row: ae.table_row,
            },
        })
        &&& 0 <= t.0 < t2.len()
        &&& ae.table_row.0 < t2[t.0 as int].entity_seq().len()
        &&& t2[t.0 as int].entity_seq()[ae.table_row.0 as int] == ae.entity
    } by {
        if a == aid && r == entities_of(a0, aid).len() {
        } else {
            assert(a < a0.len());
            assert(a2[a].entity_seq()[r] == a0[a].entity_seq()[r]);
            let ae = a0[a].entity_seq()[r];
            let t = a0[a].spec_table_id().0 as int;
            assert(t2[t].entity_seq()[ae.table_row.0 as int] == t0[t].entity_seq()[ae.table_row.0 as int]);
        }
    }
    assert forall|t: int, k: int| 0 <= t < t2.len() && 0 <= k < t2[t].entity_seq().len() implies {
        let e = #[trigger] t2[t].entity_seq()[k];
        let m = m2[e.index as int];
        &&& e.index < m2.len()
        &&& m.generation == e.generation
        &&& m.location.table_id.0 == t
        &&& m.location.table_row.0 == k
        &&& m.location.archetype_id.0 < a2.len()
        &&& m.location.archetype_row.0 < a2[m.location.archetype_id.0 as int].entity_seq().len()
        &&& a2[m.location.archetype_id.0 as int].entity_seq()[m.location.archetype_row.0 as int] == (ArchetypeEntity {
            entity: e,
            table_row: TableRow(k as u32),
        })
    } by {
        if t == tid && k == rows_of(t0, tid).len() {
            assert(a2[aid].entity_seq()[entities_of(a0, aid).len() as int] == ArchetypeEntity { entity, table_row: TableRow(k as u32) });
        } else {
            assert(t < t0.len());
            assert(t2[t].entity_seq()[k] == t0[t].entity_seq()[k]);
            let e = t0[t].entity_seq()[k];
            let aa = m0[e.index as int].location.archetype_id.0 as int;
            let rr = m0[e.index as int].location.archetype_row.0 as int;
            assert(a0[aa].entity_seq()[rr] == a2[aa].entity_seq()[rr]);
        }
    }
    assert forall|i: int| 0 <= i < m2.len() && (#[trigger] m2[i]).location.archetype_id.0 != u32::MAX implies {
        let loc = m2[i].location;
        &&& loc.archetype_id.0 < a2.len()
        &&& loc.archetype_row.0 < a2[loc.archetype_id.0 as int].entity_seq().len()
        &&& a2[loc.archetype_id.0 as int].entity_seq()[loc.archetype_row.0 as int].entity == (Entity {
            generation: m2[i].generation,
            index: i as u32,
        })
    } by {
        if i == idx {
            assert(a2[aid].entity_seq()[entities_of(a0, aid).len() as int].entity == entity);
        } else {
            assert(m2[i] == m0[i]);
            let aa = m0[i].location.archetype_id.0 as int;
            let rr = m0[i].location.archetype_row.0 as int;
            assert(a0[aa].entity_seq()[rr] == a2[aa].entity_seq()[rr]);
        }
    }
    assert forall|k: int| 0 <= k < p2.len() implies (#[trigger] m2[p2[k] as int]).location.archetype_id.0 == u32::MAX by {
        if p2 == p0.drop_last() && p0.len() > 0 && entity.index == p0.last() {
            assert(p2[k] == p0[k]);
            assert(p0[k] != p0[p0.len() - 1]);
            assert(m2[p0[k] as int] == m0[p0[k] as int]);
        } else {
            assert(p2[k] == p0[k]);
            assert(p0[k] < m0.len());
            assert(m2[p0[k] as int] == m0[p0[k] as int]);
        }
    }
}

/// Changing only the entity lists of archetypes and tables keeps the graph consistent.
proof fn lemma_graph_entities_only(
    a_before: &Archetypes,
    a_after: &Archetypes,
    t_before: &Tables,
    t_after: &Tables,
    components: &Components,
    bundles: &Bundles,
)
    requires
        graph_ok(a_before, t_before, components, bundles),
        a_after.wf(),
        t_after.wf(),
        a_after.archetype_seq().len() == a_before.archetype_seq().len(),
        t_after.table_seq().len() == t_before.table_seq().len(),
        forall|a: int| 0 <= a < a_before.archetype_seq().len() ==> (#[trigger] a_after.archetype_seq()[a]).same_shape(
            a_before.archetype_seq()[a],
        ) && a_after.archetype_seq()[a].spec_edges() == a_before.archetype_seq()[a].spec_edges(),
        forall|t: int| 0 <= t < t_before.table_seq().len() ==> (#[trigger] t_after.table_seq()[t]).ids() == t_before.table_seq()[t].ids(),
    ensures
        graph_ok(a_after, t_after, components, bundles),
{
    let arch = a_after.archetype_seq();
    let old_arch = a_before.archetype_seq();
    let infos = components.infos();
    assert forall|i: int| 0 <= i < arch.len() implies signature(#[trigger] arch[i]) == signature(old_arch[i]) by {
        assert(arch[i].same_shape(old_arch[i]));
    }
    assert forall|i: int| 0 <= i < arch.len() implies {
        let y = #[trigger] arch[i];
        &&& y.spec_table_id().0 < t_after.table_seq().len()
        &&& t_after.table_seq()[y.spec_table_id().0 as int].ids() == y.table_ids()
        &&& forall|k: int| 0 <= k < y.table_ids().len() ==> (#[trigger] y.table_ids()[k]).0 < infos.len()
            && kind_of(infos, y.table_ids()[k]) == StorageType::Table
        &&& forall|k: int| 0 <= k < y.sparse_ids().len() ==> (#[trigger] y.sparse_ids()[k]).0 < infos.len()
            && kind_of(infos, y.sparse_ids()[k]) == StorageType::SparseSet
    } by {
        assert(arch[i].same_shape(old_arch[i]));
    }
    assert forall|i: int, c: BundleId| 0 <= i < arch.len() implies (#[trigger] arch[i].spec_edges().add_edge(c) matches Some(
        ab,
    ) ==> {
        &&& c.0 < bundles.infos().len()
        &&& ab.archetype_id.0 < arch.len()
        &&& signature(arch[ab.archetype_id.0 as int]) == added_signature(arch[i], bundles.infos()[c.0 as int].ids(), infos)
        &&& ab.bundle_status@ == crate::bundle::bundle_statuses(arch[i], bundles.infos()[c.0 as int].ids())
    }) by {
        assert(arch[i].same_shape(old_arch[i]));
        assert(crate::bundle::bundle_statuses(arch[i], bundles.infos()[c.0 as int].ids()) =~= crate::bundle::bundle_statuses(
            old_arch[i],
            bundles.infos()[c.0 as int].ids(),
        ));
        if let Some(ab) = arch[i].spec_edges().add_edge(c) {
            assert(signature(arch[ab.archetype_id.0 as int]) == signature(old_arch[ab.archetype_id.0 as int]));
        }
    }
}

/// `locations_agree`, except that record `idx` may be stale and table `tid` may hold it at
/// `trow` while no archetype entry names it.
pub open spec fn locations_agree_but(
    metas: Seq<EntityMeta>,
    pending: Seq<u32>,
    arch: Seq<Archetype>,
    tabs: Seq<Table>,
    e: Entity,
    tid: int,
    trow: int,
) -> bool {
    &&& forall|a: int| 0 <= a < arch.len() ==> (#[trigger] arch[a]).entity_seq().len() <= u32::MAX
    &&& forall|t: int| 0 <= t < tabs.len() ==> (#[trigger] tabs[t]).entity_seq().len() <= u32::MAX
    &&& forall|a: int, r: int| 0 <= a < arch.len() && 0 <= r < arch[a].entity_seq().len() ==> {
        let ae = #[trigger] arch[a].entity_seq()[r];
        let t = arch[a].spec_table_id();
        &&& ae.entity.index != e.index
        &&& ae.entity.index < metas.len()
        &&& metas[ae.entity.index as int] == (EntityMeta {
            generation: ae.entity.generation,
            location: EntityLocation {
                archetype_id: ArchetypeId(a as u32),
                archetype_row: ArchetypeRow(r as u32),
                table_id: t,
                table_row: ae.table_row,
            },
        })
        &&& 0 <= t.0 < tabs.len()
        &&& ae.table_row.0 < tabs[t.0 as int].entity_seq().len()
        &&& tabs[t.0 as int].entity_seq()[ae.table_row.0 as int] == ae.entity
    }
    &&& forall|t: int, k: int| 0 <= t < tabs.len() && 0 <= k < tabs[t].entity_seq().len() && !(t == tid && k == trow) ==> {
        let x = #[trigger] tabs[t].entity_seq()[k];
        let m = metas[x.index as int];
        &&& x.index != e.index
        &&& x.index < metas.len()
        &&& m.generation == x.generation
        &&& m.location.table_id.0 == t
        &&& m.location.table_row.0 == k
        &&& m.location.archetype_id.0 < arch.len()
        &&& m.location.archetype_row.0 < arch[m.location.archetype_id.0 as int].entity_seq().len()
        &&& arch[m.location.archetype_id.0 as int].entity_seq()[m.location.archetype_row.0 as int] == (ArchetypeEntity {
            entity: x,
            table_row: TableRow(k as u32),
        })
    }
    &&& forall|i: int| 0 <= i < metas.len() && i != e.index && (#[trigger] metas[i]).location.archetype_id.0 != u32::MAX ==> {
        let loc = metas[i].location;
        &&& loc.archetype_id.0 < arch.len()
        &&& loc.archetype_row.0 < arch[loc.archetype_id.0 as int].entity_seq().len()
        &&& arch[loc.archetype_id.0 as int].entity_seq()[loc.archetype_row.0 as int].entity == (Entity {
            generation: metas[i].generation,
            index: i as u32,
        })
    }
    &&& forall|k: int| 0 <= k < pending.len() ==> (#[trigger] metas[pending[k] as int]).location.archetype_id.0 == u32::MAX
        && pending[k] != e.index
}

/// Removing the archetype entry of `entity` and patching the record of the entity that moved
/// into its row.
proof fn lemma_archetype_removal_step(
    m0: Seq<EntityMeta>,
    p0: Seq<u32>,
    a0: Seq<Archetype>,
    t0: Seq<Table>,
    m1: Seq<EntityMeta>,
    a1: Seq<Archetype>,
    entity: Entity,
    aid: int,
    arow: int,
    tid: int,
    trow: int,
)
    requires
        locations_agree(m0, p0, a0, t0),
        forall|k: int| 0 <= k < p0.len() ==> (#[trigger] p0[k]) < m0.len(),
        a0.len() <= u32::MAX,
        m0.len() <= u32::MAX,
        0 <= tid <= u32::MAX,
        0 <= trow <= u32::MAX,
        0 <= aid < a0.len(),
        0 <= arow < a0[aid].entity_seq().len(),
        entity.index < m0.len(),
        m0[entity.index as int] == (EntityMeta {
            generation: entity.generation,
            location: EntityLocation {
                archetype_id: ArchetypeId(aid as u32),
                archetype_row: ArchetypeRow(arow as u32),
                table_id: TableId(tid as u32),
                table_row: TableRow(trow as u32),
            },
        }),
        a1.len() == a0.len(),
        forall|a: int| 0 <= a < a0.len() ==> (#[trigger] a1[a]).spec_table_id() == a0[a].spec_table_id(),
        forall|a: int| 0 <= a < a0.len() && a != aid ==> (#[trigger] a1[a]).entity_seq() == a0[a].entity_seq(),
        a1[aid].entity_seq() == crate::table::swap_removed(a0[aid].entity_seq(), arow),
        arow == a0[aid].entity_seq().len() - 1 ==> m1 == m0,
        arow != a0[aid].entity_seq().len() - 1 ==> {
            let d = a0[aid].entity_seq().last().entity;
            let dl = m0[d.index as int].location;
            m1 == m0.update(
                d.index as int,
                EntityMeta {
                    generation: m0[d.index as int].generation,
                    location: EntityLocation {
                        archetype_id: dl.archetype_id,
                        archetype_row: ArchetypeRow(arow as u32),
                        table_id: dl.table_id,
                        table_row: dl.table_row,
                    },
                },
            )
        },
    ensures
        locations_agree_but(m1, p0, a1, t0, entity, tid, trow),
        m1.len() == m0.len(),
        m1[entity.index as int] == m0[entity.index as int],
        0 <= tid < t0.len(),
        0 <= trow < t0[tid].entity_seq().len(),
        t0[tid].entity_seq()[trow] == entity,
{
    let idx = entity.index as int;
    let last = a0[aid].entity_seq().len() - 1;
    let d = a0[aid].entity_seq()[last].entity;
    assert(a0[aid].entity_seq()[arow] == a0[aid].entity_seq()[arow]);
    assert(a0[aid].entity_seq()[last] == a0[aid].entity_seq()[last]);
    // entries are identified by their entity index
    assert forall|a: int, r: int| 0 <= a < a0.len() && 0 <= r < a0[a].entity_seq().len() && (#[trigger] a0[a].entity_seq()[r]).entity.index
        == idx implies a == aid && r == arow by {
        assert(a0[a].entity_seq().len() <= u32::MAX);
        assert(a0[aid].entity_seq().len() <= u32::MAX);
    }
    if arow != last {
        assert(d.index != idx);
        assert(m1[idx] == m0[idx]);
    }
    assert forall|a: int, r: int| 0 <= a < a1.len() && 0 <= r < a1[a].entity_seq().len() implies {
        let ae = #[trigger] a1[a].entity_seq()[r];
        let t = a1[a].spec_table_id();
        &&& ae.entity.index != entity.index
        &&& ae.entity.index < m1.len()
        &&& m1[ae.entity.index as int] == (EntityMeta {
            generation: ae.entity.generation,
            location: EntityLocation {
                archetype_id: ArchetypeId(a as u32),
                archetype_row: ArchetypeRow(r as u32),
                table_id: t,
                table_row: ae.table_row,
            },
        })
        &&& 0 <= t.0 < t0.len()
        &&& ae.table_row.0 < t0[t.0 as int].entity_seq().len()
        &&& t0[t.0 as int].entity_seq()[ae.table_row.0 as int] == ae.entity
    } by {
        if a == aid && r == arow {
            assert(a1[a].entity_seq()[r] == a0[aid].entity_seq()[last]);
        } else {
            assert(a1[a].entity_seq()[r] == a0[a].entity_seq()[r]);
            let ae = a0[a].entity_seq()[r];
            if arow != last {
                assert(ae.entity.index != d.index) by {
                    if ae.entity.index == d.index {
                        assert(a0[a].entity_seq().len() <= u32::MAX);
                        assert(a0[aid].entity_seq().len() <= u32::MAX);
                        assert(a == aid && r == last);
                    }
                }
            }
        }
    }
    assert forall|t: int, k: int| 0 <= t < t0.len() && 0 <= k < t0[t].entity_seq().len() && !(t == tid && k == trow) implies {
        let x = #[trigger] t0[t].entity_seq()[k];
        let m = m1[x.index as int];
        &&& x.index != entity.index
        &&& x.index < m1.len()
        &&& m.generation == x.generation
        &&& m.location.table_id.0 == t
        &&& m.location.table_row.0 == k
        &&& m.location.archetype_id.0 < a1.len()
        &&& m.location.archetype_row.0 < a1[m.location.archetype_id.0 as int].entity_seq().len()
        &&& a1[m.location.archetype_id.0 as int].entity_seq()[m.location.archetype_row.0 as int] == (ArchetypeEntity {
            entity: x,
            table_row: TableRow(k as u32),
        })
    } by {
        let x = t0[t].entity_seq()[k];
        let ma = m0[x.index as int].location.archetype_id.0 as int;
        let mr = m0[x.index as int].location.archetype_row.0 as int;
        assert(a0[ma].entity_seq()[mr] == a0[ma].entity_seq()[mr]);
        if x.index == idx {
            assert(ma == aid && mr == arow);
        }
        if arow != last && x.index == d.index {
            assert(ma == aid && mr == last);
            assert(a1[aid].entity_seq()[arow] == a0[aid].entity_seq()[last]);
        } else {
            assert(m1[x.index as int] == m0[x.index as int]);
            if ma == aid {
                assert(a0[aid].entity_seq()[arow].entity == entity);
                assert(a0[aid].entity_seq()[last].entity == d);
                assert(mr != arow);
                assert(mr != last || arow == last);
                assert(a1[aid].entity_seq()[mr] == a0[aid].entity_seq()[mr]);
            }
        }
    }
    assert forall|i: int| 0 <= i < m1.len() && i != idx && (#[trigger] m1[i]).location.archetype_id.0 != u32::MAX implies {
        let loc = m1[i].location;
        &&& loc.archetype_id.0 < a1.len()
        &&& loc.archetype_row.0 < a1[loc.archetype_id.0 as int].entity_seq().len()
        &&& a1[loc.archetype_id.0 as int].entity_seq()[loc.archetype_row.0 as int].entity == (Entity {
            generation: m1[i].generation,
            index: i as u32,
        })
    } by {
        if arow != last && i == d.index {
            assert(a1[aid].entity_seq()[arow] == a0[aid].entity_seq()[last]);
        } else {
            assert(m1[i] == m0[i]);
            let ma = m0[i].location.archetype_id.0 as int;
            let mr = m0[i].location.archetype_row.0 as int;
            assert(a0[ma].entity_seq()[mr] == a0[ma].entity_seq()[mr]);
            if ma == aid {
                assert(a0[aid].entity_seq()[arow].entity == entity);
                assert(a0[aid].entity_seq()[last].entity == d);
                assert(mr != arow);
                assert(mr != last || arow == last);
                assert(a1[aid].entity_seq()[mr] == a0[aid].entity_seq()[mr]);
            }
        }
    }
    assert forall|k: int| 0 <= k < p0.len() implies (#[trigger] m1[p0[k] as int]).location.archetype_id.0 == u32::MAX && p0[k] != entity.index by {
        assert(m0[p0[k] as int].location.archetype_id.0 == u32::MAX);
        if arow != last {
            assert(p0[k] != d.index);
        }
    }
}

/// Removing the table row of `entity` and patching the row and entry of the entity that moved
/// into it.
proof fn lemma_despawn_table_step(
    m0: Seq<EntityMeta>,
    p0: Seq<u32>,
    a0: Seq<Archetype>,
    t0: Seq<Table>,
    m1: Seq<EntityMeta>,
    a1: Seq<Archetype>,
    t1: Seq<Table>,
    m2: Seq<EntityMeta>,
    a2: Seq<Archetype>,
    entity: Entity,
    aid: int,
    arow: int,
    tid: int,
    trow: int,
)
    requires
        locations_agree_but(m1, p0, a1, t0, entity, tid, trow),
        forall|k: int| 0 <= k < p0.len() ==> (#[trigger] p0[k]) < m1.len(),
        a1.len() <= u32::MAX,
        0 <= tid < t0.len(),
        0 <= trow < t0[tid].entity_seq().len(),
        t0[tid].entity_seq()[trow] == entity,
        entity.index < m1.len(),
        t1.len() == t0.len(),
        forall|t: int| 0 <= t < t0.len() && t != tid ==> (#[trigger] t1[t]).entity_seq() == t0[t].entity_seq(),
        t1[tid].entity_seq() == crate::table::swap_removed(t0[tid].entity_seq(), trow),
        a2.len() == a1.len(),
        forall|a: int| 0 <= a < a1.len() ==> (#[trigger] a2[a]).spec_table_id() == a1[a].spec_table_id(),
        trow == t0[tid].entity_seq().len() - 1 ==> m2 == m1 && forall|a: int| 0 <= a < a1.len() ==> (#[trigger] a2[a]).entity_seq()
            == a1[a].entity_seq(),
        trow != t0[tid].entity_seq().len() - 1 ==> {
            let d2 = t0[tid].entity_seq().last();
            let dl2 = m1[d2.index as int].location;
            &&& m2 == m1.update(
                d2.index as int,
                EntityMeta {
                    generation: m1[d2.index as int].generation,
                    location: EntityLocation {
                        archetype_id: dl2.archetype_id,
                        archetype_row: dl2.archetype_row,
                        table_id: dl2.table_id,
                        table_row: TableRow(trow as u32),
                    },
                },
            )
            &&& forall|a: int| 0 <= a < a1.len() && a != dl2.archetype_id.0 ==> (#[trigger] a2[a]).entity_seq() == a1[a].entity_seq()
            &&& dl2.archetype_id.0 < a1.len()
            &&& dl2.archetype_row.0 < a1[dl2.archetype_id.0 as int].entity_seq().len()
            &&& a2[dl2.archetype_id.0 as int].entity_seq() == a1[dl2.archetype_id.0 as int].entity_seq().update(
                dl2.archetype_row.0 as int,
                ArchetypeEntity {
                    entity: a1[dl2.archetype_id.0 as int].entity_seq()[dl2.archetype_row.0 as int].entity,
                    table_row: TableRow(trow as u32),
                },
            )
        },
    ensures
        locations_agree_but(m2, p0, a2, t1, entity, -1, -1),
        m2.len() == m1.len(),
        m2[entity.index as int] == m1[entity.index as int],
{
    let idx = entity.index as int;
    let last_t = t0[tid].entity_seq().len() - 1;
    let d2 = t0[tid].entity_seq()[last_t];
    let dl2 = m1[d2.index as int].location;
    let da = dl2.archetype_id.0 as int;
    let dr = dl2.archetype_row.0 as int;
    if trow != last_t {
        assert(t0[tid].entity_seq()[last_t] == d2);
        assert(d2.index != idx);
        assert(a1[da].entity_seq()[dr] == ArchetypeEntity { entity: d2, table_row: TableRow(last_t as u32) });
        assert(m2[idx] == m1[idx]);
    }
    assert forall|a: int, r: int| 0 <= a < a2.len() && 0 <= r < a2[a].entity_seq().len() implies {
        let ae = #[trigger] a2[a].entity_seq()[r];
        let t = a2[a].spec_table_id();
        &&& ae.entity.index != entity.index
        &&& ae.entity.index < m2.len()
        &&& m2[ae.entity.index as int] == (EntityMeta {
            generation: ae.entity.generation,
            location: EntityLocation {
                archetype_id: ArchetypeId(a as u32),
                archetype_row: ArchetypeRow(r as u32),
                table_id: t,
                table_row: ae.table_row,
            },
        })
        &&& 0 <= t.0 < t1.len()
        &&& ae.table_row.0 < t1[t.0 as int].entity_seq().len()
        &&& t1[t.0 as int].entity_seq()[ae.table_row.0 as int] == ae.entity
    } by {
        let old_ae = a1[a].entity_seq()[r];
        let t = a1[a].spec_table_id().0 as int;
        if trow != last_t && a == da && r == dr {
            assert(t1[tid].entity_seq()[trow] == d2);
        } else {
            assert(a2[a].entity_seq()[r] == old_ae);
            if trow != last_t {
                assert(old_ae.entity.index != d2.index) by {
                    if old_ae.entity.index == d2.index {
                        assert(a1[a].entity_seq().len() <= u32::MAX);
                        assert(m1[d2.index as int].location.archetype_id.0 == a);
                        assert(m1[d2.index as int].location.archetype_row.0 == r);
                    }
                }
            }
            assert(m2[old_ae.entity.index as int] == m1[old_ae.entity.index as int]);
            if t == tid {
                assert(old_ae.table_row.0 != trow);
                if old_ae.table_row.0 == last_t {
                    assert(old_ae.entity == d2);
                }
                assert(t1[tid].entity_seq()[old_ae.table_row.0 as int] == t0[tid].entity_seq()[old_ae.table_row.0 as int]);
            }
        }
    }
    assert forall|t: int, k: int| 0 <= t < t1.len() && 0 <= k < t1[t].entity_seq().len() && !(t == -1 && k == -1) implies {
        let x = #[trigger] t1[t].entity_seq()[k];
        let m = m2[x.index as int];
        &&& x.index != entity.index
        &&& x.index < m2.len()
        &&& m.generation == x.generation
        &&& m.location.table_id.0 == t
        &&& m.location.table_row.0 == k
        &&& m.location.archetype_id.0 < a2.len()
        &&& m.location.archetype_row.0 < a2[m.location.archetype_id.0 as int].entity_seq().len()
        &&& a2[m.location.archetype_id.0 as int].entity_seq()[m.location.archetype_row.0 as int] == (ArchetypeEntity {
            entity: x,
            table_row: TableRow(k as u32),
        })
    } by {
        if t == tid && k == trow {
            assert(t1[tid].entity_seq()[trow] == d2);
        } else {
            assert(t1[t].entity_seq()[k] == t0[t].entity_seq()[k]);
            let x = t0[t].entity_seq()[k];
            if trow != last_t {
                assert(x.index != d2.index) by {
                    if x.index == d2.index {
                        assert(m1[d2.index as int].location.table_row.0 == k);
                    }
                }
            }
            let ma = m1[x.index as int].location.archetype_id.0 as int;
            let mr = m1[x.index as int].location.archetype_row.0 as int;
            assert(a1[ma].entity_seq()[mr] == ArchetypeEntity { entity: x, table_row: TableRow(k as u32) });
            if trow != last_t && ma == da && mr == dr {
                assert(false);
            }
        }
    }
    assert forall|i: int| 0 <= i < m2.len() && i != idx && (#[trigger] m2[i]).location.archetype_id.0 != u32::MAX implies {
        let loc = m2[i].location;
        &&& loc.archetype_id.0 < a2.len()
        &&& loc.archetype_row.0 < a2[loc.archetype_id.0 as int].entity_seq().len()
        &&& a2[loc.archetype_id.0 as int].entity_seq()[loc.archetype_row.0 as int].entity == (Entity {
            generation: m2[i].generation,
            index: i as u32,
        })
    } by {
        if trow != last_t && i == d2.index {
        } else {
            assert(m2[i] == m1[i]);
            let ma = m1[i].location.archetype_id.0 as int;
            let mr = m1[i].location.archetype_row.0 as int;
            if trow != last_t && ma == da && mr == dr {
                assert(a1[da].entity_seq()[dr].entity == d2);
            }
        }
    }
    assert forall|k: int| 0 <= k < p0.len() implies (#[trigger] m2[p0[k] as int]).location.archetype_id.0 == u32::MAX
        && p0[k] != entity.index by {
        assert(m1[p0[k] as int].location.archetype_id.0 == u32::MAX);
        if trow != last_t {
            assert(t0[tid].entity_seq()[last_t] == d2);
            assert(m1[d2.index as int].location.archetype_id.0 < a1.len());
            assert(p0[k] != d2.index);
        }
    }
}

/// Moving the table row of `entity` to the end of table `ntid` and patching the row and entry
/// of the entity that moved into its old row.
proof fn lemma_move_table_step(
    m0: Seq<EntityMeta>,
    p0: Seq<u32>,
    a0: Seq<Archetype>,
    t0: Seq<Table>,
    m1: Seq<EntityMeta>,
    a1: Seq<Archetype>,
    t1: Seq<Table>,
    m2: Seq<EntityMeta>,
    a2: Seq<Archetype>,
    entity: Entity,
    aid: int,
    arow: int,
    tid: int,
    trow: int,
    ntid: int,
)
    requires
        locations_agree_but(m1, p0, a1, t0, entity, tid, trow),
        forall|k: int| 0 <= k < p0.len() ==> (#[trigger] p0[k]) < m1.len(),
        a1.len() <= u32::MAX,
        0 <= tid < t0.len(),
        0 <= trow < t0[tid].entity_seq().len(),
        t0[tid].entity_seq()[trow] == entity,
        entity.index < m1.len(),
        t1.len() == t0.len(),
        0 <= ntid < t0.len(),
        ntid != tid,
        t0[ntid].entity_seq().len() < u32::MAX,
        forall|t: int| 0 <= t < t0.len() && t != tid && t != ntid ==> (#[trigger] t1[t]).entity_seq() == t0[t].entity_seq(),
        t1[tid].entity_seq() == crate::table::swap_removed(t0[tid].entity_seq(), trow),
        t1[ntid].entity_seq() == t0[ntid].entity_seq().push(entity),
        a2.len() == a1.len(),
        forall|a: int| 0 <= a < a1.len() ==> (#[trigger] a2[a]).spec_table_id() == a1[a].spec_table_id(),
        trow == t0[tid].entity_seq().len() - 1 ==> m2 == m1 && forall|a: int| 0 <= a < a1.len() ==> (#[trigger] a2[a]).entity_seq()
            == a1[a].entity_seq(),
        trow != t0[tid].entity_seq().len() - 1 ==> {
            let d2 = t0[tid].entity_seq().last();
            let dl2 = m1[d2.index as int].location;
            &&& m2 == m1.update(
                d2.index as int,
                EntityMeta {
                    generation: m1[d2.index as int].generation,
                    location: EntityLocation {
                        archetype_id: dl2.archetype_id,
                        archetype_row: dl2.archetype_row,
                        table_id: dl2.table_id,
                        table_row: TableRow(trow as u32),
                    },
                },
            )
            &&& forall|a: int| 0 <= a < a1.len() && a != dl2.archetype_id.0 ==> (#[trigger] a2[a]).entity_seq() == a1[a].entity_seq()
            &&& dl2.archetype_id.0 < a1.len()
            &&& dl2.archetype_row.0 < a1[dl2.archetype_id.0 as int].entity_seq().len()
            &&& a2[dl2.archetype_id.0 as int].entity_seq() == a1[dl2.archetype_id.0 as int].entity_seq().update(
                dl2.archetype_row.0 as int,
                ArchetypeEntity {
                    entity: a1[dl2.archetype_id.0 as int].entity_seq()[dl2.archetype_row.0 as int].entity,
                    table_row: TableRow(trow as u32),
                },
            )
        },
    ensures
        locations_agree_but(m2, p0, a2, t1, entity, ntid, t0[ntid].entity_seq().len() as int),
        m2.len() == m1.len(),
        m2[entity.index as int] == m1[entity.index as int],
{
    let idx = entity.index as int;
    let last_t = t0[tid].entity_seq().len() - 1;
    let d2 = t0[tid].entity_seq()[last_t];
    let dl2 = m1[d2.index as int].location;
    let da = dl2.archetype_id.0 as int;
    let dr = dl2.archetype_row.0 as int;
    if trow != last_t {
        assert(t0[tid].entity_seq()[last_t] == d2);
        assert(d2.index != idx);
        assert(a1[da].entity_seq()[dr] == ArchetypeEntity { entity: d2, table_row: TableRow(last_t as u32) });
        assert(m2[idx] == m1[idx]);
    }
    assert forall|a: int, r: int| 0 <= a < a2.len() && 0 <= r < a2[a].entity_seq().len() implies {
        let ae = #[trigger] a2[a].entity_seq()[r];
        let t = a2[a].spec_table_id();
        &&& ae.entity.index != entity.index
        &&& ae.entity.index < m2.len()
        &&& m2[ae.entity.index as int] == (EntityMeta {
            generation: ae.entity.generation,
            location: EntityLocation {
                archetype_id: ArchetypeId(a as u32),
                archetype_row: ArchetypeRow(r as u32),
                table_id: t,
                table_row: ae.table_row,
            },
        })
        &&& 0 <= t.0 < t1.len()
        &&& ae.table_row.0 < t1[t.0 as int].entity_seq().len()
        &&& t1[t.0 as int].entity_seq()[ae.table_row.0 as int] == ae.entity
    } by {
        let old_ae = a1[a].entity_seq()[r];
        let t = a1[a].spec_table_id().0 as int;
        if trow != last_t && a == da && r == dr {
            assert(t1[tid].entity_seq()[trow] == d2);
        } else {
            assert(a2[a].entity_seq()[r] == old_ae);
            if trow != last_t {
                assert(old_ae.entity.index != d2.index) by {
                    if old_ae.entity.index == d2.index {
                        assert(a1[a].entity_seq().len() <= u32::MAX);
                        assert(m1[d2.index as int].location.archetype_id.0 == a);
                        assert(m1[d2.index as int].location.archetype_row.0 == r);
                    }
                }
            }
            assert(m2[old_ae.entity.index as int] == m1[old_ae.entity.index as int]);
            if t == ntid {
                assert(t1[ntid].entity_seq()[old_ae.table_row.0 as int] == t0[ntid].entity_seq()[old_ae.table_row.0 as int]);
            }
            if t == tid {
                assert(old_ae.table_row.0 != trow);
                if old_ae.table_row.0 == last_t {
                    assert(old_ae.entity == d2);
                }
                assert(t1[tid].entity_seq()[old_ae.table_row.0 as int] == t0[tid].entity_seq()[old_ae.table_row.0 as int]);
            }
        }
    }
    assert forall|t: int, k: int| 0 <= t < t1.len() && 0 <= k < t1[t].entity_seq().len() && !(t == ntid && k
        == t0[ntid].entity_seq().len()) implies {
        let x = #[trigger] t1[t].entity_seq()[k];
        let m = m2[x.index as int];
        &&& x.index != entity.index
        &&& x.index < m2.len()
        &&& m.generation == x.generation
        &&& m.location.table_id.0 == t
        &&& m.location.table_row.0 == k
        &&& m.location.archetype_id.0 < a2.len()
        &&& m.location.archetype_row.0 < a2[m.location.archetype_id.0 as int].entity_seq().len()
        &&& a2[m.location.archetype_id.0 as int].entity_seq()[m.location.archetype_row.0 as int] == (ArchetypeEntity {
            entity: x,
            table_row: TableRow(k as u32),
        })
    } by {
        if t == tid && k == trow {
            assert(t1[tid].entity_seq()[trow] == d2);
        } else {
            if t == ntid {
                assert(t1[ntid].entity_seq()[k] == t0[ntid].entity_seq()[k]);
            }
            assert(t1[t].entity_seq()[k] == t0[t].entity_seq()[k]);
            let x = t0[t].entity_seq()[k];
            if trow != last_t {
                assert(x.index != d2.index) by {
                    if x.index == d2.index {
                        assert(m1[d2.index as int].location.table_row.0 == k);
                    }
                }
            }
            let ma = m1[x.index as int].location.archetype_id.0 as int;
            let mr = m1[x.index as int].location.archetype_row.0 as int;
            assert(a1[ma].entity_seq()[mr] == ArchetypeEntity { entity: x, table_row: TableRow(k as u32) });
            if trow != last_t && ma == da && mr == dr {
                assert(false);
            }
        }
    }
    assert forall|i: int| 0 <= i < m2.len() && i != idx && (#[trigger] m2[i]).location.archetype_id.0 != u32::MAX implies {
        let loc = m2[i].location;
        &&& loc.archetype_id.0 < a2.len()
        &&& loc.archetype_row.0 < a2[loc.archetype_id.0 as int].entity_seq().len()
        &&& a2[loc.archetype_id.0 as int].entity_seq()[loc.archetype_row.0 as int].entity == (Entity {
            generation: m2[i].generation,
            index: i as u32,
        })
    } by {
        if trow != last_t && i == d2.index {
        } else {
            assert(m2[i] == m1[i]);
            let ma = m1[i].location.archetype_id.0 as int;
            let mr = m1[i].location.archetype_row.0 as int;
            if trow != last_t && ma == da && mr == dr {
                assert(a1[da].entity_seq()[dr].entity == d2);
            }
        }
    }
    assert forall|k: int| 0 <= k < p0.len() implies (#[trigger] m2[p0[k] as int]).location.archetype_id.0 == u32::MAX
        && p0[k] != entity.index by {
        assert(m1[p0[k] as int].location.archetype_id.0 == u32::MAX);
        if trow != last_t {
            assert(t0[tid].entity_seq()[last_t] == d2);
            assert(m1[d2.index as int].location.archetype_id.0 < a1.len());
            assert(p0[k] != d2.index);
        }
    }
}

/// Freeing the record of `entity`, which no entry or row names any more.
proof fn lemma_despawn_free_step(
    m2: Seq<EntityMeta>,
    p0: Seq<u32>,
    a2: Seq<Archetype>,
    t1: Seq<Table>,
    m3: Seq<EntityMeta>,
    p3: Seq<u32>,
    entity: Entity,
)
    requires
        locations_agree_but(m2, p0, a2, t1, entity, -1, -1),
        forall|k: int| 0 <= k < p0.len() ==> (#[trigger] p0[k]) < m2.len(),
        entity.index < m2.len(),
        m3.len() == m2.len(),
        forall|i: int| 0 <= i < m2.len() && i != entity.index ==> m3[i] == m2[i],
        m3[entity.index as int].location.archetype_id.0 == u32::MAX,
        p3 == p0.push(entity.index),
    ensures
        locations_agree(m3, p3, a2, t1),
{
    assert forall|k: int| 0 <= k < p3.len() implies (#[trigger] m3[p3[k] as int]).location.archetype_id.0 == u32::MAX by {
        if k < p0.len() {
            assert(p3[k] == p0[k]);
            assert(m2[p0[k] as int].location.archetype_id.0 == u32::MAX);
        }
    }
    assert forall|t: int, k: int| 0 <= t < t1.len() && 0 <= k < t1[t].entity_seq().len() implies
        (#[trigger] t1[t].entity_seq()[k]).index != entity.index by {
        assert(!(t == -1 && k == -1));
    }
}

/// Giving `entity`, held at row `trow` of table `tid` but named by no archetype entry, a new
/// last entry in archetype `nid` stored in that table, and recording it.
proof fn lemma_reattach(
    m1: Seq<EntityMeta>,
    p0: Seq<u32>,
    a1: Seq<Archetype>,
    t1: Seq<Table>,
    m2: Seq<EntityMeta>,
    a2: Seq<Archetype>,
    entity: Entity,
    nid: int,
    tid: int,
    trow: int,
)
    requires
        locations_agree_but(m1, p0, a1, t1, entity, tid, trow),
        forall|k: int| 0 <= k < p0.len() ==> (#[trigger] p0[k]) < m1.len(),
        a1.len() <= u32::MAX,
        0 <= nid < a1.len(),
        0 <= tid < t1.len(),
        0 <= trow < t1[tid].entity_seq().len(),
        t1[tid].entity_seq()[trow] == entity,
        entity.index < m1.len(),
        a1[nid].entity_seq().len() < u32::MAX,
        a1[nid].spec_table_id().0 == tid,
        a2.len() == a1.len(),
        forall|a: int| 0 <= a < a1.len() ==> (#[trigger] a2[a]).spec_table_id() == a1[a].spec_table_id(),
        forall|a: int| 0 <= a < a1.len() && a != nid ==> (#[trigger] a2[a]).entity_seq() == a1[a].entity_seq(),
        a2[nid].entity_seq() == a1[nid].entity_seq().push(ArchetypeEntity { entity, table_row: TableRow(trow as u32) }),
        m2 == m1.update(
            entity.index as int,
            EntityMeta {
                generation: entity.generation,
                location: EntityLocation {
                    archetype_id: ArchetypeId(nid as u32),
                    archetype_row: ArchetypeRow(a1[nid].entity_seq().len() as u32),
                    table_id: TableId(tid as u32),
                    table_row: TableRow(trow as u32),
                },
            },
        ),
    ensures
        locations_agree(m2, p0, a2, t1),
{
    let idx = entity.index as int;
    let nrow = a1[nid].entity_seq().len() as int;
    assert forall|a: int, r: int| 0 <= a < a2.len() && 0 <= r < a2[a].entity_seq().len() implies {
        let ae = #[trigger] a2[a].entity_seq()[r];
        let t = a2[a].spec_table_id();
        &&& ae.entity.index < m2.len()
        &&& m2[ae.entity.index as int] == (EntityMeta {
            generation: ae.entity.generation,
            location: EntityLocation {
                archetype_id: ArchetypeId(a as u32),
                archetype_row: ArchetypeRow(r as u32),
                table_id: t,
                table_row: ae.table_row,
            },
        })
        &&& 0 <= t.0 < t1.len()
        &&& ae.table_row.0 < t1[t.0 as int].entity_seq().len()
        &&& t1[t.0 as int].entity_seq()[ae.table_row.0 as int] == ae.entity
    } by {
        if a == nid && r == nrow {
        } else {
            assert(a2[a].entity_seq()[r] == a1[a].entity_seq()[r]);
        }
    }
    assert forall|t: int, k: int| 0 <= t < t1.len() && 0 <= k < t1[t].entity_seq().len() implies {
        let x = #[trigger] t1[t].entity_seq()[k];
        let m = m2[x.index as int];
        &&& x.index < m2.len()
        &&& m.generation == x.generation
        &&& m.location.table_id.0 == t
        &&& m.location.table_row.0 == k
        &&& m.location.archetype_id.0 < a2.len()
        &&& m.location.archetype_row.0 < a2[m.location.archetype_id.0 as int].entity_seq().len()
        &&& a2[m.location.archetype_id.0 as int].entity_seq()[m.location.archetype_row.0 as int] == (ArchetypeEntity {
            entity: x,
            table_row: TableRow(k as u32),
        })
    } by {
        if t == tid && k == trow {
            assert(a2[nid].entity_seq()[nrow] == ArchetypeEntity { entity, table_row: TableRow(trow as u32) });
        } else {
            let x = t1[t].entity_seq()[k];
            let ma = m1[x.index as int].location.archetype_id.0 as int;
            let mr = m1[x.index as int].location.archetype_row.0 as int;
            assert(a1[ma].entity_seq()[mr] == a2[ma].entity_seq()[mr]);
        }
    }
    assert forall|i: int| 0 <= i < m2.len() && (#[trigger] m2[i]).location.archetype_id.0 != u32::MAX implies {
        let loc = m2[i].location;
        &&& loc.archetype_id.0 < a2.len()
        &&& loc.archetype_row.0 < a2[loc.archetype_id.0 as int].entity_seq().len()
        &&& a2[loc.archetype_id.0 as int].entity_seq()[loc.archetype_row.0 as int].entity == (Entity {
            generation: m2[i].generation,
            index: i as u32,
        })
    } by {
        if i == idx {
            assert(a2[nid].entity_seq()[nrow].entity == entity);
            assert(m2[i].location.archetype_id.0 == nid);
            assert(m2[i].location.archetype_row.0 == nrow);
        } else {
            assert(m2[i] == m1[i]);
            let ma = m1[i].location.archetype_id.0 as int;
            let mr = m1[i].location.archetype_row.0 as int;
            assert(a1[ma].entity_seq()[mr] == a2[ma].entity_seq()[mr]);
        }
    }
    assert forall|k: int| 0 <= k < p0.len() implies (#[trigger] m2[p0[k] as int]).location.archetype_id.0 == u32::MAX by {
        assert(m1[p0[k] as int].location.archetype_id.0 == u32::MAX);
        assert(p0[k] != entity.index);
        assert(m2[p0[k] as int] == m1[p0[k] as int]);
    }
    assert forall|a: int| 0 <= a < a2.len() implies (#[trigger] a2[a]).entity_seq().len() <= u32::MAX by {
        assert(a1[a].entity_seq().len() <= u32::MAX);
    }
}

/// The statuses of a slice, copied into a vector.
fn copy_statuses(s: &[ComponentStatus]) -> (r: Vec<ComponentStatus>)
    ensures
        r@ == s@,
{
    let mut out: Vec<ComponentStatus> = Vec::new();
    let mut i: usize = 0;
    while i < s.len()
        invariant
            i <= s@.len(),
            out@ == s@.subrange(0, i as int),
        decreases s@.len() - i,
    {
        out.push(s[i]);
        i = i + 1;
        proof {
            assert(out@ =~= s@.subrange(0, i as int));
        }
    }
    proof {
        assert(s@.subrange(0, s@.len() as int) =~= s@);
    }
    out
}

/// An archetype whose components are registered has at most as many components as the registry.
proof fn lemma_signature_size(x: Archetype, infos: Seq<crate::component::ComponentInfo>)
    requires
        x.wf(),
        forall|k: int| 0 <= k < x.table_ids().len() ==> (#[trigger] x.table_ids()[k]).0 < infos.len(),
        forall|k: int| 0 <= k < x.sparse_ids().len() ==> (#[trigger] x.sparse_ids()[k]).0 < infos.len(),
    ensures
        x.table_ids().len() + x.sparse_ids().len() <= infos.len(),
{
    let c = x.table_ids() + x.sparse_ids();
    assert(c.no_duplicates()) by {
        assert forall|i: int, j: int| 0 <= i < c.len() && 0 <= j < c.len() && i != j implies c[i] != c[j] by {
            let n = x.table_ids().len() as int;
            if i < n && j < n {
                if i < j {
                    assert(x.table_ids()[i].0 < x.table_ids()[j].0);
                } else {
                    assert(x.table_ids()[j].0 < x.table_ids()[i].0);
                }
            } else if i >= n && j >= n {
                if i < j {
                    assert(x.sparse_ids()[i - n].0 < x.sparse_ids()[j - n].0);
                } else {
                    assert(x.sparse_ids()[j - n].0 < x.sparse_ids()[i - n].0);
                }
            } else if i < n {
                assert(x.table_ids().to_set().contains(c[i]));
                assert(x.sparse_ids().to_set().contains(c[j]));
            } else {
                assert(x.sparse_ids().to_set().contains(c[i]));
                assert(x.table_ids().to_set().contains(c[j]));
            }
        }
    }
    assert forall|k: int| 0 <= k < c.len() implies (#[trigger] c[k]).0 < infos.len() by {
        if k >= x.table_ids().len() {
            assert(c[k] == x.sparse_ids()[k - x.table_ids().len()]);
        }
    }
    crate::bundle::lemma_ids_bounded(c, infos.len());
}

/// New archetypes and tables without entities keep the locations consistent.
proof fn lemma_locations_grow(
    m: Seq<EntityMeta>,
    p: Seq<u32>,
    a0: Seq<Archetype>,
    a1: Seq<Archetype>,
    t0: Seq<Table>,
    t1: Seq<Table>,
)
    requires
        locations_agree(m, p, a0, t0),
        a1.len() >= a0.len(),
        t1.len() >= t0.len(),
        forall|a: int| 0 <= a < a0.len() ==> (#[trigger] a1[a]).entity_seq() == a0[a].entity_seq() && a1[a].spec_table_id()
            == a0[a].spec_table_id(),
        forall|a: int| a0.len() <= a < a1.len() ==> (#[trigger] a1[a]).entity_seq().len() == 0,
        forall|t: int| 0 <= t < t0.len() ==> (#[trigger] t1[t]).entity_seq() == t0[t].entity_seq(),
        forall|t: int| t0.len() <= t < t1.len() ==> (#[trigger] t1[t]).entity_seq().len() == 0,
    ensures
        locations_agree(m, p, a1, t1),
{
    assert forall|a: int, r: int| 0 <= a < a1.len() && 0 <= r < a1[a].entity_seq().len() implies a < a0.len()
        && #[trigger] a1[a].entity_seq()[r] == a0[a].entity_seq()[r] by {
    }
    assert forall|t: int, k: int| 0 <= t < t1.len() && 0 <= k < t1[t].entity_seq().len() implies t < t0.len()
        && #[trigger] t1[t].entity_seq()[k] == t0[t].entity_seq()[k] by {
    }
    assert forall|i: int| 0 <= i < m.len() && (#[trigger] m[i]).location.archetype_id.0 != u32::MAX implies {
        let loc = m[i].location;
        a1[loc.archetype_id.0 as int].entity_seq() == a0[loc.archetype_id.0 as int].entity_seq()
    } by {
    }
}

/// A unique id of one world.
#[derive(Clone, Copy, PartialEq, Eq, Debug, Hash, Structural)]
pub struct WorldId(pub usize);

impl WorldId {
    /// The id that the process-wide counter `next` hands out; the counter advances. Fails,
    /// leaving the counter alone, when the ids are exhausted.
    pub fn new(next: &mut usize) -> (r: Option<WorldId>)
        ensures
            *old(next) < usize::MAX ==> r == Some(WorldId(*old(next))) && *final(next) == *old(next) + 1,
            *old(next) == usize::MAX ==> r.is_none() && *final(next) == *old(next),
    {
        match next.checked_add(1) {
            Some(n) => {
                let id = WorldId(*next);
                *next = n;
                Some(id)
            },
            None => None,
        }
    }
}

/// The entity whose component was removed.
#[derive(Debug, Clone, Copy, PartialEq, Eq, Structural)]
pub struct RemovedComponentEntity(pub Entity);

impl RemovedComponentEntity {
    pub fn entity(&self) -> (r: Entity)
        ensures
            r == self.0,
    {
        self.0
    }
}

/// A type that can be sent as an event.
pub trait Event {}

/// The position of one event in its event stream.
pub struct EventId<E> {
    pub id: usize,
    pub marker: core::marker::PhantomData<E>,
}

impl<E> EventId<E> {
    pub fn new(id: usize) -> (r: EventId<E>)
        ensures
            r.id == id,
    {
        EventId { id, marker: core::marker::PhantomData }
    }
}

/// A type stored once per world rather than per entity.
pub trait Resource {}

/// What a system is known by.
pub struct SystemMeta {
    pub name: &'static str,
}

} // verus!
