use joker_ecs::archetype::{ArchetypeId, Archetypes};
use joker_ecs::bundle::first_duplicate;
use joker_ecs::blob_vec::Layout;
use joker_ecs::component::{ComponentDescriptor, ComponentId, StorageType};
use joker_ecs::entity::Entity;
use joker_ecs::table::{TableId, TableRow};
use joker_ecs::world::World;

fn register(world: &mut World, name: &'static str, kind: StorageType) -> ComponentId {
    let layout = Layout::from_size_align(4, 4).unwrap();
    world.register_component(ComponentDescriptor::new_with_layout(name, kind, layout, false))
}

fn value(x: u8) -> Vec<u8> {
    vec![x, 0, 0, 0]
}

/// Every archetype entry and table row agrees with the recorded location of its entity.
fn assert_consistent(world: &World) {
    for archetype in world.archetypes().iter() {
        for (row, entry) in archetype.entities().iter().enumerate() {
            let loc = world.get(entry.entity()).expect("entity in an archetype is live");
            assert_eq!(loc.archetype_id, archetype.id());
            assert_eq!(loc.archetype_row.index(), row);
            assert_eq!(loc.table_id, archetype.table_id());
            assert_eq!(loc.table_row, entry.table_row());
            let table = world.tables().get(loc.table_id).unwrap();
            assert_eq!(table.entities()[loc.table_row.index()], entry.entity());
        }
    }
}

#[test]
fn spawn_insert_despawn_scenario() {
    let mut world = World::new();
    let a = register(&mut world, "A", StorageType::Table);
    let b = register(&mut world, "B", StorageType::Table);
    let ab = world.register_bundle(&[a, b]);
    let only_a = world.register_bundle(&[a]);
    let only_b = world.register_bundle(&[b]);

    let e1 = world.spawn(ab, vec![value(1), value(2)]);
    let x = world.get(e1).unwrap().archetype_id;
    let e2 = world.spawn(only_a, vec![value(3)]);
    let y = world.get(e2).unwrap().archetype_id;
    assert_ne!(x, y);
    assert_eq!(world.archetypes().len(), 3);

    let moved = world.insert(e2, only_b, vec![value(4)]).unwrap();
    assert_eq!(moved.archetype_id, x);
    assert_eq!(world.archetypes().len(), 3);
    assert_eq!(world.get(e2), Some(moved));
    assert_ne!(world.get(e1).unwrap().archetype_row, moved.archetype_row);
    assert_consistent(&world);

    assert!(world.despawn(e1));
    assert_eq!(world.get(e1), None);
    let after = world.get(e2).unwrap();
    assert_eq!(after.archetype_id, x);
    assert_eq!(after.archetype_row.index(), 0);
    assert_eq!(after.table_row, TableRow::new(0));
    assert_consistent(&world);
    let table = world.tables().get(after.table_id).unwrap();
    let column = table.get_column(b).unwrap();
    assert_eq!(column.get_data(after.table_row).unwrap(), &value(4));
    let column = table.get_column(a).unwrap();
    assert_eq!(column.get_data(after.table_row).unwrap(), &value(3));
}

#[test]
fn inserting_same_bundle_keeps_archetype() {
    let mut world = World::new();
    let a = register(&mut world, "A", StorageType::Table);
    let b = register(&mut world, "B", StorageType::Table);
    let ab = world.register_bundle(&[a, b]);
    let e = world.spawn(ab, vec![value(1), value(2)]);
    let before = world.get(e).unwrap();
    let after = world.insert(e, ab, vec![value(5), value(6)]).unwrap();
    assert_eq!(before, after);
    let table = world.tables().get(after.table_id).unwrap();
    assert_eq!(table.entity_count(), 1);
    assert_eq!(table.get_column(a).unwrap().get_data(after.table_row).unwrap(), &value(5));
    assert_eq!(table.get_column(b).unwrap().len(), 1);
}

#[test]
fn sparse_insert_keeps_table() {
    let mut world = World::new();
    let a = register(&mut world, "A", StorageType::Table);
    let s = register(&mut world, "S", StorageType::SparseSet);
    let only_a = world.register_bundle(&[a]);
    let only_s = world.register_bundle(&[s]);
    let e = world.spawn(only_a, vec![value(1)]);
    let other = world.spawn(only_a, vec![value(2)]);
    let before = world.get(e).unwrap();
    let after = world.insert(e, only_s, vec![value(9)]).unwrap();
    assert_ne!(before.archetype_id, after.archetype_id);
    assert_eq!(before.table_id, after.table_id);
    assert_eq!(before.table_row, after.table_row);
    let store = world.sparse_sets().get(s).unwrap();
    assert_eq!(store.get(e), Some(&value(9)));
    assert_eq!(world.get(other).unwrap().archetype_row.index(), 0);
    assert_consistent(&world);
}

#[test]
fn table_move_patches_displaced_entities() {
    let mut world = World::new();
    let a = register(&mut world, "A", StorageType::Table);
    let b = register(&mut world, "B", StorageType::Table);
    let only_a = world.register_bundle(&[a]);
    let only_b = world.register_bundle(&[b]);
    let e0 = world.spawn(only_a, vec![value(0)]);
    let e1 = world.spawn(only_a, vec![value(1)]);
    let e2 = world.spawn(only_a, vec![value(2)]);
    world.insert(e0, only_b, vec![value(7)]).unwrap();
    assert_consistent(&world);
    let l2 = world.get(e2).unwrap();
    assert_eq!(l2.archetype_row.index(), 0);
    assert_eq!(l2.table_row.index(), 0);
    world.insert(e1, only_b, vec![value(8)]).unwrap();
    assert_consistent(&world);
    assert!(world.despawn(e0));
    assert_consistent(&world);
    assert!(!world.despawn(e0));
    assert_eq!(world.entities().len(), 2);
}

#[test]
fn duplicate_bundle_is_found() {
    let mut world = World::new();
    let a = register(&mut world, "A", StorageType::Table);
    let b = register(&mut world, "B", StorageType::Table);
    assert_eq!(first_duplicate(&[a, b, a]), Some(a));
    assert_eq!(first_duplicate(&[a, b]), None);
}

#[test]
fn same_component_list_reuses_bundle() {
    let mut world = World::new();
    let a = register(&mut world, "A", StorageType::Table);
    let b = register(&mut world, "B", StorageType::Table);
    let first = world.register_bundle(&[a, b]);
    let again = world.register_bundle(&[a, b]);
    let other = world.register_bundle(&[b, a]);
    assert_eq!(first, again);
    assert_ne!(first, other);
    assert_eq!(world.bundles().len(), 2);
}

#[test]
fn stale_despawn_and_free_fail() {
    let mut world = World::new();
    let a = register(&mut world, "A", StorageType::Table);
    let only_a = world.register_bundle(&[a]);
    let e = world.spawn(only_a, vec![value(1)]);
    let b = world.spawn(only_a, vec![value(2)]);
    let c = world.spawn(only_a, vec![value(3)]);
    assert!(world.despawn(e));
    assert!(!world.despawn(e));
    let lb = world.get(b).unwrap();
    let lc = world.get(c).unwrap();
    assert_eq!(lc.archetype_row.index(), 0);
    assert_eq!(lc.table_row.index(), 0);
    assert_eq!(lb.archetype_row.index(), 1);
    let table = world.tables().get(lc.table_id).unwrap();
    assert_eq!(table.get_column(a).unwrap().get_data(lc.table_row).unwrap(), &value(3));
}

#[test]
fn insert_writes_ticks() {
    let mut world = World::new();
    let a = register(&mut world, "A", StorageType::Table);
    let b = register(&mut world, "B", StorageType::Table);
    let only_a = world.register_bundle(&[a]);
    let ab = world.register_bundle(&[a, b]);
    let e = world.spawn(only_a, vec![value(1)]);
    world.increment_change_tick();
    let loc = world.insert(e, ab, vec![value(5), value(6)]).unwrap();
    let table = world.tables().get(loc.table_id).unwrap();
    let ticks_a = table.get_column(a).unwrap().get_ticks(loc.table_row).unwrap();
    let ticks_b = table.get_column(b).unwrap().get_ticks(loc.table_row).unwrap();
    assert_eq!(ticks_a.added.get(), 0);
    assert_eq!(ticks_a.changed.get(), 1);
    assert_eq!(ticks_b.added.get(), 1);
    assert_eq!(ticks_b.changed.get(), 1);
}

#[test]
fn despawned_index_is_reused_with_new_generation() {
    let mut world = World::new();
    let a = register(&mut world, "A", StorageType::Table);
    let only_a = world.register_bundle(&[a]);
    let e = world.spawn(only_a, vec![value(1)]);
    assert!(world.despawn(e));
    let f = world.spawn(only_a, vec![value(2)]);
    assert_eq!(f.index(), e.index());
    assert!(f.generation() > e.generation());
    assert_eq!(world.insert(e, only_a, vec![value(3)]), None);
    assert_consistent(&world);
}

#[test]
fn archetype_signature_dedup() {
    let mut archetypes = Archetypes::new();
    let c1 = ComponentId::new(1);
    let c2 = ComponentId::new(2);
    let c3 = ComponentId::new(3);
    let first = archetypes.get_id_or_insert(TableId::new(1), &[c2, c1, c2], &[c3]);
    let second = archetypes.get_id_or_insert(TableId::new(1), &[c1, c2], &[c3, c3]);
    assert_eq!(first, second);
    let third = archetypes.get_id_or_insert(TableId::new(1), &[c1], &[c2, c3]);
    assert_ne!(first, third);
    assert_eq!(archetypes.len(), 3);
    let empty = archetypes.get_id_or_insert(TableId::empty(), &[], &[]);
    assert_eq!(empty, ArchetypeId::empty());
    let arch = archetypes.get(first).unwrap();
    assert_eq!(arch.table_components(), &[c1, c2]);
    assert_eq!(arch.sparse_set_components(), &[c3]);
    assert!(arch.contains(c3));
    assert_eq!(arch.get_storage_type(c1), Some(StorageType::Table));
    assert_eq!(arch.get_storage_type(c3), Some(StorageType::SparseSet));
    assert_eq!(arch.get_storage_type(ComponentId::new(9)), None);
}

#[test]
fn entity_ids_pack() {
    let e = Entity::new(3, 1);
    assert_eq!(Entity::from_bits(e.to_bits()), e);
}

#[test]
fn check_change_ticks_keeps_locations() {
    let mut world = World::new();
    let a = register(&mut world, "A", StorageType::Table);
    let only_a = world.register_bundle(&[a]);
    let e = world.spawn(only_a, vec![value(1)]);
    let before = world.get(e);
    world.increment_change_tick();
    world.check_change_ticks();
    assert_eq!(world.get(e), before);
    assert_consistent(&world);
}
