use joker_ecs::entity::{Entities, Entity, EntityLocation};
use std::sync::atomic::{AtomicI64, Ordering};

#[test]
fn test_automic() {
    let id = AtomicI64::new(0);
    let value = id.fetch_sub(10, Ordering::Relaxed);
    assert_eq!(value, 0);
    let value = id.fetch_sub(10, Ordering::Relaxed);
    assert_eq!(value, -10);
}

#[test]
fn test_range() {
    let mut idx = -1;
    for i in 0..10 {
        idx = i;
    }
    assert_eq!(idx, 9);

    let mut idx = -1;
    for i in 0..=10 {
        idx = i;
    }
    assert_eq!(idx, 10);
}

#[test]
fn test_bits_roundtrip() {
    let e = Entity::new(0xBAADF00D, 0xDEADBEEF);
    assert_eq!(Entity::from_bits(e.to_bits()), e);
}

#[test]
fn test_reserve_len() {
    let mut entities = Entities::new();
    entities.reserve_entity();
    let _ = entities.flush(EntityLocation::invalid());
    assert_eq!(entities.len(), 1);
}

#[test]
fn test_reserve_and_invalid() {
    let mut entities = Entities::new();
    let e = entities.reserve_entity();
    assert!(entities.contains(e));
    assert!(entities.get(e).is_none());

    entities.flush_as_invalid();

    assert!(entities.contains(e));
    assert!(entities.get(e).is_none());
}

#[test]
fn test_const() {
    let c1 = Entity::from_raw(42);
    assert_eq!(42, c1.index());
    assert_eq!(0, c1.generation());

    let c2 = Entity::from_bits(0x0000_00ff_0000_00cc);
    assert_eq!(0x0000_00cc, c2.index());
    assert_eq!(0x0000_00ff, c2.generation());

    let c3: u32 = Entity::from_raw(33).index();
    assert_eq!(33, c3);

    let c4: u32 = Entity::from_bits(0x00dd_00ff_0000_0000).generation();
    assert_eq!(0x00dd_00ff, c4);
}

#[test]
fn test_generation() {
    let mut entities = Entities::new();
    let entity = entities.allocate();
    entities.free(entity);
    assert!(entities.reserve_generations(entity.index(), 1));
}

#[test]
fn test_generation_and_alloc() {
    const GENERATIONS: u32 = 10;

    let mut entities = Entities::new();
    let entity = entities.allocate();
    entities.free(entity);

    assert!(entities.reserve_generations(entity.index(), GENERATIONS));

    let next_entity = entities.allocate();
    assert_eq!(next_entity.index(), entity.index());
    assert_eq!(next_entity.generation(), entity.generation() + GENERATIONS + 1);
}

#[test]
fn bits_pack_generation_high_and_index_low() {
    assert_eq!(Entity::new(7, 3).to_bits(), (3u64 << 32) | 7);
    assert_eq!(Entity::from_bits(u64::MAX), Entity::new(u32::MAX, u32::MAX));
}

#[test]
fn free_then_allocate_gives_greater_generation() {
    let mut entities = Entities::new();
    let e = entities.allocate();
    assert_eq!(entities.free(e), Some(EntityLocation::invalid()));
    let again = entities.allocate();
    assert_eq!(again.index(), e.index());
    assert!(again.generation() > e.generation());
    assert!(!entities.contains(e));
    assert!(entities.contains(again));
}

#[test]
fn stale_free_is_refused() {
    let mut entities = Entities::new();
    let e = entities.allocate();
    let stale = Entity::new(e.index(), e.generation() + 1);
    assert_eq!(entities.free(stale), None);
    assert_eq!(entities.len(), 1);
}

#[test]
fn reserve_generations_fails_on_unknown_index() {
    let mut entities = Entities::new();
    assert!(!entities.reserve_generations(5, 1));
}

#[test]
fn reserved_ids_reuse_freed_then_extend() {
    let mut entities = Entities::new();
    let a = entities.allocate();
    let b = entities.allocate();
    entities.free(a);
    entities.free(b);
    let mut reserved = entities.reserve_entities(3);
    assert_eq!(reserved.len(), 3);
    let first = reserved.next().unwrap();
    let second = reserved.next().unwrap();
    let third = reserved.next().unwrap();
    assert!(reserved.next().is_none());
    assert_eq!(first.index(), a.index());
    assert_eq!(second.index(), b.index());
    assert_eq!(third, Entity::new(2, 0));
    assert!(entities.needs_flush());
    let realized = entities.flush(EntityLocation::invalid());
    assert_eq!(realized.len(), 3);
    assert!(!entities.needs_flush());
    assert_eq!(entities.len(), 3);
    assert_eq!(entities.total_count(), 3);
}

#[test]
fn alloc_at_extends_and_marks_gaps_pending() {
    let mut entities = Entities::new();
    assert_eq!(entities.alloc_at(Entity::new(3, 5)), None);
    assert_eq!(entities.total_count(), 4);
    assert_eq!(entities.len(), 1);
    assert!(entities.contains(Entity::new(3, 5)));
    assert_eq!(entities.alloc_at(Entity::new(1, 2)), None);
    assert_eq!(entities.len(), 2);
    let e = entities.allocate();
    assert!(e.index() == 0 || e.index() == 2);
}

#[test]
fn double_free_returns_none() {
    let mut entities = Entities::new();
    let e = entities.allocate();
    assert!(entities.free(e).is_some());
    assert!(entities.free(e).is_none());
    let fabricated = Entity::new(e.index(), e.generation() + 1);
    assert!(entities.free(fabricated).is_none());
    assert!(entities.free(Entity::new(40, 0)).is_none());
    assert_eq!(entities.len(), 0);
}
