//! The store's direct component interface, exercised through the typed
//! handles.

use safe_ecs::Table;
use safe_ecs::World;

#[test]
fn world_basic_insert() {
    let mut world = World::new();
    let u32s = Table::<u32>::new(&mut world);
    let e = world.spawn();
    assert!(world.insert_component(&u32s, e, 10_u32).is_none());
    assert_eq!(world.get_component(&u32s, e).unwrap(), 10_u32);
}

#[test]
fn world_insert_overwrite() {
    let mut world = World::new();
    let u32s = Table::<u32>::new(&mut world);
    let e = world.spawn();
    assert!(world.insert_component(&u32s, e, 10_u32).is_none());
    assert_eq!(world.insert_component(&u32s, e, 12_u32).unwrap(), 10_u32);
    assert_eq!(world.get_component(&u32s, e).unwrap(), 12_u32);
}

#[test]
fn world_insert_archetype_change() {
    let mut world = World::new();
    let u32s = Table::<u32>::new(&mut world);
    let u64s = Table::<u64>::new(&mut world);
    let e = world.spawn();
    assert!(world.insert_component(&u32s, e, 10_u32).is_none());
    assert!(world.insert_component(&u64s, e, 12_u64).is_none());
    assert_eq!(world.insert_component(&u32s, e, 15_u32).unwrap(), 10_u32);
    assert_eq!(world.get_component(&u32s, e).unwrap(), 15_u32);
    assert_eq!(world.get_component(&u64s, e).unwrap(), 12_u64);
}

#[test]
fn world_insert_on_dead() {
    let mut world = World::new();
    let u32s = Table::<u32>::new(&mut world);
    let e = world.spawn();
    assert!(world.insert_component(&u32s, e, 10_u32).is_none());
    world.despawn(e);
    assert!(world.insert_component(&u32s, e, 12_u32).is_none());
}

#[test]
fn world_basic_remove() {
    let mut world = World::new();
    let u32s = Table::<u32>::new(&mut world);
    let e = world.spawn();
    assert!(world.remove_component(&u32s, e).is_none());
    assert!(world.insert_component(&u32s, e, 10_u32).is_none());
    assert_eq!(world.remove_component(&u32s, e).unwrap(), 10_u32);
    assert!(world.remove_component(&u32s, e).is_none());
}

#[test]
fn world_remove_archetype_change() {
    let mut world = World::new();
    let u32s = Table::<u32>::new(&mut world);
    let u64s = Table::<u64>::new(&mut world);
    let e = world.spawn();
    assert!(world.insert_component(&u32s, e, 10_u32).is_none());
    assert!(world.insert_component(&u64s, e, 12_u64).is_none());
    assert_eq!(world.insert_component(&u32s, e, 15_u32).unwrap(), 10_u32);
    world.remove_component(&u64s, e);
    assert_eq!(world.get_component(&u32s, e).unwrap(), 15_u32);
    assert_eq!(world.has_component(&u64s, e).unwrap(), false);
}

#[test]
fn world_remove_on_dead() {
    let mut world = World::new();
    let u32s = Table::<u32>::new(&mut world);
    let e = world.spawn();
    assert!(world.insert_component(&u32s, e, 10_u32).is_none());
    world.despawn(e);
    assert!(world.remove_component(&u32s, e).is_none());
}

#[test]
fn static_columns_has_component() {
    let mut world = World::new();
    let u32s = Table::<u32>::new(&mut world);
    let e = world.spawn();
    assert_eq!(u32s.has_component(&world, e), false);
}

#[test]
fn static_columns_basic_insert() {
    let mut world = World::new();
    let u32s = Table::<u32>::new(&mut world);
    let e = world.spawn();
    assert!(u32s.insert_component(&mut world, e, 10_u32).is_none());
    assert_eq!(u32s.get_component(&world, e).unwrap(), 10_u32);
}

#[test]
fn static_columns_insert_overwrite() {
    let mut world = World::new();
    let u32s = Table::<u32>::new(&mut world);
    let e = world.spawn();
    assert!(u32s.insert_component(&mut world, e, 10_u32).is_none());
    assert_eq!(u32s.insert_component(&mut world, e, 12_u32).unwrap(), 10_u32);
    assert_eq!(u32s.get_component(&world, e).unwrap(), 12_u32);
}

#[test]
fn static_columns_insert_archetype_change() {
    let mut world = World::new();
    let u32s = Table::<u32>::new(&mut world);
    let u64s = Table::<u64>::new(&mut world);
    let e = world.spawn();
    assert!(u32s.insert_component(&mut world, e, 10_u32).is_none());
    assert!(u64s.insert_component(&mut world, e, 12_u64).is_none());
    assert_eq!(u32s.insert_component(&mut world, e, 15_u32).unwrap(), 10_u32);
    assert_eq!(u32s.get_component(&world, e).unwrap(), 15_u32);
    assert_eq!(u64s.get_component(&world, e).unwrap(), 12_u64);
}

#[test]
fn static_columns_basic_remove() {
    let mut world = World::new();
    let u32s = Table::<u32>::new(&mut world);
    let e = world.spawn();
    assert!(u32s.remove_component(&mut world, e).is_none());
    assert!(u32s.insert_component(&mut world, e, 10_u32).is_none());
    assert_eq!(u32s.remove_component(&mut world, e).unwrap(), 10_u32);
    assert!(u32s.remove_component(&mut world, e).is_none());
}

#[test]
fn static_columns_remove_archetype_change() {
    let mut world = World::new();
    let u32s = Table::<u32>::new(&mut world);
    let u64s = Table::<u64>::new(&mut world);
    let e = world.spawn();
    assert!(u32s.insert_component(&mut world, e, 10_u32).is_none());
    assert!(u64s.insert_component(&mut world, e, 12_u64).is_none());
    assert_eq!(u32s.insert_component(&mut world, e, 15_u32).unwrap(), 10_u32);
    u64s.remove_component(&mut world, e);
    assert_eq!(u32s.get_component(&world, e).unwrap(), 15_u32);
    assert_eq!(u64s.has_component(&world, e), false);
}

#[test]
fn static_columns_get_component() {
    let mut world = World::new();
    let u32s = Table::<u32>::new(&mut world);
    let e = world.spawn();
    let builder = world.entity_builder(e);
    builder.insert(&mut world, &u32s, 10_u32);
    let data = u32s.get_component(&world, e).unwrap();
    assert_eq!(data, 10_u32);
}

#[test]
fn overwrite_keeps_archetype() {
    let mut world = World::new();
    let u32s = Table::<u32>::new(&mut world);
    let u64s = Table::<u64>::new(&mut world);
    let e = world.spawn();
    u32s.insert_component(&mut world, e, 10_u32);
    u64s.insert_component(&mut world, e, 12_u64);
    let archetypes_before = world.archetypes.len();
    assert_eq!(u32s.insert_component(&mut world, e, 7_u32).unwrap(), 10_u32);
    assert_eq!(world.archetypes.len(), archetypes_before);
}

#[test]
fn despawn_purges_membership() {
    let mut world = World::new();
    let u32s = Table::<u32>::new(&mut world);
    let e = world.spawn();
    u32s.insert_component(&mut world, e, 10_u32);
    world.despawn(e);
    assert_eq!(world.is_alive(e), false);
    for archetype in &world.archetypes {
        assert!(!archetype.entities.contains(&e));
    }
    let mut it = world.join(vec![u32s.term(&world)]);
    assert!(it.next().is_none());
}

#[test]
fn spawn_gives_fresh_ids() {
    let mut world = World::new();
    let e1 = world.spawn();
    let e2 = world.spawn();
    assert_ne!(e1, e2);
    assert!(world.is_alive(e1));
    assert!(world.is_alive(e2));
    world.despawn(e1);
    let e3 = world.spawn();
    assert_ne!(e3, e1);
    assert_ne!(e3, e2);
    assert!(!world.is_alive(e1));
}

#[test]
fn row_alignment_invariant_holds() {
    let mut world = World::new();
    let u32s = Table::<u32>::new(&mut world);
    let u64s = Table::<u64>::new(&mut world);
    let e1 = world.spawn();
    let e2 = world.spawn();
    let e3 = world.spawn();
    u32s.insert_component(&mut world, e1, 1);
    u64s.insert_component(&mut world, e1, 2);
    u32s.insert_component(&mut world, e2, 3);
    u64s.insert_component(&mut world, e3, 4);
    u64s.remove_component(&mut world, e1);
    world.despawn(e2);
    for archetype in &world.archetypes {
        for (ty, col) in &archetype.column_indices {
            let column = &world.families[ty.0].cols[*col];
            assert_eq!(column.len(), archetype.entities.len());
        }
    }
}

#[test]
fn archetype_key_sets_stay_unique() {
    let mut world = World::new();
    let u32s = Table::<u32>::new(&mut world);
    let u64s = Table::<u64>::new(&mut world);
    let e1 = world.spawn();
    let e2 = world.spawn();
    u32s.insert_component(&mut world, e1, 1);
    u64s.insert_component(&mut world, e1, 2);
    u32s.insert_component(&mut world, e2, 3);
    u64s.insert_component(&mut world, e2, 4);
    u64s.remove_component(&mut world, e2);
    let mut key_sets: Vec<Vec<usize>> = Vec::new();
    for archetype in &world.archetypes {
        let mut keys: Vec<usize> = archetype.column_indices.iter().map(|p| p.0 .0).collect();
        keys.sort_unstable();
        assert!(!key_sets.contains(&keys));
        key_sets.push(keys);
    }
}

#[test]
fn insert_remove_round_trip_restores_archetype() {
    let mut world = World::new();
    let u32s = Table::<u32>::new(&mut world);
    let u64s = Table::<u64>::new(&mut world);
    let e = world.spawn();
    u32s.insert_component(&mut world, e, 10_u32);
    let archetype_before = world.entities.metas[e.0].unwrap().archetype;
    assert!(u64s.insert_component(&mut world, e, 12_u64).is_none());
    assert_ne!(world.entities.metas[e.0].unwrap().archetype, archetype_before);
    assert_eq!(u64s.remove_component(&mut world, e), Some(12_u64));
    assert_eq!(world.entities.metas[e.0].unwrap().archetype, archetype_before);
    assert_eq!(u32s.get_component(&world, e), Some(10_u32));
}

#[test]
fn reserve_then_fix_makes_alive() {
    let mut world = World::new();
    let u32s = Table::<u32>::new(&mut world);
    let live = world.spawn();
    u32s.insert_component(&mut world, live, 5_u32);
    let pending = world.reserve_entity();
    assert!(!world.is_alive(pending));
    assert!(world.insert_component(&u32s, pending, 9_u32).is_none());
    assert_eq!(world.get_component(&u32s, pending), None);
    let fixed = world.fix_reserved();
    assert_eq!(fixed, vec![pending]);
    assert!(world.is_alive(pending));
    assert_eq!(world.entities.meta(pending).unwrap().archetype, 0);
    assert!(world.insert_component(&u32s, pending, 9_u32).is_none());
    assert_eq!(world.get_component(&u32s, pending), Some(9_u32));
}
