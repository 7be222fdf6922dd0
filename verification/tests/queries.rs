//! The query engine: joins, optional and negated terms, and the borrow
//! conflict rules.

use safe_ecs::Entity;
use safe_ecs::Maybe;
use safe_ecs::QueryItem;
use safe_ecs::QueryParam;
use safe_ecs::Table;
use safe_ecs::Unsatisfied;
use safe_ecs::WithEntities;
use safe_ecs::World;

fn row_entity(row: &[QueryItem], i: usize) -> Entity {
    row[i].entity().unwrap()
}

fn row_u32(row: &[QueryItem], i: usize) -> u32 {
    let bytes = row[i].cell().unwrap();
    u32::from_le_bytes([bytes[0], bytes[1], bytes[2], bytes[3]])
}

fn row_u64(row: &[QueryItem], i: usize) -> u64 {
    let bytes = row[i].cell().unwrap();
    let mut raw = [0u8; 8];
    raw.copy_from_slice(bytes);
    u64::from_le_bytes(raw)
}

fn row_maybe_u32(row: &[QueryItem], i: usize) -> Option<u32> {
    row[i].maybe_cell().unwrap().map(|bytes| {
        u32::from_le_bytes([bytes[0], bytes[1], bytes[2], bytes[3]])
    })
}

fn row_maybe_u128(row: &[QueryItem], i: usize) -> Option<u128> {
    row[i].maybe_cell().unwrap().map(|bytes| {
        let mut raw = [0u8; 16];
        raw.copy_from_slice(bytes);
        u128::from_le_bytes(raw)
    })
}

#[test]
fn query_simple_query() {
    let mut world = World::new();
    let u32s = Table::<u32>::new(&mut world);
    let u64s = Table::<u64>::new(&mut world);
    let u128s = Table::<u128>::new(&mut world);
    let e1 = world.spawn();
    world.insert_component(&u32s, e1, 10_u32);
    world.insert_component(&u64s, e1, 12_u64);
    let e2 = world.spawn();
    world.insert_component(&u64s, e2, 13_u64);
    world.insert_component(&u128s, e2, 9_u128);

    let mut q = world.query(vec![u64s.term(&world)]).unwrap();
    let mut iter = q.iter_mut();
    let mut returned: Vec<u64> = Vec::new();
    while let Some(row) = iter.next() {
        returned.push(row_u64(&row, 0));
    }
    assert_eq!(returned, [12, 13]);
}

#[test]
fn query_tuple_query() {
    let mut world = World::new();
    let u32s = Table::<u32>::new(&mut world);
    let u64s = Table::<u64>::new(&mut world);
    let u128s = Table::<u128>::new(&mut world);
    let e1 = world.spawn();
    world.insert_component(&u32s, e1, 10_u32);
    world.insert_component(&u64s, e1, 12_u64);
    let e2 = world.spawn();
    world.insert_component(&u64s, e2, 13_u64);
    world.insert_component(&u128s, e2, 9_u128);

    let mut q = world.query(vec![WithEntities.term(), u32s.term(&world), u64s.term(&world)]).unwrap();
    let mut iter = q.iter_mut();
    let row = iter.next().unwrap();
    assert_eq!(row_entity(&row, 0), e1);
    assert_eq!(row_u32(&row, 1), 10);
    assert_eq!(row_u64(&row, 2), 12);
    assert!(iter.next().is_none());
}

#[test]
fn query_maybe_query() {
    let mut world = World::new();
    let u32s = Table::<u32>::new(&mut world);
    let u64s = Table::<u64>::new(&mut world);
    let u128s = Table::<u128>::new(&mut world);
    let e1 = world.spawn();
    world.insert_component(&u32s, e1, 10_u32);
    world.insert_component(&u64s, e1, 12_u64);
    let e2 = world.spawn();
    world.insert_component(&u64s, e2, 13_u64);
    world.insert_component(&u128s, e2, 9_u128);

    let mut q = world
        .query(vec![
            WithEntities.term(),
            Maybe(u32s.term(&world)).term(),
            u64s.term(&world),
            Maybe(u128s.term(&world)).term(),
        ])
        .unwrap();
    let mut iter = q.iter_mut();
    let row = iter.next().unwrap();
    assert_eq!(row_entity(&row, 0), e1);
    assert_eq!(row_maybe_u32(&row, 1), Some(10_u32));
    assert_eq!(row_u64(&row, 2), 12_u64);
    assert_eq!(row_maybe_u128(&row, 3), None);
    let row = iter.next().unwrap();
    assert_eq!(row_entity(&row, 0), e2);
    assert_eq!(row_maybe_u32(&row, 1), None);
    assert_eq!(row_u64(&row, 2), 13_u64);
    assert_eq!(row_maybe_u128(&row, 3), Some(9_u128));
    assert!(iter.next().is_none());
}

#[test]
fn query_query_with_despawned() {
    let mut world = World::new();
    let u32s = Table::<u32>::new(&mut world);
    let e1 = world.spawn();
    world.insert_component(&u32s, e1, 10_u32);
    world.despawn(e1);

    let mut q = world.query(vec![u32s.term(&world)]).unwrap();
    let mut iter = q.iter_mut();
    assert!(iter.next().is_none());
}

#[test]
fn simple_query() {
    let mut world = World::new();
    let u32s = Table::<u32>::new(&mut world);
    let u64s = Table::<u64>::new(&mut world);
    let u128s = Table::<u128>::new(&mut world);
    let e1 = world.spawn();
    u32s.insert_component(&mut world, e1, 10_u32);
    u64s.insert_component(&mut world, e1, 12_u64);
    let e2 = world.spawn();
    u64s.insert_component(&mut world, e2, 13_u64);
    u128s.insert_component(&mut world, e2, 9_u128);

    let mut it = world.join(vec![u64s.term(&world)]);
    let mut returned: Vec<u64> = Vec::new();
    while let Some(row) = it.next() {
        returned.push(row_u64(&row, 0));
    }
    assert_eq!(returned, [12, 13]);
}

#[test]
fn tuple_query() {
    let mut world = World::new();
    let u32s = Table::<u32>::new(&mut world);
    let u64s = Table::<u64>::new(&mut world);
    let u128s = Table::<u128>::new(&mut world);
    let e1 = world.spawn();
    u32s.insert_component(&mut world, e1, 10_u32);
    u64s.insert_component(&mut world, e1, 12_u64);
    let e2 = world.spawn();
    u64s.insert_component(&mut world, e2, 13_u64);
    u128s.insert_component(&mut world, e2, 9_u128);

    let mut it = world.join(vec![WithEntities.term(), u32s.term(&world), u64s.term(&world)]);
    let row = it.next().unwrap();
    assert_eq!(row_entity(&row, 0), e1);
    assert_eq!(row_u32(&row, 1), 10);
    assert_eq!(row_u64(&row, 2), 12);
    assert!(it.next().is_none());
}

#[test]
fn maybe_query() {
    let mut world = World::new();
    let u32s = Table::<u32>::new(&mut world);
    let u64s = Table::<u64>::new(&mut world);
    let u128s = Table::<u128>::new(&mut world);
    let e1 = world.spawn();
    u32s.insert_component(&mut world, e1, 10_u32);
    u64s.insert_component(&mut world, e1, 12_u64);
    let e2 = world.spawn();
    u64s.insert_component(&mut world, e2, 13_u64);
    u128s.insert_component(&mut world, e2, 9_u128);

    let mut it = world.join(vec![
        WithEntities.term(),
        Maybe(u32s.term(&world)).term(),
        u64s.term(&world),
        Maybe(u128s.term(&world)).term(),
    ]);
    let row = it.next().unwrap();
    assert_eq!(row_entity(&row, 0), e1);
    assert_eq!(row_maybe_u32(&row, 1), Some(10_u32));
    assert_eq!(row_u64(&row, 2), 12_u64);
    assert_eq!(row_maybe_u128(&row, 3), None);
    let row = it.next().unwrap();
    assert_eq!(row_entity(&row, 0), e2);
    assert_eq!(row_maybe_u32(&row, 1), None);
    assert_eq!(row_u64(&row, 2), 13_u64);
    assert_eq!(row_maybe_u128(&row, 3), Some(9_u128));
    assert!(it.next().is_none());
}

#[test]
fn query_with_despawned() {
    let mut world = World::new();
    let u32s = Table::<u32>::new(&mut world);
    let e1 = world.spawn();
    u32s.insert_component(&mut world, e1, 10_u32);
    world.despawn(e1);

    let mut iter = world.join(vec![u32s.term(&world)]);
    assert!(iter.next().is_none());
}

#[test]
fn conflicting_queries() {
    let mut world = World::new();
    let u32s = Table::<u32>::new(&mut world);
    let u64s = Table::<u64>::new(&mut world);
    let e1 = world.spawn();
    world.insert_component(&u32s, e1, 10_u32);
    world.insert_component(&u64s, e1, 10_u64);

    let _q1 = world.query(vec![u32s.term(&world)]).unwrap();
    assert!(world.query(vec![u32s.term_mut(&world)]).is_err());

    let _q2 = world.query(vec![u64s.term_mut(&world)]).unwrap();
    assert!(world.query(vec![u32s.term(&world), u64s.term_mut(&world)]).is_err());

    let _q3 = world.query(vec![u32s.term(&world)]).unwrap();
}

#[test]
fn release_returns_borrows() {
    let mut world = World::new();
    let u32s = Table::<u32>::new(&mut world);
    let e1 = world.spawn();
    world.insert_component(&u32s, e1, 10_u32);

    let q1 = world.query(vec![u32s.term_mut(&world)]).unwrap();
    assert!(world.query(vec![u32s.term(&world)]).is_err());
    world.release(q1);
    let _q2 = world.query(vec![u32s.term(&world)]).unwrap();
}

#[test]
fn self_conflicting_shape() {
    let mut world = World::new();
    let u32s = Table::<u32>::new(&mut world);
    let e1 = world.spawn();
    world.insert_component(&u32s, e1, 10_u32);
    assert!(world.query(vec![u32s.term_mut(&world), u32s.term_mut(&world)]).is_err());
    assert!(world.query(vec![u32s.term(&world), u32s.term_mut(&world)]).is_err());
    assert!(world.query(vec![u32s.term(&world), u32s.term(&world)]).is_ok());
}

#[test]
fn maybe_on_uncreated_column() {
    let mut world = World::new();
    let _e1 = world.spawn();
    let u32s = Table::<u32>::new(&mut world);
    let mut q = world.query(vec![Maybe(u32s.term(&world)).term()]).unwrap();
    let mut iter = q.iter_mut();
    let row = iter.next().unwrap();
    assert_eq!(row_maybe_u32(&row, 0), None);
    assert!(iter.next().is_none());
}

#[test]
fn query_complex_maybe_query() {
    let mut world = World::new();
    let u32s = Table::<u32>::new(&mut world);
    let u64s = Table::<u64>::new(&mut world);
    let e1 = world.spawn();
    world.insert_component(&u32s, e1, 10_u32);
    let e2 = world.spawn();
    world.insert_component(&u32s, e2, 12_u32);
    let mut q = world
        .query(vec![WithEntities.term(), Maybe(u64s.term(&world)).term(), u32s.term(&world)])
        .unwrap();
    let mut iter = q.iter_mut();
    let row = iter.next().unwrap();
    assert_eq!(row_entity(&row, 0), e1);
    assert!(row[1].maybe_cell().unwrap().is_none());
    assert_eq!(row_u32(&row, 2), 10_u32);
    let row = iter.next().unwrap();
    assert_eq!(row_entity(&row, 0), e2);
    assert!(row[1].maybe_cell().unwrap().is_none());
    assert_eq!(row_u32(&row, 2), 12_u32);
    assert!(iter.next().is_none());
}

#[test]
fn static_columns_complex_maybe_query() {
    let mut world = World::new();
    let u32s = Table::<u32>::new(&mut world);
    let u64s = Table::<u64>::new(&mut world);
    let e1 = world.spawn();
    u32s.insert_component(&mut world, e1, 10_u32);
    let e2 = world.spawn();
    u32s.insert_component(&mut world, e2, 12_u32);
    let mut it = world.join(vec![
        WithEntities.term(),
        Maybe(u64s.term(&world)).term(),
        u32s.term(&world),
    ]);
    let row = it.next().unwrap();
    assert_eq!(row_entity(&row, 0), e1);
    assert!(row[1].maybe_cell().unwrap().is_none());
    assert_eq!(row_u32(&row, 2), 10_u32);
    let row = it.next().unwrap();
    assert_eq!(row_entity(&row, 0), e2);
    assert!(row[1].maybe_cell().unwrap().is_none());
    assert_eq!(row_u32(&row, 2), 12_u32);
    assert!(it.next().is_none());
}

#[test]
fn static_columns_for_loop() {
    let mut world = World::new();
    let u32s = Table::<u32>::new(&mut world);
    let e1 = world.spawn();
    u32s.insert_component(&mut world, e1, 10);
    let mut it = world.join(vec![WithEntities.term(), u32s.term(&world)]);
    let row = it.next().unwrap();
    assert_eq!(row_entity(&row, 0), e1);
    assert_eq!(row_u32(&row, 1), 10);
    assert!(it.next().is_none());
}

#[test]
fn static_columns_simple_query() {
    let mut world = World::new();
    let u32s = Table::<u32>::new(&mut world);
    let u64s = Table::<u64>::new(&mut world);
    let u128s = Table::<u128>::new(&mut world);
    let e1 = world.spawn();
    let b1 = world.entity_builder(e1);
    b1.insert(&mut world, &u32s, 10_u32);
    b1.insert(&mut world, &u64s, 12_u64);
    let e2 = world.spawn();
    let b2 = world.entity_builder(e2);
    b2.insert(&mut world, &u64s, 13_u64);
    b2.insert(&mut world, &u128s, 9_u128);
    let mut it = world.join(vec![u64s.term(&world)]);
    let mut returned: Vec<u64> = Vec::new();
    while let Some(row) = it.next() {
        returned.push(row_u64(&row, 0));
    }
    assert_eq!(returned, [12, 13]);
}

#[test]
fn static_columns_tuple_query() {
    let mut world = World::new();
    let u32s = Table::<u32>::new(&mut world);
    let u64s = Table::<u64>::new(&mut world);
    let u128s = Table::<u128>::new(&mut world);
    let e1 = world.spawn();
    u32s.insert_component(&mut world, e1, 10_u32);
    u64s.insert_component(&mut world, e1, 12_u64);
    let e2 = world.spawn();
    u64s.insert_component(&mut world, e2, 13_u64);
    u128s.insert_component(&mut world, e2, 9_u128);
    let mut it = world.join(vec![WithEntities.term(), u32s.term(&world), u64s.term(&world)]);
    let row = it.next().unwrap();
    assert_eq!(row_entity(&row, 0), e1);
    assert_eq!(row_u32(&row, 1), 10);
    assert_eq!(row_u64(&row, 2), 12);
    assert!(it.next().is_none());
}

#[test]
fn static_columns_maybe_query() {
    let mut world = World::new();
    let u32s = Table::<u32>::new(&mut world);
    let u64s = Table::<u64>::new(&mut world);
    let u128s = Table::<u128>::new(&mut world);
    let e1 = world.spawn();
    u32s.insert_component(&mut world, e1, 10_u32);
    u64s.insert_component(&mut world, e1, 12_u64);
    let e2 = world.spawn();
    u64s.insert_component(&mut world, e2, 13_u64);
    u128s.insert_component(&mut world, e2, 9_u128);
    let mut it = world.join(vec![
        WithEntities.term(),
        Maybe(u32s.term(&world)).term(),
        u64s.term(&world),
        Maybe(u128s.term(&world)).term(),
    ]);
    let row = it.next().unwrap();
    assert_eq!(row_entity(&row, 0), e1);
    assert_eq!(row_maybe_u32(&row, 1), Some(10_u32));
    assert_eq!(row_u64(&row, 2), 12_u64);
    assert_eq!(row_maybe_u128(&row, 3), None);
    let row = it.next().unwrap();
    assert_eq!(row_entity(&row, 0), e2);
    assert_eq!(row_maybe_u32(&row, 1), None);
    assert_eq!(row_u64(&row, 2), 13_u64);
    assert_eq!(row_maybe_u128(&row, 3), Some(9_u128));
    assert!(it.next().is_none());
}

#[test]
fn static_columns_query_with_despawned() {
    let mut world = World::new();
    let u32s = Table::<u32>::new(&mut world);
    let e1 = world.spawn();
    u32s.insert_component(&mut world, e1, 10_u32);
    world.despawn(e1);
    let mut iter = world.join(vec![u32s.term(&world)]);
    assert!(iter.next().is_none());
}

#[test]
fn unsatisfied_term_filters() {
    let mut world = World::new();
    let u32s = Table::<u32>::new(&mut world);
    let u64s = Table::<u64>::new(&mut world);
    let e1 = world.spawn();
    u32s.insert_component(&mut world, e1, 10_u32);
    let e2 = world.spawn();
    u32s.insert_component(&mut world, e2, 12_u32);
    u64s.insert_component(&mut world, e2, 5_u64);
    let mut it = world.join(vec![
        WithEntities.term(),
        u32s.term(&world),
        Unsatisfied(u64s.term(&world)).term(),
    ]);
    let row = it.next().unwrap();
    assert_eq!(row_entity(&row, 0), e1);
    assert_eq!(row_u32(&row, 1), 10);
    assert!(it.next().is_none());
}

#[test]
fn maybe_and_unsatisfied_row_parity() {
    let mut world = World::new();
    let u32s = Table::<u32>::new(&mut world);
    let u64s = Table::<u64>::new(&mut world);
    let e1 = world.spawn();
    u32s.insert_component(&mut world, e1, 1);
    let e2 = world.spawn();
    u32s.insert_component(&mut world, e2, 2);
    u64s.insert_component(&mut world, e2, 3);
    let e3 = world.spawn();
    u64s.insert_component(&mut world, e3, 4);

    let mut plain = 0usize;
    let mut it = world.join(vec![u32s.term(&world)]);
    while it.next().is_some() {
        plain += 1;
    }
    let mut with_maybe = 0usize;
    let mut it = world.join(vec![u32s.term(&world), Maybe(u64s.term(&world)).term()]);
    while it.next().is_some() {
        with_maybe += 1;
    }
    assert_eq!(plain, 2);
    assert_eq!(with_maybe, plain);

    // the negated term keeps one row per entity of the archetypes it admits
    let mut without = 0usize;
    let mut it = world.join(vec![u32s.term(&world), Unsatisfied(u64s.term(&world)).term()]);
    while it.next().is_some() {
        without += 1;
    }
    assert_eq!(without, 1);
}
