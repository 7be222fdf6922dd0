//! The deferred command buffer, the entity allocator, the access analyzer,
//! and the fixed-width component codecs.

use safe_ecs::Access;
use safe_ecs::CommandBuffer;
use safe_ecs::Component;
use safe_ecs::EcsTypeId;
use safe_ecs::Entities;
use safe_ecs::QueryParam;
use safe_ecs::Table;
use safe_ecs::World;

#[test]
fn commands_basic_insert() {
    let mut world = World::new();
    let u32s = Table::<u32>::new(&mut world);
    let u64s = Table::<u64>::new(&mut world);
    let e = world.spawn();
    let mut cmds = CommandBuffer::new();
    cmds.insert_component(&u32s, e, 10_u32);
    cmds.insert_component(&u64s, e, 12_u64);
    cmds.remove_component(&u32s, e);
    cmds.apply(&mut world);

    let mut iter = world.join(vec![u32s.term(&world)]);
    assert!(iter.next().is_none());
    let mut iter = world.join(vec![u64s.term(&world)]);
    let row = iter.next().unwrap();
    let bytes = row[0].cell().unwrap();
    let mut raw = [0u8; 8];
    raw.copy_from_slice(bytes);
    assert_eq!(u64::from_le_bytes(raw), 12);
    assert!(iter.next().is_none());
}

#[test]
fn commands_spawn() {
    let mut world = World::new();
    let u32s = Table::<u32>::new(&mut world);
    let u64s = Table::<u64>::new(&mut world);
    let e1 = world.spawn();
    let mut cmds = CommandBuffer::new();
    cmds.insert_component(&u32s, e1, 10_u32);
    cmds.insert_component(&u64s, e1, 12_u64);
    cmds.remove_component(&u32s, e1);
    cmds.apply(&mut world);

    let mut iter = world.join(vec![u32s.term(&world)]);
    assert!(iter.next().is_none());
    let mut iter = world.join(vec![safe_ecs::WithEntities.term(), u64s.term(&world)]);
    let row = iter.next().unwrap();
    assert_eq!(row[0].entity().unwrap(), e1);
    let bytes = row[1].cell().unwrap();
    let mut raw = [0u8; 8];
    raw.copy_from_slice(bytes);
    assert_eq!(u64::from_le_bytes(raw), 12);
    assert!(iter.next().is_none());
}

#[test]
fn spawn() {
    let mut world = World::new();
    let u32s = Table::<u32>::new(&mut world);
    let u64s = Table::<u64>::new(&mut world);
    let mut cmds = CommandBuffer::new();
    let e1 = world.spawn();
    cmds.insert_component(&u32s, e1, 10_u32);
    cmds.insert_component(&u64s, e1, 12_u64);
    cmds.remove_component(&u32s, e1);
    cmds.apply(&mut world);
    assert_eq!(world.get_component(&u32s, e1), None);
    assert_eq!(world.get_component(&u64s, e1), Some(12_u64));
}

#[test]
fn command_order_matters() {
    let mut world = World::new();
    let u32s = Table::<u32>::new(&mut world);
    let e = world.spawn();
    let mut cmds = CommandBuffer::new();
    cmds.insert_component(&u32s, e, 1_u32);
    cmds.remove_component(&u32s, e);
    cmds.insert_component(&u32s, e, 2_u32);
    cmds.apply(&mut world);
    assert_eq!(world.get_component(&u32s, e), Some(2_u32));
}

#[test]
fn entity_allocator_reserve_and_fix() {
    let mut entities = Entities::new();
    let e0 = entities.reserve_entity();
    let e1 = entities.reserve_entity();
    assert!(!entities.is_alive(e0));
    assert!(!entities.is_alive(e1));
    let fixed = entities.fix_reserved_entities();
    assert_eq!(fixed, vec![e0, e1]);
    assert!(entities.is_alive(e0));
    assert!(entities.is_alive(e1));
    assert_eq!(entities.meta(e0).unwrap().archetype, 0);
    entities.kill(e0);
    assert!(!entities.is_alive(e0));
    assert!(entities.is_alive(e1));
}

#[test]
fn access_rules() {
    let a = Access::new().insert_read(EcsTypeId(0)).unwrap();
    let a = a.insert_read(EcsTypeId(0)).unwrap();
    let a = a.insert_write(EcsTypeId(1)).unwrap();
    assert!(a.insert_write(EcsTypeId(0)).is_err());
    let b = Access::new().insert_write(EcsTypeId(2)).unwrap();
    assert!(b.insert_write(EcsTypeId(2)).is_err());
    let c = Access::new().insert_write(EcsTypeId(3)).unwrap();
    assert!(c.insert_read(EcsTypeId(3)).is_err());
}

#[test]
fn access_join_rules() {
    let reads0 = Access::new().insert_read(EcsTypeId(0)).unwrap();
    let reads0_too = Access::new().insert_read(EcsTypeId(0)).unwrap();
    assert!(reads0.join_with(Ok(reads0_too)).is_ok());

    let writes0 = Access::new().insert_write(EcsTypeId(0)).unwrap();
    let writes0_too = Access::new().insert_write(EcsTypeId(0)).unwrap();
    assert!(writes0.join_with(Ok(writes0_too)).is_err());

    let reads0 = Access::new().insert_read(EcsTypeId(0)).unwrap();
    let writes0 = Access::new().insert_write(EcsTypeId(0)).unwrap();
    assert!(reads0.join_with(Ok(writes0)).is_err());

    let writes0 = Access::new().insert_write(EcsTypeId(0)).unwrap();
    assert!(writes0.join_with(Err(())).is_err());

    let reads0 = Access::new().insert_read(EcsTypeId(0)).unwrap();
    let writes1 = Access::new().insert_write(EcsTypeId(1)).unwrap();
    assert!(reads0.join_with(Ok(writes1)).is_ok());
}

#[test]
fn access_from_array() {
    let parts = vec![
        Access::new().insert_read(EcsTypeId(0)),
        Access::new().insert_write(EcsTypeId(1)),
    ];
    assert!(Access::from_array(parts).is_ok());
    let parts = vec![
        Access::new().insert_write(EcsTypeId(1)),
        Access::new().insert_write(EcsTypeId(1)),
    ];
    assert!(Access::from_array(parts).is_err());
}

#[test]
fn codec_round_trips() {
    assert_eq!(10_u32.to_bytes(), vec![10, 0, 0, 0]);
    assert_eq!(u32::from_bytes(&vec![10, 0, 0, 0]), 10);
    assert_eq!(0x0102_u16.to_bytes(), vec![2, 1]);
    assert_eq!(u16::from_bytes(&vec![2, 1]), 0x0102);
    assert_eq!(7_u8.to_bytes(), vec![7]);
    assert_eq!(u8::from_bytes(&vec![7]), 7);
    assert_eq!(true.to_bytes(), vec![1]);
    assert_eq!(bool::from_bytes(&vec![1]), true);
    assert_eq!(bool::from_bytes(&vec![0]), false);
    assert_eq!(12_u64.to_bytes(), vec![12, 0, 0, 0, 0, 0, 0, 0]);
    assert_eq!(u64::from_bytes(&vec![12, 0, 0, 0, 0, 0, 0, 0]), 12);
    let x: u128 = 9;
    assert_eq!(u128::from_bytes(&x.to_bytes()), 9);
    let y: usize = 1234;
    assert_eq!(usize::from_bytes(&y.to_bytes()), 1234);
    assert_eq!(u32::byte_size(), 4);
    assert_eq!(u128::byte_size(), 16);
}

#[test]
fn entity_builder_chains() {
    let mut world = World::new();
    let u32s = Table::<u32>::new(&mut world);
    let e = world.spawn();
    let builder = world.entity_builder(e);
    assert_eq!(builder.id(), e);
    builder.insert(&mut world, &u32s, 42_u32);
    assert_eq!(world.get_component(&u32s, e), Some(42_u32));
    assert_eq!(builder.remove(&mut world, &u32s), Some(42_u32));
    assert_eq!(world.get_component(&u32s, e), None);
}

#[test]
fn world_ids_match_their_handles() {
    let mut world = World::new();
    let u32s = Table::<u32>::new(&mut world);
    assert_eq!(u32s.world_id(), world.id());
    assert_eq!(u32s.world_id().inner(), world.id().inner());
    let u64s = Table::<u64>::new(&mut world);
    assert_ne!(u32s.ecs_type_id(), u64s.ecs_type_id());
}
