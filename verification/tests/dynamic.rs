//! Runtime-typed columns: layout validation, byte-for-byte round trips, and
//! dynamic query parameters.

use safe_ecs::ColumnLayout;
use safe_ecs::DynQueryParam;
use safe_ecs::DynamicTable;
use safe_ecs::World;

#[test]
fn lib_has_component() {
    let mut world = World::new();
    let layout = ColumnLayout::new(4, 4).unwrap();
    let u32s = DynamicTable::new(&mut world, layout);
    let e = world.spawn();
    assert_eq!(u32s.has_component(&world, e), false);
}

#[test]
fn dynamic_basic_insert() {
    let mut world = World::new();
    let layout = ColumnLayout::new(4, 4).unwrap();
    let u32s = DynamicTable::new(&mut world, layout);
    let e = world.spawn();
    let data = 10_u32.to_le_bytes().to_vec();
    assert!(u32s.insert_component(&mut world, e, &data).is_none());
    assert_eq!(u32s.get_component(&world, e).unwrap(), data);
}

#[test]
fn dynamic_byte_round_trip() {
    let mut world = World::new();
    let layout = ColumnLayout::new(4, 4).unwrap();
    let cells = DynamicTable::new(&mut world, layout);
    let e = world.spawn();
    let pattern = vec![0xde_u8, 0xad_u8, 0xbe_u8, 0xef_u8];
    assert!(cells.insert_component(&mut world, e, &pattern).is_none());
    assert_eq!(cells.get_component(&world, e).unwrap(), pattern);
    assert_eq!(cells.remove_component(&mut world, e).unwrap(), pattern);
    assert!(cells.get_component(&world, e).is_none());
}

#[test]
fn dynamic_insert_overwrite() {
    let mut world = World::new();
    let layout = ColumnLayout::new(4, 4).unwrap();
    let u32s = DynamicTable::new(&mut world, layout);
    let e = world.spawn();
    let first = 10_u32.to_le_bytes().to_vec();
    let second = 12_u32.to_le_bytes().to_vec();
    assert!(u32s.insert_component(&mut world, e, &first).is_none());
    assert_eq!(u32s.insert_component(&mut world, e, &second).unwrap(), first);
    assert_eq!(u32s.get_component(&world, e).unwrap(), second);
}

#[test]
fn dynamic_remove_archetype_change() {
    let mut world = World::new();
    let u32s = DynamicTable::new(&mut world, ColumnLayout::new(4, 4).unwrap());
    let u64s = DynamicTable::new(&mut world, ColumnLayout::new(8, 8).unwrap());
    let e = world.spawn();
    let a = 10_u32.to_le_bytes().to_vec();
    let b = 12_u64.to_le_bytes().to_vec();
    assert!(u32s.insert_component(&mut world, e, &a).is_none());
    assert!(u64s.insert_component(&mut world, e, &b).is_none());
    assert_eq!(u64s.remove_component(&mut world, e).unwrap(), b);
    assert_eq!(u32s.get_component(&world, e).unwrap(), a);
    assert_eq!(u64s.has_component(&world, e), false);
}

#[test]
fn layout_rejects_bad_alignment() {
    assert!(ColumnLayout::new(4, 4).is_some());
    assert!(ColumnLayout::new(12, 4).is_some());
    assert!(ColumnLayout::new(5, 4).is_some());
    assert!(ColumnLayout::new(6, 3).is_none());
    assert!(ColumnLayout::new(4, 0).is_none());
    assert!(ColumnLayout::new(0, 4).is_none());
    assert!(ColumnLayout::new(1073741824, 1073741824).is_none());
    assert!(ColumnLayout::new(536870912, 536870912).is_some());
}

#[test]
fn simple_query_dynamic() {
    let mut world = World::new();
    let u32s = DynamicTable::new(&mut world, ColumnLayout::new(4, 4).unwrap());
    let u64s = DynamicTable::new(&mut world, ColumnLayout::new(8, 8).unwrap());
    let u128s = DynamicTable::new(&mut world, ColumnLayout::new(16, 16).unwrap());

    let e1 = world.spawn();
    u32s.insert_component(&mut world, e1, &10_u32.to_le_bytes().to_vec());
    u64s.insert_component(&mut world, e1, &12_u64.to_le_bytes().to_vec());

    let e2 = world.spawn();
    u64s.insert_component(&mut world, e2, &13_u64.to_le_bytes().to_vec());
    u128s.insert_component(&mut world, e2, &9_u128.to_le_bytes().to_vec());

    let mut q = world.query(Vec::new()).unwrap();
    q.add_dyn_param(&mut world, DynQueryParam::new_ref(u64s.ecs_type_id())).unwrap();

    let mut q_iter = q.iter_mut();

    let (_, r1) = q_iter.next_dynamic().unwrap();
    assert_eq!(r1[0], 12_u64.to_le_bytes().to_vec());

    let (_, r2) = q_iter.next_dynamic().unwrap();
    assert_eq!(r2[0], 13_u64.to_le_bytes().to_vec());

    assert!(q_iter.next_dynamic().is_none());
}

#[test]
fn uncreated_column() {
    let mut world = World::new();
    let _ = world.spawn();
    let u32s = DynamicTable::new(&mut world, ColumnLayout::new(4, 4).unwrap());

    let mut q = world.query(Vec::new()).unwrap();
    q.add_dyn_param(&mut world, DynQueryParam::new_ref(u32s.ecs_type_id())).unwrap();

    let mut q_iter = q.iter_mut();
    assert!(q_iter.next_dynamic().is_none());
}

#[test]
fn dyn_param_conflicts_with_lock() {
    let mut world = World::new();
    let u32s = DynamicTable::new(&mut world, ColumnLayout::new(4, 4).unwrap());
    let e = world.spawn();
    u32s.insert_component(&mut world, e, &10_u32.to_le_bytes().to_vec());

    let mut q1 = world.query(vec![u32s.term(&world)]).unwrap();
    let mut q2 = world.query(Vec::new()).unwrap();
    assert!(q2.add_dyn_param(&mut world, DynQueryParam::new_mut(u32s.ecs_type_id())).is_err());
    assert!(q2.add_dyn_param(&mut world, DynQueryParam::new_ref(u32s.ecs_type_id())).is_ok());
    let _ = q1.iter_mut();
}
