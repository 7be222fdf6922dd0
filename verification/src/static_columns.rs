//! The typed handle: binds one statically-typed component family to the
//! store that created it.
//!
//! The handle holds no storage of its own — the store owns the bytes — so
//! it is a capability: its `EcsTypeId` names the column family, its
//! `WorldId` pins the store, and every operation goes through the store.
//! Reads hand out copies of the stored value; mutating a component in place
//! is an insert that overwrites, which hands the previous value back.

use core::marker::PhantomData;

use vstd::prelude::*;

use crate::archetype::EcsTypeId;
use crate::component::Component;
use crate::entities::Entity;
use crate::world::World;
use crate::world::WorldId;

verus! {

/// A caller-held handle to one statically-typed component family.
pub struct Table<T> {
    pub id: EcsTypeId,
    pub world_id: WorldId,
    pub marker: PhantomData<T>,
}

impl<T: Component> Table<T> {
    /// The handle belongs to this store and its family's cells are exactly
    /// one encoded `T` wide.
    pub open spec fn valid_for(self, w: World) -> bool {
        &&& self.world_id == w.id
        &&& (self.id.0 as int) < w.n_types()
        &&& w.cell_size_of(self.id) == T::spec_size()
    }

    /// Registers a fresh component family for `T` in the store and hands
    /// back its handle.
    pub fn new(world: &mut World) -> (t: Table<T>)
        requires
            old(world).wf(),
        ensures
            final(world).wf(),
            t.valid_for(*final(world)),
            t.id.0 == old(world).n_types(),
            t.world_id == old(world).id,
            final(world).n_types() == old(world).n_types() + 1,
            final(world).entities == old(world).entities,
            final(world).archetypes == old(world).archetypes,
            final(world).id == old(world).id,
            final(world).locks == old(world).locks,
            World::same_map(*old(world), *final(world)),
            World::alive_same(*old(world), *final(world)),
            World::keys_preserved(*old(world), *final(world)),
            forall|a: int|
                final(world).arch_dom(a) ==> !(#[trigger] final(world).arch(a)).has_ty(t.id),
    {
        let size = T::byte_size();
        let id = world.new_handle_raw(size);
        Table { id, world_id: world.id(), marker: PhantomData }
    }

    pub fn ecs_type_id(&self) -> (r: EcsTypeId)
        ensures
            r == self.id,
    {
        self.id
    }

    pub fn world_id(&self) -> (r: WorldId)
        ensures
            r == self.world_id,
    {
        self.world_id
    }

    /// Attaches `value` to `entity`; hands back the previous value when the
    /// component was already present (the archetype then does not change),
    /// and `None` when it was fresh or the entity is dead.
    pub fn insert_component(&self, world: &mut World, entity: Entity, value: T) -> (r: Option<T>)
        requires
            old(world).wf(),
            self.valid_for(*old(world)),
        ensures
            final(world).wf(),
            self.valid_for(*final(world)),
            !old(world).spec_alive(entity) ==> r is None && *final(world) == *old(world),
            old(world).spec_alive(entity) ==> {
                &&& World::alive_same(*old(world), *final(world))
                &&& World::types_preserved(*old(world), *final(world))
                &&& World::keys_preserved(*old(world), *final(world))
                &&& World::same_map_except(*old(world), *final(world), entity, self.id)
                &&& final(world).spec_has_component(entity, self.id)
                &&& final(world).component_bytes(entity, self.id) == value.spec_to_bytes()
                &&& final(world).id == old(world).id
                &&& final(world).locks == old(world).locks
                &&& (r is Some <==> old(world).spec_has_component(entity, self.id))
                &&& (r is Some ==> r->0 == T::spec_from_bytes(
                    old(world).component_bytes(entity, self.id),
                ))
                &&& (old(world).spec_has_component(entity, self.id) ==> final(world).n_archetypes() == old(world).n_archetypes() && forall|e2: Entity|
                    #[trigger] old(world).spec_alive(e2) ==> final(world).arch_id(e2) == old(world).arch_id(e2))
                &&& forall|e2: Entity|
                    e2 != entity && #[trigger] old(world).spec_alive(e2) ==> final(world).arch_id(e2) == old(world).arch_id(e2)
                &&& forall|ty2: EcsTypeId|
                    #[trigger] final(world).spec_has_component(entity, ty2) <==> (old(world).spec_has_component(entity, ty2) || ty2 == self.id)
            },
    {
        proof {
            value.lemma_bytes_len();
        }
        let bytes = value.to_bytes();
        let prev = world.insert_erased(entity, self.id, bytes);
        match prev {
            None => None,
            Some(cell) => {
                proof {
                    old(world).lemma_component_bytes_len(entity, self.id);
                }
                Some(T::from_bytes(&cell))
            },
        }
    }

    /// Detaches the component from `entity` and hands the value back; `None`
    /// when the entity is dead or never carried it.
    pub fn remove_component(&self, world: &mut World, entity: Entity) -> (r: Option<T>)
        requires
            old(world).wf(),
            self.valid_for(*old(world)),
        ensures
            final(world).wf(),
            self.valid_for(*final(world)),
            !old(world).spec_has_component(entity, self.id) ==> r is None && *final(world)
                == *old(world),
            old(world).spec_has_component(entity, self.id) ==> {
                &&& r is Some
                &&& r->0 == T::spec_from_bytes(old(world).component_bytes(entity, self.id))
                &&& World::alive_same(*old(world), *final(world))
                &&& World::types_preserved(*old(world), *final(world))
                &&& World::keys_preserved(*old(world), *final(world))
                &&& World::same_map_except(*old(world), *final(world), entity, self.id)
                &&& !final(world).spec_has_component(entity, self.id)
                &&& final(world).spec_alive(entity)
                &&& final(world).id == old(world).id
                &&& final(world).locks == old(world).locks
                &&& forall|e2: Entity|
                    e2 != entity && #[trigger] old(world).spec_alive(e2) ==> final(world).arch_id(e2) == old(world).arch_id(e2)
                &&& forall|ty2: EcsTypeId|
                    #[trigger] final(world).spec_has_component(entity, ty2) <==> (old(world).spec_has_component(entity, ty2) && ty2 != self.id)
            },
    {
        let prev = world.remove_erased(entity, self.id);
        match prev {
            None => None,
            Some(cell) => {
                proof {
                    old(world).lemma_component_bytes_len(entity, self.id);
                }
                Some(T::from_bytes(&cell))
            },
        }
    }

    /// A copy of the component on `entity`, or `None` when the entity is
    /// dead or does not carry it.
    pub fn get_component(&self, world: &World, entity: Entity) -> (r: Option<T>)
        requires
            world.wf(),
            self.valid_for(*world),
        ensures
            r is Some <==> world.spec_has_component(entity, self.id),
            r is Some ==> r->0 == T::spec_from_bytes(world.component_bytes(entity, self.id)),
    {
        match world.get_erased(entity, self.id) {
            None => None,
            Some(cell) => {
                proof {
                    world.lemma_component_bytes_len(entity, self.id);
                }
                Some(T::from_bytes(&cell))
            },
        }
    }

    /// Whether the live entity carries this component type.  Liveness is a
    /// precondition: asking about a dead entity is a usage error.
    pub fn has_component(&self, world: &World, entity: Entity) -> (r: bool)
        requires
            world.wf(),
            self.valid_for(*world),
            world.spec_alive(entity),
        ensures
            r == world.spec_has_component(entity, self.id),
    {
        world.has_erased(entity, self.id).unwrap()
    }
}

impl World {
    /// Attaches a statically-typed component through the family's handle.
    pub fn insert_component<T: Component>(
        &mut self,
        table: &Table<T>,
        entity: Entity,
        component: T,
    ) -> (r: Option<T>)
        requires
            old(self).wf(),
            table.valid_for(*old(self)),
        ensures
            final(self).wf(),
            table.valid_for(*final(self)),
            !old(self).spec_alive(entity) ==> r is None && *final(self) == *old(self),
            old(self).spec_alive(entity) ==> {
                &&& World::alive_same(*old(self), *final(self))
                &&& World::types_preserved(*old(self), *final(self))
                &&& World::keys_preserved(*old(self), *final(self))
                &&& World::same_map_except(*old(self), *final(self), entity, table.id)
                &&& final(self).spec_has_component(entity, table.id)
                &&& final(self).component_bytes(entity, table.id) == component.spec_to_bytes()
                &&& final(self).id == old(self).id
                &&& final(self).locks == old(self).locks
                &&& (r is Some <==> old(self).spec_has_component(entity, table.id))
                &&& (r is Some ==> r->0 == T::spec_from_bytes(
                    old(self).component_bytes(entity, table.id),
                ))
                &&& (old(self).spec_has_component(entity, table.id) ==> final(self).n_archetypes() == old(self).n_archetypes() && forall|e2: Entity|
                    #[trigger] old(self).spec_alive(e2) ==> final(self).arch_id(e2) == old(self).arch_id(e2))
                &&& forall|e2: Entity|
                    e2 != entity && #[trigger] old(self).spec_alive(e2) ==> final(self).arch_id(
                        e2,
                    ) == old(self).arch_id(e2)
                &&& forall|ty2: EcsTypeId|
                    #[trigger] final(self).spec_has_component(entity, ty2) <==> (old(self).spec_has_component(entity, ty2) || ty2 == table.id)
            },
    {
        table.insert_component(self, entity, component)
    }

    /// Detaches a statically-typed component through the family's handle.
    pub fn remove_component<T: Component>(&mut self, table: &Table<T>, entity: Entity) -> (r:
        Option<T>)
        requires
            old(self).wf(),
            table.valid_for(*old(self)),
        ensures
            final(self).wf(),
            table.valid_for(*final(self)),
            !old(self).spec_has_component(entity, table.id) ==> r is None && *final(self) == *old(self),
            old(self).spec_has_component(entity, table.id) ==> {
                &&& r is Some
                &&& r->0 == T::spec_from_bytes(old(self).component_bytes(entity, table.id))
                &&& !final(self).spec_has_component(entity, table.id)
                &&& World::same_map_except(*old(self), *final(self), entity, table.id)
                &&& World::alive_same(*old(self), *final(self))
            },
    {
        table.remove_component(self, entity)
    }

    /// A copy of a statically-typed component, or `None` when the entity is
    /// dead or does not carry it.
    pub fn get_component<T: Component>(&self, table: &Table<T>, entity: Entity) -> (r: Option<T>)
        requires
            self.wf(),
            table.valid_for(*self),
        ensures
            r is Some <==> self.spec_has_component(entity, table.id),
            r is Some ==> r->0 == T::spec_from_bytes(self.component_bytes(entity, table.id)),
    {
        table.get_component(self, entity)
    }

    /// Whether the entity carries the component type; `None` for a dead or
    /// unknown entity.
    pub fn has_component<T: Component>(&self, table: &Table<T>, entity: Entity) -> (r: Option<
        bool,
    >)
        requires
            self.wf(),
            table.valid_for(*self),
        ensures
            r is Some <==> self.spec_alive(entity),
            r is Some ==> r->0 == self.spec_has_component(entity, table.id),
    {
        self.has_erased(entity, table.id)
    }
}

/// A small convenience around one entity: records which entity it stands
/// for, and forwards inserts and removals to the store.
pub struct EntityBuilder {
    pub entity: Entity,
}

impl EntityBuilder {
    pub fn id(&self) -> (r: Entity)
        ensures
            r == self.entity,
    {
        self.entity
    }

    /// Attaches a component to the builder's entity: the same state change
    /// and return value as the handle's own insert.
    pub fn insert<T: Component>(&self, world: &mut World, table: &Table<T>, component: T) -> (r:
        Option<T>)
        requires
            old(world).wf(),
            table.valid_for(*old(world)),
        ensures
            final(world).wf(),
            table.valid_for(*final(world)),
            !old(world).spec_alive(self.entity) ==> r is None && *final(world) == *old(world),
            old(world).spec_alive(self.entity) ==> {
                &&& World::alive_same(*old(world), *final(world))
                &&& World::types_preserved(*old(world), *final(world))
                &&& World::keys_preserved(*old(world), *final(world))
                &&& World::same_map_except(*old(world), *final(world), self.entity, table.id)
                &&& final(world).spec_has_component(self.entity, table.id)
                &&& final(world).component_bytes(self.entity, table.id)
                    == component.spec_to_bytes()
                &&& final(world).id == old(world).id
                &&& final(world).locks == old(world).locks
                &&& (r is Some <==> old(world).spec_has_component(self.entity, table.id))
                &&& (r is Some ==> r->0 == T::spec_from_bytes(
                    old(world).component_bytes(self.entity, table.id),
                ))
                &&& (old(world).spec_has_component(self.entity, table.id) ==> final(world).n_archetypes() == old(world).n_archetypes())
            },
    {
        table.insert_component(world, self.entity, component)
    }

    /// Detaches a component from the builder's entity: the same state change
    /// and return value as the handle's own removal.
    pub fn remove<T: Component>(&self, world: &mut World, table: &Table<T>) -> (r: Option<T>)
        requires
            old(world).wf(),
            table.valid_for(*old(world)),
        ensures
            final(world).wf(),
            table.valid_for(*final(world)),
            !old(world).spec_has_component(self.entity, table.id) ==> r is None && *final(world)
                == *old(world),
            !final(world).spec_has_component(self.entity, table.id),
            old(world).spec_has_component(self.entity, table.id) ==> {
                &&& r is Some
                &&& r->0 == T::spec_from_bytes(old(world).component_bytes(self.entity, table.id))
                &&& World::alive_same(*old(world), *final(world))
                &&& World::types_preserved(*old(world), *final(world))
                &&& World::keys_preserved(*old(world), *final(world))
                &&& World::same_map_except(*old(world), *final(world), self.entity, table.id)
                &&& final(world).id == old(world).id
                &&& final(world).locks == old(world).locks
            },
    {
        table.remove_component(world, self.entity)
    }
}

impl World {
    /// A builder bound to one entity of this store.
    pub fn entity_builder(&self, entity: Entity) -> (r: EntityBuilder)
        ensures
            r.entity == entity,
    {
        EntityBuilder { entity }
    }
}

} // verus!
