//! The dynamic handle: a component family whose type is not known to the
//! embedding program at compile time, described only by a caller-supplied
//! memory layout.  Cells are raw byte patterns of the layout's size.

use vstd::prelude::*;

use crate::archetype::EcsTypeId;
use crate::entities::Entity;
use crate::world::World;
use crate::world::WorldId;

verus! {

/// The largest alignment a dynamic column accepts: two to the power 29.
pub const MAX_COLUMN_ALIGN: usize = 536870912;

/// A caller-supplied memory layout for a runtime-typed component: its size
/// in bytes and its alignment.
#[derive(Debug, Clone, Copy, PartialEq, Eq, Structural)]
pub struct ColumnLayout {
    pub size: usize,
    pub align: usize,
}

impl ColumnLayout {
    /// A usable layout: a non-empty size and an alignment that is a power of
    /// two up to the supported bound.  Zero-sized components are not
    /// supported: a cell is the component's byte image and rows are counted
    /// by cells, so a cell is at least one byte.
    pub open spec fn valid(self) -> bool {
        &&& self.size >= 1
        &&& self.align >= 1
        &&& self.align <= MAX_COLUMN_ALIGN
        &&& (self.align & (self.align - 1) as usize) == 0
    }

    /// Builds a layout, rejecting one that no dynamic column supports.
    pub fn new(size: usize, align: usize) -> (r: Option<ColumnLayout>)
        ensures
            r is Some <==> (ColumnLayout { size, align }).valid(),
            r is Some ==> r->0 == (ColumnLayout { size, align }),
    {
        if size >= 1 && align >= 1 && align <= MAX_COLUMN_ALIGN && (align & (align - 1)) == 0 {
            Some(ColumnLayout { size, align })
        } else {
            None
        }
    }

    pub fn size(&self) -> (r: usize)
        ensures
            r == self.size,
    {
        self.size
    }

    pub fn align(&self) -> (r: usize)
        ensures
            r == self.align,
    {
        self.align
    }
}

/// A caller-held handle to one runtime-typed component family.
pub struct DynamicTable {
    pub id: EcsTypeId,
    pub world_id: WorldId,
    pub layout: ColumnLayout,
}

impl DynamicTable {
    /// The handle belongs to this store and its family's cells are exactly
    /// one layout-sized byte pattern wide.
    pub open spec fn valid_for(self, w: World) -> bool {
        &&& self.world_id == w.id
        &&& (self.id.0 as int) < w.n_types()
        &&& w.cell_size_of(self.id) == self.layout.size
        &&& self.layout.valid()
    }

    /// Registers a fresh runtime-typed component family with the given
    /// layout and hands back its handle.
    pub fn new(world: &mut World, layout: ColumnLayout) -> (t: DynamicTable)
        requires
            old(world).wf(),
            layout.valid(),
        ensures
            final(world).wf(),
            t.valid_for(*final(world)),
            t.layout == layout,
            t.id.0 == old(world).n_types(),
            t.world_id == old(world).id,
            final(world).n_types() == old(world).n_types() + 1,
            final(world).entities == old(world).entities,
            final(world).archetypes == old(world).archetypes,
            final(world).id == old(world).id,
            final(world).locks == old(world).locks,
            World::same_map(*old(world), *final(world)),
            World::alive_same(*old(world), *final(world)),
            World::keys_preserved(*old(world), *final(world)),
            forall|a: int|
                final(world).arch_dom(a) ==> !(#[trigger] final(world).arch(a)).has_ty(t.id),
    {
        let id = world.new_handle_raw(layout.size);
        DynamicTable { id, world_id: world.id(), layout }
    }

    pub fn ecs_type_id(&self) -> (r: EcsTypeId)
        ensures
            r == self.id,
    {
        self.id
    }

    pub fn world_id(&self) -> (r: WorldId)
        ensures
            r == self.world_id,
    {
        self.world_id
    }

    /// Attaches a raw byte pattern of the family's layout to `entity`; the
    /// previous cell comes back when the component was already present, and
    /// a dead entity is a no-op.
    pub fn insert_component(&self, world: &mut World, entity: Entity, data: &Vec<u8>) -> (r:
        Option<Vec<u8>>)
        requires
            old(world).wf(),
            self.valid_for(*old(world)),
            data@.len() == self.layout.size,
        ensures
            final(world).wf(),
            self.valid_for(*final(world)),
            !old(world).spec_alive(entity) ==> r is None && *final(world) == *old(world),
            old(world).spec_alive(entity) ==> {
                &&& World::alive_same(*old(world), *final(world))
                &&& World::same_map_except(*old(world), *final(world), entity, self.id)
                &&& final(world).spec_has_component(entity, self.id)
                &&& final(world).component_bytes(entity, self.id) == data@
                &&& (r is Some <==> old(world).spec_has_component(entity, self.id))
                &&& (r is Some ==> r->0@ == old(world).component_bytes(entity, self.id))
            },
    {
        let cell = data.clone();
        proof {
            assert(cell@ =~= data@);
        }
        world.insert_erased(entity, self.id, cell)
    }

    /// Detaches the component and hands its byte cell back; `None` when the
    /// entity is dead or never carried it.
    pub fn remove_component(&self, world: &mut World, entity: Entity) -> (r: Option<Vec<u8>>)
        requires
            old(world).wf(),
            self.valid_for(*old(world)),
        ensures
            final(world).wf(),
            self.valid_for(*final(world)),
            !old(world).spec_has_component(entity, self.id) ==> r is None && *final(world)
                == *old(world),
            old(world).spec_has_component(entity, self.id) ==> {
                &&& r is Some
                &&& r->0@ == old(world).component_bytes(entity, self.id)
                &&& World::alive_same(*old(world), *final(world))
                &&& World::same_map_except(*old(world), *final(world), entity, self.id)
                &&& !final(world).spec_has_component(entity, self.id)
                &&& final(world).spec_alive(entity)
            },
    {
        world.remove_erased(entity, self.id)
    }

    /// A copy of the raw byte cell on `entity`, or `None` when the entity is
    /// dead or does not carry the component.
    pub fn get_component(&self, world: &World, entity: Entity) -> (r: Option<Vec<u8>>)
        requires
            world.wf(),
            self.valid_for(*world),
        ensures
            r is Some <==> world.spec_has_component(entity, self.id),
            r is Some ==> r->0@ == world.component_bytes(entity, self.id),
    {
        world.get_erased(entity, self.id)
    }

    /// Whether the live entity carries this component type.
    pub fn has_component(&self, world: &World, entity: Entity) -> (r: bool)
        requires
            world.wf(),
            self.valid_for(*world),
            world.spec_alive(entity),
        ensures
            r == world.spec_has_component(entity, self.id),
    {
        world.has_erased(entity, self.id).unwrap()
    }
}

} // verus!
