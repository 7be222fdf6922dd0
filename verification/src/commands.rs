//! The deferred-mutation command buffer: a log of structural mutations,
//! recorded while the store is otherwise busy and replayed in order at the
//! next safe point.

use vstd::prelude::*;

use crate::archetype::EcsTypeId;
use crate::component::Component;
use crate::entities::Entity;
use crate::static_columns::Table;
use crate::world::World;

verus! {

/// One recorded structural mutation, with the component value already
/// reduced to its byte cell.
#[derive(Debug, Clone)]
pub enum WorldCommand {
    Insert(Entity, EcsTypeId, Vec<u8>),
    Remove(Entity, EcsTypeId),
}

impl WorldCommand {
    /// The command names a registered type and carries a correctly sized
    /// cell.
    pub open spec fn valid_for(self, w: World) -> bool {
        match self {
            WorldCommand::Insert(e, ty, cell) => (ty.0 as int) < w.n_types() && cell@.len()
                == w.cell_size_of(ty),
            WorldCommand::Remove(e, ty) => (ty.0 as int) < w.n_types(),
        }
    }
}

/// The deferred command log.
pub struct CommandBuffer {
    pub commands: Vec<WorldCommand>,
}

impl CommandBuffer {
    pub open spec fn valid_for(self, w: World) -> bool {
        forall|i: int|
            0 <= i < self.commands@.len() ==> (#[trigger] self.commands@[i]).valid_for(w)
    }

    /// Whether entity `e2` carries type `t2` once `cmds` have been replayed
    /// on a store whose alive set and component map are `w0`'s: the latest
    /// matching command on a live entity wins, a command on a dead entity is
    /// a no-op, and an untouched pair keeps the store's answer.
    pub open spec fn has_after(
        w0: World,
        cmds: Seq<WorldCommand>,
        e2: Entity,
        t2: EcsTypeId,
    ) -> bool
        decreases cmds.len(),
    {
        if cmds.len() == 0 {
            w0.spec_has_component(e2, t2)
        } else {
            match cmds.last() {
                WorldCommand::Insert(e, ty, cell) => if e == e2 && ty == t2 && w0.spec_alive(e2) {
                    true
                } else {
                    CommandBuffer::has_after(w0, cmds.drop_last(), e2, t2)
                },
                WorldCommand::Remove(e, ty) => if e == e2 && ty == t2 && w0.spec_alive(e2) {
                    false
                } else {
                    CommandBuffer::has_after(w0, cmds.drop_last(), e2, t2)
                },
            }
        }
    }

    /// The byte cell such an entity carries then: the latest matching
    /// insert's payload, or the store's cell where no command touched the
    /// pair.  Meaningful exactly where `has_after` holds.
    pub open spec fn bytes_after(
        w0: World,
        cmds: Seq<WorldCommand>,
        e2: Entity,
        t2: EcsTypeId,
    ) -> Seq<u8>
        decreases cmds.len(),
    {
        if cmds.len() == 0 {
            w0.component_bytes(e2, t2)
        } else {
            match cmds.last() {
                WorldCommand::Insert(e, ty, cell) => if e == e2 && ty == t2 && w0.spec_alive(e2) {
                    cell@
                } else {
                    CommandBuffer::bytes_after(w0, cmds.drop_last(), e2, t2)
                },
                WorldCommand::Remove(e, ty) => CommandBuffer::bytes_after(
                    w0,
                    cmds.drop_last(),
                    e2,
                    t2,
                ),
            }
        }
    }

    pub fn new() -> (r: CommandBuffer)
        ensures
            r.commands@.len() == 0,
    {
        CommandBuffer { commands: Vec::new() }
    }

    /// Records a deferred insert of a statically-typed component.
    pub fn insert_component<T: Component>(&mut self, table: &Table<T>, entity: Entity, component: T)
        ensures
            final(self).commands@.len() == old(self).commands@.len() + 1,
            forall|i: int|
                0 <= i < old(self).commands@.len() ==> final(self).commands@[i] == old(
                    self,
                ).commands@[i],
            final(self).commands@.last() matches WorldCommand::Insert(e, ty, cell)
                && e == entity && ty == table.id && cell@ == component.spec_to_bytes(),
    {
        let bytes = component.to_bytes();
        self.commands.push(WorldCommand::Insert(entity, table.id, bytes));
    }

    /// Records a deferred removal of a statically-typed component.
    pub fn remove_component<T: Component>(&mut self, table: &Table<T>, entity: Entity)
        ensures
            final(self).commands@.len() == old(self).commands@.len() + 1,
            forall|i: int|
                0 <= i < old(self).commands@.len() ==> final(self).commands@[i] == old(
                    self,
                ).commands@[i],
            final(self).commands@.last() == WorldCommand::Remove(entity, table.id),
    {
        self.commands.push(WorldCommand::Remove(entity, table.id));
    }

    /// Replays every recorded command against the store, in order, and
    /// drains the log.  Each insert and removal behaves exactly as the
    /// immediate operation would: afterwards every entity carries exactly
    /// the components `has_after` says, with the bytes `bytes_after` says.
    #[verifier::loop_isolation(false)]
    pub fn apply(&mut self, world: &mut World)
        requires
            old(world).wf(),
            old(self).valid_for(*old(world)),
        ensures
            final(world).wf(),
            final(self).commands@.len() == 0,
            World::alive_same(*old(world), *final(world)),
            World::types_preserved(*old(world), *final(world)),
            World::keys_preserved(*old(world), *final(world)),
            final(world).id == old(world).id,
            final(world).locks == old(world).locks,
            final(world).entities.reserved_len() == old(world).entities.reserved_len(),
            final(world).entities.fixed_len() == old(world).entities.fixed_len(),
            forall|e2: Entity, t2: EcsTypeId|
                (#[trigger] final(world).spec_has_component(e2, t2)) == CommandBuffer::has_after(
                    *old(world),
                    old(self).commands@,
                    e2,
                    t2,
                ),
            forall|e2: Entity, t2: EcsTypeId|
                CommandBuffer::has_after(*old(world), old(self).commands@, e2, t2) ==> (
                #[trigger] final(world).component_bytes(e2, t2)) == CommandBuffer::bytes_after(
                    *old(world),
                    old(self).commands@,
                    e2,
                    t2,
                ),
    {
        let ghost w0g = *old(world);
        let ghost all = self.commands@;
        let ghost k: int = 0;
        proof {
            assert(self.commands@ =~= all.skip(0));
            assert forall|e2: Entity, t2: EcsTypeId|
                (#[trigger] world.spec_has_component(e2, t2)) == CommandBuffer::has_after(
                w0g,
                all.take(k),
                e2,
                t2,
            ) by {
                assert(all.take(k).len() == 0);
            }
        }
        while self.commands.len() > 0
            invariant
                0 <= k <= all.len(),
                self.commands@ == all.skip(k),
                world.wf(),
                world.id == w0g.id,
                world.locks == w0g.locks,
                world.entities.reserved_len() == w0g.entities.reserved_len(),
                world.entities.fixed_len() == w0g.entities.fixed_len(),
                World::alive_same(w0g, *world),
                World::types_preserved(w0g, *world),
                World::keys_preserved(w0g, *world),
                forall|i: int| 0 <= i < all.len() ==> (#[trigger] all[i]).valid_for(w0g),
                forall|e2: Entity, t2: EcsTypeId|
                    (#[trigger] world.spec_has_component(e2, t2)) == CommandBuffer::has_after(
                        w0g,
                        all.take(k),
                        e2,
                        t2,
                    ),
                forall|e2: Entity, t2: EcsTypeId|
                    CommandBuffer::has_after(w0g, all.take(k), e2, t2) ==> (
                    #[trigger] world.component_bytes(e2, t2)) == CommandBuffer::bytes_after(
                        w0g,
                        all.take(k),
                        e2,
                        t2,
                    ),
            decreases self.commands@.len(),
        {
            let cmd = self.commands.remove(0);
            let ghost wpre = *world;
            proof {
                assert(all.skip(k)[0] == all[k]);
                assert(cmd == all[k]);
                assert(self.commands@ =~= all.skip(k + 1));
                assert(all[k].valid_for(w0g));
                assert(all.take(k + 1).drop_last() =~= all.take(k));
                assert(all.take(k + 1).last() == all[k]);
            }
            match cmd {
                WorldCommand::Insert(entity, ty, cell) => {
                    let ghost cellv = cell@;
                    proof {
                        assert(cellv.len() == world.cell_size_of(ty));
                    }
                    let _ = world.insert_erased(entity, ty, cell);
                    proof {
                        assert(wpre.spec_alive(entity) == w0g.spec_alive(entity));
                        assert forall|e2: Entity, t2: EcsTypeId|
                            (#[trigger] world.spec_has_component(e2, t2))
                            == CommandBuffer::has_after(w0g, all.take(k + 1), e2, t2) by {
                            if !w0g.spec_alive(entity) {
                                assert(*world == wpre);
                            } else if e2 == entity && t2 == ty {
                                assert(world.spec_has_component(e2, t2));
                            } else {
                                assert(world.spec_has_component(e2, t2)
                                    == wpre.spec_has_component(e2, t2));
                            }
                        }
                        assert forall|e2: Entity, t2: EcsTypeId|
                            CommandBuffer::has_after(w0g, all.take(k + 1), e2, t2) implies (
                        #[trigger] world.component_bytes(e2, t2)) == CommandBuffer::bytes_after(
                            w0g,
                            all.take(k + 1),
                            e2,
                            t2,
                        ) by {
                            if !w0g.spec_alive(entity) {
                                assert(*world == wpre);
                            } else if e2 == entity && t2 == ty {
                                assert(world.component_bytes(e2, t2) == cellv);
                            } else {
                                assert(CommandBuffer::has_after(w0g, all.take(k), e2, t2));
                                assert(wpre.spec_has_component(e2, t2));
                                assert(world.spec_has_component(e2, t2)
                                    == wpre.spec_has_component(e2, t2));
                                assert(world.component_bytes(e2, t2) == wpre.component_bytes(
                                    e2,
                                    t2,
                                ));
                            }
                        }
                        World::lemma_keys_preserved_trans(w0g, wpre, *world);
                    }
                },
                WorldCommand::Remove(entity, ty) => {
                    let _ = world.remove_erased(entity, ty);
                    proof {
                        assert(wpre.spec_alive(entity) == w0g.spec_alive(entity));
                        assert forall|e2: Entity, t2: EcsTypeId|
                            (#[trigger] world.spec_has_component(e2, t2))
                            == CommandBuffer::has_after(w0g, all.take(k + 1), e2, t2) by {
                            if !wpre.spec_has_component(entity, ty) {
                                assert(*world == wpre);
                                if e2 == entity && t2 == ty && w0g.spec_alive(e2) {
                                    assert(!wpre.spec_has_component(e2, t2));
                                }
                            } else if e2 == entity && t2 == ty {
                                assert(!world.spec_has_component(e2, t2));
                            } else {
                                assert(world.spec_has_component(e2, t2)
                                    == wpre.spec_has_component(e2, t2));
                            }
                        }
                        assert forall|e2: Entity, t2: EcsTypeId|
                            CommandBuffer::has_after(w0g, all.take(k + 1), e2, t2) implies (
                        #[trigger] world.component_bytes(e2, t2)) == CommandBuffer::bytes_after(
                            w0g,
                            all.take(k + 1),
                            e2,
                            t2,
                        ) by {
                            if !wpre.spec_has_component(entity, ty) {
                                assert(*world == wpre);
                                assert(CommandBuffer::has_after(w0g, all.take(k), e2, t2));
                            } else if e2 == entity && t2 == ty {
                                assert(!world.spec_has_component(e2, t2));
                                assert(!CommandBuffer::has_after(w0g, all.take(k + 1), e2, t2));
                            } else {
                                assert(CommandBuffer::has_after(w0g, all.take(k), e2, t2));
                                assert(wpre.spec_has_component(e2, t2));
                                assert(world.spec_has_component(e2, t2)
                                    == wpre.spec_has_component(e2, t2));
                                assert(world.component_bytes(e2, t2) == wpre.component_bytes(
                                    e2,
                                    t2,
                                ));
                            }
                        }
                        World::lemma_keys_preserved_trans(w0g, wpre, *world);
                    }
                },
            }
            proof {
                k = k + 1;
            }
        }
        proof {
            assert(all.take(k) =~= all);
        }
    }
}

} // verus!
