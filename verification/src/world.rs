//! The store itself: the entity allocator, the archetype table, and one
//! type-erased column family per registered component type.
//!
//! The store owns every column family outright; a handle (`Table`,
//! `DynamicTable`) holds only the family's `EcsTypeId` and the store's
//! `WorldId`, so all access to the bytes runs through the store, and two
//! handles can never alias the same storage.

use vstd::prelude::*;

use crate::archetype::Archetype;
use crate::archetype::EcsTypeId;
use crate::entities::Entities;
use crate::entities::Entity;
use crate::entities::EntityMeta;
use crate::storage::lemma_push_tracking;
use crate::storage::lemma_swap_removed_tracking;
use crate::storage::lemma_swap_removed_unique;
use crate::storage::seq_unique;
use crate::storage::swap_removed;
use crate::storage::RawTable;

verus! {

/// Identifies one store instance, so that a handle created by one store is
/// rejected by every other.
///
/// The verified core keeps no global state, so it cannot mint process-wide
/// ids itself: the embedder assigns them, one per store (`World::new_with_id`),
/// and every handle operation demands that the handle's id equals the
/// store's.  `World::new` is shorthand for a program's first store.
#[derive(Debug, Clone, Copy, PartialEq, Eq, Hash, Structural)]
pub struct WorldId(pub usize);

impl WorldId {
    pub fn inner(self) -> (r: usize)
        ensures
            r == self.0,
    {
        self.0
    }
}

/// An outstanding column borrow taken by a query: the borrowed type and
/// whether the borrow is exclusive.
#[derive(Debug, Clone, Copy, PartialEq, Eq, Structural)]
pub struct BorrowLock {
    pub ty: EcsTypeId,
    pub exclusive: bool,
}

/// The entity-component store.
pub struct World {
    pub entities: Entities,
    pub archetypes: Vec<Archetype>,
    pub families: Vec<RawTable>,
    pub id: WorldId,
    pub locks: Vec<BorrowLock>,
}

impl World {
    pub open spec fn n_types(self) -> nat {
        self.families@.len()
    }

    pub open spec fn n_archetypes(self) -> nat {
        self.archetypes@.len()
    }

    pub open spec fn arch(self, a: int) -> Archetype {
        self.archetypes@[a]
    }

    pub open spec fn arch_dom(self, a: int) -> bool {
        0 <= a < self.archetypes@.len()
    }

    pub open spec fn spec_alive(self, e: Entity) -> bool {
        self.entities.spec_alive(e)
    }

    /// The index of the archetype a live entity belongs to.
    pub open spec fn arch_id(self, e: Entity) -> int {
        self.entities.spec_meta(e).archetype as int
    }

    /// Entity `e` is alive and carries component type `ty`.
    pub open spec fn spec_has_component(self, e: Entity, ty: EcsTypeId) -> bool {
        self.spec_alive(e) && self.arch(self.arch_id(e)).has_ty(ty)
    }

    /// The byte image of the component of type `ty` attached to `e`.
    pub open spec fn component_bytes(self, e: Entity, ty: EcsTypeId) -> Seq<u8> {
        let a = self.arch(self.arch_id(e));
        self.families@[ty.0 as int].spec_cell(a.col_of(ty), a.row_of(e))
    }

    pub open spec fn cell_size_of(self, ty: EcsTypeId) -> nat {
        self.families@[ty.0 as int].cell_size as nat
    }

    /// One archetype is internally consistent with the column families:
    /// unique keys and members, every column index in range, and every
    /// column exactly as long as the member list (row alignment).
    pub open spec fn arch_ok(self, a: int) -> bool {
        let ar = self.arch(a);
        &&& ar.keys_unique()
        &&& ar.entities_unique()
        &&& forall|k: int|
            0 <= k < ar.column_indices@.len() ==> {
                let p = #[trigger] ar.column_indices@[k];
                &&& (p.0.0 as int) < self.families@.len()
                &&& (p.1 as int) < self.families@[p.0.0 as int].n_cols()
                &&& self.families@[p.0.0 as int].col_len(p.1 as int) == ar.entities@.len()
            }
        &&& forall|i: int|
            0 <= i < ar.entities@.len() ==> {
                let e = #[trigger] ar.entities@[i];
                self.spec_alive(e) && self.arch_id(e) == a
            }
    }

    /// The store's whole-state invariant.  Reservations may be pending: a
    /// reserved identity is not alive and belongs to no archetype until it
    /// is fixed up.
    pub open spec fn wf(self) -> bool {
        &&& self.entities.wf()
        &&& self.archetypes@.len() >= 1
        &&& self.arch(0).column_indices@.len() == 0
        &&& forall|a: int| self.arch_dom(a) ==> #[trigger] self.arch_ok(a)
        &&& forall|e: Entity|
            #[trigger] self.spec_alive(e) ==> self.arch_dom(self.arch_id(e)) && self.arch(
                self.arch_id(e),
            ).has_entity(e)
        &&& forall|a: int, b: int|
            self.arch_dom(a) && self.arch_dom(b) && a != b ==> !(#[trigger] self.arch(
                a,
            ).same_keys(self.arch(b)))
        &&& forall|a: int, b: int, ty: EcsTypeId|
            self.arch_dom(a) && self.arch_dom(b) && a != b && #[trigger] self.arch(a).has_ty(ty)
                && #[trigger] self.arch(b).has_ty(ty) ==> self.arch(a).col_of(ty) != self.arch(
                b,
            ).col_of(ty)
        &&& forall|t: int| 0 <= t < self.families@.len() ==> (#[trigger] self.families@[t]).wf()
    }

    /// Both stores agree on which entity carries which component, with which
    /// bytes.
    pub open spec fn same_map(w0: World, w1: World) -> bool {
        forall|e2: Entity, t2: EcsTypeId|
            (#[trigger] w1.spec_has_component(e2, t2)) == w0.spec_has_component(e2, t2) && (
            w0.spec_has_component(e2, t2) ==> w1.component_bytes(e2, t2) == w0.component_bytes(
                e2,
                t2,
            ))
    }

    /// Both stores agree on the component map everywhere but at `(e, ty)`.
    pub open spec fn same_map_except(w0: World, w1: World, e: Entity, ty: EcsTypeId) -> bool {
        forall|e2: Entity, t2: EcsTypeId|
            !(e2 == e && t2 == ty) ==> (#[trigger] w1.spec_has_component(e2, t2))
                == w0.spec_has_component(e2, t2) && (w0.spec_has_component(e2, t2)
                ==> w1.component_bytes(e2, t2) == w0.component_bytes(e2, t2))
    }

    /// Packages the quantified form of `same_map_except` back into the named
    /// predicate (kept separate so that large proofs discharge it in one
    /// step).
    pub proof fn lemma_same_map_except_intro(w0: World, w1: World, e: Entity, ty: EcsTypeId)
        requires
            forall|e2: Entity, t2: EcsTypeId|
                !(e2 == e && t2 == ty) ==> (#[trigger] w1.spec_has_component(e2, t2))
                    == w0.spec_has_component(e2, t2) && (w0.spec_has_component(e2, t2)
                    ==> w1.component_bytes(e2, t2) == w0.component_bytes(e2, t2)),
        ensures
            World::same_map_except(w0, w1, e, ty),
    {
    }

    /// Both stores have the same live entities.
    pub open spec fn alive_same(w0: World, w1: World) -> bool {
        forall|e2: Entity| #[trigger] w1.spec_alive(e2) == w0.spec_alive(e2)
    }

    /// The registered component types and their cell sizes carry over.
    pub open spec fn types_preserved(w0: World, w1: World) -> bool {
        &&& w1.families@.len() == w0.families@.len()
        &&& forall|t: int|
            0 <= t < w0.families@.len() ==> (#[trigger] w1.families@[t]).cell_size
                == w0.families@[t].cell_size
    }

    /// Every archetype of the older store still exists, with the same
    /// component-type set (the member lists may differ).
    pub open spec fn keys_preserved(w0: World, w1: World) -> bool {
        &&& w1.archetypes@.len() >= w0.archetypes@.len()
        &&& forall|a: int|
            0 <= a < w0.archetypes@.len() ==> (#[trigger] w1.arch(a)).same_keys(w0.arch(a))
    }

    /// Key-set preservation composes across a chain of mutations.
    pub proof fn lemma_keys_preserved_trans(w0: World, w1: World, w2: World)
        requires
            World::keys_preserved(w0, w1),
            World::keys_preserved(w1, w2),
        ensures
            World::keys_preserved(w0, w2),
    {
        assert forall|a: int|
            0 <= a < w0.archetypes@.len() implies (#[trigger] w2.arch(a)).same_keys(
            w0.arch(a),
        ) by {
            assert(w1.arch(a).same_keys(w0.arch(a)));
            assert(w2.arch(a).same_keys(w1.arch(a)));
            assert forall|ty: EcsTypeId| #[trigger] w2.arch(a).has_ty(ty) <==> #[trigger] w0.arch(
                a,
            ).has_ty(ty) by {
                assert(w2.arch(a).has_ty(ty) <==> w1.arch(a).has_ty(ty));
                assert(w1.arch(a).has_ty(ty) <==> w0.arch(a).has_ty(ty));
            }
        }
    }

    /// When no archetype's column map changed, every invariant that reads
    /// only the column maps — key-set uniqueness and column exclusivity —
    /// carries over, and so do `has_ty` and `col_of` on every archetype.
    pub proof fn lemma_keys_carry(w0: World, w1: World)
        requires
            w0.wf(),
            w1.archetypes@.len() == w0.archetypes@.len(),
            forall|a: int|
                0 <= a < w0.archetypes@.len() ==> (#[trigger] w1.arch(a)).column_indices == w0.arch(
                    a,
                ).column_indices,
        ensures
            forall|a: int, ty: EcsTypeId|
                w1.arch_dom(a) ==> (#[trigger] w1.arch(a).has_ty(ty)) == w0.arch(a).has_ty(ty),
            forall|a: int, ty: EcsTypeId|
                w1.arch_dom(a) && #[trigger] w1.arch(a).has_ty(ty) ==> w1.arch(a).col_of(ty)
                    == w0.arch(a).col_of(ty),
            forall|a: int, b: int|
                w1.arch_dom(a) && w1.arch_dom(b) && a != b ==> !(#[trigger] w1.arch(a).same_keys(
                    w1.arch(b),
                )),
            forall|a: int, b: int, ty: EcsTypeId|
                w1.arch_dom(a) && w1.arch_dom(b) && a != b && #[trigger] w1.arch(a).has_ty(ty)
                    && #[trigger] w1.arch(b).has_ty(ty) ==> w1.arch(a).col_of(ty) != w1.arch(
                    b,
                ).col_of(ty),
            forall|a: int|
                0 <= a < w0.archetypes@.len() ==> (#[trigger] w1.arch(a)).same_keys(w0.arch(a)),
            forall|a: int| w1.arch_dom(a) ==> (#[trigger] w1.arch(a)).keys_unique(),
    {
        assert forall|a: int, ty: EcsTypeId| w1.arch_dom(a) implies (#[trigger] w1.arch(a).has_ty(
            ty,
        )) == w0.arch(a).has_ty(ty) by {
            assert(w1.arch(a).column_indices@ == w0.arch(a).column_indices@);
        }
        assert forall|a: int| w1.arch_dom(a) implies (#[trigger] w1.arch(a)).keys_unique() by {
            assert(w0.arch_ok(a));
            assert(w1.arch(a).column_indices@ == w0.arch(a).column_indices@);
        }
        assert forall|a: int, ty: EcsTypeId|
            w1.arch_dom(a) && #[trigger] w1.arch(a).has_ty(ty) implies w1.arch(a).col_of(ty)
            == w0.arch(a).col_of(ty) by {
            assert(w1.arch(a).column_indices@ == w0.arch(a).column_indices@);
            assert(w0.arch_ok(a));
            let k = w1.arch(a).ty_index(ty);
            assert(w1.arch(a).column_indices@[k].0 == ty);
            w1.arch(a).lemma_col_at(k);
            w0.arch(a).lemma_col_at(k);
        }
        assert forall|a: int, b: int|
            w1.arch_dom(a) && w1.arch_dom(b) && a != b implies !(#[trigger] w1.arch(a).same_keys(
            w1.arch(b),
        )) by {
            assert(!w0.arch(a).same_keys(w0.arch(b)));
            let ty = choose|ty: EcsTypeId|
                !(#[trigger] w0.arch(a).has_ty(ty) <==> w0.arch(b).has_ty(ty));
            assert(!(w1.arch(a).has_ty(ty) <==> w1.arch(b).has_ty(ty)));
        }
    }

    /// A fresh store under the given instance id: archetype 0 (the empty
    /// component set) exists and is the home of every fresh spawn; no types,
    /// no entities, no outstanding borrows.  Each store of a program must
    /// get its own id — handles carry it, and using a handle against a store
    /// with another id is excluded by every operation's contract.
    pub fn new_with_id(id: WorldId) -> (w: World)
        ensures
            w.wf(),
            w.id == id,
            w.n_types() == 0,
            w.n_archetypes() == 1,
            w.arch(0).entities@.len() == 0,
            w.locks@.len() == 0,
            w.entities.reserved_len() == 0,
            w.entities.fixed_len() == 0,
            forall|e: Entity| !w.spec_alive(e),
    {
        let mut archetypes: Vec<Archetype> = Vec::new();
        archetypes.push(Archetype { entities: Vec::new(), column_indices: Vec::new() });
        World { entities: Entities::new(), archetypes, families: Vec::new(), id, locks: Vec::new() }
    }

    /// A program's first store: `new_with_id` with the first id.  Further
    /// stores take `new_with_id` with fresh ids of the embedder's choosing.
    pub fn new() -> (w: World)
        ensures
            w.wf(),
            w.id == WorldId(0),
            w.n_types() == 0,
            w.n_archetypes() == 1,
            w.arch(0).entities@.len() == 0,
            w.locks@.len() == 0,
            w.entities.reserved_len() == 0,
            w.entities.fixed_len() == 0,
            forall|e: Entity| !w.spec_alive(e),
    {
        World::new_with_id(WorldId(0))
    }

    pub fn id(&self) -> (r: WorldId)
        ensures
            r == self.id,
    {
        self.id
    }

    pub fn is_alive(&self, entity: Entity) -> (r: bool)
        ensures
            r == self.spec_alive(entity),
    {
        self.entities.is_alive(entity)
    }

    /// Guards a liveness-critical call path: callers must have established
    /// that the entity is alive, which verified callers prove and unverified
    /// callers check with `is_alive` first.
    pub fn assert_alive(&self, entity: Entity)
        requires
            self.spec_alive(entity),
    {
    }

    pub fn entity_meta(&self, entity: Entity) -> (r: Option<EntityMeta>)
        ensures
            r is Some <==> self.spec_alive(entity),
            r is Some ==> r->0.archetype == self.arch_id(entity),
    {
        self.entities.meta(entity)
    }

    pub fn get_archetype(&self, archetype: usize) -> (r: &Archetype)
        requires
            self.arch_dom(archetype as int),
        ensures
            *r == self.arch(archetype as int),
    {
        &self.archetypes[archetype]
    }

    /// Registers a new component type with the given cell size and hands
    /// back its dense handle.  The new column family starts with no columns;
    /// archetype creation appends them.
    pub fn new_handle_raw(&mut self, cell_size: usize) -> (ty: EcsTypeId)
        requires
            old(self).wf(),
            cell_size >= 1,
        ensures
            final(self).wf(),
            ty.0 == old(self).n_types(),
            final(self).n_types() == old(self).n_types() + 1,
            final(self).cell_size_of(ty) == cell_size,
            final(self).entities == old(self).entities,
            final(self).archetypes == old(self).archetypes,
            final(self).id == old(self).id,
            final(self).locks == old(self).locks,
            forall|t: int|
                0 <= t < old(self).families@.len() ==> final(self).families@[t] == old(self).families@[t],
            World::same_map(*old(self), *final(self)),
            World::alive_same(*old(self), *final(self)),
            World::keys_preserved(*old(self), *final(self)),
            forall|a: int| final(self).arch_dom(a) ==> !(#[trigger] final(self).arch(a)).has_ty(ty),
    {
        let ty = EcsTypeId(self.families.len());
        self.families.push(RawTable::new(cell_size));
        proof {
            let w0 = old(self);
            let w1 = self;
            World::lemma_keys_carry(*w0, *w1);
            assert forall|a: int| w1.arch_dom(a) implies #[trigger] w1.arch_ok(a) by {
                assert(w0.arch_ok(a));
            }
            assert forall|e2: Entity| #[trigger] w1.spec_alive(e2) implies w1.arch_dom(
                w1.arch_id(e2),
            ) && w1.arch(w1.arch_id(e2)).has_entity(e2) by {
                assert(w0.spec_alive(e2));
            }
            assert forall|a: int| w1.arch_dom(a) implies !(#[trigger] w1.arch(a)).has_ty(ty) by {
                assert(w0.arch_ok(a));
                if w1.arch(a).has_ty(ty) {
                    let k = choose|k: int|
                        0 <= k < w1.arch(a).column_indices@.len() && (#[trigger] w1.arch(
                            a,
                        ).column_indices@[k]).0 == ty;
                    assert((w0.arch(a).column_indices@[k].0.0 as int) < w0.families@.len());
                }
            }
            assert forall|e2: Entity, t2: EcsTypeId|
                true implies (#[trigger] w1.spec_has_component(e2, t2)) == w0.spec_has_component(
                e2,
                t2,
            ) && (w0.spec_has_component(e2, t2) ==> w1.component_bytes(e2, t2)
                == w0.component_bytes(e2, t2)) by {
                if w0.spec_has_component(e2, t2) {
                    assert(w0.arch_ok(w0.arch_id(e2)));
                    let ar = w0.arch(w0.arch_id(e2));
                    ar.lemma_col_at(ar.ty_index(t2));
                }
            }
        }
        ty
    }

    /// Hands out the next identity without touching any archetype state, so
    /// that spawning can be decided while the store is otherwise busy.  The
    /// identity is not alive — and no query sees it — until the next
    /// fix-up (`fix_reserved`).
    pub fn reserve_entity(&mut self) -> (e: Entity)
        requires
            old(self).wf(),
            old(self).entities.reserved_len() < usize::MAX,
        ensures
            final(self).wf(),
            e.0 == old(self).entities.reserved_len(),
            !final(self).spec_alive(e),
            final(self).entities.reserved_len() == old(self).entities.reserved_len() + 1,
            final(self).entities.fixed_len() == old(self).entities.fixed_len(),
            final(self).entities.metas@ == old(self).entities.metas@,
            final(self).archetypes == old(self).archetypes,
            final(self).families == old(self).families,
            final(self).id == old(self).id,
            final(self).locks == old(self).locks,
            World::alive_same(*old(self), *final(self)),
            World::same_map(*old(self), *final(self)),
            World::keys_preserved(*old(self), *final(self)),
            forall|e2: Entity|
                #[trigger] old(self).spec_alive(e2) ==> final(self).arch_id(e2) == old(self).arch_id(e2),
    {
        let e = self.entities.reserve_entity();
        proof {
            let w0 = old(self);
            let w1 = self;
            World::lemma_keys_carry(*w0, *w1);
            assert forall|a: int| w1.arch_dom(a) implies #[trigger] w1.arch_ok(a) by {
                assert(w0.arch_ok(a));
            }
            assert forall|e2: Entity| #[trigger] w1.spec_alive(e2) implies w1.arch_dom(
                w1.arch_id(e2),
            ) && w1.arch(w1.arch_id(e2)).has_entity(e2) by {
                assert(w0.spec_alive(e2));
            }
            assert forall|e2: Entity, t2: EcsTypeId|
                true implies (#[trigger] w1.spec_has_component(e2, t2)) == w0.spec_has_component(
                e2,
                t2,
            ) && (w0.spec_has_component(e2, t2) ==> w1.component_bytes(e2, t2)
                == w0.component_bytes(e2, t2)) by {}
        }
        e
    }

    /// Folds every identity reserved since the last fix-up into the empty
    /// archetype: each becomes alive there with no components attached.
    /// This is the reservation story's safe point.
    #[verifier::loop_isolation(false)]
    pub fn fix_reserved(&mut self) -> (fixed: Vec<Entity>)
        requires
            old(self).wf(),
        ensures
            final(self).wf(),
            final(self).entities.fixed(),
            final(self).entities.reserved_len() == old(self).entities.reserved_len(),
            fixed@.len() == old(self).entities.reserved_len() - old(self).entities.fixed_len(),
            forall|k: int|
                0 <= k < fixed@.len() ==> fixed@[k] == Entity(
                    (old(self).entities.fixed_len() + k) as usize,
                ),
            forall|k: int|
                0 <= k < fixed@.len() ==> final(self).spec_alive(#[trigger] fixed@[k]) && final(self).arch_id(fixed@[k]) == 0,
            forall|e2: Entity|
                #[trigger] final(self).spec_alive(e2) == (old(self).spec_alive(e2) || (old(self).entities.fixed_len() <= e2.0 && (e2.0 as int) < old(self).entities.reserved_len())),
            forall|e2: Entity|
                #[trigger] old(self).spec_alive(e2) ==> final(self).arch_id(e2) == old(self).arch_id(e2),
            World::same_map(*old(self), *final(self)),
            World::types_preserved(*old(self), *final(self)),
            World::keys_preserved(*old(self), *final(self)),
            final(self).n_archetypes() == old(self).n_archetypes(),
            final(self).families == old(self).families,
            final(self).id == old(self).id,
            final(self).locks == old(self).locks,
            final(self).arch(0).entities@ == old(self).arch(0).entities@ + fixed@,
            forall|a: int|
                0 < a < old(self).n_archetypes() ==> final(self).arch(a).entities@ == old(self).arch(a).entities@,
    {
        let ghost w0 = *old(self);
        let mut fixed: Vec<Entity> = Vec::new();
        proof {
            assert(self.arch(0).entities@ =~= w0.arch(0).entities@ + fixed@);
        }
        loop
            invariant
                self.wf(),
                self.entities.reserved_len() == w0.entities.reserved_len(),
                self.entities.fixed_len() == w0.entities.fixed_len() + fixed@.len(),
                forall|k: int|
                    0 <= k < fixed@.len() ==> fixed@[k] == Entity(
                        (w0.entities.fixed_len() + k) as usize,
                    ),
                forall|k: int|
                    0 <= k < fixed@.len() ==> self.spec_alive(#[trigger] fixed@[k]) && self.arch_id(
                        fixed@[k],
                    ) == 0,
                forall|e2: Entity|
                    #[trigger] self.spec_alive(e2) == (w0.spec_alive(e2) || (
                    w0.entities.fixed_len() <= e2.0 && (e2.0 as int) < w0.entities.fixed_len()
                        + fixed@.len())),
                forall|e2: Entity|
                    #[trigger] w0.spec_alive(e2) ==> self.arch_id(e2) == w0.arch_id(e2),
                World::same_map(w0, *self),
                World::types_preserved(w0, *self),
                self.n_archetypes() == w0.n_archetypes(),
                self.families == w0.families,
                self.id == w0.id,
                self.locks == w0.locks,
                forall|a: int|
                    0 <= a < w0.archetypes@.len() ==> (#[trigger] self.arch(a)).column_indices
                        == w0.arch(a).column_indices,
                self.arch(0).entities@ == w0.arch(0).entities@ + fixed@,
                forall|a: int|
                    0 < a < w0.n_archetypes() ==> self.arch(a).entities@ == w0.arch(a).entities@,
            decreases self.entities.reserved_len() - self.entities.fixed_len(),
        {
            let ghost wpre = *self;
            let r = self.entities.fix_one();
            let e = match r {
                None => {
                    proof {
                        assert(wpre.entities.fixed());
                        assert(fixed@.len() == w0.entities.reserved_len()
                            - w0.entities.fixed_len());
                        World::lemma_keys_carry(w0, *self);
                    }
                    return fixed;
                },
                Some(e) => e,
            };
            proof {
                assert(e.0 == wpre.entities.fixed_len());
                assert(!wpre.spec_alive(e));
                assert forall|a: int| wpre.arch_dom(a) implies !wpre.arch(a).has_entity(e) by {
                    assert(wpre.arch_ok(a));
                    if wpre.arch(a).has_entity(e) {
                        let i = choose|i: int|
                            0 <= i < wpre.arch(a).entities@.len() && wpre.arch(a).entities@[i]
                                == e;
                        assert(wpre.spec_alive(wpre.arch(a).entities@[i]));
                    }
                }
            }
            let a0 = &mut self.archetypes[0];
            a0.entities.push(e);
            fixed.push(e);
            proof {
                let w1 = self;
                assert forall|a: int|
                    0 <= a < wpre.archetypes@.len() implies (#[trigger] w1.arch(a)).column_indices
                    == wpre.arch(a).column_indices by {
                    assert(w1.archetypes@ == wpre.archetypes@.update(0, w1.archetypes@[0]));
                }
                World::lemma_keys_carry(wpre, *w1);
                assert forall|a: int| w1.arch_dom(a) implies #[trigger] w1.arch_ok(a) by {
                    assert(wpre.arch_ok(a));
                    if a != 0 {
                        assert(w1.arch(a) == wpre.arch(a));
                        assert forall|i: int| 0 <= i < w1.arch(a).entities@.len() implies {
                            let e2 = #[trigger] w1.arch(a).entities@[i];
                            w1.spec_alive(e2) && w1.arch_id(e2) == a
                        } by {
                            assert(wpre.spec_alive(wpre.arch(a).entities@[i]));
                            assert(wpre.arch(a).entities@[i] != e);
                        }
                    }
                    if a == 0 {
                        let ar = w1.arch(0);
                        assert(ar.entities@ == wpre.arch(0).entities@.push(e));
                        assert forall|i: int| 0 <= i < ar.entities@.len() implies {
                            let e2 = #[trigger] ar.entities@[i];
                            w1.spec_alive(e2) && w1.arch_id(e2) == a
                        } by {
                            if i < ar.entities@.len() - 1 {
                                assert(ar.entities@[i] == wpre.arch(0).entities@[i]);
                            }
                        }
                        assert forall|i: int, j: int|
                            0 <= i < ar.entities@.len() && 0 <= j < ar.entities@.len()
                                && #[trigger] ar.entities@[i] == #[trigger] ar.entities@[j] implies
                            i == j by {
                            if i != j {
                                let n = wpre.arch(0).entities@.len() as int;
                                if i < n && j < n {
                                    assert(wpre.arch(0).entities@[i] == wpre.arch(0).entities@[j]);
                                } else if i == n && j < n {
                                    assert(wpre.arch(0).has_entity(ar.entities@[j]));
                                } else if j == n && i < n {
                                    assert(wpre.arch(0).has_entity(ar.entities@[i]));
                                }
                            }
                        }
                    }
                }
                assert forall|e2: Entity| #[trigger] w1.spec_alive(e2) implies w1.arch_dom(
                    w1.arch_id(e2),
                ) && w1.arch(w1.arch_id(e2)).has_entity(e2) by {
                    if e2 == e {
                        assert(w1.arch(0).entities@.last() == e);
                        assert(w1.arch(0).has_entity(e));
                    } else {
                        assert(wpre.spec_alive(e2));
                        let a = wpre.arch_id(e2);
                        if a == 0 {
                            let i = choose|i: int|
                                0 <= i < wpre.arch(0).entities@.len() && wpre.arch(
                                    0,
                                ).entities@[i] == e2;
                            assert(w1.arch(0).entities@[i] == e2);
                            assert(w1.arch(0).has_entity(e2));
                        }
                    }
                }
                assert forall|e2: Entity, t2: EcsTypeId|
                    true implies (#[trigger] w1.spec_has_component(e2, t2))
                    == wpre.spec_has_component(e2, t2) && (wpre.spec_has_component(e2, t2)
                    ==> w1.component_bytes(e2, t2) == wpre.component_bytes(e2, t2)) by {
                    if e2 == e {
                        assert(!wpre.spec_alive(e));
                        assert(w1.arch_id(e) == 0);
                        if w1.spec_has_component(e, t2) {
                            assert(w1.arch(0).has_ty(t2));
                            assert(wpre.arch(0).column_indices@.len() == 0);
                            assert(false);
                        }
                    } else if wpre.spec_has_component(e2, t2) {
                        assert(wpre.arch_ok(wpre.arch_id(e2)));
                        let a = wpre.arch_id(e2);
                        let ar0 = wpre.arch(a);
                        let ar1 = w1.arch(a);
                        if a == 0 {
                            assert(ar0.has_ty(t2));
                            assert(false);
                        }
                        assert(ar1 == ar0);
                    }
                }
                assert forall|e2: Entity, t2: EcsTypeId|
                    true implies (#[trigger] w1.spec_has_component(e2, t2))
                    == w0.spec_has_component(e2, t2) && (w0.spec_has_component(e2, t2)
                    ==> w1.component_bytes(e2, t2) == w0.component_bytes(e2, t2)) by {
                    assert(w1.spec_has_component(e2, t2) == wpre.spec_has_component(e2, t2));
                    assert(wpre.spec_has_component(e2, t2) == w0.spec_has_component(e2, t2));
                    if w0.spec_has_component(e2, t2) {
                        assert(wpre.component_bytes(e2, t2) == w0.component_bytes(e2, t2));
                        assert(w1.component_bytes(e2, t2) == wpre.component_bytes(e2, t2));
                    }
                }
                assert forall|e2: Entity|
                    true implies #[trigger] w1.spec_alive(e2) == (wpre.spec_alive(e2) || e2
                    == e) by {
                    if e2.0 < wpre.entities.fixed_len() {
                        assert(w1.entities.metas@[e2.0 as int] == wpre.entities.metas@[e2.0
                            as int]);
                    }
                    if e2 == e {
                        assert(w1.entities.metas@[e2.0 as int] is Some);
                    }
                }
                assert forall|e2: Entity|
                    true implies #[trigger] w1.spec_alive(e2) == (w0.spec_alive(e2) || (
                    w0.entities.fixed_len() <= e2.0 && (e2.0 as int) < w0.entities.fixed_len()
                        + fixed@.len())) by {
                    assert(w1.spec_alive(e2) == (wpre.spec_alive(e2) || e2 == e));
                    assert(e.0 as int == w0.entities.fixed_len() + fixed@.len() - 1);
                    if e2 == e {
                        assert(w0.entities.fixed_len() <= e2.0);
                    }
                    if e2.0 == e.0 {
                        assert(e2 == e);
                    }
                }
                assert(w1.arch(0).entities@ =~= w0.arch(0).entities@ + fixed@);
            }
        }
    }

    /// Creates a fresh entity, immediately at home in the empty archetype
    /// with zero components.  Any reservations still pending are folded in
    /// first, exactly as `fix_reserved` does.
    pub fn spawn(&mut self) -> (e: Entity)
        requires
            old(self).wf(),
            old(self).entities.reserved_len() < usize::MAX,
        ensures
            final(self).wf(),
            final(self).entities.fixed(),
            e.0 == old(self).entities.reserved_len(),
            !old(self).spec_alive(e),
            final(self).spec_alive(e),
            final(self).arch_id(e) == 0,
            forall|ty: EcsTypeId| !final(self).spec_has_component(e, ty),
            final(self).entities.reserved_len() == old(self).entities.reserved_len() + 1,
            forall|e2: Entity|
                #[trigger] final(self).spec_alive(e2) == (old(self).spec_alive(e2) || (old(self).entities.fixed_len() <= e2.0 && (e2.0 as int) <= old(self).entities.reserved_len())),
            forall|e2: Entity|
                #[trigger] old(self).spec_alive(e2) ==> final(self).arch_id(e2) == old(self).arch_id(e2),
            World::same_map(*old(self), *final(self)),
            World::types_preserved(*old(self), *final(self)),
            World::keys_preserved(*old(self), *final(self)),
            final(self).n_archetypes() == old(self).n_archetypes(),
            final(self).families == old(self).families,
            final(self).id == old(self).id,
            final(self).locks == old(self).locks,
            forall|a: int|
                0 < a < old(self).n_archetypes() ==> final(self).arch(a).entities@ == old(self).arch(a).entities@,
            old(self).entities.fixed() ==> e.0 == old(self).entities.fixed_len() && final(self).arch(0).entities@ == old(self).arch(0).entities@.push(e) && (forall|e2: Entity|
                e2 != e ==> final(self).spec_alive(e2) == old(self).spec_alive(e2)),
    {
        let e = self.reserve_entity();
        let ghost wr = *self;
        let fixed = self.fix_reserved();
        proof {
            assert(fixed@.last() == e);
            assert(self.spec_alive(e));
            assert forall|ty: EcsTypeId| !self.spec_has_component(e, ty) by {
                if self.spec_has_component(e, ty) {
                    assert(self.arch(0).has_ty(ty));
                    assert(old(self).arch(0).column_indices@.len() == 0);
                }
            }
            assert forall|e2: Entity|
                #[trigger] self.spec_alive(e2) == (old(self).spec_alive(e2) || (old(self).entities.fixed_len() <= e2.0 && (e2.0 as int) <= old(self).entities.reserved_len())) by {
                assert(self.spec_alive(e2) == (wr.spec_alive(e2) || (wr.entities.fixed_len()
                    <= e2.0 && (e2.0 as int) < wr.entities.reserved_len())));
            }
            assert forall|e2: Entity| #[trigger] old(self).spec_alive(e2) implies self.arch_id(
                e2,
            ) == old(self).arch_id(e2) by {
                assert(wr.spec_alive(e2));
                assert(self.arch_id(e2) == wr.arch_id(e2));
                assert(wr.arch_id(e2) == old(self).arch_id(e2));
            }
            if old(self).entities.fixed() {
                assert(fixed@.len() == 1);
                assert(fixed@ =~= Seq::empty().push(e));
                assert(self.arch(0).entities@ =~= old(self).arch(0).entities@.push(e));
            }
        }
        e
    }

    /// The newer store keeps every column family of the older one, with the
    /// same cell size and every existing column untouched; it may add
    /// columns at the end.
    pub open spec fn families_extend(w0: World, w1: World) -> bool {
        &&& w1.families@.len() == w0.families@.len()
        &&& forall|t: int|
            0 <= t < w0.families@.len() ==> (#[trigger] w1.families@[t]).cell_size
                == w0.families@[t].cell_size
        &&& forall|t: int|
            0 <= t < w0.families@.len() ==> (#[trigger] w1.families@[t]).n_cols()
                >= w0.families@[t].n_cols()
        &&& forall|t: int, c: int|
            0 <= t < w0.families@.len() && 0 <= c < w0.families@[t].n_cols() ==> (
            #[trigger] w1.families@[t].cols@[c]) == w0.families@[t].cols@[c]
    }

    /// The newer store keeps every archetype of the older one unchanged; it
    /// may add archetypes at the end.
    pub open spec fn archs_prefix_eq(w0: World, w1: World) -> bool {
        &&& w1.archetypes@.len() >= w0.archetypes@.len()
        &&& forall|a: int|
            0 <= a < w0.archetypes@.len() ==> (#[trigger] w1.arch(a)) == w0.arch(a)
    }

    /// Growing the store — new archetypes, new columns — while keeping the
    /// old archetypes and columns untouched leaves the component map as it
    /// was.
    pub proof fn lemma_extend_same_map(w0: World, w1: World)
        requires
            w0.wf(),
            w1.entities == w0.entities,
            World::archs_prefix_eq(w0, w1),
            World::families_extend(w0, w1),
        ensures
            World::same_map(w0, w1),
            World::alive_same(w0, w1),
            World::keys_preserved(w0, w1),
            forall|e2: Entity|
                #[trigger] w1.spec_alive(e2) ==> w1.arch_dom(w1.arch_id(e2)) && w1.arch(
                    w1.arch_id(e2),
                ).has_entity(e2),
            forall|e2: Entity|
                #[trigger] w0.spec_alive(e2) ==> w1.arch_id(e2) == w0.arch_id(e2),
    {
        assert forall|e2: Entity| #[trigger] w1.spec_alive(e2) implies w1.arch_dom(
            w1.arch_id(e2),
        ) && w1.arch(w1.arch_id(e2)).has_entity(e2) by {
            assert(w0.spec_alive(e2));
            assert(w1.arch(w0.arch_id(e2)) == w0.arch(w0.arch_id(e2)));
        }
        assert forall|a: int|
            0 <= a < w0.archetypes@.len() implies (#[trigger] w1.arch(a)).same_keys(
            w0.arch(a),
        ) by {
            assert(w1.arch(a) == w0.arch(a));
        }
        assert forall|e2: Entity, t2: EcsTypeId|
            true implies (#[trigger] w1.spec_has_component(e2, t2)) == w0.spec_has_component(
            e2,
            t2,
        ) && (w0.spec_has_component(e2, t2) ==> w1.component_bytes(e2, t2) == w0.component_bytes(
            e2,
            t2,
        )) by {
            if w0.spec_alive(e2) {
                let a = w0.arch_id(e2);
                assert(w1.arch(a) == w0.arch(a));
                if w0.spec_has_component(e2, t2) {
                    assert(w0.arch_ok(a));
                    let ar = w0.arch(a);
                    let k = ar.ty_index(t2);
                    assert(ar.column_indices@[k].0 == t2);
                    ar.lemma_col_at(k);
                    assert((ar.col_of(t2) as int) < w0.families@[t2.0 as int].n_cols());
                    assert(w1.families@[t2.0 as int].cols@[ar.col_of(t2)] == w0.families@[t2.0
                        as int].cols@[ar.col_of(t2)]);
                }
            }
        }
    }

    /// Both stores agree on the component map for every entity but `e`.
    pub open spec fn same_map_except_entity(w0: World, w1: World, e: Entity) -> bool {
        forall|e2: Entity, t2: EcsTypeId|
            e2 != e ==> (#[trigger] w1.spec_has_component(e2, t2)) == w0.spec_has_component(
                e2,
                t2,
            ) && (w0.spec_has_component(e2, t2) ==> w1.component_bytes(e2, t2)
                == w0.component_bytes(e2, t2))
    }

    /// No component type appears twice in `ids`.
    pub open spec fn ids_unique(ids: Seq<EcsTypeId>) -> bool {
        forall|i: int, j: int|
            0 <= i < ids.len() && 0 <= j < ids.len() && #[trigger] ids[i] == #[trigger] ids[j]
                ==> i == j
    }

    /// Some entry among the first `k` of `ids` names family `t`.
    pub open spec fn ids_prefix_has(ids: Seq<EcsTypeId>, k: int, t: int) -> bool {
        exists|j: int| 0 <= j < k && (#[trigger] ids[j]).0 as int == t
    }

    /// Whether one archetype carries exactly the given type set.
    fn arch_has_exactly(archetype: &Archetype, ids: &Vec<EcsTypeId>) -> (r: bool)
        ensures
            r == archetype.has_exactly(ids@),
    {
        let mut k: usize = 0;
        while k < archetype.column_indices.len()
            invariant
                0 <= k <= archetype.column_indices@.len(),
                forall|j: int|
                    0 <= j < k ==> ids@.contains((#[trigger] archetype.column_indices@[j]).0),
            decreases archetype.column_indices@.len() - k,
        {
            let ty = archetype.column_indices[k].0;
            if !World::ids_contain(ids, ty) {
                assert(archetype.has_ty(ty));
                return false;
            }
            k = k + 1;
        }
        let mut k: usize = 0;
        while k < ids.len()
            invariant
                0 <= k <= ids@.len(),
                forall|j: int|
                    0 <= j < archetype.column_indices@.len() ==> ids@.contains(
                        (#[trigger] archetype.column_indices@[j]).0,
                    ),
                forall|j: int| 0 <= j < k ==> archetype.has_ty(#[trigger] ids@[j]),
            decreases ids@.len() - k,
        {
            if !archetype.contains_id(ids[k]) {
                assert(ids@.contains(ids@[k as int]));
                return false;
            }
            k = k + 1;
        }
        proof {
            assert forall|ty: EcsTypeId| #[trigger] archetype.has_ty(ty) implies ids@.contains(
                ty,
            ) by {
                let j = choose|j: int|
                    0 <= j < archetype.column_indices@.len() && (
                    #[trigger] archetype.column_indices@[j]).0 == ty;
                assert(ids@.contains(archetype.column_indices@[j].0));
            }
            assert forall|ty: EcsTypeId| ids@.contains(ty) implies archetype.has_ty(ty) by {
                let j = ids@.index_of(ty);
                assert(archetype.has_ty(ids@[j]));
            }
        }
        true
    }

    /// Whether `ids` lists the type `ty`.
    fn ids_contain(ids: &Vec<EcsTypeId>, ty: EcsTypeId) -> (r: bool)
        ensures
            r == ids@.contains(ty),
    {
        let mut k: usize = 0;
        while k < ids.len()
            invariant
                0 <= k <= ids@.len(),
                forall|j: int| 0 <= j < k ==> ids@[j] != ty,
            decreases ids@.len() - k,
        {
            if ids[k] == ty {
                return true;
            }
            k = k + 1;
        }
        false
    }

    /// Looks for an archetype that carries exactly the given type set.
    pub fn find_archetype_from_ids(&self, ids: &Vec<EcsTypeId>) -> (r: Option<usize>)
        ensures
            r is Some ==> self.arch_dom(r->0 as int) && self.arch(r->0 as int).has_exactly(ids@),
            r is None ==> forall|a: int|
                self.arch_dom(a) ==> !(#[trigger] self.arch(a)).has_exactly(ids@),
    {
        let mut a: usize = 0;
        while a < self.archetypes.len()
            invariant
                0 <= a <= self.archetypes@.len(),
                forall|b: int| 0 <= b < a ==> !(#[trigger] self.arch(b)).has_exactly(ids@),
            decreases self.archetypes@.len() - a,
        {
            if World::arch_has_exactly(&self.archetypes[a], ids) {
                return Some(a);
            }
            a = a + 1;
        }
        None
    }

    /// Creates a new archetype for exactly the given type set: appends one
    /// fresh, empty column to every member type's family and records the
    /// new column indices.  The caller has checked that no archetype with
    /// this type set exists yet.
    pub fn push_archetype(&mut self, type_ids: Vec<EcsTypeId>) -> (a: usize)
        requires
            old(self).wf(),
            World::ids_unique(type_ids@),
            forall|k: int|
                0 <= k < type_ids@.len() ==> (#[trigger] type_ids@[k]).0 < old(self).n_types(),
            forall|b: int|
                old(self).arch_dom(b) ==> !(#[trigger] old(self).arch(b)).has_exactly(type_ids@),
        ensures
            final(self).wf(),
            a == old(self).n_archetypes(),
            final(self).n_archetypes() == old(self).n_archetypes() + 1,
            World::archs_prefix_eq(*old(self), *final(self)),
            World::families_extend(*old(self), *final(self)),
            World::same_map(*old(self), *final(self)),
            World::alive_same(*old(self), *final(self)),
            World::keys_preserved(*old(self), *final(self)),
            final(self).entities == old(self).entities,
            final(self).id == old(self).id,
            final(self).locks == old(self).locks,
            final(self).arch(a as int).entities@.len() == 0,
            final(self).arch(a as int).has_exactly(type_ids@),
            forall|e2: Entity|
                #[trigger] old(self).spec_alive(e2) ==> final(self).arch_id(e2) == old(self).arch_id(e2),
    {
        let ghost w0 = *self;
        let mut pairs: Vec<(EcsTypeId, usize)> = Vec::new();
        let mut k: usize = 0;
        while k < type_ids.len()
            invariant
                0 <= k <= type_ids@.len(),
                World::ids_unique(type_ids@),
                forall|j: int|
                    0 <= j < type_ids@.len() ==> (#[trigger] type_ids@[j]).0 < w0.n_types(),
                w0.wf(),
                self.entities == w0.entities,
                self.archetypes == w0.archetypes,
                self.id == w0.id,
                self.locks == w0.locks,
                self.families@.len() == w0.families@.len(),
                pairs@.len() == k,
                forall|j: int|
                    0 <= j < k ==> (#[trigger] pairs@[j]).0 == type_ids@[j] && (pairs@[j]).1
                        == w0.families@[type_ids@[j].0 as int].n_cols(),
                forall|t: int|
                    0 <= t < w0.families@.len() ==> (#[trigger] self.families@[t]).cell_size
                        == w0.families@[t].cell_size,
                forall|t: int|
                    0 <= t < w0.families@.len() && !World::ids_prefix_has(type_ids@, k as int, t)
                        ==> #[trigger] self.families@[t] == w0.families@[t],
                forall|j: int|
                    0 <= j < k ==> {
                        let t = (#[trigger] type_ids@[j]).0 as int;
                        &&& self.families@[t].n_cols() == w0.families@[t].n_cols() + 1
                        &&& self.families@[t].col_len(w0.families@[t].n_cols() as int) == 0
                        &&& forall|c: int|
                            0 <= c < w0.families@[t].n_cols() ==> (
                            #[trigger] self.families@[t].cols@[c]) == w0.families@[t].cols@[c]
                        &&& self.families@[t].wf()
                    },
            decreases type_ids@.len() - k,
        {
            let ty = type_ids[k];
            let ghost fams_pre = self.families@;
            proof {
                if World::ids_prefix_has(type_ids@, k as int, ty.0 as int) {
                    let j = choose|j: int|
                        0 <= j < k && (#[trigger] type_ids@[j]).0 as int == ty.0 as int;
                    assert(type_ids@[j] == ty);
                    assert(false);
                }
                assert(fams_pre[ty.0 as int] == w0.families@[ty.0 as int]);
            }
            let fam = &mut self.families[ty.0];
            let col = fam.push_empty_column();
            pairs.push((ty, col));
            proof {
                assert(self.families@ =~= fams_pre.update(
                    ty.0 as int,
                    self.families@[ty.0 as int],
                ));
                assert forall|t: int|
                    0 <= t < w0.families@.len() && !World::ids_prefix_has(
                        type_ids@,
                        k as int + 1,
                        t,
                    ) implies #[trigger] self.families@[t] == w0.families@[t] by {
                    assert(!World::ids_prefix_has(type_ids@, k as int, t));
                    assert((type_ids@[k as int]).0 as int == ty.0 as int);
                    assert(t != ty.0 as int);
                    assert(self.families@[t] == fams_pre[t]);
                }
                assert forall|j: int| 0 <= j < k + 1 implies {
                    let t = (#[trigger] type_ids@[j]).0 as int;
                    &&& self.families@[t].n_cols() == w0.families@[t].n_cols() + 1
                    &&& self.families@[t].col_len(w0.families@[t].n_cols() as int) == 0
                    &&& forall|c: int|
                        0 <= c < w0.families@[t].n_cols() ==> (#[trigger] self.families@[t].cols@[c])
                            == w0.families@[t].cols@[c]
                    &&& self.families@[t].wf()
                } by {
                    if j < k {
                        assert(type_ids@[j] != ty);
                        assert(self.families@[type_ids@[j].0 as int] == fams_pre[type_ids@[j].0
                            as int]);
                    } else {
                        assert(type_ids@.take(k as int).contains(ty) == false);
                    }
                }
            }
            k = k + 1;
        }
        let ghost mid = *self;
        let new_arch = Archetype { entities: Vec::new(), column_indices: pairs };
        self.archetypes.push(new_arch);
        let a = self.archetypes.len() - 1;
        proof {
            let w1 = *self;
            let n = type_ids@.len() as int;
            assert forall|t: int| 0 <= t < w0.families@.len() implies {
                &&& (#[trigger] w1.families@[t]).cell_size == w0.families@[t].cell_size
                &&& w1.families@[t].n_cols() >= w0.families@[t].n_cols()
                &&& w1.families@[t].wf()
                &&& forall|c: int|
                    0 <= c < w0.families@[t].n_cols() ==> (#[trigger] w1.families@[t].cols@[c])
                        == w0.families@[t].cols@[c]
            } by {
                if World::ids_prefix_has(type_ids@, n, t) {
                    let j = choose|j: int|
                        0 <= j < n && (#[trigger] type_ids@[j]).0 as int == t;
                    assert(w1.families@[t].n_cols() == w0.families@[t].n_cols() + 1);
                    assert(w0.families@[t].wf());
                } else {
                    assert(w1.families@[t] == w0.families@[t]);
                    assert(w0.families@[t].wf());
                }
            }
            assert(World::families_extend(w0, w1));
            assert(World::archs_prefix_eq(w0, w1));
            World::lemma_extend_same_map(w0, w1);
            let na = a as int;
            let ar = w1.arch(na);
            // the new archetype carries exactly the requested types
            assert forall|ty: EcsTypeId| #[trigger] ar.has_ty(ty) implies type_ids@.contains(
                ty,
            ) by {
                let j = choose|j: int|
                    0 <= j < ar.column_indices@.len() && (#[trigger] ar.column_indices@[j]).0 == ty;
                assert(type_ids@[j] == ty);
            }
            assert forall|ty: EcsTypeId| type_ids@.contains(ty) implies ar.has_ty(ty) by {
                let j = type_ids@.index_of(ty);
                assert(ar.column_indices@[j].0 == ty);
            }
            assert(ar.has_exactly(type_ids@));
            // well-formedness of the new archetype
            assert(ar.keys_unique());
            assert(ar.entities_unique());
            assert forall|k2: int| 0 <= k2 < ar.column_indices@.len() implies {
                let p = #[trigger] ar.column_indices@[k2];
                &&& (p.0.0 as int) < w1.families@.len()
                &&& (p.1 as int) < w1.families@[p.0.0 as int].n_cols()
                &&& w1.families@[p.0.0 as int].col_len(p.1 as int) == ar.entities@.len()
            } by {
                assert(ar.column_indices@ == pairs@);
                assert((pairs@[k2]).0 == type_ids@[k2]);
                let t = (type_ids@[k2]).0 as int;
                assert((pairs@[k2]).1 == w0.families@[t].n_cols());
                assert(w1.families@[t].n_cols() == w0.families@[t].n_cols() + 1);
                assert(w1.families@[t].col_len(w0.families@[t].n_cols() as int) == 0);
            }
            assert(w1.arch_ok(na));
            assert forall|b: int| w1.arch_dom(b) implies #[trigger] w1.arch_ok(b) by {
                if b < na {
                    assert(w0.arch_ok(b));
                    assert(w1.arch(b) == w0.arch(b));
                    assert forall|k2: int| 0 <= k2 < w1.arch(b).column_indices@.len() implies {
                        let p = #[trigger] w1.arch(b).column_indices@[k2];
                        &&& (p.0.0 as int) < w1.families@.len()
                        &&& (p.1 as int) < w1.families@[p.0.0 as int].n_cols()
                        &&& w1.families@[p.0.0 as int].col_len(p.1 as int) == w1.arch(
                            b,
                        ).entities@.len()
                    } by {
                        let p = w1.arch(b).column_indices@[k2];
                        assert((p.1 as int) < w0.families@[p.0.0 as int].n_cols());
                        assert(w1.families@[p.0.0 as int].cols@[p.1 as int] == w0.families@[p.0.0
                            as int].cols@[p.1 as int]);
                    }
                }
            }
            // key-set uniqueness against the new archetype
            assert forall|b: int, c: int|
                w1.arch_dom(b) && w1.arch_dom(c) && b != c implies !(#[trigger] w1.arch(
                b,
            ).same_keys(w1.arch(c))) by {
                if b < na && c < na {
                    assert(w1.arch(b) == w0.arch(b));
                    assert(w1.arch(c) == w0.arch(c));
                    assert(!w0.arch(b).same_keys(w0.arch(c)));
                } else {
                    let o = if b == na {
                        c
                    } else {
                        b
                    };
                    assert(w1.arch(o) == w0.arch(o));
                    if w1.arch(b).same_keys(w1.arch(c)) {
                        assert forall|ty: EcsTypeId| #[trigger] w0.arch(o).has_ty(ty) implies
                            type_ids@.contains(ty) by {
                            assert(ar.has_ty(ty));
                        }
                        assert forall|ty: EcsTypeId| type_ids@.contains(ty) implies w0.arch(
                            o,
                        ).has_ty(ty) by {
                            assert(ar.has_ty(ty));
                        }
                        assert(w0.arch(o).has_exactly(type_ids@));
                        assert(false);
                    }
                }
            }
            // column exclusivity against the new archetype
            assert forall|b: int, c: int, ty: EcsTypeId|
                w1.arch_dom(b) && w1.arch_dom(c) && b != c && #[trigger] w1.arch(b).has_ty(ty)
                    && #[trigger] w1.arch(c).has_ty(ty) implies w1.arch(b).col_of(ty) != w1.arch(
                c,
            ).col_of(ty) by {
                if b < na && c < na {
                    assert(w1.arch(b) == w0.arch(b));
                    assert(w1.arch(c) == w0.arch(c));
                    assert(w0.arch(b).has_ty(ty) && w0.arch(c).has_ty(ty));
                } else {
                    let o = if b == na {
                        c
                    } else {
                        b
                    };
                    assert(w1.arch(o) == w0.arch(o));
                    assert(w0.arch_ok(o));
                    let ko = w0.arch(o).ty_index(ty);
                    assert(w0.arch(o).column_indices@[ko].0 == ty);
                    w0.arch(o).lemma_col_at(ko);
                    assert((w0.arch(o).col_of(ty) as int) < w0.families@[ty.0 as int].n_cols());
                    let kn = ar.ty_index(ty);
                    assert(ar.column_indices@[kn].0 == ty);
                    ar.lemma_col_at(kn);
                    assert((pairs@[kn]).0 == type_ids@[kn]);
                    assert(type_ids@[kn] == ty);
                    assert((pairs@[kn]).1 == w0.families@[(type_ids@[kn]).0 as int].n_cols());
                    assert(ar.col_of(ty) == w0.families@[ty.0 as int].n_cols());
                }
            }
        }
        a
    }

    /// Some entry among the first `k` of `moves` names family `t`.
    pub open spec fn moves_prefix_has(moves: Seq<(EcsTypeId, usize, usize)>, k: int, t: int) -> bool {
        exists|j: int| 0 <= j < k && ((#[trigger] moves[j]).0).0 as int == t
    }

    /// Moves the cell of row `row` from one column to a sibling column, in
    /// every listed family at once: the row migration behind a structural
    /// mutation.  Each entry of `moves` is one family's type, the column to
    /// take the cell from, and the column to append it to.
    fn migrate_row_cells(&mut self, row: usize, moves: &Vec<(EcsTypeId, usize, usize)>)
        requires
            forall|j: int|
                0 <= j < moves@.len() ==> {
                    let m = #[trigger] moves@[j];
                    &&& (m.0.0 as int) < old(self).n_types()
                    &&& (m.1 as int) < old(self).families@[m.0.0 as int].n_cols()
                    &&& (m.2 as int) < old(self).families@[m.0.0 as int].n_cols()
                    &&& m.1 != m.2
                    &&& (row as int) < old(self).families@[m.0.0 as int].col_len(m.1 as int)
                },
            forall|i: int, j: int|
                0 <= i < moves@.len() && 0 <= j < moves@.len() && (#[trigger] moves@[i]).0 == (
                #[trigger] moves@[j]).0 ==> i == j,
        ensures
            final(self).entities == old(self).entities,
            final(self).archetypes == old(self).archetypes,
            final(self).id == old(self).id,
            final(self).locks == old(self).locks,
            final(self).families@.len() == old(self).families@.len(),
            forall|t: int|
                0 <= t < old(self).families@.len() && !World::moves_prefix_has(
                    moves@,
                    moves@.len() as int,
                    t,
                ) ==> #[trigger] final(self).families@[t] == old(self).families@[t],
            forall|j: int|
                0 <= j < moves@.len() ==> {
                    let m = #[trigger] moves@[j];
                    let t = m.0.0 as int;
                    let f0 = old(self).families@[t];
                    let f1 = final(self).families@[t];
                    &&& f1.cell_size == f0.cell_size
                    &&& f1.n_cols() == f0.n_cols()
                    &&& f1.cols@[m.1 as int]@ == swap_removed(f0.cols@[m.1 as int]@, row as int)
                    &&& f1.cols@[m.2 as int]@ == f0.cols@[m.2 as int]@.push(
                        f0.cols@[m.1 as int]@[row as int],
                    )
                    &&& forall|c: int|
                        0 <= c < f0.n_cols() && c != m.1 && c != m.2 ==> (#[trigger] f1.cols@[c])
                            == f0.cols@[c]
                    &&& (f0.wf() ==> f1.wf())
                },
    {
        let ghost w0 = *self;
        let mut k: usize = 0;
        while k < moves.len()
            invariant
                0 <= k <= moves@.len(),
                forall|j: int|
                    0 <= j < moves@.len() ==> {
                        let m = #[trigger] moves@[j];
                        &&& (m.0.0 as int) < w0.n_types()
                        &&& (m.1 as int) < w0.families@[m.0.0 as int].n_cols()
                        &&& (m.2 as int) < w0.families@[m.0.0 as int].n_cols()
                        &&& m.1 != m.2
                        &&& (row as int) < w0.families@[m.0.0 as int].col_len(m.1 as int)
                    },
                forall|i: int, j: int|
                    0 <= i < moves@.len() && 0 <= j < moves@.len() && (#[trigger] moves@[i]).0 == (
                    #[trigger] moves@[j]).0 ==> i == j,
                self.entities == w0.entities,
                self.archetypes == w0.archetypes,
                self.id == w0.id,
                self.locks == w0.locks,
                self.families@.len() == w0.families@.len(),
                forall|t: int|
                    0 <= t < w0.families@.len() && !World::moves_prefix_has(moves@, k as int, t)
                        ==> #[trigger] self.families@[t] == w0.families@[t],
                forall|j: int|
                    0 <= j < k ==> {
                        let m = #[trigger] moves@[j];
                        let t = m.0.0 as int;
                        let f0 = w0.families@[t];
                        let f1 = self.families@[t];
                        &&& f1.cell_size == f0.cell_size
                        &&& f1.n_cols() == f0.n_cols()
                        &&& f1.cols@[m.1 as int]@ == swap_removed(
                            f0.cols@[m.1 as int]@,
                            row as int,
                        )
                        &&& f1.cols@[m.2 as int]@ == f0.cols@[m.2 as int]@.push(
                            f0.cols@[m.1 as int]@[row as int],
                        )
                        &&& forall|c: int|
                            0 <= c < f0.n_cols() && c != m.1 && c != m.2 ==> (
                            #[trigger] f1.cols@[c]) == f0.cols@[c]
                        &&& (f0.wf() ==> f1.wf())
                    },
            decreases moves@.len() - k,
        {
            let (ty2, src_col, dst_col) = moves[k];
            proof {
                if World::moves_prefix_has(moves@, k as int, ty2.0 as int) {
                    let j = choose|j: int|
                        0 <= j < k && ((#[trigger] moves@[j]).0).0 as int == ty2.0 as int;
                    assert((moves@[j]).0 == ty2);
                    assert(false);
                }
                assert(self.families@[ty2.0 as int] == w0.families@[ty2.0 as int]);
            }
            let ghost fams_pre = self.families@;
            let fam = &mut self.families[ty2.0];
            fam.swap_remove_to(src_col, dst_col, row);
            proof {
                assert(self.families@ =~= fams_pre.update(
                    ty2.0 as int,
                    self.families@[ty2.0 as int],
                ));
                assert forall|t: int|
                    0 <= t < w0.families@.len() && !World::moves_prefix_has(
                        moves@,
                        k as int + 1,
                        t,
                    ) implies #[trigger] self.families@[t] == w0.families@[t] by {
                    assert(!World::moves_prefix_has(moves@, k as int, t));
                    assert(((moves@[k as int]).0).0 as int == ty2.0 as int);
                    assert(t != ty2.0 as int);
                    assert(self.families@[t] == fams_pre[t]);
                }
                assert forall|j: int| 0 <= j < k + 1 implies {
                    let m = #[trigger] moves@[j];
                    let t = m.0.0 as int;
                    let f0 = w0.families@[t];
                    let f1 = self.families@[t];
                    &&& f1.cell_size == f0.cell_size
                    &&& f1.n_cols() == f0.n_cols()
                    &&& f1.cols@[m.1 as int]@ == swap_removed(f0.cols@[m.1 as int]@, row as int)
                    &&& f1.cols@[m.2 as int]@ == f0.cols@[m.2 as int]@.push(
                        f0.cols@[m.1 as int]@[row as int],
                    )
                    &&& forall|c: int|
                        0 <= c < f0.n_cols() && c != m.1 && c != m.2 ==> (#[trigger] f1.cols@[c])
                            == f0.cols@[c]
                    &&& (f0.wf() ==> f1.wf())
                } by {
                    if j < k {
                        assert((moves@[j]).0 != ty2);
                        assert((moves@[j]).0.0 != ty2.0);
                        assert(self.families@[(moves@[j]).0.0 as int] == fams_pre[(moves@[j]).0.0
                            as int]);
                    }
                }
            }
            k = k + 1;
        }
    }

    /// Attaches the component cell `cell` of type `ty` to entity `e`.
    /// Nothing happens on a dead entity; overwriting an existing component
    /// hands the previous cell back and moves no row; a fresh component
    /// migrates the entity's whole row to the archetype that also carries
    /// `ty`.
    #[verifier::rlimit(100)]
    pub fn insert_erased(&mut self, e: Entity, ty: EcsTypeId, cell: Vec<u8>) -> (r: Option<
        Vec<u8>,
    >)
        requires
            old(self).wf(),
            (ty.0 as int) < old(self).n_types(),
            cell@.len() == old(self).cell_size_of(ty),
        ensures
            final(self).wf(),
            !old(self).spec_alive(e) ==> r is None && *final(self) == *old(self),
            old(self).spec_alive(e) ==> {
                &&& World::alive_same(*old(self), *final(self))
                &&& World::types_preserved(*old(self), *final(self))
                &&& World::keys_preserved(*old(self), *final(self))
                &&& World::same_map_except(*old(self), *final(self), e, ty)
                &&& final(self).spec_has_component(e, ty)
                &&& final(self).component_bytes(e, ty) == cell@
                &&& final(self).id == old(self).id
                &&& final(self).locks == old(self).locks
                &&& (r is Some <==> old(self).spec_has_component(e, ty))
                &&& (r is Some ==> r->0@ == old(self).component_bytes(e, ty))
                &&& (old(self).spec_has_component(e, ty) ==> final(self).n_archetypes() == old(self).n_archetypes() && forall|e2: Entity|
                    #[trigger] old(self).spec_alive(e2) ==> final(self).arch_id(e2) == old(self).arch_id(e2))
                &&& forall|e2: Entity|
                    e2 != e && #[trigger] old(self).spec_alive(e2) ==> final(self).arch_id(e2)
                        == old(self).arch_id(e2)
                &&& forall|ty2: EcsTypeId|
                    #[trigger] final(self).spec_has_component(e, ty2) <==> (old(self).spec_has_component(e, ty2) || ty2 == ty)
                &&& final(self).entities.reserved_len() == old(self).entities.reserved_len()
                &&& final(self).entities.fixed_len() == old(self).entities.fixed_len()
            },
            old(self).spec_alive(e) && !old(self).spec_has_component(e, ty) ==> {
                let src = old(self).arch_id(e);
                let dst = final(self).arch_id(e);
                &&& final(self).arch_dom(dst)
                &&& dst != src
                &&& (final(self).n_archetypes() == old(self).n_archetypes() || (final(self).n_archetypes() == old(self).n_archetypes() + 1 && dst == old(self).n_archetypes()))
                &&& final(self).arch(src).entities@ == swap_removed(
                    old(self).arch(src).entities@,
                    old(self).arch(src).row_of(e),
                )
                &&& final(self).arch(dst).entities@ == (if dst < old(self).n_archetypes() {
                    old(self).arch(dst).entities@
                } else {
                    Seq::<Entity>::empty()
                }).push(e)
                &&& forall|a: int|
                    final(self).arch_dom(a) && a != src && a != dst ==> old(self).arch_dom(a)
                        && final(self).arch(a).entities@ == old(self).arch(a).entities@
            },
    {
        if !self.entities.is_alive(e) {
            return None;
        }
        let ghost w0 = *self;
        let meta = self.entities.meta(e).unwrap();
        let src_a = meta.archetype;
        proof {
            assert(w0.spec_alive(e));
            assert(w0.arch_dom(src_a as int));
            assert(w0.arch_ok(src_a as int));
        }
        let col_opt = self.archetypes[src_a].column_index(ty);
        match col_opt {
            Some(col) => {
                let ghost s = w0.arch(src_a as int);
                let row = self.archetypes[src_a].get_entity_idx(e).unwrap();
                proof {
                    s.lemma_col_at(s.ty_index(ty));
                    assert((col as int) == s.col_of(ty));
                    assert((row as int) == s.row_of(e));
                    assert((col as int) < w0.families@[ty.0 as int].n_cols());
                    assert(w0.families@[ty.0 as int].col_len(col as int) == s.entities@.len());
                }
                let fam = &mut self.families[ty.0];
                let prev = fam.replace_cell(col, row, cell);
                proof {
                    let w2 = *self;
                    assert(w2.families@ =~= w0.families@.update(
                        ty.0 as int,
                        w2.families@[ty.0 as int],
                    ));
                    World::lemma_keys_carry(w0, w2);
                    assert forall|a: int| w2.arch_dom(a) implies #[trigger] w2.arch_ok(a) by {
                        assert(w0.arch_ok(a));
                        assert forall|k: int| 0 <= k < w2.arch(a).column_indices@.len() implies {
                            let p = #[trigger] w2.arch(a).column_indices@[k];
                            &&& (p.0.0 as int) < w2.families@.len()
                            &&& (p.1 as int) < w2.families@[p.0.0 as int].n_cols()
                            &&& w2.families@[p.0.0 as int].col_len(p.1 as int) == w2.arch(
                                a,
                            ).entities@.len()
                        } by {
                            let p = w2.arch(a).column_indices@[k];
                            if p.0.0 == ty.0 {
                                assert(w2.families@[ty.0 as int].col_len(p.1 as int)
                                    == w0.families@[ty.0 as int].col_len(p.1 as int));
                            }
                        }
                    }
                    assert forall|e2: Entity| #[trigger] w2.spec_alive(e2) implies w2.arch_dom(
                        w2.arch_id(e2),
                    ) && w2.arch(w2.arch_id(e2)).has_entity(e2) by {
                        assert(w0.spec_alive(e2));
                    }
                    assert(w2.wf());
                    assert(w2.component_bytes(e, ty) == cell@);
                    assert forall|e2: Entity, t2: EcsTypeId|
                        !(e2 == e && t2 == ty) implies (#[trigger] w2.spec_has_component(e2, t2))
                        == w0.spec_has_component(e2, t2) && (w0.spec_has_component(e2, t2)
                        ==> w2.component_bytes(e2, t2) == w0.component_bytes(e2, t2)) by {
                        if w0.spec_has_component(e2, t2) {
                            let a2 = w0.arch_id(e2);
                            let ar2 = w0.arch(a2);
                            assert(w0.arch_ok(a2));
                            ar2.lemma_col_at(ar2.ty_index(t2));
                            if t2.0 == ty.0 {
                                assert(t2 == ty);
                                assert(e2 != e);
                                if a2 == src_a as int {
                                    assert(ar2.row_of(e2) != row as int);
                                } else {
                                    assert(ar2.col_of(t2) != s.col_of(ty));
                                }
                            }
                        }
                    }
                }
                Some(prev)
            },
            None => {
                let dst_a = self.get_or_insert_archetype_from_insert(src_a, ty);
                let ghost wg = *self;
                let ghost s = wg.arch(src_a as int);
                let ghost d = wg.arch(dst_a as int);
                proof {
                    assert(wg.arch(src_a as int) == w0.arch(src_a as int));
                    assert(wg.spec_alive(e) && wg.arch_id(e) == src_a as int);
                    assert(wg.arch_ok(src_a as int));
                    assert(wg.arch_ok(dst_a as int));
                    assert(d.has_ty(ty));
                }
                let row = self.archetypes[src_a].get_entity_idx(e).unwrap();
                let n_keys = self.archetypes[src_a].column_indices.len();
                let mut moves: Vec<(EcsTypeId, usize, usize)> = Vec::new();
                let mut k: usize = 0;
                while k < n_keys
                    invariant
                        0 <= k <= n_keys,
                        *self == wg,
                        wg.wf(),
                        wg.arch_dom(src_a as int),
                        wg.arch_dom(dst_a as int),
                        src_a != dst_a,
                        s == wg.arch(src_a as int),
                        d == wg.arch(dst_a as int),
                        n_keys == s.column_indices@.len(),
                        forall|ty2: EcsTypeId| #[trigger] s.has_ty(ty2) ==> d.has_ty(ty2),
                        moves@.len() == k,
                        forall|j: int|
                            0 <= j < k ==> {
                                let m = #[trigger] moves@[j];
                                &&& m.0 == s.column_indices@[j].0
                                &&& m.1 == s.column_indices@[j].1
                                &&& (m.2 as int) == d.col_of(s.column_indices@[j].0)
                            },
                    decreases n_keys - k,
                {
                    let (ty2, c_src) = self.archetypes[src_a].column_indices[k];
                    proof {
                        assert(wg.arch_ok(src_a as int));
                        assert(wg.arch_ok(dst_a as int));
                        s.lemma_col_at(k as int);
                        assert(s.has_ty(ty2));
                        assert(d.has_ty(ty2));
                    }
                    let c_dst = self.archetypes[dst_a].column_index(ty2).unwrap();
                    moves.push((ty2, c_src, c_dst));
                    k = k + 1;
                }
                proof {
                    // the migration's preconditions, from both archetypes'
                    // well-formedness and column exclusivity
                    assert forall|j: int| 0 <= j < moves@.len() implies {
                        let m = #[trigger] moves@[j];
                        &&& (m.0.0 as int) < wg.n_types()
                        &&& (m.1 as int) < wg.families@[m.0.0 as int].n_cols()
                        &&& (m.2 as int) < wg.families@[m.0.0 as int].n_cols()
                        &&& m.1 != m.2
                        &&& (row as int) < wg.families@[m.0.0 as int].col_len(m.1 as int)
                    } by {
                        let m = moves@[j];
                        s.lemma_col_at(j);
                        assert(s.has_ty(m.0) && d.has_ty(m.0));
                        assert(s.col_of(m.0) == m.1 as int);
                        d.lemma_col_at(d.ty_index(m.0));
                        assert(s.col_of(m.0) != d.col_of(m.0));
                    }
                    assert forall|i: int, j: int|
                        0 <= i < moves@.len() && 0 <= j < moves@.len() && (#[trigger] moves@[i]).0
                            == (#[trigger] moves@[j]).0 implies i == j by {
                        assert(s.column_indices@[i].0 == s.column_indices@[j].0);
                    }
                }
                self.migrate_row_cells(row, &moves);
                let ghost wm = *self;
                let ea = &mut self.archetypes[src_a];
                ea.entities.swap_remove(row);
                let eb = &mut self.archetypes[dst_a];
                eb.entities.push(e);
                self.entities.set_archetype(e, dst_a);
                let ghost ws = *self;
                proof {
                    assert(ws.arch(dst_a as int).column_indices@ == d.column_indices@);
                    assert(d.has_ty(ty));
                    assert(ws.arch(dst_a as int).has_ty(ty));
                    assert(wg.arch_ok(dst_a as int));
                    assert(ws.arch(dst_a as int).keys_unique());
                }
                let ty_col = self.archetypes[dst_a].column_index(ty).unwrap();
                proof {
                    d.lemma_col_at(d.ty_index(ty));
                    assert(ws.arch(dst_a as int).column_indices == d.column_indices);
                    assert((ty_col as int) == d.col_of(ty));
                    assert(!World::moves_prefix_has(moves@, moves@.len() as int, ty.0 as int))
                        by {
                        if World::moves_prefix_has(moves@, moves@.len() as int, ty.0 as int) {
                            let j = choose|j: int|
                                0 <= j < moves@.len() && ((#[trigger] moves@[j]).0).0 as int
                                    == ty.0 as int;
                            assert(s.column_indices@[j].0 == ty);
                            s.lemma_col_at(j);
                            assert(s.has_ty(ty));
                        }
                    }
                    assert(ws.families@[ty.0 as int] == wg.families@[ty.0 as int]);
                    assert((ty_col as int) < ws.families@[ty.0 as int].n_cols());
                    assert(ws.families@[ty.0 as int].col_len(ty_col as int)
                        == d.entities@.len());
                }
                let fam = &mut self.families[ty.0];
                fam.push_cell(ty_col, cell);
                proof {
                    let w2 = *self;
                    let sa = src_a as int;
                    let da = dst_a as int;
                    let n = s.entities@.len() as int;
                    let s_ents2 = swap_removed(s.entities@, row as int);
                    let d_ents2 = d.entities@.push(e);
                    assert(w2.archetypes@.len() == wg.archetypes@.len());
                    assert forall|a: int|
                        0 <= a < wg.archetypes@.len() implies (#[trigger] w2.arch(
                        a,
                    )).column_indices == wg.arch(a).column_indices by {}
                    World::lemma_keys_carry(wg, w2);
                    assert(w2.arch(sa).entities@ == s_ents2);
                    assert(w2.arch(da).entities@ == d_ents2);
                    assert(seq_unique(s.entities@));
                    assert(seq_unique(d.entities@));
                    lemma_swap_removed_unique(s.entities@, row as int);
                    assert(!d.entities@.contains(e)) by {
                        if d.entities@.contains(e) {
                            let i = choose|i: int|
                                0 <= i < d.entities@.len() && d.entities@[i] == e;
                            assert(wg.arch_id(d.entities@[i]) == da);
                        }
                    }
                    lemma_push_tracking(d.entities@, e);
                    assert(s.entities@[row as int] == e);
                    // where every family stands in the final store
                    assert(w2.families@.len() == wg.families@.len());
                    assert forall|t: int|
                        0 <= t < wg.families@.len() && t != ty.0 as int implies
                        #[trigger] w2.families@[t] == wm.families@[t] by {}
                    assert(w2.families@[ty.0 as int].cols@[ty_col as int]@ == wg.families@[ty.0
                        as int].cols@[ty_col as int]@.push(cell));
                    assert forall|c: int|
                        0 <= c < wg.families@[ty.0 as int].n_cols() && c != ty_col implies (
                        #[trigger] w2.families@[ty.0 as int].cols@[c]) == wg.families@[ty.0
                        as int].cols@[c] by {
                        assert(wm.families@[ty.0 as int] == wg.families@[ty.0 as int]);
                    }
                    assert(w2.families@[ty.0 as int].cell_size == wg.families@[ty.0
                        as int].cell_size);
                    assert(w2.families@[ty.0 as int].n_cols() == wg.families@[ty.0
                        as int].n_cols());
                    // how each archetype's columns moved
                    assert forall|a: int, k2: int|
                        w2.arch_dom(a) && a != sa && a != da && 0 <= k2 < w2.arch(
                            a,
                        ).column_indices@.len() implies {
                        let p = #[trigger] w2.arch(a).column_indices@[k2];
                        w2.families@[p.0.0 as int].cols@[p.1 as int] == wg.families@[p.0.0
                            as int].cols@[p.1 as int]
                    } by {
                        let p = w2.arch(a).column_indices@[k2];
                        let t = p.0.0 as int;
                        assert(wg.arch_ok(a));
                        wg.arch(a).lemma_col_at(k2);
                        assert(wg.arch(a).has_ty(p.0));
                        assert(wg.arch(a).col_of(p.0) == p.1 as int);
                        if s.has_ty(p.0) {
                            let j = s.ty_index(p.0);
                            assert(s.column_indices@[j].0 == p.0);
                            s.lemma_col_at(j);
                            assert(moves@[j].0 == p.0 && (moves@[j].1 as int) == s.col_of(p.0)
                                && (moves@[j].2 as int) == d.col_of(p.0));
                            assert(p.0 != ty);
                            assert(t != ty.0 as int);
                            assert(s.col_of(p.0) != p.1 as int);
                            assert(d.has_ty(p.0));
                            assert(d.col_of(p.0) != p.1 as int);
                            assert((p.1 as int) < wg.families@[t].n_cols());
                            assert(w2.families@[t].cols@[p.1 as int] == wm.families@[t].cols@[p.1
                                as int]);
                        } else if p.0 == ty {
                            assert(d.has_ty(ty));
                            assert(d.col_of(ty) != p.1 as int);
                            assert(wm.families@[t] == wg.families@[t]) by {
                                if World::moves_prefix_has(moves@, moves@.len() as int, t) {
                                    let j = choose|j: int|
                                        0 <= j < moves@.len() && ((#[trigger] moves@[j]).0).0
                                            as int == t;
                                    s.lemma_col_at(j);
                                    assert(s.has_ty(moves@[j].0));
                                    assert(moves@[j].0 == ty);
                                }
                            }
                        } else {
                            assert(t != ty.0 as int);
                            assert(wm.families@[t] == wg.families@[t]) by {
                                if World::moves_prefix_has(moves@, moves@.len() as int, t) {
                                    let j = choose|j: int|
                                        0 <= j < moves@.len() && ((#[trigger] moves@[j]).0).0
                                            as int == t;
                                    s.lemma_col_at(j);
                                    assert(s.has_ty(moves@[j].0));
                                    assert(moves@[j].0 == p.0);
                                }
                            }
                            assert(w2.families@[t] == wm.families@[t]);
                        }
                    }
                    // row alignment and member consistency, archetype by
                    // archetype
                    assert forall|a: int| w2.arch_dom(a) implies #[trigger] w2.arch_ok(a) by {
                        assert(wg.arch_ok(a));
                        let ar2 = w2.arch(a);
                        assert(ar2.column_indices@ == wg.arch(a).column_indices@);
                        if a == sa {
                            assert(ar2.entities_unique());
                            assert forall|k2: int|
                                0 <= k2 < ar2.column_indices@.len() implies {
                                let p = #[trigger] ar2.column_indices@[k2];
                                &&& (p.0.0 as int) < w2.families@.len()
                                &&& (p.1 as int) < w2.families@[p.0.0 as int].n_cols()
                                &&& w2.families@[p.0.0 as int].col_len(p.1 as int)
                                    == ar2.entities@.len()
                            } by {
                                let p = ar2.column_indices@[k2];
                                let t = p.0.0 as int;
                                s.lemma_col_at(k2);
                                assert(p.0 != ty);
                                assert(t != ty.0 as int);
                                assert(moves@[k2].0 == p.0 && moves@[k2].1 == p.1);
                                assert(w2.families@[t] == wm.families@[t]);
                                assert(wm.families@[t].cols@[p.1 as int]@ == swap_removed(
                                    wg.families@[t].cols@[p.1 as int]@,
                                    row as int,
                                ));
                            }
                            assert forall|i: int| 0 <= i < ar2.entities@.len() implies {
                                let x = #[trigger] ar2.entities@[i];
                                w2.spec_alive(x) && w2.arch_id(x) == a
                            } by {
                                let x = ar2.entities@[i];
                                assert(s_ents2.contains(x));
                                assert(s.entities@.contains(x) && x != e);
                                assert(wg.spec_alive(x) && wg.arch_id(x) == sa);
                            }
                        } else if a == da {
                            assert(ar2.entities_unique());
                            assert forall|k2: int|
                                0 <= k2 < ar2.column_indices@.len() implies {
                                let p = #[trigger] ar2.column_indices@[k2];
                                &&& (p.0.0 as int) < w2.families@.len()
                                &&& (p.1 as int) < w2.families@[p.0.0 as int].n_cols()
                                &&& w2.families@[p.0.0 as int].col_len(p.1 as int)
                                    == ar2.entities@.len()
                            } by {
                                let p = ar2.column_indices@[k2];
                                let t = p.0.0 as int;
                                d.lemma_col_at(k2);
                                assert(d.col_of(p.0) == p.1 as int);
                                if p.0 == ty {
                                    assert(p.1 == ty_col);
                                    assert(w2.families@[t].cols@[p.1 as int]@ == wg.families@[t].cols@[p.1 as int]@.push(cell));
                                } else {
                                    assert(s.has_ty(p.0));
                                    let j = s.ty_index(p.0);
                                    assert(s.column_indices@[j].0 == p.0);
                                    s.lemma_col_at(j);
                                    assert(moves@[j].0 == p.0 && (moves@[j].2 as int) == d.col_of(
                                        p.0,
                                    ));
                                    assert(t != ty.0 as int);
                                    assert(w2.families@[t] == wm.families@[t]);
                                    assert(wm.families@[t].cols@[p.1 as int]@
                                        == wg.families@[t].cols@[p.1 as int]@.push(
                                        wg.families@[t].cols@[(moves@[j].1) as int]@[row as int],
                                    ));
                                }
                            }
                            assert forall|i: int| 0 <= i < ar2.entities@.len() implies {
                                let x = #[trigger] ar2.entities@[i];
                                w2.spec_alive(x) && w2.arch_id(x) == a
                            } by {
                                let x = ar2.entities@[i];
                                if i < d.entities@.len() {
                                    assert(x == d.entities@[i]);
                                    assert(wg.spec_alive(x) && wg.arch_id(x) == da);
                                    assert(x != e);
                                } else {
                                    assert(x == e);
                                }
                            }
                        } else {
                            assert(ar2 == wg.arch(a));
                            assert forall|k2: int|
                                0 <= k2 < ar2.column_indices@.len() implies {
                                let p = #[trigger] ar2.column_indices@[k2];
                                &&& (p.0.0 as int) < w2.families@.len()
                                &&& (p.1 as int) < w2.families@[p.0.0 as int].n_cols()
                                &&& w2.families@[p.0.0 as int].col_len(p.1 as int)
                                    == ar2.entities@.len()
                            } by {
                                let p = ar2.column_indices@[k2];
                                assert(w2.families@[p.0.0 as int].cols@[p.1 as int]
                                    == wg.families@[p.0.0 as int].cols@[p.1 as int]);
                            }
                            assert forall|i: int| 0 <= i < ar2.entities@.len() implies {
                                let x = #[trigger] ar2.entities@[i];
                                w2.spec_alive(x) && w2.arch_id(x) == a
                            } by {
                                let x = ar2.entities@[i];
                                assert(wg.spec_alive(x) && wg.arch_id(x) == a);
                                assert(x != e);
                            }
                        }
                    }
                    assert forall|x: Entity| #[trigger] w2.spec_alive(x) implies w2.arch_dom(
                        w2.arch_id(x),
                    ) && w2.arch(w2.arch_id(x)).has_entity(x) by {
                        if x == e {
                            assert(w2.arch_id(e) == da);
                            assert(d_ents2.contains(e));
                        } else {
                            assert(wg.spec_alive(x));
                            let a = wg.arch_id(x);
                            assert(wg.arch(a).has_entity(x));
                            if a == sa {
                                lemma_swap_removed_tracking(s.entities@, row as int, x);
                            } else if a == da {
                                assert(d_ents2.contains(x));
                            } else {
                                assert(w2.arch(a) == wg.arch(a));
                            }
                        }
                    }
                    assert(w2.wf());
                    // the new component is in place
                    assert(w2.spec_has_component(e, ty));
                    assert(w2.arch_id(e) == da);
                    d.lemma_col_at(d.ty_index(ty));
                    assert(w2.arch(da).col_of(ty) == ty_col as int);
                    assert(w2.arch(da).row_of(e) == d.entities@.len()) by {
                        assert(d_ents2.index_of(e) == d.entities@.len());
                    }
                    assert(wg.families@[ty.0 as int].col_len(ty_col as int) == d.entities@.len());
                    assert(w2.component_bytes(e, ty) == cell@);
                    // everything else is exactly where it was
                    assert forall|e2: Entity, t2: EcsTypeId|
                        !(e2 == e && t2 == ty) implies (#[trigger] w2.spec_has_component(e2, t2))
                        == wg.spec_has_component(e2, t2) && (wg.spec_has_component(e2, t2)
                        ==> w2.component_bytes(e2, t2) == wg.component_bytes(e2, t2)) by {
                        if wg.spec_alive(e2) {
                            if e2 == e {
                                assert(w2.arch_id(e) == da && wg.arch_id(e) == sa);
                                assert(w2.arch(da).has_ty(t2) == d.has_ty(t2));
                                assert(d.has_ty(t2) <==> (s.has_ty(t2) || t2 == ty));
                                assert(w2.spec_has_component(e, t2) == wg.spec_has_component(
                                    e,
                                    t2,
                                ));
                                if wg.spec_has_component(e, t2) {
                                    assert(s.has_ty(t2) && t2 != ty);
                                    let j = s.ty_index(t2);
                                    assert(s.column_indices@[j].0 == t2);
                                    s.lemma_col_at(j);
                                    let t = t2.0 as int;
                                    assert(t != ty.0 as int);
                                    assert(w2.families@[t] == wm.families@[t]);
                                    assert(wm.families@[t].cols@[(moves@[j].2) as int]@
                                        == wg.families@[t].cols@[(moves@[j].2) as int]@.push(
                                        wg.families@[t].cols@[(moves@[j].1) as int]@[row as int],
                                    ));
                                    assert((moves@[j].2 as int) == d.col_of(t2));
                                    assert((moves@[j].1 as int) == s.col_of(t2));
                                    assert(wg.families@[t].col_len(d.col_of(t2))
                                        == d.entities@.len());
                                    assert(w2.arch(da).row_of(e) == d.entities@.len());
                                    assert(w2.component_bytes(e, t2) == wg.families@[t].cols@[s.col_of(t2)]@[row as int]@);
                                    assert(wg.arch(sa).row_of(e) == row as int);
                                    assert(w2.component_bytes(e, t2) == wg.component_bytes(
                                        e,
                                        t2,
                                    ));
                                }
                            } else {
                                let a2 = wg.arch_id(e2);
                                assert(w2.arch_id(e2) == a2);
                                assert(w2.arch(a2).has_ty(t2) == wg.arch(a2).has_ty(t2));
                                if wg.spec_has_component(e2, t2) {
                                    assert(wg.arch_ok(a2));
                                    let ar = wg.arch(a2);
                                    let kt = ar.ty_index(t2);
                                    assert(ar.column_indices@[kt].0 == t2);
                                    ar.lemma_col_at(kt);
                                    let cc = ar.col_of(t2);
                                    let t = t2.0 as int;
                                    let j0 = ar.row_of(e2);
                                    assert(ar.entities@[j0] == e2);
                                    assert(ar.has_entity(e2));
                                    if a2 == sa {
                                        lemma_swap_removed_tracking(s.entities@, row as int, e2);
                                        assert(j0 != row as int);
                                        let j1 = w2.arch(sa).row_of(e2);
                                        assert(s.column_indices@[kt] == ar.column_indices@[kt]);
                                        assert(moves@[kt].0 == t2 && (moves@[kt].1 as int) == cc);
                                        assert(t2 != ty);
                                        assert(t != ty.0 as int);
                                        assert(w2.families@[t] == wm.families@[t]);
                                        assert(wm.families@[t].cols@[cc]@ == swap_removed(
                                            wg.families@[t].cols@[cc]@,
                                            row as int,
                                        ));
                                        assert(wg.families@[t].col_len(cc) == n);
                                        if j0 == n - 1 {
                                            assert(j1 == row as int);
                                            assert(wm.families@[t].cols@[cc]@[j1]
                                                == wg.families@[t].cols@[cc]@[j0]);
                                        } else {
                                            assert(j1 == j0);
                                            assert(wm.families@[t].cols@[cc]@[j1]
                                                == wg.families@[t].cols@[cc]@[j0]);
                                        }
                                        assert(w2.component_bytes(e2, t2) == wg.component_bytes(
                                            e2,
                                            t2,
                                        ));
                                    } else if a2 == da {
                                        assert(w2.arch(da).row_of(e2) == j0) by {
                                            assert(d.entities@.contains(e2));
                                        }
                                        assert(j0 < d.entities@.len());
                                        if t2 == ty {
                                            assert(cc == ty_col as int);
                                            assert(wg.families@[t].col_len(cc)
                                                == d.entities@.len());
                                            assert(w2.families@[t].cols@[cc]@[j0]
                                                == wg.families@[t].cols@[cc]@[j0]);
                                        } else {
                                            assert(s.has_ty(t2));
                                            let j = s.ty_index(t2);
                                            assert(s.column_indices@[j].0 == t2);
                                            s.lemma_col_at(j);
                                            assert((moves@[j].2 as int) == d.col_of(t2) == cc);
                                            assert(t != ty.0 as int);
                                            assert(w2.families@[t] == wm.families@[t]);
                                            assert(wm.families@[t].cols@[cc]@
                                                == wg.families@[t].cols@[cc]@.push(
                                                wg.families@[t].cols@[(moves@[j].1) as int]@[row
                                                    as int],
                                            ));
                                            assert(wg.families@[t].col_len(cc)
                                                == d.entities@.len());
                                            assert(w2.families@[t].cols@[cc]@[j0]
                                                == wg.families@[t].cols@[cc]@[j0]);
                                        }
                                        assert(w2.component_bytes(e2, t2) == wg.component_bytes(
                                            e2,
                                            t2,
                                        ));
                                    } else {
                                        assert(w2.arch(a2) == wg.arch(a2));
                                        assert(w2.families@[t].cols@[cc] == wg.families@[t].cols@[cc]);
                                        assert(w2.component_bytes(e2, t2) == wg.component_bytes(
                                            e2,
                                            t2,
                                        ));
                                    }
                                }
                            }
                        }
                    }
                    assert(World::same_map_except(wg, w2, e, ty));
                    assert(w0 == *old(self));
                    assert forall|e2: Entity, t2: EcsTypeId|
                        !(e2 == e && t2 == ty) implies (#[trigger] w2.spec_has_component(e2, t2))
                        == w0.spec_has_component(e2, t2) && (w0.spec_has_component(e2, t2)
                        ==> w2.component_bytes(e2, t2) == w0.component_bytes(e2, t2)) by {
                        assert(w2.spec_has_component(e2, t2) == wg.spec_has_component(e2, t2));
                        assert(wg.spec_has_component(e2, t2) == w0.spec_has_component(e2, t2));
                        if w0.spec_has_component(e2, t2) {
                            assert(wg.component_bytes(e2, t2) == w0.component_bytes(e2, t2));
                            assert(w2.component_bytes(e2, t2) == wg.component_bytes(e2, t2));
                        }
                    }
                    World::lemma_same_map_except_intro(w0, w2, e, ty);
                    assert forall|ty2: EcsTypeId|
                        #[trigger] w2.spec_has_component(e, ty2) <==> (w0.spec_has_component(
                        e,
                        ty2,
                    ) || ty2 == ty) by {
                        assert(w2.arch(da).has_ty(ty2) == d.has_ty(ty2));
                        assert(w0.arch(sa) == wg.arch(sa));
                    }
                }
                None
            },
        }
    }

    /// Detaches the component of type `ty` from entity `e` and hands its
    /// byte cell back.  A dead entity or an absent component is an ordinary
    /// `None`, not an error, and leaves the store untouched; otherwise the
    /// entity's whole row migrates to the archetype without `ty`.
    #[verifier::rlimit(100)]
    pub fn remove_erased(&mut self, e: Entity, ty: EcsTypeId) -> (r: Option<Vec<u8>>)
        requires
            old(self).wf(),
            (ty.0 as int) < old(self).n_types(),
        ensures
            final(self).wf(),
            !old(self).spec_has_component(e, ty) ==> r is None && *final(self) == *old(self),
            old(self).spec_has_component(e, ty) ==> {
                &&& r is Some
                &&& r->0@ == old(self).component_bytes(e, ty)
                &&& World::alive_same(*old(self), *final(self))
                &&& World::types_preserved(*old(self), *final(self))
                &&& World::keys_preserved(*old(self), *final(self))
                &&& World::same_map_except(*old(self), *final(self), e, ty)
                &&& !final(self).spec_has_component(e, ty)
                &&& final(self).spec_alive(e)
                &&& final(self).id == old(self).id
                &&& final(self).locks == old(self).locks
                &&& forall|e2: Entity|
                    e2 != e && #[trigger] old(self).spec_alive(e2) ==> final(self).arch_id(e2)
                        == old(self).arch_id(e2)
                &&& forall|ty2: EcsTypeId|
                    #[trigger] final(self).spec_has_component(e, ty2) <==> (old(self).spec_has_component(e, ty2) && ty2 != ty)
                &&& final(self).entities.reserved_len() == old(self).entities.reserved_len()
                &&& final(self).entities.fixed_len() == old(self).entities.fixed_len()
                &&& {
                    let src = old(self).arch_id(e);
                    let dst = final(self).arch_id(e);
                    &&& final(self).arch_dom(dst)
                    &&& dst != src
                    &&& (final(self).n_archetypes() == old(self).n_archetypes() || (final(self).n_archetypes() == old(self).n_archetypes() + 1 && dst == old(self).n_archetypes()))
                    &&& final(self).arch(src).entities@ == swap_removed(
                        old(self).arch(src).entities@,
                        old(self).arch(src).row_of(e),
                    )
                    &&& final(self).arch(dst).entities@ == (if dst < old(self).n_archetypes() {
                        old(self).arch(dst).entities@
                    } else {
                        Seq::<Entity>::empty()
                    }).push(e)
                    &&& forall|a: int|
                        final(self).arch_dom(a) && a != src && a != dst ==> old(self).arch_dom(a)
                            && final(self).arch(a).entities@ == old(self).arch(a).entities@
                }
            },
    {
        if !self.entities.is_alive(e) {
            return None;
        }
        let ghost w0 = *self;
        let meta = self.entities.meta(e).unwrap();
        let src_a = meta.archetype;
        proof {
            assert(w0.spec_alive(e));
            assert(w0.arch_dom(src_a as int));
            assert(w0.arch_ok(src_a as int));
        }
        let col_opt = self.archetypes[src_a].column_index(ty);
        let col = match col_opt {
            None => {
                return None;
            },
            Some(c) => c,
        };
        let dst_a = self.get_or_insert_archetype_from_remove(src_a, ty);
        let ghost wg = *self;
        let ghost s = wg.arch(src_a as int);
        let ghost d = wg.arch(dst_a as int);
        proof {
            assert(wg.arch(src_a as int) == w0.arch(src_a as int));
            assert(wg.spec_alive(e) && wg.arch_id(e) == src_a as int);
            assert(wg.arch_ok(src_a as int));
            assert(wg.arch_ok(dst_a as int));
            assert(s.has_ty(ty));
            assert(!d.has_ty(ty));
        }
        let row = self.archetypes[src_a].get_entity_idx(e).unwrap();
        proof {
            s.lemma_col_at(s.ty_index(ty));
            assert((col as int) == s.col_of(ty));
            assert((row as int) == s.row_of(e));
            assert((col as int) < wg.families@[ty.0 as int].n_cols());
            assert(wg.families@[ty.0 as int].col_len(col as int) == s.entities@.len());
            assert(wg.families@[ty.0 as int].wf());
        }
        let fam = &mut self.families[ty.0];
        let cell = fam.swap_remove_cell(col, row);
        let ghost wx = *self;
        proof {
            assert(wx.families@ =~= wg.families@.update(ty.0 as int, wx.families@[ty.0 as int]));
            assert(cell@ == wg.component_bytes(e, ty));
        }
        let n_keys = self.archetypes[dst_a].column_indices.len();
        let mut moves: Vec<(EcsTypeId, usize, usize)> = Vec::new();
        let mut k: usize = 0;
        while k < n_keys
            invariant
                0 <= k <= n_keys,
                *self == wx,
                wg.wf(),
                wg.arch_dom(src_a as int),
                wg.arch_dom(dst_a as int),
                src_a != dst_a,
                s == wg.arch(src_a as int),
                d == wg.arch(dst_a as int),
                wx.archetypes == wg.archetypes,
                n_keys == d.column_indices@.len(),
                s.has_ty(ty),
                forall|ty2: EcsTypeId| #[trigger] d.has_ty(ty2) ==> s.has_ty(ty2) && ty2 != ty,
                moves@.len() == k,
                forall|j: int|
                    0 <= j < k ==> {
                        let m = #[trigger] moves@[j];
                        &&& m.0 == d.column_indices@[j].0
                        &&& (m.1 as int) == s.col_of(d.column_indices@[j].0)
                        &&& m.2 == d.column_indices@[j].1
                    },
            decreases n_keys - k,
        {
            let (ty2, c_dst) = self.archetypes[dst_a].column_indices[k];
            proof {
                assert(wg.arch_ok(src_a as int));
                assert(wg.arch_ok(dst_a as int));
                d.lemma_col_at(k as int);
                assert(d.has_ty(ty2));
                assert(s.has_ty(ty2));
            }
            let c_src = self.archetypes[src_a].column_index(ty2).unwrap();
            moves.push((ty2, c_src, c_dst));
            k = k + 1;
        }
        proof {
            assert forall|j: int| 0 <= j < moves@.len() implies {
                let m = #[trigger] moves@[j];
                &&& (m.0.0 as int) < wx.n_types()
                &&& (m.1 as int) < wx.families@[m.0.0 as int].n_cols()
                &&& (m.2 as int) < wx.families@[m.0.0 as int].n_cols()
                &&& m.1 != m.2
                &&& (row as int) < wx.families@[m.0.0 as int].col_len(m.1 as int)
            } by {
                let m = moves@[j];
                d.lemma_col_at(j);
                assert(d.has_ty(m.0) && s.has_ty(m.0) && m.0 != ty);
                assert(m.0.0 != ty.0);
                assert(wx.families@[m.0.0 as int] == wg.families@[m.0.0 as int]);
                assert(d.col_of(m.0) == m.2 as int);
                s.lemma_col_at(s.ty_index(m.0));
                assert(s.col_of(m.0) != d.col_of(m.0));
                assert(wg.families@[m.0.0 as int].col_len(m.1 as int) == s.entities@.len());
            }
            assert forall|i: int, j: int|
                0 <= i < moves@.len() && 0 <= j < moves@.len() && (#[trigger] moves@[i]).0 == (
                #[trigger] moves@[j]).0 implies i == j by {
                assert(d.column_indices@[i].0 == d.column_indices@[j].0);
            }
        }
        self.migrate_row_cells(row, &moves);
        let ghost wm = *self;
        let ea = &mut self.archetypes[src_a];
        ea.entities.swap_remove(row);
        let eb = &mut self.archetypes[dst_a];
        eb.entities.push(e);
        self.entities.set_archetype(e, dst_a);
        proof {
            let w2 = *self;
            let sa = src_a as int;
            let da = dst_a as int;
            let n = s.entities@.len() as int;
            let s_ents2 = swap_removed(s.entities@, row as int);
            let d_ents2 = d.entities@.push(e);
            assert(w2.archetypes@.len() == wg.archetypes@.len());
            assert forall|a: int|
                0 <= a < wg.archetypes@.len() implies (#[trigger] w2.arch(a)).column_indices
                == wg.arch(a).column_indices by {}
            World::lemma_keys_carry(wg, w2);
            assert(w2.arch(sa).entities@ == s_ents2);
            assert(w2.arch(da).entities@ == d_ents2);
            assert(seq_unique(s.entities@));
            assert(seq_unique(d.entities@));
            lemma_swap_removed_unique(s.entities@, row as int);
            assert(!d.entities@.contains(e)) by {
                if d.entities@.contains(e) {
                    let i = choose|i: int| 0 <= i < d.entities@.len() && d.entities@[i] == e;
                    assert(wg.arch_id(d.entities@[i]) == da);
                }
            }
            lemma_push_tracking(d.entities@, e);
            assert(s.entities@[row as int] == e);
            // where every family stands in the final store
            assert(w2.families@.len() == wg.families@.len());
            assert(!World::moves_prefix_has(moves@, moves@.len() as int, ty.0 as int)) by {
                if World::moves_prefix_has(moves@, moves@.len() as int, ty.0 as int) {
                    let j = choose|j: int|
                        0 <= j < moves@.len() && ((#[trigger] moves@[j]).0).0 as int == ty.0
                            as int;
                    d.lemma_col_at(j);
                    assert(d.has_ty(moves@[j].0));
                    assert(moves@[j].0 == ty);
                }
            }
            assert(w2.families@[ty.0 as int] == wx.families@[ty.0 as int]);
            assert(w2.families@[ty.0 as int].cols@[col as int]@ == swap_removed(
                wg.families@[ty.0 as int].cols@[col as int]@,
                row as int,
            ));
            assert forall|c: int|
                0 <= c < wg.families@[ty.0 as int].n_cols() && c != col implies (
                #[trigger] w2.families@[ty.0 as int].cols@[c]) == wg.families@[ty.0
                as int].cols@[c] by {}
            // how each untouched archetype's columns stand
            assert forall|a: int, k2: int|
                w2.arch_dom(a) && a != sa && a != da && 0 <= k2 < w2.arch(
                    a,
                ).column_indices@.len() implies {
                let p = #[trigger] w2.arch(a).column_indices@[k2];
                w2.families@[p.0.0 as int].cols@[p.1 as int] == wg.families@[p.0.0
                    as int].cols@[p.1 as int]
            } by {
                let p = w2.arch(a).column_indices@[k2];
                let t = p.0.0 as int;
                assert(wg.arch_ok(a));
                wg.arch(a).lemma_col_at(k2);
                assert(wg.arch(a).has_ty(p.0));
                assert(wg.arch(a).col_of(p.0) == p.1 as int);
                if p.0 == ty {
                    assert(s.col_of(ty) != p.1 as int);
                    assert(w2.families@[t].cols@[p.1 as int] == wx.families@[t].cols@[p.1
                        as int]);
                    assert(wx.families@[t].cols@[p.1 as int] == wg.families@[t].cols@[p.1
                        as int]);
                } else if d.has_ty(p.0) {
                    let j = d.ty_index(p.0);
                    assert(d.column_indices@[j].0 == p.0);
                    d.lemma_col_at(j);
                    assert(moves@[j].0 == p.0 && (moves@[j].1 as int) == s.col_of(p.0) && (
                    moves@[j].2 as int) == d.col_of(p.0));
                    assert(t != ty.0 as int);
                    s.lemma_col_at(s.ty_index(p.0));
                    assert(s.col_of(p.0) != p.1 as int);
                    assert(d.col_of(p.0) != p.1 as int);
                    assert((p.1 as int) < wg.families@[t].n_cols());
                    assert(w2.families@[t].cols@[p.1 as int] == wm.families@[t].cols@[p.1
                        as int]);
                } else {
                    assert(t != ty.0 as int);
                    assert(wm.families@[t] == wx.families@[t]) by {
                        if World::moves_prefix_has(moves@, moves@.len() as int, t) {
                            let j = choose|j: int|
                                0 <= j < moves@.len() && ((#[trigger] moves@[j]).0).0 as int == t;
                            d.lemma_col_at(j);
                            assert(d.has_ty(moves@[j].0));
                            assert(moves@[j].0 == p.0);
                        }
                    }
                    assert(wx.families@[t] == wg.families@[t]);
                    assert(w2.families@[t] == wm.families@[t]);
                }
            }
            // row alignment and member consistency, archetype by archetype
            assert forall|a: int| w2.arch_dom(a) implies #[trigger] w2.arch_ok(a) by {
                assert(wg.arch_ok(a));
                let ar2 = w2.arch(a);
                assert(ar2.column_indices@ == wg.arch(a).column_indices@);
                if a == sa {
                    assert(ar2.entities_unique());
                    assert forall|k2: int| 0 <= k2 < ar2.column_indices@.len() implies {
                        let p = #[trigger] ar2.column_indices@[k2];
                        &&& (p.0.0 as int) < w2.families@.len()
                        &&& (p.1 as int) < w2.families@[p.0.0 as int].n_cols()
                        &&& w2.families@[p.0.0 as int].col_len(p.1 as int) == ar2.entities@.len()
                    } by {
                        let p = ar2.column_indices@[k2];
                        let t = p.0.0 as int;
                        s.lemma_col_at(k2);
                        if p.0 == ty {
                            assert(p.1 == col);
                            assert(w2.families@[t].cols@[col as int]@ == swap_removed(
                                wg.families@[t].cols@[col as int]@,
                                row as int,
                            ));
                        } else {
                            assert(d.has_ty(p.0));
                            let j = d.ty_index(p.0);
                            assert(d.column_indices@[j].0 == p.0);
                            d.lemma_col_at(j);
                            assert(moves@[j].0 == p.0 && (moves@[j].1 as int) == s.col_of(p.0));
                            assert(t != ty.0 as int);
                            assert(w2.families@[t] == wm.families@[t]);
                            assert(wx.families@[t] == wg.families@[t]);
                            assert(wm.families@[t].cols@[p.1 as int]@ == swap_removed(
                                wg.families@[t].cols@[p.1 as int]@,
                                row as int,
                            ));
                        }
                    }
                    assert forall|i: int| 0 <= i < ar2.entities@.len() implies {
                        let x = #[trigger] ar2.entities@[i];
                        w2.spec_alive(x) && w2.arch_id(x) == a
                    } by {
                        let x = ar2.entities@[i];
                        assert(s_ents2.contains(x));
                        assert(s.entities@.contains(x) && x != e);
                        assert(wg.spec_alive(x) && wg.arch_id(x) == sa);
                    }
                } else if a == da {
                    assert(ar2.entities_unique());
                    assert forall|k2: int| 0 <= k2 < ar2.column_indices@.len() implies {
                        let p = #[trigger] ar2.column_indices@[k2];
                        &&& (p.0.0 as int) < w2.families@.len()
                        &&& (p.1 as int) < w2.families@[p.0.0 as int].n_cols()
                        &&& w2.families@[p.0.0 as int].col_len(p.1 as int) == ar2.entities@.len()
                    } by {
                        let p = ar2.column_indices@[k2];
                        let t = p.0.0 as int;
                        d.lemma_col_at(k2);
                        assert(moves@[k2].0 == p.0 && moves@[k2].2 == p.1);
                        assert(p.0 != ty);
                        assert(t != ty.0 as int);
                        assert(w2.families@[t] == wm.families@[t]);
                        assert(wx.families@[t] == wg.families@[t]);
                        assert(wm.families@[t].cols@[p.1 as int]@ == wg.families@[t].cols@[p.1
                            as int]@.push(
                            wg.families@[t].cols@[(moves@[k2].1) as int]@[row as int],
                        ));
                    }
                    assert forall|i: int| 0 <= i < ar2.entities@.len() implies {
                        let x = #[trigger] ar2.entities@[i];
                        w2.spec_alive(x) && w2.arch_id(x) == a
                    } by {
                        let x = ar2.entities@[i];
                        if i < d.entities@.len() {
                            assert(x == d.entities@[i]);
                            assert(wg.spec_alive(x) && wg.arch_id(x) == da);
                            assert(x != e);
                        } else {
                            assert(x == e);
                        }
                    }
                } else {
                    assert(ar2 == wg.arch(a));
                    assert forall|k2: int| 0 <= k2 < ar2.column_indices@.len() implies {
                        let p = #[trigger] ar2.column_indices@[k2];
                        &&& (p.0.0 as int) < w2.families@.len()
                        &&& (p.1 as int) < w2.families@[p.0.0 as int].n_cols()
                        &&& w2.families@[p.0.0 as int].col_len(p.1 as int) == ar2.entities@.len()
                    } by {
                        let p = ar2.column_indices@[k2];
                        assert(w2.families@[p.0.0 as int].cols@[p.1 as int] == wg.families@[p.0.0
                            as int].cols@[p.1 as int]);
                    }
                    assert forall|i: int| 0 <= i < ar2.entities@.len() implies {
                        let x = #[trigger] ar2.entities@[i];
                        w2.spec_alive(x) && w2.arch_id(x) == a
                    } by {
                        let x = ar2.entities@[i];
                        assert(wg.spec_alive(x) && wg.arch_id(x) == a);
                        assert(x != e);
                    }
                }
            }
            assert forall|x: Entity| #[trigger] w2.spec_alive(x) implies w2.arch_dom(
                w2.arch_id(x),
            ) && w2.arch(w2.arch_id(x)).has_entity(x) by {
                if x == e {
                    assert(w2.arch_id(e) == da);
                    assert(d_ents2.contains(e));
                } else {
                    assert(wg.spec_alive(x));
                    let a = wg.arch_id(x);
                    assert(wg.arch(a).has_entity(x));
                    if a == sa {
                        lemma_swap_removed_tracking(s.entities@, row as int, x);
                    } else if a == da {
                        assert(d_ents2.contains(x));
                    } else {
                        assert(w2.arch(a) == wg.arch(a));
                    }
                }
            }
            assert(w2.wf());
            assert(w2.arch_id(e) == da);
            assert(!w2.spec_has_component(e, ty));
            // everything else is exactly where it was
            assert forall|e2: Entity, t2: EcsTypeId|
                !(e2 == e && t2 == ty) implies (#[trigger] w2.spec_has_component(e2, t2))
                == wg.spec_has_component(e2, t2) && (wg.spec_has_component(e2, t2)
                ==> w2.component_bytes(e2, t2) == wg.component_bytes(e2, t2)) by {
                if wg.spec_alive(e2) {
                    if e2 == e {
                        assert(w2.arch(da).has_ty(t2) == d.has_ty(t2));
                        assert(d.has_ty(t2) <==> (s.has_ty(t2) && t2 != ty));
                        assert(w2.spec_has_component(e, t2) == (wg.spec_has_component(e, t2)
                            && t2 != ty));
                        if wg.spec_has_component(e, t2) && t2 != ty {
                            assert(d.has_ty(t2));
                            let j = d.ty_index(t2);
                            assert(d.column_indices@[j].0 == t2);
                            d.lemma_col_at(j);
                            let t = t2.0 as int;
                            assert(moves@[j].0 == t2 && (moves@[j].1 as int) == s.col_of(t2) && (
                            moves@[j].2 as int) == d.col_of(t2));
                            assert(t != ty.0 as int);
                            assert(w2.families@[t] == wm.families@[t]);
                            assert(wx.families@[t] == wg.families@[t]);
                            assert(wm.families@[t].cols@[(moves@[j].2) as int]@
                                == wg.families@[t].cols@[(moves@[j].2) as int]@.push(
                                wg.families@[t].cols@[(moves@[j].1) as int]@[row as int],
                            ));
                            assert(wg.families@[t].col_len(d.col_of(t2)) == d.entities@.len());
                            assert(w2.arch(da).row_of(e) == d.entities@.len()) by {
                                assert(d_ents2.index_of(e) == d.entities@.len());
                            }
                            assert(wg.arch(sa).row_of(e) == row as int);
                            assert(w2.component_bytes(e, t2) == wg.component_bytes(e, t2));
                        }
                    } else {
                        let a2 = wg.arch_id(e2);
                        assert(w2.arch_id(e2) == a2);
                        assert(w2.arch(a2).has_ty(t2) == wg.arch(a2).has_ty(t2));
                        if wg.spec_has_component(e2, t2) {
                            assert(wg.arch_ok(a2));
                            let ar = wg.arch(a2);
                            let kt = ar.ty_index(t2);
                            assert(ar.column_indices@[kt].0 == t2);
                            ar.lemma_col_at(kt);
                            let cc = ar.col_of(t2);
                            let t = t2.0 as int;
                            let j0 = ar.row_of(e2);
                            assert(ar.entities@[j0] == e2);
                            assert(ar.has_entity(e2));
                            if a2 == sa {
                                lemma_swap_removed_tracking(s.entities@, row as int, e2);
                                assert(j0 != row as int);
                                let j1 = w2.arch(sa).row_of(e2);
                                assert(wg.families@[t].col_len(cc) == n);
                                if t2 == ty {
                                    assert(cc == col as int);
                                    assert(w2.families@[t].cols@[cc]@ == swap_removed(
                                        wg.families@[t].cols@[cc]@,
                                        row as int,
                                    ));
                                } else {
                                    assert(d.has_ty(t2));
                                    let j = d.ty_index(t2);
                                    assert(d.column_indices@[j].0 == t2);
                                    d.lemma_col_at(j);
                                    assert(moves@[j].0 == t2 && (moves@[j].1 as int) == s.col_of(
                                        t2,
                                    ));
                                    assert(t != ty.0 as int);
                                    assert(w2.families@[t] == wm.families@[t]);
                                    assert(wx.families@[t] == wg.families@[t]);
                                    assert(w2.families@[t].cols@[cc]@ == swap_removed(
                                        wg.families@[t].cols@[cc]@,
                                        row as int,
                                    ));
                                }
                                if j0 == n - 1 {
                                    assert(j1 == row as int);
                                    assert(w2.families@[t].cols@[cc]@[j1]
                                        == wg.families@[t].cols@[cc]@[j0]);
                                } else {
                                    assert(j1 == j0);
                                    assert(w2.families@[t].cols@[cc]@[j1]
                                        == wg.families@[t].cols@[cc]@[j0]);
                                }
                                assert(w2.component_bytes(e2, t2) == wg.component_bytes(e2, t2));
                            } else if a2 == da {
                                assert(w2.arch(da).row_of(e2) == j0) by {
                                    assert(d.entities@.contains(e2));
                                }
                                assert(j0 < d.entities@.len());
                                assert(t2 != ty);
                                let j = d.ty_index(t2);
                                assert(d.column_indices@[j].0 == t2);
                                d.lemma_col_at(j);
                                assert((moves@[j].2 as int) == d.col_of(t2) == cc);
                                assert(t != ty.0 as int);
                                assert(w2.families@[t] == wm.families@[t]);
                                assert(wx.families@[t] == wg.families@[t]);
                                assert(wm.families@[t].cols@[cc]@ == wg.families@[t].cols@[cc]@.push(
                                    wg.families@[t].cols@[(moves@[j].1) as int]@[row as int],
                                ));
                                assert(wg.families@[t].col_len(cc) == d.entities@.len());
                                assert(w2.families@[t].cols@[cc]@[j0]
                                    == wg.families@[t].cols@[cc]@[j0]);
                                assert(w2.component_bytes(e2, t2) == wg.component_bytes(e2, t2));
                            } else {
                                assert(w2.arch(a2) == wg.arch(a2));
                                assert(w2.families@[t].cols@[cc] == wg.families@[t].cols@[cc]);
                                assert(w2.component_bytes(e2, t2) == wg.component_bytes(e2, t2));
                            }
                        }
                    }
                }
            }
            assert(w0 == *old(self));
            assert forall|e2: Entity, t2: EcsTypeId|
                !(e2 == e && t2 == ty) implies (#[trigger] w2.spec_has_component(e2, t2))
                == w0.spec_has_component(e2, t2) && (w0.spec_has_component(e2, t2)
                ==> w2.component_bytes(e2, t2) == w0.component_bytes(e2, t2)) by {
                assert(w2.spec_has_component(e2, t2) == wg.spec_has_component(e2, t2));
                assert(wg.spec_has_component(e2, t2) == w0.spec_has_component(e2, t2));
                if w0.spec_has_component(e2, t2) {
                    assert(wg.component_bytes(e2, t2) == w0.component_bytes(e2, t2));
                    assert(w2.component_bytes(e2, t2) == wg.component_bytes(e2, t2));
                }
            }
            World::lemma_same_map_except_intro(w0, w2, e, ty);
            assert(cell@ == w0.component_bytes(e, ty));
            assert forall|ty2: EcsTypeId|
                #[trigger] w2.spec_has_component(e, ty2) <==> (w0.spec_has_component(e, ty2)
                    && ty2 != ty) by {
                assert(w2.arch(da).has_ty(ty2) == d.has_ty(ty2));
                assert(w0.arch(sa) == wg.arch(sa));
            }
        }
        Some(cell)
    }

    /// A component cell is always exactly as wide as its family's cell size.
    pub proof fn lemma_component_bytes_len(self, e: Entity, ty: EcsTypeId)
        requires
            self.wf(),
            self.spec_has_component(e, ty),
        ensures
            (ty.0 as int) < self.n_types(),
            self.component_bytes(e, ty).len() == self.cell_size_of(ty),
    {
        let a = self.arch_id(e);
        assert(self.arch_ok(a));
        let ar = self.arch(a);
        let k = ar.ty_index(ty);
        assert(ar.column_indices@[k].0 == ty);
        ar.lemma_col_at(k);
        assert(ar.has_entity(e));
        let r = ar.row_of(e);
        assert(ar.entities@[r] == e);
        assert(0 <= r < ar.entities@.len());
        assert(self.families@[ty.0 as int].wf());
        assert(self.families@[ty.0 as int].col_len(ar.col_of(ty)) == ar.entities@.len());
    }

    /// Whether entity `e` carries component type `ty`; `None` for a dead or
    /// unknown entity, so the caller decides whether that is legitimate.
    pub fn has_erased(&self, e: Entity, ty: EcsTypeId) -> (r: Option<bool>)
        requires
            self.wf(),
        ensures
            r is Some <==> self.spec_alive(e),
            r is Some ==> r->0 == self.spec_has_component(e, ty),
    {
        match self.entities.meta(e) {
            None => None,
            Some(m) => {
                proof {
                    assert(self.spec_alive(e));
                }
                Some(self.archetypes[m.archetype].contains_id(ty))
            },
        }
    }

    /// A copy of the byte cell of the component of type `ty` on entity `e`,
    /// or `None` when the entity is dead or does not carry the type.
    pub fn get_erased(&self, e: Entity, ty: EcsTypeId) -> (r: Option<Vec<u8>>)
        requires
            self.wf(),
            (ty.0 as int) < self.n_types(),
        ensures
            r is Some <==> self.spec_has_component(e, ty),
            r is Some ==> r->0@ == self.component_bytes(e, ty),
    {
        let m = match self.entities.meta(e) {
            None => {
                return None;
            },
            Some(m) => m,
        };
        proof {
            assert(self.spec_alive(e));
            assert(self.arch_ok(m.archetype as int));
        }
        let col = match self.archetypes[m.archetype].column_index(ty) {
            None => {
                return None;
            },
            Some(c) => c,
        };
        let row = self.archetypes[m.archetype].get_entity_idx(e).unwrap();
        proof {
            let s = self.arch(m.archetype as int);
            s.lemma_col_at(s.ty_index(ty));
        }
        Some(self.families[ty.0].cell_cloned(col, row))
    }

    /// Drops the cell of row `row` in every listed family: the storage side
    /// of a despawn.  Each entry of `drops` is one family's type and the
    /// column to drop from.
    fn drop_row_cells(&mut self, row: usize, drops: &Vec<(EcsTypeId, usize)>)
        requires
            forall|j: int|
                0 <= j < drops@.len() ==> {
                    let m = #[trigger] drops@[j];
                    &&& (m.0.0 as int) < old(self).n_types()
                    &&& (m.1 as int) < old(self).families@[m.0.0 as int].n_cols()
                    &&& (row as int) < old(self).families@[m.0.0 as int].col_len(m.1 as int)
                },
            forall|i: int, j: int|
                0 <= i < drops@.len() && 0 <= j < drops@.len() && (#[trigger] drops@[i]).0 == (
                #[trigger] drops@[j]).0 ==> i == j,
        ensures
            final(self).entities == old(self).entities,
            final(self).archetypes == old(self).archetypes,
            final(self).id == old(self).id,
            final(self).locks == old(self).locks,
            final(self).families@.len() == old(self).families@.len(),
            forall|t: int|
                0 <= t < old(self).families@.len() && !World::drops_prefix_has(
                    drops@,
                    drops@.len() as int,
                    t,
                ) ==> #[trigger] final(self).families@[t] == old(self).families@[t],
            forall|j: int|
                0 <= j < drops@.len() ==> {
                    let m = #[trigger] drops@[j];
                    let t = m.0.0 as int;
                    let f0 = old(self).families@[t];
                    let f1 = final(self).families@[t];
                    &&& f1.cell_size == f0.cell_size
                    &&& f1.n_cols() == f0.n_cols()
                    &&& f1.cols@[m.1 as int]@ == swap_removed(f0.cols@[m.1 as int]@, row as int)
                    &&& forall|c: int|
                        0 <= c < f0.n_cols() && c != m.1 ==> (#[trigger] f1.cols@[c])
                            == f0.cols@[c]
                    &&& (f0.wf() ==> f1.wf())
                },
    {
        let ghost w0 = *self;
        let mut k: usize = 0;
        while k < drops.len()
            invariant
                0 <= k <= drops@.len(),
                forall|j: int|
                    0 <= j < drops@.len() ==> {
                        let m = #[trigger] drops@[j];
                        &&& (m.0.0 as int) < w0.n_types()
                        &&& (m.1 as int) < w0.families@[m.0.0 as int].n_cols()
                        &&& (row as int) < w0.families@[m.0.0 as int].col_len(m.1 as int)
                    },
                forall|i: int, j: int|
                    0 <= i < drops@.len() && 0 <= j < drops@.len() && (#[trigger] drops@[i]).0 == (
                    #[trigger] drops@[j]).0 ==> i == j,
                self.entities == w0.entities,
                self.archetypes == w0.archetypes,
                self.id == w0.id,
                self.locks == w0.locks,
                self.families@.len() == w0.families@.len(),
                forall|t: int|
                    0 <= t < w0.families@.len() && !World::drops_prefix_has(drops@, k as int, t)
                        ==> #[trigger] self.families@[t] == w0.families@[t],
                forall|j: int|
                    0 <= j < k ==> {
                        let m = #[trigger] drops@[j];
                        let t = m.0.0 as int;
                        let f0 = w0.families@[t];
                        let f1 = self.families@[t];
                        &&& f1.cell_size == f0.cell_size
                        &&& f1.n_cols() == f0.n_cols()
                        &&& f1.cols@[m.1 as int]@ == swap_removed(
                            f0.cols@[m.1 as int]@,
                            row as int,
                        )
                        &&& forall|c: int|
                            0 <= c < f0.n_cols() && c != m.1 ==> (#[trigger] f1.cols@[c])
                                == f0.cols@[c]
                        &&& (f0.wf() ==> f1.wf())
                    },
            decreases drops@.len() - k,
        {
            let (ty2, c) = drops[k];
            proof {
                if World::drops_prefix_has(drops@, k as int, ty2.0 as int) {
                    let j = choose|j: int|
                        0 <= j < k && ((#[trigger] drops@[j]).0).0 as int == ty2.0 as int;
                    assert((drops@[j]).0 == ty2);
                    assert(false);
                }
                assert(self.families@[ty2.0 as int] == w0.families@[ty2.0 as int]);
            }
            let ghost fams_pre = self.families@;
            let fam = &mut self.families[ty2.0];
            fam.swap_remove_drop(c, row);
            proof {
                assert(self.families@ =~= fams_pre.update(
                    ty2.0 as int,
                    self.families@[ty2.0 as int],
                ));
                assert forall|t: int|
                    0 <= t < w0.families@.len() && !World::drops_prefix_has(
                        drops@,
                        k as int + 1,
                        t,
                    ) implies #[trigger] self.families@[t] == w0.families@[t] by {
                    assert(!World::drops_prefix_has(drops@, k as int, t));
                    assert(((drops@[k as int]).0).0 as int == ty2.0 as int);
                    assert(t != ty2.0 as int);
                    assert(self.families@[t] == fams_pre[t]);
                }
                assert forall|j: int| 0 <= j < k + 1 implies {
                    let m = #[trigger] drops@[j];
                    let t = m.0.0 as int;
                    let f0 = w0.families@[t];
                    let f1 = self.families@[t];
                    &&& f1.cell_size == f0.cell_size
                    &&& f1.n_cols() == f0.n_cols()
                    &&& f1.cols@[m.1 as int]@ == swap_removed(f0.cols@[m.1 as int]@, row as int)
                    &&& forall|c2: int|
                        0 <= c2 < f0.n_cols() && c2 != m.1 ==> (#[trigger] f1.cols@[c2])
                            == f0.cols@[c2]
                    &&& (f0.wf() ==> f1.wf())
                } by {
                    if j < k {
                        assert((drops@[j]).0 != ty2);
                        assert((drops@[j]).0.0 != ty2.0);
                        assert(self.families@[(drops@[j]).0.0 as int] == fams_pre[(drops@[j]).0.0
                            as int]);
                    }
                }
            }
            k = k + 1;
        }
    }

    /// Some entry among the first `k` of `drops` names family `t`.
    pub open spec fn drops_prefix_has(drops: Seq<(EcsTypeId, usize)>, k: int, t: int) -> bool {
        exists|j: int| 0 <= j < k && ((#[trigger] drops[j]).0).0 as int == t
    }

    /// Destroys a live entity: removes it from its archetype, drops every
    /// attached component's cell, and marks the identity dead.  Despawning a
    /// dead entity is a no-op.  Despawn runs at a safe point: reservations
    /// pending at the time are folded in first with `fix_reserved`.
    #[verifier::rlimit(100)]
    pub fn despawn(&mut self, entity: Entity)
        requires
            old(self).wf(),
            old(self).entities.fixed(),
        ensures
            final(self).wf(),
            !old(self).spec_alive(entity) ==> *final(self) == *old(self),
            !final(self).spec_alive(entity),
            forall|a: int|
                final(self).arch_dom(a) ==> !(#[trigger] final(self).arch(a)).has_entity(entity),
            forall|e2: Entity|
                e2 != entity ==> final(self).spec_alive(e2) == old(self).spec_alive(e2),
            World::same_map_except_entity(*old(self), *final(self), entity),
            World::types_preserved(*old(self), *final(self)),
            World::keys_preserved(*old(self), *final(self)),
            final(self).n_archetypes() == old(self).n_archetypes(),
            final(self).id == old(self).id,
            final(self).locks == old(self).locks,
            final(self).entities.reserved_len() == old(self).entities.reserved_len(),
            final(self).entities.fixed_len() == old(self).entities.fixed_len(),
            forall|e2: Entity|
                e2 != entity && #[trigger] old(self).spec_alive(e2) ==> final(self).arch_id(e2)
                    == old(self).arch_id(e2),
            old(self).spec_alive(entity) ==> {
                let src = old(self).arch_id(entity);
                &&& final(self).arch(src).entities@ == swap_removed(
                    old(self).arch(src).entities@,
                    old(self).arch(src).row_of(entity),
                )
                &&& forall|a: int|
                    final(self).arch_dom(a) && a != src ==> final(self).arch(a).entities@ == old(self).arch(a).entities@
            },
    {
        if !self.entities.is_alive(entity) {
            proof {
                assert forall|a: int| self.arch_dom(a) implies !(#[trigger] self.arch(
                    a,
                )).has_entity(entity) by {
                    assert(self.arch_ok(a));
                    if self.arch(a).has_entity(entity) {
                        let i = choose|i: int|
                            0 <= i < self.arch(a).entities@.len() && self.arch(a).entities@[i]
                                == entity;
                        assert(self.spec_alive(self.arch(a).entities@[i]));
                    }
                }
            }
            return ;
        }
        let ghost w0 = *self;
        let meta = self.entities.meta(entity).unwrap();
        let src_a = meta.archetype;
        let ghost s = w0.arch(src_a as int);
        proof {
            assert(w0.spec_alive(entity));
            assert(w0.arch_dom(src_a as int));
            assert(w0.arch_ok(src_a as int));
        }
        let row = self.archetypes[src_a].get_entity_idx(entity).unwrap();
        let n_keys = self.archetypes[src_a].column_indices.len();
        let mut drops: Vec<(EcsTypeId, usize)> = Vec::new();
        let mut k: usize = 0;
        while k < n_keys
            invariant
                0 <= k <= n_keys,
                *self == w0,
                w0.wf(),
                w0.arch_dom(src_a as int),
                s == w0.arch(src_a as int),
                n_keys == s.column_indices@.len(),
                drops@.len() == k,
                forall|j: int| 0 <= j < k ==> #[trigger] drops@[j] == s.column_indices@[j],
            decreases n_keys - k,
        {
            let p = self.archetypes[src_a].column_indices[k];
            drops.push(p);
            k = k + 1;
        }
        proof {
            assert forall|j: int| 0 <= j < drops@.len() implies {
                let m = #[trigger] drops@[j];
                &&& (m.0.0 as int) < w0.n_types()
                &&& (m.1 as int) < w0.families@[m.0.0 as int].n_cols()
                &&& (row as int) < w0.families@[m.0.0 as int].col_len(m.1 as int)
            } by {
                assert(s.column_indices@[j] == drops@[j]);
            }
            assert forall|i: int, j: int|
                0 <= i < drops@.len() && 0 <= j < drops@.len() && (#[trigger] drops@[i]).0 == (
                #[trigger] drops@[j]).0 implies i == j by {
                assert(s.column_indices@[i].0 == s.column_indices@[j].0);
            }
        }
        self.drop_row_cells(row, &drops);
        let ghost wm = *self;
        let ea = &mut self.archetypes[src_a];
        ea.entities.swap_remove(row);
        self.entities.kill(entity);
        proof {
            let w2 = *self;
            let sa = src_a as int;
            let n = s.entities@.len() as int;
            let s_ents2 = swap_removed(s.entities@, row as int);
            assert(w2.archetypes@.len() == w0.archetypes@.len());
            assert forall|a: int|
                0 <= a < w0.archetypes@.len() implies (#[trigger] w2.arch(a)).column_indices
                == w0.arch(a).column_indices by {}
            World::lemma_keys_carry(w0, w2);
            assert(w2.arch(sa).entities@ == s_ents2);
            assert(seq_unique(s.entities@));
            lemma_swap_removed_unique(s.entities@, row as int);
            assert(s.entities@[row as int] == entity);
            // which columns moved
            assert forall|a: int, k2: int|
                w2.arch_dom(a) && a != sa && 0 <= k2 < w2.arch(a).column_indices@.len() implies {
                let p = #[trigger] w2.arch(a).column_indices@[k2];
                w2.families@[p.0.0 as int].cols@[p.1 as int] == w0.families@[p.0.0
                    as int].cols@[p.1 as int]
            } by {
                let p = w2.arch(a).column_indices@[k2];
                let t = p.0.0 as int;
                assert(w0.arch_ok(a));
                w0.arch(a).lemma_col_at(k2);
                if s.has_ty(p.0) {
                    let j = s.ty_index(p.0);
                    assert(s.column_indices@[j].0 == p.0);
                    s.lemma_col_at(j);
                    assert(drops@[j] == s.column_indices@[j]);
                    assert((drops@[j].1 as int) == s.col_of(p.0));
                    assert(s.col_of(p.0) != p.1 as int);
                } else {
                    assert(w2.families@[t] == w0.families@[t]) by {
                        if World::drops_prefix_has(drops@, drops@.len() as int, t) {
                            let j = choose|j: int|
                                0 <= j < drops@.len() && ((#[trigger] drops@[j]).0).0 as int == t;
                            s.lemma_col_at(j);
                            assert(s.has_ty(drops@[j].0));
                            assert(drops@[j].0 == p.0);
                        }
                    }
                }
            }
            // row alignment and member consistency
            assert forall|a: int| w2.arch_dom(a) implies #[trigger] w2.arch_ok(a) by {
                assert(w0.arch_ok(a));
                let ar2 = w2.arch(a);
                assert(ar2.column_indices@ == w0.arch(a).column_indices@);
                if a == sa {
                    assert(ar2.entities_unique());
                    assert forall|k2: int| 0 <= k2 < ar2.column_indices@.len() implies {
                        let p = #[trigger] ar2.column_indices@[k2];
                        &&& (p.0.0 as int) < w2.families@.len()
                        &&& (p.1 as int) < w2.families@[p.0.0 as int].n_cols()
                        &&& w2.families@[p.0.0 as int].col_len(p.1 as int) == ar2.entities@.len()
                    } by {
                        let p = ar2.column_indices@[k2];
                        assert(drops@[k2] == s.column_indices@[k2]);
                        assert(w2.families@[p.0.0 as int].cols@[p.1 as int]@ == swap_removed(
                            w0.families@[p.0.0 as int].cols@[p.1 as int]@,
                            row as int,
                        ));
                    }
                    assert forall|i: int| 0 <= i < ar2.entities@.len() implies {
                        let x = #[trigger] ar2.entities@[i];
                        w2.spec_alive(x) && w2.arch_id(x) == a
                    } by {
                        let x = ar2.entities@[i];
                        assert(s_ents2.contains(x));
                        assert(s.entities@.contains(x) && x != entity);
                        assert(w0.spec_alive(x) && w0.arch_id(x) == sa);
                    }
                } else {
                    assert(ar2 == w0.arch(a));
                    assert forall|k2: int| 0 <= k2 < ar2.column_indices@.len() implies {
                        let p = #[trigger] ar2.column_indices@[k2];
                        &&& (p.0.0 as int) < w2.families@.len()
                        &&& (p.1 as int) < w2.families@[p.0.0 as int].n_cols()
                        &&& w2.families@[p.0.0 as int].col_len(p.1 as int) == ar2.entities@.len()
                    } by {
                        let p = ar2.column_indices@[k2];
                        assert(w2.families@[p.0.0 as int].cols@[p.1 as int] == w0.families@[p.0.0
                            as int].cols@[p.1 as int]);
                    }
                    assert forall|i: int| 0 <= i < ar2.entities@.len() implies {
                        let x = #[trigger] ar2.entities@[i];
                        w2.spec_alive(x) && w2.arch_id(x) == a
                    } by {
                        let x = ar2.entities@[i];
                        assert(w0.spec_alive(x) && w0.arch_id(x) == a);
                        assert(x != entity);
                    }
                }
            }
            assert forall|x: Entity| #[trigger] w2.spec_alive(x) implies w2.arch_dom(
                w2.arch_id(x),
            ) && w2.arch(w2.arch_id(x)).has_entity(x) by {
                assert(x != entity);
                assert(w0.spec_alive(x));
                let a = w0.arch_id(x);
                assert(w0.arch(a).has_entity(x));
                if a == sa {
                    lemma_swap_removed_tracking(s.entities@, row as int, x);
                } else {
                    assert(w2.arch(a) == w0.arch(a));
                }
            }
            assert(w2.wf());
            // the despawned entity is gone from every member list
            assert forall|a: int| w2.arch_dom(a) implies !(#[trigger] w2.arch(a)).has_entity(
                entity,
            ) by {
                if a == sa {
                    if s_ents2.contains(entity) {
                        assert(s.entities@.contains(entity) && entity != s.entities@[row as int]);
                    }
                } else {
                    assert(w2.arch(a) == w0.arch(a));
                    if w0.arch(a).has_entity(entity) {
                        assert(w0.arch_ok(a));
                        let i = choose|i: int|
                            0 <= i < w0.arch(a).entities@.len() && w0.arch(a).entities@[i]
                                == entity;
                        assert(w0.arch_id(w0.arch(a).entities@[i]) == a);
                    }
                }
            }
            // everything else is exactly where it was
            assert forall|e2: Entity, t2: EcsTypeId|
                e2 != entity implies (#[trigger] w2.spec_has_component(e2, t2))
                == w0.spec_has_component(e2, t2) && (w0.spec_has_component(e2, t2)
                ==> w2.component_bytes(e2, t2) == w0.component_bytes(e2, t2)) by {
                if w0.spec_alive(e2) {
                    let a2 = w0.arch_id(e2);
                    assert(w2.arch_id(e2) == a2);
                    assert(w2.arch(a2).has_ty(t2) == w0.arch(a2).has_ty(t2));
                    if w0.spec_has_component(e2, t2) {
                        assert(w0.arch_ok(a2));
                        let ar = w0.arch(a2);
                        let kt = ar.ty_index(t2);
                        assert(ar.column_indices@[kt].0 == t2);
                        ar.lemma_col_at(kt);
                        let cc = ar.col_of(t2);
                        let t = t2.0 as int;
                        let j0 = ar.row_of(e2);
                        assert(ar.entities@[j0] == e2);
                        assert(ar.has_entity(e2));
                        if a2 == sa {
                            lemma_swap_removed_tracking(s.entities@, row as int, e2);
                            assert(j0 != row as int);
                            let j1 = w2.arch(sa).row_of(e2);
                            assert(s.column_indices@[kt] == drops@[kt]);
                            assert((drops@[kt].1 as int) == cc);
                            assert(w2.families@[t].cols@[cc]@ == swap_removed(
                                w0.families@[t].cols@[cc]@,
                                row as int,
                            ));
                            assert(w0.families@[t].col_len(cc) == n);
                            if j0 == n - 1 {
                                assert(j1 == row as int);
                                assert(w2.families@[t].cols@[cc]@[j1]
                                    == w0.families@[t].cols@[cc]@[j0]);
                            } else {
                                assert(j1 == j0);
                                assert(w2.families@[t].cols@[cc]@[j1]
                                    == w0.families@[t].cols@[cc]@[j0]);
                            }
                            assert(w2.component_bytes(e2, t2) == w0.component_bytes(e2, t2));
                        } else {
                            assert(w2.arch(a2) == w0.arch(a2));
                            assert(w2.families@[t].cols@[cc] == w0.families@[t].cols@[cc]);
                            assert(w2.component_bytes(e2, t2) == w0.component_bytes(e2, t2));
                        }
                    }
                }
            }
        }
    }

    /// Finds or creates the archetype an entity of archetype `archetype`
    /// moves to when component type `inserted` is added.
    pub fn get_or_insert_archetype_from_insert(&mut self, archetype: usize, inserted: EcsTypeId)
        -> (r: usize)
        requires
            old(self).wf(),
            old(self).arch_dom(archetype as int),
            !old(self).arch(archetype as int).has_ty(inserted),
            (inserted.0 as int) < old(self).n_types(),
        ensures
            final(self).wf(),
            final(self).arch_dom(r as int),
            r != archetype,
            World::archs_prefix_eq(*old(self), *final(self)),
            World::families_extend(*old(self), *final(self)),
            World::same_map(*old(self), *final(self)),
            World::alive_same(*old(self), *final(self)),
            final(self).entities == old(self).entities,
            final(self).id == old(self).id,
            final(self).locks == old(self).locks,
            final(self).n_archetypes() == old(self).n_archetypes() || final(self).n_archetypes()
                == old(self).n_archetypes() + 1,
            final(self).n_archetypes() == old(self).n_archetypes() ==> (r as int) < old(self).n_archetypes(),
            final(self).n_archetypes() == old(self).n_archetypes() + 1 ==> (r as int) == old(self).n_archetypes() && final(self).arch(r as int).entities@.len() == 0,
            forall|ty2: EcsTypeId|
                final(self).arch(r as int).has_ty(ty2) <==> (old(self).arch(
                    archetype as int,
                ).has_ty(ty2) || ty2 == inserted),
            forall|e2: Entity|
                #[trigger] old(self).spec_alive(e2) ==> final(self).arch_id(e2) == old(self).arch_id(e2),
    {
        let ghost w0 = *self;
        let mut ids: Vec<EcsTypeId> = Vec::new();
        let n_keys = self.archetypes[archetype].column_indices.len();
        let mut k: usize = 0;
        while k < n_keys
            invariant
                0 <= k <= n_keys,
                *self == w0,
                w0.wf(),
                w0.arch_dom(archetype as int),
                n_keys == w0.arch(archetype as int).column_indices@.len(),
                ids@.len() == k,
                forall|j: int|
                    0 <= j < k ==> #[trigger] ids@[j] == w0.arch(
                        archetype as int,
                    ).column_indices@[j].0,
            decreases n_keys - k,
        {
            let ty = self.archetypes[archetype].column_indices[k].0;
            ids.push(ty);
            k = k + 1;
        }
        ids.push(inserted);
        let ghost src = w0.arch(archetype as int);
        proof {
            assert(w0.arch_ok(archetype as int));
            assert(ids@.len() == n_keys + 1);
            assert forall|ty2: EcsTypeId| ids@.contains(ty2) implies (src.has_ty(ty2) || ty2
                == inserted) by {
                let j = ids@.index_of(ty2);
                if j < n_keys {
                    assert(src.column_indices@[j].0 == ty2);
                }
            }
            assert forall|ty2: EcsTypeId| src.has_ty(ty2) implies ids@.contains(ty2) by {
                let j = choose|j: int|
                    0 <= j < src.column_indices@.len() && (#[trigger] src.column_indices@[j]).0
                        == ty2;
                assert(ids@[j] == ty2);
            }
            assert(ids@[n_keys as int] == inserted);
            assert(ids@.contains(inserted));
            assert forall|i: int, j: int|
                0 <= i < ids@.len() && 0 <= j < ids@.len() && #[trigger] ids@[i]
                    == #[trigger] ids@[j] implies i == j by {
                if i < n_keys && j < n_keys {
                    assert(src.column_indices@[i].0 == src.column_indices@[j].0);
                } else if i < n_keys && j == n_keys {
                    assert(src.has_ty(ids@[i]));
                } else if j < n_keys && i == n_keys {
                    assert(src.has_ty(ids@[j]));
                }
            }
            assert forall|j: int| 0 <= j < ids@.len() implies (#[trigger] ids@[j]).0
                < w0.n_types() by {
                if j < n_keys {
                    assert(src.column_indices@[j].0 == ids@[j]);
                }
            }
        }
        let found = self.find_archetype_from_ids(&ids);
        match found {
            Some(a) => {
                proof {
                    World::lemma_extend_same_map(w0, *self);
                    assert(self.arch(a as int).has_ty(inserted));
                    if a == archetype {
                        assert(src.has_ty(inserted));
                    }
                }
                a
            },
            None => {
                let a = self.push_archetype(ids);
                proof {
                    assert(self.arch(a as int).has_ty(inserted));
                    if a == archetype {
                        assert(w0.arch(archetype as int) == self.arch(archetype as int));
                    }
                }
                a
            },
        }
    }

    /// Finds or creates the archetype an entity of archetype `archetype`
    /// moves to when component type `removed` is taken away.
    pub fn get_or_insert_archetype_from_remove(&mut self, archetype: usize, removed: EcsTypeId)
        -> (r: usize)
        requires
            old(self).wf(),
            old(self).arch_dom(archetype as int),
            old(self).arch(archetype as int).has_ty(removed),
        ensures
            final(self).wf(),
            final(self).arch_dom(r as int),
            r != archetype,
            World::archs_prefix_eq(*old(self), *final(self)),
            World::families_extend(*old(self), *final(self)),
            World::same_map(*old(self), *final(self)),
            World::alive_same(*old(self), *final(self)),
            final(self).entities == old(self).entities,
            final(self).id == old(self).id,
            final(self).locks == old(self).locks,
            final(self).n_archetypes() == old(self).n_archetypes() || final(self).n_archetypes()
                == old(self).n_archetypes() + 1,
            final(self).n_archetypes() == old(self).n_archetypes() ==> (r as int) < old(self).n_archetypes(),
            final(self).n_archetypes() == old(self).n_archetypes() + 1 ==> (r as int) == old(self).n_archetypes() && final(self).arch(r as int).entities@.len() == 0,
            forall|ty2: EcsTypeId|
                final(self).arch(r as int).has_ty(ty2) <==> (old(self).arch(
                    archetype as int,
                ).has_ty(ty2) && ty2 != removed),
            forall|e2: Entity|
                #[trigger] old(self).spec_alive(e2) ==> final(self).arch_id(e2) == old(self).arch_id(e2),
    {
        let ghost w0 = *self;
        let mut ids: Vec<EcsTypeId> = Vec::new();
        let n_keys = self.archetypes[archetype].column_indices.len();
        let mut k: usize = 0;
        while k < n_keys
            invariant
                0 <= k <= n_keys,
                *self == w0,
                w0.wf(),
                w0.arch_dom(archetype as int),
                n_keys == w0.arch(archetype as int).column_indices@.len(),
                forall|j: int|
                    0 <= j < ids@.len() ==> w0.arch(archetype as int).has_ty(#[trigger] ids@[j])
                        && ids@[j] != removed,
                forall|j: int|
                    0 <= j < k ==> ((#[trigger] w0.arch(archetype as int).column_indices@[j]).0
                        != removed ==> ids@.contains(
                        w0.arch(archetype as int).column_indices@[j].0,
                    )),
                forall|i: int, j: int|
                    0 <= i < ids@.len() && 0 <= j < ids@.len() && #[trigger] ids@[i]
                        == #[trigger] ids@[j] ==> i == j,
            decreases n_keys - k,
        {
            let ty = self.archetypes[archetype].column_indices[k].0;
            if ty != removed {
                proof {
                    assert(w0.arch_ok(archetype as int));
                    let src = w0.arch(archetype as int);
                    src.lemma_col_at(k as int);
                    if ids@.contains(ty) {
                        let j = ids@.index_of(ty);
                        assert(src.has_ty(ids@[j]));
                    }
                    assert(src.has_ty(ty));
                }
                if !World::ids_contain(&ids, ty) {
                    let ghost ids_pre = ids@;
                    ids.push(ty);
                    proof {
                        assert(ids@[ids_pre.len() as int] == ty);
                        assert(ids@.contains(ty));
                        assert forall|x: EcsTypeId| ids_pre.contains(x) implies ids@.contains(
                            x,
                        ) by {
                            let j = ids_pre.index_of(x);
                            assert(ids@[j] == x);
                        }
                    }
                }
            }
            k = k + 1;
        }
        let ghost src = w0.arch(archetype as int);
        proof {
            assert(w0.arch_ok(archetype as int));
            assert forall|ty2: EcsTypeId| ids@.contains(ty2) implies (src.has_ty(ty2) && ty2
                != removed) by {
                let j = ids@.index_of(ty2);
                assert(src.has_ty(ids@[j]));
            }
            assert forall|ty2: EcsTypeId| src.has_ty(ty2) && ty2 != removed implies ids@.contains(
                ty2,
            ) by {
                let j = choose|j: int|
                    0 <= j < src.column_indices@.len() && (#[trigger] src.column_indices@[j]).0
                        == ty2;
                assert(src.column_indices@[j].0 != removed);
            }
            assert forall|j: int| 0 <= j < ids@.len() implies (#[trigger] ids@[j]).0
                < w0.n_types() by {
                let ty2 = ids@[j];
                let k2 = src.ty_index(ty2);
                assert(src.column_indices@[k2].0 == ty2);
            }
        }
        let found = self.find_archetype_from_ids(&ids);
        match found {
            Some(a) => {
                proof {
                    World::lemma_extend_same_map(w0, *self);
                    if a == archetype {
                        assert(self.arch(a as int).has_exactly(ids@));
                        assert(!ids@.contains(removed));
                        assert(src.has_ty(removed));
                        assert(false);
                    }
                }
                a
            },
            None => {
                let a = self.push_archetype(ids);
                proof {
                    if a == archetype {
                        assert(w0.arch(archetype as int) == self.arch(archetype as int));
                        assert(self.arch(a as int).has_ty(removed));
                        assert(!ids@.contains(removed));
                        assert(false);
                    }
                }
                a
            },
        }
    }
}

} // verus!
