//! The entity allocator: issues stable integer identities and tracks, for
//! each live identity, which archetype currently holds it.

use vstd::prelude::*;

verus! {

/// A stable integer identity for one row of the store.
#[derive(Debug, Clone, Copy, PartialEq, Eq, Hash, Structural)]
pub struct Entity(pub usize);

/// Per-entity bookkeeping: the index of the archetype the entity lives in.
#[derive(Debug, Clone, Copy, PartialEq, Eq, Structural)]
pub struct EntityMeta {
    pub archetype: usize,
}

/// The allocator itself: a monotone counter of reserved identities and the
/// metadata of every identity that has been fixed up so far.  A `None` entry
/// is a despawned identity.
pub struct Entities {
    pub reserved: usize,
    pub metas: Vec<Option<EntityMeta>>,
}

impl Entities {
    /// The identity `e` is alive: it has been fixed up and not despawned.
    pub open spec fn spec_alive(self, e: Entity) -> bool {
        e.0 < self.metas@.len() && self.metas@[e.0 as int] is Some
    }

    /// The metadata of a live identity.
    pub open spec fn spec_meta(self, e: Entity) -> EntityMeta {
        self.metas@[e.0 as int]->0
    }

    /// How many identities have been fixed up (dead ones included).
    pub open spec fn fixed_len(self) -> nat {
        self.metas@.len()
    }

    /// How many identities have been reserved so far.
    pub open spec fn reserved_len(self) -> nat {
        self.reserved as nat
    }

    /// Every reserved identity has been fixed up.
    pub open spec fn fixed(self) -> bool {
        self.reserved == self.metas@.len()
    }

    pub open spec fn wf(self) -> bool {
        self.metas@.len() <= self.reserved
    }

    pub fn new() -> (r: Self)
        ensures
            r.wf(),
            r.fixed(),
            r.reserved_len() == 0,
            forall|e: Entity| !r.spec_alive(e),
    {
        Entities { reserved: 0, metas: Vec::new() }
    }

    /// Hands out the next identity without touching any archetype state.
    /// The identity is not alive until the next fix-up.
    pub fn reserve_entity(&mut self) -> (e: Entity)
        requires
            old(self).wf(),
            old(self).reserved_len() < usize::MAX,
        ensures
            final(self).wf(),
            e.0 == old(self).reserved_len(),
            final(self).reserved_len() == old(self).reserved_len() + 1,
            final(self).metas@ == old(self).metas@,
            !final(self).fixed(),
    {
        let id = self.reserved;
        self.reserved = self.reserved + 1;
        Entity(id)
    }

    /// Walks every identity reserved since the last fix-up, gives each the
    /// default metadata (the empty archetype), and returns them so that the
    /// caller can enter them into that archetype's entity list.
    pub fn fix_reserved_entities(&mut self) -> (fixed: Vec<Entity>)
        requires
            old(self).wf(),
        ensures
            final(self).wf(),
            final(self).fixed(),
            final(self).reserved_len() == old(self).reserved_len(),
            fixed@.len() == old(self).reserved_len() - old(self).fixed_len(),
            forall|k: int|
                0 <= k < fixed@.len() ==> fixed@[k] == Entity(
                    (old(self).fixed_len() + k) as usize,
                ),
            forall|k: int|
                0 <= k < fixed@.len() ==> final(self).spec_alive(#[trigger] fixed@[k])
                    && final(self).spec_meta(fixed@[k]) == (EntityMeta { archetype: 0 }),
            final(self).metas@.len() == old(self).metas@.len() + fixed@.len(),
            forall|i: int| 0 <= i < old(self).metas@.len() ==> final(self).metas@[i] == old(self).metas@[i],
            forall|i: int|
                old(self).metas@.len() <= i < final(self).metas@.len() ==> final(self).metas@[i] == Some(
                    EntityMeta { archetype: 0 },
                ),
    {
        let mut fixed: Vec<Entity> = Vec::new();
        let ghost old_len = self.metas@.len();
        while self.metas.len() < self.reserved
            invariant
                self.reserved == old(self).reserved,
                old_len <= self.metas@.len() <= self.reserved,
                fixed@.len() == self.metas@.len() - old_len,
                forall|k: int|
                    0 <= k < fixed@.len() ==> fixed@[k] == Entity((old_len + k) as usize),
                forall|i: int| 0 <= i < old_len ==> self.metas@[i] == old(self).metas@[i],
                forall|i: int|
                    old_len <= i < self.metas@.len() ==> self.metas@[i] == Some(
                        EntityMeta { archetype: 0 },
                    ),
            decreases self.reserved - self.metas.len(),
        {
            let id = self.metas.len();
            fixed.push(Entity(id));
            self.metas.push(Some(EntityMeta { archetype: 0 }));
        }
        fixed
    }

    pub fn is_alive(&self, entity: Entity) -> (r: bool)
        ensures
            r == self.spec_alive(entity),
    {
        if entity.0 < self.metas.len() {
            self.metas[entity.0].is_some()
        } else {
            false
        }
    }

    /// The archetype-membership lookup; `None` for a dead or unknown
    /// identity, so that the caller decides whether that is legitimate.
    pub fn meta(&self, entity: Entity) -> (r: Option<EntityMeta>)
        ensures
            r is Some <==> self.spec_alive(entity),
            r is Some ==> r->0 == self.spec_meta(entity),
    {
        if entity.0 < self.metas.len() {
            self.metas[entity.0]
        } else {
            None
        }
    }

    /// Points a live identity at a new archetype.
    pub fn set_archetype(&mut self, entity: Entity, archetype: usize)
        requires
            old(self).wf(),
            old(self).spec_alive(entity),
        ensures
            final(self).wf(),
            final(self).reserved_len() == old(self).reserved_len(),
            final(self).metas@ == old(self).metas@.update(
                entity.0 as int,
                Some(EntityMeta { archetype }),
            ),
            final(self).fixed() == old(self).fixed(),
    {
        self.metas[entity.0] = Some(EntityMeta { archetype });
    }

    /// Marks a live identity dead.  Its index is never reused.
    pub fn kill(&mut self, entity: Entity)
        requires
            old(self).wf(),
            old(self).spec_alive(entity),
        ensures
            final(self).wf(),
            final(self).reserved_len() == old(self).reserved_len(),
            final(self).metas@ == old(self).metas@.update(entity.0 as int, None::<EntityMeta>),
            final(self).fixed() == old(self).fixed(),
    {
        self.metas[entity.0] = None;
    }

    /// Fixes up the oldest pending reservation, if any: gives it the default
    /// metadata (the empty archetype) and hands it back so that the caller
    /// can enter it into that archetype's entity list.
    pub fn fix_one(&mut self) -> (r: Option<Entity>)
        requires
            old(self).wf(),
        ensures
            final(self).wf(),
            final(self).reserved_len() == old(self).reserved_len(),
            old(self).fixed() ==> r is None && *final(self) == *old(self),
            !old(self).fixed() ==> {
                &&& r is Some
                &&& r->0 == Entity(old(self).fixed_len() as usize)
                &&& final(self).metas@ == old(self).metas@.push(
                    Some(EntityMeta { archetype: 0 }),
                )
                &&& final(self).spec_alive(r->0)
                &&& final(self).spec_meta(r->0) == (EntityMeta { archetype: 0 })
            },
    {
        if self.metas.len() < self.reserved {
            let id = self.metas.len();
            self.metas.push(Some(EntityMeta { archetype: 0 }));
            Some(Entity(id))
        } else {
            None
        }
    }

    /// Reserves one identity and fixes it up at once.
    pub fn spawn(&mut self) -> (e: Entity)
        requires
            old(self).wf(),
            old(self).fixed(),
            old(self).reserved_len() < usize::MAX,
        ensures
            final(self).wf(),
            final(self).fixed(),
            e.0 == old(self).fixed_len(),
            final(self).metas@ == old(self).metas@.push(Some(EntityMeta { archetype: 0 })),
            final(self).spec_alive(e),
            final(self).spec_meta(e) == (EntityMeta { archetype: 0 }),
            forall|e2: Entity| e2 != e ==> final(self).spec_alive(e2) == old(self).spec_alive(e2),
            forall|e2: Entity|
                e2 != e && old(self).spec_alive(e2) ==> final(self).spec_meta(e2) == old(self).spec_meta(
                    e2,
                ),
    {
        let e = self.reserve_entity();
        let fixed = self.fix_reserved_entities();
        assert(self.metas@ =~= old(self).metas@.push(Some(EntityMeta { archetype: 0 })));
        e
    }
}

} // verus!
