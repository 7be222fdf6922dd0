//! Archetypes: groups of entities that carry exactly the same set of
//! component types, with a mapping from each type to the column that stores
//! it for this group.

use vstd::prelude::*;

use crate::entities::Entity;

verus! {

/// A dense integer handle for a component type within one store.
#[derive(Debug, Clone, Copy, PartialEq, Eq, Hash, Structural)]
pub struct EcsTypeId(pub usize);

/// One group: the member entities, in row order, and for every component
/// type of the group the index of its column inside that type's storage.
pub struct Archetype {
    pub entities: Vec<Entity>,
    pub column_indices: Vec<(EcsTypeId, usize)>,
}

impl Archetype {
    /// The group carries component type `ty`.
    pub open spec fn has_ty(self, ty: EcsTypeId) -> bool {
        exists|k: int|
            0 <= k < self.column_indices@.len() && (#[trigger] self.column_indices@[k]).0 == ty
    }

    /// The position of `ty` in the column map.
    pub open spec fn ty_index(self, ty: EcsTypeId) -> int {
        choose|k: int|
            0 <= k < self.column_indices@.len() && (#[trigger] self.column_indices@[k]).0 == ty
    }

    /// The column that stores `ty` for this group.
    pub open spec fn col_of(self, ty: EcsTypeId) -> int {
        self.column_indices@[self.ty_index(ty)].1 as int
    }

    /// No component type appears twice in the column map.
    pub open spec fn keys_unique(self) -> bool {
        forall|k1: int, k2: int|
            0 <= k1 < self.column_indices@.len() && 0 <= k2 < self.column_indices@.len() && (
            #[trigger] self.column_indices@[k1]).0 == (#[trigger] self.column_indices@[k2]).0
                ==> k1 == k2
    }

    /// No entity appears twice in the member list.
    pub open spec fn entities_unique(self) -> bool {
        forall|i: int, j: int|
            0 <= i < self.entities@.len() && 0 <= j < self.entities@.len()
                && #[trigger] self.entities@[i] == #[trigger] self.entities@[j] ==> i == j
    }

    /// The group holds entity `e`.
    pub open spec fn has_entity(self, e: Entity) -> bool {
        self.entities@.contains(e)
    }

    /// The row of entity `e` inside this group.
    pub open spec fn row_of(self, e: Entity) -> int {
        self.entities@.index_of(e)
    }

    /// Two groups carry exactly the same component types.
    pub open spec fn same_keys(self, other: Archetype) -> bool {
        forall|ty: EcsTypeId| #[trigger] self.has_ty(ty) <==> #[trigger] other.has_ty(ty)
    }

    /// The group carries exactly the types listed in `ids`.
    pub open spec fn has_exactly(self, ids: Seq<EcsTypeId>) -> bool {
        forall|ty: EcsTypeId| #[trigger] self.has_ty(ty) <==> ids.contains(ty)
    }

    /// Pins `col_of` down: with unique keys, any entry for `ty` is the one
    /// entry that `col_of` reads.
    pub proof fn lemma_col_at(self, k: int)
        requires
            self.keys_unique(),
            0 <= k < self.column_indices@.len(),
        ensures
            self.has_ty(self.column_indices@[k].0),
            self.ty_index(self.column_indices@[k].0) == k,
            self.col_of(self.column_indices@[k].0) == self.column_indices@[k].1,
    {
        let ty = self.column_indices@[k].0;
        assert(self.has_ty(ty));
        let k2 = self.ty_index(ty);
        assert(self.column_indices@[k2].0 == ty);
    }

    /// Pins `row_of` down: with unique members, any position of `e` is the
    /// one that `row_of` reads.
    pub proof fn lemma_row_at(self, i: int)
        requires
            self.entities_unique(),
            0 <= i < self.entities@.len(),
        ensures
            self.has_entity(self.entities@[i]),
            self.row_of(self.entities@[i]) == i,
    {
        let e = self.entities@[i];
        assert(self.entities@.contains(e));
        let j = self.entities@.index_of(e);
        assert(self.entities@[j] == e);
    }

    pub fn contains_id(&self, id: EcsTypeId) -> (r: bool)
        ensures
            r == self.has_ty(id),
    {
        let mut k: usize = 0;
        while k < self.column_indices.len()
            invariant
                0 <= k <= self.column_indices@.len(),
                forall|j: int| 0 <= j < k ==> (#[trigger] self.column_indices@[j]).0 != id,
            decreases self.column_indices@.len() - k,
        {
            if self.column_indices[k].0 == id {
                return true;
            }
            k = k + 1;
        }
        false
    }

    /// The column index of `id` in this group, or `None` if the group does
    /// not carry it.
    pub fn column_index(&self, id: EcsTypeId) -> (r: Option<usize>)
        ensures
            r is Some <==> self.has_ty(id),
            r is Some && self.keys_unique() ==> r->0 == self.col_of(id),
    {
        let mut k: usize = 0;
        while k < self.column_indices.len()
            invariant
                0 <= k <= self.column_indices@.len(),
                forall|j: int| 0 <= j < k ==> (#[trigger] self.column_indices@[j]).0 != id,
            decreases self.column_indices@.len() - k,
        {
            let (ty, col) = self.column_indices[k];
            if ty == id {
                proof {
                    if self.keys_unique() {
                        self.lemma_col_at(k as int);
                    }
                }
                return Some(col);
            }
            k = k + 1;
        }
        None
    }

    /// The row of `entity` inside this group, by linear search.
    pub fn get_entity_idx(&self, entity: Entity) -> (r: Option<usize>)
        ensures
            r is Some <==> self.has_entity(entity),
            r is Some ==> r->0 < self.entities@.len() && self.entities@[r->0 as int] == entity,
            r is Some && self.entities_unique() ==> r->0 == self.row_of(entity),
    {
        let mut i: usize = 0;
        while i < self.entities.len()
            invariant
                0 <= i <= self.entities@.len(),
                forall|j: int| 0 <= j < i ==> self.entities@[j] != entity,
            decreases self.entities@.len() - i,
        {
            if self.entities[i] == entity {
                proof {
                    if self.entities_unique() {
                        self.lemma_row_at(i as int);
                    }
                }
                return Some(i);
            }
            i = i + 1;
        }
        None
    }
}

} // verus!
