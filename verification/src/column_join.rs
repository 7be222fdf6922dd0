//! Composable query terms: every handle and marker that can stand in a
//! query shape knows which term it contributes, and a join materializes the
//! matching rows directly from a shared borrow of the store.

use vstd::prelude::*;

use crate::component::Component;
use crate::dynamic_storage::DynamicTable;
use crate::query::query_rows;
use crate::query::rows_model;
use crate::query::run_query;
use crate::query::terms_valid;
use crate::query::DynQueryParam;
use crate::query::QueryItem;
use crate::query::QueryTerm;
use crate::static_columns::Table;
use crate::world::World;

verus! {

/// Anything that can stand as one term of a query shape.
pub trait QueryParam {
    /// The term this value contributes.
    spec fn spec_term(self) -> QueryTerm;

    fn term(&self) -> (r: QueryTerm)
        ensures
            r == self.spec_term(),
    ;
}

/// Yields the entity id of every visited row; matches every archetype.
pub struct WithEntities;

impl QueryParam for WithEntities {
    open spec fn spec_term(self) -> QueryTerm {
        QueryTerm::EntityId
    }

    fn term(&self) -> QueryTerm {
        QueryTerm::EntityId
    }
}

/// Wraps a column term so that it matches every archetype, yielding its item
/// only where the column is present.
pub struct Maybe(pub QueryTerm);

impl QueryParam for Maybe {
    open spec fn spec_term(self) -> QueryTerm {
        match self.0 {
            QueryTerm::Read(id) => QueryTerm::MaybeRead(id),
            QueryTerm::Write(id) => QueryTerm::MaybeRead(id),
            t => t,
        }
    }

    fn term(&self) -> QueryTerm {
        match self.0 {
            QueryTerm::Read(id) => QueryTerm::MaybeRead(id),
            QueryTerm::Write(id) => QueryTerm::MaybeRead(id),
            t => t,
        }
    }
}

/// Inverts a column term: matches only the archetypes where the column is
/// absent, yielding a unit item.
pub struct Unsatisfied(pub QueryTerm);

impl QueryParam for Unsatisfied {
    open spec fn spec_term(self) -> QueryTerm {
        match self.0 {
            QueryTerm::Read(id) => QueryTerm::Without(id),
            QueryTerm::Write(id) => QueryTerm::Without(id),
            QueryTerm::MaybeRead(id) => QueryTerm::Without(id),
            t => t,
        }
    }

    fn term(&self) -> QueryTerm {
        match self.0 {
            QueryTerm::Read(id) => QueryTerm::Without(id),
            QueryTerm::Write(id) => QueryTerm::Without(id),
            QueryTerm::MaybeRead(id) => QueryTerm::Without(id),
            t => t,
        }
    }
}

impl QueryParam for DynQueryParam {
    open spec fn spec_term(self) -> QueryTerm {
        DynQueryParam::spec_term(self)
    }

    fn term(&self) -> QueryTerm {
        match self.kind {
            crate::query::DynQueryParamKind::Ref => QueryTerm::Read(self.id),
            crate::query::DynQueryParamKind::Mut => QueryTerm::Write(self.id),
        }
    }
}

impl<T: Component> Table<T> {
    /// A shared-borrow query term for this column family, bound to the store
    /// that created the handle: a handle of another store is rejected here,
    /// before any row is read.
    pub fn term(&self, world: &World) -> (r: QueryTerm)
        requires
            self.valid_for(*world),
        ensures
            r == QueryTerm::Read(self.id),
            crate::query::term_valid(r, *world),
    {
        QueryTerm::Read(self.id)
    }

    /// An exclusive-borrow query term for this column family, bound to the
    /// store that created the handle.
    pub fn term_mut(&self, world: &World) -> (r: QueryTerm)
        requires
            self.valid_for(*world),
        ensures
            r == QueryTerm::Write(self.id),
            crate::query::term_valid(r, *world),
    {
        QueryTerm::Write(self.id)
    }
}

impl DynamicTable {
    /// A shared-borrow query term for this column family, bound to the store
    /// that created the handle.
    pub fn term(&self, world: &World) -> (r: QueryTerm)
        requires
            self.valid_for(*world),
        ensures
            r == QueryTerm::Read(self.id),
            crate::query::term_valid(r, *world),
    {
        QueryTerm::Read(self.id)
    }

    /// An exclusive-borrow query term for this column family, bound to the
    /// store that created the handle.
    pub fn term_mut(&self, world: &World) -> (r: QueryTerm)
        requires
            self.valid_for(*world),
        ensures
            r == QueryTerm::Write(self.id),
            crate::query::term_valid(r, *world),
    {
        QueryTerm::Write(self.id)
    }
}

/// A materialized join: the rows every given term matched, in archetype
/// creation order, handed out front to back.
pub struct ColumnIterator {
    pub rows: Vec<Vec<QueryItem>>,
}

impl ColumnIterator {
    /// Materializes the join of the given terms over the store.
    pub fn new(joined: Vec<QueryTerm>, world: &World) -> (it: ColumnIterator)
        requires
            world.wf(),
            terms_valid(joined@, *world),
        ensures
            rows_model(it.rows@) == query_rows(*world, joined@),
    {
        let rows = run_query(world, &joined);
        ColumnIterator { rows }
    }

    /// The next row, front to back; `None` once every row is spent.
    pub fn next(&mut self) -> (r: Option<Vec<QueryItem>>)
        ensures
            old(self).rows@.len() == 0 ==> r is None && final(self).rows@ == old(self).rows@,
            old(self).rows@.len() > 0 ==> r == Some(old(self).rows@[0]) && final(self).rows@
                == old(self).rows@.drop_first(),
    {
        if self.rows.len() == 0 {
            None
        } else {
            let row = self.rows.remove(0);
            proof {
                assert(final(self).rows@ =~= old(self).rows@.drop_first());
            }
            Some(row)
        }
    }
}

impl World {
    /// Joins the given terms over this store, without recording borrows: the
    /// rows are copied out under the shared borrow of the store itself.
    pub fn join(&self, joinables: Vec<QueryTerm>) -> (it: ColumnIterator)
        requires
            self.wf(),
            terms_valid(joinables@, *self),
        ensures
            rows_model(it.rows@) == query_rows(*self, joinables@),
    {
        ColumnIterator::new(joinables, self)
    }
}

} // verus!
