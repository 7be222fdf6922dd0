//! The query engine: composes column terms into filtered, cross-archetype
//! iteration.
//!
//! A query walks the archetypes in creation order, keeps those every term
//! matches, and yields one row of items per member entity.  Acquisition
//! records column borrows in the store's lock list; a shape whose own terms
//! conflict, or one that clashes with an outstanding exclusive borrow, is
//! rejected with a typed error before any row is produced.

use vstd::prelude::*;

use crate::archetype::Archetype;
use crate::archetype::EcsTypeId;
use crate::entities::Entity;
use crate::system::Access;
use crate::world::BorrowLock;
use crate::world::World;

verus! {

/// One term of a query shape.
#[derive(Debug, Clone, Copy, PartialEq, Eq, Structural)]
pub enum QueryTerm {
    /// Yields the entity id; matches every archetype.
    EntityId,
    /// Shared borrow of one component type; matches archetypes carrying it.
    Read(EcsTypeId),
    /// Exclusive borrow of one component type; matches archetypes carrying
    /// it.
    Write(EcsTypeId),
    /// Optional borrow: matches every archetype and yields the cell only
    /// where the type is present, still advancing one row per entity.
    MaybeRead(EcsTypeId),
    /// Negative filter: matches only archetypes without the type.
    Without(EcsTypeId),
}

/// One item of a yielded row.
#[derive(Debug, Clone)]
pub enum QueryItem {
    Entity(Entity),
    Cell(Vec<u8>),
    MaybeCell(Option<Vec<u8>>),
    Unit,
}

/// The mathematical image of one yielded item.
pub enum QueryItemModel {
    Entity(Entity),
    Cell(Seq<u8>),
    MaybeCell(Option<Seq<u8>>),
    Unit,
}

impl QueryItem {
    pub open spec fn model(self) -> QueryItemModel {
        match self {
            QueryItem::Entity(e) => QueryItemModel::Entity(e),
            QueryItem::Cell(v) => QueryItemModel::Cell(v@),
            QueryItem::MaybeCell(o) => QueryItemModel::MaybeCell(
                match o {
                    Some(v) => Some(v@),
                    None => None,
                },
            ),
            QueryItem::Unit => QueryItemModel::Unit,
        }
    }

    /// The entity id carried by an entity item.
    pub fn entity(&self) -> (r: Option<Entity>)
        ensures
            r is Some <==> self is Entity,
            self is Entity ==> self.model() == QueryItemModel::Entity(r->0),
    {
        match self {
            QueryItem::Entity(e) => Some(*e),
            _ => None,
        }
    }

    /// The cell bytes carried by a mandatory column item.
    pub fn cell(&self) -> (r: Option<&Vec<u8>>)
        ensures
            r is Some <==> self is Cell,
            self is Cell ==> self.model() == QueryItemModel::Cell(r->0@),
    {
        match self {
            QueryItem::Cell(v) => Some(v),
            _ => None,
        }
    }

    /// The optional cell carried by a `MaybeRead` item: `Some(None)` where
    /// the archetype lacks the column.
    pub fn maybe_cell(&self) -> (r: Option<Option<&Vec<u8>>>)
        ensures
            r is Some <==> self is MaybeCell,
            self is MaybeCell ==> (r->0 is Some <==> self->MaybeCell_0 is Some),
            self is MaybeCell && self->MaybeCell_0 is Some ==> self.model()
                == QueryItemModel::MaybeCell(Some(r->0->0@)),
    {
        match self {
            QueryItem::MaybeCell(Some(v)) => Some(Some(v)),
            QueryItem::MaybeCell(None) => Some(None),
            _ => None,
        }
    }
}

/// Every column term names a registered component type.
pub open spec fn term_valid(t: QueryTerm, w: World) -> bool {
    match t {
        QueryTerm::EntityId => true,
        QueryTerm::Read(id) => (id.0 as int) < w.n_types(),
        QueryTerm::Write(id) => (id.0 as int) < w.n_types(),
        QueryTerm::MaybeRead(id) => (id.0 as int) < w.n_types(),
        QueryTerm::Without(id) => (id.0 as int) < w.n_types(),
    }
}

pub open spec fn terms_valid(terms: Seq<QueryTerm>, w: World) -> bool {
    forall|i: int| 0 <= i < terms.len() ==> term_valid(#[trigger] terms[i], w)
}

/// Whether one term lets an archetype into the join.
pub open spec fn term_matches(t: QueryTerm, a: Archetype) -> bool {
    match t {
        QueryTerm::EntityId => true,
        QueryTerm::Read(id) => a.has_ty(id),
        QueryTerm::Write(id) => a.has_ty(id),
        QueryTerm::MaybeRead(id) => true,
        QueryTerm::Without(id) => !a.has_ty(id),
    }
}

pub open spec fn terms_match(terms: Seq<QueryTerm>, a: Archetype) -> bool {
    forall|i: int| 0 <= i < terms.len() ==> term_matches(#[trigger] terms[i], a)
}

/// What one term yields for row `row` of archetype `a`.
pub open spec fn spec_item(w: World, a: Archetype, row: int, t: QueryTerm) -> QueryItemModel {
    match t {
        QueryTerm::EntityId => QueryItemModel::Entity(a.entities@[row]),
        QueryTerm::Read(id) => QueryItemModel::Cell(
            w.families@[id.0 as int].spec_cell(a.col_of(id), row),
        ),
        QueryTerm::Write(id) => QueryItemModel::Cell(
            w.families@[id.0 as int].spec_cell(a.col_of(id), row),
        ),
        QueryTerm::MaybeRead(id) => QueryItemModel::MaybeCell(
            if a.has_ty(id) {
                Some(w.families@[id.0 as int].spec_cell(a.col_of(id), row))
            } else {
                None
            },
        ),
        QueryTerm::Without(id) => QueryItemModel::Unit,
    }
}

/// One whole yielded row.
pub open spec fn spec_row(w: World, a: Archetype, row: int, terms: Seq<QueryTerm>) -> Seq<
    QueryItemModel,
> {
    Seq::new(terms.len(), |i: int| spec_item(w, a, row, terms[i]))
}

/// Every row of one matching archetype, in storage order.
pub open spec fn arch_rows(w: World, a: Archetype, terms: Seq<QueryTerm>) -> Seq<
    Seq<QueryItemModel>,
> {
    Seq::new(a.entities@.len(), |r: int| spec_row(w, a, r, terms))
}

/// The rows of the first `n` archetypes, visited in creation order.
pub open spec fn rows_upto(w: World, terms: Seq<QueryTerm>, n: int) -> Seq<Seq<QueryItemModel>>
    decreases n,
{
    if n <= 0 {
        Seq::empty()
    } else {
        rows_upto(w, terms, n - 1) + (if terms_match(terms, w.arch(n - 1)) {
            arch_rows(w, w.arch(n - 1), terms)
        } else {
            Seq::empty()
        })
    }
}

/// Everything the query yields: one row per entity of every matching
/// archetype.
pub open spec fn query_rows(w: World, terms: Seq<QueryTerm>) -> Seq<Seq<QueryItemModel>> {
    rows_upto(w, terms, w.n_archetypes() as int)
}

/// The mathematical image of a materialized row list.
pub open spec fn rows_model(rows: Seq<Vec<QueryItem>>) -> Seq<Seq<QueryItemModel>> {
    Seq::new(rows.len(), |i: int| Seq::new(rows[i]@.len(), |j: int| rows[i]@[j].model()))
}

/// Whether a term takes a shared borrow of `ty`.
pub open spec fn term_reads(t: QueryTerm, ty: EcsTypeId) -> bool {
    t == QueryTerm::Read(ty) || t == QueryTerm::MaybeRead(ty)
}

/// Whether a term takes an exclusive borrow of `ty`.
pub open spec fn term_writes(t: QueryTerm, ty: EcsTypeId) -> bool {
    t == QueryTerm::Write(ty)
}

/// Two terms of one shape collide: a write overlapping another write or a
/// read.
pub open spec fn terms_conflict(terms: Seq<QueryTerm>) -> bool {
    exists|i: int, j: int, ty: EcsTypeId|
        #![trigger term_writes(terms[i], ty), term_writes(terms[j], ty)]
        #![trigger term_writes(terms[i], ty), term_reads(terms[j], ty)]
        0 <= i < terms.len() && 0 <= j < terms.len() && i != j && term_writes(terms[i], ty) && (
        term_writes(terms[j], ty) || term_reads(terms[j], ty))
}

/// An outstanding borrow blocks the shape: an exclusive lock blocks any use
/// of its type, and any lock blocks a write of its type.
pub open spec fn locks_block(locks: Seq<BorrowLock>, terms: Seq<QueryTerm>) -> bool {
    exists|k: int, i: int, ty: EcsTypeId|
        #![trigger locks[k], term_reads(terms[i], ty)]
        #![trigger locks[k], term_writes(terms[i], ty)]
        0 <= k < locks.len() && 0 <= i < terms.len() && locks[k].ty == ty && ((locks[k].exclusive
            && (term_reads(terms[i], ty) || term_writes(terms[i], ty))) || (!locks[k].exclusive
            && term_writes(terms[i], ty)))
}

/// Derives the read and write sets of a query shape, rejecting a shape whose
/// own terms conflict.
#[verifier::loop_isolation(false)]
pub fn get_access(terms: &Vec<QueryTerm>) -> (r: Result<Access, ()>)
    ensures
        r is Ok <==> !terms_conflict(terms@),
        r is Ok ==> forall|ty: EcsTypeId|
            #[trigger] r->Ok_0.reads(ty) <==> exists|i: int|
                0 <= i < terms@.len() && term_reads(#[trigger] terms@[i], ty),
        r is Ok ==> forall|ty: EcsTypeId|
            #[trigger] r->Ok_0.writes(ty) <==> exists|i: int|
                0 <= i < terms@.len() && term_writes(#[trigger] terms@[i], ty),
{
    let mut acc = Access::new();
    let mut k: usize = 0;
    while k < terms.len()
        invariant
            0 <= k <= terms@.len(),
            forall|ty: EcsTypeId|
                #[trigger] acc.reads(ty) <==> exists|i: int|
                    0 <= i < k && term_reads(#[trigger] terms@[i], ty),
            forall|ty: EcsTypeId|
                #[trigger] acc.writes(ty) <==> exists|i: int|
                    0 <= i < k && term_writes(#[trigger] terms@[i], ty),
            forall|i: int, j: int, ty: EcsTypeId|
                #![trigger term_writes(terms@[i], ty), terms@[j]]
                0 <= i < k && 0 <= j < k && i != j && term_writes(terms@[i], ty) ==> !(
                term_writes(terms@[j], ty) || term_reads(terms@[j], ty)),
        decreases terms@.len() - k,
    {
        let t = terms[k];
        let ghost acc0 = acc;
        match t {
            QueryTerm::EntityId => {},
            QueryTerm::Without(_) => {},
            QueryTerm::Read(id) => {
                acc = match acc.insert_read(id) {
                    Ok(a) => a,
                    Err(()) => {
                        proof {
                            let j = choose|i: int|
                                0 <= i < k && term_writes(#[trigger] terms@[i], id);
                            assert(terms_conflict(terms@)) by {
                                assert(term_writes(terms@[j], id) && term_reads(
                                    terms@[k as int],
                                    id,
                                ));
                            }
                        }
                        return Err(());
                    },
                };
            },
            QueryTerm::MaybeRead(id) => {
                acc = match acc.insert_read(id) {
                    Ok(a) => a,
                    Err(()) => {
                        proof {
                            let j = choose|i: int|
                                0 <= i < k && term_writes(#[trigger] terms@[i], id);
                            assert(terms_conflict(terms@)) by {
                                assert(term_writes(terms@[j], id) && term_reads(
                                    terms@[k as int],
                                    id,
                                ));
                            }
                        }
                        return Err(());
                    },
                };
            },
            QueryTerm::Write(id) => {
                acc = match acc.insert_write(id) {
                    Ok(a) => a,
                    Err(()) => {
                        proof {
                            if acc0.writes(id) {
                                let j = choose|i: int|
                                    0 <= i < k && term_writes(#[trigger] terms@[i], id);
                                assert(terms_conflict(terms@)) by {
                                    assert(term_writes(terms@[j], id) && term_writes(
                                        terms@[k as int],
                                        id,
                                    ));
                                }
                            } else {
                                let j = choose|i: int|
                                    0 <= i < k && term_reads(#[trigger] terms@[i], id);
                                assert(terms_conflict(terms@)) by {
                                    assert(term_writes(terms@[k as int], id) && term_reads(
                                        terms@[j],
                                        id,
                                    ));
                                }
                            }
                        }
                        return Err(());
                    },
                };
            },
        }
        proof {
            assert forall|ty: EcsTypeId| #[trigger] acc.reads(ty) implies exists|i: int|
                0 <= i < k + 1 && term_reads(#[trigger] terms@[i], ty) by {
                if acc0.reads(ty) {
                    let i = choose|i: int| 0 <= i < k && term_reads(#[trigger] terms@[i], ty);
                    assert(term_reads(terms@[i], ty));
                } else {
                    assert(term_reads(terms@[k as int], ty));
                }
            }
            assert forall|ty: EcsTypeId|
                (exists|i: int| 0 <= i < k + 1 && term_reads(#[trigger] terms@[i], ty)) implies
                #[trigger] acc.reads(ty) by {
                let i = choose|i: int| 0 <= i < k + 1 && term_reads(#[trigger] terms@[i], ty);
                if i < k {
                    assert(acc0.reads(ty));
                }
            }
            assert forall|ty: EcsTypeId| #[trigger] acc.writes(ty) implies exists|i: int|
                0 <= i < k + 1 && term_writes(#[trigger] terms@[i], ty) by {
                if acc0.writes(ty) {
                    let i = choose|i: int| 0 <= i < k && term_writes(#[trigger] terms@[i], ty);
                    assert(term_writes(terms@[i], ty));
                } else {
                    assert(term_writes(terms@[k as int], ty));
                }
            }
            assert forall|ty: EcsTypeId|
                (exists|i: int| 0 <= i < k + 1 && term_writes(#[trigger] terms@[i], ty)) implies
                #[trigger] acc.writes(ty) by {
                let i = choose|i: int| 0 <= i < k + 1 && term_writes(#[trigger] terms@[i], ty);
                if i < k {
                    assert(acc0.writes(ty));
                }
            }
            assert forall|i: int, j: int, ty: EcsTypeId|
                #![trigger term_writes(terms@[i], ty), terms@[j]]
                0 <= i < k + 1 && 0 <= j < k + 1 && i != j && term_writes(terms@[i], ty) implies !(
            term_writes(terms@[j], ty) || term_reads(terms@[j], ty)) by {
                if i == k {
                    assert(!acc0.writes(ty) && !acc0.reads(ty));
                    if term_writes(terms@[j], ty) || term_reads(terms@[j], ty) {
                        assert(false);
                    }
                } else if j == k {
                    assert(acc0.writes(ty));
                    if term_writes(terms@[j], ty) {
                        assert(acc.writes(ty) && acc0.writes(ty));
                        assert(false);
                    }
                    if term_reads(terms@[j], ty) {
                        assert(false);
                    }
                }
            }
        }
        k = k + 1;
    }
    proof {
        if terms_conflict(terms@) {
            let (i, j, ty) = choose|i: int, j: int, ty: EcsTypeId|
                0 <= i < terms@.len() && 0 <= j < terms@.len() && i != j && #[trigger] term_writes(
                    terms@[i],
                    ty,
                ) && (term_writes(terms@[j], ty) || #[trigger] term_reads(terms@[j], ty));
            assert(false);
        }
    }
    Ok(acc)
}

/// Whether one term lets an archetype into the join.
pub fn term_matches_exec(t: QueryTerm, a: &Archetype) -> (r: bool)
    ensures
        r == term_matches(t, *a),
{
    match t {
        QueryTerm::EntityId => true,
        QueryTerm::Read(id) => a.contains_id(id),
        QueryTerm::Write(id) => a.contains_id(id),
        QueryTerm::MaybeRead(_) => true,
        QueryTerm::Without(id) => !a.contains_id(id),
    }
}

/// Whether every term lets the archetype into the join.
#[verifier::loop_isolation(false)]
pub fn terms_match_exec(terms: &Vec<QueryTerm>, a: &Archetype) -> (r: bool)
    ensures
        r == terms_match(terms@, *a),
{
    let mut k: usize = 0;
    while k < terms.len()
        invariant
            0 <= k <= terms@.len(),
            forall|i: int| 0 <= i < k ==> term_matches(#[trigger] terms@[i], *a),
        decreases terms@.len() - k,
    {
        if !term_matches_exec(terms[k], a) {
            return false;
        }
        k = k + 1;
    }
    true
}

/// Produces what one term yields for one row of one matching archetype.
fn make_item(w: &World, arch_idx: usize, row: usize, t: QueryTerm) -> (it: QueryItem)
    requires
        w.wf(),
        w.arch_dom(arch_idx as int),
        (row as int) < w.arch(arch_idx as int).entities@.len(),
        term_valid(t, *w),
        term_matches(t, w.arch(arch_idx as int)),
    ensures
        it.model() == spec_item(*w, w.arch(arch_idx as int), row as int, t),
{
    proof {
        assert(w.arch_ok(arch_idx as int));
    }
    match t {
        QueryTerm::EntityId => QueryItem::Entity(w.archetypes[arch_idx].entities[row]),
        QueryTerm::Read(id) => {
            let col = w.archetypes[arch_idx].column_index(id).unwrap();
            proof {
                let a = w.arch(arch_idx as int);
                a.lemma_col_at(a.ty_index(id));
            }
            QueryItem::Cell(w.families[id.0].cell_cloned(col, row))
        },
        QueryTerm::Write(id) => {
            let col = w.archetypes[arch_idx].column_index(id).unwrap();
            proof {
                let a = w.arch(arch_idx as int);
                a.lemma_col_at(a.ty_index(id));
            }
            QueryItem::Cell(w.families[id.0].cell_cloned(col, row))
        },
        QueryTerm::MaybeRead(id) => {
            match w.archetypes[arch_idx].column_index(id) {
                Some(col) => {
                    proof {
                        let a = w.arch(arch_idx as int);
                        a.lemma_col_at(a.ty_index(id));
                    }
                    QueryItem::MaybeCell(Some(w.families[id.0].cell_cloned(col, row)))
                },
                None => QueryItem::MaybeCell(None),
            }
        },
        QueryTerm::Without(_) => QueryItem::Unit,
    }
}

/// Materializes every row the shape yields, walking the archetypes in
/// creation order.
#[verifier::loop_isolation(false)]
pub fn run_query(w: &World, terms: &Vec<QueryTerm>) -> (rows: Vec<Vec<QueryItem>>)
    requires
        w.wf(),
        terms_valid(terms@, *w),
    ensures
        rows_model(rows@) == query_rows(*w, terms@),
{
    let mut rows: Vec<Vec<QueryItem>> = Vec::new();
    proof {
        assert(rows_model(rows@) =~~= rows_upto(*w, terms@, 0));
    }
    let mut a: usize = 0;
    while a < w.archetypes.len()
        invariant
            0 <= a <= w.archetypes@.len(),
            rows_model(rows@) == rows_upto(*w, terms@, a as int),
        decreases w.archetypes@.len() - a,
    {
        if terms_match_exec(terms, &w.archetypes[a]) {
            let ghost base = rows_model(rows@);
            let ghost ar = w.arch(a as int);
            let n_rows = w.archetypes[a].entities.len();
            proof {
                assert(rows_model(rows@) =~~= base + arch_rows(*w, ar, terms@).take(0));
            }
            let mut r: usize = 0;
            while r < n_rows
                invariant
                    0 <= r <= n_rows,
                    n_rows == ar.entities@.len(),
                    ar == w.arch(a as int),
                    terms_match(terms@, ar),
                    base == rows_upto(*w, terms@, a as int),
                    rows_model(rows@) == base + arch_rows(*w, ar, terms@).take(r as int),
                decreases n_rows - r,
            {
                let mut row_items: Vec<QueryItem> = Vec::new();
                let mut ti: usize = 0;
                while ti < terms.len()
                    invariant
                        0 <= ti <= terms@.len(),
                        0 <= r < ar.entities@.len(),
                        ar == w.arch(a as int),
                        terms_match(terms@, ar),
                        row_items@.len() == ti,
                        forall|j: int|
                            0 <= j < ti ==> (#[trigger] row_items@[j]).model() == spec_item(
                                *w,
                                ar,
                                r as int,
                                terms@[j],
                            ),
                    decreases terms@.len() - ti,
                {
                    row_items.push(make_item(w, a, r, terms[ti]));
                    ti = ti + 1;
                }
                let ghost rows_pre = rows@;
                rows.push(row_items);
                proof {
                    assert(Seq::new(row_items@.len(), |j: int| row_items@[j].model()) =~= spec_row(
                        *w,
                        ar,
                        r as int,
                        terms@,
                    ));
                    assert(arch_rows(*w, ar, terms@).take(r as int + 1) =~= arch_rows(
                        *w,
                        ar,
                        terms@,
                    ).take(r as int).push(spec_row(*w, ar, r as int, terms@)));
                    let target = base + arch_rows(*w, ar, terms@).take(r as int + 1);
                    assert(rows_model(rows@).len() == target.len());
                    assert forall|i: int|
                        0 <= i < target.len() implies #[trigger] rows_model(rows@)[i]
                        == target[i] by {
                        if i < rows_pre.len() {
                            assert(rows@[i] == rows_pre[i]);
                            assert(rows_model(rows@)[i] =~= rows_model(rows_pre)[i]);
                            assert(target[i] == (base + arch_rows(*w, ar, terms@).take(
                                r as int,
                            ))[i]);
                        } else {
                            assert(rows@[i] == row_items);
                            assert(rows_model(rows@)[i] =~= spec_row(*w, ar, r as int, terms@));
                        }
                    }
                    assert(rows_model(rows@) =~= target);
                }
                r = r + 1;
            }
            proof {
                assert(arch_rows(*w, ar, terms@).take(n_rows as int) =~= arch_rows(
                    *w,
                    ar,
                    terms@,
                ));
                assert(rows_model(rows@) =~~= rows_upto(*w, terms@, a as int + 1));
            }
        } else {
            proof {
                assert(rows_model(rows@) =~~= rows_upto(*w, terms@, a as int + 1));
            }
        }
        a = a + 1;
    }
    proof {
        assert(rows_model(rows@) =~~= query_rows(*w, terms@));
    }
    rows
}

/// The borrow-conflict condition: the shape's own terms collide, or an
/// outstanding borrow blocks one of them.
#[derive(Debug, Clone, Copy, PartialEq, Eq, Structural)]
pub struct WorldBorrowError;

/// A runtime-typed query term: the component type and whether the borrow is
/// exclusive.
#[derive(Debug, Clone, Copy, PartialEq, Eq, Structural)]
pub struct DynQueryParam {
    pub id: EcsTypeId,
    pub kind: DynQueryParamKind,
}

#[derive(Debug, Clone, Copy, PartialEq, Eq, Structural)]
pub enum DynQueryParamKind {
    Mut,
    Ref,
}

impl DynQueryParam {
    /// The query term this parameter stands for.
    pub open spec fn spec_term(self) -> QueryTerm {
        match self.kind {
            DynQueryParamKind::Ref => QueryTerm::Read(self.id),
            DynQueryParamKind::Mut => QueryTerm::Write(self.id),
        }
    }

    pub fn new_ref(id: EcsTypeId) -> (r: DynQueryParam)
        ensures
            r.id == id,
            r.kind == DynQueryParamKind::Ref,
            r.spec_term() == QueryTerm::Read(id),
    {
        DynQueryParam { id, kind: DynQueryParamKind::Ref }
    }

    pub fn new_mut(id: EcsTypeId) -> (r: DynQueryParam)
        ensures
            r.id == id,
            r.kind == DynQueryParamKind::Mut,
            r.spec_term() == QueryTerm::Write(id),
    {
        DynQueryParam { id, kind: DynQueryParamKind::Mut }
    }
}

/// An acquired query: its shape, the borrows it holds, and the materialized
/// rows.  The borrows stay recorded in the store until the query is handed
/// back with `World::release`.
pub struct Query {
    pub terms: Vec<QueryTerm>,
    pub n_static: usize,
    pub rows: Vec<Vec<QueryItem>>,
    pub locks: Vec<BorrowLock>,
}

/// A cursor over a query's materialized rows.  The first `n_static` items of
/// every row belong to the static shape; the rest are dynamic parameters.
pub struct QueryIter {
    pub rows: Vec<Vec<QueryItem>>,
    pub n_static: usize,
}

impl Query {
    /// Hands the materialized rows to a cursor; the query keeps its borrows.
    pub fn iter_mut(&mut self) -> (it: QueryIter)
        ensures
            it.rows@ == old(self).rows@,
            it.n_static == old(self).n_static,
            final(self).rows@.len() == 0,
            final(self).terms == old(self).terms,
            final(self).n_static == old(self).n_static,
            final(self).locks == old(self).locks,
    {
        let mut rows: Vec<Vec<QueryItem>> = Vec::new();
        core::mem::swap(&mut self.rows, &mut rows);
        QueryIter { rows, n_static: self.n_static }
    }
}

impl Query {
    /// Adds a runtime-typed column term to an acquired query: takes the
    /// extra borrow, re-materializes the rows, and fails like acquisition
    /// does when an outstanding borrow blocks the new term.
    #[verifier::loop_isolation(false)]
    pub fn add_dyn_param(&mut self, world: &mut World, param: DynQueryParam) -> (r: Result<
        (),
        WorldBorrowError,
    >)
        requires
            old(world).wf(),
            (param.id.0 as int) < old(world).n_types(),
            terms_valid(old(self).terms@, *old(world)),
        ensures
            final(world).wf(),
            final(world).entities == old(world).entities,
            final(world).archetypes == old(world).archetypes,
            final(world).families == old(world).families,
            final(world).id == old(world).id,
            final(self).n_static == old(self).n_static,
            r is Ok <==> !locks_block(old(world).locks@, seq![param.spec_term()]),
            r is Err ==> *final(self) == *old(self) && final(world).locks == old(world).locks,
            r is Ok ==> {
                let taken = BorrowLock {
                    ty: param.id,
                    exclusive: param.kind == DynQueryParamKind::Mut,
                };
                &&& final(self).terms@ == old(self).terms@.push(param.spec_term())
                &&& rows_model(final(self).rows@) == query_rows(*old(world), final(self).terms@)
                &&& final(world).locks@ == old(world).locks@.push(taken)
                &&& final(self).locks@ == old(self).locks@.push(taken)
            },
    {
        let exclusive = match param.kind {
            DynQueryParamKind::Mut => true,
            DynQueryParamKind::Ref => false,
        };
        let ghost term = param.spec_term();
        let mut k: usize = 0;
        while k < world.locks.len()
            invariant
                0 <= k <= world.locks@.len(),
                forall|j: int|
                    0 <= j < k ==> {
                        let l = #[trigger] world.locks@[j];
                        !(l.ty == param.id && (l.exclusive || exclusive))
                    },
            decreases world.locks@.len() - k,
        {
            let l = world.locks[k];
            if l.ty == param.id && (l.exclusive || exclusive) {
                proof {
                    assert(locks_block(world.locks@, seq![term])) by {
                        let l0 = world.locks@[k as int];
                        assert(seq![term][0] == term);
                        if l0.exclusive {
                            if exclusive {
                                assert(term_writes(seq![term][0], l0.ty));
                            } else {
                                assert(term_reads(seq![term][0], l0.ty));
                            }
                        } else {
                            assert(term_writes(seq![term][0], l0.ty));
                        }
                    }
                }
                return Err(WorldBorrowError);
            }
            k = k + 1;
        }
        proof {
            if locks_block(world.locks@, seq![term]) {
                let (k2, i, ty) = choose|k2: int, i: int, ty: EcsTypeId|
                    #![trigger world.locks@[k2], term_reads(seq![term][i], ty)]
                    #![trigger world.locks@[k2], term_writes(seq![term][i], ty)]
                    0 <= k2 < world.locks@.len() && 0 <= i < seq![term].len()
                        && world.locks@[k2].ty == ty && ((world.locks@[k2].exclusive && (
                    term_reads(seq![term][i], ty) || term_writes(seq![term][i], ty))) || (
                    !world.locks@[k2].exclusive && term_writes(seq![term][i], ty)));
                assert(seq![term][i] == term);
                assert(false);
            }
        }
        let taken = BorrowLock { ty: param.id, exclusive };
        world.locks.push(taken);
        self.locks.push(taken);
        let new_term = if exclusive {
            QueryTerm::Write(param.id)
        } else {
            QueryTerm::Read(param.id)
        };
        self.terms.push(new_term);
        proof {
            assert(new_term == term);
            assert(terms_valid(self.terms@, *world)) by {
                assert forall|i: int| 0 <= i < self.terms@.len() implies term_valid(
                    #[trigger] self.terms@[i],
                    *world,
                ) by {
                    if i < old(self).terms@.len() {
                        assert(self.terms@[i] == old(self).terms@[i]);
                    }
                }
            }
            World::lemma_wf_locks_irrelevant(*old(world), *world);
        }
        let rows = run_query(world, &self.terms);
        self.rows = rows;
        proof {
            World::lemma_query_rows_ignore_locks(*old(world), *world, self.terms@);
        }
        Ok(())
    }
}

impl QueryIter {
    /// The next row, front to back; `None` once every row is spent.
    pub fn next(&mut self) -> (r: Option<Vec<QueryItem>>)
        ensures
            final(self).n_static == old(self).n_static,
            old(self).rows@.len() == 0 ==> r is None && final(self).rows@ == old(self).rows@,
            old(self).rows@.len() > 0 ==> r == Some(old(self).rows@[0]) && final(self).rows@
                == old(self).rows@.drop_first(),
    {
        if self.rows.len() == 0 {
            None
        } else {
            let row = self.rows.remove(0);
            proof {
                assert(final(self).rows@ =~= old(self).rows@.drop_first());
            }
            Some(row)
        }
    }

    /// The next row, split into the static shape's items and the raw cells
    /// of the dynamic parameters.
    pub fn next_dynamic(&mut self) -> (r: Option<(Vec<QueryItem>, Vec<Vec<u8>>)>)
        ensures
            final(self).n_static == old(self).n_static,
            old(self).rows@.len() == 0 ==> r is None,
            old(self).rows@.len() > 0 ==> {
                &&& r is Some
                &&& final(self).rows@ == old(self).rows@.drop_first()
                &&& (old(self).n_static <= old(self).rows@[0]@.len() ==> {
                    let row = old(self).rows@[0]@;
                    let pair = r->0;
                    let fixed = pair.0;
                    let dynamic = pair.1;
                    &&& fixed@ == row.take(old(self).n_static as int)
                    &&& dynamic@.len() == row.len() - old(self).n_static
                    &&& forall|j: int|
                        0 <= j < dynamic@.len() && row[old(self).n_static + j] is Cell ==> (
                        #[trigger] dynamic@[j])@ == row[old(self).n_static + j]->Cell_0@
                })
            },
    {
        let row = match self.next() {
            None => {
                return None;
            },
            Some(row) => row,
        };
        let mut fixed: Vec<QueryItem> = Vec::new();
        let mut dynamic: Vec<Vec<u8>> = Vec::new();
        let mut row = row;
        let ghost row0 = row@;
        let n = if self.n_static <= row.len() {
            self.n_static
        } else {
            row.len()
        };
        proof {
            assert(row@ =~= row0.skip(0));
            assert(fixed@ =~= row0.take(0));
        }
        let mut k: usize = 0;
        while k < n
            invariant
                0 <= k <= n <= row0.len(),
                row@ == row0.skip(k as int),
                fixed@ == row0.take(k as int),
            decreases n - k,
        {
            let it = row.remove(0);
            proof {
                assert(row0.skip(k as int)[0] == row0[k as int]);
                assert(row@ =~= row0.skip(k as int + 1));
            }
            fixed.push(it);
            proof {
                assert(fixed@ =~= row0.take(k as int + 1));
            }
            k = k + 1;
        }
        let ghost nn = n as int;
        proof {
            assert(row@ == row0.skip(nn + 0));
        }
        let mut k: usize = 0;
        let total = row.len();
        while k < total
            invariant
                0 <= k <= total,
                0 <= nn <= row0.len(),
                row@ == row0.skip(nn + k),
                total == row0.len() - nn,
                dynamic@.len() == k,
                forall|j: int|
                    0 <= j < k && row0[nn + j] is Cell ==> (#[trigger] dynamic@[j])@ == row0[nn
                        + j]->Cell_0@,
            decreases total - k,
        {
            let it = row.remove(0);
            proof {
                assert(row0.skip(nn + k)[0] == row0[nn + k as int]);
                assert(row@ =~= row0.skip(nn + k + 1));
            }
            match it {
                QueryItem::Cell(v) => {
                    dynamic.push(v);
                },
                _ => {
                    dynamic.push(Vec::new());
                },
            }
            k = k + 1;
        }
        Some((fixed, dynamic))
    }
}

impl World {
    /// Acquires a query: rejects a shape whose own terms conflict, or one
    /// blocked by an outstanding borrow; otherwise records the new borrows
    /// and materializes the rows.
    #[verifier::loop_isolation(false)]
    pub fn query(&mut self, terms: Vec<QueryTerm>) -> (r: Result<Query, WorldBorrowError>)
        requires
            old(self).wf(),
            terms_valid(terms@, *old(self)),
        ensures
            final(self).wf(),
            final(self).entities == old(self).entities,
            final(self).archetypes == old(self).archetypes,
            final(self).families == old(self).families,
            final(self).id == old(self).id,
            r is Ok <==> (!terms_conflict(terms@) && !locks_block(old(self).locks@, terms@)),
            r is Err ==> final(self).locks == old(self).locks,
            r is Ok ==> {
                let q = r->Ok_0;
                &&& q.terms@ == terms@
                &&& q.n_static == terms@.len()
                &&& rows_model(q.rows@) == query_rows(*old(self), terms@)
                &&& final(self).locks@ == old(self).locks@ + q.locks@
                &&& forall|ty: EcsTypeId|
                    (exists|i: int| 0 <= i < terms@.len() && term_reads(#[trigger] terms@[i], ty))
                        <==> q.locks@.contains(BorrowLock { ty, exclusive: false })
                &&& forall|ty: EcsTypeId|
                    (exists|i: int| 0 <= i < terms@.len() && term_writes(#[trigger] terms@[i], ty))
                        <==> q.locks@.contains(BorrowLock { ty, exclusive: true })
            },
    {
        let access = match get_access(&terms) {
            Ok(a) => a,
            Err(()) => {
                return Err(WorldBorrowError);
            },
        };
        // an outstanding exclusive borrow blocks any use of its type; any
        // outstanding borrow blocks a write
        let mut k: usize = 0;
        while k < self.locks.len()
            invariant
                0 <= k <= self.locks@.len(),
                forall|j: int|
                    0 <= j < k ==> {
                        let l = #[trigger] self.locks@[j];
                        &&& (l.exclusive ==> !access.reads(l.ty) && !access.writes(l.ty))
                        &&& (!l.exclusive ==> !access.writes(l.ty))
                    },
            decreases self.locks@.len() - k,
        {
            let l = self.locks[k];
            let blocked = if l.exclusive {
                Access::vec_contains(&access.read, l.ty) || Access::vec_contains(&access.write, l.ty)
            } else {
                Access::vec_contains(&access.write, l.ty)
            };
            if blocked {
                proof {
                    assert(locks_block(self.locks@, terms@)) by {
                        let l0 = self.locks@[k as int];
                        if l0.exclusive {
                            if access.reads(l0.ty) {
                                let i = choose|i: int|
                                    0 <= i < terms@.len() && term_reads(#[trigger] terms@[i], l0.ty);
                                assert(term_reads(terms@[i], l0.ty));
                            } else {
                                assert(access.writes(l0.ty));
                                let i = choose|i: int|
                                    0 <= i < terms@.len() && term_writes(
                                        #[trigger] terms@[i],
                                        l0.ty,
                                    );
                                assert(term_writes(terms@[i], l0.ty));
                            }
                        } else {
                            assert(access.writes(l0.ty));
                            let i = choose|i: int|
                                0 <= i < terms@.len() && term_writes(#[trigger] terms@[i], l0.ty);
                            assert(term_writes(terms@[i], l0.ty));
                        }
                    }
                }
                return Err(WorldBorrowError);
            }
            k = k + 1;
        }
        proof {
            if locks_block(self.locks@, terms@) {
                let (k2, i, ty) = choose|k2: int, i: int, ty: EcsTypeId|
                    #![trigger self.locks@[k2], term_reads(terms@[i], ty)]
                    #![trigger self.locks@[k2], term_writes(terms@[i], ty)]
                    0 <= k2 < self.locks@.len() && 0 <= i < terms@.len() && self.locks@[k2].ty
                        == ty && ((self.locks@[k2].exclusive && (term_reads(terms@[i], ty)
                        || term_writes(terms@[i], ty))) || (!self.locks@[k2].exclusive
                        && term_writes(terms@[i], ty)));
                assert(false);
            }
        }
        // record the new borrows
        let mut taken: Vec<BorrowLock> = Vec::new();
        let mut k: usize = 0;
        while k < access.read.len()
            invariant
                0 <= k <= access.read@.len(),
                taken@.len() == k,
                forall|j: int|
                    0 <= j < k ==> #[trigger] taken@[j] == (BorrowLock {
                        ty: access.read@[j],
                        exclusive: false,
                    }),
            decreases access.read@.len() - k,
        {
            taken.push(BorrowLock { ty: access.read[k], exclusive: false });
            k = k + 1;
        }
        let ghost n_read = taken@.len() as int;
        let mut k: usize = 0;
        while k < access.write.len()
            invariant
                0 <= k <= access.write@.len(),
                taken@.len() == n_read + k,
                forall|j: int|
                    0 <= j < n_read ==> #[trigger] taken@[j] == (BorrowLock {
                        ty: access.read@[j],
                        exclusive: false,
                    }),
                forall|j: int|
                    0 <= j < k ==> #[trigger] taken@[n_read + j] == (BorrowLock {
                        ty: access.write@[j],
                        exclusive: true,
                    }),
            decreases access.write@.len() - k,
        {
            taken.push(BorrowLock { ty: access.write[k], exclusive: true });
            k = k + 1;
        }
        proof {
            assert forall|ty: EcsTypeId|
                (exists|i: int| 0 <= i < terms@.len() && term_reads(#[trigger] terms@[i], ty))
                    <==> taken@.contains(BorrowLock { ty, exclusive: false }) by {
                if exists|i: int| 0 <= i < terms@.len() && term_reads(#[trigger] terms@[i], ty) {
                    assert(access.reads(ty));
                    let j = access.read@.index_of(ty);
                    assert(taken@[j] == (BorrowLock { ty, exclusive: false }));
                }
                if taken@.contains(BorrowLock { ty, exclusive: false }) {
                    let j = choose|j: int|
                        0 <= j < taken@.len() && taken@[j] == (BorrowLock { ty, exclusive: false });
                    if j >= n_read {
                        let j2 = j - n_read;
                        assert(taken@[n_read + j2] == (BorrowLock {
                            ty: access.write@[j2],
                            exclusive: true,
                        }));
                        assert(false);
                    }
                    assert(taken@[j] == (BorrowLock { ty: access.read@[j], exclusive: false }));
                    assert(access.read@[j] == ty);
                    assert(access.reads(ty));
                }
            }
            assert forall|ty: EcsTypeId|
                (exists|i: int| 0 <= i < terms@.len() && term_writes(#[trigger] terms@[i], ty))
                    <==> taken@.contains(BorrowLock { ty, exclusive: true }) by {
                if exists|i: int| 0 <= i < terms@.len() && term_writes(#[trigger] terms@[i], ty) {
                    assert(access.writes(ty));
                    let j = access.write@.index_of(ty);
                    assert(taken@[n_read + j] == (BorrowLock { ty, exclusive: true }));
                }
                if taken@.contains(BorrowLock { ty, exclusive: true }) {
                    let j = choose|j: int|
                        0 <= j < taken@.len() && taken@[j] == (BorrowLock { ty, exclusive: true });
                    if j < n_read {
                        assert(taken@[j] == (BorrowLock { ty: access.read@[j], exclusive: false }));
                        assert(false);
                    }
                    let j2 = j - n_read;
                    assert(taken@[n_read + j2] == (BorrowLock {
                        ty: access.write@[j2],
                        exclusive: true,
                    }));
                    assert(access.write@[j2] == ty);
                    assert(access.writes(ty));
                }
            }
        }
        let ghost locks0 = self.locks@;
        let mut k: usize = 0;
        while k < taken.len()
            invariant
                0 <= k <= taken@.len(),
                self.locks@ == locks0 + taken@.take(k as int),
                self.entities == old(self).entities,
                self.archetypes == old(self).archetypes,
                self.families == old(self).families,
                self.id == old(self).id,
            decreases taken@.len() - k,
        {
            self.locks.push(taken[k]);
            proof {
                assert(self.locks@ =~= locks0 + taken@.take(k as int + 1));
            }
            k = k + 1;
        }
        proof {
            assert(taken@.take(taken@.len() as int) =~= taken@);
            World::lemma_wf_locks_irrelevant(*old(self), *self);
        }
        let n_static = terms.len();
        let rows = run_query(self, &terms);
        proof {
            assert(query_rows(*self, terms@) == query_rows(*old(self), terms@)) by {
                World::lemma_query_rows_ignore_locks(*old(self), *self, terms@);
            }
        }
        Ok(Query { terms, n_static, rows, locks: taken })
    }

    /// Hands a query's borrows back to the store: each recorded borrow
    /// releases the first matching outstanding lock.
    #[verifier::loop_isolation(false)]
    pub fn release(&mut self, q: Query)
        requires
            old(self).wf(),
        ensures
            final(self).wf(),
            final(self).entities == old(self).entities,
            final(self).archetypes == old(self).archetypes,
            final(self).families == old(self).families,
            final(self).id == old(self).id,
            final(self).locks@ == World::locks_released(old(self).locks@, q.locks@),
    {
        let mut k: usize = 0;
        let ghost qlocks = q.locks@;
        while k < q.locks.len()
            invariant
                0 <= k <= qlocks.len(),
                q.locks@ == qlocks,
                self.entities == old(self).entities,
                self.archetypes == old(self).archetypes,
                self.families == old(self).families,
                self.id == old(self).id,
                self.locks@ == World::locks_released(old(self).locks@, qlocks.take(k as int)),
            decreases qlocks.len() - k,
        {
            let l = q.locks[k];
            let ghost pre = self.locks@;
            let mut i: usize = 0;
            let mut found = false;
            while i < self.locks.len() && !found
                invariant
                    0 <= i <= self.locks@.len(),
                    found ==> self.locks@ == World::lock_removed(pre, l),
                    !found ==> self.locks@ == pre && forall|j: int|
                        0 <= j < i ==> pre[j] != l,
                    self.entities == old(self).entities,
                    self.archetypes == old(self).archetypes,
                    self.families == old(self).families,
                    self.id == old(self).id,
                decreases self.locks@.len() - i + (if found { 0int } else { 1int }),
            {
                if self.locks[i] == l {
                    proof {
                        pre.index_of_first_ensures(l);
                        assert(pre[i as int] == l);
                        assert(pre.contains(l));
                        let i2 = pre.index_of_first(l)->0;
                        if i2 < i {
                            assert(pre[i2] == l);
                            assert(false);
                        }
                        if i2 > i {
                            assert(pre[i as int] != l);
                            assert(false);
                        }
                        assert(pre.index_of_first(l) == Some(i as int));
                    }
                    self.locks.remove(i);
                    found = true;
                    proof {
                        assert(self.locks@ =~= World::lock_removed(pre, l));
                    }
                } else {
                    i = i + 1;
                }
            }
            proof {
                if !found {
                    assert(forall|j: int| 0 <= j < pre.len() ==> pre[j] != l);
                    pre.index_of_first_ensures(l);
                    if pre.index_of_first(l) is Some {
                        let j = pre.index_of_first(l)->0;
                        assert(pre[j] == l);
                        assert(false);
                    }
                    assert(self.locks@ =~= World::lock_removed(pre, l));
                }
                assert(qlocks.take(k as int + 1) =~= qlocks.take(k as int).push(l));
                assert(World::locks_released(old(self).locks@, qlocks.take(k as int + 1))
                    == World::lock_removed(
                    World::locks_released(old(self).locks@, qlocks.take(k as int)),
                    l,
                )) by {
                    World::lemma_locks_released_push(
                        old(self).locks@,
                        qlocks.take(k as int),
                        l,
                    );
                }
            }
            k = k + 1;
        }
        proof {
            assert(qlocks.take(qlocks.len() as int) =~= qlocks);
            World::lemma_wf_locks_irrelevant(*old(self), *self);
        }
    }

    /// The invariant reads the entities, archetypes and families alone: a
    /// store that differs only in its lock list is just as well formed.
    pub proof fn lemma_wf_locks_irrelevant(w0: World, w1: World)
        requires
            w0.wf(),
            w1.entities == w0.entities,
            w1.archetypes == w0.archetypes,
            w1.families == w0.families,
        ensures
            w1.wf(),
    {
        World::lemma_keys_carry(w0, w1);
        assert forall|a: int| w1.arch_dom(a) implies #[trigger] w1.arch_ok(a) by {
            assert(w0.arch_ok(a));
        }
        assert forall|e2: crate::entities::Entity| #[trigger] w1.spec_alive(e2) implies w1.arch_dom(
            w1.arch_id(e2),
        ) && w1.arch(w1.arch_id(e2)).has_entity(e2) by {
            assert(w0.spec_alive(e2));
        }
    }

    /// One lock given back: the first outstanding occurrence goes away;
    /// giving back a lock the store does not hold changes nothing.
    pub open spec fn lock_removed(locks: Seq<BorrowLock>, l: BorrowLock) -> Seq<BorrowLock> {
        match locks.index_of_first(l) {
            Some(i) => locks.remove(i),
            None => locks,
        }
    }

    /// Every lock of `given` handed back, in order.
    pub open spec fn locks_released(locks: Seq<BorrowLock>, given: Seq<BorrowLock>) -> Seq<
        BorrowLock,
    >
        decreases given.len(),
    {
        if given.len() == 0 {
            locks
        } else {
            World::lock_removed(World::locks_released(locks, given.drop_last()), given.last())
        }
    }

    pub proof fn lemma_locks_released_push(
        locks: Seq<BorrowLock>,
        given: Seq<BorrowLock>,
        l: BorrowLock,
    )
        ensures
            World::locks_released(locks, given.push(l)) == World::lock_removed(
                World::locks_released(locks, given),
                l,
            ),
    {
        assert(given.push(l).drop_last() =~= given);
        assert(given.push(l).last() == l);
    }

    /// The rows a query yields read only the archetypes and the column
    /// families, never the lock list.
    pub proof fn lemma_query_rows_ignore_locks(w0: World, w1: World, terms: Seq<QueryTerm>)
        requires
            w1.entities == w0.entities,
            w1.archetypes == w0.archetypes,
            w1.families == w0.families,
        ensures
            query_rows(w1, terms) == query_rows(w0, terms),
    {
        assert forall|n: int| 0 <= n <= w0.n_archetypes() implies rows_upto(w1, terms, n)
            =~= rows_upto(w0, terms, n) by {
            World::lemma_rows_upto_ignore_locks(w0, w1, terms, n);
        }
        assert(query_rows(w1, terms) =~= query_rows(w0, terms));
    }

    pub proof fn lemma_rows_upto_ignore_locks(
        w0: World,
        w1: World,
        terms: Seq<QueryTerm>,
        n: int,
    )
        requires
            w1.entities == w0.entities,
            w1.archetypes == w0.archetypes,
            w1.families == w0.families,
        ensures
            rows_upto(w1, terms, n) == rows_upto(w0, terms, n),
        decreases n,
    {
        if n > 0 {
            World::lemma_rows_upto_ignore_locks(w0, w1, terms, n - 1);
            assert(w1.arch(n - 1) == w0.arch(n - 1));
            assert(arch_rows(w1, w1.arch(n - 1), terms) =~= arch_rows(w0, w0.arch(n - 1), terms))
                by {
                assert forall|r: int|
                    0 <= r < w0.arch(n - 1).entities@.len() implies #[trigger] spec_row(
                    w1,
                    w1.arch(n - 1),
                    r,
                    terms,
                ) =~= spec_row(w0, w0.arch(n - 1), r, terms) by {
                    assert forall|i: int| 0 <= i < terms.len() implies #[trigger] spec_item(
                        w1,
                        w1.arch(n - 1),
                        r,
                        terms[i],
                    ) == spec_item(w0, w0.arch(n - 1), r, terms[i]) by {}
                }
            }
            assert(rows_upto(w1, terms, n) =~= rows_upto(w0, terms, n));
        }
    }
}

} // verus!
