//! The store's global laws, stated and proved over the public contracts:
//! row alignment, archetype uniqueness, the insert/remove round trip, the
//! write-conflict rejection rule, and the row-count parity of optional
//! terms.

use vstd::prelude::*;

use crate::archetype::EcsTypeId;
use crate::entities::Entity;
use crate::query::arch_rows;
use crate::query::query_rows;
use crate::query::rows_upto;
use crate::query::term_matches;
use crate::query::term_writes;
use crate::query::terms_conflict;
use crate::query::terms_match;
use crate::query::QueryTerm;
use crate::system::Access;
use crate::world::World;

verus! {

/// Row alignment: in a well-formed store, every column of an archetype is
/// exactly as long as the archetype's entity list, so the i-th entity id
/// always corresponds to the i-th cell of every column of its group.
pub proof fn lemma_row_alignment(w: World, a: int, ty: EcsTypeId)
    requires
        w.wf(),
        w.arch_dom(a),
        w.arch(a).has_ty(ty),
    ensures
        (ty.0 as int) < w.n_types(),
        w.families@[ty.0 as int].col_len(w.arch(a).col_of(ty)) == w.arch(a).entities@.len(),
{
    assert(w.arch_ok(a));
    let ar = w.arch(a);
    let k = ar.ty_index(ty);
    assert(ar.column_indices@[k].0 == ty);
    ar.lemma_col_at(k);
}

/// Archetype uniqueness: no two archetypes of one well-formed store carry
/// the same component-type set.
pub proof fn lemma_archetype_uniqueness(w: World, a: int, b: int)
    requires
        w.wf(),
        w.arch_dom(a),
        w.arch_dom(b),
        a != b,
    ensures
        !w.arch(a).same_keys(w.arch(b)),
{
}

/// Insert/remove round trip: inserting a fresh component cell and removing
/// it again hands the very same cell back and returns the entity to the
/// archetype it occupied before the insert.  The hypotheses are exactly what
/// `World::insert_erased` and `World::remove_erased` ensure on that pair of
/// calls.
pub proof fn lemma_insert_remove_round_trip(
    w0: World,
    w1: World,
    w2: World,
    e: Entity,
    ty: EcsTypeId,
    cell: Seq<u8>,
    removed: Seq<u8>,
)
    requires
        w0.wf(),
        w1.wf(),
        w2.wf(),
        w0.spec_alive(e),
        !w0.spec_has_component(e, ty),
        w1.spec_alive(e),
        w1.spec_has_component(e, ty),
        w1.component_bytes(e, ty) == cell,
        World::keys_preserved(w0, w1),
        forall|ty2: EcsTypeId|
            #[trigger] w1.spec_has_component(e, ty2) <==> (w0.spec_has_component(e, ty2) || ty2
                == ty),
        removed == w1.component_bytes(e, ty),
        w2.spec_alive(e),
        World::keys_preserved(w1, w2),
        forall|ty2: EcsTypeId|
            #[trigger] w2.spec_has_component(e, ty2) <==> (w1.spec_has_component(e, ty2) && ty2
                != ty),
    ensures
        removed == cell,
        w2.arch_id(e) == w0.arch_id(e),
{
    let a0 = w0.arch_id(e);
    let a2 = w2.arch_id(e);
    assert(w0.arch_dom(a0) && w0.arch(a0).has_entity(e));
    assert(w2.arch_dom(a2) && w2.arch(a2).has_entity(e));
    assert(0 <= a0 < w0.n_archetypes());
    assert(w1.arch(a0).same_keys(w0.arch(a0)));
    assert(w2.arch(a0).same_keys(w1.arch(a0)));
    // the old archetype still exists in the final store, with the same keys
    assert forall|ty2: EcsTypeId| #[trigger] w2.arch(a2).has_ty(ty2) <==> w2.arch(a0).has_ty(
        ty2,
    ) by {
        assert(w2.spec_has_component(e, ty2) == w2.arch(a2).has_ty(ty2));
        assert(w0.spec_has_component(e, ty2) == w0.arch(a0).has_ty(ty2));
        assert(w2.spec_has_component(e, ty2) <==> (w1.spec_has_component(e, ty2) && ty2 != ty));
        assert(w1.spec_has_component(e, ty2) <==> (w0.spec_has_component(e, ty2) || ty2 == ty));
        if ty2 == ty {
            assert(!w2.spec_has_component(e, ty2));
            assert(!w0.spec_has_component(e, ty2));
        }
        assert(w2.arch(a0).has_ty(ty2) == w1.arch(a0).has_ty(ty2));
        assert(w1.arch(a0).has_ty(ty2) == w0.arch(a0).has_ty(ty2));
    }
    assert(w2.arch(a2).same_keys(w2.arch(a0)));
    if a2 != a0 {
        assert(w2.arch_dom(a0));
        assert(!w2.arch(a2).same_keys(w2.arch(a0)));
        assert(false);
    }
}

/// Identity reuse is impossible: an identity that was ever fixed up lies
/// below the allocator's fixed-up count, the reservation counter never
/// shrinks and bounds it from above, and every later reservation or spawn
/// hands out an index at or above that counter.
pub proof fn lemma_identities_never_reused(w: World, e: Entity, fresh: Entity)
    requires
        w.wf(),
        (e.0 as int) < w.entities.fixed_len() as int,
        fresh.0 >= w.entities.reserved_len(),
    ensures
        fresh != e,
{
}

/// Access-conflict rejection: two access sets that both write the same
/// component type can never be composed — `join_with` reports the conflict.
pub proof fn lemma_write_write_conflict(a: Access, b: Access, ty: EcsTypeId)
    requires
        a.writes(ty),
        b.writes(ty),
    ensures
        Access::join_conflict(a, b),
{
}

/// The same rule at the query-shape level: a shape containing two writers of
/// one component type — in particular, the concatenation of two shapes that
/// each write it — is rejected at composition time.
pub proof fn lemma_query_write_conflict(terms: Seq<QueryTerm>, i: int, j: int, ty: EcsTypeId)
    requires
        0 <= i < terms.len(),
        0 <= j < terms.len(),
        i != j,
        term_writes(terms[i], ty),
        term_writes(terms[j], ty),
    ensures
        terms_conflict(terms),
{
}

/// The number of live rows of the first `n` archetypes that a shape yields.
pub open spec fn matching_entity_count(w: World, terms: Seq<QueryTerm>, n: int) -> nat
    decreases n,
{
    if n <= 0 {
        0
    } else {
        matching_entity_count(w, terms, n - 1) + (if terms_match(terms, w.arch(n - 1)) {
            w.arch(n - 1).entities@.len()
        } else {
            0
        })
    }
}

/// Row-count law: a query yields exactly one row per entity of every
/// matching archetype.
pub proof fn lemma_query_row_count(w: World, terms: Seq<QueryTerm>, n: int)
    requires
        0 <= n,
    ensures
        rows_upto(w, terms, n).len() == matching_entity_count(w, terms, n),
    decreases n,
{
    if n > 0 {
        lemma_query_row_count(w, terms, n - 1);
    }
}

/// Optional-term parity: adding a `MaybeRead` term to a shape changes which
/// items each row carries, but never how many rows come out — the row count
/// stays that of the mandatory terms.
pub proof fn lemma_maybe_row_parity(w: World, terms: Seq<QueryTerm>, id: EcsTypeId, n: int)
    requires
        0 <= n,
    ensures
        rows_upto(w, terms.push(QueryTerm::MaybeRead(id)), n).len() == rows_upto(
            w,
            terms,
            n,
        ).len(),
    decreases n,
{
    let terms2 = terms.push(QueryTerm::MaybeRead(id));
    if n > 0 {
        lemma_maybe_row_parity(w, terms, id, n - 1);
        let a = w.arch(n - 1);
        assert(terms_match(terms2, a) == terms_match(terms, a)) by {
            if terms_match(terms, a) {
                assert forall|i: int| 0 <= i < terms2.len() implies term_matches(
                    #[trigger] terms2[i],
                    a,
                ) by {
                    if i < terms.len() {
                        assert(terms2[i] == terms[i]);
                    } else {
                        assert(terms2[i] == QueryTerm::MaybeRead(id));
                    }
                }
            }
            if terms_match(terms2, a) {
                assert forall|i: int| 0 <= i < terms.len() implies term_matches(
                    #[trigger] terms[i],
                    a,
                ) by {
                    assert(terms2[i] == terms[i]);
                    assert(term_matches(terms2[i], a));
                }
            }
        }
        assert(arch_rows(w, a, terms2).len() == arch_rows(w, a, terms).len());
    }
}

/// The same parity for whole queries: the shape with the optional term
/// yields exactly as many rows as the mandatory shape alone.
pub proof fn lemma_maybe_query_parity(w: World, terms: Seq<QueryTerm>, id: EcsTypeId)
    ensures
        query_rows(w, terms.push(QueryTerm::MaybeRead(id))).len() == query_rows(w, terms).len(),
{
    lemma_maybe_row_parity(w, terms, id, w.n_archetypes() as int);
}

/// The number of entities among the first `n` archetypes that match the
/// shape and do not carry `id`.
pub open spec fn count_without(w: World, terms: Seq<QueryTerm>, id: EcsTypeId, n: int) -> nat
    decreases n,
{
    if n <= 0 {
        0
    } else {
        count_without(w, terms, id, n - 1) + (if terms_match(terms, w.arch(n - 1)) && !w.arch(
            n - 1,
        ).has_ty(id) {
            w.arch(n - 1).entities@.len()
        } else {
            0
        })
    }
}

/// Negated-term parity: a shape extended with a negated column term yields
/// one row per entity of every archetype that matches the mandatory terms
/// and lacks the negated type — the filter changes which archetypes join,
/// never the one-row-per-entity accounting.
pub proof fn lemma_unsatisfied_row_count(w: World, terms: Seq<QueryTerm>, id: EcsTypeId, n: int)
    requires
        0 <= n,
    ensures
        rows_upto(w, terms.push(QueryTerm::Without(id)), n).len() == count_without(
            w,
            terms,
            id,
            n,
        ),
    decreases n,
{
    let terms2 = terms.push(QueryTerm::Without(id));
    if n > 0 {
        lemma_unsatisfied_row_count(w, terms, id, n - 1);
        let a = w.arch(n - 1);
        assert(terms_match(terms2, a) == (terms_match(terms, a) && !a.has_ty(id))) by {
            if terms_match(terms, a) && !a.has_ty(id) {
                assert forall|i: int| 0 <= i < terms2.len() implies term_matches(
                    #[trigger] terms2[i],
                    a,
                ) by {
                    if i < terms.len() {
                        assert(terms2[i] == terms[i]);
                    } else {
                        assert(terms2[i] == QueryTerm::Without(id));
                    }
                }
            }
            if terms_match(terms2, a) {
                assert(term_matches(terms2[terms.len() as int], a));
                assert forall|i: int| 0 <= i < terms.len() implies term_matches(
                    #[trigger] terms[i],
                    a,
                ) by {
                    assert(terms2[i] == terms[i]);
                    assert(term_matches(terms2[i], a));
                }
            }
        }
        assert(arch_rows(w, a, terms2).len() == a.entities@.len());
    }
}

} // verus!
