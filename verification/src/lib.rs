//! An in-memory, columnar entity-component store.
//!
//! Entities are stable integer identities grouped by the exact set of
//! component types attached to them (their archetype).  Each component type
//! is registered with a store-wide dense handle (`EcsTypeId`) and stored in
//! per-archetype columns that stay row-aligned with the archetype's entity
//! list.  Structural mutation (adding or removing a component) migrates a
//! whole row between archetypes by swap-remove, and the query engine joins
//! columns across every matching archetype.

mod archetype;
mod column_join;
mod commands;
mod component;
mod dynamic_storage;
mod entities;
mod laws;
mod query;
mod static_columns;
mod storage;
mod system;
mod world;

pub use archetype::Archetype;
pub use archetype::EcsTypeId;
pub use column_join::ColumnIterator;
pub use column_join::Maybe;
pub use column_join::QueryParam;
pub use column_join::Unsatisfied;
pub use column_join::WithEntities;
pub use commands::CommandBuffer;
pub use commands::WorldCommand;
pub use component::Component;
pub use dynamic_storage::ColumnLayout;
pub use dynamic_storage::DynamicTable;
pub use dynamic_storage::MAX_COLUMN_ALIGN;
pub use entities::Entities;
pub use entities::Entity;
pub use entities::EntityMeta;
pub use laws::count_without;
pub use laws::lemma_archetype_uniqueness;
pub use laws::lemma_identities_never_reused;
pub use laws::lemma_insert_remove_round_trip;
pub use laws::lemma_maybe_query_parity;
pub use laws::lemma_query_row_count;
pub use laws::lemma_query_write_conflict;
pub use laws::lemma_row_alignment;
pub use laws::lemma_unsatisfied_row_count;
pub use laws::lemma_write_write_conflict;
pub use laws::matching_entity_count;
pub use query::get_access;
pub use query::run_query;
pub use query::DynQueryParam;
pub use query::DynQueryParamKind;
pub use query::Query;
pub use query::QueryItem;
pub use query::QueryItemModel;
pub use query::QueryIter;
pub use query::QueryTerm;
pub use query::WorldBorrowError;
pub use static_columns::EntityBuilder;
pub use static_columns::Table;
pub use storage::RawTable;
pub use system::Access;
pub use world::BorrowLock;
pub use world::World;
pub use world::WorldId;
