use vstd::prelude::*;
use crate::error::MigrateResult;

verus! {

/// A schema migration: an id, unique and stable, and the SQL batch that applies it.
///
/// The id is recorded in the migrations ledger once the batch is committed. Lists of
/// migrations are applied in list order, so ids are usually numbered (`001_init`).
#[derive(Debug, Clone)]
pub struct Migration {
    /// Unique identifier, usually the file name without its extension.
    pub id: &'static str,
    /// One or more SQL statements, separated by semicolons.
    pub sql: &'static str,
}

impl Migration {
    pub fn new(id: &'static str, sql: &'static str) -> (r: Self)
        ensures
            r.id == id,
            r.sql == sql,
    {
        Migration { id, sql }
    }
}

/// A migration of a service that embeds its migration files by name.
pub struct SqlMigration {
    pub id: &'static str,
    pub sql: &'static str,
}

impl SqlMigration {
    pub fn new(id: &'static str, sql: &'static str) -> (r: Self)
        ensures
            r.id == id,
            r.sql == sql,
    {
        SqlMigration { id, sql }
    }
}

/// A seed: an id and an action that writes data through the connection it is given,
/// which is bound to the seed's own transaction.
#[derive(Clone, Copy)]
pub struct Seed<F> {
    pub id: &'static str,
    pub seed_fn: F,
}

impl<F> Seed<F> {
    pub fn new(id: &'static str, seed_fn: F) -> (r: Self)
        ensures
            r.id == id,
            r.seed_fn == seed_fn,
    {
        Seed { id, seed_fn }
    }
}

/// The action of a seed as a plain function.
pub type SqliteSeedFn = fn(&rusqlite::Connection) -> MigrateResult<()>;

} // verus!
