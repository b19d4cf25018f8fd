//! Schema migrations and seed data for embedded SQLite databases, applied exactly once.
//!
//! A run reads the ledger of applied ids, keeps the pending items in list order, and
//! applies them inside transactions: one transaction for a whole batch of migrations,
//! one per seed. The sequencing lives in [`engine`], where it is proved; [`apply`]
//! drives it against the `rusqlite` connection that a [`sqlite::Database`] holds. [`discovery`] picks, orders and embeds
//! the migration and seed files of a package at build time.

pub mod apply;
pub mod discovery;
pub mod engine;
pub mod error;
pub mod ledger;
pub mod migration;
pub mod sqlite;

pub use crate::error::{Error, ErrorView, MigrateResult};
pub use crate::ledger::{AppliedIds, Ledger};
pub use crate::migration::{Migration, Seed, SqlMigration, SqliteSeedFn};
pub use crate::discovery::{Builder, FileEntry};
pub use crate::sqlite::Database;
