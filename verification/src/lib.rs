//! A schema-migration engine: versioned, named migrations with forward and
//! optional backward SQL actions, a durable ledger of what has been applied,
//! and a runner that reconciles the registry against the ledger and drives
//! transitions in version order.
//!
//! The engine is storage-agnostic: the ledger is anything implementing
//! [`MigrationStore`] (an in-memory store and a SQLite-backed store are
//! provided), and a migration runs against anything implementing
//! [`SqlExecutor`].
//!
//! Execution is synchronous and single-threaded per runner.  Nothing here
//! prevents two runners from reconciling against the same store at once;
//! excluding concurrent writers on one ledger is the caller's
//! responsibility.

pub mod error;
pub mod migration;
pub mod model;
pub mod runner;
pub mod sqlite;
pub mod store;

pub use error::Error;
pub use migration::{Phase, SqlExecutor, SqlMigration};
pub use model::{MigrationModel, RecordModel};
pub use runner::{MigrationRunner, PlanAction, PlanStep};
pub use sqlite::{SqliteContext, SqliteStore};
pub use store::{MemoryStore, MigrationRecord, MigrationStore};
