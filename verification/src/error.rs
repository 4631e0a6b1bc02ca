use vstd::prelude::*;

verus! {

/// The error taxonomy of the engine.
///
/// Every failure of registration, execution or persistence is one of these;
/// no error is swallowed, and multi-step operations abort at the failing step.
#[derive(Debug)]
pub enum Error {
    /// SQL text handed to an execution context could not be run.
    Sql(String),
    /// A migration was registered under a version that the registry already holds.
    DuplicateVersion(u64),
    /// The forward action of the migration with this version failed; the
    /// second field carries the executor's message.
    MigrationFailed(u64, String),
    /// A rollback was requested for the migration with this version, but it
    /// has no backward action.
    RollbackNotSupported(u64),
    /// The ledger records this version, yet the registry has no migration for
    /// it; the runner cannot know how to roll it back.
    MigrationNotFound(u64),
    /// The underlying persistence layer failed; carries its message.
    Store(String),
}

impl Error {
    /// Wrap a plain SQL failure message.
    pub fn sql(msg: String) -> (r: Error)
        ensures
            r == Error::Sql(msg),
    {
        Error::Sql(msg)
    }

    /// A forward or backward action of the migration with this version failed.
    pub fn failed(version: u64, detail: String) -> (r: Error)
        ensures
            r == Error::MigrationFailed(version, detail),
    {
        Error::MigrationFailed(version, detail)
    }

    /// The persistence layer failed.
    pub fn store(detail: String) -> (r: Error)
        ensures
            r == Error::Store(detail),
    {
        Error::Store(detail)
    }
}

} // verus!
