use vstd::prelude::*;

use crate::error::Error;
use crate::model::MigrationModel;

verus! {

/// Deployment-stage tag of a migration.  A hint consumed by phase-filtered
/// execution; the ordering of migrations never depends on it.
#[derive(Clone, Copy, PartialEq, Eq, Structural, Debug)]
pub enum Phase {
    PreDeploy,
    PostDeploy,
}

/// Capability of running SQL against a target: anything that can execute a
/// statement batch can serve as the execution context of a migration.
///
/// The context's ghost `log` records every batch handed to it, in order, so
/// callers can state exactly which SQL ran and in what sequence.  An error is
/// reported as the executor's message; nothing else is promised of the
/// target's state afterwards.
pub trait SqlExecutor {
    /// The batches handed to this context so far, oldest first.  A batch is
    /// logged whether or not it succeeded: it was attempted either way.  A
    /// context that does not model its history leaves this unspecified.
    open spec fn log(&self) -> Seq<Seq<char>> {
        arbitrary()
    }

    /// Execute one SQL statement batch against the target.
    fn execute(&mut self, sql: &str) -> (r: Result<(), String>)
        ensures
            final(self).log() == old(self).log().push(sql@),
    ;
}

/// A migration defined by SQL strings: a versioned, named, phase-tagged unit
/// of forward and optional backward SQL, immutable after construction.
pub struct SqlMigration {
    version: u64,
    name: String,
    phase: Phase,
    up_sql: String,
    down_sql: Option<String>,
}

impl View for SqlMigration {
    type V = MigrationModel;

    closed spec fn view(&self) -> MigrationModel {
        MigrationModel {
            version: self.version,
            name: self.name@,
            phase: self.phase,
            up_sql: self.up_sql@,
            down_sql: match self.down_sql {
                Some(s) => Some(s@),
                None => None,
            },
        }
    }
}

impl Clone for SqlMigration {
    fn clone(&self) -> (r: Self)
        ensures
            r@ == self@,
    {
        SqlMigration {
            version: self.version,
            name: self.name.clone(),
            phase: self.phase,
            up_sql: self.up_sql.clone(),
            down_sql: match &self.down_sql {
                Some(s) => Some(s.clone()),
                None => None,
            },
        }
    }
}

impl SqlMigration {
    /// Create a new SQL migration: pre-deployment phase, no rollback SQL.
    pub fn new(version: u64, name: &str, up_sql: &str) -> (r: SqlMigration)
        ensures
            r@ == (MigrationModel {
                version,
                name: name@,
                phase: Phase::PreDeploy,
                up_sql: up_sql@,
                down_sql: None,
            }),
    {
        SqlMigration {
            version,
            name: name.to_owned(),
            phase: Phase::PreDeploy,
            up_sql: up_sql.to_owned(),
            down_sql: None,
        }
    }

    /// Set the deployment phase.
    pub fn phase(self, phase: Phase) -> (r: SqlMigration)
        ensures
            r@ == (MigrationModel { phase, ..self@ }),
    {
        SqlMigration { phase, ..self }
    }

    /// Add rollback SQL, making the migration reversible.
    pub fn with_down(self, down_sql: &str) -> (r: SqlMigration)
        ensures
            r@ == (MigrationModel { down_sql: Some(down_sql@), ..self@ }),
    {
        SqlMigration { down_sql: Some(down_sql.to_owned()), ..self }
    }

    /// The forward SQL.
    pub fn up_sql(&self) -> (r: &str)
        ensures
            r@ == self@.up_sql,
    {
        self.up_sql.as_str()
    }

    /// The rollback SQL, if any.
    pub fn down_sql(&self) -> (r: Option<&str>)
        ensures
            r is Some <==> self@.down_sql is Some,
            r matches Some(s) ==> self@.down_sql == Some(s@),
    {
        match &self.down_sql {
            Some(s) => Some(s.as_str()),
            None => None,
        }
    }

    /// The version: the sole ordering key within a registry.
    pub fn version(&self) -> (r: u64)
        ensures
            r == self@.version,
    {
        self.version
    }

    /// The display name, stored for audit history.
    pub fn name(&self) -> (r: &str)
        ensures
            r@ == self@.name,
    {
        self.name.as_str()
    }

    /// The deployment phase.
    pub fn get_phase(&self) -> (r: Phase)
        ensures
            r == self@.phase,
    {
        self.phase
    }

    /// Whether rollback SQL was defined.
    pub fn has_rollback(&self) -> (r: bool)
        ensures
            r == (self@.down_sql is Some),
    {
        self.down_sql.is_some()
    }

    /// Execute the forward action against a context: the forward SQL is
    /// handed to the context exactly once, and nothing else is.  A failure
    /// carries this migration's version and the executor's message.
    pub fn apply<Ctx: SqlExecutor>(&self, ctx: &mut Ctx) -> (r: Result<(), Error>)
        ensures
            final(ctx).log() == old(ctx).log().push(self@.up_sql),
            r matches Err(e) ==> e matches Error::MigrationFailed(v, _) && v == self@.version,
    {
        match ctx.execute(self.up_sql.as_str()) {
            Ok(()) => Ok(()),
            Err(msg) => Err(Error::failed(self.version, msg)),
        }
    }

    /// Execute the backward action against a context: the rollback SQL, when
    /// defined, is handed to the context exactly once, and nothing else is.
    /// Fails with `RollbackNotSupported` exactly when no rollback SQL was
    /// defined, and on that branch the context is untouched; an executor
    /// failure carries this migration's version and the message.
    pub fn rollback<Ctx: SqlExecutor>(&self, ctx: &mut Ctx) -> (r: Result<(), Error>)
        ensures
            self@.down_sql matches Some(d) ==> final(ctx).log() == old(ctx).log().push(d),
            self@.down_sql is None ==> r == Err::<(), Error>(
                Error::RollbackNotSupported(self@.version),
            ) && *final(ctx) == *old(ctx),
            r matches Err(e) ==> (e == Error::RollbackNotSupported(self@.version)
                && self@.down_sql is None) || (e matches Error::MigrationFailed(v, _)
                && v == self@.version && self@.down_sql is Some),
    {
        match &self.down_sql {
            Some(sql) => match ctx.execute(sql.as_str()) {
                Ok(()) => Ok(()),
                Err(msg) => Err(Error::failed(self.version, msg)),
            },
            None => Err(Error::RollbackNotSupported(self.version)),
        }
    }

    /// Cheap capability probe: agrees exactly with `rollback`'s behavior.
    pub fn can_rollback(&self) -> (r: bool)
        ensures
            r == (self@.down_sql is Some),
    {
        self.down_sql.is_some()
    }
}

} // verus!
