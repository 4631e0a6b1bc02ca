use migrations_sql::{Error, MemoryStore, MigrationRunner, MigrationStore, Phase, PlanAction,
    SqlExecutor, SqlMigration};

/// An executor that logs every statement and fails on a chosen one.
struct ScriptedExecutor {
    log: Vec<String>,
    fail_on: Option<String>,
}

impl ScriptedExecutor {
    fn ok() -> ScriptedExecutor {
        ScriptedExecutor { log: Vec::new(), fail_on: None }
    }

    fn failing_on(sql: &str) -> ScriptedExecutor {
        ScriptedExecutor { log: Vec::new(), fail_on: Some(sql.to_string()) }
    }
}

impl SqlExecutor for ScriptedExecutor {
    fn execute(&mut self, sql: &str) -> Result<(), String> {
        if let Some(bad) = &self.fail_on {
            if sql == bad {
                return Err("forced failure".to_string());
            }
        }
        self.log.push(sql.to_string());
        Ok(())
    }
}

fn three_step_runner() -> MigrationRunner<MemoryStore> {
    let mut runner = MigrationRunner::new(MemoryStore::new());
    runner.register(SqlMigration::new(1, "create_users", "UP 1").with_down("DOWN 1")).unwrap();
    runner.register(SqlMigration::new(2, "add_email", "UP 2").with_down("DOWN 2")).unwrap();
    runner.register(SqlMigration::new(3, "add_index", "UP 3").with_down("DOWN 3")).unwrap();
    runner
}

#[test]
fn pending_is_exactly_the_versions_above_current_ascending() {
    let mut store = MemoryStore::new();
    store.init().unwrap();
    store.mark_applied(1, "create_users").unwrap();

    // Registered out of order: pending still comes back ascending.
    let mut runner = MigrationRunner::new(store);
    runner.register(SqlMigration::new(3, "c", "UP 3")).unwrap();
    runner.register(SqlMigration::new(1, "a", "UP 1")).unwrap();
    runner.register(SqlMigration::new(2, "b", "UP 2")).unwrap();

    let pending = runner.pending().unwrap();
    let versions: Vec<u64> = pending.iter().map(|m| m.version()).collect();
    assert_eq!(versions, vec![2, 3]);
}

#[test]
fn duplicate_version_is_rejected_at_registration() {
    let mut runner = MigrationRunner::new(MemoryStore::new());
    runner.register(SqlMigration::new(1, "a", "UP 1")).unwrap();
    let err = runner.register(SqlMigration::new(1, "b", "UP 1 again")).unwrap_err();
    assert!(matches!(err, Error::DuplicateVersion(1)));
    // The registry is unchanged: only the first migration is pending.
    assert_eq!(runner.pending().unwrap().len(), 1);
    assert_eq!(runner.pending().unwrap()[0].name(), "a");
}

#[test]
fn init_twice_changes_nothing_observable() {
    let mut runner = three_step_runner();
    runner.init().unwrap();
    let mut ctx = ScriptedExecutor::ok();
    runner.migrate(&mut ctx).unwrap();
    let before = runner.applied().unwrap();
    runner.init().unwrap();
    runner.init().unwrap();
    let after = runner.applied().unwrap();
    assert_eq!(before.len(), after.len());
    for (b, a) in before.iter().zip(after.iter()) {
        assert_eq!(b.version, a.version);
        assert_eq!(b.name, a.name);
        assert_eq!(b.applied_at, a.applied_at);
    }
}

#[test]
fn apply_then_rollback_restores_current_version() {
    let mut runner = three_step_runner();
    runner.init().unwrap();
    let mut ctx = ScriptedExecutor::ok();
    runner.migrate_to(&mut ctx, 2).unwrap();
    let before = runner.current_version().unwrap();
    assert_eq!(before, 2);

    // Apply migration 3, then roll it back.
    runner.migrate(&mut ctx).unwrap();
    assert_eq!(runner.current_version().unwrap(), 3);
    runner.migrate_to(&mut ctx, 2).unwrap();

    assert_eq!(runner.current_version().unwrap(), before);
    assert!(runner.applied().unwrap().iter().all(|r| r.version != 3));
}

#[test]
fn migrate_extends_the_ledger_with_exactly_the_pending_set() {
    let mut store = MemoryStore::new();
    store.mark_applied(1, "create_users").unwrap();
    let mut runner = MigrationRunner::new(store);
    runner.register(SqlMigration::new(1, "create_users", "UP 1")).unwrap();
    runner.register(SqlMigration::new(2, "add_email", "UP 2")).unwrap();
    runner.register(SqlMigration::new(3, "add_index", "UP 3")).unwrap();

    let mut ctx = ScriptedExecutor::ok();
    let count = runner.migrate(&mut ctx).unwrap();
    assert_eq!(count, 2);
    let versions: Vec<u64> = runner.applied().unwrap().iter().map(|r| r.version).collect();
    assert_eq!(versions, vec![1, 2, 3]);
    // Only the pending migrations ran, in ascending order.
    assert_eq!(ctx.log, vec!["UP 2".to_string(), "UP 3".to_string()]);
}

#[test]
fn migrate_halts_on_first_failure_with_partial_count() {
    let mut runner = three_step_runner();
    runner.init().unwrap();
    // The migration at position 2 of the pending set fails.
    let mut ctx = ScriptedExecutor::failing_on("UP 2");
    let (count, err) = runner.migrate(&mut ctx).unwrap_err();
    assert_eq!(count, 1);
    assert!(matches!(err, Error::MigrationFailed(2, _)));
    // The ledger reflects exactly the first applied migration.
    let versions: Vec<u64> = runner.applied().unwrap().iter().map(|r| r.version).collect();
    assert_eq!(versions, vec![1]);
    assert_eq!(runner.current_version().unwrap(), 1);
    // Migration 3 was never attempted.
    assert_eq!(ctx.log, vec!["UP 1".to_string()]);
}

#[test]
fn migrate_to_rolls_back_descending_and_applies_ascending() {
    let mut runner = three_step_runner();
    runner.init().unwrap();
    let mut ctx = ScriptedExecutor::ok();
    runner.migrate(&mut ctx).unwrap();

    let mut down_ctx = ScriptedExecutor::ok();
    runner.migrate_to(&mut down_ctx, 1).unwrap();
    assert_eq!(down_ctx.log, vec!["DOWN 3".to_string(), "DOWN 2".to_string()]);
    assert_eq!(runner.current_version().unwrap(), 1);

    let mut up_ctx = ScriptedExecutor::ok();
    runner.migrate_to(&mut up_ctx, 3).unwrap();
    assert_eq!(up_ctx.log, vec!["UP 2".to_string(), "UP 3".to_string()]);
    assert_eq!(runner.current_version().unwrap(), 3);

    // Target equal to current: a no-op.
    let mut idle_ctx = ScriptedExecutor::ok();
    runner.migrate_to(&mut idle_ctx, 3).unwrap();
    assert!(idle_ctx.log.is_empty());

    // A target above every registered version is not an error: everything
    // pending below it is applied, and nothing more.
    runner.migrate_to(&mut idle_ctx, 10).unwrap();
    assert_eq!(runner.current_version().unwrap(), 3);
}

#[test]
fn full_scenario_two_migrations_up_then_down() {
    let mut runner = MigrationRunner::new(MemoryStore::new());
    runner
        .register(SqlMigration::new(1, "create_users", "CREATE TABLE users").with_down(
            "DROP TABLE users",
        ))
        .unwrap();
    runner
        .register(SqlMigration::new(2, "add_email", "ALTER TABLE users ADD email").with_down(
            "ALTER TABLE users DROP email",
        ))
        .unwrap();
    runner.init().unwrap();
    assert_eq!(runner.current_version().unwrap(), 0);

    let mut ctx = ScriptedExecutor::ok();
    assert_eq!(runner.migrate(&mut ctx).unwrap(), 2);
    assert_eq!(runner.current_version().unwrap(), 2);

    runner.migrate_to(&mut ctx, 1).unwrap();
    assert_eq!(runner.current_version().unwrap(), 1);
    assert_eq!(ctx.log.last().unwrap(), "ALTER TABLE users DROP email");

    runner.migrate_to(&mut ctx, 0).unwrap();
    assert_eq!(runner.current_version().unwrap(), 0);
    assert!(runner.applied().unwrap().is_empty());
    assert_eq!(ctx.log.last().unwrap(), "DROP TABLE users");
}

#[test]
fn rollback_halts_at_a_migration_with_no_down_action() {
    let mut runner = MigrationRunner::new(MemoryStore::new());
    runner.register(SqlMigration::new(1, "a", "UP 1").with_down("DOWN 1")).unwrap();
    runner.register(SqlMigration::new(2, "b", "UP 2")).unwrap();
    runner.register(SqlMigration::new(3, "c", "UP 3").with_down("DOWN 3")).unwrap();
    runner.init().unwrap();
    let mut ctx = ScriptedExecutor::ok();
    runner.migrate(&mut ctx).unwrap();

    let err = runner.migrate_to(&mut ctx, 0).unwrap_err();
    assert!(matches!(err, Error::RollbackNotSupported(2)));
    // Everything above the irreversible migration is rolled back; it and
    // everything below stay applied.
    let versions: Vec<u64> = runner.applied().unwrap().iter().map(|r| r.version).collect();
    assert_eq!(versions, vec![1, 2]);
    assert_eq!(ctx.log.last().unwrap(), "DOWN 3");
}

#[test]
fn rollback_of_an_unknown_recorded_version_is_fatal() {
    let mut store = MemoryStore::new();
    store.mark_applied(5, "mystery").unwrap();
    let mut runner = MigrationRunner::new(store);
    let mut ctx = ScriptedExecutor::ok();
    let err = runner.migrate_to(&mut ctx, 0).unwrap_err();
    assert!(matches!(err, Error::MigrationNotFound(5)));
    // The record stays: the runner cannot know how to roll it back.
    assert_eq!(runner.current_version().unwrap(), 5);
}

#[test]
fn memory_store_rejects_duplicates_and_unknown_rollbacks() {
    let mut store = MemoryStore::new();
    store.mark_applied(1, "one").unwrap();
    assert!(matches!(store.mark_applied(1, "one again"), Err(Error::Store(_))));
    assert!(matches!(store.mark_rolled_back(9), Err(Error::Store(_))));
    assert_eq!(store.applied().unwrap().len(), 1);
}

#[test]
fn plan_lists_the_apply_steps_without_running_anything() {
    let mut runner = three_step_runner();
    runner.init().unwrap();
    let plan = runner.plan().unwrap();
    assert_eq!(plan.len(), 3);
    assert_eq!(plan[0].version, 1);
    assert_eq!(plan[0].name, "create_users");
    assert!(matches!(plan[0].action, PlanAction::Apply));
    assert_eq!(plan[2].version, 3);
    // Planning applied nothing.
    assert_eq!(runner.current_version().unwrap(), 0);
}

#[test]
fn plan_to_lists_rollback_steps_descending() {
    let mut runner = three_step_runner();
    runner.init().unwrap();
    let mut ctx = ScriptedExecutor::ok();
    runner.migrate(&mut ctx).unwrap();

    let plan = runner.plan_to(1).unwrap();
    assert_eq!(plan.len(), 2);
    assert_eq!(plan[0].version, 3);
    assert_eq!(plan[1].version, 2);
    assert_eq!(plan[1].name, "add_email");
    assert!(matches!(plan[0].action, PlanAction::Rollback));
    assert!(matches!(plan[1].action, PlanAction::Rollback));
    // Planning rolled nothing back.
    assert_eq!(runner.current_version().unwrap(), 3);
}

#[test]
fn phase_filter_restricts_pending_and_migrate() {
    let mut runner = MigrationRunner::new(MemoryStore::new());
    runner.register(SqlMigration::new(1, "pre", "UP 1")).unwrap();
    runner
        .register(SqlMigration::new(2, "post", "UP 2").phase(Phase::PostDeploy))
        .unwrap();
    runner.register(SqlMigration::new(3, "pre too", "UP 3")).unwrap();
    runner.init().unwrap();

    let pre = runner.pending_in_phase(Phase::PreDeploy).unwrap();
    let versions: Vec<u64> = pre.iter().map(|m| m.version()).collect();
    assert_eq!(versions, vec![1, 3]);

    let mut ctx = ScriptedExecutor::ok();
    let count = runner.migrate_phase(&mut ctx, Phase::PostDeploy).unwrap();
    assert_eq!(count, 1);
    assert_eq!(ctx.log, vec!["UP 2".to_string()]);
    let recorded: Vec<u64> = runner.applied().unwrap().iter().map(|r| r.version).collect();
    assert_eq!(recorded, vec![2]);
}

#[test]
fn error_sql_constructor_wraps_the_message() {
    let e = Error::sql("syntax error near SELECT".to_string());
    assert!(matches!(e, Error::Sql(msg) if msg == "syntax error near SELECT"));
}

#[test]
fn memory_store_stamps_are_increasing() {
    let mut store = MemoryStore::new();
    store.mark_applied(1, "one").unwrap();
    store.mark_applied(2, "two").unwrap();
    let applied = store.applied().unwrap();
    assert!(applied[0].applied_at < applied[1].applied_at);
}
