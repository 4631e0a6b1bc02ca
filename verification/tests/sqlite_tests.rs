use migrations_sql::{MigrationRunner, MigrationStore, SqlExecutor, SqlMigration, SqliteContext,
    SqliteStore};

#[test]
fn test_sqlite_store() {
    let mut store = SqliteStore::open_in_memory().unwrap();
    store.init().unwrap();

    assert_eq!(store.current_version().unwrap(), 0);
    assert!(store.applied().unwrap().is_empty());

    store.mark_applied(1, "first").unwrap();
    assert_eq!(store.current_version().unwrap(), 1);

    let applied = store.applied().unwrap();
    assert_eq!(applied.len(), 1);
    assert_eq!(applied[0].version, 1);
    assert_eq!(applied[0].name, "first");

    store.mark_rolled_back(1).unwrap();
    assert_eq!(store.current_version().unwrap(), 0);
}

#[test]
fn test_sqlite_context() {
    let mut ctx = SqliteContext::open_in_memory().unwrap();
    ctx.execute("CREATE TABLE test (id INTEGER PRIMARY KEY)").unwrap();
    ctx.execute("INSERT INTO test (id) VALUES (1)").unwrap();

    let count: i64 = ctx
        .connection()
        .query_row("SELECT COUNT(*) FROM test", [], |row| row.get(0))
        .unwrap();
    assert_eq!(count, 1);
}

#[test]
fn test_full_migration_flow() {
    let store = SqliteStore::open_in_memory().unwrap();
    let mut ctx = SqliteContext::open_in_memory().unwrap();

    let mut runner = MigrationRunner::new(store)
        .add(
            SqlMigration::new(
                1,
                "create_users",
                "CREATE TABLE users (id INTEGER PRIMARY KEY, name TEXT)",
            )
            .with_down("DROP TABLE users"),
        )
        .add(
            SqlMigration::new(2, "add_email", "ALTER TABLE users ADD COLUMN email TEXT")
                .with_down("ALTER TABLE users DROP COLUMN email"),
        );

    runner.init().unwrap();

    // Check pending
    let pending = runner.pending().unwrap();
    assert_eq!(pending.len(), 2);

    // Migrate
    let count = runner.migrate(&mut ctx).unwrap();
    assert_eq!(count, 2);
    assert_eq!(runner.current_version().unwrap(), 2);

    // Verify table exists
    ctx.execute("INSERT INTO users (name, email) VALUES ('test', 'test@example.com')").unwrap();

    // Rollback to version 1
    runner.migrate_to(&mut ctx, 1).unwrap();
    assert_eq!(runner.current_version().unwrap(), 1);

    // Rollback to version 0
    runner.migrate_to(&mut ctx, 0).unwrap();
    assert_eq!(runner.current_version().unwrap(), 0);
}

#[test]
fn test_sqlite_store_duplicate_version_rejected() {
    let mut store = SqliteStore::open_in_memory().unwrap();
    store.init().unwrap();
    store.mark_applied(7, "only").unwrap();
    assert!(store.mark_applied(7, "again").is_err());
    assert_eq!(store.applied().unwrap().len(), 1);
}

#[test]
fn test_sqlite_store_rollback_absent_version_fails() {
    let mut store = SqliteStore::open_in_memory().unwrap();
    store.init().unwrap();
    assert!(store.mark_rolled_back(3).is_err());
}

#[test]
fn test_sqlite_store_orders_versions_above_signed_range() {
    let mut store = SqliteStore::open_in_memory().unwrap();
    store.init().unwrap();
    store.mark_applied(u64::MAX, "huge").unwrap();
    store.mark_applied(1, "small").unwrap();
    let applied = store.applied().unwrap();
    assert_eq!(applied.len(), 2);
    assert_eq!(applied[0].version, 1);
    assert_eq!(applied[1].version, u64::MAX);
    assert_eq!(store.current_version().unwrap(), u64::MAX);
    // Duplicate detection also crosses the signed boundary.
    assert!(store.mark_applied(u64::MAX, "huge again").is_err());
    store.mark_rolled_back(u64::MAX).unwrap();
    assert_eq!(store.current_version().unwrap(), 1);
}

#[test]
fn test_sqlite_store_init_is_idempotent() {
    let mut store = SqliteStore::open_in_memory().unwrap();
    store.init().unwrap();
    store.mark_applied(1, "one").unwrap();
    let before = store.applied().unwrap();
    store.init().unwrap();
    let after = store.applied().unwrap();
    assert_eq!(before.len(), after.len());
    assert_eq!(before[0].version, after[0].version);
    assert_eq!(before[0].name, after[0].name);
    assert_eq!(before[0].applied_at, after[0].applied_at);
}
