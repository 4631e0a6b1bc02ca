use migrations_sql::{Phase, SqlMigration};

#[test]
fn test_sql_migration() {
    let migration = SqlMigration::new(1, "create_users", "CREATE TABLE users (id INTEGER)")
        .with_down("DROP TABLE users");

    assert_eq!(migration.version(), 1);
    assert_eq!(migration.name(), "create_users");
    assert_eq!(migration.up_sql(), "CREATE TABLE users (id INTEGER)");
    assert_eq!(migration.down_sql(), Some("DROP TABLE users"));
    assert!(migration.has_rollback());
}

#[test]
fn test_sql_migration_no_rollback() {
    let migration = SqlMigration::new(1, "create_users", "CREATE TABLE users (id INTEGER)");

    assert!(!migration.has_rollback());
    assert_eq!(migration.down_sql(), None);
}

#[test]
fn test_sql_migration_phase() {
    let pre = SqlMigration::new(1, "add_column", "ALTER TABLE users ADD email TEXT");
    assert_eq!(pre.get_phase(), Phase::PreDeploy);

    let post = SqlMigration::new(2, "drop_column", "ALTER TABLE users DROP old_column")
        .phase(Phase::PostDeploy);
    assert_eq!(post.get_phase(), Phase::PostDeploy);
}

#[test]
fn test_can_rollback_agrees_with_down_sql() {
    let with_down = SqlMigration::new(3, "a", "X").with_down("Y");
    assert!(with_down.can_rollback());
    let without = SqlMigration::new(4, "b", "X");
    assert!(!without.can_rollback());
}
