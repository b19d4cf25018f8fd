use ic_sql_migrate::apply::{
    applied_from_rows, ensure_migrations_table, ensure_seeds_table, get_applied_migrations, get_applied_seeds,
    migrate, run_up, seed, up,
};
use ic_sql_migrate::{Database, Error, MigrateResult, Migration, Seed, SqlMigration, SqliteSeedFn};
use rusqlite::Connection;

fn count(conn: &Connection, sql: &str) -> i64 {
    conn.query_row(sql, [], |row| row.get(0)).unwrap()
}

#[test]
fn sqlite_test_migration_creation() {
    let migration = Migration::new("001_test", "CREATE TABLE test (id INTEGER);");
    assert_eq!(migration.id, "001_test");
    assert_eq!(migration.sql, "CREATE TABLE test (id INTEGER);");
}

#[test]
fn sqlite_test_ensure_migrations_table() {
    let mut db = Database::new(Connection::open_in_memory().unwrap());
    ensure_migrations_table(&mut db).unwrap();

    let count: i64 = db
        .connection()
        .query_row(
            "SELECT COUNT(*) FROM sqlite_master WHERE type='table' AND name='_migrations'",
            [],
            |row| row.get(0),
        )
        .unwrap();
    assert_eq!(count, 1);
}

#[test]
fn sqlite_test_up_migrations() {
    let mut db = Database::new(Connection::open_in_memory().unwrap());

    let migrations = &[
        Migration::new(
            "001_create_users",
            "CREATE TABLE users (id INTEGER PRIMARY KEY);",
        ),
        Migration::new("002_add_email", "ALTER TABLE users ADD COLUMN email TEXT;"),
    ];

    migrate(&mut db, migrations).unwrap();

    let applied = get_applied_migrations(&mut db).unwrap();
    assert!(applied.contains("001_create_users"));
    assert!(applied.contains("002_add_email"));

    let count: i64 = db
        .connection()
        .query_row(
            "SELECT COUNT(*) FROM pragma_table_info('users') WHERE name='email'",
            [],
            |row| row.get(0),
        )
        .unwrap();
    assert_eq!(count, 1);
}

#[test]
fn sqlite_test_up_migrations_idempotency() {
    let mut db = Database::new(Connection::open_in_memory().unwrap());

    let migrations = &[Migration::new(
        "001_test",
        "CREATE TABLE test (id INTEGER);",
    )];

    migrate(&mut db, migrations).unwrap();
    migrate(&mut db, migrations).unwrap();

    let count: i64 = db
        .connection()
        .query_row(
            "SELECT COUNT(*) FROM _migrations WHERE id='001_test'",
            [],
            |row| row.get(0),
        )
        .unwrap();
    assert_eq!(count, 1);
}

#[test]
fn sqlite_test_migration_failure_rollback() {
    let mut db = Database::new(Connection::open_in_memory().unwrap());

    let migrations = &[
        Migration::new("001_valid", "CREATE TABLE test (id INTEGER);"),
        Migration::new("002_invalid", "INVALID SQL STATEMENT;"),
    ];

    let result = migrate(&mut db, migrations);
    assert!(result.is_err());

    let applied = get_applied_migrations(&mut db).unwrap();
    assert!(applied.is_empty());

    let count: i64 = db
        .connection()
        .query_row(
            "SELECT COUNT(*) FROM sqlite_master WHERE type='table' AND name='test'",
            [],
            |row| row.get(0),
        )
        .unwrap();
    assert_eq!(count, 0);
}

#[test]
fn sqlite_test_ensure_seeds_table() {
    let mut db = Database::new(Connection::open_in_memory().unwrap());
    ensure_seeds_table(&mut db).unwrap();

    let count: i64 = db
        .connection()
        .query_row(
            "SELECT COUNT(*) FROM sqlite_master WHERE type='table' AND name='_seeds'",
            [],
            |row| row.get(0),
        )
        .unwrap();
    assert_eq!(count, 1);
}

fn seed_test_data(conn: &Connection) -> MigrateResult<()> {
    conn.execute(
        "CREATE TABLE IF NOT EXISTS test_users (id INTEGER PRIMARY KEY, name TEXT)",
        [],
    )?;
    conn.execute("INSERT INTO test_users (name) VALUES ('Alice')", [])?;
    conn.execute("INSERT INTO test_users (name) VALUES ('Bob')", [])?;
    Ok(())
}

fn seed_more_data(conn: &Connection) -> MigrateResult<()> {
    conn.execute("INSERT INTO test_users (name) VALUES ('Charlie')", [])?;
    Ok(())
}

fn seed_broken(conn: &Connection) -> MigrateResult<()> {
    conn.execute("INSERT INTO test_users (name) VALUES ('Dave')", [])?;
    conn.execute("INSERT INTO no_such_table (name) VALUES ('Eve')", [])?;
    Ok(())
}

#[test]
fn sqlite_test_seed_execution() {
    let mut db = Database::new(Connection::open_in_memory().unwrap());

    let seeds: &[Seed<SqliteSeedFn>] = &[
        Seed::new("001_initial", seed_test_data),
        Seed::new("002_more", seed_more_data),
    ];

    seed(&mut db, seeds).unwrap();

    let applied = get_applied_seeds(&mut db).unwrap();
    assert!(applied.contains("001_initial"));
    assert!(applied.contains("002_more"));

    let count: i64 = db
        .connection()
        .query_row("SELECT COUNT(*) FROM test_users", [], |row| row.get(0))
        .unwrap();
    assert_eq!(count, 3);
}

#[test]
fn sqlite_test_seed_idempotency() {
    let mut db = Database::new(Connection::open_in_memory().unwrap());

    let seeds = &[Seed::new("001_test", seed_test_data)];

    seed(&mut db, seeds).unwrap();
    seed(&mut db, seeds).unwrap();

    let count: i64 = db
        .connection()
        .query_row(
            "SELECT COUNT(*) FROM _seeds WHERE id='001_test'",
            [],
            |row| row.get(0),
        )
        .unwrap();
    assert_eq!(count, 1);

    let user_count: i64 = db
        .connection()
        .query_row("SELECT COUNT(*) FROM test_users", [], |row| row.get(0))
        .unwrap();
    assert_eq!(user_count, 2);
}

#[test]
fn failed_migration_is_named_and_nothing_is_kept() {
    let mut db = Database::new(Connection::open_in_memory().unwrap());
    let migrations = &[
        Migration::new("001_valid", "CREATE TABLE test (id INTEGER);"),
        Migration::new("002_invalid", "INVALID SQL STATEMENT;"),
    ];
    match migrate(&mut db, migrations) {
        Err(Error::MigrationFailed { id, message }) => {
            assert_eq!(id, "002_invalid");
            assert!(!message.is_empty());
        }
        _ => panic!("expected the failure of 002_invalid"),
    }
    assert_eq!(count(db.connection(), "SELECT COUNT(*) FROM _migrations"), 0);
    assert_eq!(
        count(db.connection(), "SELECT COUNT(*) FROM sqlite_master WHERE type='table' AND name='test'"),
        0
    );
}

#[test]
fn failed_seed_keeps_the_seeds_before_it() {
    let mut db = Database::new(Connection::open_in_memory().unwrap());
    let seeds: &[Seed<SqliteSeedFn>] = &[
        Seed::new("001_initial", seed_test_data),
        Seed::new("002_broken", seed_broken),
        Seed::new("003_more", seed_more_data),
    ];
    match seed(&mut db, seeds) {
        Err(Error::MigrationFailed { id, .. }) => assert_eq!(id, "002_broken"),
        _ => panic!("expected the failure of 002_broken"),
    }
    let applied = get_applied_seeds(&mut db).unwrap();
    assert!(applied.contains("001_initial"));
    assert!(!applied.contains("002_broken"));
    assert!(!applied.contains("003_more"));
    // Alice and Bob stay; Dave went with the rolled-back seed; Charlie never came.
    assert_eq!(count(db.connection(), "SELECT COUNT(*) FROM test_users"), 2);
}

#[test]
fn superset_list_applies_only_the_new_migration() {
    let mut db = Database::new(Connection::open_in_memory().unwrap());
    let first = &[
        Migration::new("001_a", "CREATE TABLE a (id INTEGER);"),
        Migration::new("002_b", "CREATE TABLE b (id INTEGER);"),
    ];
    migrate(&mut db, first).unwrap();
    // Running 001_a or 002_b again would fail: their tables exist.
    let all = &[
        Migration::new("001_a", "CREATE TABLE a (id INTEGER);"),
        Migration::new("002_b", "CREATE TABLE b (id INTEGER);"),
        Migration::new("003_c", "CREATE TABLE c (id INTEGER);"),
    ];
    migrate(&mut db, all).unwrap();
    assert_eq!(count(db.connection(), "SELECT COUNT(*) FROM _migrations"), 3);
    assert_eq!(
        count(db.connection(), "SELECT COUNT(*) FROM sqlite_master WHERE type='table' AND name='c'"),
        1
    );
}

#[test]
fn nothing_pending_leaves_the_ledger_untouched() {
    let mut db = Database::new(Connection::open_in_memory().unwrap());
    let migrations = &[Migration::new("001_a", "CREATE TABLE a (id INTEGER);")];
    migrate(&mut db, migrations).unwrap();
    db.connection().execute("UPDATE _migrations SET applied_at = '2000-01-01 00:00:00'", [])
        .unwrap();
    migrate(&mut db, migrations).unwrap();
    let stamp: String = db
        .connection()
        .query_row("SELECT applied_at FROM _migrations WHERE id='001_a'", [], |row| row.get(0))
        .unwrap();
    assert_eq!(stamp, "2000-01-01 00:00:00");
    assert_eq!(count(db.connection(), "SELECT COUNT(*) FROM _migrations"), 1);
}

#[test]
fn empty_list_succeeds_and_creates_the_ledger() {
    let mut db = Database::new(Connection::open_in_memory().unwrap());
    migrate(&mut db, &[]).unwrap();
    assert_eq!(count(db.connection(), "SELECT COUNT(*) FROM _migrations"), 0);
}

#[test]
fn users_scenario_adds_both_columns() {
    let mut db = Database::new(Connection::open_in_memory().unwrap());
    let migrations = &[
        Migration::new("001_create_users", "CREATE TABLE users(id INTEGER PRIMARY KEY);"),
        Migration::new("002_add_email", "ALTER TABLE users ADD COLUMN email TEXT;"),
    ];
    migrate(&mut db, migrations).unwrap();
    let applied = get_applied_migrations(&mut db).unwrap();
    assert!(applied.contains("001_create_users"));
    assert!(applied.contains("002_add_email"));
    let mut statement = db.connection().prepare("SELECT name FROM pragma_table_info('users') ORDER BY cid").unwrap();
    let names: Vec<String> = statement
        .query_map([], |row| row.get(0))
        .unwrap()
        .map(|r| r.unwrap())
        .collect();
    assert_eq!(names, vec!["id".to_string(), "email".to_string()]);
}

#[test]
fn up_and_run_up_apply_like_migrate() {
    let mut db = Database::new(Connection::open_in_memory().unwrap());
    up(&mut db, &[Migration::new("001_a", "CREATE TABLE a (id INTEGER);")]).unwrap();
    run_up(
        &mut db,
        &[
            SqlMigration::new("001_a", "CREATE TABLE a (id INTEGER);"),
            SqlMigration::new("002_b", "CREATE TABLE b (id INTEGER);"),
        ],
    )
    .unwrap();
    assert_eq!(count(db.connection(), "SELECT COUNT(*) FROM _migrations"), 2);
}

#[test]
fn database_errors_carry_the_driver_message() {
    let conn = Connection::open_in_memory().unwrap();
    let err: Error = conn.execute("NOT SQL", []).unwrap_err().into();
    match err {
        Error::Database(m) => assert!(m.contains("syntax error")),
        _ => panic!("expected a database error"),
    }
}

#[test]
fn duplicate_id_fails_on_its_ledger_row() {
    let mut db = Database::new(Connection::open_in_memory().unwrap());
    let migrations = &[
        Migration::new("001_a", "CREATE TABLE a (id INTEGER);"),
        Migration::new("001_a", "CREATE TABLE b (id INTEGER);"),
    ];
    match migrate(&mut db, migrations) {
        Err(Error::MigrationFailed { id, .. }) => assert_eq!(id, "001_a"),
        _ => panic!("expected the ledger row of 001_a to fail"),
    }
    assert_eq!(count(db.connection(), "SELECT COUNT(*) FROM _migrations"), 0);
    assert_eq!(
        count(db.connection(), "SELECT COUNT(*) FROM sqlite_master WHERE type='table' AND name IN ('a', 'b')"),
        0
    );
}

#[test]
fn unreadable_ledger_row_fails_the_read() {
    let rows = vec![
        Ok("001_a".to_string()),
        Err(rusqlite::Error::InvalidQuery),
        Ok("002_b".to_string()),
    ];
    assert_eq!(applied_from_rows(&rows).err(), Some(1));
    let applied = applied_from_rows(&vec![Ok("001_a".to_string()), Ok("002_b".to_string())]).unwrap();
    assert!(applied.contains("001_a"));
    assert!(applied.contains("002_b"));
    assert!(!applied.contains("003_c"));
}
