use zed_core::sqlez::connection::{
    last_error, next_check, parse_alter_table, syntax_error, Connection, SyntaxCheck,
};
use zed_core::sqlez::migrations::{migrate, migration_state, MigrationState};
use zed_core::sqlez::savepoint::{begin_savepoint, with_savepoint, with_savepoint_rollback};

fn texts(parts: &[&str]) -> Vec<String> {
    parts.iter().map(|part| part.to_string()).collect()
}

#[test]
fn savepoints_are_released_or_rolled_back() {
    assert_eq!(begin_savepoint("first"), "SAVEPOINT first");
    let good: Result<u8, String> = Ok(1);
    let bad: Result<u8, String> = Err("no".to_string());
    assert_eq!(with_savepoint("first", &good), "RELEASE first");
    assert_eq!(with_savepoint("first", &bad), "ROLLBACK TO first;\nRELEASE first");
    let some: Result<Option<u8>, String> = Ok(Some(1));
    let none: Result<Option<u8>, String> = Ok(None);
    let failed: Result<Option<u8>, String> = Err("no".to_string());
    assert_eq!(with_savepoint_rollback("x", &some), "RELEASE x");
    assert_eq!(with_savepoint_rollback("x", &none), "ROLLBACK TO x;\nRELEASE x");
    assert_eq!(with_savepoint_rollback("x", &failed), "ROLLBACK TO x;\nRELEASE x");
}

#[test]
fn missing_migrations_are_run() {
    let migrations = texts(&[
        "CREATE   TABLE test1\n(a TEXT,    b TEXT)",
        "CREATE TABLE test2 (c TEXT)",
    ]);
    let steps = migrate(&migrations, &texts(&[])).unwrap();
    assert_eq!(steps.len(), 2);
    assert_eq!((steps[0].index, steps[1].index), (0, 1));
    // What is run is formatted anew.
    assert_ne!(steps[0].sql, migrations[0]);
    assert!(!steps[0].sql.contains("   "));
    let stored: Vec<String> = steps.into_iter().map(|step| step.sql).collect();
    assert!(migrate(&migrations, &stored).unwrap().is_empty());
    let rest = migrate(&migrations, &stored[..1].to_vec()).unwrap();
    assert_eq!(rest.len(), 1);
    assert_eq!(rest[0].index, 1);
}

#[test]
fn changed_migration_stops_everything() {
    let migrations = texts(&["CREATE TABLE t (a INTEGER)", "CREATE TABLE u (b TEXT)"]);
    let error = migrate(&migrations, &texts(&["CREATE TABLE t (a TEXT)"])).unwrap_err();
    assert_eq!(error.index, 0);
    assert_eq!(
        error.text("test"),
        format!(
            "Migration changed for test at step 0\n\nStored migration:\n{}\n\nProposed migration:\n{}",
            error.stored, error.proposed
        )
    );
    assert!(error.stored.contains("TEXT"));
    assert!(error.proposed.contains("INTEGER"));
}

#[test]
fn formatting_does_not_change_a_migration() {
    // Spaces and line ends do not count.
    let migrations = texts(&["CREATE TABLE t (a INTEGER)"]);
    let spaced = texts(&["CREATE   TABLE t\n   (a    INTEGER)"]);
    assert!(migrate(&migrations, &spaced).unwrap().is_empty());
    assert!(matches!(migration_state("a", Some("a")), MigrationState::Done));
    assert!(matches!(migration_state("a", Some("b")), MigrationState::Changed));
    assert!(matches!(migration_state("a", None), MigrationState::Missing));
}

#[test]
fn fallback_is_not_the_file() {
    let plan = Connection::open_file("/tmp/x.db", false);
    assert_eq!((plan.uri.as_str(), plan.persistent), ("/tmp/x.db", true));
    let mut connection = Connection::open(&plan);
    assert!(connection.persistent());
    assert!(connection.can_write());
    connection.end_write();
    assert!(!connection.can_write());
    connection.begin_write();
    assert!(connection.can_write());
    let plan = Connection::open_file("/tmp/x.db", true);
    assert_eq!(plan.uri, "file:/tmp/x.db?mode=memory&cache=shared");
    assert!(!plan.persistent);
    assert_eq!(Connection::open_memory(None).uri, ":memory:");
}

#[test]
fn errors_are_told() {
    assert_eq!(last_error(0, None), Ok(()));
    assert_eq!(last_error(100, Some("another row available")), Ok(()));
    assert_eq!(
        last_error(1, Some("near \"x\": syntax error")),
        Err("Sqlite call failed with code 1 and message: Some(\"near \\\"x\\\": syntax error\")".to_string())
    );
    assert_eq!(
        last_error(-5, None),
        Err("Sqlite call failed with code -5 and message: None".to_string())
    );
}

#[test]
fn altered_tables_are_found() {
    let found = parse_alter_table("ALTER TABLE Test ADD x").unwrap();
    assert_eq!(found.table, "test");
    assert_eq!(found.column, "__place_holder_column_for_syntax_checking");
    let found = parse_alter_table("ALTER TABLE test RENAME COLUMN test_column TO new").unwrap();
    assert_eq!(found.column, "test_column");
    let found = parse_alter_table("alter table test drop column gone").unwrap();
    assert_eq!(found.column, "gone");
    assert!(parse_alter_table("ALTER TABLE").is_none());
    assert!(parse_alter_table("SELECT 1").is_none());
}

#[test]
fn statements_are_checked_one_after_the_other() {
    assert!(matches!(next_check("  "), SyntaxCheck::Done));
    assert!(matches!(next_check(" ; "), SyntaxCheck::Done));
    assert!(matches!(next_check("SELECT 1"), SyntaxCheck::Prepare));
    match next_check("ALTER TABLE t DROP COLUMN c;") {
        SyntaxCheck::PrepareAfter(sql) => assert_eq!(sql, "CREATE TABLE t(c;)"),
        other => panic!("{:?}", other),
    }
    assert_eq!(
        syntax_error(1, 3, "near".to_string(), 10),
        Some(("near".to_string(), 13))
    );
    assert_eq!(syntax_error(1, -1, "near".to_string(), 10), None);
    assert_eq!(syntax_error(19, 3, "near".to_string(), 10), None);
}
