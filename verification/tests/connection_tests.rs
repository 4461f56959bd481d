use dbmanager::connection::{DatabaseConnection, SQLite3Connection};
use dbmanager::database::{list_database_schemas, list_database_tables};
use dbmanager::error::{AppError, ConnError};
use dbmanager::models::{DatabaseConfig, DatabaseType};
use dbmanager::store::{connection_report, DatabaseManager};

fn profile(name: &str, host: &str) -> DatabaseConfig {
    DatabaseConfig {
        id: None,
        name: name.to_string(),
        type_: DatabaseType::SQLite3,
        host: host.to_string(),
        username: None,
        password: None,
        create_time: None,
        last_connect_time: None,
    }
}

fn fresh_store(tag: &str) -> DatabaseManager {
    let path = format!("/tmp/dbmanager_conn_{}.db", tag);
    let mut manager = DatabaseManager::new(&path).expect("store must open");
    for cfg in manager.list_configs().expect("listing must work") {
        manager.delete_config(cfg.id.unwrap()).expect("cleanup must work");
    }
    manager
}

/// Makes sure a SQLite database file exists at the path, with no user tables.
fn ensure_empty_database(path: &str) {
    let conn = rusqlite::Connection::open(path).expect("fixture database must open");
    conn.execute_batch(
        "DROP TABLE IF EXISTS fixture_rows;
         DROP TABLE IF EXISTS zeta;
         DROP TABLE IF EXISTS alpha;
         DROP TABLE IF EXISTS with_rowid_seq;",
    )
    .expect("fixture cleanup must work");
}

#[test]
fn testing_a_missing_file_fails_with_not_found_and_leaves_no_timestamp() {
    let mut m = fresh_store("missing_file");
    let id = m
        .add_config(&profile("ghost", "/tmp/dbmanager_no_such_dir/absent.db"))
        .unwrap();
    let cfg = m.get_config(id).unwrap();
    let r = m.test_connection(&cfg);
    assert!(matches!(
        r,
        Err(AppError::Connection(ConnError::NotFound(_)))
    ));
    let report = connection_report(&r);
    assert!(!report.success);
    let after = m.get_config(id).unwrap();
    assert!(after.last_connect_time.is_none());
}

#[test]
fn scenario_add_test_and_introspect_an_empty_database() {
    ensure_empty_database("/tmp/test.db");
    let mut m = fresh_store("scenario");
    let id = m.add_config(&profile("local", "/tmp/test.db")).unwrap();
    let cfg = m.get_config(id).unwrap();
    assert!(cfg.last_connect_time.is_none());

    let r = m.test_connection(&cfg);
    assert!(r.is_ok());
    assert!(connection_report(&r).success);

    let after = m.get_config(id).unwrap();
    assert!(after.last_connect_time.is_some());

    assert_eq!(m.list_databases(id).unwrap(), vec!["test.db"]);
    assert_eq!(m.list_tables(id, "test.db").unwrap(), Vec::<String>::new());
}

#[test]
fn testing_an_unsaved_profile_skips_the_timestamp_update() {
    ensure_empty_database("/tmp/dbmanager_unsaved.db");
    let mut m = fresh_store("unsaved");
    let unsaved = profile("inline", "/tmp/dbmanager_unsaved.db");
    assert!(m.test_connection(&unsaved).is_ok());
    assert_eq!(m.list_configs().unwrap().len(), 0);
}

#[test]
fn table_listing_is_sorted_and_hides_engine_tables() {
    let path = "/tmp/dbmanager_tables.db";
    ensure_empty_database(path);
    let fixture = rusqlite::Connection::open(path).unwrap();
    fixture
        .execute_batch(
            "CREATE TABLE zeta (x INTEGER);
             CREATE TABLE alpha (x INTEGER);
             CREATE TABLE with_rowid_seq (id INTEGER PRIMARY KEY AUTOINCREMENT);
             INSERT INTO with_rowid_seq DEFAULT VALUES;",
        )
        .unwrap();
    drop(fixture);

    let conn = SQLite3Connection::new(path.to_string());
    let tables = conn.list_tables("ignored").unwrap();
    assert_eq!(tables, vec!["alpha", "with_rowid_seq", "zeta"]);
}

#[test]
fn column_listing_keeps_declaration_order_and_flags() {
    let path = "/tmp/dbmanager_columns.db";
    ensure_empty_database(path);
    let fixture = rusqlite::Connection::open(path).unwrap();
    fixture
        .execute_batch(
            "CREATE TABLE fixture_rows (
                 id INTEGER PRIMARY KEY,
                 name VARCHAR(255) NOT NULL,
                 note TEXT
             );",
        )
        .unwrap();
    drop(fixture);

    let conn = SQLite3Connection::new(path.to_string());
    let cols = conn.get_table_columns("fixture_rows").unwrap();
    assert_eq!(cols.len(), 3);

    assert_eq!(cols[0].name, "id");
    assert_eq!(cols[0].type_, "INTEGER");
    assert_eq!(cols[0].length, None);
    assert!(cols[0].is_primary);

    assert_eq!(cols[1].name, "name");
    assert_eq!(cols[1].type_, "VARCHAR");
    assert_eq!(cols[1].length, Some(255));
    assert!(!cols[1].nullable);
    assert!(!cols[1].is_primary);

    assert_eq!(cols[2].name, "note");
    assert_eq!(cols[2].type_, "TEXT");
    assert_eq!(cols[2].length, None);
    assert!(cols[2].nullable);
    assert!(!cols[2].is_primary);
    assert_eq!(cols[2].comment, None);
}

#[test]
fn connecting_to_an_unreadable_database_fails_with_a_query_or_open_error() {
    let path = "/tmp/dbmanager_not_a_db.db";
    let conn = rusqlite::Connection::open(path).unwrap();
    drop(conn);
    // The file exists, so a missing-file failure is wrong here; a fresh
    // empty file is a valid database, so the probe succeeds.
    let probe = SQLite3Connection::new(path.to_string());
    assert!(probe.test_connection().is_ok());
}

#[test]
fn catalog_name_ignores_a_trailing_separator() {
    let conn = SQLite3Connection::new("/any/where/data.db/".to_string());
    assert_eq!(conn.list_databases().unwrap(), vec!["data.db"]);
}

#[test]
fn a_path_that_is_no_database_file_fails_to_open() {
    // The path exists, so the missing-file check passes, but a directory
    // cannot be opened as a database.
    let conn = SQLite3Connection::new("/tmp".to_string());
    assert!(matches!(
        conn.test_connection(),
        Err(AppError::Connection(ConnError::OpenFailed(_)))
    ));
}

#[test]
fn schema_records_carry_names_and_empty_metadata() {
    ensure_empty_database("/tmp/dbmanager_schemas.db");
    let mut m = fresh_store("schemas");
    let id = m
        .add_config(&profile("meta", "/tmp/dbmanager_schemas.db"))
        .unwrap();

    let schemas = list_database_schemas(&m, id as i32).unwrap();
    assert_eq!(schemas.len(), 1);
    assert_eq!(schemas[0].name, "dbmanager_schemas.db");
    assert_eq!(schemas[0].encoding, None);
    assert_eq!(schemas[0].collation, None);

    let tables = list_database_tables(&m, id as i32, "dbmanager_schemas.db").unwrap();
    assert!(tables.is_empty());
}

#[test]
fn table_records_are_plain_tables_without_engine_or_comment() {
    let path = "/tmp/dbmanager_table_records.db";
    ensure_empty_database(path);
    let fixture = rusqlite::Connection::open(path).unwrap();
    fixture
        .execute_batch("CREATE TABLE alpha (x INTEGER); CREATE TABLE zeta (y INTEGER);")
        .unwrap();
    drop(fixture);

    let mut m = fresh_store("table_records");
    let id = m.add_config(&profile("records", path)).unwrap();
    let tables = list_database_tables(&m, id as i32, "ignored").unwrap();
    assert_eq!(tables.len(), 2);
    assert_eq!(tables[0].name, "alpha");
    assert_eq!(tables[1].name, "zeta");
    for t in &tables {
        assert_eq!(t.type_, "TABLE");
        assert_eq!(t.engine, None);
        assert_eq!(t.comment, None);
    }
}
