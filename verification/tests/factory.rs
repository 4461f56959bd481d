use dbmanager::connection::{create_connection, EngineConnection};
use dbmanager::error::{AppError, ConnError};
use dbmanager::models::{DatabaseConfig, DatabaseType};

fn profile(engine: DatabaseType) -> DatabaseConfig {
    DatabaseConfig {
        id: None,
        name: "p".to_string(),
        type_: engine,
        host: "/tmp/dbmanager_factory.db".to_string(),
        username: None,
        password: None,
        create_time: None,
        last_connect_time: None,
    }
}

#[test]
fn sqlite_profile_builds_a_connection() {
    let conn = create_connection(&profile(DatabaseType::SQLite3));
    assert!(matches!(conn, Ok(EngineConnection::SQLite3(_))));
}

#[test]
fn unimplemented_engines_fail_with_not_implemented() {
    for engine in [DatabaseType::MySQL, DatabaseType::Oracle, DatabaseType::DM] {
        let name = engine.to_string();
        match create_connection(&profile(engine)) {
            Err(AppError::Connection(ConnError::NotImplemented(msg))) => {
                assert_eq!(msg, name);
            }
            Err(other) => panic!("expected NotImplemented, got {:?}", other),
            Ok(_) => panic!("expected NotImplemented, got a connection"),
        }
    }
}
