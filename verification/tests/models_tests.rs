use dbmanager::models::DatabaseType;

#[test]
fn engine_names_render() {
    assert_eq!(DatabaseType::SQLite3.to_string(), "SQLite3");
    assert_eq!(DatabaseType::MySQL.to_string(), "MySQL");
    assert_eq!(DatabaseType::Oracle.to_string(), "Oracle");
    assert_eq!(DatabaseType::DM.to_string(), "DM");
}

#[test]
fn engine_names_parse_back() {
    assert_eq!(DatabaseType::from_str("SQLite3"), Ok(DatabaseType::SQLite3));
    assert_eq!(DatabaseType::from_str("MySQL"), Ok(DatabaseType::MySQL));
    assert_eq!(DatabaseType::from_str("Oracle"), Ok(DatabaseType::Oracle));
    assert_eq!(DatabaseType::from_str("DM"), Ok(DatabaseType::DM));
}

#[test]
fn unknown_engine_name_is_rejected() {
    assert!(DatabaseType::from_str("Postgres").is_err());
    assert!(DatabaseType::from_str("sqlite3").is_err());
    assert!(DatabaseType::from_str("").is_err());
}

#[test]
fn every_engine_round_trips_through_its_name() {
    for t in [
        DatabaseType::SQLite3,
        DatabaseType::MySQL,
        DatabaseType::Oracle,
        DatabaseType::DM,
    ] {
        assert_eq!(DatabaseType::from_str(t.to_string().as_str()), Ok(t));
    }
}
