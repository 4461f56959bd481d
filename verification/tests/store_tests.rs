use dbmanager::error::{AppError, StoreError};
use dbmanager::models::{DatabaseConfig, DatabaseType};
use dbmanager::store::DatabaseManager;

fn profile(name: &str, host: &str) -> DatabaseConfig {
    DatabaseConfig {
        id: None,
        name: name.to_string(),
        type_: DatabaseType::SQLite3,
        host: host.to_string(),
        username: Some("user".to_string()),
        password: None,
        create_time: None,
        last_connect_time: None,
    }
}

/// Opens the store for one test and removes every profile left by an
/// earlier run, so each test starts from an empty table.
fn fresh_store(tag: &str) -> DatabaseManager {
    let path = format!("/tmp/dbmanager_store_{}.db", tag);
    let mut manager = DatabaseManager::new(&path).expect("store must open");
    let existing = manager.list_configs().expect("listing must work");
    for cfg in existing {
        manager
            .delete_config(cfg.id.expect("listed profiles carry ids"))
            .expect("cleanup delete must work");
    }
    manager
}

#[test]
fn add_then_get_round_trips_every_field_but_the_timestamps() {
    let mut m = fresh_store("roundtrip");
    let added = profile("local", "/tmp/dbmanager_target.db");
    let id = m.add_config(&added).expect("insert must work");
    let fetched = m.get_config(id).expect("fetch must work");
    assert_eq!(fetched.id, Some(id));
    assert_eq!(fetched.name, added.name);
    assert_eq!(fetched.type_, added.type_);
    assert_eq!(fetched.host, added.host);
    assert_eq!(fetched.username, added.username);
    assert_eq!(fetched.password, added.password);
    assert!(fetched.create_time.is_some());
    assert!(fetched.last_connect_time.is_none());
}

#[test]
fn listing_twice_without_writes_gives_identical_results() {
    let mut m = fresh_store("idempotent");
    m.add_config(&profile("a", "/tmp/a.db")).unwrap();
    m.add_config(&profile("b", "/tmp/b.db")).unwrap();
    m.add_config(&profile("c", "/tmp/c.db")).unwrap();
    let first = m.list_configs().unwrap();
    let second = m.list_configs().unwrap();
    assert_eq!(first, second);
}

#[test]
fn listing_is_ordered_most_recent_first() {
    let mut m = fresh_store("ordering");
    let id1 = m.add_config(&profile("first", "/tmp/1.db")).unwrap();
    let id2 = m.add_config(&profile("second", "/tmp/2.db")).unwrap();
    let id3 = m.add_config(&profile("third", "/tmp/3.db")).unwrap();
    let listed = m.list_configs().unwrap();
    assert_eq!(listed.len(), 3);
    // Later inserts get later creation times (or equal ones within the same
    // second) and larger ids, so they come first either way.
    assert_eq!(listed[0].id, Some(id3));
    assert_eq!(listed[1].id, Some(id2));
    assert_eq!(listed[2].id, Some(id1));
}

#[test]
fn deleting_a_nonexistent_id_fails_with_not_found() {
    let mut m = fresh_store("delete_missing");
    let r = m.delete_config(987654321);
    assert!(matches!(
        r,
        Err(AppError::Database(StoreError::NotFound(_)))
    ));
}

#[test]
fn deleting_an_existing_id_then_fetching_it_fails_with_not_found() {
    let mut m = fresh_store("delete_then_get");
    let id = m.add_config(&profile("doomed", "/tmp/d.db")).unwrap();
    m.delete_config(id).expect("delete of a stored profile must work");
    let r = m.get_config(id);
    assert!(matches!(
        r,
        Err(AppError::Database(StoreError::NotFound(_)))
    ));
}

#[test]
fn a_deleted_id_is_never_assigned_again() {
    let mut m = fresh_store("id_reuse");
    let first = m.add_config(&profile("one", "/tmp/one.db")).unwrap();
    m.delete_config(first).expect("delete must work");
    let second = m.add_config(&profile("two", "/tmp/two.db")).unwrap();
    assert_ne!(second, first);
    assert!(second > first);
}

#[test]
fn updating_replaces_fields_but_not_timestamps() {
    let mut m = fresh_store("update");
    let id = m.add_config(&profile("before", "/tmp/old.db")).unwrap();
    let before = m.get_config(id).unwrap();
    let mut changed = profile("after", "/tmp/new.db");
    changed.id = Some(id);
    changed.username = None;
    changed.password = Some("secret".to_string());
    m.update_config(&changed).expect("update must work");
    let after = m.get_config(id).unwrap();
    assert_eq!(after.name, "after");
    assert_eq!(after.host, "/tmp/new.db");
    assert_eq!(after.username, None);
    assert_eq!(after.password, Some("secret".to_string()));
    assert_eq!(after.create_time, before.create_time);
    assert_eq!(after.last_connect_time, before.last_connect_time);
}

#[test]
fn updating_a_profile_without_an_id_changes_nothing() {
    let mut m = fresh_store("update_no_id");
    let id = m.add_config(&profile("keep", "/tmp/k.db")).unwrap();
    let r = m.update_config(&profile("ignored", "/tmp/i.db"));
    assert!(r.is_ok());
    let kept = m.get_config(id).unwrap();
    assert_eq!(kept.name, "keep");
    assert_eq!(m.list_configs().unwrap().len(), 1);
}
