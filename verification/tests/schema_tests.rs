use gif_library::schema::{
    migration_due, migration_failed, migration_script, LATEST_SCHEMA_VERSION, MIGRATION_1, MIGRATION_2, MIGRATION_3,
    MIGRATION_8,
};
use rusqlite::Connection;

/// Runs the steps the database still needs, each with its version, as the
/// application does.
fn migrate(connection: &mut Connection) {
    for version in 1..=LATEST_SCHEMA_VERSION {
        let current: i64 = connection.pragma_query_value(None, "user_version", |row| row.get(0)).unwrap();
        if !migration_due(current, version) {
            continue;
        }
        let script = migration_script(version).unwrap();
        let transaction = connection.transaction().unwrap();
        transaction.execute_batch(script).unwrap();
        transaction.pragma_update(None, "user_version", version).unwrap();
        transaction.commit().unwrap();
    }
}

#[test]
fn migration_creates_versioned_media_table() {
    let mut connection = Connection::open_in_memory().unwrap();
    migrate(&mut connection);
    migrate(&mut connection);
    let version: i64 = connection.pragma_query_value(None, "user_version", |row| row.get(0)).unwrap();
    let table_count: i64 = connection
        .query_row("SELECT COUNT(*) FROM sqlite_master WHERE type = 'table' AND name = 'media'", [], |row| row.get(0))
        .unwrap();
    assert_eq!(version, 8);
    let settings: (Option<String>, Option<String>) = connection
        .query_row(
            "SELECT show_focus_keybind, toggle_visibility_keybind FROM app_settings WHERE id = 1",
            [],
            |row| Ok((row.get(0)?, row.get(1)?)),
        )
        .unwrap();
    assert_eq!(settings, (None, None));
    assert_eq!(table_count, 1);
}

#[test]
fn migration_three_preserves_existing_folder_membership() {
    let mut connection = Connection::open_in_memory().unwrap();
    connection.execute_batch(MIGRATION_1).unwrap();
    connection.execute_batch(MIGRATION_2).unwrap();
    connection.pragma_update(None, "user_version", 2).unwrap();
    connection.execute("INSERT INTO folders (name) VALUES ('Memes')", []).unwrap();
    connection
        .execute(
            "INSERT INTO media (title, source_kind, remote_url, media_type) VALUES ('Test', 'remote_url', 'https://example.com/a.gif', 'gif')",
            [],
        )
        .unwrap();
    connection.execute("INSERT INTO media_folders VALUES (1, 1)", []).unwrap();
    migrate(&mut connection);
    let membership: i64 = connection
        .query_row("SELECT COUNT(*) FROM media_folders WHERE media_id = 1 AND folder_id = 1", [], |row| row.get(0))
        .unwrap();
    assert_eq!(membership, 1);
}

#[test]
fn each_step_has_its_own_script() {
    assert_eq!(migration_script(1), Some(MIGRATION_1));
    assert_eq!(migration_script(3), Some(MIGRATION_3));
    assert_eq!(migration_script(8), Some(MIGRATION_8));
    assert_eq!(migration_script(0), None);
    assert_eq!(migration_script(9), None);
    assert!(migration_due(2, 3));
    assert!(!migration_due(8, 8));
    assert_eq!(migration_failed(3, "boom"), "migration 3 failed: boom");
}
