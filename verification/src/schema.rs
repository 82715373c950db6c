//! The library database schema, as a sequence of numbered migrations.

use vstd::prelude::*;
use crate::text::{owned, push_str, u64_text, decimal};

verus! {

/// Schema step 1.
pub const MIGRATION_1: &'static str = r#"
CREATE TABLE media (
    id               INTEGER PRIMARY KEY AUTOINCREMENT,
    title            TEXT NOT NULL,
    source_kind      TEXT NOT NULL CHECK (source_kind IN ('remote_url', 'local_file')),
    remote_url       TEXT,
    storage_filename TEXT,
    original_filename TEXT,
    media_type       TEXT NOT NULL CHECK (media_type IN ('gif', 'png', 'jpg', 'jpeg', 'webp')),
    file_hash        TEXT,
    notes            TEXT NOT NULL DEFAULT '',
    created_at       TEXT NOT NULL DEFAULT (strftime('%Y-%m-%dT%H:%M:%fZ', 'now')),
    updated_at       TEXT NOT NULL DEFAULT (strftime('%Y-%m-%dT%H:%M:%fZ', 'now')),
    CHECK (
        (source_kind = 'remote_url' AND remote_url IS NOT NULL AND storage_filename IS NULL)
        OR
        (source_kind = 'local_file' AND remote_url IS NULL AND storage_filename IS NOT NULL)
    )
);

CREATE INDEX media_created_at_idx ON media(created_at DESC);
CREATE INDEX media_file_hash_idx ON media(file_hash) WHERE file_hash IS NOT NULL;
"#;

/// Schema step 2.
pub const MIGRATION_2: &'static str = r#"
ALTER TABLE media ADD COLUMN thumbnail_filename TEXT;
CREATE TABLE folders (id INTEGER PRIMARY KEY AUTOINCREMENT, name TEXT NOT NULL COLLATE NOCASE UNIQUE);
CREATE TABLE tags (id INTEGER PRIMARY KEY AUTOINCREMENT, name TEXT NOT NULL COLLATE NOCASE UNIQUE);
CREATE TABLE media_folders (
    media_id INTEGER NOT NULL REFERENCES media(id) ON DELETE CASCADE,
    folder_id INTEGER NOT NULL REFERENCES folders(id) ON DELETE CASCADE,
    PRIMARY KEY (media_id, folder_id)
);
CREATE TABLE media_tags (
    media_id INTEGER NOT NULL REFERENCES media(id) ON DELETE CASCADE,
    tag_id INTEGER NOT NULL REFERENCES tags(id) ON DELETE CASCADE,
    PRIMARY KEY (media_id, tag_id)
);
"#;

/// Schema step 3.
pub const MIGRATION_3: &'static str = r#"
CREATE TABLE folders_new (
    id INTEGER PRIMARY KEY AUTOINCREMENT,
    name TEXT NOT NULL COLLATE NOCASE,
    parent_id INTEGER REFERENCES folders_new(id) ON DELETE CASCADE
);
INSERT INTO folders_new (id, name, parent_id) SELECT id, name, NULL FROM folders;

CREATE TABLE media_folders_new (
    media_id INTEGER NOT NULL REFERENCES media(id) ON DELETE CASCADE,
    folder_id INTEGER NOT NULL REFERENCES folders_new(id) ON DELETE CASCADE,
    PRIMARY KEY (media_id, folder_id)
);
INSERT INTO media_folders_new SELECT media_id, folder_id FROM media_folders;
DROP TABLE media_folders;
DROP TABLE folders;
ALTER TABLE folders_new RENAME TO folders;
ALTER TABLE media_folders_new RENAME TO media_folders;
CREATE UNIQUE INDEX folders_sibling_name_idx ON folders(IFNULL(parent_id, -1), name COLLATE NOCASE);

CREATE TABLE aliases (
    media_id INTEGER NOT NULL REFERENCES media(id) ON DELETE CASCADE,
    name TEXT NOT NULL COLLATE NOCASE,
    PRIMARY KEY (media_id, name)
);
CREATE INDEX aliases_name_idx ON aliases(name COLLATE NOCASE);
"#;

/// Schema step 4.
pub const MIGRATION_4: &'static str = r#"
ALTER TABLE media ADD COLUMN external_url TEXT;
"#;

/// Schema step 5.
pub const MIGRATION_5: &'static str = r#"
ALTER TABLE media ADD COLUMN hosted_url TEXT;
ALTER TABLE media ADD COLUMN hosted_object_key TEXT;
ALTER TABLE media ADD COLUMN hosted_at TEXT;
"#;

/// Schema step 6.
pub const MIGRATION_6: &'static str = r#"
ALTER TABLE media ADD COLUMN use_count INTEGER NOT NULL DEFAULT 0;
ALTER TABLE media ADD COLUMN last_used_at TEXT;
CREATE INDEX media_last_used_at_idx ON media(last_used_at DESC);
"#;

/// Schema step 7.
pub const MIGRATION_7: &'static str = r#"
CREATE TABLE app_settings (
    id INTEGER PRIMARY KEY CHECK (id = 1),
    show_focus_keybind TEXT,
    toggle_visibility_keybind TEXT
);
INSERT INTO app_settings (id, show_focus_keybind, toggle_visibility_keybind) VALUES (1, NULL, NULL);
"#;

/// Schema step 8.
pub const MIGRATION_8: &'static str = r#"
ALTER TABLE app_settings ADD COLUMN export_directory TEXT;
"#;

/// The schema version of a fully migrated database.
pub const LATEST_SCHEMA_VERSION: u32 = 8;

/// The script of each schema step: step `k` runs `MIGRATION_k`, for `k`
/// from 1 to `LATEST_SCHEMA_VERSION`; there are no other steps.
pub open spec fn migration_step(version: u32) -> Option<&'static str> {
    if version == 1 {
        Some(MIGRATION_1)
    } else if version == 2 {
        Some(MIGRATION_2)
    } else if version == 3 {
        Some(MIGRATION_3)
    } else if version == 4 {
        Some(MIGRATION_4)
    } else if version == 5 {
        Some(MIGRATION_5)
    } else if version == 6 {
        Some(MIGRATION_6)
    } else if version == 7 {
        Some(MIGRATION_7)
    } else if version == 8 {
        Some(MIGRATION_8)
    } else {
        None
    }
}

/// The SQL of a schema step, for the steps that exist.
pub fn migration_script(version: u32) -> (r: Option<&'static str>)
    ensures
        r == migration_step(version),
        r is Some <==> 1 <= version <= LATEST_SCHEMA_VERSION,
{
    match version {
        1 => Some(MIGRATION_1),
        2 => Some(MIGRATION_2),
        3 => Some(MIGRATION_3),
        4 => Some(MIGRATION_4),
        5 => Some(MIGRATION_5),
        6 => Some(MIGRATION_6),
        7 => Some(MIGRATION_7),
        8 => Some(MIGRATION_8),
        _ => None,
    }
}

/// A database at schema version `current` still needs step `version`.
pub fn migration_due(current: i64, version: u32) -> (r: bool)
    ensures
        r == (current < version),
{
    current < version as i64
}

/// The error reported when a schema step fails.
pub fn migration_failed(version: u32, error: &str) -> (r: String)
    ensures
        r@ == "migration "@ + decimal(version as nat) + " failed: "@ + error@,
{
    let mut m = owned("migration ");
    let d = u64_text(version as u64);
    push_str(&mut m, d.as_str());
    push_str(&mut m, " failed: ");
    push_str(&mut m, error);
    m
}

} // verus!
