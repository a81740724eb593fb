use unidl::codec::{decode_app_settings, AppSettingsRecord};
use unidl::schema::{CREATE_TABLES, REBUILD_ENGINE_SETTINGS_WITH_IDS, SEED_APP_SETTINGS};

fn setting(connection: &rusqlite::Connection, key: &str) -> Option<String> {
    connection
        .query_row("SELECT value FROM app_settings WHERE key = ?1", [key], |row| row.get(0))
        .ok()
}

#[test]
fn seeded_settings_decode_to_the_defaults() {
    let connection = rusqlite::Connection::open_in_memory().unwrap();
    connection.execute_batch(CREATE_TABLES).unwrap();
    connection.execute_batch(SEED_APP_SETTINGS).unwrap();
    let get = |key: &str| setting(&connection, key).unwrap();
    let record = AppSettingsRecord {
        theme_mode: get("theme_mode"),
        web_access_enabled: get("web_access_enabled"),
        web_access_password: get("web_access_password"),
        web_access_url: get("web_access_url"),
        private_download_domains: get("private_download_domains"),
        app_proxy_url: setting(&connection, "app_proxy_url"),
        torrent_file_association_enabled: get("torrent_file_association_enabled"),
        auto_start_enabled: get("auto_start_enabled"),
        auto_start_minimized_to_tray: get("auto_start_minimized_to_tray"),
        close_to_tray_enabled: get("close_to_tray_enabled"),
        download_completion_notification_enabled: get("download_completion_notification_enabled"),
        prevent_sleep_when_downloading_enabled: get("prevent_sleep_when_downloading_enabled"),
        prevent_sleep_when_web_access_enabled: get("prevent_sleep_when_web_access_enabled"),
        local_download_concurrency: get("local_download_concurrency"),
        auto_clean_download_tasks_enabled: get("auto_clean_download_tasks_enabled"),
        auto_clean_download_tasks_days: get("auto_clean_download_tasks_days"),
    };
    let settings = match decode_app_settings(&record) {
        Ok(settings) => settings,
        Err(error) => panic!("seeded settings do not decode: {error:?}"),
    };
    assert_eq!(settings.theme_mode, "light");
    assert!(!settings.web_access_enabled);
    assert_eq!(settings.web_access_url, "http://127.0.0.1:18080");
    assert!(settings.private_download_domains.is_empty());
    assert_eq!(settings.app_proxy_url, "");
    assert!(settings.torrent_file_association_enabled);
    assert_eq!(settings.local_download_concurrency, 5);
    assert!(!settings.auto_clean_download_tasks_enabled);
    assert_eq!(settings.auto_clean_download_tasks_days, 365);

    connection.execute("UPDATE app_settings SET value = '3' WHERE key = 'local_download_concurrency'", []).unwrap();
    connection.execute_batch(SEED_APP_SETTINGS).unwrap();
    assert_eq!(setting(&connection, "local_download_concurrency").unwrap(), "3");
}

#[test]
fn early_engine_settings_are_rebuilt_with_ids() {
    let connection = rusqlite::Connection::open_in_memory().unwrap();
    connection
        .execute_batch(
            "CREATE TABLE engine_settings (
                engine TEXT PRIMARY KEY,
                enabled INTEGER NOT NULL DEFAULT 0,
                executable_path TEXT,
                default_download_dir TEXT NOT NULL DEFAULT '',
                default_args TEXT NOT NULL DEFAULT '',
                connection_url TEXT,
                username TEXT,
                password TEXT,
                remote_path TEXT,
                created_at TEXT NOT NULL DEFAULT (datetime('now')),
                updated_at TEXT NOT NULL DEFAULT (datetime('now'))
            );
            INSERT INTO engine_settings (engine, enabled) VALUES ('yt-dlp', 1), ('qbittorrent', 0);",
        )
        .unwrap();
    connection.execute_batch(REBUILD_ENGINE_SETTINGS_WITH_IDS).unwrap();
    let row: (String, String, String, i64) = connection
        .query_row(
            "SELECT id, name, supported_source_types, priority FROM engine_settings WHERE engine = 'yt-dlp'",
            [],
            |row| Ok((row.get(0)?, row.get(1)?, row.get(2)?, row.get(3)?)),
        )
        .unwrap();
    assert_eq!(row, ("yt-dlp".to_string(), "yt-dlp".to_string(), "http,ftp".to_string(), 1));
    let types: String = connection
        .query_row("SELECT supported_source_types FROM engine_settings WHERE id = 'qbittorrent'", [], |row| row.get(0))
        .unwrap();
    assert_eq!(types, "magnet,torrent");
}

fn columns(connection: &rusqlite::Connection, table: &str) -> Vec<String> {
    let mut statement = connection.prepare(&format!("PRAGMA table_info({table})")).unwrap();
    let names = statement.query_map([], |row| row.get::<_, String>("name")).unwrap();
    names.map(|name| name.unwrap()).collect()
}

#[test]
fn added_columns_bring_an_early_database_up_to_date() {
    let added = unidl::schema::added_columns();
    assert_eq!(added.len(), 33);
    assert_eq!(
        unidl::schema::add_column_statement(&added[0]),
        "ALTER TABLE engine_settings ADD COLUMN default_args TEXT NOT NULL DEFAULT ''"
    );

    let connection = rusqlite::Connection::open_in_memory().unwrap();
    connection
        .execute_batch(
            "CREATE TABLE engine_settings (
                engine TEXT PRIMARY KEY,
                enabled INTEGER NOT NULL DEFAULT 0,
                executable_path TEXT,
                default_download_dir TEXT NOT NULL DEFAULT '',
                connection_url TEXT,
                username TEXT,
                password TEXT,
                remote_path TEXT,
                created_at TEXT NOT NULL DEFAULT (datetime('now')),
                updated_at TEXT NOT NULL DEFAULT (datetime('now'))
            );
            INSERT INTO engine_settings (engine, enabled) VALUES ('aria2', 1);
            CREATE TABLE download_tasks (
                id TEXT PRIMARY KEY,
                source_type TEXT NOT NULL,
                source TEXT NOT NULL,
                engine TEXT NOT NULL,
                engine_task_id TEXT,
                file_name TEXT NOT NULL,
                status TEXT NOT NULL,
                progress REAL NOT NULL DEFAULT 0,
                speed_bytes_per_sec INTEGER NOT NULL DEFAULT 0,
                save_path TEXT NOT NULL,
                created_at TEXT NOT NULL DEFAULT (datetime('now')),
                completed_at TEXT,
                error_message TEXT
            );
            INSERT INTO download_tasks (id, source_type, source, engine, file_name, status, save_path)
                VALUES ('t1', 'http', 'http://x/a', 'aria2', 'a', 'completed', '/d');",
        )
        .unwrap();
    for (index, column) in added.iter().enumerate() {
        if index == 1 && !columns(&connection, "engine_settings").contains(&"id".to_string()) {
            connection.execute_batch(REBUILD_ENGINE_SETTINGS_WITH_IDS).unwrap();
        }
        if columns(&connection, column.table).contains(&column.column.to_string()) {
            continue;
        }
        connection.execute(&unidl::schema::add_column_statement(column), []).unwrap();
        if let Some(backfill) = column.backfill {
            connection.execute_batch(backfill).unwrap();
        }
    }
    let engine_columns = columns(&connection, "engine_settings");
    for name in ["id", "name", "priority", "trackers", "aria2_seed_ratio", "qbittorrent_seed_time_limit_minutes"] {
        assert!(engine_columns.contains(&name.to_string()), "missing {name}");
    }
    let task_columns = columns(&connection, "download_tasks");
    for name in ["engine_settings_id", "engine_args", "downloaded_bytes", "http_referrer"] {
        assert!(task_columns.contains(&name.to_string()), "missing {name}");
    }
    let engine_settings_id: String = connection
        .query_row("SELECT engine_settings_id FROM download_tasks WHERE id = 't1'", [], |row| row.get(0))
        .unwrap();
    assert_eq!(engine_settings_id, "aria2");
    let name: String = connection
        .query_row("SELECT name FROM engine_settings WHERE id = 'aria2'", [], |row| row.get(0))
        .unwrap();
    assert_eq!(name, "aria2");
}
