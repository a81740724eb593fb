//! The layout of the database that the codec's records are stored in: its
//! tables, the rebuild of an early engine settings table, and the
//! application settings that a new database starts with.
use crate::text::{chars_of, extend_vec, string_of};
use vstd::prelude::*;

verus! {

/// The three tables, created where they are missing.
pub const CREATE_TABLES: &'static str = r#"
PRAGMA foreign_keys = ON;

CREATE TABLE IF NOT EXISTS engine_settings (
id TEXT PRIMARY KEY,
engine TEXT NOT NULL CHECK (engine IN ('aria2', 'yt-dlp', 'qbittorrent')),
name TEXT NOT NULL DEFAULT '',
enabled INTEGER NOT NULL DEFAULT 0 CHECK (enabled IN (0, 1)),
executable_path TEXT,
default_download_dir TEXT NOT NULL DEFAULT '',
default_args TEXT NOT NULL DEFAULT '',
connection_url TEXT,
username TEXT,
password TEXT,
remote_path TEXT,
supported_source_types TEXT NOT NULL DEFAULT '',
preferred_domains TEXT NOT NULL DEFAULT '',
tracker_subscription_url TEXT,
trackers TEXT NOT NULL DEFAULT '',
proxy_url TEXT,
user_agent TEXT,
speed_limit_bytes_per_sec INTEGER NOT NULL DEFAULT 0 CHECK (speed_limit_bytes_per_sec >= 0),
qbittorrent_download_limit_bytes_per_sec INTEGER NOT NULL DEFAULT 0 CHECK (qbittorrent_download_limit_bytes_per_sec >= 0),
qbittorrent_upload_limit_bytes_per_sec INTEGER NOT NULL DEFAULT 0 CHECK (qbittorrent_upload_limit_bytes_per_sec >= 0),
qbittorrent_seed_ratio_limit REAL NOT NULL DEFAULT 0 CHECK (qbittorrent_seed_ratio_limit >= 0),
qbittorrent_seed_time_limit_minutes INTEGER NOT NULL DEFAULT 0 CHECK (qbittorrent_seed_time_limit_minutes >= 0),
aria2_enable_dht INTEGER NOT NULL DEFAULT 1 CHECK (aria2_enable_dht IN (0, 1)),
aria2_enable_dht6 INTEGER NOT NULL DEFAULT 1 CHECK (aria2_enable_dht6 IN (0, 1)),
aria2_enable_peer_exchange INTEGER NOT NULL DEFAULT 1 CHECK (aria2_enable_peer_exchange IN (0, 1)),
aria2_enable_lpd INTEGER NOT NULL DEFAULT 1 CHECK (aria2_enable_lpd IN (0, 1)),
aria2_bt_listen_port INTEGER NOT NULL DEFAULT 6881 CHECK (aria2_bt_listen_port >= 1 AND aria2_bt_listen_port <= 65535),
aria2_bt_max_peers INTEGER NOT NULL DEFAULT 55 CHECK (aria2_bt_max_peers >= 0),
aria2_max_connection_per_server INTEGER NOT NULL DEFAULT 16 CHECK (aria2_max_connection_per_server >= 1),
aria2_split INTEGER NOT NULL DEFAULT 16 CHECK (aria2_split >= 1),
aria2_min_split_size TEXT NOT NULL DEFAULT '1M',
aria2_file_allocation TEXT NOT NULL DEFAULT 'none',
aria2_seed_time INTEGER NOT NULL DEFAULT 10 CHECK (aria2_seed_time >= 0),
aria2_seed_ratio REAL NOT NULL DEFAULT 1.0 CHECK (aria2_seed_ratio >= 0),
priority INTEGER NOT NULL DEFAULT 0,
created_at TEXT NOT NULL DEFAULT (datetime('now')),
updated_at TEXT NOT NULL DEFAULT (datetime('now'))
);

CREATE TABLE IF NOT EXISTS app_settings (
key TEXT PRIMARY KEY,
value TEXT NOT NULL,
updated_at TEXT NOT NULL DEFAULT (datetime('now'))
);

CREATE TABLE IF NOT EXISTS download_tasks (
id TEXT PRIMARY KEY,
source_type TEXT NOT NULL CHECK (
source_type IN ('http', 'ftp', 'magnet', 'torrent')
),
source TEXT NOT NULL,
engine_settings_id TEXT NOT NULL,
engine TEXT NOT NULL CHECK (engine IN ('aria2', 'yt-dlp', 'qbittorrent')),
engine_task_id TEXT,
file_name TEXT NOT NULL,
status TEXT NOT NULL CHECK (
status IN ('queued', 'running', 'paused', 'completed', 'failed', 'deleted')
),
progress REAL NOT NULL DEFAULT 0 CHECK (progress >= 0 AND progress <= 100),
speed_bytes_per_sec INTEGER NOT NULL DEFAULT 0 CHECK (speed_bytes_per_sec >= 0),
downloaded_bytes INTEGER NOT NULL DEFAULT 0 CHECK (downloaded_bytes >= 0),
total_bytes INTEGER NOT NULL DEFAULT 0 CHECK (total_bytes >= 0),
save_path TEXT NOT NULL,
engine_args TEXT NOT NULL DEFAULT '',
selected_file_indexes TEXT,
browser_cookies TEXT,
http_referrer TEXT,
created_at TEXT NOT NULL DEFAULT (datetime('now')),
completed_at TEXT,
error_message TEXT
);

CREATE INDEX IF NOT EXISTS idx_download_tasks_created_at
ON download_tasks (created_at DESC);
CREATE INDEX IF NOT EXISTS idx_download_tasks_status
ON download_tasks (status);
"#;

/// Rebuilds an `engine_settings` table from the time when each engine had
/// one row keyed by its name: the engine's name becomes the row's id, its
/// source types and priority are the engine's defaults.
pub const REBUILD_ENGINE_SETTINGS_WITH_IDS: &'static str = r#"
ALTER TABLE engine_settings RENAME TO engine_settings_legacy;

CREATE TABLE engine_settings (
id TEXT PRIMARY KEY,
engine TEXT NOT NULL CHECK (engine IN ('aria2', 'yt-dlp', 'qbittorrent')),
name TEXT NOT NULL DEFAULT '',
enabled INTEGER NOT NULL DEFAULT 0 CHECK (enabled IN (0, 1)),
executable_path TEXT,
default_download_dir TEXT NOT NULL DEFAULT '',
default_args TEXT NOT NULL DEFAULT '',
connection_url TEXT,
username TEXT,
password TEXT,
remote_path TEXT,
supported_source_types TEXT NOT NULL DEFAULT '',
preferred_domains TEXT NOT NULL DEFAULT '',
tracker_subscription_url TEXT,
trackers TEXT NOT NULL DEFAULT '',
proxy_url TEXT,
user_agent TEXT,
speed_limit_bytes_per_sec INTEGER NOT NULL DEFAULT 0 CHECK (speed_limit_bytes_per_sec >= 0),
qbittorrent_download_limit_bytes_per_sec INTEGER NOT NULL DEFAULT 0 CHECK (qbittorrent_download_limit_bytes_per_sec >= 0),
qbittorrent_upload_limit_bytes_per_sec INTEGER NOT NULL DEFAULT 0 CHECK (qbittorrent_upload_limit_bytes_per_sec >= 0),
qbittorrent_seed_ratio_limit REAL NOT NULL DEFAULT 0 CHECK (qbittorrent_seed_ratio_limit >= 0),
qbittorrent_seed_time_limit_minutes INTEGER NOT NULL DEFAULT 0 CHECK (qbittorrent_seed_time_limit_minutes >= 0),
aria2_enable_dht INTEGER NOT NULL DEFAULT 1 CHECK (aria2_enable_dht IN (0, 1)),
aria2_enable_dht6 INTEGER NOT NULL DEFAULT 1 CHECK (aria2_enable_dht6 IN (0, 1)),
aria2_enable_peer_exchange INTEGER NOT NULL DEFAULT 1 CHECK (aria2_enable_peer_exchange IN (0, 1)),
aria2_enable_lpd INTEGER NOT NULL DEFAULT 1 CHECK (aria2_enable_lpd IN (0, 1)),
aria2_bt_listen_port INTEGER NOT NULL DEFAULT 6881 CHECK (aria2_bt_listen_port >= 1 AND aria2_bt_listen_port <= 65535),
aria2_bt_max_peers INTEGER NOT NULL DEFAULT 55 CHECK (aria2_bt_max_peers >= 0),
aria2_max_connection_per_server INTEGER NOT NULL DEFAULT 16 CHECK (aria2_max_connection_per_server >= 1),
aria2_split INTEGER NOT NULL DEFAULT 16 CHECK (aria2_split >= 1),
aria2_min_split_size TEXT NOT NULL DEFAULT '1M',
aria2_file_allocation TEXT NOT NULL DEFAULT 'none',
aria2_seed_time INTEGER NOT NULL DEFAULT 10 CHECK (aria2_seed_time >= 0),
aria2_seed_ratio REAL NOT NULL DEFAULT 1.0 CHECK (aria2_seed_ratio >= 0),
priority INTEGER NOT NULL DEFAULT 0,
created_at TEXT NOT NULL DEFAULT (datetime('now')),
updated_at TEXT NOT NULL DEFAULT (datetime('now'))
);

INSERT INTO engine_settings (
id,
engine,
name,
enabled,
executable_path,
default_download_dir,
default_args,
connection_url,
username,
password,
remote_path,
supported_source_types,
preferred_domains,
tracker_subscription_url,
trackers,
proxy_url,
user_agent,
speed_limit_bytes_per_sec,
aria2_enable_dht,
aria2_enable_dht6,
aria2_enable_peer_exchange,
aria2_enable_lpd,
aria2_max_connection_per_server,
aria2_split,
aria2_min_split_size,
aria2_file_allocation,
priority,
created_at,
updated_at
)
SELECT
engine,
engine,
engine,
enabled,
executable_path,
default_download_dir,
default_args,
connection_url,
username,
password,
remote_path,
CASE engine
WHEN 'aria2' THEN 'http,ftp,magnet,torrent'
WHEN 'yt-dlp' THEN 'http,ftp'
WHEN 'qbittorrent' THEN 'magnet,torrent'
ELSE ''
END,
'',
NULL,
'',
NULL,
NULL,
0,
1,
1,
1,
1,
16,
16,
'1M',
'none',
CASE engine
WHEN 'aria2' THEN 0
WHEN 'yt-dlp' THEN 1
WHEN 'qbittorrent' THEN 2
ELSE 3
END,
created_at,
updated_at
FROM engine_settings_legacy;

DROP TABLE engine_settings_legacy;
"#;

/// The application settings of a new database; existing keys keep their
/// values.
pub const SEED_APP_SETTINGS: &'static str = r#"
INSERT OR IGNORE INTO app_settings (key, value) VALUES
('theme_mode', 'light'),
('web_access_enabled', '0'),
('web_access_password', ''),
('web_access_url', 'http://127.0.0.1:18080'),
('private_download_domains', ''),
('app_proxy_url', ''),
('torrent_file_association_enabled', '1'),
('auto_start_enabled', '0'),
('auto_start_minimized_to_tray', '0'),
('close_to_tray_enabled', '0'),
('download_completion_notification_enabled', '0'),
('prevent_sleep_when_downloading_enabled', '0'),
('prevent_sleep_when_web_access_enabled', '0'),
('local_download_concurrency', '5'),
('auto_clean_download_tasks_enabled', '0'),
('auto_clean_download_tasks_days', '365');
"#;

/// A column that an older database gains: its table, its name, its
/// definition, and the statement that fills it in for existing rows.
pub struct AddedColumn {
    pub table: &'static str,
    pub column: &'static str,
    pub definition: &'static str,
    pub backfill: Option<&'static str>,
}

/// A column as plain text: its table, its name, its definition and its
/// backfill statement.
pub open spec fn added_view(a: AddedColumn) -> (Seq<char>, Seq<char>, Seq<char>, Option<Seq<char>>) {
    (a.table@, a.column@, a.definition@, match a.backfill {
        Some(b) => Some(b@),
        None => None,
    })
}

/// The columns added since the first release, in the order they came.
pub open spec fn spec_added_columns() -> Seq<(Seq<char>, Seq<char>, Seq<char>, Option<Seq<char>>)> {
    seq![
        ("engine_settings"@, "default_args"@, "TEXT NOT NULL DEFAULT ''"@, None),
        ("engine_settings"@, "name"@, "TEXT NOT NULL DEFAULT ''"@, Some("UPDATE engine_settings SET name = engine WHERE name = ''"@)),
        ("engine_settings"@, "priority"@, "INTEGER NOT NULL DEFAULT 0"@, Some("UPDATE engine_settings SET priority = CASE engine WHEN 'aria2' THEN 0 WHEN 'yt-dlp' THEN 1 WHEN 'qbittorrent' THEN 2 ELSE 3 END"@)),
        ("engine_settings"@, "supported_source_types"@, "TEXT NOT NULL DEFAULT ''"@, Some("UPDATE engine_settings SET supported_source_types = CASE engine WHEN 'aria2' THEN 'http,ftp,magnet,torrent' WHEN 'yt-dlp' THEN 'http,ftp' WHEN 'qbittorrent' THEN 'magnet,torrent' ELSE '' END"@)),
        ("engine_settings"@, "preferred_domains"@, "TEXT NOT NULL DEFAULT ''"@, None),
        ("engine_settings"@, "tracker_subscription_url"@, "TEXT"@, None),
        ("engine_settings"@, "trackers"@, "TEXT NOT NULL DEFAULT ''"@, None),
        ("engine_settings"@, "proxy_url"@, "TEXT"@, None),
        ("engine_settings"@, "user_agent"@, "TEXT"@, None),
        ("engine_settings"@, "speed_limit_bytes_per_sec"@, "INTEGER NOT NULL DEFAULT 0 CHECK (speed_limit_bytes_per_sec >= 0)"@, None),
        ("engine_settings"@, "qbittorrent_download_limit_bytes_per_sec"@, "INTEGER NOT NULL DEFAULT 0 CHECK (qbittorrent_download_limit_bytes_per_sec >= 0)"@, None),
        ("engine_settings"@, "qbittorrent_upload_limit_bytes_per_sec"@, "INTEGER NOT NULL DEFAULT 0 CHECK (qbittorrent_upload_limit_bytes_per_sec >= 0)"@, None),
        ("engine_settings"@, "qbittorrent_seed_ratio_limit"@, "REAL NOT NULL DEFAULT 0 CHECK (qbittorrent_seed_ratio_limit >= 0)"@, None),
        ("engine_settings"@, "qbittorrent_seed_time_limit_minutes"@, "INTEGER NOT NULL DEFAULT 0 CHECK (qbittorrent_seed_time_limit_minutes >= 0)"@, None),
        ("engine_settings"@, "aria2_enable_dht"@, "INTEGER NOT NULL DEFAULT 1 CHECK (aria2_enable_dht IN (0, 1))"@, None),
        ("engine_settings"@, "aria2_enable_dht6"@, "INTEGER NOT NULL DEFAULT 1 CHECK (aria2_enable_dht6 IN (0, 1))"@, None),
        ("engine_settings"@, "aria2_enable_peer_exchange"@, "INTEGER NOT NULL DEFAULT 1 CHECK (aria2_enable_peer_exchange IN (0, 1))"@, None),
        ("engine_settings"@, "aria2_enable_lpd"@, "INTEGER NOT NULL DEFAULT 1 CHECK (aria2_enable_lpd IN (0, 1))"@, None),
        ("engine_settings"@, "aria2_bt_listen_port"@, "INTEGER NOT NULL DEFAULT 6881 CHECK (aria2_bt_listen_port >= 1 AND aria2_bt_listen_port <= 65535)"@, None),
        ("engine_settings"@, "aria2_bt_max_peers"@, "INTEGER NOT NULL DEFAULT 55 CHECK (aria2_bt_max_peers >= 0)"@, None),
        ("engine_settings"@, "aria2_max_connection_per_server"@, "INTEGER NOT NULL DEFAULT 16 CHECK (aria2_max_connection_per_server >= 1)"@, None),
        ("engine_settings"@, "aria2_split"@, "INTEGER NOT NULL DEFAULT 16 CHECK (aria2_split >= 1)"@, None),
        ("engine_settings"@, "aria2_min_split_size"@, "TEXT NOT NULL DEFAULT '1M'"@, None),
        ("engine_settings"@, "aria2_file_allocation"@, "TEXT NOT NULL DEFAULT 'none'"@, None),
        ("engine_settings"@, "aria2_seed_time"@, "INTEGER NOT NULL DEFAULT 10 CHECK (aria2_seed_time >= 0)"@, None),
        ("engine_settings"@, "aria2_seed_ratio"@, "REAL NOT NULL DEFAULT 1.0 CHECK (aria2_seed_ratio >= 0)"@, None),
        ("download_tasks"@, "engine_settings_id"@, "TEXT NOT NULL DEFAULT ''"@, Some("UPDATE download_tasks SET engine_settings_id = engine WHERE engine_settings_id = ''"@)),
        ("download_tasks"@, "engine_args"@, "TEXT NOT NULL DEFAULT ''"@, None),
        ("download_tasks"@, "downloaded_bytes"@, "INTEGER NOT NULL DEFAULT 0 CHECK (downloaded_bytes >= 0)"@, None),
        ("download_tasks"@, "total_bytes"@, "INTEGER NOT NULL DEFAULT 0 CHECK (total_bytes >= 0)"@, None),
        ("download_tasks"@, "selected_file_indexes"@, "TEXT"@, None),
        ("download_tasks"@, "browser_cookies"@, "TEXT"@, None),
        ("download_tasks"@, "http_referrer"@, "TEXT"@, None)
    ]
}

/// The columns added since the first release, in the order they came. The
/// rebuild of `engine_settings` with ids comes after the first of them.
pub fn added_columns() -> (r: Vec<AddedColumn>)
    ensures
        r@.len() == spec_added_columns().len(),
        forall|i: int| 0 <= i < r@.len() ==> added_view(#[trigger] r@[i]) == spec_added_columns()[i],
{
    let mut r: Vec<AddedColumn> = Vec::new();
    r.push(AddedColumn { table: "engine_settings", column: "default_args", definition: "TEXT NOT NULL DEFAULT ''", backfill: None });
    r.push(AddedColumn { table: "engine_settings", column: "name", definition: "TEXT NOT NULL DEFAULT ''", backfill: Some("UPDATE engine_settings SET name = engine WHERE name = ''") });
    r.push(AddedColumn { table: "engine_settings", column: "priority", definition: "INTEGER NOT NULL DEFAULT 0", backfill: Some("UPDATE engine_settings SET priority = CASE engine WHEN 'aria2' THEN 0 WHEN 'yt-dlp' THEN 1 WHEN 'qbittorrent' THEN 2 ELSE 3 END") });
    r.push(AddedColumn { table: "engine_settings", column: "supported_source_types", definition: "TEXT NOT NULL DEFAULT ''", backfill: Some("UPDATE engine_settings SET supported_source_types = CASE engine WHEN 'aria2' THEN 'http,ftp,magnet,torrent' WHEN 'yt-dlp' THEN 'http,ftp' WHEN 'qbittorrent' THEN 'magnet,torrent' ELSE '' END") });
    r.push(AddedColumn { table: "engine_settings", column: "preferred_domains", definition: "TEXT NOT NULL DEFAULT ''", backfill: None });
    r.push(AddedColumn { table: "engine_settings", column: "tracker_subscription_url", definition: "TEXT", backfill: None });
    r.push(AddedColumn { table: "engine_settings", column: "trackers", definition: "TEXT NOT NULL DEFAULT ''", backfill: None });
    r.push(AddedColumn { table: "engine_settings", column: "proxy_url", definition: "TEXT", backfill: None });
    r.push(AddedColumn { table: "engine_settings", column: "user_agent", definition: "TEXT", backfill: None });
    r.push(AddedColumn { table: "engine_settings", column: "speed_limit_bytes_per_sec", definition: "INTEGER NOT NULL DEFAULT 0 CHECK (speed_limit_bytes_per_sec >= 0)", backfill: None });
    r.push(AddedColumn { table: "engine_settings", column: "qbittorrent_download_limit_bytes_per_sec", definition: "INTEGER NOT NULL DEFAULT 0 CHECK (qbittorrent_download_limit_bytes_per_sec >= 0)", backfill: None });
    r.push(AddedColumn { table: "engine_settings", column: "qbittorrent_upload_limit_bytes_per_sec", definition: "INTEGER NOT NULL DEFAULT 0 CHECK (qbittorrent_upload_limit_bytes_per_sec >= 0)", backfill: None });
    r.push(AddedColumn { table: "engine_settings", column: "qbittorrent_seed_ratio_limit", definition: "REAL NOT NULL DEFAULT 0 CHECK (qbittorrent_seed_ratio_limit >= 0)", backfill: None });
    r.push(AddedColumn { table: "engine_settings", column: "qbittorrent_seed_time_limit_minutes", definition: "INTEGER NOT NULL DEFAULT 0 CHECK (qbittorrent_seed_time_limit_minutes >= 0)", backfill: None });
    r.push(AddedColumn { table: "engine_settings", column: "aria2_enable_dht", definition: "INTEGER NOT NULL DEFAULT 1 CHECK (aria2_enable_dht IN (0, 1))", backfill: None });
    r.push(AddedColumn { table: "engine_settings", column: "aria2_enable_dht6", definition: "INTEGER NOT NULL DEFAULT 1 CHECK (aria2_enable_dht6 IN (0, 1))", backfill: None });
    r.push(AddedColumn { table: "engine_settings", column: "aria2_enable_peer_exchange", definition: "INTEGER NOT NULL DEFAULT 1 CHECK (aria2_enable_peer_exchange IN (0, 1))", backfill: None });
    r.push(AddedColumn { table: "engine_settings", column: "aria2_enable_lpd", definition: "INTEGER NOT NULL DEFAULT 1 CHECK (aria2_enable_lpd IN (0, 1))", backfill: None });
    r.push(AddedColumn { table: "engine_settings", column: "aria2_bt_listen_port", definition: "INTEGER NOT NULL DEFAULT 6881 CHECK (aria2_bt_listen_port >= 1 AND aria2_bt_listen_port <= 65535)", backfill: None });
    r.push(AddedColumn { table: "engine_settings", column: "aria2_bt_max_peers", definition: "INTEGER NOT NULL DEFAULT 55 CHECK (aria2_bt_max_peers >= 0)", backfill: None });
    r.push(AddedColumn { table: "engine_settings", column: "aria2_max_connection_per_server", definition: "INTEGER NOT NULL DEFAULT 16 CHECK (aria2_max_connection_per_server >= 1)", backfill: None });
    r.push(AddedColumn { table: "engine_settings", column: "aria2_split", definition: "INTEGER NOT NULL DEFAULT 16 CHECK (aria2_split >= 1)", backfill: None });
    r.push(AddedColumn { table: "engine_settings", column: "aria2_min_split_size", definition: "TEXT NOT NULL DEFAULT '1M'", backfill: None });
    r.push(AddedColumn { table: "engine_settings", column: "aria2_file_allocation", definition: "TEXT NOT NULL DEFAULT 'none'", backfill: None });
    r.push(AddedColumn { table: "engine_settings", column: "aria2_seed_time", definition: "INTEGER NOT NULL DEFAULT 10 CHECK (aria2_seed_time >= 0)", backfill: None });
    r.push(AddedColumn { table: "engine_settings", column: "aria2_seed_ratio", definition: "REAL NOT NULL DEFAULT 1.0 CHECK (aria2_seed_ratio >= 0)", backfill: None });
    r.push(AddedColumn { table: "download_tasks", column: "engine_settings_id", definition: "TEXT NOT NULL DEFAULT ''", backfill: Some("UPDATE download_tasks SET engine_settings_id = engine WHERE engine_settings_id = ''") });
    r.push(AddedColumn { table: "download_tasks", column: "engine_args", definition: "TEXT NOT NULL DEFAULT ''", backfill: None });
    r.push(AddedColumn { table: "download_tasks", column: "downloaded_bytes", definition: "INTEGER NOT NULL DEFAULT 0 CHECK (downloaded_bytes >= 0)", backfill: None });
    r.push(AddedColumn { table: "download_tasks", column: "total_bytes", definition: "INTEGER NOT NULL DEFAULT 0 CHECK (total_bytes >= 0)", backfill: None });
    r.push(AddedColumn { table: "download_tasks", column: "selected_file_indexes", definition: "TEXT", backfill: None });
    r.push(AddedColumn { table: "download_tasks", column: "browser_cookies", definition: "TEXT", backfill: None });
    r.push(AddedColumn { table: "download_tasks", column: "http_referrer", definition: "TEXT", backfill: None });
    proof {
        let views = r@.map_values(|a: AddedColumn| added_view(a));
        assert(views =~= spec_added_columns());
        assert forall|i: int| 0 <= i < r@.len() implies added_view(#[trigger] r@[i]) == spec_added_columns()[i] by {
            assert(views[i] == added_view(r@[i]));
        }
    }
    r
}

/// The statement that adds a column: `ALTER TABLE <table> ADD COLUMN
/// <column> <definition>`.
pub fn add_column_statement(added: &AddedColumn) -> (r: String)
    ensures
        r@ == "ALTER TABLE "@ + added.table@ + " ADD COLUMN "@ + added.column@ + " "@ + added.definition@,
{
    let mut v = chars_of("ALTER TABLE ");
    extend_vec(&mut v, &chars_of(added.table));
    extend_vec(&mut v, &chars_of(" ADD COLUMN "));
    extend_vec(&mut v, &chars_of(added.column));
    extend_vec(&mut v, &chars_of(" "));
    extend_vec(&mut v, &chars_of(added.definition));
    string_of(&v)
}

} // verus!
