//! The data model: engines, source types, task states and the records that
//! flow between the task service, the engine adapters and the settings.
use crate::text::{chars_of, seq_eq, string_of};
use vstd::prelude::*;

verus! {

/// A stored value that does not name a known variant of `field`.
pub struct ModelParseError {
    pub field: String,
    pub value: String,
}

impl ModelParseError {
    pub fn new(field: &str, value: &str) -> (r: Self)
        ensures
            r.field@ == field@,
            r.value@ == value@,
    {
        ModelParseError { field: field.to_owned(), value: value.to_owned() }
    }

    /// `invalid <field> value: <value>`
    pub open spec fn message_spec(&self) -> Seq<char> {
        "invalid "@ + self.field@ + " value: "@ + self.value@
    }

    /// The error text: `invalid <field> value: <value>`.
    pub fn message(&self) -> (r: String)
        ensures
            r@ == self.message_spec(),
    {
        let mut v = chars_of("invalid ");
        crate::text::extend_vec(&mut v, &chars_of(self.field.as_str()));
        crate::text::extend_vec(&mut v, &chars_of(" value: "));
        crate::text::extend_vec(&mut v, &chars_of(self.value.as_str()));
        proof {
            assert(v@ =~= self.message_spec());
        }
        string_of(&v)
    }
}

/// Whether the characters of `v` are exactly those of the literal `lit`.
pub fn is_lit(v: &[char], lit: &str) -> (r: bool)
    ensures
        r == (v@ == lit@),
{
    let l = chars_of(lit);
    seq_eq(v, &l)
}

#[derive(Debug, Clone, Copy, PartialEq, Eq, Structural)]
pub enum EngineKind {
    Aria2,
    YtDlp,
    QBittorrent,
}

impl EngineKind {
    /// The name under which the engine is stored.
    pub open spec fn db_name(self) -> Seq<char> {
        match self {
            EngineKind::Aria2 => seq!['a', 'r', 'i', 'a', '2'],
            EngineKind::YtDlp => seq!['y', 't', '-', 'd', 'l', 'p'],
            EngineKind::QBittorrent => seq![
                'q',
                'b',
                'i',
                't',
                't',
                'o',
                'r',
                'r',
                'e',
                'n',
                't',
            ],
        }
    }

    /// The engine stored under `s`, if any.
    pub open spec fn parse_db(s: Seq<char>) -> Option<EngineKind> {
        if s == EngineKind::Aria2.db_name() {
            Some(EngineKind::Aria2)
        } else if s == EngineKind::YtDlp.db_name() {
            Some(EngineKind::YtDlp)
        } else if s == EngineKind::QBittorrent.db_name() {
            Some(EngineKind::QBittorrent)
        } else {
            None
        }
    }

    pub fn from_db(value: &str) -> (r: Result<EngineKind, ModelParseError>)
        ensures
            match r {
                Ok(e) => EngineKind::parse_db(value@) == Some(e),
                Err(err) => EngineKind::parse_db(value@) is None && err.field@ == "engine"@
                    && err.value@ == value@,
            },
    {
        let v = chars_of(value);
        proof {
            reveal_strlit("aria2");
            reveal_strlit("yt-dlp");
            reveal_strlit("qbittorrent");
            assert("aria2"@ =~= EngineKind::Aria2.db_name());
            assert("yt-dlp"@ =~= EngineKind::YtDlp.db_name());
            assert("qbittorrent"@ =~= EngineKind::QBittorrent.db_name());
        }
        if is_lit(&v, "aria2") {
            Ok(EngineKind::Aria2)
        } else if is_lit(&v, "yt-dlp") {
            Ok(EngineKind::YtDlp)
        } else if is_lit(&v, "qbittorrent") {
            Ok(EngineKind::QBittorrent)
        } else {
            Err(ModelParseError::new("engine", value))
        }
    }

    pub fn as_db(self) -> (s: &'static str)
        ensures
            s@ == self.db_name(),
    {
        proof {
            reveal_strlit("aria2");
            reveal_strlit("yt-dlp");
            reveal_strlit("qbittorrent");
        }
        match self {
            EngineKind::Aria2 => "aria2",
            EngineKind::YtDlp => "yt-dlp",
            EngineKind::QBittorrent => "qbittorrent",
        }
    }
}

#[derive(Debug, Clone, Copy, PartialEq, Eq, Structural)]
pub enum SourceType {
    Http,
    Ftp,
    Magnet,
    Torrent,
}

impl SourceType {
    pub open spec fn db_name(self) -> Seq<char> {
        match self {
            SourceType::Http => seq!['h', 't', 't', 'p'],
            SourceType::Ftp => seq!['f', 't', 'p'],
            SourceType::Magnet => seq!['m', 'a', 'g', 'n', 'e', 't'],
            SourceType::Torrent => seq!['t', 'o', 'r', 'r', 'e', 'n', 't'],
        }
    }

    pub open spec fn parse_db(s: Seq<char>) -> Option<SourceType> {
        if s == SourceType::Http.db_name() {
            Some(SourceType::Http)
        } else if s == SourceType::Ftp.db_name() {
            Some(SourceType::Ftp)
        } else if s == SourceType::Magnet.db_name() {
            Some(SourceType::Magnet)
        } else if s == SourceType::Torrent.db_name() {
            Some(SourceType::Torrent)
        } else {
            None
        }
    }

    pub fn from_db(value: &str) -> (r: Result<SourceType, ModelParseError>)
        ensures
            match r {
                Ok(t) => SourceType::parse_db(value@) == Some(t),
                Err(err) => SourceType::parse_db(value@) is None && err.field@ == "source_type"@
                    && err.value@ == value@,
            },
    {
        let v = chars_of(value);
        from_db_chars_source(&v, value)
    }

    pub fn as_db(self) -> (s: &'static str)
        ensures
            s@ == self.db_name(),
    {
        proof {
            reveal_strlit("http");
            reveal_strlit("ftp");
            reveal_strlit("magnet");
            reveal_strlit("torrent");
        }
        match self {
            SourceType::Http => "http",
            SourceType::Ftp => "ftp",
            SourceType::Magnet => "magnet",
            SourceType::Torrent => "torrent",
        }
    }
}

/// The source type named by `v` (the characters of `value`).
pub fn from_db_chars_source(v: &[char], value: &str) -> (r: Result<SourceType, ModelParseError>)
    requires
        v@ == value@,
    ensures
        match r {
            Ok(t) => SourceType::parse_db(value@) == Some(t),
            Err(err) => SourceType::parse_db(value@) is None && err.field@ == "source_type"@
                && err.value@ == value@,
        },
{
    proof {
        reveal_strlit("http");
        reveal_strlit("ftp");
        reveal_strlit("magnet");
        reveal_strlit("torrent");
        assert("http"@ =~= SourceType::Http.db_name());
        assert("ftp"@ =~= SourceType::Ftp.db_name());
        assert("magnet"@ =~= SourceType::Magnet.db_name());
        assert("torrent"@ =~= SourceType::Torrent.db_name());
    }
    if is_lit(v, "http") {
        Ok(SourceType::Http)
    } else if is_lit(v, "ftp") {
        Ok(SourceType::Ftp)
    } else if is_lit(v, "magnet") {
        Ok(SourceType::Magnet)
    } else if is_lit(v, "torrent") {
        Ok(SourceType::Torrent)
    } else {
        Err(ModelParseError::new("source_type", value))
    }
}

#[derive(Debug, Clone, Copy, PartialEq, Eq, Structural)]
pub enum FileConflictAction {
    Prompt,
    Overwrite,
    Rename,
}

#[derive(Debug, Clone, Copy, PartialEq, Eq, Structural)]
pub enum DownloadDuplicateKind {
    SameSource,
    SameFinalUrl,
    SameSavePath,
    SameNameAndSize,
    SameTorrentInfoHash,
}

#[derive(Debug, Clone, Copy, PartialEq, Eq, Structural)]
pub enum DownloadDuplicateTaskState {
    Active,
    Completed,
}

#[derive(Debug, Clone, Copy, PartialEq, Eq, Structural)]
pub enum DownloadStatus {
    Queued,
    Running,
    Paused,
    Completed,
    Failed,
    Deleted,
}

impl DownloadStatus {
    pub open spec fn db_name(self) -> Seq<char> {
        match self {
            DownloadStatus::Queued => seq!['q', 'u', 'e', 'u', 'e', 'd'],
            DownloadStatus::Running => seq!['r', 'u', 'n', 'n', 'i', 'n', 'g'],
            DownloadStatus::Paused => seq!['p', 'a', 'u', 's', 'e', 'd'],
            DownloadStatus::Completed => seq!['c', 'o', 'm', 'p', 'l', 'e', 't', 'e', 'd'],
            DownloadStatus::Failed => seq!['f', 'a', 'i', 'l', 'e', 'd'],
            DownloadStatus::Deleted => seq!['d', 'e', 'l', 'e', 't', 'e', 'd'],
        }
    }

    pub open spec fn parse_db(s: Seq<char>) -> Option<DownloadStatus> {
        if s == DownloadStatus::Queued.db_name() {
            Some(DownloadStatus::Queued)
        } else if s == DownloadStatus::Running.db_name() {
            Some(DownloadStatus::Running)
        } else if s == DownloadStatus::Paused.db_name() {
            Some(DownloadStatus::Paused)
        } else if s == DownloadStatus::Completed.db_name() {
            Some(DownloadStatus::Completed)
        } else if s == DownloadStatus::Failed.db_name() {
            Some(DownloadStatus::Failed)
        } else if s == DownloadStatus::Deleted.db_name() {
            Some(DownloadStatus::Deleted)
        } else {
            None
        }
    }

    pub fn from_db(value: &str) -> (r: Result<DownloadStatus, ModelParseError>)
        ensures
            match r {
                Ok(st) => DownloadStatus::parse_db(value@) == Some(st),
                Err(err) => DownloadStatus::parse_db(value@) is None && err.field@ == "status"@
                    && err.value@ == value@,
            },
    {
        let v = chars_of(value);
        proof {
            reveal_strlit("queued");
            reveal_strlit("running");
            reveal_strlit("paused");
            reveal_strlit("completed");
            reveal_strlit("failed");
            reveal_strlit("deleted");
            assert("queued"@ =~= DownloadStatus::Queued.db_name());
            assert("running"@ =~= DownloadStatus::Running.db_name());
            assert("paused"@ =~= DownloadStatus::Paused.db_name());
            assert("completed"@ =~= DownloadStatus::Completed.db_name());
            assert("failed"@ =~= DownloadStatus::Failed.db_name());
            assert("deleted"@ =~= DownloadStatus::Deleted.db_name());
        }
        if is_lit(&v, "queued") {
            Ok(DownloadStatus::Queued)
        } else if is_lit(&v, "running") {
            Ok(DownloadStatus::Running)
        } else if is_lit(&v, "paused") {
            Ok(DownloadStatus::Paused)
        } else if is_lit(&v, "completed") {
            Ok(DownloadStatus::Completed)
        } else if is_lit(&v, "failed") {
            Ok(DownloadStatus::Failed)
        } else if is_lit(&v, "deleted") {
            Ok(DownloadStatus::Deleted)
        } else {
            Err(ModelParseError::new("status", value))
        }
    }

    pub fn as_db(self) -> (s: &'static str)
        ensures
            s@ == self.db_name(),
    {
        proof {
            reveal_strlit("queued");
            reveal_strlit("running");
            reveal_strlit("paused");
            reveal_strlit("completed");
            reveal_strlit("failed");
            reveal_strlit("deleted");
        }
        match self {
            DownloadStatus::Queued => "queued",
            DownloadStatus::Running => "running",
            DownloadStatus::Paused => "paused",
            DownloadStatus::Completed => "completed",
            DownloadStatus::Failed => "failed",
            DownloadStatus::Deleted => "deleted",
        }
    }
}

/// Every stored name reads back as the variant that wrote it, and a name that
/// reads back as a variant is that variant's name.
pub proof fn lemma_db_names_round_trip(e: EngineKind, t: SourceType, st: DownloadStatus, s: Seq<char>)
    ensures
        EngineKind::parse_db(e.db_name()) == Some(e),
        SourceType::parse_db(t.db_name()) == Some(t),
        DownloadStatus::parse_db(st.db_name()) == Some(st),
        EngineKind::parse_db(s) matches Some(x) ==> x.db_name() == s,
        SourceType::parse_db(s) matches Some(x) ==> x.db_name() == s,
        DownloadStatus::parse_db(s) matches Some(x) ==> x.db_name() == s,
{
    assert(EngineKind::Aria2.db_name() != EngineKind::YtDlp.db_name());
    assert(EngineKind::Aria2.db_name() != EngineKind::QBittorrent.db_name());
    assert(EngineKind::YtDlp.db_name() != EngineKind::QBittorrent.db_name());
    assert(SourceType::Http.db_name() != SourceType::Ftp.db_name());
    assert(SourceType::Http.db_name() != SourceType::Magnet.db_name());
    assert(SourceType::Http.db_name() != SourceType::Torrent.db_name());
    assert(SourceType::Ftp.db_name() != SourceType::Magnet.db_name());
    assert(SourceType::Ftp.db_name() != SourceType::Torrent.db_name());
    assert(SourceType::Magnet.db_name() != SourceType::Torrent.db_name());
    assert(DownloadStatus::Queued.db_name() != DownloadStatus::Running.db_name());
    assert(DownloadStatus::Queued.db_name() != DownloadStatus::Paused.db_name());
    assert(DownloadStatus::Queued.db_name() != DownloadStatus::Completed.db_name());
    assert(DownloadStatus::Queued.db_name() != DownloadStatus::Failed.db_name());
    assert(DownloadStatus::Queued.db_name() != DownloadStatus::Deleted.db_name());
    assert(DownloadStatus::Running.db_name() != DownloadStatus::Paused.db_name());
    assert(DownloadStatus::Running.db_name() != DownloadStatus::Completed.db_name());
    assert(DownloadStatus::Running.db_name() != DownloadStatus::Failed.db_name());
    assert(DownloadStatus::Running.db_name() != DownloadStatus::Deleted.db_name());
    assert(DownloadStatus::Paused.db_name() != DownloadStatus::Completed.db_name());
    assert(DownloadStatus::Paused.db_name() != DownloadStatus::Failed.db_name());
    assert(DownloadStatus::Paused.db_name() != DownloadStatus::Deleted.db_name());
    assert(DownloadStatus::Completed.db_name() != DownloadStatus::Failed.db_name());
    assert(DownloadStatus::Completed.db_name() != DownloadStatus::Deleted.db_name());
    assert(DownloadStatus::Failed.db_name()[0] != DownloadStatus::Deleted.db_name()[0]);
}

/// The source types an engine can download, in the order they are listed.
pub open spec fn supported_spec(engine: EngineKind) -> Seq<SourceType> {
    match engine {
        EngineKind::Aria2 => seq![
            SourceType::Http,
            SourceType::Ftp,
            SourceType::Magnet,
            SourceType::Torrent,
        ],
        EngineKind::YtDlp => seq![SourceType::Http, SourceType::Ftp],
        EngineKind::QBittorrent => seq![SourceType::Magnet, SourceType::Torrent],
    }
}

/// aria2 takes every source type, yt-dlp only web pages and FTP, qBittorrent
/// only magnet links and torrent files.
pub open spec fn supports(engine: EngineKind, source_type: SourceType) -> bool {
    match engine {
        EngineKind::Aria2 => true,
        EngineKind::YtDlp => source_type == SourceType::Http || source_type == SourceType::Ftp,
        EngineKind::QBittorrent => source_type == SourceType::Magnet || source_type
            == SourceType::Torrent,
    }
}

pub fn supported_source_types(engine: EngineKind) -> (r: Vec<SourceType>)
    ensures
        r@ == supported_spec(engine),
{
    let mut r: Vec<SourceType> = Vec::new();
    match engine {
        EngineKind::Aria2 => {
            r.push(SourceType::Http);
            r.push(SourceType::Ftp);
            r.push(SourceType::Magnet);
            r.push(SourceType::Torrent);
        },
        EngineKind::YtDlp => {
            r.push(SourceType::Http);
            r.push(SourceType::Ftp);
        },
        EngineKind::QBittorrent => {
            r.push(SourceType::Magnet);
            r.push(SourceType::Torrent);
        },
    }
    proof {
        assert(r@ =~= supported_spec(engine));
    }
    r
}

/// Whether `items` holds `t`.
pub fn contains_source_type(items: &[SourceType], t: SourceType) -> (r: bool)
    ensures
        r == items@.contains(t),
{
    let mut i: usize = 0;
    while i < items.len()
        invariant
            i <= items.len(),
            forall|j: int| 0 <= j < i ==> items@[j] != t,
        decreases items.len() - i,
    {
        if items[i] == t {
            return true;
        }
        i = i + 1;
    }
    false
}

pub fn engine_supports_source_type(engine: EngineKind, source_type: SourceType) -> (r: bool)
    ensures
        r == supported_spec(engine).contains(source_type),
        r == supports(engine, source_type),
{
    let all = supported_source_types(engine);
    let r = contains_source_type(&all, source_type);
    proof {
        lemma_supports_listed(engine, source_type);
    }
    r
}

/// An engine supports a source type exactly when the type is in its list.
pub proof fn lemma_supports_listed(engine: EngineKind, source_type: SourceType)
    ensures
        supports(engine, source_type) == supported_spec(engine).contains(source_type),
        supported_spec(engine).no_duplicates(),
{
    let s = supported_spec(engine);
    if supports(engine, source_type) {
        match engine {
            EngineKind::Aria2 => match source_type {
                SourceType::Http => assert(s[0] == source_type),
                SourceType::Ftp => assert(s[1] == source_type),
                SourceType::Magnet => assert(s[2] == source_type),
                SourceType::Torrent => assert(s[3] == source_type),
            },
            EngineKind::YtDlp => if source_type == SourceType::Http {
                assert(s[0] == source_type);
            } else {
                assert(s[1] == source_type);
            },
            EngineKind::QBittorrent => if source_type == SourceType::Magnet {
                assert(s[0] == source_type);
            } else {
                assert(s[1] == source_type);
            },
        }
    }
}

/// What the services read of an engine's settings when they pick an engine
/// or check that it takes a task.
pub struct EngineSummary {
    pub id: String,
    pub engine: EngineKind,
    pub enabled: bool,
    pub supported_source_types: Vec<SourceType>,
    pub executable_path: Option<String>,
    pub proxy_url: Option<String>,
}

/// What the user asks for when creating a task.
pub struct CreateDownloadTaskInput {
    pub source_type: SourceType,
    pub source: String,
    pub engine: EngineKind,
    pub engine_settings_id: Option<String>,
    pub file_name: String,
    pub save_path: String,
    pub engine_args: String,
    pub selected_file_indexes: Option<Vec<i64>>,
    pub browser_cookies: Option<String>,
    pub http_referrer: Option<String>,
    pub file_conflict_action: Option<FileConflictAction>,
}

/// A file that a new task would overwrite.
pub struct DownloadFileConflict {
    pub file_name: String,
    pub path: String,
}

/// The record written for a new task.
pub struct NewDownloadTask {
    pub source_type: SourceType,
    pub source: String,
    pub engine_settings_id: String,
    pub engine: EngineKind,
    pub file_name: String,
    pub save_path: String,
    pub engine_args: String,
    pub selected_file_indexes: Option<Vec<i64>>,
    pub browser_cookies: Option<String>,
    pub http_referrer: Option<String>,
}

/// A directory on the machine of a remote engine.
pub struct RemoteDirectoryEntry {
    pub name: String,
    pub path: String,
}

/// The application settings.
pub struct AppSettings {
    pub theme_mode: String,
    pub web_access_enabled: bool,
    pub web_access_password: String,
    pub web_access_url: String,
    pub private_download_domains: Vec<String>,
    pub app_proxy_url: String,
    pub torrent_file_association_enabled: bool,
    pub auto_start_enabled: bool,
    pub auto_start_minimized_to_tray: bool,
    pub close_to_tray_enabled: bool,
    pub download_completion_notification_enabled: bool,
    pub prevent_sleep_when_downloading_enabled: bool,
    pub prevent_sleep_when_web_access_enabled: bool,
    pub local_download_concurrency: i64,
    pub auto_clean_download_tasks_enabled: bool,
    pub auto_clean_download_tasks_days: i64,
}

/// The application settings as the user submits them.
pub struct AppSettingsInput {
    pub theme_mode: String,
    pub web_access_enabled: bool,
    pub web_access_password: String,
    pub web_access_url: String,
    pub private_download_domains: Vec<String>,
    pub app_proxy_url: String,
    pub torrent_file_association_enabled: bool,
    pub auto_start_enabled: bool,
    pub auto_start_minimized_to_tray: bool,
    pub close_to_tray_enabled: bool,
    pub download_completion_notification_enabled: bool,
    pub prevent_sleep_when_downloading_enabled: bool,
    pub prevent_sleep_when_web_access_enabled: bool,
    pub local_download_concurrency: i64,
    pub auto_clean_download_tasks_enabled: bool,
    pub auto_clean_download_tasks_days: i64,
}

} // verus!
