//! The local web API: its address, the requests it answers and how they are
//! routed, and what the browser extension sends it.
use crate::options::TextSet;
use crate::models::{contains_source_type, EngineKind, EngineSummary, SourceType};
use crate::text::{
    chars_of, contains_char, dec, ends_with, eq_ic, eq_ignore_ascii_case, extend_vec, find_char,
    format_u64, has_prefix, has_suffix, index_of, lemma_split_nonempty, lower_seq, seq_eq,
    slice_vec, split_chars, split_seq, starts_with, string_of, to_ascii_lowercase, trim,
    trim_end_str, trim_end_str_chars, trim_start_str, trim_start_str_chars, trim_str,
};
use vstd::prelude::*;

verus! {

/// Why a web access URL cannot be served.
#[derive(Debug, Clone, Copy, PartialEq, Eq, Structural)]
pub enum BindAddressError {
    NotHttp,
    NotHostAndPort,
}

impl BindAddressError {
    pub fn message(&self) -> (r: &'static str)
        ensures
            r@ == (match self {
                BindAddressError::NotHttp => "web access URL must start with http://"@,
                BindAddressError::NotHostAndPort => "web access URL must only include host and port"@,
            }),
    {
        match self {
            BindAddressError::NotHttp => "web access URL must start with http://",
            BindAddressError::NotHostAndPort => "web access URL must only include host and port",
        }
    }
}

/// The host and port of a web access URL: the trimmed URL after `http://`,
/// which may hold no `/`, `?` or `#`.
pub open spec fn spec_bind_address(url: Seq<char>) -> Result<Seq<char>, BindAddressError> {
    let t = trim(url);
    if !starts_with(t, "http://"@) {
        Err(BindAddressError::NotHttp)
    } else {
        let a = t.skip(7);
        if a.contains('/') || a.contains('?') || a.contains('#') {
            Err(BindAddressError::NotHostAndPort)
        } else {
            Ok(a)
        }
    }
}

/// The host and port that a web access URL names, as text; it is then
/// parsed as a socket address.
pub fn bind_address_from_url(url: &str) -> (r: Result<String, BindAddressError>)
    ensures
        match r {
            Ok(a) => spec_bind_address(url@) == Ok::<_, BindAddressError>(a@),
            Err(e) => spec_bind_address(url@) == Err::<Seq<char>, _>(e),
        },
{
    let t = trim_str(url);
    let prefix = chars_of("http://");
    proof {
        reveal_strlit("http://");
    }
    if !has_prefix(&t, &prefix) {
        return Err(BindAddressError::NotHttp);
    }
    let a = slice_vec(&t, 7, t.len());
    proof {
        assert(a@ =~= t@.skip(7));
    }
    if contains_char(&a, '/') || contains_char(&a, '?') || contains_char(&a, '#') {
        return Err(BindAddressError::NotHostAndPort);
    }
    Ok(string_of(&a))
}


/// The request methods that the web API tells apart.
#[derive(Debug, Clone, Copy, PartialEq, Eq, Structural)]
pub enum HttpMethod {
    Get,
    Post,
    Delete,
    Options,
    Other,
}

/// What a request to the web API is answered with.
#[derive(Debug, Clone, Copy, PartialEq, Eq, Structural)]
pub enum RouteKind {
    Preflight,
    Health,
    ExtensionVideos,
    ExtensionVideosSupport,
    ExtensionYtDlpTask,
    ExtensionTask,
    WebAccessDisabled,
    FrontendAsset,
    Login,
    Unauthorized,
    Events,
    ListTasks,
    CreateTask,
    TaskConflict,
    DuplicateCheck,
    RefreshTasks,
    PauseTasks,
    ResumeTasks,
    DeleteTasks,
    ClearRecords,
    PauseAll,
    ResumeAll,
    TorrentFiles,
    TaskTorrentFiles,
    TaskFileSelection,
    OpenTaskFile,
    OpenTaskDirectory,
    GetAppSettings,
    SaveAppSettings,
    ListEngineSettings,
    SaveEngineSettings,
    InstallLatest,
    DeleteEngineSettings,
    UpdateTrackers,
    RemoteDirectories,
    MagnetName,
    TestEngineConnection,
    ValidateEngineSourceType,
    SystemDownloadDir,
    ManagedEngineExecutablePath,
    NotFound,
}

/// A routed request: what answers it, and the task or engine settings id
/// that its path names, or the frontend asset it asks for (empty for the
/// other routes).
#[derive(Debug, PartialEq, Eq)]
pub struct Route {
    pub kind: RouteKind,
    pub target: String,
}

/// The path of a request URL: the URL up to its first `?`.
pub open spec fn spec_request_path(url: Seq<char>) -> Seq<char> {
    match index_of(url, '?') {
        Some(i) => url.take(i),
        None => url,
    }
}

pub fn request_path(url: &str) -> (r: String)
    ensures
        r@ == spec_request_path(url@),
{
    let v = chars_of(url);
    match find_char(&v, '?') {
        Some(i) => {
            let p = slice_vec(&v, 0, i);
            proof {
                assert(p@ =~= v@.take(i as int));
            }
            string_of(&p)
        },
        None => string_of(&v),
    }
}

/// The frontend asset that a path asks for: `index.html` for the root,
/// else the path without its leading `/`s.
pub open spec fn spec_asset_path(path: Seq<char>) -> Seq<char> {
    if path == "/"@ || path.len() == 0 {
        "index.html"@
    } else {
        trim_start_str(path, "/"@)
    }
}

/// Whether a path lies under `prefix` and ends with `suffix`.
pub open spec fn names_item(path: Seq<char>, prefix: Seq<char>, suffix: Seq<char>) -> bool {
    starts_with(path, prefix) && ends_with(path, suffix)
}

/// The id in a path of the form `prefix` id `suffix`: the path with every
/// leading `prefix`, then every trailing `suffix`, then every trailing `/`
/// taken off.
pub open spec fn item_id(path: Seq<char>, prefix: Seq<char>, suffix: Seq<char>) -> Seq<char> {
    trim_end_str(trim_end_str(trim_start_str(path, prefix), suffix), "/"@)
}

/// The routes that a signed-in client reaches.
pub open spec fn spec_api_route(method: HttpMethod, path: Seq<char>) -> (RouteKind, Seq<char>) {
    let none = Seq::<char>::empty();
    let get = method == HttpMethod::Get;
    let post = method == HttpMethod::Post;
    let tasks = "/api/tasks/"@;
    let engines = "/api/engine-settings/"@;
    if get && path == "/api/events"@ {
        (RouteKind::Events, none)
    } else if get && path == "/api/tasks"@ {
        (RouteKind::ListTasks, none)
    } else if post && path == "/api/tasks"@ {
        (RouteKind::CreateTask, none)
    } else if post && path == "/api/tasks/conflict"@ {
        (RouteKind::TaskConflict, none)
    } else if post && path == "/api/tasks/duplicate-check"@ {
        (RouteKind::DuplicateCheck, none)
    } else if post && path == "/api/tasks/refresh"@ {
        (RouteKind::RefreshTasks, none)
    } else if post && path == "/api/tasks/pause"@ {
        (RouteKind::PauseTasks, none)
    } else if post && path == "/api/tasks/resume"@ {
        (RouteKind::ResumeTasks, none)
    } else if post && path == "/api/tasks/delete"@ {
        (RouteKind::DeleteTasks, none)
    } else if post && path == "/api/tasks/clear-records"@ {
        (RouteKind::ClearRecords, none)
    } else if post && path == "/api/tasks/pause-all"@ {
        (RouteKind::PauseAll, none)
    } else if post && path == "/api/tasks/resume-all"@ {
        (RouteKind::ResumeAll, none)
    } else if post && path == "/api/torrent-files"@ {
        (RouteKind::TorrentFiles, none)
    } else if get && names_item(path, tasks, "/torrent-files"@) {
        (RouteKind::TaskTorrentFiles, item_id(path, tasks, "/torrent-files"@))
    } else if post && names_item(path, tasks, "/file-selection"@) {
        (RouteKind::TaskFileSelection, item_id(path, tasks, "/file-selection"@))
    } else if post && names_item(path, tasks, "/open"@) {
        (RouteKind::OpenTaskFile, item_id(path, tasks, "/open"@))
    } else if post && names_item(path, tasks, "/open-directory"@) {
        (RouteKind::OpenTaskDirectory, item_id(path, tasks, "/open-directory"@))
    } else if get && path == "/api/app-settings"@ {
        (RouteKind::GetAppSettings, none)
    } else if post && path == "/api/app-settings"@ {
        (RouteKind::SaveAppSettings, none)
    } else if get && path == "/api/engine-settings"@ {
        (RouteKind::ListEngineSettings, none)
    } else if post && path == "/api/engine-settings"@ {
        (RouteKind::SaveEngineSettings, none)
    } else if post && names_item(path, engines, "/install-latest"@) {
        (RouteKind::InstallLatest, item_id(path, engines, "/install-latest"@))
    } else if method == HttpMethod::Delete && starts_with(path, engines) {
        (RouteKind::DeleteEngineSettings, trim_start_str(path, engines))
    } else if post && names_item(path, engines, "/trackers"@) {
        (RouteKind::UpdateTrackers, item_id(path, engines, "/trackers"@))
    } else if post && path == "/api/remote-directories"@ {
        (RouteKind::RemoteDirectories, none)
    } else if post && path == "/api/magnet-name"@ {
        (RouteKind::MagnetName, none)
    } else if post && path == "/api/test-engine-connection"@ {
        (RouteKind::TestEngineConnection, none)
    } else if post && path == "/api/validate-engine-source-type"@ {
        (RouteKind::ValidateEngineSourceType, none)
    } else if get && path == "/api/system-download-dir"@ {
        (RouteKind::SystemDownloadDir, none)
    } else if post && path == "/api/managed-engine-executable-path"@ {
        (RouteKind::ManagedEngineExecutablePath, none)
    } else {
        (RouteKind::NotFound, none)
    }
}

/// How a request is answered: preflight requests, the health check and the
/// browser extension's endpoints always; everything else only with web
/// access enabled, where the frontend and the login are open and the rest
/// of the API needs a session.
pub open spec fn spec_route(
    method: HttpMethod,
    path: Seq<char>,
    web_access_enabled: bool,
    authorized: bool,
) -> (RouteKind, Seq<char>) {
    let none = Seq::<char>::empty();
    let post = method == HttpMethod::Post;
    if method == HttpMethod::Options {
        (RouteKind::Preflight, none)
    } else if method == HttpMethod::Get && path == "/api/health"@ {
        (RouteKind::Health, none)
    } else if post && path == "/api/extension/videos"@ {
        (RouteKind::ExtensionVideos, none)
    } else if post && path == "/api/extension/videos/support"@ {
        (RouteKind::ExtensionVideosSupport, none)
    } else if post && path == "/api/extension/ytdlp/tasks"@ {
        (RouteKind::ExtensionYtDlpTask, none)
    } else if post && path == "/api/extension/tasks"@ {
        (RouteKind::ExtensionTask, none)
    } else if !web_access_enabled {
        (RouteKind::WebAccessDisabled, none)
    } else if method == HttpMethod::Get && !starts_with(path, "/api/"@) {
        (RouteKind::FrontendAsset, spec_asset_path(path))
    } else if post && path == "/api/login"@ {
        (RouteKind::Login, none)
    } else if !authorized {
        (RouteKind::Unauthorized, none)
    } else {
        spec_api_route(method, path)
    }
}

fn is_path(p: &Vec<char>, lit: &str) -> (r: bool)
    ensures
        r == (p@ == lit@),
{
    seq_eq(p, &chars_of(lit))
}

fn item_of(p: &Vec<char>, prefix: &str, suffix: &str) -> (r: Option<String>)
    ensures
        match r {
            Some(id) => names_item(p@, prefix@, suffix@) && id@ == item_id(p@, prefix@, suffix@),
            None => !names_item(p@, prefix@, suffix@),
        },
{
    let pre = chars_of(prefix);
    let suf = chars_of(suffix);
    if has_prefix(p, &pre) && has_suffix(p, &suf) {
        let a = trim_start_str_chars(p, &pre);
        let b = trim_end_str_chars(&a, &suf);
        let c = trim_end_str_chars(&b, &chars_of("/"));
        Some(string_of(&c))
    } else {
        None
    }
}

fn plain(kind: RouteKind) -> (r: Route)
    ensures
        r.kind == kind,
        r.target@ == Seq::<char>::empty(),
{
    Route { kind, target: string_of(&Vec::new()) }
}

fn with_target(kind: RouteKind, target: String) -> (r: Route)
    ensures
        r.kind == kind,
        r.target == target,
{
    Route { kind, target }
}

fn task_route(method: HttpMethod, p: &Vec<char>) -> (r: Option<Route>)
    ensures
        match r {
            Some(route) => spec_api_route(method, p@) == (route.kind, route.target@),
            None => spec_api_route(method, p@) == spec_api_route_settings(method, p@),
        },
{
    let get = method == HttpMethod::Get;
    let post = method == HttpMethod::Post;
    if get && is_path(p, "/api/events") {
        return Some(plain(RouteKind::Events));
    }
    if get && is_path(p, "/api/tasks") {
        return Some(plain(RouteKind::ListTasks));
    }
    if post && is_path(p, "/api/tasks") {
        return Some(plain(RouteKind::CreateTask));
    }
    if post && is_path(p, "/api/tasks/conflict") {
        return Some(plain(RouteKind::TaskConflict));
    }
    if post && is_path(p, "/api/tasks/duplicate-check") {
        return Some(plain(RouteKind::DuplicateCheck));
    }
    if post && is_path(p, "/api/tasks/refresh") {
        return Some(plain(RouteKind::RefreshTasks));
    }
    if post && is_path(p, "/api/tasks/pause") {
        return Some(plain(RouteKind::PauseTasks));
    }
    if post && is_path(p, "/api/tasks/resume") {
        return Some(plain(RouteKind::ResumeTasks));
    }
    if post && is_path(p, "/api/tasks/delete") {
        return Some(plain(RouteKind::DeleteTasks));
    }
    if post && is_path(p, "/api/tasks/clear-records") {
        return Some(plain(RouteKind::ClearRecords));
    }
    if post && is_path(p, "/api/tasks/pause-all") {
        return Some(plain(RouteKind::PauseAll));
    }
    if post && is_path(p, "/api/tasks/resume-all") {
        return Some(plain(RouteKind::ResumeAll));
    }
    if post && is_path(p, "/api/torrent-files") {
        return Some(plain(RouteKind::TorrentFiles));
    }
    if get {
        match item_of(p, "/api/tasks/", "/torrent-files") {
            Some(id) => return Some(with_target(RouteKind::TaskTorrentFiles, id)),
            None => {},
        }
    }
    if post {
        match item_of(p, "/api/tasks/", "/file-selection") {
            Some(id) => return Some(with_target(RouteKind::TaskFileSelection, id)),
            None => {},
        }
        match item_of(p, "/api/tasks/", "/open") {
            Some(id) => return Some(with_target(RouteKind::OpenTaskFile, id)),
            None => {},
        }
        match item_of(p, "/api/tasks/", "/open-directory") {
            Some(id) => return Some(with_target(RouteKind::OpenTaskDirectory, id)),
            None => {},
        }
    }
    None
}

/// The routes of `spec_api_route` from the settings on.
pub open spec fn spec_api_route_settings(method: HttpMethod, path: Seq<char>) -> (RouteKind, Seq<char>) {
    let none = Seq::<char>::empty();
    let get = method == HttpMethod::Get;
    let post = method == HttpMethod::Post;
    let engines = "/api/engine-settings/"@;
    if get && path == "/api/app-settings"@ {
        (RouteKind::GetAppSettings, none)
    } else if post && path == "/api/app-settings"@ {
        (RouteKind::SaveAppSettings, none)
    } else if get && path == "/api/engine-settings"@ {
        (RouteKind::ListEngineSettings, none)
    } else if post && path == "/api/engine-settings"@ {
        (RouteKind::SaveEngineSettings, none)
    } else if post && names_item(path, engines, "/install-latest"@) {
        (RouteKind::InstallLatest, item_id(path, engines, "/install-latest"@))
    } else if method == HttpMethod::Delete && starts_with(path, engines) {
        (RouteKind::DeleteEngineSettings, trim_start_str(path, engines))
    } else if post && names_item(path, engines, "/trackers"@) {
        (RouteKind::UpdateTrackers, item_id(path, engines, "/trackers"@))
    } else if post && path == "/api/remote-directories"@ {
        (RouteKind::RemoteDirectories, none)
    } else if post && path == "/api/magnet-name"@ {
        (RouteKind::MagnetName, none)
    } else if post && path == "/api/test-engine-connection"@ {
        (RouteKind::TestEngineConnection, none)
    } else if post && path == "/api/validate-engine-source-type"@ {
        (RouteKind::ValidateEngineSourceType, none)
    } else if get && path == "/api/system-download-dir"@ {
        (RouteKind::SystemDownloadDir, none)
    } else if post && path == "/api/managed-engine-executable-path"@ {
        (RouteKind::ManagedEngineExecutablePath, none)
    } else {
        (RouteKind::NotFound, none)
    }
}

fn settings_route(method: HttpMethod, p: &Vec<char>) -> (r: Route)
    ensures
        spec_api_route_settings(method, p@) == (r.kind, r.target@),
{
    let get = method == HttpMethod::Get;
    let post = method == HttpMethod::Post;
    if get && is_path(p, "/api/app-settings") {
        return plain(RouteKind::GetAppSettings);
    }
    if post && is_path(p, "/api/app-settings") {
        return plain(RouteKind::SaveAppSettings);
    }
    if get && is_path(p, "/api/engine-settings") {
        return plain(RouteKind::ListEngineSettings);
    }
    if post && is_path(p, "/api/engine-settings") {
        return plain(RouteKind::SaveEngineSettings);
    }
    if post {
        match item_of(p, "/api/engine-settings/", "/install-latest") {
            Some(id) => return with_target(RouteKind::InstallLatest, id),
            None => {},
        }
    }
    if method == HttpMethod::Delete {
        let engines = chars_of("/api/engine-settings/");
        if has_prefix(p, &engines) {
            let id = trim_start_str_chars(p, &engines);
            return with_target(RouteKind::DeleteEngineSettings, string_of(&id));
        }
    }
    if post {
        match item_of(p, "/api/engine-settings/", "/trackers") {
            Some(id) => return with_target(RouteKind::UpdateTrackers, id),
            None => {},
        }
    }
    if post && is_path(p, "/api/remote-directories") {
        return plain(RouteKind::RemoteDirectories);
    }
    if post && is_path(p, "/api/magnet-name") {
        return plain(RouteKind::MagnetName);
    }
    if post && is_path(p, "/api/test-engine-connection") {
        return plain(RouteKind::TestEngineConnection);
    }
    if post && is_path(p, "/api/validate-engine-source-type") {
        return plain(RouteKind::ValidateEngineSourceType);
    }
    if get && is_path(p, "/api/system-download-dir") {
        return plain(RouteKind::SystemDownloadDir);
    }
    if post && is_path(p, "/api/managed-engine-executable-path") {
        return plain(RouteKind::ManagedEngineExecutablePath);
    }
    plain(RouteKind::NotFound)
}

/// Routes a request by its method and path, given whether web access is
/// enabled and whether the request carries the token of a session.
pub fn route_request(
    method: HttpMethod,
    path: &str,
    web_access_enabled: bool,
    authorized: bool,
) -> (r: Route)
    ensures
        spec_route(method, path@, web_access_enabled, authorized) == (r.kind, r.target@),
{
    let p = chars_of(path);
    let post = method == HttpMethod::Post;
    if method == HttpMethod::Options {
        return plain(RouteKind::Preflight);
    }
    if method == HttpMethod::Get && is_path(&p, "/api/health") {
        return plain(RouteKind::Health);
    }
    if post && is_path(&p, "/api/extension/videos") {
        return plain(RouteKind::ExtensionVideos);
    }
    if post && is_path(&p, "/api/extension/videos/support") {
        return plain(RouteKind::ExtensionVideosSupport);
    }
    if post && is_path(&p, "/api/extension/ytdlp/tasks") {
        return plain(RouteKind::ExtensionYtDlpTask);
    }
    if post && is_path(&p, "/api/extension/tasks") {
        return plain(RouteKind::ExtensionTask);
    }
    if !web_access_enabled {
        return plain(RouteKind::WebAccessDisabled);
    }
    if method == HttpMethod::Get && !has_prefix(&p, &chars_of("/api/")) {
        if is_path(&p, "/") || p.len() == 0 {
            return with_target(RouteKind::FrontendAsset, string_of(&chars_of("index.html")));
        }
        let asset = trim_start_str_chars(&p, &chars_of("/"));
        return with_target(RouteKind::FrontendAsset, string_of(&asset));
    }
    if post && is_path(&p, "/api/login") {
        return plain(RouteKind::Login);
    }
    if !authorized {
        return plain(RouteKind::Unauthorized);
    }
    match task_route(method, &p) {
        Some(r) => r,
        None => settings_route(method, &p),
    }
}


/// The status and error message of a route that is answered without
/// further work; a preflight request gets an empty answer.
pub open spec fn spec_fixed_answer(kind: RouteKind) -> Option<(u16, Seq<char>)> {
    match kind {
        RouteKind::Preflight => Some((204u16, Seq::<char>::empty())),
        RouteKind::WebAccessDisabled => Some((403u16, "web access is disabled"@)),
        RouteKind::Unauthorized => Some((401u16, "unauthorized"@)),
        RouteKind::NotFound => Some((404u16, "not found"@)),
        _ => None,
    }
}

pub fn fixed_answer(kind: RouteKind) -> (r: Option<(u16, &'static str)>)
    ensures
        match r {
            Some((status, message)) => spec_fixed_answer(kind) == Some((status, message@)),
            None => spec_fixed_answer(kind) is None,
        },
{
    match kind {
        RouteKind::Preflight => {
            let e = "";
            proof {
                reveal_strlit("");
            }
            Some((204, e))
        },
        RouteKind::WebAccessDisabled => Some((403, "web access is disabled")),
        RouteKind::Unauthorized => Some((401, "unauthorized")),
        RouteKind::NotFound => Some((404, "not found")),
        _ => None,
    }
}

/// The session token that request headers carry: the first `Authorization`
/// header with a `Bearer ` value, or the first `X-UniDL-Token` header, as
/// they come; header names are compared without regard to ASCII case.
pub open spec fn token_from(headers: Seq<(Seq<char>, Seq<char>)>, i: int) -> Option<Seq<char>>
    decreases headers.len() - i,
{
    if i < 0 || i >= headers.len() {
        None
    } else if eq_ic(headers[i].0, "authorization"@) {
        if starts_with(headers[i].1, "Bearer "@) {
            Some(headers[i].1.skip("Bearer "@.len() as int))
        } else {
            token_from(headers, i + 1)
        }
    } else if eq_ic(headers[i].0, "x-unidl-token"@) {
        Some(headers[i].1)
    } else {
        token_from(headers, i + 1)
    }
}

pub open spec fn header_views(headers: Seq<(String, String)>) -> Seq<(Seq<char>, Seq<char>)> {
    headers.map_values(|h: (String, String)| (h.0@, h.1@))
}

pub fn request_token(headers: &[(String, String)]) -> (r: Option<String>)
    ensures
        match r {
            Some(t) => token_from(header_views(headers@), 0) == Some(t@),
            None => token_from(header_views(headers@), 0) is None,
        },
{
    let ghost hv = header_views(headers@);
    let authorization = chars_of("authorization");
    let custom = chars_of("x-unidl-token");
    let bearer = chars_of("Bearer ");
    let mut i: usize = 0;
    while i < headers.len()
        invariant
            i <= headers@.len(),
            hv == header_views(headers@),
            authorization@ == "authorization"@,
            custom@ == "x-unidl-token"@,
            bearer@ == "Bearer "@,
            token_from(hv, 0) == token_from(hv, i as int),
        decreases headers.len() - i,
    {
        let name = chars_of(headers[i].0.as_str());
        let value = chars_of(headers[i].1.as_str());
        proof {
            assert(hv[i as int] == (name@, value@));
        }
        if eq_ignore_ascii_case(&name, &authorization) {
            if has_prefix(&value, &bearer) {
                let t = slice_vec(&value, bearer.len(), value.len());
                proof {
                    assert(t@ =~= value@.skip("Bearer "@.len() as int));
                }
                return Some(string_of(&t));
            }
        } else if eq_ignore_ascii_case(&name, &custom) {
            return Some(string_of(&value));
        }
        i = i + 1;
    }
    None
}

/// A fresh session token: `uuid::Uuid::new_v4().to_string()`, a random
/// version 4 UUID in its hyphenated form of 36 characters. Which UUID comes
/// out is chance, and is not stated.
#[verifier::external_body]
fn new_session_token() -> (r: String)
    ensures
        r@.len() == 36,
{
    uuid::Uuid::new_v4().to_string()
}

/// The tokens of the web sessions that have signed in.
pub struct SessionStore {
    tokens: TextSet,
}

impl View for SessionStore {
    type V = Set<Seq<char>>;

    closed spec fn view(&self) -> Set<Seq<char>> {
        self.tokens@
    }
}

impl SessionStore {
    pub fn new() -> (r: Self)
        ensures
            r@ == Set::<Seq<char>>::empty(),
    {
        SessionStore { tokens: TextSet::new() }
    }

    /// Whether `token` is the token of a session.
    pub fn contains(&self, token: &str) -> (r: bool)
        ensures
            r == self@.contains(token@),
    {
        self.tokens.contains(token)
    }

    /// Signs in: with the right password a new session is opened and its
    /// token returned; with a wrong one nothing changes.
    pub fn login(&mut self, given: &str, password: &str) -> (r: Option<String>)
        ensures
            given@ == password@ ==> (r matches Some(t) && t@.len() == 36 && final(self)@ == old(
                self,
            )@.insert(t@)),
            given@ != password@ ==> r is None && final(self)@ == old(self)@,
    {
        if !seq_eq(&chars_of(given), &chars_of(password)) {
            return None;
        }
        let token = new_session_token();
        self.tokens.insert(token.as_str());
        Some(token)
    }

    /// Whether request headers carry the token of a session.
    pub fn is_authorized(&self, headers: &[(String, String)]) -> (r: bool)
        ensures
            r == (match token_from(header_views(headers@), 0) {
                Some(t) => self@.contains(t),
                None => false,
            }),
    {
        match request_token(headers) {
            Some(t) => self.contains(t.as_str()),
            None => false,
        }
    }
}

/// A signed-in session's token authorizes the requests that carry it as a
/// bearer token, and a store that no login has opened authorizes nothing.
pub proof fn lemma_login_authorizes(store: Set<Seq<char>>, token: Seq<char>)
    ensures
        store.insert(token).contains(token),
        !Set::<Seq<char>>::empty().contains(token),
        token_from(seq![("Authorization"@, "Bearer "@ + token)], 0) == Some(token),
        token_from(seq![("X-UniDL-Token"@, token)], 0) == Some(token),
{
    reveal_strlit("Authorization");
    reveal_strlit("authorization");
    reveal_strlit("Bearer ");
    reveal_strlit("X-UniDL-Token");
    reveal_strlit("x-unidl-token");
    let h = seq![("Authorization"@, "Bearer "@ + token)];
    assert(eq_ic(h[0].0, "authorization"@)) by {
        assert(lower_seq(h[0].0) =~= lower_seq("authorization"@));
    }
    assert(starts_with(h[0].1, "Bearer "@)) by {
        assert(h[0].1.take(7) =~= "Bearer "@);
    }
    assert(h[0].1.skip(7) =~= token);
    let g = seq![("X-UniDL-Token"@, token)];
    assert(!eq_ic(g[0].0, "authorization"@)) by {
        assert(lower_seq(g[0].0)[0] != lower_seq("authorization"@)[0]);
    }
    assert(eq_ic(g[0].0, "x-unidl-token"@)) by {
        assert(lower_seq(g[0].0) =~= lower_seq("x-unidl-token"@));
    }
}


/// Authorization only ever stands between a request and the API: a request
/// that is not turned away as unauthorized is routed as it would be with a
/// session; with a session none is turned away; and with web access
/// disabled only the open endpoints answer.
pub proof fn lemma_session_gate(method: HttpMethod, path: Seq<char>, enabled: bool)
    ensures
        spec_route(method, path, enabled, false).0 != RouteKind::Unauthorized ==> spec_route(
            method,
            path,
            enabled,
            false,
        ) == spec_route(method, path, enabled, true),
        spec_route(method, path, enabled, true).0 != RouteKind::Unauthorized,
        !enabled ==> {
            let k = spec_route(method, path, false, true).0;
            k == RouteKind::Preflight || k == RouteKind::Health || k == RouteKind::ExtensionVideos
                || k == RouteKind::ExtensionVideosSupport || k == RouteKind::ExtensionYtDlpTask
                || k == RouteKind::ExtensionTask || k == RouteKind::WebAccessDisabled
        },
{
}

// ---------------------------------------------------------------------
// The browser extension
// ---------------------------------------------------------------------
/// A request to open the new-task dialog with a source filled in.
pub struct OpenTaskRequest {
    pub source: String,
    pub file_name: Option<String>,
    pub browser_cookies: Option<String>,
    pub http_referrer: Option<String>,
}

pub open spec fn opt_string_view(v: Option<String>) -> Option<Seq<char>> {
    match v {
        Some(s) => Some(s@),
        None => None,
    }
}

pub open spec fn opt_str_view(v: Option<&str>) -> Option<Seq<char>> {
    match v {
        Some(s) => Some(s@),
        None => None,
    }
}

/// The source type of a page that the extension sends: HTTP for an
/// `http://` or `https://` address.
pub open spec fn spec_extension_source_type(source: Seq<char>) -> Option<SourceType> {
    if starts_with(source, "http://"@) || starts_with(source, "https://"@) {
        Some(SourceType::Http)
    } else {
        None
    }
}

pub fn extension_source_type(source: &str) -> (r: Option<SourceType>)
    ensures
        r == spec_extension_source_type(source@),
{
    let v = chars_of(source);
    if has_prefix(&v, &chars_of("http://")) || has_prefix(&v, &chars_of("https://")) {
        Some(SourceType::Http)
    } else {
        None
    }
}

/// A referrer kept only where, trimmed, it is an `http://` or `https://`
/// address (the scheme in any ASCII case).
pub open spec fn spec_http_url(value: Option<Seq<char>>) -> Option<Seq<char>> {
    match value {
        Some(v) => {
            let t = trim(v);
            let l = lower_seq(t);
            if starts_with(l, "http://"@) || starts_with(l, "https://"@) {
                Some(t)
            } else {
                None
            }
        },
        None => None,
    }
}

pub fn normalize_optional_http_url(value: Option<String>) -> (r: Option<String>)
    ensures
        opt_string_view(r) == spec_http_url(opt_string_view(value)),
{
    match value {
        Some(v) => {
            let t = trim_str(v.as_str());
            let l = to_ascii_lowercase(&t);
            if has_prefix(&l, &chars_of("http://")) || has_prefix(&l, &chars_of("https://")) {
                Some(string_of(&t))
            } else {
                None
            }
        },
        None => None,
    }
}

/// A title for a page: its address without `https://` and `http://`, up to
/// the first `/`, `?` or `#`; `current page` where that is empty.
pub open spec fn spec_video_title(source: Seq<char>) -> Seq<char> {
    let rest = trim_start_str(trim_start_str(source, "https://"@), "http://"@);
    let head = split_seq(rest, false, seq!['/', '?', '#'])[0];
    if head.len() > 0 {
        head
    } else {
        "current page"@
    }
}

pub fn extension_video_title(source: &str) -> (r: String)
    ensures
        r@ == spec_video_title(source@),
{
    let v = chars_of(source);
    let a = trim_start_str_chars(&v, &chars_of("https://"));
    let b = trim_start_str_chars(&a, &chars_of("http://"));
    let seps = vec!['/', '?', '#'];
    let pieces = split_chars(&b, false, &seps);
    proof {
        lemma_split_nonempty(b@, false, seps@);
        assert(seps@ =~= seq!['/', '?', '#']);
        assert(pieces@[0]@ == split_seq(b@, false, seq!['/', '?', '#'])[0]);
    }
    if pieces[0].len() > 0 {
        string_of(&pieces[0])
    } else {
        string_of(&chars_of("current page"))
    }
}

/// What yt-dlp reports of one video: the fields that the extension is shown.
pub struct VideoMetadata {
    pub id: Option<String>,
    pub title: Option<String>,
    pub webpage_url: Option<String>,
    pub url: Option<String>,
}

/// A video that the extension may download.
#[derive(Debug, PartialEq, Eq)]
pub struct ExtensionVideoEntry {
    pub id: String,
    pub title: String,
    pub source: String,
}

/// A text trimmed, where that leaves anything.
pub open spec fn trimmed_nonblank(v: Option<Seq<char>>) -> Option<Seq<char>> {
    match v {
        Some(s) => if trim(s).len() > 0 {
            Some(trim(s))
        } else {
            None
        },
        None => None,
    }
}

pub fn nonblank_trimmed(v: Option<&str>) -> (r: Option<String>)
    ensures
        opt_string_view(r) == trimmed_nonblank(opt_str_view(v)),
{
    match v {
        Some(s) => {
            let t = trim_str(s);
            if t.len() > 0 {
                Some(string_of(&t))
            } else {
                None
            }
        },
        None => None,
    }
}

pub open spec fn opt_field(v: Option<String>) -> Option<Seq<char>> {
    opt_string_view(v)
}

/// The entry shown for a video: its title, else the page's title, else a
/// title made from the address; its page or media address, else the
/// source; its id, else `current-page-<n>` for the `n`-th video.
pub open spec fn spec_video_entry(
    meta: VideoMetadata,
    source: Seq<char>,
    index: nat,
    page_title: Option<Seq<char>>,
) -> (Seq<char>, Seq<char>, Seq<char>) {
    let title = match trimmed_nonblank(opt_field(meta.title)) {
        Some(t) => t,
        None => match trimmed_nonblank(page_title) {
            Some(t) => t,
            None => spec_video_title(source),
        },
    };
    let src = match opt_field(meta.webpage_url) {
        Some(u) => u,
        None => match opt_field(meta.url) {
            Some(u) => u,
            None => source,
        },
    };
    let id = match trimmed_nonblank(opt_field(meta.id)) {
        Some(i) => i,
        None => "current-page-"@ + dec((index + 1) as nat),
    };
    (id, title, src)
}

pub fn build_extension_video_entry(
    meta: &VideoMetadata,
    source: &str,
    index: usize,
    page_title: Option<&str>,
) -> (r: ExtensionVideoEntry)
    requires
        index < usize::MAX,
    ensures
        (r.id@, r.title@, r.source@) == spec_video_entry(*meta, source@, index as nat, opt_str_view(page_title)),
{
    let title = match nonblank_trimmed(opt_as_str(&meta.title)) {
        Some(t) => t,
        None => match nonblank_trimmed(page_title) {
            Some(t) => t,
            None => extension_video_title(source),
        },
    };
    let src = match &meta.webpage_url {
        Some(u) => string_of(&chars_of(u.as_str())),
        None => match &meta.url {
            Some(u) => string_of(&chars_of(u.as_str())),
            None => string_of(&chars_of(source)),
        },
    };
    let id = match nonblank_trimmed(opt_as_str(&meta.id)) {
        Some(i) => i,
        None => {
            let mut text = chars_of("current-page-");
            let n = format_u64((index + 1) as u64);
            extend_vec(&mut text, &n);
            string_of(&text)
        },
    };
    ExtensionVideoEntry { id, title, source: src }
}

fn opt_as_str(v: &Option<String>) -> (r: Option<&str>)
    ensures
        opt_str_view(r) == opt_string_view(*v),
{
    match v {
        Some(s) => Some(s.as_str()),
        None => None,
    }
}


/// An enabled yt-dlp engine that takes sources of type `t`.
pub open spec fn serves(c: EngineSummary, t: SourceType) -> bool {
    c.engine == EngineKind::YtDlp && c.enabled && c.supported_source_types@.contains(t)
}

/// The first of the engines that is an enabled yt-dlp engine taking sources
/// of the given type.
pub fn find_enabled_ytdlp_settings(candidates: &[EngineSummary], source_type: SourceType) -> (r: Option<usize>)
    ensures
        match r {
            Some(i) => i < candidates@.len() && serves(candidates@[i as int], source_type)
                && forall|j: int| 0 <= j < i ==> !serves(#[trigger] candidates@[j], source_type),
            None => forall|j: int| 0 <= j < candidates@.len() ==> !serves(#[trigger] candidates@[j], source_type),
        },
{
    let mut i: usize = 0;
    while i < candidates.len()
        invariant
            i <= candidates@.len(),
            forall|j: int| 0 <= j < i ==> !serves(#[trigger] candidates@[j], source_type),
        decreases candidates.len() - i,
    {
        let c = &candidates[i];
        if c.engine == EngineKind::YtDlp && c.enabled && contains_source_type(
            c.supported_source_types.as_slice(),
            source_type,
        ) {
            return Some(i);
        }
        i = i + 1;
    }
    None
}

/// The yt-dlp executable that settings name: the path trimmed, where that
/// leaves anything.
pub fn ytdlp_executable_path(settings: &EngineSummary) -> (r: Option<String>)
    ensures
        opt_string_view(r) == trimmed_nonblank(opt_string_view(settings.executable_path)),
{
    nonblank_trimmed(opt_as_str(&settings.executable_path))
}

/// The proxy that settings name: the address trimmed, where that leaves
/// anything.
pub fn engine_proxy_url(settings: &EngineSummary) -> (r: Option<String>)
    ensures
        opt_string_view(r) == trimmed_nonblank(opt_string_view(settings.proxy_url)),
{
    nonblank_trimmed(opt_as_str(&settings.proxy_url))
}

/// The engine, among those given, that detects the videos of a page, where
/// the page is an HTTP address and the first enabled yt-dlp engine for it
/// names an executable.
pub open spec fn detecting_engine(candidates: Seq<EngineSummary>, source: Seq<char>) -> Option<int> {
    match spec_extension_source_type(trim(source)) {
        Some(t) => if exists|i: int| 0 <= i < candidates.len() && serves(candidates[i], t) {
            let i = choose|i: int|
                0 <= i < candidates.len() && serves(candidates[i], t) && forall|j: int|
                    0 <= j < i ==> !serves(#[trigger] candidates[j], t);
            if trimmed_nonblank(opt_string_view(candidates[i].executable_path)) is Some {
                Some(i)
            } else {
                None
            }
        } else {
            None
        },
        None => None,
    }
}

proof fn lemma_first_serving(candidates: Seq<EngineSummary>, t: SourceType, i: int)
    requires
        0 <= i < candidates.len(),
        serves(candidates[i], t),
        forall|j: int| 0 <= j < i ==> !serves(#[trigger] candidates[j], t),
    ensures
        (choose|k: int|
            0 <= k < candidates.len() && serves(candidates[k], t) && forall|j: int|
                0 <= j < k ==> !serves(#[trigger] candidates[j], t)) == i,
{
    let k = choose|k: int|
        0 <= k < candidates.len() && serves(candidates[k], t) && forall|j: int|
            0 <= j < k ==> !serves(#[trigger] candidates[j], t);
    assert(0 <= k < candidates.len() && serves(candidates[k], t) && forall|j: int|
        0 <= j < k ==> !serves(#[trigger] candidates[j], t));
    if k < i {
        assert(!serves(candidates[k], t));
    } else if k > i {
        assert(!serves(candidates[i], t));
    }
}

/// The engine that detects the videos of a page, if any can.
pub fn detection_engine(candidates: &[EngineSummary], source: &str) -> (r: Option<usize>)
    ensures
        match r {
            Some(i) => detecting_engine(candidates@, source@) == Some(i as int),
            None => detecting_engine(candidates@, source@) is None,
        },
{
    let t = string_of(&trim_str(source));
    match extension_source_type(t.as_str()) {
        Some(source_type) => match find_enabled_ytdlp_settings(candidates, source_type) {
            Some(i) => {
                proof {
                    lemma_first_serving(candidates@, source_type, i as int);
                }
                match ytdlp_executable_path(&candidates[i]) {
                    Some(_) => Some(i),
                    None => None,
                }
            },
            None => None,
        },
        None => None,
    }
}

/// Whether the videos of a page can be detected.
pub fn can_detect_videos(candidates: &[EngineSummary], source: &str) -> (r: bool)
    ensures
        r == (detecting_engine(candidates@, source@) is Some),
{
    detection_engine(candidates, source).is_some()
}

/// The arguments that ask yt-dlp for the videos of a page without
/// downloading them, through the proxy where one is set; the cookie file
/// and the page follow them.
pub open spec fn spec_detection_args(proxy_url: Option<Seq<char>>) -> Seq<Seq<char>> {
    let base = seq![
        "--dump-single-json"@,
        "--flat-playlist"@,
        "--no-playlist"@,
        "--skip-download"@,
        "--no-warnings"@,
        "--ignore-no-formats-error"@,
        "--no-check-formats"@,
    ];
    match proxy_url {
        Some(p) => base.push("--proxy"@).push(p),
        None => base,
    }
}

pub fn detection_args(proxy_url: Option<&str>) -> (r: Vec<String>)
    ensures
        r@.map_values(|a: String| a@) == spec_detection_args(opt_str_view(proxy_url)),
{
    let mut r: Vec<String> = Vec::new();
    r.push(string_of(&chars_of("--dump-single-json")));
    r.push(string_of(&chars_of("--flat-playlist")));
    r.push(string_of(&chars_of("--no-playlist")));
    r.push(string_of(&chars_of("--skip-download")));
    r.push(string_of(&chars_of("--no-warnings")));
    r.push(string_of(&chars_of("--ignore-no-formats-error")));
    r.push(string_of(&chars_of("--no-check-formats")));
    match proxy_url {
        Some(p) => {
            r.push(string_of(&chars_of("--proxy")));
            r.push(string_of(&chars_of(p)));
        },
        None => {},
    }
    proof {
        assert(r@.map_values(|a: String| a@) =~= spec_detection_args(opt_str_view(proxy_url)));
    }
    r
}

/// The last line of what yt-dlp wrote to its error stream, trimmed, or a
/// note that it wrote nothing.
pub open spec fn spec_stderr_summary(stderr: Seq<char>) -> Seq<char> {
    let t = trim(stderr);
    if t.len() == 0 {
        "(no stderr output)"@
    } else {
        split_seq(t, false, seq!['\n']).last()
    }
}

pub fn stderr_summary(stderr: &str) -> (r: String)
    ensures
        r@ == spec_stderr_summary(stderr@),
{
    let t = trim_str(stderr);
    if t.len() == 0 {
        return string_of(&chars_of("(no stderr output)"));
    }
    let nl = vec!['\n'];
    let lines = split_chars(&t, false, &nl);
    proof {
        lemma_split_nonempty(t@, false, nl@);
        assert(nl@ =~= seq!['\n']);
    }
    let last = lines.len() - 1;
    string_of(&lines[last])
}

/// The videos that yt-dlp reports for a page: one entry per listed video
/// that is not null, numbered by its place in the list, or, without a
/// list, one entry for the page itself.
pub open spec fn spec_extension_videos(
    top: VideoMetadata,
    entries: Option<Seq<Option<VideoMetadata>>>,
    source: Seq<char>,
    page_title: Option<Seq<char>>,
) -> Seq<(Seq<char>, Seq<char>, Seq<char>)> {
    match entries {
        Some(es) => listed_videos(es, source, page_title, es.len() as int),
        None => seq![spec_video_entry(top, source, 0, page_title)],
    }
}

/// The entries of the first `n` listed videos that are not null.
pub open spec fn listed_videos(
    es: Seq<Option<VideoMetadata>>,
    source: Seq<char>,
    page_title: Option<Seq<char>>,
    n: int,
) -> Seq<(Seq<char>, Seq<char>, Seq<char>)>
    decreases n,
{
    if n <= 0 || n > es.len() {
        Seq::empty()
    } else {
        let before = listed_videos(es, source, page_title, n - 1);
        match es[n - 1] {
            Some(m) => before.push(spec_video_entry(m, source, (n - 1) as nat, page_title)),
            None => before,
        }
    }
}

pub open spec fn entry_views(v: Seq<ExtensionVideoEntry>) -> Seq<(Seq<char>, Seq<char>, Seq<char>)> {
    v.map_values(|e: ExtensionVideoEntry| (e.id@, e.title@, e.source@))
}

pub fn extension_videos(
    top: &VideoMetadata,
    entries: Option<&[Option<VideoMetadata>]>,
    source: &str,
    page_title: Option<&str>,
) -> (r: Vec<ExtensionVideoEntry>)
    requires
        match entries {
            Some(es) => es@.len() < usize::MAX,
            None => true,
        },
    ensures
        entry_views(r@) == spec_extension_videos(
            *top,
            match entries {
                Some(es) => Some(es@),
                None => None,
            },
            source@,
            opt_str_view(page_title),
        ),
{
    match entries {
        Some(es) => {
            let mut r: Vec<ExtensionVideoEntry> = Vec::new();
            let mut i: usize = 0;
            proof {
                assert(entry_views(r@) =~= Seq::<(Seq<char>, Seq<char>, Seq<char>)>::empty());
            }
            while i < es.len()
                invariant
                    i <= es@.len(),
                    es@.len() < usize::MAX,
                    entry_views(r@) == listed_videos(es@, source@, opt_str_view(page_title), i as int),
                decreases es.len() - i,
            {
                match &es[i] {
                    Some(m) => {
                        let e = build_extension_video_entry(m, source, i, page_title);
                        let ghost before = r@;
                        r.push(e);
                        proof {
                            assert(entry_views(r@) =~= entry_views(before).push((e.id@, e.title@, e.source@)));
                        }
                    },
                    None => {},
                }
                i = i + 1;
            }
            r
        },
        None => {
            let e = build_extension_video_entry(top, source, 0, page_title);
            let mut r: Vec<ExtensionVideoEntry> = Vec::new();
            r.push(e);
            proof {
                assert(entry_views(r@) =~= seq![(e.id@, e.title@, e.source@)]);
            }
            r
        },
    }
}

/// Why the browser extension's request for a new task is refused.
#[derive(Debug, Clone, Copy, PartialEq, Eq, Structural)]
pub enum ExtensionError {
    SourceRequired,
    FileNameRequired,
    NotHttpSource,
    NoYtDlpEngine,
}

impl ExtensionError {
    pub fn message(&self) -> (r: &'static str)
        ensures
            r@ == (match self {
                ExtensionError::SourceRequired => "download source is required"@,
                ExtensionError::FileNameRequired => "file name is required"@,
                ExtensionError::NotHttpSource => "yt-dlp source must be http or https"@,
                ExtensionError::NoYtDlpEngine => "no enabled yt-dlp settings supports this page"@,
            }),
    {
        match self {
            ExtensionError::SourceRequired => "download source is required",
            ExtensionError::FileNameRequired => "file name is required",
            ExtensionError::NotHttpSource => "yt-dlp source must be http or https",
            ExtensionError::NoYtDlpEngine => "no enabled yt-dlp settings supports this page",
        }
    }
}

pub open spec fn request_view(r: OpenTaskRequest) -> (
    Seq<char>,
    Option<Seq<char>>,
    Option<Seq<char>>,
    Option<Seq<char>>,
) {
    (r.source@, opt_string_view(r.file_name), opt_string_view(r.browser_cookies), opt_string_view(r.http_referrer))
}

/// The dialog request for a download that the extension hands over: the
/// source and file name trimmed, both required, and the referrer where it
/// is an HTTP address.
pub open spec fn spec_extension_task(
    source: Seq<char>,
    file_name: Seq<char>,
    http_referrer: Option<Seq<char>>,
) -> Result<(Seq<char>, Option<Seq<char>>, Option<Seq<char>>, Option<Seq<char>>), ExtensionError> {
    if trim(source).len() == 0 {
        Err(ExtensionError::SourceRequired)
    } else if trim(file_name).len() == 0 {
        Err(ExtensionError::FileNameRequired)
    } else {
        Ok((trim(source), Some(trim(file_name)), None, spec_http_url(http_referrer)))
    }
}

pub fn extension_task_request(
    source: &str,
    file_name: &str,
    http_referrer: Option<String>,
) -> (r: Result<OpenTaskRequest, ExtensionError>)
    ensures
        match r {
            Ok(q) => spec_extension_task(source@, file_name@, opt_string_view(http_referrer)) == Ok::<
                _,
                ExtensionError,
            >(request_view(q)),
            Err(e) => spec_extension_task(source@, file_name@, opt_string_view(http_referrer))
                == Err::<(Seq<char>, Option<Seq<char>>, Option<Seq<char>>, Option<Seq<char>>), _>(e),
        },
{
    let s = trim_str(source);
    let f = trim_str(file_name);
    if s.len() == 0 {
        return Err(ExtensionError::SourceRequired);
    }
    if f.len() == 0 {
        return Err(ExtensionError::FileNameRequired);
    }
    Ok(
        OpenTaskRequest {
            source: string_of(&s),
            file_name: Some(string_of(&f)),
            browser_cookies: None,
            http_referrer: normalize_optional_http_url(http_referrer),
        },
    )
}

/// The dialog request for a page that the extension asks yt-dlp to
/// download: the source and file name trimmed, the source an HTTP address
/// that an enabled yt-dlp engine takes, the cookies where they hold more
/// than whitespace, and the referrer where it is an HTTP address.
pub open spec fn spec_ytdlp_task(
    candidates: Seq<EngineSummary>,
    source: Seq<char>,
    file_name: Seq<char>,
    cookies: Option<Seq<char>>,
    http_referrer: Option<Seq<char>>,
) -> Result<(Seq<char>, Option<Seq<char>>, Option<Seq<char>>, Option<Seq<char>>), ExtensionError> {
    match spec_extension_source_type(trim(source)) {
        None => Err(ExtensionError::NotHttpSource),
        Some(t) => if !(exists|i: int| 0 <= i < candidates.len() && serves(candidates[i], t)) {
            Err(ExtensionError::NoYtDlpEngine)
        } else {
            let kept = match cookies {
                Some(c) => if trim(c).len() > 0 {
                    Some(c)
                } else {
                    None
                },
                None => None,
            };
            Ok((trim(source), Some(trim(file_name)), kept, spec_http_url(http_referrer)))
        },
    }
}

pub fn extension_ytdlp_task_request(
    candidates: &[EngineSummary],
    source: &str,
    file_name: &str,
    cookies: Option<String>,
    http_referrer: Option<String>,
) -> (r: Result<OpenTaskRequest, ExtensionError>)
    ensures
        match r {
            Ok(q) => spec_ytdlp_task(
                candidates@,
                source@,
                file_name@,
                opt_string_view(cookies),
                opt_string_view(http_referrer),
            ) == Ok::<_, ExtensionError>(request_view(q)),
            Err(e) => spec_ytdlp_task(
                candidates@,
                source@,
                file_name@,
                opt_string_view(cookies),
                opt_string_view(http_referrer),
            ) == Err::<(Seq<char>, Option<Seq<char>>, Option<Seq<char>>, Option<Seq<char>>), _>(e),
        },
{
    let s = string_of(&trim_str(source));
    let f = trim_str(file_name);
    let source_type = match extension_source_type(s.as_str()) {
        Some(t) => t,
        None => return Err(ExtensionError::NotHttpSource),
    };
    match find_enabled_ytdlp_settings(candidates, source_type) {
        Some(_) => {},
        None => return Err(ExtensionError::NoYtDlpEngine),
    }
    let kept = match cookies {
        Some(c) => if trim_str(c.as_str()).len() > 0 {
            Some(c)
        } else {
            None
        },
        None => None,
    };
    Ok(
        OpenTaskRequest {
            source: s,
            file_name: Some(string_of(&f)),
            browser_cookies: kept,
            http_referrer: normalize_optional_http_url(http_referrer),
        },
    )
}

} // verus!
