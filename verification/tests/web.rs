use unidl::models::{EngineKind, EngineSummary, SourceType};
use unidl::web::{
    bind_address_from_url, build_extension_video_entry, can_detect_videos, detection_args,
    extension_source_type, extension_task_request, extension_video_title, extension_videos,
    extension_ytdlp_task_request, find_enabled_ytdlp_settings, fixed_answer,
    normalize_optional_http_url, request_path, request_token, route_request, stderr_summary,
    BindAddressError, ExtensionError, HttpMethod, RouteKind, SessionStore,
    VideoMetadata,
};

fn route(method: HttpMethod, path: &str, enabled: bool, authorized: bool) -> (RouteKind, String) {
    let r = route_request(method, path, enabled, authorized);
    (r.kind, r.target)
}

#[test]
fn open_endpoints_answer_without_web_access() {
    assert_eq!(route(HttpMethod::Options, "/api/tasks", false, false).0, RouteKind::Preflight);
    assert_eq!(route(HttpMethod::Get, "/api/health", false, false).0, RouteKind::Health);
    assert_eq!(
        route(HttpMethod::Post, "/api/extension/tasks", false, false).0,
        RouteKind::ExtensionTask
    );
    assert_eq!(
        route(HttpMethod::Post, "/api/extension/videos/support", false, false).0,
        RouteKind::ExtensionVideosSupport
    );
    assert_eq!(route(HttpMethod::Get, "/api/tasks", false, true).0, RouteKind::WebAccessDisabled);
    assert_eq!(route(HttpMethod::Post, "/api/login", false, false).0, RouteKind::WebAccessDisabled);
}

#[test]
fn api_requires_session() {
    assert_eq!(route(HttpMethod::Get, "/api/tasks", true, false).0, RouteKind::Unauthorized);
    assert_eq!(route(HttpMethod::Post, "/api/login", true, false).0, RouteKind::Login);
    assert_eq!(route(HttpMethod::Get, "/api/tasks", true, true).0, RouteKind::ListTasks);
    assert_eq!(route(HttpMethod::Post, "/api/tasks", true, true).0, RouteKind::CreateTask);
    assert_eq!(route(HttpMethod::Other, "/api/tasks", true, true).0, RouteKind::NotFound);
}

#[test]
fn frontend_assets_are_served_by_path() {
    assert_eq!(
        route(HttpMethod::Get, "/", true, false),
        (RouteKind::FrontendAsset, "index.html".to_string())
    );
    assert_eq!(
        route(HttpMethod::Get, "//assets/app.js", true, false),
        (RouteKind::FrontendAsset, "assets/app.js".to_string())
    );
}

#[test]
fn item_routes_carry_their_ids() {
    assert_eq!(
        route(HttpMethod::Get, "/api/tasks/abc/torrent-files", true, true),
        (RouteKind::TaskTorrentFiles, "abc".to_string())
    );
    assert_eq!(
        route(HttpMethod::Post, "/api/tasks/abc/file-selection", true, true),
        (RouteKind::TaskFileSelection, "abc".to_string())
    );
    assert_eq!(
        route(HttpMethod::Post, "/api/tasks/abc/open", true, true),
        (RouteKind::OpenTaskFile, "abc".to_string())
    );
    assert_eq!(
        route(HttpMethod::Post, "/api/tasks/abc/open-directory", true, true),
        (RouteKind::OpenTaskDirectory, "abc".to_string())
    );
    assert_eq!(
        route(HttpMethod::Post, "/api/engine-settings/aria2-main/install-latest", true, true),
        (RouteKind::InstallLatest, "aria2-main".to_string())
    );
    assert_eq!(
        route(HttpMethod::Delete, "/api/engine-settings/aria2-main", true, true),
        (RouteKind::DeleteEngineSettings, "aria2-main".to_string())
    );
    assert_eq!(
        route(HttpMethod::Post, "/api/engine-settings/aria2-main/trackers", true, true),
        (RouteKind::UpdateTrackers, "aria2-main".to_string())
    );
    assert_eq!(
        route(HttpMethod::Post, "/api/managed-engine-executable-path", true, true).0,
        RouteKind::ManagedEngineExecutablePath
    );
}

#[test]
fn request_path_drops_query() {
    assert_eq!(request_path("/api/tasks?x=1?y=2"), "/api/tasks");
    assert_eq!(request_path("/api/tasks"), "/api/tasks");
}

#[test]
fn fixed_answers_give_status_and_error() {
    assert_eq!(fixed_answer(RouteKind::Unauthorized), Some((401, "unauthorized")));
    assert_eq!(fixed_answer(RouteKind::WebAccessDisabled), Some((403, "web access is disabled")));
    assert_eq!(fixed_answer(RouteKind::NotFound), Some((404, "not found")));
    assert_eq!(fixed_answer(RouteKind::Preflight), Some((204, "")));
    assert_eq!(fixed_answer(RouteKind::ListTasks), None);
}

fn headers(pairs: &[(&str, &str)]) -> Vec<(String, String)> {
    pairs.iter().map(|(a, b)| (a.to_string(), b.to_string())).collect()
}

#[test]
fn tokens_come_from_bearer_or_custom_header() {
    assert_eq!(
        request_token(&headers(&[("Authorization", "Bearer tok")])),
        Some("tok".to_string())
    );
    assert_eq!(
        request_token(&headers(&[("authorization", "Basic x"), ("X-UNIDL-TOKEN", "t2")])),
        Some("t2".to_string())
    );
    assert_eq!(request_token(&headers(&[("accept", "*/*")])), None);
}

#[test]
fn login_opens_a_session() {
    let mut store = SessionStore::new();
    assert_eq!(store.login("wrong", "secret"), None);
    let token = store.login("secret", "secret").expect("login should succeed");
    assert_eq!(token.len(), 36);
    assert!(store.contains(&token));
    let bearer = format!("Bearer {token}");
    assert!(store.is_authorized(&headers(&[("Authorization", bearer.as_str())])));
    assert!(!store.is_authorized(&headers(&[("Authorization", "Bearer other")])));
    let other = store.login("secret", "secret").expect("second login should succeed");
    assert_ne!(other, token);
}

#[test]
fn bind_address_needs_http_host_and_port() {
    assert_eq!(bind_address_from_url(" http://127.0.0.1:18080 "), Ok("127.0.0.1:18080".to_string()));
    assert_eq!(bind_address_from_url("https://x:1"), Err(BindAddressError::NotHttp));
    assert_eq!(bind_address_from_url("http://x:1/app"), Err(BindAddressError::NotHostAndPort));
    assert_eq!(
        BindAddressError::NotHostAndPort.message(),
        "web access URL must only include host and port"
    );
}

#[test]
fn extension_helpers() {
    assert_eq!(extension_source_type("https://example.test"), Some(SourceType::Http));
    assert_eq!(extension_source_type("magnet:?xt=1"), None);
    assert_eq!(
        normalize_optional_http_url(Some("  HTTPS://example.test/page ".to_string())),
        Some("HTTPS://example.test/page".to_string())
    );
    assert_eq!(normalize_optional_http_url(Some("ftp://x".to_string())), None);
    assert_eq!(extension_video_title("https://example.com/watch?v=1"), "example.com");
    assert_eq!(extension_video_title("https:///x"), "current page");
}

fn meta(id: Option<&str>, title: Option<&str>, webpage: Option<&str>, url: Option<&str>) -> VideoMetadata {
    VideoMetadata {
        id: id.map(str::to_string),
        title: title.map(str::to_string),
        webpage_url: webpage.map(str::to_string),
        url: url.map(str::to_string),
    }
}

#[test]
fn video_entries_fill_missing_fields() {
    let entry = build_extension_video_entry(
        &meta(None, Some("  "), None, Some("https://cdn.test/v")),
        "https://example.com/watch",
        1,
        Some(" Example page "),
    );
    assert_eq!(entry.id, "current-page-2");
    assert_eq!(entry.title, "Example page");
    assert_eq!(entry.source, "https://cdn.test/v");
}

#[test]
fn listed_videos_skip_nulls_but_keep_numbering() {
    let top = meta(None, None, None, None);
    let entries = vec![
        Some(meta(Some("1"), Some("Video 1"), Some("https://example.com/watch?v=1"), None)),
        None,
        Some(meta(None, None, None, None)),
    ];
    let videos = extension_videos(&top, Some(&entries), "https://example.com/watch", None);
    assert_eq!(videos.len(), 2);
    assert_eq!(videos[0].id, "1");
    assert_eq!(videos[1].id, "current-page-3");
    assert_eq!(videos[1].title, "example.com");
    let single = extension_videos(&top, None, "https://example.com/watch", Some("Page"));
    assert_eq!(single.len(), 1);
    assert_eq!(single[0].id, "current-page-1");
    assert_eq!(single[0].title, "Page");
}

fn ytdlp(enabled: bool, path: Option<&str>) -> EngineSummary {
    EngineSummary {
        id: "yt-dlp".to_string(),
        engine: EngineKind::YtDlp,
        enabled,
        supported_source_types: vec![SourceType::Http],
        executable_path: path.map(str::to_string),
        proxy_url: None,
    }
}

#[test]
fn detection_needs_enabled_ytdlp_with_executable() {
    let engines = vec![ytdlp(false, Some("yt-dlp")), ytdlp(true, Some("  ")), ytdlp(true, Some("yt-dlp"))];
    assert_eq!(find_enabled_ytdlp_settings(&engines, SourceType::Http), Some(1));
    assert!(!can_detect_videos(&engines, " https://example.com "));
    let engines = vec![ytdlp(true, Some(" yt-dlp "))];
    assert!(can_detect_videos(&engines, " https://example.com "));
    assert!(!can_detect_videos(&engines, "magnet:?xt=1"));
    assert_eq!(find_enabled_ytdlp_settings(&engines, SourceType::Magnet), None);
}

#[test]
fn detection_arguments_and_failure_summary() {
    let args = detection_args(Some("http://proxy:1"));
    assert_eq!(args.len(), 9);
    assert_eq!(args[0], "--dump-single-json");
    assert_eq!(args[7], "--proxy");
    assert_eq!(args[8], "http://proxy:1");
    assert_eq!(detection_args(None).len(), 7);
    assert_eq!(stderr_summary("  \n "), "(no stderr output)");
    assert_eq!(stderr_summary("WARNING: a\nERROR: b\n"), "ERROR: b");
}

#[test]
fn extension_tasks_need_source_and_name() {
    assert_eq!(extension_task_request(" ", "a", None).err(), Some(ExtensionError::SourceRequired));
    assert_eq!(extension_task_request("x", " ", None).err(), Some(ExtensionError::FileNameRequired));
    let request = extension_task_request(
        " magnet:?xt=urn:btih:ABCDEF123456&dn=unidl ",
        " unidl ",
        Some("https://example.test/page".to_string()),
    )
    .expect("request should build");
    assert_eq!(request.source, "magnet:?xt=urn:btih:ABCDEF123456&dn=unidl");
    assert_eq!(request.file_name, Some("unidl".to_string()));
    assert_eq!(request.browser_cookies, None);
    assert_eq!(request.http_referrer, Some("https://example.test/page".to_string()));
    assert_eq!(ExtensionError::SourceRequired.message(), "download source is required");
}

#[test]
fn ytdlp_tasks_need_http_source_and_engine() {
    let engines = vec![ytdlp(true, None)];
    assert_eq!(
        extension_ytdlp_task_request(&engines, "ftp://x", "a", None, None).err(),
        Some(ExtensionError::NotHttpSource)
    );
    assert_eq!(
        extension_ytdlp_task_request(&[], "https://x", "a", None, None).err(),
        Some(ExtensionError::NoYtDlpEngine)
    );
    let request = extension_ytdlp_task_request(
        &engines,
        " https://x/v ",
        " v.mp4 ",
        Some(" c=1 ".to_string()),
        Some("nope".to_string()),
    )
    .expect("request should build");
    assert_eq!(request.source, "https://x/v");
    assert_eq!(request.file_name, Some("v.mp4".to_string()));
    assert_eq!(request.browser_cookies, Some(" c=1 ".to_string()));
    assert_eq!(request.http_referrer, None);
    let blank = extension_ytdlp_task_request(&engines, "https://x", "", Some("  ".to_string()), None)
        .expect("request should build");
    assert_eq!(blank.browser_cookies, None);
}
