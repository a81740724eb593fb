use unidl::adapters::{
    check_magnet_request, command_line, engine_speed_limit_bytes_per_sec, engine_user_agent,
    json_i64, parse_magnet_hash, required_engine_task_id, shell_quote, unsupported_request,
    EngineRequest, EngineTaskState, MagnetRequestError, ProgressValue, TaskSnapshot,
};
use unidl::models::{DownloadStatus, EngineKind};

#[test]
fn magnet_hash_is_read_from_xt_part() {
    assert_eq!(
        parse_magnet_hash("magnet:?xt=urn:btih:ABCDEF123456&dn=unidl"),
        Some("abcdef123456".to_string())
    );
    assert_eq!(
        parse_magnet_hash("magnet:?dn=x&xt=urn:btih:FFEE"),
        Some("ffee".to_string())
    );
    assert_eq!(parse_magnet_hash("https://example.test/a.torrent"), None);
}

#[test]
fn shell_quoting_for_logs() {
    assert_eq!(shell_quote("plain"), "plain");
    assert_eq!(shell_quote(""), "\"\"");
    assert_eq!(shell_quote("My Video.mp4"), "\"My Video.mp4\"");
    assert_eq!(shell_quote("a\"b&c"), "\"a\\\"b&c\"");
    assert_eq!(
        command_line("yt-dlp", &["--output".to_string(), "a b".to_string()]),
        "yt-dlp --output \"a b\""
    );
}

#[test]
fn settings_helpers() {
    assert_eq!(engine_user_agent(Some("  UA  ")), Some("UA".to_string()));
    assert_eq!(engine_user_agent(Some("   ")), None);
    assert_eq!(engine_speed_limit_bytes_per_sec(0), None);
    assert_eq!(engine_speed_limit_bytes_per_sec(1024), Some(1024));
    assert_eq!(json_i64(Some(5), Some("7")), Some(5));
    assert_eq!(json_i64(None, Some("7")), Some(7));
    assert_eq!(json_i64(None, Some("x")), None);
    assert_eq!(required_engine_task_id("t1", Some("gid")), Ok("gid".to_string()));
    assert_eq!(
        required_engine_task_id("t1", None),
        Err("task t1 has no engine task id".to_string())
    );
}

#[test]
fn magnet_requests_are_checked() {
    assert_eq!(check_magnet_request("  MAGNET:?xt=1", "C:\\Downloads"), Ok(()));
    assert_eq!(check_magnet_request("http://x", "C:\\Downloads"), Err(MagnetRequestError::NotMagnet));
    assert_eq!(check_magnet_request("magnet:?xt=1", "  "), Err(MagnetRequestError::NoSavePath));
    assert_eq!(MagnetRequestError::NotMagnet.message(), "source must be a magnet link");
}

#[test]
fn unsupported_requests_by_engine() {
    assert_eq!(
        unsupported_request(EngineKind::YtDlp, EngineRequest::MagnetMetadata),
        Some("yt-dlp does not support magnet metadata")
    );
    assert_eq!(
        unsupported_request(EngineKind::Aria2, EngineRequest::RemoteDirectories),
        Some("Aria2 does not support remote directory browsing")
    );
    assert_eq!(unsupported_request(EngineKind::QBittorrent, EngineRequest::RemoteDirectories), None);
    assert_eq!(unsupported_request(EngineKind::Aria2, EngineRequest::TorrentFiles), None);
}

#[test]
fn engine_states() {
    let running = EngineTaskState::running("gid-1".to_string());
    assert_eq!(running.status, DownloadStatus::Running);
    assert_eq!(running.progress, ProgressValue::Zero);
    assert_eq!(running.engine_task_id, Some("gid-1".to_string()));
    let snapshot = TaskSnapshot { downloaded_bytes: 120, total_bytes: 1000, engine_task_id: Some("gid".to_string()) };
    let held = EngineTaskState::held(DownloadStatus::Paused, &snapshot, None);
    assert_eq!(held.progress, ProgressValue::Kept);
    assert_eq!(held.downloaded_bytes, 120);
    assert_eq!(held.total_bytes, 1000);
    assert_eq!(held.speed_bytes_per_sec, 0);
    assert_eq!(held.engine_task_id, Some("gid".to_string()));
}
