use unidl::aria2::{
    aria2_display_file_path, aria2_download_options, aria2_params, aria2_rpc_secret,
    aria2_rpc_url, aria2_top_level_name, common_download_entry_name, magnet_has_tracker,
    magnet_fallback_trackers, magnet_with_fallback_trackers, percent_decode_query_value, percent_encode_query_value,
    PercentError,
};
use unidl::options::OptionMap;

fn options_with(
    output_file_name: Option<&str>,
    default_args: &str,
    task_args: &str,
    user_agent: Option<&str>,
    speed_limit: Option<i64>,
    max_connection_per_server: i64,
    split: i64,
    min_split_size: &str,
    file_allocation: &str,
    toggles: (bool, bool, bool, bool),
) -> OptionMap {
    aria2_download_options(
        "C:\\Downloads",
        output_file_name,
        default_args,
        task_args,
        None,
        None,
        user_agent,
        speed_limit,
        55,
        max_connection_per_server,
        split,
        min_split_size,
        file_allocation,
        10,
        "1",
        toggles.0,
        toggles.1,
        toggles.2,
        toggles.3,
    )
}

#[test]
fn aria2_params_prepends_rpc_secret_token() {
    let params = aria2_params(
        "--continue=true --rpc-secret=secret-value",
        vec!["gid".to_string()],
    );

    assert_eq!(params, vec!["token:secret-value".to_string(), "gid".to_string()]);
}

#[test]
fn aria2_params_keeps_params_without_rpc_secret() {
    let params = aria2_params("--continue=true", vec!["gid".to_string()]);

    assert_eq!(params, vec!["gid".to_string()]);
}

#[test]
fn aria2_rpc_url_appends_jsonrpc_path() {
    assert_eq!(
        aria2_rpc_url(Some("http://127.0.0.1:6800/")),
        "http://127.0.0.1:6800/jsonrpc"
    );
}

#[test]
fn aria2_download_options_uses_dialog_file_name() {
    let options = options_with(
        Some("renamed.bin"),
        "--continue=true --out=default.bin",
        "--split=4 --out=task.bin",
        None,
        None,
        16,
        16,
        "1M",
        "none",
        (true, true, true, true),
    );

    assert_eq!(options.get("out"), Some("renamed.bin".to_string()));
}

#[test]
fn aria2_download_options_uses_bt_discovery_toggles() {
    let options = options_with(
        None,
        "--enable-dht=true --enable-peer-exchange=true",
        "--bt-enable-lpd=false",
        None,
        None,
        16,
        16,
        "1M",
        "none",
        (false, true, false, true),
    );

    assert_eq!(options.get("enable-dht"), Some("false".to_string()));
    assert_eq!(options.get("enable-dht6"), Some("true".to_string()));
    assert_eq!(options.get("enable-peer-exchange"), Some("false".to_string()));
    assert_eq!(options.get("bt-enable-lpd"), Some("true".to_string()));
}

#[test]
fn aria2_download_options_uses_configured_transfer_options() {
    let options = options_with(
        None,
        "--max-connection-per-server=16 --split=16 --min-split-size=1M --file-allocation=none",
        "",
        None,
        None,
        8,
        4,
        "2M",
        "prealloc",
        (true, true, true, true),
    );

    assert_eq!(options.get("max-connection-per-server"), Some("8".to_string()));
    assert_eq!(options.get("split"), Some("4".to_string()));
    assert_eq!(options.get("min-split-size"), Some("2M".to_string()));
    assert_eq!(options.get("file-allocation"), Some("prealloc".to_string()));
}

#[test]
fn aria2_download_options_uses_user_agent_and_speed_limit() {
    let options = options_with(
        None,
        "--user-agent=DefaultAgent --max-download-limit=1M",
        "",
        Some("UniDL Test Agent"),
        Some(524_288),
        16,
        16,
        "1M",
        "none",
        (true, true, true, true),
    );

    assert_eq!(options.get("user-agent"), Some("UniDL Test Agent".to_string()));
    assert_eq!(options.get("max-download-limit"), Some("524288".to_string()));
}

#[test]
fn download_options_keep_task_arguments_and_directory() {
    let options = options_with(
        None,
        "--split=2 --dir=elsewhere --seed-time=99",
        "--max-tries=5",
        Some("   "),
        Some(0),
        16,
        16,
        "1M",
        "none",
        (true, true, true, true),
    );

    assert_eq!(options.get("dir"), Some("C:\\Downloads".to_string()));
    assert_eq!(options.get("continue"), Some("true".to_string()));
    assert_eq!(options.get("max-tries"), Some("5".to_string()));
    assert_eq!(options.get("seed-time"), Some("10".to_string()));
    assert_eq!(options.get("seed-ratio"), Some("1".to_string()));
    assert_eq!(options.get("user-agent"), None);
    assert_eq!(options.get("max-download-limit"), None);
    assert_eq!(options.get("select-file"), None);
}

#[test]
fn download_options_select_listed_files() {
    let indexes = [0i64, 2, 5];
    let options = aria2_download_options(
        "/data", None, "", "", Some(&indexes), Some(" http://proxy:8080 "), None, None, 1, 1, 1,
        "1M", "none", 0, "0", true, true, true, true,
    );

    assert_eq!(options.get("select-file"), Some("0,2,5".to_string()));
    assert_eq!(options.get("all-proxy"), Some("http://proxy:8080".to_string()));
}

#[test]
fn rpc_url_defaults_and_keeps_jsonrpc_suffix() {
    assert_eq!(aria2_rpc_url(None), "http://127.0.0.1:6800/jsonrpc");
    assert_eq!(
        aria2_rpc_url(Some("http://host:6800/jsonrpc")),
        "http://host:6800/jsonrpc"
    );
    assert_eq!(aria2_rpc_url(Some("http://host:6800")), "http://host:6800/jsonrpc");
}

#[test]
fn rpc_secret_reads_both_argument_forms() {
    assert_eq!(aria2_rpc_secret("--rpc-secret abc --x"), Some("abc".to_string()));
    assert_eq!(aria2_rpc_secret("--a --rpc-secret=xyz"), Some("xyz".to_string()));
    assert_eq!(aria2_rpc_secret("--rpc-secret"), None);
    assert_eq!(aria2_rpc_secret(""), None);
}

#[test]
fn percent_encoding_round_trips() {
    let value: Vec<char> = "udp://tracker.example:80/announce?x=1 2".chars().collect();
    let encoded = percent_encode_query_value(&value);
    assert_eq!(encoded, "udp%3A%2F%2Ftracker.example%3A80%2Fannounce%3Fx%3D1%202");
    let encoded_chars: Vec<char> = encoded.chars().collect();
    let decoded = percent_decode_query_value(&encoded_chars);
    assert_eq!(decoded, Ok("udp://tracker.example:80/announce?x=1 2".to_string()));
}

#[test]
fn percent_decoding_reports_bad_escapes() {
    let plus: Vec<char> = "a+b".chars().collect();
    assert_eq!(percent_decode_query_value(&plus), Ok("a b".to_string()));
    let bad: Vec<char> = "%zz".chars().collect();
    assert!(percent_decode_query_value(&bad).is_err());
    let cut: Vec<char> = "abc%4".chars().collect();
    assert!(percent_decode_query_value(&cut).is_err());
    let _unused: Option<PercentError> = None;
}

#[test]
fn fallback_trackers_are_added_once() {
    let trackers = vec!["udp://t.one:80/announce".to_string()];
    let source = "magnet:?xt=urn:btih:abc";
    let with = magnet_with_fallback_trackers(&trackers, source);
    assert!(with.starts_with("magnet:?xt=urn:btih:abc&tr=udp%3A%2F%2Ft.one%3A80%2Fannounce&tr="));
    let with_chars: Vec<char> = with.chars().collect();
    let tracker_chars: Vec<char> = "UDP://T.ONE:80/announce".chars().collect();
    assert!(magnet_has_tracker(&with_chars, &tracker_chars));
    for tracker in magnet_fallback_trackers() {
        let chars: Vec<char> = tracker.chars().collect();
        assert!(magnet_has_tracker(&with_chars, &chars));
    }
    assert_eq!(magnet_with_fallback_trackers(&trackers, &with), with);
    assert_eq!(
        magnet_with_fallback_trackers(&trackers, "http://example.test/a"),
        "http://example.test/a"
    );
}

#[test]
fn display_paths_are_relative_to_save_path() {
    assert_eq!(
        aria2_display_file_path("C:\\Downloads\\album\\a.mp3", Some("C:\\downloads"), true),
        "album/a.mp3"
    );
    assert_eq!(
        aria2_display_file_path("/data/x/y.bin", Some("/data"), false),
        "x/y.bin"
    );
}

#[test]
fn entry_names_come_from_shared_prefix() {
    let paths = vec!["album/a.mp3".to_string(), "album/b.mp3".to_string()];
    assert_eq!(common_download_entry_name(&paths), Some("album".to_string()));
    assert_eq!(aria2_top_level_name(&paths), Some("album".to_string()));
}

use unidl::adapters::{ProgressValue, TaskSnapshot};
use unidl::aria2::{
    aria2_add_call, aria2_candidate_file_gids, aria2_file_entries, aria2_output_file_name,
    aria2_pause_state, aria2_process_args, aria2_refresh_state, aria2_rpc_listen_port,
    Aria2AddCall, Aria2File, Aria2Status,
};
use unidl::models::{DownloadStatus, SourceType};

fn snapshot() -> TaskSnapshot {
    TaskSnapshot { downloaded_bytes: 120, total_bytes: 1000, engine_task_id: Some("gid".to_string()) }
}

fn status(text: Option<&str>, followed: Vec<&str>) -> Aria2Status {
    Aria2Status {
        status: text.map(str::to_string),
        total_length: Some(2000),
        completed_length: Some(500),
        download_speed: Some(64),
        error_message: Some(String::new()),
        bittorrent_name: Some("  Ubuntu ISO  ".to_string()),
        followed_by: followed.into_iter().map(str::to_string).collect(),
    }
}

#[test]
fn refresh_maps_aria2_status() {
    let state = aria2_refresh_state(&status(Some("active"), vec![]), "gid", SourceType::Http, &snapshot());
    assert_eq!(state.status, DownloadStatus::Running);
    assert_eq!(state.progress, ProgressValue::OfBytes { completed: 500, total: 2000 });
    assert_eq!(state.speed_bytes_per_sec, 64);
    assert_eq!(state.error_message, None);
    assert_eq!(state.file_name, Some("Ubuntu ISO".to_string()));
    assert_eq!(state.engine_task_id, Some("gid".to_string()));
    let followed = aria2_refresh_state(&status(Some("complete"), vec!["next"]), "gid", SourceType::Magnet, &snapshot());
    assert_eq!(followed.status, DownloadStatus::Running);
    assert_eq!(followed.engine_task_id, Some("next".to_string()));
    let done = aria2_refresh_state(&status(Some("complete"), vec![]), "gid", SourceType::Magnet, &snapshot());
    assert_eq!(done.status, DownloadStatus::Completed);
    let waiting = aria2_refresh_state(&status(Some("waiting"), vec![]), "gid", SourceType::Http, &snapshot());
    assert_eq!(waiting.status, DownloadStatus::Queued);
    let missing = aria2_refresh_state(&status(None, vec![]), "gid", SourceType::Http, &snapshot());
    assert_eq!(missing.status, DownloadStatus::Failed);
    let mut no_total = status(Some("paused"), vec![]);
    no_total.total_length = None;
    let paused = aria2_refresh_state(&no_total, "gid", SourceType::Http, &snapshot());
    assert_eq!(paused.status, DownloadStatus::Paused);
    assert_eq!(paused.progress, ProgressValue::Kept);
    assert_eq!(paused.total_bytes, 0);
}

#[test]
fn pause_marks_failed_when_rpc_is_unavailable() {
    let state = aria2_pause_state(&snapshot(), true, true).expect("state");
    assert_eq!(state.status, DownloadStatus::Failed);
    assert_eq!(state.speed_bytes_per_sec, 0);
    assert_eq!(state.downloaded_bytes, 120);
    assert_eq!(state.error_message, Some("aria2 rpc is unavailable".to_string()));
    assert_eq!(aria2_pause_state(&snapshot(), false, false).expect("state").status, DownloadStatus::Paused);
    assert!(aria2_pause_state(&snapshot(), true, false).is_none());
}

#[test]
fn candidate_gids_and_file_entries() {
    let gids = aria2_candidate_file_gids(&["b".to_string()], true, "a");
    assert_eq!(gids, vec!["b".to_string(), "a".to_string()]);
    assert_eq!(aria2_candidate_file_gids(&[], false, "a"), Vec::<String>::new());
    let files = vec![
        Aria2File { path: Some("/data/album/a.mp3".to_string()), length: Some("10".to_string()), completed_length: Some("4".to_string()) },
        Aria2File { path: Some("  ".to_string()), length: None, completed_length: None },
        Aria2File { path: Some("/data/album/b.mp3".to_string()), length: Some("20".to_string()), completed_length: None },
    ];
    let entries = aria2_file_entries(&files, Some("/data"), false).expect("entries");
    assert_eq!(entries.len(), 2);
    assert_eq!(entries[0].index, 1);
    assert_eq!(entries[0].path, "album/a.mp3");
    assert_eq!(entries[0].completed_length, 4);
    assert_eq!(entries[1].index, 3);
    assert_eq!(entries[1].completed_length, 0);
    let bad = vec![Aria2File { path: Some("x".to_string()), length: None, completed_length: None }];
    assert_eq!(aria2_file_entries(&bad, None, false), Err("aria2 file length is missing"));
}

#[test]
fn process_arguments() {
    let args = aria2_process_args(
        "--rpc-secret=s --max-tries=3", 16, 8, "1M", "none", 6800, true, false, true, false, 6881, 55, 10, "1", "/data",
    );
    assert_eq!(args[0], "--enable-rpc=true");
    assert_eq!(args[2], "--continue=true");
    assert_eq!(args[3], "--rpc-secret=s");
    assert_eq!(args[4], "--max-tries=3");
    assert_eq!(args[5], "--max-connection-per-server=16");
    assert_eq!(args[9], "--rpc-listen-port=6800");
    assert_eq!(args[11], "--enable-dht6=false");
    assert_eq!(args[18], "--dir=/data");
    assert_eq!(args.len(), 19);
}

#[test]
fn rpc_port_and_add_calls() {
    assert_eq!(aria2_rpc_listen_port(Some("http://127.0.0.1:6800/jsonrpc")), Ok(6800));
    assert_eq!(
        aria2_rpc_listen_port(Some("http://127.0.0.1/jsonrpc")),
        Err("aria2 rpc url must include port".to_string())
    );
    assert!(aria2_rpc_listen_port(Some("not a url")).is_err());
    assert_eq!(aria2_output_file_name(SourceType::Http, "  a.bin "), Some("a.bin".to_string()));
    assert_eq!(aria2_output_file_name(SourceType::Magnet, "a"), None);
    assert_eq!(
        aria2_add_call(SourceType::Torrent, "x.torrent", &[], b"hello"),
        Aria2AddCall::AddTorrent("aGVsbG8=".to_string())
    );
    assert_eq!(
        aria2_add_call(SourceType::Http, "http://x/a", &[], b""),
        Aria2AddCall::AddUri("http://x/a".to_string())
    );
    match aria2_add_call(SourceType::Magnet, "magnet:?xt=urn:btih:abc", &[], b"") {
        Aria2AddCall::AddUri(u) => assert!(u.starts_with("magnet:?xt=urn:btih:abc&tr=")),
        other => panic!("unexpected call {other:?}"),
    }
}

#[test]
fn magnet_lookup_tracks_cleanup_and_errors() {
    use_lookup();
}

fn use_lookup() {
    let mut lookup = unidl::aria2::MagnetLookup::new("gid-1");
    lookup.keep("gid-2");
    lookup.keep("gid-2");
    lookup.keep("gid-1");
    assert_eq!(lookup.cleanup_gids(), vec!["gid-2".to_string(), "gid-1".to_string()]);
    assert_eq!(lookup.give_up_warning(true), None);
    lookup.note_error(Some("  "));
    assert_eq!(lookup.give_up_warning(true), None);
    lookup.note_error(Some("tracker timeout"));
    lookup.note_error(None);
    assert_eq!(
        lookup.give_up_warning(false),
        Some("magnet metadata name was not resolved: tracker timeout".to_string())
    );
    assert_eq!(unidl::aria2::magnet_resolve_attempts(true), 180);
    assert_eq!(unidl::aria2::magnet_resolve_attempts(false), 60);
}

#[test]
fn aria2_start_helpers() {
    assert_eq!(unidl::aria2::aria2_start_executable(Some("  C:\\aria2c.exe ")), Some("C:\\aria2c.exe".to_string()));
    assert_eq!(unidl::aria2::aria2_start_executable(Some("  ")), None);
    assert_eq!(unidl::aria2::aria2_start_executable(None), None);
    assert_eq!(
        unidl::aria2::aria2_startup_error(None),
        "aria2 rpc was not ready after startup: unknown error"
    );
    assert_eq!(
        unidl::aria2::aria2_startup_error(Some("connection refused")),
        "aria2 rpc was not ready after startup: connection refused"
    );
}

#[test]
fn aria2_startup_gives_up_with_exit_or_last_rpc_error() {
    use_startup_steps();
}

fn use_startup_steps() {
    let mut s = unidl::aria2::Aria2Startup::new();
    assert_eq!(s.after_attempt(true, "", None), unidl::aria2::StartupStep::Ready);

    let mut s = unidl::aria2::Aria2Startup::new();
    let exit = unidl::aria2::Aria2Exit { status: "exit code: 1".to_string(), stderr: "  bad option --x \n".to_string() };
    assert_eq!(
        s.after_attempt(false, "connection refused", Some(exit)),
        unidl::aria2::StartupStep::Failed("bad option --x".to_string())
    );

    let mut s = unidl::aria2::Aria2Startup::new();
    let exit = unidl::aria2::Aria2Exit { status: "exit code: 7".to_string(), stderr: " ".to_string() };
    assert_eq!(
        s.after_attempt(false, "connection refused", Some(exit)),
        unidl::aria2::StartupStep::Failed("aria2 exited before its RPC was ready: exit code: 7".to_string())
    );

    let mut s = unidl::aria2::Aria2Startup::new();
    for _ in 0..19 {
        assert_eq!(s.after_attempt(false, "connection refused", None), unidl::aria2::StartupStep::Retry);
    }
    assert_eq!(
        s.after_attempt(false, "timed out", None),
        unidl::aria2::StartupStep::Failed("aria2 rpc was not ready after startup: timed out".to_string())
    );
    assert_eq!(s.failed, 20);
}

use unidl::aria2::{aria2_bittorrent_name, aria2_delete_method, aria2_resumable_after_restart, aria2_task_missing};

#[test]
fn aria2_delete_methods_and_missing_tasks() {
    assert_eq!(aria2_delete_method("active"), Some("aria2.remove"));
    assert_eq!(aria2_delete_method("paused"), Some("aria2.remove"));
    assert_eq!(aria2_delete_method("complete"), Some("aria2.removeDownloadResult"));
    assert_eq!(aria2_delete_method("removed"), Some("aria2.removeDownloadResult"));
    assert_eq!(aria2_delete_method("other"), None);
    assert!(aria2_task_missing("GID 2089b05ecca3d829 is not found"));
    assert!(!aria2_task_missing("connection refused"));
    assert!(aria2_resumable_after_restart(true, ""));
    assert!(aria2_resumable_after_restart(false, "GID 1 is not found"));
    assert!(!aria2_resumable_after_restart(false, "boom"));
    assert_eq!(aria2_bittorrent_name(&Some("  ".to_string())), None);
    assert_eq!(aria2_bittorrent_name(&Some("Ubuntu ISO".to_string())), Some("Ubuntu ISO".to_string()));
    assert_eq!(aria2_bittorrent_name(&None), None);
}

use unidl::aria2::{magnet_poll_step, FollowerAnswer, MagnetLookup, MagnetPollAction};

#[test]
fn magnet_poll_steps_follow_the_metadata_download() {
    let mut lookup = MagnetLookup::new("gid-1");
    let own = status(Some("active"), vec![]);
    assert_eq!(
        magnet_poll_step(&mut lookup, &own, None, 0, 3),
        MagnetPollAction::UseOwnName { name: "  Ubuntu ISO  ".to_string() }
    );

    let mut pending = status(Some("complete"), vec!["gid-2", "gid-3"]);
    pending.bittorrent_name = Some(" ".to_string());
    pending.error_message = Some("no peers".to_string());
    assert_eq!(
        magnet_poll_step(&mut lookup, &pending, None, 0, 3),
        MagnetPollAction::AskFollower { gid: "gid-2".to_string() }
    );
    assert_eq!(
        magnet_poll_step(&mut lookup, &pending, Some(FollowerAnswer::Status("gid-2".to_string(), None)), 0, 3),
        MagnetPollAction::AskFollowerFiles { gid: "gid-2".to_string() }
    );
    assert_eq!(
        magnet_poll_step(&mut lookup, &pending, Some(FollowerAnswer::TopLevel("gid-2".to_string(), None)), 0, 3),
        MagnetPollAction::Retry
    );
    assert_eq!(
        lookup.give_up_warning(false),
        Some("magnet metadata name was not resolved: no peers".to_string())
    );
    assert_eq!(magnet_poll_step(&mut lookup, &pending, Some(FollowerAnswer::Failed), 2, 3), MagnetPollAction::GiveUp);
    assert_eq!(
        magnet_poll_step(
            &mut lookup,
            &pending,
            Some(FollowerAnswer::TopLevel("gid-2".to_string(), Some("album".to_string()))),
            1,
            3
        ),
        MagnetPollAction::UseFollower { gid: "gid-2".to_string(), name: "album".to_string() }
    );
    assert_eq!(
        magnet_poll_step(&mut lookup, &pending, Some(FollowerAnswer::Status("gid-2".to_string(), Some("Album".to_string()))), 1, 3),
        MagnetPollAction::UseFollower { gid: "gid-2".to_string(), name: "Album".to_string() }
    );
    assert_eq!(lookup.cleanup_gids(), vec!["gid-2".to_string(), "gid-1".to_string()]);

    let mut lonely = status(Some("active"), vec![]);
    lonely.bittorrent_name = None;
    assert_eq!(magnet_poll_step(&mut lookup, &lonely, None, 0, 1), MagnetPollAction::GiveUp);
    assert_eq!(magnet_poll_step(&mut lookup, &lonely, None, 0, 0), MagnetPollAction::GiveUp);
}

#[test]
fn torrent_files_go_to_aria2_in_padded_standard_base64() {
    let cases: [(&[u8], &str); 5] =
        [(b"", ""), (b"M", "TQ=="), (b"Ma", "TWE="), (b"Man", "TWFu"), (&[0xFF, 0xEF, 0x00, 0x00], "/+8AAA==")];
    for (bytes, text) in cases {
        assert_eq!(aria2_add_call(SourceType::Torrent, "x.torrent", &[], bytes), Aria2AddCall::AddTorrent(text.to_string()));
    }
}

#[test]
fn refresh_holds_paused_when_aria2_is_unavailable() {
    let held = unidl::aria2::aria2_refresh_failed_state(true, "connection refused", &snapshot()).expect("held");
    assert_eq!(held.status, DownloadStatus::Paused);
    assert_eq!(held.progress, ProgressValue::Kept);
    assert_eq!((held.speed_bytes_per_sec, held.downloaded_bytes, held.total_bytes), (0, 120, 1000));
    assert_eq!(held.engine_task_id, Some("gid".to_string()));
    assert_eq!(held.error_message, None);
    assert!(unidl::aria2::aria2_refresh_failed_state(false, "GID 1 is not found", &snapshot()).is_some());
    assert!(unidl::aria2::aria2_refresh_failed_state(false, "bad request", &snapshot()).is_none());
}
