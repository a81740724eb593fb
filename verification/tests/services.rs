use unidl::services::parse_tracker_subscription_urls;

#[test]
fn tracker_subscription_urls_are_split_and_deduplicated() {
    let urls = parse_tracker_subscription_urls(
        " https://one.example/trackers.txt\nhttps://two.example/list.txt;https://one.example/trackers.txt, ",
    );

    assert_eq!(
        urls,
        vec![
            "https://one.example/trackers.txt".to_string(),
            "https://two.example/list.txt".to_string(),
        ]
    );
}

use unidl::models::{DownloadStatus, EngineKind, SourceType};
use unidl::services::{
    check_auto_rename, check_engine_settings_unused, checks_local_conflict, conflict_cleanup_paths,
    is_ytdlp_entry_for, merge_tracker_lists, partial_entry_paths, subscription_text,
    tracker_subscription_urls, validate_source_type, TrackerSubscriptionError,
};

#[test]
fn tracker_subscription_needs_aria2_and_urls() {
    assert_eq!(
        tracker_subscription_urls(EngineKind::QBittorrent, "https://a").unwrap_err(),
        TrackerSubscriptionError::NotAria2
    );
    assert_eq!(
        tracker_subscription_urls(EngineKind::Aria2, " ; , ").unwrap_err(),
        TrackerSubscriptionError::NoUrl
    );
    let urls = tracker_subscription_urls(EngineKind::Aria2, "https://a ; https://b\nhttps://a").unwrap();
    assert_eq!(urls, vec!["https://a".to_string(), "https://b".to_string()]);
    assert_eq!(subscription_text(&urls), "https://a\nhttps://b");
    assert_eq!(TrackerSubscriptionError::NoUrl.message(), "tracker subscription url is required");
}

#[test]
fn tracker_update_merges_multiple_subscriptions_and_deduplicates_trackers() {
    let bodies = vec![
        "udp://tracker.one:80/announce\nudp://tracker.two:80/announce\n".to_string(),
        "UDP://TRACKER.ONE:80/announce\nhttps://tracker.three/announce\n".to_string(),
    ];
    assert_eq!(
        merge_tracker_lists(&bodies).unwrap(),
        vec![
            "udp://tracker.one:80/announce".to_string(),
            "udp://tracker.two:80/announce".to_string(),
            "https://tracker.three/announce".to_string(),
        ]
    );
    assert_eq!(
        merge_tracker_lists(&["no trackers here".to_string()]).unwrap_err(),
        TrackerSubscriptionError::NoTrackers
    );
}

#[test]
fn engine_settings_messages() {
    assert!(validate_source_type(EngineKind::QBittorrent, SourceType::Magnet).is_ok());
    assert_eq!(
        validate_source_type(EngineKind::YtDlp, SourceType::Magnet),
        Err("yt-dlp does not support magnet tasks".to_string())
    );
    assert_eq!(
        check_engine_settings_unused("fast aria2", true),
        Err("fast aria2 is used by download tasks".to_string())
    );
    assert!(check_engine_settings_unused("fast aria2", false).is_ok());
}

#[test]
fn local_file_paths() {
    assert_eq!(
        conflict_cleanup_paths("/d/a.bin"),
        vec!["/d/a.bin".to_string(), "/d/a.bin.part".to_string(), "/d/a.bin.aria2".to_string()]
    );
    assert_eq!(
        partial_entry_paths(EngineKind::Aria2, "/d/movie.mkv"),
        vec!["/d/movie.mkv.part".to_string(), "/d/movie.mkv.aria2".to_string()]
    );
    assert_eq!(
        partial_entry_paths(EngineKind::YtDlp, "/d/video.mp4"),
        vec!["/d/video.mp4.part".to_string()]
    );
    assert!(checks_local_conflict(EngineKind::Aria2, SourceType::Http));
    assert!(!checks_local_conflict(EngineKind::QBittorrent, SourceType::Http));
    assert!(!checks_local_conflict(EngineKind::YtDlp, SourceType::Magnet));
    assert!(is_ytdlp_entry_for("Page Title", "Page Title.mp4"));
    assert!(!is_ytdlp_entry_for("Page Title", "Page Title.mp4.part"));
    assert!(!is_ytdlp_entry_for("Page Title", "Other.mp4"));
    assert!(check_auto_rename(SourceType::Ftp).is_ok());
    assert_eq!(
        check_auto_rename(SourceType::Torrent),
        Err("auto rename is only available for single-file downloads")
    );
}

#[test]
fn http_identity_and_torrent_hashes() {
    use_identity();
}

fn use_identity() {
    assert_eq!(
        unidl::services::identity_lookup_key(SourceType::Http, "  http://x/a  "),
        Some("http://x/a".to_string())
    );
    assert_eq!(unidl::services::identity_lookup_key(SourceType::Ftp, "ftp://x/a"), None);
    assert_eq!(unidl::services::identity_lookup_key(SourceType::Http, "   "), None);
    assert_eq!(unidl::services::content_length_bytes(Some("1024")), Some(1024));
    assert_eq!(unidl::services::content_length_bytes(Some("0")), None);
    assert_eq!(unidl::services::content_length_bytes(Some("abc")), None);
    assert_eq!(unidl::services::content_length_bytes(None), None);
    let torrent = b"d4:infod4:name3:abcee";
    let expected = sha1_smol::Sha1::from(&b"d4:name3:abce"[..]).digest().to_string();
    assert_eq!(
        unidl::services::input_torrent_info_hash(SourceType::Torrent, "a.torrent", torrent).ok(),
        Some(Some(expected))
    );
    assert!(unidl::services::input_torrent_info_hash(SourceType::Torrent, "a.torrent", b"x").is_err());
    assert_eq!(
        unidl::services::input_torrent_info_hash(
            SourceType::Magnet,
            "magnet:?xt=urn:btih:ABCDEF0123456789ABCDEF0123456789ABCDEF01",
            b""
        )
        .ok(),
        Some(Some("abcdef0123456789abcdef0123456789abcdef01".to_string()))
    );
    assert_eq!(unidl::services::input_torrent_info_hash(SourceType::Http, "http://x", b"").ok(), Some(None));
    assert!(unidl::services::looks_up_ytdlp_entry(false, EngineKind::YtDlp, DownloadStatus::Completed));
    assert!(!unidl::services::looks_up_ytdlp_entry(true, EngineKind::YtDlp, DownloadStatus::Completed));
    assert!(!unidl::services::looks_up_ytdlp_entry(false, EngineKind::Aria2, DownloadStatus::Completed));
}

#[test]
fn settings_errors_have_their_texts() {
    assert_eq!(unidl::services::AppSettingsError::ThemeMode.message(), "theme mode must be light or dark");
    assert_eq!(
        unidl::services::AppSettingsError::WebAccessUrl(unidl::web::BindAddressError::NotHttp).message(),
        "web access URL must start with http://"
    );
    assert_eq!(
        unidl::services::AppSettingsError::WebAccessAddress("invalid socket address syntax".to_string()).message(),
        "invalid socket address syntax"
    );
    assert_eq!(
        unidl::services::AppSettingsError::CleanupDaysNotPositive.message(),
        "auto cleanup days must be greater than 0"
    );
    assert_eq!(
        unidl::services::EngineSettingsError::UnsupportedSourceType(
            unidl::models::EngineKind::YtDlp,
            unidl::models::SourceType::Magnet
        )
        .message(),
        "yt-dlp does not support magnet tasks"
    );
    assert_eq!(
        unidl::services::EngineSettingsError::FileAllocation.message(),
        "aria2 file allocation must be one of none, prealloc, trunc, falloc"
    );
    assert_eq!(
        unidl::services::EngineSettingsError::Proxy(unidl::services::ProxyUrlError::SchemeNotAllowed(
            "http, https".to_string()
        ))
        .message(),
        "proxy url scheme must be one of: http, https"
    );
}

use unidl::models::{DownloadDuplicateKind, DownloadDuplicateTaskState};
use unidl::services::{download_duplicate_matches, DuplicateInput, DuplicateMatch};

fn candidate(status: DownloadStatus, source: &str, save_path: &str, file_name: &str, total: i64) -> unidl::services::DuplicateCandidate {
    unidl::services::DuplicateCandidate {
        status,
        source: source.to_string(),
        save_path: save_path.to_string(),
        file_name: file_name.to_string(),
        total_bytes: total,
        same_final_url: false,
        torrent_info_hash: None,
    }
}

#[test]
fn duplicate_matches_skip_deleted_tasks_in_task_order() {
    let input = DuplicateInput {
        source: "http://x/a.zip".to_string(),
        save_path: "C:/dl".to_string(),
        file_name: "a.zip".to_string(),
        total_bytes: Some(10),
        torrent_info_hash: None,
    };
    let mut other = candidate(DownloadStatus::Running, "http://y/b.zip", "D:/other", "b.zip", 5);
    other.same_final_url = true;
    let tasks = vec![
        candidate(DownloadStatus::Deleted, "http://x/a.zip", "C:/dl", "a.zip", 10),
        candidate(DownloadStatus::Completed, " http://x/a.zip ", "C:\\dl\\", "a.zip", 10),
        other,
        candidate(DownloadStatus::Paused, "http://z/c", "elsewhere", "c", 1),
    ];
    let matches = download_duplicate_matches(&input, &tasks);
    let completed = |kind| DuplicateMatch { task_index: 1, kind, task_state: DownloadDuplicateTaskState::Completed };
    assert_eq!(
        matches,
        vec![
            completed(DownloadDuplicateKind::SameSource),
            completed(DownloadDuplicateKind::SameSavePath),
            completed(DownloadDuplicateKind::SameNameAndSize),
            DuplicateMatch {
                task_index: 2,
                kind: DownloadDuplicateKind::SameFinalUrl,
                task_state: DownloadDuplicateTaskState::Active,
            },
        ]
    );
}

use unidl::services::{
    engine_proxy_allowed_schemes, format_proxy_schemes, matches_private_download_domain, normalize_domain,
    source_hostname, validate_proxy_url, ProxyUrlError,
};

#[test]
fn proxy_urls_are_checked_against_the_engine_schemes() {
    let aria2 = engine_proxy_allowed_schemes(EngineKind::Aria2);
    assert_eq!(aria2, vec!["http://", "https://"]);
    assert_eq!(format_proxy_schemes(&aria2), "http, https");
    let ytdlp = engine_proxy_allowed_schemes(EngineKind::YtDlp);
    assert!(validate_proxy_url("   ", &aria2).is_ok());
    assert!(validate_proxy_url(" HTTP://proxy:8080 ", &aria2).is_ok());
    match validate_proxy_url("socks5://proxy:1080", &aria2) {
        Err(error @ ProxyUrlError::SchemeNotAllowed(_)) => {
            assert_eq!(error.message(), "proxy url scheme must be one of: http, https")
        }
        _ => panic!("socks5 is not an aria2 proxy scheme"),
    }
    assert!(validate_proxy_url("socks5://proxy:1080", &ytdlp).is_ok());
    match validate_proxy_url("http://[::1", &aria2) {
        Err(error @ ProxyUrlError::Invalid(_)) => assert!(error.message().starts_with("invalid proxy url: ")),
        _ => panic!("an unclosed IPv6 host is not a URL"),
    }
}

#[test]
fn private_domains_match_hosts_and_subdomains() {
    assert_eq!(source_hostname("https://user@Files.Example.com:8443/a?b"), Some("files.example.com".to_string()));
    assert_eq!(source_hostname("http://[::1]:80/"), None);
    assert_eq!(source_hostname("http://[host]/x"), Some("host".to_string()));
    assert_eq!(source_hostname("no scheme here"), None);
    assert_eq!(normalize_domain("  *.Example.COM "), "example.com");
    let domains = vec!["*.example.com".to_string()];
    assert!(matches_private_download_domain("https://files.example.com/a", &domains));
    assert!(matches_private_download_domain("https://EXAMPLE.com/a", &domains));
    assert!(!matches_private_download_domain("https://notexample.com/a", &domains));
    assert!(!matches_private_download_domain("magnet:?xt=urn:btih:abc", &domains));
}

use unidl::services::{normalize_engine_settings_input, EngineSettingsError, EngineSettingsFields};

fn aria2_fields() -> EngineSettingsFields {
    EngineSettingsFields {
        id: "aria2".to_string(),
        engine: EngineKind::Aria2,
        name: "  Main aria2  ".to_string(),
        enabled: true,
        executable_path: None,
        default_download_dir: "/dl".to_string(),
        default_args: String::new(),
        connection_url: None,
        username: None,
        password: None,
        remote_path: None,
        supported_source_types: vec![SourceType::Torrent, SourceType::Http, SourceType::Torrent],
        preferred_domains: Vec::new(),
        tracker_subscription_url: Some(" https://a/list ; https://b/list\nhttps://a/list ".to_string()),
        trackers: vec![
            " udp://t1:80/announce ".to_string(),
            "UDP://T1:80/ANNOUNCE".to_string(),
            "not a tracker".to_string(),
            "http://t2/announce".to_string(),
        ],
        proxy_url: Some("  http://proxy:8080 ".to_string()),
        user_agent: Some("   ".to_string()),
        speed_limit_bytes_per_sec: 0,
        qbittorrent_download_limit_bytes_per_sec: 0,
        qbittorrent_upload_limit_bytes_per_sec: 0,
        qbittorrent_seed_ratio_limit_valid: true,
        qbittorrent_seed_time_limit_minutes: 0,
        aria2_enable_dht: true,
        aria2_enable_dht6: true,
        aria2_enable_peer_exchange: true,
        aria2_enable_lpd: true,
        aria2_bt_listen_port: 6881,
        aria2_bt_max_peers: 55,
        aria2_max_connection_per_server: 16,
        aria2_split: 16,
        aria2_min_split_size: " 1M ".to_string(),
        aria2_file_allocation: " Falloc ".to_string(),
        aria2_seed_time: 10,
        aria2_seed_ratio_valid: true,
        priority: 0,
    }
}

fn normal_parts(f: &EngineSettingsFields) -> (String, Vec<SourceType>, Option<String>, Option<String>, Option<String>, Vec<String>, String, String) {
    (
        f.name.clone(),
        f.supported_source_types.clone(),
        f.proxy_url.clone(),
        f.user_agent.clone(),
        f.tracker_subscription_url.clone(),
        f.trackers.clone(),
        f.aria2_min_split_size.clone(),
        f.aria2_file_allocation.clone(),
    )
}

#[test]
fn normalizing_engine_settings_twice_changes_nothing() {
    let Ok(once) = normalize_engine_settings_input(aria2_fields()) else { panic!("the settings are valid") };
    assert_eq!(
        normal_parts(&once),
        (
            "Main aria2".to_string(),
            vec![SourceType::Http, SourceType::Torrent],
            Some("http://proxy:8080".to_string()),
            None,
            Some("https://a/list\nhttps://b/list".to_string()),
            vec!["udp://t1:80/announce".to_string(), "http://t2/announce".to_string()],
            "1M".to_string(),
            "falloc".to_string(),
        )
    );
    let expected = normal_parts(&once);
    let Ok(twice) = normalize_engine_settings_input(once) else { panic!("normalized settings stay valid") };
    assert_eq!(normal_parts(&twice), expected);

    let mut blank = aria2_fields();
    blank.name = "   ".to_string();
    assert!(matches!(normalize_engine_settings_input(blank), Err(EngineSettingsError::NameRequired)));
    let mut port = aria2_fields();
    port.aria2_bt_listen_port = 0;
    assert!(matches!(normalize_engine_settings_input(port), Err(EngineSettingsError::ListenPortRange)));
}
