use unidl::adapters::{ProgressValue, TaskSnapshot};
use unidl::models::DownloadStatus;
use unidl::qbittorrent::{
    qbittorrent_add_form, qbittorrent_login_accepted, qbittorrent_priority_groups,
    qbittorrent_refresh_state, qbittorrent_resolved_name, qbittorrent_source_hash,
    qbittorrent_state, qbittorrent_url, remote_directory_entries, remote_path_name, QbTorrentInfo,
};

#[test]
fn api_urls_drop_trailing_slashes() {
    assert_eq!(
        qbittorrent_url(Some("http://qbittorrent.test//"), "auth/login"),
        Ok("http://qbittorrent.test/api/v2/auth/login".to_string())
    );
    assert_eq!(qbittorrent_url(None, "auth/login"), Err("qBittorrent connection url is required"));
}

#[test]
fn states_map_to_task_status() {
    assert_eq!(qbittorrent_state("pausedDL", false), DownloadStatus::Paused);
    assert_eq!(qbittorrent_state("missingFiles", false), DownloadStatus::Failed);
    assert_eq!(qbittorrent_state("ERROR", false), DownloadStatus::Failed);
    assert_eq!(qbittorrent_state("downloading", false), DownloadStatus::Running);
    assert_eq!(qbittorrent_state("pausedUP", true), DownloadStatus::Completed);
}

#[test]
fn refresh_reports_torrent() {
    let info = QbTorrentInfo {
        name: "ubuntu.iso".to_string(),
        fully_downloaded: false,
        dlspeed: 10,
        downloaded: 20,
        total_size: 30,
        state: "stalledDL".to_string(),
    };
    let snapshot = TaskSnapshot { downloaded_bytes: 0, total_bytes: 0, engine_task_id: Some("abc".to_string()) };
    let state = qbittorrent_refresh_state(&info, &snapshot);
    assert_eq!(state.status, DownloadStatus::Running);
    assert_eq!(state.progress, ProgressValue::Reported);
    assert_eq!(state.downloaded_bytes, 20);
    assert_eq!(state.file_name, Some("ubuntu.iso".to_string()));
    assert_eq!(state.engine_task_id, Some("abc".to_string()));
}

#[test]
fn magnet_names_and_logins() {
    assert_eq!(qbittorrent_resolved_name(" ABCDEF ", "abcdef"), None);
    assert_eq!(qbittorrent_resolved_name("  ", "abcdef"), None);
    assert_eq!(qbittorrent_resolved_name(" Movie ", "abcdef"), Some("Movie".to_string()));
    assert!(qbittorrent_login_accepted(" Ok.\n"));
    assert!(!qbittorrent_login_accepted("Fails."));
    assert!(!qbittorrent_login_accepted(" Fails.\n"));
    assert!(qbittorrent_login_accepted(""));
    assert!(unidl::qbittorrent::qbittorrent_resume_after_add(true));
    assert!(!unidl::qbittorrent::qbittorrent_resume_after_add(false));
}

#[test]
fn add_form_fields() {
    let form = qbittorrent_add_form(true, " C:\\Downloads ", 100, 0, Some("1.5"), 30);
    let expected: Vec<(String, String)> = vec![
        ("paused".to_string(), "true".to_string()),
        ("savepath".to_string(), "C:\\Downloads".to_string()),
        ("dlLimit".to_string(), "100".to_string()),
        ("ratioLimit".to_string(), "1.5".to_string()),
        ("seedingTimeLimit".to_string(), "30".to_string()),
    ];
    assert_eq!(form, expected);
    let form = qbittorrent_add_form(false, "", 0, 0, None, 0);
    assert_eq!(form, vec![("paused".to_string(), "false".to_string())]);
    assert_eq!(qbittorrent_source_hash("magnet:?xt=urn:btih:ABCDEF123456&dn=unidl"), "abcdef123456");
    assert_eq!(qbittorrent_source_hash("http://x/a.torrent"), "http://x/a.torrent");
}

#[test]
fn file_priorities_split_by_selection() {
    let (selected, skipped) = qbittorrent_priority_groups(&[0, 1, 2, 3], &[1, 3]);
    assert_eq!(selected, "0|2");
    assert_eq!(skipped, "1|3");
    let (selected, skipped) = qbittorrent_priority_groups(&[0, 1], &[]);
    assert_eq!(selected, "");
    assert_eq!(skipped, "0|1");
}

#[test]
fn remote_directories_are_named_and_sorted() {
    assert_eq!(remote_path_name("/data/Movies/"), "Movies");
    assert_eq!(remote_path_name("C:\\Data\\music"), "music");
    assert_eq!(remote_path_name("///"), "///");
    let entries = remote_directory_entries(&[
        "/data/b".to_string(),
        "/data/A".to_string(),
        "/other/a".to_string(),
        "/data/C/".to_string(),
    ]);
    let names: Vec<&str> = entries.iter().map(|e| e.name.as_str()).collect();
    assert_eq!(names, vec!["A", "a", "b", "C"]);
    assert_eq!(entries[1].path, "/other/a");
    assert_eq!(entries[3].path, "/data/C/");
}

#[test]
fn give_up_warnings() {
    assert_eq!(
        unidl::qbittorrent::qbittorrent_give_up_warning(Some("metaDL"), "abc", false),
        "magnet metadata name was not resolved: metaDL"
    );
    assert_eq!(
        unidl::qbittorrent::qbittorrent_give_up_warning(None, "abc", true),
        "qBittorrent task not found while resolving magnet files: abc"
    );
}

#[test]
fn qbittorrent_task_lifecycle_add_pause_resume_delete() {
    // The fake Web API answers every request with 200 and an empty body.
    assert!(qbittorrent_login_accepted(""));
    // A magnet added with no file selection is added running, so nothing is
    // resumed after the add; its id is the link's hash in lowercase.
    assert!(!unidl::qbittorrent::qbittorrent_resume_after_add(false));
    assert_eq!(
        unidl::qbittorrent::qbittorrent_source_hash("magnet:?xt=urn:btih:ABCDEF123456&dn=unidl"),
        "abcdef123456"
    );
    assert_eq!(
        qbittorrent_add_form(false, "C:\\Downloads", 0, 0, None, 0),
        vec![
            ("paused".to_string(), "false".to_string()),
            ("savepath".to_string(), "C:\\Downloads".to_string())
        ]
    );
}
