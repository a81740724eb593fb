use unidl::models::{DownloadStatus, EngineKind};
use unidl::monitor::{monitors, WatchedTasks};

#[test]
fn only_completed_local_downloads_are_watched() {
    assert!(monitors(EngineKind::Aria2, DownloadStatus::Completed));
    assert!(monitors(EngineKind::YtDlp, DownloadStatus::Completed));
    assert!(!monitors(EngineKind::QBittorrent, DownloadStatus::Completed));
    assert!(!monitors(EngineKind::Aria2, DownloadStatus::Running));
}

#[test]
fn directories_are_unwatched_with_their_last_task() {
    let mut watched = WatchedTasks::new();
    watched.insert("a", "/d", "/d/a.bin", false);
    watched.insert("b", "/d", "/d/b.bin", true);
    watched.insert("c", "/e", "/e/c.bin", false);
    assert!(watched.watches_as("a", "/d", "/d/a.bin"));
    assert!(!watched.watches_as("a", "/d", "/d/other.bin"));
    assert!(watched.missing("b"));
    assert!(!watched.missing("zzz"));
    assert!(watched.watches_directory("/e"));
    let mut in_d = watched.tasks_in_directory("/d");
    in_d.sort();
    assert_eq!(
        in_d,
        vec![("a".to_string(), "/d/a.bin".to_string()), ("b".to_string(), "/d/b.bin".to_string())]
    );
    assert_eq!(watched.remove("a"), None);
    assert_eq!(watched.remove("b"), Some("/d".to_string()));
    assert!(!watched.watches_directory("/d"));
    assert_eq!(watched.remove("b"), None);
    watched.set_missing("c", true);
    assert!(watched.missing("c"));
    let stale = watched.stale_ids(&["x".to_string()]);
    assert_eq!(stale, vec!["c".to_string()]);
    assert!(watched.stale_ids(&["c".to_string()]).is_empty());
}
