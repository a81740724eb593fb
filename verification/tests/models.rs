use unidl::models::{
    contains_source_type, engine_supports_source_type, supported_source_types, DownloadStatus,
    EngineKind, SourceType,
};

#[test]
fn stored_names_round_trip() {
    for kind in [EngineKind::Aria2, EngineKind::YtDlp, EngineKind::QBittorrent] {
        assert_eq!(EngineKind::from_db(kind.as_db()).ok(), Some(kind));
    }
    for t in [SourceType::Http, SourceType::Ftp, SourceType::Magnet, SourceType::Torrent] {
        assert_eq!(SourceType::from_db(t.as_db()).ok(), Some(t));
    }
    for s in [
        DownloadStatus::Queued,
        DownloadStatus::Running,
        DownloadStatus::Paused,
        DownloadStatus::Completed,
        DownloadStatus::Failed,
        DownloadStatus::Deleted,
    ] {
        assert_eq!(DownloadStatus::from_db(s.as_db()).ok(), Some(s));
    }
    assert_eq!(EngineKind::as_db(EngineKind::YtDlp), "yt-dlp");
    let err = EngineKind::from_db("transmission").err().expect("unknown engine");
    assert!(err.message().contains("transmission"));
    assert!(SourceType::from_db("gopher").is_err());
    assert!(DownloadStatus::from_db("done").is_err());
}

#[test]
fn engines_support_their_source_types() {
    assert_eq!(supported_source_types(EngineKind::QBittorrent), vec![SourceType::Magnet, SourceType::Torrent]);
    assert!(engine_supports_source_type(EngineKind::Aria2, SourceType::Ftp));
    assert!(!engine_supports_source_type(EngineKind::YtDlp, SourceType::Torrent));
    assert!(contains_source_type(&[SourceType::Http], SourceType::Http));
    assert!(!contains_source_type(&[], SourceType::Http));
}
