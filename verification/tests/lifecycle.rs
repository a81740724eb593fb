use unidl::lifecycle::{
    check_clear_days, check_concurrency, check_engine_accepts, check_file_selection,
    check_local_directory, check_local_file, check_selected_engine, check_torrent_files,
    delete_outcome, delete_plan, find_engine_for, has_local_capacity, needs_refresh,
    pause_frees_slot, pause_step, queued_batch, queued_engine_task_id, record_clearable, resume_step, start_plan,
    state_effects, DeleteOutcome, DeletePlan, PauseStep, ResumeStep, ServiceError, StartPlan,
};
use unidl::models::{DownloadStatus, EngineKind, EngineSummary, SourceType};

fn settings(id: &str, engine: EngineKind, enabled: bool, types: Vec<SourceType>) -> EngineSummary {
    EngineSummary {
        id: id.to_string(),
        engine,
        enabled,
        supported_source_types: types,
        executable_path: None,
        proxy_url: None,
    }
}

#[test]
fn engines_must_be_enabled_and_take_the_source() {
    let off = settings("aria2-off", EngineKind::Aria2, false, vec![SourceType::Http]);
    let err = check_engine_accepts(&off, SourceType::Http).unwrap_err();
    assert_eq!(err.message(), "aria2-off is disabled");
    let on = settings("aria2-on", EngineKind::Aria2, true, vec![SourceType::Http]);
    let err = check_engine_accepts(&on, SourceType::Magnet).unwrap_err();
    assert_eq!(err.message(), "aria2-on does not support magnet tasks");
    assert!(check_engine_accepts(&on, SourceType::Http).is_ok());
    let err = check_selected_engine(&on, EngineKind::YtDlp).unwrap_err();
    assert_eq!(err.message(), "engine settings aria2-on does not match yt-dlp");
}

#[test]
fn first_enabled_engine_is_chosen() {
    let all = vec![
        settings("a", EngineKind::Aria2, false, vec![SourceType::Http]),
        settings("b", EngineKind::YtDlp, true, vec![SourceType::Http]),
        settings("c", EngineKind::Aria2, true, vec![SourceType::Http, SourceType::Ftp]),
        settings("d", EngineKind::Aria2, true, vec![SourceType::Http]),
    ];
    assert_eq!(find_engine_for(&all, EngineKind::Aria2, SourceType::Http), Ok(2));
    let err = find_engine_for(&all, EngineKind::QBittorrent, SourceType::Magnet).unwrap_err();
    assert_eq!(err, ServiceError::NoEngine(EngineKind::QBittorrent, SourceType::Magnet));
    assert_eq!(err.message(), "no enabled qbittorrent settings supports magnet tasks");
}

#[test]
fn queue_and_capacity() {
    assert_eq!(check_concurrency(3), Ok(3));
    assert_eq!(
        check_concurrency(0).unwrap_err().message(),
        "local download concurrency must be greater than 0"
    );
    assert!(has_local_capacity(1, 2));
    assert!(!has_local_capacity(2, 2));
    assert_eq!(queued_batch(3, 1), Some(2));
    assert_eq!(queued_batch(3, 3), None);
    assert_eq!(queued_batch(3, 5), None);
    assert_eq!(queued_engine_task_id(DownloadStatus::Failed, Some("gid".to_string())), None);
    assert_eq!(
        queued_engine_task_id(DownloadStatus::Paused, Some("gid".to_string())),
        Some("gid".to_string())
    );
}

#[test]
fn queued_tasks_resume_when_begun() {
    let s = settings("a", EngineKind::Aria2, true, vec![SourceType::Http]);
    assert_eq!(start_plan(&s, SourceType::Http, false, false, 0), Ok(StartPlan::Add));
    assert_eq!(start_plan(&s, SourceType::Http, true, false, 0), Ok(StartPlan::Resume { as_paused: true }));
    assert_eq!(start_plan(&s, SourceType::Http, false, true, 0), Ok(StartPlan::Resume { as_paused: false }));
    assert_eq!(start_plan(&s, SourceType::Http, false, false, 10), Ok(StartPlan::Resume { as_paused: false }));
    assert!(start_plan(&s, SourceType::Magnet, false, false, 0).is_err());
}

#[test]
fn refresh_pause_resume_steps() {
    assert!(needs_refresh(DownloadStatus::Running, true));
    assert!(needs_refresh(DownloadStatus::Paused, true));
    assert!(!needs_refresh(DownloadStatus::Running, false));
    assert!(!needs_refresh(DownloadStatus::Completed, true));
    assert!(!needs_refresh(DownloadStatus::Queued, true));
    assert_eq!(pause_step(DownloadStatus::Queued), PauseStep::PauseQueued);
    assert_eq!(pause_step(DownloadStatus::Running), PauseStep::PauseOnEngine);
    assert_eq!(pause_step(DownloadStatus::Paused), PauseStep::Skip);
    assert!(pause_frees_slot(true, DownloadStatus::Failed));
    assert!(!pause_frees_slot(false, DownloadStatus::Paused));
    assert!(!pause_frees_slot(true, DownloadStatus::Running));
    assert_eq!(resume_step(DownloadStatus::Paused, EngineKind::Aria2, false), ResumeStep::Queue);
    assert_eq!(resume_step(DownloadStatus::Failed, EngineKind::QBittorrent, false), ResumeStep::Resume);
    assert_eq!(resume_step(DownloadStatus::Paused, EngineKind::YtDlp, true), ResumeStep::Resume);
    assert_eq!(resume_step(DownloadStatus::Running, EngineKind::Aria2, true), ResumeStep::Skip);
}

#[test]
fn delete_decisions() {
    assert_eq!(
        delete_plan(EngineKind::QBittorrent, DownloadStatus::Completed, true, true, false),
        DeletePlan { delete_downloaded: false, call_engine: true }
    );
    assert_eq!(
        delete_plan(EngineKind::Aria2, DownloadStatus::Failed, false, true, false),
        DeletePlan { delete_downloaded: true, call_engine: false }
    );
    assert_eq!(
        delete_outcome(false, true, DownloadStatus::Completed, EngineKind::Aria2, true),
        DeleteOutcome { remove_entry: true, remove_record: true, mark_failed: false }
    );
    assert_eq!(
        delete_outcome(false, true, DownloadStatus::Running, EngineKind::Aria2, true),
        DeleteOutcome { remove_entry: false, remove_record: false, mark_failed: true }
    );
    assert_eq!(
        delete_outcome(true, true, DownloadStatus::Running, EngineKind::QBittorrent, true),
        DeleteOutcome { remove_entry: false, remove_record: true, mark_failed: false }
    );
    // A Running and a Paused aria2 task deleted without the request to
    // delete files, with aria2 unreachable: their entries go.
    for status in [DownloadStatus::Running, DownloadStatus::Paused] {
        let plan = delete_plan(EngineKind::Aria2, status, true, false, true);
        assert_eq!(
            delete_outcome(true, false, status, EngineKind::Aria2, plan.delete_downloaded),
            DeleteOutcome { remove_entry: true, remove_record: true, mark_failed: false }
        );
    }
    // The same with aria2 reachable: the local file is kept.
    let plan = delete_plan(EngineKind::Aria2, DownloadStatus::Running, true, false, true);
    assert_eq!(
        delete_outcome(true, true, DownloadStatus::Running, EngineKind::Aria2, plan.delete_downloaded),
        DeleteOutcome { remove_entry: false, remove_record: true, mark_failed: false }
    );
    // A complete task keeps its file unasked, reachable or not.
    let plan = delete_plan(EngineKind::Aria2, DownloadStatus::Completed, true, false, true);
    assert_eq!(
        delete_outcome(true, false, DownloadStatus::Completed, EngineKind::Aria2, plan.delete_downloaded),
        DeleteOutcome { remove_entry: false, remove_record: true, mark_failed: false }
    );
    assert_eq!(
        check_clear_days(Some(0)).unwrap_err().message(),
        "older_than_days must be greater than 0"
    );
    assert!(check_clear_days(None).is_ok());
    assert!(check_clear_days(Some(7)).is_ok());
}

#[test]
fn file_checks() {
    assert!(check_torrent_files(SourceType::Magnet).is_ok());
    assert_eq!(
        check_torrent_files(SourceType::Http).unwrap_err().message(),
        "http does not have torrent files"
    );
    assert_eq!(
        check_file_selection(&[], SourceType::Torrent).unwrap_err().message(),
        "selected file indexes cannot be empty"
    );
    assert_eq!(
        check_file_selection(&[1, 0], SourceType::Torrent).unwrap_err().message(),
        "selected file indexes must start from 1"
    );
    assert_eq!(
        check_file_selection(&[1], SourceType::Ftp).unwrap_err().message(),
        "ftp does not support file selection"
    );
    assert!(check_file_selection(&[1, 3], SourceType::Magnet).is_ok());
    assert!(check_local_file(EngineKind::YtDlp).is_ok());
    assert_eq!(
        check_local_file(EngineKind::QBittorrent).unwrap_err().message(),
        "download task does not use a local download file managed by UniDL"
    );
    assert_eq!(
        check_local_directory(EngineKind::QBittorrent).unwrap_err().message(),
        "download task does not use a local download directory managed by UniDL"
    );
}

#[test]
fn engine_state_effects() {
    let e = state_effects(DownloadStatus::Running, Some("  Ubuntu ISO "), SourceType::Magnet, "abc");
    assert_eq!(e.rename_to, Some("Ubuntu ISO".to_string()));
    assert!(!e.check_private_domain);
    assert!(!e.start_queued);
    let e = state_effects(DownloadStatus::Completed, Some("same"), SourceType::Magnet, "same");
    assert_eq!(e.rename_to, None);
    assert!(e.check_private_domain);
    assert!(e.start_queued);
    let e = state_effects(DownloadStatus::Failed, Some("x"), SourceType::Http, "y");
    assert_eq!(e.rename_to, None);
    assert!(e.start_queued);
}

#[test]
fn clear_download_records_removes_only_finished_records_by_age() {
    let records = vec![
        ("old-completed", DownloadStatus::Completed, "2000-01-01 00:00:00", Some("2000-01-01 00:00:00")),
        ("old-failed", DownloadStatus::Failed, "2000-01-01 00:00:00", None),
        ("old-deleted", DownloadStatus::Deleted, "2000-01-01 00:00:00", None),
        ("old-running", DownloadStatus::Running, "2000-01-01 00:00:00", None),
        ("recent-completed", DownloadStatus::Completed, "2000-01-01 00:00:00", Some("2999-01-01 00:00:00")),
    ];
    assert!(check_clear_days(Some(7)).is_ok());
    let cutoff = (chrono::Utc::now() - chrono::Duration::days(7))
        .format("%Y-%m-%d %H:%M:%S")
        .to_string();
    let deleted: Vec<&str> = records
        .iter()
        .filter(|(_, status, created_at, completed_at)| {
            let at = completed_at.unwrap_or(created_at);
            record_clearable(*status, true, Some(at), Some(cutoff.as_str()))
        })
        .map(|(id, _, _, _)| *id)
        .collect();
    assert_eq!(deleted.len(), 3);
    let remaining_ids: Vec<&str> = records
        .iter()
        .map(|(id, _, _, _)| *id)
        .filter(|id| !deleted.contains(id))
        .collect();
    assert_eq!(remaining_ids.len(), 2);
    assert!(remaining_ids.contains(&"recent-completed"));
    assert!(remaining_ids.contains(&"old-running"));
    assert!(!record_clearable(DownloadStatus::Paused, false, Some("2000-01-01 00:00:00"), None));
    assert!(record_clearable(DownloadStatus::Completed, false, None, None));
    // A time that the database could not read is never old enough.
    assert!(!record_clearable(DownloadStatus::Completed, true, None, Some(cutoff.as_str())));
    assert!(!record_clearable(DownloadStatus::Completed, true, Some("2000-01-01 00:00:00"), None));
}

#[test]
fn new_tasks_wait_for_a_free_slot() {
    assert!(unidl::lifecycle::starts_now(EngineKind::Aria2, true));
    assert!(!unidl::lifecycle::starts_now(EngineKind::YtDlp, false));
    assert!(unidl::lifecycle::starts_now(EngineKind::QBittorrent, false));
}

#[test]
fn conflict_step_follows_requested_action() {
    let conflict = unidl::models::DownloadFileConflict { file_name: "a.zip".to_string(), path: "/d/a.zip".to_string() };
    assert_eq!(unidl::lifecycle::conflict_step(None, None), unidl::lifecycle::ConflictStep::Proceed);
    assert_eq!(
        unidl::lifecycle::conflict_step(Some(&conflict), None),
        unidl::lifecycle::ConflictStep::Refuse("download file already exists: /d/a.zip".to_string())
    );
    assert_eq!(
        unidl::lifecycle::conflict_step(Some(&conflict), Some(unidl::models::FileConflictAction::Prompt)),
        unidl::lifecycle::ConflictStep::Refuse("download file already exists: /d/a.zip".to_string())
    );
    assert_eq!(
        unidl::lifecycle::conflict_step(Some(&conflict), Some(unidl::models::FileConflictAction::Overwrite)),
        unidl::lifecycle::ConflictStep::Overwrite("/d/a.zip".to_string())
    );
    assert_eq!(
        unidl::lifecycle::conflict_step(Some(&conflict), Some(unidl::models::FileConflictAction::Rename)),
        unidl::lifecycle::ConflictStep::Rename
    );
}

use unidl::lifecycle::{answer_is_current, create_outcome, CreateOutcome};

#[test]
fn engine_answers_apply_only_to_the_task_as_asked() {
    assert!(answer_is_current(DownloadStatus::Running, Some("gid"), DownloadStatus::Running, Some("gid")));
    assert!(answer_is_current(DownloadStatus::Queued, None, DownloadStatus::Queued, None));
    assert!(!answer_is_current(DownloadStatus::Running, Some("gid"), DownloadStatus::Deleted, Some("gid")));
    assert!(!answer_is_current(DownloadStatus::Running, Some("gid"), DownloadStatus::Running, Some("other")));
    assert!(!answer_is_current(DownloadStatus::Running, None, DownloadStatus::Running, Some("gid")));
    assert_eq!(create_outcome(true), CreateOutcome::ApplyState);
    assert_eq!(create_outcome(false), CreateOutcome::DropTask);
}

#[test]
fn refresh_all_does_not_resurrect_deleted_task_after_stale_engine_response() {
    // The pass lists T as Running under "gid"; before aria2 answers "active",
    // another connection deletes T.
    let listed = (DownloadStatus::Running, Some("gid"));
    assert!(unidl::lifecycle::needs_refresh(listed.0, listed.1.is_some()));
    let row_now = (DownloadStatus::Deleted, Some("gid"));
    assert!(!answer_is_current(listed.0, listed.1, row_now.0, row_now.1));
}
