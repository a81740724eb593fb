use unidl::models::{AppSettings, DownloadStatus};
use unidl::state::{
    autostart_change, launched_by_autostart, should_prevent_sleep, start_hidden,
    web_settings_changed, CompletionNotices, TaskSummary,
};

fn app_settings() -> AppSettings {
    AppSettings {
        theme_mode: "system".to_string(),
        web_access_enabled: false,
        web_access_password: String::new(),
        web_access_url: "http://127.0.0.1:18080".to_string(),
        private_download_domains: Vec::new(),
        app_proxy_url: String::new(),
        torrent_file_association_enabled: false,
        auto_start_enabled: false,
        auto_start_minimized_to_tray: false,
        close_to_tray_enabled: false,
        download_completion_notification_enabled: false,
        prevent_sleep_when_downloading_enabled: false,
        prevent_sleep_when_web_access_enabled: false,
        local_download_concurrency: 3,
        auto_clean_download_tasks_enabled: false,
        auto_clean_download_tasks_days: 30,
    }
}

#[test]
fn notification_and_sleep_settings_do_not_restart_web_server() {
    let current = app_settings();
    let mut next = app_settings();
    next.download_completion_notification_enabled = true;
    next.prevent_sleep_when_downloading_enabled = true;

    assert!(!web_settings_changed(&current, &next));
}

#[test]
fn web_access_settings_restart_web_server() {
    let current = app_settings();
    let mut next = app_settings();
    next.web_access_enabled = true;

    assert!(web_settings_changed(&current, &next));

    let mut next = app_settings();
    next.web_access_password = "secret".to_string();

    assert!(web_settings_changed(&current, &next));

    let mut next = app_settings();
    next.web_access_url = "http://127.0.0.1:18081".to_string();

    assert!(web_settings_changed(&current, &next));
}

#[test]
fn sleep_is_prevented_for_downloads_or_web_access() {
    let mut settings = app_settings();
    assert!(!should_prevent_sleep(&settings, true));
    settings.prevent_sleep_when_downloading_enabled = true;
    assert!(should_prevent_sleep(&settings, true));
    assert!(!should_prevent_sleep(&settings, false));
    settings.prevent_sleep_when_web_access_enabled = true;
    assert!(!should_prevent_sleep(&settings, false));
    settings.web_access_enabled = true;
    assert!(should_prevent_sleep(&settings, false));
}

fn task(id: &str, name: &str, status: DownloadStatus) -> TaskSummary {
    TaskSummary { id: id.to_string(), file_name: name.to_string(), status }
}

#[test]
fn completed_tasks_are_announced_once() {
    let existing = vec![task("done-before", "old.bin", DownloadStatus::Completed)];
    let mut notices = CompletionNotices::new(&existing);
    let tasks = vec![
        task("done-before", "old.bin", DownloadStatus::Completed),
        task("running", "run.bin", DownloadStatus::Running),
        task("done-now", "new.bin", DownloadStatus::Completed),
    ];
    let first = notices.announce(&tasks, true);
    assert_eq!(first.len(), 1);
    assert_eq!(first[0].title, "下载完成");
    assert_eq!(first[0].body, "new.bin 已下载完成");
    assert!(notices.announce(&tasks, true).is_empty());
}

#[test]
fn disabled_notices_still_mark_tasks_announced() {
    let mut notices = CompletionNotices::new(&[]);
    let tasks = vec![task("a", "a.bin", DownloadStatus::Completed)];
    assert!(notices.announce(&tasks, false).is_empty());
    assert!(notices.announce(&tasks, true).is_empty());
}

#[test]
fn autostart_decisions() {
    let args = vec!["unidl".to_string(), "--autostart".to_string()];
    assert!(launched_by_autostart(&args));
    assert!(!launched_by_autostart(&["unidl".to_string()]));
    let mut settings = app_settings();
    assert!(!start_hidden(&settings, &args));
    settings.auto_start_minimized_to_tray = true;
    assert!(start_hidden(&settings, &args));
    assert_eq!(autostart_change(true, false), Some(true));
    assert_eq!(autostart_change(false, true), Some(false));
    assert_eq!(autostart_change(true, true), None);
}
