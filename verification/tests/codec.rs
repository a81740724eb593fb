use unidl::codec::{
    decode_app_settings, decode_domains, decode_selected_file_indexes, decode_source_types,
    encode_app_settings, encode_domains, encode_selected_file_indexes, encode_source_types,
    SettingsReadError,
};
use unidl::models::{AppSettingsInput, SourceType};

fn input() -> AppSettingsInput {
    AppSettingsInput {
        theme_mode: "dark".to_string(),
        web_access_enabled: true,
        web_access_password: "secret".to_string(),
        web_access_url: "http://127.0.0.1:18080".to_string(),
        private_download_domains: vec![" Example.TEST ".to_string(), "".to_string()],
        app_proxy_url: "  http://proxy:8080  ".to_string(),
        torrent_file_association_enabled: false,
        auto_start_enabled: true,
        auto_start_minimized_to_tray: false,
        close_to_tray_enabled: true,
        download_completion_notification_enabled: false,
        prevent_sleep_when_downloading_enabled: true,
        prevent_sleep_when_web_access_enabled: false,
        local_download_concurrency: 5,
        auto_clean_download_tasks_enabled: true,
        auto_clean_download_tasks_days: 365,
    }
}

#[test]
fn app_settings_read_back_after_save() {
    let record = encode_app_settings(&input());
    assert_eq!(record.web_access_enabled, "1");
    assert_eq!(record.torrent_file_association_enabled, "0");
    assert_eq!(record.private_download_domains, "example.test");
    assert_eq!(record.app_proxy_url, Some("http://proxy:8080".to_string()));
    assert_eq!(record.local_download_concurrency, "5");
    let settings = decode_app_settings(&record).expect("settings should read back");
    assert_eq!(settings.theme_mode, "dark");
    assert!(settings.web_access_enabled);
    assert!(!settings.torrent_file_association_enabled);
    assert!(settings.auto_start_enabled);
    assert!(settings.close_to_tray_enabled);
    assert!(settings.prevent_sleep_when_downloading_enabled);
    assert_eq!(settings.private_download_domains, vec!["example.test".to_string()]);
    assert_eq!(settings.app_proxy_url, "http://proxy:8080");
    assert_eq!(settings.local_download_concurrency, 5);
    assert_eq!(settings.auto_clean_download_tasks_days, 365);
}

#[test]
fn corrupt_numbers_are_refused() {
    let mut record = encode_app_settings(&input());
    record.local_download_concurrency = "five".to_string();
    assert_eq!(decode_app_settings(&record).err(), Some(SettingsReadError::InvalidConcurrency));
    let mut record = encode_app_settings(&input());
    record.auto_clean_download_tasks_days = String::new();
    assert_eq!(decode_app_settings(&record).err(), Some(SettingsReadError::InvalidCleanupDays));
    let mut record = encode_app_settings(&input());
    record.app_proxy_url = None;
    record.web_access_enabled = "true".to_string();
    let settings = decode_app_settings(&record).expect("settings should read back");
    assert_eq!(settings.app_proxy_url, "");
    assert!(!settings.web_access_enabled);
}

#[test]
fn stored_lists_round_trip() {
    let types = vec![SourceType::Http, SourceType::Magnet];
    let text = encode_source_types(&types);
    assert_eq!(text, "http,magnet");
    assert_eq!(decode_source_types(&text).ok(), Some(types));
    assert!(decode_source_types("http,gopher").is_err());
    let domains = vec!["a.test".to_string(), "b.test".to_string()];
    assert_eq!(decode_domains(&encode_domains(&domains)), domains);
    let indexes = [1i64, 3, 7];
    let stored = encode_selected_file_indexes(Some(&indexes));
    assert_eq!(stored, Some("1,3,7".to_string()));
    assert_eq!(decode_selected_file_indexes(stored).ok(), Some(Some(indexes.to_vec())));
    assert_eq!(decode_selected_file_indexes(Some("  ".to_string())).ok(), Some(Some(Vec::new())));
    assert!(decode_selected_file_indexes(Some("1,x".to_string())).is_err());
    assert_eq!(decode_selected_file_indexes(None).ok(), Some(None));
}
