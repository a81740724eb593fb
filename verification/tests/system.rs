use unidl::system::{
    apply_prevent_sleep, error, info, is_torrent_path, log_file_name, log_file_rotates, log_line,
    normalize_open_source, open_command, parse_open_sources, register_torrent_file_association,
    torrent_file_association_values, warn, Platform, SleepState, SleepStep,
};

#[test]
fn open_sources_come_from_arguments_after_the_program() {
    let args = vec![
        "unidl.exe".to_string(),
        "\"C:\\Downloads\\a.TORRENT\"".to_string(),
        "--autostart".to_string(),
        " magnet:?xt=urn:btih:abc ".to_string(),
    ];
    assert_eq!(
        parse_open_sources(&args),
        vec!["C:\\Downloads\\a.TORRENT".to_string(), "magnet:?xt=urn:btih:abc".to_string()]
    );
    assert_eq!(parse_open_sources(&["magnet:?xt=1".to_string()]), Vec::<String>::new());
    assert_eq!(normalize_open_source("  "), None);
    let path: Vec<char> = "x.torrent".chars().collect();
    assert!(is_torrent_path(&path));
}

#[test]
fn torrent_association_values() {
    let values = torrent_file_association_values("C:\\UniDL\\unidl.exe");
    assert_eq!(values.len(), 6);
    assert_eq!(values[0].key, "Software\\Classes\\.torrent");
    assert_eq!(values[0].value, "UniDL.Torrent");
    assert_eq!(values[4].value, "C:\\UniDL\\unidl.exe,0");
    assert_eq!(values[5].value, "\"C:\\UniDL\\unidl.exe\" \"%1\"");
    assert!(register_torrent_file_association().is_ok());
}

#[test]
fn sleep_prevention_applies_changes_only() {
    let mut state = SleepState::new();
    assert_eq!(state.set_prevent_sleep(false), SleepStep::Unchanged);
    assert_eq!(state.set_prevent_sleep(true), SleepStep::Apply(true));
    assert!(state.finish_prevent_sleep(true, Err("denied".to_string())).is_err());
    assert_eq!(state.set_prevent_sleep(true), SleepStep::Apply(true));
    assert!(state.finish_prevent_sleep(true, Ok(())).is_ok());
    assert_eq!(state.set_prevent_sleep(true), SleepStep::Unchanged);
    assert_eq!(state.on_drop(), Some(false));
    assert!(apply_prevent_sleep(false).is_ok());
    assert_eq!(
        apply_prevent_sleep(true),
        Err("preventing system sleep is only supported on Windows".to_string())
    );
}

#[test]
fn log_lines_and_files() {
    assert_eq!(
        log_line("2026-01-01 10:00:00.000", &info("started")),
        "[2026-01-01 10:00:00.000] [INFO] started"
    );
    assert_eq!(warn("w").level, "WARN");
    assert_eq!(error("e").level, "ERROR");
    assert_eq!(log_file_name("2026-01-01"), "2026-01-01.log");
    assert!(log_file_rotates("2026-01-01", "2026-01-02"));
    assert!(!log_file_rotates("2026-01-01", "2026-01-01"));
}

#[test]
fn open_commands_by_platform() {
    let (program, args) = open_command(Platform::Windows, "C:\\a b.txt");
    assert_eq!(program, "cmd");
    assert_eq!(args, vec!["/C".to_string(), "start".to_string(), String::new(), "C:\\a b.txt".to_string()]);
    let (program, args) = open_command(Platform::OtherUnix, "/a");
    assert_eq!(program, "xdg-open");
    assert_eq!(args, vec!["/a".to_string()]);
    assert_eq!(open_command(Platform::MacOs, "/a").0, "open");
}
