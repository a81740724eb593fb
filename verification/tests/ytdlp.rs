use unidl::adapters::{ProgressValue, TaskSnapshot};
use unidl::models::DownloadStatus;
use unidl::ytdlp::{
    ytdlp_completion_update, ytdlp_delete_terminates, ytdlp_ffmpeg_location_for,
    ytdlp_ffmpeg_requirement, ytdlp_pause_state, ytdlp_refresh_state, ytdlp_run_outcome,
    trim_line_ending, ytdlp_line_file_name, KillAttempts, KillStep,
};
use unidl::ytdlp::{
    decode_ytdlp_stdout_line, is_ytdlp_format_temp_file_name, parse_ytdlp_destination_name,
    ytdlp_output_template, ytdlp_speed_parts,
};

fn speed(value: &str) -> Option<i64> {
    let parts = ytdlp_speed_parts(value)?;
    let number = parts.number.parse::<f64>().ok()?;
    Some((number * parts.multiplier as f64).round() as i64)
}

#[test]
fn parse_ytdlp_speed_supports_decimal_units() {
    assert_eq!(speed("128.5KB/s"), Some(128_500));
    assert_eq!(speed("2MB/s"), Some(2_000_000));
}

#[test]
fn decode_ytdlp_stdout_line_recovers_from_gbk_on_windows() {
    // "中国" in GBK is D6 D0 B9 FA: invalid as UTF-8, valid as CP936/GBK.
    let bytes = [0xD6, 0xD0, 0xB9, 0xFA];
    let decoded = decode_ytdlp_stdout_line(&bytes, Some(936));
    assert_eq!(decoded, "中国");
}

#[test]
fn decode_ytdlp_stdout_line_passes_through_utf8() {
    let input = "[Merger] Merging formats into \"鍥藉\u{e18d}\".mp4".as_bytes();
    let decoded = decode_ytdlp_stdout_line(input, None);
    assert!(decoded.contains("鍥藉\u{e18d}"));
}

#[test]
fn parse_ytdlp_destination_name_recognises_download_merger_and_extract_lines() {
    assert_eq!(
        parse_ytdlp_destination_name("[download] Destination: C:\\Downloads\\My Video.mp4")
            .as_deref(),
        Some("My Video.mp4")
    );
    assert_eq!(
        parse_ytdlp_destination_name(
            "[Merger] Merging formats into \"C:\\Downloads\\My Video.mp4\""
        )
        .as_deref(),
        Some("My Video.mp4")
    );
    assert_eq!(
        parse_ytdlp_destination_name("[ExtractAudio] Destination: /tmp/Track.m4a").as_deref(),
        Some("Track.m4a")
    );
    assert_eq!(
        parse_ytdlp_destination_name("[download]  42.5% of 10.00MiB at 1.25MiB/s ETA 00:04"),
        None
    );
}

#[test]
fn is_ytdlp_format_temp_file_name_matches_per_format_streams_only() {
    assert!(is_ytdlp_format_temp_file_name("My Video.f137.mp4"));
    assert!(is_ytdlp_format_temp_file_name("My Video.f140.m4a"));
    assert!(!is_ytdlp_format_temp_file_name("My Video.mp4"));
    assert!(!is_ytdlp_format_temp_file_name("My Video.fancy.mp4"));
    assert!(!is_ytdlp_format_temp_file_name("My Video"));
    assert!(!is_ytdlp_format_temp_file_name(""));
}

#[test]
fn ytdlp_output_template_appends_ext_placeholder_only_when_missing() {
    assert_eq!(ytdlp_output_template("Page Title"), "Page Title.%(ext)s");
    assert_eq!(ytdlp_output_template("video.mp4"), "video.mp4");
    assert_eq!(
        ytdlp_output_template("Page Title.%(ext)s"),
        "Page Title.%(ext)s"
    );
}

#[test]
fn ytdlp_output_template_replaces_windows_invalid_filename_chars() {
    assert_eq!(
        ytdlp_output_template("4K 娴锋磱鐢熺墿濂囪\u{e747} | 鎺㈢储:娴锋磱 - YouTube"),
        "4K 娴锋磱鐢熺墿濂囪\u{e747} _ 鎺㈢储_娴锋磱 - YouTube.%(ext)s"
    );
}

#[test]
fn ytdlp_states_and_decisions() {
    let snapshot = TaskSnapshot { downloaded_bytes: 5, total_bytes: 10, engine_task_id: Some("42".to_string()) };
    let paused = ytdlp_pause_state(&snapshot);
    assert_eq!(paused.status, DownloadStatus::Paused);
    assert_eq!(paused.engine_task_id, None);
    let failed = ytdlp_refresh_state(DownloadStatus::Failed, 99, &snapshot, Some("boom".to_string()));
    assert_eq!(failed.status, DownloadStatus::Failed);
    assert_eq!(failed.speed_bytes_per_sec, 0);
    assert_eq!(failed.engine_task_id, Some("42".to_string()));
    let running = ytdlp_refresh_state(DownloadStatus::Running, 99, &snapshot, None);
    assert_eq!(running.speed_bytes_per_sec, 99);
    assert!(ytdlp_delete_terminates(DownloadStatus::Running));
    assert!(!ytdlp_delete_terminates(DownloadStatus::Paused));
    assert_eq!(ytdlp_run_outcome(true, Some("x".to_string())), (DownloadStatus::Completed, None));
    assert_eq!(
        ytdlp_run_outcome(false, Some("x".to_string())),
        (DownloadStatus::Failed, Some("x".to_string()))
    );
    assert_eq!(
        ytdlp_completion_update(DownloadStatus::Running, Some("42"), "42", DownloadStatus::Completed, 5, 10),
        Some((ProgressValue::Full, 10))
    );
    assert_eq!(
        ytdlp_completion_update(DownloadStatus::Paused, Some("42"), "42", DownloadStatus::Failed, 5, 10),
        None
    );
    assert_eq!(
        ytdlp_completion_update(DownloadStatus::Running, Some("5678"), "1234", DownloadStatus::Failed, 5, 10),
        None
    );
    assert_eq!(
        ytdlp_ffmpeg_location_for("--x", "--ffmpeg-location \"C:\\ff\""),
        Some("C:\\ff".to_string())
    );
    assert_eq!(ytdlp_ffmpeg_location_for("", ""), None);
    assert!(ytdlp_ffmpeg_requirement(Some(true), false, false).is_ok());
    assert!(ytdlp_ffmpeg_requirement(Some(false), true, true).is_err());
    assert!(ytdlp_ffmpeg_requirement(None, false, true).is_ok());
}

#[test]
fn output_lines_and_stopping() {
    assert_eq!(trim_line_ending(b"[download] x\r\n"), b"[download] x".to_vec());
    assert_eq!(trim_line_ending(b"\n\n"), Vec::<u8>::new());
    assert_eq!(
        ytdlp_line_file_name("[download] Destination: C:\\Downloads\\My Video.mp4"),
        Some("My Video.mp4".to_string())
    );
    assert_eq!(ytdlp_line_file_name("[download] Destination: /tmp/My Video.f137.mp4"), None);
    assert_eq!(ytdlp_line_file_name("[download]  42.5% of 10.00MiB"), None);
    let mut attempts = KillAttempts::new();
    assert_eq!(attempts.after_failure(1234, false, "gone"), KillStep::Gone);
    assert_eq!(attempts.after_failure(1234, true, " Access is denied. "), KillStep::Retry);
    assert_eq!(attempts.after_failure(1234, true, "  "), KillStep::Retry);
    assert_eq!(
        attempts.after_failure(1234, true, ""),
        KillStep::GiveUp("failed to stop yt-dlp process 1234 after 3 attempts: Access is denied.".to_string())
    );
    let mut quiet = KillAttempts::new();
    quiet.after_failure(7, true, "");
    quiet.after_failure(7, true, "");
    assert_eq!(
        quiet.after_failure(7, true, ""),
        KillStep::GiveUp("failed to stop yt-dlp process 7 after 3 attempts: <no taskkill stderr>".to_string())
    );
}

#[test]
fn tasklist_output_names_the_process() {
    assert!(unidl::ytdlp::tasklist_shows_pid("\"yt-dlp.exe\",\"1234\",\"Console\"", "1234"));
    assert!(!unidl::ytdlp::tasklist_shows_pid("INFO: No tasks are running", "1234"));
}

use unidl::ytdlp::{
    ffmpeg_binary_name, parse_ytdlp_pid, sanitize_ytdlp_output_name, ytdlp_byte_value_parts, ytdlp_command_args,
    OutputLines,
};

const TEMPLATE: &str = "download:[UniDL:progress] {\"status\":%(progress.status|)j,\"downloadedBytes\":%(progress.downloaded_bytes|0)j,\"totalBytes\":%(progress.total_bytes|0)j,\"totalBytesEstimate\":%(progress.total_bytes_estimate|0)j,\"speedBytesPerSec\":%(progress.speed|0)j,\"percent\":%(progress._percent_str|)j}";

fn owned(args: &[&str]) -> Vec<String> {
    args.iter().map(|a| a.to_string()).collect()
}

#[test]
fn ytdlp_command_args_follow_the_documented_order() {
    let args = ytdlp_command_args(
        "--format best",
        "",
        Some("  UA  "),
        Some(1024),
        false,
        Some("http://p:1"),
        None,
        "clip",
        "C:/dl",
        "https://v/x",
    );
    assert_eq!(
        args,
        owned(&[
            "--no-playlist", "--js-runtimes", "node", "--concurrent-fragments", "8", "--format", "best",
            "--user-agent", "UA", "--limit-rate", "1024", "--progress", "--newline", "--progress-template",
            TEMPLATE, "--force-overwrites", "--proxy", "http://p:1", "--output", "clip.%(ext)s", "-P", "C:/dl",
            "https://v/x",
        ])
    );
}

#[test]
fn ytdlp_resume_args_continue_and_pass_cookies() {
    let args = ytdlp_command_args("", " -x  ", Some("   "), Some(0), true, None, Some("c.txt"), "a.mp3", "/d", "u");
    assert_eq!(
        args,
        owned(&[
            "--no-playlist", "--js-runtimes", "node", "--concurrent-fragments", "8", "-x", "--progress",
            "--newline", "--progress-template", TEMPLATE, "--continue", "--cookies", "c.txt", "--output", "a.mp3",
            "-P", "/d", "u",
        ])
    );
}

#[test]
fn ytdlp_output_names_pids_and_sizes() {
    assert_eq!(sanitize_ytdlp_output_name("a<b>:c. "), "a_b__c");
    assert_eq!(sanitize_ytdlp_output_name("x\u{7}y"), "x_y");
    assert_eq!(ffmpeg_binary_name(true), "ffmpeg.exe");
    assert_eq!(ffmpeg_binary_name(false), "ffmpeg");
    assert_eq!(parse_ytdlp_pid("1234"), Some(1234));
    assert_eq!(parse_ytdlp_pid("4294967295"), Some(u32::MAX));
    assert_eq!(parse_ytdlp_pid("4294967296"), None);
    assert_eq!(parse_ytdlp_pid("0"), None);
    assert_eq!(parse_ytdlp_pid("-5"), None);
    assert_eq!(parse_ytdlp_pid("abc"), None);
    let chars: Vec<char> = "~1.5MiB".chars().collect();
    let parts = ytdlp_byte_value_parts(&chars).unwrap();
    assert_eq!((parts.number.as_str(), parts.multiplier), ("1.5", 1048576));
    let chars: Vec<char> = "2KB".chars().collect();
    let parts = ytdlp_byte_value_parts(&chars).unwrap();
    assert_eq!((parts.number.as_str(), parts.multiplier), ("2", 1000));
    let chars: Vec<char> = "1.2.3MiB".chars().collect();
    assert!(ytdlp_byte_value_parts(&chars).is_none());
    let chars: Vec<char> = "5XB".chars().collect();
    assert!(ytdlp_byte_value_parts(&chars).is_none());
}

#[test]
fn ytdlp_output_lines_keep_the_last_twenty() {
    let mut lines = OutputLines::new();
    assert_eq!(lines.ytdlp_error_message(), None);
    lines.remember_ytdlp_output_line("   ");
    assert_eq!(lines.ytdlp_error_message(), None);
    for i in 0..22 {
        lines.remember_ytdlp_output_line(&format!("  line {i}  "));
    }
    let expected = (2..22).map(|i| format!("line {i}")).collect::<Vec<_>>().join("\n");
    assert_eq!(lines.ytdlp_error_message(), Some(expected));
}
