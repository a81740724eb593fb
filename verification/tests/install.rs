use std::io::{Cursor, Write};

use unidl::install::{
    extract_file_from_zip, find_zip_index, install_latest, select_release_asset, zip_entry_matches,
    InstallError,
};
use unidl::models::EngineKind;

fn archive(entries: &[(&str, &[u8])]) -> Vec<u8> {
    let mut writer = zip::ZipWriter::new(Cursor::new(Vec::new()));
    let options = zip::write::SimpleFileOptions::default()
        .compression_method(zip::CompressionMethod::Stored);
    for (name, content) in entries {
        writer.start_file(*name, options).expect("entry should start");
        writer.write_all(content).expect("entry should write");
    }
    writer.finish().expect("archive should finish").into_inner()
}

#[test]
fn release_archive_yields_the_program() {
    let bytes = archive(&[
        ("aria2-1.37.0-win-64bit-build1/README.html", b"readme"),
        ("aria2-1.37.0-win-64bit-build1/aria2c.exe", b"binary"),
    ]);
    assert_eq!(find_zip_index(&bytes, "aria2c.exe"), Ok(1));
    assert_eq!(extract_file_from_zip(&bytes, "aria2c.exe"), Ok(b"binary".to_vec()));
    assert_eq!(
        find_zip_index(&bytes, "ffmpeg.exe"),
        Err("ffmpeg.exe not found in release archive".to_string())
    );
    assert!(find_zip_index(b"not a zip", "aria2c.exe").is_err());
}

#[test]
fn release_assets_and_plans() {
    let names = vec![
        "aria2-1.37.0-aarch64-linux-android-build1.zip".to_string(),
        "aria2-1.37.0-win-32bit-build1.zip".to_string(),
        "aria2-1.37.0-win-64bit-build1.zip".to_string(),
    ];
    assert_eq!(select_release_asset(EngineKind::Aria2, &names), Ok(2));
    assert_eq!(
        select_release_asset(EngineKind::YtDlp, &names),
        Err(InstallError::AssetNotFound(EngineKind::YtDlp))
    );
    assert!(zip_entry_matches("dir\\aria2c.exe", "aria2c.exe"));
    assert!(!zip_entry_matches("aria2c.exe.sig", "aria2c.exe"));
    let plan = install_latest(EngineKind::Aria2).ok().expect("aria2 is managed");
    assert!(plan.zipped);
    assert_eq!(plan.executable_name, "aria2c.exe");
    assert!(install_latest(EngineKind::QBittorrent).is_err());
}
