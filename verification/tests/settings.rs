use rdtool::settings::{download_path, category_of_extension, detect_file_category, file_extension, AppSettings, FileCategory};

#[test]
fn categories_by_extension() {
    assert_eq!(detect_file_category("movie.mkv"), FileCategory::Video);
    assert_eq!(detect_file_category("Movie.MKV"), FileCategory::Video);
    assert_eq!(detect_file_category("song.flac"), FileCategory::Audio);
    assert_eq!(detect_file_category("backup.tar.gz"), FileCategory::Archive);
    assert_eq!(detect_file_category("setup.exe"), FileCategory::Programs);
    assert_eq!(detect_file_category("Tool.AppImage"), FileCategory::Programs);
    assert_eq!(detect_file_category("README"), FileCategory::Other);
    assert_eq!(detect_file_category("notes."), FileCategory::Other);
    assert_eq!(detect_file_category("mp4"), FileCategory::Video);
}

#[test]
fn extension_is_the_text_after_the_last_dot() {
    assert_eq!(file_extension("a.b.c"), "c");
    assert_eq!(file_extension("plain"), "plain");
    assert_eq!(file_extension("trailing."), "");
    assert_eq!(category_of_extension("MKV"), FileCategory::Other);
    assert_eq!(category_of_extension("7z"), FileCategory::Archive);
}

#[test]
fn default_settings() {
    let s = AppSettings::with_download_dir("/home/me/Downloads".to_string());
    assert_eq!(s.threads_per_download, 4);
    assert_eq!(s.max_concurrent_downloads, 3);
    assert_eq!(s.download_dir, "/home/me/Downloads");
    assert!(!s.quiet_hours_enabled);
    assert!(s.quiet_hours_start.is_none() && s.quiet_hours_end.is_none());
    assert!(!s.tray_enabled);
    assert!(s.folder_rules.video.is_none());
}

#[test]
fn download_destination() {
    assert_eq!(download_path("/home/me/Downloads", "movie.mkv"), "/home/me/Downloads/movie.mkv");
    assert_eq!(download_path("", "a"), "/a");
}
