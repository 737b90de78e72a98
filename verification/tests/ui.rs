use rdtool::engine::{CompleteEvent, DownloadEvent, ErrorEvent, ProgressEvent};
use rdtool::api::RdUser;
use rdtool::queue::DownloadStatus;
use rdtool::text::join_strs;
use rdtool::ui::{newer_version, parse_link_lines, queue_controls, AppEvent, QueueControl, UiAction, UiState};
use rdtool::webdav::WebDavStatus;

fn user(name: &str) -> RdUser {
    RdUser {
        id: 1,
        username: name.into(),
        email: "e".into(),
        points: 0,
        locale: "en".into(),
        avatar: None,
        account_type: "premium".into(),
        premium: 10,
        expiration: None,
    }
}

fn progress(id: &str, done: u64) -> ProgressEvent {
    ProgressEvent { id: id.into(), bytes_done: done, total_bytes: Some(100), speed_bps: 0 }
}

#[test]
fn pasted_links() {
    assert_eq!(parse_link_lines("  a \n\n b\r\n\t\n"), vec!["a".to_string(), "b".to_string()]);
    assert!(parse_link_lines("").is_empty());
    assert_eq!(parse_link_lines("x"), vec!["x".to_string()]);
}

#[test]
fn release_tags() {
    assert_eq!(newer_version("v0.2.0", "0.1.5"), Some("0.2.0".to_string()));
    assert_eq!(newer_version("v0.1.5", "0.1.5"), None);
    assert_eq!(newer_version("0.1.4", "0.1.5"), None);
    assert_eq!(newer_version("vv1.0.0", "0.9"), Some("1.0.0".to_string()));
}

#[test]
fn login_events() {
    let mut s = UiState::new(false);
    s.login_loading = true;
    assert_eq!(s.apply_event(AppEvent::LoginDone(Err("bad token".into()))), None);
    assert!(!s.login_loading);
    assert_eq!(s.login_error.as_deref(), Some("bad token"));
    assert!(!s.logged_in);
    s.login_loading = true;
    assert_eq!(s.apply_event(AppEvent::LoginDone(Ok(user("me")))), Some(UiAction::RefreshQueue));
    assert!(s.logged_in && !s.login_loading && s.login_error.is_none());
    assert_eq!(s.user.as_ref().unwrap().username, "me");
    assert_eq!(s.apply_event(AppEvent::UserRefreshed(Err("x".into()))), None);
    assert_eq!(s.user.as_ref().unwrap().username, "me");
}

#[test]
fn torrent_and_webdav_events_ask_for_reloads() {
    let mut s = UiState::new(true);
    s.torrent_magnet = "magnet:?xt=1".into();
    s.torrent_error = Some("old".into());
    let r = rdtool::api::TorrentAddResult { id: "T".into(), uri: "u".into() };
    assert_eq!(s.apply_event(AppEvent::TorrentAdded(Ok(r))), Some(UiAction::LoadTorrents));
    assert!(s.torrent_magnet.is_empty() && s.torrent_error.is_none());
    s.webdav_busy = true;
    assert_eq!(s.apply_event(AppEvent::WebDavDone(Ok("done".into()))), Some(UiAction::LoadWebDavStatus));
    assert!(!s.webdav_busy);
    assert_eq!(s.webdav_msg.as_deref(), Some("done"));
    let st = WebDavStatus {
        platform: "linux".into(),
        rclone_installed: true,
        service_installed: false,
        service_active: false,
        is_mounted: false,
    };
    s.webdav_busy = true;
    assert_eq!(s.apply_event(AppEvent::WebDavStatus(st)), None);
    assert!(!s.webdav_busy && s.webdav_status.is_some());
    assert_eq!(s.apply_event(AppEvent::WebDavDone(Err("no".into()))), None);
    assert!(s.webdav_msg.is_none());
}

#[test]
fn download_reports_keep_one_progress_per_download() {
    let mut s = UiState::new(true);
    assert_eq!(s.apply_download_event(DownloadEvent::Progress(progress("a", 10))), None);
    assert_eq!(s.apply_download_event(DownloadEvent::Progress(progress("b", 20))), None);
    assert_eq!(s.apply_download_event(DownloadEvent::Progress(progress("a", 30))), None);
    assert_eq!(s.dl_progress.len(), 2);
    assert_eq!(s.dl_progress[1].id, "a");
    assert_eq!(s.dl_progress[1].bytes_done, 30);
    let done = CompleteEvent { id: "a".into(), path: "/p".into(), bytes_done: 100 };
    assert_eq!(s.apply_download_event(DownloadEvent::Complete(done)), Some(UiAction::RefreshQueue));
    assert_eq!(s.dl_progress.len(), 1);
    let err = ErrorEvent { id: "b".into(), error: "e".into() };
    assert_eq!(s.apply_download_event(DownloadEvent::Error(err)), Some(UiAction::RefreshQueue));
    assert!(s.dl_progress.is_empty());
}

#[test]
fn settings_and_stream_events() {
    let mut s = UiState::new(true);
    s.settings_saving = true;
    assert_eq!(s.apply_event(AppEvent::SettingsSaved(Ok(()))), None);
    assert!(!s.settings_saving && s.settings_saved);
    s.stream_loading = true;
    assert_eq!(s.apply_event(AppEvent::StreamInfoLoaded(Err("404".into()))), None);
    assert!(!s.stream_loading);
    assert_eq!(s.stream_error.as_deref(), Some("404"));
    assert_eq!(s.apply_event(AppEvent::UpdateAvailable(Some("0.2.0".into()))), None);
    assert_eq!(s.update_available.as_deref(), Some("0.2.0"));
}

#[test]
fn controls_of_each_state() {
    assert_eq!(queue_controls(DownloadStatus::Queued), vec![QueueControl::Start, QueueControl::Remove]);
    assert_eq!(queue_controls(DownloadStatus::Scheduled), vec![QueueControl::Start, QueueControl::Remove]);
    assert_eq!(queue_controls(DownloadStatus::Active), vec![QueueControl::Cancel]);
    assert_eq!(queue_controls(DownloadStatus::Paused), vec![QueueControl::Resume, QueueControl::Cancel]);
    assert_eq!(queue_controls(DownloadStatus::Completed), vec![QueueControl::Remove]);
    assert_eq!(queue_controls(DownloadStatus::Failed), vec![QueueControl::Remove]);
    assert_eq!(queue_controls(DownloadStatus::Cancelled), vec![QueueControl::Remove]);
}

#[test]
fn exported_links_paste_back() {
    let links = vec!["https://a.example/x.mkv".to_string(), "https://b.example/y".to_string()];
    assert_eq!(parse_link_lines(&join_strs(&links, '\n')), links);
    assert!(parse_link_lines(&join_strs(&Vec::new(), '\n')).is_empty());
}
