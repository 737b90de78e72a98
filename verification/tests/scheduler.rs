use rdtool::queue::{DownloadOpts, DownloadStatus, DownloadTable};
use rdtool::scheduler::{clock_string, in_quiet_hours, in_quiet_hours_at, tick, tick_at};
use rdtool::settings::AppSettings;

fn settings(max: u8, quiet: Option<(&str, &str)>) -> AppSettings {
    let mut s = AppSettings::with_download_dir("/dl".into());
    s.max_concurrent_downloads = max;
    if let Some((a, b)) = quiet {
        s.quiet_hours_enabled = true;
        s.quiet_hours_start = Some(a.into());
        s.quiet_hours_end = Some(b.into());
    }
    s
}

fn add(t: &mut DownloadTable, id: &str, priority: u8, at: Option<&str>) {
    let opts = DownloadOpts { threads: None, scheduled_at: at.map(|s| s.to_string()), priority };
    t.enqueue_with(id, "2024-01-01T00:00:00Z", "u".into(), id.into(), "p".into(), opts, 4).unwrap();
}

#[test]
fn clock_text() {
    assert_eq!(clock_string(7, 5), "07:05");
    assert_eq!(clock_string(23, 59), "23:59");
}

#[test]
fn quiet_window_within_a_day() {
    let s = settings(3, Some(("01:00", "03:00")));
    assert!(in_quiet_hours_at(&s, 1, 0));
    assert!(in_quiet_hours_at(&s, 2, 59));
    assert!(!in_quiet_hours_at(&s, 3, 0));
    assert!(!in_quiet_hours_at(&s, 0, 59));
}

#[test]
fn quiet_window_over_midnight() {
    let s = settings(3, Some(("22:00", "06:00")));
    assert!(in_quiet_hours_at(&s, 23, 30));
    assert!(in_quiet_hours_at(&s, 0, 0));
    assert!(in_quiet_hours_at(&s, 5, 59));
    assert!(!in_quiet_hours_at(&s, 6, 0));
    assert!(!in_quiet_hours_at(&s, 12, 0));
}

#[test]
fn no_quiet_hours_without_both_ends() {
    let mut s = settings(3, Some(("22:00", "06:00")));
    s.quiet_hours_end = None;
    assert!(!in_quiet_hours_at(&s, 23, 0));
    let _ = in_quiet_hours(&s);
    assert!(!in_quiet_hours(&settings(3, None)));
}

#[test]
fn tick_starts_due_downloads_up_to_the_limit() {
    let mut t = DownloadTable::new();
    add(&mut t, "running", 0, None);
    t.update_status_at("running", DownloadStatus::Active, "x");
    add(&mut t, "low", 0, Some("2024-01-01"));
    add(&mut t, "high", 9, Some("2024-01-01"));
    add(&mut t, "mid", 5, Some("2024-01-01"));
    add(&mut t, "future", 9, Some("2099-01-01"));
    let s = settings(3, None);
    let started = tick_at(&mut t, &s, 12, 0, "2024-06-01T00:00:00Z");
    let ids: Vec<String> = started.iter().map(|d| d.id.clone()).collect();
    assert_eq!(ids, vec!["high", "mid"]);
    assert_eq!(t.count_status(DownloadStatus::Active), 3);
    let again = tick_at(&mut t, &s, 12, 0, "2024-06-01T00:00:00Z");
    assert!(again.is_empty());
}

#[test]
fn tick_does_nothing_in_quiet_hours() {
    let mut t = DownloadTable::new();
    add(&mut t, "due", 0, Some("2024-01-01"));
    let s = settings(3, Some(("00:00", "23:59")));
    let started = tick_at(&mut t, &s, 12, 0, "2025-01-01");
    assert!(started.is_empty());
    assert_eq!(t.rows()[0].status, DownloadStatus::Scheduled);
    let mut s2 = settings(3, Some(("00:00", "23:59")));
    s2.quiet_hours_enabled = false;
    assert_eq!(tick_at(&mut t, &s2, 12, 0, "2025-01-01").len(), 1);
}

#[test]
fn tick_with_the_clock() {
    let mut t = DownloadTable::new();
    add(&mut t, "due", 0, Some("2000-01-01T00:00:00Z"));
    let started = tick(&mut t, &settings(1, None));
    assert_eq!(started.len(), 1);
    assert_eq!(t.rows()[0].status, DownloadStatus::Active);
}
