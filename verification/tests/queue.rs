use rdtool::queue::{DownloadOpts, DownloadStatus, DownloadTable, QueueError, QueuedDownload};

fn opts(priority: u8, at: Option<&str>, threads: Option<u8>) -> DownloadOpts {
    DownloadOpts { threads, scheduled_at: at.map(|s| s.to_string()), priority }
}

fn add(t: &mut DownloadTable, id: &str, now: &str, priority: u8, at: Option<&str>) -> QueuedDownload {
    t.enqueue_with(id, now, format!("https://h/{id}"), format!("{id}.bin"), format!("/dl/{id}.bin"), opts(priority, at, None), 4)
        .unwrap()
}

fn ids(v: &[QueuedDownload]) -> Vec<String> {
    v.iter().map(|d| d.id.clone()).collect()
}

#[test]
fn enqueue_fills_the_record() {
    let mut t = DownloadTable::new();
    let d = t
        .enqueue_with("a", "2024-01-01T00:00:00Z", "u".into(), "f".into(), "/p/f".into(), opts(2, None, Some(8)), 4)
        .unwrap();
    assert_eq!(d.status, DownloadStatus::Queued);
    assert_eq!(d.threads, 8);
    assert_eq!(d.priority, 2);
    assert_eq!(d.bytes_done, 0);
    assert_eq!(d.total_bytes, None);
    assert_eq!(d.error_msg, None);
    assert_eq!(d.created_at, "2024-01-01T00:00:00Z");
    assert_eq!(d.updated_at, "2024-01-01T00:00:00Z");
    let s = t
        .enqueue_with("b", "2024-01-01T00:00:01Z", "u".into(), "f".into(), "/p/f".into(), opts(0, Some("2024-02-01"), None), 4)
        .unwrap();
    assert_eq!(s.status, DownloadStatus::Scheduled);
    assert_eq!(s.threads, 4);
    assert_eq!(s.scheduled_at.as_deref(), Some("2024-02-01"));
    assert_eq!(t.len(), 2);
}

#[test]
fn duplicate_id_is_refused() {
    let mut t = DownloadTable::new();
    add(&mut t, "a", "t1", 0, None);
    let r = t.enqueue_with("a", "t2", "u".into(), "f".into(), "p".into(), opts(0, None, None), 4);
    assert_eq!(r.unwrap_err(), QueueError::DuplicateId);
    assert_eq!(t.len(), 1);
}

#[test]
fn random_enqueue_gets_an_id_and_a_time() {
    let mut t = DownloadTable::new();
    let d = t.enqueue("u".into(), "f".into(), "p".into(), opts(0, None, None), 3).unwrap();
    assert_eq!(d.id.len(), 36);
    assert!(d.created_at.contains('T'));
    let e = t.enqueue("u".into(), "f".into(), "p".into(), opts(0, None, None), 3).unwrap();
    assert_ne!(d.id, e.id);
}

#[test]
fn listing_orders_by_priority_then_age_and_hides_cancelled() {
    let mut t = DownloadTable::new();
    add(&mut t, "old-low", "2024-01-01T00:00:00Z", 0, None);
    add(&mut t, "new-high", "2024-01-03T00:00:00Z", 5, None);
    add(&mut t, "old-high", "2024-01-02T00:00:00Z", 5, None);
    add(&mut t, "gone", "2024-01-01T00:00:00Z", 9, None);
    t.update_status_at("gone", DownloadStatus::Cancelled, "2024-01-04T00:00:00Z");
    assert_eq!(ids(&t.get_all()), vec!["old-high", "new-high", "old-low"]);
}

#[test]
fn ready_downloads_are_scheduled_and_due() {
    let mut t = DownloadTable::new();
    add(&mut t, "due", "c1", 0, Some("2024-05-01T10:00:00Z"));
    add(&mut t, "later", "c2", 0, Some("2024-05-01T12:00:00Z"));
    add(&mut t, "queued", "c3", 0, None);
    add(&mut t, "due-high", "c4", 3, Some("2024-05-01T09:00:00Z"));
    let ready = t.get_queued_ready_at("2024-05-01T11:00:00Z");
    assert_eq!(ids(&ready), vec!["due-high", "due"]);
    let ready = t.get_queued_ready_at("2024-05-01T10:00:00Z");
    assert_eq!(ids(&ready), vec!["due-high", "due"]);
    assert!(t.get_queued_ready_at("2023").is_empty());
}

#[test]
fn status_progress_and_errors_are_read_back() {
    let mut t = DownloadTable::new();
    add(&mut t, "a", "t0", 0, None);
    add(&mut t, "b", "t0", 0, None);
    t.update_status_at("a", DownloadStatus::Active, "t1");
    t.update_progress_at("a", 500, Some(1000), "t2");
    let rows = t.rows();
    assert_eq!(rows[0].status, DownloadStatus::Active);
    assert_eq!(rows[0].bytes_done, 500);
    assert_eq!(rows[0].total_bytes, Some(1000));
    assert_eq!(rows[0].updated_at, "t2");
    assert_eq!(rows[1].updated_at, "t0");
    t.set_error_at("b", "boom", "t3");
    let rows = t.rows();
    assert_eq!(rows[1].status, DownloadStatus::Failed);
    assert_eq!(rows[1].error_msg.as_deref(), Some("boom"));
    t.update_status("b", DownloadStatus::Paused);
    assert_eq!(t.rows()[1].status, DownloadStatus::Paused);
    assert_ne!(t.rows()[1].updated_at, "t3");
}

#[test]
fn scheduling() {
    let mut t = DownloadTable::new();
    add(&mut t, "a", "t0", 0, None);
    add(&mut t, "b", "t0", 0, None);
    add(&mut t, "c", "t0", 0, None);
    t.update_status_at("c", DownloadStatus::Active, "t1");
    t.schedule_at("a", "2030-01-01", "t2");
    let rows = t.rows();
    assert_eq!(rows[0].status, DownloadStatus::Scheduled);
    assert_eq!(rows[0].scheduled_at.as_deref(), Some("2030-01-01"));
    t.schedule_all_queued_at("2031-01-01", "t3");
    let rows = t.rows();
    assert_eq!(rows[0].scheduled_at.as_deref(), Some("2030-01-01"));
    assert_eq!(rows[1].status, DownloadStatus::Scheduled);
    assert_eq!(rows[1].scheduled_at.as_deref(), Some("2031-01-01"));
    assert_eq!(rows[2].status, DownloadStatus::Active);
}

#[test]
fn reset_and_clear() {
    let mut t = DownloadTable::new();
    add(&mut t, "a", "t0", 0, None);
    add(&mut t, "b", "t0", 0, None);
    add(&mut t, "c", "t0", 0, None);
    t.update_status_at("b", DownloadStatus::Active, "t1");
    let mut u = DownloadTable::from_rows(t.rows()).unwrap();
    u.reset_active_to_queued();
    assert!(u.rows().iter().all(|d| d.status == DownloadStatus::Queued));
    assert_eq!(u.rows()[1].updated_at, "t1");
    let paths = t.clear_queue();
    assert_eq!(paths, vec!["/dl/a.bin".to_string(), "/dl/c.bin".to_string()]);
    assert_eq!(ids(&t.rows()), vec!["b"]);
}

#[test]
fn removal() {
    let mut t = DownloadTable::new();
    add(&mut t, "a", "t0", 0, None);
    add(&mut t, "b", "t0", 0, None);
    t.remove("a");
    assert_eq!(ids(&t.rows()), vec!["b"]);
    t.remove("zzz");
    assert_eq!(t.len(), 1);
}

#[test]
fn table_from_rows_refuses_duplicate_ids() {
    let mut t = DownloadTable::new();
    add(&mut t, "a", "t0", 0, None);
    let mut rows = t.rows();
    rows.push(rows[0].duplicate());
    assert!(DownloadTable::from_rows(rows).is_none());
    assert_eq!(DownloadTable::from_rows(t.rows()).unwrap().len(), 1);
    assert_eq!(t.count_status(DownloadStatus::Queued), 1);
}
