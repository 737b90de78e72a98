use rdtool::queue::DownloadStatus;

#[test]
fn status_text_round_trips() {
    let all = [
        DownloadStatus::Queued,
        DownloadStatus::Scheduled,
        DownloadStatus::Active,
        DownloadStatus::Paused,
        DownloadStatus::Completed,
        DownloadStatus::Failed,
        DownloadStatus::Cancelled,
    ];
    for s in all {
        assert_eq!(DownloadStatus::from_str(s.as_str()), s);
    }
}

#[test]
fn unknown_status_text_reads_as_queued() {
    assert_eq!(DownloadStatus::from_str("bogus"), DownloadStatus::Queued);
    assert_eq!(DownloadStatus::from_str(""), DownloadStatus::Queued);
    assert_eq!(DownloadStatus::from_str("Active"), DownloadStatus::Queued);
}

#[test]
fn float_formatting_rounds_ties_to_even() {
    assert_eq!(format!("{:.0}", 2.5f64), "2");
    assert_eq!(format!("{:.0}", 3.5f64), "4");
    assert_eq!(format!("{:.0}", 0.5f64), "0");
    assert_eq!(format!("{:.2}", 1.125f64), "1.12");
    assert_eq!(format!("{:.1}", 0.25f64), "0.2");
}
