use rdtool::webdav::{mount_controls, mount_label, service_label, MountControls, WebDavStatus};

fn status(installed: bool, active: bool, mounted: bool) -> WebDavStatus {
    WebDavStatus {
        platform: "linux".into(),
        rclone_installed: true,
        service_installed: installed,
        service_active: active,
        is_mounted: mounted,
    }
}

#[test]
fn mount_section_controls() {
    assert_eq!(mount_controls(&status(false, false, false)), MountControls::Setup);
    assert_eq!(mount_controls(&status(true, false, false)), MountControls::StartOrUninstall);
    assert_eq!(mount_controls(&status(true, true, true)), MountControls::StopOrUninstall);
}

#[test]
fn mount_section_labels() {
    assert_eq!(service_label(&status(false, false, false)), "service not installed");
    assert_eq!(service_label(&status(true, false, false)), "service stopped");
    assert_eq!(service_label(&status(true, true, false)), "service active");
    assert_eq!(mount_label(&status(true, true, true)), "mounted");
    assert_eq!(mount_label(&status(true, true, false)), "not mounted");
}
